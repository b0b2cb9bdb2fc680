//! The bibliographic library.  A CSL JSON document is parsed by serde_json
//! into its generic value tree, and the fields this crate uses are read out
//! of it into plain records.

use vstd::prelude::*;

verus! {

broadcast use vstd::std_specs::vec::group_vec_axioms, vstd::seq::group_seq_axioms;

/// Metadata for a source in a CSL JSON file.  Only the data the citation
/// builders use is kept; everything else in a record is discarded.
#[derive(Debug)]
pub struct CSLSource {
    pub source_type: Option<String>,
    pub id: String,
    pub author: Option<Vec<NameVariable>>,
    pub editor: Option<Vec<NameVariable>>,
    pub translator: Option<Vec<NameVariable>>,
    pub issued: Option<DateVariable>,
    pub container_title: Option<String>,
    pub container_title_short: Option<String>,
    pub edition: Option<String>,
    pub page: Option<String>,
    pub title: Option<String>,
    pub title_short: Option<String>,
    pub url: Option<String>,
    pub volume: Option<String>,
    pub authority: Option<String>,
}

/// The CSL JSON `name-variable` data.
#[derive(Debug)]
pub struct NameVariable {
    pub family: Option<String>,
    pub given: Option<String>,
    pub non_dropping_particle: Option<String>,
    pub suffix: Option<String>,
}

/// The CSL JSON `date-variable` data.  `date-parts` is a collection of
/// collections of one-to-three integers indicating the year, month, and day.
#[derive(Debug)]
pub struct DateVariable {
    pub date_parts: Option<Vec<Vec<u32>>>,
    pub season: Option<u32>,
}

/// The model of a name: each part as its characters.
pub struct NameModel {
    pub family: Option<Seq<char>>,
    pub given: Option<Seq<char>>,
    pub non_dropping_particle: Option<Seq<char>>,
    pub suffix: Option<Seq<char>>,
}

/// The model of a date: rows of numbers, and a season.
pub struct DateModel {
    pub date_parts: Option<Seq<Seq<int>>>,
    pub season: Option<int>,
}

/// The mathematical model of a CSL record: every field as characters and
/// numbers.
pub struct CslModel {
    pub source_type: Option<Seq<char>>,
    pub id: Seq<char>,
    pub author: Option<Seq<NameModel>>,
    pub editor: Option<Seq<NameModel>>,
    pub translator: Option<Seq<NameModel>>,
    pub issued: Option<DateModel>,
    pub container_title: Option<Seq<char>>,
    pub container_title_short: Option<Seq<char>>,
    pub edition: Option<Seq<char>>,
    pub page: Option<Seq<char>>,
    pub title: Option<Seq<char>>,
    pub title_short: Option<Seq<char>>,
    pub url: Option<Seq<char>>,
    pub volume: Option<Seq<char>>,
    pub authority: Option<Seq<char>>,
}

/// The model of an optional string.
pub open spec fn opt_str(o: Option<String>) -> Option<Seq<char>> {
    match o {
        Some(s) => Some(s@),
        None => None,
    }
}

impl View for NameVariable {
    type V = NameModel;

    open spec fn view(&self) -> NameModel {
        NameModel {
            family: opt_str(self.family),
            given: opt_str(self.given),
            non_dropping_particle: opt_str(self.non_dropping_particle),
            suffix: opt_str(self.suffix),
        }
    }
}

/// The models of a sequence of names, element by element.
pub open spec fn names_model(v: Seq<NameVariable>) -> Seq<NameModel>
    decreases v.len(),
{
    if v.len() == 0 {
        Seq::empty()
    } else {
        seq![v[0]@] + names_model(v.drop_first())
    }
}

pub proof fn lemma_names_model(v: Seq<NameVariable>)
    ensures
        names_model(v).len() == v.len(),
        forall|k: int| 0 <= k < v.len() ==> names_model(v)[k] == v[k]@,
    decreases v.len(),
{
    if v.len() > 0 {
        lemma_names_model(v.drop_first());
        assert forall|k: int| 0 <= k < v.len() implies names_model(v)[k] == v[k]@ by {
            if k > 0 {
                assert(v.drop_first()[k - 1] == v[k]);
            }
        }
    }
}

/// The models of one date row.
pub open spec fn row_model(v: Seq<u32>) -> Seq<int> {
    v.map_values(|x: u32| x as int)
}

/// The models of the date rows, element by element.
pub open spec fn rows_model(v: Seq<Vec<u32>>) -> Seq<Seq<int>>
    decreases v.len(),
{
    if v.len() == 0 {
        Seq::empty()
    } else {
        seq![row_model(v[0]@)] + rows_model(v.drop_first())
    }
}

pub proof fn lemma_rows_model(v: Seq<Vec<u32>>)
    ensures
        rows_model(v).len() == v.len(),
        forall|k: int| 0 <= k < v.len() ==> rows_model(v)[k] == row_model(v[k]@),
    decreases v.len(),
{
    if v.len() > 0 {
        lemma_rows_model(v.drop_first());
        assert forall|k: int| 0 <= k < v.len() implies rows_model(v)[k] == row_model(v[k]@) by {
            if k > 0 {
                assert(v.drop_first()[k - 1] == v[k]);
            }
        }
    }
}

impl View for DateVariable {
    type V = DateModel;

    open spec fn view(&self) -> DateModel {
        DateModel {
            date_parts: match self.date_parts {
                Some(dp) => Some(rows_model(dp@)),
                None => None,
            },
            season: match self.season {
                Some(x) => Some(x as int),
                None => None,
            },
        }
    }
}

impl View for CSLSource {
    type V = CslModel;

    open spec fn view(&self) -> CslModel {
        CslModel {
            source_type: opt_str(self.source_type),
            id: self.id@,
            author: match self.author {
                Some(a) => Some(names_model(a@)),
                None => None,
            },
            editor: match self.editor {
                Some(a) => Some(names_model(a@)),
                None => None,
            },
            translator: match self.translator {
                Some(a) => Some(names_model(a@)),
                None => None,
            },
            issued: match self.issued {
                Some(d) => Some(d@),
                None => None,
            },
            container_title: opt_str(self.container_title),
            container_title_short: opt_str(self.container_title_short),
            edition: opt_str(self.edition),
            page: opt_str(self.page),
            title: opt_str(self.title),
            title_short: opt_str(self.title_short),
            url: opt_str(self.url),
            volume: opt_str(self.volume),
            authority: opt_str(self.authority),
        }
    }
}

/// The models of a library of records, element by element.
pub open spec fn csl_models(v: Seq<CSLSource>) -> Seq<CslModel>
    decreases v.len(),
{
    if v.len() == 0 {
        Seq::empty()
    } else {
        seq![v[0]@] + csl_models(v.drop_first())
    }
}

pub proof fn lemma_csl_models(v: Seq<CSLSource>)
    ensures
        csl_models(v).len() == v.len(),
        forall|k: int| 0 <= k < v.len() ==> csl_models(v)[k] == v[k]@,
    decreases v.len(),
{
    if v.len() > 0 {
        lemma_csl_models(v.drop_first());
        assert forall|k: int| 0 <= k < v.len() implies csl_models(v)[k] == v[k]@ by {
            if k > 0 {
                assert(v.drop_first()[k - 1] == v[k]);
            }
        }
    }
}

#[verifier::external_type_specification]
#[verifier::external_body]
pub struct ExValue(serde_json::Value);

/// The mathematical model of a JSON value.  A number is carried as its
/// unsigned reading, when it has one; that is all this crate ever reads of
/// numbers.
pub enum JsonModel {
    Null,
    Bool(bool),
    Num(Option<u64>),
    Str(Seq<char>),
    Arr(Seq<JsonModel>),
    Obj(Seq<(Seq<char>, JsonModel)>),
}

/// The member stored under `key`: the first field with that name.
pub open spec fn obj_lookup(fields: Seq<(Seq<char>, JsonModel)>, key: Seq<char>) -> Option<
    JsonModel,
>
    decreases fields.len(),
{
    if fields.len() == 0 {
        None
    } else if fields[0].0 == key {
        Some(fields[0].1)
    } else {
        obj_lookup(fields.drop_first(), key)
    }
}

/// The model of a serde_json value.
pub uninterp spec fn value_model(v: serde_json::Value) -> JsonModel;

/// The model of the JSON document a string parses to, or nothing when the
/// string is not JSON.  The parse depends on the text alone.
pub uninterp spec fn json_parse_of(s: Seq<char>) -> Option<JsonModel>;

/// The models of a sequence of serde_json values, element by element.
pub open spec fn values_model(v: Seq<serde_json::Value>) -> Seq<JsonModel>
    decreases v.len(),
{
    if v.len() == 0 {
        Seq::empty()
    } else {
        seq![value_model(v[0])] + values_model(v.drop_first())
    }
}

pub proof fn lemma_values_model(v: Seq<serde_json::Value>)
    ensures
        values_model(v).len() == v.len(),
        forall|k: int| 0 <= k < v.len() ==> values_model(v)[k] == value_model(v[k]),
    decreases v.len(),
{
    if v.len() > 0 {
        lemma_values_model(v.drop_first());
        assert forall|k: int| 0 <= k < v.len() implies values_model(v)[k] == value_model(
            v[k],
        ) by {
            if k > 0 {
                assert(v.drop_first()[k - 1] == v[k]);
            }
        }
    }
}

/// Relies on `serde_json::from_str::<Value>`: parses a JSON document into
/// serde_json's generic value, whose parse depends on the text alone, or
/// describes why the text is not JSON.
#[verifier::external_body]
fn parse_json(s: &str) -> (r: Result<serde_json::Value, String>)
    ensures
        match r {
            Ok(v) => json_parse_of(s@) == Some(value_model(v)),
            Err(_) => json_parse_of(s@) is None,
        },
{
    match serde_json::from_str::<serde_json::Value>(s) {
        Ok(v) => Ok(v),
        Err(e) => Err(e.to_string()),
    }
}

/// Relies on `serde_json::Value::as_array`: the element vector exactly when
/// the value is a JSON array.
#[verifier::external_body]
fn json_as_array(v: &serde_json::Value) -> (r: Option<&Vec<serde_json::Value>>)
    ensures
        match r {
            Some(a) => value_model(*v) matches JsonModel::Arr(elts) && values_model(a@) == elts,
            None => !(value_model(*v) is Arr),
        },
{
    v.as_array()
}

/// Relies on `serde_json::Value::get`: the member of a JSON object under the
/// given key, exactly when the value is an object holding that key.
#[verifier::external_body]
fn json_get<'a>(v: &'a serde_json::Value, key: &str) -> (r: Option<&'a serde_json::Value>)
    ensures
        match r {
            Some(x) => value_model(*v) matches JsonModel::Obj(fields) && obj_lookup(fields, key@)
                == Some(value_model(*x)),
            None => match value_model(*v) {
                JsonModel::Obj(fields) => obj_lookup(fields, key@) is None,
                _ => true,
            },
        },
{
    v.get(key)
}

/// Relies on `serde_json::Value::as_str`: the contents exactly when the
/// value is a JSON string.
#[verifier::external_body]
fn json_as_str(v: &serde_json::Value) -> (r: Option<String>)
    ensures
        match r {
            Some(s) => value_model(*v) matches JsonModel::Str(t) && s@ == t,
            None => !(value_model(*v) is Str),
        },
{
    match v.as_str() {
        Some(s) => Some(s.to_string()),
        None => None,
    }
}

/// Relies on `serde_json::Value::as_u64`: the number exactly when the value
/// is a non-negative JSON integer that fits in a `u64`.
#[verifier::external_body]
fn json_as_u64(v: &serde_json::Value) -> (r: Option<u64>)
    ensures
        match r {
            Some(x) => value_model(*v) matches JsonModel::Num(u) && u == Some(x),
            None => !(value_model(*v) matches JsonModel::Num(u) && u is Some),
        },
{
    v.as_u64()
}

/// The member stored under `key` of a modelled value, when it is an object.
pub open spec fn jm_get(m: JsonModel, key: Seq<char>) -> Option<JsonModel> {
    match m {
        JsonModel::Obj(fields) => obj_lookup(fields, key),
        _ => None,
    }
}

/// A member read as a string.
pub open spec fn get_string_spec(m: JsonModel, key: Seq<char>) -> Option<Seq<char>> {
    match jm_get(m, key) {
        Some(JsonModel::Str(t)) => Some(t),
        _ => None,
    }
}

/// The member of a JSON object under `key`, read as a string.
fn get_string(v: &serde_json::Value, key: &str) -> (r: Option<String>)
    ensures
        match r {
            Some(x) => get_string_spec(value_model(*v), key@) == Some(x@),
            None => get_string_spec(value_model(*v), key@) is None,
        },
{
    match json_get(v, key) {
        Some(x) => json_as_str(x),
        None => None,
    }
}

/// The name a modelled record member denotes.
pub open spec fn name_of_model(m: JsonModel) -> NameModel {
    NameModel {
        family: get_string_spec(m, "family"@),
        given: get_string_spec(m, "given"@),
        non_dropping_particle: get_string_spec(m, "non-dropping-particle"@),
        suffix: get_string_spec(m, "suffix"@),
    }
}

/// The names an array's elements denote, from index `i` on.
pub open spec fn names_from(elts: Seq<JsonModel>, i: int) -> Seq<NameModel>
    decreases elts.len() - i,
{
    if !(0 <= i < elts.len()) {
        Seq::empty()
    } else {
        seq![name_of_model(elts[i])] + names_from(elts, i + 1)
    }
}

/// A member read as a list of names: present exactly when it is an array.
pub open spec fn get_names_spec(m: JsonModel, key: Seq<char>) -> Option<Seq<NameModel>> {
    match jm_get(m, key) {
        Some(JsonModel::Arr(elts)) => Some(names_from(elts, 0)),
        _ => None,
    }
}

/// The member of a JSON object under `key`, read as a vector of names.
fn get_names(v: &serde_json::Value, key: &str) -> (r: Option<Vec<NameVariable>>)
    ensures
        match r {
            Some(ns) => get_names_spec(value_model(*v), key@) == Some(names_model(ns@)),
            None => get_names_spec(value_model(*v), key@) is None,
        },
{
    let member = json_get(v, key);
    match member {
        None => None,
        Some(x) => {
            match json_as_array(x) {
                None => None,
                Some(arr) => {
                    let ghost em = values_model(arr@);
                    let mut names: Vec<NameVariable> = Vec::new();
                    let n: usize = arr.len();
                    let mut i: usize = 0;
                    proof {
                        lemma_values_model(arr@);
                        assert(names_model(names@) =~= Seq::<NameModel>::empty());
                        assert(Seq::<NameModel>::empty() + names_from(em, 0) =~= names_from(
                            em,
                            0,
                        ));
                    }
                    while i < n
                        invariant
                            n == arr@.len(),
                            i <= n,
                            em == values_model(arr@),
                            em.len() == n,
                            forall|k: int| 0 <= k < n ==> em[k] == value_model(arr@[k]),
                            names_from(em, 0) == names_model(names@) + names_from(em, i as int),
                        decreases n - i,
                    {
                        let ghost pre = names_model(names@);
                        let name = NameVariable {
                            family: get_string(&arr[i], "family"),
                            given: get_string(&arr[i], "given"),
                            non_dropping_particle: get_string(&arr[i], "non-dropping-particle"),
                            suffix: get_string(&arr[i], "suffix"),
                        };
                        proof {
                            assert(name@ == name_of_model(em[i as int]));
                        }
                        let ghost v0 = names@;
                        names.push(name);
                        proof {
                            lemma_names_model(v0);
                            lemma_names_model(names@);
                            assert(names_model(names@) =~= pre + seq![name@]);
                            assert(pre + (seq![name_of_model(em[i as int])] + names_from(
                                em,
                                i + 1,
                            )) =~= names_model(names@) + names_from(em, i + 1));
                        }
                        i = i + 1;
                    }
                    proof {
                        assert(names_model(names@) + names_from(em, n as int) =~= names_model(
                            names@,
                        ));
                    }
                    Some(names)
                },
            }
        },
    }
}

/// The unsigned 32-bit reading of a modelled value, when it has one.
pub open spec fn u32_reading(m: JsonModel) -> Option<int> {
    match m {
        JsonModel::Num(u) => match u {
            Some(x) => if x <= 0xffff_ffffu64 {
                Some(x as int)
            } else {
                None
            },
            None => None,
        },
        _ => None,
    }
}

/// A JSON value read as a small number.
fn get_u32(v: &serde_json::Value) -> (r: Option<u32>)
    ensures
        match r {
            Some(x) => u32_reading(value_model(*v)) == Some(x as int),
            None => u32_reading(value_model(*v)) is None,
        },
{
    match json_as_u64(v) {
        None => None,
        Some(x) => {
            if x <= 0xffff_ffffu64 {
                Some(x as u32)
            } else {
                None
            }
        },
    }
}

/// The numbers among one modelled row's cells, from index `j` on: each cell
/// with a small unsigned reading, in order.
pub open spec fn cell_vals(cells: Seq<JsonModel>, j: int) -> Seq<int>
    decreases cells.len() - j,
{
    if !(0 <= j < cells.len()) {
        Seq::empty()
    } else {
        match u32_reading(cells[j]) {
            Some(x) => seq![x] + cell_vals(cells, j + 1),
            None => cell_vals(cells, j + 1),
        }
    }
}

/// The date rows a modelled array denotes, from index `i` on: an array row
/// gives its readable cells, anything else an empty row.
pub open spec fn rows_from(rows: Seq<JsonModel>, i: int) -> Seq<Seq<int>>
    decreases rows.len() - i,
{
    if !(0 <= i < rows.len()) {
        Seq::empty()
    } else {
        let row: Seq<int> = match rows[i] {
            JsonModel::Arr(cells) => cell_vals(cells, 0),
            _ => Seq::empty(),
        };
        seq![row] + rows_from(rows, i + 1)
    }
}

/// The date a modelled record denotes: present exactly when the record holds
/// an `issued` member.
pub open spec fn date_spec(m: JsonModel) -> Option<DateModel> {
    match jm_get(m, "issued"@) {
        None => None,
        Some(x) => Some(
            DateModel {
                date_parts: match jm_get(x, "date-parts"@) {
                    Some(JsonModel::Arr(rows)) => Some(rows_from(rows, 0)),
                    _ => None,
                },
                season: match jm_get(x, "season"@) {
                    Some(sv) => u32_reading(sv),
                    None => None,
                },
            },
        ),
    }
}

/// One row of date cells, read from a JSON array.
fn read_row(cells: &Vec<serde_json::Value>) -> (row: Vec<u32>)
    ensures
        crate::csljson::row_model(row@) == cell_vals(values_model(cells@), 0),
{
    let ghost cm = values_model(cells@);
    let mut row: Vec<u32> = Vec::new();
    let m: usize = cells.len();
    let mut j: usize = 0;
    proof {
        lemma_values_model(cells@);
        assert(row_model(row@) =~= Seq::<int>::empty());
        assert(Seq::<int>::empty() + cell_vals(cm, 0) =~= cell_vals(cm, 0));
    }
    while j < m
        invariant
            m == cells@.len(),
            j <= m,
            cm == values_model(cells@),
            cm.len() == m,
            forall|k: int| 0 <= k < m ==> cm[k] == value_model(cells@[k]),
            cell_vals(cm, 0) == row_model(row@) + cell_vals(cm, j as int),
        decreases m - j,
    {
        let ghost pre = row_model(row@);
        match get_u32(&cells[j]) {
            Some(x) => {
                row.push(x);
                proof {
                    assert(row_model(row@) =~= pre + seq![x as int]);
                    assert(pre + (seq![x as int] + cell_vals(cm, j + 1)) =~= row_model(row@)
                        + cell_vals(cm, j + 1));
                }
            },
            None => {},
        }
        j = j + 1;
    }
    proof {
        assert(row_model(row@) + cell_vals(cm, m as int) =~= row_model(row@));
    }
    row
}

/// The `issued` member of a record, read as a date.
fn get_issued(v: &serde_json::Value) -> (r: Option<DateVariable>)
    ensures
        match r {
            Some(d) => date_spec(value_model(*v)) == Some(d@),
            None => date_spec(value_model(*v)) is None,
        },
{
    match json_get(v, "issued") {
        None => None,
        Some(x) => {
            let date_parts: Option<Vec<Vec<u32>>> = match json_get(x, "date-parts") {
                None => None,
                Some(dp) => {
                    match json_as_array(dp) {
                        None => None,
                        Some(rows) => {
                            let ghost rm = values_model(rows@);
                            let mut out: Vec<Vec<u32>> = Vec::new();
                            let n: usize = rows.len();
                            let mut i: usize = 0;
                            proof {
                                lemma_values_model(rows@);
                                assert(rows_model(out@) =~= Seq::<Seq<int>>::empty());
                                assert(Seq::<Seq<int>>::empty() + rows_from(rm, 0) =~= rows_from(
                                    rm,
                                    0,
                                ));
                            }
                            while i < n
                                invariant
                                    n == rows@.len(),
                                    i <= n,
                                    rm == values_model(rows@),
                                    rm.len() == n,
                                    forall|k: int|
                                        0 <= k < n ==> rm[k] == value_model(rows@[k]),
                                    rows_from(rm, 0) == rows_model(out@) + rows_from(
                                        rm,
                                        i as int,
                                    ),
                                decreases n - i,
                            {
                                let ghost pre = rows_model(out@);
                                let row: Vec<u32> = match json_as_array(&rows[i]) {
                                    None => Vec::new(),
                                    Some(cells) => read_row(cells),
                                };
                                proof {
                                    assert(row_model(row@) == (match rm[i as int] {
                                        JsonModel::Arr(cells) => cell_vals(cells, 0),
                                        _ => Seq::empty(),
                                    })) by {
                                        match rm[i as int] {
                                            JsonModel::Arr(_) => {},
                                            _ => {
                                                assert(row@ =~= Seq::<u32>::empty());
                                                assert(row_model(row@) =~= Seq::<int>::empty());
                                            },
                                        }
                                    }
                                }
                                let ghost v0 = out@;
                                out.push(row);
                                proof {
                                    lemma_rows_model(v0);
                                    lemma_rows_model(out@);
                                    assert(rows_model(out@) =~= pre + seq![row_model(row@)]);
                                    assert(pre + (seq![row_model(row@)] + rows_from(rm, i + 1))
                                        =~= rows_model(out@) + rows_from(rm, i + 1));
                                }
                                i = i + 1;
                            }
                            proof {
                                assert(rows_model(out@) + rows_from(rm, n as int) =~= rows_model(
                                    out@,
                                ));
                            }
                            Some(out)
                        },
                    }
                },
            };
            let season = match json_get(x, "season") {
                None => None,
                Some(sv) => get_u32(sv),
            };
            Some(DateVariable { date_parts, season })
        },
    }
}

/// The record a modelled value denotes: present exactly when it holds a
/// string `id`; every other field is optional.
pub open spec fn record_spec(m: JsonModel) -> Option<CslModel> {
    match get_string_spec(m, "id"@) {
        None => None,
        Some(id) => Some(
            CslModel {
                source_type: get_string_spec(m, "type"@),
                id,
                author: get_names_spec(m, "author"@),
                editor: get_names_spec(m, "editor"@),
                translator: get_names_spec(m, "translator"@),
                issued: date_spec(m),
                container_title: get_string_spec(m, "container-title"@),
                container_title_short: get_string_spec(m, "container-title-short"@),
                edition: get_string_spec(m, "edition"@),
                page: get_string_spec(m, "page"@),
                title: get_string_spec(m, "title"@),
                title_short: get_string_spec(m, "title-short"@),
                url: get_string_spec(m, "URL"@),
                volume: get_string_spec(m, "volume"@),
                authority: get_string_spec(m, "authority"@),
            },
        ),
    }
}

/// One CSL record, read from a JSON object.  A record without an `id` is an
/// error; every other field is optional.
fn build_record(v: &serde_json::Value) -> (r: Result<CSLSource, String>)
    ensures
        match r {
            Ok(rec) => record_spec(value_model(*v)) == Some(rec@),
            Err(e) => record_spec(value_model(*v)) is None && e@ == "missing field `id`"@,
        },
{
    let id = match get_string(v, "id") {
        Some(s) => s,
        None => {
            return Err(String::from_str("missing field `id`"));
        },
    };
    Ok(
        CSLSource {
            source_type: get_string(v, "type"),
            id,
            author: get_names(v, "author"),
            editor: get_names(v, "editor"),
            translator: get_names(v, "translator"),
            issued: get_issued(v),
            container_title: get_string(v, "container-title"),
            container_title_short: get_string(v, "container-title-short"),
            edition: get_string(v, "edition"),
            page: get_string(v, "page"),
            title: get_string(v, "title"),
            title_short: get_string(v, "title-short"),
            url: get_string(v, "URL"),
            volume: get_string(v, "volume"),
            authority: get_string(v, "authority"),
        },
    )
}

/// The records a modelled array denotes, from index `i` on: nothing as soon
/// as one record lacks its `id`.
pub open spec fn lib_from(elts: Seq<JsonModel>, i: int) -> Option<Seq<CslModel>>
    decreases elts.len() - i,
{
    if !(0 <= i < elts.len()) {
        Some(Seq::empty())
    } else {
        match record_spec(elts[i]) {
            None => None,
            Some(rec) => match lib_from(elts, i + 1) {
                Some(rest) => Some(seq![rec] + rest),
                None => None,
            },
        }
    }
}

/// The library a string denotes: the text must parse as a JSON array whose
/// every record holds an `id`.
pub open spec fn csl_lib_spec(s: Seq<char>) -> Option<Seq<CslModel>> {
    match json_parse_of(s) {
        None => None,
        Some(m) => match m {
            JsonModel::Arr(elts) => lib_from(elts, 0),
            _ => None,
        },
    }
}

/// Deserialize the CSL JSON library.
///
/// Deserialize a string of JSON into a collection of [`CSLSource`]s.
/// Succeeds exactly when the text is a JSON array of records each holding an
/// `id`, and then yields those records; any failure is reported with the
/// deserialization-error prefix.
pub fn build_csl_lib(csl_string: &str) -> (r: Result<Vec<CSLSource>, String>)
    ensures
        match r {
            Ok(lib) => csl_lib_spec(csl_string@) == Some(csl_models(lib@)),
            Err(e) => csl_lib_spec(csl_string@) is None && crate::text::contains_sub(
                e@,
                "error deserializing the CSL JSON"@,
            ),
        },
{
    let value = match parse_json(csl_string) {
        Ok(v) => v,
        Err(e) => {
            let mut msg = String::from_str("error deserializing the CSL JSON\u{2014}");
            msg.append(e.as_str());
            proof {
                reveal_strlit("error deserializing the CSL JSON\u{2014}");
                reveal_strlit("error deserializing the CSL JSON");
                assert(msg@.subrange(0, "error deserializing the CSL JSON"@.len() as int)
                    =~= "error deserializing the CSL JSON"@);
                crate::text::lemma_has_prefix(msg@, "error deserializing the CSL JSON"@);
            }
            return Err(msg);
        },
    };
    let arr = match json_as_array(&value) {
        Some(a) => a,
        None => {
            let mut msg = String::from_str("error deserializing the CSL JSON\u{2014}");
            msg.append("the document is not a JSON array");
            proof {
                reveal_strlit("error deserializing the CSL JSON\u{2014}");
                reveal_strlit("error deserializing the CSL JSON");
                assert(msg@.subrange(0, "error deserializing the CSL JSON"@.len() as int)
                    =~= "error deserializing the CSL JSON"@);
                crate::text::lemma_has_prefix(msg@, "error deserializing the CSL JSON"@);
            }
            return Err(msg);
        },
    };
    let ghost em = values_model(arr@);
    let mut lib: Vec<CSLSource> = Vec::new();
    let n: usize = arr.len();
    let mut i: usize = 0;
    proof {
        lemma_values_model(arr@);
        assert(csl_models(lib@) =~= Seq::<CslModel>::empty());
        match lib_from(em, 0) {
            Some(rest) => {
                assert(Seq::<CslModel>::empty() + rest =~= rest);
            },
            None => {},
        }
    }
    while i < n
        invariant
            n == arr@.len(),
            i <= n,
            em == values_model(arr@),
            em.len() == n,
            forall|k: int| 0 <= k < n ==> em[k] == value_model(arr@[k]),
            csl_lib_spec(csl_string@) == lib_from(em, 0),
            lib_from(em, 0) == (match lib_from(em, i as int) {
                Some(rest) => Some(csl_models(lib@) + rest),
                None => None::<Seq<CslModel>>,
            }),
        decreases n - i,
    {
        let ghost pre = csl_models(lib@);
        match build_record(&arr[i]) {
            Ok(rec) => {
                let ghost v0 = lib@;
                lib.push(rec);
                proof {
                    lemma_csl_models(v0);
                    lemma_csl_models(lib@);
                    assert(csl_models(lib@) =~= pre + seq![rec@]);
                    match lib_from(em, i + 1) {
                        Some(rest) => {
                            assert(pre + (seq![rec@] + rest) =~= csl_models(lib@) + rest);
                        },
                        None => {},
                    }
                }
            },
            Err(e) => {
                let mut msg = String::from_str("error deserializing the CSL JSON\u{2014}");
                msg.append(e.as_str());
                proof {
                    assert(lib_from(em, i as int) is None);
                    reveal_strlit("error deserializing the CSL JSON\u{2014}");
                    reveal_strlit("error deserializing the CSL JSON");
                    assert(msg@.subrange(0, "error deserializing the CSL JSON"@.len() as int)
                        =~= "error deserializing the CSL JSON"@);
                    crate::text::lemma_has_prefix(msg@, "error deserializing the CSL JSON"@);
                }
                return Err(msg);
            },
        }
        i = i + 1;
    }
    proof {
        match lib_from(em, n as int) {
            Some(rest) => {
                assert(csl_models(lib@) + rest =~= csl_models(lib@));
            },
            None => {},
        }
    }
    Ok(lib)
}

} // verus!
