//! The source map: one record per distinct bibliography entry actually
//! cited, with its long and short citation strings and the footnotes in
//! which it appears.

use crate::buildsource::{
    build_long_cite, build_short_cite, build_source, long_post_spec, long_pre_spec, no_title_msg,
    short_base_spec, short_no_pin_spec, source_short_author,
};
use crate::csljson::{csl_models, lemma_csl_models, CSLSource, CslModel};
use crate::parser::{Branch, BranchModel, CitationModel};
use crate::text::replace_all_spec;
use crate::userjournals::UserJournals;
use vstd::prelude::*;

verus! {

broadcast use vstd::std_specs::vec::group_vec_axioms, vstd::seq::group_seq_axioms;

/// The types of currently supported sources, plus the catchall `Other`.
#[derive(Copy, Clone, Debug, PartialEq, Eq, Structural)]
pub enum SourceType {
    Book,
    Chapter,
    JournalArticle,
    Manuscript,
    Case,
    Other,
}

/// A source cited in the input document and built from the CSL JSON library.
///
/// `reference` is the raw citation token (brackets and at-sign included) that
/// keys the source map; `id` is the bare bibliography key; `csl_index` is the
/// position of the source's record in the CSL library.  `all_footnotes`
/// collects every footnote in which the source is cited, in document order.
/// The citation strings are synthesized after every source has been
/// discovered; `cited` flips when the renderer first prints the source, and
/// `hereinafter` marks a short author shared with another source.
#[derive(Debug)]
pub struct Source {
    pub reference: String,
    pub id: String,
    pub csl_index: usize,
    pub source_type: SourceType,
    pub all_footnotes: Vec<i32>,
    pub long_cite_no_pin: Option<String>,
    pub long_cite_w_pin: Option<(String, String)>,
    pub short_cite_no_pin: Option<String>,
    pub short_cite_w_pin: Option<String>,
    pub short_author: Option<String>,
    pub cited: bool,
    pub hereinafter: bool,
}

/// A long cite with a pincite spliced in between its pre-pin and post-pin
/// halves: a bare page for books, a manuscript page note for manuscripts, and
/// a comma-led page otherwise.
pub open spec fn long_w_pin_spec(st: SourceType, pre: Seq<char>, post: Seq<char>, pin: Seq<char>) -> Seq<char> {
    let middle: Seq<char> = if st is Book {
        " "@ + pin
    } else if st is Manuscript {
        " (manuscript at "@ + pin + ")"@
    } else {
        ", "@ + pin
    };
    pre + middle + post
}

/// A short cite with a pincite appended: ` at` for cases, `, at` otherwise.
pub open spec fn short_w_pin_spec(st: SourceType, base: Seq<char>, pin: Seq<char>) -> Seq<char> {
    if st is Case {
        base + " at "@ + pin
    } else {
        base + ", at "@ + pin
    }
}

impl Source {
    /// Output a long cite with no pin.
    pub fn long_cite_no_pin(&self) -> (r: String)
        requires
            self.long_cite_no_pin is Some,
        ensures
            r@ == self.long_cite_no_pin->Some_0@,
    {
        match &self.long_cite_no_pin {
            Some(s) => s.clone(),
            None => String::new(),
        }
    }

    /// Output a long cite with a pin.
    pub fn long_cite_w_pin(&self, pin: &str) -> (r: String)
        requires
            self.long_cite_w_pin is Some,
        ensures
            r@ == long_w_pin_spec(
                self.source_type,
                self.long_cite_w_pin->Some_0.0@,
                self.long_cite_w_pin->Some_0.1@,
                pin@,
            ),
    {
        let mut cite = match &self.long_cite_w_pin {
            Some(p) => p.0.clone(),
            None => String::new(),
        };
        if self.source_type == SourceType::Book {
            cite.append(" ");
            cite.append(pin);
        } else if self.source_type == SourceType::Manuscript {
            cite.append(" (manuscript at ");
            cite.append(pin);
            cite.append(")");
        } else {
            cite.append(", ");
            cite.append(pin);
        }
        match &self.long_cite_w_pin {
            Some(p) => {
                cite.append(p.1.as_str());
            },
            None => {},
        }
        proof {
            assert(cite@ =~= long_w_pin_spec(
                self.source_type,
                self.long_cite_w_pin->Some_0.0@,
                self.long_cite_w_pin->Some_0.1@,
                pin@,
            ));
        }
        cite
    }

    /// Output a short cite with no pin.
    pub fn short_cite_no_pin(&self) -> (r: String)
        requires
            self.short_cite_no_pin is Some,
        ensures
            r@ == self.short_cite_no_pin->Some_0@,
    {
        match &self.short_cite_no_pin {
            Some(s) => s.clone(),
            None => String::new(),
        }
    }

    /// Output a short cite.
    pub fn short_cite(&self) -> (r: String)
        requires
            self.short_cite_no_pin is Some,
        ensures
            r@ == self.short_cite_no_pin->Some_0@,
    {
        self.short_cite_no_pin()
    }

    /// Output a short cite with a pin.
    pub fn short_cite_w_pin(&self, pin: &str) -> (r: String)
        requires
            self.short_cite_w_pin is Some,
        ensures
            r@ == short_w_pin_spec(self.source_type, self.short_cite_w_pin->Some_0@, pin@),
    {
        let mut cite = match &self.short_cite_w_pin {
            Some(s) => s.clone(),
            None => String::new(),
        };
        if self.source_type == SourceType::Case {
            cite.append(" at ");
        } else {
            cite.append(", at ");
        }
        cite.append(pin);
        proof {
            assert(cite@ =~= short_w_pin_spec(
                self.source_type,
                self.short_cite_w_pin->Some_0@,
                pin@,
            ));
        }
        cite
    }
}

/// The mathematical model of a source.
pub struct SourceModel {
    pub reference: Seq<char>,
    pub id: Seq<char>,
    pub csl_index: int,
    pub source_type: SourceType,
    pub all_footnotes: Seq<int>,
    pub long_cite_no_pin: Option<Seq<char>>,
    pub long_cite_w_pin: Option<(Seq<char>, Seq<char>)>,
    pub short_cite_no_pin: Option<Seq<char>>,
    pub short_cite_w_pin: Option<Seq<char>>,
    pub short_author: Option<Seq<char>>,
    pub cited: bool,
    pub hereinafter: bool,
}

/// The models of a footnote-number vector.
pub open spec fn ints_model(v: Seq<i32>) -> Seq<int> {
    v.map_values(|x: i32| x as int)
}

impl View for Source {
    type V = SourceModel;

    open spec fn view(&self) -> SourceModel {
        SourceModel {
            reference: self.reference@,
            id: self.id@,
            csl_index: self.csl_index as int,
            source_type: self.source_type,
            all_footnotes: ints_model(self.all_footnotes@),
            long_cite_no_pin: match self.long_cite_no_pin {
                Some(s) => Some(s@),
                None => None,
            },
            long_cite_w_pin: match self.long_cite_w_pin {
                Some(p) => Some((p.0@, p.1@)),
                None => None,
            },
            short_cite_no_pin: match self.short_cite_no_pin {
                Some(s) => Some(s@),
                None => None,
            },
            short_cite_w_pin: match self.short_cite_w_pin {
                Some(s) => Some(s@),
                None => None,
            },
            short_author: match self.short_author {
                Some(s) => Some(s@),
                None => None,
            },
            cited: self.cited,
            hereinafter: self.hereinafter,
        }
    }
}

/// The models of a sequence of sources.
pub open spec fn sources_model(v: Seq<Source>) -> Seq<SourceModel>
    decreases v.len(),
{
    if v.len() == 0 {
        Seq::empty()
    } else {
        seq![v[0]@] + sources_model(v.drop_first())
    }
}

/// `sources_model` maps each source to its model.
pub proof fn lemma_sources_model(v: Seq<Source>)
    ensures
        sources_model(v).len() == v.len(),
        forall|k: int| 0 <= k < v.len() ==> sources_model(v)[k] == v[k]@,
    decreases v.len(),
{
    if v.len() > 0 {
        lemma_sources_model(v.drop_first());
        assert forall|k: int| 0 <= k < v.len() implies sources_model(v)[k] == v[k]@ by {
            if k > 0 {
                assert(v.drop_first()[k - 1] == v[k]);
            }
        }
    }
}

/// The index of the first source in the map whose reference is `key`.
pub open spec fn smap_find(ms: Seq<SourceModel>, key: Seq<char>) -> Option<int>
    decreases ms.len(),
{
    if ms.len() == 0 {
        None
    } else if ms[0].reference == key {
        Some(0)
    } else {
        match smap_find(ms.drop_first(), key) {
            Some(j) => Some(j + 1),
            None => None,
        }
    }
}

/// What `smap_find` finds is in range and matches; what it misses has no
/// matching entry.
pub proof fn lemma_smap_find(ms: Seq<SourceModel>, key: Seq<char>)
    ensures
        match smap_find(ms, key) {
            Some(j) => 0 <= j < ms.len() && ms[j].reference == key && (forall|k: int|
                0 <= k < j ==> ms[k].reference != key),
            None => forall|k: int| 0 <= k < ms.len() ==> ms[k].reference != key,
        },
    decreases ms.len(),
{
    if ms.len() > 0 {
        lemma_smap_find(ms.drop_first(), key);
        assert(forall|k: int| 1 <= k < ms.len() ==> ms[k] == ms.drop_first()[k - 1]);
    }
}

/// Find a source in the map by its raw reference token.
pub fn find_source(map: &Vec<Source>, key: &String) -> (r: Option<usize>)
    ensures
        match r {
            Some(j) => smap_find(sources_model(map@), key@) == Some(j as int) && j < map@.len(),
            None => smap_find(sources_model(map@), key@) is None,
        },
{
    let n: usize = map.len();
    let mut i: usize = 0;
    proof {
        lemma_sources_model(map@);
        lemma_smap_find(sources_model(map@), key@);
    }
    while i < n
        invariant
            n == map@.len(),
            i <= n,
            sources_model(map@).len() == n,
            forall|k: int| 0 <= k < n ==> sources_model(map@)[k] == map@[k]@,
            forall|k: int| 0 <= k < i ==> sources_model(map@)[k].reference != key@,
            match smap_find(sources_model(map@), key@) {
                Some(j) => 0 <= j < n && sources_model(map@)[j].reference == key@ && (forall|
                    k: int,
                |
                    0 <= k < j ==> sources_model(map@)[k].reference != key@),
                None => forall|k: int|
                    0 <= k < n ==> sources_model(map@)[k].reference != key@,
            },
        decreases n - i,
    {
        if map[i].reference == *key {
            proof {
                let ms = sources_model(map@);
                assert(ms[i as int] == map@[i as int]@);
                assert(ms[i as int].reference == key@);
                match smap_find(ms, key@) {
                    Some(j) => {
                        if j < i as int {
                            assert(ms[j].reference != key@);
                        } else if j > i as int {
                            assert(ms[i as int].reference != key@);
                        }
                    },
                    None => {
                        assert(ms[i as int].reference != key@);
                    },
                }
            }
            return Some(i);
        }
        i = i + 1;
    }
    None
}

proof fn lemma_sources_model_push(v: Seq<Source>, x: Source)
    ensures
        sources_model(v.push(x)) == sources_model(v) + seq![x@],
{
    lemma_sources_model(v.push(x));
    lemma_sources_model(v);
    assert(sources_model(v.push(x)) =~= sources_model(v) + seq![x@]);
}

pub proof fn lemma_sources_model_update(v: Seq<Source>, k: int, x: Source)
    requires
        0 <= k < v.len(),
    ensures
        sources_model(v.update(k, x)) == sources_model(v).update(k, x@),
{
    lemma_sources_model(v.update(k, x));
    lemma_sources_model(v);
    assert(sources_model(v.update(k, x)) =~= sources_model(v).update(k, x@));
}

/// The index of the first record in the CSL library with the given id.
pub open spec fn csl_find(lib: Seq<CslModel>, id: Seq<char>) -> Option<int>
    decreases lib.len(),
{
    if lib.len() == 0 {
        None
    } else if lib[0].id == id {
        Some(0)
    } else {
        match csl_find(lib.drop_first(), id) {
            Some(j) => Some(j + 1),
            None => None,
        }
    }
}

pub proof fn lemma_csl_find(lib: Seq<CslModel>, id: Seq<char>)
    ensures
        match csl_find(lib, id) {
            Some(j) => 0 <= j < lib.len() && lib[j].id == id,
            None => true,
        },
    decreases lib.len(),
{
    if lib.len() > 0 {
        lemma_csl_find(lib.drop_first(), id);
    }
}

/// Find a record in the CSL library by its id.
fn find_csl(lib: &Vec<CSLSource>, id: &String) -> (r: Option<usize>)
    ensures
        match r {
            Some(j) => csl_find(csl_models(lib@), id@) == Some(j as int) && j < lib@.len(),
            None => csl_find(csl_models(lib@), id@) is None,
        },
{
    let ghost lm = csl_models(lib@);
    let n: usize = lib.len();
    let mut i: usize = 0;
    proof {
        lemma_csl_models(lib@);
        assert(lm.skip(0) =~= lm);
    }
    while i < n
        invariant
            n == lib@.len(),
            i <= n,
            lm == csl_models(lib@),
            lm.len() == n,
            forall|k: int| 0 <= k < n ==> lm[k] == lib@[k]@,
            match csl_find(lm.skip(i as int), id@) {
                Some(j) => csl_find(lm, id@) == Some(j + i),
                None => csl_find(lm, id@) is None,
            },
        decreases n - i,
    {
        if lib[i].id == *id {
            proof {
                assert(lm.skip(i as int)[0] == lm[i as int]);
            }
            return Some(i);
        }
        proof {
            assert(lm.skip(i as int)[0] == lm[i as int]);
            assert(lm.skip(i as int).drop_first() =~= lm.skip(i + 1));
        }
        i = i + 1;
    }
    None
}

/// The source type a CSL `type` string denotes.
pub open spec fn type_of(t: Seq<char>) -> SourceType {
    if t == "book"@ {
        SourceType::Book
    } else if t == "chapter"@ {
        SourceType::Chapter
    } else if t == "article-journal"@ {
        SourceType::JournalArticle
    } else if t == "manuscript"@ {
        SourceType::Manuscript
    } else if t == "legal_case"@ {
        SourceType::Case
    } else {
        SourceType::Other
    }
}

fn type_of_run(t: &String) -> (r: SourceType)
    ensures
        r == type_of(t@),
{
    if *t == String::from_str("book") {
        SourceType::Book
    } else if *t == String::from_str("chapter") {
        SourceType::Chapter
    } else if *t == String::from_str("article-journal") {
        SourceType::JournalArticle
    } else if *t == String::from_str("manuscript") {
        SourceType::Manuscript
    } else if *t == String::from_str("legal_case") {
        SourceType::Case
    } else {
        SourceType::Other
    }
}

/// What discovering one citation in footnote `fnum` does to the source map:
/// a known reference gains the footnote number; an unknown one is looked up
/// in the library and, when its record has a usable type, added as a new
/// source.  A missing key, a missing type, or an unsupported type leaves the
/// map unchanged, and the citation will stay unresolved.
pub open spec fn discover_cite(
    st: Seq<SourceModel>,
    lib: Seq<CslModel>,
    cm: CitationModel,
    fnum: int,
) -> Seq<SourceModel> {
    let key = cm.reference;
    match smap_find(st, key) {
        Some(k) => st.update(
            k,
            SourceModel { all_footnotes: st[k].all_footnotes + seq![fnum], ..st[k] },
        ),
        None => {
            if key.len() < 3 {
                st
            } else {
                let id = key.subrange(2, key.len() - 1);
                match csl_find(lib, id) {
                    None => st,
                    Some(ci) => match lib[ci].source_type {
                        None => st,
                        Some(t) => {
                            let ty = type_of(t);
                            if ty is Other {
                                st
                            } else {
                                st + seq![
                                    SourceModel {
                                        reference: key,
                                        id: id,
                                        csl_index: ci,
                                        source_type: ty,
                                        all_footnotes: seq![fnum],
                                        long_cite_no_pin: None,
                                        long_cite_w_pin: None,
                                        short_cite_no_pin: None,
                                        short_cite_w_pin: None,
                                        short_author: Some(source_short_author(lib[ci], ty)),
                                        cited: false,
                                        hereinafter: false,
                                    },
                                ]
                            }
                        },
                    },
                }
            }
        },
    }
}

/// Discovery over the branches of one footnote, from index `j` on.
pub open spec fn discover_fn(
    st: Seq<SourceModel>,
    lib: Seq<CslModel>,
    contents: Seq<BranchModel>,
    j: int,
    fnum: int,
) -> Seq<SourceModel>
    decreases contents.len() - j,
{
    if !(0 <= j < contents.len()) {
        st
    } else {
        let st2 = match contents[j] {
            BranchModel::Citation(cm) => discover_cite(st, lib, cm, fnum),
            _ => st,
        };
        discover_fn(st2, lib, contents, j + 1, fnum)
    }
}

/// Discovery over the whole tree, from branch `i` on.
pub open spec fn discover_tree(
    st: Seq<SourceModel>,
    lib: Seq<CslModel>,
    tree: Seq<BranchModel>,
    i: int,
) -> Seq<SourceModel>
    decreases tree.len() - i,
{
    if !(0 <= i < tree.len()) {
        st
    } else {
        let st2 = match tree[i] {
            BranchModel::Footnote(f) => discover_fn(st, lib, f.contents, 0, f.number),
            _ => st,
        };
        discover_tree(st2, lib, tree, i + 1)
    }
}

/// The source map that discovery over a tree yields.
pub open spec fn start_map_spec(tree: Seq<BranchModel>, lib: Seq<CslModel>) -> Seq<SourceModel> {
    discover_tree(Seq::empty(), lib, tree, 0)
}

/// Every map entry indexes a real library record, has a supported type, a
/// recorded short author, and at least one footnote.
pub open spec fn smap_wf(ms: Seq<SourceModel>, lib_len: int) -> bool {
    forall|k: int|
        0 <= k < ms.len() ==> {
            &&& 0 <= #[trigger] ms[k].csl_index < lib_len
            &&& !(ms[k].source_type is Other)
            &&& ms[k].all_footnotes.len() > 0
            &&& ms[k].short_author is Some
        }
}

/// Discover one citation: append the footnote number to a known source, or
/// look the reference up and add a new source.
#[verifier::rlimit(60)]
fn discover_one(map: &mut Vec<Source>, lib: &Vec<CSLSource>, c: &crate::parser::Citation, fnum: i32)
    requires
        smap_wf(sources_model(old(map)@), lib@.len() as int),
    ensures
        sources_model(final(map)@) == discover_cite(
            sources_model(old(map)@),
            csl_models(lib@),
            c@,
            fnum as int,
        ),
        smap_wf(sources_model(final(map)@), lib@.len() as int),
{
    let ghost ms0 = sources_model(map@);
    proof {
        lemma_sources_model(map@);
    }
    match find_source(map, &c.reference) {
        Some(k) => {
            let mut s = map.remove(k);
            let ghost sm = s@;
            s.all_footnotes.push(fnum);
            proof {
                assert(ints_model(s.all_footnotes@) =~= sm.all_footnotes + seq![fnum as int]);
                assert(s@ == SourceModel {
                    all_footnotes: sm.all_footnotes + seq![fnum as int],
                    ..sm
                });
            }
            let ghost removed = map@;
            map.insert(k, s);
            proof {
                assert(map@ =~= removed.insert(k as int, s));
                assert(map@ =~= old(map)@.update(k as int, s));
                lemma_sources_model_update(old(map)@, k as int, s);
                assert(ms0[k as int] == old(map)@[k as int]@);
                assert(sources_model(map@) =~= discover_cite(
                    ms0,
                    csl_models(lib@),
                    c@,
                    fnum as int,
                ));
                lemma_sources_model(map@);
            }
        },
        None => {
            // Remove the brackets and at-sign to search the library's ids.
            let keylen: usize = c.reference.as_str().unicode_len();
            if keylen < 3 {
                return;
            }
            let id_slice = c.reference.as_str().substring_char(2, keylen - 1);
            let id = String::from_str(id_slice);
            match find_csl(lib, &id) {
                None => {
                    proof {
                        lemma_csl_find(csl_models(lib@), id@);
                    }
                },
                Some(ci) => {
                    proof {
                        lemma_csl_models(lib@);
                        lemma_csl_find(csl_models(lib@), id@);
                    }
                    let ty: SourceType = match &lib[ci].source_type {
                        None => {
                            return;
                        },
                        Some(t) => type_of_run(t),
                    };
                    if ty == SourceType::Other {
                        return;
                    }
                    match build_source(
                        &lib[ci],
                        c.reference.clone(),
                        id,
                        ci,
                        ty,
                        fnum,
                    ) {
                        Ok(src) => {
                            let ghost pre = map@;
                            map.push(src);
                            proof {
                                lemma_sources_model_push(pre, src);
                                assert(ints_model(src.all_footnotes@) =~= seq![fnum as int]);
                                assert(sources_model(map@) =~= discover_cite(
                                    ms0,
                                    csl_models(lib@),
                                    c@,
                                    fnum as int,
                                ));
                                lemma_sources_model(map@);
                            }
                        },
                        Err(_) => {},
                    }
                },
            }
        },
    }
}

/// Begin the source map, which contains only partial info: discovery walks
/// the tree footnote by footnote and citation by citation.
pub fn start_source_map(tree: &Vec<Branch>, csl_library: &Vec<CSLSource>) -> (r: Vec<Source>)
    ensures
        sources_model(r@) == start_map_spec(
            crate::parser::branches_model(tree@),
            csl_models(csl_library@),
        ),
        smap_wf(sources_model(r@), csl_library@.len() as int),
{
    let mut map: Vec<Source> = Vec::new();
    let n: usize = tree.len();
    let mut i: usize = 0;
    let ghost tm = crate::parser::branches_model(tree@);
    proof {
        assert(sources_model(map@) =~= Seq::<SourceModel>::empty());
        crate::parser::lemma_branches_model(tree@);
    }
    while i < n
        invariant
            n == tree@.len(),
            i <= n,
            tm == crate::parser::branches_model(tree@),
            tm.len() == n,
            forall|k: int| 0 <= k < n ==> tm[k] == crate::parser::branch_model(tree@[k]),
            start_map_spec(tm, csl_models(csl_library@)) == discover_tree(
                sources_model(map@),
                csl_models(csl_library@),
                tm,
                i as int,
            ),
            smap_wf(sources_model(map@), csl_library@.len() as int),
        decreases n - i,
    {
        match &tree[i] {
            Branch::Footnote(f) => {
                let ghost fcm = crate::parser::branches_model(f.contents@);
                let ghost entry = sources_model(map@);
                proof {
                    crate::parser::lemma_branches_model(f.contents@);
                    assert(tm[i as int] == crate::parser::branch_model(tree@[i as int]));
                    assert(discover_tree(entry, csl_models(csl_library@), tm, i as int)
                        == discover_tree(
                        discover_fn(entry, csl_models(csl_library@), fcm, 0, f.number as int),
                        csl_models(csl_library@),
                        tm,
                        i + 1,
                    ));
                }
                let m: usize = f.contents.len();
                let mut j: usize = 0;
                while j < m
                    invariant
                        m == f.contents@.len(),
                        j <= m,
                        fcm == crate::parser::branches_model(f.contents@),
                        fcm.len() == m,
                        forall|k: int|
                            0 <= k < m ==> fcm[k] == crate::parser::branch_model(f.contents@[k]),
                        discover_fn(entry, csl_models(csl_library@), fcm, 0, f.number as int)
                            == discover_fn(
                            sources_model(map@),
                            csl_models(csl_library@),
                            fcm,
                            j as int,
                            f.number as int,
                        ),
                        smap_wf(sources_model(map@), csl_library@.len() as int),
                    decreases m - j,
                {
                    let ghost cur = sources_model(map@);
                    match &f.contents[j] {
                        Branch::Citation(c) => {
                            proof {
                                assert(fcm[j as int] == crate::parser::branch_model(
                                    f.contents@[j as int],
                                ));
                            }
                            discover_one(&mut map, csl_library, c, f.number);
                            proof {
                                assert(discover_fn(
                                    cur,
                                    csl_models(csl_library@),
                                    fcm,
                                    j as int,
                                    f.number as int,
                                ) == discover_fn(
                                    sources_model(map@),
                                    csl_models(csl_library@),
                                    fcm,
                                    j + 1,
                                    f.number as int,
                                ));
                            }
                        },
                        _ => {
                            proof {
                                assert(fcm[j as int] == crate::parser::branch_model(
                                    f.contents@[j as int],
                                ));
                                assert(discover_fn(
                                    cur,
                                    csl_models(csl_library@),
                                    fcm,
                                    j as int,
                                    f.number as int,
                                ) == discover_fn(
                                    cur,
                                    csl_models(csl_library@),
                                    fcm,
                                    j + 1,
                                    f.number as int,
                                ));
                            }
                        },
                    }
                    j = j + 1;
                }
            },
            _ => {},
        }
        i = i + 1;
    }
    map
}

/// A short author with its bold markup stripped, for comparison across
/// styles.
pub open spec fn unformatted(sa: Seq<char>) -> Seq<char> {
    replace_all_spec(sa, "**"@, Seq::empty())
}

/// The short author recorded on a source, or an empty string.
pub open spec fn sa_of(m: SourceModel) -> Seq<char> {
    match m.short_author {
        Some(s) => s,
        None => Seq::empty(),
    }
}

/// Whether some other source shares this source's unformatted short author,
/// so that short cites to either need a title to disambiguate.
pub open spec fn needs_hereinafter(ms: Seq<SourceModel>, k: int) -> bool {
    exists|j: int|
        0 <= j < ms.len() && j != k && unformatted(sa_of(ms[j])) == unformatted(sa_of(ms[k]))
}

/// A source with its hereinafter flag set.
pub open spec fn with_hereinafter(m: SourceModel, b: bool) -> SourceModel {
    SourceModel { hereinafter: b, ..m }
}

/// The unformatted short author of one source, as characters.
fn unformatted_author(map: &Vec<Source>, k: usize) -> (r: Vec<char>)
    requires
        k < map@.len(),
    ensures
        r@ == unformatted(sa_of(sources_model(map@)[k as int])),
{
    proof {
        lemma_sources_model(map@);
    }
    let sa: Vec<char> = match &map[k].short_author {
        Some(s) => crate::text::chars_of_string(s),
        None => Vec::new(),
    };
    let pat = crate::text::chars_of("**");
    let rep: Vec<char> = Vec::new();
    let r = crate::text::replace_all(&sa, &pat, &rep);
    proof {
        assert(sa@ =~= sa_of(sources_model(map@)[k as int]));
        assert(rep@ =~= Seq::<char>::empty());
    }
    r
}

/// Whether source `k` shares its unformatted short author with another.
fn needs_h(map: &Vec<Source>, k: usize) -> (r: bool)
    requires
        k < map@.len(),
    ensures
        r == needs_hereinafter(sources_model(map@), k as int),
{
    let ghost ms = sources_model(map@);
    proof {
        lemma_sources_model(map@);
    }
    let uk = unformatted_author(map, k);
    let n: usize = map.len();
    let mut j: usize = 0;
    while j < n
        invariant
            n == map@.len(),
            j <= n,
            ms == sources_model(map@),
            ms.len() == n,
            k < n,
            uk@ == unformatted(sa_of(ms[k as int])),
            forall|j2: int|
                0 <= j2 < j && j2 != k ==> unformatted(sa_of(#[trigger] ms[j2])) != unformatted(
                    sa_of(ms[k as int]),
                ),
        decreases n - j,
    {
        if j != k {
            let ujv = unformatted_author(map, j);
            if crate::text::eq_chars(&ujv, &uk) {
                proof {
                    assert(needs_hereinafter(ms, k as int)) by {
                        assert(0 <= j < ms.len() && j != k && unformatted(sa_of(ms[j as int]))
                            == unformatted(sa_of(ms[k as int])));
                    }
                }
                return true;
            }
        }
        j = j + 1;
    }
    false
}

/// The hereinafter pass over a whole map.
pub open spec fn herein_pass(ms: Seq<SourceModel>) -> Seq<SourceModel> {
    Seq::new(ms.len(), |k: int| with_hereinafter(ms[k], ms[k].hereinafter || needs_hereinafter(ms, k)))
}

/// Check which sources need "hereinafter" short cites.
///
/// Sources are grouped by their unformatted short author; any source whose
/// short author also identifies another cited source has its hereinafter
/// flag set, so that its short cites carry a short title too.
#[verifier::rlimit(100)]
pub fn check_hereinafters(source_map: &mut Vec<Source>)
    ensures
        sources_model(final(source_map)@) == herein_pass(sources_model(old(source_map)@)),
{
    let ghost orig = sources_model(old(source_map)@);
    let n: usize = source_map.len();
    let mut k: usize = 0;
    proof {
        lemma_sources_model(source_map@);
    }
    while k < n
        invariant
            n == source_map@.len(),
            k <= n,
            sources_model(source_map@).len() == n,
            orig.len() == n,
            forall|k2: int|
                k <= k2 < n ==> sources_model(source_map@)[k2] == orig[k2],
            forall|k2: int|
                0 <= k2 < k ==> sources_model(source_map@)[k2] == with_hereinafter(
                    orig[k2],
                    orig[k2].hereinafter || needs_hereinafter(orig, k2),
                ),
        decreases n - k,
    {
        let ghost cur = sources_model(source_map@);
        proof {
            assert forall|k2: int| 0 <= k2 < k implies cur[k2] == with_hereinafter(
                orig[k2],
                orig[k2].hereinafter || needs_hereinafter(orig, k2),
            ) by {
                assert(sources_model(source_map@)[k2] == with_hereinafter(
                    orig[k2],
                    orig[k2].hereinafter || needs_hereinafter(orig, k2),
                ));
            }
            assert forall|k2: int| k <= k2 < n implies cur[k2] == orig[k2] by {
                assert(sources_model(source_map@)[k2] == orig[k2]);
            }
            // The pass changes only hereinafter flags, which the grouping
            // does not read, so sharing computed on the current map agrees
            // with sharing on the original.
            assert forall|j: int| 0 <= j < n implies sa_of(cur[j]) == sa_of(orig[j]) by {
                if j < k as int {
                    assert(cur[j] == with_hereinafter(
                        orig[j],
                        orig[j].hereinafter || needs_hereinafter(orig, j),
                    ));
                } else {
                    assert(cur[j] == orig[j]);
                }
            }
            assert(needs_hereinafter(cur, k as int) == needs_hereinafter(orig, k as int)) by {
                if needs_hereinafter(cur, k as int) {
                    let j = choose|j: int|
                        0 <= j < cur.len() && j != k && unformatted(sa_of(cur[j])) == unformatted(
                            sa_of(cur[k as int]),
                        );
                    assert(0 <= j < orig.len() && j != k && unformatted(sa_of(orig[j]))
                        == unformatted(sa_of(orig[k as int])));
                }
                if needs_hereinafter(orig, k as int) {
                    let j = choose|j: int|
                        0 <= j < orig.len() && j != k && unformatted(sa_of(orig[j])) == unformatted(
                            sa_of(orig[k as int]),
                        );
                    assert(0 <= j < cur.len() && j != k && unformatted(sa_of(cur[j])) == unformatted(
                        sa_of(cur[k as int]),
                    ));
                }
            }
        }
        let needs = needs_h(source_map, k);
        if needs {
            let ghost pre_vec = source_map@;
            proof {
                lemma_sources_model(pre_vec);
            }
            let mut s = source_map.remove(k);
            let ghost sm = s@;
            s.hereinafter = true;
            proof {
                assert(s@ == with_hereinafter(sm, true));
            }
            source_map.insert(k, s);
            proof {
                assert(source_map@ =~= pre_vec.update(k as int, s));
                lemma_sources_model_update(pre_vec, k as int, s);
            }
        }
        proof {
            lemma_sources_model(source_map@);
            assert forall|k2: int| 0 <= k2 < k + 1 implies sources_model(source_map@)[k2]
                == with_hereinafter(
                orig[k2],
                orig[k2].hereinafter || needs_hereinafter(orig, k2),
            ) by {
                if k2 == k as int {
                    assert(cur[k2] == orig[k2]);
                } else {
                    assert(sources_model(source_map@)[k2] == cur[k2]);
                    assert(cur[k2] == with_hereinafter(
                        orig[k2],
                        orig[k2].hereinafter || needs_hereinafter(orig, k2),
                    ));
                }
            }
        }
        k = k + 1;
    }
    proof {
        assert(sources_model(source_map@) =~= herein_pass(orig));
    }
}

/// The hereinafter flag actually used when synthesizing cites: a source
/// without recorded authors never carries a hereinafter clause in its long
/// cite, even when its (empty) short author collides with another source's.
/// The hereinafter machinery disambiguates short authors, and there is no
/// author to disambiguate; the short cite still carries the short title.
pub open spec fn eff_hereinafter(m: SourceModel, lib: Seq<CslModel>) -> bool {
    m.hereinafter && lib[m.csl_index].author is Some
}

/// A source with its long cites filled in.
pub open spec fn with_longs(
    m: SourceModel,
    lib: Seq<CslModel>,
    uj: Seq<(Seq<char>, Seq<char>)>,
) -> SourceModel {
    let pre = long_pre_spec(lib[m.csl_index], m.source_type, uj);
    let post = long_post_spec(lib[m.csl_index], m.source_type, eff_hereinafter(m, lib));
    SourceModel { long_cite_no_pin: Some(pre + post), long_cite_w_pin: Some((pre, post)), ..m }
}

/// The long-cite pass over a whole map.
pub open spec fn longs_pass(
    ms: Seq<SourceModel>,
    lib: Seq<CslModel>,
    uj: Seq<(Seq<char>, Seq<char>)>,
) -> Seq<SourceModel> {
    Seq::new(ms.len(), |k: int| with_longs(ms[k], lib, uj))
}

/// Whether every cited source has a title, so that every long cite can be
/// built.
pub open spec fn all_titled(ms: Seq<SourceModel>, lib: Seq<CslModel>) -> bool {
    forall|k: int| 0 <= k < ms.len() ==> lib[#[trigger] ms[k].csl_index].title is Some
}

/// The first map entry whose library record has no title, from index `k` on.
pub open spec fn first_untitled(ms: Seq<SourceModel>, lib: Seq<CslModel>, k: int) -> Option<int>
    decreases ms.len() - k,
{
    if !(0 <= k < ms.len()) {
        None
    } else if lib[ms[k].csl_index].title is None {
        Some(k)
    } else {
        first_untitled(ms, lib, k + 1)
    }
}

/// Add long cites to sources.
///
/// A source whose library record has no title cannot be cited in any form;
/// that aborts the pass, and with it the whole run.  The error carries the
/// first uncitable record's key.
pub fn add_long_cites(
    source_map: &mut Vec<Source>,
    lib: &Vec<CSLSource>,
    user_journals: &Option<UserJournals>,
) -> (r: Result<(), String>)
    requires
        smap_wf(sources_model(old(source_map)@), lib@.len() as int),
    ensures
        match r {
            Ok(()) => all_titled(sources_model(old(source_map)@), csl_models(lib@))
                && sources_model(final(source_map)@) == longs_pass(
                sources_model(old(source_map)@),
                csl_models(lib@),
                crate::citetools::uj_view(*user_journals),
            ) && smap_wf(sources_model(final(source_map)@), lib@.len() as int),
            Err(e) => !all_titled(sources_model(old(source_map)@), csl_models(lib@)) && (
            first_untitled(sources_model(old(source_map)@), csl_models(lib@), 0) matches Some(j)
                && e@ == no_title_msg(
                csl_models(lib@)[sources_model(old(source_map)@)[j].csl_index],
            )),
        },
{
    let ghost orig = sources_model(old(source_map)@);
    let ghost lm = csl_models(lib@);
    let ghost ujv = crate::citetools::uj_view(*user_journals);
    let n: usize = source_map.len();
    let mut k: usize = 0;
    proof {
        lemma_sources_model(source_map@);
        lemma_csl_models(lib@);
    }
    while k < n
        invariant
            n == source_map@.len(),
            k <= n,
            sources_model(source_map@).len() == n,
            orig == sources_model(old(source_map)@),
            orig.len() == n,
            lm == csl_models(lib@),
            lm.len() == lib@.len(),
            forall|k2: int| 0 <= k2 < lm.len() ==> lm[k2] == lib@[k2]@,
            ujv == crate::citetools::uj_view(*user_journals),
            smap_wf(orig, lib@.len() as int),
            smap_wf(sources_model(source_map@), lib@.len() as int),
            first_untitled(orig, lm, 0) == first_untitled(orig, lm, k as int),
            forall|k2: int| k <= k2 < n ==> sources_model(source_map@)[k2] == orig[k2],
            forall|k2: int|
                0 <= k2 < k ==> sources_model(source_map@)[k2] == with_longs(orig[k2], lm, ujv),
            forall|k2: int| 0 <= k2 < k ==> lm[#[trigger] orig[k2].csl_index].title is Some,
        decreases n - k,
    {
        let ghost cur = sources_model(source_map@);
        proof {
            assert(sources_model(source_map@)[k as int] == orig[k as int]);
            lemma_sources_model(source_map@);
        }
        let ghost pre_vec = source_map@;
        let mut s = source_map.remove(k);
        let ghost sm = s@;
        proof {
            assert(sm == orig[k as int]);
        }
        let hn = s.hereinafter && lib[s.csl_index].author.is_some();
        match build_long_cite(&lib[s.csl_index], s.source_type, user_journals, hn) {
            Ok(c) => {
                s.long_cite_no_pin = Some(c.0);
                s.long_cite_w_pin = Some((c.1, c.2));
                proof {
                    assert(lm[sm.csl_index] == lib@[sm.csl_index]@);
                    assert(s@ == with_longs(sm, lm, ujv));
                }
                source_map.insert(k, s);
                proof {
                    assert(source_map@ =~= pre_vec.update(k as int, s));
                    lemma_sources_model_update(pre_vec, k as int, s);
                    lemma_sources_model(source_map@);
                    assert(first_untitled(orig, lm, k as int) == first_untitled(
                        orig,
                        lm,
                        k + 1,
                    ));
                    assert forall|k2: int| 0 <= k2 < k + 1 implies sources_model(source_map@)[k2]
                        == with_longs(orig[k2], lm, ujv) by {
                        if k2 < k as int {
                            assert(cur[k2] == with_longs(orig[k2], lm, ujv));
                        }
                    }
                }
            },
            Err(e) => {
                proof {
                    assert(!(orig[k as int].source_type is Other));
                    assert(lm[orig[k as int].csl_index] == lib@[orig[k as int].csl_index]@);
                    assert(lm[orig[k as int].csl_index].title is None);
                    assert(!all_titled(orig, lm)) by {
                        assert(0 <= k < orig.len() && !(lm[orig[k as int].csl_index].title
                            is Some));
                    }
                    assert(first_untitled(orig, lm, k as int) == Some(k as int));
                    assert(e@ == no_title_msg(lm[orig[k as int].csl_index]));
                }
                return Err(e);
            },
        }
        k = k + 1;
    }
    proof {
        assert(sources_model(source_map@) =~= longs_pass(orig, lm, ujv));
    }
    Ok(())
}

/// A source with its short cites filled in.
pub open spec fn with_shorts(m: SourceModel, lib: Seq<CslModel>) -> SourceModel {
    let base = short_base_spec(lib[m.csl_index], m.source_type, m.all_footnotes[0], m.hereinafter);
    let no_pin = short_no_pin_spec(lib[m.csl_index], m.source_type, m.all_footnotes[0], m.hereinafter);
    SourceModel { short_cite_no_pin: Some(no_pin), short_cite_w_pin: Some(base), ..m }
}

/// The short-cite pass over a whole map.
pub open spec fn shorts_pass(ms: Seq<SourceModel>, lib: Seq<CslModel>) -> Seq<SourceModel> {
    Seq::new(ms.len(), |k: int| with_shorts(ms[k], lib))
}

/// Add short cites to sources.
pub fn add_short_cites(source_map: &mut Vec<Source>, lib: &Vec<CSLSource>)
    requires
        smap_wf(sources_model(old(source_map)@), lib@.len() as int),
        all_titled(sources_model(old(source_map)@), csl_models(lib@)),
    ensures
        sources_model(final(source_map)@) == shorts_pass(
            sources_model(old(source_map)@),
            csl_models(lib@),
        ),
{
    let ghost orig = sources_model(old(source_map)@);
    let ghost lm = csl_models(lib@);
    let n: usize = source_map.len();
    let mut k: usize = 0;
    proof {
        lemma_sources_model(source_map@);
        lemma_csl_models(lib@);
    }
    while k < n
        invariant
            n == source_map@.len(),
            k <= n,
            sources_model(source_map@).len() == n,
            orig.len() == n,
            lm == csl_models(lib@),
            lm.len() == lib@.len(),
            forall|k2: int| 0 <= k2 < lm.len() ==> lm[k2] == lib@[k2]@,
            smap_wf(orig, lib@.len() as int),
            all_titled(orig, lm),
            forall|k2: int| k <= k2 < n ==> sources_model(source_map@)[k2] == orig[k2],
            forall|k2: int|
                0 <= k2 < k ==> sources_model(source_map@)[k2] == with_shorts(orig[k2], lm),
        decreases n - k,
    {
        let ghost cur = sources_model(source_map@);
        proof {
            assert(sources_model(source_map@)[k as int] == orig[k as int]);
            assert forall|k2: int| 0 <= k2 < k implies cur[k2] == with_shorts(orig[k2], lm) by {
                assert(sources_model(source_map@)[k2] == with_shorts(orig[k2], lm));
            }
            lemma_sources_model(source_map@);
        }
        let ghost pre_vec = source_map@;
        let mut s = source_map.remove(k);
        let ghost sm = s@;
        proof {
            assert(sm == orig[k as int]);
            assert(ints_model(s.all_footnotes@)[0] == s.all_footnotes@[0] as int);
        }
        let first = s.all_footnotes[0];
        let c = build_short_cite(&lib[s.csl_index], &s.source_type, first, s.hereinafter);
        s.short_cite_no_pin = Some(c.0);
        s.short_cite_w_pin = Some(c.1);
        proof {
            assert(lm[sm.csl_index] == lib@[sm.csl_index]@);
            assert(s@ == with_shorts(sm, lm));
        }
        source_map.insert(k, s);
        proof {
            assert(source_map@ =~= pre_vec.update(k as int, s));
            lemma_sources_model_update(pre_vec, k as int, s);
            lemma_sources_model(source_map@);
            assert forall|k2: int| 0 <= k2 < k + 1 implies sources_model(source_map@)[k2]
                == with_shorts(orig[k2], lm) by {
                if k2 < k as int {
                    assert(cur[k2] == with_shorts(orig[k2], lm));
                }
            }
        }
        k = k + 1;
    }
    proof {
        assert(sources_model(source_map@) =~= shorts_pass(orig, lm));
    }
}

/// The source map a document and library denote: discovery, hereinafter
/// detection, long-cite synthesis, and short-cite synthesis, in that order.
pub open spec fn source_map_spec(
    tree: Seq<BranchModel>,
    lib: Seq<CslModel>,
    uj: Seq<(Seq<char>, Seq<char>)>,
) -> Seq<SourceModel> {
    shorts_pass(longs_pass(herein_pass(start_map_spec(tree, lib)), lib, uj), lib)
}

/// Whether the run can complete: every discovered source's record has a
/// title.
pub open spec fn source_map_ok(tree: Seq<BranchModel>, lib: Seq<CslModel>) -> bool {
    all_titled(herein_pass(start_map_spec(tree, lib)), lib)
}

/// Create the source map.
///
/// Discovery collects each cited source and its footnotes; the hereinafter
/// pass marks shared short authors; then long and short cites are
/// synthesized for every source.  A cited source without a title aborts the
/// run, naming the first uncitable record.
pub fn build_source_map(
    tree: &Vec<Branch>,
    csl_library: &Vec<CSLSource>,
    user_journals: &Option<UserJournals>,
) -> (r: Result<Vec<Source>, String>)
    ensures
        match r {
            Ok(map) => source_map_ok(crate::parser::branches_model(tree@), csl_models(csl_library@))
                && sources_model(map@) == source_map_spec(
                crate::parser::branches_model(tree@),
                csl_models(csl_library@),
                crate::citetools::uj_view(*user_journals),
            ) && smap_wf(sources_model(map@), csl_library@.len() as int),
            Err(e) => ({
                let hm = herein_pass(start_map_spec(
                    crate::parser::branches_model(tree@),
                    csl_models(csl_library@),
                ));
                &&& !source_map_ok(crate::parser::branches_model(tree@), csl_models(csl_library@))
                &&& first_untitled(hm, csl_models(csl_library@), 0) matches Some(j) && e@
                    == no_title_msg(csl_models(csl_library@)[hm[j].csl_index])
            }),
        },
{
    let mut source_map = start_source_map(tree, csl_library);
    check_hereinafters(&mut source_map);
    proof {
        let hm = herein_pass(start_map_spec(
            crate::parser::branches_model(tree@),
            csl_models(csl_library@),
        ));
        assert(smap_wf(sources_model(source_map@), csl_library@.len() as int)) by {
            assert forall|k: int| 0 <= k < hm.len() implies {
                &&& 0 <= #[trigger] hm[k].csl_index < csl_library@.len()
                &&& !(hm[k].source_type is Other)
                &&& hm[k].all_footnotes.len() > 0
                &&& hm[k].short_author is Some
            } by {
                let sm0 = start_map_spec(
                    crate::parser::branches_model(tree@),
                    csl_models(csl_library@),
                );
                assert(hm[k] == with_hereinafter(
                    sm0[k],
                    sm0[k].hereinafter || needs_hereinafter(sm0, k),
                ));
            }
        }
    }
    match add_long_cites(&mut source_map, csl_library, user_journals) {
        Ok(()) => {},
        Err(e) => {
            return Err(e);
        },
    }
    proof {
        let cm = csl_models(csl_library@);
        let hm = herein_pass(start_map_spec(crate::parser::branches_model(tree@), cm));
        let lp = longs_pass(hm, cm, crate::citetools::uj_view(*user_journals));
        assert(all_titled(lp, cm)) by {
            assert forall|k: int| 0 <= k < lp.len() implies lib_titled(lp, cm, k) by {
                assert(lp[k] == with_longs(
                    hm[k],
                    cm,
                    crate::citetools::uj_view(*user_journals),
                ));
                assert(cm[hm[k].csl_index].title is Some);
            }
        }
    }
    add_short_cites(&mut source_map, csl_library);
    Ok(source_map)
}

/// Whether the record of map entry `k` has a title.
pub open spec fn lib_titled(ms: Seq<SourceModel>, lib: Seq<CslModel>, k: int) -> bool {
    lib[ms[k].csl_index].title is Some
}

/// The warning one citation yields during discovery, if any: an unknown
/// key, a record without a type, or an unsupported type.  Such a citation is
/// skipped and will render unresolved; the warning makes that visible.
pub open spec fn cite_warning(
    st: Seq<SourceModel>,
    lib: Seq<CslModel>,
    cm: CitationModel,
) -> Seq<Seq<char>> {
    let key = cm.reference;
    match smap_find(st, key) {
        Some(_) => Seq::empty(),
        None => {
            if key.len() < 3 {
                Seq::empty()
            } else {
                let id = key.subrange(2, key.len() - 1);
                match csl_find(lib, id) {
                    None => seq![
                        id + " was not found in the CSL JSON library; not adding to source map"@,
                    ],
                    Some(ci) => match lib[ci].source_type {
                        None => seq![id + " does not have a type; not adding to source map"@],
                        Some(t) => {
                            if type_of(t) is Other {
                                seq![
                                    id + "'s type ("@ + t
                                        + ") is not supported; not adding to source map"@,
                                ]
                            } else {
                                Seq::empty()
                            }
                        },
                    },
                }
            }
        },
    }
}

/// The discovery warnings of one footnote's branches, from index `j` on,
/// threading the evolving source map.
pub open spec fn warn_fn(
    st: Seq<SourceModel>,
    lib: Seq<CslModel>,
    contents: Seq<BranchModel>,
    j: int,
    fnum: int,
) -> Seq<Seq<char>>
    decreases contents.len() - j,
{
    if !(0 <= j < contents.len()) {
        Seq::empty()
    } else {
        match contents[j] {
            BranchModel::Citation(cm) => cite_warning(st, lib, cm) + warn_fn(
                discover_cite(st, lib, cm, fnum),
                lib,
                contents,
                j + 1,
                fnum,
            ),
            _ => warn_fn(st, lib, contents, j + 1, fnum),
        }
    }
}

/// The discovery warnings of the whole tree, from branch `i` on.
pub open spec fn warn_tree(
    st: Seq<SourceModel>,
    lib: Seq<CslModel>,
    tree: Seq<BranchModel>,
    i: int,
) -> Seq<Seq<char>>
    decreases tree.len() - i,
{
    if !(0 <= i < tree.len()) {
        Seq::empty()
    } else {
        match tree[i] {
            BranchModel::Footnote(f) => warn_fn(st, lib, f.contents, 0, f.number) + warn_tree(
                discover_fn(st, lib, f.contents, 0, f.number),
                lib,
                tree,
                i + 1,
            ),
            _ => warn_tree(st, lib, tree, i + 1),
        }
    }
}

/// Every warning the source resolver's discovery pass raises, in document
/// order.
pub open spec fn discovery_warnings_spec(tree: Seq<BranchModel>, lib: Seq<CslModel>) -> Seq<
    Seq<char>,
> {
    warn_tree(Seq::empty(), lib, tree, 0)
}

/// The warning one citation yields against the current map, if any.
fn cite_warning_run(
    map: &Vec<Source>,
    lib: &Vec<CSLSource>,
    c: &crate::parser::Citation,
) -> (w: Option<String>)
    ensures
        match w {
            Some(msg) => cite_warning(sources_model(map@), csl_models(lib@), c@) == seq![msg@],
            None => cite_warning(sources_model(map@), csl_models(lib@), c@)
                == Seq::<Seq<char>>::empty(),
        },
{
    match crate::sourcemap::find_source(map, &c.reference) {
        Some(_) => None,
        None => {
            let keylen: usize = c.reference.as_str().unicode_len();
            if keylen < 3 {
                return None;
            }
            let id_slice = c.reference.as_str().substring_char(2, keylen - 1);
            let id = String::from_str(id_slice);
            match find_csl(lib, &id) {
                None => {
                    let mut msg = id;
                    msg.append(" was not found in the CSL JSON library; not adding to source map");
                    Some(msg)
                },
                Some(ci) => {
                    proof {
                        lemma_csl_models(lib@);
                        lemma_csl_find(csl_models(lib@), id@);
                    }
                    match &lib[ci].source_type {
                        None => {
                            let mut msg = id;
                            msg.append(" does not have a type; not adding to source map");
                            Some(msg)
                        },
                        Some(t) => {
                            if type_of_run(t) == SourceType::Other {
                                let mut msg = id;
                                msg.append("'s type (");
                                msg.append(t.as_str());
                                msg.append(") is not supported; not adding to source map");
                                Some(msg)
                            } else {
                                None
                            }
                        },
                    }
                },
            }
        },
    }
}

/// Collect the warnings the source resolver's discovery pass raises:
/// citations whose key is unknown, or whose record has a missing or
/// unsupported type.  Those citations stay unresolved in the output; the
/// warnings make that visible without corrupting anything else.
pub fn discovery_warnings(tree: &Vec<Branch>, csl_library: &Vec<CSLSource>) -> (w: Vec<String>)
    ensures
        crate::render::strings_model(w@) == discovery_warnings_spec(
            crate::parser::branches_model(tree@),
            csl_models(csl_library@),
        ),
{
    let mut map: Vec<Source> = Vec::new();
    let mut warnings: Vec<String> = Vec::new();
    let n: usize = tree.len();
    let mut i: usize = 0;
    let ghost tm = crate::parser::branches_model(tree@);
    let ghost lm = csl_models(csl_library@);
    proof {
        assert(sources_model(map@) =~= Seq::<SourceModel>::empty());
        assert(crate::render::strings_model(warnings@) =~= Seq::<Seq<char>>::empty());
        crate::parser::lemma_branches_model(tree@);
        assert(Seq::<Seq<char>>::empty() + warn_tree(Seq::<SourceModel>::empty(), lm, tm, 0)
            =~= warn_tree(Seq::<SourceModel>::empty(), lm, tm, 0));
    }
    while i < n
        invariant
            n == tree@.len(),
            i <= n,
            tm == crate::parser::branches_model(tree@),
            lm == csl_models(csl_library@),
            tm.len() == n,
            forall|k: int| 0 <= k < n ==> tm[k] == crate::parser::branch_model(tree@[k]),
            smap_wf(sources_model(map@), csl_library@.len() as int),
            discovery_warnings_spec(tm, lm) == crate::render::strings_model(warnings@)
                + warn_tree(sources_model(map@), lm, tm, i as int),
        decreases n - i,
    {
        match &tree[i] {
            Branch::Footnote(f) => {
                let ghost fcm = crate::parser::branches_model(f.contents@);
                let ghost entry = sources_model(map@);
                let ghost wentry = crate::render::strings_model(warnings@);
                proof {
                    crate::parser::lemma_branches_model(f.contents@);
                    assert(tm[i as int] == crate::parser::branch_model(tree@[i as int]));
                    assert(warn_tree(entry, lm, tm, i as int) == warn_fn(
                        entry,
                        lm,
                        fcm,
                        0,
                        f.number as int,
                    ) + warn_tree(
                        discover_fn(entry, lm, fcm, 0, f.number as int),
                        lm,
                        tm,
                        i + 1,
                    ));
                    assert(wentry + (warn_fn(entry, lm, fcm, 0, f.number as int) + warn_tree(
                        discover_fn(entry, lm, fcm, 0, f.number as int),
                        lm,
                        tm,
                        i + 1,
                    )) =~= (wentry + warn_fn(entry, lm, fcm, 0, f.number as int)) + warn_tree(
                        discover_fn(entry, lm, fcm, 0, f.number as int),
                        lm,
                        tm,
                        i + 1,
                    ));
                }
                let m: usize = f.contents.len();
                let mut j: usize = 0;
                while j < m
                    invariant
                        m == f.contents@.len(),
                        j <= m,
                        lm == csl_models(csl_library@),
                        fcm == crate::parser::branches_model(f.contents@),
                        fcm.len() == m,
                        forall|k: int|
                            0 <= k < m ==> fcm[k] == crate::parser::branch_model(f.contents@[k]),
                        smap_wf(sources_model(map@), csl_library@.len() as int),
                        discover_fn(entry, lm, fcm, 0, f.number as int) == discover_fn(
                            sources_model(map@),
                            lm,
                            fcm,
                            j as int,
                            f.number as int,
                        ),
                        wentry + warn_fn(entry, lm, fcm, 0, f.number as int)
                            == crate::render::strings_model(warnings@) + warn_fn(
                            sources_model(map@),
                            lm,
                            fcm,
                            j as int,
                            f.number as int,
                        ),
                    decreases m - j,
                {
                    let ghost cur = sources_model(map@);
                    let ghost wcur = crate::render::strings_model(warnings@);
                    match &f.contents[j] {
                        Branch::Citation(c) => {
                            proof {
                                assert(fcm[j as int] == crate::parser::branch_model(
                                    f.contents@[j as int],
                                ));
                            }
                            match cite_warning_run(&map, csl_library, c) {
                                Some(msg) => {
                                    let ghost w0 = warnings@;
                                    warnings.push(msg);
                                    proof {
                                        crate::render::lemma_strings_model(w0);
                                        crate::render::lemma_strings_model(warnings@);
                                        assert(crate::render::strings_model(warnings@)
                                            =~= wcur + cite_warning(cur, lm, c@));
                                    }
                                },
                                None => {
                                    proof {
                                        assert(crate::render::strings_model(warnings@)
                                            =~= wcur + cite_warning(cur, lm, c@));
                                    }
                                },
                            }
                            discover_one(&mut map, csl_library, c, f.number);
                            proof {
                                assert(warn_fn(cur, lm, fcm, j as int, f.number as int)
                                    == cite_warning(cur, lm, c@) + warn_fn(
                                    sources_model(map@),
                                    lm,
                                    fcm,
                                    j + 1,
                                    f.number as int,
                                ));
                                assert(wcur + (cite_warning(cur, lm, c@) + warn_fn(
                                    sources_model(map@),
                                    lm,
                                    fcm,
                                    j + 1,
                                    f.number as int,
                                )) =~= (wcur + cite_warning(cur, lm, c@)) + warn_fn(
                                    sources_model(map@),
                                    lm,
                                    fcm,
                                    j + 1,
                                    f.number as int,
                                ));
                                assert(discover_fn(cur, lm, fcm, j as int, f.number as int)
                                    == discover_fn(
                                    sources_model(map@),
                                    lm,
                                    fcm,
                                    j + 1,
                                    f.number as int,
                                ));
                            }
                        },
                        _ => {
                            proof {
                                assert(fcm[j as int] == crate::parser::branch_model(
                                    f.contents@[j as int],
                                ));
                                assert(warn_fn(cur, lm, fcm, j as int, f.number as int)
                                    == warn_fn(cur, lm, fcm, j + 1, f.number as int));
                                assert(discover_fn(cur, lm, fcm, j as int, f.number as int)
                                    == discover_fn(cur, lm, fcm, j + 1, f.number as int));
                            }
                        },
                    }
                    j = j + 1;
                }
            },
            _ => {
                proof {
                    assert(tm[i as int] == crate::parser::branch_model(tree@[i as int]));
                }
            },
        }
        i = i + 1;
    }
    proof {
        assert(crate::render::strings_model(warnings@) + Seq::<Seq<char>>::empty()
            =~= crate::render::strings_model(warnings@));
    }
    warnings
}

} // verus!
