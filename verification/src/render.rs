//! The renderer.  It walks the syntax tree in document order, threading the
//! footnote counter, the source map, and the citation history, and decides
//! for each citation whether to print the long form, the short form, or an
//! `*Id.*`.

use crate::crossref::{crossref_lookup, lookup_crossref, pairs_model};
use crate::parser::{Branch, BranchModel, CitationModel, PreCiteModel};
use crate::sourcemap::{
    long_w_pin_spec, short_w_pin_spec, smap_find, sources_model, Source, SourceModel, SourceType,
};
use crate::text::{chars_of_string, int_str, int_to_string, string_of, trim, trim_spec};
use vstd::prelude::*;

verus! {

broadcast use vstd::std_specs::vec::group_vec_axioms, vstd::seq::group_seq_axioms;

/// For tracking the last citations.
///
/// This tracks the last citation clause, adding sources to the collection
/// until it hits sentence-ending punctuation, which closes off the clause.
/// A closed clause that contained exactly one source, or an open clause
/// whose most recent source is the one being cited, permits an `*Id.*`.
#[derive(Debug)]
pub struct LastCitation {
    pub sources: Vec<String>,
    pub closed: bool,
    pub last_pin: String,
}

/// The model of the citation history.
pub struct LastCitationModel {
    pub sources: Seq<Seq<char>>,
    pub closed: bool,
    pub last_pin: Seq<char>,
}

/// The models of a vector of strings.
pub open spec fn strings_model(v: Seq<String>) -> Seq<Seq<char>>
    decreases v.len(),
{
    if v.len() == 0 {
        Seq::empty()
    } else {
        seq![v[0]@] + strings_model(v.drop_first())
    }
}

pub proof fn lemma_strings_model(v: Seq<String>)
    ensures
        strings_model(v).len() == v.len(),
        forall|k: int| 0 <= k < v.len() ==> strings_model(v)[k] == v[k]@,
    decreases v.len(),
{
    if v.len() > 0 {
        lemma_strings_model(v.drop_first());
        assert forall|k: int| 0 <= k < v.len() implies strings_model(v)[k] == v[k]@ by {
            if k > 0 {
                assert(v.drop_first()[k - 1] == v[k]);
            }
        }
    }
}

impl View for LastCitation {
    type V = LastCitationModel;

    open spec fn view(&self) -> LastCitationModel {
        LastCitationModel {
            sources: strings_model(self.sources@),
            closed: self.closed,
            last_pin: self.last_pin@,
        }
    }
}

/// The renderer's state: the source map, the running footnote counter, and
/// the citation history.
pub struct RState {
    pub smap: Seq<SourceModel>,
    pub fnum: int,
    pub lc: LastCitationModel,
}

/// Every source in the map has its citation strings synthesized and at
/// least one recorded footnote.
pub open spec fn smap_filled(ms: Seq<SourceModel>) -> bool {
    forall|k: int|
        0 <= k < ms.len() ==> {
            &&& (#[trigger] ms[k]).long_cite_no_pin is Some
            &&& ms[k].long_cite_w_pin is Some
            &&& ms[k].short_cite_no_pin is Some
            &&& ms[k].short_cite_w_pin is Some
            &&& ms[k].all_footnotes.len() > 0
        }
}

/// The number of footnotes in a branch, nested ones included.
pub open spec fn fn_count(b: BranchModel) -> int
    decreases b, 0int,
{
    match b {
        BranchModel::Footnote(f) => 1 + fn_count_seq(f.contents, 0),
        _ => 0,
    }
}

/// The number of footnotes among the branches from index `j` on.
pub open spec fn fn_count_seq(bs: Seq<BranchModel>, j: int) -> int
    decreases bs, bs.len() - j,
{
    if !(0 <= j < bs.len()) {
        0
    } else {
        fn_count(bs[j]) + fn_count_seq(bs, j + 1)
    }
}

pub proof fn lemma_fn_count_nonneg(b: BranchModel)
    ensures
        fn_count(b) >= 0,
    decreases b, 0int,
{
    match b {
        BranchModel::Footnote(f) => {
            lemma_fn_count_seq_nonneg(f.contents, 0);
        },
        _ => {},
    }
}

pub proof fn lemma_fn_count_seq_nonneg(bs: Seq<BranchModel>, j: int)
    ensures
        fn_count_seq(bs, j) >= 0,
    decreases bs, bs.len() - j,
{
    if 0 <= j < bs.len() {
        lemma_fn_count_nonneg(bs[j]);
        lemma_fn_count_seq_nonneg(bs, j + 1);
    }
}

/// The text of the pre-citation slot: the signal or punctuation, or nothing.
pub open spec fn precite_out(c: CitationModel) -> Seq<char> {
    match c.pre_cite {
        None => Seq::empty(),
        Some(PreCiteModel::Punctuation(p)) => p,
        Some(PreCiteModel::Signal(s)) => s,
    }
}

/// Whether a character occurs in a string.
pub open spec fn has_char(s: Seq<char>, ch: char) -> bool {
    exists|i: int| 0 <= i < s.len() && s[i] == ch
}

/// Whether an `*Id.*` here would be capitalized: yes with no pre-citation
/// material or after sentence-ending punctuation, no after a signal or
/// clause punctuation.
pub open spec fn capitalize_of(c: CitationModel) -> bool {
    match c.pre_cite {
        None => true,
        Some(PreCiteModel::Signal(_)) => false,
        Some(PreCiteModel::Punctuation(p)) => has_char(p, '.') || has_char(p, '!') || has_char(
            p,
            '?',
        ),
    }
}

/// Whether the citation history permits an `*Id.*` for source `id`: the last
/// closed clause contained exactly that source, or the still-open clause most
/// recently cited it.
pub open spec fn id_eligible(lc: LastCitationModel, id: Seq<char>) -> bool {
    (lc.closed && lc.sources.len() == 1 && id == lc.sources[0]) || (!lc.closed && lc.sources.len()
        > 0 && id == lc.sources.last())
}

/// How many footnotes back the renderer looks when deciding whether a case
/// may be re-cited in short form.  The width encodes a citation-style
/// convention, not anything structural.
pub const CASE_LOOKBACK: i32 = 5;

/// Whether the case was cited within the trailing lookback window of
/// footnotes, which governs whether it may be re-cited in short form.
pub open spec fn cited_in_lookback(s: SourceModel, fnum: int) -> bool {
    exists|d: int| 1 <= d <= CASE_LOOKBACK as int && #[trigger] s.all_footnotes.contains(fnum - d)
}

/// The body of a rendered citation, whether its ending punctuation must
/// still be printed, and the source map after it (the first long-form use of
/// a non-case source flips its `cited` flag).
pub open spec fn cite_body(c: CitationModel, s: SourceModel, k: int, st: RState) -> (
    Seq<char>,
    bool,
    Seq<SourceModel>,
) {
    if id_eligible(st.lc, s.id) {
        let base: Seq<char> = if capitalize_of(c) {
            "*Id.*"@
        } else {
            "*id.*"@
        };
        if c.pincite is Some && c.pincite->Some_0 != st.lc.last_pin {
            (base + " at "@ + c.pincite->Some_0, true, st.smap)
        } else {
            (base, false, st.smap)
        }
    } else if s.source_type is Case {
        if st.fnum == s.all_footnotes[0] || !cited_in_lookback(s, st.fnum) {
            let body: Seq<char> = match c.pincite {
                Some(p) => long_w_pin_spec(
                    s.source_type,
                    s.long_cite_w_pin->Some_0.0,
                    s.long_cite_w_pin->Some_0.1,
                    p,
                ),
                None => s.long_cite_no_pin->Some_0,
            };
            (body, true, st.smap)
        } else {
            let body: Seq<char> = match c.pincite {
                Some(p) => short_w_pin_spec(s.source_type, s.short_cite_w_pin->Some_0, p),
                None => s.short_cite_no_pin->Some_0,
            };
            (body, true, st.smap)
        }
    } else if !s.cited {
        let body: Seq<char> = match c.pincite {
            Some(p) => long_w_pin_spec(
                s.source_type,
                s.long_cite_w_pin->Some_0.0,
                s.long_cite_w_pin->Some_0.1,
                p,
            ),
            None => s.long_cite_no_pin->Some_0,
        };
        (body, true, st.smap.update(k, SourceModel { cited: true, ..s }))
    } else {
        let body: Seq<char> = match c.pincite {
            Some(p) => short_w_pin_spec(s.source_type, s.short_cite_w_pin->Some_0, p),
            None => s.short_cite_no_pin->Some_0,
        };
        (body, true, st.smap)
    }
}

/// A citation to a reference that never made it into the source map: the raw
/// marker passes through unresolved, so the author can see it, and the
/// citation history resets as a cite-break does.
pub open spec fn unresolved_out(c: CitationModel) -> Seq<char> {
    let pin: Seq<char> = match c.pincite {
        Some(p) => " at "@ + p,
        None => Seq::empty(),
    };
    let paren: Seq<char> = match c.parenthetical {
        Some(p) => " "@ + p,
        None => Seq::empty(),
    };
    precite_out(c) + c.reference + pin + paren + c.punctuation
}

/// What rendering one citation emits, and the state afterwards.
pub open spec fn render_cite_spec(c: CitationModel, st: RState) -> (Seq<char>, RState) {
    match smap_find(st.smap, c.reference) {
        None => (
            unresolved_out(c),
            RState {
                lc: LastCitationModel {
                    sources: Seq::empty(),
                    closed: true,
                    last_pin: st.lc.last_pin,
                },
                ..st
            },
        ),
        Some(k) => {
            let s = st.smap[k];
            let body = cite_body(c, s, k, st);
            let render_punct: bool = if c.parenthetical is Some {
                true
            } else {
                body.1
            };
            let paren_out: Seq<char> = match c.parenthetical {
                Some(p) => " "@ + p,
                None => Seq::empty(),
            };
            let punct_out: Seq<char> = if render_punct || c.punctuation != "."@ {
                c.punctuation
            } else {
                Seq::empty()
            };
            let out = precite_out(c) + body.0 + paren_out + punct_out;
            let sources1: Seq<Seq<char>> = if st.lc.closed {
                seq![s.id]
            } else if !st.lc.sources.contains(s.id) {
                st.lc.sources.push(s.id)
            } else {
                st.lc.sources
            };
            let last_pin1: Seq<char> = match c.pincite {
                Some(p) => p,
                None => st.lc.last_pin,
            };
            let closed1: bool = c.punctuation == "."@ || c.punctuation == "!"@ || c.punctuation
                == "?"@;
            (
                out,
                RState {
                    smap: body.2,
                    fnum: st.fnum,
                    lc: LastCitationModel {
                        sources: sources1,
                        closed: closed1,
                        last_pin: last_pin1,
                    },
                },
            )
        },
    }
}

/// What rendering one branch emits, and the state afterwards.
pub open spec fn render_branch_spec(
    b: BranchModel,
    cm: Seq<(Seq<char>, int)>,
    st: RState,
) -> (Seq<char>, RState)
    decreases b, 0int,
{
    match b {
        BranchModel::Text(t) => (t, st),
        BranchModel::CiteBreak => (
            Seq::empty(),
            RState {
                lc: LastCitationModel {
                    sources: Seq::empty(),
                    closed: true,
                    last_pin: st.lc.last_pin,
                },
                ..st
            },
        ),
        BranchModel::CrossRef(c) => (
            match crossref_lookup(cm, c) {
                Some(n) => int_str(n),
                None => c,
            },
            st,
        ),
        BranchModel::Citation(c) => render_cite_spec(c, st),
        BranchModel::Footnote(f) => {
            let st1 = RState { fnum: st.fnum + 1, ..st };
            let inner = render_seq_spec(f.contents, 0, cm, st1);
            ("^["@ + trim_spec(inner.0) + "]"@, inner.1)
        },
    }
}

/// What rendering the branches from index `j` on emits, and the state
/// afterwards.
pub open spec fn render_seq_spec(
    bs: Seq<BranchModel>,
    j: int,
    cm: Seq<(Seq<char>, int)>,
    st: RState,
) -> (Seq<char>, RState)
    decreases bs, bs.len() - j,
{
    if !(0 <= j < bs.len()) {
        (Seq::empty(), st)
    } else {
        let first = render_branch_spec(bs[j], cm, st);
        let rest = render_seq_spec(bs, j + 1, cm, first.1);
        (first.0 + rest.0, rest.1)
    }
}

/// The renderer's initial state over a given source map.
pub open spec fn init_rstate(smap: Seq<SourceModel>) -> RState {
    RState {
        smap,
        fnum: 0,
        lc: LastCitationModel { sources: Seq::empty(), closed: false, last_pin: Seq::empty() },
    }
}

/// What rendering a whole tree emits, and the state afterwards.
pub open spec fn render_spec(
    tree: Seq<BranchModel>,
    cm: Seq<(Seq<char>, int)>,
    smap: Seq<SourceModel>,
) -> (Seq<char>, RState) {
    render_seq_spec(tree, 0, cm, init_rstate(smap))
}

fn has_char_run(s: &String, ch: char) -> (r: bool)
    ensures
        r == has_char(s@, ch),
{
    let v = chars_of_string(s);
    let n: usize = v.len();
    let mut i: usize = 0;
    while i < n
        invariant
            n == v@.len(),
            v@ == s@,
            i <= n,
            forall|k: int| 0 <= k < i ==> s@[k] != ch,
        decreases n - i,
    {
        if v[i] == ch {
            return true;
        }
        i = i + 1;
    }
    false
}

fn contains_i32(v: &Vec<i32>, x: i32) -> (r: bool)
    ensures
        r == crate::sourcemap::ints_model(v@).contains(x as int),
{
    let ghost m = crate::sourcemap::ints_model(v@);
    let n: usize = v.len();
    let mut i: usize = 0;
    while i < n
        invariant
            n == v@.len(),
            m == crate::sourcemap::ints_model(v@),
            i <= n,
            forall|k: int| 0 <= k < i ==> m[k] != x as int,
        decreases n - i,
    {
        if v[i] == x {
            proof {
                assert(m[i as int] == x as int);
            }
            return true;
        }
        i = i + 1;
    }
    proof {
        if m.contains(x as int) {
            let k = choose|k: int| 0 <= k < m.len() && m[k] == x as int;
        }
    }
    false
}

fn contains_string(v: &Vec<String>, x: &String) -> (r: bool)
    ensures
        r == strings_model(v@).contains(x@),
{
    let ghost m = strings_model(v@);
    proof {
        lemma_strings_model(v@);
    }
    let n: usize = v.len();
    let mut i: usize = 0;
    while i < n
        invariant
            n == v@.len(),
            m == strings_model(v@),
            m.len() == n,
            forall|k: int| 0 <= k < n ==> m[k] == v@[k]@,
            i <= n,
            forall|k: int| 0 <= k < i ==> m[k] != x@,
        decreases n - i,
    {
        if v[i] == *x {
            proof {
                assert(m[i as int] == x@);
            }
            return true;
        }
        i = i + 1;
    }
    proof {
        if m.contains(x@) {
            let k = choose|k: int| 0 <= k < m.len() && m[k] == x@;
        }
    }
    false
}

/// The citation form chosen for one resolved citation: its body, whether
/// ending punctuation must still be printed, with the source's `cited` flag
/// flipped on a first long-form use.
#[verifier::rlimit(100)]
fn render_cite_form(
    citation: &crate::parser::Citation,
    source_map: &mut Vec<Source>,
    k: usize,
    current_footnote: i32,
    last_citation: &LastCitation,
) -> (r: (String, bool))
    requires
        k < old(source_map)@.len(),
        smap_filled(sources_model(old(source_map)@)),
        current_footnote >= 0,
    ensures
        ({
            let st = RState {
                smap: sources_model(old(source_map)@),
                fnum: current_footnote as int,
                lc: last_citation@,
            };
            let b = cite_body(citation@, st.smap[k as int], k as int, st);
            &&& r.0@ == b.0
            &&& r.1 == b.1
            &&& sources_model(final(source_map)@) == b.2
            &&& smap_filled(sources_model(final(source_map)@))
        }),
{
    let ghost st0 = RState {
        smap: sources_model(old(source_map)@),
        fnum: current_footnote as int,
        lc: last_citation@,
    };
    let ghost s = st0.smap[k as int];
    proof {
        crate::sourcemap::lemma_sources_model(source_map@);
        assert(s == source_map@[k as int]@);
        assert(s.all_footnotes.len() > 0);
    }
    let mut capitalize: bool = true;
    match &citation.pre_cite {
        Some(crate::parser::PreCite::Punctuation(p)) => {
            if !has_char_run(&p.contents, '.') && !has_char_run(&p.contents, '!')
                && !has_char_run(&p.contents, '?') {
                capitalize = false;
            }
        },
        Some(crate::parser::PreCite::Signal(_)) => {
            capitalize = false;
        },
        None => {},
    }
    proof {
        assert(capitalize == capitalize_of(citation@));
    }
    let mut contents = String::new();
    let mut render_punctuation: bool = true;
    let eligible: bool = (last_citation.closed && last_citation.sources.len() == 1
        && source_map[k].id == last_citation.sources[0]) || (!last_citation.closed
        && last_citation.sources.len() > 0 && source_map[k].id
        == last_citation.sources[last_citation.sources.len() - 1]);
    proof {
        lemma_strings_model(last_citation.sources@);
        assert(eligible == id_eligible(st0.lc, s.id));
    }
    if eligible {
        // It's an *Id.*  With a pincite that differs from the last one, add
        // an at-clause; with the same pincite, *Id.* alone suffices, and its
        // own period can end the sentence.
        if capitalize {
            contents.append("*Id.*");
        } else {
            contents.append("*id.*");
        }
        render_punctuation = false;
        match &citation.pincite {
            Some(p) => {
                if !(*p == last_citation.last_pin) {
                    contents.append(" at ");
                    contents.append(p.as_str());
                    render_punctuation = true;
                }
            },
            None => {},
        }
    } else if source_map[k].source_type == SourceType::Case {
        // Case citation: the long form on first use or when the case has
        // not been cited within the lookback window, the short form
        // otherwise.
        let mut last_five = false;
        let mut d: i32 = 1;
        while d <= CASE_LOOKBACK
            invariant
                1 <= d <= CASE_LOOKBACK + 1,
                current_footnote >= 0,
                st0.fnum == current_footnote as int,
                s == st0.smap[k as int],
                k < source_map@.len(),
                sources_model(source_map@) == st0.smap,
                last_five == exists|d2: int|
                    1 <= d2 < d as int && #[trigger] s.all_footnotes.contains(st0.fnum - d2),
            decreases CASE_LOOKBACK + 1 - d,
        {
            proof {
                crate::sourcemap::lemma_sources_model(source_map@);
            }
            if contains_i32(&source_map[k].all_footnotes, current_footnote - d) {
                proof {
                    assert(s.all_footnotes.contains(st0.fnum - d as int));
                }
                last_five = true;
            }
            d = d + 1;
        }
        proof {
            assert(last_five == cited_in_lookback(s, st0.fnum));
        }
        let first = current_footnote == source_map[k].all_footnotes[0];
        if first || !last_five {
            match &citation.pincite {
                Some(p) => {
                    let body = source_map[k].long_cite_w_pin(p.as_str());
                    contents.append(body.as_str());
                },
                None => {
                    let body = source_map[k].long_cite_no_pin();
                    contents.append(body.as_str());
                },
            }
        } else {
            match &citation.pincite {
                Some(p) => {
                    let body = source_map[k].short_cite_w_pin(p.as_str());
                    contents.append(body.as_str());
                },
                None => {
                    let body = source_map[k].short_cite_no_pin();
                    contents.append(body.as_str());
                },
            }
        }
    } else if !source_map[k].cited {
        // First citation to a source using supra: flip the cited flag and
        // output a long cite.
        let ghost pre_vec = source_map@;
        let mut sx = source_map.remove(k);
        sx.cited = true;
        match &citation.pincite {
            Some(p) => {
                let body = sx.long_cite_w_pin(p.as_str());
                contents.append(body.as_str());
            },
            None => {
                let body = sx.long_cite_no_pin();
                contents.append(body.as_str());
            },
        }
        source_map.insert(k, sx);
        proof {
            assert(source_map@ =~= pre_vec.update(k as int, sx));
            crate::sourcemap::lemma_sources_model_update(pre_vec, k as int, sx);
            assert(sx@ == SourceModel { cited: true, ..s });
            crate::sourcemap::lemma_sources_model(source_map@);
        }
    } else {
        // Otherwise the source using a supra has already been cited.
        match &citation.pincite {
            Some(p) => {
                let body = source_map[k].short_cite_w_pin(p.as_str());
                contents.append(body.as_str());
            },
            None => {
                let body = source_map[k].short_cite_no_pin();
                contents.append(body.as_str());
            },
        }
    }
    (contents, render_punctuation)
}

/// Update the citation history to what was just cited.
fn update_history(
    citation: &crate::parser::Citation,
    sid: &String,
    last_citation: &mut LastCitation,
)
    ensures
        ({
            let lc = old(last_citation)@;
            let sources1: Seq<Seq<char>> = if lc.closed {
                seq![sid@]
            } else if !lc.sources.contains(sid@) {
                lc.sources.push(sid@)
            } else {
                lc.sources
            };
            let last_pin1: Seq<char> = match citation@.pincite {
                Some(p) => p,
                None => lc.last_pin,
            };
            let closed1: bool = citation@.punctuation == "."@ || citation@.punctuation == "!"@
                || citation@.punctuation == "?"@;
            final(last_citation)@ == (LastCitationModel {
                sources: sources1,
                closed: closed1,
                last_pin: last_pin1,
            })
        }),
{
    // If the previous clause is closed, erase it and start a new one.  If
    // it's not, add the new citation to the collection if it's not already
    // there.
    if last_citation.closed {
        let mut v: Vec<String> = Vec::new();
        v.push(sid.clone());
        last_citation.sources = v;
        last_citation.closed = false;
        proof {
            lemma_strings_model(last_citation.sources@);
            assert(strings_model(last_citation.sources@) =~= seq![sid@]);
        }
    } else if !contains_string(&last_citation.sources, sid) {
        let ghost pre_sources = last_citation.sources@;
        last_citation.sources.push(sid.clone());
        proof {
            lemma_strings_model(pre_sources);
            lemma_strings_model(last_citation.sources@);
            assert(strings_model(last_citation.sources@) =~= strings_model(pre_sources).push(
                sid@,
            ));
        }
    }
    // If there was a pincite, update that.
    match &citation.pincite {
        Some(p) => {
            last_citation.last_pin = p.clone();
        },
        None => {},
    }
    // Then, if the latest citation's punctuation ends a clause, close off
    // the clause.
    let dot = String::from_str(".");
    let bang = String::from_str("!");
    let query = String::from_str("?");
    if citation.punctuation == dot || citation.punctuation == bang || citation.punctuation
        == query {
        last_citation.closed = true;
    } else {
        last_citation.closed = false;
    }
}

/// Render one citation branch, updating the source map and the citation
/// history.
#[verifier::rlimit(100)]
fn render_cite(
    citation: &crate::parser::Citation,
    source_map: &mut Vec<Source>,
    current_footnote: i32,
    last_citation: &mut LastCitation,
) -> (r: String)
    requires
        smap_filled(sources_model(old(source_map)@)),
        current_footnote >= 0,
    ensures
        ({
            let res = render_cite_spec(
                citation@,
                RState {
                    smap: sources_model(old(source_map)@),
                    fnum: current_footnote as int,
                    lc: old(last_citation)@,
                },
            );
            &&& r@ == res.0
            &&& sources_model(final(source_map)@) == res.1.smap
            &&& final(last_citation)@ == res.1.lc
            &&& smap_filled(sources_model(final(source_map)@))
        }),
{
    let ghost st0 = RState {
        smap: sources_model(old(source_map)@),
        fnum: current_footnote as int,
        lc: old(last_citation)@,
    };
    let mut contents = String::new();
    // First render the pre-citation punctuation or signal.
    match &citation.pre_cite {
        Some(crate::parser::PreCite::Punctuation(p)) => {
            contents.append(p.contents.as_str());
        },
        Some(crate::parser::PreCite::Signal(sg)) => {
            contents.append(sg.contents.as_str());
        },
        None => {},
    }
    proof {
        assert(contents@ =~= precite_out(citation@));
    }
    let k = match crate::sourcemap::find_source(source_map, &citation.reference) {
        Some(k) => k,
        None => {
            // A citation to a source outside the map passes through
            // unresolved, and the citation history resets.
            contents.append(citation.reference.as_str());
            match &citation.pincite {
                Some(p) => {
                    contents.append(" at ");
                    contents.append(p.as_str());
                },
                None => {},
            }
            match &citation.parenthetical {
                Some(p) => {
                    contents.append(" ");
                    contents.append(p.as_str());
                },
                None => {},
            }
            contents.append(citation.punctuation.as_str());
            last_citation.sources = Vec::new();
            last_citation.closed = true;
            proof {
                assert(strings_model(last_citation.sources@) =~= Seq::<Seq<char>>::empty());
                assert(contents@ =~= render_cite_spec(citation@, st0).0);
            }
            return contents;
        },
    };
    let ghost s = st0.smap[k as int];
    proof {
        crate::sourcemap::lemma_sources_model(source_map@);
        assert(s == source_map@[k as int]@);
    }
    let sid = source_map[k].id.clone();
    let form = render_cite_form(citation, source_map, k, current_footnote, last_citation);
    contents.append(form.0.as_str());
    let mut render_punctuation = form.1;
    // Regardless of the cite type, append the parenthetical, then the
    // punctuation, unless a bare *Id.* already carries its own period.
    match &citation.parenthetical {
        Some(p) => {
            contents.append(" ");
            contents.append(p.as_str());
            render_punctuation = true;
        },
        None => {},
    }
    let dot = String::from_str(".");
    if render_punctuation || !(citation.punctuation == dot) {
        contents.append(citation.punctuation.as_str());
    }
    update_history(citation, &sid, last_citation);
    proof {
        let res = render_cite_spec(citation@, st0);
        assert(contents@ =~= res.0);
        crate::sourcemap::lemma_sources_model(source_map@);
    }
    contents
}

/// The size of a branch: itself plus everything nested in it.
pub open spec fn bm_size(b: BranchModel) -> int
    decreases b, 0int,
{
    match b {
        BranchModel::Footnote(f) => 1 + bms_size(f.contents, 0),
        _ => 1,
    }
}

/// The joint size of the branches from index `j` on.
pub open spec fn bms_size(bs: Seq<BranchModel>, j: int) -> int
    decreases bs, bs.len() - j,
{
    if !(0 <= j < bs.len()) {
        0
    } else {
        bm_size(bs[j]) + bms_size(bs, j + 1)
    }
}

pub proof fn lemma_bm_size_pos(b: BranchModel)
    ensures
        bm_size(b) >= 1,
    decreases b, 0int,
{
    match b {
        BranchModel::Footnote(f) => {
            lemma_bms_size_nonneg(f.contents, 0);
        },
        _ => {},
    }
}

pub proof fn lemma_bms_size_nonneg(bs: Seq<BranchModel>, j: int)
    ensures
        bms_size(bs, j) >= 0,
    decreases bs, bs.len() - j,
{
    if 0 <= j < bs.len() {
        lemma_bm_size_pos(bs[j]);
        lemma_bms_size_nonneg(bs, j + 1);
    }
}

/// An element weighs no more than the whole tail it sits in.
pub proof fn lemma_bms_size_elem(bs: Seq<BranchModel>, a: int, j: int)
    requires
        0 <= a <= j < bs.len(),
    ensures
        bm_size(bs[j]) <= bms_size(bs, a),
    decreases j - a,
{
    if a == j {
        lemma_bms_size_nonneg(bs, j + 1);
    } else {
        lemma_bm_size_pos(bs[a]);
        lemma_bms_size_elem(bs, a + 1, j);
    }
}

/// Rendering a branch advances the footnote counter by exactly the number
/// of footnotes in it.
pub proof fn lemma_render_fnum(b: BranchModel, cm: Seq<(Seq<char>, int)>, st: RState)
    ensures
        render_branch_spec(b, cm, st).1.fnum == st.fnum + fn_count(b),
    decreases b, 0int,
{
    match b {
        BranchModel::Footnote(f) => {
            lemma_render_seq_fnum(f.contents, 0, cm, RState { fnum: st.fnum + 1, ..st });
        },
        _ => {},
    }
}

/// Rendering a run of branches advances the footnote counter by exactly the
/// number of footnotes in it.
pub proof fn lemma_render_seq_fnum(
    bs: Seq<BranchModel>,
    j: int,
    cm: Seq<(Seq<char>, int)>,
    st: RState,
)
    ensures
        render_seq_spec(bs, j, cm, st).1.fnum == st.fnum + fn_count_seq(bs, j),
    decreases bs, bs.len() - j,
{
    if 0 <= j < bs.len() {
        lemma_render_fnum(bs[j], cm, st);
        lemma_render_seq_fnum(bs, j + 1, cm, render_branch_spec(bs[j], cm, st).1);
    }
}

/// Renders a branch.
///
/// Receives branches and renders them depending on their type, returning a
/// string.  Footnote branches recursively render their contents.
#[verifier::rlimit(100)]
pub fn render_branch(
    branch: &Branch,
    source_map: &mut Vec<Source>,
    crossref_map: &Vec<(String, i32)>,
    current_footnote: &mut i32,
    last_citation: &mut LastCitation,
) -> (r: String)
    requires
        smap_filled(sources_model(old(source_map)@)),
        *old(current_footnote) >= 0,
        *old(current_footnote) + fn_count(crate::parser::branch_model(*branch)) <= i32::MAX,
    ensures
        ({
            let res = render_branch_spec(
                crate::parser::branch_model(*branch),
                pairs_model(crossref_map@),
                RState {
                    smap: sources_model(old(source_map)@),
                    fnum: *old(current_footnote) as int,
                    lc: old(last_citation)@,
                },
            );
            &&& r@ == res.0
            &&& sources_model(final(source_map)@) == res.1.smap
            &&& *final(current_footnote) as int == res.1.fnum
            &&& final(last_citation)@ == res.1.lc
            &&& smap_filled(sources_model(final(source_map)@))
            &&& *final(current_footnote) as int == *old(current_footnote) + fn_count(
                crate::parser::branch_model(*branch),
            )
        }),
    decreases bm_size(crate::parser::branch_model(*branch)),
{
    let ghost st0 = RState {
        smap: sources_model(old(source_map)@),
        fnum: *old(current_footnote) as int,
        lc: old(last_citation)@,
    };
    let out: String = match branch {
        Branch::Text(t) => t.contents.clone(),
        Branch::Footnote(footnote) => {
            proof {
                lemma_fn_count_seq_nonneg(
                    crate::parser::branch_model(*branch)->Footnote_0.contents,
                    0,
                );
            }
            *current_footnote = *current_footnote + 1;
            let ghost fcm = crate::parser::branches_model(footnote.contents@);
            let ghost st1 = RState { fnum: st0.fnum + 1, ..st0 };
            let mut contents = String::new();
            let m: usize = footnote.contents.len();
            let mut j: usize = 0;
            proof {
                crate::parser::lemma_branches_model(footnote.contents@);
                assert(render_seq_spec(fcm, 0, pairs_model(crossref_map@), st1) == render_seq_spec(
                    fcm,
                    0,
                    pairs_model(crossref_map@),
                    RState {
                        smap: sources_model(source_map@),
                        fnum: *current_footnote as int,
                        lc: last_citation@,
                    },
                ));
            }
            while j < m
                invariant
                    m == footnote.contents@.len(),
                    j <= m,
                    fcm == crate::parser::branches_model(footnote.contents@),
                    crate::parser::branch_model(*branch) matches BranchModel::Footnote(fm)
                        && fm.contents == fcm,
                    fcm.len() == m,
                    forall|k: int|
                        0 <= k < m ==> fcm[k] == crate::parser::branch_model(
                            footnote.contents@[k],
                        ),
                    smap_filled(sources_model(source_map@)),
                    *current_footnote >= 0,
                    *current_footnote as int + fn_count_seq(fcm, j as int) <= i32::MAX,
                    ({
                        let rest = render_seq_spec(
                            fcm,
                            j as int,
                            pairs_model(crossref_map@),
                            RState {
                                smap: sources_model(source_map@),
                                fnum: *current_footnote as int,
                                lc: last_citation@,
                            },
                        );
                        render_seq_spec(fcm, 0, pairs_model(crossref_map@), st1) == (
                            contents@ + rest.0,
                            rest.1,
                        )
                    }),
                decreases m - j,
            {
                let ghost pre_out = contents@;
                let ghost stj = RState {
                    smap: sources_model(source_map@),
                    fnum: *current_footnote as int,
                    lc: last_citation@,
                };
                proof {
                    assert(fcm[j as int] == crate::parser::branch_model(
                        footnote.contents@[j as int],
                    ));
                    lemma_fn_count_nonneg(fcm[j as int]);
                    lemma_fn_count_seq_nonneg(fcm, j + 1);
                    let pm = crate::parser::branch_model(*branch);
                    assert(pm->Footnote_0.contents == fcm);
                    lemma_bms_size_elem(fcm, 0, j as int);
                    lemma_bm_size_pos(fcm[j as int]);
                    assert(bm_size(fcm[j as int]) < bm_size(pm));
                    assert(fcm[j as int] == crate::parser::branch_model(
                        footnote.contents@[j as int],
                    ));
                }
                let piece = render_branch(
                    &footnote.contents[j],
                    source_map,
                    crossref_map,
                    current_footnote,
                    last_citation,
                );
                contents.append(piece.as_str());
                proof {
                    let first = render_branch_spec(fcm[j as int], pairs_model(crossref_map@), stj);
                    let rest = render_seq_spec(
                        fcm,
                        j + 1,
                        pairs_model(crossref_map@),
                        first.1,
                    );
                    assert(render_seq_spec(fcm, j as int, pairs_model(crossref_map@), stj) == (
                        first.0 + rest.0,
                        rest.1,
                    ));
                    assert(pre_out + (first.0 + rest.0) =~= (pre_out + first.0) + rest.0);
                }
                j = j + 1;
            }
            proof {
                let restm = render_seq_spec(
                    fcm,
                    m as int,
                    pairs_model(crossref_map@),
                    RState {
                        smap: sources_model(source_map@),
                        fnum: *current_footnote as int,
                        lc: last_citation@,
                    },
                );
                assert(contents@ + restm.0 =~= contents@);
            }
            let cv = chars_of_string(&contents);
            let trimmed = trim(&cv);
            let mut out = String::from_str("^[");
            let ts = string_of(&trimmed);
            out.append(ts.as_str());
            out.append("]");
            proof {
                assert(out@ =~= render_branch_spec(
                    crate::parser::branch_model(*branch),
                    pairs_model(crossref_map@),
                    st0,
                ).0);
            }
            out
        },
        Branch::Citation(citation) => render_cite(
            citation,
            source_map,
            *current_footnote,
            last_citation,
        ),
        Branch::CrossRef(crossref) => {
            match lookup_crossref(crossref_map, &crossref.contents) {
                Some(n) => int_to_string(n),
                None => crossref.contents.clone(),
            }
        },
        Branch::CiteBreak => {
            last_citation.sources = Vec::new();
            last_citation.closed = true;
            proof {
                assert(strings_model(last_citation.sources@) =~= Seq::<Seq<char>>::empty());
            }
            String::new()
        },
    };
    proof {
        lemma_render_fnum(crate::parser::branch_model(*branch), pairs_model(crossref_map@), st0);
    }
    out
}

/// The main render function.
///
/// Iterates through the branches, rendering each in turn while threading the
/// footnote counter, the source map, and the citation history.
pub fn render(
    tree: &Vec<Branch>,
    source_map: &mut Vec<Source>,
    crossref_map: &Vec<(String, i32)>,
) -> (r: String)
    requires
        smap_filled(sources_model(old(source_map)@)),
        fn_count_seq(crate::parser::branches_model(tree@), 0) <= i32::MAX,
    ensures
        ({
            let res = render_spec(
                crate::parser::branches_model(tree@),
                pairs_model(crossref_map@),
                sources_model(old(source_map)@),
            );
            &&& r@ == res.0
            &&& sources_model(final(source_map)@) == res.1.smap
        }),
{
    let ghost tm = crate::parser::branches_model(tree@);
    let ghost st0 = init_rstate(sources_model(source_map@));
    let mut output = String::new();
    let mut current_footnote: i32 = 0;
    let mut last_citation = LastCitation {
        sources: Vec::new(),
        closed: false,
        last_pin: String::new(),
    };
    let n: usize = tree.len();
    let mut i: usize = 0;
    proof {
        crate::parser::lemma_branches_model(tree@);
        lemma_strings_model(last_citation.sources@);
        assert(strings_model(last_citation.sources@) =~= Seq::<Seq<char>>::empty());
        assert(last_citation@ == st0.lc);
    }
    while i < n
        invariant
            n == tree@.len(),
            i <= n,
            tm == crate::parser::branches_model(tree@),
            tm.len() == n,
            forall|k: int| 0 <= k < n ==> tm[k] == crate::parser::branch_model(tree@[k]),
            st0 == init_rstate(sources_model(old(source_map)@)),
            smap_filled(sources_model(source_map@)),
            current_footnote >= 0,
            current_footnote as int + fn_count_seq(tm, i as int) <= i32::MAX,
            ({
                let rest = render_seq_spec(
                    tm,
                    i as int,
                    pairs_model(crossref_map@),
                    RState {
                        smap: sources_model(source_map@),
                        fnum: current_footnote as int,
                        lc: last_citation@,
                    },
                );
                render_seq_spec(tm, 0, pairs_model(crossref_map@), st0) == (
                    output@ + rest.0,
                    rest.1,
                )
            }),
        decreases n - i,
    {
        let ghost pre_out = output@;
        let ghost sti = RState {
            smap: sources_model(source_map@),
            fnum: current_footnote as int,
            lc: last_citation@,
        };
        proof {
            assert(tm[i as int] == crate::parser::branch_model(tree@[i as int]));
            lemma_fn_count_nonneg(tm[i as int]);
            lemma_fn_count_seq_nonneg(tm, i + 1);
        }
        let piece = render_branch(
            &tree[i],
            source_map,
            crossref_map,
            &mut current_footnote,
            &mut last_citation,
        );
        output.append(piece.as_str());
        proof {
            let first = render_branch_spec(tm[i as int], pairs_model(crossref_map@), sti);
            let rest = render_seq_spec(tm, i + 1, pairs_model(crossref_map@), first.1);
            assert(render_seq_spec(tm, i as int, pairs_model(crossref_map@), sti) == (
                first.0 + rest.0,
                rest.1,
            ));
            assert(pre_out + (first.0 + rest.0) =~= (pre_out + first.0) + rest.0);
        }
        i = i + 1;
    }
    proof {
        let restm = render_seq_spec(
            tm,
            n as int,
            pairs_model(crossref_map@),
            RState {
                smap: sources_model(source_map@),
                fnum: current_footnote as int,
                lc: last_citation@,
            },
        );
        assert(output@ + restm.0 =~= output@);
    }
    output
}

} // verus!
