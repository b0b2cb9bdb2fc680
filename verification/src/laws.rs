//! Laws of the pipeline: properties that hold of every document, proved
//! from the specifications of the lexer, parser, resolver, and renderer.

use crate::crossref::{crossref_lookup, crossref_map_spec, crossref_pre};
use crate::csljson::CslModel;
use crate::lexer::{lex_spec, text_end, text_from, text_step, tok, TokenModel, TokenType, TxCtx};
use crate::parser::{parse_spec, tx_parse_pre, tx_parse_step, BranchModel, CitationModel};
use crate::render::{
    cite_body, id_eligible, render_branch_spec, render_cite_spec, render_seq_spec, RState,
};
use crate::sourcemap::{
    discover_cite, discover_fn, discover_tree, herein_pass, longs_pass, needs_hereinafter,
    shorts_pass, smap_find, source_map_spec, start_map_spec, with_hereinafter, with_longs,
    with_shorts, SourceModel,
};
use crate::text::{contains_sub, is_at};
use vstd::prelude::*;

verus! {

broadcast use vstd::seq::group_seq_axioms;

proof fn lemma_no_marker_positions(s: Seq<char>)
    requires
        !contains_sub(s, "^["@),
    ensures
        forall|j: int| 0 <= j < s.len() - 1 ==> !(#[trigger] s[j] == '^' && s[j + 1] == '['),
{
    crate::text::lemma_not_contains(s, "^["@);
    reveal_strlit("^[");
    assert forall|j: int| 0 <= j < s.len() - 1 implies !(#[trigger] s[j] == '^' && s[j + 1] == '[') by {
        if s[j] == '^' && s[j + 1] == '[' {
            assert(s.subrange(j, j + 2) =~= "^["@);
            assert(is_at(s, "^["@, j));
        }
    }
}

proof fn lemma_text_only_from(s: Seq<char>, i: int)
    requires
        s.len() >= 2,
        !contains_sub(s, "^["@),
        0 <= i < s.len(),
    ensures
        text_from(s, i, TxCtx::Text, 0, 0) == Ok::<Seq<TokenModel>, Seq<char>>(
            seq![tok(TokenType::Text, s)],
        ),
    decreases s.len() - i,
{
    lemma_no_marker_positions(s);
    let st = text_step(s, i, TxCtx::Text, 0, 0);
    assert(st == Ok::<(Seq<TokenModel>, TxCtx, int, int), Seq<char>>(
        (Seq::<TokenModel>::empty(), TxCtx::Text, 0int, 0int),
    ));
    if i == s.len() - 1 {
        assert(s.subrange(0, i + 1) =~= s);
        assert(text_end(s, i, (Seq::<TokenModel>::empty(), TxCtx::Text, 0int, 0int))
            == Ok::<Seq<TokenModel>, Seq<char>>(
            Seq::<TokenModel>::empty() + seq![tok(TokenType::Text, s)],
        ));
        assert(Seq::<TokenModel>::empty() + seq![tok(TokenType::Text, s)] =~= seq![
            tok(TokenType::Text, s),
        ]);
    } else {
        lemma_text_only_from(s, i + 1);
        assert(Seq::<TokenModel>::empty() + seq![tok(TokenType::Text, s)] =~= seq![
            tok(TokenType::Text, s),
        ]);
    }
}

/// A document with no footnote markers lexes to one text token holding the
/// whole document.
pub proof fn law_lex_no_markers(s: Seq<char>)
    requires
        s.len() >= 2,
        !contains_sub(s, "^["@),
    ensures
        lex_spec(s) == Ok::<Seq<TokenModel>, Seq<char>>(seq![tok(TokenType::Text, s)]),
{
    lemma_no_marker_positions(s);
    reveal_strlit("^[");
    if s.len() >= 2 && s[0] == '^' && s[1] == '[' {
        assert(false);
    }
    lemma_text_only_from(s, 0);
}

/// Re-running the pipeline on text with no remaining annotation markers is a
/// no-op: the document lexes to plain text, parses to one text branch, and
/// renders back to itself, whatever the library holds.
pub proof fn law_roundtrip_no_markers(
    s: Seq<char>,
    lib: Seq<CslModel>,
    ujv: Seq<(Seq<char>, Seq<char>)>,
    offset: int,
)
    requires
        s.len() >= 2,
        !contains_sub(s, "^["@),
    ensures
        lex_spec(s) matches Ok(ts) && parse_spec(ts, offset) == seq![BranchModel::Text(s)]
            && crate::sourcemap::source_map_ok(parse_spec(ts, offset), lib)
            && crate::pre::rendered_spec(parse_spec(ts, offset), lib, ujv) == s,
{
    law_lex_no_markers(s);
    let ts = seq![tok(TokenType::Text, s)];
    let st1 = tx_parse_pre(ts, offset, 1);
    assert(st1 == tx_parse_step(ts, 0, tx_parse_pre(ts, offset, 0)));
    assert(st1.parse =~= seq![BranchModel::Text(s)]);
    assert(parse_spec(ts, offset) == st1.parse);
    let tree = seq![BranchModel::Text(s)];
    let sm0 = crate::sourcemap::start_map_spec(tree, lib);
    assert(crate::sourcemap::discover_tree(Seq::empty(), lib, tree, 1) == crate::sourcemap::discover_tree(
        Seq::<SourceModel>::empty(),
        lib,
        tree,
        1,
    ));
    assert(sm0 =~= Seq::<SourceModel>::empty());
    let hm = herein_pass(sm0);
    assert(hm.len() == 0);
    assert(crate::sourcemap::source_map_ok(tree, lib));
    let cm = crossref_map_spec(tree);
    let smap = crate::sourcemap::source_map_spec(tree, lib, ujv);
    let st = crate::render::init_rstate(smap);
    let first = render_branch_spec(tree[0], cm, st);
    assert(first == (s, st));
    let rest = render_seq_spec(tree, 1, cm, first.1);
    assert(rest.0 =~= Seq::<char>::empty());
    assert(render_seq_spec(tree, 0, cm, st).0 =~= s);
}

/// The number of footnotes among the first `i` branches of a parsed tree.
pub open spec fn fns_before(bs: Seq<BranchModel>, i: int) -> int
    decreases i,
{
    if i <= 0 {
        0
    } else {
        fns_before(bs, i - 1) + (if bs[i - 1] is Footnote {
            1int
        } else {
            0int
        })
    }
}

/// Open- and close-footnote tokens alternate properly from position `i` on,
/// given whether a footnote is open there.  The lexer only produces streams
/// of this shape.
pub open spec fn paired_from(ts: Seq<TokenModel>, i: int, open: bool) -> bool
    decreases ts.len() - i,
{
    if !(0 <= i < ts.len()) {
        true
    } else {
        match ts[i].token_type {
            TokenType::OpenFootnote => !open && paired_from(ts, i + 1, true),
            TokenType::CloseFootnote => open && paired_from(ts, i + 1, false),
            _ => paired_from(ts, i + 1, open),
        }
    }
}

proof fn lemma_parse_numbers_pre(ts: Seq<TokenModel>, offset: int, i: int)
    requires
        0 <= i <= ts.len(),
        paired_from(ts, 0, false),
    ensures
        ({
            let st = tx_parse_pre(ts, offset, i);
            &&& paired_from(ts, i, st.open)
            &&& st.number == offset + fns_before(st.parse, st.parse.len() as int) + (if st.open {
                1int
            } else {
                0int
            })
            &&& forall|k: int|
                0 <= k < st.parse.len() && st.parse[k] is Footnote ==> (#[trigger] st.parse[k])
                    ->Footnote_0.number == offset + fns_before(st.parse, k) + 1
        }),
    decreases i,
{
    if i > 0 {
        lemma_parse_numbers_pre(ts, offset, i - 1);
        let st = tx_parse_pre(ts, offset, i - 1);
        let st2 = tx_parse_step(ts, i - 1, st);
        match ts[i - 1].token_type {
            TokenType::Text => {
                if !st.open {
                    assert(fns_before(st2.parse, st2.parse.len() as int) == fns_before(
                        st.parse,
                        st.parse.len() as int,
                    )) by {
                        assert(st2.parse.len() == st.parse.len() + 1);
                        lemma_fns_before_extend(st.parse, st2.parse);
                    }
                    assert forall|k: int|
                        0 <= k < st2.parse.len() && st2.parse[k] is Footnote implies (
                    #[trigger] st2.parse[k])->Footnote_0.number == offset + fns_before(
                        st2.parse,
                        k,
                    ) + 1 by {
                        lemma_fns_before_prefix(st.parse, st2.parse, k);
                        assert(st2.parse[k] == st.parse[k]);
                    }
                }
            },
            TokenType::CloseFootnote => {
                assert(st2.parse.len() == st.parse.len() + 1);
                assert(st2.parse[st.parse.len() as int] is Footnote);
                assert(st2.parse[st.parse.len() as int]->Footnote_0.number == st.number);
                lemma_fns_before_extend(st.parse, st2.parse);
                assert forall|k: int|
                    0 <= k < st2.parse.len() && st2.parse[k] is Footnote implies (
                #[trigger] st2.parse[k])->Footnote_0.number == offset + fns_before(st2.parse, k)
                    + 1 by {
                    lemma_fns_before_prefix(st.parse, st2.parse, k);
                    if k < st.parse.len() {
                        assert(st2.parse[k] == st.parse[k]);
                    }
                }
            },
            _ => {},
        }
    }
}

/// `fns_before` of a strict prefix agrees between a sequence and the same
/// sequence with one branch appended.
proof fn lemma_fns_before_prefix(p: Seq<BranchModel>, q: Seq<BranchModel>, k: int)
    requires
        0 <= k <= p.len(),
        q.len() == p.len() + 1,
        forall|j: int| 0 <= j < p.len() ==> q[j] == p[j],
    ensures
        fns_before(q, k) == fns_before(p, k),
    decreases k,
{
    if k > 0 {
        lemma_fns_before_prefix(p, q, k - 1);
    }
}

proof fn lemma_fns_before_extend(p: Seq<BranchModel>, q: Seq<BranchModel>)
    requires
        q.len() == p.len() + 1,
        forall|j: int| 0 <= j < p.len() ==> q[j] == p[j],
    ensures
        fns_before(q, q.len() as int) == fns_before(p, p.len() as int) + (if q.last() is Footnote {
            1int
        } else {
            0int
        }),
{
    lemma_fns_before_prefix(p, q, p.len() as int);
}

/// Footnote numbering is monotone and gapless: in a tree parsed from a
/// properly paired token stream, a branch that is a footnote carries number
/// `offset + 1` plus the number of footnotes before it, in document order.
pub proof fn law_footnote_numbering(ts: Seq<TokenModel>, offset: int)
    requires
        paired_from(ts, 0, false),
    ensures
        forall|k: int|
            0 <= k < parse_spec(ts, offset).len() && parse_spec(ts, offset)[k] is Footnote ==> (
            #[trigger] parse_spec(ts, offset)[k])->Footnote_0.number == offset + fns_before(
                parse_spec(ts, offset),
                k,
            ) + 1,
{
    lemma_parse_numbers_pre(ts, offset, ts.len() as int);
}

/// A source's first rendered occurrence is never an `*Id.*` and never the
/// bare short form: with no citation history and the source not yet cited
/// (and, for cases, at its first recorded footnote), the decision is the
/// long form.
pub proof fn law_first_cite_long(c: CitationModel, st: RState, k: int)
    requires
        0 <= k < st.smap.len(),
        st.lc.sources.len() == 0,
        !st.smap[k].cited,
        st.smap[k].source_type is Case ==> st.fnum == st.smap[k].all_footnotes[0],
    ensures
        ({
            let s = st.smap[k];
            cite_body(c, s, k, st).0 == match c.pincite {
                Some(p) => crate::sourcemap::long_w_pin_spec(
                    s.source_type,
                    s.long_cite_w_pin->Some_0.0,
                    s.long_cite_w_pin->Some_0.1,
                    p,
                ),
                None => s.long_cite_no_pin->Some_0,
            }
        }),
{
    let s = st.smap[k];
    assert(!id_eligible(st.lc, s.id));
}

/// After a citation to one source closes a clause, an immediately following
/// citation to the same source is `*Id.*`-eligible; what it renders begins
/// with `*Id.*` (or `*id.*` after a signal or clause punctuation), with an
/// at-clause exactly when its pincite differs from the last one rendered.
pub proof fn law_id_after_same_source(c1: CitationModel, c2: CitationModel, st: RState, k: int)
    requires
        st.lc.closed,
        smap_find(st.smap, c1.reference) == Some(k),
        c2.reference == c1.reference,
    ensures
        ({
            let st1 = render_cite_spec(c1, st).1;
            let s1 = st.smap[k];
            let k2 = smap_find(st1.smap, c2.reference)->Some_0;
            &&& id_eligible(st1.lc, s1.id)
            &&& smap_find(st1.smap, c2.reference) is Some
            &&& cite_body(c2, st1.smap[k2], k2, st1).0 == ({
                let base: Seq<char> = if crate::render::capitalize_of(c2) {
                    "*Id.*"@
                } else {
                    "*id.*"@
                };
                if c2.pincite is Some && c2.pincite->Some_0 != st1.lc.last_pin {
                    base + " at "@ + c2.pincite->Some_0
                } else {
                    base
                }
            })
        }),
{
    crate::sourcemap::lemma_smap_find(st.smap, c1.reference);
    let s1 = st.smap[k];
    let st1 = render_cite_spec(c1, st).1;
    assert(st1.lc.sources =~= seq![s1.id]);
    let b = cite_body(c1, s1, k, st);
    assert forall|j: int| 0 <= j < st1.smap.len() implies #[trigger] st1.smap[j].reference
        == st.smap[j].reference by {}
    assert(st1.smap.len() == st.smap.len());
    lemma_smap_find_same_refs(st.smap, st1.smap, c2.reference);
    crate::sourcemap::lemma_smap_find(st1.smap, c2.reference);
    let k2 = smap_find(st1.smap, c2.reference)->Some_0;
    assert(k2 == k);
    assert(st1.smap[k2].id == s1.id);
}

proof fn lemma_smap_find_same_refs(a: Seq<SourceModel>, b: Seq<SourceModel>, key: Seq<char>)
    requires
        a.len() == b.len(),
        forall|j: int| 0 <= j < a.len() ==> #[trigger] a[j].reference == b[j].reference,
    ensures
        smap_find(a, key) == smap_find(b, key),
    decreases a.len(),
{
    if a.len() > 0 {
        assert(a[0].reference == b[0].reference);
        assert forall|j: int| 0 <= j < a.drop_first().len() implies #[trigger] a.drop_first()[j].reference
            == b.drop_first()[j].reference by {
            assert(a.drop_first()[j] == a[j + 1]);
            assert(b.drop_first()[j] == b[j + 1]);
        }
        lemma_smap_find_same_refs(a.drop_first(), b.drop_first(), key);
    }
}

/// After a clause closes on one source and a different source is then cited
/// and closes its own clause, a citation to the first source is not
/// `*Id.*`-eligible: the intervening citation broke the chain.
pub proof fn law_no_id_after_intervening(
    c1: CitationModel,
    c2: CitationModel,
    st: RState,
    k1: int,
    k2: int,
)
    requires
        st.lc.closed,
        smap_find(st.smap, c1.reference) == Some(k1),
        ({
            let st1 = render_cite_spec(c1, st).1;
            smap_find(st1.smap, c2.reference) == Some(k2)
        }),
        st.smap[k1].id != render_cite_spec(c1, st).1.smap[k2].id,
        c2.punctuation == "."@,
    ensures
        ({
            let st2 = render_cite_spec(c2, render_cite_spec(c1, st).1).1;
            !id_eligible(st2.lc, st.smap[k1].id)
        }),
{
    crate::sourcemap::lemma_smap_find(st.smap, c1.reference);
    let st1 = render_cite_spec(c1, st).1;
    crate::sourcemap::lemma_smap_find(st1.smap, c2.reference);
    let s1 = st.smap[k1];
    let s2 = st1.smap[k2];
    assert(st1.lc.sources =~= seq![s1.id]);
    let st2 = render_cite_spec(c2, st1).1;
    if st1.lc.closed {
        assert(st2.lc.sources =~= seq![s2.id]);
    } else {
        if !st1.lc.sources.contains(s2.id) {
            assert(st2.lc.sources =~= seq![s1.id, s2.id]);
        } else {
            assert(st1.lc.sources[0] == s2.id);
            assert(false);
        }
    }
    assert(st2.lc.closed);
}

/// An `*Id.*` whose pincite matches the last one rendered stands alone:
/// nothing follows it, and a bare sentence-ending period is absorbed by the
/// period `*Id.*` already carries.
pub proof fn law_id_same_pin_bare(c: CitationModel, st: RState, k: int)
    requires
        0 <= k < st.smap.len(),
        smap_find(st.smap, c.reference) == Some(k),
        id_eligible(st.lc, st.smap[k].id),
        c.pincite == Some(st.lc.last_pin),
        c.parenthetical is None,
        c.punctuation == "."@,
    ensures
        render_cite_spec(c, st).0 == crate::render::precite_out(c) + (if crate::render::capitalize_of(c) {
            "*Id.*"@
        } else {
            "*id.*"@
        }),
{
    crate::sourcemap::lemma_smap_find(st.smap, c.reference);
    let s = st.smap[k];
    let b = cite_body(c, s, k, st);
    assert(b.1 == false);
    assert(render_cite_spec(c, st).0 =~= crate::render::precite_out(c) + b.0);
    assert(b.0 + Seq::<char>::empty() =~= b.0);
}

/// A cite-break unconditionally resets the citation history: afterwards no
/// source is `*Id.*`-eligible.
pub proof fn law_cite_break_resets(cm: Seq<(Seq<char>, int)>, st: RState, id: Seq<char>)
    ensures
        !id_eligible(render_branch_spec(BranchModel::CiteBreak, cm, st).1.lc, id),
        render_branch_spec(BranchModel::CiteBreak, cm, st).0 == Seq::<char>::empty(),
{
}

/// Hereinafter flags mark exactly the sources whose unformatted short author
/// also identifies another cited source: starting from a map with no flags
/// set, a source comes out flagged if and only if some other source shares
/// its short author.
pub proof fn law_hereinafter_uniqueness(ms: Seq<SourceModel>, k: int)
    requires
        0 <= k < ms.len(),
        forall|j: int| 0 <= j < ms.len() ==> !(#[trigger] ms[j]).hereinafter,
    ensures
        herein_pass(ms)[k].hereinafter <==> needs_hereinafter(ms, k),
        herein_pass(ms)[k].hereinafter <==> exists|j: int|
            0 <= j < ms.len() && j != k && crate::sourcemap::unformatted(
                crate::sourcemap::sa_of(ms[j]),
            ) == crate::sourcemap::unformatted(crate::sourcemap::sa_of(ms[k])),
{
    assert(herein_pass(ms)[k] == with_hereinafter(
        ms[k],
        ms[k].hereinafter || needs_hereinafter(ms, k),
    ));
}

/// A hereinafter-flagged source's short cite carries its short title after
/// the short author; an unflagged one goes straight to the supra reference.
pub proof fn law_hereinafter_short_form(
    csl: CslModel,
    st: crate::sourcemap::SourceType,
    n: int,
)
    requires
        !(st is Case),
        csl.author is Some,
    ensures
        crate::buildsource::short_base_spec(csl, st, n, true)
            == crate::citetools::short_author_styled(csl, st) + ", "@
            + crate::citetools::short_title_spec(csl, st) + ", *supra* note "@
            + crate::text::int_str(n),
        crate::buildsource::short_base_spec(csl, st, n, false)
            == crate::citetools::short_author_styled(csl, st) + ", *supra* note "@
            + crate::text::int_str(n),
{
    assert(crate::buildsource::short_base_spec(csl, st, n, true)
        =~= crate::citetools::short_author_styled(csl, st) + ", "@
        + crate::citetools::short_title_spec(csl, st) + ", *supra* note "@
        + crate::text::int_str(n));
    assert(crate::buildsource::short_base_spec(csl, st, n, false)
        =~= crate::citetools::short_author_styled(csl, st) + ", *supra* note "@
        + crate::text::int_str(n));
}

/// A footnote id maps to that footnote's final number: if the `i`-th branch
/// is a footnote carrying id `ident`, and no later footnote re-uses the id,
/// the cross-reference map resolves `ident` to its number.
pub proof fn law_crossref_resolves(tree: Seq<BranchModel>, i: int, ident: Seq<char>)
    requires
        0 <= i < tree.len(),
        tree[i] is Footnote,
        tree[i]->Footnote_0.id == Some(ident),
        forall|j: int|
            i < j < tree.len() && (#[trigger] tree[j]) is Footnote ==> tree[j]->Footnote_0.id
                != Some(ident),
    ensures
        crossref_lookup(crossref_map_spec(tree), ident) == Some(tree[i]->Footnote_0.number),
{
    lemma_crossref_after(tree, i, ident, tree.len() as int);
}

proof fn lemma_crossref_after(tree: Seq<BranchModel>, i: int, ident: Seq<char>, m: int)
    requires
        0 <= i < m <= tree.len(),
        tree[i] is Footnote,
        tree[i]->Footnote_0.id == Some(ident),
        forall|j: int|
            i < j < tree.len() && (#[trigger] tree[j]) is Footnote ==> tree[j]->Footnote_0.id
                != Some(ident),
    ensures
        crossref_lookup(crossref_pre(tree, m), ident) == Some(tree[i]->Footnote_0.number),
    decreases m,
{
    if m == i + 1 {
        let p = crossref_pre(tree, i);
        assert(crossref_pre(tree, m) == p + seq![(ident, tree[i]->Footnote_0.number)]);
        assert(crossref_pre(tree, m).last() == (ident, tree[i]->Footnote_0.number));
    } else {
        lemma_crossref_after(tree, i, ident, m - 1);
        let p = crossref_pre(tree, m - 1);
        match tree[m - 1] {
            BranchModel::Footnote(f) => {
                match f.id {
                    Some(id2) => {
                        assert(id2 != ident);
                        assert(crossref_pre(tree, m) == p + seq![(id2, f.number)]);
                        assert(crossref_pre(tree, m).last() == (id2, f.number));
                        assert(crossref_pre(tree, m).drop_last() =~= p);
                    },
                    None => {},
                }
            },
            _ => {},
        }
    }
}

/// A tree in whose footnotes an id never occurs yields no entry for it.
proof fn lemma_crossref_no_id(tree: Seq<BranchModel>, ident: Seq<char>, m: int)
    requires
        0 <= m <= tree.len(),
        forall|j: int|
            0 <= j < m && (#[trigger] tree[j]) is Footnote ==> tree[j]->Footnote_0.id != Some(
                ident,
            ),
    ensures
        crossref_lookup(crossref_pre(tree, m), ident) is None,
    decreases m,
{
    if m > 0 {
        lemma_crossref_no_id(tree, ident, m - 1);
        let p = crossref_pre(tree, m - 1);
        match tree[m - 1] {
            BranchModel::Footnote(f) => {
                match f.id {
                    Some(id2) => {
                        assert(crossref_pre(tree, m) == p + seq![(id2, f.number)]);
                        assert(crossref_pre(tree, m).last() == (id2, f.number));
                        assert(crossref_pre(tree, m).drop_last() =~= p);
                    },
                    None => {},
                }
            },
            _ => {},
        }
    }
}

/// An id with no matching footnote resolves to nothing, and its marker stays
/// in the output as written.
pub proof fn law_crossref_unresolved(
    tree: Seq<BranchModel>,
    ident: Seq<char>,
    cm: Seq<(Seq<char>, int)>,
    st: RState,
)
    requires
        forall|j: int|
            0 <= j < tree.len() && (#[trigger] tree[j]) is Footnote ==> tree[j]->Footnote_0.id
                != Some(ident),
        cm == crossref_map_spec(tree),
    ensures
        crossref_lookup(cm, ident) is None,
        render_branch_spec(BranchModel::CrossRef(ident), cm, st).0 == ident,
{
    lemma_crossref_no_id(tree, ident, tree.len() as int);
}

proof fn lemma_discover_cite_unflagged(
    st: Seq<SourceModel>,
    lib: Seq<CslModel>,
    cm: crate::parser::CitationModel,
    fnum: int,
)
    requires
        forall|k: int| 0 <= k < st.len() ==> !(#[trigger] st[k]).hereinafter,
    ensures
        forall|k: int|
            0 <= k < discover_cite(st, lib, cm, fnum).len() ==> !(#[trigger] discover_cite(
                st,
                lib,
                cm,
                fnum,
            )[k]).hereinafter,
{
    crate::sourcemap::lemma_smap_find(st, cm.reference);
}

proof fn lemma_discover_fn_unflagged(
    st: Seq<SourceModel>,
    lib: Seq<CslModel>,
    contents: Seq<crate::parser::BranchModel>,
    j: int,
    fnum: int,
)
    requires
        forall|k: int| 0 <= k < st.len() ==> !(#[trigger] st[k]).hereinafter,
    ensures
        forall|k: int|
            0 <= k < discover_fn(st, lib, contents, j, fnum).len() ==> !(#[trigger] discover_fn(
                st,
                lib,
                contents,
                j,
                fnum,
            )[k]).hereinafter,
    decreases contents.len() - j,
{
    if 0 <= j < contents.len() {
        match contents[j] {
            BranchModel::Citation(cm) => {
                lemma_discover_cite_unflagged(st, lib, cm, fnum);
                lemma_discover_fn_unflagged(
                    discover_cite(st, lib, cm, fnum),
                    lib,
                    contents,
                    j + 1,
                    fnum,
                );
            },
            _ => {
                lemma_discover_fn_unflagged(st, lib, contents, j + 1, fnum);
            },
        }
    }
}

proof fn lemma_discover_tree_unflagged(
    st: Seq<SourceModel>,
    lib: Seq<CslModel>,
    tree: Seq<BranchModel>,
    i: int,
)
    requires
        forall|k: int| 0 <= k < st.len() ==> !(#[trigger] st[k]).hereinafter,
    ensures
        forall|k: int|
            0 <= k < discover_tree(st, lib, tree, i).len() ==> !(#[trigger] discover_tree(
                st,
                lib,
                tree,
                i,
            )[k]).hereinafter,
    decreases tree.len() - i,
{
    if 0 <= i < tree.len() {
        match tree[i] {
            BranchModel::Footnote(f) => {
                lemma_discover_fn_unflagged(st, lib, f.contents, 0, f.number);
                lemma_discover_tree_unflagged(
                    discover_fn(st, lib, f.contents, 0, f.number),
                    lib,
                    tree,
                    i + 1,
                );
            },
            _ => {
                lemma_discover_tree_unflagged(st, lib, tree, i + 1);
            },
        }
    }
}

/// Discovery raises no hereinafter flags: every source leaves the first pass
/// unflagged, so the flags in the finished map come from the hereinafter
/// pass alone.
pub proof fn law_discovery_unflagged(tree: Seq<BranchModel>, lib: Seq<CslModel>)
    ensures
        forall|k: int|
            0 <= k < start_map_spec(tree, lib).len() ==> !(#[trigger] start_map_spec(
                tree,
                lib,
            )[k]).hereinafter,
{
    lemma_discover_tree_unflagged(Seq::empty(), lib, tree, 0);
}

/// In the finished source map, a source carries the hereinafter flag exactly
/// when another discovered source shares its unformatted short author; and
/// for an authored non-case source the short cite then carries the short
/// title, while a unique short author's short cite never does.
pub proof fn law_hereinafter_in_source_map(
    tree: Seq<BranchModel>,
    lib: Seq<CslModel>,
    ujm: Seq<(Seq<char>, Seq<char>)>,
    k: int,
)
    requires
        0 <= k < source_map_spec(tree, lib, ujm).len(),
    ensures
        ({
            let ms0 = start_map_spec(tree, lib);
            let fm = source_map_spec(tree, lib, ujm);
            &&& fm[k].hereinafter <==> needs_hereinafter(ms0, k)
            &&& (!(fm[k].source_type is Case) && lib[fm[k].csl_index].author is Some)
                ==> fm[k].short_cite_w_pin == Some(
                crate::citetools::short_author_styled(lib[fm[k].csl_index], fm[k].source_type) + (
                if fm[k].hereinafter {
                    ", "@ + crate::citetools::short_title_spec(
                        lib[fm[k].csl_index],
                        fm[k].source_type,
                    )
                } else {
                    Seq::empty()
                }) + ", *supra* note "@ + crate::text::int_str(fm[k].all_footnotes[0]),
            )
        }),
{
    let ms0 = start_map_spec(tree, lib);
    let hm = herein_pass(ms0);
    let lp = longs_pass(hm, lib, ujm);
    let fm = source_map_spec(tree, lib, ujm);
    law_discovery_unflagged(tree, lib);
    assert(fm[k] == with_shorts(lp[k], lib));
    assert(lp[k] == with_longs(hm[k], lib, ujm));
    assert(hm[k] == with_hereinafter(ms0[k], ms0[k].hereinafter || needs_hereinafter(ms0, k)));
    assert(!ms0[k].hereinafter);
    if !(fm[k].source_type is Case) && lib[fm[k].csl_index].author is Some {
        law_hereinafter_short_form(
            lib[fm[k].csl_index],
            fm[k].source_type,
            fm[k].all_footnotes[0],
        );
        if fm[k].hereinafter {
            assert(crate::buildsource::short_base_spec(
                lib[fm[k].csl_index],
                fm[k].source_type,
                fm[k].all_footnotes[0],
                true,
            ) =~= crate::citetools::short_author_styled(lib[fm[k].csl_index], fm[k].source_type)
                + (", "@ + crate::citetools::short_title_spec(
                lib[fm[k].csl_index],
                fm[k].source_type,
            )) + ", *supra* note "@ + crate::text::int_str(fm[k].all_footnotes[0]));
        } else {
            assert(crate::buildsource::short_base_spec(
                lib[fm[k].csl_index],
                fm[k].source_type,
                fm[k].all_footnotes[0],
                false,
            ) =~= crate::citetools::short_author_styled(lib[fm[k].csl_index], fm[k].source_type)
                + Seq::<char>::empty() + ", *supra* note "@ + crate::text::int_str(
                fm[k].all_footnotes[0],
            ));
        }
    }
}

/// The cross-reference round trip at the renderer: a `[?id]` marker whose id
/// some footnote declares (and no later footnote re-uses) renders as that
/// footnote's number, whatever the rendering state.
pub proof fn law_crossref_in_render(
    tree: Seq<BranchModel>,
    i: int,
    ident: Seq<char>,
    st: RState,
)
    requires
        0 <= i < tree.len(),
        tree[i] is Footnote,
        tree[i]->Footnote_0.id == Some(ident),
        forall|j: int|
            i < j < tree.len() && (#[trigger] tree[j]) is Footnote ==> tree[j]->Footnote_0.id
                != Some(ident),
    ensures
        render_branch_spec(BranchModel::CrossRef(ident), crossref_map_spec(tree), st).0
            == crate::text::int_str(tree[i]->Footnote_0.number),
        render_branch_spec(BranchModel::CrossRef(ident), crossref_map_spec(tree), st).1 == st,
{
    law_crossref_resolves(tree, i, ident);
}

/// Whether a branch holds no citation and no cite-break: plain text,
/// cross-references, and footnotes of such branches.
pub open spec fn citation_free(b: BranchModel) -> bool
    decreases crate::render::bm_size(b), 0int,
    via citation_free_dec
{
    match b {
        BranchModel::Text(_) => true,
        BranchModel::CrossRef(_) => true,
        BranchModel::CiteBreak => false,
        BranchModel::Citation(_) => false,
        BranchModel::Footnote(f) => citation_free_seq(f.contents, 0),
    }
}

/// Whether the branches from index `j` on are all citation-free.
pub open spec fn citation_free_seq(bs: Seq<BranchModel>, j: int) -> bool
    decreases crate::render::bms_size(bs, j), 1int,
    via citation_free_seq_dec
{
    if !(0 <= j < bs.len()) {
        true
    } else {
        citation_free(bs[j]) && citation_free_seq(bs, j + 1)
    }
}

#[via_fn]
proof fn citation_free_dec(b: BranchModel) {
    match b {
        BranchModel::Footnote(f) => {
            crate::render::lemma_bms_size_nonneg(f.contents, 0);
            assert(crate::render::bm_size(b) == 1 + crate::render::bms_size(f.contents, 0));
        },
        _ => {},
    }
}

#[via_fn]
proof fn citation_free_seq_dec(bs: Seq<BranchModel>, j: int) {
    if 0 <= j < bs.len() {
        crate::render::lemma_bms_size_elem(bs, j, j);
        crate::render::lemma_bm_size_pos(bs[j]);
        crate::render::lemma_bms_size_nonneg(bs, j + 1);
    }
}

/// Rendering citation-free material neither touches the source map nor the
/// citation history: text, cross-references, and footnotes of such branches
/// may stand between two citations without breaking an `*Id.*` chain.
pub proof fn law_neutral_keeps_history(b: BranchModel, cm: Seq<(Seq<char>, int)>, st: RState)
    requires
        citation_free(b),
    ensures
        render_branch_spec(b, cm, st).1.smap == st.smap,
        render_branch_spec(b, cm, st).1.lc == st.lc,
    decreases crate::render::bm_size(b), 0int,
{
    match b {
        BranchModel::Footnote(f) => {
            crate::render::lemma_bms_size_nonneg(f.contents, 0);
            assert(crate::render::bm_size(b) == 1 + crate::render::bms_size(f.contents, 0));
            lemma_neutral_seq(f.contents, 0, cm, RState { fnum: st.fnum + 1, ..st });
        },
        _ => {},
    }
}

proof fn lemma_neutral_seq(
    bs: Seq<BranchModel>,
    j: int,
    cm: Seq<(Seq<char>, int)>,
    st: RState,
)
    requires
        citation_free_seq(bs, j),
    ensures
        render_seq_spec(bs, j, cm, st).1.smap == st.smap,
        render_seq_spec(bs, j, cm, st).1.lc == st.lc,
    decreases crate::render::bms_size(bs, j), 1int,
{
    if 0 <= j < bs.len() {
        crate::render::lemma_bms_size_elem(bs, j, j);
        crate::render::lemma_bm_size_pos(bs[j]);
        crate::render::lemma_bms_size_nonneg(bs, j + 1);
        law_neutral_keeps_history(bs[j], cm, st);
        lemma_neutral_seq(bs, j + 1, cm, render_branch_spec(bs[j], cm, st).1);
    }
}

/// The `*Id.*` chain survives citation-free material: after a citation
/// closes a clause, any run of citation-free branches, and then a citation
/// to the same source, that citation is still `*Id.*`-eligible.
pub proof fn law_id_across_neutral_material(
    c1: CitationModel,
    c2: CitationModel,
    bs: Seq<BranchModel>,
    cm: Seq<(Seq<char>, int)>,
    st: RState,
    k: int,
)
    requires
        st.lc.closed,
        smap_find(st.smap, c1.reference) == Some(k),
        c2.reference == c1.reference,
        citation_free_seq(bs, 0),
    ensures
        ({
            let st1 = render_cite_spec(c1, st).1;
            let st2 = render_seq_spec(bs, 0, cm, st1).1;
            &&& id_eligible(st2.lc, st.smap[k].id)
            &&& smap_find(st2.smap, c2.reference) is Some
        }),
{
    law_id_after_same_source(c1, c2, st, k);
    let st1 = render_cite_spec(c1, st).1;
    lemma_neutral_seq(bs, 0, cm, st1);
}

/// Whether no citation in a branch carries the given reference token.
pub open spec fn avoids_ref(b: BranchModel, refkey: Seq<char>) -> bool
    decreases crate::render::bm_size(b), 0int,
    via avoids_ref_dec
{
    match b {
        BranchModel::Citation(c) => c.reference != refkey,
        BranchModel::Footnote(f) => avoids_ref_seq(f.contents, 0, refkey),
        _ => true,
    }
}

/// Whether the branches from index `j` on avoid the reference.
pub open spec fn avoids_ref_seq(bs: Seq<BranchModel>, j: int, refkey: Seq<char>) -> bool
    decreases crate::render::bms_size(bs, j), 1int,
    via avoids_ref_seq_dec
{
    if !(0 <= j < bs.len()) {
        true
    } else {
        avoids_ref(bs[j], refkey) && avoids_ref_seq(bs, j + 1, refkey)
    }
}

#[via_fn]
proof fn avoids_ref_dec(b: BranchModel, refkey: Seq<char>) {
    match b {
        BranchModel::Footnote(f) => {
            crate::render::lemma_bms_size_nonneg(f.contents, 0);
            assert(crate::render::bm_size(b) == 1 + crate::render::bms_size(f.contents, 0));
        },
        _ => {},
    }
}

#[via_fn]
proof fn avoids_ref_seq_dec(bs: Seq<BranchModel>, j: int, refkey: Seq<char>) {
    if 0 <= j < bs.len() {
        crate::render::lemma_bms_size_elem(bs, j, j);
        crate::render::lemma_bm_size_pos(bs[j]);
        crate::render::lemma_bms_size_nonneg(bs, j + 1);
    }
}

/// Source `k` is still fresh in state `st`: not yet rendered, and not in the
/// open clause's history.
pub open spec fn fresh_source(st: RState, k: int) -> bool {
    &&& 0 <= k < st.smap.len()
    &&& !st.smap[k].cited
    &&& !st.lc.sources.contains(st.smap[k].id)
}

/// The map's entries carry pairwise distinct ids, as they do when every
/// reference is a well-formed `[@key]` token: the key between the brackets
/// then determines the reference, so distinct entries have distinct keys.
pub open spec fn distinct_ids(ms: Seq<SourceModel>) -> bool {
    forall|k1: int, k2: int|
        0 <= k1 < ms.len() && 0 <= k2 < ms.len() && #[trigger] ms[k1].id == #[trigger] ms[k2].id
            ==> k1 == k2
}

proof fn lemma_cite_keeps_fresh(c: CitationModel, st: RState, k: int)
    requires
        fresh_source(st, k),
        distinct_ids(st.smap),
        c.reference != st.smap[k].reference,
    ensures
        ({
            let st1 = render_cite_spec(c, st).1;
            &&& fresh_source(st1, k)
            &&& st1.smap[k] == st.smap[k]
            &&& st1.smap.len() == st.smap.len()
            &&& distinct_ids(st1.smap)
            &&& forall|j: int| 0 <= j < st1.smap.len() ==> (#[trigger] st1.smap[j]).reference
                == st.smap[j].reference && st1.smap[j].id == st.smap[j].id
        }),
{
    crate::sourcemap::lemma_smap_find(st.smap, c.reference);
    match smap_find(st.smap, c.reference) {
        None => {
            assert(render_cite_spec(c, st).1.lc.sources =~= Seq::<Seq<char>>::empty());
        },
        Some(k2) => {
            assert(st.smap[k2].reference == c.reference);
            assert(k2 != k);
            let s2 = st.smap[k2];
            let st1 = render_cite_spec(c, st).1;
            assert(s2.id != st.smap[k].id);
            if st.lc.closed {
                assert(st1.lc.sources =~= seq![s2.id]);
            } else if !st.lc.sources.contains(s2.id) {
                assert forall|x: Seq<char>| st1.lc.sources.contains(x) implies st.lc.sources.contains(
                    x,
                ) || x == s2.id by {
                    let ix = choose|ix: int|
                        0 <= ix < st1.lc.sources.len() && st1.lc.sources[ix] == x;
                    if ix < st.lc.sources.len() {
                        assert(st.lc.sources[ix] == x);
                    }
                }
            }
            assert forall|j: int| 0 <= j < st1.smap.len() implies (#[trigger] st1.smap[j]).reference
                == st.smap[j].reference && st1.smap[j].id == st.smap[j].id by {}
        },
    }
}

/// Rendering any material whose citations all avoid source `k`'s reference
/// leaves `k` fresh: its `cited` flag stays down and its id stays out of the
/// clause history.
pub proof fn law_fresh_preserved(b: BranchModel, cm: Seq<(Seq<char>, int)>, st: RState, k: int)
    requires
        fresh_source(st, k),
        distinct_ids(st.smap),
        avoids_ref(b, st.smap[k].reference),
    ensures
        ({
            let st1 = render_branch_spec(b, cm, st).1;
            &&& fresh_source(st1, k)
            &&& st1.smap[k] == st.smap[k]
            &&& st1.smap.len() == st.smap.len()
            &&& distinct_ids(st1.smap)
            &&& forall|j: int| 0 <= j < st1.smap.len() ==> (#[trigger] st1.smap[j]).reference
                == st.smap[j].reference && st1.smap[j].id == st.smap[j].id
        }),
    decreases crate::render::bm_size(b), 0int,
{
    match b {
        BranchModel::Citation(c) => {
            lemma_cite_keeps_fresh(c, st, k);
        },
        BranchModel::Footnote(f) => {
            crate::render::lemma_bms_size_nonneg(f.contents, 0);
            assert(crate::render::bm_size(b) == 1 + crate::render::bms_size(f.contents, 0));
            lemma_fresh_preserved_seq(f.contents, 0, cm, RState { fnum: st.fnum + 1, ..st }, k);
        },
        BranchModel::CiteBreak => {
            assert(render_branch_spec(b, cm, st).1.lc.sources =~= Seq::<Seq<char>>::empty());
        },
        _ => {},
    }
}

proof fn lemma_fresh_preserved_seq(
    bs: Seq<BranchModel>,
    j: int,
    cm: Seq<(Seq<char>, int)>,
    st: RState,
    k: int,
)
    requires
        fresh_source(st, k),
        distinct_ids(st.smap),
        avoids_ref_seq(bs, j, st.smap[k].reference),
    ensures
        ({
            let st1 = render_seq_spec(bs, j, cm, st).1;
            &&& fresh_source(st1, k)
            &&& st1.smap[k] == st.smap[k]
            &&& st1.smap.len() == st.smap.len()
            &&& distinct_ids(st1.smap)
            &&& forall|j2: int| 0 <= j2 < st1.smap.len() ==> (#[trigger] st1.smap[j2]).reference
                == st.smap[j2].reference && st1.smap[j2].id == st.smap[j2].id
        }),
    decreases crate::render::bms_size(bs, j), 1int,
{
    if 0 <= j < bs.len() {
        crate::render::lemma_bms_size_elem(bs, j, j);
        crate::render::lemma_bm_size_pos(bs[j]);
        crate::render::lemma_bms_size_nonneg(bs, j + 1);
        law_fresh_preserved(bs[j], cm, st, k);
        let st1 = render_branch_spec(bs[j], cm, st).1;
        assert(avoids_ref_seq(bs, j + 1, st1.smap[k].reference));
        lemma_fresh_preserved_seq(bs, j + 1, cm, st1, k);
    }
}

/// First-citation-is-long-form, in document order: when every branch before
/// a citation avoids its reference, a non-case source arrives fresh at that
/// citation, which renders its long form, never an `*Id.*` and never the
/// short form.
pub proof fn law_first_cite_long_in_document(
    bs: Seq<BranchModel>,
    c: CitationModel,
    cm: Seq<(Seq<char>, int)>,
    st: RState,
    k: int,
)
    requires
        fresh_source(st, k),
        distinct_ids(st.smap),
        avoids_ref_seq(bs, 0, st.smap[k].reference),
        smap_find(st.smap, c.reference) == Some(k),
        !(st.smap[k].source_type is Case),
    ensures
        ({
            let st1 = render_seq_spec(bs, 0, cm, st).1;
            let k2 = smap_find(st1.smap, c.reference)->Some_0;
            &&& smap_find(st1.smap, c.reference) == Some(k)
            &&& cite_body(c, st1.smap[k2], k2, st1).0 == (match c.pincite {
                Some(p) => crate::sourcemap::long_w_pin_spec(
                    st1.smap[k].source_type,
                    st1.smap[k].long_cite_w_pin->Some_0.0,
                    st1.smap[k].long_cite_w_pin->Some_0.1,
                    p,
                ),
                None => st1.smap[k].long_cite_no_pin->Some_0,
            })
        }),
{
    lemma_fresh_preserved_seq(bs, 0, cm, st, k);
    let st1 = render_seq_spec(bs, 0, cm, st).1;
    lemma_smap_find_same_refs(st.smap, st1.smap, c.reference);
    crate::sourcemap::lemma_smap_find(st1.smap, c.reference);
    assert(!id_eligible(st1.lc, st1.smap[k].id)) by {
        if st1.lc.sources.len() > 0 {
            if id_eligible(st1.lc, st1.smap[k].id) {
                if st1.lc.closed {
                    assert(st1.lc.sources.contains(st1.smap[k].id)) by {
                        assert(st1.lc.sources[0] == st1.smap[k].id);
                    }
                } else {
                    assert(st1.lc.sources.contains(st1.smap[k].id)) by {
                        assert(st1.lc.sources[st1.lc.sources.len() - 1] == st1.smap[k].id);
                    }
                }
            }
        }
    }
}

} // verus!
