//! The parser.  It converts a stream of tokens into the syntax tree of
//! branches: text runs, footnotes (with nested branches), citations,
//! cross-references, and cite-breaks.

use crate::lexer::{toks, Token, TokenModel, TokenType};
use crate::text::{chars_of, find_from, find_sub, string_of, trim, trim_spec};
use vstd::prelude::*;

verus! {

broadcast use vstd::std_specs::vec::group_vec_axioms, vstd::seq::group_seq_axioms;

/// The mathematical model of a branch.
pub enum BranchModel {
    Text(Seq<char>),
    Footnote(FootnoteModel),
    Citation(CitationModel),
    CrossRef(Seq<char>),
    CiteBreak,
}

/// The model of a footnote: its number, optional id, and nested branches.
pub struct FootnoteModel {
    pub number: int,
    pub id: Option<Seq<char>>,
    pub contents: Seq<BranchModel>,
}

/// The model of a citation.
pub struct CitationModel {
    pub pre_cite: Option<PreCiteModel>,
    pub reference: Seq<char>,
    pub pincite: Option<Seq<char>>,
    pub parenthetical: Option<Seq<char>>,
    pub punctuation: Seq<char>,
}

/// The model of the material before a citation.
pub enum PreCiteModel {
    Punctuation(Seq<char>),
    Signal(Seq<char>),
}

/// The types of branches on the syntax tree.
#[derive(Debug)]
pub enum Branch {
    Text(Text),
    Footnote(Footnote),
    Citation(Citation),
    CrossRef(CrossRef),
    CiteBreak,
}

/// Contents of a text branch.
#[derive(Debug)]
pub struct Text {
    pub contents: String,
}

/// Contents of a footnote branch.
#[derive(Debug)]
pub struct Footnote {
    pub number: i32,
    pub id: Option<String>,
    pub contents: Vec<Branch>,
}

/// Contents of a citation branch.
#[derive(Debug)]
pub struct Citation {
    pub pre_cite: Option<PreCite>,
    pub reference: String,
    pub pincite: Option<String>,
    pub parenthetical: Option<String>,
    pub punctuation: String,
}

/// The pre-cite data.
#[derive(Debug)]
pub enum PreCite {
    Punctuation(Punctuation),
    Signal(Signal),
}

/// The pre-cite punctuation.
#[derive(Debug)]
pub struct Punctuation {
    pub contents: String,
}

/// The pre-cite signal.
#[derive(Debug)]
pub struct Signal {
    pub contents: String,
}

/// Contents of a crossref branch.
#[derive(Debug)]
pub struct CrossRef {
    pub contents: String,
}

/// A cite breaker.
#[derive(Debug)]
pub struct CiteBraker;

/// The model of an optional string.
pub open spec fn opt_view(o: Option<String>) -> Option<Seq<char>> {
    match o {
        Some(s) => Some(s@),
        None => None,
    }
}

impl View for PreCite {
    type V = PreCiteModel;

    open spec fn view(&self) -> PreCiteModel {
        match self {
            PreCite::Punctuation(p) => PreCiteModel::Punctuation(p.contents@),
            PreCite::Signal(s) => PreCiteModel::Signal(s.contents@),
        }
    }
}

impl View for Citation {
    type V = CitationModel;

    open spec fn view(&self) -> CitationModel {
        CitationModel {
            pre_cite: match self.pre_cite {
                Some(p) => Some(p@),
                None => None,
            },
            reference: self.reference@,
            pincite: opt_view(self.pincite),
            parenthetical: opt_view(self.parenthetical),
            punctuation: self.punctuation@,
        }
    }
}

/// The model of a branch, footnote contents modelled recursively.
pub open spec fn branch_model(b: Branch) -> BranchModel
    decreases b,
{
    match b {
        Branch::Text(t) => BranchModel::Text(t.contents@),
        Branch::Footnote(f) => BranchModel::Footnote(
            FootnoteModel {
                number: f.number as int,
                id: opt_view(f.id),
                contents: branches_model(f.contents@),
            },
        ),
        Branch::Citation(c) => BranchModel::Citation(c@),
        Branch::CrossRef(c) => BranchModel::CrossRef(c.contents@),
        Branch::CiteBreak => BranchModel::CiteBreak,
    }
}

/// The models of a sequence of branches, element by element.
pub open spec fn branches_model(s: Seq<Branch>) -> Seq<BranchModel>
    decreases s,
{
    if s.len() == 0 {
        Seq::empty()
    } else {
        seq![branch_model(s[0])] + branches_model(s.drop_first())
    }
}

/// `branches_model` maps each branch to its model.
pub proof fn lemma_branches_model(s: Seq<Branch>)
    ensures
        branches_model(s).len() == s.len(),
        forall|k: int| 0 <= k < s.len() ==> branches_model(s)[k] == branch_model(s[k]),
    decreases s.len(),
{
    if s.len() > 0 {
        lemma_branches_model(s.drop_first());
        assert forall|k: int| 0 <= k < s.len() implies branches_model(s)[k] == branch_model(
            s[k],
        ) by {
            if k > 0 {
                assert(s.drop_first()[k - 1] == s[k]);
            }
        }
    }
}

/// Appending a branch extends the modelled sequence by its model.
pub proof fn lemma_branches_model_push(s: Seq<Branch>, b: Branch)
    ensures
        branches_model(s.push(b)) == branches_model(s) + seq![branch_model(b)],
    decreases s.len(),
{
    lemma_branches_model(s.push(b));
    lemma_branches_model(s);
    assert forall|k: int| 0 <= k < s.len() + 1 implies branches_model(s.push(b))[k] == (
    branches_model(s) + seq![branch_model(b)])[k] by {
        if k < s.len() {
            assert(s.push(b)[k] == s[k]);
        } else {
            assert(s.push(b)[k] == b);
        }
    }
    assert(branches_model(s.push(b)) =~= branches_model(s) + seq![branch_model(b)]);
}

impl View for Branch {
    type V = BranchModel;

    open spec fn view(&self) -> BranchModel {
        branch_model(*self)
    }
}

/// The pincite a raw pincite token denotes: an all-whitespace pincite is
/// absent, and everything after the first `at` (or the whole text, trimmed,
/// when there is none) is the pincite.
pub open spec fn pin_spec(s: Seq<char>) -> Option<Seq<char>> {
    if trim_spec(s).len() == 0 {
        None
    } else if find_from(s, "at"@, 0) is None {
        Some(trim_spec(s))
    } else {
        let a = find_from(s, "at"@, 0)->Some_0;
        Some(trim_spec(s.subrange(a + 2, s.len() as int)))
    }
}

/// Determine any pincites.
///
/// This function determines whether there's a pincite.  If there is, it also
/// removes the "at."
pub fn pin_parser(input: &str) -> (r: Option<String>)
    ensures
        opt_view(r) == pin_spec(input@),
{
    let v = chars_of(input);
    let t = trim(&v);
    if t.len() == 0 {
        proof {
            crate::text::lemma_trim_empty_iff_all_space(v@);
        }
        None
    } else {
        proof {
            crate::text::lemma_trim_empty_iff_all_space(v@);
        }
        let pat = chars_of("at");
        match find_sub(&v, &pat, 0) {
            None => Some(string_of(&t)),
            Some(a) => {
                let vn: usize = v.len();
                proof {
                    reveal_strlit("at");
                    crate::text::lemma_find_some_bounds(v@, pat@, 0, a as int);
                }
                let rest = crate::text::seg(&v, a + 2, vn);
                let t2 = trim(&rest);
                Some(string_of(&t2))
            },
        }
    }
}

/// The empty citation that field assignments start from.
pub open spec fn empty_citation() -> CitationModel {
    CitationModel {
        pre_cite: None,
        reference: Seq::empty(),
        pincite: None,
        parenthetical: None,
        punctuation: Seq::empty(),
    }
}

/// Assign one token to its citation field; later tokens of the same kind
/// replace earlier ones.
pub open spec fn cite_parse_step(c: CitationModel, t: TokenModel) -> CitationModel {
    match t.token_type {
        TokenType::PreCitePunctuation => CitationModel {
            pre_cite: Some(PreCiteModel::Punctuation(t.contents)),
            ..c
        },
        TokenType::Signal => CitationModel { pre_cite: Some(PreCiteModel::Signal(t.contents)), ..c },
        TokenType::Reference => CitationModel { reference: t.contents, ..c },
        TokenType::Pincite => CitationModel { pincite: pin_spec(t.contents), ..c },
        TokenType::Parenthetical => CitationModel { parenthetical: Some(t.contents), ..c },
        TokenType::CitePunctuation => CitationModel { punctuation: t.contents, ..c },
        _ => c,
    }
}

/// The citation a token sequence denotes.
pub open spec fn cite_parse_spec(ts: Seq<TokenModel>) -> CitationModel
    decreases ts.len(),
{
    if ts.len() == 0 {
        empty_citation()
    } else {
        cite_parse_step(cite_parse_spec(ts.drop_last()), ts.last())
    }
}

/// Parse the parts of a citation.
pub fn cite_parser(tokens: &Vec<Token>) -> (r: Result<Citation, String>)
    ensures
        r matches Ok(c) && c@ == cite_parse_spec(toks(tokens@)),
{
    let mut citation = Citation {
        pre_cite: None,
        reference: String::new(),
        pincite: None,
        parenthetical: None,
        punctuation: String::new(),
    };
    let n: usize = tokens.len();
    let mut i: usize = 0;
    proof {
        assert(toks(tokens@).take(0) =~= Seq::<TokenModel>::empty());
    }
    while i < n
        invariant
            n == tokens@.len(),
            i <= n,
            citation@ == cite_parse_spec(toks(tokens@).take(i as int)),
        decreases n - i,
    {
        let ghost prefix = toks(tokens@).take(i as int);
        let t = &tokens[i];
        match t.token_type {
            TokenType::PreCitePunctuation => {
                citation.pre_cite = Some(
                    PreCite::Punctuation(Punctuation { contents: t.contents.clone() }),
                );
            },
            TokenType::Signal => {
                citation.pre_cite = Some(PreCite::Signal(Signal { contents: t.contents.clone() }));
            },
            TokenType::Reference => {
                citation.reference = t.contents.clone();
            },
            TokenType::Pincite => {
                citation.pincite = pin_parser(t.contents.as_str());
            },
            TokenType::Parenthetical => {
                citation.parenthetical = Some(t.contents.clone());
            },
            TokenType::CitePunctuation => {
                citation.punctuation = t.contents.clone();
            },
            _ => {},
        }
        proof {
            assert(toks(tokens@).take(i + 1).drop_last() =~= prefix);
            assert(toks(tokens@).take(i + 1).last() == tokens@[i as int]@);
        }
        i = i + 1;
    }
    proof {
        assert(toks(tokens@).take(n as int) =~= toks(tokens@));
    }
    Ok(citation)
}

impl View for Footnote {
    type V = FootnoteModel;

    open spec fn view(&self) -> FootnoteModel {
        FootnoteModel {
            number: self.number as int,
            id: opt_view(self.id),
            contents: branches_model(self.contents@),
        }
    }
}

/// Copy of a token.
fn clone_token(t: &Token) -> (r: Token)
    ensures
        r@ == t@,
{
    Token { token_type: t.token_type, contents: t.contents.clone() }
}

/// Copy of the tokens of `v` between `a` (inclusive) and `b` (exclusive).
fn tok_seg(v: &Vec<Token>, a: usize, b: usize) -> (r: Vec<Token>)
    requires
        a <= b <= v@.len(),
    ensures
        toks(r@) == toks(v@).subrange(a as int, b as int),
{
    let mut r: Vec<Token> = Vec::new();
    let mut i: usize = a;
    while i < b
        invariant
            a <= i <= b <= v@.len(),
            toks(r@) == toks(v@).subrange(a as int, i as int),
        decreases b - i,
    {
        let ghost r0 = r@;
        let t = clone_token(&v[i]);
        r.push(t);
        proof {
            crate::lexer::lemma_toks_push(r0, t);
            assert(toks(r@) =~= toks(v@).subrange(a as int, i + 1));
        }
        i = i + 1;
    }
    r
}

/// The state of the footnote parser: the branches built so far, the footnote
/// id if one was seen, and where a pending citation started.
pub struct FnParseSt {
    pub contents: Seq<BranchModel>,
    pub id: Option<Seq<char>>,
    pub cidx: int,
    pub started: bool,
}

/// One step of the footnote parser at token `i`.  An id token sets the
/// footnote's id; a run from a signal, pre-cite punctuation, or reference
/// token to a cite-punctuation token becomes one citation; text,
/// cross-references, and cite-breaks become branches directly.
pub open spec fn fn_parse_step(ts: Seq<TokenModel>, i: int, st: FnParseSt) -> FnParseSt {
    let t = ts[i];
    match t.token_type {
        TokenType::ID => FnParseSt { id: Some(t.contents), ..st },
        TokenType::PreCitePunctuation => if !st.started {
            FnParseSt { started: true, cidx: i, ..st }
        } else {
            st
        },
        TokenType::Signal => if !st.started {
            FnParseSt { started: true, cidx: i, ..st }
        } else {
            st
        },
        TokenType::Reference => if !st.started {
            FnParseSt { started: true, cidx: i, ..st }
        } else {
            st
        },
        TokenType::CitePunctuation => FnParseSt {
            contents: st.contents + seq![
                BranchModel::Citation(cite_parse_spec(ts.subrange(st.cidx, i + 1))),
            ],
            started: false,
            ..st
        },
        TokenType::Text => FnParseSt {
            contents: st.contents + seq![BranchModel::Text(t.contents)],
            ..st
        },
        TokenType::CrossRef => FnParseSt {
            contents: st.contents + seq![BranchModel::CrossRef(t.contents)],
            ..st
        },
        TokenType::CiteBreak => FnParseSt {
            contents: st.contents + seq![BranchModel::CiteBreak],
            ..st
        },
        _ => st,
    }
}

/// The footnote parser's state after the first `i` tokens.
pub open spec fn fn_parse_pre(ts: Seq<TokenModel>, i: int) -> FnParseSt
    decreases i,
{
    if i <= 0 {
        FnParseSt { contents: Seq::empty(), id: None, cidx: 0, started: false }
    } else {
        fn_parse_step(ts, i - 1, fn_parse_pre(ts, i - 1))
    }
}

/// The footnote a token sequence denotes, under the given footnote number.
pub open spec fn footnote_parse_spec(ts: Seq<TokenModel>, number: int) -> FootnoteModel {
    let st = fn_parse_pre(ts, ts.len() as int);
    FootnoteModel { number, id: st.id, contents: st.contents }
}

/// Parse the contents of a footnote into branches.
pub fn footnote_parser(tokens: &Vec<Token>, footnote_number: i32) -> (r: Result<Footnote, String>)
    ensures
        r matches Ok(f) && f@ == footnote_parse_spec(toks(tokens@), footnote_number as int),
{
    let mut contents: Vec<Branch> = Vec::new();
    let mut id: Option<String> = None;
    let mut citation_index: usize = 0;
    let mut citation_started: bool = false;
    let n: usize = tokens.len();
    let mut i: usize = 0;
    proof {
        assert(branches_model(contents@) =~= Seq::<BranchModel>::empty());
    }
    while i < n
        invariant
            n == tokens@.len(),
            i <= n,
            citation_index <= i,
            fn_parse_pre(toks(tokens@), i as int) == (FnParseSt {
                contents: branches_model(contents@),
                id: opt_view(id),
                cidx: citation_index as int,
                started: citation_started,
            }),
        decreases n - i,
    {
        let ghost st0 = fn_parse_pre(toks(tokens@), i as int);
        let t = &tokens[i];
        match t.token_type {
            TokenType::ID => {
                id = Some(t.contents.clone());
            },
            TokenType::PreCitePunctuation => {
                if !citation_started {
                    citation_started = true;
                    citation_index = i;
                }
            },
            TokenType::Signal => {
                if !citation_started {
                    citation_started = true;
                    citation_index = i;
                }
            },
            TokenType::Reference => {
                if !citation_started {
                    citation_started = true;
                    citation_index = i;
                }
            },
            TokenType::CitePunctuation => {
                let sub = tok_seg(tokens, citation_index, i + 1);
                match cite_parser(&sub) {
                    Ok(c) => {
                        let ghost c0 = contents@;
                        let b = Branch::Citation(c);
                        contents.push(b);
                        proof {
                            lemma_branches_model_push(c0, b);
                        }
                        citation_started = false;
                    },
                    Err(e) => {
                        return Err(e);
                    },
                }
            },
            TokenType::Text => {
                let ghost c0 = contents@;
                let b = Branch::Text(Text { contents: t.contents.clone() });
                contents.push(b);
                proof {
                    lemma_branches_model_push(c0, b);
                }
            },
            TokenType::CrossRef => {
                let ghost c0 = contents@;
                let b = Branch::CrossRef(CrossRef { contents: t.contents.clone() });
                contents.push(b);
                proof {
                    lemma_branches_model_push(c0, b);
                }
            },
            TokenType::CiteBreak => {
                let ghost c0 = contents@;
                let b = Branch::CiteBreak;
                contents.push(b);
                proof {
                    lemma_branches_model_push(c0, b);
                }
            },
            _ => {},
        }
        proof {
            assert(fn_parse_pre(toks(tokens@), i + 1) == fn_parse_step(toks(tokens@), i as int, st0));
            assert(fn_parse_step(toks(tokens@), i as int, st0) == (FnParseSt {
                contents: branches_model(contents@),
                id: opt_view(id),
                cidx: citation_index as int,
                started: citation_started,
            }));
        }
        i = i + 1;
    }
    Ok(Footnote { number: footnote_number, id, contents })
}

/// The number of open-footnote tokens at or after position `i`.
pub open spec fn opens_from(ts: Seq<TokenModel>, i: int) -> int
    decreases ts.len() - i,
{
    if i < 0 || i >= ts.len() {
        0
    } else if ts[i].token_type is OpenFootnote {
        1 + opens_from(ts, i + 1)
    } else {
        opens_from(ts, i + 1)
    }
}

pub proof fn lemma_opens_from_nonneg(ts: Seq<TokenModel>, i: int)
    ensures
        opens_from(ts, i) >= 0,
    decreases ts.len() - i,
{
    if 0 <= i < ts.len() {
        lemma_opens_from_nonneg(ts, i + 1);
    }
}

/// The state of the text parser: the branches built so far, the running
/// footnote number, and where a pending footnote's tokens started.
pub struct TxParseSt {
    pub parse: Seq<BranchModel>,
    pub number: int,
    pub fidx: int,
    pub open: bool,
}

/// One step of the text parser at token `i`: footnote spans are collected
/// between their open and close tokens and handed to the footnote parser;
/// text outside footnotes passes through.
pub open spec fn tx_parse_step(ts: Seq<TokenModel>, i: int, st: TxParseSt) -> TxParseSt {
    let t = ts[i];
    match t.token_type {
        TokenType::Text => if !st.open {
            TxParseSt { parse: st.parse + seq![BranchModel::Text(t.contents)], ..st }
        } else {
            st
        },
        TokenType::OpenFootnote => TxParseSt { number: st.number + 1, fidx: i, open: true, ..st },
        TokenType::CloseFootnote => TxParseSt {
            parse: st.parse + seq![
                BranchModel::Footnote(footnote_parse_spec(ts.subrange(st.fidx, i), st.number)),
            ],
            open: false,
            ..st
        },
        _ => st,
    }
}

/// The text parser's state after the first `i` tokens, counting footnotes
/// from `offset`.
pub open spec fn tx_parse_pre(ts: Seq<TokenModel>, offset: int, i: int) -> TxParseSt
    decreases i,
{
    if i <= 0 {
        TxParseSt { parse: Seq::empty(), number: offset, fidx: 0, open: false }
    } else {
        tx_parse_step(ts, i - 1, tx_parse_pre(ts, offset, i - 1))
    }
}

/// The syntax tree a token sequence denotes, with footnotes numbered from
/// `offset + 1`.
pub open spec fn parse_spec(ts: Seq<TokenModel>, offset: int) -> Seq<BranchModel> {
    tx_parse_pre(ts, offset, ts.len() as int).parse
}

/// Parse text and footnotes (sending footnotes to [`footnote_parser`]).
pub fn text_parser(tokens: &Vec<Token>, offset: i32) -> (r: Result<Vec<Branch>, String>)
    requires
        offset + opens_from(toks(tokens@), 0) <= i32::MAX,
    ensures
        r matches Ok(parse) && branches_model(parse@) == parse_spec(toks(tokens@), offset as int),
{
    let mut parse: Vec<Branch> = Vec::new();
    let mut footnote_number: i32 = offset;
    let mut footnote_index: usize = 0;
    let mut open_footnote: bool = false;
    let n: usize = tokens.len();
    let mut i: usize = 0;
    proof {
        assert(branches_model(parse@) =~= Seq::<BranchModel>::empty());
    }
    while i < n
        invariant
            n == tokens@.len(),
            i <= n,
            footnote_index <= i,
            footnote_number as int + opens_from(toks(tokens@), i as int) <= i32::MAX,
            tx_parse_pre(toks(tokens@), offset as int, i as int) == (TxParseSt {
                parse: branches_model(parse@),
                number: footnote_number as int,
                fidx: footnote_index as int,
                open: open_footnote,
            }),
        decreases n - i,
    {
        let ghost st0 = tx_parse_pre(toks(tokens@), offset as int, i as int);
        let t = &tokens[i];
        match t.token_type {
            TokenType::Text => {
                if !open_footnote {
                    let ghost c0 = parse@;
                    let b = Branch::Text(Text { contents: t.contents.clone() });
                    parse.push(b);
                    proof {
                        lemma_branches_model_push(c0, b);
                    }
                }
            },
            TokenType::OpenFootnote => {
                proof {
                    lemma_opens_from_nonneg(toks(tokens@), i + 1);
                }
                footnote_number = footnote_number + 1;
                footnote_index = i;
                open_footnote = true;
            },
            TokenType::CloseFootnote => {
                open_footnote = false;
                let sub = tok_seg(tokens, footnote_index, i);
                match footnote_parser(&sub, footnote_number) {
                    Ok(f) => {
                        let ghost c0 = parse@;
                        let b = Branch::Footnote(f);
                        parse.push(b);
                        proof {
                            lemma_branches_model_push(c0, b);
                        }
                    },
                    Err(e) => {
                        return Err(e);
                    },
                }
            },
            _ => {},
        }
        proof {
            assert(opens_from(toks(tokens@), i as int) >= opens_from(toks(tokens@), i + 1));
            assert(tx_parse_pre(toks(tokens@), offset as int, i + 1) == tx_parse_step(
                toks(tokens@),
                i as int,
                st0,
            ));
            assert(tx_parse_step(toks(tokens@), i as int, st0) == (TxParseSt {
                parse: branches_model(parse@),
                number: footnote_number as int,
                fidx: footnote_index as int,
                open: open_footnote,
            }));
        }
        i = i + 1;
    }
    Ok(parse)
}

/// The main parser.
pub fn parser(tokens: &Vec<Token>, offset: i32) -> (r: Result<Vec<Branch>, String>)
    requires
        offset + opens_from(toks(tokens@), 0) <= i32::MAX,
    ensures
        r matches Ok(parse) && branches_model(parse@) == parse_spec(toks(tokens@), offset as int),
{
    text_parser(tokens, offset)
}

/// The debug form of an optional string, quotes included.
pub open spec fn opt_dbg(o: Option<Seq<char>>) -> Seq<char> {
    match o {
        Some(s) => "Some(\""@ + s + "\")"@,
        None => "None"@,
    }
}

/// The raw contents of a branch, one line per branch, as used for debugging:
/// a citation prints its reference, pincite, parenthetical, and punctuation;
/// a footnote prints its number, id, and children.
pub open spec fn print_contents_spec(b: BranchModel) -> Seq<char>
    decreases crate::render::bm_size(b), 0int,
    via print_contents_spec_dec
{
    match b {
        BranchModel::Text(t) => t,
        BranchModel::Footnote(f) => crate::text::trim_spec(
            crate::text::int_str(f.number) + " "@ + opt_dbg(f.id) + " "@ + print_children(
                f.contents,
                0,
            ),
        ),
        BranchModel::Citation(c) => c.reference + " "@ + opt_dbg(c.pincite) + " "@ + opt_dbg(
            c.parenthetical,
        ) + " "@ + c.punctuation,
        BranchModel::CrossRef(c) => c,
        BranchModel::CiteBreak => Seq::empty(),
    }
}

/// The children of a footnote, printed in order, each followed by a space.
pub open spec fn print_children(bs: Seq<BranchModel>, j: int) -> Seq<char>
    decreases crate::render::bms_size(bs, j), 1int,
    via print_children_dec
{
    if !(0 <= j < bs.len()) {
        Seq::empty()
    } else {
        print_contents_spec(bs[j]) + " "@ + print_children(bs, j + 1)
    }
}

#[via_fn]
proof fn print_contents_spec_dec(b: BranchModel) {
    match b {
        BranchModel::Footnote(f) => {
            crate::render::lemma_bms_size_nonneg(f.contents, 0);
        },
        _ => {},
    }
}

#[via_fn]
proof fn print_children_dec(bs: Seq<BranchModel>, j: int) {
    if 0 <= j < bs.len() {
        crate::render::lemma_bms_size_elem(bs, j, j);
        crate::render::lemma_bm_size_pos(bs[j]);
        crate::render::lemma_bms_size_nonneg(bs, j + 1);
    }
}

fn push_opt_dbg(o: &Option<String>, out: &mut String)
    ensures
        final(out)@ == old(out)@ + opt_dbg(opt_view(*o)),
{
    match o {
        Some(s) => {
            out.append("Some(\"");
            out.append(s.as_str());
            out.append("\")");
            proof {
                assert(out@ =~= old(out)@ + opt_dbg(opt_view(*o)));
            }
        },
        None => {
            out.append("None");
        },
    }
}

impl Branch {
    /// Used for debugging.
    pub fn print_contents(&self) -> (r: String)
        ensures
            r@ == print_contents_spec(self@),
        decreases crate::render::bm_size(branch_model(*self)),
    {
        match self {
            Branch::Text(t) => t.contents.clone(),
            Branch::Footnote(footnote) => {
                let ghost fcm = branches_model(footnote.contents@);
                let mut raw = crate::text::int_to_string(footnote.number);
                raw.append(" ");
                push_opt_dbg(&footnote.id, &mut raw);
                raw.append(" ");
                let ghost head = raw@;
                let m: usize = footnote.contents.len();
                let mut j: usize = 0;
                proof {
                    lemma_branches_model(footnote.contents@);
                    assert(raw@ + print_children(fcm, 0) =~= head + print_children(fcm, 0));
                }
                while j < m
                    invariant
                        m == footnote.contents@.len(),
                        j <= m,
                        fcm == branches_model(footnote.contents@),
                        fcm.len() == m,
                        forall|k: int| 0 <= k < m ==> fcm[k] == branch_model(footnote.contents@[k]),
                        branch_model(*self) matches BranchModel::Footnote(fm) && fm.contents
                            == fcm,
                        raw@ + print_children(fcm, j as int) == head + print_children(fcm, 0),
                    decreases m - j,
                {
                    proof {
                        let pm = branch_model(*self);
                        assert(pm->Footnote_0.contents == fcm);
                        crate::render::lemma_bms_size_elem(fcm, 0, j as int);
                        crate::render::lemma_bm_size_pos(fcm[j as int]);
                        assert(fcm[j as int] == branch_model(footnote.contents@[j as int]));
                    }
                    let ghost pre = raw@;
                    let piece = footnote.contents[j].print_contents();
                    raw.append(piece.as_str());
                    raw.append(" ");
                    proof {
                        assert(pre + (print_contents_spec(fcm[j as int]) + " "@ + print_children(
                            fcm,
                            j + 1,
                        )) =~= raw@ + print_children(fcm, j + 1));
                    }
                    j = j + 1;
                }
                let rv = crate::text::chars_of_string(&raw);
                let trimmed = crate::text::trim(&rv);
                proof {
                    assert(raw@ + Seq::<char>::empty() =~= raw@);
                }
                crate::text::string_of(&trimmed)
            },
            Branch::Citation(c) => {
                let mut raw = c.reference.clone();
                raw.append(" ");
                push_opt_dbg(&c.pincite, &mut raw);
                raw.append(" ");
                push_opt_dbg(&c.parenthetical, &mut raw);
                raw.append(" ");
                raw.append(c.punctuation.as_str());
                proof {
                    assert(raw@ =~= print_contents_spec(self@));
                }
                raw
            },
            Branch::CrossRef(c) => c.contents.clone(),
            Branch::CiteBreak => String::new(),
        }
    }
}

} // verus!
