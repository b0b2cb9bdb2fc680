//! The lexer.  It converts an annotated markdown string into a flat stream of
//! tokens: plain text, footnote boundaries, footnote ids, citation parts,
//! cross-references, and cite-breaks.

use crate::text::{
    all_space, chars_of, is_at, occurs_at, seg, seg_all_space, seg_string, space_char, string_of,
};
use vstd::prelude::*;

verus! {

/// The types of tokens.
#[derive(Debug, PartialEq, Eq, Structural, Clone, Copy)]
pub enum TokenType {
    Text,
    OpenFootnote,
    ID,
    Signal,
    PreCitePunctuation,
    Reference,
    Pincite,
    Parenthetical,
    CitePunctuation,
    CrossRef,
    CiteBreak,
    CloseFootnote,
}

/// The mathematical model of a token: its type and its characters.
pub struct TokenModel {
    pub token_type: TokenType,
    pub contents: Seq<char>,
}

/// The tokenized parts of the input string.
#[derive(Debug)]
pub struct Token {
    pub token_type: TokenType,
    pub contents: String,
}

impl View for Token {
    type V = TokenModel;

    open spec fn view(&self) -> TokenModel {
        TokenModel { token_type: self.token_type, contents: self.contents@ }
    }
}

impl Token {
    /// Creates a new [`Token`].
    pub fn new(token_type: TokenType, contents: String) -> (t: Token)
        ensures
            t@.token_type == token_type,
            t@.contents == contents@,
    {
        Token { token_type, contents }
    }
}

/// The models of a sequence of tokens.
pub open spec fn toks(v: Seq<Token>) -> Seq<TokenModel> {
    v.map_values(|t: Token| t@)
}

/// Whether the single signal form `a` occurs in `s` at position `i`; when it
/// does, the position just past it.
pub open spec fn alt_one(s: Seq<char>, i: int, a: Seq<char>) -> Option<int> {
    if a.len() > 0 && is_at(s, a, i) {
        Some(i + a.len())
    } else {
        None
    }
}

/// The first of two possible matches.
pub open spec fn or_alt(a: Option<int>, b: Option<int>) -> Option<int> {
    if a is Some {
        a
    } else {
        b
    }
}

/// The first signal form of the fixed signal table that occurs in `s` at
/// position `i`, tried in table order; when one does, the position just past
/// it.  Each signal has three forms: an italicized version that starts a
/// sentence, an italicized version that starts a clause, and an un-italicized
/// version used as part of a sentence.
pub open spec fn sig_alt_at(s: Seq<char>, i: int) -> Option<int> {
    or_alt(alt_one(s, i, "*See generally, e.g.*,"@),
    or_alt(alt_one(s, i, "*see generally, e.g.*,"@),
    or_alt(alt_one(s, i, "see generally, e.g.,"@),
    or_alt(alt_one(s, i, "*See generally*"@),
    or_alt(alt_one(s, i, "*see generally*"@),
    or_alt(alt_one(s, i, "see generally"@),
    or_alt(alt_one(s, i, "*But cf., e.g.*,"@),
    or_alt(alt_one(s, i, "*but cf., e.g.*,"@),
    or_alt(alt_one(s, i, "but cf., e.g.,"@),
    or_alt(alt_one(s, i, "*But cf.*"@),
    or_alt(alt_one(s, i, "*but cf.*"@),
    or_alt(alt_one(s, i, "but cf."@),
    or_alt(alt_one(s, i, "*But see, e.g.*,"@),
    or_alt(alt_one(s, i, "*but see, e.g.*,"@),
    or_alt(alt_one(s, i, "but see, e.g.,"@),
    or_alt(alt_one(s, i, "*But see*"@),
    or_alt(alt_one(s, i, "*but see*"@),
    or_alt(alt_one(s, i, "but see"@),
    or_alt(alt_one(s, i, "*Contra*"@),
    or_alt(alt_one(s, i, "*contra*"@),
    or_alt(alt_one(s, i, "contra"@),
    or_alt(alt_one(s, i, "*Compare*"@),
    or_alt(alt_one(s, i, "*compare*"@),
    or_alt(alt_one(s, i, "compare"@),
    or_alt(alt_one(s, i, "*with*"@),
    or_alt(alt_one(s, i, "with"@),
    or_alt(alt_one(s, i, "*Cf., e.g.*,"@),
    or_alt(alt_one(s, i, "*cf., e.g.*,"@),
    or_alt(alt_one(s, i, "cf., e.g.,"@),
    or_alt(alt_one(s, i, "*Cf.*"@),
    or_alt(alt_one(s, i, "*cf.*"@),
    or_alt(alt_one(s, i, "cf."@),
    or_alt(alt_one(s, i, "*See also, e.g.*,"@),
    or_alt(alt_one(s, i, "*see also, e.g.*,"@),
    or_alt(alt_one(s, i, "see also, e.g.,"@),
    or_alt(alt_one(s, i, "*See also*"@),
    or_alt(alt_one(s, i, "*see also*"@),
    or_alt(alt_one(s, i, "see also"@),
    or_alt(alt_one(s, i, "*See, e.g.*,"@),
    or_alt(alt_one(s, i, "*see, e.g.*,"@),
    or_alt(alt_one(s, i, "see, e.g.,"@),
    or_alt(alt_one(s, i, "*See*"@),
    or_alt(alt_one(s, i, "*see*"@),
    or_alt(alt_one(s, i, "see"@),
    or_alt(alt_one(s, i, "*Accord*"@),
    or_alt(alt_one(s, i, "*accord*"@),
    or_alt(alt_one(s, i, "accord"@),
    or_alt(alt_one(s, i, "*E.g.*"@),
    or_alt(alt_one(s, i, "*e.g.*"@),
    alt_one(s, i, "e.g."@)
    )))))))))))))))))))))))))))))))))))))))))))))))))
}

/// Try one signal form at position `i` of `v`.
fn try_alt(v: &Vec<char>, i: usize, lit: &str) -> (r: Option<usize>)
    ensures
        match r {
            Some(j) => alt_one(v@, i as int, lit@) == Some(j as int),
            None => alt_one(v@, i as int, lit@) is None,
        },
{
    let p = chars_of(lit);
    let n: usize = v.len();
    if p.len() > 0 && p.len() <= n && i <= n - p.len() && occurs_at(v, &p, i) {
        Some(i + p.len())
    } else {
        None
    }
}

/// The first signal form that occurs at position `i` of `v`, in table order.
fn sig_alt_here(v: &Vec<char>, i: usize) -> (r: Option<usize>)
    ensures
        match r {
            Some(j) => sig_alt_at(v@, i as int) == Some(j as int) && i < j <= v@.len(),
            None => sig_alt_at(v@, i as int) is None,
        },
{
    let mut r: Option<usize> = try_alt(v, i, "*See generally, e.g.*,");
    if r.is_none() { r = try_alt(v, i, "*see generally, e.g.*,"); }
    if r.is_none() { r = try_alt(v, i, "see generally, e.g.,"); }
    if r.is_none() { r = try_alt(v, i, "*See generally*"); }
    if r.is_none() { r = try_alt(v, i, "*see generally*"); }
    if r.is_none() { r = try_alt(v, i, "see generally"); }
    if r.is_none() { r = try_alt(v, i, "*But cf., e.g.*,"); }
    if r.is_none() { r = try_alt(v, i, "*but cf., e.g.*,"); }
    if r.is_none() { r = try_alt(v, i, "but cf., e.g.,"); }
    if r.is_none() { r = try_alt(v, i, "*But cf.*"); }
    if r.is_none() { r = try_alt(v, i, "*but cf.*"); }
    if r.is_none() { r = try_alt(v, i, "but cf."); }
    if r.is_none() { r = try_alt(v, i, "*But see, e.g.*,"); }
    if r.is_none() { r = try_alt(v, i, "*but see, e.g.*,"); }
    if r.is_none() { r = try_alt(v, i, "but see, e.g.,"); }
    if r.is_none() { r = try_alt(v, i, "*But see*"); }
    if r.is_none() { r = try_alt(v, i, "*but see*"); }
    if r.is_none() { r = try_alt(v, i, "but see"); }
    if r.is_none() { r = try_alt(v, i, "*Contra*"); }
    if r.is_none() { r = try_alt(v, i, "*contra*"); }
    if r.is_none() { r = try_alt(v, i, "contra"); }
    if r.is_none() { r = try_alt(v, i, "*Compare*"); }
    if r.is_none() { r = try_alt(v, i, "*compare*"); }
    if r.is_none() { r = try_alt(v, i, "compare"); }
    if r.is_none() { r = try_alt(v, i, "*with*"); }
    if r.is_none() { r = try_alt(v, i, "with"); }
    if r.is_none() { r = try_alt(v, i, "*Cf., e.g.*,"); }
    if r.is_none() { r = try_alt(v, i, "*cf., e.g.*,"); }
    if r.is_none() { r = try_alt(v, i, "cf., e.g.,"); }
    if r.is_none() { r = try_alt(v, i, "*Cf.*"); }
    if r.is_none() { r = try_alt(v, i, "*cf.*"); }
    if r.is_none() { r = try_alt(v, i, "cf."); }
    if r.is_none() { r = try_alt(v, i, "*See also, e.g.*,"); }
    if r.is_none() { r = try_alt(v, i, "*see also, e.g.*,"); }
    if r.is_none() { r = try_alt(v, i, "see also, e.g.,"); }
    if r.is_none() { r = try_alt(v, i, "*See also*"); }
    if r.is_none() { r = try_alt(v, i, "*see also*"); }
    if r.is_none() { r = try_alt(v, i, "see also"); }
    if r.is_none() { r = try_alt(v, i, "*See, e.g.*,"); }
    if r.is_none() { r = try_alt(v, i, "*see, e.g.*,"); }
    if r.is_none() { r = try_alt(v, i, "see, e.g.,"); }
    if r.is_none() { r = try_alt(v, i, "*See*"); }
    if r.is_none() { r = try_alt(v, i, "*see*"); }
    if r.is_none() { r = try_alt(v, i, "see"); }
    if r.is_none() { r = try_alt(v, i, "*Accord*"); }
    if r.is_none() { r = try_alt(v, i, "*accord*"); }
    if r.is_none() { r = try_alt(v, i, "accord"); }
    if r.is_none() { r = try_alt(v, i, "*E.g.*"); }
    if r.is_none() { r = try_alt(v, i, "*e.g.*"); }
    if r.is_none() { r = try_alt(v, i, "e.g."); }
    r
}

/// `sig_alt_at` never yields a position at or before `i`, nor past the end.
proof fn lemma_sig_alt_bounds(s: Seq<char>, i: int, j: int)
    requires
        sig_alt_at(s, i) == Some(j),
    ensures
        i < j <= s.len(),
{
}

/// After one signal form has matched, whether the rest of the string is
/// further signal forms followed only by whitespace.
pub open spec fn sig_tail(s: Seq<char>, i: int) -> bool
    decreases s.len() - i,
    via sig_tail_dec
{
    if i < 0 || i > s.len() {
        false
    } else if i == s.len() {
        true
    } else {
        match sig_alt_at(s, i) {
            Some(j) => sig_tail(s, j),
            None => all_space(s.subrange(i, s.len() as int)),
        }
    }
}

#[via_fn]
proof fn sig_tail_dec(s: Seq<char>, i: int) {
    if 0 <= i < s.len() {
        match sig_alt_at(s, i) {
            Some(j) => {
                lemma_sig_alt_bounds(s, i, j);
            },
            None => {},
        }
    }
}

/// Whether a run of signal forms starts at `i` and reaches the end of the
/// string, modulo trailing whitespace.
pub open spec fn sig_match_at(s: Seq<char>, i: int) -> bool {
    match sig_alt_at(s, i) {
        Some(j) => sig_tail(s, j),
        None => false,
    }
}

/// The first position at or after `i` where a signal run reaches the end of
/// the string.
pub open spec fn signal_start_from(s: Seq<char>, i: int) -> Option<int>
    decreases s.len() - i,
{
    if !(0 <= i < s.len()) {
        None
    } else if sig_match_at(s, i) {
        Some(i)
    } else {
        signal_start_from(s, i + 1)
    }
}

/// Sentence and clause punctuation that may precede a citation.
pub open spec fn is_punct_char(c: char) -> bool {
    c == '?' || c == '!' || c == ':' || c == ';' || c == ',' || c == '.'
}

/// The first position at or after `i` holding a punctuation character that is
/// followed only by whitespace.
pub open spec fn punct_start_from(s: Seq<char>, i: int) -> Option<int>
    decreases s.len() - i,
{
    if !(0 <= i < s.len()) {
        None
    } else if is_punct_char(s[i]) && all_space(s.subrange(i + 1, s.len() as int)) {
        Some(i)
    } else {
        punct_start_from(s, i + 1)
    }
}

/// One token of the given type and text.
pub open spec fn tok(t: TokenType, text: Seq<char>) -> TokenModel {
    TokenModel { token_type: t, contents: text }
}

/// The tokens that the pre-citation lexer produces for the text immediately
/// preceding a citation: a signal or trailing punctuation is split off the
/// end, and whatever precedes it is plain text.
pub open spec fn pre_cite_spec(s: Seq<char>) -> Seq<TokenModel> {
    match signal_start_from(s, 0) {
        Some(p) => {
            let sig = seq![tok(TokenType::Signal, s.subrange(p, s.len() as int))];
            if p > 0 {
                seq![tok(TokenType::Text, s.subrange(0, p))] + sig
            } else {
                sig
            }
        },
        None => match punct_start_from(s, 0) {
            Some(p) => {
                let pu = seq![tok(TokenType::PreCitePunctuation, s.subrange(p, s.len() as int))];
                if p > 0 {
                    seq![tok(TokenType::Text, s.subrange(0, p))] + pu
                } else {
                    pu
                }
            },
            None => seq![tok(TokenType::Text, s)],
        },
    }
}

fn sig_tail_run(v: &Vec<char>, i: usize) -> (b: bool)
    requires
        i <= v@.len(),
    ensures
        b == sig_tail(v@, i as int),
    decreases v@.len() - i,
{
    let n: usize = v.len();
    if i == n {
        true
    } else {
        match sig_alt_here(v, i) {
            Some(j) => sig_tail_run(v, j),
            None => seg_all_space(v, i, n),
        }
    }
}

fn punct_char(c: char) -> (b: bool)
    ensures
        b == is_punct_char(c),
{
    c == '?' || c == '!' || c == ':' || c == ';' || c == ',' || c == '.'
}

fn find_signal_start(v: &Vec<char>, i: usize) -> (r: Option<usize>)
    ensures
        match r {
            Some(p) => signal_start_from(v@, i as int) == Some(p as int) && p < v@.len(),
            None => signal_start_from(v@, i as int) is None,
        },
    decreases v@.len() - i,
{
    if i >= v.len() {
        None
    } else {
        let hit = match sig_alt_here(v, i) {
            Some(j) => sig_tail_run(v, j),
            None => false,
        };
        if hit {
            Some(i)
        } else {
            find_signal_start(v, i + 1)
        }
    }
}

fn find_punct_start(v: &Vec<char>, i: usize) -> (r: Option<usize>)
    ensures
        match r {
            Some(p) => punct_start_from(v@, i as int) == Some(p as int) && p < v@.len(),
            None => punct_start_from(v@, i as int) is None,
        },
    decreases v@.len() - i,
{
    if i >= v.len() {
        None
    } else {
        if punct_char(v[i]) && seg_all_space(v, i + 1, v.len()) {
            Some(i)
        } else {
            find_punct_start(v, i + 1)
        }
    }
}

/// The pre-citation lexer over a character vector.
fn pre_cite_chars(v: &Vec<char>) -> (r: Vec<Token>)
    ensures
        toks(r@) == pre_cite_spec(v@),
{
    let n: usize = v.len();
    // Look for a signal.
    let sig = find_signal_start(v, 0);
    let mut lex: Vec<Token> = Vec::new();
    if let Some(p) = sig {
        // If there's text before the signal, push it; then push the signal.
        if p != 0 {
            lex.push(Token::new(TokenType::Text, seg_string(v, 0, p)));
        }
        lex.push(Token::new(TokenType::Signal, seg_string(v, p, n)));
        proof {
            assert(toks(lex@) =~= pre_cite_spec(v@));
        }
        return lex;
    }
    // Look for ending punctuation if there's no signal.
    let pu = find_punct_start(v, 0);
    if let Some(p) = pu {
        if p != 0 {
            lex.push(Token::new(TokenType::Text, seg_string(v, 0, p)));
        }
        lex.push(Token::new(TokenType::PreCitePunctuation, seg_string(v, p, n)));
        proof {
            assert(toks(lex@) =~= pre_cite_spec(v@));
        }
        return lex;
    }
    lex.push(Token::new(TokenType::Text, seg_string(v, 0, n)));
    proof {
        assert(v@.subrange(0, n as int) =~= v@);
        assert(toks(lex@) =~= pre_cite_spec(v@));
    }
    lex
}

/// Lex the text before a citation.
///
/// Looks for a signal or for ending punctuation at the end of the input, and
/// splits it from the text that precedes it.
pub fn pre_cite_lexer(input: &str) -> (r: Result<Vec<Token>, String>)
    ensures
        r matches Ok(lex) && toks(lex@) == pre_cite_spec(input@),
{
    let v = chars_of(input);
    Ok(pre_cite_chars(&v))
}

/// The scanning context within a citation.
#[derive(Debug, PartialEq, Eq, Structural, Clone, Copy)]
pub enum CiteCtx {
    Reference,
    Pincite,
    Parenthetical,
    CitePunctuation,
}

/// Prepend tokens to the result of lexing the rest of an input.
pub open spec fn cons_toks(
    pre: Seq<TokenModel>,
    r: Result<Seq<TokenModel>, Seq<char>>,
) -> Result<Seq<TokenModel>, Seq<char>> {
    match r {
        Ok(ts) => Ok(pre + ts),
        Err(e) => Err(e),
    }
}

proof fn lemma_cons_toks_assoc(
    a: Seq<TokenModel>,
    b: Seq<TokenModel>,
    r: Result<Seq<TokenModel>, Seq<char>>,
)
    ensures
        cons_toks(a, cons_toks(b, r)) == cons_toks(a + b, r),
{
    match r {
        Ok(ts) => {
            assert(a + (b + ts) =~= (a + b) + ts);
        },
        Err(e) => {},
    }
}

pub proof fn lemma_toks_push(v: Seq<Token>, t: Token)
    ensures
        toks(v.push(t)) == toks(v) + seq![t@],
{
    assert(toks(v.push(t)) =~= toks(v) + seq![t@]);
}

/// One scanner step of the citation lexer at position `i`: the tokens it
/// emits and the next context, token start, and parenthesis count.  A `]`
/// ends the reference; a ` (` ends a pincite and opens a parenthetical, whose
/// inner parentheses must balance.
pub open spec fn cite_step(
    s: Seq<char>,
    i: int,
    ctx: CiteCtx,
    start: int,
    parens: int,
) -> (Seq<TokenModel>, CiteCtx, int, int) {
    let c = s[i];
    if ctx is Reference && c == ']' {
        (
            seq![tok(TokenType::Reference, s.subrange(start, i + 1))],
            CiteCtx::Pincite,
            i + 1,
            parens,
        )
    } else if ctx is Pincite && c == '(' && i > 0 && s[i - 1] == ' ' {
        let em: Seq<TokenModel> = if !all_space(s.subrange(start, i - 1)) {
            seq![tok(TokenType::Pincite, s.subrange(start, i - 1))]
        } else {
            seq![]
        };
        (em, CiteCtx::Parenthetical, i, parens)
    } else if ctx is Parenthetical {
        if c == ')' && parens == 0 {
            (
                seq![tok(TokenType::Parenthetical, s.subrange(start, i + 1))],
                CiteCtx::CitePunctuation,
                i + 1,
                parens,
            )
        } else if c == '(' {
            (seq![], ctx, start, parens + 1)
        } else if c == ')' {
            (seq![], ctx, start, parens - 1)
        } else {
            (seq![], ctx, start, parens)
        }
    } else {
        (seq![], ctx, start, parens)
    }
}

/// What the citation lexer does when the input ends: a pending pincite is
/// flushed, an unclosed parenthetical is an error, and the rest of the input
/// becomes the ending punctuation.
pub open spec fn cite_end(
    s: Seq<char>,
    i: int,
    st: (Seq<TokenModel>, CiteCtx, int, int),
) -> Result<Seq<TokenModel>, Seq<char>> {
    if st.1 is Pincite && i > st.2 {
        let em2: Seq<TokenModel> = if !all_space(s.subrange(st.2, i)) {
            seq![tok(TokenType::Pincite, s.subrange(st.2, i))]
        } else {
            seq![]
        };
        Ok(st.0 + em2 + seq![tok(TokenType::CitePunctuation, s.subrange(i, s.len() as int))])
    } else if st.1 is Parenthetical {
        Err("No closing parentheses found for the parenthetical"@)
    } else {
        Ok(st.0 + seq![tok(TokenType::CitePunctuation, s.subrange(st.2, s.len() as int))])
    }
}

/// The tokens that the citation lexer produces from position `i` onward,
/// given the current scanner state.
pub open spec fn cite_from(
    s: Seq<char>,
    i: int,
    ctx: CiteCtx,
    start: int,
    parens: int,
) -> Result<Seq<TokenModel>, Seq<char>>
    decreases s.len() - i,
{
    if i < 0 || i >= s.len() {
        Ok(seq![])
    } else {
        let st = cite_step(s, i, ctx, start, parens);
        if i == s.len() - 1 {
            cite_end(s, i, st)
        } else {
            cons_toks(st.0, cite_from(s, i + 1, st.1, st.2, st.3))
        }
    }
}

/// The tokens of a full citation span: a reference, an optional pincite, an
/// optional parenthetical, and the ending punctuation.
pub open spec fn cite_spec(s: Seq<char>) -> Result<Seq<TokenModel>, Seq<char>> {
    cite_from(s, 0, CiteCtx::Reference, 0, 0)
}

/// The citation lexer over a character vector.
fn cite_chars(v: &Vec<char>) -> (r: Result<Vec<Token>, String>)
    ensures
        match r {
            Ok(lex) => cite_spec(v@) == Ok::<Seq<TokenModel>, Seq<char>>(toks(lex@)),
            Err(e) => cite_spec(v@) == Err::<Seq<TokenModel>, Seq<char>>(e@),
        },
{
    let n: usize = v.len();
    let mut lex: Vec<Token> = Vec::new();
    let mut ctx: CiteCtx = CiteCtx::Reference;
    let mut start: usize = 0;
    let mut parens: i128 = 0;
    let mut i: usize = 0;
    proof {
        assert(toks(lex@) =~= Seq::<TokenModel>::empty());
        assert(cons_toks(toks(lex@), cite_spec(v@)) == cite_spec(v@)) by {
            match cite_spec(v@) {
                Ok(ts) => {
                    assert(toks(lex@) + ts =~= ts);
                },
                Err(_) => {},
            }
        }
    }
    while i < n
        invariant
            n == v@.len(),
            i <= n,
            start <= i,
            ctx is Pincite ==> start >= 1 && v@[start as int - 1] == ']',
            -(i as int) <= parens as int <= i as int,
            cite_spec(v@) == cons_toks(
                toks(lex@),
                cite_from(v@, i as int, ctx, start as int, parens as int),
            ),
        decreases n - i,
    {
        let ghost pre_toks = toks(lex@);
        let ghost ctx0 = ctx;
        let ghost start0 = start as int;
        let ghost parens0 = parens as int;
        let ghost st = cite_step(v@, i as int, ctx0, start0, parens0);
        let c = v[i];
        if ctx == CiteCtx::Reference && c == ']' {
            let ghost lex0 = lex@;
            let t = Token::new(TokenType::Reference, seg_string(v, start, i + 1));
            lex.push(t);
            proof {
                lemma_toks_push(lex0, t);
                assert(st.0 =~= seq![t@]);
            }
            ctx = CiteCtx::Pincite;
            start = i + 1;
        } else if ctx == CiteCtx::Pincite && c == '(' && i > 0 && v[i - 1] == ' ' {
            // The previous character is a space, and a pincite never starts
            // right after the reference's closing bracket, so `start < i`.
            assert(start < i);
            if !seg_all_space(v, start, i - 1) {
                let ghost lex0 = lex@;
                let t = Token::new(TokenType::Pincite, seg_string(v, start, i - 1));
                lex.push(t);
                proof {
                    lemma_toks_push(lex0, t);
                    assert(st.0 =~= seq![t@]);
                }
            } else {
                proof {
                    assert(st.0 =~= Seq::<TokenModel>::empty());
                }
            }
            ctx = CiteCtx::Parenthetical;
            start = i;
        } else if ctx == CiteCtx::Parenthetical {
            if c == ')' && parens == 0 {
                let ghost lex0 = lex@;
                let t = Token::new(TokenType::Parenthetical, seg_string(v, start, i + 1));
                lex.push(t);
                proof {
                    lemma_toks_push(lex0, t);
                    assert(st.0 =~= seq![t@]);
                }
                ctx = CiteCtx::CitePunctuation;
                start = i + 1;
            } else if c == '(' {
                parens = parens + 1;
            } else if c == ')' {
                parens = parens - 1;
            }
        }
        proof {
            assert(toks(lex@) =~= pre_toks + st.0);
            assert(ctx == st.1 && start as int == st.2 && parens as int == st.3);
        }
        if i == n - 1 {
            proof {
                assert(cite_from(v@, i as int, ctx0, start0, parens0) == cite_end(
                    v@,
                    i as int,
                    st,
                ));
            }
            if ctx == CiteCtx::Pincite && i > start {
                if !seg_all_space(v, start, i) {
                    let ghost lex0 = lex@;
                    let t = Token::new(TokenType::Pincite, seg_string(v, start, i));
                    lex.push(t);
                    proof {
                        lemma_toks_push(lex0, t);
                    }
                }
                start = i;
            } else if ctx == CiteCtx::Parenthetical {
                return Err(String::from_str(
                    "No closing parentheses found for the parenthetical",
                ));
            }
            let ghost lex0 = lex@;
            let t = Token::new(TokenType::CitePunctuation, seg_string(v, start, n));
            lex.push(t);
            proof {
                lemma_toks_push(lex0, t);
                match cite_end(v@, i as int, st) {
                    Ok(ts) => {
                        assert(toks(lex@) =~= pre_toks + ts);
                    },
                    Err(_) => {
                        assert(false);
                    },
                }
                assert(cite_spec(v@) == Ok::<Seq<TokenModel>, Seq<char>>(toks(lex@)));
            }
            return Ok(lex);
        }
        proof {
            assert(cite_from(v@, i as int, ctx0, start0, parens0) == cons_toks(
                st.0,
                cite_from(v@, i + 1, st.1, st.2, st.3),
            ));
            lemma_cons_toks_assoc(pre_toks, st.0, cite_from(v@, i + 1, st.1, st.2, st.3));
        }
        i = i + 1;
    }
    proof {
        match cite_spec(v@) {
            Ok(ts) => {
                assert(toks(lex@) + Seq::<TokenModel>::empty() =~= toks(lex@));
            },
            Err(_) => {},
        }
    }
    Ok(lex)
}

/// Lex a citation.
///
/// A citation requires a reference and ending punctuation, and might include
/// a pincite or parenthetical (or both).
pub fn cite_lexer(input: &str) -> (r: Result<Vec<Token>, String>)
    ensures
        match r {
            Ok(lex) => cite_spec(input@) == Ok::<Seq<TokenModel>, Seq<char>>(toks(lex@)),
            Err(e) => cite_spec(input@) == Err::<Seq<TokenModel>, Seq<char>>(e@),
        },
{
    let v = chars_of(input);
    cite_chars(&v)
}

pub proof fn lemma_toks_concat(a: Seq<Token>, b: Seq<Token>)
    ensures
        toks(a + b) == toks(a) + toks(b),
{
    assert(toks(a + b) =~= toks(a) + toks(b));
}

/// The scanning context within a footnote.
#[derive(Debug, PartialEq, Eq, Structural, Clone, Copy)]
pub enum FnCtx {
    Text,
    ID,
    Citation,
    CrossRef,
    CiteBreak,
}

/// The message for a footnote that does not end with its closing bracket.
pub open spec fn fnote_err_msg(s: Seq<char>) -> Seq<char> {
    "The footnote \""@ + s + "\" does not end with a closing bracket."@
}

/// One scanner step of the footnote lexer at position `i`.  The end of an id,
/// cross-reference, or cite-break is its closing bracket; a citation ends at
/// `.`/`,`/`;` before a space or the closing footnote bracket, with brackets
/// and parentheses balanced; in plain text, `[@`, `[?`, and `[$` open a
/// citation, a cross-reference, and a cite-break, the first and last routing
/// the preceding text through the pre-citation lexer.
pub open spec fn fnote_step(
    s: Seq<char>,
    i: int,
    ctx: FnCtx,
    start: int,
    brackets: int,
    parens: int,
) -> Result<(Seq<TokenModel>, FnCtx, int, int, int), Seq<char>> {
    let c = s[i];
    if ctx is ID && c == ']' {
        let em: Seq<TokenModel> = if start <= i + 1 {
            seq![tok(TokenType::ID, s.subrange(start, i + 1))]
        } else {
            seq![]
        };
        Ok((em, FnCtx::Text, i + 1, brackets, parens))
    } else if ctx is CiteBreak && c == ']' {
        let em: Seq<TokenModel> = if start <= i + 1 {
            seq![tok(TokenType::CiteBreak, s.subrange(start, i + 1))]
        } else {
            seq![]
        };
        Ok((em, FnCtx::Text, i + 1, brackets, parens))
    } else if ctx is Citation {
        if (c == ' ' || c == ']') && i > 0 && (s[i - 1] == '.' || s[i - 1] == ',' || s[i - 1]
            == ';') && brackets == 0 && parens == 0 {
            let sub: Seq<char> = if start <= i {
                s.subrange(start, i)
            } else {
                seq![]
            };
            match cite_spec(sub) {
                Ok(ts) => Ok((ts, FnCtx::Text, i, brackets, parens)),
                Err(e) => Err(e),
            }
        } else if c == '[' {
            Ok((seq![], ctx, start, brackets + 1, parens))
        } else if c == ']' {
            Ok((seq![], ctx, start, brackets - 1, parens))
        } else if c == '(' {
            Ok((seq![], ctx, start, brackets, parens + 1))
        } else if c == ')' {
            Ok((seq![], ctx, start, brackets, parens - 1))
        } else {
            Ok((seq![], ctx, start, brackets, parens))
        }
    } else if ctx is CrossRef && c == ']' {
        let em: Seq<TokenModel> = if start <= i + 1 {
            seq![tok(TokenType::CrossRef, s.subrange(start, i + 1))]
        } else {
            seq![]
        };
        Ok((em, FnCtx::Text, i + 1, brackets, parens))
    } else if ctx is Text {
        if c == '@' && i > 0 && s[i - 1] == '[' {
            let em: Seq<TokenModel> = if start + 1 < i {
                pre_cite_spec(s.subrange(start, i - 1))
            } else {
                seq![]
            };
            Ok((em, FnCtx::Citation, i - 1, 1, 0))
        } else if c == '?' && i > 0 && s[i - 1] == '[' {
            let em: Seq<TokenModel> = if start + 1 <= i && !all_space(s.subrange(start, i - 1)) {
                seq![tok(TokenType::Text, s.subrange(start, i - 1))]
            } else {
                seq![]
            };
            Ok((em, FnCtx::CrossRef, i - 1, 1, 0))
        } else if c == '$' && i > 0 && s[i - 1] == '[' {
            let em: Seq<TokenModel> = if start + 1 < i {
                pre_cite_spec(s.subrange(start, i - 1))
            } else {
                seq![]
            };
            Ok((em, FnCtx::CiteBreak, i - 1, 1, 0))
        } else {
            Ok((seq![], ctx, start, brackets, parens))
        }
    } else {
        Ok((seq![], ctx, start, brackets, parens))
    }
}

/// What the footnote lexer does when the input ends: trailing text before the
/// closing bracket is flushed; anything else means the footnote is not closed.
pub open spec fn fnote_end(
    s: Seq<char>,
    i: int,
    st: (Seq<TokenModel>, FnCtx, int, int, int),
) -> Result<Seq<TokenModel>, Seq<char>> {
    if st.1 is Text && s[i] == ']' {
        let em: Seq<TokenModel> = if st.2 <= i && !all_space(s.subrange(st.2, i)) {
            seq![tok(TokenType::Text, s.subrange(st.2, i))]
        } else {
            seq![]
        };
        Ok(st.0 + em)
    } else {
        Err(fnote_err_msg(s))
    }
}

/// The tokens that the footnote lexer produces from position `i` onward,
/// given the current scanner state.
pub open spec fn fnote_from(
    s: Seq<char>,
    i: int,
    ctx: FnCtx,
    start: int,
    brackets: int,
    parens: int,
) -> Result<Seq<TokenModel>, Seq<char>>
    decreases s.len() - i,
{
    if i < 0 || i >= s.len() {
        Ok(seq![])
    } else {
        match fnote_step(s, i, ctx, start, brackets, parens) {
            Err(e) => Err(e),
            Ok(st) => {
                if i == s.len() - 1 {
                    fnote_end(s, i, st)
                } else {
                    cons_toks(st.0, fnote_from(s, i + 1, st.1, st.2, st.3, st.4))
                }
            },
        }
    }
}

/// The context in which the footnote lexer starts, read off the characters
/// just after the opening `^[`: an id, a citation, a cite-break, or text.
pub open spec fn fnote_init_ctx(s: Seq<char>) -> FnCtx {
    if s.len() > 3 && s[2] == '[' && s[3] == '?' {
        FnCtx::ID
    } else if s.len() > 3 && s[2] == '[' && s[3] == '@' {
        FnCtx::Citation
    } else if s.len() > 3 && s[2] == '[' && s[3] == '$' {
        FnCtx::CiteBreak
    } else {
        FnCtx::Text
    }
}

/// The tokens of a whole footnote span, `^[` and `]` included.  A citation
/// that begins immediately starts with one bracket already open.
pub open spec fn fnote_spec(s: Seq<char>) -> Result<Seq<TokenModel>, Seq<char>> {
    let ctx = fnote_init_ctx(s);
    let brackets: int = if ctx is Citation {
        -1
    } else {
        0
    };
    fnote_from(s, 0, ctx, 2, brackets, 0)
}

/// The footnote lexer over a character vector.
fn fnote_chars(v: &Vec<char>) -> (r: Result<Vec<Token>, String>)
    ensures
        match r {
            Ok(lex) => fnote_spec(v@) == Ok::<Seq<TokenModel>, Seq<char>>(toks(lex@)),
            Err(e) => fnote_spec(v@) == Err::<Seq<TokenModel>, Seq<char>>(e@),
        },
{
    let n: usize = v.len();
    let mut lex: Vec<Token> = Vec::new();
    let mut ctx: FnCtx = FnCtx::Text;
    let mut brackets: i128 = 0;
    if n > 3 && v[2] == '[' && v[3] == '?' {
        ctx = FnCtx::ID;
    } else if n > 3 && v[2] == '[' && v[3] == '@' {
        ctx = FnCtx::Citation;
        brackets = -1;
    } else if n > 3 && v[2] == '[' && v[3] == '$' {
        ctx = FnCtx::CiteBreak;
    }
    let mut start: usize = 2;
    let mut parens: i128 = 0;
    let mut i: usize = 0;
    proof {
        assert(ctx == fnote_init_ctx(v@));
        assert(cons_toks(toks(lex@), fnote_spec(v@)) == fnote_spec(v@)) by {
            assert(toks(lex@) =~= Seq::<TokenModel>::empty());
            match fnote_spec(v@) {
                Ok(ts) => {
                    assert(toks(lex@) + ts =~= ts);
                },
                Err(_) => {},
            }
        }
    }
    while i < n
        invariant
            n == v@.len(),
            i <= n,
            start <= i + 2,
            start <= n + 2,
            -(i as int) - 1 <= brackets as int <= i as int + 1,
            -(i as int) <= parens as int <= i as int,
            fnote_spec(v@) == cons_toks(
                toks(lex@),
                fnote_from(v@, i as int, ctx, start as int, brackets as int, parens as int),
            ),
        decreases n - i,
    {
        let ghost pre_toks = toks(lex@);
        let ghost ctx0 = ctx;
        let ghost start0 = start as int;
        let ghost brackets0 = brackets as int;
        let ghost parens0 = parens as int;
        let ghost stepr = fnote_step(v@, i as int, ctx0, start0, brackets0, parens0);
        let c = v[i];
        if ctx == FnCtx::ID && c == ']' {
            if start <= i + 1 {
                let ghost lex0 = lex@;
                let t = Token::new(TokenType::ID, seg_string(v, start, i + 1));
                lex.push(t);
                proof {
                    lemma_toks_push(lex0, t);
                }
            }
            ctx = FnCtx::Text;
            start = i + 1;
        } else if ctx == FnCtx::CiteBreak && c == ']' {
            if start <= i + 1 {
                let ghost lex0 = lex@;
                let t = Token::new(TokenType::CiteBreak, seg_string(v, start, i + 1));
                lex.push(t);
                proof {
                    lemma_toks_push(lex0, t);
                }
            }
            ctx = FnCtx::Text;
            start = i + 1;
        } else if ctx == FnCtx::Citation {
            if (c == ' ' || c == ']') && i > 0 && (v[i - 1] == '.' || v[i - 1] == ','
                || v[i - 1] == ';') && brackets == 0 && parens == 0 {
                let sub = if start <= i {
                    seg(v, start, i)
                } else {
                    Vec::new()
                };
                proof {
                    if start > i {
                        assert(sub@ =~= Seq::<char>::empty());
                    }
                }
                match cite_chars(&sub) {
                    Ok(mut ts) => {
                        let ghost lex0 = lex@;
                        let ghost tsg = ts@;
                        lex.append(&mut ts);
                        proof {
                            lemma_toks_concat(lex0, tsg);
                        }
                    },
                    Err(e) => {
                        return Err(e);
                    },
                }
                ctx = FnCtx::Text;
                start = i;
            } else if c == '[' {
                brackets = brackets + 1;
            } else if c == ']' {
                brackets = brackets - 1;
            } else if c == '(' {
                parens = parens + 1;
            } else if c == ')' {
                parens = parens - 1;
            }
        } else if ctx == FnCtx::CrossRef && c == ']' {
            if start <= i + 1 {
                let ghost lex0 = lex@;
                let t = Token::new(TokenType::CrossRef, seg_string(v, start, i + 1));
                lex.push(t);
                proof {
                    lemma_toks_push(lex0, t);
                }
            }
            ctx = FnCtx::Text;
            start = i + 1;
        } else if ctx == FnCtx::Text {
            if c == '@' && i > 0 && v[i - 1] == '[' {
                if start < i - 1 {
                    let sub = seg(v, start, i - 1);
                    let mut ts = pre_cite_chars(&sub);
                    let ghost lex0 = lex@;
                    let ghost tsg = ts@;
                    lex.append(&mut ts);
                    proof {
                        lemma_toks_concat(lex0, tsg);
                    }
                }
                ctx = FnCtx::Citation;
                brackets = 1;
                parens = 0;
                start = i - 1;
            } else if c == '?' && i > 0 && v[i - 1] == '[' {
                if start <= i - 1 && !seg_all_space(v, start, i - 1) {
                    let ghost lex0 = lex@;
                    let t = Token::new(TokenType::Text, seg_string(v, start, i - 1));
                    lex.push(t);
                    proof {
                        lemma_toks_push(lex0, t);
                    }
                }
                ctx = FnCtx::CrossRef;
                brackets = 1;
                parens = 0;
                start = i - 1;
            } else if c == '$' && i > 0 && v[i - 1] == '[' {
                if start < i - 1 {
                    let sub = seg(v, start, i - 1);
                    let mut ts = pre_cite_chars(&sub);
                    let ghost lex0 = lex@;
                    let ghost tsg = ts@;
                    lex.append(&mut ts);
                    proof {
                        lemma_toks_concat(lex0, tsg);
                    }
                }
                ctx = FnCtx::CiteBreak;
                brackets = 1;
                parens = 0;
                start = i - 1;
            }
        }
        proof {
            assert(stepr is Ok);
            let st = stepr->Ok_0;
            assert(toks(lex@) =~= pre_toks + st.0);
            assert(ctx == st.1 && start as int == st.2 && brackets as int == st.3
                && parens as int == st.4);
        }
        if i == n - 1 {
            let ghost st = stepr->Ok_0;
            proof {
                assert(fnote_from(v@, i as int, ctx0, start0, brackets0, parens0) == fnote_end(
                    v@,
                    i as int,
                    st,
                ));
            }
            if ctx == FnCtx::Text && c == ']' {
                if start <= i && !seg_all_space(v, start, i) {
                    let ghost lex0 = lex@;
                    let t = Token::new(TokenType::Text, seg_string(v, start, i));
                    lex.push(t);
                    proof {
                        lemma_toks_push(lex0, t);
                    }
                }
                proof {
                    match fnote_end(v@, i as int, st) {
                        Ok(ts) => {
                            assert(toks(lex@) =~= pre_toks + ts);
                        },
                        Err(_) => {
                            assert(false);
                        },
                    }
                }
                return Ok(lex);
            } else {
                let mut msg = String::from_str("The footnote \"");
                let body = string_of(v);
                msg.append(body.as_str());
                msg.append("\" does not end with a closing bracket.");
                return Err(msg);
            }
        }
        proof {
            let st = stepr->Ok_0;
            assert(fnote_from(v@, i as int, ctx0, start0, brackets0, parens0) == cons_toks(
                st.0,
                fnote_from(v@, i + 1, st.1, st.2, st.3, st.4),
            ));
            lemma_cons_toks_assoc(
                pre_toks,
                st.0,
                fnote_from(v@, i + 1, st.1, st.2, st.3, st.4),
            );
        }
        i = i + 1;
    }
    proof {
        match fnote_spec(v@) {
            Ok(ts) => {
                assert(toks(lex@) + Seq::<TokenModel>::empty() =~= toks(lex@));
            },
            Err(_) => {},
        }
    }
    Ok(lex)
}

/// Lex the contents of a footnote.
///
/// Lexes a whole footnote span (`^[` through `]`) into tokens: an optional
/// id, text, signals and pre-citation punctuation, citations, cite-breaks,
/// and cross-references.
pub fn footnote_lexer(input: &str) -> (r: Result<Vec<Token>, String>)
    ensures
        match r {
            Ok(lex) => fnote_spec(input@) == Ok::<Seq<TokenModel>, Seq<char>>(toks(lex@)),
            Err(e) => fnote_spec(input@) == Err::<Seq<TokenModel>, Seq<char>>(e@),
        },
{
    let v = chars_of(input);
    fnote_chars(&v)
}


/// The scanning context at the top level of a document.
#[derive(Debug, PartialEq, Eq, Structural, Clone, Copy)]
pub enum TxCtx {
    Text,
    Footnote,
}

/// The message for an input whose final footnote is never closed.
pub open spec fn open_fnote_msg() -> Seq<char> {
    "The input string ends with an open footnote.\nEnsure footnotes contain matching brackets before running."@
}

/// One scanner step of the text lexer at position `i`.  In plain text, `^[`
/// flushes the preceding text and opens a footnote; inside a footnote,
/// brackets are balanced until the closing `]`, and the whole span is handed
/// to the footnote lexer, wrapped in open- and close-footnote tokens.
pub open spec fn text_step(
    s: Seq<char>,
    i: int,
    ctx: TxCtx,
    start: int,
    brackets: int,
) -> Result<(Seq<TokenModel>, TxCtx, int, int), Seq<char>> {
    let c = s[i];
    if ctx is Text {
        if c == '[' && i > 0 && s[i - 1] == '^' {
            Ok(
                (
                    seq![tok(TokenType::Text, s.subrange(start, i - 1))],
                    TxCtx::Footnote,
                    i - 1,
                    0,
                ),
            )
        } else {
            Ok((seq![], ctx, start, brackets))
        }
    } else {
        if c == '[' {
            Ok((seq![], ctx, start, brackets + 1))
        } else if c == ']' && brackets > 0 {
            Ok((seq![], ctx, start, brackets - 1))
        } else if c == ']' {
            match fnote_spec(s.subrange(start, i + 1)) {
                Ok(ts) => Ok(
                    (
                        seq![tok(TokenType::OpenFootnote, "^["@)] + ts + seq![
                            tok(TokenType::CloseFootnote, "]"@),
                        ],
                        TxCtx::Text,
                        i + 1,
                        brackets,
                    ),
                ),
                Err(e) => Err(e),
            }
        } else {
            Ok((seq![], ctx, start, brackets))
        }
    }
}

/// What the text lexer does when the input ends: pending text is flushed, and
/// a still-open footnote is an error.  Nothing is flushed when the pending
/// region starts at the final position.
pub open spec fn text_end(
    s: Seq<char>,
    i: int,
    st: (Seq<TokenModel>, TxCtx, int, int),
) -> Result<Seq<TokenModel>, Seq<char>> {
    if st.2 != i {
        if st.1 is Text {
            Ok(st.0 + seq![tok(TokenType::Text, s.subrange(st.2, i + 1))])
        } else {
            Err(open_fnote_msg())
        }
    } else {
        Ok(st.0)
    }
}

/// The tokens that the text lexer produces from position `i` onward, given
/// the current scanner state.
pub open spec fn text_from(
    s: Seq<char>,
    i: int,
    ctx: TxCtx,
    start: int,
    brackets: int,
) -> Result<Seq<TokenModel>, Seq<char>>
    decreases s.len() - i,
{
    if i < 0 || i >= s.len() {
        Ok(seq![])
    } else {
        match text_step(s, i, ctx, start, brackets) {
            Err(e) => Err(e),
            Ok(st) => {
                if i == s.len() - 1 {
                    text_end(s, i, st)
                } else {
                    cons_toks(st.0, text_from(s, i + 1, st.1, st.2, st.3))
                }
            },
        }
    }
}

/// The token stream of a whole document.
pub open spec fn lex_spec(s: Seq<char>) -> Result<Seq<TokenModel>, Seq<char>> {
    let ctx = if s.len() >= 2 && s[0] == '^' && s[1] == '[' {
        TxCtx::Footnote
    } else {
        TxCtx::Text
    };
    text_from(s, 0, ctx, 0, 0)
}

/// The text lexer over a character vector.
fn text_chars(v: &Vec<char>) -> (r: Result<Vec<Token>, String>)
    ensures
        match r {
            Ok(lex) => lex_spec(v@) == Ok::<Seq<TokenModel>, Seq<char>>(toks(lex@)),
            Err(e) => lex_spec(v@) == Err::<Seq<TokenModel>, Seq<char>>(e@),
        },
{
    let n: usize = v.len();
    let mut lex: Vec<Token> = Vec::new();
    let mut ctx: TxCtx = TxCtx::Text;
    if n >= 2 && v[0] == '^' && v[1] == '[' {
        ctx = TxCtx::Footnote;
    }
    let mut start: usize = 0;
    let mut brackets: i128 = 0;
    let mut i: usize = 0;
    proof {
        assert(cons_toks(toks(lex@), lex_spec(v@)) == lex_spec(v@)) by {
            assert(toks(lex@) =~= Seq::<TokenModel>::empty());
            match lex_spec(v@) {
                Ok(ts) => {
                    assert(toks(lex@) + ts =~= ts);
                },
                Err(_) => {},
            }
        }
    }
    while i < n
        invariant
            n == v@.len(),
            i <= n,
            start <= i,
            ctx is Text ==> start == 0 || (start >= 1 && v@[start as int - 1] == ']'),
            -(i as int) <= brackets as int <= i as int,
            lex_spec(v@) == cons_toks(
                toks(lex@),
                text_from(v@, i as int, ctx, start as int, brackets as int),
            ),
        decreases n - i,
    {
        let ghost pre_toks = toks(lex@);
        let ghost ctx0 = ctx;
        let ghost start0 = start as int;
        let ghost brackets0 = brackets as int;
        let ghost stepr = text_step(v@, i as int, ctx0, start0, brackets0);
        let c = v[i];
        if ctx == TxCtx::Text {
            if c == '[' && i > 0 && v[i - 1] == '^' {
                // A footnote never opens right at the pending region's start:
                // the character before the `[` is a `^`, not the `]` or start
                // of input that the region begins after.
                assert(start < i);
                let ghost lex0 = lex@;
                let t = Token::new(TokenType::Text, seg_string(v, start, i - 1));
                lex.push(t);
                proof {
                    lemma_toks_push(lex0, t);
                }
                ctx = TxCtx::Footnote;
                brackets = 0;
                start = i - 1;
            }
        } else {
            if c == '[' {
                brackets = brackets + 1;
            } else if c == ']' && brackets > 0 {
                brackets = brackets - 1;
            } else if c == ']' {
                let sub = seg(v, start, i + 1);
                match fnote_chars(&sub) {
                    Ok(mut ts) => {
                        let ghost lex0 = lex@;
                        let t1 = Token::new(TokenType::OpenFootnote, String::from_str("^["));
                        lex.push(t1);
                        proof {
                            lemma_toks_push(lex0, t1);
                        }
                        let ghost lex1 = lex@;
                        let ghost tsg = ts@;
                        lex.append(&mut ts);
                        proof {
                            lemma_toks_concat(lex1, tsg);
                        }
                        let ghost lex2 = lex@;
                        let t2 = Token::new(TokenType::CloseFootnote, String::from_str("]"));
                        lex.push(t2);
                        proof {
                            lemma_toks_push(lex2, t2);
                        }
                    },
                    Err(e) => {
                        return Err(e);
                    },
                }
                ctx = TxCtx::Text;
                start = i + 1;
            }
        }
        proof {
            assert(stepr is Ok);
            let st = stepr->Ok_0;
            assert(toks(lex@) =~= pre_toks + st.0);
            assert(ctx == st.1 && start as int == st.2 && brackets as int == st.3);
        }
        if i == n - 1 {
            let ghost st = stepr->Ok_0;
            proof {
                assert(text_from(v@, i as int, ctx0, start0, brackets0) == text_end(
                    v@,
                    i as int,
                    st,
                ));
            }
            if start != i {
                if ctx == TxCtx::Text {
                    let ghost lex0 = lex@;
                    let t = Token::new(TokenType::Text, seg_string(v, start, i + 1));
                    lex.push(t);
                    proof {
                        lemma_toks_push(lex0, t);
                        match text_end(v@, i as int, st) {
                            Ok(ts) => {
                                assert(toks(lex@) =~= pre_toks + ts);
                            },
                            Err(_) => {
                                assert(false);
                            },
                        }
                    }
                    return Ok(lex);
                } else {
                    return Err(String::from_str(
                        "The input string ends with an open footnote.\nEnsure footnotes contain matching brackets before running.",
                    ));
                }
            }
            proof {
                match text_end(v@, i as int, st) {
                    Ok(ts) => {
                        assert(toks(lex@) =~= pre_toks + ts);
                    },
                    Err(_) => {
                        assert(false);
                    },
                }
            }
            return Ok(lex);
        }
        proof {
            let st = stepr->Ok_0;
            assert(text_from(v@, i as int, ctx0, start0, brackets0) == cons_toks(
                st.0,
                text_from(v@, i + 1, st.1, st.2, st.3),
            ));
            lemma_cons_toks_assoc(pre_toks, st.0, text_from(v@, i + 1, st.1, st.2, st.3));
        }
        i = i + 1;
    }
    proof {
        match lex_spec(v@) {
            Ok(ts) => {
                assert(toks(lex@) + Seq::<TokenModel>::empty() =~= toks(lex@));
            },
            Err(_) => {},
        }
    }
    Ok(lex)
}

/// The text lexer.
///
/// The first lexer pass: it scans for footnote spans and hands each to the
/// footnote lexer, and everything between them becomes plain text tokens.
pub fn text_lexer(input: &str) -> (r: Result<Vec<Token>, String>)
    ensures
        match r {
            Ok(lex) => lex_spec(input@) == Ok::<Seq<TokenModel>, Seq<char>>(toks(lex@)),
            Err(e) => lex_spec(input@) == Err::<Seq<TokenModel>, Seq<char>>(e@),
        },
{
    let v = chars_of(input);
    text_chars(&v)
}

/// The main lexer function.
pub fn lexer(input: &str) -> (r: Result<Vec<Token>, String>)
    ensures
        match r {
            Ok(lex) => lex_spec(input@) == Ok::<Seq<TokenModel>, Seq<char>>(toks(lex@)),
            Err(e) => lex_spec(input@) == Err::<Seq<TokenModel>, Seq<char>>(e@),
        },
{
    text_lexer(input)
}

} // verus!

