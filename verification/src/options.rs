//! Output options: the true-small-caps rewrite of bolded spans.

use crate::text::{chars_of, is_at, seg, string_of};
use vstd::prelude::*;

verus! {

/// The first position at or after `j` where a bold span starting earlier can
/// close: a `**` reached without crossing a line break.
pub open spec fn sc_close(s: Seq<char>, j: int) -> Option<int>
    decreases s.len() - j,
{
    if j < 0 || j + 2 > s.len() {
        None
    } else if is_at(s, "**"@, j) {
        Some(j)
    } else if s[j] == '\n' {
        None
    } else {
        sc_close(s, j + 1)
    }
}

/// Whether a bold span starts at `i`: a `**`, at least one character that is
/// not a line break, and a closing `**` on the same line.  When it does, the
/// position of the closing marker.
pub open spec fn sc_match_at(s: Seq<char>, i: int) -> Option<int> {
    if is_at(s, "**"@, i) && i + 2 < s.len() && s[i + 2] != '\n' {
        sc_close(s, i + 3)
    } else {
        None
    }
}

/// The first bold span starting at or after `i`: its start and the position
/// of its closing marker.
pub open spec fn sc_start(s: Seq<char>, i: int) -> Option<(int, int)>
    decreases s.len() - i,
{
    if !(0 <= i < s.len()) {
        None
    } else {
        match sc_match_at(s, i) {
            Some(j) => Some((i, j)),
            None => sc_start(s, i + 1),
        }
    }
}

proof fn lemma_sc_close_bounds(s: Seq<char>, j0: int, j: int)
    requires
        sc_close(s, j0) == Some(j),
    ensures
        j0 <= j,
        j + 2 <= s.len(),
        is_at(s, "**"@, j),
    decreases s.len() - j0,
{
    if !(j0 < 0 || j0 + 2 > s.len()) {
        if is_at(s, "**"@, j0) {
        } else if s[j0] == '\n' {
        } else {
            lemma_sc_close_bounds(s, j0 + 1, j);
        }
    }
}

proof fn lemma_sc_start_bounds(s: Seq<char>, i0: int, i: int, j: int)
    requires
        0 <= i0,
        sc_start(s, i0) == Some((i, j)),
    ensures
        i0 <= i,
        i + 3 <= j,
        j + 2 <= s.len(),
    decreases s.len() - i0,
{
    if 0 <= i0 < s.len() {
        match sc_match_at(s, i0) {
            Some(j1) => {
                lemma_sc_close_bounds(s, i0 + 3, j1);
            },
            None => {
                lemma_sc_start_bounds(s, i0 + 1, i, j);
            },
        }
    }
}

/// The text with every `**bold**` span on one line rewritten as a span with
/// the `True Small Caps` character style.
pub open spec fn smallcaps_spec(s: Seq<char>) -> Seq<char>
    decreases s.len(),
    via smallcaps_spec_dec
{
    match sc_start(s, 0) {
        None => s,
        Some((i, j)) => s.subrange(0, i) + "["@ + s.subrange(i + 2, j)
            + "]{custom-style=\"True Small Caps\"}"@ + smallcaps_spec(
            s.subrange(j + 2, s.len() as int),
        ),
    }
}

#[via_fn]
proof fn smallcaps_spec_dec(s: Seq<char>) {
    match sc_start(s, 0) {
        None => {},
        Some((i, j)) => {
            lemma_sc_start_bounds(s, 0, i, j);
        },
    }
}

fn sc_close_run(v: &Vec<char>, j: usize) -> (r: Option<usize>)
    ensures
        match r {
            Some(p) => sc_close(v@, j as int) == Some(p as int),
            None => sc_close(v@, j as int) is None,
        },
    decreases v@.len() - j,
{
    let n: usize = v.len();
    let pat = chars_of("**");
    proof {
        reveal_strlit("**");
    }
    if pat.len() > n || j > n - pat.len() {
        return None;
    }
    if crate::text::occurs_at(v, &pat, j) {
        Some(j)
    } else if v[j] == '\n' {
        None
    } else {
        sc_close_run(v, j + 1)
    }
}

fn sc_start_run(v: &Vec<char>, i: usize) -> (r: Option<(usize, usize)>)
    ensures
        match r {
            Some(p) => sc_start(v@, i as int) == Some((p.0 as int, p.1 as int)),
            None => sc_start(v@, i as int) is None,
        },
    decreases v@.len() - i,
{
    if i >= v.len() {
        return None;
    }
    let n: usize = v.len();
    let pat = chars_of("**");
    proof {
        reveal_strlit("**");
    }
    let here: Option<usize> = if pat.len() <= n && i <= n - pat.len() && crate::text::occurs_at(
        v,
        &pat,
        i,
    ) && i + 2 < n && v[i + 2] != '\n' {
        sc_close_run(v, i + 3)
    } else {
        None
    };
    match here {
        Some(j) => Some((i, j)),
        None => sc_start_run(v, i + 1),
    }
}

fn smallcaps_chars(v: &Vec<char>) -> (r: Vec<char>)
    ensures
        r@ == smallcaps_spec(v@),
    decreases v@.len(),
{
    match sc_start_run(v, 0) {
        None => seg(v, 0, v.len()),
        Some((i, j)) => {
            proof {
                lemma_sc_start_bounds(v@, 0, i as int, j as int);
            }
            let n: usize = v.len();
            let mut r = seg(v, 0, i);
            r.push('[');
            let mut mid = seg(v, i + 2, j);
            r.append(&mut mid);
            let mut style = chars_of("]{custom-style=\"True Small Caps\"}");
            r.append(&mut style);
            let rest = seg(v, j + 2, n);
            let mut tail = smallcaps_chars(&rest);
            r.append(&mut tail);
            proof {
                reveal_strlit("[");
                assert(r@ =~= smallcaps_spec(v@));
            }
            r
        },
    }
}

/// Change any bolded text to the Word custom style "True Small Caps".
pub fn smallcaps(input: &str) -> (r: String)
    ensures
        r@ == smallcaps_spec(input@),
{
    let v = chars_of(input);
    let out = smallcaps_chars(&v);
    string_of(&out)
}

} // verus!
