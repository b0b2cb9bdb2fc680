//! Utilities over character sequences: conversions between `String` and
//! `Vec<char>`, substring search and replacement, whitespace trimming, and
//! decimal formatting of integers.  Everything here is specified over
//! `Seq<char>` views.

use vstd::prelude::*;

verus! {

/// The Unicode `White_Space` characters, which is what `char::is_whitespace`
/// recognizes.
pub open spec fn is_space(c: char) -> bool {
    c == ' ' || c == '\t' || c == '\n' || c == '\r' || c == '\u{b}' || c == '\u{c}'
        || c == '\u{85}' || c == '\u{a0}' || c == '\u{1680}'
        || ('\u{2000}' <= c && c <= '\u{200a}')
        || c == '\u{2028}' || c == '\u{2029}' || c == '\u{202f}' || c == '\u{205f}'
        || c == '\u{3000}'
}

pub fn space_char(c: char) -> (b: bool)
    ensures
        b == is_space(c),
{
    c == ' ' || c == '\t' || c == '\n' || c == '\r' || c == '\u{b}' || c == '\u{c}'
        || c == '\u{85}' || c == '\u{a0}' || c == '\u{1680}'
        || ('\u{2000}' <= c && c <= '\u{200a}')
        || c == '\u{2028}' || c == '\u{2029}' || c == '\u{202f}' || c == '\u{205f}'
        || c == '\u{3000}'
}

/// Collect the characters of a string slice into a vector.
pub fn chars_of(s: &str) -> (r: Vec<char>)
    ensures
        r@ == s@,
{
    let n: usize = s.unicode_len();
    let mut r: Vec<char> = Vec::new();
    let mut i: usize = 0;
    while i < n
        invariant
            n == s@.len(),
            i <= n,
            r@ == s@.subrange(0, i as int),
        decreases n - i,
    {
        r.push(s.get_char(i));
        i = i + 1;
    }
    assert(s@.subrange(0, n as int) =~= s@);
    r
}

/// Relies on `String: FromIterator<char>`: collecting the characters of the
/// vector yields the string whose characters are exactly those of the vector.
#[verifier::external_body]
pub fn string_of(v: &Vec<char>) -> (s: String)
    ensures
        s@ == v@,
{
    v.iter().collect()
}

/// Copy of the characters of `v` between `a` (inclusive) and `b` (exclusive).
pub fn seg(v: &Vec<char>, a: usize, b: usize) -> (r: Vec<char>)
    requires
        a <= b <= v@.len(),
    ensures
        r@ == v@.subrange(a as int, b as int),
{
    let mut r: Vec<char> = Vec::new();
    let mut i: usize = a;
    while i < b
        invariant
            a <= i <= b <= v@.len(),
            r@ == v@.subrange(a as int, i as int),
        decreases b - i,
    {
        r.push(v[i]);
        i = i + 1;
    }
    r
}

/// The string `v` between `a` and `b`, as a `String`.
pub fn seg_string(v: &Vec<char>, a: usize, b: usize) -> (r: String)
    requires
        a <= b <= v@.len(),
    ensures
        r@ == v@.subrange(a as int, b as int),
{
    let piece = seg(v, a, b);
    string_of(&piece)
}

/// Whether the pattern `pat` occurs in `s` starting at index `i`.
pub open spec fn is_at(s: Seq<char>, pat: Seq<char>, i: int) -> bool {
    &&& 0 <= i
    &&& i + pat.len() <= s.len()
    &&& s.subrange(i, i + pat.len()) == pat
}

/// The first index at or after `from` where `pat` occurs in `s`.
pub open spec fn find_from(s: Seq<char>, pat: Seq<char>, from: int) -> Option<int>
    decreases s.len() - from + 1,
{
    if from < 0 || from + pat.len() > s.len() {
        None
    } else if is_at(s, pat, from) {
        Some(from)
    } else {
        find_from(s, pat, from + 1)
    }
}

pub open spec fn contains_sub(s: Seq<char>, pat: Seq<char>) -> bool {
    find_from(s, pat, 0) is Some
}

proof fn lemma_find_from_props(s: Seq<char>, pat: Seq<char>, from: int)
    requires
        0 <= from,
    ensures
        match find_from(s, pat, from) {
            Some(j) => from <= j && is_at(s, pat, j)
                && (forall|k: int| from <= k < j ==> !is_at(s, pat, k)),
            None => forall|k: int| from <= k ==> !is_at(s, pat, k),
        },
    decreases s.len() - from + 1,
{
    if from < 0 || from + pat.len() > s.len() {
        assert forall|k: int| from <= k implies !is_at(s, pat, k) by {
            assert(k + pat.len() > s.len());
        }
    } else if is_at(s, pat, from) {
    } else {
        lemma_find_from_props(s, pat, from + 1);
    }
}

/// Check whether `pat` occurs at position `i` of `v`.
pub fn occurs_at(v: &Vec<char>, pat: &Vec<char>, i: usize) -> (b: bool)
    requires
        i + pat@.len() <= v@.len(),
    ensures
        b == is_at(v@, pat@, i as int),
{
    let m: usize = pat.len();
    let n: usize = v.len();
    let mut k: usize = 0;
    while k < m
        invariant
            n == v@.len(),
            i + m <= n,
            m == pat@.len(),
            k <= m,
            v@.subrange(i as int, i + k) == pat@.subrange(0, k as int),
        decreases m - k,
    {
        if v[i + k] != pat[k] {
            assert(v@.subrange(i as int, i + m)[k as int] != pat@[k as int]);
            return false;
        }
        assert(v@.subrange(i as int, i + k + 1) =~= v@.subrange(i as int, i + k).push(
            v@[i + k],
        ));
        assert(pat@.subrange(0, k + 1) =~= pat@.subrange(0, k as int).push(pat@[k as int]));
        k = k + 1;
    }
    assert(pat@.subrange(0, m as int) =~= pat@);
    true
}

/// Find the first occurrence of `pat` in `v` at or after `from`.
pub fn find_sub(v: &Vec<char>, pat: &Vec<char>, from: usize) -> (r: Option<usize>)
    ensures
        match r {
            Some(j) => from <= j && Some(j as int) == find_from(v@, pat@, from as int),
            None => find_from(v@, pat@, from as int) is None,
        },
{
    let n: usize = v.len();
    let m: usize = pat.len();
    if m > n || from > n - m {
        return None;
    }
    if m == 0 {
        proof {
            assert(v@.subrange(from as int, from as int) =~= pat@);
        }
        return Some(from);
    }
    let mut i: usize = from;
    while i <= n - m
        invariant
            n == v@.len(),
            m == pat@.len(),
            0 < m <= n,
            from <= i,
            i <= n - m + 1,
            find_from(v@, pat@, from as int) == find_from(v@, pat@, i as int),
        decreases n - i,
    {
        if occurs_at(v, pat, i) {
            return Some(i);
        }
        assert(find_from(v@, pat@, i as int) == find_from(v@, pat@, i + 1));
        i = i + 1;
    }
    None
}

/// `s` with every occurrence of `pat` replaced by `rep`, scanning left to
/// right, as `str::replace` does.
pub open spec fn replace_all_spec(s: Seq<char>, pat: Seq<char>, rep: Seq<char>) -> Seq<char>
    decreases s.len(),
    via replace_all_spec_dec
{
    if pat.len() == 0 {
        s
    } else {
        match find_from(s, pat, 0) {
            None => s,
            Some(j) => s.subrange(0, j) + rep + replace_all_spec(
                s.subrange(j + pat.len(), s.len() as int),
                pat,
                rep,
            ),
        }
    }
}

#[via_fn]
proof fn replace_all_spec_dec(s: Seq<char>, pat: Seq<char>, rep: Seq<char>) {
    if pat.len() > 0 {
        match find_from(s, pat, 0) {
            Some(j) => {
                lemma_find_some_bounds(s, pat, 0, j);
            },
            None => {},
        }
    }
}

/// `s` with the first occurrence of `pat` (if any) replaced by `rep`.
pub open spec fn replace_first_spec(s: Seq<char>, pat: Seq<char>, rep: Seq<char>) -> Seq<char> {
    if pat.len() == 0 {
        s
    } else {
        match find_from(s, pat, 0) {
            None => s,
            Some(j) => s.subrange(0, j) + rep + s.subrange(j + pat.len(), s.len() as int),
        }
    }
}

pub proof fn lemma_find_some_bounds(s: Seq<char>, pat: Seq<char>, from: int, j: int)
    requires
        0 <= from,
        find_from(s, pat, from) == Some(j),
    ensures
        from <= j,
        j + pat.len() <= s.len(),
    decreases s.len() - from + 1,
{
    if from < 0 || from + pat.len() > s.len() {
    } else if is_at(s, pat, from) {
    } else {
        lemma_find_some_bounds(s, pat, from + 1, j);
    }
}

/// Replace every occurrence of `pat` in `v` by `rep`.
pub fn replace_all(v: &Vec<char>, pat: &Vec<char>, rep: &Vec<char>) -> (r: Vec<char>)
    ensures
        r@ == replace_all_spec(v@, pat@, rep@),
    decreases v@.len(),
{
    if pat.len() == 0 {
        return seg(v, 0, v.len());
    }
    match find_sub(v, pat, 0) {
        None => seg(v, 0, v.len()),
        Some(j) => {
            let n: usize = v.len();
            proof {
                lemma_find_some_bounds(v@, pat@, 0, j as int);
            }
            let mut r = seg(v, 0, j);
            let mut mid = seg(rep, 0, rep.len());
            r.append(&mut mid);
            let rest = seg(v, j + pat.len(), n);
            proof {
                assert(rest@.len() < v@.len());
            }
            let mut tail = replace_all(&rest, pat, rep);
            r.append(&mut tail);
            proof {
                assert(rep@.subrange(0, rep@.len() as int) =~= rep@);
                assert(r@ =~= replace_all_spec(v@, pat@, rep@));
            }
            r
        },
    }
}

/// Replace the first occurrence of `pat` in `v` by `rep`.
pub fn replace_first(v: &Vec<char>, pat: &Vec<char>, rep: &Vec<char>) -> (r: Vec<char>)
    ensures
        r@ == replace_first_spec(v@, pat@, rep@),
{
    if pat.len() == 0 {
        return seg(v, 0, v.len());
    }
    match find_sub(v, pat, 0) {
        None => seg(v, 0, v.len()),
        Some(j) => {
            let n: usize = v.len();
            proof {
                lemma_find_some_bounds(v@, pat@, 0, j as int);
            }
            let mut r = seg(v, 0, j);
            let mut mid = seg(rep, 0, rep.len());
            r.append(&mut mid);
            let mut tail = seg(v, j + pat.len(), n);
            r.append(&mut tail);
            proof {
                assert(rep@.subrange(0, rep@.len() as int) =~= rep@);
                assert(r@ =~= replace_first_spec(v@, pat@, rep@));
            }
            r
        },
    }
}

/// `s` without its leading whitespace.
pub open spec fn trim_front(s: Seq<char>) -> Seq<char>
    decreases s.len(),
{
    if s.len() > 0 && is_space(s[0]) {
        trim_front(s.drop_first())
    } else {
        s
    }
}

/// `s` without its trailing whitespace.
pub open spec fn trim_back(s: Seq<char>) -> Seq<char>
    decreases s.len(),
{
    if s.len() > 0 && is_space(s[s.len() - 1]) {
        trim_back(s.drop_last())
    } else {
        s
    }
}

/// `s` without leading and trailing whitespace, as `str::trim` yields.
pub open spec fn trim_spec(s: Seq<char>) -> Seq<char> {
    trim_back(trim_front(s))
}

proof fn lemma_trim_front_subrange(s: Seq<char>, i: int)
    requires
        0 <= i <= s.len(),
        forall|k: int| 0 <= k < i ==> is_space(s[k]),
    ensures
        trim_front(s) == trim_front(s.subrange(i, s.len() as int)),
    decreases i,
{
    if i > 0 {
        assert(s.len() > 0 && is_space(s[0]));
        assert(s.drop_first() =~= s.subrange(1, s.len() as int));
        let t = s.subrange(1, s.len() as int);
        lemma_trim_front_subrange(t, i - 1);
        assert(t.subrange(i - 1, t.len() as int) =~= s.subrange(i, s.len() as int));
    } else {
        assert(s.subrange(0, s.len() as int) =~= s);
    }
}

proof fn lemma_trim_back_subrange(s: Seq<char>, j: int)
    requires
        0 <= j <= s.len(),
        forall|k: int| j <= k < s.len() ==> is_space(s[k]),
    ensures
        trim_back(s) == trim_back(s.subrange(0, j)),
    decreases s.len() - j,
{
    if j < s.len() {
        assert(is_space(s[s.len() - 1]));
        assert(s.drop_last() =~= s.subrange(0, s.len() - 1));
        lemma_trim_back_subrange(s.subrange(0, s.len() - 1), j);
        assert(s.subrange(0, s.len() - 1).subrange(0, j) =~= s.subrange(0, j));
    } else {
        assert(s.subrange(0, s.len() as int) =~= s);
    }
}

/// Trim leading and trailing whitespace from `v`.
pub fn trim(v: &Vec<char>) -> (r: Vec<char>)
    ensures
        r@ == trim_spec(v@),
{
    let n: usize = v.len();
    let mut a: usize = 0;
    while a < n && space_char(v[a])
        invariant
            n == v@.len(),
            a <= n,
            forall|k: int| 0 <= k < a ==> is_space(v@[k]),
        decreases n - a,
    {
        a = a + 1;
    }
    proof {
        lemma_trim_front_subrange(v@, a as int);
    }
    let mut b: usize = n;
    while b > a && space_char(v[b - 1])
        invariant
            n == v@.len(),
            a <= b <= n,
            forall|k: int| b <= k < n ==> is_space(v@[k]),
        decreases b,
    {
        b = b - 1;
    }
    let ghost t = v@.subrange(a as int, n as int);
    proof {
        if a < n {
            assert(!is_space(v@[a as int]));
            assert(t[0] == v@[a as int]);
            assert(trim_front(t) == t);
        } else {
            assert(t.len() == 0);
            assert(trim_front(t) == t);
        }
        assert(trim_front(v@) == t);
        assert forall|k: int| (b - a) <= k < t.len() implies is_space(t[k]) by {
            assert(t[k] == v@[k + a]);
        }
        lemma_trim_back_subrange(t, b - a);
        assert(t.subrange(0, b - a) =~= v@.subrange(a as int, b as int));
        if b > a {
            assert(!is_space(v@[b - 1]));
            let u = v@.subrange(a as int, b as int);
            assert(u[u.len() - 1] == v@[b - 1]);
            assert(trim_back(u) == u);
        }
    }
    seg(v, a, b)
}

/// All characters of `s` are whitespace.
pub open spec fn all_space(s: Seq<char>) -> bool {
    forall|k: int| 0 <= k < s.len() ==> is_space(s[k])
}

/// Whether the characters of `v` between `a` and `b` are all whitespace;
/// equivalently, whether that segment trims to the empty string.
pub fn seg_all_space(v: &Vec<char>, a: usize, b: usize) -> (r: bool)
    requires
        a <= b <= v@.len(),
    ensures
        r == all_space(v@.subrange(a as int, b as int)),
{
    let mut i: usize = a;
    while i < b
        invariant
            a <= i <= b <= v@.len(),
            forall|k: int| a <= k < i ==> is_space(v@[k]),
        decreases b - i,
    {
        if !space_char(v[i]) {
            assert(!is_space(v@.subrange(a as int, b as int)[i - a]));
            return false;
        }
        i = i + 1;
    }
    assert forall|k: int| 0 <= k < b - a implies is_space(
        v@.subrange(a as int, b as int)[k],
    ) by {
        assert(v@.subrange(a as int, b as int)[k] == v@[k + a]);
    }
    true
}

proof fn lemma_trim_front_all_space(s: Seq<char>)
    ensures
        all_space(s) ==> trim_front(s).len() == 0,
        trim_front(s).len() == 0 ==> all_space(s),
        all_space(trim_front(s)) ==> all_space(s),
    decreases s.len(),
{
    if s.len() > 0 && is_space(s[0]) {
        lemma_trim_front_all_space(s.drop_first());
        assert forall|k: int|
            0 <= k < s.len() && all_space(s.drop_first()) implies is_space(s[k]) by {
            if k > 0 {
                assert(s.drop_first()[k - 1] == s[k]);
            }
        }
        if trim_front(s).len() == 0 {
            assert(all_space(s.drop_first()));
        }
        if all_space(s) {
            assert forall|k: int| 0 <= k < s.drop_first().len() implies is_space(
                s.drop_first()[k],
            ) by {
                assert(s.drop_first()[k] == s[k + 1]);
            }
        }
    }
}

/// A trimmed string is empty exactly when the original is all whitespace.
pub proof fn lemma_trim_empty_iff_all_space(s: Seq<char>)
    ensures
        trim_spec(s).len() == 0 <==> all_space(s),
{
    lemma_trim_front_all_space(s);
    if trim_spec(s).len() == 0 {
        lemma_trim_back_all_space(trim_front(s));
    }
}

proof fn lemma_trim_back_all_space(s: Seq<char>)
    ensures
        trim_back(s).len() == 0 ==> all_space(s),
    decreases s.len(),
{
    if s.len() > 0 && is_space(s[s.len() - 1]) {
        lemma_trim_back_all_space(s.drop_last());
        if trim_back(s).len() == 0 {
            assert forall|k: int| 0 <= k < s.len() implies is_space(s[k]) by {
                if k < s.len() - 1 {
                    assert(s.drop_last()[k] == s[k]);
                }
            }
        }
    }
}


/// A string that does not contain `pat` has no position where `pat` occurs.
pub proof fn lemma_not_contains(s: Seq<char>, pat: Seq<char>)
    requires
        !contains_sub(s, pat),
    ensures
        forall|j: int| !is_at(s, pat, j),
{
    lemma_find_from_props(s, pat, 0);
    assert forall|j: int| true implies !is_at(s, pat, j) by {
        if is_at(s, pat, j) {
            assert(0 <= j);
        }
    }
}

/// A string whose prefix is `pat` contains `pat`.
pub proof fn lemma_has_prefix(s: Seq<char>, pat: Seq<char>)
    requires
        pat.len() > 0,
        pat.len() <= s.len(),
        s.subrange(0, pat.len() as int) == pat,
    ensures
        contains_sub(s, pat),
{
    assert(is_at(s, pat, 0));
    assert(find_from(s, pat, 0) is Some);
}

/// The digit character for `d`.
pub open spec fn digit_char(d: int) -> char {
    if d == 0 { '0' } else if d == 1 { '1' } else if d == 2 { '2' } else if d == 3 { '3' }
    else if d == 4 { '4' } else if d == 5 { '5' } else if d == 6 { '6' } else if d == 7 { '7' }
    else if d == 8 { '8' } else { '9' }
}

/// The decimal representation of a non-negative integer.
pub open spec fn dec_str(n: int) -> Seq<char>
    decreases n,
{
    if n < 10 {
        seq![digit_char(n)]
    } else {
        dec_str(n / 10) + seq![digit_char(n % 10)]
    }
}

/// The decimal representation of an `i32`, with a leading minus sign when
/// negative, as `i32::to_string` yields.
pub open spec fn int_str(n: int) -> Seq<char> {
    if n < 0 {
        seq!['-'] + dec_str(-n)
    } else {
        dec_str(n)
    }
}

fn push_dec(n: u32, out: &mut Vec<char>)
    ensures
        final(out)@ == old(out)@ + dec_str(n as int),
    decreases n,
{
    if n < 10 {
        let d: char = match n {
            0 => '0', 1 => '1', 2 => '2', 3 => '3', 4 => '4',
            5 => '5', 6 => '6', 7 => '7', 8 => '8', _ => '9',
        };
        out.push(d);
        assert(out@ =~= old(out)@ + dec_str(n as int));
    } else {
        push_dec(n / 10, out);
        let r: u32 = n % 10;
        let d: char = match r {
            0 => '0', 1 => '1', 2 => '2', 3 => '3', 4 => '4',
            5 => '5', 6 => '6', 7 => '7', 8 => '8', _ => '9',
        };
        out.push(d);
        assert(out@ =~= old(out)@ + dec_str(n as int));
    }
}

/// The decimal form of `n`, as a `String`.
pub fn int_to_string(n: i32) -> (r: String)
    ensures
        r@ == int_str(n as int),
{
    let mut out: Vec<char> = Vec::new();
    if n < 0 {
        out.push('-');
        let m: u32 = if n == i32::MIN {
            2147483648u32
        } else {
            (-n) as u32
        };
        assert(m == -(n as int));
        push_dec(m, &mut out);
    } else {
        push_dec(n as u32, &mut out);
    }
    string_of(&out)
}

/// The decimal form of `n`, as a `String`.
pub fn u32_to_string(n: u32) -> (r: String)
    ensures
        r@ == dec_str(n as int),
{
    let mut out: Vec<char> = Vec::new();
    push_dec(n, &mut out);
    string_of(&out)
}

/// Whether two character vectors hold the same characters.
pub fn eq_chars(a: &Vec<char>, b: &Vec<char>) -> (r: bool)
    ensures
        r == (a@ == b@),
{
    if a.len() != b.len() {
        return false;
    }
    let r = occurs_at(a, b, 0);
    proof {
        if is_at(a@, b@, 0) {
            assert(a@.subrange(0, b@.len() as int) =~= a@);
        } else {
            if a@ == b@ {
                assert(a@.subrange(0, b@.len() as int) =~= b@);
            }
        }
    }
    r
}

/// Vector of the characters of a string slice's view.
pub fn chars_of_string(s: &String) -> (r: Vec<char>)
    ensures
        r@ == s@,
{
    chars_of(s.as_str())
}

} // verus!
