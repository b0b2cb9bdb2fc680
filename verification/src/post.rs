//! Post-processing text transforms over the converted document's XML parts:
//! the author note, tabbed footnotes, non-superscript footnote numbers, and
//! the running header.

use crate::text::{
    chars_of, chars_of_string, is_at, is_space, replace_all, replace_all_spec, replace_first,
    replace_first_spec, seg, space_char, string_of, trim_back,
};
use vstd::prelude::*;

verus! {

/// The last whitespace-separated word of a name, or the whole name when it
/// has no words.
pub open spec fn last_word(s: Seq<char>) -> Seq<char> {
    let t = trim_back(s);
    if t.len() == 0 {
        s
    } else {
        t.subrange(word_start(t, t.len() as int), t.len() as int)
    }
}

/// The start of the run of non-whitespace characters that ends at `b`.
pub open spec fn word_start(s: Seq<char>, b: int) -> int
    decreases b,
{
    if b > 0 && 0 <= b - 1 < s.len() && !is_space(s[b - 1]) {
        word_start(s, b - 1)
    } else {
        b
    }
}

proof fn lemma_word_start_bounds(s: Seq<char>, b: int)
    requires
        0 <= b,
    ensures
        0 <= word_start(s, b) <= b,
    decreases b,
{
    if b > 0 && 0 <= b - 1 < s.len() && !is_space(s[b - 1]) {
        lemma_word_start_bounds(s, b - 1);
    }
}

fn find_word_start(v: &Vec<char>, b: usize) -> (a: usize)
    requires
        b <= v@.len(),
    ensures
        a as int == word_start(v@, b as int),
        a <= b,
    decreases b,
{
    if b > 0 && !space_char(v[b - 1]) {
        find_word_start(v, b - 1)
    } else {
        b
    }
}

/// The last word of a name, as the author-note marker looks it up.
fn last_word_run(name: &str) -> (r: String)
    ensures
        r@ == last_word(name@),
{
    let v = chars_of(name);
    // Only the trailing whitespace matters for the last word.
    let mut b: usize = v.len();
    while b > 0 && space_char(v[b - 1])
        invariant
            b <= v@.len(),
            forall|k: int| b <= k < v@.len() ==> is_space(v@[k]),
        decreases b,
    {
        b = b - 1;
    }
    proof {
        lemma_trim_back_is_prefix(v@, b as int);
    }
    if b == 0 {
        string_of(&v)
    } else {
        let a = find_word_start(&v, b);
        proof {
            let t = trim_back(v@);
            lemma_word_start_prefix(v@, b as int, b as int);
            lemma_word_start_bounds(t, b as int);
            assert(t.subrange(word_start(t, b as int), b as int) =~= v@.subrange(
                word_start(v@, b as int),
                b as int,
            ));
        }
        crate::text::seg_string(&v, a, b)
    }
}

/// `word_start` looks only at characters before `b`, so it agrees between a
/// string and its prefix of length at least `b`.
proof fn lemma_word_start_prefix(s: Seq<char>, cut: int, b: int)
    requires
        0 <= b <= cut <= s.len(),
    ensures
        word_start(s.subrange(0, cut), b) == word_start(s, b),
    decreases b,
{
    let t = s.subrange(0, cut);
    if b > 0 && !is_space(s[b - 1]) {
        lemma_word_start_prefix(s, cut, b - 1);
    }
}

proof fn lemma_trim_back_is_prefix(s: Seq<char>, b: int)
    requires
        0 <= b <= s.len(),
        forall|k: int| b <= k < s.len() ==> is_space(s[k]),
        b > 0 ==> !is_space(s[b - 1]),
    ensures
        trim_back(s) == s.subrange(0, b),
    decreases s.len() - b,
{
    if b < s.len() {
        assert(s.drop_last() =~= s.subrange(0, s.len() - 1));
        lemma_trim_back_is_prefix(s.subrange(0, s.len() - 1), b);
        assert(s.subrange(0, s.len() - 1).subrange(0, b) =~= s.subrange(0, b));
    } else {
        if s.len() > 0 {
            assert(!is_space(s[s.len() - 1]));
        }
        assert(s.subrange(0, s.len() as int) =~= s);
    }
}

/// The marker spliced after the author's name in the document part.
pub open spec fn mark_tail_spec() -> Seq<char> {
    "</w:t></w:r><w:r><w:rPr><w:rStyle w:val=\"FootnoteReference\" /></w:rPr><w:footnoteReference w:customMarkFollows=\"1\" w:id=\"1\"/><w:t>*</w:t></w:r>"@
}

/// The document with a star-note marker added after the first occurrence of
/// the author's last name at the end of a text run.
pub open spec fn add_mark_spec(doc: Seq<char>, name: Seq<char>) -> Seq<char> {
    replace_first_spec(
        doc,
        last_word(name) + "</w:t></w:r>"@,
        last_word(name) + mark_tail_spec(),
    )
}

/// Add the star note to the author's name.
pub fn add_mark(doc: String, name: &str) -> (r: Result<String, String>)
    ensures
        r matches Ok(d) && d@ == add_mark_spec(doc@, name@),
{
    let last_name = last_word_run(name);
    let mut find = chars_of_string(&last_name);
    let mut tail = chars_of("</w:t></w:r>");
    find.append(&mut tail);
    let mut rep = chars_of_string(&last_name);
    let mut marker = chars_of(
        "</w:t></w:r><w:r><w:rPr><w:rStyle w:val=\"FootnoteReference\" /></w:rPr><w:footnoteReference w:customMarkFollows=\"1\" w:id=\"1\"/><w:t>*</w:t></w:r>",
    );
    rep.append(&mut marker);
    let dv = chars_of_string(&doc);
    let out = replace_first(&dv, &find, &rep);
    Ok(string_of(&out))
}

/// The end of the run of decimal digits that starts at `d`.
pub open spec fn digit_run_end(s: Seq<char>, d: int) -> int
    decreases s.len() - d,
{
    if 0 <= d < s.len() && '0' <= s[d] && s[d] <= '9' {
        digit_run_end(s, d + 1)
    } else {
        d
    }
}

/// Whether a footnote element with a positive decimal id opens at `j`.
pub open spec fn fnote_elem_at(s: Seq<char>, j: int) -> bool {
    let p = "<w:footnote w:id=\""@;
    &&& is_at(s, p, j)
    &&& j + p.len() < s.len()
    &&& '1' <= s[j + p.len()] && s[j + p.len()] <= '9'
    &&& is_at(s, "\">"@, digit_run_end(s, j + p.len() + 1))
}

/// The first position at or after `j` where a footnote element opens.
pub open spec fn fnote_elem_find(s: Seq<char>, j: int) -> Option<int>
    decreases s.len() - j,
{
    if !(0 <= j < s.len()) {
        None
    } else if fnote_elem_at(s, j) {
        Some(j)
    } else {
        fnote_elem_find(s, j + 1)
    }
}

/// The author footnote inserted before the first numbered footnote element,
/// which is renumbered out of the way.
pub open spec fn note_elem_spec(note: Seq<char>) -> Seq<char> {
    "<w:footnote w:id=\"1\"><w:p><w:pPr><w:pStyle w:val=\"FootnoteText\"/></w:pPr><w:r><w:rPr><w:rStyle w:val=\"FootnoteReference\" /></w:rPr><w:t>*</w:t></w:r><w:r><w:t xml:space=\"preserve\"> </w:t></w:r><w:r><w:t xml:space=\"preserve\">"@
        + note + "</w:t></w:r></w:p></w:footnote><w:footnote w:id=\"20\">"@
}

/// The footnotes part with the author note's contents added in place of the
/// first numbered footnote element's opening tag.
pub open spec fn add_note_spec(fns: Seq<char>, note: Seq<char>) -> Seq<char> {
    match fnote_elem_find(fns, 0) {
        None => fns,
        Some(j) => {
            let e = digit_run_end(fns, j + "<w:footnote w:id=\""@.len() + 1);
            fns.subrange(0, j) + note_elem_spec(note) + fns.subrange(e + 2, fns.len() as int)
        },
    }
}

proof fn lemma_digit_run_bounds(s: Seq<char>, d: int)
    requires
        0 <= d,
    ensures
        d <= digit_run_end(s, d) <= if s.len() >= d {
            s.len() as int
        } else {
            d
        },
    decreases s.len() - d,
{
    if 0 <= d < s.len() && '0' <= s[d] && s[d] <= '9' {
        lemma_digit_run_bounds(s, d + 1);
    }
}

fn digit_run_end_run(v: &Vec<char>, d: usize) -> (e: usize)
    requires
        d <= v@.len(),
    ensures
        e as int == digit_run_end(v@, d as int),
        d <= e <= v@.len(),
    decreases v@.len() - d,
{
    if d < v.len() && '0' <= v[d] && v[d] <= '9' {
        digit_run_end_run(v, d + 1)
    } else {
        d
    }
}

fn fnote_elem_here(v: &Vec<char>, j: usize) -> (b: bool)
    requires
        j < v@.len(),
    ensures
        b == fnote_elem_at(v@, j as int),
{
    let p = chars_of("<w:footnote w:id=\"");
    let q = chars_of("\">");
    let n: usize = v.len();
    if p.len() > n || j > n - p.len() {
        return false;
    }
    if !crate::text::occurs_at(v, &p, j) {
        return false;
    }
    if j + p.len() >= n {
        return false;
    }
    let d0 = v[j + p.len()];
    if !('1' <= d0 && d0 <= '9') {
        return false;
    }
    let e = digit_run_end_run(v, j + p.len() + 1);
    if q.len() > n || e > n - q.len() {
        proof {
            assert(!is_at(v@, "\">"@, e as int));
        }
        return false;
    }
    crate::text::occurs_at(v, &q, e)
}

fn fnote_elem_find_run(v: &Vec<char>, j: usize) -> (r: Option<usize>)
    ensures
        match r {
            Some(p) => fnote_elem_find(v@, j as int) == Some(p as int) && p < v@.len()
                && fnote_elem_at(v@, p as int),
            None => fnote_elem_find(v@, j as int) is None,
        },
    decreases v@.len() - j,
{
    if j >= v.len() {
        None
    } else if fnote_elem_here(v, j) {
        Some(j)
    } else {
        fnote_elem_find_run(v, j + 1)
    }
}

/// Add the contents of the author note.
pub fn add_note(fns: String, note: &str) -> (r: Result<String, String>)
    ensures
        r matches Ok(f) && f@ == add_note_spec(fns@, note@),
{
    let v = chars_of_string(&fns);
    match fnote_elem_find_run(&v, 0) {
        None => Ok(fns),
        Some(j) => {
            let p = chars_of("<w:footnote w:id=\"");
            let n: usize = v.len();
            proof {
                reveal_strlit("<w:footnote w:id=\"");
                assert(fnote_elem_at(v@, j as int));
                lemma_digit_run_bounds(v@, j + p@.len() + 1);
                reveal_strlit("\">");
            }
            let e = digit_run_end_run(&v, j + p.len() + 1);
            let mut out = seg(&v, 0, j);
            let mut head = chars_of(
                "<w:footnote w:id=\"1\"><w:p><w:pPr><w:pStyle w:val=\"FootnoteText\"/></w:pPr><w:r><w:rPr><w:rStyle w:val=\"FootnoteReference\" /></w:rPr><w:t>*</w:t></w:r><w:r><w:t xml:space=\"preserve\"> </w:t></w:r><w:r><w:t xml:space=\"preserve\">",
            );
            out.append(&mut head);
            let mut nv = chars_of(note);
            out.append(&mut nv);
            let mut tail = chars_of(
                "</w:t></w:r></w:p></w:footnote><w:footnote w:id=\"20\">",
            );
            out.append(&mut tail);
            let mut rest = seg(&v, e + 2, n);
            out.append(&mut rest);
            proof {
                assert(out@ =~= add_note_spec(fns@, note@));
            }
            Ok(string_of(&out))
        },
    }
}

/// What the author-note pass yields: the star marker in the document part,
/// and the note's contents in the footnotes part.
pub open spec fn author_note_spec(
    doc: Seq<char>,
    fns: Seq<char>,
    name: Seq<char>,
    note: Seq<char>,
) -> (Seq<char>, Seq<char>) {
    (add_mark_spec(doc, name), add_note_spec(fns, note))
}

/// Add an author note: a star marker after the author's name in the
/// document, and the note itself as an unnumbered first footnote.
pub fn author_note(doc: String, fns: String, name: String, note: String) -> (r: Result<
    (String, String),
    String,
>)
    ensures
        r matches Ok(p) && (p.0@, p.1@) == author_note_spec(doc@, fns@, name@, note@),
{
    let ghost d0 = doc@;
    let ghost f0 = fns@;
    let doc2 = match add_mark(doc, name.as_str()) {
        Ok(d) => d,
        Err(e) => {
            proof {
                assert(false);
            }
            return Err(e);
        },
    };
    let fns2 = match add_note(fns, note.as_str()) {
        Ok(f) => f,
        Err(e) => {
            proof {
                assert(false);
            }
            return Err(e);
        },
    };
    Ok((doc2, fns2))
}

/// The footnotes part with the space after each footnote number replaced by
/// a tab.
pub open spec fn tabbed_footnotes_spec(fns: Seq<char>) -> Seq<char> {
    replace_all_spec(
        fns,
        "\n</w:r><w:r><w:t xml:space=\"preserve\"> </w:t></w:r>"@,
        "</w:r><w:r><w:tab/></w:r>"@,
    )
}

/// Replace the space after each footnote number with a tab.
pub fn tabbed_footnotes(fns: String) -> (r: Result<String, String>)
    ensures
        r matches Ok(f) && f@ == tabbed_footnotes_spec(fns@),
{
    let v = chars_of_string(&fns);
    let find = chars_of("\n</w:r><w:r><w:t xml:space=\"preserve\"> </w:t></w:r>");
    let rep = chars_of("</w:r><w:r><w:tab/></w:r>");
    let out = replace_all(&v, &find, &rep);
    Ok(string_of(&out))
}

/// The footnotes part with the author footnote's marker space replaced by a
/// tab.
pub open spec fn tabbed_author_footnote_spec(fns: Seq<char>) -> Seq<char> {
    replace_first_spec(
        fns,
        "</w:t></w:r><w:r><w:t xml:space=\"preserve\"> </w:t>"@,
        "</w:t></w:r><w:r><w:tab/>"@,
    )
}

/// Replace the space after the author footnote's marker with a tab.
pub fn tabbed_author_footnote(fns: String) -> (r: Result<String, String>)
    ensures
        r matches Ok(f) && f@ == tabbed_author_footnote_spec(fns@),
{
    let v = chars_of_string(&fns);
    let find = chars_of("</w:t></w:r><w:r><w:t xml:space=\"preserve\"> </w:t>");
    let rep = chars_of("</w:t></w:r><w:r><w:tab/>");
    let out = replace_first(&v, &find, &rep);
    Ok(string_of(&out))
}

/// The footnotes part with footnote numbers made non-superscript.
pub open spec fn no_superscript_spec(fns: Seq<char>) -> Seq<char> {
    replace_all_spec(
        fns,
        "<w:rStyle w:val=\"FootnoteReference\" />"@,
        "<w:rStyle w:val=\"FootnoteReference\"/><w:vertAlign w:val=\"baseline\"/>"@,
    )
}

/// Make footnote numbers non-superscript in the footnotes.
pub fn no_superscript(fns: String) -> (r: Result<String, String>)
    ensures
        r matches Ok(f) && f@ == no_superscript_spec(fns@),
{
    let v = chars_of_string(&fns);
    let find = chars_of("<w:rStyle w:val=\"FootnoteReference\" />");
    let rep = chars_of("<w:rStyle w:val=\"FootnoteReference\"/><w:vertAlign w:val=\"baseline\"/>");
    let out = replace_all(&v, &find, &rep);
    Ok(string_of(&out))
}

/// The first position at or after `j` where a bracketed placeholder closes:
/// a `]` reached without crossing a line break.
pub open spec fn rh_close(s: Seq<char>, j: int) -> Option<int>
    decreases s.len() - j,
{
    if !(0 <= j < s.len()) {
        None
    } else if s[j] == ']' {
        Some(j)
    } else if s[j] == '\n' {
        None
    } else {
        rh_close(s, j + 1)
    }
}

/// The first bracketed placeholder starting at or after `i`: its start and
/// the position of its closing bracket, at least one character apart.
pub open spec fn rh_start(s: Seq<char>, i: int) -> Option<(int, int)>
    decreases s.len() - i,
{
    if !(0 <= i < s.len()) {
        None
    } else if s[i] == '[' && i + 1 < s.len() && s[i + 1] != '\n' && rh_close(s, i + 2) is Some {
        Some((i, rh_close(s, i + 2)->Some_0))
    } else {
        rh_start(s, i + 1)
    }
}

proof fn lemma_rh_close_bounds(s: Seq<char>, j0: int, j: int)
    requires
        0 <= j0,
        rh_close(s, j0) == Some(j),
    ensures
        j0 <= j < s.len(),
    decreases s.len() - j0,
{
    if 0 <= j0 < s.len() && !(s[j0] == ']') && !(s[j0] == '\n') {
        lemma_rh_close_bounds(s, j0 + 1, j);
    }
}

/// The header part with its first bracketed placeholder replaced by the
/// running title.
pub open spec fn rh_replace_spec(h: Seq<char>, title: Seq<char>) -> Seq<char> {
    match rh_start(h, 0) {
        None => h,
        Some((i, j)) => h.subrange(0, i) + title + h.subrange(j + 1, h.len() as int),
    }
}

fn rh_close_run(v: &Vec<char>, j: usize) -> (r: Option<usize>)
    ensures
        match r {
            Some(p) => rh_close(v@, j as int) == Some(p as int) && p < v@.len(),
            None => rh_close(v@, j as int) is None,
        },
    decreases v@.len() - j,
{
    if j >= v.len() {
        None
    } else if v[j] == ']' {
        Some(j)
    } else if v[j] == '\n' {
        None
    } else {
        rh_close_run(v, j + 1)
    }
}

fn rh_start_run(v: &Vec<char>, i: usize) -> (r: Option<(usize, usize)>)
    ensures
        match r {
            Some(p) => rh_start(v@, i as int) == Some((p.0 as int, p.1 as int)) && p.0 < v@.len()
                && p.1 < v@.len(),
            None => rh_start(v@, i as int) is None,
        },
    decreases v@.len() - i,
{
    if i >= v.len() {
        return None;
    }
    if v[i] == '[' && i + 1 < v.len() && v[i + 1] != '\n' {
        match rh_close_run(v, i + 2) {
            Some(j) => {
                return Some((i, j));
            },
            None => {},
        }
    }
    rh_start_run(v, i + 1)
}

/// Replace a header's bracketed placeholder with the running title.
fn rh_replace(h: &String, title: &String) -> (r: String)
    ensures
        r@ == rh_replace_spec(h@, title@),
{
    let v = chars_of_string(h);
    match rh_start_run(&v, 0) {
        None => h.clone(),
        Some((i, j)) => {
            let n: usize = v.len();
            let mut out = seg(&v, 0, i);
            let mut tv = chars_of_string(title);
            out.append(&mut tv);
            let mut rest = seg(&v, j + 1, n);
            out.append(&mut rest);
            proof {
                assert(out@ =~= rh_replace_spec(h@, title@));
            }
            string_of(&out)
        },
    }
}

/// What the running-header pass yields: the title in both headers, and the
/// year in place of the second header's date placeholder.
pub open spec fn running_header_spec(
    h1: Seq<char>,
    h2: Seq<char>,
    title: Seq<char>,
    year: Seq<char>,
) -> (Seq<char>, Seq<char>) {
    (
        rh_replace_spec(h1, title),
        replace_first_spec(rh_replace_spec(h2, title), "date"@, year),
    )
}

/// Add a year and running title to the headers.
pub fn running_header(h1: String, h2: String, title: String, year: String) -> (r: Result<
    (String, String),
    String,
>)
    ensures
        r matches Ok(p) && (p.0@, p.1@) == running_header_spec(h1@, h2@, title@, year@),
{
    let h1b = rh_replace(&h1, &title);
    let h2a = rh_replace(&h2, &title);
    let v = chars_of_string(&h2a);
    let find = chars_of("date");
    let yv = chars_of_string(&year);
    let out = replace_first(&v, &find, &yv);
    let h2b = string_of(&out);
    Ok((h1b, h2b))
}

} // verus!
