//! Tools for assembling citation strings: author formatting, titles and
//! reverse italicization, volumes, pages, parentheticals, and journal-name
//! abbreviation.

use crate::csljson::{names_model, CSLSource, CslModel, NameModel, NameVariable};
use crate::sourcemap::SourceType;
use crate::text::{
    chars_of, chars_of_string, is_at, is_space, occurs_at, seg, space_char, string_of, trim,
    trim_spec,
};
use crate::userjournals::{journal_lookup, lookup_user_journal, uj_model, UserJournals};
use vstd::prelude::*;

verus! {

broadcast use vstd::std_specs::vec::group_vec_axioms, vstd::seq::group_seq_axioms;

/// Markdown bolding around a string.
pub open spec fn bold_spec(s: Seq<char>) -> Seq<char> {
    "**"@ + s + "**"@
}

/// Adds markdown bolding to a string.
pub fn bold(in_string: &str) -> (r: String)
    ensures
        r@ == bold_spec(in_string@),
{
    let mut r = String::from_str("**");
    r.append(in_string);
    r.append("**");
    r
}

/// One author's full name: given name, non-dropping particle, family name,
/// and suffix, with `Jr.` and `Sr.` suffixes set off by a comma.
pub open spec fn name_part(n: NameModel) -> Seq<char> {
    let given: Seq<char> = match n.given {
        Some(g) => g + " "@,
        None => Seq::empty(),
    };
    let ndp: Seq<char> = match n.non_dropping_particle {
        Some(p) => p + " "@,
        None => Seq::empty(),
    };
    let family: Seq<char> = match n.family {
        Some(f) => f,
        None => Seq::empty(),
    };
    let suffix: Seq<char> = match n.suffix {
        Some(s) => if s == "Jr."@ || s == "Sr."@ {
            ", "@ + s
        } else {
            " "@ + s
        },
        None => Seq::empty(),
    };
    given + ndp + family + suffix
}

/// The separator after the author at index `k` of `len` authors: `, ` between
/// early authors and ` & ` before the last.
pub open spec fn name_sep(k: int, len: int) -> Seq<char> {
    if len > 1 && k < len - 2 {
        ", "@
    } else if len > 1 && k == len - 2 {
        " & "@
    } else {
        Seq::empty()
    }
}

/// The full author list from index `k` on.
pub open spec fn long_author_from(names: Seq<NameModel>, k: int) -> Seq<char>
    decreases names.len() - k,
{
    if k < 0 || k >= names.len() {
        Seq::empty()
    } else {
        name_part(names[k]) + name_sep(k, names.len() as int) + long_author_from(names, k + 1)
    }
}

/// The full author list: every author's full name, comma-separated, with an
/// ampersand before the last.
pub open spec fn long_author_spec(names: Seq<NameModel>) -> Seq<char> {
    long_author_from(names, 0)
}

/// One author's short name: non-dropping particle and family name.
pub open spec fn short_name_part(n: NameModel) -> Seq<char> {
    let ndp: Seq<char> = match n.non_dropping_particle {
        Some(p) => p + " "@,
        None => Seq::empty(),
    };
    let family: Seq<char> = match n.family {
        Some(f) => f,
        None => Seq::empty(),
    };
    ndp + family
}

/// The short author list: the first author's last name, joined by an
/// ampersand to a second author's, or followed by `et al.` for three or
/// more.  An empty author list gives an empty string.
pub open spec fn short_author_spec(names: Seq<NameModel>) -> Seq<char> {
    if names.len() == 0 {
        Seq::empty()
    } else if names.len() == 1 {
        short_name_part(names[0])
    } else if names.len() == 2 {
        short_name_part(names[0]) + " & "@ + short_name_part(names[1])
    } else {
        short_name_part(names[0]) + " et al."@
    }
}

#[verifier::rlimit(60)]
fn push_name_part(n: &NameVariable, out: &mut String)
    ensures
        final(out)@ == old(out)@ + name_part(n@),
{
    match &n.given {
        Some(g) => {
            out.append(g.as_str());
            out.append(" ");
        },
        None => {},
    }
    match &n.non_dropping_particle {
        Some(p) => {
            out.append(p.as_str());
            out.append(" ");
        },
        None => {},
    }
    match &n.family {
        Some(f) => {
            out.append(f.as_str());
        },
        None => {},
    }
    match &n.suffix {
        Some(s) => {
            let jr = String::from_str("Jr.");
            let sr = String::from_str("Sr.");
            if *s == jr || *s == sr {
                out.append(", ");
            } else {
                out.append(" ");
            }
            out.append(s.as_str());
        },
        None => {},
    }
    proof {
        assert(out@ =~= old(out)@ + name_part(n@));
    }
}

/// Builds the long author (that is, all authors, full names) for sources.
///
/// Each name is built from the given name, non-dropping particle, family
/// name, and suffix, with a comma before a `Jr.` or `Sr.` suffix.  All but
/// the last two authors are separated by `, `; the last is joined by ` & `.
pub fn build_long_author(name_vector: &Vec<NameVariable>) -> (r: String)
    ensures
        r@ == long_author_spec(names_model(name_vector@)),
{
    let ghost nm = names_model(name_vector@);
    let mut long_author = String::new();
    let num_names: usize = name_vector.len();
    let mut k: usize = 0;
    proof {
        crate::csljson::lemma_names_model(name_vector@);
    }
    while k < num_names
        invariant
            num_names == name_vector@.len(),
            k <= num_names,
            nm == names_model(name_vector@),
            nm.len() == num_names,
            forall|j: int| 0 <= j < num_names ==> nm[j] == name_vector@[j]@,
            long_author_spec(nm) == long_author@ + long_author_from(nm, k as int),
        decreases num_names - k,
    {
        let ghost pre = long_author@;
        push_name_part(&name_vector[k], &mut long_author);
        if num_names > 1 && k < num_names - 2 {
            long_author.append(", ");
        } else if num_names > 1 && k == num_names - 2 {
            long_author.append(" & ");
        }
        proof {
            assert(long_author@ =~= pre + name_part(nm[k as int]) + name_sep(
                k as int,
                num_names as int,
            ));
            assert(pre + name_part(nm[k as int]) + name_sep(k as int, num_names as int)
                + long_author_from(nm, k + 1) =~= pre + (name_part(nm[k as int]) + name_sep(
                k as int,
                num_names as int,
            ) + long_author_from(nm, k + 1)));
        }
        k = k + 1;
    }
    proof {
        assert(long_author_spec(nm) =~= long_author@);
    }
    long_author
}

fn push_short_name(n: &NameVariable, out: &mut String)
    ensures
        final(out)@ == old(out)@ + short_name_part(n@),
{
    match &n.non_dropping_particle {
        Some(p) => {
            out.append(p.as_str());
            out.append(" ");
        },
        None => {},
    }
    match &n.family {
        Some(f) => {
            out.append(f.as_str());
        },
        None => {},
    }
    proof {
        assert(out@ =~= old(out)@ + short_name_part(n@));
    }
}

/// Builds the short author (one or two authors' last names, or one and
/// `et al.`) for sources.
pub fn build_short_author(name_vector: &Vec<NameVariable>) -> (r: String)
    ensures
        r@ == short_author_spec(names_model(name_vector@)),
{
    let ghost nm = names_model(name_vector@);
    proof {
        crate::csljson::lemma_names_model(name_vector@);
    }
    let mut short_author = String::new();
    if name_vector.len() == 0 {
        proof {
            assert(short_author@ =~= short_author_spec(nm));
        }
        return short_author;
    }
    push_short_name(&name_vector[0], &mut short_author);
    if name_vector.len() == 2 {
        short_author.append(" & ");
        push_short_name(&name_vector[1], &mut short_author);
    } else if name_vector.len() > 2 {
        short_author.append(" et al.");
    }
    proof {
        assert(short_author@ =~= short_author_spec(nm));
    }
    short_author
}

/// The names recorded for a source's authors, or none.
pub open spec fn author_names(csl: CslModel) -> Seq<NameModel> {
    match csl.author {
        Some(a) => a,
        None => Seq::empty(),
    }
}

/// The full author list of a source, bolded for books, followed by `, `.
pub open spec fn authors_spec(csl: CslModel, st: SourceType) -> Seq<char> {
    let author = long_author_spec(author_names(csl));
    let styled: Seq<char> = if st is Book {
        bold_spec(author)
    } else {
        author
    };
    styled + ", "@
}

/// Add the authors.  If it's a book, also bold the authors.
pub fn add_authors(csl_source: &CSLSource, source_type: &SourceType, cite: &mut String)
    requires
        csl_source.author is Some,
    ensures
        final(cite)@ == old(cite)@ + authors_spec(csl_source@, *source_type),
{
    let mut author = match &csl_source.author {
        Some(a) => build_long_author(a),
        None => String::new(),
    };
    if source_type == &SourceType::Book {
        author = bold(author.as_str());
    }
    author.append(", ");
    cite.append(author.as_str());
}

/// The short author of a source, bolded for books.
pub open spec fn short_author_styled(csl: CslModel, st: SourceType) -> Seq<char> {
    let sa = short_author_spec(author_names(csl));
    if st is Book {
        bold_spec(sa)
    } else {
        sa
    }
}

/// Add the short author for hereinafters and short cites.
pub fn add_short_author(csl_source: &CSLSource, source_type: &SourceType, cite: &mut String)
    requires
        csl_source.author is Some,
    ensures
        final(cite)@ == old(cite)@ + short_author_styled(csl_source@, *source_type),
{
    let mut short_author = match &csl_source.author {
        Some(a) => build_short_author(a),
        None => String::new(),
    };
    if source_type == &SourceType::Book {
        short_author = bold(short_author.as_str());
    }
    cite.append(short_author.as_str());
}

/// Add the "in" if it's a book chapter.
pub fn add_in(cite: &mut String)
    ensures
        final(cite)@ == old(cite)@ + ", *in* "@,
{
    cite.append(", *in* ");
}

/// The volume of a source, or an empty string.
pub open spec fn volume_of(csl: CslModel) -> Seq<char> {
    match csl.volume {
        Some(v) => v,
        None => Seq::empty(),
    }
}

/// Add the volume at the beginning of a book that has one.
pub fn add_book_volume(csl_source: &CSLSource, cite: &mut String)
    requires
        csl_source.volume is Some,
    ensures
        final(cite)@ == old(cite)@ + volume_of(csl_source@) + " "@,
{
    match &csl_source.volume {
        Some(v) => {
            cite.append(v.as_str());
        },
        None => {},
    }
    cite.append(" ");
}

/// The volume of a case, article, chapter, or manuscript: a comma before it
/// for all but chapters, and a space after it.
pub open spec fn other_volume_spec(csl: CslModel, st: SourceType) -> Seq<char> {
    let lead: Seq<char> = if st is Case || st is JournalArticle || st is Manuscript {
        ", "@
    } else {
        Seq::empty()
    };
    lead + volume_of(csl) + " "@
}

/// Add the volume to cases, articles, chapters, and manuscripts.
pub fn add_other_volume(csl_source: &CSLSource, source_type: &SourceType, cite: &mut String)
    requires
        csl_source.volume is Some,
    ensures
        final(cite)@ == old(cite)@ + other_volume_spec(csl_source@, *source_type),
{
    if source_type == &SourceType::Case || source_type == &SourceType::JournalArticle
        || source_type == &SourceType::Manuscript {
        cite.append(", ");
    }
    match &csl_source.volume {
        Some(v) => {
            cite.append(v.as_str());
        },
        None => {},
    }
    cite.append(" ");
    proof {
        assert(cite@ =~= old(cite)@ + other_volume_spec(csl_source@, *source_type));
    }
}

/// The first page of a source, preceded by a space.
pub open spec fn first_page_spec(csl: CslModel) -> Seq<char> {
    match csl.page {
        Some(p) => " "@ + p,
        None => " "@,
    }
}

/// Add the first page.
pub fn add_first_page(csl_source: &CSLSource, cite: &mut String)
    requires
        csl_source.page is Some,
    ensures
        final(cite)@ == old(cite)@ + first_page_spec(csl_source@),
{
    cite.append(" ");
    match &csl_source.page {
        Some(p) => {
            cite.append(p.as_str());
        },
        None => {},
    }
}

/// The year a source was issued, as digits, or an empty string when the date
/// is missing or empty.
pub open spec fn year_spec(csl: CslModel) -> Seq<char> {
    match csl.issued {
        Some(d) => match d.date_parts {
            Some(dp) => if dp.len() > 0 && dp[0].len() > 0 {
                crate::text::dec_str(dp[0][0])
            } else {
                Seq::empty()
            },
            None => Seq::empty(),
        },
        None => Seq::empty(),
    }
}

/// Append the year a source was issued, if it has one.
fn push_year(csl_source: &CSLSource, cite: &mut String)
    ensures
        final(cite)@ == old(cite)@ + year_spec(csl_source@),
{
    match &csl_source.issued {
        Some(d) => {
            match &d.date_parts {
                Some(dp) => {
                    proof {
                        crate::csljson::lemma_rows_model(dp@);
                    }
                    if dp.len() > 0 {
                        let row = &dp[0];
                        if row.len() > 0 {
                            let y: u32 = row[0];
                            let ys = crate::text::u32_to_string(y);
                            cite.append(ys.as_str());
                        }
                    }
                },
                None => {},
            }
        },
        None => {},
    }
    proof {
        assert(cite@ =~= old(cite)@ + year_spec(csl_source@));
    }
}

/// The journal-forthcoming parenthetical: ` (forthcoming YEAR)`.
pub open spec fn forthcoming_spec(csl: CslModel) -> Seq<char> {
    " (forthcoming "@ + year_spec(csl) + ")"@
}

/// Add the journal-forthcoming parenthetical.
///
/// Used for manuscripts with a note and a date.
pub fn add_forthcoming(csl_source: &CSLSource, cite: &mut String)
    ensures
        final(cite)@ == old(cite)@ + forthcoming_spec(csl_source@),
{
    cite.append(" (forthcoming ");
    push_year(csl_source, cite);
    cite.append(")");
    proof {
        assert(cite@ =~= old(cite)@ + forthcoming_spec(csl_source@));
    }
}

/// The url of a source, preceded by a comma.
pub open spec fn url_spec(csl: CslModel) -> Seq<char> {
    match csl.url {
        Some(u) => ", "@ + u,
        None => ", "@,
    }
}

/// Add the url.
pub fn add_url(csl_source: &CSLSource, cite: &mut String)
    requires
        csl_source.url is Some,
    ensures
        final(cite)@ == old(cite)@ + url_spec(csl_source@),
{
    cite.append(", ");
    match &csl_source.url {
        Some(u) => {
            cite.append(u.as_str());
        },
        None => {},
    }
}

/// Whether `pat` is a prefix of `s`.
pub open spec fn starts_with(s: Seq<char>, pat: Seq<char>) -> bool {
    pat.len() <= s.len() && s.subrange(0, pat.len() as int) == pat
}

/// Whether `pat` is a suffix of `s`.
pub open spec fn ends_with(s: Seq<char>, pat: Seq<char>) -> bool {
    pat.len() <= s.len() && s.subrange(s.len() - pat.len(), s.len() as int) == pat
}

/// Whether the characters of `v` start with the pattern.
fn starts_with_run(v: &Vec<char>, pat: &Vec<char>) -> (b: bool)
    ensures
        b == starts_with(v@, pat@),
{
    if pat.len() > v.len() {
        return false;
    }
    occurs_at(v, pat, 0)
}

/// Whether the characters of `v` end with the pattern.
fn ends_with_run(v: &Vec<char>, pat: &Vec<char>) -> (b: bool)
    ensures
        b == ends_with(v@, pat@),
{
    if pat.len() > v.len() {
        return false;
    }
    let r = occurs_at(v, pat, v.len() - pat.len());
    proof {
        assert(is_at(v@, pat@, v@.len() - pat@.len()) == ends_with(v@, pat@));
    }
    r
}

/// The first position at or after `j` holding `<i>` directly after
/// whitespace.
pub open spec fn ital_open_after_space(s: Seq<char>, j: int) -> Option<int>
    decreases s.len() - j,
{
    if !(0 <= j < s.len()) {
        None
    } else if is_at(s, "<i>"@, j) && j >= 1 && is_space(s[j - 1]) {
        Some(j)
    } else {
        ital_open_after_space(s, j + 1)
    }
}

/// The start of the whitespace run that ends just before `j`.
pub open spec fn run_start(s: Seq<char>, j: int) -> int
    decreases j,
{
    if j > 0 && 0 <= j - 1 < s.len() && is_space(s[j - 1]) {
        run_start(s, j - 1)
    } else {
        j
    }
}

/// Every `<i>` preceded by whitespace becomes a style boundary placed before
/// that whitespace.
pub open spec fn ital_space_open(s: Seq<char>) -> Seq<char>
    decreases s.len(),
    via ital_space_open_dec
{
    match ital_open_after_space(s, 0) {
        None => s,
        Some(j) => {
            let a = run_start(s, j);
            s.subrange(0, a) + "*"@ + s.subrange(a, j) + ital_space_open(
                s.subrange(j + 3, s.len() as int),
            )
        },
    }
}

proof fn lemma_ital_open_bounds(s: Seq<char>, j0: int, j: int)
    requires
        0 <= j0,
        ital_open_after_space(s, j0) == Some(j),
    ensures
        j0 <= j,
        j + 3 <= s.len(),
        j >= 1,
        is_at(s, "<i>"@, j),
        is_space(s[j - 1]),
    decreases s.len() - j0,
{
    reveal_strlit("<i>");
    if 0 <= j0 < s.len() {
        if is_at(s, "<i>"@, j0) && j0 >= 1 && is_space(s[j0 - 1]) {
        } else {
            lemma_ital_open_bounds(s, j0 + 1, j);
        }
    }
}

proof fn lemma_run_start_bounds(s: Seq<char>, j: int)
    requires
        0 <= j,
    ensures
        0 <= run_start(s, j) <= j,
    decreases j,
{
    if j > 0 && 0 <= j - 1 < s.len() && is_space(s[j - 1]) {
        lemma_run_start_bounds(s, j - 1);
    }
}

#[via_fn]
proof fn ital_space_open_dec(s: Seq<char>) {
    match ital_open_after_space(s, 0) {
        None => {},
        Some(j) => {
            lemma_ital_open_bounds(s, 0, j);
            lemma_run_start_bounds(s, j);
        },
    }
}

/// The first position at or after `j` holding `</i>` directly before
/// whitespace.
pub open spec fn ital_close_before_space(s: Seq<char>, j: int) -> Option<int>
    decreases s.len() - j,
{
    if !(0 <= j < s.len()) {
        None
    } else if is_at(s, "</i>"@, j) && j + 4 < s.len() && is_space(s[j + 4]) {
        Some(j)
    } else {
        ital_close_before_space(s, j + 1)
    }
}

/// Every `</i>` followed by whitespace becomes a style boundary placed after
/// the first whitespace character.
pub open spec fn ital_space_close(s: Seq<char>) -> Seq<char>
    decreases s.len(),
    via ital_space_close_dec
{
    match ital_close_before_space(s, 0) {
        None => s,
        Some(j) => s.subrange(0, j) + s.subrange(j + 4, j + 5) + "*"@ + ital_space_close(
            s.subrange(j + 5, s.len() as int),
        ),
    }
}

proof fn lemma_ital_close_bounds(s: Seq<char>, j0: int, j: int)
    requires
        0 <= j0,
        ital_close_before_space(s, j0) == Some(j),
    ensures
        j0 <= j,
        j + 5 <= s.len(),
        is_at(s, "</i>"@, j),
        is_space(s[j + 4]),
    decreases s.len() - j0,
{
    if 0 <= j0 < s.len() {
        if is_at(s, "</i>"@, j0) && j0 + 4 < s.len() && is_space(s[j0 + 4]) {
        } else {
            lemma_ital_close_bounds(s, j0 + 1, j);
        }
    }
}

#[via_fn]
proof fn ital_space_close_dec(s: Seq<char>) {
    match ital_close_before_space(s, 0) {
        None => {},
        Some(j) => {
            lemma_ital_close_bounds(s, 0, j);
        },
    }
}

/// The first position at or after `j` holding `<i>` or `</i>`.
pub open spec fn ital_any(s: Seq<char>, j: int) -> Option<(int, int)>
    decreases s.len() - j,
{
    if !(0 <= j < s.len()) {
        None
    } else if is_at(s, "<i>"@, j) {
        Some((j, 3))
    } else if is_at(s, "</i>"@, j) {
        Some((j, 4))
    } else {
        ital_any(s, j + 1)
    }
}

/// Every remaining `<i>` or `</i>` becomes a bare style boundary.
pub open spec fn ital_rest(s: Seq<char>) -> Seq<char>
    decreases s.len(),
    via ital_rest_dec
{
    match ital_any(s, 0) {
        None => s,
        Some(jm) => s.subrange(0, jm.0) + "*"@ + ital_rest(
            s.subrange(jm.0 + jm.1, s.len() as int),
        ),
    }
}

proof fn lemma_ital_any_bounds(s: Seq<char>, j0: int, j: int, m: int)
    requires
        0 <= j0,
        ital_any(s, j0) == Some((j, m)),
    ensures
        j0 <= j,
        m == 3 || m == 4,
        j + m <= s.len(),
        m == 3 ==> is_at(s, "<i>"@, j),
        m == 4 ==> is_at(s, "</i>"@, j),
    decreases s.len() - j0,
{
    reveal_strlit("<i>");
    reveal_strlit("</i>");
    if 0 <= j0 < s.len() {
        if is_at(s, "<i>"@, j0) {
        } else if is_at(s, "</i>"@, j0) {
        } else {
            lemma_ital_any_bounds(s, j0 + 1, j, m);
        }
    }
}

#[via_fn]
proof fn ital_rest_dec(s: Seq<char>) {
    reveal_strlit("<i>");
    reveal_strlit("</i>");
    match ital_any(s, 0) {
        None => {},
        Some(jm) => {
            lemma_ital_any_bounds(s, 0, jm.0, jm.1);
        },
    }
}

/// A title with inline italic markup, converted to the citation convention:
/// the whole title italicized except the marked sub-phrases, which become
/// Roman.  Implicit italic boundaries are added at the start and end if
/// absent, the explicit ones at the edges are stripped, and each interior
/// marker becomes a style boundary, keeping its adjacent whitespace outside
/// the boundary.
pub open spec fn reverse_italicize_spec(s: Seq<char>) -> Seq<char> {
    let t1: Seq<char> = if starts_with(s, "<i>"@) {
        s
    } else {
        "*"@ + s
    };
    let t2: Seq<char> = if ends_with(t1, "</i>"@) {
        t1
    } else {
        t1 + "*"@
    };
    let t3: Seq<char> = if starts_with(t2, "<i>"@) {
        t2.subrange(3, t2.len() as int)
    } else {
        t2
    };
    let t4: Seq<char> = if ends_with(t3, "</i>"@) {
        t3.subrange(0, t3.len() - 4)
    } else {
        t3
    };
    ital_rest(ital_space_close(ital_space_open(t4)))
}

fn find_ital_open(v: &Vec<char>, j: usize) -> (r: Option<usize>)
    ensures
        match r {
            Some(p) => ital_open_after_space(v@, j as int) == Some(p as int),
            None => ital_open_after_space(v@, j as int) is None,
        },
    decreases v@.len() - j,
{
    if j >= v.len() {
        None
    } else {
        let pat = chars_of("<i>");
        let hit = if pat.len() <= v.len() && j <= v.len() - pat.len() {
            occurs_at(v, &pat, j)
        } else {
            proof {
                assert(!is_at(v@, "<i>"@, j as int));
            }
            false
        };
        if hit && j >= 1 && space_char(v[j - 1]) {
            Some(j)
        } else {
            find_ital_open(v, j + 1)
        }
    }
}

fn find_run_start(v: &Vec<char>, j: usize) -> (a: usize)
    requires
        j <= v@.len(),
    ensures
        a as int == run_start(v@, j as int),
        a <= j,
    decreases j,
{
    if j > 0 && space_char(v[j - 1]) {
        find_run_start(v, j - 1)
    } else {
        j
    }
}

fn ital_space_open_run(v: &Vec<char>) -> (r: Vec<char>)
    ensures
        r@ == ital_space_open(v@),
    decreases v@.len(),
{
    match find_ital_open(v, 0) {
        None => seg(v, 0, v.len()),
        Some(j) => {
            proof {
                lemma_ital_open_bounds(v@, 0, j as int);
            }
            let a = find_run_start(v, j);
            let mut r = seg(v, 0, a);
            let n: usize = v.len();
            r.push('*');
            let mut mid = seg(v, a, j);
            r.append(&mut mid);
            let rest = seg(v, j + 3, n);
            let mut tail = ital_space_open_run(&rest);
            r.append(&mut tail);
            proof {
                reveal_strlit("*");
                assert(r@ =~= ital_space_open(v@));
            }
            r
        },
    }
}

fn find_ital_close(v: &Vec<char>, j: usize) -> (r: Option<usize>)
    ensures
        match r {
            Some(p) => ital_close_before_space(v@, j as int) == Some(p as int),
            None => ital_close_before_space(v@, j as int) is None,
        },
    decreases v@.len() - j,
{
    if j >= v.len() {
        None
    } else {
        let pat = chars_of("</i>");
        let hit = if pat.len() <= v.len() && j <= v.len() - pat.len() {
            occurs_at(v, &pat, j)
        } else {
            proof {
                assert(!is_at(v@, "</i>"@, j as int));
            }
            false
        };
        proof {
            reveal_strlit("</i>");
        }
        if hit && j + 4 < v.len() && space_char(v[j + 4]) {
            Some(j)
        } else {
            find_ital_close(v, j + 1)
        }
    }
}

fn ital_space_close_run(v: &Vec<char>) -> (r: Vec<char>)
    ensures
        r@ == ital_space_close(v@),
    decreases v@.len(),
{
    match find_ital_close(v, 0) {
        None => seg(v, 0, v.len()),
        Some(j) => {
            proof {
                lemma_ital_close_bounds(v@, 0, j as int);
            }
            let n: usize = v.len();
            let mut r = seg(v, 0, j);
            r.push(v[j + 4]);
            r.push('*');
            let rest = seg(v, j + 5, n);
            let mut tail = ital_space_close_run(&rest);
            r.append(&mut tail);
            proof {
                reveal_strlit("*");
                assert(v@.subrange(j + 4, j + 5) =~= seq![v@[j + 4]]);
                assert(r@ =~= ital_space_close(v@));
            }
            r
        },
    }
}

fn find_ital_any(v: &Vec<char>, j: usize) -> (r: Option<(usize, usize)>)
    ensures
        match r {
            Some(p) => ital_any(v@, j as int) == Some((p.0 as int, p.1 as int)),
            None => ital_any(v@, j as int) is None,
        },
    decreases v@.len() - j,
{
    if j >= v.len() {
        None
    } else {
        let po = chars_of("<i>");
        let pc = chars_of("</i>");
        let hito = if po.len() <= v.len() && j <= v.len() - po.len() {
            occurs_at(v, &po, j)
        } else {
            proof {
                assert(!is_at(v@, "<i>"@, j as int));
            }
            false
        };
        if hito {
            return Some((j, 3));
        }
        let hitc = if pc.len() <= v.len() && j <= v.len() - pc.len() {
            occurs_at(v, &pc, j)
        } else {
            proof {
                assert(!is_at(v@, "</i>"@, j as int));
            }
            false
        };
        if hitc {
            proof {
                reveal_strlit("</i>");
            }
            return Some((j, 4));
        }
        find_ital_any(v, j + 1)
    }
}

fn ital_rest_run(v: &Vec<char>) -> (r: Vec<char>)
    ensures
        r@ == ital_rest(v@),
    decreases v@.len(),
{
    match find_ital_any(v, 0) {
        None => seg(v, 0, v.len()),
        Some(jm) => {
            proof {
                lemma_ital_any_bounds(v@, 0, jm.0 as int, jm.1 as int);
            }
            let n: usize = v.len();
            let mut r = seg(v, 0, jm.0);
            r.push('*');
            let rest = seg(v, jm.0 + jm.1, n);
            let mut tail = ital_rest_run(&rest);
            r.append(&mut tail);
            proof {
                reveal_strlit("*");
                assert(r@ =~= ital_rest(v@));
            }
            r
        },
    }
}

/// Adds article-title italicization markdown to a title with HTML markup.
///
/// This function takes a title with HTML markup for italicization and
/// converts it to article-title-style markdown.  It essentially flips the
/// italicization, as article titles should generally be italicized while
/// words normally italicized in a title should be Roman.
pub fn reverse_italicize(title: &str) -> (r: String)
    ensures
        r@ == reverse_italicize_spec(title@),
{
    let v = chars_of(title);
    let po = chars_of("<i>");
    let pc = chars_of("</i>");
    let mut t: Vec<char> = Vec::new();
    if starts_with_run(&v, &po) {
        let mut rest = seg(&v, 0, v.len());
        t.append(&mut rest);
    } else {
        t.push('*');
        let mut rest = seg(&v, 0, v.len());
        t.append(&mut rest);
    }
    proof {
        reveal_strlit("*");
        assert(v@.subrange(0, v@.len() as int) =~= v@);
        if starts_with(v@, "<i>"@) {
            assert(t@ =~= v@);
        } else {
            assert(t@ =~= "*"@ + v@);
        }
    }
    let ghost t1 = t@;
    if !ends_with_run(&t, &pc) {
        t.push('*');
        proof {
            reveal_strlit("*");
            assert(t@ =~= t1 + "*"@);
        }
    }
    let mut u: Vec<char> = if starts_with_run(&t, &po) {
        proof {
            reveal_strlit("<i>");
        }
        seg(&t, 3, t.len())
    } else {
        seg(&t, 0, t.len())
    };
    proof {
        assert(t@.subrange(0, t@.len() as int) =~= t@);
    }
    if ends_with_run(&u, &pc) {
        proof {
            reveal_strlit("</i>");
        }
        u = seg(&u, 0, u.len() - 4);
    }
    proof {
        assert(u@.subrange(0, u@.len() as int) =~= u@);
    }
    let w1 = ital_space_open_run(&u);
    let w2 = ital_space_close_run(&w1);
    let w3 = ital_rest_run(&w2);
    string_of(&w3)
}

/// The title recorded for a source, or an empty string.
pub open spec fn title_of(csl: CslModel) -> Seq<char> {
    match csl.title {
        Some(t) => t,
        None => Seq::empty(),
    }
}

/// A case name with its `In re` and `ex rel.` sub-phrases italicized.
pub open spec fn case_title_spec(t: Seq<char>) -> Seq<char> {
    crate::text::replace_all_spec(
        crate::text::replace_all_spec(t, "In re "@, "*In re* "@),
        " ex rel. "@,
        " *ex rel.* "@,
    )
}

/// The styled title of a source: bolded for books; reverse-italicized for
/// chapters, articles, and manuscripts; `In re`/`ex rel.` italicized for
/// cases; untouched otherwise.
pub open spec fn title_spec(csl: CslModel, st: SourceType) -> Seq<char> {
    if st is Book {
        bold_spec(title_of(csl))
    } else if st is Chapter || st is JournalArticle || st is Manuscript {
        reverse_italicize_spec(title_of(csl))
    } else if st is Case {
        case_title_spec(title_of(csl))
    } else {
        Seq::empty()
    }
}

/// Add the title.
///
/// If it's a book, also bold it.  If it's a chapter, journal, or manuscript,
/// "reverse italicize" it.  If it's a case, italicize `In re` and `ex rel.`;
/// otherwise let it be.
pub fn add_title(csl_source: &CSLSource, source_type: &SourceType, cite: &mut String)
    requires
        csl_source.title is Some,
    ensures
        final(cite)@ == old(cite)@ + title_spec(csl_source@, *source_type),
{
    let title: &String = match &csl_source.title {
        Some(t) => t,
        None => {
            proof {
                assert(false);
            }
            return;
        },
    };
    if source_type == &SourceType::Book {
        let styled = bold(title.as_str());
        cite.append(styled.as_str());
    } else if source_type == &SourceType::Chapter || source_type == &SourceType::JournalArticle
        || source_type == &SourceType::Manuscript {
        let styled = reverse_italicize(title.as_str());
        cite.append(styled.as_str());
    } else if source_type == &SourceType::Case {
        let tv = chars_of_string(title);
        let step1 = crate::text::replace_all(&tv, &chars_of("In re "), &chars_of("*In re* "));
        let step2 = crate::text::replace_all(
            &step1,
            &chars_of(" ex rel. "),
            &chars_of(" *ex rel.* "),
        );
        let styled = string_of(&step2);
        cite.append(styled.as_str());
    }
}

/// The short title recorded for a source, or its long title when no short
/// form was given.
pub open spec fn short_title_src(csl: CslModel) -> Seq<char> {
    match csl.title_short {
        Some(t) => t,
        None => title_of(csl),
    }
}

/// The styled short title of a source: bolded for books, italicized for
/// cases, reverse-italicized otherwise.
pub open spec fn short_title_spec(csl: CslModel, st: SourceType) -> Seq<char> {
    if st is Book {
        bold_spec(short_title_src(csl))
    } else if st is Case {
        "*"@ + short_title_src(csl) + "*"@
    } else {
        reverse_italicize_spec(short_title_src(csl))
    }
}

/// Add the shortened title (if it exists).
///
/// This adds the shortened title for a source.  If there isn't one, it uses
/// the long title.
pub fn add_short_title(csl_source: &CSLSource, source_type: &SourceType, cite: &mut String)
    requires
        csl_source.title_short is Some || csl_source.title is Some,
    ensures
        final(cite)@ == old(cite)@ + short_title_spec(csl_source@, *source_type),
{
    let src: &String = match &csl_source.title_short {
        Some(t) => t,
        None => match &csl_source.title {
            Some(t) => t,
            None => {
                proof {
                    assert(false);
                }
                return;
            },
        },
    };
    if source_type == &SourceType::Book {
        let styled = bold(src.as_str());
        cite.append(styled.as_str());
    } else if source_type == &SourceType::Case {
        cite.append("*");
        cite.append(src.as_str());
        cite.append("*");
        proof {
            assert(cite@ =~= old(cite)@ + short_title_spec(csl_source@, *source_type));
        }
    } else {
        let styled = reverse_italicize(src.as_str());
        cite.append(styled.as_str());
    }
}

/// The saved table of journal-name abbreviations.
pub open spec fn saved_journal_spec(name: Seq<char>) -> Option<Seq<char>> {
    if name == "ABA Journal of Labor & Employment Law"@ {
        Some("A.B.A. J. Lab. & Emp. L."@)
    } else if name == "Harvard Law Review"@ {
        Some("Harv. L. Rev."@)
    } else if name == "Yale Law Journal"@ {
        Some("Yale L.J."@)
    } else if name == "Stanford Law Review"@ {
        Some("Stan. L. Rev."@)
    } else {
        None
    }
}

fn saved_journal(name: &Vec<char>) -> (r: Option<String>)
    ensures
        match r {
            Some(s) => saved_journal_spec(name@) == Some(s@),
            None => saved_journal_spec(name@) is None,
        },
{
    if crate::text::eq_chars(name, &chars_of("ABA Journal of Labor & Employment Law")) {
        Some(String::from_str("A.B.A. J. Lab. & Emp. L."))
    } else if crate::text::eq_chars(name, &chars_of("Harvard Law Review")) {
        Some(String::from_str("Harv. L. Rev."))
    } else if crate::text::eq_chars(name, &chars_of("Yale Law Journal")) {
        Some(String::from_str("Yale L.J."))
    } else if crate::text::eq_chars(name, &chars_of("Stanford Law Review")) {
        Some(String::from_str("Stan. L. Rev."))
    } else {
        None
    }
}

/// The multi-word phrases replaced before word-by-word abbreviation.
pub open spec fn mw_entry(k: int) -> (Seq<char>, Seq<char>) {
    if k == 0 {
        ("New York"@, "N.Y."@)
    } else if k == 1 {
        ("Boston College"@, "B.C."@)
    } else if k == 2 {
        ("Rhode Island"@, "R.I."@)
    } else {
        ("United States"@, "U.S."@)
    }
}

/// The multi-word replacements applied from entry `k` on.
pub open spec fn mw_apply(s: Seq<char>, k: int) -> Seq<char>
    decreases 4 - k,
{
    if k < 0 || k >= 4 {
        s
    } else {
        mw_apply(crate::text::replace_all_spec(s, mw_entry(k).0, mw_entry(k).1), k + 1)
    }
}

fn mw_entry_run(k: usize) -> (r: (Vec<char>, Vec<char>))
    requires
        k < 4,
    ensures
        r.0@ == mw_entry(k as int).0,
        r.1@ == mw_entry(k as int).1,
{
    if k == 0 {
        (chars_of("New York"), chars_of("N.Y."))
    } else if k == 1 {
        (chars_of("Boston College"), chars_of("B.C."))
    } else if k == 2 {
        (chars_of("Rhode Island"), chars_of("R.I."))
    } else {
        (chars_of("United States"), chars_of("U.S."))
    }
}

/// What one word of a journal name becomes: an institution, legal-word, or
/// geographic abbreviation, nothing for a removable filler word, or the word
/// itself, each followed by a space.
pub open spec fn word_piece(w: Seq<char>) -> Seq<char> {
    if w == "University"@ {
        "U. "@
    } else if w == "Journal"@ {
        "J. "@
    } else if w == "Law"@ {
        "L. "@
    } else if w == "Review"@ {
        "Rev. "@
    } else if w == "Appellate"@ {
        "App. "@
    } else if w == "Practice"@ {
        "Prac. "@
    } else if w == "Products"@ {
        "Prod. "@
    } else if w == "Liability"@ {
        "Liab. "@
    } else if w == "and"@ {
        "& "@
    } else if w == "America"@ || w == "American"@ {
        "Am. "@
    } else if w == "a"@ || w == "an"@ || w == "at"@ || w == "in"@ || w == "of"@ || w == "the"@ {
        Seq::empty()
    } else {
        w + " "@
    }
}

fn word_piece_run(w: &Vec<char>) -> (r: String)
    ensures
        r@ == word_piece(w@),
{
    if crate::text::eq_chars(w, &chars_of("University")) {
        String::from_str("U. ")
    } else if crate::text::eq_chars(w, &chars_of("Journal")) {
        String::from_str("J. ")
    } else if crate::text::eq_chars(w, &chars_of("Law")) {
        String::from_str("L. ")
    } else if crate::text::eq_chars(w, &chars_of("Review")) {
        String::from_str("Rev. ")
    } else if crate::text::eq_chars(w, &chars_of("Appellate")) {
        String::from_str("App. ")
    } else if crate::text::eq_chars(w, &chars_of("Practice")) {
        String::from_str("Prac. ")
    } else if crate::text::eq_chars(w, &chars_of("Products")) {
        String::from_str("Prod. ")
    } else if crate::text::eq_chars(w, &chars_of("Liability")) {
        String::from_str("Liab. ")
    } else if crate::text::eq_chars(w, &chars_of("and")) {
        String::from_str("& ")
    } else if crate::text::eq_chars(w, &chars_of("America"))
        || crate::text::eq_chars(w, &chars_of("American")) {
        String::from_str("Am. ")
    } else if crate::text::eq_chars(w, &chars_of("a")) || crate::text::eq_chars(w, &chars_of("an"))
        || crate::text::eq_chars(w, &chars_of("at")) || crate::text::eq_chars(w, &chars_of("in"))
        || crate::text::eq_chars(w, &chars_of("of")) || crate::text::eq_chars(
        w,
        &chars_of("the"),
    ) {
        String::new()
    } else {
        let mut r = string_of(w);
        r.append(" ");
        r
    }
}

/// The end of the word that starts at `i`: the next whitespace, or the end
/// of the string.
pub open spec fn word_end(s: Seq<char>, i: int) -> int
    decreases s.len() - i,
{
    if !(0 <= i < s.len()) {
        i
    } else if is_space(s[i]) {
        i
    } else {
        word_end(s, i + 1)
    }
}

proof fn lemma_word_end_bounds(s: Seq<char>, i: int)
    requires
        0 <= i <= s.len(),
    ensures
        i <= word_end(s, i) <= s.len(),
    decreases s.len() - i,
{
    if i < s.len() && !is_space(s[i]) {
        lemma_word_end_bounds(s, i + 1);
    }
}

/// The abbreviated text of a journal name: each whitespace-separated word
/// replaced by `word_piece`, joined by the spaces those pieces carry.
pub open spec fn sj_text(s: Seq<char>) -> Seq<char>
    decreases s.len(),
    via sj_text_dec
{
    if s.len() == 0 {
        Seq::empty()
    } else if is_space(s[0]) {
        sj_text(s.drop_first())
    } else {
        let e = word_end(s, 0);
        word_piece(s.subrange(0, e)) + sj_text(s.subrange(e, s.len() as int))
    }
}

#[via_fn]
proof fn sj_text_dec(s: Seq<char>) {
    if s.len() > 0 && !is_space(s[0]) {
        lemma_word_end_bounds(s, 1);
        assert(word_end(s, 0) == word_end(s, 1));
    }
}

fn find_word_end(v: &Vec<char>, i: usize) -> (e: usize)
    requires
        i <= v@.len(),
    ensures
        e as int == word_end(v@, i as int),
        i <= e <= v@.len(),
    decreases v@.len() - i,
{
    if i >= v.len() {
        i
    } else if space_char(v[i]) {
        i
    } else {
        find_word_end(v, i + 1)
    }
}

fn sj_text_run(v: &Vec<char>) -> (r: String)
    ensures
        r@ == sj_text(v@),
    decreases v@.len(),
{
    if v.len() == 0 {
        let r = String::new();
        proof {
            assert(r@ =~= sj_text(v@));
        }
        r
    } else if space_char(v[0]) {
        let rest = seg(v, 1, v.len());
        proof {
            assert(rest@ =~= v@.drop_first());
        }
        sj_text_run(&rest)
    } else {
        let e = find_word_end(v, 0);
        proof {
            lemma_word_end_bounds(v@, 1);
            assert(word_end(v@, 0) == word_end(v@, 1));
        }
        let word = seg(v, 0, e);
        let mut r = word_piece_run(&word);
        let rest = seg(v, e, v.len());
        let tail = sj_text_run(&rest);
        r.append(tail.as_str());
        proof {
            assert(r@ =~= sj_text(v@));
        }
        r
    }
}

/// The journal table a caller supplied, or an empty one, as pairs of
/// characters.
pub open spec fn uj_view(uj: Option<UserJournals>) -> Seq<(Seq<char>, Seq<char>)> {
    match uj {
        Some(u) => uj_model(u@),
        None => Seq::empty(),
    }
}

/// The short form of a journal name: the user's table first, then the saved
/// table, then a rule-based abbreviation built by multi-word replacement and
/// word-by-word abbreviation, trimmed.
pub open spec fn short_journal_spec(long: Seq<char>, uj: Seq<(Seq<char>, Seq<char>)>) -> Seq<char> {
    match journal_lookup(uj, long) {
        Some(v) => v,
        None => match saved_journal_spec(long) {
            Some(v) => v,
            None => trim_spec(sj_text(mw_apply(long, 0))),
        },
    }
}

/// Returns a (hopefully) short form of a journal name.
///
/// A user-supplied table of abbreviations is consulted first, then a saved
/// table of journal names.  When neither has the name, a short name is built
/// by rule: multi-word phrases are replaced, then each word is abbreviated
/// as an institution, a common legal word, or a geographic name, or removed
/// as filler.
pub fn build_short_journal(long_journal: &str, user_journals: &Option<UserJournals>) -> (r:
    String)
    ensures
        r@ == short_journal_spec(long_journal@, uj_view(*user_journals)),
{
    let key = String::from_str(long_journal);
    match user_journals {
        Some(u) => {
            match lookup_user_journal(u, &key) {
                Some(v) => {
                    return v;
                },
                None => {},
            }
        },
        None => {},
    }
    let lv = chars_of(long_journal);
    match saved_journal(&lv) {
        Some(v) => {
            return v;
        },
        None => {},
    }
    let mut journal = seg(&lv, 0, lv.len());
    proof {
        assert(journal@ =~= lv@);
    }
    let mut k: usize = 0;
    while k < 4
        invariant
            mw_apply(long_journal@, 0) == mw_apply(journal@, k as int),
        decreases 4 - k,
    {
        let entry = mw_entry_run(k);
        journal = crate::text::replace_all(&journal, &entry.0, &entry.1);
        k = k + 1;
    }
    let text = sj_text_run(&journal);
    let tv = chars_of_string(&text);
    let trimmed = trim(&tv);
    string_of(&trimmed)
}

/// The container name of a source, or an empty string.
pub open spec fn container_of(csl: CslModel) -> Seq<char> {
    match csl.container_title {
        Some(c) => c,
        None => Seq::empty(),
    }
}

/// The styled container name (book, journal name, or reporter): bolded for
/// chapters, plain for cases, and the short journal form (given or built)
/// bolded for the rest.
pub open spec fn container_spec(csl: CslModel, st: SourceType, uj: Seq<(Seq<char>, Seq<char>)>) -> Seq<
    char,
> {
    if st is Chapter {
        bold_spec(container_of(csl))
    } else if st is Case {
        container_of(csl)
    } else {
        match csl.container_title_short {
            Some(cs) => bold_spec(cs),
            None => bold_spec(short_journal_spec(container_of(csl), uj)),
        }
    }
}

/// The container name (book, journal name, or reporter) for cases, chapters,
/// and articles.
pub fn add_container_name(
    csl_source: &CSLSource,
    source_type: &SourceType,
    user_journals: &Option<UserJournals>,
    cite: &mut String,
)
    requires
        csl_source.container_title is Some,
    ensures
        final(cite)@ == old(cite)@ + container_spec(
            csl_source@,
            *source_type,
            uj_view(*user_journals),
        ),
{
    let ct: &String = match &csl_source.container_title {
        Some(c) => c,
        None => {
            proof {
                assert(false);
            }
            return;
        },
    };
    if source_type == &SourceType::Chapter {
        let styled = bold(ct.as_str());
        cite.append(styled.as_str());
    } else if source_type == &SourceType::Case {
        cite.append(ct.as_str());
    } else {
        match &csl_source.container_title_short {
            Some(cs) => {
                let styled = bold(cs.as_str());
                cite.append(styled.as_str());
            },
            None => {
                let short = build_short_journal(ct.as_str(), user_journals);
                let styled = bold(short.as_str());
                cite.append(styled.as_str());
            },
        }
    }
}

/// The court-authority segment of the ending parenthetical: cases only, and
/// only away from the highest court.
pub open spec fn auth_seg(csl: CslModel, st: SourceType) -> Seq<char> {
    match csl.authority {
        Some(a) => if st is Case && a != "U.S. Supreme Court"@ {
            a + " "@
        } else {
            Seq::empty()
        },
        None => Seq::empty(),
    }
}

/// The edition segment, with a comma when editors or translators follow.
pub open spec fn edition_seg(csl: CslModel, st: SourceType) -> Seq<char> {
    match csl.edition {
        Some(e) => if st is Book || st is Chapter {
            e + " ed."@ + (if csl.editor is Some || csl.translator is Some {
                ", "@
            } else {
                " "@
            })
        } else {
            Seq::empty()
        },
        None => Seq::empty(),
    }
}

/// The editors segment.
pub open spec fn editors_seg(csl: CslModel, st: SourceType) -> Seq<char> {
    match csl.editor {
        Some(ed) => if st is Book || st is Chapter {
            long_author_spec(ed) + (if ed.len() > 1 {
                " eds., "@
            } else {
                " ed., "@
            })
        } else {
            Seq::empty()
        },
        None => Seq::empty(),
    }
}

/// The translators segment.
pub open spec fn translators_seg(csl: CslModel, st: SourceType) -> Seq<char> {
    match csl.translator {
        Some(tr) => if st is Book || st is Chapter {
            long_author_spec(tr) + " trans., "@
        } else {
            Seq::empty()
        },
        None => Seq::empty(),
    }
}

/// The ending parenthetical: court authority (cases only, and only away from
/// the highest court), edition, editors, translators, and year, in that
/// order, parenthesized.
pub open spec fn end_paren_spec(csl: CslModel, st: SourceType) -> Seq<char> {
    " ("@ + auth_seg(csl, st) + edition_seg(csl, st) + editors_seg(csl, st) + translators_seg(
        csl,
        st,
    ) + year_spec(csl) + ")"@
}

/// Add the ending parenthetical with court, edition, editors, translators,
/// and year.
#[verifier::rlimit(100)]
pub fn add_end_parenthetical(csl_source: &CSLSource, source_type: &SourceType, cite: &mut String)
    ensures
        final(cite)@ == old(cite)@ + end_paren_spec(csl_source@, *source_type),
{
    cite.append(" (");
    let ghost c0 = cite@;
    // If it's a case, add the authority.
    match &csl_source.authority {
        Some(a) => {
            let top = String::from_str("U.S. Supreme Court");
            if source_type == &SourceType::Case && *a != top {
                cite.append(a.as_str());
                cite.append(" ");
            }
        },
        None => {},
    }
    proof {
        assert(cite@ =~= c0 + auth_seg(csl_source@, *source_type));
    }
    let ghost c1 = cite@;
    // Add the edition.
    match &csl_source.edition {
        Some(e) => {
            if source_type == &SourceType::Book || source_type == &SourceType::Chapter {
                cite.append(e.as_str());
                cite.append(" ed.");
                // If an editor or translator follows the edition, add a
                // comma.  Otherwise add a space.
                if csl_source.editor.is_some() || csl_source.translator.is_some() {
                    cite.append(", ");
                } else {
                    cite.append(" ");
                }
            }
        },
        None => {},
    }
    proof {
        assert(cite@ =~= c1 + edition_seg(csl_source@, *source_type));
    }
    let ghost c2 = cite@;
    // Add the editors.
    match &csl_source.editor {
        Some(ed) => {
            if source_type == &SourceType::Book || source_type == &SourceType::Chapter {
                let editors = build_long_author(ed);
                cite.append(editors.as_str());
                if ed.len() > 1 {
                    cite.append(" eds., ");
                } else {
                    cite.append(" ed., ");
                }
            }
        },
        None => {},
    }
    proof {
        if csl_source.editor is Some {
            crate::csljson::lemma_names_model(csl_source.editor->Some_0@);
        }
        assert(cite@ =~= c2 + editors_seg(csl_source@, *source_type));
    }
    let ghost c3 = cite@;
    // Add the translators.
    match &csl_source.translator {
        Some(tr) => {
            if source_type == &SourceType::Book || source_type == &SourceType::Chapter {
                let translators = build_long_author(tr);
                cite.append(translators.as_str());
                cite.append(" trans., ");
            }
        },
        None => {},
    }
    proof {
        assert(cite@ =~= c3 + translators_seg(csl_source@, *source_type));
    }
    let ghost c4 = cite@;
    // Add the year, and close the parentheses.
    push_year(csl_source, cite);
    cite.append(")");
    proof {
        assert(cite@ =~= c4 + year_spec(csl_source@) + ")"@);
        assert(cite@ =~= old(cite)@ + end_paren_spec(csl_source@, *source_type));
    }
}

/// The hereinafter clause: the short author and short title that later short
/// cites will use, bracketed.
pub open spec fn hereinafter_spec(csl: CslModel, st: SourceType) -> Seq<char> {
    " [hereinafter "@ + short_author_styled(csl, st) + ", "@ + short_title_spec(csl, st) + "]"@
}

/// Add the "hereinafter" to sources that need it.
pub fn add_hereinafter(csl_source: &CSLSource, source_type: &SourceType, cite: &mut String)
    requires
        csl_source.author is Some,
        csl_source.title_short is Some || csl_source.title is Some,
    ensures
        final(cite)@ == old(cite)@ + hereinafter_spec(csl_source@, *source_type),
{
    cite.append(" [hereinafter ");
    add_short_author(csl_source, source_type, cite);
    cite.append(", ");
    add_short_title(csl_source, source_type, cite);
    cite.append("]");
    proof {
        assert(cite@ =~= old(cite)@ + hereinafter_spec(csl_source@, *source_type));
    }
}

} // verus!
