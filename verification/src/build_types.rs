//! Long-cite builders for each kind of source.  Every long cite is built as
//! a pre-pincite and a post-pincite half, so a pincite can later be spliced
//! in between them; the full no-pincite cite is their concatenation.

use crate::citetools::{
    add_authors, add_book_volume, add_container_name, add_end_parenthetical, add_first_page,
    add_forthcoming, add_hereinafter, add_in, add_other_volume, add_title, add_url, authors_spec,
    container_spec, end_paren_spec, first_page_spec, forthcoming_spec, hereinafter_spec,
    other_volume_spec, title_spec, uj_view, url_spec, volume_of,
};
use crate::csljson::{CSLSource, CslModel};
use crate::sourcemap::SourceType;
use crate::userjournals::UserJournals;
use vstd::prelude::*;

verus! {

/// The pre-pincite half of a book's long cite: volume, bolded authors, and
/// bolded title.
pub open spec fn book_pre_spec(csl: CslModel, st: SourceType) -> Seq<char> {
    let vol: Seq<char> = if csl.volume is Some {
        volume_of(csl) + " "@
    } else {
        Seq::empty()
    };
    let authors: Seq<char> = if csl.author is Some {
        authors_spec(csl, st)
    } else {
        Seq::empty()
    };
    vol + authors + title_spec(csl, st)
}

/// The post-pincite half of a book's long cite: the ending parenthetical and
/// any hereinafter clause.
pub open spec fn book_post_spec(csl: CslModel, st: SourceType, hereinafter: bool) -> Seq<char> {
    let paren: Seq<char> = if csl.edition is Some || csl.editor is Some || csl.translator is Some
        || csl.issued is Some {
        end_paren_spec(csl, st)
    } else {
        Seq::empty()
    };
    let h: Seq<char> = if hereinafter {
        hereinafter_spec(csl, st)
    } else {
        Seq::empty()
    };
    paren + h
}

/// Build the long cite---with and without a pin---for a book.
pub fn build_book_long(csl_source: &CSLSource, source_type: &SourceType, hereinafter: bool) -> (r:
    (String, String, String))
    requires
        csl_source.title is Some,
        hereinafter ==> csl_source.author is Some,
    ensures
        r.1@ == book_pre_spec(csl_source@, *source_type),
        r.2@ == book_post_spec(csl_source@, *source_type, hereinafter),
        r.0@ == r.1@ + r.2@,
{
    let mut pre = String::new();
    if csl_source.volume.is_some() {
        add_book_volume(csl_source, &mut pre);
    }
    if csl_source.author.is_some() {
        add_authors(csl_source, source_type, &mut pre);
    }
    add_title(csl_source, source_type, &mut pre);
    let mut post = String::new();
    if csl_source.edition.is_some() || csl_source.editor.is_some()
        || csl_source.translator.is_some() || csl_source.issued.is_some() {
        add_end_parenthetical(csl_source, source_type, &mut post);
    }
    if hereinafter {
        add_hereinafter(csl_source, source_type, &mut post);
    }
    let mut no_pin = pre.clone();
    no_pin.append(post.as_str());
    proof {
        assert(pre@ =~= book_pre_spec(csl_source@, *source_type));
        assert(post@ =~= book_post_spec(csl_source@, *source_type, hereinafter));
    }
    (no_pin, pre, post)
}

/// The pre-pincite half of a case's long cite: title, volume, reporter, and
/// first page.
pub open spec fn case_pre_spec(csl: CslModel, st: SourceType, uj: Seq<(Seq<char>, Seq<char>)>) -> Seq<
    char,
> {
    let vol: Seq<char> = if csl.volume is Some {
        other_volume_spec(csl, st)
    } else {
        Seq::empty()
    };
    let container: Seq<char> = if csl.container_title is Some {
        container_spec(csl, st, uj)
    } else {
        Seq::empty()
    };
    let page: Seq<char> = if csl.page is Some {
        first_page_spec(csl)
    } else {
        Seq::empty()
    };
    title_spec(csl, st) + vol + container + page
}

/// The post-pincite half of a case's long cite: the court-and-year
/// parenthetical.
pub open spec fn case_post_spec(csl: CslModel, st: SourceType) -> Seq<char> {
    if csl.authority is Some || csl.issued is Some {
        end_paren_spec(csl, st)
    } else {
        Seq::empty()
    }
}

/// Build the long cite---with and without a pin---for a case.
pub fn build_case_long(
    csl_source: &CSLSource,
    source_type: &SourceType,
    user_journals: &Option<UserJournals>,
) -> (r: (String, String, String))
    requires
        csl_source.title is Some,
    ensures
        r.1@ == case_pre_spec(csl_source@, *source_type, uj_view(*user_journals)),
        r.2@ == case_post_spec(csl_source@, *source_type),
        r.0@ == r.1@ + r.2@,
{
    let mut pre = String::new();
    add_title(csl_source, source_type, &mut pre);
    if csl_source.volume.is_some() {
        add_other_volume(csl_source, source_type, &mut pre);
    }
    if csl_source.container_title.is_some() {
        add_container_name(csl_source, source_type, user_journals, &mut pre);
    }
    if csl_source.page.is_some() {
        add_first_page(csl_source, &mut pre);
    }
    let mut post = String::new();
    if csl_source.authority.is_some() || csl_source.issued.is_some() {
        add_end_parenthetical(csl_source, source_type, &mut post);
    }
    let mut no_pin = pre.clone();
    no_pin.append(post.as_str());
    proof {
        assert(pre@ =~= case_pre_spec(csl_source@, *source_type, uj_view(*user_journals)));
        assert(post@ =~= case_post_spec(csl_source@, *source_type));
    }
    (no_pin, pre, post)
}

/// The pre-pincite half of a chapter's long cite: authors, italicized title,
/// `, *in* `, volume, bolded container title, and first page.
pub open spec fn chapter_pre_spec(csl: CslModel, st: SourceType, uj: Seq<(Seq<char>, Seq<char>)>) -> Seq<
    char,
> {
    let authors: Seq<char> = if csl.author is Some {
        authors_spec(csl, st)
    } else {
        Seq::empty()
    };
    let vol: Seq<char> = if csl.volume is Some {
        other_volume_spec(csl, st)
    } else {
        Seq::empty()
    };
    let container: Seq<char> = if csl.container_title is Some {
        container_spec(csl, st, uj)
    } else {
        Seq::empty()
    };
    let page: Seq<char> = if csl.page is Some {
        first_page_spec(csl)
    } else {
        Seq::empty()
    };
    authors + title_spec(csl, st) + ", *in* "@ + vol + container + page
}

/// The post-pincite half of a chapter's long cite: the ending parenthetical
/// and any hereinafter clause.
pub open spec fn chapter_post_spec(csl: CslModel, st: SourceType, hereinafter: bool) -> Seq<char> {
    book_post_spec(csl, st, hereinafter)
}

/// Build the long cite---with and without a pin---for a chapter.
pub fn build_chapter_long(
    csl_source: &CSLSource,
    source_type: &SourceType,
    user_journals: &Option<UserJournals>,
    hereinafter: bool,
) -> (r: (String, String, String))
    requires
        csl_source.title is Some,
        hereinafter ==> csl_source.author is Some,
    ensures
        r.1@ == chapter_pre_spec(csl_source@, *source_type, uj_view(*user_journals)),
        r.2@ == chapter_post_spec(csl_source@, *source_type, hereinafter),
        r.0@ == r.1@ + r.2@,
{
    let mut pre = String::new();
    if csl_source.author.is_some() {
        add_authors(csl_source, source_type, &mut pre);
    }
    add_title(csl_source, source_type, &mut pre);
    add_in(&mut pre);
    if csl_source.volume.is_some() {
        add_other_volume(csl_source, source_type, &mut pre);
    }
    if csl_source.container_title.is_some() {
        add_container_name(csl_source, source_type, user_journals, &mut pre);
    }
    if csl_source.page.is_some() {
        add_first_page(csl_source, &mut pre);
    }
    let mut post = String::new();
    if csl_source.edition.is_some() || csl_source.editor.is_some()
        || csl_source.translator.is_some() || csl_source.issued.is_some() {
        add_end_parenthetical(csl_source, source_type, &mut post);
    }
    if hereinafter {
        add_hereinafter(csl_source, source_type, &mut post);
    }
    let mut no_pin = pre.clone();
    no_pin.append(post.as_str());
    proof {
        assert(pre@ =~= chapter_pre_spec(csl_source@, *source_type, uj_view(*user_journals)));
        assert(post@ =~= chapter_post_spec(csl_source@, *source_type, hereinafter));
    }
    (no_pin, pre, post)
}

/// The pre-pincite half of a journal article's long cite: authors,
/// italicized title, volume, journal name, and first page.
pub open spec fn article_pre_spec(csl: CslModel, st: SourceType, uj: Seq<(Seq<char>, Seq<char>)>) -> Seq<
    char,
> {
    let authors: Seq<char> = if csl.author is Some {
        authors_spec(csl, st)
    } else {
        Seq::empty()
    };
    let vol: Seq<char> = if csl.volume is Some {
        other_volume_spec(csl, st)
    } else {
        Seq::empty()
    };
    let container: Seq<char> = if csl.container_title is Some {
        container_spec(csl, st, uj)
    } else {
        Seq::empty()
    };
    let page: Seq<char> = if csl.page is Some {
        first_page_spec(csl)
    } else {
        Seq::empty()
    };
    authors + title_spec(csl, st) + vol + container + page
}

/// Whether a volume string is a year standing in for a volume: exactly four
/// decimal digits.
pub open spec fn year_as_volume(v: Seq<char>) -> bool {
    v.len() == 4 && (forall|k: int| 0 <= k < v.len() ==> '0' <= #[trigger] v[k] && v[k] <= '9')
}

/// The post-pincite half of a journal article's long cite: the ending
/// parenthetical, omitted when the volume is a year standing in for a
/// volume, and any hereinafter clause.
pub open spec fn article_post_spec(csl: CslModel, st: SourceType, hereinafter: bool) -> Seq<char> {
    let paren: Seq<char> = if (csl.volume is Some && !year_as_volume(volume_of(csl))) && (
    csl.edition is Some || csl.editor is Some || csl.translator is Some || csl.issued is Some) {
        end_paren_spec(csl, st)
    } else {
        Seq::empty()
    };
    let h: Seq<char> = if hereinafter {
        hereinafter_spec(csl, st)
    } else {
        Seq::empty()
    };
    paren + h
}

/// Whether a volume string is exactly four decimal digits.
fn volume_is_year(v: &String) -> (r: bool)
    ensures
        r == year_as_volume(v@),
{
    let cv = crate::text::chars_of_string(v);
    if cv.len() != 4 {
        return false;
    }
    let mut k: usize = 0;
    while k < 4
        invariant
            cv@ == v@,
            cv@.len() == 4,
            k <= 4,
            forall|j: int| 0 <= j < k ==> '0' <= #[trigger] v@[j] && v@[j] <= '9',
        decreases 4 - k,
    {
        if !('0' <= cv[k] && cv[k] <= '9') {
            return false;
        }
        k = k + 1;
    }
    true
}

/// Build the long cite---with and without a pin---for a journal article.
pub fn build_journal_article_long(
    csl_source: &CSLSource,
    source_type: &SourceType,
    user_journals: &Option<UserJournals>,
    hereinafter: bool,
) -> (r: (String, String, String))
    requires
        csl_source.title is Some,
        hereinafter ==> csl_source.author is Some,
    ensures
        r.1@ == article_pre_spec(csl_source@, *source_type, uj_view(*user_journals)),
        r.2@ == article_post_spec(csl_source@, *source_type, hereinafter),
        r.0@ == r.1@ + r.2@,
{
    let mut pre = String::new();
    if csl_source.author.is_some() {
        add_authors(csl_source, source_type, &mut pre);
    }
    add_title(csl_source, source_type, &mut pre);
    if csl_source.volume.is_some() {
        add_other_volume(csl_source, source_type, &mut pre);
    }
    if csl_source.container_title.is_some() {
        add_container_name(csl_source, source_type, user_journals, &mut pre);
    }
    if csl_source.page.is_some() {
        add_first_page(csl_source, &mut pre);
    }
    let mut post = String::new();
    let vol_not_year: bool = match &csl_source.volume {
        Some(v) => !volume_is_year(v),
        None => false,
    };
    if vol_not_year && (csl_source.edition.is_some() || csl_source.editor.is_some()
        || csl_source.translator.is_some() || csl_source.issued.is_some()) {
        add_end_parenthetical(csl_source, source_type, &mut post);
    }
    if hereinafter {
        add_hereinafter(csl_source, source_type, &mut post);
    }
    let mut no_pin = pre.clone();
    no_pin.append(post.as_str());
    proof {
        assert(pre@ =~= article_pre_spec(csl_source@, *source_type, uj_view(*user_journals)));
        assert(post@ =~= article_post_spec(csl_source@, *source_type, hereinafter));
    }
    (no_pin, pre, post)
}

/// The pre-pincite half of a manuscript's long cite: authors, italicized
/// title, volume, journal name, and the forthcoming parenthetical.
pub open spec fn manuscript_pre_spec(
    csl: CslModel,
    st: SourceType,
    uj: Seq<(Seq<char>, Seq<char>)>,
) -> Seq<char> {
    let authors: Seq<char> = if csl.author is Some {
        authors_spec(csl, st)
    } else {
        Seq::empty()
    };
    let vol: Seq<char> = if csl.volume is Some {
        other_volume_spec(csl, st)
    } else {
        Seq::empty()
    };
    let container: Seq<char> = if csl.container_title is Some {
        container_spec(csl, st, uj)
    } else {
        Seq::empty()
    };
    let forth: Seq<char> = if csl.issued is Some && csl.issued->Some_0.date_parts is Some {
        forthcoming_spec(csl)
    } else {
        Seq::empty()
    };
    authors + title_spec(csl, st) + vol + container + forth
}

/// The post-pincite half of a manuscript's long cite: any hereinafter clause
/// and the url.
pub open spec fn manuscript_post_spec(csl: CslModel, st: SourceType, hereinafter: bool) -> Seq<
    char,
> {
    let h: Seq<char> = if hereinafter {
        hereinafter_spec(csl, st)
    } else {
        Seq::empty()
    };
    let u: Seq<char> = if csl.url is Some {
        url_spec(csl)
    } else {
        Seq::empty()
    };
    h + u
}

/// Build the long cite---with and without a pin---for a manuscript.
pub fn build_manuscript_long(
    csl_source: &CSLSource,
    source_type: &SourceType,
    user_journals: &Option<UserJournals>,
    hereinafter: bool,
) -> (r: (String, String, String))
    requires
        csl_source.title is Some,
        hereinafter ==> csl_source.author is Some,
    ensures
        r.1@ == manuscript_pre_spec(csl_source@, *source_type, uj_view(*user_journals)),
        r.2@ == manuscript_post_spec(csl_source@, *source_type, hereinafter),
        r.0@ == r.1@ + r.2@,
{
    let mut pre = String::new();
    if csl_source.author.is_some() {
        add_authors(csl_source, source_type, &mut pre);
    }
    add_title(csl_source, source_type, &mut pre);
    if csl_source.volume.is_some() {
        add_other_volume(csl_source, source_type, &mut pre);
    }
    if csl_source.container_title.is_some() {
        add_container_name(csl_source, source_type, user_journals, &mut pre);
    }
    let has_date: bool = match &csl_source.issued {
        Some(d) => d.date_parts.is_some(),
        None => false,
    };
    if has_date {
        add_forthcoming(csl_source, &mut pre);
    }
    let mut post = String::new();
    if hereinafter {
        add_hereinafter(csl_source, source_type, &mut post);
    }
    if csl_source.url.is_some() {
        add_url(csl_source, &mut post);
    }
    let mut no_pin = pre.clone();
    no_pin.append(post.as_str());
    proof {
        assert(pre@ =~= manuscript_pre_spec(csl_source@, *source_type, uj_view(*user_journals)));
        assert(post@ =~= manuscript_post_spec(csl_source@, *source_type, hereinafter));
    }
    (no_pin, pre, post)
}

} // verus!
