//! Creating sources: the initial record for a discovered citation, and the
//! long- and short-cite synthesis dispatched by source type.

use crate::build_types::{
    article_post_spec, article_pre_spec, book_post_spec, book_pre_spec, build_book_long,
    build_case_long, build_chapter_long, build_journal_article_long, build_manuscript_long,
    case_post_spec, case_pre_spec, chapter_post_spec, chapter_pre_spec, manuscript_post_spec,
    manuscript_pre_spec,
};
use crate::citetools::{
    add_other_volume, add_short_author, add_short_title, container_of, other_volume_spec,
    short_author_styled, short_title_spec, uj_view,
};
use crate::csljson::{CSLSource, CslModel};
use crate::sourcemap::{Source, SourceType};
use crate::text::{int_str, int_to_string};
use crate::userjournals::UserJournals;
use vstd::prelude::*;

verus! {

/// The short author stored on a new source: styled for every kind of source
/// but cases, which use short titles instead.  A source without recorded
/// authors gets an empty short author.
pub open spec fn source_short_author(csl: CslModel, st: SourceType) -> Seq<char> {
    if !(st is Case) && csl.author is Some {
        short_author_styled(csl, st)
    } else {
        Seq::empty()
    }
}

/// Builds a [`Source`].
///
/// The new source records the raw reference token, the bibliography key, the
/// position of the record in the CSL library, and the footnote in which the
/// source was first cited.  Its citation strings are synthesized later.
pub fn build_source(
    csl_source: &CSLSource,
    reference: String,
    id: String,
    csl_index: usize,
    source_type: SourceType,
    first_footnote: i32,
) -> (r: Result<Source, String>)
    ensures
        r matches Ok(s) && ({
            &&& s.reference == reference
            &&& s.id == id
            &&& s.csl_index == csl_index
            &&& s.source_type == source_type
            &&& s.all_footnotes@ == seq![first_footnote]
            &&& s.long_cite_no_pin is None
            &&& s.long_cite_w_pin is None
            &&& s.short_cite_no_pin is None
            &&& s.short_cite_w_pin is None
            &&& match s.short_author {
                Some(sa) => sa@ == source_short_author(csl_source@, source_type),
                None => false,
            }
            &&& s.cited == false
            &&& s.hereinafter == false
        }),
{
    // A short author is necessary to check hereinafters.
    let mut short_author = String::new();
    if source_type != SourceType::Case && csl_source.author.is_some() {
        add_short_author(csl_source, &source_type, &mut short_author);
    }
    let mut all_footnotes: Vec<i32> = Vec::new();
    all_footnotes.push(first_footnote);
    proof {
        assert(all_footnotes@ =~= seq![first_footnote]);
        assert(short_author@ =~= source_short_author(csl_source@, source_type));
    }
    Ok(
        Source {
            reference,
            id,
            csl_index,
            source_type,
            all_footnotes,
            long_cite_no_pin: None,
            long_cite_w_pin: None,
            short_cite_no_pin: None,
            short_cite_w_pin: None,
            short_author: Some(short_author),
            cited: false,
            hereinafter: false,
        },
    )
}

/// The message for a record that cannot be cited in any form.
pub open spec fn no_title_msg(csl: CslModel) -> Seq<char> {
    csl.id + " does not have a title"@
}

/// The pre-pincite half of a source's long cite, by source type.
pub open spec fn long_pre_spec(
    csl: CslModel,
    st: SourceType,
    uj: Seq<(Seq<char>, Seq<char>)>,
) -> Seq<char> {
    match st {
        SourceType::Book => book_pre_spec(csl, st),
        SourceType::Case => case_pre_spec(csl, st, uj),
        SourceType::Chapter => chapter_pre_spec(csl, st, uj),
        SourceType::JournalArticle => article_pre_spec(csl, st, uj),
        SourceType::Manuscript => manuscript_pre_spec(csl, st, uj),
        SourceType::Other => Seq::empty(),
    }
}

/// The post-pincite half of a source's long cite, by source type.
pub open spec fn long_post_spec(csl: CslModel, st: SourceType, hereinafter: bool) -> Seq<char> {
    match st {
        SourceType::Book => book_post_spec(csl, st, hereinafter),
        SourceType::Case => case_post_spec(csl, st),
        SourceType::Chapter => chapter_post_spec(csl, st, hereinafter),
        SourceType::JournalArticle => article_post_spec(csl, st, hereinafter),
        SourceType::Manuscript => manuscript_post_spec(csl, st, hereinafter),
        SourceType::Other => Seq::empty(),
    }
}

/// Build the long cite---with and without a pin---for a source.
///
/// A source without a title cannot be cited at all, and an unsupported
/// source type cannot be formatted; both are errors.
pub fn build_long_cite(
    csl_source: &CSLSource,
    source_type: SourceType,
    user_journals: &Option<UserJournals>,
    hereinafter: bool,
) -> (r: Result<(String, String, String), String>)
    requires
        hereinafter ==> csl_source.author is Some,
    ensures
        match r {
            Ok(c) => csl_source.title is Some && !(source_type is Other) && c.1@ == long_pre_spec(
                csl_source@,
                source_type,
                uj_view(*user_journals),
            ) && c.2@ == long_post_spec(csl_source@, source_type, hereinafter) && c.0@ == c.1@
                + c.2@,
            Err(e) => (csl_source.title is None && e@ == no_title_msg(csl_source@)) || (
            csl_source.title is Some && source_type is Other),
        },
{
    // If there's no title, give up and return an error.
    if csl_source.title.is_none() {
        let mut msg = csl_source.id.clone();
        msg.append(" does not have a title");
        return Err(msg);
    }
    match source_type {
        SourceType::Book => Ok(build_book_long(csl_source, &source_type, hereinafter)),
        SourceType::Case => Ok(build_case_long(csl_source, &source_type, user_journals)),
        SourceType::Chapter => Ok(
            build_chapter_long(csl_source, &source_type, user_journals, hereinafter),
        ),
        SourceType::JournalArticle => Ok(
            build_journal_article_long(csl_source, &source_type, user_journals, hereinafter),
        ),
        SourceType::Manuscript => Ok(
            build_manuscript_long(csl_source, &source_type, user_journals, hereinafter),
        ),
        SourceType::Other => Err(String::from_str("Cannot build cite for source type `Other`")),
    }
}

/// The base of a source's short cite.  For cases: short title, volume, and
/// reporter.  Otherwise: short author, the short title when a hereinafter
/// was declared, and the `*supra*` reference to the first footnote.
pub open spec fn short_base_spec(
    csl: CslModel,
    st: SourceType,
    first_footnote: int,
    hereinafter: bool,
) -> Seq<char> {
    if st is Case {
        let vol: Seq<char> = if csl.volume is Some {
            other_volume_spec(csl, st)
        } else {
            Seq::empty()
        };
        let container: Seq<char> = if csl.container_title is Some {
            container_of(csl)
        } else {
            Seq::empty()
        };
        short_title_spec(csl, st) + vol + container
    } else {
        let author: Seq<char> = if csl.author is Some {
            short_author_styled(csl, st)
        } else {
            Seq::empty()
        };
        let h: Seq<char> = if hereinafter {
            ", "@ + short_title_spec(csl, st)
        } else {
            Seq::empty()
        };
        author + h + ", *supra* note "@ + int_str(first_footnote)
    }
}

/// A source's full no-pincite short cite: for cases, the base plus the first
/// page; otherwise the base itself.
pub open spec fn short_no_pin_spec(
    csl: CslModel,
    st: SourceType,
    first_footnote: int,
    hereinafter: bool,
) -> Seq<char> {
    let base = short_base_spec(csl, st, first_footnote, hereinafter);
    if st is Case && csl.page is Some {
        base + " "@ + csl.page->Some_0
    } else {
        base
    }
}

/// Build the short cite---with and without a pin---for a source.
pub fn build_short_cite(
    csl_source: &CSLSource,
    source_type: &SourceType,
    first_footnote: i32,
    hereinafter: bool,
) -> (r: (String, String))
    requires
        (*source_type is Case || hereinafter) ==> (csl_source.title_short is Some
            || csl_source.title is Some),
    ensures
        r.0@ == short_no_pin_spec(csl_source@, *source_type, first_footnote as int, hereinafter),
        r.1@ == short_base_spec(csl_source@, *source_type, first_footnote as int, hereinafter),
{
    let mut short_cite = String::new();
    if source_type == &SourceType::Case {
        add_short_title(csl_source, source_type, &mut short_cite);
        if csl_source.volume.is_some() {
            add_other_volume(csl_source, source_type, &mut short_cite);
        }
        match &csl_source.container_title {
            Some(ct) => {
                short_cite.append(ct.as_str());
            },
            None => {},
        }
        proof {
            assert(short_cite@ =~= short_base_spec(
                csl_source@,
                *source_type,
                first_footnote as int,
                hereinafter,
            ));
        }
        match &csl_source.page {
            Some(p) => {
                let mut no_pin = short_cite.clone();
                no_pin.append(" ");
                no_pin.append(p.as_str());
                (no_pin, short_cite)
            },
            None => {
                let no_pin = short_cite.clone();
                (no_pin, short_cite)
            },
        }
    } else {
        if csl_source.author.is_some() {
            add_short_author(csl_source, source_type, &mut short_cite);
        }
        if hereinafter {
            short_cite.append(", ");
            add_short_title(csl_source, source_type, &mut short_cite);
        }
        short_cite.append(", *supra* note ");
        let n = int_to_string(first_footnote);
        short_cite.append(n.as_str());
        proof {
            assert(short_cite@ =~= short_base_spec(
                csl_source@,
                *source_type,
                first_footnote as int,
                hereinafter,
            ));
        }
        let no_pin = short_cite.clone();
        (no_pin, short_cite)
    }
}

} // verus!
