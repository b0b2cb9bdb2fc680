//! Behavioral tests of the pipeline's laws on concrete documents: rendering
//! already-resolved text again, footnote numbering with an offset, first
//! citations, hereinafter marking, cross-references, error conditions, and
//! the small-caps rewrite.

use supra::csljson::build_csl_lib;
use supra::options::smallcaps;
use supra::pre::pre;
use supra::text::int_to_string;

const LIB: &str = r#"[
    {"id": "one2020", "type": "book", "title": "A Book About Things: Long Title", "title-short": "A Book About Things",
     "author": [{"family": "Writer", "given": "Ann"}], "issued": {"date-parts": [[2020]]}},
    {"id": "two2021", "type": "book", "title": "Another Book About Things", "title-short": "Another Book",
     "author": [{"family": "Writer", "given": "Ann"}], "issued": {"date-parts": [[2021]]}},
    {"id": "three2019", "type": "article-journal", "title": "An Article", "title-short": "Article",
     "author": [{"family": "Penner", "given": "Bo"}], "container-title": "Journal of Journal Articles",
     "container-title-short": "J. J. Articles", "page": "7", "volume": "12",
     "issued": {"date-parts": [[2019]]}},
    {"id": "untitled2000", "type": "book",
     "author": [{"family": "Quiet", "given": "Una"}], "issued": {"date-parts": [[2000]]}}
]"#;

/// Re-running the pipeline on text with no remaining markers is a no-op.
#[test]
fn rerun_is_noop() {
    let input = "First pass.^[[@three2019] at 9.] Done.";
    let once = pre(input, LIB, &None, 0, false).unwrap();
    let twice = pre(&once, LIB, &None, 0, false).unwrap();
    assert_eq!(once, twice);
    // And text with no markers at all passes through unchanged.
    let plain = "No markers here at all; just prose with **bold** and [brackets].";
    assert_eq!(pre(plain, LIB, &None, 0, false).unwrap(), plain);
}

/// Footnote numbers start at the offset plus one, in document order.
#[test]
fn offset_numbering() {
    let input = "A.^[[?a] Note.] B.^[[?b] Note.] C.^[See *supra* notes [?a] and [?b].]";
    let out = pre(input, LIB, &None, 10, false).unwrap();
    assert_eq!(out, "A.^[Note.] B.^[Note.] C.^[See *supra* notes 11 and 12.]");
}

/// A source's first rendered occurrence is the long form, and a later one
/// the supra short form.
#[test]
fn first_long_then_supra() {
    let input = "One.^[[@three2019].] Two.^[Text. [@one2020].] Three.^[[@three2019] at 9.]";
    let out = pre(input, LIB, &None, 0, false).unwrap();
    let expected = String::from("One.^[Bo Penner, *An Article*, 12 **J. J. Articles** 7 (2019).] ")
        + "Two.^[Text. **Ann Writer**, **A Book About Things: Long Title** (2020).] "
        + "Three.^[Penner, *supra* note 1, at 9.]";
    assert_eq!(out, expected);
}

/// Two citations to the same source with nothing in between render as an
/// `*Id.*`; an intervening different source breaks the chain.
#[test]
fn id_and_intervening() {
    let input = "A.^[[@three2019] at 9.] B.^[[@three2019] at 9.] C.^[[@one2020].] D.^[[@three2019] at 12.]";
    let out = pre(input, LIB, &None, 0, false).unwrap();
    assert!(out.contains("B.^[*Id.*]"));
    assert!(out.contains("D.^[Penner, *supra* note 1, at 12.]"));
}

/// Two sources sharing a short author both carry hereinafter clauses; a
/// unique short author never does.
#[test]
fn hereinafter_marking() {
    let input = "A.^[[@one2020].] B.^[[@two2021].] C.^[[@three2019].] D.^[Text. [@one2020] at 3.]";
    let out = pre(input, LIB, &None, 0, false).unwrap();
    assert!(out.contains("[hereinafter **Writer**, **A Book About Things**]"));
    assert!(out.contains("[hereinafter **Writer**, **Another Book**]"));
    assert!(!out.contains("[hereinafter Penner"));
    assert!(out.contains("D.^[Text. **Writer**, **A Book About Things**, *supra* note 1, at 3.]"));
}

/// An unresolved cross-reference id stays in the output as written.
#[test]
fn unresolved_crossref_stays() {
    let input = "A.^[*See* *supra* note [?missing].]";
    let out = pre(input, LIB, &None, 0, false).unwrap();
    assert_eq!(out, "A.^[*See* *supra* note [?missing].]");
}

/// An unterminated footnote aborts the run.
#[test]
fn unterminated_footnote_errors() {
    let r = pre("Text.^[An open footnote", LIB, &None, 0, false);
    assert!(r.is_err());
    assert!(r.unwrap_err().contains("open footnote"));
}

/// A cited source without a title aborts the run; an uncited one does not.
#[test]
fn missing_title_errors() {
    let bad = pre("A.^[[@untitled2000].]", LIB, &None, 0, false);
    assert!(bad.is_err());
    assert!(bad.unwrap_err().contains("does not have a title"));
    let fine = pre("A.^[[@one2020].]", LIB, &None, 0, false);
    assert!(fine.is_ok());
}

/// A reference missing from the library passes through unresolved, and a
/// cite-break after it resets the citation history.
#[test]
fn unknown_reference_passes_through() {
    let input = "A.^[[@one2020].] B.^[[@nowhere1999] at 2.] C.^[[@one2020].]";
    let out = pre(input, LIB, &None, 0, false).unwrap();
    assert!(out.contains("B.^[[@nowhere1999] at 2.]"));
    // The third footnote is a supra, not an *Id.*: the unresolved citation
    // broke the chain.
    assert!(out.contains("C.^[**Writer**, *supra* note 1.]"));
}

/// Malformed JSON is reported with the deserialization prefix.
#[test]
fn bad_library_errors() {
    let r = pre("Text.", "this is not json", &None, 0, false);
    assert!(r.is_err());
    assert!(r.unwrap_err().contains("error deserializing the CSL JSON"));
    assert!(build_csl_lib("{}").is_err());
}

/// A malformed user-journal table is reported with its own prefix.
#[test]
fn bad_user_journals_error() {
    let r = pre("Text.", LIB, &Some(String::from("not ron at all ((")), 0, false);
    assert!(r.is_err());
    assert!(r.unwrap_err().contains("error deserializing the user journal file"));
}

/// The small-caps rewrite turns each bolded span into a styled span.
#[test]
fn smallcaps_rewrite() {
    assert_eq!(
        smallcaps("See **Author**, at **3**."),
        "See [Author]{custom-style=\"True Small Caps\"}, at [3]{custom-style=\"True Small Caps\"}."
    );
    assert_eq!(smallcaps("no bold here"), "no bold here");
}

/// Decimal formatting matches the standard library's.
#[test]
fn number_formatting() {
    assert_eq!(int_to_string(0), "0");
    assert_eq!(int_to_string(407), "407");
    assert_eq!(int_to_string(-12), "-12");
    assert_eq!(int_to_string(i32::MAX), i32::MAX.to_string());
    assert_eq!(int_to_string(i32::MIN), i32::MIN.to_string());
}

/// The beyond-the-window rule: a case cited again past the lookback window
/// renders long form, within it short form.
#[test]
fn case_lookback_window() {
    let case_lib = r#"[
        {"id": "PvD1990", "type": "legal_case", "title": "P v. D", "title-short": "P",
         "container-title": "F.3d", "authority": "1st Cir.", "page": "10", "volume": "90",
         "issued": {"date-parts": [[1990]]}},
        {"id": "side2001", "type": "book", "title": "A Side Book", "title-short": "Side",
         "author": [{"family": "Other", "given": "An"}], "issued": {"date-parts": [[2001]]}}
    ]"#;
    let input = "1.^[[@PvD1990].] 2.^[[@side2001].] 3.^[N.] 4.^[N.] 5.^[N.] 6.^[N.] 7.^[N.] 8.^[[@PvD1990].]";
    let out = pre(input, case_lib, &None, 0, false).unwrap();
    assert!(out.contains("8.^[P v. D, 90 F.3d 10 (1st Cir. 1990).]"));
    let input2 = "1.^[[@PvD1990].] 2.^[[@side2001].] 3.^[[@PvD1990].]";
    let out2 = pre(input2, case_lib, &None, 0, false).unwrap();
    assert!(out2.contains("3.^[*P*, 90 F.3d 10.]"));
}

/// A volume of exactly four digits is a year standing in for a volume, and
/// drops the ending year parenthetical; a four-character volume that is not
/// all digits keeps it.
#[test]
fn year_as_volume_is_digits() {
    let lib = r#"[
        {"id": "yr2020", "type": "article-journal", "title": "One", "title-short": "One",
         "author": [{"family": "Aa", "given": "B"}], "container-title-short": "J. J.",
         "container-title": "JJ", "page": "5", "volume": "2020",
         "issued": {"date-parts": [[2020]]}},
        {"id": "vol2020", "type": "article-journal", "title": "Two", "title-short": "Two",
         "author": [{"family": "Cc", "given": "D"}], "container-title-short": "J. K.",
         "container-title": "JK", "page": "9", "volume": "12-A",
         "issued": {"date-parts": [[2020]]}}
    ]"#;
    let out = pre("A.^[[@yr2020].] B.^[[@vol2020].]", lib, &None, 0, false).unwrap();
    assert!(out.contains("A.^[B Aa, *One*, 2020 **J. J.** 5.]"));
    assert!(out.contains("B.^[D Cc, *Two*, 12-A **J. K.** 9 (2020).]"));
}

/// `ex rel.` sub-phrases of a case name are italicized without alteration.
#[test]
fn case_name_sub_phrases() {
    let lib = r#"[
        {"id": "rel1999", "type": "legal_case", "title": "State ex rel. Able v. Baker",
         "title-short": "Able", "container-title": "F.3d", "authority": "2d Cir.",
         "page": "4", "volume": "77", "issued": {"date-parts": [[1999]]}},
        {"id": "inre2000", "type": "legal_case", "title": "In re Custodian",
         "title-short": "Custodian", "container-title": "F.3d", "authority": "3d Cir.",
         "page": "8", "volume": "78", "issued": {"date-parts": [[2000]]}}
    ]"#;
    let out = pre("A.^[[@rel1999].] B.^[[@inre2000].]", lib, &None, 0, false).unwrap();
    assert!(out.contains("A.^[State *ex rel.* Able v. Baker, 77 F.3d 4 (2d Cir. 1999).]"));
    assert!(out.contains("B.^[*In re* Custodian, 78 F.3d 8 (3d Cir. 2000).]"));
}

/// Discovery warnings name unknown keys and missing or unsupported types,
/// once per distinct skipped source, while the run itself still succeeds.
#[test]
fn discovery_warnings_reported() {
    let lib = r#"[
        {"id": "typeless2001", "title": "No Type Here"},
        {"id": "webby2002", "type": "webpage", "title": "A Page"},
        {"id": "one2020", "type": "book", "title": "A Book",
         "author": [{"family": "Writer", "given": "Ann"}], "issued": {"date-parts": [[2020]]}}
    ]"#;
    let input = "A.^[[@ghost1999].] B.^[[@typeless2001].] C.^[[@webby2002].] D.^[[@one2020].]";
    let warnings = supra::pre::pre_warnings(input, lib, 0).unwrap();
    assert_eq!(warnings.len(), 3);
    assert_eq!(
        warnings[0],
        "ghost1999 was not found in the CSL JSON library; not adding to source map"
    );
    assert_eq!(warnings[1], "typeless2001 does not have a type; not adding to source map");
    assert_eq!(warnings[2], "webby2002's type (webpage) is not supported; not adding to source map");
    assert!(pre(input, lib, &None, 0, false).is_ok());
}
