//! Tests for the citation tools: author formatting, reverse
//! italicization, and journal-name abbreviation.

use supra::citetools::{build_long_author, build_short_author, build_short_journal, reverse_italicize};
use supra::csljson::NameVariable;

#[test]
fn one_long_author() {
            let name_one = NameVariable {
                family: Some("Family".to_string()),
                given: Some("Given".to_string()),
                non_dropping_particle: Some("Non Dropping Particle".to_string()),
                suffix: Some("Suffix".to_string()),
            };
            let test_vec = vec![name_one];
            let long_author = build_long_author(&test_vec);

            assert_eq!(long_author, "Given Non Dropping Particle Family Suffix");
        }

#[test]
fn two_long_authors() {
            let name_one = NameVariable {
                family: Some("Family".to_string()),
                given: Some("Given".to_string()),
                non_dropping_particle: Some("Non Dropping Particle".to_string()),
                suffix: Some("Suffix".to_string()),
            };
            let name_two = NameVariable {
                family: Some("Family".to_string()),
                given: Some("Given".to_string()),
                non_dropping_particle: Some("Non Dropping Particle".to_string()),
                suffix: Some("Suffix".to_string()),
            };
            let test_vec = vec![name_one, name_two];
            let long_author = build_long_author(&test_vec);

            assert_eq!(
            long_author,
            "Given Non Dropping Particle Family Suffix & Given Non Dropping Particle Family Suffix"
        );
        }

#[test]
fn three_long_authors() {
            let name_one = NameVariable {
                family: Some("Family".to_string()),
                given: Some("Given".to_string()),
                non_dropping_particle: Some("Non Dropping Particle".to_string()),
                suffix: Some("Suffix".to_string()),
            };
            let name_two = NameVariable {
                family: Some("Family".to_string()),
                given: Some("Given".to_string()),
                non_dropping_particle: Some("Non Dropping Particle".to_string()),
                suffix: Some("Suffix".to_string()),
            };
            let name_three = NameVariable {
                family: Some("Family".to_string()),
                given: Some("Given".to_string()),
                non_dropping_particle: Some("Non Dropping Particle".to_string()),
                suffix: Some("Suffix".to_string()),
            };
            let test_vec = vec![name_one, name_two, name_three];
            let long_author = build_long_author(&test_vec);

            assert_eq!(
            long_author,
            "Given Non Dropping Particle Family Suffix, Given Non Dropping Particle Family Suffix & Given Non Dropping Particle Family Suffix"
        );
        }

#[test]
fn one_short_author() {
            let name_one = NameVariable {
                family: Some("Family".to_string()),
                given: Some("Given".to_string()),
                non_dropping_particle: Some("Non Dropping Particle".to_string()),
                suffix: Some("Suffix".to_string()),
            };
            let test_vec = vec![name_one];
            let short_author = build_short_author(&test_vec);

            assert_eq!(short_author, "Non Dropping Particle Family");
        }

#[test]
fn two_short_authors() {
            let name_one = NameVariable {
                family: Some("Family".to_string()),
                given: Some("Given".to_string()),
                non_dropping_particle: Some("Non Dropping Particle".to_string()),
                suffix: Some("Suffix".to_string()),
            };
            let name_two = NameVariable {
                family: Some("Family".to_string()),
                given: Some("Given".to_string()),
                non_dropping_particle: Some("Non Dropping Particle".to_string()),
                suffix: Some("Suffix".to_string()),
            };
            let test_vec = vec![name_one, name_two];
            let short_author = build_short_author(&test_vec);

            assert_eq!(
                short_author,
                "Non Dropping Particle Family & Non Dropping Particle Family"
            );
        }

#[test]
fn three_short_authors() {
            let name_one = NameVariable {
                family: Some("Family".to_string()),
                given: Some("Given".to_string()),
                non_dropping_particle: Some("Non Dropping Particle".to_string()),
                suffix: Some("Suffix".to_string()),
            };
            let name_two = NameVariable {
                family: Some("Family".to_string()),
                given: Some("Given".to_string()),
                non_dropping_particle: Some("Non Dropping Particle".to_string()),
                suffix: Some("Suffix".to_string()),
            };
            let name_three = NameVariable {
                family: Some("Family".to_string()),
                given: Some("Given".to_string()),
                non_dropping_particle: Some("Non Dropping Particle".to_string()),
                suffix: Some("Suffix".to_string()),
            };
            let test_vec = vec![name_one, name_two, name_three];
            let short_author = build_short_author(&test_vec);

            assert_eq!(short_author, "Non Dropping Particle Family et al.");
        }

#[test]
fn partial_authors() {
            let name_one = NameVariable {
                family: Some("van Beethoven".to_string()),
                given: Some("Ludwig".to_string()),
                non_dropping_particle: None,
                suffix: None,
            };
            let name_two = NameVariable {
                family: Some("Johnson".to_string()),
                given: Some("Sam".to_string()),
                non_dropping_particle: None,
                suffix: Some("Jr.".to_string()),
            };
            let name_three = NameVariable {
                family: Some("Smith".to_string()),
                given: Some("Jane".to_string()),
                non_dropping_particle: None,
                suffix: None,
            };
            let test_vec = vec![name_one, name_two, name_three];
            let long_author = build_long_author(&test_vec);
            let short_author = build_short_author(&test_vec);

            assert_eq!(
                long_author,
                "Ludwig van Beethoven, Sam Johnson, Jr. & Jane Smith"
            );
            assert_eq!(short_author, "van Beethoven et al.");
        }

#[test]
fn particles() {
            let name_one = NameVariable {
                family: Some("Stefan".to_string()),
                given: Some("Lindsay".to_string()),
                non_dropping_particle: Some("de".to_string()),
                suffix: None,
            };
            let test_vec = vec![name_one];
            let long_author = build_long_author(&test_vec);
            let short_author = build_short_author(&test_vec);

            assert_eq!(long_author, "Lindsay de Stefan");
            assert_eq!(short_author, "de Stefan");
        }

#[test]
fn nothing_italicized() {
            let in_title = "An Article About Some Stuff";
            let out_title = reverse_italicize(in_title);

            assert_eq!(&out_title, "*An Article About Some Stuff*");
        }

#[test]
fn only_italicized() {
            let in_title = "<i>United States v. Johnson</i>";
            let out_title = reverse_italicize(in_title);

            assert_eq!(&out_title, "United States v. Johnson");
        }

#[test]
fn start_italicized() {
            let in_title = "<i>United States v. Johnson</i> and Other Stuff";
            let out_title = reverse_italicize(in_title);

            assert_eq!(&out_title, "United States v. Johnson *and Other Stuff*");
        }

#[test]
fn end_italicized() {
            let in_title = "Some Stuff and <i>United States v. Johnson</i>";
            let out_title = reverse_italicize(in_title);

            assert_eq!(&out_title, "*Some Stuff and* United States v. Johnson");
        }

#[test]
fn middle_italicized() {
            let in_title = "Some Stuff About <i>United States v. Johnson</i> and Other Stuff";
            let out_title = reverse_italicize(in_title);

            assert_eq!(
                &out_title,
                "*Some Stuff About* United States v. Johnson *and Other Stuff*",
            );
        }

#[test]
fn start_and_end_italicized() {
            let in_title = "<i>United States v. Johnson</i>, Some Stuff, and <i>Smith v. Jones</i>";
            let out_title = reverse_italicize(in_title);

            assert_eq!(
                &out_title,
                "United States v. Johnson*, Some Stuff, and* Smith v. Jones",
            );
        }

#[test]
fn start_middle_and_end_italicized() {
            let in_title = "<i>United States v. Johnson</i>, the Rule in <i>Jane's Case</i>, and <i>Smith v. Jones</i>";
            let out_title = reverse_italicize(in_title);

            assert_eq!(
                &out_title,
                "United States v. Johnson*, the Rule in* Jane's Case*, and* Smith v. Jones",
            );
        }

#[test]
fn puncuation() {
            let in_title1 = "The Rule in <i>Rooker</i>-<i>Feldman</i>";
            let out_title1 = reverse_italicize(in_title1);

            let in_title2 = "<i>United States v. Johnson</i>'s Rule About Stuff";
            let out_title2 = reverse_italicize(in_title2);

            assert_eq!(&out_title1, "*The Rule in* Rooker*-*Feldman",);

            assert_eq!(&out_title2, "United States v. Johnson*'s Rule About Stuff*");
        }

#[test]
fn saved_journal() {
            let long_name = "ABA Journal of Labor & Employment Law";
            let short_name = build_short_journal(long_name, &None);

            assert_eq!(&short_name, "A.B.A. J. Lab. & Emp. L.");
        }

#[test]
fn unknown_journal_simple() {
            let long_name = "Journal of Appellate Practice and Process";
            let short_name = build_short_journal(long_name, &None);

            assert_eq!(&short_name, "J. App. Prac. & Process");
        }

#[test]
fn unknown_journal_multiword() {
            let long_name1 = "New York Journal of Products Liability Law";
            let short_name1 = build_short_journal(long_name1, &None);

            let long_name2 = "Boston College Review of Rhode Island Law";
            let short_name2 = build_short_journal(long_name2, &None);

            assert_eq!(&short_name1, "N.Y. J. Prod. Liab. L.");
            assert_eq!(&short_name2, "B.C. Rev. R.I. L.")
        }

#[test]
fn unkowable_journal() {
            let long_name = "Not a Journal Title";
            let short_name = build_short_journal(long_name, &None);

            assert_eq!(&short_name, "Not J. Title");
        }

#[test]
fn user_journal() {
    let user_journals = Some(vec![
        (
            String::from("Journal of Stuff that Won't Abbreviate"),
            String::from("J. Stuff Won't Abbrev."),
        ),
        (String::from("Journal of More Stuff"), String::from("J. More Stuff")),
        (String::from("Legal Stuff Law Review"), String::from("Legal Stuff L. Rev.")),
    ]);
    let long_name = "Journal of Stuff that Won't Abbreviate";
    let short_name = build_short_journal(long_name, &user_journals);

    assert_eq!(&short_name, "J. Stuff Won't Abbrev.");
}
