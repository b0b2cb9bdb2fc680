//! Tests for the user-journal table and the post-processing text
//! transforms.

use supra::post::{add_mark, add_note, no_superscript, tabbed_footnotes};
use supra::userjournals::{build_user_journals, lookup_user_journal};

#[test]
fn userjournals_basic_build() {
    let ron_string = r#"
{
    "Journal of Stuff":"J. Stuff",
    "Journal of More Stuff":"J. More Stuff",
}
"#;
    let output = build_user_journals(ron_string).unwrap();

    assert_eq!(
        lookup_user_journal(&output, &String::from("Journal of Stuff")).as_deref(),
        Some("J. Stuff")
    );
    assert_eq!(
        lookup_user_journal(&output, &String::from("Journal of More Stuff")).as_deref(),
        Some("J. More Stuff")
    );
}

#[test]
fn test_add_mark() {
        let mut doc = r#"<w:r><w:t xml:space="preserve">Test</w:t></w:r><w:r><w:t xml:space="preserve"> </w:t></w:r><w:r><w:t xml:space="preserve">Author</w:t></w:r></w:p>"#.to_string();
        let name = "Author";

        doc = add_mark(doc, name).unwrap();

        assert_eq!(doc, r#"<w:r><w:t xml:space="preserve">Test</w:t></w:r><w:r><w:t xml:space="preserve"> </w:t></w:r><w:r><w:t xml:space="preserve">Author</w:t></w:r><w:r><w:rPr><w:rStyle w:val="FootnoteReference" /></w:rPr><w:footnoteReference w:customMarkFollows="1" w:id="1"/><w:t>*</w:t></w:r></w:p>"#.to_string())
    }

#[test]
fn test_add_note() {
        let mut fns = r#"<?xml version="1.0" encoding="UTF-8"?><w:footnotes xmlns:w="http://schemas.openxmlformats.org/wordprocessingml/2006/main" xmlns:m="http://schemas.openxmlformats.org/officeDocument/2006/math" xmlns:r="http://schemas.openxmlformats.org/officeDocument/2006/relationships" xmlns:o="urn:schemas-microsoft-com:office:office" xmlns:v="urn:schemas-microsoft-com:vml" xmlns:w10="urn:schemas-microsoft-com:office:word" xmlns:a="http://schemas.openxmlformats.org/drawingml/2006/main" xmlns:pic="http://schemas.openxmlformats.org/drawingml/2006/picture" xmlns:wp="http://schemas.openxmlformats.org/drawingml/2006/wordprocessingDrawing"><w:footnote w:type="continuationSeparator" w:id="0"><w:p><w:r><w:continuationSeparator /></w:r></w:p></w:footnote><w:footnote w:type="separator" w:id="-1"><w:p><w:r><w:separator /></w:r></w:p></w:footnote><w:footnote w:id="20">"#.to_string();
        let note = "Author Note Text".to_string();

        fns = add_note(fns, &note).unwrap();

        assert_eq!(
            fns,
            r#"<?xml version="1.0" encoding="UTF-8"?><w:footnotes xmlns:w="http://schemas.openxmlformats.org/wordprocessingml/2006/main" xmlns:m="http://schemas.openxmlformats.org/officeDocument/2006/math" xmlns:r="http://schemas.openxmlformats.org/officeDocument/2006/relationships" xmlns:o="urn:schemas-microsoft-com:office:office" xmlns:v="urn:schemas-microsoft-com:vml" xmlns:w10="urn:schemas-microsoft-com:office:word" xmlns:a="http://schemas.openxmlformats.org/drawingml/2006/main" xmlns:pic="http://schemas.openxmlformats.org/drawingml/2006/picture" xmlns:wp="http://schemas.openxmlformats.org/drawingml/2006/wordprocessingDrawing"><w:footnote w:type="continuationSeparator" w:id="0"><w:p><w:r><w:continuationSeparator /></w:r></w:p></w:footnote><w:footnote w:type="separator" w:id="-1"><w:p><w:r><w:separator /></w:r></w:p></w:footnote><w:footnote w:id="1"><w:p><w:pPr><w:pStyle w:val="FootnoteText"/></w:pPr><w:r><w:rPr><w:rStyle w:val="FootnoteReference" /></w:rPr><w:t>*</w:t></w:r><w:r><w:t xml:space="preserve"> </w:t></w:r><w:r><w:t xml:space="preserve">Author Note Text</w:t></w:r></w:p></w:footnote><w:footnote w:id="20">"#
        );
    }

#[test]
fn test_no_superscript() {
        let input = r#"<w:rStyle w:val="FootnoteReference" />"#.to_string();
        let output = no_superscript(input).unwrap();
        assert_eq!(
            &output,
            r#"<w:rStyle w:val="FootnoteReference"/><w:vertAlign w:val="baseline"/>"#
        );
    }

#[test]
fn test_tab() {
        let input = "\n</w:r><w:r><w:t xml:space=\"preserve\"> </w:t></w:r>".to_string();
        let output = tabbed_footnotes(input).unwrap();
        assert_eq!(&output, "</w:r><w:r><w:tab/></w:r>");
    }
