//! Tests for the parser: citation assembly, pincite parsing, and the
//! structure of parsed footnotes.

use supra::lexer::{Token, TokenType};
use supra::parser::{cite_parser, footnote_parser, pin_parser};

fn t(token_type: TokenType, contents: &str) -> Token {
    Token::new(token_type, String::from(contents))
}

#[test]
fn parser_complex_footnote() {
    let footnote_tokens = vec![
        t(TokenType::ID, "[?complex_id]"),
        t(TokenType::Reference, "[@jones2021]"),
        t(TokenType::Pincite, " at 100"),
        t(TokenType::Parenthetical, "(explaining complicated stuff)"),
        t(TokenType::CitePunctuation, "."),
        t(
            TokenType::Text,
            " This footnote is a bit complicated. *See, e.g.*, Source not in the library; ",
        ),
        t(TokenType::CiteBreak, "[$]"),
        t(TokenType::Reference, "[@smith2020]"),
        t(TokenType::Pincite, " at 10--12"),
        t(TokenType::Parenthetical, "(super-complicated discussion)"),
        t(TokenType::CitePunctuation, ";"),
        t(TokenType::Reference, "[@johnson2019]"),
        t(TokenType::Pincite, " at 500, 550 n.5"),
        t(TokenType::Parenthetical, "(similarly complicated discussion)"),
        t(TokenType::CitePunctuation, "."),
        t(
            TokenType::Text,
            " Here's some more text. Not to mention another citation. *Cf.* ",
        ),
        t(TokenType::Reference, "[@Baker1900]"),
        t(TokenType::CitePunctuation, "."),
        t(TokenType::Text, " For a further discussion, see *supra* notes "),
        t(TokenType::CrossRef, "[?crossref1]"),
        t(TokenType::Text, "--"),
        t(TokenType::CrossRef, "[?crossref2]"),
        t(TokenType::Text, "."),
    ];
    let footnote = footnote_parser(&footnote_tokens, 1).unwrap();

    assert_eq!(footnote.contents.len(), 12);
    assert_eq!(footnote.number, 1);
    assert_eq!(footnote.id.as_deref(), Some("[?complex_id]"));
    assert_eq!(
        footnote.contents[0].print_contents(),
        r#"[@jones2021] Some("100") Some("(explaining complicated stuff)") ."#
    );
    assert_eq!(
        footnote.contents[1].print_contents(),
        " This footnote is a bit complicated. *See, e.g.*, Source not in the library; "
    );
    assert_eq!(footnote.contents[2].print_contents(), r#""#);
    assert_eq!(
        footnote.contents[3].print_contents(),
        r#"[@smith2020] Some("10--12") Some("(super-complicated discussion)") ;"#
    );
    assert_eq!(
        footnote.contents[4].print_contents(),
        r#"[@johnson2019] Some("500, 550 n.5") Some("(similarly complicated discussion)") ."#
    );
    assert_eq!(
        footnote.contents[5].print_contents(),
        " Here's some more text. Not to mention another citation. *Cf.* "
    );
    assert_eq!(footnote.contents[6].print_contents(), "[@Baker1900] None None .");
    assert_eq!(
        footnote.contents[7].print_contents(),
        " For a further discussion, see *supra* notes "
    );
    assert_eq!(footnote.contents[8].print_contents(), "[?crossref1]");
    assert_eq!(footnote.contents[9].print_contents(), "--");
    assert_eq!(footnote.contents[10].print_contents(), "[?crossref2]");
    assert_eq!(footnote.contents[11].print_contents(), ".");
}

#[test]
fn basic_citation() {
    let input = vec![
        t(TokenType::Reference, "[@jones2021]"),
        t(TokenType::CitePunctuation, "."),
    ];
    let citation = cite_parser(&input).unwrap();

    assert_eq!(citation.reference, "[@jones2021]");
    assert_eq!(citation.pincite, None);
    assert_eq!(citation.parenthetical, None);
    assert_eq!(citation.punctuation, ".");
}

#[test]
fn complex_citation() {
    let input = vec![
        t(TokenType::Reference, "[@jones2021]"),
        t(TokenType::Pincite, r" at ยง\ 100.3[D](2)"),
        t(
            TokenType::Parenthetical,
            "(a parenthetical (with internal parentheses))",
        ),
        t(TokenType::CitePunctuation, "."),
    ];
    let citation = cite_parser(&input).unwrap();

    assert_eq!(citation.reference, "[@jones2021]");
    assert_eq!(citation.pincite.as_deref(), Some(r"ยง\ 100.3[D](2)"));
    assert_eq!(
        citation.parenthetical.as_deref(),
        Some("(a parenthetical (with internal parentheses))")
    );
    assert_eq!(citation.punctuation, ".");
}

#[test]
fn parser_pin_variety() {
    let pin0 = pin_parser(" ");
    let pin1 = pin_parser(r" at ยง\ 100.3[D](2)");
    let pin2 = pin_parser(r" at 100--01");
    let pin3 = pin_parser(r" at 100, 200");
    let pin4 = pin_parser(r" at 100 n.1");
    let pin5 = pin_parser(r" at 100 nn.1--45");
    let pin6 = pin_parser(r" at 500, 550 n.5");
    let pin7 = pin_parser("");

    assert_eq!(pin0, None);
    assert_eq!(pin7, None);
    assert_eq!(pin1.as_deref(), Some(r"ยง\ 100.3[D](2)"));
    assert_eq!(pin2.as_deref(), Some("100--01"));
    assert_eq!(pin3.as_deref(), Some("100, 200"));
    assert_eq!(pin4.as_deref(), Some("100 n.1"));
    assert_eq!(pin5.as_deref(), Some("100 nn.1--45"));
    assert_eq!(pin6.as_deref(), Some("500, 550 n.5"));
}
