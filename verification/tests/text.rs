use nix_derivation_parser::error::{ErrorKind, ParseError};
use nix_derivation_parser::text::{same_text, split_first};
use nix_derivation_parser::tokens::{expect_token, Token};

#[test]
fn split_first_follows_character_widths() {
    assert_eq!(split_first(""), None);
    assert_eq!(split_first("a"), Some(('a', "")));
    assert_eq!(split_first("ab"), Some(('a', "b")));
    assert_eq!(split_first("\u{7f}b"), Some(('\u{7f}', "b")));
    assert_eq!(split_first("\u{80}b"), Some(('\u{80}', "b")));
    assert_eq!(split_first("\u{7ff}b"), Some(('\u{7ff}', "b")));
    assert_eq!(split_first("\u{800}b"), Some(('\u{800}', "b")));
    assert_eq!(split_first("\u{ffff}b"), Some(('\u{ffff}', "b")));
    assert_eq!(split_first("\u{10000}b"), Some(('\u{10000}', "b")));
    assert_eq!(split_first("\u{10ffff}b"), Some(('\u{10ffff}', "b")));
}

#[test]
fn same_text_compares_characters() {
    assert!(same_text("", ""));
    assert!(same_text("out", "out"));
    assert!(same_text("h\u{e9}", "h\u{e9}"));
    assert!(!same_text("out", "dev"));
    assert!(!same_text("out", "outs"));
    assert!(!same_text("outs", "out"));
    assert!(!same_text("", "x"));
}

#[test]
fn tokens_are_matched_at_the_start() {
    assert_eq!(expect_token("Derive([", Token::Derive), Ok("["));
    assert_eq!(expect_token("[]", Token::ListOpen), Ok("]"));
    assert_eq!(expect_token("]x", Token::ListClose), Ok("x"));
    assert_eq!(expect_token("(x", Token::TupleOpen), Ok("x"));
    assert_eq!(expect_token(")", Token::TupleClose), Ok(""));
    assert_eq!(expect_token(",x", Token::Comma), Ok("x"));
    assert_eq!(expect_token("\"x", Token::Quote), Ok("x"));
}

#[test]
fn other_text_is_an_unexpected_token() {
    assert_eq!(
        expect_token("Derivation(", Token::Derive),
        Err(ParseError {
            kind: ErrorKind::UnexpectedToken { expected: Token::Derive },
            rest: "Derivation(",
        })
    );
    assert_eq!(
        expect_token(" ,", Token::Comma),
        Err(ParseError { kind: ErrorKind::UnexpectedToken { expected: Token::Comma }, rest: " ," })
    );
}

#[test]
fn input_that_ends_in_a_token_is_at_its_end() {
    for input in ["", "D", "Deriv", "Derive"] {
        assert_eq!(
            expect_token(input, Token::Derive),
            Err(ParseError { kind: ErrorKind::UnexpectedEndOfInput, rest: "" }),
            "{input}"
        );
    }
    assert_eq!(
        expect_token("", Token::TupleClose),
        Err(ParseError { kind: ErrorKind::UnexpectedEndOfInput, rest: "" })
    );
}

#[test]
fn tokens_are_written_as_in_a_descriptor() {
    assert_eq!(Token::Derive.as_str(), "Derive(");
    assert_eq!(Token::ListOpen.as_str(), "[");
    assert_eq!(Token::ListClose.as_str(), "]");
    assert_eq!(Token::TupleOpen.as_str(), "(");
    assert_eq!(Token::TupleClose.as_str(), ")");
    assert_eq!(Token::Comma.as_str(), ",");
    assert_eq!(Token::Quote.as_str(), "\"");
}
