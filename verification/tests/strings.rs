use nix_derivation_parser::error::{ErrorKind, ParseError};
use nix_derivation_parser::strings::parsers::{
    escape_for, hex_digit, is_blank_char, parse_escaped_char, parse_escaped_whitespace,
    parse_fragment, parse_literal, parse_string, parse_unicode,
};
use nix_derivation_parser::strings::types::StringFragment;
use nix_derivation_parser::tokens::Token;

fn failure(kind: ErrorKind, rest: &str) -> ParseError<'_> {
    ParseError { kind, rest }
}

#[test]
fn decodes_line_feed_escape() {
    let (rest, decoded) = parse_string("\"a\\nb\"").unwrap();
    assert_eq!(rest, "");
    assert_eq!(decoded.chars().collect::<Vec<char>>(), vec!['a', '\n', 'b']);
}

#[test]
fn decodes_empty_literal() {
    assert_eq!(parse_string("\"\""), Ok(("", String::new())));
}

#[test]
fn decodes_escaped_whitespace_to_nothing() {
    assert_eq!(parse_string("\"\\ \n\t\r \""), Ok(("", String::new())));
    assert_eq!(parse_string("\"\\ \\\n\\\t\""), Ok(("", String::new())));
}

#[test]
fn continuation_joins_wrapped_lines() {
    assert_eq!(
        parse_string("\"first \\\n      second\"rest"),
        Ok(("rest", "first second".to_string()))
    );
}

#[test]
fn decodes_every_two_character_escape() {
    assert_eq!(
        parse_string(r#""\n\r\t\b\f\\\/\"""#),
        Ok(("", "\n\r\t\u{08}\u{0C}\\/\"".to_string()))
    );
}

#[test]
fn decodes_unicode_escapes() {
    assert_eq!(parse_string(r#""\u{41}""#), Ok(("", "A".to_string())));
    assert_eq!(parse_string(r#""\u{00AC}""#), Ok(("", "\u{AC}".to_string())));
    assert_eq!(parse_string(r#""\u{1f600}!""#), Ok(("", "\u{1F600}!".to_string())));
    assert_eq!(parse_string(r#""\u{10FFFF}""#), Ok(("", "\u{10FFFF}".to_string())));
    assert_eq!(parse_string(r#""\u{0}""#), Ok(("", "\u{0}".to_string())));
    assert_eq!(parse_string(r#""\u{00004a}""#), Ok(("", "J".to_string())));
}

#[test]
fn keeps_text_outside_ascii() {
    assert_eq!(
        parse_string("\"h\u{e9}llo \u{2192} \u{1F600}\\n\" tail"),
        Ok((" tail", "h\u{e9}llo \u{2192} \u{1F600}\n".to_string()))
    );
}

#[test]
fn returns_what_follows_the_closing_quote() {
    assert_eq!(parse_string("\"out\",\"dev\""), Ok((",\"dev\"", "out".to_string())));
}

#[test]
fn rejects_unknown_escape() {
    assert_eq!(
        parse_string("\"ab\\xcd\" tail"),
        Err(failure(ErrorKind::InvalidEscape, "\\xcd\" tail"))
    );
    assert_eq!(parse_string(r#""\a""#), Err(failure(ErrorKind::InvalidEscape, r#"\a""#)));
}

#[test]
fn rejects_malformed_unicode_escape() {
    assert_eq!(parse_string(r#""\u{}""#), Err(failure(ErrorKind::InvalidEscape, r#"\u{}""#)));
    assert_eq!(parse_string(r#""\u41""#), Err(failure(ErrorKind::InvalidEscape, r#"\u41""#)));
    assert_eq!(parse_string(r#""\u{4g}""#), Err(failure(ErrorKind::InvalidEscape, r#"\u{4g}""#)));
    assert_eq!(
        parse_string(r#""\u{1234567}""#),
        Err(failure(ErrorKind::InvalidEscape, r#"\u{1234567}""#))
    );
    assert_eq!(parse_string(r#""\u{41""#), Err(failure(ErrorKind::InvalidEscape, r#"\u{41""#)));
}

#[test]
fn rejects_values_that_are_no_scalar() {
    assert_eq!(
        parse_string(r#""x\u{D800}""#),
        Err(failure(ErrorKind::InvalidUnicodeScalar, r#"\u{D800}""#))
    );
    assert_eq!(
        parse_string(r#""\u{dfff}""#),
        Err(failure(ErrorKind::InvalidUnicodeScalar, r#"\u{dfff}""#))
    );
    assert_eq!(
        parse_string(r#""\u{110000}""#),
        Err(failure(ErrorKind::InvalidUnicodeScalar, r#"\u{110000}""#))
    );
    assert_eq!(
        parse_string(r#""\u{FFFFFF}""#),
        Err(failure(ErrorKind::InvalidUnicodeScalar, r#"\u{FFFFFF}""#))
    );
}

#[test]
fn reports_unterminated_strings_at_the_end() {
    for input in ["\"", "\"abc", "\"abc\\", "\"abc\\n", "\"\\u", "\"\\u{", "\"\\u{12", "\"\\u{123456", "\"a\\  "] {
        assert_eq!(parse_string(input), Err(failure(ErrorKind::UnterminatedString, "")), "{input}");
    }
}

#[test]
fn needs_an_opening_quote() {
    assert_eq!(parse_string(""), Err(failure(ErrorKind::UnexpectedEndOfInput, "")));
    assert_eq!(
        parse_string("abc\""),
        Err(failure(ErrorKind::UnexpectedToken { expected: Token::Quote }, "abc\""))
    );
}

#[test]
fn literal_is_the_longest_plain_run() {
    assert_eq!(parse_literal("abc\"def"), Ok(("\"def", "abc")));
    assert_eq!(parse_literal("abc\\ndef"), Ok(("\\ndef", "abc")));
    assert_eq!(parse_literal("abc"), Ok(("", "abc")));
    assert_eq!(parse_literal("a"), Ok(("", "a")));
    assert_eq!(parse_literal("\u{e9}\u{1F600}\\"), Ok(("\\", "\u{e9}\u{1F600}")));
    assert_eq!(parse_literal(" \n\t\""), Ok(("\"", " \n\t")));
}

#[test]
fn literal_is_never_empty() {
    assert_eq!(parse_literal("\"abc"), Err(failure(ErrorKind::EmptyRequiredList, "\"abc")));
    assert_eq!(parse_literal("\\nabc"), Err(failure(ErrorKind::EmptyRequiredList, "\\nabc")));
    assert_eq!(parse_literal("\""), Err(failure(ErrorKind::EmptyRequiredList, "\"")));
    assert_eq!(parse_literal("\\"), Err(failure(ErrorKind::EmptyRequiredList, "\\")));
    assert_eq!(parse_literal(""), Err(failure(ErrorKind::UnterminatedString, "")));
}

#[test]
fn fragments_are_told_apart() {
    assert_eq!(parse_fragment("abc\\n"), Ok(Some(("\\n", StringFragment::Literal("abc")))));
    assert_eq!(parse_fragment("\\nabc"), Ok(Some(("abc", StringFragment::EscapedChar('\n')))));
    assert_eq!(parse_fragment("\\u{41}bc"), Ok(Some(("bc", StringFragment::EscapedChar('A')))));
    assert_eq!(parse_fragment("\\ \n abc"), Ok(Some(("abc", StringFragment::EscapedWS))));
    assert_eq!(parse_fragment("\"abc"), Ok(None));
    assert_eq!(parse_fragment(""), Err(failure(ErrorKind::UnterminatedString, "")));
    assert_eq!(parse_fragment("\\"), Err(failure(ErrorKind::UnterminatedString, "")));
    assert_eq!(parse_fragment("\\q"), Err(failure(ErrorKind::InvalidEscape, "\\q")));
}

#[test]
fn escaped_char_needs_a_backslash() {
    assert_eq!(parse_escaped_char("\\tx"), Ok(("x", '\t')));
    assert_eq!(parse_escaped_char("\\u{7A}x"), Ok(("x", 'z')));
    assert_eq!(parse_escaped_char("tx"), Err(failure(ErrorKind::InvalidEscape, "tx")));
    assert_eq!(parse_escaped_char("\\ x"), Err(failure(ErrorKind::InvalidEscape, "\\ x")));
    assert_eq!(parse_escaped_char(""), Err(failure(ErrorKind::UnterminatedString, "")));
    assert_eq!(parse_escaped_char("\\"), Err(failure(ErrorKind::UnterminatedString, "")));
}

#[test]
fn unicode_escape_begins_at_its_letter() {
    assert_eq!(parse_unicode("u{41}z"), Ok(("z", 'A')));
    assert_eq!(parse_unicode("u{00AC}"), Ok(("", '\u{AC}')));
    assert_eq!(parse_unicode("u{a}u{b}"), Ok(("u{b}", '\n')));
    assert_eq!(parse_unicode("u{10ffff}x"), Ok(("x", '\u{10FFFF}')));
    assert_eq!(parse_unicode("u{10}"), Ok(("", '\u{10}')));
    assert_eq!(parse_unicode("u{D7FF}"), Ok(("", '\u{D7FF}')));
    assert_eq!(parse_unicode("u{E000}"), Ok(("", '\u{E000}')));
}

#[test]
fn unicode_escape_reads_at_most_six_digits() {
    assert_eq!(parse_unicode("u{000041}"), Ok(("", 'A')));
    assert_eq!(parse_unicode("u{0000041}"), Err(failure(ErrorKind::InvalidEscape, "u{0000041}")));
    assert_eq!(parse_unicode("u{1234567}"), Err(failure(ErrorKind::InvalidEscape, "u{1234567}")));
}

#[test]
fn unicode_escape_failures_point_at_the_letter() {
    assert_eq!(
        parse_unicode("u{ABCDEF}"),
        Err(failure(ErrorKind::InvalidUnicodeScalar, "u{ABCDEF}"))
    );
    assert_eq!(
        parse_unicode("u{D800}x"),
        Err(failure(ErrorKind::InvalidUnicodeScalar, "u{D800}x"))
    );
    assert_eq!(
        parse_unicode("u{110000}"),
        Err(failure(ErrorKind::InvalidUnicodeScalar, "u{110000}"))
    );
    assert_eq!(parse_unicode("\\u{41}"), Err(failure(ErrorKind::InvalidEscape, "\\u{41}")));
    assert_eq!(parse_unicode("n"), Err(failure(ErrorKind::InvalidEscape, "n")));
    assert_eq!(parse_unicode("u41}"), Err(failure(ErrorKind::InvalidEscape, "u41}")));
    assert_eq!(parse_unicode("u{}"), Err(failure(ErrorKind::InvalidEscape, "u{}")));
    assert_eq!(parse_unicode("u{4g}"), Err(failure(ErrorKind::InvalidEscape, "u{4g}")));
    assert_eq!(parse_unicode("u{41)"), Err(failure(ErrorKind::InvalidEscape, "u{41)")));
    for input in ["", "u", "u{", "u{4", "u{41", "u{123456"] {
        assert_eq!(parse_unicode(input), Err(failure(ErrorKind::UnterminatedString, "")), "{input}");
    }
}

#[test]
fn escaped_char_failures_point_at_the_backslash() {
    assert_eq!(parse_escaped_char("\\u{41}z"), Ok(("z", 'A')));
    assert_eq!(parse_escaped_char("\\u{}z"), Err(failure(ErrorKind::InvalidEscape, "\\u{}z")));
    assert_eq!(
        parse_escaped_char("\\u{D800}z"),
        Err(failure(ErrorKind::InvalidUnicodeScalar, "\\u{D800}z"))
    );
    assert_eq!(
        parse_escaped_char("\\u{1234567}"),
        Err(failure(ErrorKind::InvalidEscape, "\\u{1234567}"))
    );
    assert_eq!(parse_escaped_char("\\xz"), Err(failure(ErrorKind::InvalidEscape, "\\xz")));
    assert_eq!(parse_escaped_char("\\u{41"), Err(failure(ErrorKind::UnterminatedString, "")));
    assert_eq!(parse_escaped_char("\\u"), Err(failure(ErrorKind::UnterminatedString, "")));
}

#[test]
fn escaped_whitespace_returns_the_run() {
    assert_eq!(parse_escaped_whitespace("\\ \t\r\nx"), Ok(("x", " \t\r\n")));
    assert_eq!(parse_escaped_whitespace("\\ "), Ok(("", " ")));
    assert_eq!(parse_escaped_whitespace("\\x"), Err(failure(ErrorKind::InvalidEscape, "\\x")));
    assert_eq!(
        parse_escaped_whitespace("\\\u{a0}"),
        Err(failure(ErrorKind::InvalidEscape, "\\\u{a0}"))
    );
    assert_eq!(parse_escaped_whitespace(" "), Err(failure(ErrorKind::InvalidEscape, " ")));
    assert_eq!(parse_escaped_whitespace("\\"), Err(failure(ErrorKind::UnterminatedString, "")));
}

#[test]
fn hex_digits_have_their_values() {
    assert_eq!(hex_digit('0'), Some(0));
    assert_eq!(hex_digit('9'), Some(9));
    assert_eq!(hex_digit('a'), Some(10));
    assert_eq!(hex_digit('f'), Some(15));
    assert_eq!(hex_digit('A'), Some(10));
    assert_eq!(hex_digit('F'), Some(15));
    assert_eq!(hex_digit('g'), None);
    assert_eq!(hex_digit('G'), None);
    assert_eq!(hex_digit('/'), None);
    assert_eq!(hex_digit(':'), None);
    assert_eq!(hex_digit('@'), None);
    assert_eq!(hex_digit('`'), None);
}

#[test]
fn escape_letters_and_blanks() {
    assert_eq!(escape_for('n'), Some('\n'));
    assert_eq!(escape_for('b'), Some('\u{08}'));
    assert_eq!(escape_for('f'), Some('\u{0C}'));
    assert_eq!(escape_for('/'), Some('/'));
    assert_eq!(escape_for('u'), None);
    assert_eq!(escape_for('0'), None);
    assert!(is_blank_char(' ') && is_blank_char('\t') && is_blank_char('\r') && is_blank_char('\n'));
    assert!(!is_blank_char('\u{0B}') && !is_blank_char('\u{0C}') && !is_blank_char('x'));
}
