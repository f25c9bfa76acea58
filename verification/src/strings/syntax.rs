//! The grammar of a string literal, over sequences of characters.
//!
//! A literal is a `"`, a body, and a `"`. The body is a sequence of
//! fragments: runs of plain characters, escape sequences that stand for one
//! character each, and backslash-whitespace continuations that stand for
//! nothing. The decoded string is the concatenation of what the fragments
//! stand for.
//!
//! Input that ends inside a literal fails as an unterminated string, with
//! nothing left. A backslash that begins no escape sequence, and a Unicode
//! escape that names no scalar value, fail at that backslash.

use vstd::prelude::*;
use crate::error::{fail, fail_at_end, ErrorKind, Failure, Parsed, Rule};
use crate::tokens::{expect, Token};
use crate::strings::types::Fragment;
use crate::text::is_scalar_value;

verus! {

/// A character that stands for itself inside a literal.
pub open spec fn is_plain(c: char) -> bool {
    c != '"' && c != '\\'
}

/// The whitespace that may follow a backslash: space, tab, carriage return
/// and line feed.
pub open spec fn is_blank(c: char) -> bool {
    c == ' ' || c == '\t' || c == '\r' || c == '\n'
}

/// A hexadecimal digit, in either case.
pub open spec fn is_hex_digit(c: char) -> bool {
    ('0' <= c && c <= '9') || ('a' <= c && c <= 'f') || ('A' <= c && c <= 'F')
}

/// The value of a hexadecimal digit.
pub open spec fn hex_digit_value(c: char) -> nat {
    if '0' <= c && c <= '9' {
        (c as u32 - '0' as u32) as nat
    } else if 'a' <= c && c <= 'f' {
        (c as u32 - 'a' as u32 + 10) as nat
    } else {
        (c as u32 - 'A' as u32 + 10) as nat
    }
}

/// The number that a sequence of hexadecimal digits writes, most significant
/// digit first.
pub open spec fn hex_value(digits: Seq<char>) -> nat
    decreases digits.len(),
{
    if digits.len() == 0 {
        0
    } else {
        hex_value(digits.drop_last()) * 16 + hex_digit_value(digits.last())
    }
}

/// The character that stands behind a backslash in a two-character escape,
/// and what the escape stands for.
pub open spec fn simple_escape(c: char) -> Option<char> {
    if c == 'n' {
        Some('\n')
    } else if c == 'r' {
        Some('\r')
    } else if c == 't' {
        Some('\t')
    } else if c == 'b' {
        Some('\u{08}')
    } else if c == 'f' {
        Some('\u{0C}')
    } else if c == '\\' {
        Some('\\')
    } else if c == '/' {
        Some('/')
    } else if c == '"' {
        Some('"')
    } else {
        None
    }
}

/// The length of the longest prefix of `s` whose characters are all in
/// `class`.
pub open spec fn run_len(s: Seq<char>, class: spec_fn(char) -> bool) -> int
    decreases s.len(),
{
    if s.len() > 0 && class(s[0]) {
        1 + run_len(s.skip(1), class)
    } else {
        0
    }
}

/// The length of the run of plain characters that `s` begins with.
pub open spec fn plain_len(s: Seq<char>) -> int {
    run_len(s, |c: char| is_plain(c))
}

/// The length of the run of whitespace that `s` begins with.
pub open spec fn blank_len(s: Seq<char>) -> int {
    run_len(s, |c: char| is_blank(c))
}

/// One more than the largest number that `count` hexadecimal digits write,
/// for up to six digits.
pub open spec fn hex_limit(count: int) -> int {
    if count <= 0 {
        0x1
    } else if count == 1 {
        0x10
    } else if count == 2 {
        0x100
    } else if count == 3 {
        0x1000
    } else if count == 4 {
        0x1_0000
    } else if count == 5 {
        0x10_0000
    } else {
        0x100_0000
    }
}

/// The number of hexadecimal digits that `s` begins with, counted up to six.
pub open spec fn hex_len(s: Seq<char>) -> int {
    let n = run_len(s, |c: char| is_hex_digit(c));
    if n <= 6 {
        n
    } else {
        6
    }
}

/// A literal run: the longest run of plain characters at the start of `s`,
/// which has at least one character. Input that has ended fails at its end;
/// a `"` or a backslash at the start leaves the run empty, and fails where
/// it stands.
pub open spec fn literal(s: Seq<char>) -> Parsed<Seq<char>> {
    if s.len() == 0 {
        fail_at_end(ErrorKind::UnterminatedString)
    } else if !is_plain(s[0]) {
        fail(ErrorKind::EmptyRequiredList, s)
    } else {
        Ok((s.take(plain_len(s)), s.skip(plain_len(s))))
    }
}

/// A Unicode escape behind its backslash, as a part of the text `whole`:
/// `u{`, one to six hexadecimal digits, and `}`.
///
/// The digits are read greedily, up to six of them. The escape stands for
/// the character whose code the digits write. A failure that points at text
/// points at `whole`, the text that the escape is a part of.
pub open spec fn unicode_within(s: Seq<char>, whole: Seq<char>) -> Parsed<char> {
    let digits = hex_len(s.skip(2));
    let close = 2 + digits;
    if s.len() < 1 {
        fail_at_end(ErrorKind::UnterminatedString)
    } else if s[0] != 'u' {
        fail(ErrorKind::InvalidEscape, whole)
    } else if s.len() < 2 {
        fail_at_end(ErrorKind::UnterminatedString)
    } else if s[1] != '{' {
        fail(ErrorKind::InvalidEscape, whole)
    } else if s.len() <= close {
        fail_at_end(ErrorKind::UnterminatedString)
    } else if digits == 0 || s[close] != '}' {
        fail(ErrorKind::InvalidEscape, whole)
    } else {
        let code = hex_value(s.subrange(2, close));
        if code <= u32::MAX && is_scalar_value(code as u32) {
            Ok((code as char, s.skip(close + 1)))
        } else {
            fail(ErrorKind::InvalidUnicodeScalar, whole)
        }
    }
}

/// A Unicode escape behind its backslash: `u{`, one to six hexadecimal
/// digits, and `}`. A failure that points at text points at the `u`.
pub open spec fn unicode_escape(s: Seq<char>) -> Parsed<char> {
    unicode_within(s, s)
}

/// An escape sequence that stands for one character: a backslash and one of
/// `n r t b f \ / "`, or a backslash and a Unicode escape. A failure that
/// points at text points at the backslash.
pub open spec fn escaped_char(s: Seq<char>) -> Parsed<char> {
    if s.len() < 1 {
        fail_at_end(ErrorKind::UnterminatedString)
    } else if s[0] != '\\' {
        fail(ErrorKind::InvalidEscape, s)
    } else if s.len() < 2 {
        fail_at_end(ErrorKind::UnterminatedString)
    } else if s[1] == 'u' {
        unicode_within(s.skip(1), s)
    } else {
        match simple_escape(s[1]) {
            Some(c) => Ok((c, s.skip(2))),
            None => fail(ErrorKind::InvalidEscape, s),
        }
    }
}

/// A continuation: a backslash and the run of whitespace behind it, which
/// has at least one character. The value is that run; in a literal it
/// stands for nothing.
pub open spec fn escaped_whitespace(s: Seq<char>) -> Parsed<Seq<char>> {
    if s.len() < 1 {
        fail_at_end(ErrorKind::UnterminatedString)
    } else if s[0] != '\\' {
        fail(ErrorKind::InvalidEscape, s)
    } else if s.len() < 2 {
        fail_at_end(ErrorKind::UnterminatedString)
    } else if !is_blank(s[1]) {
        fail(ErrorKind::InvalidEscape, s)
    } else {
        Ok((s.subrange(1, 1 + blank_len(s.skip(1))), s.skip(1 + blank_len(s.skip(1)))))
    }
}

/// The next fragment of a literal's body, or `None` where the body ends, at
/// a `"`.
#[verifier::opaque]
pub open spec fn fragment(s: Seq<char>) -> Result<Option<(Fragment, Seq<char>)>, Failure> {
    if s.len() == 0 {
        Err(Failure { kind: ErrorKind::UnterminatedString, rest: Seq::empty() })
    } else if s[0] == '"' {
        Ok(None)
    } else if s[0] != '\\' {
        match literal(s) {
            Ok((run, rest)) => Ok(Some((Fragment::Literal(run), rest))),
            Err(e) => Err(e),
        }
    } else if s.len() >= 2 && is_blank(s[1]) {
        match escaped_whitespace(s) {
            Ok((_, rest)) => Ok(Some((Fragment::EscapedWS, rest))),
            Err(e) => Err(e),
        }
    } else {
        match escaped_char(s) {
            Ok((c, rest)) => Ok(Some((Fragment::EscapedChar(c), rest))),
            Err(e) => Err(e),
        }
    }
}

/// Puts `text` in front of a decoded body.
pub open spec fn prepend(text: Seq<char>, parsed: Parsed<Seq<char>>) -> Parsed<Seq<char>> {
    match parsed {
        Ok((tail, rest)) => Ok((text + tail, rest)),
        Err(e) => Err(e),
    }
}

/// The body of a literal: fragments up to the closing `"`, which is left in
/// the remaining input. The value is the decoded text.
///
/// A fragment takes at least one character, so the branch that guards the
/// measure is never taken.
pub open spec fn body(s: Seq<char>) -> Parsed<Seq<char>>
    decreases s.len(),
{
    match fragment(s) {
        Err(e) => Err(e),
        Ok(None) => Ok((Seq::empty(), s)),
        Ok(Some((f, rest))) => if rest.len() < s.len() {
            prepend(f.text(), body(rest))
        } else {
            fail(ErrorKind::UnterminatedString, rest)
        },
    }
}

/// A string literal: `"`, body, `"`. The value is the decoded text.
#[verifier::opaque]
pub open spec fn string(s: Seq<char>) -> Parsed<Seq<char>> {
    match expect(s, Token::Quote) {
        Err(e) => Err(e),
        Ok(after_open) => match body(after_open) {
            Err(e) => Err(e),
            Ok((text, at_close)) => match expect(at_close, Token::Quote) {
                Err(e) => Err(e),
                Ok(rest) => Ok((text, rest)),
            },
        },
    }
}

/// The rule for a string literal.
pub open spec fn string_rule() -> Rule<Seq<char>> {
    |s: Seq<char>| string(s)
}

/// How a character is written inside a literal: `"` and `\` behind a
/// backslash, line feed, carriage return and tab as `\n`, `\r` and `\t`,
/// and every other character as itself.
pub open spec fn encode_char(c: char) -> Seq<char> {
    if c == '"' {
        seq!['\\', '"']
    } else if c == '\\' {
        seq!['\\', '\\']
    } else if c == '\n' {
        seq!['\\', 'n']
    } else if c == '\r' {
        seq!['\\', 'r']
    } else if c == '\t' {
        seq!['\\', 't']
    } else {
        seq![c]
    }
}

/// How a text is written inside a literal, character by character.
pub open spec fn encode(text: Seq<char>) -> Seq<char>
    decreases text.len(),
{
    if text.len() == 0 {
        Seq::empty()
    } else {
        encode_char(text[0]) + encode(text.skip(1))
    }
}

/// The literal that writes `text`.
pub open spec fn quote(text: Seq<char>) -> Seq<char> {
    seq!['"'] + encode(text) + seq!['"']
}

} // verus!
