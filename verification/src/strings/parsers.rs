//! The executable string literal decoder.
//!
//! Each routine takes the remaining input and returns the input that is left
//! together with what it read, or the failure that the grammar in
//! [`crate::strings::syntax`] prescribes.

use vstd::prelude::*;
use vstd::string::StringExecFns;
use crate::error::{
    agrees, is_suffix, points_into, within, ErrorKind, Failure, ParseError,
};
use crate::strings::laws::{lemma_fragment_consumes, lemma_run_len, lemma_string_within};
use crate::strings::syntax::{
    blank_len, body, escaped_char, escaped_whitespace, fragment, hex_digit_value, hex_len,
    hex_limit, hex_value, is_blank, is_hex_digit, is_plain, literal, plain_len, prepend, run_len,
    simple_escape, string, unicode_escape, unicode_within,
};
use crate::strings::types::StringFragment;
use crate::text::{note_char_count, split_first, take_chars};
use crate::tokens::{expect, expect_token, Token};

verus! {

/// The value of `c` as a hexadecimal digit, if it is one.
pub fn hex_digit(c: char) -> (r: Option<u32>)
    ensures
        match r {
            Some(d) => is_hex_digit(c) && d == hex_digit_value(c) && d < 16,
            None => !is_hex_digit(c),
        },
{
    if '0' <= c && c <= '9' {
        Some(c as u32 - '0' as u32)
    } else if 'a' <= c && c <= 'f' {
        Some(c as u32 - 'a' as u32 + 10)
    } else if 'A' <= c && c <= 'F' {
        Some(c as u32 - 'A' as u32 + 10)
    } else {
        None
    }
}

/// What the two-character escape with the letter `c` stands for, if there is
/// such an escape.
pub fn escape_for(c: char) -> (r: Option<char>)
    ensures
        r == simple_escape(c),
{
    if c == 'n' {
        Some('\n')
    } else if c == 'r' {
        Some('\r')
    } else if c == 't' {
        Some('\t')
    } else if c == 'b' {
        Some('\u{08}')
    } else if c == 'f' {
        Some('\u{0C}')
    } else if c == '\\' {
        Some('\\')
    } else if c == '/' {
        Some('/')
    } else if c == '"' {
        Some('"')
    } else {
        None
    }
}

/// Whether `c` is whitespace that a backslash can continue over.
pub fn is_blank_char(c: char) -> (r: bool)
    ensures
        r == is_blank(c),
{
    c == ' ' || c == '\t' || c == '\r' || c == '\n'
}

/// Parse a unicode sequence, of the form `u{XXXX}`, where XXXX is 1 to 6
/// hexadecimal numerals, as a part of `whole`: a failure that points at text
/// points at `whole`.
fn parse_unicode_within<'input>(input: &'input str, whole: &'input str) -> (r: Result<
    (&'input str, char),
    ParseError<'input>,
>)
    ensures
        agrees(r, unicode_within(input@, whole@)),
{
    let after_letter = match split_first(input) {
        None => {
            assert(input@ =~= Seq::empty());
            return Err(ParseError { kind: ErrorKind::UnterminatedString, rest: input });
        },
        Some((c, rest)) => {
            if c != 'u' {
                return Err(ParseError { kind: ErrorKind::InvalidEscape, rest: whole });
            }
            rest
        },
    };
    let digits = match split_first(after_letter) {
        None => {
            assert(after_letter@ =~= Seq::empty());
            return Err(ParseError { kind: ErrorKind::UnterminatedString, rest: after_letter });
        },
        Some((c, rest)) => {
            if c != '{' {
                return Err(ParseError { kind: ErrorKind::InvalidEscape, rest: whole });
            }
            rest
        },
    };
    assert(digits@ =~= input@.skip(2));
    let ghost hex = |c: char| is_hex_digit(c);
    let mut cur = digits;
    let mut count: usize = 0;
    let mut code: u32 = 0;
    proof {
        lemma_run_len(digits@, hex);
    }
    while count < 6
        invariant
            count <= 6,
            count <= digits@.len(),
            cur@ == digits@.skip(count as int),
            hex == (|c: char| is_hex_digit(c)),
            run_len(digits@, hex) == count + run_len(cur@, hex),
            0 <= run_len(cur@, hex),
            code == hex_value(digits@.take(count as int)),
            code < hex_limit(count as int),
        ensures
            count <= 6,
            count <= digits@.len(),
            cur@ == digits@.skip(count as int),
            count == hex_len(digits@),
            code == hex_value(digits@.take(count as int)),
            code < hex_limit(count as int),
        decreases 6 - count,
    {
        match split_first(cur) {
            None => {
                break ;
            },
            Some((c, rest)) => match hex_digit(c) {
                None => {
                    break ;
                },
                Some(d) => {
                    assert(digits@.take(count + 1).drop_last() =~= digits@.take(count as int));
                    assert(rest@ =~= digits@.skip(count + 1));
                    proof {
                        lemma_run_len(rest@, hex);
                    }
                    code = code * 16 + d;
                    cur = rest;
                    count += 1;
                },
            },
        }
    }
    assert(cur@ =~= input@.skip(2 + count));
    assert(digits@.take(count as int) =~= input@.subrange(2, 2 + count));
    match split_first(cur) {
        None => {
            assert(cur@ =~= Seq::empty());
            Err(ParseError { kind: ErrorKind::UnterminatedString, rest: cur })
        },
        Some((c, rest)) => {
            if count == 0 || c != '}' {
                return Err(ParseError { kind: ErrorKind::InvalidEscape, rest: whole });
            }
            assert(rest@ =~= input@.skip(2 + count + 1));
            match char::from_u32(code) {
                Some(decoded) => Ok((rest, decoded)),
                None => Err(ParseError { kind: ErrorKind::InvalidUnicodeScalar, rest: whole }),
            }
        },
    }
}

/// Parse a unicode sequence, of the form `u{XXXX}`, where XXXX is 1 to 6
/// hexadecimal numerals. `parse_escaped_char` reads the backslash in front
/// of it, to parse sequences like `\u{00AC}`.
pub fn parse_unicode<'input>(input: &'input str) -> (r: Result<
    (&'input str, char),
    ParseError<'input>,
>)
    ensures
        agrees(r, unicode_escape(input@)),
{
    parse_unicode_within(input, input)
}

/// Parse an escaped character: `\n`, `\t`, `\r`, `\u{00AC}`, etc.
pub fn parse_escaped_char<'input>(input: &'input str) -> (r: Result<
    (&'input str, char),
    ParseError<'input>,
>)
    ensures
        agrees(r, escaped_char(input@)),
{
    let after_backslash = match split_first(input) {
        None => {
            assert(input@ =~= Seq::empty());
            return Err(ParseError { kind: ErrorKind::UnterminatedString, rest: input });
        },
        Some((c, rest)) => {
            if c != '\\' {
                return Err(ParseError { kind: ErrorKind::InvalidEscape, rest: input });
            }
            rest
        },
    };
    match split_first(after_backslash) {
        None => {
            assert(after_backslash@ =~= Seq::empty());
            Err(ParseError { kind: ErrorKind::UnterminatedString, rest: after_backslash })
        },
        Some((c, rest)) => {
            if c == 'u' {
                return parse_unicode_within(after_backslash, input);
            }
            assert(rest@ =~= input@.skip(2));
            match escape_for(c) {
                Some(decoded) => Ok((rest, decoded)),
                None => Err(ParseError { kind: ErrorKind::InvalidEscape, rest: input }),
            }
        },
    }
}

/// Parse a backslash, followed by any amount of whitespace. This is used
/// later to discard any escaped whitespace.
pub fn parse_escaped_whitespace<'input>(input: &'input str) -> (r: Result<
    (&'input str, &'input str),
    ParseError<'input>,
>)
    ensures
        agrees(r, escaped_whitespace(input@)),
{
    let after_backslash = match split_first(input) {
        None => {
            assert(input@ =~= Seq::empty());
            return Err(ParseError { kind: ErrorKind::UnterminatedString, rest: input });
        },
        Some((c, rest)) => {
            if c != '\\' {
                return Err(ParseError { kind: ErrorKind::InvalidEscape, rest: input });
            }
            rest
        },
    };
    match split_first(after_backslash) {
        None => {
            assert(after_backslash@ =~= Seq::empty());
            return Err(ParseError { kind: ErrorKind::UnterminatedString, rest: after_backslash });
        },
        Some((c, _)) => {
            if !is_blank_char(c) {
                return Err(ParseError { kind: ErrorKind::InvalidEscape, rest: input });
            }
        },
    }
    note_char_count(after_backslash);
    let ghost blank = |c: char| is_blank(c);
    let mut cur = after_backslash;
    let mut count: usize = 0;
    loop
        invariant
            count <= after_backslash@.len() <= usize::MAX,
            cur@ == after_backslash@.skip(count as int),
            blank == (|c: char| is_blank(c)),
            run_len(after_backslash@, blank) == count + run_len(cur@, blank),
        ensures
            count <= after_backslash@.len(),
            cur@ == after_backslash@.skip(count as int),
            count == blank_len(after_backslash@),
        decreases cur@.len(),
    {
        match split_first(cur) {
            None => {
                break ;
            },
            Some((c, rest)) => {
                if !is_blank_char(c) {
                    break ;
                }
                assert(rest@ =~= after_backslash@.skip(count + 1));
                cur = rest;
                count += 1;
            },
        }
    }
    let run = take_chars(after_backslash, count);
    assert(run@ =~= input@.subrange(1, 1 + count));
    assert(cur@ =~= input@.skip(1 + count));
    Ok((cur, run))
}

/// Parse a non-empty block of text that doesn't include `\` or `"`. The
/// block is as long as it can be.
pub fn parse_literal<'input>(input: &'input str) -> (r: Result<
    (&'input str, &'input str),
    ParseError<'input>,
>)
    ensures
        agrees(r, literal(input@)),
{
    match split_first(input) {
        None => {
            assert(input@ =~= Seq::empty());
            return Err(ParseError { kind: ErrorKind::UnterminatedString, rest: input });
        },
        Some((c, _)) => {
            if c == '"' || c == '\\' {
                return Err(ParseError { kind: ErrorKind::EmptyRequiredList, rest: input });
            }
        },
    }
    note_char_count(input);
    let ghost plain = |c: char| is_plain(c);
    let mut cur = input;
    let mut count: usize = 0;
    loop
        invariant
            count <= input@.len() <= usize::MAX,
            cur@ == input@.skip(count as int),
            plain == (|c: char| is_plain(c)),
            run_len(input@, plain) == count + run_len(cur@, plain),
        ensures
            count <= input@.len(),
            cur@ == input@.skip(count as int),
            count == plain_len(input@),
        decreases cur@.len(),
    {
        match split_first(cur) {
            None => {
                break ;
            },
            Some((c, rest)) => {
                if c == '"' || c == '\\' {
                    break ;
                }
                assert(rest@ =~= input@.skip(count + 1));
                cur = rest;
                count += 1;
            },
        }
    }
    Ok((cur, take_chars(input, count)))
}

/// Combine `parse_literal`, `parse_escaped_whitespace`, and
/// `parse_escaped_char` into a `StringFragment`. Where the body of the
/// literal ends, at a `"`, there is no fragment.
pub fn parse_fragment<'input>(input: &'input str) -> (r: Result<
    Option<(&'input str, StringFragment<'input>)>,
    ParseError<'input>,
>)
    ensures
        match (r, fragment(input@)) {
            (Ok(Some((rest, found))), Ok(Some((f, s)))) => found@ == f && rest@ == s,
            (Ok(None), Ok(None)) => true,
            (Err(e), Err(f)) => e@ == f,
            _ => false,
        },
{
    proof {
        reveal(fragment);
    }
    let (first, after_first) = match split_first(input) {
        None => {
            assert(input@ =~= Seq::empty());
            return Err(ParseError { kind: ErrorKind::UnterminatedString, rest: input });
        },
        Some(found) => found,
    };
    if first == '"' {
        return Ok(None);
    }
    if first != '\\' {
        return match parse_literal(input) {
            Ok((rest, run)) => Ok(Some((rest, StringFragment::Literal(run)))),
            Err(e) => Err(e),
        };
    }
    let continues = match split_first(after_first) {
        None => false,
        Some((second, _)) => is_blank_char(second),
    };
    if continues {
        match parse_escaped_whitespace(input) {
            Ok((rest, _)) => Ok(Some((rest, StringFragment::EscapedWS))),
            Err(e) => Err(e),
        }
    } else {
        match parse_escaped_char(input) {
            Ok((rest, c)) => Ok(Some((rest, StringFragment::EscapedChar(c)))),
            Err(e) => Err(e),
        }
    }
}

/// Parse a string. Use a loop of `parse_fragment` and push all of the
/// fragments into an output string.
pub fn parse_string<'input>(input: &'input str) -> (r: Result<
    (&'input str, String),
    ParseError<'input>,
>)
    ensures
        agrees(r, string(input@)),
        match r {
            Ok((rest, _)) => is_suffix(rest@, input@),
            Err(e) => points_into(e@, input@),
        },
{
    proof {
        reveal(string);
        lemma_string_within(input@);
    }
    let after_open = match expect_token(input, Token::Quote) {
        Ok(rest) => rest,
        Err(e) => {
            return Err(e);
        },
    };
    let mut cur = after_open;
    let mut decoded = String::new();
    loop
        invariant
            within(string(input@), input@),
            expect(input@, Token::Quote) == Ok::<Seq<char>, Failure>(after_open@),
            body(after_open@) == prepend(decoded@, body(cur@)),
        ensures
            body(after_open@) == Ok::<(Seq<char>, Seq<char>), Failure>(
                (decoded@, cur@),
            ),
        decreases cur@.len(),
    {
        match parse_fragment(cur) {
            Err(e) => {
                proof {
                    reveal(string);
                }
                assert(body(cur@) == Err::<(Seq<char>, Seq<char>), Failure>(e@));
                return Err(e);
            },
            Ok(None) => {
                assert(decoded@ + Seq::<char>::empty() =~= decoded@);
                break ;
            },
            Ok(Some((rest, found))) => {
                proof {
                    lemma_fragment_consumes(cur@);
                    assert(body(cur@) == prepend(found@.text(), body(rest@)));
                }
                let ghost before = decoded@;
                match found {
                    StringFragment::Literal(run) => decoded.append(run),
                    StringFragment::EscapedChar(c) => decoded.push(c),
                    StringFragment::EscapedWS => {},
                }
                assert(decoded@ =~= before + found@.text());
                assert(forall|tail: Seq<char>|
                    #![auto]
                    before + (found@.text() + tail) =~= (before + found@.text()) + tail);
                cur = rest;
            },
        }
    }
    match expect_token(cur, Token::Quote) {
        Ok(rest) => Ok((rest, decoded)),
        Err(e) => Err(e),
    }
}

} // verus!
