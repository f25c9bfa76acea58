//! Error kinds, and the failure values that carry them.

use vstd::prelude::*;
use crate::tokens::Token;

verus! {

/// Why a parse failed.
#[derive(Clone, Copy, Debug, PartialEq, Eq, Structural)]
pub enum ErrorKind {
    /// The input ended inside a string literal.
    UnterminatedString,
    /// A backslash is followed by something that is no escape sequence.
    InvalidEscape,
    /// A `\u{...}` escape names a value that is no Unicode scalar value.
    InvalidUnicodeScalar,
    /// Some other text stands where `expected` has to stand.
    UnexpectedToken { expected: Token },
    /// The input ended where a token has to stand.
    UnexpectedEndOfInput,
    /// A list that needs at least one entry is written as `[]`, or a run of
    /// characters that needs at least one has none.
    EmptyRequiredList,
    /// Text follows the closing `)` of the descriptor.
    TrailingData,
}

impl ErrorKind {
    /// The kinds that report the end of the input; the others point at text.
    pub open spec fn at_end(self) -> bool {
        self == ErrorKind::UnterminatedString || self == ErrorKind::UnexpectedEndOfInput
    }
}

/// A failure of the grammar: its kind, and the input that was not consumed
/// at the point of failure.
pub struct Failure {
    pub kind: ErrorKind,
    pub rest: Seq<char>,
}

/// What a grammar rule makes of an input: a value and the input that is left
/// after it, or a failure.
pub type Parsed<T> = Result<(T, Seq<char>), Failure>;

/// A grammar rule.
pub type Rule<T> = spec_fn(Seq<char>) -> Parsed<T>;

/// `rule` reads `source` as `value`, whatever text follows: it takes
/// `source` from the input, no more and no less, and leaves the rest.
pub open spec fn reads<T>(rule: Rule<T>, source: Seq<char>, value: T) -> bool {
    forall|tail: Seq<char>| #[trigger]
        rule(source + tail) == Ok::<(T, Seq<char>), Failure>((value, tail))
}

/// `rest` is what is left of `s` behind some of its first characters.
pub open spec fn is_suffix(rest: Seq<char>, s: Seq<char>) -> bool {
    rest.len() <= s.len() && rest == s.skip(s.len() - rest.len())
}

/// The failure points into `s`: what it says is left is what is left of `s`
/// behind some of its first characters, and nothing is left exactly where
/// the failure reports the end of the input.
pub open spec fn points_into(failure: Failure, s: Seq<char>) -> bool {
    is_suffix(failure.rest, s) && (failure.kind.at_end() <==> failure.rest.len() == 0)
}

/// What a rule makes of `s` stays within `s`: what is left after a value is
/// left of `s`, and a failure points into `s`.
pub open spec fn within<T>(parsed: Parsed<T>, s: Seq<char>) -> bool {
    match parsed {
        Ok((_, rest)) => is_suffix(rest, s),
        Err(failure) => points_into(failure, s),
    }
}

/// Puts `kind` and `rest` together.
pub open spec fn fail<T>(kind: ErrorKind, rest: Seq<char>) -> Parsed<T> {
    Err(Failure { kind, rest })
}

/// A failure that reports the end of the input: nothing is left.
pub open spec fn fail_at_end<T>(kind: ErrorKind) -> Parsed<T> {
    Err(Failure { kind, rest: Seq::empty() })
}

/// A failed parse: the kind of the failure and the slice of the input that
/// was not consumed when it was detected.
#[derive(Clone, Copy, Debug, PartialEq, Eq)]
pub struct ParseError<'a> {
    pub kind: ErrorKind,
    pub rest: &'a str,
}

impl<'a> View for ParseError<'a> {
    type V = Failure;

    open spec fn view(&self) -> Failure {
        Failure { kind: self.kind, rest: self.rest@ }
    }
}

/// The result of an executable routine says what the grammar says: the same
/// value and the same remaining input, or the same failure.
pub open spec fn agrees<'a, T: DeepView>(
    result: Result<(&'a str, T), ParseError<'a>>,
    parsed: Parsed<T::V>,
) -> bool {
    match (result, parsed) {
        (Ok((rest, value)), Ok((v, r))) => value.deep_view() == v && rest@ == r,
        (Err(e), Err(f)) => e@ == f,
        _ => false,
    }
}

/// A rule applied to a text that begins with a part it reads gives the
/// part's value and leaves what follows the part.
pub proof fn lemma_reads_at<T>(
    rule: Rule<T>,
    source: Seq<char>,
    value: T,
    tail: Seq<char>,
    s: Seq<char>,
)
    requires
        reads(rule, source, value),
        s =~= source + tail,
    ensures
        rule(s) == Ok::<(T, Seq<char>), Failure>((value, tail)),
{
    assert(rule(source + tail) == Ok::<(T, Seq<char>), Failure>((value, tail)));
}

/// What is left of what is left of a text is left of the text.
pub proof fn lemma_suffix_of_suffix(rest: Seq<char>, inner: Seq<char>, s: Seq<char>)
    requires
        is_suffix(rest, inner),
        is_suffix(inner, s),
    ensures
        is_suffix(rest, s),
{
    assert(rest =~= s.skip(s.len() - rest.len()));
}

/// What stays within what is left of a text stays within the text.
pub proof fn lemma_within_suffix<T>(parsed: Parsed<T>, inner: Seq<char>, s: Seq<char>)
    requires
        within(parsed, inner),
        is_suffix(inner, s),
    ensures
        within(parsed, s),
{
    match parsed {
        Ok((_, rest)) => lemma_suffix_of_suffix(rest, inner, s),
        Err(failure) => lemma_suffix_of_suffix(failure.rest, inner, s),
    }
}

} // verus!
