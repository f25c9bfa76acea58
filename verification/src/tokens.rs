//! The fixed literal tokens of the grammar, and how one is matched.

use vstd::prelude::*;
use crate::error::{is_suffix, points_into, ErrorKind, Failure, ParseError};
use crate::text::split_first;

verus! {

/// The fixed literal tokens of the descriptor grammar.
#[derive(Clone, Copy, Debug, PartialEq, Eq, Structural)]
pub enum Token {
    /// `Derive(`
    Derive,
    /// `[`
    ListOpen,
    /// `]`
    ListClose,
    /// `(`
    TupleOpen,
    /// `)`
    TupleClose,
    /// `,`
    Comma,
    /// `"`
    Quote,
}

impl Token {
    /// The characters that make up the token.
    pub open spec fn text(self) -> Seq<char> {
        match self {
            Token::Derive => seq!['D', 'e', 'r', 'i', 'v', 'e', '('],
            Token::ListOpen => seq!['['],
            Token::ListClose => seq![']'],
            Token::TupleOpen => seq!['('],
            Token::TupleClose => seq![')'],
            Token::Comma => seq![','],
            Token::Quote => seq!['"'],
        }
    }

    /// The token as it is written in a descriptor.
    pub fn as_str(self) -> (r: &'static str)
        ensures
            r@ == self.text(),
    {
        proof {
            reveal_strlit("Derive(");
            reveal_strlit("[");
            reveal_strlit("]");
            reveal_strlit("(");
            reveal_strlit(")");
            reveal_strlit(",");
            reveal_strlit("\"");
        }
        let r = match self {
            Token::Derive => "Derive(",
            Token::ListOpen => "[",
            Token::ListClose => "]",
            Token::TupleOpen => "(",
            Token::TupleClose => ")",
            Token::Comma => ",",
            Token::Quote => "\"",
        };
        assert(r@ =~= self.text());
        r
    }
}

/// One token: `token` has to stand at the start of `s`, and what follows it
/// is left. Input that ends before the token is complete fails at the end;
/// other text fails where it stands.
pub open spec fn expect(s: Seq<char>, token: Token) -> Result<Seq<char>, Failure> {
    if token.text().is_prefix_of(s) {
        Ok(s.skip(token.text().len() as int))
    } else if s.is_prefix_of(token.text()) {
        Err(Failure { kind: ErrorKind::UnexpectedEndOfInput, rest: Seq::empty() })
    } else {
        Err(Failure { kind: ErrorKind::UnexpectedToken { expected: token }, rest: s })
    }
}

/// Matches `token` at the start of `input` and returns what follows it.
pub fn expect_token<'a>(input: &'a str, token: Token) -> (r: Result<&'a str, ParseError<'a>>)
    ensures
        match (r, expect(input@, token)) {
            (Ok(rest), Ok(s)) => rest@ == s,
            (Err(e), Err(f)) => e@ == f,
            _ => false,
        },
{
    let mut pattern = token.as_str();
    let mut cur = input;
    let ghost mut k: int = 0;
    loop
        invariant
            0 <= k <= token.text().len(),
            k <= input@.len(),
            pattern@ == token.text().skip(k),
            cur@ == input@.skip(k),
            input@.take(k) == token.text().take(k),
        decreases pattern@.len(),
    {
        match split_first(pattern) {
            None => {
                assert(token.text() =~= input@.subrange(0, k));
                return Ok(cur);
            },
            Some((p, pattern_rest)) => match split_first(cur) {
                None => {
                    assert(input@ =~= token.text().subrange(0, k));
                    assert(cur@ =~= Seq::empty());
                    return Err(ParseError { kind: ErrorKind::UnexpectedEndOfInput, rest: cur });
                },
                Some((c, cur_rest)) => {
                    if c != p {
                        assert(input@[k] != token.text()[k]);
                        assert(token.text().is_prefix_of(input@) ==> input@.subrange(
                            0,
                            token.text().len() as int,
                        )[k] == token.text()[k]);
                        assert(input@.is_prefix_of(token.text()) ==> token.text().subrange(
                            0,
                            input@.len() as int,
                        )[k] == input@[k]);
                        return Err(
                            ParseError {
                                kind: ErrorKind::UnexpectedToken { expected: token },
                                rest: input,
                            },
                        );
                    }
                    assert(input@.take(k + 1) =~= input@.take(k).push(input@[k]));
                    assert(token.text().take(k + 1) =~= token.text().take(k).push(
                        token.text()[k],
                    ));
                    assert(pattern_rest@ =~= token.text().skip(k + 1));
                    assert(cur_rest@ =~= input@.skip(k + 1));
                    pattern = pattern_rest;
                    cur = cur_rest;
                    proof {
                        k = k + 1;
                    }
                },
            },
        }
    }
}

/// A token at the start of a text is matched, and what follows is left.
pub proof fn lemma_expect_at(token: Token, tail: Seq<char>, s: Seq<char>)
    requires
        s =~= token.text() + tail,
    ensures
        expect(s, token) == Ok::<Seq<char>, Failure>(tail),
{
    assert(token.text() =~= s.subrange(0, token.text().len() as int));
    assert(s.skip(token.text().len() as int) =~= tail);
}

/// A text that begins with another character than the token begins with is
/// an unexpected token.
pub proof fn lemma_expect_other(token: Token, s: Seq<char>)
    requires
        s.len() > 0,
        s[0] != token.text()[0],
    ensures
        expect(s, token) == Err::<Seq<char>, Failure>(
            Failure { kind: ErrorKind::UnexpectedToken { expected: token }, rest: s },
        ),
{
    if token.text().is_prefix_of(s) {
        assert(s.subrange(0, token.text().len() as int)[0] == token.text()[0]);
    }
    if s.is_prefix_of(token.text()) {
        assert(token.text().subrange(0, s.len() as int)[0] == s[0]);
    }
}

/// A matched token stands at the front of the input.
pub proof fn lemma_expect_local(token: Token, s: Seq<char>)
    requires
        expect(s, token) is Ok,
    ensures
        expect(s, token) matches Ok(rest) && {
            let k = token.text().len() as int;
            &&& 0 < k <= s.len()
            &&& rest == s.skip(k)
            &&& s.take(k) == token.text()
        },
{
    assert(s.take(token.text().len() as int) =~= token.text());
}

/// Where a token of one character is not matched and the input has not
/// ended, the input begins with another character.
pub proof fn lemma_expect_failed(token: Token, s: Seq<char>)
    requires
        expect(s, token) is Err,
        token.text().len() == 1,
        s.len() > 0,
    ensures
        s[0] != token.text()[0],
{
    if s[0] == token.text()[0] {
        assert(token.text() =~= s.subrange(0, 1));
    }
}

/// What a token leaves is left of the input, and a failure to match it
/// points into the input.
pub proof fn lemma_expect_within(token: Token, s: Seq<char>)
    ensures
        match expect(s, token) {
            Ok(rest) => is_suffix(rest, s) && rest.len() < s.len(),
            Err(failure) => points_into(failure, s),
        },
{
    assert(s.skip(0) =~= s);
    assert(Seq::<char>::empty() =~= s.skip(s.len() as int));
    if s.len() == 0 {
        assert(s.is_prefix_of(token.text()));
    }
}

} // verus!
