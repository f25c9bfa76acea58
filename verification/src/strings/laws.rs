//! What holds of the string literal grammar.

use vstd::prelude::*;
use crate::error::{
    is_suffix, lemma_suffix_of_suffix, lemma_within_suffix, points_into, reads, within,
    ErrorKind, Failure,
};
use crate::strings::syntax::{
    blank_len, body, encode, encode_char, escaped_char, escaped_whitespace, fragment, hex_len,
    is_blank, is_hex_digit, is_plain, literal, plain_len, prepend, quote, run_len,
    simple_escape, string, string_rule, unicode_escape,
};
use crate::strings::types::Fragment;
use crate::tokens::{expect, lemma_expect_within, Token};

verus! {

/// A run is no longer than the text it is a prefix of, its characters are
/// all in the class, and the character behind it, if there is one, is not.
pub proof fn lemma_run_len(s: Seq<char>, class: spec_fn(char) -> bool)
    ensures
        0 <= run_len(s, class) <= s.len(),
        forall|i: int| 0 <= i < run_len(s, class) ==> class(#[trigger] s[i]),
        run_len(s, class) < s.len() ==> !class(s[run_len(s, class)]),
    decreases s.len(),
{
    if s.len() > 0 && class(s[0]) {
        lemma_run_len(s.skip(1), class);
        assert forall|i: int| 0 <= i < run_len(s, class) implies class(#[trigger] s[i]) by {
            if i > 0 {
                assert(s[i] == s.skip(1)[i - 1]);
            }
        }
    }
}

/// A fragment takes at least one character from the input.
pub proof fn lemma_fragment_consumes(s: Seq<char>)
    ensures
        match fragment(s) {
            Ok(Some((_, rest))) => rest.len() < s.len(),
            _ => true,
        },
{
    reveal(fragment);
    lemma_run_len(s, |c: char| is_plain(c));
    if s.len() >= 3 {
        lemma_run_len(s.skip(3), |c: char| is_hex_digit(c));
        assert(s.skip(1).skip(2) =~= s.skip(3));
    }
    if s.len() >= 1 {
        lemma_run_len(s.skip(1), |c: char| is_blank(c));
    }
}

/// A body ends exactly where a `"` stands.
pub proof fn lemma_fragment_end(s: Seq<char>)
    ensures
        fragment(s) == Ok::<Option<(Fragment, Seq<char>)>, Failure>(None) <==> s.len() > 0
            && s[0] == '"',
{
    reveal(fragment);
}

/// A run has the length `k` where the first `k` characters are in the class
/// and the character behind them, if there is one, is not.
pub proof fn lemma_run_len_is(s: Seq<char>, class: spec_fn(char) -> bool, k: int)
    requires
        0 <= k <= s.len(),
        forall|i: int| 0 <= i < k ==> class(#[trigger] s[i]),
        k < s.len() ==> !class(s[k]),
    ensures
        run_len(s, class) == k,
    decreases k,
{
    if k > 0 {
        assert(class(s[0]));
        assert forall|i: int| 0 <= i < k - 1 implies class(#[trigger] s.skip(1)[i]) by {
            assert(s.skip(1)[i] == s[i + 1]);
        }
        lemma_run_len_is(s.skip(1), class, k - 1);
    }
}

/// A plain character at the start of a body stands for itself: the run
/// that it begins can be read one character at a time.
pub proof fn lemma_body_plain(s: Seq<char>)
    requires
        s.len() > 0,
        is_plain(s[0]),
    ensures
        body(s) == prepend(seq![s[0]], body(s.skip(1))),
{
    reveal(fragment);
    let plain = |c: char| is_plain(c);
    let k = plain_len(s);
    lemma_run_len(s, plain);
    lemma_run_len(s.skip(1), plain);
    let tail = s.skip(1);
    assert(fragment(s) == Ok::<Option<(Fragment, Seq<char>)>, Failure>(
        Some((Fragment::Literal(s.take(k)), s.skip(k))),
    ));
    assert(body(s) == prepend(s.take(k), body(s.skip(k))));
    if k > 1 {
        assert(is_plain(tail[0]));
        assert(plain_len(tail) == k - 1);
        assert(tail.skip(k - 1) =~= s.skip(k));
        assert(fragment(tail) == Ok::<Option<(Fragment, Seq<char>)>, Failure>(
            Some((Fragment::Literal(tail.take(k - 1)), s.skip(k))),
        ));
        assert(body(tail) == prepend(tail.take(k - 1), body(s.skip(k))));
        assert(s.take(k) =~= seq![s[0]] + tail.take(k - 1));
        match body(s.skip(k)) {
            Ok((text, rest)) => {
                assert(s.take(k) + text =~= seq![s[0]] + (tail.take(k - 1) + text));
            },
            Err(_) => {},
        }
    } else {
        assert(s.take(k) =~= seq![s[0]]);
    }
}

/// A two-character escape at the start of a body stands for its character.
pub proof fn lemma_body_escape(s: Seq<char>)
    requires
        s.len() >= 2,
        s[0] == '\\',
        simple_escape(s[1]) is Some,
    ensures
        body(s) == prepend(seq![simple_escape(s[1])->0], body(s.skip(2))),
{
    reveal(fragment);
}

/// What `encode` writes, the body of a literal reads back.
pub proof fn lemma_body_reads_encoded(text: Seq<char>, tail: Seq<char>)
    ensures
        body(encode(text) + seq!['"'] + tail) == Ok::<(Seq<char>, Seq<char>), Failure>(
            (text, seq!['"'] + tail),
        ),
    decreases text.len(),
{
    let source = encode(text) + seq!['"'] + tail;
    if text.len() == 0 {
        assert(source =~= seq!['"'] + tail);
        assert(text =~= Seq::<char>::empty());
        lemma_fragment_end(source);
    } else {
        let c = text[0];
        let rest = encode(text.skip(1)) + seq!['"'] + tail;
        lemma_body_reads_encoded(text.skip(1), tail);
        assert(source =~= encode_char(c) + rest);
        assert(seq![c] + text.skip(1) =~= text);
        if c == '"' || c == '\\' || c == '\n' || c == '\r' || c == '\t' {
            assert(source.skip(2) =~= rest);
            lemma_body_escape(source);
        } else {
            assert(source.skip(1) =~= rest);
            lemma_body_plain(source);
        }
    }
}

/// Decoding inverts writing: the literal that writes a text is read as that
/// text, whatever follows it.
pub proof fn lemma_quote_reads(text: Seq<char>)
    ensures
        reads(string_rule(), quote(text), text),
{
    reveal(string);
    assert forall|tail: Seq<char>| #[trigger]
        string_rule()(quote(text) + tail) == Ok::<(Seq<char>, Seq<char>), Failure>(
            (text, tail),
        ) by {
        let source = quote(text) + tail;
        lemma_body_reads_encoded(text, tail);
        assert(source.skip(1) =~= encode(text) + seq!['"'] + tail);
        assert(Token::Quote.text().is_prefix_of(source));
        assert((seq!['"'] + tail).skip(1) =~= tail);
        assert(Token::Quote.text().is_prefix_of(seq!['"'] + tail));
    }
}

/// What a fragment leaves is the input without its first characters, and a
/// text that has the same characters up to the end of the fragment, and
/// behind them a character that ends it, has the same fragment.
proof fn lemma_fragment_local(s: Seq<char>, u: Seq<char>, n: int)
    requires
        fragment(s) matches Ok(Some((f, rest))) && s.len() - rest.len() <= n,
        0 <= n <= s.len(),
        n < u.len(),
        u.take(n) == s.take(n),
        !is_plain(u[n]),
    ensures
        fragment(s) matches Ok(Some((f, rest))) && {
            let k = s.len() - rest.len();
            &&& 0 < k <= n
            &&& rest == s.skip(k)
            &&& fragment(u) == Ok::<Option<(Fragment, Seq<char>)>, Failure>(
                Some((f, u.skip(k))),
            )
        },
{
    reveal(fragment);
    let plain = |c: char| is_plain(c);
    let blank = |c: char| is_blank(c);
    let hex = |c: char| is_hex_digit(c);
    assert forall|i: int| 0 <= i < n implies u[i] == s[i] by {
        assert(u[i] == u.take(n)[i]);
        assert(s[i] == s.take(n)[i]);
    }
    lemma_fragment_consumes(s);
    if s[0] != '\\' {
        let k = plain_len(s);
        lemma_run_len(s, plain);
        assert forall|i: int| 0 <= i < k implies plain(#[trigger] u[i]) by {
            assert(plain(s[i]));
        }
        lemma_run_len_is(u, plain, k);
        assert(u.take(k) =~= s.take(k));
    } else if s.len() >= 2 && is_blank(s[1]) {
        let b = blank_len(s.skip(1));
        lemma_run_len(s.skip(1), blank);
        assert forall|i: int| 0 <= i < b implies blank(#[trigger] u.skip(1)[i]) by {
            assert(blank(s.skip(1)[i]));
        }
        if 1 + b < n {
            assert(u.skip(1)[b] == s.skip(1)[b]);
        }
        lemma_run_len_is(u.skip(1), blank, b);
        assert(u.skip(1 + b) =~= u.skip(1 + blank_len(u.skip(1))));
    } else if s[1] == 'u' {
        let behind = s.skip(1);
        let other = u.skip(1);
        assert(behind.skip(2) =~= s.skip(3));
        let d = hex_len(s.skip(3));
        let close = 3 + d;
        lemma_run_len(s.skip(3), hex);
        assert(behind[2 + d] == s[close]);
        assert(behind.skip(2 + d + 1) =~= s.skip(close + 1));
        assert(close < n);
        assert(other.skip(2) =~= u.skip(3));
        assert(s.skip(3)[d] == s[close]);
        assert(run_len(s.skip(3), hex) == d);
        assert forall|i: int| 0 <= i < d implies hex(#[trigger] u.skip(3)[i]) by {
            assert(hex(s.skip(3)[i]));
        }
        assert(u.skip(3)[d] == u[close]);
        lemma_run_len_is(u.skip(3), hex, d);
        assert(other[2 + d] == u[close]);
        assert(other.subrange(2, 2 + d) =~= behind.subrange(2, 2 + d));
        assert(other.skip(2 + d + 1) =~= u.skip(close + 1));
    } else {
    }
}

/// The body of a literal ends at a `"` of the input. Where other text
/// stands in place of that `"` and of what follows it, and begins with a
/// `"` or a backslash, the fragments before it are read as they were.
pub proof fn lemma_body_prefix(s: Seq<char>, next: Seq<char>)
    requires
        body(s) is Ok,
        next.len() > 0,
        !is_plain(next[0]),
    ensures
        body(s) matches Ok((text, rest)) && {
            let n = s.len() - rest.len();
            &&& 0 <= n < s.len()
            &&& rest == s.skip(n)
            &&& rest[0] == '"'
            &&& body(s.take(n) + next) == prepend(text, body(next))
        },
    decreases s.len(),
{
    let (text, rest) = body(s)->Ok_0;
    let n = s.len() - rest.len();
    match fragment(s) {
        Ok(None) => {
            lemma_fragment_end(s);
            assert(s.skip(0) =~= s);
            assert(s.take(0) + next =~= next);
            match body(next) {
                Ok((found, _)) => {
                    assert(text + found =~= found);
                },
                Err(_) => {},
            }
        },
        Ok(Some((f, after))) => {
            lemma_fragment_consumes(s);
            lemma_body_prefix(after, next);
            let (text1, _) = body(after)->Ok_0;
            let k = s.len() - after.len();
            let n1 = after.len() - rest.len();
            let u = s.take(n) + next;
            assert(u.take(n) =~= s.take(n));
            lemma_fragment_local(s, u, n);
            assert(rest =~= s.skip(n));
            assert(u.skip(k) =~= after.take(n1) + next);
            match body(next) {
                Ok((found, _)) => {
                    assert(f.text() + (text1 + found) =~= (f.text() + text1) + found);
                },
                Err(_) => {},
            }
        },
        Err(_) => {},
    }
}

/// The body of a literal ends at a `"` of the input, and a text that has the
/// same characters up to that `"` has the same body, whatever follows.
pub proof fn lemma_body_local(s: Seq<char>, tail: Seq<char>)
    requires
        body(s) is Ok,
    ensures
        body(s) matches Ok((text, rest)) && {
            let n = s.len() - rest.len();
            &&& 0 <= n < s.len()
            &&& rest == s.skip(n)
            &&& rest[0] == '"'
            &&& body(s.take(n) + seq!['"'] + tail) == Ok::<(Seq<char>, Seq<char>), Failure>(
                (text, seq!['"'] + tail),
            )
        },
{
    let (text, rest) = body(s)->Ok_0;
    let n = s.len() - rest.len();
    lemma_body_prefix(s, seq!['"'] + tail);
    lemma_fragment_end(seq!['"'] + tail);
    assert(s.take(n) + seq!['"'] + tail =~= s.take(n) + (seq!['"'] + tail));
    assert(text + Seq::<char>::empty() =~= text);
}

/// Locality of string literals: a literal ends where its closing `"` stands,
/// and what follows has no say in how it is read.
pub proof fn lemma_string_local(s: Seq<char>)
    requires
        string(s) is Ok,
    ensures
        string(s) matches Ok((text, rest)) && {
            let n = s.len() - rest.len();
            &&& 2 <= n <= s.len()
            &&& rest == s.skip(n)
            &&& reads(string_rule(), s.take(n), text)
        },
{
    reveal(string);
    let (text, rest) = string(s)->Ok_0;
    let n = s.len() - rest.len();
    let inside = s.skip(1);
    let (_, at_close) = body(inside)->Ok_0;
    let m = inside.len() - at_close.len();
    lemma_body_local(inside, Seq::empty());
    assert(at_close == inside.skip(m));
    assert(rest == at_close.skip(1));
    assert(rest =~= s.skip(n));
    assert forall|tail: Seq<char>| #[trigger]
        string_rule()(s.take(n) + tail) == Ok::<(Seq<char>, Seq<char>), Failure>(
            (text, tail),
        ) by {
        lemma_body_local(inside, tail);
        let u = s.take(n) + tail;
        assert(Token::Quote.text().is_prefix_of(u));
        assert(u.skip(1) =~= inside.take(m) + seq!['"'] + tail);
        assert(Token::Quote.text().is_prefix_of(seq!['"'] + tail));
        assert((seq!['"'] + tail).skip(1) =~= tail);
    }
}

/// A backslash before a character that begins no escape sequence fails the
/// literal as an invalid escape, wherever in the literal it stands, and the
/// failure points at that backslash: the text in front of it is consumed,
/// and nothing behind it.
pub proof fn lemma_invalid_escape(s: Seq<char>, c: char, tail: Seq<char>)
    requires
        string(s) is Ok,
        simple_escape(c) is None,
        c != 'u',
        !is_blank(c),
    ensures
        string(s) matches Ok((_, rest)) && string(
            s.take(s.len() - rest.len() - 1) + seq!['\\', c] + tail,
        ) == Err::<(Seq<char>, Seq<char>), Failure>(
            Failure { kind: ErrorKind::InvalidEscape, rest: seq!['\\', c] + tail },
        ),
{
    reveal(string);
    let (_, rest) = string(s)->Ok_0;
    let inside = s.skip(1);
    let (_, at_close) = body(inside)->Ok_0;
    let m = inside.len() - at_close.len();
    let next = seq!['\\', c] + tail;
    lemma_body_prefix(inside, next);
    assert(body(next) == Err::<(Seq<char>, Seq<char>), Failure>(
        Failure { kind: ErrorKind::InvalidEscape, rest: next },
    )) by {
        reveal(fragment);
    }
    let u = s.take(s.len() - rest.len() - 1) + seq!['\\', c] + tail;
    assert(Token::Quote.text().is_prefix_of(u));
    assert(u.skip(1) =~= inside.take(m) + next);
}

/// What a fragment leaves is left of the input, and a failure to read one
/// points into the input.
pub proof fn lemma_fragment_within(s: Seq<char>)
    ensures
        match fragment(s) {
            Ok(Some((_, rest))) => is_suffix(rest, s) && rest.len() < s.len(),
            Ok(None) => true,
            Err(failure) => points_into(failure, s),
        },
{
    reveal(fragment);
    lemma_fragment_consumes(s);
    lemma_run_len(s, |c: char| is_plain(c));
    assert(s.skip(0) =~= s);
    assert(Seq::<char>::empty() =~= s.skip(s.len() as int));
    if s.len() >= 1 {
        lemma_run_len(s.skip(1), |c: char| is_blank(c));
    }
    if s.len() >= 3 {
        let d = hex_len(s.skip(3));
        lemma_run_len(s.skip(3), |c: char| is_hex_digit(c));
        assert(s.skip(1).skip(2) =~= s.skip(3));
        if 3 + d < s.len() {
            assert(s.skip(1).skip(2 + d + 1) =~= s.skip(3 + d + 1));
        }
    }
}

/// What a literal run, an escape sequence or a continuation leaves is left
/// of the input, and a failure to read one points into the input.
pub proof fn lemma_pieces_within(s: Seq<char>)
    ensures
        within(literal(s), s),
        within(unicode_escape(s), s),
        within(escaped_char(s), s),
        within(escaped_whitespace(s), s),
{
    let hex = |c: char| is_hex_digit(c);
    lemma_run_len(s, |c: char| is_plain(c));
    assert(s.skip(0) =~= s);
    assert(Seq::<char>::empty() =~= s.skip(s.len() as int));
    if s.len() >= 1 {
        lemma_run_len(s.skip(1), |c: char| is_blank(c));
    }
    if s.len() >= 2 {
        lemma_run_len(s.skip(2), hex);
    }
    if s.len() >= 3 {
        let d = hex_len(s.skip(3));
        lemma_run_len(s.skip(3), hex);
        assert(s.skip(1).skip(2) =~= s.skip(3));
        if 3 + d < s.len() {
            assert(s.skip(1).skip(2 + d + 1) =~= s.skip(3 + d + 1));
        }
    }
}

/// What the body of a literal leaves is left of the input, and a failure
/// inside it points into the input.
pub proof fn lemma_body_within(s: Seq<char>)
    ensures
        within(body(s), s),
    decreases s.len(),
{
    lemma_fragment_within(s);
    assert(s.skip(0) =~= s);
    match fragment(s) {
        Ok(Some((_, rest))) => {
            lemma_body_within(rest);
            match body(rest) {
                Ok((_, left)) => {
                    assert(left =~= s.skip(s.len() - left.len()));
                },
                Err(failure) => {
                    assert(failure.rest =~= s.skip(s.len() - failure.rest.len()));
                },
            }
        },
        _ => {},
    }
}

/// A failed literal points into the input: what the failure says is left is
/// what is left of the input behind the characters that were consumed, and
/// nothing is left exactly where the input ended too early.
pub proof fn lemma_string_within(s: Seq<char>)
    ensures
        within(string(s), s),
{
    reveal(string);
    lemma_expect_within(Token::Quote, s);
    if let Ok(inside) = expect(s, Token::Quote) {
        lemma_body_within(inside);
        lemma_within_suffix(body(inside), inside, s);
        if let Ok((text, at_close)) = body(inside) {
            lemma_expect_within(Token::Quote, at_close);
            match expect(at_close, Token::Quote) {
                Ok(rest) => {
                    lemma_suffix_of_suffix(rest, at_close, s);
                },
                Err(failure) => {
                    lemma_suffix_of_suffix(failure.rest, at_close, s);
                },
            }
        }
    }
}

/// The kinds of failure inside the body of a literal.
pub open spec fn is_body_failure(kind: ErrorKind) -> bool {
    kind == ErrorKind::UnterminatedString || kind == ErrorKind::InvalidEscape || kind
        == ErrorKind::InvalidUnicodeScalar
}

/// The body of a literal fails as an unterminated string, an invalid escape
/// or an invalid Unicode scalar, and in no other way: a literal run is read
/// only where a plain character stands, so it is never found empty.
pub proof fn lemma_body_failures(s: Seq<char>)
    ensures
        body(s) matches Err(failure) ==> is_body_failure(failure.kind),
    decreases s.len(),
{
    lemma_fragment_consumes(s);
    reveal(fragment);
    if let Ok(Some((_, rest))) = fragment(s) {
        lemma_body_failures(rest);
    }
}

/// A string literal fails in the ways its body fails, or at its opening
/// quote: where the input has ended, or where other text stands.
pub proof fn lemma_string_failures(s: Seq<char>)
    ensures
        string(s) matches Err(failure) ==> is_body_failure(failure.kind) || failure.kind
            == ErrorKind::UnexpectedEndOfInput || failure.kind == (ErrorKind::UnexpectedToken {
            expected: Token::Quote,
        }),
{
    reveal(string);
    if let Ok(inside) = expect(s, Token::Quote) {
        lemma_body_failures(inside);
        if let Ok((_, at_close)) = body(inside) {
            lemma_body_prefix(inside, seq!['"']);
            assert(Token::Quote.text() =~= at_close.subrange(0, 1));
        }
    }
}

} // verus!
