//! Primitive operations on string slices, stated over their character views.

use vstd::prelude::*;
use vstd::string::*;
use vstd::utf8::*;

verus! {

/// `String::push` appends one character to the end of the string and leaves
/// the characters before it as they are.
pub assume_specification[ String::push ](s: &mut String, ch: char)
    ensures
        final(s)@ == old(s)@.push(ch),
;

/// A Unicode scalar value: a code up to `0x10FFFF` that is no surrogate.
pub open spec fn is_scalar_value(code: u32) -> bool {
    code <= 0xD7FF || (0xE000 <= code && code <= 0x10_FFFF)
}

/// `char::from_u32` gives the character with the code `i` where `i` is a
/// Unicode scalar value, and `None` for every other `i`.
pub assume_specification[ char::from_u32 ](i: u32) -> (r: Option<char>)
    ensures
        r == (if is_scalar_value(i) {
            Some(i as char)
        } else {
            None::<char>
        }),
;

/// Splits a string slice into its first character and the rest.
pub fn split_first<'a>(input: &'a str) -> (r: Option<(char, &'a str)>)
    ensures
        match r {
            None => input@.len() == 0,
            Some((c, rest)) => input@.len() > 0 && c == input@[0] && rest@ == input@.skip(1),
        },
{
    if input.is_empty() {
        return None;
    }
    let c = input.get_char(0);
    let code: u32 = c as u32;
    let width: usize = if code < 0x80 {
        1
    } else if code < 0x800 {
        2
    } else if code < 0x1_0000 {
        3
    } else {
        4
    };
    proof {
        let chars = input@;
        let bytes = input.spec_bytes();
        encode_utf8_first_scalar(chars);
        encode_utf8_valid_utf8(chars);
        encode_utf8_valid_utf8(chars.drop_first());
        assert(length_of_first_scalar(bytes) == width);
        assert(pop_first_scalar(bytes) =~= encode_utf8(chars.drop_first()));
        reveal_with_fuel(is_char_boundary, 2);
        assert(is_char_boundary(bytes, width as int));
    }
    let (_, rest) = input.split_at(width);
    proof {
        let tail = input@.drop_first();
        assert(rest.spec_bytes() =~= encode_utf8(tail));
        encode_utf8_decode_utf8(rest@);
        encode_utf8_decode_utf8(tail);
        assert(tail =~= input@.skip(1));
    }
    Some((c, rest))
}

/// Every character takes at least one byte, so a text has no more
/// characters than its encoding has bytes.
pub proof fn lemma_chars_fit_in_bytes(chars: Seq<char>)
    ensures
        chars.len() <= encode_utf8(chars).len(),
    decreases chars.len(),
{
    if chars.len() > 0 {
        lemma_chars_fit_in_bytes(chars.drop_first());
    }
}

/// The first `n` characters of a string slice.
pub(crate) fn take_chars<'a>(input: &'a str, n: usize) -> (r: &'a str)
    requires
        n <= input@.len(),
    ensures
        r@ == input@.take(n as int),
{
    input.substring_char(0, n)
}

/// Whether two string slices hold the same characters.
pub fn same_text(a: &str, b: &str) -> (r: bool)
    ensures
        r == (a@ == b@),
{
    let mut left = a;
    let mut right = b;
    let ghost mut k: int = 0;
    loop
        invariant
            0 <= k <= a@.len(),
            k <= b@.len(),
            left@ == a@.skip(k),
            right@ == b@.skip(k),
            a@.take(k) == b@.take(k),
        decreases left@.len(),
    {
        match (split_first(left), split_first(right)) {
            (None, None) => {
                assert(a@ =~= a@.take(k));
                assert(b@ =~= b@.take(k));
                return true;
            },
            (Some((x, left_rest)), Some((y, right_rest))) => {
                if x != y {
                    assert(a@[k] != b@[k]);
                    return false;
                }
                assert(a@.take(k + 1) =~= a@.take(k).push(a@[k]));
                assert(b@.take(k + 1) =~= b@.take(k).push(b@[k]));
                assert(left_rest@ =~= a@.skip(k + 1));
                assert(right_rest@ =~= b@.skip(k + 1));
                left = left_rest;
                right = right_rest;
                proof {
                    k = k + 1;
                }
            },
            _ => {
                assert(a@.len() != b@.len());
                return false;
            },
        }
    }
}

/// The characters of a string slice can be counted in a `usize`.
pub(crate) fn note_char_count(input: &str)
    ensures
        input@.len() <= usize::MAX,
{
    let byte_count = input.as_bytes().len();
    proof {
        lemma_chars_fit_in_bytes(input@);
    }
}

/// Putting texts together is associative.
pub proof fn lemma_join(a: Seq<char>, b: Seq<char>, c: Seq<char>)
    ensures
        (a + b) + c == a + (b + c),
{
    assert((a + b) + c =~= a + (b + c));
}

/// The first `a + b` characters of a text are its first `a` characters and
/// the first `b` of what follows them.
pub proof fn lemma_take_more(s: Seq<char>, a: int, b: int)
    requires
        0 <= a,
        0 <= b,
        a + b <= s.len(),
    ensures
        s.take(a + b) == s.take(a) + s.skip(a).take(b),
        s.skip(a + b) == s.skip(a).skip(b),
{
    assert(s.take(a + b) =~= s.take(a) + s.skip(a).take(b));
    assert(s.skip(a + b) =~= s.skip(a).skip(b));
}

/// A text with nothing behind it is the text.
pub proof fn lemma_nothing_joined(a: Seq<char>)
    ensures
        a + Seq::<char>::empty() == a,
{
    assert(a + Seq::<char>::empty() =~= a);
}

} // verus!
