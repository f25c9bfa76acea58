//! Where failures point: into the input, at what was not consumed.

use vstd::prelude::*;
use crate::derivations::syntax::{
    build, derive_expression, derive_fields, descriptor, graph, input, input_rule, inputs, list,
    list_tail, output, output_rule, outputs, string_after, strings, variable, variable_rule,
    variables,
};
use crate::error::{
    is_suffix, lemma_suffix_of_suffix, lemma_within_suffix, points_into, within, Rule,
};
use crate::strings::laws::lemma_string_within;
use crate::strings::syntax::{string, string_rule};
use crate::tokens::{expect, lemma_expect_within, Token};

verus! {

/// A rule that stays within its input, whatever the input.
pub open spec fn staying<T>(rule: Rule<T>) -> bool {
    forall|s: Seq<char>| within(#[trigger] rule(s), s)
}

/// A text is left of itself.
pub proof fn lemma_suffix_of_itself(s: Seq<char>)
    ensures
        is_suffix(s, s),
{
    assert(s.skip(0) =~= s);
}

/// A token that is matched in what is left of a text leaves what is left of
/// the text, and a failure to match it points into the text.
proof fn lemma_expect_step(token: Token, inner: Seq<char>, s: Seq<char>)
    requires
        is_suffix(inner, s),
    ensures
        match expect(inner, token) {
            Ok(rest) => is_suffix(rest, s),
            Err(failure) => points_into(failure, s),
        },
{
    lemma_expect_within(token, inner);
    match expect(inner, token) {
        Ok(rest) => lemma_suffix_of_suffix(rest, inner, s),
        Err(failure) => lemma_suffix_of_suffix(failure.rest, inner, s),
    }
}

/// A string literal behind a token, in what is left of a text, stays within
/// the text.
proof fn lemma_string_after_step(token: Token, inner: Seq<char>, s: Seq<char>)
    requires
        is_suffix(inner, s),
    ensures
        within(string_after(token, inner), s),
{
    lemma_expect_step(token, inner, s);
    if let Ok(rest) = expect(inner, token) {
        lemma_string_within(rest);
        lemma_within_suffix(string(rest), rest, s);
    }
}

/// String literals stay within their input.
pub proof fn lemma_string_rule_staying()
    ensures
        staying(string_rule()),
{
    assert forall|s: Seq<char>| within(#[trigger] string_rule()(s), s) by {
        lemma_string_within(s);
    }
}

/// The tail of a list stays within its input where the items do.
pub proof fn lemma_list_tail_within<T>(item: Rule<T>, s: Seq<char>)
    requires
        staying(item),
    ensures
        within(list_tail(item, s), s),
    decreases s.len(),
{
    lemma_suffix_of_itself(s);
    lemma_expect_step(Token::Comma, s, s);
    lemma_expect_step(Token::ListClose, s, s);
    if let Ok(after) = expect(s, Token::Comma) {
        assert(within(item(after), after));
        lemma_within_suffix(item(after), after, s);
        if let Ok((_, rest)) = item(after) {
            if rest.len() < s.len() {
                lemma_list_tail_within(item, rest);
                lemma_within_suffix(list_tail(item, rest), rest, s);
            } else {
                lemma_expect_within(Token::Comma, s);
            }
        }
    }
}

/// A list stays within its input where its items do.
pub proof fn lemma_list_within<T>(item: Rule<T>, required: bool, s: Seq<char>)
    requires
        staying(item),
    ensures
        within(list(item, required, s), s),
{
    lemma_suffix_of_itself(s);
    lemma_expect_step(Token::ListOpen, s, s);
    if let Ok(inside) = expect(s, Token::ListOpen) {
        lemma_expect_step(Token::ListClose, inside, s);
        lemma_expect_within(Token::ListClose, inside);
        if expect(inside, Token::ListClose) is Err {
            assert(within(item(inside), inside));
            lemma_within_suffix(item(inside), inside, s);
            if let Ok((_, rest)) = item(inside) {
                lemma_list_tail_within(item, rest);
                lemma_within_suffix(list_tail(item, rest), rest, s);
            }
        }
    }
}

/// Outputs stay within their input.
pub proof fn lemma_output_within(s: Seq<char>)
    ensures
        within(output(s), s),
{
    lemma_suffix_of_itself(s);
    lemma_string_after_step(Token::TupleOpen, s, s);
    if let Ok((_, s1)) = string_after(Token::TupleOpen, s) {
        lemma_string_after_step(Token::Comma, s1, s);
        if let Ok((_, s2)) = string_after(Token::Comma, s1) {
            lemma_string_after_step(Token::Comma, s2, s);
            if let Ok((_, s3)) = string_after(Token::Comma, s2) {
                lemma_string_after_step(Token::Comma, s3, s);
                if let Ok((_, s4)) = string_after(Token::Comma, s3) {
                    lemma_expect_step(Token::TupleClose, s4, s);
                }
            }
        }
    }
}

/// References to other derivations stay within their input.
pub proof fn lemma_input_within(s: Seq<char>)
    ensures
        within(input(s), s),
{
    lemma_suffix_of_itself(s);
    lemma_string_after_step(Token::TupleOpen, s, s);
    if let Ok((_, s1)) = string_after(Token::TupleOpen, s) {
        lemma_expect_step(Token::Comma, s1, s);
        if let Ok(s2) = expect(s1, Token::Comma) {
            lemma_string_rule_staying();
            lemma_list_within(string_rule(), true, s2);
            lemma_within_suffix(strings(true, s2), s2, s);
            if let Ok((_, s3)) = strings(true, s2) {
                lemma_expect_step(Token::TupleClose, s3, s);
            }
        }
    }
}

/// Environment variables stay within their input.
pub proof fn lemma_variable_within(s: Seq<char>)
    ensures
        within(variable(s), s),
{
    lemma_suffix_of_itself(s);
    lemma_string_after_step(Token::TupleOpen, s, s);
    if let Ok((_, s1)) = string_after(Token::TupleOpen, s) {
        lemma_string_after_step(Token::Comma, s1, s);
        if let Ok((_, s2)) = string_after(Token::Comma, s1) {
            lemma_expect_step(Token::TupleClose, s2, s);
        }
    }
}

/// The lists of a descriptor stay within their input.
pub proof fn lemma_lists_within(s: Seq<char>)
    ensures
        within(outputs(s), s),
        within(inputs(s), s),
        within(strings(false, s), s),
        within(variables(s), s),
{
    assert forall|x: Seq<char>| within(#[trigger] output_rule()(x), x) by {
        lemma_output_within(x);
    }
    assert forall|x: Seq<char>| within(#[trigger] input_rule()(x), x) by {
        lemma_input_within(x);
    }
    assert forall|x: Seq<char>| within(#[trigger] variable_rule()(x), x) by {
        lemma_variable_within(x);
    }
    lemma_string_rule_staying();
    lemma_list_within(output_rule(), true, s);
    lemma_list_within(input_rule(), false, s);
    lemma_list_within(string_rule(), false, s);
    lemma_list_within(variable_rule(), false, s);
}

/// What a derivation produces and is made from stays within its input.
proof fn lemma_graph_within(s: Seq<char>)
    ensures
        within(graph(s), s),
{
    reveal(graph);
    lemma_lists_within(s);
    if let Ok((_, s1)) = outputs(s) {
        lemma_expect_step(Token::Comma, s1, s);
        if let Ok(s2) = expect(s1, Token::Comma) {
            lemma_lists_within(s2);
            lemma_within_suffix(inputs(s2), s2, s);
            if let Ok((_, s3)) = inputs(s2) {
                lemma_expect_step(Token::Comma, s3, s);
                if let Ok(s4) = expect(s3, Token::Comma) {
                    lemma_lists_within(s4);
                    lemma_within_suffix(strings(false, s4), s4, s);
                }
            }
        }
    }
}

/// How a derivation is built stays within its input.
proof fn lemma_build_within(s: Seq<char>)
    ensures
        within(build(s), s),
{
    reveal(build);
    lemma_string_within(s);
    if let Ok((_, s1)) = string(s) {
        lemma_string_after_step(Token::Comma, s1, s);
        if let Ok((_, s2)) = string_after(Token::Comma, s1) {
            lemma_expect_step(Token::Comma, s2, s);
            if let Ok(s3) = expect(s2, Token::Comma) {
                lemma_lists_within(s3);
                lemma_within_suffix(strings(false, s3), s3, s);
                if let Ok((_, s4)) = strings(false, s3) {
                    lemma_expect_step(Token::Comma, s4, s);
                    if let Ok(s5) = expect(s4, Token::Comma) {
                        lemma_lists_within(s5);
                        lemma_within_suffix(variables(s5), s5, s);
                    }
                }
            }
        }
    }
}

/// A `Derive(...)` expression stays within its input: what is left after
/// it is left of the input, and a failure points into the input.
pub proof fn lemma_derive_within(s: Seq<char>)
    ensures
        within(derive_fields(s), s),
        within(derive_expression(s), s),
{
    lemma_suffix_of_itself(s);
    lemma_expect_step(Token::Derive, s, s);
    if let Ok(s0) = expect(s, Token::Derive) {
        lemma_graph_within(s0);
        lemma_within_suffix(graph(s0), s0, s);
        if let Ok((_, s1)) = graph(s0) {
            lemma_expect_step(Token::Comma, s1, s);
            if let Ok(s2) = expect(s1, Token::Comma) {
                lemma_build_within(s2);
                lemma_within_suffix(build(s2), s2, s);
            }
        }
    }
    if let Ok((_, at_close)) = derive_fields(s) {
        lemma_expect_step(Token::TupleClose, at_close, s);
    }
}

/// A failed descriptor points into its input: what the failure says is left
/// is what is left of the input behind the characters that were consumed,
/// and nothing is left exactly where the failure reports the end of the
/// input.
pub proof fn lemma_failure_points_into_input(s: Seq<char>)
    ensures
        descriptor(s) matches Err(failure) ==> points_into(failure, s),
{
    lemma_derive_within(s);
}

} // verus!
