//! Locality of the grammar: what a rule reads is a piece at the front of
//! the input, and what follows the piece has no say in how it is read.

use vstd::prelude::*;
use crate::derivations::roundtrip::{
    lemma_input_reads, lemma_inputs_read, lemma_output_reads, lemma_outputs_read,
    lemma_variable_reads,
};
use crate::derivations::syntax::{
    build, derive_expression, derive_fields, graph, input, input_rule, inputs, inputs_rule,
    list, list_rule, list_tail, output, output_rule, outputs, outputs_rule, string_after,
    strings, variable, variable_rule,
};
use crate::derivations::writing::{
    reads_parts, write_build, write_derive, write_fields, write_graph, write_input,
    write_output, write_variable, Parts,
};
use crate::error::{lemma_reads_at, reads, Failure, Parsed, Rule};
use crate::strings::laws::lemma_string_local;
use crate::strings::syntax::{string, string_rule};
use crate::text::{lemma_join, lemma_take_more};
use crate::tokens::{
    expect, lemma_expect_at, lemma_expect_failed, lemma_expect_local, lemma_expect_other, Token,
};

verus! {

/// What a successful parse leaves is shorter than what it was given.
pub open spec fn shortens<T>(parsed: Parsed<T>, s: Seq<char>) -> bool {
    parsed matches Ok((_, rest)) ==> rest.len() < s.len()
}

/// A rule that takes at least one character from the input wherever it
/// succeeds.
pub open spec fn consuming<T>(rule: Rule<T>) -> bool {
    forall|s: Seq<char>| shortens(#[trigger] rule(s), s)
}

/// Locality of a rule on an input: where the rule succeeds, it takes a
/// piece from the front of the input, and it reads that piece as the same
/// value whatever follows.
pub open spec fn local<T>(rule: Rule<T>, s: Seq<char>) -> bool {
    rule(s) matches Ok((value, rest)) ==> {
        let n = s.len() - rest.len();
        &&& 0 < n <= s.len()
        &&& rest == s.skip(n)
        &&& reads(rule, s.take(n), value)
    }
}

/// Locality of a rule on every input.
pub open spec fn everywhere_local<T>(rule: Rule<T>) -> bool {
    forall|s: Seq<char>| #[trigger] local(rule, s)
}

/// A rule that is local everywhere is consuming.
pub proof fn lemma_local_is_consuming<T>(rule: Rule<T>)
    requires
        everywhere_local(rule),
    ensures
        consuming(rule),
{
    assert forall|s: Seq<char>| shortens(#[trigger] rule(s), s) by {
        assert(local(rule, s));
    }
}

/// String literals are local.
pub proof fn lemma_string_rule_local()
    ensures
        everywhere_local(string_rule()),
{
    assert forall|s: Seq<char>| #[trigger] local(string_rule(), s) by {
        if string(s) is Ok {
            lemma_string_local(s);
        }
    }
}

/// The tail of a list of local items ends at its `]`, and is read the same
/// whatever follows.
pub proof fn lemma_list_tail_local<T>(item: Rule<T>, s: Seq<char>, tail: Seq<char>)
    requires
        everywhere_local(item),
        list_tail(item, s) is Ok,
    ensures
        list_tail(item, s) matches Ok((values, rest)) && {
            let n = s.len() - rest.len();
            &&& 0 < n <= s.len()
            &&& rest == s.skip(n)
            &&& list_tail(item, s.take(n) + tail) == Ok::<(Seq<T>, Seq<char>), Failure>(
                (values, tail),
            )
        },
    decreases s.len(),
{
    let (values, rest) = list_tail(item, s)->Ok_0;
    let n = s.len() - rest.len();
    let u = s.take(n) + tail;
    match expect(s, Token::Comma) {
        Ok(after) => {
            let (value, r) = item(after)->Ok_0;
            assert(local(item, after));
            let k = after.len() - r.len();
            lemma_list_tail_local(item, r, tail);
            let n1 = r.len() - rest.len();
            let next = r.take(n1) + tail;
            assert(rest =~= s.skip(n));
            lemma_expect_at(Token::Comma, after.take(k) + next, u);
            lemma_reads_at(item, after.take(k), value, next, after.take(k) + next);
        },
        Err(_) => {
            assert(rest == s.skip(1));
            assert(s[0] == s.subrange(0, 1)[0]);
            lemma_expect_other(Token::Comma, u);
            lemma_expect_at(Token::ListClose, tail, u);
        },
    }
}

/// A list of local items ends at its `]`, and is read the same whatever
/// follows.
proof fn lemma_list_local_at<T>(item: Rule<T>, required: bool, s: Seq<char>, tail: Seq<char>)
    requires
        everywhere_local(item),
        list(item, required, s) is Ok,
    ensures
        list(item, required, s) matches Ok((values, rest)) && {
            let n = s.len() - rest.len();
            &&& 0 < n <= s.len()
            &&& rest == s.skip(n)
            &&& list(item, required, s.take(n) + tail) == Ok::<(Seq<T>, Seq<char>), Failure>(
                (values, tail),
            )
        },
{
    let (values, rest) = list(item, required, s)->Ok_0;
    lemma_expect_local(Token::ListOpen, s);
    let inside = s.skip(1);
    let open = seq!['['];
    let close = seq![']'];
    if expect(inside, Token::ListClose) is Ok {
        lemma_expect_local(Token::ListClose, inside);
        lemma_take_more(s, 1, 1);
        lemma_join(open, close, tail);
        lemma_expect_at(Token::ListOpen, close + tail, s.take(2) + tail);
        lemma_expect_at(Token::ListClose, tail, close + tail);
    } else {
        let (first, r) = item(inside)->Ok_0;
        assert(local(item, inside));
        let k = inside.len() - r.len();
        let piece = inside.take(k);
        lemma_list_tail_local(item, r, tail);
        let n1 = r.len() - rest.len();
        let next = r.take(n1) + tail;
        lemma_take_more(inside, k, n1);
        lemma_take_more(s, 1, k + n1);
        lemma_join(piece, r.take(n1), tail);
        lemma_join(open, piece + r.take(n1), tail);
        lemma_expect_at(Token::ListOpen, piece + next, s.take(1 + k + n1) + tail);
        lemma_expect_failed(Token::ListClose, inside);
        assert((piece + next)[0] == inside[0]);
        lemma_expect_other(Token::ListClose, piece + next);
        lemma_reads_at(item, piece, first, next, piece + next);
    }
}

/// Lists of local items are local.
pub proof fn lemma_list_local<T>(item: Rule<T>, required: bool, s: Seq<char>)
    requires
        everywhere_local(item),
    ensures
        local(list_rule(item, required), s),
{
    if let Ok((values, rest)) = list(item, required, s) {
        let n = s.len() - rest.len();
        lemma_list_local_at(item, required, s, Seq::empty());
        assert forall|tail: Seq<char>| #[trigger]
            list_rule(item, required)(s.take(n) + tail) == Ok::<(Seq<T>, Seq<char>), Failure>(
                (values, tail),
            ) by {
            lemma_list_local_at(item, required, s, tail);
        }
    }
}

/// A string literal behind a token is a piece at the front of the input:
/// the token and a text that is read as the literal's value whatever
/// follows.
proof fn lemma_string_after_local(token: Token, s: Seq<char>) -> (source: Seq<char>)
    requires
        string_after(token, s) is Ok,
    ensures
        string_after(token, s) matches Ok((text, rest)) && {
            let n = s.len() - rest.len();
            &&& 0 < n <= s.len()
            &&& rest == s.skip(n)
            &&& s.take(n) == token.text() + source
            &&& reads(string_rule(), source, text)
        },
{
    let (text, rest) = string_after(token, s)->Ok_0;
    let k = token.text().len() as int;
    lemma_expect_local(token, s);
    lemma_string_local(s.skip(k));
    let m = s.skip(k).len() - rest.len();
    lemma_take_more(s, k, m);
    s.skip(k).take(m)
}

/// A rule that is local on an input takes a piece from its front that it
/// reads as the same value whatever follows.
proof fn lemma_local_piece<T>(rule: Rule<T>, s: Seq<char>) -> (source: Seq<char>)
    requires
        local(rule, s),
        rule(s) is Ok,
    ensures
        rule(s) matches Ok((value, rest)) && {
            let n = s.len() - rest.len();
            &&& 0 < n <= s.len()
            &&& rest == s.skip(n)
            &&& s.take(n) == source
            &&& reads(rule, source, value)
        },
{
    let (_, rest) = rule(s)->Ok_0;
    s.take(s.len() - rest.len())
}

/// Environment variables are local.
pub proof fn lemma_variable_rule_local()
    ensures
        everywhere_local(variable_rule()),
{
    assert forall|s: Seq<char>| #[trigger] local(variable_rule(), s) by {
        if let Ok(((name, value), rest)) = variable(s) {
            let n = s.len() - rest.len();
            let a = lemma_string_after_local(Token::TupleOpen, s);
            let (_, s1) = string_after(Token::TupleOpen, s)->Ok_0;
            let b = lemma_string_after_local(Token::Comma, s1);
            let (_, s2) = string_after(Token::Comma, s1)->Ok_0;
            lemma_expect_local(Token::TupleClose, s2);
            let n1 = s.len() - s1.len();
            let n2 = s1.len() - s2.len();
            lemma_take_more(s, n1, n2);
            lemma_take_more(s, n1 + n2, 1);
            assert(s.take(n) =~= write_variable(a, b));
            lemma_variable_reads((a, name), (b, value));
        }
    }
}

/// An output is a piece at the front of the input that is written from
/// four pieces, each of which is read as one of its texts.
proof fn lemma_output_local(s: Seq<char>)
    requires
        output(s) is Ok,
    ensures
        local(output_rule(), s),
{
    let ((name, found), rest) = output(s)->Ok_0;
    let n = s.len() - rest.len();
    let a = lemma_string_after_local(Token::TupleOpen, s);
    let (_, s1) = string_after(Token::TupleOpen, s)->Ok_0;
    let b = lemma_string_after_local(Token::Comma, s1);
    let (_, s2) = string_after(Token::Comma, s1)->Ok_0;
    let c = lemma_string_after_local(Token::Comma, s2);
    let (_, s3) = string_after(Token::Comma, s2)->Ok_0;
    let d = lemma_string_after_local(Token::Comma, s3);
    let (_, s4) = string_after(Token::Comma, s3)->Ok_0;
    lemma_expect_local(Token::TupleClose, s4);
    let n1 = s.len() - s1.len();
    let n2 = s1.len() - s2.len();
    let n3 = s2.len() - s3.len();
    let n4 = s3.len() - s4.len();
    let comma = seq![','];
    let w1 = seq!['('] + a;
    lemma_take_more(s, n1, n2);
    lemma_join(w1, comma, b);
    let w2 = w1 + comma + b;
    assert(s.take(n1 + n2) == w2);
    lemma_take_more(s, n1 + n2, n3);
    lemma_join(w2, comma, c);
    let w3 = w2 + comma + c;
    assert(s.take(n1 + n2 + n3) == w3);
    lemma_take_more(s, n1 + n2 + n3, n4);
    lemma_join(w3, comma, d);
    let w4 = w3 + comma + d;
    assert(s.take(n1 + n2 + n3 + n4) == w4);
    lemma_take_more(s, n1 + n2 + n3 + n4, 1);
    assert(s.take(n) == write_output(a, b, c, d));
    lemma_output_reads((a, name), (b, found.path), (c, found.hash_algo), (d, found.hash));
}

/// Outputs are local.
pub proof fn lemma_output_rule_local()
    ensures
        everywhere_local(output_rule()),
{
    assert forall|s: Seq<char>| #[trigger] local(output_rule(), s) by {
        if output(s) is Ok {
            lemma_output_local(s);
        }
    }
}

/// References to other derivations are local.
pub proof fn lemma_input_rule_local()
    ensures
        everywhere_local(input_rule()),
{
    lemma_string_rule_local();
    assert forall|s: Seq<char>| #[trigger] local(input_rule(), s) by {
        if let Ok(((path, names), rest)) = input(s) {
            let n = s.len() - rest.len();
            let a = lemma_string_after_local(Token::TupleOpen, s);
            let (_, s1) = string_after(Token::TupleOpen, s)->Ok_0;
            lemma_expect_local(Token::Comma, s1);
            let s2 = s1.skip(1);
            lemma_list_local(string_rule(), true, s2);
            let b = lemma_local_piece(list_rule(string_rule(), true), s2);
            let (_, s3) = strings(true, s2)->Ok_0;
            lemma_expect_local(Token::TupleClose, s3);
            let n1 = s.len() - s1.len();
            let n2 = s2.len() - s3.len();
            lemma_take_more(s, n1, 1);
            lemma_take_more(s, n1 + 1, n2);
            lemma_take_more(s, n1 + 1 + n2, 1);
            assert(s.take(n) =~= write_input(a, b));
            lemma_input_reads((a, path), (b, names));
        }
    }
}

/// The list of outputs is local.
pub proof fn lemma_outputs_local(s: Seq<char>)
    ensures
        local(outputs_rule(), s),
{
    if let Ok((found, rest)) = outputs(s) {
        lemma_output_rule_local();
        lemma_list_local(output_rule(), true, s);
        let (entries, _) = list(output_rule(), true, s)->Ok_0;
        lemma_outputs_read(s.take(s.len() - rest.len()), entries);
    }
}

/// The list of references to other derivations is local.
pub proof fn lemma_inputs_local(s: Seq<char>)
    ensures
        local(inputs_rule(), s),
{
    if let Ok((found, rest)) = inputs(s) {
        lemma_input_rule_local();
        lemma_list_local(input_rule(), false, s);
        let (entries, _) = list(input_rule(), false, s)->Ok_0;
        lemma_inputs_read(s.take(s.len() - rest.len()), entries);
    }
}

/// What a derivation produces and is made from is a piece at the front of
/// the input that is written from three parts, each of which is read as
/// one of the values.
#[verifier::rlimit(30)]
proof fn lemma_graph_local(s: Seq<char>) -> (parts: Parts)
    requires
        graph(s) is Ok,
    ensures
        graph(s) matches Ok(((outputs, input_drvs, input_srcs), rest)) && {
            let n = s.len() - rest.len();
            &&& 0 < n <= s.len()
            &&& rest == s.skip(n)
            &&& s.take(n) == write_graph(parts)
            &&& reads(outputs_rule(), parts.outputs, outputs)
            &&& reads(inputs_rule(), parts.input_drvs, input_drvs)
            &&& reads(list_rule(string_rule(), false), parts.input_srcs, input_srcs)
        },
{
    reveal(graph);
    let (_, rest) = graph(s)->Ok_0;
    lemma_outputs_local(s);
    let a = lemma_local_piece(outputs_rule(), s);
    let (_, s1) = outputs(s)->Ok_0;
    lemma_expect_local(Token::Comma, s1);
    let s2 = s1.skip(1);
    lemma_inputs_local(s2);
    let b = lemma_local_piece(inputs_rule(), s2);
    let (_, s3) = inputs(s2)->Ok_0;
    lemma_expect_local(Token::Comma, s3);
    let s4 = s3.skip(1);
    lemma_string_rule_local();
    lemma_list_local(string_rule(), false, s4);
    let c = lemma_local_piece(list_rule(string_rule(), false), s4);
    let n1 = s.len() - s1.len();
    let n2 = s2.len() - s3.len();
    let n3 = s4.len() - rest.len();
    lemma_take_more(s3, 1, n3);
    lemma_take_more(s2, n2, 1 + n3);
    lemma_take_more(s1, 1, n2 + 1 + n3);
    lemma_take_more(s, n1, 1 + n2 + 1 + n3);
    Parts {
        outputs: a,
        input_drvs: b,
        input_srcs: c,
        system: Seq::empty(),
        builder: Seq::empty(),
        args: Seq::empty(),
        env: Seq::empty(),
    }
}

/// How a derivation is built is a piece at the front of the input that is
/// written from four parts, each of which is read as one of the values.
#[verifier::rlimit(30)]
proof fn lemma_build_local(s: Seq<char>) -> (parts: Parts)
    requires
        build(s) is Ok,
    ensures
        build(s) matches Ok(((system, builder, args, env), rest)) && {
            let n = s.len() - rest.len();
            &&& 0 < n <= s.len()
            &&& rest == s.skip(n)
            &&& s.take(n) == write_build(parts)
            &&& reads(string_rule(), parts.system, system)
            &&& reads(string_rule(), parts.builder, builder)
            &&& reads(list_rule(string_rule(), false), parts.args, args)
            &&& reads(list_rule(variable_rule(), false), parts.env, env)
        },
{
    reveal(build);
    let (_, rest) = build(s)->Ok_0;
    lemma_string_rule_local();
    lemma_variable_rule_local();
    assert(local(string_rule(), s));
    let a = lemma_local_piece(string_rule(), s);
    let (_, s1) = string(s)->Ok_0;
    let b = lemma_string_after_local(Token::Comma, s1);
    let (_, s2) = string_after(Token::Comma, s1)->Ok_0;
    lemma_expect_local(Token::Comma, s2);
    let s3 = s2.skip(1);
    lemma_list_local(string_rule(), false, s3);
    let c = lemma_local_piece(list_rule(string_rule(), false), s3);
    let (_, s4) = strings(false, s3)->Ok_0;
    lemma_expect_local(Token::Comma, s4);
    let s5 = s4.skip(1);
    lemma_list_local(variable_rule(), false, s5);
    let d = lemma_local_piece(list_rule(variable_rule(), false), s5);
    let n1 = s.len() - s1.len();
    let n2 = s1.len() - s2.len();
    let n3 = s3.len() - s4.len();
    let n4 = s5.len() - rest.len();
    lemma_take_more(s4, 1, n4);
    lemma_take_more(s3, n3, 1 + n4);
    lemma_take_more(s2, 1, n3 + 1 + n4);
    lemma_take_more(s1, n2, 1 + n3 + 1 + n4);
    lemma_join(seq![','], b, seq![','] + (c + (seq![','] + d)));
    lemma_take_more(s, n1, n2 + 1 + n3 + 1 + n4);
    Parts {
        outputs: Seq::empty(),
        input_drvs: Seq::empty(),
        input_srcs: Seq::empty(),
        system: a,
        builder: b,
        args: c,
        env: d,
    }
}

/// The fields of a `Derive(...)` expression are a piece at the front of the
/// input that is written from seven parts, each of which is read as one of
/// the fields.
pub proof fn lemma_fields_local(s: Seq<char>) -> (parts: Parts)
    requires
        derive_fields(s) is Ok,
    ensures
        derive_fields(s) matches Ok((value, rest)) && {
            let n = s.len() - rest.len();
            &&& 0 < n <= s.len()
            &&& rest == s.skip(n)
            &&& s.take(n) == write_fields(parts)
            &&& reads_parts(parts, value)
        },
{
    let (_, rest) = derive_fields(s)->Ok_0;
    lemma_expect_local(Token::Derive, s);
    let s0 = s.skip(7);
    let g = lemma_graph_local(s0);
    let (_, s1) = graph(s0)->Ok_0;
    lemma_expect_local(Token::Comma, s1);
    let s2 = s1.skip(1);
    let b = lemma_build_local(s2);
    let n1 = s0.len() - s1.len();
    let n2 = s2.len() - rest.len();
    let parts = Parts {
        outputs: g.outputs,
        input_drvs: g.input_drvs,
        input_srcs: g.input_srcs,
        system: b.system,
        builder: b.builder,
        args: b.args,
        env: b.env,
    };
    assert(write_graph(parts) == write_graph(g));
    assert(write_build(parts) == write_build(b));
    lemma_take_more(s1, 1, n2);
    lemma_take_more(s0, n1, 1 + n2);
    lemma_take_more(s, 7, n1 + 1 + n2);
    parts
}

/// Every `Derive(...)` expression is a written descriptor: the text that
/// is read is `Derive(`, seven parts with `,` between them and `)`, and
/// each part is read as its field of the value whatever follows it.
pub proof fn lemma_derive_local(s: Seq<char>) -> (parts: Parts)
    requires
        derive_expression(s) is Ok,
    ensures
        derive_expression(s) matches Ok((value, rest)) && {
            let n = s.len() - rest.len();
            &&& 0 < n <= s.len()
            &&& rest == s.skip(n)
            &&& s.take(n) == write_derive(parts)
            &&& reads_parts(parts, value)
        },
{
    let (_, rest) = derive_expression(s)->Ok_0;
    let parts = lemma_fields_local(s);
    let (_, at_close) = derive_fields(s)->Ok_0;
    lemma_expect_local(Token::TupleClose, at_close);
    lemma_take_more(s, s.len() - at_close.len(), 1);
    parts
}

} // verus!
