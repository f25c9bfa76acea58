//! What is written is read back: the text that is put together from parts
//! is read as the values that the parts stand for.

use vstd::prelude::*;
use crate::collections::collect;
use crate::derivations::syntax::{
    build, derive_expression, derive_fields, descriptor, graph, input_rule, inputs_rule,
    list_rule, list_tail, output_rule, outputs_rule, string_after, variable_rule,
};
use crate::derivations::types::{DerivationView, OutputView};
use crate::derivations::writing::{
    and_then, continued, reads_each, reads_parts, starts_otherwise, write_build, write_derive,
    write_fields, write_graph, write_input, write_list, write_output, write_variable,
    written_input, written_output, written_strings, written_variable, Parts, Recipe,
};
use crate::error::{lemma_reads_at, reads, Failure, Rule};
use crate::strings::laws::lemma_quote_reads;
use crate::strings::syntax::{quote, string_rule};
use crate::text::lemma_join;
use crate::tokens::{lemma_expect_at, lemma_expect_other, Token};

verus! {

/// What stands behind the first item of a written list is read as the other
/// items.
pub proof fn lemma_continued_reads<T>(
    item: Rule<T>,
    sources: Seq<Seq<char>>,
    values: Seq<T>,
    tail: Seq<char>,
)
    requires
        reads_each(item, sources, values),
    ensures
        list_tail(item, continued(sources) + seq![']'] + tail) == Ok::<
            (Seq<T>, Seq<char>),
            Failure,
        >((values, tail)),
    decreases sources.len(),
{
    let s = continued(sources) + seq![']'] + tail;
    if sources.len() == 0 {
        assert(s =~= seq![']'] + tail);
        lemma_expect_other(Token::Comma, s);
        lemma_expect_at(Token::ListClose, tail, s);
        assert(values =~= Seq::<T>::empty());
    } else {
        let after = continued(sources.skip(1)) + seq![']'] + tail;
        lemma_expect_at(Token::Comma, sources[0] + after, s);
        lemma_reads_at(item, sources[0], values[0], after, sources[0] + after);
        assert(reads_each(item, sources.skip(1), values.skip(1))) by {
            assert forall|i: int| 0 <= i < sources.skip(1).len() implies reads(
                item,
                #[trigger] sources.skip(1)[i],
                values.skip(1)[i],
            ) by {
                assert(reads(item, sources[i + 1], values[i + 1]));
            }
        }
        lemma_continued_reads(item, sources.skip(1), values.skip(1), tail);
        assert(seq![values[0]] + values.skip(1) =~= values);
    }
}

/// A written list is read as the values of its items.
pub proof fn lemma_list_reads<T>(
    item: Rule<T>,
    required: bool,
    sources: Seq<Seq<char>>,
    values: Seq<T>,
)
    requires
        reads_each(item, sources, values),
        sources.len() > 0 ==> starts_otherwise(sources[0], ']'),
        required ==> sources.len() > 0,
    ensures
        reads(list_rule(item, required), write_list(sources), values),
{
    assert forall|tail: Seq<char>| #[trigger]
        list_rule(item, required)(write_list(sources) + tail) == Ok::<
            (Seq<T>, Seq<char>),
            Failure,
        >((values, tail)) by {
        let s = write_list(sources) + tail;
        if sources.len() == 0 {
            lemma_expect_at(Token::ListOpen, seq![']'] + tail, s);
            lemma_expect_at(Token::ListClose, tail, seq![']'] + tail);
            assert(values =~= Seq::<T>::empty());
        } else {
            let after = continued(sources.skip(1)) + seq![']'] + tail;
            let inside = sources[0] + after;
            lemma_expect_at(Token::ListOpen, inside, s);
            assert(inside[0] == sources[0][0]);
            lemma_expect_other(Token::ListClose, inside);
            lemma_reads_at(item, sources[0], values[0], after, inside);
            assert(reads_each(item, sources.skip(1), values.skip(1))) by {
                assert forall|i: int| 0 <= i < sources.skip(1).len() implies reads(
                    item,
                    #[trigger] sources.skip(1)[i],
                    values.skip(1)[i],
                ) by {
                    assert(reads(item, sources[i + 1], values[i + 1]));
                }
            }
            lemma_continued_reads(item, sources.skip(1), values.skip(1), tail);
            assert(seq![values[0]] + values.skip(1) =~= values);
        }
    }
}

/// A string literal behind a token is read as its text.
pub proof fn lemma_string_after_at(
    token: Token,
    source: Seq<char>,
    text: Seq<char>,
    tail: Seq<char>,
    s: Seq<char>,
)
    requires
        reads(string_rule(), source, text),
        s =~= token.text() + source + tail,
    ensures
        string_after(token, s) == Ok::<(Seq<char>, Seq<char>), Failure>((text, tail)),
{
    lemma_expect_at(token, source + tail, s);
    lemma_reads_at(string_rule(), source, text, tail, source + tail);
}

/// A written output is read as the texts of its parts.
pub proof fn lemma_output_reads(
    name: (Seq<char>, Seq<char>),
    path: (Seq<char>, Seq<char>),
    hash_algo: (Seq<char>, Seq<char>),
    hash: (Seq<char>, Seq<char>),
)
    requires
        reads(string_rule(), name.0, name.1),
        reads(string_rule(), path.0, path.1),
        reads(string_rule(), hash_algo.0, hash_algo.1),
        reads(string_rule(), hash.0, hash.1),
    ensures
        reads(
            output_rule(),
            write_output(name.0, path.0, hash_algo.0, hash.0),
            (name.1, OutputView { path: path.1, hash_algo: hash_algo.1, hash: hash.1 }),
        ),
{
    assert forall|tail: Seq<char>| #[trigger]
        output_rule()(write_output(name.0, path.0, hash_algo.0, hash.0) + tail) == Ok::<
            ((Seq<char>, OutputView), Seq<char>),
            Failure,
        >(
            ((name.1, OutputView { path: path.1, hash_algo: hash_algo.1, hash: hash.1 }), tail),
        ) by {
        let s = write_output(name.0, path.0, hash_algo.0, hash.0) + tail;
        let s4 = seq![')'] + tail;
        let s3 = seq![','] + hash.0 + s4;
        let s2 = seq![','] + hash_algo.0 + s3;
        let s1 = seq![','] + path.0 + s2;
        lemma_string_after_at(Token::TupleOpen, name.0, name.1, s1, s);
        lemma_string_after_at(Token::Comma, path.0, path.1, s2, s1);
        lemma_string_after_at(Token::Comma, hash_algo.0, hash_algo.1, s3, s2);
        lemma_string_after_at(Token::Comma, hash.0, hash.1, s4, s3);
        lemma_expect_at(Token::TupleClose, tail, s4);
    }
}

/// A written reference to another derivation is read as the text of its
/// path and the names of its list.
pub proof fn lemma_input_reads(
    path: (Seq<char>, Seq<char>),
    names: (Seq<char>, Seq<Seq<char>>),
)
    requires
        reads(string_rule(), path.0, path.1),
        reads(list_rule(string_rule(), true), names.0, names.1),
    ensures
        reads(input_rule(), write_input(path.0, names.0), (path.1, names.1)),
{
    assert forall|tail: Seq<char>| #[trigger]
        input_rule()(write_input(path.0, names.0) + tail) == Ok::<
            ((Seq<char>, Seq<Seq<char>>), Seq<char>),
            Failure,
        >(((path.1, names.1), tail)) by {
        let s = write_input(path.0, names.0) + tail;
        let s3 = seq![')'] + tail;
        let s2 = names.0 + s3;
        let s1 = seq![','] + s2;
        lemma_string_after_at(Token::TupleOpen, path.0, path.1, s1, s);
        lemma_expect_at(Token::Comma, s2, s1);
        lemma_reads_at(list_rule(string_rule(), true), names.0, names.1, s3, s2);
        lemma_expect_at(Token::TupleClose, tail, s3);
    }
}

/// A written environment variable is read as the texts of its parts.
pub proof fn lemma_variable_reads(name: (Seq<char>, Seq<char>), value: (Seq<char>, Seq<char>))
    requires
        reads(string_rule(), name.0, name.1),
        reads(string_rule(), value.0, value.1),
    ensures
        reads(variable_rule(), write_variable(name.0, value.0), (name.1, value.1)),
{
    assert forall|tail: Seq<char>| #[trigger]
        variable_rule()(write_variable(name.0, value.0) + tail) == Ok::<
            ((Seq<char>, Seq<char>), Seq<char>),
            Failure,
        >(((name.1, value.1), tail)) by {
        let s = write_variable(name.0, value.0) + tail;
        let s2 = seq![')'] + tail;
        let s1 = seq![','] + value.0 + s2;
        lemma_string_after_at(Token::TupleOpen, name.0, name.1, s1, s);
        lemma_string_after_at(Token::Comma, value.0, value.1, s2, s1);
        lemma_expect_at(Token::TupleClose, tail, s2);
    }
}

/// A written list of outputs is read as the map that its entries collect
/// to.
pub proof fn lemma_outputs_read(source: Seq<char>, entries: Seq<(Seq<char>, OutputView)>)
    requires
        reads(list_rule(output_rule(), true), source, entries),
    ensures
        reads(outputs_rule(), source, collect(entries)),
{
    assert forall|tail: Seq<char>| #[trigger]
        outputs_rule()(source + tail) == Ok::<(Map<Seq<char>, OutputView>, Seq<char>), Failure>(
            (collect(entries), tail),
        ) by {
        lemma_reads_at(list_rule(output_rule(), true), source, entries, tail, source + tail);
    }
}

/// A written list of references to other derivations is read as the map
/// that its entries collect to.
pub proof fn lemma_inputs_read(source: Seq<char>, entries: Seq<(Seq<char>, Seq<Seq<char>>)>)
    requires
        reads(list_rule(input_rule(), false), source, entries),
    ensures
        reads(inputs_rule(), source, collect(entries)),
{
    assert forall|tail: Seq<char>| #[trigger]
        inputs_rule()(source + tail) == Ok::<
            (Map<Seq<char>, Seq<Seq<char>>>, Seq<char>),
            Failure,
        >((collect(entries), tail)) by {
        lemma_reads_at(list_rule(input_rule(), false), source, entries, tail, source + tail);
    }
}

/// Text behind parts with `,` between them is text behind the last part.
proof fn lemma_and_then_tail(first: Seq<char>, others: Seq<char>, tail: Seq<char>)
    ensures
        and_then(first, others) + tail == first + (seq![','] + (others + tail)),
{
    assert(and_then(first, others) + tail =~= first + (seq![','] + (others + tail)));
}

/// The first three parts of a written descriptor are read as what they
/// stand for.
pub proof fn lemma_graph_reads(parts: Parts, value: DerivationView, tail: Seq<char>)
    requires
        reads(outputs_rule(), parts.outputs, value.outputs),
        reads(inputs_rule(), parts.input_drvs, value.input_drvs),
        reads(list_rule(string_rule(), false), parts.input_srcs, value.input_srcs),
    ensures
        graph(write_graph(parts) + tail) == Ok::<
            (
                (Map<Seq<char>, OutputView>, Map<Seq<char>, Seq<Seq<char>>>, Seq<Seq<char>>),
                Seq<char>,
            ),
            Failure,
        >(((value.outputs, value.input_drvs, value.input_srcs), tail)),
{
    reveal(graph);
    let w2 = and_then(parts.input_drvs, parts.input_srcs);
    let s4 = parts.input_srcs + tail;
    let s2 = w2 + tail;
    let s0 = write_graph(parts) + tail;
    lemma_and_then_tail(parts.input_drvs, parts.input_srcs, tail);
    lemma_and_then_tail(parts.outputs, w2, tail);
    lemma_reads_at(outputs_rule(), parts.outputs, value.outputs, seq![','] + s2, s0);
    lemma_expect_at(Token::Comma, s2, seq![','] + s2);
    lemma_reads_at(inputs_rule(), parts.input_drvs, value.input_drvs, seq![','] + s4, s2);
    lemma_expect_at(Token::Comma, s4, seq![','] + s4);
    lemma_reads_at(
        list_rule(string_rule(), false),
        parts.input_srcs,
        value.input_srcs,
        tail,
        s4,
    );
}

/// The last four parts of a written descriptor are read as what they stand
/// for.
pub proof fn lemma_build_reads(parts: Parts, value: DerivationView, tail: Seq<char>)
    requires
        reads(string_rule(), parts.system, value.system),
        reads(string_rule(), parts.builder, value.builder),
        reads(list_rule(string_rule(), false), parts.args, value.args),
        reads(list_rule(variable_rule(), false), parts.env, value.env),
    ensures
        build(write_build(parts) + tail) == Ok::<
            (
                (Seq<char>, Seq<char>, Seq<Seq<char>>, Seq<(Seq<char>, Seq<char>)>),
                Seq<char>,
            ),
            Failure,
        >(((value.system, value.builder, value.args, value.env), tail)),
{
    reveal(build);
    let w4 = and_then(parts.args, parts.env);
    let w2 = and_then(parts.builder, w4);
    let s6 = parts.env + tail;
    let s4 = w4 + tail;
    let s2 = w2 + tail;
    let s0 = write_build(parts) + tail;
    lemma_and_then_tail(parts.args, parts.env, tail);
    lemma_and_then_tail(parts.builder, w4, tail);
    lemma_and_then_tail(parts.system, w2, tail);
    lemma_reads_at(string_rule(), parts.system, value.system, seq![','] + s2, s0);
    assert(seq![','] + s2 =~= Token::Comma.text() + parts.builder + (seq![','] + s4));
    lemma_string_after_at(
        Token::Comma,
        parts.builder,
        value.builder,
        seq![','] + s4,
        seq![','] + s2,
    );
    lemma_expect_at(Token::Comma, s4, seq![','] + s4);
    lemma_reads_at(list_rule(string_rule(), false), parts.args, value.args, seq![','] + s6, s4);
    lemma_expect_at(Token::Comma, s6, seq![','] + s6);
    lemma_reads_at(list_rule(variable_rule(), false), parts.env, value.env, tail, s6);
}

/// The fields of a written descriptor are read as what the parts stand
/// for.
pub proof fn lemma_fields_read(parts: Parts, value: DerivationView, tail: Seq<char>)
    requires
        reads_parts(parts, value),
    ensures
        derive_fields(write_fields(parts) + tail) == Ok::<(DerivationView, Seq<char>), Failure>(
            (value, tail),
        ),
{
    let s = write_fields(parts) + tail;
    let s2 = write_build(parts) + tail;
    let s0 = write_graph(parts) + (seq![','] + s2);
    lemma_and_then_tail(write_graph(parts), write_build(parts), tail);
    lemma_join(Token::Derive.text(), and_then(write_graph(parts), write_build(parts)), tail);
    lemma_expect_at(Token::Derive, s0, s);
    lemma_graph_reads(parts, value, seq![','] + s2);
    lemma_expect_at(Token::Comma, s2, seq![','] + s2);
    lemma_build_reads(parts, value, tail);
}

/// A written descriptor is read as what its parts stand for, whatever
/// follows it.
pub proof fn lemma_derive_reads(parts: Parts, value: DerivationView, tail: Seq<char>)
    requires
        reads_parts(parts, value),
    ensures
        derive_expression(write_derive(parts) + tail) == Ok::<
            (DerivationView, Seq<char>),
            Failure,
        >((value, tail)),
{
    lemma_fields_read(parts, value, seq![')'] + tail);
    lemma_join(write_fields(parts), seq![')'], tail);
    lemma_expect_at(Token::TupleClose, tail, seq![')'] + tail);
}

/// A written descriptor is a whole descriptor: it is read as what its
/// parts stand for, and nothing is left.
pub proof fn lemma_descriptor_reads(parts: Parts, value: DerivationView)
    requires
        reads_parts(parts, value),
    ensures
        descriptor(write_derive(parts)) == Ok::<DerivationView, Failure>(value),
{
    lemma_derive_reads(parts, value, Seq::empty());
    assert(write_derive(parts) + Seq::<char>::empty() =~= write_derive(parts));
}

/// A written list of string literals is read as the texts, in their order.
pub proof fn lemma_written_strings_read(required: bool, texts: Seq<Seq<char>>)
    requires
        required ==> texts.len() > 0,
    ensures
        reads(list_rule(string_rule(), required), written_strings(texts), texts),
{
    let sources = texts.map_values(|text: Seq<char>| quote(text));
    assert forall|i: int| 0 <= i < sources.len() implies reads(
        string_rule(),
        #[trigger] sources[i],
        texts[i],
    ) by {
        lemma_quote_reads(texts[i]);
    }
    if texts.len() > 0 {
        assert(sources[0] == quote(texts[0]));
        assert(quote(texts[0])[0] == '"');
    }
    lemma_list_reads(string_rule(), required, sources, texts);
}

/// The parts of a written recipe are read as the fields of its value.
pub proof fn lemma_recipe_parts_read(recipe: Recipe)
    requires
        recipe.well_formed(),
    ensures
        reads_parts(recipe.parts(), recipe.value()),
{
    let parts = recipe.parts();
    let outputs = recipe.outputs.map_values(
        |entry: (Seq<char>, OutputView)| written_output(entry),
    );
    assert forall|i: int| 0 <= i < outputs.len() implies reads(
        output_rule(),
        #[trigger] outputs[i],
        recipe.outputs[i],
    ) by {
        let entry = recipe.outputs[i];
        lemma_quote_reads(entry.0);
        lemma_quote_reads(entry.1.path);
        lemma_quote_reads(entry.1.hash_algo);
        lemma_quote_reads(entry.1.hash);
        lemma_output_reads(
            (quote(entry.0), entry.0),
            (quote(entry.1.path), entry.1.path),
            (quote(entry.1.hash_algo), entry.1.hash_algo),
            (quote(entry.1.hash), entry.1.hash),
        );
    }
    assert(outputs[0] == written_output(recipe.outputs[0]));
    assert(written_output(recipe.outputs[0])[0] == '(');
    lemma_list_reads(output_rule(), true, outputs, recipe.outputs);
    lemma_outputs_read(parts.outputs, recipe.outputs);

    let inputs = recipe.input_drvs.map_values(
        |entry: (Seq<char>, Seq<Seq<char>>)| written_input(entry),
    );
    assert forall|i: int| 0 <= i < inputs.len() implies reads(
        input_rule(),
        #[trigger] inputs[i],
        recipe.input_drvs[i],
    ) by {
        let entry = recipe.input_drvs[i];
        lemma_quote_reads(entry.0);
        lemma_written_strings_read(true, entry.1);
        lemma_input_reads((quote(entry.0), entry.0), (written_strings(entry.1), entry.1));
    }
    if inputs.len() > 0 {
        assert(inputs[0] == written_input(recipe.input_drvs[0]));
        assert(written_input(recipe.input_drvs[0])[0] == '(');
    }
    lemma_list_reads(input_rule(), false, inputs, recipe.input_drvs);
    lemma_inputs_read(parts.input_drvs, recipe.input_drvs);

    lemma_written_strings_read(false, recipe.input_srcs);
    lemma_quote_reads(recipe.system);
    lemma_quote_reads(recipe.builder);
    lemma_written_strings_read(false, recipe.args);

    let env = recipe.env.map_values(|entry: (Seq<char>, Seq<char>)| written_variable(entry));
    assert forall|i: int| 0 <= i < env.len() implies reads(
        variable_rule(),
        #[trigger] env[i],
        recipe.env[i],
    ) by {
        let entry = recipe.env[i];
        lemma_quote_reads(entry.0);
        lemma_quote_reads(entry.1);
        lemma_variable_reads((quote(entry.0), entry.0), (quote(entry.1), entry.1));
    }
    if env.len() > 0 {
        assert(env[0] == written_variable(recipe.env[0]));
        assert(written_variable(recipe.env[0])[0] == '(');
    }
    lemma_list_reads(variable_rule(), false, env, recipe.env);
}

} // verus!
