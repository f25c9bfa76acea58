//! The executable structural parser.
//!
//! Each routine takes the remaining input and returns the input that is left
//! together with what it read, or the failure that the grammar in
//! [`crate::derivations::syntax`] prescribes. A failure is handed up
//! unchanged by every routine above the one that found it.

use vstd::prelude::*;
use crate::collections::{kept, StringMap};
use crate::derivations::failures::lemma_derive_within;
use crate::derivations::laws::lemma_parsed_is_well_formed;
use crate::derivations::locality::{
    consuming, lemma_input_rule_local, lemma_local_is_consuming, lemma_output_rule_local,
    lemma_string_rule_local, lemma_variable_rule_local, shortens,
};
use crate::derivations::syntax::{
    build, derive_expression, descriptor, graph, input_rule, inputs, list, list_tail, output,
    output_rule, outputs, string_after, strings, variable, variable_rule, variables, with_items,
    written_inputs, written_outputs,
};
use crate::derivations::types::{Derivation, DerivationInput, DerivationOutput};
use crate::error::{agrees, is_suffix, points_into, ErrorKind, ParseError, Rule};
use crate::strings::parsers::parse_string;
use crate::strings::syntax::{string, string_rule};
use crate::tokens::{expect_token, Token};

verus! {

/// `token`, then a string literal.
fn parse_string_after<'a>(token: Token, input: &'a str) -> (r: Result<
    (&'a str, String),
    ParseError<'a>,
>)
    ensures
        agrees(r, string_after(token, input@)),
{
    match expect_token(input, token) {
        Ok(rest) => parse_string(rest),
        Err(e) => Err(e),
    }
}

/// A list whose items `item` reads: `[`, items with `,` between them, `]`.
fn parse_list<'a, T: DeepView, F>(
    input: &'a str,
    required: bool,
    item: F,
    Ghost(rule): Ghost<Rule<T::V>>,
) -> (r: Result<(&'a str, Vec<T>), ParseError<'a>>) where
    F: Fn(&'a str) -> Result<(&'a str, T), ParseError<'a>>,

    requires
        consuming(rule),
        forall|s: &'a str| call_requires(item, (s,)),
        forall|s: &'a str, out: Result<(&'a str, T), ParseError<'a>>|
            call_ensures(item, (s,), out) ==> agrees(out, rule(s@)),
    ensures
        agrees(r, list(rule, required, input@)),
{
    let inside = match expect_token(input, Token::ListOpen) {
        Ok(rest) => rest,
        Err(e) => {
            return Err(e);
        },
    };
    match expect_token(inside, Token::ListClose) {
        Ok(rest) => {
            if required {
                return Err(ParseError { kind: ErrorKind::EmptyRequiredList, rest: inside });
            }
            let empty: Vec<T> = Vec::new();
            assert(empty.deep_view() =~= Seq::empty());
            return Ok((rest, empty));
        },
        Err(_) => {},
    }
    let mut items: Vec<T> = Vec::new();
    let mut cur = match item(inside) {
        Ok((rest, first)) => {
            items.push(first);
            rest
        },
        Err(e) => {
            return Err(e);
        },
    };
    assert(items.deep_view() =~= seq![items[0].deep_view()]);
    loop
        invariant
            consuming(rule),
            forall|s: &'a str| call_requires(item, (s,)),
            forall|s: &'a str, out: Result<(&'a str, T), ParseError<'a>>|
                call_ensures(item, (s,), out) ==> agrees(out, rule(s@)),
            items.len() > 0,
            list(rule, required, input@) == with_items(
                items.deep_view(),
                list_tail(rule, cur@),
            ),
        decreases cur@.len(),
    {
        let ghost before = items.deep_view();
        match expect_token(cur, Token::Comma) {
            Ok(after_comma) => match item(after_comma) {
                Ok((rest, next)) => {
                    assert(shortens(rule(after_comma@), after_comma@));
                    items.push(next);
                    assert(items.deep_view() =~= before.push(next.deep_view()));
                    assert(forall|tail: Seq<T::V>|
                        #![auto]
                        before + (seq![next.deep_view()] + tail) =~= before.push(
                            next.deep_view(),
                        ) + tail);
                    cur = rest;
                },
                Err(e) => {
                    return Err(e);
                },
            },
            Err(_) => match expect_token(cur, Token::ListClose) {
                Ok(rest) => {
                    assert(before + Seq::<T::V>::empty() =~= before);
                    return Ok((rest, items));
                },
                Err(e) => {
                    return Err(e);
                },
            },
        }
    }
}

/// Parses a list of string literals, which has to have an item where
/// `required` is set.
pub fn parse_strings<'a>(required: bool, input: &'a str) -> (r: Result<
    (&'a str, Vec<String>),
    ParseError<'a>,
>)
    ensures
        agrees(r, strings(required, input@)),
{
    proof {
        lemma_string_rule_local();
        lemma_local_is_consuming(string_rule());
    }
    parse_list(input, required, parse_string, Ghost(string_rule()))
}

/// Parses a single `DerivationOutput`.
pub fn parse_derivation_output<'a>(input: &'a str) -> (r: Result<
    (&'a str, (String, DerivationOutput)),
    ParseError<'a>,
>)
    ensures
        agrees(r, output(input@)),
{
    let (rest, name) = match parse_string_after(Token::TupleOpen, input) {
        Ok(found) => found,
        Err(e) => {
            return Err(e);
        },
    };
    let (rest, path) = match parse_string_after(Token::Comma, rest) {
        Ok(found) => found,
        Err(e) => {
            return Err(e);
        },
    };
    let (rest, hash_algo) = match parse_string_after(Token::Comma, rest) {
        Ok(found) => found,
        Err(e) => {
            return Err(e);
        },
    };
    let (rest, hash) = match parse_string_after(Token::Comma, rest) {
        Ok(found) => found,
        Err(e) => {
            return Err(e);
        },
    };
    match expect_token(rest, Token::TupleClose) {
        Ok(rest) => Ok((rest, (name, DerivationOutput { path, hash_algo, hash }))),
        Err(e) => Err(e),
    }
}

/// Parses a list of `DerivationOutput`s.
///
/// There must be at least one derivation output. Of outputs with the same
/// name the last one is kept, at the place of the first one.
pub fn parse_derivation_outputs<'a>(input: &'a str) -> (r: Result<
    (&'a str, StringMap<DerivationOutput>),
    ParseError<'a>,
>)
    ensures
        agrees(r, outputs(input@)),
        r matches Ok((_, found)) ==> list(output_rule(), true, input@) matches Ok((entries, _))
            && found.pairs() == kept(entries),
{
    proof {
        lemma_output_rule_local();
        lemma_local_is_consuming(output_rule());
    }
    match parse_list(input, true, parse_derivation_output, Ghost(output_rule())) {
        Ok((rest, entries)) => Ok((rest, StringMap::from_entries(entries))),
        Err(e) => Err(e),
    }
}

/// Parses a single `DerivationInput`.
pub fn parse_derivation_input<'a>(input: &'a str) -> (r: Result<
    (&'a str, (String, DerivationInput)),
    ParseError<'a>,
>)
    ensures
        agrees(r, crate::derivations::syntax::input(input@)),
{
    let (rest, path) = match parse_string_after(Token::TupleOpen, input) {
        Ok(found) => found,
        Err(e) => {
            return Err(e);
        },
    };
    let rest = match expect_token(rest, Token::Comma) {
        Ok(rest) => rest,
        Err(e) => {
            return Err(e);
        },
    };
    let (rest, value) = match parse_strings(true, rest) {
        Ok(found) => found,
        Err(e) => {
            return Err(e);
        },
    };
    match expect_token(rest, Token::TupleClose) {
        Ok(rest) => Ok((rest, (path, DerivationInput { value }))),
        Err(e) => Err(e),
    }
}

/// Parses a list of `DerivationInput`s. The list can be empty. Of
/// references with the same path the last one is kept, at the place of the
/// first one.
pub fn parse_derivation_inputs<'a>(input: &'a str) -> (r: Result<
    (&'a str, StringMap<DerivationInput>),
    ParseError<'a>,
>)
    ensures
        agrees(r, inputs(input@)),
        r matches Ok((_, found)) ==> list(input_rule(), false, input@) matches Ok((entries, _))
            && found.pairs() == kept(entries),
{
    proof {
        lemma_input_rule_local();
        lemma_local_is_consuming(input_rule());
    }
    match parse_list(input, false, parse_derivation_input, Ghost(input_rule())) {
        Ok((rest, entries)) => Ok((rest, StringMap::from_entries(entries))),
        Err(e) => Err(e),
    }
}

/// Parses a list of source inputs. The list can be empty.
pub fn parse_source_inputs<'a>(input: &'a str) -> (r: Result<
    (&'a str, Vec<String>),
    ParseError<'a>,
>)
    ensures
        agrees(r, strings(false, input@)),
{
    parse_strings(false, input)
}

/// Parses a system.
pub fn parse_system<'a>(input: &'a str) -> (r: Result<(&'a str, String), ParseError<'a>>)
    ensures
        agrees(r, string(input@)),
{
    parse_string(input)
}

/// Parses a builder.
pub fn parse_builder<'a>(input: &'a str) -> (r: Result<(&'a str, String), ParseError<'a>>)
    ensures
        agrees(r, string(input@)),
{
    parse_string(input)
}

/// Parses a list of builder arguments.
///
/// This list can be empty.
pub fn parse_builder_args<'a>(input: &'a str) -> (r: Result<
    (&'a str, Vec<String>),
    ParseError<'a>,
>)
    ensures
        agrees(r, strings(false, input@)),
{
    parse_strings(false, input)
}

/// Parses a single environment variable.
pub fn parse_environment_variable<'a>(input: &'a str) -> (r: Result<
    (&'a str, (String, String)),
    ParseError<'a>,
>)
    ensures
        agrees(r, variable(input@)),
{
    let (rest, name) = match parse_string_after(Token::TupleOpen, input) {
        Ok(found) => found,
        Err(e) => {
            return Err(e);
        },
    };
    let (rest, value) = match parse_string_after(Token::Comma, rest) {
        Ok(found) => found,
        Err(e) => {
            return Err(e);
        },
    };
    match expect_token(rest, Token::TupleClose) {
        Ok(rest) => Ok((rest, (name, value))),
        Err(e) => Err(e),
    }
}

/// Parses a list of environment variables.
///
/// This list can be empty.
pub fn parse_environment_variables<'a>(input: &'a str) -> (r: Result<
    (&'a str, Vec<(String, String)>),
    ParseError<'a>,
>)
    ensures
        agrees(r, variables(input@)),
{
    proof {
        lemma_variable_rule_local();
        lemma_local_is_consuming(variable_rule());
    }
    parse_list(input, false, parse_environment_variable, Ghost(variable_rule()))
}

/// Parses one `Derive(...)` expression and returns it with what follows it.
pub fn parse_derive_expression<'a>(input: &'a str) -> (r: Result<
    (&'a str, Derivation),
    ParseError<'a>,
>)
    ensures
        agrees(r, derive_expression(input@)),
        match r {
            Ok((rest, derivation)) => {
                &&& derivation@.well_formed()
                &&& derivation.outputs.pairs() == kept(written_outputs(input@))
                &&& derivation.input_drvs.pairs() == kept(written_inputs(input@))
                &&& is_suffix(rest@, input@)
            },
            Err(e) => points_into(e@, input@),
        },
{
    proof {
        reveal(graph);
        reveal(build);
        lemma_parsed_is_well_formed(input@);
        lemma_derive_within(input@);
    }
    let rest = match expect_token(input, Token::Derive) {
        Ok(rest) => rest,
        Err(e) => {
            return Err(e);
        },
    };
    let (rest, outputs) = match parse_derivation_outputs(rest) {
        Ok(found) => found,
        Err(e) => {
            return Err(e);
        },
    };
    let rest = match expect_token(rest, Token::Comma) {
        Ok(rest) => rest,
        Err(e) => {
            return Err(e);
        },
    };
    let (rest, input_drvs) = match parse_derivation_inputs(rest) {
        Ok(found) => found,
        Err(e) => {
            return Err(e);
        },
    };
    let rest = match expect_token(rest, Token::Comma) {
        Ok(rest) => rest,
        Err(e) => {
            return Err(e);
        },
    };
    let (rest, input_srcs) = match parse_source_inputs(rest) {
        Ok(found) => found,
        Err(e) => {
            return Err(e);
        },
    };
    let rest = match expect_token(rest, Token::Comma) {
        Ok(rest) => rest,
        Err(e) => {
            return Err(e);
        },
    };
    let (rest, system) = match parse_system(rest) {
        Ok(found) => found,
        Err(e) => {
            return Err(e);
        },
    };
    let rest = match expect_token(rest, Token::Comma) {
        Ok(rest) => rest,
        Err(e) => {
            return Err(e);
        },
    };
    let (rest, builder) = match parse_builder(rest) {
        Ok(found) => found,
        Err(e) => {
            return Err(e);
        },
    };
    let rest = match expect_token(rest, Token::Comma) {
        Ok(rest) => rest,
        Err(e) => {
            return Err(e);
        },
    };
    let (rest, args) = match parse_builder_args(rest) {
        Ok(found) => found,
        Err(e) => {
            return Err(e);
        },
    };
    let rest = match expect_token(rest, Token::Comma) {
        Ok(rest) => rest,
        Err(e) => {
            return Err(e);
        },
    };
    let (rest, env) = match parse_environment_variables(rest) {
        Ok(found) => found,
        Err(e) => {
            return Err(e);
        },
    };
    match expect_token(rest, Token::TupleClose) {
        Ok(rest) => Ok(
            (rest, Derivation { outputs, input_drvs, input_srcs, system, builder, args, env }),
        ),
        Err(e) => Err(e),
    }
}

/// Parses a `Derivation` from a buffer that holds one `Derive(...)`
/// expression and nothing else. Text behind the expression is rejected as
/// trailing data.
pub fn parse_derivation<'a>(input: &'a str) -> (r: Result<Derivation, ParseError<'a>>)
    ensures
        match (r, descriptor(input@)) {
            (Ok(derivation), Ok(d)) => derivation@ == d,
            (Err(e), Err(f)) => e@ == f,
            _ => false,
        },
        match r {
            Ok(derivation) => {
                &&& derivation@.well_formed()
                &&& derivation.outputs.pairs() == kept(written_outputs(input@))
                &&& derivation.input_drvs.pairs() == kept(written_inputs(input@))
            },
            Err(e) => points_into(e@, input@),
        },
{
    match parse_derive_expression(input) {
        Ok((rest, derivation)) => {
            if rest.is_empty() {
                Ok(derivation)
            } else {
                Err(ParseError { kind: ErrorKind::TrailingData, rest })
            }
        },
        Err(e) => Err(e),
    }
}

} // verus!
