//! The grammar of a descriptor, over sequences of characters.
//!
//! ```text
//! Derivation   := "Derive(" OutputList "," InputDrvList "," SourceList ","
//!                 String "," String "," ArgList "," EnvList ")"
//! OutputList   := "[" Output ("," Output)* "]"
//! Output       := "(" String "," String "," String "," String ")"
//! InputDrvList := "[" (InputDrv ("," InputDrv)*)? "]"
//! InputDrv     := "(" String "," "[" String ("," String)* "]" ")"
//! SourceList   := "[" (String ("," String)*)? "]"
//! ArgList      := "[" (String ("," String)*)? "]"
//! EnvPair      := "(" String "," String ")"
//! EnvList      := "[" (EnvPair ("," EnvPair)*)? "]"
//! ```
//!
//! Each rule is a function from the remaining input to a value and the
//! input left after it, or to a failure. A failure of a part is the failure
//! of the whole, unchanged. A descriptor has to fill its input: text after
//! the closing `)` is a failure.

use vstd::prelude::*;
use crate::collections::collect;
use crate::derivations::types::{DerivationView, OutputView};
use crate::error::{fail, ErrorKind, Failure, Parsed, Rule};
use crate::strings::syntax::{string, string_rule};
use crate::tokens::{expect, Token};

verus! {

/// `token`, then a string literal.
pub open spec fn string_after(token: Token, s: Seq<char>) -> Parsed<Seq<char>> {
    match expect(s, token) {
        Err(e) => Err(e),
        Ok(rest) => string(rest),
    }
}

/// Puts `items` in front of the items of a list.
pub open spec fn with_items<T>(items: Seq<T>, parsed: Parsed<Seq<T>>) -> Parsed<Seq<T>> {
    match parsed {
        Ok((tail, rest)) => Ok((items + tail, rest)),
        Err(e) => Err(e),
    }
}

/// What stands behind an item of a list: `,` and another item, as often as
/// a `,` follows, and then `]`. Other text in that place is reported as a
/// missing `]`.
///
/// An item takes at least one character wherever the rules of this grammar
/// are the items, so the branch that guards the measure is never taken.
pub open spec fn list_tail<T>(item: Rule<T>, s: Seq<char>) -> Parsed<Seq<T>>
    decreases s.len(),
{
    match expect(s, Token::Comma) {
        Ok(after_comma) => match item(after_comma) {
            Err(e) => Err(e),
            Ok((value, rest)) => if rest.len() < s.len() {
                with_items(seq![value], list_tail(item, rest))
            } else {
                fail(ErrorKind::UnexpectedToken { expected: Token::ListClose }, rest)
            },
        },
        Err(_) => match expect(s, Token::ListClose) {
            Err(e) => Err(e),
            Ok(rest) => Ok((Seq::empty(), rest)),
        },
    }
}

/// A list: `[`, items with `,` between them, and `]`. Where `required` is
/// set the list has to have an item, and `[]` fails at its `]`.
pub open spec fn list<T>(item: Rule<T>, required: bool, s: Seq<char>) -> Parsed<Seq<T>> {
    match expect(s, Token::ListOpen) {
        Err(e) => Err(e),
        Ok(inside) => match expect(inside, Token::ListClose) {
            Ok(rest) => if required {
                fail(ErrorKind::EmptyRequiredList, inside)
            } else {
                Ok((Seq::empty(), rest))
            },
            Err(_) => match item(inside) {
                Err(e) => Err(e),
                Ok((first, rest)) => with_items(seq![first], list_tail(item, rest)),
            },
        },
    }
}

/// The rule for a list of items that `item` reads.
pub open spec fn list_rule<T>(item: Rule<T>, required: bool) -> Rule<Seq<T>> {
    |s: Seq<char>| list(item, required, s)
}

/// A list of string literals.
pub open spec fn strings(required: bool, s: Seq<char>) -> Parsed<Seq<Seq<char>>> {
    list(string_rule(), required, s)
}

/// An output: `(name, path, hashAlgorithm, hash)`. The value is the name and
/// the rest.
pub open spec fn output(s: Seq<char>) -> Parsed<(Seq<char>, OutputView)> {
    match string_after(Token::TupleOpen, s) {
        Err(e) => Err(e),
        Ok((name, s1)) => match string_after(Token::Comma, s1) {
            Err(e) => Err(e),
            Ok((path, s2)) => match string_after(Token::Comma, s2) {
                Err(e) => Err(e),
                Ok((hash_algo, s3)) => match string_after(Token::Comma, s3) {
                    Err(e) => Err(e),
                    Ok((hash, s4)) => match expect(s4, Token::TupleClose) {
                        Err(e) => Err(e),
                        Ok(rest) => Ok(((name, OutputView { path, hash_algo, hash }), rest)),
                    },
                },
            },
        },
    }
}

/// The rule for an output, as an item of a list.
pub open spec fn output_rule() -> Rule<(Seq<char>, OutputView)> {
    |s: Seq<char>| output(s)
}

/// Collects the entries of a list into a map: the last write wins.
pub open spec fn collected<T>(parsed: Parsed<Seq<(Seq<char>, T)>>) -> Parsed<Map<Seq<char>, T>> {
    match parsed {
        Ok((entries, rest)) => Ok((collect(entries), rest)),
        Err(e) => Err(e),
    }
}

/// The list of outputs, which has at least one, by name.
pub open spec fn outputs(s: Seq<char>) -> Parsed<Map<Seq<char>, OutputView>> {
    collected(list(output_rule(), true, s))
}

/// The rule for the list of outputs.
pub open spec fn outputs_rule() -> Rule<Map<Seq<char>, OutputView>> {
    |s: Seq<char>| outputs(s)
}

/// A reference to another derivation: `(path, [name, ...])`, with at least
/// one name.
pub open spec fn input(s: Seq<char>) -> Parsed<(Seq<char>, Seq<Seq<char>>)> {
    match string_after(Token::TupleOpen, s) {
        Err(e) => Err(e),
        Ok((path, s1)) => match expect(s1, Token::Comma) {
            Err(e) => Err(e),
            Ok(s2) => match strings(true, s2) {
                Err(e) => Err(e),
                Ok((names, s3)) => match expect(s3, Token::TupleClose) {
                    Err(e) => Err(e),
                    Ok(rest) => Ok(((path, names), rest)),
                },
            },
        },
    }
}

/// The rule for a reference to another derivation, as an item of a list.
pub open spec fn input_rule() -> Rule<(Seq<char>, Seq<Seq<char>>)> {
    |s: Seq<char>| input(s)
}

/// The list of references to other derivations, which may be empty, by
/// path.
pub open spec fn inputs(s: Seq<char>) -> Parsed<Map<Seq<char>, Seq<Seq<char>>>> {
    collected(list(input_rule(), false, s))
}

/// The rule for the list of references to other derivations.
pub open spec fn inputs_rule() -> Rule<Map<Seq<char>, Seq<Seq<char>>>> {
    |s: Seq<char>| inputs(s)
}

/// An environment variable: `(name, value)`.
pub open spec fn variable(s: Seq<char>) -> Parsed<(Seq<char>, Seq<char>)> {
    match string_after(Token::TupleOpen, s) {
        Err(e) => Err(e),
        Ok((name, s1)) => match string_after(Token::Comma, s1) {
            Err(e) => Err(e),
            Ok((value, s2)) => match expect(s2, Token::TupleClose) {
                Err(e) => Err(e),
                Ok(rest) => Ok(((name, value), rest)),
            },
        },
    }
}

/// The rule for an environment variable, as an item of a list.
pub open spec fn variable_rule() -> Rule<(Seq<char>, Seq<char>)> {
    |s: Seq<char>| variable(s)
}

/// The environment: a list of variables, which may be empty. Order and
/// repeated names are kept.
pub open spec fn variables(s: Seq<char>) -> Parsed<Seq<(Seq<char>, Seq<char>)>> {
    list(variable_rule(), false, s)
}

/// What a derivation produces and what it is made from: the outputs, the
/// references to other derivations and the sources, with `,` between them.
#[verifier::opaque]
pub open spec fn graph(s: Seq<char>) -> Parsed<
    (Map<Seq<char>, OutputView>, Map<Seq<char>, Seq<Seq<char>>>, Seq<Seq<char>>),
> {
    match outputs(s) {
        Err(e) => Err(e),
        Ok((outputs, s1)) => match expect(s1, Token::Comma) {
            Err(e) => Err(e),
            Ok(s2) => match inputs(s2) {
                Err(e) => Err(e),
                Ok((input_drvs, s3)) => match expect(s3, Token::Comma) {
                    Err(e) => Err(e),
                    Ok(s4) => match strings(false, s4) {
                        Err(e) => Err(e),
                        Ok((input_srcs, rest)) => Ok(((outputs, input_drvs, input_srcs), rest)),
                    },
                },
            },
        },
    }
}

/// How a derivation is built: the system, the builder, its arguments and
/// its environment, with `,` between them.
#[verifier::opaque]
pub open spec fn build(s: Seq<char>) -> Parsed<
    (Seq<char>, Seq<char>, Seq<Seq<char>>, Seq<(Seq<char>, Seq<char>)>),
> {
    match string(s) {
        Err(e) => Err(e),
        Ok((system, s1)) => match string_after(Token::Comma, s1) {
            Err(e) => Err(e),
            Ok((builder, s2)) => match expect(s2, Token::Comma) {
                Err(e) => Err(e),
                Ok(s3) => match strings(false, s3) {
                    Err(e) => Err(e),
                    Ok((args, s4)) => match expect(s4, Token::Comma) {
                        Err(e) => Err(e),
                        Ok(s5) => match variables(s5) {
                            Err(e) => Err(e),
                            Ok((env, rest)) => Ok(((system, builder, args, env), rest)),
                        },
                    },
                },
            },
        },
    }
}

/// The fields of a `Derive(...)` expression: `Derive(`, and what stands
/// between it and the closing `)`.
pub open spec fn derive_fields(s: Seq<char>) -> Parsed<DerivationView> {
    match expect(s, Token::Derive) {
        Err(e) => Err(e),
        Ok(s0) => match graph(s0) {
            Err(e) => Err(e),
            Ok(((outputs, input_drvs, input_srcs), s1)) => match expect(s1, Token::Comma) {
                Err(e) => Err(e),
                Ok(s2) => match build(s2) {
                    Err(e) => Err(e),
                    Ok(((system, builder, args, env), rest)) => Ok(
                        (
                            DerivationView {
                                outputs,
                                input_drvs,
                                input_srcs,
                                system,
                                builder,
                                args,
                                env,
                            },
                            rest,
                        ),
                    ),
                },
            },
        },
    }
}

/// A `Derive(...)` expression, and what follows it.
pub open spec fn derive_expression(s: Seq<char>) -> Parsed<DerivationView> {
    match derive_fields(s) {
        Err(e) => Err(e),
        Ok((derivation, at_close)) => match expect(at_close, Token::TupleClose) {
            Err(e) => Err(e),
            Ok(rest) => Ok((derivation, rest)),
        },
    }
}

/// The outputs of a `Derive(...)` expression as they are written, one entry
/// for each output of the list.
pub open spec fn written_outputs(s: Seq<char>) -> Seq<(Seq<char>, OutputView)> {
    match expect(s, Token::Derive) {
        Ok(s0) => match list(output_rule(), true, s0) {
            Ok((entries, _)) => entries,
            Err(_) => Seq::empty(),
        },
        Err(_) => Seq::empty(),
    }
}

/// The references to other derivations of a `Derive(...)` expression as
/// they are written, one entry for each reference of the list.
pub open spec fn written_inputs(s: Seq<char>) -> Seq<(Seq<char>, Seq<Seq<char>>)> {
    match expect(s, Token::Derive) {
        Ok(s0) => match outputs(s0) {
            Ok((_, s1)) => match expect(s1, Token::Comma) {
                Ok(s2) => match list(input_rule(), false, s2) {
                    Ok((entries, _)) => entries,
                    Err(_) => Seq::empty(),
                },
                Err(_) => Seq::empty(),
            },
            Err(_) => Seq::empty(),
        },
        Err(_) => Seq::empty(),
    }
}

/// A descriptor: one `Derive(...)` expression that fills the input.
pub open spec fn descriptor(s: Seq<char>) -> Result<DerivationView, Failure> {
    match derive_expression(s) {
        Err(e) => Err(e),
        Ok((derivation, rest)) => if rest.len() == 0 {
            Ok(derivation)
        } else {
            Err(Failure { kind: ErrorKind::TrailingData, rest })
        },
    }
}

} // verus!
