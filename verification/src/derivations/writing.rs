//! How a descriptor is written.
//!
//! The functions here put the text of a descriptor together from the texts
//! of its parts. A part is any text that its rule reads as the part's
//! value whatever follows; a [`Recipe`] is written with the literals that
//! [`quote`] gives.

use vstd::prelude::*;
use crate::collections::collect;
use crate::derivations::syntax::{inputs_rule, list_rule, outputs_rule, variable_rule};
use crate::derivations::types::{DerivationView, OutputView};
use crate::error::{reads, Rule};
use crate::strings::syntax::{quote, string_rule};
use crate::tokens::Token;

verus! {

/// Items behind the first one of a list: each behind a `,`.
pub open spec fn continued(sources: Seq<Seq<char>>) -> Seq<char>
    decreases sources.len(),
{
    if sources.len() == 0 {
        Seq::empty()
    } else {
        seq![','] + sources[0] + continued(sources.skip(1))
    }
}

/// A list with the items `sources`: `[`, the items with `,` between them,
/// and `]`.
pub open spec fn write_list(sources: Seq<Seq<char>>) -> Seq<char> {
    if sources.len() == 0 {
        seq!['[', ']']
    } else {
        seq!['['] + sources[0] + continued(sources.skip(1)) + seq![']']
    }
}

/// An output with the parts `name`, `path`, `hash_algo` and `hash`:
/// `(name,path,hash_algo,hash)`.
pub open spec fn write_output(
    name: Seq<char>,
    path: Seq<char>,
    hash_algo: Seq<char>,
    hash: Seq<char>,
) -> Seq<char> {
    seq!['('] + name + seq![','] + path + seq![','] + hash_algo + seq![','] + hash + seq![')']
}

/// A reference to another derivation with the parts `path` and `names`:
/// `(path,names)`.
pub open spec fn write_input(path: Seq<char>, names: Seq<char>) -> Seq<char> {
    seq!['('] + path + seq![','] + names + seq![')']
}

/// An environment variable with the parts `name` and `value`:
/// `(name,value)`.
pub open spec fn write_variable(name: Seq<char>, value: Seq<char>) -> Seq<char> {
    seq!['('] + name + seq![','] + value + seq![')']
}

/// The texts of the seven parts of a descriptor.
pub struct Parts {
    pub outputs: Seq<char>,
    pub input_drvs: Seq<char>,
    pub input_srcs: Seq<char>,
    pub system: Seq<char>,
    pub builder: Seq<char>,
    pub args: Seq<char>,
    pub env: Seq<char>,
}

/// `first`, a `,`, and `others`.
pub open spec fn and_then(first: Seq<char>, others: Seq<char>) -> Seq<char> {
    first + (seq![','] + others)
}

/// The outputs, the references to other derivations and the sources, with
/// `,` between them.
pub open spec fn write_graph(parts: Parts) -> Seq<char> {
    and_then(parts.outputs, and_then(parts.input_drvs, parts.input_srcs))
}

/// The system, the builder, its arguments and its environment, with `,`
/// between them.
pub open spec fn write_build(parts: Parts) -> Seq<char> {
    and_then(parts.system, and_then(parts.builder, and_then(parts.args, parts.env)))
}

/// A descriptor without its closing `)`: `Derive(` and the parts with `,`
/// between them.
pub open spec fn write_fields(parts: Parts) -> Seq<char> {
    Token::Derive.text() + and_then(write_graph(parts), write_build(parts))
}

/// A descriptor with the given parts.
pub open spec fn write_derive(parts: Parts) -> Seq<char> {
    write_fields(parts) + seq![')']
}

/// A list of string literals that write `texts`.
pub open spec fn written_strings(texts: Seq<Seq<char>>) -> Seq<char> {
    write_list(texts.map_values(|text: Seq<char>| quote(text)))
}

/// The output that writes `entry`, a name and what it stands for.
pub open spec fn written_output(entry: (Seq<char>, OutputView)) -> Seq<char> {
    write_output(
        quote(entry.0),
        quote(entry.1.path),
        quote(entry.1.hash_algo),
        quote(entry.1.hash),
    )
}

/// The reference to another derivation that writes `entry`, a path and the
/// names of outputs.
pub open spec fn written_input(entry: (Seq<char>, Seq<Seq<char>>)) -> Seq<char> {
    write_input(quote(entry.0), written_strings(entry.1))
}

/// The environment variable that writes `entry`, a name and a value.
pub open spec fn written_variable(entry: (Seq<char>, Seq<char>)) -> Seq<char> {
    write_variable(quote(entry.0), quote(entry.1))
}

/// What a descriptor is written from: its entries in the order in which
/// they are written.
pub struct Recipe {
    pub outputs: Seq<(Seq<char>, OutputView)>,
    pub input_drvs: Seq<(Seq<char>, Seq<Seq<char>>)>,
    pub input_srcs: Seq<Seq<char>>,
    pub system: Seq<char>,
    pub builder: Seq<char>,
    pub args: Seq<Seq<char>>,
    pub env: Seq<(Seq<char>, Seq<char>)>,
}

impl Recipe {
    /// There is an output, and every reference to another derivation names
    /// an output of it.
    pub open spec fn well_formed(self) -> bool {
        &&& self.outputs.len() > 0
        &&& forall|i: int|
            0 <= i < self.input_drvs.len() ==> (#[trigger] self.input_drvs[i]).1.len() > 0
    }

    /// The texts of the seven parts.
    pub open spec fn parts(self) -> Parts {
        Parts {
            outputs: write_list(
                self.outputs.map_values(|entry: (Seq<char>, OutputView)| written_output(entry)),
            ),
            input_drvs: write_list(
                self.input_drvs.map_values(
                    |entry: (Seq<char>, Seq<Seq<char>>)| written_input(entry),
                ),
            ),
            input_srcs: written_strings(self.input_srcs),
            system: quote(self.system),
            builder: quote(self.builder),
            args: written_strings(self.args),
            env: write_list(
                self.env.map_values(|entry: (Seq<char>, Seq<char>)| written_variable(entry)),
            ),
        }
    }

    /// The descriptor that writes the recipe.
    pub open spec fn text(self) -> Seq<char> {
        write_derive(self.parts())
    }

    /// The derivation that the recipe describes: entries of the same key
    /// collected, the last one winning, and the other lists as they are.
    pub open spec fn value(self) -> DerivationView {
        DerivationView {
            outputs: collect(self.outputs),
            input_drvs: collect(self.input_drvs),
            input_srcs: self.input_srcs,
            system: self.system,
            builder: self.builder,
            args: self.args,
            env: self.env,
        }
    }
}

/// `item` reads each of `sources` as the value at the same place in
/// `values`.
pub open spec fn reads_each<T>(item: Rule<T>, sources: Seq<Seq<char>>, values: Seq<T>) -> bool {
    &&& sources.len() == values.len()
    &&& forall|i: int| 0 <= i < sources.len() ==> reads(item, #[trigger] sources[i], values[i])
}

/// A text does not begin with `c`.
pub open spec fn starts_otherwise(source: Seq<char>, c: char) -> bool {
    source.len() > 0 && source[0] != c
}

/// Each part is read as the field of `value` that it stands for.
pub open spec fn reads_parts(parts: Parts, value: DerivationView) -> bool {
    &&& reads(outputs_rule(), parts.outputs, value.outputs)
    &&& reads(inputs_rule(), parts.input_drvs, value.input_drvs)
    &&& reads(list_rule(string_rule(), false), parts.input_srcs, value.input_srcs)
    &&& reads(string_rule(), parts.system, value.system)
    &&& reads(string_rule(), parts.builder, value.builder)
    &&& reads(list_rule(string_rule(), false), parts.args, value.args)
    &&& reads(list_rule(variable_rule(), false), parts.env, value.env)
}

} // verus!
