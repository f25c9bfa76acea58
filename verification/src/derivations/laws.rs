//! What holds of the descriptor grammar.

use vstd::prelude::*;
use crate::collections::{
    collect, distinct_keys, lemma_collect_keys, lemma_collect_last_write_wins,
    lemma_collect_len, lemma_collect_values,
};
use crate::derivations::locality::lemma_fields_local;
use crate::derivations::roundtrip::{
    lemma_descriptor_reads, lemma_fields_read, lemma_list_reads, lemma_recipe_parts_read,
};
use crate::derivations::syntax::{
    collected, derive_expression, derive_fields, descriptor, graph, input_rule, list,
    list_rule, list_tail, output_rule, outputs, string_after,
};
use crate::derivations::types::{DerivationView, OutputView};
use crate::derivations::writing::{reads_each, starts_otherwise, write_list, Recipe};
use crate::error::{lemma_reads_at, ErrorKind, Failure, Parsed, Rule};
use crate::strings::syntax::string_rule;
use crate::text::lemma_nothing_joined;
use crate::tokens::{expect, lemma_expect_at, lemma_expect_local, Token};

verus! {

/// Reading inverts writing. The descriptor that writes a recipe with any
/// number of outputs, references to other derivations, sources, arguments
/// and environment variables is read as the derivation that the recipe
/// describes: sources, arguments and environment in the order and with the
/// repetitions in which they were written, and outputs and references
/// under their keys, as many as there are entries where no key is written
/// twice.
pub proof fn lemma_written_recipe_is_read(recipe: Recipe)
    requires
        recipe.well_formed(),
    ensures
        descriptor(recipe.text()) == Ok::<DerivationView, Failure>(recipe.value()),
        recipe.value().input_srcs == recipe.input_srcs,
        recipe.value().args == recipe.args,
        recipe.value().env == recipe.env,
        distinct_keys(recipe.outputs) ==> recipe.value().outputs.dom().len()
            == recipe.outputs.len(),
        distinct_keys(recipe.input_drvs) ==> recipe.value().input_drvs.dom().len()
            == recipe.input_drvs.len(),
{
    lemma_recipe_parts_read(recipe);
    lemma_descriptor_reads(recipe.parts(), recipe.value());
    if distinct_keys(recipe.outputs) {
        lemma_collect_len(recipe.outputs);
    }
    if distinct_keys(recipe.input_drvs) {
        lemma_collect_len(recipe.input_drvs);
    }
}

/// A descriptor that is cut off before its closing `)` fails as an
/// unexpected end of the input, at the end of what is left of it.
pub proof fn lemma_truncated_descriptor(s: Seq<char>)
    requires
        derive_expression(s) is Ok,
    ensures
        derive_expression(s) matches Ok((_, rest)) && {
            let cut = s.take(s.len() - rest.len() - 1);
            &&& s[s.len() - rest.len() - 1] == ')'
            &&& derive_expression(cut) == Err::<(DerivationView, Seq<char>), Failure>(
                Failure { kind: ErrorKind::UnexpectedEndOfInput, rest: Seq::empty() },
            )
            &&& descriptor(cut) == Err::<DerivationView, Failure>(
                Failure { kind: ErrorKind::UnexpectedEndOfInput, rest: Seq::empty() },
            )
        },
{
    let (value, rest) = derive_expression(s)->Ok_0;
    let parts = lemma_fields_local(s);
    let (_, at_close) = derive_fields(s)->Ok_0;
    let m = s.len() - at_close.len();
    lemma_expect_local(Token::TupleClose, at_close);
    assert(at_close[0] == at_close.take(1)[0]);
    assert(s.len() - rest.len() - 1 == m);
    let cut = s.take(m);
    lemma_fields_read(parts, value, Seq::empty());
    lemma_nothing_joined(cut);
    assert(derive_fields(cut) == Ok::<(DerivationView, Seq<char>), Failure>(
        (value, Seq::empty()),
    ));
    assert(Seq::<char>::empty().is_prefix_of(Token::TupleClose.text()));
    assert(!Token::TupleClose.text().is_prefix_of(Seq::<char>::empty()));
}

/// Last write wins. Where a list is written from entries and collected
/// into a map, the map holds under each key the value of the last entry
/// that has the key: an entry that stands behind another one of the same
/// key replaces it.
pub proof fn lemma_later_entry_wins<T>(
    item: Rule<(Seq<char>, T)>,
    required: bool,
    sources: Seq<Seq<char>>,
    entries: Seq<(Seq<char>, T)>,
    j: int,
    tail: Seq<char>,
)
    requires
        reads_each(item, sources, entries),
        starts_otherwise(sources[0], ']'),
        0 <= j < entries.len(),
        forall|k: int| j < k < entries.len() ==> (#[trigger] entries[k]).0 != entries[j].0,
    ensures
        collected(list(item, required, write_list(sources) + tail)) matches Ok((found, rest))
            && rest == tail && found.contains_key(entries[j].0) && found[entries[j].0]
            == entries[j].1,
{
    lemma_list_reads(item, required, sources, entries);
    lemma_reads_at(
        list_rule(item, required),
        write_list(sources),
        entries,
        tail,
        write_list(sources) + tail,
    );
    lemma_collect_last_write_wins(entries, j);
}

/// Last write wins, for outputs: of two outputs with the same name in a
/// list of outputs, the one that stands behind the other is kept under
/// the name.
pub proof fn lemma_later_output_wins(
    sources: Seq<Seq<char>>,
    entries: Seq<(Seq<char>, OutputView)>,
    i: int,
    j: int,
    tail: Seq<char>,
)
    requires
        reads_each(output_rule(), sources, entries),
        starts_otherwise(sources[0], ']'),
        0 <= i < j < entries.len(),
        entries[i].0 == entries[j].0,
        forall|k: int| j < k < entries.len() ==> (#[trigger] entries[k]).0 != entries[j].0,
    ensures
        outputs(write_list(sources) + tail) matches Ok((found, rest)) && rest == tail
            && found.contains_key(entries[i].0) && found[entries[i].0] == entries[j].1,
{
    lemma_later_entry_wins(output_rule(), true, sources, entries, j, tail);
}

/// A list of outputs without an output is rejected at its `]`.
pub proof fn lemma_empty_outputs_rejected(tail: Seq<char>)
    ensures
        outputs(seq!['[', ']'] + tail) == Err::<(Map<Seq<char>, OutputView>, Seq<char>), Failure>(
            Failure { kind: ErrorKind::EmptyRequiredList, rest: seq![']'] + tail },
        ),
{
    lemma_expect_at(Token::ListOpen, seq![']'] + tail, seq!['[', ']'] + tail);
    lemma_expect_at(Token::ListClose, tail, seq![']'] + tail);
}

/// `holds` is true of the value of a successful parse.
pub open spec fn gives<T>(parsed: Parsed<T>, holds: spec_fn(T) -> bool) -> bool {
    parsed matches Ok((value, _)) ==> holds(value)
}

/// What holds of every value that an item rule gives holds of every item of
/// a list's tail.
proof fn lemma_list_tail_items<T>(item: Rule<T>, s: Seq<char>, holds: spec_fn(T) -> bool)
    requires
        forall|x: Seq<char>| gives(#[trigger] item(x), holds),
    ensures
        list_tail(item, s) matches Ok((values, _)) ==> forall|i: int|
            0 <= i < values.len() ==> holds(#[trigger] values[i]),
    decreases s.len(),
{
    if let Ok(after) = expect(s, Token::Comma) {
        if let Ok((value, rest)) = item(after) {
            if rest.len() < s.len() {
                lemma_list_tail_items(item, rest, holds);
            }
        }
    }
}

/// What holds of every value that an item rule gives holds of every item of
/// a list, and a list that has to have an item has one.
pub proof fn lemma_list_items<T>(
    item: Rule<T>,
    required: bool,
    s: Seq<char>,
    holds: spec_fn(T) -> bool,
)
    requires
        forall|x: Seq<char>| gives(#[trigger] item(x), holds),
    ensures
        list(item, required, s) matches Ok((values, _)) ==> {
            &&& required ==> values.len() > 0
            &&& forall|i: int| 0 <= i < values.len() ==> holds(#[trigger] values[i])
        },
{
    if let Ok(inside) = expect(s, Token::ListOpen) {
        if let Ok((_, rest)) = item(inside) {
            lemma_list_tail_items(item, rest, holds);
        }
    }
}

/// What is read as a derivation is well formed: it has an output, and it
/// names an output of every derivation that it refers to.
pub proof fn lemma_parsed_is_well_formed(s: Seq<char>)
    ensures
        derive_expression(s) matches Ok((value, _)) ==> value.well_formed(),
        descriptor(s) matches Ok(value) ==> value.well_formed(),
{
    if let Ok((value, _)) = derive_expression(s) {
        reveal(graph);
        let s0 = expect(s, Token::Derive)->Ok_0;
        let (entries, s1) = list(output_rule(), true, s0)->Ok_0;
        lemma_list_items(output_rule(), true, s0, |entry: (Seq<char>, OutputView)| true);
        lemma_collect_keys(entries, entries.last().0);
        assert(entries[entries.len() - 1].0 == entries.last().0);
        assert(value.outputs.dom().len() > 0) by {
            if value.outputs.dom().len() == 0 {
                assert(value.outputs.dom() =~= Set::empty());
            }
        }
        let s2 = expect(s1, Token::Comma)->Ok_0;
        let (references, _) = list(input_rule(), false, s2)->Ok_0;
        let named = |entry: (Seq<char>, Seq<Seq<char>>)| entry.1.len() > 0;
        assert forall|x: Seq<char>| gives(#[trigger] input_rule()(x), named) by {
            if let Ok((_, x1)) = string_after(Token::TupleOpen, x) {
                if let Ok(x2) = expect(x1, Token::Comma) {
                    lemma_list_items(string_rule(), true, x2, |name: Seq<char>| true);
                }
            }
        }
        lemma_list_items(input_rule(), false, s2, named);
        lemma_collect_keys(references, Seq::empty());
        assert forall|path: Seq<char>| #[trigger]
            value.input_drvs.contains_key(path) implies value.input_drvs[path].len() > 0 by {
            lemma_collect_values(references, path);
            let i = choose|i: int|
                0 <= i < references.len() && #[trigger] references[i] == (
                    path,
                    collect(references)[path],
                );
            assert(named(references[i]));
        }
    }
}

} // verus!
