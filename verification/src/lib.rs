//! Decoder for package-build descriptors written in the ATerm-like
//! `Derive(...)` text format.
//!
//! The crate has two layers. [`strings`] decodes one quoted, escaped string
//! literal; [`derivations`] recognises the nested list and tuple grammar of a
//! whole descriptor and hands every string token to the decoder. Both are
//! pure functions from the remaining input to a value and the input that is
//! left, or to an [`error::ParseError`].
//!
//! Every routine is held to a grammar written over `Seq<char>`:
//! `strings::syntax` for literals and `derivations::syntax` for the
//! structure. The executable routines are proved to compute exactly what
//! those definitions say, on success and on failure alike.
//!
//! Where the format leaves a choice, the crate makes these:
//!
//! - Outputs and references to other derivations are kept under their keys,
//!   each key once. A later entry with a key that was written before
//!   replaces the earlier one: the last write wins.
//! - A derivation has at least one output, and a reference to another
//!   derivation names at least one of its outputs. `[]` in either place is
//!   rejected as [`error::ErrorKind::EmptyRequiredList`].
//! - A descriptor fills its buffer. Text behind the closing `)` is rejected
//!   as [`error::ErrorKind::TrailingData`];
//!   [`derivations::parsers::parse_derive_expression`] is there for callers
//!   that want what follows.
//! - The items of a list are separated by `,`, and no `,` stands behind the
//!   last one.
//! - Paths are kept as the text that the descriptor writes; a program that
//!   works with the file system turns them into paths of its own.

pub mod collections;
pub mod derivations;
pub mod error;
pub mod strings;
pub mod text;
pub mod tokens;
