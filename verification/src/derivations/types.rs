//! The values that a descriptor decodes to.

use vstd::prelude::*;
use crate::collections::StringMap;

verus! {

/// One named artifact that a derivation produces: the store path it will
/// occupy and, for a fixed-output derivation, the hash it has to have. The
/// name is the key under which the output is kept.
#[derive(Debug, Eq, Hash, PartialEq)]
pub struct DerivationOutput {
    pub path: String,
    pub hash_algo: String,
    pub hash: String,
}

/// The text of a [`DerivationOutput`].
pub struct OutputView {
    pub path: Seq<char>,
    pub hash_algo: Seq<char>,
    pub hash: Seq<char>,
}

impl View for DerivationOutput {
    type V = OutputView;

    open spec fn view(&self) -> OutputView {
        OutputView { path: self.path@, hash_algo: self.hash_algo@, hash: self.hash@ }
    }
}

impl DeepView for DerivationOutput {
    type V = OutputView;

    open spec fn deep_view(&self) -> OutputView {
        self@
    }
}

/// The outputs of another derivation that a derivation depends on, by name.
/// The path of that derivation is the key under which they are kept.
#[derive(Debug, PartialEq)]
pub struct DerivationInput {
    pub value: Vec<String>,
}

impl View for DerivationInput {
    type V = Seq<Seq<char>>;

    open spec fn view(&self) -> Seq<Seq<char>> {
        self.value.deep_view()
    }
}

impl DeepView for DerivationInput {
    type V = Seq<Seq<char>>;

    open spec fn deep_view(&self) -> Seq<Seq<char>> {
        self@
    }
}

/// A build recipe.
///
/// `outputs` and `input_drvs` keep every key once; where a descriptor writes
/// a key twice, the later entry replaces the earlier one. The other lists
/// are kept as they are written, in order and with repetitions.
#[derive(Debug, PartialEq)]
pub struct Derivation {
    pub outputs: StringMap<DerivationOutput>,
    pub input_drvs: StringMap<DerivationInput>,
    pub input_srcs: Vec<String>,
    pub system: String,
    pub builder: String,
    pub args: Vec<String>,
    pub env: Vec<(String, String)>,
}

/// The text of a [`Derivation`].
pub struct DerivationView {
    pub outputs: Map<Seq<char>, OutputView>,
    pub input_drvs: Map<Seq<char>, Seq<Seq<char>>>,
    pub input_srcs: Seq<Seq<char>>,
    pub system: Seq<char>,
    pub builder: Seq<char>,
    pub args: Seq<Seq<char>>,
    pub env: Seq<(Seq<char>, Seq<char>)>,
}

impl DerivationView {
    /// A derivation produces something, and names at least one output of
    /// every derivation that it depends on.
    pub open spec fn well_formed(self) -> bool {
        &&& self.outputs.dom().finite()
        &&& self.outputs.dom().len() > 0
        &&& self.input_drvs.dom().finite()
        &&& forall|path: Seq<char>| #[trigger]
            self.input_drvs.contains_key(path) ==> self.input_drvs[path].len() > 0
    }
}

impl View for Derivation {
    type V = DerivationView;

    open spec fn view(&self) -> DerivationView {
        DerivationView {
            outputs: self.outputs@,
            input_drvs: self.input_drvs@,
            input_srcs: self.input_srcs.deep_view(),
            system: self.system@,
            builder: self.builder@,
            args: self.args.deep_view(),
            env: self.env.deep_view(),
        }
    }
}

impl DeepView for Derivation {
    type V = DerivationView;

    open spec fn deep_view(&self) -> DerivationView {
        self@
    }
}

} // verus!
