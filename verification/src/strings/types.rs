//! The fragments that a string literal is made of.

use vstd::prelude::*;

verus! {

/// A string fragment contains a fragment of a string being parsed: either a
/// non-empty literal (a series of non-escaped characters), a single parsed
/// escaped character, or a block of escaped whitespace.
#[derive(Debug, Clone, Copy, PartialEq, Eq)]
#[non_exhaustive]
pub enum StringFragment<'input> {
    Literal(&'input str),
    EscapedChar(char),
    EscapedWS,
}

/// A fragment as the grammar sees it: its kind and the text it was read from.
pub enum Fragment {
    Literal(Seq<char>),
    EscapedChar(char),
    EscapedWS,
}

impl Fragment {
    /// The characters that the fragment adds to the decoded string.
    pub open spec fn text(self) -> Seq<char> {
        match self {
            Fragment::Literal(run) => run,
            Fragment::EscapedChar(c) => seq![c],
            Fragment::EscapedWS => Seq::empty(),
        }
    }
}

impl<'input> View for StringFragment<'input> {
    type V = Fragment;

    open spec fn view(&self) -> Fragment {
        match *self {
            StringFragment::Literal(run) => Fragment::Literal(run@),
            StringFragment::EscapedChar(c) => Fragment::EscapedChar(c),
            StringFragment::EscapedWS => Fragment::EscapedWS,
        }
    }
}

impl<'input> DeepView for StringFragment<'input> {
    type V = Fragment;

    open spec fn deep_view(&self) -> Fragment {
        self@
    }
}

} // verus!
