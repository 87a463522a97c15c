//! The outcome of looking for the fixed beginning of a response.

use vstd::prelude::*;

verus! {

/// Outcome of looking for a fixed beginning, as a mathematical value.
pub enum PrefixMatchView {
    Matched(Seq<u8>),
    Incomplete(int),
    Mismatch,
}

/// Outcome of looking for a fixed beginning at the head of some input.
#[derive(PartialEq, Eq, Debug)]
pub enum PrefixMatch<'a> {
    /// The beginning is there, and this is what follows it.
    Matched(&'a [u8]),
    /// The input ends inside the beginning, this many bytes short of it.
    Incomplete(usize),
    /// The input begins otherwise.
    Mismatch,
}

impl<'a> View for PrefixMatch<'a> {
    type V = PrefixMatchView;

    open spec fn view(&self) -> PrefixMatchView {
        match self {
            PrefixMatch::Matched(tail) => PrefixMatchView::Matched(tail@),
            PrefixMatch::Incomplete(n) => PrefixMatchView::Incomplete(*n as int),
            PrefixMatch::Mismatch => PrefixMatchView::Mismatch,
        }
    }
}

} // verus!
