//! What one non-blocking poll of a sequence can give.

use vstd::prelude::*;

verus! {

/// The answer of one poll of a sequence.
#[derive(Debug, PartialEq, Eq)]
pub enum Polled<T> {
    /// The next item is ready.
    Item(T),
    /// The sequence has ended for good.
    Ended,
    /// Nothing is ready yet.
    Pending,
}

/// What the caller of an operator has to do next within one poll call.
///
/// `W` says which upstream is meant, `T` is the operator's item type.
#[derive(Debug, PartialEq, Eq)]
pub enum Step<W, T> {
    /// Poll this upstream once and hand its answer in.
    Poll(W),
    /// The poll call is over and yields this.
    Done(Polled<T>),
}

impl<T> Polled<T> {
    /// True where an item is ready.
    pub fn is_item(&self) -> (b: bool)
        ensures
            b == (*self is Item),
    {
        match self {
            Polled::Item(_) => true,
            _ => false,
        }
    }
}

} // verus!
