//! Stream operators as poll-driven state machines.
//!
//! Each operator owns its upstream sequence(s) and keeps the little state it
//! needs between polls. The operator never polls by itself: the caller polls
//! the upstream it is told to poll and hands the answer in, and the operator
//! says what to poll next or what the poll call yields.

pub mod combine_latest;
pub mod debounce;
pub mod distinct_until_changed;
pub mod polled;
pub mod switch_map;

pub use combine_latest::{combine_latest, CombineLatest};
pub use debounce::Debounce;
pub use distinct_until_changed::DistinctUntilChanged;
pub use polled::{Polled, Step};
pub use switch_map::{switch_map, SwitchMap};

use vstd::prelude::*;

verus! {

/// Puts an operator over a sequence, by a method of the sequence.
///
/// A sequence is whatever the caller polls: the operators hold it and hand
/// it out, and never look into it. So every type has these methods.
pub trait StreamOpsExt: Sized {
    /// The operator that holds back an item equal to the one before it.
    fn distinct_until_changed<Item>(self) -> (d: DistinctUntilChanged<Self, Item>)
        ensures
            d.source() == self,
            d.last() is None,
    {
        DistinctUntilChanged::new(self)
    }

    /// The operator that holds back each item for `debounce_time` ticks.
    fn debounce<Item>(self, debounce_time: u64) -> (d: Debounce<Self, Item>)
        ensures
            d.source() == self,
            d@ == debounce::Debounced::<Item>::fresh(debounce_time),
    {
        Debounce::new(self, debounce_time)
    }
}

impl<T> StreamOpsExt for T {}

} // verus!
