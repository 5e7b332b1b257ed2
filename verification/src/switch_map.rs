//! Switch-map: each outer item opens a new inner sequence, and only the
//! inner sequence opened last is listened to.

use crate::polled::{Polled, Step};
use vstd::prelude::*;

verus! {

/// Which of the two upstreams of a switch-map operator is meant.
#[derive(Clone, Copy, PartialEq, Eq, Debug, Structural)]
pub enum Upstream {
    /// The outer sequence, whose items open inner sequences.
    Outer,
    /// The inner sequence that is active.
    Inner,
}

/// Maps each item of its outer sequence to an inner sequence and forwards
/// the items of the latest one.
pub struct SwitchMap<I, T, O> {
    from: I,
    mapper: T,
    mapped_stream: Option<O>,
}

/// Makes the operator over `from`, with no inner sequence active.
pub fn switch_map<I, T, O>(from: I, mapper: T) -> (s: SwitchMap<I, T, O>)
    ensures
        s.outer() == from,
        s.mapper() == mapper,
        s.inner() is None,
{
    SwitchMap { from, mapper, mapped_stream: None }
}

impl<I, T, O> SwitchMap<I, T, O> {
    /// The outer sequence.
    pub closed spec fn outer(&self) -> I {
        self.from
    }

    /// The function that opens an inner sequence for an outer item.
    pub closed spec fn mapper(&self) -> T {
        self.mapper
    }

    /// The active inner sequence, if there is one.
    pub closed spec fn inner(&self) -> Option<O> {
        self.mapped_stream
    }

    /// The outer sequence, to be polled.
    pub fn outer_mut(&mut self) -> (outer: &mut I)
        ensures
            *outer == old(self).outer(),
            final(self).outer() == *final(outer),
            final(self).mapper() == old(self).mapper(),
            final(self).inner() == old(self).inner(),
    {
        &mut self.from
    }

    /// The active inner sequence, to be polled, if there is one.
    pub fn inner_mut(&mut self) -> (inner: Option<&mut O>)
        ensures
            final(self).outer() == old(self).outer(),
            final(self).mapper() == old(self).mapper(),
            match inner {
                Some(active) => {
                    &&& old(self).inner() == Some(*active)
                    &&& final(self).inner() == Some(*final(active))
                },
                None => old(self).inner() is None && final(self).inner() is None,
            },
    {
        self.mapped_stream.as_mut()
    }

    /// Starts a poll call: the outer sequence is drained first.
    pub fn begin_poll(&self) -> (first: Upstream)
        ensures
            first == Upstream::Outer,
    {
        Upstream::Outer
    }

    /// Takes what polling the outer sequence gave.
    ///
    /// An item opens a new inner sequence, which takes the place of the
    /// active one even if that one has items left, and the outer sequence is
    /// polled again. The end of the outer sequence ends the operator, whatever
    /// the inner sequence holds. Once the outer sequence has nothing ready,
    /// the active inner sequence is polled, or the call yields nothing where
    /// there is none.
    pub fn on_outer<A, B>(&mut self, polled: Polled<A>) -> (step: Step<Upstream, B>) where
        T: Fn(A) -> Option<O>,

        requires
            polled matches Polled::Item(item) ==> call_requires(old(self).mapper(), (item,)),
        ensures
            final(self).outer() == old(self).outer(),
            final(self).mapper() == old(self).mapper(),
            match polled {
                Polled::Item(item) => {
                    &&& call_ensures(old(self).mapper(), (item,), final(self).inner())
                    &&& step == Step::<Upstream, B>::Poll(Upstream::Outer)
                },
                Polled::Ended => {
                    &&& final(self).inner() == old(self).inner()
                    &&& step == Step::<Upstream, B>::Done(Polled::Ended)
                },
                Polled::Pending => {
                    &&& final(self).inner() == old(self).inner()
                    &&& step == (if old(self).inner() is Some {
                        Step::<Upstream, B>::Poll(Upstream::Inner)
                    } else {
                        Step::<Upstream, B>::Done(Polled::Pending)
                    })
                },
            },
    {
        match polled {
            Polled::Item(item) => {
                self.mapped_stream = (self.mapper)(item);
                Step::Poll(Upstream::Outer)
            },
            Polled::Ended => Step::Done(Polled::Ended),
            Polled::Pending => {
                if self.mapped_stream.is_some() {
                    Step::Poll(Upstream::Inner)
                } else {
                    Step::Done(Polled::Pending)
                }
            },
        }
    }

    /// Takes what polling the active inner sequence gave, and says what the
    /// poll call yields.
    ///
    /// An item is forwarded. The end of the inner sequence leaves the operator
    /// without an inner sequence and does not end it.
    pub fn on_inner<B>(&mut self, polled: Polled<B>) -> (out: Polled<B>)
        ensures
            final(self).outer() == old(self).outer(),
            final(self).mapper() == old(self).mapper(),
            match polled {
                Polled::Item(item) => {
                    &&& final(self).inner() == old(self).inner()
                    &&& out == Polled::Item(item)
                },
                Polled::Ended => {
                    &&& final(self).inner() is None
                    &&& out == Polled::<B>::Pending
                },
                Polled::Pending => {
                    &&& final(self).inner() == old(self).inner()
                    &&& out == Polled::<B>::Pending
                },
            },
    {
        match polled {
            Polled::Item(item) => Polled::Item(item),
            Polled::Ended => {
                self.mapped_stream = None;
                Polled::Pending
            },
            Polled::Pending => Polled::Pending,
        }
    }
}

} // verus!
