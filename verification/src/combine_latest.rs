//! Combine-latest: the most recent item of each source, as one snapshot.

use crate::polled::{Polled, Step};
use vstd::prelude::*;

verus! {

/// The state of a combine-latest operator as plain values.
pub struct Latest<I> {
    /// Per source, the latest item seen from it, if any.
    pub slots: Seq<Option<I>>,
    /// Whether every source has given an item at some time.
    pub primed: bool,
    /// Whether a source has given an item in the poll call under way.
    pub updated: bool,
}

impl<I> Latest<I> {
    /// True where every slot holds an item.
    pub open spec fn all_known(slots: Seq<Option<I>>) -> bool {
        forall|i: int| 0 <= i < slots.len() ==> (#[trigger] slots[i]) is Some
    }

    /// The flag `primed` says that there are sources and all have been heard of.
    pub open spec fn wf(self) -> bool {
        self.primed == (self.slots.len() > 0 && Self::all_known(self.slots))
    }

    /// The state of a new operator over `n` sources.
    pub open spec fn fresh(n: nat) -> Self {
        Latest { slots: Seq::new(n, |i: int| None::<I>), primed: false, updated: false }
    }

    /// The state at the start of a poll call.
    pub open spec fn started(self) -> Self {
        Latest { updated: false, ..self }
    }

    /// The state after source `idx` has given `item`.
    pub open spec fn received(self, idx: int, item: I) -> Self {
        let slots = self.slots.update(idx, Some(item));
        Latest { slots, primed: self.primed || Self::all_known(slots), updated: true }
    }

    /// The items of all slots, in source order.
    pub open spec fn snapshot(self) -> Seq<I> {
        Seq::new(self.slots.len(), |i: int| self.slots[i]->0)
    }

    /// What a poll call yields once every source has been drained.
    pub open spec fn verdict(self) -> Polled<Seq<I>> {
        if self.primed && self.updated {
            Polled::Item(self.snapshot())
        } else {
            Polled::Pending
        }
    }

    /// The state after source `idx` has answered `polled`: an item goes into
    /// its slot, anything else changes nothing.
    pub open spec fn answered(self, idx: int, polled: Polled<I>) -> Self {
        match polled {
            Polled::Item(item) => self.received(idx, item),
            _ => self,
        }
    }

    /// What follows that answer: after an item the same source is polled
    /// again, else the next source is, and after the last source the poll
    /// call is over.
    pub open spec fn follows(self, idx: int, polled: Polled<I>) -> Step<int, Seq<I>> {
        match polled {
            Polled::Item(_) => Step::Poll(idx),
            _ => if idx + 1 < self.slots.len() {
                Step::Poll(idx + 1)
            } else {
                Step::Done(self.verdict())
            },
        }
    }

    /// What a poll call yields whose steps are followed from the point at
    /// which source `idx` is to be polled and has given `given` of its items
    /// `ready[idx]`. A source that has given all its items answers `ends[idx]`.
    pub open spec fn driven(
        self,
        ready: Seq<Seq<I>>,
        ends: Seq<Polled<I>>,
        idx: int,
        given: int,
    ) -> Polled<Seq<I>>
        decreases self.slots.len() - idx, ready[idx].len() - given,
    {
        if 0 <= idx < self.slots.len() && 0 <= given <= ready[idx].len() && !(ends[idx] is Item) {
            let answer = if given < ready[idx].len() {
                Polled::Item(ready[idx][given])
            } else {
                ends[idx]
            };
            match self.follows(idx, answer) {
                Step::Poll(next) => self.answered(idx, answer).driven(
                    ready,
                    ends,
                    next,
                    if next == idx {
                        given + 1
                    } else {
                        0
                    },
                ),
                Step::Done(out) => out,
            }
        } else {
            Polled::Pending
        }
    }

    /// The state after source `idx` has given `items`, one poll each.
    pub open spec fn drained(self, idx: int, items: Seq<I>) -> Self
        decreases items.len(),
    {
        if items.len() == 0 {
            self
        } else {
            self.drained(idx, items.drop_last()).received(idx, items.last())
        }
    }

    /// The state within a poll call once the sources before `upto` have been
    /// drained in order, source `i` having given `ready[i]`.
    pub open spec fn swept(self, ready: Seq<Seq<I>>, upto: int) -> Self
        decreases upto,
    {
        if upto <= 0 {
            self.started()
        } else {
            self.swept(ready, upto - 1).drained(upto - 1, ready[upto - 1])
        }
    }

    /// The state after a poll call in which source `i` gave `ready[i]`.
    pub open spec fn polled(self, ready: Seq<Seq<I>>) -> Self {
        self.swept(ready, self.slots.len() as int)
    }

    /// What that poll call yields.
    pub open spec fn poll_output(self, ready: Seq<Seq<I>>) -> Polled<Seq<I>> {
        if self.slots.len() == 0 {
            Polled::Ended
        } else {
            self.polled(ready).verdict()
        }
    }

    /// The state after the poll calls `calls`, oldest first.
    pub open spec fn replayed(self, calls: Seq<Seq<Seq<I>>>) -> Self
        decreases calls.len(),
    {
        if calls.len() == 0 {
            self
        } else {
            self.replayed(calls.drop_last()).polled(calls.last())
        }
    }
}

/// The latest item that source `i` gave in the poll calls `calls`, if it
/// gave any.
pub open spec fn latest_of<I>(calls: Seq<Seq<Seq<I>>>, i: int) -> Option<I>
    decreases calls.len(),
{
    if calls.len() == 0 {
        None
    } else if calls.last()[i].len() > 0 {
        Some(calls.last()[i].last())
    } else {
        latest_of(calls.drop_last(), i)
    }
}

/// True where each of the poll calls `calls` speaks of `n` sources.
pub open spec fn calls_of<I>(calls: Seq<Seq<Seq<I>>>, n: nat) -> bool {
    forall|k: int| 0 <= k < calls.len() ==> (#[trigger] calls[k]).len() == n
}

/// True where some source gave an item in the poll call `ready`.
pub open spec fn some_gave<I>(ready: Seq<Seq<I>>, upto: int) -> bool {
    exists|i: int| 0 <= i < upto && (#[trigger] ready[i]).len() > 0
}

/// True where `out` holds, place by place, a clone of what `of` holds.
pub open spec fn clone_of<I: Clone>(out: Seq<I>, of: Seq<I>) -> bool {
    &&& out.len() == of.len()
    &&& forall|i: int|
        #![trigger of[i]]
        #![trigger out[i]]
        0 <= i < of.len() ==> cloned(of[i], out[i])
}

/// True where the poll result `out` is `verdict` with its items cloned.
pub open spec fn yields<I: Clone>(out: Polled<Vec<I>>, verdict: Polled<Seq<I>>) -> bool {
    match verdict {
        Polled::Item(s) => out matches Polled::Item(v) && clone_of(v@, s),
        Polled::Ended => out is Ended,
        Polled::Pending => out is Pending,
    }
}

/// True where the step `step` is `model` with its items cloned.
pub open spec fn directs<I: Clone>(step: Step<usize, Vec<I>>, model: Step<int, Seq<I>>) -> bool {
    match model {
        Step::Poll(idx) => step matches Step::Poll(next) && next == idx,
        Step::Done(verdict) => step matches Step::Done(out) && yields(out, verdict),
    }
}

/// Tracks the latest item of each of its sources.
pub struct CombineLatest<S, I> {
    streams: Vec<S>,
    last_state: Vec<Option<I>>,
    live_mode: bool,
    updated: bool,
}

impl<S, I> View for CombineLatest<S, I> {
    type V = Latest<I>;

    closed spec fn view(&self) -> Latest<I> {
        Latest { slots: self.last_state@, primed: self.live_mode, updated: self.updated }
    }
}

/// Makes the operator over the given sources, none of which has been heard of.
pub fn combine_latest<S, I>(streams: Vec<S>) -> (c: CombineLatest<S, I>) where I: Clone
    ensures
        c.sources() == streams@,
        c@ == Latest::<I>::fresh(streams@.len()),
        c.wf(),
{
    let mut last_state: Vec<Option<I>> = Vec::new();
    let mut i: usize = 0;
    while i < streams.len()
        invariant
            i <= streams.len(),
            last_state@ == Seq::new(i as nat, |k: int| None::<I>),
        decreases streams.len() - i,
    {
        last_state.push(None);
        i = i + 1;
    }
    proof {
        if last_state@.len() > 0 {
            assert(last_state@[0] is None);
        }
    }
    CombineLatest { last_state, streams, live_mode: false, updated: false }
}

impl<S, I> CombineLatest<S, I> {
    /// There is one slot per source, and the state is well formed.
    pub open spec fn wf(&self) -> bool {
        &&& self@.slots.len() == self.sources().len()
        &&& self@.wf()
    }

    /// The sources, in order.
    pub closed spec fn sources(&self) -> Seq<S> {
        self.streams@
    }

    /// The number of sources.
    pub fn len(&self) -> (n: usize)
        ensures
            n == self.sources().len(),
    {
        self.streams.len()
    }

    /// The source of index `idx`, to be polled.
    pub fn source_mut(&mut self, idx: usize) -> (source: &mut S)
        requires
            idx < old(self).sources().len(),
        ensures
            *source == old(self).sources()[idx as int],
            final(self).sources() == old(self).sources().update(idx as int, *final(source)),
            final(self)@ == old(self)@,
    {
        &mut self.streams[idx]
    }

    /// Starts a poll call: with no sources the operator has ended, else the
    /// first source is to be polled.
    pub fn begin_poll(&mut self) -> (step: Step<usize, Vec<I>>)
        requires
            old(self).wf(),
        ensures
            final(self).wf(),
            final(self).sources() == old(self).sources(),
            final(self)@ == old(self)@.started(),
            step == (if old(self).sources().len() == 0 {
                Step::<usize, Vec<I>>::Done(Polled::Ended)
            } else {
                Step::<usize, Vec<I>>::Poll(0)
            }),
    {
        self.updated = false;
        if self.streams.len() == 0 {
            Step::Done(Polled::Ended)
        } else {
            Step::Poll(0)
        }
    }
}

impl<S, I: Clone> CombineLatest<S, I> {
    /// Takes what polling source `idx` gave. An item goes into the source's
    /// slot and the same source is polled again; anything else moves on to the
    /// next source, and after the last one the poll call yields its verdict.
    pub fn on_polled(&mut self, idx: usize, polled: Polled<I>) -> (step: Step<usize, Vec<I>>)
        requires
            old(self).wf(),
            idx < old(self).sources().len(),
        ensures
            final(self).wf(),
            final(self).sources() == old(self).sources(),
            final(self)@ == old(self)@.answered(idx as int, polled),
            directs(step, old(self)@.follows(idx as int, polled)),
    {
        let n = self.last_state.len();
        match polled {
            Polled::Item(item) => {
                self.last_state.set(idx, Some(item));
                self.updated = true;
                if !self.live_mode {
                    self.live_mode = self.all_defined();
                }
                Step::Poll(idx)
            },
            _ => {
                if idx + 1 < n {
                    Step::Poll(idx + 1)
                } else if self.live_mode && self.updated {
                    Step::Done(Polled::Item(self.collect()))
                } else {
                    Step::Done(Polled::Pending)
                }
            },
        }
    }

    /// Whether every slot holds an item.
    fn all_defined(&self) -> (all: bool)
        ensures
            all == Latest::<I>::all_known(self@.slots),
    {
        let mut i: usize = 0;
        while i < self.last_state.len()
            invariant
                i <= self.last_state@.len(),
                forall|k: int| 0 <= k < i ==> (#[trigger] self.last_state@[k]) is Some,
            decreases self.last_state@.len() - i,
        {
            if self.last_state[i].is_none() {
                return false;
            }
            i = i + 1;
        }
        true
    }

    /// A clone of the item of every slot that holds one, in source order.
    fn collect(&self) -> (out: Vec<I>)
        requires
            Latest::<I>::all_known(self@.slots),
        ensures
            clone_of(out@, self@.snapshot()),
    {
        let mut out: Vec<I> = Vec::new();
        let mut i: usize = 0;
        while i < self.last_state.len()
            invariant
                i <= self.last_state@.len(),
                Latest::<I>::all_known(self.last_state@),
                out@.len() == i,
                forall|k: int| 0 <= k < i ==> cloned(#[trigger] self.last_state@[k]->0, out@[k]),
            decreases self.last_state@.len() - i,
        {
            match &self.last_state[i] {
                Some(item) => {
                    out.push(item.clone());
                },
                None => {},
            }
            i = i + 1;
        }
        out
    }
}

/// An item from a source leaves the state well formed, and an operator that
/// is primed stays so.
pub proof fn lemma_received_wf<I>(state: Latest<I>, idx: int, item: I)
    requires
        state.wf(),
        0 <= idx < state.slots.len(),
    ensures
        state.received(idx, item).wf(),
        state.primed ==> state.received(idx, item).primed,
{
}

/// Of the items that a source gives within one poll call only the last one
/// stays.
pub proof fn lemma_drained<I>(state: Latest<I>, idx: int, items: Seq<I>)
    requires
        state.wf(),
        0 <= idx < state.slots.len(),
    ensures
        state.drained(idx, items).wf(),
        state.drained(idx, items).slots == (if items.len() > 0 {
            state.slots.update(idx, Some(items.last()))
        } else {
            state.slots
        }),
        state.drained(idx, items).updated == (state.updated || items.len() > 0),
    decreases items.len(),
{
    if items.len() > 0 {
        let before = state.drained(idx, items.drop_last());
        lemma_drained(state, idx, items.drop_last());
        lemma_received_wf(before, idx, items.last());
        assert(before.received(idx, items.last()).slots =~= state.slots.update(
            idx,
            Some(items.last()),
        ));
    }
}

/// Within a poll call each source that has been drained holds its latest
/// item, and the others hold what they held.
pub proof fn lemma_swept<I>(state: Latest<I>, ready: Seq<Seq<I>>, upto: int)
    requires
        state.wf(),
        ready.len() == state.slots.len(),
        0 <= upto <= state.slots.len(),
    ensures
        state.swept(ready, upto).wf(),
        state.swept(ready, upto).slots.len() == state.slots.len(),
        forall|i: int|
            0 <= i < state.slots.len() ==> #[trigger] state.swept(ready, upto).slots[i] == (if i
                < upto && ready[i].len() > 0 {
                Some(ready[i].last())
            } else {
                state.slots[i]
            }),
        state.swept(ready, upto).updated == some_gave(ready, upto),
    decreases upto,
{
    if upto > 0 {
        let before = state.swept(ready, upto - 1);
        lemma_swept(state, ready, upto - 1);
        lemma_drained(before, upto - 1, ready[upto - 1]);
    }
}

/// One poll call: every source that gave items holds the last of them, and
/// a snapshot of all slots is yielded exactly where every source has been
/// heard of and one of them gave an item in this call.
pub proof fn lemma_poll_call<I>(state: Latest<I>, ready: Seq<Seq<I>>)
    requires
        state.wf(),
        ready.len() == state.slots.len(),
    ensures
        state.polled(ready).wf(),
        state.polled(ready).slots.len() == state.slots.len(),
        forall|i: int|
            0 <= i < state.slots.len() ==> #[trigger] state.polled(ready).slots[i] == (if ready[i].len()
                > 0 {
                Some(ready[i].last())
            } else {
                state.slots[i]
            }),
        state.poll_output(ready) == (if state.slots.len() == 0 {
            Polled::Ended
        } else if Latest::<I>::all_known(state.polled(ready).slots) && some_gave(
            ready,
            ready.len() as int,
        ) {
            Polled::Item(state.polled(ready).snapshot())
        } else {
            Polled::Pending
        }),
        state.primed ==> state.polled(ready).primed,
{
    lemma_swept(state, ready, state.slots.len() as int);
}

/// From any point of a poll call on, following its steps leads to what
/// `poll_output` says.
proof fn lemma_driven_from<I>(
    state: Latest<I>,
    ready: Seq<Seq<I>>,
    ends: Seq<Polled<I>>,
    idx: int,
    given: int,
)
    requires
        state.wf(),
        ready.len() == state.slots.len(),
        ends.len() == state.slots.len(),
        forall|i: int| 0 <= i < ends.len() ==> !((#[trigger] ends[i]) is Item),
        0 <= idx < state.slots.len(),
        0 <= given <= ready[idx].len(),
    ensures
        state.swept(ready, idx).drained(idx, ready[idx].take(given)).driven(
            ready,
            ends,
            idx,
            given,
        ) == state.poll_output(ready),
    decreases state.slots.len() - idx, ready[idx].len() - given,
{
    let items = ready[idx];
    let reached = state.swept(ready, idx).drained(idx, items.take(given));
    lemma_swept(state, ready, idx);
    lemma_drained(state.swept(ready, idx), idx, items.take(given));
    if given < items.len() {
        assert(items.take(given + 1).drop_last() =~= items.take(given));
        lemma_driven_from(state, ready, ends, idx, given + 1);
    } else {
        assert(items.take(given) =~= items);
        if idx + 1 < state.slots.len() {
            assert(ready[idx + 1].take(0) =~= Seq::<I>::empty());
            lemma_driven_from(state, ready, ends, idx + 1, 0);
        }
    }
}

/// Following the steps of a poll call from its start, source `i` giving the
/// items `ready[i]` and then the answer `ends[i]`, yields what `poll_output`
/// says, whether a source ends or has nothing ready.
pub proof fn lemma_steps_make_the_call<I>(
    state: Latest<I>,
    ready: Seq<Seq<I>>,
    ends: Seq<Polled<I>>,
)
    requires
        state.wf(),
        state.slots.len() > 0,
        ready.len() == state.slots.len(),
        ends.len() == state.slots.len(),
        forall|i: int| 0 <= i < ends.len() ==> !((#[trigger] ends[i]) is Item),
    ensures
        state.started().driven(ready, ends, 0, 0) == state.poll_output(ready),
{
    assert(ready[0].take(0) =~= Seq::<I>::empty());
    lemma_driven_from(state, ready, ends, 0, 0);
}

/// The operator ends exactly where it has no sources: the end of a source
/// leaves its slot as it is and never ends the operator.
pub proof fn lemma_ends_only_without_sources<I>(state: Latest<I>, ready: Seq<Seq<I>>)
    ensures
        state.poll_output(ready) is Ended <==> state.slots.len() == 0,
{
}

/// After any number of poll calls on a new operator each slot holds the
/// latest item that its source gave in any of them.
pub proof fn lemma_replayed<I>(n: nat, calls: Seq<Seq<Seq<I>>>)
    requires
        calls_of(calls, n),
    ensures
        Latest::<I>::fresh(n).replayed(calls).wf(),
        Latest::<I>::fresh(n).replayed(calls).slots.len() == n,
        forall|i: int|
            0 <= i < n ==> #[trigger] Latest::<I>::fresh(n).replayed(calls).slots[i] == latest_of(
                calls,
                i,
            ),
    decreases calls.len(),
{
    let fresh = Latest::<I>::fresh(n);
    if calls.len() > 0 {
        let earlier = calls.drop_last();
        lemma_replayed(n, earlier);
        lemma_poll_call(fresh.replayed(earlier), calls.last());
    } else if n > 0 {
        assert(fresh.slots[0] is None);
    }
}

/// No snapshot is yielded before every source has given an item; from then
/// on each poll call in which a source gives an item yields one snapshot,
/// which holds the latest item of every source, and a call in which none
/// gives an item yields nothing.
pub proof fn lemma_snapshot_per_update<I>(n: nat, calls: Seq<Seq<Seq<I>>>)
    requires
        n > 0,
        calls.len() > 0,
        calls_of(calls, n),
    ensures
        Latest::<I>::fresh(n).replayed(calls.drop_last()).poll_output(calls.last()) == (if (forall|
            i: int,
        |
            0 <= i < n ==> (#[trigger] latest_of(calls, i)) is Some) && some_gave(
            calls.last(),
            n as int,
        ) {
            Polled::Item(Seq::new(n, |i: int| latest_of(calls, i)->0))
        } else {
            Polled::Pending
        }),
{
    let earlier = calls.drop_last();
    let before = Latest::<I>::fresh(n).replayed(earlier);
    let after = before.polled(calls.last());
    lemma_replayed(n, earlier);
    lemma_replayed(n, calls);
    lemma_poll_call(before, calls.last());
    if Latest::<I>::all_known(after.slots) {
        assert forall|i: int| 0 <= i < n implies (#[trigger] latest_of(calls, i)) is Some by {
            assert(after.slots[i] is Some);
        }
        assert(after.snapshot() =~= Seq::new(n, |i: int| latest_of(calls, i)->0));
    }
}

} // verus!
