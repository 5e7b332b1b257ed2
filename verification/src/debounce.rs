//! Debounce: an item is let through once no newer one has come for a while.
//!
//! Time is a count of ticks of a clock that never runs backwards. The caller
//! reads the clock and hands the reading in with each poll.

use crate::polled::Polled;
use vstd::prelude::*;

verus! {

/// A one-shot timer: it fires once its deadline is reached, and arming it
/// again replaces the deadline it had.
pub struct Timer {
    deadline: u64,
}

impl Timer {
    /// The tick at which the timer fires.
    pub closed spec fn at(&self) -> u64 {
        self.deadline
    }

    /// A timer that fires at `deadline`.
    pub fn armed(deadline: u64) -> (timer: Timer)
        ensures
            timer.at() == deadline,
    {
        Timer { deadline }
    }

    /// Arms the timer for `deadline`, whatever it was armed for.
    pub fn arm(&mut self, deadline: u64)
        ensures
            final(self).at() == deadline,
    {
        self.deadline = deadline;
    }

    /// The tick at which the timer fires.
    pub fn deadline(&self) -> (deadline: u64)
        ensures
            deadline == self.at(),
    {
        self.deadline
    }

    /// Whether the timer has fired by the tick `now`.
    pub fn fired(&self, now: u64) -> (fired: bool)
        ensures
            fired == (now >= self.at()),
    {
        now >= self.deadline
    }
}

/// The state of a debounce operator as plain values.
pub struct Debounced<Item> {
    /// The latest item that has come and has not been let through yet.
    pub pending: Option<Item>,
    /// The tick at which the timer fires.
    pub deadline: u64,
    /// For how many ticks an item is held back.
    pub duration: u64,
}

impl<Item> Debounced<Item> {
    /// The state of a new operator: nothing is pending, and the timer runs
    /// from tick zero.
    pub open spec fn fresh(duration: u64) -> Self {
        Debounced { pending: None, deadline: duration, duration }
    }

    /// The state after `item` has come at the tick `now`: it takes the place
    /// of what was pending, and the timer starts anew.
    pub open spec fn arrived(self, item: Item, now: u64) -> Self
        recommends
            now + self.duration <= u64::MAX,
    {
        Debounced { pending: Some(item), deadline: (now + self.duration) as u64, ..self }
    }

    /// The state once what was pending has been let through.
    pub open spec fn flushed(self) -> Self {
        Debounced { pending: None, ..self }
    }

    /// Whether the timer lets the pending item through at the tick `now`.
    pub open spec fn due(self, now: u64) -> bool {
        self.pending is Some && now >= self.deadline
    }

    /// The state as the upstream's answer leaves it, before the timer is asked.
    pub open spec fn heard(self, upstream: Polled<Item>, now: u64) -> Self {
        match upstream {
            Polled::Item(item) => self.arrived(item, now),
            _ => self,
        }
    }

    /// What a poll at the tick `now` yields, the upstream having answered
    /// `upstream`.
    pub open spec fn output(self, upstream: Polled<Item>, now: u64) -> Polled<Item> {
        match upstream {
            Polled::Ended => match self.pending {
                Some(item) => Polled::Item(item),
                None => Polled::Ended,
            },
            _ => if self.heard(upstream, now).due(now) {
                Polled::Item(self.heard(upstream, now).pending->0)
            } else {
                Polled::Pending
            },
        }
    }

    /// The state after that poll.
    pub open spec fn next(self, upstream: Polled<Item>, now: u64) -> Self {
        match upstream {
            Polled::Ended => self.flushed(),
            _ => if self.heard(upstream, now).due(now) {
                self.heard(upstream, now).flushed()
            } else {
                self.heard(upstream, now)
            },
        }
    }
}

/// One poll of the operator: what the upstream answered, and the tick at
/// which it was asked.
pub struct Timed<Item> {
    /// What the upstream answered.
    pub upstream: Polled<Item>,
    /// The tick of the poll.
    pub now: u64,
}

impl<Item> Debounced<Item> {
    /// The state after the polls `polls`, oldest first.
    pub open spec fn after(self, polls: Seq<Timed<Item>>) -> Self
        decreases polls.len(),
    {
        if polls.len() == 0 {
            self
        } else {
            self.after(polls.drop_last()).next(polls.last().upstream, polls.last().now)
        }
    }

    /// What poll `k` of `polls` yields.
    pub open spec fn yield_at(self, polls: Seq<Timed<Item>>, k: int) -> Polled<Item> {
        self.after(polls.take(k)).output(polls[k].upstream, polls[k].now)
    }
}

/// True where the clock never runs backwards from one poll to the next.
pub open spec fn rising<Item>(polls: Seq<Timed<Item>>) -> bool {
    forall|j: int, k: int|
        0 <= j <= k < polls.len() ==> (#[trigger] polls[j]).now <= (#[trigger] polls[k]).now
}

/// True where no item comes in the polls after `from` and before `to`.
pub open spec fn quiet<Item>(polls: Seq<Timed<Item>>, from: int, to: int) -> bool {
    forall|m: int|
        from < m < to && 0 <= m < polls.len() ==> !((#[trigger] polls[m]).upstream is Item)
}

/// True where `polls` holds one burst of items that ends with poll `last`:
/// the upstream does not end, an item comes less than `duration` ticks after
/// the item before it, and none comes after poll `last`.
pub open spec fn burst<Item>(polls: Seq<Timed<Item>>, last: int, duration: u64) -> bool {
    &&& rising(polls)
    &&& 0 <= last < polls.len()
    &&& polls[last].upstream is Item
    &&& quiet(polls, last, polls.len() as int)
    &&& forall|k: int|
        0 <= k < polls.len() ==> {
            &&& !((#[trigger] polls[k]).upstream is Ended)
            &&& polls[k].upstream is Item ==> polls[k].now + duration <= u64::MAX
        }
    &&& forall|j: int, k: int|
        0 <= j < k <= last && polls[j].upstream is Item && polls[k].upstream is Item
            && #[trigger] quiet(polls, j, k) ==> polls[k].now - polls[j].now < duration
}

/// Holds back the items of its upstream until the upstream has been quiet
/// for the debounce time.
pub struct Debounce<St, Item> {
    value: St,
    delay: Timer,
    debounce_time: u64,
    last_state: Option<Item>,
}

impl<St, Item> View for Debounce<St, Item> {
    type V = Debounced<Item>;

    closed spec fn view(&self) -> Debounced<Item> {
        Debounced {
            pending: self.last_state,
            deadline: self.delay.at(),
            duration: self.debounce_time,
        }
    }
}

impl<St, Item> Debounce<St, Item> {
    /// The upstream.
    pub closed spec fn source(&self) -> St {
        self.value
    }

    /// Makes the operator over `stream`, with the timer armed for
    /// `debounce_time` ticks after tick zero.
    pub fn new(stream: St, debounce_time: u64) -> (d: Self)
        ensures
            d.source() == stream,
            d@ == Debounced::<Item>::fresh(debounce_time),
    {
        Debounce {
            value: stream,
            delay: Timer::armed(debounce_time),
            debounce_time,
            last_state: None,
        }
    }

    /// The upstream, to be looked at.
    pub fn source_ref(&self) -> (source: &St)
        ensures
            *source == self.source(),
    {
        &self.value
    }

    /// The upstream, to be polled.
    pub fn source_mut(&mut self) -> (source: &mut St)
        ensures
            *source == old(self).source(),
            final(self).source() == *final(source),
            final(self)@ == old(self)@,
    {
        &mut self.value
    }

    /// The tick at which the timer fires.
    pub fn deadline(&self) -> (deadline: u64)
        ensures
            deadline == self@.deadline,
    {
        self.delay.deadline()
    }

    /// For how many ticks an item is held back.
    pub fn debounce_time(&self) -> (duration: u64)
        ensures
            duration == self@.duration,
    {
        self.debounce_time
    }

    /// Whether an item is held back at present.
    pub fn has_pending(&self) -> (pending: bool)
        ensures
            pending == (self@.pending is Some),
    {
        self.last_state.is_some()
    }

    /// One poll at the tick `now`, the upstream having answered `upstream`.
    ///
    /// An item takes the place of what was pending and starts the timer anew.
    /// The end of the upstream lets the pending item through at once, or ends
    /// the operator where nothing is pending. After anything but the end, the
    /// pending item is let through if the timer has fired.
    pub fn poll_next(&mut self, upstream: Polled<Item>, now: u64) -> (out: Polled<Item>)
        requires
            upstream is Item ==> now + old(self)@.duration <= u64::MAX,
        ensures
            final(self).source() == old(self).source(),
            final(self)@ == old(self)@.next(upstream, now),
            out == old(self)@.output(upstream, now),
    {
        match upstream {
            Polled::Item(item) => {
                self.delay.arm(now + self.debounce_time);
                self.last_state = Some(item);
            },
            Polled::Ended => {
                return match self.last_state.take() {
                    Some(item) => Polled::Item(item),
                    None => Polled::Ended,
                };
            },
            Polled::Pending => {},
        }
        if self.delay.fired(now) {
            match self.last_state.take() {
                Some(item) => Polled::Item(item),
                None => Polled::Pending,
            }
        } else {
            Polled::Pending
        }
    }
}

/// The place of the latest item that came before poll `k`, or -1.
spec fn arrival_before<Item>(polls: Seq<Timed<Item>>, k: int) -> int
    decreases k,
{
    if k <= 0 {
        -1
    } else if polls[k - 1].upstream is Item {
        k - 1
    } else {
        arrival_before(polls, k - 1)
    }
}

proof fn lemma_arrival_before<Item>(polls: Seq<Timed<Item>>, k: int)
    requires
        0 <= k <= polls.len(),
    ensures
        -1 <= arrival_before(polls, k) < k,
        arrival_before(polls, k) >= 0 ==> polls[arrival_before(polls, k)].upstream is Item,
        quiet(polls, arrival_before(polls, k), k),
    decreases k,
{
    if k > 0 && !(polls[k - 1].upstream is Item) {
        lemma_arrival_before(polls, k - 1);
    }
}

/// The place of the first item that comes after poll `k`, where one comes
/// at poll `last`.
spec fn arrival_after<Item>(polls: Seq<Timed<Item>>, k: int, last: int) -> int
    decreases last - k,
{
    if k + 1 >= last {
        last
    } else if polls[k + 1].upstream is Item {
        k + 1
    } else {
        arrival_after(polls, k + 1, last)
    }
}

proof fn lemma_arrival_after<Item>(polls: Seq<Timed<Item>>, k: int, last: int)
    requires
        -1 <= k < last < polls.len(),
        polls[last].upstream is Item,
    ensures
        k < arrival_after(polls, k, last) <= last,
        polls[arrival_after(polls, k, last)].upstream is Item,
        quiet(polls, k, arrival_after(polls, k, last)),
    decreases last - k,
{
    if k + 1 < last && !(polls[k + 1].upstream is Item) {
        lemma_arrival_after(polls, k + 1, last);
    }
}

/// True where none of the polls before poll `k` yields an item.
spec fn silent<Item>(state: Debounced<Item>, polls: Seq<Timed<Item>>, k: int) -> bool {
    forall|j: int| 0 <= j < k ==> !(#[trigger] state.yield_at(polls, j) is Item)
}

/// True where poll `j` is the one poll before poll `k` that yields an item,
/// the item of poll `last`, a debounce time or more after it came.
spec fn once_at<Item>(
    state: Debounced<Item>,
    polls: Seq<Timed<Item>>,
    last: int,
    k: int,
    j: int,
) -> bool {
    &&& last <= j < k
    &&& state.yield_at(polls, j) == polls[last].upstream
    &&& polls[j].now >= polls[last].now + state.duration
    &&& forall|i: int| 0 <= i < k && i != j ==> !(#[trigger] state.yield_at(polls, i) is Item)
}

/// What holds before poll `k` of a burst that ends with poll `last`.
spec fn burst_inv<Item>(
    state: Debounced<Item>,
    polls: Seq<Timed<Item>>,
    last: int,
    k: int,
) -> bool {
    let reached = state.after(polls.take(k));
    let came = arrival_before(polls, k);
    &&& reached.duration == state.duration
    &&& if k <= last {
        &&& silent(state, polls, k)
        &&& if came < 0 {
            reached.pending is None
        } else {
            &&& reached.pending is Some
            &&& Polled::Item(reached.pending->0) == polls[came].upstream
            &&& reached.deadline == polls[came].now + state.duration
        }
    } else {
        ||| {
            &&& reached.pending is Some
            &&& Polled::Item(reached.pending->0) == polls[last].upstream
            &&& reached.deadline == polls[last].now + state.duration
            &&& silent(state, polls, k)
            &&& forall|j: int|
                last <= j < k ==> (#[trigger] polls[j]).now < polls[last].now + state.duration
        }
        ||| {
            &&& reached.pending is None
            &&& exists|j: int| once_at(state, polls, last, k, j)
        }
    }
}

/// Poll `i` leaves the state that `next` gives and yields what `output` gives.
proof fn lemma_unfold_poll<Item>(state: Debounced<Item>, polls: Seq<Timed<Item>>, i: int)
    requires
        0 <= i < polls.len(),
    ensures
        state.after(polls.take(i + 1)) == state.after(polls.take(i)).next(
            polls[i].upstream,
            polls[i].now,
        ),
{
    assert(polls.take(i + 1).drop_last() =~= polls.take(i));
}

/// Within the burst a poll comes less than `duration` ticks after the item
/// that came last.
proof fn lemma_burst_not_due<Item>(polls: Seq<Timed<Item>>, last: int, duration: u64, i: int)
    requires
        burst(polls, last, duration),
        0 <= i < last,
    ensures
        polls[i].upstream is Item ==> duration > 0,
        !(polls[i].upstream is Item) && arrival_before(polls, i) >= 0 ==> polls[i].now
            < polls[arrival_before(polls, i)].now + duration,
{
    lemma_arrival_before(polls, i);
    lemma_arrival_after(polls, i, last);
    let came = arrival_before(polls, i);
    let then = arrival_after(polls, i, last);
    if !(polls[i].upstream is Item) && came >= 0 {
        // No item comes between the two, and they are less than `duration`
        // ticks apart.
        assert(quiet(polls, came, then));
    }
}

/// A poll that does not come late enough yields nothing.
proof fn lemma_early_step<Item>(
    state: Debounced<Item>,
    polls: Seq<Timed<Item>>,
    last: int,
    i: int,
)
    requires
        0 <= i < last < polls.len(),
        burst_inv(state, polls, last, i),
        !(polls[i].upstream is Ended),
        polls[i].upstream is Item ==> state.duration > 0 && polls[i].now + state.duration
            <= u64::MAX,
        !(polls[i].upstream is Item) && arrival_before(polls, i) >= 0 ==> polls[i].now
            < polls[arrival_before(polls, i)].now + state.duration,
    ensures
        burst_inv(state, polls, last, i + 1),
{
    lemma_unfold_poll(state, polls, i);
}

/// No poll before the last item of the burst comes late enough to yield.
proof fn lemma_burst_early<Item>(
    state: Debounced<Item>,
    polls: Seq<Timed<Item>>,
    last: int,
    i: int,
)
    requires
        burst(polls, last, state.duration),
        0 <= i < last,
        burst_inv(state, polls, last, i),
    ensures
        burst_inv(state, polls, last, i + 1),
{
    lemma_burst_not_due(polls, last, state.duration, i);
    lemma_early_step(state, polls, last, i);
}

/// The poll that brings the last item of the burst yields it only where
/// nothing is held back at all.
proof fn lemma_burst_last<Item>(state: Debounced<Item>, polls: Seq<Timed<Item>>, last: int)
    requires
        burst(polls, last, state.duration),
        burst_inv(state, polls, last, last),
    ensures
        burst_inv(state, polls, last, last + 1),
{
    lemma_unfold_poll(state, polls, last);
    if state.duration == 0 {
        assert(once_at(state, polls, last, last + 1, last));
    }
}

/// After the burst the first poll that comes late enough yields its last
/// item, and no other poll yields anything.
proof fn lemma_burst_late<Item>(
    state: Debounced<Item>,
    polls: Seq<Timed<Item>>,
    last: int,
    i: int,
)
    requires
        burst(polls, last, state.duration),
        last < i < polls.len(),
        burst_inv(state, polls, last, i),
    ensures
        burst_inv(state, polls, last, i + 1),
{
    lemma_unfold_poll(state, polls, i);
    if state.after(polls.take(i)).pending is Some {
        if polls[i].now >= polls[last].now + state.duration {
            assert(once_at(state, polls, last, i + 1, i));
        }
    } else {
        let j = choose|j: int| once_at(state, polls, last, i, j);
        assert(once_at(state, polls, last, i + 1, j));
    }
}

proof fn lemma_burst_prefix<Item>(
    state: Debounced<Item>,
    polls: Seq<Timed<Item>>,
    last: int,
    k: int,
)
    requires
        state.pending is None,
        burst(polls, last, state.duration),
        0 <= k <= polls.len(),
    ensures
        burst_inv(state, polls, last, k),
    decreases k,
{
    if k > 0 {
        let i = k - 1;
        lemma_burst_prefix(state, polls, last, i);
        if i < last {
            lemma_burst_early(state, polls, last, i);
        } else if i == last {
            lemma_burst_last(state, polls, last);
        } else {
            lemma_burst_late(state, polls, last, i);
        }
    }
}

/// A burst of items yields one item: the last one of the burst, once, at a
/// poll that comes a debounce time or more after that item came, and at the
/// first such poll at the latest.
pub proof fn lemma_burst_yields_last_once<Item>(
    state: Debounced<Item>,
    polls: Seq<Timed<Item>>,
    last: int,
)
    requires
        state.pending is None,
        burst(polls, last, state.duration),
    ensures
        forall|k: int|
            0 <= k < polls.len() && #[trigger] state.yield_at(polls, k) is Item ==> {
                &&& state.yield_at(polls, k) == polls[last].upstream
                &&& last <= k
                &&& polls[k].now >= polls[last].now + state.duration
            },
        forall|j: int, k: int|
            0 <= j < k < polls.len() ==> !(#[trigger] state.yield_at(polls, j) is Item
                && #[trigger] state.yield_at(polls, k) is Item),
        forall|k: int|
            last <= k < polls.len() && (#[trigger] polls[k]).now >= polls[last].now
                + state.duration ==> exists|j: int|
                last <= j <= k && #[trigger] state.yield_at(polls, j) is Item,
{
    let n = polls.len() as int;
    lemma_burst_prefix(state, polls, last, n);
    assert forall|k: int|
        last <= k < polls.len() && (#[trigger] polls[k]).now >= polls[last].now
            + state.duration implies exists|j: int|
        last <= j <= k && #[trigger] state.yield_at(polls, j) is Item by {
        lemma_burst_prefix(state, polls, last, k + 1);
    }
}

/// Once the upstream has ended, the operator ends: at once where nothing is
/// held back, else after it has let the pending item through.
pub proof fn lemma_end_follows_flush<Item>(state: Debounced<Item>, now: u64, later: u64)
    ensures
        state.pending is None ==> state.output(Polled::Ended, now) is Ended,
        state.pending is Some ==> state.output(Polled::Ended, now) == Polled::Item(
            state.pending->0,
        ),
        state.next(Polled::Ended, now).output(Polled::Ended, later) is Ended,
{
}

} // verus!
