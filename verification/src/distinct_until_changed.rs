//! Distinct-until-changed: an item equal to the one let through last is held back.

use crate::polled::Polled;
use vstd::prelude::*;
use vstd::std_specs::cmp::PartialEqSpec;

verus! {

/// Whether `item` is let through when `last` was let through last: the first
/// item always is, a later one where it does not equal `last`.
pub open spec fn differs<Item: PartialEq>(last: Option<Item>, item: Item) -> bool {
    match last {
        None => true,
        Some(l) => !item.eq_spec(&l),
    }
}

/// Lets an item of its upstream through unless it equals the item let
/// through last.
pub struct DistinctUntilChanged<St, Item> {
    stream: St,
    last: Option<Item>,
}

impl<St, Item> DistinctUntilChanged<St, Item> {
    /// The upstream.
    pub closed spec fn source(&self) -> St {
        self.stream
    }

    /// The item let through last, if any was.
    pub closed spec fn last(&self) -> Option<Item> {
        self.last
    }

    /// Makes the operator over `stream`, which has let nothing through yet.
    pub fn new(stream: St) -> (d: Self)
        ensures
            d.source() == stream,
            d.last() is None,
    {
        DistinctUntilChanged { stream, last: None }
    }

    /// The upstream, to be looked at.
    pub fn source_ref(&self) -> (source: &St)
        ensures
            *source == self.source(),
    {
        &self.stream
    }

    /// The upstream, to be polled.
    pub fn source_mut(&mut self) -> (source: &mut St)
        ensures
            *source == old(self).source(),
            final(self).source() == *final(source),
            final(self).last() == old(self).last(),
    {
        &mut self.stream
    }
}

impl<St, Item: Clone + PartialEq> DistinctUntilChanged<St, Item> {
    /// One poll, the upstream having answered `upstream`.
    ///
    /// An item that differs from the one let through last is let through and
    /// a clone of it is kept; one that equals it is held back, and the poll
    /// yields nothing. The end of the upstream ends the operator.
    pub fn poll_next(&mut self, upstream: Polled<Item>) -> (out: Polled<Item>)
        ensures
            final(self).source() == old(self).source(),
            match upstream {
                Polled::Item(item) => {
                    &&& Item::obeys_eq_spec() ==> (out is Item <==> differs(old(self).last(), item))
                    &&& old(self).last() is None ==> out is Item
                    &&& old(self).last() matches Some(last) ==> exists|changed: bool|
                        #[trigger] call_ensures(Item::ne, (&item, &last), changed) && (out is Item
                            <==> changed)
                    &&& if out is Item {
                        &&& out == Polled::Item(item)
                        &&& final(self).last() matches Some(kept) && cloned(item, kept)
                    } else {
                        &&& out is Pending
                        &&& final(self).last() == old(self).last()
                    }
                },
                Polled::Ended => out is Ended && final(self).last() == old(self).last(),
                Polled::Pending => out is Pending && final(self).last() == old(self).last(),
            },
    {
        match upstream {
            Polled::Item(item) => {
                let changed = match &self.last {
                    None => true,
                    Some(last) => item != *last,
                };
                if changed {
                    self.last = Some(item.clone());
                    Polled::Item(item)
                } else {
                    Polled::Pending
                }
            },
            Polled::Ended => Polled::Ended,
            Polled::Pending => Polled::Pending,
        }
    }
}

/// The item let through last once the items `input` have come, one poll
/// each, where `last` was let through last before them.
pub open spec fn kept<Item: PartialEq>(last: Option<Item>, input: Seq<Item>) -> Option<Item>
    decreases input.len(),
{
    if input.len() == 0 {
        last
    } else if differs(kept(last, input.drop_last()), input.last()) {
        Some(input.last())
    } else {
        kept(last, input.drop_last())
    }
}

/// The items let through of `input`, in order.
pub open spec fn outputs<Item: PartialEq>(last: Option<Item>, input: Seq<Item>) -> Seq<Item>
    decreases input.len(),
{
    if input.len() == 0 {
        Seq::empty()
    } else if differs(kept(last, input.drop_last()), input.last()) {
        outputs(last, input.drop_last()).push(input.last())
    } else {
        outputs(last, input.drop_last())
    }
}

/// True where the equality of `Item` holds of two values exactly where they
/// are the same value.
pub open spec fn eq_is_identity<Item: PartialEq>() -> bool {
    forall|x: Item, y: Item| #[trigger] x.eq_spec(&y) <==> x == y
}

/// Whether a run of equal items starts at place `i` of `s`.
pub open spec fn run_start<T>(s: Seq<T>, i: int) -> bool {
    i == 0 || s[i - 1] != s[i]
}

/// The first item of each run of equal items of `s`, in order.
pub open spec fn distinct<T>(s: Seq<T>) -> Seq<T>
    decreases s.len(),
{
    if s.len() == 0 {
        Seq::empty()
    } else if run_start(s, s.len() - 1) {
        distinct(s.drop_last()).push(s.last())
    } else {
        distinct(s.drop_last())
    }
}

/// The places of `s` at which a run starts, rising.
pub open spec fn starts<T>(s: Seq<T>) -> Seq<int>
    decreases s.len(),
{
    if s.len() == 0 {
        Seq::empty()
    } else if run_start(s, s.len() - 1) {
        starts(s.drop_last()).push(s.len() - 1)
    } else {
        starts(s.drop_last())
    }
}

/// True where no item of `s` equals the one before it.
pub open spec fn no_repeat<T>(s: Seq<T>) -> bool {
    forall|i: int| 0 < i < s.len() ==> s[i - 1] != #[trigger] s[i]
}

/// True where `idx` names places of `s`, rising.
pub open spec fn picks<T>(idx: Seq<int>, s: Seq<T>) -> bool {
    &&& forall|k: int| 0 <= k < idx.len() ==> 0 <= #[trigger] idx[k] < s.len()
    &&& forall|j: int, k: int| 0 <= j < k < idx.len() ==> #[trigger] idx[j] < #[trigger] idx[k]
}

/// The items of `s` at the places `idx`.
pub open spec fn picked<T>(idx: Seq<int>, s: Seq<T>) -> Seq<T> {
    Seq::new(idx.len(), |k: int| s[idx[k]])
}

/// Where equality is identity, the item let through last is the item that
/// came last.
pub proof fn lemma_kept_is_latest<Item: PartialEq>(input: Seq<Item>)
    requires
        eq_is_identity::<Item>(),
    ensures
        kept(None::<Item>, input) == (if input.len() == 0 {
            None::<Item>
        } else {
            Some(input.last())
        }),
    decreases input.len(),
{
    if input.len() > 0 {
        lemma_kept_is_latest(input.drop_last());
    }
}

/// A new operator lets through exactly the first item of each run of equal
/// items, where equality is identity.
pub proof fn lemma_outputs_are_distinct<Item: PartialEq>(input: Seq<Item>)
    requires
        eq_is_identity::<Item>(),
    ensures
        outputs(None::<Item>, input) == distinct(input),
    decreases input.len(),
{
    if input.len() > 0 {
        let before = input.drop_last();
        lemma_outputs_are_distinct(before);
        lemma_kept_is_latest(before);
    }
}

/// The runs of a sequence that is not empty end with its last item.
pub proof fn lemma_distinct_last<T>(s: Seq<T>)
    requires
        s.len() > 0,
    ensures
        distinct(s).len() > 0,
        distinct(s).last() == s.last(),
    decreases s.len(),
{
    if s.len() > 1 {
        lemma_distinct_last(s.drop_last());
    }
}

/// No two neighbours of `distinct(s)` are equal.
pub proof fn lemma_distinct_no_repeat<T>(s: Seq<T>)
    ensures
        no_repeat(distinct(s)),
    decreases s.len(),
{
    if s.len() > 0 {
        let before = s.drop_last();
        lemma_distinct_no_repeat(before);
        if before.len() > 0 {
            lemma_distinct_last(before);
        }
    }
}

/// `distinct(s)` keeps the order of `s` and holds the first item of each of
/// its runs, and no other: it is `s` at the places where a run starts.
pub proof fn lemma_distinct_picks_run_starts<T>(s: Seq<T>)
    ensures
        picks(starts(s), s),
        distinct(s) == picked(starts(s), s),
        forall|k: int| 0 <= k < starts(s).len() ==> run_start(s, #[trigger] starts(s)[k]),
        forall|i: int| 0 <= i < s.len() && run_start(s, i) ==> starts(s).contains(i),
    decreases s.len(),
{
    if s.len() > 0 {
        let before = s.drop_last();
        let n = s.len() - 1;
        lemma_distinct_picks_run_starts(before);
        let prev = starts(before);
        let now = starts(s);
        assert forall|k: int| 0 <= k < now.len() implies run_start(s, #[trigger] now[k]) by {}
        assert forall|i: int| 0 <= i < s.len() && run_start(s, i) implies now.contains(i) by {
            if i < n {
                assert(run_start(before, i));
                let k = choose|k: int| 0 <= k < prev.len() && prev[k] == i;
                assert(now[k] == i);
            } else {
                assert(now[now.len() - 1] == i);
            }
        }
    }
}

/// A sequence without equal neighbours is its own `distinct`.
pub proof fn lemma_distinct_of_no_repeat<T>(s: Seq<T>)
    requires
        no_repeat(s),
    ensures
        distinct(s) == s,
    decreases s.len(),
{
    if s.len() > 0 {
        let before = s.drop_last();
        assert forall|i: int| 0 < i < before.len() implies before[i - 1] != #[trigger] before[i] by {}
        lemma_distinct_of_no_repeat(before);
    }
}

/// Taking `distinct` twice gives what taking it once gives.
pub proof fn lemma_distinct_idempotent<T>(s: Seq<T>)
    ensures
        distinct(distinct(s)) == distinct(s),
{
    lemma_distinct_no_repeat(s);
    lemma_distinct_of_no_repeat(distinct(s));
}

/// Feeding what one operator lets through to a second one changes nothing,
/// where equality is identity.
pub proof fn lemma_outputs_idempotent<Item: PartialEq>(input: Seq<Item>)
    requires
        eq_is_identity::<Item>(),
    ensures
        outputs(None::<Item>, outputs(None::<Item>, input)) == outputs(None::<Item>, input),
{
    lemma_outputs_are_distinct(input);
    lemma_outputs_are_distinct(distinct(input));
    lemma_distinct_idempotent(input);
}

/// `distinct(s)` is as long as a choice of items of `s`, in order and
/// without equal neighbours, can be.
pub proof fn lemma_distinct_maximal<T>(s: Seq<T>, idx: Seq<int>)
    requires
        picks(idx, s),
        no_repeat(picked(idx, s)),
    ensures
        idx.len() <= distinct(s).len(),
    decreases s.len(),
{
    if idx.len() > 0 {
        let n = s.len() - 1;
        let m = idx.len() - 1;
        let before = s.drop_last();
        if idx[m] < n {
            assert(picks(idx, before));
            assert(picked(idx, before) =~= picked(idx, s));
            lemma_distinct_maximal(before, idx);
        } else {
            let head = idx.drop_last();
            assert(picks(head, before));
            let chosen = picked(idx, s);
            assert(no_repeat(picked(head, before))) by {
                assert forall|i: int| 0 < i < head.len() implies picked(head, before)[i - 1] != #[trigger] picked(head, before)[i] by {
                    assert(chosen[i - 1] != chosen[i]);
                }
            }
            if run_start(s, n) {
                lemma_distinct_maximal(before, head);
            } else {
                // The last item of `s` equals the one before it, which can be
                // chosen in its place.
                if m > 0 && idx[m - 1] == n - 1 {
                    assert(chosen[m - 1] != chosen[m]);
                    assert(false);
                }
                let moved = head.push(n - 1);
                assert(picks(moved, before));
                assert(picked(moved, before) =~= chosen);
                lemma_distinct_maximal(before, moved);
            }
        }
    }
}

} // verus!
