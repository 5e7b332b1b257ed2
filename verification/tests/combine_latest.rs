use std::collections::VecDeque;
use stream_ops::combine_latest::{combine_latest, CombineLatest};
use stream_ops::polled::{Polled, Step};

/// A source that answers its polls from a script and has nothing ready once
/// the script is used up.
struct Script {
    answers: VecDeque<Polled<u32>>,
    polls: usize,
}

impl Script {
    fn new() -> Script {
        Script { answers: VecDeque::new(), polls: 0 }
    }

    fn then(&mut self, answers: Vec<Polled<u32>>) {
        self.answers.extend(answers);
    }

    fn poll(&mut self) -> Polled<u32> {
        self.polls += 1;
        self.answers.pop_front().unwrap_or(Polled::Pending)
    }
}

/// One poll call: polls what the operator asks for until it is done.
fn poll(op: &mut CombineLatest<Script, u32>) -> Polled<Vec<u32>> {
    let mut step = op.begin_poll();
    loop {
        match step {
            Step::Poll(idx) => {
                assert!(idx < op.len());
                let answer = op.source_mut(idx).poll();
                step = op.on_polled(idx, answer);
            }
            Step::Done(out) => return out,
        }
    }
}

fn item(v: u32) -> Polled<u32> {
    Polled::Item(v)
}

#[test]
fn combine_latest_waits_for_every_source() {
    // Sources A = [1, 2] and B = [10], one item per poll call.
    let mut op = combine_latest(vec![Script::new(), Script::new()]);
    op.source_mut(0).then(vec![item(1)]);
    assert_eq!(poll(&mut op), Polled::Pending);
    op.source_mut(1).then(vec![item(10)]);
    assert_eq!(poll(&mut op), Polled::Item(vec![1, 10]));
    op.source_mut(0).then(vec![item(2)]);
    assert_eq!(poll(&mut op), Polled::Item(vec![2, 10]));
}

#[test]
fn combine_latest_primes_within_one_call() {
    let mut op = combine_latest(vec![Script::new(), Script::new()]);
    op.source_mut(0).then(vec![item(1)]);
    op.source_mut(1).then(vec![item(10)]);
    assert_eq!(poll(&mut op), Polled::Item(vec![1, 10]));
}

#[test]
fn combine_latest_without_sources_ends_at_once() {
    let mut op: CombineLatest<Script, u32> = combine_latest(Vec::new());
    assert_eq!(op.len(), 0);
    assert_eq!(op.begin_poll(), Step::Done(Polled::Ended));
    assert_eq!(poll(&mut op), Polled::Ended);
    assert_eq!(poll(&mut op), Polled::Ended);
}

#[test]
fn combine_latest_keeps_only_the_last_of_a_burst() {
    let mut op = combine_latest(vec![Script::new(), Script::new()]);
    op.source_mut(0).then(vec![item(1), item(2), item(3)]);
    op.source_mut(1).then(vec![item(10), item(20)]);
    assert_eq!(poll(&mut op), Polled::Item(vec![3, 20]));
    // Nothing was queued: the next call has nothing new.
    assert_eq!(poll(&mut op), Polled::Pending);
}

#[test]
fn combine_latest_yields_nothing_without_an_update() {
    let mut op = combine_latest(vec![Script::new(), Script::new()]);
    op.source_mut(0).then(vec![item(1)]);
    op.source_mut(1).then(vec![item(10)]);
    assert_eq!(poll(&mut op), Polled::Item(vec![1, 10]));
    assert_eq!(poll(&mut op), Polled::Pending);
    assert_eq!(poll(&mut op), Polled::Pending);
    op.source_mut(1).then(vec![item(11)]);
    assert_eq!(poll(&mut op), Polled::Item(vec![1, 11]));
}

#[test]
fn combine_latest_folds_updates_of_one_call_into_one_snapshot() {
    let mut op = combine_latest(vec![Script::new(), Script::new(), Script::new()]);
    op.source_mut(0).then(vec![item(1)]);
    op.source_mut(1).then(vec![item(2)]);
    assert_eq!(poll(&mut op), Polled::Pending);
    op.source_mut(2).then(vec![item(3)]);
    op.source_mut(0).then(vec![item(4)]);
    assert_eq!(poll(&mut op), Polled::Item(vec![4, 2, 3]));
}

#[test]
fn combine_latest_does_not_end_when_a_source_ends() {
    let mut op = combine_latest(vec![Script::new(), Script::new()]);
    op.source_mut(0).then(vec![item(1), Polled::Ended]);
    op.source_mut(1).then(vec![item(10)]);
    assert_eq!(poll(&mut op), Polled::Item(vec![1, 10]));
    op.source_mut(0).then(vec![Polled::Ended]);
    op.source_mut(1).then(vec![Polled::Ended]);
    assert_eq!(poll(&mut op), Polled::Pending);
    // The slot of the source that ended keeps its item.
    op.source_mut(0).then(vec![Polled::Ended]);
    op.source_mut(1).then(vec![item(11)]);
    assert_eq!(poll(&mut op), Polled::Item(vec![1, 11]));
}

#[test]
fn combine_latest_stops_draining_a_source_at_its_end() {
    let mut op = combine_latest(vec![Script::new()]);
    // What stands behind the end is not asked for within this call.
    op.source_mut(0).then(vec![item(1), Polled::Ended, item(2)]);
    assert_eq!(poll(&mut op), Polled::Item(vec![1]));
    assert_eq!(op.source_mut(0).polls, 2);
}

#[test]
fn combine_latest_says_what_to_poll_next() {
    let mut op = combine_latest(vec![Script::new(), Script::new()]);
    assert_eq!(op.len(), 2);
    assert_eq!(op.begin_poll(), Step::Poll(0));
    // An item: the same source again.
    assert_eq!(op.on_polled(0, item(7)), Step::Poll(0));
    assert_eq!(op.on_polled(0, item(8)), Step::Poll(0));
    // Nothing ready: the next source.
    assert_eq!(op.on_polled(0, Polled::Pending), Step::Poll(1));
    assert_eq!(op.on_polled(1, item(9)), Step::Poll(1));
    // After the last source the call is over.
    assert_eq!(op.on_polled(1, Polled::Ended), Step::Done(Polled::Item(vec![8, 9])));
}

#[test]
fn combine_latest_hands_out_its_sources_in_order() {
    let mut first = Script::new();
    first.then(vec![item(1)]);
    let mut second = Script::new();
    second.then(vec![item(2)]);
    let mut op: CombineLatest<Script, u32> = combine_latest(vec![first, second]);
    assert_eq!(op.source_mut(0).poll(), item(1));
    assert_eq!(op.source_mut(1).poll(), item(2));
    assert_eq!(op.source_mut(0).polls, 1);
}
