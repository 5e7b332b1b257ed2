use stream_ops::debounce::{Debounce, Timer};
use stream_ops::polled::Polled;
use stream_ops::StreamOpsExt;

fn item(v: u32) -> Polled<u32> {
    Polled::Item(v)
}

#[test]
fn debounce_test() {
    // Items 1, 2, 3 come at the ticks 100, 300 and 600, then the upstream
    // ends; the debounce time is 250.
    let mut stream: Debounce<(), u32> = ().debounce(250);
    let mut seen = Vec::new();
    let mut polls: Vec<(u64, Polled<u32>)> = vec![
        (0, Polled::Pending),
        (100, item(1)),
        (250, Polled::Pending),
        (300, item(2)),
        (350, Polled::Pending),
        (549, Polled::Pending),
        (550, Polled::Pending),
        (600, item(3)),
        (600, Polled::Ended),
        (600, Polled::Ended),
    ];
    for (now, upstream) in polls.drain(..) {
        match stream.poll_next(upstream, now) {
            Polled::Item(v) => seen.push(Some(v)),
            Polled::Ended => seen.push(None),
            Polled::Pending => {}
        }
    }
    assert_eq!(seen, vec![Some(2), Some(3), None]);
}

#[test]
fn debounce_yields_at_the_deadline_and_not_before() {
    let mut op: Debounce<(), u32> = Debounce::new((), 250);
    assert_eq!(op.poll_next(item(1), 100), Polled::Pending);
    assert_eq!(op.deadline(), 350);
    assert!(op.has_pending());
    assert_eq!(op.poll_next(Polled::Pending, 349), Polled::Pending);
    assert_eq!(op.poll_next(Polled::Pending, 350), Polled::Item(1));
    assert!(!op.has_pending());
    assert_eq!(op.poll_next(Polled::Pending, 351), Polled::Pending);
}

#[test]
fn debounce_counts_from_the_latest_item() {
    let mut op: Debounce<(), u32> = Debounce::new((), 250);
    assert_eq!(op.poll_next(item(1), 100), Polled::Pending);
    assert_eq!(op.poll_next(item(2), 200), Polled::Pending);
    assert_eq!(op.deadline(), 450);
    // 350 would have been the deadline of the first item.
    assert_eq!(op.poll_next(Polled::Pending, 350), Polled::Pending);
    assert_eq!(op.poll_next(item(3), 300 + 100), Polled::Pending);
    assert_eq!(op.deadline(), 650);
    assert_eq!(op.poll_next(Polled::Pending, 649), Polled::Pending);
    assert_eq!(op.poll_next(Polled::Pending, 700), Polled::Item(3));
    assert_eq!(op.poll_next(Polled::Pending, 10_000), Polled::Pending);
}

#[test]
fn debounce_burst_yields_its_last_item_once() {
    let mut op: Debounce<(), u32> = Debounce::new((), 50);
    let mut yielded = Vec::new();
    let mut now = 1_000;
    for v in 0..10u32 {
        // Ten items, 49 ticks apart, with a poll in between.
        if let Polled::Item(out) = op.poll_next(item(v), now) {
            yielded.push((out, now));
        }
        if let Polled::Item(out) = op.poll_next(Polled::Pending, now + 30) {
            yielded.push((out, now + 30));
        }
        now += 49;
    }
    let last_came = now - 49;
    for later in [last_came + 49, last_came + 50, last_came + 51, last_came + 500] {
        if let Polled::Item(out) = op.poll_next(Polled::Pending, later) {
            yielded.push((out, later));
        }
    }
    assert_eq!(yielded, vec![(9, last_came + 50)]);
}

#[test]
fn debounce_with_no_time_lets_items_through_at_once() {
    let mut op: Debounce<(), u32> = Debounce::new((), 0);
    assert_eq!(op.debounce_time(), 0);
    assert_eq!(op.poll_next(item(1), 10), Polled::Item(1));
    assert_eq!(op.poll_next(item(2), 10), Polled::Item(2));
    assert_eq!(op.poll_next(Polled::Pending, 10), Polled::Pending);
}

#[test]
fn debounce_ends_with_the_upstream_when_nothing_is_pending() {
    let mut op: Debounce<(), u32> = Debounce::new((), 250);
    assert_eq!(op.poll_next(Polled::Ended, 5), Polled::Ended);
    assert_eq!(op.poll_next(Polled::Ended, 500), Polled::Ended);
}

#[test]
fn debounce_flushes_once_when_the_upstream_ends() {
    let mut op: Debounce<(), u32> = Debounce::new((), 250);
    assert_eq!(op.poll_next(item(7), 100), Polled::Pending);
    // Long before the deadline.
    assert_eq!(op.poll_next(Polled::Ended, 101), Polled::Item(7));
    assert!(!op.has_pending());
    assert_eq!(op.poll_next(Polled::Ended, 102), Polled::Ended);
}

#[test]
fn debounce_fired_timer_without_item_yields_nothing() {
    let mut op: Debounce<(), u32> = Debounce::new((), 250);
    assert_eq!(op.deadline(), 250);
    assert_eq!(op.debounce_time(), 250);
    assert!(!op.has_pending());
    assert_eq!(op.poll_next(Polled::Pending, 1_000), Polled::Pending);
    // The timer that fired long ago does not let a new item through.
    assert_eq!(op.poll_next(item(1), 2_000), Polled::Pending);
    assert_eq!(op.deadline(), 2_250);
}

#[test]
fn debounce_overwrites_the_pending_item() {
    let mut op: Debounce<(), u32> = Debounce::new((), 100);
    assert_eq!(op.poll_next(item(1), 0), Polled::Pending);
    assert_eq!(op.poll_next(item(2), 0), Polled::Pending);
    assert_eq!(op.poll_next(Polled::Pending, 100), Polled::Item(2));
    assert_eq!(op.poll_next(Polled::Pending, 100), Polled::Pending);
}

#[test]
fn debounce_hands_out_its_upstream() {
    let mut op: Debounce<Vec<u32>, u32> = Debounce::new(vec![1, 2], 100);
    op.source_mut().push(3);
    assert_eq!(op.source_mut().len(), 3);
    assert_eq!(op.debounce_time(), 100);
}

#[test]
fn timer_fires_from_its_deadline_on() {
    let mut timer = Timer::armed(10);
    assert_eq!(timer.deadline(), 10);
    assert!(!timer.fired(9));
    assert!(timer.fired(10));
    assert!(timer.fired(11));
    // Arming it again replaces the deadline.
    timer.arm(20);
    assert_eq!(timer.deadline(), 20);
    assert!(!timer.fired(11));
    assert!(!timer.fired(19));
    assert!(timer.fired(20));
    timer.arm(0);
    assert!(timer.fired(0));
}
