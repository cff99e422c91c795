use std::time::Duration;

use utils::queue::{DeadlineQueue, QueueEntry};
use utils::time::Instant;
use utils::timer::{TimerKey, TimerWheel};

fn ms(n: u64) -> Instant {
    Instant::from_nanos(n * 1_000_000)
}

#[test]
fn cancelled_second_timer_does_not_fire() {
    let now = ms(1_000);
    let mut wheel = TimerWheel::new();
    let first = wheel.schedule(now.saturating_add_nanos(50_000_000));
    let second = wheel.schedule(now.saturating_add_nanos(10_000_000));
    assert!(wheel.cancel(second));
    let fired = wheel.fire_due(now.saturating_add_nanos(60_000_000));
    assert_eq!(fired, vec![first]);
    assert!(!wheel.is_pending(first));
    assert_eq!(wheel.next_deadline(), None);
}

#[test]
fn fires_in_deadline_order_with_ties_in_schedule_order() {
    let mut wheel = TimerWheel::new();
    let c = wheel.schedule(ms(30));
    let a1 = wheel.schedule(ms(10));
    let b = wheel.schedule(ms(20));
    let a2 = wheel.schedule(ms(10));
    let late = wheel.schedule(ms(40));
    let fired = wheel.fire_due(ms(30));
    assert_eq!(fired, vec![a1, a2, b, c]);
    assert!(wheel.is_pending(late));
    assert_eq!(wheel.next_deadline(), Some(ms(40)));
}

#[test]
fn nothing_due_fires_nothing() {
    let mut wheel = TimerWheel::new();
    let k = wheel.schedule(ms(100));
    assert_eq!(wheel.fire_due(ms(99)), Vec::<TimerKey>::new());
    assert!(wheel.is_pending(k));
    assert_eq!(wheel.fire_due(ms(100)), vec![k]);
}

#[test]
fn past_deadline_fires_on_next_check() {
    let mut wheel = TimerWheel::new();
    let k = wheel.schedule(ms(5));
    assert_eq!(wheel.fire_due(ms(500)), vec![k]);
}

#[test]
fn cancel_after_fire_is_a_no_op() {
    let mut wheel = TimerWheel::new();
    let k = wheel.schedule(ms(5));
    let other = wheel.schedule(ms(50));
    assert_eq!(wheel.fire_due(ms(10)), vec![k]);
    assert!(!wheel.cancel(k));
    assert!(!wheel.cancel(k));
    assert!(wheel.is_pending(other));
    assert_eq!(wheel.fire_due(ms(100)), vec![other]);
    assert_eq!(wheel.fire_due(ms(1_000)), Vec::<TimerKey>::new());
}

#[test]
fn cancel_twice_is_a_no_op() {
    let mut wheel = TimerWheel::new();
    let k = wheel.schedule(ms(5));
    assert!(wheel.cancel(k));
    assert!(!wheel.cancel(k));
    assert_eq!(wheel.fire_due(ms(10)), Vec::<TimerKey>::new());
}

#[test]
fn next_deadline_skips_cancelled_timers() {
    let mut wheel = TimerWheel::new();
    assert_eq!(wheel.next_deadline(), None);
    let early = wheel.schedule(ms(10));
    let _late = wheel.schedule(ms(70));
    let mid = wheel.schedule(ms(40));
    assert_eq!(wheel.next_deadline(), Some(ms(10)));
    assert!(wheel.cancel(early));
    assert_eq!(wheel.next_deadline(), Some(ms(40)));
    assert!(wheel.cancel(mid));
    assert_eq!(wheel.next_deadline(), Some(ms(70)));
}

#[test]
fn keys_of_fired_timers_are_not_reused_for_new_timers() {
    let mut wheel = TimerWheel::new();
    let old = wheel.schedule(ms(1));
    assert_eq!(wheel.fire_due(ms(1)), vec![old]);
    let new = wheel.schedule(ms(2));
    assert_ne!(old, new);
    assert!(!wheel.cancel(old));
    assert!(wheel.is_pending(new));
}

#[test]
fn can_schedule_on_a_fresh_wheel() {
    let wheel = TimerWheel::new();
    assert!(wheel.can_schedule());
}

#[test]
fn many_timers_fire_sorted() {
    let mut wheel = TimerWheel::new();
    let mut keys = Vec::new();
    for i in 0..50u64 {
        let d = (i * 37) % 50;
        keys.push((d, i, wheel.schedule(ms(d))));
    }
    for (d, _, k) in keys.iter() {
        if d % 7 == 0 {
            assert!(wheel.cancel(*k));
        }
    }
    let fired = wheel.fire_due(ms(1_000));
    let mut expected: Vec<(u64, u64, TimerKey)> =
        keys.into_iter().filter(|(d, _, _)| d % 7 != 0).collect();
    expected.sort_by_key(|(d, i, _)| (*d, *i));
    let expected: Vec<TimerKey> = expected.into_iter().map(|(_, _, k)| k).collect();
    assert_eq!(fired, expected);
}

#[test]
fn deadline_queue_pops_in_order() {
    let mut wheel = TimerWheel::new();
    let key = wheel.schedule(ms(1));
    let mut q = DeadlineQueue::new();
    for (d, s) in [(5u64, 0u64), (3, 1), (5, 2), (1, 3), (3, 4)] {
        q.push(QueueEntry { deadline: d, seq: s, key });
    }
    assert_eq!(q.len(), 5);
    let mut out = Vec::new();
    while q.len() > 0 {
        let e = q.pop();
        out.push((e.deadline, e.seq));
    }
    assert_eq!(out, vec![(1, 3), (3, 1), (3, 4), (5, 0), (5, 2)]);
    assert!(q.peek().is_none());
}

#[test]
fn duration_since_is_the_difference() {
    let a = Instant::from_nanos(1_500_000_000);
    let b = Instant::from_nanos(500_000_000);
    assert_eq!(a.duration_since(b), Duration::from_secs(1));
    assert_eq!(a.nanos_since(b), 1_000_000_000);
}

#[test]
fn duration_since_clamps_to_zero() {
    let a = Instant::from_nanos(10);
    let b = Instant::from_nanos(11);
    assert_eq!(a.duration_since(b), Duration::from_nanos(0));
    assert_eq!(a.nanos_since(b), 0);
}

#[test]
fn instant_arithmetic_and_order() {
    let a = Instant::from_nanos(7);
    assert_eq!(a.as_nanos(), 7);
    assert_eq!(a.saturating_add_nanos(3).as_nanos(), 10);
    assert_eq!(a.saturating_add_nanos(u64::MAX).as_nanos(), u64::MAX);
    assert!(a.is_at_or_before(&a));
    assert!(a.is_at_or_before(&Instant::from_nanos(8)));
    assert!(!Instant::from_nanos(8).is_at_or_before(&a));
}

#[test]
fn sleep_is_over_once_its_timer_fires() {
    let mut wheel = TimerWheel::new();
    let mut slot: Option<TimerKey> = None;
    assert!(!wheel.poll_sleep(&mut slot, ms(100)));
    let key = slot.expect("the first poll schedules the timer");
    assert!(wheel.is_pending(key));
    assert!(!wheel.poll_sleep(&mut slot, ms(100)));
    assert_eq!(slot, Some(key));
    assert_eq!(wheel.fire_due(ms(99)), Vec::<TimerKey>::new());
    assert!(!wheel.poll_sleep(&mut slot, ms(100)));
    assert_eq!(wheel.fire_due(ms(100)), vec![key]);
    assert!(wheel.poll_sleep(&mut slot, ms(100)));
    assert_eq!(slot, Some(key));
}
