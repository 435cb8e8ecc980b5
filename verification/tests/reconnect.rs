use std::collections::HashSet;

use unkvoid::reconnect::{Backoff, CEILING_MS, MAX_ATTEMPTS};

#[test]
fn the_delay_grows_and_stops_at_the_ceiling() {
    let mut backoff = Backoff::default();
    let mut delays = Vec::new();

    while let Some(delay) = backoff.next_delay() {
        delays.push(delay);
    }

    assert_eq!(delays.len(), MAX_ATTEMPTS as usize, "gave up at the wrong point");
    assert!((500..=1_000).contains(&delays[0]), "first delay: {}", delays[0]);
    assert!(delays.iter().all(|delay| *delay <= CEILING_MS), "above the ceiling: {delays:?}");
    assert!(delays.last().unwrap() > &delays[0]);
}

#[test]
fn gives_up_after_the_limit() {
    let mut backoff = Backoff::default();

    for _ in 0..MAX_ATTEMPTS {
        assert!(backoff.next_delay().is_some());
    }

    assert!(backoff.next_delay().is_none());
    assert!(backoff.next_delay().is_none());
}

#[test]
fn a_successful_connection_resets_the_count() {
    let mut backoff = Backoff::default();

    backoff.next_delay();
    backoff.next_delay();

    assert_eq!(backoff.attempt, 2);

    backoff.succeeded();

    assert_eq!(backoff.attempt, 0);
    assert!(backoff.next_delay().is_some());
}

#[test]
fn two_machines_do_not_come_back_at_the_same_instant() {
    let delays: HashSet<u64> = (0..50).map(|_| Backoff::default().next_delay().expect("first delay")).collect();

    assert!(delays.len() > 1, "every delay came out the same: no jitter");
}

#[test]
fn the_fourth_wait_is_between_four_and_eight_seconds() {
    let mut backoff = Backoff { attempt: 3 };
    let wait = backoff.next_delay().expect("wait");

    assert!((4_000..=8_000).contains(&wait));
}
