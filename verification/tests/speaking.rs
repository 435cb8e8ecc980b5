use unkvoid::speaking::Speaking;

// Whether a block is loud is decided on its samples before it reaches the clock.
const LOUD: bool = true;
const QUIET: bool = false;

#[test]
fn a_loud_block_starts_the_speech_and_a_quiet_one_does_not() {
    let mut speaking = Speaking::default();

    assert!(!speaking.heard("ada", QUIET, 0));
    assert!(!speaking.is_speaking("ada"));
    assert!(speaking.heard("ada", LOUD, 0));
    assert!(speaking.is_speaking("ada"));
}

#[test]
fn only_the_turn_is_announced_not_every_loud_block() {
    let mut speaking = Speaking::default();

    assert!(speaking.heard("ada", LOUD, 0));
    assert!(!speaking.heard("ada", LOUD, 20));
}

#[test]
fn the_ring_stays_lit_through_the_tail_and_goes_out_after_it() {
    let mut speaking = Speaking::default();

    speaking.heard("ada", LOUD, 1000);

    assert!(speaking.quiet(1349).is_empty());
    assert_eq!(speaking.quiet(1350), vec!["ada".to_owned()]);
    assert!(!speaking.is_speaking("ada"));
}

#[test]
fn a_new_peak_after_going_quiet_is_a_new_turn() {
    let mut speaking = Speaking::default();

    speaking.heard("ada", LOUD, 0);
    speaking.quiet(1000);

    assert!(speaking.heard("ada", LOUD, 2000));
}

#[test]
fn each_person_has_their_own_clock() {
    let mut speaking = Speaking::default();

    speaking.heard("ada", LOUD, 0);
    speaking.heard("bia", LOUD, 300);

    assert_eq!(speaking.quiet(400), vec!["ada".to_owned()]);
    assert!(speaking.is_speaking("bia"));
}

#[test]
fn whoever_left_is_forgotten() {
    let mut speaking = Speaking::default();

    speaking.heard("ada", LOUD, 0);

    assert!(speaking.forget("ada"));
    assert!(!speaking.is_speaking("ada"));
    assert!(!speaking.forget("ada"));
}

#[test]
fn a_producer_heard_many_times_goes_quiet_once() {
    let mut speaking = Speaking::default();

    assert!(speaking.heard("ada", true, 0));
    assert!(!speaking.heard("ada", true, 100));
    assert!(speaking.heard("bia", true, 100));
    assert!(!speaking.heard("ada", true, 200));

    assert_eq!(speaking.quiet(600), vec!["ada".to_string(), "bia".to_string()]);
    assert!(!speaking.is_speaking("ada"));
    assert!(speaking.quiet(10_000).is_empty());
}
