use unkvoid::room_code::{clean, generate, is_valid, LENGTH, MAX_LENGTH};

#[test]
fn a_generated_code_is_always_valid() {
    for _ in 0..200 {
        let code = generate();

        assert_eq!(code.len(), LENGTH);
        assert!(is_valid(&code), "generated an invalid code: {code}");
    }
}

#[test]
fn two_codes_in_a_row_are_not_the_same() {
    assert_ne!(generate(), generate());
}

#[test]
fn rejects_what_would_split_a_room_in_two() {
    assert!(!is_valid(""));
    assert!(!is_valid("ab"));
    assert!(!is_valid(&"a".repeat(MAX_LENGTH + 1)));
    assert!(!is_valid("-abc"));
    assert!(!is_valid("abc-"));
    assert!(!is_valid("ABC123"), "uppercase would be a different room");
    assert!(!is_valid("sala do edsu"));
    assert!(!is_valid("salão"));
}

#[test]
fn accepts_a_readable_code() {
    assert!(is_valid("time-da-tarde"));
    assert!(is_valid("abc"));
}

#[test]
fn cleaning_makes_what_was_pasted_usable() {
    assert_eq!(clean("  ABC-123 \n"), "abc-123");
    assert!(is_valid(&clean(" TIME-da-Tarde ")));
}

#[test]
fn the_longest_code_accepted_is_thirty_two_characters() {
    assert!(is_valid(&"a".repeat(MAX_LENGTH)));
}
