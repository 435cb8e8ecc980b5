use unkvoid::failure::Failure;
use unkvoid::protocol::ServerError;

#[test]
fn every_status_becomes_something_the_person_can_act_on() {
    assert_eq!(Failure::from_status(401), Failure::SignedOut);
    assert_eq!(Failure::from_status(403), Failure::NotAllowed);
    assert_eq!(Failure::from_status(404), Failure::Gone);
    assert_eq!(Failure::from_status(422), Failure::Invalid);
    assert_eq!(Failure::from_status(429), Failure::TooFast);
    assert_eq!(Failure::from_status(500), Failure::ServerBroke);
}

#[test]
fn a_network_failure_is_unreachable_and_not_a_server_error() {
    // An error that carries neither a reason nor a refusal of the server ("dns falhou").
    assert_eq!(Failure::from_error(None, None), Failure::Unreachable);
}

#[test]
fn a_reason_decided_earlier_survives_the_trip() {
    assert_eq!(Failure::from_error(Some(Failure::NotAllowed), None), Failure::NotAllowed);
}

#[test]
fn a_server_refusal_never_leaks_its_message_to_the_interface() {
    let refusal = ServerError {
        action: "subscribe".into(),
        status: 403,
        message: "not authorized for channel.01jbqz at https://unkvoid.com/api".into(),
    };

    let failure = Failure::from_error(None, Some(&refusal));

    assert_eq!(failure, Failure::NotAllowed);
    assert_eq!(failure.name(), "NotAllowed");
}

#[test]
fn the_gateway_in_front_of_the_server_counts_as_unreachable() {
    assert_eq!(Failure::from_status(502), Failure::Unreachable);
    assert_eq!(Failure::from_status(504), Failure::Unreachable);
    assert_eq!(Failure::from_status(410), Failure::Gone);
    assert_eq!(Failure::from_status(400), Failure::Invalid);
}

#[test]
fn the_serialised_name_carries_no_technical_detail() {
    // This is what the interface gets: a name, and nothing more.
    for failure in [Failure::NotAllowed, Failure::Unreachable, Failure::ServerBroke] {
        let name = failure.name();

        assert!(!name.contains("http"), "an address leaked: {name}");
        assert!(!name.chars().any(|letter| letter.is_ascii_digit()), "a number leaked: {name}");
    }
}
