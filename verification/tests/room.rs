use unkvoid::models::{Peer, ProducerInfo};
use unkvoid::room::{tiles, Card};

fn producer(id: &str, kind: &str, source: &str) -> ProducerInfo {
    ProducerInfo { producer_id: id.into(), kind: kind.into(), source: source.into(), paused: false }
}

fn peer(id: &str, name: &str, producers: Vec<ProducerInfo>, self_peer: bool) -> Peer {
    Peer { peer_id: id.into(), user_id: None, name: name.into(), producers, reconnecting: false, self_peer }
}

fn shape(card: &Card) -> (String, String, String, bool, bool, bool, Option<String>) {
    (
        card.producer_id.clone(),
        card.peer_id.clone(),
        card.label.clone(),
        card.camera,
        card.mine,
        card.paused,
        card.audio.clone(),
    )
}

#[test]
fn watched_streams_are_cards_and_the_others_wait_for_the_watch_button() {
    let peers = vec![
        peer(
            "abc",
            "Ada",
            vec![
                producer("p1", "video", "screen"),
                producer("a1", "audio", "screenAudio"),
                producer("c1", "video", "camera"),
                producer("m1", "audio", "mic"),
            ],
            false,
        ),
        peer("me", "Eu", vec![producer("s9", "video", "screen"), producer("s8", "video", "camera")], true),
    ];
    let watching = vec!["p1".to_string(), "s9".to_string()];
    let paused = vec!["p1".to_string()];

    let (watched, pending) = tiles(&peers, &watching, &paused);

    assert_eq!(
        watched.iter().map(shape).collect::<Vec<_>>(),
        vec![
            ("p1".into(), "abc".into(), "Ada".into(), false, false, true, Some("a1".into())),
            ("s9".into(), "me".into(), "Eu".into(), false, true, false, None),
        ]
    );
    // Ada's camera waits for the button; my own unwatched camera never does.
    assert_eq!(
        pending.iter().map(shape).collect::<Vec<_>>(),
        vec![("c1".into(), "abc".into(), "Ada".into(), true, false, false, None)]
    );
}

#[test]
fn an_empty_room_has_no_cards() {
    let (watched, pending) = tiles(&[], &[], &[]);

    assert!(watched.is_empty() && pending.is_empty());
}

use unkvoid::room::{own_producers, reaction, wanted_producers, Reaction};

#[test]
fn every_stream_is_watched_but_the_closed_ones_and_my_own_screen_only_on_request() {
    let peers = vec![
        peer("abc", "Ada", vec![producer("p1", "video", "screen"), producer("c1", "video", "camera")], false),
        peer("me", "Eu", vec![producer("s9", "video", "screen"), producer("s8", "video", "camera")], true),
    ];
    let closed = vec!["c1".to_string()];
    let ids = |wanted: Vec<ProducerInfo>| wanted.into_iter().map(|producer| producer.producer_id).collect::<Vec<_>>();

    assert_eq!(ids(wanted_producers(&peers, false, &closed)), vec!["p1"]);
    assert_eq!(ids(wanted_producers(&peers, true, &closed)), vec!["p1", "s9"]);
    assert_eq!(ids(wanted_producers(&peers, true, &[])), vec!["p1", "c1", "s9"]);
    assert_eq!(own_producers(&peers), vec!["s9", "s8"]);
}

#[test]
fn each_session_event_has_its_reaction() {
    assert_eq!(reaction("newProducer", true), Reaction::ConsumeAll);
    assert_eq!(reaction("producerClosed", true), Reaction::ProducerClosed);
    assert_eq!(reaction("sessionLost", true), Reaction::SessionLost);
    assert_eq!(reaction("sessionRejoined", true), Reaction::SessionRejoined { republish: false });
    assert_eq!(reaction("sessionRejoined", false), Reaction::SessionRejoined { republish: true });
    assert_eq!(reaction("sessionGone", true), Reaction::SessionGone);
    assert_eq!(reaction("kicked", true), Reaction::Ended);
    assert_eq!(reaction("replaced", true), Reaction::Ended);
    assert_eq!(reaction("pingMeasured", true), Reaction::Ping);
    assert_eq!(reaction("watchers", true), Reaction::Watchers);
    assert_eq!(reaction("peerJoined", true), Reaction::Nothing);
}

use unkvoid::json::Json;
use unkvoid::room::merge;

fn object(members: Vec<(&str, Json)>) -> Json {
    Json::Object(members.into_iter().map(|(name, value)| (name.to_string(), value)).collect())
}

#[test]
fn the_offer_and_the_request_go_up_in_the_same_object() {
    let mut request = object(vec![("kind", Json::Text("video".into())), ("source", Json::Text("screen".into()))]);

    merge(
        &mut request,
        object(vec![("rtpParameters", object(vec![("ssrc", Json::Integer(7))])), ("srtpParameters", object(vec![]))]),
    );

    assert_eq!(request.get("source").and_then(|source| source.as_str()), Some("screen"));
    assert_eq!(request.get("rtpParameters").and_then(|rtp| rtp.get("ssrc")).and_then(|ssrc| ssrc.as_i64()), Some(7));
    assert!(request.get("srtpParameters").is_some());
}

#[test]
fn the_offer_replaces_what_the_request_had_and_a_non_object_changes_nothing() {
    let mut request = object(vec![("kind", Json::Text("video".into()))]);

    merge(&mut request, object(vec![("kind", Json::Text("audio".into()))]));

    assert_eq!(request.get("kind").and_then(|kind| kind.as_str()), Some("audio"));

    merge(&mut request, Json::Null);

    assert_eq!(request.get("kind").and_then(|kind| kind.as_str()), Some("audio"));

    let mut plain = Json::Integer(3);

    merge(&mut plain, object(vec![("kind", Json::Text("audio".into()))]));

    assert!(matches!(plain, Json::Integer(3)));
}
