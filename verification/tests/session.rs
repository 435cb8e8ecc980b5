use unkvoid::json::Json;
use unkvoid::models::{JoinResponse, Peer};
use unkvoid::protocol::{Event, Incoming};
use unkvoid::session::Roster;

fn object(members: Vec<(&str, &str)>) -> Json {
    Json::Object(members.into_iter().map(|(name, value)| (name.to_string(), Json::Text(value.to_string()))).collect())
}

fn event(name: &str, data: Json) -> Event {
    Event { name: name.into(), channel: None, data }
}

fn roster_with(names: &[&str]) -> Roster {
    let mut roster = Roster::default();

    for name in names {
        roster.apply(&event("peerJoined", object(vec![("peerId", name), ("name", name)])));
    }

    roster
}

#[test]
fn the_person_sees_herself_in_the_room() {
    let joined = JoinResponse {
        resumed: false,
        peer_id: "mine".into(),
        name: "Ada".into(),
        resume_key: Some("k".into()),
        peers: vec![Peer {
            peer_id: "abc".into(),
            user_id: None,
            name: "Grace".into(),
            producers: Vec::new(),
            reconnecting: false,
            self_peer: false,
        }],
        can: vec!["speak".into()],
    };

    let mut roster = Roster::default();

    roster.reset(&joined);

    assert_eq!(roster.peers().len(), 2);
    assert!(roster.peers()[0].self_peer);
    assert_eq!(roster.peers()[1].name, "Grace");
}

#[test]
fn someone_arriving_shows_up_once() {
    let mut roster = Roster::default();
    let arrived = event("peerJoined", object(vec![("peerId", "abc"), ("userId", "user:1"), ("name", "Ada")]));

    assert!(roster.apply(&arrived));
    assert_eq!(roster.peers().len(), 1);
    assert_eq!(roster.peers()[0].user_id.as_deref(), Some("user:1"));

    // The same event again (the reconnection replays what was lost) does not duplicate.
    assert!(!roster.apply(&arrived));
    assert_eq!(roster.peers().len(), 1);
}

#[test]
fn someone_leaving_is_removed() {
    let mut roster = roster_with(&["abc", "xyz"]);

    assert!(roster.apply(&event("peerLeft", object(vec![("peerId", "abc")]))));
    assert_eq!(roster.peers().len(), 1);
    assert!(!roster.apply(&event("peerLeft", object(vec![("peerId", "abc")]))));
}

#[test]
fn a_screen_producer_is_what_makes_someone_live() {
    let mut roster = roster_with(&["abc"]);
    let started = event(
        "newProducer",
        object(vec![("peerId", "abc"), ("producerId", "p1"), ("kind", "video"), ("source", "screen")]),
    );

    assert!(roster.apply(&started));
    assert!(roster.peers()[0].sharing());
    assert!(!roster.apply(&started));

    assert!(roster.apply(&event("producerClosed", object(vec![("peerId", "abc"), ("producerId", "p1")]))));
    assert!(!roster.peers()[0].sharing());
}

#[test]
fn a_paused_microphone_is_seen_without_the_person_leaving() {
    let mut roster = roster_with(&["abc"]);

    roster.apply(&event(
        "newProducer",
        object(vec![("peerId", "abc"), ("producerId", "p1"), ("kind", "audio"), ("source", "mic")]),
    ));

    let paused = event("producerPaused", object(vec![("peerId", "abc"), ("producerId", "p1")]));

    assert!(roster.apply(&paused));
    assert!(roster.peers()[0].producers[0].paused);
    assert!(!roster.apply(&paused));
    assert!(roster.apply(&event("producerResumed", object(vec![("peerId", "abc"), ("producerId", "p1")]))));
}

#[test]
fn someone_who_dropped_stays_on_the_list_until_the_grace_runs_out() {
    let mut roster = roster_with(&["abc"]);

    assert!(roster.apply(&event("peerConnectionLost", object(vec![("peerId", "abc")]))));
    assert!(roster.peers()[0].reconnecting, "whoever dropped must not vanish from the room");

    assert!(roster.apply(&event("peerReconnected", object(vec![("peerId", "abc")]))));
    assert!(!roster.peers()[0].reconnecting);
}

#[test]
fn an_event_about_a_stranger_changes_nothing() {
    let mut roster = roster_with(&["abc"]);

    assert!(!roster.apply(&event("newProducer", object(vec![("peerId", "outro"), ("producerId", "p1")]))));
    assert!(!roster.apply(&event("coisaNova", object(vec![("peerId", "abc")]))));
    assert!(!roster.apply(&event("peerLeft", object(vec![]))));
}

#[test]
fn the_id_is_what_tells_a_reply_from_an_event() {
    let reply = Incoming {
        id: Some(7),
        ok: Some(true),
        status: None,
        error: None,
        data: Some(object(vec![("peerId", "abc")])),
        event: None,
        channel: None,
    };

    assert!(reply.is_reply());
    assert!(reply.into_event().is_none());

    let incoming = Incoming {
        id: None,
        ok: None,
        status: None,
        error: None,
        data: None,
        event: Some("peerJoined".into()),
        channel: Some("channel.5".into()),
    };

    assert!(!incoming.is_reply());

    let event = incoming.into_event().expect("event");

    assert_eq!(event.name, "peerJoined");
    assert_eq!(event.channel.as_deref(), Some("channel.5"));
    assert!(event.data.is_null());
}

#[test]
fn a_local_event_carries_nothing() {
    let event = Event::local("sessionLost");

    assert_eq!(event.name, "sessionLost");
    assert!(event.data.is_null());
}

#[test]
fn a_chat_event_carries_its_channel() {
    let incoming = Incoming {
        id: None,
        ok: None,
        status: None,
        error: None,
        data: Some(Json::Object(vec![("body".to_string(), Json::Text("oi".to_string()))])),
        event: Some("MessageSent".to_string()),
        channel: Some("channel.5".to_string()),
    };
    let event = incoming.into_event().expect("into event");

    assert_eq!(event.channel.as_deref(), Some("channel.5"));
    assert_eq!(event.data.get("body").and_then(|body| body.as_str()), Some("oi"));
}

fn reply(ok: Option<bool>, status: Option<u16>, error: Option<&str>, data: Option<Json>) -> Incoming {
    Incoming {
        id: Some(3),
        ok,
        status,
        error: error.map(str::to_string),
        data,
        event: None,
        channel: None,
    }
}

#[test]
fn a_refused_call_carries_the_status_and_message_of_the_server() {
    let refusal = reply(Some(false), Some(403), Some("not authorized"), None).into_outcome("subscribe").err().expect("refused");

    assert_eq!((refusal.action.as_str(), refusal.status, refusal.message.as_str()), ("subscribe", 403, "not authorized"));

    let bare = reply(None, None, None, None).into_outcome("join").err().expect("refused");

    assert_eq!((bare.status, bare.message.as_str()), (500, "erro sem mensagem"));
}

#[test]
fn an_accepted_call_gives_its_data_or_null() {
    match reply(Some(true), None, None, Some(Json::Integer(7))).into_outcome("join") {
        Ok(Json::Integer(7)) => {}
        _ => panic!("the data was lost"),
    }
    assert!(matches!(reply(Some(true), None, None, None).into_outcome("join"), Ok(Json::Null)));
}

use unkvoid::session::Joined;

#[test]
fn an_entry_brings_the_list_the_resume_key_and_what_the_token_allows() {
    let mut joined = Joined::new();

    assert!(!joined.can("speak") && joined.resume_key().is_none() && joined.peers().is_empty());

    joined.enter(&JoinResponse {
        resumed: true,
        peer_id: "mine".into(),
        name: "Ada".into(),
        resume_key: Some("k1".into()),
        peers: vec![],
        can: vec!["speak".into(), "stream".into()],
    });

    assert!(joined.can("speak") && joined.can("stream") && !joined.can("video"));
    assert_eq!(joined.resume_key().as_deref(), Some("k1"));
    assert!(joined.resumed());
    assert_eq!(joined.peers().len(), 1);
    assert!(joined.peers()[0].self_peer);

    assert!(joined.apply(&event("sessionRejoined", Json::Null)), "a return always redraws");
    assert!(joined.apply(&event("peerJoined", object(vec![("peerId", "abc"), ("name", "Grace")]))));
    assert_eq!(joined.peers().len(), 2);
    assert!(!joined.apply(&event("peerJoined", object(vec![("peerId", "abc"), ("name", "Grace")]))));
}
