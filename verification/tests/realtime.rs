use std::collections::HashSet;

use unkvoid::realtime::{person_id, Notice, Presence, Reading};

#[test]
fn the_presence_identity_becomes_the_account_id() {
    assert_eq!(person_id("user:42"), Some(42));
    assert_eq!(person_id("42"), Some(42));
    assert_eq!(person_id("guest:abc"), None);
}

#[test]
fn the_identity_is_read_after_the_last_colon() {
    assert_eq!(person_id("a:b:-7"), Some(-7));
    assert_eq!(person_id("user:"), None);
}

#[test]
fn presence_keeps_who_is_online() {
    let mut online = HashSet::new();

    Presence::Here(vec![1, 2]).apply(&mut online);
    Presence::Joining(3).apply(&mut online);
    Presence::Leaving(1).apply(&mut online);

    assert_eq!(online, HashSet::from([2, 3]));
}

#[test]
fn a_notice_says_whether_it_is_an_error() {
    assert_eq!(Notice::info("oi"), Notice { text: "oi".into(), error: false });
    assert!(Notice::error("caiu").error);
    assert_eq!(Reading::default().notice, None);
}

use unkvoid::chimes::Chime;
use unkvoid::json::Json;
use unkvoid::realtime::read;

fn object(members: Vec<(&str, Json)>) -> Json {
    Json::Object(members.into_iter().map(|(name, value)| (name.to_string(), value)).collect())
}

fn text(value: &str) -> Json {
    Json::Text(value.to_string())
}

#[test]
fn a_message_from_someone_else_chimes_and_counts_as_unread() {
    let theirs = object(vec![("message", object(vec![("user", object(vec![("id", Json::Integer(2))]))]))]);
    let mine = object(vec![("message", object(vec![("user", object(vec![("id", Json::Integer(1))]))]))]);

    let reading = read("MessageSent", Some("channel.abc"), &theirs, 1, None);

    assert_eq!(reading.messages_of.as_deref(), Some("abc"));
    assert!(reading.unread);
    assert_eq!(reading.chime, Some(Chime::Message));

    let reading = read("MessageSent", Some("channel.abc"), &mine, 1, None);

    assert!(!reading.unread);
    assert_eq!(reading.chime, None);
}

#[test]
fn a_direct_message_warns_only_when_its_conversation_is_not_open() {
    let data = object(vec![
        ("message", object(vec![("body", text("oi, tudo bem?")), ("sender", object(vec![("id", Json::Integer(2)), ("name", text("Ana"))]))])),
        ("recipient", object(vec![("id", Json::Integer(1)), ("name", text("Eu"))])),
    ]);

    let closed = read("DirectMessageCreated", Some("user.1"), &data, 1, None);

    assert_eq!(closed.direct_with, Some(2));
    assert_eq!(closed.chime, Some(Chime::Message));
    assert_eq!(closed.notice, Some(Notice::info("Ana: oi, tudo bem?")));

    let open = read("DirectMessageCreated", Some("user.1"), &data, 1, Some(2));

    assert_eq!(open.chime, Some(Chime::Message));
    assert_eq!(open.notice, None);
}

#[test]
fn my_own_direct_message_points_at_who_received_it_and_stays_quiet() {
    let data = object(vec![
        ("message", object(vec![("body", text("oi")), ("sender", object(vec![("id", Json::Integer(1)), ("name", text("Eu"))]))])),
        ("recipient", object(vec![("id", Json::Integer(2)), ("name", text("Ana"))])),
    ]);
    let reading = read("DirectMessageCreated", Some("user.1"), &data, 1, None);

    assert_eq!(reading.direct_with, Some(2));
    assert_eq!((reading.chime, reading.notice), (None, None));
}

#[test]
fn a_long_direct_message_is_cut_at_sixty_characters() {
    let body = "x".repeat(80);
    let data = object(vec![(
        "message",
        object(vec![("body", text(&body)), ("sender", object(vec![("id", Json::Integer(2)), ("name", text("Ana"))]))]),
    )]);
    let reading = read("DirectMessageCreated", None, &data, 1, None);

    assert_eq!(reading.notice.expect("notice").text, format!("Ana: {}", "x".repeat(60)));
}

#[test]
fn a_friend_request_to_me_is_announced() {
    let data = object(vec![(
        "friendship",
        object(vec![
            ("status", text("pending")),
            ("requester", object(vec![("id", Json::Integer(2)), ("name", text("Ana"))])),
            ("addressee", object(vec![("id", Json::Integer(1))])),
        ]),
    )]);

    assert_eq!(read("FriendshipUpdated", None, &data, 1, None).notice, Some(Notice::info("Ana quer ser seu amigo")));
    assert_eq!(read("FriendshipUpdated", None, &data, 2, None).notice, None);
}

#[test]
fn being_removed_from_a_server_says_how() {
    let banned = read("MemberRemoved", None, &object(vec![("server_id", Json::Integer(7)), ("reason", text("banned"))]), 1, None);

    assert_eq!(banned.removed_from, Some(7));
    assert_eq!(banned.notice, Some(Notice::error("você foi banido deste servidor")));
    assert_eq!(
        read("MemberRemoved", None, &object(vec![("server_id", Json::Integer(7)), ("reason", text("kicked"))]), 1, None).notice,
        Some(Notice::error("você foi expulso deste servidor"))
    );
}

#[test]
fn presence_events_keep_who_is_online() {
    let mut online = HashSet::new();
    let here = object(vec![(
        "members",
        Json::Array(vec![object(vec![("id", text("user:1"))]), object(vec![("id", text("user:2"))])]),
    )]);

    for (event, data) in [
        ("presence.here", here),
        ("presence.joining", object(vec![("id", text("user:3"))])),
        ("presence.leaving", object(vec![("id", text("user:1"))])),
    ] {
        read(event, Some("server.9"), &data, 1, None).presence.expect("presença").apply(&mut online);
    }

    assert_eq!(online, HashSet::from([2, 3]));
}

#[test]
fn the_socket_coming_back_asks_to_catch_up() {
    assert!(read("realtime.back", None, &Json::Null, 1, None).catch_up);
    assert!(read("realtime.closed", None, &Json::Null, 1, None).notice.expect("notice").error);
    assert_eq!(read("somethingElse", None, &Json::Null, 1, None), Reading::default());
}
