use unkvoid::ffi::{call_answer, room_answer};
use unkvoid::json::Json;
use unkvoid::app::EntryRefusal;
use unkvoid::ffi::{frame_of, refused, screen_name, scrub};
use unkvoid::models::Screen;
use unkvoid::watching::{Media, MediaKind};

#[test]
fn a_frame_crosses_the_abi_with_its_header_in_front() {
    let block = frame_of(&Media {
        producer_id: "abc".into(),
        kind: MediaKind::Video { keyframe: true, timestamp: 0x0102_0304 },
        data: vec![9, 8, 7],
    });

    assert_eq!(block, [0, 1, 3, 0, 4, 3, 2, 1, b'a', b'b', b'c', 9, 8, 7]);
}

#[test]
fn a_block_of_sound_has_no_keyframe_nor_timestamp() {
    let block = frame_of(&Media { producer_id: "x".into(), kind: MediaKind::Audio, data: vec![1] });

    assert_eq!(block, [1, 0, 1, 0, 0, 0, 0, 0, b'x', 1]);
}

#[test]
fn the_user_name_leaves_the_log_unless_it_is_too_short() {
    assert_eq!(scrub("ERROR em /Users/edsonlima/x\n", "edsonlima"), "ERROR em /Users/<usuario>/x\n");
    assert_eq!(scrub("edição", "ed"), "edição", "nome curto estragaria o texto");
}

#[test]
fn the_screens_and_refusals_cross_by_name() {
    assert_eq!(screen_name(Screen::Entry), "entry");
    assert_eq!(screen_name(Screen::Updating), "updating");
    assert_eq!(refused(EntryRefusal::NameIsEmpty), "nameIsEmpty");
    assert_eq!(refused(EntryRefusal::CodeIsInvalid), "codeIsInvalid");
}

use unkvoid::ffi::{keys_of, tail_lines, unreported_range, MAX_REPORT};

#[test]
fn only_what_was_not_reported_yet_travels() {
    // A log of 40 bytes whose first 12 already went.
    assert_eq!(unreported_range(40, 12), Some((12, 40)));
    assert_eq!(unreported_range(40, 40), None);
    // A marker past the end: the log started again.
    assert_eq!(unreported_range(40, 99), Some((0, 40)));
    // Past the ceiling, the end stays.
    assert_eq!(unreported_range(MAX_REPORT + 100, 0), Some((100, MAX_REPORT + 100)));
}

#[test]
fn the_window_of_logs_shows_the_last_lines() {
    assert_eq!(tail_lines("um\ndois\ntres\n", 2), vec!["dois", "tres"]);
    assert_eq!(tail_lines("um\n", 5), vec!["um"]);
}

#[test]
fn a_shortcut_becomes_the_key_and_its_modifiers() {
    assert_eq!(keys_of("CmdOrCtrl+Shift+KeyM"), Some((46, vec![[55, 54], [56, 60]])));
    assert_eq!(keys_of("Hyper+KeyM"), None);
    assert_eq!(keys_of("F99"), None);
}

use unkvoid::api::HttpError;
use unkvoid::failure::Failure;
use unkvoid::ffi::{identity_source, token_failure, IdentitySource};

#[test]
fn a_guest_goes_by_name_and_an_account_by_the_fresh_token_of_where_it_enters() {
    assert_eq!(identity_source(false, Some("channel.5".into())), IdentitySource::Guest);
    assert_eq!(identity_source(true, Some("channel.5".into())), IdentitySource::VoiceToken { channel: "channel.5".into() });
    assert_eq!(identity_source(true, None), IdentitySource::RoomToken);
    assert_eq!(token_failure(HttpError::Failed(Failure::NotAllowed)), Failure::NotAllowed);
    assert_eq!(
        token_failure(HttpError::Invalid { field: "email".into(), message: "x".into() }),
        Failure::Invalid
    );
}

#[test]
fn only_what_was_not_reported_yet_travels_and_without_the_user_name() {
    let log = "linha velha\nERROR em /Users/edsonlima/x\n";
    let (from, offset) = unreported_range(log.len() as u64, 12).expect("slice");
    let slice = &log[from as usize..offset as usize];

    assert_eq!(slice, "ERROR em /Users/edsonlima/x\n", "what was reported does not travel again");
    assert_eq!(offset, 40);
    assert_eq!(scrub(slice, "edsonlima"), "ERROR em /Users/<usuario>/x\n");
    assert_eq!(scrub("edição", "ed"), "edição", "a short name would spoil the text");
    assert!(unreported_range(log.len() as u64, offset).is_none());
}

#[test]
fn an_unknown_app_action_answers_instead_of_going_quiet() {
    let data = unkvoid::json::Json::Object(Vec::new());

    assert!(matches!(unkvoid::interface::app_request("voar", &data, true), unkvoid::interface::AppRequest::Unknown));
    assert!(!unkvoid::interface::unknown_action("voar").is_empty(), "an unknown action went quiet");
}

/// The reason of a `{"failed": reason}` answer.
fn failed_reason(answer: &Json) -> Option<String> {
    match answer {
        Json::Object(members) if members.len() == 1 && members[0].0 == "failed" => match &members[0].1 {
            Json::Text(name) => Some(name.clone()),
            _ => None,
        },
        _ => None,
    }
}

#[test]
fn a_call_answers_its_value_or_names_its_failure() {
    assert_eq!(failed_reason(&call_answer(None)).as_deref(), Some("unreachable"), "no server address yet");
    assert!(matches!(call_answer(Some(Ok(Json::Integer(7)))), Json::Integer(7)));
    assert_eq!(
        failed_reason(&call_answer(Some(Err(HttpError::Failed(Failure::SignedOut))))).as_deref(),
        Some("signedOut")
    );

    let invalid = call_answer(Some(Err(HttpError::Invalid { field: "name".into(), message: "too long".into() })));
    let Json::Object(members) = invalid else { panic!("an object") };
    assert_eq!(members.len(), 1);
    assert_eq!(members[0].0, "invalid");
    let Json::Object(inner) = &members[0].1 else { panic!("an object inside") };
    assert_eq!(inner.len(), 2);
    assert!(matches!(&inner[0], (key, Json::Text(text)) if key == "field" && text == "name"));
    assert!(matches!(&inner[1], (key, Json::Text(text)) if key == "message" && text == "too long"));

    assert_eq!(failed_reason(&room_answer(None)).as_deref(), Some("gone"), "no room open");
    assert!(matches!(room_answer(Some(Json::Bool(true))), Json::Bool(true)));
}
