use unkvoid::interface::{app_request, unknown_action, AppRequest};
use unkvoid::json::Json;

fn object(members: Vec<(&str, Json)>) -> Json {
    Json::Object(members.into_iter().map(|(name, value)| (name.to_string(), value)).collect())
}

fn text(value: &str) -> Json {
    Json::Text(value.to_string())
}

#[test]
fn a_room_is_created_with_the_name_and_code_given() {
    let data = object(vec![("name", text("Ada")), ("code", text("abc123"))]);

    match app_request("createRoom", &data, false) {
        AppRequest::CreateRoom { name, code } => assert_eq!((name.as_str(), code.as_str()), ("Ada", "abc123")),
        _ => panic!("not a room"),
    }
    match app_request("joinRoom", &object(vec![]), false) {
        AppRequest::JoinRoom { name, code } => assert_eq!((name.as_str(), code.as_str()), ("", "")),
        _ => panic!("not a room"),
    }
}

#[test]
fn missing_flags_take_the_core_defaults() {
    let empty = object(vec![]);

    assert!(matches!(app_request("muteMicrophone", &empty, false), AppRequest::MuteMicrophone { muted: true }));
    assert!(matches!(app_request("talk", &empty, false), AppRequest::Talk { talking: false }));
    assert!(matches!(app_request("deafen", &empty, false), AppRequest::Deafen { deafened: true }));
    assert!(matches!(app_request("selfView", &empty, false), AppRequest::SelfView { wanted: true }));
    assert!(matches!(app_request("server", &empty, false), AppRequest::Server { id: 0, known: false }));
    assert!(matches!(app_request("logs", &empty, false), AppRequest::Logs { lines: 400 }));
    assert!(matches!(
        app_request("inputMode", &object(vec![("mode", text("voice"))]), false),
        AppRequest::InputMode { sensitivity: 35, .. }
    ));
    assert!(matches!(
        app_request("muteMicrophone", &object(vec![("muted", Json::Bool(false))]), false),
        AppRequest::MuteMicrophone { muted: false }
    ));
}

#[test]
fn the_camera_and_the_keys_are_asked_here_only_on_macos() {
    let data = object(vec![("width", Json::Integer(1920))]);

    assert!(matches!(app_request("openCamera", &data, false), AppRequest::Unknown));
    assert!(matches!(
        app_request("openCamera", &data, true),
        AppRequest::OpenCamera { width: 1920, height: 720, frame_rate: 30 }
    ));
    assert!(matches!(app_request("keyName", &object(vec![]), true), AppRequest::KeyName { code: 0xFFFF }));
    assert!(matches!(app_request("keys", &object(vec![]), false), AppRequest::Unknown));
}

#[test]
fn watching_without_a_producer_watches_everything_and_a_named_source_changes_the_screen() {
    assert!(matches!(app_request("watch", &object(vec![]), false), AppRequest::Watch { producer_id: None }));
    match app_request("watch", &object(vec![("producerId", text("p1"))]), false) {
        AppRequest::Watch { producer_id } => assert_eq!(producer_id.as_deref(), Some("p1")),
        _ => panic!("not a watch"),
    }
    assert!(matches!(
        app_request("changeQuality", &object(vec![("source", Json::Null)]), false),
        AppRequest::ChangeQuality { new_source: true, .. }
    ));
    assert!(matches!(
        app_request("changeQuality", &object(vec![("quality", text("1080p"))]), false),
        AppRequest::ChangeQuality { new_source: false, .. }
    ));
}

#[test]
fn an_upload_keeps_only_the_file_names_that_are_texts() {
    let data = object(vec![
        ("name", text("messages.upload")),
        ("files", Json::Array(vec![text("/tmp/a.png"), Json::Integer(3), text("/tmp/b.pdf")])),
    ]);

    match app_request("upload", &data, false) {
        AppRequest::Upload { name, params, field, files, fields } => {
            assert_eq!(name, "messages.upload");
            assert!(params.is_none() && fields.is_none());
            assert_eq!(field, "");
            assert_eq!(files, vec!["/tmp/a.png".to_string(), "/tmp/b.pdf".to_string()]);
        }
        _ => panic!("not an upload"),
    }
}

#[test]
fn an_unknown_action_is_answered_as_such() {
    assert!(matches!(app_request("fly", &object(vec![]), true), AppRequest::Unknown));
    assert_eq!(unknown_action("fly"), "ação desconhecida: fly");
}
