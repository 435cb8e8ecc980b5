use unkvoid::watching::Watching;

#[test]
fn a_stream_starts_once_and_the_shared_screen_sound_starts_muted() {
    let mut watching = Watching::new();

    assert_eq!(watching.start("screen".into(), true, false), Some(false));
    assert_eq!(watching.start("screen".into(), true, false), None, "already watched");
    assert_eq!(watching.start("screenAudio".into(), false, true), Some(true));
    assert_eq!(watching.start("mic".into(), false, false), Some(false));
    assert!(watching.is_watching("mic"));
    assert!(!watching.is_watching("camera"));
}

#[test]
fn deafening_mutes_only_the_sound_and_hearing_again_keeps_the_screen_sound_muted() {
    let mut watching = Watching::new();

    watching.start("screen".into(), true, false);
    watching.start("screenAudio".into(), false, true);
    watching.start("mic".into(), false, false);

    assert_eq!(
        watching.deafen(true),
        vec![("screenAudio".to_string(), true), ("mic".to_string(), true)]
    );
    assert!(watching.is_deafened());
    assert_eq!(watching.start("late".into(), false, false), Some(true), "a sound that arrives while deafened starts muted");
    assert_eq!(watching.start("camera".into(), true, false), Some(false), "video is never muted");
    assert_eq!(
        watching.deafen(false),
        vec![("screenAudio".to_string(), true), ("mic".to_string(), false), ("late".to_string(), false)]
    );
}

#[test]
fn stopping_one_keeps_the_others_and_stopping_all_empties_the_session() {
    let mut watching = Watching::new();

    watching.start("a".into(), true, false);
    watching.start("b".into(), false, false);
    watching.start("c".into(), true, false);

    assert_eq!(watching.stop(Some("b")), vec!["b".to_string()]);
    assert!(!watching.is_watching("b") && watching.is_watching("a") && watching.is_watching("c"));
    assert_eq!(watching.stop(Some("zzz")), vec!["zzz".to_string()], "the route goes even when nothing was watched");
    assert_eq!(watching.stop(None), vec!["a".to_string(), "c".to_string()]);
    assert!(!watching.is_watching("a"));
}

use unkvoid::json::Json;
use unkvoid::watching::{rtx_of, Rtx};

fn object(members: Vec<(&str, Json)>) -> Json {
    Json::Object(members.into_iter().map(|(name, value)| (name.to_string(), value)).collect())
}

#[test]
fn the_retransmission_comes_only_when_it_fits() {
    let answer = object(vec![("rtx", object(vec![("ssrc", Json::Integer(77)), ("payloadType", Json::Integer(97))]))]);

    assert_eq!(rtx_of(&answer), Some(Rtx { ssrc: 77, payload_type: 97 }));
    assert_eq!(rtx_of(&object(vec![])), None);
    assert_eq!(
        rtx_of(&object(vec![("rtx", object(vec![("ssrc", Json::Integer(77)), ("payloadType", Json::Integer(300))]))])),
        None
    );
}
