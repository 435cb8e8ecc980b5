use unkvoid::chimes::Chime;
use unkvoid::models::{Peer, ProducerInfo};

fn peer(id: &str, screens: &[&str], self_peer: bool) -> Peer {
    Peer {
        peer_id: id.into(),
        user_id: None,
        name: id.into(),
        producers: screens
            .iter()
            .map(|screen| ProducerInfo {
                producer_id: (*screen).into(),
                kind: "video".into(),
                source: "screen".into(),
                paused: false,
            })
            .collect(),
        reconnecting: false,
        self_peer,
    }
}

#[test]
fn the_first_list_is_arriving_and_does_not_chime() {
    assert_eq!(Chime::after(&[], &[peer("eu", &[], true), peer("ana", &[], false)]), None);
}

#[test]
fn someone_arriving_or_leaving_chimes_before_any_screen() {
    let alone = [peer("eu", &[], true)];
    let with_ana = [peer("eu", &[], true), peer("ana", &["tela"], false)];

    assert_eq!(Chime::after(&alone, &with_ana), Some(Chime::Joined));
    assert_eq!(Chime::after(&with_ana, &alone), Some(Chime::Left));
}

#[test]
fn a_screen_of_someone_else_starting_or_stopping_chimes() {
    let quiet = [peer("eu", &[], true), peer("ana", &[], false)];
    let sharing = [peer("eu", &[], true), peer("ana", &["tela"], false)];

    assert_eq!(Chime::after(&quiet, &sharing), Some(Chime::StreamStarted));
    assert_eq!(Chime::after(&sharing, &quiet), Some(Chime::StreamStopped));
    assert_eq!(Chime::after(&quiet, &quiet), None);
}

#[test]
fn my_own_screen_does_not_chime_for_me() {
    let quiet = [peer("eu", &[], true), peer("ana", &[], false)];
    let mine = [peer("eu", &["minha"], true), peer("ana", &[], false)];

    assert_eq!(Chime::after(&quiet, &mine), None);
}

#[test]
fn the_room_says_who_came_left_or_started_sharing() {
    let alone = [peer("eu", &[], true)];
    let with_ana = [peer("eu", &[], true), peer("ana", &[], false)];
    let ana_sharing = [peer("eu", &[], true), peer("ana", &["tela"], false)];

    assert_eq!(Chime::notice_after(&alone, &with_ana).as_deref(), Some("ana entrou"));
    assert_eq!(Chime::notice_after(&with_ana, &alone).as_deref(), Some("ana saiu"));
    assert_eq!(Chime::notice_after(&with_ana, &ana_sharing).as_deref(), Some("ana começou a transmitir"));
    assert_eq!(Chime::notice_after(&ana_sharing, &with_ana), None);
}

#[test]
fn arriving_is_told_before_a_screen_starts() {
    let alone = [peer("eu", &[], true)];
    let ana_sharing = [peer("eu", &[], true), peer("ana", &["tela"], false)];

    assert_eq!(Chime::after(&alone, &ana_sharing), Some(Chime::Joined));
    assert_eq!(Chime::notice_after(&alone, &ana_sharing).as_deref(), Some("ana entrou"));
}

#[test]
fn a_list_that_did_not_change_plays_nothing() {
    let list = vec![peer("abc", &["p1"], false), peer("me", &["p2"], true)];

    assert_eq!(Chime::after(&list, &list), None);
    assert_eq!(Chime::notice_after(&list, &list), None);
}
