use unkvoid::models::{Channel, ChannelKind, Membership, Peer, ProducerInfo, Screen, ServerTree};

fn channel(name: &str, kind: ChannelKind, position: i64) -> Channel {
    Channel {
        id: name.into(),
        name: name.into(),
        kind,
        topic: None,
        position,
        user_limit: None,
        permissions: 0,
        overwrites: Vec::new(),
    }
}

#[test]
fn leaving_a_room_lands_where_the_person_came_from() {
    assert_eq!(Screen::home(true), Screen::Hub);
    assert_eq!(Screen::home(false), Screen::Entry);
}

#[test]
fn the_channels_come_out_with_text_first_and_in_position_order() {
    let tree = ServerTree {
        id: 1,
        name: "Casa".into(),
        owner_id: 1,
        invite_code: None,
        icon_url: None,
        me: Membership { user_id: 1, permissions: 0, top_position: 0 },
        roles: Vec::new(),
        members: Vec::new(),
        voice: Vec::new(),
        bans: Vec::new(),
        channels: vec![
            channel("voz", ChannelKind::Voice, 0),
            channel("geral", ChannelKind::Text, 1),
            channel("avisos", ChannelKind::Text, 0),
        ],
    };

    let names: Vec<String> = tree.ordered_channels().into_iter().map(|channel| channel.name).collect();

    assert_eq!(names, ["avisos", "geral", "voz"]);
}

#[test]
fn equal_positions_keep_the_order_they_came_in() {
    let tree = ServerTree {
        id: 1,
        name: "Casa".into(),
        owner_id: 1,
        invite_code: None,
        icon_url: None,
        me: Membership { user_id: 1, permissions: 0, top_position: 0 },
        roles: Vec::new(),
        members: Vec::new(),
        voice: Vec::new(),
        bans: Vec::new(),
        channels: vec![
            channel("b", ChannelKind::Text, 0),
            channel("a", ChannelKind::Text, 0),
            channel("c", ChannelKind::Voice, -1),
        ],
    };

    let names: Vec<String> = tree.ordered_channels().into_iter().map(|channel| channel.name).collect();

    assert_eq!(names, ["b", "a", "c"]);
}

#[test]
fn a_peer_with_a_screen_producer_is_sharing() {
    let producer = |source: &str| ProducerInfo {
        producer_id: "p1".into(),
        kind: "video".into(),
        source: source.into(),
        paused: false,
    };
    let peer = |source: &str| Peer {
        peer_id: "abc".into(),
        user_id: Some("user:12".into()),
        name: "Ada".into(),
        producers: vec![producer(source)],
        reconnecting: false,
        self_peer: false,
    };

    assert!(peer("screen").sharing());
    assert!(!peer("mic").sharing());
}

#[test]
fn a_peer_with_only_a_microphone_is_not_sharing() {
    let peer = Peer {
        peer_id: "abc".into(),
        user_id: None,
        name: "Ada".into(),
        producers: vec![ProducerInfo {
            producer_id: "p1".into(),
            kind: "audio".into(),
            source: "mic".into(),
            paused: false,
        }],
        reconnecting: false,
        self_peer: false,
    };

    assert!(!peer.sharing());
}
