use std::collections::HashSet;

use unkvoid::members::{display_name, group, top_role, OFFLINE_KEY};
use unkvoid::models::{Member, Membership, Role, ServerTree};

fn role(id: i64, name: &str, position: i64, everyone: bool) -> Role {
    Role {
        id,
        name: name.into(),
        color: (!everyone).then(|| format!("#00000{id}")),
        position,
        permissions: 0,
        is_everyone: everyone,
    }
}

fn member(user_id: i64, name: &str, roles: &[i64]) -> Member {
    Member {
        user_id,
        name: name.into(),
        avatar_url: None,
        nickname: None,
        role_ids: roles.to_vec(),
        server_mute: false,
        server_deaf: false,
        is_owner: false,
    }
}

fn tree() -> ServerTree {
    ServerTree {
        id: 1,
        name: "servidor".into(),
        owner_id: 1,
        invite_code: None,
        icon_url: None,
        me: Membership { user_id: 1, permissions: 0, top_position: 0 },
        roles: vec![role(1, "todos", 0, true), role(2, "Moderação", 5, false), role(3, "Amigos", 2, false)],
        channels: Vec::new(),
        members: vec![
            member(10, "zeca", &[3]),
            member(11, "ana", &[2, 3]),
            member(12, "bia", &[]),
            member(13, "caio", &[2]),
            member(14, "duda", &[]),
        ],
        voice: Vec::new(),
        bans: Vec::new(),
    }
}

#[test]
fn online_people_group_under_their_highest_role_and_offline_goes_last() {
    let online = HashSet::from([10, 11, 12, 13]);
    let groups = group(&tree(), &online);
    let names: Vec<(&str, Vec<&str>)> = groups
        .iter()
        .map(|group| (group.label.as_str(), group.members.iter().map(display_name).collect()))
        .collect();

    assert_eq!(
        names,
        [
            ("Moderação", vec!["ana", "caio"]),
            ("Amigos", vec!["zeca"]),
            ("todos", vec!["bia"]),
            ("Offline", vec!["duda"]),
        ]
    );
    assert_eq!(groups[0].color.as_deref(), Some("#000002"));
    assert_eq!(groups[2].color, None);
}

#[test]
fn nobody_offline_means_no_offline_group() {
    let online = HashSet::from([10, 11, 12, 13, 14]);

    assert!(group(&tree(), &online).iter().all(|group| group.key != OFFLINE_KEY));
}

#[test]
fn the_highest_role_leaves_everyone_aside_and_the_nickname_is_shown() {
    let tree = tree();
    let mut ana = member(11, "ana", &[1, 2, 3]);

    assert_eq!(top_role(&tree, &ana).map(|role| role.id), Some(2));
    assert!(top_role(&tree, &member(12, "bia", &[1])).is_none());

    ana.nickname = Some("Aninha".into());
    assert_eq!(display_name(&ana), "Aninha");
}
