use unkvoid::models::{Member, Membership, Role, ServerTree, VoicePerson};
use unkvoid::permissions::{
    has, MemberActions, ADMINISTRATOR, BAN_MEMBERS, KICK_MEMBERS, MANAGE_ROLES, MANAGE_SERVER, MOVE_MEMBERS,
    VIEW_AUDIT_LOG,
};

fn role(id: i64, name: &str, position: i64, everyone: bool) -> Role {
    Role { id, name: name.into(), color: None, position, permissions: 0, is_everyone: everyone }
}

fn member(user_id: i64, name: &str, role_ids: &[i64], is_owner: bool) -> Member {
    Member {
        user_id,
        name: name.into(),
        avatar_url: None,
        nickname: None,
        role_ids: role_ids.to_vec(),
        server_mute: false,
        server_deaf: false,
        is_owner,
    }
}

/// Ada moderates (role 5), Grace is a plain member (role 2), Linus owns the server.
fn tree(my_permissions: i64) -> ServerTree {
    ServerTree {
        id: 1,
        name: "Estúdio".into(),
        owner_id: 3,
        invite_code: None,
        icon_url: None,
        me: Membership { user_id: 1, permissions: my_permissions, top_position: 5 },
        roles: vec![
            role(10, "@everyone", 0, true),
            role(11, "Membro", 2, false),
            role(12, "Moderação", 5, false),
            role(13, "Direção", 9, false),
        ],
        channels: Vec::new(),
        members: vec![
            member(1, "Ada", &[12], false),
            member(2, "Grace", &[11], false),
            member(3, "Linus", &[], true),
            member(4, "Barbara", &[12], false),
        ],
        voice: vec![(
            "01abc".into(),
            vec![VoicePerson { user_id: 2, name: "Grace".into(), sources: Vec::new(), muted: false }],
        )],
        bans: Vec::new(),
    }
}

#[test]
fn an_administrator_has_every_permission() {
    assert!(has(ADMINISTRATOR, BAN_MEMBERS));
    assert!(!has(KICK_MEMBERS, BAN_MEMBERS));
}

#[test]
fn a_moderator_acts_only_on_who_is_below_her() {
    let tree = tree(KICK_MEMBERS | BAN_MEMBERS | MOVE_MEMBERS);

    let grace = tree.member_actions(&tree.members[1]);

    assert!(grace.kick && grace.ban);
    assert!(grace.disconnect, "a Grace está na voz");
    assert!(!grace.mute && !grace.roles, "sem o bit, sem o botão");

    assert_eq!(tree.member_actions(&tree.members[2]), MemberActions::default(), "ninguém age sobre o dono");
    assert_eq!(tree.member_actions(&tree.members[3]), MemberActions::default(), "nem sobre quem tem o mesmo cargo");
}

#[test]
fn everyone_can_change_their_own_nickname_and_nothing_else_on_themselves() {
    let tree = tree(ADMINISTRATOR);

    assert_eq!(
        tree.member_actions(&tree.members[0]),
        MemberActions { nickname: true, ..MemberActions::default() }
    );
}

#[test]
fn roles_move_only_below_my_own_and_never_past_everyone() {
    let tree = tree(MANAGE_ROLES);
    let rows = tree.role_rows();
    let row = |id: i64| *rows.iter().find(|row| row.id == id).expect("row");

    assert_eq!(rows.iter().map(|row| row.id).collect::<Vec<_>>(), [13, 12, 11, 10], "do mais alto para o mais baixo");
    assert!(!row(13).editable && !row(12).editable, "o meu cargo e os de cima não são meus para mexer");
    assert!(row(11).editable && row(11).assignable);
    assert_eq!((row(11).up, row(11).down), (None, None), "acima está o meu cargo, abaixo o @everyone");
    assert!(row(10).editable && !row(10).assignable, "as permissões do @everyone se editam, mas ele não se entrega");
}

#[test]
fn the_abilities_name_what_the_bits_allow() {
    let abilities = tree(MANAGE_SERVER | VIEW_AUDIT_LOG).abilities();

    assert_eq!(abilities.can, ["manageServer", "viewAuditLog"]);
    assert!(!abilities.owner);
    assert!(abilities.members.iter().any(|(id, _)| id == "2"));
}

#[test]
fn the_members_are_keyed_once_each_in_the_order_of_their_ids_in_text() {
    let mut server = tree(KICK_MEMBERS);
    server.members.push(member(10, "Edsger", &[11], false));
    // Grace listed again, now above Ada: the later entry is the one that counts.
    server.members.push(member(2, "Grace", &[13], false));

    let abilities = server.abilities();
    let ids: Vec<&str> = abilities.members.iter().map(|(id, _)| id.as_str()).collect();

    assert_eq!(ids, ["1", "10", "2", "3", "4"]);
    let grace = &abilities.members[2].1;
    assert!(!grace.kick, "the last listing of Grace, above Ada, is the one kept");
    assert!(abilities.members[1].1.kick);
}
