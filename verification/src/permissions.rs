//! What this person may do on a server, so the interface knows which button to draw.
//!
//! The account server authorises every call; this only answers "is the button worth
//! drawing?", and lives in the core because the sum is the same in the three interfaces:
//! the order of the roles, who is above whom, which role can be handed out.

use vstd::prelude::*;

use crate::models::{Member, MemberView, Role, RoleView, ServerTree, VoicePerson};
use crate::models::same_text;
use crate::order::{
    entries_view, key_less, key_lt, lemma_key_lt_asymmetric, lemma_key_lt_irreflexive, lemma_key_lt_total,
    lemma_key_lt_transitive, lemma_sort_maps, map_entries, sorted_values, spec_stable_sort, values_of,
};
use crate::text::{chars_of, signed_decimal, spec_signed_decimal};

verus! {

pub const ADMINISTRATOR: i64 = 1;
pub const MANAGE_SERVER: i64 = 2;
pub const MANAGE_ROLES: i64 = 4;
pub const MANAGE_CHANNELS: i64 = 8;
pub const KICK_MEMBERS: i64 = 16;
pub const BAN_MEMBERS: i64 = 32;
pub const CREATE_INVITE: i64 = 64;
pub const VIEW_AUDIT_LOG: i64 = 128;
pub const VIEW_CHANNEL: i64 = 256;
pub const SEND_MESSAGES: i64 = 512;
pub const MANAGE_MESSAGES: i64 = 1024;
pub const CONNECT: i64 = 2048;
pub const SPEAK: i64 = 4096;
pub const STREAM: i64 = 8192;
pub const VIDEO: i64 = 16384;
pub const MUTE_MEMBERS: i64 = 32768;
pub const DEAFEN_MEMBERS: i64 = 65536;
pub const MOVE_MEMBERS: i64 = 131072;

/// An administrator has everything, as in the server's own sum.
pub open spec fn spec_has(bits: i64, flag: i64) -> bool {
    bits & ADMINISTRATOR != 0 || bits & flag == flag
}

pub fn has(bits: i64, flag: i64) -> (allowed: bool)
    ensures
        allowed == spec_has(bits, flag),
{
    bits & ADMINISTRATOR != 0 || bits & flag == flag
}

/// An administrator may do anything, whatever the flag.
pub proof fn law_an_administrator_has_every_permission(bits: i64, flag: i64)
    requires
        bits & ADMINISTRATOR != 0,
    ensures
        spec_has(bits, flag),
{
}

#[derive(Debug, Clone, Copy, PartialEq, Eq, Structural)]
pub struct MemberActions {
    pub nickname: bool,
    pub mute: bool,
    pub deafen: bool,
    pub disconnect: bool,
    pub kick: bool,
    pub ban: bool,
    pub roles: bool,
}

impl Default for MemberActions {
    /// Nothing allowed.
    fn default() -> (actions: Self)
        ensures
            actions == (MemberActions {
                nickname: false,
                mute: false,
                deafen: false,
                disconnect: false,
                kick: false,
                ban: false,
                roles: false,
            }),
    {
        MemberActions {
            nickname: false,
            mute: false,
            deafen: false,
            disconnect: false,
            kick: false,
            ban: false,
            roles: false,
        }
    }
}

/// A role in the settings list: whether it can be touched, and to which position it would
/// go moving up or down (`None` when the neighbour does not allow it).
#[derive(Debug, Clone, Copy, PartialEq, Eq, Structural)]
pub struct RoleRow {
    pub id: i64,
    pub editable: bool,
    pub assignable: bool,
    pub up: Option<i64>,
    pub down: Option<i64>,
}

#[derive(Debug, Clone, PartialEq, Eq)]
pub struct Abilities {
    pub can: Vec<&'static str>,
    pub owner: bool,
    /// Per member, keyed by `user_id` in text: a JSON object key is no number.
    pub members: Vec<(String, MemberActions)>,
    pub roles: Vec<RoleRow>,
}

/// The code points of a text: strings compare by them, as Rust's `String` does.
pub open spec fn code_points(text: Seq<char>) -> Seq<i128> {
    text.map_values(|c: char| c as u32 as i128)
}

/// `a` comes strictly before `b` in the order of strings.
pub open spec fn text_lt(a: Seq<char>, b: Seq<char>) -> bool {
    key_lt(code_points(a), code_points(b))
}

/// How a member is keyed among the abilities: the user id in text.
pub open spec fn member_key(member: MemberView) -> Seq<char> {
    spec_signed_decimal(member.user_id as int)
}

/// The index of the last member keyed `key`, or -1.
pub open spec fn last_keyed(members: Seq<MemberView>, key: Seq<char>) -> int
    decreases members.len(),
{
    if members.len() == 0 {
        -1
    } else if member_key(members.last()) == key {
        members.len() - 1
    } else {
        last_keyed(members.drop_last(), key)
    }
}

pub open spec fn table_view(table: Seq<(String, MemberActions)>) -> Seq<(Seq<char>, MemberActions)> {
    table.map_values(|entry: (String, MemberActions)| (entry.0@, entry.1))
}

/// What each member allows, as a map keyed by user id holds it: every key once, in the
/// order of strings, and under it the actions on the last member with that key.
pub open spec fn is_member_table(
    tree: ServerTree,
    table: Seq<(Seq<char>, MemberActions)>,
    members: Seq<MemberView>,
) -> bool {
    &&& forall|i: int, j: int| 0 <= i < j < table.len() ==> text_lt(#[trigger] table[i].0, #[trigger] table[j].0)
    &&& forall|i: int|
        0 <= i < table.len() ==> 0 <= #[trigger] last_keyed(members, table[i].0) && table[i].1
            == spec_member_actions(tree, members[last_keyed(members, table[i].0)])
    &&& forall|m: int| 0 <= m < members.len() ==> has_key(table, member_key(#[trigger] members[m]))
}

/// Some entry of the table is keyed `key`.
pub open spec fn has_key(table: Seq<(Seq<char>, MemberActions)>, key: Seq<char>) -> bool {
    exists|i: int| 0 <= i < table.len() && #[trigger] table[i].0 == key
}

proof fn lemma_code_points_injective(a: Seq<char>, b: Seq<char>)
    requires
        code_points(a) == code_points(b),
    ensures
        a == b,
{
    assert(a.len() == code_points(a).len());
    assert forall|i: int| 0 <= i < a.len() implies a[i] == b[i] by {
        assert(code_points(a)[i] == a[i] as u32 as i128);
        assert(code_points(b)[i] == b[i] as u32 as i128);
        assert(a[i] as u32 == b[i] as u32);
        vstd::utf8::char_u32_cast(a[i], a[i] as u32);
        vstd::utf8::char_u32_cast(b[i], b[i] as u32);
    }
    assert(a =~= b);
}

proof fn lemma_text_lt_total(a: Seq<char>, b: Seq<char>)
    ensures
        text_lt(a, b) || text_lt(b, a) || a == b,
        text_lt(a, b) ==> !text_lt(b, a) && a != b,
{
    lemma_key_lt_total(code_points(a), code_points(b));
    if code_points(a) == code_points(b) {
        lemma_code_points_injective(a, b);
    }
    if text_lt(a, b) {
        lemma_key_lt_asymmetric(code_points(a), code_points(b));
        lemma_key_lt_irreflexive(code_points(a));
    }
}

proof fn lemma_last_keyed_push(members: Seq<MemberView>, member: MemberView, key: Seq<char>)
    ensures
        last_keyed(members.push(member), key) == (if member_key(member) == key {
            members.len() as int
        } else {
            last_keyed(members, key)
        }),
{
    assert(members.push(member).drop_last() =~= members);
}

proof fn lemma_last_keyed_bounds(members: Seq<MemberView>, key: Seq<char>)
    ensures
        -1 <= last_keyed(members, key) < members.len(),
    decreases members.len(),
{
    if members.len() > 0 {
        lemma_last_keyed_bounds(members.drop_last(), key);
    }
}

/// A member whose key is already in the table takes over its entry.
proof fn lemma_table_replace(
    tree: ServerTree,
    table: Seq<(Seq<char>, MemberActions)>,
    members: Seq<MemberView>,
    member: MemberView,
    at: int,
)
    requires
        is_member_table(tree, table, members),
        0 <= at < table.len(),
        table[at].0 == member_key(member),
    ensures
        is_member_table(
            tree,
            table.update(at, (member_key(member), spec_member_actions(tree, member))),
            members.push(member),
        ),
{
    let key = member_key(member);
    let after = table.update(at, (key, spec_member_actions(tree, member)));
    let more = members.push(member);
    assert forall|i: int, j: int| 0 <= i < j < after.len() implies text_lt(#[trigger] after[i].0, #[trigger] after[j].0) by {
        assert(text_lt(table[i].0, table[j].0));
    }
    assert forall|i: int| 0 <= i < after.len() implies 0 <= #[trigger] last_keyed(more, after[i].0) && after[i].1
        == spec_member_actions(tree, more[last_keyed(more, after[i].0)]) by {
        lemma_last_keyed_push(members, member, after[i].0);
        if i != at {
            if i < at {
                assert(text_lt(table[i].0, table[at].0));
            } else {
                assert(text_lt(table[at].0, table[i].0));
            }
            lemma_text_lt_total(table[i].0, table[at].0);
            lemma_text_lt_total(table[at].0, table[i].0);
            lemma_last_keyed_bounds(members, table[i].0);
            assert(more[last_keyed(members, table[i].0)] == members[last_keyed(members, table[i].0)]);
        }
    }
    assert forall|m: int| 0 <= m < more.len() implies has_key(after, member_key(#[trigger] more[m])) by {
        if m < members.len() {
            assert(more[m] == members[m]);
            assert(has_key(table, member_key(members[m])));
            let i = choose|i: int| 0 <= i < table.len() && #[trigger] table[i].0 == member_key(members[m]);
            assert(after[i].0 == table[i].0);
        } else {
            assert(after[at].0 == member_key(more[m]));
        }
    }
}

/// A member whose key is not in the table yet enters it where its key sorts.
proof fn lemma_table_insert(
    tree: ServerTree,
    table: Seq<(Seq<char>, MemberActions)>,
    members: Seq<MemberView>,
    member: MemberView,
    at: int,
)
    requires
        is_member_table(tree, table, members),
        0 <= at <= table.len(),
        forall|i: int| 0 <= i < at ==> text_lt(#[trigger] table[i].0, member_key(member)),
        at < table.len() ==> text_lt(member_key(member), table[at].0),
    ensures
        is_member_table(
            tree,
            table.insert(at, (member_key(member), spec_member_actions(tree, member))),
            members.push(member),
        ),
{
    let key = member_key(member);
    let after = table.insert(at, (key, spec_member_actions(tree, member)));
    let more = members.push(member);
    assert forall|j: int| at <= j < table.len() implies text_lt(key, #[trigger] table[j].0) by {
        if j > at {
            assert(text_lt(table[at].0, table[j].0));
            lemma_key_lt_transitive(code_points(key), code_points(table[at].0), code_points(table[j].0));
        }
    }
    assert forall|i: int, j: int| 0 <= i < j < after.len() implies text_lt(#[trigger] after[i].0, #[trigger] after[j].0) by {
        if j < at {
            assert(text_lt(table[i].0, table[j].0));
        } else if j == at {
            assert(text_lt(table[i].0, key));
        } else if i == at {
            assert(after[j] == table[j - 1]);
            assert(text_lt(key, table[j - 1].0));
        } else if i < at {
            assert(after[j] == table[j - 1]);
            assert(text_lt(table[i].0, key));
            assert(text_lt(key, table[j - 1].0));
            lemma_key_lt_transitive(code_points(table[i].0), code_points(key), code_points(table[j - 1].0));
        } else {
            assert(after[i] == table[i - 1] && after[j] == table[j - 1]);
            assert(text_lt(table[i - 1].0, table[j - 1].0));
        }
    }
    assert forall|i: int| 0 <= i < after.len() implies 0 <= #[trigger] last_keyed(more, after[i].0) && after[i].1
        == spec_member_actions(tree, more[last_keyed(more, after[i].0)]) by {
        lemma_last_keyed_push(members, member, after[i].0);
        if i != at {
            let old = if i < at { i } else { i - 1 };
            assert(after[i] == table[old]);
            if i < at {
                assert(text_lt(table[old].0, key));
                lemma_text_lt_total(table[old].0, key);
            } else {
                assert(text_lt(key, table[old].0));
                lemma_text_lt_total(key, table[old].0);
            }
            lemma_last_keyed_bounds(members, table[old].0);
            assert(more[last_keyed(members, table[old].0)] == members[last_keyed(members, table[old].0)]);
        }
    }
    assert forall|m: int| 0 <= m < more.len() implies has_key(after, member_key(#[trigger] more[m])) by {
        if m < members.len() {
            assert(more[m] == members[m]);
            assert(has_key(table, member_key(members[m])));
            let i = choose|i: int| 0 <= i < table.len() && #[trigger] table[i].0 == member_key(members[m]);
            if i < at {
                assert(after[i] == table[i]);
            } else {
                assert(after[i + 1] == table[i]);
            }
        } else {
            assert(after[at].0 == member_key(more[m]));
        }
    }
}

fn code_points_of(text: &str) -> (points: Vec<i128>)
    ensures
        points@ == code_points(text@),
{
    let chars = chars_of(text);
    let mut points: Vec<i128> = Vec::new();
    let mut index: usize = 0;

    while index < chars.len()
        invariant
            index <= chars.len(),
            chars@ == text@,
            points@ == code_points(chars@.take(index as int)),
        decreases chars.len() - index,
    {
        let c = chars[index];
        points.push((c as u32) as i128);
        proof {
            assert(code_points(chars@.take(index + 1)) =~= code_points(chars@.take(index as int)).push(
                chars@[index as int] as u32 as i128,
            ));
        }
        index = index + 1;
    }

    proof {
        assert(chars@.take(index as int) =~= chars@);
    }

    points
}

pub open spec fn role_views(roles: Seq<Role>) -> Seq<RoleView> {
    roles.map_values(|role: Role| role@)
}

pub open spec fn member_views(members: Seq<Member>) -> Seq<MemberView> {
    members.map_values(|member: Member| member@)
}

/// The highest position among the roles a member holds, and never below zero.
pub open spec fn best_position(roles: Seq<RoleView>, role_ids: Seq<i64>) -> i64
    decreases roles.len(),
{
    if roles.len() == 0 {
        0
    } else {
        let rest = best_position(roles.drop_last(), role_ids);
        let role = roles.last();
        if role_ids.contains(role.id) && role.position > rest {
            role.position
        } else {
            rest
        }
    }
}

/// The highest role of a member. The owner is above everyone.
pub open spec fn spec_top_position(owner_id: i64, roles: Seq<RoleView>, member: MemberView) -> i64 {
    if member.is_owner || member.user_id == owner_id {
        i64::MAX
    } else {
        best_position(roles, member.role_ids)
    }
}

/// The first member with the account `user_id`.
pub open spec fn first_member(members: Seq<MemberView>, user_id: i64) -> Option<MemberView>
    decreases members.len(),
{
    if members.len() == 0 {
        None
    } else if members[0].user_id == user_id {
        Some(members[0])
    } else {
        first_member(members.drop_first(), user_id)
    }
}

/// Someone with the account `user_id` is in some voice channel.
pub open spec fn in_voice(voice: Seq<(String, Vec<VoicePerson>)>, user_id: i64) -> bool {
    exists|c: int, p: int| 0 <= c < voice.len() && 0 <= p < voice[c].1.len() && #[trigger] voice[c].1@[p].user_id == user_id
}

/// What the person may do to `member`: only to whoever is below her own highest role,
/// never to herself but for her nickname, and each action only with its bit.
pub open spec fn spec_member_actions(tree: ServerTree, member: MemberView) -> MemberActions {
    let me = tree.me;
    let roles = role_views(tree.roles@);
    let this_is_me = member.user_id == me.user_id;
    let below = !this_is_me && match first_member(member_views(tree.members@), me.user_id) {
        Some(mine) => spec_top_position(tree.owner_id, roles, mine) > spec_top_position(tree.owner_id, roles, member),
        None => false,
    };
    MemberActions {
        nickname: this_is_me || (below && spec_has(me.permissions, MANAGE_SERVER)),
        mute: below && spec_has(me.permissions, MUTE_MEMBERS),
        deafen: below && spec_has(me.permissions, DEAFEN_MEMBERS),
        disconnect: below && in_voice(tree.voice@, member.user_id) && spec_has(me.permissions, MOVE_MEMBERS),
        kick: below && spec_has(me.permissions, KICK_MEMBERS),
        ban: below && spec_has(me.permissions, BAN_MEMBERS),
        roles: below && spec_has(me.permissions, MANAGE_ROLES),
    }
}

/// Where a role goes in the settings list: from the highest position down.
pub open spec fn role_key(role: RoleView) -> Seq<i128> {
    seq![(0 - role.position) as i128]
}

/// The roles from the highest to the lowest, equal positions in the order they came.
pub open spec fn sorted_roles(roles: Seq<RoleView>) -> Seq<RoleView> {
    values_of(spec_stable_sort(roles.map_values(|role: RoleView| (role_key(role), role))))
}

pub open spec fn spec_role_row(roles: Seq<RoleView>, index: int, my_top: i64) -> RoleRow {
    let role = roles[index];
    let editable = role.is_everyone || role.position < my_top;
    let movable = editable && !role.is_everyone;
    RoleRow {
        id: role.id,
        editable,
        assignable: !role.is_everyone && role.position < my_top,
        up: if index > 0 && movable && !roles[index - 1].is_everyone && roles[index - 1].position < my_top {
            Some(roles[index - 1].position)
        } else {
            None
        },
        down: if index + 1 < roles.len() && movable && !roles[index + 1].is_everyone {
            Some(roles[index + 1].position)
        } else {
            None
        },
    }
}

/// The roles from the highest to the lowest, with what can be done to each.
pub open spec fn spec_role_rows(roles: Seq<RoleView>, my_top: i64) -> Seq<RoleRow> {
    let sorted = sorted_roles(roles);
    Seq::new(sorted.len(), |index: int| spec_role_row(sorted, index, my_top))
}

/// The name the interface reads and the bit it stands for.
pub open spec fn named_flags() -> Seq<(Seq<char>, i64)> {
    seq![
        ("administrator"@, ADMINISTRATOR),
        ("manageServer"@, MANAGE_SERVER),
        ("manageRoles"@, MANAGE_ROLES),
        ("manageChannels"@, MANAGE_CHANNELS),
        ("kickMembers"@, KICK_MEMBERS),
        ("banMembers"@, BAN_MEMBERS),
        ("createInvite"@, CREATE_INVITE),
        ("viewAuditLog"@, VIEW_AUDIT_LOG),
        ("manageMessages"@, MANAGE_MESSAGES),
        ("muteMembers"@, MUTE_MEMBERS),
        ("deafenMembers"@, DEAFEN_MEMBERS),
        ("moveMembers"@, MOVE_MEMBERS),
    ]
}

/// The names of the flags the bits allow, in the table's order.
pub open spec fn allowed_names(flags: Seq<(Seq<char>, i64)>, bits: i64) -> Seq<Seq<char>>
    decreases flags.len(),
{
    if flags.len() == 0 {
        Seq::empty()
    } else {
        let rest = allowed_names(flags.drop_last(), bits);
        if spec_has(bits, flags.last().1) { rest.push(flags.last().0) } else { rest }
    }
}

pub open spec fn str_views(texts: Seq<&'static str>) -> Seq<Seq<char>> {
    texts.map_values(|text: &'static str| text@)
}

fn first_member_index(members: &Vec<Member>, user_id: i64) -> (found: Option<usize>)
    ensures
        match first_member(member_views(members@), user_id) {
            Some(member) => found matches Some(i) && i < members.len() && members@[i as int]@ == member,
            None => found is None,
        },
{
    let ghost views = member_views(members@);
    let mut index: usize = 0;

    proof {
        assert(views.skip(0) =~= views);
    }

    while index < members.len()
        invariant
            index <= members.len(),
            views == member_views(members@),
            first_member(views, user_id) == first_member(views.skip(index as int), user_id),
        decreases members.len() - index,
    {
        proof {
            assert(views.skip(index as int)[0] == members@[index as int]@);
            assert(views.skip(index as int).drop_first() =~= views.skip(index + 1));
        }
        if members[index].user_id == user_id {
            return Some(index);
        }
        index = index + 1;
    }

    proof {
        assert(views.skip(index as int) =~= Seq::<MemberView>::empty());
    }

    None
}

fn holds_role(role_ids: &Vec<i64>, id: i64) -> (held: bool)
    ensures
        held == role_ids@.contains(id),
{
    let mut index: usize = 0;

    while index < role_ids.len()
        invariant
            index <= role_ids.len(),
            forall|i: int| 0 <= i < index ==> role_ids@[i] != id,
        decreases role_ids.len() - index,
    {
        if role_ids[index] == id {
            proof {
                assert(role_ids@[index as int] == id);
            }
            return true;
        }
        index = index + 1;
    }

    false
}

impl ServerTree {
    pub fn can(&self, flag: i64) -> (allowed: bool)
        ensures
            allowed == spec_has(self.me.permissions, flag),
    {
        has(self.me.permissions, flag)
    }

    /// The highest role of a member. The owner is above everyone.
    fn top_position(&self, member: &Member) -> (position: i64)
        ensures
            position == spec_top_position(self.owner_id, role_views(self.roles@), member@),
    {
        if member.is_owner || member.user_id == self.owner_id {
            return i64::MAX;
        }

        let ghost roles = role_views(self.roles@);
        let mut best: i64 = 0;
        let mut index: usize = 0;

        while index < self.roles.len()
            invariant
                index <= self.roles.len(),
                roles == role_views(self.roles@),
                best == best_position(roles.take(index as int), member@.role_ids),
            decreases self.roles.len() - index,
        {
            proof {
                assert(roles.take(index + 1).drop_last() =~= roles.take(index as int));
                assert(roles.take(index + 1).last() == self.roles@[index as int]@);
            }
            let role = &self.roles[index];
            if holds_role(&member.role_ids, role.id) && role.position > best {
                best = role.position;
            }
            index = index + 1;
        }

        proof {
            assert(roles.take(index as int) =~= roles);
        }

        best
    }

    fn in_voice(&self, user_id: i64) -> (found: bool)
        ensures
            found == in_voice(self.voice@, user_id),
    {
        let mut c: usize = 0;

        while c < self.voice.len()
            invariant
                c <= self.voice.len(),
                forall|k: int, p: int| 0 <= k < c && 0 <= p < self.voice@[k].1.len() ==> #[trigger] self.voice@[k].1@[p].user_id != user_id,
            decreases self.voice.len() - c,
        {
            let people = &self.voice[c].1;
            let mut p: usize = 0;

            while p < people.len()
                invariant
                    c < self.voice.len(),
                    people == self.voice@[c as int].1,
                    p <= people.len(),
                    forall|k: int, q: int| 0 <= k < c && 0 <= q < self.voice@[k].1.len() ==> #[trigger] self.voice@[k].1@[q].user_id != user_id,
                    forall|q: int| 0 <= q < p ==> #[trigger] people@[q].user_id != user_id,
                decreases people.len() - p,
            {
                if people[p].user_id == user_id {
                    proof {
                        assert(self.voice@[c as int].1@[p as int].user_id == user_id);
                    }
                    return true;
                }
                p = p + 1;
            }
            c = c + 1;
        }

        false
    }

    /// What the person may do to `member`.
    pub fn member_actions(&self, member: &Member) -> (actions: MemberActions)
        ensures
            actions == spec_member_actions(*self, member@),
    {
        let this_is_me = member.user_id == self.me.user_id;
        let below = if this_is_me {
            false
        } else {
            match first_member_index(&self.members, self.me.user_id) {
                Some(mine) => self.top_position(&self.members[mine]) > self.top_position(member),
                None => false,
            }
        };
        let in_voice = self.in_voice(member.user_id);

        MemberActions {
            nickname: this_is_me || (below && self.can(MANAGE_SERVER)),
            mute: below && self.can(MUTE_MEMBERS),
            deafen: below && self.can(DEAFEN_MEMBERS),
            disconnect: below && in_voice && self.can(MOVE_MEMBERS),
            kick: below && self.can(KICK_MEMBERS),
            ban: below && self.can(BAN_MEMBERS),
            roles: below && self.can(MANAGE_ROLES),
        }
    }

    /// The roles from the highest to the lowest, with what can be done to each.
    pub fn role_rows(&self) -> (rows: Vec<RoleRow>)
        ensures
            rows@ == spec_role_rows(role_views(self.roles@), self.me.top_position),
    {
        let mut entries: Vec<(Vec<i128>, &Role)> = Vec::new();
        let mut index: usize = 0;

        while index < self.roles.len()
            invariant
                index <= self.roles.len(),
                entries.len() == index,
                forall|i: int| 0 <= i < index ==> (#[trigger] entries@[i]).0@ == role_key(self.roles@[i]@)
                    && *entries@[i].1 == self.roles@[i],
            decreases self.roles.len() - index,
        {
            let role = &self.roles[index];
            let descending: i128 = 0i128 - role.position as i128;
            let key = vec![descending];
            proof {
                assert(key@ =~= role_key(role@));
            }
            entries.push((key, role));
            index = index + 1;
        }

        let ghost keyed = entries_view(entries@);
        let roles = sorted_values(entries);
        let ghost view_of = |role: &Role| role@;
        let ghost sorted = sorted_roles(role_views(self.roles@));

        proof {
            assert(map_entries(keyed, view_of) =~= role_views(self.roles@).map_values(
                |role: RoleView| (role_key(role), role),
            ));
            lemma_sort_maps(keyed, view_of);
            assert(values_of(map_entries(spec_stable_sort(keyed), view_of)) =~= roles@.map_values(view_of));
            assert(roles@.map_values(view_of) == sorted);
        }

        let my_top = self.me.top_position;
        let mut rows: Vec<RoleRow> = Vec::new();
        let mut at: usize = 0;

        while at < roles.len()
            invariant
                at <= roles.len(),
                roles@.map_values(view_of) == sorted,
                view_of == (|role: &Role| role@),
                my_top == self.me.top_position,
                rows@ == Seq::new(at as nat, |index: int| spec_role_row(sorted, index, my_top)),
            decreases roles.len() - at,
        {
            let role = roles[at];
            let editable = role.is_everyone || role.position < my_top;
            let movable = editable && !role.is_everyone;
            let up = if at > 0 && movable && !roles[at - 1].is_everyone && roles[at - 1].position < my_top {
                Some(roles[at - 1].position)
            } else {
                None
            };
            let down = if at + 1 < roles.len() && movable && !roles[at + 1].is_everyone {
                Some(roles[at + 1].position)
            } else {
                None
            };
            let row = RoleRow {
                id: role.id,
                editable,
                assignable: !role.is_everyone && role.position < my_top,
                up,
                down,
            };

            proof {
                assert(sorted[at as int] == roles@[at as int]@);
                if at > 0 {
                    assert(sorted[at - 1] == roles@[at - 1]@);
                }
                if at + 1 < roles.len() {
                    assert(sorted[at + 1] == roles@[at + 1]@);
                }
                assert(row == spec_role_row(sorted, at as int, my_top));
            }

            rows.push(row);
            at = at + 1;

            proof {
                assert(rows@ =~= Seq::new(at as nat, |index: int| spec_role_row(sorted, index, my_top)));
            }
        }

        rows
    }

    /// What each member allows, keyed by user id in text: every key once, in the order of
    /// strings, and a member listed twice counts as listed last.
    fn member_table(&self) -> (table: Vec<(String, MemberActions)>)
        ensures
            is_member_table(*self, table_view(table@), member_views(self.members@)),
    {
        let ghost all = member_views(self.members@);
        let mut table: Vec<(String, MemberActions)> = Vec::new();
        let mut codes: Vec<Vec<i128>> = Vec::new();
        let mut at: usize = 0;

        proof {
            assert(table_view(table@) =~= Seq::<(Seq<char>, MemberActions)>::empty());
            assert(all.take(0) =~= Seq::<MemberView>::empty());
        }

        while at < self.members.len()
            invariant
                at <= self.members.len(),
                all == member_views(self.members@),
                codes.len() == table.len(),
                forall|i: int| 0 <= i < codes.len() ==> (#[trigger] codes@[i])@ == code_points(table@[i].0@),
                is_member_table(*self, table_view(table@), all.take(at as int)),
            decreases self.members.len() - at,
        {
            let member = &self.members[at];
            let key = signed_decimal(member.user_id);
            let key_codes = code_points_of(key.as_str());
            let actions = self.member_actions(member);
            let ghost before = table_view(table@);
            let ghost before_codes = codes@;
            let mut place: usize = 0;

            proof {
                assert(all[at as int] == member@);
                assert(all.take(at + 1) =~= all.take(at as int).push(member@));
            }

            while place < table.len() && key_less(&codes[place], &key_codes)
                invariant
                    place <= table.len(),
                    codes.len() == table.len(),
                    before == table_view(table@),
                    forall|i: int| 0 <= i < codes.len() ==> (#[trigger] codes@[i])@ == code_points(table@[i].0@),
                    key_codes@ == code_points(key@),
                    forall|i: int| 0 <= i < place ==> text_lt(#[trigger] before[i].0, key@),
                decreases table.len() - place,
            {
                proof {
                    assert(before[place as int].0 == table@[place as int].0@);
                }
                place = place + 1;
            }

            let ghost entry = (key@, actions);
            if place < table.len() && same_text(table[place].0.as_str(), key.as_str()) {
                proof {
                    assert(before[place as int].0 == key@);
                    lemma_table_replace(*self, before, all.take(at as int), member@, place as int);
                }
                table.set(place, (key, actions));
                proof {
                    assert(table_view(table@) =~= before.update(place as int, entry));
                }
            } else {
                proof {
                    if place < table.len() {
                        assert(before[place as int].0 == table@[place as int].0@);
                        assert(!text_lt(before[place as int].0, key@));
                        lemma_text_lt_total(before[place as int].0, key@);
                    }
                    lemma_table_insert(*self, before, all.take(at as int), member@, place as int);
                }
                table.insert(place, (key, actions));
                codes.insert(place, key_codes);
                proof {
                    assert(table_view(table@) =~= before.insert(place as int, entry));
                    assert forall|i: int| 0 <= i < codes.len() implies (#[trigger] codes@[i])@ == code_points(
                        table@[i].0@,
                    ) by {
                        if i > place {
                            assert(codes@[i] == before_codes[i - 1]);
                        }
                    }
                }
            }
            at = at + 1;
        }

        proof {
            assert(all.take(at as int) =~= all);
        }

        table
    }

    /// Everything the interface needs to draw the server's buttons.
    pub fn abilities(&self) -> (abilities: Abilities)
        ensures
            str_views(abilities.can@) == allowed_names(named_flags(), self.me.permissions),
            abilities.owner == (self.owner_id == self.me.user_id),
            is_member_table(*self, table_view(abilities.members@), member_views(self.members@)),
            abilities.roles@ == spec_role_rows(role_views(self.roles@), self.me.top_position),
    {
        let names: Vec<&'static str> = vec![
            "administrator", "manageServer", "manageRoles", "manageChannels", "kickMembers", "banMembers",
            "createInvite", "viewAuditLog", "manageMessages", "muteMembers", "deafenMembers", "moveMembers",
        ];
        let flags: Vec<i64> = vec![
            ADMINISTRATOR, MANAGE_SERVER, MANAGE_ROLES, MANAGE_CHANNELS, KICK_MEMBERS, BAN_MEMBERS, CREATE_INVITE,
            VIEW_AUDIT_LOG, MANAGE_MESSAGES, MUTE_MEMBERS, DEAFEN_MEMBERS, MOVE_MEMBERS,
        ];
        let ghost table = named_flags();
        let mut can: Vec<&'static str> = Vec::new();
        let mut index: usize = 0;

        proof {
            assert(names.len() == table.len() && flags.len() == table.len());
            assert(forall|i: int| 0 <= i < table.len() ==> #[trigger] table[i] == (names@[i]@, flags@[i]));
        }

        while index < names.len()
            invariant
                index <= names.len() == flags.len() == table.len(),
                table == named_flags(),
                forall|i: int| 0 <= i < table.len() ==> #[trigger] table[i] == (names@[i]@, flags@[i]),
                str_views(can@) == allowed_names(table.take(index as int), self.me.permissions),
            decreases names.len() - index,
        {
            proof {
                assert(table.take(index + 1).drop_last() =~= table.take(index as int));
                assert(table.take(index + 1).last() == table[index as int]);
            }
            if self.can(flags[index]) {
                let ghost before = can@;
                can.push(names[index]);
                proof {
                    assert(str_views(can@) =~= str_views(before).push(names@[index as int]@));
                }
            }
            index = index + 1;
        }

        proof {
            assert(table.take(index as int) =~= table);
        }

        let members = self.member_table();

        Abilities { can, owner: self.owner_id == self.me.user_id, members, roles: self.role_rows() }
    }
}

/// Disconnecting is offered only for someone who is in a voice channel of the server, and
/// only with the right to move members: there is nobody to take out of a call otherwise.
pub proof fn law_disconnect_only_whoever_is_in_voice(tree: ServerTree, member: MemberView)
    ensures
        spec_member_actions(tree, member).disconnect ==> exists|c: int, p: int|
            0 <= c < tree.voice@.len() && 0 <= p < tree.voice@[c].1@.len() && #[trigger] tree.voice@[c].1@[p].user_id
                == member.user_id,
        spec_member_actions(tree, member).disconnect ==> spec_has(tree.me.permissions, MOVE_MEMBERS),
        spec_member_actions(tree, member).disconnect ==> spec_member_actions(tree, member).kick || !spec_has(
            tree.me.permissions,
            KICK_MEMBERS,
        ),
{
}

/// Each action on someone else takes its own right: muting the right to mute, kicking the
/// right to kick, and so on; the nickname of someone else takes managing the server.
pub proof fn law_each_action_needs_its_right(tree: ServerTree, member: MemberView)
    ensures
        ({
            let actions = spec_member_actions(tree, member);
            let rights = tree.me.permissions;
            &&& actions.mute ==> spec_has(rights, MUTE_MEMBERS)
            &&& actions.deafen ==> spec_has(rights, DEAFEN_MEMBERS)
            &&& actions.disconnect ==> spec_has(rights, MOVE_MEMBERS)
            &&& actions.kick ==> spec_has(rights, KICK_MEMBERS)
            &&& actions.ban ==> spec_has(rights, BAN_MEMBERS)
            &&& actions.roles ==> spec_has(rights, MANAGE_ROLES)
            &&& (actions.nickname && member.user_id != tree.me.user_id) ==> spec_has(rights, MANAGE_SERVER)
        }),
{
}

/// On oneself only the nickname changes: nobody mutes, moves, kicks, bans or assigns roles
/// to themselves.
pub proof fn law_on_oneself_only_the_nickname(tree: ServerTree, member: MemberView)
    requires
        member.user_id == tree.me.user_id,
    ensures
        spec_member_actions(tree, member) == (MemberActions {
            nickname: true,
            mute: false,
            deafen: false,
            disconnect: false,
            kick: false,
            ban: false,
            roles: false,
        }),
{
}

/// A moderator acts only on whoever is below her: any action on someone else takes a top
/// role above theirs.
pub proof fn law_a_moderator_acts_only_below(tree: ServerTree, member: MemberView)
    ensures
        ({
            let actions = spec_member_actions(tree, member);
            actions.mute || actions.deafen || actions.disconnect || actions.kick || actions.ban || actions.roles
                || (actions.nickname && member.user_id != tree.me.user_id)
        }) ==> member.user_id != tree.me.user_id && (first_member(member_views(tree.members@), tree.me.user_id) matches Some(
            mine,
        ) && spec_top_position(tree.owner_id, role_views(tree.roles@), mine) > spec_top_position(
            tree.owner_id,
            role_views(tree.roles@),
            member,
        )),
{
}

/// Roles move only below one's own and never past everyone: a move goes to a position
/// under one's top role, the everyone role never moves nor is assigned, and nothing is
/// moved that one may not edit.
pub proof fn law_roles_move_only_below_my_own(roles: Seq<RoleView>, my_top: i64, index: int)
    requires
        0 <= index < sorted_roles(roles).len(),
    ensures
        ({
            let sorted = sorted_roles(roles);
            let row = spec_role_rows(roles, my_top)[index];
            &&& row.up matches Some(position) ==> position < my_top && sorted[index].position < my_top
            &&& row.down is Some ==> sorted[index].position < my_top && !sorted[index].is_everyone
            &&& sorted[index].is_everyone ==> row.up is None && row.down is None && !row.assignable
        }),
{
}

} // verus!
