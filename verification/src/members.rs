//! The member list of a server as the interfaces draw it: whoever is online grouped under
//! the highest role they hold, from the highest role down, and the offline ones in a single
//! group at the end. Within each group, by name.

use vstd::prelude::*;

use std::collections::HashSet;

use crate::models::{same_text, text_view, Member, MemberView, Role, RoleView, ServerTree};
use crate::order::{entries_view, key_lt, lemma_sort_maps, map_entries, sorted_values, spec_stable_sort, values_of};
use crate::permissions::{member_views, role_views};
use crate::room_code::{lowercase_of, to_lowercase};
use crate::text::{chars_of, signed_decimal, spec_signed_decimal};

verus! {

broadcast use vstd::std_specs::hash::group_hash_axioms;

pub const OFFLINE_KEY: &'static str = "offline";

pub const EVERYONE_KEY: &'static str = "everyone";

#[derive(Debug, Clone)]
pub struct MemberGroup {
    pub key: String,
    pub label: String,
    /// The role's colour, in `#rrggbb`. `None` is the common colour of the text.
    pub color: Option<String>,
    pub members: Vec<Member>,
}

/// The name shown for a member: the nickname, when there is one.
pub open spec fn spec_display_name(member: MemberView) -> Seq<char> {
    match member.nickname {
        Some(nickname) => nickname,
        None => member.name,
    }
}

pub fn display_name(member: &Member) -> (name: &str)
    ensures
        name@ == spec_display_name(member@),
{
    match &member.nickname {
        Some(nickname) => nickname.as_str(),
        None => member.name.as_str(),
    }
}

/// A role that counts for the member: one they hold, other than `@everyone`.
pub open spec fn counts_for(role: RoleView, member: MemberView) -> bool {
    !role.is_everyone && member.role_ids.contains(role.id)
}

/// The index of the member's highest role, the last of equal ones, as `max_by_key` picks.
pub open spec fn top_role_index(roles: Seq<RoleView>, member: MemberView) -> Option<int>
    decreases roles.len(),
{
    if roles.len() == 0 {
        None
    } else {
        let rest = top_role_index(roles.drop_last(), member);
        let last = roles.len() - 1;
        if counts_for(roles[last], member) && (match rest {
            Some(best) => roles[best].position <= roles[last].position,
            None => true,
        }) {
            Some(last)
        } else {
            rest
        }
    }
}

proof fn lemma_top_role_index_in(roles: Seq<RoleView>, member: MemberView)
    ensures
        top_role_index(roles, member) matches Some(i) ==> 0 <= i < roles.len() && counts_for(roles[i], member),
    decreases roles.len(),
{
    if roles.len() > 0 {
        lemma_top_role_index_in(roles.drop_last(), member);
    }
}

/// The member's highest role, apart from `@everyone`, which everyone has.
pub fn top_role<'tree>(tree: &'tree ServerTree, member: &Member) -> (role: Option<&'tree Role>)
    ensures
        match top_role_index(role_views(tree.roles@), member@) {
            Some(i) => role matches Some(role) && *role == tree.roles@[i],
            None => role is None,
        },
{
    let ghost roles = role_views(tree.roles@);
    let mut best: Option<usize> = None;
    let mut index: usize = 0;

    while index < tree.roles.len()
        invariant
            index <= tree.roles.len(),
            roles == role_views(tree.roles@),
            match top_role_index(roles.take(index as int), member@) {
                Some(i) => best == Some(i as usize),
                None => best is None,
            },
        decreases tree.roles.len() - index,
    {
        proof {
            assert(roles.take(index + 1).drop_last() =~= roles.take(index as int));
            lemma_top_role_index_in(roles.take(index as int), member@);
            if let Some(i) = best {
                assert(roles.take(index + 1)[i as int] == roles[i as int]);
            }
            assert(roles.take(index + 1)[index as int] == tree.roles@[index as int]@);
        }
        let role = &tree.roles[index];
        let counts = !role.is_everyone && holds(&member.role_ids, role.id);
        let higher = match best {
            Some(i) => tree.roles[i].position <= role.position,
            None => true,
        };
        if counts && higher {
            best = Some(index);
        }
        index = index + 1;
    }

    proof {
        assert(roles.take(index as int) =~= roles);
        lemma_top_role_index_in(roles, member@);
    }

    match best {
        Some(i) => Some(&tree.roles[i]),
        None => None,
    }
}

fn holds(role_ids: &Vec<i64>, id: i64) -> (held: bool)
    ensures
        held == role_ids@.contains(id),
{
    let mut index: usize = 0;

    while index < role_ids.len()
        invariant
            index <= role_ids.len(),
            forall|i: int| 0 <= i < index ==> role_ids@[i] != id,
        decreases role_ids.len() - index,
    {
        if role_ids[index] == id {
            proof {
                assert(role_ids@[index as int] == id);
            }
            return true;
        }
        index = index + 1;
    }

    false
}

/// A group as values.
pub struct GroupView {
    pub key: Seq<char>,
    pub label: Seq<char>,
    pub color: Option<Seq<char>>,
    pub members: Seq<MemberView>,
}

pub open spec fn group_view(group: MemberGroup) -> GroupView {
    GroupView {
        key: group.key@,
        label: group.label@,
        color: text_view(group.color),
        members: member_views(group.members@),
    }
}

pub open spec fn group_views(groups: Seq<MemberGroup>) -> Seq<GroupView> {
    groups.map_values(|group: MemberGroup| group_view(group))
}

/// The first role that is `@everyone`.
pub open spec fn everyone_role(roles: Seq<RoleView>) -> Option<RoleView>
    decreases roles.len(),
{
    if roles.len() == 0 {
        None
    } else if roles[0].is_everyone {
        Some(roles[0])
    } else {
        everyone_role(roles.drop_first())
    }
}

/// The group an online member goes to: the id of the highest role, or `everyone`.
pub open spec fn group_key(roles: Seq<RoleView>, member: MemberView) -> Seq<char> {
    match top_role_index(roles, member) {
        Some(i) => spec_signed_decimal(roles[i].id as int),
        None => "everyone"@,
    }
}

/// The first group with the key `key`, or -1.
pub open spec fn group_with(groups: Seq<GroupView>, key: Seq<char>) -> int
    decreases groups.len(),
{
    if groups.len() == 0 {
        -1
    } else if groups.last().key == key {
        let before = group_with(groups.drop_last(), key);
        if before >= 0 { before } else { groups.len() - 1 }
    } else {
        group_with(groups.drop_last(), key)
    }
}

/// The groups of the online members in the order their keys first appear, and the offline
/// members, both in list order.
pub open spec fn grouped(roles: Seq<RoleView>, online: Set<i64>, members: Seq<MemberView>) -> (Seq<GroupView>, Seq<MemberView>)
    decreases members.len(),
{
    if members.len() == 0 {
        (Seq::empty(), Seq::empty())
    } else {
        let (groups, offline) = grouped(roles, online, members.drop_last());
        let member = members.last();
        if !online.contains(member.user_id) {
            (groups, offline.push(member))
        } else {
            let key = group_key(roles, member);
            let at = group_with(groups, key);
            if at >= 0 {
                (groups.update(at, GroupView { members: groups[at].members.push(member), ..groups[at] }), offline)
            } else {
                let role = top_role_index(roles, member);
                let label = match role {
                    Some(i) => roles[i].name,
                    None => match everyone_role(roles) {
                        Some(everyone) => everyone.name,
                        None => "Membros"@,
                    },
                };
                let color = match role {
                    Some(i) => roles[i].color,
                    None => None,
                };
                (groups.push(GroupView { key, label, color, members: seq![member] }), offline)
            }
        }
    }
}

/// The position of the role a group is keyed by, or -1.
pub open spec fn key_position(roles: Seq<RoleView>, key: Seq<char>) -> int
    decreases roles.len(),
{
    if roles.len() == 0 {
        -1
    } else if spec_signed_decimal(roles[0].id as int) == key {
        roles[0].position as int
    } else {
        key_position(roles.drop_first(), key)
    }
}

/// The groups from the highest role down, equal positions in the order they came.
pub open spec fn ranked(roles: Seq<RoleView>, groups: Seq<GroupView>) -> Seq<GroupView> {
    values_of(spec_stable_sort(groups.map_values(|group: GroupView| (seq![(0 - key_position(roles, group.key)) as i128], group))))
}

/// The key a member sorts by inside a group: the shown name in small letters.
pub open spec fn name_key(member: MemberView) -> Seq<i128> {
    lowercase_of(spec_display_name(member)).map_values(|c: char| c as u32 as i128)
}

pub open spec fn by_name(members: Seq<MemberView>) -> Seq<MemberView> {
    values_of(spec_stable_sort(members.map_values(|member: MemberView| (name_key(member), member))))
}

/// The member list as it is drawn: who is online grouped under the highest role they
/// hold, from the highest role down, the offline ones in a single group at the end, and
/// within each group by name.
pub open spec fn spec_group(roles: Seq<RoleView>, online: Set<i64>, members: Seq<MemberView>) -> Seq<GroupView> {
    let (groups, offline) = grouped(roles, online, members);
    let ordered = ranked(roles, groups);
    let all = if offline.len() > 0 {
        ordered.push(GroupView { key: "offline"@, label: "Offline"@, color: None, members: offline })
    } else {
        ordered
    };
    all.map_values(|group: GroupView| GroupView { members: by_name(group.members), ..group })
}

fn everyone_of(roles: &Vec<Role>) -> (found: Option<&Role>)
    ensures
        match everyone_role(role_views(roles@)) {
            Some(everyone) => found matches Some(role) && role@ == everyone,
            None => found is None,
        },
{
    let ghost views = role_views(roles@);
    let mut index: usize = 0;

    proof {
        assert(views.skip(0) =~= views);
    }

    while index < roles.len()
        invariant
            index <= roles.len(),
            views == role_views(roles@),
            everyone_role(views) == everyone_role(views.skip(index as int)),
        decreases roles.len() - index,
    {
        proof {
            assert(views.skip(index as int)[0] == roles@[index as int]@);
            assert(views.skip(index as int).drop_first() =~= views.skip(index + 1));
        }
        if roles[index].is_everyone {
            return Some(&roles[index]);
        }
        index = index + 1;
    }

    proof {
        assert(views.skip(index as int) =~= Seq::<RoleView>::empty());
    }

    None
}

fn copy_text(text: &Option<String>) -> (copy: Option<String>)
    ensures
        text_view(copy) == text_view(*text),
{
    match text {
        Some(text) => Some(text.clone()),
        None => None,
    }
}

proof fn lemma_group_with(groups: Seq<GroupView>, key: Seq<char>)
    ensures
        -1 <= group_with(groups, key) < groups.len(),
        group_with(groups, key) >= 0 ==> groups[group_with(groups, key)].key == key,
        group_with(groups, key) >= 0 ==> forall|k: int| 0 <= k < group_with(groups, key) ==> groups[k].key != key,
        group_with(groups, key) < 0 ==> forall|k: int| 0 <= k < groups.len() ==> groups[k].key != key,
    decreases groups.len(),
{
    if groups.len() > 0 {
        let init = groups.drop_last();
        lemma_group_with(init, key);
        assert(forall|k: int| 0 <= k < init.len() ==> init[k] == groups[k]);
    }
}

fn find_group(groups: &Vec<MemberGroup>, key: &str) -> (found: Option<usize>)
    ensures
        match found {
            Some(j) => group_with(group_views(groups@), key@) == j as int,
            None => group_with(group_views(groups@), key@) == -1,
        },
{
    let ghost views = group_views(groups@);
    let mut index: usize = 0;

    proof {
        lemma_group_with(views, key@);
    }

    while index < groups.len()
        invariant
            index <= groups.len(),
            views == group_views(groups@),
            forall|k: int| 0 <= k < index ==> views[k].key != key@,
            -1 <= group_with(views, key@) < views.len(),
            group_with(views, key@) >= 0 ==> views[group_with(views, key@)].key == key@,
            group_with(views, key@) >= 0 ==> forall|k: int| 0 <= k < group_with(views, key@) ==> views[k].key != key@,
            group_with(views, key@) < 0 ==> forall|k: int| 0 <= k < views.len() ==> views[k].key != key@,
        decreases groups.len() - index,
    {
        proof {
            assert(views[index as int].key == groups@[index as int].key@);
        }
        if same_text(groups[index].key.as_str(), key) {
            return Some(index);
        }
        index = index + 1;
    }

    None
}

fn position_of(roles: &Vec<Role>, key: &str) -> (position: i64)
    ensures
        position as int == key_position(role_views(roles@), key@),
{
    let ghost views = role_views(roles@);
    let mut index: usize = 0;

    proof {
        assert(views.skip(0) =~= views);
    }

    while index < roles.len()
        invariant
            index <= roles.len(),
            views == role_views(roles@),
            key_position(views, key@) == key_position(views.skip(index as int), key@),
        decreases roles.len() - index,
    {
        proof {
            assert(views.skip(index as int)[0] == roles@[index as int]@);
            assert(views.skip(index as int).drop_first() =~= views.skip(index + 1));
        }
        let id = signed_decimal(roles[index].id);
        if same_text(id.as_str(), key) {
            return roles[index].position;
        }
        index = index + 1;
    }

    proof {
        assert(views.skip(index as int) =~= Seq::<RoleView>::empty());
    }

    -1
}

fn sort_by_name(members: Vec<Member>) -> (sorted: Vec<Member>)
    ensures
        member_views(sorted@) == by_name(member_views(members@)),
{
    let ghost all = member_views(members@);
    let mut entries: Vec<(Vec<i128>, Member)> = Vec::new();
    let mut rest = members;
    let ghost mut taken: int = 0;

    while rest.len() > 0
        invariant
            0 <= taken <= all.len(),
            member_views(rest@) == all.skip(taken),
            entries.len() == taken,
            forall|i: int| 0 <= i < taken ==> (#[trigger] entries@[i]).0@ == name_key(all[i]) && entries@[i].1@ == all[i],
        decreases rest.len(),
    {
        let ghost before = rest@;
        let member = rest.remove(0);
        proof {
            assert(member_views(before).len() == before.len());
            assert(all.skip(taken)[0] == all[taken]);
            assert(member_views(before)[0] == before[0]@);
            assert(before[0] == member);
            assert(rest@ =~= before.drop_first());
            assert(member_views(before.drop_first()) =~= member_views(before).drop_first());
            assert(all.skip(taken).drop_first() =~= all.skip(taken + 1));
            assert(member_views(rest@) =~= all.skip(taken + 1));
        }
        let lower = to_lowercase(display_name(&member));
        let chars = chars_of(lower.as_str());
        let mut key: Vec<i128> = Vec::new();
        let mut index: usize = 0;
        while index < chars.len()
            invariant
                index <= chars.len(),
                key@ == chars@.take(index as int).map_values(|c: char| c as u32 as i128),
            decreases chars.len() - index,
        {
            key.push(chars[index] as u32 as i128);
            index = index + 1;
            proof {
                assert(chars@.take(index as int) =~= chars@.take(index - 1).push(chars@[index - 1]));
                assert(key@ =~= chars@.take(index as int).map_values(|c: char| c as u32 as i128));
            }
        }
        proof {
            assert(chars@.take(index as int) =~= chars@);
            assert(key@ =~= name_key(all[taken]));
        }
        entries.push((key, member));
        proof {
            taken = taken + 1;
        }
    }

    let ghost keyed = entries_view(entries@);
    let ghost view_of = |member: Member| member@;

    proof {
        assert(taken == all.len());
        assert(map_entries(keyed, view_of) =~= all.map_values(|member: MemberView| (name_key(member), member)));
        lemma_sort_maps(keyed, view_of);
    }

    let sorted = sorted_values(entries);

    proof {
        assert(member_views(sorted@) =~= values_of(map_entries(spec_stable_sort(keyed), view_of)));
    }

    sorted
}

/// The member list as it is drawn.
pub fn group(tree: &ServerTree, online: &HashSet<i64>) -> (groups: Vec<MemberGroup>)
    ensures
        group_views(groups@) == spec_group(role_views(tree.roles@), online@, member_views(tree.members@)),
{
    let ghost roles = role_views(tree.roles@);
    let ghost all = member_views(tree.members@);
    let everyone = everyone_of(&tree.roles);
    let mut groups: Vec<MemberGroup> = Vec::new();
    let mut offline: Vec<Member> = Vec::new();
    let mut index: usize = 0;

    while index < tree.members.len()
        invariant
            index <= tree.members.len(),
            roles == role_views(tree.roles@),
            all == member_views(tree.members@),
            match everyone_role(roles) {
                Some(e) => everyone matches Some(role) && role@ == e,
                None => everyone is None,
            },
            (group_views(groups@), member_views(offline@)) == grouped(roles, online@, all.take(index as int)),
        decreases tree.members.len() - index,
    {
        let member = &tree.members[index];
        let ghost prior_groups = group_views(groups@);
        let ghost prior_offline = member_views(offline@);

        proof {
            assert(all.take(index + 1).drop_last() =~= all.take(index as int));
            assert(all.take(index + 1).last() == member@);
        }

        if !online.contains(&member.user_id) {
            offline.push(member.clone());
            proof {
                assert(member_views(offline@) =~= prior_offline.push(member@));
                assert(!online@.contains(member@.user_id));
                assert((group_views(groups@), member_views(offline@)) == grouped(roles, online@, all.take(index + 1)));
            }
        } else {
            proof {
                assert(online@.contains(member@.user_id));
            }
            let role = top_role(tree, member);
            let key = match role {
                Some(role) => signed_decimal(role.id),
                None => String::from_str("everyone"),
            };
            proof {
                lemma_top_role_index_in(roles, member@);
                match top_role_index(roles, member@) {
                    Some(i) => {
                        assert(roles[i] == tree.roles@[i]@);
                        assert(key@ == spec_signed_decimal(roles[i].id as int));
                    },
                    None => {
                        assert(key@ == "everyone"@);
                    },
                }
                assert(key@ == group_key(roles, member@));
            }
            let found_at = find_group(&groups, key.as_str());
            proof {
                lemma_group_with(prior_groups, key@);
            }
            match found_at {
                Some(j) => {
                    let mut found = groups.remove(j);
                    let ghost old_view = prior_groups[j as int];
                    proof {
                        assert(group_view(found) == old_view);
                    }
                    found.members.push(member.clone());
                    proof {
                        assert(group_view(found).members =~= old_view.members.push(member@));
                        assert(group_view(found) == GroupView { members: old_view.members.push(member@), ..old_view });
                    }
                    groups.insert(j, found);
                    proof {
                        assert(group_views(groups@) =~= prior_groups.update(j as int, group_view(found)));
                        assert(key@ == group_key(roles, member@));
                        assert((group_views(groups@), member_views(offline@)) == grouped(roles, online@, all.take(index + 1)));
                    }
                },
                None => {
                    let label = match role {
                        Some(role) => role.name.clone(),
                        None => match everyone {
                            Some(everyone) => everyone.name.clone(),
                            None => String::from_str("Membros"),
                        },
                    };
                    let color = match role {
                        Some(role) => copy_text(&role.color),
                        None => None,
                    };
                    let fresh = MemberGroup { key, label, color, members: vec![member.clone()] };
                    proof {
                        assert(member_views(fresh.members@) =~= seq![member@]);
                    }
                    groups.push(fresh);
                    proof {
                        assert(group_views(groups@) =~= prior_groups.push(group_view(fresh)));
                        assert(key@ == group_key(roles, member@));
                        assert((group_views(groups@), member_views(offline@)) == grouped(roles, online@, all.take(index + 1)));
                    }
                },
            }
        }
        index = index + 1;
    }

    proof {
        assert(all.take(index as int) =~= all);
    }

    let ghost (spec_groups, spec_offline) = grouped(roles, online@, all);
    let mut entries: Vec<(Vec<i128>, MemberGroup)> = Vec::new();
    let mut rest = groups;
    let ghost mut taken: int = 0;

    while rest.len() > 0
        invariant
            0 <= taken <= spec_groups.len(),
            roles == role_views(tree.roles@),
            group_views(rest@) == spec_groups.skip(taken),
            entries.len() == taken,
            forall|i: int| 0 <= i < taken ==> (#[trigger] entries@[i]).0@ == seq![(0 - key_position(roles, spec_groups[i].key)) as i128]
                && group_view(entries@[i].1) == spec_groups[i],
        decreases rest.len(),
    {
        let ghost before = rest@;
        let next = rest.remove(0);
        proof {
            assert(group_views(before).len() == before.len());
            assert(spec_groups.skip(taken)[0] == spec_groups[taken]);
            assert(group_views(before)[0] == group_view(before[0]));
            assert(before[0] == next);
            assert(rest@ =~= before.drop_first());
            assert(group_views(before.drop_first()) =~= group_views(before).drop_first());
            assert(spec_groups.skip(taken).drop_first() =~= spec_groups.skip(taken + 1));
            assert(group_views(rest@) =~= spec_groups.skip(taken + 1));
        }
        let position = position_of(&tree.roles, next.key.as_str());
        let descending: i128 = 0 - (position as i128);
        let key = vec![descending];
        proof {
            assert(key@ =~= seq![(0 - key_position(roles, spec_groups[taken].key)) as i128]);
        }
        entries.push((key, next));
        proof {
            taken = taken + 1;
        }
    }

    let ghost keyed = entries_view(entries@);
    let ghost view_of = |group: MemberGroup| group_view(group);

    proof {
        assert(map_entries(keyed, view_of) =~= spec_groups.map_values(
            |group: GroupView| (seq![(0 - key_position(roles, group.key)) as i128], group),
        ));
        lemma_sort_maps(keyed, view_of);
    }

    let mut ordered = sorted_values(entries);

    proof {
        assert(group_views(ordered@) =~= ranked(roles, spec_groups));
    }

    let ghost ranked_groups = group_views(ordered@);

    if offline.len() > 0 {
        let last = MemberGroup {
            key: String::from_str("offline"),
            label: String::from_str("Offline"),
            color: None,
            members: offline,
        };
        ordered.push(last);
        proof {
            assert(group_views(ordered@) =~= ranked_groups.push(group_view(last)));
        }
    }

    let ghost every = group_views(ordered@);
    let mut done: Vec<MemberGroup> = Vec::new();
    let mut left = ordered;
    let ghost mut count: int = 0;

    while left.len() > 0
        invariant
            0 <= count <= every.len(),
            group_views(left@) == every.skip(count),
            group_views(done@) == every.take(count).map_values(|group: GroupView| GroupView { members: by_name(group.members), ..group }),
        decreases left.len(),
    {
        let ghost before = left@;
        let next = left.remove(0);
        proof {
            assert(group_views(before).len() == before.len());
            assert(every.skip(count)[0] == every[count]);
            assert(group_views(before)[0] == group_view(before[0]));
            assert(before[0] == next);
            assert(left@ =~= before.drop_first());
            assert(group_views(before.drop_first()) =~= group_views(before).drop_first());
            assert(every.skip(count).drop_first() =~= every.skip(count + 1));
            assert(group_views(left@) =~= every.skip(count + 1));
        }
        let MemberGroup { key, label, color, members } = next;
        let sorted = sort_by_name(members);
        let finished = MemberGroup { key, label, color, members: sorted };
        let ghost before = done@;
        done.push(finished);
        proof {
            assert(group_views(done@) =~= group_views(before).push(group_view(finished)));
            assert(every.take(count + 1) =~= every.take(count).push(every[count]));
            count = count + 1;
        }
    }

    proof {
        assert(every.take(count) =~= every);
    }

    done
}

/// The members who are not online, in list order.
pub open spec fn offline_of(online: Set<i64>, members: Seq<MemberView>) -> Seq<MemberView>
    decreases members.len(),
{
    if members.len() == 0 {
        Seq::empty()
    } else {
        let rest = offline_of(online, members.drop_last());
        if !online.contains(members.last().user_id) { rest.push(members.last()) } else { rest }
    }
}

proof fn lemma_grouped_offline(roles: Seq<RoleView>, online: Set<i64>, members: Seq<MemberView>)
    ensures
        grouped(roles, online, members).1 == offline_of(online, members),
    decreases members.len(),
{
    if members.len() > 0 {
        lemma_grouped_offline(roles, online, members.drop_last());
    }
}

/// Whoever is offline goes in a single group at the end, by name, and there is no such
/// group when nobody is offline.
pub proof fn law_offline_goes_last_and_only_when_someone_is(roles: Seq<RoleView>, online: Set<i64>, members: Seq<MemberView>)
    ensures
        offline_of(online, members).len() > 0 ==> spec_group(roles, online, members).last() == (GroupView {
            key: "offline"@,
            label: "Offline"@,
            color: None,
            members: by_name(offline_of(online, members)),
        }),
        offline_of(online, members).len() == 0 ==> spec_group(roles, online, members).len() == grouped(
            roles,
            online,
            members,
        ).0.len(),
{
    lemma_grouped_offline(roles, online, members);
    let groups = grouped(roles, online, members).0;
    let entries = groups.map_values(|group: GroupView| (seq![(0 - key_position(roles, group.key)) as i128], group));
    crate::order::law_stable_sort_orders(entries);
}

/// Sorting by name puts the names in order.
proof fn lemma_by_name_sorted(members: Seq<MemberView>)
    ensures
        forall|i: int, j: int|
            0 <= i < j < by_name(members).len() ==> !key_lt(
                name_key(#[trigger] by_name(members)[j]),
                name_key(#[trigger] by_name(members)[i]),
            ),
{
    let entries = members.map_values(|member: MemberView| (name_key(member), member));
    let sorted = spec_stable_sort(entries);
    crate::order::law_stable_sort_orders(entries);
    broadcast use vstd::seq_lib::group_to_multiset_ensures;
    assert forall|i: int| 0 <= i < sorted.len() implies (#[trigger] sorted[i]).0 == name_key(sorted[i].1) by {
        assert(sorted.to_multiset().count(sorted[i]) > 0);
        assert(entries.contains(sorted[i]));
        let k = choose|k: int| 0 <= k < entries.len() && entries[k] == sorted[i];
        assert(entries[k] == (name_key(members[k]), members[k]));
    }
    let values = values_of(sorted);
    assert forall|i: int, j: int| 0 <= i < j < values.len() implies !key_lt(
        name_key(#[trigger] values[j]),
        name_key(#[trigger] values[i]),
    ) by {
        assert(values[i] == sorted[i].1 && values[j] == sorted[j].1);
        assert(crate::order::keys_of(sorted)[i] == sorted[i].0);
        assert(crate::order::keys_of(sorted)[j] == sorted[j].0);
    }
}

/// Every group of the drawn list, online or offline, lists its members by the name shown,
/// in small letters: nobody has to look for a name in the order the server sent them.
pub proof fn law_every_group_is_in_name_order(roles: Seq<RoleView>, online: Set<i64>, members: Seq<MemberView>)
    ensures
        forall|g: int, i: int, j: int|
            0 <= g < spec_group(roles, online, members).len() && 0 <= i < j < spec_group(
                roles,
                online,
                members,
            )[g].members.len() ==> !key_lt(
                name_key(#[trigger] spec_group(roles, online, members)[g].members[j]),
                name_key(#[trigger] spec_group(roles, online, members)[g].members[i]),
            ),
{
    let groups = spec_group(roles, online, members);
    assert forall|g: int, i: int, j: int|
        0 <= g < groups.len() && 0 <= i < j < groups[g].members.len() implies !key_lt(
        name_key(#[trigger] groups[g].members[j]),
        name_key(#[trigger] groups[g].members[i]),
    ) by {
        let (grouped_online, offline) = grouped(roles, online, members);
        let ordered = ranked(roles, grouped_online);
        let all = if offline.len() > 0 {
            ordered.push(GroupView { key: "offline"@, label: "Offline"@, color: None, members: offline })
        } else {
            ordered
        };
        assert(groups[g].members == by_name(all[g].members));
        lemma_by_name_sorted(all[g].members);
    }
}

} // verus!
