//! What the account server and the media server say, the way the three interfaces read it.
//! The field names are the ones on the wire.

use vstd::prelude::*;

use crate::order::{entries_view, lemma_sort_maps, map_entries, spec_stable_sort, stable_sort, values_of};

verus! {

#[derive(Debug, Clone, PartialEq, Eq)]
pub struct User {
    pub id: i64,
    pub name: String,
    pub email: String,
    pub avatar_url: Option<String>,
    pub avatar_uploaded: bool,
    pub admin: bool,
    pub nickname_confirmed: bool,
}

#[derive(Debug, Clone, PartialEq, Eq)]
pub struct ServerSummary {
    pub id: i64,
    pub name: String,
    pub owner_id: i64,
    pub icon_url: Option<String>,
    pub last_accessed_at: Option<String>,
}

#[derive(Debug, Clone, Copy, PartialEq, Eq, Structural)]
pub enum ChannelKind {
    Text,
    Voice,
}

#[derive(Debug, Clone, Copy, PartialEq, Eq, Structural)]
pub enum OverwriteTarget {
    Role,
    Member,
}

#[derive(Debug, Clone, Copy, PartialEq, Eq, Structural)]
pub struct Overwrite {
    pub target_type: OverwriteTarget,
    pub target_id: i64,
    pub allow: i64,
    pub deny: i64,
}

#[derive(Debug)]
pub struct Channel {
    /// A ULID: the channel is the only one that does not use an integer.
    pub id: String,
    pub name: String,
    pub kind: ChannelKind,
    pub topic: Option<String>,
    pub position: i64,
    pub user_limit: Option<i64>,
    /// The permission the server already computed for whoever asked.
    pub permissions: i64,
    pub overwrites: Vec<Overwrite>,
}

pub struct ChannelView {
    pub id: Seq<char>,
    pub name: Seq<char>,
    pub kind: ChannelKind,
    pub topic: Option<Seq<char>>,
    pub position: i64,
    pub user_limit: Option<i64>,
    pub permissions: i64,
    pub overwrites: Seq<Overwrite>,
}

pub open spec fn text_view(text: Option<String>) -> Option<Seq<char>> {
    match text {
        Some(text) => Some(text@),
        None => None,
    }
}

impl View for Channel {
    type V = ChannelView;

    open spec fn view(&self) -> ChannelView {
        ChannelView {
            id: self.id@,
            name: self.name@,
            kind: self.kind,
            topic: text_view(self.topic),
            position: self.position,
            user_limit: self.user_limit,
            permissions: self.permissions,
            overwrites: self.overwrites@,
        }
    }
}

impl Clone for Channel {
    fn clone(&self) -> (copy: Self)
        ensures
            copy@ == self@,
    {
        let overwrites = self.overwrites.clone();
        proof {
            assert(overwrites@ =~= self.overwrites@);
        }
        Channel {
            id: self.id.clone(),
            name: self.name.clone(),
            kind: self.kind,
            topic: self.topic.clone(),
            position: self.position,
            user_limit: self.user_limit,
            permissions: self.permissions,
            overwrites,
        }
    }
}

#[derive(Debug)]
pub struct Role {
    pub id: i64,
    pub name: String,
    /// In `#rrggbb`.
    pub color: Option<String>,
    pub position: i64,
    pub permissions: i64,
    pub is_everyone: bool,
}

pub struct RoleView {
    pub id: i64,
    pub name: Seq<char>,
    pub color: Option<Seq<char>>,
    pub position: i64,
    pub permissions: i64,
    pub is_everyone: bool,
}

impl View for Role {
    type V = RoleView;

    open spec fn view(&self) -> RoleView {
        RoleView {
            id: self.id,
            name: self.name@,
            color: text_view(self.color),
            position: self.position,
            permissions: self.permissions,
            is_everyone: self.is_everyone,
        }
    }
}

impl Clone for Role {
    fn clone(&self) -> (copy: Self)
        ensures
            copy@ == self@,
    {
        Role {
            id: self.id,
            name: self.name.clone(),
            color: self.color.clone(),
            position: self.position,
            permissions: self.permissions,
            is_everyone: self.is_everyone,
        }
    }
}

#[derive(Debug)]
pub struct Member {
    pub user_id: i64,
    pub name: String,
    pub avatar_url: Option<String>,
    pub nickname: Option<String>,
    pub role_ids: Vec<i64>,
    pub server_mute: bool,
    pub server_deaf: bool,
    pub is_owner: bool,
}

pub struct MemberView {
    pub user_id: i64,
    pub name: Seq<char>,
    pub avatar_url: Option<Seq<char>>,
    pub nickname: Option<Seq<char>>,
    pub role_ids: Seq<i64>,
    pub server_mute: bool,
    pub server_deaf: bool,
    pub is_owner: bool,
}

impl View for Member {
    type V = MemberView;

    open spec fn view(&self) -> MemberView {
        MemberView {
            user_id: self.user_id,
            name: self.name@,
            avatar_url: text_view(self.avatar_url),
            nickname: text_view(self.nickname),
            role_ids: self.role_ids@,
            server_mute: self.server_mute,
            server_deaf: self.server_deaf,
            is_owner: self.is_owner,
        }
    }
}

impl Clone for Member {
    fn clone(&self) -> (copy: Self)
        ensures
            copy@ == self@,
    {
        let role_ids = self.role_ids.clone();
        proof {
            assert(role_ids@ =~= self.role_ids@);
        }
        Member {
            user_id: self.user_id,
            name: self.name.clone(),
            avatar_url: self.avatar_url.clone(),
            nickname: self.nickname.clone(),
            role_ids,
            server_mute: self.server_mute,
            server_deaf: self.server_deaf,
            is_owner: self.is_owner,
        }
    }
}

#[derive(Debug, Clone)]
pub struct VoicePerson {
    pub user_id: i64,
    pub name: String,
    pub sources: Vec<String>,
    pub muted: bool,
}

#[derive(Debug, Clone, PartialEq, Eq)]
pub struct Person {
    pub id: i64,
    pub name: String,
    pub avatar_url: Option<String>,
}

#[derive(Debug, Clone)]
pub struct Message {
    pub id: i64,
    pub channel_id: String,
    /// `user` for what someone wrote; `join` for the notice of who joined the server.
    pub kind: String,
    pub user: Person,
    pub reply_to: Option<ReplyTo>,
    pub body: String,
    pub files: Vec<MessageFile>,
    pub edited_at: Option<String>,
    pub created_at: String,
}

/// The message another one answers, already summarised by the server.
#[derive(Debug, Clone, PartialEq, Eq)]
pub struct ReplyTo {
    pub id: i64,
    pub name: String,
    pub body: String,
}

#[derive(Debug, Clone, PartialEq, Eq)]
pub struct MessageFile {
    pub id: i64,
    pub url: String,
    pub mime_type: String,
    pub size: i64,
}

#[derive(Debug, Clone, PartialEq, Eq)]
pub struct Ban {
    pub user_id: i64,
    pub name: String,
    pub reason: Option<String>,
    pub banned_by: Option<i64>,
    pub created_at: String,
}

#[derive(Debug, Clone, Copy, PartialEq, Eq, Structural)]
pub struct Membership {
    pub user_id: i64,
    pub permissions: i64,
    pub top_position: i64,
}

/// The whole server in one go, with the permission of whoever asked already computed.
#[derive(Debug)]
pub struct ServerTree {
    pub id: i64,
    pub name: String,
    pub owner_id: i64,
    pub invite_code: Option<String>,
    pub icon_url: Option<String>,
    pub me: Membership,
    pub roles: Vec<Role>,
    pub channels: Vec<Channel>,
    pub members: Vec<Member>,
    /// Who is in each voice channel, by channel id.
    pub voice: Vec<(String, Vec<VoicePerson>)>,
    /// Only sent to whoever may ban.
    pub bans: Vec<Ban>,
}

/// Where a channel goes in the column: text before voice, then by the position the
/// server sent.
pub open spec fn channel_key(channel: ChannelView) -> Seq<i128> {
    seq![if channel.kind == ChannelKind::Voice { 1i128 } else { 0i128 }, channel.position as i128]
}

/// The channels in the order the column draws them: text before voice, and within each
/// group the position the server sent, equal ones in the order they came.
pub open spec fn spec_ordered_channels(channels: Seq<ChannelView>) -> Seq<ChannelView> {
    values_of(spec_stable_sort(channels.map_values(|channel: ChannelView| (channel_key(channel), channel))))
}

pub open spec fn channel_views(channels: Seq<Channel>) -> Seq<ChannelView> {
    channels.map_values(|channel: Channel| channel@)
}

impl ServerTree {
    /// The channels in the order the column draws them: text before voice, and within each
    /// group the position the server sent.
    pub fn ordered_channels(&self) -> (ordered: Vec<Channel>)
        ensures
            channel_views(ordered@) == spec_ordered_channels(channel_views(self.channels@)),
    {
        let mut entries: Vec<(Vec<i128>, Channel)> = Vec::new();
        let mut index: usize = 0;

        while index < self.channels.len()
            invariant
                index <= self.channels.len(),
                entries.len() == index,
                forall|i: int| 0 <= i < index ==> (#[trigger] entries@[i]).0@ == channel_key(self.channels@[i]@)
                    && entries@[i].1@ == self.channels@[i]@,
            decreases self.channels.len() - index,
        {
            let channel = &self.channels[index];
            let voice: i128 = if channel.kind == ChannelKind::Voice { 1 } else { 0 };
            let key = vec![voice, channel.position as i128];

            proof {
                assert(key@ =~= channel_key(channel@));
            }

            entries.push((key, channel.clone()));
            index = index + 1;
        }

        let sorted = stable_sort(entries);
        let mut ordered: Vec<Channel> = Vec::new();
        let mut rest = sorted;
        let ghost all = entries_view(rest@);

        while rest.len() > 0
            invariant
                all.len() == ordered.len() + rest.len(),
                forall|i: int| 0 <= i < ordered.len() ==> (#[trigger] ordered@[i]) == all[i].1,
                forall|i: int| 0 <= i < rest.len() ==> (#[trigger] entries_view(rest@)[i]) == all[ordered.len() + i],
            decreases rest.len(),
        {
            let ghost before = rest@;
            let ghost done = ordered.len();
            let (_, channel) = rest.remove(0);

            proof {
                assert(entries_view(before)[0] == all[done as int]);
                assert forall|i: int| 0 <= i < rest.len() implies (#[trigger] entries_view(rest@)[i]) == all[done + 1 + i] by {
                    assert(rest@[i] == before[i + 1]);
                    assert(entries_view(before)[i + 1] == all[done + i + 1]);
                }
            }

            ordered.push(channel);
        }

        proof {
            let keyed = channel_views(self.channels@).map_values(|channel: ChannelView| (channel_key(channel), channel));
            let view_of = |channel: Channel| channel@;
            assert(map_entries(entries_view(entries@), view_of) =~= keyed);
            lemma_sort_maps(entries_view(entries@), view_of);
            assert(channel_views(ordered@) =~= values_of(map_entries(all, view_of)));
        }

        ordered
    }
}

/// What `GET /api/config` gives: where the media server of this installation is.
#[derive(Debug, Clone, PartialEq, Eq)]
pub struct Config {
    pub sfu: String,
}

#[derive(Debug, Clone)]
pub struct AuthToken {
    pub token: String,
    pub refresh_token: Option<String>,
    pub user: Option<User>,
}

#[derive(Debug)]
pub struct ProducerInfo {
    pub producer_id: String,
    pub kind: String,
    pub source: String,
    pub paused: bool,
}

pub struct ProducerView {
    pub producer_id: Seq<char>,
    pub kind: Seq<char>,
    pub source: Seq<char>,
    pub paused: bool,
}

impl View for ProducerInfo {
    type V = ProducerView;

    open spec fn view(&self) -> ProducerView {
        ProducerView { producer_id: self.producer_id@, kind: self.kind@, source: self.source@, paused: self.paused }
    }
}

impl Clone for ProducerInfo {
    fn clone(&self) -> (copy: Self)
        ensures
            copy@ == self@,
    {
        ProducerInfo {
            producer_id: self.producer_id.clone(),
            kind: self.kind.clone(),
            source: self.source.clone(),
            paused: self.paused,
        }
    }
}

#[derive(Debug)]
pub struct Peer {
    pub peer_id: String,
    pub user_id: Option<String>,
    pub name: String,
    pub producers: Vec<ProducerInfo>,
    /// Whoever dropped and is still in the grace period: on the list, but not here now.
    pub reconnecting: bool,
    pub self_peer: bool,
}

pub struct PeerView {
    pub peer_id: Seq<char>,
    pub user_id: Option<Seq<char>>,
    pub name: Seq<char>,
    pub producers: Seq<ProducerView>,
    pub reconnecting: bool,
    pub self_peer: bool,
}

pub open spec fn producer_views(producers: Seq<ProducerInfo>) -> Seq<ProducerView> {
    producers.map_values(|producer: ProducerInfo| producer@)
}

impl View for Peer {
    type V = PeerView;

    open spec fn view(&self) -> PeerView {
        PeerView {
            peer_id: self.peer_id@,
            user_id: text_view(self.user_id),
            name: self.name@,
            producers: producer_views(self.producers@),
            reconnecting: self.reconnecting,
            self_peer: self.self_peer,
        }
    }
}

impl Clone for Peer {
    fn clone(&self) -> (copy: Self)
        ensures
            copy@ == self@,
    {
        let mut producers: Vec<ProducerInfo> = Vec::new();
        let mut index: usize = 0;

        while index < self.producers.len()
            invariant
                index <= self.producers.len(),
                producers.len() == index,
                forall|i: int| 0 <= i < index ==> (#[trigger] producers@[i])@ == self.producers@[i]@,
            decreases self.producers.len() - index,
        {
            producers.push(self.producers[index].clone());
            index = index + 1;
        }

        proof {
            assert(producer_views(producers@) =~= producer_views(self.producers@));
        }

        Peer {
            peer_id: self.peer_id.clone(),
            user_id: self.user_id.clone(),
            name: self.name.clone(),
            producers,
            reconnecting: self.reconnecting,
            self_peer: self.self_peer,
        }
    }
}

/// Sharing is having a screen producer.
pub open spec fn spec_sharing(peer: PeerView) -> bool {
    exists|i: int| 0 <= i < peer.producers.len() && #[trigger] peer.producers[i].source == "screen"@
}

impl Peer {
    /// Sharing is having a screen producer: the list of producers already knows it.
    pub fn sharing(&self) -> (sharing: bool)
        ensures
            sharing == spec_sharing(self@),
    {
        let mut index: usize = 0;

        while index < self.producers.len()
            invariant
                index <= self.producers.len(),
                forall|i: int| 0 <= i < index ==> (#[trigger] self.producers@[i]).source@ != "screen"@,
            decreases self.producers.len() - index,
        {
            if same_text(self.producers[index].source.as_str(), "screen") {
                proof {
                    assert(self@.producers[index as int].source == "screen"@);
                }
                return true;
            }
            index = index + 1;
        }

        proof {
            assert forall|i: int| 0 <= i < self@.producers.len() implies #[trigger] self@.producers[i].source != "screen"@ by {
                assert(self@.producers[i].source == self.producers@[i].source@);
            }
        }

        false
    }
}

/// Whether two texts hold the same characters.
pub(crate) fn same_text(a: &str, b: &str) -> (same: bool)
    ensures
        same == (a@ == b@),
{
    let length = a.unicode_len();
    if length != b.unicode_len() {
        return false;
    }
    let mut index: usize = 0;

    while index < length
        invariant
            length == a@.len(),
            length == b@.len(),
            index <= length,
            forall|i: int| 0 <= i < index ==> a@[i] == b@[i],
        decreases length - index,
    {
        if a.get_char(index) != b.get_char(index) {
            return false;
        }
        index = index + 1;
    }

    proof {
        assert(a@ =~= b@);
    }

    true
}

/// How this app presents itself to the media server: without an account the code and the
/// typed name count; with one, the short-lived token the server signed.
#[derive(Debug, Clone, PartialEq, Eq)]
pub enum RoomIdentity {
    Guest { room: String, name: String, install_id: String },
    Account { token: String },
}

#[derive(Debug, Clone)]
pub struct JoinResponse {
    pub resumed: bool,
    pub peer_id: String,
    pub name: String,
    pub resume_key: Option<String>,
    pub peers: Vec<Peer>,
    /// What this session may do now, by the token that was just accepted.
    pub can: Vec<String>,
}

/// What the interface draws: one screen per state, and it never invents a sixth.
#[derive(Debug, Clone, Copy, PartialEq, Eq, Structural)]
pub enum Screen {
    Entry,
    Hub,
    Room,
    Offline,
    Updating,
}

impl Screen {
    /// Where one lands when leaving a room, and where the app opens after an update:
    /// with an account back to the servers, without one back to the code.
    pub fn home(signed_in: bool) -> (screen: Self)
        ensures
            screen == (if signed_in { Screen::Hub } else { Screen::Entry }),
    {
        if signed_in { Self::Hub } else { Self::Entry }
    }
}

#[derive(Debug, Clone, Copy, PartialEq, Eq, Structural)]
pub enum FriendshipStatus {
    Pending,
    Accepted,
    Blocked,
}

/// A friendship request, answered or not. `requester` is who asked.
#[derive(Debug, Clone, PartialEq, Eq)]
pub struct Friendship {
    pub id: i64,
    pub status: FriendshipStatus,
    pub requester: Person,
    pub addressee: Person,
    pub responded_at: Option<String>,
    pub created_at: Option<String>,
}

/// The last message of a conversation, shown under the name in the list.
#[derive(Debug, Clone, PartialEq, Eq)]
pub struct LastMessage {
    pub id: i64,
    pub body: String,
    pub created_at: String,
    pub mine: bool,
}

/// A direct conversation in the list: with whom, what was said last, and how many are unread.
#[derive(Debug, Clone, PartialEq, Eq)]
pub struct Conversation {
    pub user: Person,
    pub last: LastMessage,
    pub unread: i64,
}

/// A direct message. `mine` comes from the server: it is the one that says who you are.
#[derive(Debug, Clone, PartialEq, Eq)]
pub struct DirectMessage {
    pub id: i64,
    pub body: String,
    pub created_at: String,
    pub edited_at: Option<String>,
    pub mine: bool,
    pub sender: Person,
}

} // verus!
