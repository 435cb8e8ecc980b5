//! What an event of the realtime socket asks of the interface: who is online, the short
//! notices, and the account id a presence identity stands for.

use vstd::prelude::*;

use std::collections::HashSet;

use crate::chimes::Chime;
use crate::json::{at, i64_at, integer_at, member_at, spec_as_bool, str_at, text_at, Json};
use crate::models::same_text;
use crate::text::{chars_of, has_prefix, parse_i64, slice_of, spec_parse_i64, starts_with, string_of};

verus! {

broadcast use vstd::std_specs::hash::group_hash_axioms;

/// Who is online on the open server changed.
#[derive(Debug, Clone, PartialEq, Eq)]
pub enum Presence {
    /// Everyone already there when the channel was joined.
    Here(Vec<i64>),
    Joining(i64),
    Leaving(i64),
}

impl Presence {
    pub fn apply(&self, online: &mut HashSet<i64>)
        ensures
            match self {
                Presence::Here(everyone) => final(online)@ == everyone@.to_set(),
                Presence::Joining(person) => final(online)@ == old(online)@.insert(*person),
                Presence::Leaving(person) => final(online)@ == old(online)@.remove(*person),
            },
    {
        match self {
            Presence::Here(everyone) => {
                online.clear();
                let mut index: usize = 0;
                while index < everyone.len()
                    invariant
                        index <= everyone.len(),
                        online@ == everyone@.take(index as int).to_set(),
                    decreases everyone.len() - index,
                {
                    online.insert(everyone[index]);
                    proof {
                        assert(everyone@.take(index + 1) =~= everyone@.take(index as int).push(everyone@[index as int]));
                        everyone@.take(index as int).lemma_push_to_set_commute(everyone@[index as int]);
                    }
                    index = index + 1;
                }
                proof {
                    assert(everyone@.take(index as int) =~= everyone@);
                }
            },
            Presence::Joining(person) => {
                online.insert(*person);
            },
            Presence::Leaving(person) => {
                online.remove(person);
            },
        }
    }
}

/// A short notice at the foot of the window. `error` paints it red and keeps it longer.
#[derive(Debug, Clone, PartialEq, Eq)]
pub struct Notice {
    pub text: String,
    pub error: bool,
}

impl Notice {
    pub fn info(text: &str) -> (notice: Notice)
        ensures
            notice.text@ == text@,
            !notice.error,
    {
        Notice { text: String::from_str(text), error: false }
    }

    pub fn error(text: &str) -> (notice: Notice)
        ensures
            notice.text@ == text@,
            notice.error,
    {
        Notice { text: String::from_str(text), error: true }
    }
}

/// What a realtime event asks of the interface, which only carries it out: read again what
/// changed, chime, and show the notice.
#[derive(Debug, Clone, PartialEq, Eq)]
pub struct Reading {
    /// The messages of the channel with this id changed: read again if it is the open one.
    pub messages_of: Option<String>,
    /// A message of someone else arrived in that channel: unread where it is not in view.
    pub unread: bool,
    /// A direct conversation changed; `direct_with` is with whom, when the event says.
    pub direct: bool,
    pub direct_with: Option<i64>,
    pub friends: bool,
    /// The tree of the open server changed: read it again.
    pub tree: bool,
    /// The person was taken off this server.
    pub removed_from: Option<i64>,
    /// Who is online on the open server changed.
    pub presence: Option<Presence>,
    /// The socket came back after dropping: read again all that may have passed.
    pub catch_up: bool,
    pub chime: Option<Chime>,
    pub notice: Option<Notice>,
}

impl Default for Reading {
    /// Nothing to do.
    fn default() -> (reading: Self)
        ensures
            reading.messages_of is None,
            !reading.unread,
            !reading.direct,
            reading.direct_with is None,
            !reading.friends,
            !reading.tree,
            reading.removed_from is None,
            reading.presence is None,
            !reading.catch_up,
            reading.chime is None,
            reading.notice is None,
    {
        Reading {
            messages_of: None,
            unread: false,
            direct: false,
            direct_with: None,
            friends: false,
            tree: false,
            removed_from: None,
            presence: None,
            catch_up: false,
            chime: None,
            notice: None,
        }
    }
}

/// The part of an identity after its last `:`, or all of it.
pub open spec fn after_last_colon(identity: Seq<char>) -> Seq<char>
    decreases identity.len(),
{
    if identity.len() == 0 {
        identity
    } else if identity.last() == ':' {
        identity.skip(identity.len() as int)
    } else {
        after_last_colon(identity.drop_last()).push(identity.last())
    }
}

/// Presence sends the person as `user:5`; the rest of the app knows them as `5`.
pub open spec fn spec_person_id(identity: Seq<char>) -> Option<i64> {
    spec_parse_i64(after_last_colon(identity))
}

pub fn person_id(identity: &str) -> (id: Option<i64>)
    ensures
        id == spec_person_id(identity@),
{
    let chars = chars_of(identity);
    let mut start: usize = chars.len();

    proof {
        assert(chars@.skip(start as int) =~= Seq::<char>::empty());
        assert(chars@.take(start as int) =~= chars@);
        assert(after_last_colon(chars@) + Seq::<char>::empty() =~= after_last_colon(chars@));
    }

    while start > 0 && chars[start - 1] != ':'
        invariant
            start <= chars.len(),
            chars@ == identity@,
            after_last_colon(chars@) == after_last_colon(chars@.take(start as int)) + chars@.skip(start as int),
        decreases start,
    {
        proof {
            let head = chars@.take(start as int);
            assert(head.drop_last() =~= chars@.take(start - 1));
            assert(head.last() == chars@[start - 1]);
            assert(after_last_colon(head) == after_last_colon(chars@.take(start - 1)).push(chars@[start - 1]));
            assert(chars@.skip(start - 1) =~= seq![chars@[start - 1]] + chars@.skip(start as int));
            assert(after_last_colon(chars@.take(start - 1)).push(chars@[start - 1]) + chars@.skip(start as int)
                =~= after_last_colon(chars@.take(start - 1)) + chars@.skip(start - 1));
        }
        start = start - 1;
    }

    proof {
        let head = chars@.take(start as int);
        if start == 0 {
            assert(head =~= Seq::<char>::empty());
        } else {
            assert(head.last() == ':');
            assert(after_last_colon(head) =~= Seq::<char>::empty());
        }
        assert(after_last_colon(chars@) =~= chars@.subrange(start as int, chars.len() as int));
    }

    let tail = slice_of(chars.as_slice(), start, chars.len());
    parse_i64(tail.as_slice())
}

/// What a presence event says, as values.
pub enum PresenceView {
    Here(Seq<i64>),
    Joining(i64),
    Leaving(i64),
}

pub open spec fn presence_view(presence: Presence) -> PresenceView {
    match presence {
        Presence::Here(everyone) => PresenceView::Here(everyone@),
        Presence::Joining(person) => PresenceView::Joining(person),
        Presence::Leaving(person) => PresenceView::Leaving(person),
    }
}

/// What a reading says, as values.
pub struct ReadingView {
    pub messages_of: Option<Seq<char>>,
    pub unread: bool,
    pub direct: bool,
    pub direct_with: Option<i64>,
    pub friends: bool,
    pub tree: bool,
    pub removed_from: Option<i64>,
    pub presence: Option<PresenceView>,
    pub catch_up: bool,
    pub chime: Option<Chime>,
    /// The text of the notice, and whether it is an error.
    pub notice: Option<(Seq<char>, bool)>,
}

impl View for Reading {
    type V = ReadingView;

    open spec fn view(&self) -> ReadingView {
        ReadingView {
            messages_of: match self.messages_of {
                Some(id) => Some(id@),
                None => None,
            },
            unread: self.unread,
            direct: self.direct,
            direct_with: self.direct_with,
            friends: self.friends,
            tree: self.tree,
            removed_from: self.removed_from,
            presence: match self.presence {
                Some(presence) => Some(presence_view(presence)),
                None => None,
            },
            catch_up: self.catch_up,
            chime: self.chime,
            notice: match self.notice {
                Some(notice) => Some((notice.text@, notice.error)),
                None => None,
            },
        }
    }
}

pub open spec fn nothing() -> ReadingView {
    ReadingView {
        messages_of: None,
        unread: false,
        direct: false,
        direct_with: None,
        friends: false,
        tree: false,
        removed_from: None,
        presence: None,
        catch_up: false,
        chime: None,
        notice: None,
    }
}

pub open spec fn channel_prefix() -> Seq<char> {
    seq!['c', 'h', 'a', 'n', 'n', 'e', 'l', '.']
}

/// The id of a text channel, `channel.{id}`.
pub open spec fn channel_id(channel: Option<Seq<char>>) -> Option<Seq<char>> {
    match channel {
        Some(name) => if has_prefix(name, channel_prefix()) { Some(name.skip(8)) } else { None },
        None => None,
    }
}

pub open spec fn text_or_empty(text: Option<Seq<char>>) -> Seq<char> {
    match text {
        Some(text) => text,
        None => Seq::empty(),
    }
}

/// The people a `presence.here` lists, by account id; an entry without one is left out.
pub open spec fn present(members: Seq<Json>) -> Seq<i64>
    decreases members.len(),
{
    if members.len() == 0 {
        Seq::empty()
    } else {
        let rest = present(members.drop_last());
        match str_at(members.last(), "id"@) {
            Some(id) => match spec_person_id(id) {
                Some(person) => rest.push(person),
                None => rest,
            },
            None => rest,
        }
    }
}

pub open spec fn presence_of(data: Json) -> Option<i64> {
    match str_at(data, "id"@) {
        Some(id) => spec_person_id(id),
        None => None,
    }
}

/// What an event of the realtime queue asks of the interface. `me` is the account;
/// `talking` is whom the open direct conversation is with.
pub open spec fn spec_read(event: Seq<char>, channel: Option<Seq<char>>, data: Json, me: i64, talking: Option<i64>) -> ReadingView {
    let message = at(data, "message"@);
    if event == "MessageSent"@ {
        let mine = i64_at(at(message, "user"@), "id"@) == Some(me);
        ReadingView {
            messages_of: channel_id(channel),
            unread: !mine,
            chime: if mine { None } else { Some(Chime::Message) },
            ..nothing()
        }
    } else if event == "MessageUpdated"@ || event == "MessageDeleted"@ {
        ReadingView { messages_of: channel_id(channel), ..nothing() }
    } else if event == "DirectMessageCreated"@ || event == "DirectMessageUpdated"@ {
        let sender = i64_at(at(message, "sender"@), "id"@);
        let mine = sender == Some(me);
        let person = if mine { i64_at(at(data, "recipient"@), "id"@) } else { sender };
        let created = event == "DirectMessageCreated"@ && !mine;
        let name = text_or_empty(str_at(at(message, "sender"@), "name"@));
        let body = text_or_empty(str_at(message, "body"@));
        let shown = body.take(if body.len() < 60 { body.len() as int } else { 60 });
        ReadingView {
            direct: true,
            direct_with: person,
            chime: if created { Some(Chime::Message) } else { None },
            notice: if created && person != talking { Some((name + ": "@ + shown, false)) } else { None },
            ..nothing()
        }
    } else if event == "DirectMessageDeleted"@ {
        ReadingView { direct: true, ..nothing() }
    } else if event == "FriendshipUpdated"@ {
        let friendship = at(data, "friendship"@);
        let asks_me = spec_as_bool(at(data, "removed"@)) != Some(true) && str_at(friendship, "status"@) == Some(
            "pending"@,
        ) && i64_at(at(friendship, "addressee"@), "id"@) == Some(me);
        let name = text_or_empty(str_at(at(friendship, "requester"@), "name"@));
        ReadingView {
            friends: true,
            notice: if asks_me { Some((name + " quer ser seu amigo"@, false)) } else { None },
            ..nothing()
        }
    } else if event == "MemberRemoved"@ {
        ReadingView {
            removed_from: i64_at(data, "server_id"@),
            notice: Some((if str_at(data, "reason"@) == Some("banned"@) {
                "você foi banido deste servidor"@
            } else {
                "você foi expulso deste servidor"@
            }, true)),
            ..nothing()
        }
    } else if event == "ServerUpdated"@ || event == "VoiceStateUpdated"@ {
        ReadingView { tree: true, ..nothing() }
    } else if event == "presence.here"@ {
        let everyone = match at(data, "members"@) {
            Json::Array(members) => present(members@),
            _ => Seq::empty(),
        };
        ReadingView { presence: Some(PresenceView::Here(everyone)), ..nothing() }
    } else if event == "presence.joining"@ {
        ReadingView {
            presence: match presence_of(data) {
                Some(person) => Some(PresenceView::Joining(person)),
                None => None,
            },
            ..nothing()
        }
    } else if event == "presence.leaving"@ {
        ReadingView {
            presence: match presence_of(data) {
                Some(person) => Some(PresenceView::Leaving(person)),
                None => None,
            },
            ..nothing()
        }
    } else if event == "realtime.back"@ {
        ReadingView { catch_up: true, ..nothing() }
    } else if event == "realtime.closed"@ {
        ReadingView {
            notice: Some(("o tempo real desistiu de voltar: reabra o app para o chat e a presença voltarem"@, true)),
            ..nothing()
        }
    } else {
        nothing()
    }
}

fn channel_of(channel: Option<&str>) -> (id: Option<String>)
    ensures
        match channel_id(match channel {
            Some(name) => Some(name@),
            None => None,
        }) {
            Some(found) => id matches Some(id) && id@ == found,
            None => id is None,
        },
{
    match channel {
        Some(name) => {
            let chars = chars_of(name);
            let prefix = vec!['c', 'h', 'a', 'n', 'n', 'e', 'l', '.'];
            proof {
                assert(prefix@ =~= channel_prefix());
            }
            if starts_with(chars.as_slice(), prefix.as_slice()) {
                let rest = slice_of(chars.as_slice(), 8, chars.len());
                proof {
                    assert(rest@ =~= chars@.skip(8));
                }
                Some(string_of(rest.as_slice()))
            } else {
                None
            }
        },
        None => None,
    }
}

fn present_people(members: &Vec<Json>) -> (everyone: Vec<i64>)
    ensures
        everyone@ == present(members@),
{
    let mut everyone: Vec<i64> = Vec::new();
    let mut index: usize = 0;

    while index < members.len()
        invariant
            index <= members.len(),
            everyone@ == present(members@.take(index as int)),
        decreases members.len() - index,
    {
        proof {
            assert(members@.take(index + 1).drop_last() =~= members@.take(index as int));
            assert(members@.take(index + 1).last() == members@[index as int]);
        }
        match text_at(&members[index], "id") {
            Some(id) => match person_id(id) {
                Some(person) => everyone.push(person),
                None => {},
            },
            None => {},
        }
        index = index + 1;
    }

    proof {
        assert(members@.take(index as int) =~= members@);
    }

    everyone
}

fn first_chars(text: &str, count: usize) -> (shown: String)
    ensures
        shown@ == text@.take(if text@.len() < count { text@.len() as int } else { count as int }),
{
    let chars = chars_of(text);
    let end = if chars.len() < count { chars.len() } else { count };
    let piece = slice_of(chars.as_slice(), 0, end);
    proof {
        assert(piece@ =~= text@.take(end as int));
    }
    string_of(piece.as_slice())
}

fn text_or_nothing(text: Option<&str>) -> (owned: String)
    ensures
        owned@ == text_or_empty(match text {
            Some(t) => Some(t@),
            None => None,
        }),
{
    match text {
        Some(text) => String::from_str(text),
        None => String::new(),
    }
}

/// Reads an event of the queue. `me` is the account; `talking` is whom the open direct
/// conversation is with.
pub fn read(event: &str, channel: Option<&str>, data: &Json, me: i64, talking: Option<i64>) -> (reading: Reading)
    ensures
        reading@ == spec_read(event@, match channel {
            Some(name) => Some(name@),
            None => None,
        }, *data, me, talking),
{
    let null = Json::Null;
    let message = member_at(data, "message", &null);
    let mut reading = Reading::default();

    if same_text(event, "MessageSent") {
        let user = member_at(message, "user", &null);
        let mine = integer_at(user, "id") == Some(me);
        reading.messages_of = channel_of(channel);
        reading.unread = !mine;
        reading.chime = if mine { None } else { Some(Chime::Message) };
    } else if same_text(event, "MessageUpdated") || same_text(event, "MessageDeleted") {
        reading.messages_of = channel_of(channel);
    } else if same_text(event, "DirectMessageCreated") || same_text(event, "DirectMessageUpdated") {
        let sender_json = member_at(message, "sender", &null);
        let sender = integer_at(sender_json, "id");
        let mine = sender == Some(me);
        let person = if mine { integer_at(member_at(data, "recipient", &null), "id") } else { sender };
        let created = same_text(event, "DirectMessageCreated") && !mine;

        reading.direct = true;
        reading.direct_with = person;

        if created {
            reading.chime = Some(Chime::Message);

            if person != talking {
                let mut text = text_or_nothing(text_at(sender_json, "name"));
                let body = text_or_nothing(text_at(message, "body"));
                let shown = first_chars(body.as_str(), 60);
                text.append(": ");
                text.append(shown.as_str());
                reading.notice = Some(Notice { text, error: false });
            }
        }
    } else if same_text(event, "DirectMessageDeleted") {
        reading.direct = true;
    } else if same_text(event, "FriendshipUpdated") {
        let friendship = member_at(data, "friendship", &null);
        let not_removed = member_at(data, "removed", &null).as_bool() != Some(true);
        let pending = match text_at(friendship, "status") {
            Some(status) => same_text(status, "pending"),
            None => false,
        };
        let to_me = integer_at(member_at(friendship, "addressee", &null), "id") == Some(me);

        reading.friends = true;

        if not_removed && pending && to_me {
            let mut text = text_or_nothing(text_at(member_at(friendship, "requester", &null), "name"));
            text.append(" quer ser seu amigo");
            reading.notice = Some(Notice { text, error: false });
        }
    } else if same_text(event, "MemberRemoved") {
        let banned = match text_at(data, "reason") {
            Some(reason) => same_text(reason, "banned"),
            None => false,
        };
        reading.removed_from = integer_at(data, "server_id");
        reading.notice = Some(Notice::error(if banned {
            "você foi banido deste servidor"
        } else {
            "você foi expulso deste servidor"
        }));
    } else if same_text(event, "ServerUpdated") || same_text(event, "VoiceStateUpdated") {
        reading.tree = true;
    } else if same_text(event, "presence.here") {
        let everyone = match member_at(data, "members", &null) {
            Json::Array(members) => present_people(members),
            _ => Vec::new(),
        };
        reading.presence = Some(Presence::Here(everyone));
    } else if same_text(event, "presence.joining") {
        reading.presence = match text_at(data, "id") {
            Some(id) => match person_id(id) {
                Some(person) => Some(Presence::Joining(person)),
                None => None,
            },
            None => None,
        };
    } else if same_text(event, "presence.leaving") {
        reading.presence = match text_at(data, "id") {
            Some(id) => match person_id(id) {
                Some(person) => Some(Presence::Leaving(person)),
                None => None,
            },
            None => None,
        };
    } else if same_text(event, "realtime.back") {
        reading.catch_up = true;
    } else if same_text(event, "realtime.closed") {
        reading.notice = Some(
            Notice::error("o tempo real desistiu de voltar: reabra o app para o chat e a presença voltarem"),
        );
    }

    reading
}

} // verus!
