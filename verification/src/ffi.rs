//! What crosses to the interfaces that are not Rust: the frames in their block, the names
//! of the screens and refusals, and the log cleaned of the machine's user name.

use vstd::prelude::*;

use crate::api::HttpError;
use crate::app::EntryRefusal;
use crate::failure::{spec_wire_name, Failure};
use crate::json::Json;
use crate::keymap::{macos_key, macos_modifier, spec_macos_key, spec_macos_modifier, spec_split_accelerator, split, string_views};
use crate::text::{lines_of, seq_views, spec_lines, string_of};
use crate::models::Screen;
use crate::watching::{Media, MediaKind};

verus! {

/// The little-endian bytes of a 16-bit number.
pub open spec fn le16(value: int) -> Seq<u8> {
    seq![(value % 256) as u8, ((value / 256) % 256) as u8]
}

/// The little-endian bytes of a 32-bit number.
pub open spec fn le32(value: int) -> Seq<u8> {
    seq![
        (value % 256) as u8,
        ((value / 256) % 256) as u8,
        ((value / 65536) % 256) as u8,
        ((value / 16777216) % 256) as u8,
    ]
}

/// The block a frame crosses the ABI in, all little-endian:
/// `[kind u8: 0 video, 1 sound][keyframe u8][id length u16][timestamp u32][id][content]`.
/// The id's length is written in 16 bits, what does not fit is dropped.
pub open spec fn spec_frame_of(id: Seq<u8>, kind: MediaKind, data: Seq<u8>) -> Seq<u8> {
    let (tag, keyframe, timestamp): (u8, u8, u32) = match kind {
        MediaKind::Video { keyframe, timestamp } => (0u8, if keyframe { 1u8 } else { 0u8 }, timestamp),
        MediaKind::Audio => (1u8, 0u8, 0u32),
    };
    seq![tag, keyframe] + le16(id.len() as int % 65536) + le32(timestamp as int) + id + data
}

pub fn frame_of(media: &Media) -> (block: Vec<u8>)
    ensures
        block@ == spec_frame_of(vstd::utf8::encode_utf8(media.producer_id@), media.kind, media.data@),
{
    let (kind, keyframe, timestamp): (u8, u8, u32) = match media.kind {
        MediaKind::Video { keyframe, timestamp } => (0u8, if keyframe { 1u8 } else { 0u8 }, timestamp),
        MediaKind::Audio => (1u8, 0u8, 0u32),
    };
    let id = media.producer_id.as_str().as_bytes();
    let length: usize = id.len() % 65536;
    let mut block: Vec<u8> = Vec::new();

    block.push(kind);
    block.push(keyframe);
    block.push((length % 256) as u8);
    block.push((length / 256) as u8);
    block.push((timestamp % 256) as u8);
    block.push(((timestamp / 256) % 256) as u8);
    block.push(((timestamp / 65536) % 256) as u8);
    block.push((timestamp / 16777216) as u8);

    let ghost header = block@;

    proof {
        assert(header =~= seq![kind, keyframe] + le16(id@.len() as int % 65536) + le32(timestamp as int));
    }

    let mut index: usize = 0;

    while index < id.len()
        invariant
            index <= id.len(),
            block@ == header + id@.take(index as int),
        decreases id.len() - index,
    {
        block.push(id[index]);
        index = index + 1;
        proof {
            assert(id@.take(index as int) =~= id@.take(index - 1).push(id@[index - 1]));
        }
    }

    let ghost with_id = block@;

    proof {
        assert(id@.take(index as int) =~= id@);
    }

    let mut at: usize = 0;

    while at < media.data.len()
        invariant
            at <= media.data.len(),
            block@ == with_id + media.data@.take(at as int),
        decreases media.data.len() - at,
    {
        block.push(media.data[at]);
        at = at + 1;
        proof {
            assert(media.data@.take(at as int) =~= media.data@.take(at - 1).push(media.data@[at - 1]));
        }
    }

    proof {
        assert(media.data@.take(at as int) =~= media.data@);
    }

    block
}

/// `text` with every occurrence of `pattern`, from the left and without overlap, replaced
/// by `with`, as `str::replace` does.
pub open spec fn replace_all(text: Seq<char>, pattern: Seq<char>, with: Seq<char>) -> Seq<char>
    recommends
        pattern.len() > 0,
    decreases text.len(),
{
    if text.len() == 0 || pattern.len() == 0 {
        text
    } else if pattern.len() <= text.len() && text.take(pattern.len() as int) == pattern {
        with + replace_all(text.skip(pattern.len() as int), pattern, with)
    } else {
        seq![text[0]] + replace_all(text.drop_first(), pattern, with)
    }
}

/// What is sent without the machine's user name, which every path carries. A name of two
/// letters turns up inside words, and replacing it would spoil the rest.
pub open spec fn spec_scrub(text: Seq<char>, user: Seq<char>) -> Seq<char> {
    if user.len() < 3 {
        text
    } else {
        replace_all(text, user, "<usuario>"@)
    }
}

pub fn scrub(text: &str, user: &str) -> (cleaned: String)
    ensures
        cleaned@ == spec_scrub(text@, user@),
{
    let chars = crate::text::chars_of(text);
    let pattern = crate::text::chars_of(user);

    if pattern.len() < 3 {
        return String::from_str(text);
    }

    let replacement = crate::text::chars_of("<usuario>");
    let mut out: Vec<char> = Vec::new();
    let mut index: usize = 0;

    proof {
        assert(chars@.skip(0) =~= chars@);
    }

    while index < chars.len()
        invariant
            index <= chars.len(),
            pattern@.len() >= 3,
            out@ + replace_all(chars@.skip(index as int), pattern@, replacement@) == replace_all(
                chars@,
                pattern@,
                replacement@,
            ),
        decreases chars.len() - index,
    {
        let ghost rest = chars@.skip(index as int);
        let found = crate::text::matches_at(chars.as_slice(), pattern.as_slice(), index);

        proof {
            if pattern.len() <= rest.len() {
                assert(rest.take(pattern@.len() as int) =~= chars@.subrange(index as int, index + pattern@.len()));
            }
        }

        if found {
            let ghost before = out@;
            let mut at: usize = 0;
            while at < replacement.len()
                invariant
                    at <= replacement.len(),
                    out@ == before + replacement@.take(at as int),
                decreases replacement.len() - at,
            {
                out.push(replacement[at]);
                at = at + 1;
                proof {
                    assert(replacement@.take(at as int) =~= replacement@.take(at - 1).push(replacement@[at - 1]));
                }
            }
            proof {
                assert(replacement@.take(at as int) =~= replacement@);
                assert(rest.skip(pattern@.len() as int) =~= chars@.skip(index + pattern@.len()));
                assert(out@ + replace_all(chars@.skip(index + pattern@.len()), pattern@, replacement@) =~= before
                    + replace_all(rest, pattern@, replacement@));
            }
            index = index + pattern.len();
        } else {
            let ghost before = out@;
            out.push(chars[index]);
            proof {
                assert(rest[0] == chars@[index as int]);
                assert(rest.drop_first() =~= chars@.skip(index + 1));
                assert(out@ + replace_all(chars@.skip(index + 1), pattern@, replacement@) =~= before + replace_all(
                    rest,
                    pattern@,
                    replacement@,
                ));
            }
            index = index + 1;
        }
    }

    proof {
        assert(chars@.skip(index as int) =~= Seq::<char>::empty());
        assert(out@ + Seq::<char>::empty() =~= out@);
    }

    crate::text::string_of(out.as_slice())
}

/// The name the interfaces read for a screen. An `enum` does not cross the ABI, and a
/// number would cross it badly: reordering here would change every interface silently.
pub open spec fn spec_screen_name(screen: Screen) -> Seq<char> {
    match screen {
        Screen::Entry => "entry"@,
        Screen::Hub => "hub"@,
        Screen::Room => "room"@,
        Screen::Offline => "offline"@,
        Screen::Updating => "updating"@,
    }
}

pub fn screen_name(screen: Screen) -> (name: &'static str)
    ensures
        name@ == spec_screen_name(screen),
{
    match screen {
        Screen::Entry => "entry",
        Screen::Hub => "hub",
        Screen::Room => "room",
        Screen::Offline => "offline",
        Screen::Updating => "updating",
    }
}

/// The name the interfaces read for a refused entry.
pub open spec fn spec_refused(refusal: EntryRefusal) -> Seq<char> {
    match refusal {
        EntryRefusal::NameIsEmpty => "nameIsEmpty"@,
        EntryRefusal::CodeIsInvalid => "codeIsInvalid"@,
    }
}

pub fn refused(refusal: EntryRefusal) -> (name: &'static str)
    ensures
        name@ == spec_refused(refusal),
{
    match refusal {
        EntryRefusal::NameIsEmpty => "nameIsEmpty",
        EntryRefusal::CodeIsInvalid => "codeIsInvalid",
    }
}

/// The most of the log that travels in one report, in bytes.
pub const MAX_REPORT: u64 = 18000;

/// Where the part of the log not reported yet starts, and the marker's new place, for a
/// log of `size` bytes whose first `sent` were reported. A marker past the end means the
/// log was started again. Past the ceiling, the end stays: the error is the last thing
/// that happened.
pub open spec fn spec_unreported(size: u64, sent: u64) -> Option<(u64, u64)> {
    let from = if sent > size { 0 } else { sent };
    if from >= size {
        None
    } else {
        let tail = if size > MAX_REPORT { size - MAX_REPORT } else { 0 };
        Some((if from > tail { from } else { tail as u64 }, size))
    }
}

pub fn unreported_range(size: u64, sent: u64) -> (range: Option<(u64, u64)>)
    ensures
        range == spec_unreported(size, sent),
{
    let from = if sent > size { 0 } else { sent };

    if from >= size {
        return None;
    }

    let tail = if size > MAX_REPORT { size - MAX_REPORT } else { 0 };

    Some((if from > tail { from } else { tail }, size))
}

/// The last `count` lines of the log, for the window of logs.
pub fn tail_lines(text: &str, count: usize) -> (lines: Vec<String>)
    ensures
        crate::keymap::string_views(lines@) == spec_lines(text@).skip(
            if spec_lines(text@).len() > count { spec_lines(text@).len() - count } else { 0 },
        ),
{
    let chars = crate::text::chars_of(text);
    let all = lines_of(chars.as_slice());
    let ghost views = seq_views(all@);
    let start = if all.len() > count { all.len() - count } else { 0 };
    let mut lines: Vec<String> = Vec::new();
    let mut index = start;

    while index < all.len()
        invariant
            start <= index <= all.len(),
            views == seq_views(all@),
            views == spec_lines(text@),
            start == (if views.len() > count { views.len() - count } else { 0 }),
            crate::keymap::string_views(lines@) == views.subrange(start as int, index as int),
        decreases all.len() - index,
    {
        let line = string_of(all[index].as_slice());
        let ghost before = lines@;
        lines.push(line);
        index = index + 1;
        proof {
            assert(crate::keymap::string_views(lines@) =~= crate::keymap::string_views(before).push(all@[index - 1]@));
            assert(views.subrange(start as int, index as int) =~= views.subrange(start as int, index - 1).push(views[index - 1]));
        }
    }

    proof {
        assert(views.subrange(start as int, index as int) =~= views.skip(start as int));
    }

    lines
}

/// Every modifier of the list has its keys.
pub open spec fn modifiers_known(modifiers: Seq<Seq<char>>) -> bool {
    forall|i: int| 0 <= i < modifiers.len() ==> spec_macos_modifier(#[trigger] modifiers[i]) is Some
}

/// The key and the modifiers' keys of an accelerator on macOS: nothing when any part has
/// no code there.
pub open spec fn spec_keys_of(accelerator: Seq<char>) -> Option<(u16, Seq<Seq<u16>>)> {
    match spec_split_accelerator(accelerator) {
        None => None,
        Some((key, modifiers)) => match spec_macos_key(key) {
            None => None,
            Some(code) => if modifiers_known(modifiers) {
                Some((code, modifiers.map_values(|name: Seq<char>| spec_macos_modifier(name)->0)))
            } else {
                None
            },
        },
    }
}

pub fn keys_of(accelerator: &str) -> (keys: Option<(u16, Vec<[u16; 2]>)>)
    ensures
        match spec_keys_of(accelerator@) {
            Some((code, modifiers)) => keys matches Some((c, m)) && c == code && m@.map_values(|pair: [u16; 2]| pair@)
                == modifiers,
            None => keys is None,
        },
{
    let parts = match split(accelerator) {
        Some(parts) => parts,
        None => return None,
    };
    let code = match macos_key(parts.key.as_str()) {
        Some(code) => code,
        None => return None,
    };
    let ghost names = string_views(parts.modifiers@);
    let mut modifiers: Vec<[u16; 2]> = Vec::new();
    let mut index: usize = 0;

    while index < parts.modifiers.len()
        invariant
            index <= parts.modifiers.len(),
            names == string_views(parts.modifiers@),
            spec_split_accelerator(accelerator@) == Some((parts.key@, names)),
            spec_macos_key(parts.key@) == Some(code),
            forall|i: int| 0 <= i < index ==> spec_macos_modifier(#[trigger] names[i]) is Some,
            modifiers@.map_values(|pair: [u16; 2]| pair@) == names.take(index as int).map_values(
                |name: Seq<char>| spec_macos_modifier(name)->0,
            ),
        decreases parts.modifiers.len() - index,
    {
        proof {
            assert(names[index as int] == parts.modifiers@[index as int]@);
        }
        match macos_modifier(parts.modifiers[index].as_str()) {
            Some(pair) => {
                let ghost before = modifiers@;
                modifiers.push(pair);
                proof {
                    assert(modifiers@.map_values(|pair: [u16; 2]| pair@) =~= before.map_values(|pair: [u16; 2]| pair@).push(pair@));
                    assert(names.take(index + 1) =~= names.take(index as int).push(names[index as int]));
                }
            },
            None => {
                proof {
                    assert(spec_macos_modifier(names[index as int]) is None);
                    assert(!modifiers_known(names));
                }
                return None;
            },
        }
        index = index + 1;
    }

    proof {
        assert(names.take(index as int) =~= names);
    }

    Some((code, modifiers))
}

/// How this person presents herself to the media server, asked again at every entry: a
/// voice token lasts sixty seconds, and keeping the first would bring every return with an
/// expired one.
#[derive(Debug, Clone, PartialEq, Eq)]
pub enum IdentitySource {
    /// Without an account: the code, the typed name and this installation.
    Guest,
    /// With an account, in a voice channel: the channel's token.
    VoiceToken { channel: String },
    /// With an account, in a room by code: the room's token.
    RoomToken,
}

pub fn identity_source(signed_in: bool, voice: Option<String>) -> (source: IdentitySource)
    ensures
        !signed_in ==> source == IdentitySource::Guest,
        signed_in ==> match voice {
            Some(channel) => source == IdentitySource::VoiceToken { channel },
            None => source == IdentitySource::RoomToken,
        },
{
    if !signed_in {
        return IdentitySource::Guest;
    }

    match voice {
        Some(channel) => IdentitySource::VoiceToken { channel },
        None => IdentitySource::RoomToken,
    }
}

/// Why the token of an entry did not come: the reason of the refusal, and a validation
/// refusal, which has no field to paint here, counts as invalid.
pub fn token_failure(error: HttpError) -> (failure: Failure)
    ensures
        match error {
            HttpError::Failed(reason) => failure == reason,
            HttpError::Invalid { .. } => failure == Failure::Invalid,
        },
{
    match error {
        HttpError::Failed(reason) => reason,
        HttpError::Invalid { .. } => Failure::Invalid,
    }
}

/// `{"failed": reason}`, the answer of a refused call.
pub open spec fn is_failed_answer(answer: Json, failure: Failure) -> bool {
    match answer {
        Json::Object(members) => members@.len() == 1 && members@[0].0@ == "failed"@ && match members@[0].1 {
            Json::Text(name) => name@ == spec_wire_name(failure),
            _ => false,
        },
        _ => false,
    }
}

/// A text member named `key`.
pub open spec fn is_text_member(member: (String, Json), key: Seq<char>, text: Seq<char>) -> bool {
    member.0@ == key && match member.1 {
        Json::Text(value) => value@ == text,
        _ => false,
    }
}

/// `{"invalid": {"field": field, "message": message}}`, the answer of a refused field.
pub open spec fn is_invalid_answer(answer: Json, field: Seq<char>, message: Seq<char>) -> bool {
    match answer {
        Json::Object(members) => members@.len() == 1 && members@[0].0@ == "invalid"@ && match members@[0].1 {
            Json::Object(inner) => inner@.len() == 2 && is_text_member(inner@[0], "field"@, field)
                && is_text_member(inner@[1], "message"@, message),
            _ => false,
        },
        _ => false,
    }
}

fn failed_answer(failure: Failure) -> (answer: Json)
    ensures
        is_failed_answer(answer, failure),
{
    Json::Object(vec![(String::from_str("failed"), Json::Text(String::from_str(failure.wire_name())))])
}

/// What a call to the account server answers the interface. With no server address found
/// yet (`None`) it is `unreachable`, not a crash; otherwise the call's own answer, or its
/// refusal turned into `{"failed": reason}`, or a refused field into
/// `{"invalid": {"field", "message"}}`.
pub fn call_answer(outcome: Option<Result<Json, HttpError>>) -> (answer: Json)
    ensures
        match outcome {
            None => is_failed_answer(answer, Failure::Unreachable),
            Some(Ok(value)) => answer == value,
            Some(Err(HttpError::Failed(failure))) => is_failed_answer(answer, failure),
            Some(Err(HttpError::Invalid { field, message })) => is_invalid_answer(answer, field@, message@),
        },
{
    match outcome {
        None => failed_answer(Failure::Unreachable),
        Some(Ok(value)) => value,
        Some(Err(HttpError::Failed(failure))) => failed_answer(failure),
        Some(Err(HttpError::Invalid { field, message })) => {
            let inner = Json::Object(
                vec![(String::from_str("field"), Json::Text(field)), (String::from_str("message"), Json::Text(message))],
            );
            Json::Object(vec![(String::from_str("invalid"), inner)])
        },
    }
}

/// What an action on the open room answers: with no room open (`None`) it is `gone`, not a
/// crash; otherwise the action's own answer.
pub fn room_answer(outcome: Option<Json>) -> (answer: Json)
    ensures
        match outcome {
            None => is_failed_answer(answer, Failure::Gone),
            Some(value) => answer == value,
        },
{
    match outcome {
        None => failed_answer(Failure::Gone),
        Some(value) => value,
    }
}

} // verus!
