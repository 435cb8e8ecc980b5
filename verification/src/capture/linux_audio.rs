//! The system sound without the muted apps and without ours, on Linux.
//!
//! PulseAudio (and `pipewire-pulse`) only hands out the monitor of a whole sink, so the
//! filter is a sink: a combine sink draining into the default output, to which every stream
//! goes but the muted ones and ours. This module reads `pactl list sink-inputs` and picks
//! the streams that go up; running `pactl` is the app's.

use vstd::prelude::*;

use crate::capture::windows_audio::parent_in;
use crate::capture::{muted_executable_names, muted_executables};
use crate::text::{
    ascii_lowercase, same_chars, chars_of, has_prefix, lines_of, matches_at, occurs_at, parse_u32, seq_views, slice_of,
    spec_ascii_lowercase, spec_lines, spec_parse_u32, spec_split_text, spec_trim, spec_words, split_text,
    starts_with, string_of, trim_char, trim_char_chars, trim_chars, words_of,
};

verus! {

pub const SINK: &'static str = "unkvoid_share";

/// The device `pulsesrc` reads while the sink stands.
pub const MONITOR: &'static str = "unkvoid_share.monitor";

/// The sound daemons: their inner streams (the combine itself, loopbacks) never enter our
/// sink, or the sound goes round and feeds back.
pub open spec fn daemons() -> Seq<Seq<char>> {
    seq!["pulseaudio"@, "pipewire"@, "pipewire-pulse"@, "wireplumber"@]
}

/// The value of a property line, as it is compared: trimmed, unquoted, in small letters.
pub open spec fn clean_value(rest: Seq<char>) -> Seq<char> {
    spec_ascii_lowercase(trim_char(spec_trim(rest), '"'))
}

/// The value of the first line of the block that begins, once trimmed, with `key`.
pub open spec fn field_of(lines: Seq<Seq<char>>, key: Seq<char>) -> Option<Seq<char>>
    decreases lines.len(),
{
    if lines.len() == 0 {
        None
    } else if has_prefix(spec_trim(lines[0]), key) {
        Some(clean_value(spec_trim(lines[0]).skip(key.len() as int)))
    } else {
        field_of(lines.drop_first(), key)
    }
}

pub open spec fn excluded_name(name: Seq<char>, muted: Seq<Seq<char>>) -> bool {
    muted.contains(name) || daemons().contains(name)
}

/// The index of a stream that goes up: a stream of a process from outside, not muted by its
/// binary nor by its name, not ours (the app and its own children), not a daemon's, and not
/// one of our sink's own module.
pub open spec fn spec_target(
    block: Seq<char>,
    module: u32,
    muted: Seq<Seq<char>>,
    own: u32,
    parents: Seq<(u32, u32)>,
) -> Option<u32> {
    let lines = spec_lines(block);
    if lines.len() == 0 {
        None
    } else {
        match spec_parse_u32(spec_trim(lines[0])) {
            None => None,
            Some(index) => match field_of(lines, "application.process.id = "@) {
                None => None,
                Some(pid_text) => match spec_parse_u32(pid_text) {
                    None => None,
                    Some(pid) => match field_of(lines, "application.process.binary = "@) {
                        None => None,
                        Some(binary) => {
                            let name = field_of(lines, "application.name = "@);
                            let ours = pid == own || parent_in(parents, pid) == Some(own);
                            let owner = match field_of(lines, "Owner Module:"@) {
                                Some(text) => spec_parse_u32(text),
                                None => None,
                            };
                            if ours || owner == Some(module) {
                                None
                            } else if excluded_name(binary, muted) || (name matches Some(n) && excluded_name(
                                n,
                                muted,
                            )) {
                                None
                            } else {
                                Some(index)
                            }
                        },
                    },
                },
            },
        }
    }
}

/// The indices that go up, block by block.
pub open spec fn targets_of(
    blocks: Seq<Seq<char>>,
    module: u32,
    muted: Seq<Seq<char>>,
    own: u32,
    parents: Seq<(u32, u32)>,
) -> Seq<u32>
    decreases blocks.len(),
{
    if blocks.len() == 0 {
        Seq::empty()
    } else {
        let rest = targets_of(blocks.drop_last(), module, muted, own, parents);
        match spec_target(blocks.last(), module, muted, own, parents) {
            Some(index) => rest.push(index),
            None => rest,
        }
    }
}

/// The streams of `pactl list sink-inputs` that go up, in the order listed. `parents`
/// holds `(child, parent)` for the processes whose parent is known.
pub open spec fn spec_targets(
    listing: Seq<char>,
    module: u32,
    muted: Seq<Seq<char>>,
    own: u32,
    parents: Seq<(u32, u32)>,
) -> Seq<u32> {
    targets_of(spec_split_text(listing, "Sink Input #"@).drop_first(), module, muted, own, parents)
}

pub open spec fn string_views(texts: Seq<String>) -> Seq<Seq<char>> {
    texts.map_values(|text: String| text@)
}

fn field(lines: &Vec<Vec<char>>, key: &str) -> (value: Option<Vec<char>>)
    ensures
        match field_of(seq_views(lines@), key@) {
            Some(found) => value matches Some(value) && value@ == found,
            None => value is None,
        },
{
    let ghost all = seq_views(lines@);
    let wanted = chars_of(key);
    let mut index: usize = 0;

    proof {
        assert(all.skip(0) =~= all);
    }

    while index < lines.len()
        invariant
            index <= lines.len(),
            all == seq_views(lines@),
            wanted@ == key@,
            field_of(all, key@) == field_of(all.skip(index as int), key@),
        decreases lines.len() - index,
    {
        proof {
            assert(all.skip(index as int)[0] == lines@[index as int]@);
            assert(all.skip(index as int).drop_first() =~= all.skip(index + 1));
        }
        let line = trim_chars(lines[index].as_slice());
        if starts_with(line.as_slice(), wanted.as_slice()) {
            let rest = slice_of(line.as_slice(), wanted.len(), line.len());
            let trimmed = trim_chars(rest.as_slice());
            let unquoted = trim_char_chars(trimmed.as_slice(), '"');
            let value = ascii_lowercase(unquoted.as_slice());
            proof {
                assert(rest@ =~= line@.skip(key@.len() as int));
            }
            return Some(value);
        }
        index = index + 1;
    }

    proof {
        assert(all.skip(index as int) =~= Seq::<Seq<char>>::empty());
    }

    None
}

fn is_excluded(name: &Vec<char>, muted: &[String]) -> (excluded: bool)
    ensures
        excluded == excluded_name(name@, string_views(muted@)),
{
    let ghost views = string_views(muted@);
    let mut index: usize = 0;

    while index < muted.len()
        invariant
            index <= muted.len(),
            views == string_views(muted@),
            forall|i: int| 0 <= i < index ==> views[i] != name@,
        decreases muted.len() - index,
    {
        let candidate = chars_of(muted[index].as_str());
        if same_chars(candidate.as_slice(), name.as_slice()) {
            proof {
                assert(views[index as int] == name@);
            }
            return true;
        }
        index = index + 1;
    }

    let known: Vec<&'static str> = vec!["pulseaudio", "pipewire", "pipewire-pulse", "wireplumber"];
    let ghost known_views = known@.map_values(|text: &'static str| text@);
    let mut at: usize = 0;

    proof {
        assert(known_views =~= daemons());
        assert(!views.contains(name@));
    }

    while at < known.len()
        invariant
            at <= known.len(),
            known_views == known@.map_values(|text: &'static str| text@),
            known_views == daemons(),
            forall|i: int| 0 <= i < at ==> known_views[i] != name@,
        decreases known.len() - at,
    {
        let candidate = chars_of(known[at]);
        if same_chars(candidate.as_slice(), name.as_slice()) {
            proof {
                assert(known_views[at as int] == name@);
            }
            return true;
        }
        at = at + 1;
    }

    false
}

fn parent_of(parents: &[(u32, u32)], pid: u32) -> (found: Option<u32>)
    ensures
        found == parent_in(parents@, pid),
{
    let mut index: usize = 0;

    proof {
        assert(parents@.skip(0) =~= parents@);
    }

    while index < parents.len()
        invariant
            index <= parents.len(),
            parent_in(parents@, pid) == parent_in(parents@.skip(index as int), pid),
        decreases parents.len() - index,
    {
        proof {
            assert(parents@.skip(index as int)[0] == parents@[index as int]);
            assert(parents@.skip(index as int).drop_first() =~= parents@.skip(index + 1));
        }
        if parents[index].0 == pid {
            return Some(parents[index].1);
        }
        index = index + 1;
    }

    proof {
        assert(parents@.skip(index as int) =~= Seq::<(u32, u32)>::empty());
    }

    None
}

fn target(block: &Vec<char>, module: u32, muted: &[String], own: u32, parents: &[(u32, u32)]) -> (index: Option<u32>)
    ensures
        index == spec_target(block@, module, string_views(muted@), own, parents@),
{
    let lines = lines_of(block.as_slice());

    if lines.len() == 0 {
        return None;
    }

    proof {
        assert(seq_views(lines@)[0] == lines@[0]@);
    }

    let first = trim_chars(lines[0].as_slice());
    let index = match parse_u32(first.as_slice()) {
        Some(index) => index,
        None => return None,
    };
    let pid_text = match field(&lines, "application.process.id = ") {
        Some(text) => text,
        None => return None,
    };
    let pid = match parse_u32(pid_text.as_slice()) {
        Some(pid) => pid,
        None => return None,
    };
    let binary = match field(&lines, "application.process.binary = ") {
        Some(binary) => binary,
        None => return None,
    };
    let name = field(&lines, "application.name = ");
    let ours = pid == own || parent_of(parents, pid) == Some(own);
    let owner = match field(&lines, "Owner Module:") {
        Some(text) => parse_u32(text.as_slice()),
        None => None,
    };

    if ours || owner == Some(module) {
        return None;
    }

    let excluded = is_excluded(&binary, muted) || match &name {
        Some(name) => is_excluded(name, muted),
        None => false,
    };

    if excluded {
        None
    } else {
        Some(index)
    }
}

/// The indices that go into the broadcast: every stream of a process from outside, less
/// the muted ones, ours (the app and its `gst-launch` children) and the daemons'.
pub fn targets(listing: &str, module: u32, muted: &[String], own: u32, parents: &[(u32, u32)]) -> (indices: Vec<u32>)
    ensures
        indices@ == spec_targets(listing@, module, string_views(muted@), own, parents@),
{
    let chars = chars_of(listing);
    let separator = chars_of("Sink Input #");

    if separator.len() == 0 {
        proof {
            assert(spec_split_text(listing@, "Sink Input #"@).drop_first() =~= Seq::<Seq<char>>::empty());
        }
        return Vec::new();
    }

    let blocks = split_text(chars.as_slice(), separator.as_slice());
    let ghost all = seq_views(blocks@).drop_first();
    let mut indices: Vec<u32> = Vec::new();
    let mut at: usize = 1;

    proof {
        assert(all.take(0) =~= Seq::<Seq<char>>::empty());
    }

    while at < blocks.len()
        invariant
            1 <= at <= blocks.len() || blocks.len() == 0,
            all == seq_views(blocks@).drop_first(),
            blocks.len() > 0 ==> indices@ == targets_of(all.take(at - 1), module, string_views(muted@), own, parents@),
            blocks.len() == 0 ==> indices@.len() == 0,
        decreases blocks.len() - at,
    {
        proof {
            assert(all.take(at as int).drop_last() =~= all.take(at - 1));
            assert(all.take(at as int).last() == blocks@[at as int]@);
        }
        match target(&blocks[at], module, muted, own, parents) {
            Some(index) => indices.push(index),
            None => {},
        }
        at = at + 1;
    }

    proof {
        if blocks.len() > 0 {
            assert(all.take(at - 1) =~= all);
        } else {
            assert(all =~= Seq::<Seq<char>>::empty());
        }
    }

    indices
}

/// What follows the last `)` of a text, if it has one.
pub open spec fn after_last_paren(text: Seq<char>) -> Option<Seq<char>>
    decreases text.len(),
{
    if text.len() == 0 {
        None
    } else if text.last() == ')' {
        Some(Seq::empty())
    } else {
        match after_last_paren(text.drop_last()) {
            Some(rest) => Some(rest.push(text.last())),
            None => None,
        }
    }
}

/// The parent of a process, from its `/proc/<pid>/stat`: the second field after the name,
/// which ends at the last `)` since the name itself may hold one.
pub open spec fn spec_parent_in_stat(stat: Seq<char>) -> Option<u32> {
    match after_last_paren(stat) {
        Some(rest) => {
            let fields = spec_words(rest);
            if fields.len() >= 2 { spec_parse_u32(fields[1]) } else { None }
        },
        None => None,
    }
}

pub fn parent_in_stat(stat: &str) -> (parent: Option<u32>)
    ensures
        parent == spec_parent_in_stat(stat@),
{
    let chars = chars_of(stat);
    let mut end: usize = chars.len();

    proof {
        assert(chars@.take(end as int) =~= chars@);
        assert(chars@.skip(end as int) =~= Seq::<char>::empty());
    }

    while end > 0 && chars[end - 1] != ')'
        invariant
            end <= chars.len(),
            chars@ == stat@,
            after_last_paren(chars@) == match after_last_paren(chars@.take(end as int)) {
                Some(rest) => Some(rest + chars@.skip(end as int)),
                None => None,
            },
        decreases end,
    {
        proof {
            let head = chars@.take(end as int);
            assert(head.drop_last() =~= chars@.take(end - 1));
            assert(head.last() == chars@[end - 1]);
            assert(chars@.skip(end - 1) =~= seq![chars@[end - 1]] + chars@.skip(end as int));
            match after_last_paren(chars@.take(end - 1)) {
                Some(rest) => {
                    assert(rest.push(chars@[end - 1]) + chars@.skip(end as int) =~= rest + chars@.skip(end - 1));
                },
                None => {},
            }
        }
        end = end - 1;
    }

    if end == 0 {
        proof {
            assert(chars@.take(0) =~= Seq::<char>::empty());
        }
        return None;
    }

    proof {
        assert(chars@.take(end as int).last() == ')');
        assert(Seq::<char>::empty() + chars@.skip(end as int) =~= chars@.subrange(end as int, chars.len() as int));
    }

    let rest = slice_of(chars.as_slice(), end, chars.len());
    let fields = words_of(rest.as_slice());

    if fields.len() < 2 {
        return None;
    }

    proof {
        assert(seq_views(fields@)[1] == fields@[1]@);
    }

    parse_u32(fields[1].as_slice())
}

/// `name` without the `.exe` at its end, as many times as it occurs there, as
/// `trim_end_matches(".exe")`.
pub open spec fn strip_exe(name: Seq<char>) -> Seq<char>
    decreases name.len(),
{
    if occurs_at(name, ".exe"@, name.len() - 4) {
        strip_exe(name.subrange(0, name.len() - 4))
    } else {
        name
    }
}

/// The names whose streams stay out: with the flag, the muted executables without `.exe`
/// and in small letters; without it, none.
pub open spec fn spec_muted_names(mute_listed_apps: bool) -> Seq<Seq<char>> {
    if mute_listed_apps {
        muted_executable_names().map_values(|name: Seq<char>| spec_ascii_lowercase(strip_exe(name)))
    } else {
        Seq::empty()
    }
}

fn without_exe(name: &str) -> (stripped: Vec<char>)
    ensures
        stripped@ == strip_exe(name@),
{
    let suffix = chars_of(".exe");
    let mut chars = chars_of(name);

    proof {
        reveal_strlit(".exe");
    }

    while chars.len() >= 4 && matches_at(chars.as_slice(), suffix.as_slice(), chars.len() - 4)
        invariant
            suffix@ == ".exe"@,
            strip_exe(chars@) == strip_exe(name@),
        decreases chars.len(),
    {
        let kept = slice_of(chars.as_slice(), 0, chars.len() - 4);
        chars = kept;
    }

    chars
}

/// The names `targets` leaves out, as the sink is opened with or without the flag.
pub fn muted_names(mute_listed_apps: bool) -> (names: Vec<String>)
    ensures
        string_views(names@) == spec_muted_names(mute_listed_apps),
{
    let mut names: Vec<String> = Vec::new();

    if !mute_listed_apps {
        proof {
            assert(string_views(names@) =~= spec_muted_names(mute_listed_apps));
        }
        return names;
    }

    let executables = muted_executables();
    let ghost wanted = muted_executable_names().map_values(|name: Seq<char>| spec_ascii_lowercase(strip_exe(name)));
    let mut index: usize = 0;

    proof {
        assert(executables@.len() == muted_executable_names().len()) by {
            assert(crate::capture::text_views(executables@).len() == executables@.len());
        }
    }

    while index < executables.len()
        invariant
            index <= executables.len(),
            crate::capture::text_views(executables@) == muted_executable_names(),
            executables@.len() == muted_executable_names().len(),
            wanted == muted_executable_names().map_values(|name: Seq<char>| spec_ascii_lowercase(strip_exe(name))),
            string_views(names@) == wanted.take(index as int),
        decreases executables.len() - index,
    {
        let stripped = without_exe(executables[index]);
        let lower = ascii_lowercase(stripped.as_slice());
        let name = string_of(lower.as_slice());

        proof {
            assert(crate::capture::text_views(executables@)[index as int] == executables@[index as int]@);
            assert(muted_executable_names()[index as int] == executables@[index as int]@);
            assert(name@ == wanted[index as int]);
            assert(string_views(names@.push(name)) =~= string_views(names@).push(name@));
        }

        names.push(name);
        index = index + 1;

        proof {
            assert(string_views(names@) =~= wanted.take(index as int));
        }
    }

    proof {
        assert(wanted.take(index as int) =~= wanted);
    }

    names
}

} // verus!
