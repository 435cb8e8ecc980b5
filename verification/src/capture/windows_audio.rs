//! The system sound on Windows without the muted apps and without ours: which process
//! trees the mix records, and when the mix gives up. The loopback taps themselves are
//! Windows calls and live with the app.

use vstd::prelude::*;

use crate::capture::{muted_executable_names, muted_executables, text_views, CaptureSource};
use crate::text::{ascii_lowercase, chars_of, same_chars, spec_ascii_lowercase};

verus! {

/// Whose sound to record.
#[derive(Debug, Clone, Copy, PartialEq, Eq, Structural)]
pub enum AudioScope {
    /// Everything but our tree. Avoids sending back the sound of whoever is watched.
    ExcludeSelf,
    /// Only the tree of this process. Leaves the call app, the browser and us out.
    OnlyProcess(u32),
    /// Every process that plays sound, less us and the muted executables.
    ExceptMuted,
}

/// Whose sound a screen capture records. Sharing a window with the call apps muted turns
/// the question around: Windows does not let us leave out the call app and ourselves
/// together, so only the process tree of that window is recorded, and the call app, the
/// browser and we stay out of it. `owner` is the process that owns the window, `0` when it
/// could not be read: then everything but us is recorded rather than nothing.
pub fn audio_scope(source: CaptureSource, mute_listed_apps: bool, owner: u32) -> (scope: AudioScope)
    ensures
        scope == (if source is Window && mute_listed_apps && owner != 0 {
            AudioScope::OnlyProcess(owner)
        } else {
            AudioScope::ExcludeSelf
        }),
{
    match source {
        CaptureSource::Window(_) if mute_listed_apps => {
            if owner == 0 {
                AudioScope::ExcludeSelf
            } else {
                AudioScope::OnlyProcess(owner)
            }
        },
        _ => AudioScope::ExcludeSelf,
    }
}

/// How many scans in a row without seeing the processes the mix takes with a tap open
/// before giving up: ten seconds.
pub const BLIND_SCANS: u32 = 5;

/// The most ancestors followed. A recycled process number can close a cycle.
pub const MAX_LINEAGE: usize = 64;

/// The mix gives up when a scan fails with no tap open (it is mute with no way out) or when
/// it stays blind for `BLIND_SCANS` in a row: what plays goes on, but a game opened later
/// would never enter. A passing failure with a tap open brings nothing down.
pub open spec fn spec_gives_up(failed_scans: u32, open_taps: usize) -> bool {
    failed_scans > 0 && (open_taps == 0 || failed_scans >= BLIND_SCANS)
}

pub fn gives_up(failed_scans: u32, open_taps: usize) -> (stop: bool)
    ensures
        stop == spec_gives_up(failed_scans, open_taps),
{
    failed_scans > 0 && (open_taps == 0 || failed_scans >= BLIND_SCANS)
}

/// The parent of `pid` in the links `(child, parent)`: the first link of the child.
pub open spec fn parent_in(links: Seq<(u32, u32)>, pid: u32) -> Option<u32>
    decreases links.len(),
{
    if links.len() == 0 {
        None
    } else if links[0].0 == pid {
        Some(links[0].1)
    } else {
        parent_in(links.drop_first(), pid)
    }
}

/// `pid` and its ancestors, at most `count` of them, the nearest first.
pub open spec fn lineage(links: Seq<(u32, u32)>, pid: u32, count: nat) -> Seq<u32>
    decreases count,
{
    if count == 0 {
        Seq::empty()
    } else {
        seq![pid] + match parent_in(links, pid) {
            Some(parent) => lineage(links, parent, (count - 1) as nat),
            None => Seq::empty(),
        }
    }
}

pub open spec fn lineage_of(links: Seq<(u32, u32)>, pid: u32) -> Seq<u32> {
    lineage(links, pid, MAX_LINEAGE as nat)
}

/// `pid` is a muted process or one of their ancestors: its tree would bring a muted one.
pub open spec fn above_muted(links: Seq<(u32, u32)>, muted: Seq<u32>, pid: u32) -> bool {
    exists|m: int| 0 <= m < muted.len() && #[trigger] lineage_of(links, muted[m]).contains(pid)
}

/// `pid` descends from a muted process, or is one.
pub open spec fn below_muted(links: Seq<(u32, u32)>, muted: Seq<u32>, pid: u32) -> bool {
    exists|a: int| 0 <= a < lineage_of(links, pid).len() && muted.contains(#[trigger] lineage_of(links, pid)[a])
}

pub open spec fn allowed_pid(links: Seq<(u32, u32)>, muted: Seq<u32>) -> spec_fn(u32) -> bool {
    |pid: u32| !above_muted(links, muted, pid) && !below_muted(links, muted, pid)
}

/// `pid` descends from another allowed process, whose tree already brings it.
pub open spec fn under_allowed(links: Seq<(u32, u32)>, allowed: Seq<u32>, pid: u32) -> bool {
    exists|a: int| 1 <= a < lineage_of(links, pid).len() && allowed.contains(#[trigger] lineage_of(links, pid)[a])
}

pub open spec fn top_pid(links: Seq<(u32, u32)>, allowed: Seq<u32>) -> spec_fn(u32) -> bool {
    |pid: u32| !under_allowed(links, allowed, pid)
}

/// Which processes to record, each through its tree. Out stays whoever is muted, whoever
/// descends from a muted one (the call app plays in a child of its own) and whoever has a
/// muted one below: including the shell's tree would bring the call app along. Whoever
/// descends from another chosen one stays out too, since the ancestor's tree already
/// brings it and recording it again would double the sound.
pub open spec fn spec_chosen(candidates: Seq<u32>, muted: Seq<u32>, links: Seq<(u32, u32)>) -> Set<u32> {
    let allowed = candidates.filter(allowed_pid(links, muted));
    allowed.filter(top_pid(links, allowed)).to_set()
}

pub open spec fn strictly_increasing(values: Seq<u32>) -> bool {
    forall|i: int, j: int| 0 <= i < j < values.len() ==> values[i] < values[j]
}

fn parent(links: &[(u32, u32)], pid: u32) -> (found: Option<u32>)
    ensures
        found == parent_in(links@, pid),
{
    let mut index: usize = 0;

    proof {
        assert(links@.skip(0) =~= links@);
    }

    while index < links.len()
        invariant
            index <= links.len(),
            parent_in(links@, pid) == parent_in(links@.skip(index as int), pid),
        decreases links.len() - index,
    {
        proof {
            assert(links@.skip(index as int)[0] == links@[index as int]);
            assert(links@.skip(index as int).drop_first() =~= links@.skip(index + 1));
        }
        if links[index].0 == pid {
            return Some(links[index].1);
        }
        index = index + 1;
    }

    proof {
        assert(links@.skip(index as int) =~= Seq::<(u32, u32)>::empty());
    }

    None
}

fn ancestors(links: &[(u32, u32)], pid: u32) -> (line: Vec<u32>)
    ensures
        line@ == lineage_of(links@, pid),
{
    let mut line: Vec<u32> = Vec::new();
    let mut current: Option<u32> = Some(pid);
    let mut taken: usize = 0;

    while taken < MAX_LINEAGE
        invariant
            taken <= MAX_LINEAGE,
            line@ + match current {
                Some(c) => lineage(links@, c, (MAX_LINEAGE - taken) as nat),
                None => Seq::<u32>::empty(),
            } == lineage_of(links@, pid),
        decreases MAX_LINEAGE - taken,
    {
        match current {
            Some(c) => {
                let ghost before = line@;
                line.push(c);
                let next = parent(links, c);
                proof {
                    let rest = match next {
                        Some(p) => lineage(links@, p, (MAX_LINEAGE - taken - 1) as nat),
                        None => Seq::<u32>::empty(),
                    };
                    assert(lineage(links@, c, (MAX_LINEAGE - taken) as nat) == seq![c] + rest);
                    assert(line@ + rest =~= before + (seq![c] + rest));
                }
                current = next;
            },
            None => {},
        }
        taken = taken + 1;
    }

    proof {
        match current {
            Some(c) => assert(lineage(links@, c, 0) =~= Seq::<u32>::empty()),
            None => {},
        }
        assert(line@ + Seq::<u32>::empty() =~= line@);
    }

    line
}

fn holds(values: &[u32], value: u32) -> (found: bool)
    ensures
        found == values@.contains(value),
{
    let mut index: usize = 0;

    while index < values.len()
        invariant
            index <= values.len(),
            forall|i: int| 0 <= i < index ==> values@[i] != value,
        decreases values.len() - index,
    {
        if values[index] == value {
            proof {
                assert(values@[index as int] == value);
            }
            return true;
        }
        index = index + 1;
    }

    false
}

/// Whether any of `line`, from `from` on, is in `set`.
fn any_in(line: &[u32], from: usize, set: &[u32]) -> (found: bool)
    ensures
        found == exists|a: int| from <= a < line@.len() && set@.contains(#[trigger] line@[a]),
{
    let mut index = from;

    while index < line.len()
        invariant
            from <= index,
            forall|a: int| from <= a < index ==> !set@.contains(#[trigger] line@[a]),
        decreases line.len() - index,
    {
        if holds(set, line[index]) {
            proof {
                assert(set@.contains(line@[index as int]));
            }
            return true;
        }
        index = index + 1;
    }

    false
}

/// Inserts `value` into a strictly increasing list, unless it is already there.
fn insert_sorted(values: &mut Vec<u32>, value: u32)
    requires
        strictly_increasing(old(values)@),
    ensures
        strictly_increasing(final(values)@),
        final(values)@.to_set() == old(values)@.to_set().insert(value),
{
    let mut position: usize = 0;

    while position < values.len() && values[position] < value
        invariant
            position <= values.len(),
            strictly_increasing(values@),
            forall|i: int| 0 <= i < position ==> values@[i] < value,
        decreases values.len() - position,
    {
        position = position + 1;
    }

    let ghost before = values@;

    if position < values.len() && values[position] == value {
        proof {
            assert(before.to_set().contains(value));
            assert(before.to_set().insert(value) =~= before.to_set());
        }
        return;
    }

    values.insert(position, value);

    proof {
        assert(values@ =~= before.insert(position as int, value));
        assert forall|x: u32| values@.to_set().contains(x) <==> before.to_set().insert(value).contains(x) by {
            if values@.to_set().contains(x) {
                let i = choose|i: int| 0 <= i < values@.len() && values@[i] == x;
                if i < position {
                    assert(before[i] == x);
                } else if i > position {
                    assert(before[i - 1] == x);
                }
            }
            if before.to_set().contains(x) && x != value {
                let i = choose|i: int| 0 <= i < before.len() && before[i] == x;
                if i < position {
                    assert(values@[i] == x);
                } else {
                    assert(values@[i + 1] == x);
                }
            }
            if x == value {
                assert(values@[position as int] == value);
            }
        }
        assert(values@.to_set() =~= before.to_set().insert(value));
    }
}

fn is_above_muted(links: &[(u32, u32)], muted: &[u32], pid: u32) -> (above: bool)
    ensures
        above == above_muted(links@, muted@, pid),
{
    let mut m: usize = 0;

    while m < muted.len()
        invariant
            m <= muted.len(),
            forall|k: int| 0 <= k < m ==> !#[trigger] lineage_of(links@, muted@[k]).contains(pid),
        decreases muted.len() - m,
    {
        let line = ancestors(links, muted[m]);
        if holds(line.as_slice(), pid) {
            proof {
                assert(lineage_of(links@, muted@[m as int]).contains(pid));
            }
            return true;
        }
        m = m + 1;
    }

    false
}

/// Which processes to record, in increasing order, each once.
pub fn chosen(candidates: &[u32], muted: &[u32], links: &[(u32, u32)]) -> (wanted: Vec<u32>)
    ensures
        strictly_increasing(wanted@),
        wanted@.to_set() == spec_chosen(candidates@, muted@, links@),
{
    let ghost keep = allowed_pid(links@, muted@);
    let mut allowed: Vec<u32> = Vec::new();
    let mut c: usize = 0;

    while c < candidates.len()
        invariant
            c <= candidates.len(),
            keep == allowed_pid(links@, muted@),
            allowed@ == candidates@.take(c as int).filter(keep),
        decreases candidates.len() - c,
    {
        let pid = candidates[c];
        let line = ancestors(links, pid);
        let is_above = is_above_muted(links, muted, pid);
        let is_below = any_in(line.as_slice(), 0, muted);

        proof {
            assert(candidates@.take(c + 1) =~= candidates@.take(c as int).push(pid));
            candidates@.take(c as int).lemma_filter_push(pid, keep);
        }

        if !is_above && !is_below {
            allowed.push(pid);
        }
        c = c + 1;
    }

    proof {
        assert(candidates@.take(c as int) =~= candidates@);
    }

    let ghost top = top_pid(links@, allowed@);
    let mut wanted: Vec<u32> = Vec::new();
    let mut a: usize = 0;

    while a < allowed.len()
        invariant
            a <= allowed.len(),
            top == top_pid(links@, allowed@),
            strictly_increasing(wanted@),
            wanted@.to_set() == allowed@.take(a as int).filter(top).to_set(),
        decreases allowed.len() - a,
    {
        let pid = allowed[a];
        let line = ancestors(links, pid);
        let under = any_in(line.as_slice(), 1, allowed.as_slice());

        proof {
            assert(allowed@.take(a + 1) =~= allowed@.take(a as int).push(pid));
            allowed@.take(a as int).lemma_filter_push(pid, top);
        }

        if !under {
            insert_sorted(&mut wanted, pid);
            proof {
                allowed@.take(a as int).filter(top).lemma_push_to_set_commute(pid);
            }
        }
        a = a + 1;
    }

    proof {
        assert(allowed@.take(a as int) =~= allowed@);
    }

    wanted
}

/// Who plays the sound of others: a virtual mixer (SteelSeries Sonar, Voicemeeter) takes the
/// call app on a fake device and hands it back mixed into the real output, and `audiodg.exe`
/// is Windows's own audio engine. Their trees would bring the call app back and double the
/// sound of whoever already comes in through their own process.
pub open spec fn relay_names() -> Seq<Seq<char>> {
    seq![
        "audiodg.exe"@,
        "SteelSeriesSonar.exe"@,
        "voicemeeter.exe"@,
        "voicemeeter_x64.exe"@,
        "voicemeeterpro.exe"@,
        "voicemeeterpro_x64.exe"@,
        "voicemeeter8.exe"@,
        "voicemeeter8x64.exe"@,
    ]
}

pub fn relays() -> (names: Vec<&'static str>)
    ensures
        text_views(names@) == relay_names(),
{
    let names = vec![
        "audiodg.exe",
        "SteelSeriesSonar.exe",
        "voicemeeter.exe",
        "voicemeeter_x64.exe",
        "voicemeeterpro.exe",
        "voicemeeterpro_x64.exe",
        "voicemeeter8.exe",
        "voicemeeter8x64.exe",
    ];
    proof {
        assert(text_views(names@) =~= relay_names());
    }
    names
}

/// Whether an executable stays out of the mix: a muted one or a relay, compared without
/// ASCII case.
pub open spec fn silenced(name: Seq<char>) -> bool {
    let listed = muted_executable_names() + relay_names();
    exists|k: int| 0 <= k < listed.len() && spec_ascii_lowercase(#[trigger] listed[k]) == spec_ascii_lowercase(name)
}

/// The processes whose trees the mix leaves out, in the order given, then ourselves.
pub open spec fn spec_excluded(processes: Seq<(u32, Seq<char>)>, own: u32) -> Seq<u32>
    decreases processes.len(),
{
    if processes.len() == 0 {
        seq![own]
    } else {
        let rest = spec_excluded(processes.drop_last(), own).drop_last();
        let kept = if silenced(processes.last().1) { rest.push(processes.last().0) } else { rest };
        kept.push(own)
    }
}

pub open spec fn process_views(processes: Seq<(u32, String)>) -> Seq<(u32, Seq<char>)> {
    processes.map_values(|process: (u32, String)| (process.0, process.1@))
}

fn is_silenced(name: &String, listed: &Vec<&'static str>) -> (found: bool)
    requires
        text_views(listed@) == muted_executable_names() + relay_names(),
    ensures
        found == silenced(name@),
{
    let wanted = ascii_lowercase(chars_of(name.as_str()).as_slice());
    let mut index: usize = 0;

    while index < listed.len()
        invariant
            index <= listed.len(),
            text_views(listed@) == muted_executable_names() + relay_names(),
            wanted@ == spec_ascii_lowercase(name@),
            forall|k: int| 0 <= k < index ==> spec_ascii_lowercase(#[trigger] text_views(listed@)[k]) != wanted@,
        decreases listed.len() - index,
    {
        let candidate = ascii_lowercase(chars_of(listed[index]).as_slice());

        proof {
            assert(text_views(listed@)[index as int] == listed@[index as int]@);
        }

        if same_chars(candidate.as_slice(), wanted.as_slice()) {
            return true;
        }
        index = index + 1;
    }

    false
}

/// What the mix leaves out: each process (number and executable name) that is muted or a
/// relay, and our own process.
pub fn excluded(processes: &[(u32, String)], own: u32) -> (pids: Vec<u32>)
    ensures
        pids@ == spec_excluded(process_views(processes@), own),
{
    let mut listed = muted_executables();
    let mut more = relays();

    listed.append(&mut more);

    let mut pids: Vec<u32> = Vec::new();
    let mut index: usize = 0;

    while index < processes.len()
        invariant
            index <= processes.len(),
            text_views(listed@) == muted_executable_names() + relay_names(),
            pids@.push(own) == spec_excluded(process_views(processes@).take(index as int), own),
        decreases processes.len() - index,
    {
        let ghost views = process_views(processes@);

        proof {
            assert(views.take(index + 1).drop_last() =~= views.take(index as int));
            assert(views.take(index + 1).last() == (processes@[index as int].0, processes@[index as int].1@));
            assert(spec_excluded(views.take(index as int), own).drop_last() =~= pids@);
        }

        if is_silenced(&processes[index].1, &listed) {
            pids.push(processes[index].0);
        }
        index = index + 1;
    }

    proof {
        assert(process_views(processes@).take(index as int) =~= process_views(processes@));
    }

    pids.push(own);
    pids
}

/// The parent of `pid`, if it still is. Windows reuses process numbers: the recorded parent
/// of whoever outlived it may now be a game opened later, which would pass for an ancestor
/// of the call app and go mute. So the parent must be another process, still listed, and
/// born no later than the child.
pub open spec fn spec_valid_parent(
    pid: u32,
    parent: u32,
    parent_listed: bool,
    parent_created: Option<u64>,
    created: Option<u64>,
) -> Option<u32> {
    if parent == 0 || parent == pid || !parent_listed {
        None
    } else {
        match (parent_created, created) {
            (Some(born), Some(child_born)) => if born <= child_born { Some(parent) } else { None },
            _ => None,
        }
    }
}

pub fn valid_parent(
    pid: u32,
    parent: u32,
    parent_listed: bool,
    parent_created: Option<u64>,
    created: Option<u64>,
) -> (valid: Option<u32>)
    ensures
        valid == spec_valid_parent(pid, parent, parent_listed, parent_created, created),
{
    if parent == 0 || parent == pid || !parent_listed {
        return None;
    }

    match (parent_created, created) {
        (Some(born), Some(child_born)) => if born <= child_born {
            Some(parent)
        } else {
            None
        },
        _ => None,
    }
}

} // verus!
