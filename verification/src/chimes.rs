//! Which chime a change of the room's list plays, and the notice shown with it. The
//! sound itself is floating point and is rendered outside the library.

use vstd::prelude::*;

use crate::models::{same_text, Peer, PeerView};

verus! {

#[derive(Debug, Clone, Copy, PartialEq, Eq, Structural)]
pub enum Chime {
    Joined,
    Left,
    StreamStarted,
    StreamStopped,
    Message,
}

pub open spec fn peer_views(peers: Seq<Peer>) -> Seq<PeerView> {
    peers.map_values(|peer: Peer| peer@)
}

/// Someone on the list has the id `id`.
pub open spec fn has_id(peers: Seq<PeerView>, id: Seq<char>) -> bool {
    exists|k: int| 0 <= k < peers.len() && #[trigger] peers[k].peer_id == id
}

/// The `j`-th producer of the `i`-th person is a screen of someone other than me.
pub open spec fn screen_at(peers: Seq<PeerView>, i: int, j: int) -> bool {
    &&& 0 <= i < peers.len()
    &&& 0 <= j < peers[i].producers.len()
    &&& !peers[i].self_peer
    &&& peers[i].producers[j].source == "screen"@
}

/// Someone other than me on the list shows the screen `id`.
pub open spec fn has_screen(peers: Seq<PeerView>, id: Seq<char>) -> bool {
    exists|k: int, l: int| #[trigger] screen_at(peers, k, l) && peers[k].producers[l].producer_id == id
}

/// The `i`-th person of `now` is not in `before`.
pub open spec fn arrived_at(before: Seq<PeerView>, now: Seq<PeerView>, i: int) -> bool {
    0 <= i < now.len() && !has_id(before, now[i].peer_id)
}

/// The screen at `(i, j)` of `now` was not in `before`.
pub open spec fn started_at(before: Seq<PeerView>, now: Seq<PeerView>, i: int, j: int) -> bool {
    screen_at(now, i, j) && !has_screen(before, now[i].producers[j].producer_id)
}

pub open spec fn someone_arrived(before: Seq<PeerView>, now: Seq<PeerView>) -> bool {
    exists|i: int| #[trigger] arrived_at(before, now, i)
}

pub open spec fn a_screen_started(before: Seq<PeerView>, now: Seq<PeerView>) -> bool {
    exists|i: int, j: int| #[trigger] started_at(before, now, i, j)
}

/// The chime of a change of the list: someone arrived, someone left, and only then a
/// screen of someone else that started or stopped. The first list of the room is the
/// arrival of whoever enters, and plays nothing.
pub open spec fn spec_after(before: Seq<PeerView>, now: Seq<PeerView>) -> Option<Chime> {
    if before.len() == 0 {
        None
    } else if someone_arrived(before, now) {
        Some(Chime::Joined)
    } else if someone_arrived(now, before) {
        Some(Chime::Left)
    } else if a_screen_started(before, now) {
        Some(Chime::StreamStarted)
    } else if a_screen_started(now, before) {
        Some(Chime::StreamStopped)
    } else {
        None
    }
}

/// The first list of a room plays nothing, and neither does a list that did not change.
pub proof fn law_no_change_plays_nothing(peers: Seq<PeerView>)
    ensures
        spec_after(Seq::empty(), peers) is None,
        spec_after(peers, peers) is None,
{
    assert forall|i: int| !#[trigger] arrived_at(peers, peers, i) by {
        if 0 <= i < peers.len() {
            assert(peers[i].peer_id == peers[i].peer_id);
        }
    }
    assert forall|i: int, j: int| !#[trigger] started_at(peers, peers, i, j) by {
        if screen_at(peers, i, j) {
            assert(screen_at(peers, i, j) && peers[i].producers[j].producer_id == peers[i].producers[j].producer_id);
        }
    }
}

/// Someone other than me on the list shares a screen with the id `id`: a producer whose
/// source is `screen`.
pub open spec fn shares_screen(peers: Seq<PeerView>, id: Seq<char>) -> bool {
    exists|k: int, l: int|
        0 <= k < peers.len() && 0 <= l < peers[k].producers.len() && !peers[k].self_peer
            && peers[k].producers[l].source == "screen"@ && #[trigger] peers[k].producers[l].producer_id == id
}

/// Only who comes, who goes and the screens of others chime: a change that keeps the same
/// people and the same shared screens plays nothing, whatever else changed (a microphone
/// or a camera turned on or off, a pause, a reconnection).
pub proof fn law_only_people_and_screens_chime(before: Seq<PeerView>, now: Seq<PeerView>)
    requires
        forall|i: int| 0 <= i < now.len() ==> has_id(before, #[trigger] now[i].peer_id),
        forall|k: int| 0 <= k < before.len() ==> has_id(now, #[trigger] before[k].peer_id),
        forall|i: int, j: int|
            0 <= i < now.len() && 0 <= j < now[i].producers.len() && !now[i].self_peer && now[i].producers[j].source
                == "screen"@ ==> shares_screen(before, #[trigger] now[i].producers[j].producer_id),
        forall|k: int, l: int|
            0 <= k < before.len() && 0 <= l < before[k].producers.len() && !before[k].self_peer
                && before[k].producers[l].source == "screen"@ ==> shares_screen(
                now,
                #[trigger] before[k].producers[l].producer_id,
            ),
    ensures
        spec_after(before, now) is None,
{
    assert forall|i: int| !#[trigger] arrived_at(before, now, i) by {
        if 0 <= i < now.len() {
            assert(has_id(before, now[i].peer_id));
        }
    }
    assert forall|k: int| !#[trigger] arrived_at(now, before, k) by {
        if 0 <= k < before.len() {
            assert(has_id(now, before[k].peer_id));
        }
    }
    assert forall|i: int, j: int| !#[trigger] started_at(before, now, i, j) by {
        if screen_at(now, i, j) {
            let id = now[i].producers[j].producer_id;
            assert(shares_screen(before, id));
            let (k, l) = choose|k: int, l: int|
                0 <= k < before.len() && 0 <= l < before[k].producers.len() && !before[k].self_peer
                    && before[k].producers[l].source == "screen"@ && #[trigger] before[k].producers[l].producer_id == id;
            assert(screen_at(before, k, l));
        }
    }
    assert forall|k: int, l: int| !#[trigger] started_at(now, before, k, l) by {
        if screen_at(before, k, l) {
            let id = before[k].producers[l].producer_id;
            assert(shares_screen(now, id));
            let (i, j) = choose|i: int, j: int|
                0 <= i < now.len() && 0 <= j < now[i].producers.len() && !now[i].self_peer
                    && now[i].producers[j].source == "screen"@ && #[trigger] now[i].producers[j].producer_id == id;
            assert(screen_at(now, i, j));
        }
    }
}

/// Someone new on a list that was not empty chimes an arrival; with nobody new, someone
/// missing chimes a departure. The arrival wins when both happen at once.
pub proof fn law_arrivals_and_departures_chime(before: Seq<PeerView>, now: Seq<PeerView>, i: int)
    requires
        before.len() > 0,
    ensures
        (0 <= i < now.len() && forall|k: int| 0 <= k < before.len() ==> #[trigger] before[k].peer_id != now[i].peer_id)
            ==> spec_after(before, now) == Some(Chime::Joined),
        (0 <= i < before.len() && (forall|k: int| 0 <= k < now.len() ==> #[trigger] now[k].peer_id != before[i].peer_id)
            && forall|m: int| 0 <= m < now.len() ==> has_id(before, #[trigger] now[m].peer_id))
            ==> spec_after(before, now) == Some(Chime::Left),
{
    if 0 <= i < now.len() && forall|k: int| 0 <= k < before.len() ==> #[trigger] before[k].peer_id != now[i].peer_id {
        assert(arrived_at(before, now, i));
    }
    if 0 <= i < before.len() && (forall|k: int| 0 <= k < now.len() ==> #[trigger] now[k].peer_id != before[i].peer_id)
        && forall|m: int| 0 <= m < now.len() ==> has_id(before, #[trigger] now[m].peer_id) {
        assert(arrived_at(now, before, i));
        assert forall|m: int| !#[trigger] arrived_at(before, now, m) by {
            if 0 <= m < now.len() {
                assert(has_id(before, now[m].peer_id));
            }
        }
    }
}

/// The first person of `now` not in `before`.
pub open spec fn first_arrival(before: Seq<PeerView>, now: Seq<PeerView>) -> int {
    choose|i: int| arrived_at(before, now, i) && forall|k: int| 0 <= k < i ==> !#[trigger] arrived_at(before, now, k)
}

/// The first screen of `now`, in list order, that was not in `before`.
pub open spec fn first_start(before: Seq<PeerView>, now: Seq<PeerView>) -> (int, int) {
    choose|p: (int, int)|
        started_at(before, now, p.0, p.1) && forall|k: int, l: int|
            (k < p.0 || (k == p.0 && l < p.1)) ==> !#[trigger] started_at(before, now, k, l)
}

/// The name of the first person with the id `id`, or "someone".
pub open spec fn name_of(peers: Seq<PeerView>, id: Seq<char>) -> Seq<char> {
    if has_id(peers, id) {
        peers[choose|k: int|
            0 <= k < peers.len() && peers[k].peer_id == id && forall|m: int| 0 <= m < k ==> #[trigger] peers[m].peer_id
                != id].name
    } else {
        "alguém"@
    }
}

/// Someone on the list has a producer `id`, of any kind.
pub open spec fn produces(peer: PeerView, id: Seq<char>) -> bool {
    exists|l: int| 0 <= l < peer.producers.len() && #[trigger] peer.producers[l].producer_id == id
}

/// The first person of the list with the producer `id`.
pub open spec fn owner_of(peers: Seq<PeerView>, id: Seq<char>) -> int {
    choose|k: int| 0 <= k < peers.len() && produces(peers[k], id) && forall|m: int| 0 <= m < k ==> !#[trigger] produces(peers[m], id)
}

/// The notice shown with the chime: who came, who left, who started sharing. Stopping only
/// plays.
pub open spec fn spec_notice_after(before: Seq<PeerView>, now: Seq<PeerView>) -> Option<Seq<char>> {
    match spec_after(before, now) {
        Some(Chime::Joined) => Some(name_of(now, now[first_arrival(before, now)].peer_id) + " entrou"@),
        Some(Chime::Left) => Some(name_of(before, before[first_arrival(now, before)].peer_id) + " saiu"@),
        Some(Chime::StreamStarted) => {
            let p = first_start(before, now);
            Some(now[owner_of(now, now[p.0].producers[p.1].producer_id)].name + " começou a transmitir"@)
        },
        _ => None,
    }
}

fn has_peer(peers: &[Peer], id: &str) -> (found: bool)
    ensures
        found == has_id(peer_views(peers@), id@),
{
    let ghost views = peer_views(peers@);
    let mut k: usize = 0;

    while k < peers.len()
        invariant
            k <= peers.len(),
            views == peer_views(peers@),
            forall|m: int| 0 <= m < k ==> views[m].peer_id != id@,
        decreases peers.len() - k,
    {
        if same_text(peers[k].peer_id.as_str(), id) {
            proof {
                assert(views[k as int].peer_id == id@);
            }
            return true;
        }
        k = k + 1;
    }

    false
}

fn is_screen(peer: &Peer, index: usize) -> (screen: bool)
    requires
        index < peer.producers.len(),
    ensures
        screen == (!peer@.self_peer && peer@.producers[index as int].source == "screen"@),
{
    !peer.self_peer && same_text(peer.producers[index].source.as_str(), "screen")
}

fn shows(peers: &[Peer], id: &str) -> (found: bool)
    ensures
        found == has_screen(peer_views(peers@), id@),
{
    let ghost views = peer_views(peers@);
    let mut k: usize = 0;

    while k < peers.len()
        invariant
            k <= peers.len(),
            views == peer_views(peers@),
            forall|m: int, l: int| 0 <= m < k && #[trigger] screen_at(views, m, l) ==> views[m].producers[l].producer_id != id@,
        decreases peers.len() - k,
    {
        let mut l: usize = 0;

        while l < peers[k].producers.len()
            invariant
                k < peers.len(),
                l <= peers@[k as int].producers.len(),
                views == peer_views(peers@),
                forall|m: int, n: int| 0 <= m < k && #[trigger] screen_at(views, m, n) ==> views[m].producers[n].producer_id != id@,
                forall|n: int| 0 <= n < l && #[trigger] screen_at(views, k as int, n) ==> views[k as int].producers[n].producer_id != id@,
            decreases peers@[k as int].producers.len() - l,
        {
            if is_screen(&peers[k], l) && same_text(peers[k].producers[l].producer_id.as_str(), id) {
                proof {
                    assert(screen_at(views, k as int, l as int));
                }
                return true;
            }
            l = l + 1;
        }
        k = k + 1;
    }

    false
}

/// The index of the first person of `now` not in `before`.
fn arrival(before: &[Peer], now: &[Peer]) -> (found: Option<usize>)
    ensures
        match found {
            Some(i) => i < now.len() && arrived_at(peer_views(before@), peer_views(now@), i as int) && forall|k: int|
                0 <= k < i ==> !#[trigger] arrived_at(peer_views(before@), peer_views(now@), k),
            None => !someone_arrived(peer_views(before@), peer_views(now@)),
        },
{
    let ghost b = peer_views(before@);
    let ghost n = peer_views(now@);
    let mut i: usize = 0;

    while i < now.len()
        invariant
            i <= now.len(),
            b == peer_views(before@),
            n == peer_views(now@),
            forall|k: int| 0 <= k < i ==> !#[trigger] arrived_at(b, n, k),
        decreases now.len() - i,
    {
        if !has_peer(before, now[i].peer_id.as_str()) {
            return Some(i);
        }
        i = i + 1;
    }

    None
}

/// The first screen of `now`, in list order, that `before` did not show.
fn start(before: &[Peer], now: &[Peer]) -> (found: Option<(usize, usize)>)
    ensures
        match found {
            Some((i, j)) => started_at(peer_views(before@), peer_views(now@), i as int, j as int) && forall|k: int, l: int|
                (k < i || (k == i && l < j)) ==> !#[trigger] started_at(peer_views(before@), peer_views(now@), k, l),
            None => !a_screen_started(peer_views(before@), peer_views(now@)),
        },
{
    let ghost b = peer_views(before@);
    let ghost n = peer_views(now@);
    let mut i: usize = 0;

    while i < now.len()
        invariant
            i <= now.len(),
            b == peer_views(before@),
            n == peer_views(now@),
            forall|k: int, l: int| k < i ==> !#[trigger] started_at(b, n, k, l),
        decreases now.len() - i,
    {
        let mut j: usize = 0;

        while j < now[i].producers.len()
            invariant
                i < now.len(),
                j <= now@[i as int].producers.len(),
                b == peer_views(before@),
                n == peer_views(now@),
                forall|k: int, l: int| (k < i || (k == i && l < j)) ==> !#[trigger] started_at(b, n, k, l),
            decreases now@[i as int].producers.len() - j,
        {
            if is_screen(&now[i], j) && !shows(before, now[i].producers[j].producer_id.as_str()) {
                return Some((i, j));
            }
            j = j + 1;
        }
        i = i + 1;
    }

    None
}

impl Chime {
    /// The chime of a change of the list, in the order of the macOS app: someone arrived,
    /// someone left, and only then a screen of someone else that started or stopped.
    pub fn after(before: &[Peer], now: &[Peer]) -> (chime: Option<Chime>)
        ensures
            chime == spec_after(peer_views(before@), peer_views(now@)),
    {
        if before.len() == 0 {
            return None;
        }

        if arrival(before, now).is_some() {
            Some(Chime::Joined)
        } else if arrival(now, before).is_some() {
            Some(Chime::Left)
        } else if start(before, now).is_some() {
            Some(Chime::StreamStarted)
        } else if start(now, before).is_some() {
            Some(Chime::StreamStopped)
        } else {
            None
        }
    }

    /// The notice the interface shows with the room's chime.
    pub fn notice_after(before: &[Peer], now: &[Peer]) -> (notice: Option<String>)
        ensures
            match spec_notice_after(peer_views(before@), peer_views(now@)) {
                Some(text) => notice matches Some(notice) && notice@ == text,
                None => notice is None,
            },
    {
        let ghost b = peer_views(before@);
        let ghost n = peer_views(now@);

        match Chime::after(before, now) {
            Some(Chime::Joined) => {
                let i = arrival(before, now).unwrap();
                proof {
                    lemma_first_arrival(b, n, i as int);
                }
                let mut text = name_in(now, now[i].peer_id.as_str());
                text.append(" entrou");
                Some(text)
            },
            Some(Chime::Left) => {
                let i = arrival(now, before).unwrap();
                proof {
                    lemma_first_arrival(n, b, i as int);
                }
                let mut text = name_in(before, before[i].peer_id.as_str());
                text.append(" saiu");
                Some(text)
            },
            Some(Chime::StreamStarted) => {
                let (i, j) = start(before, now).unwrap();
                proof {
                    lemma_first_start(b, n, i as int, j as int);
                }
                let k = owner(now, now[i].producers[j].producer_id.as_str(), i);
                let mut text = now[k].name.clone();
                text.append(" começou a transmitir");
                Some(text)
            },
            _ => None,
        }
    }
}

proof fn lemma_first_arrival(before: Seq<PeerView>, now: Seq<PeerView>, i: int)
    requires
        arrived_at(before, now, i),
        forall|k: int| 0 <= k < i ==> !#[trigger] arrived_at(before, now, k),
    ensures
        first_arrival(before, now) == i,
{
    let c = first_arrival(before, now);
    assert(arrived_at(before, now, c));
    if c < i {
        assert(!arrived_at(before, now, c));
    }
    if c > i {
        assert(!arrived_at(before, now, i));
    }
}

proof fn lemma_first_start(before: Seq<PeerView>, now: Seq<PeerView>, i: int, j: int)
    requires
        started_at(before, now, i, j),
        forall|k: int, l: int| (k < i || (k == i && l < j)) ==> !#[trigger] started_at(before, now, k, l),
    ensures
        first_start(before, now) == (i, j),
{
    let p = (i, j);
    assert(started_at(before, now, p.0, p.1) && forall|k: int, l: int|
        (k < p.0 || (k == p.0 && l < p.1)) ==> !#[trigger] started_at(before, now, k, l));
    let c = first_start(before, now);
    assert(started_at(before, now, c.0, c.1));
    if c.0 < i || (c.0 == i && c.1 < j) {
        assert(!started_at(before, now, c.0, c.1));
    }
    if i < c.0 || (i == c.0 && j < c.1) {
        assert(!started_at(before, now, i, j));
    }
}

/// The name of the first person with the id `id`, or "someone".
fn name_in(peers: &[Peer], id: &str) -> (name: String)
    ensures
        name@ == name_of(peer_views(peers@), id@),
{
    let ghost views = peer_views(peers@);
    let mut k: usize = 0;

    while k < peers.len()
        invariant
            k <= peers.len(),
            views == peer_views(peers@),
            forall|m: int| 0 <= m < k ==> #[trigger] views[m].peer_id != id@,
        decreases peers.len() - k,
    {
        if same_text(peers[k].peer_id.as_str(), id) {
            proof {
                assert(views[k as int].peer_id == id@);
                let c = choose|c: int|
                    0 <= c < views.len() && views[c].peer_id == id@ && forall|m: int| 0 <= m < c ==> #[trigger] views[m].peer_id
                        != id@;
                assert(0 <= c < views.len() && views[c].peer_id == id@ && forall|m: int| 0 <= m < c ==> #[trigger] views[m].peer_id
                        != id@);
                if c < k {
                    assert(views[c].peer_id != id@);
                }
                if c > k {
                    assert(views[k as int].peer_id != id@);
                }
            }
            return peers[k].name.clone();
        }
        k = k + 1;
    }

    String::from_str("alguém")
}

/// The index of the first person with a producer `id`, knowing the `known`-th has it.
fn owner(peers: &[Peer], id: &str, known: usize) -> (k: usize)
    requires
        known < peers.len(),
        produces(peer_views(peers@)[known as int], id@),
    ensures
        k == owner_of(peer_views(peers@), id@),
        k < peers.len(),
{
    let ghost views = peer_views(peers@);
    let mut k: usize = 0;

    while k < known
        invariant
            k <= known < peers.len(),
            views == peer_views(peers@),
            produces(views[known as int], id@),
            forall|m: int| 0 <= m < k ==> !#[trigger] produces(views[m], id@),
        decreases known - k,
    {
        let mut l: usize = 0;

        while l < peers[k].producers.len()
            invariant
                k < known < peers.len(),
                views == peer_views(peers@),
                l <= peers@[k as int].producers.len(),
                produces(views[known as int], id@),
                forall|m: int| 0 <= m < k ==> !#[trigger] produces(views[m], id@),
                forall|n: int| 0 <= n < l ==> #[trigger] views[k as int].producers[n].producer_id != id@,
            decreases peers@[k as int].producers.len() - l,
        {
            if same_text(peers[k].producers[l].producer_id.as_str(), id) {
                proof {
                    assert(views[k as int].producers[l as int].producer_id == id@);
                    lemma_owner_is(views, id@, k as int);
                }
                return k;
            }
            l = l + 1;
        }
        proof {
            assert(!produces(views[k as int], id@));
        }
        k = k + 1;
    }

    proof {
        lemma_owner_is(views, id@, k as int);
    }

    k
}

proof fn lemma_owner_is(peers: Seq<PeerView>, id: Seq<char>, k: int)
    requires
        0 <= k < peers.len(),
        produces(peers[k], id),
        forall|m: int| 0 <= m < k ==> !#[trigger] produces(peers[m], id),
    ensures
        owner_of(peers, id) == k,
{
    let c = owner_of(peers, id);
    assert(0 <= c < peers.len() && produces(peers[c], id));
    if c < k {
        assert(!produces(peers[c], id));
    }
    if c > k {
        assert(!produces(peers[k], id));
    }
}

} // verus!
