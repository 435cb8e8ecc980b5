//! Who is in the room, now. The media server does not send the list again on each change:
//! it sends what changed. Keeping the list current is deciding, event by event, what
//! happened to whom, and that is the same decision in the three interfaces.

use vstd::prelude::*;

use crate::chimes::peer_views;
use crate::json::{at, str_at, text_at, Json};
use crate::models::{same_text, JoinResponse, Peer, PeerView, ProducerInfo, ProducerView};
use crate::protocol::Event;

verus! {

/// The list of who is in the room, and what each event does to it.
#[derive(Debug)]
pub struct Roster {
    peers: Vec<Peer>,
}

impl View for Roster {
    type V = Seq<PeerView>;

    closed spec fn view(&self) -> Seq<PeerView> {
        peer_views(self.peers@)
    }
}

impl Default for Roster {
    fn default() -> (roster: Self)
        ensures
            roster@ == Seq::<PeerView>::empty(),
    {
        let roster = Roster { peers: Vec::new() };
        proof {
            assert(roster@ =~= Seq::<PeerView>::empty());
        }
        roster
    }
}

/// The index of the first person with the id `id`, or -1.
pub open spec fn first_peer(peers: Seq<PeerView>, id: Seq<char>) -> int
    decreases peers.len(),
{
    if peers.len() == 0 {
        -1
    } else if peers[0].peer_id == id {
        0
    } else {
        let rest = first_peer(peers.drop_first(), id);
        if rest < 0 { -1 } else { rest + 1 }
    }
}

/// The index of the first producer with the id `id`, or -1.
pub open spec fn first_producer(producers: Seq<ProducerView>, id: Seq<char>) -> int
    decreases producers.len(),
{
    if producers.len() == 0 {
        -1
    } else if producers[0].producer_id == id {
        0
    } else {
        let rest = first_producer(producers.drop_first(), id);
        if rest < 0 { -1 } else { rest + 1 }
    }
}

pub open spec fn text_or_empty(text: Option<Seq<char>>) -> Seq<char> {
    match text {
        Some(text) => text,
        None => Seq::empty(),
    }
}

pub open spec fn other_peer(id: Seq<char>) -> spec_fn(PeerView) -> bool {
    |peer: PeerView| peer.peer_id != id
}

pub open spec fn other_producer(id: Seq<char>) -> spec_fn(ProducerView) -> bool {
    |producer: ProducerView| producer.producer_id != id
}

/// The list after an event, and whether it changed: the interface only redraws then.
pub open spec fn spec_apply(peers: Seq<PeerView>, name: Seq<char>, data: Json) -> (Seq<PeerView>, bool) {
    let peer_id = text_or_empty(str_at(data, "peerId"@));
    let index = first_peer(peers, peer_id);
    let producer_id = text_or_empty(str_at(data, "producerId"@));
    if peer_id.len() == 0 {
        (peers, false)
    } else if name == "peerJoined"@ {
        if index >= 0 {
            (peers, false)
        } else {
            (peers.push(PeerView {
                peer_id,
                user_id: str_at(data, "userId"@),
                name: text_or_empty(str_at(data, "name"@)),
                producers: Seq::empty(),
                reconnecting: false,
                self_peer: false,
            }), true)
        }
    } else if name == "peerLeft"@ || name == "peerKicked"@ {
        let kept = peers.filter(other_peer(peer_id));
        (kept, kept.len() != peers.len())
    } else if index < 0 {
        (peers, false)
    } else if name == "newProducer"@ {
        let peer = peers[index];
        if first_producer(peer.producers, producer_id) >= 0 {
            (peers, false)
        } else {
            let producer = ProducerView {
                producer_id,
                kind: text_or_empty(str_at(data, "kind"@)),
                source: text_or_empty(str_at(data, "source"@)),
                paused: false,
            };
            (peers.update(index, PeerView { producers: peer.producers.push(producer), ..peer }), true)
        }
    } else if name == "producerClosed"@ {
        let peer = peers[index];
        let kept = peer.producers.filter(other_producer(producer_id));
        (peers.update(index, PeerView { producers: kept, ..peer }), kept.len() != peer.producers.len())
    } else if name == "producerPaused"@ || name == "producerResumed"@ {
        let paused = name == "producerPaused"@;
        let peer = peers[index];
        let at = first_producer(peer.producers, producer_id);
        if at < 0 || peer.producers[at].paused == paused {
            (peers, false)
        } else {
            let producer = ProducerView { paused, ..peer.producers[at] };
            (peers.update(index, PeerView { producers: peer.producers.update(at, producer), ..peer }), true)
        }
    } else if name == "peerConnectionLost"@ || name == "peerReconnected"@ {
        let lost = name == "peerConnectionLost"@;
        let peer = peers[index];
        if peer.reconnecting == lost {
            (peers, false)
        } else {
            (peers.update(index, PeerView { reconnecting: lost, ..peer }), true)
        }
    } else {
        (peers, false)
    }
}

proof fn lemma_first_peer(peers: Seq<PeerView>, id: Seq<char>)
    ensures
        -1 <= first_peer(peers, id) < peers.len(),
        first_peer(peers, id) >= 0 ==> peers[first_peer(peers, id)].peer_id == id,
    decreases peers.len(),
{
    if peers.len() > 0 && peers[0].peer_id != id {
        lemma_first_peer(peers.drop_first(), id);
    }
}

proof fn lemma_first_producer(producers: Seq<ProducerView>, id: Seq<char>)
    ensures
        -1 <= first_producer(producers, id) < producers.len(),
    decreases producers.len(),
{
    if producers.len() > 0 && producers[0].producer_id != id {
        lemma_first_producer(producers.drop_first(), id);
    }
}

proof fn lemma_first_peer_at(peers: Seq<PeerView>, id: Seq<char>, i: int)
    requires
        -1 <= i < peers.len(),
        i >= 0 ==> peers[i].peer_id == id,
        forall|j: int| 0 <= j < peers.len() && (i < 0 || j < i) ==> peers[j].peer_id != id,
    ensures
        first_peer(peers, id) == i,
    decreases peers.len(),
{
    if peers.len() > 0 && i != 0 {
        let rest = peers.drop_first();
        assert forall|j: int| 0 <= j < rest.len() && (i - 1 < 0 || j < i - 1) implies rest[j].peer_id != id by {
            assert(rest[j] == peers[j + 1]);
        }
        if i > 0 {
            assert(rest[i - 1] == peers[i]);
            lemma_first_peer_at(rest, id, i - 1);
        } else {
            assert(peers[0].peer_id != id);
            lemma_first_peer_at(rest, id, -1);
        }
    }
}

proof fn lemma_first_producer_at(producers: Seq<ProducerView>, id: Seq<char>, i: int)
    requires
        -1 <= i < producers.len(),
        i >= 0 ==> producers[i].producer_id == id,
        forall|j: int| 0 <= j < producers.len() && (i < 0 || j < i) ==> producers[j].producer_id != id,
    ensures
        first_producer(producers, id) == i,
    decreases producers.len(),
{
    if producers.len() > 0 && i != 0 {
        let rest = producers.drop_first();
        assert forall|j: int| 0 <= j < rest.len() && (i - 1 < 0 || j < i - 1) implies rest[j].producer_id != id by {
            assert(rest[j] == producers[j + 1]);
        }
        if i > 0 {
            assert(rest[i - 1] == producers[i]);
            lemma_first_producer_at(rest, id, i - 1);
        } else {
            assert(producers[0].producer_id != id);
            lemma_first_producer_at(rest, id, -1);
        }
    }
}

/// What `first_peer` finds is the first match.
proof fn lemma_first_peer_is_first(peers: Seq<PeerView>, id: Seq<char>)
    ensures
        -1 <= first_peer(peers, id) < peers.len(),
        first_peer(peers, id) >= 0 ==> peers[first_peer(peers, id)].peer_id == id,
        forall|j: int|
            0 <= j < peers.len() && (first_peer(peers, id) < 0 || j < first_peer(peers, id)) ==> peers[j].peer_id
                != id,
    decreases peers.len(),
{
    if peers.len() > 0 {
        lemma_first_peer_is_first(peers.drop_first(), id);
        assert forall|j: int|
            0 <= j < peers.len() && (first_peer(peers, id) < 0 || j < first_peer(peers, id)) implies peers[j].peer_id
                != id by {
            if j > 0 {
                assert(peers.drop_first()[j - 1] == peers[j]);
            }
        }
    }
}

proof fn lemma_first_producer_is_first(producers: Seq<ProducerView>, id: Seq<char>)
    ensures
        -1 <= first_producer(producers, id) < producers.len(),
        first_producer(producers, id) >= 0 ==> producers[first_producer(producers, id)].producer_id == id,
        forall|j: int|
            0 <= j < producers.len() && (first_producer(producers, id) < 0 || j < first_producer(producers, id))
                ==> producers[j].producer_id != id,
    decreases producers.len(),
{
    if producers.len() > 0 {
        lemma_first_producer_is_first(producers.drop_first(), id);
        assert forall|j: int|
            0 <= j < producers.len() && (first_producer(producers, id) < 0 || j < first_producer(producers, id))
                implies producers[j].producer_id != id by {
            if j > 0 {
                assert(producers.drop_first()[j - 1] == producers[j]);
            }
        }
    }
}

/// A person whose id stays the same stays where `first_peer` finds her.
proof fn lemma_first_peer_after_update(peers: Seq<PeerView>, id: Seq<char>, peer: PeerView)
    requires
        first_peer(peers, id) >= 0,
        peer.peer_id == id,
    ensures
        first_peer(peers.update(first_peer(peers, id), peer), id) == first_peer(peers, id),
{
    let i = first_peer(peers, id);
    lemma_first_peer_is_first(peers, id);
    let updated = peers.update(i, peer);
    assert forall|j: int| 0 <= j < updated.len() && j < i implies updated[j].peer_id != id by {
        assert(updated[j] == peers[j]);
    }
    lemma_first_peer_at(updated, id, i);
}

proof fn lemma_first_producer_after_update(producers: Seq<ProducerView>, id: Seq<char>, producer: ProducerView)
    requires
        first_producer(producers, id) >= 0,
        producer.producer_id == id,
    ensures
        first_producer(producers.update(first_producer(producers, id), producer), id) == first_producer(producers, id),
{
    let i = first_producer(producers, id);
    lemma_first_producer_is_first(producers, id);
    let updated = producers.update(i, producer);
    assert forall|j: int| 0 <= j < updated.len() && j < i implies updated[j].producer_id != id by {
        assert(updated[j] == producers[j]);
    }
    lemma_first_producer_at(updated, id, i);
}

proof fn lemma_first_peer_after_push(peers: Seq<PeerView>, peer: PeerView)
    ensures
        first_peer(peers.push(peer), peer.peer_id) >= 0,
{
    let pushed = peers.push(peer);
    lemma_first_peer_is_first(pushed, peer.peer_id);
    assert(pushed[peers.len() as int] == peer);
}

proof fn lemma_first_producer_after_push(producers: Seq<ProducerView>, producer: ProducerView)
    ensures
        first_producer(producers.push(producer), producer.producer_id) >= 0,
{
    let pushed = producers.push(producer);
    lemma_first_producer_is_first(pushed, producer.producer_id);
    assert(pushed[producers.len() as int] == producer);
}

/// A filter that keeps everything keeps the sequence as it is.
proof fn lemma_filter_keeps_all<A>(items: Seq<A>, keep: spec_fn(A) -> bool)
    requires
        forall|i: int| 0 <= i < items.len() ==> keep(#[trigger] items[i]),
    ensures
        items.filter(keep) == items,
    decreases items.len(),
{
    reveal(Seq::filter);
    if items.len() > 0 {
        lemma_filter_keeps_all(items.drop_last(), keep);
        assert(items.drop_last().push(items.last()) =~= items);
    }
}

proof fn lemma_filter_twice<A>(items: Seq<A>, keep: spec_fn(A) -> bool)
    ensures
        items.filter(keep).filter(keep) == items.filter(keep),
{
    broadcast use vstd::seq_lib::group_filter_ensures;

    let kept = items.filter(keep);
    assert forall|i: int| 0 <= i < kept.len() implies keep(#[trigger] kept[i]) by {
        items.lemma_filter_pred(keep, i);
    }
    lemma_filter_keeps_all(kept, keep);
}

/// Replaying an event changes nothing: the return of the socket replays what was lost, and
/// nobody shows up twice, no stream twice, and nothing is redrawn for it.
pub proof fn law_replaying_an_event_changes_nothing(peers: Seq<PeerView>, name: Seq<char>, data: Json)
    ensures
        spec_apply(spec_apply(peers, name, data).0, name, data) == (spec_apply(peers, name, data).0, false),
{
    let after = spec_apply(peers, name, data).0;
    let peer_id = text_or_empty(str_at(data, "peerId"@));
    let producer_id = text_or_empty(str_at(data, "producerId"@));
    let index = first_peer(peers, peer_id);

    lemma_first_peer_is_first(peers, peer_id);

    if peer_id.len() == 0 {
    } else if name == "peerJoined"@ {
        if index < 0 {
            lemma_first_peer_after_push(peers, PeerView {
                peer_id,
                user_id: str_at(data, "userId"@),
                name: text_or_empty(str_at(data, "name"@)),
                producers: Seq::empty(),
                reconnecting: false,
                self_peer: false,
            });
        }
    } else if name == "peerLeft"@ || name == "peerKicked"@ {
        lemma_filter_twice(peers, other_peer(peer_id));
    } else if index < 0 {
    } else if name == "newProducer"@ {
        let peer = peers[index];
        if first_producer(peer.producers, producer_id) < 0 {
            let producer = ProducerView {
                producer_id,
                kind: text_or_empty(str_at(data, "kind"@)),
                source: text_or_empty(str_at(data, "source"@)),
                paused: false,
            };
            let changed = PeerView { producers: peer.producers.push(producer), ..peer };
            lemma_first_peer_after_update(peers, peer_id, changed);
            lemma_first_producer_after_push(peer.producers, producer);
            assert(after[index] == changed);
        }
    } else if name == "producerClosed"@ {
        let peer = peers[index];
        let kept = peer.producers.filter(other_producer(producer_id));
        let changed = PeerView { producers: kept, ..peer };
        lemma_first_peer_after_update(peers, peer_id, changed);
        lemma_filter_twice(peer.producers, other_producer(producer_id));
        assert(after[index] == changed);
        assert(after.update(index, changed) =~= after);
    } else if name == "producerPaused"@ || name == "producerResumed"@ {
        let paused = name == "producerPaused"@;
        let peer = peers[index];
        let at = first_producer(peer.producers, producer_id);
        lemma_first_producer_is_first(peer.producers, producer_id);
        if at >= 0 && peer.producers[at].paused != paused {
            let producer = ProducerView { paused, ..peer.producers[at] };
            let changed = PeerView { producers: peer.producers.update(at, producer), ..peer };
            lemma_first_peer_after_update(peers, peer_id, changed);
            lemma_first_producer_after_update(peer.producers, producer_id, producer);
            assert(after[index] == changed);
        }
    } else if name == "peerConnectionLost"@ || name == "peerReconnected"@ {
        let lost = name == "peerConnectionLost"@;
        let peer = peers[index];
        if peer.reconnecting != lost {
            let changed = PeerView { reconnecting: lost, ..peer };
            lemma_first_peer_after_update(peers, peer_id, changed);
            assert(after[index] == changed);
        }
    }
}

/// An event about someone who is not on the list changes nothing, unless it is her arrival.
pub proof fn law_an_event_about_a_stranger_changes_nothing(peers: Seq<PeerView>, name: Seq<char>, data: Json)
    requires
        name != "peerJoined"@,
        forall|k: int| 0 <= k < peers.len() ==> peers[k].peer_id != text_or_empty(str_at(data, "peerId"@)),
    ensures
        spec_apply(peers, name, data) == (peers, false),
{
    let peer_id = text_or_empty(str_at(data, "peerId"@));

    lemma_first_peer_at(peers, peer_id, -1);
    if peer_id.len() > 0 && (name == "peerLeft"@ || name == "peerKicked"@) {
        assert forall|i: int| 0 <= i < peers.len() implies #[trigger] other_peer(peer_id)(peers[i]) by {}
        lemma_filter_keeps_all(peers, other_peer(peer_id));
    }
}

/// No two people on the list share an id.
pub open spec fn distinct_peer_ids(peers: Seq<PeerView>) -> bool {
    forall|i: int, j: int| 0 <= i < j < peers.len() ==> peers[i].peer_id != peers[j].peer_id
}

proof fn lemma_filter_keeps_ids_distinct(peers: Seq<PeerView>, keep: spec_fn(PeerView) -> bool)
    requires
        distinct_peer_ids(peers),
    ensures
        distinct_peer_ids(peers.filter(keep)),
    decreases peers.len(),
{
    reveal(Seq::filter);
    if peers.len() > 0 {
        let rest = peers.drop_last();
        assert(distinct_peer_ids(rest)) by {
            assert forall|i: int, j: int| 0 <= i < j < rest.len() implies rest[i].peer_id != rest[j].peer_id by {
                assert(rest[i] == peers[i] && rest[j] == peers[j]);
            }
        }
        lemma_filter_keeps_ids_distinct(rest, keep);
        if keep(peers.last()) {
            let kept = rest.filter(keep);
            let last = peers.last();
            assert forall|i: int| 0 <= i < kept.len() implies kept[i].peer_id != last.peer_id by {
                rest.lemma_filter_contains_rev(keep, kept[i]);
                let k = choose|k: int| 0 <= k < rest.len() && rest[k] == kept[i];
                assert(peers[k] == rest[k]);
                assert(peers[peers.len() - 1] == last);
            }
            assert(peers.filter(keep) == kept.push(last));
            assert forall|i: int, j: int| 0 <= i < j < kept.push(last).len() implies kept.push(last)[i].peer_id
                != kept.push(last)[j].peer_id by {
                if j == kept.len() {
                    assert(kept.push(last)[j] == last);
                    assert(kept.push(last)[i] == kept[i]);
                } else {
                    assert(kept.push(last)[i] == kept[i] && kept.push(last)[j] == kept[j]);
                }
            }
        }
    }
}

/// Nobody is on the list twice: every event keeps the ids of the people on it distinct, a
/// repeated arrival included.
pub proof fn law_apply_keeps_peer_ids_distinct(peers: Seq<PeerView>, name: Seq<char>, data: Json)
    requires
        distinct_peer_ids(peers),
    ensures
        distinct_peer_ids(spec_apply(peers, name, data).0),
{
    let after = spec_apply(peers, name, data).0;
    let peer_id = text_or_empty(str_at(data, "peerId"@));
    let index = first_peer(peers, peer_id);

    lemma_first_peer_is_first(peers, peer_id);

    if peer_id.len() == 0 {
    } else if name == "peerJoined"@ {
        if index < 0 {
            assert forall|i: int, j: int| 0 <= i < j < after.len() implies after[i].peer_id != after[j].peer_id by {
                assert(after[i] == peers[i]);
                if j < peers.len() {
                    assert(after[j] == peers[j]);
                }
            }
        }
    } else if name == "peerLeft"@ || name == "peerKicked"@ {
        lemma_filter_keeps_ids_distinct(peers, other_peer(peer_id));
    } else if index >= 0 {
        assert forall|i: int, j: int| 0 <= i < j < after.len() implies after[i].peer_id != after[j].peer_id by {
            assert(after[i].peer_id == peers[i].peer_id);
            assert(after[j].peer_id == peers[j].peer_id);
        }
    }
}

/// A filter that keeps as many items as there are keeps them all.
proof fn lemma_filter_same_length<A>(items: Seq<A>, keep: spec_fn(A) -> bool)
    requires
        items.filter(keep).len() == items.len(),
    ensures
        items.filter(keep) == items,
    decreases items.len(),
{
    reveal(Seq::filter);
    if items.len() > 0 {
        let rest = items.drop_last();
        rest.lemma_filter_len(keep);
        if keep(items.last()) {
            lemma_filter_same_length(rest, keep);
            assert(rest.push(items.last()) =~= items);
        }
    } else {
        assert(items.filter(keep) =~= items);
    }
}

/// An event is reported as a change exactly when the list is not the same afterwards:
/// the interface redraws when, and only when, there is something new to draw.
pub proof fn law_apply_reports_exactly_a_change(peers: Seq<PeerView>, name: Seq<char>, data: Json)
    ensures
        spec_apply(peers, name, data).1 == (spec_apply(peers, name, data).0 != peers),
{
    let (after, changed) = spec_apply(peers, name, data);
    let peer_id = text_or_empty(str_at(data, "peerId"@));
    let producer_id = text_or_empty(str_at(data, "producerId"@));
    let index = first_peer(peers, peer_id);

    lemma_first_peer(peers, peer_id);

    if peer_id.len() == 0 {
    } else if name == "peerJoined"@ {
        if index < 0 {
            assert(after.len() != peers.len());
        }
    } else if name == "peerLeft"@ || name == "peerKicked"@ {
        if !changed {
            lemma_filter_same_length(peers, other_peer(peer_id));
        }
    } else if index < 0 {
    } else if name == "newProducer"@ {
        if changed {
            assert(after[index].producers.len() != peers[index].producers.len());
        }
    } else if name == "producerClosed"@ {
        let peer = peers[index];
        let kept = peer.producers.filter(other_producer(producer_id));
        if changed {
            assert(after[index].producers.len() != peers[index].producers.len());
        } else {
            lemma_filter_same_length(peer.producers, other_producer(producer_id));
            assert(PeerView { producers: kept, ..peer } == peer);
            assert(after =~= peers);
        }
    } else if name == "producerPaused"@ || name == "producerResumed"@ {
        let peer = peers[index];
        let at = first_producer(peer.producers, producer_id);
        lemma_first_producer(peer.producers, producer_id);
        if changed {
            assert(after[index].producers[at].paused != peers[index].producers[at].paused);
        }
    } else if name == "peerConnectionLost"@ || name == "peerReconnected"@ {
        if changed {
            assert(after[index].reconnecting != peers[index].reconnecting);
        }
    }
}

/// A person who leaves, or is kicked, is off the list afterwards; everyone else stays, in
/// the same order; and the event is reported as a change exactly when she was on it.
pub proof fn law_who_leaves_or_is_kicked_is_off_the_list(peers: Seq<PeerView>, name: Seq<char>, data: Json)
    requires
        name == "peerLeft"@ || name == "peerKicked"@,
        text_or_empty(str_at(data, "peerId"@)).len() > 0,
    ensures
        ({
            let gone = text_or_empty(str_at(data, "peerId"@));
            let (after, changed) = spec_apply(peers, name, data);
            &&& forall|k: int| 0 <= k < after.len() ==> #[trigger] after[k].peer_id != gone
            &&& forall|k: int| 0 <= k < peers.len() && peers[k].peer_id != gone ==> after.contains(#[trigger] peers[k])
            &&& changed == exists|k: int| 0 <= k < peers.len() && #[trigger] peers[k].peer_id == gone
        }),
{
    reveal_strlit("peerJoined");
    reveal_strlit("peerLeft");
    reveal_strlit("peerKicked");
    let gone = text_or_empty(str_at(data, "peerId"@));
    let keep = other_peer(gone);
    let after = peers.filter(keep);
    assert("peerLeft"@.len() != "peerJoined"@.len());
    assert("peerKicked"@[4] != "peerJoined"@[4]);
    assert(name != "peerJoined"@);
    assert(spec_apply(peers, name, data) == (after, after.len() != peers.len()));
    assert forall|k: int| 0 <= k < after.len() implies #[trigger] after[k].peer_id != gone by {
        peers.lemma_filter_pred(keep, k);
    }
    assert forall|k: int| 0 <= k < peers.len() && peers[k].peer_id != gone implies after.contains(#[trigger] peers[k]) by {
        peers.lemma_filter_contains(keep, k);
    }
    peers.lemma_filter_len(keep);
    if exists|k: int| 0 <= k < peers.len() && #[trigger] peers[k].peer_id == gone {
        let k = choose|k: int| 0 <= k < peers.len() && #[trigger] peers[k].peer_id == gone;
        if after.len() == peers.len() {
            lemma_filter_same_length(peers, keep);
            peers.lemma_filter_pred(keep, k);
        }
    } else {
        assert forall|i: int| 0 <= i < peers.len() implies keep(#[trigger] peers[i]) by {}
        lemma_filter_keeps_all(peers, keep);
    }
}

fn find_peer(peers: &Vec<Peer>, id: &str) -> (found: Option<usize>)
    ensures
        match found {
            Some(i) => first_peer(peer_views(peers@), id@) == i as int,
            None => first_peer(peer_views(peers@), id@) == -1,
        },
{
    let ghost views = peer_views(peers@);
    let mut index: usize = 0;

    proof {
        assert(views.skip(0) =~= views);
    }

    while index < peers.len()
        invariant
            index <= peers.len(),
            views == peer_views(peers@),
            first_peer(views, id@) == (if first_peer(views.skip(index as int), id@) < 0 {
                -1
            } else {
                first_peer(views.skip(index as int), id@) + index
            }),
        decreases peers.len() - index,
    {
        proof {
            assert(views.skip(index as int)[0] == peers@[index as int]@);
            assert(views.skip(index as int).drop_first() =~= views.skip(index + 1));
        }
        if same_text(peers[index].peer_id.as_str(), id) {
            return Some(index);
        }
        index = index + 1;
    }

    proof {
        assert(views.skip(index as int) =~= Seq::<PeerView>::empty());
    }

    None
}

fn find_producer(producers: &Vec<ProducerInfo>, id: &str) -> (found: Option<usize>)
    ensures
        match found {
            Some(i) => first_producer(crate::models::producer_views(producers@), id@) == i as int,
            None => first_producer(crate::models::producer_views(producers@), id@) == -1,
        },
{
    let ghost views = crate::models::producer_views(producers@);
    let mut index: usize = 0;

    proof {
        assert(views.skip(0) =~= views);
    }

    while index < producers.len()
        invariant
            index <= producers.len(),
            views == crate::models::producer_views(producers@),
            first_producer(views, id@) == (if first_producer(views.skip(index as int), id@) < 0 {
                -1
            } else {
                first_producer(views.skip(index as int), id@) + index
            }),
        decreases producers.len() - index,
    {
        proof {
            assert(views.skip(index as int)[0] == producers@[index as int]@);
            assert(views.skip(index as int).drop_first() =~= views.skip(index + 1));
        }
        if same_text(producers[index].producer_id.as_str(), id) {
            return Some(index);
        }
        index = index + 1;
    }

    proof {
        assert(views.skip(index as int) =~= Seq::<ProducerView>::empty());
    }

    None
}

fn owned(text: Option<&str>) -> (owned: String)
    ensures
        owned@ == text_or_empty(match text {
            Some(t) => Some(t@),
            None => None,
        }),
{
    match text {
        Some(text) => String::from_str(text),
        None => String::new(),
    }
}

impl Roster {
    pub fn peers(&self) -> (peers: &[Peer])
        ensures
            peer_views(peers@) == self@,
    {
        self.peers.as_slice()
    }

    /// The person is not on the list the server sends (it leaves her out of its reply), and
    /// she needs to see herself in the room: she comes first.
    pub fn reset(&mut self, joined: &JoinResponse)
        ensures
            final(self)@ == seq![PeerView {
                peer_id: joined.peer_id@,
                user_id: None,
                name: joined.name@,
                producers: Seq::empty(),
                reconnecting: false,
                self_peer: true,
            }] + peer_views(joined.peers@),
    {
        let mut peers: Vec<Peer> = vec![Peer {
            peer_id: joined.peer_id.clone(),
            user_id: None,
            name: joined.name.clone(),
            producers: Vec::new(),
            reconnecting: false,
            self_peer: true,
        }];
        let ghost first = peer_views(peers@);
        let mut index: usize = 0;

        proof {
            assert(first[0].producers =~= Seq::<ProducerView>::empty());
            assert(peer_views(joined.peers@).take(0) =~= Seq::<PeerView>::empty());
            assert(peer_views(peers@) =~= first + peer_views(joined.peers@).take(0));
        }

        while index < joined.peers.len()
            invariant
                index <= joined.peers.len(),
                first.len() == 1,
                peer_views(peers@) == first + peer_views(joined.peers@).take(index as int),
            decreases joined.peers.len() - index,
        {
            let peer = joined.peers[index].clone();
            let ghost before = peers@;
            peers.push(peer);
            proof {
                assert(peer_views(peers@) =~= peer_views(before).push(peer@));
                assert(peer_views(joined.peers@).take(index + 1) =~= peer_views(joined.peers@).take(index as int).push(
                    joined.peers@[index as int]@,
                ));
            }
            index = index + 1;
        }

        proof {
            assert(peer_views(joined.peers@).take(index as int) =~= peer_views(joined.peers@));
        }

        self.peers = peers;
    }

    /// Applies an event; `true` when the list changed.
    #[verifier::rlimit(40)]
    pub fn apply(&mut self, event: &Event) -> (changed: bool)
        ensures
            (final(self)@, changed) == spec_apply(old(self)@, event.name@, event.data),
    {
        let ghost before = self@;
        let data = &event.data;
        let peer_id = owned(text_at(data, "peerId"));
        let producer_id = owned(text_at(data, "producerId"));
        let name = event.name.as_str();

        if peer_id.unicode_len() == 0 {
            return false;
        }

        let found = find_peer(&self.peers, peer_id.as_str());

        proof {
            lemma_first_peer(before, peer_id@);
        }

        if same_text(name, "peerJoined") {
            if found.is_some() {
                return false;
            }
            let user_id = match text_at(data, "userId") {
                Some(text) => Some(String::from_str(text)),
                None => None,
            };
            let peer = Peer {
                peer_id,
                user_id,
                name: owned(text_at(data, "name")),
                producers: Vec::new(),
                reconnecting: false,
                self_peer: false,
            };
            proof {
                assert(peer@.producers =~= Seq::<ProducerView>::empty());
            }
            self.peers.push(peer);
            proof {
                assert(self@ =~= before.push(peer@));
            }
            return true;
        }

        if same_text(name, "peerLeft") || same_text(name, "peerKicked") {
            let ghost keep = other_peer(peer_id@);
            let mut kept: Vec<Peer> = Vec::new();
            let mut index: usize = 0;
            let count = self.peers.len();

            while index < self.peers.len()
                invariant
                    index <= self.peers.len(),
                    before == peer_views(self.peers@),
                    keep == other_peer(peer_id@),
                    peer_views(kept@) == before.take(index as int).filter(keep),
                decreases self.peers.len() - index,
            {
                proof {
                    assert(before.take(index + 1) =~= before.take(index as int).push(before[index as int]));
                    before.take(index as int).lemma_filter_push(before[index as int], keep);
                    assert(before[index as int] == self.peers@[index as int]@);
                }
                if !same_text(self.peers[index].peer_id.as_str(), peer_id.as_str()) {
                    let ghost prior = kept@;
                    kept.push(self.peers[index].clone());
                    proof {
                        assert(peer_views(kept@) =~= peer_views(prior).push(before[index as int]));
                    }
                }
                index = index + 1;
            }

            proof {
                assert(before.take(index as int) =~= before);
            }

            let changed = kept.len() != count;
            self.peers = kept;
            return changed;
        }

        let i = match found {
            Some(i) => i,
            None => return false,
        };

        let mut peer = self.peers[i].clone();
        let ghost unchanged = peer@;

        proof {
            assert(unchanged == before[i as int]);
        }

        if same_text(name, "newProducer") {
            let known = find_producer(&peer.producers, producer_id.as_str());
            if known.is_some() {
                return false;
            }
            let producer = ProducerInfo {
                producer_id,
                kind: owned(text_at(data, "kind")),
                source: owned(text_at(data, "source")),
                paused: false,
            };
            peer.producers.push(producer);
            proof {
                assert(peer@.producers =~= unchanged.producers.push(producer@));
                assert(peer@ == PeerView { producers: unchanged.producers.push(producer@), ..unchanged });
            }
            self.peers.set(i, peer);
            proof {
                assert(self@ =~= before.update(i as int, peer@));
            }
            return true;
        }

        if same_text(name, "producerClosed") {
            let ghost keep = other_producer(producer_id@);
            let mut kept: Vec<ProducerInfo> = Vec::new();
            let mut index: usize = 0;

            while index < peer.producers.len()
                invariant
                    index <= peer.producers.len(),
                    unchanged.producers == crate::models::producer_views(peer.producers@),
                    keep == other_producer(producer_id@),
                    crate::models::producer_views(kept@) == unchanged.producers.take(index as int).filter(keep),
                decreases peer.producers.len() - index,
            {
                proof {
                    assert(unchanged.producers.take(index + 1) =~= unchanged.producers.take(index as int).push(
                        unchanged.producers[index as int],
                    ));
                    unchanged.producers.take(index as int).lemma_filter_push(unchanged.producers[index as int], keep);
                    assert(unchanged.producers[index as int] == peer.producers@[index as int]@);
                }
                if !same_text(peer.producers[index].producer_id.as_str(), producer_id.as_str()) {
                    let ghost prior = kept@;
                    kept.push(peer.producers[index].clone());
                    proof {
                        assert(crate::models::producer_views(kept@) =~= crate::models::producer_views(prior).push(
                            unchanged.producers[index as int],
                        ));
                    }
                }
                index = index + 1;
            }

            proof {
                assert(unchanged.producers.take(index as int) =~= unchanged.producers);
            }

            let changed = kept.len() != peer.producers.len();
            peer.producers = kept;
            proof {
                assert(peer@ == PeerView { producers: unchanged.producers.filter(keep), ..unchanged });
            }
            self.peers.set(i, peer);
            proof {
                assert(self@ =~= before.update(i as int, peer@));
            }
            return changed;
        }

        if same_text(name, "producerPaused") || same_text(name, "producerResumed") {
            let paused = same_text(name, "producerPaused");
            let at = match find_producer(&peer.producers, producer_id.as_str()) {
                Some(at) => at,
                None => return false,
            };
            proof {
                lemma_first_producer(unchanged.producers, producer_id@);
                assert(unchanged.producers[at as int] == peer.producers@[at as int]@);
            }
            if peer.producers[at].paused == paused {
                return false;
            }
            let mut producer = peer.producers[at].clone();
            producer.paused = paused;
            let ghost changed_producer = producer@;
            peer.producers.set(at, producer);
            proof {
                assert(changed_producer == ProducerView { paused, ..unchanged.producers[at as int] });
                assert(peer@.producers =~= unchanged.producers.update(at as int, changed_producer));
                assert(peer@ == PeerView { producers: unchanged.producers.update(at as int, changed_producer), ..unchanged });
            }
            self.peers.set(i, peer);
            proof {
                assert(self@ =~= before.update(i as int, peer@));
            }
            return true;
        }

        if same_text(name, "peerConnectionLost") || same_text(name, "peerReconnected") {
            let lost = same_text(name, "peerConnectionLost");
            if peer.reconnecting == lost {
                return false;
            }
            peer.reconnecting = lost;
            proof {
                assert(peer@ == PeerView { reconnecting: lost, ..unchanged });
            }
            self.peers.set(i, peer);
            proof {
                assert(self@ =~= before.update(i as int, peer@));
            }
            return true;
        }

        false
    }
}

pub struct JoinedView {
    pub roster: Seq<PeerView>,
    pub resume_key: Option<Seq<char>>,
    pub can: Seq<Seq<char>>,
    pub resumed: bool,
}

pub open spec fn texts_view(texts: Seq<String>) -> Seq<Seq<char>> {
    texts.map_values(|text: String| text@)
}

pub open spec fn optional_text(text: Option<String>) -> Option<Seq<char>> {
    match text {
        Some(text) => Some(text@),
        None => None,
    }
}

/// What the session knows of the room between one entry and the next: the list, the key
/// that brings it back to the same session on the server, what the accepted token allows,
/// and whether the last entry resumed the session.
pub struct Joined {
    roster: Roster,
    resume_key: Option<String>,
    can: Vec<String>,
    resumed: bool,
}

impl View for Joined {
    type V = JoinedView;

    closed spec fn view(&self) -> JoinedView {
        JoinedView {
            roster: self.roster@,
            resume_key: optional_text(self.resume_key),
            can: texts_view(self.can@),
            resumed: self.resumed,
        }
    }
}

impl Joined {
    pub fn new() -> (joined: Self)
        ensures
            joined@.roster == Seq::<PeerView>::empty(),
            joined@.resume_key is None,
            joined@.can == Seq::<Seq<char>>::empty(),
            !joined@.resumed,
    {
        let joined = Joined { roster: Roster::default(), resume_key: None, can: Vec::new(), resumed: false };
        proof {
            assert(texts_view(joined.can@) =~= Seq::<Seq<char>>::empty());
        }
        joined
    }

    /// An entry the server accepted, fresh or resumed: everything is taken from its answer.
    pub fn enter(&mut self, answer: &JoinResponse)
        ensures
            final(self)@.roster == seq![PeerView {
                peer_id: answer.peer_id@,
                user_id: None,
                name: answer.name@,
                producers: Seq::empty(),
                reconnecting: false,
                self_peer: true,
            }] + peer_views(answer.peers@),
            final(self)@.resume_key == optional_text(answer.resume_key),
            final(self)@.can == texts_view(answer.can@),
            final(self)@.resumed == answer.resumed,
    {
        self.roster.reset(answer);
        self.resume_key = match &answer.resume_key {
            Some(key) => Some(key.clone()),
            None => None,
        };

        let mut can: Vec<String> = Vec::new();
        let mut index: usize = 0;

        while index < answer.can.len()
            invariant
                index <= answer.can.len(),
                texts_view(can@) == texts_view(answer.can@).take(index as int),
            decreases answer.can.len() - index,
        {
            let ghost before = can@;
            can.push(answer.can[index].clone());
            proof {
                assert(texts_view(can@) =~= texts_view(before).push(answer.can@[index as int]@));
                assert(texts_view(answer.can@).take(index + 1) =~= texts_view(answer.can@).take(index as int).push(
                    answer.can@[index as int]@,
                ));
            }
            index = index + 1;
        }

        proof {
            assert(texts_view(answer.can@).take(index as int) =~= texts_view(answer.can@));
        }

        self.can = can;
        self.resumed = answer.resumed;
    }

    pub fn peers(&self) -> (peers: &[Peer])
        ensures
            peer_views(peers@) == self@.roster,
    {
        self.roster.peers()
    }

    /// What the accepted token allows: it, and not the channel's bits, decides whether the
    /// app turns on the microphone, the camera and the screen.
    pub fn can(&self, what: &str) -> (allowed: bool)
        ensures
            allowed == self@.can.contains(what@),
    {
        let mut index: usize = 0;

        while index < self.can.len()
            invariant
                index <= self.can.len(),
                forall|k: int| 0 <= k < index ==> self.can@[k]@ != what@,
            decreases self.can.len() - index,
        {
            if same_text(self.can[index].as_str(), what) {
                proof {
                    assert(texts_view(self.can@)[index as int] == what@);
                }
                return true;
            }
            index = index + 1;
        }

        proof {
            if self@.can.contains(what@) {
                let k = choose|k: int| 0 <= k < self@.can.len() && self@.can[k] == what@;
                assert(self.can@[k]@ == what@);
            }
        }

        false
    }

    pub fn resume_key(&self) -> (key: Option<String>)
        ensures
            optional_text(key) == self@.resume_key,
    {
        match &self.resume_key {
            Some(key) => Some(key.clone()),
            None => None,
        }
    }

    /// Whether the last entry resumed the session. A fresh entry lost the producers on the
    /// server, and whoever was broadcasting has to publish again.
    pub fn resumed(&self) -> (resumed: bool)
        ensures
            resumed == self@.resumed,
    {
        self.resumed
    }

    /// Applies an event; `true` when whoever draws must draw again. A return remade the whole
    /// list, so it always is.
    pub fn apply(&mut self, event: &Event) -> (changed: bool)
        ensures
            final(self)@.resume_key == old(self)@.resume_key,
            final(self)@.can == old(self)@.can,
            final(self)@.resumed == old(self)@.resumed,
            event.name@ == "sessionRejoined"@ ==> changed && final(self)@.roster == old(self)@.roster,
            event.name@ != "sessionRejoined"@ ==> (final(self)@.roster, changed) == spec_apply(
                old(self)@.roster,
                event.name@,
                event.data,
            ),
    {
        if same_text(event.name.as_str(), crate::protocol::local::SESSION_REJOINED) {
            return true;
        }

        self.roster.apply(event)
    }
}

} // verus!
