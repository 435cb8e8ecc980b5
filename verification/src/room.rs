//! What the open room shows: the cards the window draws, one video stream per card, and
//! what is live without being watched, for the "Watch" button.

use vstd::prelude::*;

use crate::json::{first_member, member, Json};
use crate::models::{producer_views, same_text, Peer, PeerView, ProducerInfo, ProducerView};

verus! {

/// One video stream of the room, as the window draws it.
pub struct Card {
    pub producer_id: String,
    pub peer_id: String,
    pub label: String,
    pub camera: bool,
    pub mine: bool,
    pub paused: bool,
    /// The sound that goes with this screen, for the card's listen button.
    pub audio: Option<String>,
}

pub struct CardView {
    pub producer_id: Seq<char>,
    pub peer_id: Seq<char>,
    pub label: Seq<char>,
    pub camera: bool,
    pub mine: bool,
    pub paused: bool,
    pub audio: Option<Seq<char>>,
}

impl View for Card {
    type V = CardView;

    open spec fn view(&self) -> CardView {
        CardView {
            producer_id: self.producer_id@,
            peer_id: self.peer_id@,
            label: self.label@,
            camera: self.camera,
            mine: self.mine,
            paused: self.paused,
            audio: match self.audio {
                Some(audio) => Some(audio@),
                None => None,
            },
        }
    }
}

pub open spec fn card_views(cards: Seq<Card>) -> Seq<CardView> {
    cards.map_values(|card: Card| card@)
}

pub open spec fn text_views(texts: Seq<String>) -> Seq<Seq<char>> {
    texts.map_values(|text: String| text@)
}

/// The first producer of the list that carries a screen's sound.
pub open spec fn first_screen_audio(producers: Seq<ProducerView>) -> Option<Seq<char>>
    decreases producers.len(),
{
    if producers.len() == 0 {
        None
    } else if producers[0].source == "screenAudio"@ {
        Some(producers[0].producer_id)
    } else {
        first_screen_audio(producers.drop_first())
    }
}

pub open spec fn spec_card(peer: PeerView, producer: ProducerView, paused: Seq<Seq<char>>) -> CardView {
    CardView {
        producer_id: producer.producer_id,
        peer_id: peer.peer_id,
        label: peer.name,
        camera: producer.source == "camera"@,
        mine: peer.self_peer,
        paused: paused.contains(producer.producer_id),
        audio: if producer.source == "screen"@ { first_screen_audio(peer.producers) } else { None },
    }
}

/// The cards of one person's first `producers`: each video one goes to the watched cards
/// when it is watched, else to the pending ones unless it is this person's own.
pub open spec fn person_cards(
    peer: PeerView,
    producers: Seq<ProducerView>,
    watching: Seq<Seq<char>>,
    paused: Seq<Seq<char>>,
) -> (Seq<CardView>, Seq<CardView>)
    decreases producers.len(),
{
    if producers.len() == 0 {
        (Seq::empty(), Seq::empty())
    } else {
        let (tiles, pending) = person_cards(peer, producers.drop_last(), watching, paused);
        let producer = producers.last();
        if producer.kind != "video"@ {
            (tiles, pending)
        } else if watching.contains(producer.producer_id) {
            (tiles.push(spec_card(peer, producer, paused)), pending)
        } else if !peer.self_peer {
            (tiles, pending.push(spec_card(peer, producer, paused)))
        } else {
            (tiles, pending)
        }
    }
}

/// The watched cards and the pending ones of the whole room, person by person, in the
/// order of the list.
pub open spec fn spec_tiles(peers: Seq<PeerView>, watching: Seq<Seq<char>>, paused: Seq<Seq<char>>) -> (
    Seq<CardView>,
    Seq<CardView>,
)
    decreases peers.len(),
{
    if peers.len() == 0 {
        (Seq::empty(), Seq::empty())
    } else {
        let (tiles, pending) = spec_tiles(peers.drop_last(), watching, paused);
        let (more_tiles, more_pending) = person_cards(peers.last(), peers.last().producers, watching, paused);
        (tiles + more_tiles, pending + more_pending)
    }
}

proof fn lemma_person_pending_is_not_mine(
    peer: PeerView,
    producers: Seq<ProducerView>,
    watching: Seq<Seq<char>>,
    paused: Seq<Seq<char>>,
)
    ensures
        forall|k: int|
            0 <= k < person_cards(peer, producers, watching, paused).1.len() ==> !(#[trigger] person_cards(
                peer,
                producers,
                watching,
                paused,
            ).1[k]).mine,
    decreases producers.len(),
{
    if producers.len() > 0 {
        lemma_person_pending_is_not_mine(peer, producers.drop_last(), watching, paused);
    }
}

/// One's own streams never wait behind the "Watch" button: no pending card is one's own.
pub proof fn law_own_streams_are_never_pending(peers: Seq<PeerView>, watching: Seq<Seq<char>>, paused: Seq<Seq<char>>)
    ensures
        forall|k: int|
            0 <= k < spec_tiles(peers, watching, paused).1.len() ==> !(#[trigger] spec_tiles(peers, watching, paused).1[k]).mine,
    decreases peers.len(),
{
    if peers.len() > 0 {
        law_own_streams_are_never_pending(peers.drop_last(), watching, paused);
        lemma_person_pending_is_not_mine(peers.last(), peers.last().producers, watching, paused);
        let before = spec_tiles(peers.drop_last(), watching, paused).1;
        let more = person_cards(peers.last(), peers.last().producers, watching, paused).1;
        assert forall|k: int| 0 <= k < (before + more).len() implies !(#[trigger] (before + more)[k]).mine by {
            if k < before.len() {
                assert((before + more)[k] == before[k]);
            } else {
                assert((before + more)[k] == more[k - before.len()]);
            }
        }
    }
}

pub open spec fn peer_views(peers: Seq<Peer>) -> Seq<PeerView> {
    peers.map_values(|peer: Peer| peer@)
}

fn contains_text(texts: &[String], wanted: &str) -> (found: bool)
    ensures
        found == text_views(texts@).contains(wanted@),
{
    let mut index: usize = 0;

    while index < texts.len()
        invariant
            index <= texts.len(),
            forall|i: int| 0 <= i < index ==> texts@[i]@ != wanted@,
        decreases texts.len() - index,
    {
        if same_text(texts[index].as_str(), wanted) {
            proof {
                assert(text_views(texts@)[index as int] == wanted@);
            }
            return true;
        }
        index = index + 1;
    }

    proof {
        if text_views(texts@).contains(wanted@) {
            let i = choose|i: int| 0 <= i < text_views(texts@).len() && text_views(texts@)[i] == wanted@;
            assert(texts@[i]@ == wanted@);
        }
    }

    false
}

fn screen_audio(producers: &Vec<ProducerInfo>) -> (audio: Option<String>)
    ensures
        match first_screen_audio(producer_views(producers@)) {
            Some(id) => audio matches Some(a) && a@ == id,
            None => audio is None,
        },
{
    let mut index: usize = 0;

    proof {
        assert(producer_views(producers@).skip(0) =~= producer_views(producers@));
    }

    while index < producers.len()
        invariant
            index <= producers.len(),
            first_screen_audio(producer_views(producers@)) == first_screen_audio(
                producer_views(producers@).skip(index as int),
            ),
        decreases producers.len() - index,
    {
        proof {
            let rest = producer_views(producers@).skip(index as int);
            assert(rest[0] == producers@[index as int]@);
            assert(rest.drop_first() =~= producer_views(producers@).skip(index + 1));
        }
        if same_text(producers[index].source.as_str(), "screenAudio") {
            return Some(producers[index].producer_id.clone());
        }
        index = index + 1;
    }

    proof {
        assert(producer_views(producers@).skip(index as int) =~= Seq::<ProducerView>::empty());
    }

    None
}

fn card(peer: &Peer, producer: &ProducerInfo, paused: &[String]) -> (made: Card)
    ensures
        made@ == spec_card(peer@, producer@, text_views(paused@)),
{
    let is_screen = same_text(producer.source.as_str(), "screen");
    let audio = if is_screen { screen_audio(&peer.producers) } else { None };

    Card {
        producer_id: producer.producer_id.clone(),
        peer_id: peer.peer_id.clone(),
        label: peer.name.clone(),
        camera: same_text(producer.source.as_str(), "camera"),
        mine: peer.self_peer,
        paused: contains_text(paused, producer.producer_id.as_str()),
        audio,
    }
}

/// The cards the window draws (`tiles`: what is being watched) and what is live without
/// being watched (`pending`), from the room's list, the streams being watched and the ones
/// paused.
pub fn tiles(peers: &[Peer], watching: &[String], paused: &[String]) -> (cards: (Vec<Card>, Vec<Card>))
    ensures
        (card_views(cards.0@), card_views(cards.1@)) == spec_tiles(peer_views(peers@), text_views(watching@), text_views(paused@)),
{
    let ghost views = peer_views(peers@);
    let ghost watched = text_views(watching@);
    let ghost stopped = text_views(paused@);
    let mut tiles: Vec<Card> = Vec::new();
    let mut pending: Vec<Card> = Vec::new();
    let mut i: usize = 0;

    while i < peers.len()
        invariant
            i <= peers.len(),
            views == peer_views(peers@),
            watched == text_views(watching@),
            stopped == text_views(paused@),
            (card_views(tiles@), card_views(pending@)) == spec_tiles(views.take(i as int), watched, stopped),
        decreases peers.len() - i,
    {
        let peer = &peers[i];
        let ghost before = (card_views(tiles@), card_views(pending@));
        let mut j: usize = 0;

        proof {
            assert(views[i as int] == peer@);
        }

        while j < peer.producers.len()
            invariant
                j <= peer.producers.len(),
                peer == &peers@[i as int],
                watched == text_views(watching@),
                stopped == text_views(paused@),
                ({
                    let (more_tiles, more_pending) = person_cards(
                        peer@,
                        producer_views(peer.producers@).take(j as int),
                        watched,
                        stopped,
                    );
                    card_views(tiles@) == before.0 + more_tiles && card_views(pending@) == before.1 + more_pending
                }),
            decreases peer.producers.len() - j,
        {
            let producer = &peer.producers[j];
            let ghost seen = producer_views(peer.producers@).take(j + 1);

            proof {
                assert(seen.drop_last() =~= producer_views(peer.producers@).take(j as int));
                assert(seen.last() == producer@);
            }

            if same_text(producer.kind.as_str(), "video") {
                let made = card(peer, producer, paused);

                if contains_text(watching, producer.producer_id.as_str()) {
                    let ghost old_tiles = tiles@;
                    tiles.push(made);
                    proof {
                        assert(card_views(tiles@) =~= card_views(old_tiles).push(made@));
                    }
                } else if !peer.self_peer {
                    let ghost old_pending = pending@;
                    pending.push(made);
                    proof {
                        assert(card_views(pending@) =~= card_views(old_pending).push(made@));
                    }
                }
            }
            j = j + 1;
        }

        proof {
            assert(producer_views(peer.producers@).take(j as int) =~= producer_views(peer.producers@));
            assert(views.take(i + 1).drop_last() =~= views.take(i as int));
            assert(views.take(i + 1).last() == peer@);
            assert(peer@.producers == producer_views(peer.producers@));
        }

        i = i + 1;
    }

    proof {
        assert(views.take(i as int) =~= views);
    }

    (tiles, pending)
}

/// What the room does with an event of its session, besides telling the window again.
#[derive(Debug, Clone, Copy, PartialEq, Eq, Structural)]
pub enum Reaction {
    /// Someone started a stream: watch everything not watched yet.
    ConsumeAll,
    /// A stream ended: forget it everywhere (the `producerId` of the data).
    ProducerClosed,
    /// The socket fell: the window shows that the room is coming back.
    SessionLost,
    /// The socket came back. `republish` when the server had let the session go and lost
    /// what was open there; then everything is watched again.
    SessionRejoined { republish: bool },
    /// Gave up coming back.
    SessionGone,
    /// The room ended for this session and does not come back: what went up stops, and the
    /// window takes the person out with the reason (the event's name).
    Ended,
    /// The round trip to the server, for the window.
    Ping,
    /// Who watches each screen: the server sends the list ready.
    Watchers,
    Nothing,
}

pub open spec fn spec_reaction(event: Seq<char>, resumed: bool) -> Reaction {
    if event == "newProducer"@ {
        Reaction::ConsumeAll
    } else if event == "producerClosed"@ {
        Reaction::ProducerClosed
    } else if event == "sessionLost"@ {
        Reaction::SessionLost
    } else if event == "sessionRejoined"@ {
        Reaction::SessionRejoined { republish: !resumed }
    } else if event == "sessionGone"@ {
        Reaction::SessionGone
    } else if event == "replaced"@ || event == "kicked"@ {
        Reaction::Ended
    } else if event == "pingMeasured"@ {
        Reaction::Ping
    } else if event == "watchers"@ {
        Reaction::Watchers
    } else {
        Reaction::Nothing
    }
}

/// The reaction to an event of the session; `resumed` is whether the last return kept the
/// session the server had.
pub fn reaction(event: &str, resumed: bool) -> (acted: Reaction)
    ensures
        acted == spec_reaction(event@, resumed),
{
    if same_text(event, "newProducer") {
        Reaction::ConsumeAll
    } else if same_text(event, "producerClosed") {
        Reaction::ProducerClosed
    } else if same_text(event, crate::protocol::local::SESSION_LOST) {
        Reaction::SessionLost
    } else if same_text(event, crate::protocol::local::SESSION_REJOINED) {
        Reaction::SessionRejoined { republish: !resumed }
    } else if same_text(event, crate::protocol::local::SESSION_GONE) {
        Reaction::SessionGone
    } else if same_text(event, "replaced") || same_text(event, "kicked") {
        Reaction::Ended
    } else if same_text(event, crate::protocol::local::PING_MEASURED) {
        Reaction::Ping
    } else if same_text(event, "watchers") {
        Reaction::Watchers
    } else {
        Reaction::Nothing
    }
}

/// Whether a stream is one to watch: one's own screen only with "see what the room sees",
/// anyone else's unless the person closed it.
pub open spec fn is_wanted(own: bool, producer: ProducerView, self_view: bool, closed: Seq<Seq<char>>) -> bool {
    if own {
        self_view && producer.source == "screen"@
    } else {
        !closed.contains(producer.producer_id)
    }
}

pub open spec fn wanted_of(
    own: bool,
    producers: Seq<ProducerView>,
    self_view: bool,
    closed: Seq<Seq<char>>,
) -> Seq<ProducerView>
    decreases producers.len(),
{
    if producers.len() == 0 {
        Seq::empty()
    } else {
        let rest = wanted_of(own, producers.drop_last(), self_view, closed);
        if is_wanted(own, producers.last(), self_view, closed) { rest.push(producers.last()) } else { rest }
    }
}

/// The streams to watch, person by person in the order of the list.
pub open spec fn spec_wanted(peers: Seq<PeerView>, self_view: bool, closed: Seq<Seq<char>>) -> Seq<ProducerView>
    decreases peers.len(),
{
    if peers.len() == 0 {
        Seq::empty()
    } else {
        spec_wanted(peers.drop_last(), self_view, closed) + wanted_of(
            peers.last().self_peer,
            peers.last().producers,
            self_view,
            closed,
        )
    }
}

/// What is watched after a new stream or a return: every stream not watched yet that the
/// person wants, so the same call serves both.
pub fn wanted_producers(peers: &[Peer], self_view: bool, closed: &[String]) -> (wanted: Vec<ProducerInfo>)
    ensures
        producer_views(wanted@) == spec_wanted(peer_views(peers@), self_view, text_views(closed@)),
{
    let ghost views = peer_views(peers@);
    let ghost shut = text_views(closed@);
    let mut wanted: Vec<ProducerInfo> = Vec::new();
    let mut i: usize = 0;

    while i < peers.len()
        invariant
            i <= peers.len(),
            views == peer_views(peers@),
            shut == text_views(closed@),
            producer_views(wanted@) == spec_wanted(views.take(i as int), self_view, shut),
        decreases peers.len() - i,
    {
        let peer = &peers[i];
        let ghost before = producer_views(wanted@);
        let mut j: usize = 0;

        proof {
            assert(views[i as int] == peer@);
        }

        while j < peer.producers.len()
            invariant
                j <= peer.producers.len(),
                peer == &peers@[i as int],
                shut == text_views(closed@),
                producer_views(wanted@) == before + wanted_of(
                    peer.self_peer,
                    producer_views(peer.producers@).take(j as int),
                    self_view,
                    shut,
                ),
            decreases peer.producers.len() - j,
        {
            let producer = &peer.producers[j];

            proof {
                let seen = producer_views(peer.producers@).take(j + 1);
                assert(seen.drop_last() =~= producer_views(peer.producers@).take(j as int));
                assert(seen.last() == producer@);
            }

            let keep = if peer.self_peer {
                self_view && same_text(producer.source.as_str(), "screen")
            } else {
                !contains_text(closed, producer.producer_id.as_str())
            };

            if keep {
                let ghost old = wanted@;
                wanted.push(producer.clone());
                proof {
                    assert(producer_views(wanted@) =~= producer_views(old).push(producer@));
                }
            }
            j = j + 1;
        }

        proof {
            assert(producer_views(peer.producers@).take(j as int) =~= producer_views(peer.producers@));
            assert(views.take(i + 1).drop_last() =~= views.take(i as int));
            assert(views.take(i + 1).last() == peer@);
        }

        i = i + 1;
    }

    proof {
        assert(views.take(i as int) =~= views);
    }

    wanted
}

/// The ids of one's own streams, which stop being watched when "see what the room sees" is
/// turned off.
pub open spec fn spec_own_producers(peers: Seq<PeerView>) -> Seq<Seq<char>>
    decreases peers.len(),
{
    if peers.len() == 0 {
        Seq::empty()
    } else {
        let rest = spec_own_producers(peers.drop_last());
        if peers.last().self_peer {
            rest + peers.last().producers.map_values(|producer: ProducerView| producer.producer_id)
        } else {
            rest
        }
    }
}

pub fn own_producers(peers: &[Peer]) -> (ids: Vec<String>)
    ensures
        text_views(ids@) == spec_own_producers(peer_views(peers@)),
{
    let ghost views = peer_views(peers@);
    let mut ids: Vec<String> = Vec::new();
    let mut i: usize = 0;

    while i < peers.len()
        invariant
            i <= peers.len(),
            views == peer_views(peers@),
            text_views(ids@) == spec_own_producers(views.take(i as int)),
        decreases peers.len() - i,
    {
        let peer = &peers[i];

        proof {
            assert(views[i as int] == peer@);
            assert(views.take(i + 1).drop_last() =~= views.take(i as int));
            assert(views.take(i + 1).last() == peer@);
        }

        if peer.self_peer {
            let ghost before = text_views(ids@);
            let mut j: usize = 0;

            while j < peer.producers.len()
                invariant
                    j <= peer.producers.len(),
                    peer == &peers@[i as int],
                    text_views(ids@) == before + producer_views(peer.producers@).take(j as int).map_values(
                        |producer: ProducerView| producer.producer_id,
                    ),
                decreases peer.producers.len() - j,
            {
                let ghost old = ids@;
                ids.push(peer.producers[j].producer_id.clone());
                proof {
                    assert(producer_views(peer.producers@).take(j + 1) =~= producer_views(peer.producers@).take(
                        j as int,
                    ).push(peer.producers@[j as int]@));
                    assert(text_views(ids@) =~= text_views(old).push(peer.producers@[j as int].producer_id@));
                    assert(text_views(ids@) =~= before + producer_views(peer.producers@).take(j + 1).map_values(
                        |producer: ProducerView| producer.producer_id,
                    ));
                }
                j = j + 1;
            }

            proof {
                assert(producer_views(peer.producers@).take(j as int) =~= producer_views(peer.producers@));
            }
        }

        i = i + 1;
    }

    proof {
        assert(views.take(i as int) =~= views);
    }

    ids
}

/// The members after `name` takes `value`: what has that name, the first of them, takes
/// the value; without one, the member is added at the end.
proof fn lemma_first_member_after_update(members: Seq<(String, Json)>, i: int, name: String, value: Json, key: Seq<char>)
    requires
        0 <= i < members.len(),
        members[i].0@ == name@,
        forall|j: int| 0 <= j < i ==> members[j].0@ != name@,
    ensures
        first_member(members.update(i, (name, value)), key) == (if key == name@ {
            Some(value)
        } else {
            first_member(members, key)
        }),
    decreases members.len(),
{
    let updated = members.update(i, (name, value));
    if i > 0 {
        assert(updated.drop_first() =~= members.drop_first().update(i - 1, (name, value)));
        assert forall|j: int| 0 <= j < i - 1 implies members.drop_first()[j].0@ != name@ by {
            assert(members.drop_first()[j] == members[j + 1]);
        }
        lemma_first_member_after_update(members.drop_first(), i - 1, name, value, key);
    } else {
        assert(updated.drop_first() =~= members.drop_first());
    }
}

proof fn lemma_first_member_after_push(members: Seq<(String, Json)>, name: String, value: Json, key: Seq<char>)
    requires
        forall|j: int| 0 <= j < members.len() ==> members[j].0@ != name@,
    ensures
        first_member(members.push((name, value)), key) == (if key == name@ {
            Some(value)
        } else {
            first_member(members, key)
        }),
    decreases members.len(),
{
    let pushed = members.push((name, value));
    assert(pushed[members.len() as int] == (name, value));
    if members.len() > 0 {
        assert(pushed[0] == members[0]);
        assert(pushed.drop_first() =~= members.drop_first().push((name, value)));
        assert forall|j: int| 0 <= j < members.drop_first().len() implies members.drop_first()[j].0@ != name@ by {
            assert(members.drop_first()[j] == members[j + 1]);
        }
        lemma_first_member_after_push(members.drop_first(), name, value, key);
    } else {
        assert(pushed.drop_first() =~= Seq::<(String, Json)>::empty());
    }
}

/// Sets member `name` of an object's members: the first one with that name takes the
/// value, or it is added.
fn set_member(members: &mut Vec<(String, Json)>, name: String, value: Json)
    ensures
        forall|key: Seq<char>|
            #[trigger] first_member(final(members)@, key) == (if key == name@ {
                Some(value)
            } else {
                first_member(old(members)@, key)
            }),
{
    let mut index: usize = 0;

    while index < members.len()
        invariant
            index <= members.len(),
            members@ == old(members)@,
            forall|j: int| 0 <= j < index ==> members@[j].0@ != name@,
        decreases members.len() - index,
    {
        if same_text(members[index].0.as_str(), name.as_str()) {
            let ghost before = members@;
            let ghost given = value;
            let ghost given_name = name;
            members.set(index, (name, value));
            proof {
                assert(members@ == before.update(index as int, (given_name, given)));
                assert forall|key: Seq<char>| #[trigger] first_member(members@, key) == (if key == given_name@ {
                    Some(given)
                } else {
                    first_member(before, key)
                }) by {
                    lemma_first_member_after_update(before, index as int, given_name, given, key);
                }
            }
            return;
        }
        index = index + 1;
    }

    let ghost before = members@;
    let ghost given = value;
    let ghost given_name = name;
    members.push((name, value));
    proof {
        assert(members@ == before.push((given_name, given)));
        assert forall|key: Seq<char>| #[trigger] first_member(members@, key) == (if key == given_name@ {
            Some(given)
        } else {
            first_member(before, key)
        }) by {
            lemma_first_member_after_push(before, given_name, given, key);
        }
    }
}

/// The request and the offer go up in one object (`{kind, source, ...offer}`): each member
/// of the offer takes its place in the request, and the rest of the request stays. When
/// either is not an object, the request stays as it is.
pub fn merge(request: &mut Json, offer: Json)
    ensures
        match (*old(request), offer) {
            (Json::Object(_), Json::Object(_)) => (*final(request)) is Object && forall|key: Seq<char>|
                #[trigger] member(*final(request), key) == (if member(offer, key) is Some {
                    member(offer, key)
                } else {
                    member(*old(request), key)
                }),
            _ => *final(request) == *old(request),
        },
{
    let mut offered = match offer {
        Json::Object(members) => members,
        _ => return,
    };
    let ghost all_offered = offered@;

    match request {
        Json::Object(members) => {
            let ghost start = members@;

            proof {
                assert(all_offered.skip(offered.len() as int) =~= Seq::<(String, Json)>::empty());
            }

            while offered.len() > 0
                invariant
                    offered@ == all_offered.take(offered.len() as int),
                    offered.len() <= all_offered.len(),
                    forall|key: Seq<char>|
                        #[trigger] first_member(members@, key) == (if first_member(
                            all_offered.skip(offered.len() as int),
                            key,
                        ) is Some {
                            first_member(all_offered.skip(offered.len() as int), key)
                        } else {
                            first_member(start, key)
                        }),
                decreases offered.len(),
            {
                let ghost n = offered.len() as int;
                let ghost before = members@;
                let (name, value) = offered.pop().unwrap();

                proof {
                    assert(all_offered[n - 1] == (name, value));
                    assert(offered@ =~= all_offered.take(n - 1));
                    let rest = all_offered.skip(n - 1);
                    assert(rest[0] == (name, value));
                    assert(rest.drop_first() =~= all_offered.skip(n));
                }

                let ghost given_name = name;
                let ghost given = value;

                set_member(members, name, value);

                proof {
                    assert forall|key: Seq<char>| #[trigger] first_member(members@, key) == (if first_member(
                        all_offered.skip(n - 1),
                        key,
                    ) is Some {
                        first_member(all_offered.skip(n - 1), key)
                    } else {
                        first_member(start, key)
                    }) by {
                        assert(first_member(members@, key) == (if key == given_name@ {
                            Some(given)
                        } else {
                            first_member(before, key)
                        }));
                        assert(all_offered.skip(n - 1).drop_first() =~= all_offered.skip(n));
                    }
                }
            }

            proof {
                assert(all_offered.skip(0) =~= all_offered);
            }
        },
        _ => {},
    }
}

} // verus!
