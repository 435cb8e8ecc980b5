//! The other direction of plain RTP: which decoder each arriving stream goes to.
//!
//! It is one socket per session on the server, and what separates the streams is the
//! SSRC: each goes to the local port of the decoder that asked for it.

use vstd::prelude::*;

verus! {

/// Where what arrives from one producer goes: the local address of its decoder.
pub struct Route<A> {
    pub id: String,
    pub payload_type: u8,
    pub to: A,
    /// The SSRC the server returned; without it, learned from the first packet of the same
    /// payload type.
    pub ssrc: Option<u32>,
    /// Muted is not forwarding: the decoder only sees silence.
    pub muted: bool,
}

pub struct Routes<A> {
    pub active: Vec<Route<A>>,
    /// SSRCs of producers already closed: the server still sends a rest of them, and no
    /// route may learn it.
    pub retired: Vec<u32>,
}

/// The index of the route of a packet: the one with this SSRC, else the oldest one of the
/// same payload type that has not learned its own yet, unless the SSRC belongs to a closed
/// producer.
pub open spec fn spec_route_index<A>(routes: Seq<Route<A>>, retired: Seq<u32>, ssrc: u32, payload_type: u8) -> Option<int> {
    if exists|i: int| 0 <= i < routes.len() && #[trigger] routes[i].ssrc == Some(ssrc) {
        Some(choose|i: int| 0 <= i < routes.len() && routes[i].ssrc == Some(ssrc)
            && forall|j: int| 0 <= j < i ==> routes[j].ssrc != Some(ssrc))
    } else if retired.contains(ssrc) {
        None
    } else if exists|i: int| 0 <= i < routes.len() && #[trigger] routes[i].ssrc is None && routes[i].payload_type == payload_type {
        Some(choose|i: int| 0 <= i < routes.len() && routes[i].ssrc is None && routes[i].payload_type == payload_type
            && forall|j: int| 0 <= j < i ==> !(routes[j].ssrc is None && routes[j].payload_type == payload_type))
    } else {
        None
    }
}

/// The first index whose SSRC is `ssrc`, or none.
fn position_of_ssrc<A>(routes: &Vec<Route<A>>, ssrc: u32) -> (found: Option<usize>)
    ensures
        found matches Some(i) ==> i < routes.len() && routes@[i as int].ssrc == Some(ssrc)
            && forall|j: int| 0 <= j < i ==> routes@[j].ssrc != Some(ssrc),
        found is None ==> forall|j: int| 0 <= j < routes.len() ==> routes@[j].ssrc != Some(ssrc),
{
    let mut index: usize = 0;

    while index < routes.len()
        invariant
            index <= routes.len(),
            forall|j: int| 0 <= j < index ==> routes@[j].ssrc != Some(ssrc),
        decreases routes.len() - index,
    {
        if routes[index].ssrc == Some(ssrc) {
            return Some(index);
        }
        index = index + 1;
    }

    None
}

/// The first index still learning its SSRC with this payload type, or none.
fn position_learning<A>(routes: &Vec<Route<A>>, payload_type: u8) -> (found: Option<usize>)
    ensures
        found matches Some(i) ==> i < routes.len() && routes@[i as int].ssrc is None
            && routes@[i as int].payload_type == payload_type
            && forall|j: int| 0 <= j < i ==> !(routes@[j].ssrc is None && routes@[j].payload_type == payload_type),
        found is None ==> forall|j: int| 0 <= j < routes.len() ==> !(routes@[j].ssrc is None && routes@[j].payload_type == payload_type),
{
    let mut index: usize = 0;

    while index < routes.len()
        invariant
            index <= routes.len(),
            forall|j: int| 0 <= j < index ==> !(routes@[j].ssrc is None && routes@[j].payload_type == payload_type),
        decreases routes.len() - index,
    {
        if routes[index].ssrc.is_none() && routes[index].payload_type == payload_type {
            return Some(index);
        }
        index = index + 1;
    }

    None
}

/// The route of a packet, which from now on is known by this SSRC.
pub fn pick_route<A>(routes: &mut Routes<A>, ssrc: u32, payload_type: u8) -> (picked: Option<&Route<A>>)
    ensures
        final(routes).retired@ == old(routes).retired@,
        final(routes).active.len() == old(routes).active.len(),
        match spec_route_index(old(routes).active@, old(routes).retired@, ssrc, payload_type) {
            Some(i) => picked == Some(&final(routes).active@[i]) && final(routes).active@[i].ssrc == Some(ssrc)
                && final(routes).active@[i].id == old(routes).active@[i].id
                && final(routes).active@[i].to == old(routes).active@[i].to
                && final(routes).active@[i].payload_type == old(routes).active@[i].payload_type
                && final(routes).active@[i].muted == old(routes).active@[i].muted
                && forall|j: int| 0 <= j < old(routes).active.len() && j != i ==> final(routes).active@[j] == old(routes).active@[j],
            None => picked is None && final(routes).active@ == old(routes).active@,
        },
{
    let exact = position_of_ssrc(&routes.active, ssrc);
    let index = match exact {
        Some(index) => index,
        None => {
            if contains_u32(&routes.retired, ssrc) {
                return None;
            }
            match position_learning(&routes.active, payload_type) {
                Some(index) => index,
                None => return None,
            }
        },
    };

    let ghost before = routes.active@;
    let mut route = routes.active.remove(index);
    route.ssrc = Some(ssrc);
    routes.active.insert(index, route);

    proof {
        assert(routes.active@ =~= before.update(index as int, routes.active@[index as int]));
    }

    Some(&routes.active[index])
}

pub fn contains_u32(values: &Vec<u32>, wanted: u32) -> (found: bool)
    ensures
        found == values@.contains(wanted),
{
    let mut index: usize = 0;

    while index < values.len()
        invariant
            index <= values.len(),
            forall|j: int| 0 <= j < index ==> values@[j] != wanted,
        decreases values.len() - index,
    {
        if values[index] == wanted {
            proof {
                assert(values@[index as int] == wanted);
            }
            return true;
        }
        index = index + 1;
    }

    false
}

pub open spec fn be_byte(value: int, shift: int) -> u8 {
    ((value / shift) % 256) as u8
}

/// A minimal valid RTP packet: the server only learns the address of whoever sends after
/// opening the packet.
pub fn punch(ssrc: u32, sequence: u16) -> (packet: Vec<u8>)
    ensures
        packet@ == seq![
            0x80u8, 96u8,
            be_byte(sequence as int, 256), be_byte(sequence as int, 1),
            0u8, 0u8, 0u8, 0u8,
            be_byte(ssrc as int, 0x100_0000), be_byte(ssrc as int, 0x1_0000), be_byte(ssrc as int, 256), be_byte(ssrc as int, 1),
            0u8, 0u8, 0u8, 0u8
        ],
{
    let mut packet: Vec<u8> = vec![0x80, 96];

    packet.push((sequence / 256) as u8);
    packet.push((sequence % 256) as u8);
    packet.push(0);
    packet.push(0);
    packet.push(0);
    packet.push(0);
    packet.push(((ssrc / 0x100_0000) % 256) as u8);
    packet.push(((ssrc / 0x1_0000) % 256) as u8);
    packet.push(((ssrc / 256) % 256) as u8);
    packet.push((ssrc % 256) as u8);
    packet.push(0);
    packet.push(0);
    packet.push(0);
    packet.push(0);

    proof {
        assert(packet@ =~= seq![
            0x80u8, 96u8,
            be_byte(sequence as int, 256), be_byte(sequence as int, 1),
            0u8, 0u8, 0u8, 0u8,
            be_byte(ssrc as int, 0x100_0000), be_byte(ssrc as int, 0x1_0000), be_byte(ssrc as int, 256), be_byte(ssrc as int, 1),
            0u8, 0u8, 0u8, 0u8
        ]);
    }

    packet
}

/// Whether an arriving datagram is worth opening: an RTP packet has at least the twelve
/// bytes of its header, and RTCP (the server's reports) carries a second byte from 192 to
/// 223.
pub fn is_media(datagram: &[u8]) -> (media: bool)
    ensures
        media == (datagram@.len() >= 12 && !(192 <= datagram@[1] <= 223)),
{
    datagram.len() >= 12 && !(192 <= datagram[1] && datagram[1] <= 223)
}

/// The stream of an opened RTP packet: its payload type, the low seven bits of the second
/// byte, and its SSRC, the four big-endian bytes from the ninth on.
pub fn rtp_stream(plain: &[u8]) -> (stream: (u8, u32))
    requires
        plain@.len() >= 12,
    ensures
        stream.0 == plain@[1] % 128,
        stream.1 == plain@[8] * 0x100_0000 + plain@[9] * 0x1_0000 + plain@[10] * 256 + plain@[11],
{
    let second = plain[1];
    let payload_type = second & 0x7f;
    assert(second & 0x7f == second % 128) by (bit_vector);
    let ssrc: u32 = (plain[8] as u32) * 0x100_0000 + (plain[9] as u32) * 0x1_0000 + (plain[10] as u32) * 256
        + plain[11] as u32;
    (payload_type, ssrc)
}

} // verus!
