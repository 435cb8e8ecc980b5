//! What comes out of watching someone: an H.264 frame in Annex-B or a block of sound, of
//! one producer.

use vstd::prelude::*;

use crate::json::{at, member_at, spec_as_u64, Json};
use crate::models::same_text;

verus! {

#[derive(Debug, Clone, Copy, PartialEq, Eq, Structural)]
pub enum MediaKind {
    /// `timestamp` on the 90 kHz clock of RTP.
    Video { keyframe: bool, timestamp: u32 },
    /// PCM `f32` little-endian, interleaved stereo, 48 kHz.
    Audio,
}

/// An H.264 frame in Annex-B or a block of sound, of one producer.
#[derive(Debug, Clone, PartialEq, Eq)]
pub struct Media {
    pub producer_id: String,
    pub kind: MediaKind,
    pub data: Vec<u8>,
}

/// The server's retransmission of a stream: it is through it that a lost packet comes back.
#[derive(Debug, Clone, Copy, PartialEq, Eq, Structural)]
pub struct Rtx {
    pub ssrc: u32,
    pub payload_type: u8,
}

/// The `rtx` of the answer to `consumePlain`, when the server announces one that fits.
pub open spec fn spec_rtx_of(answer: Json) -> Option<Rtx> {
    let rtx = at(answer, "rtx"@);
    match (spec_as_u64(at(rtx, "ssrc"@)), spec_as_u64(at(rtx, "payloadType"@))) {
        (Some(ssrc), Some(payload_type)) => if ssrc <= u32::MAX && payload_type <= u8::MAX {
            Some(Rtx { ssrc: ssrc as u32, payload_type: payload_type as u8 })
        } else {
            None
        },
        _ => None,
    }
}

pub fn rtx_of(answer: &Json) -> (rtx: Option<Rtx>)
    ensures
        rtx == spec_rtx_of(*answer),
{
    let null = Json::Null;
    let announced = member_at(answer, "rtx", &null);
    let ssrc = match member_at(announced, "ssrc", &null).as_u64() {
        Some(ssrc) => ssrc,
        None => return None,
    };
    let payload_type = match member_at(announced, "payloadType", &null).as_u64() {
        Some(payload_type) => payload_type,
        None => return None,
    };

    if ssrc <= u32::MAX as u64 && payload_type <= u8::MAX as u64 {
        Some(Rtx { ssrc: ssrc as u32, payload_type: payload_type as u8 })
    } else {
        None
    }
}

/// A stream being watched: whether it is video, and whether it arrives muted by rule (the
/// sound of a shared screen).
pub struct Watched {
    pub producer_id: String,
    pub video: bool,
    pub always_muted: bool,
}

pub struct WatchedView {
    pub producer_id: Seq<char>,
    pub video: bool,
    pub always_muted: bool,
}

impl View for Watched {
    type V = WatchedView;

    open spec fn view(&self) -> WatchedView {
        WatchedView { producer_id: self.producer_id@, video: self.video, always_muted: self.always_muted }
    }
}

pub open spec fn watched_views(streams: Seq<Watched>) -> Seq<WatchedView> {
    streams.map_values(|stream: Watched| stream@)
}

pub open spec fn watched_ids(streams: Seq<WatchedView>) -> Seq<Seq<char>> {
    streams.map_values(|stream: WatchedView| stream.producer_id)
}

/// The streams without the one `producer_id`.
pub open spec fn without(streams: Seq<WatchedView>, producer_id: Seq<char>) -> Seq<WatchedView>
    decreases streams.len(),
{
    if streams.len() == 0 {
        streams
    } else {
        let rest = without(streams.drop_last(), producer_id);
        if streams.last().producer_id == producer_id { rest } else { rest.push(streams.last()) }
    }
}

/// What the sound of each stream becomes when the person deafens or hears again: only the
/// sound is touched (pausing the video would mean waiting for a keyframe on the way back),
/// and the sound of a shared screen stays muted.
pub open spec fn mute_commands(streams: Seq<WatchedView>, deafened: bool) -> Seq<(Seq<char>, bool)>
    decreases streams.len(),
{
    if streams.len() == 0 {
        Seq::empty()
    } else {
        let rest = mute_commands(streams.drop_last(), deafened);
        let last = streams.last();
        if last.video { rest } else { rest.push((last.producer_id, deafened || last.always_muted)) }
    }
}

pub struct WatchingView {
    pub active: Seq<WatchedView>,
    pub deafened: bool,
}

/// Which streams are watched and whether the person has deafened: what decides, for each
/// stream, whether its sound goes through. The sockets and threads that carry the streams
/// are the host's.
pub struct Watching {
    active: Vec<Watched>,
    deafened: bool,
}

impl View for Watching {
    type V = WatchingView;

    closed spec fn view(&self) -> WatchingView {
        WatchingView { active: watched_views(self.active@), deafened: self.deafened }
    }
}

pub open spec fn command_views(commands: Seq<(String, bool)>) -> Seq<(Seq<char>, bool)> {
    commands.map_values(|command: (String, bool)| (command.0@, command.1))
}

pub open spec fn text_views(texts: Seq<String>) -> Seq<Seq<char>> {
    texts.map_values(|text: String| text@)
}

impl Watching {
    pub fn new() -> (watching: Self)
        ensures
            watching@.active == Seq::<WatchedView>::empty(),
            !watching@.deafened,
    {
        let watching = Watching { active: Vec::new(), deafened: false };
        proof {
            assert(watched_views(watching.active@) =~= Seq::<WatchedView>::empty());
        }
        watching
    }

    pub fn is_watching(&self, producer_id: &str) -> (watching: bool)
        ensures
            watching == watched_ids(self@.active).contains(producer_id@),
    {
        let mut index: usize = 0;

        while index < self.active.len()
            invariant
                index <= self.active.len(),
                forall|k: int| 0 <= k < index ==> self.active@[k].producer_id@ != producer_id@,
            decreases self.active.len() - index,
        {
            if same_text(self.active[index].producer_id.as_str(), producer_id) {
                proof {
                    assert(watched_ids(self@.active)[index as int] == producer_id@);
                }
                return true;
            }
            index = index + 1;
        }

        proof {
            if watched_ids(self@.active).contains(producer_id@) {
                let k = choose|k: int| 0 <= k < watched_ids(self@.active).len() && watched_ids(self@.active)[k] == producer_id@;
                assert(self.active@[k].producer_id@ == producer_id@);
            }
        }

        false
    }

    pub fn is_deafened(&self) -> (deafened: bool)
        ensures
            deafened == self@.deafened,
    {
        self.deafened
    }

    /// A stream starts being watched. `None` when it already is, and nothing changes;
    /// otherwise whether it starts muted: the sound of a shared screen always, and any
    /// sound while the person is deafened.
    pub fn start(&mut self, producer_id: String, video: bool, always_muted: bool) -> (muted: Option<bool>)
        ensures
            watched_ids(old(self)@.active).contains(producer_id@) ==> muted is None && final(self)@ == old(self)@,
            !watched_ids(old(self)@.active).contains(producer_id@) ==> muted == Some(
                always_muted || (old(self)@.deafened && !video),
            ) && final(self)@.deafened == old(self)@.deafened && final(self)@.active == old(self)@.active.push(
                WatchedView { producer_id: producer_id@, video, always_muted },
            ),
    {
        if self.is_watching(producer_id.as_str()) {
            return None;
        }

        let muted = always_muted || (self.deafened && !video);
        let ghost before = self.active@;

        self.active.push(Watched { producer_id, video, always_muted });

        proof {
            assert(watched_views(self.active@) =~= watched_views(before).push(self.active@.last()@));
        }

        Some(muted)
    }

    /// Stops watching one stream, or all of them with `None`; gives the ids whose routes
    /// go. One id is given even when it was not watched: its route goes all the same.
    pub fn stop(&mut self, producer_id: Option<&str>) -> (gone: Vec<String>)
        ensures
            final(self)@.deafened == old(self)@.deafened,
            match producer_id {
                Some(id) => text_views(gone@) == seq![id@] && final(self)@.active == without(old(self)@.active, id@),
                None => text_views(gone@) == watched_ids(old(self)@.active) && final(self)@.active
                    == Seq::<WatchedView>::empty(),
            },
    {
        match producer_id {
            Some(id) => {
                let mut kept: Vec<Watched> = Vec::new();
                let ghost before = watched_views(self.active@);

                while self.active.len() > 0
                    invariant
                        self.deafened == old(self).deafened,
                        without(watched_views(self.active@), id@) + watched_views(kept@) == without(before, id@),
                    decreases self.active.len(),
                {
                    let ghost rest = watched_views(self.active@);
                    let last = self.active.pop().unwrap();

                    proof {
                        assert(rest.drop_last() =~= watched_views(self.active@));
                        assert(rest.last() == last@);
                    }

                    if !same_text(last.producer_id.as_str(), id) {
                        let ghost old_kept = watched_views(kept@);
                        kept.insert(0, last);
                        proof {
                            assert(watched_views(kept@) =~= seq![rest.last()] + old_kept);
                            assert(without(rest, id@) == without(watched_views(self.active@), id@).push(rest.last()));
                            assert(without(watched_views(self.active@), id@) + watched_views(kept@) =~= without(
                                rest,
                                id@,
                            ) + old_kept);
                        }
                    }
                }

                proof {
                    assert(Seq::<WatchedView>::empty() + watched_views(kept@) =~= watched_views(kept@));
                }

                self.active = kept;

                let gone = vec![id.to_owned()];
                proof {
                    assert(text_views(gone@) =~= seq![id@]);
                }
                gone
            },
            None => {
                let mut gone: Vec<String> = Vec::new();
                let mut index: usize = 0;

                while index < self.active.len()
                    invariant
                        index <= self.active.len(),
                        text_views(gone@) == watched_ids(watched_views(self.active@)).take(index as int),
                    decreases self.active.len() - index,
                {
                    let ghost old_gone = text_views(gone@);
                    gone.push(self.active[index].producer_id.clone());
                    proof {
                        assert(text_views(gone@) =~= old_gone.push(self.active@[index as int].producer_id@));
                        assert(watched_ids(watched_views(self.active@)).take(index + 1) =~= watched_ids(
                            watched_views(self.active@),
                        ).take(index as int).push(self.active@[index as int].producer_id@));
                    }
                    index = index + 1;
                }

                proof {
                    assert(watched_ids(watched_views(self.active@)).take(index as int) =~= watched_ids(
                        watched_views(self.active@),
                    ));
                }

                self.active = Vec::new();

                proof {
                    assert(watched_views(self.active@) =~= Seq::<WatchedView>::empty());
                }

                gone
            },
        }
    }

    /// Deafens or hears again, and gives what each sound stream's mute becomes.
    pub fn deafen(&mut self, deafened: bool) -> (commands: Vec<(String, bool)>)
        ensures
            final(self)@.deafened == deafened,
            final(self)@.active == old(self)@.active,
            command_views(commands@) == mute_commands(old(self)@.active, deafened),
    {
        self.deafened = deafened;

        let mut commands: Vec<(String, bool)> = Vec::new();
        let mut index: usize = 0;

        while index < self.active.len()
            invariant
                index <= self.active.len(),
                command_views(commands@) == mute_commands(watched_views(self.active@).take(index as int), deafened),
            decreases self.active.len() - index,
        {
            let stream = &self.active[index];

            proof {
                let seen = watched_views(self.active@).take(index + 1);
                assert(seen.drop_last() =~= watched_views(self.active@).take(index as int));
                assert(seen.last() == stream@);
            }

            if !stream.video {
                let ghost before = command_views(commands@);
                commands.push((stream.producer_id.clone(), deafened || stream.always_muted));
                proof {
                    assert(command_views(commands@) =~= before.push((stream.producer_id@, deafened || stream.always_muted)));
                }
            }
            index = index + 1;
        }

        proof {
            assert(watched_views(self.active@).take(index as int) =~= watched_views(self.active@));
        }

        commands
    }
}

/// Deafening touches only the sound: each command names a sound stream being watched, and
/// mutes it when the person is deafened or when it is the sound of a shared screen.
pub proof fn law_deafening_touches_only_the_sound(streams: Seq<WatchedView>, deafened: bool)
    ensures
        forall|k: int|
            0 <= k < mute_commands(streams, deafened).len() ==> exists|j: int|
                0 <= j < streams.len() && !streams[j].video && streams[j].producer_id == (#[trigger] mute_commands(
                    streams,
                    deafened,
                )[k]).0 && mute_commands(streams, deafened)[k].1 == (deafened || streams[j].always_muted),
    decreases streams.len(),
{
    if streams.len() > 0 {
        let rest = streams.drop_last();
        law_deafening_touches_only_the_sound(rest, deafened);
        assert forall|k: int| 0 <= k < mute_commands(streams, deafened).len() implies exists|j: int|
            0 <= j < streams.len() && !streams[j].video && streams[j].producer_id == (#[trigger] mute_commands(
                streams,
                deafened,
            )[k]).0 && mute_commands(streams, deafened)[k].1 == (deafened || streams[j].always_muted) by {
            if k < mute_commands(rest, deafened).len() {
                let j = choose|j: int|
                    0 <= j < rest.len() && !rest[j].video && rest[j].producer_id == (#[trigger] mute_commands(
                        rest,
                        deafened,
                    )[k]).0 && mute_commands(rest, deafened)[k].1 == (deafened || rest[j].always_muted);
                assert(streams[j] == rest[j]);
            } else {
                assert(streams[streams.len() - 1] == streams.last());
            }
        }
    }
}

} // verus!
