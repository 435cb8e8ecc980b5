//! Video encoding and transport: the pacing of frames, the rate the path can take, and
//! the H.264 the encoder hands over.

pub mod avcc;
pub mod governor;
pub mod receiver;

use vstd::prelude::*;

use crate::capture::linux::EncodedVideo;
use crate::capture::Quality;

verus! {

/// A frame already compressed, ready to become RTP packets.
pub struct EncodedFrame {
    pub data: Vec<u8>,
    pub keyframe: bool,
    pub timestamp_ns: u64,
}

/// Frames per second accepted: below 30 the screen looks frozen; above 60 the gain does
/// not show and the cost does, in bandwidth and GPU.
pub const FPS_MIN: u32 = 30;
pub const FPS_MAX: u32 = 60;

pub open spec fn spec_quality_bitrate(quality: Quality) -> u32 {
    match quality {
        Quality::Hd720 => 5_000_000,
        Quality::Hd1080 => 10_000_000,
        Quality::Qhd1440 => 20_000_000,
        Quality::Uhd2160 => 40_000_000,
    }
}

pub open spec fn spec_clamped_frame_rate(frame_rate: u32) -> u32 {
    if frame_rate < FPS_MIN { FPS_MIN } else if frame_rate > FPS_MAX { FPS_MAX } else { frame_rate }
}

/// The frame rate an encoder is configured with: the asked one, between 30 and 60.
pub fn encoder_frame_rate(frame_rate: u32) -> (clamped: u32)
    ensures
        clamped == spec_clamped_frame_rate(frame_rate),
{
    if frame_rate < FPS_MIN {
        FPS_MIN
    } else if frame_rate > FPS_MAX {
        FPS_MAX
    } else {
        frame_rate
    }
}

/// The bitrate of a quality at a frame rate: the ceiling calibrated for 60 frames, in
/// proportion to the frames actually sent, since half the frames cost about half the band.
pub fn encoder_bitrate(quality: Quality, frame_rate: u32) -> (bitrate: u32)
    ensures
        bitrate == spec_bitrate(quality, frame_rate),
{
    let ceiling: u32 = match quality {
        Quality::Hd720 => 5_000_000,
        Quality::Hd1080 => 10_000_000,
        Quality::Qhd1440 => 20_000_000,
        Quality::Uhd2160 => 40_000_000,
    };
    let rate = encoder_frame_rate(frame_rate);

    proof {
        assert(ceiling * rate <= 40_000_000 * 60) by (nonlinear_arith)
            requires
                ceiling <= 40_000_000,
                rate <= 60,
        ;
    }

    ceiling * rate / FPS_MAX
}

/// What an encoder is opened with. The frame rate is a whole number of frames per second,
/// between 30 and 60.
#[derive(Debug, Clone, Copy)]
pub struct EncoderConfig {
    pub quality: Quality,
    /// The output size: the quality's width and the height in the source's proportion
    /// (see `Quality::fit`). It is what the encoder gets; the quality alone is not enough.
    pub width: u32,
    pub height: u32,
    pub frame_rate: u32,
    pub bitrate: u32,
}

impl EncoderConfig {
    /// `source` is the size of what is being captured, in pixels.
    pub fn new(quality: Quality, frame_rate: u32, source: (u32, u32)) -> (config: Self)
        ensures
            config.quality == quality,
            (config.width, config.height) == crate::capture::spec_fit(quality, source),
            config.frame_rate == spec_clamped_frame_rate(frame_rate),
            config.bitrate == spec_bitrate(quality, frame_rate),
    {
        let (width, height) = quality.fit(source);

        EncoderConfig {
            quality,
            width,
            height,
            frame_rate: encoder_frame_rate(frame_rate),
            bitrate: encoder_bitrate(quality, frame_rate),
        }
    }
}

/// The video's RTP clock, fixed by the H.264 payload format.
pub const VIDEO_CLOCK: u32 = 90_000;

/// How far the video's RTP clock moves before a frame: the real time since the previous
/// frame, so that a screen that stood still does not leave the picture out of step with the
/// sound for good; the nominal frame rate, rounded, when the capture gives no later time;
/// nothing before the first frame.
pub open spec fn spec_video_advance(previous: Option<u64>, timestamp_ns: u64, frame_rate: u32) -> u32 {
    match previous {
        Some(earlier) => if timestamp_ns > earlier {
            let ticks = (timestamp_ns - earlier) * VIDEO_CLOCK / 1_000_000_000;
            if ticks > u32::MAX { u32::MAX } else { ticks as u32 }
        } else {
            let rate: int = if frame_rate >= 1 { frame_rate as int } else { 1 };
            ((2 * VIDEO_CLOCK + rate) / (2 * rate)) as u32
        },
        None => 0,
    }
}

pub fn video_advance(previous: Option<u64>, timestamp_ns: u64, frame_rate: u32) -> (advance: u32)
    ensures
        advance == spec_video_advance(previous, timestamp_ns, frame_rate),
{
    match previous {
        Some(earlier) => {
            if timestamp_ns > earlier {
                let elapsed = (timestamp_ns - earlier) as u128;

                proof {
                    assert(elapsed * 90_000 <= 0xFFFF_FFFF_FFFF_FFFFu128 * 90_000) by (nonlinear_arith)
                        requires
                            elapsed <= 0xFFFF_FFFF_FFFF_FFFFu128,
                    ;
                }

                let ticks = elapsed * (VIDEO_CLOCK as u128) / 1_000_000_000;

                if ticks > u32::MAX as u128 {
                    u32::MAX
                } else {
                    ticks as u32
                }
            } else {
                let rate: u64 = if frame_rate >= 1 { frame_rate as u64 } else { 1 };

                proof {
                    assert((2 * 90_000 + rate) / (2 * rate) <= 90_000) by (nonlinear_arith)
                        requires
                            rate >= 1,
                    ;
                }

                ((2 * (VIDEO_CLOCK as u64) + rate) / (2 * rate)) as u32
            }
        },
        None => 0,
    }
}

/// Lets one frame through every `1 / frame_rate` second, by the capture's clock.
///
/// A 144 Hz monitor delivers 144 frames a second; without this the encoder would
/// compress them all with the bitrate meant for 60, and each one would leave with less
/// than half the bits.
pub struct FramePacer {
    interval_ns: u64,
    next_ns: u64,
}

pub struct PacerView {
    pub interval_ns: u64,
    pub next_ns: u64,
}

impl View for FramePacer {
    type V = PacerView;

    closed spec fn view(&self) -> PacerView {
        PacerView { interval_ns: self.interval_ns, next_ns: self.next_ns }
    }
}

impl PacerView {
    /// Whether a frame at `timestamp_ns` passes, and the next slot after it. A quarter
    /// frame of slack: a 60 Hz capture does not arrive at exact intervals. A screen that was
    /// still for more than one interval restarts the clock instead of bursting.
    pub open spec fn admitted(self, timestamp_ns: u64) -> (bool, PacerView) {
        if timestamp_ns + self.interval_ns / 4 < self.next_ns {
            (false, self)
        } else {
            let base = if timestamp_ns > self.next_ns + self.interval_ns { timestamp_ns } else { self.next_ns };
            (true, PacerView { next_ns: (base + self.interval_ns) as u64, ..self })
        }
    }
}

impl FramePacer {
    /// A pacer for `frame_rate` frames per second; zero counts as one.
    pub fn new(frame_rate: u32) -> (pacer: Self)
        ensures
            pacer@.interval_ns as int == 1_000_000_000int / (if frame_rate >= 1 { frame_rate as int } else { 1int }),
            pacer@.next_ns == 0,
    {
        let rate: u64 = if frame_rate >= 1 { frame_rate as u64 } else { 1 };

        Self { interval_ns: 1_000_000_000 / rate, next_ns: 0 }
    }

    pub fn lets_through(&mut self, timestamp_ns: u64) -> (admitted: bool)
        requires
            timestamp_ns as int + old(self)@.interval_ns <= u64::MAX,
            old(self)@.next_ns as int + 2 * old(self)@.interval_ns <= u64::MAX,
        ensures
            (admitted, final(self)@) == old(self)@.admitted(timestamp_ns),
    {
        if timestamp_ns + self.interval_ns / 4 < self.next_ns {
            return false;
        }

        let base = if timestamp_ns > self.next_ns + self.interval_ns { timestamp_ns } else { self.next_ns };

        self.next_ns = base + self.interval_ns;

        true
    }
}

/// Each frame let through moves the next slot at least one interval forward, and never
/// before the frame itself: two frames in a row that pass are no earlier than the slot
/// after the first, less the quarter-frame slack.
pub proof fn law_pacer_spaces_admitted_frames(pacer: PacerView, first: u64, second: u64)
    requires
        first as int + pacer.interval_ns <= u64::MAX,
        pacer.next_ns as int + 2 * pacer.interval_ns <= u64::MAX,
        pacer.admitted(first).0,
        pacer.admitted(first).1.admitted(second).0,
    ensures
        pacer.admitted(first).1.next_ns >= pacer.next_ns + pacer.interval_ns,
        pacer.admitted(first).1.next_ns >= first,
        second as int + pacer.interval_ns / 4 >= pacer.next_ns + pacer.interval_ns,
        second as int + pacer.interval_ns / 4 >= first,
{
}

/// The bitrate of a quality at a frame rate, as `encoder_bitrate` computes it.
pub open spec fn spec_bitrate(quality: Quality, frame_rate: u32) -> int {
    spec_quality_bitrate(quality) as int * spec_clamped_frame_rate(frame_rate) as int / FPS_MAX as int
}

/// The encoder's frame rate never leaves 30 to 60, and a rate inside that range is kept.
pub proof fn law_frame_rate_is_clamped(frame_rate: u32)
    ensures
        FPS_MIN <= spec_clamped_frame_rate(frame_rate) <= FPS_MAX,
        FPS_MIN <= frame_rate <= FPS_MAX ==> spec_clamped_frame_rate(frame_rate) == frame_rate,
{
}

/// At any frame rate, each quality up gets strictly more bits.
pub proof fn law_bitrate_rises_with_resolution(frame_rate: u32)
    ensures
        spec_bitrate(Quality::Hd720, frame_rate) < spec_bitrate(Quality::Hd1080, frame_rate),
        spec_bitrate(Quality::Hd1080, frame_rate) < spec_bitrate(Quality::Qhd1440, frame_rate),
        spec_bitrate(Quality::Qhd1440, frame_rate) < spec_bitrate(Quality::Uhd2160, frame_rate),
{
    let rate = spec_clamped_frame_rate(frame_rate) as int;

    assert(30 <= rate <= 60);
    assert(5_000_000 * rate / 60 < 10_000_000 * rate / 60) by (nonlinear_arith)
        requires
            30 <= rate <= 60,
    ;
    assert(10_000_000 * rate / 60 < 20_000_000 * rate / 60) by (nonlinear_arith)
        requires
            30 <= rate <= 60,
    ;
    assert(20_000_000 * rate / 60 < 40_000_000 * rate / 60) by (nonlinear_arith)
        requires
            30 <= rate <= 60,
    ;
}

/// Half the frames cost half the bandwidth: 30 frames get exactly half the bits of 60.
pub proof fn law_half_the_frames_half_the_bitrate(quality: Quality)
    ensures
        spec_bitrate(quality, 30) * 2 == spec_bitrate(quality, 60),
{
    let ceiling = spec_quality_bitrate(quality) as int;

    assert(spec_clamped_frame_rate(30) == 30 && spec_clamped_frame_rate(60) == 60);
    assert(ceiling % 2 == 0);
    assert(ceiling * 30 / 60 * 2 == ceiling * 60 / 60) by (nonlinear_arith)
        requires
            ceiling % 2 == 0,
            ceiling >= 0,
    ;
}

/// The H.264 encoder on Linux runs inside the capture pipeline: what arrives here is
/// already Annex-B, and this encoder hands it on with the same shape as the others.
pub struct PlatformEncoder;

#[derive(Debug, Clone, PartialEq, Eq)]
pub enum EncoderError {
    Start(String),
    Encode(String),
    NoSurface,
    /// A hardware encoder has a queue: the first frames go in without anything coming out.
    NeedsMoreInput,
    Unsupported,
}

impl PlatformEncoder {
    pub fn new() -> (encoder: Self) {
        Self
    }

    /// The pipeline takes no requests; the periodic keyframe (one a second) covers it.
    pub fn request_keyframe(&mut self) {
    }

    pub fn encode(&mut self, surface: &EncodedVideo, timestamp_ns: u64) -> (frame: Result<EncodedFrame, EncoderError>)
        ensures
            frame matches Ok(frame) && frame.data@ == surface.data@ && frame.keyframe == surface.keyframe
                && frame.timestamp_ns == timestamp_ns,
    {
        let data = surface.data.clone();

        proof {
            assert(data@ =~= surface.data@);
        }

        Ok(EncodedFrame { data, keyframe: surface.keyframe, timestamp_ns })
    }
}

/// An H.264 keyframe carries an SPS (type 7), a PPS (8) or an IDR (5) after a four-byte
/// start code.
pub open spec fn spec_is_keyframe(data: Seq<u8>) -> bool {
    exists|position: int|
        0 <= position && position + 4 < data.len() && #[trigger] starts_nal(data, position)
            && (data[position + 4] & 0x1F == 5 || data[position + 4] & 0x1F == 7 || data[position + 4] & 0x1F == 8)
}

pub open spec fn starts_nal(data: Seq<u8>, position: int) -> bool {
    data[position] == 0 && data[position + 1] == 0 && data[position + 2] == 0 && data[position + 3] == 1
}

pub open spec fn is_key_nal(byte: u8) -> bool {
    byte & 0x1F == 5 || byte & 0x1F == 7 || byte & 0x1F == 8
}

/// Whether an Annex-B frame carries an SPS, a PPS or an IDR.
pub fn is_keyframe(data: &[u8]) -> (keyframe: bool)
    ensures
        keyframe == spec_is_keyframe(data@),
{
    let mut position: usize = 0;

    while position < data.len() && data.len() - position > 4
        invariant
            position <= data.len(),
            forall|p: int| 0 <= p < position && p + 4 < data@.len() && #[trigger] starts_nal(data@, p) ==> !is_key_nal(data@[p + 4]),
        decreases data.len() - position,
    {
        if data[position] == 0 && data[position + 1] == 0 && data[position + 2] == 0 && data[position + 3] == 1 {
            let kind = data[position + 4] & 0x1F;

            if kind == 5 || kind == 7 || kind == 8 {
                proof {
                    assert(starts_nal(data@, position as int));
                }
                return true;
            }

            proof {
                // The three positions after a start code cannot start another one.
                assert forall|p: int| position < p < position + 4 && p + 4 < data@.len() implies !#[trigger] starts_nal(data@, p) by {
                    if p == position + 1 { assert(data@[p + 2] == 1); }
                    if p == position + 2 { assert(data@[p + 1] == 1); }
                    if p == position + 3 { assert(data@[p] == 1); }
                }
            }

            position = position + 4;

            continue;
        }

        position = position + 1;
    }

    proof {
        assert forall|p: int| 0 <= p && p + 4 < data@.len() && #[trigger] starts_nal(data@, p) implies !is_key_nal(data@[p + 4]) by {
        }
    }

    false
}

/// What must reach the other side through the media server's signalling.
#[derive(Debug, Clone, PartialEq, Eq)]
pub enum Signal {
    /// An ICE candidate, as JSON text.
    Candidate(String),
}

} // verus!
