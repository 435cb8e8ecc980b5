//! Capture on Linux: the screen through GStreamer, already encoded, and the decisions
//! around it that need no process of their own. The pipelines are text for
//! `gst-launch-1.0`; what starts the processes and reads the pipes lives with the app.

use vstd::prelude::*;
use vstd::string::*;

use crate::capture::{CaptureSource, Quality};
use crate::order::{entries_view, spec_stable_sort, stable_sort, values_of};
use crate::text::{
    chars_of, contains_chars, count_char, count_of, decimal, find_char, has_prefix, index_of, lemma_index_of_is,
    lines_of, parse_u32, seq_views, slice_of, spec_contains, spec_decimal, spec_lines, spec_parse_u32,
    spec_split_once, spec_split_text, spec_trim, spec_words, split_once_char, split_text, starts_with,
    trim_chars, trim_start, whitespace, words_of,
};

verus! {

/// A frame already in H.264 Annex-B, with SPS/PPS in front of each keyframe.
#[derive(Clone)]
pub struct EncodedVideo {
    pub data: Vec<u8>,
    pub keyframe: bool,
}

/// 48 kHz stereo in `f32`, 20 ms per block: what the audio encoder expects.
pub const AUDIO_BLOCK_BYTES: usize = 7680;

/// The camera goes up small: it is a card beside the screen, not the screen.
pub const CAMERA_SIZE: (u32, u32) = (640, 360);

/// What the portal promises when it does not say the stream size.
pub const PORTAL_FALLBACK_SIZE: (u32, u32) = (1920, 1080);

/// Where the screen comes from.
#[derive(Debug, Clone, Copy, PartialEq, Eq, Structural)]
pub enum Backend {
    /// `ximagesrc`: the app sees the screen and lists the monitors.
    X11,
    /// `pipewiresrc` through the portal: the system's own picker chooses.
    Portal,
}

pub open spec fn text_is(text: Option<&str>, wanted: Seq<char>) -> bool {
    text matches Some(text) && text@ == wanted
}

pub open spec fn spec_backend_for(forced: Option<&str>, session_type: Option<&str>, wayland_display: Option<&str>) -> Backend {
    if text_is(forced, "x11"@) {
        Backend::X11
    } else if text_is(forced, "portal"@) {
        Backend::Portal
    } else if text_is(session_type, "wayland"@) || (wayland_display matches Some(name) && name@.len() > 0) {
        Backend::Portal
    } else {
        Backend::X11
    }
}

fn is_text(text: Option<&str>, wanted: &str) -> (same: bool)
    ensures
        same == text_is(text, wanted@),
{
    match text {
        Some(text) => crate::models::same_text(text, wanted),
        None => false,
    }
}

/// A Wayland session goes through the portal. `UNKVOID_CAPTURE=x11|portal` forces one of
/// the two; an unknown value forces nothing.
pub fn backend_for(forced: Option<&str>, session_type: Option<&str>, wayland_display: Option<&str>) -> (backend: Backend)
    ensures
        backend == spec_backend_for(forced, session_type, wayland_display),
{
    if is_text(forced, "x11") {
        Backend::X11
    } else if is_text(forced, "portal") {
        Backend::Portal
    } else if is_text(session_type, "wayland") || match wayland_display {
        Some(name) => name.unicode_len() > 0,
        None => false,
    } {
        Backend::Portal
    } else {
        Backend::X11
    }
}

/// Whether the source is a screen or a window: only those wait for the system's picker.
pub fn is_screen(source: CaptureSource) -> (screen: bool)
    ensures
        screen == (source matches CaptureSource::PrimaryDisplay || source matches CaptureSource::Display(_)
            || source matches CaptureSource::Window(_)),
{
    match source {
        CaptureSource::PrimaryDisplay | CaptureSource::Display(_) | CaptureSource::Window(_) => true,
        _ => false,
    }
}

/// Whether the system's own picker chooses the screen: the session goes through the portal.
/// Takes what `UNKVOID_CAPTURE`, `XDG_SESSION_TYPE` and `WAYLAND_DISPLAY` hold.
pub fn uses_system_picker(forced: Option<&str>, session_type: Option<&str>, wayland_display: Option<&str>) -> (picker: bool)
    ensures
        picker == (spec_backend_for(forced, session_type, wayland_display) == Backend::Portal),
{
    backend_for(forced, session_type, wayland_display) == Backend::Portal
}

/// How the portal draws the cursor.
#[derive(Debug, Clone, Copy, PartialEq, Eq, Structural)]
pub enum CursorMode {
    Hidden,
    Embedded,
    Metadata,
}

/// The bit of each cursor mode in what the portal announces.
pub open spec fn cursor_bit(mode: CursorMode) -> u32 {
    match mode {
        CursorMode::Hidden => 1,
        CursorMode::Embedded => 2,
        CursorMode::Metadata => 4,
    }
}

/// The cursor inside the picture or out of it, if the portal knows how to do what is asked:
/// a mode it does not announce is refused and brings the session down. Saying nothing, the
/// portal hides the cursor.
pub open spec fn spec_cursor_mode(available: u32, show_cursor: bool) -> Option<CursorMode> {
    let wanted = if show_cursor { CursorMode::Embedded } else { CursorMode::Hidden };
    if available & cursor_bit(wanted) != 0 { Some(wanted) } else { None }
}

pub fn cursor_mode(available: u32, show_cursor: bool) -> (mode: Option<CursorMode>)
    ensures
        mode == spec_cursor_mode(available, show_cursor),
{
    let (wanted, bit): (CursorMode, u32) = if show_cursor { (CursorMode::Embedded, 2) } else { (CursorMode::Hidden, 1) };

    if available & bit != 0 { Some(wanted) } else { None }
}

/// The source types of the portal, as bits: monitor, window, virtual.
pub const MONITOR_SOURCE: u32 = 1;

pub const WINDOW_SOURCE: u32 = 2;

pub const VIRTUAL_SOURCE: u32 = 4;

/// Monitor and window, less what this portal does not announce; when it announces neither,
/// both are asked for.
pub open spec fn spec_source_types(available: u32) -> u32 {
    let offered = 3u32 & available;
    if offered == 0 { 3u32 } else { offered }
}

pub fn source_types(available: u32) -> (types: u32)
    ensures
        types == spec_source_types(available),
{
    let wanted: u32 = MONITOR_SOURCE | WINDOW_SOURCE;
    let offered = wanted & available;

    proof {
        assert(wanted == 3u32) by (bit_vector)
            requires
                wanted == (1u32 | 2u32),
        ;
    }

    if offered == 0 { wanted } else { offered }
}

/// What a failure of the portal is for the interface: closing the picker is no defect;
/// anything else is a failure of the platform, told with what the portal said.
pub fn portal_error(cancelled: bool, detail: &str) -> (error: crate::capture::CaptureError)
    ensures
        cancelled ==> error == crate::capture::CaptureError::Cancelled,
        !cancelled ==> (error matches crate::capture::CaptureError::Platform(message) && message@
            == "o portal de captura de tela falhou ("@ + detail@
            + "); confira o xdg-desktop-portal e o backend do seu ambiente"@),
{
    if cancelled {
        return crate::capture::CaptureError::Cancelled;
    }

    let mut message = String::from_str("o portal de captura de tela falhou (");
    message.append(detail);
    message.append("); confira o xdg-desktop-portal e o backend do seu ambiente");
    crate::capture::CaptureError::Platform(message)
}

/// A monitor as `xrandr` describes it: size and position inside the X screen.
#[derive(Debug, Clone, Copy, PartialEq, Eq, Structural)]
pub struct Monitor {
    pub width: u32,
    pub height: u32,
    pub x: u32,
    pub y: u32,
}

/// The crop for `ximagesrc`; the edges are inclusive.
pub open spec fn spec_area(monitor: Monitor) -> Seq<char> {
    "startx="@ + spec_decimal(monitor.x as nat) + " starty="@ + spec_decimal(monitor.y as nat) + " endx="@
        + spec_decimal((monitor.x + monitor.width - 1) as nat) + " endy="@ + spec_decimal(
        (monitor.y + monitor.height - 1) as nat,
    )
}

impl Monitor {
    /// The crop for `ximagesrc`. The edges are inclusive.
    pub fn area(self) -> (area: String)
        requires
            self.width >= 1,
            self.height >= 1,
            self.x + self.width - 1 <= u32::MAX,
            self.y + self.height - 1 <= u32::MAX,
        ensures
            area@ == spec_area(self),
    {
        let mut area = String::from_str("startx=");
        area.append(decimal(self.x as u64).as_str());
        area.append(" starty=");
        area.append(decimal(self.y as u64).as_str());
        area.append(" endx=");
        area.append(decimal(self.x as u64 + self.width as u64 - 1).as_str());
        area.append(" endy=");
        area.append(decimal(self.y as u64 + self.height as u64 - 1).as_str());
        area
    }
}

/// The monitor a choice of the picker means, among the monitors listed, the primary first.
/// `None` is the whole X screen.
pub open spec fn spec_region(source: CaptureSource, monitors: Seq<Monitor>) -> Option<Monitor> {
    match source {
        CaptureSource::Display(id) => if 1 <= id && id - 1 < monitors.len() { Some(monitors[id - 1]) } else { None },
        CaptureSource::PrimaryDisplay => if monitors.len() > 0 { Some(monitors[0]) } else { None },
        _ => None,
    }
}

pub fn region(source: CaptureSource, monitors: &[Monitor]) -> (chosen: Option<Monitor>)
    ensures
        chosen == spec_region(source, monitors@),
{
    match source {
        CaptureSource::Display(id) => {
            if id >= 1 && ((id - 1) as usize) < monitors.len() {
                Some(monitors[(id - 1) as usize])
            } else {
                None
            }
        },
        CaptureSource::PrimaryDisplay => {
            if monitors.len() > 0 {
                Some(monitors[0])
            } else {
                None
            }
        },
        _ => None,
    }
}

pub open spec fn spec_bool_text(value: bool) -> Seq<char> {
    if value { "true"@ } else { "false"@ }
}

pub open spec fn spec_x11_source(show_cursor: bool, region: Option<Monitor>) -> Seq<char> {
    "ximagesrc use-damage=false show-pointer="@ + spec_bool_text(show_cursor) + " "@ + match region {
        Some(monitor) => spec_area(monitor),
        None => Seq::empty(),
    }
}

pub open spec fn area_fits(monitor: Monitor) -> bool {
    monitor.width >= 1 && monitor.height >= 1 && monitor.x + monitor.width - 1 <= u32::MAX && monitor.y + monitor.height
        - 1 <= u32::MAX
}

/// Whether a monitor's crop fits in the X screen's coordinates: a size of at least one
/// pixel, and the far edges within 32 bits.
pub fn area_fits_monitor(monitor: Monitor) -> (fits: bool)
    ensures
        fits == area_fits(monitor),
{
    monitor.width >= 1 && monitor.height >= 1 && monitor.x as u64 + monitor.width as u64 - 1 <= u32::MAX as u64
        && monitor.y as u64 + monitor.height as u64 - 1 <= u32::MAX as u64
}

/// The X11 source of the screen pipeline.
pub fn x11_source(show_cursor: bool, region: Option<Monitor>) -> (source: String)
    requires
        region matches Some(monitor) ==> area_fits(monitor),
    ensures
        source@ == spec_x11_source(show_cursor, region),
{
    let mut source = String::from_str("ximagesrc use-damage=false show-pointer=");
    source.append(if show_cursor { "true" } else { "false" });
    source.append(" ");
    if let Some(monitor) = region {
        source.append(monitor.area().as_str());
    }
    proof {
        if region is None {
            assert(source@ =~= spec_x11_source(show_cursor, region));
        }
    }
    source
}

pub open spec fn spec_portal_source(node: u32, frame_rate: u32) -> Seq<char> {
    "pipewiresrc fd=0 path="@ + spec_decimal(node as nat) + " do-timestamp=true keepalive-time="@ + spec_decimal(
        (1000int / if frame_rate >= 1 { frame_rate as int } else { 1int }) as nat,
    ) + " ! videorate"@
}

/// A still screen on PipeWire produces no buffer: `keepalive-time` resends the last frame
/// once per frame interval and `videorate` fixes the cadence.
pub fn portal_source(node: u32, frame_rate: u32) -> (source: String)
    ensures
        source@ == spec_portal_source(node, frame_rate),
{
    let rate: u32 = if frame_rate >= 1 { frame_rate } else { 1 };
    let mut source = String::from_str("pipewiresrc fd=0 path=");
    source.append(decimal(node as u64).as_str());
    source.append(" do-timestamp=true keepalive-time=");
    source.append(decimal((1000 / rate) as u64).as_str());
    source.append(" ! videorate");
    source
}

pub open spec fn spec_screen_pipeline(source: Seq<char>, frame_rate: u32, width: u32, format: Seq<char>, encoder: Seq<char>) -> Seq<char> {
    source + " ! video/x-raw,framerate="@ + spec_decimal(frame_rate as nat)
        + "/1 ! videoconvert ! videoscale ! video/x-raw,format="@ + format
        + ",colorimetry=bt709,width="@ + spec_decimal(width as nat) + ",pixel-aspect-ratio=1/1 ! "@ + encoder
}

/// From the source to the pipe. Only the width is fixed: the height follows the proportion
/// of whatever arrives.
pub fn screen_pipeline(source: &str, frame_rate: u32, width: u32, format: &str, encoder: &str) -> (pipeline: String)
    ensures
        pipeline@ == spec_screen_pipeline(source@, frame_rate, width, format@, encoder@),
{
    let mut pipeline = String::from_str(source);
    pipeline.append(" ! video/x-raw,framerate=");
    pipeline.append(decimal(frame_rate as u64).as_str());
    pipeline.append("/1 ! videoconvert ! videoscale ! video/x-raw,format=");
    pipeline.append(format);
    pipeline.append(",colorimetry=bt709,width=");
    pipeline.append(decimal(width as u64).as_str());
    pipeline.append(",pixel-aspect-ratio=1/1 ! ");
    pipeline.append(encoder);
    pipeline
}

/// The hardware H.264 encoders, in the order they are tried: NVIDIA, the new VA-API and
/// the old one.
pub fn hardware_h264_encoders() -> (encoders: Vec<&'static str>)
    ensures
        encoders.len() == 3,
        encoders@[0]@ == "nvh264enc"@,
        encoders@[1]@ == "vah264enc"@,
        encoders@[2]@ == "vaapih264enc"@,
{
    vec!["nvh264enc", "vah264enc", "vaapih264enc"]
}

pub open spec fn spec_encoder_head(element: Seq<char>, key_interval: u32, bitrate: u32) -> (Seq<char>, Seq<char>) {
    let k = spec_decimal(key_interval as nat);
    let b = spec_decimal(bitrate as nat);
    if element == "nvh264enc"@ {
        ("NV12"@, "nvh264enc preset=low-latency-hp zerolatency=true bframes=0 gop-size="@ + k + " bitrate="@ + b)
    } else if element == "vah264enc"@ {
        ("NV12"@, "vah264enc rate-control=cbr b-frames=0 cabac=false dct8x8=false key-int-max="@ + k + " bitrate="@ + b)
    } else if element == "vaapih264enc"@ {
        ("NV12"@, "vaapih264enc rate-control=cbr max-bframes=0 keyframe-period="@ + k + " bitrate="@ + b)
    } else {
        (
            "I420"@,
            "x264enc tune=zerolatency speed-preset=ultrafast byte-stream=true aud=true key-int-max="@ + k
                + " bitrate="@ + b + " vbv-buf-capacity=100 threads=0"@,
        )
    }
}

pub open spec fn spec_encoder_tail(element: Seq<char>, key_interval: u32, bitrate: u32) -> (Seq<char>, Seq<char>) {
    let (format, head) = spec_encoder_head(element, key_interval, bitrate);
    (
        format,
        head + " ! h264parse config-interval=-1 ! video/x-h264,stream-format=byte-stream,alignment=au,profile=constrained-baseline ! fdsink fd=1 sync=false"@,
    )
}

/// The raw format an encoder wants and its pipeline down to the pipe. All end the same:
/// constrained-baseline byte-stream, an AUD between frames and SPS/PPS before each IDR.
pub fn encoder_tail(element: &str, key_interval: u32, bitrate: u32) -> (tail: (&'static str, String))
    ensures
        tail.0@ == spec_encoder_tail(element@, key_interval, bitrate).0,
        tail.1@ == spec_encoder_tail(element@, key_interval, bitrate).1,
{
    let k = decimal(key_interval as u64);
    let b = decimal(bitrate as u64);
    let (format, mut encoder) = if crate::models::same_text(element, "nvh264enc") {
        let mut encoder = String::from_str("nvh264enc preset=low-latency-hp zerolatency=true bframes=0 gop-size=");
        encoder.append(k.as_str());
        encoder.append(" bitrate=");
        encoder.append(b.as_str());
        ("NV12", encoder)
    } else if crate::models::same_text(element, "vah264enc") {
        let mut encoder = String::from_str("vah264enc rate-control=cbr b-frames=0 cabac=false dct8x8=false key-int-max=");
        encoder.append(k.as_str());
        encoder.append(" bitrate=");
        encoder.append(b.as_str());
        ("NV12", encoder)
    } else if crate::models::same_text(element, "vaapih264enc") {
        let mut encoder = String::from_str("vaapih264enc rate-control=cbr max-bframes=0 keyframe-period=");
        encoder.append(k.as_str());
        encoder.append(" bitrate=");
        encoder.append(b.as_str());
        ("NV12", encoder)
    } else {
        let mut encoder = String::from_str(
            "x264enc tune=zerolatency speed-preset=ultrafast byte-stream=true aud=true key-int-max=",
        );
        encoder.append(k.as_str());
        encoder.append(" bitrate=");
        encoder.append(b.as_str());
        encoder.append(" vbv-buf-capacity=100 threads=0");
        ("I420", encoder)
    };

    encoder.append(
        " ! h264parse config-interval=-1 ! video/x-h264,stream-format=byte-stream,alignment=au,profile=constrained-baseline ! fdsink fd=1 sync=false",
    );

    (format, encoder)
}

/// The end of every audio pipeline: 48 kHz stereo in `f32`, as the audio encoder wants.
pub open spec fn spec_audio_tail() -> Seq<char> {
    "audioconvert ! audioresample ! audio/x-raw,format=F32LE,rate=48000,channels=2,layout=interleaved ! fdsink fd=1 sync=false"@
}

pub open spec fn spec_microphone_pipeline(has_webrtcdsp: bool) -> Seq<char> {
    "pulsesrc device=@DEFAULT_SOURCE@ "@ + (if has_webrtcdsp {
        "! audioconvert ! audio/x-raw,format=S16LE,rate=48000,channels=2,layout=interleaved ! webrtcdsp echo-cancel=true noise-suppression=true gain-control=true "@
    } else {
        Seq::empty()
    }) + "! "@ + spec_audio_tail()
}

/// The default microphone, cleaned by `webrtcdsp` when the distribution has it.
pub fn microphone_pipeline(has_webrtcdsp: bool) -> (pipeline: String)
    ensures
        pipeline@ == spec_microphone_pipeline(has_webrtcdsp),
{
    let mut pipeline = String::from_str("pulsesrc device=@DEFAULT_SOURCE@ ");
    if has_webrtcdsp {
        pipeline.append(
            "! audioconvert ! audio/x-raw,format=S16LE,rate=48000,channels=2,layout=interleaved ! webrtcdsp echo-cancel=true noise-suppression=true gain-control=true ",
        );
    }
    pipeline.append("! ");
    pipeline.append(
        "audioconvert ! audioresample ! audio/x-raw,format=F32LE,rate=48000,channels=2,layout=interleaved ! fdsink fd=1 sync=false",
    );
    proof {
        if !has_webrtcdsp {
            assert(pipeline@ =~= spec_microphone_pipeline(has_webrtcdsp));
        }
    }
    pipeline
}

pub open spec fn spec_camera_pipeline(index: u32, element: Seq<char>) -> Seq<char> {
    let (format, encoder) = spec_encoder_tail(element, 30, 800);
    "v4l2src device=/dev/video"@ + spec_decimal(index as nat)
        + " ! videoconvert ! videoscale ! videorate ! video/x-raw,format="@ + format
        + ",colorimetry=bt709,width=640,height=360,framerate=30/1 ! "@ + encoder
}

/// The screen's encoder, but at 640x360, 30 fps and 800 kbit/s: a small card needs no
/// more.
pub fn camera_pipeline(index: u32, element: &str) -> (pipeline: String)
    ensures
        pipeline@ == spec_camera_pipeline(index, element@),
{
    let (format, encoder) = encoder_tail(element, 30, 800);
    let mut pipeline = String::from_str("v4l2src device=/dev/video");
    pipeline.append(decimal(index as u64).as_str());
    pipeline.append(" ! videoconvert ! videoscale ! videorate ! video/x-raw,format=");
    pipeline.append(format);
    pipeline.append(",colorimetry=bt709,width=640,height=360,framerate=30/1 ! ");
    pipeline.append(encoder.as_str());
    pipeline
}

/// The frame rate of a screen capture: between one and sixty.
pub open spec fn spec_capture_frame_rate(frame_rate: u32) -> u32 {
    if frame_rate < 1 { 1 } else if frame_rate > 60 { 60 } else { frame_rate }
}

pub open spec fn spec_capture_bitrate(quality: Quality, frame_rate: u32) -> u32 {
    let ceiling: int = match quality {
        Quality::Hd720 => 5_000,
        Quality::Hd1080 => 10_000,
        Quality::Qhd1440 => 20_000,
        Quality::Uhd2160 => 40_000,
    };
    (ceiling * spec_capture_frame_rate(frame_rate) / 60) as u32
}

/// The bitrate of the screen encoder, in kbit/s: the same ceilings as the other systems'
/// encoders, in proportion to the frames sent.
pub fn capture_bitrate(quality: Quality, frame_rate: u32) -> (kbps: u32)
    ensures
        kbps == spec_capture_bitrate(quality, frame_rate),
{
    let rate: u32 = if frame_rate < 1 { 1 } else if frame_rate > 60 { 60 } else { frame_rate };
    let ceiling: u32 = match quality {
        Quality::Hd720 => 5_000,
        Quality::Hd1080 => 10_000,
        Quality::Qhd1440 => 20_000,
        Quality::Uhd2160 => 40_000,
    };
    ceiling * rate / 60
}


/// The word that describes a monitor's geometry: `WxH+X+Y`.
pub open spec fn first_geometry(words: Seq<Seq<char>>) -> Option<Seq<char>>
    decreases words.len(),
{
    if words.len() == 0 {
        None
    } else if index_of(words[0], 'x') >= 0 && count_char(words[0], '+') == 2 {
        Some(words[0])
    } else {
        first_geometry(words.drop_first())
    }
}

/// A connected output of `xrandr --current`, and whether it is the primary one.
pub open spec fn spec_monitor_line(line: Seq<char>) -> Option<(bool, Monitor)> {
    if !spec_contains(line, " connected "@) {
        None
    } else {
        let primary = spec_contains(line, " primary "@);
        match first_geometry(spec_words(line)) {
            None => None,
            Some(geometry) => match spec_split_once(geometry, '+') {
                None => None,
                Some((size, offset)) => match spec_split_once(size, 'x') {
                    None => None,
                    Some((width, height)) => match spec_split_once(offset, '+') {
                        None => None,
                        Some((x, y)) => match (
                            spec_parse_u32(width),
                            spec_parse_u32(height),
                            spec_parse_u32(x),
                            spec_parse_u32(y),
                        ) {
                            (Some(width), Some(height), Some(x), Some(y)) => Some(
                                (primary, Monitor { width, height, x, y }),
                            ),
                            _ => None,
                        },
                    },
                },
            },
        }
    }
}

/// The monitors the lines describe, in the order of the lines.
pub open spec fn found_monitors(lines: Seq<Seq<char>>) -> Seq<(bool, Monitor)>
    decreases lines.len(),
{
    if lines.len() == 0 {
        Seq::empty()
    } else {
        let rest = found_monitors(lines.drop_last());
        match spec_monitor_line(lines.last()) {
            Some(found) => rest.push(found),
            None => rest,
        }
    }
}

/// The monitors with the given primary flag, in order.
pub open spec fn monitors_flagged(found: Seq<(bool, Monitor)>, primary: bool) -> Seq<Monitor>
    decreases found.len(),
{
    if found.len() == 0 {
        Seq::empty()
    } else {
        let rest = monitors_flagged(found.drop_last(), primary);
        if found.last().0 == primary { rest.push(found.last().1) } else { rest }
    }
}

/// The connected monitors of an `xrandr --current` listing, the primary first and the
/// others in the order listed.
pub open spec fn spec_parse_monitors(xrandr: Seq<char>) -> Seq<Monitor> {
    let found = found_monitors(spec_lines(xrandr));
    monitors_flagged(found, true) + monitors_flagged(found, false)
}

fn geometry_of(words: &Vec<Vec<char>>) -> (geometry: Option<usize>)
    ensures
        match first_geometry(seq_views(words@)) {
            Some(word) => geometry matches Some(i) && i < words.len() && words@[i as int]@ == word,
            None => geometry is None,
        },
{
    let mut index: usize = 0;

    proof {
        assert(seq_views(words@).skip(0) =~= seq_views(words@));
    }

    while index < words.len()
        invariant
            index <= words.len(),
            first_geometry(seq_views(words@)) == first_geometry(seq_views(words@).skip(index as int)),
        decreases words.len() - index,
    {
        let word = &words[index];
        let has_x = find_char(word.as_slice(), 0, 'x');

        proof {
            let rest = seq_views(words@).skip(index as int);
            assert(rest[0] == word@);
            assert(rest.drop_first() =~= seq_views(words@).skip(index + 1));
            match has_x {
                Some(i) => lemma_index_of_is(word@, 'x', i as int),
                None => lemma_index_of_is(word@, 'x', -1),
            }
        }

        if has_x.is_some() && count_of(word.as_slice(), '+') == 2 {
            return Some(index);
        }
        index = index + 1;
    }

    proof {
        assert(seq_views(words@).skip(index as int) =~= Seq::<Seq<char>>::empty());
    }

    None
}

fn monitor_line(line: &[char], connected: &[char], primary_mark: &[char]) -> (found: Option<(bool, Monitor)>)
    requires
        connected@ == " connected "@,
        primary_mark@ == " primary "@,
    ensures
        found == spec_monitor_line(line@),
{
    if !contains_chars(line, connected) {
        return None;
    }

    let primary = contains_chars(line, primary_mark);
    let words = words_of(line);
    let index = match geometry_of(&words) {
        Some(index) => index,
        None => return None,
    };
    let geometry = &words[index];
    let (size, offset) = match split_once_char(geometry.as_slice(), '+') {
        Some(parts) => parts,
        None => return None,
    };
    let (width, height) = match split_once_char(size.as_slice(), 'x') {
        Some(parts) => parts,
        None => return None,
    };
    let (x, y) = match split_once_char(offset.as_slice(), '+') {
        Some(parts) => parts,
        None => return None,
    };

    match (parse_u32(width.as_slice()), parse_u32(height.as_slice()), parse_u32(x.as_slice()), parse_u32(y.as_slice())) {
        (Some(width), Some(height), Some(x), Some(y)) => Some((primary, Monitor { width, height, x, y })),
        _ => None,
    }
}

/// The connected monitors, the primary first. Two monitors are ONE screen for X; without
/// this the capture would send both side by side, squeezed into 16:9.
pub fn parse_monitors(xrandr: &str) -> (monitors: Vec<Monitor>)
    ensures
        monitors@ == spec_parse_monitors(xrandr@),
{
    let text = chars_of(xrandr);
    let lines = lines_of(text.as_slice());
    let connected = chars_of(" connected ");
    let primary_mark = chars_of(" primary ");
    let mut found: Vec<(bool, Monitor)> = Vec::new();
    let mut index: usize = 0;

    while index < lines.len()
        invariant
            index <= lines.len(),
            connected@ == " connected "@,
            primary_mark@ == " primary "@,
            found@ == found_monitors(seq_views(lines@).take(index as int)),
        decreases lines.len() - index,
    {
        let line = monitor_line(lines[index].as_slice(), connected.as_slice(), primary_mark.as_slice());

        proof {
            assert(seq_views(lines@).take(index + 1).drop_last() =~= seq_views(lines@).take(index as int));
            assert(seq_views(lines@).take(index + 1).last() == lines@[index as int]@);
        }

        if let Some(monitor) = line {
            found.push(monitor);
        }
        index = index + 1;
    }

    proof {
        assert(seq_views(lines@).take(index as int) =~= seq_views(lines@));
    }

    let mut monitors = flagged(&found, true);
    let mut others = flagged(&found, false);

    monitors.append(&mut others);

    monitors
}

fn flagged(found: &Vec<(bool, Monitor)>, primary: bool) -> (monitors: Vec<Monitor>)
    ensures
        monitors@ == monitors_flagged(found@, primary),
{
    let mut monitors: Vec<Monitor> = Vec::new();
    let mut index: usize = 0;

    while index < found.len()
        invariant
            index <= found.len(),
            monitors@ == monitors_flagged(found@.take(index as int), primary),
        decreases found.len() - index,
    {
        proof {
            assert(found@.take(index + 1).drop_last() =~= found@.take(index as int));
        }
        if found[index].0 == primary {
            monitors.push(found[index].1);
        }
        index = index + 1;
    }

    proof {
        assert(found@.take(index as int) =~= found@);
    }

    monitors
}

/// A size written `WxH`, with white space allowed around it and around each number.
pub open spec fn spec_pair(numbers: Seq<char>) -> Option<(u32, u32)> {
    match spec_split_once(spec_trim(numbers), 'x') {
        Some((width, height)) => match (spec_parse_u32(spec_trim(width)), spec_parse_u32(spec_trim(height))) {
            (Some(width), Some(height)) => Some((width, height)),
            _ => None,
        },
        None => None,
    }
}

fn pair(numbers: &[char]) -> (size: Option<(u32, u32)>)
    ensures
        size == spec_pair(numbers@),
{
    let trimmed = trim_chars(numbers);
    let (width, height) = match split_once_char(trimmed.as_slice(), 'x') {
        Some(parts) => parts,
        None => return None,
    };
    let width = trim_chars(width.as_slice());
    let height = trim_chars(height.as_slice());

    match (parse_u32(width.as_slice()), parse_u32(height.as_slice())) {
        (Some(width), Some(height)) => Some((width, height)),
        _ => None,
    }
}

/// Whether `line`, past its leading white space, begins with `prefix`.
fn begins_after_space(line: &[char], prefix: &[char]) -> (begins: bool)
    ensures
        begins == has_prefix(trim_start(line@), prefix@),
{
    let mut start: usize = 0;

    proof {
        assert(line@.skip(0) =~= line@);
    }

    while start < line.len() && whitespace(line[start])
        invariant
            start <= line.len(),
            trim_start(line@) == trim_start(line@.skip(start as int)),
        decreases line.len() - start,
    {
        proof {
            assert(line@.skip(start as int).drop_first() =~= line@.skip(start + 1));
        }
        start = start + 1;
    }

    proof {
        assert(line@.skip(start as int) =~= line@.subrange(start as int, line.len() as int));
    }

    let rest = slice_of(line, start, line.len());

    starts_with(rest.as_slice(), prefix)
}

/// The line of `xdpyinfo` that gives the screen's size.
pub open spec fn is_dimensions_line(line: Seq<char>) -> bool {
    has_prefix(trim_start(line), "dimensions:"@)
}

pub open spec fn first_dimensions_line(lines: Seq<Seq<char>>) -> Option<Seq<char>>
    decreases lines.len(),
{
    if lines.len() == 0 {
        None
    } else if is_dimensions_line(lines[0]) {
        Some(lines[0])
    } else {
        first_dimensions_line(lines.drop_first())
    }
}

/// The X screen's size in the output of `xdpyinfo`: the second word of the first
/// `dimensions:` line, written `WxH`.
pub open spec fn spec_size_in_xdpyinfo(output: Seq<char>) -> Option<(u32, u32)> {
    match first_dimensions_line(spec_lines(output)) {
        Some(line) => {
            let words = spec_words(line);
            if words.len() >= 2 {
                spec_pair(words[1])
            } else {
                None
            }
        },
        None => None,
    }
}

pub fn size_in_xdpyinfo(output: &str) -> (size: Option<(u32, u32)>)
    ensures
        size == spec_size_in_xdpyinfo(output@),
{
    let text = chars_of(output);
    let lines = lines_of(text.as_slice());
    let prefix = chars_of("dimensions:");
    let mut index: usize = 0;

    proof {
        assert(seq_views(lines@).skip(0) =~= seq_views(lines@));
    }

    while index < lines.len()
        invariant
            index <= lines.len(),
            prefix@ == "dimensions:"@,
            seq_views(lines@) == spec_lines(output@),
            first_dimensions_line(spec_lines(output@)) == first_dimensions_line(seq_views(lines@).skip(index as int)),
        decreases lines.len() - index,
    {
        proof {
            let rest = seq_views(lines@).skip(index as int);
            assert(rest[0] == lines@[index as int]@);
            assert(rest.drop_first() =~= seq_views(lines@).skip(index + 1));
        }

        if begins_after_space(lines[index].as_slice(), prefix.as_slice()) {
            let words = words_of(lines[index].as_slice());

            if words.len() < 2 {
                return None;
            }

            proof {
                assert(seq_views(words@)[1] == words@[1]@);
            }

            return pair(words[1].as_slice());
        }
        index = index + 1;
    }

    proof {
        assert(seq_views(lines@).skip(index as int) =~= Seq::<Seq<char>>::empty());
    }

    None
}

/// `s` without its spaces, as `replace(' ', "")`.
pub open spec fn without_spaces(s: Seq<char>) -> Seq<char>
    decreases s.len(),
{
    if s.len() == 0 {
        s
    } else if s.last() == ' ' {
        without_spaces(s.drop_last())
    } else {
        without_spaces(s.drop_last()).push(s.last())
    }
}

fn remove_spaces(s: &[char]) -> (kept: Vec<char>)
    ensures
        kept@ == without_spaces(s@),
{
    let mut kept: Vec<char> = Vec::new();
    let mut index: usize = 0;

    while index < s.len()
        invariant
            index <= s.len(),
            kept@ == without_spaces(s@.take(index as int)),
        decreases s.len() - index,
    {
        proof {
            assert(s@.take(index + 1).drop_last() =~= s@.take(index as int));
        }
        if s[index] != ' ' {
            kept.push(s[index]);
        }
        index = index + 1;
    }

    proof {
        assert(s@.take(index as int) =~= s@);
    }

    kept
}

pub open spec fn first_current_line(lines: Seq<Seq<char>>) -> Option<Seq<char>>
    decreases lines.len(),
{
    if lines.len() == 0 {
        None
    } else if spec_contains(lines[0], "current"@) {
        Some(lines[0])
    } else {
        first_current_line(lines.drop_first())
    }
}

/// The X screen's size in the output of `xrandr --current`: on the first line that says
/// `current`, what follows it up to the next comma, without spaces, written `WxH`.
pub open spec fn spec_size_in_xrandr(output: Seq<char>) -> Option<(u32, u32)> {
    match first_current_line(spec_lines(output)) {
        Some(line) => {
            let pieces = spec_split_text(line, "current"@);
            if pieces.len() >= 2 {
                let numbers = match spec_split_once(pieces[1], ',') {
                    Some((before, _)) => before,
                    None => pieces[1],
                };
                spec_pair(without_spaces(numbers))
            } else {
                None
            }
        },
        None => None,
    }
}

pub fn size_in_xrandr(output: &str) -> (size: Option<(u32, u32)>)
    ensures
        size == spec_size_in_xrandr(output@),
{
    let text = chars_of(output);
    let lines = lines_of(text.as_slice());
    let word = chars_of("current");
    let mut index: usize = 0;

    proof {
        reveal_strlit("current");
        assert(seq_views(lines@).skip(0) =~= seq_views(lines@));
    }

    while index < lines.len()
        invariant
            index <= lines.len(),
            word@ == "current"@,
            word@.len() > 0,
            seq_views(lines@) == spec_lines(output@),
            first_current_line(spec_lines(output@)) == first_current_line(seq_views(lines@).skip(index as int)),
        decreases lines.len() - index,
    {
        proof {
            let rest = seq_views(lines@).skip(index as int);
            assert(rest[0] == lines@[index as int]@);
            assert(rest.drop_first() =~= seq_views(lines@).skip(index + 1));
        }

        if contains_chars(lines[index].as_slice(), word.as_slice()) {
            let pieces = split_text(lines[index].as_slice(), word.as_slice());

            if pieces.len() < 2 {
                return None;
            }

            proof {
                assert(seq_views(pieces@)[1] == pieces@[1]@);
            }

            let numbers = match split_once_char(pieces[1].as_slice(), ',') {
                Some((before, _)) => before,
                None => slice_of(pieces[1].as_slice(), 0, pieces[1].len()),
            };

            proof {
                assert(pieces@[1]@.subrange(0, pieces@[1]@.len() as int) =~= pieces@[1]@);
            }

            let spaceless = remove_spaces(numbers.as_slice());

            return pair(spaceless.as_slice());
        }
        index = index + 1;
    }

    proof {
        assert(seq_views(lines@).skip(index as int) =~= Seq::<Seq<char>>::empty());
    }

    None
}

/// The size of the whole X screen: what `xdpyinfo` says, else what `xrandr` says. Without
/// either there is no number; the capture itself does not depend on it.
pub open spec fn spec_screen_size(xdpyinfo: Option<Seq<char>>, xrandr: Option<Seq<char>>) -> Option<(u32, u32)> {
    let first = match xdpyinfo {
        Some(output) => spec_size_in_xdpyinfo(output),
        None => None,
    };
    if first is Some {
        first
    } else {
        match xrandr {
            Some(output) => spec_size_in_xrandr(output),
            None => None,
        }
    }
}

pub open spec fn text_view(text: Option<&str>) -> Option<Seq<char>> {
    match text {
        Some(text) => Some(text@),
        None => None,
    }
}

pub fn screen_size(xdpyinfo: Option<&str>, xrandr: Option<&str>) -> (size: Option<(u32, u32)>)
    ensures
        size == spec_screen_size(text_view(xdpyinfo), text_view(xrandr)),
{
    if let Some(output) = xdpyinfo {
        let size = size_in_xdpyinfo(output);

        if size.is_some() {
            return size;
        }
    }

    match xrandr {
        Some(output) => size_in_xrandr(output),
        None => None,
    }
}

pub open spec fn display_view(display: crate::capture::Display) -> (u32, u32, u32) {
    (display.id, display.width, display.height)
}

pub open spec fn display_views(displays: Seq<crate::capture::Display>) -> Seq<(u32, u32, u32)> {
    displays.map_values(|display: crate::capture::Display| display_view(display))
}

/// The displays the app lists on Linux, as `(id, width, height)`. With the portal, one
/// item without a size: the real list is the system picker's, which opens only in
/// `prepare`. Without an X display, none. Without monitors from `xrandr`, the whole X
/// screen, which with two monitors is both side by side. Otherwise one per monitor, in the
/// order given (the primary first), numbered from one.
pub open spec fn spec_displays(portal: bool, has_display: bool, monitors: Seq<Monitor>, screen: Option<(u32, u32)>) -> Seq<(u32, u32, u32)> {
    if portal {
        seq![(1u32, 0u32, 0u32)]
    } else if !has_display {
        Seq::empty()
    } else if monitors.len() == 0 {
        match screen {
            Some((width, height)) => seq![(1u32, width, height)],
            None => seq![(1u32, 0u32, 0u32)],
        }
    } else {
        Seq::new(monitors.len(), |i: int| ((i + 1) as u32, monitors[i].width, monitors[i].height))
    }
}

pub fn displays_of(portal: bool, has_display: bool, monitors: &[Monitor], screen: Option<(u32, u32)>) -> (displays: Vec<crate::capture::Display>)
    requires
        monitors.len() < u32::MAX,
    ensures
        display_views(displays@) == spec_displays(portal, has_display, monitors@, screen),
{
    let mut displays: Vec<crate::capture::Display> = Vec::new();

    if portal {
        displays.push(crate::capture::Display { id: 1, width: 0, height: 0 });
        proof {
            assert(display_views(displays@) =~= spec_displays(portal, has_display, monitors@, screen));
        }
        return displays;
    }

    if !has_display {
        proof {
            assert(display_views(displays@) =~= spec_displays(portal, has_display, monitors@, screen));
        }
        return displays;
    }

    if monitors.len() == 0 {
        let (width, height) = match screen {
            Some(size) => size,
            None => (0, 0),
        };
        displays.push(crate::capture::Display { id: 1, width, height });
        proof {
            assert(display_views(displays@) =~= spec_displays(portal, has_display, monitors@, screen));
        }
        return displays;
    }

    let mut index: usize = 0;

    while index < monitors.len()
        invariant
            index <= monitors.len(),
            monitors.len() < u32::MAX,
            display_views(displays@) =~= Seq::new(
                index as nat,
                |i: int| ((i + 1) as u32, monitors@[i].width, monitors@[i].height),
            ),
        decreases monitors.len() - index,
    {
        let display = crate::capture::Display {
            id: (index as u32) + 1,
            width: monitors[index].width,
            height: monitors[index].height,
        };
        let ghost before = displays@;

        displays.push(display);
        proof {
            assert(display_views(displays@) =~= display_views(before).push(display_view(display)));
            assert(display_view(display) == ((index + 1) as u32, monitors@[index as int].width, monitors@[index as int].height));
        }
        index = index + 1;
        proof {
            assert(display_views(displays@) =~= Seq::new(
                index as nat,
                |i: int| ((i + 1) as u32, monitors@[i].width, monitors@[i].height),
            ));
        }
    }

    proof {
        assert(display_views(displays@) =~= spec_displays(portal, has_display, monitors@, screen));
    }

    displays
}

/// The size of what is captured, so that the output keeps its proportion: the camera's
/// fixed size, nothing for the microphone, with the portal the size of what the person
/// chose in `prepare`, and on X11 the monitor's or else the whole screen's.
pub open spec fn spec_source_size(
    source: CaptureSource,
    portal: bool,
    chosen: Option<(u32, u32)>,
    region: Option<Monitor>,
    screen: Option<(u32, u32)>,
) -> Option<(u32, u32)> {
    match source {
        CaptureSource::Camera(_) => Some(CAMERA_SIZE),
        CaptureSource::Microphone => Some((0u32, 0u32)),
        _ => if portal {
            chosen
        } else {
            match region {
                Some(monitor) => Some((monitor.width, monitor.height)),
                None => screen,
            }
        },
    }
}

pub fn source_size(
    source: CaptureSource,
    portal: bool,
    chosen: Option<(u32, u32)>,
    region: Option<Monitor>,
    screen: Option<(u32, u32)>,
) -> (size: Result<(u32, u32), crate::capture::CaptureError>)
    ensures
        match spec_source_size(source, portal, chosen, region, screen) {
            Some(wanted) => size == Ok::<(u32, u32), crate::capture::CaptureError>(wanted),
            None => if portal {
                size matches Err(crate::capture::CaptureError::Platform(message)) && message@
                    == "no Wayland a tela é escolhida no `prepare`, antes de ligar a captura"@
            } else {
                size == Err::<(u32, u32), crate::capture::CaptureError>(crate::capture::CaptureError::NoDisplay)
            },
        },
{
    match source {
        CaptureSource::Camera(_) => Ok(CAMERA_SIZE),
        CaptureSource::Microphone => Ok((0, 0)),
        _ => {
            if portal {
                match chosen {
                    Some(size) => Ok(size),
                    None => Err(
                        crate::capture::CaptureError::Platform(
                            String::from_str("no Wayland a tela é escolhida no `prepare`, antes de ligar a captura"),
                        ),
                    ),
                }
            } else {
                match region {
                    Some(monitor) => Ok((monitor.width, monitor.height)),
                    None => match screen {
                        Some(size) => Ok(size),
                        None => Err(crate::capture::CaptureError::NoDisplay),
                    },
                }
            }
        },
    }
}

/// The whole system's sound: the monitor of the default output. Filtering by app does not
/// happen here; the shared sink does it.
pub open spec fn spec_system_sound_pipeline() -> Seq<char> {
    "pulsesrc device=@DEFAULT_MONITOR@ ! "@ + spec_audio_tail()
}

pub fn system_sound_pipeline() -> (pipeline: String)
    ensures
        pipeline@ == spec_system_sound_pipeline(),
{
    let mut pipeline = String::from_str("pulsesrc device=@DEFAULT_MONITOR@ ! ");
    pipeline.append(
        "audioconvert ! audioresample ! audio/x-raw,format=F32LE,rate=48000,channels=2,layout=interleaved ! fdsink fd=1 sync=false",
    );
    pipeline
}

/// What a capture launches: the pipelines of its processes and the size of its frames.
pub enum CapturePlan {
    /// Only sound, with the same shape as the screen so the app does not tell them apart.
    Microphone { audio: String },
    /// Only video, small, already in H.264 like the screen.
    Camera { video: String, size: (u32, u32) },
    /// The screen, and the system's sound when it was asked for. `from_portal` is whether
    /// the PipeWire descriptor goes in as the child's standard input.
    Screen { video: String, size: (u32, u32), audio: Option<String>, from_portal: bool },
}

pub enum PlanView {
    Microphone { audio: Seq<char> },
    Camera { video: Seq<char>, size: (u32, u32) },
    Screen { video: Seq<char>, size: (u32, u32), audio: Option<Seq<char>>, from_portal: bool },
}

impl View for CapturePlan {
    type V = PlanView;

    open spec fn view(&self) -> PlanView {
        match *self {
            CapturePlan::Microphone { audio } => PlanView::Microphone { audio: audio@ },
            CapturePlan::Camera { video, size } => PlanView::Camera { video: video@, size },
            CapturePlan::Screen { video, size, audio, from_portal } => PlanView::Screen {
                video: video@,
                size,
                audio: match audio {
                    Some(audio) => Some(audio@),
                    None => None,
                },
                from_portal,
            },
        }
    }
}

/// The screen as a capture launches it, from the size of its source.
pub open spec fn spec_screen_plan(
    config: crate::capture::CaptureConfig,
    portal: Option<(u32, (u32, u32))>,
    region: Option<Monitor>,
    source_size: (u32, u32),
    encoder: Seq<char>,
) -> PlanView {
    let size = crate::capture::spec_fit(config.quality, source_size);
    let frame_rate = spec_capture_frame_rate(config.frame_rate);
    let (format, tail) = spec_encoder_tail(encoder, frame_rate, spec_capture_bitrate(config.quality, config.frame_rate));
    let source = match portal {
        Some((node, _)) => spec_portal_source(node, frame_rate),
        None => spec_x11_source(config.show_cursor, region),
    };
    PlanView::Screen {
        video: spec_screen_pipeline(source, frame_rate, size.0, format, tail),
        size,
        audio: if config.capture_audio { Some(spec_system_sound_pipeline()) } else { None },
        from_portal: portal is Some,
    }
}

/// What a capture launches. The microphone and the camera have their own pipelines. The
/// screen comes from the portal's choice, which must have been made in `prepare`, or from
/// X11, which needs a display; its size is the source's fitted to the quality, its frame
/// rate between 1 and 60, and its bitrate the quality's ceiling in proportion to the frames.
/// `None` when nothing can be launched.
pub open spec fn spec_capture_plan(
    config: crate::capture::CaptureConfig,
    backend: Backend,
    portal: Option<(u32, (u32, u32))>,
    has_display: bool,
    region: Option<Monitor>,
    screen: Option<(u32, u32)>,
    encoder: Seq<char>,
    has_webrtcdsp: bool,
) -> Option<PlanView> {
    match config.source {
        CaptureSource::Microphone => Some(PlanView::Microphone { audio: spec_microphone_pipeline(has_webrtcdsp) }),
        CaptureSource::Camera(index) => Some(PlanView::Camera { video: spec_camera_pipeline(index, encoder), size: CAMERA_SIZE }),
        _ => if backend == Backend::Portal {
            match portal {
                Some((node, size)) => Some(spec_screen_plan(config, Some((node, size)), region, size, encoder)),
                None => None,
            }
        } else if !has_display {
            None
        } else {
            match spec_source_size(config.source, false, None, region, screen) {
                Some(size) => Some(spec_screen_plan(config, None, region, size, encoder)),
                None => None,
            }
        },
    }
}

/// The screen through the portal before the person chose anything in `prepare`.
pub open spec fn unprepared(config: crate::capture::CaptureConfig, backend: Backend, portal: Option<(u32, (u32, u32))>) -> bool {
    is_screen_source(config.source) && backend == Backend::Portal && portal is None
}

pub open spec fn is_screen_source(source: CaptureSource) -> bool {
    !(source is Microphone) && !(source is Camera)
}

pub fn capture_plan(
    config: crate::capture::CaptureConfig,
    backend: Backend,
    portal: Option<(u32, (u32, u32))>,
    has_display: bool,
    region: Option<Monitor>,
    screen: Option<(u32, u32)>,
    encoder: &str,
    has_webrtcdsp: bool,
) -> (plan: Result<CapturePlan, crate::capture::CaptureError>)
    requires
        region matches Some(monitor) ==> area_fits(monitor),
    ensures
        match spec_capture_plan(config, backend, portal, has_display, region, screen, encoder@, has_webrtcdsp) {
            Some(view) => plan matches Ok(p) && p@ == view,
            None => if unprepared(config, backend, portal) {
                plan matches Err(crate::capture::CaptureError::Platform(message)) && message@
                    == "no Wayland a tela é escolhida no `prepare`, antes de ligar a captura"@
            } else {
                plan == Err::<CapturePlan, crate::capture::CaptureError>(crate::capture::CaptureError::NoDisplay)
            },
        },
{
    match config.source {
        CaptureSource::Microphone => {
            return Ok(CapturePlan::Microphone { audio: microphone_pipeline(has_webrtcdsp) });
        },
        CaptureSource::Camera(index) => {
            return Ok(CapturePlan::Camera { video: camera_pipeline(index, encoder), size: CAMERA_SIZE });
        },
        _ => {},
    }

    let from_portal = backend == Backend::Portal;

    if from_portal && portal.is_none() {
        return Err(
            crate::capture::CaptureError::Platform(
                String::from_str("no Wayland a tela é escolhida no `prepare`, antes de ligar a captura"),
            ),
        );
    }

    if !from_portal && !has_display {
        return Err(crate::capture::CaptureError::NoDisplay);
    }

    let size_of_source = match portal {
        Some((_, size)) if from_portal => size,
        _ => match source_size(config.source, false, None, region, screen) {
            Ok(size) => size,
            Err(failure) => return Err(failure),
        },
    };
    let used_portal = if from_portal { portal } else { None };
    let size = config.quality.fit(size_of_source);
    let frame_rate: u32 = if config.frame_rate < 1 { 1 } else if config.frame_rate > 60 { 60 } else { config.frame_rate };
    let (format, tail) = encoder_tail(encoder, frame_rate, capture_bitrate(config.quality, config.frame_rate));
    let source = match used_portal {
        Some((node, _)) => portal_source(node, frame_rate),
        None => x11_source(config.show_cursor, region),
    };
    let video = screen_pipeline(source.as_str(), frame_rate, size.0, format, tail.as_str());
    let audio = if config.capture_audio { Some(system_sound_pipeline()) } else { None };

    Ok(CapturePlan::Screen { video, size, audio, from_portal })
}

/// The key a camera sorts by: its index, then its name.
pub open spec fn camera_key(index: u32, name: Seq<char>) -> Seq<i128> {
    seq![index as i128] + name.map_values(|c: char| c as u32 as i128)
}

/// Drops each entry whose name repeats the one kept before it.
pub open spec fn dedup_names(cameras: Seq<(u32, Seq<char>)>) -> Seq<(u32, Seq<char>)>
    decreases cameras.len(),
{
    if cameras.len() == 0 {
        Seq::empty()
    } else {
        let kept = dedup_names(cameras.drop_last());
        if kept.len() > 0 && kept.last().1 == cameras.last().1 { kept } else { kept.push(cameras.last()) }
    }
}

pub open spec fn camera_path(index: u32) -> Seq<char> {
    "/dev/video"@ + spec_decimal(index as nat)
}

pub open spec fn camera_views(found: Seq<(u32, String)>) -> Seq<(Seq<i128>, (u32, Seq<char>))> {
    found.map_values(|camera: (u32, String)| (camera_key(camera.0, camera.1@), (camera.0, camera.1@)))
}

/// The cameras in numeric order and one node per name, the lowest index: the uvcvideo
/// driver creates a metadata node beside the capture one, with the same name and the next
/// number.
pub open spec fn spec_dedupe_cameras(found: Seq<(u32, String)>) -> Seq<(Seq<char>, Seq<char>)> {
    dedup_names(values_of(spec_stable_sort(camera_views(found)))).map_values(
        |camera: (u32, Seq<char>)| (camera_path(camera.0), camera.1),
    )
}

pub open spec fn pair_views(pairs: Seq<(String, String)>) -> Seq<(Seq<char>, Seq<char>)> {
    pairs.map_values(|pair: (String, String)| (pair.0@, pair.1@))
}

fn name_key(index: u32, name: &String) -> (key: Vec<i128>)
    ensures
        key@ == camera_key(index, name@),
{
    let chars = chars_of(name.as_str());
    let mut key: Vec<i128> = vec![index as i128];
    let mut i: usize = 0;

    while i < chars.len()
        invariant
            i <= chars.len(),
            key@ == seq![index as i128] + chars@.take(i as int).map_values(|c: char| c as u32 as i128),
        decreases chars.len() - i,
    {
        key.push(chars[i] as u32 as i128);
        i = i + 1;
        proof {
            assert(chars@.take(i as int) =~= chars@.take(i - 1).push(chars@[i - 1]));
            assert(key@ =~= seq![index as i128] + chars@.take(i as int).map_values(|c: char| c as u32 as i128));
        }
    }

    proof {
        assert(chars@.take(i as int) =~= name@);
    }

    key
}

/// The cameras as `(path, name)`: numeric order, one node per name, the lowest index.
pub fn dedupe_cameras(found: Vec<(u32, String)>) -> (cameras: Vec<(String, String)>)
    ensures
        pair_views(cameras@) == spec_dedupe_cameras(found@),
{
    let ghost given = found@;
    let mut names: Vec<(Vec<i128>, (u32, String))> = Vec::new();
    let mut index: usize = 0;

    while index < found.len()
        invariant
            index <= found.len(),
            found@ == given,
            names.len() == index,
            forall|i: int| 0 <= i < index ==> (#[trigger] names@[i]).0@ == camera_key(given[i].0, given[i].1@)
                && names@[i].1.0 == given[i].0 && names@[i].1.1@ == given[i].1@,
        decreases found.len() - index,
    {
        let key = name_key(found[index].0, &found[index].1);
        names.push((key, (found[index].0, found[index].1.clone())));
        index = index + 1;
    }

    let sorted = stable_sort(names);
    let ghost keyed = entries_view(sorted@);
    let mut cameras: Vec<(String, String)> = Vec::new();
    let mut last_name: Option<String> = None;
    let mut rest = sorted;
    let ghost view_of = |camera: (u32, String)| (camera.0, camera.1@);

    proof {
        crate::order::lemma_sort_maps(entries_view(names@), view_of);
        assert(crate::order::map_entries(entries_view(names@), view_of) =~= camera_views(given));
    }

    let ghost all = values_of(crate::order::map_entries(keyed, view_of));

    while rest.len() > 0
        invariant
            all.len() == keyed.len(),
            rest.len() <= all.len(),
            forall|i: int| 0 <= i < rest.len() ==> (#[trigger] rest@[i]).1.0 == all[all.len() - rest.len() + i].0
                && rest@[i].1.1@ == all[all.len() - rest.len() + i].1,
            pair_views(cameras@) == dedup_names(all.take(all.len() - rest.len())).map_values(
                |camera: (u32, Seq<char>)| (camera_path(camera.0), camera.1),
            ),
            dedup_names(all.take(all.len() - rest.len())).len() > 0 <==> last_name is Some,
            last_name matches Some(name) ==> name@ == dedup_names(all.take(all.len() - rest.len())).last().1,
        decreases rest.len(),
    {
        let ghost done = all.len() - rest.len();
        let ghost before = rest@;
        let (_, (number, name)) = rest.remove(0);
        let ghost kept_before = dedup_names(all.take(done));

        proof {
            assert(all.take(done + 1).drop_last() =~= all.take(done));
            assert(all.take(done + 1).last() == all[done]);
            assert(before[0].1.0 == all[done].0 && before[0].1.1@ == all[done].1);
            assert forall|i: int| 0 <= i < rest.len() implies (#[trigger] rest@[i]).1.0 == all[all.len() - rest.len() + i].0
                && rest@[i].1.1@ == all[all.len() - rest.len() + i].1 by {
                assert(rest@[i] == before[i + 1]);
            }
        }

        let repeated = match &last_name {
            Some(previous) => crate::models::same_text(previous.as_str(), name.as_str()),
            None => false,
        };

        if !repeated {
            let mut path = String::from_str("/dev/video");
            path.append(decimal(number as u64).as_str());
            let copy = name.clone();
            let ghost old_cameras = cameras@;
            cameras.push((path, name));
            last_name = Some(copy);
            proof {
                assert(cameras@.drop_last() =~= old_cameras);
                assert(pair_views(cameras@) =~= pair_views(old_cameras).push((camera_path(number), all[done].1)));
                assert(dedup_names(all.take(done + 1)) == kept_before.push(all[done]));
                assert(dedup_names(all.take(done + 1)).map_values(|camera: (u32, Seq<char>)| (camera_path(camera.0), camera.1))
                    =~= kept_before.map_values(|camera: (u32, Seq<char>)| (camera_path(camera.0), camera.1)).push((camera_path(number), all[done].1)));
            }
        }
    }

    proof {
        assert(all.take(all.len() as int) =~= all);
        assert(all =~= values_of(spec_stable_sort(camera_views(given))));
    }

    cameras
}

/// The index of the first occurrence of `needle` in `haystack` at or after `from`.
pub open spec fn bytes_at(haystack: Seq<u8>, needle: Seq<u8>, at: int) -> bool {
    0 <= at && at + needle.len() <= haystack.len() && haystack.subrange(at, at + needle.len()) == needle
}

pub open spec fn spec_find(haystack: Seq<u8>, needle: Seq<u8>, from: int) -> Option<int> {
    if exists|at: int| from <= at && #[trigger] bytes_at(haystack, needle, at) {
        Some(choose|at: int| from <= at && bytes_at(haystack, needle, at)
            && forall|before: int| from <= before < at ==> !bytes_at(haystack, needle, before))
    } else {
        None
    }
}

/// The first index at or after `from` where `needle` starts.
pub fn find(haystack: &[u8], needle: &[u8], from: usize) -> (found: Option<usize>)
    requires
        needle.len() > 0,
    ensures
        found matches Some(at) ==> from <= at && bytes_at(haystack@, needle@, at as int)
            && forall|before: int| from <= before < at ==> !bytes_at(haystack@, needle@, before),
        found is None ==> forall|at: int| from <= at ==> !bytes_at(haystack@, needle@, at),
{
    if from > haystack.len() {
        return None;
    }

    let mut at = from;

    while at < haystack.len() && haystack.len() - at >= needle.len()
        invariant
            from <= at <= haystack.len(),
            forall|before: int| from <= before < at ==> !bytes_at(haystack@, needle@, before),
        decreases haystack.len() - at,
    {
        let mut index: usize = 0;
        let mut same = true;

        while index < needle.len()
            invariant
                index <= needle.len(),
                at + needle.len() <= haystack.len(),
                same ==> forall|j: int| 0 <= j < index ==> haystack@[at + j] == needle@[j],
                !same ==> !bytes_at(haystack@, needle@, at as int),
            decreases needle.len() - index,
        {
            if haystack[at + index] != needle[index] {
                proof {
                    assert(haystack@.subrange(at as int, at + needle.len())[index as int] != needle@[index as int]);
                }
                same = false;
            }
            index = index + 1;
        }

        if same {
            proof {
                assert(haystack@.subrange(at as int, at + needle.len()) =~= needle@);
            }
            return Some(at);
        }

        at = at + 1;
    }

    None
}

/// The access unit delimiter that separates frames in the pipe.
pub open spec fn aud() -> Seq<u8> {
    seq![0u8, 0u8, 0u8, 1u8, 9u8]
}

pub open spec fn start_code() -> Seq<u8> {
    seq![0u8, 0u8, 1u8]
}

/// One whole frame from the pipe: from the first delimiter to the next, without the
/// delimiter, once the next frame has begun; and what stays pending after it.
pub open spec fn spec_take_access_unit(pending: Seq<u8>) -> Option<(Seq<u8>, Seq<u8>)> {
    match spec_find(pending, aud(), 0) {
        None => None,
        Some(first) => match spec_find(pending, aud(), first + 5) {
            None => None,
            Some(second) => match spec_find(pending.take(second), start_code(), first + 5) {
                None => None,
                Some(body) => {
                    // A start code may have four bytes; the extra zero stays with the frame.
                    let start = if body > first + 5 && pending[body - 1] == 0 { body - 1 } else { body };
                    Some((pending.subrange(start, second), pending.skip(second)))
                },
            },
        },
    }
}

pub open spec fn some_at(found: Option<usize>, spec: Option<int>) -> bool {
    match spec {
        Some(at) => found == Some(at as usize),
        None => found is None,
    }
}

proof fn lemma_find_is(haystack: Seq<u8>, needle: Seq<u8>, from: int, found: Option<usize>)
    requires
        found matches Some(at) ==> from <= at && bytes_at(haystack, needle, at as int)
            && forall|before: int| from <= before < at ==> !bytes_at(haystack, needle, before),
        found is None ==> forall|at: int| from <= at ==> !bytes_at(haystack, needle, at),
    ensures
        some_at(found, spec_find(haystack, needle, from)),
{
    if let Some(at) = found {
        assert(from <= at && bytes_at(haystack, needle, at as int));
        let chosen = spec_find(haystack, needle, from)->0;
        assert(from <= chosen && bytes_at(haystack, needle, chosen));
        if chosen < at {
        } else if chosen > at {
        }
    }
}

/// Takes one whole frame out of what the pipe delivered, once the next one has begun.
#[verifier::rlimit(80)]
pub fn take_access_unit(pending: &mut Vec<u8>) -> (frame: Option<Vec<u8>>)
    ensures
        match spec_take_access_unit(old(pending)@) {
            Some((data, rest)) => frame matches Some(frame) && frame@ == data && final(pending)@ == rest,
            None => frame is None && final(pending)@ == old(pending)@,
        },
{
    let delimiter: Vec<u8> = vec![0, 0, 0, 1, 9];
    let code: Vec<u8> = vec![0, 0, 1];

    proof {
        assert(delimiter@ =~= aud());
        assert(code@ =~= start_code());
    }

    let first = find(pending.as_slice(), delimiter.as_slice(), 0);
    proof { lemma_find_is(pending@, aud(), 0, first); }
    let first = match first {
        Some(first) => first,
        None => return None,
    };

    let second = if first <= pending.len() - 5 { find(pending.as_slice(), delimiter.as_slice(), first + 5) } else { None };
    proof {
        assert(first + 5 <= pending.len());
        lemma_find_is(pending@, aud(), first + 5, second);
    }
    let second = match second {
        Some(second) => second,
        None => return None,
    };

    let head = take_bytes(pending.as_slice(), 0, second);
    let body = find(head.as_slice(), code.as_slice(), first + 5);
    proof {
        assert(head@ =~= pending@.take(second as int));
        lemma_find_is(pending@.take(second as int), start_code(), first + 5, body);
    }
    let mut body = match body {
        Some(body) => body,
        None => return None,
    };

    if body > first + 5 && pending[body - 1] == 0 {
        body = body - 1;
    }

    let data = take_bytes(pending.as_slice(), body, second);
    let rest = take_bytes(pending.as_slice(), second, pending.len());

    proof {
        assert(rest@ =~= pending@.skip(second as int));
    }

    *pending = rest;

    Some(data)
}

/// A copy of `bytes[from..to]`.
pub fn take_bytes(bytes: &[u8], from: usize, to: usize) -> (piece: Vec<u8>)
    requires
        from <= to <= bytes.len(),
    ensures
        piece@ == bytes@.subrange(from as int, to as int),
{
    let mut piece: Vec<u8> = Vec::new();
    let mut index = from;

    while index < to
        invariant
            from <= index <= to <= bytes.len(),
            piece@ == bytes@.subrange(from as int, index as int),
        decreases to - index,
    {
        piece.push(bytes[index]);
        index = index + 1;
        proof {
            assert(piece@ =~= bytes@.subrange(from as int, index as int));
        }
    }

    piece
}

/// A three-byte start code at `at`, followed by NAL type 5 (an IDR slice).
pub open spec fn idr_at(data: Seq<u8>, at: int) -> bool {
    0 <= at && at + 4 <= data.len() && data[at] == 0 && data[at + 1] == 0 && data[at + 2] == 1 && data[at + 3] & 0x1f
        == 5
}

/// A frame with an IDR somewhere in it.
pub open spec fn spec_has_idr(data: Seq<u8>) -> bool {
    exists|at: int| #[trigger] idr_at(data, at)
}

pub fn has_idr(data: &[u8]) -> (idr: bool)
    ensures
        idr == spec_has_idr(data@),
{
    let mut at: usize = 0;

    while at < data.len() && data.len() - at >= 4
        invariant
            at <= data.len(),
            forall|j: int| 0 <= j < at ==> !#[trigger] idr_at(data@, j),
        decreases data.len() - at,
    {
        if data[at] == 0 && data[at + 1] == 0 && data[at + 2] == 1 && data[at + 3] & 0x1f == 5 {
            assert(idr_at(data@, at as int));
            return true;
        }
        at = at + 1;
    }

    proof {
        assert forall|j: int| !#[trigger] idr_at(data@, j) by {
            if j >= at {
                assert(j + 4 > data.len());
            }
        }
    }

    false
}

} // verus!
