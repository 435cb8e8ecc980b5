//! Screen and system-sound capture: what to capture, at what size, and the failures the
//! interface must tell apart.

pub mod linux;
pub mod linux_audio;
pub mod windows_audio;

use vstd::prelude::*;

verus! {

/// A full screen available for capture.
#[derive(Debug, Clone)]
pub struct Display {
    pub id: u32,
    pub width: u32,
    pub height: u32,
}

/// A specific window. Sharing only it keeps private what was meant to stay private.
#[derive(Debug, Clone)]
pub struct Window {
    /// The system identifier: a `HWND` on Windows, a `CGWindowID` on macOS.
    pub id: u64,
    pub title: String,
    pub application: String,
}

#[derive(Debug, Clone, Copy, PartialEq, Eq, Structural)]
pub enum Quality {
    Hd720,
    Hd1080,
    Qhd1440,
    Uhd2160,
}

pub open spec fn spec_quality_width(quality: Quality) -> u32 {
    match quality {
        Quality::Hd720 => 1280,
        Quality::Hd1080 => 1920,
        Quality::Qhd1440 => 2560,
        Quality::Uhd2160 => 3840,
    }
}

/// The largest even number not above `value`.
pub open spec fn even_below(value: int) -> int {
    value - value % 2
}

/// The output size for a source of `source` pixels: the width of the quality, never above
/// the source's, and the height that keeps the source's proportion, both even.
pub open spec fn spec_fit(quality: Quality, source: (u32, u32)) -> (u32, u32) {
    let source_width: int = if source.0 >= 2 { source.0 as int } else { 2 };
    let source_height: int = if source.1 >= 2 { source.1 as int } else { 2 };
    let width: int = if spec_quality_width(quality) as int <= source_width {
        spec_quality_width(quality) as int
    } else {
        source_width
    };
    let height: int = width * source_height / source_width;
    let clamped: int = if height < 2 { 2 } else if height > source_height { source_height } else { height };
    (even_below(width) as u32, even_below(clamped) as u32)
}

impl Quality {
    /// The quality chooses only the width; the height comes from the source's proportion.
    pub fn width(self) -> (width: u32)
        ensures
            width == spec_quality_width(self),
    {
        match self {
            Self::Hd720 => 1280,
            Self::Hd1080 => 1920,
            Self::Qhd1440 => 2560,
            Self::Uhd2160 => 3840,
        }
    }

    /// The agreed resolution of each quality, in 16:9.
    pub fn dimensions(self) -> (size: (u32, u32))
        ensures
            size.0 == spec_quality_width(self),
            size.1 == (match self {
                Quality::Hd720 => 720u32,
                Quality::Hd1080 => 1080u32,
                Quality::Qhd1440 => 1440u32,
                Quality::Uhd2160 => 2160u32,
            }),
    {
        match self {
            Self::Hd720 => (1280, 720),
            Self::Hd1080 => (1920, 1080),
            Self::Qhd1440 => (2560, 1440),
            Self::Uhd2160 => (3840, 2160),
        }
    }

    /// The output size for a source of `source` pixels. A 720p monitor does not go up to
    /// 1080p, an ultrawide does not come out squeezed into 16:9, and both sides are even,
    /// as H.264 in 4:2:0 requires.
    pub fn fit(self, source: (u32, u32)) -> (size: (u32, u32))
        ensures
            size == spec_fit(self, source),
    {
        let source_width: u32 = if source.0 >= 2 { source.0 } else { 2 };
        let source_height: u32 = if source.1 >= 2 { source.1 } else { 2 };
        let quality_width = self.width();
        let width: u32 = if quality_width <= source_width { quality_width } else { source_width };
        proof {
            assert((width as u64) * (source_height as u64) <= u64::MAX) by (nonlinear_arith)
                requires
                    width <= u32::MAX,
                    source_height <= u32::MAX,
            ;
        }
        let product: u64 = (width as u64) * (source_height as u64);
        let height: u64 = product / (source_width as u64);

        proof {
            assert(height <= source_height) by (nonlinear_arith)
                requires
                    width <= source_width,
                    source_width >= 2,
                    product == width as int * source_height as int,
                    height == product as int / source_width as int,
            ;
        }

        let clamped: u32 = if height < 2 {
            2
        } else if height > source_height as u64 {
            source_height
        } else {
            height as u32
        };

        (width - width % 2, clamped - clamped % 2)
    }
}

/// The output never grows past the source, never past the chosen width, and both sides
/// are even and at least two pixels.
pub proof fn law_fit_never_upscales(quality: Quality, source: (u32, u32))
    ensures
        spec_fit(quality, source).0 <= spec_quality_width(quality),
        source.0 >= 2 ==> spec_fit(quality, source).0 <= source.0,
        source.1 >= 2 ==> spec_fit(quality, source).1 <= source.1,
        spec_fit(quality, source).0 % 2 == 0,
        spec_fit(quality, source).1 % 2 == 0,
        spec_fit(quality, source).0 >= 2,
        spec_fit(quality, source).1 >= 2,
{
}

/// What to broadcast. Sharing the whole screen when the person wanted only the game shows
/// mail, passwords and chats to the whole room.
#[derive(Debug, Clone, Copy, PartialEq, Eq, Structural)]
pub enum CaptureSource {
    /// The main monitor: what most people want, and what needs no choosing.
    PrimaryDisplay,
    Display(u32),
    Window(u64),
    /// The camera `/dev/video<n>`. Linux only: elsewhere the webview captures it.
    Camera(u32),
    /// The system's default microphone. Linux only, for the same reason.
    Microphone,
}

impl Default for CaptureSource {
    fn default() -> (source: Self)
        ensures
            source == CaptureSource::PrimaryDisplay,
    {
        CaptureSource::PrimaryDisplay
    }
}

#[derive(Debug, Clone)]
pub struct CaptureConfig {
    pub quality: Quality,
    pub source: CaptureSource,
    /// The ceiling of frames per second.
    pub frame_rate: u32,
    pub capture_audio: bool,
    /// Whether the sound of the listed call apps stays out of the broadcast.
    pub mute_listed_apps: bool,
    pub show_cursor: bool,
}

impl CaptureConfig {
    /// The sound the app itself plays never enters the capture.
    pub const EXCLUDE_OWN_AUDIO: bool = true;
}

/// What `prepare` set aside for `start`: on Wayland, the session of the screen the person
/// chose in the system's picker. Dropped without a `start` consuming it, what it opened is
/// closed, or the system would show the screen as shared with nothing going out.
#[must_use]
#[derive(Debug, PartialEq, Eq, Structural)]
pub struct Prepared {
    /// Whether a portal session is negotiated here and waits for `start`.
    pub portal: bool,
}

/// What has to happen before `source_size` and `start`, and may wait for the person: on
/// Wayland the system's picker opens here, once, and what the person chooses is kept for
/// both. On the other systems, and on X11, nothing happens; neither for the camera nor for
/// the microphone, which no picker chooses. `linux` says whether this is Linux, and
/// `backend` where its screen comes from.
pub fn prepare(config: &CaptureConfig, linux: bool, backend: linux::Backend) -> (prepared: Prepared)
    ensures
        prepared.portal == (linux && backend == linux::Backend::Portal && (config.source is PrimaryDisplay
            || config.source is Display || config.source is Window)),
{
    Prepared { portal: linux && linux::is_screen(config.source) && backend == linux::Backend::Portal }
}

/// The call apps whose sound never goes up with the screen, by bundle identifier.
pub fn muted_apps() -> (apps: Vec<&'static str>)
    ensures
        text_views(apps@) == seq!["com.hnc.Discord"@, "com.hnc.DiscordPTB"@, "com.hnc.DiscordCanary"@],
{
    let apps = vec!["com.hnc.Discord", "com.hnc.DiscordPTB", "com.hnc.DiscordCanary"];
    proof {
        assert(text_views(apps@) =~= seq!["com.hnc.Discord"@, "com.hnc.DiscordPTB"@, "com.hnc.DiscordCanary"@]);
    }
    apps
}

pub open spec fn text_views(texts: Seq<&'static str>) -> Seq<Seq<char>> {
    texts.map_values(|text: &'static str| text@)
}

/// The same apps on Windows, by executable name, compared without case.
pub fn muted_executables() -> (executables: Vec<&'static str>)
    ensures
        text_views(executables@) == muted_executable_names(),
{
    let executables = vec![
        "Discord.exe",
        "DiscordPTB.exe",
        "DiscordCanary.exe",
        "DiscordSystemHelper.exe",
        "Vesktop.exe",
        "ArmCord.exe",
        "Legcord.exe",
        "WebCord.exe",
    ];
    proof {
        assert(text_views(executables@) =~= muted_executable_names());
    }
    executables
}

pub open spec fn muted_executable_names() -> Seq<Seq<char>> {
    seq![
        "Discord.exe"@,
        "DiscordPTB.exe"@,
        "DiscordCanary.exe"@,
        "DiscordSystemHelper.exe"@,
        "Vesktop.exe"@,
        "ArmCord.exe"@,
        "Legcord.exe"@,
        "WebCord.exe"@,
    ]
}

impl Default for CaptureConfig {
    /// The main screen in 1080p60, with the system sound and without the call apps.
    fn default() -> (config: Self)
        ensures
            config.source == CaptureSource::PrimaryDisplay,
            config.quality == Quality::Hd1080,
            config.frame_rate == 60,
            config.capture_audio,
            config.mute_listed_apps,
            config.show_cursor,
    {
        Self {
            source: CaptureSource::PrimaryDisplay,
            quality: Quality::Hd1080,
            frame_rate: 60,
            capture_audio: true,
            mute_listed_apps: true,
            show_cursor: true,
        }
    }
}

#[derive(Debug, Clone, PartialEq, Eq)]
pub enum CaptureError {
    NoDisplay,
    PermissionDenied,
    /// The person closed the system's screen picker without choosing anything. It is no
    /// defect, and the interface has to tell it apart.
    Cancelled,
    Platform(String),
}

/// A failure of the Windows capture, with what the system said.
#[derive(Debug, Clone, PartialEq, Eq)]
pub struct CaptureFailure(pub String);

impl CaptureFailure {
    /// What the system said, as the log and the interface show it.
    pub fn message(&self) -> (text: &str)
        ensures
            text@ == self.0@,
    {
        self.0.as_str()
    }
}

} // verus!
