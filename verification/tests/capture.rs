use unkvoid::capture::linux::{
    backend_for, cursor_mode, dedupe_cameras, has_idr, is_screen, parse_monitors, portal_error, source_types,
    take_access_unit, uses_system_picker, Backend, CursorMode, Monitor,
};
use unkvoid::capture::{muted_apps, prepare, CaptureConfig, CaptureError, CaptureSource, Prepared, Quality};

#[test]
fn quality_maps_to_the_agreed_resolutions() {
    assert_eq!(Quality::Hd720.dimensions(), (1280, 720));
    assert_eq!(Quality::Hd1080.dimensions(), (1920, 1080));
    assert_eq!(Quality::Qhd1440.dimensions(), (2560, 1440));
}

#[test]
fn default_captures_system_audio() {
    // The reason the native app exists: in the browser this depends on the system and the
    // version. If someone turns it off by accident, the test says so.
    let config = CaptureConfig::default();

    assert!(config.capture_audio);
    assert!(config.mute_listed_apps, "o áudio de chamada fica de fora até alguém pedir o contrário");
    assert_eq!(config.quality, Quality::Hd1080);
    assert_eq!(config.frame_rate, 60);
}

#[test]
fn lib_default_captures_system_audio() {
    let config = CaptureConfig::default();

    assert!(config.capture_audio);
    assert!(config.mute_listed_apps, "o áudio de chamada fica de fora até alguém pedir o contrário");
    assert_eq!(config.quality, Quality::Hd1080);
    assert_eq!(config.frame_rate, 60);
}

#[test]
fn quality_keeps_the_source_aspect_and_never_upscales() {
    assert_eq!(Quality::Hd1080.fit((1920, 1080)), (1920, 1080));
    assert_eq!(Quality::Hd720.fit((3840, 2160)), (1280, 720));
    // Ultrawide: 1920 * 1440 / 3440 = 803.7, made even.
    assert_eq!(Quality::Hd1080.fit((3440, 1440)), (1920, 802));
    // A monitor standing up stays standing up.
    assert_eq!(Quality::Qhd1440.fit((1080, 1920)), (1080, 1920));
    // A 720p monitor asked for 1080p stays at 720p, and 4K on a 1080p monitor stays 1080p.
    assert_eq!(Quality::Hd1080.fit((1280, 720)), (1280, 720));
    assert_eq!(Quality::Uhd2160.fit((1920, 1080)), (1920, 1080));
    assert_eq!(Quality::Uhd2160.fit((3840, 2160)), (3840, 2160));
    // An odd window comes out even.
    assert_eq!(Quality::Hd1080.fit((1001, 601)), (1000, 600));
    // An unknown source does not divide by zero.
    assert_eq!(Quality::Hd1080.fit((0, 0)), (2, 2));
}

#[test]
fn the_fitted_size_is_never_larger_than_the_source_and_always_even() {
    for quality in [Quality::Hd720, Quality::Hd1080, Quality::Qhd1440, Quality::Uhd2160] {
        for source in [(640, 480), (1366, 768), (2561, 1079), (7680, 4320)] {
            let (width, height) = quality.fit(source);

            assert!(width <= source.0 && height <= source.1);
            assert!(width % 2 == 0 && height % 2 == 0);
        }
    }
}

#[test]
fn the_call_apps_are_listed_by_bundle() {
    assert_eq!(muted_apps(), vec!["com.hnc.Discord", "com.hnc.DiscordPTB", "com.hnc.DiscordCanary"]);
}

#[test]
fn two_monitors_become_two_displays_primary_first() {
    let xrandr = "Screen 0: minimum 320 x 200, current 3840 x 1080, maximum 16384 x 16384\n\
        DP-1 connected 1920x1080+1920+0 (normal left inverted right x axis y axis) 527mm x 296mm\n\
        HDMI-1 connected primary 1920x1080+0+0 (normal left inverted right x axis y axis) 527mm x 296mm\n\
        DP-2 disconnected (normal left inverted right x axis y axis)\n\
           1920x1080     60.00*+\n";

    let monitors = parse_monitors(xrandr);

    assert_eq!(monitors.len(), 2);
    assert_eq!(monitors[0], Monitor { width: 1920, height: 1080, x: 0, y: 0 });
    assert_eq!(monitors[1].x, 1920);
    assert_eq!(monitors[1].area(), "startx=1920 starty=0 endx=3839 endy=1079");
}

#[test]
fn wayland_goes_through_the_portal_and_the_override_wins() {
    assert_eq!(backend_for(None, Some("x11"), None), Backend::X11);
    assert_eq!(backend_for(None, None, None), Backend::X11, "sem sessão gráfica declarada segue como sempre foi");
    assert_eq!(backend_for(None, Some("wayland"), None), Backend::Portal);
    assert_eq!(backend_for(None, Some("tty"), Some("wayland-0")), Backend::Portal, "compositor aberto à mão de um tty");
    assert_eq!(backend_for(None, Some("x11"), Some("")), Backend::X11, "variável vazia não é Wayland");

    assert_eq!(backend_for(Some("x11"), Some("wayland"), Some("wayland-0")), Backend::X11);
    assert_eq!(backend_for(Some("portal"), Some("x11"), None), Backend::Portal);
    assert_eq!(backend_for(Some("pipewire"), Some("x11"), None), Backend::X11, "valor desconhecido não força nada");
    assert_eq!(backend_for(Some(""), Some("wayland"), None), Backend::Portal);
}

#[test]
fn the_system_picker_is_the_portal_s() {
    assert!(uses_system_picker(None, Some("wayland"), None));
    assert!(!uses_system_picker(Some("x11"), Some("wayland"), None));
}

#[test]
fn only_a_screen_source_waits_for_the_system_picker() {
    assert!(is_screen(CaptureSource::PrimaryDisplay));
    assert!(is_screen(CaptureSource::Display(2)));
    assert!(is_screen(CaptureSource::Window(7)));
    assert!(!is_screen(CaptureSource::Camera(0)));
    assert!(!is_screen(CaptureSource::Microphone));
}

#[test]
fn the_portal_is_only_asked_for_what_it_offers() {
    let every_cursor = 1 | 2 | 4;

    assert_eq!(cursor_mode(every_cursor, true), Some(CursorMode::Embedded));
    assert_eq!(cursor_mode(every_cursor, false), Some(CursorMode::Hidden));
    assert_eq!(cursor_mode(1, true), None, "sem cursor embutido, vale o padrão do portal");
    assert_eq!(cursor_mode(0, false), None, "portal antigo não diz o que sabe");

    assert_eq!(source_types(1), 1, "wlroots");
    assert_eq!(source_types(1 | 2 | 4), 1 | 2);
    assert_eq!(source_types(0), 1 | 2);
}

#[test]
fn a_cancelled_picker_is_not_a_platform_failure() {
    assert!(matches!(portal_error(true, "cancelled"), CaptureError::Cancelled));
    assert!(matches!(portal_error(false, "other"), CaptureError::Platform(_)));
}

#[test]
fn cameras_come_in_numeric_order_and_the_metadata_node_is_dropped() {
    let found = vec![
        (10, "Webcam B".to_string()),
        (2, "Webcam A".to_string()),
        (3, "Webcam A".to_string()),
        (11, "Webcam B".to_string()),
    ];

    assert_eq!(
        dedupe_cameras(found),
        [
            ("/dev/video2".to_string(), "Webcam A".to_string()),
            ("/dev/video10".to_string(), "Webcam B".to_string()),
        ]
    );
}

#[test]
fn splits_frames_on_the_delimiter_and_drops_it() {
    let mut pending = Vec::new();

    pending.extend([0, 0, 0, 1, 9, 0x10]);
    pending.extend([0, 0, 0, 1, 0x67, 1, 2]);
    pending.extend([0, 0, 1, 0x65, 3, 4]);

    assert!(take_access_unit(&mut pending).is_none(), "quadro ainda aberto");

    pending.extend([0, 0, 0, 1, 9, 0x30]);
    pending.extend([0, 0, 1, 0x41, 5]);

    let frame = take_access_unit(&mut pending).expect("keyframe fechado");

    assert_eq!(frame, [0, 0, 0, 1, 0x67, 1, 2, 0, 0, 1, 0x65, 3, 4]);
    assert!(has_idr(&frame));
    assert!(take_access_unit(&mut pending).is_none());

    pending.extend([0, 0, 0, 1, 9]);
    let frame = take_access_unit(&mut pending).expect("quadro P fechado");

    assert_eq!(frame, [0, 0, 1, 0x41, 5]);
    assert!(!has_idr(&frame));
}

use unkvoid::capture::linux::{displays_of, screen_size, size_in_xdpyinfo, size_in_xrandr, source_size};

const XDPYINFO: &str = "name of display:    :0\nscreen #0:\n  dimensions:    3840x1080 pixels (1016x286 millimeters)\n";
const XRANDR_HEADER: &str = "Screen 0: minimum 320 x 200, current 2560 x 1440, maximum 16384 x 16384\n";

#[test]
fn the_screen_size_comes_from_xdpyinfo_and_else_from_xrandr() {
    assert_eq!(size_in_xdpyinfo(XDPYINFO), Some((3840, 1080)));
    assert_eq!(size_in_xdpyinfo("dimensions: big\n"), None);
    assert_eq!(size_in_xrandr(XRANDR_HEADER), Some((2560, 1440)));
    assert_eq!(size_in_xrandr("no size here\n"), None);
    assert_eq!(screen_size(Some(XDPYINFO), Some(XRANDR_HEADER)), Some((3840, 1080)));
    assert_eq!(screen_size(Some("garbage"), Some(XRANDR_HEADER)), Some((2560, 1440)));
    assert_eq!(screen_size(None, None), None);
}

#[test]
fn the_portal_lists_one_display_and_x11_one_per_monitor() {
    let shape = |displays: Vec<unkvoid::capture::Display>| {
        displays.iter().map(|display| (display.id, display.width, display.height)).collect::<Vec<_>>()
    };
    let monitors = [
        Monitor { width: 1920, height: 1080, x: 1920, y: 0 },
        Monitor { width: 1280, height: 1024, x: 0, y: 0 },
    ];

    assert_eq!(shape(displays_of(true, true, &monitors, None)), vec![(1, 0, 0)]);
    assert_eq!(shape(displays_of(false, false, &monitors, None)), vec![]);
    assert_eq!(shape(displays_of(false, true, &[], Some((3200, 1080)))), vec![(1, 3200, 1080)]);
    assert_eq!(shape(displays_of(false, true, &[], None)), vec![(1, 0, 0)]);
    assert_eq!(shape(displays_of(false, true, &monitors, None)), vec![(1, 1920, 1080), (2, 1280, 1024)]);
}

#[test]
fn the_source_size_follows_the_source() {
    let monitor = Monitor { width: 1920, height: 1080, x: 0, y: 0 };

    assert_eq!(source_size(CaptureSource::Camera(0), true, None, None, None), Ok((640, 360)));
    assert_eq!(source_size(CaptureSource::Microphone, false, None, None, None), Ok((0, 0)));
    assert_eq!(source_size(CaptureSource::PrimaryDisplay, true, Some((2560, 1440)), Some(monitor), None), Ok((2560, 1440)));
    assert!(matches!(
        source_size(CaptureSource::PrimaryDisplay, true, None, Some(monitor), None),
        Err(CaptureError::Platform(_))
    ));
    assert_eq!(source_size(CaptureSource::Display(1), false, None, Some(monitor), Some((1, 1))), Ok((1920, 1080)));
    assert_eq!(source_size(CaptureSource::Window(7), false, None, None, Some((3840, 1080))), Ok((3840, 1080)));
    assert_eq!(source_size(CaptureSource::PrimaryDisplay, false, None, None, None), Err(CaptureError::NoDisplay));
}

use unkvoid::capture::linux::{encoder_tail, hardware_h264_encoders, portal_source, screen_pipeline, x11_source};

#[test]
fn the_two_screen_pipelines_differ_only_in_the_source() {
    let (format, encoder) = encoder_tail("x264enc", 60, 10_000);
    let region = Monitor { width: 1920, height: 1080, x: 1920, y: 0 };
    let words = |pipeline: String| pipeline.split_whitespace().map(str::to_string).collect::<Vec<_>>().join(" ");

    let x11 = words(screen_pipeline(&x11_source(false, Some(region)), 60, 1920, format, &encoder));
    let portal = words(screen_pipeline(&portal_source(47, 60), 60, 1920, format, &encoder));
    let shared = words(format!(
        "! video/x-raw,framerate=60/1 ! videoconvert ! videoscale \
         ! video/x-raw,format=I420,colorimetry=bt709,width=1920,pixel-aspect-ratio=1/1 ! {encoder}"
    ));

    assert_eq!(
        x11,
        format!("ximagesrc use-damage=false show-pointer=false startx=1920 starty=0 endx=3839 endy=1079 {shared}")
    );
    assert_eq!(
        portal,
        format!("pipewiresrc fd=0 path=47 do-timestamp=true keepalive-time=16 ! videorate {shared}"),
        "the fd is the child's standard input, and a still screen keeps producing frames"
    );

    assert_eq!(words(x11_source(true, None)), "ximagesrc use-damage=false show-pointer=true");
    assert!(portal_source(3, 30).contains("keepalive-time=33 "), "one resend per frame at 30 fps");
    assert!(portal_source(3, 0).contains("keepalive-time=1000 "), "zero fps does not divide by zero");
}

#[test]
fn every_encoder_ends_in_the_same_byte_stream() {
    for element in hardware_h264_encoders().into_iter().chain(["x264enc"]) {
        let (format, tail) = encoder_tail(element, 60, 5_000);

        assert!(tail.starts_with(element), "{tail}");
        assert!(["NV12", "I420"].contains(&format), "{element}: {format}");
        assert!(tail.contains("=60 ") && tail.contains("bitrate=5000"), "{element}: one keyframe per second and the rate: {tail}");
        assert!(
            tail.split_whitespace().collect::<Vec<_>>().join(" ").ends_with(
                "! h264parse config-interval=-1 ! video/x-h264,stream-format=byte-stream,alignment=au,profile=constrained-baseline ! fdsink fd=1 sync=false"
            ),
            "{element}: without h264parse the pipe loses the AUD or the SPS/PPS per IDR: {tail}"
        );
    }
}

use unkvoid::capture::linux::{area_fits_monitor, capture_plan, system_sound_pipeline, CapturePlan};

fn screen_config(source: CaptureSource, capture_audio: bool) -> CaptureConfig {
    CaptureConfig {
        quality: Quality::Hd1080,
        source,
        frame_rate: 60,
        capture_audio,
        mute_listed_apps: true,
        show_cursor: false,
    }
}

#[test]
fn each_source_launches_its_own_pipeline() {
    let region = Monitor { width: 1920, height: 1080, x: 1920, y: 0 };

    match capture_plan(screen_config(CaptureSource::Microphone, true), Backend::X11, None, false, None, None, "x264enc", false) {
        Ok(CapturePlan::Microphone { audio }) => assert!(audio.starts_with("pulsesrc device=@DEFAULT_SOURCE@")),
        _ => panic!("the microphone is only sound"),
    }
    match capture_plan(screen_config(CaptureSource::Camera(2), true), Backend::Portal, None, false, None, None, "x264enc", false) {
        Ok(CapturePlan::Camera { video, size }) => {
            assert!(video.starts_with("v4l2src device=/dev/video2 "));
            assert_eq!(size, (640, 360));
        }
        _ => panic!("the camera is only video"),
    }
    match capture_plan(screen_config(CaptureSource::Display(1), true), Backend::X11, None, true, Some(region), None, "x264enc", false) {
        Ok(CapturePlan::Screen { video, size, audio, from_portal }) => {
            let (format, encoder) = encoder_tail("x264enc", 60, 10_000);
            assert_eq!(video, screen_pipeline(&x11_source(false, Some(region)), 60, 1920, format, &encoder));
            assert_eq!(size, (1920, 1080));
            assert_eq!(audio, Some(system_sound_pipeline()));
            assert!(!from_portal);
        }
        _ => panic!("the screen did not come up"),
    }
    match capture_plan(screen_config(CaptureSource::PrimaryDisplay, false), Backend::Portal, Some((47, (2560, 1440))), false, None, None, "x264enc", false) {
        Ok(CapturePlan::Screen { video, size, audio, from_portal }) => {
            assert!(video.starts_with("pipewiresrc fd=0 path=47 "));
            assert_eq!(size, (1920, 1080));
            assert_eq!(audio, None);
            assert!(from_portal);
        }
        _ => panic!("the portal's choice did not come up"),
    }
}

#[test]
fn a_screen_needs_the_portal_choice_or_a_display() {
    assert!(matches!(
        capture_plan(screen_config(CaptureSource::PrimaryDisplay, true), Backend::Portal, None, true, None, None, "x264enc", false),
        Err(CaptureError::Platform(_))
    ));
    assert!(matches!(
        capture_plan(screen_config(CaptureSource::PrimaryDisplay, true), Backend::X11, None, false, None, Some((1, 1)), "x264enc", false),
        Err(CaptureError::NoDisplay)
    ));
    assert!(matches!(
        capture_plan(screen_config(CaptureSource::Window(3), true), Backend::X11, None, true, None, None, "x264enc", false),
        Err(CaptureError::NoDisplay)
    ));
    assert_eq!(
        system_sound_pipeline(),
        "pulsesrc device=@DEFAULT_MONITOR@ ! audioconvert ! audioresample ! audio/x-raw,format=F32LE,rate=48000,channels=2,layout=interleaved ! fdsink fd=1 sync=false"
    );
}

#[test]
fn a_crop_fits_only_with_a_size_and_inside_the_coordinates() {
    assert!(area_fits_monitor(Monitor { width: 1920, height: 1080, x: 1920, y: 0 }));
    assert!(!area_fits_monitor(Monitor { width: 0, height: 1080, x: 0, y: 0 }));
    assert!(!area_fits_monitor(Monitor { width: 10, height: 10, x: u32::MAX, y: 0 }));
}

#[test]
fn only_a_screen_through_the_portal_is_chosen_in_prepare() {
    let screen = screen_config(CaptureSource::Display(0), false);

    assert_eq!(prepare(&screen, true, Backend::Portal), Prepared { portal: true });
    assert_eq!(prepare(&screen_config(CaptureSource::Window(7), false), true, Backend::Portal), Prepared { portal: true });
    assert_eq!(prepare(&screen, true, Backend::X11), Prepared { portal: false });
    assert_eq!(prepare(&screen, false, Backend::Portal), Prepared { portal: false });
    assert_eq!(prepare(&screen_config(CaptureSource::Camera(0), false), true, Backend::Portal), Prepared { portal: false });
    assert_eq!(prepare(&screen_config(CaptureSource::Microphone, false), true, Backend::Portal), Prepared { portal: false });
}
