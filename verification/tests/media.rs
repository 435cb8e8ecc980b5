use unkvoid::capture::Quality;
use unkvoid::media::{encoder_bitrate, encoder_frame_rate, is_keyframe, FramePacer, FPS_MAX, FPS_MIN};

#[test]
fn the_pacer_turns_a_jittery_144_hz_capture_into_60_fps() {
    let mut pacer = FramePacer::new(60);
    let admitted = (0..1440_u64)
        .filter(|frame| {
            // The capture never arrives every 6.94 ms exactly: half a millisecond either way.
            let jitter = if frame % 2 == 0 { 500_000 } else { 0 };

            pacer.lets_through(frame * 6_944_444 + 500_000 - jitter)
        })
        .count();

    assert!((590..=610).contains(&admitted), "{admitted} quadros em 10 s");
}

#[test]
fn the_pacer_lets_a_60_hz_capture_through_at_60_fps() {
    let mut pacer = FramePacer::new(60);
    let admitted = (0..600_u64)
        .filter(|frame| {
            let jitter = if frame % 2 == 0 { 1_000_000 } else { 0 };

            pacer.lets_through(frame * 16_666_667 + 1_000_000 - jitter)
        })
        .count();

    assert_eq!(admitted, 600, "no Windows 11 a captura já vem no teto e nada pode cair");
}

#[test]
fn the_pacer_does_not_burst_after_a_still_screen() {
    let mut pacer = FramePacer::new(30);

    assert!(pacer.lets_through(0));
    // A still screen for a second; back to 60 Hz.
    assert!(pacer.lets_through(1_000_000_000));
    assert!(!pacer.lets_through(1_016_666_667), "sem rajada para alcançar o segundo perdido");
    assert!(pacer.lets_through(1_033_333_333));
}

#[test]
fn the_pacer_lets_the_first_frame_through_and_spaces_the_next() {
    let mut pacer = FramePacer::new(60);

    assert!(pacer.lets_through(5));
    assert!(!pacer.lets_through(6));
}

#[test]
fn the_encoder_frame_rate_stays_between_thirty_and_sixty() {
    assert_eq!(encoder_frame_rate(5), FPS_MIN);
    assert_eq!(encoder_frame_rate(500), FPS_MAX);
    assert_eq!(encoder_frame_rate(45), 45);
}

#[test]
fn a_higher_quality_asks_for_more_bits() {
    assert!(encoder_bitrate(Quality::Hd720, 60) < encoder_bitrate(Quality::Qhd1440, 60));
}

#[test]
fn a_frame_with_an_idr_slice_is_a_keyframe() {
    assert!(is_keyframe(&[0, 0, 0, 1, 0x65, 1, 2]));
    assert!(!is_keyframe(&[0, 0, 0, 1, 0x41, 1, 2]));
}

use unkvoid::media::EncoderConfig;

#[test]
fn bitrate_rises_with_resolution() {
    let low = EncoderConfig::new(Quality::Hd720, 60, (3840, 2160)).bitrate;
    let medium = EncoderConfig::new(Quality::Hd1080, 60, (3840, 2160)).bitrate;
    let high = EncoderConfig::new(Quality::Qhd1440, 60, (3840, 2160)).bitrate;
    let uhd = EncoderConfig::new(Quality::Uhd2160, 60, (3840, 2160)).bitrate;

    assert!(low < medium && medium < high && high < uhd);
}

#[test]
fn half_the_frames_cost_about_half_the_bandwidth() {
    let full = EncoderConfig::new(Quality::Hd1080, 60, (3840, 2160));
    let half = EncoderConfig::new(Quality::Hd1080, 30, (3840, 2160));

    assert_eq!(full.frame_rate, 60);
    assert_eq!(half.frame_rate, 30);
    assert_eq!(half.bitrate, full.bitrate / 2);
}

#[test]
fn fps_out_of_range_is_clamped() {
    // The interface offers 30 to 60, but the caller is Rust: a stray value from outside
    // must not become a 1 fps capture nor an encoder asking for 240.
    assert_eq!(EncoderConfig::new(Quality::Hd1080, 5, (3840, 2160)).frame_rate, 30);
    assert_eq!(EncoderConfig::new(Quality::Hd1080, 500, (3840, 2160)).frame_rate, 60);
}

#[test]
fn the_encoder_gets_the_fitted_size_and_the_exact_rate() {
    let config = EncoderConfig::new(Quality::Hd1080, 45, (3440, 1440));

    assert_eq!((config.width, config.height), Quality::Hd1080.fit((3440, 1440)));
    assert_eq!(config.bitrate, 7_500_000);
    assert_eq!(config.quality, Quality::Hd1080);
}

use unkvoid::media::receiver::{pick_route, Route, Routes};

fn route(id: &str, payload_type: u8, port: u16, ssrc: Option<u32>) -> Route<u16> {
    Route { id: id.into(), payload_type, to: port, ssrc, muted: false }
}

/// Screen and camera arrive with the same payload type; only the SSRC tells them apart.
#[test]
fn a_route_learns_its_ssrc_on_the_first_packet_and_keeps_it() {
    let mut routes = Routes {
        active: vec![route("screen", 101, 1, None), route("camera", 101, 2, None), route("mic", 100, 3, None)],
        retired: vec![0xEE],
    };

    // The rest of a closed producer is learned by nobody.
    assert!(pick_route(&mut routes, 0xEE, 101).is_none());
    assert_eq!(pick_route(&mut routes, 0xAA, 101).map(|route| route.to), Some(1));
    assert_eq!(pick_route(&mut routes, 0xBB, 101).map(|route| route.to), Some(2));
    assert_eq!(pick_route(&mut routes, 0xBB, 101).map(|route| route.to), Some(2));
    assert_eq!(pick_route(&mut routes, 0xAA, 101).map(|route| route.to), Some(1));
    assert_eq!(pick_route(&mut routes, 0xCC, 100).map(|route| route.to), Some(3));
    // A third video nobody asked for has nowhere to go.
    assert!(pick_route(&mut routes, 0xDD, 101).is_none());
}

/// With the SSRC the server returned, the route matches exactly, even when another of
/// the same type is free to learn.
#[test]
fn a_known_ssrc_matches_exactly_and_never_steals_a_learning_route() {
    let mut routes = Routes {
        active: vec![route("screen", 101, 1, None), route("camera", 101, 2, Some(0xBB))],
        retired: Vec::new(),
    };

    assert_eq!(pick_route(&mut routes, 0xBB, 101).map(|route| route.to), Some(2));
    assert_eq!(pick_route(&mut routes, 0xAA, 101).map(|route| route.to), Some(1));
}

use unkvoid::media::receiver::punch;

#[test]
fn the_punch_is_a_minimal_rtp_packet_with_payload_type_96() {
    let packet = punch(0x0102_0304, 0x0506);

    assert_eq!(packet, vec![0x80, 96, 0x05, 0x06, 0, 0, 0, 0, 0x01, 0x02, 0x03, 0x04, 0, 0, 0, 0]);
    assert_eq!(packet[1] & 0x7f, 96);
}

use unkvoid::media::avcc::{nal_header_length, to_annex_b};

#[test]
fn avcc_becomes_annex_b_and_finds_the_idr() {
    // Two NALs: an SEI (type 6) and an IDR (type 5).
    let avcc = [0, 0, 0, 2, 0x06, 0xAA, 0, 0, 0, 3, 0x65, 0xBB, 0xCC];

    let (output, is_idr) = to_annex_b(&avcc, 4);

    assert!(is_idr, "the IDR has to be recognised, or the keyframe goes without SPS/PPS");
    assert_eq!(output, [0, 0, 0, 1, 0x06, 0xAA, 0, 0, 0, 1, 0x65, 0xBB, 0xCC]);
}

#[test]
fn frame_without_idr_does_not_ask_for_parameter_sets() {
    let avcc = [0, 0, 0, 2, 0x41, 0xAA];

    let (output, is_idr) = to_annex_b(&avcc, 4);

    assert!(!is_idr);
    assert_eq!(output, [0, 0, 0, 1, 0x41, 0xAA]);
}

#[test]
fn lying_prefix_stops_instead_of_walking_into_garbage() {
    // Says the NAL has 99 bytes in a buffer that has 2.
    let avcc = [0, 0, 0, 99, 0x65, 0xAA];

    let (output, is_idr) = to_annex_b(&avcc, 4);

    assert!(output.is_empty());
    assert!(!is_idr);
}

#[test]
fn a_two_byte_prefix_and_a_trailing_scrap_keep_what_was_whole() {
    let avcc = [0, 1, 0x25, 0, 2, 0x01, 0x02, 0, 9];

    assert_eq!(to_annex_b(&avcc, 2), (vec![0, 0, 0, 1, 0x25, 0, 0, 0, 1, 0x01, 0x02], true));
    assert_eq!(nal_header_length(0, 2), 2);
    assert_eq!(nal_header_length(0, 7), 4);
    assert_eq!(nal_header_length(-1, 2), 4);
}

use unkvoid::media::video_advance;

#[test]
fn the_video_clock_follows_real_time_and_a_gap_stays_a_gap() {
    assert_eq!(video_advance(None, 5_000_000_000, 60), 0, "the first frame starts the clock");
    assert_eq!(video_advance(Some(0), 33_333_333, 60), 2999);
    assert_eq!(video_advance(Some(1_000_000_000), 31_000_000_000, 60), 2_700_000, "thirty seconds of a still screen");
    assert_eq!(video_advance(Some(0), u64::MAX, 60), u32::MAX);
}

#[test]
fn without_a_later_time_the_nominal_rate_is_the_best_guess() {
    assert_eq!(video_advance(Some(10), 10, 30), 3000);
    assert_eq!(video_advance(Some(10), 5, 45), 2000);
    assert_eq!(video_advance(Some(10), 5, 7), 12857);
    assert_eq!(video_advance(Some(10), 5, 0), 90_000, "zero fps counts as one");
}

use unkvoid::media::receiver::{is_media, rtp_stream};

#[test]
fn reports_and_short_datagrams_are_not_opened() {
    let mut rtp = punch(0x0102_0304, 7);

    assert!(is_media(&rtp));
    rtp[1] = 200;
    assert!(!is_media(&rtp), "RTCP");
    rtp[1] = 223;
    assert!(!is_media(&rtp));
    rtp[1] = 224;
    assert!(is_media(&rtp));
    assert!(!is_media(&[0x80, 96, 0, 1]));
}

#[test]
fn the_stream_is_read_from_the_header() {
    let mut rtp = punch(0xDEAD_BEEF, 1);
    rtp[1] = 0x80 | 111;

    assert_eq!(rtp_stream(&rtp), (111, 0xDEAD_BEEF));
    assert_eq!(rtp_stream(&punch(0x0102_0304, 7)), (96, 0x0102_0304));
}
