use unkvoid::capture::windows_audio::{audio_scope, AudioScope};
use unkvoid::capture::CaptureSource;
use unkvoid::capture::windows_audio::{chosen, gives_up, BLIND_SCANS};

#[test]
fn mix_leaves_discord_and_ourselves_out() {
    // (child, parent). Explorer 10 opened the call app 20, us 30 and the game 40; the call
    // app plays in its child 21 and our webview in the grandchild 32. Steam 50 plays sound
    // and opened the game 51. Chrome 60 plays in its child 61.
    let links = [(20, 10), (21, 20), (30, 10), (31, 30), (32, 31), (40, 10), (51, 50), (61, 60)];

    let wanted = chosen(&[10, 21, 32, 40, 50, 51, 61, 40], &[20, 21, 30], &links);

    // Explorer would bring the call app in its tree, 21 and 32 descend from muted ones, and
    // 51 already comes in Steam's tree.
    assert_eq!(wanted, vec![40, 50, 61]);
}

#[test]
fn the_mix_gives_up_once_it_is_mute_or_blind_for_too_long() {
    // A scan that worked never brings anything down, with or without a tap open.
    assert!(!gives_up(0, 0));
    assert!(!gives_up(0, 3));

    // Failed with nothing open: mute, and the first one is enough.
    assert!(gives_up(1, 0));

    // Failed with a tap open: it takes the passing failure, not the one that lasts.
    assert!(!gives_up(1, 2));
    assert!(!gives_up(BLIND_SCANS - 1, 2));
    assert!(gives_up(BLIND_SCANS, 2));
}

#[test]
fn a_cycle_of_recycled_process_numbers_ends() {
    let links = [(1, 2), (2, 1)];

    assert_eq!(chosen(&[1, 3], &[], &links), vec![3]);
}

use unkvoid::capture::windows_audio::{excluded, valid_parent};

#[test]
fn the_muted_apps_and_the_relays_stay_out_whatever_their_case_and_so_do_we() {
    let processes = vec![
        (10, "explorer.exe".to_string()),
        (20, "DISCORD.EXE".to_string()),
        (30, "audiodg.exe".to_string()),
        (40, "cs2.exe".to_string()),
        (50, "VoiceMeeterPro_x64.exe".to_string()),
    ];

    assert_eq!(excluded(&processes, 99), vec![20, 30, 50, 99]);
    assert_eq!(excluded(&[], 7), vec![7]);
}

#[test]
fn a_parent_born_after_its_child_is_someone_else() {
    assert_eq!(valid_parent(200, 100, true, Some(5), Some(9)), Some(100));
    assert_eq!(valid_parent(200, 100, true, Some(9), Some(5)), None, "the number was reused");
    assert_eq!(valid_parent(200, 100, false, Some(5), Some(9)), None, "the parent is gone");
    assert_eq!(valid_parent(200, 0, true, Some(5), Some(9)), None);
    assert_eq!(valid_parent(200, 200, true, Some(5), Some(9)), None);
    assert_eq!(valid_parent(200, 100, true, None, Some(9)), None);
}

#[test]
fn a_shared_window_with_the_call_apps_muted_records_only_its_owner() {

    assert_eq!(audio_scope(CaptureSource::Window(77), true, 4242), AudioScope::OnlyProcess(4242));
    assert_eq!(audio_scope(CaptureSource::Window(77), true, 0), AudioScope::ExcludeSelf, "owner unreadable");
    assert_eq!(audio_scope(CaptureSource::Window(77), false, 4242), AudioScope::ExcludeSelf);
    assert_eq!(audio_scope(CaptureSource::PrimaryDisplay, true, 4242), AudioScope::ExcludeSelf);
    assert_eq!(audio_scope(CaptureSource::Display(1), true, 0), AudioScope::ExcludeSelf);
}
