use unkvoid::capture::linux_audio::targets;

const LISTING: &str = "\
Sink Input #10
\tDriver: protocol-native.c
\tOwner Module: 7
\tProperties:
\t\tapplication.name = \"Discord\"
\t\tapplication.process.id = \"100\"
\t\tapplication.process.binary = \"Discord\"

Sink Input #11
\tDriver: protocol-native.c
\tOwner Module: 7
\tProperties:
\t\tapplication.name = \"Counter-Strike 2\"
\t\tapplication.process.id = \"200\"
\t\tapplication.process.binary = \"cs2\"

Sink Input #12
\tDriver: protocol-native.c
\tOwner Module: 7
\tProperties:
\t\tapplication.name = \"gst-launch-1.0\"
\t\tapplication.process.id = \"300\"
\t\tapplication.process.binary = \"gst-launch-1.0\"

Sink Input #13
\tDriver: module-combine-sink.c
\tOwner Module: 42
\tProperties:
\t\tapplication.name = \"Simultaneous output\"
\t\tapplication.process.id = \"1\"
\t\tapplication.process.binary = \"pulseaudio\"

Sink Input #14
\tDriver: protocol-native.c
\tOwner Module: 7
\tProperties:
\t\tapplication.name = \"vesktop\"
\t\tapplication.process.id = \"400\"
\t\tapplication.process.binary = \"electron\"

Sink Input #15
\tDriver: protocol-native.c
\tOwner Module: 7
\tProperties:
\t\tapplication.name = \"Firefox\"
\t\tapplication.process.id = \"500\"
\t\tapplication.process.binary = \"firefox\"
";

#[test]
fn only_the_game_and_the_browser_go_up() {
    // Process 300 is a child of ours (999).
    let parents = [(300, 999)];
    let muted = ["discord".to_string(), "vesktop".to_string()];

    assert_eq!(targets(LISTING, 42, &muted, 999, &parents), vec![11, 15]);
}

#[test]
fn without_the_flag_the_call_goes_up_but_never_ourselves() {
    let parents = [(300, 999)];

    assert_eq!(targets(LISTING, 42, &[], 999, &parents), vec![10, 11, 14, 15]);
}

#[test]
fn a_listing_without_streams_sends_nothing() {
    assert_eq!(targets("", 42, &[], 999, &[]), Vec::<u32>::new());
    assert_eq!(targets("Sink Input #x\n", 42, &[], 999, &[]), Vec::<u32>::new());
}

use unkvoid::capture::linux_audio::parent_in_stat;

#[test]
fn the_parent_comes_after_the_name_even_when_the_name_has_a_parenthesis() {
    assert_eq!(parent_in_stat("300 (gst-launch-1.0) S 999 300 300 0"), Some(999));
    assert_eq!(parent_in_stat("42 (a) b)) R 7 42"), Some(7));
    assert_eq!(parent_in_stat("sem parêntese"), None);
}

use unkvoid::capture::linux_audio::muted_names;

#[test]
fn the_flag_mutes_the_executables_without_exe_and_in_small_letters() {
    assert_eq!(
        muted_names(true),
        vec![
            "discord", "discordptb", "discordcanary", "discordsystemhelper", "vesktop", "armcord", "legcord", "webcord",
        ]
    );
    assert_eq!(muted_names(false), Vec::<String>::new());
    assert_eq!(targets(LISTING, 42, &muted_names(true), 999, &[(300, 999)]), vec![11, 15]);
}
