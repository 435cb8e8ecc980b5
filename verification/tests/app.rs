use unkvoid::app::{
    chosen, code_to_create, guessed_quality, is_preference, qualities_offered, readable_recent, remembered, AppState,
    EntryRefusal, INSTALL_KEY, MAX_RECENT, NAME_KEY, RECENT_KEY, REFRESH_KEY, ROOM_KEY, TOKEN_KEY,
};
use unkvoid::models::Screen;
use unkvoid::room_code::is_valid;

fn entry() -> AppState {
    AppState { screen: Screen::Entry, name: String::new(), room: None }
}

/// The keys cannot drift from what the app already wrote.
#[test]
fn the_keys_are_the_ones_the_app_already_wrote() {
    assert_eq!(NAME_KEY, "unkvoid:name");
    assert_eq!(ROOM_KEY, "unkvoid:last-room");
    assert_eq!(RECENT_KEY, "unkvoid:recent-rooms");
    assert_eq!(TOKEN_KEY, "unkvoid:token");
    assert_eq!(INSTALL_KEY, "unkvoid.instalacao");
}

#[test]
fn the_share_quality_guess_is_the_react_one() {
    assert_eq!(guessed_quality(16, false), ("1080", "60"));
    assert_eq!(guessed_quality(4, false), ("720", "30"));
    assert_eq!(guessed_quality(6, true), ("1080", "30"));
    assert_eq!(guessed_quality(6, false), ("1080", "60"));
}

#[test]
fn a_saved_choice_sticks_only_when_it_is_offered() {
    let offered = qualities_offered();

    assert_eq!(chosen(Some("1440".into()), &offered, "1080"), "1440");
    assert_eq!(chosen(Some("999".into()), &offered, "1080"), "1080");
    assert_eq!(chosen(None, &offered, "720"), "720");
}

#[test]
fn the_tokens_never_leave_through_the_preferences() {
    assert!(!is_preference(REFRESH_KEY));
    assert!(!is_preference(TOKEN_KEY));
    assert!(is_preference("unkvoid:quality"));
}

#[test]
fn creating_without_a_code_draws_one() {
    let mut state = entry();
    let code = code_to_create("");
    let room = state.open_room("Ada", &code).expect("create");

    assert!(is_valid(&room));
    assert_eq!(state.screen, Screen::Room);
    assert_eq!(state.room.as_deref(), Some(room.as_str()));
}

#[test]
fn a_typed_code_is_normalised_before_use() {
    let mut state = entry();

    assert_eq!(state.open_room("Ada", &code_to_create("  SALA-DO-EDSU  ")).expect("join"), "sala-do-edsu");
}

#[test]
fn entering_without_a_name_is_refused() {
    let mut state = entry();

    assert_eq!(state.open_room("   ", "sala-um").unwrap_err(), EntryRefusal::NameIsEmpty);
    assert_eq!(state.screen, Screen::Entry, "mudou de tela mesmo recusando");
}

#[test]
fn a_malformed_code_is_refused() {
    let mut state = entry();

    assert_eq!(state.open_room("Ada", "-x-").unwrap_err(), EntryRefusal::CodeIsInvalid);
    assert!(state.room.is_none());
}

#[test]
fn leaving_a_room_lands_where_the_account_says() {
    let mut state = entry();

    state.open_room("Ada", "sala-um").expect("create");
    state.leave_room(false);
    assert_eq!(state.screen, Screen::Entry);

    state.open_room("Ada", "sala-um").expect("create");
    state.leave_room(true);
    assert_eq!(state.screen, Screen::Hub, "quem tem conta volta para os servidores");
}

#[test]
fn only_the_last_three_rooms_are_listed() {
    let saved: Vec<Option<String>> =
        ["sala-um", "sala-dois", "sala-tres", "sala-quatro", "sala-cinco"].iter().map(|code| Some(code.to_string())).collect();
    let recent = readable_recent(&saved);

    assert_eq!(recent, ["sala-um", "sala-dois", "sala-tres"]);
    assert_eq!(remembered(&recent, "sala-nova"), ["sala-nova", "sala-um", "sala-dois"], "a mais nova entra e a mais antiga sai");
}

#[test]
fn the_recent_list_puts_the_last_one_first_and_never_repeats() {
    let mut recent: Vec<String> = Vec::new();

    for code in ["sala-um", "sala-dois", "sala-um"] {
        recent = remembered(&recent, code);
    }

    assert_eq!(recent, vec!["sala-um", "sala-dois"]);
}

#[test]
fn the_recent_list_is_capped() {
    let mut recent: Vec<String> = Vec::new();

    for index in 0..(MAX_RECENT + 5) {
        recent = remembered(&recent, &format!("sala-{index}"));
    }

    assert_eq!(recent.len(), MAX_RECENT);
}

#[test]
fn an_invalid_code_saved_by_an_older_version_is_ignored() {
    let saved = vec![Some("boa".to_string()), Some("-ruim-".to_string()), None];

    assert_eq!(readable_recent(&saved), vec!["boa"]);
}

#[test]
fn the_picker_offers_the_interface_choices_in_order() {
    assert_eq!(unkvoid::app::qualities_offered(), vec!["720", "1080", "1440", "2160"]);
    assert_eq!(unkvoid::app::frame_rates_offered(), vec!["30", "60"]);
    assert_eq!(chosen(Some("60".into()), &unkvoid::app::frame_rates_offered(), "30"), "60");
}

#[test]
fn the_share_quality_guess_is_the_react_one_and_a_choice_sticks() {
    assert_eq!(guessed_quality(16, false), ("1080", "60"));
    assert_eq!(guessed_quality(4, false), ("720", "30"));
    assert_eq!(guessed_quality(6, true), ("1080", "30"));
    assert_eq!(guessed_quality(6, false), ("1080", "60"));

    // A choice saved earlier opens the picker again.
    assert_eq!(chosen(Some("1440".into()), &qualities_offered(), "1080"), "1440");
    assert_eq!(chosen(Some("30".into()), &unkvoid::app::frame_rates_offered(), "60"), "30");
}
