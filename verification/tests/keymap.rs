use unkvoid::keymap::{macos_key, macos_key_name, macos_modifier, split};

#[test]
fn every_key_that_can_be_saved_can_be_read_back() {
    for name in ["KeyM", "Digit0", "F13", "Space", "Backquote", "ArrowUp"] {
        let code = macos_key(name).expect(name);

        assert_eq!(macos_key_name(code).as_deref(), Some(name));
    }

    assert_eq!(macos_key_name(9_999), None);
}

#[test]
fn an_accelerator_splits_into_key_and_modifiers() {
    let parsed = split("CmdOrCtrl+Shift+KeyM").expect("split");

    assert_eq!(parsed.key, "KeyM");
    assert_eq!(parsed.modifiers, vec!["CmdOrCtrl", "Shift"]);
}

#[test]
fn a_bare_key_has_no_modifiers() {
    let parsed = split("F13").expect("split");

    assert_eq!(parsed.key, "F13");
    assert!(parsed.modifiers.is_empty());
}

#[test]
fn an_empty_accelerator_is_refused() {
    assert!(split("").is_none());
    assert!(split("  ").is_none());
}

#[test]
fn spaces_around_the_parts_and_empty_parts_are_dropped() {
    let parsed = split(" Shift + + KeyA ").expect("split");

    assert_eq!(parsed.key, "KeyA");
    assert_eq!(parsed.modifiers, vec!["Shift"]);
}

#[test]
fn every_letter_and_digit_has_a_macos_code() {
    for letter in 'a'..='z' {
        assert!(macos_key(&format!("Key{}", letter.to_ascii_uppercase())).is_some(), "faltou {letter}");
    }

    for digit in 0..=9 {
        assert!(macos_key(&format!("Digit{digit}")).is_some(), "faltou o dígito {digit}");
    }
}

#[test]
fn no_two_keys_share_a_code() {
    let mut codes = Vec::new();

    for letter in 'a'..='z' {
        codes.push(macos_key(&format!("Key{letter}")).expect("letter"));
    }

    for digit in 0..=9 {
        codes.push(macos_key(&format!("Digit{digit}")).expect("digit"));
    }

    for name in ["Space", "Enter", "Tab", "Escape", "ArrowUp", "Home"] {
        codes.push(macos_key(name).expect("named"));
    }

    let unique: std::collections::HashSet<_> = codes.iter().collect();

    assert_eq!(unique.len(), codes.len(), "há teclas diferentes com o mesmo código");
}

#[test]
fn the_default_binds_of_the_app_all_translate() {
    for accelerator in ["CmdOrCtrl+Shift+KeyM", "CmdOrCtrl+Shift+KeyD", "F13"] {
        let parsed = split(accelerator).expect("split");

        assert!(macos_key(&parsed.key).is_some(), "sem código: {accelerator}");

        for modifier in parsed.modifiers {
            assert!(macos_modifier(&modifier).is_some(), "sem modificador: {modifier}");
        }
    }
}

#[test]
fn an_unknown_key_is_refused_instead_of_guessed() {
    assert!(macos_key("Teclado").is_none());
    assert!(macos_key("F99").is_none());
    assert!(macos_modifier("Hyper").is_none());
}

#[test]
fn the_codes_are_the_carbon_ones() {
    assert_eq!(macos_key("KeyA"), Some(0));
    assert_eq!(macos_key("Digit5"), Some(23));
    assert_eq!(macos_key("F1"), Some(122));
    assert_eq!(macos_key("Backquote"), Some(50));
    assert_eq!(macos_modifier("Ctrl"), Some([59, 62]));
    assert_eq!(macos_modifier("CmdOrCtrl"), Some([55, 54]));
}

#[test]
fn the_letter_is_read_in_either_case() {
    for letter in 'a'..='z' {
        let lower = macos_key(&format!("Key{letter}"));

        assert!(lower.is_some());
        assert_eq!(lower, macos_key(&format!("Key{}", letter.to_ascii_uppercase())));
    }
}
