//! The key code the interface saves, translated into the number each system uses.
//!
//! The interface saves `KeyM`, `F13`, `Space`: the same name on every system, because it is
//! what the browser and the virtual keyboard give. Whoever polls the keyboard wants a number,
//! and the number differs on each platform. The key is polled, never registered: a
//! registered hot key is swallowed by the system and never reaches the game in front.

use vstd::prelude::*;

use crate::models::same_text;
use crate::text::{
    all_digits, chars_of, digit_char, digit_value, digits_value, has_prefix, parse_u8, seq_views, slice_of, spec_decimal, spec_parse_u8, spec_split,
    spec_trim, split_chars, starts_with, string_of, trim_chars,
};

verus! {

/// The accelerator as the interface writes it, broken into the key and its modifiers.
#[derive(Debug, Clone, PartialEq, Eq)]
pub struct Accelerator {
    pub key: String,
    pub modifiers: Vec<String>,
}

pub open spec fn string_views(texts: Seq<String>) -> Seq<Seq<char>> {
    texts.map_values(|text: String| text@)
}

/// The pieces between the `+` signs, trimmed, the empty ones left out.
pub open spec fn kept_parts(pieces: Seq<Seq<char>>) -> Seq<Seq<char>>
    decreases pieces.len(),
{
    if pieces.len() == 0 {
        Seq::empty()
    } else {
        let kept = kept_parts(pieces.drop_last());
        let part = spec_trim(pieces.last());
        if part.len() > 0 { kept.push(part) } else { kept }
    }
}

/// The key is the last part and the modifiers the ones before it; with no part there is
/// no accelerator.
pub open spec fn spec_split_accelerator(accelerator: Seq<char>) -> Option<(Seq<char>, Seq<Seq<char>>)> {
    let parts = kept_parts(spec_split(accelerator, '+'));
    if parts.len() == 0 {
        None
    } else {
        Some((parts.last(), parts.drop_last()))
    }
}

pub fn split(accelerator: &str) -> (parsed: Option<Accelerator>)
    ensures
        match spec_split_accelerator(accelerator@) {
            Some((key, modifiers)) => parsed matches Some(parsed) && parsed.key@ == key && string_views(
                parsed.modifiers@,
            ) == modifiers,
            None => parsed is None,
        },
{
    let chars = chars_of(accelerator);
    let pieces = split_chars(chars.as_slice(), '+');
    let ghost all = seq_views(pieces@);
    let mut parts: Vec<String> = Vec::new();
    let mut index: usize = 0;

    while index < pieces.len()
        invariant
            index <= pieces.len(),
            all == seq_views(pieces@),
            string_views(parts@) == kept_parts(all.take(index as int)),
        decreases pieces.len() - index,
    {
        let part = trim_chars(pieces[index].as_slice());

        proof {
            assert(all.take(index + 1).drop_last() =~= all.take(index as int));
            assert(all.take(index + 1).last() == pieces@[index as int]@);
        }

        if part.len() > 0 {
            let text = string_of(part.as_slice());
            let ghost before = parts@;
            parts.push(text);
            proof {
                assert(string_views(parts@) =~= string_views(before).push(text@));
            }
        }
        index = index + 1;
    }

    proof {
        assert(all.take(index as int) =~= all);
    }

    match parts.pop() {
        Some(key) => {
            proof {
                assert(string_views(parts@) =~= kept_parts(all).drop_last());
            }
            Some(Accelerator { key, modifiers: parts })
        },
        None => None,
    }
}

/// The letter codes of macOS (`kVK_ANSI_*`), `a` to `z`.
pub open spec fn spec_macos_letter(letter: char) -> Option<u16> {
    let lower = if 'A' <= letter && letter <= 'Z' { (letter as u32 + 32) as char } else { letter };
    if lower == 'a' { Some(0) }
    else if lower == 'b' { Some(11) }
    else if lower == 'c' { Some(8) }
    else if lower == 'd' { Some(2) }
    else if lower == 'e' { Some(14) }
    else if lower == 'f' { Some(3) }
    else if lower == 'g' { Some(5) }
    else if lower == 'h' { Some(4) }
    else if lower == 'i' { Some(34) }
    else if lower == 'j' { Some(38) }
    else if lower == 'k' { Some(40) }
    else if lower == 'l' { Some(37) }
    else if lower == 'm' { Some(46) }
    else if lower == 'n' { Some(45) }
    else if lower == 'o' { Some(31) }
    else if lower == 'p' { Some(35) }
    else if lower == 'q' { Some(12) }
    else if lower == 'r' { Some(15) }
    else if lower == 's' { Some(1) }
    else if lower == 't' { Some(17) }
    else if lower == 'u' { Some(32) }
    else if lower == 'v' { Some(9) }
    else if lower == 'w' { Some(13) }
    else if lower == 'x' { Some(7) }
    else if lower == 'y' { Some(16) }
    else if lower == 'z' { Some(6) }
    else { None }
}

/// The digit codes of macOS, `0` to `9`.
pub open spec fn spec_macos_digit(digit: u8) -> Option<u16> {
    if digit == 0 { Some(29) }
    else if digit == 1 { Some(18) }
    else if digit == 2 { Some(19) }
    else if digit == 3 { Some(20) }
    else if digit == 4 { Some(21) }
    else if digit == 5 { Some(23) }
    else if digit == 6 { Some(22) }
    else if digit == 7 { Some(26) }
    else if digit == 8 { Some(28) }
    else if digit == 9 { Some(25) }
    else { None }
}

/// The function key codes of macOS, `F1` to `F20`.
pub open spec fn spec_macos_function(number: u8) -> Option<u16> {
    if number == 1 { Some(122) }
    else if number == 2 { Some(120) }
    else if number == 3 { Some(99) }
    else if number == 4 { Some(118) }
    else if number == 5 { Some(96) }
    else if number == 6 { Some(97) }
    else if number == 7 { Some(98) }
    else if number == 8 { Some(100) }
    else if number == 9 { Some(101) }
    else if number == 10 { Some(109) }
    else if number == 11 { Some(103) }
    else if number == 12 { Some(111) }
    else if number == 13 { Some(105) }
    else if number == 14 { Some(107) }
    else if number == 15 { Some(113) }
    else if number == 16 { Some(106) }
    else if number == 17 { Some(64) }
    else if number == 18 { Some(79) }
    else if number == 19 { Some(80) }
    else if number == 20 { Some(90) }
    else { None }
}

/// The keys saved by name.
pub open spec fn spec_macos_named(code: Seq<char>) -> Option<u16> {
    if code == "Space"@ { Some(49) }
    else if code == "Enter"@ { Some(36) }
    else if code == "Tab"@ { Some(48) }
    else if code == "Backspace"@ { Some(51) }
    else if code == "Escape"@ { Some(53) }
    else if code == "ArrowLeft"@ { Some(123) }
    else if code == "ArrowRight"@ { Some(124) }
    else if code == "ArrowDown"@ { Some(125) }
    else if code == "ArrowUp"@ { Some(126) }
    else if code == "Home"@ { Some(115) }
    else if code == "End"@ { Some(119) }
    else if code == "PageUp"@ { Some(116) }
    else if code == "PageDown"@ { Some(121) }
    else if code == "Delete"@ { Some(117) }
    else if code == "Minus"@ { Some(27) }
    else if code == "Equal"@ { Some(24) }
    else if code == "BracketLeft"@ { Some(33) }
    else if code == "BracketRight"@ { Some(30) }
    else if code == "Backslash"@ { Some(42) }
    else if code == "Semicolon"@ { Some(41) }
    else if code == "Quote"@ { Some(39) }
    else if code == "Comma"@ { Some(43) }
    else if code == "Period"@ { Some(47) }
    else if code == "Slash"@ { Some(44) }
    else if code == "Backquote"@ { Some(50) }
    else { None }
}

pub open spec fn key_prefix() -> Seq<char> {
    seq!['K', 'e', 'y']
}

pub open spec fn digit_prefix() -> Seq<char> {
    seq!['D', 'i', 'g', 'i', 't']
}

pub open spec fn function_prefix() -> Seq<char> {
    seq!['F']
}

/// The number macOS uses for a saved key (`kVK_*` of Carbon). `Key` and a letter, `Digit`
/// and a number, `F` and a number are decided by what follows the prefix; the rest by name.
pub open spec fn spec_macos_key(code: Seq<char>) -> Option<u16> {
    if has_prefix(code, key_prefix()) && code.len() > 3 {
        spec_macos_letter(code[3])
    } else if has_prefix(code, digit_prefix()) && spec_parse_u8(code.skip(5)) is Some {
        spec_macos_digit(spec_parse_u8(code.skip(5))->0)
    } else if has_prefix(code, function_prefix()) && spec_parse_u8(code.skip(1)) is Some {
        spec_macos_function(spec_parse_u8(code.skip(1))->0)
    } else {
        spec_macos_named(code)
    }
}

fn macos_letter(letter: char) -> (code: Option<u16>)
    ensures
        code == spec_macos_letter(letter),
{
    let lower = if 'A' <= letter && letter <= 'Z' { ((letter as u8) + 32) as char } else { letter };
    proof {
        if 'A' <= letter && letter <= 'Z' {
            assert(lower == (letter as u32 + 32) as char);
        }
    }
    match lower {
        'a' => Some(0),
        'b' => Some(11),
        'c' => Some(8),
        'd' => Some(2),
        'e' => Some(14),
        'f' => Some(3),
        'g' => Some(5),
        'h' => Some(4),
        'i' => Some(34),
        'j' => Some(38),
        'k' => Some(40),
        'l' => Some(37),
        'm' => Some(46),
        'n' => Some(45),
        'o' => Some(31),
        'p' => Some(35),
        'q' => Some(12),
        'r' => Some(15),
        's' => Some(1),
        't' => Some(17),
        'u' => Some(32),
        'v' => Some(9),
        'w' => Some(13),
        'x' => Some(7),
        'y' => Some(16),
        'z' => Some(6),
        _ => None,
    }
}

fn macos_digit(digit: u8) -> (code: Option<u16>)
    ensures
        code == spec_macos_digit(digit),
{
    match digit {
        0 => Some(29),
        1 => Some(18),
        2 => Some(19),
        3 => Some(20),
        4 => Some(21),
        5 => Some(23),
        6 => Some(22),
        7 => Some(26),
        8 => Some(28),
        9 => Some(25),
        _ => None,
    }
}

fn macos_function(number: u8) -> (code: Option<u16>)
    ensures
        code == spec_macos_function(number),
{
    match number {
        1 => Some(122),
        2 => Some(120),
        3 => Some(99),
        4 => Some(118),
        5 => Some(96),
        6 => Some(97),
        7 => Some(98),
        8 => Some(100),
        9 => Some(101),
        10 => Some(109),
        11 => Some(103),
        12 => Some(111),
        13 => Some(105),
        14 => Some(107),
        15 => Some(113),
        16 => Some(106),
        17 => Some(64),
        18 => Some(79),
        19 => Some(80),
        20 => Some(90),
        _ => None,
    }
}

fn macos_named(code: &str) -> (number: Option<u16>)
    ensures
        number == spec_macos_named(code@),
{
    if same_text(code, "Space") { Some(49) }
    else if same_text(code, "Enter") { Some(36) }
    else if same_text(code, "Tab") { Some(48) }
    else if same_text(code, "Backspace") { Some(51) }
    else if same_text(code, "Escape") { Some(53) }
    else if same_text(code, "ArrowLeft") { Some(123) }
    else if same_text(code, "ArrowRight") { Some(124) }
    else if same_text(code, "ArrowDown") { Some(125) }
    else if same_text(code, "ArrowUp") { Some(126) }
    else if same_text(code, "Home") { Some(115) }
    else if same_text(code, "End") { Some(119) }
    else if same_text(code, "PageUp") { Some(116) }
    else if same_text(code, "PageDown") { Some(121) }
    else if same_text(code, "Delete") { Some(117) }
    else if same_text(code, "Minus") { Some(27) }
    else if same_text(code, "Equal") { Some(24) }
    else if same_text(code, "BracketLeft") { Some(33) }
    else if same_text(code, "BracketRight") { Some(30) }
    else if same_text(code, "Backslash") { Some(42) }
    else if same_text(code, "Semicolon") { Some(41) }
    else if same_text(code, "Quote") { Some(39) }
    else if same_text(code, "Comma") { Some(43) }
    else if same_text(code, "Period") { Some(47) }
    else if same_text(code, "Slash") { Some(44) }
    else if same_text(code, "Backquote") { Some(50) }
    else { None }
}

/// The number macOS uses for a saved key, which looks like neither the Windows one nor the
/// key's place on the keyboard.
pub fn macos_key(code: &str) -> (number: Option<u16>)
    ensures
        number == spec_macos_key(code@),
{
    let chars = chars_of(code);
    let key = vec!['K', 'e', 'y'];
    let digit = vec!['D', 'i', 'g', 'i', 't'];
    let function = vec!['F'];

    proof {
        assert(key@ =~= key_prefix());
        assert(digit@ =~= digit_prefix());
        assert(function@ =~= function_prefix());
    }

    if starts_with(chars.as_slice(), key.as_slice()) && chars.len() > 3 {
        return macos_letter(chars[3]);
    }

    if starts_with(chars.as_slice(), digit.as_slice()) {
        let rest = slice_of(chars.as_slice(), 5, chars.len());
        proof {
            assert(rest@ =~= chars@.skip(5));
        }
        if let Some(value) = parse_u8(rest.as_slice()) {
            return macos_digit(value);
        }
    }

    if starts_with(chars.as_slice(), function.as_slice()) {
        let rest = slice_of(chars.as_slice(), 1, chars.len());
        proof {
            assert(rest@ =~= chars@.skip(1));
        }
        if let Some(value) = parse_u8(rest.as_slice()) {
            return macos_function(value);
        }
    }

    macos_named(code)
}

/// The name of the `index`-th letter key, `KeyA` to `KeyZ`.
pub open spec fn letter_name(index: int) -> Seq<char> {
    key_prefix().push(('A' as int + index) as char)
}

pub open spec fn digit_name(digit: int) -> Seq<char> {
    digit_prefix() + spec_decimal(digit as nat)
}

pub open spec fn function_name(number: int) -> Seq<char> {
    function_prefix() + spec_decimal(number as nat)
}

pub open spec fn named_keys() -> Seq<Seq<char>> {
    seq![
        "Space"@, "Enter"@, "Tab"@, "Backspace"@, "Escape"@, "ArrowLeft"@, "ArrowRight"@, "ArrowDown"@,
        "ArrowUp"@, "Home"@, "End"@, "PageUp"@, "PageDown"@, "Delete"@, "Minus"@, "Equal"@, "BracketLeft"@,
        "BracketRight"@, "Backslash"@, "Semicolon"@, "Quote"@, "Comma"@, "Period"@, "Slash"@, "Backquote"@,
    ]
}

/// Every name a key can be saved under, in the order the way back searches them: the
/// letters, the digits, the function keys, then the named keys.
pub open spec fn key_names() -> Seq<Seq<char>> {
    Seq::new(26, |i: int| letter_name(i)) + Seq::new(10, |i: int| digit_name(i)) + Seq::new(
        20,
        |i: int| function_name(i + 1),
    ) + named_keys()
}

/// The first of `names` that macOS gives `code` for.
pub open spec fn first_named(names: Seq<Seq<char>>, code: u16) -> Option<Seq<char>>
    decreases names.len(),
{
    if names.len() == 0 {
        None
    } else if spec_macos_key(names[0]) == Some(code) {
        Some(names[0])
    } else {
        first_named(names.drop_first(), code)
    }
}

pub open spec fn spec_macos_key_name(code: u16) -> Option<Seq<char>> {
    first_named(key_names(), code)
}

proof fn lemma_first_named_append(names: Seq<Seq<char>>, more: Seq<Seq<char>>, code: u16)
    requires
        first_named(names, code) is None,
    ensures
        first_named(names + more, code) == first_named(more, code),
    decreases names.len(),
{
    if names.len() > 0 {
        assert((names + more).drop_first() =~= names.drop_first() + more);
        lemma_first_named_append(names.drop_first(), more, code);
    } else {
        assert(names + more =~= more);
    }
}

proof fn lemma_first_named_push(names: Seq<Seq<char>>, name: Seq<char>, code: u16)
    requires
        first_named(names, code) is None,
    ensures
        first_named(names.push(name), code) == (if spec_macos_key(name) == Some(code) {
            Some(name)
        } else {
            None
        }),
{
    let single = seq![name];
    lemma_first_named_append(names, single, code);
    assert(names.push(name) =~= names + single);
    assert(single[0] == name);
    assert(single.drop_first() =~= Seq::<Seq<char>>::empty());
    assert(first_named(single.drop_first(), code) is None);
}

/// Every name a key can be saved under, as texts.
fn all_key_names() -> (names: Vec<String>)
    ensures
        string_views(names@) == key_names(),
{
    let mut names: Vec<String> = Vec::new();
    let mut index: u8 = 0;

    while index < 26
        invariant
            index <= 26,
            string_views(names@) == Seq::new(26, |i: int| letter_name(i)).take(index as int),
        decreases 26 - index,
    {
        let mut name = String::from_str("Key");
        let letter = (65u8 + index) as char;
        crate::text::push_char(&mut name, letter);
        let ghost before = names@;
        names.push(name);
        proof {
            reveal_strlit("Key");
            assert("Key"@ =~= key_prefix());
            assert(letter == ('A' as int + index) as char);
            assert(name@ =~= letter_name(index as int));
            assert(string_views(names@) =~= string_views(before).push(name@));
            assert(Seq::new(26, |i: int| letter_name(i)).take(index + 1) =~= Seq::new(26, |i: int| letter_name(i)).take(
                index as int,
            ).push(letter_name(index as int)));
        }
        index = index + 1;
    }

    let ghost letters = string_views(names@);
    let mut digit: u64 = 0;

    proof {
        assert(letters =~= Seq::new(26, |i: int| letter_name(i)));
    }

    while digit < 10
        invariant
            digit <= 10,
            letters == Seq::new(26, |i: int| letter_name(i)),
            string_views(names@) == letters + Seq::new(10, |i: int| digit_name(i)).take(digit as int),
        decreases 10 - digit,
    {
        let mut name = String::from_str("Digit");
        let number = crate::text::decimal(digit);
        name.append(number.as_str());
        let ghost before = names@;
        names.push(name);
        proof {
            reveal_strlit("Digit");
            assert("Digit"@ =~= digit_prefix());
            assert(name@ =~= digit_name(digit as int));
            assert(string_views(names@) =~= string_views(before).push(name@));
            assert(Seq::new(10, |i: int| digit_name(i)).take(digit + 1) =~= Seq::new(10, |i: int| digit_name(i)).take(
                digit as int,
            ).push(digit_name(digit as int)));
        }
        digit = digit + 1;
    }

    let ghost with_digits = string_views(names@);
    let mut number: u64 = 1;

    proof {
        assert(with_digits =~= letters + Seq::new(10, |i: int| digit_name(i)));
    }

    while number <= 20
        invariant
            1 <= number <= 21,
            with_digits == Seq::new(26, |i: int| letter_name(i)) + Seq::new(10, |i: int| digit_name(i)),
            string_views(names@) == with_digits + Seq::new(20, |i: int| function_name(i + 1)).take(number - 1),
        decreases 21 - number,
    {
        let mut name = String::from_str("F");
        let text = crate::text::decimal(number);
        name.append(text.as_str());
        let ghost before = names@;
        names.push(name);
        proof {
            reveal_strlit("F");
            assert("F"@ =~= function_prefix());
            assert(name@ =~= function_name(number as int));
            assert(string_views(names@) =~= string_views(before).push(name@));
            assert(Seq::new(20, |i: int| function_name(i + 1)).take(number as int) =~= Seq::new(
                20,
                |i: int| function_name(i + 1),
            ).take(number - 1).push(function_name(number as int)));
        }
        number = number + 1;
    }

    let ghost numbered = string_views(names@);

    proof {
        assert(numbered =~= with_digits + Seq::new(20, |i: int| function_name(i + 1)));
    }

    let named: Vec<&str> = vec![
        "Space", "Enter", "Tab", "Backspace", "Escape", "ArrowLeft", "ArrowRight", "ArrowDown", "ArrowUp",
        "Home", "End", "PageUp", "PageDown", "Delete", "Minus", "Equal", "BracketLeft", "BracketRight",
        "Backslash", "Semicolon", "Quote", "Comma", "Period", "Slash", "Backquote",
    ];
    let mut at: usize = 0;

    proof {
        assert(named@.map_values(|name: &str| name@) =~= named_keys());
    }

    while at < named.len()
        invariant
            at <= named.len(),
            named@.map_values(|name: &str| name@) == named_keys(),
            numbered == Seq::new(26, |i: int| letter_name(i)) + Seq::new(10, |i: int| digit_name(i)) + Seq::new(
                20,
                |i: int| function_name(i + 1),
            ),
            string_views(names@) == numbered + named_keys().take(at as int),
        decreases named.len() - at,
    {
        let name = String::from_str(named[at]);
        let ghost before = names@;
        names.push(name);
        proof {
            assert(named_keys()[at as int] == named@[at as int]@);
            assert(string_views(names@) =~= string_views(before).push(name@));
            assert(named_keys().take(at + 1) =~= named_keys().take(at as int).push(named_keys()[at as int]));
        }
        at = at + 1;
    }

    proof {
        assert(named_keys().take(at as int) =~= named_keys());
    }

    names
}

/// The way back: the number the system gave when the key was pressed, under the name the
/// interface saves. It searches `macos_key`, so the two directions never diverge.
pub fn macos_key_name(code: u16) -> (name: Option<String>)
    ensures
        match spec_macos_key_name(code) {
            Some(found) => name matches Some(name) && name@ == found,
            None => name is None,
        },
{
    let mut names = all_key_names();
    let ghost all = key_names();
    let mut index: usize = 0;

    proof {
        assert(all.take(0) =~= Seq::<Seq<char>>::empty());
    }

    while index < names.len()
        invariant
            all == key_names(),
            string_views(names@) == all,
            index <= names.len(),
            first_named(all.take(index as int), code) is None,
        decreases names.len() - index,
    {
        proof {
            assert(all[index as int] == names@[index as int]@);
            lemma_first_named_push(all.take(index as int), all[index as int], code);
            assert(all.take(index + 1) =~= all.take(index as int).push(all[index as int]));
        }
        if macos_key(names[index].as_str()) == Some(code) {
            proof {
                lemma_first_named_append(all.take(index as int), all.skip(index as int), code);
                assert(all.take(index as int) + all.skip(index as int) =~= all);
                assert(all.skip(index as int)[0] == all[index as int]);
            }
            return Some(names.remove(index));
        }
        index = index + 1;
    }

    proof {
        assert(all.take(index as int) =~= all);
    }

    None
}

proof fn lemma_first_named(names: Seq<Seq<char>>, code: u16, index: int)
    requires
        0 <= index < names.len(),
        spec_macos_key(names[index]) == Some(code),
    ensures
        first_named(names, code) is Some,
    decreases names.len(),
{
    if spec_macos_key(names[0]) != Some(code) {
        assert(names.drop_first()[index - 1] == names[index]);
        lemma_first_named(names.drop_first(), code, index - 1);
    }
}

proof fn lemma_first_named_has_code(names: Seq<Seq<char>>, code: u16)
    ensures
        first_named(names, code) matches Some(name) ==> spec_macos_key(name) == Some(code) && names.contains(name),
    decreases names.len(),
{
    if names.len() > 0 && spec_macos_key(names[0]) != Some(code) {
        lemma_first_named_has_code(names.drop_first(), code);
        if let Some(name) = first_named(names.drop_first(), code) {
            let i = choose|i: int| 0 <= i < names.drop_first().len() && names.drop_first()[i] == name;
            assert(names[i + 1] == name);
        }
    }
}

/// The two directions agree: the name the way back gives for a code is one the interface
/// saves and translates to that same code, and every code that some saved name has is
/// found on the way back.
pub proof fn law_the_way_back_agrees(code: u16)
    ensures
        spec_macos_key_name(code) matches Some(name) ==> spec_macos_key(name) == Some(code) && key_names().contains(
            name,
        ),
        (exists|i: int| 0 <= i < key_names().len() && #[trigger] spec_macos_key(key_names()[i]) == Some(code))
            ==> spec_macos_key_name(code) is Some,
{
    lemma_first_named_has_code(key_names(), code);
    if exists|i: int| 0 <= i < key_names().len() && #[trigger] spec_macos_key(key_names()[i]) == Some(code) {
        let i = choose|i: int| 0 <= i < key_names().len() && #[trigger] spec_macos_key(key_names()[i]) == Some(code);
        lemma_first_named(key_names(), code, i);
    }
}

/// A text whose character at `at` differs from the prefix's does not start with it.
proof fn lemma_not_prefix(text: Seq<char>, prefix: Seq<char>, at: int)
    requires
        0 <= at < prefix.len(),
        at < text.len() ==> text[at] != prefix[at],
    ensures
        !has_prefix(text, prefix),
{
    if has_prefix(text, prefix) {
        assert(text.take(prefix.len() as int)[at] == text[at]);
    }
}

proof fn lemma_letter_key(i: int)
    requires
        0 <= i < 26,
    ensures
        spec_macos_key(letter_name(i)) == spec_macos_letter(('A' as int + i) as char),
{
    let name = letter_name(i);
    assert(name.take(3) =~= key_prefix());
    assert(name[3] == ('A' as int + i) as char);
}

proof fn lemma_parse_one_digit(d: int)
    requires
        0 <= d < 10,
    ensures
        spec_parse_u8(seq![digit_char(d as nat)]) == Some(d as u8),
{
    let digits = seq![digit_char(d as nat)];
    assert(digits.drop_last() =~= Seq::<char>::empty());
    assert(digits_value(Seq::<char>::empty()) == 0);
    assert(digit_value(digit_char(d as nat)) == d);
    assert(all_digits(digits));
    assert(digits_value(digits) == digits_value(digits.drop_last()) * 10 + digit_value(digits.last()));
}

proof fn lemma_digit_key(d: int)
    requires
        0 <= d < 10,
    ensures
        spec_macos_key(digit_name(d)) == spec_macos_digit(d as u8),
{
    let name = digit_name(d);
    assert(spec_decimal(d as nat) == seq![digit_char(d as nat)]);
    assert(name[0] == 'D');
    lemma_not_prefix(name, key_prefix(), 0);
    assert(name.take(5) =~= digit_prefix());
    assert(name.skip(5) =~= seq![digit_char(d as nat)]);
    lemma_parse_one_digit(d);
}

proof fn lemma_function_key(n: int)
    requires
        1 <= n <= 20,
    ensures
        spec_macos_key(function_name(n)) == spec_macos_function(n as u8),
{
    let name = function_name(n);
    let decimal = spec_decimal(n as nat);
    if n < 10 {
        assert(decimal == seq![digit_char(n as nat)]);
        lemma_parse_one_digit(n);
    } else {
        assert(spec_decimal((n / 10) as nat) == seq![digit_char((n / 10) as nat)]);
        assert(decimal == seq![digit_char((n / 10) as nat), digit_char((n % 10) as nat)]);
        assert(decimal.drop_last() =~= seq![digit_char((n / 10) as nat)]);
        assert(decimal.drop_last().drop_last() =~= Seq::<char>::empty());
        assert(all_digits(decimal));
        assert(digits_value(Seq::<char>::empty()) == 0);
        assert(digit_value(digit_char((n / 10) as nat)) == n / 10);
        assert(digit_value(digit_char((n % 10) as nat)) == n % 10);
        assert(digits_value(decimal.drop_last()) == digits_value(decimal.drop_last().drop_last()) * 10
            + digit_value(decimal.drop_last().last()));
        assert(digits_value(decimal) == digits_value(decimal.drop_last()) * 10 + digit_value(decimal.last()));
    }
    assert(name[0] == 'F');
    lemma_not_prefix(name, key_prefix(), 0);
    lemma_not_prefix(name, digit_prefix(), 0);
    assert(name.take(1) =~= function_prefix());
    assert(name.skip(1) =~= decimal);
}

proof fn lemma_named_key(k: int)
    requires
        0 <= k < 25,
    ensures
        spec_macos_key(named_keys()[k]) == spec_macos_named(named_keys()[k]),
{
    let name = named_keys()[k];
    if k == 0 {
        reveal_strlit("Space");
        assert(name == "Space"@);
    } else if k == 1 {
        reveal_strlit("Enter");
        assert(name == "Enter"@);
    } else if k == 2 {
        reveal_strlit("Tab");
        assert(name == "Tab"@);
    } else if k == 3 {
        reveal_strlit("Backspace");
        assert(name == "Backspace"@);
    } else if k == 4 {
        reveal_strlit("Escape");
        assert(name == "Escape"@);
    } else if k == 5 {
        reveal_strlit("ArrowLeft");
        assert(name == "ArrowLeft"@);
    } else if k == 6 {
        reveal_strlit("ArrowRight");
        assert(name == "ArrowRight"@);
    } else if k == 7 {
        reveal_strlit("ArrowDown");
        assert(name == "ArrowDown"@);
    } else if k == 8 {
        reveal_strlit("ArrowUp");
        assert(name == "ArrowUp"@);
    } else if k == 9 {
        reveal_strlit("Home");
        assert(name == "Home"@);
    } else if k == 10 {
        reveal_strlit("End");
        assert(name == "End"@);
    } else if k == 11 {
        reveal_strlit("PageUp");
        assert(name == "PageUp"@);
    } else if k == 12 {
        reveal_strlit("PageDown");
        assert(name == "PageDown"@);
    } else if k == 13 {
        reveal_strlit("Delete");
        assert(name == "Delete"@);
    } else if k == 14 {
        reveal_strlit("Minus");
        assert(name == "Minus"@);
    } else if k == 15 {
        reveal_strlit("Equal");
        assert(name == "Equal"@);
    } else if k == 16 {
        reveal_strlit("BracketLeft");
        assert(name == "BracketLeft"@);
    } else if k == 17 {
        reveal_strlit("BracketRight");
        assert(name == "BracketRight"@);
    } else if k == 18 {
        reveal_strlit("Backslash");
        assert(name == "Backslash"@);
    } else if k == 19 {
        reveal_strlit("Semicolon");
        assert(name == "Semicolon"@);
    } else if k == 20 {
        reveal_strlit("Quote");
        assert(name == "Quote"@);
    } else if k == 21 {
        reveal_strlit("Comma");
        assert(name == "Comma"@);
    } else if k == 22 {
        reveal_strlit("Period");
        assert(name == "Period"@);
    } else if k == 23 {
        reveal_strlit("Slash");
        assert(name == "Slash"@);
    } else if k == 24 {
        reveal_strlit("Backquote");
        assert(name == "Backquote"@);
    }
    assert(name.len() > 1);
    assert(name[0] != 'K' && name[0] != 'F' && (name[0] != 'D' || name[1] != 'i'));
    lemma_not_prefix(name, key_prefix(), 0);
    lemma_not_prefix(name, function_prefix(), 0);
    if name[0] != 'D' {
        lemma_not_prefix(name, digit_prefix(), 0);
    } else {
        lemma_not_prefix(name, digit_prefix(), 1);
    }
}

/// The macOS code of the `k`-th saved name, in the order of `key_names`.
spec fn saved_code(k: int) -> u16 {
    if k == 0 { 0u16 }
    else if k == 1 { 11u16 }
    else if k == 2 { 8u16 }
    else if k == 3 { 2u16 }
    else if k == 4 { 14u16 }
    else if k == 5 { 3u16 }
    else if k == 6 { 5u16 }
    else if k == 7 { 4u16 }
    else if k == 8 { 34u16 }
    else if k == 9 { 38u16 }
    else if k == 10 { 40u16 }
    else if k == 11 { 37u16 }
    else if k == 12 { 46u16 }
    else if k == 13 { 45u16 }
    else if k == 14 { 31u16 }
    else if k == 15 { 35u16 }
    else if k == 16 { 12u16 }
    else if k == 17 { 15u16 }
    else if k == 18 { 1u16 }
    else if k == 19 { 17u16 }
    else if k == 20 { 32u16 }
    else if k == 21 { 9u16 }
    else if k == 22 { 13u16 }
    else if k == 23 { 7u16 }
    else if k == 24 { 16u16 }
    else if k == 25 { 6u16 }
    else if k == 26 { 29u16 }
    else if k == 27 { 18u16 }
    else if k == 28 { 19u16 }
    else if k == 29 { 20u16 }
    else if k == 30 { 21u16 }
    else if k == 31 { 23u16 }
    else if k == 32 { 22u16 }
    else if k == 33 { 26u16 }
    else if k == 34 { 28u16 }
    else if k == 35 { 25u16 }
    else if k == 36 { 122u16 }
    else if k == 37 { 120u16 }
    else if k == 38 { 99u16 }
    else if k == 39 { 118u16 }
    else if k == 40 { 96u16 }
    else if k == 41 { 97u16 }
    else if k == 42 { 98u16 }
    else if k == 43 { 100u16 }
    else if k == 44 { 101u16 }
    else if k == 45 { 109u16 }
    else if k == 46 { 103u16 }
    else if k == 47 { 111u16 }
    else if k == 48 { 105u16 }
    else if k == 49 { 107u16 }
    else if k == 50 { 113u16 }
    else if k == 51 { 106u16 }
    else if k == 52 { 64u16 }
    else if k == 53 { 79u16 }
    else if k == 54 { 80u16 }
    else if k == 55 { 90u16 }
    else if k == 56 { 49u16 }
    else if k == 57 { 36u16 }
    else if k == 58 { 48u16 }
    else if k == 59 { 51u16 }
    else if k == 60 { 53u16 }
    else if k == 61 { 123u16 }
    else if k == 62 { 124u16 }
    else if k == 63 { 125u16 }
    else if k == 64 { 126u16 }
    else if k == 65 { 115u16 }
    else if k == 66 { 119u16 }
    else if k == 67 { 116u16 }
    else if k == 68 { 121u16 }
    else if k == 69 { 117u16 }
    else if k == 70 { 27u16 }
    else if k == 71 { 24u16 }
    else if k == 72 { 33u16 }
    else if k == 73 { 30u16 }
    else if k == 74 { 42u16 }
    else if k == 75 { 41u16 }
    else if k == 76 { 39u16 }
    else if k == 77 { 43u16 }
    else if k == 78 { 47u16 }
    else if k == 79 { 44u16 }
    else if k == 80 { 50u16 }
    else { 0u16 }
}

/// The place of a code among the saved names' codes.
spec fn saved_index(code: u16) -> int {
    if code == 0 { 0 }
    else if code == 11 { 1 }
    else if code == 8 { 2 }
    else if code == 2 { 3 }
    else if code == 14 { 4 }
    else if code == 3 { 5 }
    else if code == 5 { 6 }
    else if code == 4 { 7 }
    else if code == 34 { 8 }
    else if code == 38 { 9 }
    else if code == 40 { 10 }
    else if code == 37 { 11 }
    else if code == 46 { 12 }
    else if code == 45 { 13 }
    else if code == 31 { 14 }
    else if code == 35 { 15 }
    else if code == 12 { 16 }
    else if code == 15 { 17 }
    else if code == 1 { 18 }
    else if code == 17 { 19 }
    else if code == 32 { 20 }
    else if code == 9 { 21 }
    else if code == 13 { 22 }
    else if code == 7 { 23 }
    else if code == 16 { 24 }
    else if code == 6 { 25 }
    else if code == 29 { 26 }
    else if code == 18 { 27 }
    else if code == 19 { 28 }
    else if code == 20 { 29 }
    else if code == 21 { 30 }
    else if code == 23 { 31 }
    else if code == 22 { 32 }
    else if code == 26 { 33 }
    else if code == 28 { 34 }
    else if code == 25 { 35 }
    else if code == 122 { 36 }
    else if code == 120 { 37 }
    else if code == 99 { 38 }
    else if code == 118 { 39 }
    else if code == 96 { 40 }
    else if code == 97 { 41 }
    else if code == 98 { 42 }
    else if code == 100 { 43 }
    else if code == 101 { 44 }
    else if code == 109 { 45 }
    else if code == 103 { 46 }
    else if code == 111 { 47 }
    else if code == 105 { 48 }
    else if code == 107 { 49 }
    else if code == 113 { 50 }
    else if code == 106 { 51 }
    else if code == 64 { 52 }
    else if code == 79 { 53 }
    else if code == 80 { 54 }
    else if code == 90 { 55 }
    else if code == 49 { 56 }
    else if code == 36 { 57 }
    else if code == 48 { 58 }
    else if code == 51 { 59 }
    else if code == 53 { 60 }
    else if code == 123 { 61 }
    else if code == 124 { 62 }
    else if code == 125 { 63 }
    else if code == 126 { 64 }
    else if code == 115 { 65 }
    else if code == 119 { 66 }
    else if code == 116 { 67 }
    else if code == 121 { 68 }
    else if code == 117 { 69 }
    else if code == 27 { 70 }
    else if code == 24 { 71 }
    else if code == 33 { 72 }
    else if code == 30 { 73 }
    else if code == 42 { 74 }
    else if code == 41 { 75 }
    else if code == 39 { 76 }
    else if code == 43 { 77 }
    else if code == 47 { 78 }
    else if code == 44 { 79 }
    else if code == 50 { 80 }
    else { -1 }
}

proof fn lemma_letter_codes(k: int)
    requires
        0 <= k < 26,
    ensures
        spec_macos_letter(('A' as int + k) as char) == Some(saved_code(k)),
        saved_index(saved_code(k)) == k,
{
    if k == 0 {
    } else if k == 1 {
    } else if k == 2 {
    } else if k == 3 {
    } else if k == 4 {
    } else if k == 5 {
    } else if k == 6 {
    } else if k == 7 {
    } else if k == 8 {
    } else if k == 9 {
    } else if k == 10 {
    } else if k == 11 {
    } else if k == 12 {
    } else if k == 13 {
    } else if k == 14 {
    } else if k == 15 {
    } else if k == 16 {
    } else if k == 17 {
    } else if k == 18 {
    } else if k == 19 {
    } else if k == 20 {
    } else if k == 21 {
    } else if k == 22 {
    } else if k == 23 {
    } else if k == 24 {
    } else if k == 25 {
    }
}

proof fn lemma_digit_codes(k: int)
    requires
        26 <= k < 36,
    ensures
        spec_macos_digit((k - 26) as u8) == Some(saved_code(k)),
        saved_index(saved_code(k)) == k,
{
    if k == 26 {
    } else if k == 27 {
    } else if k == 28 {
    } else if k == 29 {
    } else if k == 30 {
    } else if k == 31 {
    } else if k == 32 {
    } else if k == 33 {
    } else if k == 34 {
    } else if k == 35 {
    }
}

proof fn lemma_function_codes(k: int)
    requires
        36 <= k < 56,
    ensures
        spec_macos_function((k - 35) as u8) == Some(saved_code(k)),
        saved_index(saved_code(k)) == k,
{
    if k == 36 {
    } else if k == 37 {
    } else if k == 38 {
    } else if k == 39 {
    } else if k == 40 {
    } else if k == 41 {
    } else if k == 42 {
    } else if k == 43 {
    } else if k == 44 {
    } else if k == 45 {
    } else if k == 46 {
    } else if k == 47 {
    } else if k == 48 {
    } else if k == 49 {
    } else if k == 50 {
    } else if k == 51 {
    } else if k == 52 {
    } else if k == 53 {
    } else if k == 54 {
    } else if k == 55 {
    }
}

proof fn lemma_named_codes(k: int)
    requires
        56 <= k < 81,
    ensures
        spec_macos_named(named_keys()[k - 56]) == Some(saved_code(k)),
        saved_index(saved_code(k)) == k,
{
        reveal_strlit("Space");
        reveal_strlit("Enter");
        reveal_strlit("Tab");
        reveal_strlit("Backspace");
        reveal_strlit("Escape");
        reveal_strlit("ArrowLeft");
        reveal_strlit("ArrowRight");
        reveal_strlit("ArrowDown");
        reveal_strlit("ArrowUp");
        reveal_strlit("Home");
        reveal_strlit("End");
        reveal_strlit("PageUp");
        reveal_strlit("PageDown");
        reveal_strlit("Delete");
        reveal_strlit("Minus");
        reveal_strlit("Equal");
        reveal_strlit("BracketLeft");
        reveal_strlit("BracketRight");
        reveal_strlit("Backslash");
        reveal_strlit("Semicolon");
        reveal_strlit("Quote");
        reveal_strlit("Comma");
        reveal_strlit("Period");
        reveal_strlit("Slash");
        reveal_strlit("Backquote");
    if k == 56 {
        assert(named_keys()[k - 56] == "Space"@);
    } else if k == 57 {
        assert(named_keys()[k - 56] == "Enter"@);
        assert("Enter"@[0] != "Space"@[0]);
    } else if k == 58 {
        assert(named_keys()[k - 56] == "Tab"@);
        assert("Tab"@.len() != "Space"@.len());
        assert("Tab"@.len() != "Enter"@.len());
    } else if k == 59 {
        assert(named_keys()[k - 56] == "Backspace"@);
        assert("Backspace"@.len() != "Space"@.len());
        assert("Backspace"@.len() != "Enter"@.len());
        assert("Backspace"@.len() != "Tab"@.len());
    } else if k == 60 {
        assert(named_keys()[k - 56] == "Escape"@);
        assert("Escape"@.len() != "Space"@.len());
        assert("Escape"@.len() != "Enter"@.len());
        assert("Escape"@.len() != "Tab"@.len());
        assert("Escape"@.len() != "Backspace"@.len());
    } else if k == 61 {
        assert(named_keys()[k - 56] == "ArrowLeft"@);
        assert("ArrowLeft"@.len() != "Space"@.len());
        assert("ArrowLeft"@.len() != "Enter"@.len());
        assert("ArrowLeft"@.len() != "Tab"@.len());
        assert("ArrowLeft"@[0] != "Backspace"@[0]);
        assert("ArrowLeft"@.len() != "Escape"@.len());
    } else if k == 62 {
        assert(named_keys()[k - 56] == "ArrowRight"@);
        assert("ArrowRight"@.len() != "Space"@.len());
        assert("ArrowRight"@.len() != "Enter"@.len());
        assert("ArrowRight"@.len() != "Tab"@.len());
        assert("ArrowRight"@.len() != "Backspace"@.len());
        assert("ArrowRight"@.len() != "Escape"@.len());
        assert("ArrowRight"@.len() != "ArrowLeft"@.len());
    } else if k == 63 {
        assert(named_keys()[k - 56] == "ArrowDown"@);
        assert("ArrowDown"@.len() != "Space"@.len());
        assert("ArrowDown"@.len() != "Enter"@.len());
        assert("ArrowDown"@.len() != "Tab"@.len());
        assert("ArrowDown"@[0] != "Backspace"@[0]);
        assert("ArrowDown"@.len() != "Escape"@.len());
        assert("ArrowDown"@[5] != "ArrowLeft"@[5]);
        assert("ArrowDown"@.len() != "ArrowRight"@.len());
    } else if k == 64 {
        assert(named_keys()[k - 56] == "ArrowUp"@);
        assert("ArrowUp"@.len() != "Space"@.len());
        assert("ArrowUp"@.len() != "Enter"@.len());
        assert("ArrowUp"@.len() != "Tab"@.len());
        assert("ArrowUp"@.len() != "Backspace"@.len());
        assert("ArrowUp"@.len() != "Escape"@.len());
        assert("ArrowUp"@.len() != "ArrowLeft"@.len());
        assert("ArrowUp"@.len() != "ArrowRight"@.len());
        assert("ArrowUp"@.len() != "ArrowDown"@.len());
    } else if k == 65 {
        assert(named_keys()[k - 56] == "Home"@);
        assert("Home"@.len() != "Space"@.len());
        assert("Home"@.len() != "Enter"@.len());
        assert("Home"@.len() != "Tab"@.len());
        assert("Home"@.len() != "Backspace"@.len());
        assert("Home"@.len() != "Escape"@.len());
        assert("Home"@.len() != "ArrowLeft"@.len());
        assert("Home"@.len() != "ArrowRight"@.len());
        assert("Home"@.len() != "ArrowDown"@.len());
        assert("Home"@.len() != "ArrowUp"@.len());
    } else if k == 66 {
        assert(named_keys()[k - 56] == "End"@);
        assert("End"@.len() != "Space"@.len());
        assert("End"@.len() != "Enter"@.len());
        assert("End"@[0] != "Tab"@[0]);
        assert("End"@.len() != "Backspace"@.len());
        assert("End"@.len() != "Escape"@.len());
        assert("End"@.len() != "ArrowLeft"@.len());
        assert("End"@.len() != "ArrowRight"@.len());
        assert("End"@.len() != "ArrowDown"@.len());
        assert("End"@.len() != "ArrowUp"@.len());
        assert("End"@.len() != "Home"@.len());
    } else if k == 67 {
        assert(named_keys()[k - 56] == "PageUp"@);
        assert("PageUp"@.len() != "Space"@.len());
        assert("PageUp"@.len() != "Enter"@.len());
        assert("PageUp"@.len() != "Tab"@.len());
        assert("PageUp"@.len() != "Backspace"@.len());
        assert("PageUp"@[0] != "Escape"@[0]);
        assert("PageUp"@.len() != "ArrowLeft"@.len());
        assert("PageUp"@.len() != "ArrowRight"@.len());
        assert("PageUp"@.len() != "ArrowDown"@.len());
        assert("PageUp"@.len() != "ArrowUp"@.len());
        assert("PageUp"@.len() != "Home"@.len());
        assert("PageUp"@.len() != "End"@.len());
    } else if k == 68 {
        assert(named_keys()[k - 56] == "PageDown"@);
        assert("PageDown"@.len() != "Space"@.len());
        assert("PageDown"@.len() != "Enter"@.len());
        assert("PageDown"@.len() != "Tab"@.len());
        assert("PageDown"@.len() != "Backspace"@.len());
        assert("PageDown"@.len() != "Escape"@.len());
        assert("PageDown"@.len() != "ArrowLeft"@.len());
        assert("PageDown"@.len() != "ArrowRight"@.len());
        assert("PageDown"@.len() != "ArrowDown"@.len());
        assert("PageDown"@.len() != "ArrowUp"@.len());
        assert("PageDown"@.len() != "Home"@.len());
        assert("PageDown"@.len() != "End"@.len());
        assert("PageDown"@.len() != "PageUp"@.len());
    } else if k == 69 {
        assert(named_keys()[k - 56] == "Delete"@);
        assert("Delete"@.len() != "Space"@.len());
        assert("Delete"@.len() != "Enter"@.len());
        assert("Delete"@.len() != "Tab"@.len());
        assert("Delete"@.len() != "Backspace"@.len());
        assert("Delete"@[0] != "Escape"@[0]);
        assert("Delete"@.len() != "ArrowLeft"@.len());
        assert("Delete"@.len() != "ArrowRight"@.len());
        assert("Delete"@.len() != "ArrowDown"@.len());
        assert("Delete"@.len() != "ArrowUp"@.len());
        assert("Delete"@.len() != "Home"@.len());
        assert("Delete"@.len() != "End"@.len());
        assert("Delete"@[0] != "PageUp"@[0]);
        assert("Delete"@.len() != "PageDown"@.len());
    } else if k == 70 {
        assert(named_keys()[k - 56] == "Minus"@);
        assert("Minus"@[0] != "Space"@[0]);
        assert("Minus"@[0] != "Enter"@[0]);
        assert("Minus"@.len() != "Tab"@.len());
        assert("Minus"@.len() != "Backspace"@.len());
        assert("Minus"@.len() != "Escape"@.len());
        assert("Minus"@.len() != "ArrowLeft"@.len());
        assert("Minus"@.len() != "ArrowRight"@.len());
        assert("Minus"@.len() != "ArrowDown"@.len());
        assert("Minus"@.len() != "ArrowUp"@.len());
        assert("Minus"@.len() != "Home"@.len());
        assert("Minus"@.len() != "End"@.len());
        assert("Minus"@.len() != "PageUp"@.len());
        assert("Minus"@.len() != "PageDown"@.len());
        assert("Minus"@.len() != "Delete"@.len());
    } else if k == 71 {
        assert(named_keys()[k - 56] == "Equal"@);
        assert("Equal"@[0] != "Space"@[0]);
        assert("Equal"@[1] != "Enter"@[1]);
        assert("Equal"@.len() != "Tab"@.len());
        assert("Equal"@.len() != "Backspace"@.len());
        assert("Equal"@.len() != "Escape"@.len());
        assert("Equal"@.len() != "ArrowLeft"@.len());
        assert("Equal"@.len() != "ArrowRight"@.len());
        assert("Equal"@.len() != "ArrowDown"@.len());
        assert("Equal"@.len() != "ArrowUp"@.len());
        assert("Equal"@.len() != "Home"@.len());
        assert("Equal"@.len() != "End"@.len());
        assert("Equal"@.len() != "PageUp"@.len());
        assert("Equal"@.len() != "PageDown"@.len());
        assert("Equal"@.len() != "Delete"@.len());
        assert("Equal"@[0] != "Minus"@[0]);
    } else if k == 72 {
        assert(named_keys()[k - 56] == "BracketLeft"@);
        assert("BracketLeft"@.len() != "Space"@.len());
        assert("BracketLeft"@.len() != "Enter"@.len());
        assert("BracketLeft"@.len() != "Tab"@.len());
        assert("BracketLeft"@.len() != "Backspace"@.len());
        assert("BracketLeft"@.len() != "Escape"@.len());
        assert("BracketLeft"@.len() != "ArrowLeft"@.len());
        assert("BracketLeft"@.len() != "ArrowRight"@.len());
        assert("BracketLeft"@.len() != "ArrowDown"@.len());
        assert("BracketLeft"@.len() != "ArrowUp"@.len());
        assert("BracketLeft"@.len() != "Home"@.len());
        assert("BracketLeft"@.len() != "End"@.len());
        assert("BracketLeft"@.len() != "PageUp"@.len());
        assert("BracketLeft"@.len() != "PageDown"@.len());
        assert("BracketLeft"@.len() != "Delete"@.len());
        assert("BracketLeft"@.len() != "Minus"@.len());
        assert("BracketLeft"@.len() != "Equal"@.len());
    } else if k == 73 {
        assert(named_keys()[k - 56] == "BracketRight"@);
        assert("BracketRight"@.len() != "Space"@.len());
        assert("BracketRight"@.len() != "Enter"@.len());
        assert("BracketRight"@.len() != "Tab"@.len());
        assert("BracketRight"@.len() != "Backspace"@.len());
        assert("BracketRight"@.len() != "Escape"@.len());
        assert("BracketRight"@.len() != "ArrowLeft"@.len());
        assert("BracketRight"@.len() != "ArrowRight"@.len());
        assert("BracketRight"@.len() != "ArrowDown"@.len());
        assert("BracketRight"@.len() != "ArrowUp"@.len());
        assert("BracketRight"@.len() != "Home"@.len());
        assert("BracketRight"@.len() != "End"@.len());
        assert("BracketRight"@.len() != "PageUp"@.len());
        assert("BracketRight"@.len() != "PageDown"@.len());
        assert("BracketRight"@.len() != "Delete"@.len());
        assert("BracketRight"@.len() != "Minus"@.len());
        assert("BracketRight"@.len() != "Equal"@.len());
        assert("BracketRight"@.len() != "BracketLeft"@.len());
    } else if k == 74 {
        assert(named_keys()[k - 56] == "Backslash"@);
        assert("Backslash"@.len() != "Space"@.len());
        assert("Backslash"@.len() != "Enter"@.len());
        assert("Backslash"@.len() != "Tab"@.len());
        assert("Backslash"@[5] != "Backspace"@[5]);
        assert("Backslash"@.len() != "Escape"@.len());
        assert("Backslash"@[0] != "ArrowLeft"@[0]);
        assert("Backslash"@.len() != "ArrowRight"@.len());
        assert("Backslash"@[0] != "ArrowDown"@[0]);
        assert("Backslash"@.len() != "ArrowUp"@.len());
        assert("Backslash"@.len() != "Home"@.len());
        assert("Backslash"@.len() != "End"@.len());
        assert("Backslash"@.len() != "PageUp"@.len());
        assert("Backslash"@.len() != "PageDown"@.len());
        assert("Backslash"@.len() != "Delete"@.len());
        assert("Backslash"@.len() != "Minus"@.len());
        assert("Backslash"@.len() != "Equal"@.len());
        assert("Backslash"@.len() != "BracketLeft"@.len());
        assert("Backslash"@.len() != "BracketRight"@.len());
    } else if k == 75 {
        assert(named_keys()[k - 56] == "Semicolon"@);
        assert("Semicolon"@.len() != "Space"@.len());
        assert("Semicolon"@.len() != "Enter"@.len());
        assert("Semicolon"@.len() != "Tab"@.len());
        assert("Semicolon"@[0] != "Backspace"@[0]);
        assert("Semicolon"@.len() != "Escape"@.len());
        assert("Semicolon"@[0] != "ArrowLeft"@[0]);
        assert("Semicolon"@.len() != "ArrowRight"@.len());
        assert("Semicolon"@[0] != "ArrowDown"@[0]);
        assert("Semicolon"@.len() != "ArrowUp"@.len());
        assert("Semicolon"@.len() != "Home"@.len());
        assert("Semicolon"@.len() != "End"@.len());
        assert("Semicolon"@.len() != "PageUp"@.len());
        assert("Semicolon"@.len() != "PageDown"@.len());
        assert("Semicolon"@.len() != "Delete"@.len());
        assert("Semicolon"@.len() != "Minus"@.len());
        assert("Semicolon"@.len() != "Equal"@.len());
        assert("Semicolon"@.len() != "BracketLeft"@.len());
        assert("Semicolon"@.len() != "BracketRight"@.len());
        assert("Semicolon"@[0] != "Backslash"@[0]);
    } else if k == 76 {
        assert(named_keys()[k - 56] == "Quote"@);
        assert("Quote"@[0] != "Space"@[0]);
        assert("Quote"@[0] != "Enter"@[0]);
        assert("Quote"@.len() != "Tab"@.len());
        assert("Quote"@.len() != "Backspace"@.len());
        assert("Quote"@.len() != "Escape"@.len());
        assert("Quote"@.len() != "ArrowLeft"@.len());
        assert("Quote"@.len() != "ArrowRight"@.len());
        assert("Quote"@.len() != "ArrowDown"@.len());
        assert("Quote"@.len() != "ArrowUp"@.len());
        assert("Quote"@.len() != "Home"@.len());
        assert("Quote"@.len() != "End"@.len());
        assert("Quote"@.len() != "PageUp"@.len());
        assert("Quote"@.len() != "PageDown"@.len());
        assert("Quote"@.len() != "Delete"@.len());
        assert("Quote"@[0] != "Minus"@[0]);
        assert("Quote"@[0] != "Equal"@[0]);
        assert("Quote"@.len() != "BracketLeft"@.len());
        assert("Quote"@.len() != "BracketRight"@.len());
        assert("Quote"@.len() != "Backslash"@.len());
        assert("Quote"@.len() != "Semicolon"@.len());
    } else if k == 77 {
        assert(named_keys()[k - 56] == "Comma"@);
        assert("Comma"@[0] != "Space"@[0]);
        assert("Comma"@[0] != "Enter"@[0]);
        assert("Comma"@.len() != "Tab"@.len());
        assert("Comma"@.len() != "Backspace"@.len());
        assert("Comma"@.len() != "Escape"@.len());
        assert("Comma"@.len() != "ArrowLeft"@.len());
        assert("Comma"@.len() != "ArrowRight"@.len());
        assert("Comma"@.len() != "ArrowDown"@.len());
        assert("Comma"@.len() != "ArrowUp"@.len());
        assert("Comma"@.len() != "Home"@.len());
        assert("Comma"@.len() != "End"@.len());
        assert("Comma"@.len() != "PageUp"@.len());
        assert("Comma"@.len() != "PageDown"@.len());
        assert("Comma"@.len() != "Delete"@.len());
        assert("Comma"@[0] != "Minus"@[0]);
        assert("Comma"@[0] != "Equal"@[0]);
        assert("Comma"@.len() != "BracketLeft"@.len());
        assert("Comma"@.len() != "BracketRight"@.len());
        assert("Comma"@.len() != "Backslash"@.len());
        assert("Comma"@.len() != "Semicolon"@.len());
        assert("Comma"@[0] != "Quote"@[0]);
    } else if k == 78 {
        assert(named_keys()[k - 56] == "Period"@);
        assert("Period"@.len() != "Space"@.len());
        assert("Period"@.len() != "Enter"@.len());
        assert("Period"@.len() != "Tab"@.len());
        assert("Period"@.len() != "Backspace"@.len());
        assert("Period"@[0] != "Escape"@[0]);
        assert("Period"@.len() != "ArrowLeft"@.len());
        assert("Period"@.len() != "ArrowRight"@.len());
        assert("Period"@.len() != "ArrowDown"@.len());
        assert("Period"@.len() != "ArrowUp"@.len());
        assert("Period"@.len() != "Home"@.len());
        assert("Period"@.len() != "End"@.len());
        assert("Period"@[1] != "PageUp"@[1]);
        assert("Period"@.len() != "PageDown"@.len());
        assert("Period"@[0] != "Delete"@[0]);
        assert("Period"@.len() != "Minus"@.len());
        assert("Period"@.len() != "Equal"@.len());
        assert("Period"@.len() != "BracketLeft"@.len());
        assert("Period"@.len() != "BracketRight"@.len());
        assert("Period"@.len() != "Backslash"@.len());
        assert("Period"@.len() != "Semicolon"@.len());
        assert("Period"@.len() != "Quote"@.len());
        assert("Period"@.len() != "Comma"@.len());
    } else if k == 79 {
        assert(named_keys()[k - 56] == "Slash"@);
        assert("Slash"@[1] != "Space"@[1]);
        assert("Slash"@[0] != "Enter"@[0]);
        assert("Slash"@.len() != "Tab"@.len());
        assert("Slash"@.len() != "Backspace"@.len());
        assert("Slash"@.len() != "Escape"@.len());
        assert("Slash"@.len() != "ArrowLeft"@.len());
        assert("Slash"@.len() != "ArrowRight"@.len());
        assert("Slash"@.len() != "ArrowDown"@.len());
        assert("Slash"@.len() != "ArrowUp"@.len());
        assert("Slash"@.len() != "Home"@.len());
        assert("Slash"@.len() != "End"@.len());
        assert("Slash"@.len() != "PageUp"@.len());
        assert("Slash"@.len() != "PageDown"@.len());
        assert("Slash"@.len() != "Delete"@.len());
        assert("Slash"@[0] != "Minus"@[0]);
        assert("Slash"@[0] != "Equal"@[0]);
        assert("Slash"@.len() != "BracketLeft"@.len());
        assert("Slash"@.len() != "BracketRight"@.len());
        assert("Slash"@.len() != "Backslash"@.len());
        assert("Slash"@.len() != "Semicolon"@.len());
        assert("Slash"@[0] != "Quote"@[0]);
        assert("Slash"@[0] != "Comma"@[0]);
        assert("Slash"@.len() != "Period"@.len());
    } else if k == 80 {
        assert(named_keys()[k - 56] == "Backquote"@);
        assert("Backquote"@.len() != "Space"@.len());
        assert("Backquote"@.len() != "Enter"@.len());
        assert("Backquote"@.len() != "Tab"@.len());
        assert("Backquote"@[4] != "Backspace"@[4]);
        assert("Backquote"@.len() != "Escape"@.len());
        assert("Backquote"@[0] != "ArrowLeft"@[0]);
        assert("Backquote"@.len() != "ArrowRight"@.len());
        assert("Backquote"@[0] != "ArrowDown"@[0]);
        assert("Backquote"@.len() != "ArrowUp"@.len());
        assert("Backquote"@.len() != "Home"@.len());
        assert("Backquote"@.len() != "End"@.len());
        assert("Backquote"@.len() != "PageUp"@.len());
        assert("Backquote"@.len() != "PageDown"@.len());
        assert("Backquote"@.len() != "Delete"@.len());
        assert("Backquote"@.len() != "Minus"@.len());
        assert("Backquote"@.len() != "Equal"@.len());
        assert("Backquote"@.len() != "BracketLeft"@.len());
        assert("Backquote"@.len() != "BracketRight"@.len());
        assert("Backquote"@[4] != "Backslash"@[4]);
        assert("Backquote"@[0] != "Semicolon"@[0]);
        assert("Backquote"@.len() != "Quote"@.len());
        assert("Backquote"@.len() != "Comma"@.len());
        assert("Backquote"@.len() != "Period"@.len());
        assert("Backquote"@.len() != "Slash"@.len());
    }
}

/// Each saved name has its code, and no other name has it.
proof fn lemma_saved_code(k: int)
    requires
        0 <= k < key_names().len(),
    ensures
        spec_macos_key(key_names()[k]) == Some(saved_code(k)),
        saved_index(saved_code(k)) == k,
{
    let letters = Seq::new(26, |i: int| letter_name(i));
    let digits = Seq::new(10, |i: int| digit_name(i));
    let functions = Seq::new(20, |i: int| function_name(i + 1));
    assert(key_names() == letters + digits + functions + named_keys());
    if k < 26 {
        assert(key_names()[k] == letter_name(k));
        lemma_letter_key(k);
        lemma_letter_codes(k);
    } else if k < 36 {
        assert(key_names()[k] == digit_name(k - 26));
        lemma_digit_key(k - 26);
        lemma_digit_codes(k);
    } else if k < 56 {
        assert(key_names()[k] == function_name(k - 35));
        lemma_function_key(k - 35);
        lemma_function_codes(k);
    } else {
        assert(key_names()[k] == named_keys()[k - 56]);
        lemma_named_key(k - 56);
        lemma_named_codes(k);
    }
}

/// No two keys share a code: every name a key is saved under has a macOS code, and two
/// different names have different codes, so a pressed key is never taken for another.
pub proof fn law_no_two_saved_keys_share_a_code(i: int, j: int)
    requires
        0 <= i < j < key_names().len(),
    ensures
        spec_macos_key(key_names()[i]) is Some,
        spec_macos_key(key_names()[i]) != spec_macos_key(key_names()[j]),
{
    lemma_saved_code(i);
    lemma_saved_code(j);
}

/// The letter of a `Key` code is read in either case: `KeyM` and `Keym` are the same key.
pub proof fn law_letter_case_does_not_matter(letter: char)
    requires
        'a' <= letter <= 'z',
    ensures
        spec_macos_key(key_prefix().push(letter)) == spec_macos_key(key_prefix().push((letter as int - 32) as char)),
        spec_macos_key(key_prefix().push(letter)) is Some,
{
    let lower = key_prefix().push(letter);
    let upper = key_prefix().push((letter as int - 32) as char);
    assert(lower.take(3) =~= key_prefix());
    assert(upper.take(3) =~= key_prefix());
    assert(lower[3] == letter);
    assert(upper[3] == (letter as int - 32) as char);
    lemma_letter_codes(letter as int - 'a' as int);
}

/// The keys that serve each modifier: the person holds the left Shift or the right one, and
/// both count. `CmdOrCtrl` is how the interface writes "whatever is at home on this
/// platform", on macOS the Command key.
pub open spec fn spec_macos_modifier(name: Seq<char>) -> Option<Seq<u16>> {
    if name == "Shift"@ {
        Some(seq![56u16, 60u16])
    } else if name == "Control"@ || name == "Ctrl"@ {
        Some(seq![59u16, 62u16])
    } else if name == "Alt"@ || name == "Option"@ {
        Some(seq![58u16, 61u16])
    } else if name == "Meta"@ || name == "Command"@ || name == "Cmd"@ || name == "Super"@ || name == "CmdOrCtrl"@ {
        Some(seq![55u16, 54u16])
    } else {
        None
    }
}

pub fn macos_modifier(name: &str) -> (keys: Option<[u16; 2]>)
    ensures
        match spec_macos_modifier(name@) {
            Some(codes) => keys matches Some(keys) && keys@ == codes,
            None => keys is None,
        },
{
    let keys: [u16; 2] = if same_text(name, "Shift") {
        [56, 60]
    } else if same_text(name, "Control") || same_text(name, "Ctrl") {
        [59, 62]
    } else if same_text(name, "Alt") || same_text(name, "Option") {
        [58, 61]
    } else if same_text(name, "Meta") || same_text(name, "Command") || same_text(name, "Cmd") || same_text(
        name,
        "Super",
    ) || same_text(name, "CmdOrCtrl") {
        [55, 54]
    } else {
        return None;
    };
    proof {
        assert(keys@ =~= spec_macos_modifier(name@)->0);
    }
    Some(keys)
}

/// Every name the interface writes a modifier with.
pub open spec fn modifier_names() -> Seq<Seq<char>> {
    seq!["Shift"@, "Control"@, "Ctrl"@, "Alt"@, "Option"@, "Meta"@, "Command"@, "Cmd"@, "Super"@, "CmdOrCtrl"@]
}

/// Which modifier a name stands for: Shift; Control; Alt, also written Option; and Command,
/// also written Meta, Cmd, Super or CmdOrCtrl.
pub open spec fn modifier_of(i: int) -> int {
    if i == 0 { 0 }
    else if i == 1 { 1 }
    else if i == 2 { 1 }
    else if i == 3 { 2 }
    else if i == 4 { 2 }
    else if i == 5 { 3 }
    else if i == 6 { 3 }
    else if i == 7 { 3 }
    else if i == 8 { 3 }
    else if i == 9 { 3 }
    else { -1 }
}

/// The codes of the `i`-th modifier name, evaluated.
proof fn lemma_modifier_codes(i: int)
    requires
        0 <= i < modifier_names().len(),
    ensures
        spec_macos_modifier(modifier_names()[i]) == (if modifier_of(i) == 0 {
            Some(seq![56u16, 60u16])
        } else if modifier_of(i) == 1 {
            Some(seq![59u16, 62u16])
        } else if modifier_of(i) == 2 {
            Some(seq![58u16, 61u16])
        } else {
            Some(seq![55u16, 54u16])
        }),
{
    reveal_strlit("Shift");
    reveal_strlit("Control");
    reveal_strlit("Ctrl");
    reveal_strlit("Alt");
    reveal_strlit("Option");
    reveal_strlit("Meta");
    reveal_strlit("Command");
    reveal_strlit("Cmd");
    reveal_strlit("Super");
    reveal_strlit("CmdOrCtrl");
    if i == 0 {
        assert(modifier_names()[i] == "Shift"@);
        assert("Shift"@.len() != "Control"@.len());
        assert("Shift"@.len() != "Ctrl"@.len());
        assert("Shift"@.len() != "Alt"@.len());
        assert("Shift"@.len() != "Option"@.len());
        assert("Shift"@.len() != "Meta"@.len());
        assert("Shift"@.len() != "Command"@.len());
        assert("Shift"@.len() != "Cmd"@.len());
        assert("Shift"@[1] != "Super"@[1]);
        assert("Shift"@.len() != "CmdOrCtrl"@.len());
    } else if i == 1 {
        assert(modifier_names()[i] == "Control"@);
        assert("Control"@.len() != "Shift"@.len());
        assert("Control"@.len() != "Ctrl"@.len());
        assert("Control"@.len() != "Alt"@.len());
        assert("Control"@.len() != "Option"@.len());
        assert("Control"@.len() != "Meta"@.len());
        assert("Control"@[2] != "Command"@[2]);
        assert("Control"@.len() != "Cmd"@.len());
        assert("Control"@.len() != "Super"@.len());
        assert("Control"@.len() != "CmdOrCtrl"@.len());
    } else if i == 2 {
        assert(modifier_names()[i] == "Ctrl"@);
        assert("Ctrl"@.len() != "Shift"@.len());
        assert("Ctrl"@.len() != "Control"@.len());
        assert("Ctrl"@.len() != "Alt"@.len());
        assert("Ctrl"@.len() != "Option"@.len());
        assert("Ctrl"@[0] != "Meta"@[0]);
        assert("Ctrl"@.len() != "Command"@.len());
        assert("Ctrl"@.len() != "Cmd"@.len());
        assert("Ctrl"@.len() != "Super"@.len());
        assert("Ctrl"@.len() != "CmdOrCtrl"@.len());
    } else if i == 3 {
        assert(modifier_names()[i] == "Alt"@);
        assert("Alt"@.len() != "Shift"@.len());
        assert("Alt"@.len() != "Control"@.len());
        assert("Alt"@.len() != "Ctrl"@.len());
        assert("Alt"@.len() != "Option"@.len());
        assert("Alt"@.len() != "Meta"@.len());
        assert("Alt"@.len() != "Command"@.len());
        assert("Alt"@[0] != "Cmd"@[0]);
        assert("Alt"@.len() != "Super"@.len());
        assert("Alt"@.len() != "CmdOrCtrl"@.len());
    } else if i == 4 {
        assert(modifier_names()[i] == "Option"@);
        assert("Option"@.len() != "Shift"@.len());
        assert("Option"@.len() != "Control"@.len());
        assert("Option"@.len() != "Ctrl"@.len());
        assert("Option"@.len() != "Alt"@.len());
        assert("Option"@.len() != "Meta"@.len());
        assert("Option"@.len() != "Command"@.len());
        assert("Option"@.len() != "Cmd"@.len());
        assert("Option"@.len() != "Super"@.len());
        assert("Option"@.len() != "CmdOrCtrl"@.len());
    } else if i == 5 {
        assert(modifier_names()[i] == "Meta"@);
        assert("Meta"@.len() != "Shift"@.len());
        assert("Meta"@.len() != "Control"@.len());
        assert("Meta"@[0] != "Ctrl"@[0]);
        assert("Meta"@.len() != "Alt"@.len());
        assert("Meta"@.len() != "Option"@.len());
        assert("Meta"@.len() != "Command"@.len());
        assert("Meta"@.len() != "Cmd"@.len());
        assert("Meta"@.len() != "Super"@.len());
        assert("Meta"@.len() != "CmdOrCtrl"@.len());
    } else if i == 6 {
        assert(modifier_names()[i] == "Command"@);
        assert("Command"@.len() != "Shift"@.len());
        assert("Command"@[2] != "Control"@[2]);
        assert("Command"@.len() != "Ctrl"@.len());
        assert("Command"@.len() != "Alt"@.len());
        assert("Command"@.len() != "Option"@.len());
        assert("Command"@.len() != "Meta"@.len());
        assert("Command"@.len() != "Cmd"@.len());
        assert("Command"@.len() != "Super"@.len());
        assert("Command"@.len() != "CmdOrCtrl"@.len());
    } else if i == 7 {
        assert(modifier_names()[i] == "Cmd"@);
        assert("Cmd"@.len() != "Shift"@.len());
        assert("Cmd"@.len() != "Control"@.len());
        assert("Cmd"@.len() != "Ctrl"@.len());
        assert("Cmd"@[0] != "Alt"@[0]);
        assert("Cmd"@.len() != "Option"@.len());
        assert("Cmd"@.len() != "Meta"@.len());
        assert("Cmd"@.len() != "Command"@.len());
        assert("Cmd"@.len() != "Super"@.len());
        assert("Cmd"@.len() != "CmdOrCtrl"@.len());
    } else if i == 8 {
        assert(modifier_names()[i] == "Super"@);
        assert("Super"@[1] != "Shift"@[1]);
        assert("Super"@.len() != "Control"@.len());
        assert("Super"@.len() != "Ctrl"@.len());
        assert("Super"@.len() != "Alt"@.len());
        assert("Super"@.len() != "Option"@.len());
        assert("Super"@.len() != "Meta"@.len());
        assert("Super"@.len() != "Command"@.len());
        assert("Super"@.len() != "Cmd"@.len());
        assert("Super"@.len() != "CmdOrCtrl"@.len());
    } else if i == 9 {
        assert(modifier_names()[i] == "CmdOrCtrl"@);
        assert("CmdOrCtrl"@.len() != "Shift"@.len());
        assert("CmdOrCtrl"@.len() != "Control"@.len());
        assert("CmdOrCtrl"@.len() != "Ctrl"@.len());
        assert("CmdOrCtrl"@.len() != "Alt"@.len());
        assert("CmdOrCtrl"@.len() != "Option"@.len());
        assert("CmdOrCtrl"@.len() != "Meta"@.len());
        assert("CmdOrCtrl"@.len() != "Command"@.len());
        assert("CmdOrCtrl"@.len() != "Cmd"@.len());
        assert("CmdOrCtrl"@.len() != "Super"@.len());
    }
}

/// Every modifier the interface writes is held with either of two keys, the left one and
/// the right one, and neither is a key a shortcut can be saved under: holding a modifier
/// is never taken for pressing a key.
pub proof fn law_every_modifier_has_two_keys_of_its_own(i: int, k: int)
    requires
        0 <= i < modifier_names().len(),
        0 <= k < key_names().len(),
    ensures
        spec_macos_modifier(modifier_names()[i]) matches Some(codes) && codes.len() == 2 && codes[0] != codes[1]
            && spec_macos_key(key_names()[k]) != Some(codes[0]) && spec_macos_key(key_names()[k]) != Some(codes[1]),
{
    lemma_modifier_codes(i);
    lemma_saved_code(k);
    assert(saved_index(54) == -1 && saved_index(55) == -1 && saved_index(56) == -1 && saved_index(58) == -1);
    assert(saved_index(59) == -1 && saved_index(60) == -1 && saved_index(61) == -1 && saved_index(62) == -1);
}

/// Two names of the same modifier give the same keys (Alt and Option, Control and Ctrl,
/// Meta, Command, Cmd, Super and CmdOrCtrl), and two different modifiers never do.
pub proof fn law_names_of_one_modifier_agree(i: int, j: int)
    requires
        0 <= i < modifier_names().len(),
        0 <= j < modifier_names().len(),
    ensures
        (spec_macos_modifier(modifier_names()[i]) == spec_macos_modifier(modifier_names()[j])) == (modifier_of(i)
            == modifier_of(j)),
{
    lemma_modifier_codes(i);
    lemma_modifier_codes(j);
    let a = spec_macos_modifier(modifier_names()[i]);
    let b = spec_macos_modifier(modifier_names()[j]);
    if modifier_of(i) != modifier_of(j) {
        assert(a->0[0] != b->0[0] || a->0[1] != b->0[1]);
    }
}

} // verus!
