//! The state the interfaces draw, and the decisions none of them takes alone: entering a
//! room validates the code, keeps the name and the list of recent rooms, and picks the
//! screen to land on.

use vstd::prelude::*;

use crate::models::Screen;
use crate::room_code::{clean, generate, is_valid, lowercase_of, spec_is_valid};
use crate::text::{chars_of, spec_trim, string_of, trim_chars};

verus! {

/// The names are the ones the app already wrote on the machine of whoever uses it. Changing
/// one loses what was kept; `unkvoid.instalacao` is this installation's identity before the
/// media server, and renaming it makes a new installation.
pub const NAME_KEY: &'static str = "unkvoid:name";

pub const ROOM_KEY: &'static str = "unkvoid:last-room";

pub const RECENT_KEY: &'static str = "unkvoid:recent-rooms";

/// The keys of the web app's sharing picker: whoever switches app takes the choice along.
pub const QUALITY_KEY: &'static str = "unkvoid:quality";

pub const FPS_KEY: &'static str = "unkvoid:fps";

pub const TOKEN_KEY: &'static str = "unkvoid:token";

pub const REFRESH_KEY: &'static str = "unkvoid:refresh";

pub const INSTALL_KEY: &'static str = "unkvoid.instalacao";

/// How many recent rooms the home shows. Past that it becomes a list nobody reads.
pub const MAX_RECENT: usize = 3;

/// Why an entry was refused. The interface writes the sentence.
#[derive(Debug, Clone, Copy, PartialEq, Eq, Structural)]
pub enum EntryRefusal {
    NameIsEmpty,
    CodeIsInvalid,
}

#[derive(Debug, Clone, PartialEq, Eq)]
pub struct AppState {
    pub screen: Screen,
    pub name: String,
    pub room: Option<String>,
}

pub open spec fn offered_views(texts: Seq<&'static str>) -> Seq<Seq<char>> {
    texts.map_values(|text: &'static str| text@)
}

/// The qualities the screen picker offers, in the web app's order.
pub open spec fn qualities() -> Seq<Seq<char>> {
    seq!["720"@, "1080"@, "1440"@, "2160"@]
}

pub open spec fn frame_rates() -> Seq<Seq<char>> {
    seq!["30"@, "60"@]
}

pub fn qualities_offered() -> (offered: Vec<&'static str>)
    ensures
        offered_views(offered@) == qualities(),
{
    let offered = vec!["720", "1080", "1440", "2160"];
    proof {
        assert(offered_views(offered@) =~= qualities());
    }
    offered
}

pub fn frame_rates_offered() -> (offered: Vec<&'static str>)
    ensures
        offered_views(offered@) == frame_rates(),
{
    let offered = vec!["30", "60"];
    proof {
        assert(offered_views(offered@) =~= frame_rates());
    }
    offered
}

/// The web app's guess: more than eight cores take 1080p60; up to four, 720p30; in between
/// 1080p60, but on Linux, where the encoder is usually the processor's, 30.
pub open spec fn spec_guessed_quality(cores: usize, linux: bool) -> (Seq<char>, Seq<char>) {
    if cores > 8 {
        ("1080"@, "60"@)
    } else if cores <= 4 {
        ("720"@, "30"@)
    } else {
        ("1080"@, if linux { "30"@ } else { "60"@ })
    }
}

pub fn guessed_quality(cores: usize, linux: bool) -> (guess: (&'static str, &'static str))
    ensures
        (guess.0@, guess.1@) == spec_guessed_quality(cores, linux),
{
    if cores > 8 {
        return ("1080", "60");
    }

    if cores <= 4 {
        return ("720", "30");
    }

    ("1080", if linux { "30" } else { "60" })
}

/// The saved choice when it is one of the allowed ones, else the guess.
pub open spec fn spec_chosen(saved: Option<Seq<char>>, allowed: Seq<Seq<char>>, guess: Seq<char>) -> Seq<char> {
    match saved {
        Some(value) => if allowed.contains(value) { value } else { guess },
        None => guess,
    }
}

fn offers(allowed: &Vec<&'static str>, value: &str) -> (found: bool)
    ensures
        found == offered_views(allowed@).contains(value@),
{
    let ghost views = offered_views(allowed@);
    let mut index: usize = 0;

    while index < allowed.len()
        invariant
            index <= allowed.len(),
            views == offered_views(allowed@),
            forall|i: int| 0 <= i < index ==> views[i] != value@,
        decreases allowed.len() - index,
    {
        if crate::models::same_text(allowed[index], value) {
            proof {
                assert(views[index as int] == value@);
            }
            return true;
        }
        index = index + 1;
    }

    false
}

pub fn chosen(saved: Option<String>, allowed: &Vec<&'static str>, guess: &str) -> (choice: String)
    ensures
        choice@ == spec_chosen(match saved {
            Some(value) => Some(value@),
            None => None,
        }, offered_views(allowed@), guess@),
{
    match saved {
        Some(value) => if offers(allowed, value.as_str()) {
            value
        } else {
            String::from_str(guess)
        },
        None => String::from_str(guess),
    }
}

/// Any preference but the two tokens: they only go in and out ciphered, by their own way.
pub open spec fn spec_is_preference(key: Seq<char>) -> bool {
    key != "unkvoid:token"@ && key != "unkvoid:refresh"@
}

pub fn is_preference(key: &str) -> (allowed: bool)
    ensures
        allowed == spec_is_preference(key@),
{
    !crate::models::same_text(key, TOKEN_KEY) && !crate::models::same_text(key, REFRESH_KEY)
}

/// The recent rooms after entering `code`: it goes first, it appears once, and only the
/// last `MAX_RECENT` stay.
pub open spec fn other_than(code: Seq<char>) -> spec_fn(Seq<char>) -> bool {
    |known: Seq<char>| known != code
}

pub open spec fn spec_remembered(recent: Seq<Seq<char>>, code: Seq<char>) -> Seq<Seq<char>> {
    let kept = seq![code] + recent.filter(other_than(code));
    kept.take(if kept.len() < MAX_RECENT { kept.len() as int } else { MAX_RECENT as int })
}

pub open spec fn string_views(texts: Seq<String>) -> Seq<Seq<char>> {
    texts.map_values(|text: String| text@)
}

pub fn remembered(recent: &Vec<String>, code: &str) -> (kept: Vec<String>)
    ensures
        string_views(kept@) == spec_remembered(string_views(recent@), code@),
{
    let ghost all = string_views(recent@);
    let ghost differs = other_than(code@);
    let mut kept: Vec<String> = vec![String::from_str(code)];
    let mut index: usize = 0;

    proof {
        assert(all.take(0).filter(differs) =~= Seq::<Seq<char>>::empty());
        assert(string_views(kept@) =~= seq![code@] + all.take(0).filter(differs));
    }

    while index < recent.len()
        invariant
            index <= recent.len(),
            all == string_views(recent@),
            differs == other_than(code@),
            string_views(kept@) == seq![code@] + all.take(index as int).filter(differs),
        decreases recent.len() - index,
    {
        proof {
            assert(all.take(index + 1) =~= all.take(index as int).push(all[index as int]));
            all.take(index as int).lemma_filter_push(all[index as int], differs);
        }
        if !crate::models::same_text(recent[index].as_str(), code) {
            let ghost before = kept@;
            kept.push(recent[index].clone());
            proof {
                assert(string_views(kept@) =~= string_views(before).push(recent@[index as int]@));
            }
        }
        index = index + 1;
    }

    proof {
        assert(all.take(index as int) =~= all);
    }

    let ghost full = string_views(kept@);

    if kept.len() > MAX_RECENT {
        kept.truncate(MAX_RECENT);
    }

    proof {
        assert(string_views(kept@) =~= full.take(if full.len() < MAX_RECENT { full.len() as int } else { MAX_RECENT as int }));
    }

    kept
}

/// Entering a room puts the entered code first, keeps it once, and keeps no more than
/// `MAX_RECENT` rooms.
pub proof fn law_the_recent_list_puts_the_last_first_and_never_repeats(recent: Seq<Seq<char>>, code: Seq<char>)
    ensures
        spec_remembered(recent, code)[0] == code,
        spec_remembered(recent, code).len() <= MAX_RECENT,
        forall|i: int| 1 <= i < spec_remembered(recent, code).len() ==> #[trigger] spec_remembered(recent, code)[i] != code,
{
    let differs = other_than(code);
    let rest = recent.filter(differs);
    let kept = seq![code] + rest;
    assert(kept.len() == rest.len() + 1);
    assert forall|i: int| 1 <= i < spec_remembered(recent, code).len() implies #[trigger] spec_remembered(recent, code)[i] != code by {
        assert(spec_remembered(recent, code)[i] == kept[i]);
        assert(kept[i] == rest[i - 1]);
        recent.lemma_filter_pred(differs, i - 1);
    }
}

/// The recent rooms read back: the saved texts that are valid codes, the first
/// `MAX_RECENT` of them. A code saved by an older version that is no longer valid cannot
/// become a button that leads nowhere.
pub open spec fn spec_readable_recent(saved: Seq<Option<Seq<char>>>) -> Seq<Seq<char>>
    decreases saved.len(),
{
    if saved.len() == 0 {
        Seq::empty()
    } else {
        let rest = spec_readable_recent(saved.drop_last());
        match saved.last() {
            Some(code) => if spec_is_valid(code) && rest.len() < MAX_RECENT { rest.push(code) } else { rest },
            None => rest,
        }
    }
}

pub open spec fn option_views(texts: Seq<Option<String>>) -> Seq<Option<Seq<char>>> {
    texts.map_values(|text: Option<String>| match text {
        Some(text) => Some(text@),
        None => None,
    })
}

/// The recent rooms from what was saved; an entry that is no text is `None`.
pub fn readable_recent(saved: &Vec<Option<String>>) -> (recent: Vec<String>)
    ensures
        string_views(recent@) == spec_readable_recent(option_views(saved@)),
{
    let ghost all = option_views(saved@);
    let mut recent: Vec<String> = Vec::new();
    let mut index: usize = 0;

    while index < saved.len()
        invariant
            index <= saved.len(),
            all == option_views(saved@),
            string_views(recent@) == spec_readable_recent(all.take(index as int)),
        decreases saved.len() - index,
    {
        proof {
            assert(all.take(index + 1).drop_last() =~= all.take(index as int));
            assert(all.take(index + 1).last() == all[index as int]);
        }
        if let Some(code) = &saved[index] {
            if is_valid(code.as_str()) && recent.len() < MAX_RECENT {
                let ghost before = recent@;
                recent.push(code.clone());
                proof {
                    assert(string_views(recent@) =~= string_views(before).push(code@));
                }
            }
        }
        index = index + 1;
    }

    proof {
        assert(all.take(index as int) =~= all);
    }

    recent
}

/// The code a "create a room" uses: what was typed, cleaned; with nothing typed, a drawn one.
pub fn code_to_create(typed: &str) -> (code: String)
    ensures
        lowercase_of(spec_trim(typed@)).len() > 0 ==> code@ == lowercase_of(spec_trim(typed@)),
        lowercase_of(spec_trim(typed@)).len() == 0 ==> spec_is_valid(code@),
{
    let cleaned = clean(typed);

    if cleaned.unicode_len() == 0 {
        generate()
    } else {
        cleaned
    }
}

impl AppState {
    /// Opens the room of `code` for `name`: a name of nothing but spaces is refused, and so
    /// is a code that is not valid; otherwise the room is the screen, with the trimmed name.
    pub fn open_room(&mut self, name: &str, code: &str) -> (entered: Result<String, EntryRefusal>)
        ensures
            spec_trim(name@).len() == 0 ==> entered == Err::<String, EntryRefusal>(EntryRefusal::NameIsEmpty)
                && *final(self) == *old(self),
            spec_trim(name@).len() > 0 && !spec_is_valid(code@) ==> entered == Err::<String, EntryRefusal>(
                EntryRefusal::CodeIsInvalid,
            ) && *final(self) == *old(self),
            spec_trim(name@).len() > 0 && spec_is_valid(code@) ==> (entered matches Ok(room) && room@ == code@),
            spec_trim(name@).len() > 0 && spec_is_valid(code@) ==> (final(self).room matches Some(r) && r@ == code@),
            spec_trim(name@).len() > 0 && spec_is_valid(code@) ==> final(self).name@ == spec_trim(name@)
                && final(self).screen == Screen::Room,
    {
        let chars = chars_of(name);
        let trimmed = trim_chars(chars.as_slice());

        if trimmed.len() == 0 {
            return Err(EntryRefusal::NameIsEmpty);
        }

        if !is_valid(code) {
            return Err(EntryRefusal::CodeIsInvalid);
        }

        self.name = string_of(trimmed.as_slice());
        self.room = Some(String::from_str(code));
        self.screen = Screen::Room;

        Ok(String::from_str(code))
    }

    /// Leaving a room lands where the account says: with one on the servers, without one on
    /// the code.
    pub fn leave_room(&mut self, signed_in: bool)
        ensures
            final(self).room is None,
            final(self).screen == (if signed_in { Screen::Hub } else { Screen::Entry }),
            final(self).name == old(self).name,
    {
        self.room = None;
        self.screen = Screen::home(signed_in);
    }
}

} // verus!
