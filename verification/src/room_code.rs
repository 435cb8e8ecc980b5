//! The code that *is* the room.
//!
//! It is in no database: whoever has the code enters, and the room vanishes when the last
//! one leaves. So the rule of what a valid code is lives here and not in each interface:
//! three alphabets would be three rooms that never meet.

use vstd::prelude::*;

use crate::chance::{gen_below, thread_rng};
use crate::text::{chars_of, is_digit, is_lower, push_char, spec_ascii_lowercase, spec_trim, string_of, trim_chars};

verus! {

/// The length the app generates. Accepting less is for whoever types a code by hand.
pub const LENGTH: usize = 12;

pub const MIN_LENGTH: usize = 3;

pub const MAX_LENGTH: usize = 32;

/// The alphabet of generated codes: no capitals and no accents, since the code is dictated
/// by voice and mistyped all the time.
pub open spec fn alphabet() -> Seq<char> {
    Seq::new(26, |i: int| ('a' as int + i) as char) + Seq::new(10, |i: int| ('0' as int + i) as char)
}

pub open spec fn valid_char(c: char) -> bool {
    is_lower(c) || is_digit(c) || c == '-'
}

/// A hyphen in the middle is allowed, for a readable code ("time-da-tarde"); at the start
/// or the end it is not, since pasting from a chat brings spare hyphens.
pub open spec fn spec_is_valid(code: Seq<char>) -> bool {
    &&& MIN_LENGTH <= code.len() <= MAX_LENGTH
    &&& code[0] != '-'
    &&& code.last() != '-'
    &&& forall|i: int| 0 <= i < code.len() ==> valid_char(#[trigger] code[i])
}

/// The lowercase form of a text, as `str::to_lowercase` gives it by the Unicode rules.
pub uninterp spec fn lowercase_of(text: Seq<char>) -> Seq<char>;

/// Whether every character of a text is ASCII.
pub open spec fn is_ascii_text(text: Seq<char>) -> bool {
    forall|i: int| 0 <= i < text.len() ==> (#[trigger] text[i] as u32) < 128
}

/// The lowercase form of a text. Wraps `str::to_lowercase`, whose Unicode mapping takes
/// `A` to `Z` to `a` to `z` and leaves every other ASCII character alone; beyond ASCII
/// the mapping is named, not stated.
#[verifier::external_body]
pub(crate) fn to_lowercase(text: &str) -> (lower: String)
    ensures
        lower@ == lowercase_of(text@),
        is_ascii_text(text@) ==> lower@ == spec_ascii_lowercase(text@),
{
    text.to_lowercase()
}

/// The `index`-th letter of the alphabet.
fn alphabet_letter(index: usize) -> (letter: char)
    requires
        index < 36,
    ensures
        letter == alphabet()[index as int],
{
    if index < 26 {
        ((97u8 + index as u8) as char)
    } else {
        ((48u8 + (index - 26) as u8) as char)
    }
}

/// A fresh code: `LENGTH` letters and digits drawn at random, always valid.
pub fn generate() -> (code: String)
    ensures
        code@.len() == LENGTH,
        spec_is_valid(code@),
        forall|i: int| 0 <= i < code@.len() ==> alphabet().contains(#[trigger] code@[i]),
{
    let mut rng = thread_rng();
    let mut code = String::new();
    let mut count: usize = 0;

    while count < LENGTH
        invariant
            count <= LENGTH,
            code@.len() == count,
            forall|i: int| 0 <= i < code@.len() ==> alphabet().contains(#[trigger] code@[i]),
        decreases LENGTH - count,
    {
        let index = gen_below(&mut rng, 36);
        let letter = alphabet_letter(index);
        let ghost before = code@;
        push_char(&mut code, letter);
        proof {
            assert(alphabet()[index as int] == letter);
            assert forall|i: int| 0 <= i < code@.len() implies alphabet().contains(#[trigger] code@[i]) by {
                if i < before.len() {
                    assert(code@[i] == before[i]);
                } else {
                    assert(code@[i] == letter);
                }
            }
        }
        count = count + 1;
    }

    proof {
        assert forall|i: int| 0 <= i < code@.len() implies valid_char(#[trigger] code@[i]) by {
            let c = code@[i];
            assert(alphabet().contains(c));
            let k = choose|k: int| 0 <= k < alphabet().len() && alphabet()[k] == c;
            if k < 26 {
                assert(alphabet()[k] == ('a' as int + k) as char);
            } else {
                assert(alphabet()[k] == ('0' as int + (k - 26)) as char);
            }
        }
        assert(valid_char(code@[0]));
        assert(valid_char(code@.last()));
    }

    code
}

pub fn is_valid(code: &str) -> (valid: bool)
    ensures
        valid == spec_is_valid(code@),
{
    let chars = chars_of(code);
    let length = chars.len();

    if !(MIN_LENGTH <= length && length <= MAX_LENGTH) {
        return false;
    }

    if chars[0] == '-' || chars[length - 1] == '-' {
        return false;
    }

    let mut index: usize = 0;

    while index < length
        invariant
            index <= length == chars@.len(),
            chars@ == code@,
            forall|i: int| 0 <= i < index ==> valid_char(#[trigger] chars@[i]),
        decreases length - index,
    {
        let letter = chars[index];
        if !(('a' <= letter && letter <= 'z') || ('0' <= letter && letter <= '9') || letter == '-') {
            return false;
        }
        index = index + 1;
    }

    true
}

/// What is accepted from whoever typed: spare spaces and capitals are no mistake in a code.
pub fn clean(typed: &str) -> (code: String)
    ensures
        code@ == lowercase_of(spec_trim(typed@)),
        is_ascii_text(spec_trim(typed@)) ==> code@ == spec_ascii_lowercase(spec_trim(typed@)),
{
    let chars = chars_of(typed);
    let trimmed = trim_chars(chars.as_slice());
    let text = string_of(trimmed.as_slice());
    to_lowercase(text.as_str())
}

} // verus!
