//! The text the library reads and writes: decimal numbers, the character classes it
//! tests, and strings built from characters.

use vstd::prelude::*;

verus! {

pub open spec fn is_digit(c: char) -> bool {
    '0' <= c && c <= '9'
}

pub open spec fn is_lower(c: char) -> bool {
    'a' <= c && c <= 'z'
}

pub open spec fn is_upper(c: char) -> bool {
    'A' <= c && c <= 'Z'
}

pub open spec fn is_ascii_alphanumeric(c: char) -> bool {
    is_digit(c) || is_lower(c) || is_upper(c)
}

pub open spec fn digit_value(c: char) -> nat {
    (c as int - '0' as int) as nat
}

pub open spec fn digit_char(d: nat) -> char
    recommends
        d < 10,
{
    ('0' as int + d) as char
}

/// The decimal digits of `n`, most significant first, without leading zeros.
pub open spec fn spec_decimal(n: nat) -> Seq<char>
    decreases n,
{
    if n < 10 {
        seq![digit_char(n)]
    } else {
        spec_decimal(n / 10).push(digit_char(n % 10))
    }
}

/// The number a run of decimal digits spells.
pub open spec fn digits_value(digits: Seq<char>) -> nat
    decreases digits.len(),
{
    if digits.len() == 0 {
        0
    } else {
        digits_value(digits.drop_last()) * 10 + digit_value(digits.last())
    }
}

pub open spec fn all_digits(s: Seq<char>) -> bool {
    forall|i: int| 0 <= i < s.len() ==> is_digit(#[trigger] s[i])
}

/// An unsigned number as Rust's `str::parse` reads it: an optional `+`, then at least one
/// decimal digit, and a value that fits.
pub open spec fn spec_parse_unsigned(s: Seq<char>, max: nat) -> Option<nat> {
    let digits = if s.len() > 0 && s[0] == '+' { s.drop_first() } else { s };
    if digits.len() > 0 && all_digits(digits) && digits_value(digits) <= max {
        Some(digits_value(digits))
    } else {
        None
    }
}

pub open spec fn spec_parse_u32(s: Seq<char>) -> Option<u32> {
    match spec_parse_unsigned(s, u32::MAX as nat) {
        Some(value) => Some(value as u32),
        None => None,
    }
}

pub open spec fn spec_parse_u8(s: Seq<char>) -> Option<u8> {
    match spec_parse_unsigned(s, u8::MAX as nat) {
        Some(value) => Some(value as u8),
        None => None,
    }
}

/// A signed 64-bit number as Rust's `str::parse` reads it: an optional sign, then at least
/// one decimal digit, and a value in range.
pub open spec fn spec_parse_i64(s: Seq<char>) -> Option<i64> {
    if s.len() > 0 && s[0] == '-' {
        let digits = s.drop_first();
        if digits.len() > 0 && all_digits(digits) && digits_value(digits) <= 0x8000_0000_0000_0000 {
            Some((0 - digits_value(digits)) as i64)
        } else {
            None
        }
    } else {
        match spec_parse_unsigned(s, i64::MAX as nat) {
            Some(value) => Some(value as i64),
            None => None,
        }
    }
}

/// Appends one character. Wraps `String::push`.
#[verifier::external_body]
pub(crate) fn push_char(text: &mut String, c: char)
    ensures
        final(text)@ == old(text)@.push(c),
{
    text.push(c);
}

/// The characters of a text, one per element.
pub fn chars_of(text: &str) -> (chars: Vec<char>)
    ensures
        chars@ == text@,
{
    let length = text.unicode_len();
    let mut chars: Vec<char> = Vec::new();
    let mut index: usize = 0;

    while index < length
        invariant
            length == text@.len(),
            index <= length,
            chars@ == text@.subrange(0, index as int),
        decreases length - index,
    {
        chars.push(text.get_char(index));
        index = index + 1;
    }

    proof {
        assert(text@.subrange(0, length as int) =~= text@);
    }

    chars
}

/// A text made of these characters.
pub fn string_of(chars: &[char]) -> (text: String)
    ensures
        text@ == chars@,
{
    let mut text = String::new();
    let mut index: usize = 0;

    while index < chars.len()
        invariant
            index <= chars.len(),
            text@ == chars@.subrange(0, index as int),
        decreases chars.len() - index,
    {
        push_char(&mut text, chars[index]);
        index = index + 1;
        proof {
            assert(chars@.subrange(0, index as int) =~= chars@.subrange(0, index - 1).push(chars@[index - 1]));
        }
    }

    proof {
        assert(chars@.subrange(0, chars.len() as int) =~= chars@);
    }

    text
}

/// The decimal text of a number.
pub fn decimal(number: u64) -> (text: String)
    ensures
        text@ == spec_decimal(number as nat),
{
    let mut digits: Vec<char> = Vec::new();

    push_decimal(number, &mut digits);

    proof {
        assert(digits@ =~= spec_decimal(number as nat));
    }

    string_of(&digits)
}

/// The decimal text of a signed number, with a `-` in front of a negative one.
pub open spec fn spec_signed_decimal(number: int) -> Seq<char> {
    if number < 0 {
        seq!['-'] + spec_decimal((-number) as nat)
    } else {
        spec_decimal(number as nat)
    }
}

/// The decimal text of a signed number, as `i64::to_string` writes it.
pub fn signed_decimal(number: i64) -> (text: String)
    ensures
        text@ == spec_signed_decimal(number as int),
{
    let mut digits: Vec<char> = Vec::new();
    let magnitude: u64 = if number < 0 {
        digits.push('-');
        (0i128 - number as i128) as u64
    } else {
        number as u64
    };

    push_decimal(magnitude, &mut digits);

    proof {
        assert(digits@ =~= spec_signed_decimal(number as int));
    }

    string_of(&digits)
}

/// Appends the decimal digits of `number`, most significant first.
pub fn push_decimal(number: u64, digits: &mut Vec<char>)
    ensures
        final(digits)@ == old(digits)@ + spec_decimal(number as nat),
    decreases number,
{
    if number >= 10 {
        push_decimal(number / 10, digits);
    }
    digits.push(digit_of(number % 10));

    proof {
        if number >= 10 {
            assert(old(digits)@ + spec_decimal(number as nat) =~= old(digits)@ + spec_decimal(
                (number / 10) as nat,
            ) + seq![digit_char((number % 10) as nat)]);
        }
    }
}

fn digit_of(digit: u64) -> (c: char)
    requires
        digit < 10,
    ensures
        c == digit_char(digit as nat),
{
    match digit {
        0 => '0',
        1 => '1',
        2 => '2',
        3 => '3',
        4 => '4',
        5 => '5',
        6 => '6',
        7 => '7',
        8 => '8',
        _ => '9',
    }
}


/// The index of the first `c` in `s`, or -1.
pub open spec fn index_of(s: Seq<char>, c: char) -> int
    decreases s.len(),
{
    if s.len() == 0 {
        -1
    } else if s[0] == c {
        0
    } else {
        let rest = index_of(s.drop_first(), c);
        if rest < 0 { -1 } else { rest + 1 }
    }
}

pub proof fn lemma_index_of(s: Seq<char>, c: char)
    ensures
        -1 <= index_of(s, c) < s.len(),
        index_of(s, c) >= 0 ==> s[index_of(s, c)] == c,
        forall|j: int| 0 <= j < s.len() && (index_of(s, c) < 0 || j < index_of(s, c)) ==> s[j] != c,
    decreases s.len(),
{
    if s.len() > 0 && s[0] != c {
        lemma_index_of(s.drop_first(), c);
        assert forall|j: int| 0 <= j < s.len() && (index_of(s, c) < 0 || j < index_of(s, c)) implies s[j] != c by {
            if j > 0 {
                assert(s[j] == s.drop_first()[j - 1]);
            }
        }
    }
}

pub proof fn lemma_index_of_is(s: Seq<char>, c: char, i: int)
    requires
        -1 <= i < s.len(),
        i >= 0 ==> s[i] == c,
        forall|j: int| 0 <= j < s.len() && (i < 0 || j < i) ==> s[j] != c,
    ensures
        index_of(s, c) == i,
{
    lemma_index_of(s, c);
}

/// The pieces of `s` between the occurrences of `separator`, as `str::split` gives them.
pub open spec fn spec_split(s: Seq<char>, separator: char) -> Seq<Seq<char>>
    decreases s.len(),
{
    let i = index_of(s, separator);
    if i < 0 {
        seq![s]
    } else {
        proof {
            lemma_index_of(s, separator);
        }
        seq![s.take(i)] + spec_split(s.skip(i + 1), separator)
    }
}

/// A line without its `\r`, if it ends with one.
pub open spec fn strip_cr(line: Seq<char>) -> Seq<char> {
    if line.len() > 0 && line.last() == '\r' { line.drop_last() } else { line }
}

/// The lines of a text as `str::lines` gives them: split at `\n`, without a last empty
/// piece, and without the `\r` of a `\r\n`.
pub open spec fn spec_lines(s: Seq<char>) -> Seq<Seq<char>> {
    let pieces = spec_split(s, '\n');
    let kept = if pieces.last().len() == 0 { pieces.drop_last() } else { pieces };
    kept.map_values(|line: Seq<char>| strip_cr(line))
}

/// Unicode white space, as `char::is_whitespace` decides it.
pub open spec fn is_whitespace(c: char) -> bool {
    ||| ('\u{9}' <= c && c <= '\u{d}')
    ||| c == ' '
    ||| c == '\u{85}'
    ||| c == '\u{a0}'
    ||| c == '\u{1680}'
    ||| ('\u{2000}' <= c && c <= '\u{200a}')
    ||| c == '\u{2028}'
    ||| c == '\u{2029}'
    ||| c == '\u{202f}'
    ||| c == '\u{205f}'
    ||| c == '\u{3000}'
}

pub fn whitespace(c: char) -> (white: bool)
    ensures
        white == is_whitespace(c),
{
    ('\u{9}' <= c && c <= '\u{d}') || c == ' ' || c == '\u{85}' || c == '\u{a0}' || c == '\u{1680}'
        || ('\u{2000}' <= c && c <= '\u{200a}') || c == '\u{2028}' || c == '\u{2029}' || c == '\u{202f}'
        || c == '\u{205f}' || c == '\u{3000}'
}

/// How many characters the word at the start of `s` has.
pub open spec fn word_length(s: Seq<char>) -> nat
    decreases s.len(),
{
    if s.len() == 0 || is_whitespace(s[0]) {
        0
    } else {
        1 + word_length(s.drop_first())
    }
}

/// The words of a text, as `str::split_whitespace` gives them.
pub open spec fn spec_words(s: Seq<char>) -> Seq<Seq<char>>
    decreases s.len(),
{
    if s.len() == 0 {
        Seq::empty()
    } else if is_whitespace(s[0]) {
        spec_words(s.drop_first())
    } else {
        proof {
            lemma_word_length(s);
        }
        seq![s.take(word_length(s) as int)] + spec_words(s.skip(word_length(s) as int))
    }
}

pub proof fn lemma_word_length(s: Seq<char>)
    ensures
        word_length(s) <= s.len(),
        s.len() > 0 && !is_whitespace(s[0]) ==> word_length(s) > 0,
        forall|j: int| 0 <= j < word_length(s) ==> !is_whitespace(#[trigger] s[j]),
        word_length(s) < s.len() ==> is_whitespace(s[word_length(s) as int]),
    decreases s.len(),
{
    if s.len() > 0 && !is_whitespace(s[0]) {
        lemma_word_length(s.drop_first());
        assert forall|j: int| 0 <= j < word_length(s) implies !is_whitespace(#[trigger] s[j]) by {
            if j > 0 {
                assert(s[j] == s.drop_first()[j - 1]);
            }
        }
    }
}

pub proof fn lemma_word_length_is(s: Seq<char>, n: int)
    requires
        0 <= n <= s.len(),
        forall|j: int| 0 <= j < n ==> !is_whitespace(#[trigger] s[j]),
        n < s.len() ==> is_whitespace(s[n]),
    ensures
        word_length(s) == n,
    decreases s.len(),
{
    if n > 0 {
        assert forall|j: int| 0 <= j < n - 1 implies !is_whitespace(#[trigger] s.drop_first()[j]) by {
            assert(s.drop_first()[j] == s[j + 1]);
        }
        lemma_word_length_is(s.drop_first(), n - 1);
    }
}

pub open spec fn seq_views(pieces: Seq<Vec<char>>) -> Seq<Seq<char>> {
    pieces.map_values(|piece: Vec<char>| piece@)
}

/// A copy of `s[from..to]`.
pub fn slice_of(s: &[char], from: usize, to: usize) -> (piece: Vec<char>)
    requires
        from <= to <= s.len(),
    ensures
        piece@ == s@.subrange(from as int, to as int),
{
    let mut piece: Vec<char> = Vec::new();
    let mut index = from;

    while index < to
        invariant
            from <= index <= to <= s.len(),
            piece@ == s@.subrange(from as int, index as int),
        decreases to - index,
    {
        piece.push(s[index]);
        index = index + 1;
        proof {
            assert(piece@ =~= s@.subrange(from as int, index as int));
        }
    }

    piece
}

/// The first index at or after `from` holding `c`.
pub fn find_char(s: &[char], from: usize, c: char) -> (found: Option<usize>)
    requires
        from <= s.len(),
    ensures
        found matches Some(i) ==> from <= i < s.len() && s@[i as int] == c
            && forall|j: int| from <= j < i ==> s@[j] != c,
        found is None ==> forall|j: int| from <= j < s.len() ==> s@[j] != c,
{
    let mut index = from;

    while index < s.len()
        invariant
            from <= index <= s.len(),
            forall|j: int| from <= j < index ==> s@[j] != c,
        decreases s.len() - index,
    {
        if s[index] == c {
            return Some(index);
        }
        index = index + 1;
    }

    None
}

/// The pieces of `s` between the occurrences of `separator`.
pub fn split_chars(s: &[char], separator: char) -> (pieces: Vec<Vec<char>>)
    ensures
        seq_views(pieces@) == spec_split(s@, separator),
{
    let mut pieces: Vec<Vec<char>> = Vec::new();
    let mut start: usize = 0;

    proof {
        assert(s@.skip(0) =~= s@);
        assert(seq_views(pieces@) + spec_split(s@, separator) =~= spec_split(s@, separator));
    }

    loop
        invariant
            start <= s.len(),
            seq_views(pieces@) + spec_split(s@.skip(start as int), separator) == spec_split(s@, separator),
        decreases s.len() - start,
    {
        let ghost rest = s@.skip(start as int);

        match find_char(s, start, separator) {
            Some(end) => {
                proof {
                    lemma_index_of_is(rest, separator, end - start);
                    assert(rest.take(end - start) =~= s@.subrange(start as int, end as int));
                    assert(rest.skip(end - start + 1) =~= s@.skip(end + 1));
                }
                let piece = slice_of(s, start, end);
                pieces.push(piece);
                start = end + 1;
                proof {
                    assert(seq_views(pieces@) =~= seq_views(pieces@.drop_last()).push(piece@));
                    assert(seq_views(pieces@.drop_last()) + spec_split(rest, separator) == spec_split(s@, separator));
                }
            },
            None => {
                proof {
                    lemma_index_of_is(rest, separator, -1);
                    assert(rest =~= s@.subrange(start as int, s.len() as int));
                }
                let piece = slice_of(s, start, s.len());
                pieces.push(piece);
                proof {
                    assert(seq_views(pieces@) =~= seq_views(pieces@.drop_last()).push(piece@));
                }
                return pieces;
            },
        }
    }
}

/// The lines of a text.
pub fn lines_of(s: &[char]) -> (lines: Vec<Vec<char>>)
    ensures
        seq_views(lines@) == spec_lines(s@),
{
    let mut pieces = split_chars(s, '\n');
    let ghost all = seq_views(pieces@);

    proof {
        assert(all.len() > 0) by {
            reveal_with_fuel(spec_split, 2);
            lemma_index_of(s@, '\n');
        }
    }

    if pieces[pieces.len() - 1].len() == 0 {
        pieces.pop();
    }

    let ghost kept = seq_views(pieces@);

    proof {
        if all.last().len() == 0 {
            assert(kept =~= all.drop_last());
        } else {
            assert(kept =~= all);
        }
    }

    let mut lines: Vec<Vec<char>> = Vec::new();
    let mut index: usize = 0;

    while index < pieces.len()
        invariant
            index <= pieces.len(),
            kept == seq_views(pieces@),
            seq_views(lines@) == kept.take(index as int).map_values(|line: Seq<char>| strip_cr(line)),
        decreases pieces.len() - index,
    {
        let piece = &pieces[index];
        let line = if piece.len() > 0 && piece[piece.len() - 1] == '\r' {
            slice_of(piece.as_slice(), 0, piece.len() - 1)
        } else {
            slice_of(piece.as_slice(), 0, piece.len())
        };

        proof {
            assert(kept[index as int] == piece@);
            assert(line@ =~= strip_cr(piece@));
        }

        let ghost done = index as int;
        let ghost old_lines = lines@;

        lines.push(line);
        index = index + 1;

        proof {
            assert(kept.take(done + 1) =~= kept.take(done).push(kept[done]));
            assert(lines@.drop_last() =~= old_lines);
            assert(seq_views(lines@) =~= seq_views(old_lines).push(line@));
            assert(seq_views(lines@) =~= kept.take(index as int).map_values(|line: Seq<char>| strip_cr(line)));
        }
    }

    proof {
        assert(kept.take(index as int) =~= kept);
    }

    lines
}

/// The words of a text.
pub fn words_of(s: &[char]) -> (words: Vec<Vec<char>>)
    ensures
        seq_views(words@) == spec_words(s@),
{
    let mut words: Vec<Vec<char>> = Vec::new();
    let mut index: usize = 0;

    proof {
        assert(s@.skip(0) =~= s@);
    }

    while index < s.len()
        invariant
            index <= s.len(),
            seq_views(words@) + spec_words(s@.skip(index as int)) == spec_words(s@),
        decreases s.len() - index,
    {
        let ghost rest = s@.skip(index as int);

        if whitespace(s[index]) {
            proof {
                assert(rest.drop_first() =~= s@.skip(index + 1));
            }
            index = index + 1;
        } else {
            let mut end = index;

            while end < s.len() && !whitespace(s[end])
                invariant
                    index <= end <= s.len(),
                    forall|j: int| index <= j < end ==> !is_whitespace(#[trigger] s@[j]),
                decreases s.len() - end,
            {
                end = end + 1;
            }

            proof {
                lemma_word_length_is(rest, end - index);
                assert(rest.take(end - index) =~= s@.subrange(index as int, end as int));
                assert(rest.skip(end - index) =~= s@.skip(end as int));
            }

            let word = slice_of(s, index, end);
            words.push(word);

            proof {
                assert(seq_views(words@) =~= seq_views(words@.drop_last()).push(word@));
            }

            index = end;
        }
    }

    proof {
        assert(s@.skip(index as int) =~= Seq::<char>::empty());
    }

    words
}

/// Whether `needle` occurs in `haystack` starting at `at`.
pub open spec fn occurs_at(haystack: Seq<char>, needle: Seq<char>, at: int) -> bool {
    0 <= at && at + needle.len() <= haystack.len() && haystack.subrange(at, at + needle.len()) == needle
}

pub open spec fn spec_contains(haystack: Seq<char>, needle: Seq<char>) -> bool {
    exists|at: int| #[trigger] occurs_at(haystack, needle, at)
}

/// Whether `needle` occurs at `at`.
pub fn matches_at(haystack: &[char], needle: &[char], at: usize) -> (found: bool)
    ensures
        found == occurs_at(haystack@, needle@, at as int),
{
    if at > haystack.len() || haystack.len() - at < needle.len() {
        return false;
    }

    let mut index: usize = 0;

    while index < needle.len()
        invariant
            index <= needle.len(),
            at + needle.len() <= haystack.len(),
            forall|j: int| 0 <= j < index ==> haystack@[at + j] == needle@[j],
        decreases needle.len() - index,
    {
        if haystack[at + index] != needle[index] {
            proof {
                assert(haystack@.subrange(at as int, at + needle.len())[index as int] != needle@[index as int]);
            }
            return false;
        }
        index = index + 1;
    }

    proof {
        assert(haystack@.subrange(at as int, at + needle.len()) =~= needle@);
    }

    true
}

/// Whether `needle` occurs anywhere in `haystack`.
pub fn contains_chars(haystack: &[char], needle: &[char]) -> (found: bool)
    ensures
        found == spec_contains(haystack@, needle@),
{
    let mut at: usize = 0;

    while at < haystack.len()
        invariant
            at <= haystack.len(),
            forall|j: int| 0 <= j < at ==> !occurs_at(haystack@, needle@, j),
        decreases haystack.len() - at,
    {
        if matches_at(haystack, needle, at) {
            return true;
        }
        at = at + 1;
    }

    if matches_at(haystack, needle, at) {
        return true;
    }

    proof {
        assert forall|j: int| !#[trigger] occurs_at(haystack@, needle@, j) by {
            if 0 <= j < at {
            }
        }
    }

    false
}

/// How many times `c` occurs in `s`.
pub open spec fn count_char(s: Seq<char>, c: char) -> nat
    decreases s.len(),
{
    if s.len() == 0 {
        0
    } else {
        count_char(s.drop_last(), c) + if s.last() == c { 1nat } else { 0nat }
    }
}

pub fn count_of(s: &[char], c: char) -> (count: usize)
    ensures
        count == count_char(s@, c),
{
    let mut count: usize = 0;
    let mut index: usize = 0;

    while index < s.len()
        invariant
            index <= s.len(),
            count == count_char(s@.take(index as int), c),
            count <= index,
        decreases s.len() - index,
    {
        proof {
            assert(s@.take(index + 1).drop_last() =~= s@.take(index as int));
        }
        if s[index] == c {
            count = count + 1;
        }
        index = index + 1;
    }

    proof {
        assert(s@.take(index as int) =~= s@);
    }

    count
}

/// `s` cut at its first `c`, without it, as `str::split_once` does.
pub open spec fn spec_split_once(s: Seq<char>, c: char) -> Option<(Seq<char>, Seq<char>)> {
    let i = index_of(s, c);
    if i < 0 { None } else { Some((s.take(i), s.skip(i + 1))) }
}

pub fn split_once_char(s: &[char], c: char) -> (parts: Option<(Vec<char>, Vec<char>)>)
    ensures
        match spec_split_once(s@, c) {
            Some((before, after)) => parts matches Some((b, a)) && b@ == before && a@ == after,
            None => parts is None,
        },
{
    match find_char(s, 0, c) {
        Some(i) => {
            proof {
                lemma_index_of_is(s@, c, i as int);
                assert(s@.take(i as int) =~= s@.subrange(0, i as int));
                assert(s@.skip(i + 1) =~= s@.subrange(i + 1, s.len() as int));
            }
            Some((slice_of(s, 0, i), slice_of(s, i + 1, s.len())))
        },
        None => {
            proof {
                lemma_index_of_is(s@, c, -1);
            }
            None
        },
    }
}

/// The value of a run of decimal digits, when it does not pass `max`.
fn digits_up_to(digits: &[char], max: u64) -> (value: Option<u64>)
    requires
        all_digits(digits@),
    ensures
        value matches Some(v) ==> v == digits_value(digits@) && v <= max,
        value is None ==> digits_value(digits@) > max,
{
    let mut value: u64 = 0;
    let mut index: usize = 0;

    while index < digits.len()
        invariant
            index <= digits.len(),
            all_digits(digits@),
            value == digits_value(digits@.take(index as int)),
            value <= max,
        decreases digits.len() - index,
    {
        let d = (digits[index] as u32 - '0' as u32) as u64;

        proof {
            assert(digits@.take(index + 1).drop_last() =~= digits@.take(index as int));
            assert(is_digit(digits@[index as int]));
        }

        if (value as u128) * 10 + (d as u128) > max as u128 {
            proof {
                lemma_value_of_prefix_bounds(digits@, index as int + 1);
                assert(digits_value(digits@.take(index + 1)) == value * 10 + d);
            }
            return None;
        }
        value = value * 10 + d;
        index = index + 1;
    }

    proof {
        assert(digits@.take(index as int) =~= digits@);
    }

    Some(value)
}

/// The value of a whole run of digits is at least that of any of its prefixes.
pub proof fn lemma_value_of_prefix_bounds(digits: Seq<char>, length: int)
    requires
        all_digits(digits),
        0 <= length <= digits.len(),
    ensures
        digits_value(digits) >= digits_value(digits.take(length)),
    decreases digits.len() - length,
{
    if length < digits.len() {
        lemma_value_of_prefix_bounds(digits, length + 1);
        assert(digits.take(length + 1).drop_last() =~= digits.take(length));
        assert(digits_value(digits.take(length + 1)) >= digits_value(digits.take(length)));
    } else {
        assert(digits.take(length) =~= digits);
    }
}

/// An unsigned number as `str::parse` reads it, when it fits under `max`.
pub fn parse_unsigned(s: &[char], max: u64) -> (value: Option<u64>)
    ensures
        match spec_parse_unsigned(s@, max as nat) {
            Some(v) => value == Some(v as u64),
            None => value is None,
        },
{
    let start: usize = if s.len() > 0 && s[0] == '+' { 1 } else { 0 };

    proof {
        if start == 1 {
            assert(s@.drop_first() =~= s@.subrange(1, s.len() as int));
        } else {
            assert(s@ =~= s@.subrange(0, s.len() as int));
        }
    }

    if start == s.len() {
        return None;
    }

    let mut index = start;

    while index < s.len()
        invariant
            start <= index <= s.len(),
            start < s.len(),
            start == (if s@.len() > 0 && s@[0] == '+' { 1int } else { 0int }),
            forall|j: int| start <= j < index ==> is_digit(s@[j]),
        decreases s.len() - index,
    {
        if !(s[index] >= '0' && s[index] <= '9') {
            proof {
                let digits = s@.subrange(start as int, s.len() as int);
                if start == 1 {
                    assert(s@.drop_first() =~= digits);
                } else {
                    assert(s@ =~= digits);
                }
                assert(!is_digit(digits[index - start]));
            }
            return None;
        }
        index = index + 1;
    }

    let digits = slice_of(s, start, s.len());

    proof {
        assert(all_digits(digits@)) by {
            assert forall|j: int| 0 <= j < digits@.len() implies is_digit(#[trigger] digits@[j]) by {
                assert(digits@[j] == s@[start + j]);
            }
        }
    }

    digits_up_to(digits.as_slice(), max)
}

pub fn parse_u32(s: &[char]) -> (value: Option<u32>)
    ensures
        value == spec_parse_u32(s@),
{
    match parse_unsigned(s, u32::MAX as u64) {
        Some(v) => Some(v as u32),
        None => None,
    }
}

/// `s` without the white space at its start.
pub open spec fn trim_start(s: Seq<char>) -> Seq<char>
    decreases s.len(),
{
    if s.len() > 0 && is_whitespace(s[0]) {
        trim_start(s.drop_first())
    } else {
        s
    }
}

/// `s` without the white space at its end.
pub open spec fn trim_end(s: Seq<char>) -> Seq<char>
    decreases s.len(),
{
    if s.len() > 0 && is_whitespace(s.last()) {
        trim_end(s.drop_last())
    } else {
        s
    }
}

/// `s` without white space at either end, as `str::trim` gives it.
pub open spec fn spec_trim(s: Seq<char>) -> Seq<char> {
    trim_end(trim_start(s))
}

pub fn trim_chars(s: &[char]) -> (trimmed: Vec<char>)
    ensures
        trimmed@ == spec_trim(s@),
{
    let mut start: usize = 0;

    proof {
        assert(s@.skip(0) =~= s@);
    }

    while start < s.len() && whitespace(s[start])
        invariant
            start <= s.len(),
            trim_start(s@) == trim_start(s@.skip(start as int)),
        decreases s.len() - start,
    {
        proof {
            assert(s@.skip(start as int).drop_first() =~= s@.skip(start + 1));
        }
        start = start + 1;
    }

    let mut end: usize = s.len();

    proof {
        assert(trim_start(s@.skip(start as int)) == s@.skip(start as int));
        assert(s@.skip(start as int) =~= s@.subrange(start as int, end as int));
    }

    while end > start && whitespace(s[end - 1])
        invariant
            start <= end <= s.len(),
            trim_end(trim_start(s@)) == trim_end(s@.subrange(start as int, end as int)),
        decreases end,
    {
        proof {
            assert(s@.subrange(start as int, end as int).drop_last() =~= s@.subrange(start as int, end - 1));
        }
        end = end - 1;
    }

    slice_of(s, start, end)
}

/// Whether `s` begins with `prefix`.
pub open spec fn has_prefix(s: Seq<char>, prefix: Seq<char>) -> bool {
    prefix.len() <= s.len() && s.take(prefix.len() as int) == prefix
}

pub fn starts_with(s: &[char], prefix: &[char]) -> (starts: bool)
    ensures
        starts == has_prefix(s@, prefix@),
{
    if prefix.len() > s.len() {
        return false;
    }

    let mut index: usize = 0;

    while index < prefix.len()
        invariant
            index <= prefix.len() <= s.len(),
            forall|j: int| 0 <= j < index ==> s@[j] == prefix@[j],
        decreases prefix.len() - index,
    {
        if s[index] != prefix[index] {
            proof {
                assert(s@.take(prefix.len() as int)[index as int] != prefix@[index as int]);
            }
            return false;
        }
        index = index + 1;
    }

    proof {
        assert(s@.take(prefix.len() as int) =~= prefix@);
    }

    true
}

pub fn parse_u8(s: &[char]) -> (value: Option<u8>)
    ensures
        value == spec_parse_u8(s@),
{
    match parse_unsigned(s, u8::MAX as u64) {
        Some(v) => Some(v as u8),
        None => None,
    }
}

/// A signed 64-bit number as `str::parse` reads it.
pub fn parse_i64(s: &[char]) -> (value: Option<i64>)
    ensures
        value == spec_parse_i64(s@),
{
    if s.len() > 0 && s[0] == '-' {
        let digits = slice_of(s, 1, s.len());
        proof {
            assert(digits@ =~= s@.drop_first());
        }
        if digits.len() == 0 {
            return None;
        }
        let mut index: usize = 0;
        while index < digits.len()
            invariant
                index <= digits.len(),
                digits@ == s@.drop_first(),
                s@.len() > 0 && s@[0] == '-',
                forall|j: int| 0 <= j < index ==> is_digit(digits@[j]),
            decreases digits.len() - index,
        {
            if !(digits[index] >= '0' && digits[index] <= '9') {
                proof {
                    assert(!is_digit(digits@[index as int]));
                }
                return None;
            }
            index = index + 1;
        }
        proof {
            assert(all_digits(digits@));
        }
        match digits_up_to(digits.as_slice(), 0x8000_0000_0000_0000u64) {
            Some(magnitude) => Some((0i128 - magnitude as i128) as i64),
            None => None,
        }
    } else {
        match parse_unsigned(s, i64::MAX as u64) {
            Some(v) => Some(v as i64),
            None => None,
        }
    }
}

/// Where `separator` first occurs in `s` at or after `at`, or -1.
pub open spec fn first_from(s: Seq<char>, separator: Seq<char>, at: int) -> int
    decreases s.len() - at,
{
    if at < 0 || at + separator.len() > s.len() {
        -1
    } else if occurs_at(s, separator, at) {
        at
    } else if at >= s.len() {
        -1
    } else {
        first_from(s, separator, at + 1)
    }
}

pub proof fn lemma_first_from(s: Seq<char>, separator: Seq<char>, at: int)
    requires
        0 <= at,
    ensures
        first_from(s, separator, at) == -1 || (at <= first_from(s, separator, at) && first_from(s, separator, at)
            + separator.len() <= s.len() && occurs_at(s, separator, first_from(s, separator, at))),
    decreases s.len() - at,
{
    if at + separator.len() <= s.len() && !occurs_at(s, separator, at) && at < s.len() {
        lemma_first_from(s, separator, at + 1);
    }
}

/// The pieces of `s` between the occurrences of `separator`, as `str::split` with a text
/// pattern gives them.
pub open spec fn spec_split_text(s: Seq<char>, separator: Seq<char>) -> Seq<Seq<char>>
    decreases s.len(),
{
    if separator.len() == 0 {
        seq![s]
    } else {
        let i = first_from(s, separator, 0);
        if i < 0 {
            seq![s]
        } else {
            proof {
                lemma_first_from(s, separator, 0);
            }
            seq![s.take(i)] + spec_split_text(s.skip(i + separator.len()), separator)
        }
    }
}

/// Where `separator` first occurs in `s`.
pub fn find_text(s: &[char], separator: &[char]) -> (found: Option<usize>)
    requires
        separator.len() > 0,
    ensures
        match found {
            Some(i) => first_from(s@, separator@, 0) == i,
            None => first_from(s@, separator@, 0) == -1,
        },
{
    let mut at: usize = 0;

    while at < s.len() && s.len() - at >= separator.len()
        invariant
            separator.len() > 0,
            at <= s.len(),
            first_from(s@, separator@, 0) == first_from(s@, separator@, at as int),
        decreases s.len() - at,
    {
        if matches_at(s, separator, at) {
            return Some(at);
        }
        at = at + 1;
    }

    None
}

/// The pieces of `s` between the occurrences of a non-empty `separator`.
pub fn split_text(s: &[char], separator: &[char]) -> (pieces: Vec<Vec<char>>)
    requires
        separator.len() > 0,
    ensures
        seq_views(pieces@) == spec_split_text(s@, separator@),
{
    let mut pieces: Vec<Vec<char>> = Vec::new();
    let mut rest: Vec<char> = slice_of(s, 0, s.len());

    proof {
        assert(rest@ =~= s@);
        assert(seq_views(pieces@) + spec_split_text(rest@, separator@) =~= spec_split_text(s@, separator@));
    }

    loop
        invariant
            separator.len() > 0,
            seq_views(pieces@) + spec_split_text(rest@, separator@) == spec_split_text(s@, separator@),
        decreases rest.len(),
    {
        match find_text(rest.as_slice(), separator) {
            Some(i) => {
                proof {
                    lemma_first_from(rest@, separator@, 0);
                }
                let piece = slice_of(rest.as_slice(), 0, i);
                let next = slice_of(rest.as_slice(), i + separator.len(), rest.len());
                proof {
                    assert(piece@ =~= rest@.take(i as int));
                    assert(next@ =~= rest@.skip(i + separator.len()));
                }
                let ghost before = pieces@;
                pieces.push(piece);
                proof {
                    assert(seq_views(pieces@) =~= seq_views(before).push(piece@));
                    assert(seq_views(pieces@) + spec_split_text(next@, separator@) =~= seq_views(before) + spec_split_text(
                        rest@,
                        separator@,
                    ));
                }
                rest = next;
            },
            None => {
                let ghost before = pieces@;
                pieces.push(rest);
                proof {
                    assert(seq_views(pieces@) =~= seq_views(before).push(rest@));
                }
                return pieces;
            },
        }
    }
}

/// `s` without the `quote` characters at either end, as `str::trim_matches` does.
pub open spec fn trim_char(s: Seq<char>, quote: char) -> Seq<char>
    decreases s.len(),
{
    if s.len() > 0 && s[0] == quote {
        trim_char(s.drop_first(), quote)
    } else if s.len() > 0 && s.last() == quote {
        trim_char(s.drop_last(), quote)
    } else {
        s
    }
}

pub fn trim_char_chars(s: &[char], quote: char) -> (trimmed: Vec<char>)
    ensures
        trimmed@ == trim_char(s@, quote),
{
    let mut start: usize = 0;

    proof {
        assert(s@.skip(0) =~= s@);
    }

    while start < s.len() && s[start] == quote
        invariant
            start <= s.len(),
            trim_char(s@, quote) == trim_char(s@.skip(start as int), quote),
        decreases s.len() - start,
    {
        proof {
            assert(s@.skip(start as int).drop_first() =~= s@.skip(start + 1));
        }
        start = start + 1;
    }

    let mut end: usize = s.len();

    proof {
        assert(s@.skip(start as int) =~= s@.subrange(start as int, end as int));
    }

    while end > start && s[end - 1] == quote
        invariant
            start <= end <= s.len(),
            start < s.len() ==> s@[start as int] != quote,
            trim_char(s@, quote) == trim_char(s@.subrange(start as int, end as int), quote),
        decreases end,
    {
        proof {
            let piece = s@.subrange(start as int, end as int);
            assert(piece[0] == s@[start as int]);
            assert(piece.drop_last() =~= s@.subrange(start as int, end - 1));
        }
        end = end - 1;
    }

    proof {
        let piece = s@.subrange(start as int, end as int);
        if piece.len() > 0 {
            assert(piece[0] == s@[start as int]);
            assert(piece.last() == s@[end - 1]);
        }
    }

    slice_of(s, start, end)
}

/// The ASCII capitals made small, every other character kept, as `to_ascii_lowercase`.
pub open spec fn ascii_lower(c: char) -> char {
    if 'A' <= c && c <= 'Z' { ((c as u32) + 32) as char } else { c }
}

pub open spec fn spec_ascii_lowercase(s: Seq<char>) -> Seq<char> {
    s.map_values(|c: char| ascii_lower(c))
}

pub fn ascii_lowercase(s: &[char]) -> (lower: Vec<char>)
    ensures
        lower@ == spec_ascii_lowercase(s@),
{
    let mut lower: Vec<char> = Vec::new();
    let mut index: usize = 0;

    while index < s.len()
        invariant
            index <= s.len(),
            lower@ == spec_ascii_lowercase(s@.take(index as int)),
        decreases s.len() - index,
    {
        let c = s[index];
        let small = if 'A' <= c && c <= 'Z' { ((c as u8) + 32) as char } else { c };
        proof {
            assert(small == ascii_lower(c));
        }
        lower.push(small);
        index = index + 1;
        proof {
            assert(spec_ascii_lowercase(s@.take(index as int)) =~= spec_ascii_lowercase(s@.take(index - 1)).push(ascii_lower(c)));
        }
    }

    proof {
        assert(s@.take(index as int) =~= s@);
    }

    lower
}

/// Whether two runs of characters are the same.
pub fn same_chars(a: &[char], b: &[char]) -> (equal: bool)
    ensures
        equal == (a@ == b@),
{
    if a.len() != b.len() {
        return false;
    }

    let mut index: usize = 0;

    while index < a.len()
        invariant
            index <= a.len() == b.len(),
            forall|i: int| 0 <= i < index ==> a@[i] == b@[i],
        decreases a.len() - index,
    {
        if a[index] != b[index] {
            return false;
        }
        index = index + 1;
    }

    proof {
        assert(a@ =~= b@);
    }

    true
}

} // verus!
