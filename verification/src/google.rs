//! Signing in with Google from an app that is no browser.
//!
//! The app opens a port on `127.0.0.1`, sends the person to the browser with the port and
//! a drawn `state`, and the account server, after Google, sends the browser back to that
//! port with the token. The `state` that comes back must be the one that left: without it
//! any page open on the machine could hand a token to the app.

use vstd::prelude::*;

use crate::chance::{gen_below, thread_rng};
use crate::text::{
    chars_of, decimal, has_prefix, lines_of, push_char, seq_views, slice_of, spec_decimal, spec_lines, spec_split,
    spec_split_once, spec_words, split_chars, split_once_char, starts_with, string_of, words_of,
};

verus! {

/// The text `bytes` stand for, each invalid sequence replaced by `U+FFFD`, as
/// `String::from_utf8_lossy` reads them.
pub uninterp spec fn lossy_text(bytes: Seq<u8>) -> Seq<char>;

/// The text of some bytes. Wraps `String::from_utf8_lossy`, which gives valid UTF-8 back
/// as the text it encodes; what it makes of invalid bytes is named, not stated.
#[verifier::external_body]
fn text_of_bytes(bytes: &[u8]) -> (text: String)
    ensures
        text@ == lossy_text(bytes@),
        vstd::utf8::valid_utf8(bytes@) ==> text@ == vstd::utf8::decode_utf8(bytes@),
{
    String::from_utf8_lossy(bytes).into_owned()
}

/// The value of a hexadecimal digit.
pub open spec fn spec_hex(digit: u8) -> Option<u8> {
    if 48 <= digit <= 57 {
        Some((digit - 48) as u8)
    } else if 97 <= digit <= 102 {
        Some((digit - 87) as u8)
    } else if 65 <= digit <= 70 {
        Some((digit - 55) as u8)
    } else {
        None
    }
}

pub fn hex(digit: u8) -> (value: Option<u8>)
    ensures
        value == spec_hex(digit),
{
    if 48 <= digit && digit <= 57 {
        Some(digit - 48)
    } else if 97 <= digit && digit <= 102 {
        Some(digit - 87)
    } else if 65 <= digit && digit <= 70 {
        Some(digit - 55)
    } else {
        None
    }
}

/// The bytes with every `%` and two hexadecimal digits turned into the byte they spell; any
/// other byte, a lone `%` among them, stays as it is.
pub open spec fn percent_decoded(bytes: Seq<u8>) -> Seq<u8>
    decreases bytes.len(),
{
    if bytes.len() == 0 {
        Seq::empty()
    } else if bytes[0] == 37 && bytes.len() >= 3 && spec_hex(bytes[1]) is Some && spec_hex(bytes[2]) is Some {
        seq![(spec_hex(bytes[1])->0 * 16 + spec_hex(bytes[2])->0) as u8] + percent_decoded(bytes.skip(3))
    } else {
        seq![bytes[0]] + percent_decoded(bytes.skip(1))
    }
}

pub fn percent_decode(bytes: &[u8]) -> (decoded: Vec<u8>)
    ensures
        decoded@ == percent_decoded(bytes@),
{
    let mut decoded: Vec<u8> = Vec::new();
    let mut index: usize = 0;

    proof {
        assert(bytes@.skip(0) =~= bytes@);
    }

    while index < bytes.len()
        invariant
            index <= bytes.len(),
            decoded@ + percent_decoded(bytes@.skip(index as int)) == percent_decoded(bytes@),
        decreases bytes.len() - index,
    {
        let ghost rest = bytes@.skip(index as int);
        let mut taken: usize = 1;
        let mut byte = bytes[index];

        if bytes[index] == 37 && bytes.len() - index >= 3 {
            match (hex(bytes[index + 1]), hex(bytes[index + 2])) {
                (Some(high), Some(low)) => {
                    byte = high * 16 + low;
                    taken = 3;
                },
                _ => {},
            }
        }

        proof {
            assert(rest[0] == bytes@[index as int]);
            if rest.len() >= 3 {
                assert(rest[1] == bytes@[index + 1]);
                assert(rest[2] == bytes@[index + 2]);
            }
            assert(rest.skip(taken as int) =~= bytes@.skip(index + taken));
            assert(percent_decoded(rest) == seq![byte] + percent_decoded(rest.skip(taken as int)));
        }

        let ghost before = decoded@;
        decoded.push(byte);
        index = index + taken;

        proof {
            assert(decoded@ + percent_decoded(bytes@.skip(index as int)) =~= before + (seq![byte] + percent_decoded(
                rest.skip(taken as int),
            )));
        }
    }

    proof {
        assert(decoded@ + percent_decoded(bytes@.skip(index as int)) =~= decoded@);
    }

    decoded
}

/// The token comes with `|`, which the server sends as `%7C`.
pub open spec fn spec_decode(text: Seq<char>) -> Seq<char> {
    lossy_text(percent_decoded(vstd::utf8::encode_utf8(text)))
}

pub fn decode(text: &str) -> (decoded: String)
    ensures
        decoded@ == spec_decode(text@),
{
    let bytes = percent_decode(text.as_bytes());
    text_of_bytes(bytes.as_slice())
}

/// The query of the first line of a request (`GET /?token=…&state=… HTTP/1.1`).
pub open spec fn query_of(request: Seq<char>) -> Option<Seq<char>> {
    let lines = spec_lines(request);
    if lines.len() == 0 {
        None
    } else {
        let words = spec_words(lines[0]);
        if words.len() < 2 {
            None
        } else {
            match spec_split_once(words[1], '?') {
                Some((_, query)) => Some(query),
                None => None,
            }
        }
    }
}

pub open spec fn state_key() -> Seq<char> {
    seq!['s', 't', 'a', 't', 'e', '=']
}

pub open spec fn token_key() -> Seq<char> {
    seq!['t', 'o', 'k', 'e', 'n', '=']
}

/// The value of the first pair that begins with `key` (the name and its `=`).
pub open spec fn field_in(pairs: Seq<Seq<char>>, key: Seq<char>) -> Option<Seq<char>>
    decreases pairs.len(),
{
    if pairs.len() == 0 {
        None
    } else if has_prefix(pairs[0], key) {
        Some(pairs[0].skip(key.len() as int))
    } else {
        field_in(pairs.drop_first(), key)
    }
}

/// The token of the first line of the request, when the `state` matches and the token is
/// not empty.
pub open spec fn spec_token_of(request: Seq<char>, expected: Seq<char>) -> Option<Seq<char>> {
    match query_of(request) {
        None => None,
        Some(query) => {
            let pairs = spec_split(query, '&');
            match field_in(pairs, state_key()) {
                None => None,
                Some(state) => if state != expected {
                    None
                } else {
                    match field_in(pairs, token_key()) {
                        None => None,
                        Some(raw) => {
                            let token = spec_decode(raw);
                            if token.len() == 0 { None } else { Some(token) }
                        },
                    }
                },
            }
        },
    }
}

fn field(pairs: &Vec<Vec<char>>, key: &Vec<char>) -> (value: Option<Vec<char>>)
    ensures
        match field_in(seq_views(pairs@), key@) {
            Some(found) => value matches Some(value) && value@ == found,
            None => value is None,
        },
{
    let ghost all = seq_views(pairs@);
    let mut index: usize = 0;

    proof {
        assert(all.skip(0) =~= all);
    }

    while index < pairs.len()
        invariant
            index <= pairs.len(),
            all == seq_views(pairs@),
            field_in(all, key@) == field_in(all.skip(index as int), key@),
        decreases pairs.len() - index,
    {
        proof {
            assert(all.skip(index as int)[0] == pairs@[index as int]@);
            assert(all.skip(index as int).drop_first() =~= all.skip(index + 1));
        }
        if starts_with(pairs[index].as_slice(), key.as_slice()) {
            let value = slice_of(pairs[index].as_slice(), key.len(), pairs[index].len());
            proof {
                assert(value@ =~= pairs@[index as int]@.skip(key@.len() as int));
            }
            return Some(value);
        }
        index = index + 1;
    }

    proof {
        assert(all.skip(index as int) =~= Seq::<Seq<char>>::empty());
    }

    None
}

fn same_chars(a: &Vec<char>, b: &Vec<char>) -> (same: bool)
    ensures
        same == (a@ == b@),
{
    if a.len() != b.len() {
        return false;
    }

    let mut index: usize = 0;

    while index < a.len()
        invariant
            index <= a.len() == b.len(),
            forall|i: int| 0 <= i < index ==> a@[i] == b@[i],
        decreases a.len() - index,
    {
        if a[index] != b[index] {
            return false;
        }
        index = index + 1;
    }

    proof {
        assert(a@ =~= b@);
    }

    true
}

/// The token of the first line of the request, if the `state` matches.
pub fn token_of(request: &str, expected: &str) -> (token: Option<String>)
    ensures
        match spec_token_of(request@, expected@) {
            Some(found) => token matches Some(token) && token@ == found,
            None => token is None,
        },
{
    let chars = chars_of(request);
    let lines = lines_of(chars.as_slice());

    if lines.len() == 0 {
        return None;
    }

    proof {
        assert(seq_views(lines@)[0] == lines@[0]@);
    }

    let words = words_of(lines[0].as_slice());

    if words.len() < 2 {
        return None;
    }

    proof {
        assert(seq_views(words@)[1] == words@[1]@);
    }

    let query = match split_once_char(words[1].as_slice(), '?') {
        Some((_, query)) => query,
        None => return None,
    };
    let pairs = split_chars(query.as_slice(), '&');
    let state_name = vec!['s', 't', 'a', 't', 'e', '='];
    let token_name = vec!['t', 'o', 'k', 'e', 'n', '='];

    proof {
        assert(state_name@ =~= state_key());
        assert(token_name@ =~= token_key());
    }

    let state = match field(&pairs, &state_name) {
        Some(state) => state,
        None => return None,
    };
    let wanted = chars_of(expected);

    if !same_chars(&state, &wanted) {
        return None;
    }

    let raw = match field(&pairs, &token_name) {
        Some(raw) => raw,
        None => return None,
    };
    let raw_text = string_of(raw.as_slice());
    let token = decode(raw_text.as_str());

    if token.unicode_len() == 0 {
        return None;
    }

    Some(token)
}

/// The page the browser is left on once the token came back.
pub const DONE_PAGE: &'static str = "<!doctype html><meta charset=utf-8><title>Unkvoid</title><body style=\"font-family:system-ui;background:#06050a;color:#ece9f3;display:grid;place-items:center;height:100vh;margin:0\"><p>Pronto. Pode fechar esta aba e voltar para o Unkvoid.</p>";

/// The reply written back to the browser: `200 OK` and the page when a token came, `400
/// Bad Request` and no body otherwise. The page is ASCII, so its length in characters is
/// its length in bytes.
pub open spec fn spec_reply(found: bool) -> Seq<char> {
    let status = if found { "200 OK"@ } else { "400 Bad Request"@ };
    let body = if found { DONE_PAGE@ } else { Seq::<char>::empty() };
    "HTTP/1.1 "@ + status + "\r\ncontent-type: text/html; charset=utf-8\r\ncontent-length: "@ + spec_decimal(
        body.len(),
    ) + "\r\nconnection: close\r\n\r\n"@ + body
}

/// What the port answers a request that reached it: the token it carries when the `state`
/// matches, read from the bytes as lossy UTF-8, and the reply to write back.
pub fn answer_request(request: &[u8], expected: &str) -> (answer: (Option<String>, String))
    ensures
        match spec_token_of(lossy_text(request@), expected@) {
            Some(found) => answer.0 matches Some(token) && token@ == found,
            None => answer.0 is None,
        },
        answer.1@ == spec_reply(answer.0 is Some),
{
    let text = text_of_bytes(request);
    let token = token_of(text.as_str(), expected);
    let found = token.is_some();
    let body: &str = if found { DONE_PAGE } else { "" };
    let length = body.unicode_len();
    let mut reply = String::from_str("HTTP/1.1 ");
    reply.append(if found { "200 OK" } else { "400 Bad Request" });
    reply.append("\r\ncontent-type: text/html; charset=utf-8\r\ncontent-length: ");
    let count = decimal(length as u64);
    reply.append(count.as_str());
    reply.append("\r\nconnection: close\r\n\r\n");
    reply.append(body);
    proof {
        if !found {
            reveal_strlit("");
            assert(body@ =~= Seq::<char>::empty());
        }
        assert(reply@ =~= spec_reply(found));
    }
    (token, reply)
}

/// A lowercase hexadecimal digit.
pub open spec fn is_hex_char(c: char) -> bool {
    ('0' <= c && c <= '9') || ('a' <= c && c <= 'f')
}

/// The lowercase hexadecimal digit of a value below sixteen.
pub open spec fn spec_hex_digit(value: int) -> char {
    if value < 10 { ('0' as int + value) as char } else { ('a' as int + value - 10) as char }
}

/// The lowercase hexadecimal digit of a value below sixteen: `0` to `9`, then `a` to `f`.
pub fn hex_digit(value: usize) -> (digit: char)
    requires
        value < 16,
    ensures
        digit == spec_hex_digit(value as int),
        is_hex_char(digit),
{
    if value < 10 { (48u8 + value as u8) as char } else { (87u8 + value as u8) as char }
}

/// A fresh `state`: 32 hexadecimal digits drawn at random.
pub fn fresh_state() -> (state: String)
    ensures
        state@.len() == 32,
        forall|i: int| 0 <= i < 32 ==> is_hex_char(#[trigger] state@[i]),
{
    let mut rng = thread_rng();
    let mut state = String::new();
    let mut count: usize = 0;

    while count < 32
        invariant
            count <= 32,
            state@.len() == count,
            forall|i: int| 0 <= i < count ==> is_hex_char(#[trigger] state@[i]),
        decreases 32 - count,
    {
        let value = gen_below(&mut rng, 16);
        let digit = hex_digit(value);
        let ghost before = state@;
        push_char(&mut state, digit);
        proof {
            assert forall|i: int| 0 <= i < count + 1 implies is_hex_char(#[trigger] state@[i]) by {
                if i < count {
                    assert(state@[i] == before[i]);
                }
            }
        }
        count = count + 1;
    }

    state
}

/// `text` without the `/` at its end, as many as there are.
pub open spec fn trim_slashes(text: Seq<char>) -> Seq<char>
    decreases text.len(),
{
    if text.len() > 0 && text.last() == '/' { trim_slashes(text.drop_last()) } else { text }
}

/// The address the interface opens in the person's browser.
pub open spec fn spec_login_url(server: Seq<char>, port: u16, state: Seq<char>) -> Seq<char> {
    trim_slashes(server) + "/oauth2/app?port="@ + spec_decimal(port as nat) + "&state="@ + state
}

pub fn login_url(server: &str, port: u16, state: &str) -> (url: String)
    ensures
        url@ == spec_login_url(server@, port, state@),
{
    let chars = chars_of(server);
    let mut end = chars.len();

    proof {
        assert(chars@.take(end as int) =~= chars@);
    }

    while end > 0 && chars[end - 1] == '/'
        invariant
            end <= chars.len(),
            trim_slashes(chars@) == trim_slashes(chars@.take(end as int)),
        decreases end,
    {
        proof {
            assert(chars@.take(end as int).drop_last() =~= chars@.take(end - 1));
        }
        end = end - 1;
    }

    let base = slice_of(chars.as_slice(), 0, end);

    proof {
        assert(base@ =~= chars@.take(end as int));
    }

    let mut url = string_of(base.as_slice());
    url.append("/oauth2/app?port=");
    let port_text = crate::text::decimal(port as u64);
    url.append(port_text.as_str());
    url.append("&state=");
    url.append(state);
    url
}

} // verus!
