//! The routes of the account server's API, by name. The same map for the three
//! interfaces: whoever draws asks for `"kickMember"` with `{server, user}` and does not
//! know (nor need to know) the path.

use vstd::prelude::*;

use crate::json::{at, member_at, spec_as_str, Json};
use crate::models::same_text;
use crate::text::{
    chars_of, is_ascii_alphanumeric, push_char, seq_views, signed_decimal, slice_of, spec_signed_decimal, spec_split,
    split_chars, string_of,
};

verus! {

/// The methods the routes use.
#[derive(Debug, Clone, Copy, PartialEq, Eq, Structural)]
pub enum Method {
    Get,
    Post,
    Put,
    Patch,
    Delete,
}

impl Method {
    /// The method as HTTP writes it.
    pub fn name(self) -> (name: &'static str)
        ensures
            name@ == spec_method_name(self),
    {
        match self {
            Method::Get => "GET",
            Method::Post => "POST",
            Method::Put => "PUT",
            Method::Patch => "PATCH",
            Method::Delete => "DELETE",
        }
    }
}

pub open spec fn spec_method_name(method: Method) -> Seq<char> {
    match method {
        Method::Get => "GET"@,
        Method::Post => "POST"@,
        Method::Put => "PUT"@,
        Method::Patch => "PATCH"@,
        Method::Delete => "DELETE"@,
    }
}

/// `(name, method, path)`. What stands between braces comes from the parameters.
pub open spec fn routes() -> Seq<(Seq<char>, Method, Seq<char>)> {
    seq![
        ("updateMe"@, Method::Patch, "/api/me"@),
        ("uploadAvatar"@, Method::Post, "/api/me/avatar"@),
        ("deleteAvatar"@, Method::Delete, "/api/me/avatar"@),
        ("signOut"@, Method::Post, "/api/auth/logout"@),
        ("createServer"@, Method::Post, "/api/servers"@),
        ("updateServer"@, Method::Patch, "/api/servers/{server}"@),
        ("deleteServer"@, Method::Delete, "/api/servers/{server}"@),
        ("leaveServer"@, Method::Post, "/api/servers/{server}/leave"@),
        ("uploadServerIcon"@, Method::Post, "/api/servers/{server}/icon"@),
        ("deleteServerIcon"@, Method::Delete, "/api/servers/{server}/icon"@),
        ("renewInvite"@, Method::Post, "/api/servers/{server}/invite"@),
        ("acceptInvite"@, Method::Post, "/api/invites/{code}"@),
        ("audits"@, Method::Get, "/api/servers/{server}/audits"@),
        ("bans"@, Method::Get, "/api/servers/{server}/bans"@),
        ("ban"@, Method::Post, "/api/servers/{server}/bans/{user}"@),
        ("unban"@, Method::Delete, "/api/servers/{server}/bans/{user}"@),
        ("updateMember"@, Method::Patch, "/api/servers/{server}/members/{user}"@),
        ("kickMember"@, Method::Delete, "/api/servers/{server}/members/{user}"@),
        ("createRole"@, Method::Post, "/api/servers/{server}/roles"@),
        ("updateRole"@, Method::Patch, "/api/roles/{role}"@),
        ("deleteRole"@, Method::Delete, "/api/roles/{role}"@),
        ("createChannel"@, Method::Post, "/api/servers/{server}/channels"@),
        ("updateChannel"@, Method::Patch, "/api/channels/{channel}"@),
        ("deleteChannel"@, Method::Delete, "/api/channels/{channel}"@),
        ("putOverwrite"@, Method::Put, "/api/channels/{channel}/overwrites/{type}/{id}"@),
        ("deleteOverwrite"@, Method::Delete, "/api/channels/{channel}/overwrites/{type}/{id}"@),
        ("disconnectFromVoice"@, Method::Delete, "/api/channels/{channel}/voice/members/{user}"@),
        ("messages"@, Method::Get, "/api/channels/{channel}/messages"@),
        ("sendMessage"@, Method::Post, "/api/channels/{channel}/messages"@),
        ("friends"@, Method::Get, "/api/friends"@),
        ("addFriend"@, Method::Post, "/api/friends"@),
        ("answerFriend"@, Method::Patch, "/api/friends/{friendship}"@),
        ("removeFriend"@, Method::Delete, "/api/friends/{friendship}"@),
        ("conversations"@, Method::Get, "/api/dm"@),
        ("directMessages"@, Method::Get, "/api/dm/{user}"@),
        ("sendDirect"@, Method::Post, "/api/dm/{user}"@),
        ("readDirect"@, Method::Post, "/api/dm/{user}/read"@),
        ("editDirect"@, Method::Patch, "/api/dm/{message}"@),
        ("deleteDirect"@, Method::Delete, "/api/dm/{message}"@),
        ("reportError"@, Method::Post, "/api/errors"@),
    ]
}

pub open spec fn route_views(table: Seq<(&'static str, Method, &'static str)>) -> Seq<(Seq<char>, Method, Seq<char>)> {
    table.map_values(|route: (&'static str, Method, &'static str)| (route.0@, route.1, route.2@))
}

pub fn route_table() -> (table: Vec<(&'static str, Method, &'static str)>)
    ensures
        route_views(table@) == routes(),
{
    let table = vec![
        ("updateMe", Method::Patch, "/api/me"),
        ("uploadAvatar", Method::Post, "/api/me/avatar"),
        ("deleteAvatar", Method::Delete, "/api/me/avatar"),
        ("signOut", Method::Post, "/api/auth/logout"),
        ("createServer", Method::Post, "/api/servers"),
        ("updateServer", Method::Patch, "/api/servers/{server}"),
        ("deleteServer", Method::Delete, "/api/servers/{server}"),
        ("leaveServer", Method::Post, "/api/servers/{server}/leave"),
        ("uploadServerIcon", Method::Post, "/api/servers/{server}/icon"),
        ("deleteServerIcon", Method::Delete, "/api/servers/{server}/icon"),
        ("renewInvite", Method::Post, "/api/servers/{server}/invite"),
        ("acceptInvite", Method::Post, "/api/invites/{code}"),
        ("audits", Method::Get, "/api/servers/{server}/audits"),
        ("bans", Method::Get, "/api/servers/{server}/bans"),
        ("ban", Method::Post, "/api/servers/{server}/bans/{user}"),
        ("unban", Method::Delete, "/api/servers/{server}/bans/{user}"),
        ("updateMember", Method::Patch, "/api/servers/{server}/members/{user}"),
        ("kickMember", Method::Delete, "/api/servers/{server}/members/{user}"),
        ("createRole", Method::Post, "/api/servers/{server}/roles"),
        ("updateRole", Method::Patch, "/api/roles/{role}"),
        ("deleteRole", Method::Delete, "/api/roles/{role}"),
        ("createChannel", Method::Post, "/api/servers/{server}/channels"),
        ("updateChannel", Method::Patch, "/api/channels/{channel}"),
        ("deleteChannel", Method::Delete, "/api/channels/{channel}"),
        ("putOverwrite", Method::Put, "/api/channels/{channel}/overwrites/{type}/{id}"),
        ("deleteOverwrite", Method::Delete, "/api/channels/{channel}/overwrites/{type}/{id}"),
        ("disconnectFromVoice", Method::Delete, "/api/channels/{channel}/voice/members/{user}"),
        ("messages", Method::Get, "/api/channels/{channel}/messages"),
        ("sendMessage", Method::Post, "/api/channels/{channel}/messages"),
        ("friends", Method::Get, "/api/friends"),
        ("addFriend", Method::Post, "/api/friends"),
        ("answerFriend", Method::Patch, "/api/friends/{friendship}"),
        ("removeFriend", Method::Delete, "/api/friends/{friendship}"),
        ("conversations", Method::Get, "/api/dm"),
        ("directMessages", Method::Get, "/api/dm/{user}"),
        ("sendDirect", Method::Post, "/api/dm/{user}"),
        ("readDirect", Method::Post, "/api/dm/{user}/read"),
        ("editDirect", Method::Patch, "/api/dm/{message}"),
        ("deleteDirect", Method::Delete, "/api/dm/{message}"),
        ("reportError", Method::Post, "/api/errors"),
    ];
    proof {
        assert(route_views(table@) =~= routes());
    }
    table
}

/// The first route named `name`.
pub open spec fn route_of(table: Seq<(Seq<char>, Method, Seq<char>)>, name: Seq<char>) -> Option<(Method, Seq<char>)>
    decreases table.len(),
{
    if table.len() == 0 {
        None
    } else if table[0].0 == name {
        Some((table[0].1, table[0].2))
    } else {
        route_of(table.drop_first(), name)
    }
}

/// A character that cannot leave its own piece of the path.
pub open spec fn safe_char(c: char) -> bool {
    is_ascii_alphanumeric(c) || c == '-' || c == '_'
}

/// The text of a parameter: a number as it is written, or a text.
pub open spec fn spec_text_of(value: Json) -> Option<Seq<char>> {
    match value {
        Json::Integer(n) => Some(spec_signed_decimal(n as int)),
        Json::Float(text) => Some(text@),
        Json::Text(text) => Some(text@),
        _ => None,
    }
}

/// A piece of path: a number or a text with nothing that leaves the piece.
pub open spec fn spec_segment(value: Json) -> Option<Seq<char>> {
    match spec_text_of(value) {
        Some(text) => if text.len() > 0 && forall|i: int| 0 <= i < text.len() ==> safe_char(#[trigger] text[i]) {
            Some(text)
        } else {
            None
        },
        None => None,
    }
}

/// The name between the braces of a placeholder piece.
pub open spec fn placeholder(piece: Seq<char>) -> Option<Seq<char>> {
    if piece.len() >= 2 && piece[0] == '{' && piece.last() == '}' {
        Some(piece.subrange(1, piece.len() - 1))
    } else {
        None
    }
}

/// The pieces of a template filled in, each after a `/`; `None` when a parameter is missing
/// or unsafe.
pub open spec fn filled(pieces: Seq<Seq<char>>, params: Json) -> Option<Seq<char>>
    decreases pieces.len(),
{
    if pieces.len() == 0 {
        Some(Seq::empty())
    } else {
        let rest = filled(pieces.drop_last(), params);
        let piece = pieces.last();
        let part = match placeholder(piece) {
            Some(key) => spec_segment(at(params, key)),
            None => Some(piece),
        };
        match (rest, part) {
            (Some(rest), Some(part)) => Some(rest + seq!['/'] + part),
            _ => None,
        }
    }
}

/// The query rides along with the path: the only way to page a `GET`.
pub open spec fn query_part(params: Json) -> Seq<char> {
    match spec_as_str(at(params, "query"@)) {
        Some(query) => if query.len() > 0 { seq!['?'] + query } else { Seq::empty() },
        None => Seq::empty(),
    }
}

/// The method and the filled path of a route. `None` for an unknown name or a missing
/// parameter: a path with `{server}` left over would go to the server as garbage.
pub open spec fn spec_resolve(name: Seq<char>, params: Json) -> Option<(Method, Seq<char>)> {
    match route_of(routes(), name) {
        None => None,
        Some((method, template)) => match filled(spec_split(template, '/').drop_first(), params) {
            None => None,
            Some(path) => Some((method, path + query_part(params))),
        },
    }
}

fn text_of(value: &Json) -> (text: Option<String>)
    ensures
        match spec_text_of(*value) {
            Some(found) => text matches Some(t) && t@ == found,
            None => text is None,
        },
{
    match value {
        Json::Integer(n) => {
            if *n >= i64::MIN as i128 && *n <= i64::MAX as i128 {
                Some(signed_decimal(*n as i64))
            } else if *n > 0 && *n <= u64::MAX as i128 {
                Some(crate::text::decimal(*n as u64))
            } else {
                let mut digits: Vec<char> = Vec::new();
                let magnitude: u128 = if *n < 0 {
                    digits.push('-');
                    ((0i128 - (*n + 1)) as u128) + 1
                } else {
                    *n as u128
                };
                push_wide_decimal(magnitude, &mut digits);
                proof {
                    assert(digits@ =~= spec_signed_decimal(*n as int));
                }
                Some(string_of(digits.as_slice()))
            }
        },
        Json::Float(text) => Some(text.clone()),
        Json::Text(text) => Some(text.clone()),
        _ => None,
    }
}

fn push_wide_decimal(number: u128, digits: &mut Vec<char>)
    ensures
        final(digits)@ == old(digits)@ + crate::text::spec_decimal(number as nat),
    decreases number,
{
    if number >= 10 {
        push_wide_decimal(number / 10, digits);
    }
    let digit = (number % 10) as u64;
    let c: char = if digit == 0 { '0' } else if digit == 1 { '1' } else if digit == 2 { '2' } else if digit == 3 {
        '3'
    } else if digit == 4 { '4' } else if digit == 5 { '5' } else if digit == 6 { '6' } else if digit == 7 { '7' } else if digit
        == 8 { '8' } else { '9' };
    proof {
        assert(c == crate::text::digit_char(digit as nat));
    }
    digits.push(c);
    proof {
        if number >= 10 {
            assert(old(digits)@ + crate::text::spec_decimal(number as nat) =~= old(digits)@ + crate::text::spec_decimal(
                (number / 10) as nat,
            ) + seq![crate::text::digit_char((number % 10) as nat)]);
        }
    }
}

pub fn segment(value: &Json) -> (piece: Option<String>)
    ensures
        match spec_segment(*value) {
            Some(found) => piece matches Some(p) && p@ == found,
            None => piece is None,
        },
{
    let text = match text_of(value) {
        Some(text) => text,
        None => return None,
    };
    let chars = chars_of(text.as_str());

    if chars.len() == 0 {
        return None;
    }

    let mut index: usize = 0;

    while index < chars.len()
        invariant
            index <= chars.len(),
            chars@ == text@,
            spec_text_of(*value) == Some(text@),
            forall|i: int| 0 <= i < index ==> safe_char(#[trigger] chars@[i]),
        decreases chars.len() - index,
    {
        let c = chars[index];
        if !(('0' <= c && c <= '9') || ('a' <= c && c <= 'z') || ('A' <= c && c <= 'Z') || c == '-' || c == '_') {
            proof {
                assert(!safe_char(chars@[index as int]));
            }
            return None;
        }
        index = index + 1;
    }

    Some(text)
}

/// The method and the filled path of a route.
pub fn resolve(name: &str, params: &Json) -> (route: Option<(Method, String)>)
    ensures
        match spec_resolve(name@, *params) {
            Some((method, path)) => route matches Some((m, p)) && m == method && p@ == path,
            None => route is None,
        },
{
    let table = route_table();
    let mut index: usize = 0;
    let ghost all = routes();

    proof {
        assert(all.skip(0) =~= all);
    }

    while index < table.len()
        invariant
            index <= table.len(),
            all == routes(),
            route_views(table@) == all,
            route_of(all, name@) == route_of(all.skip(index as int), name@),
        decreases table.len() - index,
    {
        proof {
            assert(all.skip(index as int)[0] == (table@[index as int].0@, table@[index as int].1, table@[index as int].2@));
            assert(all.skip(index as int).drop_first() =~= all.skip(index + 1));
        }
        if same_text(table[index].0, name) {
            return fill(table[index].1, table[index].2, params);
        }
        index = index + 1;
    }

    proof {
        assert(all.skip(index as int) =~= Seq::<(Seq<char>, Method, Seq<char>)>::empty());
    }

    None
}

proof fn lemma_filled_stays_none(pieces: Seq<Seq<char>>, length: int, params: Json)
    requires
        0 <= length <= pieces.len(),
        filled(pieces.take(length), params) is None,
    ensures
        filled(pieces, params) is None,
    decreases pieces.len() - length,
{
    if length < pieces.len() {
        assert(pieces.take(length + 1).drop_last() =~= pieces.take(length));
        lemma_filled_stays_none(pieces, length + 1, params);
    } else {
        assert(pieces.take(length) =~= pieces);
    }
}

fn fill(method: Method, template: &str, params: &Json) -> (route: Option<(Method, String)>)
    ensures
        match filled(spec_split(template@, '/').drop_first(), *params) {
            None => route is None,
            Some(path) => route matches Some((m, p)) && m == method && p@ == path + query_part(*params),
        },
{
    let chars = chars_of(template);
    let pieces = split_chars(chars.as_slice(), '/');
    let ghost all = seq_views(pieces@).drop_first();
    let null = Json::Null;
    let mut path: Vec<char> = Vec::new();
    let mut index: usize = 1;

    proof {
        assert(all.take(0) =~= Seq::<Seq<char>>::empty());
    }

    while index < pieces.len()
        invariant
            1 <= index <= pieces.len() || pieces.len() == 0,
            all == seq_views(pieces@).drop_first(),
            all == spec_split(template@, '/').drop_first(),
            null == Json::Null,
            pieces.len() > 0 ==> filled(all.take(index - 1), *params) == Some(path@),
            pieces.len() == 0 ==> path@.len() == 0,
        decreases pieces.len() - index,
    {
        proof {
            assert(all.take(index as int).drop_last() =~= all.take(index - 1));
            assert(all.take(index as int).last() == pieces@[index as int]@);
        }
        let piece = &pieces[index];
        let ghost before = path@;
        path.push('/');
        let is_placeholder = piece.len() >= 2 && piece[0] == '{' && piece[piece.len() - 1] == '}';
        if is_placeholder {
            let inner = slice_of(piece.as_slice(), 1, piece.len() - 1);
            let key = string_of(inner.as_slice());
            let value = member_at(params, key.as_str(), &null);
            match segment(value) {
                Some(text) => {
                    let part = chars_of(text.as_str());
                    let mut at_char: usize = 0;
                    while at_char < part.len()
                        invariant
                            at_char <= part.len(),
                            path@ == before.push('/') + part@.take(at_char as int),
                        decreases part.len() - at_char,
                    {
                        path.push(part[at_char]);
                        at_char = at_char + 1;
                        proof {
                            assert(part@.take(at_char as int) =~= part@.take(at_char - 1).push(part@[at_char - 1]));
                        }
                    }
                    proof {
                        assert(part@.take(at_char as int) =~= part@);
                        assert(inner@ =~= piece@.subrange(1, piece@.len() - 1));
                    }
                },
                None => {
                    proof {
                        assert(inner@ =~= piece@.subrange(1, piece@.len() - 1));
                        assert(filled(all.take(index as int), *params) is None);
                        lemma_filled_stays_none(all, index as int, *params);
                    }
                    return None;
                },
            }
        } else {
            let mut at_char: usize = 0;
            while at_char < piece.len()
                invariant
                    at_char <= piece.len(),
                    path@ == before.push('/') + piece@.take(at_char as int),
                decreases piece.len() - at_char,
            {
                path.push(piece[at_char]);
                at_char = at_char + 1;
                proof {
                    assert(piece@.take(at_char as int) =~= piece@.take(at_char - 1).push(piece@[at_char - 1]));
                }
            }
            proof {
                assert(piece@.take(at_char as int) =~= piece@);
            }
        }
        proof {
            assert(before + seq!['/'] + (match placeholder(piece@) {
                Some(key) => spec_segment(at(*params, key)),
                None => Some(piece@),
            })->0 =~= path@);
        }
        index = index + 1;
    }

    proof {
        if pieces.len() > 0 {
            assert(all.take(index - 1) =~= all);
        } else {
            assert(all =~= Seq::<Seq<char>>::empty());
        }
    }

    let mut text = string_of(path.as_slice());

    match member_at(params, "query", &null).as_str() {
        Some(query) => if query.unicode_len() > 0 {
            push_char(&mut text, '?');
            text.append(query);
        },
        None => {},
    }

    Some((method, text))
}

} // verus!
