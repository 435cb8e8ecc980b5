//! What a refused call becomes for the interface, the type of an uploaded picture, the
//! address of each call, and the session of the account: its tokens, their renewal, and
//! the trees already seen. Sending the calls is the app's.

use vstd::prelude::*;

use crate::failure::{spec_from_status, Failure};
use crate::google::trim_slashes;
use crate::json::{at, i64_at, integer_at, member_at, spec_as_str, str_at, text_at, Json};
use crate::models::{same_text, ServerTree};
use crate::text::{ascii_lowercase, chars_of, has_prefix, slice_of, spec_ascii_lowercase, starts_with, string_of};

verus! {

/// What a call gives back when it fails: a reason the interface translates, or the
/// validation text the server wrote for whoever is typing, with the field it is about.
#[derive(Debug, Clone, PartialEq, Eq)]
pub enum HttpError {
    Failed(Failure),
    Invalid { field: String, message: String },
}

/// What happens to the session on its own: the pair was renewed (and must go to disk), or
/// it ended (and the interface goes back to the sign-in).
pub enum Renewal<'tokens> {
    Renewed { token: &'tokens str, refresh: &'tokens str },
    Ended,
}

/// The part of a file name after its last `.`, or all of it.
pub open spec fn after_last_dot(name: Seq<char>) -> Seq<char>
    decreases name.len(),
{
    if name.len() == 0 {
        name
    } else if name.last() == '.' {
        Seq::empty()
    } else {
        after_last_dot(name.drop_last()).push(name.last())
    }
}

/// The type of a picture by the file's name. The server checks the content; this only
/// keeps the part from going up as `application/octet-stream`.
pub open spec fn spec_mime_of(name: Seq<char>) -> Option<Seq<char>> {
    let extension = spec_ascii_lowercase(after_last_dot(name));
    if extension == "png"@ {
        Some("image/png"@)
    } else if extension == "jpg"@ || extension == "jpeg"@ {
        Some("image/jpeg"@)
    } else if extension == "gif"@ {
        Some("image/gif"@)
    } else if extension == "webp"@ {
        Some("image/webp"@)
    } else {
        None
    }
}

pub fn mime_of(name: &str) -> (mime: Option<&'static str>)
    ensures
        match spec_mime_of(name@) {
            Some(found) => mime matches Some(m) && m@ == found,
            None => mime is None,
        },
{
    let chars = chars_of(name);
    let mut start: usize = chars.len();

    proof {
        assert(chars@.skip(start as int) =~= Seq::<char>::empty());
        assert(chars@.take(start as int) =~= chars@);
        assert(after_last_dot(chars@) + Seq::<char>::empty() =~= after_last_dot(chars@));
    }

    while start > 0 && chars[start - 1] != '.'
        invariant
            start <= chars.len(),
            chars@ == name@,
            after_last_dot(chars@) == after_last_dot(chars@.take(start as int)) + chars@.skip(start as int),
        decreases start,
    {
        proof {
            let head = chars@.take(start as int);
            assert(head.drop_last() =~= chars@.take(start - 1));
            assert(head.last() == chars@[start - 1]);
            assert(chars@.skip(start - 1) =~= seq![chars@[start - 1]] + chars@.skip(start as int));
            assert(after_last_dot(chars@.take(start - 1)).push(chars@[start - 1]) + chars@.skip(start as int)
                =~= after_last_dot(chars@.take(start - 1)) + chars@.skip(start - 1));
        }
        start = start - 1;
    }

    proof {
        let head = chars@.take(start as int);
        if start == 0 {
            assert(head =~= Seq::<char>::empty());
        } else {
            assert(head.last() == '.');
        }
        assert(after_last_dot(chars@) =~= chars@.subrange(start as int, chars.len() as int));
    }

    let extension = slice_of(chars.as_slice(), start, chars.len());
    let lower = ascii_lowercase(extension.as_slice());
    let text = string_of(lower.as_slice());
    let extension = text.as_str();

    if same_text(extension, "png") {
        Some("image/png")
    } else if same_text(extension, "jpg") || same_text(extension, "jpeg") {
        Some("image/jpeg")
    } else if same_text(extension, "gif") {
        Some("image/gif")
    } else if same_text(extension, "webp") {
        Some("image/webp")
    } else {
        None
    }
}

/// The first field with an error, with its name: the server answers
/// `{"errors": {"email": ["..."]}}`, and that `email` says which input was wrong.
pub open spec fn first_field_in(fields: Seq<(String, Json)>) -> Option<(Seq<char>, Seq<char>)>
    decreases fields.len(),
{
    if fields.len() == 0 {
        None
    } else {
        match fields[0].1 {
            Json::Array(messages) => if messages.len() > 0 && spec_as_str(messages[0]) is Some {
                Some((fields[0].0@, spec_as_str(messages[0])->0))
            } else {
                first_field_in(fields.drop_first())
            },
            _ => first_field_in(fields.drop_first()),
        }
    }
}

pub open spec fn spec_first_field_error(body: Json) -> Option<(Seq<char>, Seq<char>)> {
    match at(body, "errors"@) {
        Json::Object(fields) => first_field_in(fields@),
        _ => None,
    }
}

pub fn first_field_error(body: &Json) -> (found: Option<(String, String)>)
    ensures
        match spec_first_field_error(*body) {
            Some((field, message)) => found matches Some((f, m)) && f@ == field && m@ == message,
            None => found is None,
        },
{
    let null = Json::Null;
    let fields = match member_at(body, "errors", &null) {
        Json::Object(fields) => fields,
        _ => return None,
    };
    let mut index: usize = 0;

    proof {
        assert(fields@.skip(0) =~= fields@);
    }

    while index < fields.len()
        invariant
            index <= fields.len(),
            spec_first_field_error(*body) == first_field_in(fields@),
            first_field_in(fields@) == first_field_in(fields@.skip(index as int)),
        decreases fields.len() - index,
    {
        proof {
            assert(fields@.skip(index as int)[0] == fields@[index as int]);
            assert(fields@.skip(index as int).drop_first() =~= fields@.skip(index + 1));
        }
        match &fields[index].1 {
            Json::Array(messages) => if messages.len() > 0 {
                match messages[0].as_str() {
                    Some(message) => {
                        return Some((fields[index].0.clone(), String::from_str(message)));
                    },
                    None => {},
                }
            },
            _ => {},
        }
        index = index + 1;
    }

    proof {
        assert(fields@.skip(index as int) =~= Seq::<(String, Json)>::empty());
    }

    None
}

/// A validation error becomes the text the server wrote; on signing in or up, a 401 is a
/// wrong password, and its sentence goes to the e-mail field; the rest becomes a reason.
pub open spec fn refusal_is(refused: HttpError, status: u16, body: Json, path: Seq<char>) -> bool {
    if status == 422 && spec_first_field_error(body) is Some {
        let (wrong, sentence) = spec_first_field_error(body)->0;
        refused matches HttpError::Invalid { field, message } && field@ == wrong && message@ == sentence
    } else if status == 401 && (path == "/api/auth/login"@ || path == "/api/auth/register"@) && str_at(
        body,
        "message"@,
    ) is Some {
        refused matches HttpError::Invalid { field, message } && field@ == "email"@ && message@ == str_at(
            body,
            "message"@,
        )->0
    } else {
        refused == HttpError::Failed(spec_from_status(status))
    }
}

pub fn refusal(status: u16, body: &Json, path: &str) -> (refused: HttpError)
    ensures
        refusal_is(refused, status, *body, path@),
{
    if status == 422 {
        match first_field_error(body) {
            Some((field, message)) => {
                return HttpError::Invalid { field, message };
            },
            None => {},
        }
    }

    if status == 401 && (same_text(path, "/api/auth/login") || same_text(path, "/api/auth/register")) {
        match text_at(body, "message") {
            Some(message) => {
                return HttpError::Invalid { field: String::from_str("email"), message: String::from_str(message) };
            },
            None => {},
        }
    }

    HttpError::Failed(Failure::from_status(status))
}

/// The base address of the server, without the `/` at its end, so no call ends up with two.
pub fn api_base(base: &str) -> (trimmed: String)
    ensures
        trimmed@ == trim_slashes(base@),
{
    let chars = chars_of(base);
    let mut end = chars.len();

    proof {
        assert(chars@.take(end as int) =~= chars@);
    }

    while end > 0 && chars[end - 1] == '/'
        invariant
            end <= chars.len(),
            trim_slashes(chars@) == trim_slashes(chars@.take(end as int)),
        decreases end,
    {
        proof {
            assert(chars@.take(end as int).drop_last() =~= chars@.take(end - 1));
        }
        end = end - 1;
    }

    let piece = slice_of(chars.as_slice(), 0, end);

    proof {
        assert(piece@ =~= chars@.take(end as int));
    }

    string_of(piece.as_slice())
}

/// The address of a call: the base and the path.
pub fn url(base: &str, path: &str) -> (address: String)
    ensures
        address@ == trim_slashes(base@) + path@,
{
    let mut address = api_base(base);
    address.append(path);
    address
}

pub open spec fn option_text(text: Option<String>) -> Option<Seq<char>> {
    match text {
        Some(text) => Some(text@),
        None => None,
    }
}

pub open spec fn option_str(text: Option<&str>) -> Option<Seq<char>> {
    match text {
        Some(text) => Some(text@),
        None => None,
    }
}

/// The session of an account, as the contracts read it.
pub struct AccountView {
    pub token: Option<Seq<char>>,
    pub refresh: Option<Seq<char>>,
    /// The last tree seen of each server, by its id.
    pub trees: Seq<(i64, ServerTree)>,
}

/// The trees without the ones of server `id`.
pub open spec fn other_trees(trees: Seq<(i64, ServerTree)>, id: i64) -> Seq<(i64, ServerTree)>
    decreases trees.len(),
{
    if trees.len() == 0 {
        trees
    } else {
        let rest = other_trees(trees.drop_last(), id);
        if trees.last().0 == id { rest } else { rest.push(trees.last()) }
    }
}

/// The tree known of server `id`.
pub open spec fn known(trees: Seq<(i64, ServerTree)>, id: i64) -> Option<ServerTree>
    decreases trees.len(),
{
    if trees.len() == 0 {
        None
    } else if trees.last().0 == id {
        Some(trees.last().1)
    } else {
        known(trees.drop_last(), id)
    }
}

/// Another account, other permissions: the trees of whoever left are no use to whoever
/// comes in.
pub open spec fn with_token(account: AccountView, token: Option<Seq<char>>) -> AccountView {
    AccountView { token, refresh: account.refresh, trees: Seq::empty() }
}

pub open spec fn with_refresh(account: AccountView, refresh: Option<Seq<char>>) -> AccountView {
    AccountView { refresh, ..account }
}

pub open spec fn with_tree(account: AccountView, id: i64, tree: ServerTree) -> AccountView {
    AccountView { trees: other_trees(account.trees, id).push((id, tree)), ..account }
}

/// The session ends for good, but only if the token that failed is still the current one:
/// whoever already left or came back in is not brought down.
pub open spec fn ended(account: AccountView, stale: Seq<char>) -> AccountView {
    if account.token == Some(stale) { with_refresh(with_token(account, None), None) } else { account }
}

/// Signing out forgets both tokens at once; the screen does not wait for the network.
pub open spec fn signed_out(account: AccountView) -> AccountView {
    with_refresh(with_token(account, None), None)
}

/// What the session tells whoever keeps it on disk and shows the sign-in.
#[derive(Debug, Clone, Copy, PartialEq, Eq, Structural)]
pub enum SessionChange {
    /// The pair changed and must go to disk.
    Renewed,
    /// The session ended, and the interface goes back to the sign-in.
    Ended,
}

/// What to do about a call refused for an expired token, before asking the server.
#[derive(Debug, Clone, PartialEq, Eq)]
pub enum RenewalStep {
    /// Nothing to ask: whether to repeat the call. Another call already renewed when the
    /// failed token is no longer the current one; without a renewal token it cannot be done.
    Settled(bool),
    /// Ask the server for a new pair with this renewal token.
    Ask(String),
}

/// What the server answered to the renewal.
pub enum RenewalAnswer {
    /// It was not reached. No network is no ended session: the pair still holds for later.
    Unreachable,
    /// It refused, or answered something that is not a pair.
    Refused,
    Pair { token: String, refresh: Option<String> },
}

/// The session of an account with the server: the access token, the renewal token, and the
/// last tree seen of each server, which draws the channels at once while the fresh one
/// comes.
pub struct Account {
    token: Option<String>,
    refresh: Option<String>,
    trees: Vec<(i64, ServerTree)>,
}

impl View for Account {
    type V = AccountView;

    closed spec fn view(&self) -> AccountView {
        AccountView { token: option_text(self.token), refresh: option_text(self.refresh), trees: self.trees@ }
    }
}

fn copy_text(text: &Option<String>) -> (copy: Option<String>)
    ensures
        option_text(copy) == option_text(*text),
{
    match text {
        Some(text) => Some(text.clone()),
        None => None,
    }
}

impl Account {
    pub fn new() -> (account: Self)
        ensures
            account@.token is None,
            account@.refresh is None,
            account@.trees == Seq::<(i64, ServerTree)>::empty(),
    {
        Account { token: None, refresh: None, trees: Vec::new() }
    }

    pub fn signed_in(&self) -> (signed_in: bool)
        ensures
            signed_in == self@.token is Some,
    {
        self.token.is_some()
    }

    pub fn token(&self) -> (token: Option<String>)
        ensures
            option_text(token) == self@.token,
    {
        copy_text(&self.token)
    }

    pub fn refresh_token(&self) -> (refresh: Option<String>)
        ensures
            option_text(refresh) == self@.refresh,
    {
        copy_text(&self.refresh)
    }

    pub fn set_token(&mut self, token: Option<String>)
        ensures
            final(self)@ == with_token(old(self)@, option_text(token)),
    {
        self.token = token;
        self.trees = Vec::new();
    }

    pub fn set_refresh(&mut self, refresh: Option<String>)
        ensures
            final(self)@ == with_refresh(old(self)@, option_text(refresh)),
    {
        self.refresh = refresh;
    }

    /// Forgets both tokens; asking the server to drop them is the host's, in the background.
    pub fn sign_out(&mut self)
        ensures
            final(self)@ == signed_out(old(self)@),
    {
        self.set_token(None);
        self.set_refresh(None);
    }

    /// A new sign-in, by password or by Google: the pair goes in, and it is told (to go to
    /// disk) when there is a renewal token.
    pub fn adopt(&mut self, token: &str, refresh: Option<&str>) -> (told: Option<SessionChange>)
        ensures
            final(self)@ == with_refresh(with_token(old(self)@, Some(token@)), option_str(refresh)),
            told == (if refresh is Some { Some(SessionChange::Renewed) } else { None::<SessionChange> }),
    {
        self.set_token(Some(token.to_owned()));

        match refresh {
            Some(refresh) => {
                self.set_refresh(Some(refresh.to_owned()));
                Some(SessionChange::Renewed)
            },
            None => {
                self.set_refresh(None);
                None
            },
        }
    }

    /// The session ended for good after `stale` failed: told only when it was still the
    /// current token.
    pub fn end(&mut self, stale: &str) -> (told: Option<SessionChange>)
        ensures
            final(self)@ == ended(old(self)@, stale@),
            told == (if old(self)@.token == Some(stale@) { Some(SessionChange::Ended) } else { None::<SessionChange> }),
    {
        let current = match &self.token {
            Some(token) => same_text(token.as_str(), stale),
            None => false,
        };

        if !current {
            return None;
        }

        self.sign_out();
        Some(SessionChange::Ended)
    }

    /// What to do about a call refused with the token `stale`.
    pub fn renewal_step(&self, stale: &str) -> (step: RenewalStep)
        ensures
            self@.token != Some(stale@) ==> step == RenewalStep::Settled(self@.token is Some),
            self@.token == Some(stale@) ==> match self@.refresh {
                Some(refresh) => step matches RenewalStep::Ask(asked) && asked@ == refresh,
                None => step == RenewalStep::Settled(false),
            },
    {
        let current = match &self.token {
            Some(token) => same_text(token.as_str(), stale),
            None => false,
        };

        if !current {
            return RenewalStep::Settled(self.token.is_some());
        }

        match &self.refresh {
            Some(refresh) => RenewalStep::Ask(refresh.clone()),
            None => RenewalStep::Settled(false),
        }
    }

    /// What the server answered to the renewal asked after `stale` failed: whether the call
    /// is repeated, and what is told. A new pair replaces the old one; a refusal, or an answer
    /// without a renewal token, ends the session.
    pub fn renewed(&mut self, stale: &str, answer: RenewalAnswer) -> (outcome: (bool, Option<SessionChange>))
        ensures
            match answer {
                RenewalAnswer::Unreachable => outcome == (false, None::<SessionChange>) && final(self)@ == old(self)@,
                RenewalAnswer::Pair { token, refresh: Some(refresh) } => outcome == (true, Some(SessionChange::Renewed))
                    && final(self)@ == with_refresh(with_token(old(self)@, Some(token@)), Some(refresh@)),
                _ => !outcome.0 && final(self)@ == ended(old(self)@, stale@) && outcome.1 == (if old(self)@.token == Some(
                    stale@,
                ) {
                    Some(SessionChange::Ended)
                } else {
                    None::<SessionChange>
                }),
            },
    {
        match answer {
            RenewalAnswer::Unreachable => (false, None),
            RenewalAnswer::Pair { token, refresh: Some(refresh) } => {
                self.set_token(Some(token));
                self.set_refresh(Some(refresh));
                (true, Some(SessionChange::Renewed))
            },
            _ => (false, self.end(stale)),
        }
    }

    /// Keeps the tree just fetched of server `id`, in place of the one before.
    pub fn remember_tree(&mut self, id: i64, tree: ServerTree)
        ensures
            final(self)@ == with_tree(old(self)@, id, tree),
    {
        let mut kept: Vec<(i64, ServerTree)> = Vec::new();
        let ghost before = self.trees@;

        while self.trees.len() > 0
            invariant
                self.token == old(self).token,
                self.refresh == old(self).refresh,
                other_trees(self.trees@, id) + kept@ == other_trees(before, id),
            decreases self.trees.len(),
        {
            let ghost rest = self.trees@;
            let last = self.trees.pop().unwrap();

            proof {
                assert(rest.drop_last() =~= self.trees@);
            }

            if last.0 != id {
                let ghost old_kept = kept@;
                kept.insert(0, last);
                proof {
                    assert(other_trees(self.trees@, id) + kept@ =~= other_trees(rest, id) + old_kept);
                }
            }
        }

        proof {
            assert(Seq::<(i64, ServerTree)>::empty() + kept@ =~= kept@);
        }

        kept.push((id, tree));
        self.trees = kept;

        proof {
            assert(self.trees@ =~= other_trees(before, id).push((id, tree)));
        }
    }

    /// The tree already known of server `id`, without going to the network. It may be old:
    /// whoever draws it asks for the fresh one next.
    pub fn known_tree(&self, id: i64) -> (tree: Option<&ServerTree>)
        ensures
            match known(self@.trees, id) {
                Some(found) => tree matches Some(t) && *t == found,
                None => tree is None,
            },
    {
        let mut index = self.trees.len();

        proof {
            assert(self.trees@.take(index as int) =~= self.trees@);
        }

        while index > 0
            invariant
                index <= self.trees.len(),
                known(self.trees@, id) == known(self.trees@.take(index as int), id),
            decreases index,
        {
            proof {
                assert(self.trees@.take(index as int).drop_last() =~= self.trees@.take(index - 1));
                assert(self.trees@.take(index as int).last() == self.trees@[index - 1]);
            }
            if self.trees[index - 1].0 == id {
                return Some(&self.trees[index - 1].1);
            }
            index = index - 1;
        }

        None
    }
}

/// A call refused for an expired token is repeated after a renewal only when it went with a
/// token and is not itself a sign-in: there a 401 is a wrong password.
pub open spec fn spec_renews(refused: HttpError, sent_token: bool, path: Seq<char>) -> bool {
    refused == HttpError::Failed(Failure::SignedOut) && sent_token && !has_prefix(path, "/api/auth/"@)
}

pub fn renews(refused: &HttpError, sent_token: bool, path: &str) -> (renew: bool)
    ensures
        renew == spec_renews(*refused, sent_token, path@),
{
    let signed_out = match refused {
        HttpError::Failed(Failure::SignedOut) => true,
        _ => false,
    };
    let prefix = chars_of("/api/auth/");
    let auth = starts_with(chars_of(path).as_slice(), prefix.as_slice());

    signed_out && sent_token && !auth
}

/// What a successful answer carries: the `data` of an object that holds only that, or the
/// whole answer otherwise.
pub open spec fn spec_unwrap_data(body: Json) -> Json {
    match body {
        Json::Object(members) => if members@.len() == 1 && members@[0].0@ == "data"@ { members@[0].1 } else { body },
        _ => body,
    }
}

pub fn unwrap_data(body: Json) -> (data: Json)
    ensures
        data == spec_unwrap_data(body),
{
    match body {
        Json::Object(mut members) => {
            if members.len() == 1 && same_text(members[0].0.as_str(), "data") {
                let (_, data) = members.pop().unwrap();
                data
            } else {
                Json::Object(members)
            }
        },
        other => other,
    }
}

/// A session that signs out keeps nothing: no token, no renewal token, and no tree of any
/// server.
pub proof fn law_signing_out_keeps_nothing(account: AccountView, id: i64)
    ensures
        signed_out(account).token is None,
        signed_out(account).refresh is None,
        known(signed_out(account).trees, id) is None,
{
}

proof fn lemma_known_without(trees: Seq<(i64, ServerTree)>, id: i64, other: i64)
    ensures
        known(other_trees(trees, id), other) == (if other == id { None } else { known(trees, other) }),
    decreases trees.len(),
{
    if trees.len() > 0 {
        let rest = other_trees(trees.drop_last(), id);
        lemma_known_without(trees.drop_last(), id, other);
        assert(rest.push(trees.last()).drop_last() =~= rest);
    }
}

/// A tree seen is there for the next click, the others stay as they were, and all of them
/// are forgotten when the account changes.
pub proof fn law_a_seen_tree_is_kept_until_the_account_changes(
    account: AccountView,
    id: i64,
    tree: ServerTree,
    other: i64,
    token: Option<Seq<char>>,
)
    ensures
        known(with_tree(account, id, tree).trees, id) == Some(tree),
        other != id ==> known(with_tree(account, id, tree).trees, other) == known(account.trees, other),
        known(with_token(with_tree(account, id, tree), token).trees, id) is None,
{
    let kept = other_trees(account.trees, id);
    lemma_known_without(account.trees, id, other);
    assert(kept.push((id, tree)).drop_last() =~= kept);
}

/// Only the token that failed ends the session: after another call renewed, or after
/// someone else signed in, the failure of an old token changes nothing.
pub proof fn law_an_old_token_never_ends_the_session(account: AccountView, stale: Seq<char>)
    requires
        account.token != Some(stale),
    ensures
        ended(account, stale) == account,
{
}

/// The ids of the servers of a list, in order, leaving out what has none.
pub open spec fn ids_of(servers: Seq<Json>) -> Seq<i64>
    decreases servers.len(),
{
    if servers.len() == 0 {
        Seq::empty()
    } else {
        let rest = ids_of(servers.drop_last());
        match i64_at(servers.last(), "id"@) {
            Some(id) => rest.push(id),
            None => rest,
        }
    }
}

pub open spec fn spec_server_ids(servers: Json) -> Seq<i64> {
    match servers {
        Json::Array(items) => ids_of(items@),
        _ => Seq::empty(),
    }
}

/// The servers whose trees are fetched right after the list, so that the first click on
/// any of them already finds the channels.
pub fn server_ids(servers: &Json) -> (ids: Vec<i64>)
    ensures
        ids@ == spec_server_ids(*servers),
{
    let mut ids: Vec<i64> = Vec::new();

    match servers {
        Json::Array(items) => {
            let mut index: usize = 0;

            while index < items.len()
                invariant
                    index <= items.len(),
                    ids@ == ids_of(items@.take(index as int)),
                decreases items.len() - index,
            {
                proof {
                    assert(items@.take(index + 1).drop_last() =~= items@.take(index as int));
                    assert(items@.take(index + 1).last() == items@[index as int]);
                }
                if let Some(id) = integer_at(&items[index], "id") {
                    ids.push(id);
                }
                index = index + 1;
            }

            proof {
                assert(items@.take(index as int) =~= items@);
            }
        },
        _ => {},
    }

    ids
}

} // verus!
