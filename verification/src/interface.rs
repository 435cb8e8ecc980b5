//! What the interfaces ask of the core through `unkvoid_app`: an action's name and its data,
//! read into a request with every default the core applies. Carrying the request out
//! (the room, the account, the disk) is the host's.

use vstd::prelude::*;

use crate::json::{at, member, spec_as_bool, spec_as_i64, spec_as_u64, str_at, Json};
use crate::models::same_text;

verus! {

/// One request of the interface, with what it carries. A `None` member stands for a
/// member the data does not have, which the core reads as `null`.
pub enum AppRequest<'a> {
    State,
    CreateRoom { name: String, code: String },
    JoinRoom { name: String, code: String },
    /// A voice channel is the same room, with the channel in place of the name.
    JoinVoice { channel: String },
    LeaveRoom,
    Room,
    /// What to share is read from the whole data.
    Share { data: &'a Json },
    StopSharing,
    OpenMicrophone,
    CloseMicrophone,
    MuteMicrophone { muted: bool },
    /// macOS only: elsewhere the capture opens the camera.
    OpenCamera { width: u32, height: u32, frame_rate: u32 },
    CloseCamera,
    InputMode { mode: String, sensitivity: u64 },
    Talk { talking: bool },
    Deafen { deafened: bool },
    CloseWatched { producer_id: String },
    /// Without a producer, watch everything the person had closed.
    Watch { producer_id: Option<String> },
    PauseWatched { producer_id: String, paused: bool },
    SelfView { wanted: bool },
    /// The screen changes only when the data names one: without `source`, only the quality.
    ChangeQuality { data: &'a Json, new_source: bool },
    MuteWatched { producer_id: String, muted: bool },
    Identify,
    RecentRooms,
    Displays,
    Preview { data: &'a Json },
    UseServer { url: String },
    Update,
    Config,
    Me,
    Login { email: String, password: String, device: String },
    Register { email: String, password: String, device: String },
    GoogleStart,
    GoogleWait,
    SignOut,
    Servers,
    /// With `known`, a tree already seen comes back at once.
    Server { id: i64, known: bool },
    Messages { channel: String },
    SendMessage { channel: String, body: String },
    Logs { lines: u64 },
    Preference { key: String },
    SetPreference { key: String, value: Option<&'a Json> },
    /// macOS only: the keys of a shortcut, in this system's codes.
    Keys { accelerator: String },
    /// macOS only: the name of a key the person pressed.
    KeyName { code: u16 },
    Api { name: String, params: Option<&'a Json>, body: Option<&'a Json> },
    Upload { name: String, params: Option<&'a Json>, field: String, files: Vec<String>, fields: Option<&'a Json> },
    EditMessage { id: i64, body: String },
    DeleteMessage { id: i64 },
    /// An action the core does not know; the interface is answered so.
    Unknown,
}

/// A request as the contracts read it: texts as characters, members as values.
pub enum RequestView {
    State,
    CreateRoom { name: Seq<char>, code: Seq<char> },
    JoinRoom { name: Seq<char>, code: Seq<char> },
    JoinVoice { channel: Seq<char> },
    LeaveRoom,
    Room,
    Share { data: Json },
    StopSharing,
    OpenMicrophone,
    CloseMicrophone,
    MuteMicrophone { muted: bool },
    OpenCamera { width: u32, height: u32, frame_rate: u32 },
    CloseCamera,
    InputMode { mode: Seq<char>, sensitivity: u64 },
    Talk { talking: bool },
    Deafen { deafened: bool },
    CloseWatched { producer_id: Seq<char> },
    Watch { producer_id: Option<Seq<char>> },
    PauseWatched { producer_id: Seq<char>, paused: bool },
    SelfView { wanted: bool },
    ChangeQuality { data: Json, new_source: bool },
    MuteWatched { producer_id: Seq<char>, muted: bool },
    Identify,
    RecentRooms,
    Displays,
    Preview { data: Json },
    UseServer { url: Seq<char> },
    Update,
    Config,
    Me,
    Login { email: Seq<char>, password: Seq<char>, device: Seq<char> },
    Register { email: Seq<char>, password: Seq<char>, device: Seq<char> },
    GoogleStart,
    GoogleWait,
    SignOut,
    Servers,
    Server { id: i64, known: bool },
    Messages { channel: Seq<char> },
    SendMessage { channel: Seq<char>, body: Seq<char> },
    Logs { lines: u64 },
    Preference { key: Seq<char> },
    SetPreference { key: Seq<char>, value: Option<Json> },
    Keys { accelerator: Seq<char> },
    KeyName { code: u16 },
    Api { name: Seq<char>, params: Option<Json>, body: Option<Json> },
    Upload { name: Seq<char>, params: Option<Json>, field: Seq<char>, files: Seq<Seq<char>>, fields: Option<Json> },
    EditMessage { id: i64, body: Seq<char> },
    DeleteMessage { id: i64 },
    Unknown,
}

impl<'a> View for AppRequest<'a> {
    type V = RequestView;

    open spec fn view(&self) -> RequestView {
        match *self {
            AppRequest::State => RequestView::State,
            AppRequest::CreateRoom { name, code } => RequestView::CreateRoom { name: name@, code: code@ },
            AppRequest::JoinRoom { name, code } => RequestView::JoinRoom { name: name@, code: code@ },
            AppRequest::JoinVoice { channel } => RequestView::JoinVoice { channel: channel@ },
            AppRequest::LeaveRoom => RequestView::LeaveRoom,
            AppRequest::Room => RequestView::Room,
            AppRequest::Share { data } => RequestView::Share { data: *data },
            AppRequest::StopSharing => RequestView::StopSharing,
            AppRequest::OpenMicrophone => RequestView::OpenMicrophone,
            AppRequest::CloseMicrophone => RequestView::CloseMicrophone,
            AppRequest::MuteMicrophone { muted } => RequestView::MuteMicrophone { muted: muted },
            AppRequest::OpenCamera { width, height, frame_rate } => RequestView::OpenCamera { width: width, height: height, frame_rate: frame_rate },
            AppRequest::CloseCamera => RequestView::CloseCamera,
            AppRequest::InputMode { mode, sensitivity } => RequestView::InputMode { mode: mode@, sensitivity: sensitivity },
            AppRequest::Talk { talking } => RequestView::Talk { talking: talking },
            AppRequest::Deafen { deafened } => RequestView::Deafen { deafened: deafened },
            AppRequest::CloseWatched { producer_id } => RequestView::CloseWatched { producer_id: producer_id@ },
            AppRequest::Watch { producer_id } => RequestView::Watch { producer_id: option_view(producer_id) },
            AppRequest::PauseWatched { producer_id, paused } => RequestView::PauseWatched { producer_id: producer_id@, paused: paused },
            AppRequest::SelfView { wanted } => RequestView::SelfView { wanted: wanted },
            AppRequest::ChangeQuality { data, new_source } => RequestView::ChangeQuality { data: *data, new_source: new_source },
            AppRequest::MuteWatched { producer_id, muted } => RequestView::MuteWatched { producer_id: producer_id@, muted: muted },
            AppRequest::Identify => RequestView::Identify,
            AppRequest::RecentRooms => RequestView::RecentRooms,
            AppRequest::Displays => RequestView::Displays,
            AppRequest::Preview { data } => RequestView::Preview { data: *data },
            AppRequest::UseServer { url } => RequestView::UseServer { url: url@ },
            AppRequest::Update => RequestView::Update,
            AppRequest::Config => RequestView::Config,
            AppRequest::Me => RequestView::Me,
            AppRequest::Login { email, password, device } => RequestView::Login { email: email@, password: password@, device: device@ },
            AppRequest::Register { email, password, device } => RequestView::Register { email: email@, password: password@, device: device@ },
            AppRequest::GoogleStart => RequestView::GoogleStart,
            AppRequest::GoogleWait => RequestView::GoogleWait,
            AppRequest::SignOut => RequestView::SignOut,
            AppRequest::Servers => RequestView::Servers,
            AppRequest::Server { id, known } => RequestView::Server { id: id, known: known },
            AppRequest::Messages { channel } => RequestView::Messages { channel: channel@ },
            AppRequest::SendMessage { channel, body } => RequestView::SendMessage { channel: channel@, body: body@ },
            AppRequest::Logs { lines } => RequestView::Logs { lines: lines },
            AppRequest::Preference { key } => RequestView::Preference { key: key@ },
            AppRequest::SetPreference { key, value } => RequestView::SetPreference { key: key@, value: member_view(value) },
            AppRequest::Keys { accelerator } => RequestView::Keys { accelerator: accelerator@ },
            AppRequest::KeyName { code } => RequestView::KeyName { code: code },
            AppRequest::Api { name, params, body } => RequestView::Api { name: name@, params: member_view(params), body: member_view(body) },
            AppRequest::Upload { name, params, field, files, fields } => RequestView::Upload { name: name@, params: member_view(params), field: field@, files: string_views(files@), fields: member_view(fields) },
            AppRequest::EditMessage { id, body } => RequestView::EditMessage { id: id, body: body@ },
            AppRequest::DeleteMessage { id } => RequestView::DeleteMessage { id: id },
            AppRequest::Unknown => RequestView::Unknown,
        }
    }
}

/// A member's text, empty when it is missing or not a text.
pub open spec fn field_text(data: Json, key: Seq<char>) -> Seq<char> {
    match str_at(data, key) {
        Some(text) => text,
        None => Seq::empty(),
    }
}

pub open spec fn flag_or(data: Json, key: Seq<char>, default: bool) -> bool {
    match spec_as_bool(at(data, key)) {
        Some(flag) => flag,
        None => default,
    }
}

pub open spec fn number_or(data: Json, key: Seq<char>, default: u64) -> u64 {
    match spec_as_u64(at(data, key)) {
        Some(number) => number,
        None => default,
    }
}

pub open spec fn integer_or_zero(data: Json, key: Seq<char>) -> i64 {
    match spec_as_i64(at(data, key)) {
        Some(number) => number,
        None => 0,
    }
}

/// The texts of a list, in order, leaving out what is not a text.
pub open spec fn texts_of(items: Seq<Json>) -> Seq<Seq<char>>
    decreases items.len(),
{
    if items.len() == 0 {
        Seq::empty()
    } else {
        let rest = texts_of(items.drop_last());
        match items.last() {
            Json::Text(text) => rest.push(text@),
            _ => rest,
        }
    }
}

/// The texts of member `key`, when it is a list; none otherwise.
pub open spec fn texts_at(data: Json, key: Seq<char>) -> Seq<Seq<char>> {
    match at(data, key) {
        Json::Array(items) => texts_of(items@),
        _ => Seq::empty(),
    }
}

pub open spec fn string_views(texts: Seq<String>) -> Seq<Seq<char>> {
    texts.map_values(|text: String| text@)
}

pub open spec fn option_view(text: Option<String>) -> Option<Seq<char>> {
    match text {
        Some(text) => Some(text@),
        None => None,
    }
}

pub open spec fn member_view(found: Option<&Json>) -> Option<Json> {
    match found {
        Some(value) => Some(*value),
        None => None,
    }
}

fn field(data: &Json, key: &str) -> (text: String)
    ensures
        text@ == field_text(*data, key@),
{
    match data.get(key) {
        Some(value) => match value.as_str() {
            Some(text) => text.to_owned(),
            None => String::new(),
        },
        None => String::new(),
    }
}

fn text(data: &Json, key: &str) -> (found: Option<String>)
    ensures
        option_view(found) == str_at(*data, key@),
{
    match data.get(key) {
        Some(value) => match value.as_str() {
            Some(text) => Some(text.to_owned()),
            None => None,
        },
        None => None,
    }
}

fn flag(data: &Json, key: &str, default: bool) -> (value: bool)
    ensures
        value == flag_or(*data, key@, default),
{
    match data.get(key) {
        Some(found) => match found.as_bool() {
            Some(value) => value,
            None => default,
        },
        None => default,
    }
}

fn number(data: &Json, key: &str, default: u64) -> (value: u64)
    ensures
        value == number_or(*data, key@, default),
{
    match data.get(key) {
        Some(found) => match found.as_u64() {
            Some(value) => value,
            None => default,
        },
        None => default,
    }
}

fn integer(data: &Json, key: &str) -> (value: i64)
    ensures
        value == integer_or_zero(*data, key@),
{
    match data.get(key) {
        Some(found) => match found.as_i64() {
            Some(value) => value,
            None => 0,
        },
        None => 0,
    }
}

fn texts(data: &Json, key: &str) -> (found: Vec<String>)
    ensures
        string_views(found@) == texts_at(*data, key@),
{
    let mut found: Vec<String> = Vec::new();

    match data.get(key) {
        Some(Json::Array(items)) => {
            let mut index: usize = 0;

            while index < items.len()
                invariant
                    index <= items.len(),
                    string_views(found@) == texts_of(items@.take(index as int)),
                decreases items.len() - index,
            {
                proof {
                    assert(items@.take(index + 1).drop_last() =~= items@.take(index as int));
                    assert(items@.take(index + 1).last() == items@[index as int]);
                }
                match &items[index] {
                    Json::Text(text) => {
                        let ghost before = found@;
                        found.push(text.clone());
                        proof {
                            assert(string_views(found@) =~= string_views(before).push(text@));
                        }
                    },
                    _ => {},
                }
                index = index + 1;
            }

            proof {
                assert(items@.take(index as int) =~= items@);
            }
        },
        _ => {
            proof {
                assert(string_views(found@) =~= Seq::<Seq<char>>::empty());
            }
        },
    }

    found
}

/// The answer to an action the core does not know.
pub fn unknown_action(action: &str) -> (message: String)
    ensures
        message@ == "ação desconhecida: "@ + action@,
{
    let mut message = String::from_str("ação desconhecida: ");
    message.append(action);
    message
}

fn is_action(action: &str, name: &str) -> (same: bool)
    ensures
        same == (action@ == name@),
{
    same_text(action, name)
}

/// The request an action makes of its data: each action's members, with the core's
/// defaults when a member is missing or of another type. The camera and the shortcut keys
/// are asked through here on macOS only.
pub open spec fn spec_app_request(action: Seq<char>, data: Json, macos: bool) -> RequestView {
    if action == "state"@ {
        RequestView::State
    } else if action == "createRoom"@ {
        RequestView::CreateRoom { name: field_text(data, "name"@), code: field_text(data, "code"@) }
    } else if action == "joinRoom"@ {
        RequestView::JoinRoom { name: field_text(data, "name"@), code: field_text(data, "code"@) }
    } else if action == "joinVoice"@ {
        RequestView::JoinVoice { channel: field_text(data, "channel"@) }
    } else if action == "leaveRoom"@ {
        RequestView::LeaveRoom
    } else if action == "room"@ {
        RequestView::Room
    } else if action == "share"@ {
        RequestView::Share { data: data }
    } else if action == "stopSharing"@ {
        RequestView::StopSharing
    } else if action == "openMicrophone"@ {
        RequestView::OpenMicrophone
    } else if action == "closeMicrophone"@ {
        RequestView::CloseMicrophone
    } else if action == "muteMicrophone"@ {
        RequestView::MuteMicrophone { muted: flag_or(data, "muted"@, true) }
    } else if macos && action == "openCamera"@ {
        RequestView::OpenCamera { width: number_or(data, "width"@, 1280) as u32, height: number_or(data, "height"@, 720) as u32, frame_rate: number_or(data, "fps"@, 30) as u32 }
    } else if macos && action == "closeCamera"@ {
        RequestView::CloseCamera
    } else if action == "inputMode"@ {
        RequestView::InputMode { mode: field_text(data, "mode"@), sensitivity: number_or(data, "sensitivity"@, 35) }
    } else if action == "talk"@ {
        RequestView::Talk { talking: flag_or(data, "talking"@, false) }
    } else if action == "deafen"@ {
        RequestView::Deafen { deafened: flag_or(data, "deafened"@, true) }
    } else if action == "closeWatched"@ {
        RequestView::CloseWatched { producer_id: field_text(data, "producerId"@) }
    } else if action == "watch"@ {
        RequestView::Watch { producer_id: str_at(data, "producerId"@) }
    } else if action == "pauseWatched"@ {
        RequestView::PauseWatched { producer_id: field_text(data, "producerId"@), paused: flag_or(data, "paused"@, true) }
    } else if action == "selfView"@ {
        RequestView::SelfView { wanted: flag_or(data, "wanted"@, true) }
    } else if action == "changeQuality"@ {
        RequestView::ChangeQuality { data: data, new_source: member(data, "source"@) is Some }
    } else if action == "muteWatched"@ {
        RequestView::MuteWatched { producer_id: field_text(data, "producerId"@), muted: flag_or(data, "muted"@, true) }
    } else if action == "identify"@ {
        RequestView::Identify
    } else if action == "recentRooms"@ {
        RequestView::RecentRooms
    } else if action == "displays"@ {
        RequestView::Displays
    } else if action == "preview"@ {
        RequestView::Preview { data: data }
    } else if action == "useServer"@ {
        RequestView::UseServer { url: field_text(data, "url"@) }
    } else if action == "update"@ {
        RequestView::Update
    } else if action == "config"@ {
        RequestView::Config
    } else if action == "me"@ {
        RequestView::Me
    } else if action == "login"@ {
        RequestView::Login { email: field_text(data, "email"@), password: field_text(data, "password"@), device: field_text(data, "device"@) }
    } else if action == "register"@ {
        RequestView::Register { email: field_text(data, "email"@), password: field_text(data, "password"@), device: field_text(data, "device"@) }
    } else if action == "googleStart"@ {
        RequestView::GoogleStart
    } else if action == "googleWait"@ {
        RequestView::GoogleWait
    } else if action == "signOut"@ {
        RequestView::SignOut
    } else if action == "servers"@ {
        RequestView::Servers
    } else if action == "server"@ {
        RequestView::Server { id: integer_or_zero(data, "id"@), known: flag_or(data, "known"@, false) }
    } else if action == "messages"@ {
        RequestView::Messages { channel: field_text(data, "channel"@) }
    } else if action == "sendMessage"@ {
        RequestView::SendMessage { channel: field_text(data, "channel"@), body: field_text(data, "body"@) }
    } else if action == "logs"@ {
        RequestView::Logs { lines: number_or(data, "lines"@, 400) }
    } else if action == "preference"@ {
        RequestView::Preference { key: field_text(data, "key"@) }
    } else if action == "setPreference"@ {
        RequestView::SetPreference { key: field_text(data, "key"@), value: member(data, "value"@) }
    } else if macos && action == "keys"@ {
        RequestView::Keys { accelerator: field_text(data, "accelerator"@) }
    } else if macos && action == "keyName"@ {
        RequestView::KeyName { code: number_or(data, "code"@, u64::MAX) as u16 }
    } else if action == "api"@ {
        RequestView::Api { name: field_text(data, "name"@), params: member(data, "params"@), body: member(data, "body"@) }
    } else if action == "upload"@ {
        RequestView::Upload { name: field_text(data, "name"@), params: member(data, "params"@), field: field_text(data, "field"@), files: texts_at(data, "files"@), fields: member(data, "fields"@) }
    } else if action == "editMessage"@ {
        RequestView::EditMessage { id: integer_or_zero(data, "id"@), body: field_text(data, "body"@) }
    } else if action == "deleteMessage"@ {
        RequestView::DeleteMessage { id: integer_or_zero(data, "id"@) }
    } else {
        RequestView::Unknown
    }
}

/// The request an action and its data make. `macos` is whether the core runs on macOS.
pub fn app_request<'a>(action: &str, data: &'a Json, macos: bool) -> (request: AppRequest<'a>)
    ensures
        request@ == spec_app_request(action@, *data, macos),
{
    if is_action(action, "state") {
        AppRequest::State
    } else if is_action(action, "createRoom") {
        AppRequest::CreateRoom { name: field(data, "name"), code: field(data, "code") }
    } else if is_action(action, "joinRoom") {
        AppRequest::JoinRoom { name: field(data, "name"), code: field(data, "code") }
    } else if is_action(action, "joinVoice") {
        AppRequest::JoinVoice { channel: field(data, "channel") }
    } else if is_action(action, "leaveRoom") {
        AppRequest::LeaveRoom
    } else if is_action(action, "room") {
        AppRequest::Room
    } else if is_action(action, "share") {
        AppRequest::Share { data }
    } else if is_action(action, "stopSharing") {
        AppRequest::StopSharing
    } else if is_action(action, "openMicrophone") {
        AppRequest::OpenMicrophone
    } else if is_action(action, "closeMicrophone") {
        AppRequest::CloseMicrophone
    } else if is_action(action, "muteMicrophone") {
        AppRequest::MuteMicrophone { muted: flag(data, "muted", true) }
    } else if macos && is_action(action, "openCamera") {
        AppRequest::OpenCamera { width: number(data, "width", 1280) as u32, height: number(data, "height", 720) as u32, frame_rate: number(data, "fps", 30) as u32 }
    } else if macos && is_action(action, "closeCamera") {
        AppRequest::CloseCamera
    } else if is_action(action, "inputMode") {
        AppRequest::InputMode { mode: field(data, "mode"), sensitivity: number(data, "sensitivity", 35) }
    } else if is_action(action, "talk") {
        AppRequest::Talk { talking: flag(data, "talking", false) }
    } else if is_action(action, "deafen") {
        AppRequest::Deafen { deafened: flag(data, "deafened", true) }
    } else if is_action(action, "closeWatched") {
        AppRequest::CloseWatched { producer_id: field(data, "producerId") }
    } else if is_action(action, "watch") {
        AppRequest::Watch { producer_id: text(data, "producerId") }
    } else if is_action(action, "pauseWatched") {
        AppRequest::PauseWatched { producer_id: field(data, "producerId"), paused: flag(data, "paused", true) }
    } else if is_action(action, "selfView") {
        AppRequest::SelfView { wanted: flag(data, "wanted", true) }
    } else if is_action(action, "changeQuality") {
        AppRequest::ChangeQuality { data, new_source: data.get("source").is_some() }
    } else if is_action(action, "muteWatched") {
        AppRequest::MuteWatched { producer_id: field(data, "producerId"), muted: flag(data, "muted", true) }
    } else if is_action(action, "identify") {
        AppRequest::Identify
    } else if is_action(action, "recentRooms") {
        AppRequest::RecentRooms
    } else if is_action(action, "displays") {
        AppRequest::Displays
    } else if is_action(action, "preview") {
        AppRequest::Preview { data }
    } else if is_action(action, "useServer") {
        AppRequest::UseServer { url: field(data, "url") }
    } else if is_action(action, "update") {
        AppRequest::Update
    } else if is_action(action, "config") {
        AppRequest::Config
    } else if is_action(action, "me") {
        AppRequest::Me
    } else if is_action(action, "login") {
        AppRequest::Login { email: field(data, "email"), password: field(data, "password"), device: field(data, "device") }
    } else if is_action(action, "register") {
        AppRequest::Register { email: field(data, "email"), password: field(data, "password"), device: field(data, "device") }
    } else if is_action(action, "googleStart") {
        AppRequest::GoogleStart
    } else if is_action(action, "googleWait") {
        AppRequest::GoogleWait
    } else if is_action(action, "signOut") {
        AppRequest::SignOut
    } else if is_action(action, "servers") {
        AppRequest::Servers
    } else if is_action(action, "server") {
        AppRequest::Server { id: integer(data, "id"), known: flag(data, "known", false) }
    } else if is_action(action, "messages") {
        AppRequest::Messages { channel: field(data, "channel") }
    } else if is_action(action, "sendMessage") {
        AppRequest::SendMessage { channel: field(data, "channel"), body: field(data, "body") }
    } else if is_action(action, "logs") {
        AppRequest::Logs { lines: number(data, "lines", 400) }
    } else if is_action(action, "preference") {
        AppRequest::Preference { key: field(data, "key") }
    } else if is_action(action, "setPreference") {
        AppRequest::SetPreference { key: field(data, "key"), value: data.get("value") }
    } else if macos && is_action(action, "keys") {
        AppRequest::Keys { accelerator: field(data, "accelerator") }
    } else if macos && is_action(action, "keyName") {
        AppRequest::KeyName { code: number(data, "code", u64::MAX) as u16 }
    } else if is_action(action, "api") {
        AppRequest::Api { name: field(data, "name"), params: data.get("params"), body: data.get("body") }
    } else if is_action(action, "upload") {
        AppRequest::Upload { name: field(data, "name"), params: data.get("params"), field: field(data, "field"), files: texts(data, "files"), fields: data.get("fields") }
    } else if is_action(action, "editMessage") {
        AppRequest::EditMessage { id: integer(data, "id"), body: field(data, "body") }
    } else if is_action(action, "deleteMessage") {
        AppRequest::DeleteMessage { id: integer(data, "id") }
    } else {
        AppRequest::Unknown
    }
}

} // verus!
