//! What travels on the media server's socket. Two things come down it, told apart by the
//! `id`: the reply to a request this app made, or an event the server sent on its own. The
//! `id` belongs to whoever asks, and comes back the same in the reply.

pub mod action;
pub mod local;

use vstd::prelude::*;

use crate::json::Json;

verus! {

/// What the server sends. With an `id` it is a reply; without one, an event of the room.
pub struct Incoming {
    pub id: Option<u64>,
    pub ok: Option<bool>,
    pub status: Option<u16>,
    pub error: Option<String>,
    pub data: Option<Json>,
    pub event: Option<String>,
    pub channel: Option<String>,
}

/// An event of the server, already told apart from the replies.
pub struct Event {
    pub name: String,
    /// Only the chat's events have a channel; the room's do not.
    pub channel: Option<String>,
    pub data: Json,
}

/// The error the server answers with, with the status it chose itself.
#[derive(Debug, Clone, PartialEq, Eq)]
pub struct ServerError {
    pub action: String,
    pub status: u16,
    pub message: String,
}

impl Event {
    /// An event of this machine, about its own socket, with nothing in it.
    pub fn local(name: &str) -> (event: Self)
        ensures
            event.name@ == name@,
            event.channel is None,
            event.data == Json::Null,
    {
        Event { name: String::from_str(name), channel: None, data: Json::Null }
    }
}

impl Incoming {
    pub fn is_reply(&self) -> (reply: bool)
        ensures
            reply == self.id is Some,
    {
        self.id.is_some()
    }

    /// What a call gets from its reply: the data (`null` when there is none) when the
    /// server says `ok`; otherwise the refusal, with the server's status (500 when it gives
    /// none) and its message (a stock one when it gives none).
    pub fn into_outcome(self, action: &str) -> (outcome: Result<Json, ServerError>)
        ensures
            self.ok == Some(true) ==> outcome == Ok::<Json, ServerError>(
                match self.data {
                    Some(data) => data,
                    None => Json::Null,
                },
            ),
            self.ok != Some(true) ==> (outcome matches Err(refusal) && refusal.action@ == action@ && refusal.status == (
            match self.status {
                Some(status) => status,
                None => 500,
            }) && refusal.message@ == (
            match self.error {
                Some(message) => message@,
                None => "erro sem mensagem"@,
            })),
    {
        if self.ok == Some(true) {
            return Ok(
                match self.data {
                    Some(data) => data,
                    None => Json::Null,
                },
            );
        }

        Err(ServerError {
            action: action.to_owned(),
            status: match self.status {
                Some(status) => status,
                None => 500,
            },
            message: match self.error {
                Some(message) => message,
                None => String::from_str("erro sem mensagem"),
            },
        })
    }

    /// The event this is, when it names one; its data is `null` when it brings none.
    pub fn into_event(self) -> (event: Option<Event>)
        ensures
            match self.event {
                Some(name) => event matches Some(e) && e.name == name && e.channel == self.channel && e.data == (
                match self.data {
                    Some(data) => data,
                    None => Json::Null,
                }),
                None => event is None,
            },
    {
        match self.event {
            Some(name) => Some(Event {
                name,
                channel: self.channel,
                data: match self.data {
                    Some(data) => data,
                    None => Json::Null,
                },
            }),
            None => None,
        }
    }
}

} // verus!
