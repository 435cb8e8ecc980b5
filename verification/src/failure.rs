//! What the person may see when something fails.
//!
//! No path, address, status code or server message ever leaves here: the interface gets
//! one of these reasons and writes the sentence; the technical detail goes to the log.

use vstd::prelude::*;

use crate::protocol::ServerError;

verus! {

/// The reasons the interface knows how to explain. Few on purpose: each becomes a sentence
/// the person understands and can act on.
#[derive(Debug, Clone, Copy, PartialEq, Eq, Structural)]
pub enum Failure {
    /// The server could not be reached: no internet, server down, or dropped midway.
    Unreachable,
    /// The session is no longer valid. Signing in again solves it.
    SignedOut,
    /// The person may not do this: hidden channel, no role, banned.
    NotAllowed,
    /// What was asked for no longer exists: room closed, channel deleted, message removed.
    Gone,
    /// What was typed does not serve.
    Invalid,
    /// The server broke. There is nothing to do but try again.
    ServerBroke,
    /// Past the limit of attempts; waiting a little solves it.
    TooFast,
}

/// The reason a refusal status stands for.
pub open spec fn spec_from_status(status: u16) -> Failure {
    if status == 401 {
        Failure::SignedOut
    } else if status == 403 {
        Failure::NotAllowed
    } else if status == 404 || status == 410 {
        Failure::Gone
    } else if status == 400 || status == 422 {
        Failure::Invalid
    } else if status == 429 {
        Failure::TooFast
    } else if 502 <= status && status <= 504 {
        Failure::Unreachable
    } else {
        Failure::ServerBroke
    }
}

/// What the interface gets for an error: a reason decided earlier survives the trip, a
/// refusal of the server becomes the reason of its status, and anything else never reached
/// the server.
pub open spec fn spec_from_error(known: Option<Failure>, refusal: Option<ServerError>) -> Failure {
    match known {
        Some(failure) => failure,
        None => match refusal {
            Some(server) => spec_from_status(server.status),
            None => Failure::Unreachable,
        },
    }
}

impl Failure {
    /// Translates the server's refusal without letting the status through to the screen.
    pub fn from_status(status: u16) -> (failure: Failure)
        ensures
            failure == spec_from_status(status),
    {
        match status {
            401 => Failure::SignedOut,
            403 => Failure::NotAllowed,
            404 | 410 => Failure::Gone,
            400 | 422 => Failure::Invalid,
            429 => Failure::TooFast,
            502..=504 => Failure::Unreachable,
            _ => Failure::ServerBroke,
        }
    }

    /// What the interface gets for an error, given what the error carries: a reason decided
    /// earlier, or the server's refusal. The raw error stays in the log.
    pub fn from_error(known: Option<Failure>, refusal: Option<&ServerError>) -> (failure: Failure)
        ensures
            failure == spec_from_error(known, match refusal {
                Some(server) => Some(*server),
                None => None,
            }),
    {
        match known {
            Some(failure) => failure,
            None => match refusal {
                Some(server) => Failure::from_status(server.status),
                None => Failure::Unreachable,
            },
        }
    }

    /// The name of the reason, and only it: what goes to the log.
    pub fn name(self) -> (name: &'static str)
        ensures
            name@ == spec_failure_name(self),
    {
        match self {
            Failure::Unreachable => "Unreachable",
            Failure::SignedOut => "SignedOut",
            Failure::NotAllowed => "NotAllowed",
            Failure::Gone => "Gone",
            Failure::Invalid => "Invalid",
            Failure::ServerBroke => "ServerBroke",
            Failure::TooFast => "TooFast",
        }
    }
}

/// How a reason is written to the interface: its name in camel case.
pub open spec fn spec_wire_name(failure: Failure) -> Seq<char> {
    match failure {
        Failure::Unreachable => "unreachable"@,
        Failure::SignedOut => "signedOut"@,
        Failure::NotAllowed => "notAllowed"@,
        Failure::Gone => "gone"@,
        Failure::Invalid => "invalid"@,
        Failure::ServerBroke => "serverBroke"@,
        Failure::TooFast => "tooFast"@,
    }
}

impl Failure {
    /// How the reason is written to the interface.
    pub fn wire_name(self) -> (name: &'static str)
        ensures
            name@ == spec_wire_name(self),
    {
        match self {
            Failure::Unreachable => "unreachable",
            Failure::SignedOut => "signedOut",
            Failure::NotAllowed => "notAllowed",
            Failure::Gone => "gone",
            Failure::Invalid => "invalid",
            Failure::ServerBroke => "serverBroke",
            Failure::TooFast => "tooFast",
        }
    }
}

pub open spec fn spec_failure_name(failure: Failure) -> Seq<char> {
    match failure {
        Failure::Unreachable => "Unreachable"@,
        Failure::SignedOut => "SignedOut"@,
        Failure::NotAllowed => "NotAllowed"@,
        Failure::Gone => "Gone"@,
        Failure::Invalid => "Invalid"@,
        Failure::ServerBroke => "ServerBroke"@,
        Failure::TooFast => "TooFast"@,
    }
}

/// Every status becomes a reason the person can act on, and a status of the gateway in
/// front of the server counts as not reaching it.
pub proof fn law_gateway_statuses_are_unreachable(status: u16)
    ensures
        502 <= status <= 504 <==> spec_from_status(status) == Failure::Unreachable,
        spec_from_error(None, None) == Failure::Unreachable,
{
}

} // verus!
