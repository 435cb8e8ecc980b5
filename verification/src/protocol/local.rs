//! Events the server does not send: they are this machine's, about its own socket. They
//! go into the same queue so the interface has one way between "someone arrived" and "the
//! room fell".

use vstd::prelude::*;

verus! {

pub const SESSION_LOST: &'static str = "sessionLost";
pub const SESSION_REJOINED: &'static str = "sessionRejoined";
/// Gave up coming back. Nothing more comes from here.
pub const SESSION_GONE: &'static str = "sessionGone";
/// The round trip to the media server, in milliseconds, measured on the ping every five
/// seconds. The number comes in `data`.
pub const PING_MEASURED: &'static str = "pingMeasured";

} // verus!
