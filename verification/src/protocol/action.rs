//! The media server's actions. They are here as text because that is how they travel, and
//! misspelling one is a compile error, not a refused message in production.

use vstd::prelude::*;

verus! {

pub const JOIN: &'static str = "join";
pub const LEAVE: &'static str = "leave";
pub const PING: &'static str = "ping";
pub const IDENTIFY: &'static str = "identify";
pub const SUBSCRIBE: &'static str = "subscribe";
pub const UNSUBSCRIBE: &'static str = "unsubscribe";
pub const CREATE_TRANSPORT: &'static str = "createTransport";
pub const CONNECT_TRANSPORT: &'static str = "connectTransport";
pub const PRODUCE_PLAIN: &'static str = "producePlain";
pub const CONSUME_PLAIN: &'static str = "consumePlain";
pub const PAUSE_PRODUCER: &'static str = "pauseProducer";
pub const RESUME_PRODUCER: &'static str = "resumeProducer";
pub const CLOSE_PRODUCER: &'static str = "closeProducer";
pub const PAUSE_CONSUMER: &'static str = "pauseConsumer";
pub const RESUME_CONSUMER: &'static str = "resumeConsumer";
pub const CLOSE_CONSUMER: &'static str = "closeConsumer";
pub const REMOVE_PEER: &'static str = "removePeer";

} // verus!
