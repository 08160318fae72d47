//! What the bot does with what reaches it: the KP robot's events, and the
//! messages of a websocket connection.

pub mod kp;

use vstd::prelude::*;

verus! {

/// What a websocket connection delivered.
#[derive(Debug, Clone, Copy, PartialEq, Eq, Structural)]
pub enum SocketEvent {
    Text,
    Binary,
    Close,
    Pong,
    Ping,
}

/// Whether the connection is read further after `event`: `None` stands for
/// the end of the stream or a read error, which end the reading as a close
/// message does.
pub fn socket_keeps_reading(event: Option<SocketEvent>) -> (b: bool)
    ensures
        b == (event is Some && event != Some(SocketEvent::Close)),
{
    match event {
        Some(SocketEvent::Close) => false,
        Some(_) => true,
        None => false,
    }
}

/// The name a websocket client is logged under: its user agent, or
/// `Unknown browser` where it sent none.
pub fn user_agent_label(user_agent: Option<String>) -> (r: String)
    ensures
        user_agent matches Some(u) ==> r@ == u@,
        user_agent is None ==> r@ == "Unknown browser"@,
{
    match user_agent {
        Some(u) => u,
        None => String::from_str("Unknown browser"),
    }
}

} // verus!
