//! The messages of the OpenAI chat completion API.

pub mod question;

use vstd::prelude::*;

verus! {

/// Who speaks a chat message.
#[derive(Debug, Clone, Copy, PartialEq, Eq, Structural)]
pub enum Role {
    System,
    User,
    Assistant,
}

/// One message of a chat.
#[derive(Debug, Clone, PartialEq, Eq)]
pub struct Message {
    pub role: Role,
    pub content: String,
}

} // verus!
