//! A chat completion request.

use super::{Message, Role};
use vstd::prelude::*;

verus! {

/// A chat completion request: the model and the chat so far.
#[derive(Debug, Clone, PartialEq, Eq)]
pub struct Question {
    pub model: String,
    pub messages: Vec<Message>,
}

impl Question {
    /// A request to `model` with one message of the user, `content`.
    pub fn new(model: String, content: String) -> (q: Question)
        ensures
            q.model == model,
            q.messages@ == seq![Message { role: Role::User, content }],
    {
        let mut messages: Vec<Message> = Vec::new();
        messages.push(Message { role: Role::User, content });
        Question { model, messages }
    }

    /// A request to `gpt-3.5-turbo` with no message yet.
    pub fn new_with_default() -> (q: Question)
        ensures
            q.model@ == "gpt-3.5-turbo"@,
            q.messages@.len() == 0,
    {
        Question { model: String::from_str("gpt-3.5-turbo"), messages: Vec::new() }
    }

    /// The request with one more message of the user, `content`, at the end.
    pub fn set_content(self, content: String) -> (q: Question)
        ensures
            q.model == self.model,
            q.messages@ == self.messages@.push(Message { role: Role::User, content }),
    {
        let mut q = self;
        q.messages.push(Message { role: Role::User, content });
        q
    }
}

} // verus!
