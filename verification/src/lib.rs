//! Message handling for a chat bot that answers WeChat messages, either
//! from canned replies or through the OpenAI chat completion service.

pub mod config;
pub mod error;
pub mod handler;
pub mod model;
pub mod openai;
mod random;
pub mod table;
pub mod text;
