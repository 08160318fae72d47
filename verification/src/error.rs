//! The errors the bot answers a request with.

use vstd::prelude::*;

verus! {

/// What went wrong while handling a request.
#[derive(Debug, Clone)]
pub enum ServerError {
    ArgumentError(String),
    ConfigError(String),
    JsonParseError(String),
    ServerError,
    IOError(String),
    Unknown(String),
}

/// The text that describes `e`.
pub open spec fn error_text(e: ServerError) -> Seq<char> {
    match e {
        ServerError::ArgumentError(s) => "argument error : "@ + s@,
        ServerError::ConfigError(s) => "config error : "@ + s@,
        ServerError::JsonParseError(s) => "json parse error : "@ + s@,
        ServerError::ServerError => "Internal Server Error"@,
        ServerError::IOError(s) => "io error : "@ + s@,
        ServerError::Unknown(s) => s@,
    }
}

/// The HTTP status that answers `e`: 400 where the request was at fault,
/// 500 otherwise.
pub open spec fn error_status(e: ServerError) -> u16 {
    match e {
        ServerError::ArgumentError(_) => 400,
        ServerError::JsonParseError(_) => 400,
        _ => 500,
    }
}

impl ServerError {
    /// The HTTP status code of the answer.
    pub fn status_code(&self) -> (c: u16)
        ensures
            c == error_status(*self),
    {
        match self {
            ServerError::ArgumentError(_) => 400,
            ServerError::ConfigError(_) => 500,
            ServerError::JsonParseError(_) => 400,
            ServerError::ServerError => 500,
            ServerError::IOError(_) => 500,
            ServerError::Unknown(_) => 500,
        }
    }

    /// The text of the error, as the answer's `error` field carries it.
    pub fn message(&self) -> (m: String)
        ensures
            m@ == error_text(*self),
    {
        match self {
            ServerError::ArgumentError(s) => String::from_str("argument error : ").concat(
                s.as_str(),
            ),
            ServerError::ConfigError(s) => String::from_str("config error : ").concat(s.as_str()),
            ServerError::JsonParseError(s) => String::from_str("json parse error : ").concat(
                s.as_str(),
            ),
            ServerError::ServerError => String::from_str("Internal Server Error"),
            ServerError::IOError(s) => String::from_str("io error : ").concat(s.as_str()),
            ServerError::Unknown(s) => s.clone(),
        }
    }
}

} // verus!
