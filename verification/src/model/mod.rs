//! The messages the bot exchanges with its backends and with OpenAI.

pub mod kp;
pub mod openai;

use crate::config::ServerType;
use vstd::prelude::*;

verus! {

/// A request that reached the bot's HTTP endpoint.
#[derive(Debug)]
pub enum ServerRequest {
    KPRequest(kp::Request),
    CQRequest(kp::Request),
}

impl ServerRequest {
    /// The request a decoded payload makes. Whatever the backend, the payload
    /// is read in the KP robot's format and taken as a KP request.
    pub fn from_payload(server_type: ServerType, payload: kp::Request) -> (r: ServerRequest)
        ensures
            r == ServerRequest::KPRequest(payload),
    {
        match server_type {
            ServerType::KPBackend => ServerRequest::KPRequest(payload),
            ServerType::CQBackend => ServerRequest::KPRequest(payload),
        }
    }

    /// The KP request carried.
    pub fn into_kp_request(self) -> (r: kp::Request)
        requires
            self is KPRequest,
        ensures
            self == ServerRequest::KPRequest(r),
    {
        match self {
            ServerRequest::KPRequest(r) => r,
            ServerRequest::CQRequest(r) => r,
        }
    }
}

} // verus!
