//! The handling of the KP robot's events: the rate limit, the event type,
//! and the plan for a text message.

use crate::config::{limiter_try_wait, KPHandlerConfig, Limiter, ReplyConfig, ServerType};
use crate::error::ServerError;
use crate::openai::{blank_by, is_blacklisted};
use crate::random::random_index;
use crate::table::{get_is_entry, table_get};
use crate::text::{decimal, decimal_string, starts_with, strip_prefix, trim, trimmed};
use vstd::prelude::*;

verus! {

/// The event type of a text message.
pub const TEXT_EVENT: u32 = 1100;

/// What is done with an event.
#[derive(Debug, Clone, Copy, PartialEq, Eq, Structural)]
pub enum EventRoute {
    /// Nothing: the rate limit refused it.
    Skip,
    /// It is a text message, handled as such.
    Text,
}

/// The message of the error that answers an event of unknown type.
pub open spec fn unknown_event_message(event_type: u32) -> Seq<char> {
    "unexpedted event_type: "@ + decimal(event_type as nat)
}

/// The route of an event of type `event_type`, where `allowed` tells whether
/// the rate limit let it through.
pub fn route_event(allowed: bool, event_type: u32) -> (r: Result<EventRoute, ServerError>)
    ensures
        !allowed ==> r == Ok::<EventRoute, ServerError>(EventRoute::Skip),
        allowed && event_type == TEXT_EVENT ==> r == Ok::<EventRoute, ServerError>(
            EventRoute::Text,
        ),
        allowed && event_type != TEXT_EVENT ==> (r matches Err(ServerError::ArgumentError(m))
            && m@ == unknown_event_message(event_type)),
{
    if !allowed {
        Ok(EventRoute::Skip)
    } else if event_type == TEXT_EVENT {
        Ok(EventRoute::Text)
    } else {
        let m = String::from_str("unexpedted event_type: ").concat(
            decimal_string(event_type as u64).as_str(),
        );
        Err(ServerError::ArgumentError(m))
    }
}

/// The route of an event of type `event_type`, after taking a token from
/// `limiter`: skipped where no token was there.
pub fn handle_msg_step(limiter: &Limiter, event_type: u32) -> (r: Result<
    EventRoute,
    ServerError,
>)
    ensures
        r == Ok::<EventRoute, ServerError>(EventRoute::Skip) || (event_type == TEXT_EVENT && r
            == Ok::<EventRoute, ServerError>(EventRoute::Text)) || (event_type != TEXT_EVENT
            && (r matches Err(ServerError::ArgumentError(m)) && m@ == unknown_event_message(
            event_type,
        ))),
{
    let allowed = limiter_try_wait(limiter);
    route_event(allowed, event_type)
}

/// What a text message asks for: the trimmed text after the prefix, where
/// the trimmed text starts with the prefix.
pub open spec fn body_of(content: Seq<char>, prefix: Seq<char>) -> Option<Seq<char>> {
    let t = trimmed(content);
    if starts_with(t, prefix) {
        Some(t.skip(prefix.len() as int))
    } else {
        None
    }
}

/// The canned replies for a text message.
pub open spec fn canned_for(content: Seq<char>, config: ReplyConfig) -> Option<Seq<Seq<char>>> {
    match body_of(content, config.prefix@) {
        Some(b) => table_get(config.text@, b),
        None => None,
    }
}

/// Whether the message asks for something that holds a blacklisted word:
/// such a message goes unanswered.
pub open spec fn body_blocked(content: Seq<char>, config: ReplyConfig) -> bool {
    body_of(content, config.prefix@) matches Some(b) && blank_by(b, config.blacklist.deep_view())
}

/// The canned replies of a message are the list configured under exactly the
/// text after the prefix: a message gets canned replies only where that text
/// is a key of the table, and then those of that key.
pub proof fn canned_is_exact_key(content: Seq<char>, config: ReplyConfig)
    ensures
        canned_for(content, config) matches Some(l) ==> body_of(content, config.prefix@) matches Some(
            b,
        ) && exists|i: int|
            0 <= i < config.text@.len() && #[trigger] config.text@[i].0 == b && config.text@[i].1
                == l,
        body_of(content, config.prefix@) matches Some(b) ==> (canned_for(content, config) is None
            <==> forall|i: int| 0 <= i < config.text@.len() ==> #[trigger] config.text@[i].0 != b),
{
    if let Some(b) = body_of(content, config.prefix@) {
        get_is_entry(config.text@, b);
    }
}

/// The text after the prefix, where the trimmed message starts with it.
pub fn message_body<'a>(content: &'a str, prefix: &str) -> (r: Option<&'a str>)
    ensures
        r is Some <==> body_of(content@, prefix@) is Some,
        r matches Some(b) ==> body_of(content@, prefix@) == Some(b@),
{
    strip_prefix(trim(content), prefix)
}

/// The canned replies configured for a message.
pub fn canned_replies<'a>(content: &str, config: &'a ReplyConfig) -> (r: Option<&'a Vec<String>>)
    ensures
        r is Some <==> canned_for(content@, *config) is Some,
        r matches Some(l) ==> canned_for(content@, *config) == Some(l.deep_view()),
{
    match message_body(content, config.prefix.as_str()) {
        Some(b) => config.text.get(b),
        None => None,
    }
}

/// Whether the message asks for something that holds a blacklisted word.
pub fn message_blocked(content: &str, config: &ReplyConfig) -> (b: bool)
    ensures
        b == body_blocked(content@, *config),
{
    match message_body(content, config.prefix.as_str()) {
        Some(body) => is_blacklisted(body, &config.blacklist),
        None => false,
    }
}

/// What is done with a text message.
#[derive(Debug)]
pub enum TextPlan {
    /// Nothing.
    Ignore,
    /// This text is sent back.
    Reply(String),
    /// The OpenAI service is asked this, and its answers are sent back.
    Ask(String),
}

/// The plan for a text message, with canned reply number `pick` where the
/// message has canned replies.
pub fn plan_text_msg_with(
    content: &str,
    config: &ReplyConfig,
    openai_open: bool,
    server_type: ServerType,
    pick: usize,
) -> (r: TextPlan)
    requires
        !body_blocked(content@, *config) ==> (canned_for(content@, *config) matches Some(l)
            ==> pick < l.len()),
    ensures
        body_of(content@, config.prefix@) is None ==> r is Ignore,
        body_blocked(content@, *config) ==> r is Ignore,
        !body_blocked(content@, *config) ==> (canned_for(content@, *config) matches Some(l) ==> {
            &&& server_type == ServerType::KPBackend ==> (r matches TextPlan::Reply(x) && x@
                == l[pick as int])
            &&& server_type == ServerType::CQBackend ==> r is Ignore
        }),
        body_of(content@, config.prefix@) is Some && !body_blocked(content@, *config)
            && canned_for(content@, *config) is None ==> {
            &&& openai_open ==> (r matches TextPlan::Ask(q) && body_of(content@, config.prefix@)
                == Some(q@))
            &&& !openai_open ==> r is Ignore
        },
{
    match message_body(content, config.prefix.as_str()) {
        None => TextPlan::Ignore,
        Some(b) => if is_blacklisted(b, &config.blacklist) {
            TextPlan::Ignore
        } else {
            match config.text.get(b) {
            Some(l) => {
                let x = l[pick].clone();
                assert(l.deep_view()[pick as int] == l@[pick as int]@);
                match server_type {
                    ServerType::KPBackend => TextPlan::Reply(x),
                    ServerType::CQBackend => TextPlan::Ignore,
                }
            },
            None => {
                if openai_open {
                    TextPlan::Ask(String::from_str(b))
                } else {
                    TextPlan::Ignore
                }
            },
            }
        },
    }
}

/// The plan for a text message, a canned reply drawn at random where the
/// message has canned replies.
pub fn plan_text_msg(
    content: &str,
    config: &ReplyConfig,
    openai_open: bool,
    server_type: ServerType,
) -> (r: TextPlan)
    requires
        !body_blocked(content@, *config) ==> (canned_for(content@, *config) matches Some(l)
            ==> l.len() > 0),
    ensures
        body_of(content@, config.prefix@) is None ==> r is Ignore,
        body_blocked(content@, *config) ==> r is Ignore,
        !body_blocked(content@, *config) ==> (canned_for(content@, *config) matches Some(l) ==> {
            &&& server_type == ServerType::KPBackend ==> (r matches TextPlan::Reply(x) && l.contains(
                x@,
            ))
            &&& server_type == ServerType::CQBackend ==> r is Ignore
        }),
        body_of(content@, config.prefix@) is Some && !body_blocked(content@, *config)
            && canned_for(content@, *config) is None ==> {
            &&& openai_open ==> (r matches TextPlan::Ask(q) && body_of(content@, config.prefix@)
                == Some(q@))
            &&& !openai_open ==> r is Ignore
        },
{
    let pick: usize = if message_blocked(content, config) {
        0
    } else {
        match canned_replies(content, config) {
            Some(l) => random_index(l.len()),
            None => 0,
        }
    };
    let r = plan_text_msg_with(content, config, openai_open, server_type, pick);
    proof {
        if let Some(l) = canned_for(content@, *config) {
            if !body_blocked(content@, *config) && r is Reply {
                assert(l[pick as int] == r->Reply_0@);
            }
        }
    }
    r
}

/// The address of the KP robot's API: `http://ip:port/KP`.
pub fn kp_endpoint(config: &KPHandlerConfig) -> (r: String)
    ensures
        r@ == "http://"@ + config.ip@ + ":"@ + decimal(config.port as nat) + "/KP"@,
{
    let mut r = String::from_str("http://");
    r.append(config.ip.as_str());
    r.append(":");
    r.append(decimal_string(config.port as u64).as_str());
    r.append("/KP");
    r
}

} // verus!
