//! The bot's settings, and what is derived from them: the listening address,
//! the log filter and the rate limiter.

use crate::table::ReplyTable;
use crate::text::{decimal, decimal_string};
use vstd::prelude::*;

verus! {

/// The token bucket limiter of the `ratelimit` crate.
#[verifier::external_type_specification]
#[verifier::external_body]
pub struct ExRatelimiter(ratelimit::Ratelimiter);

/// A token bucket limiter and the settings it was made with: up to
/// `capacity` tokens, `quantum` tokens added `rate` times per second. The
/// settings keep the limiter's arithmetic in range: `quantum` divides, `rate`
/// holds at least one quantum, and a full bucket plus one quantum fits in a
/// `u64`.
pub struct Limiter {
    limiter: ratelimit::Ratelimiter,
    capacity: u64,
    quantum: u64,
    rate: u64,
}

/// Settings with which a limiter can be made and run: what
/// `ratelimit::Ratelimiter` divides by is not zero, and the sum it forms of
/// the tokens held and a quantum stays within `u64`.
pub open spec fn limiter_settings_valid(capacity: u64, quantum: u64, rate: u64) -> bool {
    &&& quantum > 0
    &&& rate >= quantum
    &&& capacity + quantum <= u64::MAX
}

impl View for Limiter {
    type V = (u64, u64, u64);

    /// The settings: capacity, quantum and rate.
    closed spec fn view(&self) -> (u64, u64, u64) {
        (self.capacity, self.quantum, self.rate)
    }
}

impl Limiter {
    #[verifier::type_invariant]
    closed spec fn inv(self) -> bool {
        limiter_settings_valid(self.capacity, self.quantum, self.rate)
    }

    /// The settings: capacity, quantum and rate.
    pub fn settings(&self) -> (s: (u64, u64, u64))
        ensures
            s == self@,
            limiter_settings_valid(s.0, s.1, s.2),
    {
        proof {
            use_type_invariant(self);
        }
        (self.capacity, self.quantum, self.rate)
    }
}

/// Calls `ratelimit::Ratelimiter::new(capacity, quantum, rate)` and keeps
/// those three settings beside the limiter it made. Its source divides by
/// `quantum` and by `rate / quantum`, so it panics unless `quantum > 0` and
/// `rate >= quantum`; those are required, with the bound that the limiter's
/// refills need. The limiter is made with exactly the arguments given; what
/// it later answers depends on the clock, and nothing is stated of that.
#[verifier::external_body]
fn limiter_new(capacity: u64, quantum: u64, rate: u64) -> (l: Limiter)
    requires
        limiter_settings_valid(capacity, quantum, rate),
    ensures
        l@ == (capacity, quantum, rate),
{
    Limiter { limiter: ratelimit::Ratelimiter::new(capacity, quantum, rate), capacity, quantum, rate }
}

/// Calls `ratelimit::Ratelimiter::try_wait` on the limiter held: true where
/// it returned `Ok`, that is, a token was taken from the bucket. `try_wait`
/// refills the bucket by adding a quantum to the tokens held, which stay
/// within the capacity where calls do not overlap (the crate's refill is not
/// atomic across threads, so callers take turns), and the limiter's settings
/// keep that sum within `u64`. Whether a
/// token was there depends on the clock and on earlier calls, so nothing is
/// stated of the result.
#[verifier::external_body]
pub(crate) fn limiter_try_wait(limiter: &Limiter) -> bool {
    limiter.limiter.try_wait().is_ok()
}

/// Where the backend that delivers the bot's messages runs.
#[derive(Debug, Clone, Copy, PartialEq, Eq, Structural)]
pub enum ServerType {
    KPBackend,
    CQBackend,
}

/// Logging settings.
pub struct LogConfig {
    pub level: String,
    pub with_thread_ids: bool,
    pub with_thread_names: bool,
}

/// Token bucket settings: up to `capacity` tokens, `quantum` tokens added
/// `rate` times per second.
pub struct RateLimitConfig {
    pub capacity: u64,
    pub quantum: u64,
    pub rate: u64,
}

/// Settings of the OpenAI service.
pub struct OpenAIConfig {
    pub open: bool,
    pub stream: bool,
    pub api_key: String,
    pub api_domain: String,
    pub max_tokens: u16,
}

/// Address of the KP robot's HTTP plugin.
pub struct KPHandlerConfig {
    pub ip: String,
    pub port: u16,
}

/// Address of the go-cqhttp backend.
pub struct CQHandlerConfig {
    pub ip: String,
    pub port: u16,
}

/// The backends' addresses.
pub struct HandlerConfig {
    pub kp: KPHandlerConfig,
    pub cq: CQHandlerConfig,
}

/// How the bot answers: the prefix a message must carry, how many answers
/// are cached per question, the words that blank an answer, the rewriting
/// rules, and the canned answers.
pub struct ReplyConfig {
    pub prefix: String,
    pub cache_per_question: usize,
    pub blacklist: Vec<String>,
    pub replace: ReplyTable,
    pub text: ReplyTable,
    pub static_picture: ReplyTable,
    pub gif_picture: ReplyTable,
}

/// All settings.
pub struct Config {
    pub log: LogConfig,
    pub ip: String,
    pub http_port: u16,
    pub server_name: String,
    pub server_type: ServerType,
    pub rate_limit: RateLimitConfig,
    pub handler: HandlerConfig,
    pub reply: ReplyConfig,
    pub openai: OpenAIConfig,
}

impl Config {
    /// The address the HTTP server binds: `ip:port`.
    pub fn listen_address(&self) -> (r: String)
        ensures
            r@ == self.ip@ + seq![':'] + decimal(self.http_port as nat),
    {
        proof {
            reveal_strlit(":");
        }
        let mut r = self.ip.clone();
        r.append(":");
        r.append(decimal_string(self.http_port as u64).as_str());
        r
    }
}

impl LogConfig {
    /// The tracing filter: the level for the bot, and the same level for
    /// `tower` and `tower_http`.
    pub fn env_filter(&self) -> (r: String)
        ensures
            r@ == self.level@ + ",tower="@ + self.level@ + ",tower_http="@ + self.level@,
    {
        let mut r = self.level.clone();
        r.append(",tower=");
        r.append(self.level.as_str());
        r.append(",tower_http=");
        r.append(self.level.as_str());
        r
    }
}

impl RateLimitConfig {
    /// A rate limiter with these settings.
    pub fn ratelimiter(&self) -> (l: Limiter)
        requires
            limiter_settings_valid(self.capacity, self.quantum, self.rate),
        ensures
            l@ == (self.capacity, self.quantum, self.rate),
    {
        limiter_new(self.capacity, self.quantum, self.rate)
    }
}

} // verus!
