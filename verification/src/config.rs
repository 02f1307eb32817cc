//! Configuration of the bot: authentication, database, command behaviour,
//! rate limiting, automatic turn skipping and tracing.
//!
//! These are plain data carriers; the front-end deserialises its
//! configuration file into mirror types and converts into these.

use vstd::prelude::*;

verus! {

/// Top-level configuration.
#[derive(Debug, Clone)]
pub struct Config {
    pub auth: AuthConfig,
    pub db_config: DbConfig,
    pub bot_config: BotConfig,
    pub tracing_config: Option<TracingConfig>,
}

/// Authentication against the chat platform.
#[derive(Debug, Clone)]
pub struct AuthConfig {
    /// Authentication token for the chat bot.
    pub token: String,
}

/// Where the persistent store lives.
#[derive(Debug, Clone)]
pub struct DbConfig {
    /// Database URL.
    pub database_url: String,
}

/// Behaviour of the bot itself.
#[derive(Debug, Clone)]
pub struct BotConfig {
    /// Command prefix in chat messages.
    pub command_prefix: String,
    /// Sentences to use when announcing a win.
    pub win_sentences: Vec<String>,
    /// Command rate limiting.
    pub ratelimit: Option<RatelimitConfig>,
    /// Automatic skipping of idle turns.
    pub auto_skip: Option<AutoskipConfig>,
}

/// Default for the rate-limit delays.
pub fn zero() -> (r: u64)
    ensures
        r == 0,
{
    0
}

/// Default for the rate-limit invocation count.
pub fn one() -> (r: u32)
    ensures
        r == 1,
{
    1
}

/// Rate limiting of chatty commands.
#[derive(Debug, Clone)]
pub struct RatelimitConfig {
    /// The "break" time, in seconds, between invocations of a command.
    pub delay: u64,
    /// How long, in seconds, the rate limit will apply for.
    pub time_span: u64,
    /// Number of invocations allowed per `time_span`.
    pub limit: u32,
}

/// Timings of the timeout sweeper.
#[derive(Debug, Clone)]
pub struct AutoskipConfig {
    /// Delay before an idle turn is skipped automatically, in seconds.
    pub autoskip_delay: u32,
    /// Delay before warning that the turn will be skipped, in seconds.
    pub warn_delay: u32,
}

/// Where to send telemetry.
#[derive(Debug, Clone)]
pub struct TracingConfig {
    /// Telemetry endpoint, `<ip|hostname>:<port>`.
    pub otel: Option<String>,
}

} // verus!
