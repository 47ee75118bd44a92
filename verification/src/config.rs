//! Recognized configuration options and their defaults.
//!
//! Quantities the surrounding system configures as fractions are held here
//! in micro units.

use vstd::prelude::*;
use crate::SCALE;

verus! {

/// The options the pipeline consumes, with times in their natural units and
/// fractions in micro units.
#[derive(Clone, Copy, Debug)]
pub struct PipelineConfig {
    /// How long to wait for more messages of a burst, in milliseconds.
    pub debounce_ms: u64,
    /// Per-conversation cooldown, in seconds.
    pub cooldown_seconds: u64,
    /// Replies one user may get per window.
    pub burst_limit: usize,
    /// Width of the per-user window, in seconds.
    pub burst_window_secs: u64,
    /// How many inference calls may run at once.
    pub max_concurrent_llm: usize,
    /// Deadline of one inference call, in seconds.
    pub llm_timeout_seconds: u64,
    /// Deadline of the queue wait, in seconds.
    pub queue_timeout_seconds: u64,
    /// Hourly memory decay factor, in micro units; one whole unit disables
    /// decay.
    pub hourly_decay: u64,
    /// Most recent chunks kept per conversation.
    pub memory_retention_cap: usize,
    /// Unsummarized messages that trigger a summarization checkpoint.
    pub summary_threshold: u32,
    /// Typing speed, in characters per minute.
    pub typing_speed_cpm: u64,
    /// Shortest extra wait before a reply, in seconds.
    pub min_response_delay_sec: u64,
    /// Longest extra wait before a reply, in seconds.
    pub max_response_delay_sec: u64,
    /// Reply probability in "all messages" mode, in micro units.
    pub reply_probability: u64,
}

impl Default for PipelineConfig {
    /// The defaults the pipeline starts with.
    fn default() -> (r: Self)
        ensures
            r.debounce_ms == 1500,
            r.cooldown_seconds == 5,
            r.burst_limit == 5,
            r.burst_window_secs == 60,
            r.max_concurrent_llm == 3,
            r.llm_timeout_seconds == 120,
            r.queue_timeout_seconds == 30,
            r.hourly_decay == 995_842,
            r.memory_retention_cap == 1000,
            r.summary_threshold == 50,
            r.typing_speed_cpm == 1200,
            r.min_response_delay_sec == 2,
            r.max_response_delay_sec == 10,
            r.reply_probability == 0,
            r.hourly_decay <= SCALE,
            r.min_response_delay_sec <= r.max_response_delay_sec,
    {
        PipelineConfig {
            debounce_ms: 1500,
            cooldown_seconds: 5,
            burst_limit: 5,
            burst_window_secs: 60,
            max_concurrent_llm: 3,
            llm_timeout_seconds: 120,
            queue_timeout_seconds: 30,
            // just under one whole unit: a slow fade of about a tenth per day
            hourly_decay: 995_842,
            memory_retention_cap: 1000,
            summary_threshold: 50,
            typing_speed_cpm: 1200,
            min_response_delay_sec: 2,
            max_response_delay_sec: 10,
            reply_probability: 0,
        }
    }
}

/// The chunk delimiter replies are split on.
pub fn chunk_delimiter() -> (r: &'static str)
    ensures
        r@ == "||"@,
{
    "||"
}

/// The no-reply sentinel: a reply that trims to this token is dropped.
pub fn no_reply_sentinel() -> (r: &'static str)
    ensures
        r@ == "<IGNORE>"@,
{
    "<IGNORE>"
}

/// Default backend address.
pub fn default_ollama_url() -> (r: String)
    ensures
        r@ == "http://host.docker.internal:11434"@,
{
    String::from_str("http://host.docker.internal:11434")
}

/// Default chat model name.
pub fn default_ollama_chat_model() -> (r: String)
    ensures
        r@ == "gemini-3-flash-preview:cloud"@,
{
    String::from_str("gemini-3-flash-preview:cloud")
}

/// Default embedding model name.
pub fn default_ollama_embedding_model() -> (r: String)
    ensures
        r@ == "nomic-embed-text"@,
{
    String::from_str("nomic-embed-text")
}

/// Default vision model name.
pub fn default_ollama_vision_model() -> (r: String)
    ensures
        r@ == "llava:latest"@,
{
    String::from_str("llava:latest")
}

/// Default token budget of one generation.
pub fn default_max_tokens() -> (r: u32)
    ensures
        r == 2048,
{
    2048
}

/// Default account display name.
pub fn default_bot_name() -> (r: String)
    ensures
        r@ == "PersonaForge"@,
{
    String::from_str("PersonaForge")
}

/// Default inference concurrency limit.
pub fn default_max_concurrent_llm() -> (r: Option<usize>)
    ensures
        r == Some(3usize),
{
    Some(3)
}

/// Default inference deadline, in seconds.
pub fn default_llm_timeout() -> (r: u64)
    ensures
        r == 120,
{
    120
}

/// Default queue-wait deadline, in seconds.
pub fn default_queue_timeout() -> (r: u64)
    ensures
        r == 30,
{
    30
}

/// Whether image analysis starts enabled.
pub fn default_vision_enabled() -> (r: bool)
    ensures
        r == false,
{
    false
}

/// Whether web search starts enabled.
pub fn default_web_search_enabled() -> (r: bool)
    ensures
        r == true,
{
    true
}

/// Whether voice transcription starts enabled.
pub fn default_voice_enabled() -> (r: bool)
    ensures
        r == false,
{
    false
}

/// Default transcription service address.
pub fn default_whisper_url() -> (r: String)
    ensures
        r@ == "http://localhost:8080"@,
{
    String::from_str("http://localhost:8080")
}

/// Default summarization threshold, in messages.
pub fn default_summary_threshold() -> (r: u32)
    ensures
        r == 50,
{
    50
}

/// Default port of the control panel.
pub fn default_webapp_port() -> (r: u16)
    ensures
        r == 8080,
{
    8080
}

} // verus!
