//! The control panel's request and response shapes, and the pure parts of
//! its handlers: response wrapping, validation, and settings merging.

use vstd::prelude::*;
use crate::model::{Persona, ChatSettings};

verus! {

/// The uniform envelope of every panel response.
#[derive(Debug)]
pub struct ApiResponse<T> {
    pub success: bool,
    pub data: Option<T>,
    pub error: Option<String>,
}

impl<T> ApiResponse<T> {
    /// A successful envelope around `data`.
    pub fn ok(data: T) -> (r: Self)
        ensures
            r.success == true,
            r.data == Some(data),
            r.error is None,
    {
        ApiResponse { success: true, data: Some(data), error: None }
    }

    /// A failed envelope with the given message.
    pub fn err(msg: &str) -> (r: Self)
        ensures
            r.success == false,
            r.data is None,
            r.error matches Some(e) && e@ == msg@,
    {
        ApiResponse { success: false, data: None, error: Some(String::from_str(msg)) }
    }
}

/// One persona as the panel shows it.
#[derive(Debug)]
pub struct PersonaResponse {
    pub id: i64,
    pub name: String,
    pub prompt: String,
    pub is_active: bool,
    pub display_name: Option<String>,
    pub triggers: Option<String>,
}

/// Shapes one persona for the panel, field for field.
pub fn persona_response(p: Persona) -> (r: PersonaResponse)
    ensures
        r.id == p.id,
        r.name == p.name,
        r.prompt == p.prompt,
        r.is_active == p.is_active,
        r.display_name == p.display_name,
        r.triggers == p.triggers,
{
    PersonaResponse {
        id: p.id,
        name: p.name,
        prompt: p.prompt,
        is_active: p.is_active,
        display_name: p.display_name,
        triggers: p.triggers,
    }
}

/// A request to create a persona.
#[derive(Debug)]
pub struct CreatePersonaRequest {
    pub name: String,
    pub prompt: String,
    pub display_name: Option<String>,
    pub triggers: Option<String>,
}

/// A request to rewrite a persona.
#[derive(Debug)]
pub struct UpdatePersonaRequest {
    pub name: String,
    pub prompt: String,
    pub display_name: Option<String>,
    pub triggers: Option<String>,
}

/// A persona request is usable exactly when name and prompt are non-empty.
pub fn persona_request_valid(name: &str, prompt: &str) -> (r: bool)
    ensures
        r == (name@.len() > 0 && prompt@.len() > 0),
{
    name.unicode_len() > 0 && prompt.unicode_len() > 0
}

/// One conversation's settings as the panel shows them.
#[derive(Debug)]
pub struct ChatSettingsResponse {
    pub chat_id: i64,
    pub auto_reply_enabled: bool,
    pub reply_mode: String,
    pub cooldown_seconds: i64,
    pub context_depth: i64,
    pub rag_enabled: bool,
}

/// A partial settings update; absent fields keep their value.
#[derive(Debug)]
pub struct UpdateChatSettingsRequest {
    pub auto_reply_enabled: Option<bool>,
    pub reply_mode: Option<String>,
    pub cooldown_seconds: Option<i64>,
    pub context_depth: Option<i64>,
    pub rag_enabled: Option<bool>,
}

/// Merges a partial update into the current settings: every given field
/// replaces the current value, every absent field keeps it.
pub fn apply_chat_settings_update(current: ChatSettings, req: UpdateChatSettingsRequest) -> (r:
    ChatSettings)
    ensures
        r.chat_id == current.chat_id,
        r.auto_reply_enabled == (match req.auto_reply_enabled {
            Some(v) => v,
            None => current.auto_reply_enabled,
        }),
        r.reply_mode == (match req.reply_mode {
            Some(v) => v,
            None => current.reply_mode,
        }),
        r.cooldown_seconds == (match req.cooldown_seconds {
            Some(v) => v,
            None => current.cooldown_seconds,
        }),
        r.context_depth == (match req.context_depth {
            Some(v) => v,
            None => current.context_depth,
        }),
        r.rag_enabled == (match req.rag_enabled {
            Some(v) => v,
            None => current.rag_enabled,
        }),
{
    ChatSettings {
        chat_id: current.chat_id,
        auto_reply_enabled: match req.auto_reply_enabled {
            Some(v) => v,
            None => current.auto_reply_enabled,
        },
        reply_mode: match req.reply_mode {
            Some(v) => v,
            None => current.reply_mode,
        },
        cooldown_seconds: match req.cooldown_seconds {
            Some(v) => v,
            None => current.cooldown_seconds,
        },
        context_depth: match req.context_depth {
            Some(v) => v,
            None => current.context_depth,
        },
        rag_enabled: match req.rag_enabled {
            Some(v) => v,
            None => current.rag_enabled,
        },
    }
}

/// The models the backend offers, and the one in use.
#[derive(Debug)]
pub struct ModelsResponse {
    pub models: Vec<String>,
    pub current: String,
}

/// One conversation's keyword triggers.
#[derive(Debug)]
pub struct TriggersResponse {
    pub chat_id: i64,
    pub keywords: Vec<String>,
}

/// A request to replace a conversation's keyword triggers.
#[derive(Debug)]
pub struct UpdateTriggersRequest {
    pub keywords: Vec<String>,
}

/// A request to send one message to every known conversation.
#[derive(Debug)]
pub struct BroadcastRequest {
    pub message: String,
}

/// How a broadcast went.
#[derive(Debug)]
pub struct BroadcastResponse {
    pub sent: usize,
    pub failed: usize,
}

/// Message count of one conversation.
#[derive(Debug)]
pub struct ChatStatsResponse {
    pub chat_id: i64,
    pub message_count: i64,
}

/// One user's standing with the abuse tracker.
#[derive(Debug)]
pub struct SecurityStatusResponse {
    pub user_id: u64,
    pub strikes: u8,
    pub total_violations: u64,
    pub is_blocked: bool,
    pub is_rate_limited: bool,
}

/// The abuse tracker's configuration.
#[derive(Debug)]
pub struct SecurityConfigResponse {
    pub strike_threshold: u8,
    pub max_strikes: u8,
    pub block_duration_seconds: u64,
    pub strike_window_seconds: u64,
}

/// A request to block one user, for a while or indefinitely.
#[derive(Debug)]
pub struct BlockUserRequest {
    pub duration_minutes: Option<u64>,
}

/// Whether the account is paused.
#[derive(Debug)]
pub struct PauseResponse {
    pub paused: bool,
}

/// The panel user as the platform identifies it.
#[derive(Debug)]
pub struct TelegramUser {
    pub id: u64,
    pub first_name: String,
    pub last_name: Option<String>,
    pub username: Option<String>,
    pub language_code: Option<String>,
    pub is_premium: Option<bool>,
}

} // verus!
