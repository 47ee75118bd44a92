//! The data model the pipeline reads: personas, per-conversation settings,
//! message roles and the rows handed to the persistence collaborator.

use vstd::prelude::*;
use crate::text::{chars_of, push_all, string_of};

verus! {

/// The active system-prompt identity applied to generated replies.
#[derive(Debug)]
pub struct Persona {
    pub id: i64,
    pub name: String,
    pub prompt: String,
    pub display_name: Option<String>,
    pub triggers: Option<String>,
    pub is_active: bool,
}

/// The portable form of one persona.
#[derive(Debug)]
pub struct PersonaExport {
    pub name: String,
    pub prompt: String,
    pub description: Option<String>,
    pub version: String,
}

impl PersonaExport {
    /// The portable form of a persona: its name and prompt, no description,
    /// and the current format version.
    pub fn from(p: Persona) -> (r: PersonaExport)
        ensures
            r.name == p.name,
            r.prompt == p.prompt,
            r.description is None,
            r.version@ == "1.0"@,
    {
        PersonaExport {
            name: p.name,
            prompt: p.prompt,
            description: None,
            version: String::from_str("1.0"),
        }
    }
}

/// Why a persona import was refused.
#[derive(Debug)]
pub enum ImportError {
    /// The payload could not be parsed.
    ParseError(String),
    /// The payload parsed but holds unusable values.
    ValidationError(String),
    /// The store refused the row.
    DatabaseError(String),
}

impl ImportError {
    /// The wording of each import error.
    pub open spec fn text_spec(self) -> Seq<char> {
        match self {
            ImportError::ParseError(m) => "Parse error: "@ + m@,
            ImportError::ValidationError(m) => "Validation error: "@ + m@,
            ImportError::DatabaseError(m) => "Database error: "@ + m@,
        }
    }

    /// Renders the error, as `text_spec` describes it.
    pub fn describe(&self) -> (r: String)
        ensures
            r@ == self.text_spec(),
    {
        match self {
            ImportError::ParseError(m) => {
                let mut v = chars_of("Parse error: ");
                let tail = chars_of(m.as_str());
                push_all(&mut v, &tail);
                string_of(&v)
            },
            ImportError::ValidationError(m) => {
                let mut v = chars_of("Validation error: ");
                let tail = chars_of(m.as_str());
                push_all(&mut v, &tail);
                string_of(&v)
            },
            ImportError::DatabaseError(m) => {
                let mut v = chars_of("Database error: ");
                let tail = chars_of(m.as_str());
                push_all(&mut v, &tail);
                string_of(&v)
            },
        }
    }
}

/// An import is accepted exactly when both the name and the prompt are
/// non-empty; anything else is a validation error.
pub fn validate_import(export: &PersonaExport) -> (r: Result<(), ImportError>)
    ensures
        r is Ok <==> export.name@.len() > 0 && export.prompt@.len() > 0,
        r matches Err(e) ==> e matches ImportError::ValidationError(m) && m@
            == "Name and prompt cannot be empty"@,
{
    if export.name.unicode_len() == 0 || export.prompt.unicode_len() == 0 {
        Err(
            ImportError::ValidationError(String::from_str("Name and prompt cannot be empty")),
        )
    } else {
        Ok(())
    }
}

/// Per-conversation options read by the gates and the prompt assembler.
#[derive(Debug)]
pub struct ChatSettings {
    pub chat_id: i64,
    pub auto_reply_enabled: bool,
    pub reply_mode: String,
    pub cooldown_seconds: i64,
    pub context_depth: i64,
    pub rag_enabled: bool,
}

/// The settings a conversation starts with: replies on, mention-only mode,
/// a five-second cooldown, ten turns of context, memory on.
pub fn default_chat_settings(chat_id: i64) -> (r: ChatSettings)
    ensures
        r.chat_id == chat_id,
        r.auto_reply_enabled == true,
        r.reply_mode@ == "mention_only"@,
        r.cooldown_seconds == 5,
        r.context_depth == 10,
        r.rag_enabled == true,
{
    ChatSettings {
        chat_id,
        auto_reply_enabled: true,
        reply_mode: String::from_str("mention_only"),
        cooldown_seconds: 5,
        context_depth: 10,
        rag_enabled: true,
    }
}

/// Role of a message in the conversation history.
#[derive(Clone, Copy, Debug, PartialEq, Eq, Structural)]
pub enum MessageRole {
    System,
    User,
    Assistant,
}

/// The wire word of each role.
pub open spec fn role_str_spec(r: MessageRole) -> Seq<char> {
    match r {
        MessageRole::System => "system"@,
        MessageRole::User => "user"@,
        MessageRole::Assistant => "assistant"@,
    }
}

impl MessageRole {
    /// The role's wire word, as `role_str_spec` describes it.
    pub fn as_str(&self) -> (r: &'static str)
        ensures
            r@ == role_str_spec(*self),
    {
        match self {
            MessageRole::System => "system",
            MessageRole::User => "user",
            MessageRole::Assistant => "assistant",
        }
    }
}

/// Data for creating a new account.
#[derive(Debug)]
pub struct NewAccount {
    pub phone_number: String,
    pub session_data: Vec<u8>,
    pub system_prompt: String,
}

/// Data for appending one history row.
#[derive(Debug)]
pub struct NewMessage {
    pub account_id: i64,
    pub chat_id: i64,
    pub role: MessageRole,
    pub content: String,
}

/// An empty allow-list admits every conversation; otherwise only the listed
/// ones.
pub fn is_chat_allowed(allowed_chats: &Vec<i64>, chat_id: i64) -> (r: bool)
    ensures
        r == (allowed_chats@.len() == 0 || allowed_chats@.contains(chat_id)),
{
    if allowed_chats.len() == 0 {
        return true;
    }
    let mut i: usize = 0;
    while i < allowed_chats.len()
        invariant
            i <= allowed_chats@.len(),
            forall|j: int| 0 <= j < i ==> allowed_chats@[j] != chat_id,
        decreases allowed_chats@.len() - i,
    {
        if allowed_chats[i] == chat_id {
            proof {
                assert(allowed_chats@.contains(chat_id));
            }
            return true;
        }
        i = i + 1;
    }
    proof {
        assert(!allowed_chats@.contains(chat_id));
    }
    false
}

/// A message is ignored once it is older than the account's cutoff.
pub fn is_message_too_old(message_age_secs: i64, ignore_old_messages_sec: i64) -> (r: bool)
    ensures
        r == (message_age_secs > ignore_old_messages_sec),
{
    message_age_secs > ignore_old_messages_sec
}

} // verus!
