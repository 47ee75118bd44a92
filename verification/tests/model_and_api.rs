//! Data-model helpers, panel shapes, configuration defaults and search
//! support on concrete values.

use persona_forge::api::{apply_chat_settings_update, persona_request_valid, persona_response,
    ApiResponse, UpdateChatSettingsRequest};
use persona_forge::config::{chunk_delimiter, default_bot_name, default_llm_timeout,
    default_max_concurrent_llm, default_max_tokens, default_ollama_chat_model,
    default_ollama_embedding_model, default_ollama_url, default_ollama_vision_model,
    default_queue_timeout, default_summary_threshold, default_vision_enabled,
    default_voice_enabled, default_web_search_enabled, default_webapp_port, default_whisper_url,
    no_reply_sentinel, PipelineConfig};
use persona_forge::model::{default_chat_settings, is_chat_allowed, is_message_too_old,
    validate_import, ImportError, MessageRole, Persona, PersonaExport};
use persona_forge::search::{format_search_results, needs_web_search, parse_search_directive,
    SearchResult};

fn persona() -> Persona {
    Persona {
        id: 7,
        name: "poet".to_string(),
        prompt: "You write in verse.".to_string(),
        display_name: Some("Calliope".to_string()),
        triggers: Some("verse,poem".to_string()),
        is_active: true,
    }
}

#[test]
fn persona_export_carries_name_and_prompt() {
    let e = PersonaExport::from(persona());
    assert_eq!(e.name, "poet");
    assert_eq!(e.prompt, "You write in verse.");
    assert!(e.description.is_none());
    assert_eq!(e.version, "1.0");
}

#[test]
fn import_validation() {
    let good = PersonaExport {
        name: "a".to_string(),
        prompt: "b".to_string(),
        description: None,
        version: "1.0".to_string(),
    };
    assert!(validate_import(&good).is_ok());
    let bad = PersonaExport {
        name: "".to_string(),
        prompt: "b".to_string(),
        description: None,
        version: "1.0".to_string(),
    };
    match validate_import(&bad) {
        Err(ImportError::ValidationError(m)) => {
            assert_eq!(m, "Name and prompt cannot be empty")
        },
        other => panic!("expected a validation error, got {:?}", other),
    }
}

#[test]
fn import_error_wordings() {
    assert_eq!(
        ImportError::ParseError("bad json".to_string()).describe(),
        "Parse error: bad json"
    );
    assert_eq!(
        ImportError::DatabaseError("locked".to_string()).describe(),
        "Database error: locked"
    );
}

#[test]
fn message_role_wire_words() {
    assert_eq!(MessageRole::System.as_str(), "system");
    assert_eq!(MessageRole::User.as_str(), "user");
    assert_eq!(MessageRole::Assistant.as_str(), "assistant");
}

#[test]
fn chat_settings_defaults() {
    let s = default_chat_settings(-100);
    assert_eq!(s.chat_id, -100);
    assert!(s.auto_reply_enabled);
    assert_eq!(s.reply_mode, "mention_only");
    assert_eq!(s.cooldown_seconds, 5);
    assert_eq!(s.context_depth, 10);
    assert!(s.rag_enabled);
}

#[test]
fn allow_list_semantics() {
    assert!(is_chat_allowed(&vec![], 5));
    assert!(is_chat_allowed(&vec![1, 5, 9], 5));
    assert!(!is_chat_allowed(&vec![1, 9], 5));
}

#[test]
fn old_message_cutoff() {
    assert!(!is_message_too_old(30, 30));
    assert!(is_message_too_old(31, 30));
}

#[test]
fn api_envelopes() {
    let ok: ApiResponse<u64> = ApiResponse::ok(9);
    assert!(ok.success);
    assert_eq!(ok.data, Some(9));
    assert!(ok.error.is_none());
    let err: ApiResponse<u64> = ApiResponse::err("Database error");
    assert!(!err.success);
    assert!(err.data.is_none());
    assert_eq!(err.error.as_deref(), Some("Database error"));
}

#[test]
fn persona_response_mirrors_fields() {
    let r = persona_response(persona());
    assert_eq!(r.id, 7);
    assert_eq!(r.name, "poet");
    assert!(r.is_active);
    assert_eq!(r.display_name.as_deref(), Some("Calliope"));
    assert_eq!(r.triggers.as_deref(), Some("verse,poem"));
}

#[test]
fn persona_request_validation() {
    assert!(persona_request_valid("a", "b"));
    assert!(!persona_request_valid("", "b"));
    assert!(!persona_request_valid("a", ""));
}

#[test]
fn settings_update_merges_only_given_fields() {
    let current = default_chat_settings(3);
    let req = UpdateChatSettingsRequest {
        auto_reply_enabled: Some(false),
        reply_mode: None,
        cooldown_seconds: Some(30),
        context_depth: None,
        rag_enabled: None,
    };
    let merged = apply_chat_settings_update(current, req);
    assert_eq!(merged.chat_id, 3);
    assert!(!merged.auto_reply_enabled);
    assert_eq!(merged.reply_mode, "mention_only");
    assert_eq!(merged.cooldown_seconds, 30);
    assert_eq!(merged.context_depth, 10);
    assert!(merged.rag_enabled);
}

#[test]
fn configuration_defaults() {
    assert_eq!(default_ollama_url(), "http://host.docker.internal:11434");
    assert_eq!(default_ollama_chat_model(), "gemini-3-flash-preview:cloud");
    assert_eq!(default_ollama_embedding_model(), "nomic-embed-text");
    assert_eq!(default_ollama_vision_model(), "llava:latest");
    assert_eq!(default_max_tokens(), 2048);
    assert_eq!(default_bot_name(), "PersonaForge");
    assert_eq!(default_max_concurrent_llm(), Some(3));
    assert_eq!(default_llm_timeout(), 120);
    assert_eq!(default_queue_timeout(), 30);
    assert!(!default_vision_enabled());
    assert!(default_web_search_enabled());
    assert!(!default_voice_enabled());
    assert_eq!(default_whisper_url(), "http://localhost:8080");
    assert_eq!(default_summary_threshold(), 50);
    assert_eq!(default_webapp_port(), 8080);
    assert_eq!(chunk_delimiter(), "||");
    assert_eq!(no_reply_sentinel(), "<IGNORE>");
    let c = PipelineConfig::default();
    assert_eq!(c.debounce_ms, 1500);
    assert_eq!(c.burst_limit, 5);
    assert_eq!(c.burst_window_secs, 60);
    assert_eq!(c.max_concurrent_llm, 3);
    assert_eq!(c.memory_retention_cap, 1000);
}

#[test]
fn search_need_detection_folds_case() {
    // fails if the case folding handed its argument back unchanged
    assert!(needs_web_search("WHAT IS the WEATHER like"));
    assert!(needs_web_search("bitcoin price?"));
    assert!(!needs_web_search("good morning dear"));
}

#[test]
fn search_need_detection_speaks_both_languages() {
    assert!(needs_web_search("какая сегодня погода?"));
    assert!(needs_web_search("СКОЛЬКО стоит билет"));
    assert!(needs_web_search("how to cook rice"));
    // "how" alone is not a trigger: nothing fires inside "show"
    assert!(!needs_web_search("show me that thing"));
}

#[test]
fn search_directive_parsing() {
    assert_eq!(
        parse_search_directive("SEARCH: bitcoin price"),
        Some("bitcoin price".to_string())
    );
    assert_eq!(parse_search_directive("  SEARCH:weather today  "), Some("weather today".to_string()));
    assert_eq!(parse_search_directive("NO"), None);
    assert_eq!(parse_search_directive("I would SEARCH: maybe"), None);
}

#[test]
fn search_results_numbered_block() {
    let results = vec![
        SearchResult {
            title: "Rust".to_string(),
            snippet: "A language.".to_string(),
            url: "u1".to_string(),
        },
        SearchResult {
            title: "Verus".to_string(),
            snippet: "A verifier.".to_string(),
            url: "u2".to_string(),
        },
    ];
    let block = format_search_results(&results);
    assert_eq!(
        block,
        "[You just searched the web and read these results]\n\n1. Rust\nA language.\n\n2. Verus\nA verifier.\n\n"
    );
}

#[test]
fn search_results_empty_is_header_only() {
    let block = format_search_results(&vec![]);
    assert_eq!(block, "[You just searched the web and read these results]\n\n");
}
