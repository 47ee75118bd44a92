//! One whole reply turn through the pipeline, plus prompt assembly and the
//! randomness gate.

use persona_forge::config::PipelineConfig;
use persona_forge::debounce::{ConvKey, FlushOutcome, SubmitOutcome};
use persona_forge::delivery::calculate_typing_duration;
use persona_forge::entropy::{draw_below, draw_micro, draw_percent};
use persona_forge::memory::{Embedding, MemoryChunk};
use persona_forge::pipeline::{GateDecision, ReplyPipeline};
use persona_forge::prompt::{build_chat_messages, build_prompt, OllamaChatRequest, OllamaMessage,
    Turn};
use persona_forge::trigger::{ReplySignal, TriggerContext};
use persona_forge::SCALE;

fn chars(s: &str) -> Vec<char> {
    s.chars().collect()
}

fn plain_group_ctx(text: &str) -> TriggerContext {
    TriggerContext {
        is_private: false,
        is_reply_to_bot: false,
        text_lower: chars(&text.to_lowercase()),
        text_raw: chars(text),
        effective_name_lower: chars("nova"),
        bot_name_lower: chars("personaforge"),
        handle: None,
        chat_keywords: vec![],
        persona_keywords: vec![],
    }
}

#[test]
fn full_turn_with_active_persona() {
    let config = PipelineConfig::default();
    let window = config.debounce_ms;
    let mut pipeline = ReplyPipeline::new(config);
    let key = ConvKey { chat_id: 11, thread_id: None };

    // one memory from an earlier turn
    pipeline.remember(MemoryChunk {
        conversation_id: 11,
        text: "likes short answers".to_string(),
        embedding: Embedding::new(vec![1_000_000, 0]).unwrap(),
        created_at: 0,
        importance: SCALE,
    });

    // inbound "hi" opens a batch; the window passes; the batch flushes
    let outcome = pipeline.on_message(key, "hi".to_string(), 10_000, Some(5), "Ann".to_string());
    assert_eq!(outcome, SubmitOutcome::FirstPending);
    let flushed = match pipeline.after_debounce(key, 10_000 + window) {
        FlushOutcome::Flushed(t) => t,
        other => panic!("expected a flush, got {:?}", other),
    };
    assert_eq!(flushed, "hi");

    // all-messages mode with probability one: the gates admit a cold start
    let ctx = plain_group_ctx(&flushed);
    let decision = pipeline.gate_turn(&ctx, true, SCALE, 123, 5, 11, 5, 100);
    match decision {
        GateDecision::Proceed(sig) => assert_eq!(sig, ReplySignal::RandomDraw),
        other => panic!("expected to proceed, got {:?}", other),
    }

    // retrieval returns at most three chunks
    let query = Embedding::new(vec![1_000_000, 0]).unwrap();
    let memories = pipeline.retrieve_memories(11, &query, 3, 100);
    assert_eq!(memories, vec!["likes short answers".to_string()]);

    // the prompt names the persona and carries the memory block
    let history = vec![Turn { speaker: "Ann".to_string(), text: flushed.clone() }];
    let prompt = build_prompt("You are Nova".to_string(), memories, history, "Nova");
    assert!(prompt.contains("You are Nova"));
    assert!(prompt.contains("### Relevant Past Memories (for context):\n"));
    assert!(prompt.contains("- likes short answers\n"));
    assert!(prompt.contains("Ann: hi\n"));
    assert!(prompt.ends_with("Nova: "));

    // admission, completion, statistics
    assert!(pipeline.begin_inference());
    pipeline.finish_inference(true, 250);

    // the reply goes out as one chunk, threaded onto the inbound message
    let plan = pipeline.plan("hey there", true);
    assert_eq!(plan.chunks, vec!["hey there".to_string()]);
    assert!(plan.reply_to_first);
}

#[test]
fn gate_turn_suppresses_in_order() {
    let mut pipeline = ReplyPipeline::new(PipelineConfig::default());
    // no signal at all: declined before any state is touched
    let quiet = plain_group_ctx("nothing special");
    match pipeline.gate_turn(&quiet, false, 0, 0, 5, 11, 5, 0) {
        GateDecision::Declined => {},
        other => panic!("expected a declined turn, got {:?}", other),
    }
    // fill the user's window: the burst gate rejects the sixth attempt
    for k in 0..5u64 {
        let ctx = plain_group_ctx("hello");
        match pipeline.gate_turn(&ctx, true, SCALE, 0, 5, (20 + k) as i64, 0, k) {
            GateDecision::Proceed(_) => {},
            other => panic!("expected attempt {} to pass, got {:?}", k, other),
        }
    }
    let ctx = plain_group_ctx("hello");
    match pipeline.gate_turn(&ctx, true, SCALE, 0, 5, 99, 0, 6) {
        GateDecision::RateLimited => {},
        other => panic!("expected the burst gate to reject, got {:?}", other),
    }
    // a different user in a cooling conversation is suppressed by cooldown
    let ctx2 = plain_group_ctx("hello");
    match pipeline.gate_turn(&ctx2, true, SCALE, 0, 6, 20, 60, 1) {
        GateDecision::CoolingDown => {},
        other => panic!("expected cooldown, got {:?}", other),
    }
}

#[test]
fn extended_wait_then_forced_flush() {
    let config = PipelineConfig::default();
    let window = config.debounce_ms;
    let mut pipeline = ReplyPipeline::new(config);
    let key = ConvKey { chat_id: 3, thread_id: Some(8) };
    pipeline.on_message(key, "one".to_string(), 0, None, "u".to_string());
    // a late arrival keeps the batch fresh
    pipeline.on_message(key, "two".to_string(), window - 1, None, "u".to_string());
    match pipeline.after_debounce(key, window) {
        FlushOutcome::ExtendWait => {},
        other => panic!("expected an extended wait, got {:?}", other),
    }
    // the extension also times out: the batch is force-flushed whole
    assert_eq!(pipeline.force_flush(key), Some("one\ntwo".to_string()));
    assert_eq!(pipeline.force_flush(key), None);
}

#[test]
fn chat_messages_order() {
    let history = vec![
        OllamaMessage { role: "user".to_string(), content: "earlier".to_string() },
        OllamaMessage { role: "assistant".to_string(), content: "reply".to_string() },
    ];
    let msgs = build_chat_messages(
        "be dry".to_string(),
        Some("[memories]".to_string()),
        None,
        history,
        "now".to_string(),
    );
    let pairs: Vec<(String, String)> =
        msgs.iter().map(|m| (m.role.clone(), m.content.clone())).collect();
    assert_eq!(
        pairs,
        vec![
            ("system".to_string(), "be dry".to_string()),
            ("system".to_string(), "[memories]".to_string()),
            ("user".to_string(), "earlier".to_string()),
            ("assistant".to_string(), "reply".to_string()),
            ("user".to_string(), "now".to_string()),
        ]
    );
    let req = OllamaChatRequest { model: "m".to_string(), messages: msgs, stream: true };
    assert_eq!(req.messages.len(), 5);
    assert!(req.stream);
}

#[test]
fn memory_context_block_is_numbered() {
    let block = persona_forge::prompt::format_memory_context(&vec![
        "prefers tea".to_string(),
        "plays chess".to_string(),
    ])
    .expect("non-empty memories yield a block");
    assert_eq!(
        block,
        "[ВСПЛЫВШИЕ ВОСПОМИНАНИЯ О ПРОШЛЫХ ДИАЛОГАХ]\n\n1. prefers tea\n2. plays chess\n"
    );
}

#[test]
fn memory_context_is_absent_without_memories() {
    assert!(persona_forge::prompt::format_memory_context(&vec![]).is_none());
}

#[test]
fn prompt_without_memories_has_no_memory_block() {
    let prompt = build_prompt("You are Nova".to_string(), vec![], vec![], "Nova");
    assert!(!prompt.contains("Relevant Past Memories"));
    assert!(prompt.ends_with("Nova: "));
}

#[test]
fn draws_stay_in_range() {
    for _ in 0..200 {
        assert!(draw_below(7) < 7);
        assert!(draw_micro() < SCALE);
        assert!(draw_percent() < 100);
    }
}

#[test]
fn drawn_typing_time_stays_clamped() {
    for _ in 0..100 {
        let roll = draw_below(1_000_000);
        let secs = calculate_typing_duration(500, 900, roll);
        assert!((1..=30).contains(&secs));
    }
}

#[test]
fn history_buffer_evicts_oldest_past_depth() {
    let mut history: Vec<Turn> = Vec::new();
    for (who, what) in [("a", "1"), ("b", "2"), ("c", "3")] {
        persona_forge::prompt::add_message_to_history(
            &mut history,
            Turn { speaker: who.to_string(), text: what.to_string() },
            2,
        );
    }
    let kept: Vec<(String, String)> =
        history.iter().map(|t| (t.speaker.clone(), t.text.clone())).collect();
    assert_eq!(
        kept,
        vec![("b".to_string(), "2".to_string()), ("c".to_string(), "3".to_string())]
    );
}
