//! Trigger precedence, rate limits and debounce behavior on concrete
//! values.

use persona_forge::debounce::{ConvKey, DebounceAggregator, FlushOutcome, SubmitOutcome};
use persona_forge::rate::RateGate;
use persona_forge::trigger::{parse_keywords, reply_signal, should_reply, ReplySignal,
    TriggerContext};
use persona_forge::SCALE;

fn chars(s: &str) -> Vec<char> {
    s.chars().collect()
}

fn ctx(
    is_private: bool,
    is_reply_to_bot: bool,
    text: &str,
    effective_name: &str,
    bot_name: &str,
    handle: Option<&str>,
    chat_keywords: Vec<&str>,
    persona_keywords: Vec<&str>,
) -> TriggerContext {
    TriggerContext {
        is_private,
        is_reply_to_bot,
        text_lower: chars(&text.to_lowercase()),
        text_raw: chars(text),
        effective_name_lower: chars(&effective_name.to_lowercase()),
        bot_name_lower: chars(&bot_name.to_lowercase()),
        handle: handle.map(chars),
        chat_keywords: chat_keywords.into_iter().map(chars).collect(),
        persona_keywords: persona_keywords.into_iter().map(chars).collect(),
    }
}

#[test]
fn private_chat_overrides_probability_zero() {
    // mention-only mode, probability zero: a private chat still replies
    let c = ctx(true, false, "anything", "nova", "bot", None, vec![], vec![]);
    assert!(should_reply(&c, false, 0, 0));
    assert_eq!(reply_signal(&c, false, 0, 0), Some(ReplySignal::Private));
}

#[test]
fn private_chat_overrides_all_messages_mode_too() {
    let c = ctx(true, false, "hi", "nova", "bot", None, vec![], vec![]);
    assert_eq!(reply_signal(&c, true, 0, 999_999), Some(ReplySignal::Private));
}

#[test]
fn reply_to_bot_beats_mention() {
    let c = ctx(false, true, "hey nova", "nova", "bot", None, vec![], vec![]);
    assert_eq!(reply_signal(&c, false, 0, 0), Some(ReplySignal::ReplyToBot));
}

#[test]
fn mention_by_display_name() {
    let c = ctx(false, false, "Nova, are you there?", "Nova", "bot", None, vec![], vec![]);
    assert_eq!(reply_signal(&c, false, 0, 0), Some(ReplySignal::Mention));
}

#[test]
fn mention_by_handle_is_case_sensitive() {
    let c = ctx(false, false, "ping @nova_bot", "zzz", "yyy", Some("@nova_bot"), vec![], vec![]);
    assert_eq!(reply_signal(&c, false, 0, 0), Some(ReplySignal::Mention));
    let c2 = ctx(false, false, "ping @NOVA_bot", "zzz", "yyy", Some("@nova_bot"), vec![], vec![]);
    assert_eq!(reply_signal(&c2, false, 0, 0), None);
}

#[test]
fn keyword_trigger_fires() {
    let c = ctx(false, false, "can you help me", "zzz", "yyy", None, vec!["help"], vec![]);
    assert_eq!(reply_signal(&c, false, 0, 0), Some(ReplySignal::KeywordTrigger));
}

#[test]
fn persona_keyword_trigger_fires() {
    let c = ctx(false, false, "advise me", "zzz", "yyy", None, vec![], vec!["advise"]);
    assert_eq!(reply_signal(&c, false, 0, 0), Some(ReplySignal::KeywordTrigger));
}

#[test]
fn probability_edges_in_all_messages_mode() {
    let c = ctx(false, false, "plain text", "zzz", "yyy", None, vec![], vec![]);
    // probability zero never replies
    assert_eq!(reply_signal(&c, true, 0, 0), None);
    // a whole unit or more always replies
    let c2 = ctx(false, false, "plain text", "zzz", "yyy", None, vec![], vec![]);
    assert_eq!(reply_signal(&c2, true, SCALE, SCALE - 1), Some(ReplySignal::RandomDraw));
    // between the two the draw decides
    let c3 = ctx(false, false, "plain text", "zzz", "yyy", None, vec![], vec![]);
    assert_eq!(reply_signal(&c3, true, 500_000, 499_999), Some(ReplySignal::RandomDraw));
    let c4 = ctx(false, false, "plain text", "zzz", "yyy", None, vec![], vec![]);
    assert_eq!(reply_signal(&c4, true, 500_000, 500_000), None);
}

#[test]
fn mention_only_without_signal_declines() {
    let c = ctx(false, false, "plain text", "zzz", "yyy", None, vec![], vec![]);
    assert!(!should_reply(&c, false, SCALE, 0));
}

#[test]
fn keywords_parse_trimmed_lowered_nonempty() {
    let kws = parse_keywords("Help , , ADVISE,  hey ");
    let words: Vec<String> = kws.iter().map(|k| k.iter().collect()).collect();
    assert_eq!(words, vec!["help".to_string(), "advise".to_string(), "hey".to_string()]);
}

#[test]
fn burst_limit_boundary() {
    let mut gate = RateGate::new(5, 60);
    // five replies within the window are admitted
    assert!(gate.allow_user(7, 0));
    assert!(gate.allow_user(7, 10));
    assert!(gate.allow_user(7, 20));
    assert!(gate.allow_user(7, 30));
    assert!(gate.allow_user(7, 40));
    // the sixth within sixty seconds of the first is rejected
    assert!(!gate.allow_user(7, 50));
    // after the first stamp has aged past the window, a slot is free
    assert!(gate.allow_user(7, 61));
    // another user is not affected
    assert!(gate.allow_user(8, 50));
}

#[test]
fn cooldown_is_atomic_check_and_stamp() {
    let mut gate = RateGate::new(5, 60);
    assert!(gate.allow(42, 100, 5));
    // still cooling down
    assert!(!gate.allow(42, 102, 5));
    // the rejected attempt did not restamp: five seconds after the first
    assert!(gate.allow(42, 105, 5));
    // a different conversation has its own cooldown
    assert!(gate.allow(43, 102, 5));
}

#[test]
fn debounce_burst_collects_and_flushes_once() {
    let mut agg = DebounceAggregator::new();
    let key = ConvKey { chat_id: 5, thread_id: None };
    assert_eq!(
        agg.submit(key, "a".to_string(), 0, Some(1), "u".to_string()),
        SubmitOutcome::FirstPending
    );
    assert_eq!(
        agg.submit(key, "b".to_string(), 100, Some(1), "u".to_string()),
        SubmitOutcome::AlreadyPending
    );
    assert_eq!(
        agg.submit(key, "c".to_string(), 200, Some(1), "u".to_string()),
        SubmitOutcome::AlreadyPending
    );
    // too fresh: the wait is extended
    match agg.try_flush(key, 200 + 749, 1500) {
        FlushOutcome::ExtendWait => {},
        other => panic!("expected an extended wait, got {:?}", other),
    }
    // old enough: the batch is consumed, newline-joined in arrival order
    match agg.try_flush(key, 200 + 750, 1500) {
        FlushOutcome::Flushed(t) => assert_eq!(t, "a\nb\nc"),
        other => panic!("expected a flush, got {:?}", other),
    }
    // exactly once: a second attempt finds nothing
    match agg.try_flush(key, 2000, 1500) {
        FlushOutcome::NotFound => {},
        other => panic!("expected nothing left, got {:?}", other),
    }
}

#[test]
fn debounce_threads_are_separate_conversations() {
    let mut agg = DebounceAggregator::new();
    let a = ConvKey { chat_id: 5, thread_id: Some(1) };
    let b = ConvKey { chat_id: 5, thread_id: Some(2) };
    assert_eq!(
        agg.submit(a, "x".to_string(), 0, None, "u".to_string()),
        SubmitOutcome::FirstPending
    );
    assert_eq!(
        agg.submit(b, "y".to_string(), 0, None, "u".to_string()),
        SubmitOutcome::FirstPending
    );
    match agg.try_flush(a, 10_000, 1500) {
        FlushOutcome::Flushed(t) => assert_eq!(t, "x"),
        other => panic!("expected a flush, got {:?}", other),
    }
    match agg.force_flush(b) {
        Some(t) => assert_eq!(t, "y"),
        None => panic!("expected the second thread's batch"),
    }
}

#[test]
fn force_flush_takes_fresh_batches() {
    let mut agg = DebounceAggregator::new();
    let key = ConvKey { chat_id: 9, thread_id: None };
    agg.submit(key, "only".to_string(), 0, None, "u".to_string());
    // even a fresh batch is consumed by the forced flush
    assert_eq!(agg.force_flush(key), Some("only".to_string()));
    assert_eq!(agg.force_flush(key), None);
}
