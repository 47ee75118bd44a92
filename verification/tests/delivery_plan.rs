//! Chunk planning, sentinel handling, pacing arithmetic, humanization and
//! markup escaping on concrete values.

use persona_forge::delivery::{adjusted_reply_probability, calculate_response_delay,
    calculate_typing_duration, chunk_pause_ms, decide_use_reply, distracted_pause_secs,
    distracted_typing_secs, is_distracted, plan_delivery, sticker_reaction, userbot_should_reply};
use persona_forge::humanize::apply_human_behavior_rules;
use persona_forge::markdown::escape_markdown_v2;

#[test]
fn three_chunks_in_order_first_threaded() {
    let p = plan_delivery("hello||how are you||bye", "||", "<IGNORE>", true);
    assert_eq!(
        p.chunks,
        vec!["hello".to_string(), "how are you".to_string(), "bye".to_string()]
    );
    assert!(p.reply_to_first);
}

#[test]
fn chunks_not_threaded_without_reply() {
    let p = plan_delivery("hello||bye", "||", "<IGNORE>", false);
    assert_eq!(p.chunks.len(), 2);
    assert!(!p.reply_to_first);
}

#[test]
fn sentinel_reply_aborts_silently() {
    let p = plan_delivery("<IGNORE>", "||", "<IGNORE>", true);
    assert!(p.chunks.is_empty());
    assert!(!p.reply_to_first);
}

#[test]
fn sentinel_survives_surrounding_whitespace() {
    let p = plan_delivery("  <IGNORE>\n", "||", "<IGNORE>", true);
    assert!(p.chunks.is_empty());
}

#[test]
fn sentinel_and_empty_pieces_are_dropped() {
    let p = plan_delivery("hi|| <IGNORE> ||  ||yo", "||", "<IGNORE>", true);
    assert_eq!(p.chunks, vec!["hi".to_string(), "yo".to_string()]);
}

#[test]
fn all_pieces_dropped_means_nothing_to_send() {
    let p = plan_delivery("<IGNORE>|| ||<IGNORE>", "||", "<IGNORE>", true);
    assert!(p.chunks.is_empty());
    assert!(!p.reply_to_first);
}

#[test]
fn pieces_are_trimmed() {
    let p = plan_delivery("  one  ||  two  ", "||", "<IGNORE>", false);
    assert_eq!(p.chunks, vec!["one".to_string(), "two".to_string()]);
}

#[test]
fn typing_duration_exact_values() {
    // 100 chars at 600 cpm: ten seconds base, a fifth of variance
    assert_eq!(calculate_typing_duration(100, 600, 0), 8);  // lowest jitter
    assert_eq!(calculate_typing_duration(100, 600, 2), 10);  // middle
    assert_eq!(calculate_typing_duration(100, 600, 4), 12);  // highest
}

#[test]
fn typing_duration_clamps_to_one_and_thirty() {
    assert_eq!(calculate_typing_duration(1, 600, 0), 1);
    assert_eq!(calculate_typing_duration(100_000, 60, 0), 30);
}

#[test]
fn response_delay_exact_values() {
    // base two to ten seconds plus one reading second per hundred chars
    assert_eq!(calculate_response_delay(2, 10, 250, 0), 4);
    assert_eq!(calculate_response_delay(2, 10, 250, 8), 12);
    assert_eq!(calculate_response_delay(2, 10, 0, 9), 2);  // 9 % 9 == 0
}

#[test]
fn chunk_pause_bounds() {
    assert_eq!(chunk_pause_ms(0), 500);
    assert_eq!(chunk_pause_ms(1000), 1500);
    assert_eq!(chunk_pause_ms(1001), 500);
}

#[test]
fn distracted_detour_draws() {
    assert!(!is_distracted(20));
    assert!(is_distracted(19));
    assert_eq!(distracted_typing_secs(0), 2);
    assert_eq!(distracted_typing_secs(2), 4);
    assert_eq!(distracted_pause_secs(0), 3);
    assert_eq!(distracted_pause_secs(7), 10);
}

#[test]
fn sticker_probability_is_quartered() {
    assert_eq!(adjusted_reply_probability(40, true), 10);
    assert_eq!(adjusted_reply_probability(40, false), 40);
}

#[test]
fn userbot_reply_decision() {
    // a private chat configured to always answer does so regardless
    assert!(userbot_should_reply(true, true, 0, 99));
    // otherwise the drawn percentage decides
    assert!(userbot_should_reply(false, true, 50, 49));
    assert!(!userbot_should_reply(false, true, 50, 50));
}

#[test]
fn use_reply_decision() {
    assert!(!decide_use_reply(true, true, 100, 0));
    assert!(decide_use_reply(false, true, 0, 99));
    // halved probability for non-dialogue messages
    assert!(decide_use_reply(false, false, 100, 49));
    assert!(!decide_use_reply(false, false, 100, 50));
}

#[test]
fn sticker_reactions_cycle() {
    assert_eq!(sticker_reaction(0), "ахах");
    assert_eq!(sticker_reaction(1), "жиза");
    assert_eq!(sticker_reaction(5), "хд");
    assert_eq!(sticker_reaction(6), "ахах");
}

#[test]
fn humanize_softens_bot_talk() {
    let out = apply_human_behavior_rules("Sure, I am a bot.".to_string(), "Nova");
    assert_eq!(out, "I am an AI assistant.");
}

#[test]
fn humanize_replaces_own_name_introduction() {
    let out = apply_human_behavior_rules("I'm Nova, hi".to_string(), "Nova");
    assert_eq!(out, "Hi, I'm an AI, hi");
}

#[test]
fn humanize_drops_leading_yes() {
    let out = apply_human_behavior_rules("Yes, that works".to_string(), "Nova");
    assert_eq!(out, "that works");
}

#[test]
fn humanize_rewords_personal_data() {
    let out = apply_human_behavior_rules("I avoid personal data".to_string(), "Nova");
    assert_eq!(out, "I avoid private details");
}

#[test]
fn humanize_replaces_later_name_mentions() {
    let out = apply_human_behavior_rules("ask Nova about it".to_string(), "Nova");
    assert_eq!(out, "ask I about it");
}

#[test]
fn escape_plain_specials() {
    assert_eq!(escape_markdown_v2("hello."), "hello\\.");
    assert_eq!(escape_markdown_v2("a+b=c!"), "a\\+b\\=c\\!");
}

#[test]
fn escape_keeps_bold_markers_and_escapes_contents() {
    assert_eq!(escape_markdown_v2("*bold.* rest."), "*bold\\.* rest\\.");
    assert_eq!(escape_markdown_v2("**hi.** x"), "**hi\\.** x");
}

#[test]
fn escape_keeps_italic_markers() {
    assert_eq!(escape_markdown_v2("_a.b_"), "_a\\.b_");
}

#[test]
fn escape_copies_code_untouched() {
    assert_eq!(escape_markdown_v2("`x.y`"), "`x.y`");
    assert_eq!(escape_markdown_v2("```a.b``` x."), "```a.b``` x\\.");
}

#[test]
fn escape_leaves_unmatched_markers_alone() {
    assert_eq!(escape_markdown_v2("a*b"), "a*b");
    assert_eq!(escape_markdown_v2("5 _ 6."), "5 _ 6\\.");
}

#[test]
fn escape_italic_does_not_cross_lines() {
    assert_eq!(escape_markdown_v2("_a\nb_"), "_a\nb_");
}

#[test]
fn escape_empty_is_empty() {
    assert_eq!(escape_markdown_v2(""), "");
}
