//! Admission control, queue statistics, session metrics and log-spam
//! suppression on concrete values.

use persona_forge::metrics::{log_embedding, log_vision_analysis, Metrics, SpamTracker};
use persona_forge::queue::{record_queue_timeout, update_queue_stats, AdmissionGate, LlmError,
    QueueStats};

#[test]
fn admission_bound_under_load() {
    // three permits, seven callers: at most three ever hold one
    let mut gate = AdmissionGate::new(3);
    let mut holders = 0;
    for _ in 0..7 {
        if gate.try_acquire() {
            holders += 1;
        }
    }
    assert_eq!(holders, 3);
    // an excess caller is queued, not rejected for good: a release frees a
    // permit and the next ask succeeds
    assert!(!gate.try_acquire());
    gate.release();
    assert!(gate.try_acquire());
}

#[test]
fn zero_limit_admits_nobody() {
    let mut gate = AdmissionGate::new(0);
    assert!(!gate.try_acquire());
}

#[test]
fn stats_rolling_average_exact() {
    let mut stats = QueueStats::new();
    update_queue_stats(&mut stats, true, 100);
    assert_eq!(stats.total_requests, 1);
    assert_eq!(stats.successful_requests, 1);
    assert_eq!(stats.avg_response_time_ms, 100);
    update_queue_stats(&mut stats, false, 200);
    assert_eq!(stats.total_requests, 2);
    assert_eq!(stats.successful_requests, 1);
    assert_eq!(stats.failed_requests, 1);
    // (100 * 1 + 200) / 2
    assert_eq!(stats.avg_response_time_ms, 150);
    update_queue_stats(&mut stats, true, 40);
    // (150 * 2 + 40) / 3
    assert_eq!(stats.avg_response_time_ms, 113);
}

#[test]
fn queue_timeouts_counted_apart() {
    let mut stats = QueueStats::default();
    record_queue_timeout(&mut stats);
    assert_eq!(stats.queue_timeouts, 1);
    assert_eq!(stats.total_requests, 0);
}

#[test]
fn llm_error_wordings() {
    assert_eq!(LlmError::Timeout.describe(), "Request timed out");
    assert_eq!(LlmError::QueueFull.describe(), "Queue is full, try again later");
    assert_eq!(
        LlmError::Network("refused".to_string()).describe(),
        "Network error: refused"
    );
    assert_eq!(
        LlmError::InvalidResponse("HTTP 500".to_string()).describe(),
        "Invalid response: HTTP 500"
    );
}

#[test]
fn metrics_counters_and_averages() {
    let mut m = Metrics::new(0);
    m.record_llm_request(100);
    m.record_llm_request(200);
    assert_eq!(m.llm_requests, 2);
    assert_eq!(m.avg_llm_time_ms(), 150);
    assert_eq!(m.avg_embedding_time_ms(), 0);
    log_embedding(&mut m, 30);
    log_embedding(&mut m, 50);
    assert_eq!(m.embeddings_generated, 2);
    assert_eq!(m.avg_embedding_time_ms(), 40);
    log_vision_analysis(&mut m, 500, 3);
    assert_eq!(m.vision_analyses, 1);
}

#[test]
fn uptime_wording() {
    let m = Metrics::new(0);
    assert_eq!(m.format_uptime(5_000), "5s");
    assert_eq!(m.format_uptime(62_000), "1m 2s");
    assert_eq!(m.format_uptime(3_723_000), "1h 2m 3s");
    assert_eq!(m.format_uptime(0), "0s");
}

#[test]
fn spam_tracker_suppresses_repeats() {
    let mut t = SpamTracker::new();
    assert_eq!(t.should_log("embedding", 0), Some(1));
    assert_eq!(t.should_log("embedding", 1_000), Some(2));
    assert_eq!(t.should_log("embedding", 2_000), Some(3));
    // past the allowance inside the window: silenced
    assert_eq!(t.should_log("embedding", 3_000), None);
    // once the window has passed, the suppressed streak is reported once
    assert_eq!(t.should_log("embedding", 9_001), Some(4));
    // and counting restarts
    assert_eq!(t.should_log("embedding", 9_002), Some(2));
    // a different key is independent
    assert_eq!(t.should_log("vision", 3_000), Some(1));
}

#[test]
fn spam_tracker_forgets_long_stale_entries() {
    let mut t = SpamTracker::new();
    assert_eq!(t.should_log("k", 0), Some(1));
    assert_eq!(t.should_log("k", 100), Some(2));
    assert_eq!(t.should_log("k", 200), Some(3));
    assert_eq!(t.should_log("k", 300), None);
    // twice the window later the entry is treated as gone
    assert_eq!(t.should_log("k", 10_301), Some(1));
}
