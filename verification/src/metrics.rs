//! Process-wide counters for messages, inference calls, embeddings and
//! errors, and the suppression of repeated log lines.
//!
//! The clock is injected: callers pass the current time in milliseconds.

use vstd::prelude::*;
use crate::text::{dec_spec, u64_to_dec, string_of, push_all};
use crate::debounce::elapsed_spec;

verus! {

/// One more, capped at the counter's ceiling.
pub open spec fn bump(x: u64) -> u64 {
    if x < u64::MAX {
        (x + 1) as u64
    } else {
        x
    }
}

/// A sum that stops at the counter's ceiling instead of wrapping.
pub open spec fn add_capped(x: u64, y: u64) -> u64 {
    if x + y <= u64::MAX {
        (x + y) as u64
    } else {
        u64::MAX
    }
}

fn bump_counter(x: u64) -> (r: u64)
    ensures
        r == bump(x),
{
    if x < u64::MAX {
        x + 1
    } else {
        x
    }
}

fn add_counter(x: u64, y: u64) -> (r: u64)
    ensures
        r == add_capped(x, y),
{
    if u64::MAX - x >= y {
        x + y
    } else {
        u64::MAX
    }
}

/// Session counters, kept since the start stamp handed to `new`.
pub struct Metrics {
    pub messages_processed: u64,
    pub llm_requests: u64,
    pub llm_total_time_ms: u64,
    pub embeddings_generated: u64,
    pub embeddings_total_time_ms: u64,
    pub voice_transcriptions: u64,
    pub vision_analyses: u64,
    pub web_searches: u64,
    pub errors: u64,
    pub started_at_ms: u64,
}

impl Metrics {
    /// Fresh counters, started at the given moment.
    pub fn new(now_ms: u64) -> (r: Self)
        ensures
            r.messages_processed == 0,
            r.llm_requests == 0,
            r.llm_total_time_ms == 0,
            r.embeddings_generated == 0,
            r.embeddings_total_time_ms == 0,
            r.voice_transcriptions == 0,
            r.vision_analyses == 0,
            r.web_searches == 0,
            r.errors == 0,
            r.started_at_ms == now_ms,
    {
        Metrics {
            messages_processed: 0,
            llm_requests: 0,
            llm_total_time_ms: 0,
            embeddings_generated: 0,
            embeddings_total_time_ms: 0,
            voice_transcriptions: 0,
            vision_analyses: 0,
            web_searches: 0,
            errors: 0,
            started_at_ms: now_ms,
        }
    }

    /// Counts one inference call and folds in its duration.
    pub fn record_llm_request(&mut self, duration_ms: u64)
        ensures
            final(self).llm_requests == bump(old(self).llm_requests),
            final(self).llm_total_time_ms == add_capped(old(self).llm_total_time_ms, duration_ms),
            *final(self) == (Metrics {
                llm_requests: final(self).llm_requests,
                llm_total_time_ms: final(self).llm_total_time_ms,
                ..*old(self)
            }),
    {
        self.llm_requests = bump_counter(self.llm_requests);
        self.llm_total_time_ms = add_counter(self.llm_total_time_ms, duration_ms);
    }

    /// Counts one embedding call and folds in its duration.
    pub fn record_embedding(&mut self, duration_ms: u64)
        ensures
            final(self).embeddings_generated == bump(old(self).embeddings_generated),
            final(self).embeddings_total_time_ms == add_capped(
                old(self).embeddings_total_time_ms,
                duration_ms,
            ),
            *final(self) == (Metrics {
                embeddings_generated: final(self).embeddings_generated,
                embeddings_total_time_ms: final(self).embeddings_total_time_ms,
                ..*old(self)
            }),
    {
        self.embeddings_generated = bump_counter(self.embeddings_generated);
        self.embeddings_total_time_ms = add_counter(self.embeddings_total_time_ms, duration_ms);
    }

    /// The average inference time: total time over the number of calls,
    /// zero while nothing was recorded.
    pub fn avg_llm_time_ms(&self) -> (r: u64)
        ensures
            self.llm_requests == 0 ==> r == 0,
            self.llm_requests > 0 ==> r == self.llm_total_time_ms as int / self.llm_requests
                as int,
    {
        if self.llm_requests == 0 {
            0
        } else {
            self.llm_total_time_ms / self.llm_requests
        }
    }

    /// The average embedding time: total time over the count, zero while
    /// nothing was recorded.
    pub fn avg_embedding_time_ms(&self) -> (r: u64)
        ensures
            self.embeddings_generated == 0 ==> r == 0,
            self.embeddings_generated > 0 ==> r == self.embeddings_total_time_ms as int
                / self.embeddings_generated as int,
    {
        if self.embeddings_generated == 0 {
            0
        } else {
            self.embeddings_total_time_ms / self.embeddings_generated
        }
    }

    /// Renders the uptime, as `uptime_spec` describes it.
    pub fn format_uptime(&self, now_ms: u64) -> (r: String)
        ensures
            r@ == uptime_spec(self.started_at_ms, now_ms),
    {
        proof {
            reveal_strlit("h ");
            reveal_strlit("m ");
            reveal_strlit("s");
        }
        let elapsed = if now_ms >= self.started_at_ms {
            now_ms - self.started_at_ms
        } else {
            0
        };
        let secs = elapsed / 1000;
        let hours = secs / 3600;
        let mins = (secs % 3600) / 60;
        let rest = secs % 60;
        let mut v: Vec<char> = Vec::new();
        if hours > 0 {
            let h = u64_to_dec(hours);
            push_all(&mut v, &h);
            v.push('h');
            v.push(' ');
            let m = u64_to_dec(mins);
            push_all(&mut v, &m);
            v.push('m');
            v.push(' ');
            let s = u64_to_dec(rest);
            push_all(&mut v, &s);
            v.push('s');
            proof {
                assert(v@ =~= uptime_spec(self.started_at_ms, now_ms));
            }
        } else if mins > 0 {
            let m = u64_to_dec(mins);
            push_all(&mut v, &m);
            v.push('m');
            v.push(' ');
            let s = u64_to_dec(rest);
            push_all(&mut v, &s);
            v.push('s');
            proof {
                assert(v@ =~= uptime_spec(self.started_at_ms, now_ms));
            }
        } else {
            let s = u64_to_dec(rest);
            push_all(&mut v, &s);
            v.push('s');
            proof {
                assert(v@ =~= uptime_spec(self.started_at_ms, now_ms));
            }
        }
        string_of(&v)
    }
}

/// The uptime wording: hours, minutes and seconds, with the leading parts
/// left out while they are zero.
pub open spec fn uptime_spec(started_at_ms: u64, now_ms: u64) -> Seq<char> {
    let secs = elapsed_spec(now_ms, started_at_ms) as int / 1000;
    let hours = secs / 3600;
    let mins = (secs % 3600) / 60;
    let rest = secs % 60;
    if hours > 0 {
        dec_spec(hours as nat) + "h "@ + dec_spec(mins as nat) + "m "@ + dec_spec(rest as nat)
            + "s"@
    } else if mins > 0 {
        dec_spec(mins as nat) + "m "@ + dec_spec(rest as nat) + "s"@
    } else {
        dec_spec(rest as nat) + "s"@
    }
}

/// Counts one embedding call on the shared metrics.
pub fn log_embedding(metrics: &mut Metrics, duration_ms: u64)
    ensures
        final(metrics).embeddings_generated == bump(old(metrics).embeddings_generated),
        final(metrics).embeddings_total_time_ms == add_capped(
            old(metrics).embeddings_total_time_ms,
            duration_ms,
        ),
        *final(metrics) == (Metrics {
            embeddings_generated: final(metrics).embeddings_generated,
            embeddings_total_time_ms: final(metrics).embeddings_total_time_ms,
            ..*old(metrics)
        }),
{
    metrics.record_embedding(duration_ms);
}

/// Counts one vision analysis on the shared metrics.
pub fn log_vision_analysis(metrics: &mut Metrics, duration_ms: u64, frame_count: usize)
    ensures
        final(metrics).vision_analyses == bump(old(metrics).vision_analyses),
        *final(metrics) == (Metrics {
            vision_analyses: final(metrics).vision_analyses,
            ..*old(metrics)
        }),
{
    let _ = duration_ms;
    let _ = frame_count;
    metrics.vision_analyses = bump_counter(metrics.vision_analyses);
}

/// Suppresses repeats of one log line: within the window a line may repeat
/// only a few times; once the window has passed it may speak again.
///
/// Entries are reset in place when they go stale; nothing is swept, so a
/// key's decision depends on that key's entry alone.
pub struct SpamTracker {
    entries: Vec<(String, u64, u32)>,
    window_ms: u64,
    max_repeats: u32,
}

spec fn entry_of_seq(s: Seq<(String, u64, u32)>, k: Seq<char>) -> Option<(u64, u32)>
    decreases s.len(),
{
    if s.len() == 0 {
        None
    } else if s.first().0@ == k {
        Some((s.first().1, s.first().2))
    } else {
        entry_of_seq(s.drop_first(), k)
    }
}

proof fn lemma_entry_first_match(s: Seq<(String, u64, u32)>, i: int, k: Seq<char>)
    requires
        0 <= i < s.len(),
        s[i].0@ == k,
        forall|j: int| 0 <= j < i ==> (#[trigger] s[j]).0@ != k,
    ensures
        entry_of_seq(s, k) == Some((s[i].1, s[i].2)),
    decreases i,
{
    if i == 0 {
        assert(s.first() == s[0]);
    } else {
        assert(s.first().0@ != k);
        assert(forall|j: int| 0 <= j < i - 1 ==> s.drop_first()[j] == s[j + 1]);
        assert(s.drop_first()[i - 1] == s[i]);
        lemma_entry_first_match(s.drop_first(), i - 1, k);
    }
}

proof fn lemma_entry_push(s: Seq<(String, u64, u32)>, e: (String, u64, u32), k: Seq<char>)
    ensures
        entry_of_seq(s.push(e), k) == (if entry_of_seq(s, k) is Some {
            entry_of_seq(s, k)
        } else if e.0@ == k {
            Some((e.1, e.2))
        } else {
            None
        }),
    decreases s.len(),
{
    let p = s.push(e);
    if s.len() == 0 {
        assert(p.first() == e);
        assert(p.drop_first() =~= Seq::<(String, u64, u32)>::empty());
        assert(entry_of_seq(p.drop_first(), k) is None);
        assert(entry_of_seq(s, k) is None);
        if e.0@ == k {
            assert(entry_of_seq(p, k) == Some((e.1, e.2)));
        } else {
            assert(entry_of_seq(p, k) is None);
        }
    } else {
        assert(p.first() == s.first());
        assert(p.drop_first() =~= s.drop_first().push(e));
        lemma_entry_push(s.drop_first(), e, k);
        if s.first().0@ == k {
            assert(entry_of_seq(p, k) == Some((s.first().1, s.first().2)));
            assert(entry_of_seq(s, k) == Some((s.first().1, s.first().2)));
        } else {
            assert(entry_of_seq(p, k) == entry_of_seq(p.drop_first(), k));
            assert(entry_of_seq(s, k) == entry_of_seq(s.drop_first(), k));
        }
    }
}

proof fn lemma_entry_update(s: Seq<(String, u64, u32)>, i: int, e: (String, u64, u32), k: Seq<
    char,
>)
    requires
        0 <= i < s.len(),
        s[i].0@ == e.0@,
        forall|j: int| 0 <= j < i ==> (#[trigger] s[j]).0@ != e.0@,
    ensures
        entry_of_seq(s.update(i, e), k) == (if k == e.0@ {
            Some((e.1, e.2))
        } else {
            entry_of_seq(s, k)
        }),
    decreases i,
{
    let t = s.update(i, e);
    if i == 0 {
        assert(t.first() == e);
        assert(t.drop_first() =~= s.drop_first());
        if k != e.0@ {
            assert(s.first().0@ != k);
        }
    } else {
        assert(t.first() == s.first());
        assert(s.first().0@ != e.0@);
        assert(t.drop_first() =~= s.drop_first().update(i - 1, e));
        assert(forall|j: int|
            0 <= j < i - 1 ==> (#[trigger] s.drop_first()[j]).0@ != e.0@) by {
            assert(forall|j: int| 0 <= j < i - 1 ==> s.drop_first()[j] == s[j + 1]);
        }
        lemma_entry_update(s.drop_first(), i - 1, e, k);
    }
}

impl SpamTracker {
    /// The entry last stored for a key: its stamp and repeat count.
    pub closed spec fn entry(self, key: Seq<char>) -> Option<(u64, u32)> {
        entry_of_seq(self.entries@, key)
    }

    /// The suppression window, in milliseconds.
    pub closed spec fn window(self) -> u64 {
        self.window_ms
    }

    /// How often a line may repeat inside the window.
    pub closed spec fn repeats_allowed(self) -> u32 {
        self.max_repeats
    }

    /// A tracker with a five-second window and three repeats allowed.
    pub fn new() -> (r: Self)
        ensures
            r.window() == 5000,
            r.repeats_allowed() == 3,
            forall|k: Seq<char>| r.entry(k) is None,
    {
        SpamTracker { entries: Vec::new(), window_ms: 5000, max_repeats: 3 }
    }

    fn find_index(&self, key: &str) -> (r: Option<usize>)
        ensures
            match r {
                Some(i) => i < self.entries@.len() && self.entries@[i as int].0@ == key@
                    && forall|j: int|
                    0 <= j < i ==> (#[trigger] self.entries@[j]).0@ != key@,
                None => forall|j: int|
                    0 <= j < self.entries@.len() ==> (#[trigger] self.entries@[j]).0@ != key@,
            },
    {
        let key_string = String::from_str(key);
        let mut i: usize = 0;
        while i < self.entries.len()
            invariant
                i <= self.entries@.len(),
                key_string@ == key@,
                forall|j: int| 0 <= j < i ==> (#[trigger] self.entries@[j]).0@ != key@,
            decreases self.entries@.len() - i,
        {
            if self.entries[i].0 == key_string {
                return Some(i);
            }
            i = i + 1;
        }
        None
    }

    /// Decides whether the line may be logged now, and with which repeat
    /// count; `None` silences it.  A fresh repeat bumps the count and is
    /// silenced past the allowance; once the window has passed, the count
    /// restarts at one, reporting a suppressed streak just once.
    pub fn should_log(&mut self, key: &str, now_ms: u64) -> (r: Option<u32>)
        ensures
            forall|k: Seq<char>| k != key@ ==> final(self).entry(k) == old(self).entry(k),
            final(self).window() == old(self).window(),
            final(self).repeats_allowed() == old(self).repeats_allowed(),
            match old(self).entry(key@) {
                None => final(self).entry(key@) == Some((now_ms, 1u32)) && r == Some(1u32),
                Some(e) => {
                    let elapsed = elapsed_spec(now_ms, e.0);
                    if elapsed < old(self).window() {
                        let c2 = if e.1 < u32::MAX {
                            (e.1 + 1) as u32
                        } else {
                            e.1
                        };
                        final(self).entry(key@) == Some((now_ms, c2)) && r == (if c2 > old(
                            self,
                        ).repeats_allowed() {
                            None::<u32>
                        } else {
                            Some(c2)
                        })
                    } else if elapsed < 2 * old(self).window() {
                        final(self).entry(key@) == Some((now_ms, 1u32)) && r == (if e.1 > old(
                            self,
                        ).repeats_allowed() {
                            Some(e.1)
                        } else {
                            Some(1u32)
                        })
                    } else {
                        final(self).entry(key@) == Some((now_ms, 1u32)) && r == Some(1u32)
                    }
                },
            },
    {
        match self.find_index(key) {
            Some(i) => {
                proof {
                    lemma_entry_first_match(self.entries@, i as int, key@);
                }
                let (stored_key, t, c) = self.entries.remove(i);
                let ghost removed = (stored_key, t, c);
                let elapsed = if now_ms >= t {
                    now_ms - t
                } else {
                    0
                };
                let window = self.window_ms;
                let in_twice = if window > u64::MAX / 2 {
                    true
                } else {
                    elapsed < 2 * window
                };
                let (c2, r): (u32, Option<u32>) = if elapsed < window {
                    let c2 = if c < u32::MAX {
                        c + 1
                    } else {
                        c
                    };
                    (c2, if c2 > self.max_repeats {
                        None
                    } else {
                        Some(c2)
                    })
                } else if in_twice {
                    (1, if c > self.max_repeats {
                        Some(c)
                    } else {
                        Some(1)
                    })
                } else {
                    (1, Some(1))
                };
                let ghost before = old(self).entries@;
                self.entries.insert(i, (stored_key, now_ms, c2));
                proof {
                    let e = (removed.0, now_ms, c2);
                    assert(self.entries@ =~= before.update(i as int, e));
                    lemma_entry_update(before, i as int, e, key@);
                    assert forall|k: Seq<char>| k != key@ implies entry_of_seq(
                        self.entries@,
                        k,
                    ) == entry_of_seq(before, k) by {
                        lemma_entry_update(before, i as int, e, k);
                    }
                }
                r
            },
            None => {
                let ghost before = self.entries@;
                self.entries.push((String::from_str(key), now_ms, 1));
                proof {
                    let e = self.entries@.last();
                    assert forall|k: Seq<char>| #[trigger] entry_of_seq(self.entries@, k)
                        == (if entry_of_seq(before, k) is Some {
                        entry_of_seq(before, k)
                    } else if e.0@ == k {
                        Some((e.1, e.2))
                    } else {
                        None
                    }) by {
                        assert(self.entries@ =~= before.push(e));
                        lemma_entry_push(before, e, k);
                    }
                    assert forall|j: int| 0 <= j < before.len() implies (#[trigger] before[j]).0@
                        != key@ by {
                        assert(old(self).entries@[j].0@ != key@);
                    }
                    assert(entry_of_seq(before, key@) is None) by {
                        lemma_entry_absent(before, key@);
                    }
                }
                Some(1)
            },
        }
    }
}

proof fn lemma_entry_absent(s: Seq<(String, u64, u32)>, k: Seq<char>)
    requires
        forall|j: int| 0 <= j < s.len() ==> (#[trigger] s[j]).0@ != k,
    ensures
        entry_of_seq(s, k) is None,
    decreases s.len(),
{
    if s.len() > 0 {
        assert(s.first().0@ != k);
        assert(forall|j: int| 0 <= j < s.len() - 1 ==> s.drop_first()[j] == s[j + 1]);
        lemma_entry_absent(s.drop_first(), k);
    }
}

} // verus!
