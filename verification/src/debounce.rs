//! Coalesces rapid consecutive messages from one conversation into a single
//! logical turn.
//!
//! The first message of a burst creates a pending batch; later messages
//! append to it.  After the debounce window a flush attempt consumes the
//! batch only when its last arrival is old enough, and hands back the
//! newline-join of the collected messages; otherwise the wait is extended.
//! A forced flush consumes the batch regardless, to bound worst-case
//! latency.  A batch is consumed at most once: the flush that takes it
//! removes it, and every later attempt finds nothing.

use vstd::prelude::*;
use crate::text::{chars_of, string_of, join_all, join_spec};

verus! {

/// A conversation, optionally paired with a sub-thread.
#[derive(Clone, Copy, Debug, PartialEq, Eq)]
pub struct ConvKey {
    pub chat_id: i64,
    pub thread_id: Option<i64>,
}

/// One burst being collected.
#[derive(Clone, Debug)]
pub struct PendingBatch {
    /// The texts of the burst, in arrival order.
    pub messages: Vec<String>,
    /// When the latest message of the burst arrived, in milliseconds.
    pub last_message_time: u64,
    /// Who sent the burst, when known.
    pub user_id: Option<u64>,
    /// The sender's display name.
    pub user_name: String,
}

/// The mathematical content of a pending batch.
pub struct BatchView {
    pub messages: Seq<Seq<char>>,
    pub last_arrival: u64,
    pub user_id: Option<u64>,
    pub user_name: Seq<char>,
}

/// The view of one collected batch.
pub open spec fn batch_view(b: PendingBatch) -> BatchView {
    BatchView {
        messages: b.messages@.map_values(|m: String| m@),
        last_arrival: b.last_message_time,
        user_id: b.user_id,
        user_name: b.user_name@,
    }
}

struct DebEntry {
    key: ConvKey,
    batch: PendingBatch,
}

/// What `submit` reports to its caller.
#[derive(Clone, Copy, Debug, PartialEq, Eq, Structural)]
pub enum SubmitOutcome {
    /// The message opened a new batch; the caller owns the flush.
    FirstPending,
    /// The message joined an existing batch; the caller is done.
    AlreadyPending,
}

/// What a flush attempt reports.
#[derive(Debug)]
pub enum FlushOutcome {
    /// No batch is pending for the conversation: another task consumed it.
    NotFound,
    /// The last message is too recent; the caller should wait once more.
    ExtendWait,
    /// The batch was consumed; the newline-join of its messages.
    Flushed(String),
}

/// Time elapsed between two millisecond stamps, clamped at zero.
pub open spec fn elapsed_spec(now: u64, then: u64) -> u64 {
    if now >= then {
        (now - then) as u64
    } else {
        0
    }
}

/// How `submit` changes the pending map.
pub open spec fn submit_step(
    m: Map<ConvKey, BatchView>,
    key: ConvKey,
    text: Seq<char>,
    now: u64,
    user_id: Option<u64>,
    user_name: Seq<char>,
) -> Map<ConvKey, BatchView> {
    if m.dom().contains(key) {
        m.insert(
            key,
            BatchView {
                messages: m[key].messages.push(text),
                last_arrival: now,
                user_id: m[key].user_id,
                user_name: m[key].user_name,
            },
        )
    } else {
        m.insert(
            key,
            BatchView { messages: seq![text], last_arrival: now, user_id, user_name },
        )
    }
}

/// How a flush attempt changes the pending map: the batch leaves exactly when
/// it is present and its last arrival is at least half the window old.
pub open spec fn flush_state(
    m: Map<ConvKey, BatchView>,
    key: ConvKey,
    now: u64,
    window_ms: u64,
) -> Map<ConvKey, BatchView> {
    if m.dom().contains(key) && elapsed_spec(now, m[key].last_arrival) >= window_ms / 2 {
        m.remove(key)
    } else {
        m
    }
}

spec fn map_of(s: Seq<DebEntry>) -> Map<ConvKey, BatchView>
    decreases s.len(),
{
    if s.len() == 0 {
        Map::empty()
    } else {
        map_of(s.drop_last()).insert(s.last().key, batch_view(s.last().batch))
    }
}

spec fn unique_keys(s: Seq<DebEntry>) -> bool {
    forall|i: int, j: int| 0 <= i < j < s.len() ==> s[i].key != s[j].key
}

proof fn lemma_map_of_dom(s: Seq<DebEntry>)
    ensures
        forall|k: ConvKey|
            map_of(s).dom().contains(k) == exists|i: int| 0 <= i < s.len() && s[i].key == k,
    decreases s.len(),
{
    if s.len() > 0 {
        lemma_map_of_dom(s.drop_last());
        assert forall|k: ConvKey|
            map_of(s).dom().contains(k) == exists|i: int|
                0 <= i < s.len() && s[i].key == k by {
            if k == s.last().key {
                assert(map_of(s).dom().contains(k));
                assert(s[s.len() - 1].key == k);
            } else {
                assert(map_of(s).dom().contains(k) == map_of(s.drop_last()).dom().contains(k));
                if exists|i: int| 0 <= i < s.len() - 1 && s.drop_last()[i].key == k {
                    let i = choose|i: int| 0 <= i < s.len() - 1 && s.drop_last()[i].key == k;
                    assert(s[i].key == k);
                }
                if exists|i: int| 0 <= i < s.len() && s[i].key == k {
                    let i = choose|i: int| 0 <= i < s.len() && s[i].key == k;
                    assert(i < s.len() - 1);
                    assert(s.drop_last()[i].key == k);
                }
            }
        }
    }
}

proof fn lemma_map_of_get(s: Seq<DebEntry>, i: int)
    requires
        unique_keys(s),
        0 <= i < s.len(),
    ensures
        map_of(s).dom().contains(s[i].key),
        map_of(s)[s[i].key] == batch_view(s[i].batch),
    decreases s.len(),
{
    if i == s.len() - 1 {
    } else {
        assert(unique_keys(s.drop_last()));
        lemma_map_of_get(s.drop_last(), i);
        assert(s[i].key != s.last().key);
        assert(s.drop_last()[i] == s[i]);
    }
}

proof fn lemma_map_of_update(s: Seq<DebEntry>, i: int, e: DebEntry)
    requires
        unique_keys(s),
        0 <= i < s.len(),
        e.key == s[i].key,
    ensures
        unique_keys(s.update(i, e)),
        map_of(s.update(i, e)) =~= map_of(s).insert(e.key, batch_view(e.batch)),
    decreases s.len(),
{
    let t = s.update(i, e);
    if i == s.len() - 1 {
        assert(t.drop_last() =~= s.drop_last());
        assert(t.last() == e);
    } else {
        assert(unique_keys(s.drop_last()));
        assert(s.drop_last()[i] == s[i]);
        lemma_map_of_update(s.drop_last(), i, e);
        assert(t.drop_last() =~= s.drop_last().update(i, e));
        assert(t.last() == s.last());
        assert(s.last().key != e.key);
    }
}

proof fn lemma_map_of_remove(s: Seq<DebEntry>, i: int)
    requires
        unique_keys(s),
        0 <= i < s.len(),
    ensures
        unique_keys(s.remove(i)),
        map_of(s.remove(i)) =~= map_of(s).remove(s[i].key),
    decreases s.len(),
{
    let t = s.remove(i);
    assert forall|a: int, b: int| 0 <= a < b < t.len() implies t[a].key != t[b].key by {
        if b < i {
            assert(t[a] == s[a] && t[b] == s[b]);
        } else if a < i {
            assert(t[a] == s[a] && t[b] == s[b + 1]);
        } else {
            assert(t[a] == s[a + 1] && t[b] == s[b + 1]);
        }
    }
    if i == s.len() - 1 {
        assert(t =~= s.drop_last());
        lemma_map_of_dom(t);
        assert(forall|j: int| 0 <= j < t.len() ==> t[j].key != s[i].key);
        assert(!map_of(t).dom().contains(s[i].key));
        assert(map_of(t) =~= map_of(t).insert(s[i].key, batch_view(s[i].batch)).remove(s[i].key));
    } else {
        assert(unique_keys(s.drop_last()));
        assert(s.drop_last()[i] == s[i]);
        lemma_map_of_remove(s.drop_last(), i);
        assert(t.drop_last() =~= s.drop_last().remove(i));
        assert(t.last() == s.last());
        assert(s.last().key != s[i].key);
    }
}

/// Collects bursts per conversation and owns them until a flush consumes
/// them.
pub struct DebounceAggregator {
    entries: Vec<DebEntry>,
}

impl DebounceAggregator {
    /// The pending batches, by conversation.
    pub closed spec fn view(self) -> Map<ConvKey, BatchView> {
        map_of(self.entries@)
    }

    /// Internal consistency: one entry per conversation.
    pub closed spec fn wf(self) -> bool {
        unique_keys(self.entries@)
    }

    /// An empty aggregator.
    pub fn new() -> (r: Self)
        ensures
            r.wf(),
            r.view() == Map::<ConvKey, BatchView>::empty(),
    {
        DebounceAggregator { entries: Vec::new() }
    }

    /// Index of the entry for `key`, if one is pending.
    fn find_index(&self, key: &ConvKey) -> (r: Option<usize>)
        ensures
            match r {
                Some(i) => i < self.entries@.len() && self.entries@[i as int].key == *key,
                None => forall|j: int|
                    0 <= j < self.entries@.len() ==> self.entries@[j].key != *key,
            },
    {
        let mut i: usize = 0;
        while i < self.entries.len()
            invariant
                i <= self.entries@.len(),
                forall|j: int| 0 <= j < i ==> self.entries@[j].key != *key,
            decreases self.entries@.len() - i,
        {
            let e = &self.entries[i];
            let same = e.key.chat_id == key.chat_id && (match (e.key.thread_id, key.thread_id) {
                (Some(a), Some(b)) => a == b,
                (None, None) => true,
                _ => false,
            });
            if same {
                assert(self.entries@[i as int].key == *key);
                return Some(i);
            }
            i = i + 1;
        }
        None
    }

    /// Adds one message to the conversation's batch, opening the batch when
    /// it is the first of a burst.  Only the caller that opened the batch
    /// goes on to flush it; every other caller returns without side effects.
    pub fn submit(
        &mut self,
        key: ConvKey,
        text: String,
        now_ms: u64,
        user_id: Option<u64>,
        user_name: String,
    ) -> (r: SubmitOutcome)
        requires
            old(self).wf(),
        ensures
            final(self).wf(),
            final(self).view() == submit_step(
                old(self).view(),
                key,
                text@,
                now_ms,
                user_id,
                user_name@,
            ),
            r == SubmitOutcome::FirstPending <==> !old(self).view().dom().contains(key),
    {
        proof {
            lemma_map_of_dom(self.entries@);
        }
        match self.find_index(&key) {
            Some(i) => {
                proof {
                    lemma_map_of_get(self.entries@, i as int);
                }
                let mut entry = self.entries.remove(i);
                entry.batch.messages.push(text);
                entry.batch.last_message_time = now_ms;
                let ghost old_entries = old(self).entries@;
                let ghost new_entry = entry;
                self.entries.insert(i, entry);
                proof {
                    assert(self.entries@ =~= old_entries.update(i as int, new_entry));
                    lemma_map_of_update(old_entries, i as int, new_entry);
                    assert(batch_view(new_entry.batch).messages =~= old(self).view()[key].messages.push(
                        text@,
                    ));
                }
                SubmitOutcome::AlreadyPending
            },
            None => {
                let batch = PendingBatch {
                    messages: vec![text],
                    last_message_time: now_ms,
                    user_id,
                    user_name,
                };
                let entry = DebEntry { key, batch };
                let ghost old_entries = self.entries@;
                proof {
                    assert(!old(self).view().dom().contains(key));
                }
                self.entries.push(entry);
                proof {
                    assert(self.entries@.drop_last() =~= old_entries);
                    assert(batch_view(entry.batch).messages =~= seq![text@]);
                    assert(unique_keys(self.entries@));
                }
                SubmitOutcome::FirstPending
            },
        }
    }

    /// Attempts to consume the conversation's batch after the debounce wait.
    /// The batch is handed out exactly when it is still pending and its last
    /// arrival is at least half the window old; a fresher batch stays and the
    /// caller extends the wait once more.
    pub fn try_flush(&mut self, key: ConvKey, now_ms: u64, window_ms: u64) -> (r: FlushOutcome)
        requires
            old(self).wf(),
        ensures
            final(self).wf(),
            final(self).view() == flush_state(old(self).view(), key, now_ms, window_ms),
            match r {
                FlushOutcome::NotFound => !old(self).view().dom().contains(key),
                FlushOutcome::ExtendWait => old(self).view().dom().contains(key) && elapsed_spec(
                    now_ms,
                    old(self).view()[key].last_arrival,
                ) < window_ms / 2,
                FlushOutcome::Flushed(t) => old(self).view().dom().contains(key) && elapsed_spec(
                    now_ms,
                    old(self).view()[key].last_arrival,
                ) >= window_ms / 2 && t@ == join_spec(
                    old(self).view()[key].messages,
                    seq!['\n'],
                ),
            },
    {
        proof {
            lemma_map_of_dom(self.entries@);
        }
        match self.find_index(&key) {
            Some(i) => {
                proof {
                    lemma_map_of_get(self.entries@, i as int);
                }
                let last = self.entries[i].batch.last_message_time;
                let elapsed = if now_ms >= last {
                    now_ms - last
                } else {
                    0
                };
                if elapsed < window_ms / 2 {
                    FlushOutcome::ExtendWait
                } else {
                    let ghost old_entries = self.entries@;
                    let entry = self.entries.remove(i);
                    proof {
                        lemma_map_of_remove(old_entries, i as int);
                    }
                    let joined = join_messages(&entry.batch.messages);
                    FlushOutcome::Flushed(joined)
                }
            },
            None => FlushOutcome::NotFound,
        }
    }

    /// Consumes the conversation's batch regardless of how fresh it is, to
    /// bound worst-case latency after an extended wait.
    pub fn force_flush(&mut self, key: ConvKey) -> (r: Option<String>)
        requires
            old(self).wf(),
        ensures
            final(self).wf(),
            final(self).view() == old(self).view().remove(key),
            match r {
                Some(t) => old(self).view().dom().contains(key) && t@ == join_spec(
                    old(self).view()[key].messages,
                    seq!['\n'],
                ),
                None => !old(self).view().dom().contains(key),
            },
    {
        proof {
            lemma_map_of_dom(self.entries@);
        }
        match self.find_index(&key) {
            Some(i) => {
                proof {
                    lemma_map_of_get(self.entries@, i as int);
                }
                let ghost old_entries = self.entries@;
                let entry = self.entries.remove(i);
                proof {
                    lemma_map_of_remove(old_entries, i as int);
                }
                Some(join_messages(&entry.batch.messages))
            },
            None => {
                proof {
                    assert(old(self).view().remove(key) =~= old(self).view());
                }
                None
            },
        }
    }
}

/// Joins messages with single newlines, in order.
pub fn join_messages(msgs: &Vec<String>) -> (r: String)
    ensures
        r@ == join_spec(msgs@.map_values(|m: String| m@), seq!['\n']),
{
    let mut parts: Vec<Vec<char>> = Vec::new();
    let mut i: usize = 0;
    while i < msgs.len()
        invariant
            i <= msgs@.len(),
            parts@.len() == i,
            forall|j: int| 0 <= j < i ==> parts@[j]@ == msgs@[j]@,
        decreases msgs@.len() - i,
    {
        parts.push(chars_of(msgs[i].as_str()));
        i = i + 1;
    }
    proof {
        assert(parts@.map_values(|x: Vec<char>| x@) =~= msgs@.map_values(|m: String| m@));
    }
    let newline: Vec<char> = vec!['\n'];
    proof {
        assert(newline@ =~= seq!['\n']);
    }
    let joined = join_all(&parts, &newline);
    string_of(&joined)
}

/// How a whole burst lands in the pending map: each message is submitted in
/// arrival order, with its arrival time.
pub open spec fn submit_burst(
    m: Map<ConvKey, BatchView>,
    key: ConvKey,
    texts: Seq<Seq<char>>,
    times: Seq<u64>,
    user_id: Option<u64>,
    user_name: Seq<char>,
) -> Map<ConvKey, BatchView>
    decreases texts.len(),
{
    if texts.len() == 0 {
        m
    } else {
        submit_step(
            submit_burst(m, key, texts.drop_last(), times.drop_last(), user_id, user_name),
            key,
            texts.last(),
            if times.len() > 0 {
                times.last()
            } else {
                0
            },
            user_id,
            user_name,
        )
    }
}

/// Debounce idempotence, collection half: a burst of `k` messages submitted
/// to a conversation without a pending batch leaves exactly one batch, whose
/// text list is the whole burst in arrival order.
pub proof fn lemma_debounce_burst(
    m: Map<ConvKey, BatchView>,
    key: ConvKey,
    texts: Seq<Seq<char>>,
    times: Seq<u64>,
    user_id: Option<u64>,
    user_name: Seq<char>,
)
    requires
        !m.dom().contains(key),
        texts.len() > 0,
        times.len() == texts.len(),
    ensures
        submit_burst(m, key, texts, times, user_id, user_name).dom().contains(key),
        submit_burst(m, key, texts, times, user_id, user_name)[key].messages == texts,
        submit_burst(m, key, texts, times, user_id, user_name)[key].last_arrival == times.last(),
    decreases texts.len(),
{
    if texts.len() == 1 {
        assert(seq![texts.last()] =~= texts);
    } else {
        lemma_debounce_burst(m, key, texts.drop_last(), times.drop_last(), user_id, user_name);
        let prev = submit_burst(m, key, texts.drop_last(), times.drop_last(), user_id, user_name);
        assert(prev[key].messages.push(texts.last()) =~= texts);
    }
}

/// Debounce idempotence, consumption half: the flush that takes the batch
/// removes it, so every later flush attempt finds nothing and triggers no
/// second reply; the join handed out is the newline-join of the burst.
pub proof fn lemma_flush_once(
    m: Map<ConvKey, BatchView>,
    key: ConvKey,
    now1: u64,
    window_ms: u64,
    now2: u64,
)
    requires
        m.dom().contains(key),
        elapsed_spec(now1, m[key].last_arrival) >= window_ms / 2,
    ensures
        !flush_state(m, key, now1, window_ms).dom().contains(key),
        flush_state(flush_state(m, key, now1, window_ms), key, now2, window_ms) == flush_state(
            m,
            key,
            now1,
            window_ms,
        ),
{
}

} // verus!
