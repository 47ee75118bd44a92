//! Per-conversation cooldown and per-user sliding-window rate limits.
//!
//! Both gates run before any expensive work.  The cooldown check and its
//! timestamp update are one atomic unit: an allowed reply stamps the
//! conversation in the same call.  The user gate keeps the reply stamps of
//! the last window and admits a reply only while fewer than the burst limit
//! remain inside it.

use vstd::prelude::*;
use crate::slots::Slots;
use crate::debounce::elapsed_spec;

verus! {

/// Reply stamps still inside the window, in order.
pub open spec fn keep_recent(ts: Seq<u64>, now: u64, window: u64) -> Seq<u64> {
    ts.filter(|t: u64| elapsed_spec(now, t) < window)
}

/// Dropping one stamp that left the window shrinks the kept list.
pub proof fn lemma_filter_drops(ts: Seq<u64>, now: u64, window: u64, j: int)
    requires
        0 <= j < ts.len(),
        elapsed_spec(now, ts[j]) >= window,
    ensures
        keep_recent(ts, now, window).len() < ts.len(),
    decreases ts.len(),
{
    reveal(Seq::filter);
    let pred = |t: u64| elapsed_spec(now, t) < window;
    ts.drop_last().lemma_filter_len(pred);
    if j == ts.len() - 1 {
        assert(!pred(ts.last()));
    } else {
        assert(ts.drop_last()[j] == ts[j]);
        lemma_filter_drops(ts.drop_last(), now, window, j);
    }
}

/// Nothing leaves the kept list while every stamp is inside the window.
pub proof fn lemma_filter_keeps_all(ts: Seq<u64>, now: u64, window: u64)
    requires
        forall|j: int| 0 <= j < ts.len() ==> elapsed_spec(now, #[trigger] ts[j]) < window,
    ensures
        keep_recent(ts, now, window) == ts,
    decreases ts.len(),
{
    reveal(Seq::filter);
    if ts.len() > 0 {
        assert(forall|j: int|
            0 <= j < ts.len() - 1 ==> elapsed_spec(now, #[trigger] ts.drop_last()[j]) < window);
        lemma_filter_keeps_all(ts.drop_last(), now, window);
        assert(elapsed_spec(now, ts[ts.len() - 1]) < window);
        assert(keep_recent(ts, now, window) =~= ts);
    }
}

/// The advisory gates evaluated before embedding and inference work.
pub struct RateGate {
    cooldowns: Slots<u64>,
    windows: Slots<Vec<u64>>,
    burst_limit: usize,
    window_secs: u64,
}

impl RateGate {
    /// Internal consistency of both stores.
    pub closed spec fn wf(self) -> bool {
        self.cooldowns.wf() && self.windows.wf()
    }

    /// How many replies the window admits per user.
    pub closed spec fn limit(self) -> usize {
        self.burst_limit
    }

    /// The width of the sliding window, in seconds.
    pub closed spec fn window(self) -> u64 {
        self.window_secs
    }

    /// When the conversation last got a reply, when it ever did.
    pub closed spec fn last_reply(self, conversation_id: i64) -> Option<u64> {
        if self.cooldowns.view().dom().contains(conversation_id as i128) {
            Some(self.cooldowns.view()[conversation_id as i128])
        } else {
            None
        }
    }

    /// The user's reply stamps as stored, oldest first.
    pub closed spec fn user_window(self, user_id: u64) -> Seq<u64> {
        if self.windows.view().dom().contains(user_id as i128) {
            self.windows.view()[user_id as i128]@
        } else {
            Seq::empty()
        }
    }

    /// A gate with the given burst limit and window width.
    pub fn new(burst_limit: usize, window_secs: u64) -> (r: Self)
        ensures
            r.wf(),
            r.limit() == burst_limit,
            r.window() == window_secs,
            forall|c: i64| r.last_reply(c) is None,
            forall|u: u64| r.user_window(u) == Seq::<u64>::empty(),
    {
        RateGate { cooldowns: Slots::new(), windows: Slots::new(), burst_limit, window_secs }
    }

    /// Cooldown gate: rejects while the conversation's last reply is younger
    /// than `cooldown_seconds`; an allowed call stamps the conversation with
    /// `now` in the same atomic step.
    pub fn allow(&mut self, conversation_id: i64, now: u64, cooldown_seconds: u64) -> (r: bool)
        requires
            old(self).wf(),
        ensures
            final(self).wf(),
            r == !(old(self).last_reply(conversation_id) matches Some(t) && elapsed_spec(now, t)
                < cooldown_seconds),
            r ==> final(self).last_reply(conversation_id) == Some(now),
            !r ==> final(self).last_reply(conversation_id) == old(self).last_reply(
                conversation_id,
            ),
            forall|c: i64|
                c != conversation_id ==> final(self).last_reply(c) == old(self).last_reply(c),
            forall|u: u64| final(self).user_window(u) == old(self).user_window(u),
            final(self).limit() == old(self).limit(),
            final(self).window() == old(self).window(),
    {
        let key = conversation_id as i128;
        let blocked = match self.cooldowns.get(key) {
            Some(last) => {
                let elapsed = if now >= *last {
                    now - *last
                } else {
                    0
                };
                elapsed < cooldown_seconds
            },
            None => false,
        };
        if blocked {
            return false;
        }
        self.cooldowns.set(key, now);
        proof {
            assert forall|c: i64|
                c != conversation_id implies self.last_reply(c) == old(self).last_reply(c) by {
                assert(c as i128 != conversation_id as i128);
            }
        }
        true
    }

    /// Burst gate: prunes stamps that left the window, rejects when the
    /// burst limit is reached, and otherwise records `now` as a new stamp.
    pub fn allow_user(&mut self, user_id: u64, now: u64) -> (r: bool)
        requires
            old(self).wf(),
        ensures
            final(self).wf(),
            r == (keep_recent(old(self).user_window(user_id), now, old(self).window()).len()
                < old(self).limit()),
            r ==> final(self).user_window(user_id) == keep_recent(
                old(self).user_window(user_id),
                now,
                old(self).window(),
            ).push(now),
            !r ==> final(self).user_window(user_id) == keep_recent(
                old(self).user_window(user_id),
                now,
                old(self).window(),
            ),
            forall|u: u64| u != user_id ==> final(self).user_window(u) == old(self).user_window(u),
            forall|c: i64| final(self).last_reply(c) == old(self).last_reply(c),
            final(self).limit() == old(self).limit(),
            final(self).window() == old(self).window(),
    {
        let key = user_id as i128;
        let ghost old_ts = old(self).user_window(user_id);
        let stored: Vec<u64> = match self.windows.take(key) {
            Some(v) => v,
            None => Vec::new(),
        };
        proof {
            assert(stored@ == old_ts);
        }
        let mut kept: Vec<u64> = Vec::new();
        let mut i: usize = 0;
        proof {
            reveal(Seq::filter);
            assert(kept@ =~= keep_recent(stored@.take(0), now, self.window_secs));
        }
        while i < stored.len()
            invariant
                i <= stored@.len(),
                kept@ == keep_recent(stored@.take(i as int), now, self.window_secs),
            decreases stored@.len() - i,
        {
            let t = stored[i];
            let elapsed = if now >= t {
                now - t
            } else {
                0
            };
            proof {
                reveal(Seq::filter);
                assert(stored@.take(i + 1).drop_last() =~= stored@.take(i as int));
                assert(stored@.take(i + 1).last() == stored@[i as int]);
            }
            if elapsed < self.window_secs {
                kept.push(t);
            }
            i = i + 1;
        }
        proof {
            assert(stored@.take(stored@.len() as int) =~= stored@);
        }
        let admitted = kept.len() < self.burst_limit;
        if admitted {
            kept.push(now);
        }
        self.windows.set(key, kept);
        proof {
            assert forall|u: u64|
                u != user_id implies self.user_window(u) == old(self).user_window(u) by {
                assert(u as i128 != user_id as i128);
            }
        }
        admitted
    }
}

/// Rate-limit boundary: with the window full of stamps younger than the
/// window width, the next attempt is rejected; once the oldest stamp has
/// aged past the window, pruning frees at least one slot.
pub proof fn lemma_rate_limit_boundary(
    ts: Seq<u64>,
    limit: usize,
    window: u64,
    now_full: u64,
    now_later: u64,
    j: int,
)
    requires
        ts.len() == limit,
        forall|k: int| 0 <= k < ts.len() ==> elapsed_spec(now_full, #[trigger] ts[k]) < window,
        0 <= j < ts.len(),
        elapsed_spec(now_later, ts[j]) >= window,
    ensures
        !(keep_recent(ts, now_full, window).len() < limit),
        keep_recent(ts, now_later, window).len() < limit,
{
    lemma_filter_keeps_all(ts, now_full, window);
    lemma_filter_drops(ts, now_later, window, j);
}

} // verus!
