//! Bounded-concurrency gateway to the inference backend.
//!
//! Permits are lent out, never more than the limit at once.  A caller
//! without a permit waits its turn and tries once more.  Completions feed
//! the process-wide statistics, whose rolling average moves in the same
//! step as the counters.

use vstd::prelude::*;
use crate::text::{chars_of, push_all, string_of};

verus! {

/// A failed inference call, typed so callers can react differently.
#[derive(Debug)]
pub enum LlmError {
    /// The backend could not be reached; the transport's own message.
    Network(String),
    /// The call exceeded its deadline.
    Timeout,
    /// The queue wait itself timed out.
    QueueFull,
    /// The backend answered with a non-success status or unusable body.
    InvalidResponse(String),
}

impl LlmError {
    /// The wording of each error.
    pub open spec fn text_spec(self) -> Seq<char> {
        match self {
            LlmError::Network(m) => "Network error: "@ + m@,
            LlmError::Timeout => "Request timed out"@,
            LlmError::QueueFull => "Queue is full, try again later"@,
            LlmError::InvalidResponse(m) => "Invalid response: "@ + m@,
        }
    }

    /// Renders the error for the operator, as `text_spec` describes it.
    pub fn describe(&self) -> (r: String)
        ensures
            r@ == self.text_spec(),
    {
        match self {
            LlmError::Network(m) => {
                let mut v = chars_of("Network error: ");
                let tail = chars_of(m.as_str());
                push_all(&mut v, &tail);
                string_of(&v)
            },
            LlmError::Timeout => String::from_str("Request timed out"),
            LlmError::QueueFull => String::from_str("Queue is full, try again later"),
            LlmError::InvalidResponse(m) => {
                let mut v = chars_of("Invalid response: ");
                let tail = chars_of(m.as_str());
                push_all(&mut v, &tail);
                string_of(&v)
            },
        }
    }
}

/// The process-wide concurrency gate in front of the inference backend.
pub struct AdmissionGate {
    limit: usize,
    in_flight: usize,
}

impl AdmissionGate {
    /// How many calls may run at once.
    pub closed spec fn limit(self) -> usize {
        self.limit
    }

    /// How many calls hold a permit right now.
    pub closed spec fn in_flight(self) -> usize {
        self.in_flight
    }

    /// The permits lent out never outnumber the permits that exist.
    pub closed spec fn wf(self) -> bool {
        self.in_flight <= self.limit
    }

    /// A gate with all permits free.
    pub fn new(limit: usize) -> (r: Self)
        ensures
            r.wf(),
            r.limit() == limit,
            r.in_flight() == 0,
    {
        AdmissionGate { limit, in_flight: 0 }
    }

    /// Takes a permit when one is free.  A refused caller loses nothing,
    /// and a later ask can succeed.
    pub fn try_acquire(&mut self) -> (r: bool)
        requires
            old(self).wf(),
        ensures
            final(self).wf(),
            r == (old(self).in_flight() < old(self).limit()),
            r ==> final(self).in_flight() == old(self).in_flight() + 1,
            !r ==> final(self).in_flight() == old(self).in_flight(),
            final(self).limit() == old(self).limit(),
    {
        if self.in_flight < self.limit {
            self.in_flight = self.in_flight + 1;
            true
        } else {
            false
        }
    }

    /// Returns a permit on completion or timeout.
    pub fn release(&mut self)
        requires
            old(self).wf(),
            old(self).in_flight() > 0,
        ensures
            final(self).wf(),
            final(self).in_flight() == old(self).in_flight() - 1,
            final(self).limit() == old(self).limit(),
    {
        self.in_flight = self.in_flight - 1;
    }
}

/// The calls holding a permit at any moment never outnumber the limit,
/// whatever sequence of asks and releases came before.
pub proof fn lemma_queue_admission_bound(g: AdmissionGate)
    requires
        g.wf(),
    ensures
        g.in_flight() <= g.limit(),
{
}

/// Running statistics of the inference queue, one process-wide set.
#[derive(Clone, Copy, Debug, PartialEq, Eq, Structural)]
pub struct QueueStats {
    pub total_requests: u64,
    pub successful_requests: u64,
    pub failed_requests: u64,
    pub queue_timeouts: u64,
    pub avg_response_time_ms: u64,
}

impl QueueStats {
    /// Every completion is counted exactly once as success or failure.
    pub open spec fn consistent(self) -> bool {
        self.total_requests == self.successful_requests + self.failed_requests
    }

    /// All counters at zero.
    pub fn new() -> (r: Self)
        ensures
            r == (QueueStats {
                total_requests: 0,
                successful_requests: 0,
                failed_requests: 0,
                queue_timeouts: 0,
                avg_response_time_ms: 0,
            }),
            r.consistent(),
    {
        QueueStats {
            total_requests: 0,
            successful_requests: 0,
            failed_requests: 0,
            queue_timeouts: 0,
            avg_response_time_ms: 0,
        }
    }
}

impl Default for QueueStats {
    /// All counters at zero.
    fn default() -> (r: Self)
        ensures
            r.consistent(),
            r.total_requests == 0,
            r.avg_response_time_ms == 0,
    {
        QueueStats::new()
    }
}

/// Records one completed call: bumps the total and the success or failure
/// counter, and folds the response time into the rolling average, all in
/// one step.
pub fn update_queue_stats(stats: &mut QueueStats, success: bool, response_time_ms: u64)
    requires
        old(stats).total_requests < u64::MAX,
        old(stats).consistent(),
        old(stats).avg_response_time_ms <= 0x7FFF_FFFF_FFFF,
        response_time_ms <= 0x7FFF_FFFF_FFFF,
    ensures
        final(stats).consistent(),
        final(stats).total_requests == old(stats).total_requests + 1,
        final(stats).successful_requests == old(stats).successful_requests + (if success {
            1int
        } else {
            0int
        }),
        final(stats).failed_requests == old(stats).failed_requests + (if success {
            0int
        } else {
            1int
        }),
        final(stats).queue_timeouts == old(stats).queue_timeouts,
        final(stats).avg_response_time_ms == (old(stats).avg_response_time_ms * (old(
            stats,
        ).total_requests as int) + response_time_ms) / (old(stats).total_requests + 1),
        final(stats).avg_response_time_ms <= 0x7FFF_FFFF_FFFF,
{
    let new_total = stats.total_requests + 1;
    let prior = stats.total_requests;
    let avg = stats.avg_response_time_ms;
    proof {
        assert((avg as int) * (prior as int) <= (0x7FFF_FFFF_FFFF as int) * (u64::MAX - 1))
            by (nonlinear_arith)
            requires
                0 <= avg <= 0x7FFF_FFFF_FFFF,
                0 <= prior <= u64::MAX - 1,
        ;
        assert((avg as int) * (prior as int) >= 0) by (nonlinear_arith)
            requires
                avg >= 0,
                prior >= 0,
        ;
    }
    let weighted: u128 = (avg as u128) * (prior as u128) + (response_time_ms as u128);
    let new_avg_wide: u128 = weighted / (new_total as u128);
    proof {
        let w = weighted as int;
        let n = new_total as int;
        let cap = 0x7FFF_FFFF_FFFF as int;
        assert(w <= cap * n) by (nonlinear_arith)
            requires
                0 <= avg <= cap,
                0 <= response_time_ms <= cap,
                w == (avg as int) * (prior as int) + response_time_ms,
                n == prior + 1,
                prior >= 0,
        ;
        assert(w / n <= (cap * n) / n) by {
            vstd::arithmetic::div_mod::lemma_div_is_ordered(w, cap * n, n);
        }
        assert((cap * n) / n == cap) by {
            vstd::arithmetic::div_mod::lemma_div_by_multiple(cap, n);
        }
    }
    let new_avg = new_avg_wide as u64;
    stats.total_requests = new_total;
    if success {
        stats.successful_requests = stats.successful_requests + 1;
    } else {
        stats.failed_requests = stats.failed_requests + 1;
    }
    stats.avg_response_time_ms = new_avg;
}

/// Records a queue-wait timeout.
pub fn record_queue_timeout(stats: &mut QueueStats)
    requires
        old(stats).queue_timeouts < u64::MAX,
    ensures
        final(stats).queue_timeouts == old(stats).queue_timeouts + 1,
        final(stats).total_requests == old(stats).total_requests,
        final(stats).successful_requests == old(stats).successful_requests,
        final(stats).failed_requests == old(stats).failed_requests,
        final(stats).avg_response_time_ms == old(stats).avg_response_time_ms,
{
    stats.queue_timeouts = stats.queue_timeouts + 1;
}

} // verus!
