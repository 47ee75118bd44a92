//! Orchestrates one reply turn: debounce, gating, memory, admission,
//! statistics and delivery planning.
//!
//! The pipeline owns the per-conversation state and makes every decision;
//! the surrounding program performs the waits, the backend calls and the
//! platform sends, handing events back in.  Decisions that need randomness
//! take the draw as an argument.

use vstd::prelude::*;
use crate::config::PipelineConfig;
use crate::debounce::{DebounceAggregator, ConvKey, BatchView, SubmitOutcome, FlushOutcome,
    submit_step, flush_state, elapsed_spec};
use crate::delivery::{DeliveryPlan, plan_delivery, delivery_chunks};
use crate::memory::{EmbeddingStore, MemoryChunk, ChunkView, Embedding, chunk_wf, retention_spec,
    retrieve_spec};
use crate::queue::{AdmissionGate, QueueStats, update_queue_stats};
use crate::rate::{RateGate, keep_recent};
use crate::trigger::{TriggerContext, ReplySignal, reply_signal, reply_signal_spec};
use crate::SCALE;

verus! {

/// How the gates resolved one flushed turn.
#[derive(Debug)]
pub enum GateDecision {
    /// No signal asked for a reply; a suppressed turn, not an error.
    Declined,
    /// The user hit the burst limit; a suppressed turn, not an error.
    RateLimited,
    /// The conversation is still cooling down; a suppressed turn.
    CoolingDown,
    /// Reply, for this signal; the conversation was stamped.
    Proceed(ReplySignal),
}

/// The reply-decision and delivery pipeline for one account.
pub struct ReplyPipeline {
    debounce: DebounceAggregator,
    rate: RateGate,
    store: EmbeddingStore,
    gate: AdmissionGate,
    stats: QueueStats,
    config: PipelineConfig,
}

impl ReplyPipeline {
    /// The pending debounce batches.
    pub closed spec fn batches(self) -> Map<ConvKey, BatchView> {
        self.debounce.view()
    }

    /// When a conversation last got a reply.
    pub closed spec fn last_reply(self, conversation_id: i64) -> Option<u64> {
        self.rate.last_reply(conversation_id)
    }

    /// A user's reply stamps inside the burst window.
    pub closed spec fn user_window(self, user_id: u64) -> Seq<u64> {
        self.rate.user_window(user_id)
    }

    /// The stored memory chunks.
    pub closed spec fn memory(self) -> Seq<ChunkView> {
        self.store.view()
    }

    /// How many inference calls hold a permit.
    pub closed spec fn in_flight(self) -> usize {
        self.gate.in_flight()
    }

    /// The queue statistics.
    pub closed spec fn stats(self) -> QueueStats {
        self.stats
    }

    /// The configuration the pipeline runs under.
    pub closed spec fn config(self) -> PipelineConfig {
        self.config
    }

    /// Internal consistency of every component, and the configuration
    /// bounds the arithmetic relies on.
    pub closed spec fn wf(self) -> bool {
        &&& self.debounce.wf()
        &&& self.rate.wf()
        &&& self.rate.limit() == self.config.burst_limit
        &&& self.rate.window() == self.config.burst_window_secs
        &&& self.store.wf()
        &&& self.gate.wf()
        &&& self.gate.limit() == self.config.max_concurrent_llm
        &&& self.stats.consistent()
        &&& self.stats.avg_response_time_ms <= 0x7FFF_FFFF_FFFF
        &&& self.config.hourly_decay <= SCALE
        &&& self.config.min_response_delay_sec <= self.config.max_response_delay_sec
        &&& self.config.max_response_delay_sec <= 86400
        &&& self.config.typing_speed_cpm > 0
    }

    /// A fresh pipeline under the given configuration.
    pub fn new(config: PipelineConfig) -> (r: Self)
        requires
            config.hourly_decay <= SCALE,
            config.min_response_delay_sec <= config.max_response_delay_sec,
            config.max_response_delay_sec <= 86400,
            config.typing_speed_cpm > 0,
        ensures
            r.wf(),
            r.config() == config,
            r.batches() == Map::<ConvKey, BatchView>::empty(),
            r.memory() == Seq::<ChunkView>::empty(),
            r.in_flight() == 0,
            r.stats().total_requests == 0,
            forall|c: i64| r.last_reply(c) is None,
            forall|u: u64| r.user_window(u) == Seq::<u64>::empty(),
    {
        ReplyPipeline {
            debounce: DebounceAggregator::new(),
            rate: RateGate::new(config.burst_limit, config.burst_window_secs),
            store: EmbeddingStore::new(),
            gate: AdmissionGate::new(config.max_concurrent_llm),
            stats: QueueStats::new(),
            config,
        }
    }

    /// Feeds one inbound message into the conversation's batch.  Whoever
    /// gets `FirstPending` owns the debounce wait; everyone else is done.
    pub fn on_message(
        &mut self,
        key: ConvKey,
        text: String,
        now_ms: u64,
        user_id: Option<u64>,
        user_name: String,
    ) -> (r: SubmitOutcome)
        requires
            old(self).wf(),
        ensures
            final(self).wf(),
            final(self).batches() == submit_step(
                old(self).batches(),
                key,
                text@,
                now_ms,
                user_id,
                user_name@,
            ),
            r == SubmitOutcome::FirstPending <==> !old(self).batches().dom().contains(key),
            final(self).memory() == old(self).memory(),
            final(self).in_flight() == old(self).in_flight(),
            final(self).stats() == old(self).stats(),
            final(self).config() == old(self).config(),
            forall|c: i64| final(self).last_reply(c) == old(self).last_reply(c),
            forall|u: u64| final(self).user_window(u) == old(self).user_window(u),
    {
        self.debounce.submit(key, text, now_ms, user_id, user_name)
    }

    /// Attempts to flush the conversation's batch after the debounce wait.
    pub fn after_debounce(&mut self, key: ConvKey, now_ms: u64) -> (r: FlushOutcome)
        requires
            old(self).wf(),
        ensures
            final(self).wf(),
            final(self).batches() == flush_state(
                old(self).batches(),
                key,
                now_ms,
                old(self).config().debounce_ms,
            ),
            match r {
                FlushOutcome::NotFound => !old(self).batches().dom().contains(key),
                FlushOutcome::ExtendWait => old(self).batches().dom().contains(key)
                    && elapsed_spec(now_ms, old(self).batches()[key].last_arrival) < old(
                    self,
                ).config().debounce_ms / 2,
                FlushOutcome::Flushed(t) => old(self).batches().dom().contains(key)
                    && elapsed_spec(now_ms, old(self).batches()[key].last_arrival) >= old(
                    self,
                ).config().debounce_ms / 2 && t@ == crate::text::join_spec(
                    old(self).batches()[key].messages,
                    seq!['\n'],
                ),
            },
            final(self).memory() == old(self).memory(),
            final(self).in_flight() == old(self).in_flight(),
            final(self).stats() == old(self).stats(),
            final(self).config() == old(self).config(),
            forall|c: i64| final(self).last_reply(c) == old(self).last_reply(c),
            forall|u: u64| final(self).user_window(u) == old(self).user_window(u),
    {
        self.debounce.try_flush(key, now_ms, self.config.debounce_ms)
    }

    /// Consumes the conversation's batch unconditionally, after an extended
    /// wait also timed out.
    pub fn force_flush(&mut self, key: ConvKey) -> (r: Option<String>)
        requires
            old(self).wf(),
        ensures
            final(self).wf(),
            final(self).batches() == old(self).batches().remove(key),
            match r {
                Some(t) => old(self).batches().dom().contains(key) && t@
                    == crate::text::join_spec(old(self).batches()[key].messages, seq!['\n']),
                None => !old(self).batches().dom().contains(key),
            },
            final(self).memory() == old(self).memory(),
            final(self).in_flight() == old(self).in_flight(),
            final(self).stats() == old(self).stats(),
            final(self).config() == old(self).config(),
            forall|c: i64| final(self).last_reply(c) == old(self).last_reply(c),
            forall|u: u64| final(self).user_window(u) == old(self).user_window(u),
    {
        self.debounce.force_flush(key)
    }

    /// Runs the trigger and the two rate gates over one flushed turn, in
    /// order: the trigger decides first, without touching any state; a
    /// positive decision then passes the per-user burst gate and last the
    /// per-conversation cooldown, whose stamp is set in the same step that
    /// admits the turn.
    pub fn gate_turn(
        &mut self,
        ctx: &TriggerContext,
        mode_all: bool,
        probability: u64,
        roll: u64,
        user_id: u64,
        conversation_id: i64,
        cooldown_seconds: u64,
        now_secs: u64,
    ) -> (r: GateDecision)
        requires
            old(self).wf(),
        ensures
            final(self).wf(),
            final(self).batches() == old(self).batches(),
            final(self).memory() == old(self).memory(),
            final(self).in_flight() == old(self).in_flight(),
            final(self).stats() == old(self).stats(),
            final(self).config() == old(self).config(),
            match r {
                GateDecision::Declined => reply_signal_spec(*ctx, mode_all, probability, roll)
                    is None && final(self).user_window(user_id) == old(self).user_window(user_id)
                    && final(self).last_reply(conversation_id) == old(self).last_reply(
                    conversation_id,
                ),
                GateDecision::RateLimited => reply_signal_spec(*ctx, mode_all, probability, roll)
                    is Some && !(keep_recent(
                    old(self).user_window(user_id),
                    now_secs,
                    old(self).config().burst_window_secs,
                ).len() < old(self).config().burst_limit) && final(self).last_reply(
                    conversation_id,
                ) == old(self).last_reply(conversation_id),
                GateDecision::CoolingDown => reply_signal_spec(*ctx, mode_all, probability, roll)
                    is Some && (old(self).last_reply(conversation_id) matches Some(t)
                    && elapsed_spec(now_secs, t) < cooldown_seconds) && final(self).last_reply(
                    conversation_id,
                ) == old(self).last_reply(conversation_id),
                GateDecision::Proceed(sig) => reply_signal_spec(*ctx, mode_all, probability, roll)
                    == Some(sig) && final(self).last_reply(conversation_id) == Some(now_secs)
                    && !(old(self).last_reply(conversation_id) matches Some(t) && elapsed_spec(
                    now_secs,
                    t,
                ) < cooldown_seconds),
            },
    {
        let signal = reply_signal(ctx, mode_all, probability, roll);
        match signal {
            None => GateDecision::Declined,
            Some(sig) => {
                if !self.rate.allow_user(user_id, now_secs) {
                    return GateDecision::RateLimited;
                }
                if !self.rate.allow(conversation_id, now_secs, cooldown_seconds) {
                    return GateDecision::CoolingDown;
                }
                GateDecision::Proceed(sig)
            },
        }
    }

    /// Appends one memory chunk; never blocks the reply path.
    pub fn remember(&mut self, chunk: MemoryChunk)
        requires
            old(self).wf(),
            chunk_wf(chunk),
        ensures
            final(self).wf(),
            final(self).memory() == old(self).memory().push(crate::memory::chunk_view(chunk)),
            final(self).batches() == old(self).batches(),
            final(self).in_flight() == old(self).in_flight(),
            final(self).stats() == old(self).stats(),
            final(self).config() == old(self).config(),
            forall|c: i64| final(self).last_reply(c) == old(self).last_reply(c),
            forall|u: u64| final(self).user_window(u) == old(self).user_window(u),
    {
        self.store.store(chunk)
    }

    /// Ranks the conversation's memories against the query and returns the
    /// best `top_n` texts.
    pub fn retrieve_memories(
        &self,
        conversation_id: i64,
        query: &Embedding,
        top_n: usize,
        now_secs: u64,
    ) -> (r: Vec<String>)
        requires
            self.wf(),
            query.wf(),
        ensures
            r@.map_values(|t: String| t@) == retrieve_spec(
                self.memory(),
                conversation_id,
                query@,
                top_n,
                now_secs,
                self.config().hourly_decay,
            ),
    {
        self.store.retrieve(conversation_id, query, top_n, now_secs, self.config.hourly_decay)
    }

    /// Caps the conversation's stored memories at the retention limit.
    pub fn prune_memories(&mut self, conversation_id: i64)
        requires
            old(self).wf(),
        ensures
            final(self).wf(),
            final(self).memory() == retention_spec(
                old(self).memory(),
                conversation_id,
                old(self).config().memory_retention_cap,
            ),
            final(self).batches() == old(self).batches(),
            final(self).in_flight() == old(self).in_flight(),
            final(self).stats() == old(self).stats(),
            final(self).config() == old(self).config(),
            forall|c: i64| final(self).last_reply(c) == old(self).last_reply(c),
            forall|u: u64| final(self).user_window(u) == old(self).user_window(u),
    {
        let cap = self.config.memory_retention_cap;
        self.store.cleanup_old_memories(conversation_id, cap)
    }

    /// Asks for an inference permit; a refused caller queues and asks
    /// again.
    pub fn begin_inference(&mut self) -> (r: bool)
        requires
            old(self).wf(),
        ensures
            final(self).wf(),
            r == (old(self).in_flight() < old(self).config().max_concurrent_llm),
            r ==> final(self).in_flight() == old(self).in_flight() + 1,
            !r ==> final(self).in_flight() == old(self).in_flight(),
            final(self).in_flight() <= final(self).config().max_concurrent_llm,
            final(self).batches() == old(self).batches(),
            final(self).memory() == old(self).memory(),
            final(self).stats() == old(self).stats(),
            final(self).config() == old(self).config(),
            forall|c: i64| final(self).last_reply(c) == old(self).last_reply(c),
            forall|u: u64| final(self).user_window(u) == old(self).user_window(u),
    {
        let r = self.gate.try_acquire();
        proof {
            crate::queue::lemma_queue_admission_bound(self.gate);
        }
        r
    }

    /// Returns the permit and folds the outcome into the statistics, in one
    /// step.
    pub fn finish_inference(&mut self, success: bool, response_time_ms: u64)
        requires
            old(self).wf(),
            old(self).in_flight() > 0,
            old(self).stats().total_requests < u64::MAX,
            response_time_ms <= 0x7FFF_FFFF_FFFF,
        ensures
            final(self).wf(),
            final(self).in_flight() == old(self).in_flight() - 1,
            final(self).stats().total_requests == old(self).stats().total_requests + 1,
            final(self).stats().successful_requests == old(self).stats().successful_requests + (
            if success {
                1int
            } else {
                0int
            }),
            final(self).stats().failed_requests == old(self).stats().failed_requests + (if success {
                0int
            } else {
                1int
            }),
            final(self).stats().avg_response_time_ms == (old(self).stats().avg_response_time_ms
                * (old(self).stats().total_requests as int) + response_time_ms) / (old(
                self,
            ).stats().total_requests + 1),
            final(self).batches() == old(self).batches(),
            final(self).memory() == old(self).memory(),
            final(self).config() == old(self).config(),
            forall|c: i64| final(self).last_reply(c) == old(self).last_reply(c),
            forall|u: u64| final(self).user_window(u) == old(self).user_window(u),
    {
        self.gate.release();
        update_queue_stats(&mut self.stats, success, response_time_ms);
    }

    /// Plans the delivery of one raw reply under the configured delimiter
    /// and sentinel.
    pub fn plan(&self, raw: &str, use_reply: bool) -> (p: DeliveryPlan)
        ensures
            p.chunks@.map_values(|c: String| c@) == delivery_chunks(raw@, "||"@, "<IGNORE>"@),
            p.reply_to_first == (use_reply && delivery_chunks(raw@, "||"@, "<IGNORE>"@).len()
                > 0),
    {
        let delim = crate::config::chunk_delimiter();
        let sentinel = crate::config::no_reply_sentinel();
        proof {
            reveal_strlit("||");
        }
        plan_delivery(raw, delim, sentinel, use_reply)
    }
}

} // verus!
