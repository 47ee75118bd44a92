//! Reply-decision and delivery pipeline for an AI-driven chat account.
//!
//! The crate covers the core of the pipeline: message debouncing, trigger and
//! rate-limit gating, time-decayed vector-memory retrieval, prompt assembly,
//! an admission-controlled inference queue, and a humanized multi-chunk
//! delivery scheduler.  Quantities that the surrounding system measures as
//! floating point (similarity scores, decay factors, probabilities) are held
//! here as fixed-point integers in micro units, so that every computation on
//! them is verified.

use vstd::prelude::*;

pub mod api;
pub mod config;
pub mod debounce;
pub mod delivery;
pub mod entropy;
pub mod humanize;
pub mod markdown;
pub mod memory;
pub mod model;
pub mod metrics;
pub mod pipeline;
pub mod prompt;
pub mod queue;
pub mod rate;
pub mod search;
mod slots;
pub mod text;
pub mod trigger;

verus! {

/// Fixed-point scale: one whole unit is a million micro units.
pub const SCALE: u64 = 1_000_000;

} // verus!
