//! Core of an audio visualizer: a capture chunk is reduced to a fixed-length
//! frame of visual intensities, which an orchestrator republishes to its
//! consumers.
//!
//! All quantities are fixed-point integers: a real value `x` is stored as the
//! `i64` nearest `x * FP_ONE`. This keeps every step of the pipeline total and
//! exact — no value can become `NaN` or infinite — while the guards the
//! analyzers apply (a zero baseline, a vanishing product) mirror the hazards
//! of the underlying signal processing.

use vstd::prelude::*;

pub mod analyzer_fft;
pub mod analyzer_rolling;
pub mod serial;
pub mod utils;
pub mod viravis;

verus! {

/// One intensity unit in raw fixed-point steps (values are thousandths).
pub const FP_ONE: i64 = 1000;

/// Largest magnitude a raw chunk sample may carry (eight units of headroom
/// above full-scale audio at `FP_ONE`).
pub const CHUNK_AMP: i64 = 8000;

/// Largest value a frame slot may carry; every analyzer output stays within
/// `[0, FRAME_MAX]`.
pub const FRAME_MAX: i64 = 1_000_000_000_000;

/// Longest frame (visualization resolution) the pipeline accepts.
pub const MAX_FRAME_LEN: usize = 8192;

/// Longest raw chunk one capture callback may deliver.
pub const MAX_CHUNK_LEN: usize = 65536;

} // verus!
