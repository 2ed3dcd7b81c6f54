//! A verified core for a batch audio-feature pipeline.
//!
//! The library models the data and the decisions of a pipeline that turns
//! decoded audio into fixed-dimension acoustic fingerprints and persists them
//! in batches: the feature data model, the per-frame spectral descriptors
//! over an integer power spectrum, the per-file and per-group aggregation,
//! the normalizer, and the producer/consumer batch orchestrator. Decoding,
//! the Fourier transform and the database live outside the library; they hand
//! plain values in and take plain values back.

use vstd::prelude::*;

pub mod features;
pub mod frames;
pub mod aggregate;
pub mod math;
pub mod metadata;
pub mod normalize;
pub mod pipeline;
pub mod spectral;
pub mod sync;

verus! {

/// Fixed-point scale: descriptor values carry 16 fractional bits.
pub const FEATURE_SCALE: i64 = 65536;

} // verus!

