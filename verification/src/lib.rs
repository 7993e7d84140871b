//! Empirical entropy estimation for a system's high-resolution clock.
//!
//! The library samples a nanosecond timer a fixed number of times, builds
//! histograms over the low-order bits of the samples and over successive
//! differences, and derives per-bit statistics from which a binary Shannon
//! entropy estimate can be computed.

pub mod analyze;
pub mod histogram;
pub mod sampler;
pub mod sums;

pub use analyze::{AnalysisError, BitStats, analyze_bits, entropy_is_zero, fold};
pub use histogram::{DataOut, accumulate, collect};
pub use sampler::{get_input, to_nanos};

use vstd::prelude::*;

verus! {

/// Number of timer samples taken in one run.
pub const SAMPLE_COUNT: usize = 100000;

/// Width in bits of the low-order-bits histogram index.
pub const LOW_BITS: usize = 10;

/// Width in bits of the difference histogram index.
pub const DIFF_BITS: usize = 10;

/// Number of bins of the folded difference histogram.
pub const LOW_DIFF: usize = 32;

} // verus!
