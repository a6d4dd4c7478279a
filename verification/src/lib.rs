//! Verified core of a latency-trace post-processor.
//!
//! A traffic generator writes a binary trace: a flat sequence of records,
//! each record 16 bytes holding two little-endian IEEE-754 doubles, a
//! transmit timestamp followed by an arrival timestamp. This crate holds the
//! parts of the post-processor with real algorithmic content, verified:
//! decoding records from bytes, a restartable record stream, an online
//! statistics accumulator, window trimming, and run-length anomaly
//! detection over integer-microsecond latency samples.
//!
//! The crate never touches floating point: timestamps travel through it as
//! raw `u64` bit patterns, and latencies as `i64` microsecond values that
//! the caller derives at the edge. File reading, number formatting and
//! plotting live outside the library.

use vstd::prelude::*;

pub mod detect;
pub mod record;
pub mod report;
pub mod stream;
pub mod tally;
pub mod window;

verus! {

/// A rejected configuration, caught before any file work is attempted.
#[derive(Clone, Copy, Debug, PartialEq, Eq, Structural)]
pub enum ConfigError {
    /// The seconds-to-cut value was negative.
    NegativeCut,
    /// A fixed threshold and a deviation percentage were both given; the two
    /// detection modes are mutually exclusive.
    ConflictingThresholds,
}

/// Largest number of latency samples one analysis accepts: 2^31 records is
/// a 32 GiB trace. Together with `MAX_ABS_LATENCY_US` this bound keeps every
/// 128-bit moment accumulator in the crate provably exact.
pub const MAX_SAMPLES: u64 = 0x8000_0000;

/// Largest magnitude accepted for one latency sample, in microseconds:
/// 2^47 us is about 1630 days. Together with `MAX_SAMPLES` this keeps each
/// sum of squares at or under 2^31 * 2^94 = 2^125, inside `i128`.
pub const MAX_ABS_LATENCY_US: i64 = 0x8000_0000_0000;

/// Largest deviation percentage the adaptive threshold accepts: a thousandfold
/// raise. It keeps the computed threshold well inside `i64`.
pub const MAX_DEVIATION_PERCENT: u32 = 100_000;

} // verus!
