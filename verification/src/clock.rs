//! Clock-domain constants shared by the pipeline stages, and the two exact
//! integer conversions derived from them.
//!
//! The source device samples flux transitions with a clock of
//! `((18_432_000 * 73) / 14) / 2 / 2 = 18_432_000 * 73 / 56` Hz, so one source
//! tick lasts `10^6 * 56 / (18_432_000 * 73) = 875 / 21_024` microseconds.
//! The playback device counts a 72_000_000 Hz tick, so one source tick is
//! `72_000_000 * 56 / (18_432_000 * 73) = 875 / 292` target ticks. Both ratios
//! are exact; no floating point is involved anywhere in the pipeline.

use vstd::prelude::*;

verus! {

/// Numerator of the microseconds-per-source-tick ratio `875 / 21_024`.
pub const US_PER_TICK_NUM: u64 = 875;

/// Denominator of the microseconds-per-source-tick ratio `875 / 21_024`.
pub const US_PER_TICK_DEN: u64 = 21_024;

/// Numerator of the target-ticks-per-source-tick ratio `875 / 292`.
pub const FF_TICKS_NUM: u64 = 875;

/// Denominator of the target-ticks-per-source-tick ratio `875 / 292`.
pub const FF_TICKS_DEN: u64 = 292;

/// Duration of `interval` source ticks in whole microseconds, rounded to the
/// nearest integer with ties rounding up:
/// `round(interval * 875 / 21_024) == floor((interval * 1750 + 21_024) / 42_048)`.
pub open spec fn spec_round_us(interval: u16) -> int {
    (interval * 1750 + 21_024) / 42_048
}

/// Whole target-device ticks spanned by `interval` source ticks, truncated:
/// `floor(interval * 875 / 292)`.
pub open spec fn spec_ff_ticks(interval: u16) -> int {
    (interval * 875) / 292
}

/// Rounded microsecond duration of one interval, as the precompensation pass
/// classifies cells. The result is at most 2728 (the duration of a maximal
/// 16-bit interval), so it fits comfortably in a `u16`.
pub fn round_us(interval: u16) -> (r: u16)
    ensures
        r == spec_round_us(interval),
        r <= 2728,
{
    let scaled: u64 = (interval as u64) * 1750 + 21_024;
    let q: u64 = scaled / 42_048;
    proof {
        assert(q <= 2728) by (nonlinear_arith)
            requires
                q == scaled / 42_048,
                scaled <= 114_707_274,
        ;
    }
    q as u16
}

/// Target-tick span of one interval. The result is at most 196_380
/// (`floor(65_535 * 875 / 292)`).
pub fn ff_ticks(interval: u16) -> (r: u64)
    ensures
        r == spec_ff_ticks(interval),
        r <= 196_380,
{
    let scaled: u64 = (interval as u64) * 875;
    let q: u64 = scaled / 292;
    proof {
        assert(q <= 196_380) by (nonlinear_arith)
            requires
                q == scaled / 292,
                scaled <= 57_343_125,
        ;
    }
    q
}

} // verus!
