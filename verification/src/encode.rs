//! Clock rescaler / counter encoder: converts one adjusted revolution from
//! source-clock ticks into the playback device's tick domain and encodes it
//! as a wrapping absolute counter stream.
//!
//! Each interval is rescaled by the exact ratio 875 / 292 with truncation,
//! then added into a 16-bit accumulator that wraps silently; the accumulator
//! is sampled after every interval. The stream therefore carries absolute
//! counter samples, not deltas: a reader recovers each interval's tick span
//! by wrapping subtraction of consecutive samples.

use vstd::arithmetic::div_mod::{lemma_fundamental_div_mod, lemma_mod_multiples_vanish};
use vstd::prelude::*;
use crate::clock::{ff_ticks, spec_ff_ticks};

verus! {

/// The counter's fixed, arbitrary non-zero seed value.
pub const COUNTER_SEED: u16 = 0x4321;

/// The wrapping counter after the first `n` intervals of `rev` have been
/// accumulated: the seed plus each interval's target-tick span, modulo 2^16.
pub open spec fn spec_counter(rev: Seq<u16>, n: int) -> int
    decreases n,
{
    if n <= 0 {
        0x4321
    } else {
        (spec_counter(rev, n - 1) + spec_ff_ticks(rev[n - 1])) % 0x1_0000
    }
}

/// Counter values always lie in the 16-bit range.
pub proof fn lemma_counter_in_range(rev: Seq<u16>, n: int)
    ensures
        0 <= spec_counter(rev, n) < 0x1_0000,
{
}

/// Rescale one adjusted revolution into target ticks and encode it as the
/// wrapping counter stream: output sample `i` is the counter's value after
/// the intervals `0..=i` have been accumulated.
pub fn encode_revolution(rev: &Vec<u16>) -> (out: Vec<u16>)
    ensures
        out@.len() == rev@.len(),
        forall|i: int| 0 <= i < rev@.len() ==> out@[i] == spec_counter(rev@, i + 1),
{
    let n = rev.len();
    let mut out: Vec<u16> = Vec::new();
    let mut counter: u16 = COUNTER_SEED;
    let mut i: usize = 0;
    while i < n
        invariant
            i <= n,
            n == rev@.len(),
            out@.len() == i,
            counter == spec_counter(rev@, i as int),
            forall|k: int| 0 <= k < i ==> out@[k] == spec_counter(rev@, k + 1),
        decreases n - i,
    {
        let t = ff_ticks(rev[i]);
        counter = (((counter as u64) + t) % 0x1_0000) as u16;
        out.push(counter);
        i = i + 1;
    }
    out
}

/// The byte expected at position `j` of a counter stream's on-disk form:
/// sample `j / 2` contributes its low byte first, then its high byte.
pub open spec fn spec_le_byte_at(samples: Seq<u16>, j: int) -> u8 {
    if j % 2 == 0 {
        (samples[j / 2] % 256) as u8
    } else {
        (samples[j / 2] / 256) as u8
    }
}

/// Serialise a counter stream as it lies on disk: each 16-bit sample as two
/// bytes, little endian.
pub fn counter_stream_bytes(samples: &Vec<u16>) -> (out: Vec<u8>)
    ensures
        out@.len() == 2 * samples@.len(),
        forall|j: int| 0 <= j < out@.len() ==> out@[j] == spec_le_byte_at(samples@, j),
{
    let n = samples.len();
    let mut out: Vec<u8> = Vec::new();
    let mut i: usize = 0;
    while i < n
        invariant
            i <= n,
            n == samples@.len(),
            out@.len() == 2 * i,
            forall|j: int| 0 <= j < 2 * i ==> out@[j] == spec_le_byte_at(samples@, j),
        decreases n - i,
    {
        let s = samples[i];
        out.push((s % 256) as u8);
        out.push((s / 256) as u8);
        proof {
            assert((2 * i as int) % 2 == 0 && (2 * i as int) / 2 == i as int);
            assert((2 * i as int + 1) % 2 == 1 && (2 * i as int + 1) / 2 == i as int);
            assert(out@[2 * i as int] == spec_le_byte_at(samples@, 2 * i as int));
            assert(out@[2 * i as int + 1] == spec_le_byte_at(samples@, 2 * i as int + 1));
        }
        i = i + 1;
    }
    out
}

/// Round trip under wrapping subtraction: subtracting consecutive counter
/// samples (the first sample against the seed) modulo 2^16 reproduces each
/// interval's rescaled tick span `floor(interval * 875 / 292) mod 2^16`,
/// correctly even across counter wraparound.
pub proof fn lemma_counter_round_trip(rev: Seq<u16>, i: int)
    requires
        0 <= i < rev.len(),
    ensures
        (spec_counter(rev, i + 1) - spec_counter(rev, i)) % 0x1_0000 == spec_ff_ticks(rev[i])
            % 0x1_0000,
{
    let c = spec_counter(rev, i);
    let f = spec_ff_ticks(rev[i]);
    lemma_fundamental_div_mod(c + f, 0x1_0000);
    lemma_mod_multiples_vanish(-((c + f) / 0x1_0000), f, 0x1_0000);
}

} // verus!
