//! Waveform-trace computation: the timed two-level signal behind the optional
//! trace artifact. The signal is high for a short fixed window ending at each
//! flux transition and low otherwise; this module computes the edge list, and
//! the writer at the edge only serialises it.

use vstd::prelude::*;

verus! {

/// Width of the high pulse ending at each transition, in source ticks
/// (roughly 250 ns at the source sampling rate).
pub const PULSE_TICKS: u16 = 6;

/// One edge of the two-level waveform: at `time` source ticks after the start
/// of the revolution, the signal becomes high or low.
#[derive(Clone, Copy, Debug, PartialEq, Eq, Structural)]
pub struct TraceEvent {
    pub time: u64,
    pub high: bool,
}

/// Total source ticks spanned by the first `n` intervals of `rev`.
pub open spec fn spec_cum_ticks(rev: Seq<u16>, n: int) -> int
    decreases n,
{
    if n <= 0 {
        0
    } else {
        spec_cum_ticks(rev, n - 1) + rev[n - 1]
    }
}

/// Cumulative tick counts are bounded by the interval count times the largest
/// 16-bit interval.
pub proof fn lemma_cum_ticks_bound(rev: Seq<u16>, n: int)
    requires
        0 <= n <= rev.len(),
    ensures
        0 <= spec_cum_ticks(rev, n) <= n * 0xffff,
    decreases n,
{
    if n > 0 {
        lemma_cum_ticks_bound(rev, n - 1);
    }
}

/// When the pulse ending at transition `i` rises: `PULSE_TICKS` before the
/// transition, clipped to the transition's own interval.
pub open spec fn spec_rise_time(rev: Seq<u16>, i: int) -> int {
    spec_cum_ticks(rev, i) + (if rev[i] >= PULSE_TICKS {
        rev[i] - PULSE_TICKS
    } else {
        0
    })
}

/// The edge expected at position `j` of a revolution's edge list: positions
/// come in pairs, a rising edge shortly before transition `j / 2` and a
/// falling edge at the transition itself.
pub open spec fn spec_event_at(rev: Seq<u16>, j: int) -> TraceEvent {
    if j % 2 == 0 {
        TraceEvent { time: spec_rise_time(rev, j / 2) as u64, high: true }
    } else {
        TraceEvent { time: spec_cum_ticks(rev, j / 2 + 1) as u64, high: false }
    }
}

/// Compute the waveform edge list for one revolution: for each interval one
/// rising edge shortly before its transition and one falling edge at the
/// transition itself, in time order. The caller emits the initial low level.
/// The length bound keeps the cumulative tick count inside a `u64`.
pub fn trace_events(rev: &Vec<u16>) -> (out: Vec<TraceEvent>)
    requires
        rev@.len() <= 0x1_0000_0000_0000,
    ensures
        out@.len() == 2 * rev@.len(),
        forall|j: int| 0 <= j < out@.len() ==> out@[j] == spec_event_at(rev@, j),
{
    let n = rev.len();
    let mut out: Vec<TraceEvent> = Vec::new();
    let mut t: u64 = 0;
    let mut i: usize = 0;
    while i < n
        invariant
            i <= n,
            n == rev@.len(),
            n <= 0x1_0000_0000_0000,
            out@.len() == 2 * i,
            t == spec_cum_ticks(rev@, i as int),
            forall|j: int| 0 <= j < 2 * i ==> out@[j] == spec_event_at(rev@, j),
        decreases n - i,
    {
        proof {
            lemma_cum_ticks_bound(rev@, i as int + 1);
        }
        let interval = rev[i];
        let start: u64 = if interval >= PULSE_TICKS {
            t + ((interval - PULSE_TICKS) as u64)
        } else {
            t
        };
        out.push(TraceEvent { time: start, high: true });
        t = t + (interval as u64);
        out.push(TraceEvent { time: t, high: false });
        proof {
            assert((2 * i as int) % 2 == 0 && (2 * i as int) / 2 == i as int);
            assert((2 * i as int + 1) % 2 == 1 && (2 * i as int + 1) / 2 == i as int);
            assert(out@[2 * i as int] == spec_event_at(rev@, 2 * i as int));
            assert(out@[2 * i as int + 1] == spec_event_at(rev@, 2 * i as int + 1));
        }
        i = i + 1;
    }
    out
}

} // verus!
