//! Write-precompensation adjuster: nudges the timing of transitions adjacent
//! to short/long cell boundaries, each side by the same fixed magnitude.
//!
//! Intervals are classified by their duration rounded to whole microseconds.
//! Scanning left to right with a two-sample window, a 2 us cell followed by a
//! cell of 3 us or more moves `precomp` ticks from the earlier interval to the
//! later one; a cell of 3 us or more followed by a 2 us cell moves them the
//! other way. Corrections land on a working copy of the raw values, and
//! corrections from neighbouring steps on the same index accumulate. The
//! 2 us threshold is a protocol constant of the source device's cell timing.

use vstd::arithmetic::div_mod::{
    lemma_fundamental_div_mod,
    lemma_mod_multiples_vanish,
    lemma_small_mod,
};
use vstd::prelude::*;
use crate::clock::{round_us, spec_round_us};

verus! {

/// Sum of a sequence of unbounded integers.
pub open spec fn int_sum(s: Seq<int>) -> int
    decreases s.len(),
{
    if s.len() == 0 {
        0
    } else {
        s[0] + int_sum(s.drop_first())
    }
}

/// The raw intervals, widened to unbounded integers.
pub open spec fn raw_as_ints(raw: Seq<u16>) -> Seq<int> {
    Seq::new(raw.len(), |i: int| raw[i] as int)
}

/// The short-then-long rule fires at step `i`: the previous cell rounds to
/// 2 us and the current one to 3 us or more.
pub open spec fn fires_short_long(raw: Seq<u16>, i: int) -> bool {
    spec_round_us(raw[i - 1]) == 2 && spec_round_us(raw[i]) >= 3
}

/// The long-then-short rule fires at step `i`: the previous cell rounds to
/// 3 us or more and the current one to 2 us.
pub open spec fn fires_long_short(raw: Seq<u16>, i: int) -> bool {
    spec_round_us(raw[i - 1]) >= 3 && spec_round_us(raw[i]) == 2
}

/// The adjusted revolution after the first `n` scan steps, as unbounded
/// integers: each firing step moves `precomp` ticks between the two intervals
/// at the boundary. No rule can fire at step 0, where the window's older slot
/// is still the seed value 0.
pub open spec fn spec_adjust_upto(raw: Seq<u16>, precomp: u16, n: int) -> Seq<int>
    decreases n,
{
    if n <= 0 {
        raw_as_ints(raw)
    } else {
        let prev = spec_adjust_upto(raw, precomp, n - 1);
        let i = n - 1;
        if 1 <= i < raw.len() && fires_short_long(raw, i) {
            prev.update(i - 1, prev[i - 1] - precomp).update(i, prev[i] + precomp)
        } else if 1 <= i < raw.len() && fires_long_short(raw, i) {
            prev.update(i - 1, prev[i - 1] + precomp).update(i, prev[i] - precomp)
        } else {
            prev
        }
    }
}

/// The fully adjusted revolution, as unbounded integers.
pub open spec fn spec_adjusted(raw: Seq<u16>, precomp: u16) -> Seq<int> {
    spec_adjust_upto(raw, precomp, raw.len() as int)
}

/// The pass never changes a revolution's length.
pub proof fn lemma_adjust_upto_len(raw: Seq<u16>, precomp: u16, n: int)
    requires
        0 <= n,
    ensures
        spec_adjust_upto(raw, precomp, n).len() == raw.len(),
    decreases n,
{
    if n > 0 {
        lemma_adjust_upto_len(raw, precomp, n - 1);
    }
}

proof fn lemma_int_sum_update(s: Seq<int>, k: int, v: int)
    requires
        0 <= k < s.len(),
    ensures
        int_sum(s.update(k, v)) == int_sum(s) - s[k] + v,
    decreases s.len(),
{
    if k == 0 {
        assert(s.update(0, v).drop_first() =~= s.drop_first());
        assert(int_sum(s.update(0, v)) == v + int_sum(s.update(0, v).drop_first()));
    } else {
        assert(s.update(k, v).drop_first() =~= s.drop_first().update(k - 1, v));
        lemma_int_sum_update(s.drop_first(), k - 1, v);
        assert(int_sum(s.update(k, v)) == s[0] + int_sum(s.update(k, v).drop_first()));
    }
}

proof fn lemma_precomp_zero_sum_upto(raw: Seq<u16>, precomp: u16, n: int)
    requires
        0 <= n,
    ensures
        int_sum(spec_adjust_upto(raw, precomp, n)) == int_sum(raw_as_ints(raw)),
    decreases n,
{
    if n > 0 {
        lemma_precomp_zero_sum_upto(raw, precomp, n - 1);
        lemma_adjust_upto_len(raw, precomp, n - 1);
        let prev = spec_adjust_upto(raw, precomp, n - 1);
        let i = n - 1;
        if 1 <= i < raw.len() && fires_short_long(raw, i) {
            let mid = prev.update(i - 1, prev[i - 1] - precomp);
            lemma_int_sum_update(prev, i - 1, prev[i - 1] - precomp);
            lemma_int_sum_update(mid, i, prev[i] + precomp);
        } else if 1 <= i < raw.len() && fires_long_short(raw, i) {
            let mid = prev.update(i - 1, prev[i - 1] + precomp);
            lemma_int_sum_update(prev, i - 1, prev[i - 1] + precomp);
            lemma_int_sum_update(mid, i, prev[i] - precomp);
        }
    }
}

/// The pass is a zero-sum perturbation: every correction is paired, one
/// interval gaining exactly what its neighbour loses, so the total tick mass
/// of a revolution is unchanged — for any precompensation magnitude and any
/// revolution.
pub proof fn lemma_precomp_zero_sum(raw: Seq<u16>, precomp: u16)
    ensures
        int_sum(spec_adjusted(raw, precomp)) == int_sum(raw_as_ints(raw)),
{
    lemma_precomp_zero_sum_upto(raw, precomp, raw.len() as int);
}

proof fn lemma_precomp_zero_identity_upto(raw: Seq<u16>, n: int)
    requires
        0 <= n,
    ensures
        spec_adjust_upto(raw, 0, n) == raw_as_ints(raw),
    decreases n,
{
    if n > 0 {
        lemma_precomp_zero_identity_upto(raw, n - 1);
        lemma_adjust_upto_len(raw, 0, n - 1);
        assert(spec_adjust_upto(raw, 0, n) =~= spec_adjust_upto(raw, 0, n - 1));
    }
}

/// With a zero precompensation magnitude the pass is the identity: the
/// adjusted revolution carries exactly the raw values.
pub proof fn lemma_precomp_zero_identity(raw: Seq<u16>)
    ensures
        spec_adjusted(raw, 0) == raw_as_ints(raw),
{
    lemma_precomp_zero_identity_upto(raw, raw.len() as int);
}

proof fn lemma_mod_shift(a: int, d: int)
    ensures
        (a % 0x1_0000 + 0x1_0000 + d) % 0x1_0000 == (a + d) % 0x1_0000,
{
    lemma_fundamental_div_mod(a, 0x1_0000);
    lemma_mod_multiples_vanish(1 - a / 0x1_0000, a + d, 0x1_0000);
}

/// Apply the precompensation pass to one revolution.
///
/// The output has the input's length; each output interval is the integer
/// model's value for that index reduced into the 16-bit range (a correction
/// that would leave the range wraps around, which on real captures does not
/// occur). With a zero magnitude the output is bit-identical to the input.
pub fn apply_precomp(raw: &Vec<u16>, precomp: u16) -> (adj: Vec<u16>)
    ensures
        adj@.len() == raw@.len(),
        forall|j: int|
            0 <= j < raw@.len() ==> adj@[j] == spec_adjusted(raw@, precomp)[j] % 0x1_0000,
        forall|j: int|
            0 <= j < raw@.len() && 0 <= #[trigger] spec_adjusted(raw@, precomp)[j] < 0x1_0000
                ==> adj@[j] == spec_adjusted(raw@, precomp)[j],
        precomp == 0 ==> adj@ == raw@,
{
    let n = raw.len();
    let mut adj: Vec<u16> = Vec::new();
    let mut k: usize = 0;
    while k < n
        invariant
            k <= n,
            n == raw@.len(),
            adj@.len() == k,
            forall|j: int| 0 <= j < k ==> adj@[j] == raw@[j],
        decreases n - k,
    {
        adj.push(raw[k]);
        k = k + 1;
    }

    proof {
        lemma_adjust_upto_len(raw@, precomp, 0);
        assert forall|j: int| 0 <= j < n implies adj@[j] == #[trigger] spec_adjust_upto(
            raw@,
            precomp,
            0,
        )[j] % 0x1_0000 by {
            lemma_small_mod(raw@[j] as nat, 0x1_0000);
        }
    }

    let mut prev1: u16 = 0;
    let mut i: usize = 0;
    while i < n
        invariant
            i <= n,
            n == raw@.len(),
            adj@.len() == n,
            i >= 1 ==> prev1 == spec_round_us(raw@[i as int - 1]),
            i == 0 ==> prev1 == 0,
            forall|j: int|
                0 <= j < n ==> adj@[j] == #[trigger] spec_adjust_upto(raw@, precomp, i as int)[j]
                    % 0x1_0000,
        decreases n - i,
    {
        let r = round_us(raw[i]);
        let prev2 = prev1;
        proof {
            lemma_adjust_upto_len(raw@, precomp, i as int);
        }
        if i >= 1 && prev2 == 2 && r >= 3 {
            let ghost prev = spec_adjust_upto(raw@, precomp, i as int);
            let a = adj[i - 1];
            let nv: u16 = (((a as u32) + 0x1_0000 - (precomp as u32)) % 0x1_0000) as u16;
            adj.set(i - 1, nv);
            let b = adj[i];
            let nv2: u16 = (((b as u32) + 0x1_0000 + (precomp as u32)) % 0x1_0000) as u16;
            adj.set(i, nv2);
            proof {
                lemma_mod_shift(prev[i as int - 1], -(precomp as int));
                lemma_mod_shift(prev[i as int], precomp as int);
            }
        } else if i >= 1 && prev2 >= 3 && r == 2 {
            let ghost prev = spec_adjust_upto(raw@, precomp, i as int);
            let a = adj[i - 1];
            let nv: u16 = (((a as u32) + 0x1_0000 + (precomp as u32)) % 0x1_0000) as u16;
            adj.set(i - 1, nv);
            let b = adj[i];
            let nv2: u16 = (((b as u32) + 0x1_0000 - (precomp as u32)) % 0x1_0000) as u16;
            adj.set(i, nv2);
            proof {
                lemma_mod_shift(prev[i as int - 1], precomp as int);
                lemma_mod_shift(prev[i as int], -(precomp as int));
            }
        }
        prev1 = r;
        i = i + 1;
    }

    proof {
        assert forall|j: int|
            0 <= j < n && 0 <= #[trigger] spec_adjusted(raw@, precomp)[j] < 0x1_0000 implies adj@[j]
            == spec_adjusted(raw@, precomp)[j] by {
            assert(adj@[j] == spec_adjust_upto(raw@, precomp, n as int)[j] % 0x1_0000);
            lemma_small_mod(spec_adjusted(raw@, precomp)[j] as nat, 0x1_0000);
        }
        if precomp == 0 {
            lemma_precomp_zero_identity(raw@);
            assert forall|j: int| 0 <= j < n implies adj@[j] == raw@[j] by {
                assert(adj@[j] == spec_adjust_upto(raw@, precomp, n as int)[j] % 0x1_0000);
                assert(spec_adjust_upto(raw@, precomp, n as int) == raw_as_ints(raw@));
                assert(raw_as_ints(raw@)[j] == raw@[j]);
                lemma_small_mod(raw@[j] as nat, 0x1_0000);
            }
            assert(adj@ =~= raw@);
        }
    }
    adj
}

} // verus!
