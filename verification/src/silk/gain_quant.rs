//! Dequantization of the subframe gains from their (delta-coded) indices.

use vstd::prelude::*;
use crate::arith::clamp;
use vstd::arithmetic::power2::pow2;
use crate::silk::macros::{fx_log2lin, fx_smulwb, silk_limit, silk_log2lin, silk_lshift, silk_max, silk_min, silk_smulwb};

verus! {

pub const N_LEVELS_QGAIN: i32 = 64;
pub const MIN_DELTA_GAIN_QUANT: i32 = -4;
pub const MAX_DELTA_GAIN_QUANT: i32 = 36;
/// `(MIN_QGAIN_DB * 128) / 6 + 16 * 128` with `MIN_QGAIN_DB = 2`.
pub const OFFSET: i32 = 2090;
/// `(65536 * (((MAX_QGAIN_DB - MIN_QGAIN_DB) * 128) / 6)) / (N_LEVELS_QGAIN - 1)`
/// with `MAX_QGAIN_DB = 88`.
pub const INV_SCALE_Q16: i32 = 1_907_825;

/// The gain index after one subframe: an absolute index for the first
/// subframe of an independently coded frame (not more than 16 steps below the
/// previous one), otherwise a delta (doubled above a threshold); always limited
/// to `0..=63`.
pub open spec fn next_gain_index(ind: int, prev: int, absolute: bool) -> int {
    let p = if absolute {
        if ind > prev - 16 { ind } else { prev - 16 }
    } else {
        let ind_tmp = ind + MIN_DELTA_GAIN_QUANT;
        let threshold = 2 * MAX_DELTA_GAIN_QUANT - N_LEVELS_QGAIN + prev;
        if ind_tmp > threshold { prev + 2 * ind_tmp - threshold } else { prev + ind_tmp }
    };
    clamp(p, 0, N_LEVELS_QGAIN - 1)
}

/// The gain index after the first `k` subframes.
pub open spec fn gain_index_after(ind: Seq<i8>, prev0: int, conditional: bool, k: nat) -> int
    decreases k,
{
    if k == 0 {
        prev0
    } else {
        next_gain_index(
            ind[k - 1] as int,
            gain_index_after(ind, prev0, conditional, (k - 1) as nat),
            k == 1 && !conditional,
        )
    }
}

/// The linear Q16 gain of a gain index (log domain, 1.5 dB steps from 2 dB).
pub open spec fn gain_of_index(idx: int) -> int {
    let lg = fx_smulwb(INV_SCALE_Q16 as int, idx) + OFFSET;
    fx_log2lin(if lg < 3967 { lg } else { 3967 })
}

/// For each of the first `nb_subfr` subframes, update
/// the gain index and write its linear gain; `prev_ind` receives the last index.
pub fn silk_gains_dequant(
    gain_q16: &mut [i32; 4],
    ind: &[i8; 4],
    prev_ind: &mut i8,
    conditional: bool,
    nb_subfr: usize,
)
    requires
        nb_subfr <= 4,
    ensures
        forall|k: int| 0 <= k < nb_subfr ==> #[trigger] final(gain_q16)@[k] == gain_of_index(
            gain_index_after(ind@, *old(prev_ind) as int, conditional, (k + 1) as nat)),
        forall|k: int| nb_subfr <= k < 4 ==> #[trigger] final(gain_q16)@[k] == old(gain_q16)@[k],
        *final(prev_ind) == gain_index_after(ind@, *old(prev_ind) as int, conditional, nb_subfr as nat),
{
    let ghost p0 = *prev_ind as int;
    let ghost g0 = gain_q16@;
    let mut prev = *prev_ind as i32;
    let mut k: usize = 0;
    while k < nb_subfr
        invariant
            k <= nb_subfr <= 4,
            gain_q16@.len() == 4,
            prev == gain_index_after(ind@, p0, conditional, k as nat),
            k > 0 ==> 0 <= prev <= 63,
            k == 0 ==> -128 <= prev <= 127,
            forall|j: int| 0 <= j < k ==> #[trigger] gain_q16@[j] == gain_of_index(
                gain_index_after(ind@, p0, conditional, (j + 1) as nat)),
            forall|j: int| k <= j < 4 ==> #[trigger] gain_q16@[j] == g0[j],
        decreases nb_subfr - k,
    {
        if k == 0 && !conditional {
            prev = silk_max(ind[k] as i32, prev - 16);
        } else {
            let ind_tmp = ind[k] as i32 + MIN_DELTA_GAIN_QUANT;
            let double_step_size_threshold = 2 * MAX_DELTA_GAIN_QUANT - N_LEVELS_QGAIN + prev;
            if ind_tmp > double_step_size_threshold {
                let doubled = silk_lshift(ind_tmp, 1);
                proof {
                    vstd::arithmetic::power2::lemma2_to64();
                    crate::arith::lemma_wrap_id(ind_tmp * 2, 0x8000_0000);
                }
                prev += doubled - double_step_size_threshold;
            } else {
                prev += ind_tmp;
            }
        }
        prev = silk_limit(prev, 0, N_LEVELS_QGAIN - 1);
        proof { crate::arith::lemma_wrap16_small(prev as int); }
        let lg = silk_smulwb(INV_SCALE_Q16, prev);
        proof {
            assert(0 <= INV_SCALE_Q16 * prev <= 1_907_825 * 63) by (nonlinear_arith)
                requires 0 <= prev <= 63;
            vstd::arithmetic::div_mod::lemma_div_is_ordered(0, INV_SCALE_Q16 * prev, 0x1_0000);
            vstd::arithmetic::div_mod::lemma_div_is_ordered(INV_SCALE_Q16 * prev, 1_907_825int * 63, 0x1_0000);
        }
        gain_q16[k] = silk_log2lin(silk_min(lg + OFFSET, 3967));
        k += 1;
    }
    *prev_ind = prev as i8;
}

/// Every decoded gain index lies in `0..=63`, whatever the indices read.
pub proof fn lemma_gain_index_in_range(ind: Seq<i8>, prev0: int, conditional: bool, k: nat)
    requires
        k >= 1,
    ensures
        0 <= gain_index_after(ind, prev0, conditional, k) <= 63,
{
}


/// The exponential approximation is at least `2^16` (unit gain in Q16) on
/// every log value from `2048` (16 octaves) on.
proof fn lemma_log2lin_at_least_unity(x: int)
    requires
        2048 <= x,
    ensures
        fx_log2lin(x) >= 0x1_0000,
{
    if x < 3967 {
        let k = x / 128;
        let f = x % 128;
        vstd::arithmetic::power2::lemma2_to64();
        vstd::arithmetic::power2::lemma_pow2_pos(k as nat);
        if k > 16 {
            vstd::arithmetic::power2::lemma_pow2_strictly_increases(16, k as nat);
        }
        let out = pow2(k as nat) as int;
        let t = f * (128 - f) * -174;
        assert(t >= -65536 * f) by (nonlinear_arith) requires 0 <= f < 128, t == f * (128 - f) * -174;
        vstd::arithmetic::div_mod::lemma_div_is_ordered(-65536 * f, t, 0x1_0000);
        vstd::arithmetic::div_mod::lemma_div_multiples_vanish(-f, 0x1_0000);
        assert(-65536 * f == 0x1_0000 * -f);
        assert(crate::silk::macros::fx_log2lin_corr(f) >= 0);
        assert(out / 128 >= 0);
        assert((out / 128) * crate::silk::macros::fx_log2lin_corr(f) >= 0) by (nonlinear_arith)
            requires out / 128 >= 0, crate::silk::macros::fx_log2lin_corr(f) >= 0;
    }
}

/// Every dequantized gain lies at least 16 octaves above zero dB, i.e. it
/// is at least unit gain (`2^16` in Q16): the log gain of an index is the
/// offset of 2090 (about 16.3 octaves in Q7) plus the scaled index.
pub proof fn lemma_gain_of_index_at_least_unity(idx: int)
    requires
        0 <= idx < N_LEVELS_QGAIN,
    ensures
        0x1_0000 <= gain_of_index(idx),
{
    crate::arith::lemma_wrap16_small(idx);
    assert(INV_SCALE_Q16 as int * idx >= 0) by (nonlinear_arith) requires idx >= 0;
    vstd::arithmetic::div_mod::lemma_div_is_ordered(0, INV_SCALE_Q16 as int * idx, 0x1_0000);
    let lg = fx_smulwb(INV_SCALE_Q16 as int, idx) + OFFSET;
    assert(lg >= 2090);
    lemma_log2lin_at_least_unity(if lg < 3967 { lg } else { 3967 });
}

/// The gains `silk_gains_dequant` writes are all at least unit gain: the
/// index of each subframe stays within the quantizer's levels.
pub proof fn lemma_dequantized_gains_at_least_unity(ind: Seq<i8>, prev0: int, conditional: bool, k: nat)
    requires
        k >= 1,
    ensures
        0 <= gain_index_after(ind, prev0, conditional, k) < N_LEVELS_QGAIN,
        0x1_0000 <= gain_of_index(gain_index_after(ind, prev0, conditional, k)),
{
    lemma_gain_of_index_at_least_unity(gain_index_after(ind, prev0, conditional, k));
}

/// The correction term of the exponential approximation lies in `0..=f` and
/// does not decrease from one fractional step to the next.
proof fn lemma_log2lin_corr_step(f: int)
    requires
        0 <= f < 128,
    ensures
        0 <= crate::silk::macros::fx_log2lin_corr(f) <= f,
        f < 127 ==> crate::silk::macros::fx_log2lin_corr(f) <= crate::silk::macros::fx_log2lin_corr(f + 1),
{
    let t = f * (128 - f) * -174;
    assert(-65536 * f <= t <= 0) by (nonlinear_arith) requires 0 <= f < 128, t == f * (128 - f) * -174;
    vstd::arithmetic::div_mod::lemma_div_is_ordered(-65536 * f, t, 0x1_0000);
    vstd::arithmetic::div_mod::lemma_div_is_ordered(t, 0, 0x1_0000);
    vstd::arithmetic::div_mod::lemma_div_multiples_vanish(-f, 0x1_0000);
    assert(-65536 * f == 0x1_0000 * -f);
    if f < 127 {
        let t2 = (f + 1) * (128 - (f + 1)) * -174;
        assert(t2 >= t - 0x1_0000) by (nonlinear_arith)
            requires 0 <= f < 127, t == f * (128 - f) * -174, t2 == (f + 1) * (128 - (f + 1)) * -174;
        vstd::arithmetic::div_mod::lemma_div_is_ordered(t - 0x1_0000, t2, 0x1_0000);
        vstd::arithmetic::div_mod::lemma_div_minus_one(t, 0x1_0000);
    }
}

/// Below the saturation point the approximation of `2^(x / 128)` stays within
/// twice the power of two of its integer part.
proof fn lemma_log2lin_below_next_octave(x: int)
    requires
        0 <= x < 3967,
    ensures
        0 <= fx_log2lin(x) <= 2 * pow2((x / 128) as nat),
        2048 <= x ==> fx_log2lin(x) <= pow2((x / 128) as nat) + (pow2((x / 128) as nat) / 128) * 127,
{
    let k = x / 128;
    let f = x % 128;
    vstd::arithmetic::power2::lemma_pow2_pos(k as nat);
    let out = pow2(k as nat) as int;
    let c = crate::silk::macros::fx_log2lin_corr(f);
    lemma_log2lin_corr_step(f);
    if x < 2048 {
        assert(0 <= out * c <= out * 128) by (nonlinear_arith) requires 0 <= c <= 127, out > 0;
        vstd::arithmetic::div_mod::lemma_div_is_ordered(out * c, out * 128, 128);
        vstd::arithmetic::div_mod::lemma_div_is_ordered(0, out * c, 128);
        vstd::arithmetic::div_mod::lemma_div_multiples_vanish(out, 128);
        assert(out * 128 == 128 * out) by (nonlinear_arith);
    } else {
        let q = out / 128;
        vstd::arithmetic::div_mod::lemma_div_is_ordered(0, out, 128);
        vstd::arithmetic::div_mod::lemma_fundamental_div_mod(out, 128);
        assert(0 <= q * c <= q * 127) by (nonlinear_arith) requires 0 <= c <= 127, q >= 0;
        assert(q * 127 <= q * 128) by (nonlinear_arith) requires q >= 0;
        assert(q * 128 <= out) by (nonlinear_arith) requires out == 128 * q + out % 128, out % 128 >= 0;
    }
}

/// The approximation does not decrease from one log value to the next.
proof fn lemma_log2lin_step(x: int)
    requires
        0 <= x,
    ensures
        fx_log2lin(x) <= fx_log2lin(x + 1),
{
    if x + 1 >= 3967 {
        if x < 3967 {
            lemma_log2lin_below_next_octave(x);
            assert(x == 3966);
            assert(x / 128 == 30);
            vstd::arithmetic::power2::lemma2_to64();
            assert(pow2(30) / 128 == 0x80_0000);
        }
    } else {
        let k = x / 128;
        let f = x % 128;
        vstd::arithmetic::div_mod::lemma_fundamental_div_mod(x, 128);
        vstd::arithmetic::power2::lemma_pow2_pos(k as nat);
        let out = pow2(k as nat) as int;
        lemma_log2lin_corr_step(f);
        if f < 127 {
            vstd::arithmetic::div_mod::lemma_div_multiples_vanish_fancy(k, f + 1, 128);
            vstd::arithmetic::div_mod::lemma_mod_multiples_vanish(k, f + 1, 128);
            vstd::arithmetic::div_mod::lemma_small_mod((f + 1) as nat, 128);
            assert(x + 1 == 128 * k + (f + 1));
            assert((x + 1) / 128 == k);
            assert((x + 1) % 128 == f + 1);
            let c1 = crate::silk::macros::fx_log2lin_corr(f);
            let c2 = crate::silk::macros::fx_log2lin_corr(f + 1);
            if x < 2048 {
                assert(x + 1 < 2048);
                assert(out * c1 <= out * c2) by (nonlinear_arith) requires c1 <= c2, out > 0;
                vstd::arithmetic::div_mod::lemma_div_is_ordered(out * c1, out * c2, 128);
            } else {
                vstd::arithmetic::div_mod::lemma_div_is_ordered(0, out, 128);
                let q = out / 128;
                assert(q * c1 <= q * c2) by (nonlinear_arith) requires c1 <= c2, q >= 0;
            }
        } else {
            vstd::arithmetic::div_mod::lemma_div_multiples_vanish_fancy(k + 1, 0, 128);
            vstd::arithmetic::div_mod::lemma_mod_multiples_vanish(k + 1, 0, 128);
            assert(x + 1 == 128 * (k + 1) + 0);
            assert((x + 1) / 128 == k + 1);
            assert((x + 1) % 128 == 0);
            vstd::arithmetic::power2::lemma_pow2_unfold((k + 1) as nat);
            assert(crate::silk::macros::fx_log2lin_corr(0) == 0);
            lemma_log2lin_below_next_octave(x);
        }
    }
}

/// The approximation is monotone on the non-negative log values.
proof fn lemma_log2lin_monotone(x: int, y: int)
    requires
        0 <= x <= y,
    ensures
        fx_log2lin(x) <= fx_log2lin(y),
    decreases y - x,
{
    if x < y {
        lemma_log2lin_monotone(x, y - 1);
        lemma_log2lin_step(y - 1);
    }
}

/// A larger gain index never gives a smaller gain: the quantizer's levels are
/// ordered.
pub proof fn lemma_gain_grows_with_index(i: int, j: int)
    requires
        0 <= i <= j < N_LEVELS_QGAIN,
    ensures
        gain_of_index(i) <= gain_of_index(j),
{
    crate::arith::lemma_wrap16_small(i);
    crate::arith::lemma_wrap16_small(j);
    assert(0 <= INV_SCALE_Q16 as int * i <= INV_SCALE_Q16 as int * j) by (nonlinear_arith)
        requires 0 <= i <= j;
    vstd::arithmetic::div_mod::lemma_div_is_ordered(INV_SCALE_Q16 as int * i, INV_SCALE_Q16 as int * j, 0x1_0000);
    vstd::arithmetic::div_mod::lemma_div_is_ordered(0, INV_SCALE_Q16 as int * i, 0x1_0000);
    let li = fx_smulwb(INV_SCALE_Q16 as int, i) + OFFSET;
    let lj = fx_smulwb(INV_SCALE_Q16 as int, j) + OFFSET;
    assert(0 <= li <= lj);
    lemma_log2lin_monotone(if li < 3967 { li } else { 3967 }, if lj < 3967 { lj } else { 3967 });
}

} // verus!
