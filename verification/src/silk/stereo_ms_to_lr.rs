//! Conversion of a decoded mid/side frame to left/right, with the side channel
//! corrected by interpolated stereo predictors.

use vstd::prelude::*;
pub use crate::silk::structs::StereoDecState;
use vstd::arithmetic::power2::pow2;
use crate::arith::{clamp, wrap16, wrap32, lemma_wrap_id, lemma_wrap16_small};
use crate::silk::macros::{
    fx_div32, fx_rshift_round, fx_shl32, fx_smulwb, silk_add_lshift32, silk_div32_16, silk_lshift,
    silk_rshift_round, silk_sat16, silk_smlawb, silk_smulbb,
};

verus! {

pub const STEREO_INTERP_LEN_MS: i32 = 8;

/// The per-sample predictor step over the interpolation window.
pub open spec fn pred_delta(new: int, prev: int, fs_khz: int) -> int {
    fx_rshift_round(wrap16(new - prev) * wrap16(fx_div32(0x1_0000, STEREO_INTERP_LEN_MS * fs_khz)), 16)
}

/// The predictor used for output sample `n`: linearly interpolated from the
/// previous frame's value over the first `8 * fs_khz` samples, then the new one.
pub open spec fn pred_at(new: int, prev: int, fs_khz: int, n: int) -> int {
    if n < STEREO_INTERP_LEN_MS * fs_khz {
        prev + (n + 1) * pred_delta(new, prev, fs_khz)
    } else {
        new
    }
}

/// The corrected side sample `n + 1` given the mid signal `m`, the side signal
/// `s` and the two predictors (Q13): side plus the predicted mid contribution,
/// in Q8 modulo 2^32, rounded and saturated to 16 bits.
pub open spec fn side_sample(m: Seq<i16>, s: Seq<i16>, n: int, p0: int, p1: int) -> int {
    let mid_q11 = fx_shl32(wrap32(m[n] as int + m[n + 2] as int + 2 * m[n + 1] as int), 9);
    let a = wrap32(s[n + 1] as int * 256 + fx_smulwb(mid_q11, p0));
    let b = wrap32(a + fx_smulwb(m[n + 1] as int * 2048, p1));
    clamp(fx_rshift_round(b, 8), -0x8000, 0x7fff)
}

/// The predictor sums of the interpolation window fit in 32 bits (they are
/// added without wrapping).
pub open spec fn ms_preds_fit(prev: int, new: int, fs_khz: int) -> bool {
    &&& i32::MIN <= new - prev <= i32::MAX
    &&& forall|n: int| 0 <= n < STEREO_INTERP_LEN_MS * fs_khz ==> i32::MIN <= #[trigger] pred_at(new, prev, fs_khz, n) <= i32::MAX
}

/// On entry `x1`/`x2` hold mid/side samples in positions
/// `2..frame_length + 2`; on exit positions `0..=frame_length` hold left/right:
/// position 0 (and position 1 when `frame_length` is 0) the samples carried from
/// the previous frame, positions `1..=frame_length` the converted samples.
pub fn silk_stereo_ms_to_lr(
    state: &mut StereoDecState,
    x1: &mut [i16],
    x2: &mut [i16],
    pred_q13: &[i32; 2],
    fs_khz: i32,
    frame_length: usize,
)
    requires
        1 <= fs_khz,
        STEREO_INTERP_LEN_MS * fs_khz <= i32::MAX,
        frame_length + 2 <= old(x1)@.len(),
        frame_length + 2 <= old(x2)@.len(),
        STEREO_INTERP_LEN_MS * fs_khz + 2 <= old(x1)@.len(),
        STEREO_INTERP_LEN_MS * fs_khz + 2 <= old(x2)@.len(),
        ms_preds_fit(old(state).pred_prev_q13[0] as int, pred_q13[0] as int, fs_khz as int),
        ms_preds_fit(old(state).pred_prev_q13[1] as int, pred_q13[1] as int, fs_khz as int),
    ensures
        ({
            let m = old(x1)@.update(0, old(state).s_mid[0]).update(1, old(state).s_mid[1]);
            let s = old(x2)@.update(0, old(state).s_side[0]).update(1, old(state).s_side[1]);
            let side = |n: int| side_sample(
                m,
                s,
                n,
                pred_at(pred_q13[0] as int, old(state).pred_prev_q13[0] as int, fs_khz as int, n),
                pred_at(pred_q13[1] as int, old(state).pred_prev_q13[1] as int, fs_khz as int, n),
            );
            &&& final(x1)@.len() == old(x1)@.len()
            &&& final(x2)@.len() == old(x2)@.len()
            &&& final(state).s_mid@ == seq![m[frame_length as int], m[frame_length + 1]]
            &&& final(state).s_side@ == seq![s[frame_length as int], s[frame_length + 1]]
            &&& final(state).pred_prev_q13@ == pred_q13@
            &&& final(x1)@[0] == m[0]
            &&& final(x2)@[0] == s[0]
            &&& forall|n: int| 0 <= n < frame_length ==> #[trigger] final(x1)@[n + 1] == clamp(
                m[n + 1] as int + side(n), -0x8000, 0x7fff)
            &&& forall|n: int| 0 <= n < frame_length ==> #[trigger] final(x2)@[n + 1] == clamp(
                m[n + 1] as int - side(n), -0x8000, 0x7fff)
            &&& forall|i: int| frame_length + 1 <= i < m.len() ==> #[trigger] final(x1)@[i] == m[i]
            &&& forall|n: int| frame_length <= n < STEREO_INTERP_LEN_MS * fs_khz ==> #[trigger] final(x2)@[n + 1] == side(n)
            &&& forall|i: int| frame_length + 1 <= i < s.len() && STEREO_INTERP_LEN_MS * fs_khz + 1 <= i
                ==> #[trigger] final(x2)@[i] == s[i]
        }),
{
    let ghost st0 = *state;
    let s_mid_old = state.s_mid;
    let s_side_old = state.s_side;
    x1[0] = s_mid_old[0];
    x1[1] = s_mid_old[1];
    x2[0] = s_side_old[0];
    x2[1] = s_side_old[1];
    let ghost m = x1@;
    let ghost s = x2@;
    state.s_mid[0] = x1[frame_length];
    state.s_mid[1] = x1[frame_length + 1];
    state.s_side[0] = x2[frame_length];
    state.s_side[1] = x2[frame_length + 1];

    let ghost prev0 = st0.pred_prev_q13[0] as int;
    let ghost prev1 = st0.pred_prev_q13[1] as int;
    let ghost new0 = pred_q13[0] as int;
    let ghost new1 = pred_q13[1] as int;
    let ghost fk = fs_khz as int;
    let mut pred0_q13 = state.pred_prev_q13[0];
    let mut pred1_q13 = state.pred_prev_q13[1];
    let interp_len = (STEREO_INTERP_LEN_MS * fs_khz) as usize;
    let denom_q16 = silk_div32_16(0x1_0000, STEREO_INTERP_LEN_MS * fs_khz);
    let delta0_q13 = silk_rshift_round(silk_smulbb(pred_q13[0] - state.pred_prev_q13[0], denom_q16), 16);
    let delta1_q13 = silk_rshift_round(silk_smulbb(pred_q13[1] - state.pred_prev_q13[1], denom_q16), 16);
    proof {
        lemma_wrap_id(new0 - prev0, 0x8000_0000);
        lemma_wrap_id(new1 - prev1, 0x8000_0000);
        assert(delta0_q13 == pred_delta(new0, prev0, fk));
        assert(delta1_q13 == pred_delta(new1, prev1, fk));
    }
    let mut n: usize = 0;
    while n < interp_len
        invariant
            n <= interp_len,
            interp_len == STEREO_INTERP_LEN_MS * fk,
            interp_len + 2 <= m.len(),
            interp_len + 2 <= s.len(),
            x1@ == m,
            x2@.len() == s.len(),
            ms_preds_fit(prev0, new0, fk),
            ms_preds_fit(prev1, new1, fk),
            delta0_q13 == pred_delta(new0, prev0, fk),
            delta1_q13 == pred_delta(new1, prev1, fk),
            pred0_q13 == prev0 + n * delta0_q13,
            pred1_q13 == prev1 + n * delta1_q13,
            forall|k: int| 0 <= k < n ==> #[trigger] x2@[k + 1] == side_sample(
                m, s, k, pred_at(new0, prev0, fk, k), pred_at(new1, prev1, fk, k)),
            x2@[0] == s[0],
            forall|i: int| n + 1 <= i < s.len() ==> #[trigger] x2@[i] == s[i],
        decreases interp_len - n,
    {
        assert(pred_at(new0, prev0, fk, n as int) == prev0 + (n + 1) * delta0_q13);
        assert(pred_at(new1, prev1, fk, n as int) == prev1 + (n + 1) * delta1_q13);
        assert((n + 1) * delta0_q13 == n * delta0_q13 + delta0_q13) by (nonlinear_arith);
        assert((n + 1) * delta1_q13 == n * delta1_q13 + delta1_q13) by (nonlinear_arith);
        assert(i32::MIN <= pred_at(new0, prev0, fk, n as int) <= i32::MAX);
        assert(i32::MIN <= pred_at(new1, prev1, fk, n as int) <= i32::MAX);
        pred0_q13 = pred0_q13 + delta0_q13;
        pred1_q13 = pred1_q13 + delta1_q13;
        let v = side_value(x1, x2, n, pred0_q13, pred1_q13);
        x2[n + 1] = v;
        n += 1;
    }
    pred0_q13 = pred_q13[0];
    pred1_q13 = pred_q13[1];
    let mut n = interp_len;
    while n < frame_length
        invariant
            interp_len <= n <= frame_length || (n == interp_len && interp_len > frame_length),
            interp_len == STEREO_INTERP_LEN_MS * fk,
            frame_length + 2 <= m.len(),
            frame_length + 2 <= s.len(),
            x1@ == m,
            x2@.len() == s.len(),
            pred0_q13 == new0,
            pred1_q13 == new1,
            forall|k: int| 0 <= k < n ==> #[trigger] x2@[k + 1] == side_sample(
                m, s, k, pred_at(new0, prev0, fk, k), pred_at(new1, prev1, fk, k)),
            x2@[0] == s[0],
            forall|i: int| n + 1 <= i < s.len() ==> #[trigger] x2@[i] == s[i],
        decreases frame_length - n,
    {
        let v = side_value(x1, x2, n, pred0_q13, pred1_q13);
        x2[n + 1] = v;
        n += 1;
    }
    state.pred_prev_q13[0] = pred_q13[0];
    state.pred_prev_q13[1] = pred_q13[1];

    let ghost s2 = x2@;
    let mut n: usize = 0;
    while n < frame_length
        invariant
            n <= frame_length,
            frame_length + 2 <= m.len(),
            frame_length + 2 <= s.len(),
            x1@.len() == m.len(),
            x2@.len() == s.len(),
            s2.len() == s.len(),
            forall|k: int| 0 <= k < frame_length ==> #[trigger] s2[k + 1] == side_sample(
                m, s, k, pred_at(new0, prev0, fk, k), pred_at(new1, prev1, fk, k)),
            s2[0] == s[0],
            forall|k: int| frame_length <= k < interp_len ==> #[trigger] s2[k + 1] == side_sample(
                m, s, k, pred_at(new0, prev0, fk, k), pred_at(new1, prev1, fk, k)),
            interp_len == STEREO_INTERP_LEN_MS * fk,
            forall|i: int| frame_length + 1 <= i < s.len() && interp_len + 1 <= i ==> #[trigger] s2[i] == s[i],
            forall|k: int| 0 <= k < n ==> #[trigger] x1@[k + 1] == clamp(
                m[k + 1] as int + s2[k + 1] as int, -0x8000, 0x7fff),
            forall|k: int| 0 <= k < n ==> #[trigger] x2@[k + 1] == clamp(
                m[k + 1] as int - s2[k + 1] as int, -0x8000, 0x7fff),
            x1@[0] == m[0],
            x2@[0] == s[0],
            forall|i: int| n + 1 <= i < m.len() ==> #[trigger] x1@[i] == m[i],
            forall|i: int| n + 1 <= i < s.len() ==> #[trigger] x2@[i] == s2[i],
        decreases frame_length - n,
    {
        let sum = x1[n + 1] as i32 + x2[n + 1] as i32;
        let diff = x1[n + 1] as i32 - x2[n + 1] as i32;
        x1[n + 1] = silk_sat16(sum) as i16;
        x2[n + 1] = silk_sat16(diff) as i16;
        n += 1;
    }
}

/// The corrected side value for sample `n + 1` (see [`side_sample`]).
fn side_value(x1: &[i16], x2: &[i16], n: usize, p0: i32, p1: i32) -> (r: i16)
    requires
        n + 2 < x1@.len(),
        n + 1 < x2@.len(),
    ensures
        r == side_sample(x1@, x2@, n as int, p0 as int, p1 as int),
{
    let outer = x1[n] as i32 + x1[n + 2] as i32;
    let centre = x1[n + 1] as i32;
    let mid = silk_add_lshift32(outer, centre, 1);
    proof {
        vstd::arithmetic::power2::lemma2_to64();
        assert(pow2(1) == 2);
        assert(mid == wrap32(outer + centre * 2));
        assert(mid == wrap32(x1@[n as int] as int + x1@[n + 2] as int + 2 * x1@[n + 1] as int));
    }
    let mut sum = silk_lshift(mid, 9);
    let side8 = silk_lshift(x2[n + 1] as i32, 8);
    let mid11 = silk_lshift(x1[n + 1] as i32, 11);
    proof {
        let a = x2@[n + 1] as int;
        let b = x1@[n + 1] as int;
        assert(-0x8000 <= a <= 0x7fff && -0x8000 <= b <= 0x7fff);
        assert(-0x400_0000 <= b * 2048 <= 0x400_0000) by (nonlinear_arith)
            requires -0x8000 <= b <= 0x7fff;
        assert(-0x80_0000 <= a * 256 <= 0x80_0000) by (nonlinear_arith)
            requires -0x8000 <= a <= 0x7fff;
        lemma_wrap_id(a * 256, 0x8000_0000);
        lemma_wrap_id(b * 2048, 0x8000_0000);
        assert(side8 == a * 256);
        assert(mid11 == b * 2048);
    }
    sum = silk_smlawb(side8, sum, p0);
    sum = silk_smlawb(sum, mid11, p1);
    let r = silk_sat16(silk_rshift_round(sum, 8));
    proof {
        assert(r == side_sample(x1@, x2@, n as int, p0 as int, p1 as int));
    }
    r as i16
}

/// An all-zero mid/side input with zero predictors and a zero carried state
/// converts to all-zero left/right samples.
pub proof fn lemma_silence_in_silence_out(m: Seq<i16>, s: Seq<i16>, n: int, fs_khz: int)
    requires
        0 <= n,
        n + 2 < m.len(),
        n + 1 < s.len(),
        forall|i: int| 0 <= i < m.len() ==> #[trigger] m[i] == 0,
        forall|i: int| 0 <= i < s.len() ==> #[trigger] s[i] == 0,
    ensures
        side_sample(m, s, n, pred_at(0, 0, fs_khz, n), pred_at(0, 0, fs_khz, n)) == 0,
{
    vstd::arithmetic::power2::lemma2_to64();
    lemma_wrap_id(0, 0x8000_0000);
    lemma_wrap_id(0, 0x8000);
    assert(m[n] == 0 && m[n + 1] == 0 && m[n + 2] == 0 && s[n + 1] == 0);
    assert(pred_delta(0, 0, fs_khz) == 0) by {
        assert(fx_rshift_round(0, 16) == 0x8000int / 0x1_0000int);
    }
    assert(pred_at(0, 0, fs_khz, n) == 0);
    assert(fx_shl32(0, 9) == 0);
    assert(fx_smulwb(0, 0) == 0);
    assert(fx_rshift_round(0, 8) == 0x80int / 0x100int);
}

/// With the second predictor zero, the corrected side sample sees the mid
/// signal only through its low-passed value `m[n] + 2 m[n + 1] + m[n + 2]`:
/// the first predictor weights the low-passed mid.
pub proof fn lemma_first_predictor_weights_lowpassed_mid(
    m: Seq<i16>,
    m2: Seq<i16>,
    s: Seq<i16>,
    n: int,
    p0: int,
)
    requires
        0 <= n,
        n + 2 < m.len(),
        n + 2 < m2.len(),
        n + 1 < s.len(),
        m[n] + m[n + 2] + 2 * m[n + 1] == m2[n] + m2[n + 2] + 2 * m2[n + 1],
    ensures
        side_sample(m, s, n, p0, 0) == side_sample(m2, s, n, p0, 0),
{
    lemma_wrap_id(0, 0x8000);
    assert(fx_smulwb(m[n + 1] as int * 2048, 0) == 0);
    assert(fx_smulwb(m2[n + 1] as int * 2048, 0) == 0);
}

/// With the first predictor zero, the corrected side sample sees the mid
/// signal only through the plain mid sample `m[n + 1]`: the second predictor
/// weights the unfiltered mid.
pub proof fn lemma_second_predictor_weights_plain_mid(
    m: Seq<i16>,
    m2: Seq<i16>,
    s: Seq<i16>,
    n: int,
    p1: int,
)
    requires
        0 <= n,
        n + 2 < m.len(),
        n + 2 < m2.len(),
        n + 1 < s.len(),
        m[n + 1] == m2[n + 1],
    ensures
        side_sample(m, s, n, 0, p1) == side_sample(m2, s, n, 0, p1),
{
    lemma_wrap_id(0, 0x8000);
    let x = fx_shl32(wrap32(m[n] as int + m[n + 2] as int + 2 * m[n + 1] as int), 9);
    let y = fx_shl32(wrap32(m2[n] as int + m2[n + 2] as int + 2 * m2[n + 1] as int), 9);
    assert(fx_smulwb(x, 0) == 0);
    assert(fx_smulwb(y, 0) == 0);
}

/// With both predictors zero the corrected side sample is the side sample
/// itself.
pub proof fn lemma_zero_predictors_keep_side(m: Seq<i16>, s: Seq<i16>, n: int)
    requires
        0 <= n,
        n + 2 < m.len(),
        n + 1 < s.len(),
    ensures
        side_sample(m, s, n, 0, 0) == s[n + 1],
{
    vstd::arithmetic::power2::lemma2_to64();
    lemma_wrap_id(0, 0x8000);
    let a = s[n + 1] as int;
    let x = fx_shl32(wrap32(m[n] as int + m[n + 2] as int + 2 * m[n + 1] as int), 9);
    assert(fx_smulwb(x, 0) == 0);
    assert(fx_smulwb(m[n + 1] as int * 2048, 0) == 0);
    assert(-0x80_0000 <= a * 256 <= 0x80_0000) by (nonlinear_arith)
        requires -0x8000 <= a <= 0x7fff;
    lemma_wrap_id(a * 256, 0x8000_0000);
    assert((a * 256 + 128) / 256 == a) by (nonlinear_arith);
}

/// A unit first predictor (1.0 in Q13) with the second one zero adds the
/// low-passed mid `(m[n] + 2 m[n + 1] + m[n + 2]) / 4`, rounded, to the side
/// sample.
pub proof fn lemma_unit_first_predictor(m: Seq<i16>, s: Seq<i16>, n: int)
    requires
        0 <= n,
        n + 2 < m.len(),
        n + 1 < s.len(),
    ensures
        side_sample(m, s, n, 8192, 0) == clamp(
            s[n + 1] + (m[n] + 2 * m[n + 1] + m[n + 2] + 2) / 4, -0x8000, 0x7fff),
{
    vstd::arithmetic::power2::lemma2_to64();
    lemma_wrap_id(0, 0x8000);
    lemma_wrap_id(8192, 0x8000);
    let a = s[n + 1] as int;
    let sum = m[n] as int + m[n + 2] as int + 2 * m[n + 1] as int;
    assert(-0x2_0000 <= sum <= 0x2_0000);
    lemma_wrap_id(sum, 0x8000_0000);
    assert(-0x400_0000 <= sum * 512 <= 0x400_0000) by (nonlinear_arith)
        requires -0x2_0000 <= sum <= 0x2_0000;
    lemma_wrap_id(sum * 512, 0x8000_0000);
    assert(fx_shl32(wrap32(sum), 9) == sum * 512);
    assert((sum * 512) * 8192 / 0x1_0000 == sum * 64) by (nonlinear_arith);
    assert(fx_smulwb(sum * 512, 8192) == sum * 64);
    assert(fx_smulwb(m[n + 1] as int * 2048, 0) == 0);
    let b = a * 256 + sum * 64;
    assert(-0x100_0000 <= b <= 0x100_0000) by (nonlinear_arith)
        requires -0x8000 <= a <= 0x7fff, -0x2_0000 <= sum <= 0x2_0000, b == a * 256 + sum * 64;
    lemma_wrap_id(b, 0x8000_0000);
    assert((b + 128) / 256 == a + (sum + 2) / 4) by (nonlinear_arith)
        requires b == a * 256 + sum * 64;
}

/// A unit second predictor (1.0 in Q13) with the first one zero adds the plain
/// mid sample `m[n + 1]` to the side sample.
pub proof fn lemma_unit_second_predictor(m: Seq<i16>, s: Seq<i16>, n: int)
    requires
        0 <= n,
        n + 2 < m.len(),
        n + 1 < s.len(),
    ensures
        side_sample(m, s, n, 0, 8192) == clamp(s[n + 1] + m[n + 1], -0x8000, 0x7fff),
{
    vstd::arithmetic::power2::lemma2_to64();
    lemma_wrap_id(0, 0x8000);
    lemma_wrap_id(8192, 0x8000);
    let a = s[n + 1] as int;
    let c = m[n + 1] as int;
    let x = fx_shl32(wrap32(m[n] as int + m[n + 2] as int + 2 * m[n + 1] as int), 9);
    assert(fx_smulwb(x, 0) == 0);
    assert(-0x80_0000 <= a * 256 <= 0x80_0000) by (nonlinear_arith)
        requires -0x8000 <= a <= 0x7fff;
    lemma_wrap_id(a * 256, 0x8000_0000);
    assert((c * 2048) * 8192 / 0x1_0000 == c * 256) by (nonlinear_arith);
    assert(fx_smulwb(c * 2048, 8192) == c * 256);
    let b = a * 256 + c * 256;
    assert(-0x100_0000 <= b <= 0x100_0000) by (nonlinear_arith)
        requires -0x8000 <= a <= 0x7fff, -0x8000 <= c <= 0x7fff, b == a * 256 + c * 256;
    lemma_wrap_id(b, 0x8000_0000);
    assert((b + 128) / 256 == a + c) by (nonlinear_arith)
        requires b == a * 256 + c * 256;
}

} // verus!
