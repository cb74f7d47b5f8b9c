//! Core of the SILK decoder: the excitation from the pulses, then per
//! subframe long-term (pitch) prediction for voiced frames and short-term
//! (LPC) synthesis, scaled by the subframe gain.

use vstd::prelude::*;
use crate::arith::{clamp, wrap32};
use crate::silk::lpc_analysis_filter::{lpc_residual, silk_lpc_analysis_filter};
use crate::silk::structs::{SilkDecoderControl, SilkDecoderState};
use crate::silk::tables::SILK_QUANTIZATION_OFFSETS_Q10;
use crate::silk::macros::{
    fx_div32_varq, fx_inverse32_varq, fx_rshift_round, fx_shl32, fx_shr, fx_smulwb, fx_smulww, silk_add_lshift32,
    silk_add_sat32, silk_div32_varq, silk_inverse32_varq, silk_lshift, silk_lshift_sat32, silk_rand, silk_rshift,
    silk_rshift_round, silk_smulwb, silk_sat16, silk_smlawb, silk_smulww, RAND_INCREMENT, RAND_MULTIPLIER, SILK_INT32_MAX,
    SILK_INT32_MIN,
};

verus! {

/// The noise generator's next state.
pub open spec fn rand_next(s: int) -> int {
    wrap32(RAND_INCREMENT + s * RAND_MULTIPLIER)
}

/// The generator state before sample `i` of the excitation: each sample
/// advances it once and adds its pulse.
pub open spec fn exc_seed(seed0: int, pulses: Seq<i16>, i: nat) -> int
    decreases i,
{
    if i == 0 { seed0 } else { wrap32(rand_next(exc_seed(seed0, pulses, (i - 1) as nat)) + pulses[i - 1] as int) }
}

/// One excitation sample (Q14): the pulse pulled toward zero by
/// `QUANT_LEVEL_ADJUST_Q10`, plus the quantization offset, with the sign of
/// the advanced generator state.
pub open spec fn exc_value(pulse: int, offset_q10: int, seed: int) -> int {
    let e0 = pulse * 16384;
    let e1 = if e0 > 0 { e0 - 1280 } else if e0 < 0 { e0 + 1280 } else { 0 };
    let e2 = e1 + offset_q10 * 16;
    if seed < 0 { -e2 } else { e2 }
}

/// The excitation of sample `i`.
pub open spec fn exc_at(seed0: int, pulses: Seq<i16>, offset_q10: int, i: int) -> int {
    exc_value(pulses[i] as int, offset_q10, rand_next(exc_seed(seed0, pulses, i as nat)))
}

/// One step of [`excitation`].
fn excitation_sample(p: i32, offset_q10: i32, seed: i32) -> (r: i32)
    requires
        -0x8000 <= p <= 0x7fff,
        0 <= offset_q10 <= 1000,
    ensures
        r == exc_value(p as int, offset_q10 as int, seed as int),
{
    proof {
        vstd::arithmetic::power2::lemma2_to64();
        crate::arith::lemma_wrap_id(p * 16384, 0x8000_0000);
    }
    let mut exc = silk_lshift(p, 14);
    assert(exc == p * 16384);
    if exc > 0 {
        exc -= 1280;
    } else if exc < 0 {
        exc += 1280;
    }
    exc += offset_q10 * 16;
    if seed < 0 {
        exc = -exc;
    }
    exc
}

/// Fills the first `n` excitation samples from the pulses.
pub(crate) fn excitation(exc_q14: &mut [i32; 320], pulses: &[i16], n: usize, seed0: i32, offset_q10: i32)
    requires
        n <= 320,
        n <= pulses@.len(),
        0 <= offset_q10 <= 1000,
    ensures
        forall|i: int| 0 <= i < n ==> #[trigger] final(exc_q14)@[i] == exc_at(seed0 as int, pulses@, offset_q10 as int, i),
        forall|i: int| n <= i < 320 ==> #[trigger] final(exc_q14)@[i] == old(exc_q14)@[i],
{
    let mut rand_seed = seed0;
    let mut i: usize = 0;
    while i < n
        invariant
            i <= n <= 320,
            n <= pulses@.len(),
            0 <= offset_q10 <= 1000,
            rand_seed == exc_seed(seed0 as int, pulses@, i as nat),
            forall|j: int| 0 <= j < i ==> #[trigger] exc_q14@[j] == exc_at(seed0 as int, pulses@, offset_q10 as int, j),
            forall|j: int| i <= j < 320 ==> #[trigger] exc_q14@[j] == old(exc_q14)@[j],
        decreases n - i,
    {
        rand_seed = silk_rand(rand_seed);
        let p = pulses[i] as i32;
        let exc = excitation_sample(p, offset_q10, rand_seed);
        exc_q14[i] = exc;
        proof { crate::arith::lemma_i32_wrapping_add(rand_seed, p); }
        rand_seed = rand_seed.wrapping_add(p);
        i += 1;
    }
}

/// The short-term prediction (Q10) at `base` after `j` taps: starting from
/// `init`, each tap adds `s[base - 1 - t] * a[t]` (Q16 product, wrapping).
pub open spec fn lpc_acc(s: Seq<i32>, base: int, a: Seq<i16>, j: nat, init: int) -> int
    decreases j,
{
    if j == 0 {
        init
    } else {
        wrap32(lpc_acc(s, base, a, (j - 1) as nat, init) + fx_smulwb(s[base - j] as int, a[j - 1] as int))
    }
}

/// `silk_LSHIFT_SAT32(x, 4)`.
pub open spec fn shl4_sat(x: int) -> int {
    clamp(x, SILK_INT32_MIN / 16, SILK_INT32_MAX / 16) * 16
}

/// The synthesis buffer after `n` samples: sample `i` (at `16 + i`) becomes
/// the residual plus the prediction from the `order` samples before it, saturated.
pub open spec fn lpc_synth(s0: Seq<i32>, res: Seq<i32>, a: Seq<i16>, order: int, n: nat) -> Seq<i32>
    decreases n,
{
    if n == 0 {
        s0
    } else {
        let s = lpc_synth(s0, res, a, order, (n - 1) as nat);
        let base = 16 + n - 1;
        let pred = lpc_acc(s, base, a, order as nat, order / 2);
        s.update(base, clamp(res[n - 1] as int + shl4_sat(pred), SILK_INT32_MIN as int, SILK_INT32_MAX as int) as i32)
    }
}

/// An output sample: the synthesized value times the gain (Q10), rounded from Q14 and saturated.
pub open spec fn out_sample(v: int, gain_q10: int) -> i16 {
    clamp(fx_rshift_round(fx_smulww(v, gain_q10), 8), -0x8000, 0x7fff) as i16
}

proof fn lemma_lpc_synth_len(s0: Seq<i32>, res: Seq<i32>, a: Seq<i16>, order: int, n: nat)
    requires
        16 + n <= s0.len(),
    ensures
        lpc_synth(s0, res, a, order, n).len() == s0.len(),
    decreases n,
{
    if n > 0 {
        lemma_lpc_synth_len(s0, res, a, order, (n - 1) as nat);
    }
}

/// Later samples of the synthesis do not change earlier positions.
proof fn lemma_lpc_synth_stable(s0: Seq<i32>, res: Seq<i32>, a: Seq<i16>, order: int, m: nat, n: nat, i: int)
    requires
        m <= n,
        16 + n <= s0.len(),
        0 <= i < 16 + m,
    ensures
        lpc_synth(s0, res, a, order, n)[i] == lpc_synth(s0, res, a, order, m)[i],
    decreases n - m,
{
    if n > m {
        lemma_lpc_synth_stable(s0, res, a, order, m, (n - 1) as nat, i);
        lemma_lpc_synth_len(s0, res, a, order, (n - 1) as nat);
    }
}

/// Short-term synthesis of `n` samples in `s_lpc` (16 samples of history
/// first) from the residual `res`, each written, scaled by `gain_q10`, to
/// `xq[off + i]`.
fn lpc_synthesis(s_lpc: &mut [i32; 96], res: &[i32; 80], a: &[i16; 16], order: usize, n: usize, gain_q10: i32, xq: &mut [i16], off: usize)
    requires
        order == 10 || order == 16,
        n <= 80,
        off + n <= old(xq)@.len(),
    ensures
        final(s_lpc)@ == lpc_synth(old(s_lpc)@, res@, a@, order as int, n as nat),
        final(xq)@.len() == old(xq)@.len(),
        forall|i: int| 0 <= i < n ==> #[trigger] final(xq)@[off + i] == out_sample(final(s_lpc)@[16 + i] as int, gain_q10 as int),
        forall|i: int| 0 <= i < old(xq)@.len() && !(off <= i < off + n) ==> #[trigger] final(xq)@[i] == old(xq)@[i],
{
    let ghost s0 = s_lpc@;
    let xlen = xq.len();
    let mut i: usize = 0;
    while i < n
        invariant
            i <= n <= 80,
            order == 10 || order == 16,
            xq@.len() == xlen,
            off + n <= xq@.len(),
            xq@.len() == old(xq)@.len(),
            s0.len() == 96,
            s_lpc@ == lpc_synth(s0, res@, a@, order as int, i as nat),
            forall|j: int| 0 <= j < i ==> #[trigger] xq@[off + j] == out_sample(s_lpc@[16 + j] as int, gain_q10 as int),
            forall|j: int| 0 <= j < xq@.len() && !(off <= j < off + i) ==> #[trigger] xq@[j] == old(xq)@[j],
        decreases n - i,
    {
        let base = 16 + i;
        proof {
            crate::arith::lemma_i32_shr_is_div(order as i32, 1);
            vstd::arithmetic::power2::lemma2_to64();
        }
        let mut pred: i32 = (order as i32) >> 1u32;
        assert(pred == order as int / 2);
        let mut t: usize = 0;
        while t < order
            invariant
                t <= order,
                order == 10 || order == 16,
                base == 16 + i,
                i < n <= 80,
                off + n <= xq@.len(),
                s_lpc@ == lpc_synth(s0, res@, a@, order as int, i as nat),
                pred == lpc_acc(s_lpc@, base as int, a@, t as nat, order as int / 2),
            decreases order - t,
        {
            pred = silk_smlawb(pred, s_lpc[base - 1 - t], a[t] as i32);
            t += 1;
        }
        let ghost before = s_lpc@;
        let v = silk_add_sat32(res[i], silk_lshift_sat32(pred, 4));
        proof { vstd::arithmetic::power2::lemma2_to64(); }
        s_lpc[base] = v;
        proof {
            lemma_lpc_synth_len(s0, res@, a@, order as int, i as nat);
            assert(s_lpc@ == lpc_synth(s0, res@, a@, order as int, (i + 1) as nat));
            assert forall|j: int| 0 <= j < i implies #[trigger] s_lpc@[16 + j] == before[16 + j] by {}
        }
        let sample = silk_sat16(silk_rshift_round(silk_smulww(v, gain_q10), 8)) as i16;
        let idx = off + i;
        xq[idx] = sample;
        i += 1;
    }
}

/// The long-term prediction (Q13) at position `p` after `t` taps: from the
/// rounding bias 2, each tap adds `q[p - j] * b[j]` (Q16 product, wrapping).
pub open spec fn ltp_acc(q: Seq<i32>, p: int, b: Seq<i16>, t: nat) -> int
    decreases t,
{
    if t == 0 {
        2
    } else {
        wrap32(ltp_acc(q, p, b, (t - 1) as nat) + fx_smulwb(q[p - (t - 1)] as int, b[t - 1] as int))
    }
}

/// The LPC excitation (Q14) of sample `i`: its excitation plus twice the
/// five-tap prediction around `lag` samples back.
pub open spec fn ltp_res_at(q: Seq<i32>, idx0: int, lag: int, b: Seq<i16>, exc: Seq<i32>, i: int) -> int {
    wrap32(exc[i] as int + ltp_acc(q, idx0 - lag + 2 + i, b, 5) * 2)
}

/// The LPC excitation (Q14) of a voiced sample is its excitation plus the
/// five-tap pitch prediction converted from Q13 to Q14, i.e. doubled: the
/// rounding bias 2 plus, for each tap `j`, the long-term state `lag - 2 + j`
/// samples back times tap `j` (Q16 product), all modulo 2^32.
pub proof fn lemma_ltp_excitation(q: Seq<i32>, idx0: int, lag: int, b: Seq<i16>, exc: Seq<i32>, i: int)
    ensures
        ({
            let p = idx0 - lag + 2 + i;
            let pred = 2 + fx_smulwb(q[p] as int, b[0] as int) + fx_smulwb(q[p - 1] as int, b[1] as int)
                + fx_smulwb(q[p - 2] as int, b[2] as int) + fx_smulwb(q[p - 3] as int, b[3] as int)
                + fx_smulwb(q[p - 4] as int, b[4] as int);
            ltp_res_at(q, idx0, lag, b, exc, i) == wrap32(exc[i] as int + 2 * wrap32(pred))
        }),
{
    let p = idx0 - lag + 2 + i;
    let t0 = fx_smulwb(q[p] as int, b[0] as int);
    let t1 = fx_smulwb(q[p - 1] as int, b[1] as int);
    let t2 = fx_smulwb(q[p - 2] as int, b[2] as int);
    let t3 = fx_smulwb(q[p - 3] as int, b[3] as int);
    let t4 = fx_smulwb(q[p - 4] as int, b[4] as int);
    reveal_with_fuel(ltp_acc, 6);
    crate::arith::lemma_wrap_sum(2 + t0, t1, 0x8000_0000);
    crate::arith::lemma_wrap_sum(2 + t0 + t1, t2, 0x8000_0000);
    crate::arith::lemma_wrap_sum(2 + t0 + t1 + t2, t3, 0x8000_0000);
    crate::arith::lemma_wrap_sum(2 + t0 + t1 + t2 + t3, t4, 0x8000_0000);
    assert(ltp_acc(q, p, b, 5) == wrap32(2 + t0 + t1 + t2 + t3 + t4));
}

/// The long-term state after `n` samples: sample `i` stores twice its LPC
/// excitation (Q15) at `idx0 + i`.
pub open spec fn ltp_synth(q0: Seq<i32>, idx0: int, lag: int, b: Seq<i16>, exc: Seq<i32>, n: nat) -> Seq<i32>
    decreases n,
{
    if n == 0 {
        q0
    } else {
        let q = ltp_synth(q0, idx0, lag, b, exc, (n - 1) as nat);
        q.update(idx0 + n - 1, fx_shl32(ltp_res_at(q, idx0, lag, b, exc, n - 1), 1) as i32)
    }
}

proof fn lemma_ltp_synth_len(q0: Seq<i32>, idx0: int, lag: int, b: Seq<i16>, exc: Seq<i32>, n: nat)
    requires
        0 <= idx0,
        idx0 + n <= q0.len(),
    ensures
        ltp_synth(q0, idx0, lag, b, exc, n).len() == q0.len(),
    decreases n,
{
    if n > 0 {
        lemma_ltp_synth_len(q0, idx0, lag, b, exc, (n - 1) as nat);
    }
}

/// Long-term synthesis of `n` samples of a voiced subframe: the LPC
/// excitation `res[i]` from the excitation `exc[exc_off + i]` and the
/// prediction from `q` around `lag` samples back, stored in `q` from `idx0` on.
fn ltp_synthesis(
    q: &mut [i32; 640],
    idx0: usize,
    lag: usize,
    b: &[i16; 5],
    exc: &[i32; 320],
    exc_off: usize,
    n: usize,
    res: &mut [i32; 80],
)
    requires
        n <= 80,
        exc_off + n <= 320,
        idx0 + n <= 640,
        idx0 + n + 2 <= 640 + lag,
        lag + 2 <= idx0,
    ensures
        final(q)@ == ltp_synth(old(q)@, idx0 as int, lag as int, b@, exc@.subrange(exc_off as int, exc_off + n), n as nat),
        forall|i: int| 0 <= i < n ==> #[trigger] final(res)@[i] == ltp_res_at(
            ltp_synth(old(q)@, idx0 as int, lag as int, b@, exc@.subrange(exc_off as int, exc_off + n), i as nat),
            idx0 as int, lag as int, b@, exc@.subrange(exc_off as int, exc_off + n), i),
        forall|i: int| n <= i < 80 ==> #[trigger] final(res)@[i] == old(res)@[i],
{
    let ghost q0 = q@;
    let ghost e = exc@.subrange(exc_off as int, exc_off + n);
    let mut i: usize = 0;
    while i < n
        invariant
            i <= n <= 80,
            exc_off + n <= 320,
            idx0 + n <= 640,
            idx0 + n + 2 <= 640 + lag,
            lag + 2 <= idx0,
            q0.len() == 640,
            e == exc@.subrange(exc_off as int, exc_off + n),
            q@ == ltp_synth(q0, idx0 as int, lag as int, b@, e, i as nat),
            forall|j: int| 0 <= j < i ==> #[trigger] res@[j] == ltp_res_at(
                ltp_synth(q0, idx0 as int, lag as int, b@, e, j as nat), idx0 as int, lag as int, b@, e, j),
            forall|j: int| i <= j < 80 ==> #[trigger] res@[j] == old(res)@[j],
        decreases n - i,
    {
        let p = idx0 - lag + 2 + i;
        let mut pred: i32 = 2;
        let mut t: usize = 0;
        while t < 5
            invariant
                t <= 5,
                p == idx0 - lag + 2 + i,
                i < n <= 80,
                idx0 + n <= 640,
                idx0 + n + 2 <= 640 + lag,
                lag + 2 <= idx0,
                pred == ltp_acc(q@, p as int, b@, t as nat),
            decreases 5 - t,
        {
            pred = silk_smlawb(pred, q[p - t], b[t] as i32);
            t += 1;
        }
        proof { vstd::arithmetic::power2::lemma2_to64(); }
        let r = silk_add_lshift32(exc[exc_off + i], pred, 1);
        assert(r == ltp_res_at(q@, idx0 as int, lag as int, b@, e, i as int));
        res[i] = r;
        proof { lemma_ltp_synth_len(q0, idx0 as int, lag as int, b@, e, i as nat); }
        q[idx0 + i] = silk_lshift(r, 1);
        i += 1;
    }
}

/// The LPC coefficients of subframe `k` (from the first or second half of the
/// frame), zero beyond `order`.
pub open spec fn sub_a(c: SilkDecoderControl, k: int, order: int) -> Seq<i16> {
    Seq::new(16, |j: int| if j < order { c.pred_coef_q12@[k / 2]@[j] } else { 0i16 })
}

/// Right after a lost voiced frame, the first half of an unvoiced frame is
/// still decoded as voiced (a single tap of 0.25 at the previous lag).
pub open spec fn sub_override(loss_cnt: int, prev_type: int, signal_type: int, k: int) -> bool {
    loss_cnt != 0 && prev_type == 2 && signal_type != 2 && k < 2
}

/// The input window of the re-whitening filter: `len` output samples from
/// `start`, zero after.
pub open spec fn rewhite_window(ob: Seq<i16>, start: int, len: int) -> Seq<i16> {
    Seq::new(320, |j: int| if j < len { ob[start + j] } else { 0i16 })
}

/// The long-term state after re-whitening: the `lag + 2` positions before
/// `bi` receive the LPC residual of the output window, scaled by `inv_gain`.
pub open spec fn rewhite_q(q: Seq<i32>, bi: int, lag: int, inv_gain: int, window: Seq<i16>, len: int, a: Seq<i16>, order: int) -> Seq<i32> {
    Seq::new(q.len(), |j: int| if bi - lag - 2 <= j < bi {
        fx_smulwb(inv_gain, lpc_residual(window, a, len - (bi - j), order as nat)) as i32
    } else {
        q[j]
    })
}

/// The long-term state with the `lag + 2` positions before `bi` rescaled by the gain change `adj`.
pub open spec fn rescale_q(q: Seq<i32>, bi: int, lag: int, adj: int) -> Seq<i32> {
    Seq::new(q.len(), |j: int| if bi - lag - 2 <= j < bi { fx_smulww(adj, q[j] as int) as i32 } else { q[j] })
}

/// The first part of a subframe: the LPC state rescaled to a changed gain,
/// then for a voiced subframe the re-whitened (or rescaled) long-term state
/// and the five-tap pitch prediction, giving the LPC excitation. Returns the
/// LPC state, the long-term state and position, the output history, the lag
/// and the LPC excitation.
#[verifier::opaque]
pub open spec fn sub_front(
    d: SilkDecoderState,
    c: SilkDecoderControl,
    exc: Seq<i32>,
    st: (int, Seq<i32>, Seq<i32>, int, Seq<i16>, Seq<i16>, int),
    k: int,
) -> (Seq<i32>, Seq<i32>, int, Seq<i16>, int, Seq<i32>) {
    let (pg, sl, q, bi, ob, xq, lag) = st;
    let order = d.lpc_order as int;
    let subfr = d.subfr_length as int;
    let ltp_mem = d.ltp_mem_length as int;
    let g = c.gains_q16@[k] as int;
    let a = sub_a(c, k, order);
    let adj = if g != pg { fx_div32_varq(pg, g, 16) } else { 0x1_0000 };
    let sl1 = if g != pg { Seq::new(96, |j: int| fx_smulww(adj, sl[j] as int) as i32) } else { sl };
    let ovr = sub_override(d.loss_cnt as int, d.prev_signal_type as int, d.indices.signal_type as int, k);
    let voiced = ovr || d.indices.signal_type == 2;
    let b = if ovr { seq![0i16, 0i16, 4096i16, 0i16, 0i16] } else { c.ltp_coef_q14@.subrange(5 * k, 5 * k + 5) };
    let lag1 = if voiced { if ovr { d.lag_prev as int } else { c.pitch_l@[k] as int } } else { lag };
    let rewhite = voiced && (k == 0 || (k == 2 && d.indices.nlsf_interp_coef_q2 < 4));
    let ob1 = if rewhite && k == 2 {
        Seq::new(ob.len(), |j: int| if ltp_mem <= j < ltp_mem + 2 * subfr { xq[j - ltp_mem] } else { ob[j] })
    } else {
        ob
    };
    let start = ltp_mem - lag1 - order - 2;
    let inv0 = fx_inverse32_varq(g, 47);
    let inv1 = if rewhite && k == 0 { fx_shl32(fx_smulwb(inv0, c.ltp_scale_q14 as int), 2) } else { inv0 };
    let q1 = if rewhite {
        rewhite_q(q, bi, lag1, inv1, rewhite_window(ob1, start + k * subfr, ltp_mem - start), ltp_mem - start, a, order)
    } else if voiced && adj != 0x1_0000 {
        rescale_q(q, bi, lag1, adj)
    } else {
        q
    };
    let exc_k = exc.subrange(k * subfr, k * subfr + subfr);
    let q2 = if voiced { ltp_synth(q1, bi, lag1, b, exc_k, subfr as nat) } else { q1 };
    let res = if voiced {
        Seq::new(subfr as nat, |i: int| ltp_res_at(ltp_synth(q1, bi, lag1, b, exc_k, i as nat), bi, lag1, b, exc_k, i) as i32)
    } else {
        exc_k
    };
    (sl1, q2, if voiced { bi + subfr } else { bi }, ob1, lag1, res)
}

/// The second part of a subframe: short-term synthesis from the LPC
/// excitation, the output scaled by the gain, and the LPC state moved back.
#[verifier::opaque]
pub open spec fn sub_back(
    d: SilkDecoderState,
    c: SilkDecoderControl,
    st: (int, Seq<i32>, Seq<i32>, int, Seq<i16>, Seq<i16>, int),
    fr: (Seq<i32>, Seq<i32>, int, Seq<i16>, int, Seq<i32>),
    k: int,
) -> (int, Seq<i32>, Seq<i32>, int, Seq<i16>, Seq<i16>, int) {
    let xq = st.5;
    let order = d.lpc_order as int;
    let subfr = d.subfr_length as int;
    let g = c.gains_q16@[k] as int;
    let sl2 = lpc_synth(fr.0, fr.5, sub_a(c, k, order), order, subfr as nat);
    let gain_q10 = fx_shr(g, 6);
    let xq2 = Seq::new(xq.len(), |j: int| if k * subfr <= j < k * subfr + subfr {
        out_sample(sl2[16 + j - k * subfr] as int, gain_q10)
    } else {
        xq[j]
    });
    let sl3 = Seq::new(96, |j: int| if j < 16 { sl2[subfr + j] } else { sl2[j] });
    (g, sl3, fr.1, fr.2, fr.3, xq2, fr.4)
}

/// One subframe: the state carried between subframes is the previous gain,
/// the LPC synthesis buffer, the long-term buffer and its position, the output
/// history, the output and the lag.
pub open spec fn core_sub(
    d: SilkDecoderState,
    c: SilkDecoderControl,
    exc: Seq<i32>,
    st: (int, Seq<i32>, Seq<i32>, int, Seq<i16>, Seq<i16>, int),
    k: int,
) -> (int, Seq<i32>, Seq<i32>, int, Seq<i16>, Seq<i16>, int) {
    sub_back(d, c, st, sub_front(d, c, exc, st, k), k)
}

/// The lag of subframe `k` is usable when the subframe is voiced: not
/// negative, leaving room for the re-whitening filter within the LTP memory,
/// and (for lags below 2, whose prediction reads ahead) keeping the samples
/// read within the 640-entry long-term buffer.
pub open spec fn lag_ok(d: SilkDecoderState, c: SilkDecoderControl, k: int) -> bool {
    let ovr = sub_override(d.loss_cnt as int, d.prev_signal_type as int, d.indices.signal_type as int, k);
    let l = if ovr { d.lag_prev as int } else { c.pitch_l@[k] as int };
    (ovr || d.indices.signal_type == 2) ==> {
        &&& 0 <= l
        &&& l + d.lpc_order + 2 < d.ltp_mem_length
        &&& d.ltp_mem_length + (k + 1) * d.subfr_length + 2 <= 640 + l
    }
}

/// The frame layout, indices, gains and lags the core decoder works with.
pub open spec fn core_ready(d: SilkDecoderState, c: SilkDecoderControl) -> bool {
    &&& d.lpc_order == 10 || d.lpc_order == 16
    &&& 1 <= d.nb_subfr <= 4
    &&& 1 <= d.subfr_length <= 80
    &&& d.frame_length == d.nb_subfr * d.subfr_length
    &&& 0 <= d.ltp_mem_length <= 320
    &&& 0 <= d.indices.signal_type <= 3
    &&& 0 <= d.indices.quant_offset_type <= 1
    &&& d.prev_gain_q16 != i32::MIN
    &&& forall|k: int| 0 <= k < d.nb_subfr ==> #[trigger] c.gains_q16@[k] != 0 && c.gains_q16@[k] != i32::MIN
    &&& forall|k: int| 0 <= k < d.nb_subfr ==> #[trigger] lag_ok(d, c, k)
}

/// The first part of one subframe ([`sub_front`]).
#[verifier::spinoff_prover]
#[verifier::rlimit(100)]
fn subframe_front(
    dec: &mut SilkDecoderState,
    ctrl: &SilkDecoderControl,
    xq: &mut [i16],
    a_q12_tmp: &[i16; 16],
    s_ltp: &mut [i16; 320],
    s_ltp_q15: &mut [i32; 640],
    res_q14: &mut [i32; 80],
    s_lpc_q14: &mut [i32; 96],
    buf_idx: &mut usize,
    lag: &mut usize,
    k: usize,
)
    requires
        core_ready(*old(dec), *ctrl),
        k < old(dec).nb_subfr,
        old(xq)@.len() >= old(dec).frame_length,
        old(dec).ltp_mem_length <= *old(buf_idx) <= old(dec).ltp_mem_length + k * old(dec).subfr_length,
        *old(lag) <= i32::MAX,
        a_q12_tmp@ == sub_a(*ctrl, k as int, old(dec).lpc_order as int),
    ensures
        final(xq)@ == old(xq)@,
        ({
            let fr = sub_front(*old(dec), *ctrl, old(dec).exc_q14@,
                (old(dec).prev_gain_q16 as int, old(s_lpc_q14)@, old(s_ltp_q15)@, *old(buf_idx) as int,
                 old(dec).out_buf@, old(xq)@, *old(lag) as int), k as int);
            &&& final(s_lpc_q14)@ == fr.0
            &&& final(s_ltp_q15)@ == fr.1
            &&& *final(buf_idx) == fr.2
            &&& final(dec).out_buf@ == fr.3
            &&& *final(lag) == fr.4
            &&& fr.5.len() == old(dec).subfr_length
            &&& forall|i: int| 0 <= i < old(dec).subfr_length ==> #[trigger] final(res_q14)@[i] == fr.5[i]
        }),
        *final(dec) == (SilkDecoderState {
            prev_gain_q16: ctrl.gains_q16@[k as int],
            out_buf: final(dec).out_buf,
            ..*old(dec)
        }),
        *final(buf_idx) <= old(dec).ltp_mem_length + (k + 1) * old(dec).subfr_length,
        old(dec).ltp_mem_length <= *final(buf_idx),
        *final(lag) <= i32::MAX,
{
    let ghost d0 = *dec;
    let ghost xq0 = xq@;
    let ghost sl0 = s_lpc_q14@;
    let ghost q0 = s_ltp_q15@;
    let ghost bi0 = *buf_idx as int;
    let ghost lag0 = *lag as int;
    let subfr = dec.subfr_length as usize;
    let ltp_mem_length = dec.ltp_mem_length as usize;
    let lpc_order = dec.lpc_order as usize;
    assert(k * subfr + subfr <= 320) by (nonlinear_arith)
        requires k < d0.nb_subfr, d0.nb_subfr <= 4, subfr <= 80, subfr == d0.subfr_length;
    assert(k * subfr + subfr <= d0.frame_length) by (nonlinear_arith)
        requires k < d0.nb_subfr, d0.frame_length == d0.nb_subfr * d0.subfr_length, subfr == d0.subfr_length;
    let signal_type_orig = dec.indices.signal_type as i32;
    let g = ctrl.gains_q16[k];
    let gain_q10 = silk_rshift(g, 6);
    proof { crate::silk::macros::lemma_headroom_range(g); crate::silk::macros::lemma_headroom_range(dec.prev_gain_q16); }
    let mut inv_gain_q31 = silk_inverse32_varq(g, 47);
    let gain_adj_q16: i32 = if g != dec.prev_gain_q16 {
        let adj = silk_div32_varq(dec.prev_gain_q16, g, 16);
        let mut t: usize = 0;
        while t < 96
            invariant
                t <= 96,
                forall|u: int| 0 <= u < 96 ==> #[trigger] s_lpc_q14@[u] == (if u < t { fx_smulww(adj as int, sl0[u] as int) as i32 } else { sl0[u] }),
            decreases 96 - t,
        {
            s_lpc_q14[t] = silk_smulww(adj, s_lpc_q14[t]);
            t += 1;
        }
        assert(s_lpc_q14@ =~= Seq::new(96, |u: int| fx_smulww(adj as int, sl0[u] as int) as i32));
        adj
    } else {
        0x1_0000
    };
    dec.prev_gain_q16 = g;
    let mut b_q14 = [0i16; 5];
    let mut voiced = signal_type_orig == 2;
    let mut pitch_l_k = ctrl.pitch_l[k];
    let ovr = dec.loss_cnt != 0 && dec.prev_signal_type == 2 && signal_type_orig != 2 && k < 2;
    if ovr {
        b_q14[2] = 4096;
        voiced = true;
        pitch_l_k = dec.lag_prev;
        assert(b_q14@ =~= seq![0i16, 0i16, 4096i16, 0i16, 0i16]);
    } else {
        let base = k * 5;
        let mut t: usize = 0;
        while t < 5
            invariant
                t <= 5,
                base == k * 5,
                k < 4,
                forall|u: int| 0 <= u < t ==> #[trigger] b_q14@[u] == ctrl.ltp_coef_q14@[base + u],
            decreases 5 - t,
        {
            b_q14[t] = ctrl.ltp_coef_q14[base + t];
            t += 1;
        }
        assert(b_q14@ =~= ctrl.ltp_coef_q14@.subrange(5 * k as int, 5 * k as int + 5));
    }
    assert(lag_ok(d0, *ctrl, k as int));
    if voiced {
        *lag = pitch_l_k as usize;
        let rewhite = k == 0 || (k == 2 && dec.indices.nlsf_interp_coef_q2 < 4);
        if rewhite {
            let start_idx = ltp_mem_length - *lag - lpc_order - 2;
            if k == 2 {
                let mut t: usize = 0;
                while t < 2 * subfr
                    invariant
                        t <= 2 * subfr,
                        subfr <= 80,
                        ltp_mem_length <= 320,
                        2 * subfr <= xq@.len(),
                        xq@ == xq0,
                        dec.out_buf@.len() == 480,
                        forall|u: int| 0 <= u < 480 ==> #[trigger] dec.out_buf@[u] == (if ltp_mem_length <= u < ltp_mem_length + t {
                            xq0[u - ltp_mem_length]
                        } else {
                            d0.out_buf@[u]
                        }),
                        *dec == (SilkDecoderState { prev_gain_q16: g, out_buf: dec.out_buf, ..d0 }),
                    decreases 2 * subfr - t,
                {
                    dec.out_buf[ltp_mem_length + t] = xq[t];
                    t += 1;
                }
            }
            let ghost ob1 = dec.out_buf@;
            let in_start = start_idx + k * subfr;
            let filt_len = ltp_mem_length - start_idx;
            let mut in_local = [0i16; 320];
            let mut t: usize = 0;
            while t < filt_len
                invariant
                    t <= filt_len <= 320,
                    in_start + filt_len <= 480,
                    ob1 == dec.out_buf@,
                    forall|u: int| 0 <= u < 320 ==> #[trigger] in_local@[u] == (if u < t { ob1[in_start + u] } else { 0i16 }),
                decreases filt_len - t,
            {
                in_local[t] = dec.out_buf[in_start + t];
                t += 1;
            }
            assert(in_local@ =~= rewhite_window(ob1, in_start as int, filt_len as int));
            let mut out_local = [0i16; 320];
            silk_lpc_analysis_filter(&mut out_local, &in_local, a_q12_tmp, filt_len, lpc_order);
            let mut t: usize = 0;
            while t < filt_len
                invariant
                    t <= filt_len,
                    start_idx + filt_len == ltp_mem_length,
                    ltp_mem_length <= 320,
                    forall|u: int| start_idx <= u < start_idx + t ==> #[trigger] s_ltp@[u] == out_local@[u - start_idx],
                decreases filt_len - t,
            {
                s_ltp[start_idx + t] = out_local[t];
                t += 1;
            }
            if k == 0 {
                inv_gain_q31 = silk_lshift(silk_smulwb(inv_gain_q31, ctrl.ltp_scale_q14), 2);
            }
            let n = *lag + 2;
            let bi = *buf_idx;
            let mut i: usize = 0;
            while i < n
                invariant
                    i <= n,
                    n == *lag + 2,
                    bi == *buf_idx,
                    n <= bi,
                    bi <= 640,
                    n + lpc_order + start_idx == ltp_mem_length,
                    ltp_mem_length <= 320,
                    forall|u: int| start_idx <= u < ltp_mem_length ==> #[trigger] s_ltp@[u] == out_local@[u - start_idx],
                    forall|u: int| 0 <= u < 640 ==> #[trigger] s_ltp_q15@[u] == (if bi - i <= u < bi {
                        fx_smulwb(inv_gain_q31 as int, s_ltp@[ltp_mem_length - (bi - u)] as int) as i32
                    } else {
                        q0[u]
                    }),
                decreases n - i,
            {
                s_ltp_q15[bi - i - 1] = silk_smulwb(inv_gain_q31, s_ltp[ltp_mem_length - i - 1] as i32);
                i += 1;
            }
            assert(s_ltp_q15@ =~= rewhite_q(q0, bi0, *lag as int, inv_gain_q31 as int,
                rewhite_window(ob1, in_start as int, filt_len as int), filt_len as int, a_q12_tmp@, lpc_order as int));
        } else if gain_adj_q16 != 0x1_0000 {
            let n = *lag + 2;
            let bi = *buf_idx;
            let mut i: usize = 0;
            while i < n
                invariant
                    i <= n,
                    n <= bi,
                    bi <= 640,
                    forall|u: int| 0 <= u < 640 ==> #[trigger] s_ltp_q15@[u] == (if bi - i <= u < bi {
                        fx_smulww(gain_adj_q16 as int, q0[u] as int) as i32
                    } else {
                        q0[u]
                    }),
                decreases n - i,
            {
                s_ltp_q15[bi - i - 1] = silk_smulww(gain_adj_q16, s_ltp_q15[bi - i - 1]);
                i += 1;
            }
            assert(s_ltp_q15@ =~= rescale_q(q0, bi0, *lag as int, gain_adj_q16 as int));
        }
    }
    let ghost q1 = s_ltp_q15@;
    if voiced {
        ltp_synthesis(s_ltp_q15, *buf_idx, *lag, &b_q14, &dec.exc_q14, k * subfr, subfr, res_q14);
        *buf_idx = *buf_idx + subfr;
    } else {
        let mut t: usize = 0;
        while t < subfr
            invariant
                t <= subfr <= 80,
                k * subfr + subfr <= 320,
                forall|u: int| 0 <= u < t ==> #[trigger] res_q14@[u] == dec.exc_q14@[k * subfr + u],
            decreases subfr - t,
        {
            res_q14[t] = dec.exc_q14[k * subfr + t];
            t += 1;
        }
    }
    assert((k + 1) * subfr == k * subfr + subfr) by (nonlinear_arith);
    proof {
        reveal(sub_front);
        let fr = sub_front(d0, *ctrl, d0.exc_q14@, (d0.prev_gain_q16 as int, sl0, q0, bi0, d0.out_buf@, xq0, lag0), k as int);
        let order = d0.lpc_order as int;
        let exc_k = d0.exc_q14@.subrange(k * subfr, k * subfr + subfr);
        assert(dec.exc_q14@ == d0.exc_q14@);
        assert(fr.4 == *lag as int);
        assert(fr.2 == *buf_idx as int);
        assert(fr.3 == dec.out_buf@);
        assert(fr.1 == s_ltp_q15@);
        let pg = d0.prev_gain_q16 as int;
        let adj = if g != pg { fx_div32_varq(pg, g as int, 16) } else { 0x1_0000 };
        let sl1s = if g != pg { Seq::new(96, |j: int| fx_smulww(adj, sl0[j] as int) as i32) } else { sl0 };
        assert(s_lpc_q14@ == sl1s);
        let ovr = sub_override(d0.loss_cnt as int, d0.prev_signal_type as int, d0.indices.signal_type as int, k as int);
        let vs = ovr || d0.indices.signal_type == 2;
        assert(vs == voiced);
        let b = if ovr { seq![0i16, 0i16, 4096i16, 0i16, 0i16] } else { ctrl.ltp_coef_q14@.subrange(5 * k, 5 * k + 5) };
        assert(b == b_q14@);
        let lag1 = *lag as int;
        assert forall|i: int| 0 <= i < subfr implies #[trigger] res_q14@[i] == fr.5[i] by {
            if vs {
                crate::arith::lemma_wrap_bounds(exc_k[i] as int + ltp_acc(ltp_synth(q1, bi0, lag1, b, exc_k, i as nat), bi0 - lag1 + 2 + i, b, 5) * 2, 0x8000_0000);
            }
        }
    }
}

/// The second part of one subframe ([`sub_back`]).
#[verifier::spinoff_prover]
fn subframe_back(
    ctrl: &SilkDecoderControl,
    xq: &mut [i16],
    a_q12_tmp: &[i16; 16],
    res_q14: &[i32; 80],
    s_lpc_q14: &mut [i32; 96],
    lpc_order: usize,
    subfr: usize,
    k: usize,
    Ghost(d): Ghost<SilkDecoderState>,
    Ghost(st): Ghost<(int, Seq<i32>, Seq<i32>, int, Seq<i16>, Seq<i16>, int)>,
    Ghost(fr): Ghost<(Seq<i32>, Seq<i32>, int, Seq<i16>, int, Seq<i32>)>,
)
    requires
        lpc_order == d.lpc_order,
        subfr == d.subfr_length,
        lpc_order == 10 || lpc_order == 16,
        1 <= subfr <= 80,
        k < 4,
        k * subfr + subfr <= old(xq)@.len(),
        old(xq)@ == st.5,
        old(s_lpc_q14)@ == fr.0,
        fr.5.len() == subfr,
        forall|i: int| 0 <= i < subfr ==> #[trigger] res_q14@[i] == fr.5[i],
        a_q12_tmp@ == sub_a(*ctrl, k as int, lpc_order as int),
    ensures
        final(xq)@ == sub_back(d, *ctrl, st, fr, k as int).5,
        final(xq)@.len() == old(xq)@.len(),
        final(s_lpc_q14)@ == sub_back(d, *ctrl, st, fr, k as int).1,
        sub_back(d, *ctrl, st, fr, k as int).0 == ctrl.gains_q16@[k as int],
        sub_back(d, *ctrl, st, fr, k as int).2 == fr.1,
        sub_back(d, *ctrl, st, fr, k as int).3 == fr.2,
        sub_back(d, *ctrl, st, fr, k as int).4 == fr.3,
        sub_back(d, *ctrl, st, fr, k as int).6 == fr.4,
{
    let ghost xq0 = xq@;
    let g = ctrl.gains_q16[k];
    let gain_q10 = silk_rshift(g, 6);
    let ghost sl1 = s_lpc_q14@;
    lpc_synthesis(s_lpc_q14, res_q14, a_q12_tmp, lpc_order, subfr, gain_q10, xq, k * subfr);
    let ghost sl2 = s_lpc_q14@;
    let mut t: usize = 0;
    while t < 16
        invariant
            t <= 16,
            subfr <= 80,
            forall|u: int| 0 <= u < 96 ==> #[trigger] s_lpc_q14@[u] == (if u < t { sl2[subfr + u] } else { sl2[u] }),
        decreases 16 - t,
    {
        s_lpc_q14[t] = s_lpc_q14[subfr + t];
        t += 1;
    }
    proof {
        reveal(sub_back);
        let order = lpc_order as int;
        let a = sub_a(*ctrl, k as int, order);
        lemma_lpc_synth_res_prefix(sl1, res_q14@, fr.5, a, order, subfr as nat);
        let bk = sub_back(d, *ctrl, st, fr, k as int);
        assert(bk.1 =~= s_lpc_q14@);
        assert forall|j: int| 0 <= j < xq@.len() implies #[trigger] xq@[j] == bk.5[j] by {
            if k * subfr <= j < k * subfr + subfr {
                let i = j - k * subfr;
                assert(xq@[k * subfr + i] == out_sample(sl2[16 + i] as int, gain_q10 as int));
            }
        }
        assert(bk.5 =~= xq@);
    }
}

/// One subframe of [`silk_decode_core`] ([`core_sub`]).
fn core_subframe(
    dec: &mut SilkDecoderState,
    ctrl: &SilkDecoderControl,
    xq: &mut [i16],
    s_ltp: &mut [i16; 320],
    s_ltp_q15: &mut [i32; 640],
    res_q14: &mut [i32; 80],
    s_lpc_q14: &mut [i32; 96],
    buf_idx: &mut usize,
    lag: &mut usize,
    k: usize,
)
    requires
        core_ready(*old(dec), *ctrl),
        k < old(dec).nb_subfr,
        old(xq)@.len() >= old(dec).frame_length,
        old(dec).ltp_mem_length <= *old(buf_idx) <= old(dec).ltp_mem_length + k * old(dec).subfr_length,
        *old(lag) <= i32::MAX,
    ensures
        final(xq)@.len() == old(xq)@.len(),
        ({
            let st = core_sub(*old(dec), *ctrl, old(dec).exc_q14@,
                (old(dec).prev_gain_q16 as int, old(s_lpc_q14)@, old(s_ltp_q15)@, *old(buf_idx) as int,
                 old(dec).out_buf@, old(xq)@, *old(lag) as int), k as int);
            &&& final(dec).prev_gain_q16 == st.0
            &&& final(s_lpc_q14)@ == st.1
            &&& final(s_ltp_q15)@ == st.2
            &&& *final(buf_idx) == st.3
            &&& final(dec).out_buf@ == st.4
            &&& final(xq)@ == st.5
            &&& *final(lag) == st.6
        }),
        *final(dec) == (SilkDecoderState {
            prev_gain_q16: ctrl.gains_q16@[k as int],
            out_buf: final(dec).out_buf,
            ..*old(dec)
        }),
        *final(buf_idx) <= old(dec).ltp_mem_length + (k + 1) * old(dec).subfr_length,
        old(dec).ltp_mem_length <= *final(buf_idx),
        *final(lag) <= i32::MAX,
{
    let ghost d0 = *dec;
    let ghost st0 = (dec.prev_gain_q16 as int, s_lpc_q14@, s_ltp_q15@, *buf_idx as int, dec.out_buf@, xq@, *lag as int);
    let lpc_order = dec.lpc_order as usize;
    let subfr = dec.subfr_length as usize;
    assert(k * subfr + subfr <= d0.frame_length) by (nonlinear_arith)
        requires k < d0.nb_subfr, d0.frame_length == d0.nb_subfr * d0.subfr_length, subfr == d0.subfr_length;
    let mut a_q12_tmp = [0i16; 16];
    let mut j: usize = 0;
    while j < lpc_order
        invariant
            j <= lpc_order,
            lpc_order == d0.lpc_order,
            lpc_order == 10 || lpc_order == 16,
            k < 4,
            forall|t: int| 0 <= t < 16 ==> #[trigger] a_q12_tmp@[t] == (if t < j { ctrl.pred_coef_q12@[k as int / 2]@[t] } else { 0i16 }),
        decreases lpc_order - j,
    {
        a_q12_tmp[j] = ctrl.pred_coef_q12[k / 2][j];
        j += 1;
    }
    assert(a_q12_tmp@ =~= sub_a(*ctrl, k as int, d0.lpc_order as int));
    subframe_front(dec, ctrl, xq, &a_q12_tmp, s_ltp, s_ltp_q15, res_q14, s_lpc_q14, buf_idx, lag, k);
    let ghost fr = sub_front(d0, *ctrl, d0.exc_q14@, st0, k as int);
    subframe_back(ctrl, xq, &a_q12_tmp, res_q14, s_lpc_q14, lpc_order, subfr, k, Ghost(d0), Ghost(st0), Ghost(fr));
}

/// The synthesis of `n` samples reads only the first `n` residual samples.
proof fn lemma_lpc_synth_res_prefix(s0: Seq<i32>, r1: Seq<i32>, r2: Seq<i32>, a: Seq<i16>, order: int, n: nat)
    requires
        forall|i: int| 0 <= i < n ==> #[trigger] r1[i] == r2[i],
    ensures
        lpc_synth(s0, r1, a, order, n) == lpc_synth(s0, r2, a, order, n),
    decreases n,
{
    if n > 0 {
        lemma_lpc_synth_res_prefix(s0, r1, r2, a, order, (n - 1) as nat);
        assert(r1[n - 1] == r2[n - 1]);
    }
}

/// The quantization offset (Q10) of the frame's signal and offset types.
pub open spec fn core_offset(d: SilkDecoderState) -> int {
    SILK_QUANTIZATION_OFFSETS_Q10@[d.indices.signal_type / 2]@[d.indices.quant_offset_type as int] as int
}

/// The excitation buffer after [`silk_decode_core`]: the frame's samples
/// from the pulses, the rest kept.
pub open spec fn core_exc(d: SilkDecoderState, pulses: Seq<i16>) -> Seq<i32> {
    Seq::new(320, |i: int| if i < d.frame_length {
        exc_at(d.indices.seed as int, pulses, core_offset(d), i) as i32
    } else {
        d.exc_q14@[i]
    })
}

/// The state after `k` subframes, from the saved LPC state, an empty
/// long-term buffer positioned after the LTP memory, and no lag.
pub open spec fn core_run(
    d: SilkDecoderState,
    c: SilkDecoderControl,
    exc: Seq<i32>,
    xq0: Seq<i16>,
    k: nat,
) -> (int, Seq<i32>, Seq<i32>, int, Seq<i16>, Seq<i16>, int)
    decreases k,
{
    if k == 0 {
        (
            d.prev_gain_q16 as int,
            Seq::new(96, |j: int| if j < 16 { d.s_lpc_q14_buf@[j] } else { 0i32 }),
            Seq::new(640, |j: int| 0i32),
            d.ltp_mem_length as int,
            d.out_buf@,
            xq0,
            0,
        )
    } else {
        core_sub(d, c, exc, core_run(d, c, exc, xq0, (k - 1) as nat), k - 1)
    }
}

/// [`core_sub`] reads the decoder state only for its layout and indices.
proof fn lemma_core_sub_fields(d1: SilkDecoderState, d2: SilkDecoderState, c: SilkDecoderControl, exc: Seq<i32>,
    st: (int, Seq<i32>, Seq<i32>, int, Seq<i16>, Seq<i16>, int), k: int)
    requires
        d1.lpc_order == d2.lpc_order,
        d1.subfr_length == d2.subfr_length,
        d1.ltp_mem_length == d2.ltp_mem_length,
        d1.loss_cnt == d2.loss_cnt,
        d1.prev_signal_type == d2.prev_signal_type,
        d1.indices == d2.indices,
        d1.lag_prev == d2.lag_prev,
    ensures
        core_sub(d1, c, exc, st, k) == core_sub(d2, c, exc, st, k),
{
    reveal(sub_front);
    reveal(sub_back);
}

/// Decodes one frame of `frame_length` samples into
/// `xq`. The excitation is formed from the pulses ([`core_exc`]); then, per
/// subframe ([`core_sub`]), the LPC state is rescaled to a changed gain, a
/// voiced subframe re-whitens the past output (first subframe, or the third
/// after NLSF interpolation) or rescales its long-term state and adds the
/// five-tap pitch prediction, and the short-term synthesis output is scaled
/// by the gain. The state keeps the last gain, the LPC state, the excitation
/// and (for a re-whitened third subframe) the output history.
#[verifier::spinoff_prover]
#[verifier::rlimit(100)]
pub fn silk_decode_core(dec: &mut SilkDecoderState, ctrl: &SilkDecoderControl, xq: &mut [i16], pulses: &[i16])
    requires
        core_ready(*old(dec), *ctrl),
        old(xq)@.len() >= old(dec).frame_length,
        pulses@.len() >= old(dec).frame_length,
    ensures
        final(dec).exc_q14@ == core_exc(*old(dec), pulses@),
        ({
            let st = core_run(*old(dec), *ctrl, core_exc(*old(dec), pulses@), old(xq)@, old(dec).nb_subfr as nat);
            &&& final(dec).prev_gain_q16 == st.0
            &&& final(dec).s_lpc_q14_buf@ == st.1.subrange(0, 16)
            &&& final(dec).out_buf@ == st.4
            &&& final(xq)@ == st.5
        }),
        *final(dec) == (SilkDecoderState {
            prev_gain_q16: final(dec).prev_gain_q16,
            exc_q14: final(dec).exc_q14,
            s_lpc_q14_buf: final(dec).s_lpc_q14_buf,
            out_buf: final(dec).out_buf,
            ..*old(dec)
        }),
{
    let ghost d0 = *dec;
    let ghost xq0 = xq@;
    let nb_subfr = dec.nb_subfr as usize;
    let frame_length = dec.frame_length as usize;
    assert(frame_length <= 320) by (nonlinear_arith)
        requires frame_length == d0.nb_subfr * d0.subfr_length, d0.nb_subfr <= 4, d0.subfr_length <= 80, 1 <= d0.nb_subfr, 1 <= d0.subfr_length;
    let mut s_ltp = [0i16; 320];
    let mut s_ltp_q15 = [0i32; 640];
    let mut res_q14 = [0i32; 80];
    let mut s_lpc_q14 = [0i32; 96];
    core_excitation(dec, pulses);
    let ghost exc = dec.exc_q14@;
    let ghost d1 = *dec;
    let mut j: usize = 0;
    while j < 16
        invariant
            j <= 16,
            forall|u: int| 0 <= u < 96 ==> #[trigger] s_lpc_q14@[u] == (if u < j { d1.s_lpc_q14_buf@[u] } else { 0i32 }),
            *dec == d1,
        decreases 16 - j,
    {
        s_lpc_q14[j] = dec.s_lpc_q14_buf[j];
        j += 1;
    }
    let mut buf_idx: usize = dec.ltp_mem_length as usize;
    let mut lag: usize = 0;
    assert(core_ready(*dec, *ctrl)) by {
        assert forall|j: int| 0 <= j < dec.nb_subfr implies #[trigger] lag_ok(*dec, *ctrl, j) by {
            assert(lag_ok(d0, *ctrl, j));
        }
    }
    assert(s_lpc_q14@ =~= core_run(d0, *ctrl, exc, xq0, 0).1);
    assert(s_ltp_q15@ =~= core_run(d0, *ctrl, exc, xq0, 0).2);
    let mut k: usize = 0;
    while k < nb_subfr
        invariant
            k <= nb_subfr,
            nb_subfr == d0.nb_subfr,
            core_ready(*dec, *ctrl),
            xq@.len() == xq0.len(),
            xq0.len() >= d0.frame_length,
            exc == core_exc(d0, pulses@),
            d0.ltp_mem_length <= buf_idx <= d0.ltp_mem_length + k * d0.subfr_length,
            lag <= i32::MAX,
            *dec == (SilkDecoderState { prev_gain_q16: dec.prev_gain_q16, out_buf: dec.out_buf, ..d1 }),
            d1 == (SilkDecoderState { exc_q14: d1.exc_q14, ..d0 }),
            d1.exc_q14@ == exc,
            ({
                let st = core_run(d0, *ctrl, exc, xq0, k as nat);
                &&& dec.prev_gain_q16 == st.0
                &&& s_lpc_q14@ == st.1
                &&& s_ltp_q15@ == st.2
                &&& buf_idx == st.3
                &&& dec.out_buf@ == st.4
                &&& xq@ == st.5
                &&& lag == st.6
            }),
        decreases nb_subfr - k,
    {
        proof {
            lemma_core_sub_fields(*dec, d0, *ctrl, exc, core_run(d0, *ctrl, exc, xq0, k as nat), k as int);
        }
        let ghost dk = *dec;
        core_subframe(dec, ctrl, xq, &mut s_ltp, &mut s_ltp_q15, &mut res_q14, &mut s_lpc_q14, &mut buf_idx, &mut lag, k);
        proof {
            assert(core_run(d0, *ctrl, exc, xq0, (k + 1) as nat) == core_sub(d0, *ctrl, exc, core_run(d0, *ctrl, exc, xq0, k as nat), k as int));
            assert(core_ready(*dec, *ctrl)) by {
                assert forall|j: int| 0 <= j < dec.nb_subfr implies #[trigger] lag_ok(*dec, *ctrl, j) by {
                    assert(lag_ok(dk, *ctrl, j));
                }
            }
        }
        k += 1;
    }
    save_lpc_state(dec, &s_lpc_q14);
}

/// The frame's excitation from the pulses ([`core_exc`]).
fn core_excitation(dec: &mut SilkDecoderState, pulses: &[i16])
    requires
        0 <= old(dec).frame_length <= 320,
        0 <= old(dec).indices.signal_type <= 3,
        0 <= old(dec).indices.quant_offset_type <= 1,
        pulses@.len() >= old(dec).frame_length,
    ensures
        final(dec).exc_q14@ == core_exc(*old(dec), pulses@),
        *final(dec) == (SilkDecoderState { exc_q14: final(dec).exc_q14, ..*old(dec) }),
{
    let ghost d0 = *dec;
    let st = dec.indices.signal_type as usize;
    let offset_q10 = SILK_QUANTIZATION_OFFSETS_Q10[st / 2][dec.indices.quant_offset_type as usize] as i32;
    let frame_length = dec.frame_length as usize;
    excitation(&mut dec.exc_q14, pulses, frame_length, dec.indices.seed as i32, offset_q10);
    assert(dec.exc_q14@ =~= core_exc(d0, pulses@));
}

/// The first 16 entries of the synthesis buffer become the saved LPC state.
fn save_lpc_state(dec: &mut SilkDecoderState, s_lpc_q14: &[i32; 96])
    ensures
        final(dec).s_lpc_q14_buf@ == s_lpc_q14@.subrange(0, 16),
        *final(dec) == (SilkDecoderState { s_lpc_q14_buf: final(dec).s_lpc_q14_buf, ..*old(dec) }),
{
    let ghost d0 = *dec;
    let mut j: usize = 0;
    while j < 16
        invariant
            j <= 16,
            forall|u: int| 0 <= u < 16 ==> #[trigger] dec.s_lpc_q14_buf@[u] == (if u < j { s_lpc_q14@[u] } else { d0.s_lpc_q14_buf@[u] }),
            *dec == (SilkDecoderState { s_lpc_q14_buf: dec.s_lpc_q14_buf, ..d0 }),
        decreases 16 - j,
    {
        dec.s_lpc_q14_buf[j] = s_lpc_q14[j];
        j += 1;
    }
    assert(dec.s_lpc_q14_buf@ =~= s_lpc_q14@.subrange(0, 16));
}

} // verus!
