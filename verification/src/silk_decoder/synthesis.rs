//! Frame synthesis of the compact decoder: excitation from the pulses, the
//! long-term (pitch) filter over a Q15 history, and the short-term LPC filter
//! scaled by the subframe gains. Arithmetic that may leave 32 bits wraps, as
//! optimized builds do.

use vstd::prelude::*;
use crate::arith::{clamp, lemma_i32_wrapping_add, lemma_i64_as_i32_any, wrap32};
use crate::silk::decode_core::{excitation, exc_at};
use crate::silk::macros::{fx_shl32, fx_shr, silk_add_sat32, silk_lshift, silk_rshift, silk_rshift64};
use crate::silk::tables::{SILK_QUANTIZATION_OFFSETS_Q10, TYPE_VOICED};
use crate::silk_decoder::{SilkDecoder, SilkDecoderControl};

verus! {

/// `a - b`, or 0 when that is negative (`usize::saturating_sub`).
pub open spec fn sat_sub(a: int, b: int) -> int {
    if a >= b { a - b } else { 0 }
}

/// The re-whitening prediction at `i`: the sum over the first `j`
/// coefficients of history value `i - 1 - t` (index 0 where that is
/// negative; nothing past the end) times coefficient `t`.
pub open spec fn rw_taps(s: Seq<i32>, i: int, a: Seq<i16>, j: nat) -> int
    decreases j,
{
    if j == 0 {
        0
    } else {
        let h = sat_sub(i, j as int);
        rw_taps(s, i, a, (j - 1) as nat) + (if h < s.len() { s[h] as int * a[j - 1] as int } else { 0 })
    }
}

/// The output sample re-whitening reads for history position `i`.
pub open spec fn rw_sample(ob: Seq<i16>, i: int, ltp_mem: int, frame: int) -> int {
    let k = sat_sub(i, ltp_mem - frame);
    let k2 = if k < ob.len() - 1 { k } else { ob.len() - 1 };
    ob[k2] as int * 32768
}

/// The history after re-whitening positions `start .. start + n` in turn:
/// each becomes its output sample (Q15) less the LPC prediction of it.
pub open spec fn rw_run(s: Seq<i32>, ob: Seq<i16>, a: Seq<i16>, order: nat, ltp_mem: int, frame: int, start: int, n: nat) -> Seq<i32>
    decreases n,
{
    if n == 0 {
        s
    } else {
        let s1 = rw_run(s, ob, a, order, ltp_mem, frame, start, (n - 1) as nat);
        let i = start + n - 1;
        let v = wrap32(rw_sample(ob, i, ltp_mem, frame) - wrap32(rw_taps(s1, i, a, order) / 4096));
        if i < s1.len() { s1.update(i, v as i32) } else { s1 }
    }
}

/// The pitch prediction (Q13) from history position `p` back over the first
/// `j` taps (index 0 where `p - t` is negative; nothing past the end), with
/// a rounding bias of 2.
pub open spec fn ltp_taps(s: Seq<i32>, p: int, b: Seq<i16>, j: nat) -> int
    decreases j,
{
    if j == 0 {
        2
    } else {
        let t = sat_sub(p, j - 1);
        ltp_taps(s, p, b, (j - 1) as nat) + (if t < s.len() { (s[t] as int * b[j - 1] as int) / 0x1_0000 } else { 0 })
    }
}

/// The history and the LPC excitation after `n` samples of a subframe whose
/// excitation starts at `e0` and whose history position starts at `buf`:
/// voiced samples add twice the pitch prediction from `lag` back; each
/// excitation value, doubled, enters the history.
pub open spec fn ltp_run(s: Seq<i32>, exc: Seq<i32>, e0: int, buf: int, lag: int, b: Seq<i16>, voiced: bool, n: nat) -> (Seq<i32>, Seq<i32>)
    decreases n,
{
    if n == 0 {
        (s, Seq::empty())
    } else {
        let (s1, p1) = ltp_run(s, exc, e0, buf, lag, b, voiced, (n - 1) as nat);
        let i = n - 1;
        let base = buf + i;
        let pres = if voiced {
            let p = if base >= lag { base - lag + 2 } else { 0 };
            wrap32(exc[e0 + i] + wrap32(wrap32(ltp_taps(s1, p, b, 5)) * 2))
        } else {
            exc[e0 + i] as int
        };
        let s2 = if base < s1.len() { s1.update(base, wrap32(pres * 2) as i32) } else { s1 };
        (s2, p1.push(pres as i32))
    }
}

/// The LPC prediction (Q10) of window position `idx` over the first `j`
/// coefficients, each product shifted down by 16 bits on its own.
pub open spec fn lpc_taps(w: Seq<i32>, idx: int, a: Seq<i16>, j: nat, init: int) -> int
    decreases j,
{
    if j == 0 {
        init
    } else {
        lpc_taps(w, idx, a, (j - 1) as nat, init) + (w[idx - j] as int * a[j - 1] as int) / 0x1_0000
    }
}

/// The LPC window (16 past values, then the synthesized ones) after `n`
/// samples: each is its excitation plus 16 times the prediction, saturated.
pub open spec fn lpc_run(w: Seq<i32>, pres: Seq<i32>, a: Seq<i16>, order: nat, n: nat) -> Seq<i32>
    decreases n,
{
    if n == 0 {
        w
    } else {
        let w1 = lpc_run(w, pres, a, order, (n - 1) as nat);
        let pred = lpc_taps(w1, w1.len() as int, a, order, order as int / 2);
        w1.push(clamp(pres[n - 1] + wrap32(wrap32(pred) * 16), i32::MIN as int, i32::MAX as int) as i32)
    }
}

/// An output sample: the synthesized value times the gain (Q10), shifted
/// down by 16 bits, truncated to 32 bits and saturated to 16 bits.
pub open spec fn core_out(v: int, gain_q10: int) -> i16 {
    clamp(wrap32((v * gain_q10) / 0x1_0000), -0x8000, 0x7fff) as i16
}

/// The state after `k` subframes: the history, the last 16 LPC values, and
/// the output so far.
pub open spec fn core_fold(
    s0: Seq<i32>, w0: Seq<i32>, exc: Seq<i32>, ctrl: SilkDecoderControl, ltp_mem: int, sl: nat, order: nat,
    voiced: bool, k: nat,
) -> (Seq<i32>, Seq<i32>, Seq<i16>)
    decreases k,
{
    if k == 0 {
        (s0, w0, Seq::empty())
    } else {
        let (s, w, o) = core_fold(s0, w0, exc, ctrl, ltp_mem, sl, order, voiced, (k - 1) as nat);
        let sub = k - 1;
        let lag = ctrl.pitch_l@[sub] as usize as int;
        let b = ctrl.ltp_coef_q14@.subrange(sub * 5, sub * 5 + 5);
        let a = ctrl.pred_coef_q12@[sub / 2]@;
        let gain = fx_shr(ctrl.gains_q16@[sub] as int, 6);
        let (s1, pres) = ltp_run(s, exc, sub * sl, ltp_mem + sub * sl, lag, b, voiced && lag > 0, sl);
        let wf = lpc_run(w, pres, a, order, sl);
        (s1, wf.subrange(sl as int, sl as int + 16), o + Seq::new(sl, |i: int| core_out(wf[16 + i] as int, gain)))
    }
}


/// `usize::saturating_sub`.
fn usize_sat_sub(a: usize, b: usize) -> (r: usize)
    ensures
        r == sat_sub(a as int, b as int),
{
    if a >= b { a - b } else { 0 }
}

/// Truncation of a 64-bit value to 32 bits.
fn trunc32(x: i64) -> (r: i32)
    ensures
        r == wrap32(x as int),
{
    proof { lemma_i64_as_i32_any(x); }
    #[verifier::truncate] (x as i32)
}

/// Re-whitens history positions `start .. ltp_mem` in turn ([`rw_run`]).
fn rewhiten(s: &mut Vec<i32>, ob: &[i16; 480], a: &[i16; 16], order: usize, ltp_mem: usize, frame: usize, start: usize)
    requires
        order <= 16,
        start <= ltp_mem,
        frame <= ltp_mem <= 0x1000_0000,
    ensures
        final(s)@.len() == old(s)@.len(),
        final(s)@ == rw_run(old(s)@, ob@, a@, order as nat, ltp_mem as int, frame as int, start as int, (ltp_mem - start) as nat),
{
    let ghost s0 = s@;
    let mut i: usize = start;
    while i < ltp_mem
        invariant
            start <= i <= ltp_mem,
            order <= 16,
            frame <= ltp_mem <= 0x1000_0000,
            s@.len() == s0.len(),
            s@ == rw_run(s0, ob@, a@, order as nat, ltp_mem as int, frame as int, start as int, (i - start) as nat),
        decreases ltp_mem - i,
    {
        let ghost sp = s@;
        let k = usize_sat_sub(i, ltp_mem - frame);
        let k2 = if k < 479 { k } else { 479 };
        let sample: i32 = ob[k2] as i32 * 32768;
        let mut acc: i64 = 0;
        let mut j: usize = 0;
        while j < order
            invariant
                j <= order <= 16,
                s@ == sp,
                acc == rw_taps(sp, i as int, a@, j as nat),
                -0x8000_0000_0000 * j <= acc <= 0x8000_0000_0000 * j,
            decreases order - j,
        {
            let h = usize_sat_sub(i, j + 1);
            if h < s.len() {
                let x = s[h] as i64;
                let y = a[j] as i64;
                assert(-0x8000_0000_0000 <= x * y <= 0x8000_0000_0000) by (nonlinear_arith)
                    requires -0x8000_0000 <= x <= 0x7fff_ffff, -0x8000 <= y <= 0x7fff;
                let t = x * y;
                acc = acc + t;
            }
            j += 1;
        }
        let pred = trunc32(silk_rshift64(acc, 12));
        proof { vstd::arithmetic::power2::lemma2_to64(); lemma_i32_wrapping_add(sample, pred); }
        let v = sample.wrapping_sub(pred);
        if i < s.len() {
            s.set(i, v);
        }
        i += 1;
        proof {
            assert(rw_sample(ob@, (i - 1) as int, ltp_mem as int, frame as int) == sample);
        }
    }
}

/// One subframe of the long-term filter ([`ltp_run`]): writes the subframe's
/// LPC excitation to `pres[..sl]` and its doubled values into the history.
fn ltp_subframe(s: &mut Vec<i32>, exc: &[i32; 320], e0: usize, buf: usize, lag: usize, b: &[i16], voiced: bool, sl: usize, pres: &mut [i32; 80])
    requires
        e0 + sl <= 320,
        sl <= 80,
        buf <= 0x2000_0000,
        b@.len() == 5,
    ensures
        final(s)@.len() == old(s)@.len(),
        final(s)@ == ltp_run(old(s)@, exc@, e0 as int, buf as int, lag as int, b@, voiced, sl as nat).0,
        final(pres)@.subrange(0, sl as int) == ltp_run(old(s)@, exc@, e0 as int, buf as int, lag as int, b@, voiced, sl as nat).1,
{
    let ghost s0 = s@;
    let mut i: usize = 0;
    while i < sl
        invariant
            i <= sl <= 80,
            e0 + sl <= 320,
            buf <= 0x2000_0000,
            b@.len() == 5,
            s@.len() == s0.len(),
            s@ == ltp_run(s0, exc@, e0 as int, buf as int, lag as int, b@, voiced, i as nat).0,
            pres@.subrange(0, i as int) == ltp_run(s0, exc@, e0 as int, buf as int, lag as int, b@, voiced, i as nat).1,
        decreases sl - i,
    {
        let ghost sp = s@;
        let ghost pp = pres@;
        let base = buf + i;
        let v: i32 = if voiced {
            let p = if base >= lag { base - lag + 2 } else { 0 };
            let mut acc: i64 = 2;
            let mut j: usize = 0;
            while j < 5
                invariant
                    j <= 5,
                    b@.len() == 5,
                    s@ == sp,
                    acc == ltp_taps(sp, p as int, b@, j as nat),
                    -0x1_0000_0000 * j <= acc - 2 <= 0x1_0000_0000 * j,
                decreases 5 - j,
            {
                let t = usize_sat_sub(p, j);
                if t < s.len() {
                    let x = s[t] as i64;
                    let y = b[j] as i64;
                    assert(-0x8000_0000_0000 <= x * y <= 0x8000_0000_0000) by (nonlinear_arith)
                        requires -0x8000_0000 <= x <= 0x7fff_ffff, -0x8000 <= y <= 0x7fff;
                    let prod = x * y;
                    let q = silk_rshift64(prod, 16);
                    proof {
                        vstd::arithmetic::power2::lemma2_to64();
                        vstd::arithmetic::div_mod::lemma_div_is_ordered(-0x8000_0000_0000, prod as int, 0x1_0000);
                        vstd::arithmetic::div_mod::lemma_div_is_ordered(prod as int, 0x8000_0000_0000, 0x1_0000);
                    }
                    acc = acc + q;
                }
                j += 1;
            }
            proof { vstd::arithmetic::power2::lemma2_to64(); }
            let x2 = silk_lshift(trunc32(acc), 1);
            proof { lemma_i32_wrapping_add(exc@[(e0 + i) as int], x2); }
            exc[e0 + i].wrapping_add(x2)
        } else {
            exc[e0 + i]
        };
        pres[i] = v;
        proof { vstd::arithmetic::power2::lemma2_to64(); }
        let v2 = silk_lshift(v, 1);
        if base < s.len() {
            s.set(base, v2);
        }
        i += 1;
        proof {
            let r = ltp_run(s0, exc@, e0 as int, buf as int, lag as int, b@, voiced, i as nat);
            let r1 = ltp_run(s0, exc@, e0 as int, buf as int, lag as int, b@, voiced, (i - 1) as nat);
            assert(r.1 == r1.1.push(v));
            assert(pres@.subrange(0, i as int) =~= pp.subrange(0, (i - 1) as int).push(v));
        }
    }
}

/// One subframe of the LPC filter ([`lpc_run`]) on the window `w` (its
/// first 16 values are the past ones), writing [`core_out`] of each new value
/// to `output[o0..o0 + sl]`.
fn lpc_subframe(w: &mut [i32; 96], pres: &[i32; 80], a: &[i16; 16], order: usize, sl: usize, gain_q10: i32, output: &mut [i16], o0: usize)
    requires
        sl <= 80,
        order <= 16,
        o0 + sl <= old(output)@.len(),
    ensures
        ({
            let r = lpc_run(old(w)@.subrange(0, 16), pres@.subrange(0, sl as int), a@, order as nat, sl as nat);
            &&& r.len() == 16 + sl
            &&& forall|u: int| 0 <= u < 16 ==> #[trigger] final(w)@[u] == r[sl + u]
            &&& forall|i: int| 0 <= i < sl ==> #[trigger] final(output)@[o0 + i] == core_out(r[16 + i] as int, gain_q10 as int)
        }),
        final(output)@.len() == old(output)@.len(),
        forall|i: int| 0 <= i < old(output)@.len() && !(o0 <= i < o0 + sl) ==> #[trigger] final(output)@[i] == old(output)@[i],
{
    let ghost w0 = w@.subrange(0, 16);
    let ghost p = pres@.subrange(0, sl as int);
    let ghost out0 = output@;
    let olen = output.len();
    let mut i: usize = 0;
    while i < sl
        invariant
            i <= sl <= 80,
            output@.len() == olen,
            order <= 16,
            o0 + sl <= out0.len(),
            output@.len() == out0.len(),
            p == pres@.subrange(0, sl as int),
            lpc_run(w0, p, a@, order as nat, i as nat).len() == 16 + i,
            forall|u: int| 0 <= u < 16 + i ==> #[trigger] w@[u] == lpc_run(w0, p, a@, order as nat, i as nat)[u],
            forall|t: int| 0 <= t < i ==> #[trigger] output@[o0 + t] == core_out(w@[16 + t] as int, gain_q10 as int),
            forall|t: int| 0 <= t < out0.len() && !(o0 <= t < o0 + i) ==> #[trigger] output@[t] == out0[t],
        decreases sl - i,
    {
        let ghost w1 = lpc_run(w0, p, a@, order as nat, i as nat);
        let idx = 16 + i;
        let mut acc: i64 = (order as i64) / 2;
        let mut j: usize = 0;
        while j < order
            invariant
                j <= order <= 16,
                idx == 16 + i,
                i < sl <= 80,
                w1.len() == idx,
                forall|u: int| 0 <= u < idx ==> #[trigger] w@[u] == w1[u],
                acc == lpc_taps(w1, idx as int, a@, j as nat, order as int / 2),
                -0x1_0000_0000 * j <= acc - order as int / 2 <= 0x1_0000_0000 * j,
            decreases order - j,
        {
            let x = w[idx - j - 1] as i64;
            let y = a[j] as i64;
            assert(-0x8000_0000_0000 <= x * y <= 0x8000_0000_0000) by (nonlinear_arith)
                requires -0x8000_0000 <= x <= 0x7fff_ffff, -0x8000 <= y <= 0x7fff;
            let prod = x * y;
            let q = silk_rshift64(prod, 16);
            proof {
                vstd::arithmetic::power2::lemma2_to64();
                vstd::arithmetic::div_mod::lemma_div_is_ordered(-0x8000_0000_0000, prod as int, 0x1_0000);
                vstd::arithmetic::div_mod::lemma_div_is_ordered(prod as int, 0x8000_0000_0000, 0x1_0000);
            }
            acc = acc + q;
            j += 1;
        }
        proof { vstd::arithmetic::power2::lemma2_to64(); }
        let v = silk_add_sat32(pres[i], silk_lshift(trunc32(acc), 4));
        w[idx] = v;
        let x = v as i64;
        let y = gain_q10 as i64;
        assert(-0x4000_0000_0000_0000 <= x * y <= 0x4000_0000_0000_0000) by (nonlinear_arith)
            requires -0x8000_0000 <= x <= 0x7fff_ffff, -0x8000_0000 <= y <= 0x7fff_ffff;
        let prod = x * y;
        let y = trunc32(silk_rshift64(prod, 16));
        let o: i16 = if y < -32768 { -32768 } else if y > 32767 { 32767 } else { y as i16 };
        output[o0 + i] = o;
        i += 1;
        proof {
            assert(p[(i - 1) as int] == pres@[(i - 1) as int]);
        }
    }
    let mut t: usize = 0;
    let ghost wf = w@;
    assert(forall|u: int| 0 <= u < 16 + sl ==> #[trigger] wf[u] == lpc_run(w0, p, a@, order as nat, sl as nat)[u]);
    while t < 16
        invariant
            t <= 16,
            sl <= 80,
            forall|u: int| 0 <= u < 96 ==> #[trigger] w@[u] == (if u < t { wf[sl + u] } else { wf[u] }),
        decreases 16 - t,
    {
        w[t] = w[sl + t];
        t += 1;
    }
}


/// The history grown with zeros to at least `n` entries.
pub open spec fn ltp_grown(s: Seq<i32>, n: int) -> Seq<i32> {
    if s.len() < n { s + Seq::new((n - s.len()) as nat, |i: int| 0i32) } else { s }
}

/// The history moved down by `f` positions over its first `ltp_mem`
/// entries (when `0 < f < len`), ready for the next frame.
pub open spec fn ltp_shifted(s: Seq<i32>, ltp_mem: int, f: int) -> Seq<i32> {
    if 0 < f < s.len() {
        Seq::new(s.len(), |t: int| if t < ltp_mem { s[f + t] } else { s[t] })
    } else {
        s
    }
}

/// The excitation of a frame: the first `frame_length` values from the
/// pulses, the rest kept.
pub open spec fn legacy_exc(d: SilkDecoder, pulses: Seq<i16>) -> Seq<i32> {
    let offset = SILK_QUANTIZATION_OFFSETS_Q10@[d.indices.signal_type / 2]@[d.indices.quant_offset_type as int] as int;
    Seq::new(320, |i: int| if i < d.frame_length { exc_at(d.indices.seed as int, pulses, offset, i) as i32 } else { d.exc_q14@[i] })
}

/// Whether the frame and the one before it are both voiced (the history is
/// then re-whitened from the last output).
pub open spec fn legacy_rewhiten(d: SilkDecoder) -> bool {
    d.indices.signal_type == TYPE_VOICED && d.prev_signal_type == TYPE_VOICED
}

/// The history entering the subframes: grown to `ltp_mem_length +
/// frame_length` and, for two voiced frames in a row, re-whitened from the
/// point `lag + order + 2` before its end.
pub open spec fn legacy_history(d: SilkDecoder, ctrl: SilkDecoderControl) -> Seq<i32> {
    let s0 = ltp_grown(d.s_ltp_q15@, d.ltp_mem_length + d.frame_length);
    if legacy_rewhiten(d) {
        let p0 = ctrl.pitch_l@[0];
        let lag = (if p0 > 1 { p0 } else { 1 }) as usize as int;
        let start = sat_sub(d.ltp_mem_length as int, lag + d.lpc_order + 2);
        rw_run(s0, d.out_buf@, ctrl.pred_coef_q12@[(d.nb_subfr / 2) as int]@, d.lpc_order as nat,
            d.ltp_mem_length as int, d.frame_length as int, start, (d.ltp_mem_length - start) as nat)
    } else {
        s0
    }
}

/// The state after all subframes of a frame ([`core_fold`]).
pub open spec fn legacy_frame(d: SilkDecoder, ctrl: SilkDecoderControl, pulses: Seq<i16>) -> (Seq<i32>, Seq<i32>, Seq<i16>) {
    core_fold(legacy_history(d, ctrl), d.slpc_q14_buf@, legacy_exc(d, pulses), ctrl, d.ltp_mem_length as int,
        d.subfr_length as nat, d.lpc_order as nat, d.indices.signal_type == TYPE_VOICED, d.nb_subfr as nat)
}

/// The frame layout and side information decoding relies on.
pub open spec fn core_layout_ok(d: SilkDecoder) -> bool {
    &&& d.nb_subfr <= 4
    &&& d.subfr_length <= 80
    &&& d.nb_subfr * d.subfr_length == d.frame_length
    &&& d.frame_length <= 320
    &&& d.lpc_order <= 16
    &&& d.ltp_mem_length <= 0x1000_0000
    &&& 0 <= d.indices.signal_type <= 3
    &&& 0 <= d.indices.quant_offset_type <= 1
    &&& legacy_rewhiten(d) ==> d.frame_length <= d.ltp_mem_length && d.nb_subfr / 2 < 2
}

/// The subframes of a frame ([`core_fold`]) from the history `s` and the
/// window `w` (its first 16 values the LPC state).
fn synth_subframes(s: &mut Vec<i32>, exc: &[i32; 320], w: &mut [i32; 96], dec_ctrl: &SilkDecoderControl, output: &mut [i16],
    ltp_mem: usize, sl: usize, nb: usize, order: usize, is_voiced: bool)
    requires
        nb <= 4,
        sl <= 80,
        nb * sl <= 320,
        nb * sl <= old(output)@.len(),
        order <= 16,
        ltp_mem <= 0x1000_0000,
    ensures
        ({
            let f = core_fold(old(s)@, old(w)@.subrange(0, 16), exc@, *dec_ctrl, ltp_mem as int, sl as nat, order as nat, is_voiced, nb as nat);
            &&& final(s)@ == f.0
            &&& final(s)@.len() == old(s)@.len()
            &&& final(w)@.subrange(0, 16) == f.1
            &&& f.2.len() == nb * sl
            &&& final(output)@.len() == old(output)@.len()
            &&& forall|i: int| 0 <= i < nb * sl ==> #[trigger] final(output)@[i] == f.2[i]
            &&& forall|i: int| nb * sl <= i < old(output)@.len() ==> #[trigger] final(output)@[i] == old(output)@[i]
        }),
{
    let ghost s_in = s@;
    let ghost w0 = w@.subrange(0, 16);
    let frame_length = nb * sl;
        let mut pres = [0i32; 80];
        let ghost out0 = output@;
        let mut k: usize = 0;
        while k < nb
            invariant
                k <= nb <= 4,
                sl <= 80,
                nb * sl == frame_length,
                frame_length <= 320,
                frame_length <= out0.len(),
                output@.len() == out0.len(),
                order <= 16,
                ltp_mem <= 0x1000_0000,
                
                s@.len() == s_in.len(),
                ({
                    let f = core_fold(s_in, w0, exc@, *dec_ctrl, ltp_mem as int, sl as nat, order as nat, is_voiced, k as nat);
                    &&& s@ == f.0
                    &&& w@.subrange(0, 16) == f.1
                    &&& f.2.len() == k * sl
                    &&& forall|i: int| 0 <= i < k * sl ==> #[trigger] output@[i] == f.2[i]
                }),
                forall|i: int| k * sl <= i < out0.len() ==> #[trigger] output@[i] == out0[i],
            decreases nb - k,
        {
            assert(k * sl + sl <= nb * sl) by (nonlinear_arith) requires k < nb;
            let lag = dec_ctrl.pitch_l[k] as usize;
            let b = vstd::slice::slice_subrange(&dec_ctrl.ltp_coef_q14, k * 5, k * 5 + 5);
                        let ghost wp = w@;
            ltp_subframe(s, exc, k * sl, ltp_mem + k * sl, lag, b, is_voiced && lag > 0, sl, &mut pres);
            let gain_q10 = silk_rshift(dec_ctrl.gains_q16[k], 6);
            lpc_subframe(w, &pres, &dec_ctrl.pred_coef_q12[k / 2], order, sl, gain_q10, output, k * sl);
            proof {
                assert(b@ == dec_ctrl.ltp_coef_q14@.subrange(k * 5, k * 5 + 5));
                let f = core_fold(s_in, w0, exc@, *dec_ctrl, ltp_mem as int, sl as nat, order as nat, is_voiced, (k + 1) as nat);
                let r = lpc_run(wp.subrange(0, 16), pres@.subrange(0, sl as int), dec_ctrl.pred_coef_q12@[(k / 2) as int]@, order as nat, sl as nat);
                assert(w@.subrange(0, 16) =~= f.1);
                assert((k + 1) * sl == k * sl + sl) by (nonlinear_arith);
                assert forall|i: int| 0 <= i < (k + 1) * sl implies #[trigger] output@[i] == f.2[i] by {
                    if i >= k * sl {
                        assert(output@[k * sl + (i - k * sl)] == core_out(r[16 + (i - k * sl)] as int, gain_q10 as int));
                    }
                }
            }
            k += 1;
        }
}

/// Moves the history down by `frame_length` for the next frame ([`ltp_shifted`]).
fn shift_history(s: &mut Vec<i32>, ltp_mem: usize, frame_length: usize)
    requires
        ltp_mem + frame_length <= old(s)@.len(),
    ensures
        final(s)@ == ltp_shifted(old(s)@, ltp_mem as int, frame_length as int),
{
        let ghost s2 = s@;
        let slen = s.len();
        if frame_length > 0 && frame_length < slen {
            let mut t: usize = 0;
            while t < ltp_mem
                invariant
                    t <= ltp_mem,
                    s2.len() == slen,
                    ltp_mem + frame_length <= s2.len(),
                    s@.len() == s2.len(),
                    forall|u: int| 0 <= u < s2.len() ==> #[trigger] s@[u] == (if u < t { s2[frame_length + u] } else { s2[u] }),
                decreases ltp_mem - t,
            {
                let v = s[frame_length + t];
                s.set(t, v);
                t += 1;
            }
        }
        assert(s@ =~= ltp_shifted(s2, ltp_mem as int, frame_length as int));
}

/// The history entering the subframes ([`legacy_history`]).
fn prepare_history(s: &mut Vec<i32>, ob: &[i16; 480], dec_ctrl: &SilkDecoderControl, ltp_mem: usize, frame_length: usize,
    order: usize, nb: usize, rewh: bool)
    requires
        order <= 16,
        ltp_mem <= 0x1000_0000,
        frame_length <= 320,
        rewh ==> frame_length <= ltp_mem && nb / 2 < 2,
    ensures
        final(s)@.len() >= ltp_mem + frame_length,
        final(s)@ == ({
            let s0 = ltp_grown(old(s)@, ltp_mem + frame_length);
            if rewh {
                let p0 = dec_ctrl.pitch_l@[0];
                let lag = (if p0 > 1 { p0 } else { 1 }) as usize as int;
                let start = sat_sub(ltp_mem as int, lag + order + 2);
                rw_run(s0, ob@, dec_ctrl.pred_coef_q12@[(nb / 2) as int]@, order as nat, ltp_mem as int, frame_length as int,
                    start, (ltp_mem - start) as nat)
            } else {
                s0
            }
        }),
{
    grow_history(s, ltp_mem + frame_length);
    if rewh {
        let p0 = dec_ctrl.pitch_l[0];
        let lag = (if p0 > 1 { p0 } else { 1 }) as usize;
        let start = usize_sat_sub(ltp_mem, lag + order + 2);
        rewhiten(s, ob, &dec_ctrl.pred_coef_q12[nb / 2], order, ltp_mem, frame_length, start);
    }
}

/// Grows the history with zeros to at least `n` entries.
fn grow_history(s: &mut Vec<i32>, n: usize)
    ensures
        final(s)@ == ltp_grown(old(s)@, n as int),
        final(s)@.len() >= n,
{
    let ghost s0 = s@;
    while s.len() < n
        invariant
            s0.len() <= s@.len(),
            forall|i: int| 0 <= i < s0.len() ==> #[trigger] s@[i] == s0[i],
            forall|i: int| s0.len() <= i < s@.len() ==> #[trigger] s@[i] == 0,
            s0.len() < n ==> s@.len() <= n,
            s0.len() >= n ==> s@ == s0,
        decreases n - s.len(),
    {
        s.push(0);
    }
    assert(s@ =~= ltp_grown(s0, n as int));
}

/// The frame synthesis on the parts of the state it changes.
#[verifier::spinoff_prover]
#[verifier::rlimit(50)]
fn core_parts(exc: &mut [i32; 320], s: &mut Vec<i32>, slpc: &mut [i32; 16], ob: &[i16; 480], dec_ctrl: &SilkDecoderControl,
    output: &mut [i16], pulses: &[i16], frame_length: usize, ltp_mem: usize, order: usize, nb: usize, sl: usize,
    seed: i32, offset_q10: i32, is_voiced: bool, rewh: bool)
    requires
        nb <= 4,
        sl <= 80,
        nb * sl == frame_length,
        frame_length <= 320,
        order <= 16,
        ltp_mem <= 0x1000_0000,
        0 <= offset_q10 <= 1000,
        rewh ==> frame_length <= ltp_mem && nb / 2 < 2,
        frame_length <= pulses@.len(),
        frame_length <= old(output)@.len(),
    ensures
        final(exc)@ == Seq::new(320, |i: int| if i < frame_length { exc_at(seed as int, pulses@, offset_q10 as int, i) as i32 } else { old(exc)@[i] }),
        ({
            let s0 = ltp_grown(old(s)@, ltp_mem + frame_length);
            let h = if rewh {
                let p0 = dec_ctrl.pitch_l@[0];
                let lag = (if p0 > 1 { p0 } else { 1 }) as usize as int;
                let start = sat_sub(ltp_mem as int, lag + order + 2);
                rw_run(s0, ob@, dec_ctrl.pred_coef_q12@[(nb / 2) as int]@, order as nat, ltp_mem as int, frame_length as int,
                    start, (ltp_mem - start) as nat)
            } else {
                s0
            };
            let f = core_fold(h, old(slpc)@, final(exc)@, *dec_ctrl, ltp_mem as int, sl as nat, order as nat, is_voiced, nb as nat);
            &&& final(s)@ == ltp_shifted(f.0, ltp_mem as int, frame_length as int)
            &&& final(slpc)@ == f.1
            &&& final(output)@.len() == old(output)@.len()
            &&& forall|i: int| 0 <= i < frame_length ==> #[trigger] final(output)@[i] == f.2[i]
            &&& forall|i: int| frame_length <= i < old(output)@.len() ==> #[trigger] final(output)@[i] == old(output)@[i]
        }),
{
    excitation(exc, pulses, frame_length, seed, offset_q10);
    let ghost e = exc@;
    assert(e =~= Seq::new(320, |i: int| if i < frame_length { exc_at(seed as int, pulses@, offset_q10 as int, i) as i32 } else { old(exc)@[i] }));
    prepare_history(s, ob, dec_ctrl, ltp_mem, frame_length, order, nb, rewh);
    let mut w = [0i32; 96];
    let mut t: usize = 0;
    while t < 16
        invariant
            t <= 16,
            forall|u: int| 0 <= u < t ==> #[trigger] w@[u] == slpc@[u],
        decreases 16 - t,
    {
        w[t] = slpc[t];
        t += 1;
    }
    assert(w@.subrange(0, 16) =~= slpc@);
    synth_subframes(s, exc, &mut w, dec_ctrl, output, ltp_mem, sl, nb, order, is_voiced);
    shift_history(s, ltp_mem, frame_length);
    let mut t: usize = 0;
    let ghost s1 = slpc@;
    while t < 16
        invariant
            t <= 16,
            forall|u: int| 0 <= u < 16 ==> #[trigger] slpc@[u] == (if u < t { w@[u] } else { s1[u] }),
        decreases 16 - t,
    {
        slpc[t] = w[t];
        t += 1;
    }
    assert(slpc@ =~= w@.subrange(0, 16));
}

impl SilkDecoder {
    /// Synthesizes one frame: the excitation from `pulses` ([`legacy_exc`]),
    /// then per subframe the long-term filter ([`ltp_run`], voiced frames
    /// with a positive lag) and the LPC filter scaled by the subframe gain
    /// ([`lpc_run`], [`core_out`]) into `output`; the history is grown and,
    /// after two voiced frames, re-whitened first ([`legacy_history`]), and
    /// moved down for the next frame afterwards ([`ltp_shifted`]).
    pub fn decode_core(&mut self, dec_ctrl: &SilkDecoderControl, output: &mut [i16], pulses: &[i16]) -> (r: Result<(), &'static str>)
        requires
            core_layout_ok(*old(self)),
            old(self).frame_length <= pulses@.len(),
            old(self).frame_length <= old(output)@.len(),
        ensures
            r is Ok,
            ({
                let d = *old(self);
                let (s, w, out) = legacy_frame(d, *dec_ctrl, pulses@);
                &&& final(self).exc_q14@ == legacy_exc(d, pulses@)
                &&& final(self).s_ltp_q15@ == ltp_shifted(s, d.ltp_mem_length as int, d.frame_length as int)
                &&& final(self).slpc_q14_buf@ == w
                &&& final(self).s_ltp_buf_idx == d.ltp_mem_length + d.frame_length
                &&& final(output)@.len() == old(output)@.len()
                &&& forall|i: int| 0 <= i < d.frame_length ==> #[trigger] final(output)@[i] == out[i]
                &&& forall|i: int| d.frame_length <= i < old(output)@.len() ==> #[trigger] final(output)@[i] == old(output)@[i]
                &&& *final(self) == (SilkDecoder {
                    exc_q14: final(self).exc_q14,
                    slpc_q14_buf: final(self).slpc_q14_buf,
                    s_ltp_q15: final(self).s_ltp_q15,
                    s_ltp_buf_idx: final(self).s_ltp_buf_idx,
                    ..d
                })
            }),
    {
        let st = self.indices.signal_type as usize;
        let offset_q10 = SILK_QUANTIZATION_OFFSETS_Q10[st / 2][self.indices.quant_offset_type as usize] as i32;
        let rewh = self.indices.signal_type == TYPE_VOICED && self.prev_signal_type == TYPE_VOICED;
        let is_voiced = self.indices.signal_type == TYPE_VOICED;
        let seed = self.indices.seed as i32;
        let frame_length = self.frame_length;
        let ltp_mem = self.ltp_mem_length;
        core_parts(&mut self.exc_q14, &mut self.s_ltp_q15, &mut self.slpc_q14_buf, &self.out_buf, dec_ctrl, output, pulses,
            frame_length, ltp_mem, self.lpc_order, self.nb_subfr, self.subfr_length, seed, offset_q10, is_voiced, rewh);
        self.s_ltp_buf_idx = ltp_mem + frame_length;
        Ok(())
    }
}

} // verus!
