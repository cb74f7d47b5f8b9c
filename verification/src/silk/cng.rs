//! Comfort noise generation: a smoothed estimate of the NLSFs and gain of
//! inactive frames, and noise synthesized from it when packets are lost.

use vstd::prelude::*;
use crate::arith::{clamp, hi16, wrap32};
use crate::silk::macros::{
    fx_shl32, fx_shr, fx_smulwb, fx_smulww, fx_sqrt_approx, silk_lshift, silk_rand, silk_rshift, silk_sat16, silk_smlawb,
    silk_smultt, silk_smulwb, silk_smulww, silk_sqrt_approx, silk_sub_lshift32,
};
use crate::silk::decode_core::{out_sample, rand_next};
use crate::silk::nlsf2a::{nlsf2a_fits, nlsf2a_result, silk_nlsf2a};
use crate::silk::plc::{conceal_lpc_synth, conceal_synth};
use crate::silk::structs::{
    SilkCngState, SilkDecoderControl, SilkDecoderState, CNG_GAIN_SMTH_Q16, CNG_GAIN_SMTH_THRESHOLD_Q16,
    CNG_NLSF_SMTH_Q16, CNG_RAND_SEED_INIT, TYPE_NO_VOICE_ACTIVITY,
};

verus! {

/// The evenly spaced NLSFs the comfort-noise estimate restarts from:
/// `(i + 1) * (32767 / (order + 1))` for the first `order` entries.
pub open spec fn cng_nlsf_reset(nlsf: Seq<i16>, order: int) -> Seq<i16> {
    Seq::new(nlsf.len(), |i: int| if i < order { ((i + 1) * (32767int / (order + 1))) as i16 } else { nlsf[i] })
}

/// Evenly spaced NLSFs for the current LPC order, zero
/// smoothed gain, and the initial noise seed; nothing else changes.
pub fn reset(dec: &mut SilkDecoderState)
    requires
        0 <= old(dec).lpc_order <= 16,
    ensures
        final(dec).s_cng.cng_smth_nlsf_q15@ == cng_nlsf_reset(old(dec).s_cng.cng_smth_nlsf_q15@, old(dec).lpc_order as int),
        *final(dec) == (SilkDecoderState {
            s_cng: SilkCngState {
                cng_smth_nlsf_q15: final(dec).s_cng.cng_smth_nlsf_q15,
                cng_smth_gain_q16: 0,
                rand_seed: CNG_RAND_SEED_INIT,
                ..old(dec).s_cng
            },
            ..*old(dec)
        }),
{
    let nlsf_step_q15 = 32767i32 / (dec.lpc_order + 1);
    let order = dec.lpc_order as usize;
    let ghost before = dec.s_cng.cng_smth_nlsf_q15@;
    let mut nlsf_acc_q15: i32 = 0;
    let mut i: usize = 0;
    while i < order
        invariant
            i <= order <= 16,
            order == old(dec).lpc_order,
            nlsf_step_q15 == 32767int / (order as int + 1),
            0 <= nlsf_step_q15 <= 32767,
            nlsf_acc_q15 == i * nlsf_step_q15,
            i * nlsf_step_q15 <= 32767,
            *dec == (SilkDecoderState {
                s_cng: SilkCngState { cng_smth_nlsf_q15: dec.s_cng.cng_smth_nlsf_q15, ..old(dec).s_cng },
                ..*old(dec)
            }),
            forall|j: int| 0 <= j < 16 ==> #[trigger] dec.s_cng.cng_smth_nlsf_q15@[j] == (if j < i {
                ((j + 1) * nlsf_step_q15) as i16
            } else {
                before[j]
            }),
        decreases order - i,
    {
        assert((i + 1) * nlsf_step_q15 <= 32767) by (nonlinear_arith)
            requires i < order, nlsf_step_q15 == 32767int / (order as int + 1), 0 <= nlsf_step_q15, order <= 16;
        assert((i + 1) * nlsf_step_q15 == i * nlsf_step_q15 + nlsf_step_q15) by (nonlinear_arith);
        nlsf_acc_q15 += nlsf_step_q15;
        dec.s_cng.cng_smth_nlsf_q15[i] = nlsf_acc_q15 as i16;
        i += 1;
    }
    dec.s_cng.cng_smth_gain_q16 = 0;
    dec.s_cng.rand_seed = CNG_RAND_SEED_INIT;
    assert(dec.s_cng.cng_smth_nlsf_q15@ =~= cng_nlsf_reset(before, order as int));
}


/// The smoothed NLSFs: each of the first `order` moves a quarter of the way
/// (in Q16) toward the last frame's NLSF, truncated to 16 bits.
pub open spec fn cng_smooth_nlsf(nl: Seq<i16>, prev: Seq<i16>, order: int) -> Seq<i16> {
    Seq::new(nl.len(), |i: int| if i < order {
        (nl[i] as int + fx_smulwb(prev[i] as int - nl[i] as int, CNG_NLSF_SMTH_Q16 as int)) as i16
    } else {
        nl[i]
    })
}

/// The largest of the first `k` subframe gains (0 if none is positive) and
/// the first subframe that has it.
pub open spec fn cng_loudest(gains: Seq<i32>, k: nat) -> (int, int)
    decreases k,
{
    if k == 0 {
        (0, 0)
    } else {
        let b = cng_loudest(gains, (k - 1) as nat);
        if gains[k - 1] > b.0 { (gains[k - 1] as int, k - 1) } else { b }
    }
}

/// The noise buffer after the update: the loudest subframe's excitation
/// first, then the older buffer moved up by one subframe.
pub open spec fn cng_shift_buf(buf: Seq<i32>, exc: Seq<i32>, subfr: int, sl: int, nb: int) -> Seq<i32> {
    Seq::new(buf.len(), |j: int| if j < sl {
        exc[subfr * sl + j]
    } else if j < nb * sl {
        buf[j - sl]
    } else {
        buf[j]
    })
}

/// One step of gain smoothing toward `gain`: a fixed fraction of the way,
/// but straight down to `gain` when the smoothed gain stays more than 3 dB
/// above it.
pub open spec fn cng_gain_step(g: int, gain: int) -> int {
    let n = wrap32(g + fx_smulwb(gain - g, CNG_GAIN_SMTH_Q16 as int));
    if fx_smulww(n, CNG_GAIN_SMTH_THRESHOLD_Q16 as int) > gain { gain } else { n }
}

/// The smoothed gain after the first `k` subframes.
pub open spec fn cng_gain_smooth(g: int, gains: Seq<i32>, k: nat) -> int
    decreases k,
{
    if k == 0 { g } else { cng_gain_step(cng_gain_smooth(g, gains, (k - 1) as nat), gains[k - 1] as int) }
}

/// A smoothing step from a non-negative gain toward a non-negative gain
/// stays between zero and the larger of the two.
proof fn lemma_cng_gain_step(g: int, gain: int)
    requires
        0 <= g <= i32::MAX,
        0 <= gain <= i32::MAX,
    ensures
        0 <= cng_gain_step(g, gain) <= (if g > gain { g } else { gain }),
        0 <= g + fx_smulwb(gain - g, CNG_GAIN_SMTH_Q16 as int) <= (if g > gain { g } else { gain }),
{
    let d = gain - g;
    crate::arith::lemma_wrap16_small(CNG_GAIN_SMTH_Q16 as int);
    let t = d * 4634;
    if d >= 0 {
        assert(0 <= t <= 0x1_0000 * d) by (nonlinear_arith) requires d >= 0, t == d * 4634;
        vstd::arithmetic::div_mod::lemma_div_is_ordered(0, t, 0x1_0000);
        vstd::arithmetic::div_mod::lemma_div_is_ordered(t, 0x1_0000 * d, 0x1_0000);
        vstd::arithmetic::div_mod::lemma_div_multiples_vanish(d, 0x1_0000);
    } else {
        assert(0x1_0000 * d <= t <= 0) by (nonlinear_arith) requires d < 0, t == d * 4634;
        vstd::arithmetic::div_mod::lemma_div_is_ordered(t, 0, 0x1_0000);
        vstd::arithmetic::div_mod::lemma_div_is_ordered(0x1_0000 * d, t, 0x1_0000);
        vstd::arithmetic::div_mod::lemma_div_multiples_vanish(d, 0x1_0000);
    }
    crate::arith::lemma_wrap_id(g + t / 0x1_0000, 0x8000_0000);
}

/// The update of the comfort-noise estimate after an inactive good frame:
/// the NLSFs are smoothed ([`cng_smooth_nlsf`]), the loudest subframe's
/// excitation enters the noise buffer ([`cng_shift_buf`]) and the gain is
/// smoothed over the subframes ([`cng_gain_smooth`]).
fn cng_update(dec: &mut SilkDecoderState, ctrl: &SilkDecoderControl)
    requires
        0 <= old(dec).lpc_order <= 16,
        1 <= old(dec).nb_subfr <= 4,
        0 <= old(dec).subfr_length,
        old(dec).nb_subfr * old(dec).subfr_length <= 320,
        old(dec).s_cng.cng_smth_gain_q16 >= 0,
        forall|i: int| 0 <= i < old(dec).nb_subfr ==> #[trigger] ctrl.gains_q16@[i] >= 0,
    ensures
        final(dec).s_cng.cng_smth_nlsf_q15@ == cng_smooth_nlsf(old(dec).s_cng.cng_smth_nlsf_q15@, old(dec).prev_nlsf_q15@, old(dec).lpc_order as int),
        final(dec).s_cng.cng_exc_buf_q14@ == cng_shift_buf(old(dec).s_cng.cng_exc_buf_q14@, old(dec).exc_q14@,
            cng_loudest(ctrl.gains_q16@, old(dec).nb_subfr as nat).1, old(dec).subfr_length as int, old(dec).nb_subfr as int),
        final(dec).s_cng.cng_smth_gain_q16 == cng_gain_smooth(old(dec).s_cng.cng_smth_gain_q16 as int, ctrl.gains_q16@, old(dec).nb_subfr as nat),
        final(dec).s_cng.cng_smth_gain_q16 >= 0,
        *final(dec) == (SilkDecoderState {
            s_cng: SilkCngState {
                cng_smth_nlsf_q15: final(dec).s_cng.cng_smth_nlsf_q15,
                cng_exc_buf_q14: final(dec).s_cng.cng_exc_buf_q14,
                cng_smth_gain_q16: final(dec).s_cng.cng_smth_gain_q16,
                ..old(dec).s_cng
            },
            ..*old(dec)
        }),
{
    let ghost d0 = *dec;
    let order = dec.lpc_order as usize;
    let mut i: usize = 0;
    while i < order
        invariant
            i <= order <= 16,
            order == d0.lpc_order,
            *dec == (SilkDecoderState { s_cng: SilkCngState { cng_smth_nlsf_q15: dec.s_cng.cng_smth_nlsf_q15, ..d0.s_cng }, ..d0 }),
            forall|j: int| 0 <= j < 16 ==> #[trigger] dec.s_cng.cng_smth_nlsf_q15@[j]
                == (if j < i { cng_smooth_nlsf(d0.s_cng.cng_smth_nlsf_q15@, d0.prev_nlsf_q15@, order as int)[j] } else { d0.s_cng.cng_smth_nlsf_q15@[j] }),
        decreases order - i,
    {
        let delta = dec.prev_nlsf_q15[i] as i32 - dec.s_cng.cng_smth_nlsf_q15[i] as i32;
        let v = silk_smulwb(delta, CNG_NLSF_SMTH_Q16);
        proof {
            crate::arith::lemma_wrap16_small(CNG_NLSF_SMTH_Q16 as int);
            assert(-65535 * 16348 <= delta * 16348 <= 65535 * 16348) by (nonlinear_arith) requires -65535 <= delta <= 65535;
            vstd::arithmetic::div_mod::lemma_div_is_ordered(-65535int * 16348, delta * 16348, 0x1_0000);
            vstd::arithmetic::div_mod::lemma_div_is_ordered(delta * 16348, 65535int * 16348, 0x1_0000);
        }
        dec.s_cng.cng_smth_nlsf_q15[i] = (dec.s_cng.cng_smth_nlsf_q15[i] as i32 + v) as i16;
        i += 1;
    }
    assert(dec.s_cng.cng_smth_nlsf_q15@ =~= cng_smooth_nlsf(d0.s_cng.cng_smth_nlsf_q15@, d0.prev_nlsf_q15@, order as int));
    let ghost d1 = *dec;

    let nb_subfr = dec.nb_subfr as usize;
    let subfr_length = dec.subfr_length as usize;
    let mut max_gain_q16: i32 = 0;
    let mut subfr: usize = 0;
    let mut k: usize = 0;
    while k < nb_subfr
        invariant
            k <= nb_subfr <= 4,
            (max_gain_q16 as int, subfr as int) == cng_loudest(ctrl.gains_q16@, k as nat),
            subfr < nb_subfr,
        decreases nb_subfr - k,
    {
        if ctrl.gains_q16[k] > max_gain_q16 {
            max_gain_q16 = ctrl.gains_q16[k];
            subfr = k;
        }
        k += 1;
    }
    assert(subfr * subfr_length + subfr_length <= nb_subfr * subfr_length) by (nonlinear_arith)
        requires subfr < nb_subfr, subfr_length >= 0;
    assert((nb_subfr - 1) * subfr_length <= nb_subfr * subfr_length) by (nonlinear_arith)
        requires nb_subfr >= 1, subfr_length >= 0;
    let moved = (nb_subfr - 1) * subfr_length;
    assert(moved + subfr_length == nb_subfr * subfr_length) by (nonlinear_arith) requires moved == (nb_subfr - 1) * subfr_length, nb_subfr >= 1;
    let mut t: usize = moved;
    while t > 0
        invariant
            t <= moved,
            moved + subfr_length <= 320,
            *dec == (SilkDecoderState { s_cng: SilkCngState { cng_exc_buf_q14: dec.s_cng.cng_exc_buf_q14, ..d1.s_cng }, ..d1 }),
            forall|j: int| 0 <= j < 320 ==> #[trigger] dec.s_cng.cng_exc_buf_q14@[j]
                == (if subfr_length + t <= j < subfr_length + moved { d1.s_cng.cng_exc_buf_q14@[j - subfr_length] } else { d1.s_cng.cng_exc_buf_q14@[j] }),
        decreases t,
    {
        t -= 1;
        dec.s_cng.cng_exc_buf_q14[subfr_length + t] = dec.s_cng.cng_exc_buf_q14[t];
    }
    let src_start = subfr * subfr_length;
    let mut j: usize = 0;
    while j < subfr_length
        invariant
            j <= subfr_length,
            moved + subfr_length <= 320,
            src_start + subfr_length <= 320,
            *dec == (SilkDecoderState { s_cng: SilkCngState { cng_exc_buf_q14: dec.s_cng.cng_exc_buf_q14, ..d1.s_cng }, ..d1 }),
            forall|u: int| 0 <= u < 320 ==> #[trigger] dec.s_cng.cng_exc_buf_q14@[u]
                == (if u < j { d1.exc_q14@[src_start + u] } else if subfr_length <= u < subfr_length + moved { d1.s_cng.cng_exc_buf_q14@[u - subfr_length] } else { d1.s_cng.cng_exc_buf_q14@[u] }),
        decreases subfr_length - j,
    {
        dec.s_cng.cng_exc_buf_q14[j] = dec.exc_q14[src_start + j];
        j += 1;
    }
    assert(dec.s_cng.cng_exc_buf_q14@ =~= cng_shift_buf(d1.s_cng.cng_exc_buf_q14@, d1.exc_q14@, subfr as int, subfr_length as int, nb_subfr as int));
    let ghost d2 = *dec;

    let mut k: usize = 0;
    while k < nb_subfr
        invariant
            k <= nb_subfr <= 4,
            nb_subfr == d0.nb_subfr,
            forall|i: int| 0 <= i < nb_subfr ==> #[trigger] ctrl.gains_q16@[i] >= 0,
            dec.s_cng.cng_smth_gain_q16 >= 0,
            dec.s_cng.cng_smth_gain_q16 == cng_gain_smooth(d0.s_cng.cng_smth_gain_q16 as int, ctrl.gains_q16@, k as nat),
            *dec == (SilkDecoderState { s_cng: SilkCngState { cng_smth_gain_q16: dec.s_cng.cng_smth_gain_q16, ..d2.s_cng }, ..d2 }),
        decreases nb_subfr - k,
    {
        let g = dec.s_cng.cng_smth_gain_q16;
        let gain = ctrl.gains_q16[k];
        proof { lemma_cng_gain_step(g as int, gain as int); }
        let n = silk_smlawb(g, gain - g, CNG_GAIN_SMTH_Q16);
        dec.s_cng.cng_smth_gain_q16 = n;
        if silk_smulww(n, CNG_GAIN_SMTH_THRESHOLD_Q16) > gain {
            dec.s_cng.cng_smth_gain_q16 = gain;
        }
        k += 1;
    }
}


/// The ring-buffer mask for `len` noise samples: starting from `m`, halved
/// while it exceeds `len`.
pub open spec fn cng_mask(m: int, len: int) -> int
    decreases m,
{
    if m > len && m > 0 { cng_mask(m / 2, len) } else { m }
}

/// The noise generator after `k` steps from `s`.
pub open spec fn cng_seed(s: int, k: nat) -> int
    decreases k,
{
    if k == 0 { s } else { rand_next(cng_seed(s, (k - 1) as nat)) }
}

/// Noise sample `i`: the buffer entry picked by the top byte of the
/// generator after `i + 1` steps, masked.
pub open spec fn cng_pick(buf: Seq<i32>, seed: int, mask: int, i: int) -> i32 {
    buf[((fx_shr(cng_seed(seed, (i + 1) as nat), 24) as i32) & (mask as i32)) as int]
}

/// The gain (Q10) of the comfort noise: the square root of the smoothed
/// noise energy less the concealment's own noise energy.
pub open spec fn cng_noise_gain(d: SilkDecoderState) -> int {
    let g = fx_smulww(d.s_plc.rand_scale_q14 as int, d.s_plc.prev_gain_q16@[1] as int);
    let sm = d.s_cng.cng_smth_gain_q16;
    let q16 = if g >= 0x20_0000 || sm > 0x80_0000 {
        let t = wrap32(hi16(sm) * hi16(sm) - hi16(g as i32) * hi16(g as i32) * 32);
        fx_shl32(fx_sqrt_approx(t as i32), 16)
    } else {
        let t = wrap32(fx_smulww(sm as int, sm as int) - fx_smulww(g, g) * 32);
        fx_shl32(fx_sqrt_approx(t as i32), 8)
    };
    fx_shr(q16, 6)
}

/// The synthesis buffer before filtering: the filter state, then `len`
/// noise samples, then zeros.
pub open spec fn cng_sig0(d: SilkDecoderState, len: int) -> Seq<i32> {
    let mask = cng_mask(255, len);
    Seq::new(640, |j: int| if j < 16 {
        d.s_cng.cng_synth_state@[j]
    } else if j < 16 + len {
        cng_pick(d.s_cng.cng_exc_buf_q14@, d.s_cng.rand_seed as int, mask, j - 16)
    } else {
        0i32
    })
}

/// The filtered comfort noise: the noise through the LPC filter of the
/// smoothed NLSFs ([`conceal_synth`]).
pub open spec fn cng_synth(d: SilkDecoderState, len: int) -> Seq<i32> {
    let order = d.lpc_order as int;
    conceal_synth(cng_sig0(d, len), 16, nlsf2a_result(d.s_cng.cng_smth_nlsf_q15@, order, Seq::new(16, |i: int| 0i16)),
        order, len as nat)
}

/// The requirements of noise synthesis: an LPC order of 10 or 16, a frame of
/// at most 320 samples, and smoothed NLSFs the LPC conversion accepts.
pub open spec fn cng_noise_ready(d: SilkDecoderState, len: int) -> bool {
    &&& d.lpc_order == 10 || d.lpc_order == 16
    &&& 0 <= len <= 320
    &&& forall|k: int| 0 <= k < d.lpc_order ==> d.s_cng.cng_smth_nlsf_q15@[k] >= 0
    &&& nlsf2a_fits(d.s_cng.cng_smth_nlsf_q15@, d.lpc_order as int)
}

/// Bitwise and with a non-negative mask stays within `0..=mask`.
proof fn lemma_and_mask(a: i32, m: i32)
    by (bit_vector)
    requires
        0 <= m,
    ensures
        0 <= a & m <= m,
{
}

/// The gain of the comfort noise ([`cng_noise_gain`]).
fn noise_gain(dec: &SilkDecoderState) -> (r: i32)
    ensures
        r == cng_noise_gain(*dec),
{
    let ghost d0 = *dec;
    proof { vstd::arithmetic::power2::lemma2_to64(); }
    let mut g = silk_smulww(dec.s_plc.rand_scale_q14 as i32, dec.s_plc.prev_gain_q16[1]);
    let sm = dec.s_cng.cng_smth_gain_q16;
    if g >= 0x20_0000 || sm > 0x80_0000 {
        g = silk_smultt(g, g);
        g = silk_sub_lshift32(silk_smultt(sm, sm), g, 5);
        g = silk_lshift(silk_sqrt_approx(g), 16);
    } else {
        g = silk_smulww(g, g);
        g = silk_sub_lshift32(silk_smulww(sm, sm), g, 5);
        g = silk_lshift(silk_sqrt_approx(g), 8);
    }
    let gain_q10 = silk_rshift(g, 6);

    gain_q10
}

/// The synthesis buffer of the noise ([`cng_sig0`]) and the generator after it.
fn noise_excitation(dec: &SilkDecoderState, length: usize) -> (r: ([i32; 640], i32))
    requires
        length <= 320,
    ensures
        r.0@ == cng_sig0(*dec, length as int),
        r.1 == cng_seed(dec.s_cng.rand_seed as int, length as nat),
{
    let ghost d0 = *dec;
    proof { vstd::arithmetic::power2::lemma2_to64(); }
    let mut exc_mask: i32 = 255;
    while exc_mask > length as i32
        invariant
            0 <= exc_mask <= 255,
            length <= 320,
            cng_mask(exc_mask as int, length as int) == cng_mask(255, length as int),
        decreases exc_mask,
    {
        proof { vstd::arithmetic::power2::lemma2_to64(); }
        exc_mask = silk_rshift(exc_mask, 1);
    }
    let mut sig = [0i32; 640];
    let mut j: usize = 0;
    while j < 16
        invariant
            j <= 16,
            forall|u: int| 0 <= u < 640 ==> #[trigger] sig@[u] == (if u < j { d0.s_cng.cng_synth_state@[u] } else { 0i32 }),
            *dec == d0,
        decreases 16 - j,
    {
        sig[j] = dec.s_cng.cng_synth_state[j];
        j += 1;
    }
    let mut seed = dec.s_cng.rand_seed;
    let mut i: usize = 0;
    while i < length
        invariant
            i <= length <= 320,
            *dec == d0,
            0 <= exc_mask <= 255,
            exc_mask == cng_mask(255, length as int),
            seed == cng_seed(d0.s_cng.rand_seed as int, i as nat),
            forall|u: int| 0 <= u < 640 ==> #[trigger] sig@[u] == (if u < 16 {
                d0.s_cng.cng_synth_state@[u]
            } else if u < 16 + i {
                cng_pick(d0.s_cng.cng_exc_buf_q14@, d0.s_cng.rand_seed as int, exc_mask as int, u - 16)
            } else {
                0i32
            }),
        decreases length - i,
    {
        seed = silk_rand(seed);
        let hi = silk_rshift(seed, 24);
        proof { lemma_and_mask(hi, exc_mask); }
        let idx = (hi & exc_mask) as usize;
        sig[16 + i] = dec.s_cng.cng_exc_buf_q14[idx];
        i += 1;
    }
    assert(sig@ =~= cng_sig0(d0, length as int));
    (sig, seed)
}

/// Adds comfort noise to `frame[..length]` ([`cng_synth`], [`cng_noise_gain`])
/// and keeps the filter state and the generator.
fn cng_noise(dec: &mut SilkDecoderState, frame: &mut [i16], length: usize)
    requires
        cng_noise_ready(*old(dec), length as int),
        length <= old(frame)@.len(),
    ensures
        final(frame)@.len() == old(frame)@.len(),
        forall|i: int| 0 <= i < length ==> #[trigger] final(frame)@[i] == clamp(old(frame)@[i] as int
            + out_sample(cng_synth(*old(dec), length as int)[16 + i] as int, cng_noise_gain(*old(dec))) as int, -0x8000, 0x7fff),
        forall|i: int| length <= i < old(frame)@.len() ==> #[trigger] final(frame)@[i] == old(frame)@[i],
        final(dec).s_cng.cng_synth_state@ == cng_synth(*old(dec), length as int).subrange(length as int, length + 16),
        *final(dec) == (SilkDecoderState {
            s_cng: SilkCngState {
                cng_synth_state: final(dec).s_cng.cng_synth_state,
                rand_seed: cng_seed(old(dec).s_cng.rand_seed as int, length as nat) as i32,
                ..old(dec).s_cng
            },
            ..*old(dec)
        }),
{
    let ghost d0 = *dec;
    let gain_q10 = noise_gain(dec);
    let (mut sig, seed) = noise_excitation(dec, length);
    dec.s_cng.rand_seed = seed;

    let order = dec.lpc_order as usize;
    let mut a_q12 = [0i16; 16];
    assert(a_q12@ =~= Seq::new(16, |i: int| 0i16));
    silk_nlsf2a(&mut a_q12, &dec.s_cng.cng_smth_nlsf_q15, order);
    let mut tmp = [0i16; 320];
    conceal_lpc_synth(&mut sig, 16, &a_q12, order, length, gain_q10, &mut tmp);
    let ghost f0 = frame@;
    let mut i: usize = 0;
    while i < length
        invariant
            i <= length <= 320,
            length <= f0.len(),
            frame@.len() == f0.len(),
            forall|k: int| 0 <= k < length ==> #[trigger] tmp@[k] == out_sample(sig@[16 + k] as int, gain_q10 as int),
            forall|k: int| 0 <= k < i ==> #[trigger] frame@[k] == clamp(f0[k] as int + out_sample(sig@[16 + k] as int, gain_q10 as int) as int, -0x8000, 0x7fff),
            forall|k: int| i <= k < f0.len() ==> #[trigger] frame@[k] == f0[k],
        decreases length - i,
    {
        frame[i] = silk_sat16(frame[i] as i32 + tmp[i] as i32) as i16;
        i += 1;
    }
    let mut j: usize = 0;
    while j < 16
        invariant
            j <= 16,
            length <= 320,
            forall|u: int| 0 <= u < 16 ==> #[trigger] dec.s_cng.cng_synth_state@[u] == (if u < j { sig@[length + u] } else { d0.s_cng.cng_synth_state@[u] }),
            *dec == (SilkDecoderState { s_cng: SilkCngState { cng_synth_state: dec.s_cng.cng_synth_state, rand_seed: seed, ..d0.s_cng }, ..d0 }),
        decreases 16 - j,
    {
        dec.s_cng.cng_synth_state[j] = sig[length + j];
        j += 1;
    }
    assert(dec.s_cng.cng_synth_state@ =~= cng_synth(d0, length as int).subrange(length as int, length + 16));
}


/// The 16 NLSFs held by an array of that length.
pub open spec fn nlsf_array(s: Seq<i16>) -> [i16; 16] {
    choose|a: [i16; 16]| a@ == s
}

/// The state comfort noise starts from: after [`reset`] with the new rate
/// recorded when the decoder's rate differs from the one the estimate was
/// made at; otherwise the state itself.
pub open spec fn cng_entry(d: SilkDecoderState) -> SilkDecoderState {
    if d.fs_khz != d.s_cng.fs_khz {
        SilkDecoderState {
            s_cng: SilkCngState {
                cng_smth_nlsf_q15: nlsf_array(cng_nlsf_reset(d.s_cng.cng_smth_nlsf_q15@, d.lpc_order as int)),
                cng_smth_gain_q16: 0,
                rand_seed: CNG_RAND_SEED_INIT,
                fs_khz: d.fs_khz,
                ..d.s_cng
            },
            ..d
        }
    } else {
        d
    }
}

/// Comfort noise for one frame. The estimate is first restarted on a change
/// of rate ([`cng_entry`]). After a good inactive frame the estimate is
/// updated ([`cng_update`]); when frames are being lost, noise shaped by the
/// estimate is added to `frame[..length]` ([`cng_synth`], [`cng_noise_gain`]);
/// otherwise the first `lpc_order` entries of the noise filter state are
/// cleared.
pub fn silk_cng(dec: &mut SilkDecoderState, ctrl: &SilkDecoderControl, frame: &mut [i16], length: usize)
    requires
        0 <= old(dec).lpc_order <= 16,
        (old(dec).loss_cnt == 0 && old(dec).prev_signal_type == TYPE_NO_VOICE_ACTIVITY) ==> {
            &&& 1 <= old(dec).nb_subfr <= 4
            &&& 0 <= old(dec).subfr_length
            &&& old(dec).nb_subfr * old(dec).subfr_length <= 320
            &&& cng_entry(*old(dec)).s_cng.cng_smth_gain_q16 >= 0
            &&& forall|i: int| 0 <= i < old(dec).nb_subfr ==> #[trigger] ctrl.gains_q16@[i] >= 0
        },
        old(dec).loss_cnt != 0 ==> cng_noise_ready(cng_entry(*old(dec)), length as int),
        old(dec).loss_cnt != 0 ==> length <= old(frame)@.len(),
    ensures
        ({
            let e = cng_entry(*old(dec));
            let upd = old(dec).loss_cnt == 0 && old(dec).prev_signal_type == TYPE_NO_VOICE_ACTIVITY;
            let lost = old(dec).loss_cnt != 0;
            &&& *final(dec) == (SilkDecoderState { s_cng: final(dec).s_cng, ..*old(dec) })
            &&& final(dec).s_cng.fs_khz == old(dec).fs_khz
            &&& final(dec).s_cng.cng_smth_nlsf_q15@ == (if upd {
                cng_smooth_nlsf(e.s_cng.cng_smth_nlsf_q15@, e.prev_nlsf_q15@, e.lpc_order as int)
            } else {
                e.s_cng.cng_smth_nlsf_q15@
            })
            &&& final(dec).s_cng.cng_exc_buf_q14@ == (if upd {
                cng_shift_buf(e.s_cng.cng_exc_buf_q14@, e.exc_q14@, cng_loudest(ctrl.gains_q16@, e.nb_subfr as nat).1,
                    e.subfr_length as int, e.nb_subfr as int)
            } else {
                e.s_cng.cng_exc_buf_q14@
            })
            &&& final(dec).s_cng.cng_smth_gain_q16 == (if upd {
                cng_gain_smooth(e.s_cng.cng_smth_gain_q16 as int, ctrl.gains_q16@, e.nb_subfr as nat)
            } else {
                e.s_cng.cng_smth_gain_q16 as int
            })
            &&& final(dec).s_cng.rand_seed == (if lost { cng_seed(e.s_cng.rand_seed as int, length as nat) } else { e.s_cng.rand_seed as int })
            &&& final(dec).s_cng.cng_synth_state@ == (if lost {
                cng_synth(e, length as int).subrange(length as int, length + 16)
            } else {
                Seq::new(16, |i: int| if i < e.lpc_order { 0i32 } else { e.s_cng.cng_synth_state@[i] })
            })
            &&& final(frame)@.len() == old(frame)@.len()
            &&& lost ==> forall|i: int| 0 <= i < length ==> #[trigger] final(frame)@[i] == clamp(old(frame)@[i] as int
                + out_sample(cng_synth(e, length as int)[16 + i] as int, cng_noise_gain(e)) as int, -0x8000, 0x7fff)
            &&& lost ==> forall|i: int| length <= i < old(frame)@.len() ==> #[trigger] final(frame)@[i] == old(frame)@[i]
            &&& !lost ==> final(frame)@ == old(frame)@
        }),
{
    if dec.fs_khz != dec.s_cng.fs_khz {
        reset(dec);
        dec.s_cng.fs_khz = dec.fs_khz;
        proof {
            let t = cng_nlsf_reset(old(dec).s_cng.cng_smth_nlsf_q15@, old(dec).lpc_order as int);
            assert(dec.s_cng.cng_smth_nlsf_q15@ == t);
            assert(exists|a: [i16; 16]| a@ == t);
            assert(nlsf_array(t) =~= dec.s_cng.cng_smth_nlsf_q15);
        }
    }
    assert(*dec == cng_entry(*old(dec)));
    let ghost e = *dec;
    if dec.loss_cnt == 0 && dec.prev_signal_type == TYPE_NO_VOICE_ACTIVITY {
        cng_update(dec, ctrl);
    }
    if dec.loss_cnt != 0 {
        cng_noise(dec, frame, length);
    } else {
        let order = dec.lpc_order as usize;
        let ghost d1 = *dec;
        let mut i: usize = 0;
        while i < order
            invariant
                i <= order <= 16,
                order == d1.lpc_order,
                forall|u: int| 0 <= u < 16 ==> #[trigger] dec.s_cng.cng_synth_state@[u] == (if u < i { 0i32 } else { d1.s_cng.cng_synth_state@[u] }),
                *dec == (SilkDecoderState { s_cng: SilkCngState { cng_synth_state: dec.s_cng.cng_synth_state, ..d1.s_cng }, ..d1 }),
            decreases order - i,
        {
            dec.s_cng.cng_synth_state[i] = 0;
            i += 1;
        }
        assert(dec.s_cng.cng_synth_state@ =~= Seq::new(16, |u: int| if u < e.lpc_order { 0i32 } else { e.s_cng.cng_synth_state@[u] }));
    }
}

} // verus!
