//! Packet loss concealment: on a lost frame, extrapolates the excitation
//! through the last known long- and short-term filters with decaying gains; on
//! a good frame, records the parameters for later concealment and smooths the
//! transition out of a concealed stretch.

use vstd::prelude::*;
use crate::arith::{clamp, lo16, wrap16, wrap32};
use crate::silk::bwexpander::{bw_chirp, lemma_unit_range_chirp_fits, silk_bwexpander};
use crate::silk::lpc_inv_pred_gain::{coefs_qa, dc_response, inv_gain_rec, silk_lpc_inverse_pred_gain, ONE_Q30};
use crate::silk::macros::{
    rotr32, fx_sqrt_approx, fx_frac_q7, silk_sqrt_approx, silk_clz32, fx_clz32, fx_div32, fx_rshift_round, fx_shl32, fx_shr, fx_smulwb, fx_smulww, silk_div32, silk_lshift, silk_max,
    silk_min, silk_rshift, silk_sat16, silk_smulbb, silk_smulwb, silk_smulww,
};
use crate::silk::decode_core::rewhite_window;
use crate::silk::lpc_analysis_filter::{lpc_residual, silk_lpc_analysis_filter};
use crate::silk::macros::{fx_inverse32_varq, silk_inverse32_varq, silk_lshift_sat32, silk_add_sat32, silk_rand, silk_rshift_round, silk_smlawb, SILK_INT32_MAX, SILK_INT32_MIN};
use crate::silk::decode_core::{lpc_acc, out_sample, rand_next, shl4_sat};
use crate::silk::sum_sqr_shift::{energy_pairs, energy_pass, final_shift, pair_energy, silk_sum_sqr_shift};
use vstd::arithmetic::power2::pow2;
use crate::silk::structs::{SilkDecoderControl, SilkDecoderState, SilkPlcState, TYPE_VOICED};

verus! {

/// Pitch lag half a frame (Q8), unit gains, and two
/// subframes of 20 samples; nothing else changes.
pub fn reset(dec: &mut SilkDecoderState)
    ensures
        final(dec).s_plc.prev_gain_q16@ == seq![65536i32, 65536i32],
        *final(dec) == (SilkDecoderState {
            s_plc: SilkPlcState {
                pitch_l_q8: fx_shl32(old(dec).frame_length as int, 7) as i32,
                prev_gain_q16: final(dec).s_plc.prev_gain_q16,
                subfr_length: 20,
                nb_subfr: 2,
                ..old(dec).s_plc
            },
            ..*old(dec)
        }),
{
    dec.s_plc.pitch_l_q8 = silk_lshift(dec.frame_length, 8 - 1);
    dec.s_plc.prev_gain_q16[0] = 65536;
    dec.s_plc.prev_gain_q16[1] = 65536;
    dec.s_plc.subfr_length = 20;
    dec.s_plc.nb_subfr = 2;
    assert(dec.s_plc.prev_gain_q16@ =~= seq![65536i32, 65536i32]);
}

/// The smallest LTP gain concealment starts from.
pub const V_PITCH_GAIN_START_MIN_Q14: i32 = 11469;
/// The largest LTP gain concealment starts from.
pub const V_PITCH_GAIN_START_MAX_Q14: i32 = 15565;

/// The sum of the five LTP taps starting at `base`.
pub open spec fn ltp_tap_sum(c: Seq<i16>, base: int) -> int {
    c[base] as int + c[base + 1] as int + c[base + 2] as int + c[base + 3] as int + c[base + 4] as int
}

/// The search, from subframe `nb - 1 - j` backward while `j` subframes do not
/// yet cover the last pitch lag, for the subframe with the largest LTP gain:
/// the gain (Q14) and that subframe's pitch lag in Q8.
pub open spec fn ltp_search(ltp: Seq<i16>, pitch: Seq<i32>, nb: int, sl: int, j: int, gain: int, pq8: int) -> (int, int)
    decreases nb - j,
{
    if j >= nb || j * sl >= pitch[nb - 1] {
        (gain, pq8)
    } else {
        let t = ltp_tap_sum(ltp, (nb - 1 - j) * 5);
        if t > gain {
            ltp_search(ltp, pitch, nb, sl, j + 1, t, fx_shl32(pitch[nb - 1 - j] as int, 8))
        } else {
            ltp_search(ltp, pitch, nb, sl, j + 1, gain, pq8)
        }
    }
}

/// The middle LTP tap kept for concealment: the gain (truncated to 16 bits),
/// scaled up to at least [`V_PITCH_GAIN_START_MIN_Q14`] or down to at most
/// [`V_PITCH_GAIN_START_MAX_Q14`].
pub open spec fn plc_mid_tap(g: int) -> i16 {
    let c = wrap16(g) as i32;
    if g < V_PITCH_GAIN_START_MIN_Q14 {
        let scale = fx_div32(V_PITCH_GAIN_START_MIN_Q14 * 1024, if g > 1 { g } else { 1 });
        fx_shr(lo16(c) * lo16(scale as i32), 10) as i16
    } else if g > V_PITCH_GAIN_START_MAX_Q14 {
        let scale = fx_div32(V_PITCH_GAIN_START_MAX_Q14 * 16384, if g > 1 { g } else { 1 });
        fx_shr(lo16(c) * lo16(scale as i32), 14) as i16
    } else {
        c as i16
    }
}

/// The gain and pitch lag (Q8) concealment keeps from a good frame: for a
/// voiced frame the [`ltp_search`], otherwise no gain and a lag of 18 ms.
pub open spec fn plc_params(dec: SilkDecoderState, ctrl: SilkDecoderControl) -> (int, int) {
    if dec.indices.signal_type == 2 {
        ltp_search(ctrl.ltp_coef_q14@, ctrl.pitch_l@, dec.nb_subfr as int, dec.subfr_length as int, 0, 0, dec.s_plc.pitch_l_q8 as int)
    } else {
        (0, fx_shl32(lo16(dec.fs_khz) * 18, 8))
    }
}

/// A candidate lag or gain found by the search is an earlier value or one of the candidates.
proof fn lemma_ltp_search_step(ltp: Seq<i16>, pitch: Seq<i32>, nb: int, sl: int, j: int, gain: int, pq8: int)
    requires
        0 <= j < nb,
        j * sl < pitch[nb - 1],
    ensures
        ({
            let t = ltp_tap_sum(ltp, (nb - 1 - j) * 5);
            ltp_search(ltp, pitch, nb, sl, j, gain, pq8) == (if t > gain {
                ltp_search(ltp, pitch, nb, sl, j + 1, t, fx_shl32(pitch[nb - 1 - j] as int, 8))
            } else {
                ltp_search(ltp, pitch, nb, sl, j + 1, gain, pq8)
            })
        }),
{
}

/// After a good frame, records for concealment the
/// signal type, the largest LTP gain of the subframes covering the last pitch
/// lag with that subframe's lag (voiced frames; see [`plc_params`]) as the
/// middle tap of an otherwise zero LTP filter ([`plc_mid_tap`]), the second
/// half's LPC coefficients, the LTP scale, the last two gains and the frame layout.
pub fn plc_update(dec: &mut SilkDecoderState, ctrl: &mut SilkDecoderControl)
    requires
        2 <= old(dec).nb_subfr <= 4,
        0 <= old(dec).lpc_order <= 16,
        -0x1000_0000 <= old(dec).subfr_length < 0x1000_0000,
    ensures
        *final(ctrl) == *old(ctrl),
        final(dec).s_plc.ltp_coef_q14@ == seq![0i16, 0i16, plc_mid_tap(plc_params(*old(dec), *old(ctrl)).0), 0i16, 0i16],
        final(dec).s_plc.prev_lpc_q12@ == Seq::new(16, |i: int| if i < old(dec).lpc_order {
            old(ctrl).pred_coef_q12@[1]@[i]
        } else {
            old(dec).s_plc.prev_lpc_q12@[i]
        }),
        final(dec).s_plc.prev_gain_q16@ == seq![
            old(ctrl).gains_q16@[old(dec).nb_subfr - 2],
            old(ctrl).gains_q16@[old(dec).nb_subfr - 1]
        ],
        *final(dec) == (SilkDecoderState {
            prev_signal_type: old(dec).indices.signal_type as i32,
            s_plc: SilkPlcState {
                pitch_l_q8: plc_params(*old(dec), *old(ctrl)).1 as i32,
                ltp_coef_q14: final(dec).s_plc.ltp_coef_q14,
                prev_lpc_q12: final(dec).s_plc.prev_lpc_q12,
                prev_ltp_scale_q14: old(ctrl).ltp_scale_q14 as i16,
                prev_gain_q16: final(dec).s_plc.prev_gain_q16,
                subfr_length: old(dec).subfr_length,
                nb_subfr: old(dec).nb_subfr,
                ..old(dec).s_plc
            },
            ..*old(dec)
        }),
{
    let ghost d0 = *dec;
    let ghost c0 = *ctrl;
    let nb_subfr = dec.nb_subfr as usize;
    dec.prev_signal_type = dec.indices.signal_type as i32;
    let mut ltp_gain_q14: i32 = 0;
    if dec.indices.signal_type == 2i8 {
        let mut j: usize = 0;
        loop
            invariant
                j <= nb_subfr,
                nb_subfr == d0.nb_subfr,
                2 <= nb_subfr <= 4,
                -0x1000_0000 <= dec.subfr_length < 0x1000_0000,
                *ctrl == c0,
                dec.subfr_length == d0.subfr_length,
                dec.indices == d0.indices,
                dec.fs_khz == d0.fs_khz,
                dec.nb_subfr == d0.nb_subfr,
                dec.lpc_order == d0.lpc_order,
                dec.s_plc.prev_lpc_q12 == d0.s_plc.prev_lpc_q12,
                *dec == (SilkDecoderState {
                    prev_signal_type: d0.indices.signal_type as i32,
                    s_plc: SilkPlcState {
                        pitch_l_q8: dec.s_plc.pitch_l_q8,
                        ltp_coef_q14: dec.s_plc.ltp_coef_q14,
                        ..d0.s_plc
                    },
                    ..d0
                }),
                ltp_search(c0.ltp_coef_q14@, c0.pitch_l@, nb_subfr as int, d0.subfr_length as int, j as int,
                    ltp_gain_q14 as int, dec.s_plc.pitch_l_q8 as int) == plc_params(d0, c0),
                -0x28000 <= ltp_gain_q14 <= 5 * 0x7fff,
            ensures
                ltp_search(c0.ltp_coef_q14@, c0.pitch_l@, nb_subfr as int, d0.subfr_length as int, j as int,
                    ltp_gain_q14 as int, dec.s_plc.pitch_l_q8 as int) == plc_params(d0, c0),
                j >= nb_subfr || j * d0.subfr_length >= c0.pitch_l@[nb_subfr - 1],
                -0x28000 <= ltp_gain_q14 <= 5 * 0x7fff,
                *ctrl == c0,
                *dec == (SilkDecoderState {
                    prev_signal_type: d0.indices.signal_type as i32,
                    s_plc: SilkPlcState {
                        pitch_l_q8: dec.s_plc.pitch_l_q8,
                        ltp_coef_q14: dec.s_plc.ltp_coef_q14,
                        ..d0.s_plc
                    },
                    ..d0
                }),
            decreases nb_subfr - j,
        {
            assert(-0x4000_0000 <= j * d0.subfr_length <= 0x4000_0000) by (nonlinear_arith)
                requires j <= 4, -0x1000_0000 <= d0.subfr_length < 0x1000_0000;
            if !((j as i32) * dec.subfr_length < ctrl.pitch_l[nb_subfr - 1]) {
                break;
            }
            if j == nb_subfr {
                break;
            }
            proof {
                lemma_ltp_search_step(c0.ltp_coef_q14@, c0.pitch_l@, nb_subfr as int, d0.subfr_length as int, j as int,
                    ltp_gain_q14 as int, dec.s_plc.pitch_l_q8 as int);
            }
            let base = (nb_subfr - 1 - j) * 5;
            let temp_ltp_gain_q14: i32 = ctrl.ltp_coef_q14[base] as i32 + ctrl.ltp_coef_q14[base + 1] as i32
                + ctrl.ltp_coef_q14[base + 2] as i32 + ctrl.ltp_coef_q14[base + 3] as i32
                + ctrl.ltp_coef_q14[base + 4] as i32;
            if temp_ltp_gain_q14 > ltp_gain_q14 {
                ltp_gain_q14 = temp_ltp_gain_q14;
                let mut k: usize = 0;
                while k < 5
                    invariant
                        k <= 5,
                        base + 5 <= 20,
                        *ctrl == c0,
                        *dec == (SilkDecoderState {
                            prev_signal_type: d0.indices.signal_type as i32,
                            s_plc: SilkPlcState {
                                pitch_l_q8: dec.s_plc.pitch_l_q8,
                                ltp_coef_q14: dec.s_plc.ltp_coef_q14,
                                ..d0.s_plc
                            },
                            ..d0
                        }),
                    decreases 5 - k,
                {
                    dec.s_plc.ltp_coef_q14[k] = ctrl.ltp_coef_q14[base + k];
                    k += 1;
                }
                dec.s_plc.pitch_l_q8 = silk_lshift(ctrl.pitch_l[nb_subfr - 1 - j], 8);
            }
            j += 1;
        }
        proof {
            assert(ltp_search(c0.ltp_coef_q14@, c0.pitch_l@, nb_subfr as int, d0.subfr_length as int, j as int,
                ltp_gain_q14 as int, dec.s_plc.pitch_l_q8 as int) == (ltp_gain_q14 as int, dec.s_plc.pitch_l_q8 as int));
        }
        let ghost pq8 = dec.s_plc.pitch_l_q8;
        dec.s_plc.ltp_coef_q14 = [0i16; 5];
        dec.s_plc.ltp_coef_q14[2] = crate::arith::low16(ltp_gain_q14);
        proof { crate::arith::lemma_wrap_id(0, 0x8000); }
        if ltp_gain_q14 < V_PITCH_GAIN_START_MIN_Q14 {
            let tmp = silk_lshift(V_PITCH_GAIN_START_MIN_Q14, 10);
            let scale_q10 = silk_div32(tmp, silk_max(ltp_gain_q14, 1));
            let mut k: usize = 0;
            while k < 5
                invariant
                    k <= 5,
                    forall|i: int| 0 <= i < 5 && i != 2 ==> #[trigger] dec.s_plc.ltp_coef_q14@[i] == 0,
                    k > 2 ==> dec.s_plc.ltp_coef_q14@[2] == fx_shr(lo16(wrap16(ltp_gain_q14 as int) as i32) * lo16(scale_q10), 10) as i16,
                    k <= 2 ==> dec.s_plc.ltp_coef_q14@[2] == wrap16(ltp_gain_q14 as int),
                    dec.s_plc.pitch_l_q8 == pq8,
                    *dec == (SilkDecoderState {
                        prev_signal_type: d0.indices.signal_type as i32,
                        s_plc: SilkPlcState {
                            pitch_l_q8: dec.s_plc.pitch_l_q8,
                            ltp_coef_q14: dec.s_plc.ltp_coef_q14,
                            ..d0.s_plc
                        },
                        ..d0
                    }),
                decreases 5 - k,
            {
                let c = dec.s_plc.ltp_coef_q14[k] as i32;
                let v = silk_rshift(silk_smulbb(c, scale_q10), 10) as i16;
                proof {
                    if k != 2 {
                        crate::arith::lemma_wrap_id(0, 0x8000);
                        assert(lo16(0) == 0);
                        assert(fx_shr(0, 10) == 0) by { vstd::arithmetic::power2::lemma2_to64(); }
                    } else {
                        crate::arith::lemma_wrap16_small(c as int);
                    }
                }
                dec.s_plc.ltp_coef_q14[k] = v;
                k += 1;
            }
        } else if ltp_gain_q14 > V_PITCH_GAIN_START_MAX_Q14 {
            let tmp = silk_lshift(V_PITCH_GAIN_START_MAX_Q14, 14);
            let scale_q14 = silk_div32(tmp, silk_max(ltp_gain_q14, 1));
            let mut k: usize = 0;
            while k < 5
                invariant
                    k <= 5,
                    forall|i: int| 0 <= i < 5 && i != 2 ==> #[trigger] dec.s_plc.ltp_coef_q14@[i] == 0,
                    k > 2 ==> dec.s_plc.ltp_coef_q14@[2] == fx_shr(lo16(wrap16(ltp_gain_q14 as int) as i32) * lo16(scale_q14), 14) as i16,
                    k <= 2 ==> dec.s_plc.ltp_coef_q14@[2] == wrap16(ltp_gain_q14 as int),
                    dec.s_plc.pitch_l_q8 == pq8,
                    *dec == (SilkDecoderState {
                        prev_signal_type: d0.indices.signal_type as i32,
                        s_plc: SilkPlcState {
                            pitch_l_q8: dec.s_plc.pitch_l_q8,
                            ltp_coef_q14: dec.s_plc.ltp_coef_q14,
                            ..d0.s_plc
                        },
                        ..d0
                    }),
                decreases 5 - k,
            {
                let c = dec.s_plc.ltp_coef_q14[k] as i32;
                let v = silk_rshift(silk_smulbb(c, scale_q14), 14) as i16;
                proof {
                    if k != 2 {
                        crate::arith::lemma_wrap_id(0, 0x8000);
                        assert(lo16(0) == 0);
                        assert(fx_shr(0, 14) == 0) by { vstd::arithmetic::power2::lemma2_to64(); }
                    } else {
                        crate::arith::lemma_wrap16_small(c as int);
                    }
                }
                dec.s_plc.ltp_coef_q14[k] = v;
                k += 1;
            }
        }
        proof {
            vstd::arithmetic::power2::lemma2_to64();
            crate::arith::lemma_wrap_id(V_PITCH_GAIN_START_MIN_Q14 * 1024, 0x8000_0000);
            crate::arith::lemma_wrap_id(V_PITCH_GAIN_START_MAX_Q14 * 16384, 0x8000_0000);
            assert(dec.s_plc.ltp_coef_q14@ =~= seq![0i16, 0i16, plc_mid_tap(ltp_gain_q14 as int), 0i16, 0i16]);
            assert(dec.s_plc.pitch_l_q8 as int == plc_params(d0, c0).1);
            assert(ltp_gain_q14 as int == plc_params(d0, c0).0);
        }
    } else {
        dec.s_plc.pitch_l_q8 = silk_lshift(silk_smulbb(dec.fs_khz, 18), 8);
        dec.s_plc.ltp_coef_q14 = [0i16; 5];
        proof {
            crate::arith::lemma_wrap16_small(18);
            crate::arith::lemma_wrap_id(0, 0x8000);
            vstd::arithmetic::power2::lemma2_to64();
            let sc = fx_div32(V_PITCH_GAIN_START_MIN_Q14 * 1024, 1);
            assert(lo16(0i32) == 0);
            assert(lo16(0i32) * lo16(sc as i32) == 0);
            assert(fx_shr(0, 10) == 0);
            assert(plc_mid_tap(0) == 0);
            assert(dec.s_plc.ltp_coef_q14@ =~= seq![0i16, 0i16, plc_mid_tap(0), 0i16, 0i16]);
            assert(dec.s_plc.pitch_l_q8 as int == plc_params(d0, c0).1);
        }
    }
    let order = dec.lpc_order as usize;
    let mut i: usize = 0;
    while i < order
        invariant
            i <= order <= 16,
            order == d0.lpc_order,
            *ctrl == c0,
            forall|k: int| 0 <= k < 16 ==> #[trigger] dec.s_plc.prev_lpc_q12@[k] == (if k < i {
                c0.pred_coef_q12@[1]@[k]
            } else {
                d0.s_plc.prev_lpc_q12@[k]
            }),
            dec.s_plc.ltp_coef_q14@ == seq![0i16, 0i16, plc_mid_tap(plc_params(d0, c0).0), 0i16, 0i16],
            *dec == (SilkDecoderState {
                prev_signal_type: d0.indices.signal_type as i32,
                s_plc: SilkPlcState {
                    pitch_l_q8: plc_params(d0, c0).1 as i32,
                    ltp_coef_q14: dec.s_plc.ltp_coef_q14,
                    prev_lpc_q12: dec.s_plc.prev_lpc_q12,
                    ..d0.s_plc
                },
                ..d0
            }),
        decreases order - i,
    {
        dec.s_plc.prev_lpc_q12[i] = ctrl.pred_coef_q12[1][i];
        i += 1;
    }
    dec.s_plc.prev_ltp_scale_q14 = ctrl.ltp_scale_q14 as i16;
    dec.s_plc.prev_gain_q16[0] = ctrl.gains_q16[nb_subfr - 2];
    dec.s_plc.prev_gain_q16[1] = ctrl.gains_q16[nb_subfr - 1];
    dec.s_plc.subfr_length = dec.subfr_length;
    dec.s_plc.nb_subfr = dec.nb_subfr;
    proof {
        assert(dec.s_plc.prev_lpc_q12@ =~= Seq::new(16, |k: int| if k < d0.lpc_order {
            c0.pred_coef_q12@[1]@[k]
        } else {
            d0.s_plc.prev_lpc_q12@[k]
        }));
        assert(dec.s_plc.prev_gain_q16@ =~= seq![c0.gains_q16@[d0.nb_subfr - 2], c0.gains_q16@[d0.nb_subfr - 1]]);
    }
}

/// The excitation of the last two subframes scaled by their gains (Q10) and
/// saturated to 16 bits: half `h` (0 or 1) of the energy buffer.
pub open spec fn plc_exc_half(exc: Seq<i32>, g: Seq<i32>, subfr: int, nb: int, h: int) -> Seq<i16> {
    Seq::new(subfr as nat, |i: int| clamp(fx_shr(fx_smulww(exc[(h + nb - 2) * subfr + i] as int, g[h] as int), 8), -0x8000, 0x7fff) as i16)
}

/// A shift computed by the energy sum stays below 10 for at most 80 samples.
proof fn lemma_final_shift_small(x: Seq<i16>)
    requires
        x.len() <= 80,
    ensures
        0 <= final_shift(x) <= 9,
{
    let n = x.len() as int;
    vstd::arithmetic::power2::lemma2_to64();
    crate::arith::lemma_bit_length_bound(n as nat, 7);
    let s1 = 31 - fx_clz32(n);
    let e1 = energy_pass(x, s1 as nat, n);
    let k = (x.len() / 2) as nat;
    let a = energy_pairs(x, s1 as nat, n, k);
    if k > 0 {
        crate::arith::lemma_wrap_bounds(energy_pairs(x, s1 as nat, n, (k - 1) as nat)
            + pair_energy(x, k - 1) / (pow2(s1 as nat) as int), 0x8000_0000);
    }
    if x.len() % 2 == 1 {
        let t = x[x.len() - 1] as int;
        crate::arith::lemma_wrap_bounds(a + (t * t) / (pow2(s1 as nat) as int), 0x8000_0000);
    }
    assert(-0x8000_0000 <= e1 < 0x8000_0000);
    let u = (if e1 >= 0 { e1 } else { e1 + 0x1_0000_0000 });
    crate::arith::lemma_bit_length_bound(u as nat, 32);
}

/// The energies (with their shifts) of the last two
/// subframes' excitation, each scaled by its gain ([`plc_exc_half`]).
fn plc_energy(exc_q14: &[i32; 320], prev_gain_q10: &[i32; 2], subfr_length: usize, nb_subfr: usize) -> (r: (i32, i32, i32, i32))
    requires
        2 <= nb_subfr <= 4,
        1 <= subfr_length <= 80,
        nb_subfr * subfr_length <= 320,
    ensures
        ({
            let h0 = plc_exc_half(exc_q14@, prev_gain_q10@, subfr_length as int, nb_subfr as int, 0);
            let h1 = plc_exc_half(exc_q14@, prev_gain_q10@, subfr_length as int, nb_subfr as int, 1);
            &&& r.1 == final_shift(h0) && r.0 == energy_pass(h0, r.1 as nat, 0)
            &&& r.3 == final_shift(h1) && r.2 == energy_pass(h1, r.3 as nat, 0)
        }),
{
    let mut exc_buf = [0i16; 160];
    let mut k: usize = 0;
    while k < 2
        invariant
            k <= 2,
            2 <= nb_subfr <= 4,
            1 <= subfr_length <= 80,
            nb_subfr * subfr_length <= 320,
            forall|h: int, i: int| 0 <= h < k && 0 <= i < subfr_length ==> #[trigger] exc_buf@[h * subfr_length + i]
                == plc_exc_half(exc_q14@, prev_gain_q10@, subfr_length as int, nb_subfr as int, h)[i],
        decreases 2 - k,
    {
        assert((k + nb_subfr - 2) * subfr_length + subfr_length <= 320) by (nonlinear_arith)
            requires k < 2, nb_subfr * subfr_length <= 320, 2 <= nb_subfr;
        let src_start = (k + nb_subfr - 2) * subfr_length;
        let mut i: usize = 0;
        while i < subfr_length
            invariant
                i <= subfr_length <= 80,
                k < 2,
                src_start == (k + nb_subfr - 2) * subfr_length,
                src_start + subfr_length <= 320,
                forall|h: int, j: int| 0 <= h < k && 0 <= j < subfr_length ==> #[trigger] exc_buf@[h * subfr_length + j]
                    == plc_exc_half(exc_q14@, prev_gain_q10@, subfr_length as int, nb_subfr as int, h)[j],
                forall|j: int| 0 <= j < i ==> #[trigger] exc_buf@[k * subfr_length + j]
                    == plc_exc_half(exc_q14@, prev_gain_q10@, subfr_length as int, nb_subfr as int, k as int)[j],
            decreases subfr_length - i,
        {
            assert(k * subfr_length + i < 160) by (nonlinear_arith) requires k < 2, i < subfr_length, subfr_length <= 80;
            exc_buf[k * subfr_length + i] = silk_sat16(silk_rshift(silk_smulww(exc_q14[src_start + i], prev_gain_q10[k]), 8)) as i16;
            proof {
                assert forall|h: int, j: int| 0 <= h < k && 0 <= j < subfr_length implies #[trigger] exc_buf@[h * subfr_length + j]
                    == plc_exc_half(exc_q14@, prev_gain_q10@, subfr_length as int, nb_subfr as int, h)[j] by {
                    assert(h * subfr_length + j < k * subfr_length) by (nonlinear_arith)
                        requires h < k, j < subfr_length, 0 <= h;
                }
            }
            i += 1;
        }
        proof {
            assert forall|h: int, j: int| 0 <= h < k + 1 && 0 <= j < subfr_length implies #[trigger] exc_buf@[h * subfr_length + j]
                == plc_exc_half(exc_q14@, prev_gain_q10@, subfr_length as int, nb_subfr as int, h)[j] by {
                if h == k {
                    assert(exc_buf@[k * subfr_length + j] == plc_exc_half(exc_q14@, prev_gain_q10@, subfr_length as int, nb_subfr as int, k as int)[j]);
                }
            }
        }
        k += 1;
    }
    let first = vstd::slice::slice_subrange(&exc_buf, 0, subfr_length);
    let second = vstd::slice::slice_subrange(&exc_buf, subfr_length, 2 * subfr_length);
    proof {
        let h0 = plc_exc_half(exc_q14@, prev_gain_q10@, subfr_length as int, nb_subfr as int, 0);
        let h1 = plc_exc_half(exc_q14@, prev_gain_q10@, subfr_length as int, nb_subfr as int, 1);
        assert forall|j: int| 0 <= j < subfr_length implies #[trigger] first@[j] == h0[j] by {
            assert(exc_buf@[0 * subfr_length + j] == h0[j]);
        }
        assert forall|j: int| 0 <= j < subfr_length implies #[trigger] second@[j] == h1[j] by {
            assert(exc_buf@[1 * subfr_length + j] == h1[j]);
        }
        assert(first@ =~= h0);
        assert(second@ =~= h1);
    }
    let (energy1, shift1) = silk_sum_sqr_shift(first);
    let (energy2, shift2) = silk_sum_sqr_shift(second);
    (energy1, shift1, energy2, shift2)
}

/// The bandwidth-expansion factor 0.99 in Q16.
pub const BWE_COEF_Q16: i32 = 64881;
/// Harmonic attenuation per lost frame (first, later).
pub const HARM_ATT_Q15: [i16; 2] = [32440, 31130];
/// Noise attenuation per lost frame for voiced frames.
pub const PLC_RAND_ATTENUATE_V_Q15: [i16; 2] = [31130, 26214];
/// Noise attenuation per lost frame for unvoiced frames.
pub const PLC_RAND_ATTENUATE_UV_Q15: [i16; 2] = [32440, 29491];
/// The excitation span the noise is drawn from.
pub const RAND_BUF_SIZE: i32 = 128;
/// The pitch lag grows by 1% per subframe.
pub const PITCH_DRIFT_FAC_Q16: i32 = 655;
pub const MAX_PITCH_LAG_MS: i32 = 18;

/// The LPC coefficients concealment uses: the saved ones (none right after a
/// reset), bandwidth-expanded by 0.99 over the first `order`.
pub open spec fn conceal_lpc(d: SilkDecoderState) -> Seq<i16> {
    let base = if d.first_frame_after_reset { Seq::new(16, |i: int| 0i16) } else { d.s_plc.prev_lpc_q12@ };
    Seq::new(16, |i: int| if i < d.lpc_order {
        wrap16(fx_rshift_round(wrap32(bw_chirp(BWE_COEF_Q16 as int, i as nat) * base[i]), 16)) as i16
    } else {
        base[i]
    })
}

/// The attenuation index: first lost frame or later.
pub open spec fn att_index(d: SilkDecoderState) -> int {
    if d.loss_cnt < 1 { d.loss_cnt as int } else { 1 }
}

/// The inverse prediction gain of `a` (0 when unstable).
pub open spec fn lpc_gain(a: Seq<i16>, order: int) -> int {
    if dc_response(a, order) >= 4096 { 0 } else { inv_gain_rec(coefs_qa(a, order), order - 1, ONE_Q30 as int) }
}

/// The noise scale (Q14) and noise attenuation (Q15) concealment starts with:
/// on the first lost frame the scale is reset (reduced by the LTP gain of a
/// voiced frame, times the LTP scale), and for an unvoiced frame the
/// attenuation is reduced when the LPC filter has a high gain.
pub open spec fn conceal_rand(d: SilkDecoderState, lpc: Seq<i16>) -> (int, int) {
    let att = att_index(d);
    let rg0 = if d.prev_signal_type == 2 { PLC_RAND_ATTENUATE_V_Q15@[att] as int } else { PLC_RAND_ATTENUATE_UV_Q15@[att] as int };
    if d.loss_cnt == 0 {
        if d.prev_signal_type == 2 {
            let b = d.s_plc.ltp_coef_q14@;
            let rs = 16384 - b[0] - b[1] - b[2] - b[3] - b[4];
            let rs2 = if 3277 > rs { 3277 } else { rs };
            (fx_shr(lo16(rs2 as i32) * lo16(d.s_plc.prev_ltp_scale_q14 as i32), 14), rg0)
        } else {
            let inv = lpc_gain(lpc, d.lpc_order as int);
            let ds = if 0x800_0000 < inv { 0x800_0000 } else { inv };
            let ds2 = if 0x40_0000 > ds { 0x40_0000 } else { ds };
            (16384, fx_shr(fx_smulwb(fx_shl32(ds2, 3), rg0), 14))
        }
    } else {
        (d.s_plc.rand_scale_q14 as int, rg0)
    }
}

/// The first steps of concealment: the LPC coefficients ([`conceal_lpc`],
/// kept in the state) and the initial noise scale and attenuation
/// ([`conceal_rand`]).
fn conceal_prepare(dec: &mut SilkDecoderState) -> (r: (i32, i32))
    requires
        old(dec).lpc_order == 10 || old(dec).lpc_order == 16,
        old(dec).loss_cnt >= 0,
    ensures
        final(dec).s_plc.prev_lpc_q12@ == conceal_lpc(*old(dec)),
        *final(dec) == (SilkDecoderState {
            s_plc: SilkPlcState { prev_lpc_q12: final(dec).s_plc.prev_lpc_q12, ..old(dec).s_plc },
            ..*old(dec)
        }),
        r.0 == conceal_rand(*old(dec), conceal_lpc(*old(dec))).0,
        r.1 == conceal_rand(*old(dec), conceal_lpc(*old(dec))).1,
{
    let ghost d0 = *dec;
    let order = dec.lpc_order as usize;
    if dec.first_frame_after_reset {
        dec.s_plc.prev_lpc_q12 = [0i16; 16];
        assert(dec.s_plc.prev_lpc_q12@ =~= Seq::new(16, |i: int| 0i16));
    }
    let ghost base = dec.s_plc.prev_lpc_q12@;
    let mut b_q14 = dec.s_plc.ltp_coef_q14;
    let mut rand_scale_q14 = dec.s_plc.rand_scale_q14 as i32;
    let att_idx = silk_min(1, dec.loss_cnt) as usize;
    let mut rand_gain_q15 = if dec.prev_signal_type == 2 {
        PLC_RAND_ATTENUATE_V_Q15[att_idx] as i32
    } else {
        PLC_RAND_ATTENUATE_UV_Q15[att_idx] as i32
    };
    proof { lemma_unit_range_chirp_fits(BWE_COEF_Q16 as int, order as nat); }
    silk_bwexpander(&mut dec.s_plc.prev_lpc_q12, order, BWE_COEF_Q16);
    assert(dec.s_plc.prev_lpc_q12@ =~= conceal_lpc(d0));
    if dec.loss_cnt == 0 {
        rand_scale_q14 = 16384;
        if dec.prev_signal_type == 2 {
            let mut i: usize = 0;
            while i < 5
                invariant
                    i <= 5,
                    b_q14@ == d0.s_plc.ltp_coef_q14@,
                    rand_scale_q14 == 16384 - (if i > 0 { b_q14@[0] as int } else { 0 }) - (if i > 1 { b_q14@[1] as int } else { 0 })
                        - (if i > 2 { b_q14@[2] as int } else { 0 }) - (if i > 3 { b_q14@[3] as int } else { 0 })
                        - (if i > 4 { b_q14@[4] as int } else { 0 }),
                decreases 5 - i,
            {
                rand_scale_q14 -= b_q14[i] as i32;
                i += 1;
            }
            rand_scale_q14 = silk_max(3277, rand_scale_q14);
            rand_scale_q14 = silk_rshift(silk_smulbb(rand_scale_q14, dec.s_plc.prev_ltp_scale_q14 as i32), 14);
        } else {
            let inv_gain_q30 = silk_lpc_inverse_pred_gain(&dec.s_plc.prev_lpc_q12, order);
            proof {
                crate::arith::lemma_i32_shr_is_div(1i32 << 30u32, 3);
                crate::arith::lemma_i32_shr_is_div(1i32 << 30u32, 8);
                crate::arith::lemma_i32_shl_is_mul(1, 30);
                vstd::arithmetic::power2::lemma2_to64();
                crate::arith::lemma_wrap_id(0x4000_0000, 0x8000_0000);
            }
            let mut down_scale_q30 = silk_min(silk_rshift(1i32 << 30u32, 3), inv_gain_q30);
            down_scale_q30 = silk_max(silk_rshift(1i32 << 30u32, 8), down_scale_q30);
            down_scale_q30 = silk_lshift(down_scale_q30, 3);
            rand_gain_q15 = silk_rshift(silk_smulwb(down_scale_q30, rand_gain_q15), 14);
        }
    }
    (rand_scale_q14, rand_gain_q15)
}

/// Where the re-whitened history starts: `lag + order + 2` samples before the
/// end of the LTP memory, clamped to it.
pub open spec fn conceal_idx(ltp_mem: int, lag: int, order: int) -> int {
    clamp(ltp_mem - lag - order - 2, 0, ltp_mem)
}

/// The gain (Q30) the re-whitened history is scaled with: the inverse of the
/// last gain, at most `i32::MAX / 2`.
pub open spec fn conceal_inv_gain(g: int) -> int {
    let v = fx_inverse32_varq(g, 46);
    if v < 0x3fff_ffff { v } else { 0x3fff_ffff }
}

/// The long-term state concealment starts from: the LPC residual of the
/// output history from `idx` (past its first `order` samples), scaled by `inv`.
pub open spec fn conceal_q0(ob: Seq<i16>, ltp_mem: int, idx: int, a: Seq<i16>, order: int, inv: int) -> Seq<i32> {
    let window = rewhite_window(ob, idx, ltp_mem - idx);
    Seq::new(640, |j: int| if idx + order <= j < ltp_mem {
        fx_smulwb(inv, lpc_residual(window, a, j - idx, order as nat)) as i32
    } else {
        0i32
    })
}

/// Re-whitening of the output history for concealment ([`conceal_q0`]).
fn conceal_rewhiten(dec: &SilkDecoderState, a_q12: &[i16; 16], order: usize, lag: i32, q: &mut [i32; 640])
    requires
        dec.ltp_mem_length <= 320,
        order == 10 || order == 16,
        dec.ltp_mem_length - conceal_idx(dec.ltp_mem_length as int, lag as int, order as int) >= order,
        dec.s_plc.prev_gain_q16@[1] != 0,
        dec.s_plc.prev_gain_q16@[1] != i32::MIN,
        forall|j: int| 0 <= j < 640 ==> #[trigger] old(q)@[j] == 0,
    ensures
        final(q)@ == conceal_q0(dec.out_buf@, dec.ltp_mem_length as int,
            conceal_idx(dec.ltp_mem_length as int, lag as int, order as int), a_q12@, order as int,
            conceal_inv_gain(dec.s_plc.prev_gain_q16@[1] as int)),
{
    let ltp_mem_length = dec.ltp_mem_length as usize;
    let raw: i64 = ltp_mem_length as i64 - lag as i64 - order as i64 - 2;
    let idx: usize = if raw < 0 { 0 } else if raw > ltp_mem_length as i64 { ltp_mem_length } else { raw as usize };
    assert(idx == conceal_idx(dec.ltp_mem_length as int, lag as int, order as int));
    let in_len = ltp_mem_length - idx;
    let mut in_local = [0i16; 320];
    let mut t: usize = 0;
    while t < in_len
        invariant
            t <= in_len <= 320,
            idx + in_len == ltp_mem_length,
            ltp_mem_length <= 320,
            forall|u: int| 0 <= u < 320 ==> #[trigger] in_local@[u] == (if u < t { dec.out_buf@[idx + u] } else { 0i16 }),
        decreases in_len - t,
    {
        in_local[t] = dec.out_buf[idx + t];
        t += 1;
    }
    assert(in_local@ =~= rewhite_window(dec.out_buf@, idx as int, in_len as int));
    let mut out_local = [0i16; 320];
    silk_lpc_analysis_filter(&mut out_local, &in_local, a_q12, in_len, order);
    let mut s_ltp = [0i16; 320];
    let mut t: usize = 0;
    while t < in_len
        invariant
            t <= in_len,
            idx + in_len == ltp_mem_length,
            ltp_mem_length <= 320,
            forall|u: int| idx <= u < idx + t ==> #[trigger] s_ltp@[u] == out_local@[u - idx],
        decreases in_len - t,
    {
        s_ltp[idx + t] = out_local[t];
        t += 1;
    }
    proof { crate::silk::macros::lemma_headroom_range(dec.s_plc.prev_gain_q16[1]); }
    let mut inv_gain_q30 = silk_inverse32_varq(dec.s_plc.prev_gain_q16[1], 46);
    inv_gain_q30 = silk_min(inv_gain_q30, 0x3fff_ffff);
    let ghost q0 = q@;
    let mut i: usize = idx + order;
    while i < ltp_mem_length
        invariant
            idx + order <= i <= ltp_mem_length,
            ltp_mem_length <= 320,
            idx + in_len == ltp_mem_length,
            forall|u: int| idx <= u < ltp_mem_length ==> #[trigger] s_ltp@[u] == out_local@[u - idx],
            forall|u: int| 0 <= u < 640 ==> #[trigger] q@[u] == (if idx + order <= u < i {
                fx_smulwb(inv_gain_q30 as int, s_ltp@[u] as int) as i32
            } else {
                q0[u]
            }),
        decreases ltp_mem_length - i,
    {
        q[i] = silk_smulwb(inv_gain_q30, s_ltp[i] as i32);
        i += 1;
    }
    assert(q@ =~= conceal_q0(dec.out_buf@, ltp_mem_length as int, idx as int, a_q12@, order as int, inv_gain_q30 as int));
}

/// An index into the long-term buffer, clamped to it.
pub open spec fn clamp_ltp(x: int) -> int {
    clamp(x, 0, 639)
}

/// The long-term prediction (Q12) at `p` after `t` taps, reading clamped positions.
pub open spec fn conceal_acc(q: Seq<i32>, p: int, b: Seq<i16>, t: nat) -> int
    decreases t,
{
    if t == 0 {
        2
    } else {
        wrap32(conceal_acc(q, p, b, (t - 1) as nat) + fx_smulwb(q[clamp_ltp(p - (t - 1))] as int, b[t - 1] as int))
    }
}

/// The excitation offset drawn from a generator state: its top 7 bits.
pub open spec fn rand_index(seed: int) -> int {
    let x = seed / 0x200_0000;
    if x >= 0 { x } else { x + 128 }
}

/// The concealed long-term state and generator after `n` samples of a
/// subframe: each sample is the prediction plus a random excitation sample
/// (from `rps` on) times the noise scale, in Q14.
pub open spec fn conceal_samples(
    q0: Seq<i32>, bi0: int, lag: int, b: Seq<i16>, exc: Seq<i32>, rps: int, rs: int, seed0: int, n: nat,
) -> (Seq<i32>, int)
    decreases n,
{
    if n == 0 {
        (q0, seed0)
    } else {
        let prev = conceal_samples(q0, bi0, lag, b, exc, rps, rs, seed0, (n - 1) as nat);
        conceal_step(prev.0, prev.1, bi0, lag, b, exc, rps, rs, n - 1)
    }
}

/// Sample `i` of a concealed subframe.
pub open spec fn conceal_step(
    q: Seq<i32>, seed: int, bi0: int, lag: int, b: Seq<i16>, exc: Seq<i32>, rps: int, rs: int, i: int,
) -> (Seq<i32>, int) {
    let acc = conceal_acc(q, bi0 - lag + 2 + i, b, 5);
    let s1 = rand_next(seed);
    let v = fx_shl32(wrap32(acc + fx_smulwb(exc[rps + rand_index(s1)] as int, (rs as i16) as int)), 2);
    (q.update(clamp_ltp(bi0 + i), v as i32), s1)
}

/// One concealed subframe: the long-term samples, then the taps and the
/// noise decay and the pitch lag (Q8) drifts up by 1%, capped at 18 ms.
#[verifier::opaque]
pub open spec fn conceal_sub(
    fs_khz: int, subfr: int, exc: Seq<i32>, rps: int, harm: int, rgain: int,
    st: (Seq<i32>, int, int, Seq<i16>, int, int, int),
) -> (Seq<i32>, int, int, Seq<i16>, int, int, int) {
    let (q, bi, seed, b, rs, pitch, lag) = st;
    let (q1, seed1) = conceal_samples(q, bi, lag, b, exc, rps, rs, seed, subfr as nat);
    let b1 = Seq::new(5, |j: int| fx_shr(lo16(harm as i32) * lo16(b[j] as i32), 15) as i16);
    let rs1 = fx_shr(lo16(rs as i32) * lo16(rgain as i32), 15);
    let p1 = wrap32(pitch + fx_smulwb(pitch, PITCH_DRIFT_FAC_Q16 as int));
    let cap = fx_shl32(18 * lo16(fs_khz as i32), 8);
    let p2 = if p1 < cap { p1 } else { cap };
    (q1, bi + subfr, seed1, b1, rs1, p2, fx_rshift_round(p2, 8))
}

/// The concealment state after `k` subframes ([`conceal_sub`]): long-term
/// buffer, position, generator, LTP taps, noise scale, pitch lag (Q8) and lag.
pub open spec fn conceal_ltp(
    fs_khz: int, subfr: int, exc: Seq<i32>, rps: int, harm: int, rgain: int,
    st0: (Seq<i32>, int, int, Seq<i16>, int, int, int), k: nat,
) -> (Seq<i32>, int, int, Seq<i16>, int, int, int)
    decreases k,
{
    if k == 0 {
        st0
    } else {
        conceal_sub(fs_khz, subfr, exc, rps, harm, rgain, conceal_ltp(fs_khz, subfr, exc, rps, harm, rgain, st0, (k - 1) as nat))
    }
}

/// The low 7 bits of a value in `[-64, 64)`.
proof fn lemma_mask127(x: i32)
    requires
        -64 <= x < 64,
    ensures
        (x & 127i32) == (if x >= 0 { x as int } else { x + 128 }),
{
    assert(-64 <= x < 64 ==> (x & 127i32) == (if x >= 0 { x } else { (x + 128) as i32 })) by (bit_vector);
}

/// One concealed subframe of long-term synthesis ([`conceal_samples`]).
fn conceal_subframe_ltp(
    q: &mut [i32; 640], exc: &[i32; 320], rps: usize, b: &[i16; 5], rs: i32, seed: i32, bi0: usize, lag: i32, n: usize,
) -> (r: i32)
    requires
        rps + 128 <= 320,
        bi0 <= 1000,
        n <= 80,
    ensures
        (final(q)@, r as int) == conceal_samples(old(q)@, bi0 as int, lag as int, b@, exc@, rps as int, rs as int, seed as int, n as nat),
{
    let ghost q0 = q@;
    let mut rand_seed = seed;
    let base: i64 = bi0 as i64 - lag as i64 + 2;
    let mut i: usize = 0;
    while i < n
        invariant
            i <= n <= 80,
            bi0 <= 1000,
            rps + 128 <= 320,
            base == bi0 - lag + 2,
            q@ == conceal_samples(q0, bi0 as int, lag as int, b@, exc@, rps as int, rs as int, seed as int, i as nat).0,
            rand_seed as int == conceal_samples(q0, bi0 as int, lag as int, b@, exc@, rps as int, rs as int, seed as int, i as nat).1,
        decreases n - i,
    {
        let ghost qi = q@;
        let ghost si = rand_seed as int;
        let p: i64 = base + i as i64;
        let mut acc: i32 = 2;
        let mut t: usize = 0;
        while t < 5
            invariant
                t <= 5,
                p == bi0 - lag + 2 + i,
                acc == conceal_acc(q@, p as int, b@, t as nat),
            decreases 5 - t,
        {
            let pt: i64 = p - t as i64;
            let ci: usize = if pt < 0 { 0 } else if pt > 639 { 639 } else { pt as usize };
            acc = silk_smlawb(acc, q[ci], b[t] as i32);
            t += 1;
        }
        rand_seed = silk_rand(rand_seed);
        let hi = silk_rshift(rand_seed, 25);
        proof {
            vstd::arithmetic::power2::lemma2_to64();
            vstd::arithmetic::div_mod::lemma_div_is_ordered(rand_seed as int, 0x7fff_ffff, 0x200_0000);
            vstd::arithmetic::div_mod::lemma_div_is_ordered(-0x8000_0000, rand_seed as int, 0x200_0000);
            assert(-64 <= hi < 64);
            lemma_mask127(hi);
        }
        let ridx = (hi & 127) as usize;
        let w: i64 = bi0 as i64 + i as i64;
        let widx: usize = if w > 639 { 639 } else { w as usize };
        let v = silk_lshift(silk_smlawb(acc, exc[rps + ridx], rs as i16 as i32), 2);
        q[widx] = v;
        proof {
            let st = conceal_step(qi, si, bi0 as int, lag as int, b@, exc@, rps as int, rs as int, i as int);
            assert(q@ == st.0);
            assert(rand_seed as int == st.1);
        }
        i += 1;
    }
    rand_seed
}

/// In-place short-term synthesis of `n` samples from `base0`: each sample
/// (the excitation) plus the prediction from the `order` before it, saturated.
pub open spec fn conceal_synth(s0: Seq<i32>, base0: int, a: Seq<i16>, order: int, n: nat) -> Seq<i32>
    decreases n,
{
    if n == 0 {
        s0
    } else {
        let s = conceal_synth(s0, base0, a, order, (n - 1) as nat);
        let base = base0 + n - 1;
        s.update(base, clamp(s[base] as int + shl4_sat(lpc_acc(s, base, a, order as nat, order / 2)), SILK_INT32_MIN as int, SILK_INT32_MAX as int) as i32)
    }
}

proof fn lemma_conceal_synth_stable(s0: Seq<i32>, base0: int, a: Seq<i16>, order: int, m: nat, n: nat, i: int)
    requires
        m <= n,
        0 <= base0,
        base0 + n <= s0.len(),
        0 <= i < s0.len(),
        !(base0 + m <= i < base0 + n),
    ensures
        conceal_synth(s0, base0, a, order, n)[i] == conceal_synth(s0, base0, a, order, m)[i],
        conceal_synth(s0, base0, a, order, n).len() == s0.len(),
    decreases n - m,
{
    if n > m {
        lemma_conceal_synth_stable(s0, base0, a, order, m, (n - 1) as nat, i);
    } else {
        lemma_conceal_synth_len(s0, base0, a, order, n);
    }
}

proof fn lemma_conceal_synth_len(s0: Seq<i32>, base0: int, a: Seq<i16>, order: int, n: nat)
    requires
        0 <= base0,
        base0 + n <= s0.len(),
    ensures
        conceal_synth(s0, base0, a, order, n).len() == s0.len(),
    decreases n,
{
    if n > 0 {
        lemma_conceal_synth_len(s0, base0, a, order, (n - 1) as nat);
    }
}

/// Concealed short-term synthesis ([`conceal_synth`]), each sample scaled by
/// `gain_q10` into `frame`.
pub(crate) fn conceal_lpc_synth(q: &mut [i32; 640], base0: usize, a: &[i16; 16], order: usize, n: usize, gain_q10: i32, frame: &mut [i16])
    requires
        order == 10 || order == 16,
        16 <= base0,
        base0 + n <= 640,
        n <= old(frame)@.len(),
    ensures
        final(q)@ == conceal_synth(old(q)@, base0 as int, a@, order as int, n as nat),
        final(frame)@.len() == old(frame)@.len(),
        forall|i: int| 0 <= i < n ==> #[trigger] final(frame)@[i] == out_sample(final(q)@[base0 + i] as int, gain_q10 as int),
        forall|i: int| n <= i < old(frame)@.len() ==> #[trigger] final(frame)@[i] == old(frame)@[i],
{
    let ghost s0 = q@;
    let flen = frame.len();
    let mut i: usize = 0;
    while i < n
        invariant
            i <= n,
            order == 10 || order == 16,
            16 <= base0,
            base0 + n <= 640,
            frame@.len() == flen,
            n <= flen,
            s0.len() == 640,
            q@ == conceal_synth(s0, base0 as int, a@, order as int, i as nat),
            forall|j: int| 0 <= j < i ==> #[trigger] frame@[j] == out_sample(q@[base0 + j] as int, gain_q10 as int),
            forall|j: int| i <= j < flen ==> #[trigger] frame@[j] == old(frame)@[j],
        decreases n - i,
    {
        let base = base0 + i;
        proof {
            crate::arith::lemma_i32_shr_is_div(order as i32, 1);
            vstd::arithmetic::power2::lemma2_to64();
        }
        let mut pred: i32 = (order as i32) >> 1u32;
        let mut t: usize = 0;
        while t < order
            invariant
                t <= order,
                order == 10 || order == 16,
                base == base0 + i,
                16 <= base0,
                i < n,
                base0 + n <= 640,
                pred == lpc_acc(q@, base as int, a@, t as nat, order as int / 2),
            decreases order - t,
        {
            pred = silk_smlawb(pred, q[base - 1 - t], a[t] as i32);
            t += 1;
        }
        let ghost before = q@;
        let v = silk_add_sat32(q[base], silk_lshift_sat32(pred, 4));
        proof { vstd::arithmetic::power2::lemma2_to64(); }
        q[base] = v;
        proof {
            lemma_conceal_synth_len(s0, base0 as int, a@, order as int, i as nat);
            assert(q@ == conceal_synth(s0, base0 as int, a@, order as int, (i + 1) as nat));
        }
        frame[i] = silk_sat16(silk_rshift_round(silk_smulww(v, gain_q10), 8)) as i16;
        i += 1;
    }
}

/// The state concealment works from.
pub open spec fn conceal_ready(d: SilkDecoderState) -> bool {
    &&& d.lpc_order == 10 || d.lpc_order == 16
    &&& d.loss_cnt >= 0
    &&& 2 <= d.nb_subfr <= 4
    &&& 1 <= d.subfr_length <= 80
    &&& d.nb_subfr * d.subfr_length <= 320
    &&& 16 <= d.ltp_mem_length <= 320
    &&& 0 <= d.frame_length <= 320
    &&& 1 <= d.s_plc.nb_subfr <= 4
    &&& 0 <= d.s_plc.subfr_length <= 80
    &&& d.s_plc.prev_gain_q16@[1] != 0
    &&& d.s_plc.prev_gain_q16@[1] != i32::MIN
    &&& d.ltp_mem_length - conceal_idx(d.ltp_mem_length as int, fx_rshift_round(d.s_plc.pitch_l_q8 as int, 8), d.lpc_order as int)
        >= d.lpc_order
}

/// The last two gains in Q10.
pub open spec fn conceal_gains_q10(d: SilkDecoderState) -> Seq<i32> {
    seq![fx_shr(d.s_plc.prev_gain_q16@[0] as int, 6) as i32, fx_shr(d.s_plc.prev_gain_q16@[1] as int, 6) as i32]
}

/// Where the random excitation is drawn from: the lower-energy one of the
/// last two subframes (its last 128 samples).
pub open spec fn conceal_rps(d: SilkDecoderState) -> int {
    let g = conceal_gains_q10(d);
    let h0 = plc_exc_half(d.exc_q14@, g, d.subfr_length as int, d.nb_subfr as int, 0);
    let h1 = plc_exc_half(d.exc_q14@, g, d.subfr_length as int, d.nb_subfr as int, 1);
    let s1 = final_shift(h0);
    let s2 = final_shift(h1);
    let e1 = energy_pass(h0, s1 as nat, 0);
    let e2 = energy_pass(h1, s2 as nat, 0);
    let n = d.s_plc.nb_subfr as int;
    let l = d.s_plc.subfr_length as int;
    if fx_shr(e1, s2) < fx_shr(e2, s1) {
        if (n - 1) * l - 128 > 0 { (n - 1) * l - 128 } else { 0 }
    } else {
        if n * l - 128 > 0 { n * l - 128 } else { 0 }
    }
}

/// The concealment LPC coefficients, zero beyond the order.
pub open spec fn conceal_a(d: SilkDecoderState) -> Seq<i16> {
    Seq::new(16, |j: int| if j < d.lpc_order { conceal_lpc(d)[j] } else { 0i16 })
}

/// The long-term concealment after all subframes ([`conceal_ltp`]).
#[verifier::opaque]
pub open spec fn conceal_state(d: SilkDecoderState) -> (Seq<i32>, int, int, Seq<i16>, int, int, int) {
    let order = d.lpc_order as int;
    let ltp_mem = d.ltp_mem_length as int;
    let lag0 = fx_rshift_round(d.s_plc.pitch_l_q8 as int, 8);
    let q0 = conceal_q0(d.out_buf@, ltp_mem, conceal_idx(ltp_mem, lag0, order), conceal_a(d), order,
        conceal_inv_gain(d.s_plc.prev_gain_q16@[1] as int));
    let r = conceal_rand(d, conceal_lpc(d));
    conceal_ltp(d.fs_khz as int, d.subfr_length as int, d.exc_q14@, conceal_rps(d), HARM_ATT_Q15@[att_index(d)] as int, r.1,
        (q0, ltp_mem, d.s_plc.rand_seed as int, d.s_plc.ltp_coef_q14@, r.0, d.s_plc.pitch_l_q8 as int, lag0), d.nb_subfr as nat)
}

/// The concealed signal (Q14): the long-term result with the saved LPC state
/// before position `ltp_mem`, through the short-term synthesis.
pub open spec fn conceal_signal(d: SilkDecoderState) -> Seq<i32> {
    let st = conceal_state(d);
    let ltp_mem = d.ltp_mem_length as int;
    let s_init = Seq::new(640, |j: int| if ltp_mem - 16 <= j < ltp_mem { d.s_lpc_q14_buf@[j - (ltp_mem - 16)] } else { st.0[j] });
    conceal_synth(s_init, ltp_mem, conceal_a(d), d.lpc_order as int, d.frame_length as nat)
}

/// The long-term part of concealment ([`conceal_state`]): prepares the
/// coefficients and noise, re-whitens the history and runs the subframes.
/// Returns the long-term buffer, the generator, the noise scale, the lag and
/// the LPC coefficients.
#[verifier::spinoff_prover]
#[verifier::rlimit(100)]
fn conceal_long_term(dec: &mut SilkDecoderState) -> (r: ([i32; 640], i32, i32, i32, [i16; 16]))
    requires
        conceal_ready(*old(dec)),
    ensures
        r.0@ == conceal_state(*old(dec)).0,
        r.1 == conceal_state(*old(dec)).2,
        r.2 == conceal_state(*old(dec)).4,
        r.3 == conceal_state(*old(dec)).6,
        r.4@ == conceal_a(*old(dec)),
        final(dec).s_plc.prev_lpc_q12@ == conceal_lpc(*old(dec)),
        *final(dec) == (SilkDecoderState {
            s_plc: SilkPlcState {
                prev_lpc_q12: final(dec).s_plc.prev_lpc_q12,
                pitch_l_q8: conceal_state(*old(dec)).5 as i32,
                ..old(dec).s_plc
            },
            ..*old(dec)
        }),
{
    let ghost d0 = *dec;
    let ltp_mem_length = dec.ltp_mem_length as usize;
    let frame_length = dec.frame_length as usize;
    let order = dec.lpc_order as usize;
    let nb_subfr = dec.nb_subfr as usize;
    let subfr_length = dec.subfr_length as usize;
    let prev_gain_q10 = [silk_rshift(dec.s_plc.prev_gain_q16[0], 6), silk_rshift(dec.s_plc.prev_gain_q16[1], 6)];
    assert(prev_gain_q10@ =~= conceal_gains_q10(d0));
    let (rand_scale0, rand_gain_q15) = conceal_prepare(dec);
    let ghost d1 = *dec;
    let (energy1, shift1, energy2, shift2) = plc_energy(&dec.exc_q14, &prev_gain_q10, subfr_length, nb_subfr);
    proof {
        lemma_final_shift_small(plc_exc_half(d0.exc_q14@, prev_gain_q10@, subfr_length as int, nb_subfr as int, 0));
        lemma_final_shift_small(plc_exc_half(d0.exc_q14@, prev_gain_q10@, subfr_length as int, nb_subfr as int, 1));
    }
    let pn = dec.s_plc.nb_subfr;
    let pl = dec.s_plc.subfr_length;
    assert(-80 <= (pn - 1) * pl <= 320 && 0 <= pn * pl <= 320) by (nonlinear_arith)
        requires 1 <= pn <= 4, 0 <= pl <= 80;
    let rand_ptr_start: usize = if silk_rshift(energy1, shift2) < silk_rshift(energy2, shift1) {
        silk_max(0, (pn - 1) * pl - RAND_BUF_SIZE) as usize
    } else {
        silk_max(0, pn * pl - RAND_BUF_SIZE) as usize
    };
    assert(rand_ptr_start == conceal_rps(d0));
    assert(rand_ptr_start + 128 <= 320) by (nonlinear_arith)
        requires rand_ptr_start == conceal_rps(d0), 1 <= pn <= 4, 0 <= pl <= 80, pn == d0.s_plc.nb_subfr, pl == d0.s_plc.subfr_length;
    let att_idx = silk_min(1, dec.loss_cnt) as usize;
    let harm_gain_q15 = HARM_ATT_Q15[att_idx] as i32;
    let mut a_q12 = [0i16; 16];
    let mut j: usize = 0;
    while j < order
        invariant
            j <= order <= 16,
            forall|t: int| 0 <= t < 16 ==> #[trigger] a_q12@[t] == (if t < j { d1.s_plc.prev_lpc_q12@[t] } else { 0i16 }),
            *dec == d1,
        decreases order - j,
    {
        a_q12[j] = dec.s_plc.prev_lpc_q12[j];
        j += 1;
    }
    assert(a_q12@ =~= conceal_a(d0));
    let lag0 = silk_rshift_round(dec.s_plc.pitch_l_q8, 8);
    let mut q = [0i32; 640];
    conceal_rewhiten(dec, &a_q12, order, lag0, &mut q);
    let mut b_q14 = dec.s_plc.ltp_coef_q14;
    let mut rand_scale_q14 = rand_scale0;
    let mut rand_seed = dec.s_plc.rand_seed;
    let mut lag = lag0;
    let mut buf_idx = ltp_mem_length;
    let ghost st0 = (q@, ltp_mem_length as int, rand_seed as int, b_q14@, rand_scale0 as int, d1.s_plc.pitch_l_q8 as int, lag0 as int);
    let ghost fs = dec.fs_khz as int;
    let ghost harm = harm_gain_q15 as int;
    let ghost rg = rand_gain_q15 as int;
    let ghost rps = rand_ptr_start as int;
    let mut k: usize = 0;
    while k < nb_subfr
        invariant
            k <= nb_subfr <= 4,
            1 <= subfr_length <= 80,
            buf_idx == ltp_mem_length + k * subfr_length,
            ltp_mem_length <= 320,
            rand_ptr_start + 128 <= 320,
            fs == d1.fs_khz,
            harm == harm_gain_q15,
            rg == rand_gain_q15,
            rps == rand_ptr_start,
            *dec == (SilkDecoderState { s_plc: SilkPlcState { pitch_l_q8: dec.s_plc.pitch_l_q8, ..d1.s_plc }, ..d1 }),
            ({
                let st = conceal_ltp(fs, subfr_length as int, d1.exc_q14@, rps, harm, rg, st0, k as nat);
                &&& q@ == st.0
                &&& buf_idx == st.1
                &&& rand_seed == st.2
                &&& b_q14@ == st.3
                &&& rand_scale_q14 == st.4
                &&& dec.s_plc.pitch_l_q8 == st.5
                &&& lag == st.6
            }),
        decreases nb_subfr - k,
    {
        assert(buf_idx <= 1000) by (nonlinear_arith)
            requires buf_idx == ltp_mem_length + k * subfr_length, ltp_mem_length <= 320, k <= 4, subfr_length <= 80;
        let ghost targs = (q@, buf_idx as int, rand_seed as int, b_q14@, rand_scale_q14 as int, dec.s_plc.pitch_l_q8 as int, lag as int);
        assert(conceal_ltp(fs, subfr_length as int, d1.exc_q14@, rps, harm, rg, st0, k as nat) == targs);
        conceal_subframe(&mut q, &dec.exc_q14, rand_ptr_start, &mut b_q14, &mut rand_scale_q14, &mut rand_seed,
            &mut buf_idx, &mut lag, &mut dec.s_plc.pitch_l_q8, dec.fs_khz, harm_gain_q15, rand_gain_q15, subfr_length);
        proof {
            assert((k + 1) * subfr_length == k * subfr_length + subfr_length) by (nonlinear_arith);
            let stk = conceal_ltp(fs, subfr_length as int, d1.exc_q14@, rps, harm, rg, st0, (k + 1) as nat);
            assert(stk == conceal_sub(fs, subfr_length as int, d1.exc_q14@, rps, harm, rg,
                    conceal_ltp(fs, subfr_length as int, d1.exc_q14@, rps, harm, rg, st0, k as nat)));
            assert(stk == conceal_sub(fs, subfr_length as int, d1.exc_q14@, rps, harm, rg, targs));
            assert(q@ == stk.0);
            assert(buf_idx == stk.1);
            assert(rand_seed == stk.2);
            assert(b_q14@ == stk.3);
            assert(rand_scale_q14 == stk.4);
            assert(dec.s_plc.pitch_l_q8 == stk.5);
            assert(lag == stk.6);
        }
        k += 1;
    }
    let ghost stn = conceal_ltp(fs, subfr_length as int, d1.exc_q14@, rps, harm, rg, st0, nb_subfr as nat);
    proof {
        assert(harm == HARM_ATT_Q15@[att_index(d0)]);
        assert(st0.0 == conceal_q0(d0.out_buf@, d0.ltp_mem_length as int,
            conceal_idx(d0.ltp_mem_length as int, fx_rshift_round(d0.s_plc.pitch_l_q8 as int, 8), d0.lpc_order as int),
            conceal_a(d0), d0.lpc_order as int, conceal_inv_gain(d0.s_plc.prev_gain_q16@[1] as int)));
        reveal(conceal_state);
        assert(stn == conceal_state(d0));
    }
    (q, rand_seed, rand_scale_q14, lag, a_q12)
}


/// Fills `frame_length` samples of `frame` for a lost
/// frame: the long-term filter of the last good frame driven by its own decaying
/// output plus decaying noise from the lower-energy recent excitation
/// ([`conceal_state`]), through the bandwidth-expanded LPC filter, scaled by
/// the last gain ([`conceal_signal`]). The state keeps the LPC state, the
/// coefficients, the generator, the noise scale and the drifted pitch lag;
/// every pitch lag of `ctrl` becomes the final lag.
#[verifier::spinoff_prover]
#[verifier::rlimit(100)]
pub fn plc_conceal(dec: &mut SilkDecoderState, ctrl: &mut SilkDecoderControl, frame: &mut [i16])
    requires
        conceal_ready(*old(dec)),
        old(frame)@.len() >= old(dec).frame_length,
    ensures
        final(frame)@.len() == old(frame)@.len(),
        forall|i: int| 0 <= i < old(dec).frame_length ==> #[trigger] final(frame)@[i] == out_sample(
            conceal_signal(*old(dec))[old(dec).ltp_mem_length + i] as int,
            fx_shr(old(dec).s_plc.prev_gain_q16@[1] as int, 6)),
        forall|i: int| old(dec).frame_length <= i < old(frame)@.len() ==> #[trigger] final(frame)@[i] == old(frame)@[i],
        final(dec).s_lpc_q14_buf@ == conceal_signal(*old(dec)).subrange(
            old(dec).ltp_mem_length - 16 + old(dec).frame_length, old(dec).ltp_mem_length + old(dec).frame_length),
        final(dec).s_plc.prev_lpc_q12@ == conceal_lpc(*old(dec)),
        *final(dec) == (SilkDecoderState {
            s_lpc_q14_buf: final(dec).s_lpc_q14_buf,
            s_plc: SilkPlcState {
                prev_lpc_q12: final(dec).s_plc.prev_lpc_q12,
                rand_seed: conceal_state(*old(dec)).2 as i32,
                rand_scale_q14: conceal_state(*old(dec)).4 as i16,
                pitch_l_q8: conceal_state(*old(dec)).5 as i32,
                ..old(dec).s_plc
            },
            ..*old(dec)
        }),
        final(ctrl).pitch_l@ == Seq::new(4, |i: int| conceal_state(*old(dec)).6 as i32),
        *final(ctrl) == (SilkDecoderControl { pitch_l: final(ctrl).pitch_l, ..*old(ctrl) }),
{
    let ghost d0 = *dec;
    let ltp_mem_length = dec.ltp_mem_length as usize;
    let frame_length = dec.frame_length as usize;
    let order = dec.lpc_order as usize;
    let prev_gain_q10_1 = silk_rshift(dec.s_plc.prev_gain_q16[1], 6);
    let (mut q, rand_seed, rand_scale_q14, lag, a_q12) = conceal_long_term(dec);
    let ghost d1 = *dec;
    let ghost stn = conceal_state(d0);
    let slpc_base = ltp_mem_length - 16;
    let mut j: usize = 0;
    while j < 16
        invariant
            j <= 16,
            slpc_base + 16 == ltp_mem_length,
            ltp_mem_length <= 320,
            forall|u: int| 0 <= u < 640 ==> #[trigger] q@[u] == (if slpc_base <= u < slpc_base + j {
                dec.s_lpc_q14_buf@[u - slpc_base]
            } else {
                stn.0[u]
            }),
        decreases 16 - j,
    {
        q[slpc_base + j] = dec.s_lpc_q14_buf[j];
        j += 1;
    }
    let ghost s_init = q@;
    assert(s_init =~= Seq::new(640, |j: int| if d0.ltp_mem_length - 16 <= j < d0.ltp_mem_length {
        d0.s_lpc_q14_buf@[j - (d0.ltp_mem_length - 16)]
    } else {
        conceal_state(d0).0[j]
    }));
    conceal_lpc_synth(&mut q, ltp_mem_length, &a_q12, order, frame_length, prev_gain_q10_1, frame);
    let mut j: usize = 0;
    while j < 16
        invariant
            j <= 16,
            slpc_base + 16 == ltp_mem_length,
            ltp_mem_length <= 320,
            frame_length <= 320,
            forall|u: int| 0 <= u < 16 ==> #[trigger] dec.s_lpc_q14_buf@[u] == (if u < j { q@[slpc_base + frame_length + u] } else { d1.s_lpc_q14_buf@[u] }),
            *dec == (SilkDecoderState {
                s_lpc_q14_buf: dec.s_lpc_q14_buf,
                ..d1
            }),
        decreases 16 - j,
    {
        dec.s_lpc_q14_buf[j] = q[slpc_base + frame_length + j];
        j += 1;
    }
    dec.s_plc.rand_seed = rand_seed;
    dec.s_plc.rand_scale_q14 = rand_scale_q14 as i16;
    let mut j: usize = 0;
    while j < 4
        invariant
            j <= 4,
            forall|u: int| 0 <= u < 4 ==> #[trigger] ctrl.pitch_l@[u] == (if u < j { lag } else { old(ctrl).pitch_l@[u] }),
            *ctrl == (SilkDecoderControl { pitch_l: ctrl.pitch_l, ..*old(ctrl) }),
        decreases 4 - j,
    {
        ctrl.pitch_l[j] = lag;
        j += 1;
    }
    proof {
        assert(dec.s_plc == (SilkPlcState {
                prev_lpc_q12: dec.s_plc.prev_lpc_q12,
                rand_seed: conceal_state(d0).2 as i32,
                rand_scale_q14: conceal_state(d0).4 as i16,
                pitch_l_q8: conceal_state(d0).5 as i32,
                ..d0.s_plc
            }));
        assert(ctrl.pitch_l@ =~= Seq::new(4, |i: int| conceal_state(d0).6 as i32));
        assert(dec.s_lpc_q14_buf@ =~= conceal_signal(d0).subrange(d0.ltp_mem_length - 16 + d0.frame_length, d0.ltp_mem_length + d0.frame_length));
    }
}

/// The state that concealment or the update starts from: when the decoder's
/// rate differs from the one the concealment state was set up for, the state
/// after [`reset`] with the new rate recorded; otherwise the state itself.
pub open spec fn plc_entry(d: SilkDecoderState) -> SilkDecoderState {
    if d.fs_khz != d.s_plc.fs_khz {
        SilkDecoderState {
            s_plc: SilkPlcState {
                pitch_l_q8: fx_shl32(d.frame_length as int, 7) as i32,
                prev_gain_q16: [65536i32, 65536i32],
                subfr_length: 20,
                nb_subfr: 2,
                fs_khz: d.fs_khz,
                ..d.s_plc
            },
            ..d
        }
    } else {
        d
    }
}

/// After re-initialising the concealment state on a change of
/// rate ([`plc_entry`]), a lost frame is concealed ([`plc_conceal`]) and
/// counted in `loss_cnt`; a good frame only updates the concealment state
/// from its parameters ([`plc_update`]), leaving `frame` untouched.
pub fn silk_plc(dec: &mut SilkDecoderState, ctrl: &mut SilkDecoderControl, frame: &mut [i16], lost: bool)
    requires
        lost ==> conceal_ready(plc_entry(*old(dec))),
        lost ==> old(frame)@.len() >= old(dec).frame_length,
        lost ==> old(dec).loss_cnt < i32::MAX,
        !lost ==> 2 <= old(dec).nb_subfr <= 4,
        !lost ==> 0 <= old(dec).lpc_order <= 16,
        !lost ==> -0x1000_0000 <= old(dec).subfr_length < 0x1000_0000,
    ensures
        final(frame)@.len() == old(frame)@.len(),
        ({
            let e = plc_entry(*old(dec));
            lost ==> {
                &&& forall|i: int| 0 <= i < e.frame_length ==> #[trigger] final(frame)@[i] == out_sample(
                    conceal_signal(e)[e.ltp_mem_length + i] as int,
                    fx_shr(e.s_plc.prev_gain_q16@[1] as int, 6))
                &&& forall|i: int| e.frame_length <= i < old(frame)@.len() ==> #[trigger] final(frame)@[i] == old(frame)@[i]
                &&& final(dec).s_lpc_q14_buf@ == conceal_signal(e).subrange(
                    e.ltp_mem_length - 16 + e.frame_length, e.ltp_mem_length + e.frame_length)
                &&& final(dec).s_plc.prev_lpc_q12@ == conceal_lpc(e)
                &&& *final(dec) == (SilkDecoderState {
                    loss_cnt: (e.loss_cnt + 1) as i32,
                    s_lpc_q14_buf: final(dec).s_lpc_q14_buf,
                    s_plc: SilkPlcState {
                        prev_lpc_q12: final(dec).s_plc.prev_lpc_q12,
                        rand_seed: conceal_state(e).2 as i32,
                        rand_scale_q14: conceal_state(e).4 as i16,
                        pitch_l_q8: conceal_state(e).5 as i32,
                        ..e.s_plc
                    },
                    ..e
                })
                &&& final(ctrl).pitch_l@ == Seq::new(4, |i: int| conceal_state(e).6 as i32)
                &&& *final(ctrl) == (SilkDecoderControl { pitch_l: final(ctrl).pitch_l, ..*old(ctrl) })
            }
        }),
        ({
            let e = plc_entry(*old(dec));
            !lost ==> {
                &&& final(frame)@ == old(frame)@
                &&& *final(ctrl) == *old(ctrl)
                &&& final(dec).s_plc.ltp_coef_q14@ == seq![0i16, 0i16, plc_mid_tap(plc_params(e, *old(ctrl)).0), 0i16, 0i16]
                &&& final(dec).s_plc.prev_lpc_q12@ == Seq::new(16, |i: int| if i < e.lpc_order {
                    old(ctrl).pred_coef_q12@[1]@[i]
                } else {
                    e.s_plc.prev_lpc_q12@[i]
                })
                &&& final(dec).s_plc.prev_gain_q16@ == seq![
                    old(ctrl).gains_q16@[e.nb_subfr - 2],
                    old(ctrl).gains_q16@[e.nb_subfr - 1]
                ]
                &&& *final(dec) == (SilkDecoderState {
                    prev_signal_type: e.indices.signal_type as i32,
                    s_plc: SilkPlcState {
                        pitch_l_q8: plc_params(e, *old(ctrl)).1 as i32,
                        ltp_coef_q14: final(dec).s_plc.ltp_coef_q14,
                        prev_lpc_q12: final(dec).s_plc.prev_lpc_q12,
                        prev_ltp_scale_q14: old(ctrl).ltp_scale_q14 as i16,
                        prev_gain_q16: final(dec).s_plc.prev_gain_q16,
                        subfr_length: e.subfr_length,
                        nb_subfr: e.nb_subfr,
                        ..e.s_plc
                    },
                    ..e
                })
            }
        }),
{
    if dec.fs_khz != dec.s_plc.fs_khz {
        reset(dec);
        dec.s_plc.fs_khz = dec.fs_khz;
        assert(dec.s_plc.prev_gain_q16 =~= [65536i32, 65536i32]);
    }
    assert(*dec == plc_entry(*old(dec)));
    if lost {
        plc_conceal(dec, ctrl, frame);
        dec.loss_cnt = dec.loss_cnt + 1;
    } else {
        plc_update(dec, ctrl);
    }
}

/// The energy of `x` and its shift, as [`silk_sum_sqr_shift`] computes them.
pub open spec fn glue_energy(x: Seq<i16>) -> (int, int) {
    (energy_pass(x, final_shift(x) as nat, 0), final_shift(x))
}

/// The energies of the new frame and of the concealed one brought to the
/// larger of their shifts: `(new, concealed)`.
pub open spec fn glue_norm(es: int, e: int, cs: int, c: int) -> (int, int) {
    if es > cs {
        (e, fx_shr(c, es - cs))
    } else if es < cs {
        (fx_shr(e, cs - es), c)
    } else {
        (e, c)
    }
}

/// The headroom used to normalise the concealed energy `c`.
pub open spec fn glue_lz(c: int) -> int {
    fx_clz32(c) - 1
}

/// The gain ramp (Q16) from the concealed energy `c` to the new energy `e`
/// over `len` samples: the start gain, the square root of their ratio, and
/// the per-sample step that would reach unit gain at the end.
pub open spec fn glue_ramp(c: int, e: int, len: int) -> (int, int) {
    let lz = glue_lz(c);
    let cn = fx_shl32(c, lz);
    let en = fx_shr(e, if 24 - lz > 0 { 24 - lz } else { 0 });
    let frac = fx_div32(cn, if en > 1 { en } else { 1 });
    let g0 = fx_shl32(fx_sqrt_approx(frac as i32), 4);
    (g0, fx_shl32(fx_div32(65536 - g0, len), 2))
}

/// The number of leading samples (out of `n`) the ramp from `g` by `slope`
/// scales: each sample is scaled, and the ramp stops after the first sample
/// whose next gain exceeds unit gain.
pub open spec fn glue_count(g: int, slope: int, n: nat) -> nat
    decreases n,
{
    if n == 0 {
        0
    } else if g + slope > 65536 {
        1
    } else {
        1 + glue_count(g + slope, slope, (n - 1) as nat)
    }
}

/// `f` with its first [`glue_count`] samples scaled by the ramp.
pub open spec fn glue_frame(f: Seq<i16>, len: nat, g0: int, slope: int) -> Seq<i16> {
    Seq::new(f.len(), |j: int| if j < glue_count(g0, slope, len) {
        fx_smulwb(g0 + j * slope, f[j] as int) as i16
    } else {
        f[j]
    })
}

/// The frame glue stays within the shift range: after a concealed stretch the
/// two energy shifts differ by less than 32, and a concealed energy below the
/// new one is not negative.
pub open spec fn glue_ok(d: SilkDecoderState, x: Seq<i16>) -> bool {
    let en = glue_energy(x);
    let cs = d.s_plc.conc_energy_shift as int;
    let n = glue_norm(en.1, en.0, cs, d.s_plc.conc_energy as int);
    (d.loss_cnt == 0 && d.s_plc.last_frame_lost) ==> {
        &&& -32 < en.1 - cs < 32
        &&& n.0 > n.1 ==> n.1 >= 0
    }
}

/// The square-root approximation stays within `0..=65536`.
proof fn lemma_sqrt_approx_range(x: i32)
    ensures
        0 <= fx_sqrt_approx(x) <= 65536,
{
    if x > 0 {
        let lz = fx_clz32(x as int);
        let f = fx_frac_q7(x);
        let y0: int = if lz % 2 == 1 { 32768 } else { 46214 };
        vstd::arithmetic::power2::lemma_pow2_pos((lz / 2) as nat);
        let y = y0 / (pow2((lz / 2) as nat) as int);
        vstd::arithmetic::div_mod::lemma_div_is_ordered_by_denominator(y0, 1, pow2((lz / 2) as nat) as int);
        assert(0 <= y <= 46214);
        let v = rotr32(x as u32, ((24 - lz) as i32 & 31i32) as u32);
        assert(v & 0x7fu32 <= 0x7fu32) by (bit_vector);
        assert(0 <= f <= 127);
        crate::arith::lemma_wrap16_small(213 * f);
        let p = y * (213 * f);
        assert(0 <= p <= 46214 * 27051) by (nonlinear_arith) requires 0 <= y <= 46214, 0 <= f <= 127, p == y * (213 * f);
        vstd::arithmetic::div_mod::lemma_div_is_ordered(p, 46214int * 27051, 0x1_0000);
        crate::arith::lemma_wrap_id(y + p / 0x1_0000, 0x8000_0000);
    }
}

/// The steps of a ramp from `g0` by four times the truncated quotient of
/// `65536 - g0` by `len` stay within `4 |65536 - g0|` of `g0`.
proof fn lemma_ramp_steps(g0: int, len: int, i: int)
    requires
        1 <= len,
        0 <= i <= len,
        0 <= g0 <= 0x10_0000,
    ensures
        -0x40_0000 <= i * (4 * crate::arith::tdiv(65536 - g0, len)) <= 0x40_0000,
        -0x40_0000 <= crate::arith::tdiv(65536 - g0, len) <= 0x10_0000,
{
    let d = 65536 - g0;
    let q = crate::arith::tdiv(d, len);
    if d >= 0 {
        assert(0 <= q * len <= d) by (nonlinear_arith) requires d >= 0, len >= 1, q == d / len;
        assert(0 <= i * q <= len * q) by (nonlinear_arith) requires 0 <= i <= len, q >= 0 || q * len >= 0, len >= 1, q * len >= 0;
    } else {
        let m = (d * -1) / len;
        assert(q == m * -1);
        assert(0 <= m * len <= -d) by (nonlinear_arith) requires -d > 0, len >= 1, m == (d * -1) / len;
        assert(0 <= i * m <= len * m) by (nonlinear_arith) requires 0 <= i <= len, len >= 1, m * len >= 0;
        assert(i * q == -(i * m)) by (nonlinear_arith) requires q == m * -1;
    }
    assert(i * (4 * q) == 4 * (i * q)) by (nonlinear_arith);
}

/// Scales the first samples of `frame[..length]` by the ramp from `g0` by
/// `slope` ([`glue_frame`]).
fn glue_fade(frame: &mut [i16], length: usize, g0: i32, slope: i32)
    requires
        1 <= length <= old(frame)@.len(),
        length <= i32::MAX,
        0 <= g0 <= 0x10_0000,
        slope == 4 * crate::arith::tdiv(65536 - g0, length as int),
    ensures
        final(frame)@ == glue_frame(old(frame)@, length as nat, g0 as int, slope as int),
{
    let ghost f0 = frame@;
    let mut gain = g0;
    let mut i: usize = 0;
    let mut go = true;
    while go && i < length
        invariant
            i <= length <= f0.len(),
            frame@.len() == f0.len(),
            0 <= g0 <= 0x10_0000,
            slope == 4 * crate::arith::tdiv(65536 - g0, length as int),
            gain == g0 + i * slope,
            go ==> glue_count(g0 as int, slope as int, length as nat) == i + glue_count(gain as int, slope as int, (length - i) as nat),
            !go ==> glue_count(g0 as int, slope as int, length as nat) == i,
            forall|j: int| 0 <= j < i ==> #[trigger] frame@[j] == fx_smulwb(g0 + j * slope, f0[j] as int) as i16,
            forall|j: int| i <= j < f0.len() ==> #[trigger] frame@[j] == f0[j],
        decreases length - i, (if go { 1int } else { 0int }),
    {
        proof {
            lemma_ramp_steps(g0 as int, length as int, i as int);
            lemma_ramp_steps(g0 as int, length as int, (i + 1) as int);
            assert((i + 1) * slope == i * slope + slope) by (nonlinear_arith);
        }
        let v = silk_smulwb(gain, frame[i] as i32);
        frame[i] = v as i16;
        gain = gain + slope;
        i = i + 1;
        if gain > 65536 {
            go = false;
        }
    }
    proof {
        let c = glue_count(g0 as int, slope as int, length as nat);
        assert(c <= length) by {
            if go {
                assert(i == length);
            }
        }
    }
    assert(frame@ =~= glue_frame(f0, length as nat, g0 as int, slope as int));
}

/// Smooths the join after concealment. While frames are being concealed it
/// saves the energy of the concealed frame ([`glue_energy`]) and marks the
/// loss. On the first good frame after a loss it brings the two energies to
/// a common shift ([`glue_norm`]) and, where the new frame is louder, fades it
/// in with a gain ramp from the square root of their ratio up to unit gain
/// ([`glue_ramp`], [`glue_frame`]); the concealed energy kept is the
/// normalised one. Otherwise nothing but the loss mark changes.
pub fn silk_plc_glue_frames(dec: &mut SilkDecoderState, frame: &mut [i16], length: usize)
    requires
        length <= old(frame)@.len(),
        length <= i32::MAX,
        glue_ok(*old(dec), old(frame)@.subrange(0, length as int)),
    ensures
        ({
            let x = old(frame)@.subrange(0, length as int);
            let en = glue_energy(x);
            let d = *old(dec);
            let n = glue_norm(en.1, en.0, d.s_plc.conc_energy_shift as int, d.s_plc.conc_energy as int);
            let r = glue_ramp(n.1, n.0, length as int);
            &&& d.loss_cnt != 0 ==> {
                &&& final(frame)@ == old(frame)@
                &&& *final(dec) == (SilkDecoderState {
                    s_plc: SilkPlcState {
                        conc_energy: en.0 as i32,
                        conc_energy_shift: en.1 as i32,
                        last_frame_lost: true,
                        ..d.s_plc
                    },
                    ..d
                })
            }
            &&& (d.loss_cnt == 0 && !d.s_plc.last_frame_lost) ==> {
                &&& final(frame)@ == old(frame)@
                &&& *final(dec) == d
            }
            &&& (d.loss_cnt == 0 && d.s_plc.last_frame_lost) ==> {
                &&& final(frame)@ == (if n.0 > n.1 { glue_frame(old(frame)@, length as nat, r.0, r.1) } else { old(frame)@ })
                &&& *final(dec) == (SilkDecoderState {
                    s_plc: SilkPlcState {
                        conc_energy: (if n.0 > n.1 { fx_shl32(n.1, glue_lz(n.1)) } else { n.1 }) as i32,
                        last_frame_lost: false,
                        ..d.s_plc
                    },
                    ..d
                })
            }
        }),
{
    let ghost d = *dec;
    let ghost x = frame@.subrange(0, length as int);
    if dec.loss_cnt != 0 {
        let (energy, shift) = silk_sum_sqr_shift(vstd::slice::slice_subrange(frame, 0, length));
        dec.s_plc.conc_energy = energy;
        dec.s_plc.conc_energy_shift = shift;
        dec.s_plc.last_frame_lost = true;
    } else {
        if dec.s_plc.last_frame_lost {
            let (mut energy, energy_shift) = silk_sum_sqr_shift(vstd::slice::slice_subrange(frame, 0, length));
            if energy_shift > dec.s_plc.conc_energy_shift {
                dec.s_plc.conc_energy = silk_rshift(dec.s_plc.conc_energy, energy_shift - dec.s_plc.conc_energy_shift);
            } else if energy_shift < dec.s_plc.conc_energy_shift {
                energy = silk_rshift(energy, dec.s_plc.conc_energy_shift - energy_shift);
            }
            if energy > dec.s_plc.conc_energy {
                let lz = silk_clz32(dec.s_plc.conc_energy) - 1;
                proof {
                    vstd::arithmetic::power2::lemma2_to64();
                    crate::arith::lemma_bit_length_bound(dec.s_plc.conc_energy as nat, 31);
                }
                dec.s_plc.conc_energy = silk_lshift(dec.s_plc.conc_energy, lz);
                let energy = silk_rshift(energy, silk_max(24 - lz, 0));
                let frac_q24 = silk_div32(dec.s_plc.conc_energy, silk_max(energy, 1));
                let sq = silk_sqrt_approx(frac_q24);
                proof {
                    lemma_sqrt_approx_range(frac_q24);
                    vstd::arithmetic::power2::lemma2_to64();
                    crate::arith::lemma_wrap_id(sq * 16, 0x8000_0000);
                }
                let gain_q16_start = silk_lshift(sq, 4);
                proof {
                    lemma_ramp_steps(gain_q16_start as int, length as int, 0);
                    crate::arith::lemma_wrap_id(crate::arith::tdiv(65536 - gain_q16_start, length as int), 0x8000_0000);
                    crate::arith::lemma_wrap_id(crate::arith::tdiv(65536 - gain_q16_start, length as int) * 4, 0x8000_0000);
                }
                let slope_q16 = silk_lshift(silk_div32(65536 - gain_q16_start, length as i32), 2);
                glue_fade(frame, length, gain_q16_start, slope_q16);
            }
        }
        dec.s_plc.last_frame_lost = false;
    }
}

/// One concealed subframe ([`conceal_sub`]).
fn conceal_subframe(
    q: &mut [i32; 640], exc: &[i32; 320], rps: usize, b: &mut [i16; 5], rs: &mut i32, seed: &mut i32,
    bi: &mut usize, lag: &mut i32, pitch: &mut i32, fs_khz: i32, harm: i32, rgain: i32, subfr: usize,
)
    requires
        rps + 128 <= 320,
        *old(bi) <= 1000,
        subfr <= 80,
    ensures
        ({
            let st = conceal_sub(fs_khz as int, subfr as int, exc@, rps as int, harm as int, rgain as int,
                (old(q)@, *old(bi) as int, *old(seed) as int, old(b)@, *old(rs) as int, *old(pitch) as int, *old(lag) as int));
            &&& final(q)@ == st.0
            &&& *final(bi) == st.1
            &&& *final(seed) == st.2
            &&& final(b)@ == st.3
            &&& *final(rs) == st.4
            &&& *final(pitch) == st.5
            &&& *final(lag) == st.6
        }),
        *final(bi) == *old(bi) + subfr,
{
    *seed = conceal_subframe_ltp(q, exc, rps, b, *rs, *seed, *bi, *lag, subfr);
    *bi = *bi + subfr;
    let ghost bprev = b@;
    let mut t: usize = 0;
    while t < 5
        invariant
            t <= 5,
            forall|u: int| 0 <= u < 5 ==> #[trigger] b@[u] == (if u < t {
                fx_shr(lo16(harm) * lo16(bprev[u] as i32), 15) as i16
            } else {
                bprev[u]
            }),
        decreases 5 - t,
    {
        b[t] = silk_rshift(silk_smulbb(harm, b[t] as i32), 15) as i16;
        t += 1;
    }
    *rs = silk_rshift(silk_smulbb(*rs, rgain), 15);
    let p1 = silk_smlawb(*pitch, *pitch, PITCH_DRIFT_FAC_Q16);
    proof { crate::arith::lemma_wrap16_small(18); }
    let cap = silk_lshift(silk_smulbb(MAX_PITCH_LAG_MS, fs_khz), 8);
    *pitch = silk_min(p1, cap);
    *lag = silk_rshift_round(*pitch, 8);
    proof {
        reveal(conceal_sub);
        assert(b@ =~= Seq::new(5, |u: int| fx_shr(lo16(harm) * lo16(bprev[u] as i32), 15) as i16));
    }
}

} // verus!
