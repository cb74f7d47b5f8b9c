//! NLSF decoding of the standalone decoder: codebook unpacking, predictive
//! residual dequantization, first-stage reconstruction and stabilization.

use vstd::prelude::*;
use vstd::arithmetic::power2::pow2;
use crate::arith::{clamp, tdiv, lemma_wrap_id};
use crate::silk::nlsf_stabilize::{fallback, min_gap, spacings_fit, widen_passes, MAX_LOOPS};
use crate::silk::sort::sorted_i16;
use crate::silk::tables::{NlsfCodebook, nlsf_cb_wf};

verus! {

/// The dequantized levels are pulled toward zero by 0.1.
pub const NLSF_QUANT_LEVEL_ADJ_Q10: i32 = 102;

/// The selector byte of first-stage vector `idx` that serves coefficient `i`.
pub open spec fn sel_entry(cb: NlsfCodebook, idx: int, i: int) -> u8 {
    cb.ec_sel@[idx * cb.order / 2 + i / 2]
}

/// The entropy-table offset of coefficient `i`: bits 1..3 (even `i`) or 5..7
/// (odd `i`) of its selector, times the table size 9.
pub open spec fn unpack_ec_ix(cb: NlsfCodebook, idx: int, i: int) -> int {
    let e = sel_entry(cb, idx, i);
    if i % 2 == 0 { ((e >> 1u8) & 7u8) * 9 } else { ((e >> 5u8) & 7u8) * 9 }
}

/// The position in the predictor table of coefficient `i`: bit 0 (even `i`) or
/// bit 4 (odd `i`) of its selector picks the second half of the table.
pub open spec fn unpack_pred_index(cb: NlsfCodebook, idx: int, i: int) -> int {
    let e = sel_entry(cb, idx, i);
    if i % 2 == 0 { i + (e & 1u8) * (cb.order - 1) } else { i + ((e >> 4u8) & 1u8) * (cb.order - 1) }
}

/// Every predictor position of first-stage vector `idx` lies in the table (the
/// codebooks of this decoder never select the second half for the last value).
pub open spec fn unpack_fits(cb: NlsfCodebook, idx: int) -> bool {
    forall|i: int| 0 <= i < cb.order ==> #[trigger] unpack_pred_index(cb, idx, i) < cb.pred_q8@.len()
}

/// The predictor coefficients (Q8) of first-stage vector `idx`.
pub open spec fn unpack_pred(cb: NlsfCodebook, idx: int) -> Seq<u8> {
    Seq::new(cb.order as nat, |i: int| cb.pred_q8@[unpack_pred_index(cb, idx, i)])
}

proof fn lemma_selector_bits(e: u8)
    ensures
        (e >> 1u8) & 7u8 <= 7,
        (e >> 5u8) & 7u8 <= 7,
        e & 1u8 <= 1,
        (e >> 4u8) & 1u8 <= 1,
{
    assert((e >> 1u8) & 7u8 <= 7 && (e >> 5u8) & 7u8 <= 7 && e & 1u8 <= 1 && (e >> 4u8) & 1u8 <= 1) by (bit_vector);
}

/// Unpacks, for first-stage vector `cb1_index`, the entropy-table offset and the
/// predictor coefficient of each of the `order` coefficients. Entries from
/// `order` on are left as they were.
pub fn silk_nlsf_unpack(ec_ix: &mut [i16], pred_q8: &mut [u8], nlsf_cb: &NlsfCodebook, cb1_index: usize)
    requires
        nlsf_cb_wf(*nlsf_cb),
        cb1_index < 32,
        old(ec_ix)@.len() >= nlsf_cb.order,
        old(pred_q8)@.len() >= nlsf_cb.order,
        unpack_fits(*nlsf_cb, cb1_index as int),
    ensures
        final(ec_ix)@.len() == old(ec_ix)@.len(),
        final(pred_q8)@.len() == old(pred_q8)@.len(),
        forall|i: int| 0 <= i < nlsf_cb.order ==> #[trigger] final(ec_ix)@[i] == unpack_ec_ix(*nlsf_cb, cb1_index as int, i),
        forall|i: int| 0 <= i < nlsf_cb.order ==> #[trigger] final(pred_q8)@[i] == unpack_pred(*nlsf_cb, cb1_index as int)[i],
        forall|i: int| nlsf_cb.order <= i < old(ec_ix)@.len() ==> #[trigger] final(ec_ix)@[i] == old(ec_ix)@[i],
        forall|i: int| nlsf_cb.order <= i < old(pred_q8)@.len() ==> #[trigger] final(pred_q8)@[i] == old(pred_q8)@[i],
{
    let order = nlsf_cb.order as usize;
    assert(cb1_index * order <= 31 * 16) by (nonlinear_arith)
        requires cb1_index < 32, order <= 16;
    let base = cb1_index * order / 2;
    let ghost cb = *nlsf_cb;
    let ghost idx = cb1_index as int;
    let mut i: usize = 0;
    while i < order
        invariant
            nlsf_cb_wf(cb),
            cb == *nlsf_cb,
            idx == cb1_index as int,
            cb1_index < 32,
            order == cb.order,
            base == idx * order / 2,
            i % 2 == 0,
            i <= order,
            unpack_fits(cb, idx),
            ec_ix@.len() == old(ec_ix)@.len(),
            pred_q8@.len() == old(pred_q8)@.len(),
            ec_ix@.len() >= order,
            pred_q8@.len() >= order,
            forall|j: int| 0 <= j < i ==> #[trigger] ec_ix@[j] == unpack_ec_ix(cb, idx, j),
            forall|j: int| 0 <= j < i ==> #[trigger] pred_q8@[j] == unpack_pred(cb, idx)[j],
            forall|j: int| i <= j < old(ec_ix)@.len() ==> #[trigger] ec_ix@[j] == old(ec_ix)@[j],
            forall|j: int| i <= j < old(pred_q8)@.len() ==> #[trigger] pred_q8@[j] == old(pred_q8)@[j],
        decreases order - i,
    {
        proof {
            assert(idx * order / 2 + i as int / 2 < cb.ec_sel@.len()) by (nonlinear_arith)
                requires
                    0 <= idx < 32,
                    order == 10 || order == 16,
                    i % 2 == 0,
                    0 <= i < order,
                    cb.ec_sel@.len() == 32 * order / 2;
        }
        let entry = nlsf_cb.ec_sel[base + i / 2];
        proof {
            lemma_selector_bits(entry);
            assert(sel_entry(cb, idx, i as int) == entry);
            assert(sel_entry(cb, idx, i as int + 1) == entry);
            assert(unpack_pred_index(cb, idx, i as int) < cb.pred_q8@.len());
            assert(unpack_pred_index(cb, idx, i as int + 1) < cb.pred_q8@.len());
        }
        ec_ix[i] = (((entry >> 1u8) & 7u8) as i16) * 9;
        let pe = i + ((entry & 1u8) as usize) * (order - 1);
        pred_q8[i] = nlsf_cb.pred_q8[pe];
        ec_ix[i + 1] = (((entry >> 5u8) & 7u8) as i16) * 9;
        let po = i + (((entry >> 4u8) & 1u8) as usize) * (order - 1) + 1;
        pred_q8[i + 1] = nlsf_cb.pred_q8[po];
        i += 2;
    }
}

/// A quantization index in Q10, pulled toward zero by [`NLSF_QUANT_LEVEL_ADJ_Q10`].
pub open spec fn level_q10(q: int) -> int {
    let v = q * 1024;
    if v > 0 { v - NLSF_QUANT_LEVEL_ADJ_Q10 } else if v < 0 { v + NLSF_QUANT_LEVEL_ADJ_Q10 } else { 0 }
}

/// The dequantized residual (Q10) of coefficient `i`, predicted backward from
/// coefficient `i + 1`: `floor(next * pred[i] / 2^8) + floor(level * step / 2^16)`.
pub open spec fn dequant_at(ind: Seq<i8>, pred: Seq<u8>, step: int, order: int, i: int) -> int
    decreases order - i,
{
    if i >= order {
        0
    } else {
        let next = dequant_at(ind, pred, step, order, i + 1);
        (next * pred[i]) / 256 + (level_q10(ind[i] as int) * step) / 65536
    }
}

/// The residual recursion stays within `2^23` in magnitude.
proof fn lemma_dequant_bound(ind: Seq<i8>, pred: Seq<u8>, step: int, order: int, i: int)
    requires
        0 <= step <= 16384,
        0 <= i,
        order <= ind.len(),
        order <= pred.len(),
    ensures
        -0x80_0000 <= dequant_at(ind, pred, step, order, i) <= 0x80_0000,
    decreases order - i,
{
    if i < order {
        lemma_dequant_bound(ind, pred, step, order, i + 1);
        let next = dequant_at(ind, pred, step, order, i + 1);
        let p = pred[i] as int;
        let lv = level_q10(ind[i] as int);
        assert(-130970 <= lv <= 130970);
        assert(-0x80_0000 * 255 <= next * p <= 0x80_0000 * 255) by (nonlinear_arith)
            requires -0x80_0000 <= next <= 0x80_0000, 0 <= p <= 255;
        assert(-130970 * 16384 <= lv * step <= 130970 * 16384) by (nonlinear_arith)
            requires -130970 <= lv <= 130970, 0 <= step <= 16384;
        vstd::arithmetic::div_mod::lemma_div_is_ordered(-0x80_0000 * 255, next * p, 256);
        vstd::arithmetic::div_mod::lemma_div_is_ordered(next * p, 0x80_0000int * 255, 256);
        vstd::arithmetic::div_mod::lemma_div_is_ordered(-130970 * 16384, lv * step, 65536);
        vstd::arithmetic::div_mod::lemma_div_is_ordered(lv * step, 130970int * 16384, 65536);
    }
}

/// Predictive dequantizer: from the last coefficient down, `x_q10[i]` becomes
/// the residual [`dequant_at`] truncated to 16 bits. Entries from `order` on
/// are left as they were.
pub fn silk_nlsf_residual_dequant(
    x_q10: &mut [i16],
    indices: &[i8],
    pred_coef_q8: &[u8],
    quant_step_size_q16: i32,
    order: usize,
)
    requires
        old(x_q10)@.len() >= order,
        indices@.len() >= order,
        pred_coef_q8@.len() >= order,
        0 <= quant_step_size_q16 <= 16384,
    ensures
        final(x_q10)@.len() == old(x_q10)@.len(),
        forall|i: int| 0 <= i < order ==> #[trigger] final(x_q10)@[i] == dequant_at(
            indices@, pred_coef_q8@, quant_step_size_q16 as int, order as int, i) as i16,
        forall|i: int| order <= i < old(x_q10)@.len() ==> #[trigger] final(x_q10)@[i] == old(x_q10)@[i],
{
    let ghost ind = indices@;
    let ghost pred = pred_coef_q8@;
    let ghost step = quant_step_size_q16 as int;
    let mut out_q10: i32 = 0;
    let mut i: usize = order;
    proof { vstd::arithmetic::power2::lemma2_to64(); }
    while i > 0
        invariant
            i <= order,
            ind == indices@,
            pred == pred_coef_q8@,
            step == quant_step_size_q16,
            0 <= step <= 16384,
            ind.len() >= order,
            pred.len() >= order,
            x_q10@.len() == old(x_q10)@.len(),
            x_q10@.len() >= order,
            out_q10 == dequant_at(ind, pred, step, order as int, i as int),
            pow2(8) == 256 && pow2(10) == 1024 && pow2(16) == 65536,
            forall|j: int| i <= j < order ==> #[trigger] x_q10@[j] == dequant_at(ind, pred, step, order as int, j) as i16,
            forall|j: int| order <= j < old(x_q10)@.len() ==> #[trigger] x_q10@[j] == old(x_q10)@[j],
        decreases i,
    {
        i -= 1;
        proof {
            lemma_dequant_bound(ind, pred, step, order as int, i as int + 1);
        }
        let p = pred_coef_q8[i] as i32;
        assert(-0x80_0000 * 255 <= out_q10 * p <= 0x80_0000 * 255) by (nonlinear_arith)
            requires -0x80_0000 <= out_q10 <= 0x80_0000, 0 <= p <= 255;
        let prod = out_q10 * p;
        proof { crate::arith::lemma_i32_shr_is_div(prod, 8); }
        let pred_q10 = prod >> 8u32;
        let q = indices[i] as i32;
        proof {
            crate::arith::lemma_i32_shl_is_mul(q, 10);
            lemma_wrap_id(q * 1024, 0x8000_0000);
        }
        let mut v = q << 10u32;
        if v > 0 {
            v -= NLSF_QUANT_LEVEL_ADJ_Q10;
        } else if v < 0 {
            v += NLSF_QUANT_LEVEL_ADJ_Q10;
        }
        assert(v == level_q10(q as int));
        assert(-130970 * 16384 <= v * quant_step_size_q16 <= 130970 * 16384) by (nonlinear_arith)
            requires -130970 <= v <= 130970, 0 <= quant_step_size_q16 <= 16384;
        let scaled = v * quant_step_size_q16;
        proof { crate::arith::lemma_i32_shr_is_div(scaled, 16); }
        proof { lemma_dequant_bound(ind, pred, step, order as int, i as int); }
        out_q10 = pred_q10 + (scaled >> 16u32);
        x_q10[i] = out_q10 as i16;
    }
}

/// The outcome of the stabilizer on `x` (see `silk::nlsf_stabilize`): the
/// widened values when the widening passes converged, otherwise the fallback
/// applied to the values with their first `l` sorted; entries from `l` on are kept.
pub open spec fn stabilized(x: Seq<i16>, d: Seq<i16>, l: int, y: Seq<i16>) -> bool {
    let (w, converged) = widen_passes(x, d, l, MAX_LOOPS as nat);
    &&& converged ==> y == w
    &&& converged ==> min_gap(y, d, l, l + 1).0 >= 0
    &&& !converged ==> exists|s: Seq<i16>|
        #![trigger fallback(s, d, l)]
        sorted_i16(s.subrange(0, l)) && s.subrange(0, l).to_multiset() == w.subrange(0, l).to_multiset()
            && s.len() == x.len() && s.subrange(l, s.len() as int) == x.subrange(l, x.len() as int) && y == fallback(s, d, l)
    &&& y.len() == x.len()
    &&& y.subrange(l, x.len() as int) == x.subrange(l, x.len() as int)
}

/// NLSF stabilizer: keeps each NLSF at least its minimum spacing above its
/// predecessor (and the first above 0, the last below 1.0 in Q15). This is the
/// same algorithm as `silk::nlsf_stabilize::silk_nlsf_stabilize`, whose proof
/// it reuses. When the spacings fit within 1.0 ([`spacings_fit`]) every
/// minimum spacing is met, whether or not the widening passes converge.
pub fn silk_nlsf_stabilize(nlsf_q15: &mut [i16], delta_min_q15: &[i16], order: usize)
    requires
        1 <= order <= 0x7fff,
        old(nlsf_q15)@.len() >= order,
        delta_min_q15@.len() > order,
    ensures
        stabilized(old(nlsf_q15)@, delta_min_q15@, order as int, final(nlsf_q15)@),
        min_gap(old(nlsf_q15)@, delta_min_q15@, order as int, order as int + 1).0 >= 0 ==> final(nlsf_q15)@ == old(nlsf_q15)@,
        spacings_fit(delta_min_q15@, order as int) ==> min_gap(final(nlsf_q15)@, delta_min_q15@, order as int, order as int + 1).0 >= 0,
{
    crate::silk::nlsf_stabilize::silk_nlsf_stabilize(nlsf_q15, delta_min_q15, order);
}

/// The first-stage weight and value of coefficient `i` of vector `idx` and its
/// residual `res` (Q10) combined into an NLSF (Q15):
/// `res * 2^14 / weight + value * 2^7` (a zero weight drops the residual),
/// clamped to `[0, 32767]`.
pub open spec fn nlsf_from_residual(res: int, w: int, c: int) -> int {
    clamp(if w != 0 { tdiv(res * 16384, w) + c * 128 } else { c * 128 }, 0, 32767)
}

/// The NLSFs before stabilization, decoded from `ind` (first-stage index
/// `ind[0]`, then `order` residual indices).
pub open spec fn nlsf_unstabilized(cb: NlsfCodebook, ind: Seq<i8>) -> Seq<i16> {
    let idx = ind[0] as int;
    let order = cb.order as int;
    let pred = unpack_pred(cb, idx);
    Seq::new(order as nat, |i: int| {
        let res = (dequant_at(ind.subrange(1, order + 1), pred, cb.quant_step_size_q16 as int, order, i) as i16) as int;
        nlsf_from_residual(res, cb.cb1_wght_q9@[idx * order + i] as int, cb.cb1_nlsf_q8@[idx * order + i] as int) as i16
    })
}

/// Decodes NLSF indices into `order` NLSFs (Q15): the first-stage vector
/// `nlsf_indices[0]` plus the dequantized residuals scaled by the inverse
/// weights ([`nlsf_unstabilized`]), then stabilized with the codebook's
/// minimum spacings ([`stabilized`]).
pub fn silk_nlsf_decode(nlsf_q15: &mut [i16], nlsf_indices: &[i8], nlsf_cb: &NlsfCodebook)
    requires
        nlsf_cb_wf(*nlsf_cb),
        0 <= nlsf_cb.quant_step_size_q16 <= 16384,
        old(nlsf_q15)@.len() >= nlsf_cb.order,
        nlsf_indices@.len() > nlsf_cb.order,
        0 <= nlsf_indices@[0] < 32,
        unpack_fits(*nlsf_cb, nlsf_indices@[0] as int),
    ensures
        stabilized(nlsf_unstabilized(*nlsf_cb, nlsf_indices@) + old(nlsf_q15)@.subrange(nlsf_cb.order as int, old(nlsf_q15)@.len() as int),
            nlsf_cb.delta_min_q15@, nlsf_cb.order as int, final(nlsf_q15)@),
{
    let ghost cb = *nlsf_cb;
    let order = nlsf_cb.order as usize;
    let mut pred_q8 = [0u8; 16];
    let mut ec_ix = [0i16; 16];
    let mut res_q10 = [0i16; 16];
    let cb1_index = nlsf_indices[0] as usize;
    let ghost idx = cb1_index as int;
    silk_nlsf_unpack(&mut ec_ix, &mut pred_q8, nlsf_cb, cb1_index);
    let residual_indices = vstd::slice::slice_subrange(nlsf_indices, 1, order + 1);
    silk_nlsf_residual_dequant(&mut res_q10, residual_indices, &pred_q8, nlsf_cb.quant_step_size_q16, order);
    proof {
        assert(pred_q8@.subrange(0, order as int) =~= unpack_pred(cb, idx));
        assert(residual_indices@ =~= nlsf_indices@.subrange(1, order as int + 1));
        assert forall|i: int| 0 <= i < order implies
            dequant_at(residual_indices@, pred_q8@, cb.quant_step_size_q16 as int, order as int, i)
                == dequant_at(residual_indices@, unpack_pred(cb, idx), cb.quant_step_size_q16 as int, order as int, i) by {
            lemma_dequant_prefix(residual_indices@, pred_q8@, unpack_pred(cb, idx), cb.quant_step_size_q16 as int, order as int, i);
        }
    }
    assert(cb1_index * order + order <= 32 * order) by (nonlinear_arith)
        requires cb1_index < 32, order <= 16;
    let start = cb1_index * order;
    let ghost target = nlsf_unstabilized(cb, nlsf_indices@);
    let ghost x0 = nlsf_q15@;
    let mut i: usize = 0;
    while i < order
        invariant
            i <= order,
            order == cb.order,
            cb == *nlsf_cb,
            nlsf_cb_wf(cb),
            idx == cb1_index as int,
            nlsf_indices@.len() > order,
            idx == nlsf_indices@[0] as int,
            start == idx * order,
            start + order <= 32 * order,
            nlsf_q15@.len() == x0.len(),
            x0.len() >= order,
            res_q10@.len() == 16,
            target == nlsf_unstabilized(cb, nlsf_indices@),
            forall|j: int| order <= j < x0.len() ==> #[trigger] nlsf_q15@[j] == x0[j],
            forall|j: int| 0 <= j < order ==> (#[trigger] res_q10@[j]) as int == (dequant_at(
                nlsf_indices@.subrange(1, order as int + 1), unpack_pred(cb, idx),
                cb.quant_step_size_q16 as int, order as int, j) as i16) as int,
            forall|j: int| 0 <= j < i ==> #[trigger] nlsf_q15@[j] == target[j],
        decreases order - i,
    {
        let res = res_q10[i] as i32;
        proof { crate::arith::lemma_i32_shl_is_mul(res, 14); vstd::arithmetic::power2::lemma2_to64(); }
        assert(-0x8000 * 16384 <= res * 16384 <= 0x7fff * 16384) by (nonlinear_arith)
            requires -0x8000 <= res <= 0x7fff;
        proof { lemma_wrap_id(res * 16384, 0x8000_0000); }
        let res_scaled = res << 14u32;
        let wght = nlsf_cb.cb1_wght_q9[start + i] as i32;
        let c = nlsf_cb.cb1_nlsf_q8[start + i] as i32;
        let tmp = if wght != 0 {
            let q = crate::silk::macros::silk_div32(res_scaled, wght);
            proof {
                lemma_tdiv_bound(res_scaled as int, wght as int);
                lemma_wrap_id(tdiv(res_scaled as int, wght as int), 0x8000_0000);
            }
            q + c * 128
        } else {
            c * 128
        };
        let v: i32 = if tmp < 0 { 0 } else if tmp > 32767 { 32767 } else { tmp };
        nlsf_q15[i] = v as i16;
        proof {
            assert(idx * order + i == start + i);
            assert(nlsf_q15@[i as int] == target[i as int]);
        }
        i += 1;
    }
    assert(nlsf_q15@ =~= target + x0.subrange(order as int, x0.len() as int));
    silk_nlsf_stabilize(nlsf_q15, nlsf_cb.delta_min_q15, order);
}

/// The residual recursion reads only the first `order` predictor coefficients.
proof fn lemma_dequant_prefix(ind: Seq<i8>, p1: Seq<u8>, p2: Seq<u8>, step: int, order: int, i: int)
    requires
        0 <= i,
        order <= p1.len(),
        order <= p2.len(),
        forall|j: int| 0 <= j < order ==> p1[j] == p2[j],
    ensures
        dequant_at(ind, p1, step, order, i) == dequant_at(ind, p2, step, order, i),
    decreases order - i,
{
    if i < order {
        lemma_dequant_prefix(ind, p1, p2, step, order, i + 1);
    }
}

/// Truncating division by a nonzero divisor does not grow the magnitude.
proof fn lemma_tdiv_bound(x: int, d: int)
    requires
        d != 0,
    ensures
        -(if x >= 0 { x } else { -x }) <= tdiv(x, d) <= (if x >= 0 { x } else { -x }),
{
    if x > 0 && d > 0 {
        vstd::arithmetic::div_mod::lemma_div_is_ordered_by_denominator(x, 1, d);
        vstd::arithmetic::div_mod::lemma_div_pos_is_pos(x, d);
    } else if x < 0 && d < 0 {
        vstd::arithmetic::div_mod::lemma_div_is_ordered_by_denominator(-x, 1, -d);
        vstd::arithmetic::div_mod::lemma_div_pos_is_pos(-x, -d);
    } else if x < 0 {
        vstd::arithmetic::div_mod::lemma_div_is_ordered_by_denominator(-x, 1, d);
        vstd::arithmetic::div_mod::lemma_div_pos_is_pos(-x, d);
    } else if x > 0 {
        vstd::arithmetic::div_mod::lemma_div_is_ordered_by_denominator(x, 1, -d);
        vstd::arithmetic::div_mod::lemma_div_pos_is_pos(x, -d);
    }
}

} // verus!
