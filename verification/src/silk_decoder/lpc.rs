//! LPC helpers of the standalone decoder: bandwidth expansion, conversion of
//! 32-bit coefficients to 16 bits, the inverse prediction gain (stability
//! test) and the NLSF to LPC conversion.

use vstd::prelude::*;
use vstd::arithmetic::power2::pow2;
use crate::arith::{bit_length, clamp, wrap32, lemma_wrap_id};
use crate::silk::bwexpander::{bw_chirp, bw_chirp_fits, lemma_chirp_in_unit_range, lemma_unit_range_chirp_fits};
use crate::silk::lpc_fit::{bwexpand32_seq, fit_max_shifted, fit_needs_expansion, max_abs_upto};
use crate::silk::macros::{fx_rshift_round, fx_shl32, fx_smulww, SILK_INT16_MAX};
use crate::silk::lpc_inv_pred_gain::{coefs_qa, dc_response, frac_q31, lemma_reflection, A_LIMIT, MIN_INV_GAIN_Q30, ONE_Q30};
use crate::silk::macros::fx_smmul;
use crate::silk::nlsf2a::{
    a32_coefs, a32_fits, cos_fill, cos_interp, lemma_cos_table_range, lemma_ordering_range, nlsf2a_find_poly,
    nlsf2a_fits, ordering, poly, poly_fits, poly_p, poly_q, ORDERING10, ORDERING16,
};
use crate::silk::tables::SILK_LSF_COS_TAB_FIX_Q12;
use crate::silk_decoder::fixed::{clz32, mul32_frac_q, rshift_round, rshift_round64_raw, smmul};

verus! {

/// The largest excess that drives the chirp.
pub const MAXABS_CLAMP: i32 = 163_838;

/// Bandwidth expansion of the first `order` 32-bit coefficients:
/// `ar[i] <- (chirp_i * ar[i]) >> 16` with the powers of the chirp formed by
/// the Q16 recurrence. The same computation as `silk::bwexpander::silk_bwexpander_32`.
pub fn silk_bwexpander_32(ar: &mut [i32], order: usize, chirp_q16: i32)
    requires
        1 <= order <= old(ar)@.len(),
        bw_chirp_fits(chirp_q16 as int, order as nat),
    ensures
        final(ar)@.len() == old(ar)@.len(),
        forall|i: int| 0 <= i < order ==> #[trigger] final(ar)@[i] == fx_smulww(
            bw_chirp(chirp_q16 as int, i as nat),
            old(ar)@[i] as int,
        ),
        forall|i: int| order <= i < old(ar)@.len() ==> #[trigger] final(ar)@[i] == old(ar)@[i],
{
    crate::silk::bwexpander::silk_bwexpander_32(ar, order, chirp_q16);
}

/// Every one of the first `d` coefficients is at most `lim` in magnitude.
pub open spec fn bounded(a: Seq<i32>, d: int, lim: int) -> bool {
    forall|k: int| 0 <= k < d ==> -lim <= #[trigger] a[k] <= lim
}

/// A chirp between 0 and 1.0 (Q16) does not grow a coefficient.
proof fn lemma_smulww_shrinks(c: int, x: int)
    requires
        0 <= c <= 65536,
        i32::MIN < x <= i32::MAX,
    ensures
        (if x >= 0 { 0 <= fx_smulww(c, x) <= x } else { x <= fx_smulww(c, x) <= 0 }),
{
    let p = c * x;
    if x >= 0 {
        assert(0 <= p <= 65536 * x) by (nonlinear_arith) requires 0 <= c <= 65536, x >= 0, p == c * x;
        vstd::arithmetic::div_mod::lemma_div_is_ordered(0, p, 65536);
        vstd::arithmetic::div_mod::lemma_div_is_ordered(p, 65536 * x, 65536);
        vstd::arithmetic::div_mod::lemma_div_multiples_vanish(x, 65536);
    } else {
        assert(65536 * x <= p <= 0) by (nonlinear_arith) requires 0 <= c <= 65536, x < 0, p == c * x;
        vstd::arithmetic::div_mod::lemma_div_is_ordered(65536 * x, p, 65536);
        vstd::arithmetic::div_mod::lemma_div_is_ordered(p, 0, 65536);
        vstd::arithmetic::div_mod::lemma_div_multiples_vanish(x, 65536);
    }
    lemma_wrap_id(p / 0x1_0000, 0x8000_0000);
}

/// Expanding with a chirp between 0 and 1.0 keeps a magnitude bound.
proof fn lemma_bwexpand_bounded(a: Seq<i32>, d: int, c0: int, lim: int)
    requires
        0 <= c0 <= 65536,
        0 <= lim < 0x8000_0000,
        bounded(a, d, lim),
        d <= a.len(),
    ensures
        bounded(bwexpand32_seq(a, d, c0), d, lim),
{
    assert forall|k: int| 0 <= k < d implies -lim <= #[trigger] bwexpand32_seq(a, d, c0)[k] <= lim by {
        lemma_chirp_in_unit_range(c0, k as nat);
        lemma_smulww_shrinks(bw_chirp(c0, k as nat), a[k] as int);
    }
}

/// The chirp of the next expansion of this decoder: 1.0 minus one step, less
/// the excess of the largest coefficient relative to its size and position.
pub open spec fn unit_fit_chirp(a: Seq<i32>, d: int, qd: int) -> int {
    let ms = fit_max_shifted(a, d, qd);
    let c = if ms < MAXABS_CLAMP { ms } else { MAXABS_CLAMP as int };
    let idx = max_abs_upto(a, d).1;
    65535 - ((c - SILK_INT16_MAX) * 16384) / ((c * (idx + 1)) / 4)
}

/// The coefficients after `i` rounds: each round expands while they do not fit.
pub open spec fn unit_fit_state(a: Seq<i32>, d: int, qd: int, i: nat) -> Seq<i32>
    decreases i,
{
    if i == 0 {
        a
    } else {
        let p = unit_fit_state(a, d, qd, (i - 1) as nat);
        if fit_needs_expansion(p, d, qd) { bwexpand32_seq(p, d, unit_fit_chirp(p, d, qd)) } else { p }
    }
}

/// The 16-bit coefficients of [`silk_lpc_fit`]: the expanded ones, rounded to
/// the output domain and saturated (entries from `d` on keep their values from `out0`).
pub open spec fn unit_fit_out(a: Seq<i32>, d: int, qd: int, out0: Seq<i16>) -> Seq<i16> {
    let fitted = unit_fit_state(a, d, qd, 10);
    Seq::new(out0.len(), |k: int| if k < d {
        clamp(fx_rshift_round(fitted[k] as int, qd), -0x8000, 0x7fff) as i16
    } else {
        out0[k]
    })
}

/// The chirp of an expansion lies between 0 and 1.0 (Q16).
proof fn lemma_unit_fit_chirp_range(ms: int, idx: int, num: int, den: int)
    requires
        SILK_INT16_MAX < ms <= MAXABS_CLAMP,
        0 <= idx < 16,
        num == (ms - SILK_INT16_MAX) * 16384,
        den == (ms * (idx + 1)) / 4,
    ensures
        den >= 8192,
        0 <= num / den <= 65535,
        0 < num < 0x8000_0000,
        0 < ms * (idx + 1) <= MAXABS_CLAMP * 16,
{
    assert(ms * (idx + 1) >= ms) by (nonlinear_arith) requires ms > 0, idx >= 0;
    assert(0 < ms * (idx + 1) <= MAXABS_CLAMP * 16) by (nonlinear_arith)
        requires SILK_INT16_MAX < ms <= MAXABS_CLAMP, 0 <= idx < 16;
    assert(den >= 8192);
    assert(0 < num < 0x8000_0000) by (nonlinear_arith)
        requires num == (ms - SILK_INT16_MAX) * 16384, SILK_INT16_MAX < ms <= MAXABS_CLAMP;
    let q = num / den;
    vstd::arithmetic::div_mod::lemma_fundamental_div_mod(ms * (idx + 1), 4);
    vstd::arithmetic::div_mod::lemma_fundamental_div_mod(num, den);
    vstd::arithmetic::div_mod::lemma_div_pos_is_pos(num, den);
    assert(4 * den >= ms - 3);
    assert(q * den <= num) by {
        vstd::arithmetic::div_mod::lemma_mod_bound(num, den);
    }
    assert(q <= 65535) by (nonlinear_arith)
        requires
            q * den <= num,
            4 * den >= ms - 3,
            num == (ms - SILK_INT16_MAX) * 16384,
            SILK_INT16_MAX < ms <= MAXABS_CLAMP,
            q >= 0,
            den > 0,
    {
        if q > 65535 {
            assert(q * (4 * den) >= 65536 * (ms - 3));
        }
    }
}

/// The largest absolute value of `a[0..d]` and its first index.
fn find_max_abs(a: &[i32], d: usize) -> (r: (i32, usize))
    requires
        d <= a@.len(),
        bounded(a@, d as int, i32::MAX as int),
    ensures
        r.0 as int == max_abs_upto(a@, d as int).0,
        r.1 as int == max_abs_upto(a@, d as int).1,
        0 <= r.0,
        d > 0 ==> r.1 < d,
{
    let mut maxabs: i32 = 0;
    let mut idx: usize = 0;
    let mut k: usize = 0;
    while k < d
        invariant
            k <= d <= a@.len(),
            bounded(a@, d as int, i32::MAX as int),
            maxabs as int == max_abs_upto(a@, k as int).0,
            idx as int == max_abs_upto(a@, k as int).1,
            0 <= maxabs,
            k > 0 ==> idx < k,
            k == 0 ==> idx == 0,
        decreases d - k,
    {
        let x = a[k];
        let absval: i32 = if x < 0 { -x } else { x };
        proof { lemma_wrap_id(if x > 0 { x as int } else { -x }, 0x8000_0000); }
        if absval > maxabs {
            maxabs = absval;
            idx = k;
        }
        k += 1;
    }
    (maxabs, idx)
}

/// Converts the first `order` coefficients of `a_qin` (Q`qin`) to 16 bits in
/// Q`qout`: while the largest does not fit (at most ten rounds) `a_qin` is
/// bandwidth-expanded ([`unit_fit_state`]); the result is then rounded and
/// saturated ([`unit_fit_out`]). The magnitude bound keeps the rounding
/// within 32 bits.
pub fn silk_lpc_fit(a_qout: &mut [i16], a_qin: &mut [i32], qout: i32, qin: i32, order: usize)
    requires
        1 <= qin - qout < 32,
        1 <= order <= 16,
        order <= old(a_qout)@.len(),
        order <= old(a_qin)@.len(),
        bounded(old(a_qin)@, order as int, i32::MAX - pow2((qin - qout - 1) as nat)),
    ensures
        final(a_qout)@ == unit_fit_out(old(a_qin)@, order as int, (qin - qout) as int, old(a_qout)@),
        final(a_qin)@ == unit_fit_state(old(a_qin)@, order as int, (qin - qout) as int, 10),
        bounded(final(a_qin)@, order as int, i32::MAX - pow2((qin - qout - 1) as nat)),
{
    let ghost a0 = a_qin@;
    let ghost qd = (qin - qout) as int;
    let ghost lim = i32::MAX - pow2((qin - qout - 1) as nat);
    let qdiff = qin - qout;
    proof {
        vstd::arithmetic::power2::lemma_pow2_pos((qdiff - 1) as nat);
        crate::arith::lemma_pow2_le_2_31((qdiff - 1) as nat);
        if qdiff - 1 < 31 {
            vstd::arithmetic::power2::lemma_pow2_strictly_increases((qdiff - 1) as nat, 31);
        }
        vstd::arithmetic::power2::lemma2_to64();
    }
    let mut i: i32 = 0;
    while i < 10
        invariant_except_break
            0 <= i <= 10,
        invariant
            1 <= qdiff < 32,
            qdiff == qd,
            1 <= order <= 16,
            order <= a_qin@.len(),
            a_qin@.len() == a0.len(),
            0 <= i <= 10,
            0 < pow2((qdiff - 1) as nat) <= 0x4000_0000,
            lim == i32::MAX - pow2((qdiff - 1) as nat),
            bounded(a_qin@, order as int, lim),
            a_qin@ == unit_fit_state(a0, order as int, qd, i as nat),
        ensures
            a_qin@ == unit_fit_state(a0, order as int, qd, i as nat),
            i < 10 ==> !fit_needs_expansion(unit_fit_state(a0, order as int, qd, i as nat), order as int, qd),
            bounded(a_qin@, order as int, lim),
        decreases 10 - i,
    {
        let (maxabs, idx) = find_max_abs(a_qin, order);
        proof {
            let m = max_abs_upto(a_qin@, order as int);
            lemma_max_abs_bounded(a_qin@, order as int, lim);
        }
        let maxabs_shifted = rshift_round(maxabs, qdiff);
        if maxabs_shifted > SILK_INT16_MAX {
            let maxabs_clamped: i32 = if maxabs_shifted < MAXABS_CLAMP { maxabs_shifted } else { MAXABS_CLAMP };
            let ghost num = (maxabs_clamped - SILK_INT16_MAX) * 16384;
            proof {
                lemma_unit_fit_chirp_range(maxabs_clamped as int, idx as int, num,
                    (maxabs_clamped * (idx + 1)) / 4);
            }
            let excess = maxabs_clamped - SILK_INT16_MAX;
            proof {
                crate::arith::lemma_i32_shl_is_mul(excess, 14);
                lemma_wrap_id(num, 0x8000_0000);
            }
            let numerator = excess << 14u32;
            let prod = maxabs_clamped * (idx as i32 + 1);
            proof { crate::arith::lemma_i32_shr_is_div(prod, 2); }
            let denominator = prod >> 2u32;
            proof {
                vstd::arithmetic::power2::lemma2_to64();
                assert(numerator == num);
                assert(denominator as int == (maxabs_clamped * (idx + 1)) / 4);
                lemma_wrap_id(num / (denominator as int), 0x8000_0000);
            }
            let q = crate::silk::macros::silk_div32(numerator, denominator);
            let chirp_q16 = 65536 - 1 - q;
            proof {
                lemma_unit_range_chirp_fits(chirp_q16 as int, order as nat);
                assert(chirp_q16 == unit_fit_chirp(a_qin@, order as int, qd));
            }
            let ghost before = a_qin@;
            silk_bwexpander_32(a_qin, order, chirp_q16);
            proof {
                assert(a_qin@ =~= bwexpand32_seq(before, order as int, chirp_q16 as int));
                lemma_bwexpand_bounded(before, order as int, chirp_q16 as int, lim);
                assert(fit_needs_expansion(before, order as int, qd));
            }
        } else {
            break;
        }
        i += 1;
    }
    proof {
        if i < 10 {
            lemma_unit_fit_state_stable(a0, order as int, qd, i as nat, 10);
        }
    }
    let ghost fitted = a_qin@;
    let mut k: usize = 0;
    while k < order
        invariant
            k <= order <= a_qin@.len(),
            order <= a_qout@.len(),
            1 <= qdiff < 32,
            qdiff == qd,
            0 < pow2((qdiff - 1) as nat) <= 0x4000_0000,
            lim == i32::MAX - pow2((qdiff - 1) as nat),
            bounded(fitted, order as int, lim),
            a_qin@ == fitted,
            a_qout@.len() == old(a_qout)@.len(),
            forall|j: int| 0 <= j < k ==> #[trigger] a_qout@[j] == clamp(
                fx_rshift_round(fitted[j] as int, qd), -0x8000, 0x7fff) as i16,
            forall|j: int| order <= j < a_qout@.len() ==> #[trigger] a_qout@[j] == old(a_qout)@[j],
        decreases order - k,
    {
        let x = a_qin[k];
        assert(-lim <= fitted[k as int] <= lim);
        let val = rshift_round(x, qdiff);
        let c: i32 = if val < -32768 { -32768 } else if val > 32767 { 32767 } else { val };
        a_qout[k] = c as i16;
        k += 1;
    }
    proof {
        assert(a0 == old(a_qin)@);
        assert(a_qout@ =~= unit_fit_out(old(a_qin)@, order as int, qd, old(a_qout)@));
    }
}

/// The largest magnitude obeys the common bound.
proof fn lemma_max_abs_bounded(a: Seq<i32>, d: int, lim: int)
    requires
        0 <= lim < 0x8000_0000,
        bounded(a, d, lim),
        d <= a.len(),
    ensures
        0 <= max_abs_upto(a, d).0 <= lim,
        d > 0 ==> 0 <= max_abs_upto(a, d).1 < d,
    decreases d,
{
    if d > 0 {
        lemma_max_abs_bounded(a, d - 1, lim);
        lemma_wrap_id(if a[d - 1] > 0 { a[d - 1] as int } else { -a[d - 1] }, 0x8000_0000);
    }
}

/// Once the coefficients fit, further rounds leave them unchanged.
proof fn lemma_unit_fit_state_stable(a: Seq<i32>, d: int, qd: int, i: nat, j: nat)
    requires
        i <= j,
        !fit_needs_expansion(unit_fit_state(a, d, qd, i), d, qd),
    ensures
        unit_fit_state(a, d, qd, j) == unit_fit_state(a, d, qd, i),
    decreases j - i,
{
    if j > i {
        lemma_unit_fit_state_stable(a, d, qd, i, (j - 1) as nat);
    }
}

/// The value of [`inverse32_varq`]: `2^q / b` with `|b|` first normalized to
/// 31 significant bits; a quotient beyond 32 bits wraps, `b == 0` gives `i32::MAX`.
pub open spec fn inverse32_varq_value(b: int, q: int) -> int {
    if b == 0 {
        0x7fff_ffff
    } else {
        let m = if b >= 0 { b } else { -b };
        let bl = bit_length(m as nat) as int;
        let shifted = m * pow2((31 - bl) as nat);
        let hr = bl - 1;
        let mag = if q > hr {
            wrap32(pow2((q - hr + 30) as nat) as int / shifted)
        } else if hr - q >= 32 {
            0
        } else {
            (0x4000_0000int / shifted) / (pow2((hr - q) as nat) as int)
        };
        if b < 0 { wrap32(-mag) } else { mag }
    }
}

/// `1 / b` in Q`q` ([`inverse32_varq_value`]). The quotient of the wide branch
/// is truncated to 32 bits and negated with wrapping, as optimized builds do.
pub fn inverse32_varq(b: i32, q: i32) -> (r: i32)
    requires
        b != i32::MIN,
        -0x4000_0000 <= q,
        b != 0 ==> q <= bit_length((if b >= 0 { b as int } else { -b }) as nat) + 31,
    ensures
        r == inverse32_varq_value(b as int, q as int),
{
    if b == 0 {
        return i32::MAX;
    }
    let b_norm: i32 = if b < 0 { -b } else { b };
    let ghost m = b_norm as nat;
    let ghost bl = bit_length(m);
    proof {
        crate::arith::lemma_bit_length_bounds(m);
        vstd::arithmetic::power2::lemma2_to64();
        crate::arith::lemma_bit_length_bound(m, 31);
        vstd::arithmetic::power2::lemma_pow2_adds((bl - 1) as nat, (31 - bl) as nat);
        vstd::arithmetic::power2::lemma_pow2_adds(bl, (31 - bl) as nat);
        assert(pow2((bl - 1) as nat) * pow2((31 - bl) as nat) <= m * pow2((31 - bl) as nat)) by (nonlinear_arith)
            requires pow2((bl - 1) as nat) <= m;
        assert(m * pow2((31 - bl) as nat) < pow2(bl) * pow2((31 - bl) as nat)) by (nonlinear_arith)
            requires m < pow2(bl), pow2((31 - bl) as nat) > 0;
        vstd::arithmetic::power2::lemma_pow2_pos((31 - bl) as nat);
    }
    let lshift = clz32(b_norm) - 1;
    proof {
        crate::arith::lemma_i32_shl_is_mul(b_norm, lshift as u32);
        lemma_wrap_id((m * pow2((31 - bl) as nat)) as int, 0x8000_0000);
    }
    let b_shifted = b_norm << (lshift as u32);
    assert(0x4000_0000 <= b_shifted);
    let b_headroom = 30 - lshift;
    if q > b_headroom {
        let sh = q - b_headroom + 30;
        assert(lshift == 31 - bl);
        assert(31 <= sh <= 62);
        proof {
            vstd::arithmetic::power2::lemma2_to64();
            crate::arith::lemma_i64_shl_is_mul(1, sh as u64);
            if sh < 62 {
                vstd::arithmetic::power2::lemma_pow2_strictly_increases(sh as nat, 62);
            }
            vstd::arithmetic::power2::lemma2_to64_rest();
            assert(pow2(62) == 0x4000_0000_0000_0000);
            assert(pow2(sh as nat) <= 0x4000_0000_0000_0000);
            lemma_wrap_id(pow2(sh as nat) as int, 0x8000_0000_0000_0000);
        }
        let num = 1i64 << (sh as u64);
        let result = ((num as u64) / (b_shifted as u64)) as i64;
        proof { crate::arith::lemma_i64_as_i32_any(result); }
        let r32 = result as i32;
        if b < 0 {
            proof { crate::arith::lemma_i32_wrapping_add(0, r32); }
            0i32.wrapping_sub(r32)
        } else {
            r32
        }
    } else {
        let result = (0x4000_0000u32 / (b_shifted as u32)) as i32;
        let shift = b_headroom - q;
        let final_result: i32 = if shift >= 32 {
            0
        } else {
            proof { crate::arith::lemma_i32_shr_is_div(result, shift as u32); }
            result >> (shift as u32)
        };
        if b < 0 { -final_result } else { final_result }
    }
}

/// The updated coefficient from `x` and its mirror `y`:
/// `round(wrap32(x - y * rc) * mult2 / 2^q)` (the subtraction wraps).
pub open spec fn wrap_step_coef(x: int, y: int, rc: int, mult2: int, q: int) -> int {
    fx_rshift_round(wrap32(x - frac_q31(y, rc)) * mult2, q)
}

/// Every updated coefficient of one step-down fits in 32 bits.
pub open spec fn wrap_step_ok(a: Seq<i32>, k: int, rc: int, mult2: int, q: int) -> bool {
    forall|i: int| 0 <= i < k ==> i32::MIN <= #[trigger] wrap_step_coef(a[i] as int, a[k - 1 - i] as int, rc, mult2, q) <= i32::MAX
}

/// One step-down of the coefficients `0..k`.
pub open spec fn wrap_step_down(a: Seq<i32>, k: int, rc: int, mult2: int, q: int) -> Seq<i32> {
    Seq::new(a.len(), |i: int| if i < k { wrap_step_coef(a[i] as int, a[k - 1 - i] as int, rc, mult2, q) as i32 } else { a[i] })
}

/// The inverse prediction gain (Q30) of the coefficients `0..=k` (Q24) given
/// the gain accumulated so far; 0 once a reflection coefficient leaves the
/// admissible range, `1 - rc^2` drops to `2^-15`, the gain exceeds its limit or
/// a step-down overflows.
pub open spec fn wrap_inv_gain(a: Seq<i32>, k: int, inv: int) -> int
    decreases k,
{
    let kk = if k > 0 { k } else { 0 };
    let ak = a[kk] as int;
    if ak > A_LIMIT || ak < -A_LIMIT {
        0
    } else {
        let rc = -(ak * 128);
        let m1 = ONE_Q30 - fx_smmul(rc, rc);
        if k > 0 && m1 <= 0x8000 {
            0
        } else {
            let inv2 = fx_shl32(fx_smmul(inv, m1), 2);
            if inv2 < MIN_INV_GAIN_Q30 {
                0
            } else if k <= 0 {
                inv2
            } else {
                let q = bit_length(m1 as nat) as int;
                let m2 = inverse32_varq_value(m1, q + 30);
                if !wrap_step_ok(a, k, rc, m2, q) {
                    0
                } else {
                    wrap_inv_gain(wrap_step_down(a, k, rc, m2, q), k - 1, inv2)
                }
            }
        }
    }
}

/// The inverse prediction gain (Q30) of the `order` coefficients in `a_qa`
/// (Q24), by the step-down recursion ([`wrap_inv_gain`]); 0 for an unstable
/// filter. The coefficients serve as scratch space.
fn lpc_inverse_pred_gain_qa(a_qa: &mut [i32], order: usize) -> (r: i32)
    requires
        1 <= old(a_qa)@.len(),
        order <= old(a_qa)@.len(),
    ensures
        r == wrap_inv_gain(old(a_qa)@, order - 1, ONE_Q30 as int),
{
    let ghost a0 = a_qa@;
    let ghost len = a0.len();
    let mut inv_gain_q30: i32 = ONE_Q30;
    let mut k: usize = if order > 0 { order - 1 } else { 0 };
    proof {
        if order == 0 {
            assert(wrap_inv_gain(a0, -1, ONE_Q30 as int) == wrap_inv_gain(a0, 0, ONE_Q30 as int));
        }
    }
    while k > 0
        invariant
            k < len,
            a_qa@.len() == len,
            1 <= len,
            order <= len,
            a0 == old(a_qa)@,
            wrap_inv_gain(a0, order - 1, ONE_Q30 as int) == wrap_inv_gain(a_qa@, k as int, inv_gain_q30 as int),
        decreases k,
    {
        if a_qa[k] > A_LIMIT || a_qa[k] < -A_LIMIT {
            return 0;
        }
        let ghost ak = a_qa@[k as int] as int;
        let ghost old_inv = inv_gain_q30;
        proof {
            lemma_reflection(ak);
            crate::arith::lemma_i32_shl_is_mul(a_qa@[k as int], 7);
            vstd::arithmetic::power2::lemma2_to64();
        }
        let rc_q31 = -(a_qa[k] << 7u32);
        let rc_mult1_q30 = ONE_Q30 - smmul(rc_q31, rc_q31);
        proof {
            crate::arith::lemma_i32_shl_is_mul(1, 15);
            lemma_wrap_id(0x8000, 0x8000_0000);
            assert(rc_q31 == -(ak * 128));
        }
        if rc_mult1_q30 <= (1i32 << 15u32) {
            return 0;
        }
        let prod = smmul(inv_gain_q30, rc_mult1_q30);
        proof { crate::arith::lemma_i32_shl_is_mul(prod, 2); }
        inv_gain_q30 = prod << 2u32;
        if inv_gain_q30 < MIN_INV_GAIN_Q30 {
            return 0;
        }
        let abs_m1: i32 = if rc_mult1_q30 < 0 { -rc_mult1_q30 } else { rc_mult1_q30 };
        proof {
            crate::arith::lemma_bit_length_bound(rc_mult1_q30 as nat, 31);
            crate::arith::lemma_bit_length_bounds(rc_mult1_q30 as nat);
        }
        let mult2_q = 32 - clz32(abs_m1);
        proof {
            assert(mult2_q == bit_length(rc_mult1_q30 as nat));
            if bit_length(rc_mult1_q30 as nat) < 16 {
                if bit_length(rc_mult1_q30 as nat) < 15 {
                    vstd::arithmetic::power2::lemma_pow2_strictly_increases(bit_length(rc_mult1_q30 as nat), 15);
                }
            }
            assert(16 <= mult2_q <= 31);
        }
        let rc_mult2 = inverse32_varq(rc_mult1_q30, mult2_q + 30);
        let ghost a1 = a_qa@;
        let n_max = (k + 1) / 2;
        let mut n: usize = 0;
        while n < n_max
            invariant
                0 < k < len,
                a_qa@.len() == len,
                a1.len() == len,
                1 <= len,
                order <= len,
                a0 == old(a_qa)@,
                wrap_inv_gain(a0, order - 1, ONE_Q30 as int) == wrap_inv_gain(a1, k as int, old_inv as int),
                inv_gain_q30 == fx_shl32(fx_smmul(old_inv as int, rc_mult1_q30 as int), 2),
                rc_mult1_q30 == ONE_Q30 - fx_smmul(rc_q31 as int, rc_q31 as int),
                rc_mult1_q30 > 0x8000,
                rc_q31 == -(a1[k as int] as int * 128),
                -A_LIMIT <= a1[k as int] <= A_LIMIT,
                inv_gain_q30 >= MIN_INV_GAIN_Q30,
                mult2_q == bit_length(rc_mult1_q30 as nat),
                rc_mult2 == inverse32_varq_value(rc_mult1_q30 as int, mult2_q + 30),
                n <= n_max,
                n_max == (k + 1) / 2,
                16 <= mult2_q <= 31,
                -0x7fff_ffff <= rc_q31 <= 0x7fff_ffff,
                forall|i: int| 0 <= i < n ==> #[trigger] a_qa@[i] == wrap_step_coef(
                    a1[i] as int, a1[k - 1 - i] as int, rc_q31 as int, rc_mult2 as int, mult2_q as int),
                forall|i: int| 0 <= i < n ==> #[trigger] a_qa@[k - 1 - i] == wrap_step_coef(
                    a1[k - 1 - i] as int, a1[i] as int, rc_q31 as int, rc_mult2 as int, mult2_q as int),
                forall|i: int| 0 <= i < n ==> i32::MIN <= #[trigger] wrap_step_coef(
                    a1[i] as int, a1[k - 1 - i] as int, rc_q31 as int, rc_mult2 as int, mult2_q as int) <= i32::MAX,
                forall|i: int| 0 <= i < n ==> i32::MIN <= #[trigger] wrap_step_coef(
                    a1[k - 1 - i] as int, a1[i] as int, rc_q31 as int, rc_mult2 as int, mult2_q as int) <= i32::MAX,
                forall|i: int| n <= i < k - n ==> #[trigger] a_qa@[i] == a1[i],
                forall|i: int| k <= i < len ==> #[trigger] a_qa@[i] == a1[i],
            decreases n_max - n,
        {
            let tmp1 = a_qa[n];
            let tmp2 = a_qa[k - n - 1];
            let t1 = step_value(tmp1, tmp2, rc_q31, rc_mult2, mult2_q);
            proof {
                assert(tmp1 == a1[n as int]);
                assert(tmp2 == a1[k - 1 - n]);
            }
            if t1 > i32::MAX as i64 || t1 < i32::MIN as i64 {
                proof {
                    assert(!wrap_step_ok(a1, k as int, rc_q31 as int, rc_mult2 as int, mult2_q as int));
                }
                return 0;
            }
            a_qa[n] = t1 as i32;
            if n != k - n - 1 {
                let t2 = step_value(tmp2, tmp1, rc_q31, rc_mult2, mult2_q);
                if t2 > i32::MAX as i64 || t2 < i32::MIN as i64 {
                    proof {
                        let j = k - 1 - n;
                        assert(a1[k - 1 - j] == a1[n as int]);
                        assert(!wrap_step_ok(a1, k as int, rc_q31 as int, rc_mult2 as int, mult2_q as int));
                    }
                    return 0;
                }
                a_qa[k - n - 1] = t2 as i32;
            }
            n += 1;
        }
        proof {
            let rc = rc_q31 as int;
            let m2 = rc_mult2 as int;
            let q = mult2_q as int;
            assert forall|i: int| 0 <= i < k implies i32::MIN <= #[trigger] wrap_step_coef(
                a1[i] as int, a1[k - 1 - i] as int, rc, m2, q) <= i32::MAX by {
                if i >= n {
                    let j = k - 1 - i;
                    assert(0 <= j < n);
                    assert(a1[k - 1 - j] == a1[i]);
                }
            }
            assert(wrap_step_ok(a1, k as int, rc, m2, q));
            assert forall|i: int| 0 <= i < len implies #[trigger] a_qa@[i] == wrap_step_down(a1, k as int, rc, m2, q)[i] by {
                if i < k && i >= n {
                    let j = k - 1 - i;
                    assert(0 <= j < n);
                    assert(a1[k - 1 - j] == a1[i]);
                    assert(k - 1 - j == i);
                }
            }
            assert(a_qa@ =~= wrap_step_down(a1, k as int, rc, m2, q));
        }
        k -= 1;
    }
    if a_qa[0] > A_LIMIT || a_qa[0] < -A_LIMIT {
        return 0;
    }
    let ghost old_inv = inv_gain_q30;
    proof {
        lemma_reflection(a_qa@[0] as int);
        crate::arith::lemma_i32_shl_is_mul(a_qa@[0], 7);
        vstd::arithmetic::power2::lemma2_to64();
    }
    let rc_q31 = -(a_qa[0] << 7u32);
    let rc_mult1_q30 = ONE_Q30 - smmul(rc_q31, rc_q31);
    let prod = smmul(inv_gain_q30, rc_mult1_q30);
    proof { crate::arith::lemma_i32_shl_is_mul(prod, 2); }
    inv_gain_q30 = prod << 2u32;
    if inv_gain_q30 < MIN_INV_GAIN_Q30 {
        return 0;
    }
    inv_gain_q30
}

/// One coefficient of the step-down, in 64 bits before the range check.
fn step_value(x: i32, y: i32, rc: i32, mult2: i32, q: i32) -> (r: i64)
    requires
        16 <= q <= 31,
    ensures
        r == wrap_step_coef(x as int, y as int, rc as int, mult2 as int, q as int),
{
    proof {
        crate::arith::lemma_mul_bound_32_32(y as int, rc as int);
        vstd::arithmetic::power2::lemma2_to64();
        vstd::arithmetic::power2::lemma2_to64_rest();
    }
    let f = mul32_frac_q(y, rc, 31);
    proof { crate::arith::lemma_i32_wrapping_add(x, f); }
    let v = x.wrapping_sub(f);
    proof {
        crate::arith::lemma_mul_bound_32_32(v as int, mult2 as int);
        if q - 1 < 30 {
            vstd::arithmetic::power2::lemma_pow2_strictly_increases((q - 1) as nat, 30);
        }
    }
    let raw = v as i64 * mult2 as i64;
    rshift_round64_raw(raw, q)
}

/// The Q30 product of two Q30 values in `(0, 1]` stays in `[0, 2^28]`.
proof fn lemma_smmul_bounds(a: int, b: int)
    requires
        0 < a <= ONE_Q30,
        0 < b <= ONE_Q30,
    ensures
        0 <= fx_smmul(a, b) <= 0x1000_0000,
{
    assert(0 < a * b <= 0x4000_0000 * 0x4000_0000) by (nonlinear_arith)
        requires 0 < a <= ONE_Q30, 0 < b <= ONE_Q30;
    vstd::arithmetic::div_mod::lemma_div_is_ordered(0, a * b, 0x1_0000_0000);
    vstd::arithmetic::div_mod::lemma_div_is_ordered(a * b, 0x4000_0000int * 0x4000_0000, 0x1_0000_0000);
}

/// The Q12 coefficients' inverse prediction gain (Q30) by the step-down
/// recursion of this decoder; 0 when the filter is unstable (its DC response
/// reaches 1.0 or [`wrap_inv_gain`] finds it so).
pub fn silk_lpc_inverse_pred_gain(a_q12: &[i16], order: usize) -> (r: i32)
    requires
        order <= 16,
        order <= a_q12@.len(),
    ensures
        dc_response(a_q12@, order as int) >= 4096 ==> r == 0,
        dc_response(a_q12@, order as int) < 4096 ==> r == wrap_inv_gain(coefs_qa(a_q12@, order as int), order - 1, ONE_Q30 as int),
{
    let mut atmp_qa = [0i32; 16];
    let mut dc_resp: i32 = 0;
    let mut k: usize = 0;
    while k < order
        invariant
            k <= order <= 16,
            order <= a_q12@.len(),
            atmp_qa@.len() == 16,
            dc_resp == dc_response(a_q12@, k as int),
            -0x8000 * k <= dc_resp <= 0x7fff * k,
            forall|i: int| 0 <= i < 16 ==> #[trigger] atmp_qa@[i] == coefs_qa(a_q12@, k as int)[i],
        decreases order - k,
    {
        dc_resp += a_q12[k] as i32;
        let v = a_q12[k] as i32;
        proof {
            assert(-0x800_0000 <= v * 4096 <= 0x7ff_f000) by (nonlinear_arith)
                requires -0x8000 <= v <= 0x7fff;
            assert((v << 12u32) == v * 4096) by {
                crate::arith::lemma_i32_shl_is_mul(v, 12);
                vstd::arithmetic::power2::lemma2_to64();
                lemma_wrap_id(v * 4096, 0x8000_0000);
            }
        }
        atmp_qa[k] = v << 12u32;
        k += 1;
    }
    assert(atmp_qa@ =~= coefs_qa(a_q12@, order as int));
    if dc_resp >= 4096 {
        return 0;
    }
    lpc_inverse_pred_gain_qa(&mut atmp_qa, order)
}

/// Builds the even or odd polynomial `out[0..=dd]` from the cosines `c_lsf[0]`,
/// `c_lsf[2]`, ... (see `silk::nlsf2a`, whose computation this is).
pub fn silk_nlsf2a_find_poly(out: &mut [i32], c_lsf: &[i32], dd: usize)
    requires
        1 <= dd <= 8,
        old(out)@.len() == 9,
        c_lsf@.len() >= 2 * dd - 1,
        poly_fits(old(out)@.map_values(|v: i32| v as int), c_lsf@.map_values(|v: i32| v as int), dd as int),
    ensures
        final(out)@.len() == 9,
        final(out)@.map_values(|v: i32| v as int) == poly(
            old(out)@.map_values(|v: i32| v as int),
            c_lsf@.map_values(|v: i32| v as int),
            dd as int,
        ),
{
    nlsf2a_find_poly(out, c_lsf, dd);
}

/// The table position an NLSF is interpolated at: itself, or for a negative
/// value its low 8 bits within the last table segment.
pub open spec fn cos_position(n: i16) -> i16 {
    if n >= 0 { n } else { (32512 + (n as int) % 256) as i16 }
}

/// The NLSFs mapped to their table positions.
pub open spec fn cos_positions(nlsf: Seq<i16>) -> Seq<i16> {
    nlsf.map_values(|n: i16| cos_position(n))
}

/// The 32-bit (Q17) coefficients of an NLSF vector of order `d`.
pub open spec fn nlsf_a32(nlsf: Seq<i16>, d: int) -> Seq<i32> {
    let c = cos_positions(nlsf);
    a32_coefs(poly_p(c, d), poly_q(c, d), d)
}

/// The inverse prediction gain [`silk_lpc_inverse_pred_gain`] computes.
pub open spec fn inv_pred_gain(a: Seq<i16>, d: int) -> int {
    if dc_response(a, d) >= 4096 { 0 } else { wrap_inv_gain(coefs_qa(a, d), d - 1, ONE_Q30 as int) }
}

/// Rounds `i..16` of the stabilization: while the Q12 filter is unstable,
/// expand the Q17 coefficients with chirp `1 - 2^(i+1) / 2^16` and convert again.
pub open spec fn gain_rounds(a32: Seq<i32>, aq: Seq<i16>, d: int, i: int) -> Seq<i16>
    decreases 16 - i,
{
    if i >= 16 || inv_pred_gain(aq, d) != 0 {
        aq
    } else {
        let a2 = bwexpand32_seq(a32, d, 0x1_0000 - 2 * pow2(i as nat));
        let aq2 = Seq::new(aq.len(), |k: int| if k < d { fx_rshift_round(a2[k] as int, 5) as i16 } else { aq[k] });
        gain_rounds(a2, aq2, d, i + 1)
    }
}

/// The conversion stays within 32 bits: the polynomials and their combination
/// fit, and the combined coefficients leave room for rounding by `2^5`.
pub open spec fn nlsf2a_in_range(nlsf: Seq<i16>, d: int) -> bool {
    &&& nlsf2a_fits(cos_positions(nlsf), d)
    &&& bounded(nlsf_a32(nlsf, d), d, i32::MAX - 16)
}

/// The Q12 coefficients of [`silk_nlsf2a`] (entries from `d` on are kept from `a0`).
pub open spec fn nlsf2a_value(nlsf: Seq<i16>, d: int, a0: Seq<i16>) -> Seq<i16> {
    let a32 = nlsf_a32(nlsf, d);
    gain_rounds(unit_fit_state(a32, d, 5, 10), unit_fit_out(a32, d, 5, a0), d, 0)
}

/// `2 cos(LSF)` (Q16) of one NLSF by interpolation in the cosine table at
/// [`cos_position`].
fn cos_lookup(n: i16) -> (r: i32)
    ensures
        r == cos_interp(cos_position(n) as int),
{
    let x = n as i32;
    proof {
        crate::arith::lemma_i32_shr_is_div(x, 8);
        vstd::arithmetic::power2::lemma2_to64();
    }
    let f_int = x >> 8u32;
    proof {
        crate::arith::lemma_i32_shl_is_mul(f_int, 8);
        lemma_wrap_id(f_int * 256, 0x8000_0000);
        lemma_cos_table_range();
        vstd::arithmetic::div_mod::lemma_fundamental_div_mod(x as int, 256);
    }
    let f_frac = x - (f_int << 8u32);
    let idx: usize = if f_int < 0 || f_int > 127 { 127 } else { f_int as usize };
    let cos_val = SILK_LSF_COS_TAB_FIX_Q12[idx] as i32;
    let delta = SILK_LSF_COS_TAB_FIX_Q12[idx + 1] as i32 - cos_val;
    proof {
        assert(0 <= f_frac <= 255);
        assert(-16384 * 255 <= delta * f_frac <= 16384 * 255) by (nonlinear_arith)
            requires -16384 <= delta <= 16384, 0 <= f_frac <= 255;
        crate::arith::lemma_i32_shl_is_mul(cos_val, 8);
        lemma_wrap_id(cos_val * 256, 0x8000_0000);
        let m = cos_position(n) as int;
        if x >= 0 {
            assert(m == x);
        } else {
            assert(m == 32512 + x % 256);
            assert(m / 256 == 127) by {
                vstd::arithmetic::div_mod::lemma_fundamental_div_mod(m, 256);
            }
        }
    }
    let interp = (cos_val << 8u32) + delta * f_frac;
    rshift_round(interp, 4)
}

/// Converts NLSFs (Q15) of order 10 or 16 to Q12 prediction coefficients
/// ([`nlsf2a_value`]): the cosines at [`cos_position`], the even and odd
/// polynomials, their combination in Q17, conversion to 16 bits
/// ([`silk_lpc_fit`]), then up to 16 rounds of bandwidth expansion while the
/// filter is unstable ([`gain_rounds`]). Entries of `a_q12` from `order` on are kept.
pub fn silk_nlsf2a(a_q12: &mut [i16], nlsf: &[i16], order: usize)
    requires
        order == 10 || order == 16,
        nlsf@.len() >= order,
        old(a_q12)@.len() >= order,
        nlsf2a_in_range(nlsf@, order as int),
    ensures
        final(a_q12)@ == nlsf2a_value(nlsf@, order as int, old(a_q12)@),
{
    let ghost nl = cos_positions(nlsf@);
    let d = order;
    let mut cos_lsf_qa = [0i32; 16];
    proof { lemma_ordering_range(); }
    assert(cos_lsf_qa@.map_values(|v: i32| v as int) =~= cos_fill(nl, d as int, 0));
    let mut k: usize = 0;
    while k < d
        invariant
            k <= d,
            d == 10 || d == 16,
            nl == cos_positions(nlsf@),
            nlsf@.len() >= d,
            forall|i: int| 0 <= i < 16 ==> #[trigger] ORDERING16@[i] < 16,
            forall|i: int| 0 <= i < 10 ==> #[trigger] ORDERING10@[i] < 16,
            cos_lsf_qa@.map_values(|v: i32| v as int) == cos_fill(nl, d as int, k as int),
        decreases d - k,
    {
        let c = cos_lookup(nlsf[k]);
        assert(nl[k as int] == cos_position(nlsf@[k as int]));
        let ord = if d == 16 { ORDERING16[k] } else { ORDERING10[k] };
        assert(ord == ordering(d as int)[k as int]);
        let ghost before = cos_lsf_qa@.map_values(|v: i32| v as int);
        cos_lsf_qa[ord as usize] = c;
        assert(cos_lsf_qa@.map_values(|v: i32| v as int) =~= before.update(ord as int, c as int));
        k += 1;
    }
    let ghost cos = cos_fill(nl, d as int, d as int);
    let dd = d / 2;
    let mut p = [0i32; 9];
    let mut q = [0i32; 9];
    let ghost z9 = Seq::new(9, |i: int| 0int);
    assert(p@.map_values(|v: i32| v as int) =~= z9);
    assert(q@.map_values(|v: i32| v as int) =~= z9);
    silk_nlsf2a_find_poly(&mut p, &cos_lsf_qa, dd);
    let odd = vstd::slice::slice_subrange(&cos_lsf_qa, 1, 16);
    assert(odd@.map_values(|v: i32| v as int) =~= cos.subrange(1, 16));
    silk_nlsf2a_find_poly(&mut q, odd, dd);
    let ghost pp = p@.map_values(|v: i32| v as int);
    let ghost qq = q@.map_values(|v: i32| v as int);
    assert(pp == poly_p(nl, d as int));
    assert(qq == poly_q(nl, d as int));
    let mut a32_qa1 = [0i32; 16];
    let mut k: usize = 0;
    while k < dd
        invariant
            k <= dd,
            dd == d / 2,
            d == 10 || d == 16,
            pp == p@.map_values(|v: i32| v as int),
            qq == q@.map_values(|v: i32| v as int),
            p@.len() == 9 && q@.len() == 9,
            a32_fits(pp, qq, d as int),
            forall|j: int| 0 <= j < 16 ==> #[trigger] a32_qa1@[j] == (if j < k || (d - k <= j < d) {
                a32_coefs(pp, qq, d as int)[j]
            } else {
                0i32
            }),
        decreases dd - k,
    {
        assert(pp[k as int + 1] == p@[k as int + 1] && pp[k as int] == p@[k as int]);
        assert(qq[k as int + 1] == q@[k as int + 1] && qq[k as int] == q@[k as int]);
        let p_tmp = p[k + 1] + p[k];
        let q_tmp = q[k + 1] - q[k];
        a32_qa1[k] = -q_tmp - p_tmp;
        a32_qa1[d - k - 1] = q_tmp - p_tmp;
        k += 1;
    }
    assert(a32_qa1@ =~= nlsf_a32(nlsf@, d as int));
    let ghost a32 = a32_qa1@;
    let ghost aq0 = a_q12@;
    proof { vstd::arithmetic::power2::lemma2_to64(); }
    silk_lpc_fit(a_q12, &mut a32_qa1, 12, 16 + 1, d);
    let mut i: i32 = 0;
    loop
        invariant
            0 <= i <= 16,
            d == 10 || d == 16,
            a32_qa1@.len() == 16,
            a_q12@.len() == aq0.len(),
            aq0.len() >= d,
            bounded(a32_qa1@, d as int, i32::MAX - 16),
            gain_rounds(a32_qa1@, a_q12@, d as int, i as int) == gain_rounds(
                unit_fit_state(a32, d as int, 5, 10),
                unit_fit_out(a32, d as int, 5, aq0),
                d as int,
                0,
            ),
        ensures
            a_q12@ == gain_rounds(unit_fit_state(a32, d as int, 5, 10), unit_fit_out(a32, d as int, 5, aq0), d as int, 0),
        decreases 16 - i,
    {
        if i >= 16 {
            break;
        }
        let g = silk_lpc_inverse_pred_gain(a_q12, d);
        if g != 0 {
            break;
        }
        let ghost b32 = a32_qa1@;
        let ghost bq = a_q12@;
        proof {
            crate::arith::lemma_i32_shl_is_mul(2, i as u32);
            vstd::arithmetic::power2::lemma2_to64();
            if i < 15 {
                vstd::arithmetic::power2::lemma_pow2_strictly_increases(i as nat, 15);
            }
            lemma_wrap_id(2 * pow2(i as nat) as int, 0x8000_0000);
        }
        let chirp = 65536 - (2i32 << (i as u32));
        proof { lemma_unit_range_chirp_fits(chirp as int, d as nat); }
        silk_bwexpander_32(&mut a32_qa1, d, chirp);
        assert(a32_qa1@ =~= bwexpand32_seq(b32, d as int, 0x1_0000 - 2 * pow2(i as nat)));
        proof { lemma_bwexpand_bounded(b32, d as int, chirp as int, i32::MAX - 16); }
        let mut k: usize = 0;
        while k < d
            invariant
                k <= d,
                d == 10 || d == 16,
                a32_qa1@.len() == 16,
                bounded(a32_qa1@, d as int, i32::MAX - 16),
                a_q12@.len() == bq.len(),
                bq.len() >= d,
                forall|j: int| 0 <= j < bq.len() ==> #[trigger] a_q12@[j] == (if j < k {
                    fx_rshift_round(a32_qa1@[j] as int, 5) as i16
                } else {
                    bq[j]
                }),
            decreases d - k,
        {
            assert(-(i32::MAX - 16) <= a32_qa1@[k as int] <= i32::MAX - 16);
            proof { vstd::arithmetic::power2::lemma2_to64(); }
            a_q12[k] = rshift_round(a32_qa1[k], 5) as i16;
            k += 1;
        }
        assert(a_q12@ =~= Seq::new(bq.len(), |j: int| if j < d { fx_rshift_round(a32_qa1@[j] as int, 5) as i16 } else { bq[j] }));
        i += 1;
    }
}

/// The step-down of an all-zero predictor with a zero reflection coefficient
/// is all zero, whatever the scaling.
proof fn lemma_zero_wrap_step(a: Seq<i32>, k: int, m2: int, q: int)
    requires
        1 <= q < 64,
        k <= a.len(),
        forall|i: int| 0 <= i < a.len() ==> #[trigger] a[i] == 0,
    ensures
        wrap_step_ok(a, k, 0, m2, q),
        forall|i: int| 0 <= i < a.len() ==> #[trigger] wrap_step_down(a, k, 0, m2, q)[i] == 0,
{
    vstd::arithmetic::power2::lemma2_to64();
    lemma_wrap_id(0, 0x8000_0000);
    assert(fx_rshift_round(0, 31) == 0) by {
        assert(fx_rshift_round(0, 31) == 0x4000_0000int / 0x8000_0000int);
    }
    assert(frac_q31(0, 0) == 0);
    assert(fx_rshift_round(0, q) == 0) by {
        vstd::arithmetic::power2::lemma_pow2_unfold(q as nat);
        vstd::arithmetic::power2::lemma_pow2_pos((q - 1) as nat);
        vstd::arithmetic::div_mod::lemma_basic_div(pow2((q - 1) as nat) as int, pow2(q as nat) as int);
    }
    assert forall|i: int| 0 <= i < k implies #[trigger] wrap_step_coef(a[i] as int, a[k - 1 - i] as int, 0, m2, q) == 0 by {
        assert(a[i] == 0 && a[k - 1 - i] == 0);
        assert(0 * m2 == 0) by (nonlinear_arith);
    }
}

/// An all-zero predictor is maximally stable: its inverse prediction gain by
/// the step-down recursion of this decoder is 1.0 (Q30).
pub proof fn lemma_zero_predictor_unit_inverse_gain(a: Seq<i32>, k: int)
    requires
        k < a.len(),
        0 < a.len(),
        forall|i: int| 0 <= i < a.len() ==> #[trigger] a[i] == 0,
    ensures
        wrap_inv_gain(a, k, ONE_Q30 as int) == ONE_Q30,
    decreases k,
{
    vstd::arithmetic::power2::lemma2_to64();
    assert(fx_smmul(0, 0) == 0);
    assert(fx_smmul(ONE_Q30 as int, ONE_Q30 as int) == 0x1000_0000) by {
        assert(0x4000_0000int * 0x4000_0000int == 0x1000_0000int * 0x1_0000_0000int);
    }
    lemma_wrap_id(0x1000_0000int * 4, 0x8000_0000);
    let kk = if k > 0 { k } else { 0 };
    assert(a[kk] == 0);
    if k > 0 {
        let m1 = ONE_Q30 as int;
        crate::arith::lemma_bit_length_bounds(m1 as nat);
        if bit_length(m1 as nat) > 31 {
            vstd::arithmetic::power2::lemma_pow2_strictly_increases(30, (bit_length(m1 as nat) - 1) as nat);
        }
        if bit_length(m1 as nat) < 31 {
            vstd::arithmetic::power2::lemma_pow2_strictly_increases(bit_length(m1 as nat), 30);
        }
        let m2 = inverse32_varq_value(m1, 61);
        lemma_zero_wrap_step(a, k, m2, 31);
        lemma_zero_predictor_unit_inverse_gain(wrap_step_down(a, k, 0, m2, 31), k - 1);
    }
}

} // verus!
