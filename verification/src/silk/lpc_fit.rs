//! Conversion of 32-bit LPC coefficients to 16 bits, with bandwidth expansion
//! (at most ten rounds) until the largest coefficient fits.

use vstd::prelude::*;
use crate::arith::{clamp, wrap16, wrap32, lemma_wrap_id};
use crate::silk::bwexpander::{bw_chirp, lemma_unit_range_chirp_fits, silk_bwexpander_32};
use crate::silk::macros::{
    fx_abs, fx_div32, fx_rshift_round, fx_shl32, fx_shr, fx_smulww, silk_abs, silk_div32, silk_lshift,
    silk_min, silk_mul, silk_rshift, silk_rshift_round, silk_sat16, SILK_INT16_MAX,
};

verus! {

pub const CHIRP_BASE_Q16: i32 = 65470;
pub const MAXABS_CLAMP: i32 = 163_838;

/// The largest absolute value among `a[0..k]` (wrapping `|i32::MIN|` to itself)
/// and the first index where it occurs.
pub open spec fn max_abs_upto(a: Seq<i32>, k: int) -> (int, int)
    decreases k,
{
    if k <= 0 {
        (0, 0)
    } else {
        let (m, i) = max_abs_upto(a, k - 1);
        let v = fx_abs(a[k - 1] as int);
        if v > m { (v, k - 1) } else { (m, i) }
    }
}

/// The largest coefficient of `a[0..d]` in the output domain.
pub open spec fn fit_max_shifted(a: Seq<i32>, d: int, qd: int) -> int {
    fx_rshift_round(max_abs_upto(a, d).0, qd)
}

/// The coefficients still do not fit in 16 bits.
pub open spec fn fit_needs_expansion(a: Seq<i32>, d: int, qd: int) -> bool {
    fit_max_shifted(a, d, qd) > SILK_INT16_MAX
}

/// The chirp of the next expansion: stronger the larger the excess and the
/// earlier the largest coefficient.
pub open spec fn fit_chirp(a: Seq<i32>, d: int, qd: int) -> int {
    let ms = fit_max_shifted(a, d, qd);
    let c = if ms < MAXABS_CLAMP { ms } else { MAXABS_CLAMP as int };
    let idx = max_abs_upto(a, d).1;
    CHIRP_BASE_Q16 - fx_div32(fx_shl32(c - SILK_INT16_MAX, 14), fx_shr(wrap32(c * (idx + 1)), 2))
}

/// `a` after one bandwidth expansion of its first `d` coefficients with chirp `c0`.
pub open spec fn bwexpand32_seq(a: Seq<i32>, d: int, c0: int) -> Seq<i32> {
    Seq::new(a.len(), |k: int| if k < d { fx_smulww(bw_chirp(c0, k as nat), a[k] as int) as i32 } else { a[k] })
}

/// The coefficients after `i` rounds: each round expands while they do not fit.
pub open spec fn fit_state(a: Seq<i32>, d: int, qd: int, i: nat) -> Seq<i32>
    decreases i,
{
    if i == 0 {
        a
    } else {
        let p = fit_state(a, d, qd, (i - 1) as nat);
        if fit_needs_expansion(p, d, qd) { bwexpand32_seq(p, d, fit_chirp(p, d, qd)) } else { p }
    }
}

/// All ten rounds expanded: the coefficients are finally clipped.
pub open spec fn fit_clipped(a: Seq<i32>, d: int, qd: int) -> bool {
    forall|j: nat| j < 10 ==> #[trigger] fit_needs_expansion(fit_state(a, d, qd, j), d, qd)
}

/// The 16-bit coefficients `silk_lpc_fit` produces from `a` (entries from
/// `d` on keep their values from `out0`).
pub open spec fn fit_out(a: Seq<i32>, d: int, qd: int, out0: Seq<i16>) -> Seq<i16> {
    let fitted = fit_state(a, d, qd, 10);
    Seq::new(out0.len(), |k: int| if k < d {
        if fit_clipped(a, d, qd) {
            clamp(fx_rshift_round(fitted[k] as int, qd), -0x8000, 0x7fff) as i16
        } else {
            wrap16(fx_rshift_round(fitted[k] as int, qd)) as i16
        }
    } else {
        out0[k]
    })
}

/// The 32-bit coefficients `silk_lpc_fit` leaves in its input: the expanded
/// ones, replaced by the clipped 16-bit values shifted back when clipping was needed.
pub open spec fn fit_in(a: Seq<i32>, d: int, qd: int, out0: Seq<i16>) -> Seq<i32> {
    let fitted = fit_state(a, d, qd, 10);
    if fit_clipped(a, d, qd) {
        Seq::new(fitted.len(), |k: int| if k < d { fx_shl32(fit_out(a, d, qd, out0)[k] as int, qd) as i32 } else { fitted[k] })
    } else {
        fitted
    }
}

/// The chirp of an expansion lies between 0 and 1.0 (Q16).
proof fn lemma_fit_chirp_range(ms: int, idx: int, q: int, num: int, den: int)
    requires
        SILK_INT16_MAX < ms <= MAXABS_CLAMP,
        0 <= idx < 16,
        num == (ms - SILK_INT16_MAX) * 16384,
        den == (ms * (idx + 1)) / 4,
        q == num / den,
    ensures
        den >= 8192,
        0 <= q <= CHIRP_BASE_Q16,
{
    assert(ms * (idx + 1) >= ms) by (nonlinear_arith) requires ms > 0, idx >= 0;
    assert(den >= 8192);
    assert(num > 0);
    vstd::arithmetic::div_mod::lemma_fundamental_div_mod(ms * (idx + 1), 4);
    vstd::arithmetic::div_mod::lemma_fundamental_div_mod(num, den);
    vstd::arithmetic::div_mod::lemma_div_pos_is_pos(num, den);
    assert(4 * den >= ms - 3);
    assert(q * den <= num) by {
        vstd::arithmetic::div_mod::lemma_mod_bound(num, den);
    }
    assert(q <= CHIRP_BASE_Q16) by (nonlinear_arith)
        requires
            q * den <= num,
            4 * den >= ms - 3,
            num == (ms - SILK_INT16_MAX) * 16384,
            SILK_INT16_MAX < ms <= MAXABS_CLAMP,
            q >= 0,
            den > 0,
    {
        if q > CHIRP_BASE_Q16 {
            assert(q * (4 * den) >= (CHIRP_BASE_Q16 + 1) * (ms - 3));
        }
    }
}

/// Once the coefficients fit, further rounds leave them unchanged.
proof fn lemma_fit_state_stable(a: Seq<i32>, d: int, qd: int, i: nat, j: nat)
    requires
        i <= j,
        !fit_needs_expansion(fit_state(a, d, qd, i), d, qd),
    ensures
        fit_state(a, d, qd, j) == fit_state(a, d, qd, i),
    decreases j - i,
{
    if j > i {
        lemma_fit_state_stable(a, d, qd, i, (j - 1) as nat);
    }
}

/// The largest absolute value of `a[0..d]` and its first index.
fn find_max_abs(a: &[i32], d: usize) -> (r: (i32, usize))
    requires
        d <= a@.len(),
    ensures
        r.0 as int == max_abs_upto(a@, d as int).0,
        r.1 as int == max_abs_upto(a@, d as int).1,
        0 <= r.0,
        d > 0 ==> r.1 < d,
        d == 0 ==> r.1 == 0,
{
    let mut maxabs: i32 = 0;
    let mut idx: usize = 0;
    let mut k: usize = 0;
    while k < d
        invariant
            k <= d <= a@.len(),
            maxabs as int == max_abs_upto(a@, k as int).0,
            idx as int == max_abs_upto(a@, k as int).1,
            0 <= maxabs,
            k > 0 ==> idx < k,
            k == 0 ==> idx == 0,
        decreases d - k,
    {
        let absval = silk_abs(a[k]);
        if absval > maxabs {
            maxabs = absval;
            idx = k;
        }
        k += 1;
    }
    (maxabs, idx)
}

/// Converts the first `d` coefficients of `a_qin` (Q`q_in`)
/// to Q`q_out` in `a_qout`. While the largest one does not fit in 16 bits (at
/// most ten rounds) `a_qin` is bandwidth-expanded; if all ten rounds were needed,
/// the result is saturated and written back to `a_qin`.
pub fn silk_lpc_fit(a_qout: &mut [i16], a_qin: &mut [i32], q_out: i32, q_in: i32, d: usize)
    requires
        1 <= q_in - q_out < 32,
        1 <= d <= 16,
        d <= old(a_qout)@.len(),
        d <= old(a_qin)@.len(),
    ensures
        final(a_qout)@ == fit_out(old(a_qin)@, d as int, (q_in - q_out) as int, old(a_qout)@),
        final(a_qin)@ == fit_in(old(a_qin)@, d as int, (q_in - q_out) as int, old(a_qout)@),
        ({
            let qd = (q_in - q_out) as int;
            let fitted = fit_state(old(a_qin)@, d as int, qd, 10);
            &&& final(a_qout)@.len() == old(a_qout)@.len()
            &&& final(a_qin)@.len() == old(a_qin)@.len()
            &&& forall|k: int| d <= k < old(a_qout)@.len() ==> #[trigger] final(a_qout)@[k] == old(a_qout)@[k]
            &&& fit_clipped(old(a_qin)@, d as int, qd) ==> {
                &&& forall|k: int| 0 <= k < d ==> #[trigger] final(a_qout)@[k] == clamp(
                    fx_rshift_round(fitted[k] as int, qd), -0x8000, 0x7fff)
                &&& forall|k: int| 0 <= k < d ==> #[trigger] final(a_qin)@[k] == fx_shl32(final(a_qout)@[k] as int, qd)
                &&& forall|k: int| d <= k < old(a_qin)@.len() ==> #[trigger] final(a_qin)@[k] == fitted[k]
            }
            &&& !fit_clipped(old(a_qin)@, d as int, qd) ==> {
                &&& forall|k: int| 0 <= k < d ==> #[trigger] final(a_qout)@[k] == wrap16(
                    fx_rshift_round(fitted[k] as int, qd))
                &&& final(a_qin)@ == fitted
            }
        }),
{
    let ghost a0 = a_qin@;
    let ghost qd = (q_in - q_out) as int;
    let qdiff = q_in - q_out;
    let mut i: i32 = 0;
    while i < 10
        invariant_except_break
            0 <= i <= 10,
            forall|j: nat| j < i ==> #[trigger] fit_needs_expansion(fit_state(a0, d as int, qd, j), d as int, qd),
        invariant
            1 <= qdiff < 32,
            qdiff == qd,
            1 <= d <= 16,
            d <= a_qin@.len(),
            a_qin@.len() == a0.len(),
            0 <= i <= 10,
            a_qin@ == fit_state(a0, d as int, qd, i as nat),
        ensures
            a_qin@ == fit_state(a0, d as int, qd, i as nat),
            i == 10 ==> fit_clipped(a0, d as int, qd),
            i < 10 ==> !fit_needs_expansion(fit_state(a0, d as int, qd, i as nat), d as int, qd),
        decreases 10 - i,
    {
        let (maxabs, idx) = find_max_abs(a_qin, d);
        let maxabs_shifted = silk_rshift_round(maxabs, qdiff);
        if maxabs_shifted > SILK_INT16_MAX {
            let maxabs_clamped = silk_min(maxabs_shifted, MAXABS_CLAMP);
            let ghost num = (maxabs_clamped - SILK_INT16_MAX) * 16384;
            proof {
                assert(0 < num < 0x8000_0000) by (nonlinear_arith)
                    requires num == (maxabs_clamped - SILK_INT16_MAX) * 16384, SILK_INT16_MAX < maxabs_clamped <= MAXABS_CLAMP;
                vstd::arithmetic::power2::lemma2_to64();
                lemma_wrap_id(num, 0x8000_0000);
                assert(0 < maxabs_clamped * (idx + 1) <= MAXABS_CLAMP * 16) by (nonlinear_arith)
                    requires SILK_INT16_MAX < maxabs_clamped <= MAXABS_CLAMP, 0 <= idx < 16;
                lemma_wrap_id(maxabs_clamped * (idx + 1), 0x8000_0000);
            }
            let numerator = silk_lshift(maxabs_clamped - SILK_INT16_MAX, 14);
            let denominator = silk_rshift(silk_mul(maxabs_clamped, idx as i32 + 1), 2);
            proof {
                lemma_fit_chirp_range(maxabs_clamped as int, idx as int, numerator as int / denominator as int,
                    num, denominator as int);
                lemma_wrap_id(numerator as int / denominator as int, 0x8000_0000);
            }
            let q = silk_div32(numerator, denominator);
            let chirp_q16 = CHIRP_BASE_Q16 - q;
            proof {
                lemma_unit_range_chirp_fits(chirp_q16 as int, d as nat);
                assert(chirp_q16 == fit_chirp(a_qin@, d as int, qd));
            }
            let ghost before = a_qin@;
            silk_bwexpander_32(a_qin, d, chirp_q16);
            proof {
                assert(a_qin@ =~= bwexpand32_seq(before, d as int, chirp_q16 as int));
                assert(fit_needs_expansion(before, d as int, qd));
                assert(fit_state(a0, d as int, qd, (i + 1) as nat) == bwexpand32_seq(before, d as int, fit_chirp(before, d as int, qd)));
            }
        } else {
            break;
        }
        i += 1;
    }
    proof {
        if i < 10 {
            lemma_fit_state_stable(a0, d as int, qd, i as nat, 10);
            assert(!fit_clipped(a0, d as int, qd));
        }
        assert(a0 == old(a_qin)@);
        assert(a_qin@ == fit_state(a0, d as int, qd, 10));
    }
    if i == 10 {
        let ghost fitted = a_qin@;
        let mut k: usize = 0;
        while k < d
            invariant
                k <= d <= a_qin@.len(),
                d <= a_qout@.len(),
                1 <= qdiff < 32,
                qdiff == qd,
                a_qin@.len() == fitted.len(),
                a_qout@.len() == old(a_qout)@.len(),
                forall|j: int| 0 <= j < k ==> #[trigger] a_qout@[j] == clamp(
                    fx_rshift_round(fitted[j] as int, qd), -0x8000, 0x7fff),
                forall|j: int| 0 <= j < k ==> #[trigger] a_qin@[j] == fx_shl32(a_qout@[j] as int, qd),
                forall|j: int| k <= j < fitted.len() ==> #[trigger] a_qin@[j] == fitted[j],
                forall|j: int| d <= j < a_qout@.len() ==> #[trigger] a_qout@[j] == old(a_qout)@[j],
            decreases d - k,
        {
            a_qout[k] = silk_sat16(silk_rshift_round(a_qin[k], qdiff)) as i16;
            a_qin[k] = silk_lshift(a_qout[k] as i32, qdiff);
            k += 1;
        }
    } else {
        let mut k: usize = 0;
        while k < d
            invariant
                k <= d <= a_qin@.len(),
                d <= a_qout@.len(),
                1 <= qdiff < 32,
                qdiff == qd,
                a_qout@.len() == old(a_qout)@.len(),
                forall|j: int| 0 <= j < k ==> #[trigger] a_qout@[j] == wrap16(
                    fx_rshift_round(a_qin@[j] as int, qd)),
                forall|j: int| d <= j < a_qout@.len() ==> #[trigger] a_qout@[j] == old(a_qout)@[j],
            decreases d - k,
        {
            let v = silk_rshift_round(a_qin[k], qdiff);
            a_qout[k] = crate::arith::low16(v);
            k += 1;
        }
    }
    proof {
        let fo = fit_out(old(a_qin)@, d as int, qd, old(a_qout)@);
        assert(a_qout@ =~= fo);
        if fit_clipped(old(a_qin)@, d as int, qd) {
            assert(a_qin@ =~= fit_in(old(a_qin)@, d as int, qd, old(a_qout)@));
        }
    }
}

} // verus!
