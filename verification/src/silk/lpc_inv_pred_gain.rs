//! Inverse prediction gain of an LPC filter, by the fixed-point step-down
//! (reflection coefficient) recursion. A result of 0 marks an unstable filter.

use vstd::prelude::*;
use vstd::arithmetic::power2::pow2;
use crate::arith::{clamp, wrap32, lemma_wrap_id};
use crate::silk::macros::{
    fx_abs, fx_clz32, fx_inverse32_varq, fx_rshift_round, fx_shl32, fx_smmul, silk_abs, silk_clz32,
    silk_inverse32_varq, silk_lshift, silk_rshift_round64, silk_smmul, silk_smull, silk_sub32,
    silk_sub_sat32,
};

verus! {

/// Q-domain of the coefficients during the recursion.
pub const QA: i32 = 24;
/// Largest admissible |coefficient|.
pub const A_LIMIT: i32 = 16_773_022;
/// Smallest admissible inverse gain.
pub const MIN_INV_GAIN_Q30: i32 = 107_374;
/// 1.0 in Q30.
pub const ONE_Q30: i32 = 0x4000_0000;

/// `round(a * b / 2^31)`, truncated to 32 bits.
pub open spec fn frac_q31(a: int, b: int) -> int {
    wrap32(fx_rshift_round(a * b, 31))
}

/// The updated coefficient from `x` and its mirror `y`:
/// `round(sat32(x - y * rc) * mult2 / 2^q)`.
pub open spec fn step_coef(x: int, y: int, rc: int, mult2: int, q: int) -> int {
    fx_rshift_round(clamp(x - frac_q31(y, rc), i32::MIN as int, i32::MAX as int) * mult2, q)
}

/// Every updated coefficient of one step-down fits in 32 bits.
pub open spec fn step_ok(a: Seq<i32>, k: int, rc: int, mult2: int, q: int) -> bool {
    forall|i: int| 0 <= i < k ==> i32::MIN <= #[trigger] step_coef(a[i] as int, a[k - 1 - i] as int, rc, mult2, q) <= i32::MAX
}

/// One step-down of the coefficients `0..k`.
pub open spec fn step_down(a: Seq<i32>, k: int, rc: int, mult2: int, q: int) -> Seq<i32> {
    Seq::new(a.len(), |i: int| if i < k { step_coef(a[i] as int, a[k - 1 - i] as int, rc, mult2, q) as i32 } else { a[i] })
}

/// The inverse prediction gain (Q30) of the coefficients `0..=k` (QA), given the
/// gain accumulated so far; 0 when the filter is found unstable.
pub open spec fn inv_gain_rec(a: Seq<i32>, k: int, inv: int) -> int
    decreases k,
{
    let kk = if k > 0 { k } else { 0 };
    let ak = a[kk] as int;
    if ak > A_LIMIT || ak < -A_LIMIT {
        0
    } else {
        let rc = -(ak * 128);
        let m1 = ONE_Q30 - fx_smmul(rc, rc);
        let inv2 = fx_shl32(fx_smmul(inv, m1), 2);
        if inv2 < MIN_INV_GAIN_Q30 {
            0
        } else if k <= 0 {
            inv2
        } else {
            let q = 32 - fx_clz32(m1);
            let m2 = fx_inverse32_varq(m1, q + 30);
            if !step_ok(a, k, rc, m2, q) {
                0
            } else {
                inv_gain_rec(step_down(a, k, rc, m2, q), k - 1, inv2)
            }
        }
    }
}

fn mul32_frac_q(a32: i32, b32: i32, q: i32) -> (r: i32)
    requires
        q == 31,
    ensures
        r == frac_q31(a32 as int, b32 as int),
{
    let t = silk_rshift_round64(silk_smull(a32, b32), q);
    proof {
        crate::arith::lemma_mul_bound_32_32(a32 as int, b32 as int);
        vstd::arithmetic::power2::lemma2_to64();
        vstd::arithmetic::div_mod::lemma_div_is_ordered(
            -0x4000_0000_0000_0000int + 0x4000_0000, a32 as int * b32 as int + 0x4000_0000, 0x8000_0000);
        vstd::arithmetic::div_mod::lemma_div_is_ordered(
            a32 as int * b32 as int + 0x4000_0000, 0x4000_0000_0000_0000int + 0x4000_0000, 0x8000_0000);
        crate::arith::lemma_i64_as_i32(t);
    }
    #[verifier::truncate] (t as i32)
}

/// Facts about one reflection coefficient within the admissible range.
pub proof fn lemma_reflection(ak: int)
    requires
        -A_LIMIT <= ak <= A_LIMIT,
    ensures
        ({
            let rc = -(ak * 128);
            let m1 = ONE_Q30 - fx_smmul(rc, rc);
            &&& fx_shl32(ak, 7) == ak * 128
            &&& -0x7fff_ffff <= rc <= 0x7fff_ffff
            &&& 0 <= fx_smmul(rc, rc) < ONE_Q30
            &&& 0 < m1 <= ONE_Q30
        }),
{
    vstd::arithmetic::power2::lemma2_to64();
    let rc = -(ak * 128);
    lemma_wrap_id(ak * 128, 0x8000_0000);
    assert(0 <= rc * rc <= 0x7ff3_d680_0000_0000 * 2) by (nonlinear_arith)
        requires -2146946816 <= rc <= 2146946816;
    assert(0 <= rc * rc < 0x4000_0000 * 0x1_0000_0000) by (nonlinear_arith)
        requires -2146946816 <= rc <= 2146946816;
    vstd::arithmetic::div_mod::lemma_div_is_ordered(0, rc * rc, 0x1_0000_0000);
    vstd::arithmetic::div_mod::lemma_div_is_ordered(rc * rc, 0x4000_0000 * 0x1_0000_0000 - 1, 0x1_0000_0000);
}

/// The inverse prediction gain (Q30) of the
/// `order` coefficients in `a_qa` (QA), or 0 for an unstable filter. The
/// coefficients are used as scratch space.
fn lpc_inverse_pred_gain_qa(a_qa: &mut [i32; 16], order: usize) -> (r: i32)
    requires
        order <= 16,
    ensures
        r == inv_gain_rec(old(a_qa)@, order - 1, ONE_Q30 as int),
{
    let ghost a0 = a_qa@;
    assert(a0 == old(a_qa)@);
    let mut inv_gain_q30: i32 = ONE_Q30;
    let mut k: i32 = order as i32 - 1;
    while k > 0
        invariant
            -1 <= k < 16,
            a0 == old(a_qa)@,
            a_qa@.len() == 16,
            0 < inv_gain_q30,
            inv_gain_rec(a0, order - 1, ONE_Q30 as int) == inv_gain_rec(a_qa@, k as int, inv_gain_q30 as int),
        decreases k,
    {
        let ku = k as usize;
        if a_qa[ku] > A_LIMIT || a_qa[ku] < -A_LIMIT {
            proof {
                let kk: int = k as int;
                assert(a_qa@[kk] > A_LIMIT || a_qa@[kk] < -A_LIMIT);
                assert(inv_gain_rec(a_qa@, k as int, inv_gain_q30 as int) == 0);
            }
            return 0;
        }
        let ghost ak = a_qa@[ku as int] as int;
        let ghost old_inv = inv_gain_q30;
        proof { lemma_reflection(ak); }
        let rc_q31 = -silk_lshift(a_qa[ku], 31 - QA);
        let rc_mult1_q30 = silk_sub32(ONE_Q30, silk_smmul(rc_q31, rc_q31));
        proof { lemma_wrap_id(ONE_Q30 - fx_smmul(rc_q31 as int, rc_q31 as int), 0x8000_0000); }
        inv_gain_q30 = silk_lshift(silk_smmul(inv_gain_q30, rc_mult1_q30), 2);
        if inv_gain_q30 < MIN_INV_GAIN_Q30 {
            return 0;
        }
        let abs_m1 = silk_abs(rc_mult1_q30);
        proof {
            lemma_wrap_id(rc_mult1_q30 as int, 0x8000_0000);
            crate::arith::lemma_bit_length_bounds(rc_mult1_q30 as nat);
            vstd::arithmetic::power2::lemma2_to64();
            if crate::arith::bit_length(rc_mult1_q30 as nat) >= 32 {
                vstd::arithmetic::power2::lemma_pow2_strictly_increases(30, (crate::arith::bit_length(rc_mult1_q30 as nat) - 1) as nat);
            }
        }
        let mult2_q = 32 - silk_clz32(abs_m1);
        proof {
            assert(1 <= mult2_q <= 31);
            crate::silk::macros::lemma_headroom_range(rc_mult1_q30);
        }
        let rc_mult2 = silk_inverse32_varq(rc_mult1_q30, mult2_q + 30);
        let ghost a1 = a_qa@;
        let kp1 = k + 1;
        assert((kp1 >> 1u32) == kp1 / 2) by { crate::arith::lemma_bv_i32(kp1, 0, 0); }
        let n_max = (kp1 >> 1u32) as usize;
        let mut n: usize = 0;
        while n < n_max
            invariant
                0 < k < 16,
                ku == k,
                a0 == old(a_qa)@,
                inv_gain_rec(a0, order - 1, ONE_Q30 as int) == inv_gain_rec(a1, k as int, old_inv as int),
                inv_gain_q30 == fx_shl32(fx_smmul(old_inv as int, rc_mult1_q30 as int), 2),
                rc_mult1_q30 == ONE_Q30 - fx_smmul(rc_q31 as int, rc_q31 as int),
                rc_q31 == -(a1[k as int] as int * 128),
                -A_LIMIT <= a1[k as int] <= A_LIMIT,
                inv_gain_q30 >= MIN_INV_GAIN_Q30,
                mult2_q == 32 - fx_clz32(rc_mult1_q30 as int),
                rc_mult2 == fx_inverse32_varq(rc_mult1_q30 as int, mult2_q + 30),
                n <= n_max,
                n_max == (k + 1) / 2,
                a_qa@.len() == 16,
                a1.len() == 16,
                1 <= mult2_q <= 31,
                forall|i: int| 0 <= i < n ==> #[trigger] a_qa@[i] == step_coef(
                    a1[i] as int, a1[k - 1 - i] as int, rc_q31 as int, rc_mult2 as int, mult2_q as int),
                forall|i: int| 0 <= i < n ==> #[trigger] a_qa@[k - 1 - i] == step_coef(
                    a1[k - 1 - i] as int, a1[i] as int, rc_q31 as int, rc_mult2 as int, mult2_q as int),
                forall|i: int| 0 <= i < n ==> i32::MIN <= #[trigger] step_coef(
                    a1[i] as int, a1[k - 1 - i] as int, rc_q31 as int, rc_mult2 as int, mult2_q as int) <= i32::MAX,
                forall|i: int| 0 <= i < n ==> i32::MIN <= #[trigger] step_coef(
                    a1[k - 1 - i] as int, a1[i] as int, rc_q31 as int, rc_mult2 as int, mult2_q as int) <= i32::MAX,
                forall|i: int| n <= i < k - n ==> #[trigger] a_qa@[i] == a1[i],
                forall|i: int| k <= i < 16 ==> #[trigger] a_qa@[i] == a1[i],
            decreases n_max - n,
        {
            let tmp1 = a_qa[n];
            let tmp2 = a_qa[ku - n - 1];
            let t1 = silk_rshift_round64(
                silk_smull(silk_sub_sat32(tmp1, mul32_frac_q(tmp2, rc_q31, 31)), rc_mult2),
                mult2_q,
            );
            proof {
                assert(tmp1 == a1[n as int]);
                assert(tmp2 == a1[k - 1 - n]);
                assert(t1 == step_coef(a1[n as int] as int, a1[k - 1 - n] as int, rc_q31 as int, rc_mult2 as int, mult2_q as int));
            }
            if t1 > i32::MAX as i64 || t1 < i32::MIN as i64 {
                proof {
                    assert(!step_ok(a1, k as int, rc_q31 as int, rc_mult2 as int, mult2_q as int));
                }
                return 0;
            }
            a_qa[n] = t1 as i32;
            let t2 = silk_rshift_round64(
                silk_smull(silk_sub_sat32(tmp2, mul32_frac_q(tmp1, rc_q31, 31)), rc_mult2),
                mult2_q,
            );
            proof {
                assert(t2 == step_coef(a1[k - 1 - n] as int, a1[n as int] as int, rc_q31 as int, rc_mult2 as int, mult2_q as int));
            }
            if t2 > i32::MAX as i64 || t2 < i32::MIN as i64 {
                proof {
                    let j = k - 1 - n;
                    assert(step_coef(a1[j] as int, a1[k - 1 - j] as int, rc_q31 as int, rc_mult2 as int, mult2_q as int) == t2);
                    assert(a1[k - 1 - j] == a1[n as int]);
                    assert(!step_ok(a1, k as int, rc_q31 as int, rc_mult2 as int, mult2_q as int));
                }
                return 0;
            }
            a_qa[ku - n - 1] = t2 as i32;
            n += 1;
        }
        proof {
            let rc = rc_q31 as int;
            let m2 = rc_mult2 as int;
            let q = mult2_q as int;
            assert forall|i: int| 0 <= i < k implies i32::MIN <= #[trigger] step_coef(
                a1[i] as int, a1[k - 1 - i] as int, rc, m2, q) <= i32::MAX by {
                if i >= n {
                    let j = k - 1 - i;
                    assert(0 <= j < n);
                    assert(a1[k - 1 - j] == a1[i]);
                }
            }
            assert(step_ok(a1, k as int, rc, m2, q));
            assert forall|i: int| 0 <= i < 16 implies #[trigger] a_qa@[i] == step_down(a1, k as int, rc, m2, q)[i] by {
                if i < k && i >= n {
                    let j = k - 1 - i;
                    assert(0 <= j < n);
                    assert(a1[k - 1 - j] == a1[i]);
                    assert(k - 1 - j == i);
                }
            }
            assert(a_qa@ =~= step_down(a1, k as int, rc, m2, q));
        }
        k -= 1;
    }
    if a_qa[0] > A_LIMIT || a_qa[0] < -A_LIMIT {
        return 0;
    }
    proof { lemma_reflection(a_qa@[0] as int); }
    let rc_q31 = -silk_lshift(a_qa[0], 31 - QA);
    let rc_mult1_q30 = silk_sub32(ONE_Q30, silk_smmul(rc_q31, rc_q31));
    proof { lemma_wrap_id(ONE_Q30 - fx_smmul(rc_q31 as int, rc_q31 as int), 0x8000_0000); }
    inv_gain_q30 = silk_lshift(silk_smmul(inv_gain_q30, rc_mult1_q30), 2);
    if inv_gain_q30 < MIN_INV_GAIN_Q30 {
        return 0;
    }
    inv_gain_q30
}

/// The sum of the first `n` Q12 coefficients (the filter's response at DC).
pub open spec fn dc_response(a: Seq<i16>, n: int) -> int
    decreases n,
{
    if n <= 0 { 0 } else { dc_response(a, n - 1) + a[n - 1] as int }
}

/// The Q12 coefficients converted to QA, zero beyond `order`.
pub open spec fn coefs_qa(a: Seq<i16>, order: int) -> Seq<i32> {
    Seq::new(16, |i: int| if i < order { (a[i] as int * 4096) as i32 } else { 0i32 })
}

/// The inverse prediction gain (Q30) of the
/// `order` Q12 coefficients `a_q12`; 0 when the filter is unstable (its DC
/// response reaches 1.0 or a reflection coefficient leaves the admissible range).
pub fn silk_lpc_inverse_pred_gain(a_q12: &[i16], order: usize) -> (r: i32)
    requires
        order <= 16,
        order <= a_q12@.len(),
    ensures
        dc_response(a_q12@, order as int) >= 4096 ==> r == 0,
        dc_response(a_q12@, order as int) < 4096 ==> r == inv_gain_rec(coefs_qa(a_q12@, order as int), order - 1, ONE_Q30 as int),
{
    let mut atmp_qa = [0i32; 16];
    let mut dc_resp: i32 = 0;
    let mut k: usize = 0;
    while k < order
        invariant
            k <= order <= 16,
            order <= a_q12@.len(),
            atmp_qa@.len() == 16,
            dc_resp == dc_response(a_q12@, k as int),
            -0x8000 * k <= dc_resp <= 0x7fff * k,
            forall|i: int| 0 <= i < 16 ==> #[trigger] atmp_qa@[i] == coefs_qa(a_q12@, k as int)[i],
        decreases order - k,
    {
        dc_resp += a_q12[k] as i32;
        let v = a_q12[k] as i32;
        proof {
            assert(-0x800_0000 <= v * 4096 <= 0x7ff_f000) by (nonlinear_arith)
                requires -0x8000 <= v <= 0x7fff;
            assert((v << 12u32) == v * 4096) by {
                crate::arith::lemma_i32_shl_is_mul(v, 12);
                vstd::arithmetic::power2::lemma2_to64();
                lemma_wrap_id(v * 4096, 0x8000_0000);
            }
        }
        atmp_qa[k] = v << 12u32;
        k += 1;
    }
    assert(atmp_qa@ =~= coefs_qa(a_q12@, order as int));
    if dc_resp >= 4096 {
        return 0;
    }
    lpc_inverse_pred_gain_qa(&mut atmp_qa, order)
}

/// The step-down of an all-zero predictor with a zero reflection coefficient
/// is all zero, whatever the scaling.
proof fn lemma_zero_step(a: Seq<i32>, k: int, m2: int, q: int)
    requires
        1 <= q < 64,
        k <= a.len(),
        forall|i: int| 0 <= i < a.len() ==> #[trigger] a[i] == 0,
    ensures
        step_ok(a, k, 0, m2, q),
        forall|i: int| 0 <= i < a.len() ==> #[trigger] step_down(a, k, 0, m2, q)[i] == 0,
{
    vstd::arithmetic::power2::lemma2_to64();
    lemma_wrap_id(0, 0x8000_0000);
    assert(fx_rshift_round(0, 31) == 0) by {
        assert(fx_rshift_round(0, 31) == 0x4000_0000int / 0x8000_0000int);
    }
    assert(frac_q31(0, 0) == 0);
    assert(fx_rshift_round(0, q) == 0) by {
        vstd::arithmetic::power2::lemma_pow2_unfold(q as nat);
        vstd::arithmetic::power2::lemma_pow2_pos((q - 1) as nat);
        vstd::arithmetic::div_mod::lemma_basic_div(pow2((q - 1) as nat) as int, pow2(q as nat) as int);
    }
    assert forall|i: int| 0 <= i < k implies #[trigger] step_coef(a[i] as int, a[k - 1 - i] as int, 0, m2, q) == 0 by {
        assert(a[i] == 0 && a[k - 1 - i] == 0);
        assert(clamp(0, i32::MIN as int, i32::MAX as int) == 0);
        assert(0 * m2 == 0) by (nonlinear_arith);
    }
}

/// The first reflection step of an all-zero predictor keeps the gain at 1.0.
proof fn lemma_unit_reflection()
    ensures
        fx_smmul(0, 0) == 0,
        fx_shl32(fx_smmul(ONE_Q30 as int, ONE_Q30 - fx_smmul(0, 0)), 2) == ONE_Q30,
        32 - fx_clz32(ONE_Q30 as int) == 31,
{
    vstd::arithmetic::power2::lemma2_to64();
    assert(fx_smmul(ONE_Q30 as int, ONE_Q30 as int) == 0x1000_0000) by {
        assert(0x4000_0000int * 0x4000_0000int == 0x1000_0000int * 0x1_0000_0000int);
    }
    lemma_wrap_id(0x1000_0000int * 4, 0x8000_0000);
    let m1 = ONE_Q30 as int;
    crate::arith::lemma_bit_length_bounds(m1 as nat);
    if crate::arith::bit_length(m1 as nat) > 31 {
        vstd::arithmetic::power2::lemma_pow2_strictly_increases(30, (crate::arith::bit_length(m1 as nat) - 1) as nat);
    }
    if crate::arith::bit_length(m1 as nat) < 31 {
        vstd::arithmetic::power2::lemma_pow2_strictly_increases(crate::arith::bit_length(m1 as nat), 30);
    }
}

/// An all-zero predictor is maximally stable: its inverse prediction gain is 1.0 (Q30).
pub proof fn lemma_zero_predictor_has_unit_gain(a: Seq<i32>, k: int)
    requires
        k < a.len(),
        0 < a.len(),
        forall|i: int| 0 <= i < a.len() ==> #[trigger] a[i] == 0,
    ensures
        inv_gain_rec(a, k, ONE_Q30 as int) == ONE_Q30,
    decreases k,
{
    lemma_unit_reflection();
    let kk = if k > 0 { k } else { 0 };
    assert(a[kk] == 0);
    if k > 0 {
        let m2 = fx_inverse32_varq(ONE_Q30 as int, 61);
        lemma_zero_step(a, k, m2, 31);
        lemma_zero_predictor_has_unit_gain(step_down(a, k, 0, m2, 31), k - 1);
    }
}

} // verus!
