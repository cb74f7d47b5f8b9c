//! Fixed-point helpers of the standalone decoder.

use vstd::prelude::*;
use vstd::arithmetic::power2::pow2;
use crate::arith::{bit_length, wrap32, lemma_wrap_id};
use crate::silk::macros::{fx_rshift_round, fx_shl32, fx_smmul, fx_smulww, silk_rshift_round64};

verus! {

// ---------------------------------------------------------------------------
// Fixed-point helpers
// ---------------------------------------------------------------------------

/// Right shift with rounding; a non-positive shift shifts left instead and a
/// shift of 32 or more gives 0.
pub fn rshift_round(val: i32, shift: i32) -> (r: i32)
    requires
        shift > -32,
        1 <= shift < 32 ==> val + pow2((shift - 1) as nat) <= i32::MAX,
    ensures
        shift <= 0 ==> r == fx_shl32(val as int, -shift),
        shift >= 32 ==> r == 0,
        1 <= shift < 32 ==> r == fx_rshift_round(val as int, shift as int),
{
    if shift <= 0 {
        proof { crate::arith::lemma_i32_shl_is_mul(val, (-shift) as u32); }
        val << ((-shift) as u32)
    } else if shift >= 32 {
        0
    } else {
        proof {
            vstd::arithmetic::power2::lemma_pow2_pos((shift - 1) as nat);
            crate::arith::lemma_pow2_le_2_31((shift - 1) as nat);
            assert(pow2((shift - 1) as nat) <= 0x4000_0000) by {
                if shift - 1 == 31 {
                } else {
                    vstd::arithmetic::power2::lemma2_to64();
                    if (shift - 1) < 30 {
                        vstd::arithmetic::power2::lemma_pow2_strictly_increases((shift - 1) as nat, 30);
                    }
                }
            }
            assert((1i32 << ((shift - 1) as u32)) == pow2((shift - 1) as nat)) by {
                crate::arith::lemma_i32_shl_is_mul(1, (shift - 1) as u32);
                lemma_wrap_id(pow2((shift - 1) as nat) as int, 0x8000_0000);
            }
        }
        let biased = val + (1i32 << ((shift - 1) as u32));
        proof { crate::arith::lemma_i32_shr_is_div(biased, shift as u32); }
        biased >> (shift as u32)
    }
}

/// 64-bit right shift with rounding; non-positive shifts shift left, shifts of
/// 64 or more give 0.
pub fn rshift_round64_raw(val: i64, shift: i32) -> (r: i64)
    requires
        shift > -64,
        shift <= 0 ==> i64::MIN <= val * pow2((-shift) as nat) <= i64::MAX,
        1 <= shift < 64 ==> val + pow2((shift - 1) as nat) <= i64::MAX,
    ensures
        shift <= 0 ==> r == val * pow2((-shift) as nat),
        shift >= 64 ==> r == 0,
        1 <= shift < 64 ==> r == fx_rshift_round(val as int, shift as int),
{
    if shift <= 0 {
        proof {
            crate::arith::lemma_i64_shl_is_mul(val, (-shift) as u64);
            lemma_wrap_id(val * pow2((-shift) as nat), 0x8000_0000_0000_0000);
        }
        val << ((-shift) as u64)
    } else if shift >= 64 {
        0
    } else {
        let half = silk_rshift_round64(val, shift);
        half
    }
}

/// The value [`rshift_round64_raw`] computes.
pub open spec fn rshift_round64_value(val: int, shift: int) -> int {
    if shift <= 0 {
        val * pow2((-shift) as nat)
    } else if shift >= 64 {
        0
    } else {
        fx_rshift_round(val, shift)
    }
}

/// [`rshift_round64_raw`] truncated to 32 bits.
pub fn rshift_round64(val: i64, shift: i32) -> (r: i32)
    requires
        shift > -64,
        shift <= 0 ==> i64::MIN <= val * pow2((-shift) as nat) <= i64::MAX,
        1 <= shift < 64 ==> val + pow2((shift - 1) as nat) <= i64::MAX,
    ensures
        r == wrap32(rshift_round64_value(val as int, shift as int)),
{
    let t = rshift_round64_raw(val, shift);
    proof { crate::arith::lemma_i64_as_i32_any(t); }
    #[verifier::truncate] (t as i32)
}

/// `(a * b) >> 16` truncated to 32 bits.
pub fn smulww(a: i32, b: i32) -> (r: i32)
    ensures
        r == fx_smulww(a as int, b as int),
{
    crate::silk::macros::silk_smulww(a, b)
}

/// The high 32 bits of the 64-bit product.
pub fn smmul(a: i32, b: i32) -> (r: i32)
    ensures
        r == fx_smmul(a as int, b as int),
{
    crate::silk::macros::silk_smmul(a, b)
}

/// `round(a * b / 2^q)`, truncated to 32 bits.
pub fn mul32_frac_q(a: i32, b: i32, q: i32) -> (r: i32)
    requires
        0 < q < 64,
        a as int * b as int + pow2((q - 1) as nat) <= i64::MAX,
    ensures
        r == wrap32(fx_rshift_round(a as int * b as int, q as int)),
{
    proof {
        crate::arith::lemma_mul_bound_32_32(a as int, b as int);
    }
    rshift_round64(a as i64 * b as i64, q)
}

/// Leading zeros of `|x|` (32 for 0).
pub fn clz32(x: i32) -> (r: i32)
    requires
        x != i32::MIN,
    ensures
        r == 32 - bit_length((if x >= 0 { x as int } else { -x }) as nat),
{
    if x == 0 {
        32
    } else {
        let a: i32 = if x < 0 { -x } else { x };
        let u = a as u32;
        proof { crate::arith::lemma_u32_clz(u); }
        u.leading_zeros() as i32
    }
}

/// One step of the linear congruential generator.
pub fn silk_rand(seed: i32) -> (r: i32)
    ensures
        r == wrap32(seed * 196314165 + 907633515),
{
    let m = crate::silk::macros::silk_mul(seed, 196314165);
    proof { crate::arith::lemma_wrap_sum(seed * 196314165, 907633515, 0x8000_0000); }
    crate::silk::macros::silk_add32(m, 907633515)
}

} // verus!
