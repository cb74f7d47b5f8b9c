//! Fixed-point arithmetic primitives of the SILK decoder. Every primitive is specified by a
//! spec function over mathematical integers; operations that wrap do so modulo
//! the width of their result (see [`wrap32`]).

use vstd::prelude::*;
use vstd::arithmetic::power2::pow2;
use crate::arith::{
    clamp, hi16, lemma_i16_wrapping_add, lemma_i32_shl_is_mul, lemma_i32_shr_is_div,
    lemma_i32_wrapping_add, lemma_i32_wrapping_mul, lemma_i64_as_i32, lemma_i64_shl_is_mul,
    lemma_i64_shr_is_div, lemma_i64_wrapping_add, lemma_wrap_bounds, lemma_wrap_id,
    lemma_wrap_sum, lo16, tdiv, wrap16, wrap32, wrap64, low16, high16, lemma_mul_bound_32_16,
    lemma_mul_bound_16_16, lemma_mul_bound_32_32, lemma_shr16_of_small, lemma_pow2_le_2_31,
    lemma_rshift_round_32, lemma_rshift_round_64, lemma_wrap_neg, bit_length, lemma_u16_clz,
    lemma_u32_clz, lemma_u64_clz, lemma_i32_as_u32, lemma_wrap16_small, lemma_bv_i32, lemma_bv_i32_low_bits,
    lemma_bv_i64, lemma_bv_u16, lemma_bv_u32,
};

verus! {

/// The constants of the normalized division: `i32::MAX >> 2` and `1 << 29`.
proof fn lemma_div_constants()
    ensures
        0x7fff_ffffi32 >> 2u32 == 0x1fff_ffff,
        1i32 << 29u32 == 0x2000_0000,
{
    lemma_i32_shr_is_div(0x7fff_ffff, 2);
    lemma_i32_shl_is_mul(1, 29);
    vstd::arithmetic::power2::lemma2_to64();
    lemma_wrap_id(0x2000_0000, 0x8000_0000);
}

pub const SILK_INT16_MAX: i32 = 0x7FFF;
pub const SILK_INT16_MIN: i32 = -0x8000;
pub const SILK_INT32_MAX: i32 = 0x7FFF_FFFF;
pub const SILK_INT32_MIN: i32 = -0x8000_0000;

// ---------------------------------------------------------------------------
// Models
// ---------------------------------------------------------------------------

/// `a * 2^s` wrapped to 32 bits.
pub open spec fn fx_shl32(a: int, s: int) -> int {
    wrap32(a * pow2(s as nat))
}

/// `floor(a / 2^s)`.
pub open spec fn fx_shr(a: int, s: int) -> int {
    a / (pow2(s as nat) as int)
}

/// `a / 2^s` rounded to nearest, ties toward +infinity.
pub open spec fn fx_rshift_round(a: int, s: int) -> int {
    (a + pow2((s - 1) as nat)) / (pow2(s as nat) as int)
}

/// `(a * lo16(b)) >> 16`: `a` times the low half of `b`, in Q16.
pub open spec fn fx_smulwb(a: int, b: int) -> int {
    (a * wrap16(b)) / 0x1_0000
}

/// `(a * hi16(b)) >> 16`: `a` times the high half of `b`, in Q16.
pub open spec fn fx_smulwt(a: int, b: int) -> int {
    (a * (b / 0x1_0000)) / 0x1_0000
}

/// `(a * b) >> 16` truncated to 32 bits.
pub open spec fn fx_smulww(a: int, b: int) -> int {
    wrap32((a * b) / 0x1_0000)
}

/// The high 32 bits of the 64-bit product.
pub open spec fn fx_smmul(a: int, b: int) -> int {
    (a * b) / 0x1_0000_0000
}

/// `|a|` wrapped to 32 bits (so `i32::MIN` maps to itself).
pub open spec fn fx_abs(a: int) -> int {
    wrap32(if a > 0 { a } else { -a })
}

/// Division truncating toward zero, wrapped to 32 bits.
pub open spec fn fx_div32(a: int, b: int) -> int {
    wrap32(tdiv(a, b))
}

/// Rotation of the 32-bit word `u` to the right by `k < 32` positions.
pub open spec fn rotr32(u: u32, k: u32) -> u32 {
    if k == 0 { u } else { (u >> k) | (u << ((32 - k) as u32)) }
}

/// Number of leading zero bits of the 32-bit pattern of `x`.
pub open spec fn fx_clz32(x: int) -> int {
    32 - bit_length((if x >= 0 { x } else { x + 0x1_0000_0000 }) as nat)
}

/// The 7 bits following the leading one bit of `x`.
pub open spec fn fx_frac_q7(x: i32) -> int {
    (rotr32(x as u32, ((24 - fx_clz32(x as int)) as i32 & 31i32) as u32) & 0x7f) as int
}

// ---------------------------------------------------------------------------
// Plain add/sub (wraparound)
// ---------------------------------------------------------------------------

pub fn silk_add16(a: i16, b: i16) -> (r: i16)
    ensures r == wrap16(a + b),
{
    proof { lemma_i16_wrapping_add(a, b); }
    a.wrapping_add(b)
}

pub fn silk_add32(a: i32, b: i32) -> (r: i32)
    ensures r == wrap32(a + b),
{
    proof { lemma_i32_wrapping_add(a, b); }
    a.wrapping_add(b)
}

pub fn silk_add64(a: i64, b: i64) -> (r: i64)
    ensures r == wrap64(a + b),
{
    proof { lemma_i64_wrapping_add(a, b); }
    a.wrapping_add(b)
}

pub fn silk_sub16(a: i16, b: i16) -> (r: i16)
    ensures r == wrap16(a - b),
{
    proof { lemma_i16_wrapping_add(a, b); }
    a.wrapping_sub(b)
}

pub fn silk_sub32(a: i32, b: i32) -> (r: i32)
    ensures r == wrap32(a - b),
{
    proof { lemma_i32_wrapping_add(a, b); }
    a.wrapping_sub(b)
}

pub fn silk_sub64(a: i64, b: i64) -> (r: i64)
    ensures r == wrap64(a - b),
{
    proof { lemma_i64_wrapping_add(a, b); }
    a.wrapping_sub(b)
}

/// Addition that is allowed to overflow (wraps modulo 2^32).
pub fn silk_add32_ovflw(a: i32, b: i32) -> (r: i32)
    ensures r == wrap32(a + b),
{
    silk_add32(a, b)
}

/// Subtraction that is allowed to overflow (wraps modulo 2^32).
pub fn silk_sub32_ovflw(a: i32, b: i32) -> (r: i32)
    ensures r == wrap32(a - b),
{
    silk_sub32(a, b)
}

/// Left shift that is allowed to overflow.
pub fn silk_lshift_ovflw(a: i32, shift: i32) -> (r: i32)
    requires 0 <= shift < 32,
    ensures r == fx_shl32(a as int, shift as int),
{
    proof { lemma_i32_shl_is_mul(a, shift as u32); }
    a << (shift as u32)
}

/// `a + b * c`, wrapping.
pub fn silk_mla_ovflw(a32: i32, b32: i32, c32: i32) -> (r: i32)
    ensures r == wrap32(a32 + b32 * c32),
{
    let p = silk_mul(b32, c32);
    proof { lemma_wrap_sum(b32 * c32, a32 as int, 0x8000_0000); }
    silk_add32_ovflw(a32, p)
}

/// `a + lo16(b) * lo16(c)`, wrapping.
pub fn silk_smlabb_ovflw(a32: i32, b32: i32, c32: i32) -> (r: i32)
    ensures r == wrap32(a32 + lo16(b32) * lo16(c32)),
{
    silk_add32_ovflw(a32, silk_smulbb(b32, c32))
}

// ---------------------------------------------------------------------------
// Saturation
// ---------------------------------------------------------------------------

pub fn silk_sat8(a: i32) -> (r: i32)
    ensures r == clamp(a as int, -128, 127),
{
    if a < -128 { -128 } else if a > 127 { 127 } else { a }
}

pub fn silk_sat16(a: i32) -> (r: i32)
    ensures r == clamp(a as int, -0x8000, 0x7fff),
{
    if a < SILK_INT16_MIN { SILK_INT16_MIN } else if a > SILK_INT16_MAX { SILK_INT16_MAX } else { a }
}

pub fn silk_sat32(a: i64) -> (r: i32)
    ensures r == clamp(a as int, -0x8000_0000, 0x7fff_ffff),
{
    if a < -0x8000_0000i64 {
        SILK_INT32_MIN
    } else if a > 0x7fff_ffffi64 {
        SILK_INT32_MAX
    } else {
        a as i32
    }
}

/// Saturating 32-bit addition.
pub fn silk_add_sat32(a: i32, b: i32) -> (r: i32)
    ensures r == clamp(a + b, -0x8000_0000, 0x7fff_ffff),
{
    silk_sat32(a as i64 + b as i64)
}

/// Saturating 32-bit subtraction.
pub fn silk_sub_sat32(a: i32, b: i32) -> (r: i32)
    ensures r == clamp(a - b, -0x8000_0000, 0x7fff_ffff),
{
    silk_sat32(a as i64 - b as i64)
}

// ---------------------------------------------------------------------------
// Shifts
// ---------------------------------------------------------------------------

pub fn silk_lshift(a: i32, shift: i32) -> (r: i32)
    requires 0 <= shift < 32,
    ensures r == fx_shl32(a as int, shift as int),
{
    proof { lemma_i32_shl_is_mul(a, shift as u32); }
    a << (shift as u32)
}

pub fn silk_lshift64(a: i64, shift: i32) -> (r: i64)
    requires 0 <= shift < 64,
    ensures r == wrap64(a * pow2(shift as nat)),
{
    proof { lemma_i64_shl_is_mul(a, shift as u64); }
    a << (shift as u64)
}

pub fn silk_rshift(a: i32, shift: i32) -> (r: i32)
    requires 0 <= shift < 32,
    ensures r == fx_shr(a as int, shift as int),
{
    proof { lemma_i32_shr_is_div(a, shift as u32); }
    a >> (shift as u32)
}

pub fn silk_rshift64(a: i64, shift: i32) -> (r: i64)
    requires 0 <= shift < 64,
    ensures r == fx_shr(a as int, shift as int),
{
    proof { lemma_i64_shr_is_div(a, shift as u64); }
    a >> (shift as u64)
}


/// Saturate so that the shift cannot overflow, then shift.
pub fn silk_lshift_sat32(a: i32, shift: i32) -> (r: i32)
    requires 0 <= shift < 32,
    ensures
        r == clamp(a as int, fx_shr(SILK_INT32_MIN as int, shift as int), fx_shr(SILK_INT32_MAX as int, shift as int))
            * pow2(shift as nat),
{
    let lo = silk_rshift(SILK_INT32_MIN, shift);
    let hi = silk_rshift(SILK_INT32_MAX, shift);
    proof {
        vstd::arithmetic::power2::lemma_pow2_pos(shift as nat);
        lemma_pow2_le_2_31(shift as nat);
        vstd::arithmetic::div_mod::lemma_fundamental_div_mod(SILK_INT32_MIN as int, pow2(shift as nat) as int);
        vstd::arithmetic::div_mod::lemma_fundamental_div_mod(SILK_INT32_MAX as int, pow2(shift as nat) as int);
        vstd::arithmetic::div_mod::lemma_mod_bound(SILK_INT32_MIN as int, pow2(shift as nat) as int);
        vstd::arithmetic::div_mod::lemma_mod_bound(SILK_INT32_MAX as int, pow2(shift as nat) as int);
        vstd::arithmetic::div_mod::lemma_div_is_ordered(SILK_INT32_MIN as int, SILK_INT32_MAX as int, pow2(shift as nat) as int);
        vstd::arithmetic::power2::lemma_pow2_adds(shift as nat, (31 - shift) as nat);
        vstd::arithmetic::power2::lemma2_to64();
        assert(SILK_INT32_MIN as int == (-(pow2((31 - shift) as nat) as int)) * pow2(shift as nat)) by (nonlinear_arith)
            requires pow2(31) == pow2(shift as nat) * pow2((31 - shift) as nat), pow2(31) == 0x8000_0000;
        vstd::arithmetic::div_mod::lemma_div_multiples_vanish(-(pow2((31 - shift) as nat) as int), pow2(shift as nat) as int);
    }
    let c = silk_limit(a, lo, hi);
    proof {
        let p = pow2(shift as nat) as int;
        assert(lo * p <= c * p <= hi * p) by (nonlinear_arith)
            requires lo <= c <= hi, p > 0;
        assert(-0x8000_0000 <= c * p <= 0x7fff_ffff);
        lemma_wrap_id(c * p, 0x8000_0000);
    }
    silk_lshift(c, shift)
}

/// Right shift with rounding (ties toward +infinity).
pub fn silk_rshift_round(a: i32, shift: i32) -> (r: i32)
    requires 1 <= shift <= 32,
    ensures r == fx_rshift_round(a as int, shift as int),
{
    proof { lemma_rshift_round_32(a, shift as u32); }
    if shift == 1 {
        (a >> 1u32) + (a & 1)
    } else {
        ((a >> ((shift - 1) as u32)) + 1) >> 1u32
    }
}

pub fn silk_rshift_round64(a: i64, shift: i32) -> (r: i64)
    requires 1 <= shift <= 64,
    ensures r == fx_rshift_round(a as int, shift as int),
{
    proof { lemma_rshift_round_64(a, shift as u64); }
    if shift == 1 {
        (a >> 1u64) + (a & 1)
    } else {
        ((a >> ((shift - 1) as u64)) + 1) >> 1u64
    }
}

pub fn silk_add_lshift32(a: i32, b: i32, shift: i32) -> (r: i32)
    requires 0 <= shift < 32,
    ensures r == wrap32(a + b * pow2(shift as nat)),
{
    proof { lemma_wrap_sum(b * pow2(shift as nat), a as int, 0x8000_0000); }
    silk_add32(a, silk_lshift(b, shift))
}

pub fn silk_add_rshift32(a: i32, b: i32, shift: i32) -> (r: i32)
    requires 0 <= shift < 32,
    ensures r == wrap32(a + fx_shr(b as int, shift as int)),
{
    silk_add32(a, silk_rshift(b, shift))
}

pub fn silk_sub_lshift32(a: i32, b: i32, shift: i32) -> (r: i32)
    requires 0 <= shift < 32,
    ensures r == wrap32(a - b * pow2(shift as nat)),
{
    proof { lemma_wrap_sum(-(b * pow2(shift as nat)), a as int, 0x8000_0000);
        lemma_wrap_neg(b * pow2(shift as nat)); }
    silk_sub32(a, silk_lshift(b, shift))
}

// ---------------------------------------------------------------------------
// Min/max/limit/abs/sign
// ---------------------------------------------------------------------------

pub fn silk_min(a: i32, b: i32) -> (r: i32)
    ensures r == (if a < b { a } else { b }),
{
    if a < b { a } else { b }
}

pub fn silk_max(a: i32, b: i32) -> (r: i32)
    ensures r == (if a > b { a } else { b }),
{
    if a > b { a } else { b }
}

/// `silk_min` on 16-bit values.
pub fn silk_min_16(a: i16, b: i16) -> (r: i16)
    ensures r == (if a < b { a } else { b }),
{
    if a < b { a } else { b }
}

/// `silk_max` on 16-bit values.
pub fn silk_max_16(a: i16, b: i16) -> (r: i16)
    ensures r == (if a > b { a } else { b }),
{
    if a > b { a } else { b }
}

/// Clamp `a` between the two limits, in whichever order they are given.
pub fn silk_limit(a: i32, limit1: i32, limit2: i32) -> (r: i32)
    ensures
        r == (if limit1 > limit2 { clamp(a as int, limit2 as int, limit1 as int) } else { clamp(a as int, limit1 as int, limit2 as int) }),
{
    if limit1 > limit2 {
        if a > limit1 { limit1 } else if a < limit2 { limit2 } else { a }
    } else if a > limit2 {
        limit2
    } else if a < limit1 {
        limit1
    } else {
        a
    }
}

/// Absolute value, wrapping for `i32::MIN` (which maps to itself).
pub fn silk_abs(a: i32) -> (r: i32)
    ensures r == fx_abs(a as int),
{
    proof {
        if a == i32::MIN {
            crate::arith::lemma_wrap_add_multiple(-0x8000_0000, 1, 0x8000_0000);
            lemma_wrap_id(-0x8000_0000, 0x8000_0000);
        } else if a > 0 {
            lemma_wrap_id(a as int, 0x8000_0000);
        } else {
            lemma_wrap_id(-a, 0x8000_0000);
        }
    }
    if a > 0 { a } else if a == i32::MIN { a } else { -a }
}

pub fn silk_sign(a: i32) -> (r: i32)
    ensures r == (if a > 0 { 1int } else if a < 0 { -1int } else { 0int }),
{
    if a > 0 { 1 } else if a < 0 { -1 } else { 0 }
}

// ---------------------------------------------------------------------------
// Multiplies
// ---------------------------------------------------------------------------

pub fn silk_mul(a32: i32, b32: i32) -> (r: i32)
    ensures r == wrap32(a32 * b32),
{
    proof { lemma_i32_wrapping_mul(a32, b32); }
    a32.wrapping_mul(b32)
}

/// `a32 + b32 * c32`, wrapping.
pub fn silk_mla(a32: i32, b32: i32, c32: i32) -> (r: i32)
    ensures r == wrap32(a32 + b32 * c32),
{
    proof { lemma_wrap_sum(b32 * c32, a32 as int, 0x8000_0000); }
    silk_add32(a32, silk_mul(b32, c32))
}

/// `(a32 * (i16)b32) >> 16`.
pub fn silk_smulwb(a32: i32, b32: i32) -> (r: i32)
    ensures r == fx_smulwb(a32 as int, b32 as int),
{
    let b16 = low16(b32) as i64;
    let a64 = a32 as i64;
    proof { lemma_mul_bound_32_16(a64 as int, b16 as int); }
    let p = a64 * b16;
    proof { lemma_shr16_of_small(p); }
    (p >> 16u64) as i32
}

/// `a32 + ((b32 * (i16)c32) >> 16)`, wrapping.
pub fn silk_smlawb(a32: i32, b32: i32, c32: i32) -> (r: i32)
    ensures r == wrap32(a32 + fx_smulwb(b32 as int, c32 as int)),
{
    silk_add32(a32, silk_smulwb(b32, c32))
}

/// `(a32 * (b32 >> 16)) >> 16`.
pub fn silk_smulwt(a32: i32, b32: i32) -> (r: i32)
    ensures r == fx_smulwt(a32 as int, b32 as int),
{
    let bh = high16(b32) as i64;
    let a64 = a32 as i64;
    proof { lemma_mul_bound_32_16(a64 as int, bh as int); }
    let p = a64 * bh;
    proof { lemma_shr16_of_small(p); }
    (p >> 16u64) as i32
}

pub fn silk_smlawt(a32: i32, b32: i32, c32: i32) -> (r: i32)
    ensures r == wrap32(a32 + fx_smulwt(b32 as int, c32 as int)),
{
    silk_add32(a32, silk_smulwt(b32, c32))
}

/// `(i16)a32 * (i16)b32`.
pub fn silk_smulbb(a32: i32, b32: i32) -> (r: i32)
    ensures r == lo16(a32) * lo16(b32),
{
    let a = low16(a32) as i32;
    let b = low16(b32) as i32;
    proof { lemma_mul_bound_16_16(a as int, b as int); }
    a * b
}

pub fn silk_smlabb(a32: i32, b32: i32, c32: i32) -> (r: i32)
    ensures r == wrap32(a32 + lo16(b32) * lo16(c32)),
{
    silk_add32(a32, silk_smulbb(b32, c32))
}

/// `(i16)a32 * (b32 >> 16)`.
pub fn silk_smulbt(a32: i32, b32: i32) -> (r: i32)
    ensures r == lo16(a32) * hi16(b32),
{
    let a = low16(a32) as i32;
    let b = high16(b32) as i32;
    proof { lemma_mul_bound_16_16(a as int, b as int); }
    a * b
}

pub fn silk_smlabt(a32: i32, b32: i32, c32: i32) -> (r: i32)
    ensures r == wrap32(a32 + lo16(b32) * hi16(c32)),
{
    silk_add32(a32, silk_smulbt(b32, c32))
}

/// `(a32 >> 16) * (b32 >> 16)`.
pub fn silk_smultt(a32: i32, b32: i32) -> (r: i32)
    ensures r == hi16(a32) * hi16(b32),
{
    let a = high16(a32) as i32;
    let b = high16(b32) as i32;
    proof { lemma_mul_bound_16_16(a as int, b as int); }
    a * b
}

pub fn silk_smlatt(a32: i32, b32: i32, c32: i32) -> (r: i32)
    ensures r == wrap32(a32 + hi16(b32) * hi16(c32)),
{
    silk_add32(a32, silk_smultt(b32, c32))
}

/// Exact 32x32 -> 64 bit product.
pub fn silk_smull(a32: i32, b32: i32) -> (r: i64)
    ensures r == a32 * b32,
{
    proof { lemma_mul_bound_32_32(a32 as int, b32 as int); }
    (a32 as i64) * (b32 as i64)
}

pub fn silk_smlal(a64: i64, b32: i32, c32: i32) -> (r: i64)
    ensures r == wrap64(a64 + b32 * c32),
{
    silk_add64(a64, silk_smull(b32, c32))
}

pub fn silk_smlalbb(a64: i64, b16: i16, c16: i16) -> (r: i64)
    ensures r == wrap64(a64 + b16 * c16),
{
    proof { lemma_mul_bound_16_16(b16 as int, c16 as int); }
    silk_add64(a64, ((b16 as i32) * (c16 as i32)) as i64)
}

/// `(a32 * b32) >> 16`, truncated to 32 bits.
pub fn silk_smulww(a32: i32, b32: i32) -> (r: i32)
    ensures r == fx_smulww(a32 as int, b32 as int),
{
    let p = silk_smull(a32, b32);
    proof { lemma_mul_bound_32_32(a32 as int, b32 as int); }
    let t = p >> 16u64;
    proof {
        lemma_i64_shr_is_div(p, 16);
        vstd::arithmetic::power2::lemma2_to64();
        vstd::arithmetic::div_mod::lemma_div_is_ordered(-0x4000_0000_0000_0000, p as int, 0x1_0000);
        vstd::arithmetic::div_mod::lemma_div_is_ordered(p as int, 0x4000_0000_0000_0000, 0x1_0000);
        lemma_i64_as_i32(t);
    }
    #[verifier::truncate] (t as i32)
}

pub fn silk_smlaww(a32: i32, b32: i32, c32: i32) -> (r: i32)
    ensures r == wrap32(a32 + (b32 * c32) / 0x1_0000),
{
    proof { lemma_wrap_sum((b32 * c32) / 0x1_0000, a32 as int, 0x8000_0000); }
    silk_add32(a32, silk_smulww(b32, c32))
}

/// The high 32 bits of the 64-bit product.
pub fn silk_smmul(a32: i32, b32: i32) -> (r: i32)
    ensures r == fx_smmul(a32 as int, b32 as int),
{
    let p = silk_smull(a32, b32);
    proof {
        lemma_mul_bound_32_32(a32 as int, b32 as int);
        lemma_i64_shr_is_div(p, 32);
        vstd::arithmetic::power2::lemma2_to64();
        vstd::arithmetic::div_mod::lemma_div_is_ordered(-0x4000_0000_0000_0000, p as int, 0x1_0000_0000);
        vstd::arithmetic::div_mod::lemma_div_is_ordered(p as int, 0x4000_0000_0000_0000, 0x1_0000_0000);
    }
    (p >> 32u64) as i32
}

// ---------------------------------------------------------------------------
// Division
// ---------------------------------------------------------------------------

/// Quotient truncated toward zero (wrapping for `MIN / -1`).
pub fn silk_div32(a32: i32, b32: i32) -> (r: i32)
    requires b32 != 0,
    ensures r == fx_div32(a32 as int, b32 as int),
{
    match a32.checked_div(b32) {
        Some(q) => {
            proof { lemma_wrap_id(q as int, 0x8000_0000); }
            q
        },
        None => {
            proof {
                crate::arith::lemma_tdiv_overflow(a32 as int, b32 as int);
                crate::arith::lemma_wrap_add_multiple(-0x8000_0000, 1, 0x8000_0000);
                lemma_wrap_id(-0x8000_0000, 0x8000_0000);
            }
            i32::MIN
        },
    }
}

pub fn silk_div32_16(a32: i32, b16: i32) -> (r: i32)
    requires b16 != 0,
    ensures r == fx_div32(a32 as int, b16 as int),
{
    silk_div32(a32, b16)
}


// ---------------------------------------------------------------------------
// Bit counting / rotate
// ---------------------------------------------------------------------------

/// Leading zeros of the 16-bit pattern.
pub fn silk_clz16(in16: i16) -> (r: i32)
    ensures r == 16 - bit_length((if in16 >= 0 { in16 as int } else { in16 + 0x1_0000 }) as nat),
{
    let u = #[verifier::truncate] (in16 as u16);
    proof {
        lemma_bv_u16(0, 0, 0, 0, in16);
        lemma_u16_clz(u);
    }
    u.leading_zeros() as i32
}

/// Leading zeros of the 32-bit pattern.
pub fn silk_clz32(in32: i32) -> (r: i32)
    ensures r == fx_clz32(in32 as int), 0 <= r <= 32,
{
    let u = #[verifier::truncate] (in32 as u32);
    proof { lemma_i32_as_u32(in32); lemma_u32_clz(u); }
    u.leading_zeros() as i32
}

/// Leading zeros of the 64-bit pattern.
pub fn silk_clz64(in64: i64) -> (r: i32)
    ensures r == 64 - bit_length((if in64 >= 0 { in64 as int } else { in64 + 0x1_0000_0000_0000_0000 }) as nat),
{
    let u = #[verifier::truncate] (in64 as u64);
    proof {
        lemma_bv_i64(in64, 0);
        lemma_u64_clz(u);
    }
    u.leading_zeros() as i32
}

/// Rotate right by `rot` (left for negative `rot`), modulo 32.
pub fn silk_ror32(a32: i32, rot: i32) -> (r: i32)
    requires rot != i32::MIN,
    ensures r as u32 == rotr32(a32 as u32, (rot & 31i32) as u32),
{
    proof { lemma_bv_i32(rot, 0, 0); }
    let k = (rot & 31) as u32;
    let u = #[verifier::truncate] (a32 as u32);
    let v = if k == 0 { u } else { (u >> k) | (u << (32 - k)) };
    proof { lemma_bv_u32(v, 0); }
    #[verifier::truncate] (v as i32)
}

/// Leading zeros and the 7 bits that follow the leading one.
pub fn silk_clz_frac(input: i32) -> (r: (i32, i32))
    ensures
        r.0 == fx_clz32(input as int),
        r.1 == fx_frac_q7(input),
        0 <= r.0 <= 32,
        0 <= r.1 <= 0x7f,
{
    let lz = silk_clz32(input);
    let rot = silk_ror32(input, 24 - lz);
    let frac_q7 = rot & 0x7f;
    proof { lemma_bv_i32(rot, 0, 0); }
    (lz, frac_q7)
}

// ---------------------------------------------------------------------------
// Approximations
// ---------------------------------------------------------------------------

/// Model of `silk_SQRT_APPROX`: a piecewise-linear approximation of the square root.
pub open spec fn fx_sqrt_approx(x: i32) -> int {
    if x <= 0 {
        0
    } else {
        let lz = fx_clz32(x as int);
        let f = fx_frac_q7(x);
        let y0: int = if lz % 2 == 1 { 32768 } else { 46214 };
        let y = y0 / (pow2((lz / 2) as nat) as int);
        wrap32(y + fx_smulwb(y, 213 * f))
    }
}

pub fn silk_sqrt_approx(x: i32) -> (r: i32)
    ensures r == fx_sqrt_approx(x),
{
    if x <= 0 {
        return 0;
    }
    let (lz, frac_q7) = silk_clz_frac(x);
    proof { lemma_bv_i32_low_bits(lz); }
    let mut y: i32 = if lz & 1 != 0 { 32768 } else { 46214 };
    proof {
        lemma_u32_clz(x as u32);
        lemma_i32_as_u32(x);
        assert(x as int > 0);
        if lz == 32 {
            assert(bit_length(x as nat) == 1 + bit_length((x / 2) as nat));
        }
        assert(lz / 2 < 16);
    }
    proof {
        lemma_i32_shr_is_div(lz, 1);
        vstd::arithmetic::power2::lemma2_to64();
    }
    let sh = silk_rshift(lz, 1);
    y = silk_rshift(y, sh);
    proof {
        assert(213 * frac_q7 <= 0x7fff);
        lemma_wrap16_small(213 * frac_q7);
    }
    let p = silk_smulbb(213, frac_q7);
    proof { lemma_wrap16_small(213); lemma_wrap16_small(frac_q7 as int); }
    silk_smlawb(y, y, p)
}


/// `clamp(a, MIN >> s, MAX >> s) << s`: a left shift that saturates instead of wrapping.
pub open spec fn fx_lshift_sat32(a: int, s: int) -> int {
    clamp(a, fx_shr(SILK_INT32_MIN as int, s), fx_shr(SILK_INT32_MAX as int, s)) * pow2(s as nat)
}

/// Headroom of `x`: leading zeros of `|x|` minus one.
pub open spec fn fx_headroom(x: int) -> int {
    fx_clz32(fx_abs(x)) - 1
}

/// Model of `silk_DIV32_varQ`: `(a32 << qres) / b32`, approximated by a
/// reciprocal with one Newton refinement step.
pub open spec fn fx_div32_varq(a32: int, b32: int, qres: int) -> int {
    let a_headrm = fx_headroom(a32);
    let a32_nrm = fx_shl32(a32, a_headrm);
    let b_headrm = fx_headroom(b32);
    let b32_nrm = fx_shl32(b32, b_headrm);
    let b32_inv = fx_div32(0x1fff_ffff, fx_shr(b32_nrm, 16));
    let result = fx_smulwb(a32_nrm, b32_inv);
    let a32_nrm2 = wrap32(a32_nrm - fx_shl32(fx_smmul(b32_nrm, result), 3));
    let result2 = wrap32(result + fx_smulwb(a32_nrm2, b32_inv));
    let lshift = 29 + a_headrm - b_headrm - qres;
    if lshift < 0 {
        fx_lshift_sat32(result2, -lshift)
    } else if lshift < 32 {
        fx_shr(result2, lshift)
    } else {
        0
    }
}

/// The shift amounts must stay below 32 (they do for
/// every input but those excluded here, on which the shift would go out of range).
#[verifier::spinoff_prover]
#[verifier::rlimit(40)]
pub fn silk_div32_varq(a32: i32, b32: i32, qres: i32) -> (r: i32)
    requires
        b32 != 0,
        a32 != i32::MIN,
        b32 != i32::MIN,
        qres >= 0,
        29 + fx_headroom(a32 as int) - fx_headroom(b32 as int) - qres > -32,
    ensures r == fx_div32_varq(a32 as int, b32 as int, qres as int),
{
    let abs_a = silk_abs(a32);
    let abs_b = silk_abs(b32);
    proof { lemma_headroom_range(a32); lemma_headroom_range(b32); }
    let a_headrm = silk_clz32(abs_a) - 1;
    let mut a32_nrm = silk_lshift(a32, a_headrm);
    let b_headrm = silk_clz32(abs_b) - 1;
    let b32_nrm = silk_lshift(b32, b_headrm);
    proof { lemma_normalized_high(b32, b_headrm); }
    let bh = silk_rshift(b32_nrm, 16);
    proof { lemma_div_constants(); }
    let b32_inv = silk_div32_16(SILK_INT32_MAX >> 2u32, bh);
    let mut result = silk_smulwb(a32_nrm, b32_inv);
    a32_nrm = silk_sub32_ovflw(a32_nrm, silk_lshift_ovflw(silk_smmul(b32_nrm, result), 3));
    result = silk_smlawb(result, a32_nrm, b32_inv);
    let lshift = 29 + a_headrm - b_headrm - qres;
    if lshift < 0 {
        silk_lshift_sat32(result, -lshift)
    } else if lshift < 32 {
        silk_rshift(result, lshift)
    } else {
        0
    }
}

/// Model of `silk_INVERSE32_varQ`: `(1 << qres) / b32`, approximated.
pub open spec fn fx_inverse32_varq(b32: int, qres: int) -> int {
    let b_headrm = fx_headroom(b32);
    let b32_nrm = fx_shl32(b32, b_headrm);
    let b32_inv = fx_div32(0x1fff_ffff, fx_shr(b32_nrm, 16));
    let result = fx_shl32(b32_inv, 16);
    let err_q32 = fx_shl32(wrap32(0x2000_0000 - fx_smulwb(b32_nrm, b32_inv)), 3);
    let result2 = wrap32(result + fx_smulww(err_q32, b32_inv));
    let lshift = 61 - b_headrm - qres;
    if lshift <= 0 {
        fx_lshift_sat32(result2, -lshift)
    } else if lshift < 32 {
        fx_shr(result2, lshift)
    } else {
        0
    }
}

#[verifier::spinoff_prover]
#[verifier::rlimit(80)]
pub fn silk_inverse32_varq(b32: i32, qres: i32) -> (r: i32)
    requires
        b32 != 0,
        b32 != i32::MIN,
        qres > 0,
        61 - fx_headroom(b32 as int) - qres > -32,
    ensures r == fx_inverse32_varq(b32 as int, qres as int),
{
    let abs_b = silk_abs(b32);
    proof { lemma_headroom_range(b32); }
    let b_headrm = silk_clz32(abs_b) - 1;
    let b32_nrm = silk_lshift(b32, b_headrm);
    proof { lemma_normalized_high(b32, b_headrm); }
    let bh = silk_rshift(b32_nrm, 16);
    proof { lemma_div_constants(); }
    let b32_inv = silk_div32_16(SILK_INT32_MAX >> 2u32, bh);
    let mut result = silk_lshift(b32_inv, 16);
    let err_q32 = silk_lshift(silk_sub32((1i32) << 29u32, silk_smulwb(b32_nrm, b32_inv)), 3);
    result = silk_smlaww(result, err_q32, b32_inv);
    proof { lemma_wrap_sum(fx_smulww(err_q32 as int, b32_inv as int), 0, 0x8000_0000); }
    let lshift = 61 - b_headrm - qres;
    if lshift <= 0 {
        silk_lshift_sat32(result, -lshift)
    } else if lshift < 32 {
        silk_rshift(result, lshift)
    } else {
        0
    }
}

pub const RAND_MULTIPLIER: i32 = 196_314_165;
pub const RAND_INCREMENT: i32 = 907_633_515;

/// One step of the linear congruential generator.
pub fn silk_rand(seed: i32) -> (r: i32)
    ensures r == wrap32(RAND_INCREMENT + seed * RAND_MULTIPLIER),
{
    silk_mla_ovflw(RAND_INCREMENT, seed, RAND_MULTIPLIER)
}

/// Model of `silk_lin2log`: approximation of `128 * log2(x)`.
pub open spec fn fx_lin2log(x: i32) -> int {
    let lz = fx_clz32(x as int);
    let f = fx_frac_q7(x);
    f + (f * (128 - f) * 179) / 0x1_0000 + (31 - lz) * 128
}

pub fn silk_lin2log(in_lin: i32) -> (r: i32)
    ensures r == fx_lin2log(in_lin),
{
    let (lz, frac_q7) = silk_clz_frac(in_lin);
    let m = silk_mul(frac_q7, 128 - frac_q7);
    proof {
        assert(0 <= frac_q7 * (128 - frac_q7) <= 0x4000) by (nonlinear_arith)
            requires 0 <= frac_q7 <= 0x7f;
        lemma_wrap_id(frac_q7 * (128 - frac_q7), 0x8000_0000);
        lemma_wrap16_small(179);
        assert(0 <= m * 179 <= 0x4000 * 179) by (nonlinear_arith) requires 0 <= m <= 0x4000;
        vstd::arithmetic::div_mod::lemma_div_is_ordered(0, m * 179, 0x1_0000);
        vstd::arithmetic::div_mod::lemma_div_is_ordered(m * 179, 0x4000int * 179, 0x1_0000);
        lemma_wrap_id(frac_q7 + (m * 179) / 0x1_0000, 0x8000_0000);
        vstd::arithmetic::power2::lemma2_to64();
        lemma_wrap_id(frac_q7 + (m * 179) / 0x1_0000 + (31 - lz) * 128, 0x8000_0000);
        assert(m * 179 == frac_q7 * (128 - frac_q7) * 179) by (nonlinear_arith)
            requires m == frac_q7 * (128 - frac_q7);
    }
    silk_add_lshift32(silk_smlawb(frac_q7, m, 179), 31 - lz, 7)
}

/// The correction term of `silk_log2lin` for the 7 fractional bits `f`.
pub open spec fn fx_log2lin_corr(f: int) -> int {
    f + (f * (128 - f) * -174) / 0x1_0000
}

/// Model of `silk_log2lin`: approximation of `2^(x / 128)`.
pub open spec fn fx_log2lin(x: int) -> int {
    if x < 0 {
        0
    } else if x >= 3967 {
        0x7fff_ffff
    } else {
        let out = pow2((x / 128) as nat) as int;
        let f = x % 128;
        if x < 2048 {
            out + (out * fx_log2lin_corr(f)) / 128
        } else {
            out + (out / 128) * fx_log2lin_corr(f)
        }
    }
}

/// The approximate inverse of [`silk_lin2log`].
pub fn silk_log2lin(in_log_q7: i32) -> (r: i32)
    ensures r == fx_log2lin(in_log_q7 as int),
{
    if in_log_q7 < 0 {
        return 0;
    } else if in_log_q7 >= 3967 {
        return SILK_INT32_MAX;
    }
    proof {
        lemma_i32_shr_is_div(in_log_q7, 7);
        vstd::arithmetic::power2::lemma2_to64();
    }
    let e = silk_rshift(in_log_q7, 7);
    let mut out = silk_lshift(1, e);
    let frac_q7 = in_log_q7 & 0x7f;
    proof { lemma_bv_i32_low_bits(in_log_q7); }
    let sq = silk_smulbb(frac_q7, 128 - frac_q7);
    proof {
        lemma_wrap16_small(frac_q7 as int);
        lemma_wrap16_small(128 - frac_q7);
        lemma_wrap16_small(-174);
        lemma_pow2_le_2_31(e as nat);
        lemma_wrap_id(pow2(e as nat) as int, 0x8000_0000);
        assert(0 <= sq <= 0x1000) by (nonlinear_arith)
            requires sq == frac_q7 * (128 - frac_q7), 0 <= frac_q7 <= 0x7f;
        assert(-0x1000 * 174 <= sq * -174 <= 0) by (nonlinear_arith) requires 0 <= sq <= 0x1000;
        vstd::arithmetic::div_mod::lemma_div_is_ordered(-0x1000 * 174, sq * -174, 0x1_0000);
        vstd::arithmetic::div_mod::lemma_div_is_ordered(sq * -174, 0, 0x1_0000);
        lemma_wrap_id(frac_q7 + (sq * -174) / 0x1_0000, 0x8000_0000);
        assert(sq * -174 == frac_q7 * (128 - frac_q7) * -174) by (nonlinear_arith)
            requires sq == frac_q7 * (128 - frac_q7);
    }
    let corr = silk_smlawb(frac_q7, sq, -174);
    if in_log_q7 < 2048 {
        proof {
            assert(e <= 15);
            if e < 15 { vstd::arithmetic::power2::lemma_pow2_strictly_increases(e as nat, 15); }
            assert(0 <= out <= 0x8000);
            assert(-20 <= corr <= 128);
            assert(-0x8000 * 20 <= out * corr <= 0x8000 * 128) by (nonlinear_arith)
                requires 0 <= out <= 0x8000, -20 <= corr <= 128;
            lemma_wrap_id(out * corr, 0x8000_0000);
            lemma_i32_shr_is_div((out * corr) as i32, 7);
            vstd::arithmetic::div_mod::lemma_div_is_ordered(-0x8000 * 20, out * corr, 128);
            vstd::arithmetic::div_mod::lemma_div_is_ordered(out * corr, 0x8000int * 128, 128);
            lemma_wrap_id(out + (out * corr) / 128, 0x8000_0000);
        }
        out = silk_add_rshift32(out, silk_mul(out, corr), 7);
    } else {
        proof {
            assert(16 <= e <= 30);
            assert(corr <= frac_q7);
            if e < 30 { vstd::arithmetic::power2::lemma_pow2_strictly_increases(e as nat, 30); }
            assert(out <= 0x4000_0000);
            lemma_i32_shr_is_div(out, 7);
            vstd::arithmetic::div_mod::lemma_div_is_ordered(out as int, 0x4000_0000, 128);
            assert(0 <= out / 128 <= 0x80_0000);
            assert(-0x80_0000 * 20 <= (out / 128) * corr <= (out / 128) * 127) by (nonlinear_arith)
                requires 0 <= out / 128 <= 0x80_0000, -20 <= corr <= 127;
            assert((out / 128) * 127 <= 0x80_0000 * 127) by (nonlinear_arith)
                requires 0 <= out / 128 <= 0x80_0000;
            lemma_wrap_id(out + (out / 128) * corr, 0x8000_0000);
        }
        out = silk_mla(out, silk_rshift(out, 7), corr);
    }
    out
}


/// For `x != i32::MIN` the headroom is a valid shift amount.
pub proof fn lemma_headroom_range(x: i32)
    requires x != i32::MIN,
    ensures
        0 <= fx_headroom(x as int) <= 31,
        fx_abs(x as int) == (if x > 0 { x as int } else { -x }),
{
    let ax: int = if x > 0 { x as int } else { -x };
    lemma_wrap_id(ax, 0x8000_0000);
    vstd::arithmetic::power2::lemma2_to64();
    crate::arith::lemma_bit_length_bound(ax as nat, 31);
}

/// Normalizing a nonzero value by its headroom puts it in `[2^30, 2^31)` in magnitude,
/// so its high half is nonzero.
pub proof fn lemma_normalized_high(b: i32, h: i32)
    requires
        b != 0,
        b != i32::MIN,
        h == fx_headroom(b as int),
    ensures
        0 <= h <= 31,
        fx_shr(fx_shl32(b as int, h as int), 16) != 0,
        fx_shl32(b as int, h as int) == b * pow2(h as nat),
{
    lemma_headroom_range(b);
    let ab: int = if b > 0 { b as int } else { -b };
    crate::arith::lemma_bit_length_bounds(ab as nat);
    let k = bit_length(ab as nat);
    assert(k == 31 - h);
    vstd::arithmetic::power2::lemma_pow2_adds(h as nat, (k - 1) as nat);
    vstd::arithmetic::power2::lemma_pow2_adds(h as nat, k);
    vstd::arithmetic::power2::lemma2_to64();
    vstd::arithmetic::power2::lemma_pow2_pos(h as nat);
    let p = pow2(h as nat) as int;
    assert(0x4000_0000 <= ab * p < 0x8000_0000) by (nonlinear_arith)
        requires
            pow2((k - 1) as nat) <= ab < pow2(k),
            pow2(h as nat) * pow2((k - 1) as nat) == 0x4000_0000,
            pow2(h as nat) * pow2(k) == 0x8000_0000,
            p == pow2(h as nat),
            p > 0;
    assert(b * p == (if b > 0 { ab * p } else { -(ab * p) })) by (nonlinear_arith)
        requires ab == (if b > 0 { b as int } else { -b });
    lemma_wrap_id(b * p, 0x8000_0000);
    if b > 0 {
        vstd::arithmetic::div_mod::lemma_div_is_ordered(0x4000_0000, b * p, 0x1_0000);
    } else {
        vstd::arithmetic::div_mod::lemma_div_is_ordered(b * p, -0x4000_0000, 0x1_0000);
    }
}

/// The seven bits below the leading one of a power of two are all zero.
proof fn lemma_frac_bits_of_pow2(k: u32, d: i32)
    by (bit_vector)
    requires
        k <= 30,
        d == k as i32 - 7,
    ensures
        rotr32(1u32 << k, (d & 31i32) as u32) & 0x7f == 0,
{
}

/// The logarithm and the exponential approximations invert each other on
/// powers of two: `lin2log(2^k) == 128 k` and `log2lin(128 k) == 2^k` for
/// `0 <= k <= 30`; below 0 the exponential is 0 and from 3967 on it
/// saturates at `i32::MAX`.
pub proof fn lemma_log2lin_inverts_lin2log(k: nat)
    requires
        k <= 30,
    ensures
        fx_lin2log(pow2(k) as i32) == 128 * k,
        fx_log2lin(128 * (k as int)) == pow2(k),
        forall|x: int| x < 0 ==> #[trigger] fx_log2lin(x) == 0,
        forall|x: int| x >= 3967 ==> #[trigger] fx_log2lin(x) == 0x7fff_ffff,
{
    vstd::arithmetic::power2::lemma2_to64();
    let p = pow2(k);
    vstd::arithmetic::power2::lemma_pow2_pos(k);
    vstd::arithmetic::power2::lemma_pow2_strictly_increases(k, 31);
    let x = p as i32;
    assert(x as int == p);
    if k > 0 {
        vstd::arithmetic::power2::lemma_pow2_unfold(k + 1);
        vstd::arithmetic::power2::lemma_pow2_unfold(k);
    }
    vstd::arithmetic::power2::lemma_pow2_unfold(k + 1);
    crate::arith::lemma_bit_length_char(p, k + 1);
    assert(fx_clz32(x as int) == 31 - k);
    vstd::bits::lemma_u32_shl_is_mul(1u32, k as u32);
    assert((1u32 << (k as u32)) == x as u32);
    lemma_frac_bits_of_pow2(k as u32, (k - 7) as i32);
    assert(((24 - fx_clz32(x as int)) as i32) == (k - 7) as i32);
    assert(fx_frac_q7(x) == 0);
    assert(fx_lin2log(x) == 128 * k);
    let y: int = 128 * (k as int);
    assert(y / 128 == k && y % 128 == 0) by (nonlinear_arith) requires y == 128 * (k as int), k >= 0;
    assert(fx_log2lin_corr(0) == 0);
    assert(0 <= y < 3967);
    assert(pow2((y / 128) as nat) == p);
    assert((p as int * 0) / 128 == 0);
    assert(fx_log2lin(y) == p);
}

} // verus!
