//! Integer models shared by the fixed-point code: two's-complement wrapping,
//! clamping, and the relation between shifts and multiplication/division by
//! powers of two.

use vstd::prelude::*;
use vstd::arithmetic::power2::pow2;

verus! {

/// Bit-level facts about `i32` values `a`, `b` and a shift amount `s`,
/// proved by bit blasting.
pub proof fn lemma_bv_i32(a: i32, b: i32, s: u32)
    by (bit_vector)
    ensures
        a >> 0u32 == a,
        a << 0u32 == a,
        0 < s < 32 ==> a >> s == (a >> ((s - 1) as u32)) >> 1u32,
        0 < s < 32 ==> a << s == (a << ((s - 1) as u32)) << 1u32,
        (a >> 1u32) == (a as int) / 2,
        a << 1u32 == (if 2 * a > 0x7fff_ffff {
            2 * a - 0x1_0000_0000
        } else if 2 * a < -0x8000_0000 {
            2 * a + 0x1_0000_0000
        } else {
            2 * a
        }),
        (a as u32) as int == (if a >= 0 { a as int } else { a + 0x1_0000_0000 }),
        -0x4000_0000 <= (a >> 1u32) < 0x4000_0000,
        0 <= (a & 1i32) <= 1,
        0 <= (a & 31) < 32,
        (a & 0x7f) as u32 == ((a as u32) & 0x7fu32),
        0 <= (a & 0x7f) <= 0x7f,
        (a ^ -1i32) == -a - 1,
        (a ^ 0i32) == a,
        s < 31 ==> (1i32 << s) >= 1,
        ((a ^ b) >> 31u32) == (if (a ^ b) < 0 { -1i32 } else { 0i32 }),
        (a ^ b) < 0 <==> ((a < 0) != (b < 0)),
{
}

/// Masks of the low bits of an `i32` as remainders, proved by bit blasting.
pub proof fn lemma_bv_i32_low_bits(a: i32)
    by (bit_vector)
    ensures
        ((a & 1i32) != 0i32) <==> a % 2 == 1,
        a >= 0 ==> (a & 0x7f) == a % 128,
        a >= 0 ==> (a & 0x1f) == a % 32,
        a >= 0 ==> (a & 0xff) == a % 256,
        a >= 0 ==> (a & 0xffff) == a % 65536,
{
}

/// Halving an `i32` with rounding up, proved by bit blasting.
pub proof fn lemma_bv_i32_half_up(a: i32)
    by (bit_vector)
    ensures
        (a >> 1u32) + (a & 1i32) == (a + 1) / 2,
{
}

/// Bit-level facts about an `i64` value and a shift amount, proved by bit blasting.
pub proof fn lemma_bv_i64(a: i64, s: u64)
    by (bit_vector)
    ensures
        a >> 0u64 == a,
        a << 0u64 == a,
        0 < s < 64 ==> a >> s == (a >> ((s - 1) as u64)) >> 1u64,
        0 < s < 64 ==> a << s == (a << ((s - 1) as u64)) << 1u64,
        (a >> 1u64) == (a as int) / 2,
        a << 1u64 == (if 2 * a > 0x7fff_ffff_ffff_ffff {
            2 * a - 0x1_0000_0000_0000_0000
        } else if 2 * a < -0x8000_0000_0000_0000 {
            2 * a + 0x1_0000_0000_0000_0000
        } else {
            2 * a
        }),
        -0x4000_0000_0000_0000 <= (a >> 1u64) < 0x4000_0000_0000_0000,
        0 <= (a & 1i64) <= 1,
        (a as u64) as int == (if a >= 0 { a as int } else { a + 0x1_0000_0000_0000_0000 }),
        -0x8000_0000 <= a <= 0x7fff_ffff ==> (a as i16) as int == a - (((a + 0x8000) as i64) >> 16u64) * 0x1_0000,
        -0x4000_0000_0000_0000 <= a <= 0x3fff_ffff_ffff_ffff ==> (a as i32) as int == a - (((a
            + 0x8000_0000) as i64) >> 32u64) * 0x1_0000_0000,
        a > 0x3fff_ffff_ffff_ffff ==> (a as i32) == (((a - 0x4000_0000_0000_0000) as i64) as i32),
        a < -0x4000_0000_0000_0000 ==> (a as i32) == (((a + 0x4000_0000_0000_0000) as i64) as i32),
{
}

/// Halving an `i64` with rounding up, proved by bit blasting.
pub proof fn lemma_bv_i64_half_up(a: i64)
    by (bit_vector)
    ensures
        (a >> 1u64) + (a & 1i64) == (a + 1) / 2,
{
}

/// Bit-level facts about `u32` values, proved by bit blasting.
pub proof fn lemma_bv_u32(x: u32, k: u32)
    by (bit_vector)
    ensures
        x >> 1u32 == x / 2,
        x & 1u32 == x % 2,
        x >> 16u32 <= 0xffff,
        x >> 8u32 <= 0xff_ffff,
        x & 0x7fff_ffffu32 < 0x8000_0000,
        x << 0u32 == x,
        x & 0x1fu32 < 32,
        x & 0xffu32 < 256,
        x <= 32 ==> x << 8u32 == x * 256,
        x < 0x1_0000 ==> x << 16u32 == x * 0x1_0000,
        256 <= x < 0x1_0000 ==> 1 <= x >> 8u32 < 256,
        0x1_0000 <= x < 0x100_0000 ==> 1 <= x >> 16u32 < 256,
        0x100_0000 <= x ==> 1 <= x >> 24u32 < 256,
        x & 0x0f00_0000u32 != 0 ==> x >> 1u32 < x,
        (x as i32) as u32 == x,
        (x >> k) & 1u32 != 0u32 ==> (x >> k) != 0,
        0 < k < 32 ==> (1u32 << k) >= 2,
        k < 31 ==> (1u32 << k) << 1u32 == (1u32 << k) * 2,
        k < 31 ==> (1u32 << k) << 1u32 == 1u32 << ((k + 1) as u32),
        k < 32 && x < (1u32 << k) ==> (x | (1u32 << k)) == x + (1u32 << k),
        1u32 << 0u32 == 1,
        0xffff_ffffu32 >> 0u32 == 0xffff_ffff,
        k <= 8 && x <= (0xffff_ffffu32 >> k) && x & 0x0f00_0000u32 != 0 ==> k < 8 && (x >> 1u32) <= (0xffff_ffffu32
            >> ((k + 1) as u32)),
{
}

/// Bit-level facts about `u64` values, proved by bit blasting.
pub proof fn lemma_bv_u64(x: u64, k: u64)
    by (bit_vector)
    ensures
        x & 1u64 == x % 2,
        x >> 1u64 == x / 2,
        (x >> k) & 1u64 != 0u64 ==> (x >> k) != 0,
{
}

/// Bit-level facts about bytes and 16-bit values, proved by bit blasting.
pub proof fn lemma_bv_u16(v: u16, lo: u8, hi: u8, k: u16, w: i16)
    by (bit_vector)
    ensures
        v == ((lo as u16) | ((hi as u16) << 8u16)) ==> v == lo as int + 256 * hi as int,
        (v as i16) as int == (if v >= 0x8000 { v - 0x1_0000 } else { v as int }),
        ((lo as u32) | ((hi as u32) << 8u32)) == lo as int + 256 * hi as int,
        (v >> k) & 1u16 != 0u16 ==> (v >> k) != 0,
        (w as u16) as int == (if w >= 0 { w as int } else { w + 0x1_0000 }),
        lo & 0x1fu8 <= 31,
        lo == (lo / 1) % 2 + 2 * ((lo / 2) % 2 + 2 * ((lo / 4) % 2 + 2 * ((lo / 8) % 2 + 2 * ((lo / 16) % 2
            + 2 * ((lo / 32) % 2 + 2 * ((lo / 64) % 2 + 2 * ((lo / 128) % 2))))))),
{
}

/// The unique value congruent to `x` modulo `2 * half` in `[-half, half)`:
/// two's-complement wraparound for a type whose range is `[-half, half)`.
pub open spec fn wrap(x: int, half: int) -> int {
    ((x + half) % (2 * half)) - half
}

/// The value of `x` reduced into the `i16` range modulo 2^16.
pub open spec fn wrap16(x: int) -> int {
    wrap(x, 0x8000)
}

/// The value of `x` reduced into the `i32` range modulo 2^32.
pub open spec fn wrap32(x: int) -> int {
    wrap(x, 0x8000_0000)
}

/// The value of `x` reduced into the `i64` range modulo 2^64.
pub open spec fn wrap64(x: int) -> int {
    wrap(x, 0x8000_0000_0000_0000)
}

/// Wrapping yields a value of the target range.
pub proof fn lemma_wrap_bounds(x: int, half: int)
    requires
        half > 0,
    ensures
        -half <= wrap(x, half) < half,
{
    vstd::arithmetic::div_mod::lemma_mod_bound(x + half, 2 * half);
}

/// A value already in range is unchanged by wrapping.
pub proof fn lemma_wrap_id(x: int, half: int)
    requires
        half > 0,
        -half <= x < half,
    ensures
        wrap(x, half) == x,
{
    vstd::arithmetic::div_mod::lemma_small_mod((x + half) as nat, (2 * half) as nat);
}

/// Adding a multiple of the modulus does not change the wrapped value.
pub proof fn lemma_wrap_add_multiple(x: int, k: int, half: int)
    requires
        half > 0,
    ensures
        wrap(x + k * (2 * half), half) == wrap(x, half),
{
    vstd::arithmetic::div_mod::lemma_mod_multiples_vanish(k, x + half, 2 * half);
    assert(x + k * (2 * half) + half == k * (2 * half) + (x + half));
}

/// Wrapping an intermediate result does not change a wrapped sum.
pub proof fn lemma_wrap_sum(x: int, y: int, half: int)
    requires
        half > 0,
    ensures
        wrap(wrap(x, half) + y, half) == wrap(x + y, half),
        wrap(y + wrap(x, half), half) == wrap(x + y, half),
{
    let m = 2 * half;
    let k = (x + half) / m;
    vstd::arithmetic::div_mod::lemma_fundamental_div_mod(x + half, m);
    assert(wrap(x, half) == x - k * m);
    assert(wrap(x, half) + y == (x + y) + (-k) * m) by (nonlinear_arith)
        requires
            wrap(x, half) == x - k * m,
    ;
    lemma_wrap_add_multiple(x + y, -k, half);
}

/// Wrapping an intermediate factor does not change a wrapped product.
pub proof fn lemma_wrap_mul(x: int, y: int, half: int)
    requires
        half > 0,
    ensures
        wrap(wrap(x, half) * y, half) == wrap(x * y, half),
{
    let m = 2 * half;
    let k = (x + half) / m;
    vstd::arithmetic::div_mod::lemma_fundamental_div_mod(x + half, m);
    assert(wrap(x, half) == x - k * m);
    assert(wrap(x, half) * y == x * y + (-k * y) * m) by (nonlinear_arith)
        requires
            wrap(x, half) == x - k * m,
    ;
    lemma_wrap_add_multiple(x * y, -k * y, half);
}

/// `x` limited to the closed interval `[lo, hi]` (for `lo <= hi`).
pub open spec fn clamp(x: int, lo: int, hi: int) -> int {
    if x < lo { lo } else if x > hi { hi } else { x }
}

/// The low 16 bits of `x`, read as a signed 16-bit number.
pub open spec fn lo16(x: i32) -> int {
    wrap16(x as int)
}

/// The high 16 bits of `x`, read as a signed 16-bit number (arithmetic shift by 16).
pub open spec fn hi16(x: i32) -> int {
    x as int / 0x1_0000
}

/// Floor division by `c` then by `d` is floor division by `c * d`.
pub proof fn lemma_floor_div_compose(x: int, c: int, d: int)
    requires
        0 < c,
        0 < d,
    ensures
        (x / c) / d == x / (c * d),
        c * d > 0,
{
    let q1 = x / c;
    let r1 = x % c;
    let q2 = q1 / d;
    let r2 = q1 % d;
    vstd::arithmetic::div_mod::lemma_fundamental_div_mod(x, c);
    vstd::arithmetic::div_mod::lemma_fundamental_div_mod(q1, d);
    vstd::arithmetic::div_mod::lemma_mod_bound(x, c);
    vstd::arithmetic::div_mod::lemma_mod_bound(q1, d);
    assert(x == q2 * (c * d) + (c * r2 + r1)) by (nonlinear_arith)
        requires
            x == c * q1 + r1,
            q1 == d * q2 + r2,
    ;
    assert(0 <= c * r2 + r1 < c * d) by (nonlinear_arith)
        requires
            0 <= r1 < c,
            0 <= r2 < d,
            0 < c,
            0 < d,
    ;
    vstd::arithmetic::div_mod::lemma_fundamental_div_mod_converse_div(x, c * d, q2, c * r2 + r1);
}

/// Arithmetic right shift of an `i32` is floor division by a power of two.
pub proof fn lemma_i32_shr_is_div(a: i32, s: u32)
    requires
        s < 32,
    ensures
        a >> s == a as int / (pow2(s as nat) as int),
        pow2(s as nat) > 0,
    decreases s,
{
    vstd::arithmetic::power2::lemma_pow2_pos(s as nat);
    if s == 0 {
        lemma_bv_i32(a, 0, s);
        vstd::arithmetic::power2::lemma2_to64();
        assert(a as int / 1 == a);
    } else {
        lemma_i32_shr_is_div(a, (s - 1) as u32);
        let b = a >> ((s - 1) as u32);
        lemma_bv_i32(a, 0, s);
        lemma_bv_i32(b, 0, 0);
        vstd::arithmetic::power2::lemma_pow2_unfold(s as nat);
        vstd::arithmetic::power2::lemma_pow2_pos((s - 1) as nat);
        lemma_floor_div_compose(a as int, pow2((s - 1) as nat) as int, 2);
        assert(pow2(s as nat) == pow2((s - 1) as nat) * 2);
    }
}

/// Arithmetic right shift of an `i64` is floor division by a power of two.
pub proof fn lemma_i64_shr_is_div(a: i64, s: u64)
    requires
        s < 64,
    ensures
        a >> s == a as int / (pow2(s as nat) as int),
        pow2(s as nat) > 0,
    decreases s,
{
    vstd::arithmetic::power2::lemma_pow2_pos(s as nat);
    if s == 0 {
        lemma_bv_i64(a, s);
        vstd::arithmetic::power2::lemma2_to64();
        assert(a as int / 1 == a);
    } else {
        lemma_i64_shr_is_div(a, (s - 1) as u64);
        let b = a >> ((s - 1) as u64);
        lemma_bv_i64(a, s);
        lemma_bv_i64(b, 0);
        vstd::arithmetic::power2::lemma_pow2_unfold(s as nat);
        vstd::arithmetic::power2::lemma_pow2_pos((s - 1) as nat);
        lemma_floor_div_compose(a as int, pow2((s - 1) as nat) as int, 2);
        assert(pow2(s as nat) == pow2((s - 1) as nat) * 2);
    }
}

/// Left shift of an `i32` multiplies by a power of two, modulo 2^32.
pub proof fn lemma_i32_shl_is_mul(a: i32, s: u32)
    requires
        s < 32,
    ensures
        (a << s) as int == wrap32(a * pow2(s as nat)),
    decreases s,
{
    if s == 0 {
        lemma_bv_i32(a, 0, s);
        vstd::arithmetic::power2::lemma2_to64();
        assert(a * pow2(0) == a);
    } else {
        lemma_i32_shl_is_mul(a, (s - 1) as u32);
        let y = a << ((s - 1) as u32);
        lemma_bv_i32(a, 0, s);
        lemma_bv_i32(y, 0, 0);
        lemma_wrap_mul(a * pow2((s - 1) as nat), 2, 0x8000_0000);
        vstd::arithmetic::power2::lemma_pow2_unfold(s as nat);
        assert(a * pow2(s as nat) == 2 * (a * pow2((s - 1) as nat))) by (nonlinear_arith)
            requires
                pow2(s as nat) == 2 * pow2((s - 1) as nat),
        ;
    }
}

/// Left shift of an `i64` multiplies by a power of two, modulo 2^64.
pub proof fn lemma_i64_shl_is_mul(a: i64, s: u64)
    requires
        s < 64,
    ensures
        (a << s) as int == wrap64(a * pow2(s as nat)),
    decreases s,
{
    if s == 0 {
        lemma_bv_i64(a, s);
        vstd::arithmetic::power2::lemma2_to64();
        assert(a * pow2(0) == a);
    } else {
        lemma_i64_shl_is_mul(a, (s - 1) as u64);
        let y = a << ((s - 1) as u64);
        lemma_bv_i64(a, s);
        lemma_bv_i64(y, 0);
        lemma_wrap_mul(a * pow2((s - 1) as nat), 2, 0x8000_0000_0000_0000);
        vstd::arithmetic::power2::lemma_pow2_unfold(s as nat);
        assert(a * pow2(s as nat) == 2 * (a * pow2((s - 1) as nat))) by (nonlinear_arith)
            requires
                pow2(s as nat) == 2 * pow2((s - 1) as nat),
        ;
    }
}

} // verus!

verus! {

/// Integer division rounding toward zero (the quotient of Rust's `/`).
pub open spec fn tdiv(x: int, d: int) -> int {
    if x == 0 {
        0
    } else if x > 0 && d > 0 {
        x / d
    } else if x < 0 && d < 0 {
        (x * -1) / (d * -1)
    } else if x < 0 {
        ((x * -1) / d) * -1
    } else {
        (x / (d * -1)) * -1
    }
}

/// The unsigned 32-bit reading of the bits of `x`.
pub open spec fn u32_of(x: i32) -> int {
    if x >= 0 { x as int } else { x + 0x1_0000_0000 }
}

/// Reinterpreting the bits of an `i32` as `u32`.
pub proof fn lemma_i32_as_u32(x: i32)
    ensures
        (x as u32) as int == u32_of(x),
{
    lemma_bv_i32(x, 0, 0);
}

/// Truncating an `i64` of moderate size to `i32` wraps it modulo 2^32.
pub proof fn lemma_i64_as_i32(t: i64)
    requires
        -0x4000_0000_0000_0000 <= t <= 0x3fff_ffff_ffff_ffff,
    ensures
        (t as i32) as int == wrap32(t as int),
{
    let u = ((t + 0x8000_0000) as i64) >> 32u64;
    lemma_bv_i64(t, 0);
    lemma_i64_shr_is_div((t + 0x8000_0000) as i64, 32);
    vstd::arithmetic::power2::lemma2_to64_rest();
    vstd::arithmetic::div_mod::lemma_fundamental_div_mod(t + 0x8000_0000, 0x1_0000_0000);
}

/// Truncating any `i64` to `i32` wraps it modulo 2^32.
pub proof fn lemma_i64_as_i32_any(t: i64)
    ensures
        (t as i32) as int == wrap32(t as int),
{
    if t > 0x3fff_ffff_ffff_ffff {
        let u = (t - 0x4000_0000_0000_0000) as i64;
        lemma_bv_i64(t, 0);
        lemma_i64_as_i32(u);
        lemma_wrap_add_multiple(u as int, 0x4000_0000, 0x8000_0000);
    } else if t < -0x4000_0000_0000_0000 {
        let u = (t + 0x4000_0000_0000_0000) as i64;
        lemma_bv_i64(t, 0);
        lemma_i64_as_i32(u);
        lemma_wrap_add_multiple(u as int, -0x4000_0000, 0x8000_0000);
    } else {
        lemma_i64_as_i32(t);
    }
}

/// `i32::wrapping_add` is addition modulo 2^32.
pub proof fn lemma_i32_wrapping_add(x: i32, y: i32)
    ensures
        vstd::wrapping::i32_specs::wrapping_add(x, y) as int == wrap32(x + y),
        vstd::wrapping::i32_specs::wrapping_sub(x, y) as int == wrap32(x - y),
{
    let h: int = 0x8000_0000;
    if x + y > 0x7fff_ffff {
        lemma_wrap_add_multiple(x + y - 2 * h, 1, h);
        lemma_wrap_id(x + y - 2 * h, h);
    } else if x + y < -0x8000_0000 {
        lemma_wrap_add_multiple(x + y + 2 * h, -1, h);
        lemma_wrap_id(x + y + 2 * h, h);
    } else {
        lemma_wrap_id(x + y, h);
    }
    if x - y > 0x7fff_ffff {
        lemma_wrap_add_multiple(x - y - 2 * h, 1, h);
        lemma_wrap_id(x - y - 2 * h, h);
    } else if x - y < -0x8000_0000 {
        lemma_wrap_add_multiple(x - y + 2 * h, -1, h);
        lemma_wrap_id(x - y + 2 * h, h);
    } else {
        lemma_wrap_id(x - y, h);
    }
}

/// `i16::wrapping_add` is addition modulo 2^16.
pub proof fn lemma_i16_wrapping_add(x: i16, y: i16)
    ensures
        vstd::wrapping::i16_specs::wrapping_add(x, y) as int == wrap16(x + y),
        vstd::wrapping::i16_specs::wrapping_sub(x, y) as int == wrap16(x - y),
{
    let h: int = 0x8000;
    if x + y > 0x7fff {
        lemma_wrap_add_multiple(x + y - 2 * h, 1, h);
        lemma_wrap_id(x + y - 2 * h, h);
    } else if x + y < -0x8000 {
        lemma_wrap_add_multiple(x + y + 2 * h, -1, h);
        lemma_wrap_id(x + y + 2 * h, h);
    } else {
        lemma_wrap_id(x + y, h);
    }
    if x - y > 0x7fff {
        lemma_wrap_add_multiple(x - y - 2 * h, 1, h);
        lemma_wrap_id(x - y - 2 * h, h);
    } else if x - y < -0x8000 {
        lemma_wrap_add_multiple(x - y + 2 * h, -1, h);
        lemma_wrap_id(x - y + 2 * h, h);
    } else {
        lemma_wrap_id(x - y, h);
    }
}

/// `i64::wrapping_add` is addition modulo 2^64.
pub proof fn lemma_i64_wrapping_add(x: i64, y: i64)
    ensures
        vstd::wrapping::i64_specs::wrapping_add(x, y) as int == wrap64(x + y),
        vstd::wrapping::i64_specs::wrapping_sub(x, y) as int == wrap64(x - y),
{
    let h: int = 0x8000_0000_0000_0000;
    if x + y > 0x7fff_ffff_ffff_ffff {
        lemma_wrap_add_multiple(x + y - 2 * h, 1, h);
        lemma_wrap_id(x + y - 2 * h, h);
    } else if x + y < -0x8000_0000_0000_0000 {
        lemma_wrap_add_multiple(x + y + 2 * h, -1, h);
        lemma_wrap_id(x + y + 2 * h, h);
    } else {
        lemma_wrap_id(x + y, h);
    }
    if x - y > 0x7fff_ffff_ffff_ffff {
        lemma_wrap_add_multiple(x - y - 2 * h, 1, h);
        lemma_wrap_id(x - y - 2 * h, h);
    } else if x - y < -0x8000_0000_0000_0000 {
        lemma_wrap_add_multiple(x - y + 2 * h, -1, h);
        lemma_wrap_id(x - y + 2 * h, h);
    } else {
        lemma_wrap_id(x - y, h);
    }
}

/// `i32::wrapping_mul` is multiplication modulo 2^32.
pub proof fn lemma_i32_wrapping_mul(x: i32, y: i32)
    ensures
        vstd::wrapping::i32_specs::wrapping_mul(x, y) as int == wrap32(x * y),
{
    let m: int = 0x1_0000_0000;
    let h: int = 0x8000_0000;
    let p = x * y;
    let r = p % m;
    let q = p / m;
    vstd::arithmetic::div_mod::lemma_fundamental_div_mod(p, m);
    vstd::arithmetic::div_mod::lemma_mod_bound(p, m);
    if r > 0x7fff_ffff {
        assert(p + h == (q + 1) * m + (r + h - m));
        vstd::arithmetic::div_mod::lemma_fundamental_div_mod_converse_mod(p + h, m, q + 1, r + h - m);
    } else {
        assert(p + h == q * m + (r + h));
        vstd::arithmetic::div_mod::lemma_fundamental_div_mod_converse_mod(p + h, m, q, r + h);
    }
}

} // verus!

verus! {

/// The low 16 bits of `x` as a signed value.
pub fn low16(x: i32) -> (r: i16)
    ensures
        r == lo16(x),
{
    let t = x as i64;
    proof {
        lemma_bv_i64(t, 0);
        lemma_i64_shr_is_div((t + 0x8000) as i64, 16);
        vstd::arithmetic::power2::lemma2_to64();
        vstd::arithmetic::div_mod::lemma_fundamental_div_mod(t + 0x8000, 0x1_0000);
    }
    #[verifier::truncate] (x as i16)
}

/// The high 16 bits of `x` (arithmetic shift right by 16).
pub fn high16(x: i32) -> (r: i16)
    ensures
        r == hi16(x),
{
    proof {
        lemma_i32_shr_is_div(x, 16);
        vstd::arithmetic::power2::lemma2_to64();
        vstd::arithmetic::div_mod::lemma_div_is_ordered(-0x8000_0000, x as int, 0x1_0000);
        vstd::arithmetic::div_mod::lemma_div_is_ordered(x as int, 0x7fff_ffff, 0x1_0000);
    }
    (x >> 16u32) as i16
}

/// Bounds of a product of a 32-bit and a 16-bit value.
pub proof fn lemma_mul_bound_32_16(a: int, b: int)
    requires
        -0x8000_0000 <= a <= 0x7fff_ffff,
        -0x8000 <= b <= 0x7fff,
    ensures
        -0x4000_0000_0000 <= a * b <= 0x4000_0000_0000,
{
    assert(-0x4000_0000_0000 <= a * b <= 0x4000_0000_0000) by (nonlinear_arith)
        requires
            -0x8000_0000 <= a <= 0x7fff_ffff,
            -0x8000 <= b <= 0x7fff,
    ;
}

/// Bounds of a product of two 16-bit values.
pub proof fn lemma_mul_bound_16_16(a: int, b: int)
    requires
        -0x8000 <= a <= 0x7fff,
        -0x8000 <= b <= 0x7fff,
    ensures
        -0x4000_0000 <= a * b <= 0x4000_0000,
{
    assert(-0x4000_0000 <= a * b <= 0x4000_0000) by (nonlinear_arith)
        requires
            -0x8000 <= a <= 0x7fff,
            -0x8000 <= b <= 0x7fff,
    ;
}

/// Bounds of a product of two 32-bit values.
pub proof fn lemma_mul_bound_32_32(a: int, b: int)
    requires
        -0x8000_0000 <= a <= 0x7fff_ffff,
        -0x8000_0000 <= b <= 0x7fff_ffff,
    ensures
        -0x4000_0000_0000_0000 <= a * b <= 0x4000_0000_0000_0000,
{
    assert(-0x4000_0000_0000_0000 <= a * b <= 0x4000_0000_0000_0000) by (nonlinear_arith)
        requires
            -0x8000_0000 <= a <= 0x7fff_ffff,
            -0x8000_0000 <= b <= 0x7fff_ffff,
    ;
}

/// Shifting a 47-bit value right by 16 is floor division and fits 32 bits.
pub proof fn lemma_shr16_of_small(p: i64)
    requires
        -0x4000_0000_0000 <= p <= 0x4000_0000_0000,
    ensures
        p >> 16u64 == p / 0x1_0000,
        -0x4000_0000 <= p / 0x1_0000 <= 0x4000_0000,
{
    lemma_i64_shr_is_div(p, 16);
    vstd::arithmetic::power2::lemma2_to64();
    vstd::arithmetic::div_mod::lemma_div_is_ordered(-0x4000_0000_0000, p as int, 0x1_0000);
    vstd::arithmetic::div_mod::lemma_div_is_ordered(p as int, 0x4000_0000_0000, 0x1_0000);
}

/// Powers of two up to 2^31.
pub proof fn lemma_pow2_le_2_31(s: nat)
    requires
        s < 32,
    ensures
        pow2(s) <= 0x8000_0000,
{
    vstd::arithmetic::power2::lemma2_to64();
    if s < 31 {
        vstd::arithmetic::power2::lemma_pow2_strictly_increases(s, 31);
    }
}

/// Negation commutes with wrapping.
pub proof fn lemma_wrap_neg(x: int)
    ensures
        wrap32(-wrap32(x)) == wrap32(-x),
{
    let m: int = 0x1_0000_0000;
    let k = (x + 0x8000_0000) / m;
    vstd::arithmetic::div_mod::lemma_fundamental_div_mod(x + 0x8000_0000, m);
    assert(wrap32(x) == x - k * m);
    assert(-wrap32(x) == -x + k * m);
    lemma_wrap_add_multiple(-x, k, 0x8000_0000);
}

/// The only overflowing 32-bit quotient is `i32::MIN / -1`.
pub proof fn lemma_tdiv_overflow(a: int, b: int)
    requires
        -0x8000_0000 <= a <= 0x7fff_ffff,
        -0x8000_0000 <= b <= 0x7fff_ffff,
        b != 0,
        tdiv(a, b) < -0x8000_0000 || tdiv(a, b) > 0x7fff_ffff,
    ensures
        a == -0x8000_0000,
        b == -1,
        tdiv(a, b) == 0x8000_0000,
{
    if b > 0 {
        vstd::arithmetic::div_mod::lemma_div_pos_is_pos(if a >= 0 { a } else { -a }, b);
        vstd::arithmetic::div_mod::lemma_div_is_ordered_by_denominator(if a >= 0 { a } else { -a }, 1, b);
    } else if b < -1 {
        vstd::arithmetic::div_mod::lemma_div_pos_is_pos(if a >= 0 { a } else { -a }, -b);
        vstd::arithmetic::div_mod::lemma_div_is_ordered_by_denominator(if a >= 0 { a } else { -a }, 2, -b);
        vstd::arithmetic::div_mod::lemma_div_is_ordered(if a >= 0 { a } else { -a }, 0x8000_0000, 2);
    } else {
    }
}

/// Rounding right shift (32-bit) equals rounded division.
pub proof fn lemma_rshift_round_32(a: i32, s: u32)
    requires
        1 <= s <= 32,
    ensures
        s == 1 ==> (a >> 1u32) + (a & 1) == (a + pow2(0)) / (pow2(1) as int),
        s == 1 ==> -0x4000_0000 <= (a >> 1u32) < 0x4000_0000 && 0 <= (a & 1) <= 1,
        s >= 2 ==> (a >> ((s - 1) as u32)) + 1 <= 0x7fff_ffff,
        s >= 2 ==> (((a >> ((s - 1) as u32)) + 1) as i32) >> 1u32 == (a + pow2((s - 1) as nat)) / (pow2(s as nat) as int),
{
    vstd::arithmetic::power2::lemma2_to64();
    if s == 1 {
        lemma_bv_i32(a, 0, 0);
        lemma_bv_i32_half_up(a);
    } else {
        let p = pow2((s - 1) as nat) as int;
        lemma_i32_shr_is_div(a, (s - 1) as u32);
        let b = a >> ((s - 1) as u32);
        vstd::arithmetic::power2::lemma_pow2_pos((s - 1) as nat);
        lemma_pow2_le_2_31((s - 1) as nat);
        assert(p >= 2) by {
            vstd::arithmetic::power2::lemma_pow2_strictly_increases(0, (s - 1) as nat);
        }
        vstd::arithmetic::div_mod::lemma_div_is_ordered(a as int, 0x7fff_ffff, p);
        vstd::arithmetic::div_mod::lemma_div_is_ordered_by_denominator(0x7fff_ffff, 2, p);
        let c = (b + 1) as i32;
        lemma_i32_shr_is_div(c, 1);
        // floor(a/p) + 1 == floor((a + p)/p)
        vstd::arithmetic::div_mod::lemma_fundamental_div_mod(a as int, p);
        vstd::arithmetic::div_mod::lemma_mod_bound(a as int, p);
        assert(a + p == (a as int / p + 1) * p + a as int % p) by (nonlinear_arith)
            requires
                a as int == p * (a as int / p) + a as int % p,
        ;
        vstd::arithmetic::div_mod::lemma_fundamental_div_mod_converse_div(a + p, p, a as int / p + 1, a as int % p);
        lemma_floor_div_compose(a + p, p, 2);
        vstd::arithmetic::power2::lemma_pow2_unfold(s as nat);
    }
}

/// Rounding right shift (64-bit) equals rounded division.
pub proof fn lemma_rshift_round_64(a: i64, s: u64)
    requires
        1 <= s <= 64,
    ensures
        s == 1 ==> (a >> 1u64) + (a & 1) == (a + pow2(0)) / (pow2(1) as int),
        s == 1 ==> -0x4000_0000_0000_0000 <= (a >> 1u64) < 0x4000_0000_0000_0000 && 0 <= (a & 1) <= 1,
        s >= 2 ==> (a >> ((s - 1) as u64)) + 1 <= 0x7fff_ffff_ffff_ffff,
        s >= 2 ==> (((a >> ((s - 1) as u64)) + 1) as i64) >> 1u64 == (a + pow2((s - 1) as nat)) / (pow2(s as nat) as int),
{
    vstd::arithmetic::power2::lemma2_to64();
    if s == 1 {
        lemma_bv_i64(a, 0);
        lemma_bv_i64_half_up(a);
    } else {
        let p = pow2((s - 1) as nat) as int;
        lemma_i64_shr_is_div(a, (s - 1) as u64);
        let b = a >> ((s - 1) as u64);
        vstd::arithmetic::power2::lemma_pow2_pos((s - 1) as nat);
        assert(p >= 2) by {
            vstd::arithmetic::power2::lemma_pow2_strictly_increases(0, (s - 1) as nat);
        }
        vstd::arithmetic::div_mod::lemma_div_is_ordered(a as int, 0x7fff_ffff_ffff_ffff, p);
        vstd::arithmetic::div_mod::lemma_div_is_ordered_by_denominator(0x7fff_ffff_ffff_ffff, 2, p);
        let c = (b + 1) as i64;
        lemma_i64_shr_is_div(c, 1);
        vstd::arithmetic::div_mod::lemma_fundamental_div_mod(a as int, p);
        vstd::arithmetic::div_mod::lemma_mod_bound(a as int, p);
        assert(a + p == (a as int / p + 1) * p + a as int % p) by (nonlinear_arith)
            requires
                a as int == p * (a as int / p) + a as int % p,
        ;
        vstd::arithmetic::div_mod::lemma_fundamental_div_mod_converse_div(a + p, p, a as int / p + 1, a as int % p);
        lemma_floor_div_compose(a + p, p, 2);
        vstd::arithmetic::power2::lemma_pow2_unfold(s as nat);
    }
}

} // verus!

verus! {

/// Number of significant bits of a natural number.
pub open spec fn bit_length(x: nat) -> nat
    decreases x,
{
    if x == 0 { 0 } else { 1 + bit_length(x / 2) }
}

/// `bit_length(x) == k` exactly when `2^(k-1) <= x < 2^k` (or `x == 0 == k`).
pub proof fn lemma_bit_length_char(x: nat, k: nat)
    requires
        x < pow2(k),
        k == 0 || pow2((k - 1) as nat) <= x,
    ensures
        bit_length(x) == k,
    decreases k,
{
    vstd::arithmetic::power2::lemma2_to64();
    if k == 0 {
        assert(x == 0);
    } else {
        vstd::arithmetic::power2::lemma_pow2_pos((k - 1) as nat);
        vstd::arithmetic::power2::lemma_pow2_unfold(k);
        if k >= 2 {
            vstd::arithmetic::power2::lemma_pow2_unfold((k - 1) as nat);
        }
        lemma_bit_length_char(x / 2, (k - 1) as nat);
    }
}

/// The bit length of a value below `2^k` is at most `k`.
pub proof fn lemma_bit_length_bound(x: nat, k: nat)
    requires
        x < pow2(k),
    ensures
        bit_length(x) <= k,
    decreases k,
{
    vstd::arithmetic::power2::lemma2_to64();
    if k > 0 && x > 0 {
        vstd::arithmetic::power2::lemma_pow2_unfold(k);
        lemma_bit_length_bound(x / 2, (k - 1) as nat);
    }
}

/// Leading zeros of a 32-bit word in terms of its bit length.
pub proof fn lemma_u32_clz(u: u32)
    ensures
        u.leading_zeros() as int == 32 - bit_length(u as nat),
{
    let lz = u.leading_zeros();
    vstd::std_specs::bits::axiom_u32_leading_zeros(u);
    vstd::arithmetic::power2::lemma2_to64();
    if lz == 32 {
        assert(u == 0);
    } else {
        let k = (32 - lz) as u32;
        if lz > 0 {
            vstd::bits::lemma_u32_shr_is_div(u, k);
            vstd::arithmetic::power2::lemma_pow2_pos(k as nat);
            vstd::arithmetic::div_mod::lemma_fundamental_div_mod(u as int, pow2(k as nat) as int);
            vstd::arithmetic::div_mod::lemma_mod_bound(u as int, pow2(k as nat) as int);
        }
        let j = (31 - lz) as u32;
        lemma_bv_u32(u, j);
        vstd::bits::lemma_u32_shr_is_div(u, j);
        vstd::arithmetic::power2::lemma_pow2_pos(j as nat);
        vstd::arithmetic::div_mod::lemma_fundamental_div_mod(u as int, pow2(j as nat) as int);
        vstd::arithmetic::div_mod::lemma_mod_bound(u as int, pow2(j as nat) as int);
        assert(u as int >= pow2(j as nat)) by (nonlinear_arith)
            requires
                u as int == pow2(j as nat) * (u as int / pow2(j as nat) as int) + u as int % pow2(j as nat) as int,
                u as int / pow2(j as nat) as int >= 1,
                u as int % pow2(j as nat) as int >= 0,
                pow2(j as nat) > 0,
        ;
        lemma_bit_length_char(u as nat, k as nat);
    }
}

/// Leading zeros of a 16-bit word in terms of its bit length.
pub proof fn lemma_u16_clz(u: u16)
    ensures
        u.leading_zeros() as int == 16 - bit_length(u as nat),
{
    let lz = u.leading_zeros();
    vstd::std_specs::bits::axiom_u16_leading_zeros(u);
    vstd::arithmetic::power2::lemma2_to64();
    if lz == 16 {
        assert(u == 0);
    } else {
        let k = (16 - lz) as u16;
        if lz > 0 {
            vstd::bits::lemma_u16_shr_is_div(u, k);
            vstd::arithmetic::power2::lemma_pow2_pos(k as nat);
            vstd::arithmetic::div_mod::lemma_fundamental_div_mod(u as int, pow2(k as nat) as int);
            vstd::arithmetic::div_mod::lemma_mod_bound(u as int, pow2(k as nat) as int);
        }
        let j = (15 - lz) as u16;
        lemma_bv_u16(u, 0, 0, j, 0);
        vstd::bits::lemma_u16_shr_is_div(u, j);
        vstd::arithmetic::power2::lemma_pow2_pos(j as nat);
        vstd::arithmetic::div_mod::lemma_fundamental_div_mod(u as int, pow2(j as nat) as int);
        vstd::arithmetic::div_mod::lemma_mod_bound(u as int, pow2(j as nat) as int);
        assert(u as int >= pow2(j as nat)) by (nonlinear_arith)
            requires
                u as int == pow2(j as nat) * (u as int / pow2(j as nat) as int) + u as int % pow2(j as nat) as int,
                u as int / pow2(j as nat) as int >= 1,
                u as int % pow2(j as nat) as int >= 0,
                pow2(j as nat) > 0,
        ;
        lemma_bit_length_char(u as nat, k as nat);
    }
}

/// Leading zeros of a 64-bit word in terms of its bit length.
pub proof fn lemma_u64_clz(u: u64)
    ensures
        vstd::std_specs::bits::u64_leading_zeros(u) == 64 - bit_length(u as nat),
{
    let lz = vstd::std_specs::bits::u64_leading_zeros(u);
    vstd::std_specs::bits::axiom_u64_leading_zeros(u);
    vstd::arithmetic::power2::lemma2_to64();
    vstd::arithmetic::power2::lemma2_to64_rest();
    if lz == 64 {
        assert(u == 0);
    } else {
        let k = (64 - lz) as u64;
        if lz > 0 {
            vstd::bits::lemma_u64_shr_is_div(u, k);
            vstd::arithmetic::power2::lemma_pow2_pos(k as nat);
            vstd::arithmetic::div_mod::lemma_fundamental_div_mod(u as int, pow2(k as nat) as int);
            vstd::arithmetic::div_mod::lemma_mod_bound(u as int, pow2(k as nat) as int);
        }
        let j = (63 - lz) as u64;
        lemma_bv_u64(u, j);
        vstd::bits::lemma_u64_shr_is_div(u, j);
        vstd::arithmetic::power2::lemma_pow2_pos(j as nat);
        vstd::arithmetic::div_mod::lemma_fundamental_div_mod(u as int, pow2(j as nat) as int);
        vstd::arithmetic::div_mod::lemma_mod_bound(u as int, pow2(j as nat) as int);
        assert(u as int >= pow2(j as nat)) by (nonlinear_arith)
            requires
                u as int == pow2(j as nat) * (u as int / pow2(j as nat) as int) + u as int % pow2(j as nat) as int,
                u as int / pow2(j as nat) as int >= 1,
                u as int % pow2(j as nat) as int >= 0,
                pow2(j as nat) > 0,
        ;
        lemma_bit_length_char(u as nat, k as nat);
    }
}

} // verus!

verus! {

/// Values in the `i16` range are their own 16-bit wrap.
pub proof fn lemma_wrap16_small(x: int)
    requires
        -0x8000 <= x <= 0x7fff,
    ensures
        wrap16(x) == x,
{
    lemma_wrap_id(x, 0x8000);
}

} // verus!

verus! {

/// A positive value lies between the powers of two around its bit length.
pub proof fn lemma_bit_length_bounds(x: nat)
    ensures
        x < pow2(bit_length(x)),
        x > 0 ==> pow2((bit_length(x) - 1) as nat) <= x,
        x > 0 ==> bit_length(x) >= 1,
    decreases x,
{
    vstd::arithmetic::power2::lemma2_to64();
    if x > 0 {
        lemma_bit_length_bounds(x / 2);
        vstd::arithmetic::power2::lemma_pow2_unfold(bit_length(x));
        if x / 2 > 0 {
            vstd::arithmetic::power2::lemma_pow2_unfold(bit_length(x / 2));
        }
    }
}

} // verus!
