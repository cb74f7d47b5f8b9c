//! IEEE 32-bit float restoration. The decoded integers are turned into float
//! bit patterns by integer operations alone: a sign, a magnitude normalized so
//! that its implicit leading one sits in bit 23, and a biased exponent.

use vstd::prelude::*;
use crate::arith::{lemma_bv_i32_low_bits, lemma_bv_u16, lemma_bv_u32};
use crate::wavpack::bits::{bit_at, bits_val, Bits};

verus! {

/// Bits shifted into a float are ones.
pub const FLOAT_SHIFT_ONES: u8 = 1;
/// Bits shifted into a float are all the same, one bit tells which.
pub const FLOAT_SHIFT_SAME: u8 = 2;
/// Bits shifted into a float are sent literally.
pub const FLOAT_SHIFT_SENT: u8 = 4;
/// Zeros are not all real zeros: each carries a flag bit.
pub const FLOAT_ZEROS_SENT: u8 = 8;
/// The data contains negative zeros.
pub const FLOAT_NEG_ZEROS: u8 = 0x10;

/// Leading zeros of shifted-in bits announced by the stream (always none for float data).
pub const FLOAT_MIN_SHIFTED_ZEROS: i32 = 0;
/// Limit on shifted-in ones announced by the stream (always none for float data).
pub const FLOAT_MAX_SHIFTED_ONES: i32 = 0;

/// Parsed contents of an `ID_FLOAT_INFO` sub-block (exactly 4 bytes).
#[derive(Clone, Copy)]
pub struct FloatInfo {
    pub flags: u8,
    pub shift: u8,
    pub max_exp: u8,
    pub norm_exp: u8,
}

impl Default for FloatInfo {
    fn default() -> (r: Self)
        ensures
            r.flags == 0 && r.shift == 0 && r.max_exp == 0 && r.norm_exp == 0,
    {
        FloatInfo { flags: 0, shift: 0, max_exp: 0, norm_exp: 0 }
    }
}

/// `ID_FLOAT_INFO`: `Some` exactly when the sub-block holds four bytes.
pub fn parse_float_info(data: &[u8]) -> (r: Option<FloatInfo>)
    ensures
        data@.len() != 4 ==> r is None,
        data@.len() == 4 ==> (r matches Some(i) && i.flags == data@[0] && i.shift == data@[1]
            && i.max_exp == data@[2] && i.norm_exp == data@[3]),
{
    if data.len() != 4 {
        return None;
    }
    Some(FloatInfo { flags: data[0], shift: data[1], max_exp: data[2], norm_exp: data[3] })
}

/// The sign and magnitude of a decoded value after the info's left shift
/// (modulo 2^32): negative when bit 31 of the shifted value is set.
pub open spec fn sign_mag(v: i32, shift: u8) -> (bool, u32) {
    let m = (v as u32) << ((shift & 0x1fu8) as u32);
    if (m as i32) < 0 {
        (true, (0u32).wrapping_sub(m))
    } else {
        (false, m)
    }
}

/// Normalization: while bit 23 (the implicit one) of the magnitude is clear,
/// the exponent goes down (stopping at zero) and the magnitude is shifted up,
/// counting the shifts. Returns magnitude, exponent and count.
pub open spec fn normalize(mag: u32, exp: int, count: int) -> (u32, int, int)
    decreases exp,
{
    if exp <= 0 || mag & 0x80_0000u32 != 0 {
        (mag, exp, count)
    } else if exp == 1 {
        (mag, 0, count)
    } else {
        normalize(mag << 1u32, exp - 1, count + 1)
    }
}

/// Oversized magnitudes (bits 24..27 set) are shifted down, raising the exponent.
pub open spec fn shrink(mag: u32, exp: int) -> (u32, int)
    decreases mag,
{
    if mag & 0x0f00_0000u32 == 0 {
        (mag, exp)
    } else {
        proof {
            lemma_bv_u32(mag, 0);
        }
        shrink(mag >> 1u32, exp + 1)
    }
}

/// The low `count` bits set.
pub open spec fn low_mask(count: int) -> u32 {
    ((1u32 << (count as u32)) - 1) as u32
}

/// The float bit pattern of a sign, a magnitude (its low 23 bits) and an exponent (8 bits).
pub open spec fn pack_float(neg: bool, mag: u32, exp: int) -> i32 {
    ((if neg { 0x8000_0000u32 } else { 0u32 }) | (mag & 0x7f_ffffu32) | (((exp as u32) & 0xffu32) << 23u32)) as i32
}

/// The restored float of a decoded value when no extension bits are available:
/// zero stays zero; otherwise the magnitude is brought to 24 significant bits
/// by [`shrink`] or [`normalize`], with the shifted-in bits set to ones when the
/// info asks for it.
pub open spec fn nowvx_value(v: i32, info: FloatInfo) -> i32 {
    if v == 0 {
        0
    } else {
        let (neg, mag) = sign_mag(v, info.shift);
        if mag >= 0x0100_0000 {
            let (m, e) = shrink(mag, info.max_exp as int);
            pack_float(neg, m, e)
        } else {
            let (m, e, c) = normalize(mag, info.max_exp as int, 0);
            let c = c % 32;
            pack_float(neg, if c != 0 && info.flags & FLOAT_SHIFT_ONES != 0 { m | low_mask(c) } else { m }, e)
        }
    }
}

/// A zero value with extension bits: when zeros are sent, a flag bit tells a
/// stored value (23 mantissa bits, 8 exponent bits when the exponent range
/// needs them, and a sign) from a plain zero, which may carry a sign bit.
/// Returns the float and the stream position after it.
pub open spec fn wvx_zero(info: FloatInfo, s: Seq<u8>, pos: int) -> (i32, int) {
    if info.flags & FLOAT_ZEROS_SENT == 0 {
        (0, pos)
    } else if bit_at(s, pos) != 0 {
        let mant = bits_val(s, pos + 1, 23) as u32;
        let e: u32 = if info.max_exp >= 25 { bits_val(s, pos + 24, 8) as u32 } else { 0 };
        let p = if info.max_exp >= 25 { pos + 32 } else { pos + 24 };
        (((((bit_at(s, p) as u32) << 31u32) | (e << 23u32)) | mant) as i32, p + 1)
    } else if info.flags & FLOAT_NEG_ZEROS != 0 {
        (((bit_at(s, pos + 1) as u32) << 31u32) as i32, pos + 2)
    } else {
        (0, pos + 1)
    }
}

/// The bits shifted into a normalized magnitude (`count` of them, non-zero):
/// ones, or ones when a flag bit is set, or bits read from the stream.
pub open spec fn wvx_fill(m: u32, count: int, info: FloatInfo, s: Seq<u8>, pos: int) -> (u32, int) {
    if count == 0 {
        (m, pos)
    } else if info.flags & FLOAT_SHIFT_ONES != 0 {
        (m | low_mask(count), pos)
    } else if info.flags & FLOAT_SHIFT_SAME != 0 && bit_at(s, pos) != 0 {
        (m | low_mask(count), pos + 1)
    } else {
        let p = if info.flags & FLOAT_SHIFT_SAME != 0 { pos + 1 } else { pos };
        if info.flags & FLOAT_SHIFT_SENT != 0 {
            (m | ((bits_val(s, p, count as nat) as u32) & low_mask(count)), p + count)
        } else {
            (m, p)
        }
    }
}

/// The restored float of a decoded value with extension bits, and the stream
/// position after the bits it used.
pub open spec fn wvx_value(v: i32, info: FloatInfo, s: Seq<u8>, pos: int) -> (i32, int) {
    if v == 0 {
        wvx_zero(info, s, pos)
    } else {
        let (neg, mag) = sign_mag(v, info.shift);
        let sign: u32 = if neg { 0x8000_0000u32 } else { 0u32 };
        if mag == 0x0100_0000 {
            if bit_at(s, pos) != 0 {
                (((sign | 0x7f80_0000u32) | (bits_val(s, pos + 1, 23) as u32)) as i32, pos + 24)
            } else {
                ((sign | 0x7f80_0000u32) as i32, pos + 1)
            }
        } else {
            let (m, e, c) = normalize(mag, info.max_exp as int, 0);
            let (m2, p) = wvx_fill(m, c % 32, info, s, pos);
            (pack_float(neg, m2, e), p)
        }
    }
}

/// The first `k` values restored with extension bits read from `pos` on, and
/// the position after them.
pub open spec fn wvx_run(vals: Seq<i32>, info: FloatInfo, s: Seq<u8>, pos: int, k: nat) -> (Seq<i32>, int)
    decreases k,
{
    if k == 0 {
        (Seq::empty(), pos)
    } else {
        let (out, p) = wvx_run(vals, info, s, pos, (k - 1) as nat);
        let (x, p2) = wvx_value(vals[k - 1], info, s, p);
        (out.push(x), p2)
    }
}

fn sign_mag_exec(v: i32, shift: u8) -> (r: (bool, u32))
    ensures
        r == sign_mag(v, shift),
{
    assert((shift & 0x1fu8) < 32) by { lemma_bv_u16(0, shift, 0, 0, 0); }
    let m = (v as u32) << ((shift & 0x1f) as u32);
    if (m as i32) < 0 {
        (true, (0u32).wrapping_sub(m))
    } else {
        (false, m)
    }
}

fn normalize_exec(mag: u32, exp: i32) -> (r: (u32, i32, i32))
    requires
        0 <= exp <= 255,
    ensures
        r.0 == normalize(mag, exp as int, 0).0,
        r.1 == normalize(mag, exp as int, 0).1,
        r.2 == normalize(mag, exp as int, 0).2,
        0 <= r.1 <= exp,
        0 <= r.2 <= 255,
{
    let mut m = mag;
    let mut e = exp;
    let mut c: i32 = 0;
    if e != 0 {
        loop
            invariant_except_break
                1 <= e,
            invariant
                0 <= e <= exp <= 255,
                0 <= c,
                c + e <= exp,
                normalize(m, e as int, c as int) == normalize(mag, exp as int, 0),
            ensures
                normalize(m, e as int, c as int) == (m, e as int, c as int),
                0 <= e <= exp <= 255,
                0 <= c <= 255,
            decreases e,
        {
            if m & 0x80_0000 != 0 {
                break;
            }
            e -= 1;
            if e == 0 {
                break;
            }
            c += 1;
            m = m << 1u32;
        }
    }
    (m, e, c)
}

fn shrink_exec(mag: u32, exp: i32) -> (r: (u32, i32))
    requires
        0 <= exp <= 255,
    ensures
        r.0 == shrink(mag, exp as int).0,
        r.1 == shrink(mag, exp as int).1,
{
    let mut m = mag;
    let mut e = exp;
    let ghost mut k: u32 = 0;
    proof { lemma_bv_u32(m, 0); }
    while m & 0x0f00_0000 != 0
        invariant
            shrink(m, e as int) == shrink(mag, exp as int),
            e == exp + k,
            0 <= exp <= 255,
            k <= 8,
            m <= (0xffff_ffffu32 >> k),
        decreases m,
    {
        proof { lemma_bv_u32(m, k); }
        assert(k < 8);
        m = m >> 1u32;
        e += 1;
        proof {
            k = (k + 1) as u32;
        }
    }
    (m, e)
}

fn pack_float_exec(neg: bool, mag: u32, exp: i32) -> (r: i32)
    requires
        0 <= exp,
    ensures
        r == pack_float(neg, mag, exp as int),
{
    (((if neg { 0x8000_0000u32 } else { 0u32 }) | (mag & 0x7f_ffff)) | (((exp as u32) & 0xff) << 23u32)) as i32
}

fn low_mask_exec(count: i32) -> (r: u32)
    requires
        0 < count < 32,
    ensures
        r == low_mask(count as int),
{
    assert(0 < count < 32 ==> (1u32 << (count as u32)) >= 2) by { lemma_bv_u32(0, count as u32); }
    (1u32 << (count as u32)) - 1
}

fn nowvx_sample(v: i32, info: &FloatInfo) -> (r: i32)
    ensures
        r == nowvx_value(v, *info),
{
    if v == 0 {
        return 0;
    }
    let (neg, mag) = sign_mag_exec(v, info.shift);
    let exp = info.max_exp as i32;
    if mag >= 0x0100_0000 {
        let (m, e) = shrink_exec(mag, exp);
        assert(e >= 0) by {
            lemma_shrink_exp_grows(mag, exp as int);
        }
        pack_float_exec(neg, m, e)
    } else {
        let (m, e, c) = normalize_exec(mag, exp);
        let c = c & 0x1f;
        assert(c == normalize(mag, exp as int, 0).2 % 32) by {
            let c0 = normalize(mag, exp as int, 0).2 as i32;
            lemma_bv_i32_low_bits(c0);
        }
        if c != 0 && (info.flags & FLOAT_SHIFT_ONES) != 0 {
            pack_float_exec(neg, m | low_mask_exec(c), e)
        } else {
            pack_float_exec(neg, m, e)
        }
    }
}

fn fill_exec(m: u32, count: i32, info: &FloatInfo, bs: &mut Bits) -> (r: u32)
    requires
        old(bs).wf(),
        0 <= count < 32,
    ensures
        final(bs).wf(),
        final(bs).stream() == old(bs).stream(),
        (r, final(bs).position()) == wvx_fill(m, count as int, *info, old(bs).stream(), old(bs).position()),
{
    if count == 0 {
        return m;
    }
    if (info.flags & FLOAT_SHIFT_ONES) != 0 {
        return m | low_mask_exec(count);
    }
    if (info.flags & FLOAT_SHIFT_SAME) != 0 {
        if bs.getbit() != 0 {
            return m | low_mask_exec(count);
        }
    }
    if (info.flags & FLOAT_SHIFT_SENT) != 0 {
        let mask = low_mask_exec(count);
        let mut num_zeros: i32 = 0;
        if FLOAT_MAX_SHIFTED_ONES != 0 && count > FLOAT_MAX_SHIFTED_ONES {
            num_zeros = count - FLOAT_MAX_SHIFTED_ONES;
        }
        if FLOAT_MIN_SHIFTED_ZEROS > num_zeros {
            num_zeros = if FLOAT_MIN_SHIFTED_ZEROS > count { count } else { FLOAT_MIN_SHIFTED_ZEROS };
        }
        let read_bits = count - num_zeros;
        if read_bits > 0 {
            let temp = bs.getbits(read_bits as u32);
            assert(temp << 0u32 == temp) by { lemma_bv_u32(temp, 0); }
            return m | ((temp << (num_zeros as u32)) & mask);
        }
        return m;
    }
    m
}

fn wvx_sample(v: i32, info: &FloatInfo, bs: &mut Bits) -> (r: i32)
    requires
        old(bs).wf(),
    ensures
        final(bs).wf(),
        final(bs).stream() == old(bs).stream(),
        (r, final(bs).position()) == wvx_value(v, *info, old(bs).stream(), old(bs).position()),
{
    if v == 0 {
        if (info.flags & FLOAT_ZEROS_SENT) != 0 {
            if bs.getbit() != 0 {
                let mantissa = bs.getbits(23);
                let mut e: u32 = 0;
                if info.max_exp >= 25 {
                    e = bs.getbits(8);
                }
                let sign = bs.getbit();
                return (((sign << 31u32) | (e << 23u32)) | mantissa) as i32;
            } else if (info.flags & FLOAT_NEG_ZEROS) != 0 {
                let sign = bs.getbit();
                return (sign << 31u32) as i32;
            }
        }
        return 0;
    }
    let (neg, mag) = sign_mag_exec(v, info.shift);
    let sign: u32 = if neg { 0x8000_0000 } else { 0 };
    if mag == 0x0100_0000 {
        if bs.getbit() != 0 {
            let mantissa = bs.getbits(23);
            return ((sign | 0x7f80_0000) | mantissa) as i32;
        }
        return (sign | 0x7f80_0000) as i32;
    }
    let (m, e, c) = normalize_exec(mag, info.max_exp as i32);
    let c = c & 0x1f;
    assert(c == normalize(mag, info.max_exp as int, 0).2 % 32) by {
        let c0 = normalize(mag, info.max_exp as int, 0).2 as i32;
        lemma_bv_i32_low_bits(c0);
    }
    assert(0 <= c < 32);
    let m2 = fill_exec(m, c, info, bs);
    pack_float_exec(neg, m2, e)
}

/// `float_values()` with extension bits: each value restored by [`wvx_value`],
/// reading the bits in order.
fn float_values_wvx(values: &mut [i32], info: &FloatInfo, bs: &mut Bits)
    requires
        old(bs).wf(),
    ensures
        final(bs).wf(),
        final(bs).stream() == old(bs).stream(),
        final(values)@.len() == old(values)@.len(),
        final(values)@ == wvx_run(old(values)@, *info, old(bs).stream(), old(bs).position(), old(values)@.len()).0,
        final(bs).position() == wvx_run(old(values)@, *info, old(bs).stream(), old(bs).position(), old(values)@.len()).1,
{
    let ghost v0 = values@;
    let ghost s = bs.stream();
    let ghost p0 = bs.position();
    let n = values.len();
    let mut i: usize = 0;
    while i < n
        invariant
            i <= n,
            n == v0.len(),
            values@.len() == n,
            bs.wf(),
            bs.stream() == s,
            wvx_run(v0, *info, s, p0, i as nat).0 == values@.subrange(0, i as int),
            wvx_run(v0, *info, s, p0, i as nat).1 == bs.position(),
            forall|j: int| i <= j < n ==> #[trigger] values@[j] == v0[j],
        decreases n - i,
    {
        let x = wvx_sample(values[i], info, bs);
        let ghost before = values@;
        values[i] = x;
        assert(values@.subrange(0, i as int + 1) == before.subrange(0, i as int).push(x));
        i += 1;
    }
    assert(values@.subrange(0, n as int) == values@);
}

/// `float_values_nowvx()`: each value restored by [`nowvx_value`].
fn float_values_nowvx(values: &mut [i32], info: &FloatInfo)
    ensures
        final(values)@.len() == old(values)@.len(),
        forall|i: int| 0 <= i < old(values)@.len() ==> #[trigger] final(values)@[i] == nowvx_value(old(values)@[i], *info),
{
    let ghost v0 = values@;
    let n = values.len();
    let mut i: usize = 0;
    while i < n
        invariant
            i <= n,
            n == v0.len(),
            values@.len() == n,
            forall|j: int| 0 <= j < i ==> #[trigger] values@[j] == nowvx_value(v0[j], *info),
            forall|j: int| i <= j < n ==> #[trigger] values@[j] == v0[j],
        decreases n - i,
    {
        let x = nowvx_sample(values[i], info);
        values[i] = x;
        i += 1;
    }
}

/// Restores float bit patterns in place: with an extension bit reader every
/// value is restored by [`wvx_value`] (reading its bits in order), without one
/// by [`nowvx_value`].
pub fn float_values(values: &mut [i32], info: &FloatInfo, wvx: Option<&mut Bits<'_>>)
    requires
        wvx matches Some(bs) ==> bs.wf(),
    ensures
        final(values)@.len() == old(values)@.len(),
        wvx is None ==> forall|i: int| 0 <= i < old(values)@.len()
            ==> #[trigger] final(values)@[i] == nowvx_value(old(values)@[i], *info),
        wvx matches Some(bs) ==> final(values)@ == wvx_run(old(values)@, *info, bs.stream(), bs.position(), old(values)@.len()).0,
{
    match wvx {
        Some(bs) => {
            float_values_wvx(values, info, bs);
        },
        None => float_values_nowvx(values, info),
    }
}

proof fn lemma_shrink_exp_grows(mag: u32, exp: int)
    ensures
        shrink(mag, exp).1 >= exp,
    decreases mag,
{
    if mag & 0x0f00_0000u32 != 0 {
        lemma_bv_u32(mag, 0);
        lemma_shrink_exp_grows(mag >> 1u32, exp + 1);
    }
}

} // verus!
