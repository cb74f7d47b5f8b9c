//! The variable-length codes of the WavPack bitstream: unary runs, Elias-style
//! counts, truncated binary codes, the "ones count" of a residual, and the
//! adaptive medians that scale them.

use vstd::prelude::*;
use vstd::arithmetic::power2::pow2;
use crate::arith::{bit_length, lemma_bv_u32};
use crate::wavpack::bits::{Bits, bit_at, bits_val, lemma_bit_range, lemma_bits_val_bound};

verus! {

/// Doubling the single-bit mask `1 << k`, and setting that bit above a smaller value.
proof fn lemma_mask_step(value: u32, k: u32)
    ensures
        1u32 == (1u32 << 0u32),
        k < 31 ==> ((1u32 << k) << 1u32) == (1u32 << k) * 2,
        k < 31 ==> ((1u32 << k) << 1u32) == (1u32 << (k + 1) as u32),
        k < 32 && value < (1u32 << k) ==> (value | (1u32 << k)) == value + (1u32 << k),
{
    lemma_bv_u32(value, k);
}

/// The number of consecutive 1 bits from position `p`, counting at most `cap`.
pub open spec fn unary(d: Seq<u8>, p: int, cap: nat) -> nat
    decreases cap,
{
    if cap == 0 {
        0
    } else if bit_at(d, p) == 1 {
        1 + unary(d, p + 1, (cap - 1) as nat)
    } else {
        0
    }
}

/// Bits read by a unary run: the ones, plus the terminating zero unless the
/// cap was reached.
pub open spec fn unary_len(d: Seq<u8>, p: int, cap: nat) -> int {
    unary(d, p, cap) + (if unary(d, p, cap) < cap { 1int } else { 0int })
}

/// A count coded by its bit length `cbits`: below 2 the count is `cbits`
/// itself, otherwise `cbits - 1` low bits follow and the top bit is implied.
pub open spec fn elias_val(d: Seq<u8>, p: int, cbits: nat) -> int {
    if cbits < 2 { cbits as int } else { bits_val(d, p, (cbits - 1) as nat) + pow2((cbits - 1) as nat) }
}

/// Bits read after the length of an Elias-style count.
pub open spec fn elias_len(cbits: nat) -> int {
    if cbits < 2 { 0 } else { cbits - 1 }
}

/// A zero-run length at `p` (`None` at the end-of-stream marker, 33 ones),
/// and the number of bits read either way.
pub open spec fn zero_run(d: Seq<u8>, p: int) -> (Option<int>, int) {
    let c = unary(d, p, 33);
    if c == 33 {
        (None, 33)
    } else {
        (Some(elias_val(d, p + unary_len(d, p, 33), c)), unary_len(d, p, 33) + elias_len(c))
    }
}

/// Count of ones of a residual at `p`: up to 15 directly in unary, otherwise
/// 16 plus an Elias-style count; `None` at an end-of-stream marker. The
/// second component is the number of bits read either way.
pub open spec fn ones_code(d: Seq<u8>, p: int) -> (Option<u32>, int) {
    let o = unary(d, p, 17);
    let q = p + unary_len(d, p, 17);
    if o < 16 {
        (Some(o as u32), unary_len(d, p, 17))
    } else if o > 16 {
        (None, 17)
    } else {
        let c = unary(d, q, 33);
        if c == 33 {
            (None, 17int + 33)
        } else {
            let v = elias_val(d, q + unary_len(d, q, 33), c) as u32;
            (Some(v.wrapping_add(16)), unary_len(d, p, 17) + unary_len(d, q, 33) + elias_len(c))
        }
    }
}

/// A truncated binary code for a value in `0..=maxcode` at `p`: the value and
/// the number of bits read.
pub open spec fn code_val(d: Seq<u8>, p: int, maxcode: u32) -> (int, int) {
    if maxcode == 0 {
        (0, 0)
    } else if maxcode == 1 {
        (bit_at(d, p), 1)
    } else {
        let bc = bit_length(maxcode as nat);
        let extras = pow2(bc) - maxcode - 1;
        let code = bits_val(d, p, (bc - 1) as nat);
        if code >= extras {
            (code * 2 - extras + bit_at(d, p + bc - 1), bc as int)
        } else {
            (code, bc - 1)
        }
    }
}

/// A capped run is at most its cap.
pub proof fn lemma_unary_bound(d: Seq<u8>, p: int, cap: nat)
    ensures
        unary(d, p, cap) <= cap,
    decreases cap,
{
    if cap > 0 {
        lemma_unary_bound(d, p + 1, (cap - 1) as nat);
    }
}

/// Reads ones until a zero or until `cap` ones were read.
pub fn read_unary(bs: &mut Bits, cap: u32) -> (r: u32)
    requires
        old(bs).wf(),
    ensures
        final(bs).wf(),
        final(bs).stream() == old(bs).stream(),
        r == unary(old(bs).stream(), old(bs).position(), cap as nat),
        r <= cap,
        final(bs).position() == old(bs).position() + unary_len(old(bs).stream(), old(bs).position(), cap as nat),
{
    proof { lemma_unary_bound(old(bs).stream(), old(bs).position(), cap as nat); }
    let ghost d = bs.stream();
    let ghost p0 = bs.position();
    let mut count: u32 = 0;
    while count < cap
        invariant_except_break
            bs.position() == p0 + count,
        invariant
            bs.wf(),
            bs.stream() == d,
            count <= cap,
            unary(d, p0, cap as nat) == count + unary(d, p0 + count, (cap - count) as nat),
        ensures
            count == unary(d, p0, cap as nat),
            bs.position() == p0 + unary_len(d, p0, cap as nat),
        decreases cap - count,
    {
        let b = bs.getbit();
        proof { lemma_bit_range(d, p0 + count); }
        if b != 1 {
            assert(unary(d, p0 + count, (cap - count) as nat) == 0);
            break;
        }
        count += 1;
    }
    count
}

/// Reads the `cbits - 1` low bits of an Elias-style count (LSB first) and adds
/// the implied top bit; counts below 2 are returned as they are.
pub fn read_elias(bs: &mut Bits, cbits: u32) -> (r: u32)
    requires
        old(bs).wf(),
        cbits <= 32,
    ensures
        final(bs).wf(),
        final(bs).stream() == old(bs).stream(),
        r == elias_val(old(bs).stream(), old(bs).position(), cbits as nat),
        final(bs).position() == old(bs).position() + elias_len(cbits as nat),
{
    if cbits < 2 {
        return cbits;
    }
    let ghost d = bs.stream();
    let ghost p0 = bs.position();
    let mut mask: u32 = 1;
    let mut value: u32 = 0;
    let mut k: u32 = 0;
    proof { vstd::arithmetic::power2::lemma2_to64(); }
    proof { lemma_mask_step(0, 0); }
    while k < cbits - 1
        invariant
            bs.wf(),
            bs.stream() == d,
            2 <= cbits <= 32,
            k <= cbits - 1,
            bs.position() == p0 + k,
            mask == (1u32 << k),
            mask as int == pow2(k as nat),
            value as int == bits_val(d, p0, k as nat),
            value < mask,
        decreases cbits - 1 - k,
    {
        let b = bs.getbit();
        proof {
            lemma_bit_range(d, p0 + k);
            crate::wavpack::bits::lemma_bits_val_split(d, p0, k as nat, 1);
            vstd::arithmetic::power2::lemma_pow2_unfold((k + 1) as nat);
            assert(bits_val(d, p0 + k, 1) == bit_at(d, p0 + k)) by {
                reveal_with_fuel(bits_val, 2);
            }
            lemma_mask_step(value, k);
        }
        let ghost before = value;
        if b == 1 {
            value = value | mask;
        }
        proof {
            assert(bits_val(d, p0 + k, 1) == b as int);
            if b == 1 {
                assert(pow2(k as nat) * 1 == mask as int);
            } else {
                assert(b == 0);
                assert(pow2(k as nat) * 0 == 0);
            }
            assert(pow2(k as nat) * bits_val(d, p0 + k, 1) == (if b == 1 { mask as int } else { 0 }));
            assert(value as int == before + pow2(k as nat) * bits_val(d, p0 + k, 1));
        }
        mask = mask << 1u32;
        k += 1;
    }
    proof {
        lemma_mask_step(value, k);
    }
    value | mask
}

/// The number of bits needed for `n`.
pub fn count_bits(n: u32) -> (r: u32)
    ensures
        r as int == bit_length(n as nat),
{
    proof { crate::arith::lemma_u32_clz(n); }
    32 - n.leading_zeros()
}

/// A value in `0..=maxcode` in a truncated binary code.
pub fn read_code(bs: &mut Bits, maxcode: u32) -> (r: u32)
    requires
        old(bs).wf(),
        maxcode < 0x8000_0000,
    ensures
        final(bs).wf(),
        final(bs).stream() == old(bs).stream(),
        r as int == code_val(old(bs).stream(), old(bs).position(), maxcode).0,
        final(bs).position() == old(bs).position() + code_val(old(bs).stream(), old(bs).position(), maxcode).1,
        r <= maxcode,
{
    if maxcode == 0 {
        return 0;
    }
    if maxcode == 1 {
        proof { lemma_bit_range(bs.stream(), bs.position()); }
        return bs.getbit();
    }
    let ghost d = bs.stream();
    let ghost p = bs.position();
    let bitcount = count_bits(maxcode);
    proof {
        crate::arith::lemma_bit_length_bounds(maxcode as nat);
        vstd::arithmetic::power2::lemma2_to64();
        if bitcount > 31 {
            vstd::arithmetic::power2::lemma_pow2_strictly_increases(31, (bitcount - 1) as nat);
        }
        if bitcount < 2 {
            assert(maxcode < pow2(1));
        }
        vstd::bits::lemma_u32_pow2_no_overflow(bitcount as nat);
        vstd::bits::lemma_u32_shl_is_mul(1, bitcount);
    }
    let extras = (1u32 << bitcount) - maxcode - 1;
    let code = bs.getbits(bitcount - 1);
    proof {
        lemma_bits_val_bound(d, p, (bitcount - 1) as nat);
        vstd::arithmetic::power2::lemma_pow2_unfold(bitcount as nat);
    }
    proof {
        assert(pow2((bitcount - 1) as nat) <= maxcode);
        assert(code * pow2(1) <= u32::MAX);
        vstd::bits::lemma_u32_shl_is_mul(code, 1);
    }
    if code >= extras {
        let b = bs.getbit();
        proof { lemma_bit_range(d, p + bitcount - 1); }
        (code << 1u32) - extras + b
    } else {
        code
    }
}

/// A zero-run length (`None` at the end-of-stream marker).
pub fn read_zero_run(bs: &mut Bits) -> (r: Option<u32>)
    requires
        old(bs).wf(),
    ensures
        final(bs).wf(),
        final(bs).stream() == old(bs).stream(),
        r.is_some() == zero_run(old(bs).stream(), old(bs).position()).0.is_some(),
        r.is_some() ==> r.unwrap() as int == zero_run(old(bs).stream(), old(bs).position()).0.unwrap(),
        final(bs).position() == old(bs).position() + zero_run(old(bs).stream(), old(bs).position()).1,
{
    let ghost d = bs.stream();
    let ghost p = bs.position();
    let cbits = read_unary(bs, 33);
    if cbits == 33 {
        return None;
    }
    proof {
        if cbits >= 2 {
            lemma_bits_val_bound(d, bs.position(), (cbits - 1) as nat);
            vstd::arithmetic::power2::lemma_pow2_unfold(cbits as nat);
            vstd::bits::lemma_u32_pow2_no_overflow((cbits - 1) as nat);
        }
    }
    let v = read_elias(bs, cbits);
    Some(v)
}

/// The ones count of the next residual (`None` at an
/// end-of-stream marker).
pub fn count_ones_lim(bs: &mut Bits) -> (r: Option<u32>)
    requires
        old(bs).wf(),
    ensures
        final(bs).wf(),
        final(bs).stream() == old(bs).stream(),
        r == ones_code(old(bs).stream(), old(bs).position()).0,
        final(bs).position() == old(bs).position() + ones_code(old(bs).stream(), old(bs).position()).1,
{
    let ones_count = read_unary(bs, 17);
    if ones_count >= 16 {
        if ones_count > 16 {
            return None;
        }
        let cbits = read_unary(bs, 33);
        if cbits == 33 {
            return None;
        }
        let v = read_elias(bs, cbits);
        return Some(v.wrapping_add(16));
    }
    Some(ones_count)
}

/// The scale of a median.
pub open spec fn get_med_spec(m: u32) -> u32 {
    (m / 16 + 1) as u32
}

/// A median grows by about `5 / div` of itself (modulo 2^32).
pub open spec fn inc_med_spec(m: u32, div: u32) -> u32 {
    m.wrapping_add((m.wrapping_add(div) / div * 5) as u32)
}

/// A median shrinks by about `2 / div` of itself (modulo 2^32).
pub open spec fn dec_med_spec(m: u32, div: u32) -> u32 {
    m.wrapping_sub((m.wrapping_add((div - 2) as u32) / div * 2) as u32)
}

pub fn get_med(med: u32) -> (r: u32)
    ensures
        r == get_med_spec(med),
{
    proof { vstd::bits::lemma_u32_shr_is_div(med, 4); vstd::arithmetic::power2::lemma2_to64(); }
    (med >> 4u32) + 1
}

/// Raises a running median, with divisor `div` (128, 64 or 32).
pub fn inc_med(m: u32, div: u32) -> (r: u32)
    requires
        div == 128 || div == 64 || div == 32,
    ensures
        r == inc_med_spec(m, div),
{
    m.wrapping_add(m.wrapping_add(div) / div * 5)
}

/// Lowers a running median, with divisor `div` (128, 64 or 32).
pub fn dec_med(m: u32, div: u32) -> (r: u32)
    requires
        div == 128 || div == 64 || div == 32,
    ensures
        r == dec_med_spec(m, div),
{
    m.wrapping_sub(m.wrapping_add(div - 2) / div * 2)
}

/// The interval `[low, high]` of a residual magnitude selected by its ones
/// count, and the three medians after their adaptation.
pub open spec fn median_interval(m0: u32, m1: u32, m2: u32, ones: u32) -> (u32, u32, u32, u32, u32) {
    if ones == 0 {
        (0, get_med_spec(m0).saturating_sub(1), dec_med_spec(m0, 128), m1, m2)
    } else {
        let l = get_med_spec(m0);
        let n0 = inc_med_spec(m0, 128);
        if ones == 1 {
            (l, l.wrapping_add(get_med_spec(m1)).saturating_sub(1), n0, dec_med_spec(m1, 64), m2)
        } else {
            let l2 = l.wrapping_add(get_med_spec(m1));
            let n1 = inc_med_spec(m1, 64);
            if ones == 2 {
                (l2, l2.wrapping_add(get_med_spec(m2)).saturating_sub(1), n0, n1, dec_med_spec(m2, 32))
            } else {
                let l3 = l2.wrapping_add(((ones - 2) as u32).wrapping_mul(get_med_spec(m2)));
                (l3, l3.wrapping_add(get_med_spec(m2)).saturating_sub(1), n0, n1, inc_med_spec(m2, 32))
            }
        }
    }
}

/// The width of every interval is below 2^29.
pub proof fn lemma_interval_width(m0: u32, m1: u32, m2: u32, ones: u32)
    ensures
        ({
            let t = median_interval(m0, m1, m2, ones);
            t.1.wrapping_sub(t.0) < 0x2000_0002
        }),
{
}

} // verus!
