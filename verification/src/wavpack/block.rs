//! Sub-block parsers of a WavPack v4/v5 block and the final integer fixups
//! (joint stereo, extra bits of 32-bit data, hybrid clipping, shift).

use vstd::prelude::*;
use crate::arith::{
    lemma_bv_i32, lemma_bv_u16, lemma_bv_u32, lemma_i32_shl_is_mul, lemma_i32_shr_is_div, lemma_wrap_id, wrap32,
};
use crate::wavpack::decorr::DecorrPass;
use crate::wavpack::logs::{exp2s, wp_exp2s};
use crate::wavpack::words::{
    ChanModel, WordsModel, WordsState, HYBRID_BITRATE, HYBRID_FLAG, INT32_DATA, JOINT_STEREO, MONO_DATA,
    SHIFT_LSB, SHIFT_MASK,
};

verus! {

/// At most this many decorrelation passes.
pub const MAX_NTERMS: usize = 16;

/// Parsed `ID_INT32_INFO`: how 32-bit integer samples were reduced.
#[derive(Clone, Copy)]
pub struct Int32Info {
    pub sent_bits: u8,
    pub zeros: u8,
    pub ones: u8,
    pub dups: u8,
}

impl Default for Int32Info {
    fn default() -> (r: Self)
        ensures
            r.sent_bits == 0 && r.zeros == 0 && r.ones == 0 && r.dups == 0,
    {
        Int32Info { sent_bits: 0, zeros: 0, ones: 0, dups: 0 }
    }
}

/// A stored 8-bit weight expanded to the 1024 scale.
pub open spec fn restore_weight_spec(b: i8) -> i32 {
    let r = (b as i32) * 8;
    if r > 0 { (r + (r + 64) / 128) as i32 } else { r as i32 }
}

pub fn restore_weight(b: i8) -> (r: i32)
    ensures
        r == restore_weight_spec(b),
        -1024 <= r <= 1032,
{
    let v = b as i32;
    assert((v << 3u32) == v * 8) by {
        lemma_i32_shl_is_mul(v, 3);
        vstd::arithmetic::power2::lemma2_to64();
        lemma_wrap_id(v * 8, 0x8000_0000);
    }
    let r = v << 3u32;
    if r > 0 {
        let t = r + 64;
        assert((t >> 7u32) == t / 128) by {
            lemma_i32_shr_is_div(t, 7);
            vstd::arithmetic::power2::lemma2_to64();
        }
        r + (t >> 7u32)
    } else {
        r
    }
}

/// The four bytes of `ID_INT32_INFO`, or all zero when
/// fewer than four are present.
pub fn parse_int32_info(data: &[u8]) -> (r: Int32Info)
    ensures
        data@.len() < 4 ==> r.sent_bits == 0 && r.zeros == 0 && r.ones == 0 && r.dups == 0,
        data@.len() >= 4 ==> r.sent_bits == data@[0] && r.zeros == data@[1] && r.ones == data@[2] && r.dups == data@[3],
{
    if data.len() < 4 {
        return Int32Info::default();
    }
    Int32Info { sent_bits: data[0], zeros: data[1], ones: data[2], dups: data[3] }
}

/// The pass described by a byte of `ID_DECORR_TERMS`: term in the low five
/// bits (offset by 5), step in the top three.
pub open spec fn term_of(byte: u8) -> i32 {
    ((byte & 0x1fu8) as i32 - 5) as i32
}

/// See [`term_of`].
pub open spec fn delta_of(byte: u8) -> i32 {
    ((byte >> 5u8) & 7u8) as i32
}

/// One pass per byte (at most 16), stored in reverse
/// order, with zero weights and histories.
pub fn parse_decorr_terms(data: &[u8], passes: &mut Vec<DecorrPass>)
    ensures
        ({
            let num = if data@.len() < MAX_NTERMS { data@.len() as int } else { MAX_NTERMS as int };
            &&& final(passes)@.len() == num
            &&& forall|j: int| 0 <= j < num ==> {
                let p = #[trigger] final(passes)@[j];
                &&& p.term == term_of(data@[num - 1 - j])
                &&& p.delta == delta_of(data@[num - 1 - j])
                &&& p.weight_a == 0 && p.weight_b == 0
                &&& forall|k: int| 0 <= k < 8 ==> p.samples_a@[k] == 0 && p.samples_b@[k] == 0
            }
        }),
{
    let num = if data.len() < MAX_NTERMS { data.len() } else { MAX_NTERMS };
    passes.clear();
    let mut j: usize = 0;
    while j < num
        invariant
            j <= num,
            num <= data@.len(),
            num <= MAX_NTERMS,
            passes@.len() == j,
            forall|t: int| 0 <= t < j ==> {
                let p = #[trigger] passes@[t];
                &&& p.term == term_of(data@[num - 1 - t])
                &&& p.delta == delta_of(data@[num - 1 - t])
                &&& p.weight_a == 0 && p.weight_b == 0
                &&& forall|k: int| 0 <= k < 8 ==> p.samples_a@[k] == 0 && p.samples_b@[k] == 0
            },
        decreases num - j,
    {
        let byte = data[num - 1 - j];
        let lo = byte & 0x1fu8;
        let hi = (byte >> 5u8) & 7u8;
        assert(lo <= 31) by { lemma_bv_u16(0, byte, 0, 0, 0); }
        let mut p = DecorrPass::default();
        p.term = lo as i32 - 5;
        p.delta = hi as i32;
        assert(p.term == term_of(byte));
        assert(p.delta == delta_of(byte));
        assert(forall|k: int| 0 <= k < 8 ==> p.samples_a@[k] == 0 && p.samples_b@[k] == 0);
        let ghost before = passes@;
        passes.push(p);
        assert(passes@ == before.push(p));
        j += 1;
    }
}

/// The weight bytes of the `t`-th pass from the end are present.
pub open spec fn weight_present(t: int, stride: int, len: int) -> bool {
    (t + 1) * stride <= len
}

/// The weights, stored in reverse pass order; one
/// byte per pass (two for stereo). Passes without bytes keep their weights.
pub fn parse_decorr_weights(data: &[u8], passes: &mut [DecorrPass], is_mono: bool)
    ensures
        ({
            let n = old(passes)@.len();
            let stride: int = if is_mono { 1 } else { 2 };
            &&& final(passes)@.len() == n
            &&& forall|j: int| 0 <= j < n ==> {
                let p = #[trigger] final(passes)@[n - 1 - j];
                let q = old(passes)@[n - 1 - j];
                &&& p.term == q.term && p.delta == q.delta
                &&& p.samples_a == q.samples_a && p.samples_b == q.samples_b
                &&& if weight_present(j, stride, data@.len() as int) {
                    &&& p.weight_a == restore_weight_spec(data@[j * stride] as i8)
                    &&& p.weight_b == (if is_mono { q.weight_b } else { restore_weight_spec(data@[j * stride + 1] as i8) })
                } else {
                    p.weight_a == q.weight_a && p.weight_b == q.weight_b
                }
            }
        }),
{
    let stride: usize = if is_mono { 1 } else { 2 };
    let n = passes.len();
    let ghost old_p = passes@;
    let mut byte: usize = 0;
    let mut j: usize = 0;
    while j < n
        invariant_except_break
            byte == j * stride,
        invariant
            j <= n,
            n == old_p.len(),
            passes@.len() == n,
            stride == (if is_mono { 1usize } else { 2usize }),
            byte <= data@.len() + 2,
            forall|t: int| 0 <= t < n ==> {
                let p = #[trigger] passes@[n - 1 - t];
                let q = old_p[n - 1 - t];
                &&& p.term == q.term && p.delta == q.delta
                &&& p.samples_a == q.samples_a && p.samples_b == q.samples_b
                &&& if t < j {
                    &&& p.weight_a == restore_weight_spec(data@[t * stride] as i8)
                    &&& p.weight_b == (if is_mono { q.weight_b } else { restore_weight_spec(data@[t * stride + 1] as i8) })
                } else {
                    p.weight_a == q.weight_a && p.weight_b == q.weight_b
                }
            },
            forall|t: int| 0 <= t < j ==> #[trigger] weight_present(t, stride as int, data@.len() as int),
        ensures
            forall|t: int| j <= t < n ==> !#[trigger] weight_present(t, stride as int, data@.len() as int),
        decreases n - j,
    {
        if stride > data.len() || byte > data.len() - stride {
            proof {
                assert forall|t: int| j <= t < n implies !#[trigger] weight_present(t, stride as int, data@.len() as int) by {
                    assert((t + 1) * stride >= (j + 1) * stride) by (nonlinear_arith)
                        requires t >= j, stride >= 1;
                }
            }
            break;
        }
        let mut p = passes[n - 1 - j];
        p.weight_a = restore_weight(data[byte] as i8);
        if !is_mono {
            p.weight_b = restore_weight(data[byte + 1] as i8);
        }
        passes[n - 1 - j] = p;
        byte += stride;
        j += 1;
    }
}

/// A little-endian 16-bit signed value at byte `ptr`, or 0 past the end.
pub open spec fn le_i16_at(data: Seq<u8>, ptr: int) -> int {
    if ptr + 2 <= data.len() {
        let v = data[ptr] as int + 256 * data[ptr + 1] as int;
        if v >= 0x8000 { v - 0x1_0000 } else { v }
    } else {
        0
    }
}

/// A little-endian 16-bit unsigned value at byte `ptr`, or 0 past the end.
pub open spec fn le_u16_at(data: Seq<u8>, ptr: int) -> int {
    if ptr + 2 <= data.len() { data[ptr] as int + 256 * data[ptr + 1] as int } else { 0 }
}

/// The little-endian signed 16-bit value at `ptr` (0 past the end).
pub(crate) fn read_i16(data: &[u8], ptr: usize) -> (r: i32)
    ensures
        r == le_i16_at(data@, ptr as int),
{
    if ptr <= data.len() && data.len() - ptr >= 2 {
        let lo = data[ptr];
        let hi = data[ptr + 1];
        let v = (lo as u16) | ((hi as u16) << 8u16);
        assert(v == lo as int + 256 * hi as int && (v as i16) as int == (if v >= 0x8000 { v - 0x1_0000 } else { v as int })) by {
            lemma_bv_u16(v, lo, hi, 0, 0);
        }
        (v as i16) as i32
    } else {
        0
    }
}

/// The little-endian unsigned 16-bit value at `ptr` (0 past the end).
fn read_u16(data: &[u8], ptr: usize) -> (r: u32)
    ensures
        r == le_u16_at(data@, ptr as int),
{
    if ptr <= data.len() && data.len() - ptr >= 2 {
        let lo = data[ptr];
        let hi = data[ptr + 1];
        assert(((lo as u32) | ((hi as u32) << 8u32)) == lo as int + 256 * hi as int) by {
            lemma_bv_u16(0, lo, hi, 0, 0);
        }
        lo as u32 | ((hi as u32) << 8u32)
    } else {
        0
    }
}

/// The channel state with its medians set from three stored logs at `ptr`.
pub open spec fn medians_from(c: ChanModel, data: Seq<u8>, ptr: int) -> ChanModel {
    ChanModel {
        m0: exp2s(le_i16_at(data, ptr)) as u32,
        m1: exp2s(le_i16_at(data, ptr + 2)) as u32,
        m2: exp2s(le_i16_at(data, ptr + 4)) as u32,
        ..c
    }
}

/// The medians, stored as logs (three per channel).
pub fn parse_entropy_vars(data: &[u8], ws: &mut WordsState, is_mono: bool)
    ensures
        final(ws)@ == (WordsModel {
            c0: medians_from(old(ws)@.c0, data@, 0),
            c1: if is_mono { old(ws)@.c1 } else { medians_from(old(ws)@.c1, data@, 6) },
            ..old(ws)@
        }),
{
    let mut c0 = ws.c[0];
    c0.median[0] = wp_exp2s(read_i16(data, 0)) as u32;
    c0.median[1] = wp_exp2s(read_i16(data, 2)) as u32;
    c0.median[2] = wp_exp2s(read_i16(data, 4)) as u32;
    ws.c[0] = c0;
    if !is_mono {
        let mut c1 = ws.c[1];
        c1.median[0] = wp_exp2s(read_i16(data, 6)) as u32;
        c1.median[1] = wp_exp2s(read_i16(data, 8)) as u32;
        c1.median[2] = wp_exp2s(read_i16(data, 10)) as u32;
        ws.c[1] = c1;
    }
}

/// Slow levels (when the bitrate is
/// hybrid-controlled), bitrate accumulators and, when bytes remain, signed
/// bitrate deltas (all as 16-bit values, the levels and deltas as logs).
pub open spec fn hybrid_profile(m: WordsModel, data: Seq<u8>, is_mono: bool, flags: u32) -> WordsModel {
    let per = if is_mono { 1int } else { 2int };
    let (sl0, sl1, ptr) = if flags & HYBRID_BITRATE != 0 {
        (exp2s(le_u16_at(data, 0)) as u32, if is_mono { m.c1.slow_level } else { exp2s(le_u16_at(data, 2)) as u32 }, 2 * per)
    } else {
        (m.c0.slow_level, m.c1.slow_level, 0)
    };
    let acc0 = (le_u16_at(data, ptr) * 0x1_0000) as u32;
    let acc1 = if is_mono { m.acc1 } else { (le_u16_at(data, ptr + 2) * 0x1_0000) as u32 };
    let ptr2 = ptr + 2 * per;
    let (d0, d1) = if ptr2 < data.len() {
        (exp2s(le_u16_at(data, ptr2) as i16 as int) as u32,
            if is_mono { m.delta1 } else { exp2s(le_u16_at(data, ptr2 + 2) as i16 as int) as u32 })
    } else {
        (0u32, 0u32)
    };
    WordsModel {
        c0: ChanModel { slow_level: sl0, ..m.c0 },
        c1: ChanModel { slow_level: sl1, ..m.c1 },
        acc0: acc0,
        acc1: acc1,
        delta0: d0,
        delta1: d1,
        ..m
    }
}

pub fn parse_hybrid_profile(data: &[u8], ws: &mut WordsState, is_mono: bool, flags: u32)
    ensures
        final(ws)@ == hybrid_profile(old(ws)@, data@, is_mono, flags),
{
    let mut ptr: usize = 0;
    if (flags & HYBRID_BITRATE) != 0 {
        let mut c0 = ws.c[0];
        c0.slow_level = wp_exp2s(read_u16(data, ptr) as i32) as u32;
        ws.c[0] = c0;
        ptr += 2;
        if !is_mono {
            let mut c1 = ws.c[1];
            c1.slow_level = wp_exp2s(read_u16(data, ptr) as i32) as u32;
            ws.c[1] = c1;
            ptr += 2;
        }
    }
    let a0 = read_u16(data, ptr);
    assert((a0 << 16u32) == a0 * 0x1_0000) by { lemma_bv_u32(a0, 0); }
    ws.bitrate_acc[0] = a0 << 16u32;
    ptr += 2;
    if !is_mono {
        let a1 = read_u16(data, ptr);
        assert((a1 << 16u32) == a1 * 0x1_0000) by { lemma_bv_u32(a1, 0); }
        ws.bitrate_acc[1] = a1 << 16u32;
        ptr += 2;
    }
    if ptr < data.len() {
        ws.bitrate_delta[0] = wp_exp2s(read_u16(data, ptr) as i16 as i32) as u32;
        ptr += 2;
        if !is_mono {
            ws.bitrate_delta[1] = wp_exp2s(read_u16(data, ptr) as i16 as i32) as u32;
        }
    } else {
        ws.bitrate_delta[0] = 0;
        ws.bitrate_delta[1] = 0;
    }
}

/// Undoes joint stereo: `left += (right -= left >> 1)` per frame (modulo 2^32).
pub open spec fn joint_right(l: i32, r: i32) -> i32 {
    r.wrapping_sub(l >> 1u32)
}

/// An interleaved buffer with joint stereo undone (stereo blocks with
/// `JOINT_STEREO` set): each full frame `(l, r)` becomes
/// `(l + r', r')` with `r' = r - (l >> 1)`; anything else is left.
pub open spec fn unjoined(b: Seq<i32>, flags: u32) -> Seq<i32> {
    if flags & MONO_DATA != 0 || flags & JOINT_STEREO == 0 {
        b
    } else {
        Seq::new(b.len(), |j: int| {
            let k = j / 2;
            if 2 * k + 1 < b.len() {
                let l = b[2 * k];
                let r = joint_right(l, b[2 * k + 1]);
                if j % 2 == 0 { l.wrapping_add(r) } else { r }
            } else {
                b[j]
            }
        })
    }
}

/// Undoes joint stereo (mid/side) on an interleaved buffer when the block is
/// stereo with `JOINT_STEREO` set; otherwise leaves it.
pub fn undo_joint_stereo(buf: &mut [i32], flags: u32)
    ensures
        final(buf)@ == unjoined(old(buf)@, flags),
        final(buf)@.len() == old(buf)@.len(),
        (flags & MONO_DATA != 0 || flags & JOINT_STEREO == 0) ==> final(buf)@ == old(buf)@,
        (flags & MONO_DATA == 0 && flags & JOINT_STEREO != 0) ==> {
            &&& forall|i: int| 0 <= i < old(buf)@.len() / 2 ==> {
                let l = old(buf)@[2 * i];
                let r = joint_right(l, old(buf)@[2 * i + 1]);
                &&& #[trigger] final(buf)@[2 * i] == l.wrapping_add(r)
                &&& final(buf)@[2 * i + 1] == r
            }
            &&& old(buf)@.len() % 2 == 1 ==> final(buf)@[old(buf)@.len() - 1] == old(buf)@[old(buf)@.len() - 1]
        },
{
    if (flags & MONO_DATA) == 0 && (flags & JOINT_STEREO) != 0 {
        let ghost b0 = buf@;
        let n = buf.len() / 2;
        assert(2 * n <= buf@.len());
        let mut i: usize = 0;
        while i < n
            invariant
                n == b0.len() / 2,
                2 * n <= b0.len(),
                b0.len() <= usize::MAX,
                i <= n,
                buf@.len() == b0.len(),
                forall|k: int| 0 <= k < i ==> {
                    let l = b0[2 * k];
                    let r = joint_right(l, b0[2 * k + 1]);
                    &&& #[trigger] buf@[2 * k] == l.wrapping_add(r)
                    &&& buf@[2 * k + 1] == r
                },
                forall|j: int| 2 * i <= j < b0.len() ==> #[trigger] buf@[j] == b0[j],
            decreases n - i,
        {
            let ghost old_buf = buf@;
            let a = i * 2;
            let b = a + 1;
            let l = buf[a];
            let r_new = buf[b].wrapping_sub(l >> 1u32);
            assert(r_new == joint_right(b0[2 * i as int], b0[2 * i as int + 1]));
            buf[a] = l.wrapping_add(r_new);
            buf[b] = r_new;
            assert forall|k: int| 0 <= k < i + 1 implies {
                let l = b0[2 * k];
                let r = joint_right(l, b0[2 * k + 1]);
                &&& #[trigger] buf@[2 * k] == l.wrapping_add(r)
                &&& buf@[2 * k + 1] == r
            } by {
                if k < i {
                    assert(buf@[2 * k] == old_buf[2 * k]);
                    assert(buf@[2 * k + 1] == old_buf[2 * k + 1]);
                }
            }
            i += 1;
        }
        assert(b0.len() % 2 == 1 ==> b0.len() - 1 >= 2 * n);
        assert(b0.len() % 2 == 1 ==> buf@[b0.len() - 1] == b0[b0.len() - 1]);
        assert(forall|k: int| 0 <= k < b0.len() / 2 ==> {
            let l = b0[2 * k];
            let r = joint_right(l, b0[2 * k + 1]);
            &&& #[trigger] buf@[2 * k] == l.wrapping_add(r)
            &&& buf@[2 * k + 1] == r
        });
        assert forall|j: int| 0 <= j < b0.len() implies #[trigger] buf@[j] == unjoined(b0, flags)[j] by {
            let k = j / 2;
            if 2 * k + 1 < b0.len() {
                assert(k < n);
                assert(buf@[2 * k] == unjoined(b0, flags)[2 * k]);
                assert(buf@[2 * k + 1] == unjoined(b0, flags)[2 * k + 1]);
            }
        }
        assert(buf@ =~= unjoined(b0, flags));
    }
}

/// The left shift that restores the precision of the samples (bits 13..17 of the flags).
pub open spec fn flags_shift(flags: u32) -> u32 {
    ((flags & SHIFT_MASK) >> SHIFT_LSB) & 0x1fu32
}

/// The sample range of the block's byte width (flags bits 0..1), scaled down by `shift`.
pub open spec fn clip_range(flags: u32, shift: u32) -> (i32, i32) {
    let w = flags & 3u32;
    if w == 0 {
        ((-128i32) >> shift, 127i32 >> shift)
    } else if w == 1 {
        ((-32768i32) >> shift, 32767i32 >> shift)
    } else if w == 2 {
        ((-8_388_608i32) >> shift, 8_388_607i32 >> shift)
    } else {
        (i32::MIN >> shift, i32::MAX >> shift)
    }
}

/// The extra low bits of 32-bit integer data are restored (before any shift):
/// `zeros + ones + dups` zeros shifted in, of which `ones` set above `zeros`.
/// The counts come from the stream unchecked: their 8-bit sum and each shift
/// amount are taken modulo 256 and 32, and the run of ones wraps, so that no
/// count makes the decoder fail.
pub open spec fn int32_restore(x: i32, flags: u32, info: Int32Info) -> i32 {
    let extra = info.zeros + info.ones + info.dups;
    if flags & INT32_DATA != 0 && info.sent_bits == 0 && extra != 0 {
        let shifted = x << ((extra % 256 % 32) as u32);
        let run = wrap32((1i32 << ((info.ones % 32) as u32)) - 1) as i32;
        if info.ones != 0 { shifted | (run << ((info.zeros % 32) as u32)) } else { shifted }
    } else {
        x
    }
}

/// The final value of a sample: extra bits of 32-bit data, then (hybrid)
/// clipping to the source range and the precision shift.
pub open spec fn fixup_value(x: i32, flags: u32, info: Int32Info) -> i32 {
    let y = int32_restore(x, flags, info);
    let shift = flags_shift(flags);
    if flags & HYBRID_FLAG != 0 {
        let (lo, hi) = clip_range(flags, shift);
        if y < lo {
            ((lo as u32) << shift) as i32
        } else if y > hi {
            ((hi as u32) << shift) as i32
        } else {
            ((y as u32) << shift) as i32
        }
    } else if shift != 0 {
        ((y as u32) << shift) as i32
    } else {
        y
    }
}

/// The integer fix-up of decoded samples: each sample becomes [`fixup_value`].
pub fn fixup_samples(buf: &mut [i32], flags: u32, i32info: &Int32Info)
    ensures
        final(buf)@ == Seq::new(old(buf)@.len(), |i: int| fixup_value(old(buf)@[i], flags, *i32info)),
        final(buf)@.len() == old(buf)@.len(),
        forall|i: int| 0 <= i < old(buf)@.len() ==> #[trigger] final(buf)@[i] == fixup_value(old(buf)@[i], flags, *i32info),
{
    let ghost b0 = buf@;
    let is_hybrid_lossy = (flags & HYBRID_FLAG) != 0;
    let shift: u32 = ((flags & SHIFT_MASK) >> SHIFT_LSB) & 0x1f;
    assert((((flags & SHIFT_MASK) >> SHIFT_LSB) & 0x1f) < 32) by { lemma_bv_u32((flags & SHIFT_MASK) >> SHIFT_LSB, 0); }
    let n = buf.len();
    if (flags & INT32_DATA) != 0 && i32info.sent_bits == 0 {
        let extra = i32info.zeros as i32 + i32info.ones as i32 + i32info.dups as i32;
        if extra != 0 {
            let total: u32 = (i32info.zeros as u32 + i32info.ones as u32 + i32info.dups as u32) % 256 % 32;
            let ones: u32 = (i32info.ones as u32) % 32;
            let zeros: u32 = (i32info.zeros as u32) % 32;
            proof { crate::arith::lemma_i32_wrapping_add(1i32 << ones, 1i32); }
            let run: i32 = (1i32 << ones).wrapping_sub(1);
            let mut k: usize = 0;
            while k < n
                invariant
                    k <= n,
                    n == b0.len(),
                    buf@.len() == n,
                    total == (i32info.zeros + i32info.ones + i32info.dups) % 256 % 32,
                    ones == i32info.ones % 32,
                    zeros == i32info.zeros % 32,
                    run == wrap32((1i32 << ones) - 1),
                    i32info.zeros + i32info.ones + i32info.dups != 0,
                    flags & INT32_DATA != 0 && i32info.sent_bits == 0,
                    forall|j: int| 0 <= j < k ==> #[trigger] buf@[j] == int32_restore(b0[j], flags, *i32info),
                    forall|j: int| k <= j < n ==> #[trigger] buf@[j] == b0[j],
                decreases n - k,
            {
                let ghost old_buf = buf@;
                let x = buf[k];
                let mut s = x << total;
                if i32info.ones != 0 {
                    s = s | (run << zeros);
                }
                assert(x == b0[k as int]);
                assert(s == int32_restore(x, flags, *i32info));
                buf[k] = s;
                assert(forall|j: int| 0 <= j < k ==> buf@[j] == old_buf[j]);
                k += 1;
            }
        }
    }
    let ghost b1 = buf@;
    assert(forall|j: int| 0 <= j < n ==> #[trigger] b1[j] == int32_restore(b0[j], flags, *i32info));

    if is_hybrid_lossy {
        let w = flags & 3;
        let (min_value, max_value): (i32, i32) = if w == 0 {
            ((-128i32) >> shift, 127i32 >> shift)
        } else if w == 1 {
            ((-32768i32) >> shift, 32767i32 >> shift)
        } else if w == 2 {
            ((-8_388_608i32) >> shift, 8_388_607i32 >> shift)
        } else {
            (i32::MIN >> shift, i32::MAX >> shift)
        };
        let min_shifted = ((min_value as u32) << shift) as i32;
        let max_shifted = ((max_value as u32) << shift) as i32;
        let mut k: usize = 0;
        while k < n
            invariant
                k <= n,
                n == b0.len(),
                buf@.len() == n,
                b1.len() == n,
                shift == flags_shift(flags),
                shift < 32,
                flags & HYBRID_FLAG != 0,
                (min_value, max_value) == clip_range(flags, shift),
                min_shifted == ((min_value as u32) << shift) as i32,
                max_shifted == ((max_value as u32) << shift) as i32,
                forall|j: int| 0 <= j < n ==> #[trigger] b1[j] == int32_restore(b0[j], flags, *i32info),
                forall|j: int| 0 <= j < k ==> #[trigger] buf@[j] == fixup_value(b0[j], flags, *i32info),
                forall|j: int| k <= j < n ==> #[trigger] buf@[j] == b1[j],
            decreases n - k,
        {
            let s = buf[k];
            buf[k] = if s < min_value {
                min_shifted
            } else if s > max_value {
                max_shifted
            } else {
                ((s as u32) << shift) as i32
            };
            k += 1;
        }
    } else if shift != 0 {
        let mut k: usize = 0;
        while k < n
            invariant
                k <= n,
                n == b0.len(),
                buf@.len() == n,
                b1.len() == n,
                shift == flags_shift(flags),
                shift < 32,
                shift != 0,
                flags & HYBRID_FLAG == 0,
                forall|j: int| 0 <= j < n ==> #[trigger] b1[j] == int32_restore(b0[j], flags, *i32info),
                forall|j: int| 0 <= j < k ==> #[trigger] buf@[j] == fixup_value(b0[j], flags, *i32info),
                forall|j: int| k <= j < n ==> #[trigger] buf@[j] == b1[j],
            decreases n - k,
        {
            let s = buf[k];
            buf[k] = ((s as u32) << shift) as i32;
            k += 1;
        }
    }
    assert(forall|i: int| 0 <= i < b0.len() ==> #[trigger] buf@[i] == fixup_value(b0[i], flags, *i32info));
    assert(buf@ =~= Seq::new(b0.len(), |i: int| fixup_value(b0[i], flags, *i32info)));
}

} // verus!
