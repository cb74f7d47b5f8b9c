//! The fixed-point base-2 logarithm and exponential of WavPack (8 fractional
//! bits), used to store medians, weights and bitrates compactly.

use vstd::prelude::*;

use crate::arith::{lemma_bv_i32_low_bits, lemma_bv_u32, lemma_i32_shr_is_div};

verus! {

/// `0x100 | EXP2_TABLE[f]` is `2^(f / 256)` in Q8.
pub const EXP2_TABLE: [u8; 256] = [
    0x00,0x01,0x01,0x02,0x03,0x03,0x04,0x05,0x06,0x06,0x07,0x08,0x08,0x09,0x0a,0x0b,
    0x0b,0x0c,0x0d,0x0e,0x0e,0x0f,0x10,0x10,0x11,0x12,0x13,0x13,0x14,0x15,0x16,0x16,
    0x17,0x18,0x19,0x19,0x1a,0x1b,0x1c,0x1d,0x1d,0x1e,0x1f,0x20,0x20,0x21,0x22,0x23,
    0x24,0x24,0x25,0x26,0x27,0x28,0x28,0x29,0x2a,0x2b,0x2c,0x2c,0x2d,0x2e,0x2f,0x30,
    0x30,0x31,0x32,0x33,0x34,0x35,0x35,0x36,0x37,0x38,0x39,0x3a,0x3a,0x3b,0x3c,0x3d,
    0x3e,0x3f,0x40,0x41,0x41,0x42,0x43,0x44,0x45,0x46,0x47,0x48,0x48,0x49,0x4a,0x4b,
    0x4c,0x4d,0x4e,0x4f,0x50,0x51,0x51,0x52,0x53,0x54,0x55,0x56,0x57,0x58,0x59,0x5a,
    0x5b,0x5c,0x5d,0x5e,0x5e,0x5f,0x60,0x61,0x62,0x63,0x64,0x65,0x66,0x67,0x68,0x69,
    0x6a,0x6b,0x6c,0x6d,0x6e,0x6f,0x70,0x71,0x72,0x73,0x74,0x75,0x76,0x77,0x78,0x79,
    0x7a,0x7b,0x7c,0x7d,0x7e,0x7f,0x80,0x81,0x82,0x83,0x84,0x85,0x87,0x88,0x89,0x8a,
    0x8b,0x8c,0x8d,0x8e,0x8f,0x90,0x91,0x92,0x93,0x95,0x96,0x97,0x98,0x99,0x9a,0x9b,
    0x9c,0x9d,0x9f,0xa0,0xa1,0xa2,0xa3,0xa4,0xa5,0xa6,0xa8,0xa9,0xaa,0xab,0xac,0xad,
    0xaf,0xb0,0xb1,0xb2,0xb3,0xb4,0xb6,0xb7,0xb8,0xb9,0xba,0xbc,0xbd,0xbe,0xbf,0xc0,
    0xc2,0xc3,0xc4,0xc5,0xc6,0xc8,0xc9,0xca,0xcb,0xcd,0xce,0xcf,0xd0,0xd2,0xd3,0xd4,
    0xd6,0xd7,0xd8,0xd9,0xdb,0xdc,0xdd,0xde,0xe0,0xe1,0xe2,0xe4,0xe5,0xe6,0xe8,0xe9,
    0xea,0xec,0xed,0xee,0xf0,0xf1,0xf2,0xf4,0xf5,0xf6,0xf8,0xf9,0xfa,0xfc,0xfd,0xff,
];

/// The bit length of each byte value.
pub const NBITS_TABLE: [u8; 256] = [
    0, 1, 2, 2, 3, 3, 3, 3, 4, 4, 4, 4, 4, 4, 4, 4,
    5, 5, 5, 5, 5, 5, 5, 5, 5, 5, 5, 5, 5, 5, 5, 5,
    6, 6, 6, 6, 6, 6, 6, 6, 6, 6, 6, 6, 6, 6, 6, 6,
    6, 6, 6, 6, 6, 6, 6, 6, 6, 6, 6, 6, 6, 6, 6, 6,
    7, 7, 7, 7, 7, 7, 7, 7, 7, 7, 7, 7, 7, 7, 7, 7,
    7, 7, 7, 7, 7, 7, 7, 7, 7, 7, 7, 7, 7, 7, 7, 7,
    7, 7, 7, 7, 7, 7, 7, 7, 7, 7, 7, 7, 7, 7, 7, 7,
    7, 7, 7, 7, 7, 7, 7, 7, 7, 7, 7, 7, 7, 7, 7, 7,
    8, 8, 8, 8, 8, 8, 8, 8, 8, 8, 8, 8, 8, 8, 8, 8,
    8, 8, 8, 8, 8, 8, 8, 8, 8, 8, 8, 8, 8, 8, 8, 8,
    8, 8, 8, 8, 8, 8, 8, 8, 8, 8, 8, 8, 8, 8, 8, 8,
    8, 8, 8, 8, 8, 8, 8, 8, 8, 8, 8, 8, 8, 8, 8, 8,
    8, 8, 8, 8, 8, 8, 8, 8, 8, 8, 8, 8, 8, 8, 8, 8,
    8, 8, 8, 8, 8, 8, 8, 8, 8, 8, 8, 8, 8, 8, 8, 8,
    8, 8, 8, 8, 8, 8, 8, 8, 8, 8, 8, 8, 8, 8, 8, 8,
    8, 8, 8, 8, 8, 8, 8, 8, 8, 8, 8, 8, 8, 8, 8, 8,
];

/// The fractional part of `log2` of `1.f` (8 bits in, 8 bits out).
pub const LOG2_TABLE: [u8; 256] = [
    0x00, 0x01, 0x03, 0x04, 0x06, 0x07, 0x09, 0x0a, 0x0b, 0x0d, 0x0e, 0x10, 0x11, 0x12, 0x14, 0x15,
    0x16, 0x18, 0x19, 0x1a, 0x1c, 0x1d, 0x1e, 0x20, 0x21, 0x22, 0x24, 0x25, 0x26, 0x28, 0x29, 0x2a,
    0x2c, 0x2d, 0x2e, 0x2f, 0x31, 0x32, 0x33, 0x34, 0x36, 0x37, 0x38, 0x39, 0x3b, 0x3c, 0x3d, 0x3e,
    0x3f, 0x41, 0x42, 0x43, 0x44, 0x45, 0x47, 0x48, 0x49, 0x4a, 0x4b, 0x4d, 0x4e, 0x4f, 0x50, 0x51,
    0x52, 0x54, 0x55, 0x56, 0x57, 0x58, 0x59, 0x5a, 0x5c, 0x5d, 0x5e, 0x5f, 0x60, 0x61, 0x62, 0x63,
    0x64, 0x66, 0x67, 0x68, 0x69, 0x6a, 0x6b, 0x6c, 0x6d, 0x6e, 0x6f, 0x70, 0x71, 0x72, 0x74, 0x75,
    0x76, 0x77, 0x78, 0x79, 0x7a, 0x7b, 0x7c, 0x7d, 0x7e, 0x7f, 0x80, 0x81, 0x82, 0x83, 0x84, 0x85,
    0x86, 0x87, 0x88, 0x89, 0x8a, 0x8b, 0x8c, 0x8d, 0x8e, 0x8f, 0x90, 0x91, 0x92, 0x93, 0x94, 0x95,
    0x96, 0x97, 0x98, 0x99, 0x9a, 0x9b, 0x9b, 0x9c, 0x9d, 0x9e, 0x9f, 0xa0, 0xa1, 0xa2, 0xa3, 0xa4,
    0xa5, 0xa6, 0xa7, 0xa8, 0xa9, 0xa9, 0xaa, 0xab, 0xac, 0xad, 0xae, 0xaf, 0xb0, 0xb1, 0xb2, 0xb2,
    0xb3, 0xb4, 0xb5, 0xb6, 0xb7, 0xb8, 0xb9, 0xb9, 0xba, 0xbb, 0xbc, 0xbd, 0xbe, 0xbf, 0xc0, 0xc0,
    0xc1, 0xc2, 0xc3, 0xc4, 0xc5, 0xc6, 0xc6, 0xc7, 0xc8, 0xc9, 0xca, 0xcb, 0xcb, 0xcc, 0xcd, 0xce,
    0xcf, 0xd0, 0xd0, 0xd1, 0xd2, 0xd3, 0xd4, 0xd4, 0xd5, 0xd6, 0xd7, 0xd8, 0xd8, 0xd9, 0xda, 0xdb,
    0xdc, 0xdc, 0xdd, 0xde, 0xdf, 0xe0, 0xe0, 0xe1, 0xe2, 0xe3, 0xe4, 0xe4, 0xe5, 0xe6, 0xe7, 0xe7,
    0xe8, 0xe9, 0xea, 0xea, 0xeb, 0xec, 0xed, 0xee, 0xee, 0xef, 0xf0, 0xf1, 0xf1, 0xf2, 0xf3, 0xf4,
    0xf4, 0xf5, 0xf6, 0xf7, 0xf7, 0xf8, 0xf9, 0xf9, 0xfa, 0xfb, 0xfc, 0xfc, 0xfd, 0xfe, 0xff, 0xff,
];

/// The exponential of a non-negative log value (Q8): the table value with its
/// implied leading one, shifted by the integer part of the log (wrapping to
/// 32 bits for very large values).
pub open spec fn exp2s_pos(log: int) -> i32 {
    let value = (EXP2_TABLE@[log % 256] as u32 | 0x100u32) as u32;
    let shift = log / 256;
    if shift <= 9 {
        (value >> ((9 - shift) as u32)) as i32
    } else {
        (value << (((shift - 9) as u32) & 0x1fu32)) as i32
    }
}

/// The exponential of a signed log value (Q8); negative logs
/// give the negated exponential of their magnitude (modulo 2^32).
pub open spec fn exp2s(log: int) -> i32 {
    if log < 0 { (0i32).wrapping_sub(exp2s_pos(-log)) } else { exp2s_pos(log) }
}

pub fn wp_exp2s(log: i32) -> (r: i32)
    requires
        log != i32::MIN,
    ensures
        r == exp2s(log as int),
{
    if log < 0 {
        let pos = exp2s_nonneg(-log);
        return (0i32).wrapping_sub(pos);
    }
    exp2s_nonneg(log)
}

/// [`wp_exp2s`] of a non-negative log.
fn exp2s_nonneg(log: i32) -> (r: i32)
    requires
        log >= 0,
    ensures
        r == exp2s_pos(log as int),
{
    assert((log & 0xff) == log % 256 && (log >> 8u32) == log / 256) by {
        lemma_bv_i32_low_bits(log);
        lemma_i32_shr_is_div(log, 8);
        vstd::arithmetic::power2::lemma2_to64();
    }
    let value = (EXP2_TABLE[(log & 0xff) as usize] as u32) | 0x100;
    let shift = log >> 8u32;
    if shift <= 9 {
        let amount = (9 - shift) as u32;
        assert(amount <= 9);
        (value >> amount) as i32
    } else {
        let amount = ((shift - 9) as u32) & 0x1f;
        assert(amount < 32) by { lemma_bv_u32((shift - 9) as u32, 0); }
        (value << amount) as i32
    }
}

/// The base-2 logarithm (Q8) of `avalue + avalue / 512` (modulo
/// 2^32), from the bit length and a table of the 8 bits below the leading one.
pub open spec fn log2_spec(avalue: u32) -> i32 {
    let a = avalue.wrapping_add(avalue >> 9u32);
    if a < 256 {
        let dbits = NBITS_TABLE@[a as int] as u32;
        ((dbits << 8u32) + LOG2_TABLE@[((a << ((9 - dbits) as u32)) & 0xffu32) as int] as u32) as i32
    } else {
        let dbits: u32 = if a < 0x1_0000 {
            (NBITS_TABLE@[(a >> 8u32) as int] + 8) as u32
        } else if a < 0x100_0000 {
            (NBITS_TABLE@[(a >> 16u32) as int] + 16) as u32
        } else {
            (NBITS_TABLE@[(a >> 24u32) as int] + 24) as u32
        };
        ((dbits << 8u32) + LOG2_TABLE@[((a >> ((dbits - 9) as u32)) & 0xffu32) as int] as u32) as i32
    }
}

pub fn wp_log2(avalue: u32) -> (r: i32)
    ensures
        r == log2_spec(avalue),
{
    let avalue = avalue.wrapping_add(avalue >> 9u32);
    if avalue < 256 {
        let dbits = NBITS_TABLE[avalue as usize] as u32;
        assert(dbits <= 8) by {
            assert(forall|i: int| 0 <= i < 256 ==> #[trigger] NBITS_TABLE@[i] <= 8);
        }
        let amount = 9 - dbits;
        let idx = ((avalue << amount) & 0xff) as usize;
        assert(((avalue << amount) & 0xff) < 256 && (dbits << 8u32) <= 2048) by {
            lemma_bv_u32(avalue << amount, 0);
            lemma_bv_u32(dbits, 0);
        }
        ((dbits << 8u32) + LOG2_TABLE[idx] as u32) as i32
    } else {
        assert(forall|i: int| 1 <= i < 256 ==> 1 <= #[trigger] NBITS_TABLE@[i] <= 8);
        assert((avalue < 0x1_0000 ==> 1 <= (avalue >> 8u32) < 256) && (0x1_0000 <= avalue < 0x100_0000 ==> 1 <= (
        avalue >> 16u32) < 256) && (0x100_0000 <= avalue ==> 1 <= (avalue >> 24u32) < 256)) by {
            lemma_bv_u32(avalue, 0);
        }
        let dbits: u32 = if avalue < 0x1_0000 {
            NBITS_TABLE[(avalue >> 8u32) as usize] as u32 + 8
        } else if avalue < 0x100_0000 {
            NBITS_TABLE[(avalue >> 16u32) as usize] as u32 + 16
        } else {
            NBITS_TABLE[(avalue >> 24u32) as usize] as u32 + 24
        };
        assert(9 <= dbits <= 32);
        let amount = dbits - 9;
        assert(((avalue >> amount) & 0xff) < 256 && (dbits << 8u32) <= 8192) by {
            lemma_bv_u32(avalue >> amount, 0);
            lemma_bv_u32(dbits, 0);
        }
        ((dbits << 8u32) + LOG2_TABLE[((avalue >> amount) & 0xff) as usize] as u32) as i32
    }
}

} // verus!
