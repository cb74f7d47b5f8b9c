//! LSB-first bit reader over a byte slice. Reading past the end yields zero
//! bits. The reader's view is the number of bits consumed so far.

use vstd::prelude::*;
use vstd::arithmetic::power2::pow2;

use crate::arith::{lemma_bv_u16, lemma_bv_u64};

verus! {

/// Bit `i` of the stream `data` (least significant bit of each byte first);
/// bits past the end of the data are zero.
pub open spec fn bit_at(data: Seq<u8>, i: int) -> int {
    if 0 <= i && i / 8 < data.len() {
        (data[i / 8] as int / pow2((i % 8) as nat) as int) % 2
    } else {
        0
    }
}

/// The `n` bits starting at bit `p`, read as a little-endian number.
pub open spec fn bits_val(data: Seq<u8>, p: int, n: nat) -> int
    decreases n,
{
    if n == 0 {
        0
    } else {
        bit_at(data, p) + 2 * bits_val(data, p + 1, (n - 1) as nat)
    }
}

/// The byte at byte position `k` of the stream, or 0 past the end.
pub open spec fn byte_at(data: Seq<u8>, k: int) -> int {
    if 0 <= k < data.len() { data[k] as int } else { 0 }
}

/// A bit is 0 or 1.
pub proof fn lemma_bit_range(data: Seq<u8>, i: int)
    ensures
        0 <= bit_at(data, i) <= 1,
{
    if 0 <= i && i / 8 < data.len() {
        vstd::arithmetic::power2::lemma_pow2_pos((i % 8) as nat);
        vstd::arithmetic::div_mod::lemma_mod_bound(data[i / 8] as int / pow2((i % 8) as nat) as int, 2);
    }
}

/// `n` bits make a number below `2^n`.
pub proof fn lemma_bits_val_bound(data: Seq<u8>, p: int, n: nat)
    ensures
        0 <= bits_val(data, p, n) < pow2(n),
    decreases n,
{
    if n == 0 {
        vstd::arithmetic::power2::lemma2_to64();
    } else {
        lemma_bits_val_bound(data, p + 1, (n - 1) as nat);
        lemma_bit_range(data, p);
        vstd::arithmetic::power2::lemma_pow2_unfold(n);
    }
}

/// Reading `a + b` bits is reading `a` bits, then `b` more above them.
pub proof fn lemma_bits_val_split(data: Seq<u8>, p: int, a: nat, b: nat)
    ensures
        bits_val(data, p, a + b) == bits_val(data, p, a) + pow2(a) * bits_val(data, p + a, b),
    decreases a,
{
    if a == 0 {
        vstd::arithmetic::power2::lemma2_to64();
        assert(a + b == b);
    } else {
        lemma_bits_val_split(data, p + 1, (a - 1) as nat, b);
        vstd::arithmetic::power2::lemma_pow2_unfold(a);
        assert((a + b - 1) as nat == (a - 1) as nat + b);
        let r = bits_val(data, p + a, b);
        assert(bits_val(data, p, a + b) == bit_at(data, p) + 2 * bits_val(data, p + 1, (a + b - 1) as nat));
        assert(2 * (pow2((a - 1) as nat) * r) == pow2(a) * r) by (nonlinear_arith)
            requires pow2(a) == 2 * pow2((a - 1) as nat);
    }
}

/// The eight bits of a byte position are that byte.
pub proof fn lemma_bits_val_byte(data: Seq<u8>, k: int)
    requires
        0 <= k,
    ensures
        bits_val(data, 8 * k, 8) == byte_at(data, k),
{
    vstd::arithmetic::power2::lemma2_to64();
    reveal_with_fuel(bits_val, 9);
    if k < data.len() {
        let b = data[k];
        assert forall|j: int| 0 <= j < 8 implies #[trigger] bit_at(data, 8 * k + j) == (b as int / pow2(j as nat) as int) % 2 by {
            assert((8 * k + j) / 8 == k);
            assert((8 * k + j) % 8 == j);
        }
        assert(bit_at(data, 8 * k + 0) == (b as int / 1) % 2);
        assert(bit_at(data, 8 * k + 1) == (b as int / 2) % 2);
        assert(bit_at(data, 8 * k + 2) == (b as int / 4) % 2);
        assert(bit_at(data, 8 * k + 3) == (b as int / 8) % 2);
        assert(bit_at(data, 8 * k + 4) == (b as int / 16) % 2);
        assert(bit_at(data, 8 * k + 5) == (b as int / 32) % 2);
        assert(bit_at(data, 8 * k + 6) == (b as int / 64) % 2);
        assert(bit_at(data, 8 * k + 7) == (b as int / 128) % 2);
        assert(b == (b / 1) % 2 + 2 * ((b / 2) % 2 + 2 * ((b / 4) % 2 + 2 * ((b / 8) % 2 + 2 * ((b / 16) % 2
            + 2 * ((b / 32) % 2 + 2 * ((b / 64) % 2 + 2 * ((b / 128) % 2)))))))) by {
            lemma_bv_u16(0, b, 0, 0, 0);
        }
    } else {
        assert forall|j: int| 0 <= j < 8 implies #[trigger] bit_at(data, 8 * k + j) == 0 by {
            assert((8 * k + j) / 8 == k);
        }
        assert(bit_at(data, 8 * k + 0) == 0);
    }
}

/// An LSB-first bit reader.
pub struct Bits<'a> {
    data: &'a [u8],
    ptr: usize,
    bc: u32,
    sr: u64,
    pos: Ghost<int>,
}

impl<'a> Bits<'a> {
    /// The stream being read.
    pub closed spec fn stream(&self) -> Seq<u8> {
        self.data@
    }

    /// The number of bits consumed.
    pub closed spec fn position(&self) -> int {
        self.pos@
    }

    /// The reader's buffered bits agree with the stream.
    pub closed spec fn wf(&self) -> bool {
        &&& 0 <= self.pos@
        &&& self.bc < 8
        &&& (self.pos@ + self.bc) % 8 == 0
        &&& self.ptr == (if (self.pos@ + self.bc) / 8 < self.data@.len() { (self.pos@ + self.bc) / 8 } else { self.data@.len() as int })
        &&& self.sr == bits_val(self.data@, self.pos@, self.bc as nat)
    }

    /// A reader at the first bit of `data`.
    pub fn new(data: &'a [u8]) -> (r: Self)
        ensures
            r.wf(),
            r.stream() == data@,
            r.position() == 0,
    {
        Bits { data, ptr: 0, bc: 0, sr: 0, pos: Ghost(0) }
    }

    /// The next byte of the stream, or 0 past its end.
    fn next_byte(&mut self) -> (b: u8)
        requires
            old(self).ptr <= old(self).data@.len(),
        ensures
            b == byte_at(old(self).data@, old(self).ptr as int),
            final(self).data == old(self).data,
            final(self).bc == old(self).bc,
            final(self).sr == old(self).sr,
            final(self).pos == old(self).pos,
            final(self).ptr == (if old(self).ptr < old(self).data@.len() { old(self).ptr + 1 } else { old(self).ptr as int }),
    {
        if self.ptr < self.data.len() {
            let b = self.data[self.ptr];
            self.ptr += 1;
            b
        } else {
            0
        }
    }

    /// Reads one bit.
    pub fn getbit(&mut self) -> (bit: u32)
        requires
            old(self).wf(),
        ensures
            final(self).wf(),
            final(self).stream() == old(self).stream(),
            final(self).position() == old(self).position() + 1,
            bit == bit_at(old(self).stream(), old(self).position()),
    {
        proof {
            lemma_bit_range(self.data@, self.pos@);
        }
        if self.bc == 0 {
            let byte = self.next_byte() as u64;
            proof {
                lemma_bits_val_byte(self.data@, self.pos@ / 8);
                assert(self.pos@ == 8 * (self.pos@ / 8));
            }
            self.sr = byte;
            self.bc = 7;
            let bit = (self.sr & 1) as u32;
            proof {
                let s = self.sr;
                assert((s & 1) == s % 2 && (s >> 1) == s / 2) by { lemma_bv_u64(s, 0); }
                assert(bits_val(self.data@, self.pos@, 8) == bit_at(self.data@, self.pos@) + 2 * bits_val(self.data@, self.pos@ + 1, 7));
                lemma_bits_val_bound(self.data@, self.pos@ + 1, 7);
                vstd::arithmetic::power2::lemma2_to64();
            }
            self.sr = self.sr >> 1u64;
            self.pos = Ghost(self.pos@ + 1);
            bit
        } else {
            self.bc = self.bc - 1;
            let bit = (self.sr & 1) as u32;
            proof {
                let s = self.sr;
                assert((s & 1) == s % 2 && (s >> 1) == s / 2) by { lemma_bv_u64(s, 0); }
                assert(bits_val(self.data@, self.pos@, (self.bc + 1) as nat)
                    == bit_at(self.data@, self.pos@) + 2 * bits_val(self.data@, self.pos@ + 1, self.bc as nat));
                lemma_bits_val_bound(self.data@, self.pos@ + 1, self.bc as nat);
            }
            self.sr = self.sr >> 1u64;
            self.pos = Ghost(self.pos@ + 1);
            bit
        }
    }

    /// Reads `nbits` bits as a little-endian number.
    pub fn getbits(&mut self, nbits: u32) -> (v: u32)
        requires
            old(self).wf(),
            nbits <= 32,
        ensures
            final(self).wf(),
            final(self).stream() == old(self).stream(),
            final(self).position() == old(self).position() + nbits,
            v == bits_val(old(self).stream(), old(self).position(), nbits as nat),
    {
        if nbits == 0 {
            return 0;
        }
        let ghost p = self.pos@;
        let ghost d = self.data@;
        proof { lemma_bits_val_bound(d, p, self.bc as nat); }
        while nbits > self.bc
            invariant
                self.data@ == d,
                self.pos@ == p,
                0 <= p,
                self.bc < nbits + 8,
                nbits <= 32,
                (p + self.bc) % 8 == 0,
                self.ptr == (if (p + self.bc) / 8 < d.len() { (p + self.bc) / 8 } else { d.len() as int }),
                self.sr == bits_val(d, p, self.bc as nat),
                self.sr < pow2(self.bc as nat),
            decreases nbits + 8 - self.bc,
        {
            let byte = self.next_byte() as u64;
            let c = self.bc as u64;
            proof {
                let k = (p + self.bc) / 8;
                lemma_bits_val_byte(d, k);
                assert(p + self.bc == 8 * k);
                assert(byte == byte_at(d, k));
                assert(bits_val(d, p + self.bc, 8) == byte);
                lemma_bits_val_split(d, p, self.bc as nat, 8);
                vstd::arithmetic::power2::lemma_pow2_adds(self.bc as nat, 8);
                vstd::arithmetic::power2::lemma2_to64();
                vstd::bits::lemma_u64_pow2_no_overflow(c as nat);
                assert(byte * pow2(c as nat) <= 255 * pow2(c as nat)) by (nonlinear_arith)
                    requires byte <= 255;
                assert(pow2(c as nat) <= pow2(31)) by {
                    if c < 31 {
                        vstd::arithmetic::power2::lemma_pow2_strictly_increases(c as nat, 31);
                    }
                }
                vstd::bits::lemma_u64_shl_is_mul(byte, c);
                assert(self.sr + byte * pow2(c as nat) < pow2((self.bc + 8) as nat)) by (nonlinear_arith)
                    requires
                        self.sr < pow2(c as nat),
                        byte <= 255,
                        pow2((self.bc + 8) as nat) == pow2(c as nat) * 256,
                        c == self.bc;
            }
            self.sr = self.sr + (byte << c);
            self.bc = self.bc + 8;
            proof {
                assert(self.sr == bits_val(d, p, self.bc as nat));
            }
        }
        proof {
            vstd::bits::lemma_u64_pow2_no_overflow(nbits as nat);
            vstd::bits::lemma_u64_shl_is_mul(1, nbits as u64);
        }
        let p2 = 1u64 << (nbits as u64);
        let mask = p2 - 1;
        let low = self.sr & mask;
        proof {
            let s = self.sr;
            let n = nbits as u64;
            let q = bits_val(d, p + nbits, (self.bc - nbits) as nat);
            let r = bits_val(d, p, nbits as nat);
            lemma_bits_val_split(d, p, nbits as nat, (self.bc - nbits) as nat);
            assert((nbits as nat + (self.bc - nbits) as nat) as nat == self.bc as nat);
            lemma_bits_val_bound(d, p, nbits as nat);
            assert(pow2(nbits as nat) == p2) by {
                vstd::bits::lemma_u64_pow2_no_overflow(n as nat);
                vstd::bits::lemma_u64_shl_is_mul(1, n);
            }
            assert(pow2(nbits as nat) * q == q * pow2(nbits as nat)) by (nonlinear_arith);
            vstd::bits::lemma_u64_low_bits_mask_is_mod(s, n as nat);
            vstd::bits::lemma_u64_shr_is_div(s, n);
            assert(mask == vstd::bits::low_bits_mask(n as nat) as u64);
            vstd::arithmetic::div_mod::lemma_fundamental_div_mod_converse(s as int, pow2(nbits as nat) as int, q, r);
            assert(low == r);
            vstd::arithmetic::power2::lemma2_to64();
            assert(pow2(nbits as nat) <= pow2(32)) by {
                if nbits < 32 {
                    vstd::arithmetic::power2::lemma_pow2_strictly_increases(nbits as nat, 32);
                }
            }
        }
        let val = low as u32;
        self.sr = self.sr >> (nbits as u64);
        self.bc = self.bc - nbits;
        self.pos = Ghost(p + nbits);
        val
    }
}

} // verus!
