//! Energy of a 16-bit signal with an automatically chosen down-shift that
//! leaves two bits of headroom.

use vstd::prelude::*;
use vstd::arithmetic::power2::pow2;
use crate::arith::{lemma_i64_as_i32, lemma_i64_shr_is_div, wrap32};
use crate::silk::macros::{fx_clz32, silk_clz32, silk_max};

verus! {

/// The energy of the pair `x[2k], x[2k+1]`.
pub open spec fn pair_energy(x: Seq<i16>, k: int) -> int {
    x[2 * k] as int * x[2 * k] as int + x[2 * k + 1] as int * x[2 * k + 1] as int
}

/// Running sum, modulo 2^32, of the first `k` pair energies, each shifted down by `s`,
/// starting from `n0`.
pub open spec fn energy_pairs(x: Seq<i16>, s: nat, n0: int, k: nat) -> int
    decreases k,
{
    if k == 0 {
        n0
    } else {
        wrap32(energy_pairs(x, s, n0, (k - 1) as nat) + pair_energy(x, k - 1) / (pow2(s) as int))
    }
}

/// One pass over the whole signal: all pairs, then the odd last sample.
pub open spec fn energy_pass(x: Seq<i16>, s: nat, n0: int) -> int {
    let a = energy_pairs(x, s, n0, (x.len() / 2) as nat);
    if x.len() % 2 == 1 {
        let t = x[x.len() - 1] as int;
        wrap32(a + (t * t) / (pow2(s) as int))
    } else {
        a
    }
}

/// The shift of the first, conservative pass: `floor(log2(len))`.
pub open spec fn first_shift(n: int) -> int {
    31 - fx_clz32(n)
}

/// The final shift: enough that the energy keeps two bits of headroom.
pub open spec fn final_shift(x: Seq<i16>) -> int {
    let s1 = first_shift(x.len() as int);
    let e1 = energy_pass(x, s1 as nat, x.len() as int);
    if s1 + 3 - fx_clz32(e1) > 0 { s1 + 3 - fx_clz32(e1) } else { 0 }
}

/// One pass of the accumulation with shift `shft`.
fn energy_pass_exec(x: &[i16], shft: i32, n0: i32) -> (r: i32)
    requires
        0 <= shft < 64,
    ensures
        r == energy_pass(x@, shft as nat, n0 as int),
{
    let n = x.len();
    let mut nrg = n0;
    let mut i: usize = 0;
    while i + 1 < n
        invariant
            n == x@.len(),
            0 <= shft < 64,
            i % 2 == 0,
            i <= n,
            nrg == energy_pairs(x@, shft as nat, n0 as int, (i / 2) as nat),
        decreases n - i,
    {
        let a = x[i] as i64;
        let b = x[i + 1] as i64;
        assert(0 <= a * a <= 0x4000_0000) by (nonlinear_arith)
            requires -0x8000 <= a <= 0x7fff;
        assert(0 <= b * b <= 0x4000_0000) by (nonlinear_arith)
            requires -0x8000 <= b <= 0x7fff;
        let e = a * a + b * b;
        let t = e >> (shft as u64);
        proof {
            lemma_i64_shr_is_div(e, shft as u64);
            assert(0 <= e <= 0x8000_0000);
            vstd::arithmetic::div_mod::lemma_div_is_ordered(0, e as int, pow2(shft as nat) as int);
            vstd::arithmetic::div_mod::lemma_div_is_ordered_by_denominator(e as int, 1, pow2(shft as nat) as int);
            assert(e as int == pair_energy(x@, (i / 2) as int));
        }
        let sum = (nrg as i64) + t;
        proof { lemma_i64_as_i32(sum); }
        nrg = #[verifier::truncate] (sum as i32);
        i += 2;
    }
    if i < n {
        let a = x[i] as i64;
        assert(0 <= a * a <= 0x4000_0000) by (nonlinear_arith)
            requires -0x8000 <= a <= 0x7fff;
        let e = a * a;
        let t = e >> (shft as u64);
        proof {
            lemma_i64_shr_is_div(e, shft as u64);
            vstd::arithmetic::div_mod::lemma_div_is_ordered(0, e as int, pow2(shft as nat) as int);
            vstd::arithmetic::div_mod::lemma_div_is_ordered_by_denominator(e as int, 1, pow2(shft as nat) as int);
        }
        let sum = (nrg as i64) + t;
        proof { lemma_i64_as_i32(sum); }
        nrg = #[verifier::truncate] (sum as i32);
    }
    nrg
}

/// Returns `(energy, shift)` where `energy` is the sum
/// of squares of `x`, each pair shifted right by `shift`, and `shift` is the
/// smallest non-negative shift (after a conservative first pass) that leaves
/// two bits of headroom.
pub fn silk_sum_sqr_shift(x: &[i16]) -> (r: (i32, i32))
    requires
        x@.len() <= i32::MAX,
    ensures
        r.1 == final_shift(x@),
        r.0 == energy_pass(x@, r.1 as nat, 0),
        0 <= r.1 <= 33,
{
    let len = x.len() as i32;
    let shft1 = 31 - silk_clz32(len);
    let mut nrg: i32 = len;
    if len > 0 {
        proof {
            crate::arith::lemma_bit_length_bounds(len as nat);
            vstd::arithmetic::power2::lemma2_to64();
            let bl = crate::arith::bit_length(len as nat);
            if bl >= 32 {
                vstd::arithmetic::power2::lemma_pow2_strictly_increases(30, (bl - 1) as nat);
            }
            assert(1 <= fx_clz32(len as int) <= 31);
        }
        nrg = energy_pass_exec(x, shft1, len);
    } else {
        assert(energy_pass(x@, shft1 as nat, len as int) == len);
    }
    let shft = silk_max(0, shft1 + 3 - silk_clz32(nrg));
    let e = energy_pass_exec(x, shft, 0);
    (e, shft)
}

/// The energy of an all-zero signal is zero, whatever the shift.
pub proof fn lemma_energy_of_silence(x: Seq<i16>, s: nat)
    requires
        forall|i: int| 0 <= i < x.len() ==> #[trigger] x[i] == 0,
    ensures
        energy_pass(x, s, 0) == 0,
{
    vstd::arithmetic::power2::lemma_pow2_pos(s);
    lemma_energy_pairs_of_silence(x, s, (x.len() / 2) as nat);
    crate::arith::lemma_wrap_id(0, 0x8000_0000);
    if x.len() % 2 == 1 {
        assert(x[x.len() - 1] == 0);
    }
}

/// Accumulating zero-energy pairs from zero keeps zero.
pub proof fn lemma_energy_pairs_of_silence(x: Seq<i16>, s: nat, k: nat)
    requires
        forall|i: int| 0 <= i < x.len() ==> #[trigger] x[i] == 0,
        2 * k <= x.len(),
    ensures
        energy_pairs(x, s, 0, k) == 0,
    decreases k,
{
    vstd::arithmetic::power2::lemma_pow2_pos(s);
    if k > 0 {
        lemma_energy_pairs_of_silence(x, s, (k - 1) as nat);
        assert(x[2 * (k - 1)] == 0 && x[2 * (k - 1) + 1] == 0);
        crate::arith::lemma_wrap_id(0, 0x8000_0000);
    }
}

} // verus!
