//! Bandwidth expansion of LPC predictors: coefficient `i` is scaled by
//! `chirp^(i+1)`, with the powers of `chirp` formed by a Q16 recurrence.

use vstd::prelude::*;
use crate::arith::{lo16, wrap16, wrap32, low16};
use crate::silk::macros::{fx_rshift_round, fx_smulww, silk_mul, silk_rshift_round, silk_smulww};

verus! {

/// The Q16 chirp factor applied to coefficient `i` when the expansion starts at
/// `c0`: `c_{i+1} = c_i + round(wrap32(c_i * (c0 - 1.0)) / 2^16)`.
pub open spec fn bw_chirp(c0: int, i: nat) -> int
    decreases i,
{
    if i == 0 {
        c0
    } else {
        let c = bw_chirp(c0, (i - 1) as nat);
        c + fx_rshift_round(wrap32(c * (c0 - 65536)), 16)
    }
}

/// The chirp recurrence stays in the `i32` range for the first `d` coefficients
/// (it is computed with plain, non-wrapping additions).
pub open spec fn bw_chirp_fits(c0: int, d: nat) -> bool {
    &&& i32::MIN + 65536 <= c0
    &&& forall|i: nat| i < d ==> i32::MIN <= #[trigger] bw_chirp(c0, i) <= i32::MAX
}

/// One step of the chirp recurrence computed in 32-bit arithmetic.
fn next_chirp(chirp_q16: i32, chirp_minus_one_q16: i32, Ghost(c0): Ghost<int>, Ghost(i): Ghost<nat>) -> (r: i32)
    requires
        chirp_q16 == bw_chirp(c0, i),
        chirp_minus_one_q16 == c0 - 65536,
        i32::MIN <= bw_chirp(c0, i + 1) <= i32::MAX,
    ensures
        r == bw_chirp(c0, i + 1),
{
    chirp_q16 + silk_rshift_round(silk_mul(chirp_q16, chirp_minus_one_q16), 16)
}

/// `ar[i] <- round(chirp_i * ar[i] / 2^16)` for the first `d`
/// coefficients, kept to 16 bits.
pub fn silk_bwexpander(ar: &mut [i16], d: usize, chirp_q16_init: i32)
    requires
        1 <= d <= old(ar)@.len(),
        bw_chirp_fits(chirp_q16_init as int, d as nat),
    ensures
        final(ar)@.len() == old(ar)@.len(),
        forall|i: int| 0 <= i < d ==> #[trigger] final(ar)@[i] == wrap16(
            fx_rshift_round(wrap32(bw_chirp(chirp_q16_init as int, i as nat) * old(ar)@[i]), 16),
        ),
        forall|i: int| d <= i < old(ar)@.len() ==> #[trigger] final(ar)@[i] == old(ar)@[i],
{
    let ghost c0 = chirp_q16_init as int;
    let ghost a0 = ar@;
    let mut chirp_q16 = chirp_q16_init;
    let chirp_minus_one_q16 = chirp_q16 - 65536;
    let mut i: usize = 0;
    while i < d - 1
        invariant
            i <= d - 1,
            1 <= d <= a0.len(),
            ar@.len() == a0.len(),
            bw_chirp_fits(c0, d as nat),
            chirp_minus_one_q16 == c0 - 65536,
            chirp_q16 == bw_chirp(c0, i as nat),
            forall|k: int| 0 <= k < i ==> #[trigger] ar@[k] == wrap16(
                fx_rshift_round(wrap32(bw_chirp(c0, k as nat) * a0[k]), 16),
            ),
            forall|k: int| i <= k < a0.len() ==> #[trigger] ar@[k] == a0[k],
        decreases d - 1 - i,
    {
        let v = silk_rshift_round(silk_mul(chirp_q16, ar[i] as i32), 16);
        ar[i] = low16(v);
        assert(bw_chirp(c0, (i + 1) as nat) == bw_chirp(c0, i as nat) + fx_rshift_round(
            wrap32(bw_chirp(c0, i as nat) * (c0 - 65536)), 16));
        assert(i32::MIN <= bw_chirp(c0, (i + 1) as nat) <= i32::MAX);
        chirp_q16 = next_chirp(chirp_q16, chirp_minus_one_q16, Ghost(c0), Ghost(i as nat));
        i += 1;
    }
    let v = silk_rshift_round(silk_mul(chirp_q16, ar[d - 1] as i32), 16);
    ar[d - 1] = low16(v);
}

/// `ar[i] <- (chirp_i * ar[i]) >> 16` for the first `d`
/// coefficients, in 32 bits.
pub fn silk_bwexpander_32(ar: &mut [i32], d: usize, chirp_q16_init: i32)
    requires
        1 <= d <= old(ar)@.len(),
        bw_chirp_fits(chirp_q16_init as int, d as nat),
    ensures
        final(ar)@.len() == old(ar)@.len(),
        forall|i: int| 0 <= i < d ==> #[trigger] final(ar)@[i] == fx_smulww(
            bw_chirp(chirp_q16_init as int, i as nat),
            old(ar)@[i] as int,
        ),
        forall|i: int| d <= i < old(ar)@.len() ==> #[trigger] final(ar)@[i] == old(ar)@[i],
{
    let ghost c0 = chirp_q16_init as int;
    let ghost a0 = ar@;
    let mut chirp_q16 = chirp_q16_init;
    let chirp_minus_one_q16 = chirp_q16 - 65536;
    let mut i: usize = 0;
    while i < d - 1
        invariant
            i <= d - 1,
            1 <= d <= a0.len(),
            ar@.len() == a0.len(),
            bw_chirp_fits(c0, d as nat),
            chirp_minus_one_q16 == c0 - 65536,
            chirp_q16 == bw_chirp(c0, i as nat),
            forall|k: int| 0 <= k < i ==> #[trigger] ar@[k] == fx_smulww(
                bw_chirp(c0, k as nat),
                a0[k] as int,
            ),
            forall|k: int| i <= k < a0.len() ==> #[trigger] ar@[k] == a0[k],
        decreases d - 1 - i,
    {
        ar[i] = silk_smulww(chirp_q16, ar[i]);
        assert(i32::MIN <= bw_chirp(c0, (i + 1) as nat) <= i32::MAX);
        chirp_q16 = next_chirp(chirp_q16, chirp_minus_one_q16, Ghost(c0), Ghost(i as nat));
        i += 1;
    }
    ar[d - 1] = silk_smulww(chirp_q16, ar[d - 1]);
}

/// With a chirp of exactly 1.0 (65536 in Q16) every power of the chirp is 1.0,
/// so the recurrence never leaves the `i32` range.
pub proof fn lemma_unit_chirp(i: nat)
    ensures
        bw_chirp(65536, i) == 65536,
        bw_chirp_fits(65536, i),
    decreases i,
{
    if i > 0 {
        lemma_unit_chirp((i - 1) as nat);
        assert(wrap32(0int) == 0) by {
            crate::arith::lemma_wrap_id(0, 0x8000_0000);
        }
        vstd::arithmetic::power2::lemma2_to64();
        assert(fx_rshift_round(0, 16) == 0);
        assert(65536 * (65536 - 65536) == 0int);
    }
    assert forall|k: nat| k < i implies i32::MIN <= #[trigger] bw_chirp(65536, k) <= i32::MAX by {
        lemma_unit_chirp(k);
    }
}

/// Expanding with a chirp of 1.0 leaves 32-bit coefficients unchanged.
pub proof fn lemma_bwexpander_32_unit_chirp_is_identity(x: i32, i: nat)
    ensures
        fx_smulww(bw_chirp(65536, i), x as int) == x,
{
    lemma_unit_chirp(i);
    assert((65536 * (x as int)) / 0x1_0000 == x) by (nonlinear_arith);
    crate::arith::lemma_wrap_id(x as int, 0x8000_0000);
}

/// For a chirp between 0 and 1.0 (Q16) the recurrence computes
/// `c_{i+1} = round(c_i * c0 / 2^16)`: every power stays between 0 and `c0`.
pub proof fn lemma_chirp_in_unit_range(c0: int, i: nat)
    requires
        0 <= c0 <= 65536,
    ensures
        0 <= bw_chirp(c0, i) <= c0,
    decreases i,
{
    if i > 0 {
        lemma_chirp_in_unit_range(c0, (i - 1) as nat);
        let c = bw_chirp(c0, (i - 1) as nat);
        let x = c * (c0 - 65536);
        assert(-0x4000_0000 <= x <= 0) by (nonlinear_arith)
            requires 0 <= c <= c0, 0 <= c0 <= 65536, x == c * (c0 - 65536);
        crate::arith::lemma_wrap_id(x, 0x8000_0000);
        vstd::arithmetic::power2::lemma2_to64();
        let r = (x + 32768) / 65536;
        assert(fx_rshift_round(x, 16) == r);
        assert(0 <= c + r <= c) by (nonlinear_arith)
            requires
                0 <= c <= c0,
                0 <= c0 <= 65536,
                x == c * (c0 - 65536),
                r == (x + 32768) / 65536,
        {
            assert(65536 * (c + r) <= c * c0 + 32768);
            assert(c * c0 + 32768 < 65536 * (c + r) + 65536);
        }
    }
}

/// For a chirp between 0 and 1.0 the recurrence never leaves the `i32` range.
pub proof fn lemma_unit_range_chirp_fits(c0: int, d: nat)
    requires
        0 <= c0 <= 65536,
    ensures
        bw_chirp_fits(c0, d),
{
    assert forall|i: nat| i < d implies i32::MIN <= #[trigger] bw_chirp(c0, i) <= i32::MAX by {
        lemma_chirp_in_unit_range(c0, i);
    }
}

} // verus!
