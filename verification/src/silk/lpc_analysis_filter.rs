//! LPC analysis (whitening) filter: the prediction error of a 16-bit signal
//! under a Q12 predictor.

use vstd::prelude::*;
use vstd::arithmetic::power2::pow2;
use crate::arith::{clamp, lemma_wrap_sum, lemma_wrap_neg, lemma_wrap16_small, wrap32};
use crate::silk::macros::{
    fx_rshift_round, silk_lshift, silk_rshift_round, silk_sat16, silk_smlabb_ovflw, silk_smulbb,
    silk_sub32_ovflw,
};

verus! {

/// `sum_{k < n} x[p - k] * b[k]`: the first `n` taps of a predictor applied
/// backwards from position `p`.
pub open spec fn lpc_dot(x: Seq<i16>, b: Seq<i16>, p: int, n: nat) -> int
    decreases n,
{
    if n == 0 {
        0
    } else {
        lpc_dot(x, b, p, (n - 1) as nat) + x[p - (n - 1)] as int * b[n - 1] as int
    }
}

/// The filter output at position `ix >= d`: `in[ix]` minus the Q12 prediction
/// from the `d` previous samples, computed modulo 2^32, rounded to Q0 and
/// saturated to 16 bits.
pub open spec fn lpc_residual(x: Seq<i16>, b: Seq<i16>, ix: int, d: nat) -> int {
    clamp(
        fx_rshift_round(wrap32(x[ix] as int * 4096 - lpc_dot(x, b, ix - 1, d)), 12),
        -0x8000,
        0x7fff,
    )
}

/// Positions `d..len` of `out` receive the
/// prediction error of `in_sig`, the first `d` are set to zero.
pub fn silk_lpc_analysis_filter(out: &mut [i16], in_sig: &[i16], b: &[i16], len: usize, d: usize)
    requires
        6 <= d <= len,
        d % 2 == 0,
        len <= old(out)@.len(),
        len <= in_sig@.len(),
        d <= b@.len(),
    ensures
        final(out)@.len() == old(out)@.len(),
        forall|i: int| 0 <= i < d ==> #[trigger] final(out)@[i] == 0,
        forall|i: int| d <= i < len ==> #[trigger] final(out)@[i] == lpc_residual(in_sig@, b@, i, d as nat),
        forall|i: int| len <= i < old(out)@.len() ==> #[trigger] final(out)@[i] == old(out)@[i],
{
    let ghost o0 = out@;
    let mut ix = d;
    while ix < len
        invariant
            6 <= d <= ix <= len,
            len <= o0.len(),
            out@.len() == o0.len(),
            len <= in_sig@.len(),
            d <= b@.len(),
            forall|i: int| d <= i < ix ==> #[trigger] out@[i] == lpc_residual(in_sig@, b@, i, d as nat),
            forall|i: int| 0 <= i < d ==> #[trigger] out@[i] == o0[i],
            forall|i: int| len <= i < o0.len() ==> #[trigger] out@[i] == o0[i],
        decreases len - ix,
    {
        let in_ptr = ix - 1;
        let mut out32_q12 = silk_smulbb(in_sig[in_ptr] as i32, b[0] as i32);
        proof {
            lemma_wrap16_small(in_sig@[in_ptr as int] as int);
            lemma_wrap16_small(b@[0] as int);
            crate::arith::lemma_wrap_id(out32_q12 as int, 0x8000_0000);
            assert(lpc_dot(in_sig@, b@, in_ptr as int, 0) == 0);
        }
        let mut j: usize = 1;
        while j < d
            invariant
                1 <= j <= d <= ix,
                ix < len <= in_sig@.len(),
                in_ptr == ix - 1,
                d <= b@.len(),
                out32_q12 == wrap32(lpc_dot(in_sig@, b@, in_ptr as int, j as nat)),
            decreases d - j,
        {
            let ghost prev = out32_q12;
            out32_q12 = silk_smlabb_ovflw(out32_q12, in_sig[in_ptr - j] as i32, b[j] as i32);
            proof {
                lemma_wrap16_small(in_sig@[in_ptr - j] as int);
                lemma_wrap16_small(b@[j as int] as int);
                lemma_wrap_sum(
                    lpc_dot(in_sig@, b@, in_ptr as int, j as nat),
                    in_sig@[in_ptr - j] as int * b@[j as int] as int,
                    0x8000_0000,
                );
            }
            j += 1;
        }
        let shifted = silk_lshift(in_sig[in_ptr + 1] as i32, 12);
        proof {
            vstd::arithmetic::power2::lemma2_to64();
        }
        out32_q12 = silk_sub32_ovflw(shifted, out32_q12);
        proof {
            let s = lpc_dot(in_sig@, b@, in_ptr as int, d as nat);
            lemma_wrap_neg(s);
            lemma_wrap_sum(-wrap32(s), in_sig@[ix as int] as int * 4096, 0x8000_0000);
            lemma_wrap_sum(-s, in_sig@[ix as int] as int * 4096, 0x8000_0000);
            assert(in_sig@[ix as int] as int * 4096 == shifted);
        }
        let out32 = silk_rshift_round(out32_q12, 12);
        let v = silk_sat16(out32);
        out[ix] = v as i16;
        ix += 1;
    }
    let mut k: usize = 0;
    while k < d
        invariant
            k <= d <= len <= o0.len(),
            out@.len() == o0.len(),
            forall|i: int| d <= i < len ==> #[trigger] out@[i] == lpc_residual(in_sig@, b@, i, d as nat),
            forall|i: int| 0 <= i < k ==> #[trigger] out@[i] == 0,
            forall|i: int| len <= i < o0.len() ==> #[trigger] out@[i] == o0[i],
        decreases d - k,
    {
        out[k] = 0;
        k += 1;
    }
}

/// A zero signal has zero prediction error under any predictor.
pub proof fn lemma_lpc_residual_of_silence(x: Seq<i16>, b: Seq<i16>, ix: int, d: nat)
    requires
        forall|i: int| 0 <= i < x.len() ==> #[trigger] x[i] == 0,
        d <= ix < x.len(),
    ensures
        lpc_residual(x, b, ix, d) == 0,
{
    lemma_lpc_dot_of_silence(x, b, ix - 1, d);
    assert(x[ix] == 0);
    assert(x[ix] as int * 4096 - lpc_dot(x, b, ix - 1, d) == 0);
    crate::arith::lemma_wrap_id(0, 0x8000_0000);
    vstd::arithmetic::power2::lemma2_to64();
    assert(pow2(11) == 2048 && pow2(12) == 4096);
    assert(fx_rshift_round(0, 12) == 2048int / 4096int);
}

/// The prediction from an all-zero history is zero.
pub proof fn lemma_lpc_dot_of_silence(x: Seq<i16>, b: Seq<i16>, p: int, n: nat)
    requires
        forall|i: int| 0 <= i < x.len() ==> #[trigger] x[i] == 0,
        n <= p + 1,
        p < x.len(),
    ensures
        lpc_dot(x, b, p, n) == 0,
    decreases n,
{
    if n > 0 {
        lemma_lpc_dot_of_silence(x, b, p, (n - 1) as nat);
        assert(x[p - (n - 1)] == 0);
    }
}

} // verus!
