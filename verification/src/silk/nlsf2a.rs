//! Conversion from normalized line spectral frequencies (NLSFs, Q15) to LPC
//! prediction coefficients (Q12), through a piecewise-linear `2 cos(LSF)`
//! table, the two symmetric polynomials, and bandwidth expansion until the
//! filter is stable.

use vstd::prelude::*;
use vstd::arithmetic::power2::pow2;
use crate::arith::{lemma_i32_shl_is_mul, lemma_i64_as_i32_any, lemma_wrap_id, wrap32};
use crate::silk::bwexpander::{lemma_unit_range_chirp_fits, silk_bwexpander_32};
use crate::silk::lpc_fit::{bwexpand32_seq, fit_in, fit_out, silk_lpc_fit};
use crate::silk::lpc_inv_pred_gain::{coefs_qa, dc_response, inv_gain_rec, silk_lpc_inverse_pred_gain, ONE_Q30};
use crate::silk::macros::{
    fx_rshift_round, fx_shl32, fx_shr, silk_lshift, silk_mul, silk_rshift, silk_rshift_round, silk_rshift_round64,
    silk_smull,
};
use crate::silk::tables::SILK_LSF_COS_TAB_FIX_Q12;

verus! {

/// The Q domain of the polynomial coefficients.
pub const QA: i32 = 16;
pub const MAX_LPC_STABILIZE_ITERATIONS: i32 = 16;
/// The order in which the 16 cosines are stored, for accuracy.
pub const ORDERING16: [u8; 16] = [0, 15, 8, 7, 4, 11, 12, 3, 2, 13, 10, 5, 6, 9, 14, 1];
/// The order in which the 10 cosines are stored.
pub const ORDERING10: [u8; 10] = [0, 9, 6, 3, 4, 5, 8, 1, 2, 7];

/// The storage order of the cosines for order `d`.
pub open spec fn ordering(d: int) -> Seq<u8> {
    if d == 16 { ORDERING16@ } else { ORDERING10@ }
}

/// `2 cos(LSF)` in Q16 for an NLSF: linear interpolation in the Q12 table
/// between the entries around its top 7 bits, rounded.
pub open spec fn cos_interp(n: int) -> int {
    let f_int = n / 256;
    let f_frac = n - f_int * 256;
    let cos_val = SILK_LSF_COS_TAB_FIX_Q12@[f_int] as int;
    let delta = SILK_LSF_COS_TAB_FIX_Q12@[f_int + 1] as int - cos_val;
    fx_rshift_round(cos_val * 256 + delta * f_frac, 4)
}

/// The 16 stored cosines after the first `k` NLSFs were converted.
pub open spec fn cos_fill(nlsf: Seq<i16>, d: int, k: int) -> Seq<int>
    decreases k,
{
    if k <= 0 {
        Seq::new(16, |j: int| 0)
    } else {
        cos_fill(nlsf, d, k - 1).update(ordering(d)[k - 1] as int, cos_interp(nlsf[k - 1] as int))
    }
}

/// `x` fits in 32 bits.
pub open spec fn fits32(x: int) -> bool {
    -0x8000_0000 <= x <= 0x7fff_ffff
}

/// `round(f * v / 2^16)` truncated to 32 bits.
pub open spec fn poly_term(f: int, v: int) -> int {
    wrap32(fx_rshift_round(f * v, 16))
}

/// The inner update of one convolution step for indices `n` down to 2.
pub open spec fn poly_inner(o: Seq<int>, f: int, n: int) -> Seq<int>
    decreases n,
{
    if n < 2 {
        o
    } else {
        poly_inner(o.update(n, o[n] + (o[n - 2] - poly_term(f, o[n - 1]))), f, n - 1)
    }
}

/// Every sum of [`poly_inner`] fits in 32 bits.
pub open spec fn poly_inner_fits(o: Seq<int>, f: int, n: int) -> bool
    decreases n,
{
    if n < 2 {
        true
    } else {
        let t = o[n - 2] - poly_term(f, o[n - 1]);
        fits32(t) && fits32(o[n] + t) && poly_inner_fits(o.update(n, o[n] + t), f, n - 1)
    }
}

/// Step `k` of the convolution with the factor `(1 - f z^-1 + z^-2)`.
pub open spec fn poly_step(o: Seq<int>, f: int, k: int) -> Seq<int> {
    let o1 = o.update(k + 1, wrap32(2 * o[k - 1]) - poly_term(f, o[k]));
    let o2 = poly_inner(o1, f, k);
    o2.update(1, o2[1] - f)
}

/// Every sum of [`poly_step`] fits in 32 bits.
pub open spec fn poly_step_fits(o: Seq<int>, f: int, k: int) -> bool {
    let o1 = o.update(k + 1, wrap32(2 * o[k - 1]) - poly_term(f, o[k]));
    let o2 = poly_inner(o1, f, k);
    &&& fits32(wrap32(2 * o[k - 1]) - poly_term(f, o[k]))
    &&& poly_inner_fits(o1, f, k)
    &&& fits32(o2[1] - f)
}

/// The polynomial recursion after `k - 1` steps, on the cosines `c`
/// (stride 2) and the initial buffer `o0`.
pub open spec fn poly(o0: Seq<int>, c: Seq<int>, k: int) -> Seq<int>
    decreases k,
{
    if k <= 1 {
        o0.update(0, 0x1_0000).update(1, -c[0])
    } else {
        poly_step(poly(o0, c, k - 1), c[2 * (k - 1)], k - 1)
    }
}

/// Every value computed by [`poly`] fits in 32 bits.
pub open spec fn poly_fits(o0: Seq<int>, c: Seq<int>, k: int) -> bool
    decreases k,
{
    if k <= 1 {
        fits32(-c[0])
    } else {
        poly_fits(o0, c, k - 1) && poly_step_fits(poly(o0, c, k - 1), c[2 * (k - 1)], k - 1)
    }
}

/// The 32-bit coefficients (Q17) from the even and odd polynomials.
pub open spec fn a32_coefs(p: Seq<int>, q: Seq<int>, d: int) -> Seq<i32> {
    Seq::new(16, |j: int| {
        let dd = d / 2;
        if j < dd {
            (-(q[j + 1] - q[j]) - (p[j + 1] + p[j])) as i32
        } else if j < d {
            let k = d - 1 - j;
            ((q[k + 1] - q[k]) - (p[k + 1] + p[k])) as i32
        } else {
            0i32
        }
    })
}

/// Every sum of [`a32_coefs`] fits in 32 bits.
pub open spec fn a32_fits(p: Seq<int>, q: Seq<int>, d: int) -> bool {
    forall|k: int| 0 <= k < d / 2 ==> {
        let pt = #[trigger] p[k + 1] + p[k];
        let qt = q[k + 1] - q[k];
        &&& fits32(pt) && fits32(qt) && fits32(-qt) && fits32(-qt - pt) && fits32(qt - pt)
    }
}

/// The inverse prediction gain `silk_lpc_inverse_pred_gain` computes (0 when unstable).
pub open spec fn pred_gain(a: Seq<i16>, d: int) -> int {
    if dc_response(a, d) >= 4096 { 0 } else { inv_gain_rec(coefs_qa(a, d), d - 1, ONE_Q30 as int) }
}

/// Rounds `i..16` of the stabilization: while the Q12 filter is unstable,
/// expand the Q17 coefficients with chirp `1 - 2^(i+1) / 2^16` and convert again.
pub open spec fn stabilize_rounds(a32: Seq<i32>, aq: Seq<i16>, d: int, i: int) -> Seq<i16>
    decreases 16 - i,
{
    if i >= 16 || pred_gain(aq, d) != 0 {
        aq
    } else {
        let a2 = bwexpand32_seq(a32, d, 0x1_0000 - 2 * pow2(i as nat));
        let aq2 = Seq::new(aq.len(), |k: int| if k < d { fx_rshift_round(a2[k] as int, 5) as i16 } else { aq[k] });
        stabilize_rounds(a2, aq2, d, i + 1)
    }
}

/// The even (`P`) polynomial of an NLSF vector.
pub open spec fn poly_p(nlsf: Seq<i16>, d: int) -> Seq<int> {
    poly(Seq::new(9, |i: int| 0), cos_fill(nlsf, d, d), d / 2)
}

/// The odd (`Q`) polynomial of an NLSF vector.
pub open spec fn poly_q(nlsf: Seq<i16>, d: int) -> Seq<int> {
    poly(Seq::new(9, |i: int| 0), cos_fill(nlsf, d, d).subrange(1, 16), d / 2)
}

/// The conversion stays within 32 bits: its sums are not allowed to overflow.
pub open spec fn nlsf2a_fits(nlsf: Seq<i16>, d: int) -> bool {
    let cos = cos_fill(nlsf, d, d);
    &&& poly_fits(Seq::new(9, |i: int| 0), cos, d / 2)
    &&& poly_fits(Seq::new(9, |i: int| 0), cos.subrange(1, 16), d / 2)
    &&& a32_fits(poly_p(nlsf, d), poly_q(nlsf, d), d)
}

/// The Q12 coefficients of [`silk_nlsf2a`] (entries from `d` on are kept from `a0`).
pub open spec fn nlsf2a_result(nlsf: Seq<i16>, d: int, a0: Seq<i16>) -> Seq<i16> {
    let a32 = a32_coefs(poly_p(nlsf, d), poly_q(nlsf, d), d);
    stabilize_rounds(fit_in(a32, d, 5, a0), fit_out(a32, d, 5, a0), d, 0)
}

/// `out[0..=dd]` becomes the polynomial with the
/// roots given by the cosines `c_lsf[0], c_lsf[2], ...`.
pub(crate) fn nlsf2a_find_poly(out: &mut [i32], c_lsf: &[i32], dd: usize)
    requires
        1 <= dd <= 8,
        old(out)@.len() == 9,
        c_lsf@.len() >= 2 * dd - 1,
        poly_fits(old(out)@.map_values(|v: i32| v as int), c_lsf@.map_values(|v: i32| v as int), dd as int),
    ensures
        final(out)@.len() == 9,
        final(out)@.map_values(|v: i32| v as int) == poly(
            old(out)@.map_values(|v: i32| v as int),
            c_lsf@.map_values(|v: i32| v as int),
            dd as int,
        ),
{
    let ghost o0 = out@.map_values(|v: i32| v as int);
    let ghost c = c_lsf@.map_values(|v: i32| v as int);
    proof {
        lemma_poly_fits_prefix(o0, c, 1, dd as int);
        assert(c[0] == c_lsf@[0] as int);
    }
    out[0] = 1i32 << 16u32;
    out[1] = -c_lsf[0];
    proof {
        assert(1i32 << 16u32 == 0x1_0000) by {
            lemma_i32_shl_is_mul(1, 16);
            vstd::arithmetic::power2::lemma2_to64();
            lemma_wrap_id(0x1_0000, 0x8000_0000);
        }
        assert(out@.map_values(|v: i32| v as int) =~= poly(o0, c, 1));
    }
    let mut k: usize = 1;
    while k < dd
        invariant
            1 <= k <= dd <= 8,
            out@.len() == 9,
            c_lsf@.len() >= 2 * dd - 1,
            c == c_lsf@.map_values(|v: i32| v as int),
            poly_fits(o0, c, dd as int),
            out@.map_values(|v: i32| v as int) == poly(o0, c, k as int),
        decreases dd - k,
    {
        proof { lemma_poly_fits_prefix(o0, c, k as int + 1, dd as int); }
        let ghost o = out@.map_values(|v: i32| v as int);
        let ftmp = c_lsf[2 * k];
        proof {
            vstd::arithmetic::power2::lemma2_to64();
            assert(c[2 * k as int] == ftmp as int);
            assert(o[k as int] == out@[k as int] as int);
            assert(o[k as int - 1] == out@[k as int - 1] as int);
            assert(poly_step_fits(o, ftmp as int, k as int));
        }
        let t = silk_rshift_round64(silk_smull(ftmp, out[k]), 16);
        proof { lemma_i64_as_i32_any(t); }
        let sh = silk_lshift(out[k - 1], 1);
        assert(out@[k as int - 1] as int * pow2(1) == 2 * o[k as int - 1]) by (nonlinear_arith)
            requires pow2(1) == 2, o[k as int - 1] == out@[k as int - 1] as int;
        assert(sh == wrap32(2 * o[k as int - 1]));
        assert((t as i32) == poly_term(ftmp as int, o[k as int]));
        let v = sh - (t as i32);
        out[k + 1] = v;
        let ghost o1 = out@.map_values(|v: i32| v as int);
        assert(o1 =~= o.update(k as int + 1, wrap32(2 * o[k as int - 1]) - poly_term(ftmp as int, o[k as int])));
        let mut n = k;
        while n > 1
            invariant
                1 <= n <= k < dd <= 8,
                out@.len() == 9,
                poly_inner_fits(out@.map_values(|v: i32| v as int), ftmp as int, n as int),
                poly_inner(out@.map_values(|v: i32| v as int), ftmp as int, n as int) == poly_inner(o1, ftmp as int, k as int),
            decreases n,
        {
            let ghost on = out@.map_values(|v: i32| v as int);
            let t2 = silk_rshift_round64(silk_smull(ftmp, out[n - 1]), 16);
            proof { lemma_i64_as_i32_any(t2); }
            let delta = out[n - 2] - (t2 as i32);
            out[n] = out[n] + delta;
            assert(out@.map_values(|v: i32| v as int) =~= on.update(n as int, on[n as int] + (on[n as int - 2] - poly_term(ftmp as int, on[n as int - 1]))));
            n -= 1;
        }
        let ghost o2 = out@.map_values(|v: i32| v as int);
        out[1] = out[1] - ftmp;
        assert(out@.map_values(|v: i32| v as int) =~= o2.update(1, o2[1] - ftmp));
        k += 1;
    }
}

/// The entries of the cosine table lie in `[-8192, 8192]`.
pub proof fn lemma_cos_table_range()
    ensures
        forall|i: int| 0 <= i < 129 ==> -8192 <= #[trigger] SILK_LSF_COS_TAB_FIX_Q12@[i] <= 8192,
{
}

/// The storage positions are below 16.
pub proof fn lemma_ordering_range()
    ensures
        forall|i: int| 0 <= i < 16 ==> #[trigger] ORDERING16@[i] < 16,
        forall|i: int| 0 <= i < 10 ==> #[trigger] ORDERING10@[i] < 16,
{
}

/// `2 cos(LSF)` (Q16) of one NLSF (see [`cos_interp`]).
fn cos_interp_exec(n: i16) -> (r: i32)
    requires
        n >= 0,
    ensures
        r == cos_interp(n as int),
{
    let x = n as i32;
    let f_int = silk_rshift(x, 15 - 7);
    proof {
        vstd::arithmetic::power2::lemma2_to64();
        assert(f_int == x as int / 256);
        assert(0 <= f_int <= 127);
        lemma_wrap_id(f_int * 256, 0x8000_0000);
        lemma_cos_table_range();
    }
    let f_frac = x - silk_lshift(f_int, 15 - 7);
    let cos_val = SILK_LSF_COS_TAB_FIX_Q12[f_int as usize] as i32;
    let delta = SILK_LSF_COS_TAB_FIX_Q12[f_int as usize + 1] as i32 - cos_val;
    proof {
        assert(-16384 * 255 <= delta * f_frac <= 16384 * 255) by (nonlinear_arith)
            requires -16384 <= delta <= 16384, 0 <= f_frac <= 255;
        lemma_wrap_id(delta * f_frac, 0x8000_0000);
        lemma_wrap_id(cos_val * 256, 0x8000_0000);
    }
    silk_rshift_round(silk_lshift(cos_val, 8) + silk_mul(delta, f_frac), 20 - QA)
}

/// The Q12 prediction coefficients of NLSFs of order 10 or
/// 16 ([`nlsf2a_result`]): cosines, the two polynomials, their combination in
/// Q17, conversion to Q12 (`silk_lpc_fit`), then up to 16 rounds of bandwidth
/// expansion while the filter is unstable. Entries of `a_q12` from `d` on are kept.
pub fn silk_nlsf2a(a_q12: &mut [i16], nlsf: &[i16], d: usize)
    requires
        d == 10 || d == 16,
        nlsf@.len() >= d,
        old(a_q12)@.len() >= d,
        forall|k: int| 0 <= k < d ==> nlsf@[k] >= 0,
        nlsf2a_fits(nlsf@, d as int),
    ensures
        final(a_q12)@ == nlsf2a_result(nlsf@, d as int, old(a_q12)@),
{
    let ghost nl = nlsf@;
    let mut cos_lsf_qa = [0i32; 16];
    proof { lemma_ordering_range(); }
    assert(cos_lsf_qa@.map_values(|v: i32| v as int) =~= cos_fill(nl, d as int, 0));
    let mut k: usize = 0;
    while k < d
        invariant
            k <= d,
            d == 10 || d == 16,
            nl == nlsf@,
            nl.len() >= d,
            forall|j: int| 0 <= j < d ==> nl[j] >= 0,
            forall|i: int| 0 <= i < 16 ==> #[trigger] ORDERING16@[i] < 16,
            forall|i: int| 0 <= i < 10 ==> #[trigger] ORDERING10@[i] < 16,
            cos_lsf_qa@.map_values(|v: i32| v as int) == cos_fill(nl, d as int, k as int),
        decreases d - k,
    {
        let c = cos_interp_exec(nlsf[k]);
        let ord = if d == 16 { ORDERING16[k] } else { ORDERING10[k] };
        assert(ord == ordering(d as int)[k as int]);
        let ghost before = cos_lsf_qa@.map_values(|v: i32| v as int);
        cos_lsf_qa[ord as usize] = c;
        assert(cos_lsf_qa@.map_values(|v: i32| v as int) =~= before.update(ord as int, c as int));
        k += 1;
    }
    let ghost cos = cos_fill(nl, d as int, d as int);
    let dd = d / 2;
    let mut p = [0i32; 9];
    let mut q = [0i32; 9];
    let ghost z9 = Seq::new(9, |i: int| 0int);
    assert(p@.map_values(|v: i32| v as int) =~= z9);
    assert(q@.map_values(|v: i32| v as int) =~= z9);
    nlsf2a_find_poly(&mut p, &cos_lsf_qa, dd);
    let odd = vstd::slice::slice_subrange(&cos_lsf_qa, 1, 16);
    assert(odd@.map_values(|v: i32| v as int) =~= cos.subrange(1, 16));
    nlsf2a_find_poly(&mut q, odd, dd);
    let ghost pp = p@.map_values(|v: i32| v as int);
    let ghost qq = q@.map_values(|v: i32| v as int);
    assert(pp == poly_p(nl, d as int));
    assert(qq == poly_q(nl, d as int));
    let mut a32_qa1 = [0i32; 16];
    let mut k: usize = 0;
    while k < dd
        invariant
            k <= dd,
            dd == d / 2,
            d == 10 || d == 16,
            pp == p@.map_values(|v: i32| v as int),
            qq == q@.map_values(|v: i32| v as int),
            p@.len() == 9 && q@.len() == 9,
            a32_fits(pp, qq, d as int),
            forall|j: int| 0 <= j < 16 ==> #[trigger] a32_qa1@[j] == (if j < k || (d - k <= j < d) {
                a32_coefs(pp, qq, d as int)[j]
            } else {
                0i32
            }),
        decreases dd - k,
    {
        assert(pp[k as int + 1] == p@[k as int + 1] && pp[k as int] == p@[k as int]);
        assert(qq[k as int + 1] == q@[k as int + 1] && qq[k as int] == q@[k as int]);
        let ptmp = p[k + 1] + p[k];
        let qtmp = q[k + 1] - q[k];
        a32_qa1[k] = -qtmp - ptmp;
        a32_qa1[d - k - 1] = qtmp - ptmp;
        k += 1;
    }
    assert(a32_qa1@ =~= a32_coefs(pp, qq, d as int));
    let ghost a32 = a32_qa1@;
    let ghost aq0 = a_q12@;
    silk_lpc_fit(a_q12, &mut a32_qa1, 12, QA + 1, d);
    let mut i: i32 = 0;
    loop
        invariant
            0 <= i <= 16,
            d == 10 || d == 16,
            a32_qa1@.len() == 16,
            a_q12@.len() == aq0.len(),
            aq0.len() >= d,
            stabilize_rounds(a32_qa1@, a_q12@, d as int, i as int) == stabilize_rounds(
                fit_in(a32, d as int, 5, aq0),
                fit_out(a32, d as int, 5, aq0),
                d as int,
                0,
            ),
        ensures
            a_q12@ == stabilize_rounds(fit_in(a32, d as int, 5, aq0), fit_out(a32, d as int, 5, aq0), d as int, 0),
        decreases 16 - i,
    {
        let g = silk_lpc_inverse_pred_gain(a_q12, d);
        if !(g == 0 && i < MAX_LPC_STABILIZE_ITERATIONS) {
            break;
        }
        let ghost b32 = a32_qa1@;
        let ghost bq = a_q12@;
        proof {
            lemma_i32_shl_is_mul(2, i as u32);
            vstd::arithmetic::power2::lemma2_to64();
            if i < 15 {
                vstd::arithmetic::power2::lemma_pow2_strictly_increases(i as nat, 15);
            }
            lemma_wrap_id(2 * pow2(i as nat) as int, 0x8000_0000);
        }
        let chirp = 65536 - (2i32 << (i as u32));
        proof { lemma_unit_range_chirp_fits(chirp as int, d as nat); }
        silk_bwexpander_32(&mut a32_qa1, d, chirp);
        assert(a32_qa1@ =~= bwexpand32_seq(b32, d as int, 0x1_0000 - 2 * pow2(i as nat)));
        let mut k: usize = 0;
        while k < d
            invariant
                k <= d,
                d == 10 || d == 16,
                a32_qa1@.len() == 16,
                a_q12@.len() == bq.len(),
                bq.len() >= d,
                forall|j: int| 0 <= j < bq.len() ==> #[trigger] a_q12@[j] == (if j < k {
                    fx_rshift_round(a32_qa1@[j] as int, 5) as i16
                } else {
                    bq[j]
                }),
            decreases d - k,
        {
            a_q12[k] = silk_rshift_round(a32_qa1[k], QA + 1 - 12) as i16;
            k += 1;
        }
        assert(a_q12@ =~= Seq::new(bq.len(), |j: int| if j < d { fx_rshift_round(a32_qa1@[j] as int, 5) as i16 } else { bq[j] }));
        i += 1;
    }
}

proof fn lemma_poly_fits_prefix(o0: Seq<int>, c: Seq<int>, j: int, k: int)
    requires
        j <= k,
        poly_fits(o0, c, k),
    ensures
        poly_fits(o0, c, j),
        j >= 2 ==> poly_step_fits(poly(o0, c, j - 1), c[2 * (j - 1)], j - 1),
    decreases k - j,
{
    if j < k {
        lemma_poly_fits_prefix(o0, c, j, k - 1);
    }
}

} // verus!
