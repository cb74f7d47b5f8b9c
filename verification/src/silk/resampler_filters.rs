//! The filters of the SILK resampler: the 2x all-pass up-sampler, the
//! fractional FIR interpolator behind it, the second-order AR pre-filter and
//! the symmetric FIR down-sampling interpolators.

use vstd::prelude::*;
use vstd::arithmetic::power2::pow2;
use crate::arith::{clamp, lemma_bv_i32_low_bits, lemma_i32_shr_is_div, lemma_wrap_id, lo16, wrap16, wrap32};
use crate::silk::macros::{
    fx_rshift_round, fx_smulwb, silk_add32, silk_add_lshift32, silk_lshift, silk_rshift, silk_rshift_round, silk_sat16,
    silk_smlabb, silk_smlawb, silk_smulbb, silk_smulwb, silk_sub32,
};

verus! {

pub const ORDER_FIR_12: usize = 8;
pub const MAX_FIR_ORDER: usize = 36;
/// 10 ms at 48 kHz.
pub const MAX_BATCH_SIZE_IN: usize = 480;

/// All-pass coefficients of the even output branch of the 2x up-sampler.
pub const UP2_HQ_0: [i16; 3] = [1746, 14986, -26453];
/// All-pass coefficients of the odd output branch.
pub const UP2_HQ_1: [i16; 3] = [6854, 25769, -9994];

/// 12 phases of 4 taps (row-major).
pub const FRAC_FIR_12: [i16; 48] = [
    189, -600, 617, 30567,
    117, -159, -1070, 29704,
    52, 221, -2392, 28276,
    -4, 529, -3350, 26341,
    -48, 758, -3956, 23973,
    -80, 905, -4235, 21254,
    -99, 972, -4222, 18278,
    -107, 967, -3957, 15143,
    -103, 896, -3487, 11950,
    -91, 773, -2865, 8798,
    -71, 611, -2143, 5784,
    -46, 425, -1375, 2996,
];

/// `b` with the values of `part` written from position `off` on.
pub open spec fn splice<T>(b: Seq<T>, off: int, part: Seq<T>) -> Seq<T> {
    Seq::new(b.len(), |i: int| if off <= i < off + part.len() { part[i - off] } else { b[i] })
}

/// A first-order all-pass section with state `s` on input `x` (coefficient
/// `c` in Q16): its output and next state.
pub open spec fn all_pass(s: int, x: int, c: int) -> (int, int) {
    let xx = fx_smulwb(wrap32(x - s), c);
    (wrap32(s + xx), wrap32(x + xx))
}

/// The third section, whose coefficient exceeds one (`y + y * c`).
pub open spec fn all_pass_wide(s: int, x: int, c: int) -> (int, int) {
    let y = wrap32(x - s);
    let xx = wrap32(y + fx_smulwb(y, c));
    (wrap32(s + xx), wrap32(x + xx))
}

/// One branch of the up-sampler: three all-pass sections with states
/// `s0, s1, s2`; the 16-bit output and the next states.
pub open spec fn up2_branch(s0: int, s1: int, s2: int, x: int, c: Seq<i16>) -> (i16, int, int, int) {
    let (o1, n0) = all_pass(s0, x, c[0] as int);
    let (o2, n1) = all_pass(s1, o1, c[1] as int);
    let (o3, n2) = all_pass_wide(s2, o2, c[2] as int);
    (clamp(fx_rshift_round(o3, 10), -0x8000, 0x7fff) as i16, n0, n1, n2)
}

/// One input sample through the up-sampler: next state and the two outputs.
#[verifier::opaque]
pub open spec fn up2_step(st: Seq<i32>, x: i16) -> (Seq<i32>, i16, i16) {
    let in32 = x as int * 1024;
    let (e, a0, a1, a2) = up2_branch(st[0] as int, st[1] as int, st[2] as int, in32, UP2_HQ_0@);
    let (o, b0, b1, b2) = up2_branch(st[3] as int, st[4] as int, st[5] as int, in32, UP2_HQ_1@);
    (seq![a0 as i32, a1 as i32, a2 as i32, b0 as i32, b1 as i32, b2 as i32], e, o)
}

/// The first (even) output of the up-sampler and the first three next
/// states depend only on the first three states: its all-pass chain is
/// separate from the odd one.
pub proof fn lemma_up2_even_branch(st: Seq<i32>, st2: Seq<i32>, x: i16)
    requires
        st.len() == 6,
        st2.len() == 6,
        st[0] == st2[0],
        st[1] == st2[1],
        st[2] == st2[2],
    ensures
        up2_step(st, x).1 == up2_step(st2, x).1,
        up2_step(st, x).0.subrange(0, 3) == up2_step(st2, x).0.subrange(0, 3),
{
    let in32 = x as int * 1024;
    let e1 = up2_branch(st[0] as int, st[1] as int, st[2] as int, in32, UP2_HQ_0@);
    let e2 = up2_branch(st2[0] as int, st2[1] as int, st2[2] as int, in32, UP2_HQ_0@);
    assert(e1 == e2);
    reveal(up2_step);
    assert(up2_step(st, x).0.subrange(0, 3) =~= seq![e1.1 as i32, e1.2 as i32, e1.3 as i32]);
    assert(up2_step(st2, x).0.subrange(0, 3) =~= seq![e2.1 as i32, e2.2 as i32, e2.3 as i32]);
}

/// The second (odd) output of the up-sampler and the last three next states
/// depend only on the last three states.
pub proof fn lemma_up2_odd_branch(st: Seq<i32>, st2: Seq<i32>, x: i16)
    requires
        st.len() == 6,
        st2.len() == 6,
        st[3] == st2[3],
        st[4] == st2[4],
        st[5] == st2[5],
    ensures
        up2_step(st, x).2 == up2_step(st2, x).2,
        up2_step(st, x).0.subrange(3, 6) == up2_step(st2, x).0.subrange(3, 6),
{
    let in32 = x as int * 1024;
    let o1 = up2_branch(st[3] as int, st[4] as int, st[5] as int, in32, UP2_HQ_1@);
    let o2 = up2_branch(st2[3] as int, st2[4] as int, st2[5] as int, in32, UP2_HQ_1@);
    assert(o1 == o2);
    reveal(up2_step);
    assert(up2_step(st, x).0.subrange(3, 6) =~= seq![o1.1 as i32, o1.2 as i32, o1.3 as i32]);
    assert(up2_step(st2, x).0.subrange(3, 6) =~= seq![o2.1 as i32, o2.2 as i32, o2.3 as i32]);
}

/// A chain of three all-pass sections from zero state on input `x` (Q10):
/// two sections `y * c`, then one `y + y * c` (coefficients in Q16, sums
/// modulo 2^32), rounded back by 10 bits and saturated to 16 bits.
pub open spec fn up2_impulse(x: int, c: Seq<i16>) -> i16 {
    let y1 = wrap32(fx_smulwb(x, c[0] as int));
    let y2 = wrap32(fx_smulwb(y1, c[1] as int));
    let y3 = wrap32(y2 + fx_smulwb(y2, c[2] as int));
    clamp(fx_rshift_round(y3, 10), -0x8000, 0x7fff) as i16
}

/// From zero state the even output of the up-sampler is the response of the
/// chain with coefficients `UP2_HQ_0` and the odd output that of the chain
/// with `UP2_HQ_1`, in that order; e.g. an input of 1000 gives 4 then 35.
pub proof fn lemma_up2_from_rest(x: i16)
    ensures
        up2_step(seq![0i32, 0i32, 0i32, 0i32, 0i32, 0i32], x).1 == up2_impulse(x as int * 1024, UP2_HQ_0@),
        up2_step(seq![0i32, 0i32, 0i32, 0i32, 0i32, 0i32], x).2 == up2_impulse(x as int * 1024, UP2_HQ_1@),
        x == 1000 ==> up2_step(seq![0i32, 0i32, 0i32, 0i32, 0i32, 0i32], x).1 == 4,
        x == 1000 ==> up2_step(seq![0i32, 0i32, 0i32, 0i32, 0i32, 0i32], x).2 == 35,
{
    reveal(up2_step);
    let xx = x as int * 1024;
    lemma_wrap_id(xx, 0x8000_0000);
    let c0 = UP2_HQ_0@;
    let c1 = UP2_HQ_1@;
    let y1 = wrap32(fx_smulwb(xx, c0[0] as int));
    let y2 = wrap32(fx_smulwb(y1, c0[1] as int));
    crate::arith::lemma_wrap_bounds(fx_smulwb(xx, c0[0] as int), 0x8000_0000);
    crate::arith::lemma_wrap_bounds(fx_smulwb(y1, c0[1] as int), 0x8000_0000);
    lemma_wrap_id(y1, 0x8000_0000);
    lemma_wrap_id(y2, 0x8000_0000);
    let z1 = wrap32(fx_smulwb(xx, c1[0] as int));
    let z2 = wrap32(fx_smulwb(z1, c1[1] as int));
    crate::arith::lemma_wrap_bounds(fx_smulwb(xx, c1[0] as int), 0x8000_0000);
    crate::arith::lemma_wrap_bounds(fx_smulwb(z1, c1[1] as int), 0x8000_0000);
    lemma_wrap_id(z1, 0x8000_0000);
    lemma_wrap_id(z2, 0x8000_0000);
    let y3 = wrap32(y2 + fx_smulwb(y2, c0[2] as int));
    let z3 = wrap32(z2 + fx_smulwb(z2, c1[2] as int));
    crate::arith::lemma_wrap_bounds(y2 + fx_smulwb(y2, c0[2] as int), 0x8000_0000);
    crate::arith::lemma_wrap_bounds(z2 + fx_smulwb(z2, c1[2] as int), 0x8000_0000);
    lemma_wrap_id(y3, 0x8000_0000);
    lemma_wrap_id(z3, 0x8000_0000);
    if x == 1000 {
        vstd::arithmetic::power2::lemma2_to64();
        assert(c0[0] == 1746 && c0[1] == 14986 && c0[2] == -26453);
        assert(c1[0] == 6854 && c1[1] == 25769 && c1[2] == -9994);
        lemma_wrap_id(1746, 0x8000);
        lemma_wrap_id(14986, 0x8000);
        lemma_wrap_id(-26453, 0x8000);
        lemma_wrap_id(6854, 0x8000);
        lemma_wrap_id(25769, 0x8000);
        lemma_wrap_id(-9994, 0x8000);
        vstd::arithmetic::div_mod::lemma_div_multiples_vanish_fancy(27281, 16384, 65536);
        assert(1024000int * 1746 == 65536 * 27281 + 16384);
        vstd::arithmetic::div_mod::lemma_div_multiples_vanish_fancy(6238, 19498, 65536);
        assert(27281int * 14986 == 65536 * 6238 + 19498);
        vstd::arithmetic::div_mod::lemma_div_multiples_vanish_fancy(-2518, 5834, 65536);
        assert(6238int * -26453 == 65536 * -2518 + 5834);
        vstd::arithmetic::div_mod::lemma_div_multiples_vanish_fancy(4, 136, 1024);
        assert(3720int + 512 == 1024 * 4 + 136);
        vstd::arithmetic::div_mod::lemma_div_multiples_vanish_fancy(107093, 49152, 65536);
        assert(1024000int * 6854 == 65536 * 107093 + 49152);
        vstd::arithmetic::div_mod::lemma_div_multiples_vanish_fancy(42109, 24093, 65536);
        assert(107093int * 25769 == 65536 * 42109 + 24093);
        vstd::arithmetic::div_mod::lemma_div_multiples_vanish_fancy(-6422, 34846, 65536);
        assert(42109int * -9994 == 65536 * -6422 + 34846);
        vstd::arithmetic::div_mod::lemma_div_multiples_vanish_fancy(35, 359, 1024);
        assert(35687int + 512 == 1024 * 35 + 359);
        assert(pow2(9) == 512 && pow2(10) == 1024);
        assert(y1 == 27281 && y2 == 6238 && y3 == 3720);
        assert(z1 == 107093 && z2 == 42109 && z3 == 35687);
        assert(fx_rshift_round(3720, 10) == 4);
        assert(fx_rshift_round(35687, 10) == 35);
    }
}

/// The first `k` inputs through the up-sampler: state and interleaved outputs.
pub open spec fn up2_run(st: Seq<i32>, input: Seq<i16>, k: nat) -> (Seq<i32>, Seq<i16>)
    decreases k,
{
    if k == 0 {
        (st, Seq::empty())
    } else {
        let (s1, o) = up2_run(st, input, (k - 1) as nat);
        let (s2, e, od) = up2_step(s1, input[k - 1]);
        (s2, o.push(e).push(od))
    }
}

proof fn lemma_up2_run_len(st: Seq<i32>, input: Seq<i16>, k: nat)
    ensures
        up2_run(st, input, k).1.len() == 2 * k,
        up2_run(st, input, k).0.len() == (if k == 0 { st.len() } else { 6 }),
    decreases k,
{
    if k > 0 {
        lemma_up2_run_len(st, input, (k - 1) as nat);
        lemma_up2_step_len(up2_run(st, input, (k - 1) as nat).0, input[k - 1]);
    }
}

/// The up-sampler doubles the number of samples and keeps six states.
pub proof fn lemma_up2_run_len_pub(st: Seq<i32>, input: Seq<i16>, k: nat)
    ensures
        up2_run(st, input, k).1.len() == 2 * k,
{
    lemma_up2_run_len(st, input, k);
}

proof fn lemma_up2_step_len(st: Seq<i32>, x: i16)
    ensures
        up2_step(st, x).0.len() == 6,
{
    reveal(up2_step);
}

proof fn lemma_up2_run_prefix(st: Seq<i32>, a: Seq<i16>, b: Seq<i16>, k: nat)
    requires
        k <= a.len(),
        k <= b.len(),
        a.subrange(0, k as int) == b.subrange(0, k as int),
    ensures
        up2_run(st, a, k) == up2_run(st, b, k),
    decreases k,
{
    if k > 0 {
        assert(a.subrange(0, k - 1) == a.subrange(0, k as int).subrange(0, k - 1));
        assert(b.subrange(0, k - 1) == b.subrange(0, k as int).subrange(0, k - 1));
        lemma_up2_run_prefix(st, a, b, (k - 1) as nat);
        assert(a[k - 1] == a.subrange(0, k as int)[k - 1]);
        assert(b[k - 1] == b.subrange(0, k as int)[k - 1]);
    }
}

proof fn lemma_splice_push2<T>(b: Seq<T>, off: int, p: Seq<T>, e: T, od: T)
    requires
        0 <= off,
        off + p.len() + 2 <= b.len(),
    ensures
        splice(b, off, p).update(off + p.len(), e).update(off + p.len() + 1, od) == splice(b, off, p.push(e).push(od)),
{
    assert(splice(b, off, p).update(off + p.len(), e).update(off + p.len() + 1, od) =~= splice(b, off, p.push(e).push(od)));
}

fn all_pass_exec(s: i32, x: i32, c: i16) -> (r: (i32, i32))
    ensures
        r.0 as int == all_pass(s as int, x as int, c as int).0,
        r.1 as int == all_pass(s as int, x as int, c as int).1,
{
    let y = silk_sub32(x, s);
    let xx = silk_smulwb(y, c as i32);
    (silk_add32(s, xx), silk_add32(x, xx))
}

fn all_pass_wide_exec(s: i32, x: i32, c: i16) -> (r: (i32, i32))
    ensures
        r.0 as int == all_pass_wide(s as int, x as int, c as int).0,
        r.1 as int == all_pass_wide(s as int, x as int, c as int).1,
{
    let y = silk_sub32(x, s);
    let xx = silk_smlawb(y, y, c as i32);
    (silk_add32(s, xx), silk_add32(x, xx))
}

/// One input sample through the up-sampler (see [`up2_step`]).
fn up2_sample(state: &mut [i32; 6], x: i16) -> (r: (i16, i16))
    ensures
        (final(state)@, r.0, r.1) == up2_step(old(state)@, x),
{
    let in32 = silk_lshift(x as i32, 10);
    proof {
        vstd::arithmetic::power2::lemma2_to64();
        lemma_wrap_id(x as int * 1024, 0x8000_0000);
    }
    let (o1, n0) = all_pass_exec(state[0], in32, UP2_HQ_0[0]);
    let (o2, n1) = all_pass_exec(state[1], o1, UP2_HQ_0[1]);
    let (o3, n2) = all_pass_wide_exec(state[2], o2, UP2_HQ_0[2]);
    let e = silk_sat16(silk_rshift_round(o3, 10)) as i16;
    let (p1, m0) = all_pass_exec(state[3], in32, UP2_HQ_1[0]);
    let (p2, m1) = all_pass_exec(state[4], p1, UP2_HQ_1[1]);
    let (p3, m2) = all_pass_wide_exec(state[5], p2, UP2_HQ_1[2]);
    let od = silk_sat16(silk_rshift_round(p3, 10)) as i16;
    state[0] = n0;
    state[1] = n1;
    state[2] = n2;
    state[3] = m0;
    state[4] = m1;
    state[5] = m2;
    proof {
        reveal(up2_step);
        let (s2, e2, od2) = up2_step(old(state)@, x);
        assert(state@ =~= s2);
    }
    (e, od)
}

/// Each input gives two outputs, written
/// from `out[off]` on; `state` carries the six all-pass states.
pub fn up2_hq(state: &mut [i32; 6], out: &mut [i16], off: usize, input: &[i16])
    requires
        off + 2 * input@.len() <= old(out)@.len(),
    ensures
        final(state)@ == up2_run(old(state)@, input@, input@.len()).0,
        final(out)@ == splice(old(out)@, off as int, up2_run(old(state)@, input@, input@.len()).1),
{
    let ghost st0 = state@;
    let ghost o0 = out@;
    let n = input.len();
    let len = out.len();
    let mut k: usize = 0;
    while k < n
        invariant
            k <= n,
            n == input@.len(),
            off + 2 * n <= o0.len(),
            len == o0.len(),
            out@.len() == o0.len(),
            state@ == up2_run(st0, input@, k as nat).0,
            out@ == splice(o0, off as int, up2_run(st0, input@, k as nat).1),
        decreases n - k,
    {
        proof { lemma_up2_run_len(st0, input@, k as nat); }
        let ghost sk = state@;
        let x = input[k];
        let (e, od) = up2_sample(state, x);
        out[off + 2 * k] = e;
        out[off + 2 * k + 1] = od;
        proof {
            lemma_up2_run_len(st0, input@, k as nat + 1);
            let p = up2_run(st0, input@, k as nat).1;
            assert(up2_run(st0, input@, k as nat + 1).1 == p.push(e).push(od));
            lemma_splice_push2(o0, off as int, p, e, od);
        }
        k += 1;
    }
    proof {
        if n == 0 {
            assert(out@ =~= splice(o0, off as int, up2_run(st0, input@, 0).1));
        }
    }
}

/// The number of output samples of an interpolator stepping by `inc` from 0
/// while below `max`.
pub open spec fn interp_count(max: int, inc: int) -> nat {
    if max <= 0 || inc <= 0 { 0 } else { ((max + inc - 1) / inc) as nat }
}

/// `n` steps of `inc` stay below `max` exactly when `n` is below the count.
proof fn lemma_interp_count(n: int, inc: int, max: int)
    requires
        inc > 0,
        max >= 0,
        n >= 0,
    ensures
        n * inc < max <==> n < interp_count(max, inc),
{
    if max > 0 {
        let q = (max + inc - 1) / inc;
        vstd::arithmetic::div_mod::lemma_fundamental_div_mod(max + inc - 1, inc);
        vstd::arithmetic::div_mod::lemma_mod_bound(max + inc - 1, inc);
        assert(n * inc < max <==> n < q) by (nonlinear_arith)
            requires
                max + inc - 1 == inc * q + (max + inc - 1) % inc,
                0 <= (max + inc - 1) % inc < inc,
                inc > 0,
                n >= 0,
        ;
    } else {
        assert(n * inc >= 0) by (nonlinear_arith) requires n >= 0, inc > 0;
    }
}

/// One output of the fractional FIR interpolator at position `idx` (Q16) in
/// the up-sampled buffer: eight taps from the phase table, the second four
/// mirrored.
#[verifier::opaque]
pub open spec fn iir_sample(buf: Seq<i16>, idx: int) -> i16 {
    let t = ((idx % 0x1_0000) * 12) / 0x1_0000;
    let b = idx / 0x1_0000;
    let f = FRAC_FIR_12@;
    let r0 = buf[b] as int * f[4 * t] as int;
    let r1 = wrap32(r0 + buf[b + 1] as int * f[4 * t + 1] as int);
    let r2 = wrap32(r1 + buf[b + 2] as int * f[4 * t + 2] as int);
    let r3 = wrap32(r2 + buf[b + 3] as int * f[4 * t + 3] as int);
    let r4 = wrap32(r3 + buf[b + 4] as int * f[4 * (11 - t) + 3] as int);
    let r5 = wrap32(r4 + buf[b + 5] as int * f[4 * (11 - t) + 2] as int);
    let r6 = wrap32(r5 + buf[b + 6] as int * f[4 * (11 - t) + 1] as int);
    let r7 = wrap32(r6 + buf[b + 7] as int * f[4 * (11 - t)] as int);
    clamp(fx_rshift_round(r7, 15), -0x8000, 0x7fff) as i16
}

/// The outputs of the fractional interpolator below `max` (Q16).
pub open spec fn iir_interp(buf: Seq<i16>, max: int, inc: int) -> Seq<i16> {
    Seq::new(interp_count(max, inc), |n: int| iir_sample(buf, n * inc))
}

fn iir_sample_exec(buf: &[i16], idx: i32) -> (r: i16)
    requires
        0 <= idx,
        idx / 0x1_0000 + 8 <= buf@.len(),
    ensures
        r == iir_sample(buf@, idx as int),
{
    proof {
        lemma_bv_i32_low_bits(idx);
        lemma_i32_shr_is_div(idx, 16);
        vstd::arithmetic::power2::lemma2_to64();
        lemma_wrap_id(12, 0x8000);
        assert(0 <= ((idx % 0x1_0000) * 12) / 0x1_0000 < 12) by (nonlinear_arith)
            requires 0 <= idx % 0x1_0000 < 0x1_0000;
    }
    let t = silk_smulwb(idx & 0xFFFF, 12) as usize;
    let b = (idx >> 16u32) as usize;
    let r0 = silk_smulbb(buf[b] as i32, FRAC_FIR_12[4 * t] as i32);
    let r1 = silk_smlabb(r0, buf[b + 1] as i32, FRAC_FIR_12[4 * t + 1] as i32);
    let r2 = silk_smlabb(r1, buf[b + 2] as i32, FRAC_FIR_12[4 * t + 2] as i32);
    let r3 = silk_smlabb(r2, buf[b + 3] as i32, FRAC_FIR_12[4 * t + 3] as i32);
    let r4 = silk_smlabb(r3, buf[b + 4] as i32, FRAC_FIR_12[4 * (11 - t) + 3] as i32);
    let r5 = silk_smlabb(r4, buf[b + 5] as i32, FRAC_FIR_12[4 * (11 - t) + 2] as i32);
    let r6 = silk_smlabb(r5, buf[b + 6] as i32, FRAC_FIR_12[4 * (11 - t) + 1] as i32);
    let r7 = silk_smlabb(r6, buf[b + 7] as i32, FRAC_FIR_12[4 * (11 - t)] as i32);
    proof {
        reveal(iir_sample);
        assert forall|v: i32| -0x8000 <= v <= 0x7fff implies #[trigger] lo16(v) == v by {
            lemma_wrap_id(v as int, 0x8000);
        }
    }
    silk_sat16(silk_rshift_round(r7, 15)) as i16
}

/// Writes the outputs of
/// [`iir_interp`] from `out[off]` on and returns their number.
pub fn iir_fir_interpol(out: &mut [i16], off: usize, buf: &[i16], max_index_q16: i32, index_increment_q16: i32) -> (n: usize)
    requires
        0 < index_increment_q16,
        0 <= max_index_q16,
        max_index_q16 + index_increment_q16 <= i32::MAX,
        max_index_q16 <= 0x1_0000 * (buf@.len() - 7),
        off + interp_count(max_index_q16 as int, index_increment_q16 as int) <= old(out)@.len(),
    ensures
        n == interp_count(max_index_q16 as int, index_increment_q16 as int),
        final(out)@ == splice(old(out)@, off as int, iir_interp(buf@, max_index_q16 as int, index_increment_q16 as int)),
{
    let ghost o0 = out@;
    let ghost max = max_index_q16 as int;
    let ghost inc = index_increment_q16 as int;
    let ghost all = iir_interp(buf@, max, inc);
    let len = out.len();
    let mut n: usize = 0;
    let mut index_q16: i32 = 0;
    while index_q16 < max_index_q16
        invariant
            len == o0.len(),
            0 < inc == index_increment_q16,
            max == max_index_q16 >= 0,
            max + inc <= i32::MAX,
            max <= 0x1_0000 * (buf@.len() - 7),
            off + interp_count(max, inc) <= o0.len(),
            out@.len() == o0.len(),
            index_q16 == n * inc,
            n <= interp_count(max, inc),
            all == iir_interp(buf@, max, inc),
            out@ == splice(o0, off as int, all.subrange(0, n as int)),
        decreases interp_count(max, inc) - n,
    {
        proof {
            lemma_interp_count(n as int, inc, max);
            assert(index_q16 / 0x1_0000 + 8 <= buf@.len());
        }
        let v = iir_sample_exec(buf, index_q16);
        out[off + n] = v;
        proof {
            assert(out@ =~= splice(o0, off as int, all.subrange(0, n as int + 1)));
            assert((n + 1) * inc == n * inc + inc) by (nonlinear_arith);
        }
        n += 1;
        index_q16 += index_increment_q16;
    }
    proof {
        lemma_interp_count(n as int, inc, max);
        assert(all.subrange(0, n as int) =~= all);
    }
    n
}

/// One sample through the second-order AR pre-filter (states `s0, s1`,
/// coefficients Q14): the Q8 output and the next states.
pub open spec fn ar2_step(s0: int, s1: int, x: i16, a0: int, a1: int) -> (int, int, int) {
    let out32 = wrap32(s0 + x as int * 256);
    let o4 = wrap32(out32 * 4);
    (out32, wrap32(s1 + fx_smulwb(o4, a0)), fx_smulwb(o4, a1))
}

/// The first `k` inputs through the AR pre-filter: states and Q8 outputs.
pub open spec fn ar2_run(s0: int, s1: int, input: Seq<i16>, a0: int, a1: int, k: nat) -> (int, int, Seq<i32>)
    decreases k,
{
    if k == 0 {
        (s0, s1, Seq::empty())
    } else {
        let (t0, t1, o) = ar2_run(s0, s1, input, a0, a1, (k - 1) as nat);
        let (y, n0, n1) = ar2_step(t0, t1, input[k - 1], a0, a1);
        (n0, n1, o.push(y as i32))
    }
}

proof fn lemma_ar2_run_len(s0: int, s1: int, input: Seq<i16>, a0: int, a1: int, k: nat)
    ensures
        ar2_run(s0, s1, input, a0, a1, k).2.len() == k,
    decreases k,
{
    if k > 0 {
        lemma_ar2_run_len(s0, s1, input, a0, a1, (k - 1) as nat);
    }
}

/// The AR pre-filter gives one output per input.
pub proof fn lemma_ar2_run_len_pub(s0: int, s1: int, input: Seq<i16>, a0: int, a1: int, k: nat)
    ensures
        ar2_run(s0, s1, input, a0, a1, k).2.len() == k,
{
    lemma_ar2_run_len(s0, s1, input, a0, a1, k);
}

/// The AR pre-filter's states stay 32-bit values.
pub proof fn lemma_ar2_run_range(s0: int, s1: int, input: Seq<i16>, a0: int, a1: int, k: nat)
    requires
        -0x8000_0000 <= s0 < 0x8000_0000,
        -0x8000_0000 <= s1 < 0x8000_0000,
    ensures
        -0x8000_0000 <= ar2_run(s0, s1, input, a0, a1, k).0 < 0x8000_0000,
        -0x8000_0000 <= ar2_run(s0, s1, input, a0, a1, k).1 < 0x8000_0000,
    decreases k,
{
    if k > 0 {
        lemma_ar2_run_range(s0, s1, input, a0, a1, (k - 1) as nat);
        let (t0, t1, o) = ar2_run(s0, s1, input, a0, a1, (k - 1) as nat);
        let out32 = wrap32(t0 + input[k - 1] as int * 256);
        let o4 = wrap32(out32 * 4);
        crate::arith::lemma_wrap_bounds(t1 + fx_smulwb(o4, a0), 0x8000_0000);
        crate::arith::lemma_wrap_bounds(t0 + input[k - 1] as int * 256, 0x8000_0000);
        crate::arith::lemma_wrap_bounds(out32 * 4, 0x8000_0000);
        crate::arith::lemma_wrap_bounds(a1, 0x8000);
        let b = wrap16(a1);
        assert(-0x8000_0000 * 0x8000 <= o4 * b <= 0x8000_0000 * 0x8000) by (nonlinear_arith)
            requires -0x8000_0000 <= o4 < 0x8000_0000, -0x8000 <= b < 0x8000;
    }
}

/// The AR pre-filter over `input`, its Q8
/// outputs written from `out_q8[off]` on; the states are `state[0..2]`.
pub fn ar2(state: &mut [i32; 6], out_q8: &mut [i32], off: usize, input: &[i16], a0: i16, a1: i16)
    requires
        off + input@.len() <= old(out_q8)@.len(),
    ensures
        ({
            let run = ar2_run(old(state)@[0] as int, old(state)@[1] as int, input@, a0 as int, a1 as int, input@.len());
            &&& final(state)@ == old(state)@.update(0, run.0 as i32).update(1, run.1 as i32)
            &&& final(out_q8)@ == splice(old(out_q8)@, off as int, run.2)
        }),
{
    let ghost st0 = state@;
    let ghost o0 = out_q8@;
    let len = out_q8.len();
    let n = input.len();
    let mut k: usize = 0;
    while k < n
        invariant
            k <= n,
            n == input@.len(),
            len == o0.len(),
            off + n <= o0.len(),
            out_q8@.len() == o0.len(),
            state@[0] == ar2_run(st0[0] as int, st0[1] as int, input@, a0 as int, a1 as int, k as nat).0,
            state@[1] == ar2_run(st0[0] as int, st0[1] as int, input@, a0 as int, a1 as int, k as nat).1,
            forall|i: int| 2 <= i < 6 ==> #[trigger] state@[i] == st0[i],
            out_q8@ == splice(o0, off as int, ar2_run(st0[0] as int, st0[1] as int, input@, a0 as int, a1 as int, k as nat).2),
        decreases n - k,
    {
        proof { lemma_ar2_run_len(st0[0] as int, st0[1] as int, input@, a0 as int, a1 as int, k as nat); }
        let ghost before = out_q8@;
        let ghost sb = state@;
        proof {
            vstd::arithmetic::power2::lemma2_to64();
            assert(input@[k as int] as int * pow2(8) == input@[k as int] as int * 256) by (nonlinear_arith)
                requires pow2(8) == 256;
        }
        let out32 = silk_add_lshift32(state[0], input[k] as i32, 8);
        proof {
            assert(out32 as int * pow2(2) == out32 as int * 4) by (nonlinear_arith) requires pow2(2) == 4;
        }
        out_q8[off + k] = out32;
        let o4 = silk_lshift(out32, 2);
        let s0 = silk_smlawb(state[1], o4, a0 as i32);
        let s1 = silk_smulwb(o4, a1 as i32);
        state[0] = s0;
        state[1] = s1;
        proof {
            vstd::arithmetic::power2::lemma2_to64();
            let run = ar2_run(st0[0] as int, st0[1] as int, input@, a0 as int, a1 as int, k as nat);
            assert(out_q8@ =~= splice(o0, off as int, run.2.push(out32)));

        }
        k += 1;
    }
    proof {
        let run = ar2_run(st0[0] as int, st0[1] as int, input@, a0 as int, a1 as int, n as nat);
        assert(state@ =~= st0.update(0, run.0 as i32).update(1, run.1 as i32));
    }
}

/// The forward half of the 18-tap down-sampling FIR: taps `base..base+k+1`
/// over `buf[b..]`.
pub open spec fn fir18_fwd(buf: Seq<i32>, b: int, c: Seq<i16>, base: int, k: int) -> int
    decreases k,
{
    if k <= 0 {
        fx_smulwb(buf[b] as int, c[base] as int)
    } else {
        wrap32(fir18_fwd(buf, b, c, base, k - 1) + fx_smulwb(buf[b + k] as int, c[base + k] as int))
    }
}

/// The mirrored half of the 18-tap FIR: `k` taps from `base2` over `buf[b + 17]` down, added to `init`.
pub open spec fn fir18_bwd(buf: Seq<i32>, b: int, c: Seq<i16>, base2: int, init: int, k: int) -> int
    decreases k,
{
    if k <= 0 {
        init
    } else {
        wrap32(fir18_bwd(buf, b, c, base2, init, k - 1) + fx_smulwb(buf[b + 17 - (k - 1)] as int, c[base2 + k - 1] as int))
    }
}

/// The symmetric FIR of the given order: `k + 1` coefficient pairs over `buf[b..]`.
pub open spec fn fir_sym(buf: Seq<i32>, b: int, c: Seq<i16>, order: int, k: int) -> int
    decreases k,
{
    if k <= 0 {
        fx_smulwb(wrap32(buf[b] + buf[b + order - 1]), c[0] as int)
    } else {
        wrap32(fir_sym(buf, b, c, order, k - 1) + fx_smulwb(wrap32(buf[b + k] + buf[b + order - 1 - k]), c[k] as int))
    }
}

/// One output of the down-sampling interpolator at `idx` (Q16): the 18-tap
/// polyphase FIR (phase from the fraction) or the 24/36-tap symmetric FIR,
/// rounded from Q6 and saturated.
pub open spec fn down_sample(buf: Seq<i32>, c: Seq<i16>, order: int, fracs: int, idx: int) -> i16 {
    let b = idx / 0x1_0000;
    let res = if order == 18 {
        let ind = ((idx % 0x1_0000) * fracs) / 0x1_0000;
        fir18_bwd(buf, b, c, 9 * (fracs - 1 - ind), fir18_fwd(buf, b, c, 9 * ind, 8), 9)
    } else {
        fir_sym(buf, b, c, order, order / 2 - 1)
    };
    clamp(fx_rshift_round(res, 6), -0x8000, 0x7fff) as i16
}

/// The outputs of the down-sampling interpolator below `max` (Q16).
pub open spec fn down_interp(buf: Seq<i32>, c: Seq<i16>, order: int, fracs: int, max: int, inc: int) -> Seq<i16> {
    Seq::new(interp_count(max, inc), |n: int| down_sample(buf, c, order, fracs, n * inc))
}

fn down_sample_exec(buf: &[i32], c: &[i16], order: usize, fracs: i32, idx: i32) -> (r: i16)
    requires
        0 <= idx,
        order == 18 || order == 24 || order == 36,
        idx / 0x1_0000 + order <= buf@.len(),
        order == 18 ==> 1 <= fracs <= 3 && 9 * fracs <= c@.len(),
        order != 18 ==> order / 2 <= c@.len(),
    ensures
        r == down_sample(buf@, c@, order as int, fracs as int, idx as int),
{
    proof {
        lemma_i32_shr_is_div(idx, 16);
        vstd::arithmetic::power2::lemma2_to64();
    }
    let b = silk_rshift(idx, 16) as usize;
    let blen = buf.len();
    let clen = c.len();
    let mut res: i32;
    if order == 18 {
        proof {
            lemma_bv_i32_low_bits(idx);
            lemma_wrap_id(fracs as int, 0x8000);
            assert(0 <= ((idx % 0x1_0000) * fracs) / 0x1_0000 < fracs) by (nonlinear_arith)
                requires 0 <= idx % 0x1_0000 < 0x1_0000, 1 <= fracs <= 3;
        }
        let ind = silk_smulwb(idx & 0xFFFF, fracs) as usize;
        let base = 9 * ind;
        res = silk_smulwb(buf[b], c[base] as i32);
        let mut j: usize = 1;
        while j < 9
            invariant
                1 <= j <= 9,
                blen == buf@.len() && clen == c@.len(),
                b + 18 <= buf@.len(),
                base + 9 <= c@.len(),
                res == fir18_fwd(buf@, b as int, c@, base as int, j - 1),
            decreases 9 - j,
        {
            res = silk_smlawb(res, buf[b + j], c[base + j] as i32);
            j += 1;
        }
        let base2 = 9 * (fracs as usize - 1 - ind);
        let ghost first = res as int;
        let mut j: usize = 0;
        while j < 9
            invariant
                j <= 9,
                blen == buf@.len() && clen == c@.len(),
                b + 18 <= buf@.len(),
                base2 + 9 <= c@.len(),
                res == fir18_bwd(buf@, b as int, c@, base2 as int, first, j as int),
            decreases 9 - j,
        {
            res = silk_smlawb(res, buf[b + 17 - j], c[base2 + j] as i32);
            j += 1;
        }
    } else {
        res = silk_smulwb(silk_add32(buf[b], buf[b + order - 1]), c[0] as i32);
        let half = order / 2;
        let mut j: usize = 1;
        while j < half
            invariant
                1 <= j <= half,
                blen == buf@.len() && clen == c@.len(),
                half == order / 2,
                order == 24 || order == 36,
                b + order <= buf@.len(),
                half <= c@.len(),
                res == fir_sym(buf@, b as int, c@, order as int, j - 1),
            decreases half - j,
        {
            res = silk_smlawb(res, silk_add32(buf[b + j], buf[b + order - 1 - j]), c[j] as i32);
            j += 1;
        }
    }
    silk_sat16(silk_rshift_round(res, 6)) as i16
}

/// Writes the outputs of
/// [`down_interp`] from `out[off]` on and returns their number.
pub fn down_fir_interpol(
    out: &mut [i16],
    off: usize,
    buf: &[i32],
    fir_coefs: &[i16],
    fir_order: usize,
    fir_fracs: i32,
    max_index_q16: i32,
    index_increment_q16: i32,
) -> (n: usize)
    requires
        fir_order == 18 || fir_order == 24 || fir_order == 36,
        fir_order == 18 ==> 1 <= fir_fracs <= 3 && 9 * fir_fracs <= fir_coefs@.len(),
        fir_order != 18 ==> fir_order / 2 <= fir_coefs@.len(),
        0 < index_increment_q16,
        0 <= max_index_q16,
        max_index_q16 + index_increment_q16 <= i32::MAX,
        max_index_q16 <= 0x1_0000 * (buf@.len() - fir_order + 1),
        off + interp_count(max_index_q16 as int, index_increment_q16 as int) <= old(out)@.len(),
    ensures
        n == interp_count(max_index_q16 as int, index_increment_q16 as int),
        final(out)@ == splice(
            old(out)@,
            off as int,
            down_interp(buf@, fir_coefs@, fir_order as int, fir_fracs as int, max_index_q16 as int, index_increment_q16 as int),
        ),
{
    let ghost o0 = out@;
    let ghost max = max_index_q16 as int;
    let ghost inc = index_increment_q16 as int;
    let ghost all = down_interp(buf@, fir_coefs@, fir_order as int, fir_fracs as int, max, inc);
    let len = out.len();
    let mut n: usize = 0;
    let mut index_q16: i32 = 0;
    while index_q16 < max_index_q16
        invariant
            len == o0.len(),
            fir_order == 18 || fir_order == 24 || fir_order == 36,
            fir_order == 18 ==> 1 <= fir_fracs <= 3 && 9 * fir_fracs <= fir_coefs@.len(),
            fir_order != 18 ==> fir_order / 2 <= fir_coefs@.len(),
            0 < inc == index_increment_q16,
            max == max_index_q16 >= 0,
            max + inc <= i32::MAX,
            max <= 0x1_0000 * (buf@.len() - fir_order + 1),
            off + interp_count(max, inc) <= o0.len(),
            out@.len() == o0.len(),
            index_q16 == n * inc,
            n <= interp_count(max, inc),
            all == down_interp(buf@, fir_coefs@, fir_order as int, fir_fracs as int, max, inc),
            out@ == splice(o0, off as int, all.subrange(0, n as int)),
        decreases interp_count(max, inc) - n,
    {
        proof {
            lemma_interp_count(n as int, inc, max);
            assert(index_q16 / 0x1_0000 + fir_order <= buf@.len());
        }
        let v = down_sample_exec(buf, fir_coefs, fir_order, fir_fracs, index_q16);
        out[off + n] = v;
        proof {
            assert(out@ =~= splice(o0, off as int, all.subrange(0, n as int + 1)));
            assert((n + 1) * inc == n * inc + inc) by (nonlinear_arith);
        }
        n += 1;
        index_q16 += index_increment_q16;
    }
    proof {
        lemma_interp_count(n as int, inc, max);
        assert(all.subrange(0, n as int) =~= all);
    }
    n
}

} // verus!
