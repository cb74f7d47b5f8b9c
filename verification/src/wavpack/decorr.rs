//! Decorrelation passes: adaptive one-tap predictors (with sign-sign LMS
//! weight updates) that turn residuals back into samples.

use vstd::prelude::*;
use crate::arith::{wrap32, lemma_bv_i32, lemma_i64_as_i32_any, lemma_i32_wrapping_add};

verus! {

/// The longest history a pass keeps.
pub const MAX_TERM: usize = 8;

/// One decorrelation pass: its term (1..=8: delay; 17, 18: extrapolation;
/// -1..-3: cross-channel), adaptation step, weights and sample history.
#[derive(Clone, Copy)]
pub struct DecorrPass {
    pub term: i32,
    pub delta: i32,
    pub weight_a: i32,
    pub weight_b: i32,
    pub samples_a: [i32; 8],
    pub samples_b: [i32; 8],
}

impl Default for DecorrPass {
    fn default() -> (r: Self)
        ensures
            r.term == 0,
            r.delta == 0,
            r.weight_a == 0,
            r.weight_b == 0,
            forall|i: int| 0 <= i < 8 ==> #[trigger] r.samples_a@[i] == 0 && r.samples_b@[i] == 0,
    {
        DecorrPass { term: 0, delta: 0, weight_a: 0, weight_b: 0, samples_a: [0; 8], samples_b: [0; 8] }
    }
}

/// `round(weight * sample / 1024)` (ties up), modulo 2^32.
pub open spec fn apply_weight_spec(weight: int, sample: int) -> int {
    wrap32((weight * sample + 512) / 1024)
}

/// Sign-sign LMS: the weight moves by `delta` toward
/// agreement of the signs of `source` and `result` (when both are non-zero),
/// modulo 2^32.
pub open spec fn update_weight_spec(weight: int, delta: int, source: i32, result: i32) -> int {
    if source != 0 && result != 0 {
        if (source ^ result) < 0 { wrap32(weight - delta) } else { wrap32(weight + delta) }
    } else {
        weight
    }
}

/// As [`update_weight_spec`], but the weight moved toward the side it moves
/// to is capped at 1024 there (the sums wrap modulo 2^32).
pub open spec fn update_weight_clip_spec(weight: int, delta: int, source: i32, result: i32) -> int {
    if source != 0 && result != 0 {
        if (source ^ result) < 0 {
            let w = wrap32(delta - weight);
            wrap32(-(if w > 1024 { 1024 } else { w }))
        } else {
            let w = wrap32(weight + delta);
            if w > 1024 { 1024 } else { w }
        }
    } else {
        weight
    }
}

pub fn apply_weight(weight: i32, sample: i32) -> (r: i32)
    ensures
        r == apply_weight_spec(weight as int, sample as int),
{
    assert(-0x4000_0000_0000_0000 <= weight as int * sample as int <= 0x4000_0000_0000_0000) by (nonlinear_arith)
        requires i32::MIN <= weight <= i32::MAX, i32::MIN <= sample <= i32::MAX;
    let t = (weight as i64 * sample as i64 + 512) >> 10u64;
    proof {
        crate::arith::lemma_i64_shr_is_div((weight as i64 * sample as i64 + 512) as i64, 10);
        vstd::arithmetic::power2::lemma2_to64();
        lemma_i64_as_i32_any(t);
    }
    #[verifier::truncate] (t as i32)
}

/// The sign of `x ^ y` as an arithmetic shift gives it.
proof fn lemma_xor_sign(x: i32, y: i32)
    ensures
        ((x ^ y) >> 31u32) == (if (x ^ y) < 0 { -1i32 } else { 0i32 }),
        (x ^ y) < 0 <==> ((x < 0) != (y < 0)),
{
    lemma_bv_i32(x, y, 0);
}

pub fn update_weight(weight: &mut i32, delta: i32, source: i32, result: i32)
    ensures
        *final(weight) == update_weight_spec(*old(weight) as int, delta as int, source, result),
{
    if source != 0 && result != 0 {
        let s = (source ^ result) >> 31u32;
        proof { lemma_xor_sign(source, result); }
        assert((delta ^ s) == (if s == -1 { -delta - 1 } else { delta as int })) by { lemma_bv_i32(delta, 0, 0); }
        let w0 = *weight;
        proof {
            lemma_i32_wrapping_add(w0, s);
            lemma_i32_wrapping_add(delta ^ s, w0.wrapping_sub(s));
            crate::arith::lemma_wrap_sum(w0 - s, (delta ^ s) as int, 0x8000_0000);
        }
        *weight = (delta ^ s).wrapping_add(w0.wrapping_sub(s));
    }
}

pub fn update_weight_clip(weight: &mut i32, delta: i32, source: i32, result: i32)
    ensures
        *final(weight) == update_weight_clip_spec(*old(weight) as int, delta as int, source, result),
{
    if source != 0 && result != 0 {
        let s = (source ^ result) >> 31u32;
        proof { lemma_xor_sign(source, result); }
        let w0 = *weight;
        assert((w0 ^ s) == (if s == -1 { -w0 - 1 } else { w0 as int })) by { lemma_bv_i32(w0, 0, 0); }
        let mut w = (w0 ^ s).wrapping_add(delta.wrapping_sub(s));
        proof {
            lemma_i32_wrapping_add(w0 ^ s, delta.wrapping_sub(s));
            lemma_i32_wrapping_add(delta, s);
            crate::arith::lemma_wrap_sum(delta - s, (w0 ^ s) as int, 0x8000_0000);
        }
        if w > 1024 {
            w = 1024;
        }
        assert((w ^ s) == (if s == -1 { -w - 1 } else { w as int })) by { lemma_bv_i32(w, 0, 0); }
        *weight = (w ^ s).wrapping_sub(s);
        proof {
            lemma_i32_wrapping_add(w ^ s, s);
            crate::arith::lemma_wrap_id(w as int, 0x8000_0000);
        }
    }
}

/// The adaptive state of a pass: the two weights and the two sample histories.
pub type PassState = (int, int, Seq<i32>, Seq<i32>);

/// The state of a pass as a value.
pub open spec fn pass_state(p: DecorrPass) -> PassState {
    (p.weight_a as int, p.weight_b as int, p.samples_a@, p.samples_b@)
}

/// The two extrapolations of the history: linear (term 17) and half-quadratic
/// (term 18), modulo 2^32.
pub open spec fn extrapolate(term: int, s0: i32, s1: i32) -> i32 {
    if term == 17 {
        (2i32).wrapping_mul(s0).wrapping_sub(s1)
    } else {
        ((3i32).wrapping_mul(s0).wrapping_sub(s1)) >> 1u32
    }
}

/// `x + apply_weight(w, s)` modulo 2^32.
pub open spec fn predict(x: i32, w: int, s: i32) -> i32 {
    wrap32(x + apply_weight_spec(w, s as int)) as i32
}

/// One stereo frame `(x0, x1)` (frame index `i`) through a pass with term
/// `term` and step `delta`: the new state and the two output samples.
pub open spec fn stereo_step(term: int, delta: int, st: PassState, i: int, x0: i32, x1: i32) -> (PassState, i32, i32) {
    let (wa, wb, sa, sb) = st;
    if 1 <= term <= 8 {
        let m = i % 8;
        let k = (m + term) % 8;
        let na = predict(x0, wa, sa[m]);
        let nb = predict(x1, wb, sb[m]);
        ((update_weight_spec(wa, delta, sa[m], x0), update_weight_spec(wb, delta, sb[m], x1),
            sa.update(k, na), sb.update(k, nb)), na, nb)
    } else if term == 17 || term == 18 {
        let pa = extrapolate(term, sa[0], sa[1]);
        let pb = extrapolate(term, sb[0], sb[1]);
        let na = predict(x0, wa, pa);
        let nb = predict(x1, wb, pb);
        ((update_weight_spec(wa, delta, pa, x0), update_weight_spec(wb, delta, pb, x1),
            sa.update(1, sa[0]).update(0, na), sb.update(1, sb[0]).update(0, nb)), na, nb)
    } else if term == -1 {
        let sam = predict(x0, wa, sa[0]);
        let wa2 = update_weight_clip_spec(wa, delta, sa[0], x0);
        let y1 = predict(x1, wb, sam);
        ((wa2, update_weight_clip_spec(wb, delta, sam, x1), sa.update(0, y1), sb), sam, y1)
    } else if term == -2 {
        let sam = predict(x1, wb, sb[0]);
        let wb2 = update_weight_clip_spec(wb, delta, sb[0], x1);
        let y0 = predict(x0, wa, sam);
        ((update_weight_clip_spec(wa, delta, sam, x0), wb2, sa, sb.update(0, y0)), y0, sam)
    } else if term == -3 {
        let sam_a = predict(x0, wa, sa[0]);
        let wa2 = update_weight_clip_spec(wa, delta, sa[0], x0);
        let y1 = predict(x1, wb, sb[0]);
        let wb2 = update_weight_clip_spec(wb, delta, sb[0], x1);
        ((wa2, wb2, sa.update(0, y1), sb.update(0, sam_a)), sam_a, y1)
    } else {
        (st, x0, x1)
    }
}

/// The first `n` frames of an interleaved stereo buffer through a pass: the
/// final state and the `2n` output samples.
pub open spec fn stereo_run(term: int, delta: int, st: PassState, buf: Seq<i32>, n: nat) -> (PassState, Seq<i32>)
    decreases n,
{
    if n == 0 {
        (st, Seq::empty())
    } else {
        let (st1, out) = stereo_run(term, delta, st, buf, (n - 1) as nat);
        let i = n - 1;
        let (st2, y0, y1) = stereo_step(term, delta, st1, i, buf[2 * i], buf[2 * i + 1]);
        (st2, out.push(y0).push(y1))
    }
}

/// One sample through a mono pass (terms 1..=8, 17, 18; others leave it).
pub open spec fn mono_step(term: int, delta: int, st: PassState, i: int, x: i32) -> (PassState, i32) {
    let (wa, wb, sa, sb) = st;
    if 1 <= term <= 8 {
        let m = i % 8;
        let k = (m + term) % 8;
        let na = predict(x, wa, sa[m]);
        ((update_weight_spec(wa, delta, sa[m], x), wb, sa.update(k, na), sb), na)
    } else if term == 17 || term == 18 {
        let pa = extrapolate(term, sa[0], sa[1]);
        let na = predict(x, wa, pa);
        ((update_weight_spec(wa, delta, pa, x), wb, sa.update(1, sa[0]).update(0, na), sb), na)
    } else {
        (st, x)
    }
}

/// The first `n` samples of a mono buffer through a pass.
pub open spec fn mono_run(term: int, delta: int, st: PassState, buf: Seq<i32>, n: nat) -> (PassState, Seq<i32>)
    decreases n,
{
    if n == 0 {
        (st, Seq::empty())
    } else {
        let (st1, out) = mono_run(term, delta, st, buf, (n - 1) as nat);
        let (st2, y) = mono_step(term, delta, st1, n - 1, buf[n - 1]);
        (st2, out.push(y))
    }
}

/// `x + apply_weight(w, s)` modulo 2^32.
fn predict_exec(x: i32, w: i32, s: i32) -> (r: i32)
    ensures
        r == predict(x, w as int, s),
{
    let a = apply_weight(w, s);
    proof { lemma_i32_wrapping_add(x, a); }
    x.wrapping_add(a)
}

/// [`extrapolate`].
fn extrapolate_exec(term: i32, s0: i32, s1: i32) -> (r: i32)
    ensures
        r == extrapolate(term as int, s0, s1),
{
    if term == 17 {
        (2i32).wrapping_mul(s0).wrapping_sub(s1)
    } else {
        ((3i32).wrapping_mul(s0).wrapping_sub(s1)) >> 1u32
    }
}

/// One stereo frame through a pass (see [`stereo_step`]).
fn stereo_step_exec(p: &mut DecorrPass, i: usize, x0: i32, x1: i32) -> (r: (i32, i32))
    ensures
        ({
            let t = stereo_step(old(p).term as int, old(p).delta as int, pass_state(*old(p)), i as int, x0, x1);
            &&& pass_state(*final(p)) == t.0
            &&& r == (t.1, t.2)
        }),
        final(p).term == old(p).term,
        final(p).delta == old(p).delta,
{
    let t = p.term;
    let delta = p.delta;
    if t > 0 && t <= 8 {
        let m = i % 8;
        let k = (m + t as usize) % 8;
        let sam_a = p.samples_a[m];
        let sam_b = p.samples_b[m];
        let na = predict_exec(x0, p.weight_a, sam_a);
        let nb = predict_exec(x1, p.weight_b, sam_b);
        update_weight(&mut p.weight_a, delta, sam_a, x0);
        update_weight(&mut p.weight_b, delta, sam_b, x1);
        p.samples_a[k] = na;
        p.samples_b[k] = nb;
        (na, nb)
    } else if t == 17 || t == 18 {
        let sa = extrapolate_exec(t, p.samples_a[0], p.samples_a[1]);
        let sb = extrapolate_exec(t, p.samples_b[0], p.samples_b[1]);
        p.samples_a[1] = p.samples_a[0];
        p.samples_b[1] = p.samples_b[0];
        let na = predict_exec(x0, p.weight_a, sa);
        let nb = predict_exec(x1, p.weight_b, sb);
        update_weight(&mut p.weight_a, delta, sa, x0);
        update_weight(&mut p.weight_b, delta, sb, x1);
        p.samples_a[0] = na;
        p.samples_b[0] = nb;
        (na, nb)
    } else if t == -1 {
        let sam = predict_exec(x0, p.weight_a, p.samples_a[0]);
        let s0 = p.samples_a[0];
        update_weight_clip(&mut p.weight_a, delta, s0, x0);
        let y1 = predict_exec(x1, p.weight_b, sam);
        p.samples_a[0] = y1;
        update_weight_clip(&mut p.weight_b, delta, sam, x1);
        (sam, y1)
    } else if t == -2 {
        let sam = predict_exec(x1, p.weight_b, p.samples_b[0]);
        let s0 = p.samples_b[0];
        update_weight_clip(&mut p.weight_b, delta, s0, x1);
        let y0 = predict_exec(x0, p.weight_a, sam);
        p.samples_b[0] = y0;
        update_weight_clip(&mut p.weight_a, delta, sam, x0);
        (y0, sam)
    } else if t == -3 {
        let sam_a = predict_exec(x0, p.weight_a, p.samples_a[0]);
        let sa0 = p.samples_a[0];
        update_weight_clip(&mut p.weight_a, delta, sa0, x0);
        let y1 = predict_exec(x1, p.weight_b, p.samples_b[0]);
        let sb0 = p.samples_b[0];
        update_weight_clip(&mut p.weight_b, delta, sb0, x1);
        p.samples_a[0] = y1;
        p.samples_b[0] = sam_a;
        (sam_a, y1)
    } else {
        (x0, x1)
    }
}

/// Runs the interleaved stereo buffer through the
/// pass, in place, updating its weights and history.
pub fn decorr_stereo_pass(p: &mut DecorrPass, buf: &mut [i32])
    ensures
        ({
            let n = old(buf)@.len() / 2;
            let run = stereo_run(old(p).term as int, old(p).delta as int, pass_state(*old(p)), old(buf)@, n as nat);
            &&& pass_state(*final(p)) == run.0
            &&& final(buf)@.len() == old(buf)@.len()
            &&& final(buf)@.subrange(0, 2 * n as int) == run.1
            &&& forall|j: int| 2 * n <= j < old(buf)@.len() ==> #[trigger] final(buf)@[j] == old(buf)@[j]
        }),
        final(p).term == old(p).term,
        final(p).delta == old(p).delta,
{
    let ghost b0 = buf@;
    let ghost p0 = *p;
    let len = buf.len();
    let n = len / 2;
    let mut i: usize = 0;
    while i < n
        invariant
            n == b0.len() / 2,
            b0.len() == len,
            i <= n,
            buf@.len() == b0.len(),
            p.term == p0.term,
            p.delta == p0.delta,
            ({
                let run = stereo_run(p0.term as int, p0.delta as int, pass_state(p0), b0, i as nat);
                &&& pass_state(*p) == run.0
                &&& buf@.subrange(0, 2 * i) == run.1
            }),
            forall|j: int| 2 * i <= j < b0.len() ==> #[trigger] buf@[j] == b0[j],
        decreases n - i,
    {
        assert(i * 2 + 1 < len) by (nonlinear_arith) requires i < n, n == len / 2;
        let x0 = buf[i * 2];
        let x1 = buf[i * 2 + 1];
        let (y0, y1) = stereo_step_exec(p, i, x0, x1);
        buf[i * 2] = y0;
        buf[i * 2 + 1] = y1;
        proof {
            let run = stereo_run(p0.term as int, p0.delta as int, pass_state(p0), b0, i as nat);
            assert(buf@.subrange(0, 2 * i + 2) =~= run.1.push(y0).push(y1));
        }
        i += 1;
    }
}

/// One mono sample through a pass (see [`mono_step`]).
fn mono_step_exec(p: &mut DecorrPass, i: usize, x: i32) -> (r: i32)
    ensures
        ({
            let t = mono_step(old(p).term as int, old(p).delta as int, pass_state(*old(p)), i as int, x);
            &&& pass_state(*final(p)) == t.0
            &&& r == t.1
        }),
        final(p).term == old(p).term,
        final(p).delta == old(p).delta,
{
    let t = p.term;
    let delta = p.delta;
    if t > 0 && t <= 8 {
        let m = i % 8;
        let k = (m + t as usize) % 8;
        let sam = p.samples_a[m];
        let na = predict_exec(x, p.weight_a, sam);
        update_weight(&mut p.weight_a, delta, sam, x);
        p.samples_a[k] = na;
        na
    } else if t == 17 || t == 18 {
        let sa = extrapolate_exec(t, p.samples_a[0], p.samples_a[1]);
        p.samples_a[1] = p.samples_a[0];
        let na = predict_exec(x, p.weight_a, sa);
        update_weight(&mut p.weight_a, delta, sa, x);
        p.samples_a[0] = na;
        na
    } else {
        x
    }
}

/// Runs a mono buffer through the pass, in place.
pub fn decorr_mono_pass(p: &mut DecorrPass, buf: &mut [i32])
    ensures
        ({
            let run = mono_run(old(p).term as int, old(p).delta as int, pass_state(*old(p)), old(buf)@, old(buf)@.len() as nat);
            &&& pass_state(*final(p)) == run.0
            &&& final(buf)@ == run.1
        }),
        final(buf)@.len() == old(buf)@.len(),
        final(p).term == old(p).term,
        final(p).delta == old(p).delta,
{
    let ghost b0 = buf@;
    let ghost p0 = *p;
    let n = buf.len();
    let mut i: usize = 0;
    while i < n
        invariant
            n == b0.len(),
            i <= n,
            buf@.len() == b0.len(),
            p.term == p0.term,
            p.delta == p0.delta,
            ({
                let run = mono_run(p0.term as int, p0.delta as int, pass_state(p0), b0, i as nat);
                &&& pass_state(*p) == run.0
                &&& buf@.subrange(0, i as int) == run.1
            }),
            forall|j: int| i <= j < b0.len() ==> #[trigger] buf@[j] == b0[j],
        decreases n - i,
    {
        let x = buf[i];
        let y = mono_step_exec(p, i, x);
        buf[i] = y;
        proof {
            let run = mono_run(p0.term as int, p0.delta as int, pass_state(p0), b0, i as nat);
            assert(buf@.subrange(0, i + 1) =~= run.1.push(y));
        }
        i += 1;
    }
    assert(buf@ =~= buf@.subrange(0, n as int));
}


/// Terms 17 and 18 predict from the two last outputs `s0`, `s1` of the
/// pass: term 17 extrapolates linearly, `2 s0 - s1`, and term 18 goes half
/// way, `(3 s0 - s1) / 2` rounded down (both modulo 2^32).
pub proof fn lemma_extrapolation(term: int, s0: i32, s1: i32)
    requires
        term == 17 || term == 18,
    ensures
        term == 17 ==> extrapolate(term, s0, s1) as int == wrap32(2 * s0 - s1),
        term == 18 ==> extrapolate(term, s0, s1) as int == wrap32(3 * s0 - s1) / 2,
{
    let c: i32 = if term == 17 { 2 } else { 3 };
    let m = c.wrapping_mul(s0);
    crate::arith::lemma_i32_wrapping_mul(c, s0);
    lemma_i32_wrapping_add(m, s1);
    crate::arith::lemma_wrap_sum(c * s0, -s1, 0x8000_0000);
    let v = m.wrapping_sub(s1);
    lemma_bv_i32(v, 0, 0);
}

/// A sample through a mono pass of term 17 or 18 is its residual plus the
/// weighted prediction `(w * p + 512) / 1024`, where `p` is the linear
/// (`2 s0 - s1`) or the half-way (`(3 s0 - s1) / 2`) extrapolation of the two
/// last outputs `s0`, `s1` of the pass (all modulo 2^32). For example weight
/// 1024, history 100, 50 and residual 0 give 150 for term 17.
pub proof fn lemma_mono_extrapolating_sample(term: int, delta: int, st: PassState, i: int, x: i32)
    requires
        term == 17 || term == 18,
    ensures
        ({
            let s0 = st.2[0];
            let s1 = st.2[1];
            let p = if term == 17 { wrap32(2 * s0 - s1) } else { wrap32(3 * s0 - s1) / 2 };
            mono_step(term, delta, st, i, x).1 as int == wrap32(x + wrap32((st.0 * p + 512) / 1024))
        }),
{
    lemma_extrapolation(term, st.2[0], st.2[1]);
}

/// For a stereo pass of term 17 or 18 each channel is its residual plus
/// its own weighted extrapolation of that channel's two last outputs, as in
/// [`lemma_mono_extrapolating_sample`].
pub proof fn lemma_stereo_extrapolating_samples(term: int, delta: int, st: PassState, i: int, x0: i32, x1: i32)
    requires
        term == 17 || term == 18,
    ensures
        ({
            let pa = if term == 17 { wrap32(2 * st.2[0] - st.2[1]) } else { wrap32(3 * st.2[0] - st.2[1]) / 2 };
            let pb = if term == 17 { wrap32(2 * st.3[0] - st.3[1]) } else { wrap32(3 * st.3[0] - st.3[1]) / 2 };
            let r = stereo_step(term, delta, st, i, x0, x1);
            &&& r.1 as int == wrap32(x0 + wrap32((st.0 * pa + 512) / 1024))
            &&& r.2 as int == wrap32(x1 + wrap32((st.1 * pb + 512) / 1024))
        }),
{
    lemma_extrapolation(term, st.2[0], st.2[1]);
    lemma_extrapolation(term, st.3[0], st.3[1]);
}

} // verus!
