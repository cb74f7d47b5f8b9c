//! NLSF stabilizer: moves NLSFs apart (and away from the borders 0 and 1 in
//! Q15) where they are closer than the minimum spacing, by repeatedly widening
//! the tightest gap around its center; when that does not converge, falls back
//! to sorting and clamping.

use vstd::prelude::*;
use crate::arith::clamp;
use crate::silk::macros::{fx_rshift_round, silk_limit, silk_max_16, silk_min_16, silk_rshift_round, silk_sat16};
use crate::silk::sort::{silk_insertion_sort_increasing_all_values_int16, sorted_i16};

verus! {

/// Passes of the gap-widening step before the fallback.
pub const MAX_LOOPS: usize = 20;

/// The `i`-th gap of `x` (of order `l`) beyond its minimum spacing: the first
/// value above 0, each value above its predecessor, 1.0 (Q15) above the last.
pub open spec fn gap(x: Seq<i16>, d: Seq<i16>, l: int, i: int) -> int {
    if i == 0 {
        x[0] - d[0]
    } else if i < l {
        x[i] - (x[i - 1] + d[i])
    } else {
        0x8000 - (x[l - 1] + d[l])
    }
}

/// The smallest of the first `k` gaps and the first index where it occurs.
pub open spec fn min_gap(x: Seq<i16>, d: Seq<i16>, l: int, k: int) -> (int, int)
    decreases k,
{
    if k <= 1 {
        (gap(x, d, l, 0), 0)
    } else {
        let (m, j) = min_gap(x, d, l, k - 1);
        let g = gap(x, d, l, k - 1);
        if g < m { (g, k - 1) } else { (m, j) }
    }
}

/// The sum of `d[a..b]`.
pub open spec fn spacing_sum(d: Seq<i16>, a: int, b: int) -> int
    decreases b - a,
{
    if b <= a { 0 } else { spacing_sum(d, a, b - 1) + d[b - 1] }
}

/// `silk_LIMIT`: `a` clamped between two limits given in either order.
pub open spec fn limit(a: int, l1: int, l2: int) -> int {
    if l1 > l2 { clamp(a, l2, l1) } else { clamp(a, l1, l2) }
}

/// One widening step at gap `idx`: a border gap moves the outer value to its
/// bound; an inner gap moves the two values apart around their (rounded)
/// center, the center kept within the room the other spacings leave.
pub open spec fn widen(x: Seq<i16>, d: Seq<i16>, l: int, idx: int) -> Seq<i16> {
    if idx == 0 {
        x.update(0, d[0])
    } else if idx == l {
        x.update(l - 1, (0x8000 - d[l]) as i16)
    } else {
        let half = d[idx] / 2;
        let min_c = spacing_sum(d, 0, idx) + half;
        let max_c = 0x8000 - spacing_sum(d, idx + 1, l + 1) - half;
        let c = limit(fx_rshift_round(x[idx - 1] + x[idx], 1), min_c, max_c) as i16;
        let lo = (c - half) as i16;
        let hi = (lo + d[idx]) as i16;
        x.update(idx - 1, lo).update(idx, hi)
    }
}

/// `n` passes of the widening loop: the values, and whether some pass found
/// every gap non-negative (and stopped).
pub open spec fn widen_passes(x: Seq<i16>, d: Seq<i16>, l: int, n: nat) -> (Seq<i16>, bool)
    decreases n,
{
    if n == 0 {
        (x, false)
    } else {
        let (y, done) = widen_passes(x, d, l, (n - 1) as nat);
        if done {
            (y, true)
        } else if min_gap(y, d, l, l + 1).0 >= 0 {
            (y, true)
        } else {
            (widen(y, d, l, min_gap(y, d, l, l + 1).1), false)
        }
    }
}

/// The fallback's forward sweep over indices `1..k`: each value raised to at
/// least its predecessor plus the spacing (saturated to 16 bits).
pub open spec fn sweep_up(a: Seq<i16>, d: Seq<i16>, k: int) -> Seq<i16>
    decreases k,
{
    if k <= 1 {
        a
    } else {
        let b = sweep_up(a, d, k - 1);
        let i = k - 1;
        let floor = clamp(b[i - 1] + d[i], -0x8000, 0x7fff) as i16;
        b.update(i, if b[i] > floor { b[i] } else { floor })
    }
}

/// The fallback's backward sweep over `t` indices from `l - 2` down: each value
/// lowered to at most its successor minus the spacing.
pub open spec fn sweep_down(a: Seq<i16>, d: Seq<i16>, l: int, t: int) -> Seq<i16>
    decreases t,
{
    if t <= 0 {
        a
    } else {
        let b = sweep_down(a, d, l, t - 1);
        let i = l - 1 - t;
        let ceil = (b[i + 1] - d[i + 1]) as i16;
        b.update(i, if b[i] < ceil { b[i] } else { ceil })
    }
}

/// The fallback on sorted values `s`: first value at least `d[0]`, the
/// forward sweep, last value at most `1 - d[l]`, the backward sweep.
pub open spec fn fallback(s: Seq<i16>, d: Seq<i16>, l: int) -> Seq<i16> {
    let a0 = s.update(0, if s[0] > d[0] { s[0] } else { d[0] });
    let a1 = sweep_up(a0, d, l);
    let top = (0x8000 - d[l]) as i16;
    let a2 = a1.update(l - 1, if a1[l - 1] < top { a1[l - 1] } else { top });
    sweep_down(a2, d, l, l - 1)
}

proof fn lemma_spacing_sum_bound(d: Seq<i16>, a: int, b: int)
    requires
        0 <= a,
        b <= d.len(),
    ensures
        -0x8000 * (if b > a { b - a } else { 0 }) <= spacing_sum(d, a, b) <= 0x7fff * (if b > a { b - a } else { 0 }),
    decreases b - a,
{
    if b > a {
        lemma_spacing_sum_bound(d, a, b - 1);
    }
}

proof fn lemma_min_gap_index(x: Seq<i16>, d: Seq<i16>, l: int, k: int)
    requires
        1 <= k,
    ensures
        0 <= min_gap(x, d, l, k).1 < k,
        min_gap(x, d, l, k).0 == gap(x, d, l, min_gap(x, d, l, k).1),
        forall|i: int| 0 <= i < k ==> min_gap(x, d, l, k).0 <= #[trigger] gap(x, d, l, i),
    decreases k,
{
    if k > 1 {
        lemma_min_gap_index(x, d, l, k - 1);
    }
}

proof fn lemma_sweep_up_len(a: Seq<i16>, d: Seq<i16>, k: int)
    requires
        k <= a.len(),
    ensures
        sweep_up(a, d, k).len() == a.len(),
    decreases k,
{
    if k > 1 {
        lemma_sweep_up_len(a, d, k - 1);
    }
}

proof fn lemma_sweep_down_len(a: Seq<i16>, d: Seq<i16>, l: int, t: int)
    requires
        t < l <= a.len(),
    ensures
        sweep_down(a, d, l, t).len() == a.len(),
    decreases t,
{
    if t > 0 {
        lemma_sweep_down_len(a, d, l, t - 1);
    }
}

/// The smallest gap and its first index, scanning gaps `0..=l`.
fn find_min_gap(x: &[i16], d: &[i16], l: usize) -> (r: (i32, usize))
    requires
        1 <= l,
        x@.len() >= l,
        d@.len() > l,
    ensures
        r.0 == min_gap(x@, d@, l as int, l as int + 1).0,
        r.1 == min_gap(x@, d@, l as int, l as int + 1).1,
{
    let mut min_diff: i32 = x[0] as i32 - d[0] as i32;
    let mut idx: usize = 0;
    let mut i: usize = 1;
    while i < l
        invariant
            1 <= i <= l,
            x@.len() >= l,
            d@.len() > l,
            (min_diff as int, idx as int) == min_gap(x@, d@, l as int, i as int),
        decreases l - i,
    {
        let diff = x[i] as i32 - (x[i - 1] as i32 + d[i] as i32);
        if diff < min_diff {
            min_diff = diff;
            idx = i;
        }
        i += 1;
    }
    let diff = 32768i32 - (x[l - 1] as i32 + d[l] as i32);
    if diff < min_diff {
        min_diff = diff;
        idx = l;
    }
    (min_diff, idx)
}

/// One widening step at the gap `idx` (see [`widen`]).
fn widen_exec(x: &mut [i16], d: &[i16], l: usize, idx: usize)
    requires
        1 <= l <= 0x7fff,
        old(x)@.len() >= l,
        d@.len() > l,
        idx <= l,
    ensures
        final(x)@ == widen(old(x)@, d@, l as int, idx as int),
{
    if idx == 0 {
        x[0] = d[0];
    } else if idx == l {
        x[l - 1] = (32768i32 - d[l] as i32) as i16;
    } else {
        let half = d[idx] as i32 >> 1u32;
        assert(half == d@[idx as int] / 2) by {
            crate::arith::lemma_bv_i32(d@[idx as int] as i32, 0, 0);
        }
        let mut min_center: i32 = 0;
        let mut k: usize = 0;
        while k < idx
            invariant
                k <= idx < l <= 0x7fff,
                d@.len() > l,
                min_center == spacing_sum(d@, 0, k as int),
            decreases idx - k,
        {
            proof { lemma_spacing_sum_bound(d@, 0, k as int + 1); }
            min_center += d[k] as i32;
            k += 1;
        }
        proof { lemma_spacing_sum_bound(d@, 0, idx as int); }
        min_center += half;
        let mut max_center: i32 = 32768;
        let mut k: usize = l;
        while k > idx
            invariant
                idx <= k <= l,
                l <= 0x7fff,
                d@.len() > l,
                max_center == 0x8000 - spacing_sum(d@, k as int + 1, l as int + 1),
            decreases k - idx,
        {
            proof {
                lemma_spacing_sum_bound(d@, k as int, l as int + 1);
                assert(spacing_sum(d@, k as int, l as int + 1) == spacing_sum(d@, k as int + 1, l as int + 1)
                    + d@[k as int]) by {
                    lemma_spacing_sum_front(d@, k as int, l as int + 1);
                }
            }
            max_center -= d[k] as i32;
            k -= 1;
        }
        proof { lemma_spacing_sum_bound(d@, idx as int + 1, l as int + 1); }
        max_center -= half;
        let center = silk_limit(
            silk_rshift_round(x[idx - 1] as i32 + x[idx] as i32, 1),
            min_center,
            max_center,
        ) as i16;
        let lo = (center as i32 - half) as i16;
        x[idx - 1] = lo;
        x[idx] = (lo as i32 + d[idx] as i32) as i16;
    }
}

proof fn lemma_spacing_sum_front(d: Seq<i16>, a: int, b: int)
    requires
        a < b,
    ensures
        spacing_sum(d, a, b) == spacing_sum(d, a + 1, b) + d[a],
    decreases b - a,
{
    if b - 1 > a {
        lemma_spacing_sum_front(d, a, b - 1);
        assert(spacing_sum(d, a + 1, b) == spacing_sum(d, a + 1, b - 1) + d[b - 1]);
    } else {
        assert(spacing_sum(d, a, b) == spacing_sum(d, a, a) + d[a]);
        assert(spacing_sum(d, a + 1, b) == 0);
    }
}

/// Minimum spacings that can all be met within 1.0 (Q15): none negative, the
/// top one positive, and together at most 1.0.
pub open spec fn spacings_fit(d: Seq<i16>, l: int) -> bool {
    &&& d.len() > l
    &&& forall|k: int| 0 <= k <= l ==> d[k] >= 0
    &&& d[l] >= 1
    &&& spacing_sum(d, 0, l + 1) <= 0x8000
}

/// Partial sums of non-negative spacings grow with their end.
proof fn lemma_spacing_sum_mono(d: Seq<i16>, i: int, j: int)
    requires
        0 <= i <= j,
        j <= d.len(),
        forall|k: int| 0 <= k < j ==> d[k] >= 0,
    ensures
        spacing_sum(d, 0, i) <= spacing_sum(d, 0, j),
    decreases j - i,
{
    if i < j {
        lemma_spacing_sum_mono(d, i, j - 1);
    }
}

/// The forward sweep leaves every swept value at least the sum of the
/// spacings up to and including it.
proof fn lemma_sweep_up_floor(a: Seq<i16>, d: Seq<i16>, l: int, k: int)
    requires
        1 <= k <= l,
        a.len() >= l,
        spacings_fit(d, l),
        a[0] >= d[0],
    ensures
        sweep_up(a, d, k).len() == a.len(),
        forall|i: int| 0 <= i < k ==> #[trigger] sweep_up(a, d, k)[i] >= spacing_sum(d, 0, i + 1),
        forall|i: int| k <= i < a.len() ==> #[trigger] sweep_up(a, d, k)[i] == a[i],
    decreases k,
{
    if k > 1 {
        lemma_sweep_up_floor(a, d, l, k - 1);
        let b = sweep_up(a, d, k - 1);
        let i = k - 1;
        lemma_spacing_sum_mono(d, i + 1, l + 1);
        lemma_spacing_sum_mono(d, i + 1, l);
        assert(spacing_sum(d, 0, i + 1) == spacing_sum(d, 0, i) + d[i]);
        assert(spacing_sum(d, 0, l + 1) == spacing_sum(d, 0, l) + d[l]);
        assert(b[i - 1] + d[i] >= spacing_sum(d, 0, i + 1));
        assert(spacing_sum(d, 0, i + 1) <= 0x7fff);
    } else {
        assert(spacing_sum(d, 0, 1) == spacing_sum(d, 0, 0) + d[0]);
    }
}

/// The backward sweep over `t` indices keeps every value at least the sum of
/// the spacings up to it, and leaves each swept value at least its spacing
/// below its successor; the last value stays at most `1.0 - d[l]`.
proof fn lemma_sweep_down_gaps(a: Seq<i16>, d: Seq<i16>, l: int, t: int)
    requires
        0 <= t <= l - 1,
        a.len() >= l,
        spacings_fit(d, l),
        forall|i: int| 0 <= i < l ==> #[trigger] a[i] >= spacing_sum(d, 0, i + 1),
        a[l - 1] + d[l] <= 0x8000,
    ensures
        sweep_down(a, d, l, t).len() == a.len(),
        forall|i: int| 0 <= i < l ==> #[trigger] sweep_down(a, d, l, t)[i] >= spacing_sum(d, 0, i + 1),
        forall|i: int| 0 <= i < l - 1 - t ==> #[trigger] sweep_down(a, d, l, t)[i] == a[i],
        sweep_down(a, d, l, t)[l - 1] == a[l - 1],
        forall|i: int| l - 1 - t <= i < l - 1 ==> #[trigger] sweep_down(a, d, l, t)[i] + d[i + 1] <= sweep_down(a, d, l, t)[i + 1],
    decreases t,
{
    if t > 0 {
        lemma_sweep_down_gaps(a, d, l, t - 1);
        let b = sweep_down(a, d, l, t - 1);
        let i = l - 1 - t;
        assert(spacing_sum(d, 0, i + 2) == spacing_sum(d, 0, i + 1) + d[i + 1]);
        assert(b[i + 1] - d[i + 1] >= spacing_sum(d, 0, i + 1));
        lemma_spacing_sum_mono(d, 0, i + 1);
        assert(spacing_sum(d, 0, 0) == 0);
        assert(b[i + 1] - d[i + 1] <= 0x7fff);
    }
}

/// When the spacings fit, the fallback meets every minimum spacing.
pub proof fn lemma_fallback_spaced(s: Seq<i16>, d: Seq<i16>, l: int)
    requires
        1 <= l,
        s.len() >= l,
        spacings_fit(d, l),
    ensures
        min_gap(fallback(s, d, l), d, l, l + 1).0 >= 0,
{
    let a0 = s.update(0, if s[0] > d[0] { s[0] } else { d[0] });
    lemma_sweep_up_floor(a0, d, l, l);
    let a1 = sweep_up(a0, d, l);
    let top = (0x8000 - d[l]) as i16;
    assert(spacing_sum(d, 0, l + 1) == spacing_sum(d, 0, l) + d[l]);
    let a2 = a1.update(l - 1, if a1[l - 1] < top { a1[l - 1] } else { top });
    assert(forall|i: int| 0 <= i < l ==> #[trigger] a2[i] >= spacing_sum(d, 0, i + 1));
    lemma_sweep_down_gaps(a2, d, l, l - 1);
    let x = fallback(s, d, l);
    assert(x == sweep_down(a2, d, l, l - 1));
    assert(spacing_sum(d, 0, 1) == spacing_sum(d, 0, 0) + d[0]);
    assert forall|i: int| 0 <= i < l + 1 implies gap(x, d, l, i) >= 0 by {
        if i == 0 {
            assert(x[0] >= spacing_sum(d, 0, 1));
        } else if i < l {
            assert(x[i - 1] + d[i] <= x[i]);
        }
    }
    lemma_min_gap_index(x, d, l, l + 1);
}

/// The first `l` entries of `nlsf_q15` are the values, `n_delta_min_q15`
/// the `l + 1` minimum spacings (the two borders included). Up to
/// [`MAX_LOOPS`] passes widen the tightest gap ([`widen_passes`]); the values
/// are then returned once every gap is non-negative, and otherwise the first
/// `l` entries are sorted and clamped ([`fallback`]). Entries from `l` on are
/// never touched. When the
/// spacings fit within 1.0 ([`spacings_fit`]) every spacing is met either way.
pub fn silk_nlsf_stabilize(nlsf_q15: &mut [i16], n_delta_min_q15: &[i16], l: usize)
    requires
        1 <= l <= 0x7fff,
        old(nlsf_q15)@.len() >= l,
        n_delta_min_q15@.len() > l,
    ensures
        ({
            let (y, converged) = widen_passes(old(nlsf_q15)@, n_delta_min_q15@, l as int, MAX_LOOPS as nat);
            &&& converged ==> final(nlsf_q15)@ == y
            &&& converged ==> min_gap(final(nlsf_q15)@, n_delta_min_q15@, l as int, l as int + 1).0 >= 0
            &&& !converged ==> exists|s: Seq<i16>|
                #![trigger fallback(s, n_delta_min_q15@, l as int)]
                sorted_i16(s.subrange(0, l as int)) && s.subrange(0, l as int).to_multiset() == y.subrange(0, l as int).to_multiset()
                    && s.len() == old(nlsf_q15)@.len()
                    && s.subrange(l as int, s.len() as int) == old(nlsf_q15)@.subrange(l as int, old(nlsf_q15)@.len() as int)
                    && final(nlsf_q15)@ == fallback(s, n_delta_min_q15@, l as int)
        }),
        final(nlsf_q15)@.len() == old(nlsf_q15)@.len(),
        final(nlsf_q15)@.subrange(l as int, old(nlsf_q15)@.len() as int) == old(nlsf_q15)@.subrange(l as int, old(nlsf_q15)@.len() as int),
        min_gap(old(nlsf_q15)@, n_delta_min_q15@, l as int, l as int + 1).0 >= 0 ==> final(nlsf_q15)@ == old(nlsf_q15)@,
        spacings_fit(n_delta_min_q15@, l as int) ==> min_gap(final(nlsf_q15)@, n_delta_min_q15@, l as int, l as int + 1).0 >= 0,
{
    let ghost x0 = nlsf_q15@;
    let ghost d = n_delta_min_q15@;
    let mut converged = false;
    let mut lp: usize = 0;
    while lp < MAX_LOOPS
        invariant_except_break
            !converged,
            widen_passes(x0, d, l as int, lp as nat) == (nlsf_q15@, false),
        invariant
            lp <= MAX_LOOPS,
            1 <= l <= 0x7fff,
            nlsf_q15@.len() == x0.len(),
            x0.len() >= l,
            d == n_delta_min_q15@,
            d.len() > l,
            forall|j: int| l <= j < x0.len() ==> #[trigger] nlsf_q15@[j] == x0[j],
        ensures
            converged ==> widen_passes(x0, d, l as int, MAX_LOOPS as nat) == (nlsf_q15@, true),
            !converged ==> widen_passes(x0, d, l as int, MAX_LOOPS as nat) == (nlsf_q15@, false),
            converged ==> min_gap(nlsf_q15@, d, l as int, l as int + 1).0 >= 0,
        decreases MAX_LOOPS - lp,
    {
        let (min_diff, idx) = find_min_gap(nlsf_q15, n_delta_min_q15, l);
        if min_diff >= 0 {
            converged = true;
            proof { lemma_widen_passes_done(x0, d, l as int, (lp + 1) as nat, MAX_LOOPS as nat); }
            break;
        }
        proof { lemma_min_gap_index(nlsf_q15@, d, l as int, l as int + 1); }
        widen_exec(nlsf_q15, n_delta_min_q15, l, idx);
        lp += 1;
    }
    if !converged {
        let ghost y = nlsf_q15@;
        let mut head: Vec<i16> = Vec::new();
        let mut k: usize = 0;
        while k < l
            invariant
                k <= l,
                nlsf_q15@ == y,
                y.len() >= l,
                head@ == y.subrange(0, k as int),
            decreases l - k,
        {
            head.push(nlsf_q15[k]);
            k += 1;
        }
        silk_insertion_sort_increasing_all_values_int16(head.as_mut_slice());
        let mut k: usize = 0;
        while k < l
            invariant
                k <= l,
                head@.len() == l,
                nlsf_q15@.len() == y.len(),
                y.len() >= l,
                forall|j: int| 0 <= j < y.len() ==> #[trigger] nlsf_q15@[j] == (if j < k { head@[j] } else { y[j] }),
            decreases l - k,
        {
            nlsf_q15[k] = head[k];
            k += 1;
        }
        let ghost s = nlsf_q15@;
        assert(s.subrange(0, l as int) =~= head@);
        assert(s.subrange(l as int, s.len() as int) =~= y.subrange(l as int, y.len() as int));
        nlsf_q15[0] = silk_max_16(nlsf_q15[0], n_delta_min_q15[0]);
        let mut i: usize = 1;
        while i < l
            invariant
                1 <= i <= l,
                nlsf_q15@.len() == x0.len(),
                x0.len() >= l,
                d == n_delta_min_q15@,
                d.len() > l,
                s.len() == x0.len(),
                forall|j: int| l <= j < x0.len() ==> #[trigger] nlsf_q15@[j] == x0[j],
                nlsf_q15@ == sweep_up(s.update(0, if s[0] > d[0] { s[0] } else { d[0] }), d, i as int),
            decreases l - i,
        {
            let floor = silk_sat16(nlsf_q15[i - 1] as i32 + n_delta_min_q15[i] as i32) as i16;
            nlsf_q15[i] = silk_max_16(nlsf_q15[i], floor);
            proof { lemma_sweep_up_len(s.update(0, if s[0] > d[0] { s[0] } else { d[0] }), d, i as int); }
            i += 1;
        }
        let top = (32768i32 - n_delta_min_q15[l] as i32) as i16;
        nlsf_q15[l - 1] = silk_min_16(nlsf_q15[l - 1], top);
        let ghost a2 = nlsf_q15@;
        let mut t: usize = 0;
        while t + 1 < l
            invariant
                t + 1 <= l,
                nlsf_q15@.len() == x0.len(),
                x0.len() >= l,
                d == n_delta_min_q15@,
                d.len() > l,
                a2.len() == x0.len(),
                forall|j: int| l <= j < x0.len() ==> #[trigger] nlsf_q15@[j] == x0[j],
                nlsf_q15@ == sweep_down(a2, d, l as int, t as int),
            decreases l - t,
        {
            let i = l - 2 - t;
            let ceil = (nlsf_q15[i + 1] as i32 - n_delta_min_q15[i + 1] as i32) as i16;
            nlsf_q15[i] = silk_min_16(nlsf_q15[i], ceil);
            proof { lemma_sweep_down_len(a2, d, l as int, t as int); }
            t += 1;
        }
        proof {
            assert(nlsf_q15@ == fallback(s, d, l as int));
            if spacings_fit(d, l as int) {
                lemma_fallback_spaced(s, d, l as int);
            }
        }
    }
    proof {
        if min_gap(x0, d, l as int, l as int + 1).0 >= 0 {
            lemma_widen_passes_done(x0, d, l as int, 1, MAX_LOOPS as nat);
        }
    }
    assert(nlsf_q15@.subrange(l as int, x0.len() as int) =~= x0.subrange(l as int, x0.len() as int));
}

proof fn lemma_widen_passes_done(x: Seq<i16>, d: Seq<i16>, l: int, n: nat, m: nat)
    requires
        1 <= n <= m,
        !widen_passes(x, d, l, (n - 1) as nat).1,
        min_gap(widen_passes(x, d, l, (n - 1) as nat).0, d, l, l + 1).0 >= 0,
    ensures
        widen_passes(x, d, l, m) == (widen_passes(x, d, l, (n - 1) as nat).0, true),
    decreases m,
{
    if m > n {
        lemma_widen_passes_done(x, d, l, n, (m - 1) as nat);
    }
}

} // verus!
