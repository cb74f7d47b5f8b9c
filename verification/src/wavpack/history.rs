//! `ID_DECORR_SAMPLES`: the stored sample histories of the decorrelation
//! passes, read as 16-bit logs in reverse pass order.

use vstd::prelude::*;
use crate::wavpack::block::{le_i16_at, read_i16};
use crate::wavpack::decorr::{DecorrPass, MAX_TERM};
use crate::wavpack::logs::{exp2s, wp_exp2s};

verus! {

/// How many stored 16-bit values the history of a pass with this term takes:
/// two per channel for the extrapolating terms (17, 18), one per channel for
/// the negative (cross-channel) terms, and `term` per channel otherwise.
pub open spec fn history_reads(term: i32, is_mono: bool) -> int {
    if term > 8 {
        if is_mono { 2 } else { 4 }
    } else if term < 0 {
        2
    } else if is_mono {
        term as int
    } else {
        2 * term
    }
}

/// The position, among the values read for one pass, of the value that fills
/// `samples_a[m]`; -1 where that entry is cleared to zero.
pub open spec fn slot_a(term: i32, is_mono: bool, m: int) -> int {
    if term > 8 {
        if m < 2 { m } else { -1 }
    } else if term < 0 {
        if m == 0 { 0 } else { -1 }
    } else if m < term {
        if is_mono { m } else { 2 * m }
    } else {
        -1
    }
}

/// As [`slot_a`], for `samples_b`.
pub open spec fn slot_b(term: i32, is_mono: bool, m: int) -> int {
    if term > 8 {
        if !is_mono && m < 2 { 2 + m } else { -1 }
    } else if term < 0 {
        if m == 0 { 1 } else { -1 }
    } else if !is_mono && m < term {
        2 * m + 1
    } else {
        -1
    }
}

/// The history entry restored from the value at position `slot` after byte
/// `ptr` (a stored log, 0 past the end of the data), or zero for no slot.
pub open spec fn stored_sample(data: Seq<u8>, ptr: int, slot: int) -> i32 {
    if slot < 0 { 0 } else { exp2s(le_i16_at(data, ptr + 2 * slot)) }
}

/// The byte position at which the `j`-th pass counted from the last one starts
/// reading its history.
pub open spec fn history_ptr(passes: Seq<DecorrPass>, is_mono: bool, j: int) -> int
    decreases j,
{
    if j <= 0 {
        0
    } else {
        history_ptr(passes, is_mono, j - 1) + 2 * history_reads(passes[passes.len() - j].term, is_mono)
    }
}

/// `p` is `q` with its histories restored from the values at `ptr`.
pub open spec fn history_restored(p: DecorrPass, q: DecorrPass, data: Seq<u8>, ptr: int, is_mono: bool) -> bool {
    &&& p.term == q.term && p.delta == q.delta
    &&& p.weight_a == q.weight_a && p.weight_b == q.weight_b
    &&& forall|m: int| 0 <= m < 8 ==> {
        &&& #[trigger] p.samples_a@[m] == stored_sample(data, ptr, slot_a(q.term, is_mono, m))
        &&& p.samples_b@[m] == stored_sample(data, ptr, slot_b(q.term, is_mono, m))
    }
}

/// After the walk has passed the `t`-th pass from the end: that pass started
/// within the data (or was the first one read) and has its histories restored.
pub open spec fn pass_done(cur: Seq<DecorrPass>, p0: Seq<DecorrPass>, data: Seq<u8>, is_mono: bool, t: int) -> bool {
    let n = p0.len() as int;
    let pt = history_ptr(p0, is_mono, t);
    &&& (t == 0 || pt <= data.len())
    &&& history_restored(cur[n - 1 - t], p0[n - 1 - t], data, pt, is_mono)
}

proof fn lemma_history_ptr_monotone(passes: Seq<DecorrPass>, is_mono: bool, i: int, j: int)
    requires
        0 <= i <= j,
    ensures
        history_ptr(passes, is_mono, i) <= history_ptr(passes, is_mono, j),
    decreases j - i,
{
    if i < j {
        lemma_history_ptr_monotone(passes, is_mono, i, j - 1);
    }
}

fn read_stored(data: &[u8], ptr: usize) -> (r: i32)
    ensures
        r == exp2s(le_i16_at(data@, ptr as int)),
{
    wp_exp2s(read_i16(data, ptr))
}

/// Clears both histories of `p` and fills them from the values starting at
/// byte `ptr`; returns the position after the values read.
fn restore_history(data: &[u8], p: &mut DecorrPass, ptr: usize, is_mono: bool) -> (next: usize)
    requires
        ptr <= usize::MAX - 64,
    ensures
        next == ptr + 2 * history_reads(old(p).term, is_mono),
        history_restored(*final(p), *old(p), data@, ptr as int, is_mono),
{
    let ghost q = *p;
    p.samples_a = [0i32; 8];
    p.samples_b = [0i32; 8];
    let term = p.term;
    if term > MAX_TERM as i32 {
        p.samples_a[0] = read_stored(data, ptr);
        p.samples_a[1] = read_stored(data, ptr + 2);
        if !is_mono {
            p.samples_b[0] = read_stored(data, ptr + 4);
            p.samples_b[1] = read_stored(data, ptr + 6);
            assert(history_restored(*p, q, data@, ptr as int, is_mono));
            ptr + 8
        } else {
            assert(history_restored(*p, q, data@, ptr as int, is_mono));
            ptr + 4
        }
    } else if term < 0 {
        p.samples_a[0] = read_stored(data, ptr);
        p.samples_b[0] = read_stored(data, ptr + 2);
        assert(history_restored(*p, q, data@, ptr as int, is_mono));
        ptr + 4
    } else {
        let cnt = term as usize;
        let mut at = ptr;
        let mut m: usize = 0;
        while m < cnt
            invariant
                0 <= term <= 8,
                cnt == term,
                m <= cnt,
                at == ptr + (if is_mono { 2 * m } else { 4 * m }),
                ptr <= usize::MAX - 64,
                p.term == q.term && p.delta == q.delta,
                p.weight_a == q.weight_a && p.weight_b == q.weight_b,
                q.term == term,
                forall|k: int| 0 <= k < 8 ==> {
                    &&& #[trigger] p.samples_a@[k] == (if k < m { stored_sample(data@, ptr as int, slot_a(term, is_mono, k)) } else { 0 })
                    &&& p.samples_b@[k] == (if k < m { stored_sample(data@, ptr as int, slot_b(term, is_mono, k)) } else { 0 })
                },
            decreases cnt - m,
        {
            let ghost pa = p.samples_a@;
            let ghost pb = p.samples_b@;
            let va = read_stored(data, at);
            assert(va == stored_sample(data@, ptr as int, slot_a(term, is_mono, m as int)));
            p.samples_a[m] = va;
            assert(p.samples_a@ == pa.update(m as int, va));
            if !is_mono {
                let vb = read_stored(data, at + 2);
                assert(vb == stored_sample(data@, ptr as int, slot_b(term, is_mono, m as int)));
                p.samples_b[m] = vb;
                assert(p.samples_b@ == pb.update(m as int, vb));
                at = at + 4;
            } else {
                assert(p.samples_b@ == pb);
                at = at + 2;
            }
            assert forall|k: int| 0 <= k < 8 implies {
                &&& #[trigger] p.samples_a@[k] == (if k < m + 1 { stored_sample(data@, ptr as int, slot_a(term, is_mono, k)) } else { 0 })
                &&& p.samples_b@[k] == (if k < m + 1 { stored_sample(data@, ptr as int, slot_b(term, is_mono, k)) } else { 0 })
            } by {
                if k != m {
                    assert(p.samples_a@[k] == pa[k]);
                    assert(p.samples_b@[k] == pb[k]);
                }
            }
            m += 1;
        }
        at
    }
}

/// Walking the passes from the last to the first,
/// each gets its histories cleared and refilled from the stored logs (values
/// past the end of the data read as zero); the walk stops after the first pass
/// whose values reach past the end, leaving the passes before it untouched.
pub fn parse_decorr_samples(data: &[u8], passes: &mut [DecorrPass], is_mono: bool)
    requires
        data@.len() <= isize::MAX,
    ensures
        final(passes)@.len() == old(passes)@.len(),
        forall|j: int| 0 <= j < old(passes)@.len() ==> {
            let ptr = history_ptr(old(passes)@, is_mono, j);
            if j == 0 || ptr <= data@.len() {
                history_restored(
                    #[trigger] final(passes)@[old(passes)@.len() - 1 - j],
                    old(passes)@[old(passes)@.len() - 1 - j],
                    data@,
                    ptr,
                    is_mono,
                )
            } else {
                final(passes)@[old(passes)@.len() - 1 - j] == old(passes)@[old(passes)@.len() - 1 - j]
            }
        },
{
    let ghost p0 = passes@;
    let n = passes.len();
    let mut ptr: usize = 0;
    let mut j: usize = 0;
    while j < n
        invariant_except_break
            ptr <= data@.len(),
        invariant
            j <= n,
            n == p0.len(),
            passes@.len() == n,
            data@.len() <= isize::MAX,
            ptr == history_ptr(p0, is_mono, j as int),
            forall|t: int| 0 <= t < j ==> #[trigger] pass_done(passes@, p0, data@, is_mono, t),
            forall|t: int| j <= t < n ==> #[trigger] passes@[n - 1 - t] == p0[n - 1 - t],
        ensures
            forall|t: int| j <= t < n ==> #[trigger] passes@[n - 1 - t] == p0[n - 1 - t],
            forall|t: int| j <= t < n ==> t != 0 && history_ptr(p0, is_mono, t) > data@.len(),
            forall|t: int| 0 <= t < j ==> #[trigger] pass_done(passes@, p0, data@, is_mono, t),
        decreases n - j,
    {
        let ghost before = passes@;
        let idx = n - 1 - j;
        let mut p = passes[idx];
        assert(p == p0[n - 1 - j]);
        let next = restore_history(data, &mut p, ptr, is_mono);
        assert(history_restored(p, p0[n - 1 - j], data@, history_ptr(p0, is_mono, j as int), is_mono));
        passes[idx] = p;
        assert(next == history_ptr(p0, is_mono, j as int + 1));
        assert forall|t: int| 0 <= t < j + 1 implies #[trigger] pass_done(passes@, p0, data@, is_mono, t) by {
            if t < j {
                assert(pass_done(before, p0, data@, is_mono, t));
                assert(passes@[n - 1 - t] == before[n - 1 - t]);
            } else {
                assert(passes@[n - 1 - t] == p);
            }
        }
        assert forall|t: int| j + 1 <= t < n implies #[trigger] passes@[n - 1 - t] == p0[n - 1 - t] by {
            assert(passes@[n - 1 - t] == before[n - 1 - t]);
        }
        ptr = next;
        j += 1;
        if ptr > data.len() {
            proof {
                assert forall|t: int| j <= t < n implies t != 0 && history_ptr(p0, is_mono, t) > data@.len() by {
                    lemma_history_ptr_monotone(p0, is_mono, j as int, t);
                }
            }
            break;
        }
    }
    assert forall|t: int| 0 <= t < n implies {
        let ptr = history_ptr(p0, is_mono, t);
        if t == 0 || ptr <= data@.len() {
            history_restored(#[trigger] passes@[n - 1 - t], p0[n - 1 - t], data@, ptr, is_mono)
        } else {
            passes@[n - 1 - t] == p0[n - 1 - t]
        }
    } by {
        if t < j {
            assert(pass_done(passes@, p0, data@, is_mono, t));
        }
    }
}

} // verus!
