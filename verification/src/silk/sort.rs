//! Insertion sort of 16-bit values (used by the NLSF stabilizer's fallback path).

use vstd::prelude::*;

verus! {

/// `s` is in non-decreasing order.
pub open spec fn sorted_i16(s: Seq<i16>) -> bool {
    forall|i: int, j: int| 0 <= i <= j < s.len() ==> s[i] <= s[j]
}

/// Sorts `a` in place, ascending.
pub fn silk_insertion_sort_increasing_all_values_int16(a: &mut [i16])
    ensures
        sorted_i16(final(a)@),
        final(a)@.to_multiset() == old(a)@.to_multiset(),
        final(a)@.len() == old(a)@.len(),
{
    let l = a.len();
    let mut i: usize = 1;
    if l == 0 {
        return;
    }
    while i < l
        invariant
            1 <= i <= l,
            l == a@.len(),
            sorted_i16(a@.subrange(0, i as int)),
            a@.to_multiset() == old(a)@.to_multiset(),
        decreases l - i,
    {
        let value = a[i];
        let mut j = i;
        let ghost a0 = a@;
        assert(a0.update(i as int, value) =~= a0);
        while j > 0 && value < a[j - 1]
            invariant
                0 <= j <= i < l,
                l == a@.len(),
                a0.len() == l,
                sorted_i16(a0.subrange(0, i as int)),
                value == a0[i as int],
                forall|k: int| 0 <= k < j ==> a@[k] == a0[k],
                forall|k: int| j < k <= i ==> a@[k] == a0[k - 1],
                forall|k: int| i < k < l ==> a@[k] == a0[k],
                forall|k: int| j < k <= i ==> value < a@[k],
                a@.update(j as int, value).to_multiset() == a0.to_multiset(),
            decreases j,
        {
            let prev = a[j - 1];
            proof {
                let s1 = a@.update(j as int, value);
                let s2 = a@.update(j as int, prev).update((j - 1) as int, value);
                assert(s2 =~= s1.update(j as int, prev).update((j - 1) as int, value));
                assert(s1[j as int] == value);
                assert(s1[(j - 1) as int] == prev);
                lemma_swap_multiset(s1, (j - 1) as int, j as int);
                assert(s2 =~= s1.update((j - 1) as int, s1[j as int]).update(j as int, s1[(j - 1) as int]));
            }
            a[j] = prev;
            j -= 1;
        }
        a[j] = value;
        proof {
            assert forall|p: int, q: int| 0 <= p <= q < i + 1 implies #[trigger] a@.subrange(0, i + 1)[p] <= #[trigger] a@.subrange(0, i + 1)[q] by {
                let s = a@;
                assert(s.subrange(0, i + 1)[p] == s[p]);
                assert(s.subrange(0, i + 1)[q] == s[q]);
                if q < j {
                    assert(a0.subrange(0, i as int)[p] == a0[p]);
                    assert(a0.subrange(0, i as int)[q] == a0[q]);
                } else if q == j {
                    if p < j {
                        // a0[p] <= a0[j-1] <= value (loop exit)
                        assert(a0.subrange(0, i as int)[p] == a0[p]);
                        assert(a0.subrange(0, i as int)[(j - 1) as int] == a0[(j - 1) as int]);
                    }
                } else {
                    if p < j {
                        assert(a0.subrange(0, i as int)[p] == a0[p]);
                        assert(a0.subrange(0, i as int)[(q - 1) as int] == a0[(q - 1) as int]);
                    } else if p > j {
                        assert(a0.subrange(0, i as int)[(p - 1) as int] == a0[(p - 1) as int]);
                        assert(a0.subrange(0, i as int)[(q - 1) as int] == a0[(q - 1) as int]);
                    }
                }
            }
        }
        i += 1;
    }
    proof {
        assert(a@.subrange(0, l as int) =~= a@);
    }
}

/// Swapping two positions keeps the multiset of elements.
pub proof fn lemma_swap_multiset(s: Seq<i16>, i: int, j: int)
    requires
        0 <= i < s.len(),
        0 <= j < s.len(),
    ensures
        s.update(i, s[j]).update(j, s[i]).to_multiset() == s.to_multiset(),
{
    broadcast use {
        vstd::seq_lib::to_multiset_update,
        vstd::multiset::group_multiset_axioms,
        vstd::multiset::group_multiset_properties,
        vstd::seq_lib::to_multiset_contains,
    };
    let t = s.update(i, s[j]);
    assert(t.to_multiset() == s.to_multiset().insert(s[j]).remove(s[i]));
    assert(t[j] == (if i == j { s[j] } else { s[j] }));
    assert(t.update(j, s[i]).to_multiset() == t.to_multiset().insert(s[i]).remove(t[j]));
    assert(t.update(j, s[i]).to_multiset() =~= s.to_multiset());
}

} // verus!
