//! Quicksort in the filter style: the first element is the pivot, the tail
//! is split into a fresh sequence of elements strictly below the pivot and
//! a fresh sequence of elements at or above it (ties go to the right
//! group), the two groups are sorted recursively, and the storage is
//! overwritten as left group, pivot, right group. Each level allocates
//! auxiliary storage instead of swapping in place.

use vstd::prelude::*;
use crate::order::lemma_short_sorted;
use crate::order::lemma_sorted_concat_around;
use crate::order::sorted;
use vstd::seq_lib::lemma_multiset_commutative;

verus! {

/// Sorts the vector in place by filter-style quicksort: the result is a
/// sorted permutation of the input.
pub fn quick_sort(nums: &mut Vec<i32>)
    ensures
        final(nums)@.to_multiset() == old(nums)@.to_multiset(),
        sorted(final(nums)@),
    decreases old(nums)@.len(),
{
    broadcast use vstd::seq_lib::group_to_multiset_ensures;
    broadcast use vstd::multiset::group_multiset_axioms;

    let n = nums.len();
    if n < 2 {
        proof {
            lemma_short_sorted(nums@);
        }
        return;
    }
    let pivot = nums[0];
    let mut left: Vec<i32> = Vec::new();
    let mut right: Vec<i32> = Vec::new();
    let mut i: usize = 1;
    proof {
        assert(nums@.subrange(1, 1) =~= Seq::<i32>::empty());
        assert(left@.to_multiset().add(right@.to_multiset()) =~= nums@.subrange(
            1,
            1,
        ).to_multiset());
    }
    while i < n
        invariant
            1 <= i <= n,
            n == nums@.len(),
            pivot == nums@[0],
            left@.to_multiset().add(right@.to_multiset()) == nums@.subrange(1, i as int).to_multiset(),
            forall|k: int| 0 <= k < left@.len() ==> left@[k] < pivot,
            forall|k: int| 0 <= k < right@.len() ==> right@[k] >= pivot,
            left@.len() + right@.len() == i - 1,
        decreases n - i,
    {
        let x = nums[i];
        let ghost l0 = left@;
        let ghost r0 = right@;
        if x < pivot {
            left.push(x);
        } else {
            right.push(x);
        }
        i = i + 1;
        proof {
            broadcast use vstd::multiset::group_multiset_axioms;

            nums@.subrange(1, i - 1).to_multiset_ensures();
            l0.to_multiset_ensures();
            r0.to_multiset_ensures();
            assert(nums@.subrange(1, i as int) =~= nums@.subrange(1, i - 1).push(x));
            if x < pivot {
                assert(left@ =~= l0.push(x));
            } else {
                assert(right@ =~= r0.push(x));
            }
            assert(left@.to_multiset().add(right@.to_multiset()) =~= nums@.subrange(
                1,
                i as int,
            ).to_multiset());
        }
    }
    let ghost l1 = left@;
    let ghost r1 = right@;
    quick_sort(&mut left);
    quick_sort(&mut right);
    proof {
        assert forall|k: int| 0 <= k < left@.len() implies left@[k] <= pivot by {
            assert(left@.contains(left@[k]));
            assert(l1.to_multiset().count(left@[k]) > 0);
            assert(l1.contains(left@[k]));
            let m = choose|m: int| 0 <= m < l1.len() && l1[m] == left@[k];
        }
        assert forall|k: int| 0 <= k < right@.len() implies pivot <= right@[k] by {
            assert(right@.contains(right@[k]));
            assert(r1.to_multiset().count(right@[k]) > 0);
            assert(r1.contains(right@[k]));
            let m = choose|m: int| 0 <= m < r1.len() && r1[m] == right@[k];
        }
        lemma_sorted_concat_around(left@, pivot, right@);
    }
    let ghost l2 = left@;
    let ghost r2 = right@;
    nums.clear();
    nums.append(&mut left);
    nums.push(pivot);
    nums.append(&mut right);
    proof {
        assert(nums@ =~= l2 + seq![pivot] + r2);
        assert(sorted(nums@));
        lemma_multiset_commutative(l2 + seq![pivot], r2);
        lemma_multiset_commutative(l2, seq![pivot]);
        lemma_multiset_commutative(seq![pivot], old(nums)@.subrange(1, n as int));
        assert(old(nums)@ =~= seq![pivot] + old(nums)@.subrange(1, n as int));
        assert(seq![pivot].to_multiset() =~= Seq::<i32>::empty().push(pivot).to_multiset());
        assert(nums@.to_multiset() =~= old(nums)@.to_multiset());
    }
}

} // verus!
