//! Bubble sort: `n` passes over a shrinking prefix, swapping adjacent
//! out-of-order pairs, so that each pass floats the largest remaining
//! element to the end of the still-unsorted window.

use vstd::prelude::*;
use crate::order::sorted;
use crate::quick_two_pointer::swap_at;

verus! {

/// Sorts the vector in place by bubble sort: the result is a sorted
/// permutation of the input.
pub fn bubble_sort(nums: &mut Vec<i32>)
    ensures
        final(nums)@.to_multiset() == old(nums)@.to_multiset(),
        sorted(final(nums)@),
{
    let n = nums.len();
    let mut i: usize = 0;
    while i < n
        invariant
            i <= n,
            n == nums@.len(),
            nums@.to_multiset() == old(nums)@.to_multiset(),
            sorted(nums@.subrange(n - i, n as int)),
            forall|k: int, m: int| 0 <= k < n - i && n - i <= m < n ==> nums@[k] <= nums@[m],
        decreases n - i,
    {
        let mut j: usize = 1;
        while j < n - i
            invariant
                1 <= j,
                j <= n - i || n - i == 0,
                i < n,
                n == nums@.len(),
                nums@.to_multiset() == old(nums)@.to_multiset(),
                sorted(nums@.subrange(n - i, n as int)),
                forall|k: int, m: int| 0 <= k < n - i && n - i <= m < n ==> nums@[k] <= nums@[m],
                forall|k: int| 0 <= k < j && k < n ==> #[trigger] nums@[k] <= nums@[j - 1],
            decreases n - i - j,
        {
            if nums[j - 1] > nums[j] {
                let ghost before = nums@;
                swap_at(nums, j - 1, j);
                proof {
                    assert(nums@.subrange(n - i, n as int) =~= before.subrange(n - i, n as int));
                }
            }
            j = j + 1;
        }
        i = i + 1;
        proof {
            let s = nums@;
            assert forall|k: int, m: int| n - i <= k <= m < n implies s[k] <= s[m] by {
                let w = s.subrange(n - i + 1, n as int);
                if k >= n - i + 1 {
                    assert(s[k] == w[k - (n - i + 1)]);
                    assert(s[m] == w[m - (n - i + 1)]);
                }
            }
            let v = s.subrange(n - i, n as int);
            assert forall|a: int, b: int| 0 <= a <= b < v.len() implies v[a] <= v[b] by {
                assert(v[a] == s[n - i + a]);
                assert(v[b] == s[n - i + b]);
            }
            assert(sorted(v));
        }
    }
    proof {
        assert(nums@.subrange(0, n as int) =~= nums@);
    }
}

} // verus!
