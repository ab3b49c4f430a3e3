//! In-place quicksort in the two-pointer style: a partition step walks a
//! cursor down from the top of the range and one up from the bottom,
//! swapping out-of-place pairs, then swaps the pivot (always the first
//! element of the range) into its final position. The recursion skips the
//! left half whenever the pivot lands on position zero, so the unsigned
//! index arithmetic can never underflow.

use vstd::prelude::*;
use crate::order::lemma_frame_multiset;
use crate::order::lemma_sorted_concat_around;
use crate::order::lemma_swap_multiset;
use crate::order::sorted;

verus! {

/// Swaps the elements at two positions.
pub fn swap_at(v: &mut Vec<i32>, i: usize, j: usize)
    requires
        i < old(v)@.len(),
        j < old(v)@.len(),
    ensures
        final(v)@ == old(v)@.update(i as int, old(v)@[j as int]).update(j as int, old(v)@[i as int]),
        final(v)@.to_multiset() == old(v)@.to_multiset(),
{
    proof {
        lemma_swap_multiset(old(v)@, i as int, j as int);
    }
    let a = v[i];
    let b = v[j];
    v[i] = b;
    v[j] = a;
}

/// Rearranges the inclusive window `[lo, hi]` around its first element, the
/// pivot: everything left of the returned position is at most the pivot,
/// everything right of it is at least the pivot, and the pivot itself ends
/// up at the returned position. Nothing outside the window moves.
pub fn partition(arr: &mut Vec<i32>, lo: usize, hi: usize) -> (pos: usize)
    requires
        lo <= hi < old(arr)@.len(),
    ensures
        lo <= pos <= hi,
        final(arr)@.len() == old(arr)@.len(),
        forall|k: int| (0 <= k < lo || hi < k < old(arr)@.len()) ==> final(arr)@[k] == old(arr)@[k],
        final(arr)@.subrange(lo as int, hi as int + 1).to_multiset() == old(arr)@.subrange(
            lo as int,
            hi as int + 1,
        ).to_multiset(),
        final(arr)@[pos as int] == old(arr)@[lo as int],
        forall|k: int| lo <= k < pos ==> final(arr)@[k] <= final(arr)@[pos as int],
        forall|k: int| pos < k <= hi ==> final(arr)@[k] >= final(arr)@[pos as int],
{
    let pivot_val = arr[lo];
    let mut l: usize = lo;
    let mut r: usize = hi;
    while l < r
        invariant
            lo <= l <= r <= hi < arr@.len(),
            arr@.len() == old(arr)@.len(),
            arr@[lo as int] == pivot_val,
            pivot_val == old(arr)@[lo as int],
            arr@[l as int] <= pivot_val,
            forall|k: int| lo <= k < l ==> arr@[k] <= pivot_val,
            forall|k: int| r < k <= hi ==> arr@[k] >= pivot_val,
            forall|k: int| (0 <= k < lo || hi < k < arr@.len()) ==> arr@[k] == old(arr)@[k],
            arr@.to_multiset() == old(arr)@.to_multiset(),
        decreases r - l,
    {
        while l < r && arr[r] >= pivot_val
            invariant
                lo <= l <= r <= hi < arr@.len(),
                arr@.len() == old(arr)@.len(),
                arr@[lo as int] == pivot_val,
                pivot_val == old(arr)@[lo as int],
                arr@[l as int] <= pivot_val,
                forall|k: int| lo <= k < l ==> arr@[k] <= pivot_val,
                forall|k: int| r < k <= hi ==> arr@[k] >= pivot_val,
                forall|k: int| (0 <= k < lo || hi < k < arr@.len()) ==> arr@[k] == old(arr)@[k],
                arr@.to_multiset() == old(arr)@.to_multiset(),
            decreases r,
        {
            r = r - 1;
        }
        while l < r && arr[l] <= pivot_val
            invariant
                lo <= l <= r <= hi < arr@.len(),
                arr@.len() == old(arr)@.len(),
                arr@[lo as int] == pivot_val,
                pivot_val == old(arr)@[lo as int],
                l < r ==> arr@[r as int] < pivot_val,
                l == r ==> arr@[l as int] <= pivot_val,
                forall|k: int| lo <= k < l ==> arr@[k] <= pivot_val,
                forall|k: int| r < k <= hi ==> arr@[k] >= pivot_val,
                forall|k: int| (0 <= k < lo || hi < k < arr@.len()) ==> arr@[k] == old(arr)@[k],
                arr@.to_multiset() == old(arr)@.to_multiset(),
            decreases r - l,
        {
            l = l + 1;
        }
        if l != r {
            swap_at(arr, l, r);
        }
    }
    swap_at(arr, lo, l);
    proof {
        lemma_frame_multiset(arr@, old(arr)@, lo as int, hi as int + 1);
    }
    l
}

/// Sorts the inclusive window `[lo, hi]` in place; windows with `lo > hi`
/// are left untouched. After partitioning, the recursion into the left half
/// is guarded by `pos != 0`, so the subtraction below it cannot underflow
/// even when the pivot's final position is the window's lower bound.
pub fn quick_sort_range(arr: &mut Vec<i32>, lo: usize, hi: usize)
    requires
        lo <= hi ==> hi < old(arr)@.len(),
    ensures
        final(arr)@.len() == old(arr)@.len(),
        forall|k: int| (0 <= k < old(arr)@.len() && !(lo <= k <= hi)) ==> final(arr)@[k] == old(
            arr,
        )@[k],
        lo <= hi ==> final(arr)@.subrange(lo as int, hi as int + 1).to_multiset() == old(
            arr,
        )@.subrange(lo as int, hi as int + 1).to_multiset(),
        lo <= hi ==> sorted(final(arr)@.subrange(lo as int, hi as int + 1)),
        lo > hi ==> final(arr)@ == old(arr)@,
    decreases hi + 1 - lo,
{
    if lo <= hi {
        let n = arr.len();
        assert(hi < n);
        let pos = partition(arr, lo, hi);
        let ghost s1 = arr@;
        if pos != 0 {
            quick_sort_range(arr, lo, pos - 1);
        }
        let ghost s2 = arr@;
        quick_sort_range(arr, pos + 1, hi);
        let ghost s3 = arr@;
        proof {
            lemma_quick_sort_range_glue(old(arr)@, s1, s2, s3, lo as int, hi as int, pos as int);
        }
    }
}

/// Stitches the facts from one partition step and the two recursive calls
/// into sortedness and multiset preservation of the whole window.
/// `s0` is the window's backing sequence before partitioning, `s1` after
/// partitioning, `s2` after sorting the left half, `s3` after sorting the
/// right half.
proof fn lemma_quick_sort_range_glue(
    s0: Seq<i32>,
    s1: Seq<i32>,
    s2: Seq<i32>,
    s3: Seq<i32>,
    lo: int,
    hi: int,
    pos: int,
)
    requires
        0 <= lo <= pos <= hi < s0.len(),
        s1.len() == s0.len(),
        s2.len() == s1.len(),
        s3.len() == s2.len(),
        // partition
        forall|k: int| (0 <= k < lo || hi < k < s0.len()) ==> s1[k] == s0[k],
        s1.subrange(lo, hi + 1).to_multiset() == s0.subrange(lo, hi + 1).to_multiset(),
        forall|k: int| lo <= k < pos ==> s1[k] <= s1[pos],
        forall|k: int| pos < k <= hi ==> s1[k] >= s1[pos],
        // left recursion (s2 == s1 whenever the left window is empty)
        forall|k: int| (0 <= k < s1.len() && !(lo <= k <= pos - 1)) ==> s2[k] == s1[k],
        lo <= pos - 1 ==> s2.subrange(lo, pos).to_multiset() == s1.subrange(lo, pos).to_multiset(),
        lo <= pos - 1 ==> sorted(s2.subrange(lo, pos)),
        // right recursion (s3 == s2 whenever the right window is empty)
        forall|k: int| (0 <= k < s2.len() && !(pos + 1 <= k <= hi)) ==> s3[k] == s2[k],
        pos + 1 <= hi ==> s3.subrange(pos + 1, hi + 1).to_multiset() == s2.subrange(
            pos + 1,
            hi + 1,
        ).to_multiset(),
        pos + 1 <= hi ==> sorted(s3.subrange(pos + 1, hi + 1)),
    ensures
        forall|k: int| (0 <= k < s0.len() && !(lo <= k <= hi)) ==> s3[k] == s0[k],
        s3.subrange(lo, hi + 1).to_multiset() == s0.subrange(lo, hi + 1).to_multiset(),
        sorted(s3.subrange(lo, hi + 1)),
{
    broadcast use vstd::seq_lib::group_to_multiset_ensures;
    broadcast use vstd::multiset::group_multiset_axioms;

    let p = s1[pos];
    let left3 = s3.subrange(lo, pos);
    let right3 = s3.subrange(pos + 1, hi + 1);
    // The left half settles with s2 and the right recursion does not touch it.
    assert(left3 =~= s2.subrange(lo, pos));
    assert(s3[pos] == p);
    // The right half enters the right recursion exactly as the partition left it.
    assert(s2.subrange(pos + 1, hi + 1) =~= s1.subrange(pos + 1, hi + 1));
    if pos + 1 > hi {
        assert(right3 =~= s1.subrange(pos + 1, hi + 1));
    }
    // Sortedness of each half, including the empty cases.
    assert(sorted(left3));
    assert(sorted(right3));
    // Every element of the sorted left half already sat in the left half of
    // the partition, hence is at most the pivot.
    assert forall|k: int| 0 <= k < left3.len() implies left3[k] <= p by {
        if lo <= pos - 1 {
            let m1 = s1.subrange(lo, pos);
            assert(left3.to_multiset() == m1.to_multiset());
            assert(left3.to_multiset().contains(left3[k]));
            assert(m1.contains(left3[k]));
            let i = choose|i: int| 0 <= i < m1.len() && m1[i] == left3[k];
            assert(s1[lo + i] == m1[i]);
        }
    }
    assert forall|k: int| 0 <= k < right3.len() implies right3[k] >= p by {
        if pos + 1 <= hi {
            let m1 = s1.subrange(pos + 1, hi + 1);
            assert(right3.to_multiset() == m1.to_multiset());
            assert(right3.to_multiset().contains(right3[k]));
            assert(m1.contains(right3[k]));
            let i = choose|i: int| 0 <= i < m1.len() && m1[i] == right3[k];
            assert(s1[pos + 1 + i] == m1[i]);
        }
    }
    lemma_sorted_concat_around(left3, p, right3);
    assert(s3.subrange(lo, hi + 1) =~= left3 + seq![p] + right3);
    // Multisets: walk the window through the three steps.
    let w1 = s1.subrange(lo, hi + 1);
    let w2 = s2.subrange(lo, hi + 1);
    let w3 = s3.subrange(lo, hi + 1);
    assert(w1 =~= s1.subrange(lo, pos) + s1.subrange(pos, hi + 1));
    assert(w2 =~= s2.subrange(lo, pos) + s2.subrange(pos, hi + 1));
    assert(s2.subrange(pos, hi + 1) =~= s1.subrange(pos, hi + 1));
    if lo > pos - 1 {
        assert(s2.subrange(lo, pos) =~= s1.subrange(lo, pos));
    }
    vstd::seq_lib::lemma_multiset_commutative(s1.subrange(lo, pos), s1.subrange(pos, hi + 1));
    vstd::seq_lib::lemma_multiset_commutative(s2.subrange(lo, pos), s2.subrange(pos, hi + 1));
    assert(w2.to_multiset() == w1.to_multiset());
    assert(w3 =~= s3.subrange(lo, pos + 1) + s3.subrange(pos + 1, hi + 1));
    assert(w2 =~= s2.subrange(lo, pos + 1) + s2.subrange(pos + 1, hi + 1));
    assert(s3.subrange(lo, pos + 1) =~= s2.subrange(lo, pos + 1));
    if pos + 1 > hi {
        assert(s3.subrange(pos + 1, hi + 1) =~= s2.subrange(pos + 1, hi + 1));
    }
    vstd::seq_lib::lemma_multiset_commutative(s2.subrange(lo, pos + 1), s2.subrange(pos + 1, hi + 1));
    vstd::seq_lib::lemma_multiset_commutative(s3.subrange(lo, pos + 1), s3.subrange(pos + 1, hi + 1));
    assert(w3.to_multiset() == w2.to_multiset());
}

/// Sorts the whole vector in place by two-pointer quicksort: the result is
/// a sorted permutation of the input.
pub fn quick_sort(arr: &mut Vec<i32>)
    ensures
        final(arr)@.to_multiset() == old(arr)@.to_multiset(),
        sorted(final(arr)@),
{
    let n = arr.len();
    if n > 1 {
        quick_sort_range(arr, 0, n - 1);
        proof {
            assert(arr@.subrange(0, n as int) =~= arr@);
            assert(old(arr)@.subrange(0, n as int) =~= old(arr)@);
        }
    } else {
        proof {
            crate::order::lemma_short_sorted(arr@);
        }
    }
}

} // verus!
