//! Merge sort: the vector is split at its midpoint into two exclusively
//! owned halves, each half is sorted recursively, and the sorted halves are
//! merged into a fresh buffer that replaces the original storage.
//!
//! The merge takes the next element from the left half when both halves
//! still have elements and the left head is strictly smaller, or when the
//! right half is exhausted; otherwise it takes from the right half. Equal
//! heads are therefore taken from the right half first: the merge is not
//! stable, and `merge_spec` pins down that exact policy.

use vstd::prelude::*;
use crate::order::lemma_short_sorted;
use crate::order::lemma_sorted_concat_around;
use crate::order::sorted;
use vstd::seq_lib::lemma_multiset_commutative;

verus! {

/// The exact merge policy, element by element.
pub open spec fn merge_spec(a: Seq<i32>, b: Seq<i32>) -> Seq<i32>
    decreases a.len() + b.len(),
{
    if a.len() == 0 && b.len() == 0 {
        Seq::empty()
    } else if b.len() == 0 {
        a
    } else if a.len() > 0 && a[0] < b[0] {
        seq![a[0]] + merge_spec(a.drop_first(), b)
    } else {
        seq![b[0]] + merge_spec(a, b.drop_first())
    }
}

/// Law: merging keeps exactly the elements of both inputs.
pub proof fn lemma_merge_spec_multiset(a: Seq<i32>, b: Seq<i32>)
    ensures
        merge_spec(a, b).to_multiset() == a.to_multiset().add(b.to_multiset()),
    decreases a.len() + b.len(),
{
    broadcast use vstd::seq_lib::group_to_multiset_ensures;
    broadcast use vstd::multiset::group_multiset_axioms;

    if a.len() == 0 && b.len() == 0 {
        assert(merge_spec(a, b).to_multiset() =~= a.to_multiset().add(b.to_multiset()));
    } else if b.len() == 0 {
        assert(merge_spec(a, b).to_multiset() =~= a.to_multiset().add(b.to_multiset()));
    } else if a.len() > 0 && a[0] < b[0] {
        lemma_merge_spec_multiset(a.drop_first(), b);
        lemma_multiset_commutative(seq![a[0]], merge_spec(a.drop_first(), b));
        lemma_multiset_commutative(seq![a[0]], a.drop_first());
        assert(a =~= seq![a[0]] + a.drop_first());
        assert(merge_spec(a, b).to_multiset() =~= a.to_multiset().add(b.to_multiset()));
    } else {
        lemma_merge_spec_multiset(a, b.drop_first());
        lemma_multiset_commutative(seq![b[0]], merge_spec(a, b.drop_first()));
        lemma_multiset_commutative(seq![b[0]], b.drop_first());
        assert(b =~= seq![b[0]] + b.drop_first());
        assert(merge_spec(a, b).to_multiset() =~= a.to_multiset().add(b.to_multiset()));
    }
}

/// Law: merging two sorted sequences yields a sorted sequence.
pub proof fn lemma_merge_spec_sorted(a: Seq<i32>, b: Seq<i32>)
    requires
        sorted(a),
        sorted(b),
    ensures
        sorted(merge_spec(a, b)),
    decreases a.len() + b.len(),
{
    broadcast use vstd::seq_lib::group_to_multiset_ensures;
    broadcast use vstd::multiset::group_multiset_axioms;

    if a.len() == 0 && b.len() == 0 {
    } else if b.len() == 0 {
    } else {
        let take_left = a.len() > 0 && a[0] < b[0];
        let h = if take_left { a[0] } else { b[0] };
        let a2 = if take_left { a.drop_first() } else { a };
        let b2 = if take_left { b } else { b.drop_first() };
        assert(sorted(a2));
        assert(sorted(b2));
        lemma_merge_spec_sorted(a2, b2);
        let rest = merge_spec(a2, b2);
        lemma_merge_spec_multiset(a2, b2);
        assert forall|k: int| 0 <= k < rest.len() implies h <= rest[k] by {
            assert(rest.contains(rest[k]));
            assert(rest.to_multiset().count(rest[k]) > 0);
            if a2.to_multiset().count(rest[k]) > 0 {
                assert(a2.contains(rest[k]));
                let i = choose|i: int| 0 <= i < a2.len() && a2[i] == rest[k];
                if take_left {
                    assert(a2[i] == a[i + 1]);
                } else {
                    assert(h <= a2[0]);
                }
            } else {
                assert(b2.to_multiset().count(rest[k]) > 0);
                assert(b2.contains(rest[k]));
                let i = choose|i: int| 0 <= i < b2.len() && b2[i] == rest[k];
                if take_left {
                    assert(h <= b2[0]);
                } else {
                    assert(b2[i] == b[i + 1]);
                }
            }
        }
        lemma_sorted_concat_around(Seq::empty(), h, rest);
        assert(merge_spec(a, b) =~= Seq::empty() + seq![h] + rest);
    }
}

/// Merges two sequences under the exact policy of `merge_spec`. When both
/// inputs are sorted, the laws above make the result a sorted sequence over
/// the union of their elements.
pub fn merge(a: &Vec<i32>, b: &Vec<i32>) -> (res: Vec<i32>)
    ensures
        res@ == merge_spec(a@, b@),
{
    let mut res: Vec<i32> = Vec::new();
    let mut ia: usize = 0;
    let mut ib: usize = 0;
    proof {
        assert(a@.subrange(0, a@.len() as int) =~= a@);
        assert(b@.subrange(0, b@.len() as int) =~= b@);
        assert(res@ + merge_spec(a@, b@) =~= merge_spec(a@, b@));
    }
    while ia < a.len() || ib < b.len()
        invariant
            ia <= a@.len(),
            ib <= b@.len(),
            merge_spec(a@, b@) == res@ + merge_spec(
                a@.subrange(ia as int, a@.len() as int),
                b@.subrange(ib as int, b@.len() as int),
            ),
        decreases a@.len() + b@.len() - ia - ib,
    {
        let ghost sa = a@.subrange(ia as int, a@.len() as int);
        let ghost sb = b@.subrange(ib as int, b@.len() as int);
        let ghost r0 = res@;
        if ia < a.len() && ib < b.len() && a[ia] < b[ib] || ib == b.len() {
            res.push(a[ia]);
            ia = ia + 1;
            proof {
                assert(sa.len() > 0);
                assert(sa[0] == a@[ia - 1]);
                assert(sa.drop_first() =~= a@.subrange(ia as int, a@.len() as int));
                if sb.len() == 0 {
                    assert(merge_spec(sa.drop_first(), sb) =~= sa.drop_first());
                    assert(merge_spec(sa, sb) =~= seq![sa[0]] + merge_spec(sa.drop_first(), sb));
                } else {
                    assert(sa[0] < sb[0]);
                }
                assert(res@ =~= r0 + seq![sa[0]]);
                assert(r0 + (seq![sa[0]] + merge_spec(sa.drop_first(), sb)) =~= res@ + merge_spec(
                    sa.drop_first(),
                    sb,
                ));
            }
        } else {
            res.push(b[ib]);
            ib = ib + 1;
            proof {
                assert(sb.len() > 0);
                assert(sb[0] == b@[ib - 1]);
                assert(sb.drop_first() =~= b@.subrange(ib as int, b@.len() as int));
                assert(merge_spec(sa, sb) =~= seq![sb[0]] + merge_spec(sa, sb.drop_first()));
                assert(res@ =~= r0 + seq![sb[0]]);
                assert(r0 + (seq![sb[0]] + merge_spec(sa, sb.drop_first())) =~= res@ + merge_spec(
                    sa,
                    sb.drop_first(),
                ));
            }
        }
    }
    proof {
        let sa = a@.subrange(ia as int, a@.len() as int);
        let sb = b@.subrange(ib as int, b@.len() as int);
        assert(sa.len() == 0 && sb.len() == 0);
        assert(merge_spec(sa, sb) =~= Seq::empty());
        assert(res@ + merge_spec(sa, sb) =~= res@);
    }
    res
}

/// Copies the window `[from, to)` of a vector into a fresh vector.
fn copy_range(v: &Vec<i32>, from: usize, to: usize) -> (r: Vec<i32>)
    requires
        from <= to <= v@.len(),
    ensures
        r@ == v@.subrange(from as int, to as int),
{
    let mut r: Vec<i32> = Vec::new();
    let mut i: usize = from;
    while i < to
        invariant
            from <= i <= to <= v@.len(),
            r@ == v@.subrange(from as int, i as int),
        decreases to - i,
    {
        r.push(v[i]);
        i = i + 1;
        proof {
            assert(r@ =~= v@.subrange(from as int, i as int));
        }
    }
    r
}

/// Sorts the vector in place by merge sort: the result is a sorted
/// permutation of the input. Inputs shorter than two elements return
/// unchanged.
pub fn merge_sort(nums: &mut Vec<i32>)
    ensures
        final(nums)@.to_multiset() == old(nums)@.to_multiset(),
        sorted(final(nums)@),
    decreases old(nums)@.len(),
{
    let n = nums.len();
    if n < 2 {
        proof {
            lemma_short_sorted(nums@);
        }
        return;
    }
    let mid = n / 2;
    let mut p1 = copy_range(nums, 0, mid);
    let mut p2 = copy_range(nums, mid, n);
    let ghost g1 = p1@;
    let ghost g2 = p2@;
    proof {
        assert(g1 + g2 =~= nums@);
        lemma_multiset_commutative(g1, g2);
    }
    merge_sort(&mut p1);
    merge_sort(&mut p2);
    let merged = merge(&p1, &p2);
    proof {
        lemma_merge_spec_multiset(p1@, p2@);
        lemma_merge_spec_sorted(p1@, p2@);
        assert(merged@.to_multiset() == old(nums)@.to_multiset());
    }
    *nums = merged;
}

} // verus!
