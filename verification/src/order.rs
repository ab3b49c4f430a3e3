//! The ordering vocabulary shared by every sorting strategy: what it means
//! for a sequence to be sorted, and the laws that every strategy's contract
//! feeds into (a sorted permutation of a sorted sequence is that sequence
//! itself, and short sequences are trivially sorted).

use vstd::prelude::*;
use vstd::relations::sorted_by;
use vstd::relations::total_ordering;
use vstd::seq_lib::lemma_multiset_commutative;
use vstd::seq_lib::lemma_sorted_unique;

verus! {

/// A sequence is sorted in non-decreasing order.
pub open spec fn sorted(s: Seq<i32>) -> bool {
    forall|i: int, j: int| 0 <= i <= j < s.len() ==> s[i] <= s[j]
}

/// The non-decreasing order on `i32`, as a relation.
pub open spec fn le_order() -> spec_fn(i32, i32) -> bool {
    |x: i32, y: i32| x <= y
}

proof fn lemma_le_is_total_ordering()
    ensures
        total_ordering(le_order()),
{
    assert forall|x: i32| #[trigger] le_order()(x, x) by {}
}

proof fn lemma_sorted_is_sorted_by(s: Seq<i32>)
    requires
        sorted(s),
    ensures
        sorted_by(s, le_order()),
{
    assert forall|i: int, j: int| 0 <= i < j < s.len() implies #[trigger] le_order()(
        s[i],
        s[j],
    ) by {
        assert(s[i] <= s[j]);
    }
}

/// Law: two sorted sequences over the same multiset of elements are equal.
/// In particular, sorting an already-sorted sequence returns an identical
/// sequence, whichever strategy produced the result: every strategy ensures
/// that its output is a sorted permutation of its input, and this law pins
/// that output down to the input itself whenever the input was sorted.
pub proof fn lemma_sorted_permutation_identity(a: Seq<i32>, b: Seq<i32>)
    requires
        sorted(a),
        sorted(b),
        a.to_multiset() == b.to_multiset(),
    ensures
        a == b,
{
    lemma_le_is_total_ordering();
    lemma_sorted_is_sorted_by(a);
    lemma_sorted_is_sorted_by(b);
    lemma_sorted_unique(a, b, le_order());
    assert(a =~= b);
}

/// Law: a sequence of length zero or one is sorted, so by
/// `lemma_sorted_permutation_identity` every strategy returns such a
/// sequence unchanged.
pub proof fn lemma_short_sorted(s: Seq<i32>)
    requires
        s.len() <= 1,
    ensures
        sorted(s),
{
}

/// Swapping two positions of a sequence leaves its multiset unchanged.
pub proof fn lemma_swap_multiset(s: Seq<i32>, i: int, j: int)
    requires
        0 <= i < s.len(),
        0 <= j < s.len(),
    ensures
        s.update(i, s[j]).update(j, s[i]).to_multiset() == s.to_multiset(),
{
    broadcast use vstd::seq_lib::to_multiset_update;
    broadcast use vstd::seq_lib::group_to_multiset_ensures;
    broadcast use vstd::multiset::group_multiset_axioms;

    let t = s.update(i, s[j]);
    assert(t[j] == s[j]);
    assert(t.to_multiset() == s.to_multiset().insert(s[j]).remove(s[i]));
    assert(t.update(j, s[i]).to_multiset() == t.to_multiset().insert(s[i]).remove(t[j]));
    assert(s.to_multiset().contains(s[i]));
    assert(s.to_multiset().contains(s[j]));
    assert(t.update(j, s[i]).to_multiset() =~= s.to_multiset());
}

/// Law: an empty or single-element sequence comes back from every sorting
/// strategy unchanged, since each strategy returns a sorted permutation of
/// its input and such an input is already sorted.
pub proof fn lemma_short_input_unchanged(pre: Seq<i32>, post: Seq<i32>)
    requires
        pre.len() <= 1,
        sorted(post),
        pre.to_multiset() == post.to_multiset(),
    ensures
        post == pre,
{
    lemma_short_sorted(pre);
    lemma_sorted_permutation_identity(pre, post);
}

/// When two sequences of one length agree outside a window, their
/// multisets agree exactly when the multisets of the window do.
pub proof fn lemma_frame_multiset(s1: Seq<i32>, s2: Seq<i32>, lo: int, hi1: int)
    requires
        s1.len() == s2.len(),
        0 <= lo <= hi1 <= s1.len(),
        forall|k: int| (0 <= k < lo || hi1 <= k < s1.len()) ==> s1[k] == s2[k],
    ensures
        s1.subrange(lo, hi1).to_multiset() == s2.subrange(lo, hi1).to_multiset()
            <==> s1.to_multiset() == s2.to_multiset(),
{
    broadcast use vstd::multiset::group_multiset_axioms;

    let n = s1.len() as int;
    let pre1 = s1.subrange(0, lo);
    let mid1 = s1.subrange(lo, hi1);
    let suf1 = s1.subrange(hi1, n);
    let pre2 = s2.subrange(0, lo);
    let mid2 = s2.subrange(lo, hi1);
    let suf2 = s2.subrange(hi1, n);
    assert(pre1 =~= pre2);
    assert(suf1 =~= suf2);
    assert(s1 =~= (pre1 + mid1) + suf1);
    assert(s2 =~= (pre2 + mid2) + suf2);
    lemma_multiset_commutative(pre1 + mid1, suf1);
    lemma_multiset_commutative(pre1, mid1);
    lemma_multiset_commutative(pre2 + mid2, suf2);
    lemma_multiset_commutative(pre2, mid2);
    if mid1.to_multiset() == mid2.to_multiset() {
        assert(s1.to_multiset() =~= s2.to_multiset());
    }
    if s1.to_multiset() == s2.to_multiset() {
        assert forall|x: i32| mid1.to_multiset().count(x) == mid2.to_multiset().count(x) by {
            assert(s1.to_multiset().count(x) == s2.to_multiset().count(x));
        }
        assert(mid1.to_multiset() =~= mid2.to_multiset());
    }
}

/// A sorted run, a middle element no smaller than everything in the run,
/// and a second sorted run no smaller than the middle element concatenate
/// into one sorted sequence.
pub proof fn lemma_sorted_concat_around(a: Seq<i32>, p: i32, b: Seq<i32>)
    requires
        sorted(a),
        sorted(b),
        forall|k: int| 0 <= k < a.len() ==> a[k] <= p,
        forall|k: int| 0 <= k < b.len() ==> p <= b[k],
    ensures
        sorted(a + seq![p] + b),
{
    let s = a + seq![p] + b;
    assert forall|i: int, j: int| 0 <= i <= j < s.len() implies s[i] <= s[j] by {
        if i < a.len() {
            assert(s[i] == a[i]);
        } else if i == a.len() {
            assert(s[i] == p);
        } else {
            assert(s[i] == b[i - a.len() - 1]);
        }
        if j < a.len() {
            assert(s[j] == a[j]);
        } else if j == a.len() {
            assert(s[j] == p);
        } else {
            assert(s[j] == b[j - a.len() - 1]);
        }
    }
}

} // verus!
