//! Generic data shuffling and a maximum search.

use vstd::prelude::*;

verus! {

/// A point whose two coordinates may have different types.
pub struct Point<T, U> {
    pub x: T,
    pub y: U,
}

impl<T, U> Point<T, U> {
    /// Combines this point's first coordinate with another point's second
    /// coordinate.
    pub fn mixup<V, W>(self, other: Point<V, W>) -> (r: Point<T, W>)
        ensures
            r.x == self.x,
            r.y == other.y,
    {
        Point { x: self.x, y: other.y }
    }
}

/// Returns the largest element of a non-empty vector: it sits in the
/// vector, and nothing in the vector exceeds it.
pub fn largest(list: &Vec<i32>) -> (r: i32)
    requires
        list@.len() > 0,
    ensures
        list@.contains(r),
        forall|k: int| 0 <= k < list@.len() ==> list@[k] <= r,
{
    let mut best = list[0];
    let mut i: usize = 1;
    while i < list.len()
        invariant
            1 <= i <= list@.len(),
            list@.contains(best),
            forall|k: int| 0 <= k < i ==> list@[k] <= best,
        decreases list@.len() - i,
    {
        if list[i] > best {
            best = list[i];
        }
        i = i + 1;
    }
    best
}

} // verus!
