//! A singly linked list whose nodes live in one owning arena and are
//! addressed by stable integer handles. A handle may be copied freely, so
//! any number of aliased handles can reach the same node; a write through
//! one handle is visible through every other handle for that node, and the
//! borrow discipline is enforced by the verifier instead of at run time.
//!
//! Unlinking a node only relinks its predecessor: the node stays in the
//! arena, so other handle holders keep their access to it.

use vstd::prelude::*;

verus! {

/// The node arena. `values()` gives each node's value and `links()` each
/// node's optional successor handle, index by index.
pub struct SharedList<T> {
    vals: Vec<T>,
    nexts: Vec<Option<usize>>,
}

impl<T> SharedList<T> {
    /// The value of each node, by handle.
    pub closed spec fn values(&self) -> Seq<T> {
        self.vals@
    }

    /// The successor of each node, by handle.
    pub closed spec fn links(&self) -> Seq<Option<usize>> {
        self.nexts@
    }

    /// Well-formed lists keep one link per node, and every link stays
    /// inside the arena.
    pub open spec fn wf(&self) -> bool {
        &&& self.links().len() == self.values().len()
        &&& forall|i: int|
            0 <= i < self.links().len() ==> (#[trigger] self.links()[i] matches Some(j)
                ==> j < self.links().len())
    }

    /// Creates an empty arena.
    pub fn new() -> (r: SharedList<T>)
        ensures
            r.wf(),
            r.values() == Seq::<T>::empty(),
            r.links() == Seq::<Option<usize>>::empty(),
    {
        SharedList { vals: Vec::new(), nexts: Vec::new() }
    }

    /// Adds a fresh node with no successor and returns its handle.
    pub fn add_node(&mut self, val: T) -> (h: usize)
        requires
            old(self).wf(),
        ensures
            final(self).wf(),
            h == old(self).values().len(),
            final(self).values() == old(self).values().push(val),
            final(self).links() == old(self).links().push(None),
    {
        let h = self.vals.len();
        self.vals.push(val);
        self.nexts.push(None);
        h
    }

    /// The number of nodes in the arena.
    pub fn len_nodes(&self) -> (n: usize)
        requires
            self.wf(),
        ensures
            n == self.values().len(),
    {
        self.vals.len()
    }

    /// Reads a node's value through a handle.
    pub fn value_of(&self, h: usize) -> (r: &T)
        requires
            self.wf(),
            h < self.values().len(),
        ensures
            *r == self.values()[h as int],
    {
        &self.vals[h]
    }

    /// Reads a node's successor handle through a handle.
    pub fn next_of(&self, h: usize) -> (r: Option<usize>)
        requires
            self.wf(),
            h < self.values().len(),
        ensures
            r == self.links()[h as int],
            r matches Some(j) ==> j < self.values().len(),
    {
        self.nexts[h]
    }

    /// Overwrites a node's value through a handle. The write is visible
    /// through every other handle equal to `h`, since all of them address
    /// the same arena slot.
    pub fn set_value(&mut self, h: usize, val: T)
        requires
            old(self).wf(),
            h < old(self).values().len(),
        ensures
            final(self).wf(),
            final(self).values() == old(self).values().update(h as int, val),
            final(self).links() == old(self).links(),
    {
        self.vals[h] = val;
    }
}

/// Splices a new node holding `val` in directly after the node at `cur`:
/// the new node takes over `cur`'s old successor, and `cur` now points at
/// the new node, which sits at the first fresh index of the arena. No
/// existing node moves, so every handle stays valid.
pub fn insert<T>(list: &mut SharedList<T>, cur: usize, val: T)
    requires
        old(list).wf(),
        cur < old(list).values().len(),
    ensures
        final(list).wf(),
        final(list).values() == old(list).values().push(val),
        final(list).links() == old(list).links().push(old(list).links()[cur as int]).update(
            cur as int,
            Some(old(list).values().len() as usize),
        ),
{
    let detached = list.nexts[cur];
    let fresh = list.vals.len();
    list.vals.push(val);
    list.nexts.push(detached);
    list.nexts[cur] = Some(fresh);
}

/// Unlinks the node after `cur`, if any, by pointing `cur` at that node's
/// own successor. When `cur` has no successor this is a no-op. The
/// unlinked node keeps its arena slot, so handles that still name it keep
/// their access.
pub fn remove<T>(list: &mut SharedList<T>, cur: usize)
    requires
        old(list).wf(),
        cur < old(list).values().len(),
    ensures
        final(list).wf(),
        final(list).values() == old(list).values(),
        old(list).links()[cur as int] matches Some(n) ==> final(list).links() == old(
            list,
        ).links().update(cur as int, old(list).links()[n as int]),
        old(list).links()[cur as int] is None ==> final(list).links() == old(list).links(),
{
    match list.nexts[cur] {
        Some(n) => {
            let after = list.nexts[n];
            list.nexts[cur] = after;
        },
        None => {},
    }
}

} // verus!
