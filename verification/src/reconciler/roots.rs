//! The root slot: the point up to which storage may be compacted.
use vstd::prelude::*;

verus! {

/// Tracks the root slot.
pub struct RootTracker {
    root: u64,
}

impl RootTracker {
    pub closed spec fn spec_root(&self) -> u64 {
        self.root
    }

    /// A tracker at `initial_root`.
    pub fn new(initial_root: u64) -> (t: Self)
        ensures
            t.spec_root() == initial_root,
    {
        RootTracker { root: initial_root }
    }

    /// The root.
    pub fn get_root(&self) -> (r: u64)
        ensures
            r == self.spec_root(),
    {
        self.root
    }

    /// Sets the root; returns the previous one.
    pub fn update_root(&mut self, new_root: u64) -> (previous: u64)
        ensures
            previous == old(self).spec_root(),
            final(self).spec_root() == new_root,
    {
        let previous = self.root;
        self.root = new_root;
        previous
    }

    /// Moves the root `delta` slots on; returns the new root.
    pub fn advance_root(&mut self, delta: u64) -> (r: u64)
        requires
            old(self).spec_root() + delta <= u64::MAX,
        ensures
            r == old(self).spec_root() + delta,
            final(self).spec_root() == r,
    {
        self.root = self.root + delta;
        self.root
    }
}

} // verus!
