//! The slot reconciler: processed, confirmed and finalized slots, the root that is
//! safe to compact up to, and rollbacks.
pub mod commitments;
pub mod rollback;
pub mod roots;
pub mod watermarks;

use vstd::prelude::*;

verus! {

/// Commitment levels.
#[derive(Debug, Clone, Copy, PartialEq, Eq, Structural)]
pub enum CommitmentLevel {
    /// Most recent slot, not yet confirmed.
    Processed,
    /// Confirmed by two thirds of the cluster.
    Confirmed,
    /// Finalized by a supermajority.
    Finalized,
}

/// The reconciler's slots and rollback count.
#[derive(Debug, Clone, Copy, PartialEq, Eq, Structural)]
pub struct SlotReconcilerState {
    pub processed_slot: u64,
    pub confirmed_slot: u64,
    pub finalized_slot: u64,
    /// Safe to compact up to this slot.
    pub root_slot: u64,
    pub rollback_count: u64,
}

/// Tracks the slot of each commitment level, the root, and rollbacks.
pub struct SlotReconciler {
    state: SlotReconcilerState,
}

impl SlotReconciler {
    pub closed spec fn spec_state(&self) -> SlotReconcilerState {
        self.state
    }

    /// Every level and the root at `root_slot`, no rollback yet.
    pub fn new(root_slot: u64) -> (r: Self)
        ensures
            r.spec_state() == (SlotReconcilerState {
                processed_slot: root_slot,
                confirmed_slot: root_slot,
                finalized_slot: root_slot,
                root_slot,
                rollback_count: 0,
            }),
    {
        SlotReconciler {
            state: SlotReconcilerState {
                processed_slot: root_slot,
                confirmed_slot: root_slot,
                finalized_slot: root_slot,
                root_slot,
                rollback_count: 0,
            },
        }
    }

    /// Sets the processed slot.
    pub fn update_processed(&mut self, slot: u64)
        ensures
            final(self).spec_state() == (SlotReconcilerState { processed_slot: slot, ..old(self).spec_state() }),
    {
        self.state.processed_slot = slot;
    }

    /// Sets the confirmed slot.
    pub fn update_confirmed(&mut self, slot: u64)
        ensures
            final(self).spec_state() == (SlotReconcilerState { confirmed_slot: slot, ..old(self).spec_state() }),
    {
        self.state.confirmed_slot = slot;
    }

    /// Sets the finalized slot; the root stays where it is.
    pub fn update_finalized(&mut self, slot: u64)
        ensures
            final(self).spec_state() == (SlotReconcilerState { finalized_slot: slot, ..old(self).spec_state() }),
    {
        self.state.finalized_slot = slot;
    }

    /// The root slot.
    pub fn get_root(&self) -> (s: u64)
        ensures
            s == self.spec_state().root_slot,
    {
        self.state.root_slot
    }

    /// The slot of a commitment level.
    pub fn get_slot(&self, level: CommitmentLevel) -> (s: u64)
        ensures
            s == match level {
                CommitmentLevel::Processed => self.spec_state().processed_slot,
                CommitmentLevel::Confirmed => self.spec_state().confirmed_slot,
                CommitmentLevel::Finalized => self.spec_state().finalized_slot,
            },
    {
        match level {
            CommitmentLevel::Processed => self.state.processed_slot,
            CommitmentLevel::Confirmed => self.state.confirmed_slot,
            CommitmentLevel::Finalized => self.state.finalized_slot,
        }
    }

    /// Whether the slot is at or below the finalized slot.
    pub fn is_finalized(&self, slot: u64) -> (r: bool)
        ensures
            r == (slot <= self.spec_state().finalized_slot),
    {
        slot <= self.state.finalized_slot
    }

    /// Whether the slot is at or below the confirmed slot.
    pub fn is_confirmed(&self, slot: u64) -> (r: bool)
        ensures
            r == (slot <= self.spec_state().confirmed_slot),
    {
        slot <= self.state.confirmed_slot
    }

    /// Rolls back to `new_root` (see `after_rollback`).
    pub fn handle_rollback(&mut self, new_root: u64)
        requires
            old(self).spec_state().rollback_count < u64::MAX,
        ensures
            final(self).spec_state() == after_rollback(old(self).spec_state(), new_root),
    {
        self.state.rollback_count = self.state.rollback_count + 1;
        self.state.root_slot = new_root;
        if self.state.finalized_slot > new_root {
            self.state.finalized_slot = new_root;
        }
    }

    /// The state.
    pub fn stats(&self) -> (s: SlotReconcilerState)
        ensures
            s == self.spec_state(),
    {
        self.state
    }

    /// Rollbacks handled.
    pub fn rollback_count(&self) -> (n: u64)
        ensures
            n == self.spec_state().rollback_count,
    {
        self.state.rollback_count
    }
}

/// The state after a rollback to `new_root`: one more rollback, the root at `new_root`,
/// and the finalized slot lowered to it when it was above.
pub open spec fn after_rollback(s: SlotReconcilerState, new_root: u64) -> SlotReconcilerState {
    SlotReconcilerState {
        rollback_count: (s.rollback_count + 1) as u64,
        root_slot: new_root,
        finalized_slot: if s.finalized_slot > new_root {
            new_root
        } else {
            s.finalized_slot
        },
        ..s
    }
}

/// After a rollback the finalized slot is at or below the new root and never above the
/// finalized slot before it, the root is the new root, one more rollback is counted, and
/// the processed and confirmed slots are untouched.
pub proof fn lemma_rollback_caps_finalized(before: SlotReconcilerState, new_root: u64)
    requires
        before.rollback_count < u64::MAX,
    ensures
        after_rollback(before, new_root).finalized_slot <= new_root,
        after_rollback(before, new_root).finalized_slot <= before.finalized_slot,
        after_rollback(before, new_root).root_slot == new_root,
        after_rollback(before, new_root).rollback_count == before.rollback_count + 1,
        after_rollback(before, new_root).processed_slot == before.processed_slot,
        after_rollback(before, new_root).confirmed_slot == before.confirmed_slot,
{
}

} // verus!
