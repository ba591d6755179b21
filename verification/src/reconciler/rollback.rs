//! Counts rollbacks and remembers the last one.
use crate::clock::{system_time_now, unix_seconds};
use vstd::prelude::*;

verus! {

/// A rollback.
#[derive(Debug, Clone, Copy, PartialEq, Eq, Structural)]
pub struct RollbackEvent {
    /// Slot rolled back from.
    pub from_slot: u64,
    /// Slot rolled back to.
    pub to_slot: u64,
    /// When, in seconds since the Unix epoch.
    pub timestamp: u64,
}

/// Counts rollbacks and keeps the last.
pub struct RollbackHandler {
    rollback_count: u64,
    last_rollback: Option<RollbackEvent>,
}

impl RollbackHandler {
    pub closed spec fn spec_count(&self) -> u64 {
        self.rollback_count
    }

    pub closed spec fn spec_last(&self) -> Option<RollbackEvent> {
        self.last_rollback
    }

    /// No rollback yet.
    pub fn new() -> (h: Self)
        ensures
            h.spec_count() == 0,
            h.spec_last() is None,
    {
        RollbackHandler { rollback_count: 0, last_rollback: None }
    }

    /// Records a rollback from `from_slot` to `to_slot` at `timestamp`.
    pub fn handle_rollback_at(&mut self, from_slot: u64, to_slot: u64, timestamp: u64)
        requires
            old(self).spec_count() < u64::MAX,
        ensures
            final(self).spec_count() == old(self).spec_count() + 1,
            final(self).spec_last() == Some(RollbackEvent { from_slot, to_slot, timestamp }),
    {
        self.rollback_count = self.rollback_count + 1;
        self.last_rollback = Some(RollbackEvent { from_slot, to_slot, timestamp });
    }

    /// Records a rollback from `from_slot` to `to_slot` now (timestamp 0 when the
    /// clock reads before the Unix epoch).
    pub fn handle_rollback(&mut self, from_slot: u64, to_slot: u64)
        requires
            old(self).spec_count() < u64::MAX,
        ensures
            final(self).spec_count() == old(self).spec_count() + 1,
            final(self).spec_last() matches Some(e) && e.from_slot == from_slot && e.to_slot == to_slot,
    {
        let timestamp = match unix_seconds(&system_time_now()) {
            Some(t) => t,
            None => 0,
        };
        self.handle_rollback_at(from_slot, to_slot, timestamp);
    }

    /// Rollbacks handled.
    pub fn rollback_count(&self) -> (n: u64)
        ensures
            n == self.spec_count(),
    {
        self.rollback_count
    }

    /// The last rollback.
    pub fn last_rollback(&self) -> (e: Option<&RollbackEvent>)
        ensures
            match e {
                Some(x) => self.spec_last() == Some(*x),
                None => self.spec_last() is None,
            },
    {
        match &self.last_rollback {
            Some(x) => Some(x),
            None => None,
        }
    }
}

impl Default for RollbackHandler {
    fn default() -> (h: Self)
        ensures
            h.spec_count() == 0,
            h.spec_last() is None,
    {
        Self::new()
    }
}

} // verus!
