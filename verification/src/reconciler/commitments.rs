//! The last slot seen at each commitment level.
use vstd::prelude::*;

verus! {

/// The last processed, confirmed and finalized slots.
#[derive(Debug, Clone, Copy, Default, PartialEq, Eq, Structural)]
pub struct CommitmentTracker {
    pub processed: u64,
    pub confirmed: u64,
    pub finalized: u64,
}

impl CommitmentTracker {
    /// All slots 0.
    pub fn new() -> (t: Self)
        ensures
            t == (CommitmentTracker { processed: 0, confirmed: 0, finalized: 0 }),
    {
        CommitmentTracker { processed: 0, confirmed: 0, finalized: 0 }
    }

    /// Sets the three slots.
    pub fn update(&mut self, processed: u64, confirmed: u64, finalized: u64)
        ensures
            *final(self) == (CommitmentTracker { processed, confirmed, finalized }),
    {
        self.processed = processed;
        self.confirmed = confirmed;
        self.finalized = finalized;
    }
}

} // verus!
