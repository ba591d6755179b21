//! A high watermark that only moves up.
use vstd::prelude::*;

verus! {

/// A watermark slot.
pub struct WatermarkTracker {
    watermark: u64,
}

impl WatermarkTracker {
    pub closed spec fn spec_value(&self) -> u64 {
        self.watermark
    }

    /// A watermark at `initial`.
    pub fn new(initial: u64) -> (t: Self)
        ensures
            t.spec_value() == initial,
    {
        WatermarkTracker { watermark: initial }
    }

    /// The watermark.
    pub fn get(&self) -> (v: u64)
        ensures
            v == self.spec_value(),
    {
        self.watermark
    }

    /// Raises the watermark to `new_value` when that is higher; says whether it did.
    /// The watermark never moves down.
    pub fn update(&mut self, new_value: u64) -> (raised: bool)
        ensures
            raised == (new_value > old(self).spec_value()),
            final(self).spec_value() == (if raised { new_value } else { old(self).spec_value() }),
            final(self).spec_value() >= old(self).spec_value(),
    {
        if new_value <= self.watermark {
            return false;
        }
        self.watermark = new_value;
        true
    }

    /// Moves the watermark one slot on, wrapping at `u64::MAX`; returns the value before.
    pub fn advance(&mut self) -> (before: u64)
        ensures
            before == old(self).spec_value(),
            final(self).spec_value() == old(self).spec_value().wrapping_add(1),
    {
        let before = self.watermark;
        self.watermark = self.watermark.wrapping_add(1);
        before
    }
}

} // verus!
