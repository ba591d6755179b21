//! Slot watermarks and commitment levels.
use std::sync::atomic::{AtomicU64, Ordering};
use vstd::prelude::*;

verus! {

/// Commitment level of a read.
#[derive(Debug, Clone, Copy, PartialEq, Eq, Hash, Structural)]
pub enum CommitmentLevel {
    /// Most recent state; may be rolled back.
    Processed,
    /// Voted on by a supermajority of stake.
    Confirmed,
    /// Rooted; immutable.
    Finalized,
}

/// The strength of a level: processed < confirmed < finalized.
pub open spec fn commitment_rank(c: CommitmentLevel) -> int {
    match c {
        CommitmentLevel::Processed => 0,
        CommitmentLevel::Confirmed => 1,
        CommitmentLevel::Finalized => 2,
    }
}

impl CommitmentLevel {
    /// Confirmations each level asks for.
    pub fn min_confirmations(&self) -> (n: u64)
        ensures
            n == match *self {
                CommitmentLevel::Processed => 0u64,
                CommitmentLevel::Confirmed => 1u64,
                CommitmentLevel::Finalized => 31u64,
            },
    {
        match self {
            CommitmentLevel::Processed => 0,
            CommitmentLevel::Confirmed => 1,
            CommitmentLevel::Finalized => 31,
        }
    }

    /// Whether this level is at least as strong as `other`.
    pub fn satisfies(&self, other: &Self) -> (r: bool)
        ensures
            r == (commitment_rank(*self) >= commitment_rank(*other)),
    {
        let a: u8 = match self {
            CommitmentLevel::Processed => 0,
            CommitmentLevel::Confirmed => 1,
            CommitmentLevel::Finalized => 2,
        };
        let b: u8 = match other {
            CommitmentLevel::Processed => 0,
            CommitmentLevel::Confirmed => 1,
            CommitmentLevel::Finalized => 2,
        };
        a >= b
    }
}

impl Default for CommitmentLevel {
    fn default() -> (c: Self)
        ensures
            c == CommitmentLevel::Processed,
    {
        CommitmentLevel::Processed
    }
}

/// `satisfies` orders the levels: it is reflexive, transitive and total, and only
/// equal levels satisfy each other.
pub proof fn lemma_satisfies_is_total_order(a: CommitmentLevel, b: CommitmentLevel, c: CommitmentLevel)
    ensures
        commitment_rank(a) >= commitment_rank(a),
        commitment_rank(a) >= commitment_rank(b) && commitment_rank(b) >= commitment_rank(c)
            ==> commitment_rank(a) >= commitment_rank(c),
        commitment_rank(a) >= commitment_rank(b) || commitment_rank(b) >= commitment_rank(a),
        commitment_rank(a) >= commitment_rank(b) && commitment_rank(b) >= commitment_rank(a) ==> a
            == b,
{
}

/// Slot watermarks of each commitment level.
#[derive(Debug, Clone, Copy)]
pub struct SlotContext {
    pub processed_slot: u64,
    pub confirmed_slot: u64,
    /// The root.
    pub finalized_slot: u64,
    /// Parent of the processed slot.
    pub parent_slot: u64,
}

/// The watermark of a level.
pub open spec fn watermark(ctx: SlotContext, c: CommitmentLevel) -> u64 {
    match c {
        CommitmentLevel::Processed => ctx.processed_slot,
        CommitmentLevel::Confirmed => ctx.confirmed_slot,
        CommitmentLevel::Finalized => ctx.finalized_slot,
    }
}

/// The context after advancing to `new_slot`: the old processed slot becomes the
/// parent, confirmed trails by one slot and finalized by 31 (each kept when the
/// new slot is too small).
pub open spec fn after_update(ctx: SlotContext, new_slot: u64) -> SlotContext {
    SlotContext {
        processed_slot: new_slot,
        confirmed_slot: if new_slot > 1 { (new_slot - 1) as u64 } else { ctx.confirmed_slot },
        finalized_slot: if new_slot > 31 { (new_slot - 31) as u64 } else { ctx.finalized_slot },
        parent_slot: ctx.processed_slot,
    }
}

/// Stronger levels trail weaker ones.
pub open spec fn ordered(ctx: SlotContext) -> bool {
    ctx.finalized_slot <= ctx.confirmed_slot <= ctx.processed_slot
}

impl SlotContext {
    /// All watermarks at slot 0.
    pub fn new() -> (ctx: Self)
        ensures
            ctx.processed_slot == 0,
            ctx.confirmed_slot == 0,
            ctx.finalized_slot == 0,
            ctx.parent_slot == 0,
    {
        SlotContext { processed_slot: 0, confirmed_slot: 0, finalized_slot: 0, parent_slot: 0 }
    }

    /// Advances to `new_slot` (see `after_update`).
    pub fn update(&mut self, new_slot: u64, _parent_slot: u64)
        ensures
            *final(self) == after_update(*old(self), new_slot),
    {
        self.parent_slot = self.processed_slot;
        self.processed_slot = new_slot;
        if new_slot > 1 {
            self.confirmed_slot = new_slot - 1;
        }
        if new_slot > 31 {
            self.finalized_slot = new_slot - 31;
        }
    }

    /// The watermark of a level.
    pub fn get_watermark(&self, commitment: CommitmentLevel) -> (s: u64)
        ensures
            s == watermark(*self, commitment),
    {
        match commitment {
            CommitmentLevel::Processed => self.processed_slot,
            CommitmentLevel::Confirmed => self.confirmed_slot,
            CommitmentLevel::Finalized => self.finalized_slot,
        }
    }

    /// Whether a slot is at or below the level's watermark.
    pub fn is_visible(&self, slot: u64, commitment: CommitmentLevel) -> (r: bool)
        ensures
            r == (slot <= watermark(*self, commitment)),
    {
        slot <= self.get_watermark(commitment)
    }
}

impl Default for SlotContext {
    fn default() -> (ctx: Self)
        ensures
            ctx.processed_slot == 0,
            ctx.confirmed_slot == 0,
            ctx.finalized_slot == 0,
            ctx.parent_slot == 0,
    {
        SlotContext::new()
    }
}

/// In an ordered context, whatever a stronger level sees a weaker level sees too.
pub proof fn lemma_visibility_weakens(ctx: SlotContext, slot: u64, strong: CommitmentLevel, weak: CommitmentLevel)
    requires
        ordered(ctx),
        commitment_rank(strong) >= commitment_rank(weak),
    ensures
        slot <= watermark(ctx, strong) ==> slot <= watermark(ctx, weak),
{
}

/// An update to a slot past 31 leaves the watermarks ordered, whatever came before.
pub proof fn lemma_update_orders(before: SlotContext, new_slot: u64)
    requires
        new_slot > 31,
    ensures
        ordered(after_update(before, new_slot)),
{
}

/// Watermarks shared between threads. The loads depend on what other threads
/// stored, so nothing is stated of the values read.
pub struct AtomicSlotTracker {
    processed_slot: AtomicU64,
    confirmed_slot: AtomicU64,
    finalized_slot: AtomicU64,
}

impl Default for AtomicSlotTracker {
    fn default() -> (t: Self) {
        AtomicSlotTracker::new()
    }
}

impl AtomicSlotTracker {
    /// A tracker with every watermark at slot 0.
    pub fn new() -> (t: Self) {
        AtomicSlotTracker {
            processed_slot: AtomicU64::new(0),
            confirmed_slot: AtomicU64::new(0),
            finalized_slot: AtomicU64::new(0),
        }
    }

    /// Publishes the context's watermarks.
    pub fn update(&self, context: &SlotContext) {
        self.processed_slot.store(context.processed_slot, Ordering::Release);
        self.confirmed_slot.store(context.confirmed_slot, Ordering::Release);
        self.finalized_slot.store(context.finalized_slot, Ordering::Release);
    }

    /// The current watermark of a level.
    pub fn get_watermark(&self, commitment: CommitmentLevel) -> (s: u64) {
        match commitment {
            CommitmentLevel::Processed => self.processed_slot.load(Ordering::Acquire),
            CommitmentLevel::Confirmed => self.confirmed_slot.load(Ordering::Acquire),
            CommitmentLevel::Finalized => self.finalized_slot.load(Ordering::Acquire),
        }
    }

    /// A snapshot of the watermarks; the parent is one below a second read of the
    /// processed slot (0 at 0).
    pub fn get_context(&self) -> (ctx: SlotContext) {
        let processed = self.processed_slot.load(Ordering::Acquire);
        let confirmed = self.confirmed_slot.load(Ordering::Acquire);
        let finalized = self.finalized_slot.load(Ordering::Acquire);
        let parent = self.processed_slot.load(Ordering::Acquire).saturating_sub(1);
        SlotContext {
            processed_slot: processed,
            confirmed_slot: confirmed,
            finalized_slot: finalized,
            parent_slot: parent,
        }
    }
}

/// An inclusive range of slots.
#[derive(Debug, Clone, Copy)]
pub struct SlotRange {
    pub start_slot: u64,
    pub end_slot: u64,
}

impl SlotRange {
    pub fn new(start_slot: u64, end_slot: u64) -> (r: Self)
        ensures
            r.start_slot == start_slot,
            r.end_slot == end_slot,
    {
        SlotRange { start_slot, end_slot }
    }

    /// Whether the slot lies in the range, ends included.
    pub fn contains(&self, slot: u64) -> (r: bool)
        ensures
            r == (self.start_slot <= slot <= self.end_slot),
    {
        slot >= self.start_slot && slot <= self.end_slot
    }

    /// Number of slots in a non-empty range.
    pub fn len(&self) -> (n: u64)
        requires
            self.start_slot <= self.end_slot,
            self.end_slot - self.start_slot < u64::MAX,
        ensures
            n == self.end_slot - self.start_slot + 1,
    {
        self.end_slot - self.start_slot + 1
    }

    /// Whether the range holds no slot.
    pub fn is_empty(&self) -> (r: bool)
        ensures
            r == (self.end_slot < self.start_slot),
    {
        self.end_slot < self.start_slot
    }
}

/// Root progress, for compaction decisions.
#[derive(Debug, Clone, Copy)]
pub struct RootStatus {
    pub current_root: u64,
    pub pending_compaction_root: u64,
    pub last_compaction_root: u64,
    pub slots_since_last_compaction: u64,
}

impl RootStatus {
    /// Whether enough slots passed since the last compaction.
    pub fn needs_compaction(&self, threshold_slots: u64) -> (r: bool)
        ensures
            r == (self.slots_since_last_compaction >= threshold_slots),
    {
        self.slots_since_last_compaction >= threshold_slots
    }
}

} // verus!
