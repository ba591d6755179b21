//! A bitmap in the style of a log-structured merge tree: a base bitmap, delta
//! bitmaps that take the inserts, and compactions that merge the deltas into the
//! base. Compaction runs in place when it is due.
use crate::roaring_sets::{
    bitmap_clone, bitmap_contains, bitmap_insert, bitmap_len, bitmap_new, bitmap_or_assign,
    bitmap_remove, bitmap_set,
};
use roaring::RoaringBitmap;
use vstd::prelude::*;

verus! {

/// Deltas at which a compaction is due.
pub const DEFAULT_MAX_DELTAS: usize = 4;

/// Entries of the last delta at which a compaction is due.
pub const DEFAULT_MAX_DELTA_SIZE: usize = 100_000;

/// Inserts since the last compaction at which a compaction is due.
pub const COMPACTION_INSERTS: u64 = 1_000_000;

/// A base bitmap and its deltas.
pub struct LsmBitmap {
    base: RoaringBitmap,
    deltas: Vec<RoaringBitmap>,
    max_deltas: usize,
    max_delta_size: usize,
    compaction_counter: u64,
    compaction_in_progress: bool,
}

/// Statistics of an LSM bitmap.
#[derive(Debug, Clone, Copy, PartialEq, Eq, Structural)]
pub struct LsmBitmapStats {
    pub base_cardinality: u64,
    pub delta_count: usize,
    pub total_delta_entries: u64,
    pub estimated_total: u64,
    pub compaction_in_progress: bool,
}

/// A set of `u32` values is finite, of at most 2^32 values.
proof fn lemma_u32_set_bounded(s: Set<u32>)
    ensures
        s.finite(),
        s.len() <= 0x1_0000_0000,
{
    let all = Set::<u32>::range(0, u32::MAX).insert(u32::MAX);
    vstd::set_lib::range_set_properties::<u32>(0, u32::MAX);
    assert(s.subset_of(all));
    vstd::set_lib::lemma_len_subset(s, all);
}

impl LsmBitmap {
    /// The base values.
    pub closed spec fn base_set(&self) -> Set<u32> {
        bitmap_set(self.base)
    }

    /// The values of the delta.
    pub closed spec fn delta_set(&self) -> Set<u32> {
        bitmap_set(self.deltas@[0])
    }

    /// Inserts since the last compaction.
    pub closed spec fn counter(&self) -> u64 {
        self.compaction_counter
    }

    pub closed spec fn spec_max_deltas(&self) -> usize {
        self.max_deltas
    }

    pub closed spec fn spec_max_delta_size(&self) -> usize {
        self.max_delta_size
    }

    /// There is one delta, and the insert count stays below the compaction threshold.
    pub closed spec fn wf(&self) -> bool {
        &&& self.deltas@.len() == 1
        &&& self.compaction_counter < COMPACTION_INSERTS
        &&& !self.compaction_in_progress
    }

    /// There is exactly one delta and no compaction in progress.
    pub closed spec fn one_delta(&self) -> bool {
        self.deltas@.len() == 1 && !self.compaction_in_progress
    }

    /// Every value a query returns: the base and the deltas.
    pub open spec fn values(&self) -> Set<u32> {
        self.base_set().union(self.delta_set())
    }

    /// Whether a compaction is due: too many deltas, a full last delta, or a million
    /// inserts since the last one.
    pub open spec fn compaction_due(&self) -> bool {
        1 >= self.spec_max_deltas() || self.delta_set().len() >= self.spec_max_delta_size()
            || self.counter() >= COMPACTION_INSERTS
    }

    /// Empty, no insert counted, with the default limits: what `new` gives.
    pub open spec fn is_new(&self) -> bool {
        &&& self.wf()
        &&& self.base_set() == Set::<u32>::empty()
        &&& self.delta_set() == Set::<u32>::empty()
        &&& self.counter() == 0
        &&& self.spec_max_deltas() == DEFAULT_MAX_DELTAS
        &&& self.spec_max_delta_size() == DEFAULT_MAX_DELTA_SIZE
    }

    /// An empty bitmap with the default limits.
    pub fn new() -> (b: Self)
        ensures
            b.wf(),
            b.base_set() == Set::<u32>::empty(),
            b.delta_set() == Set::<u32>::empty(),
            b.counter() == 0,
            b.spec_max_deltas() == DEFAULT_MAX_DELTAS,
            b.spec_max_delta_size() == DEFAULT_MAX_DELTA_SIZE,
    {
        Self::with_config(DEFAULT_MAX_DELTAS, DEFAULT_MAX_DELTA_SIZE)
    }

    /// An empty bitmap with the given limits.
    pub fn with_config(max_deltas: usize, max_delta_size: usize) -> (b: Self)
        ensures
            b.wf(),
            b.base_set() == Set::<u32>::empty(),
            b.delta_set() == Set::<u32>::empty(),
            b.counter() == 0,
            b.spec_max_deltas() == max_deltas,
            b.spec_max_delta_size() == max_delta_size,
    {
        let mut deltas: Vec<RoaringBitmap> = Vec::new();
        deltas.push(bitmap_new());
        LsmBitmap {
            base: bitmap_new(),
            deltas,
            max_deltas,
            max_delta_size,
            compaction_counter: 0,
            compaction_in_progress: false,
        }
    }

    /// Adds the value to the delta; when a compaction is then due, merges the delta
    /// into the base. Every value queried before is queried after, and the new one too.
    pub fn insert(&mut self, id: u32)
        requires
            old(self).wf(),
        ensures
            final(self).wf(),
            final(self).values() == old(self).values().insert(id),
            final(self).spec_max_deltas() == old(self).spec_max_deltas(),
            final(self).spec_max_delta_size() == old(self).spec_max_delta_size(),
    {
        let mut last = self.deltas.pop().unwrap();
        bitmap_insert(&mut last, id);
        self.deltas.push(last);
        self.compaction_counter = self.compaction_counter + 1;
        proof {
            assert(self.deltas@[0] == last);
        }
        if self.should_compact() {
            self.compact();
        } else {
            proof {
                assert(self.compaction_counter < COMPACTION_INSERTS);
            }
        }
        proof {
            assert(self.values() =~= old(self).values().insert(id));
        }
    }

    /// Removes the value from the base and from every delta.
    pub fn remove(&mut self, id: u32)
        requires
            old(self).wf(),
        ensures
            final(self).wf(),
            final(self).base_set() == old(self).base_set().remove(id),
            final(self).delta_set() == old(self).delta_set().remove(id),
            final(self).values() == old(self).values().remove(id),
            final(self).counter() == old(self).counter(),
            final(self).spec_max_deltas() == old(self).spec_max_deltas(),
            final(self).spec_max_delta_size() == old(self).spec_max_delta_size(),
    {
        bitmap_remove(&mut self.base, id);
        let mut last = self.deltas.pop().unwrap();
        bitmap_remove(&mut last, id);
        self.deltas.push(last);
        proof {
            assert(self.deltas@[0] == last);
            assert(self.values() =~= old(self).values().remove(id));
        }
    }

    /// The base and every delta together.
    pub fn query(&self) -> (r: RoaringBitmap)
        requires
            self.wf(),
        ensures
            bitmap_set(r) == self.values(),
    {
        let mut result = bitmap_clone(&self.base);
        let mut i: usize = 0;
        while i < self.deltas.len()
            invariant
                self.wf(),
                i <= 1,
                bitmap_set(result) == (if i == 0 {
                    self.base_set()
                } else {
                    self.values()
                }),
            decreases 1 - i,
        {
            bitmap_or_assign(&mut result, &self.deltas[i]);
            i = i + 1;
        }
        result
    }

    /// Whether a delta or the base holds the value.
    pub fn contains(&self, id: u32) -> (r: bool)
        requires
            self.wf(),
        ensures
            r == self.values().contains(id),
    {
        let mut i: usize = self.deltas.len();
        while i > 0
            invariant
                self.wf(),
                i <= 1,
                i == 0 ==> !self.delta_set().contains(id),
            decreases i,
        {
            i = i - 1;
            if bitmap_contains(&self.deltas[i], id) {
                return true;
            }
        }
        bitmap_contains(&self.base, id)
    }

    /// Whether a compaction is due (none runs while one is in progress).
    fn should_compact(&self) -> (r: bool)
        requires
            self.deltas@.len() == 1,
            !self.compaction_in_progress,
        ensures
            r == self.compaction_due(),
    {
        if self.compaction_in_progress {
            return false;
        }
        if self.deltas.len() >= self.max_deltas {
            return true;
        }
        let last = bitmap_len(&self.deltas[self.deltas.len() - 1]);
        if last >= self.max_delta_size as u64 {
            return true;
        }
        self.compaction_counter >= COMPACTION_INSERTS
    }

    /// Statistics.
    pub fn stats(&self) -> (s: LsmBitmapStats)
        requires
            self.wf(),
        ensures
            s == (LsmBitmapStats {
                base_cardinality: self.base_set().len() as u64,
                delta_count: 1,
                total_delta_entries: self.delta_set().len() as u64,
                estimated_total: (self.base_set().len() + self.delta_set().len()) as u64,
                compaction_in_progress: false,
            }),
    {
        proof {
            lemma_u32_set_bounded(self.base_set());
            lemma_u32_set_bounded(self.delta_set());
        }
        let base = bitmap_len(&self.base);
        let mut total_delta_entries: u64 = 0;
        let mut i: usize = 0;
        while i < self.deltas.len()
            invariant
                self.wf(),
                i <= 1,
                self.delta_set().len() <= 0x1_0000_0000,
                total_delta_entries == (if i == 0 {
                    0
                } else {
                    self.delta_set().len()
                }),
            decreases 1 - i,
        {
            total_delta_entries = total_delta_entries + bitmap_len(&self.deltas[i]);
            i = i + 1;
        }
        LsmBitmapStats {
            base_cardinality: base,
            delta_count: self.deltas.len(),
            total_delta_entries,
            estimated_total: base + total_delta_entries,
            compaction_in_progress: self.compaction_in_progress,
        }
    }

    /// Merges the delta into the base, leaves one empty delta, and resets the insert count.
    pub fn compact(&mut self)
        requires
            old(self).one_delta(),
        ensures
            final(self).wf(),
            final(self).base_set() == old(self).base_set().union(old(self).delta_set()),
            final(self).delta_set() == Set::<u32>::empty(),
            final(self).values() == old(self).values(),
            final(self).counter() == 0,
            final(self).spec_max_deltas() == old(self).spec_max_deltas(),
            final(self).spec_max_delta_size() == old(self).spec_max_delta_size(),
    {
        let mut new_base = bitmap_clone(&self.base);
        let mut i: usize = 0;
        while i < self.deltas.len()
            invariant
                self.deltas@ == old(self).deltas@,
                self.deltas@.len() == 1,
                i <= 1,
                bitmap_set(new_base) == (if i == 0 {
                    bitmap_set(old(self).base)
                } else {
                    bitmap_set(old(self).base).union(bitmap_set(old(self).deltas@[0]))
                }),
            decreases 1 - i,
        {
            bitmap_or_assign(&mut new_base, &self.deltas[i]);
            i = i + 1;
        }
        self.deltas.clear();
        self.deltas.push(bitmap_new());
        self.base = new_base;
        self.compaction_counter = 0;
        self.compaction_in_progress = false;
    }
}

impl Default for LsmBitmap {
    fn default() -> (b: Self)
        ensures
            b.wf(),
            b.base_set() == Set::<u32>::empty(),
            b.delta_set() == Set::<u32>::empty(),
            b.counter() == 0,
    {
        Self::new()
    }
}

/// A call that changes an `LsmBitmap`'s values: `insert`, `remove` or `compact`.
pub enum LsmOp {
    Insert(u32),
    Remove(u32),
    Compact,
}

/// The values after the calls, in order, from `values`, as each call's contract states
/// its effect on `values()`.
pub open spec fn values_after(values: Set<u32>, ops: Seq<LsmOp>) -> Set<u32>
    decreases ops.len(),
{
    if ops.len() == 0 {
        values
    } else {
        let before = values_after(values, ops.drop_last());
        match ops.last() {
            LsmOp::Insert(x) => before.insert(x),
            LsmOp::Remove(x) => before.remove(x),
            LsmOp::Compact => before,
        }
    }
}

/// An id the bitmap holds stays queried, through inserts and compactions, until it is
/// removed.
pub proof fn lemma_held_until_removed(values: Set<u32>, ops: Seq<LsmOp>, id: u32)
    requires
        values.contains(id),
        forall|i: int| 0 <= i < ops.len() ==> #[trigger] ops[i] != LsmOp::Remove(id),
    ensures
        values_after(values, ops).contains(id),
    decreases ops.len(),
{
    if ops.len() > 0 {
        assert forall|i: int| 0 <= i < ops.drop_last().len() implies #[trigger] ops.drop_last()[i] != LsmOp::Remove(id) by {
            assert(ops.drop_last()[i] == ops[i]);
        }
        lemma_held_until_removed(values, ops.drop_last(), id);
        assert(ops.last() == ops[ops.len() - 1]);
    }
}

} // verus!
