//! Intersection, union and difference of pubkey-id bitmaps.
use crate::bitmap::PubkeyBitmap;
use std::sync::Arc;
use vstd::prelude::*;

verus! {

/// The result of intersecting bitmaps.
pub struct IntersectionResult {
    pub bitmap: PubkeyBitmap,
    /// How many bitmaps were intersected.
    pub num_bitmaps: usize,
    /// Estimated time in microseconds: result size times bitmap count, over 1000.
    pub estimated_time_us: u64,
}

/// Intersects and unites bitmaps.
pub struct BitmapIntersectionEngine {
    buffer: Arc<PubkeyBitmap>,
}

/// The sets of a sequence of bitmaps.
pub open spec fn bitmap_sets(bitmaps: Seq<&PubkeyBitmap>) -> Seq<Set<u64>> {
    bitmaps.map_values(|b: &PubkeyBitmap| b@)
}

/// The ids in every set; none for no sets.
pub open spec fn intersect_all(s: Seq<Set<u64>>) -> Set<u64>
    decreases s.len(),
{
    if s.len() == 0 {
        Set::empty()
    } else if s.len() == 1 {
        s[0]
    } else {
        intersect_all(s.drop_last()).intersect(s.last())
    }
}

/// The ids in some set.
pub open spec fn union_all(s: Seq<Set<u64>>) -> Set<u64>
    decreases s.len(),
{
    if s.len() == 0 {
        Set::empty()
    } else if s.len() == 1 {
        s[0]
    } else {
        union_all(s.drop_last()).union(s.last())
    }
}

proof fn lemma_union_prefix_subset(s: Seq<Set<u64>>, i: int)
    requires
        1 <= i <= s.len(),
    ensures
        union_all(s.take(i)).subset_of(union_all(s)),
    decreases s.len() - i,
{
    if i < s.len() {
        lemma_union_prefix_subset(s, i + 1);
        assert(s.take(i + 1).drop_last() =~= s.take(i));
    } else {
        assert(s.take(i) =~= s);
    }
}

impl BitmapIntersectionEngine {
    /// The scratch bitmap's pubkey ids.
    pub closed spec fn scratch(&self) -> Set<u64> {
        (*self.buffer)@
    }

    /// An engine with an empty scratch bitmap.
    pub fn new() -> (e: Self)
        ensures
            e.scratch() == Set::<u64>::empty(),
    {
        BitmapIntersectionEngine { buffer: Arc::new(PubkeyBitmap::new()) }
    }

    /// Intersects the bitmaps, and estimates the time it took.
    pub fn intersect(&self, bitmaps: &[&PubkeyBitmap]) -> (r: IntersectionResult)
        requires
            forall|i: int| 0 <= i < bitmaps@.len() ==> (#[trigger] bitmaps@[i]).wf(),
            intersect_all(bitmap_sets(bitmaps@)).len() * bitmaps@.len() <= u64::MAX,
        ensures
            r.bitmap.wf(),
            r.bitmap@ == intersect_all(bitmap_sets(bitmaps@)),
            r.num_bitmaps == bitmaps@.len(),
            r.estimated_time_us == r.bitmap@.len() * bitmaps@.len() / 1000,
    {
        if bitmaps.len() == 0 {
            let b = PubkeyBitmap::new();
            return IntersectionResult { bitmap: b, num_bitmaps: 0, estimated_time_us: 0 };
        }
        let ghost sets = bitmap_sets(bitmaps@);
        let mut result = bitmaps[0].clone();
        let mut i: usize = 1;
        proof {
            assert(sets.take(1) =~= seq![sets[0]]);
        }
        while i < bitmaps.len()
            invariant
                1 <= i <= bitmaps@.len(),
                sets == bitmap_sets(bitmaps@),
                forall|k: int| 0 <= k < bitmaps@.len() ==> (#[trigger] bitmaps@[k]).wf(),
                result.wf(),
                result@ == intersect_all(sets.take(i as int)),
            decreases bitmaps@.len() - i,
        {
            result = result.intersection(bitmaps[i]);
            proof {
                assert(sets.take(i + 1).drop_last() =~= sets.take(i as int));
            }
            i = i + 1;
        }
        proof {
            assert(sets.take(i as int) =~= sets);
        }
        let estimated_time_us = (result.len() * bitmaps.len() as u64) / 1000;
        IntersectionResult { bitmap: result, num_bitmaps: bitmaps.len(), estimated_time_us }
    }

    /// The ids in both bitmaps.
    pub fn intersect_two(&self, a: &PubkeyBitmap, b: &PubkeyBitmap) -> (r: PubkeyBitmap)
        requires
            a.wf(),
            b.wf(),
        ensures
            r.wf(),
            r@ == a@.intersect(b@),
    {
        a.intersection(b)
    }

    /// Unites the bitmaps.
    pub fn union(&self, bitmaps: &[&PubkeyBitmap]) -> (r: PubkeyBitmap)
        requires
            forall|i: int| 0 <= i < bitmaps@.len() ==> (#[trigger] bitmaps@[i]).wf(),
            union_all(bitmap_sets(bitmaps@)).len() <= u64::MAX,
        ensures
            r.wf(),
            r@ == union_all(bitmap_sets(bitmaps@)),
    {
        if bitmaps.len() == 0 {
            return PubkeyBitmap::new();
        }
        let ghost sets = bitmap_sets(bitmaps@);
        let mut result = bitmaps[0].clone();
        let mut i: usize = 1;
        proof {
            assert(sets.take(1) =~= seq![sets[0]]);
        }
        while i < bitmaps.len()
            invariant
                1 <= i <= bitmaps@.len(),
                sets == bitmap_sets(bitmaps@),
                forall|k: int| 0 <= k < bitmaps@.len() ==> (#[trigger] bitmaps@[k]).wf(),
                union_all(sets).len() <= u64::MAX,
                result.wf(),
                result@ == union_all(sets.take(i as int)),
            decreases bitmaps@.len() - i,
        {
            proof {
                assert(sets.take(i + 1).drop_last() =~= sets.take(i as int));
                lemma_union_prefix_subset(sets, i + 1);
                assert(union_all(sets.take(i + 1)) == result@.union(bitmaps@[i as int]@));
                assert forall|k: int| 0 <= k < sets.len() implies (#[trigger] sets[k]).finite() by {
                    bitmaps@[k].lemma_wf_finite();
                }
                lemma_union_finite(sets);
                vstd::set_lib::lemma_len_subset(union_all(sets.take(i + 1)), union_all(sets));
            }
            result = result.union(bitmaps[i]);
            i = i + 1;
        }
        proof {
            assert(sets.take(i as int) =~= sets);
        }
        result
    }

    /// The ids in `a` and not in `b`.
    pub fn difference(&self, a: &PubkeyBitmap, b: &PubkeyBitmap) -> (r: PubkeyBitmap)
        requires
            a.wf(),
            b.wf(),
        ensures
            r.wf(),
            r@ == a@.difference(b@),
    {
        a.difference(b)
    }
}

proof fn lemma_union_finite(s: Seq<Set<u64>>)
    requires
        forall|i: int| 0 <= i < s.len() ==> (#[trigger] s[i]).finite(),
    ensures
        union_all(s).finite(),
    decreases s.len(),
{
    if s.len() > 1 {
        lemma_union_finite(s.drop_last());
    }
}

impl Default for BitmapIntersectionEngine {
    fn default() -> (e: Self) {
        Self::new()
    }
}

} // verus!
