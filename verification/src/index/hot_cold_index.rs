//! Accounts split by how recently they were accessed: hot, warm and cold tiers,
//! each an LSM bitmap, per program.
use crate::collections::KeyMap;
use crate::index::lsm_bitmap::LsmBitmap;
use crate::pubkey::Pubkey;
use crate::roaring_sets::{bitmap_or_assign, bitmap_set};
use roaring::RoaringBitmap;
use vstd::prelude::*;

verus! {

/// Accesses within this many slots keep an account hot.
pub const HOT_THRESHOLD_SLOTS: u64 = 100;

/// Accesses within this many slots keep an account warm.
pub const WARM_THRESHOLD_SLOTS: u64 = 10_000;

/// The storage tier of an account.
#[derive(Debug, Clone, Copy, PartialEq, Eq, Structural)]
pub enum StorageTier {
    /// Accessed less than 100 slots ago.
    Hot,
    /// Accessed less than 10,000 slots ago.
    Warm,
    /// Accessed longer ago.
    Cold,
}

/// The tier of an account last accessed `since` slots ago.
pub open spec fn tier_for(since: u64) -> StorageTier {
    if since < HOT_THRESHOLD_SLOTS {
        StorageTier::Hot
    } else if since < WARM_THRESHOLD_SLOTS {
        StorageTier::Warm
    } else {
        StorageTier::Cold
    }
}

/// Access metadata of an account.
#[derive(Debug, Clone, Copy, PartialEq, Eq, Structural)]
pub struct AccountMetadata {
    pub last_access_slot: u64,
    pub access_count: u64,
    pub tier: StorageTier,
}

impl AccountMetadata {
    /// An account first accessed at `current_slot`: one access, hot.
    pub fn new(current_slot: u64) -> (m: Self)
        ensures
            m == (AccountMetadata { last_access_slot: current_slot, access_count: 1, tier: StorageTier::Hot }),
    {
        AccountMetadata { last_access_slot: current_slot, access_count: 1, tier: StorageTier::Hot }
    }

    /// Records an access at `current_slot` and returns the new tier, which is hot,
    /// since the account was accessed just now.
    pub fn access(&mut self, current_slot: u64) -> (t: StorageTier)
        requires
            old(self).access_count < u64::MAX,
        ensures
            *final(self) == (AccountMetadata {
                last_access_slot: current_slot,
                access_count: (old(self).access_count + 1) as u64,
                tier: StorageTier::Hot,
            }),
            t == StorageTier::Hot,
    {
        self.last_access_slot = current_slot;
        self.access_count = self.access_count + 1;
        self.tier = self.calculate_tier(current_slot);
        self.tier
    }

    /// The tier by the slots since the last access (none when the slot is earlier).
    pub fn calculate_tier(&self, current_slot: u64) -> (t: StorageTier)
        ensures
            t == tier_for(if current_slot >= self.last_access_slot {
                (current_slot - self.last_access_slot) as u64
            } else {
                0
            }),
    {
        let since = current_slot.saturating_sub(self.last_access_slot);
        if since < HOT_THRESHOLD_SLOTS {
            StorageTier::Hot
        } else if since < WARM_THRESHOLD_SLOTS {
            StorageTier::Warm
        } else {
            StorageTier::Cold
        }
    }
}

/// Tiered index statistics.
#[derive(Debug, Clone, Copy, PartialEq, Eq, Structural)]
pub struct TieredIndexStats {
    pub hot_cardinality: u64,
    pub warm_cardinality: u64,
    pub cold_cardinality: u64,
    pub total_accounts: u64,
}

/// The hot, warm and cold bitmaps of one program, and the accounts' metadata.
pub struct TieredIndex {
    hot_index: LsmBitmap,
    warm_index: LsmBitmap,
    cold_index: LsmBitmap,
    metadata: KeyMap<Pubkey, AccountMetadata>,
    current_slot: u64,
}

/// The entries an LSM bitmap's statistics count: base and delta, each in full.
pub open spec fn estimated_total(b: LsmBitmap) -> nat {
    b.base_set().len() + b.delta_set().len()
}

impl TieredIndex {
    pub closed spec fn hot(&self) -> LsmBitmap {
        self.hot_index
    }

    pub closed spec fn warm(&self) -> LsmBitmap {
        self.warm_index
    }

    pub closed spec fn cold(&self) -> LsmBitmap {
        self.cold_index
    }

    /// The metadata of each account.
    pub closed spec fn accounts(&self) -> Map<Pubkey, AccountMetadata> {
        self.metadata@
    }

    pub closed spec fn spec_slot(&self) -> u64 {
        self.current_slot
    }

    pub closed spec fn wf(&self) -> bool {
        &&& self.hot_index.wf()
        &&& self.warm_index.wf()
        &&& self.cold_index.wf()
        &&& self.metadata.wf()
    }

    /// Empty tiers at slot 0.
    pub fn new() -> (ix: Self)
        ensures
            ix.wf(),
            ix.hot().values() == Set::<u32>::empty(),
            ix.warm().values() == Set::<u32>::empty(),
            ix.cold().values() == Set::<u32>::empty(),
            ix.accounts() == Map::<Pubkey, AccountMetadata>::empty(),
            ix.spec_slot() == 0,
            ix.hot().is_new(),
            ix.warm().is_new(),
            ix.cold().is_new(),
    {
        let ix = TieredIndex {
            hot_index: LsmBitmap::new(),
            warm_index: LsmBitmap::new(),
            cold_index: LsmBitmap::new(),
            metadata: KeyMap::new(),
            current_slot: 0,
        };
        assert(ix.hot().values() =~= Set::<u32>::empty());
        assert(ix.warm().values() =~= Set::<u32>::empty());
        assert(ix.cold().values() =~= Set::<u32>::empty());
        ix
    }

    /// Sets the current slot.
    pub fn set_current_slot(&mut self, slot: u64)
        ensures
            final(self).spec_slot() == slot,
            final(self).hot() == old(self).hot(),
            final(self).warm() == old(self).warm(),
            final(self).cold() == old(self).cold(),
            final(self).accounts() == old(self).accounts(),
            final(self).wf() == old(self).wf(),
    {
        self.current_slot = slot;
    }

    /// Adds a new account: it goes to the hot tier, and its metadata starts at the
    /// current slot.
    pub fn insert_account(&mut self, account_id: u32, pubkey: Pubkey)
        requires
            old(self).wf(),
        ensures
            final(self).wf(),
            final(self).hot().values() == old(self).hot().values().insert(account_id),
            final(self).warm() == old(self).warm(),
            final(self).cold() == old(self).cold(),
            final(self).accounts() == old(self).accounts().insert(
                pubkey,
                AccountMetadata { last_access_slot: old(self).spec_slot(), access_count: 1, tier: StorageTier::Hot },
            ),
            final(self).spec_slot() == old(self).spec_slot(),
    {
        let metadata = AccountMetadata::new(self.current_slot);
        match metadata.tier {
            StorageTier::Hot => self.hot_index.insert(account_id),
            StorageTier::Warm => self.warm_index.insert(account_id),
            StorageTier::Cold => self.cold_index.insert(account_id),
        }
        self.metadata.insert(pubkey, metadata);
    }

    /// Records an access: a known account's metadata is updated, an unknown one is
    /// added; either way the account is now hot.
    pub fn access_account(&mut self, _account_id: u32, pubkey: Pubkey) -> (t: StorageTier)
        requires
            old(self).wf(),
            old(self).accounts().contains_key(pubkey) ==> old(self).accounts()[pubkey].access_count < u64::MAX,
        ensures
            final(self).wf(),
            t == StorageTier::Hot,
            final(self).accounts() == old(self).accounts().insert(
                pubkey,
                if old(self).accounts().contains_key(pubkey) {
                    AccountMetadata {
                        last_access_slot: old(self).spec_slot(),
                        access_count: (old(self).accounts()[pubkey].access_count + 1) as u64,
                        tier: StorageTier::Hot,
                    }
                } else {
                    AccountMetadata { last_access_slot: old(self).spec_slot(), access_count: 1, tier: StorageTier::Hot }
                },
            ),
            final(self).hot() == old(self).hot(),
            final(self).warm() == old(self).warm(),
            final(self).cold() == old(self).cold(),
            final(self).spec_slot() == old(self).spec_slot(),
    {
        let current = self.current_slot;
        match self.metadata.remove(&pubkey) {
            Some(mut m) => {
                let t = m.access(current);
                self.metadata.insert(pubkey, m);
                t
            },
            None => {
                let m = AccountMetadata::new(current);
                let t = m.tier;
                self.metadata.insert(pubkey, m);
                t
            },
        }
    }

    /// The hot tier's ids.
    pub fn query_hot(&self) -> (r: RoaringBitmap)
        requires
            self.wf(),
        ensures
            bitmap_set(r) == self.hot().values(),
    {
        self.hot_index.query()
    }

    /// The warm tier's ids.
    pub fn query_warm(&self) -> (r: RoaringBitmap)
        requires
            self.wf(),
        ensures
            bitmap_set(r) == self.warm().values(),
    {
        self.warm_index.query()
    }

    /// The cold tier's ids.
    pub fn query_cold(&self) -> (r: RoaringBitmap)
        requires
            self.wf(),
        ensures
            bitmap_set(r) == self.cold().values(),
    {
        self.cold_index.query()
    }

    /// The ids of every tier.
    pub fn query_all(&self) -> (r: RoaringBitmap)
        requires
            self.wf(),
        ensures
            bitmap_set(r) == self.hot().values().union(self.warm().values()).union(self.cold().values()),
    {
        let mut result = self.hot_index.query();
        bitmap_or_assign(&mut result, &self.warm_index.query());
        bitmap_or_assign(&mut result, &self.cold_index.query());
        result
    }

    /// The tiers' entry counts (base and delta each counted in full) and the number
    /// of accounts with metadata.
    pub fn stats(&self) -> (s: TieredIndexStats)
        requires
            self.wf(),
        ensures
            s == (TieredIndexStats {
                hot_cardinality: estimated_total(self.hot()) as u64,
                warm_cardinality: estimated_total(self.warm()) as u64,
                cold_cardinality: estimated_total(self.cold()) as u64,
                total_accounts: self.accounts().len() as u64,
            }),
    {
        let hot = self.hot_index.stats();
        let warm = self.warm_index.stats();
        let cold = self.cold_index.stats();
        let n = self.metadata.len();
        TieredIndexStats {
            hot_cardinality: hot.estimated_total,
            warm_cardinality: warm.estimated_total,
            cold_cardinality: cold.estimated_total,
            total_accounts: n as u64,
        }
    }

    /// Adds the id to the hot tier (the other tiers keep it if they hold it).
    pub fn promote_to_hot(&mut self, account_id: u32)
        requires
            old(self).wf(),
        ensures
            final(self).wf(),
            final(self).hot().values() == old(self).hot().values().insert(account_id),
            final(self).warm() == old(self).warm(),
            final(self).cold() == old(self).cold(),
            final(self).accounts() == old(self).accounts(),
            final(self).spec_slot() == old(self).spec_slot(),
    {
        self.hot_index.insert(account_id);
    }
}

impl Default for TieredIndex {
    fn default() -> (ix: Self)
        ensures
            ix.wf(),
            ix.accounts() == Map::<Pubkey, AccountMetadata>::empty(),
            ix.spec_slot() == 0,
    {
        Self::new()
    }
}

/// Global statistics over every program's tiers.
#[derive(Debug, Clone, Copy, PartialEq, Eq, Structural)]
pub struct HotColdGlobalStats {
    pub total_programs: u64,
    pub total_hot: u64,
    pub total_warm: u64,
    pub total_cold: u64,
    pub total_accounts: u64,
}

/// One tiered index per program.
pub struct HotColdIndexManager {
    program_indexes: KeyMap<Pubkey, TieredIndex>,
    current_slot: u64,
}

/// The sums of the statistics of the first `n` indexes.
pub open spec fn stats_sum(ixs: Seq<TieredIndex>, n: int) -> (int, int, int, int)
    decreases n,
{
    if n <= 0 {
        (0, 0, 0, 0)
    } else {
        let (h, w, c, a) = stats_sum(ixs, n - 1);
        let ix = ixs[n - 1];
        (
            h + (estimated_total(ix.hot()) as u64),
            w + (estimated_total(ix.warm()) as u64),
            c + (estimated_total(ix.cold()) as u64),
            a + (ix.accounts().len() as u64),
        )
    }
}

impl HotColdIndexManager {
    /// The index of each program.
    pub closed spec fn indexes(&self) -> Map<Pubkey, TieredIndex> {
        self.program_indexes@
    }

    /// The indexes in the order they were created.
    pub closed spec fn index_list(&self) -> Seq<TieredIndex> {
        self.program_indexes.pairs().map_values(|p: (Pubkey, TieredIndex)| p.1)
    }

    pub closed spec fn spec_slot(&self) -> u64 {
        self.current_slot
    }

    pub closed spec fn wf(&self) -> bool {
        &&& self.program_indexes.wf()
        &&& forall|p: Pubkey| #[trigger] self.program_indexes@.contains_key(p) ==> self.program_indexes@[p].wf()
    }

    /// No program, slot 0.
    pub fn new() -> (m: Self)
        ensures
            m.wf(),
            m.indexes() == Map::<Pubkey, TieredIndex>::empty(),
            m.spec_slot() == 0,
    {
        HotColdIndexManager { program_indexes: KeyMap::new(), current_slot: 0 }
    }

    /// Sets the current slot, here and in every program's index.
    pub fn update_slot(&mut self, slot: u64)
        requires
            old(self).wf(),
        ensures
            final(self).wf(),
            final(self).spec_slot() == slot,
            final(self).indexes().dom() == old(self).indexes().dom(),
            forall|p: Pubkey| #[trigger] final(self).indexes().contains_key(p) ==> {
                let a = final(self).indexes()[p];
                let b = old(self).indexes()[p];
                &&& a.spec_slot() == slot
                &&& a.hot() == b.hot()
                &&& a.warm() == b.warm()
                &&& a.cold() == b.cold()
                &&& a.accounts() == b.accounts()
            },
    {
        self.current_slot = slot;
        let n = self.program_indexes.len();
        let mut i: usize = 0;
        while i < n
            invariant
                i <= n,
                n == self.program_indexes.pairs().len(),
                self.current_slot == slot,
                self.program_indexes.wf(),
                self.program_indexes.pairs().len() == old(self).program_indexes.pairs().len(),
                forall|j: int| 0 <= j < n ==> (#[trigger] self.program_indexes.pairs()[j]).0
                    == old(self).program_indexes.pairs()[j].0,
                forall|j: int| 0 <= j < n ==> {
                    let a = (#[trigger] self.program_indexes.pairs()[j]).1;
                    let b = old(self).program_indexes.pairs()[j].1;
                    &&& a.hot() == b.hot()
                    &&& a.warm() == b.warm()
                    &&& a.cold() == b.cold()
                    &&& a.accounts() == b.accounts()
                    &&& a.wf() == b.wf()
                    &&& (j < i ==> a.spec_slot() == slot)
                    &&& (j >= i ==> a == b)
                },
            decreases n - i,
        {
            let ghost before = self.program_indexes;
            proof {
                before.lemma_update_at_any(i as int);
            }
            let ix = self.program_indexes.value_at_mut(i);
            ix.set_current_slot(slot);
            i = i + 1;
        }
        proof {
            old(self).program_indexes.lemma_len();
            self.program_indexes.lemma_len();
            assert forall|p: Pubkey| #[trigger] self.program_indexes@.contains_key(p) <==> old(
                self,
            ).program_indexes@.contains_key(p) by {
                if self.program_indexes@.contains_key(p) {
                    let j = self.program_indexes.lemma_key_in_pairs(p);
                    old(self).program_indexes.lemma_pair_in_map(j);
                }
                if old(self).program_indexes@.contains_key(p) {
                    let j = old(self).program_indexes.lemma_key_in_pairs(p);
                    self.program_indexes.lemma_pair_in_map(j);
                }
            }
            assert(self.indexes().dom() =~= old(self).indexes().dom());
            assert forall|p: Pubkey| #[trigger] self.indexes().contains_key(p) implies ({
                let a = self.indexes()[p];
                let b = old(self).indexes()[p];
                &&& a.spec_slot() == slot
                &&& a.hot() == b.hot()
                &&& a.warm() == b.warm()
                &&& a.cold() == b.cold()
                &&& a.accounts() == b.accounts()
                &&& a.wf() == b.wf()
            }) by {
                let j = self.program_indexes.lemma_key_in_pairs(p);
                self.program_indexes.lemma_pair_in_map(j);
                old(self).program_indexes.lemma_pair_in_map(j);
            }
        }
    }

    /// The program's index, created empty at the current slot when there is none.
    pub fn get_or_create_index(&mut self, program_id: Pubkey) -> (r: &mut TieredIndex)
        requires
            old(self).wf(),
        ensures
            old(self).indexes().contains_key(program_id) ==> *r == old(self).indexes()[program_id],
            !old(self).indexes().contains_key(program_id) ==> r.hot().values() == Set::<u32>::empty()
                && r.warm().values() == Set::<u32>::empty() && r.cold().values() == Set::<u32>::empty()
                && r.accounts() == Map::<Pubkey, AccountMetadata>::empty() && r.spec_slot()
                == old(self).spec_slot(),
            r.wf(),
            final(self).indexes() == old(self).indexes().insert(program_id, *final(r)),
            final(self).spec_slot() == old(self).spec_slot(),
            final(r).wf() ==> final(self).wf(),
    {
        if !self.program_indexes.contains_key(&program_id) {
            let mut ix = TieredIndex::new();
            ix.set_current_slot(self.current_slot);
            self.program_indexes.insert(program_id, ix);
        }
        let i = match self.program_indexes.find(&program_id) {
            Some(i) => i,
            None => 0,
        };
        let ghost mid = self.program_indexes;
        proof {
            mid.lemma_update_at_any(i as int);
            mid.lemma_pair_in_map(i as int);
        }
        self.program_indexes.value_at_mut(i)
    }

    /// Programs, and the sums of every index's statistics.
    pub fn global_stats(&self) -> (s: HotColdGlobalStats)
        requires
            self.wf(),
            ({
                let (h, w, c, a) = stats_sum(self.index_list(), self.index_list().len() as int);
                h <= u64::MAX && w <= u64::MAX && c <= u64::MAX && a <= u64::MAX
            }),
        ensures
            ({
                let (h, w, c, a) = stats_sum(self.index_list(), self.index_list().len() as int);
                s == (HotColdGlobalStats {
                    total_programs: self.indexes().len() as u64,
                    total_hot: h as u64,
                    total_warm: w as u64,
                    total_cold: c as u64,
                    total_accounts: a as u64,
                })
            }),
    {
        let n = self.program_indexes.len();
        let ghost list = self.index_list();
        let mut total_hot: u64 = 0;
        let mut total_warm: u64 = 0;
        let mut total_cold: u64 = 0;
        let mut total_accounts: u64 = 0;
        let mut i: usize = 0;
        proof {
            lemma_stats_sum_monotone(list, 0, n as int);
        }
        while i < n
            invariant
                self.wf(),
                i <= n,
                n == self.program_indexes.pairs().len(),
                list == self.index_list(),
                list.len() == n,
                ({
                    let (h, w, c, a) = stats_sum(list, n as int);
                    h <= u64::MAX && w <= u64::MAX && c <= u64::MAX && a <= u64::MAX
                }),
                (total_hot as int, total_warm as int, total_cold as int, total_accounts as int) == stats_sum(
                    list,
                    i as int,
                ),
            decreases n - i,
        {
            let p = self.program_indexes.pair_at(i);
            proof {
                self.program_indexes.lemma_pair_in_map(i as int);
                lemma_stats_sum_monotone(list, i + 1, n as int);
                assert(list[i as int] == p.1);
            }
            let st = p.1.stats();
            total_hot = total_hot + st.hot_cardinality;
            total_warm = total_warm + st.warm_cardinality;
            total_cold = total_cold + st.cold_cardinality;
            total_accounts = total_accounts + st.total_accounts;
            i = i + 1;
        }
        proof {
            self.program_indexes.lemma_len();
        }
        HotColdGlobalStats {
            total_programs: n as u64,
            total_hot,
            total_warm,
            total_cold,
            total_accounts,
        }
    }
}

proof fn lemma_stats_sum_monotone(ixs: Seq<TieredIndex>, a: int, b: int)
    requires
        0 <= a <= b,
    ensures
        stats_sum(ixs, a).0 <= stats_sum(ixs, b).0,
        stats_sum(ixs, a).1 <= stats_sum(ixs, b).1,
        stats_sum(ixs, a).2 <= stats_sum(ixs, b).2,
        stats_sum(ixs, a).3 <= stats_sum(ixs, b).3,
        0 <= stats_sum(ixs, a).0,
        0 <= stats_sum(ixs, a).1,
        0 <= stats_sum(ixs, a).2,
        0 <= stats_sum(ixs, a).3,
    decreases b,
{
    if b > a {
        lemma_stats_sum_monotone(ixs, a, b - 1);
    } else if a > 0 {
        lemma_stats_sum_monotone(ixs, a - 1, a - 1);
    }
}

impl Default for HotColdIndexManager {
    fn default() -> (m: Self)
        ensures
            m.wf(),
            m.indexes() == Map::<Pubkey, TieredIndex>::empty(),
            m.spec_slot() == 0,
    {
        Self::new()
    }
}

} // verus!
