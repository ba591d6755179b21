//! Index from account data size to the accounts of that size.
use crate::index::keyed_bitmap::{regroup, lists_ascending, KeyedBitmapIndex};
use crate::index::sort_distinct;
use crate::pubkey::Pubkey;
use std::path::PathBuf;
use vstd::prelude::*;

verus! {

/// Data size index: each data size maps to a bitmap of account ids.
pub struct DataSizeIndex {
    core: KeyedBitmapIndex<u64>,
    index_path: PathBuf,
}

/// Data size index statistics.
#[derive(Debug, Clone, Copy, Default)]
pub struct DataSizeIndexStats {
    pub unique_sizes: u64,
    pub total_accounts: u64,
}

impl DataSizeIndex {
    /// Where the files are kept.
    pub closed spec fn index_path(&self) -> PathBuf {
        self.index_path
    }

    /// The account ids under each size.
    pub closed spec fn sizes(&self) -> Map<u64, Set<u64>> {
        self.core.groups()
    }

    /// The size each account was last added with.
    pub closed spec fn size_of(&self) -> Map<Pubkey, u64> {
        self.core.assigned()
    }

    /// The id of each account.
    pub closed spec fn ids(&self) -> Map<Pubkey, u64> {
        self.core.ids()
    }

    /// The account of each id.
    pub closed spec fn accounts(&self) -> Map<u64, Pubkey> {
        self.core.accounts()
    }

    /// Number of accounts indexed.
    pub closed spec fn total(&self) -> u64 {
        self.core.total()
    }

    pub closed spec fn wf(&self) -> bool {
        self.core.wf()
    }

    /// The total is the number of accounts indexed; an account's id lies under a size
    /// exactly when that is its current size, and under none once it is removed.
    pub proof fn lemma_one_size_per_account(&self)
        requires
            self.wf(),
        ensures
            self.size_of().dom().finite(),
            self.total() == self.size_of().len(),
            forall|p: Pubkey, k| #[trigger] self.size_of().contains_key(p) && #[trigger] self.sizes().contains_key(k)
                ==> (self.sizes()[k].contains(self.ids()[p]) <==> self.size_of()[p] == k),
            forall|p: Pubkey, k| !self.size_of().contains_key(p) && #[trigger] self.ids().contains_key(p)
                && #[trigger] self.sizes().contains_key(k) ==> !self.sizes()[k].contains(self.ids()[p]),
    {
        self.core.lemma_wf_exact();
    }

    /// An empty index keeping its files under `index_path`.
    pub fn new(index_path: PathBuf) -> (ix: Self)
        ensures
            ix.index_path() == index_path,
            ix.wf(),
            ix.sizes() == Map::<u64, Set<u64>>::empty(),
            ix.size_of() == Map::<Pubkey, u64>::empty(),
            ix.ids() == Map::<Pubkey, u64>::empty(),
            ix.total() == 0,
    {
        DataSizeIndex { core: KeyedBitmapIndex::new(), index_path }
    }

    /// Files the account under its data size (see `KeyedBitmapIndex::add`).
    pub fn add_account(&mut self, account: Pubkey, data_size: u64, _slot: u64)
        requires
            old(self).wf(),
            old(self).total() < u64::MAX || old(self).size_of().contains_key(account),
            old(self).ids().len() < u64::MAX || old(self).ids().contains_key(account),
        ensures
            final(self).wf(),
            final(self).ids() == (if old(self).ids().contains_key(account) {
                old(self).ids()
            } else {
                old(self).ids().insert(account, old(self).ids().len() as u64)
            }),
            final(self).sizes() == regroup(
                old(self).sizes(),
                (if old(self).size_of().contains_key(account) {
                    Some(old(self).size_of()[account])
                } else {
                    None
                }),
                data_size,
                final(self).ids()[account],
            ),
            final(self).size_of() == old(self).size_of().insert(account, data_size),
            final(self).total() == (if old(self).size_of().contains_key(account) {
                old(self).total()
            } else {
                (old(self).total() + 1) as u64
            }),
            final(self).accounts() == (if old(self).ids().contains_key(account) {
                old(self).accounts()
            } else {
                old(self).accounts().insert(old(self).ids().len() as u64, account)
            }),
    {
        self.core.add(account, data_size);
    }

    /// Takes the account out of its size's bitmap (see `KeyedBitmapIndex::remove`).
    pub fn remove_account(&mut self, account: &Pubkey)
        requires
            old(self).wf(),
        ensures
            final(self).wf(),
            final(self).ids() == old(self).ids(),
            final(self).accounts() == old(self).accounts(),
            final(self).size_of() == old(self).size_of().remove(*account),
            old(self).size_of().contains_key(*account) ==> final(self).total() == (if old(
                self,
            ).total() > 0 {
                (old(self).total() - 1) as u64
            } else {
                0
            }) && final(self).sizes() == (if old(self).sizes().contains_key(
                old(self).size_of()[*account],
            ) {
                old(self).sizes().insert(
                    old(self).size_of()[*account],
                    old(self).sizes()[old(self).size_of()[*account]].remove(
                        old(self).ids()[*account],
                    ),
                )
            } else {
                old(self).sizes()
            }),
            !old(self).size_of().contains_key(*account) ==> final(self).total() == old(
                self,
            ).total() && final(self).sizes() == old(self).sizes(),
    {
        self.core.remove(account);
    }

    /// The accounts with the size, in ascending id order; none when no account ever had it.
    pub fn get_accounts_by_size(&self, data_size: u64) -> (r: Option<Vec<Pubkey>>)
        requires
            self.wf(),
            self.ids().len() < usize::MAX,
        ensures
            r is None <==> !self.sizes().contains_key(data_size),
            r matches Some(v) ==> forall|a: Pubkey| #[trigger] v@.contains(a) <==> (self.size_of().contains_key(a)
                && self.size_of()[a] == data_size),
            r is None ==> forall|a: Pubkey| #[trigger] self.size_of().contains_key(a) ==> self.size_of()[a] != data_size,
            r matches Some(v) ==> exists|l: Seq<u64>|
                lists_ascending(self.sizes()[data_size], l) && v@ == l.map_values(
                    |id: u64| self.accounts()[id],
                ),
    {
        self.core.accounts_for(&data_size)
    }

    /// The size the account was last added with.
    pub fn get_size_for_account(&self, account: &Pubkey) -> (r: Option<u64>)
        requires
            self.wf(),
        ensures
            r == (if self.size_of().contains_key(*account) {
                Some(self.size_of()[*account])
            } else {
                None::<u64>
            }),
    {
        self.core.key_of(account)
    }

    /// Every size with a bitmap, ascending.
    pub fn get_all_sizes(&self) -> (v: Vec<u64>)
        requires
            self.wf(),
        ensures
            forall|i: int, j: int| 0 <= i < j < v@.len() ==> v@[i] < v@[j],
            v@.to_set() == self.sizes().dom(),
    {
        let keys = self.core.keys();
        proof {
            assert forall|i: int, j: int|
                0 <= i < keys@.len() && 0 <= j < keys@.len() && i != j implies keys@[i]
                != keys@[j] by {
                if i < j {
                    assert(keys@[i]@ != keys@[j]@);
                } else {
                    assert(keys@[j]@ != keys@[i]@);
                }
            }
        }
        let v = sort_distinct(&keys);
        proof {
            assert forall|k: u64| v@.to_set().contains(k) <==> self.sizes().dom().contains(k) by {
                if self.sizes().contains_key(k) {
                    let i = choose|i: int| 0 <= i < keys@.len() && keys@[i]@ == k;
                    assert(keys@.to_set().contains(keys@[i]));
                }
                if keys@.to_set().contains(k) {
                    assert(keys@.contains(k));
                    let i = choose|i: int| 0 <= i < keys@.len() && keys@[i] == k;
                    assert(self.sizes().contains_key(keys@[i]@));
                }
            }
            assert(v@.to_set() =~= self.sizes().dom());
        }
        v
    }

    /// Number of sizes with a bitmap and the running total.
    pub fn stats(&self) -> (s: DataSizeIndexStats)
        requires
            self.wf(),
        ensures
            s.unique_sizes == self.sizes().len(),
            s.total_accounts == self.total(),
    {
        DataSizeIndexStats {
            unique_sizes: self.core.key_count() as u64,
            total_accounts: self.core.total_accounts(),
        }
    }
}

} // verus!
