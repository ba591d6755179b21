//! Index from account discriminators (the first 8 data bytes) to the accounts that carry them.
use crate::index::byte_order::{byte_views, lemma_ascending_distinct, lemma_byte_views, lex_ascending, sort_lex};
use crate::index::keyed_bitmap::{regroup, lists_ascending, KeyedBitmapIndex};
use crate::pubkey::Pubkey;
use std::path::PathBuf;
use vstd::prelude::*;

verus! {

/// An 8-byte account type tag.
pub type Discriminator = [u8; 8];

/// Discriminator index: each discriminator maps to a bitmap of account ids.
pub struct DiscriminatorIndex {
    core: KeyedBitmapIndex<[u8; 8]>,
    index_path: PathBuf,
}

/// Discriminator index statistics.
#[derive(Debug, Clone, Copy, Default)]
pub struct DiscriminatorIndexStats {
    pub unique_discriminators: u64,
    pub total_accounts: u64,
}

impl DiscriminatorIndex {
    /// Where the files are kept.
    pub closed spec fn index_path(&self) -> PathBuf {
        self.index_path
    }

    /// The account ids under each discriminator.
    pub closed spec fn discriminators(&self) -> Map<Seq<u8>, Set<u64>> {
        self.core.groups()
    }

    /// The discriminator each account was last added with.
    pub closed spec fn discriminator_of(&self) -> Map<Pubkey, Discriminator> {
        self.core.assigned()
    }

    /// The id of each account.
    pub closed spec fn ids(&self) -> Map<Pubkey, u64> {
        self.core.ids()
    }

    /// The account of each id.
    pub closed spec fn accounts(&self) -> Map<u64, Pubkey> {
        self.core.accounts()
    }

    /// Number of accounts indexed.
    pub closed spec fn total(&self) -> u64 {
        self.core.total()
    }

    pub closed spec fn wf(&self) -> bool {
        self.core.wf()
    }

    /// The total is the number of accounts indexed; an account's id lies under a discriminator
    /// exactly when that is its current discriminator, and under none once it is removed.
    pub proof fn lemma_one_discriminator_per_account(&self)
        requires
            self.wf(),
        ensures
            self.discriminator_of().dom().finite(),
            self.total() == self.discriminator_of().len(),
            forall|p: Pubkey, k| #[trigger] self.discriminator_of().contains_key(p) && #[trigger] self.discriminators().contains_key(k)
                ==> (self.discriminators()[k].contains(self.ids()[p]) <==> self.discriminator_of()[p]@ == k),
            forall|p: Pubkey, k| !self.discriminator_of().contains_key(p) && #[trigger] self.ids().contains_key(p)
                && #[trigger] self.discriminators().contains_key(k) ==> !self.discriminators()[k].contains(self.ids()[p]),
    {
        self.core.lemma_wf_exact();
    }

    /// An empty index keeping its files under `index_path`.
    pub fn new(index_path: PathBuf) -> (ix: Self)
        ensures
            ix.index_path() == index_path,
            ix.wf(),
            ix.discriminators() == Map::<Seq<u8>, Set<u64>>::empty(),
            ix.discriminator_of() == Map::<Pubkey, Discriminator>::empty(),
            ix.ids() == Map::<Pubkey, u64>::empty(),
            ix.total() == 0,
    {
        DiscriminatorIndex { core: KeyedBitmapIndex::new(), index_path }
    }

    /// Files the account under its discriminator (see `KeyedBitmapIndex::add`).
    pub fn add_account(&mut self, account: Pubkey, discriminator: Discriminator, _slot: u64)
        requires
            old(self).wf(),
            old(self).total() < u64::MAX || old(self).discriminator_of().contains_key(account),
            old(self).ids().len() < u64::MAX || old(self).ids().contains_key(account),
        ensures
            final(self).wf(),
            final(self).ids() == (if old(self).ids().contains_key(account) {
                old(self).ids()
            } else {
                old(self).ids().insert(account, old(self).ids().len() as u64)
            }),
            final(self).discriminators() == regroup(
                old(self).discriminators(),
                (if old(self).discriminator_of().contains_key(account) {
                    Some(old(self).discriminator_of()[account]@)
                } else {
                    None
                }),
                discriminator@,
                final(self).ids()[account],
            ),
            final(self).discriminator_of() == old(self).discriminator_of().insert(account, discriminator),
            final(self).total() == (if old(self).discriminator_of().contains_key(account) {
                old(self).total()
            } else {
                (old(self).total() + 1) as u64
            }),
            final(self).accounts() == (if old(self).ids().contains_key(account) {
                old(self).accounts()
            } else {
                old(self).accounts().insert(old(self).ids().len() as u64, account)
            }),
    {
        self.core.add(account, discriminator);
    }

    /// Takes the account out of its discriminator's bitmap (see `KeyedBitmapIndex::remove`).
    pub fn remove_account(&mut self, account: &Pubkey)
        requires
            old(self).wf(),
        ensures
            final(self).wf(),
            final(self).ids() == old(self).ids(),
            final(self).accounts() == old(self).accounts(),
            final(self).discriminator_of() == old(self).discriminator_of().remove(*account),
            old(self).discriminator_of().contains_key(*account) ==> final(self).total() == (if old(
                self,
            ).total() > 0 {
                (old(self).total() - 1) as u64
            } else {
                0
            }) && final(self).discriminators() == (if old(self).discriminators().contains_key(
                old(self).discriminator_of()[*account]@,
            ) {
                old(self).discriminators().insert(
                    old(self).discriminator_of()[*account]@,
                    old(self).discriminators()[old(self).discriminator_of()[*account]@].remove(
                        old(self).ids()[*account],
                    ),
                )
            } else {
                old(self).discriminators()
            }),
            !old(self).discriminator_of().contains_key(*account) ==> final(self).total() == old(
                self,
            ).total() && final(self).discriminators() == old(self).discriminators(),
    {
        self.core.remove(account);
    }

    /// The accounts with the discriminator, in ascending id order; none when no account ever had it.
    pub fn get_accounts_by_discriminator(&self, discriminator: Discriminator) -> (r: Option<Vec<Pubkey>>)
        requires
            self.wf(),
            self.ids().len() < usize::MAX,
        ensures
            r is None <==> !self.discriminators().contains_key(discriminator@),
            r matches Some(v) ==> forall|a: Pubkey| #[trigger] v@.contains(a) <==> (self.discriminator_of().contains_key(a)
                && self.discriminator_of()[a]@ == discriminator@),
            r is None ==> forall|a: Pubkey| #[trigger] self.discriminator_of().contains_key(a) ==> self.discriminator_of()[a]@ != discriminator@,
            r matches Some(v) ==> exists|l: Seq<u64>|
                lists_ascending(self.discriminators()[discriminator@], l) && v@ == l.map_values(
                    |id: u64| self.accounts()[id],
                ),
    {
        let r = self.core.accounts_for(&discriminator);
        proof {
            if r is Some {
                let v = r->0;
                let l = choose|l: Seq<u64>|
                    lists_ascending(self.core.groups()[discriminator@], l) && v@ == l.map_values(
                        |id: u64| self.core.accounts()[id],
                    );
                assert(v@ =~= l.map_values(|id: u64| self.accounts()[id]));
                assert(lists_ascending(self.discriminators()[discriminator@], l));
            }
        }
        r
    }

    /// The discriminator the account was last added with.
    pub fn get_discriminator_for_account(&self, account: &Pubkey) -> (r: Option<Discriminator>)
        requires
            self.wf(),
        ensures
            r == (if self.discriminator_of().contains_key(*account) {
                Some(self.discriminator_of()[*account])
            } else {
                None::<Discriminator>
            }),
    {
        self.core.key_of(account)
    }

    /// Every discriminator with a bitmap, each once, in ascending byte order.
    pub fn get_all_discriminators(&self) -> (v: Vec<Discriminator>)
        requires
            self.wf(),
        ensures
            lex_ascending(v@),
            v@.len() == self.discriminators().len(),
            forall|i: int| 0 <= i < v@.len() ==> self.discriminators().contains_key((#[trigger] v@[i])@),
            forall|k: Seq<u8>| #[trigger]
                self.discriminators().contains_key(k) ==> exists|i: int| 0 <= i < v@.len() && v@[i]@ == k,
            forall|i: int, j: int| 0 <= i < j < v@.len() ==> (#[trigger] v@[i])@ != (#[trigger] v@[j])@,
    {
        let keys = self.core.keys();
        proof {
            lemma_byte_views(keys@);
        }
        let v = sort_lex(keys);
        proof {
            lemma_byte_views(v@);
            lemma_ascending_distinct(v@);
            assert forall|i: int| 0 <= i < v@.len() implies self.discriminators().contains_key((#[trigger] v@[i])@) by {
                assert(byte_views(v@).to_set().contains(v@[i]@));
                let j = choose|j: int| 0 <= j < keys@.len() && (#[trigger] keys@[j])@ == v@[i]@;
            }
            assert forall|k: Seq<u8>| #[trigger] self.discriminators().contains_key(k) implies exists|i: int|
                0 <= i < v@.len() && v@[i]@ == k by {
                let j = choose|j: int| 0 <= j < keys@.len() && keys@[j]@ == k;
                assert(byte_views(keys@).to_set().contains(keys@[j]@));
            }
        }
        v
    }

    /// Number of discriminators with a bitmap and the running total.
    pub fn stats(&self) -> (s: DiscriminatorIndexStats)
        requires
            self.wf(),
        ensures
            s.unique_discriminators == self.discriminators().len(),
            s.total_accounts == self.total(),
    {
        DiscriminatorIndexStats {
            unique_discriminators: self.core.key_count() as u64,
            total_accounts: self.core.total_accounts(),
        }
    }
}

} // verus!
