//! Index from token owner to the token accounts of that owner.
use crate::index::keyed_bitmap::{regroup, lists_ascending, KeyedBitmapIndex};
use crate::pubkey::Pubkey;
use std::path::PathBuf;
use vstd::prelude::*;

verus! {

/// Token owner index: each owner maps to a bitmap of token account ids.
pub struct TokenOwnerIndex {
    core: KeyedBitmapIndex<Pubkey>,
    index_path: PathBuf,
}

/// Token owner index statistics.
#[derive(Debug, Clone, Copy, Default)]
pub struct TokenOwnerIndexStats {
    pub total_owners: u64,
    pub total_accounts: u64,
}

impl TokenOwnerIndex {
    /// Where the files are kept.
    pub closed spec fn index_path(&self) -> PathBuf {
        self.index_path
    }

    /// The token account ids under each owner.
    pub closed spec fn owners(&self) -> Map<Pubkey, Set<u64>> {
        self.core.groups()
    }

    /// The owner each token account was last added with.
    pub closed spec fn owner_of(&self) -> Map<Pubkey, Pubkey> {
        self.core.assigned()
    }

    /// The id of each token account.
    pub closed spec fn ids(&self) -> Map<Pubkey, u64> {
        self.core.ids()
    }

    /// The token account of each id.
    pub closed spec fn token_accounts(&self) -> Map<u64, Pubkey> {
        self.core.accounts()
    }

    /// Number of accounts indexed.
    pub closed spec fn total(&self) -> u64 {
        self.core.total()
    }

    pub closed spec fn wf(&self) -> bool {
        self.core.wf()
    }

    /// The total is the number of accounts indexed; an account's id lies under a owner
    /// exactly when that is its current owner, and under none once it is removed.
    pub proof fn lemma_one_owner_per_account(&self)
        requires
            self.wf(),
        ensures
            self.owner_of().dom().finite(),
            self.total() == self.owner_of().len(),
            forall|p: Pubkey, k| #[trigger] self.owner_of().contains_key(p) && #[trigger] self.owners().contains_key(k)
                ==> (self.owners()[k].contains(self.ids()[p]) <==> self.owner_of()[p] == k),
            forall|p: Pubkey, k| !self.owner_of().contains_key(p) && #[trigger] self.ids().contains_key(p)
                && #[trigger] self.owners().contains_key(k) ==> !self.owners()[k].contains(self.ids()[p]),
    {
        self.core.lemma_wf_exact();
    }

    /// An empty index keeping its files under `index_path`.
    pub fn new(index_path: PathBuf) -> (ix: Self)
        ensures
            ix.index_path() == index_path,
            ix.wf(),
            ix.owners() == Map::<Pubkey, Set<u64>>::empty(),
            ix.owner_of() == Map::<Pubkey, Pubkey>::empty(),
            ix.ids() == Map::<Pubkey, u64>::empty(),
            ix.total() == 0,
    {
        TokenOwnerIndex { core: KeyedBitmapIndex::new(), index_path }
    }

    /// Files the token account under its owner (see `KeyedBitmapIndex::add`).
    pub fn add_token_account(&mut self, token_account: Pubkey, owner: Pubkey, _slot: u64)
        requires
            old(self).wf(),
            old(self).total() < u64::MAX || old(self).owner_of().contains_key(token_account),
            old(self).ids().len() < u64::MAX || old(self).ids().contains_key(token_account),
        ensures
            final(self).wf(),
            final(self).ids() == (if old(self).ids().contains_key(token_account) {
                old(self).ids()
            } else {
                old(self).ids().insert(token_account, old(self).ids().len() as u64)
            }),
            final(self).owners() == regroup(
                old(self).owners(),
                (if old(self).owner_of().contains_key(token_account) {
                    Some(old(self).owner_of()[token_account])
                } else {
                    None
                }),
                owner,
                final(self).ids()[token_account],
            ),
            final(self).owner_of() == old(self).owner_of().insert(token_account, owner),
            final(self).total() == (if old(self).owner_of().contains_key(token_account) {
                old(self).total()
            } else {
                (old(self).total() + 1) as u64
            }),
            final(self).token_accounts() == (if old(self).ids().contains_key(token_account) {
                old(self).token_accounts()
            } else {
                old(self).token_accounts().insert(old(self).ids().len() as u64, token_account)
            }),
    {
        self.core.add(token_account, owner);
    }

    /// Takes the token account out of its owner's bitmap (see `KeyedBitmapIndex::remove`).
    pub fn remove_token_account(&mut self, token_account: &Pubkey)
        requires
            old(self).wf(),
        ensures
            final(self).wf(),
            final(self).ids() == old(self).ids(),
            final(self).token_accounts() == old(self).token_accounts(),
            final(self).owner_of() == old(self).owner_of().remove(*token_account),
            old(self).owner_of().contains_key(*token_account) ==> final(self).total() == (if old(
                self,
            ).total() > 0 {
                (old(self).total() - 1) as u64
            } else {
                0
            }) && final(self).owners() == (if old(self).owners().contains_key(
                old(self).owner_of()[*token_account],
            ) {
                old(self).owners().insert(
                    old(self).owner_of()[*token_account],
                    old(self).owners()[old(self).owner_of()[*token_account]].remove(
                        old(self).ids()[*token_account],
                    ),
                )
            } else {
                old(self).owners()
            }),
            !old(self).owner_of().contains_key(*token_account) ==> final(self).total() == old(
                self,
            ).total() && final(self).owners() == old(self).owners(),
    {
        self.core.remove(token_account);
    }

    /// The token accounts of the owner, in ascending id order; none when no token
    /// account was ever filed under it.
    pub fn get_token_accounts_by_owner(&self, owner: &Pubkey) -> (r: Option<Vec<Pubkey>>)
        requires
            self.wf(),
            self.ids().len() < usize::MAX,
        ensures
            r is None <==> !self.owners().contains_key(*owner),
            r matches Some(v) ==> forall|a: Pubkey| #[trigger] v@.contains(a) <==> (self.owner_of().contains_key(a)
                && self.owner_of()[a] == *owner),
            r is None ==> forall|a: Pubkey| #[trigger] self.owner_of().contains_key(a) ==> self.owner_of()[a] != *owner,
            r matches Some(v) ==> exists|l: Seq<u64>|
                lists_ascending(self.owners()[*owner], l) && v@ == l.map_values(
                    |id: u64| self.token_accounts()[id],
                ),
    {
        let r = self.core.accounts_for(owner);
        proof {
            if let Some(v) = &r {
                let l = choose|l: Seq<u64>|
                    lists_ascending(self.core.groups()[*owner], l) && v@ == l.map_values(
                        |id: u64| self.core.accounts()[id],
                    );
                assert(l.map_values(|id: u64| self.core.accounts()[id]) =~= l.map_values(
                    |id: u64| self.token_accounts()[id],
                ));
                assert(self.owners()[*owner] == self.core.groups()[*owner]);
                assert(lists_ascending(self.owners()[*owner], l));
            }
        }
        r
    }

    /// The owner the token account was last added with.
    pub fn get_owner_for_token_account(&self, token_account: &Pubkey) -> (r: Option<Pubkey>)
        requires
            self.wf(),
        ensures
            r == (if self.owner_of().contains_key(*token_account) {
                Some(self.owner_of()[*token_account])
            } else {
                None::<Pubkey>
            }),
    {
        self.core.key_of(token_account)
    }

    /// Number of owners with a bitmap and the running total.
    pub fn stats(&self) -> (s: TokenOwnerIndexStats)
        requires
            self.wf(),
        ensures
            s.total_owners == self.owners().len(),
            s.total_accounts == self.total(),
    {
        TokenOwnerIndexStats {
            total_owners: self.core.key_count() as u64,
            total_accounts: self.core.total_accounts(),
        }
    }
}

} // verus!
