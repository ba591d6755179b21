//! Index from token mint to the token accounts of that mint.
use crate::index::keyed_bitmap::{regroup, lists_ascending, KeyedBitmapIndex};
use crate::pubkey::Pubkey;
use std::path::PathBuf;
use vstd::prelude::*;

verus! {

/// Token mint index: each mint maps to a bitmap of token account ids.
pub struct TokenMintIndex {
    core: KeyedBitmapIndex<Pubkey>,
    index_path: PathBuf,
}

/// Token mint index statistics.
#[derive(Debug, Clone, Copy, Default)]
pub struct TokenMintIndexStats {
    pub total_mints: u64,
    pub total_accounts: u64,
}

impl TokenMintIndex {
    /// Where the files are kept.
    pub closed spec fn index_path(&self) -> PathBuf {
        self.index_path
    }

    /// The token account ids under each mint.
    pub closed spec fn mints(&self) -> Map<Pubkey, Set<u64>> {
        self.core.groups()
    }

    /// The mint each token account was last added with.
    pub closed spec fn mint_of(&self) -> Map<Pubkey, Pubkey> {
        self.core.assigned()
    }

    /// The id of each token account.
    pub closed spec fn ids(&self) -> Map<Pubkey, u64> {
        self.core.ids()
    }

    /// The token account of each id.
    pub closed spec fn token_accounts(&self) -> Map<u64, Pubkey> {
        self.core.accounts()
    }

    /// Number of accounts indexed.
    pub closed spec fn total(&self) -> u64 {
        self.core.total()
    }

    pub closed spec fn wf(&self) -> bool {
        self.core.wf()
    }

    /// The total is the number of accounts indexed; an account's id lies under a mint
    /// exactly when that is its current mint, and under none once it is removed.
    pub proof fn lemma_one_mint_per_account(&self)
        requires
            self.wf(),
        ensures
            self.mint_of().dom().finite(),
            self.total() == self.mint_of().len(),
            forall|p: Pubkey, k| #[trigger] self.mint_of().contains_key(p) && #[trigger] self.mints().contains_key(k)
                ==> (self.mints()[k].contains(self.ids()[p]) <==> self.mint_of()[p] == k),
            forall|p: Pubkey, k| !self.mint_of().contains_key(p) && #[trigger] self.ids().contains_key(p)
                && #[trigger] self.mints().contains_key(k) ==> !self.mints()[k].contains(self.ids()[p]),
    {
        self.core.lemma_wf_exact();
    }

    /// An empty index keeping its files under `index_path`.
    pub fn new(index_path: PathBuf) -> (ix: Self)
        ensures
            ix.index_path() == index_path,
            ix.wf(),
            ix.mints() == Map::<Pubkey, Set<u64>>::empty(),
            ix.mint_of() == Map::<Pubkey, Pubkey>::empty(),
            ix.ids() == Map::<Pubkey, u64>::empty(),
            ix.total() == 0,
    {
        TokenMintIndex { core: KeyedBitmapIndex::new(), index_path }
    }

    /// Files the token account under its mint (see `KeyedBitmapIndex::add`).
    pub fn add_token_account(&mut self, token_account: Pubkey, mint: Pubkey, _slot: u64)
        requires
            old(self).wf(),
            old(self).total() < u64::MAX || old(self).mint_of().contains_key(token_account),
            old(self).ids().len() < u64::MAX || old(self).ids().contains_key(token_account),
        ensures
            final(self).wf(),
            final(self).ids() == (if old(self).ids().contains_key(token_account) {
                old(self).ids()
            } else {
                old(self).ids().insert(token_account, old(self).ids().len() as u64)
            }),
            final(self).mints() == regroup(
                old(self).mints(),
                (if old(self).mint_of().contains_key(token_account) {
                    Some(old(self).mint_of()[token_account])
                } else {
                    None
                }),
                mint,
                final(self).ids()[token_account],
            ),
            final(self).mint_of() == old(self).mint_of().insert(token_account, mint),
            final(self).total() == (if old(self).mint_of().contains_key(token_account) {
                old(self).total()
            } else {
                (old(self).total() + 1) as u64
            }),
            final(self).token_accounts() == (if old(self).ids().contains_key(token_account) {
                old(self).token_accounts()
            } else {
                old(self).token_accounts().insert(old(self).ids().len() as u64, token_account)
            }),
    {
        self.core.add(token_account, mint);
    }

    /// Takes the token account out of its mint's bitmap (see `KeyedBitmapIndex::remove`).
    pub fn remove_token_account(&mut self, token_account: &Pubkey)
        requires
            old(self).wf(),
        ensures
            final(self).wf(),
            final(self).ids() == old(self).ids(),
            final(self).token_accounts() == old(self).token_accounts(),
            final(self).mint_of() == old(self).mint_of().remove(*token_account),
            old(self).mint_of().contains_key(*token_account) ==> final(self).total() == (if old(
                self,
            ).total() > 0 {
                (old(self).total() - 1) as u64
            } else {
                0
            }) && final(self).mints() == (if old(self).mints().contains_key(
                old(self).mint_of()[*token_account],
            ) {
                old(self).mints().insert(
                    old(self).mint_of()[*token_account],
                    old(self).mints()[old(self).mint_of()[*token_account]].remove(
                        old(self).ids()[*token_account],
                    ),
                )
            } else {
                old(self).mints()
            }),
            !old(self).mint_of().contains_key(*token_account) ==> final(self).total() == old(
                self,
            ).total() && final(self).mints() == old(self).mints(),
    {
        self.core.remove(token_account);
    }

    /// The token accounts of the mint, in ascending id order; none when no token
    /// account was ever filed under it.
    pub fn get_token_accounts_by_mint(&self, mint: &Pubkey) -> (r: Option<Vec<Pubkey>>)
        requires
            self.wf(),
            self.ids().len() < usize::MAX,
        ensures
            r is None <==> !self.mints().contains_key(*mint),
            r matches Some(v) ==> forall|a: Pubkey| #[trigger] v@.contains(a) <==> (self.mint_of().contains_key(a)
                && self.mint_of()[a] == *mint),
            r is None ==> forall|a: Pubkey| #[trigger] self.mint_of().contains_key(a) ==> self.mint_of()[a] != *mint,
            r matches Some(v) ==> exists|l: Seq<u64>|
                lists_ascending(self.mints()[*mint], l) && v@ == l.map_values(
                    |id: u64| self.token_accounts()[id],
                ),
    {
        let r = self.core.accounts_for(mint);
        proof {
            if let Some(v) = &r {
                let l = choose|l: Seq<u64>|
                    lists_ascending(self.core.groups()[*mint], l) && v@ == l.map_values(
                        |id: u64| self.core.accounts()[id],
                    );
                assert(l.map_values(|id: u64| self.core.accounts()[id]) =~= l.map_values(
                    |id: u64| self.token_accounts()[id],
                ));
                assert(self.mints()[*mint] == self.core.groups()[*mint]);
                assert(lists_ascending(self.mints()[*mint], l));
            }
        }
        r
    }

    /// The mint the token account was last added with.
    pub fn get_mint_for_token_account(&self, token_account: &Pubkey) -> (r: Option<Pubkey>)
        requires
            self.wf(),
        ensures
            r == (if self.mint_of().contains_key(*token_account) {
                Some(self.mint_of()[*token_account])
            } else {
                None::<Pubkey>
            }),
    {
        self.core.key_of(token_account)
    }

    /// Number of mints with a bitmap and the running total.
    pub fn stats(&self) -> (s: TokenMintIndexStats)
        requires
            self.wf(),
        ensures
            s.total_mints == self.mints().len(),
            s.total_accounts == self.total(),
    {
        TokenMintIndexStats {
            total_mints: self.core.key_count() as u64,
            total_accounts: self.core.total_accounts(),
        }
    }
}

} // verus!
