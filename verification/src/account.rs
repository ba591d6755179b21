//! Account views merging the delta and base layers.
use crate::location::{AccountLocation, StorageType};
use crate::pubkey::Pubkey;
use std::sync::Arc;
use vstd::prelude::*;

verus! {

/// A chain account as the validator stores it.
#[derive(Debug, Clone)]
pub struct Account {
    pub lamports: u64,
    pub data: Vec<u8>,
    pub owner: Pubkey,
    pub executable: bool,
    pub rent_epoch: u64,
}

/// The unified view of an account returned by reads.
#[derive(Debug, Clone)]
pub struct AccountView {
    pub pubkey: Pubkey,
    pub lamports: u64,
    pub data: Arc<Vec<u8>>,
    pub owner: Pubkey,
    pub executable: bool,
    /// Slot of the last modification.
    pub slot: u64,
    /// Write version for ordering within the slot.
    pub write_version: u64,
    pub rent_epoch: u64,
    /// Layer the account was read from.
    pub storage_type: StorageType,
    /// Where the account's bytes live.
    pub location: AccountLocation,
}

/// Slot first, then write version: whether `(slot, wv)` is at least `(s2, w2)`.
pub open spec fn at_least(slot: u64, wv: u64, s2: u64, w2: u64) -> bool {
    slot > s2 || (slot == s2 && wv >= w2)
}

impl AccountView {
    /// A view of a stored account at the given slot, write version and location.
    pub fn from_solana_account(
        pubkey: Pubkey,
        account: &Account,
        slot: u64,
        write_version: u64,
        location: AccountLocation,
    ) -> (v: Self)
        ensures
            v.pubkey == pubkey,
            v.lamports == account.lamports,
            v.data@ == account.data@,
            v.owner == account.owner,
            v.executable == account.executable,
            v.slot == slot,
            v.write_version == write_version,
            v.rent_epoch == account.rent_epoch,
            v.storage_type == location.storage_type,
            v.location == location,
    {
        AccountView {
            pubkey,
            lamports: account.lamports,
            data: Arc::new(vstd::slice::slice_to_vec(account.data.as_slice())),
            owner: account.owner,
            executable: account.executable,
            slot,
            write_version,
            rent_epoch: account.rent_epoch,
            storage_type: location.storage_type,
            location,
        }
    }

    /// The stored account behind the view.
    pub fn to_solana_account(&self) -> (a: Account)
        ensures
            a.lamports == self.lamports,
            a.data@ == self.data@,
            a.owner == self.owner,
            a.executable == self.executable,
            a.rent_epoch == self.rent_epoch,
    {
        Account {
            lamports: self.lamports,
            data: vstd::slice::slice_to_vec(self.data.as_slice()),
            owner: self.owner,
            executable: self.executable,
            rent_epoch: self.rent_epoch,
        }
    }

    /// Length of the account data.
    pub fn data_size(&self) -> (n: usize)
        ensures
            n == self.data@.len(),
    {
        self.data.len()
    }

    /// Whether the view is at least as new as `(slot, write_version)`.
    pub fn is_at_least(&self, slot: u64, write_version: u64) -> (r: bool)
        ensures
            r == at_least(self.slot, self.write_version, slot, write_version),
    {
        if self.slot != slot {
            self.slot >= slot
        } else {
            self.write_version >= write_version
        }
    }

    /// The first 8 data bytes, when there are at least 8.
    pub fn discriminator(&self) -> (d: Option<[u8; 8]>)
        ensures
            self.data@.len() >= 8 ==> (d matches Some(a) && a@ == self.data@.take(8)),
            self.data@.len() < 8 ==> d is None,
    {
        if self.data.len() >= 8 {
            let mut a = [0u8; 8];
            let mut i: usize = 0;
            while i < 8
                invariant
                    0 <= i <= 8,
                    self.data@.len() >= 8,
                    a@.len() == 8,
                    forall|j: int| 0 <= j < i ==> a@[j] == self.data@[j],
                decreases 8 - i,
            {
                a[i] = self.data[i];
                i = i + 1;
            }
            assert(a@ =~= self.data@.take(8));
            Some(a)
        } else {
            None
        }
    }
}

/// Account metadata kept by indexes in place of the full data.
#[derive(Debug, Clone, Copy)]
pub struct AccountMetadata {
    pub pubkey: Pubkey,
    pub owner: Pubkey,
    pub data_len: u32,
    pub lamports: u64,
    pub executable: bool,
    pub slot: u64,
    pub write_version: u64,
}

impl AccountMetadata {
    /// The metadata of a view (the data length cut to 32 bits).
    pub fn from_account_view(account: &AccountView) -> (m: Self)
        ensures
            m.pubkey == account.pubkey,
            m.owner == account.owner,
            m.data_len == account.data@.len() as u32,
            m.lamports == account.lamports,
            m.executable == account.executable,
            m.slot == account.slot,
            m.write_version == account.write_version,
    {
        AccountMetadata {
            pubkey: account.pubkey,
            owner: account.owner,
            data_len: account.data.len() as u32,
            lamports: account.lamports,
            executable: account.executable,
            slot: account.slot,
            write_version: account.write_version,
        }
    }
}

/// An account update as the validator plugin hands it over.
#[derive(Debug, Clone)]
pub struct GeyserAccountUpdate {
    pub pubkey: Pubkey,
    pub lamports: u64,
    pub owner: Pubkey,
    pub executable: bool,
    pub slot: u64,
    pub write_version: u64,
    pub rent_epoch: u64,
    pub data: Arc<Vec<u8>>,
    pub tx_index: Option<usize>,
    pub is_startup: bool,
}

impl GeyserAccountUpdate {
    /// The view of the update, stored at `location`.
    pub fn into_account_view(self, location: AccountLocation) -> (v: AccountView)
        ensures
            v.pubkey == self.pubkey,
            v.lamports == self.lamports,
            v.data == self.data,
            v.owner == self.owner,
            v.executable == self.executable,
            v.slot == self.slot,
            v.write_version == self.write_version,
            v.rent_epoch == self.rent_epoch,
            v.storage_type == location.storage_type,
            v.location == location,
    {
        AccountView {
            pubkey: self.pubkey,
            lamports: self.lamports,
            data: self.data,
            owner: self.owner,
            executable: self.executable,
            slot: self.slot,
            write_version: self.write_version,
            rent_epoch: self.rent_epoch,
            storage_type: location.storage_type,
            location,
        }
    }

    /// An update carrying a stored account, with no transaction index.
    pub fn from_solana_account(
        pubkey: Pubkey,
        account: &Account,
        slot: u64,
        write_version: u64,
        is_startup: bool,
    ) -> (u: Self)
        ensures
            u.pubkey == pubkey,
            u.lamports == account.lamports,
            u.owner == account.owner,
            u.executable == account.executable,
            u.slot == slot,
            u.write_version == write_version,
            u.rent_epoch == account.rent_epoch,
            u.data@ == account.data@,
            u.tx_index is None,
            u.is_startup == is_startup,
    {
        GeyserAccountUpdate {
            pubkey,
            lamports: account.lamports,
            owner: account.owner,
            executable: account.executable,
            slot,
            write_version,
            rent_epoch: account.rent_epoch,
            data: Arc::new(vstd::slice::slice_to_vec(account.data.as_slice())),
            tx_index: None,
            is_startup,
        }
    }
}

/// A batch of updates for one slot.
#[derive(Debug, Clone)]
pub struct AccountUpdateBatch {
    pub updates: Vec<GeyserAccountUpdate>,
    pub slot: u64,
    pub parent_slot: u64,
}

} // verus!
