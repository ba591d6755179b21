//! Physical location of an account in storage.
use crate::pubkey::Pubkey;
use vstd::prelude::*;

verus! {

/// Discriminates between base (validator account files) and delta (append-only segment) storage.
#[derive(Debug, Clone, Copy, PartialEq, Eq, Hash, Structural)]
pub enum StorageType {
    /// Base layer: read-only validator account files.
    Base,
    /// Delta layer: append-only segment store.
    Delta,
    /// Compacted base segments.
    Compacted,
}

impl StorageType {
    /// The display name of the storage type.
    pub fn as_str(&self) -> (s: &'static str)
        ensures
            s@ == storage_type_name(*self),
    {
        match self {
            StorageType::Base => "base",
            StorageType::Delta => "delta",
            StorageType::Compacted => "compacted",
        }
    }
}

/// The display name of each storage type.
pub open spec fn storage_type_name(t: StorageType) -> Seq<char> {
    match t {
        StorageType::Base => "base"@,
        StorageType::Delta => "delta"@,
        StorageType::Compacted => "compacted"@,
    }
}

/// Where an account's bytes live: a byte range of a storage file.
#[derive(Debug, Clone, Copy, PartialEq, Eq, Hash, Structural)]
pub struct AccountLocation {
    /// Storage file identifier (base: account file id, delta: segment id).
    pub file_id: u64,
    /// Byte offset within the file.
    pub offset: u64,
    /// Total stored size including metadata.
    pub stored_size: u32,
    /// Offset where the account data starts, relative to `offset`.
    pub data_offset: u32,
    /// Length of the account data payload.
    pub data_len: u32,
    /// Slot when this account version was written.
    pub slot: u64,
    /// Monotonic write version for ordering within the same slot.
    pub write_version: u64,
    /// Storage layer.
    pub storage_type: StorageType,
}

/// Slot-first, then write-version ordering of account versions.
pub open spec fn newer(slot_a: u64, wv_a: u64, slot_b: u64, wv_b: u64) -> bool {
    slot_a > slot_b || (slot_a == slot_b && wv_a > wv_b)
}

/// Newer-than is a strict total order on versions: never reflexive, never both ways,
/// transitive, and of two different versions one is newer.
pub proof fn lemma_newer_is_strict_total_order(a: (u64, u64), b: (u64, u64), c: (u64, u64))
    ensures
        !newer(a.0, a.1, a.0, a.1),
        newer(a.0, a.1, b.0, b.1) ==> !newer(b.0, b.1, a.0, a.1),
        newer(a.0, a.1, b.0, b.1) && newer(b.0, b.1, c.0, c.1) ==> newer(a.0, a.1, c.0, c.1),
        a != b ==> newer(a.0, a.1, b.0, b.1) || newer(b.0, b.1, a.0, a.1),
{
}

impl AccountLocation {
    /// A base-layer location inside a validator account file.
    pub fn new_base(
        file_id: u64,
        offset: u64,
        stored_size: u32,
        data_offset: u32,
        data_len: u32,
        slot: u64,
        write_version: u64,
    ) -> (loc: Self)
        ensures
            loc == (AccountLocation {
                file_id,
                offset,
                stored_size,
                data_offset,
                data_len,
                slot,
                write_version,
                storage_type: StorageType::Base,
            }),
    {
        AccountLocation {
            file_id,
            offset,
            stored_size,
            data_offset,
            data_len,
            slot,
            write_version,
            storage_type: StorageType::Base,
        }
    }

    /// A delta-layer location: the whole stored record is the payload.
    pub fn new_delta(segment_id: u64, offset: u64, data_len: u32, slot: u64, write_version: u64) -> (loc: Self)
        ensures
            loc == (AccountLocation {
                file_id: segment_id,
                offset,
                stored_size: data_len,
                data_offset: 0,
                data_len,
                slot,
                write_version,
                storage_type: StorageType::Delta,
            }),
    {
        AccountLocation {
            file_id: segment_id,
            offset,
            stored_size: data_len,
            data_offset: 0,
            data_len,
            slot,
            write_version,
            storage_type: StorageType::Delta,
        }
    }

    /// Whether this version is newer than `other` (slot first, then write version).
    pub fn is_newer_than(&self, other: &Self) -> (r: bool)
        ensures
            r == newer(self.slot, self.write_version, other.slot, other.write_version),
    {
        if self.slot != other.slot {
            self.slot > other.slot
        } else {
            self.write_version > other.write_version
        }
    }

    /// The whole stored record: `offset .. offset + stored_size`.
    pub fn read_range(&self) -> (r: std::ops::Range<u64>)
        requires
            self.offset + self.stored_size <= u64::MAX,
        ensures
            r.start == self.offset,
            r.end == self.offset + self.stored_size,
    {
        self.offset..(self.offset + self.stored_size as u64)
    }

    /// The data payload: `offset + data_offset .. offset + data_offset + data_len`.
    pub fn data_range(&self) -> (r: std::ops::Range<u64>)
        requires
            self.offset + self.data_offset + self.data_len <= u64::MAX,
        ensures
            r.start == self.offset + self.data_offset,
            r.end == self.offset + self.data_offset + self.data_len,
    {
        (self.offset + self.data_offset as u64)..(self.offset + self.data_offset as u64
            + self.data_len as u64)
    }
}

/// A location together with the compact id of its pubkey.
#[derive(Debug, Clone, Copy)]
pub struct CompressedLocation {
    pub location: AccountLocation,
    pub pubkey_id: u64,
}

/// A batch of locations for bulk operations.
#[derive(Debug, Clone)]
pub struct LocationBatch {
    pub locations: Vec<(Pubkey, AccountLocation)>,
    pub slot_watermark: u64,
}

} // verus!
