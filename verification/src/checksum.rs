//! Integrity checksums for account data and Merkle receipts.
pub mod merkle;

use crate::pubkey::Pubkey;
use vstd::prelude::*;

verus! {

/// The BLAKE3 digest of a byte string.
pub uninterp spec fn blake3(data: Seq<u8>) -> Seq<u8>;

/// Calls `blake3::hash`: the BLAKE3 digest of `data`, a function of the bytes alone.
#[verifier::external_body]
fn blake3_digest(data: &[u8]) -> (h: [u8; 32])
    ensures
        h@ == blake3(data@),
{
    blake3::hash(data).into()
}

/// The `n` little-endian bytes of `x` (only the low `8 * n` bits count).
pub open spec fn le_bytes(x: nat, n: nat) -> Seq<u8>
    decreases n,
{
    if n == 0 {
        Seq::empty()
    } else {
        seq![(x % 256) as u8] + le_bytes(x / 256, (n - 1) as nat)
    }
}

/// Appends the `n` low little-endian bytes of `x` to `out`.
fn push_le_bytes(out: &mut Vec<u8>, x: u64, n: usize)
    requires
        n <= 8,
    ensures
        final(out)@ == old(out)@ + le_bytes(x as nat, n as nat),
{
    let mut v: u64 = x;
    let mut k: usize = 0;
    let ghost start = old(out)@;
    assert(le_bytes(x as nat, 0) =~= Seq::<u8>::empty());
    while k < n
        invariant
            k <= n,
            start + le_bytes(x as nat, n as nat) == out@ + le_bytes(v as nat, (n - k) as nat),
        decreases n - k,
    {
        let ghost rest = le_bytes(v as nat, (n - k) as nat);
        let b = (v & 0xff) as u8;
        assert(v & 0xff == v % 256) by (bit_vector);
        assert(v >> 8 == v / 256) by (bit_vector);
        assert(rest == seq![(v as nat % 256) as u8] + le_bytes(v as nat / 256, (n - k - 1) as nat));
        out.push(b);
        v = v >> 8;
        k = k + 1;
        assert(out@ + le_bytes(v as nat, (n - k) as nat) =~= start + le_bytes(x as nat, n as nat));
    }
}

/// BLAKE3 digest of account data.
pub fn hash_account_data(data: &[u8]) -> (h: [u8; 32])
    ensures
        h@ == blake3(data@),
{
    blake3_digest(data)
}

/// The bytes hashed for location metadata: pubkey, slot and write version as 8
/// little-endian bytes each, data length as 4 little-endian bytes.
pub open spec fn location_metadata_bytes(pubkey: Pubkey, slot: u64, write_version: u64, data_len: u32) -> Seq<u8> {
    pubkey.0@ + le_bytes(slot as nat, 8) + le_bytes(write_version as nat, 8) + le_bytes(data_len as nat, 4)
}

/// BLAKE3 digest of location metadata.
pub fn hash_location_metadata(pubkey: Pubkey, slot: u64, write_version: u64, data_len: u32) -> (h: [u8; 32])
    ensures
        h@ == blake3(location_metadata_bytes(pubkey, slot, write_version, data_len)),
{
    let mut bytes: Vec<u8> = Vec::new();
    bytes.extend_from_slice(pubkey.0.as_slice());
    push_le_bytes(&mut bytes, slot, 8);
    push_le_bytes(&mut bytes, write_version, 8);
    push_le_bytes(&mut bytes, data_len as u64, 4);
    assert(bytes@ =~= location_metadata_bytes(pubkey, slot, write_version, data_len));
    blake3_digest(bytes.as_slice())
}

/// BLAKE3 digest of the pubkey bytes followed by the account data.
pub fn hash_account_data_with_pubkey(pubkey: Pubkey, data: &[u8]) -> (h: [u8; 32])
    ensures
        h@ == blake3(pubkey.0@ + data@),
{
    let mut bytes: Vec<u8> = Vec::new();
    bytes.extend_from_slice(pubkey.0.as_slice());
    bytes.extend_from_slice(data);
    assert(bytes@ =~= pubkey.0@ + data@);
    blake3_digest(bytes.as_slice())
}

/// Whether the pubkey-prefixed digest of the data equals the expected hash.
pub fn verify_account_integrity(pubkey: Pubkey, data: &[u8], expected_hash: [u8; 32]) -> (ok: bool)
    ensures
        ok == (blake3(pubkey.0@ + data@) == expected_hash@),
{
    let computed = hash_account_data_with_pubkey(pubkey, data);
    merkle::bytes32_eq(&computed, &expected_hash)
}

/// The bytes hashed for a batch: each pubkey followed by its data, in order.
pub open spec fn batch_bytes(accounts: Seq<(Pubkey, Vec<u8>)>) -> Seq<u8>
    decreases accounts.len(),
{
    if accounts.len() == 0 {
        Seq::empty()
    } else {
        batch_bytes(accounts.drop_last()) + accounts.last().0.0@ + accounts.last().1@
    }
}

/// Checksum of a batch of accounts: the BLAKE3 digest of every pubkey and its data, in order.
pub fn compute_batch_checksum(accounts: &[(Pubkey, Vec<u8>)]) -> (h: [u8; 32])
    ensures
        h@ == blake3(batch_bytes(accounts@)),
{
    let mut bytes: Vec<u8> = Vec::new();
    let mut i: usize = 0;
    while i < accounts.len()
        invariant
            i <= accounts.len(),
            bytes@ == batch_bytes(accounts@.take(i as int)),
        decreases accounts.len() - i,
    {
        assert(accounts@.take(i + 1).drop_last() =~= accounts@.take(i as int));
        bytes.extend_from_slice(accounts[i].0.0.as_slice());
        bytes.extend_from_slice(accounts[i].1.as_slice());
        i = i + 1;
    }
    assert(accounts@.take(i as int) =~= accounts@);
    blake3_digest(bytes.as_slice())
}

} // verus!
