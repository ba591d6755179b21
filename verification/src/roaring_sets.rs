//! The compressed integer sets of the `roaring` crate, as the library uses them.
//!
//! Each set type is declared opaque; what it holds is named by a `Set` of its
//! values, and every method the library calls has a wrapper whose contract
//! states, over that name, what the method does to the contents and what it
//! returns, as the crate's source and documentation show it. Every treemap the library
//! holds is made by these wrappers from an empty one; none is read from bytes, since the
//! reader does not check the layout the contracts rely on: bytes are read as values only.
use roaring::{RoaringBitmap, RoaringTreemap};
use vstd::prelude::*;

verus! {

#[verifier::external_type_specification]
#[verifier::external_body]
pub struct ExRoaringTreemap(RoaringTreemap);

#[verifier::external_type_specification]
#[verifier::external_body]
pub struct ExRoaringBitmap(RoaringBitmap);

#[verifier::external_type_specification]
#[verifier::external_body]
pub struct ExIoError(std::io::Error);

/// The values a `RoaringTreemap` holds.
pub uninterp spec fn treemap_set(t: RoaringTreemap) -> Set<u64>;

/// The values a `RoaringBitmap` holds.
pub uninterp spec fn bitmap_set(b: RoaringBitmap) -> Set<u32>;

/// `v` lists, in ascending order, the `v.len()` smallest values of `s`.
pub open spec fn ascending_prefix(s: Set<u64>, v: Seq<u64>) -> bool {
    &&& forall|i: int, j: int| 0 <= i < j < v.len() ==> v[i] < v[j]
    &&& forall|i: int| 0 <= i < v.len() ==> s.contains(#[trigger] v[i])
    &&& forall|x: u64, i: int|
        0 <= i < v.len() && s.contains(x) && !v.contains(x) ==> v[i] < x
}

/// `RoaringTreemap::new`: an empty set.
#[verifier::external_body]
pub(crate) fn treemap_new() -> (t: RoaringTreemap)
    ensures
        treemap_set(t) == Set::<u64>::empty(),
{
    RoaringTreemap::new()
}

/// `RoaringTreemap::insert`: adds the value; true when it was not already there.
#[verifier::external_body]
pub(crate) fn treemap_insert(t: &mut RoaringTreemap, value: u64) -> (added: bool)
    ensures
        treemap_set(*final(t)) == treemap_set(*old(t)).insert(value),
        added == !treemap_set(*old(t)).contains(value),
{
    t.insert(value)
}

/// `RoaringTreemap::remove`: removes the value; true when it was there.
#[verifier::external_body]
pub(crate) fn treemap_remove(t: &mut RoaringTreemap, value: u64) -> (removed: bool)
    ensures
        treemap_set(*final(t)) == treemap_set(*old(t)).remove(value),
        removed == treemap_set(*old(t)).contains(value),
{
    t.remove(value)
}

/// `RoaringTreemap::contains`.
#[verifier::external_body]
pub(crate) fn treemap_contains(t: &RoaringTreemap, value: u64) -> (r: bool)
    ensures
        r == treemap_set(*t).contains(value),
{
    t.contains(value)
}

/// `RoaringTreemap::len`: the number of values. The sum the method computes does
/// not overflow while the set is not the whole `u64` range.
#[verifier::external_body]
pub(crate) fn treemap_len(t: &RoaringTreemap) -> (n: u64)
    requires
        treemap_set(*t).len() <= u64::MAX,
    ensures
        n == treemap_set(*t).len(),
{
    t.len()
}

/// `RoaringTreemap::clone`: a set with the same values.
#[verifier::external_body]
pub(crate) fn treemap_clone(t: &RoaringTreemap) -> (c: RoaringTreemap)
    ensures
        treemap_set(c) == treemap_set(*t),
{
    t.clone()
}

/// `RoaringTreemap::clear`: no values left.
#[verifier::external_body]
pub(crate) fn treemap_clear(t: &mut RoaringTreemap)
    ensures
        treemap_set(*final(t)) == Set::<u64>::empty(),
{
    t.clear()
}

/// `t &= other`: keeps the values that are also in `other`.
#[verifier::external_body]
pub(crate) fn treemap_and_assign(t: &mut RoaringTreemap, other: &RoaringTreemap)
    ensures
        treemap_set(*final(t)) == treemap_set(*old(t)).intersect(treemap_set(*other)),
{
    *t &= other;
}

/// `t |= other`: adds the values of `other`.
#[verifier::external_body]
pub(crate) fn treemap_or_assign(t: &mut RoaringTreemap, other: &RoaringTreemap)
    ensures
        treemap_set(*final(t)) == treemap_set(*old(t)).union(treemap_set(*other)),
{
    *t |= other;
}

/// `t -= other`: removes the values of `other`.
#[verifier::external_body]
pub(crate) fn treemap_sub_assign(t: &mut RoaringTreemap, other: &RoaringTreemap)
    ensures
        treemap_set(*final(t)) == treemap_set(*old(t)).difference(treemap_set(*other)),
{
    *t -= other;
}

/// `t.iter().take(n).collect()`: the iterator yields the values in ascending
/// order, so this is the `n` smallest values (all of them when fewer), ascending.
#[verifier::external_body]
pub(crate) fn treemap_first_n(t: &RoaringTreemap, n: usize) -> (v: Vec<u64>)
    ensures
        ascending_prefix(treemap_set(*t), v@),
        v@.len() == n || (v@.len() < n && v@.to_set() == treemap_set(*t)),
{
    t.iter().take(n).collect()
}

/// The bytes `serialize_into` writes for a treemap. They follow how the set is laid out
/// inside the treemap, not only its values.
pub uninterp spec fn treemap_bytes(t: RoaringTreemap) -> Seq<u8>;

/// The values, in the order iteration yields them, of the treemap that
/// `RoaringTreemap::deserialize_from` reads from `bytes`; none where it fails.
pub uninterp spec fn treemap_values(bytes: Seq<u8>) -> Option<Seq<u64>>;

/// `bytes` read back as a treemap whose values are exactly `s`.
pub open spec fn decodes_to(bytes: Seq<u8>, s: Set<u64>) -> bool {
    treemap_values(bytes) matches Some(v) && v.to_set() == s
}

/// `t.serialize_into(&mut bytes)`: the standard on-disk format, a function of the
/// treemap. Writing into a `Vec` does not fail, and the crate's documented round trip
/// reads the bytes back as a treemap of the same values.
#[verifier::external_body]
pub(crate) fn treemap_serialize(t: &RoaringTreemap) -> (bytes: Vec<u8>)
    ensures
        bytes@ == treemap_bytes(*t),
        decodes_to(bytes@, treemap_set(*t)),
{
    let mut bytes = Vec::new();
    let _ = t.serialize_into(&mut bytes);
    bytes
}

/// `RoaringTreemap::deserialize_from`, then the values its iterator yields. Only the
/// values leave this function: no treemap read from bytes is kept, since the reader
/// does not check how the containers it reads are laid out.
#[verifier::external_body]
pub(crate) fn treemap_deserialize_values(bytes: &[u8]) -> (r: Result<Vec<u64>, std::io::Error>)
    ensures
        r is Ok <==> treemap_values(bytes@) is Some,
        r matches Ok(v) ==> treemap_values(bytes@) == Some(v@),
{
    match RoaringTreemap::deserialize_from(bytes) {
        Ok(t) => Ok(t.iter().collect()),
        Err(e) => Err(e),
    }
}

/// `RoaringBitmap::new`: an empty set.
#[verifier::external_body]
pub(crate) fn bitmap_new() -> (b: RoaringBitmap)
    ensures
        bitmap_set(b) == Set::<u32>::empty(),
{
    RoaringBitmap::new()
}

/// `RoaringBitmap::insert`: adds the value; true when it was not already there.
#[verifier::external_body]
pub(crate) fn bitmap_insert(b: &mut RoaringBitmap, value: u32) -> (added: bool)
    ensures
        bitmap_set(*final(b)) == bitmap_set(*old(b)).insert(value),
        added == !bitmap_set(*old(b)).contains(value),
{
    b.insert(value)
}

/// `RoaringBitmap::remove`: removes the value; true when it was there.
#[verifier::external_body]
pub(crate) fn bitmap_remove(b: &mut RoaringBitmap, value: u32) -> (removed: bool)
    ensures
        bitmap_set(*final(b)) == bitmap_set(*old(b)).remove(value),
        removed == bitmap_set(*old(b)).contains(value),
{
    b.remove(value)
}

/// `RoaringBitmap::contains`.
#[verifier::external_body]
pub(crate) fn bitmap_contains(b: &RoaringBitmap, value: u32) -> (r: bool)
    ensures
        r == bitmap_set(*b).contains(value),
{
    b.contains(value)
}

/// `RoaringBitmap::len`: the number of values (at most 2^32, so no overflow).
#[verifier::external_body]
pub(crate) fn bitmap_len(b: &RoaringBitmap) -> (n: u64)
    ensures
        n == bitmap_set(*b).len(),
{
    b.len()
}

/// `RoaringBitmap::clone`: a set with the same values.
#[verifier::external_body]
pub(crate) fn bitmap_clone(b: &RoaringBitmap) -> (c: RoaringBitmap)
    ensures
        bitmap_set(c) == bitmap_set(*b),
{
    b.clone()
}

/// `b |= other`: adds the values of `other`.
#[verifier::external_body]
pub(crate) fn bitmap_or_assign(b: &mut RoaringBitmap, other: &RoaringBitmap)
    ensures
        bitmap_set(*final(b)) == bitmap_set(*old(b)).union(bitmap_set(*other)),
{
    *b |= other;
}

} // verus!
