//! Compressed pubkey-id bitmaps and the pubkey dictionary that assigns the ids.
use crate::collections::KeyMap;
use crate::pubkey::Pubkey;
use crate::roaring_sets::{
    treemap_values,
    ascending_prefix, treemap_and_assign, treemap_clear, treemap_clone, treemap_contains,
    decodes_to, treemap_deserialize_values, treemap_first_n, treemap_insert, treemap_len, treemap_new, treemap_or_assign,
    treemap_bytes, treemap_remove, treemap_serialize, treemap_set, treemap_sub_assign,
};
use roaring::RoaringTreemap;
use vstd::prelude::*;

verus! {

/// A compressed set of pubkey ids with a cached cardinality.
pub struct PubkeyBitmap {
    bitmap: RoaringTreemap,
    cardinality: u64,
}

impl View for PubkeyBitmap {
    type V = Set<u64>;

    closed spec fn view(&self) -> Set<u64> {
        treemap_set(self.bitmap)
    }
}

impl Default for PubkeyBitmap {
    fn default() -> (b: Self)
        ensures
            b.wf(),
            b@ == Set::<u64>::empty(),
    {
        PubkeyBitmap::new()
    }
}

impl PubkeyBitmap {
    /// The set is finite and the cached cardinality is its size.
    pub closed spec fn wf(&self) -> bool {
        &&& treemap_set(self.bitmap).finite()
        &&& self.cardinality == treemap_set(self.bitmap).len()
    }

    /// A well-formed bitmap holds finitely many ids, as many as its cached cardinality.
    pub proof fn lemma_wf_finite(&self)
        requires
            self.wf(),
        ensures
            self@.finite(),
            self@.len() <= u64::MAX,
    {
    }

    /// An empty bitmap.
    pub fn new() -> (b: Self)
        ensures
            b.wf(),
            b@ == Set::<u64>::empty(),
    {
        PubkeyBitmap { bitmap: treemap_new(), cardinality: 0 }
    }

    /// Adds an id; true when it was not already present.
    pub fn insert(&mut self, pubkey_id: u64) -> (added: bool)
        requires
            old(self).wf(),
            old(self)@.len() < u64::MAX || old(self)@.contains(pubkey_id),
        ensures
            final(self).wf(),
            final(self)@ == old(self)@.insert(pubkey_id),
            added == !old(self)@.contains(pubkey_id),
    {
        if treemap_insert(&mut self.bitmap, pubkey_id) {
            self.cardinality = treemap_len(&self.bitmap);
            true
        } else {
            proof {
                assert(treemap_set(self.bitmap) =~= treemap_set(old(self).bitmap));
            }
            false
        }
    }

    /// Removes an id; true when it was present.
    pub fn remove(&mut self, pubkey_id: u64) -> (removed: bool)
        requires
            old(self).wf(),
        ensures
            final(self).wf(),
            final(self)@ == old(self)@.remove(pubkey_id),
            removed == old(self)@.contains(pubkey_id),
    {
        if treemap_remove(&mut self.bitmap, pubkey_id) {
            self.cardinality = treemap_len(&self.bitmap);
            true
        } else {
            proof {
                assert(treemap_set(self.bitmap) =~= treemap_set(old(self).bitmap));
            }
            false
        }
    }

    /// Whether the id is present.
    pub fn contains(&self, pubkey_id: u64) -> (r: bool)
        ensures
            r == self@.contains(pubkey_id),
    {
        treemap_contains(&self.bitmap, pubkey_id)
    }

    /// Number of ids (the cached cardinality).
    pub fn len(&self) -> (n: u64)
        requires
            self.wf(),
        ensures
            n == self@.len(),
    {
        self.cardinality
    }

    /// Whether there are no ids.
    pub fn is_empty(&self) -> (r: bool)
        requires
            self.wf(),
        ensures
            r == (self@.len() == 0),
    {
        self.cardinality == 0
    }

    /// Number of ids, counted afresh.
    pub fn cardinality(&self) -> (n: u64)
        requires
            self.wf(),
        ensures
            n == self@.len(),
    {
        treemap_len(&self.bitmap)
    }

    /// The ids in both bitmaps.
    pub fn intersection(&self, other: &Self) -> (r: Self)
        requires
            self.wf(),
            other.wf(),
        ensures
            r.wf(),
            r@ == self@.intersect(other@),
    {
        let mut result = treemap_clone(&self.bitmap);
        treemap_and_assign(&mut result, &other.bitmap);
        proof {
            vstd::set_lib::lemma_len_intersect(self@, other@);
        }
        let cardinality = treemap_len(&result);
        PubkeyBitmap { bitmap: result, cardinality }
    }

    /// The ids in either bitmap.
    pub fn union(&self, other: &Self) -> (r: Self)
        requires
            self.wf(),
            other.wf(),
            self@.union(other@).len() <= u64::MAX,
        ensures
            r.wf(),
            r@ == self@.union(other@),
    {
        let mut result = treemap_clone(&self.bitmap);
        treemap_or_assign(&mut result, &other.bitmap);
        let cardinality = treemap_len(&result);
        PubkeyBitmap { bitmap: result, cardinality }
    }

    /// The ids in this bitmap and not in the other.
    pub fn difference(&self, other: &Self) -> (r: Self)
        requires
            self.wf(),
            other.wf(),
        ensures
            r.wf(),
            r@ == self@.difference(other@),
    {
        let mut result = treemap_clone(&self.bitmap);
        treemap_sub_assign(&mut result, &other.bitmap);
        proof {
            vstd::set_lib::lemma_len_difference(self@, other@);
        }
        let cardinality = treemap_len(&result);
        PubkeyBitmap { bitmap: result, cardinality }
    }

    /// All ids in ascending order (every one of them, unless there are `usize::MAX` or more).
    pub fn iter(&self) -> (v: Vec<u64>)
        requires
            self.wf(),
        ensures
            ascending_prefix(self@, v@),
            self@.len() < usize::MAX ==> v@.to_set() == self@,
    {
        let v = treemap_first_n(&self.bitmap, usize::MAX);
        proof {
            if self@.len() < usize::MAX && v@.len() == usize::MAX {
                lemma_prefix_len(self@, v@);
            }
        }
        v
    }

    /// The `n` smallest ids in ascending order (all of them when fewer).
    pub fn first_n(&self, n: usize) -> (v: Vec<u64>)
        requires
            self.wf(),
        ensures
            ascending_prefix(self@, v@),
            v@.len() == n || (v@.len() < n && v@.to_set() == self@),
    {
        treemap_first_n(&self.bitmap, n)
    }

    /// The bytes of the bitmap in the standard serialized format.
    pub closed spec fn encoding(&self) -> Seq<u8> {
        treemap_bytes(self.bitmap)
    }

    /// The bitmap in the standard serialized format; the bytes read back as the same ids.
    pub fn serialize(&self) -> (bytes: Vec<u8>)
        ensures
            bytes@ == self.encoding(),
            decodes_to(bytes@, self@),
    {
        treemap_serialize(&self.bitmap)
    }

    /// Reads a bitmap in the standard serialized format: the ids the bytes decode to,
    /// rebuilt one by one. The bytes of a serialized bitmap read back as a bitmap of the
    /// same ids.
    pub fn deserialize(bytes: &[u8]) -> (r: Result<Self, std::io::Error>)
        ensures
            r is Ok <==> treemap_values(bytes@) is Some,
            r matches Ok(b) ==> b.wf() && decodes_to(bytes@, b@),
            forall|s: Set<u64>| #[trigger] decodes_to(bytes@, s) ==> (r matches Ok(x) && x@ == s),
    {
        match treemap_deserialize_values(bytes) {
            Ok(values) => {
                let mut b = PubkeyBitmap::new();
                let mut i: usize = 0;
                while i < values.len()
                    invariant
                        i <= values@.len(),
                        b.wf(),
                        b@ == values@.take(i as int).to_set(),
                        b@.len() <= i,
                    decreases values@.len() - i,
                {
                    proof {
                        assert(values@.take(i + 1) =~= values@.take(i as int).push(values@[i as int]));
                        values@.take(i as int).lemma_push_to_set_commute(values@[i as int]);
                    }
                    b.insert(values[i]);
                    i = i + 1;
                }
                proof {
                    assert(values@.take(i as int) =~= values@);
                }
                Ok(b)
            },
            Err(e) => Err(e),
        }
    }

    /// Size of the serialized form in bytes.
    pub fn compressed_size(&self) -> (n: usize)
        ensures
            n == self.encoding().len(),
    {
        self.serialize().len()
    }

    /// Removes every id.
    pub fn clear(&mut self)
        ensures
            final(self).wf(),
            final(self)@ == Set::<u64>::empty(),
    {
        treemap_clear(&mut self.bitmap);
        self.cardinality = 0;
    }
}

/// An ascending listing of distinct values of `s` has at most `s.len()` values.
pub(crate) proof fn lemma_prefix_len(s: Set<u64>, v: Seq<u64>)
    requires
        s.finite(),
        ascending_prefix(s, v),
    ensures
        v.len() <= s.len(),
{
    assert forall|i: int, j: int| 0 <= i < v.len() && 0 <= j < v.len() && i != j implies v[i]
        != v[j] by {
        if i < j {
            assert(v[i] < v[j]);
        } else {
            assert(v[j] < v[i]);
        }
    }
    assert(v.no_duplicates());
    v.unique_seq_to_set();
    assert(v.to_set().subset_of(s));
    vstd::set_lib::lemma_len_subset(v.to_set(), s);
}

impl Clone for PubkeyBitmap {
    fn clone(&self) -> (c: Self)
        ensures
            c@ == self@,
            self.wf() ==> c.wf(),
    {
        PubkeyBitmap { bitmap: treemap_clone(&self.bitmap), cardinality: self.cardinality }
    }
}

/// Maps each pubkey to a compact id, handing out ids 0, 1, 2, ... in order of first insertion.
pub struct PubkeyDictionary {
    pubkey_to_id: KeyMap<Pubkey, u64>,
    id_to_pubkey: KeyMap<u64, Pubkey>,
    next_id: u64,
}

impl View for PubkeyDictionary {
    type V = Map<Pubkey, u64>;

    /// The id of each pubkey.
    closed spec fn view(&self) -> Map<Pubkey, u64> {
        self.pubkey_to_id@
    }
}

impl PubkeyDictionary {
    /// The pubkey of each id.
    pub closed spec fn reverse(&self) -> Map<u64, Pubkey> {
        self.id_to_pubkey@
    }

    /// The two maps are inverse to each other and the ids in use are exactly `0 .. len`.
    pub closed spec fn wf(&self) -> bool {
        &&& self.pubkey_to_id.wf()
        &&& self.id_to_pubkey.wf()
        &&& self.pubkey_to_id@.dom().finite()
        &&& self.pubkey_to_id@.dom().len() == self.next_id
        &&& forall|p: Pubkey| #[trigger]
            self.pubkey_to_id@.contains_key(p) ==> self.pubkey_to_id@[p] < self.next_id
                && self.id_to_pubkey@.contains_key(self.pubkey_to_id@[p])
                && self.id_to_pubkey@[self.pubkey_to_id@[p]] == p
        &&& forall|i: u64| #[trigger]
            self.id_to_pubkey@.contains_key(i) <==> i < self.next_id
        &&& forall|i: u64| #[trigger]
            self.id_to_pubkey@.contains_key(i) ==> self.pubkey_to_id@.contains_key(
                self.id_to_pubkey@[i],
            ) && self.pubkey_to_id@[self.id_to_pubkey@[i]] == i
    }

    /// An empty dictionary.
    pub fn new() -> (d: Self)
        ensures
            d.wf(),
            d@ == Map::<Pubkey, u64>::empty(),
            d.reverse() == Map::<u64, Pubkey>::empty(),
    {
        let d = PubkeyDictionary {
            pubkey_to_id: KeyMap::new(),
            id_to_pubkey: KeyMap::new(),
            next_id: 0,
        };
        assert(d.pubkey_to_id@.dom() =~= Set::<Pubkey>::empty());
        d
    }

    /// The id of the pubkey, assigning the next id when the pubkey is new.
    pub fn insert(&mut self, pubkey: Pubkey) -> (id: u64)
        requires
            old(self).wf(),
            old(self)@.len() < u64::MAX || old(self)@.contains_key(pubkey),
        ensures
            final(self).wf(),
            old(self)@.contains_key(pubkey) ==> id == old(self)@[pubkey] && final(self)@ == old(
                self,
            )@ && final(self).reverse() == old(self).reverse(),
            !old(self)@.contains_key(pubkey) ==> id == old(self)@.len() && final(self)@ == old(
                self,
            )@.insert(pubkey, id) && final(self).reverse() == old(self).reverse().insert(
                id,
                pubkey,
            ),
    {
        match self.pubkey_to_id.get(&pubkey) {
            Some(id) => *id,
            None => {
                let id = self.next_id;
                self.next_id = self.next_id + 1;
                self.id_to_pubkey.insert(id, pubkey);
                self.pubkey_to_id.insert(pubkey, id);
                proof {
                    let old_p = old(self).pubkey_to_id@;
                    let old_i = old(self).id_to_pubkey@;
                    assert(!old_i.contains_key(id));
                    assert(self.pubkey_to_id@.dom() =~= old_p.dom().insert(pubkey));
                    assert forall|p: Pubkey| #[trigger]
                        self.pubkey_to_id@.contains_key(p) implies self.pubkey_to_id@[p]
                        < self.next_id && self.id_to_pubkey@.contains_key(self.pubkey_to_id@[p])
                        && self.id_to_pubkey@[self.pubkey_to_id@[p]] == p by {
                        if p != pubkey {
                            assert(old_p.contains_key(p));
                        }
                    }
                    assert forall|i: u64| #[trigger]
                        self.id_to_pubkey@.contains_key(i) implies self.pubkey_to_id@.contains_key(
                            self.id_to_pubkey@[i],
                        ) && self.pubkey_to_id@[self.id_to_pubkey@[i]] == i by {
                        if i != id {
                            assert(old_i.contains_key(i));
                            assert(old_i[i] != pubkey);
                        }
                    }
                }
                id
            },
        }
    }

    /// The id of the pubkey, if it has one.
    pub fn get_id(&self, pubkey: &Pubkey) -> (r: Option<u64>)
        requires
            self.wf(),
        ensures
            r == (if self@.contains_key(*pubkey) {
                Some(self@[*pubkey])
            } else {
                None::<u64>
            }),
    {
        match self.pubkey_to_id.get(pubkey) {
            Some(id) => Some(*id),
            None => None,
        }
    }

    /// The pubkey with the id, if any.
    pub fn get_pubkey(&self, pubkey_id: u64) -> (r: Option<Pubkey>)
        requires
            self.wf(),
        ensures
            r == (if self.reverse().contains_key(pubkey_id) {
                Some(self.reverse()[pubkey_id])
            } else {
                None::<Pubkey>
            }),
    {
        match self.id_to_pubkey.get(&pubkey_id) {
            Some(pk) => Some(*pk),
            None => None,
        }
    }

    /// Whether the pubkey has an id.
    pub fn contains(&self, pubkey: &Pubkey) -> (r: bool)
        requires
            self.wf(),
        ensures
            r == self@.contains_key(*pubkey),
    {
        self.pubkey_to_id.contains_key(pubkey)
    }

    /// Number of pubkeys.
    pub fn len(&self) -> (n: usize)
        requires
            self.wf(),
        ensures
            n == self@.len(),
    {
        self.pubkey_to_id.len()
    }

    /// Whether there are no pubkeys.
    pub fn is_empty(&self) -> (r: bool)
        requires
            self.wf(),
        ensures
            r == (self@.len() == 0),
    {
        self.pubkey_to_id.is_empty()
    }

    /// Inserts each pubkey in turn and gives back their ids.
    pub fn batch_insert(&mut self, pubkeys: &[Pubkey]) -> (ids: Vec<u64>)
        requires
            old(self).wf(),
            old(self)@.len() + pubkeys@.len() <= u64::MAX,
        ensures
            final(self).wf(),
            ids@.len() == pubkeys@.len(),
            forall|i: int|
                0 <= i < pubkeys@.len() ==> final(self)@.contains_key(#[trigger] pubkeys@[i]),
            forall|i: int| 0 <= i < pubkeys@.len() ==> #[trigger] ids@[i] == final(self)@[pubkeys@[i]],
            forall|p: Pubkey| #[trigger]
                old(self)@.contains_key(p) ==> final(self)@.contains_key(p) && final(self)@[p]
                    == old(self)@[p],
            forall|p: Pubkey| #[trigger]
                final(self)@.contains_key(p) ==> old(self)@.contains_key(p) || pubkeys@.contains(
                    p,
                ),
    {
        let mut ids: Vec<u64> = Vec::new();
        let mut k: usize = 0;
        while k < pubkeys.len()
            invariant
                self.wf(),
                k <= pubkeys@.len(),
                ids@.len() == k,
                self@.len() <= old(self)@.len() + k,
                old(self)@.len() + pubkeys@.len() <= u64::MAX,
                forall|i: int| 0 <= i < k ==> self@.contains_key(#[trigger] pubkeys@[i]),
                forall|i: int| 0 <= i < k ==> #[trigger] ids@[i] == self@[pubkeys@[i]],
                forall|p: Pubkey| #[trigger]
                    old(self)@.contains_key(p) ==> self@.contains_key(p) && self@[p] == old(
                        self,
                    )@[p],
                forall|p: Pubkey| #[trigger]
                    self@.contains_key(p) ==> old(self)@.contains_key(p) || pubkeys@.take(
                        k as int,
                    ).contains(p),
            decreases pubkeys@.len() - k,
        {
            let pk = pubkeys[k];
            let ghost before = self@;
            let id = self.insert(pk);
            proof {
                assert forall|p: Pubkey| #[trigger] self@.contains_key(p) implies old(
                    self,
                )@.contains_key(p) || pubkeys@.take(k + 1).contains(p) by {
                    if p == pk {
                        assert(pubkeys@.take(k + 1)[k as int] == p);
                    } else {
                        assert(before.contains_key(p));
                        if !old(self)@.contains_key(p) {
                            let j = choose|j: int|
                                0 <= j < k && pubkeys@.take(k as int)[j] == p;
                            assert(pubkeys@.take(k + 1)[j] == p);
                        }
                    }
                }
            }
            let ghost old_ids = ids@;
            ids.push(id);
            proof {
                assert forall|i: int| 0 <= i < k + 1 implies self@.contains_key(#[trigger] pubkeys@[i])
                    && ids@[i] == self@[pubkeys@[i]] by {
                    if i < k {
                        assert(old_ids[i] == before[pubkeys@[i]]);
                        assert(before.contains_key(pubkeys@[i]));
                    }
                }
            }
            k = k + 1;
        }
        proof {
            assert(pubkeys@.take(k as int) =~= pubkeys@);
        }
        ids
    }

    /// The id of each pubkey, or none.
    pub fn batch_get_id(&self, pubkeys: &[Pubkey]) -> (ids: Vec<Option<u64>>)
        requires
            self.wf(),
        ensures
            ids@.len() == pubkeys@.len(),
            forall|i: int|
                0 <= i < pubkeys@.len() ==> #[trigger] ids@[i] == (if self@.contains_key(
                    pubkeys@[i],
                ) {
                    Some(self@[pubkeys@[i]])
                } else {
                    None::<u64>
                }),
    {
        let mut ids: Vec<Option<u64>> = Vec::new();
        let mut k: usize = 0;
        while k < pubkeys.len()
            invariant
                self.wf(),
                k <= pubkeys@.len(),
                ids@.len() == k,
                forall|i: int|
                    0 <= i < k ==> #[trigger] ids@[i] == (if self@.contains_key(pubkeys@[i]) {
                        Some(self@[pubkeys@[i]])
                    } else {
                        None::<u64>
                    }),
            decreases pubkeys@.len() - k,
        {
            ids.push(self.get_id(&pubkeys[k]));
            k = k + 1;
        }
        ids
    }

    /// The pubkey of each id, or none.
    pub fn batch_get_pubkey(&self, pubkey_ids: &[u64]) -> (pks: Vec<Option<Pubkey>>)
        requires
            self.wf(),
        ensures
            pks@.len() == pubkey_ids@.len(),
            forall|i: int|
                0 <= i < pubkey_ids@.len() ==> #[trigger] pks@[i] == (if self.reverse().contains_key(
                    pubkey_ids@[i],
                ) {
                    Some(self.reverse()[pubkey_ids@[i]])
                } else {
                    None::<Pubkey>
                }),
    {
        let mut pks: Vec<Option<Pubkey>> = Vec::new();
        let mut k: usize = 0;
        while k < pubkey_ids.len()
            invariant
                self.wf(),
                k <= pubkey_ids@.len(),
                pks@.len() == k,
                forall|i: int|
                    0 <= i < k ==> #[trigger] pks@[i] == (if self.reverse().contains_key(
                        pubkey_ids@[i],
                    ) {
                        Some(self.reverse()[pubkey_ids@[i]])
                    } else {
                        None::<Pubkey>
                    }),
            decreases pubkey_ids@.len() - k,
        {
            pks.push(self.get_pubkey(pubkey_ids[k]));
            k = k + 1;
        }
        pks
    }

    /// Estimated memory use: 104 bytes per entry in each of the two maps.
    pub fn memory_usage(&self) -> (n: usize)
        requires
            self.wf(),
            self@.len() * 208 <= usize::MAX,
        ensures
            n == self@.len() * 208,
    {
        let entry_size: usize = 32 + 8 + 64;
        let n = self.pubkey_to_id.len();
        assert(n * entry_size <= usize::MAX && n * entry_size * 2 == n * 208) by (nonlinear_arith)
            requires
                n * 208 <= usize::MAX,
                entry_size == 104,
        ;
        n * entry_size * 2
    }

    /// Removes every entry and starts ids again from 0.
    pub fn clear(&mut self)
        ensures
            final(self).wf(),
            final(self)@ == Map::<Pubkey, u64>::empty(),
            final(self).reverse() == Map::<u64, Pubkey>::empty(),
    {
        self.pubkey_to_id.clear();
        self.id_to_pubkey.clear();
        self.next_id = 0;
        assert(self.pubkey_to_id@.dom() =~= Set::<Pubkey>::empty());
    }

    /// A dictionary holding the pubkeys, inserted in order.
    pub fn from_iter(pubkeys: Vec<Pubkey>) -> (d: Self)
        requires
            pubkeys@.len() <= u64::MAX,
        ensures
            d.wf(),
            d@.dom() == pubkeys@.to_set(),
    {
        let mut d = PubkeyDictionary::new();
        let ids = d.batch_insert(pubkeys.as_slice());
        proof {
            assert forall|p: Pubkey| d@.dom().contains(p) <==> pubkeys@.to_set().contains(p) by {
                if pubkeys@.to_set().contains(p) {
                    let i = choose|i: int| 0 <= i < pubkeys@.len() && pubkeys@[i] == p;
                    assert(d@.contains_key(pubkeys@[i]));
                }
            }
            assert(d@.dom() =~= pubkeys@.to_set());
        }
        d
    }
}

/// The ids in use are exactly `0 .. len`, and the two directions are inverse.
pub proof fn lemma_dictionary_wf(d: PubkeyDictionary)
    requires
        d.wf(),
    ensures
        d@.dom().finite(),
        d@.len() <= u64::MAX,
        forall|p: Pubkey| #[trigger] d@.contains_key(p) ==> d@[p] < d@.len(),
        forall|p: Pubkey| #[trigger]
            d@.contains_key(p) ==> d.reverse().contains_key(d@[p]) && d.reverse()[d@[p]] == p,
        forall|i: u64| #[trigger] d.reverse().contains_key(i) <==> i < d@.len(),
        forall|i: u64| #[trigger]
            d.reverse().contains_key(i) ==> d@.contains_key(d.reverse()[i]) && d@[d.reverse()[i]]
                == i,
{
}

/// The pubkey dictionary hands out one id per pubkey, and each id leads back to its pubkey.
pub proof fn lemma_dictionary_roundtrip(d: PubkeyDictionary, p: Pubkey, q: Pubkey)
    requires
        d.wf(),
        d@.contains_key(p),
        d@.contains_key(q),
    ensures
        d.reverse().contains_key(d@[p]),
        d.reverse()[d@[p]] == p,
        p != q ==> d@[p] != d@[q],
{
}

/// A secondary-index entry: its key, its bitmap and when it was last updated.
pub struct IndexEntry {
    /// Index key (program id, token owner, ...).
    pub key: Vec<u8>,
    /// Matching pubkey ids.
    pub bitmap: PubkeyBitmap,
    /// Slot of the last update.
    pub last_updated_slot: u64,
    /// Number of ids in the bitmap.
    pub entry_count: u64,
}

impl IndexEntry {
    /// An entry with an empty bitmap.
    pub fn new(key: Vec<u8>) -> (e: Self)
        ensures
            e.key == key,
            e.bitmap.wf(),
            e.bitmap@ == Set::<u64>::empty(),
            e.last_updated_slot == 0,
            e.entry_count == 0,
    {
        IndexEntry { key, bitmap: PubkeyBitmap::new(), last_updated_slot: 0, entry_count: 0 }
    }

    /// Replaces the bitmap and records the slot.
    pub fn update(&mut self, bitmap: PubkeyBitmap, slot: u64)
        requires
            bitmap.wf(),
        ensures
            final(self).key == old(self).key,
            final(self).bitmap == bitmap,
            final(self).entry_count == bitmap@.len(),
            final(self).last_updated_slot == slot,
    {
        self.bitmap = bitmap;
        self.entry_count = self.bitmap.len();
        self.last_updated_slot = slot;
    }
}

} // verus!
