//! The decisions of the persistent pubkey dictionary: ids are handed out by a counter
//! from 0, and the in-memory dictionary in front of the store learns each new pubkey.
//! Reading and writing the store is done by the caller, which reports back here.
use crate::bitmap::{lemma_dictionary_wf, PubkeyDictionary};
use crate::pubkey::Pubkey;
use vstd::prelude::*;

verus! {

/// The ids `known` gives the pubkeys of `s`, in order, skipping the pubkeys it does not know.
pub open spec fn ids_in(known: Map<Pubkey, u64>, s: Seq<Pubkey>) -> Seq<u64>
    decreases s.len(),
{
    if s.len() == 0 {
        Seq::empty()
    } else if known.contains_key(s.last()) {
        ids_in(known, s.drop_last()).push(known[s.last()])
    } else {
        ids_in(known, s.drop_last())
    }
}

/// The stored ids are `0 .. n` for the `n` pairs, each id and each pubkey once.
pub open spec fn dense_ids(s: Seq<(Pubkey, u64)>) -> bool {
    &&& forall|i: int| 0 <= i < s.len() ==> #[trigger] s[i].1 < s.len()
    &&& forall|i: int, j: int| 0 <= i < j < s.len() ==> s[i].1 != s[j].1 && s[i].0 != s[j].0
}

/// When the ids are dense, every id below `n` belongs to some pair.
proof fn lemma_dense_fills(s: Seq<(Pubkey, u64)>, t: int)
    requires
        dense_ids(s),
        0 <= t < s.len(),
    ensures
        exists|j: int| 0 <= j < s.len() && s[j].1 == t,
{
    let ids = s.map_values(|e: (Pubkey, u64)| e.1 as int);
    assert forall|a: int, b: int| 0 <= a < ids.len() && 0 <= b < ids.len() && a != b implies ids[a] != ids[b] by {
        if a < b {
            assert(s[a].1 != s[b].1);
        } else {
            assert(s[b].1 != s[a].1);
        }
    }
    ids.unique_seq_to_set();
    let r = Set::<int>::new(|x: int| 0 <= x < s.len());
    assert(r =~= vstd::set_lib::set_int_range(0, s.len() as int));
    vstd::set_lib::lemma_int_range(0, s.len() as int);
    if !(exists|j: int| 0 <= j < s.len() && s[j].1 == t) {
        assert forall|x: int| ids.to_set().contains(x) implies r.remove(t).contains(x) by {
            let j = choose|j: int| 0 <= j < ids.len() && ids[j] == x;
            assert(s[j].1 < s.len());
        }
        vstd::set_lib::lemma_len_subset(ids.to_set(), r.remove(t));
        assert(false);
    }
}

/// The in-memory side of the persistent dictionary.
pub struct DictionaryState {
    memory_cache: PubkeyDictionary,
    next_id: u64,
}

impl DictionaryState {
    /// The pubkeys the in-memory dictionary knows, with its ids for them.
    pub closed spec fn known(&self) -> Map<Pubkey, u64> {
        self.memory_cache@
    }

    /// The in-memory dictionary's pubkey of each of its ids.
    pub closed spec fn known_reverse(&self) -> Map<u64, Pubkey> {
        self.memory_cache.reverse()
    }

    /// The next id the counter hands out.
    pub closed spec fn next(&self) -> u64 {
        self.next_id
    }

    pub closed spec fn wf(&self) -> bool {
        self.memory_cache.wf()
    }

    /// Nothing known, and the counter at 0.
    pub fn new() -> (s: Self)
        ensures
            s.wf(),
            s.known() == Map::<Pubkey, u64>::empty(),
            s.next() == 0,
    {
        DictionaryState { memory_cache: PubkeyDictionary::new(), next_id: 0 }
    }

    /// Rebuilds the state from the `(pubkey, id)` pairs a store holds: the in-memory
    /// dictionary knows exactly those pairs and the counter moves past the largest id.
    /// That is possible when the ids are `0 .. n` for `n` distinct pubkeys, as a store
    /// filled from the counter holds them; other pairs give none.
    pub fn from_stored(stored: &[(Pubkey, u64)]) -> (r: Option<Self>)
        requires
            stored@.len() < u64::MAX,
        ensures
            r is Some <==> dense_ids(stored@),
            r matches Some(st) ==> {
                &&& st.wf()
                &&& st.next() == stored@.len()
                &&& forall|i: int| 0 <= i < stored@.len() ==> st.known().contains_key(#[trigger] stored@[i].0)
                    && st.known()[stored@[i].0] == stored@[i].1
                    && st.known_reverse().contains_key(stored@[i].1) && st.known_reverse()[stored@[i].1] == stored@[i].0
                &&& forall|p: Pubkey| #[trigger] st.known().contains_key(p) ==> exists|i: int|
                    0 <= i < stored@.len() && stored@[i].0 == p
            },
    {
        let n = stored.len();
        let mut slots: Vec<Option<Pubkey>> = Vec::new();
        let mut k: usize = 0;
        while k < n
            invariant
                k <= n,
                n == stored@.len(),
                slots@.len() == k,
                forall|j: int| 0 <= j < k ==> slots@[j] is None,
            decreases n - k,
        {
            slots.push(None);
            k = k + 1;
        }
        let mut i: usize = 0;
        while i < n
            invariant
                i <= n,
                n == stored@.len(),
                slots@.len() == n,
                forall|j: int| 0 <= j < i ==> stored@[j].1 < n && slots@[stored@[j].1 as int] == Some(stored@[j].0),
                forall|a: int, b: int| 0 <= a < b < i ==> stored@[a].1 != stored@[b].1,
                forall|t: int| 0 <= t < n && (#[trigger] slots@[t]) is Some ==> exists|j: int|
                    0 <= j < i && stored@[j].1 == t,
            decreases n - i,
        {
            let (pk, id) = stored[i];
            if id >= n as u64 {
                proof {
                    assert(!dense_ids(stored@));
                }
                return None;
            }
            let taken = slots[id as usize].is_some();
            if taken {
                proof {
                    let j = choose|j: int| 0 <= j < i && stored@[j].1 == id;
                    assert(!dense_ids(stored@)) by {
                        assert(stored@[j].1 == stored@[i as int].1);
                    }
                }
                return None;
            }
            slots.set(id as usize, Some(pk));
            proof {
                assert forall|t: int| 0 <= t < n && (#[trigger] slots@[t]) is Some implies exists|j: int|
                    0 <= j < i + 1 && stored@[j].1 == t by {
                    if t != id {
                        let j = choose|j: int| 0 <= j < i && stored@[j].1 == t;
                        assert(0 <= j < i + 1 && stored@[j].1 == t);
                    } else {
                        assert(stored@[i as int].1 == t);
                    }
                }
                assert forall|a: int, b: int| 0 <= a < b < i + 1 implies stored@[a].1 != stored@[b].1 by {
                    if b == i {
                        assert(slots@[stored@[a].1 as int] is Some || stored@[a].1 == id);
                    }
                }
            }
            i = i + 1;
        }
        let mut st = DictionaryState::new();
        let mut k: usize = 0;
        while k < n
            invariant
                k <= n,
                n == stored@.len(),
                n < u64::MAX,
                slots@.len() == n,
                st.wf(),
                st.next() == 0,
                forall|j: int| 0 <= j < n ==> stored@[j].1 < n && slots@[stored@[j].1 as int] == Some(stored@[j].0),
                forall|a: int, b: int| 0 <= a < b < n ==> stored@[a].1 != stored@[b].1,
                forall|t: int| 0 <= t < n && (#[trigger] slots@[t]) is Some ==> exists|j: int|
                    0 <= j < n && stored@[j].1 == t,
                st.known().len() == k,
                st.known().dom().finite(),
                forall|j: int| 0 <= j < n && stored@[j].1 < k ==> st.known().contains_key(#[trigger] stored@[j].0)
                    && st.known()[stored@[j].0] == stored@[j].1 && st.known_reverse().contains_key(stored@[j].1)
                    && st.known_reverse()[stored@[j].1] == stored@[j].0,
                forall|p: Pubkey| #[trigger] st.known().contains_key(p) ==> exists|j: int|
                    0 <= j < n && stored@[j].0 == p && stored@[j].1 < k,
            decreases n - k,
        {
            match slots[k] {
                None => {
                    proof {
                        if dense_ids(stored@) {
                            lemma_dense_fills(stored@, k as int);
                            let j = choose|j: int| 0 <= j < stored@.len() && stored@[j].1 == k;
                            assert(slots@[stored@[j].1 as int] == Some(stored@[j].0));
                        }
                    }
                    return None;
                },
                Some(pk) => {
                    let ghost j0 = choose|j: int| 0 <= j < n && stored@[j].1 == k;
                    proof {
                        assert(slots@[k as int] is Some);
                        assert(slots@[stored@[j0].1 as int] == Some(stored@[j0].0));
                        assert(pk == stored@[j0].0);
                    }
                    if st.cached_id(&pk).is_some() {
                        proof {
                            let j1 = choose|j: int| 0 <= j < n && stored@[j].0 == pk && stored@[j].1 < k;
                            assert(j1 != j0);
                            assert(!dense_ids(stored@)) by {
                                if j1 < j0 {
                                    assert(stored@[j1].0 == stored@[j0].0);
                                } else {
                                    assert(stored@[j0].0 == stored@[j1].0);
                                }
                            }
                        }
                        return None;
                    }
                    proof {
                        lemma_dictionary_wf(st.memory_cache);
                    }
                    st.memory_cache.insert(pk);
                    proof {
                        lemma_dictionary_wf(st.memory_cache);
                        assert forall|j: int| 0 <= j < n && stored@[j].1 < k + 1 implies st.known().contains_key(
                            #[trigger] stored@[j].0,
                        ) && st.known()[stored@[j].0] == stored@[j].1 && st.known_reverse().contains_key(stored@[j].1)
                            && st.known_reverse()[stored@[j].1] == stored@[j].0 by {
                            if stored@[j].1 == k {
                                assert(j == j0);
                            } else {
                                assert(stored@[j].1 < k);
                                if stored@[j].0 == pk {
                                    assert(false);
                                }
                            }
                        }
                        assert forall|p: Pubkey| #[trigger] st.known().contains_key(p) implies exists|j: int|
                            0 <= j < n && stored@[j].0 == p && stored@[j].1 < k + 1 by {
                            if p == pk {
                                assert(0 <= j0 < n && stored@[j0].0 == p && stored@[j0].1 < k + 1);
                            } else {
                                let j = choose|j: int| 0 <= j < n && stored@[j].0 == p && stored@[j].1 < k;
                                assert(0 <= j < n && stored@[j].0 == p && stored@[j].1 < k + 1);
                            }
                        }
                    }
                },
            }
            k = k + 1;
        }
        st.next_id = n as u64;
        proof {
            assert forall|a: int, b: int| 0 <= a < b < n implies stored@[a].0 != stored@[b].0 by {
                assert(st.known()[stored@[a].0] == stored@[a].1);
                assert(st.known()[stored@[b].0] == stored@[b].1);
            }
            assert(dense_ids(stored@));
        }
        Some(st)
    }

    /// The next id the counter hands out.
    pub fn next_id(&self) -> (n: u64)
        ensures
            n == self.next(),
    {
        self.next_id
    }

    /// The in-memory id of the pubkey, if it knows it; asked before the store.
    pub fn cached_id(&self, pubkey: &Pubkey) -> (r: Option<u64>)
        requires
            self.wf(),
        ensures
            r == (if self.known().contains_key(*pubkey) {
                Some(self.known()[*pubkey])
            } else {
                None::<u64>
            }),
    {
        self.memory_cache.get_id(pubkey)
    }

    /// Hands out the counter's id for a pubkey the store does not hold, for the caller to
    /// write to the store; the counter moves on and the in-memory dictionary learns the
    /// pubkey.
    pub fn assign(&mut self, pubkey: Pubkey) -> (id: u64)
        requires
            old(self).wf(),
            old(self).next() < u64::MAX,
            old(self).known().len() < u64::MAX,
        ensures
            final(self).wf(),
            id == old(self).next(),
            final(self).next() == old(self).next() + 1,
            final(self).known() == (if old(self).known().contains_key(pubkey) {
                old(self).known()
            } else {
                old(self).known().insert(pubkey, old(self).known().len() as u64)
            }),
            final(self).known_reverse() == (if old(self).known().contains_key(pubkey) {
                old(self).known_reverse()
            } else {
                old(self).known_reverse().insert(old(self).known().len() as u64, pubkey)
            }),
    {
        let id = self.next_id;
        self.next_id = self.next_id + 1;
        self.memory_cache.insert(pubkey);
        id
    }

    /// Hands out ids, in order, to the pubkeys the in-memory dictionary does not know
    /// (each once); returns the pairs the caller writes to the store.
    pub fn assign_batch(&mut self, pubkeys: &[Pubkey]) -> (writes: Vec<(Pubkey, u64)>)
        requires
            old(self).wf(),
            old(self).next() + pubkeys@.len() <= u64::MAX,
            old(self).known().len() + pubkeys@.len() <= u64::MAX,
        ensures
            final(self).wf(),
            final(self).next() == old(self).next() + writes@.len(),
            forall|i: int| 0 <= i < writes@.len() ==> (#[trigger] writes@[i]).1 == old(self).next() + i,
            forall|i: int| 0 <= i < writes@.len() ==> !old(self).known().contains_key((#[trigger] writes@[i]).0),
            forall|i: int| 0 <= i < pubkeys@.len() ==> final(self).known().contains_key(#[trigger] pubkeys@[i]),
            forall|p: Pubkey| #[trigger] old(self).known().contains_key(p) ==> final(self).known().contains_key(p)
                && final(self).known()[p] == old(self).known()[p],
            forall|i: int| 0 <= i < pubkeys@.len() && !old(self).known().contains_key(#[trigger] pubkeys@[i])
                ==> exists|j: int| 0 <= j < writes@.len() && writes@[j].0 == pubkeys@[i],
    {
        let mut writes: Vec<(Pubkey, u64)> = Vec::new();
        let mut k: usize = 0;
        while k < pubkeys.len()
            invariant
                k <= pubkeys@.len(),
                self.wf(),
                writes@.len() <= k,
                self.next() == old(self).next() + writes@.len(),
                self.known().len() <= old(self).known().len() + writes@.len(),
                old(self).next() + pubkeys@.len() <= u64::MAX,
                old(self).known().len() + pubkeys@.len() <= u64::MAX,
                forall|i: int| 0 <= i < writes@.len() ==> (#[trigger] writes@[i]).1 == old(self).next() + i,
                forall|i: int| 0 <= i < writes@.len() ==> !old(self).known().contains_key((#[trigger] writes@[i]).0),
                forall|i: int| 0 <= i < k ==> self.known().contains_key(#[trigger] pubkeys@[i]),
                forall|p: Pubkey| #[trigger] old(self).known().contains_key(p) ==> self.known().contains_key(p)
                    && self.known()[p] == old(self).known()[p],
                forall|i: int| 0 <= i < k && !old(self).known().contains_key(#[trigger] pubkeys@[i])
                    ==> exists|j: int| 0 <= j < writes@.len() && writes@[j].0 == pubkeys@[i],
                forall|p: Pubkey| #[trigger] self.known().contains_key(p) && !old(self).known().contains_key(p)
                    ==> exists|j: int| 0 <= j < writes@.len() && writes@[j].0 == p,
            decreases pubkeys@.len() - k,
        {
            let pk = pubkeys[k];
            proof {
                lemma_dictionary_wf(self.memory_cache);
            }
            if self.cached_id(&pk).is_none() {
                let ghost before = self.known();
                let ghost old_w = writes@;
                let id = self.assign(pk);
                writes.push((pk, id));
                proof {
                    assert(writes@[writes@.len() - 1].0 == pk);
                    assert forall|i: int| 0 <= i < k + 1 && !old(self).known().contains_key(#[trigger] pubkeys@[i])
                        implies exists|j: int| 0 <= j < writes@.len() && writes@[j].0 == pubkeys@[i] by {
                        if i < k {
                            let j = choose|j: int| 0 <= j < old_w.len() && old_w[j].0 == pubkeys@[i];
                            assert(writes@[j].0 == pubkeys@[i]);
                        } else {
                            assert(writes@[writes@.len() - 1].0 == pubkeys@[i]);
                        }
                    }
                    assert forall|p: Pubkey| #[trigger] self.known().contains_key(p) && !old(self).known().contains_key(p)
                        implies exists|j: int| 0 <= j < writes@.len() && writes@[j].0 == p by {
                        if p == pk {
                            assert(writes@[writes@.len() - 1].0 == p);
                        } else {
                            assert(before.contains_key(p));
                            let j = choose|j: int| 0 <= j < old_w.len() && old_w[j].0 == p;
                            assert(writes@[j].0 == p);
                        }
                    }
                    assert forall|i: int| 0 <= i < writes@.len() implies !old(self).known().contains_key((#[trigger] writes@[i]).0) by {
                        if i < writes@.len() - 1 {
                        } else {
                            assert(!before.contains_key(pk));
                        }
                    }
                }
            }
            k = k + 1;
        }
        writes
    }

    /// The in-memory ids of the pubkeys it knows, in order, skipping the others.
    pub fn known_ids(&self, pubkeys: &[Pubkey]) -> (ids: Vec<u64>)
        requires
            self.wf(),
        ensures
            ids@ == ids_in(self.known(), pubkeys@),
    {
        let mut ids: Vec<u64> = Vec::new();
        let mut k: usize = 0;
        while k < pubkeys.len()
            invariant
                self.wf(),
                k <= pubkeys@.len(),
                ids@ == ids_in(self.known(), pubkeys@.take(k as int)),
            decreases pubkeys@.len() - k,
        {
            let ghost prefix = pubkeys@.take(k as int);
            assert(pubkeys@.take(k + 1).drop_last() =~= prefix);
            match self.cached_id(&pubkeys[k]) {
                Some(id) => {
                    ids.push(id);
                },
                None => {},
            }
            k = k + 1;
        }
        assert(pubkeys@.take(k as int) =~= pubkeys@);
        ids
    }

    /// The pubkey of an in-memory id.
    pub fn get_pubkey(&self, id: u64) -> (r: Option<Pubkey>)
        requires
            self.wf(),
        ensures
            r == (if self.known_reverse().contains_key(id) {
                Some(self.known_reverse()[id])
            } else {
                None::<Pubkey>
            }),
    {
        self.memory_cache.get_pubkey(id)
    }

    /// Number of pubkeys known in memory.
    pub fn len(&self) -> (n: usize)
        requires
            self.wf(),
        ensures
            n == self.known().len(),
    {
        self.memory_cache.len()
    }

    /// Whether no pubkey is known in memory.
    pub fn is_empty(&self) -> (r: bool)
        requires
            self.wf(),
        ensures
            r == (self.known().len() == 0),
    {
        self.memory_cache.is_empty()
    }
}

} // verus!
