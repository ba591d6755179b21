//! An association map keyed by values that compare by their view.
//!
//! Keys such as addresses, byte strings and discriminators have no total order
//! that the verifier knows, so maps keyed by them keep their entries in a
//! vector with no two keys alike, and look keys up by comparing views.
use vstd::prelude::*;

verus! {

/// Keys that can be compared for equality of their views.
pub trait KeyEq: View + Sized {
    fn eq_key(&self, other: &Self) -> (r: bool)
        ensures
            r == (self@ == other@),
    ;
}

impl KeyEq for u64 {
    fn eq_key(&self, other: &Self) -> (r: bool) {
        *self == *other
    }
}

impl KeyEq for usize {
    fn eq_key(&self, other: &Self) -> (r: bool) {
        *self == *other
    }
}

impl KeyEq for [u8; 8] {
    fn eq_key(&self, other: &Self) -> (r: bool) {
        let mut i: usize = 0;
        while i < 8
            invariant
                0 <= i <= 8,
                self@.len() == 8,
                other@.len() == 8,
                forall|j: int| 0 <= j < i ==> self@[j] == other@[j],
            decreases 8 - i,
        {
            if self[i] != other[i] {
                assert(self@[i as int] != other@[i as int]);
                return false;
            }
            i = i + 1;
        }
        assert(self@ =~= other@);
        true
    }
}

impl KeyEq for [u8; 32] {
    fn eq_key(&self, other: &Self) -> (r: bool) {
        let mut i: usize = 0;
        while i < 32
            invariant
                0 <= i <= 32,
                self@.len() == 32,
                other@.len() == 32,
                forall|j: int| 0 <= j < i ==> self@[j] == other@[j],
            decreases 32 - i,
        {
            if self[i] != other[i] {
                assert(self@[i as int] != other@[i as int]);
                return false;
            }
            i = i + 1;
        }
        assert(self@ =~= other@);
        true
    }
}

impl KeyEq for (usize, Vec<u8>) {
    fn eq_key(&self, other: &Self) -> (r: bool) {
        self.0 == other.0 && self.1.eq_key(&other.1)
    }
}

impl KeyEq for String {
    fn eq_key(&self, other: &Self) -> (r: bool) {
        *self == *other
    }
}

impl KeyEq for Vec<u8> {
    fn eq_key(&self, other: &Self) -> (r: bool) {
        if self.len() != other.len() {
            return false;
        }
        let mut i: usize = 0;
        while i < self.len()
            invariant
                0 <= i <= self.len(),
                self@.len() == other@.len(),
                forall|j: int| 0 <= j < i ==> self@[j] == other@[j],
            decreases self.len() - i,
        {
            if self[i] != other[i] {
                assert(self@[i as int] != other@[i as int]);
                return false;
            }
            i = i + 1;
        }
        assert(self@ =~= other@);
        true
    }
}

/// A map whose entries sit in a vector, no two keys with the same view.
pub struct KeyMap<K, V> {
    entries: Vec<(K, V)>,
}

impl<K: View, V> KeyMap<K, V> {
    /// The entries in the order they are kept.
    pub closed spec fn pairs(&self) -> Seq<(K, V)> {
        self.entries@
    }

    /// No two entries have keys with the same view.
    pub closed spec fn wf(&self) -> bool {
        forall|i: int, j: int|
            0 <= i < j < self.entries@.len() ==> (#[trigger] self.entries@[i]).0@ != (
            #[trigger] self.entries@[j]).0@
    }

    /// Whether some entry has a key with view `k`.
    pub open spec fn has_key(s: Seq<(K, V)>, k: K::V) -> bool {
        exists|i: int| 0 <= i < s.len() && (#[trigger] s[i]).0@ == k
    }

    /// The map from key views to values.
    pub closed spec fn to_map(&self) -> Map<K::V, V> {
        Map::new(
            |k: K::V| Self::has_key(self.entries@, k),
            |k: K::V|
                self.entries@[choose|i: int|
                    0 <= i < self.entries@.len() && (#[trigger] self.entries@[i]).0@ == k].1,
        )
    }

    proof fn lemma_value_at(&self, j: int)
        requires
            self.wf(),
            0 <= j < self.entries@.len(),
        ensures
            self.to_map().contains_key(self.entries@[j].0@),
            self.to_map()[self.entries@[j].0@] == self.entries@[j].1,
    {
        let k = self.entries@[j].0@;
        assert(Self::has_key(self.entries@, k));
        let i = choose|i: int| 0 <= i < self.entries@.len() && (#[trigger] self.entries@[i]).0@ == k;
        if i != j {
            if i < j {
                assert(self.entries@[i].0@ != self.entries@[j].0@);
            } else {
                assert(self.entries@[j].0@ != self.entries@[i].0@);
            }
        }
    }

    /// Each entry is in the map with its value.
    pub proof fn lemma_pair_in_map(&self, j: int)
        requires
            self.wf(),
            0 <= j < self.pairs().len(),
        ensures
            self@.contains_key(self.pairs()[j].0@),
            self@[self.pairs()[j].0@] == self.pairs()[j].1,
    {
        self.lemma_value_at(j);
    }

    /// Each key of the map belongs to some entry.
    pub proof fn lemma_key_in_pairs(&self, k: K::V) -> (j: int)
        requires
            self.wf(),
            self@.contains_key(k),
        ensures
            0 <= j < self.pairs().len(),
            self.pairs()[j].0@ == k,
    {
        choose|i: int| 0 <= i < self.entries@.len() && (#[trigger] self.entries@[i]).0@ == k
    }

    /// No two entries have keys with the same view.
    pub proof fn lemma_distinct(&self)
        requires
            self.wf(),
        ensures
            forall|i: int, j: int|
                0 <= i < j < self.pairs().len() ==> (#[trigger] self.pairs()[i]).0@ != (
                #[trigger] self.pairs()[j]).0@,
    {
    }

    /// The map's keys are finite and as many as the entries.
    pub proof fn lemma_len(&self)
        requires
            self.wf(),
        ensures
            self@.dom().finite(),
            self@.dom().len() == self.pairs().len(),
    {
        let ks = self.entries@.map_values(|e: (K, V)| e.0@);
        assert forall|i: int, j: int| 0 <= i < ks.len() && 0 <= j < ks.len() && i != j implies ks[i]
            != ks[j] by {
            if i < j {
                assert(self.entries@[i].0@ != self.entries@[j].0@);
            } else {
                assert(self.entries@[j].0@ != self.entries@[i].0@);
            }
        }
        assert(ks.no_duplicates());
        ks.unique_seq_to_set();
        assert forall|k: K::V| self.to_map().dom().contains(k) <==> ks.to_set().contains(k) by {
            if self.to_map().dom().contains(k) {
                let i = choose|i: int|
                    0 <= i < self.entries@.len() && (#[trigger] self.entries@[i]).0@ == k;
                assert(ks[i] == k);
            }
            if ks.to_set().contains(k) {
                let i = choose|i: int| 0 <= i < ks.len() && ks[i] == k;
                assert(self.entries@[i].0@ == k);
            }
        }
        assert(self.to_map().dom() =~= ks.to_set());
    }

    /// An empty map.
    pub fn new() -> (m: Self)
        ensures
            m.wf(),
            m@ == Map::<K::V, V>::empty(),
            m.pairs().len() == 0,
    {
        let m = KeyMap { entries: Vec::new() };
        assert(m.to_map() =~= Map::<K::V, V>::empty());
        m
    }

    /// Number of entries.
    pub fn len(&self) -> (n: usize)
        requires
            self.wf(),
        ensures
            n == self@.len(),
            n == self.pairs().len(),
            self@.dom().finite(),
    {
        proof {
            self.lemma_len();
        }
        self.entries.len()
    }

    /// Whether there are no entries.
    pub fn is_empty(&self) -> (r: bool)
        requires
            self.wf(),
        ensures
            r == (self@.len() == 0),
            r == (self@ == Map::<K::V, V>::empty()),
    {
        proof {
            self.lemma_len();
            if self.entries.len() > 0 {
                self.lemma_value_at(0);
                assert(self@.contains_key(self.entries@[0].0@));
            } else {
                assert(self.to_map() =~= Map::<K::V, V>::empty());
            }
        }
        self.entries.len() == 0
    }

    /// The entry at position `i`.
    pub fn pair_at(&self, i: usize) -> (p: &(K, V))
        requires
            i < self.pairs().len(),
        ensures
            *p == self.pairs()[i as int],
    {
        &self.entries[i]
    }

    /// Removes every entry.
    pub fn clear(&mut self)
        ensures
            final(self).wf(),
            final(self)@ == Map::<K::V, V>::empty(),
            final(self).pairs().len() == 0,
    {
        self.entries.clear();
        assert(self.to_map() =~= Map::<K::V, V>::empty());
    }
}

impl<K: View + Copy, V> KeyMap<K, V> {
    /// The keys, in the order the entries are kept.
    pub fn keys(&self) -> (v: Vec<K>)
        requires
            self.wf(),
        ensures
            v@.len() == self@.len(),
            v@.map_values(|k: K| k@).to_set() == self@.dom(),
            v@.map_values(|k: K| k@).no_duplicates(),
            forall|i: int| 0 <= i < v@.len() ==> self@.contains_key((#[trigger] v@[i])@),
            forall|k: K::V| #[trigger] self@.contains_key(k) ==> exists|i: int| 0 <= i < v@.len() && v@[i]@ == k,
            forall|i: int, j: int| 0 <= i < j < v@.len() ==> (#[trigger] v@[i])@ != (#[trigger] v@[j])@,
    {
        let n = self.entries.len();
        let mut v: Vec<K> = Vec::new();
        let mut i: usize = 0;
        while i < n
            invariant
                n == self.entries@.len(),
                i <= n,
                v@.len() == i,
                forall|j: int| 0 <= j < i ==> #[trigger] v@[j] == self.entries@[j].0,
            decreases n - i,
        {
            v.push(self.entries[i].0);
            i = i + 1;
        }
        proof {
            self.lemma_len();
            let ks = v@.map_values(|k: K| k@);
            assert forall|a: int, b: int| 0 <= a < ks.len() && 0 <= b < ks.len() && a != b implies ks[a]
                != ks[b] by {
                if a < b {
                    assert(self.entries@[a].0@ != self.entries@[b].0@);
                } else {
                    assert(self.entries@[b].0@ != self.entries@[a].0@);
                }
            }
            assert forall|k: K::V| ks.to_set().contains(k) <==> self@.dom().contains(k) by {
                if ks.to_set().contains(k) {
                    let a = choose|a: int| 0 <= a < ks.len() && ks[a] == k;
                    self.lemma_value_at(a);
                }
                if self@.dom().contains(k) {
                    let a = self.lemma_key_in_pairs(k);
                    assert(ks[a] == k);
                    assert(ks.contains(k));
                }
            }
            assert(ks.to_set() =~= self@.dom());
            assert forall|i: int| 0 <= i < v@.len() implies self@.contains_key((#[trigger] v@[i])@) by {
                self.lemma_value_at(i);
            }
            assert forall|k: K::V| #[trigger] self@.contains_key(k) implies exists|i: int| 0 <= i < v@.len() && v@[i]@ == k by {
                let a = self.lemma_key_in_pairs(k);
                assert(v@[a]@ == k);
            }
            assert forall|i: int, j: int| 0 <= i < j < v@.len() implies (#[trigger] v@[i])@ != (#[trigger] v@[j])@ by {
                assert(ks[i] == v@[i]@);
                assert(ks[j] == v@[j]@);
            }
        }
        v
    }
}

impl<K: View, V> KeyMap<K, V> {
    /// The value of the entry at position `i`, to change in place.
    pub fn value_at_mut(&mut self, i: usize) -> (r: &mut V)
        requires
            i < old(self).pairs().len(),
        ensures
            *r == old(self).pairs()[i as int].1,
            final(self).pairs() == old(self).pairs().update(
                i as int,
                (old(self).pairs()[i as int].0, *final(r)),
            ),
    {
        &mut self.entries[i].1
    }

    /// Changing the value at a position changes the map at that entry's key only,
    /// whatever the new value.
    pub proof fn lemma_update_at_any(&self, i: int)
        requires
            self.wf(),
            0 <= i < self.pairs().len(),
        ensures
            forall|other: Self, v: V|
                #![trigger other.pairs(), self.pairs().update(i, (self.pairs()[i].0, v))]
                other.pairs() == self.pairs().update(i, (self.pairs()[i].0, v)) ==> other.wf()
                    && other@ == self@.insert(self.pairs()[i].0@, v),
    {
        assert forall|other: Self, v: V|
            #![trigger other.pairs(), self.pairs().update(i, (self.pairs()[i].0, v))]
            other.pairs() == self.pairs().update(i, (self.pairs()[i].0, v)) implies other.wf()
                && other@ == self@.insert(self.pairs()[i].0@, v) by {
            self.lemma_update_at(&other, i, v);
        }
    }

    /// Changing the value at a position changes the map at that entry's key only.
    pub proof fn lemma_update_at(&self, other: &Self, i: int, v: V)
        requires
            self.wf(),
            0 <= i < self.pairs().len(),
            other.pairs() == self.pairs().update(i, (self.pairs()[i].0, v)),
        ensures
            other.wf(),
            other@ == self@.insert(self.pairs()[i].0@, v),
    {
        let k = self.pairs()[i].0@;
        assert forall|a: int, b: int|
            0 <= a < b < other.entries@.len() implies (#[trigger] other.entries@[a]).0@ != (
            #[trigger] other.entries@[b]).0@ by {
            assert(other.entries@[a].0 == self.entries@[a].0);
            assert(other.entries@[b].0 == self.entries@[b].0);
        }
        assert forall|x: K::V| #[trigger] other@.contains_key(x) <==> self@.insert(k, v).contains_key(x) by {
            if other@.contains_key(x) {
                let j = other.lemma_key_in_pairs(x);
                assert(self.entries@[j].0@ == x);
                self.lemma_value_at(j);
            }
            if self@.contains_key(x) {
                let j = self.lemma_key_in_pairs(x);
                assert(other.entries@[j].0@ == x);
                other.lemma_value_at(j);
            }
            if x == k {
                other.lemma_value_at(i);
            }
        }
        assert forall|x: K::V| #[trigger] other@.contains_key(x) implies other@[x] == self@.insert(k, v)[x] by {
            let j = other.lemma_key_in_pairs(x);
            other.lemma_value_at(j);
            if x == k {
                if j != i {
                    if j < i {
                        assert(other.entries@[j].0@ != other.entries@[i].0@);
                    } else {
                        assert(other.entries@[i].0@ != other.entries@[j].0@);
                    }
                }
            } else {
                self.lemma_value_at(j);
            }
        }
        assert(other@ =~= self@.insert(k, v));
    }
}

impl<K: View, V> View for KeyMap<K, V> {
    type V = Map<K::V, V>;

    closed spec fn view(&self) -> Map<K::V, V> {
        self.to_map()
    }
}

impl<K: KeyEq, V> KeyMap<K, V> {
    /// The position of the entry with key `k`, if any.
    pub fn find(&self, k: &K) -> (r: Option<usize>)
        requires
            self.wf(),
        ensures
            match r {
                Some(i) => i < self.pairs().len() && self.pairs()[i as int].0@ == k@
                    && self@.contains_key(k@),
                None => !self@.contains_key(k@),
            },
    {
        let mut i: usize = 0;
        while i < self.entries.len()
            invariant
                self.wf(),
                i <= self.entries@.len(),
                forall|j: int| 0 <= j < i ==> (#[trigger] self.entries@[j]).0@ != k@,
            decreases self.entries@.len() - i,
        {
            if self.entries[i].0.eq_key(k) {
                proof {
                    self.lemma_value_at(i as int);
                }
                return Some(i);
            }
            i = i + 1;
        }
        None
    }

    /// Whether some entry has key `k`.
    pub fn contains_key(&self, k: &K) -> (r: bool)
        requires
            self.wf(),
        ensures
            r == self@.contains_key(k@),
    {
        self.find(k).is_some()
    }

    /// The value for key `k`, if any.
    pub fn get(&self, k: &K) -> (r: Option<&V>)
        requires
            self.wf(),
        ensures
            match r {
                Some(v) => self@.contains_key(k@) && *v == self@[k@],
                None => !self@.contains_key(k@),
            },
    {
        match self.find(k) {
            Some(i) => {
                proof {
                    self.lemma_value_at(i as int);
                }
                Some(&self.entries[i].1)
            },
            None => None,
        }
    }

    /// Sets the value for key `k`, adding the key when it is new.
    pub fn insert(&mut self, k: K, v: V)
        requires
            old(self).wf(),
        ensures
            final(self).wf(),
            final(self)@ == old(self)@.insert(k@, v),
            old(self)@.contains_key(k@) ==> final(self).pairs().len() == old(self).pairs().len(),
            !old(self)@.contains_key(k@) ==> final(self).pairs().len() == old(self).pairs().len() + 1,
    {
        let ghost kv = k@;
        match self.find(&k) {
            Some(i) => {
                let ghost old_entries = self.entries@;
                self.entries.set(i, (k, v));
                proof {
                    assert forall|a: int, b: int|
                        0 <= a < b < self.entries@.len() implies (#[trigger] self.entries@[a]).0@
                        != (#[trigger] self.entries@[b]).0@ by {
                        assert(old_entries[a].0@ != old_entries[b].0@);
                    }
                    assert forall|key: K::V| #[trigger]
                        self.to_map().contains_key(key) == old(self).to_map().insert(
                            kv,
                            v,
                        ).contains_key(key) by {
                        if old(self).to_map().contains_key(key) {
                            let j = old(self).lemma_key_in_pairs(key);
                            assert(self.entries@[j].0@ == key);
                        }
                        if self.to_map().contains_key(key) {
                            let j = self.lemma_key_in_pairs(key);
                            if j != i {
                                assert(old_entries[j].0@ == key);
                            }
                        }
                    }
                    assert forall|key: K::V| #[trigger]
                        self.to_map().contains_key(key) implies self.to_map()[key] == old(
                            self,
                        ).to_map().insert(kv, v)[key] by {
                        let j = self.lemma_key_in_pairs(key);
                        self.lemma_value_at(j);
                        if j != i {
                            old(self).lemma_value_at(j);
                        }
                    }
                    assert(self.to_map() =~= old(self).to_map().insert(kv, v));
                }
            },
            None => {
                self.entries.push((k, v));
                proof {
                    let n = old(self).entries@.len() as int;
                    assert forall|a: int, b: int|
                        0 <= a < b < self.entries@.len() implies (#[trigger] self.entries@[a]).0@
                        != (#[trigger] self.entries@[b]).0@ by {
                        if b == n {
                            assert(old(self).entries@[a] == self.entries@[a]);
                            old(self).lemma_value_at(a);
                        }
                    }
                    assert forall|key: K::V| #[trigger]
                        self.to_map().contains_key(key) == old(self).to_map().insert(
                            kv,
                            v,
                        ).contains_key(key) by {
                        if old(self).to_map().contains_key(key) {
                            let j = old(self).lemma_key_in_pairs(key);
                            assert(self.entries@[j].0@ == key);
                        }
                        if key == kv {
                            assert(self.entries@[n].0@ == key);
                        }
                        if self.to_map().contains_key(key) {
                            let j = self.lemma_key_in_pairs(key);
                            if j != n {
                                assert(old(self).entries@[j].0@ == key);
                            }
                        }
                    }
                    assert forall|key: K::V| #[trigger]
                        self.to_map().contains_key(key) implies self.to_map()[key] == old(
                            self,
                        ).to_map().insert(kv, v)[key] by {
                        let j = self.lemma_key_in_pairs(key);
                        self.lemma_value_at(j);
                        if j != n {
                            assert(old(self).entries@[j] == self.entries@[j]);
                            old(self).lemma_value_at(j);
                        }
                    }
                    assert(self.to_map() =~= old(self).to_map().insert(kv, v));
                }
            },
        }
    }

    /// Removes the entry with key `k`, giving back its value.
    pub fn remove(&mut self, k: &K) -> (r: Option<V>)
        requires
            old(self).wf(),
        ensures
            final(self).wf(),
            final(self)@ == old(self)@.remove(k@),
            match r {
                Some(v) => old(self)@.contains_key(k@) && v == old(self)@[k@],
                None => !old(self)@.contains_key(k@),
            },
    {
        match self.find(k) {
            Some(i) => {
                let ghost old_entries = self.entries@;
                proof {
                    old(self).lemma_value_at(i as int);
                }
                let (_, v) = self.entries.remove(i);
                proof {
                    let kv = k@;
                    assert forall|a: int, b: int|
                        0 <= a < b < self.entries@.len() implies (#[trigger] self.entries@[a]).0@
                        != (#[trigger] self.entries@[b]).0@ by {
                        let a0 = if a < i { a } else { a + 1 };
                        let b0 = if b < i { b } else { b + 1 };
                        assert(self.entries@[a] == old_entries[a0]);
                        assert(self.entries@[b] == old_entries[b0]);
                        assert(old_entries[a0].0@ != old_entries[b0].0@);
                    }
                    assert forall|key: K::V| #[trigger]
                        self.to_map().contains_key(key) == old(self).to_map().remove(
                            kv,
                        ).contains_key(key) by {
                        if old(self).to_map().contains_key(key) && key != kv {
                            let j = old(self).lemma_key_in_pairs(key);
                            assert(j != i);
                            let j2 = if j < i { j } else { j - 1 };
                            assert(self.entries@[j2] == old_entries[j]);
                        }
                        if self.to_map().contains_key(key) {
                            let j = self.lemma_key_in_pairs(key);
                            let j0 = if j < i { j } else { j + 1 };
                            assert(self.entries@[j] == old_entries[j0]);
                            assert(old_entries[j0].0@ != old_entries[i as int].0@);
                        }
                    }
                    assert forall|key: K::V| #[trigger]
                        self.to_map().contains_key(key) implies self.to_map()[key] == old(
                            self,
                        ).to_map().remove(kv)[key] by {
                        let j = self.lemma_key_in_pairs(key);
                        let j0 = if j < i { j } else { j + 1 };
                        assert(self.entries@[j] == old_entries[j0]);
                        self.lemma_value_at(j);
                        old(self).lemma_value_at(j0);
                    }
                    assert(self.to_map() =~= old(self).to_map().remove(kv));
                }
                Some(v)
            },
            None => {
                assert(self.to_map() =~= old(self).to_map().remove(k@));
                None
            },
        }
    }
}

} // verus!
