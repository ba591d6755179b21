//! A dictionary from keys (discriminators or mints) to account ids, in three tiers:
//! hot, warm and cold.
use crate::collections::KeyMap;
use crate::index::sort_distinct;
use std::path::PathBuf;
use std::collections::HashMap;
use vstd::std_specs::hash::spec_hash_map_iter;
use vstd::std_specs::iter::IteratorSpec;
use vstd::prelude::*;

verus! {

broadcast use vstd::std_specs::hash::group_hash_axioms;

/// The tier of a dictionary entry.
#[derive(Debug, Clone, Copy, PartialEq, Eq, Structural)]
pub enum DictTier {
    L1Hot,
    L2Warm,
    L3Cold,
}

/// A dictionary entry.
#[derive(Debug)]
pub struct DictEntry {
    pub key: u64,
    /// The account ids under the key, each once, in order of addition.
    pub account_ids: Vec<u32>,
    pub tier: DictTier,
    pub access_count: u64,
    pub last_access_slot: u64,
}

/// A dictionary entry as a value.
#[verifier::ext_equal]
pub struct EntryView {
    pub key: u64,
    pub account_ids: Seq<u32>,
    pub tier: DictTier,
    pub access_count: u64,
    pub last_access_slot: u64,
}

impl View for DictEntry {
    type V = EntryView;

    open spec fn view(&self) -> EntryView {
        EntryView {
            key: self.key,
            account_ids: self.account_ids@,
            tier: self.tier,
            access_count: self.access_count,
            last_access_slot: self.last_access_slot,
        }
    }
}

/// A new entry: one account, hot, one access at `slot`.
pub open spec fn new_entry(key: u64, account_id: u32, slot: u64) -> EntryView {
    EntryView { key, account_ids: seq![account_id], tier: DictTier::L1Hot, access_count: 1, last_access_slot: slot }
}

/// The entry after an access at `slot`.
pub open spec fn accessed(e: EntryView, slot: u64) -> EntryView {
    EntryView { access_count: (e.access_count + 1) as u64, last_access_slot: slot, ..e }
}

/// The entry after the account is added, unless it is already there.
pub open spec fn with_account(e: EntryView, account_id: u32) -> EntryView {
    EntryView {
        account_ids: if e.account_ids.contains(account_id) {
            e.account_ids
        } else {
            e.account_ids.push(account_id)
        },
        ..e
    }
}

/// The entry after it is looked up: one more access.
pub open spec fn looked_up(e: EntryView) -> EntryView {
    EntryView { access_count: (e.access_count + 1) as u64, ..e }
}

impl Clone for DictEntry {
    fn clone(&self) -> (c: Self)
        ensures
            c@ == self@,
    {
        let mut ids: Vec<u32> = Vec::new();
        let mut i: usize = 0;
        while i < self.account_ids.len()
            invariant
                i <= self.account_ids@.len(),
                ids@ == self.account_ids@.take(i as int),
            decreases self.account_ids@.len() - i,
        {
            ids.push(self.account_ids[i]);
            proof {
                assert(self.account_ids@.take(i + 1) =~= self.account_ids@.take(i as int).push(
                    self.account_ids@[i as int],
                ));
            }
            i = i + 1;
        }
        assert(self.account_ids@.take(i as int) =~= self.account_ids@);
        let c = DictEntry {
            key: self.key,
            account_ids: ids,
            tier: self.tier,
            access_count: self.access_count,
            last_access_slot: self.last_access_slot,
        };
        assert(c@ =~= self@);
        c
    }
}

impl DictEntry {
    /// An entry with one account, hot, accessed once at `slot`.
    pub fn new(key: u64, account_id: u32, slot: u64) -> (e: Self)
        ensures
            e@ == new_entry(key, account_id, slot),
    {
        DictEntry { key, account_ids: vec![account_id], tier: DictTier::L1Hot, access_count: 1, last_access_slot: slot }
    }

    /// Counts an access at `slot`.
    pub fn access(&mut self, slot: u64)
        requires
            old(self).access_count < u64::MAX,
        ensures
            final(self)@ == accessed(old(self)@, slot),
    {
        self.access_count = self.access_count + 1;
        self.last_access_slot = slot;
    }

    /// Adds the account unless it is already there.
    pub fn add_account(&mut self, account_id: u32)
        ensures
            final(self)@ == with_account(old(self)@, account_id),
            old(self)@.account_ids.contains(account_id) ==> final(self)@.account_ids == old(self)@.account_ids,
            !old(self)@.account_ids.contains(account_id) ==> final(self)@.account_ids == old(
                self,
            )@.account_ids.push(account_id),
            old(self)@.account_ids.no_duplicates() ==> final(self)@.account_ids.no_duplicates(),
            final(self).key == old(self).key,
            final(self).access_count == old(self).access_count,
            final(self).last_access_slot == old(self).last_access_slot,
    {
        let mut found = false;
        let mut i: usize = 0;
        while i < self.account_ids.len()
            invariant
                i <= self.account_ids@.len(),
                found == (exists|j: int| 0 <= j < i && self.account_ids@[j] == account_id),
            decreases self.account_ids@.len() - i,
        {
            if self.account_ids[i] == account_id {
                found = true;
            }
            i = i + 1;
        }
        if !found {
            self.account_ids.push(account_id);
        }
        proof {
            lemma_with_account_distinct(old(self)@.account_ids, account_id);
        }
    }
}

/// Adding an account to a list of distinct accounts keeps them distinct, and adds
/// nothing when the account is already listed.
pub proof fn lemma_with_account_distinct(ids: Seq<u32>, account_id: u32)
    ensures
        ids.contains(account_id) ==> with_account(EntryView {
            key: 0,
            account_ids: ids,
            tier: DictTier::L1Hot,
            access_count: 0,
            last_access_slot: 0,
        }, account_id).account_ids == ids,
        ids.no_duplicates() ==> (if ids.contains(account_id) {
            ids
        } else {
            ids.push(account_id)
        }).no_duplicates(),
{
    if ids.no_duplicates() && !ids.contains(account_id) {
        let t = ids.push(account_id);
        assert forall|i: int, j: int| 0 <= i < t.len() && 0 <= j < t.len() && i != j implies t[i] != t[j] by {
            if i < ids.len() && j < ids.len() {
            } else if i == ids.len() {
                assert(ids.contains(ids[j]));
            } else {
                assert(ids.contains(ids[i]));
            }
        }
    }
}

/// Filing an account under a key keeps the key's accounts distinct: the accounts
/// afterwards are those before and the new one, each once, and an account already
/// filed under the key changes nothing in its list.
pub proof fn lemma_filing_keeps_accounts_distinct(m: Map<u64, EntryView>, key: u64, account_id: u32, slot: u64)
    requires
        entries_ok(m),
    ensures
        inserted(m, key, account_id, slot).account_ids.no_duplicates(),
        inserted(m, key, account_id, slot).account_ids.to_set() == (if m.contains_key(key) {
            m[key].account_ids.to_set()
        } else {
            Set::<u32>::empty()
        }).insert(account_id),
        m.contains_key(key) && m[key].account_ids.contains(account_id) ==> inserted(
            m,
            key,
            account_id,
            slot,
        ).account_ids == m[key].account_ids,
{
    if m.contains_key(key) {
        let ids = m[key].account_ids;
        lemma_with_account_distinct(ids, account_id);
        if ids.contains(account_id) {
            assert(ids.to_set() =~= ids.to_set().insert(account_id));
        } else {
            ids.lemma_push_to_set_commute(account_id);
        }
    } else {
        let one = seq![account_id];
        assert(one[0] == account_id);
        assert forall|x: u32| one.to_set().contains(x) <==> Set::<u32>::empty().insert(account_id).contains(x) by {
            if x == account_id {
                assert(one.contains(x));
            }
        }
        assert(one.to_set() =~= Set::<u32>::empty().insert(account_id));
        assert(seq![account_id].no_duplicates());
    }
}

/// The entries of a tier, by key.
pub open spec fn entry_views(m: Map<u64, DictEntry>) -> Map<u64, EntryView> {
    m.map_values(|e: DictEntry| e@)
}

/// Every entry is filed under its own key, holds at least one account and has
/// been accessed.
pub open spec fn entries_ok(m: Map<u64, EntryView>) -> bool {
    forall|k: u64| #[trigger] m.contains_key(k) ==> m[k].key == k && m[k].account_ids.len() >= 1
        && m[k].access_count >= 1 && m[k].account_ids.no_duplicates()
}

/// An access to an existing entry can be counted.
pub open spec fn can_count(m: Map<u64, EntryView>, k: u64) -> bool {
    m.contains_key(k) ==> m[k].access_count < u64::MAX
}

/// The entry an insert leaves under `key`.
pub open spec fn inserted(m: Map<u64, EntryView>, key: u64, account_id: u32, slot: u64) -> EntryView {
    if m.contains_key(key) {
        with_account(accessed(m[key], slot), account_id)
    } else {
        new_entry(key, account_id, slot)
    }
}

/// `new` is `old` after the account is filed under `key` in a tier of `max` entries:
/// an existing entry is updated; a new key first evicts a least accessed entry from a
/// full tier.
pub open spec fn filed(old: Map<u64, EntryView>, max: usize, key: u64, account_id: u32, slot: u64, new: Map<
    u64,
    EntryView,
>) -> bool {
    if old.contains_key(key) || old.len() < max || old.len() == 0 {
        new == old.insert(key, inserted(old, key, account_id, slot))
    } else {
        exists|v: u64| #[trigger] least_accessed(old, v) && new == old.remove(v).insert(key, new_entry(key, account_id, slot))
    }
}

/// `v` has an entry, and no entry has fewer accesses.
pub open spec fn least_accessed(m: Map<u64, EntryView>, v: u64) -> bool {
    m.contains_key(v) && forall|k: u64| #[trigger] m.contains_key(k) ==> m[v].access_count <= m[k].access_count
}

/// Updates the entry under `key`, or adds a new one.
fn upsert(
    entries: &mut KeyMap<u64, DictEntry>,
    key: u64,
    account_id: u32,
    slot: u64,
)
    requires
        old(entries).wf(),
        entries_ok(entry_views(old(entries)@)),
        can_count(entry_views(old(entries)@), key),
    ensures
        final(entries).wf(),
        entries_ok(entry_views(final(entries)@)),
        entry_views(final(entries)@) == entry_views(old(entries)@).insert(
            key,
            inserted(entry_views(old(entries)@), key, account_id, slot),
        ),
{
    let e = match entries.remove(&key) {
        Some(mut e) => {
            e.access(slot);
            e.add_account(account_id);
            e
        },
        None => DictEntry::new(key, account_id, slot),
    };
    entries.insert(key, e);
    proof {
        assert(entry_views(entries@) =~= entry_views(old(entries)@).insert(
            key,
            inserted(entry_views(old(entries)@), key, account_id, slot),
        ));
    }
}

/// Counts a lookup of the entry under `key` and returns a copy of it.
fn lookup(entries: &mut KeyMap<u64, DictEntry>, key: u64) -> (r: Option<DictEntry>)
    requires
        old(entries).wf(),
        entries_ok(entry_views(old(entries)@)),
        can_count(entry_views(old(entries)@), key),
    ensures
        final(entries).wf(),
        entries_ok(entry_views(final(entries)@)),
        r is Some <==> old(entries)@.contains_key(key),
        r is None ==> final(entries)@ == old(entries)@,
        r matches Some(e) ==> e@ == looked_up(entry_views(old(entries)@)[key]) && entry_views(final(entries)@)
            == entry_views(old(entries)@).insert(key, e@),
{
    match entries.remove(&key) {
        Some(mut e) => {
            e.access_count = e.access_count + 1;
            let c = e.clone();
            entries.insert(key, e);
            proof {
                assert(entry_views(entries@) =~= entry_views(old(entries)@).insert(key, c@));
            }
            Some(c)
        },
        None => {
            proof {
                assert(entries@ =~= old(entries)@);
            }
            None
        },
    }
}

/// Updates the entry under `key` of a hashed tier, or adds a new one.
fn upsert_hashed(entries: &mut HashMap<u64, DictEntry>, key: u64, account_id: u32, slot: u64)
    requires
        entries_ok(entry_views(old(entries)@)),
        can_count(entry_views(old(entries)@), key),
    ensures
        entries_ok(entry_views(final(entries)@)),
        entry_views(final(entries)@) == entry_views(old(entries)@).insert(
            key,
            inserted(entry_views(old(entries)@), key, account_id, slot),
        ),
{
    let e = match entries.remove(&key) {
        Some(mut e) => {
            e.access(slot);
            e.add_account(account_id);
            e
        },
        None => DictEntry::new(key, account_id, slot),
    };
    entries.insert(key, e);
    proof {
        assert(entry_views(entries@) =~= entry_views(old(entries)@).insert(
            key,
            inserted(entry_views(old(entries)@), key, account_id, slot),
        ));
    }
}

/// Counts a lookup of the entry under `key` of a hashed tier and returns a copy of it.
fn lookup_hashed(entries: &mut HashMap<u64, DictEntry>, key: u64) -> (r: Option<DictEntry>)
    requires
        entries_ok(entry_views(old(entries)@)),
        can_count(entry_views(old(entries)@), key),
    ensures
        entries_ok(entry_views(final(entries)@)),
        r is Some <==> old(entries)@.contains_key(key),
        r is None ==> final(entries)@ == old(entries)@,
        r matches Some(e) ==> e@ == looked_up(entry_views(old(entries)@)[key]) && entry_views(final(entries)@)
            == entry_views(old(entries)@).insert(key, e@),
{
    match entries.remove(&key) {
        Some(mut e) => {
            e.access_count = e.access_count + 1;
            let c = e.clone();
            entries.insert(key, e);
            proof {
                assert(entry_views(entries@) =~= entry_views(old(entries)@).insert(key, c@));
            }
            Some(c)
        },
        None => {
            proof {
                assert(entries@ =~= old(entries)@);
            }
            None
        },
    }
}

/// The hot tier.
pub struct L1HotDict {
    entries: HashMap<u64, DictEntry>,
    max_size: usize,
}

impl L1HotDict {
    /// The entries by key.
    pub closed spec fn entries(&self) -> Map<u64, EntryView> {
        entry_views(self.entries@)
    }

    pub closed spec fn spec_max_size(&self) -> usize {
        self.max_size
    }

    pub closed spec fn wf(&self) -> bool {
        entries_ok(self.entries())
    }

    /// An empty tier of `max_size` entries.
    pub fn new(max_size: usize) -> (d: Self)
        ensures
            d.wf(),
            d.entries() == Map::<u64, EntryView>::empty(),
            d.spec_max_size() == max_size,
    {
        let d = L1HotDict { entries: HashMap::new(), max_size };
        assert(d.entries() =~= Map::<u64, EntryView>::empty());
        d
    }

    /// Evicts the least accessed entry (the first kept of those with the fewest accesses)
    /// from a tier that holds one.
    fn evict_least_accessed(&mut self)
        requires
            old(self).wf(),
            old(self).entries().len() > 0,
        ensures
            final(self).wf(),
            final(self).spec_max_size() == old(self).spec_max_size(),
            exists|v: u64| #[trigger] least_accessed(old(self).entries(), v) && final(self).entries()
                == old(self).entries().remove(v),
    {
        let ghost m = self.entries@;
        let mut v: u64 = 0;
        let mut best: u64 = 0;
        let mut found = false;
        for kv in it: self.entries.iter()
            invariant
                m == self.entries@,
                it.seq() == spec_hash_map_iter(&self.entries).remaining(),
                found ==> m.contains_key(v) && m[v].access_count == best,
                it.index() > 0 ==> found,
                forall|j: int| 0 <= j < it.index() ==> best <= (#[trigger] it.seq()[j]).1.access_count,
        {
            let (k, e) = kv;
            if !found || e.access_count < best {
                v = *k;
                best = e.access_count;
                found = true;
            }
        }
        proof {
            let sq = spec_hash_map_iter(&self.entries).remaining();
            assert(sq.len() == m.dom().len());
            assert(self.entries().dom() =~= m.dom());
            assert(found);
            assert forall|k: u64| #[trigger] self.entries().contains_key(k) implies self.entries()[v].access_count
                <= self.entries()[k].access_count by {
                assert(m.contains_key(k));
                assert(sq.contains((&k, &m[k])));
                let j = choose|j: int| 0 <= j < sq.len() && sq[j] == (&k, &m[k]);
                assert(best <= (*sq[j].1).access_count);
            }
            assert(least_accessed(old(self).entries(), v));
        }
        self.entries.remove(&v);
        proof {
            assert(self.entries() =~= old(self).entries().remove(v));
        }
    }

    /// Files the account under the key: an existing entry counts an access and gains
    /// the account; otherwise a new entry is made, after the least accessed entry is
    /// evicted from a full tier. Returns a copy of the entry.
    pub fn insert(&mut self, key: u64, account_id: u32, slot: u64) -> (r: Option<DictEntry>)
        requires
            old(self).wf(),
            can_count(old(self).entries(), key),
        ensures
            final(self).wf(),
            filed(old(self).entries(), old(self).spec_max_size(), key, account_id, slot, final(self).entries()),
            final(self).spec_max_size() == old(self).spec_max_size(),
            r matches Some(e) && e@ == inserted(old(self).entries(), key, account_id, slot),
            r matches Some(e) ==> e@.account_ids.no_duplicates(),
    {
        proof {
            lemma_filing_keeps_accounts_distinct(old(self).entries(), key, account_id, slot);
        }
        proof {
            assert(self.entries().dom() =~= self.entries@.dom());
        }
        let evict = !self.entries.contains_key(&key) && self.entries.len() >= self.max_size && self.entries.len() > 0;
        if evict {
            self.evict_least_accessed();
        }
        let ghost mid = self.entries();
        proof {
            if evict {
                assert(!mid.contains_key(key));
                assert(inserted(mid, key, account_id, slot) == new_entry(key, account_id, slot));
            }
        }
        upsert_hashed(&mut self.entries, key, account_id, slot);
        proof {
            if evict {
                let v = choose|v: u64| #[trigger] least_accessed(old(self).entries(), v) && mid == old(self).entries().remove(v);
                assert(least_accessed(old(self).entries(), v));
                assert(self.entries() == old(self).entries().remove(v).insert(key, new_entry(key, account_id, slot)));
            }
        }
        match self.entries.get(&key) {
            Some(e) => {
                proof {
                    assert(self.entries()[key] == e@);
                }
                Some(e.clone())
            },
            None => {
                proof {
                    assert(self.entries().contains_key(key));
                }
                None
            },
        }
    }

    /// A copy of the entry under the key, counting the lookup.
    pub fn get(&mut self, key: u64) -> (r: Option<DictEntry>)
        requires
            old(self).wf(),
            can_count(old(self).entries(), key),
        ensures
            final(self).wf(),
            final(self).spec_max_size() == old(self).spec_max_size(),
            r is Some <==> old(self).entries().contains_key(key),
            r is None ==> final(self).entries() == old(self).entries(),
            r matches Some(e) ==> e@ == looked_up(old(self).entries()[key]) && final(self).entries()
                == old(self).entries().insert(key, e@),
    {
        lookup_hashed(&mut self.entries, key)
    }

    /// Removes the entry under the key.
    pub fn remove(&mut self, key: u64) -> (r: Option<DictEntry>)
        requires
            old(self).wf(),
        ensures
            final(self).wf(),
            final(self).spec_max_size() == old(self).spec_max_size(),
            final(self).entries() == old(self).entries().remove(key),
            r is Some <==> old(self).entries().contains_key(key),
            r matches Some(e) ==> e@ == old(self).entries()[key],
    {
        let r = self.entries.remove(&key);
        proof {
            assert(self.entries() =~= old(self).entries().remove(key));
        }
        r
    }

    /// Number of entries.
    pub fn len(&self) -> (n: usize)
        requires
            self.wf(),
        ensures
            n == self.entries().len(),
    {
        proof {
            assert(self.entries().dom() =~= self.entries@.dom());
        }
        self.entries.len()
    }
}

/// The smallest key of a set.
pub open spec fn smallest_key(s: Set<u64>) -> u64 {
    choose|k: u64| s.contains(k) && forall|j: u64| #[trigger] s.contains(j) ==> k <= j
}

proof fn lemma_smallest(keys: Seq<u64>, d: Set<u64>)
    requires
        keys.len() > 0,
        forall|i: int, j: int| 0 <= i < j < keys.len() ==> keys[i] < keys[j],
        keys.to_set() == d,
    ensures
        smallest_key(d) == keys[0],
{
    assert(keys.to_set().contains(keys[0]));
    assert forall|j: u64| #[trigger] d.contains(j) implies keys[0] <= j by {
        assert(keys.to_set().contains(j));
        let t = choose|t: int| 0 <= t < keys.len() && keys[t] == j;
        if t > 0 {
            assert(keys[0] < keys[t]);
        }
    }
    let m = smallest_key(d);
    assert(d.contains(m) && forall|j: u64| #[trigger] d.contains(j) ==> m <= j);
    assert(m <= keys[0] && keys[0] <= m);
}

/// The warm tier: when full, a new key evicts the smallest key.
pub struct L2WarmDict {
    entries: KeyMap<u64, DictEntry>,
    max_size: usize,
}

impl L2WarmDict {
    /// The entries by key.
    pub closed spec fn entries(&self) -> Map<u64, EntryView> {
        entry_views(self.entries@)
    }

    pub closed spec fn spec_max_size(&self) -> usize {
        self.max_size
    }

    pub closed spec fn wf(&self) -> bool {
        self.entries.wf() && entries_ok(self.entries())
    }

    /// An empty tier of `max_size` entries.
    pub fn new(max_size: usize) -> (d: Self)
        ensures
            d.wf(),
            d.entries() == Map::<u64, EntryView>::empty(),
            d.spec_max_size() == max_size,
    {
        let d = L2WarmDict { entries: KeyMap::new(), max_size };
        assert(d.entries() =~= Map::<u64, EntryView>::empty());
        d
    }

    /// The keys in ascending order.
    fn sorted_keys(&self) -> (v: Vec<u64>)
        requires
            self.wf(),
        ensures
            forall|i: int, j: int| 0 <= i < j < v@.len() ==> v@[i] < v@[j],
            v@.to_set() == self.entries().dom(),
            v@.len() == self.entries().len(),
    {
        let keys = self.entries.keys();
        proof {
            assert(keys@.no_duplicates());
            assert(self.entries().dom() =~= self.entries@.dom());
            assert(self.entries().len() == self.entries@.len());
            assert forall|k: u64| keys@.to_set().contains(k) <==> self.entries@.dom().contains(k) by {
                if self.entries@.contains_key(k) {
                    let i = choose|i: int| 0 <= i < keys@.len() && keys@[i]@ == k;
                    assert(keys@.contains(k));
                }
            }
            assert(keys@.to_set() =~= self.entries@.dom());
            keys@.unique_seq_to_set();
        }
        sort_distinct(&keys)
    }

    /// Files the account under the key: an existing entry counts an access and gains
    /// the account; otherwise, when the tier is full, the smallest key is evicted
    /// first, and a new entry is made.
    pub fn insert(&mut self, key: u64, account_id: u32, slot: u64)
        requires
            old(self).wf(),
            can_count(old(self).entries(), key),
        ensures
            final(self).wf(),
            final(self).spec_max_size() == old(self).spec_max_size(),
            ({
                let evict = !old(self).entries().contains_key(key) && old(self).entries().len()
                    >= old(self).spec_max_size() && old(self).entries().len() > 0;
                let kept = if evict {
                    old(self).entries().remove(smallest_key(old(self).entries().dom()))
                } else {
                    old(self).entries()
                };
                final(self).entries() == kept.insert(key, inserted(old(self).entries(), key, account_id, slot))
            }),
    {
        proof {
            assert(self.entries().dom() =~= self.entries@.dom());
            assert(self.entries().len() == self.entries@.len());
        }
        if !self.entries.contains_key(&key) && self.entries.len() >= self.max_size {
            let keys = self.sorted_keys();
            if keys.len() > 0 {
                let first = keys[0];
                proof {
                    lemma_smallest(keys@, old(self).entries().dom());
                }
                self.entries.remove(&first);
                proof {
                    assert(self.entries() =~= old(self).entries().remove(first));
                }
            }
        }
        proof {
            assert(inserted(self.entries(), key, account_id, slot) == inserted(
                old(self).entries(),
                key,
                account_id,
                slot,
            ));
        }
        upsert(&mut self.entries, key, account_id, slot);
    }

    /// A copy of the entry under the key, counting the lookup.
    pub fn get(&mut self, key: u64) -> (r: Option<DictEntry>)
        requires
            old(self).wf(),
            can_count(old(self).entries(), key),
        ensures
            final(self).wf(),
            final(self).spec_max_size() == old(self).spec_max_size(),
            r is Some <==> old(self).entries().contains_key(key),
            r is None ==> final(self).entries() == old(self).entries(),
            r matches Some(e) ==> e@ == looked_up(old(self).entries()[key]) && final(self).entries()
                == old(self).entries().insert(key, e@),
    {
        lookup(&mut self.entries, key)
    }

    /// Copies of the entries with keys from `start` to `end`, in ascending key order.
    pub fn range(&self, start: u64, end: u64) -> (v: Vec<DictEntry>)
        requires
            self.wf(),
        ensures
            forall|i: int, j: int| 0 <= i < j < v@.len() ==> v@[i].key < v@[j].key,
            forall|i: int| 0 <= i < v@.len() ==> start <= (#[trigger] v@[i]).key <= end && self.entries().contains_key(
                v@[i].key,
            ) && v@[i]@ == self.entries()[v@[i].key],
            forall|k: u64| start <= k <= end && #[trigger] self.entries().contains_key(k) ==> exists|i: int|
                0 <= i < v@.len() && v@[i].key == k,
    {
        let keys = self.sorted_keys();
        let mut v: Vec<DictEntry> = Vec::new();
        let mut i: usize = 0;
        while i < keys.len()
            invariant
                self.wf(),
                i <= keys@.len(),
                forall|a: int, b: int| 0 <= a < b < keys@.len() ==> keys@[a] < keys@[b],
                keys@.to_set() == self.entries().dom(),
                forall|a: int, b: int| 0 <= a < b < v@.len() ==> v@[a].key < v@[b].key,
                forall|a: int| 0 <= a < v@.len() ==> start <= (#[trigger] v@[a]).key <= end
                    && self.entries().contains_key(v@[a].key) && v@[a]@ == self.entries()[v@[a].key],
                forall|a: int, t: int| 0 <= a < v@.len() && i <= t < keys@.len() ==> (#[trigger] v@[a]).key
                    < #[trigger] keys@[t],
                forall|t: int| 0 <= t < i && start <= #[trigger] keys@[t] <= end ==> exists|a: int|
                    0 <= a < v@.len() && (#[trigger] v@[a]).key == keys@[t],
            decreases keys@.len() - i,
        {
            let k = keys[i];
            proof {
                assert(keys@.to_set().contains(k));
            }
            if start <= k && k <= end {
                match self.entries.get(&k) {
                    Some(e) => {
                        proof {
                            assert(self.entries()[k] == e@);
                        }
                        let c = e.clone();
                        let ghost old_v = v@;
                        v.push(c);
                        proof {
                            let last = v@.len() - 1;
                            assert(self.entries().contains_key(k));
                            assert(v@[last]@ == e@);
                            assert(v@[last].key == k);
                            assert forall|t: int| 0 <= t < i + 1 && start <= #[trigger] keys@[t] <= end implies exists|
                                a: int,
                            | 0 <= a < v@.len() && (#[trigger] v@[a]).key == keys@[t] by {
                                if t == i {
                                    assert(v@[last].key == keys@[t]);
                                } else {
                                    let a = choose|a: int| 0 <= a < old_v.len() && (#[trigger] old_v[a]).key == keys@[t];
                                    assert(v@[a] == old_v[a]);
                                    assert(v@[a].key == keys@[t]);
                                }
                            }
                            assert forall|a: int, t: int| 0 <= a < v@.len() && i + 1 <= t < keys@.len() implies (
                            #[trigger] v@[a]).key < #[trigger] keys@[t] by {
                                if a < last {
                                    assert(v@[a].key < keys@[t]);
                                } else {
                                    assert(keys@[i as int] < keys@[t]);
                                }
                            }
                        }
                    },
                    None => {},
                }
            }
            i = i + 1;
        }
        proof {
            assert forall|k: u64| start <= k <= end && #[trigger] self.entries().contains_key(k) implies exists|
                a: int,
            | 0 <= a < v@.len() && v@[a].key == k by {
                assert(keys@.to_set().contains(k));
                let t = choose|t: int| 0 <= t < keys@.len() && keys@[t] == k;
                assert(start <= keys@[t] <= end);
            }
        }
        v
    }

    /// Number of entries.
    pub fn len(&self) -> (n: usize)
        requires
            self.wf(),
        ensures
            n == self.entries().len(),
    {
        proof {
            assert(self.entries().dom() =~= self.entries@.dom());
        }
        self.entries.len()
    }
}

/// The cold tier: a cache in front of a file.
pub struct L3ColdDict {
    file_path: PathBuf,
    cache: HashMap<u64, DictEntry>,
}

impl L3ColdDict {
    /// Where the files are kept.
    pub closed spec fn file_path(&self) -> PathBuf {
        self.file_path
    }

    /// The cached entries by key.
    pub closed spec fn entries(&self) -> Map<u64, EntryView> {
        entry_views(self.cache@)
    }

    pub closed spec fn wf(&self) -> bool {
        entries_ok(self.entries())
    }

    /// An empty tier backed by `file_path` (whose directory the caller creates).
    pub fn new(file_path: PathBuf) -> (d: Self)
        ensures
            d.file_path() == file_path,
            d.wf(),
            d.entries() == Map::<u64, EntryView>::empty(),
    {
        let d = L3ColdDict { file_path, cache: HashMap::new() };
        assert(d.entries() =~= Map::<u64, EntryView>::empty());
        d
    }

    /// Files the account under the key (as the hot tier does), then persists.
    pub fn insert(&mut self, key: u64, account_id: u32, slot: u64) -> (r: Result<(), std::io::Error>)
        requires
            old(self).wf(),
            can_count(old(self).entries(), key),
        ensures
            final(self).wf(),
            final(self).entries() == old(self).entries().insert(
                key,
                inserted(old(self).entries(), key, account_id, slot),
            ),
            r is Ok,
    {
        upsert_hashed(&mut self.cache, key, account_id, slot);
        self.persist()
    }

    /// A copy of the cached entry under the key, counting the lookup.
    pub fn get(&mut self, key: u64) -> (r: Option<DictEntry>)
        requires
            old(self).wf(),
            can_count(old(self).entries(), key),
        ensures
            final(self).wf(),
            r is Some <==> old(self).entries().contains_key(key),
            r is None ==> final(self).entries() == old(self).entries(),
            r matches Some(e) ==> e@ == looked_up(old(self).entries()[key]) && final(self).entries()
                == old(self).entries().insert(key, e@),
    {
        lookup_hashed(&mut self.cache, key)
    }

    /// Writes the tier out; nothing is written yet, so this always succeeds.
    fn persist(&self) -> (r: Result<(), std::io::Error>)
        ensures
            r is Ok,
    {
        Ok(())
    }

    /// Number of cached entries.
    pub fn len(&self) -> (n: usize)
        requires
            self.wf(),
        ensures
            n == self.entries().len(),
    {
        proof {
            assert(self.entries().dom() =~= self.cache@.dom());
        }
        self.cache.len()
    }
}

/// Tiered dictionary statistics.
#[derive(Debug, Clone, Copy, PartialEq, Eq, Structural)]
pub struct TieredDictStats {
    pub l1_count: usize,
    pub l2_count: usize,
    pub l3_count: usize,
    pub total_count: usize,
}

/// The three tiers and the current slot.
pub struct TieredDictionary {
    l1: L1HotDict,
    l2: L2WarmDict,
    l3: L3ColdDict,
    current_slot: u64,
}

impl TieredDictionary {
    pub closed spec fn hot(&self) -> L1HotDict {
        self.l1
    }

    pub closed spec fn warm(&self) -> L2WarmDict {
        self.l2
    }

    pub closed spec fn cold(&self) -> L3ColdDict {
        self.l3
    }

    pub closed spec fn spec_slot(&self) -> u64 {
        self.current_slot
    }

    pub closed spec fn wf(&self) -> bool {
        self.l1.wf() && self.l2.wf() && self.l3.wf()
    }

    /// Empty tiers of the given sizes, the cold one backed by `cold_path`; slot 0.
    pub fn new(cold_path: PathBuf, l1_size: usize, l2_size: usize) -> (d: Self)
        ensures
            d.wf(),
            d.hot().entries() == Map::<u64, EntryView>::empty(),
            d.warm().entries() == Map::<u64, EntryView>::empty(),
            d.cold().entries() == Map::<u64, EntryView>::empty(),
            d.hot().spec_max_size() == l1_size,
            d.warm().spec_max_size() == l2_size,
            d.spec_slot() == 0,
    {
        TieredDictionary {
            l1: L1HotDict::new(l1_size),
            l2: L2WarmDict::new(l2_size),
            l3: L3ColdDict::new(cold_path),
            current_slot: 0,
        }
    }

    /// Files the account under the key in the hot tier, at the current slot.
    pub fn insert(&mut self, key: u64, account_id: u32)
        requires
            old(self).wf(),
            can_count(old(self).hot().entries(), key),
        ensures
            final(self).wf(),
            filed(
                old(self).hot().entries(),
                old(self).hot().spec_max_size(),
                key,
                account_id,
                old(self).spec_slot(),
                final(self).hot().entries(),
            ),
            final(self).hot().spec_max_size() == old(self).hot().spec_max_size(),
            final(self).warm() == old(self).warm(),
            final(self).cold() == old(self).cold(),
            final(self).spec_slot() == old(self).spec_slot(),
    {
        let slot = self.current_slot;
        self.l1.insert(key, account_id, slot);
    }

    /// Looks the key up in the hot tier, then the warm one (a warm hit is copied to
    /// the hot tier with its first account and last access slot), then the cold one.
    pub fn get(&mut self, key: u64) -> (r: Option<DictEntry>)
        requires
            old(self).wf(),
            can_count(old(self).hot().entries(), key),
            can_count(old(self).warm().entries(), key),
            can_count(old(self).cold().entries(), key),
            old(self).hot().entries().contains_key(key) || can_count(
                old(self).hot().entries(),
                key,
            ),
        ensures
            final(self).wf(),
            final(self).spec_slot() == old(self).spec_slot(),
            old(self).hot().entries().contains_key(key) ==> (r matches Some(e) && e@ == looked_up(
                old(self).hot().entries()[key],
            )),
            !old(self).hot().entries().contains_key(key) && old(self).warm().entries().contains_key(key)
                ==> (r matches Some(e) && e@ == looked_up(old(self).warm().entries()[key])
                && filed(
                old(self).hot().entries(),
                old(self).hot().spec_max_size(),
                key,
                e@.account_ids[0],
                e@.last_access_slot,
                final(self).hot().entries(),
            )),
            !old(self).hot().entries().contains_key(key) && !old(self).warm().entries().contains_key(key)
                ==> (r is Some <==> old(self).cold().entries().contains_key(key)) && (r matches Some(e)
                ==> e@ == looked_up(old(self).cold().entries()[key])),
    {
        match self.l1.get(key) {
            Some(e) => {
                return Some(e);
            },
            None => {},
        }
        match self.l2.get(key) {
            Some(e) => {
                proof {
                    assert(old(self).warm().entries().contains_key(key));
                    assert(e@.account_ids.len() >= 1);
                }
                let first = e.account_ids[0];
                let last = e.last_access_slot;
                self.l1.insert(key, first, last);
                return Some(e);
            },
            None => {},
        }
        self.l3.get(key)
    }

    /// Moves the key's entry from the hot tier to the warm one, with its first
    /// account and last access slot.
    pub fn demote_l1_to_l2(&mut self, key: u64)
        requires
            old(self).wf(),
            can_count(old(self).warm().entries(), key),
        ensures
            final(self).wf(),
            final(self).hot().entries() == old(self).hot().entries().remove(key),
            final(self).cold() == old(self).cold(),
            final(self).spec_slot() == old(self).spec_slot(),
            !old(self).hot().entries().contains_key(key) ==> final(self).warm() == old(self).warm(),
    {
        match self.l1.remove(key) {
            Some(entry) => {
                proof {
                    assert(old(self).hot().entries().contains_key(key));
                }
                let first = entry.account_ids[0];
                self.l2.insert(key, first, entry.last_access_slot);
            },
            None => {},
        }
    }

    /// Copies the key's warm entry to the cold tier (its first account and last
    /// access slot, filed twice), counting a lookup in the warm tier.
    pub fn demote_l2_to_l3(&mut self, key: u64) -> (r: Result<(), std::io::Error>)
        requires
            old(self).wf(),
            can_count(old(self).warm().entries(), key),
            old(self).cold().entries().contains_key(key) ==> old(self).cold().entries()[key].access_count
                < u64::MAX - 1,
        ensures
            final(self).wf(),
            final(self).hot() == old(self).hot(),
            final(self).spec_slot() == old(self).spec_slot(),
            r is Ok,
            !old(self).warm().entries().contains_key(key) ==> final(self).warm().entries() == old(
                self,
            ).warm().entries() && final(self).cold() == old(self).cold(),
            old(self).warm().entries().contains_key(key) ==> ({
                let e = looked_up(old(self).warm().entries()[key]);
                let c0 = old(self).cold().entries();
                let c1 = c0.insert(key, inserted(c0, key, e.account_ids[0], e.last_access_slot));
                &&& final(self).warm().entries() == old(self).warm().entries().insert(key, e)
                &&& final(self).cold().entries() == c1.insert(
                    key,
                    inserted(c1, key, e.account_ids[0], e.last_access_slot),
                )
            }),
            final(self).warm().spec_max_size() == old(self).warm().spec_max_size(),
    {
        match self.l2.get(key) {
            Some(entry) => {
                proof {
                    assert(old(self).warm().entries().contains_key(key));
                }
                let first = entry.account_ids[0];
                let slot = entry.last_access_slot;
                let r = self.l3.insert(key, first, slot);
                match r {
                    Ok(()) => {},
                    Err(e) => {
                        return Err(e);
                    },
                }
                let _ = self.l3.insert(key, first, slot);
            },
            None => {},
        }
        Ok(())
    }

    /// Sets the current slot.
    pub fn update_slot(&mut self, slot: u64)
        ensures
            final(self).spec_slot() == slot,
            final(self).hot() == old(self).hot(),
            final(self).warm() == old(self).warm(),
            final(self).cold() == old(self).cold(),
    {
        self.current_slot = slot;
    }

    /// The number of entries of each tier and their sum.
    pub fn stats(&self) -> (s: TieredDictStats)
        requires
            self.wf(),
            self.hot().entries().len() + self.warm().entries().len() + self.cold().entries().len() <= usize::MAX,
        ensures
            s == (TieredDictStats {
                l1_count: self.hot().entries().len() as usize,
                l2_count: self.warm().entries().len() as usize,
                l3_count: self.cold().entries().len() as usize,
                total_count: (self.hot().entries().len() + self.warm().entries().len()
                    + self.cold().entries().len()) as usize,
            }),
    {
        let a = self.l1.len();
        let b = self.l2.len();
        let c = self.l3.len();
        TieredDictStats { l1_count: a, l2_count: b, l3_count: c, total_count: a + b + c }
    }
}

} // verus!
