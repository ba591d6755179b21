//! The shared core of the secondary indexes: a key (a data size, a discriminator,
//! a mint or an owner) maps to a bitmap of account ids, each account remembers its
//! key, and a dictionary hands out the account ids.
use crate::bitmap::{lemma_dictionary_wf, PubkeyBitmap, PubkeyDictionary};
use crate::collections::{KeyEq, KeyMap};
use crate::pubkey::Pubkey;
use crate::roaring_sets::ascending_prefix;
use vstd::prelude::*;

verus! {

/// A secondary index from keys to bitmaps of account ids.
pub struct KeyedBitmapIndex<K> {
    groups: KeyMap<K, PubkeyBitmap>,
    assigned: KeyMap<Pubkey, K>,
    dict: PubkeyDictionary,
    total_accounts: u64,
}

/// `v` lists every value of `s` in ascending order.
pub open spec fn lists_ascending(s: Set<u64>, v: Seq<u64>) -> bool {
    ascending_prefix(s, v) && v.to_set() == s
}

impl<K: View + Copy> KeyedBitmapIndex<K> {
    /// The account ids under each key.
    pub closed spec fn groups(&self) -> Map<K::V, Set<u64>> {
        self.groups@.map_values(|b: PubkeyBitmap| b@)
    }

    /// The key each account was last added under.
    pub closed spec fn assigned(&self) -> Map<Pubkey, K> {
        self.assigned@
    }

    /// The id of each account.
    pub closed spec fn ids(&self) -> Map<Pubkey, u64> {
        self.dict@
    }

    /// The account of each id.
    pub closed spec fn accounts(&self) -> Map<u64, Pubkey> {
        self.dict.reverse()
    }

    /// Number of accounts that have a key.
    pub closed spec fn total(&self) -> u64 {
        self.total_accounts
    }

    /// The maps are well formed, every bitmap only holds ids handed out, and every
    /// assigned account has an id.
    pub closed spec fn wf(&self) -> bool {
        &&& self.groups.wf()
        &&& self.assigned.wf()
        &&& self.dict.wf()
        &&& forall|k: K::V| #[trigger]
            self.groups@.contains_key(k) ==> self.groups@[k].wf() && self.groups@[k]@.subset_of(
                Set::<u64>::range(0, self.dict@.len() as u64),
            )
        &&& forall|p: Pubkey| #[trigger] self.assigned@.contains_key(p) ==> self.dict@.contains_key(p)
        &&& self.dict@.len() <= u64::MAX
        &&& self.total_accounts == self.assigned@.len()
        &&& forall|k: K::V, i: u64| self.groups@.contains_key(k) && #[trigger] self.groups@[k]@.contains(i)
            ==> self.dict.reverse().contains_key(i) && self.assigned@.contains_key(self.dict.reverse()[i])
            && self.assigned@[self.dict.reverse()[i]]@ == k
        &&& forall|p: Pubkey| #[trigger] self.assigned@.contains_key(p) ==> self.groups@.contains_key(
            self.assigned@[p]@,
        ) && self.groups@[self.assigned@[p]@]@.contains(self.dict@[p])
    }

    /// The total is the number of accounts with a key, and an account's id lies under a
    /// key exactly when that key is the account's.
    pub proof fn lemma_wf_exact(&self)
        requires
            self.wf(),
        ensures
            self.assigned().dom().finite(),
            self.total() == self.assigned().len(),
            forall|p: Pubkey, k: K::V| #[trigger] self.assigned().contains_key(p) && #[trigger] self.groups().contains_key(k)
                ==> (self.groups()[k].contains(self.ids()[p]) <==> self.assigned()[p]@ == k),
            forall|p: Pubkey, k: K::V| !self.assigned().contains_key(p) && #[trigger] self.ids().contains_key(p)
                && #[trigger] self.groups().contains_key(k) ==> !self.groups()[k].contains(self.ids()[p]),
    {
        self.assigned.lemma_len();
        lemma_dictionary_wf(self.dict);
        assert forall|p: Pubkey, k: K::V| #[trigger] self.assigned().contains_key(p) && #[trigger] self.groups().contains_key(k)
            implies (self.groups()[k].contains(self.ids()[p]) <==> self.assigned()[p]@ == k) by {
            if self.groups()[k].contains(self.ids()[p]) {
                assert(self.groups@[k]@.contains(self.dict@[p]));
            }
        }
        assert forall|p: Pubkey, k: K::V| !self.assigned().contains_key(p) && #[trigger] self.ids().contains_key(p)
            && #[trigger] self.groups().contains_key(k) implies !self.groups()[k].contains(self.ids()[p]) by {
            if self.groups()[k].contains(self.ids()[p]) {
                assert(self.groups@[k]@.contains(self.dict@[p]));
            }
        }
    }

    /// An empty index.
    pub fn new() -> (ix: Self)
        ensures
            ix.wf(),
            ix.groups() == Map::<K::V, Set<u64>>::empty(),
            ix.assigned() == Map::<Pubkey, K>::empty(),
            ix.ids() == Map::<Pubkey, u64>::empty(),
            ix.total() == 0,
    {
        let ix = KeyedBitmapIndex {
            groups: KeyMap::new(),
            assigned: KeyMap::new(),
            dict: PubkeyDictionary::new(),
            total_accounts: 0,
        };
        assert(ix.groups@.map_values(|b: PubkeyBitmap| b@) =~= Map::<K::V, Set<u64>>::empty());
        ix
    }

    /// The ids under `key` before an addition, or none.
    pub open spec fn group_or_empty(&self, k: K::V) -> Set<u64> {
        if self.groups().contains_key(k) {
            self.groups()[k]
        } else {
            Set::empty()
        }
    }

    /// The id an account has or would be given next.
    pub open spec fn id_for(&self, account: Pubkey) -> u64 {
        if self.ids().contains_key(account) {
            self.ids()[account]
        } else {
            self.ids().len() as u64
        }
    }
}

/// The groups after filing `id` under `key`, taken out first from `prev`, the key it
/// was under before, if any.
pub open spec fn regroup<KV>(g: Map<KV, Set<u64>>, prev: Option<KV>, key: KV, id: u64) -> Map<KV, Set<u64>> {
    let g1 = match prev {
        Some(k0) => if g.contains_key(k0) {
            g.insert(k0, g[k0].remove(id))
        } else {
            g
        },
        None => g,
    };
    g1.insert(key, (if g1.contains_key(key) {
        g1[key]
    } else {
        Set::empty()
    }).insert(id))
}

proof fn lemma_range_subset_len(s: Set<u64>, n: u64, x: u64)
    requires
        s.subset_of(Set::<u64>::range(0, n)),
        x < n,
        !s.contains(x),
    ensures
        s.finite(),
        s.len() < n,
{
    vstd::set_lib::range_set_properties::<u64>(0, n);
    let r = Set::<u64>::range(0, n);
    assert(s.subset_of(r.remove(x)));
    vstd::set_lib::lemma_len_subset(s, r.remove(x));
}

impl<K: KeyEq + Copy> KeyedBitmapIndex<K> {
    /// Files `account` under `key`: the account gets an id if it has none, the id leaves
    /// the bitmap of the account's earlier key and joins the key's bitmap, the account's
    /// key becomes `key`, and the total grows by one for an account that had no key.
    pub fn add(&mut self, account: Pubkey, key: K)
        requires
            old(self).wf(),
            old(self).total() < u64::MAX || old(self).assigned().contains_key(account),
            old(self).ids().len() < u64::MAX || old(self).ids().contains_key(account),
        ensures
            final(self).wf(),
            final(self).ids() == (if old(self).ids().contains_key(account) {
                old(self).ids()
            } else {
                old(self).ids().insert(account, old(self).ids().len() as u64)
            }),
            final(self).accounts() == (if old(self).ids().contains_key(account) {
                old(self).accounts()
            } else {
                old(self).accounts().insert(old(self).ids().len() as u64, account)
            }),
            final(self).groups() == regroup(
                old(self).groups(),
                (if old(self).assigned().contains_key(account) {
                    Some(old(self).assigned()[account]@)
                } else {
                    None
                }),
                key@,
                old(self).id_for(account),
            ),
            final(self).assigned() == old(self).assigned().insert(account, key),
            final(self).total() == (if old(self).assigned().contains_key(account) {
                old(self).total()
            } else {
                (old(self).total() + 1) as u64
            }),
    {
        proof {
            lemma_dictionary_wf(old(self).dict);
            old(self).assigned.lemma_len();
        }
        let id = self.dict.insert(account);
        proof {
            lemma_dictionary_wf(self.dict);
        }
        let ghost n = self.dict@.len() as u64;
        let ghost g0 = self.groups@;
        let prev: Option<K> = match self.assigned.get(&account) {
            Some(k0) => Some(*k0),
            None => None,
        };
        match prev {
            Some(k0) => {
                match self.groups.remove(&k0) {
                    Some(mut b0) => {
                        b0.remove(id);
                        self.groups.insert(k0, b0);
                    },
                    None => {},
                }
            },
            None => {},
        }
        let ghost g1 = self.groups@;
        proof {
            assert forall|k: K::V| #[trigger] g1.contains_key(k) implies g1[k].wf() && g1[k]@.subset_of(
                Set::<u64>::range(0, n),
            ) && g1[k]@.subset_of(g0[k]@) && g0.contains_key(k) by {
                assert(g0.contains_key(k));
                assert(g0[k]@.subset_of(Set::<u64>::range(0, old(self).dict@.len() as u64)));
            }
        }
        let mut bitmap = match self.groups.remove(&key) {
            Some(b) => b,
            None => PubkeyBitmap::new(),
        };
        proof {
            assert(id < n);
            assert(bitmap@.subset_of(Set::<u64>::range(0, n)));
            if !bitmap@.contains(id) {
                lemma_range_subset_len(bitmap@, n, id);
            }
        }
        bitmap.insert(id);
        self.groups.insert(key, bitmap);
        self.assigned.insert(account, key);
        if prev.is_none() {
            self.total_accounts = self.total_accounts + 1;
        }
        proof {
            self.assigned.lemma_len();
            let og = old(self).groups@.map_values(|b: PubkeyBitmap| b@);
            let pv: Option<K::V> = if old(self).assigned@.contains_key(account) {
                Some(old(self).assigned@[account]@)
            } else {
                None
            };
            let g1v = match pv {
                Some(k0) => if og.contains_key(k0) {
                    og.insert(k0, og[k0].remove(id))
                } else {
                    og
                },
                None => og,
            };
            assert(g1.map_values(|b: PubkeyBitmap| b@) =~= g1v);
            assert(self.groups@.map_values(|b: PubkeyBitmap| b@) =~= regroup(og, pv, key@, id));
            assert forall|k: K::V| #[trigger] self.groups@.contains_key(k) implies self.groups@[
                k
            ].wf() && self.groups@[k]@.subset_of(Set::<u64>::range(0, self.dict@.len() as u64)) by {
                if k != key@ {
                    assert(g1.contains_key(k));
                }
            }
            assert forall|k: K::V, i: u64| self.groups@.contains_key(k) && #[trigger] self.groups@[k]@.contains(i)
                implies self.dict.reverse().contains_key(i) && self.assigned@.contains_key(self.dict.reverse()[i])
                && self.assigned@[self.dict.reverse()[i]]@ == k by {
                if k == key@ && i == id {
                } else {
                    assert(g1.contains_key(k));
                    assert(g1[k]@.contains(i));
                    assert(g0[k]@.contains(i));
                    let q = old(self).dict.reverse()[i];
                    assert(old(self).assigned@.contains_key(q));
                    assert(old(self).dict@[q] == i);
                    if q == account {
                        assert(pv == Some(k));
                        assert(i == id);
                        assert(!g1[k]@.contains(i));
                    }
                }
            }
            assert forall|p: Pubkey| #[trigger] self.assigned@.contains_key(p) implies self.groups@.contains_key(
                self.assigned@[p]@,
            ) && self.groups@[self.assigned@[p]@]@.contains(self.dict@[p]) by {
                if p != account {
                    let kp = old(self).assigned@[p]@;
                    assert(old(self).groups@[kp]@.contains(old(self).dict@[p]));
                    assert(self.dict@[p] != id);
                    if kp != key@ {
                        assert(g1.contains_key(kp));
                        assert(g1[kp]@.contains(self.dict@[p]));
                    } else {
                        assert(g1.contains_key(kp));
                        assert(g1[kp]@.contains(self.dict@[p]));
                    }
                }
            }
        }
    }

    /// Takes `account` out of its key's bitmap and forgets its key; the total drops
    /// by one (not below 0). Nothing changes for an account with no key.
    pub fn remove(&mut self, account: &Pubkey)
        requires
            old(self).wf(),
        ensures
            final(self).wf(),
            final(self).ids() == old(self).ids(),
            final(self).accounts() == old(self).accounts(),
            final(self).assigned() == old(self).assigned().remove(*account),
            old(self).assigned().contains_key(*account) ==> final(self).total() == (if old(
                self,
            ).total() > 0 {
                (old(self).total() - 1) as u64
            } else {
                0
            }) && final(self).groups() == (if old(self).groups().contains_key(
                old(self).assigned()[*account]@,
            ) {
                old(self).groups().insert(
                    old(self).assigned()[*account]@,
                    old(self).groups()[old(self).assigned()[*account]@].remove(
                        old(self).ids()[*account],
                    ),
                )
            } else {
                old(self).groups()
            }),
            !old(self).assigned().contains_key(*account) ==> final(self).total() == old(
                self,
            ).total() && final(self).groups() == old(self).groups(),
    {
        proof {
            old(self).assigned.lemma_len();
            lemma_dictionary_wf(old(self).dict);
        }
        match self.assigned.remove(account) {
            Some(key) => {
                proof {
                    self.assigned.lemma_len();
                    assert(self.assigned@.dom() =~= old(self).assigned@.dom().remove(*account));
                }
                let id = self.dict.get_id(account);
                match self.groups.remove(&key) {
                    Some(mut bitmap) => {
                        match id {
                            Some(id) => {
                                bitmap.remove(id);
                            },
                            None => {},
                        }
                        self.groups.insert(key, bitmap);
                        proof {
                            let n = self.dict@.len() as u64;
                            assert forall|k: K::V| #[trigger]
                                self.groups@.contains_key(k) implies self.groups@[k].wf()
                                && self.groups@[k]@.subset_of(Set::<u64>::range(0, n)) by {
                                if k != key@ {
                                    assert(old(self).groups@.contains_key(k));
                                } else {
                                    assert(old(self).groups@[k]@.subset_of(Set::<u64>::range(0, n)));
                                }
                            }
                            assert(self.groups@.map_values(|b: PubkeyBitmap| b@) =~= old(
                                self,
                            ).groups@.map_values(|b: PubkeyBitmap| b@).insert(
                                key@,
                                old(self).groups@[key@]@.remove(old(self).dict@[*account]),
                            ));
                            let idv = old(self).dict@[*account];
                            assert forall|k: K::V, i: u64| self.groups@.contains_key(k) && #[trigger] self.groups@[k]@.contains(i)
                                implies self.dict.reverse().contains_key(i) && self.assigned@.contains_key(self.dict.reverse()[i])
                                && self.assigned@[self.dict.reverse()[i]]@ == k by {
                                assert(old(self).groups@.contains_key(k));
                                assert(old(self).groups@[k]@.contains(i));
                                let q = old(self).dict.reverse()[i];
                                if q == *account {
                                    assert(i == idv);
                                    assert(k == key@);
                                }
                            }
                            assert forall|p: Pubkey| #[trigger] self.assigned@.contains_key(p) implies self.groups@.contains_key(
                                self.assigned@[p]@,
                            ) && self.groups@[self.assigned@[p]@]@.contains(self.dict@[p]) by {
                                assert(old(self).assigned@.contains_key(p));
                                assert(self.dict@[p] != idv);
                            }
                        }
                    },
                    None => {
                        proof {
                            assert(old(self).groups@.contains_key(key@));
                        }
                    },
                }
                self.total_accounts = self.total_accounts.saturating_sub(1);
            },
            None => {},
        }
    }

    /// The accounts under `key`, in ascending order of their ids; none when the key
    /// has no bitmap.
    pub fn accounts_for(&self, key: &K) -> (r: Option<Vec<Pubkey>>)
        requires
            self.wf(),
            self.ids().len() < usize::MAX,
        ensures
            r is None <==> !self.groups().contains_key(key@),
            r matches Some(v) ==> exists|l: Seq<u64>|
                lists_ascending(self.groups()[key@], l) && v@ == l.map_values(
                    |id: u64| self.accounts()[id],
                ),
            r matches Some(v) ==> forall|a: Pubkey| #[trigger] v@.contains(a) <==> (self.assigned().contains_key(a)
                && self.assigned()[a]@ == key@),
            r is None ==> forall|a: Pubkey| #[trigger] self.assigned().contains_key(a) ==> self.assigned()[a]@ != key@,
    {
        match self.groups.get(key) {
            None => {
                proof {
                    assert forall|a: Pubkey| #[trigger] self.assigned().contains_key(a) implies self.assigned()[a]@
                        != key@ by {
                        assert(self.groups@.contains_key(self.assigned@[a]@));
                    }
                }
                None
            },
            Some(bitmap) => {
                let ghost n = self.dict@.len() as u64;
                proof {
                    lemma_dictionary_wf(self.dict);
                    vstd::set_lib::range_set_properties::<u64>(0, n);
                    vstd::set_lib::lemma_len_subset(bitmap@, Set::<u64>::range(0, n));
                }
                let ids = bitmap.iter();
                let mut out: Vec<Pubkey> = Vec::new();
                let mut i: usize = 0;
                while i < ids.len()
                    invariant
                        self.wf(),
                        i <= ids@.len(),
                        self.groups@.contains_key(key@),
                        self.groups@[key@] == *bitmap,
                        ids@.to_set() == bitmap@,
                        out@ == ids@.take(i as int).map_values(|id: u64| self.dict.reverse()[id]),
                    decreases ids@.len() - i,
                {
                    let id = ids[i];
                    proof {
                        lemma_dictionary_wf(self.dict);
                        assert(ids@.to_set().contains(ids@[i as int]));
                        assert(Set::<u64>::range(0, self.dict@.len() as u64).contains(id));
                    }
                    match self.dict.get_pubkey(id) {
                        Some(pk) => {
                            out.push(pk);
                        },
                        None => {},
                    }
                    proof {
                        assert(ids@.take(i + 1) =~= ids@.take(i as int).push(id));
                        assert(out@ =~= ids@.take(i + 1).map_values(
                            |id: u64| self.dict.reverse()[id],
                        ));
                    }
                    i = i + 1;
                }
                proof {
                    assert(ids@.take(i as int) =~= ids@);
                    assert(lists_ascending(self.groups()[key@], ids@));
                    lemma_dictionary_wf(self.dict);
                    assert forall|a: Pubkey| #[trigger] out@.contains(a) <==> (self.assigned().contains_key(a)
                        && self.assigned()[a]@ == key@) by {
                        if out@.contains(a) {
                            let t = choose|t: int| 0 <= t < out@.len() && out@[t] == a;
                            assert(ids@.to_set().contains(ids@[t]));
                            assert(self.groups@[key@]@.contains(ids@[t]));
                        }
                        if self.assigned().contains_key(a) && self.assigned()[a]@ == key@ {
                            assert(self.groups@[key@]@.contains(self.dict@[a]));
                            assert(ids@.to_set().contains(self.dict@[a]));
                            let t = choose|t: int| 0 <= t < ids@.len() && ids@[t] == self.dict@[a];
                            assert(out@[t] == self.dict.reverse()[self.dict@[a]]);
                            assert(out@.contains(a));
                        }
                    }
                }
                Some(out)
            },
        }
    }

    /// The key an account was last added under, if it has one.
    pub fn key_of(&self, account: &Pubkey) -> (r: Option<K>)
        requires
            self.wf(),
        ensures
            r == (if self.assigned().contains_key(*account) {
                Some(self.assigned()[*account])
            } else {
                None::<K>
            }),
    {
        match self.assigned.get(account) {
            Some(k) => Some(*k),
            None => None,
        }
    }

    /// Every key that has a bitmap, each once.
    pub fn keys(&self) -> (v: Vec<K>)
        requires
            self.wf(),
        ensures
            v@.len() == self.groups().len(),
            forall|i: int| 0 <= i < v@.len() ==> self.groups().contains_key((#[trigger] v@[i])@),
            forall|k: K::V| #[trigger]
                self.groups().contains_key(k) ==> exists|i: int| 0 <= i < v@.len() && v@[i]@ == k,
            forall|i: int, j: int| 0 <= i < j < v@.len() ==> (#[trigger] v@[i])@ != (#[trigger] v@[j])@,
    {
        let n = self.groups.len();
        let mut v: Vec<K> = Vec::new();
        let mut i: usize = 0;
        while i < n
            invariant
                self.wf(),
                n == self.groups.pairs().len(),
                i <= n,
                v@.len() == i,
                forall|j: int| 0 <= j < i ==> #[trigger] v@[j] == self.groups.pairs()[j].0,
            decreases n - i,
        {
            let p = self.groups.pair_at(i);
            v.push(p.0);
            i = i + 1;
        }
        proof {
            self.groups.lemma_len();
            self.groups.lemma_distinct();
            assert(self.groups().dom() =~= self.groups@.dom());
            assert forall|i: int| 0 <= i < v@.len() implies self.groups().contains_key(
                (#[trigger] v@[i])@,
            ) by {
                self.groups.lemma_pair_in_map(i);
            }
            assert forall|k: K::V| #[trigger]
                self.groups().contains_key(k) implies exists|i: int| 0 <= i < v@.len() && v@[i]@
                == k by {
                let j = self.groups.lemma_key_in_pairs(k);
                assert(v@[j]@ == k);
            }
        }
        v
    }

    /// Number of keys with a bitmap.
    pub fn key_count(&self) -> (n: usize)
        requires
            self.wf(),
        ensures
            n == self.groups().len(),
    {
        proof {
            assert(self.groups().dom() =~= self.groups@.dom());
        }
        self.groups.len()
    }

    /// The running total.
    pub fn total_accounts(&self) -> (n: u64)
        ensures
            n == self.total(),
    {
        self.total_accounts
    }
}

/// A list of every value of a set, in ascending order, is as long as the set is large.
pub proof fn lemma_lists_ascending_len(s: Set<u64>, v: Seq<u64>)
    requires
        lists_ascending(s, v),
    ensures
        v.len() == s.len(),
{
    assert forall|i: int, j: int| 0 <= i < v.len() && 0 <= j < v.len() && i != j implies v[i] != v[j] by {
        if i < j {
            assert(v[i] < v[j]);
        } else {
            assert(v[j] < v[i]);
        }
    }
    v.unique_seq_to_set();
}

} // verus!
