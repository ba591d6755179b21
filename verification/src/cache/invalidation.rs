//! Tracks which materialized queries depend on which accounts, so that a change
//! to an account drops every cached result that read it.
use crate::bitmap::PubkeyBitmap;
use crate::clock::instant_now;
use crate::collections::KeyMap;
use crate::pubkey::Pubkey;
use std::sync::Arc;
use std::time::Instant;
use vstd::prelude::*;

verus! {

/// A cached result of a materialized query.
pub struct MaterializedQueryResult {
    /// Encoded response.
    pub response: Arc<Vec<u8>>,
    /// Slot at which it was materialized.
    pub materialized_slot: u64,
    /// Ids of the accounts the result read.
    pub affected_bitmap: PubkeyBitmap,
    /// When it was materialized.
    pub materialized_at: Instant,
}

impl Clone for MaterializedQueryResult {
    fn clone(&self) -> (r: Self)
        ensures
            r.response == self.response,
            r.materialized_slot == self.materialized_slot,
            r.affected_bitmap@ == self.affected_bitmap@,
            r.materialized_at == self.materialized_at,
    {
        MaterializedQueryResult {
            response: self.response.clone(),
            materialized_slot: self.materialized_slot,
            affected_bitmap: self.affected_bitmap.clone(),
            materialized_at: self.materialized_at,
        }
    }
}

impl MaterializedQueryResult {
    /// A result materialized now at `slot`.
    pub fn new(response: Vec<u8>, slot: u64, affected_bitmap: PubkeyBitmap) -> (r: Self)
        ensures
            r.response@ == response@,
            r.materialized_slot == slot,
            r.affected_bitmap == affected_bitmap,
    {
        MaterializedQueryResult {
            response: Arc::new(response),
            materialized_slot: slot,
            affected_bitmap,
            materialized_at: instant_now(),
        }
    }

    /// Whether more than 100 slots have passed since materialization.
    pub fn is_stale(&self, current_slot: u64) -> (r: bool)
        requires
            self.materialized_slot + 100 <= u64::MAX,
        ensures
            r == (current_slot > self.materialized_slot + 100),
    {
        current_slot > self.materialized_slot + 100
    }

    /// Slots passed since materialization.
    pub fn age_slots(&self, current_slot: u64) -> (n: u64)
        requires
            current_slot >= self.materialized_slot,
        ensures
            n == current_slot - self.materialized_slot,
    {
        current_slot - self.materialized_slot
    }
}

/// When invalidations are applied.
#[derive(Debug, Clone, Copy, PartialEq, Eq, Structural)]
pub enum InvalidationStrategy {
    /// On every update.
    Immediate,
    /// Accumulated, then applied together.
    Batch { max_batch_size: usize, max_delay_ms: u64 },
    /// On the next read.
    Lazy,
}

impl Default for InvalidationStrategy {
    fn default() -> (s: Self)
        ensures
            s == InvalidationStrategy::Immediate,
    {
        InvalidationStrategy::Immediate
    }
}

/// Links between materialized queries and the accounts they read, and the cached results.
pub struct InvalidationTracker {
    query_pubkeys: KeyMap<[u8; 32], KeyMap<Pubkey, ()>>,
    pubkey_queries: KeyMap<Pubkey, KeyMap<[u8; 32], ()>>,
    materialized_cache: KeyMap<[u8; 32], MaterializedQueryResult>,
}

/// The links after query `q` is registered for the accounts `s`.
pub open spec fn link_all(
    pq: Map<Pubkey, Set<Seq<u8>>>,
    q: Seq<u8>,
    s: Set<Pubkey>,
) -> Map<Pubkey, Set<Seq<u8>>> {
    Map::new(
        |p: Pubkey| pq.contains_key(p) || s.contains(p),
        |p: Pubkey|
            if s.contains(p) {
                (if pq.contains_key(p) {
                    pq[p]
                } else {
                    Set::empty()
                }).insert(q)
            } else {
                pq[p]
            },
    )
}

/// The queries linked to some account of `ps`.
pub open spec fn affected(pq: Map<Pubkey, Set<Seq<u8>>>, ps: Set<Pubkey>) -> Set<Seq<u8>> {
    Set::new(|q: Seq<u8>| exists|p: Pubkey| #[trigger] ps.contains(p) && pq.contains_key(p) && pq[p].contains(q))
}

/// Of the queries `a`, those registered with account `p`.
pub open spec fn cleared(qp: Map<Seq<u8>, Set<Pubkey>>, a: Set<Seq<u8>>, p: Pubkey) -> Set<Seq<u8>> {
    a.filter(|q: Seq<u8>| qp.contains_key(q) && qp[q].contains(p))
}

/// Each account's links less the queries `c` gives for it; accounts left with none drop out.
pub open spec fn strip_with(
    pq: Map<Pubkey, Set<Seq<u8>>>,
    c: spec_fn(Pubkey) -> Set<Seq<u8>>,
) -> Map<Pubkey, Set<Seq<u8>>> {
    Map::new(
        |p: Pubkey| pq.contains_key(p) && pq[p].difference(c(p)) != Set::<Seq<u8>>::empty(),
        |p: Pubkey| pq[p].difference(c(p)),
    )
}

/// The links after the queries `a` are dropped: each dropped query is unlinked
/// from the accounts it was registered with.
pub open spec fn unlink(
    qp: Map<Seq<u8>, Set<Pubkey>>,
    pq: Map<Pubkey, Set<Seq<u8>>>,
    a: Set<Seq<u8>>,
) -> Map<Pubkey, Set<Seq<u8>>> {
    strip_with(pq, |p: Pubkey| cleared(qp, a, p))
}

/// `c` for the queries already dropped, plus `q` for the accounts `extra`.
pub open spec fn cleared_plus(
    qp: Map<Seq<u8>, Set<Pubkey>>,
    done: Set<Seq<u8>>,
    q: Seq<u8>,
    extra: Set<Pubkey>,
) -> spec_fn(Pubkey) -> Set<Seq<u8>> {
    |p: Pubkey|
        cleared(qp, done, p).union(
            if extra.contains(p) {
                Set::empty().insert(q)
            } else {
                Set::empty()
            },
        )
}

proof fn lemma_strip_ext(
    pq: Map<Pubkey, Set<Seq<u8>>>,
    c1: spec_fn(Pubkey) -> Set<Seq<u8>>,
    c2: spec_fn(Pubkey) -> Set<Seq<u8>>,
)
    requires
        forall|p: Pubkey| #[trigger] c1(p) == c2(p),
    ensures
        strip_with(pq, c1) == strip_with(pq, c2),
{
    assert(strip_with(pq, c1) =~= strip_with(pq, c2));
}

proof fn lemma_strip_step(
    pq: Map<Pubkey, Set<Seq<u8>>>,
    c_j: spec_fn(Pubkey) -> Set<Seq<u8>>,
    c_n: spec_fn(Pubkey) -> Set<Seq<u8>>,
    p: Pubkey,
)
    requires
        forall|x: Pubkey| x != p ==> #[trigger] c_n(x) == c_j(x),
    ensures
        strip_with(pq, c_n) == (if pq.contains_key(p) && pq[p].difference(c_n(p)) != Set::<
            Seq<u8>,
        >::empty() {
            strip_with(pq, c_j).insert(p, pq[p].difference(c_n(p)))
        } else {
            strip_with(pq, c_j).remove(p)
        }),
{
    let lhs = strip_with(pq, c_n);
    let rhs = if pq.contains_key(p) && pq[p].difference(c_n(p)) != Set::<Seq<u8>>::empty() {
        strip_with(pq, c_j).insert(p, pq[p].difference(c_n(p)))
    } else {
        strip_with(pq, c_j).remove(p)
    };
    assert forall|x: Pubkey| #[trigger] lhs.contains_key(x) <==> rhs.contains_key(x) by {
        if x != p {
            assert(c_n(x) == c_j(x));
        }
    }
    assert forall|x: Pubkey| #[trigger] lhs.contains_key(x) implies lhs[x] == rhs[x] by {
        if x != p {
            assert(c_n(x) == c_j(x));
        }
    }
    assert(lhs =~= rhs);
}

/// The view set of a sequence of query hashes.
pub open spec fn hash_set(s: Seq<[u8; 32]>) -> Set<Seq<u8>> {
    s.map_values(|q: [u8; 32]| q@).to_set()
}

impl InvalidationTracker {
    /// The accounts each query was registered with.
    pub closed spec fn queries(&self) -> Map<Seq<u8>, Set<Pubkey>> {
        self.query_pubkeys@.map_values(|m: KeyMap<Pubkey, ()>| m@.dom())
    }

    /// The queries each account is linked to.
    pub closed spec fn links(&self) -> Map<Pubkey, Set<Seq<u8>>> {
        self.pubkey_queries@.map_values(|m: KeyMap<[u8; 32], ()>| m@.dom())
    }

    /// The cached results.
    pub closed spec fn materialized(&self) -> Map<Seq<u8>, MaterializedQueryResult> {
        self.materialized_cache@
    }

    /// The maps are well formed, and every linked account has at least one query.
    pub closed spec fn wf(&self) -> bool {
        &&& self.query_pubkeys.wf()
        &&& self.pubkey_queries.wf()
        &&& self.materialized_cache.wf()
        &&& forall|q: Seq<u8>| #[trigger]
            self.query_pubkeys@.contains_key(q) ==> self.query_pubkeys@[q].wf()
        &&& forall|p: Pubkey| #[trigger]
            self.pubkey_queries@.contains_key(p) ==> self.pubkey_queries@[p].wf()
                && self.pubkey_queries@[p]@.dom() != Set::<Seq<u8>>::empty()
    }

    /// A tracker with nothing registered.
    pub fn new() -> (t: Self)
        ensures
            t.wf(),
            t.queries() == Map::<Seq<u8>, Set<Pubkey>>::empty(),
            t.links() == Map::<Pubkey, Set<Seq<u8>>>::empty(),
            t.materialized() == Map::<Seq<u8>, MaterializedQueryResult>::empty(),
    {
        let t = InvalidationTracker {
            query_pubkeys: KeyMap::new(),
            pubkey_queries: KeyMap::new(),
            materialized_cache: KeyMap::new(),
        };
        assert(t.queries() =~= Map::<Seq<u8>, Set<Pubkey>>::empty());
        assert(t.links() =~= Map::<Pubkey, Set<Seq<u8>>>::empty());
        t
    }

    /// Registers a materialized query with the accounts it reads: the query's
    /// accounts become `affected_pubkeys`, and each of them is linked to the query.
    pub fn register_query(&mut self, query_hash: [u8; 32], affected_pubkeys: &[Pubkey])
        requires
            old(self).wf(),
        ensures
            final(self).wf(),
            final(self).queries() == old(self).queries().insert(
                query_hash@,
                affected_pubkeys@.to_set(),
            ),
            final(self).links() == link_all(
                old(self).links(),
                query_hash@,
                affected_pubkeys@.to_set(),
            ),
            final(self).materialized() == old(self).materialized(),
            links_consistent(old(self).queries(), old(self).links()) && !old(self).queries().contains_key(query_hash@)
                ==> links_consistent(final(self).queries(), final(self).links()),
    {
        let mut set: KeyMap<Pubkey, ()> = KeyMap::new();
        let mut i: usize = 0;
        while i < affected_pubkeys.len()
            invariant
                i <= affected_pubkeys@.len(),
                set.wf(),
                set@.dom() == affected_pubkeys@.take(i as int).to_set(),
            decreases affected_pubkeys@.len() - i,
        {
            set.insert(affected_pubkeys[i], ());
            proof {
                assert(affected_pubkeys@.take(i + 1) =~= affected_pubkeys@.take(i as int).push(
                    affected_pubkeys@[i as int],
                ));
                affected_pubkeys@.take(i as int).lemma_push_to_set_commute(affected_pubkeys@[i as int]);
                assert(set@.dom() =~= affected_pubkeys@.take(i + 1).to_set());
            }
            i = i + 1;
        }
        proof {
            assert(affected_pubkeys@.take(i as int) =~= affected_pubkeys@);
        }
        self.query_pubkeys.insert(query_hash, set);
        proof {
            assert(self.queries() =~= old(self).queries().insert(
                query_hash@,
                affected_pubkeys@.to_set(),
            ));
            assert(link_all(old(self).links(), query_hash@, affected_pubkeys@.take(0).to_set())
                =~= old(self).links());
        }
        let mut i: usize = 0;
        while i < affected_pubkeys.len()
            invariant
                i <= affected_pubkeys@.len(),
                self.wf(),
                self.queries() == old(self).queries().insert(query_hash@, affected_pubkeys@.to_set()),
                self.materialized() == old(self).materialized(),
                self.links() == link_all(
                    old(self).links(),
                    query_hash@,
                    affected_pubkeys@.take(i as int).to_set(),
                ),
            decreases affected_pubkeys@.len() - i,
        {
            let p = affected_pubkeys[i];
            let ghost before = self.links();
            let ghost raw_before = self.pubkey_queries@;
            let mut inner = match self.pubkey_queries.remove(&p) {
                Some(m) => m,
                None => KeyMap::new(),
            };
            let ghost inner_before = inner@.dom();
            proof {
                if before.contains_key(p) {
                    assert(inner_before == before[p]);
                } else {
                    assert(inner_before =~= Set::<Seq<u8>>::empty());
                }
            }
            inner.insert(query_hash, ());
            let ghost inner_after = inner@.dom();
            self.pubkey_queries.insert(p, inner);
            proof {
                assert(self.pubkey_queries@ =~= raw_before.insert(p, self.pubkey_queries@[p]));
                assert(inner_after.contains(query_hash@));
                assert forall|k: Pubkey| #[trigger]
                    self.pubkey_queries@.contains_key(k) implies self.pubkey_queries@[k].wf()
                    && self.pubkey_queries@[k]@.dom() != Set::<Seq<u8>>::empty() by {
                    if k == p {
                        assert(self.pubkey_queries@[k]@.dom().contains(query_hash@));
                    } else {
                        assert(raw_before.contains_key(k));
                    }
                }
                let s0 = affected_pubkeys@.take(i as int).to_set();
                assert(affected_pubkeys@.take(i + 1) =~= affected_pubkeys@.take(i as int).push(p));
                affected_pubkeys@.take(i as int).lemma_push_to_set_commute(p);
                assert(self.links() =~= before.insert(
                    p,
                    (if before.contains_key(p) {
                        before[p]
                    } else {
                        Set::empty()
                    }).insert(query_hash@),
                ));
                let target = link_all(
                    old(self).links(),
                    query_hash@,
                    affected_pubkeys@.take(i + 1).to_set(),
                );
                assert(self.links()[p] =~= target[p]);
                assert(self.links() =~~= target);
            }
            i = i + 1;
        }
        proof {
            assert(affected_pubkeys@.take(i as int) =~= affected_pubkeys@);
            if links_consistent(old(self).queries(), old(self).links()) && !old(self).queries().contains_key(query_hash@) {
                lemma_register_keeps_consistency(
                    old(self).queries(),
                    old(self).links(),
                    query_hash@,
                    affected_pubkeys@.to_set(),
                );
            }
        }
    }

    /// The queries linked to the account, each once.
    pub fn get_affected_queries(&self, pubkey: Pubkey) -> (v: Vec<[u8; 32]>)
        requires
            self.wf(),
        ensures
            v@.map_values(|q: [u8; 32]| q@).no_duplicates(),
            hash_set(v@) == (if self.links().contains_key(pubkey) {
                self.links()[pubkey]
            } else {
                Set::<Seq<u8>>::empty()
            }),
    {
        match self.pubkey_queries.get(&pubkey) {
            Some(inner) => inner.keys(),
            None => {
                let v: Vec<[u8; 32]> = Vec::new();
                assert(hash_set(v@) =~= Set::<Seq<u8>>::empty());
                v
            },
        }
    }

    /// The queries linked to some of the accounts, as a set.
    fn affected_set(&self, pubkeys: &[Pubkey]) -> (acc: KeyMap<[u8; 32], ()>)
        requires
            self.wf(),
        ensures
            acc.wf(),
            acc@.dom() == affected(self.links(), pubkeys@.to_set()),
    {
        let mut acc: KeyMap<[u8; 32], ()> = KeyMap::new();
        proof {
            assert(affected(self.links(), pubkeys@.take(0).to_set()) =~= Set::<Seq<u8>>::empty());
        }
        let mut i: usize = 0;
        while i < pubkeys.len()
            invariant
                self.wf(),
                i <= pubkeys@.len(),
                acc.wf(),
                acc@.dom() == affected(self.links(), pubkeys@.take(i as int).to_set()),
            decreases pubkeys@.len() - i,
        {
            let p = pubkeys[i];
            let ghost a0 = acc@.dom();
            let ghost lp = if self.links().contains_key(p) {
                self.links()[p]
            } else {
                Set::<Seq<u8>>::empty()
            };
            match self.pubkey_queries.get(&p) {
                Some(inner) => {
                    let ks = inner.keys();
                    let mut j: usize = 0;
                    while j < ks.len()
                        invariant
                            j <= ks@.len(),
                            acc.wf(),
                            acc@.dom() == a0.union(hash_set(ks@.take(j as int))),
                        decreases ks@.len() - j,
                    {
                        acc.insert(ks[j], ());
                        proof {
                            assert(ks@.take(j + 1) =~= ks@.take(j as int).push(ks@[j as int]));
                            assert(ks@.take(j + 1).map_values(|q: [u8; 32]| q@) =~= ks@.take(
                                j as int,
                            ).map_values(|q: [u8; 32]| q@).push(ks@[j as int]@));
                            ks@.take(j as int).map_values(|q: [u8; 32]| q@).lemma_push_to_set_commute(
                                ks@[j as int]@,
                            );
                            assert(acc@.dom() =~= a0.union(hash_set(ks@.take(j + 1))));
                        }
                        j = j + 1;
                    }
                    proof {
                        assert(ks@.take(j as int) =~= ks@);
                        assert(acc@.dom() =~= a0.union(lp));
                    }
                },
                None => {
                    assert(acc@.dom() =~= a0.union(lp));
                },
            }
            proof {
                let s0 = pubkeys@.take(i as int).to_set();
                assert(pubkeys@.take(i + 1) =~= pubkeys@.take(i as int).push(p));
                pubkeys@.take(i as int).lemma_push_to_set_commute(p);
                let l = self.links();
                assert forall|q: Seq<u8>|
                    affected(l, s0.insert(p)).contains(q) <==> a0.union(lp).contains(q) by {
                    if affected(l, s0.insert(p)).contains(q) {
                        let w = choose|w: Pubkey| #[trigger] s0.insert(p).contains(w) && l.contains_key(w) && l[w].contains(q);
                        if w != p {
                            assert(s0.contains(w));
                            assert(affected(l, s0).contains(q));
                        }
                    }
                    if a0.contains(q) {
                        let w = choose|w: Pubkey| #[trigger] s0.contains(w) && l.contains_key(w) && l[w].contains(q);
                        assert(s0.insert(p).contains(w));
                    }
                    if lp.contains(q) {
                        assert(s0.insert(p).contains(p));
                    }
                }
                assert(acc@.dom() =~= affected(l, pubkeys@.take(i + 1).to_set()));
            }
            i = i + 1;
        }
        proof {
            assert(pubkeys@.take(i as int) =~= pubkeys@);
        }
        acc
    }

    /// The queries linked to some of the accounts, each once.
    pub fn get_affected_queries_batch(&self, pubkeys: &[Pubkey]) -> (v: Vec<[u8; 32]>)
        requires
            self.wf(),
        ensures
            v@.map_values(|q: [u8; 32]| q@).no_duplicates(),
            hash_set(v@) == affected(self.links(), pubkeys@.to_set()),
    {
        let acc = self.affected_set(pubkeys);
        acc.keys()
    }

    /// Drops every query linked to one of the accounts: its cached result, its
    /// registration, and its links from the accounts it was registered with (an
    /// account left with no link is forgotten). Returns how many queries were dropped.
    pub fn invalidate_for_pubkeys(&mut self, pubkeys: &[Pubkey]) -> (n: usize)
        requires
            old(self).wf(),
        ensures
            final(self).wf(),
            n == affected(old(self).links(), pubkeys@.to_set()).len(),
            final(self).materialized() == old(self).materialized().remove_keys(
                affected(old(self).links(), pubkeys@.to_set()),
            ),
            final(self).queries() == old(self).queries().remove_keys(
                affected(old(self).links(), pubkeys@.to_set()),
            ),
            final(self).links() == unlink(
                old(self).queries(),
                old(self).links(),
                affected(old(self).links(), pubkeys@.to_set()),
            ),
            links_consistent(old(self).queries(), old(self).links()) ==> {
                &&& links_consistent(final(self).queries(), final(self).links())
                &&& forall|p: Pubkey, q: Seq<u8>| final(self).links().contains_key(p) && affected(
                    old(self).links(),
                    pubkeys@.to_set(),
                ).contains(q) ==> !(#[trigger] final(self).links()[p].contains(q))
            },
    {
        let acc = self.affected_set(pubkeys);
        let qs = acc.keys();
        let ghost qp0 = self.queries();
        let ghost pq0 = self.links();
        let ghost raw_qp0 = self.query_pubkeys@;
        let ghost raw_mc0 = self.materialized_cache@;
        proof {
            assert(hash_set(qs@.take(0)) =~= Set::<Seq<u8>>::empty());
            assert(raw_qp0.remove_keys(Set::<Seq<u8>>::empty()) =~= raw_qp0);
            assert(raw_mc0.remove_keys(Set::<Seq<u8>>::empty()) =~= raw_mc0);
            assert forall|p: Pubkey| pq0.contains_key(p) implies pq0[p].difference(
                cleared(qp0, Set::<Seq<u8>>::empty(), p),
            ) =~= pq0[p] by {}
            assert(unlink(qp0, pq0, Set::<Seq<u8>>::empty()) =~~= pq0);
        }
        let mut k: usize = 0;
        while k < qs.len()
            invariant
                self.wf(),
                k <= qs@.len(),
                qs@.map_values(|q: [u8; 32]| q@).no_duplicates(),
                self.query_pubkeys@ == raw_qp0.remove_keys(hash_set(qs@.take(k as int))),
                self.materialized_cache@ == raw_mc0.remove_keys(hash_set(qs@.take(k as int))),
                qp0 == raw_qp0.map_values(|m: KeyMap<Pubkey, ()>| m@.dom()),
                self.links() == unlink(qp0, pq0, hash_set(qs@.take(k as int))),
            decreases qs@.len() - k,
        {
            let q = qs[k];
            let ghost done = hash_set(qs@.take(k as int));
            proof {
                let hv = qs@.map_values(|q: [u8; 32]| q@);
                if done.contains(q@) {
                    let t = qs@.take(k as int).map_values(|q: [u8; 32]| q@);
                    let w = choose|w: int| 0 <= w < t.len() && t[w] == q@;
                    assert(hv[w] == hv[k as int]);
                }
            }
            self.materialized_cache.remove(&q);
            let removed = self.query_pubkeys.remove(&q);
            let ghost links_k = self.links();
            match removed {
                Some(set) => {
                    let ps = set.keys();
                    proof {
                        assert(qp0.contains_key(q@));
                        assert(set@.dom() == qp0[q@]);
                        assert(ps@.map_values(|k: Pubkey| k@) =~= ps@);
                        let c0 = cleared_plus(qp0, done, q@, ps@.take(0).to_set());
                        assert forall|p: Pubkey| #[trigger] cleared(qp0, done, p) == c0(p) by {
                            assert(cleared(qp0, done, p) =~= c0(p));
                        }
                        lemma_strip_ext(
                            pq0,
                            |p: Pubkey| cleared(qp0, done, p),
                            cleared_plus(qp0, done, q@, ps@.take(0).to_set()),
                        );
                    }
                    let mut j: usize = 0;
                    while j < ps.len()
                        invariant
                            self.wf(),
                            j <= ps@.len(),
                            self.query_pubkeys@ == raw_qp0.remove_keys(done.insert(q@)),
                            self.materialized_cache@ == raw_mc0.remove_keys(done.insert(q@)),
                            self.links() == strip_with(
                                pq0,
                                cleared_plus(qp0, done, q@, ps@.take(j as int).to_set()),
                            ),
                        decreases ps@.len() - j,
                    {
                        let p = ps[j];
                        let ghost c_j = cleared_plus(qp0, done, q@, ps@.take(j as int).to_set());
                        let ghost c_n = cleared_plus(qp0, done, q@, ps@.take(j + 1).to_set());
                        let ghost before = self.links();
                        let ghost raw_before = self.pubkey_queries@;
                        proof {
                            assert(ps@.take(j + 1) =~= ps@.take(j as int).push(p));
                            ps@.take(j as int).lemma_push_to_set_commute(p);
                            assert(c_n(p) =~= c_j(p).insert(q@));
                            assert forall|x: Pubkey| x != p implies #[trigger] c_n(x) == c_j(x) by {
                                assert(c_n(x) =~= c_j(x));
                            }
                        }
                        match self.pubkey_queries.remove(&p) {
                            Some(mut inner) => {
                                proof {
                                    assert(raw_before.contains_key(p));
                                    assert(inner == raw_before[p]);
                                    assert(before[p] == raw_before[p]@.dom());
                                    assert(before.contains_key(p));
                                    assert(inner@.dom() == pq0[p].difference(c_j(p)));
                                }
                                inner.remove(&q);
                                proof {
                                    assert(inner@.dom() =~= pq0[p].difference(c_n(p)));
                                }
                                if !inner.is_empty() {
                                    self.pubkey_queries.insert(p, inner);
                                    proof {
                                        assert(self.pubkey_queries@ =~= raw_before.insert(
                                            p,
                                            self.pubkey_queries@[p],
                                        ));
                                        lemma_strip_step(pq0, c_j, c_n, p);
                                        assert(self.links() =~= before.insert(p, inner@.dom()));
                                    }
                                } else {
                                    proof {
                                        assert(self.pubkey_queries@ =~= raw_before.remove(p));
                                        assert(inner@.dom() =~= Set::<Seq<u8>>::empty());
                                        lemma_strip_step(pq0, c_j, c_n, p);
                                        assert(self.links() =~= before.remove(p));
                                    }
                                }
                            },
                            None => {
                                proof {
                                    assert(!before.contains_key(p));
                                    if pq0.contains_key(p) {
                                        assert(pq0[p].difference(c_j(p)) =~= Set::<Seq<u8>>::empty());
                                        assert(pq0[p].difference(c_n(p)) =~= Set::<Seq<u8>>::empty());
                                    }
                                    lemma_strip_step(pq0, c_j, c_n, p);
                                    assert(before.remove(p) =~= before);
                                }
                            },
                        }
                        j = j + 1;
                    }
                    proof {
                        assert(ps@.take(j as int) =~= ps@);
                        assert(ps@.to_set() =~= qp0[q@]);
                        let c_end = cleared_plus(qp0, done, q@, ps@.take(j as int).to_set());
                        assert forall|p: Pubkey| #[trigger] c_end(p) == cleared(qp0, done.insert(q@), p) by {
                            assert(c_end(p) =~= cleared(qp0, done.insert(q@), p));
                        }
                        lemma_strip_ext(pq0, c_end, |p: Pubkey| cleared(qp0, done.insert(q@), p));
                    }
                },
                None => {
                    proof {
                        assert(!qp0.contains_key(q@));
                        assert forall|p: Pubkey| #[trigger] cleared(qp0, done, p) == cleared(qp0, done.insert(q@), p) by {
                            assert(cleared(qp0, done, p) =~= cleared(qp0, done.insert(q@), p));
                        }
                        lemma_strip_ext(
                            pq0,
                            |p: Pubkey| cleared(qp0, done, p),
                            |p: Pubkey| cleared(qp0, done.insert(q@), p),
                        );
                        assert(raw_qp0.remove_keys(done.insert(q@)) =~= self.query_pubkeys@);
                    }
                },
            }
            proof {
                assert(qs@.take(k + 1) =~= qs@.take(k as int).push(q));
                assert(qs@.take(k + 1).map_values(|q: [u8; 32]| q@) =~= qs@.take(k as int).map_values(
                    |q: [u8; 32]| q@,
                ).push(q@));
                qs@.take(k as int).map_values(|q: [u8; 32]| q@).lemma_push_to_set_commute(q@);
                assert(hash_set(qs@.take(k + 1)) =~= done.insert(q@));
                assert(self.query_pubkeys@ =~= raw_qp0.remove_keys(done.insert(q@)));
                assert(self.materialized_cache@ =~= raw_mc0.remove_keys(done.insert(q@)));
            }
            k = k + 1;
        }
        proof {
            assert(qs@.take(k as int) =~= qs@);
            assert(self.queries() =~= qp0.remove_keys(hash_set(qs@)));
            if links_consistent(old(self).queries(), old(self).links()) {
                lemma_invalidation_keeps_consistency(old(self).queries(), old(self).links(), pubkeys@.to_set());
                lemma_no_link_to_removed_query(old(self).queries(), old(self).links(), pubkeys@.to_set());
            }
        }
        qs.len()
    }

    /// Caches a materialized result under its query hash.
    pub fn cache_materialized_result(&mut self, query_hash: [u8; 32], result: MaterializedQueryResult)
        requires
            old(self).wf(),
        ensures
            final(self).wf(),
            final(self).materialized() == old(self).materialized().insert(query_hash@, result),
            final(self).queries() == old(self).queries(),
            final(self).links() == old(self).links(),
    {
        self.materialized_cache.insert(query_hash, result);
    }

    /// A copy of the cached result of the query, if any.
    pub fn get_materialized_result(&self, query_hash: [u8; 32]) -> (r: Option<MaterializedQueryResult>)
        requires
            self.wf(),
        ensures
            r is Some <==> self.materialized().contains_key(query_hash@),
            r matches Some(m) ==> m.response == self.materialized()[query_hash@].response
                && m.materialized_slot == self.materialized()[query_hash@].materialized_slot
                && m.affected_bitmap@ == self.materialized()[query_hash@].affected_bitmap@
                && m.materialized_at == self.materialized()[query_hash@].materialized_at,
    {
        match self.materialized_cache.get(&query_hash) {
            Some(m) => Some(m.clone()),
            None => None,
        }
    }

    /// Number of registered queries.
    pub fn query_count(&self) -> (n: usize)
        requires
            self.wf(),
        ensures
            n == self.queries().len(),
    {
        proof {
            assert(self.queries().dom() =~= self.query_pubkeys@.dom());
        }
        self.query_pubkeys.len()
    }

    /// Number of cached results.
    pub fn materialized_count(&self) -> (n: usize)
        requires
            self.wf(),
        ensures
            n == self.materialized().len(),
    {
        self.materialized_cache.len()
    }

    /// Forgets every registration, link and cached result.
    pub fn clear(&mut self)
        ensures
            final(self).wf(),
            final(self).queries() == Map::<Seq<u8>, Set<Pubkey>>::empty(),
            final(self).links() == Map::<Pubkey, Set<Seq<u8>>>::empty(),
            final(self).materialized() == Map::<Seq<u8>, MaterializedQueryResult>::empty(),
    {
        self.query_pubkeys.clear();
        self.pubkey_queries.clear();
        self.materialized_cache.clear();
        assert(self.queries() =~= Map::<Seq<u8>, Set<Pubkey>>::empty());
        assert(self.links() =~= Map::<Pubkey, Set<Seq<u8>>>::empty());
    }
}

impl Default for InvalidationTracker {
    fn default() -> (t: Self)
        ensures
            t.wf(),
            t.queries() == Map::<Seq<u8>, Set<Pubkey>>::empty(),
            t.links() == Map::<Pubkey, Set<Seq<u8>>>::empty(),
            t.materialized() == Map::<Seq<u8>, MaterializedQueryResult>::empty(),
    {
        Self::new()
    }
}

/// Every link is recorded both ways: an account linked to a query is one of the
/// accounts the query is registered with.
pub open spec fn links_consistent(qp: Map<Seq<u8>, Set<Pubkey>>, pq: Map<Pubkey, Set<Seq<u8>>>) -> bool {
    forall|p: Pubkey, q: Seq<u8>|
        pq.contains_key(p) && #[trigger] pq[p].contains(q) ==> qp.contains_key(q) && qp[q].contains(p)
}

/// A query registered for an account is among the account's affected queries.
pub proof fn lemma_registered_query_is_affected(
    pq: Map<Pubkey, Set<Seq<u8>>>,
    q: Seq<u8>,
    s: Set<Pubkey>,
    p: Pubkey,
)
    requires
        s.contains(p),
    ensures
        link_all(pq, q, s).contains_key(p),
        link_all(pq, q, s)[p].contains(q),
        affected(link_all(pq, q, s), s).contains(q),
{
    assert(s.contains(p) && link_all(pq, q, s).contains_key(p) && link_all(pq, q, s)[p].contains(q));
}

/// Once the accounts `ps` are invalidated, none of them has an affected query left,
/// when every link was recorded both ways.
pub proof fn lemma_invalidation_unlinks(
    qp: Map<Seq<u8>, Set<Pubkey>>,
    pq: Map<Pubkey, Set<Seq<u8>>>,
    ps: Set<Pubkey>,
    p: Pubkey,
)
    requires
        links_consistent(qp, pq),
        ps.contains(p),
    ensures
        !unlink(qp, pq, affected(pq, ps)).contains_key(p),
{
    let a = affected(pq, ps);
    if pq.contains_key(p) {
        assert forall|q: Seq<u8>| pq[p].contains(q) implies cleared(qp, a, p).contains(q) by {
            assert(ps.contains(p) && pq.contains_key(p) && pq[p].contains(q));
            assert(a.contains(q));
        }
        assert(pq[p].difference(cleared(qp, a, p)) =~= Set::<Seq<u8>>::empty());
    }
}

/// Registering a query that is not registered yet keeps every link recorded both ways.
pub proof fn lemma_register_keeps_consistency(
    qp: Map<Seq<u8>, Set<Pubkey>>,
    pq: Map<Pubkey, Set<Seq<u8>>>,
    q: Seq<u8>,
    s: Set<Pubkey>,
)
    requires
        links_consistent(qp, pq),
        !qp.contains_key(q),
    ensures
        links_consistent(qp.insert(q, s), link_all(pq, q, s)),
{
    let qp2 = qp.insert(q, s);
    let pq2 = link_all(pq, q, s);
    assert forall|p: Pubkey, x: Seq<u8>| pq2.contains_key(p) && #[trigger] pq2[p].contains(x) implies qp2.contains_key(x)
        && qp2[x].contains(p) by {
        if x != q {
            assert(pq.contains_key(p) && pq[p].contains(x));
        }
    }
}

/// Invalidation keeps every link recorded both ways.
pub proof fn lemma_invalidation_keeps_consistency(
    qp: Map<Seq<u8>, Set<Pubkey>>,
    pq: Map<Pubkey, Set<Seq<u8>>>,
    ps: Set<Pubkey>,
)
    requires
        links_consistent(qp, pq),
    ensures
        links_consistent(
            qp.remove_keys(affected(pq, ps)),
            unlink(qp, pq, affected(pq, ps)),
        ),
{
    let a = affected(pq, ps);
    let qp2 = qp.remove_keys(a);
    let pq2 = unlink(qp, pq, a);
    assert forall|p: Pubkey, x: Seq<u8>| pq2.contains_key(p) && #[trigger] pq2[p].contains(x) implies qp2.contains_key(x)
        && qp2[x].contains(p) by {
        assert(pq[p].contains(x));
        assert(!cleared(qp, a, p).contains(x));
    }
}

/// When every link is recorded both ways, no account keeps a link to a query that
/// invalidation removed. (A query registered again for fewer accounts leaves one-way
/// links, on which this does not hold.)
pub proof fn lemma_no_link_to_removed_query(
    qp: Map<Seq<u8>, Set<Pubkey>>,
    pq: Map<Pubkey, Set<Seq<u8>>>,
    ps: Set<Pubkey>,
)
    requires
        links_consistent(qp, pq),
    ensures
        forall|p: Pubkey, q: Seq<u8>| unlink(qp, pq, affected(pq, ps)).contains_key(p)
            && affected(pq, ps).contains(q) ==> !(#[trigger] unlink(qp, pq, affected(pq, ps))[p].contains(q)),
{
    let a = affected(pq, ps);
    assert forall|p: Pubkey, q: Seq<u8>| unlink(qp, pq, a).contains_key(p) && a.contains(q)
        implies !(#[trigger] unlink(qp, pq, a)[p].contains(q)) by {
        if pq[p].contains(q) {
            assert(qp.contains_key(q) && qp[q].contains(p));
            assert(cleared(qp, a, p).contains(q));
        }
    }
}

} // verus!
