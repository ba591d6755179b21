//! Cardinality statistics of the indexes, and execution plans that apply the most
//! selective filter first.
use crate::collections::{KeyEq, KeyMap};
use crate::index::keyed_bitmap::{lemma_lists_ascending_len, lists_ascending};
use crate::index::data_size_index::DataSizeIndex;
use crate::index::discriminator_index::DiscriminatorIndex;
use crate::pubkey::Pubkey;
use crate::query::types::GpaFilter;
use std::collections::HashMap;
use vstd::prelude::*;

verus! {

broadcast use vstd::std_specs::hash::group_hash_axioms;

/// Number of accounts under each key of each index.
pub struct IndexStatistics {
    /// Accounts per program.
    pub program_cardinality: KeyMap<Pubkey, u64>,
    /// Accounts per data size.
    pub datasize_cardinality: HashMap<u64, u64>,
    /// Accounts per (offset, bytes) pattern.
    pub memcmp_cardinality: KeyMap<(usize, Vec<u8>), u64>,
    /// Accounts per discriminator.
    pub discriminator_cardinality: KeyMap<[u8; 8], u64>,
    /// Accounts counted in all.
    pub total_accounts: u64,
    /// Slot of the last refresh.
    pub last_updated_slot: u64,
}

impl IndexStatistics {
    pub open spec fn wf(&self) -> bool {
        &&& self.program_cardinality.wf()
        &&& self.memcmp_cardinality.wf()
        &&& self.discriminator_cardinality.wf()
    }

    /// No statistics.
    pub fn new() -> (s: Self)
        ensures
            s.wf(),
            s.program_cardinality@ == Map::<Pubkey, u64>::empty(),
            s.datasize_cardinality@ == Map::<u64, u64>::empty(),
            s.memcmp_cardinality@ == Map::<(usize, Seq<u8>), u64>::empty(),
            s.discriminator_cardinality@ == Map::<Seq<u8>, u64>::empty(),
            s.total_accounts == 0,
            s.last_updated_slot == 0,
    {
        IndexStatistics {
            program_cardinality: KeyMap::new(),
            datasize_cardinality: HashMap::new(),
            memcmp_cardinality: KeyMap::new(),
            discriminator_cardinality: KeyMap::new(),
            total_accounts: 0,
            last_updated_slot: 0,
        }
    }
}

/// The kind of a filter in a plan, most selective kind first.
#[derive(Debug, Clone)]
pub enum FilterType {
    Discriminator([u8; 8]),
    Memcmp(usize, Vec<u8>),
    DataSize(u64),
    Program(Pubkey),
}

/// What identifies a filter in a plan.
pub enum FilterKey {
    Discriminator(Seq<u8>),
    Memcmp(usize, Seq<u8>),
    DataSize(u64),
    Program(Pubkey),
}

impl View for FilterType {
    type V = FilterKey;

    open spec fn view(&self) -> FilterKey {
        match self {
            FilterType::Discriminator(d) => FilterKey::Discriminator(d@),
            FilterType::Memcmp(o, b) => FilterKey::Memcmp(*o, b@),
            FilterType::DataSize(s) => FilterKey::DataSize(*s),
            FilterType::Program(p) => FilterKey::Program(*p),
        }
    }
}

/// The filter key of a query filter.
pub open spec fn gpa_filter_key(f: GpaFilter) -> FilterKey {
    match f {
        GpaFilter::DataSize(s) => FilterKey::DataSize(s),
        GpaFilter::Memcmp { offset, bytes } => FilterKey::Memcmp(offset, bytes@),
        GpaFilter::Discriminator(d) => FilterKey::Discriminator(d@),
    }
}

/// A filter with its estimated number of matching accounts.
#[derive(Debug, Clone)]
pub struct CardinalityEstimate {
    pub filter_type: FilterType,
    pub estimated_cardinality: u64,
    /// Confidence of the estimate, in percent.
    pub confidence_percent: u8,
}

/// An execution plan.
#[derive(Debug, Clone)]
pub struct OptimizedExecutionPlan {
    /// The filters, most selective first.
    pub execution_order: Vec<FilterType>,
    /// The estimated number of candidates after each step.
    pub intermediate_cardinalities: Vec<u64>,
    /// Total estimated cost, in arbitrary units.
    pub estimated_total_cost: u64,
    /// Estimated time in microseconds (one unit per microsecond).
    pub estimated_time_us: u64,
}

/// Cost weights.
#[derive(Debug, Clone, Copy, PartialEq, Eq, Structural)]
pub struct CostWeights {
    /// Per bitmap lookup.
    pub bitmap_lookup_cost: u64,
    /// Per account in an intersection.
    pub intersection_cost_per_account: u64,
    /// Per account of the final result.
    pub memory_access_cost_per_account: u64,
}

impl Default for CostWeights {
    fn default() -> (w: Self)
        ensures
            w == (CostWeights {
                bitmap_lookup_cost: 10,
                intersection_cost_per_account: 1,
                memory_access_cost_per_account: 2,
            }),
    {
        CostWeights { bitmap_lookup_cost: 10, intersection_cost_per_account: 1, memory_access_cost_per_account: 2 }
    }
}

/// The count a statistics map holds for a key; 0 for a key it does not hold.
pub open spec fn count_or_zero<K>(m: Map<K, u64>, k: K) -> u64 {
    if m.contains_key(k) {
        m[k]
    } else {
        0
    }
}

/// The map with the count of `k` one higher (from 0 for a key it does not hold).
pub open spec fn bumped<K>(m: Map<K, u64>, k: K) -> Map<K, u64> {
    m.insert(k, (count_or_zero(m, k) + 1) as u64)
}

/// The estimated number of accounts matching a filter.
pub open spec fn filter_cardinality(stats: IndexStatistics, f: GpaFilter) -> u64 {
    match f {
        GpaFilter::DataSize(s) => count_or_zero(stats.datasize_cardinality@, s),
        GpaFilter::Memcmp { offset, bytes } => count_or_zero(stats.memcmp_cardinality@, (offset, bytes@)),
        GpaFilter::Discriminator(d) => count_or_zero(stats.discriminator_cardinality@, d@),
    }
}

/// Inserts an estimate into a list sorted by cardinality, after every estimate of
/// no greater cardinality.
pub open spec fn insert_by_cardinality(t: Seq<(FilterKey, u64)>, x: (FilterKey, u64)) -> Seq<(FilterKey, u64)>
    decreases t.len(),
{
    if t.len() == 0 {
        seq![x]
    } else if x.1 < t.last().1 {
        insert_by_cardinality(t.drop_last(), x).push(t.last())
    } else {
        t.push(x)
    }
}

/// The estimates sorted by cardinality, stably: equal cardinalities keep their order.
pub open spec fn sort_by_cardinality(s: Seq<(FilterKey, u64)>) -> Seq<(FilterKey, u64)>
    decreases s.len(),
{
    if s.len() == 0 {
        s
    } else {
        insert_by_cardinality(sort_by_cardinality(s.drop_last()), s.last())
    }
}

/// Whether an estimate has cardinality `c`.
pub open spec fn with_cardinality(c: u64) -> spec_fn((FilterKey, u64)) -> bool {
    |e: (FilterKey, u64)| e.1 == c
}

proof fn lemma_insert_keeps_ties(t: Seq<(FilterKey, u64)>, x: (FilterKey, u64), c: u64)
    ensures
        insert_by_cardinality(t, x).filter(with_cardinality(c)) == (if x.1 == c {
            t.filter(with_cardinality(c)).push(x)
        } else {
            t.filter(with_cardinality(c))
        }),
    decreases t.len(),
{
    let r = insert_by_cardinality(t, x);
    if t.len() == 0 {
        assert(r =~= t.push(x));
        t.lemma_filter_push(x, with_cardinality(c));
    } else {
        let d = t.drop_last();
        let l = t.last();
        assert(t =~= d.push(l));
        d.lemma_filter_push(l, with_cardinality(c));
        if x.1 < l.1 {
            lemma_insert_keeps_ties(d, x, c);
            insert_by_cardinality(d, x).lemma_filter_push(l, with_cardinality(c));
        } else {
            t.lemma_filter_push(x, with_cardinality(c));
        }
    }
}

/// Planning sorts stably: estimates of equal cardinality keep the order they came in.
pub proof fn lemma_plan_is_stable(s: Seq<(FilterKey, u64)>, c: u64)
    ensures
        sort_by_cardinality(s).filter(with_cardinality(c)) == s.filter(with_cardinality(c)),
    decreases s.len(),
{
    if s.len() > 0 {
        let d = s.drop_last();
        let l = s.last();
        assert(s =~= d.push(l));
        lemma_plan_is_stable(d, c);
        lemma_insert_keeps_ties(sort_by_cardinality(d), l, c);
        d.lemma_filter_push(l, with_cardinality(c));
    }
}

/// The smallest of `start` and the first `n` cardinalities.
pub open spec fn running_min(start: u64, cards: Seq<u64>, n: int) -> u64
    decreases n,
{
    if n <= 0 {
        start
    } else {
        let m = running_min(start, cards, n - 1);
        if cards[n - 1] < m {
            cards[n - 1]
        } else {
            m
        }
    }
}

/// The intersection cost of the first `n` steps: each step after the first costs
/// the running cardinality before it.
pub open spec fn intersection_cost(cards: Seq<u64>, w: CostWeights, n: int) -> int
    decreases n,
{
    if n <= 1 {
        0
    } else {
        intersection_cost(cards, w, n - 1) + running_min(cards[0], cards, n - 1)
            * w.intersection_cost_per_account
    }
}

/// The cost of a plan over estimates with the given cardinalities: a lookup per
/// filter and, when there is more than one, the intersections and the memory
/// accesses of the final candidates.
pub open spec fn plan_cost(cards: Seq<u64>, w: CostWeights) -> int {
    cards.len() * w.bitmap_lookup_cost + (if cards.len() > 1 {
        intersection_cost(cards, w, cards.len() as int) + running_min(cards[0], cards, cards.len() as int)
            * w.memory_access_cost_per_account
    } else {
        0
    })
}

/// Plans queries from the index statistics.
pub struct QueryCostModel {
    stats: IndexStatistics,
    cost_weights: CostWeights,
}

impl Default for QueryCostModel {
    fn default() -> (m: Self)
        ensures
            m.spec_stats().wf(),
            m.spec_stats().program_cardinality@ == Map::<Pubkey, u64>::empty(),
            m.spec_stats().datasize_cardinality@ == Map::<u64, u64>::empty(),
            m.spec_stats().memcmp_cardinality@ == Map::<(usize, Seq<u8>), u64>::empty(),
            m.spec_stats().discriminator_cardinality@ == Map::<Seq<u8>, u64>::empty(),
            m.spec_stats().total_accounts == 0,
    {
        QueryCostModel::new()
    }
}

impl QueryCostModel {
    pub closed spec fn spec_stats(&self) -> IndexStatistics {
        self.stats
    }

    pub closed spec fn spec_weights(&self) -> CostWeights {
        self.cost_weights
    }

    /// Empty statistics and the default weights.
    pub fn new() -> (m: Self)
        ensures
            m.spec_stats().wf(),
            m.spec_stats().program_cardinality@ == Map::<Pubkey, u64>::empty(),
            m.spec_stats().datasize_cardinality@ == Map::<u64, u64>::empty(),
            m.spec_stats().memcmp_cardinality@ == Map::<(usize, Seq<u8>), u64>::empty(),
            m.spec_stats().discriminator_cardinality@ == Map::<Seq<u8>, u64>::empty(),
            m.spec_stats().total_accounts == 0,
            m.spec_weights() == (CostWeights {
                bitmap_lookup_cost: 10,
                intersection_cost_per_account: 1,
                memory_access_cost_per_account: 2,
            }),
    {
        QueryCostModel { stats: IndexStatistics::new(), cost_weights: CostWeights::default() }
    }

    /// The estimated number of accounts matching the filter, with a confidence of
    /// 90% (95% for a discriminator) when the statistics hold the key and 50% otherwise.
    pub fn estimate_cardinality(&self, filter: &GpaFilter) -> (e: CardinalityEstimate)
        requires
            self.spec_stats().wf(),
        ensures
            e.filter_type@ == gpa_filter_key(*filter),
            e.estimated_cardinality == filter_cardinality(self.spec_stats(), *filter),
            e.confidence_percent == (if e.estimated_cardinality == 0 {
                50u8
            } else if filter is Discriminator {
                95u8
            } else {
                90u8
            }),
    {
        let (cardinality, high): (u64, u8) = match filter {
            GpaFilter::DataSize(size) => {
                let c = match self.stats.datasize_cardinality.get(size) {
                    Some(n) => *n,
                    None => 0,
                };
                (c, 90)
            },
            GpaFilter::Memcmp { offset, bytes } => {
                let key = (*offset, copy_bytes(bytes));
                let c = match self.stats.memcmp_cardinality.get(&key) {
                    Some(n) => *n,
                    None => 0,
                };
                (c, 90)
            },
            GpaFilter::Discriminator(disc) => {
                let c = match self.stats.discriminator_cardinality.get(disc) {
                    Some(n) => *n,
                    None => 0,
                };
                (c, 95)
            },
        };
        CardinalityEstimate {
            filter_type: filter_type_of(filter),
            estimated_cardinality: cardinality,
            confidence_percent: if cardinality > 0 { high } else { 50 },
        }
    }

    /// The cost of a plan whose steps have these cardinalities (see `plan_cost`).
    fn calculate_cost(&self, cards: &Vec<u64>) -> (c: u64)
        requires
            plan_cost(cards@, self.spec_weights()) <= u64::MAX,
        ensures
            c == plan_cost(cards@, self.spec_weights()),
    {
        let w = self.cost_weights;
        let n = cards.len();
        proof {
            lemma_intersection_cost_nonneg(cards@, w, n as int);
            assert(running_min(if n > 0 { cards@[0] } else { 0 }, cards@, n as int) * w.memory_access_cost_per_account
                >= 0) by (nonlinear_arith);
            assert(n * w.bitmap_lookup_cost >= 0) by (nonlinear_arith);
        }
        let mut total: u64 = n as u64 * w.bitmap_lookup_cost;
        if n > 1 {
            let mut running = cards[0];
            let mut i: usize = 1;
            proof {
                assert(running_min(cards@[0], cards@, 0) == cards@[0]);
                assert(running_min(cards@[0], cards@, 1) == cards@[0]);
                assert(intersection_cost(cards@, w, 1) == 0);
            }
            while i < n
                invariant
                    1 <= i <= n,
                    n == cards@.len(),
                    w == self.spec_weights(),
                    plan_cost(cards@, w) <= u64::MAX,
                    running == running_min(cards@[0], cards@, i as int),
                    total == n * w.bitmap_lookup_cost + intersection_cost(cards@, w, i as int),
                decreases n - i,
            {
                proof {
                    lemma_intersection_cost_monotone(cards@, w, i + 1, n as int);
                    assert(running_min(cards@[0], cards@, n as int) * w.memory_access_cost_per_account
                        >= 0) by (nonlinear_arith);
                }
                total = total + running * w.intersection_cost_per_account;
                if cards[i] < running {
                    running = cards[i];
                }
                i = i + 1;
            }
            total = total + running * w.memory_access_cost_per_account;
        }
        total
    }

    /// Plans a query: the program and each filter with its estimated cardinality
    /// (the program counts one million when the statistics lack it), sorted stably by
    /// cardinality so that the most selective filter comes first; the running
    /// minimum after each step; and the plan's cost (see `plan_cost`).
    pub fn create_optimized_plan(&self, program_id: Pubkey, filters: &[GpaFilter]) -> (p: OptimizedExecutionPlan)
        requires
            self.spec_stats().wf(),
            plan_cost(
                cardinalities(sort_by_cardinality(plan_estimates(
                    self.spec_stats(),
                    program_id,
                    program_cardinality_or_default(self.spec_stats(), program_id),
                    filters@,
                ))),
                self.spec_weights(),
            ) <= u64::MAX,
        ensures
            ({
                let pc = program_cardinality_or_default(self.spec_stats(), program_id);
                let sorted = sort_by_cardinality(plan_estimates(self.spec_stats(), program_id, pc, filters@));
                &&& p.execution_order@.map_values(|f: FilterType| f@) == sorted.map_values(
                    |e: (FilterKey, u64)| e.0,
                )
                &&& p.intermediate_cardinalities@ == Seq::new(
                    sorted.len(),
                    |i: int| running_min(pc, cardinalities(sorted), i + 1),
                )
                &&& p.estimated_total_cost == plan_cost(cardinalities(sorted), self.spec_weights())
                &&& p.estimated_time_us == p.estimated_total_cost
            }),
    {
        let program_cardinality = match self.stats.program_cardinality.get(&program_id) {
            Some(n) => *n,
            None => 1_000_000,
        };
        let ghost est = plan_estimates(self.spec_stats(), program_id, program_cardinality, filters@);
        let mut sorted: Vec<(FilterType, u64)> = Vec::new();
        insert_sorted(&mut sorted, (FilterType::Program(program_id), program_cardinality));
        proof {
            reveal_with_fuel(sort_by_cardinality, 2);
            assert(est.take(1) =~= seq![est[0]]);
            assert(est.take(1).drop_last() =~= Seq::<(FilterKey, u64)>::empty());
            assert(sorted@.map_values(|e: (FilterType, u64)| entry_view(e)) =~= sort_by_cardinality(
                est.take(1),
            ));
        }
        let mut i: usize = 0;
        while i < filters.len()
            invariant
                i <= filters@.len(),
                self.spec_stats().wf(),
                est == plan_estimates(self.spec_stats(), program_id, program_cardinality, filters@),
                est.len() == filters@.len() + 1,
                sorted@.map_values(|e: (FilterType, u64)| entry_view(e)) == sort_by_cardinality(
                    est.take(i + 1),
                ),
            decreases filters@.len() - i,
        {
            let e = self.estimate_cardinality(&filters[i]);
            proof {
                assert(est[i + 1] == (gpa_filter_key(filters@[i as int]), filter_cardinality(
                    self.spec_stats(),
                    filters@[i as int],
                )));
                assert(est.take(i + 2).drop_last() =~= est.take(i + 1));
                assert(est.take(i + 2).last() == est[i + 1]);
            }
            insert_sorted(&mut sorted, (e.filter_type, e.estimated_cardinality));
            i = i + 1;
        }
        proof {
            assert(est.take(i + 1) =~= est);
        }
        let ghost sv = sorted@.map_values(|e: (FilterType, u64)| entry_view(e));
        let mut cards: Vec<u64> = Vec::new();
        let mut intermediate: Vec<u64> = Vec::new();
        let mut order: Vec<FilterType> = Vec::new();
        let mut current = program_cardinality;
        let n = sorted.len();
        let mut k: usize = 0;
        while k < n
            invariant
                k <= n,
                n == sorted@.len(),
                sv == sorted@.map_values(|e: (FilterType, u64)| entry_view(e)),
                cards@ == cardinalities(sv).take(k as int),
                current == running_min(program_cardinality, cardinalities(sv), k as int),
                intermediate@ == Seq::new(
                    k as nat,
                    |j: int| running_min(program_cardinality, cardinalities(sv), j + 1),
                ),
            decreases n - k,
        {
            let c = sorted[k].1;
            cards.push(c);
            if c < current {
                current = c;
            }
            intermediate.push(current);
            proof {
                assert(cards@ =~= cardinalities(sv).take(k + 1));
                assert(intermediate@ =~= Seq::new(
                    (k + 1) as nat,
                    |j: int| running_min(program_cardinality, cardinalities(sv), j + 1),
                ));
            }
            k = k + 1;
        }
        proof {
            assert(cards@ =~= cardinalities(sv));
        }
        let estimated_total_cost = self.calculate_cost(&cards);
        let ghost kept = sorted@;
        while sorted.len() > 0
            invariant
                sorted@.len() + order@.len() == kept.len(),
                sorted@ == kept.skip(order@.len() as int),
                order@.map_values(|f: FilterType| f@) == kept.take(order@.len() as int).map_values(
                    |e: (FilterType, u64)| e.0@,
                ),
            decreases sorted@.len(),
        {
            let ghost before = order@.len();
            proof {
                assert(sorted@[0] == kept[before as int]);
            }
            let ghost old_order = order@;
            let pair = sorted.remove(0);
            proof {
                assert(pair == kept[before as int]);
            }
            order.push(pair.0);
            proof {
                assert(order@ == old_order.push(kept[before as int].0));
                assert(order@.map_values(|f: FilterType| f@) =~= old_order.map_values(|f: FilterType| f@).push(
                    kept[before as int].0@,
                ));
                assert(kept.take(order@.len() as int) =~= kept.take(before as int).push(kept[before as int]));
                assert(sorted@ =~= kept.skip(order@.len() as int));
                assert(order@.map_values(|f: FilterType| f@) =~= kept.take(order@.len() as int).map_values(
                    |e: (FilterType, u64)| e.0@,
                ));
            }
        }
        proof {
            assert(kept.take(order@.len() as int) =~= kept);
            assert(order@.map_values(|f: FilterType| f@) =~= sv.map_values(|e: (FilterKey, u64)| e.0));
        }
        OptimizedExecutionPlan {
            execution_order: order,
            intermediate_cardinalities: intermediate,
            estimated_total_cost,
            estimated_time_us: estimated_total_cost,
        }
    }

    /// Counts a new account: one more for its program, its data size and, when its
    /// data holds at least 8 bytes, its discriminator; one more in all.
    pub fn update_account_statistics(&mut self, program_id: &Pubkey, data_size: u64, data: &[u8])
        requires
            old(self).spec_stats().wf(),
            count_or_zero(old(self).spec_stats().program_cardinality@, *program_id) < u64::MAX,
            count_or_zero(old(self).spec_stats().datasize_cardinality@, data_size) < u64::MAX,
            data@.len() >= 8 ==> count_or_zero(
                old(self).spec_stats().discriminator_cardinality@,
                data@.take(8),
            ) < u64::MAX,
            old(self).spec_stats().total_accounts < u64::MAX,
        ensures
            final(self).spec_stats().wf(),
            final(self).spec_weights() == old(self).spec_weights(),
            final(self).spec_stats().program_cardinality@ == bumped(
                old(self).spec_stats().program_cardinality@,
                *program_id,
            ),
            final(self).spec_stats().datasize_cardinality@ == bumped(
                old(self).spec_stats().datasize_cardinality@,
                data_size,
            ),
            final(self).spec_stats().discriminator_cardinality@ == (if data@.len() >= 8 {
                bumped(old(self).spec_stats().discriminator_cardinality@, data@.take(8))
            } else {
                old(self).spec_stats().discriminator_cardinality@
            }),
            final(self).spec_stats().memcmp_cardinality@ == old(self).spec_stats().memcmp_cardinality@,
            final(self).spec_stats().total_accounts == old(self).spec_stats().total_accounts + 1,
            final(self).spec_stats().last_updated_slot == old(self).spec_stats().last_updated_slot,
    {
        let p = match self.stats.program_cardinality.get(program_id) {
            Some(n) => *n,
            None => 0,
        };
        self.stats.program_cardinality.insert(*program_id, p + 1);
        let d = match self.stats.datasize_cardinality.get(&data_size) {
            Some(n) => *n,
            None => 0,
        };
        self.stats.datasize_cardinality.insert(data_size, d + 1);
        if data.len() >= 8 {
            let mut disc = [0u8; 8];
            let mut i: usize = 0;
            while i < 8
                invariant
                    data@.len() >= 8,
                    0 <= i <= 8,
                    disc@.len() == 8,
                    forall|j: int| 0 <= j < i ==> disc@[j] == data@[j],
                decreases 8 - i,
            {
                disc[i] = data[i];
                i = i + 1;
            }
            assert(disc@ =~= data@.take(8));
            let c = match self.stats.discriminator_cardinality.get(&disc) {
                Some(n) => *n,
                None => 0,
            };
            self.stats.discriminator_cardinality.insert(disc, c + 1);
        }
        self.stats.total_accounts = self.stats.total_accounts + 1;
    }

    /// Rebuilds the statistics: the given per-program and per-pattern counts, the
    /// number of accounts of each data size and each discriminator of the indexes,
    /// and the slot of the refresh.
    pub fn refresh_statistics(
        &mut self,
        program_counts: Vec<(Pubkey, u64)>,
        data_size_index: &DataSizeIndex,
        pattern_counts: Vec<((usize, Vec<u8>), u64)>,
        discriminator_index: &DiscriminatorIndex,
        current_slot: u64,
    )
        requires
            data_size_index.wf(),
            data_size_index.ids().len() < usize::MAX,
            discriminator_index.wf(),
            discriminator_index.ids().len() < usize::MAX,
        ensures
            final(self).spec_stats().wf(),
            final(self).spec_weights() == old(self).spec_weights(),
            final(self).spec_stats().program_cardinality@ == list_map(program_counts@),
            final(self).spec_stats().datasize_cardinality@ == size_count_map(*data_size_index),
            final(self).spec_stats().memcmp_cardinality@ == list_map(pattern_counts@),
            final(self).spec_stats().discriminator_cardinality@ == discriminator_count_map(
                *discriminator_index,
            ),
            final(self).spec_stats().total_accounts == old(self).spec_stats().total_accounts,
            final(self).spec_stats().last_updated_slot == current_slot,
    {
        self.stats.program_cardinality = list_counts(program_counts);
        self.stats.datasize_cardinality = size_counts(data_size_index);
        self.stats.memcmp_cardinality = list_counts(pattern_counts);
        self.stats.discriminator_cardinality = discriminator_counts(discriminator_index);
        self.stats.last_updated_slot = current_slot;
    }

    /// The statistics.
    pub fn get_statistics(&self) -> (s: &IndexStatistics)
        ensures
            *s == self.spec_stats(),
    {
        &self.stats
    }
}

/// A copy of the bytes.
fn copy_bytes(v: &Vec<u8>) -> (r: Vec<u8>)
    ensures
        r@ == v@,
{
    let mut r: Vec<u8> = Vec::new();
    let mut i: usize = 0;
    while i < v.len()
        invariant
            i <= v@.len(),
            r@ == v@.take(i as int),
        decreases v@.len() - i,
    {
        r.push(v[i]);
        proof {
            assert(v@.take(i + 1) =~= v@.take(i as int).push(v@[i as int]));
        }
        i = i + 1;
    }
    assert(v@.take(i as int) =~= v@);
    r
}

/// The plan entry of a filter.
fn filter_type_of(f: &GpaFilter) -> (t: FilterType)
    ensures
        t@ == gpa_filter_key(*f),
{
    match f {
        GpaFilter::DataSize(s) => FilterType::DataSize(*s),
        GpaFilter::Memcmp { offset, bytes } => FilterType::Memcmp(*offset, copy_bytes(bytes)),
        GpaFilter::Discriminator(d) => FilterType::Discriminator(*d),
    }
}

/// An estimate by its key and cardinality.
pub open spec fn entry_view(e: (FilterType, u64)) -> (FilterKey, u64) {
    (e.0@, e.1)
}

/// The cardinalities of a list of estimates.
pub open spec fn cardinalities(s: Seq<(FilterKey, u64)>) -> Seq<u64> {
    s.map_values(|e: (FilterKey, u64)| e.1)
}

/// Places `x` after every entry of no greater cardinality, counting from the end.
fn insert_sorted(v: &mut Vec<(FilterType, u64)>, x: (FilterType, u64))
    ensures
        final(v)@.map_values(|e: (FilterType, u64)| entry_view(e)) == insert_by_cardinality(
            old(v)@.map_values(|e: (FilterType, u64)| entry_view(e)),
            entry_view(x),
        ),
{
    let ghost m = v@.map_values(|e: (FilterType, u64)| entry_view(e));
    let ghost kx = entry_view(x);
    let mut j: usize = v.len();
    proof {
        assert(m.take(j as int) =~= m);
        assert(m.skip(j as int) =~= Seq::<(FilterKey, u64)>::empty());
    }
    while j > 0 && x.1 < v[j - 1].1
        invariant
            j <= v@.len(),
            v@ == old(v)@,
            m == v@.map_values(|e: (FilterType, u64)| entry_view(e)),
            kx == entry_view(x),
            insert_by_cardinality(m, kx) == insert_by_cardinality(m.take(j as int), kx) + m.skip(j as int),
        decreases j,
    {
        proof {
            let t = m.take(j as int);
            assert(t.drop_last() =~= m.take(j - 1));
            assert(t.last() == m[j - 1]);
            assert(insert_by_cardinality(t, kx) == insert_by_cardinality(m.take(j - 1), kx).push(m[j - 1]));
            assert(m.skip(j - 1) =~= seq![m[j - 1]] + m.skip(j as int));
            assert(insert_by_cardinality(m.take(j - 1), kx).push(m[j - 1]) + m.skip(j as int)
                =~= insert_by_cardinality(m.take(j - 1), kx) + m.skip(j - 1));
        }
        j = j - 1;
    }
    proof {
        let t = m.take(j as int);
        if j == 0 {
            assert(insert_by_cardinality(t, kx) == seq![kx]);
        } else {
            assert(t.last() == m[j - 1]);
            assert(insert_by_cardinality(t, kx) == t.push(kx));
        }
    }
    v.insert(j, x);
    proof {
        let t = m.take(j as int);
        assert(v@.map_values(|e: (FilterType, u64)| entry_view(e)) =~= t.push(kx) + m.skip(j as int));
        if j == 0 {
            assert(t.push(kx) =~= seq![kx]);
        }
    }
}

proof fn lemma_intersection_cost_monotone(cards: Seq<u64>, w: CostWeights, a: int, b: int)
    requires
        a <= b,
    ensures
        0 <= intersection_cost(cards, w, a) <= intersection_cost(cards, w, b),
    decreases b - a,
{
    if a < b {
        lemma_intersection_cost_monotone(cards, w, a, b - 1);
        if b > 1 {
            assert(running_min(cards[0], cards, b - 1) * w.intersection_cost_per_account >= 0)
                by (nonlinear_arith);
        }
    } else {
        lemma_intersection_cost_nonneg(cards, w, a);
    }
}

proof fn lemma_intersection_cost_nonneg(cards: Seq<u64>, w: CostWeights, n: int)
    ensures
        0 <= intersection_cost(cards, w, n),
    decreases n,
{
    if n > 1 {
        lemma_intersection_cost_nonneg(cards, w, n - 1);
        assert(running_min(cards[0], cards, n - 1) * w.intersection_cost_per_account >= 0)
            by (nonlinear_arith);
    }
}

/// The estimates of a plan, before sorting: the program's, then each filter's.
pub open spec fn plan_estimates(
    stats: IndexStatistics,
    program_id: Pubkey,
    program_cardinality: u64,
    filters: Seq<GpaFilter>,
) -> Seq<(FilterKey, u64)> {
    seq![(FilterKey::Program(program_id), program_cardinality)] + filters.map_values(
        |f: GpaFilter| (gpa_filter_key(f), filter_cardinality(stats, f)),
    )
}

/// The program's count, or one million for a program with no count.
pub open spec fn program_cardinality_or_default(stats: IndexStatistics, program_id: Pubkey) -> u64 {
    if stats.program_cardinality@.contains_key(program_id) {
        stats.program_cardinality@[program_id]
    } else {
        1_000_000
    }
}

/// Whether the estimates are in ascending order of cardinality.
pub open spec fn ascending_cardinality(s: Seq<(FilterKey, u64)>) -> bool {
    forall|i: int, j: int| 0 <= i <= j < s.len() ==> (#[trigger] s[i]).1 <= (#[trigger] s[j]).1
}

proof fn lemma_insert_keeps_entries(t: Seq<(FilterKey, u64)>, x: (FilterKey, u64))
    ensures
        insert_by_cardinality(t, x).to_multiset() == t.to_multiset().insert(x),
    decreases t.len(),
{
    broadcast use vstd::seq_lib::group_to_multiset_ensures;

    if t.len() > 0 {
        if x.1 < t.last().1 {
            lemma_insert_keeps_entries(t.drop_last(), x);
            assert(t.drop_last().push(t.last()) =~= t);
            assert(insert_by_cardinality(t, x).to_multiset() =~= t.to_multiset().insert(x));
        }
    }
}

proof fn lemma_insert_keeps_order(t: Seq<(FilterKey, u64)>, x: (FilterKey, u64))
    requires
        ascending_cardinality(t),
    ensures
        ascending_cardinality(insert_by_cardinality(t, x)),
    decreases t.len(),
{
    broadcast use vstd::seq_lib::group_to_multiset_ensures;

    if t.len() > 0 && x.1 < t.last().1 {
        let u = insert_by_cardinality(t.drop_last(), x);
        lemma_insert_keeps_order(t.drop_last(), x);
        lemma_insert_keeps_entries(t.drop_last(), x);
        assert forall|k: int| 0 <= k < u.len() implies u[k].1 <= t.last().1 by {
            assert(u.to_multiset().count(u[k]) > 0);
            assert(t.drop_last().to_multiset().insert(x).count(u[k]) > 0);
            if u[k] != x {
                assert(t.drop_last().to_multiset().count(u[k]) > 0);
                assert(t.drop_last().contains(u[k]));
                let w = choose|w: int| 0 <= w < t.drop_last().len() && t.drop_last()[w] == u[k];
                assert(t[w].1 <= t[t.len() - 1].1);
            }
        }
    }
}

/// Planning sorts the estimates into ascending order of cardinality, so that the
/// most selective filter is applied first.
pub proof fn lemma_plan_is_sorted(s: Seq<(FilterKey, u64)>)
    ensures
        ascending_cardinality(sort_by_cardinality(s)),
    decreases s.len(),
{
    if s.len() > 0 {
        lemma_plan_is_sorted(s.drop_last());
        lemma_insert_keeps_order(sort_by_cardinality(s.drop_last()), s.last());
    }
}

/// Planning reorders the estimates without losing or adding any.
pub proof fn lemma_plan_keeps_filters(s: Seq<(FilterKey, u64)>)
    ensures
        sort_by_cardinality(s).to_multiset() == s.to_multiset(),
    decreases s.len(),
{
    broadcast use vstd::seq_lib::group_to_multiset_ensures;

    if s.len() > 0 {
        lemma_plan_keeps_filters(s.drop_last());
        lemma_insert_keeps_entries(sort_by_cardinality(s.drop_last()), s.last());
        assert(s.drop_last().push(s.last()) =~= s);
    }
}

/// Every intermediate cardinality of a plan is its smallest estimate: the program's
/// own estimate is among those sorted, so the running minimum starts at the first.
pub proof fn lemma_plan_intermediate_is_minimum(
    stats: IndexStatistics,
    program_id: Pubkey,
    program_cardinality: u64,
    filters: Seq<GpaFilter>,
    i: int,
)
    requires
        0 <= i < filters.len() + 1,
    ensures
        ({
            let sorted = sort_by_cardinality(plan_estimates(stats, program_id, program_cardinality, filters));
            running_min(program_cardinality, cardinalities(sorted), i + 1) == sorted[0].1
        }),
{
    broadcast use vstd::seq_lib::group_to_multiset_ensures;

    let est = plan_estimates(stats, program_id, program_cardinality, filters);
    let sorted = sort_by_cardinality(est);
    let cards = cardinalities(sorted);
    lemma_plan_is_sorted(est);
    lemma_plan_keeps_filters(est);
    assert(est.to_multiset().count(est[0]) > 0);
    assert(sorted.to_multiset().count(est[0]) > 0);
    assert(sorted.contains(est[0]));
    let w = choose|w: int| 0 <= w < sorted.len() && sorted[w] == est[0];
    assert(sorted[0].1 <= sorted[w].1);
    assert(sorted.to_multiset().len() == sorted.len());
    assert(est.to_multiset().len() == est.len());
    assert(sorted.len() == est.len());
    lemma_running_min_sorted(program_cardinality, sorted, i + 1);
}

proof fn lemma_running_min_sorted(start: u64, sorted: Seq<(FilterKey, u64)>, n: int)
    requires
        ascending_cardinality(sorted),
        1 <= n <= sorted.len(),
        start >= sorted[0].1,
    ensures
        running_min(start, cardinalities(sorted), n) == sorted[0].1,
    decreases n,
{
    let cards = cardinalities(sorted);
    if n == 1 {
        assert(running_min(start, cards, 0) == start);
    } else {
        lemma_running_min_sorted(start, sorted, n - 1);
        assert(cards[n - 1] == sorted[n - 1].1);
        assert(sorted[0].1 <= sorted[n - 1].1);
    }
}

/// The map a list of (key, count) pairs gives, later pairs winning.
pub open spec fn list_map<K: View>(s: Seq<(K, u64)>) -> Map<K::V, u64>
    decreases s.len(),
{
    if s.len() == 0 {
        Map::empty()
    } else {
        list_map(s.drop_last()).insert(s.last().0@, s.last().1)
    }
}

/// The number of accounts of each data size of the index.
pub open spec fn size_count_map(ix: DataSizeIndex) -> Map<u64, u64> {
    Map::new(|s: u64| ix.sizes().contains_key(s), |s: u64| ix.sizes()[s].len() as u64)
}

/// The number of accounts of each discriminator of the index.
pub open spec fn discriminator_count_map(ix: DiscriminatorIndex) -> Map<Seq<u8>, u64> {
    Map::new(
        |d: Seq<u8>| ix.discriminators().contains_key(d),
        |d: Seq<u8>| ix.discriminators()[d].len() as u64,
    )
}

/// The pairs as a map, later pairs winning.
fn list_counts<K: KeyEq>(pairs: Vec<(K, u64)>) -> (m: KeyMap<K, u64>)
    ensures
        m.wf(),
        m@ == list_map(pairs@),
{
    let ghost all = pairs@;
    let mut pairs = pairs;
    let mut m: KeyMap<K, u64> = KeyMap::new();
    let mut k: usize = 0;
    let n = pairs.len();
    proof {
        assert(all.len() == n);
        assert(all.take(0) =~= Seq::<(K, u64)>::empty());
        assert(m@ =~= list_map(all.take(0)));
    }
    while pairs.len() > 0
        invariant
            m.wf(),
            all.len() <= usize::MAX,
            k + pairs@.len() == all.len(),
            pairs@ == all.skip(k as int),
            m@ == list_map(all.take(k as int)),
        decreases pairs@.len(),
    {
        proof {
            assert(pairs@[0] == all[k as int]);
        }
        let (key, count) = pairs.remove(0);
        m.insert(key, count);
        proof {
            assert(all.take(k + 1).drop_last() =~= all.take(k as int));
            assert(all.take(k + 1).last() == all[k as int]);
            assert(pairs@ =~= all.skip(k + 1));
        }
        k = k + 1;
    }
    proof {
        assert(all.take(k as int) =~= all);
    }
    m
}

/// A count as a `u64`.
fn count_u64(n: usize) -> (r: u64)
    ensures
        r == n,
{
    n as u64
}

/// The number of accounts of each data size of the index.
fn size_counts(ix: &DataSizeIndex) -> (m: HashMap<u64, u64>)
    requires
        ix.wf(),
        ix.ids().len() < usize::MAX,
    ensures
        m@ == size_count_map(*ix),
{
    let sizes = ix.get_all_sizes();
    let mut m: HashMap<u64, u64> = HashMap::new();
    let mut i: usize = 0;
    while i < sizes.len()
        invariant
            ix.wf(),
            ix.ids().len() < usize::MAX,
            i <= sizes@.len(),
            sizes@.to_set() == ix.sizes().dom(),
            m@ == Map::new(
                |s: u64| sizes@.take(i as int).contains(s),
                |s: u64| ix.sizes()[s].len() as u64,
            ),
        decreases sizes@.len() - i,
    {
        let size = sizes[i];
        proof {
            assert(sizes@.to_set().contains(size));
        }
        match ix.get_accounts_by_size(size) {
            Some(accounts) => {
                proof {
                    let l = choose|l: Seq<u64>|
                        lists_ascending(ix.sizes()[size], l) && accounts@ == l.map_values(
                            |id: u64| ix.accounts()[id],
                        );
                    lemma_lists_ascending_len(ix.sizes()[size], l);
                }
                m.insert(size, count_u64(accounts.len()));
            },
            None => {},
        }
        proof {
            assert(sizes@.take(i + 1) =~= sizes@.take(i as int).push(size));
            assert forall|x: u64| #[trigger] sizes@.take(i + 1).contains(x) <==> (sizes@.take(
                i as int,
            ).contains(x) || x == size) by {
                if sizes@.take(i + 1).contains(x) && x != size {
                    let j = choose|j: int| 0 <= j < i + 1 && #[trigger] sizes@.take(i + 1)[j] == x;
                    assert(sizes@.take(i as int)[j] == x);
                }
                if sizes@.take(i as int).contains(x) {
                    let j = choose|j: int| 0 <= j < i && #[trigger] sizes@.take(i as int)[j] == x;
                    assert(sizes@.take(i + 1)[j] == x);
                }
                if x == size {
                    assert(sizes@.take(i + 1)[i as int] == x);
                }
            }
            assert(m@ =~= Map::new(
                |s: u64| sizes@.take(i + 1).contains(s),
                |s: u64| ix.sizes()[s].len() as u64,
            ));
        }
        i = i + 1;
    }
    proof {
        assert(sizes@.take(i as int) =~= sizes@);
        assert forall|s: u64| sizes@.contains(s) <==> ix.sizes().contains_key(s) by {
            assert(sizes@.to_set().contains(s) <==> sizes@.contains(s));
        }
        assert(m@ =~= size_count_map(*ix));
    }
    m
}

/// Whether one of the first `n` discriminators has view `x`.
pub open spec fn seen(ds: Seq<[u8; 8]>, n: int, x: Seq<u8>) -> bool {
    exists|j: int| 0 <= j < n && (#[trigger] ds[j])@ == x
}

/// The number of accounts of each discriminator of the index.
fn discriminator_counts(ix: &DiscriminatorIndex) -> (m: KeyMap<[u8; 8], u64>)
    requires
        ix.wf(),
        ix.ids().len() < usize::MAX,
    ensures
        m.wf(),
        m@ == discriminator_count_map(*ix),
{
    let ds = ix.get_all_discriminators();
    let mut m: KeyMap<[u8; 8], u64> = KeyMap::new();
    let mut i: usize = 0;
    while i < ds.len()
        invariant
            ix.wf(),
            ix.ids().len() < usize::MAX,
            i <= ds@.len(),
            forall|j: int| 0 <= j < ds@.len() ==> ix.discriminators().contains_key((#[trigger] ds@[j])@),
            forall|k: Seq<u8>| #[trigger]
                ix.discriminators().contains_key(k) ==> exists|j: int| 0 <= j < ds@.len() && ds@[j]@ == k,
            m.wf(),
            m@ == Map::new(
                |d: Seq<u8>| seen(ds@, i as int, d),
                |d: Seq<u8>| ix.discriminators()[d].len() as u64,
            ),
        decreases ds@.len() - i,
    {
        let d = ds[i];
        proof {
            assert(ix.discriminators().contains_key(ds@[i as int]@));
        }
        match ix.get_accounts_by_discriminator(d) {
            Some(accounts) => {
                proof {
                    let l = choose|l: Seq<u64>|
                        lists_ascending(ix.discriminators()[d@], l) && accounts@ == l.map_values(
                            |id: u64| ix.accounts()[id],
                        );
                    lemma_lists_ascending_len(ix.discriminators()[d@], l);
                }
                m.insert(d, count_u64(accounts.len()));
            },
            None => {},
        }
        proof {
            assert forall|x: Seq<u8>| #[trigger] seen(ds@, i + 1, x) <==> (seen(ds@, i as int, x) || x == d@) by {
                if x == d@ {
                    assert(ds@[i as int]@ == x);
                }
                if seen(ds@, i + 1, x) && x != d@ {
                    let j = choose|j: int| 0 <= j < i + 1 && (#[trigger] ds@[j])@ == x;
                    assert(j < i);
                }
            }
            assert(m@ =~= Map::new(
                |x: Seq<u8>| seen(ds@, i + 1, x),
                |x: Seq<u8>| ix.discriminators()[x].len() as u64,
            ));
        }
        i = i + 1;
    }
    proof {
        assert forall|x: Seq<u8>| #[trigger] seen(ds@, i as int, x) <==> ix.discriminators().contains_key(x) by {
            if ix.discriminators().contains_key(x) {
                let j = choose|j: int| 0 <= j < ds@.len() && ds@[j]@ == x;
                assert(0 <= j < i && ds@[j]@ == x);
            }
        }
        assert(m@ =~= discriminator_count_map(*ix));
    }
    m
}

} // verus!
