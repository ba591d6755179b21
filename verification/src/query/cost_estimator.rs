//! Cost estimates of getProgramAccounts queries from the program's bitmap and the
//! filters applied.
use crate::bitmap::PubkeyBitmap;
use vstd::prelude::*;

verus! {

/// Cost breakdown.
#[derive(Debug, Clone, Copy, PartialEq, Eq, Structural)]
pub struct QueryCostComponents {
    /// Fixed overhead.
    pub base_cost: u64,
    /// Bitmap intersections.
    pub intersection_cost: u64,
    /// Fetching the results.
    pub fetch_cost: u64,
    /// Memcmp comparisons.
    pub filter_cost: u64,
}

/// A query cost estimate.
#[derive(Debug, Clone, Copy, PartialEq, Eq, Structural)]
pub struct QueryCostEstimate {
    /// Total cost, in arbitrary units.
    pub total_cost: u64,
    /// Estimated number of results.
    pub estimated_cardinality: u64,
    /// Estimated time in microseconds (one unit per microsecond).
    pub estimated_time_us: u64,
    pub components: QueryCostComponents,
    /// Whether the results are better streamed (more than 1000 expected).
    pub should_stream: bool,
}

/// Estimates query costs.
pub struct QueryCostEstimator {
    base_cost: u64,
    intersection_cost_per_bitmap: u64,
    fetch_cost_per_account: u64,
}

/// `b` to the power `e`.
pub open spec fn pow_nat(b: nat, e: nat) -> nat
    decreases e,
{
    if e == 0 {
        1
    } else {
        b * pow_nat(b, (e - 1) as nat)
    }
}

/// The reciprocal of the filters' combined selectivity: each dataSize filter keeps
/// 10%, each memcmp filter 5%, a discriminator filter 1%.
pub open spec fn selectivity_divisor(data_size_filters: nat, bytes_filters: nat, discriminator: bool) -> nat {
    pow_nat(10, data_size_filters) * pow_nat(20, bytes_filters) * (if discriminator {
        100nat
    } else {
        1nat
    })
}

/// The accounts expected to pass the filters: the program's accounts times the
/// selectivity, rounded up.
pub open spec fn estimated_cardinality(
    base: nat,
    data_size_filters: nat,
    bytes_filters: nat,
    discriminator: bool,
) -> nat {
    let d = selectivity_divisor(data_size_filters, bytes_filters, discriminator) as int;
    ((base + d - 1) / d) as nat
}

proof fn lemma_pow_positive(b: nat, e: nat)
    requires
        b >= 1,
    ensures
        pow_nat(b, e) >= 1,
    decreases e,
{
    if e > 0 {
        lemma_pow_positive(b, (e - 1) as nat);
        assert(b * pow_nat(b, (e - 1) as nat) >= 1) by (nonlinear_arith)
            requires
                b >= 1,
                pow_nat(b, (e - 1) as nat) >= 1,
        ;
    }
}

proof fn lemma_pow_monotone(b: nat, e1: nat, e2: nat)
    requires
        b >= 1,
        e1 <= e2,
    ensures
        pow_nat(b, e1) <= pow_nat(b, e2),
    decreases e2,
{
    if e1 < e2 {
        lemma_pow_monotone(b, e1, (e2 - 1) as nat);
        lemma_pow_positive(b, (e2 - 1) as nat);
        assert(pow_nat(b, (e2 - 1) as nat) <= b * pow_nat(b, (e2 - 1) as nat)) by (nonlinear_arith)
            requires
                b >= 1,
        ;
    }
}

/// The rounded-up quotient `q` of `base` by `d` is the least `q` with `q * d >= base`.
proof fn lemma_ceil_div(base: nat, d: int, q: int)
    requires
        d >= 1,
        q >= 0,
        q * d >= base,
    ensures
        (base + d - 1) / d <= q,
        (base + d - 1) / d >= 0,
{
    let c = (base + d - 1) / d;
    assert(c * d <= base + d - 1) by (nonlinear_arith)
        requires
            d >= 1,
            c == (base + d - 1) / d,
            base >= 0,
    ;
    assert(c <= q) by (nonlinear_arith)
        requires
            c * d <= base + d - 1,
            q * d >= base,
            d >= 1,
    ;
}

/// Each dataSize filter keeps a tenth of the accounts, each memcmp filter a
/// twentieth, and a discriminator filter a hundredth: the divisor is 1 with no filter,
/// and each filter multiplies it by its factor.
pub proof fn lemma_selectivity_factors(d: nat, b: nat, disc: bool)
    ensures
        selectivity_divisor(0, 0, false) == 1,
        selectivity_divisor(d + 1, b, disc) == 10 * selectivity_divisor(d, b, disc),
        selectivity_divisor(d, b + 1, disc) == 20 * selectivity_divisor(d, b, disc),
        selectivity_divisor(d, b, true) == 100 * selectivity_divisor(d, b, false),
{
    let x = pow_nat(10, d);
    let y = pow_nat(20, b);
    assert(pow_nat(10, 0) == 1);
    assert(pow_nat(20, 0) == 1);
    assert(pow_nat(10, d + 1) == 10 * x);
    assert(pow_nat(20, b + 1) == 20 * y);
    assert(10 * x * y * 1 == 10 * (x * y * 1)) by (nonlinear_arith);
    assert(10 * x * y * 100 == 10 * (x * y * 100)) by (nonlinear_arith);
    assert(x * (20 * y) * 1 == 20 * (x * y * 1)) by (nonlinear_arith);
    assert(x * (20 * y) * 100 == 20 * (x * y * 100)) by (nonlinear_arith);
    assert(x * y * 100 == 100 * (x * y * 1)) by (nonlinear_arith);
}

/// The estimate is the program's accounts over the divisor, rounded up: the least
/// count that, times the divisor, reaches the accounts.
pub proof fn lemma_estimate_rounds_up(base: nat, d: nat, b: nat, disc: bool)
    ensures
        estimated_cardinality(base, d, b, disc) * selectivity_divisor(d, b, disc) >= base,
        estimated_cardinality(base, d, b, disc) == 0 || (estimated_cardinality(base, d, b, disc) - 1)
            * selectivity_divisor(d, b, disc) < base,
{
    lemma_pow_positive(10, d);
    lemma_pow_positive(20, b);
    let s1 = selectivity_divisor(d, b, disc) as int;
    assert(s1 >= 1) by (nonlinear_arith)
        requires
            s1 == pow_nat(10, d) * pow_nat(20, b) * (if disc { 100nat } else { 1nat }),
            pow_nat(10, d) >= 1,
            pow_nat(20, b) >= 1,
    ;
    let c = (base + s1 - 1) / s1;
    assert(c * s1 >= base && (c == 0 || (c - 1) * s1 < base)) by (nonlinear_arith)
        requires
            s1 >= 1,
            c == (base + s1 - 1) / s1,
            base >= 0,
    ;
}

/// The estimate never exceeds the program's accounts, and adding filters of any kind
/// never raises it.
pub proof fn lemma_estimate_bounded_and_falls(
    base: nat,
    d1: nat,
    b1: nat,
    disc1: bool,
    d2: nat,
    b2: nat,
    disc2: bool,
)
    requires
        d1 <= d2,
        b1 <= b2,
        disc1 ==> disc2,
    ensures
        estimated_cardinality(base, d1, b1, disc1) <= base,
        estimated_cardinality(base, d2, b2, disc2) <= estimated_cardinality(base, d1, b1, disc1),
{
    lemma_pow_positive(10, d1);
    lemma_pow_positive(20, b1);
    lemma_pow_monotone(10, d1, d2);
    lemma_pow_monotone(20, b1, b2);
    let x1 = pow_nat(10, d1);
    let y1 = pow_nat(20, b1);
    let z1: nat = if disc1 { 100 } else { 1 };
    let x2 = pow_nat(10, d2);
    let y2 = pow_nat(20, b2);
    let z2: nat = if disc2 { 100 } else { 1 };
    let s1 = selectivity_divisor(d1, b1, disc1) as int;
    let s2 = selectivity_divisor(d2, b2, disc2) as int;
    assert(s1 == x1 * y1 * z1);
    assert(s2 == x2 * y2 * z2);
    assert(1 <= s1 <= s2) by (nonlinear_arith)
        requires
            1 <= x1 <= x2,
            1 <= y1 <= y2,
            1 <= z1 <= z2,
            s1 == x1 * y1 * z1,
            s2 == x2 * y2 * z2,
    ;
    assert(base * s1 >= base) by (nonlinear_arith)
        requires
            s1 >= 1,
    ;
    lemma_ceil_div(base, s1, base as int);
    let c1 = (base + s1 - 1) / s1;
    assert(c1 * s1 >= base) by (nonlinear_arith)
        requires
            s1 >= 1,
            c1 == (base + s1 - 1) / s1,
    ;
    assert(c1 * s2 >= base) by (nonlinear_arith)
        requires
            c1 * s1 >= base,
            c1 >= 0,
            s1 <= s2,
    ;
    lemma_ceil_div(base, s2, c1);
}

/// Multiplies the capped divisor by `factor`, keeping it exact while it does not
/// exceed `base`.
fn scale_divisor(den: u128, factor: u128, base: u64, Ghost(full): Ghost<nat>) -> (r: u128)
    requires
        1 <= factor <= 100,
        1 <= full,
        den <= base ==> den == full,
        den > base ==> full > base,
        den <= 100 * (base as int + 1),
    ensures
        r <= base ==> r == full * factor,
        r > base ==> full * factor > base,
        r <= 100 * (base as int + 1),
{
    if den <= base as u128 {
        assert(den * factor <= 100 * (base as int + 1)) by (nonlinear_arith)
            requires
                den <= base,
                factor <= 100,
        ;
        den * factor
    } else {
        assert(full * factor >= full) by (nonlinear_arith)
            requires
                factor >= 1,
                full >= 1,
        ;
        den
    }
}

impl QueryCostEstimator {
    pub closed spec fn spec_base_cost(&self) -> u64 {
        self.base_cost
    }

    pub closed spec fn spec_intersection_cost(&self) -> u64 {
        self.intersection_cost_per_bitmap
    }

    pub closed spec fn spec_fetch_cost(&self) -> u64 {
        self.fetch_cost_per_account
    }

    /// An estimator with base cost 100, 10 per bitmap intersected and 1 per account fetched.
    pub fn new() -> (e: Self)
        ensures
            e.spec_base_cost() == 100,
            e.spec_intersection_cost() == 10,
            e.spec_fetch_cost() == 1,
    {
        QueryCostEstimator { base_cost: 100, intersection_cost_per_bitmap: 10, fetch_cost_per_account: 1 }
    }

    /// The estimate for `base` candidate accounts and the given filters.
    pub open spec fn estimate_spec(
        &self,
        base: nat,
        data_size_filters: nat,
        bytes_filters: nat,
        discriminator: bool,
    ) -> (int, int, int, int) {
        let card = estimated_cardinality(base, data_size_filters, bytes_filters, discriminator);
        let intersections = 1 + data_size_filters + bytes_filters + (if discriminator {
            1int
        } else {
            0int
        });
        let intersection_cost: int = intersections * self.spec_intersection_cost();
        let fetch_cost: int = card * self.spec_fetch_cost();
        let filter_cost: int = (bytes_filters * card * 10) as int;
        (intersection_cost, fetch_cost, filter_cost, self.spec_base_cost() + intersection_cost
            + fetch_cost + filter_cost)
    }

    /// Estimated cardinality for `base` candidates: `base` divided by the selectivity
    /// divisor, rounded up.
    fn estimate_cardinality_of(
        &self,
        base: u64,
        num_data_size_filters: usize,
        num_bytes_filters: usize,
        has_discriminator_filter: bool,
    ) -> (c: u64)
        ensures
            c == estimated_cardinality(
                base as nat,
                num_data_size_filters as nat,
                num_bytes_filters as nat,
                has_discriminator_filter,
            ),
    {
        let ghost mut full: nat = 1;
        let mut den: u128 = 1;
        let mut i: usize = 0;
        while i < num_data_size_filters
            invariant
                i <= num_data_size_filters,
                full == pow_nat(10, i as nat),
                full >= 1,
                den <= base ==> den == full,
                den > base ==> full > base,
                den <= 100 * (base as int + 1),
            decreases num_data_size_filters - i,
        {
            den = scale_divisor(den, 10, base, Ghost(full));
            proof {
                assert(full * 10 == pow_nat(10, (i + 1) as nat)) by (nonlinear_arith)
                    requires
                        full == pow_nat(10, i as nat),
                        pow_nat(10, (i + 1) as nat) == 10 * pow_nat(10, i as nat),
                ;
                full = full * 10;
            }
            i = i + 1;
        }
        let ghost p10 = full;
        proof {
            assert(pow_nat(20, 0) == 1);
            assert(full == p10 * pow_nat(20, 0));
        }
        let mut j: usize = 0;
        while j < num_bytes_filters
            invariant
                j <= num_bytes_filters,
                p10 == pow_nat(10, num_data_size_filters as nat),
                full == p10 * pow_nat(20, j as nat),
                full >= 1,
                den <= base ==> den == full,
                den > base ==> full > base,
                den <= 100 * (base as int + 1),
            decreases num_bytes_filters - j,
        {
            den = scale_divisor(den, 20, base, Ghost(full));
            proof {
                assert(full * 20 == p10 * pow_nat(20, (j + 1) as nat)) by (nonlinear_arith)
                    requires
                        full == p10 * pow_nat(20, j as nat),
                        pow_nat(20, (j + 1) as nat) == 20 * pow_nat(20, j as nat),
                ;
                full = full * 20;
            }
            j = j + 1;
        }
        if has_discriminator_filter {
            den = scale_divisor(den, 100, base, Ghost(full));
            proof {
                full = full * 100;
            }
        }
        proof {
            assert(full == selectivity_divisor(
                num_data_size_filters as nat,
                num_bytes_filters as nat,
                has_discriminator_filter,
            ));
        }
        if base == 0 {
            proof {
                assert((full - 1) / (full as int) == 0) by (nonlinear_arith)
                    requires
                        full >= 1,
                ;
            }
            0
        } else if den > base as u128 {
            proof {
                assert((base + full - 1) / (full as int) == 1) by (nonlinear_arith)
                    requires
                        full > base,
                        base >= 1,
                ;
            }
            1
        } else {
            let b = base as u128;
            let c = (b + den - 1) / den;
            proof {
                assert(c <= b) by (nonlinear_arith)
                    requires
                        c == (b + den - 1) / (den as int),
                        den >= 1,
                        b >= 1,
                ;
            }
            c as u64
        }
    }

    /// The cost estimate of a query over the program's accounts with the given
    /// filters (see `estimate_spec`); streaming is advised above 1000 results.
    pub fn estimate_get_program_accounts(
        &self,
        program_bitmap: &PubkeyBitmap,
        num_data_size_filters: usize,
        num_bytes_filters: usize,
        has_discriminator_filter: bool,
    ) -> (e: QueryCostEstimate)
        requires
            program_bitmap.wf(),
            1 + num_data_size_filters + num_bytes_filters + (if has_discriminator_filter {
                1int
            } else {
                0int
            }) <= usize::MAX,
            self.estimate_spec(
                program_bitmap@.len(),
                num_data_size_filters as nat,
                num_bytes_filters as nat,
                has_discriminator_filter,
            ).3 <= u64::MAX,
        ensures
            ({
                let (ic, fc, flc, total) = self.estimate_spec(
                    program_bitmap@.len(),
                    num_data_size_filters as nat,
                    num_bytes_filters as nat,
                    has_discriminator_filter,
                );
                let card = estimated_cardinality(
                    program_bitmap@.len(),
                    num_data_size_filters as nat,
                    num_bytes_filters as nat,
                    has_discriminator_filter,
                );
                &&& e.estimated_cardinality == card
                &&& e.components == (QueryCostComponents {
                    base_cost: self.spec_base_cost(),
                    intersection_cost: ic as u64,
                    fetch_cost: fc as u64,
                    filter_cost: flc as u64,
                })
                &&& e.total_cost == total
                &&& e.estimated_time_us == total
                &&& e.should_stream == (card > 1000)
            }),
            e.estimated_cardinality <= program_bitmap@.len(),
            e.components.base_cost == self.spec_base_cost(),
            e.components.intersection_cost == (1 + num_data_size_filters + num_bytes_filters + (if has_discriminator_filter {
                1int
            } else {
                0int
            })) * self.spec_intersection_cost(),
            e.components.fetch_cost == e.estimated_cardinality * self.spec_fetch_cost(),
            e.components.filter_cost == num_bytes_filters * e.estimated_cardinality * 10,
            e.total_cost == e.components.base_cost + e.components.intersection_cost + e.components.fetch_cost
                + e.components.filter_cost,
            e.estimated_time_us == e.total_cost,
            e.should_stream == (e.estimated_cardinality > 1000),
            e.estimated_cardinality * selectivity_divisor(
                num_data_size_filters as nat,
                num_bytes_filters as nat,
                has_discriminator_filter,
            ) >= program_bitmap@.len(),
            e.estimated_cardinality == 0 || (e.estimated_cardinality - 1) * selectivity_divisor(
                num_data_size_filters as nat,
                num_bytes_filters as nat,
                has_discriminator_filter,
            ) < program_bitmap@.len(),
    {
        proof {
            lemma_estimate_rounds_up(
                program_bitmap@.len(),
                num_data_size_filters as nat,
                num_bytes_filters as nat,
                has_discriminator_filter,
            );
            lemma_estimate_bounded_and_falls(
                program_bitmap@.len(),
                num_data_size_filters as nat,
                num_bytes_filters as nat,
                has_discriminator_filter,
                num_data_size_filters as nat,
                num_bytes_filters as nat,
                has_discriminator_filter,
            );
        }
        let base = program_bitmap.len();
        let card = self.estimate_cardinality_of(
            base,
            num_data_size_filters,
            num_bytes_filters,
            has_discriminator_filter,
        );
        let ghost (gic, gfc, gflc, gtotal) = self.estimate_spec(
            base as nat,
            num_data_size_filters as nat,
            num_bytes_filters as nat,
            has_discriminator_filter,
        );
        proof {
            assert(0 <= gic && 0 <= gfc && 0 <= gflc) by (nonlinear_arith)
                requires
                    gic == (1 + num_data_size_filters + num_bytes_filters + (if has_discriminator_filter {
                        1int
                    } else {
                        0int
                    })) * self.spec_intersection_cost(),
                    gfc == card * self.spec_fetch_cost(),
                    gflc == num_bytes_filters * card * 10,
            ;
            assert(gtotal == self.spec_base_cost() + gic + gfc + gflc);
        }
        let num_intersections: u64 = 1 + num_data_size_filters as u64 + num_bytes_filters as u64 + if has_discriminator_filter {
            1
        } else {
            0
        };
        let intersection_cost = num_intersections * self.intersection_cost_per_bitmap;
        let fetch_cost = card * self.fetch_cost_per_account;
        let filter_cost = (num_bytes_filters as u64) * card * 10;
        let total_cost = self.base_cost + intersection_cost + fetch_cost + filter_cost;
        QueryCostEstimate {
            total_cost,
            estimated_cardinality: card,
            estimated_time_us: total_cost,
            components: QueryCostComponents {
                base_cost: self.base_cost,
                intersection_cost,
                fetch_cost,
                filter_cost,
            },
            should_stream: card > 1000,
        }
    }
}

impl Default for QueryCostEstimator {
    fn default() -> (e: Self)
        ensures
            e.spec_base_cost() == 100,
            e.spec_intersection_cost() == 10,
            e.spec_fetch_cost() == 1,
    {
        Self::new()
    }
}

} // verus!
