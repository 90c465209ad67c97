//! The aggregate engine: per-domain statistics recomputed from the current ratings.

use vstd::prelude::*;
use crate::model::{Rating, RatingAggregate, Ratio};

verus! {

/// What a rating contributes to one statistic.
pub enum Measure {
    /// One per rating.
    Rows,
    /// The trust level.
    TrustSum,
    /// The bias level.
    BiasSum,
    /// One when the trust level is the given level.
    TrustAt(int),
    /// One when the bias level is the given level.
    BiasAt(int),
}

/// The contribution of one rating to a statistic.
pub open spec fn weight(r: Rating, m: Measure) -> int {
    match m {
        Measure::Rows => 1,
        Measure::TrustSum => r.trust_level as int,
        Measure::BiasSum => r.bias_level as int,
        Measure::TrustAt(k) => if r.trust_level as int == k { 1 } else { 0 },
        Measure::BiasAt(k) => if r.bias_level as int == k { 1 } else { 0 },
    }
}

/// A statistic summed over the ratings of one domain.
pub open spec fn tally(rows: Seq<Rating>, domain: Seq<char>, m: Measure) -> int
    decreases rows.len(),
{
    if rows.len() == 0 {
        0
    } else {
        tally(rows.drop_last(), domain, m) + if rows.last().domain_url@ == domain {
            weight(rows.last(), m)
        } else {
            0
        }
    }
}

/// Every rating has both levels within range.
pub open spec fn all_valid(rows: Seq<Rating>) -> bool {
    forall|i: int| 0 <= i < rows.len() ==> #[trigger] rows[i].valid()
}

/// Largest number of ratings whose statistics fit the aggregate's counters.
pub open spec fn counters_fit(n: int) -> bool {
    n <= i64::MAX / 8
}

/// The mean of a statistic over `total` ratings, or the neutral value when there is none.
pub open spec fn mean_or(sum: int, total: int, neutral: Ratio) -> Ratio {
    if total == 0 {
        neutral
    } else {
        Ratio { numer: sum as i64, denom: total as i64 }
    }
}

/// Neutral trust shown for a domain without ratings: 3.
pub open spec fn neutral_trust() -> Ratio {
    Ratio { numer: 3, denom: 1 }
}

/// Neutral bias shown for a domain without ratings: 5/2.
pub open spec fn neutral_bias() -> Ratio {
    Ratio { numer: 5, denom: 2 }
}

/// `a` holds exactly the statistics of `domain` over `rows`.
pub open spec fn describes(a: RatingAggregate, rows: Seq<Rating>, domain: Seq<char>) -> bool {
    let total = tally(rows, domain, Measure::Rows);
    &&& a.domain_url@ == domain
    &&& a.total_ratings as int == total
    &&& a.trust_distribution@.len() == 5
    &&& a.bias_distribution@.len() == 4
    &&& forall|k: int|
        0 <= k < 5 ==> #[trigger] a.trust_distribution@[k] as int == tally(
            rows,
            domain,
            Measure::TrustAt(k + 1),
        )
    &&& forall|k: int|
        0 <= k < 4 ==> #[trigger] a.bias_distribution@[k] as int == tally(
            rows,
            domain,
            Measure::BiasAt(k + 1),
        )
    &&& a.avg_trust_level == mean_or(tally(rows, domain, Measure::TrustSum), total, neutral_trust())
    &&& a.avg_bias_level == mean_or(tally(rows, domain, Measure::BiasSum), total, neutral_bias())
}

/// Sum of a sequence of counters.
pub open spec fn sum_of(s: Seq<i64>) -> int
    decreases s.len(),
{
    if s.len() == 0 {
        0
    } else {
        sum_of(s.drop_last()) + s.last() as int
    }
}

proof fn lemma_tally_step(rows: Seq<Rating>, domain: Seq<char>, i: int, m: Measure)
    requires
        0 <= i < rows.len(),
    ensures
        tally(rows.take(i + 1), domain, m) == tally(rows.take(i), domain, m) + if rows[i].domain_url@
            == domain {
            weight(rows[i], m)
        } else {
            0
        },
{
    assert(rows.take(i + 1).drop_last() =~= rows.take(i));
}

proof fn lemma_tally_bounds(rows: Seq<Rating>, domain: Seq<char>)
    requires
        all_valid(rows),
    ensures
        0 <= tally(rows, domain, Measure::Rows) <= rows.len(),
        0 <= tally(rows, domain, Measure::TrustSum) <= 5 * rows.len(),
        0 <= tally(rows, domain, Measure::BiasSum) <= 4 * rows.len(),
        tally(rows, domain, Measure::Rows) <= tally(rows, domain, Measure::TrustSum),
        tally(rows, domain, Measure::Rows) <= tally(rows, domain, Measure::BiasSum),
    decreases rows.len(),
{
    if rows.len() > 0 {
        let init = rows.drop_last();
        assert(all_valid(init)) by {
            assert forall|i: int| 0 <= i < init.len() implies #[trigger] init[i].valid() by {
                assert(init[i] == rows[i]);
            }
        }
        lemma_tally_bounds(init, domain);
        assert(rows.last().valid());
    }
}

/// Over valid ratings, the trust distribution and the bias distribution each
/// count every rating of the domain exactly once.
pub proof fn lemma_distributions_partition(rows: Seq<Rating>, domain: Seq<char>)
    requires
        all_valid(rows),
    ensures
        tally(rows, domain, Measure::TrustAt(1)) + tally(rows, domain, Measure::TrustAt(2))
            + tally(rows, domain, Measure::TrustAt(3)) + tally(rows, domain, Measure::TrustAt(4))
            + tally(rows, domain, Measure::TrustAt(5)) == tally(rows, domain, Measure::Rows),
        tally(rows, domain, Measure::BiasAt(1)) + tally(rows, domain, Measure::BiasAt(2))
            + tally(rows, domain, Measure::BiasAt(3)) + tally(rows, domain, Measure::BiasAt(4))
            == tally(rows, domain, Measure::Rows),
    decreases rows.len(),
{
    if rows.len() > 0 {
        let init = rows.drop_last();
        assert(all_valid(init)) by {
            assert forall|i: int| 0 <= i < init.len() implies #[trigger] init[i].valid() by {
                assert(init[i] == rows[i]);
            }
        }
        lemma_distributions_partition(init, domain);
        assert(rows.last().valid());
    }
}

/// Sum property: in an aggregate over valid ratings, the trust distribution and
/// the bias distribution both add up to the number of ratings.
pub proof fn lemma_aggregate_sums(a: RatingAggregate, rows: Seq<Rating>, domain: Seq<char>)
    requires
        all_valid(rows),
        describes(a, rows, domain),
    ensures
        sum_of(a.trust_distribution@) == a.total_ratings as int,
        sum_of(a.bias_distribution@) == a.total_ratings as int,
{
    lemma_distributions_partition(rows, domain);
    let t = a.trust_distribution@;
    let b = a.bias_distribution@;
    assert(t[0] as int == tally(rows, domain, Measure::TrustAt(1)));
    assert(t[1] as int == tally(rows, domain, Measure::TrustAt(2)));
    assert(t[2] as int == tally(rows, domain, Measure::TrustAt(3)));
    assert(t[3] as int == tally(rows, domain, Measure::TrustAt(4)));
    assert(t[4] as int == tally(rows, domain, Measure::TrustAt(5)));
    assert(b[0] as int == tally(rows, domain, Measure::BiasAt(1)));
    assert(b[1] as int == tally(rows, domain, Measure::BiasAt(2)));
    assert(b[2] as int == tally(rows, domain, Measure::BiasAt(3)));
    assert(b[3] as int == tally(rows, domain, Measure::BiasAt(4)));
    reveal_with_fuel(sum_of, 6);
    assert(t.drop_last().drop_last().drop_last().drop_last().drop_last().len() == 0);
    assert(b.drop_last().drop_last().drop_last().drop_last().len() == 0);
}

/// Idempotence: two recomputations over the same ratings agree on every
/// statistic; only the timestamp they carry may differ.
pub proof fn lemma_recompute_idempotent(
    a1: RatingAggregate,
    a2: RatingAggregate,
    rows: Seq<Rating>,
    domain: Seq<char>,
)
    requires
        describes(a1, rows, domain),
        describes(a2, rows, domain),
    ensures
        a1.domain_url@ == a2.domain_url@,
        a1.avg_trust_level == a2.avg_trust_level,
        a1.avg_bias_level == a2.avg_bias_level,
        a1.total_ratings == a2.total_ratings,
        a1.trust_distribution@ == a2.trust_distribution@,
        a1.bias_distribution@ == a2.bias_distribution@,
{
    assert(a1.trust_distribution@ =~= a2.trust_distribution@) by {
        assert forall|k: int| 0 <= k < 5 implies a1.trust_distribution@[k] == a2.trust_distribution@[k] by {
            assert(a1.trust_distribution@[k] as int == tally(rows, domain, Measure::TrustAt(k + 1)));
            assert(a2.trust_distribution@[k] as int == tally(rows, domain, Measure::TrustAt(k + 1)));
        }
    }
    assert(a1.bias_distribution@ =~= a2.bias_distribution@) by {
        assert forall|k: int| 0 <= k < 4 implies a1.bias_distribution@[k] == a2.bias_distribution@[k] by {
            assert(a1.bias_distribution@[k] as int == tally(rows, domain, Measure::BiasAt(k + 1)));
            assert(a2.bias_distribution@[k] as int == tally(rows, domain, Measure::BiasAt(k + 1)));
        }
    }
}

/// Recomputes the statistics of `domain_url` from scratch over `ratings`,
/// stamped with `now`.
pub fn compute_aggregate(ratings: &Vec<Rating>, domain_url: &String, now: i64) -> (r:
    RatingAggregate)
    requires
        all_valid(ratings@),
        counters_fit(ratings@.len() as int),
    ensures
        describes(r, ratings@, domain_url@),
        r.last_updated == now,
{
    let n = ratings.len();
    let mut total: i64 = 0;
    let mut trust_sum: i64 = 0;
    let mut bias_sum: i64 = 0;
    let mut trust: Vec<i64> = vec![0, 0, 0, 0, 0];
    let mut bias: Vec<i64> = vec![0, 0, 0, 0];
    let ghost rows = ratings@;
    let ghost d = domain_url@;
    assert(rows.take(0) =~= Seq::<Rating>::empty());
    let mut i: usize = 0;
    while i < n
        invariant
            n == rows.len(),
            rows == ratings@,
            d == domain_url@,
            all_valid(rows),
            counters_fit(n as int),
            0 <= i <= n,
            trust@.len() == 5,
            bias@.len() == 4,
            total as int == tally(rows.take(i as int), d, Measure::Rows),
            trust_sum as int == tally(rows.take(i as int), d, Measure::TrustSum),
            bias_sum as int == tally(rows.take(i as int), d, Measure::BiasSum),
            forall|k: int|
                0 <= k < 5 ==> #[trigger] trust@[k] as int == tally(
                    rows.take(i as int),
                    d,
                    Measure::TrustAt(k + 1),
                ),
            forall|k: int|
                0 <= k < 4 ==> #[trigger] bias@[k] as int == tally(
                    rows.take(i as int),
                    d,
                    Measure::BiasAt(k + 1),
                ),
            forall|k: int| 0 <= k < 5 ==> 0 <= #[trigger] trust@[k] <= i,
            forall|k: int| 0 <= k < 4 ==> 0 <= #[trigger] bias@[k] <= i,
        decreases n - i,
    {
        let ghost prefix = rows.take(i as int);
        proof {
            assert(all_valid(prefix)) by {
                assert forall|j: int| 0 <= j < prefix.len() implies #[trigger] prefix[j].valid() by {
                    assert(prefix[j] == rows[j]);
                }
            }
            lemma_tally_bounds(prefix, d);
            assert forall|m: Measure|
                tally(rows.take(i + 1), d, m) == tally(prefix, d, m) + if #[trigger] rows[i as int].domain_url@ == d {
                    weight(rows[i as int], m)
                } else {
                    0
                } by {
                lemma_tally_step(rows, d, i as int, m);
            }
            assert(rows[i as int].valid());
        }
        let r = &ratings[i];
        if r.domain_url == *domain_url {
            let t = (r.trust_level - 1) as usize;
            let b = (r.bias_level - 1) as usize;
            total = total + 1;
            trust_sum = trust_sum + r.trust_level as i64;
            bias_sum = bias_sum + r.bias_level as i64;
            let tv = trust[t] + 1;
            trust.set(t, tv);
            let bv = bias[b] + 1;
            bias.set(b, bv);
        }
        i = i + 1;
        proof {
            assert forall|k: int| 0 <= k < 5 implies #[trigger] trust@[k] as int == tally(
                rows.take(i as int),
                d,
                Measure::TrustAt(k + 1),
            ) by {
                let m = Measure::TrustAt(k + 1);
                assert(tally(rows.take(i as int), d, m) == tally(prefix, d, m) + if rows[i - 1].domain_url@ == d {
                    weight(rows[i - 1], m)
                } else {
                    0
                });
            }
            assert forall|k: int| 0 <= k < 4 implies #[trigger] bias@[k] as int == tally(
                rows.take(i as int),
                d,
                Measure::BiasAt(k + 1),
            ) by {
                let m = Measure::BiasAt(k + 1);
                assert(tally(rows.take(i as int), d, m) == tally(prefix, d, m) + if rows[i - 1].domain_url@ == d {
                    weight(rows[i - 1], m)
                } else {
                    0
                });
            }
        }
    }
    assert(rows.take(n as int) =~= rows);
    let avg_trust = if total == 0 {
        Ratio { numer: 3, denom: 1 }
    } else {
        Ratio { numer: trust_sum, denom: total }
    };
    let avg_bias = if total == 0 {
        Ratio { numer: 5, denom: 2 }
    } else {
        Ratio { numer: bias_sum, denom: total }
    };
    RatingAggregate {
        domain_url: domain_url.clone(),
        avg_trust_level: avg_trust,
        avg_bias_level: avg_bias,
        total_ratings: total,
        trust_distribution: trust,
        bias_distribution: bias,
        last_updated: now,
    }
}

} // verus!
