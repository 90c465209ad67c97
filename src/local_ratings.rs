//! The desktop's local rating records and the labels of a rating summary.

use vstd::prelude::*;
use crate::model::Ratio;

verus! {

/// A user's rating of a domain as the desktop stores it.
#[derive(Debug, Clone)]
pub struct DomainRating {
    pub id: Option<i64>,
    pub domain_id: i64,
    pub user_id: String,
    /// 1 to 5.
    pub trust_rating: i32,
    /// 1 (left) to 4 (right).
    pub bias_rating: i32,
    pub review_text: Option<String>,
    pub created_at: String,
    pub updated_at: Option<String>,
    pub helpful_count: i32,
    pub reported: bool,
}

/// A score for one aspect of a rating, such as accuracy or sourcing.
#[derive(Debug, Clone)]
pub struct RatingCategory {
    pub id: Option<i64>,
    pub domain_rating_id: i64,
    pub category: String,
    /// 1 to 5.
    pub score: i32,
}

/// `r` is below `k / 2`.
pub open spec fn below_half(r: Ratio, k: int) -> bool {
    2 * r.numer < k * r.denom
}

/// The label of a mean trust level: below 1.5 "Very Low", below 2.5 "Low",
/// below 3.5 "Moderate", below 4.5 "High", otherwise "Very High".
pub open spec fn trust_label_of(avg: Ratio) -> Seq<char> {
    if below_half(avg, 3) {
        "Very Low"@
    } else if below_half(avg, 5) {
        "Low"@
    } else if below_half(avg, 7) {
        "Moderate"@
    } else if below_half(avg, 9) {
        "High"@
    } else {
        "Very High"@
    }
}

/// The label of a mean bias level: below 1.5 "Left", below 2.5 "Center-Left",
/// below 3.5 "Center-Right", otherwise "Right".
pub open spec fn bias_label_of(avg: Ratio) -> Seq<char> {
    if below_half(avg, 3) {
        "Left"@
    } else if below_half(avg, 5) {
        "Center-Left"@
    } else if below_half(avg, 7) {
        "Center-Right"@
    } else {
        "Right"@
    }
}

fn is_below_half(r: Ratio, k: i128) -> (b: bool)
    requires
        0 <= k <= 9,
    ensures
        b == below_half(r, k as int),
{
    let d = r.denom as i128;
    assert(-0x10_0000_0000_0000_0000 <= k * d <= 0x10_0000_0000_0000_0000) by (nonlinear_arith)
        requires
            0 <= k <= 9,
            -0x8000_0000_0000_0000 <= d <= 0x7fff_ffff_ffff_ffff,
    ;
    2 * (r.numer as i128) < k * d
}

/// The label shown for a mean trust level.
pub fn trust_label(avg: Ratio) -> (r: &'static str)
    requires
        avg.denom > 0,
    ensures
        r@ == trust_label_of(avg),
{
    if is_below_half(avg, 3) {
        "Very Low"
    } else if is_below_half(avg, 5) {
        "Low"
    } else if is_below_half(avg, 7) {
        "Moderate"
    } else if is_below_half(avg, 9) {
        "High"
    } else {
        "Very High"
    }
}

/// The label shown for a mean bias level.
pub fn bias_label(avg: Ratio) -> (r: &'static str)
    requires
        avg.denom > 0,
    ensures
        r@ == bias_label_of(avg),
{
    if is_below_half(avg, 3) {
        "Left"
    } else if is_below_half(avg, 5) {
        "Center-Left"
    } else if is_below_half(avg, 7) {
        "Center-Right"
    } else {
        "Right"
    }
}

/// Sum of the trust ratings (`trust` true) or bias ratings of a user's ratings.
pub open spec fn given_sum(ratings: Seq<DomainRating>, trust: bool) -> int
    decreases ratings.len(),
{
    if ratings.len() == 0 {
        0
    } else {
        given_sum(ratings.drop_last(), trust) + if trust {
            ratings.last().trust_rating as int
        } else {
            ratings.last().bias_rating as int
        }
    }
}

proof fn lemma_given_sum_step(ratings: Seq<DomainRating>, i: int, trust: bool)
    requires
        0 <= i < ratings.len(),
    ensures
        given_sum(ratings.take(i + 1), trust) == given_sum(ratings.take(i), trust) + if trust {
            ratings[i].trust_rating as int
        } else {
            ratings[i].bias_rating as int
        },
{
    assert(ratings.take(i + 1).drop_last() =~= ratings.take(i));
}

/// The mean trust and bias a user gave over their ratings; 3 and 5/2 when they
/// gave none.
pub fn history_means(ratings: &Vec<DomainRating>) -> (r: (Ratio, Ratio))
    requires
        ratings@.len() <= u32::MAX,
    ensures
        ratings@.len() == 0 ==> r.0 == (Ratio { numer: 3, denom: 1 }) && r.1 == (Ratio { numer: 5, denom: 2 }),
        ratings@.len() > 0 ==> r.0.denom as int == ratings@.len() && r.0.numer as int == given_sum(ratings@, true)
            && r.1.denom as int == ratings@.len() && r.1.numer as int == given_sum(ratings@, false),
{
    let n = ratings.len();
    if n == 0 {
        return (Ratio { numer: 3, denom: 1 }, Ratio { numer: 5, denom: 2 });
    }
    let mut trust: i64 = 0;
    let mut bias: i64 = 0;
    let mut i: usize = 0;
    assert(ratings@.take(0) =~= Seq::<DomainRating>::empty());
    while i < n
        invariant
            n == ratings@.len(),
            n <= u32::MAX,
            0 <= i <= n,
            trust as int == given_sum(ratings@.take(i as int), true),
            bias as int == given_sum(ratings@.take(i as int), false),
            -0x8000_0000 * i <= trust <= 0x7fff_ffff * i,
            -0x8000_0000 * i <= bias <= 0x7fff_ffff * i,
        decreases n - i,
    {
        proof {
            lemma_given_sum_step(ratings@, i as int, true);
            lemma_given_sum_step(ratings@, i as int, false);
        }
        trust = trust + ratings[i].trust_rating as i64;
        bias = bias + ratings[i].bias_rating as i64;
        i = i + 1;
    }
    assert(ratings@.take(n as int) =~= ratings@);
    (Ratio { numer: trust, denom: n as i64 }, Ratio { numer: bias, denom: n as i64 })
}

/// Ratings of the domains in one database.
pub struct RatingManager {
    db_path: String,
}

impl RatingManager {
    /// The database the ratings live in.
    pub closed spec fn path(&self) -> Seq<char> {
        self.db_path@
    }

    /// A manager for the ratings in `db_path`.
    pub fn new(db_path: String) -> (r: RatingManager)
        ensures
            r.path() == db_path@,
    {
        RatingManager { db_path }
    }
}

} // verus!
