//! The records of the rating core: requests, stored rows, aggregates and reports.
//!
//! Timestamps are whole seconds since the Unix epoch. Averages are exact
//! fractions, so that equal rating sets give identical aggregates.

use vstd::prelude::*;

verus! {

/// Lowest accepted trust level.
pub const TRUST_MIN: i32 = 1;

/// Highest accepted trust level.
pub const TRUST_MAX: i32 = 5;

/// Lowest accepted bias level (left).
pub const BIAS_MIN: i32 = 1;

/// Highest accepted bias level (right).
pub const BIAS_MAX: i32 = 4;

/// Whether a trust level and a bias level are both within their ranges.
pub open spec fn levels_valid(trust_level: int, bias_level: int) -> bool {
    TRUST_MIN <= trust_level <= TRUST_MAX && BIAS_MIN <= bias_level <= BIAS_MAX
}

/// A rating as a caller submits it.
#[derive(Debug, Clone)]
pub struct SubmitRatingRequest {
    pub domain_url: String,
    pub user_hash: String,
    pub trust_level: i32,
    pub bias_level: i32,
    pub comment: Option<String>,
}

/// A helpful / not helpful vote on a rating.
#[derive(Debug, Clone)]
pub struct VoteRequest {
    pub voter_hash: String,
    pub is_helpful: bool,
}

/// A report of an abusive or wrong rating.
#[derive(Debug, Clone)]
pub struct ReportRequest {
    pub reporter_hash: String,
    pub reason: String,
}

/// The live rating of one user for one domain.
#[derive(Debug, Clone)]
pub struct Rating {
    pub id: i64,
    pub domain_url: String,
    pub user_hash: String,
    pub trust_level: i32,
    pub bias_level: i32,
    pub comment: Option<String>,
    pub created_at: i64,
    pub updated_at: i64,
}

impl Rating {
    /// Both levels of the rating are within their ranges.
    pub open spec fn valid(&self) -> bool {
        levels_valid(self.trust_level as int, self.bias_level as int)
    }
}

/// An exact fraction `numer / denom`.
#[derive(Debug, Clone, Copy, PartialEq, Eq, Structural)]
pub struct Ratio {
    pub numer: i64,
    pub denom: i64,
}

/// Per-domain summary of the current ratings.
#[derive(Debug, Clone)]
pub struct RatingAggregate {
    pub domain_url: String,
    /// Mean trust level; 3 when the domain has no rating.
    pub avg_trust_level: Ratio,
    /// Mean bias level; 5/2 when the domain has no rating.
    pub avg_bias_level: Ratio,
    pub total_ratings: i64,
    /// Number of ratings with trust level 1, 2, 3, 4 and 5.
    pub trust_distribution: Vec<i64>,
    /// Number of ratings with bias level 1, 2, 3 and 4.
    pub bias_distribution: Vec<i64>,
    pub last_updated: i64,
}

/// What an audit entry records about a rating.
#[derive(Debug, Clone, Copy, PartialEq, Eq, Structural)]
pub enum ActionType {
    /// The first submission of a (domain, user) pair.
    Create,
    /// A later submission that overwrote the rating.
    Update,
}

impl ActionType {
    /// The stored name of the action: `create` or `update`.
    pub fn as_str(&self) -> (r: &'static str)
        ensures
            r@ == (match self {
                ActionType::Create => "create"@,
                ActionType::Update => "update"@,
            }),
    {
        match self {
            ActionType::Create => "create",
            ActionType::Update => "update",
        }
    }
}

/// A stored, immutable entry of the audit ledger.
#[derive(Debug, Clone)]
pub struct AuditRecord {
    pub id: i64,
    pub rating_id: i64,
    pub action_type: ActionType,
    pub domain_url: String,
    pub user_hash: String,
    pub trust_level: Option<i32>,
    pub bias_level: Option<i32>,
    pub comment: Option<String>,
    pub changed_at: i64,
    /// Hex-encoded SHA-256 digest of the recorded values, fixed at write time.
    pub change_hash: String,
}

/// One audit entry as an integrity report shows it.
#[derive(Debug, Clone)]
pub struct AuditEntry {
    pub id: i64,
    pub action_type: ActionType,
    pub trust_level: Option<i32>,
    pub bias_level: Option<i32>,
    pub changed_at: i64,
    /// Whether the stored hash equals the hash recomputed from the stored values.
    pub hash_valid: bool,
}

/// The verified audit trail of one rating.
#[derive(Debug, Clone)]
pub struct IntegrityReport {
    pub rating_id: i64,
    pub is_valid: bool,
    pub total_changes: i64,
    pub created_at: Option<i64>,
    pub last_modified: Option<i64>,
    pub audit_entries: Vec<AuditEntry>,
}

/// State of the stored data as a backup monitor sees it.
#[derive(Debug, Clone)]
pub struct BackupStatus {
    pub last_audit_entry: Option<i64>,
    pub total_ratings: i64,
    pub total_audit_entries: i64,
    /// Replay lag of a replica in recovery, in milliseconds; absent otherwise.
    pub replication_lag_millis: Option<i64>,
}

/// Global health of the ratings and the audit ledger.
#[derive(Debug, Clone)]
pub struct IntegrityStatus {
    pub is_healthy: bool,
    pub total_ratings: i64,
    pub total_audit_entries: i64,
    pub invalid_audit_entries: i64,
    pub orphaned_ratings: i64,
    pub checked_at: i64,
}

/// A helpfulness vote; one per (rating, voter), the last one wins.
#[derive(Debug, Clone)]
pub struct Vote {
    pub rating_id: i64,
    pub voter_hash: String,
    pub is_helpful: bool,
}

/// A report on a rating; reports are only ever appended.
#[derive(Debug, Clone)]
pub struct Report {
    pub rating_id: i64,
    pub reporter_hash: String,
    pub reason: String,
    pub reported_at: i64,
}

/// Why a request was refused.
#[derive(Debug, Clone, Copy, PartialEq, Eq, Structural)]
pub enum RatingError {
    /// A trust or bias level is out of range.
    Validation,
    /// The domain or rating is unknown.
    NotFound,
}

/// An identical copy of an optional text.
pub(crate) fn copy_text(o: &Option<String>) -> (r: Option<String>)
    ensures
        r == *o,
{
    match o {
        Some(s) => Some(s.clone()),
        None => None,
    }
}

/// An identical copy of a stored record.
pub(crate) fn copy_record(rec: &AuditRecord) -> (r: AuditRecord)
    ensures
        r == *rec,
{
    AuditRecord {
        id: rec.id,
        rating_id: rec.rating_id,
        action_type: rec.action_type,
        domain_url: rec.domain_url.clone(),
        user_hash: rec.user_hash.clone(),
        trust_level: rec.trust_level,
        bias_level: rec.bias_level,
        comment: copy_text(&rec.comment),
        changed_at: rec.changed_at,
        change_hash: rec.change_hash.clone(),
    }
}

/// An identical copy of a rating.
pub(crate) fn copy_rating(r: &Rating) -> (c: Rating)
    ensures
        c == *r,
{
    Rating {
        id: r.id,
        domain_url: r.domain_url.clone(),
        user_hash: r.user_hash.clone(),
        trust_level: r.trust_level,
        bias_level: r.bias_level,
        comment: copy_text(&r.comment),
        created_at: r.created_at,
        updated_at: r.updated_at,
    }
}

/// An identical copy of an aggregate.
pub(crate) fn copy_aggregate(a: &RatingAggregate) -> (c: RatingAggregate)
    ensures
        c.domain_url == a.domain_url,
        c.avg_trust_level == a.avg_trust_level,
        c.avg_bias_level == a.avg_bias_level,
        c.total_ratings == a.total_ratings,
        c.trust_distribution@ == a.trust_distribution@,
        c.bias_distribution@ == a.bias_distribution@,
        c.last_updated == a.last_updated,
{
    let mut trust: Vec<i64> = Vec::new();
    let mut i: usize = 0;
    while i < a.trust_distribution.len()
        invariant
            0 <= i <= a.trust_distribution@.len(),
            trust@ == a.trust_distribution@.take(i as int),
        decreases a.trust_distribution@.len() - i,
    {
        trust.push(a.trust_distribution[i]);
        i = i + 1;
        assert(trust@ =~= a.trust_distribution@.take(i as int));
    }
    let mut bias: Vec<i64> = Vec::new();
    let mut j: usize = 0;
    while j < a.bias_distribution.len()
        invariant
            0 <= j <= a.bias_distribution@.len(),
            bias@ == a.bias_distribution@.take(j as int),
        decreases a.bias_distribution@.len() - j,
    {
        bias.push(a.bias_distribution[j]);
        j = j + 1;
        assert(bias@ =~= a.bias_distribution@.take(j as int));
    }
    assert(trust@ =~= a.trust_distribution@);
    assert(bias@ =~= a.bias_distribution@);
    RatingAggregate {
        domain_url: a.domain_url.clone(),
        avg_trust_level: a.avg_trust_level,
        avg_bias_level: a.avg_bias_level,
        total_ratings: a.total_ratings,
        trust_distribution: trust,
        bias_distribution: bias,
        last_updated: a.last_updated,
    }
}

} // verus!
