//! The rating store: one live rating per (domain, user), an append-only audit
//! ledger, the per-domain aggregates, and the moderation signals.
//!
//! A submission validates the levels, upserts the rating, appends one audit
//! entry and recomputes the domain's aggregate as one unit: either all of it
//! happens or, on a rejected request, nothing changes.

use vstd::prelude::*;
use crate::aggregate::{
    all_valid, compute_aggregate, counters_fit, describes, lemma_aggregate_sums, sum_of, tally,
    Measure,
};
use crate::integrity::{
    backup_status, compute_change_hash, fits_counter, has_entry, integrity_status,
    latest_change, orphan_count, invalid_count, rating_exists, record_intact, recomputed, reports,
    text_view, trail_of, verify_rating_integrity, by_time, lemma_by_time_facts, HashCheck,
};
use crate::model::{
    copy_aggregate, copy_rating, copy_text, levels_valid, ActionType, AuditRecord, BackupStatus,
    IntegrityReport, IntegrityStatus, Rating, RatingAggregate, RatingError, Report, ReportRequest,
    SubmitRatingRequest, Vote, VoteRequest, BIAS_MAX, BIAS_MIN, TRUST_MAX, TRUST_MIN,
};

verus! {

/// The rating belongs to the (domain, user) pair.
pub open spec fn same_pair(r: Rating, domain: Seq<char>, user: Seq<char>) -> bool {
    r.domain_url@ == domain && r.user_hash@ == user
}

/// Some rating belongs to the (domain, user) pair.
pub open spec fn pair_present(rows: Seq<Rating>, domain: Seq<char>, user: Seq<char>) -> bool {
    exists|i: int| 0 <= i < rows.len() && #[trigger] same_pair(rows[i], domain, user)
}

/// The position of the rating of the (domain, user) pair, when there is one.
pub open spec fn pair_index(rows: Seq<Rating>, domain: Seq<char>, user: Seq<char>) -> int {
    choose|i: int| 0 <= i < rows.len() && #[trigger] same_pair(rows[i], domain, user)
}

/// No two ratings belong to the same (domain, user) pair.
pub open spec fn pairs_unique(rows: Seq<Rating>) -> bool {
    forall|i: int, j: int|
        0 <= i < rows.len() && 0 <= j < rows.len() && i != j ==> !same_pair(
            #[trigger] rows[i],
            (#[trigger] rows[j]).domain_url@,
            rows[j].user_hash@,
        )
}

/// The rating row that a valid submission leaves for its (domain, user) pair.
pub open spec fn upserted_row(rows: Seq<Rating>, req: SubmitRatingRequest, now: i64) -> Rating {
    if pair_present(rows, req.domain_url@, req.user_hash@) {
        let old = rows[pair_index(rows, req.domain_url@, req.user_hash@)];
        Rating {
            id: old.id,
            domain_url: old.domain_url,
            user_hash: old.user_hash,
            trust_level: req.trust_level,
            bias_level: req.bias_level,
            comment: req.comment,
            created_at: old.created_at,
            updated_at: now,
        }
    } else {
        Rating {
            id: (rows.len() + 1) as i64,
            domain_url: req.domain_url,
            user_hash: req.user_hash,
            trust_level: req.trust_level,
            bias_level: req.bias_level,
            comment: req.comment,
            created_at: now,
            updated_at: now,
        }
    }
}

/// The ratings after a valid submission: the pair's row is overwritten in
/// place, or a new row is appended.
pub open spec fn upserted(rows: Seq<Rating>, req: SubmitRatingRequest, now: i64) -> Seq<Rating> {
    if pair_present(rows, req.domain_url@, req.user_hash@) {
        rows.update(pair_index(rows, req.domain_url@, req.user_hash@), upserted_row(rows, req, now))
    } else {
        rows.push(upserted_row(rows, req, now))
    }
}

/// `rec` is the ledger entry, numbered `id`, that records `row` as `action` at `now`.
pub open spec fn logs(rec: AuditRecord, row: Rating, action: ActionType, id: int, now: i64) -> bool {
    &&& rec.id == id
    &&& rec.rating_id == row.id
    &&& rec.action_type == action
    &&& rec.domain_url@ == row.domain_url@
    &&& rec.user_hash@ == row.user_hash@
    &&& rec.trust_level == Some(row.trust_level)
    &&& rec.bias_level == Some(row.bias_level)
    &&& text_view(rec.comment) == text_view(row.comment)
    &&& rec.changed_at == now
    &&& record_intact(rec)
}

/// Some stored aggregate is for `domain`.
pub open spec fn aggregate_present(aggs: Seq<RatingAggregate>, domain: Seq<char>) -> bool {
    exists|a: int| 0 <= a < aggs.len() && (#[trigger] aggs[a]).domain_url@ == domain
}

/// Some rating has the id `rating_id`.
pub open spec fn rating_known(rows: Seq<Rating>, rating_id: i64) -> bool {
    exists|i: int| 0 <= i < rows.len() && (#[trigger] rows[i]).id == rating_id
}

/// The vote belongs to the (rating, voter) pair.
pub open spec fn same_voter(v: Vote, rating_id: i64, voter: Seq<char>) -> bool {
    v.rating_id == rating_id && v.voter_hash@ == voter
}

/// Some vote belongs to the (rating, voter) pair.
pub open spec fn vote_present(votes: Seq<Vote>, rating_id: i64, voter: Seq<char>) -> bool {
    exists|i: int| 0 <= i < votes.len() && #[trigger] same_voter(votes[i], rating_id, voter)
}

/// The position of the vote of the (rating, voter) pair, when there is one.
pub open spec fn vote_index(votes: Seq<Vote>, rating_id: i64, voter: Seq<char>) -> int {
    choose|i: int| 0 <= i < votes.len() && #[trigger] same_voter(votes[i], rating_id, voter)
}

/// The votes after a vote on `rating_id`: the voter's earlier vote is
/// overwritten, or a new vote is appended.
pub open spec fn voted(votes: Seq<Vote>, rating_id: i64, req: VoteRequest) -> Seq<Vote> {
    if vote_present(votes, rating_id, req.voter_hash@) {
        let i = vote_index(votes, rating_id, req.voter_hash@);
        votes.update(i, Vote { rating_id, voter_hash: votes[i].voter_hash, is_helpful: req.is_helpful })
    } else {
        votes.push(Vote { rating_id, voter_hash: req.voter_hash, is_helpful: req.is_helpful })
    }
}

/// No two votes belong to the same (rating, voter) pair.
pub open spec fn voters_unique(votes: Seq<Vote>) -> bool {
    forall|i: int, j: int|
        0 <= i < votes.len() && 0 <= j < votes.len() && i != j ==> !same_voter(
            #[trigger] votes[i],
            (#[trigger] votes[j]).rating_id,
            votes[j].voter_hash@,
        )
}

/// Number of helpful votes on a rating.
pub open spec fn helpful_votes(votes: Seq<Vote>, rating_id: i64) -> int
    decreases votes.len(),
{
    if votes.len() == 0 {
        0
    } else {
        helpful_votes(votes.drop_last(), rating_id) + if votes.last().rating_id == rating_id
            && votes.last().is_helpful {
            1int
        } else {
            0int
        }
    }
}

/// Replacing a rating of another domain by a rating of another domain leaves
/// the domain's statistics unchanged.
proof fn lemma_tally_update(rows: Seq<Rating>, i: int, x: Rating, domain: Seq<char>, m: Measure)
    requires
        0 <= i < rows.len(),
        rows[i].domain_url@ != domain,
        x.domain_url@ != domain,
    ensures
        tally(rows.update(i, x), domain, m) == tally(rows, domain, m),
    decreases rows.len(),
{
    let u = rows.update(i, x);
    if i == rows.len() - 1 {
        assert(u.drop_last() =~= rows.drop_last());
    } else {
        lemma_tally_update(rows.drop_last(), i, x, domain, m);
        assert(u.drop_last() =~= rows.drop_last().update(i, x));
    }
}

/// Appending a rating of another domain leaves the domain's statistics unchanged.
proof fn lemma_tally_push(rows: Seq<Rating>, x: Rating, domain: Seq<char>, m: Measure)
    requires
        x.domain_url@ != domain,
    ensures
        tally(rows.push(x), domain, m) == tally(rows, domain, m),
{
    assert(rows.push(x).drop_last() =~= rows);
}

/// An aggregate stays exact over ratings with the same statistics.
proof fn lemma_describes_kept(a: RatingAggregate, old_rows: Seq<Rating>, new_rows: Seq<Rating>, domain: Seq<char>)
    requires
        describes(a, old_rows, domain),
        forall|m: Measure| #[trigger] tally(new_rows, domain, m) == tally(old_rows, domain, m),
    ensures
        describes(a, new_rows, domain),
{
    assert(tally(new_rows, domain, Measure::Rows) == tally(old_rows, domain, Measure::Rows));
    assert(tally(new_rows, domain, Measure::TrustSum) == tally(old_rows, domain, Measure::TrustSum));
    assert(tally(new_rows, domain, Measure::BiasSum) == tally(old_rows, domain, Measure::BiasSum));
    assert forall|k: int| 0 <= k < 5 implies #[trigger] a.trust_distribution@[k] as int == tally(
        new_rows,
        domain,
        Measure::TrustAt(k + 1),
    ) by {
        assert(tally(new_rows, domain, Measure::TrustAt(k + 1)) == tally(old_rows, domain, Measure::TrustAt(k + 1)));
    }
    assert forall|k: int| 0 <= k < 4 implies #[trigger] a.bias_distribution@[k] as int == tally(
        new_rows,
        domain,
        Measure::BiasAt(k + 1),
    ) by {
        assert(tally(new_rows, domain, Measure::BiasAt(k + 1)) == tally(old_rows, domain, Measure::BiasAt(k + 1)));
    }
}

/// The position of the rating of a (domain, user) pair.
fn find_pair(rows: &Vec<Rating>, domain: &String, user: &String) -> (r: Option<usize>)
    ensures
        match r {
            Some(i) => i < rows@.len() && same_pair(rows@[i as int], domain@, user@),
            None => !pair_present(rows@, domain@, user@),
        },
{
    let mut i: usize = 0;
    while i < rows.len()
        invariant
            0 <= i <= rows@.len(),
            forall|k: int| 0 <= k < i ==> !(#[trigger] same_pair(rows@[k], domain@, user@)),
        decreases rows@.len() - i,
    {
        if rows[i].domain_url == *domain && rows[i].user_hash == *user {
            return Some(i);
        }
        i = i + 1;
    }
    None
}

/// The position of the stored aggregate of a domain.
fn find_aggregate(aggs: &Vec<RatingAggregate>, domain: &String) -> (r: Option<usize>)
    ensures
        match r {
            Some(a) => a < aggs@.len() && aggs@[a as int].domain_url@ == domain@,
            None => !aggregate_present(aggs@, domain@),
        },
{
    let mut i: usize = 0;
    while i < aggs.len()
        invariant
            0 <= i <= aggs@.len(),
            forall|k: int| 0 <= k < i ==> (#[trigger] aggs@[k]).domain_url@ != domain@,
        decreases aggs@.len() - i,
    {
        if aggs[i].domain_url == *domain {
            return Some(i);
        }
        i = i + 1;
    }
    None
}

/// The invariant of the store's tables.
///
/// Ratings are valid, numbered from 1 in insertion order and unique per
/// (domain, user); ledger entries are numbered from 1, belong to a rating
/// and carry a matching hash; every rating has a ledger entry; each rated
/// domain has exactly one stored aggregate and every stored aggregate
/// equals a fresh recomputation; votes are unique per (rating, voter) and,
/// like reports, belong to a rating.
pub open spec fn tables_wf(
    rows: Seq<Rating>,
    log: Seq<AuditRecord>,
    aggs: Seq<RatingAggregate>,
    votes: Seq<Vote>,
    reports: Seq<Report>,
) -> bool {
    &&& all_valid(rows)
    &&& counters_fit(rows.len() as int)
    &&& fits_counter(log.len() as int)
    &&& forall|i: int| 0 <= i < rows.len() ==> (#[trigger] rows[i]).id == i + 1
    &&& pairs_unique(rows)
    &&& forall|j: int|
        0 <= j < log.len() ==> {
            &&& (#[trigger] log[j]).id == j + 1
            &&& 1 <= log[j].rating_id <= rows.len()
            &&& record_intact(log[j])
        }
    &&& forall|i: int| 0 <= i < rows.len() ==> has_entry(log, (#[trigger] rows[i]).id)
    &&& forall|a: int| 0 <= a < aggs.len() ==> describes(#[trigger] aggs[a], rows, aggs[a].domain_url@)
    &&& forall|a: int, b: int|
        0 <= a < aggs.len() && 0 <= b < aggs.len() && a != b ==> (#[trigger] aggs[a]).domain_url@
            != (#[trigger] aggs[b]).domain_url@
    &&& forall|i: int| 0 <= i < rows.len() ==> aggregate_present(aggs, (#[trigger] rows[i]).domain_url@)
    &&& voters_unique(votes)
    &&& forall|v: int| 0 <= v < votes.len() ==> rating_known(rows, (#[trigger] votes[v]).rating_id)
    &&& forall|p: int| 0 <= p < reports.len() ==> rating_known(rows, (#[trigger] reports[p]).rating_id)
}

/// A valid submission keeps the tables' invariant.
proof fn lemma_submit_keeps_wf(
    rows0: Seq<Rating>,
    log0: Seq<AuditRecord>,
    aggs0: Seq<RatingAggregate>,
    votes: Seq<Vote>,
    reports: Seq<Report>,
    rows1: Seq<Rating>,
    log1: Seq<AuditRecord>,
    aggs1: Seq<RatingAggregate>,
    req: SubmitRatingRequest,
    now: i64,
    action: ActionType,
    pos: int,
)
    requires
        tables_wf(rows0, log0, aggs0, votes, reports),
        levels_valid(req.trust_level as int, req.bias_level as int),
        counters_fit(rows0.len() as int + 1),
        fits_counter(log0.len() as int + 1),
        rows1 == upserted(rows0, req, now),
        log1.len() == log0.len() + 1,
        log1.drop_last() == log0,
        logs(log1.last(), upserted_row(rows0, req, now), action, log0.len() as int + 1, now),
        0 <= pos < aggs1.len(),
        pos <= aggs0.len(),
        describes(aggs1[pos], rows1, req.domain_url@),
        pos < aggs0.len() ==> aggs0[pos].domain_url@ == req.domain_url@ && aggs1 == aggs0.update(
            pos,
            aggs1[pos],
        ),
        pos == aggs0.len() ==> !aggregate_present(aggs0, req.domain_url@) && aggs1 == aggs0.push(
            aggs1[pos],
        ),
    ensures
        tables_wf(rows1, log1, aggs1, votes, reports),
{
    let d = req.domain_url@;
    let u = req.user_hash@;
    let row = upserted_row(rows0, req, now);
    let present = pair_present(rows0, d, u);
    let idx = pair_index(rows0, d, u);
    // Ratings: validity, numbering, uniqueness, ids kept.
    assert(row.domain_url@ == d && row.user_hash@ == u);
    if present {
        assert(same_pair(rows0[idx], d, u));
        assert(rows1.len() == rows0.len());
        assert forall|i: int| 0 <= i < rows1.len() implies (#[trigger] rows1[i]).id == rows0[i].id by {}
    } else {
        assert(rows1.len() == rows0.len() + 1);
        assert forall|i: int| 0 <= i < rows0.len() implies (#[trigger] rows1[i]) == rows0[i] by {}
    }
    assert(all_valid(rows1)) by {
        assert forall|i: int| 0 <= i < rows1.len() implies #[trigger] rows1[i].valid() by {
            if i != idx || !present {
                if i < rows0.len() {
                    assert(rows0[i].valid());
                }
            }
        }
    }
    assert forall|i: int| 0 <= i < rows1.len() implies (#[trigger] rows1[i]).id == i + 1 by {
        if i < rows0.len() {
            assert(rows0[i].id == i + 1);
        }
    }
    assert(pairs_unique(rows1)) by {
        assert forall|i: int, j: int|
            0 <= i < rows1.len() && 0 <= j < rows1.len() && i != j implies !same_pair(
            #[trigger] rows1[i],
            (#[trigger] rows1[j]).domain_url@,
            rows1[j].user_hash@,
        ) by {
            if present {
                if i == idx {
                    assert(!same_pair(rows0[j], rows0[i].domain_url@, rows0[i].user_hash@));
                } else if j == idx {
                    assert(!same_pair(rows0[i], rows0[j].domain_url@, rows0[j].user_hash@));
                } else {
                    assert(!same_pair(rows0[i], rows0[j].domain_url@, rows0[j].user_hash@));
                }
            } else {
                if i == rows0.len() {
                    assert(!same_pair(rows0[j], d, u));
                } else if j == rows0.len() {
                    assert(!same_pair(rows0[i], d, u));
                } else {
                    assert(!same_pair(rows0[i], rows0[j].domain_url@, rows0[j].user_hash@));
                }
            }
        }
    }
    // Ledger.
    assert forall|j: int| 0 <= j < log1.len() implies {
        &&& (#[trigger] log1[j]).id == j + 1
        &&& 1 <= log1[j].rating_id <= rows1.len()
        &&& record_intact(log1[j])
    } by {
        if j < log0.len() {
            assert(log1[j] == log0[j]);
        } else {
            assert(log1[j] == log1.last());
        }
    }
    assert forall|i: int| 0 <= i < rows1.len() implies has_entry(log1, (#[trigger] rows1[i]).id) by {
        if i < rows0.len() && !(present && i == idx) {
            assert(has_entry(log0, rows0[i].id));
            let w = choose|j: int| 0 <= j < log0.len() && #[trigger] log0[j].rating_id == rows0[i].id;
            assert(log1[w] == log0[w]);
        } else {
            assert(log1[log0.len() as int] == log1.last());
        }
    }
    if pos < aggs0.len() {
        assert(aggs1.len() == aggs0.len());
    } else {
        assert(aggs1.len() == aggs0.len() + 1);
    }
    // Statistics of every other domain are unchanged.
    assert forall|e: Seq<char>, m: Measure| e != d implies #[trigger] tally(rows1, e, m) == tally(rows0, e, m) by {
        if present {
            lemma_tally_update(rows0, idx, row, e, m);
        } else {
            lemma_tally_push(rows0, row, e, m);
        }
    }
    assert forall|a: int| 0 <= a < aggs1.len() implies describes(#[trigger] aggs1[a], rows1, aggs1[a].domain_url@) by {
        if a != pos {
            let e = aggs1[a].domain_url@;
            assert(aggs1[a] == aggs0[a]);
            assert(describes(aggs0[a], rows0, e));
            if pos < aggs0.len() {
                assert(aggs0[a].domain_url@ != aggs0[pos].domain_url@);
            } else {
                assert(e != d);
            }
            assert forall|m: Measure| #[trigger] tally(rows1, e, m) == tally(rows0, e, m) by {}
            lemma_describes_kept(aggs1[a], rows0, rows1, e);
        }
    }
    assert forall|a: int, b: int|
        0 <= a < aggs1.len() && 0 <= b < aggs1.len() && a != b implies (#[trigger] aggs1[a]).domain_url@
            != (#[trigger] aggs1[b]).domain_url@ by {
        if a != pos && b != pos {
            assert(aggs1[a] == aggs0[a] && aggs1[b] == aggs0[b]);
        } else if a == pos {
            assert(aggs1[b] == aggs0[b]);
            if pos == aggs0.len() {
                assert(aggs0[b].domain_url@ != d);
            }
        } else {
            assert(aggs1[a] == aggs0[a]);
            if pos == aggs0.len() {
                assert(aggs0[a].domain_url@ != d);
            }
        }
    }
    assert forall|i: int| 0 <= i < rows1.len() implies aggregate_present(aggs1, (#[trigger] rows1[i]).domain_url@) by {
        let e = rows1[i].domain_url@;
        if e == d {
            assert(aggs1[pos].domain_url@ == d);
        } else {
            assert(rows1[i].domain_url@ == rows0[i].domain_url@);
            assert(aggregate_present(aggs0, rows0[i].domain_url@));
            let w = choose|a: int| 0 <= a < aggs0.len() && (#[trigger] aggs0[a]).domain_url@ == e;
            if w == pos {
                assert(false);
            }
            assert(aggs1[w] == aggs0[w]);
        }
    }
    // Votes and reports still point at existing ratings.
    assert forall|v: int| 0 <= v < votes.len() implies rating_known(rows1, (#[trigger] votes[v]).rating_id) by {
        let w = choose|i: int| 0 <= i < rows0.len() && (#[trigger] rows0[i]).id == votes[v].rating_id;
        assert(rows1[w].id == rows0[w].id);
    }
    assert forall|p: int| 0 <= p < reports.len() implies rating_known(rows1, (#[trigger] reports[p]).rating_id) by {
        let w = choose|i: int| 0 <= i < rows0.len() && (#[trigger] rows0[i]).id == reports[p].rating_id;
        assert(rows1[w].id == rows0[w].id);
    }
}

/// The tables after a successful submission of `req` at `now`, starting from `s0`:
/// the ratings are upserted, exactly one ledger entry is appended for the
/// upserted row (`Create` for a new pair, `Update` otherwise), the domain's
/// stored aggregate is a fresh recomputation stamped `now`, and the moderation
/// tables are unchanged.
pub open spec fn submit_effect(s0: RatingStore, s1: RatingStore, req: SubmitRatingRequest, now: i64) -> bool {
    let rows = s0.rating_rows();
    let row = upserted_row(rows, req, now);
    let action = if pair_present(rows, req.domain_url@, req.user_hash@) {
        ActionType::Update
    } else {
        ActionType::Create
    };
    &&& s1.rating_rows() == upserted(rows, req, now)
    &&& s1.ledger().len() == s0.ledger().len() + 1
    &&& s1.ledger().drop_last() == s0.ledger()
    &&& logs(s1.ledger().last(), row, action, s0.ledger().len() as int + 1, now)
    &&& exists|a: int|
        0 <= a < s1.aggregate_rows().len() && {
            let agg = #[trigger] s1.aggregate_rows()[a];
            &&& agg.domain_url@ == req.domain_url@
            &&& agg.last_updated == now
            &&& describes(agg, s1.rating_rows(), req.domain_url@)
        }
    &&& s1.vote_rows() == s0.vote_rows()
    &&& s1.report_rows() == s0.report_rows()
}

/// Most ratings a review listing shows.
pub const REVIEW_LIMIT: usize = 50;

/// `a` is listed before `b`: more helpful votes, or as many and created later.
pub open spec fn outranks(votes: Seq<Vote>, a: Rating, b: Rating) -> bool {
    helpful_votes(votes, a.id) > helpful_votes(votes, b.id) || (helpful_votes(votes, a.id)
        == helpful_votes(votes, b.id) && a.created_at > b.created_at)
}

/// `r` lists the ratings of `domain`: rows of the table, each at most once, best
/// ranked first, and, when fewer than all are listed, exactly `REVIEW_LIMIT` of
/// them with none left out that outranks a listed one.
pub open spec fn lists_reviews(r: Seq<Rating>, rows: Seq<Rating>, votes: Seq<Vote>, domain: Seq<char>) -> bool {
    &&& r.len() <= REVIEW_LIMIT
    &&& forall|k: int|
        0 <= k < r.len() ==> (#[trigger] r[k]).domain_url@ == domain && exists|j: int|
            0 <= j < rows.len() && rows[j] == r[k]
    &&& forall|k1: int, k2: int| 0 <= k1 < k2 < r.len() ==> (#[trigger] r[k1]).id != (#[trigger] r[k2]).id
    &&& forall|k1: int, k2: int|
        0 <= k1 < k2 < r.len() ==> !outranks(votes, #[trigger] r[k2], #[trigger] r[k1])
    &&& forall|j: int|
        0 <= j < rows.len() && (#[trigger] rows[j]).domain_url@ == domain && (forall|k: int|
            0 <= k < r.len() ==> r[k].id != rows[j].id) ==> r.len() == REVIEW_LIMIT && forall|k: int|
            0 <= k < r.len() ==> !outranks(votes, rows[j], #[trigger] r[k])
}

proof fn lemma_helpful_step(votes: Seq<Vote>, rating_id: i64, j: int)
    requires
        0 <= j < votes.len(),
    ensures
        helpful_votes(votes.take(j + 1), rating_id) == helpful_votes(votes.take(j), rating_id) + if votes[j].rating_id
            == rating_id && votes[j].is_helpful {
            1int
        } else {
            0int
        },
{
    assert(votes.take(j + 1).drop_last() =~= votes.take(j));
}

/// Number of helpful votes on a rating.
fn count_helpful(votes: &Vec<Vote>, rating_id: i64) -> (r: usize)
    ensures
        r as int == helpful_votes(votes@, rating_id),
{
    let mut count: usize = 0;
    let mut j: usize = 0;
    assert(votes@.take(0) =~= Seq::<Vote>::empty());
    while j < votes.len()
        invariant
            0 <= j <= votes@.len(),
            0 <= count <= j,
            count as int == helpful_votes(votes@.take(j as int), rating_id),
        decreases votes@.len() - j,
    {
        proof {
            lemma_helpful_step(votes@, rating_id, j as int);
        }
        if votes[j].rating_id == rating_id && votes[j].is_helpful {
            count = count + 1;
        }
        j = j + 1;
    }
    assert(votes@.take(votes@.len() as int) =~= votes@);
    count
}

/// The rating core's tables.
pub struct RatingStore {
    ratings: Vec<Rating>,
    audit_log: Vec<AuditRecord>,
    aggregates: Vec<RatingAggregate>,
    votes: Vec<Vote>,
    reports: Vec<Report>,
}

impl RatingStore {
    /// The current ratings, in insertion order.
    pub closed spec fn rating_rows(&self) -> Seq<Rating> {
        self.ratings@
    }

    /// The audit ledger, in append order.
    pub closed spec fn ledger(&self) -> Seq<AuditRecord> {
        self.audit_log@
    }

    /// The stored aggregates.
    pub closed spec fn aggregate_rows(&self) -> Seq<RatingAggregate> {
        self.aggregates@
    }

    /// The helpfulness votes.
    pub closed spec fn vote_rows(&self) -> Seq<Vote> {
        self.votes@
    }

    /// The reports.
    pub closed spec fn report_rows(&self) -> Seq<Report> {
        self.reports@
    }

    /// The invariant of the tables (see `tables_wf`).
    pub closed spec fn wf(&self) -> bool {
        tables_wf(self.ratings@, self.audit_log@, self.aggregates@, self.votes@, self.reports@)
    }

    /// An empty store.
    pub fn new() -> (r: RatingStore)
        ensures
            r.wf(),
            r.rating_rows().len() == 0,
            r.ledger().len() == 0,
            r.aggregate_rows().len() == 0,
            r.vote_rows().len() == 0,
            r.report_rows().len() == 0,
    {
        RatingStore {
            ratings: Vec::new(),
            audit_log: Vec::new(),
            aggregates: Vec::new(),
            votes: Vec::new(),
            reports: Vec::new(),
        }
    }

    /// Submits a rating: validates the levels, then upserts the (domain, user)
    /// rating, appends one audit entry (`Create` for a new pair, `Update`
    /// otherwise) and recomputes the domain's aggregate, stamped `now`.
    ///
    /// Fails with `Validation`, changing nothing, exactly when the trust level
    /// is outside 1..=5 or the bias level outside 1..=4.
    pub fn submit(&mut self, req: SubmitRatingRequest, now: i64) -> (r: Result<Rating, RatingError>)
        requires
            old(self).wf(),
            counters_fit(old(self).rating_rows().len() as int + 1),
            fits_counter(old(self).ledger().len() as int + 1),
        ensures
            final(self).wf(),
            levels_valid(req.trust_level as int, req.bias_level as int) <==> r is Ok,
            r is Err ==> r == Err::<Rating, RatingError>(RatingError::Validation),
            r is Err ==> *final(self) == *old(self),
            r is Ok ==> r->Ok_0 == upserted_row(old(self).rating_rows(), req, now),
            r is Ok ==> submit_effect(*old(self), *final(self), req, now),
    {
        if req.trust_level < TRUST_MIN || req.trust_level > TRUST_MAX || req.bias_level < BIAS_MIN
            || req.bias_level > BIAS_MAX {
            return Err(RatingError::Validation);
        }
        let ghost rows0 = self.ratings@;
        let ghost log0 = self.audit_log@;
        let ghost aggs0 = self.aggregates@;
        let found = find_pair(&self.ratings, &req.domain_url, &req.user_hash);
        let action;
        let row;
        match found {
            Some(i) => {
                proof {
                    let c = pair_index(rows0, req.domain_url@, req.user_hash@);
                    assert(same_pair(rows0[i as int], req.domain_url@, req.user_hash@));
                    if c != i {
                        assert(!same_pair(rows0[c], rows0[i as int].domain_url@, rows0[i as int].user_hash@));
                    }
                }
                let old_row = &self.ratings[i];
                row = Rating {
                    id: old_row.id,
                    domain_url: old_row.domain_url.clone(),
                    user_hash: old_row.user_hash.clone(),
                    trust_level: req.trust_level,
                    bias_level: req.bias_level,
                    comment: copy_text(&req.comment),
                    created_at: old_row.created_at,
                    updated_at: now,
                };
                self.ratings.set(i, copy_rating(&row));
                action = ActionType::Update;
            },
            None => {
                let count = self.ratings.len() as i64;
                row = Rating {
                    id: count + 1,
                    domain_url: req.domain_url.clone(),
                    user_hash: req.user_hash.clone(),
                    trust_level: req.trust_level,
                    bias_level: req.bias_level,
                    comment: copy_text(&req.comment),
                    created_at: now,
                    updated_at: now,
                };
                self.ratings.push(copy_rating(&row));
                action = ActionType::Create;
            },
        }
        assert(self.ratings@ == upserted(rows0, req, now));
        let comment = match &row.comment {
            Some(c) => Some(c.as_str()),
            None => None,
        };
        let change_hash = compute_change_hash(
            row.id,
            row.domain_url.as_str(),
            row.user_hash.as_str(),
            Some(row.trust_level),
            Some(row.bias_level),
            comment,
        );
        let entries = self.audit_log.len() as i64;
        let record = AuditRecord {
            id: entries + 1,
            rating_id: row.id,
            action_type: action,
            domain_url: row.domain_url.clone(),
            user_hash: row.user_hash.clone(),
            trust_level: Some(row.trust_level),
            bias_level: Some(row.bias_level),
            comment: copy_text(&row.comment),
            changed_at: now,
            change_hash,
        };
        self.audit_log.push(record);
        let ghost rows1 = self.ratings@;
        let ghost log1 = self.audit_log@;
        assert(log1.drop_last() =~= log0);
        let agg = compute_aggregate(&self.ratings, &req.domain_url, now);
        let slot = find_aggregate(&self.aggregates, &req.domain_url);
        let ghost pos: int;
        match slot {
            Some(a) => {
                self.aggregates.set(a, agg);
                proof { pos = a as int; }
            },
            None => {
                self.aggregates.push(agg);
                proof { pos = aggs0.len() as int; }
            },
        }
        proof {
            let rows1 = self.ratings@;
            assert(logs(log1.last(), upserted_row(rows0, req, now), action, log0.len() as int + 1, now));
            if pos < aggs0.len() {
                assert(self.aggregates@ == aggs0.update(pos, self.aggregates@[pos]));
            } else {
                assert(self.aggregates@ == aggs0.push(self.aggregates@[pos]));
            }
            lemma_submit_keeps_wf(
                rows0,
                log0,
                aggs0,
                self.votes@,
                self.reports@,
                rows1,
                log1,
                self.aggregates@,
                req,
                now,
                action,
                pos,
            );
            let agg_here = self.aggregate_rows()[pos];
            assert(agg_here.domain_url@ == req.domain_url@ && agg_here.last_updated == now);
        }
        Ok(row)
    }

    /// Recomputes the aggregate of `domain_url` from the current ratings and
    /// stores it, stamped `now`, in place of the previous one.
    pub fn recompute(&mut self, domain_url: &String, now: i64) -> (r: RatingAggregate)
        requires
            old(self).wf(),
        ensures
            final(self).wf(),
            describes(r, old(self).rating_rows(), domain_url@),
            r.last_updated == now,
            final(self).rating_rows() == old(self).rating_rows(),
            final(self).ledger() == old(self).ledger(),
            final(self).vote_rows() == old(self).vote_rows(),
            final(self).report_rows() == old(self).report_rows(),
            exists|a: int|
                0 <= a < final(self).aggregate_rows().len() && {
                    let agg = #[trigger] final(self).aggregate_rows()[a];
                    &&& agg.domain_url@ == domain_url@
                    &&& agg.last_updated == now
                    &&& describes(agg, final(self).rating_rows(), domain_url@)
                },
    {
        let ghost aggs0 = self.aggregates@;
        let agg = compute_aggregate(&self.ratings, domain_url, now);
        let result = copy_aggregate(&agg);
        let slot = find_aggregate(&self.aggregates, domain_url);
        let ghost pos: int;
        match slot {
            Some(a) => {
                self.aggregates.set(a, agg);
                proof { pos = a as int; }
            },
            None => {
                self.aggregates.push(agg);
                proof { pos = aggs0.len() as int; }
            },
        }
        proof {
            let rows = self.ratings@;
            let aggs1 = self.aggregates@;
            let d = domain_url@;
            if pos < aggs0.len() {
                assert(aggs1.len() == aggs0.len());
            } else {
                assert(aggs1.len() == aggs0.len() + 1);
            }
            assert forall|a: int| 0 <= a < aggs1.len() implies describes(#[trigger] aggs1[a], rows, aggs1[a].domain_url@) by {
                if a != pos {
                    assert(aggs1[a] == aggs0[a]);
                }
            }
            assert forall|a: int, b: int|
                0 <= a < aggs1.len() && 0 <= b < aggs1.len() && a != b implies (#[trigger] aggs1[a]).domain_url@
                    != (#[trigger] aggs1[b]).domain_url@ by {
                if a != pos && b != pos {
                    assert(aggs1[a] == aggs0[a] && aggs1[b] == aggs0[b]);
                } else if a == pos {
                    assert(aggs1[b] == aggs0[b]);
                    if pos == aggs0.len() {
                        assert(aggs0[b].domain_url@ != d);
                    }
                } else {
                    assert(aggs1[a] == aggs0[a]);
                    if pos == aggs0.len() {
                        assert(aggs0[a].domain_url@ != d);
                    }
                }
            }
            assert forall|i: int| 0 <= i < rows.len() implies aggregate_present(aggs1, (#[trigger] rows[i]).domain_url@) by {
                let e = rows[i].domain_url@;
                if e == d {
                    assert(aggs1[pos].domain_url@ == d);
                } else {
                    assert(aggregate_present(aggs0, e));
                    let w = choose|a: int| 0 <= a < aggs0.len() && (#[trigger] aggs0[a]).domain_url@ == e;
                    assert(aggs1[w] == aggs0[w]);
                }
            }
            let agg_here = self.aggregate_rows()[pos];
            assert(agg_here.domain_url@ == d && agg_here.last_updated == now);
        }
        result
    }

    /// The ratings of a domain for display: most helpful votes first, then the
    /// most recently created, at most `REVIEW_LIMIT` of them.
    pub fn get_domain_reviews(&self, domain_url: &String) -> (r: Vec<Rating>)
        requires
            self.wf(),
        ensures
            lists_reviews(r@, self.rating_rows(), self.vote_rows(), domain_url@),
    {
        let rows = &self.ratings;
        let ghost votes = self.votes@;
        let ghost d = domain_url@;
        let n = rows.len();
        let mut helpful: Vec<usize> = Vec::new();
        let mut chosen: Vec<bool> = Vec::new();
        let mut i: usize = 0;
        while i < n
            invariant
                n == rows@.len(),
                votes == self.votes@,
                0 <= i <= n,
                helpful@.len() == i,
                chosen@.len() == i,
                forall|k: int| 0 <= k < i ==> (#[trigger] helpful@[k]) as int == helpful_votes(votes, rows@[k].id),
                forall|k: int| 0 <= k < i ==> !(#[trigger] chosen@[k]),
            decreases n - i,
        {
            helpful.push(count_helpful(&self.votes, rows[i].id));
            chosen.push(false);
            i = i + 1;
        }
        let mut out: Vec<Rating> = Vec::new();
        let ghost mut picked: Seq<int> = Seq::empty();
        while out.len() < REVIEW_LIMIT
            invariant
                self.wf(),
                rows == &self.ratings,
                n == rows@.len(),
                votes == self.votes@,
                d == domain_url@,
                helpful@.len() == n,
                chosen@.len() == n,
                forall|k: int| 0 <= k < n ==> (#[trigger] helpful@[k]) as int == helpful_votes(votes, rows@[k].id),
                out@.len() <= REVIEW_LIMIT,
                picked.len() == out@.len(),
                forall|k: int|
                    0 <= k < picked.len() ==> 0 <= #[trigger] picked[k] < n && out@[k] == rows@[picked[k]]
                        && rows@[picked[k]].domain_url@ == d && chosen@[picked[k]],
                forall|k1: int, k2: int|
                    0 <= k1 < k2 < picked.len() ==> #[trigger] picked[k1] != #[trigger] picked[k2],
                forall|x: int|
                    0 <= x < n && #[trigger] chosen@[x] ==> exists|k: int| 0 <= k < picked.len() && picked[k] == x,
                forall|k1: int, k2: int|
                    0 <= k1 < k2 < out@.len() ==> !outranks(votes, #[trigger] out@[k2], #[trigger] out@[k1]),
                forall|x: int, k: int|
                    0 <= x < n && !(#[trigger] chosen@[x]) && rows@[x].domain_url@ == d && 0 <= k < out@.len()
                        ==> !outranks(votes, rows@[x], #[trigger] out@[k]),
            ensures
                out@.len() == REVIEW_LIMIT || forall|x: int|
                    0 <= x < n && (#[trigger] rows@[x]).domain_url@ == d ==> chosen@[x],
            decreases REVIEW_LIMIT - out@.len(),
        {
            let mut best: Option<usize> = None;
            let mut j: usize = 0;
            while j < n
                invariant
                    n == rows@.len(),
                    helpful@.len() == n,
                    chosen@.len() == n,
                    d == domain_url@,
                    forall|k: int| 0 <= k < n ==> (#[trigger] helpful@[k]) as int == helpful_votes(votes, rows@[k].id),
                    0 <= j <= n,
                    match best {
                        Some(b) => b < j && !chosen@[b as int] && rows@[b as int].domain_url@ == d,
                        None => true,
                    },
                    forall|x: int|
                        0 <= x < j && !(#[trigger] chosen@[x]) && rows@[x].domain_url@ == d ==> match best {
                            Some(b) => !outranks(votes, rows@[x], rows@[b as int]),
                            None => false,
                        },
                decreases n - j,
            {
                if !chosen[j] && rows[j].domain_url == *domain_url {
                    let better = match best {
                        None => true,
                        Some(b) => helpful[j] > helpful[b] || (helpful[j] == helpful[b]
                            && rows[j].created_at > rows[b].created_at),
                    };
                    if better {
                        best = Some(j);
                    }
                }
                j = j + 1;
            }
            match best {
                None => {
                    proof {
                        assert forall|x: int|
                            0 <= x < n && (#[trigger] rows@[x]).domain_url@ == d implies chosen@[x] by {}
                    }
                    break;
                },
                Some(b) => {
                    let ghost old_out = out@;
                    let ghost old_chosen = chosen@;
                    chosen.set(b, true);
                    out.push(copy_rating(&rows[b]));
                    let ghost old_picked = picked;
                    proof {
                        picked = picked.push(b as int);
                        assert forall|x: int|
                            0 <= x < n && #[trigger] chosen@[x] implies exists|k: int|
                                0 <= k < picked.len() && picked[k] == x by {
                            if x == b as int {
                                assert(picked[picked.len() - 1] == x);
                            } else {
                                assert(old_chosen[x]);
                                let k = choose|k: int| 0 <= k < old_picked.len() && old_picked[k] == x;
                                assert(picked[k] == x);
                            }
                        }
                        assert forall|k1: int, k2: int|
                            0 <= k1 < k2 < picked.len() implies #[trigger] picked[k1] != #[trigger] picked[k2] by {
                            if k2 == picked.len() - 1 {
                                assert(old_chosen[picked[k1]]);
                            }
                        }
                        assert forall|k: int|
                            0 <= k < picked.len() implies 0 <= #[trigger] picked[k] < n && out@[k] == rows@[picked[k]]
                                && rows@[picked[k]].domain_url@ == d && chosen@[picked[k]] by {
                            if k < picked.len() - 1 {
                                assert(out@[k] == old_out[k]);
                            }
                        }
                        assert forall|k1: int, k2: int|
                            0 <= k1 < k2 < out@.len() implies !outranks(votes, #[trigger] out@[k2], #[trigger] out@[k1]) by {
                            if k2 == out@.len() - 1 {
                                assert(out@[k1] == old_out[k1]);
                                assert(!old_chosen[b as int]);
                            } else {
                                assert(out@[k1] == old_out[k1] && out@[k2] == old_out[k2]);
                            }
                        }
                        assert forall|x: int, k: int|
                            0 <= x < n && !(#[trigger] chosen@[x]) && rows@[x].domain_url@ == d && 0 <= k < out@.len()
                                implies !outranks(votes, rows@[x], #[trigger] out@[k]) by {
                            assert(!old_chosen[x]);
                            if k < out@.len() - 1 {
                                assert(out@[k] == old_out[k]);
                            }
                        }
                    }
                },
            }
        }
        proof {
            let r = out@;
            let rows_v = rows@;
            assert forall|k: int| 0 <= k < r.len() implies (#[trigger] r[k]).domain_url@ == d && exists|j: int|
                0 <= j < rows_v.len() && rows_v[j] == r[k] by {
                assert(rows_v[picked[k]] == r[k]);
            }
            assert forall|k1: int, k2: int| 0 <= k1 < k2 < r.len() implies (#[trigger] r[k1]).id != (#[trigger] r[k2]).id by {
                assert(picked[k1] != picked[k2]);
                assert(rows_v[picked[k1]].id == picked[k1] + 1);
                assert(rows_v[picked[k2]].id == picked[k2] + 1);
            }
            assert forall|j: int|
                0 <= j < rows_v.len() && (#[trigger] rows_v[j]).domain_url@ == d && (forall|k: int|
                    0 <= k < r.len() ==> r[k].id != rows_v[j].id) implies r.len() == REVIEW_LIMIT && forall|k: int|
                    0 <= k < r.len() ==> !outranks(votes, rows_v[j], #[trigger] r[k]) by {
                if chosen@[j] {
                    let k = choose|k: int| 0 <= k < picked.len() && picked[k] == j;
                    assert(r[k].id == rows_v[j].id);
                } else {
                    assert(r.len() == REVIEW_LIMIT);
                }
            }
        }
        out
    }

    /// The stored aggregate of `domain_url`.
    ///
    /// Fails with `NotFound` exactly when the domain has no stored aggregate,
    /// that is, when it was never rated or recomputed.
    pub fn get_aggregate(&self, domain_url: &String) -> (r: Result<RatingAggregate, RatingError>)
        requires
            self.wf(),
        ensures
            aggregate_present(self.aggregate_rows(), domain_url@) <==> r is Ok,
            r is Err ==> r == Err::<RatingAggregate, RatingError>(RatingError::NotFound),
            r is Ok ==> describes(r->Ok_0, self.rating_rows(), domain_url@),
            r is Ok ==> exists|a: int|
                0 <= a < self.aggregate_rows().len() && (#[trigger] self.aggregate_rows()[a]).domain_url@
                    == domain_url@ && self.aggregate_rows()[a].last_updated == r->Ok_0.last_updated,
    {
        match find_aggregate(&self.aggregates, domain_url) {
            Some(a) => {
                let agg = copy_aggregate(&self.aggregates[a]);
                proof {
                    let stored = self.aggregates@[a as int];
                    assert(describes(stored, self.ratings@, stored.domain_url@));
                    assert(agg.trust_distribution@ == stored.trust_distribution@);
                    assert(self.aggregate_rows()[a as int] == stored);
                }
                Ok(agg)
            },
            None => Err(RatingError::NotFound),
        }
    }

    /// Whether a rating with the id exists: ids run from 1 to the number of ratings.
    fn knows_rating(&self, rating_id: i64) -> (r: bool)
        requires
            self.wf(),
        ensures
            r == rating_known(self.rating_rows(), rating_id),
    {
        let n = self.ratings.len() as i64;
        let known = 1 <= rating_id && rating_id <= n;
        proof {
            let rows = self.ratings@;
            if known {
                assert(rows[rating_id - 1].id == rating_id);
            } else {
                assert forall|i: int| 0 <= i < rows.len() implies (#[trigger] rows[i]).id != rating_id by {}
            }
        }
        known
    }

    /// Records a helpfulness vote: the voter's earlier vote on the rating is
    /// overwritten, or a new vote is added. Votes are not audited.
    ///
    /// Fails with `NotFound`, changing nothing, exactly when no rating has the id.
    pub fn vote(&mut self, rating_id: i64, req: VoteRequest) -> (r: Result<(), RatingError>)
        requires
            old(self).wf(),
        ensures
            final(self).wf(),
            rating_known(old(self).rating_rows(), rating_id) <==> r is Ok,
            r is Err ==> r == Err::<(), RatingError>(RatingError::NotFound),
            r is Err ==> *final(self) == *old(self),
            r is Ok ==> final(self).vote_rows() == voted(old(self).vote_rows(), rating_id, req),
            final(self).rating_rows() == old(self).rating_rows(),
            final(self).ledger() == old(self).ledger(),
            final(self).aggregate_rows() == old(self).aggregate_rows(),
            final(self).report_rows() == old(self).report_rows(),
    {
        if !self.knows_rating(rating_id) {
            return Err(RatingError::NotFound);
        }
        let ghost votes0 = self.votes@;
        let mut i: usize = 0;
        while i < self.votes.len()
            invariant
                *self == *old(self),
                self.wf(),
                rating_known(self.ratings@, rating_id),
                self.votes@ == votes0,
                0 <= i <= votes0.len(),
                forall|k: int| 0 <= k < i ==> !(#[trigger] same_voter(votes0[k], rating_id, req.voter_hash@)),
            decreases votes0.len() - i,
        {
            if self.votes[i].rating_id == rating_id && self.votes[i].voter_hash == req.voter_hash {
                proof {
                    let c = vote_index(votes0, rating_id, req.voter_hash@);
                    assert(same_voter(votes0[i as int], rating_id, req.voter_hash@));
                    if c != i as int {
                        assert(!same_voter(votes0[c], votes0[i as int].rating_id, votes0[i as int].voter_hash@));
                    }
                }
                let voter_hash = self.votes[i].voter_hash.clone();
                self.votes.set(i, Vote { rating_id, voter_hash, is_helpful: req.is_helpful });
                proof {
                    let votes1 = self.votes@;
                    assert(votes1 == voted(votes0, rating_id, req));
                    assert(voters_unique(votes1)) by {
                        assert forall|a: int, b: int|
                            0 <= a < votes1.len() && 0 <= b < votes1.len() && a != b implies !same_voter(
                            #[trigger] votes1[a],
                            (#[trigger] votes1[b]).rating_id,
                            votes1[b].voter_hash@,
                        ) by {
                            assert(!same_voter(votes0[a], votes0[b].rating_id, votes0[b].voter_hash@));
                        }
                    }
                    assert forall|v: int| 0 <= v < votes1.len() implies rating_known(self.ratings@, (#[trigger] votes1[v]).rating_id) by {
                        if v != i as int {
                            assert(votes1[v] == votes0[v]);
                        }
                    }
                }
                return Ok(());
            }
            i = i + 1;
        }
        self.votes.push(Vote { rating_id, voter_hash: req.voter_hash.clone(), is_helpful: req.is_helpful });
        proof {
            let votes1 = self.votes@;
            assert(!vote_present(votes0, rating_id, req.voter_hash@));
            assert(votes1 == voted(votes0, rating_id, req));
            assert(voters_unique(votes1)) by {
                assert forall|a: int, b: int|
                    0 <= a < votes1.len() && 0 <= b < votes1.len() && a != b implies !same_voter(
                    #[trigger] votes1[a],
                    (#[trigger] votes1[b]).rating_id,
                    votes1[b].voter_hash@,
                ) by {
                    if a == votes0.len() {
                        assert(!same_voter(votes0[b], rating_id, req.voter_hash@));
                    } else if b == votes0.len() {
                        assert(!same_voter(votes0[a], rating_id, req.voter_hash@));
                    } else {
                        assert(!same_voter(votes0[a], votes0[b].rating_id, votes0[b].voter_hash@));
                    }
                }
            }
            assert forall|v: int| 0 <= v < votes1.len() implies rating_known(self.ratings@, (#[trigger] votes1[v]).rating_id) by {
                if v < votes0.len() {
                    assert(votes1[v] == votes0[v]);
                }
            }
        }
        Ok(())
    }

    /// Appends a report on a rating, stamped `now`. Reports are never merged:
    /// the same reporter may report the same rating again.
    ///
    /// Fails with `NotFound`, changing nothing, exactly when no rating has the id.
    pub fn report(&mut self, rating_id: i64, req: ReportRequest, now: i64) -> (r: Result<(), RatingError>)
        requires
            old(self).wf(),
        ensures
            final(self).wf(),
            rating_known(old(self).rating_rows(), rating_id) <==> r is Ok,
            r is Err ==> r == Err::<(), RatingError>(RatingError::NotFound),
            r is Err ==> *final(self) == *old(self),
            r is Ok ==> final(self).report_rows() == old(self).report_rows().push(
                Report { rating_id, reporter_hash: req.reporter_hash, reason: req.reason, reported_at: now },
            ),
            final(self).rating_rows() == old(self).rating_rows(),
            final(self).ledger() == old(self).ledger(),
            final(self).aggregate_rows() == old(self).aggregate_rows(),
            final(self).vote_rows() == old(self).vote_rows(),
    {
        if !self.knows_rating(rating_id) {
            return Err(RatingError::NotFound);
        }
        let ghost reports0 = self.reports@;
        self.reports.push(
            Report {
                rating_id,
                reporter_hash: req.reporter_hash.clone(),
                reason: req.reason.clone(),
                reported_at: now,
            },
        );
        proof {
            let reports1 = self.reports@;
            assert forall|p: int| 0 <= p < reports1.len() implies rating_known(self.ratings@, (#[trigger] reports1[p]).rating_id) by {
                if p < reports0.len() {
                    assert(reports1[p] == reports0[p]);
                }
            }
        }
        Ok(())
    }

    /// Verifies the audit trail of a rating (see `verify_rating_integrity`).
    /// Every entry this store wrote still matches its hash.
    pub fn verify(&self, rating_id: i64) -> (r: Result<IntegrityReport, RatingError>)
        requires
            self.wf(),
        ensures
            rating_exists(self.rating_rows(), rating_id) <==> r is Ok,
            r is Err ==> r == Err::<IntegrityReport, RatingError>(RatingError::NotFound),
            r is Ok ==> reports(
                r->Ok_0,
                rating_id,
                by_time(trail_of(self.ledger(), rating_id)),
                recomputed(by_time(trail_of(self.ledger(), rating_id))),
            ),
            r is Ok ==> r->Ok_0.is_valid,
    {
        let r = verify_rating_integrity(&self.ratings, &self.audit_log, rating_id);
        proof {
            if r is Ok {
                let log = self.audit_log@;
                let t0 = trail_of(log, rating_id);
                let t = by_time(t0);
                lemma_trail_intact(log, rating_id);
                lemma_by_time_facts(t0);
                assert forall|i: int| 0 <= i < t.len() implies record_intact(#[trigger] t[i]) by {
                    let k = choose|k: int| 0 <= k < t0.len() && t0[k] == t[i];
                    assert(record_intact(t0[k]));
                }
                let e = r->Ok_0.audit_entries@;
                assert forall|i: int| 0 <= i < e.len() implies #[trigger] e[i].hash_valid by {
                    assert(record_intact(t[i]));
                    assert(recomputed(t)[i] == crate::integrity::record_hash(t[i]));
                }
            }
        }
        r
    }

    /// The health of the store's tables (see `integrity_status`).
    pub fn health_status(&self, check: HashCheck, now: i64) -> (r: IntegrityStatus)
        requires
            self.wf(),
        ensures
            r.total_ratings as int == self.rating_rows().len(),
            r.total_audit_entries as int == self.ledger().len(),
            r.orphaned_ratings as int == orphan_count(self.rating_rows(), self.ledger()),
            r.invalid_audit_entries as int == match check {
                HashCheck::Skip => 0,
                HashCheck::Full => invalid_count(self.ledger()),
            },
            r.is_healthy == (r.orphaned_ratings == 0 && r.invalid_audit_entries == 0),
            r.checked_at == now,
            r.is_healthy,
    {
        let r = integrity_status(&self.ratings, &self.audit_log, check, now);
        proof {
            lemma_no_orphans(self.ratings@, self.audit_log@);
            lemma_all_intact(self.audit_log@);
        }
        r
    }

    /// The backup view of the store's tables (see `backup_status`).
    pub fn backup_status(&self, replication_lag_millis: Option<i64>) -> (r: BackupStatus)
        requires
            self.wf(),
        ensures
            r.last_audit_entry == latest_change(self.ledger()),
            r.total_ratings as int == self.rating_rows().len(),
            r.total_audit_entries as int == self.ledger().len(),
            r.replication_lag_millis == replication_lag_millis,
    {
        backup_status(&self.ratings, &self.audit_log, replication_lag_millis)
    }

    /// The current ratings.
    pub fn ratings(&self) -> (r: &Vec<Rating>)
        ensures
            r@ == self.rating_rows(),
    {
        &self.ratings
    }

    /// The audit ledger; it can be read but never changed from outside.
    pub fn audit_log(&self) -> (r: &Vec<AuditRecord>)
        ensures
            r@ == self.ledger(),
    {
        &self.audit_log
    }

    /// The stored aggregates.
    pub fn aggregates(&self) -> (r: &Vec<RatingAggregate>)
        ensures
            r@ == self.aggregate_rows(),
    {
        &self.aggregates
    }

    /// The helpfulness votes.
    pub fn votes(&self) -> (r: &Vec<Vote>)
        ensures
            r@ == self.vote_rows(),
    {
        &self.votes
    }

    /// The reports.
    pub fn reports(&self) -> (r: &Vec<Report>)
        ensures
            r@ == self.report_rows(),
    {
        &self.reports
    }
}

/// Ratings that all have a ledger entry leave no orphan.
proof fn lemma_no_orphans(rows: Seq<Rating>, log: Seq<AuditRecord>)
    requires
        forall|i: int| 0 <= i < rows.len() ==> has_entry(log, (#[trigger] rows[i]).id),
    ensures
        orphan_count(rows, log) == 0,
    decreases rows.len(),
{
    if rows.len() > 0 {
        let init = rows.drop_last();
        assert forall|i: int| 0 <= i < init.len() implies has_entry(log, (#[trigger] init[i]).id) by {
            assert(init[i] == rows[i]);
        }
        lemma_no_orphans(init, log);
        assert(has_entry(log, rows[rows.len() - 1].id));
    }
}

/// A ledger whose entries all match their hashes has no invalid entry.
proof fn lemma_all_intact(log: Seq<AuditRecord>)
    requires
        forall|j: int| 0 <= j < log.len() ==> record_intact(#[trigger] log[j]),
    ensures
        invalid_count(log) == 0,
    decreases log.len(),
{
    if log.len() > 0 {
        let init = log.drop_last();
        assert forall|j: int| 0 <= j < init.len() implies record_intact(#[trigger] init[j]) by {
            assert(init[j] == log[j]);
        }
        lemma_all_intact(init);
        assert(record_intact(log[log.len() - 1]));
    }
}

/// Every entry of a rating's trail comes from the ledger, so it is intact when
/// every ledger entry is.
proof fn lemma_trail_intact(log: Seq<AuditRecord>, rating_id: i64)
    requires
        forall|j: int| 0 <= j < log.len() ==> record_intact(#[trigger] log[j]),
    ensures
        forall|i: int| 0 <= i < trail_of(log, rating_id).len() ==> record_intact(#[trigger] trail_of(log, rating_id)[i]),
    decreases log.len(),
{
    if log.len() > 0 {
        let init = log.drop_last();
        assert forall|j: int| 0 <= j < init.len() implies record_intact(#[trigger] init[j]) by {
            assert(init[j] == log[j]);
        }
        lemma_trail_intact(init, rating_id);
        assert(record_intact(log[log.len() - 1]));
        let t0 = trail_of(init, rating_id);
        let t = trail_of(log, rating_id);
        if log.last().rating_id == rating_id {
            assert(t == t0.push(log.last()));
            assert forall|i: int| 0 <= i < t.len() implies record_intact(#[trigger] t[i]) by {
                if i < t0.len() {
                    assert(t[i] == t0[i]);
                }
            }
        } else {
            assert(t == t0);
        }
    }
}

/// A ledger with no entry for `rating_id` gives it an empty trail.
proof fn lemma_trail_empty(log: Seq<AuditRecord>, rating_id: i64)
    requires
        forall|j: int| 0 <= j < log.len() ==> (#[trigger] log[j]).rating_id != rating_id,
    ensures
        trail_of(log, rating_id) == Seq::<AuditRecord>::empty(),
    decreases log.len(),
{
    if log.len() > 0 {
        let init = log.drop_last();
        assert forall|j: int| 0 <= j < init.len() implies (#[trigger] init[j]).rating_id != rating_id by {
            assert(init[j] == log[j]);
        }
        lemma_trail_empty(init, rating_id);
        assert(log[log.len() - 1].rating_id != rating_id);
    }
}

/// Upsert semantics: two successful submissions for the same (domain, user)
/// pair leave exactly one rating for the pair, holding the second
/// submission's values, and append exactly two ledger entries for it. When the
/// pair was new, the rating's whole audit trail is a `Create` entry followed by
/// an `Update` entry, and the domain's aggregate is computed over the ratings
/// that hold only the latest values.
#[verifier::rlimit(50)]
pub proof fn lemma_resubmission_upserts(
    s0: RatingStore,
    s1: RatingStore,
    s2: RatingStore,
    first: SubmitRatingRequest,
    second: SubmitRatingRequest,
    now1: i64,
    now2: i64,
)
    requires
        s0.wf(),
        s1.wf(),
        s2.wf(),
        submit_effect(s0, s1, first, now1),
        submit_effect(s1, s2, second, now2),
        first.domain_url@ == second.domain_url@,
        first.user_hash@ == second.user_hash@,
    ensures
        ({
            let rows = s2.rating_rows();
            let d = second.domain_url@;
            let u = second.user_hash@;
            let k = pair_index(rows, d, u);
            &&& pair_present(rows, d, u)
            &&& forall|i: int| 0 <= i < rows.len() && #[trigger] same_pair(rows[i], d, u) ==> i == k
            &&& rows[k].trust_level == second.trust_level
            &&& rows[k].bias_level == second.bias_level
            &&& rows[k].comment == second.comment
            &&& s2.ledger().len() == s0.ledger().len() + 2
            &&& s2.ledger()[s0.ledger().len() as int].rating_id == rows[k].id
            &&& s2.ledger()[s0.ledger().len() as int + 1].rating_id == rows[k].id
            &&& s2.ledger()[s0.ledger().len() as int + 1].action_type == ActionType::Update
            &&& !pair_present(s0.rating_rows(), d, u) ==> {
                let t = trail_of(s2.ledger(), rows[k].id);
                &&& t.len() == 2
                &&& t[0].action_type == ActionType::Create
                &&& t[1].action_type == ActionType::Update
            }
            &&& exists|a: int|
                0 <= a < s2.aggregate_rows().len() && {
                    let agg = #[trigger] s2.aggregate_rows()[a];
                    &&& agg.domain_url@ == d
                    &&& describes(agg, rows, d)
                }
        }),
{
    let d = second.domain_url@;
    let u = second.user_hash@;
    let rows0 = s0.rating_rows();
    let rows1 = s1.rating_rows();
    let rows2 = s2.rating_rows();
    let log0 = s0.ledger();
    let log1 = s1.ledger();
    let log2 = s2.ledger();
    let row1 = upserted_row(rows0, first, now1);
    let row2 = upserted_row(rows1, second, now2);
    // After the first submission the pair is present.
    if pair_present(rows0, d, u) {
        let i0 = pair_index(rows0, d, u);
        assert(same_pair(rows1[i0], d, u));
    } else {
        assert(same_pair(rows1[rows0.len() as int], d, u));
    }
    assert(pair_present(rows1, d, u));
    let i1 = pair_index(rows1, d, u);
    assert(rows2 == rows1.update(i1, row2));
    assert(same_pair(rows2[i1], d, u));
    assert(pair_present(rows2, d, u));
    let k = pair_index(rows2, d, u);
    if k != i1 {
        assert(!same_pair(rows2[k], rows2[i1].domain_url@, rows2[i1].user_hash@));
    }
    assert forall|i: int| 0 <= i < rows2.len() && #[trigger] same_pair(rows2[i], d, u) implies i == k by {
        if i != k {
            assert(!same_pair(rows2[i], rows2[k].domain_url@, rows2[k].user_hash@));
        }
    }
    // Both new ledger entries belong to the pair's rating, whose id never changes.
    assert(row1.id == rows1[i1].id) by {
        if pair_present(rows0, d, u) {
            let i0 = pair_index(rows0, d, u);
            assert(same_pair(rows1[i0], d, u));
            if i0 != i1 {
                assert(!same_pair(rows1[i0], rows1[i1].domain_url@, rows1[i1].user_hash@));
            }
        } else {
            let last = rows0.len() as int;
            assert(same_pair(rows1[last], d, u));
            if last != i1 {
                assert(!same_pair(rows1[last], rows1[i1].domain_url@, rows1[i1].user_hash@));
            }
        }
    }
    assert(log2.drop_last() == log1);
    assert(log2[log0.len() as int] == log1[log0.len() as int]);
    assert(log1[log0.len() as int] == log1.last());
    if !pair_present(rows0, d, u) {
        let id = row1.id;
        assert(id == rows0.len() + 1);
        assert forall|j: int| 0 <= j < log0.len() implies (#[trigger] log0[j]).rating_id != id by {
            assert(log0[j].rating_id <= rows0.len());
        }
        lemma_trail_empty(log0, id);
        assert(log1 == log0.push(log1.last()));
        assert(log2 == log1.push(log2.last()));
        assert(trail_of(log1, id) == Seq::<AuditRecord>::empty().push(log1.last()));
        assert(trail_of(log2, id) == trail_of(log1, id).push(log2.last()));
    }
    let w = choose|a: int|
        0 <= a < s2.aggregate_rows().len() && {
            let agg = #[trigger] s2.aggregate_rows()[a];
            &&& agg.domain_url@ == second.domain_url@
            &&& agg.last_updated == now2
            &&& describes(agg, s2.rating_rows(), second.domain_url@)
        };
    assert(s2.aggregate_rows()[w].domain_url@ == d);
}

/// Sum property over a whole store: every stored aggregate's trust and bias
/// distributions add up to its number of ratings.
pub proof fn lemma_stored_aggregates_sum(s: RatingStore)
    requires
        s.wf(),
    ensures
        forall|a: int|
            0 <= a < s.aggregate_rows().len() ==> {
                let agg = #[trigger] s.aggregate_rows()[a];
                &&& sum_of(agg.trust_distribution@) == agg.total_ratings as int
                &&& sum_of(agg.bias_distribution@) == agg.total_ratings as int
            },
{
    assert forall|a: int| 0 <= a < s.aggregate_rows().len() implies {
        let agg = #[trigger] s.aggregate_rows()[a];
        &&& sum_of(agg.trust_distribution@) == agg.total_ratings as int
        &&& sum_of(agg.bias_distribution@) == agg.total_ratings as int
    } by {
        let agg = s.aggregate_rows()[a];
        lemma_aggregate_sums(agg, s.rating_rows(), agg.domain_url@);
    }
}

} // verus!
