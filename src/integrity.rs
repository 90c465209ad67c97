//! The integrity checker: recomputes audit hashes and reports on the ledger.

use vstd::prelude::*;
use crate::digest::{hex_encode, sha256, sha256_of};
use crate::encoding::{
    change_hash_input, change_input, comment_chars, hex_lower, lemma_change_input_field,
    lemma_hex_injective,
};
use crate::model::{
    copy_record, AuditEntry, AuditRecord, BackupStatus, IntegrityReport, IntegrityStatus, Rating,
    RatingError,
};

verus! {

/// The view of an optional text.
pub open spec fn text_view(o: Option<String>) -> Option<Seq<char>> {
    match o {
        Some(s) => Some(s@),
        None => None,
    }
}

/// The change hash of a set of recorded values: the lower-case hex form of the
/// SHA-256 digest of their canonical bytes.
pub open spec fn change_hash_of(
    rating_id: i64,
    domain_url: Seq<char>,
    user_hash: Seq<char>,
    trust_level: Option<i32>,
    bias_level: Option<i32>,
    comment: Option<Seq<char>>,
) -> Seq<char> {
    hex_lower(
        sha256_of(change_input(rating_id, domain_url, user_hash, trust_level, bias_level, comment)),
    )
}

/// The hash recomputed from an audit record's own stored values.
pub open spec fn record_hash(rec: AuditRecord) -> Seq<char> {
    change_hash_of(
        rec.rating_id,
        rec.domain_url@,
        rec.user_hash@,
        rec.trust_level,
        rec.bias_level,
        text_view(rec.comment),
    )
}

/// The stored hash of a record equals the hash of its stored values.
pub open spec fn record_intact(rec: AuditRecord) -> bool {
    rec.change_hash@ == record_hash(rec)
}

/// The entries of `log` that belong to `rating_id`, in ledger order.
pub open spec fn trail_of(log: Seq<AuditRecord>, rating_id: i64) -> Seq<AuditRecord>
    decreases log.len(),
{
    if log.len() == 0 {
        Seq::empty()
    } else if log.last().rating_id == rating_id {
        trail_of(log.drop_last(), rating_id).push(log.last())
    } else {
        trail_of(log.drop_last(), rating_id)
    }
}

/// Some rating has the id `rating_id`.
pub open spec fn rating_exists(ratings: Seq<Rating>, rating_id: i64) -> bool {
    exists|i: int| 0 <= i < ratings.len() && #[trigger] ratings[i].id == rating_id
}

/// Some ledger entry belongs to `rating_id`.
pub open spec fn has_entry(log: Seq<AuditRecord>, rating_id: i64) -> bool {
    exists|j: int| 0 <= j < log.len() && #[trigger] log[j].rating_id == rating_id
}

/// Number of ratings that no ledger entry belongs to.
pub open spec fn orphan_count(ratings: Seq<Rating>, log: Seq<AuditRecord>) -> int
    decreases ratings.len(),
{
    if ratings.len() == 0 {
        0
    } else {
        orphan_count(ratings.drop_last(), log) + if has_entry(log, ratings.last().id) {
            0int
        } else {
            1int
        }
    }
}

/// Number of ledger entries whose stored hash does not match their values.
pub open spec fn invalid_count(log: Seq<AuditRecord>) -> int
    decreases log.len(),
{
    if log.len() == 0 {
        0
    } else {
        invalid_count(log.drop_last()) + if record_intact(log.last()) {
            0int
        } else {
            1int
        }
    }
}

/// The latest `changed_at` in the ledger, if it has any entry.
pub open spec fn latest_change(log: Seq<AuditRecord>) -> Option<i64>
    decreases log.len(),
{
    if log.len() == 0 {
        None
    } else {
        match latest_change(log.drop_last()) {
            Some(t) => if t >= log.last().changed_at {
                Some(t)
            } else {
                Some(log.last().changed_at)
            },
            None => Some(log.last().changed_at),
        }
    }
}

/// A count that fits the reports' signed 64-bit counters.
pub open spec fn fits_counter(n: int) -> bool {
    n <= i64::MAX
}

/// `e` shows `rec`, judged against the recomputed hash `digest`.
pub open spec fn entry_reports(e: AuditEntry, rec: AuditRecord, digest: Seq<char>) -> bool {
    &&& e.id == rec.id
    &&& e.action_type == rec.action_type
    &&& e.trust_level == rec.trust_level
    &&& e.bias_level == rec.bias_level
    &&& e.changed_at == rec.changed_at
    &&& e.hash_valid == (rec.change_hash@ == digest)
}

/// `r` reports on `trail`, judging entry `i` against the recomputed hash `digests[i]`.
pub open spec fn reports(
    r: IntegrityReport,
    rating_id: i64,
    trail: Seq<AuditRecord>,
    digests: Seq<Seq<char>>,
) -> bool {
    let e = r.audit_entries@;
    &&& r.rating_id == rating_id
    &&& e.len() == trail.len()
    &&& r.total_changes as int == trail.len()
    &&& forall|i: int| 0 <= i < e.len() ==> entry_reports(#[trigger] e[i], trail[i], digests[i])
    &&& r.is_valid == (forall|i: int| 0 <= i < e.len() ==> #[trigger] e[i].hash_valid)
    &&& r.created_at == if trail.len() == 0 {
        None
    } else {
        Some(trail[0].changed_at)
    }
    &&& r.last_modified == if trail.len() == 0 {
        None
    } else {
        Some(trail.last().changed_at)
    }
}

/// The hashes recomputed from each record's own values.
pub open spec fn recomputed(trail: Seq<AuditRecord>) -> Seq<Seq<char>> {
    trail.map_values(|rec: AuditRecord| record_hash(rec))
}

/// How the health check treats the stored hashes.
#[derive(Debug, Clone, Copy, PartialEq, Eq, Structural)]
pub enum HashCheck {
    /// Cheap: hashes are not recomputed and no entry is counted invalid;
    /// verification is left to a separate full pass.
    Skip,
    /// Expensive: every entry's hash is recomputed and compared.
    Full,
}

/// Computes the change hash of a set of values.
pub fn compute_change_hash(
    rating_id: i64,
    domain_url: &str,
    user_hash: &str,
    trust_level: Option<i32>,
    bias_level: Option<i32>,
    comment: Option<&str>,
) -> (r: String)
    ensures
        r@ == change_hash_of(
            rating_id,
            domain_url@,
            user_hash@,
            trust_level,
            bias_level,
            match comment {
                Some(c) => Some(c@),
                None => None,
            },
        ),
{
    let input = change_hash_input(rating_id, domain_url, user_hash, trust_level, bias_level, comment);
    let digest = sha256(input.as_slice());
    hex_encode(digest.as_slice())
}

/// Recomputes the hash of a stored record from its own values.
pub fn record_change_hash(rec: &AuditRecord) -> (r: String)
    ensures
        r@ == record_hash(*rec),
{
    let comment = match &rec.comment {
        Some(c) => Some(c.as_str()),
        None => None,
    };
    compute_change_hash(
        rec.rating_id,
        rec.domain_url.as_str(),
        rec.user_hash.as_str(),
        rec.trust_level,
        rec.bias_level,
        comment,
    )
}

/// Whether a stored record's hash matches its stored values.
pub fn entry_hash_valid(rec: &AuditRecord) -> (r: bool)
    ensures
        r == record_intact(*rec),
{
    let h = record_change_hash(rec);
    h == rec.change_hash
}

/// Builds the integrity report of a trail, judging each entry against the
/// matching recomputed hash.
pub fn assemble_report(rating_id: i64, trail: &Vec<AuditRecord>, digests: &Vec<String>) -> (r:
    IntegrityReport)
    requires
        trail@.len() == digests@.len(),
        fits_counter(trail@.len() as int),
    ensures
        reports(r, rating_id, trail@, digests@.map_values(|s: String| s@)),
{
    let ghost ds = digests@.map_values(|s: String| s@);
    let n = trail.len();
    let mut entries: Vec<AuditEntry> = Vec::new();
    let mut is_valid = true;
    let mut i: usize = 0;
    while i < n
        invariant
            n == trail@.len(),
            n == digests@.len(),
            ds == digests@.map_values(|s: String| s@),
            0 <= i <= n,
            entries@.len() == i,
            forall|k: int| 0 <= k < i ==> entry_reports(#[trigger] entries@[k], trail@[k], ds[k]),
            is_valid == (forall|k: int| 0 <= k < i ==> #[trigger] entries@[k].hash_valid),
        decreases n - i,
    {
        let rec = &trail[i];
        let hash_valid = rec.change_hash == digests[i];
        assert(ds[i as int] == digests@[i as int]@);
        if !hash_valid {
            is_valid = false;
        }
        let ghost before = entries@;
        entries.push(
            AuditEntry {
                id: rec.id,
                action_type: rec.action_type,
                trust_level: rec.trust_level,
                bias_level: rec.bias_level,
                changed_at: rec.changed_at,
                hash_valid,
            },
        );
        proof {
            assert forall|k: int| 0 <= k < i implies #[trigger] entries@[k] == before[k] by {}
            assert(entry_reports(entries@[i as int], trail@[i as int], ds[i as int]));
            if is_valid {
                assert forall|k: int| 0 <= k <= i implies #[trigger] entries@[k].hash_valid by {
                    if k < i {
                        assert(before[k].hash_valid);
                    }
                }
            } else if hash_valid {
                let w = choose|k: int| 0 <= k < i && !(#[trigger] before[k].hash_valid);
                assert(!entries@[w].hash_valid);
            } else {
                assert(!entries@[i as int].hash_valid);
            }
        }
        i = i + 1;
    }
    let created_at = if n == 0 {
        None
    } else {
        Some(trail[0].changed_at)
    };
    let last_modified = if n == 0 {
        None
    } else {
        Some(trail[n - 1].changed_at)
    };
    IntegrityReport {
        rating_id,
        is_valid,
        total_changes: n as i64,
        created_at,
        last_modified,
        audit_entries: entries,
    }
}

proof fn lemma_trail_step(log: Seq<AuditRecord>, rating_id: i64, i: int)
    requires
        0 <= i < log.len(),
    ensures
        trail_of(log.take(i + 1), rating_id) == if log[i].rating_id == rating_id {
            trail_of(log.take(i), rating_id).push(log[i])
        } else {
            trail_of(log.take(i), rating_id)
        },
{
    assert(log.take(i + 1).drop_last() =~= log.take(i));
}

proof fn lemma_trail_len(log: Seq<AuditRecord>, rating_id: i64)
    ensures
        trail_of(log, rating_id).len() <= log.len(),
    decreases log.len(),
{
    if log.len() > 0 {
        lemma_trail_len(log.drop_last(), rating_id);
    }
}

/// The ledger entries of one rating, in ledger order.
pub fn audit_trail(log: &Vec<AuditRecord>, rating_id: i64) -> (r: Vec<AuditRecord>)
    ensures
        r@ == trail_of(log@, rating_id),
{
    let n = log.len();
    let mut out: Vec<AuditRecord> = Vec::new();
    let mut i: usize = 0;
    assert(log@.take(0) =~= Seq::<AuditRecord>::empty());
    while i < n
        invariant
            n == log@.len(),
            0 <= i <= n,
            out@ == trail_of(log@.take(i as int), rating_id),
        decreases n - i,
    {
        proof {
            lemma_trail_step(log@, rating_id, i as int);
        }
        if log[i].rating_id == rating_id {
            out.push(copy_record(&log[i]));
        }
        i = i + 1;
    }
    assert(log@.take(n as int) =~= log@);
    out
}

/// `x` placed into `s` after every entry that changed no later than it, as a
/// stable insertion by `changed_at` does.
pub open spec fn insert_by_time(s: Seq<AuditRecord>, x: AuditRecord) -> Seq<AuditRecord>
    decreases s.len(),
{
    if s.len() == 0 {
        seq![x]
    } else if s.last().changed_at <= x.changed_at {
        s.push(x)
    } else {
        insert_by_time(s.drop_last(), x).push(s.last())
    }
}

/// The entries ordered by `changed_at`, entries that changed at the same time
/// keeping their ledger order.
pub open spec fn by_time(t: Seq<AuditRecord>) -> Seq<AuditRecord>
    decreases t.len(),
{
    if t.len() == 0 {
        Seq::empty()
    } else {
        insert_by_time(by_time(t.drop_last()), t.last())
    }
}

/// The entries are ordered by `changed_at`.
pub open spec fn time_sorted(t: Seq<AuditRecord>) -> bool {
    forall|i: int, j: int| 0 <= i < j < t.len() ==> (#[trigger] t[i]).changed_at <= (#[trigger] t[j]).changed_at
}

proof fn lemma_insert_at(s: Seq<AuditRecord>, x: AuditRecord, j: int)
    requires
        0 <= j <= s.len(),
        j == 0 || s[j - 1].changed_at <= x.changed_at,
        forall|k: int| j <= k < s.len() ==> (#[trigger] s[k]).changed_at > x.changed_at,
    ensures
        insert_by_time(s, x) == s.subrange(0, j).push(x) + s.subrange(j, s.len() as int),
    decreases s.len(),
{
    if s.len() == j {
        assert(s.subrange(0, j).push(x) + s.subrange(j, s.len() as int) =~= s.push(x));
        if s.len() == 0 {
            assert(s.push(x) =~= seq![x]);
        }
    } else {
        let init = s.drop_last();
        lemma_insert_at(init, x, j);
        assert(s.subrange(0, j).push(x) + s.subrange(j, s.len() as int) =~= (init.subrange(0, j).push(x)
            + init.subrange(j, init.len() as int)).push(s.last()));
    }
}

proof fn lemma_insert_facts(s: Seq<AuditRecord>, x: AuditRecord)
    ensures
        insert_by_time(s, x).len() == s.len() + 1,
        forall|i: int|
            0 <= i < insert_by_time(s, x).len() ==> (#[trigger] insert_by_time(s, x)[i] == x || exists|k: int|
                0 <= k < s.len() && s[k] == insert_by_time(s, x)[i]),
        time_sorted(s) ==> time_sorted(insert_by_time(s, x)),
    decreases s.len(),
{
    if s.len() > 0 && s.last().changed_at > x.changed_at {
        let init = s.drop_last();
        lemma_insert_facts(init, x);
        let r = insert_by_time(s, x);
        let r0 = insert_by_time(init, x);
        assert forall|i: int| 0 <= i < r.len() implies (#[trigger] r[i] == x || exists|k: int|
            0 <= k < s.len() && s[k] == r[i]) by {
            if i < r0.len() {
                assert(r[i] == r0[i]);
                if r0[i] != x {
                    let k = choose|k: int| 0 <= k < init.len() && init[k] == r0[i];
                    assert(s[k] == r[i]);
                }
            } else {
                assert(s[s.len() - 1] == r[i]);
            }
        }
        if time_sorted(s) {
            assert(time_sorted(init));
            assert forall|i: int, j: int| 0 <= i < j < r.len() implies (#[trigger] r[i]).changed_at
                <= (#[trigger] r[j]).changed_at by {
                if j == r.len() - 1 {
                    assert(r[j] == s.last());
                    assert(r[i] == r0[i]);
                    if r0[i] != x {
                        let k = choose|k: int| 0 <= k < init.len() && init[k] == r0[i];
                        assert(s[k] == init[k]);
                    }
                } else {
                    assert(r[i] == r0[i] && r[j] == r0[j]);
                }
            }
        }
    } else if s.len() > 0 {
        let r = insert_by_time(s, x);
        assert forall|i: int| 0 <= i < r.len() implies (#[trigger] r[i] == x || exists|k: int|
            0 <= k < s.len() && s[k] == r[i]) by {
            if i < s.len() {
                assert(s[i] == r[i]);
            }
        }
    }
}

/// Ordering a trail by time keeps its length, draws every entry from the
/// trail, and yields entries in ascending `changed_at` order.
pub proof fn lemma_by_time_facts(t: Seq<AuditRecord>)
    ensures
        by_time(t).len() == t.len(),
        forall|i: int|
            0 <= i < by_time(t).len() ==> exists|k: int| 0 <= k < t.len() && t[k] == #[trigger] by_time(t)[i],
        time_sorted(by_time(t)),
    decreases t.len(),
{
    if t.len() > 0 {
        let init = t.drop_last();
        lemma_by_time_facts(init);
        let b0 = by_time(init);
        lemma_insert_facts(b0, t.last());
        let b = by_time(t);
        assert forall|i: int| 0 <= i < b.len() implies exists|k: int| 0 <= k < t.len() && t[k] == #[trigger] b[i] by {
            if b[i] == t.last() {
                assert(t[t.len() - 1] == b[i]);
            } else {
                let k0 = choose|k: int| 0 <= k < b0.len() && b0[k] == b[i];
                let k = choose|k: int| 0 <= k < init.len() && init[k] == b0[k0];
                assert(t[k] == b[i]);
            }
        }
    } else {
        assert(time_sorted(Seq::<AuditRecord>::empty()));
    }
}

/// Inserts `x` after every entry that changed no later than it.
fn insert_in_time_order(out: &mut Vec<AuditRecord>, x: AuditRecord)
    ensures
        final(out)@ == insert_by_time(old(out)@, x),
{
    let ghost s = out@;
    let mut j = out.len();
    while j > 0 && out[j - 1].changed_at > x.changed_at
        invariant
            out@ == s,
            0 <= j <= s.len(),
            forall|k: int| j <= k < s.len() ==> (#[trigger] s[k]).changed_at > x.changed_at,
        decreases j,
    {
        j = j - 1;
    }
    proof {
        lemma_insert_at(s, x, j as int);
    }
    out.insert(j, x);
    assert(out@ =~= s.subrange(0, j as int).push(x) + s.subrange(j as int, s.len() as int));
}

/// The entries ordered by `changed_at`, ties kept in ledger order.
pub fn time_ordered(trail: &Vec<AuditRecord>) -> (r: Vec<AuditRecord>)
    ensures
        r@ == by_time(trail@),
{
    let mut out: Vec<AuditRecord> = Vec::new();
    let mut i: usize = 0;
    assert(trail@.take(0) =~= Seq::<AuditRecord>::empty());
    while i < trail.len()
        invariant
            0 <= i <= trail@.len(),
            out@ == by_time(trail@.take(i as int)),
        decreases trail@.len() - i,
    {
        proof {
            assert(trail@.take(i + 1).drop_last() =~= trail@.take(i as int));
        }
        insert_in_time_order(&mut out, copy_record(&trail[i]));
        i = i + 1;
    }
    assert(trail@.take(trail@.len() as int) =~= trail@);
    out
}

/// Whether some rating has the id `rating_id`.
fn find_rating_id(ratings: &Vec<Rating>, rating_id: i64) -> (r: bool)
    ensures
        r == rating_exists(ratings@, rating_id),
{
    let mut i: usize = 0;
    while i < ratings.len()
        invariant
            0 <= i <= ratings@.len(),
            forall|k: int| 0 <= k < i ==> #[trigger] ratings@[k].id != rating_id,
        decreases ratings@.len() - i,
    {
        if ratings[i].id == rating_id {
            return true;
        }
        i = i + 1;
    }
    false
}

/// Verifies the audit trail of a rating, ordered by `changed_at`: every
/// entry's hash is recomputed from its own stored values and compared with the
/// stored hash.
///
/// Fails with `NotFound` exactly when no rating has the id.
pub fn verify_rating_integrity(ratings: &Vec<Rating>, audit_log: &Vec<AuditRecord>, rating_id: i64) -> (r: Result<IntegrityReport, RatingError>)
    requires
        fits_counter(audit_log@.len() as int),
    ensures
        rating_exists(ratings@, rating_id) <==> r is Ok,
        r is Err ==> r == Err::<IntegrityReport, RatingError>(RatingError::NotFound),
        r is Ok ==> reports(
            r->Ok_0,
            rating_id,
            by_time(trail_of(audit_log@, rating_id)),
            recomputed(by_time(trail_of(audit_log@, rating_id))),
        ),
{
    if !find_rating_id(ratings, rating_id) {
        return Err(RatingError::NotFound);
    }
    let trail = time_ordered(&audit_trail(audit_log, rating_id));
    proof {
        lemma_trail_len(audit_log@, rating_id);
        lemma_by_time_facts(trail_of(audit_log@, rating_id));
    }
    let mut digests: Vec<String> = Vec::new();
    let mut i: usize = 0;
    while i < trail.len()
        invariant
            0 <= i <= trail@.len(),
            digests@.len() == i,
            forall|k: int| 0 <= k < i ==> (#[trigger] digests@[k])@ == record_hash(trail@[k]),
        decreases trail@.len() - i,
    {
        digests.push(record_change_hash(&trail[i]));
        i = i + 1;
    }
    let report = assemble_report(rating_id, &trail, &digests);
    assert(digests@.map_values(|s: String| s@) =~= recomputed(trail@));
    Ok(report)
}

proof fn lemma_orphan_step(ratings: Seq<Rating>, log: Seq<AuditRecord>, i: int)
    requires
        0 <= i < ratings.len(),
    ensures
        orphan_count(ratings.take(i + 1), log) == orphan_count(ratings.take(i), log) + if has_entry(
            log,
            ratings[i].id,
        ) {
            0int
        } else {
            1int
        },
{
    assert(ratings.take(i + 1).drop_last() =~= ratings.take(i));
}

proof fn lemma_invalid_step(log: Seq<AuditRecord>, i: int)
    requires
        0 <= i < log.len(),
    ensures
        invalid_count(log.take(i + 1)) == invalid_count(log.take(i)) + if record_intact(log[i]) {
            0int
        } else {
            1int
        },
{
    assert(log.take(i + 1).drop_last() =~= log.take(i));
}

proof fn lemma_latest_step(log: Seq<AuditRecord>, i: int)
    requires
        0 <= i < log.len(),
    ensures
        latest_change(log.take(i + 1)) == match latest_change(log.take(i)) {
            Some(t) => if t >= log[i].changed_at {
                Some(t)
            } else {
                Some(log[i].changed_at)
            },
            None => Some(log[i].changed_at),
        },
{
    assert(log.take(i + 1).drop_last() =~= log.take(i));
}

/// Whether some ledger entry belongs to `rating_id`.
fn has_audit_entry(log: &Vec<AuditRecord>, rating_id: i64) -> (r: bool)
    ensures
        r == has_entry(log@, rating_id),
{
    let mut j: usize = 0;
    while j < log.len()
        invariant
            0 <= j <= log@.len(),
            forall|k: int| 0 <= k < j ==> #[trigger] log@[k].rating_id != rating_id,
        decreases log@.len() - j,
    {
        if log[j].rating_id == rating_id {
            return true;
        }
        j = j + 1;
    }
    false
}

/// Counts the ratings that have no ledger entry at all.
pub fn count_orphaned(ratings: &Vec<Rating>, audit_log: &Vec<AuditRecord>) -> (r: i64)
    requires
        fits_counter(ratings@.len() as int),
    ensures
        r as int == orphan_count(ratings@, audit_log@),
{
    let n = ratings.len();
    let mut count: i64 = 0;
    let mut i: usize = 0;
    assert(ratings@.take(0) =~= Seq::<Rating>::empty());
    while i < n
        invariant
            n == ratings@.len(),
            fits_counter(n as int),
            0 <= i <= n,
            0 <= count <= i,
            count as int == orphan_count(ratings@.take(i as int), audit_log@),
        decreases n - i,
    {
        proof {
            lemma_orphan_step(ratings@, audit_log@, i as int);
        }
        if !has_audit_entry(audit_log, ratings[i].id) {
            count = count + 1;
        }
        i = i + 1;
    }
    assert(ratings@.take(n as int) =~= ratings@);
    count
}

/// Counts the ledger entries whose stored hash does not match their values.
pub fn count_invalid(audit_log: &Vec<AuditRecord>) -> (r: i64)
    requires
        fits_counter(audit_log@.len() as int),
    ensures
        r as int == invalid_count(audit_log@),
{
    let n = audit_log.len();
    let mut count: i64 = 0;
    let mut i: usize = 0;
    assert(audit_log@.take(0) =~= Seq::<AuditRecord>::empty());
    while i < n
        invariant
            n == audit_log@.len(),
            fits_counter(n as int),
            0 <= i <= n,
            0 <= count <= i,
            count as int == invalid_count(audit_log@.take(i as int)),
        decreases n - i,
    {
        proof {
            lemma_invalid_step(audit_log@, i as int);
        }
        if !entry_hash_valid(&audit_log[i]) {
            count = count + 1;
        }
        i = i + 1;
    }
    assert(audit_log@.take(n as int) =~= audit_log@);
    count
}

/// The health of the ratings and the ledger: orphaned ratings, and, when
/// `check` is `Full`, entries whose hash does not match. With `Skip` no hash is
/// recomputed and the invalid count is reported as 0.
pub fn integrity_status(
    ratings: &Vec<Rating>,
    audit_log: &Vec<AuditRecord>,
    check: HashCheck,
    checked_at: i64,
) -> (r: IntegrityStatus)
    requires
        fits_counter(ratings@.len() as int),
        fits_counter(audit_log@.len() as int),
    ensures
        r.total_ratings as int == ratings@.len(),
        r.total_audit_entries as int == audit_log@.len(),
        r.orphaned_ratings as int == orphan_count(ratings@, audit_log@),
        r.invalid_audit_entries as int == match check {
            HashCheck::Skip => 0,
            HashCheck::Full => invalid_count(audit_log@),
        },
        r.is_healthy == (r.orphaned_ratings == 0 && r.invalid_audit_entries == 0),
        r.checked_at == checked_at,
{
    let orphaned = count_orphaned(ratings, audit_log);
    let invalid = match check {
        HashCheck::Skip => 0,
        HashCheck::Full => count_invalid(audit_log),
    };
    IntegrityStatus {
        is_healthy: orphaned == 0 && invalid == 0,
        total_ratings: ratings.len() as i64,
        total_audit_entries: audit_log.len() as i64,
        invalid_audit_entries: invalid,
        orphaned_ratings: orphaned,
        checked_at,
    }
}

/// What a backup monitor reports: the latest ledger write and the table sizes.
/// `replication_lag_millis` is the replica's replay lag, passed through as
/// given; it is absent when the store is not a replica in recovery.
pub fn backup_status(
    ratings: &Vec<Rating>,
    audit_log: &Vec<AuditRecord>,
    replication_lag_millis: Option<i64>,
) -> (r: BackupStatus)
    requires
        fits_counter(ratings@.len() as int),
        fits_counter(audit_log@.len() as int),
    ensures
        r.last_audit_entry == latest_change(audit_log@),
        r.total_ratings as int == ratings@.len(),
        r.total_audit_entries as int == audit_log@.len(),
        r.replication_lag_millis == replication_lag_millis,
{
    let n = audit_log.len();
    let mut latest: Option<i64> = None;
    let mut i: usize = 0;
    assert(audit_log@.take(0) =~= Seq::<AuditRecord>::empty());
    while i < n
        invariant
            n == audit_log@.len(),
            0 <= i <= n,
            latest == latest_change(audit_log@.take(i as int)),
        decreases n - i,
    {
        proof {
            lemma_latest_step(audit_log@, i as int);
        }
        let t = audit_log[i].changed_at;
        latest = match latest {
            Some(l) => if l >= t {
                Some(l)
            } else {
                Some(t)
            },
            None => Some(t),
        };
        i = i + 1;
    }
    assert(audit_log@.take(n as int) =~= audit_log@);
    BackupStatus {
        last_audit_entry: latest,
        total_ratings: ratings.len() as i64,
        total_audit_entries: n as i64,
        replication_lag_millis,
    }
}

/// The canonical bytes hashed for a stored record.
pub open spec fn record_input(rec: AuditRecord) -> Seq<u8> {
    change_input(
        rec.rating_id,
        rec.domain_url@,
        rec.user_hash@,
        rec.trust_level,
        rec.bias_level,
        text_view(rec.comment),
    )
}

/// `b` is `a` with exactly one stored value changed, among those the hash
/// covers (domain, user, trust level, bias level, comment) and the stored hash
/// itself. An absent comment and an empty one count as the same value.
pub open spec fn one_hashed_field_changed(a: AuditRecord, b: AuditRecord) -> bool {
    let dom = b.domain_url@ != a.domain_url@;
    let usr = b.user_hash@ != a.user_hash@;
    let tru = b.trust_level != a.trust_level;
    let bia = b.bias_level != a.bias_level;
    let com = comment_chars(text_view(b.comment)) != comment_chars(text_view(a.comment));
    let same_com = text_view(b.comment) == text_view(a.comment);
    let hsh = b.change_hash@ != a.change_hash@;
    &&& b.id == a.id
    &&& b.rating_id == a.rating_id
    &&& b.action_type == a.action_type
    &&& b.changed_at == a.changed_at
    &&& {
        ||| dom && !usr && !tru && !bia && same_com && !hsh
        ||| !dom && usr && !tru && !bia && same_com && !hsh
        ||| !dom && !usr && tru && !bia && same_com && !hsh
        ||| !dom && !usr && !tru && bia && same_com && !hsh
        ||| !dom && !usr && !tru && !bia && com && !hsh
        ||| !dom && !usr && !tru && !bia && same_com && hsh
    }
}

/// A tampered record no longer matches its stored hash, provided SHA-256 gives
/// its changed input a digest different from the original's.
pub proof fn lemma_tampered_record_invalid(a: AuditRecord, b: AuditRecord)
    requires
        record_intact(a),
        one_hashed_field_changed(a, b),
        record_input(a) != record_input(b) ==> sha256_of(record_input(a)) != sha256_of(
            record_input(b),
        ),
    ensures
        !record_intact(b),
{
    if b.change_hash@ != a.change_hash@ {
        assert(record_input(b) == record_input(a));
    } else {
        lemma_change_input_field(
            a.rating_id,
            a.domain_url@,
            a.user_hash@,
            a.trust_level,
            a.bias_level,
            text_view(a.comment),
            b.domain_url@,
            b.user_hash@,
            b.trust_level,
            b.bias_level,
            text_view(b.comment),
        );
        if record_hash(b) == record_hash(a) {
            lemma_hex_injective(sha256_of(record_input(a)), sha256_of(record_input(b)));
        }
    }
}

/// Tamper detection: in the report on an intact trail, changing one stored,
/// hashed value of entry `i` flips that entry's `hash_valid` to false and the
/// report's `is_valid` to false, while every other entry stays valid. This
/// holds as long as SHA-256 gives the changed input a digest different from
/// the original's.
pub proof fn lemma_tamper_detected(
    rating_id: i64,
    trail: Seq<AuditRecord>,
    i: int,
    tampered: AuditRecord,
    before: IntegrityReport,
    after: IntegrityReport,
)
    requires
        0 <= i < trail.len(),
        forall|j: int| 0 <= j < trail.len() ==> record_intact(#[trigger] trail[j]),
        one_hashed_field_changed(trail[i], tampered),
        record_input(trail[i]) != record_input(tampered) ==> sha256_of(record_input(trail[i]))
            != sha256_of(record_input(tampered)),
        reports(before, rating_id, trail, recomputed(trail)),
        reports(after, rating_id, trail.update(i, tampered), recomputed(trail.update(i, tampered))),
    ensures
        before.is_valid,
        !after.audit_entries@[i].hash_valid,
        forall|j: int|
            0 <= j < trail.len() && j != i ==> (#[trigger] after.audit_entries@[j]).hash_valid,
        !after.is_valid,
{
    let t2 = trail.update(i, tampered);
    assert forall|j: int| 0 <= j < trail.len() implies #[trigger] before.audit_entries@[j].hash_valid by {
        assert(entry_reports(before.audit_entries@[j], trail[j], recomputed(trail)[j]));
    }
    lemma_tampered_record_invalid(trail[i], tampered);
    assert(entry_reports(after.audit_entries@[i], t2[i], recomputed(t2)[i]));
    assert forall|j: int| 0 <= j < trail.len() && j != i implies (#[trigger] after.audit_entries@[j]).hash_valid by {
        assert(entry_reports(after.audit_entries@[j], t2[j], recomputed(t2)[j]));
        assert(t2[j] == trail[j]);
        assert(record_intact(trail[j]));
    }
}

/// Orphan detection: adding a rating that no ledger entry belongs to raises the
/// orphan count by one, so a health report over the result is not healthy.
pub proof fn lemma_orphan_detected(ratings: Seq<Rating>, log: Seq<AuditRecord>, extra: Rating)
    requires
        !has_entry(log, extra.id),
    ensures
        orphan_count(ratings.push(extra), log) == orphan_count(ratings, log) + 1,
        orphan_count(ratings.push(extra), log) > 0,
{
    assert(ratings.push(extra).drop_last() =~= ratings);
    lemma_orphan_count_nonneg(ratings, log);
}

proof fn lemma_orphan_count_nonneg(ratings: Seq<Rating>, log: Seq<AuditRecord>)
    ensures
        orphan_count(ratings, log) >= 0,
    decreases ratings.len(),
{
    if ratings.len() > 0 {
        lemma_orphan_count_nonneg(ratings.drop_last(), log);
    }
}

} // verus!
