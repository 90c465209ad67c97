use earth_ratings::integrity::{integrity_status, time_ordered, verify_rating_integrity, HashCheck};
use earth_ratings::model::{
    ActionType, Rating, RatingAggregate, RatingError, ReportRequest, SubmitRatingRequest,
    VoteRequest,
};
use earth_ratings::store::RatingStore;

fn request(domain: &str, user: &str, trust: i32, bias: i32, comment: Option<&str>) -> SubmitRatingRequest {
    SubmitRatingRequest {
        domain_url: domain.to_string(),
        user_hash: user.to_string(),
        trust_level: trust,
        bias_level: bias,
        comment: comment.map(|c| c.to_string()),
    }
}

fn as_f64(numer: i64, denom: i64) -> f64 {
    numer as f64 / denom as f64
}

fn aggregate(store: &RatingStore, domain: &str) -> RatingAggregate {
    store.get_aggregate(&domain.to_string()).unwrap()
}

#[test]
fn scenario_single_rating() {
    let mut store = RatingStore::new();
    let rating = store.submit(request("example.com", "u1", 5, 2, None), 1000).unwrap();
    assert_eq!(rating.id, 1);
    assert_eq!(rating.created_at, 1000);
    assert_eq!(rating.updated_at, 1000);
    let agg = aggregate(&store, "example.com");
    assert_eq!(as_f64(agg.avg_trust_level.numer, agg.avg_trust_level.denom), 5.0);
    assert_eq!(as_f64(agg.avg_bias_level.numer, agg.avg_bias_level.denom), 2.0);
    assert_eq!(agg.total_ratings, 1);
    assert_eq!(agg.trust_distribution, vec![0, 0, 0, 0, 1]);
    assert_eq!(agg.bias_distribution, vec![0, 1, 0, 0]);
    assert_eq!(agg.last_updated, 1000);
}

#[test]
fn scenario_second_user() {
    let mut store = RatingStore::new();
    store.submit(request("example.com", "u1", 5, 2, None), 1000).unwrap();
    store.submit(request("example.com", "u2", 1, 4, None), 1001).unwrap();
    let agg = aggregate(&store, "example.com");
    assert_eq!(as_f64(agg.avg_trust_level.numer, agg.avg_trust_level.denom), 3.0);
    assert_eq!(as_f64(agg.avg_bias_level.numer, agg.avg_bias_level.denom), 3.0);
    assert_eq!(agg.total_ratings, 2);
    assert_eq!(agg.trust_distribution, vec![1, 0, 0, 0, 1]);
    assert_eq!(agg.bias_distribution, vec![0, 1, 0, 1]);
}

#[test]
fn out_of_range_levels_are_rejected_without_writes() {
    let mut store = RatingStore::new();
    for (trust, bias) in [(0, 2), (6, 2), (3, 0), (3, 5), (-1, -1), (i32::MAX, 1)] {
        let r = store.submit(request("example.com", "u1", trust, bias, Some("x")), 5);
        assert_eq!(r.unwrap_err(), RatingError::Validation);
    }
    assert_eq!(store.ratings().len(), 0);
    assert_eq!(store.audit_log().len(), 0);
    assert_eq!(store.aggregates().len(), 0);
    assert_eq!(store.get_aggregate(&"example.com".to_string()).unwrap_err(), RatingError::NotFound);
}

#[test]
fn level_bounds_are_accepted() {
    let mut store = RatingStore::new();
    assert!(store.submit(request("a.org", "u1", 1, 1, None), 1).is_ok());
    assert!(store.submit(request("a.org", "u2", 5, 4, None), 2).is_ok());
    assert_eq!(store.ratings().len(), 2);
}

#[test]
fn resubmission_overwrites_in_place() {
    let mut store = RatingStore::new();
    let first = store.submit(request("example.com", "u1", 5, 2, Some("good")), 10).unwrap();
    let second = store.submit(request("example.com", "u1", 2, 3, None), 20).unwrap();
    assert_eq!(first.id, second.id);
    assert_eq!(second.created_at, 10);
    assert_eq!(second.updated_at, 20);
    assert_eq!(second.comment, None);
    assert_eq!(store.ratings().len(), 1);
    assert_eq!(store.ratings()[0].trust_level, 2);
    let log = store.audit_log();
    assert_eq!(log.len(), 2);
    assert_eq!(log[0].action_type, ActionType::Create);
    assert_eq!(log[1].action_type, ActionType::Update);
    assert_eq!(log[0].rating_id, first.id);
    assert_eq!(log[1].rating_id, first.id);
    assert_eq!(log[1].trust_level, Some(2));
    let agg = aggregate(&store, "example.com");
    assert_eq!(agg.total_ratings, 1);
    assert_eq!(agg.trust_distribution, vec![0, 1, 0, 0, 0]);
    assert_eq!(agg.bias_distribution, vec![0, 0, 1, 0]);
    assert_eq!(agg.avg_trust_level.numer, 2);
    assert_eq!(agg.avg_trust_level.denom, 1);
}

#[test]
fn recompute_twice_gives_the_same_aggregate() {
    let mut store = RatingStore::new();
    store.submit(request("example.com", "u1", 4, 1, None), 1).unwrap();
    store.submit(request("example.com", "u2", 3, 2, None), 2).unwrap();
    store.submit(request("other.net", "u1", 1, 4, None), 3).unwrap();
    let domain = "example.com".to_string();
    let a = store.recompute(&domain, 50);
    let b = store.recompute(&domain, 50);
    assert_eq!(a.domain_url, b.domain_url);
    assert_eq!(a.avg_trust_level, b.avg_trust_level);
    assert_eq!(a.avg_bias_level, b.avg_bias_level);
    assert_eq!(a.total_ratings, b.total_ratings);
    assert_eq!(a.trust_distribution, b.trust_distribution);
    assert_eq!(a.bias_distribution, b.bias_distribution);
    assert_eq!(a.last_updated, b.last_updated);
    assert_eq!(store.ratings().len(), 3);
    assert_eq!(store.audit_log().len(), 3);
}

#[test]
fn recompute_of_unrated_domain_is_neutral() {
    let mut store = RatingStore::new();
    let agg = store.recompute(&"nobody.example".to_string(), 9);
    assert_eq!(agg.total_ratings, 0);
    assert_eq!(as_f64(agg.avg_trust_level.numer, agg.avg_trust_level.denom), 3.0);
    assert_eq!(as_f64(agg.avg_bias_level.numer, agg.avg_bias_level.denom), 2.5);
    assert_eq!(agg.trust_distribution, vec![0, 0, 0, 0, 0]);
    assert_eq!(agg.bias_distribution, vec![0, 0, 0, 0]);
}

#[test]
fn distributions_sum_to_total() {
    let mut store = RatingStore::new();
    let levels = [(1, 1), (2, 2), (3, 3), (4, 4), (5, 1), (5, 2), (3, 4)];
    for (i, (t, b)) in levels.iter().enumerate() {
        let user = format!("user{}", i);
        store.submit(request("mixed.org", &user, *t, *b, None), i as i64).unwrap();
    }
    store.submit(request("mixed.org", "user0", 2, 3, None), 99).unwrap();
    for agg in store.aggregates() {
        let trust: i64 = agg.trust_distribution.iter().sum();
        let bias: i64 = agg.bias_distribution.iter().sum();
        assert_eq!(trust, agg.total_ratings);
        assert_eq!(bias, agg.total_ratings);
    }
    assert_eq!(aggregate(&store, "mixed.org").total_ratings, 7);
}

#[test]
fn stored_trail_verifies() {
    let mut store = RatingStore::new();
    let r = store.submit(request("example.com", "u1", 5, 2, Some("ok")), 100).unwrap();
    store.submit(request("example.com", "u1", 4, 2, Some("ok")), 200).unwrap();
    let report = store.verify(r.id).unwrap();
    assert!(report.is_valid);
    assert_eq!(report.rating_id, r.id);
    assert_eq!(report.total_changes, 2);
    assert_eq!(report.created_at, Some(100));
    assert_eq!(report.last_modified, Some(200));
    assert!(report.audit_entries.iter().all(|e| e.hash_valid));
    assert_eq!(report.audit_entries[0].action_type, ActionType::Create);
    assert_eq!(report.audit_entries[1].trust_level, Some(4));
    let status = store.health_status(HashCheck::Full, 300);
    assert!(status.is_healthy);
    assert_eq!(status.invalid_audit_entries, 0);
    assert_eq!(status.orphaned_ratings, 0);
    assert_eq!(status.total_ratings, 1);
    assert_eq!(status.total_audit_entries, 2);
    assert_eq!(status.checked_at, 300);
}

#[test]
fn tampering_with_one_entry_flags_only_that_entry() {
    let mut store = RatingStore::new();
    let r = store.submit(request("example.com", "u1", 5, 2, None), 100).unwrap();
    store.submit(request("example.com", "u1", 3, 2, None), 200).unwrap();
    store.submit(request("example.com", "u1", 1, 1, Some("changed my mind")), 300).unwrap();
    let ratings = store.ratings().clone();

    let mut tampered = store.audit_log().clone();
    tampered[1].trust_level = Some(5);
    let report = verify_rating_integrity(&ratings, &tampered, r.id).unwrap();
    assert!(!report.is_valid);
    assert!(report.audit_entries[0].hash_valid);
    assert!(!report.audit_entries[1].hash_valid);
    assert!(report.audit_entries[2].hash_valid);

    let mut tampered = store.audit_log().clone();
    tampered[0].domain_url = "evil.com".to_string();
    let report = verify_rating_integrity(&ratings, &tampered, r.id).unwrap();
    assert!(!report.is_valid);
    assert!(!report.audit_entries[0].hash_valid);
    assert!(report.audit_entries[1].hash_valid);

    let mut tampered = store.audit_log().clone();
    tampered[2].comment = Some("changed my mind!".to_string());
    let report = verify_rating_integrity(&ratings, &tampered, r.id).unwrap();
    assert!(!report.audit_entries[2].hash_valid);
    assert!(!report.is_valid);

    let mut tampered = store.audit_log().clone();
    tampered[2].change_hash = "0".repeat(64);
    let report = verify_rating_integrity(&ratings, &tampered, r.id).unwrap();
    assert!(!report.audit_entries[2].hash_valid);
    assert!(report.audit_entries[0].hash_valid && report.audit_entries[1].hash_valid);

    let status = integrity_status(&ratings, &tampered, HashCheck::Full, 1);
    assert_eq!(status.invalid_audit_entries, 1);
    assert!(!status.is_healthy);
    let cheap = integrity_status(&ratings, &tampered, HashCheck::Skip, 1);
    assert_eq!(cheap.invalid_audit_entries, 0);
    assert!(cheap.is_healthy);
}

#[test]
fn orphaned_rating_makes_store_unhealthy() {
    let mut store = RatingStore::new();
    store.submit(request("example.com", "u1", 5, 2, None), 100).unwrap();
    let mut ratings = store.ratings().clone();
    ratings.push(Rating {
        id: 2,
        domain_url: "example.com".to_string(),
        user_hash: "u9".to_string(),
        trust_level: 3,
        bias_level: 3,
        comment: None,
        created_at: 150,
        updated_at: 150,
    });
    let before = integrity_status(store.ratings(), store.audit_log(), HashCheck::Skip, 200);
    assert_eq!(before.orphaned_ratings, 0);
    assert!(before.is_healthy);
    let after = integrity_status(&ratings, store.audit_log(), HashCheck::Skip, 200);
    assert_eq!(after.orphaned_ratings, 1);
    assert!(!after.is_healthy);
    let report = verify_rating_integrity(&ratings, store.audit_log(), 2).unwrap();
    assert_eq!(report.total_changes, 0);
    assert!(report.is_valid);
    assert_eq!(report.created_at, None);
    assert_eq!(report.last_modified, None);
}

#[test]
fn verify_unknown_rating_is_not_found() {
    let mut store = RatingStore::new();
    assert_eq!(store.verify(1).unwrap_err(), RatingError::NotFound);
    store.submit(request("example.com", "u1", 5, 2, None), 1).unwrap();
    assert!(store.verify(1).is_ok());
    assert_eq!(store.verify(2).unwrap_err(), RatingError::NotFound);
    assert_eq!(store.verify(0).unwrap_err(), RatingError::NotFound);
}

#[test]
fn votes_are_upserted_per_voter() {
    let mut store = RatingStore::new();
    let r = store.submit(request("example.com", "u1", 5, 2, None), 1).unwrap();
    let vote = |helpful: bool, voter: &str| VoteRequest { voter_hash: voter.to_string(), is_helpful: helpful };
    store.vote(r.id, vote(true, "v1")).unwrap();
    store.vote(r.id, vote(true, "v2")).unwrap();
    store.vote(r.id, vote(false, "v1")).unwrap();
    assert_eq!(store.votes().len(), 2);
    assert!(!store.votes()[0].is_helpful);
    assert!(store.votes()[1].is_helpful);
    assert_eq!(store.vote(7, vote(true, "v1")).unwrap_err(), RatingError::NotFound);
    assert_eq!(store.votes().len(), 2);
    assert_eq!(store.audit_log().len(), 1);
}

#[test]
fn reports_are_appended_without_dedup() {
    let mut store = RatingStore::new();
    let r = store.submit(request("example.com", "u1", 5, 2, None), 1).unwrap();
    let report = || ReportRequest { reporter_hash: "r1".to_string(), reason: "spam".to_string() };
    store.report(r.id, report(), 10).unwrap();
    store.report(r.id, report(), 11).unwrap();
    assert_eq!(store.reports().len(), 2);
    assert_eq!(store.reports()[1].reported_at, 11);
    assert_eq!(store.report(3, report(), 12).unwrap_err(), RatingError::NotFound);
    assert_eq!(store.reports().len(), 2);
}

#[test]
fn backup_status_reports_latest_entry() {
    let mut store = RatingStore::new();
    let empty = store.backup_status(None);
    assert_eq!(empty.last_audit_entry, None);
    assert_eq!(empty.total_ratings, 0);
    store.submit(request("a.org", "u1", 2, 2, None), 40).unwrap();
    store.submit(request("b.org", "u1", 2, 2, None), 70).unwrap();
    store.submit(request("a.org", "u1", 3, 2, None), 55).unwrap();
    let status = store.backup_status(Some(1500));
    assert_eq!(status.last_audit_entry, Some(70));
    assert_eq!(status.total_ratings, 2);
    assert_eq!(status.total_audit_entries, 3);
    assert_eq!(status.replication_lag_millis, Some(1500));
}

#[test]
fn aggregates_of_other_domains_are_untouched() {
    let mut store = RatingStore::new();
    store.submit(request("a.org", "u1", 5, 1, None), 1).unwrap();
    store.submit(request("b.org", "u1", 1, 4, None), 2).unwrap();
    store.submit(request("a.org", "u2", 4, 2, None), 3).unwrap();
    let b = aggregate(&store, "b.org");
    assert_eq!(b.total_ratings, 1);
    assert_eq!(b.last_updated, 2);
    let a = aggregate(&store, "a.org");
    assert_eq!(a.total_ratings, 2);
    assert_eq!(a.avg_trust_level.numer, 9);
    assert_eq!(a.avg_trust_level.denom, 2);
}

#[test]
fn reviews_rank_by_helpful_votes_then_recency() {
    let mut store = RatingStore::new();
    let a = store.submit(request("news.org", "ua", 3, 2, None), 10).unwrap();
    let b = store.submit(request("news.org", "ub", 4, 2, None), 20).unwrap();
    let c = store.submit(request("news.org", "uc", 5, 2, None), 30).unwrap();
    store.submit(request("other.org", "ua", 5, 2, None), 40).unwrap();
    let vote = |voter: &str, helpful: bool| VoteRequest { voter_hash: voter.to_string(), is_helpful: helpful };
    store.vote(a.id, vote("v1", true)).unwrap();
    store.vote(a.id, vote("v2", true)).unwrap();
    store.vote(b.id, vote("v1", true)).unwrap();
    store.vote(c.id, vote("v1", false)).unwrap();
    let reviews = store.get_domain_reviews(&"news.org".to_string());
    let ids: Vec<i64> = reviews.iter().map(|r| r.id).collect();
    assert_eq!(ids, vec![a.id, b.id, c.id]);
    store.vote(c.id, vote("v2", true)).unwrap();
    let reviews = store.get_domain_reviews(&"news.org".to_string());
    let ids: Vec<i64> = reviews.iter().map(|r| r.id).collect();
    assert_eq!(ids, vec![a.id, c.id, b.id]);
    assert!(store.get_domain_reviews(&"empty.org".to_string()).is_empty());
}

#[test]
fn reviews_are_capped_at_fifty_newest() {
    let mut store = RatingStore::new();
    for i in 0..60 {
        let user = format!("user{}", i);
        store.submit(request("busy.org", &user, 3, 2, None), 1000 + i).unwrap();
    }
    let reviews = store.get_domain_reviews(&"busy.org".to_string());
    assert_eq!(reviews.len(), 50);
    assert_eq!(reviews[0].created_at, 1059);
    assert_eq!(reviews[49].created_at, 1010);
    assert!(reviews.windows(2).all(|w| w[0].created_at > w[1].created_at));
}

#[test]
fn trail_is_reported_in_time_order() {
    let mut store = RatingStore::new();
    let r = store.submit(request("example.com", "u1", 5, 2, None), 200).unwrap();
    store.submit(request("example.com", "u1", 4, 2, None), 100).unwrap();
    store.submit(request("example.com", "u1", 3, 2, None), 150).unwrap();
    let report = store.verify(r.id).unwrap();
    let times: Vec<i64> = report.audit_entries.iter().map(|e| e.changed_at).collect();
    assert_eq!(times, vec![100, 150, 200]);
    assert_eq!(report.created_at, Some(100));
    assert_eq!(report.last_modified, Some(200));
    assert_eq!(report.audit_entries[2].action_type, ActionType::Create);
    assert!(report.is_valid);
}

#[test]
fn equal_times_keep_ledger_order() {
    let mut store = RatingStore::new();
    store.submit(request("a.org", "u1", 5, 2, None), 7).unwrap();
    store.submit(request("a.org", "u1", 4, 2, None), 7).unwrap();
    store.submit(request("a.org", "u1", 3, 2, None), 3).unwrap();
    let ordered = time_ordered(store.audit_log());
    let ids: Vec<i64> = ordered.iter().map(|e| e.id).collect();
    assert_eq!(ids, vec![3, 1, 2]);
}
