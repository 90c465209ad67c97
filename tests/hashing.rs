use earth_ratings::encoding::change_hash_input;
use earth_ratings::integrity::{compute_change_hash, entry_hash_valid, record_change_hash};
use earth_ratings::model::{ActionType, AuditRecord};

#[test]
fn change_hash_input_layout() {
    let bytes = change_hash_input(1, "example.com", "u1", Some(5), Some(2), None);
    assert_eq!(bytes, b"1|example.com|u1|5|2|".to_vec());
    let bytes = change_hash_input(-7, "a", "b", None, None, Some("note"));
    assert_eq!(bytes, b"-7|a|b|||note".to_vec());
    let bytes = change_hash_input(i64::MIN, "", "", Some(-3), Some(40), Some(""));
    assert_eq!(bytes, b"-9223372036854775808|||-3|40|".to_vec());
    let bytes = change_hash_input(1234567890, "d\u{e9}", "u", Some(0), Some(10), None);
    assert_eq!(bytes, "1234567890|d\u{e9}|u|0|10|".as_bytes().to_vec());
}

#[test]
fn change_hash_is_hex_sha256() {
    let h = compute_change_hash(1, "example.com", "u1", Some(5), Some(2), None);
    assert_eq!(h, "ee72aa1c49fa67b0bd3deb1d4ac48d4ecc1aca633eeb099380e11295dd724fec");
    let h = compute_change_hash(-7, "a", "b", None, None, Some("note"));
    assert_eq!(h, "20cbd4938b41084e52e3d3fe73c0766a473f5f261cb3456293a5ca4d3f3b1112");
    assert_eq!(h.len(), 64);
}

#[test]
fn absent_and_empty_comment_hash_alike() {
    let a = compute_change_hash(3, "x.org", "u", Some(1), Some(1), None);
    let b = compute_change_hash(3, "x.org", "u", Some(1), Some(1), Some(""));
    assert_eq!(a, b);
}

#[test]
fn record_hash_matches_its_fields() {
    let mut rec = AuditRecord {
        id: 1,
        rating_id: 1,
        action_type: ActionType::Create,
        domain_url: "example.com".to_string(),
        user_hash: "u1".to_string(),
        trust_level: Some(5),
        bias_level: Some(2),
        comment: None,
        changed_at: 0,
        change_hash: "ee72aa1c49fa67b0bd3deb1d4ac48d4ecc1aca633eeb099380e11295dd724fec".to_string(),
    };
    assert_eq!(record_change_hash(&rec), rec.change_hash);
    assert!(entry_hash_valid(&rec));
    rec.changed_at = 99;
    rec.action_type = ActionType::Update;
    assert!(entry_hash_valid(&rec));
    rec.user_hash = "u2".to_string();
    assert!(!entry_hash_valid(&rec));
}

#[test]
fn action_type_names() {
    assert_eq!(ActionType::Create.as_str(), "create");
    assert_eq!(ActionType::Update.as_str(), "update");
}
