use earth_ratings::privacy::PrivacyManager;

#[test]
fn test_incognito_toggle() {
    let mut privacy = PrivacyManager::new(":memory:".to_string());

    // Start in non-incognito
    privacy.disable_incognito();
    assert!(!privacy.is_incognito());

    // Toggle on
    let state = privacy.toggle_incognito();
    assert!(state);
    assert!(privacy.is_incognito());

    // Toggle off
    let state = privacy.toggle_incognito();
    assert!(!state);
    assert!(!privacy.is_incognito());
}

#[test]
fn incognito_starts_off_and_enables() {
    let mut privacy = PrivacyManager::new("history.db".to_string());
    assert!(!privacy.is_incognito());
    privacy.enable_incognito();
    assert!(privacy.is_incognito());
    privacy.enable_incognito();
    assert!(privacy.is_incognito());
}
