use earth_ratings::bookmarks::BookmarkManager;
use earth_ratings::local_ratings::{bias_label, history_means, trust_label, DomainRating, RatingManager};
use earth_ratings::privacy::days_before;
use earth_ratings::model::Ratio;
use earth_ratings::split_view::{SplitLayout, SplitViewManager};
use earth_ratings::tabs::TabManager;
use earth_ratings::theme::{get_preset_themes, ThemeManager};

#[test]
fn layouts_round_trip_through_names() {
    for layout in [SplitLayout::Single, SplitLayout::Horizontal, SplitLayout::Vertical, SplitLayout::Quad] {
        assert_eq!(SplitLayout::from_name(layout.as_str()), layout);
    }
    assert_eq!(SplitLayout::from_name("diagonal"), SplitLayout::Single);
    assert_eq!(SplitLayout::from_name("Quad"), SplitLayout::Single);
    assert_eq!(SplitLayout::from_name(""), SplitLayout::Single);
}

#[test]
fn pane_counts_and_cycling() {
    assert_eq!(SplitLayout::Single.max_panes(), 1);
    assert_eq!(SplitLayout::Vertical.max_panes(), 2);
    assert_eq!(SplitLayout::Quad.max_panes(), 4);
    assert_eq!(SplitLayout::Quad.cycle_pane(4, 1), 1);
    assert_eq!(SplitLayout::Quad.cycle_pane(2, 1), 3);
    assert_eq!(SplitLayout::Quad.cycle_pane(1, -1), 4);
    assert_eq!(SplitLayout::Horizontal.cycle_pane(2, 0), 1);
    assert_eq!(SplitLayout::Single.cycle_pane(1, 1), 1);
    assert!(SplitLayout::Horizontal.has_pane(2));
    assert!(!SplitLayout::Horizontal.has_pane(3));
    assert!(!SplitLayout::Quad.has_pane(0));
}

#[test]
fn summary_labels() {
    let r = |n: i64, d: i64| Ratio { numer: n, denom: d };
    assert_eq!(trust_label(r(3, 1)), "Moderate");
    assert_eq!(trust_label(r(1, 1)), "Very Low");
    assert_eq!(trust_label(r(3, 2)), "Low");
    assert_eq!(trust_label(r(7, 2)), "High");
    assert_eq!(trust_label(r(9, 2)), "Very High");
    assert_eq!(trust_label(r(17, 4)), "High");
    assert_eq!(bias_label(r(5, 2)), "Center-Right");
    assert_eq!(bias_label(r(1, 1)), "Left");
    assert_eq!(bias_label(r(2, 1)), "Center-Left");
    assert_eq!(bias_label(r(4, 1)), "Right");
}

#[test]
fn preset_catalogue() {
    let presets = get_preset_themes();
    assert_eq!(presets.len(), 6);
    assert_eq!(presets[0].id, "earthservers-default");
    assert_eq!(presets[0].primary_color, "#0fab89");
    assert_eq!(presets[5].name, "Lightning Bolt");
    assert_eq!(presets[5].card_bg_color, "#4c1d95");
}

#[test]
fn managers_are_built_from_paths() {
    let _ = BookmarkManager::new("b.db".to_string());
    let _ = RatingManager::new("r.db".to_string());
    let _ = SplitViewManager::new("s.db".to_string());
    let _ = TabManager::new("t.db".to_string());
    let _ = ThemeManager::new("th.db".to_string());
}

#[test]
fn history_cutoff_days_before() {
    assert_eq!(days_before(1_000_000, 1), 1_000_000 - 86_400);
    assert_eq!(days_before(1_000_000, 0), 1_000_000);
    assert_eq!(days_before(100, 1), 0);
    assert_eq!(days_before(u64::MAX, u32::MAX), u64::MAX - u32::MAX as u64 * 86_400);
}

#[test]
fn user_history_means() {
    let rating = |t: i32, b: i32| DomainRating {
        id: Some(1),
        domain_id: 1,
        user_id: "u".to_string(),
        trust_rating: t,
        bias_rating: b,
        review_text: None,
        created_at: "0".to_string(),
        updated_at: None,
        helpful_count: 0,
        reported: false,
    };
    let (t, b) = history_means(&vec![]);
    assert_eq!((t.numer, t.denom, b.numer, b.denom), (3, 1, 5, 2));
    let (t, b) = history_means(&vec![rating(5, 1), rating(2, 4), rating(2, 4)]);
    assert_eq!((t.numer, t.denom), (9, 3));
    assert_eq!((b.numer, b.denom), (9, 3));
}
