//! Themes: the stored look of a profile and the built-in presets.

use vstd::prelude::*;

verus! {

/// A profile's theme as stored.
#[derive(Debug, Clone)]
pub struct Theme {
    pub id: Option<i64>,
    pub profile_id: i64,
    pub name: String,
    pub is_active: bool,
    pub base_preset: String,
    pub primary_color: String,
    pub secondary_color: String,
    pub accent_color: String,
    pub text_color: String,
    pub background_color: String,
    pub background_gradient_enabled: bool,
    pub background_gradient_angle: i32,
    pub background_gradient_from: Option<String>,
    pub background_gradient_to: Option<String>,
    pub card_bg_color: String,
    pub card_opacity: i32,
    pub card_gradient_enabled: bool,
    pub card_gradient_color1: Option<String>,
    pub card_gradient_color2: Option<String>,
    pub navbar_color: Option<String>,
    pub navbar_opacity: i32,
    pub custom_css: Option<String>,
    pub extra_settings: Option<String>,
    pub created_at: String,
    pub updated_at: Option<String>,
}

/// A built-in theme.
#[derive(Debug, Clone)]
pub struct PresetTheme {
    pub id: String,
    pub name: String,
    pub primary_color: String,
    pub secondary_color: String,
    pub accent_color: String,
    pub text_color: String,
    pub background_color: String,
    pub background_gradient_from: String,
    pub background_gradient_to: String,
    pub card_bg_color: String,
}

/// The fields of a preset, in declaration order.
pub open spec fn preset_fields(p: PresetTheme) -> Seq<Seq<char>> {
    seq![
        p.id@,
        p.name@,
        p.primary_color@,
        p.secondary_color@,
        p.accent_color@,
        p.text_color@,
        p.background_color@,
        p.background_gradient_from@,
        p.background_gradient_to@,
        p.card_bg_color@,
    ]
}

/// The built-in presets, each given by its fields in declaration order.
pub open spec fn preset_catalog() -> Seq<Seq<Seq<char>>> {
    seq![
        seq!["earthservers-default"@, "EarthServers Default"@, "#0fab89"@, "#e91e63"@, "#0178C6"@, "#f0f0f0"@, "#0a0a0f"@, "#0a0a0f"@, "#1a1a2e"@, "#1a1a2e"@],
        seq!["ocean-turtle"@, "Ocean Turtle"@, "#0d4f4f"@, "#1a8f8f"@, "#2dd4bf"@, "#e0f2f1"@, "#042f2e"@, "#042f2e"@, "#0d4f4f"@, "#0d4f4f"@],
        seq!["mountain-eagle"@, "Mountain Eagle"@, "#374151"@, "#6b7280"@, "#f59e0b"@, "#f9fafb"@, "#111827"@, "#111827"@, "#1f2937"@, "#1f2937"@],
        seq!["sun-fire"@, "Sun Fire"@, "#7c2d12"@, "#c2410c"@, "#fb923c"@, "#fef3c7"@, "#431407"@, "#431407"@, "#7c2d12"@, "#7c2d12"@],
        seq!["air-clouds"@, "Air Clouds"@, "#1e3a5f"@, "#3b82f6"@, "#93c5fd"@, "#f0f9ff"@, "#0c1929"@, "#0c1929"@, "#1e3a5f"@, "#1e3a5f"@],
        seq!["lightning-bolt"@, "Lightning Bolt"@, "#4c1d95"@, "#7c3aed"@, "#a78bfa"@, "#f5f3ff"@, "#2e1065"@, "#2e1065"@, "#4c1d95"@, "#4c1d95"@],
    ]
}

fn preset(
    id: &str,
    name: &str,
    primary: &str,
    secondary: &str,
    accent: &str,
    text: &str,
    background: &str,
    gradient_from: &str,
    gradient_to: &str,
    card: &str,
) -> (r: PresetTheme)
    ensures
        preset_fields(r) == seq![
            id@,
            name@,
            primary@,
            secondary@,
            accent@,
            text@,
            background@,
            gradient_from@,
            gradient_to@,
            card@,
        ],
{
    let r = PresetTheme {
        id: id.to_owned(),
        name: name.to_owned(),
        primary_color: primary.to_owned(),
        secondary_color: secondary.to_owned(),
        accent_color: accent.to_owned(),
        text_color: text.to_owned(),
        background_color: background.to_owned(),
        background_gradient_from: gradient_from.to_owned(),
        background_gradient_to: gradient_to.to_owned(),
        card_bg_color: card.to_owned(),
    };
    assert(preset_fields(r) =~= seq![
        id@,
        name@,
        primary@,
        secondary@,
        accent@,
        text@,
        background@,
        gradient_from@,
        gradient_to@,
        card@,
    ]);
    r
}

/// The built-in themes, in catalogue order.
pub fn get_preset_themes() -> (r: Vec<PresetTheme>)
    ensures
        r@.len() == preset_catalog().len(),
        forall|k: int| 0 <= k < r@.len() ==> preset_fields(#[trigger] r@[k]) == preset_catalog()[k],
{
    let mut themes: Vec<PresetTheme> = Vec::new();
    themes.push(preset("earthservers-default", "EarthServers Default", "#0fab89", "#e91e63", "#0178C6", "#f0f0f0", "#0a0a0f", "#0a0a0f", "#1a1a2e", "#1a1a2e"));
    themes.push(preset("ocean-turtle", "Ocean Turtle", "#0d4f4f", "#1a8f8f", "#2dd4bf", "#e0f2f1", "#042f2e", "#042f2e", "#0d4f4f", "#0d4f4f"));
    themes.push(preset("mountain-eagle", "Mountain Eagle", "#374151", "#6b7280", "#f59e0b", "#f9fafb", "#111827", "#111827", "#1f2937", "#1f2937"));
    themes.push(preset("sun-fire", "Sun Fire", "#7c2d12", "#c2410c", "#fb923c", "#fef3c7", "#431407", "#431407", "#7c2d12", "#7c2d12"));
    themes.push(preset("air-clouds", "Air Clouds", "#1e3a5f", "#3b82f6", "#93c5fd", "#f0f9ff", "#0c1929", "#0c1929", "#1e3a5f", "#1e3a5f"));
    themes.push(preset("lightning-bolt", "Lightning Bolt", "#4c1d95", "#7c3aed", "#a78bfa", "#f5f3ff", "#2e1065", "#2e1065", "#4c1d95", "#4c1d95"));
    themes
}

/// Themes of the profiles in one database.
pub struct ThemeManager {
    db_path: String,
}

impl ThemeManager {
    /// The database the themes live in.
    pub closed spec fn path(&self) -> Seq<char> {
        self.db_path@
    }

    /// A manager for the themes in `db_path`.
    pub fn new(db_path: String) -> (r: ThemeManager)
        ensures
            r.path() == db_path@,
    {
        ThemeManager { db_path }
    }
}

} // verus!
