//! Browser tabs and their navigation history.

use vstd::prelude::*;

verus! {

/// An open tab.
#[derive(Debug, Clone)]
pub struct Tab {
    pub id: i64,
    pub profile_id: i64,
    pub title: Option<String>,
    pub url: String,
    pub favicon: Option<String>,
    pub position: i32,
    pub is_pinned: bool,
    pub is_active: bool,
    pub scroll_position: i32,
    pub created_at: String,
    pub last_accessed: String,
}

/// A page in a tab's back / forward history.
#[derive(Debug, Clone)]
pub struct TabHistoryEntry {
    pub id: i64,
    pub tab_id: i64,
    pub url: String,
    pub title: Option<String>,
    pub visited_at: String,
    pub position: i32,
}

/// A request to open a tab.
#[derive(Debug, Clone)]
pub struct CreateTabRequest {
    pub profile_id: i64,
    pub url: String,
    pub title: Option<String>,
}

/// Tabs of the profiles in one database.
pub struct TabManager {
    db_path: String,
}

impl TabManager {
    /// The database the tabs live in.
    pub closed spec fn path(&self) -> Seq<char> {
        self.db_path@
    }

    /// A manager for the tabs in `db_path`.
    pub fn new(db_path: String) -> (r: TabManager)
        ensures
            r.path() == db_path@,
    {
        TabManager { db_path }
    }
}

} // verus!
