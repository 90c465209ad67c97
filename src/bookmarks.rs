//! Bookmarks, their folders, and the export format.

use vstd::prelude::*;

verus! {

/// A saved page.
#[derive(Debug, Clone)]
pub struct Bookmark {
    pub id: i64,
    pub profile_id: i64,
    pub title: String,
    pub url: String,
    pub favicon: Option<String>,
    pub folder_id: Option<i64>,
    pub folder_name: Option<String>,
    pub tags: Vec<String>,
    pub notes: Option<String>,
    pub position: i32,
    pub created_at: String,
    pub updated_at: String,
}

/// A folder of bookmarks; folders may nest.
#[derive(Debug, Clone)]
pub struct BookmarkFolder {
    pub id: i64,
    pub profile_id: i64,
    pub name: String,
    pub parent_id: Option<i64>,
    pub position: i32,
    pub created_at: String,
    pub bookmark_count: Option<i64>,
}

/// A request to save a page.
#[derive(Debug, Clone)]
pub struct CreateBookmarkRequest {
    pub profile_id: i64,
    pub title: String,
    pub url: String,
    pub folder_id: Option<i64>,
    pub tags: Vec<String>,
    pub notes: Option<String>,
}

/// All bookmarks and folders of a profile, as exported.
#[derive(Debug, Clone)]
pub struct BookmarkExport {
    pub version: i32,
    pub exported_at: String,
    pub bookmarks: Vec<BookmarkExportItem>,
    pub folders: Vec<FolderExportItem>,
}

/// An exported bookmark; its folder is named rather than numbered.
#[derive(Debug, Clone)]
pub struct BookmarkExportItem {
    pub title: String,
    pub url: String,
    pub folder: Option<String>,
    pub tags: Vec<String>,
    pub notes: Option<String>,
    pub created_at: String,
}

/// An exported folder; its parent is named rather than numbered.
#[derive(Debug, Clone)]
pub struct FolderExportItem {
    pub name: String,
    pub parent: Option<String>,
}

/// Bookmarks of the profiles in one database.
pub struct BookmarkManager {
    db_path: String,
}

impl BookmarkManager {
    /// The database the bookmarks live in.
    pub closed spec fn path(&self) -> Seq<char> {
        self.db_path@
    }

    /// A manager for the bookmarks in `db_path`.
    pub fn new(db_path: String) -> (r: BookmarkManager)
        ensures
            r.path() == db_path@,
    {
        BookmarkManager { db_path }
    }
}

} // verus!
