//! Community trust and bias ratings for web domains.
//!
//! The library keeps one rating per (domain, user) pair, an append-only
//! audit ledger whose entries each carry a SHA-256 digest of the values they
//! record, per-domain aggregates derived from the current ratings, and the
//! integrity and health reports built from those tables (`store`, `model`,
//! `aggregate`, `integrity`, `encoding`).
//!
//! Beside that core sit the records and pure decisions of the desktop
//! browser: incognito state, split-view panes, themes, tabs, bookmarks and
//! their import format, and the labels of a local rating summary.

mod digest;
pub mod aggregate;
pub mod bookmark_html;
pub mod bookmarks;
pub mod encoding;
pub mod integrity;
pub mod local_ratings;
pub mod model;
pub mod privacy;
pub mod split_view;
pub mod store;
pub mod tabs;
pub mod theme;
