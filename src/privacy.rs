//! Browsing privacy: the incognito switch of a session and the history records.

use vstd::prelude::*;

verus! {

/// A visited page.
#[derive(Debug, Clone)]
pub struct HistoryEntry {
    pub id: i64,
    pub url: String,
    pub title: String,
    pub visited_at: String,
    pub profile_id: i64,
}

/// Summary of a profile's history.
#[derive(Debug, Clone)]
pub struct HistoryStats {
    pub total_pages: i64,
    pub total_domains: i64,
    pub most_visited: Vec<DomainVisitCount>,
    pub recent_pages: Vec<HistoryEntry>,
}

/// How often a domain was visited.
#[derive(Debug, Clone)]
pub struct DomainVisitCount {
    pub domain: String,
    pub visit_count: i64,
}

/// A span of time, as stored timestamps.
#[derive(Debug, Clone)]
pub struct DateRange {
    pub start: String,
    pub end: String,
}

/// Seconds in a day.
pub const SECONDS_PER_DAY: u64 = 86400;

/// The moment `days` days before `now_secs`, in seconds since the epoch, or the
/// epoch itself when that lies further back. History older than this is
/// what an automatic clean-up removes.
pub fn days_before(now_secs: u64, days: u32) -> (r: u64)
    ensures
        r as int == if now_secs >= days * SECONDS_PER_DAY {
            now_secs - days * SECONDS_PER_DAY
        } else {
            0
        },
{
    let span: u64 = days as u64 * SECONDS_PER_DAY;
    if now_secs >= span {
        now_secs - span
    } else {
        0
    }
}

/// Privacy settings of a session. Incognito mode lives in memory only: a new
/// manager starts with it off and nothing of it is stored.
pub struct PrivacyManager {
    db_path: String,
    incognito: bool,
}

impl PrivacyManager {
    /// Whether incognito mode is on.
    pub closed spec fn incognito_on(&self) -> bool {
        self.incognito
    }

    /// The database the history lives in.
    pub closed spec fn path(&self) -> Seq<char> {
        self.db_path@
    }

    /// A manager for the history in `db_path`, with incognito mode off.
    pub fn new(db_path: String) -> (r: PrivacyManager)
        ensures
            r.path() == db_path@,
            !r.incognito_on(),
    {
        PrivacyManager { db_path, incognito: false }
    }

    /// Whether incognito mode is currently on.
    pub fn is_incognito(&self) -> (r: bool)
        ensures
            r == self.incognito_on(),
    {
        self.incognito
    }

    /// Turns incognito mode on.
    pub fn enable_incognito(&mut self)
        ensures
            final(self).incognito_on(),
            final(self).path() == old(self).path(),
    {
        self.incognito = true;
    }

    /// Turns incognito mode off.
    pub fn disable_incognito(&mut self)
        ensures
            !final(self).incognito_on(),
            final(self).path() == old(self).path(),
    {
        self.incognito = false;
    }

    /// Flips incognito mode and returns the new state.
    pub fn toggle_incognito(&mut self) -> (r: bool)
        ensures
            r == !old(self).incognito_on(),
            final(self).incognito_on() == r,
            final(self).path() == old(self).path(),
    {
        self.incognito = !self.incognito;
        self.incognito
    }
}

} // verus!
