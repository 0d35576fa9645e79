//! The crawl cursors that persist between runs.
use vstd::prelude::*;
use crate::clock::{clock_text, now_text};
use crate::models::clone_opt;

verus! {

/// Where each stream of the crawler stands.
#[derive(Debug)]
pub struct AppState {
    pub schema_version: u32,
    /// The id after which the sequential listing continues (`last_id` in
    /// state files of the first schema).
    pub sequential_since: i64,
    /// The next page of the sequential listing, while a walk is unfinished.
    pub sequential_next_url: Option<String>,
    /// Repositories created after this moment are searched for.
    pub search_watermark: String,
    pub last_search_at: i64,
    pub last_events_at: i64,
    pub events_etag: Option<String>,
    pub search_etag: Option<String>,
    pub checked: String,
}

impl AppState {
    /// A fresh state at the moment `now` (RFC 3339 text).
    pub fn starting_at(now: String) -> (s: Self)
        ensures
            s.schema_version == 2,
            s.sequential_since == 0,
            s.sequential_next_url is None,
            s.search_watermark@ == now@,
            s.last_search_at == 0,
            s.last_events_at == 0,
            s.events_etag is None,
            s.search_etag is None,
            s.checked@ == now@,
    {
        AppState {
            schema_version: 2,
            sequential_since: 0,
            sequential_next_url: None,
            search_watermark: now.clone(),
            last_search_at: 0,
            last_events_at: 0,
            events_etag: None,
            search_etag: None,
            checked: now,
        }
    }
}

impl Default for AppState {
    /// A fresh state: schema 2, no cursor, and the current time as search
    /// watermark and check time.
    fn default() -> (s: Self)
        ensures
            s.schema_version == 2,
            s.sequential_since == 0,
            s.sequential_next_url is None,
            s.last_search_at == 0,
            s.last_events_at == 0,
            s.events_etag is None,
            s.search_etag is None,
            clock_text(s.search_watermark@),
            clock_text(s.checked@),
    {
        let watermark = now_text();
        let checked = now_text();
        AppState {
            schema_version: 2,
            sequential_since: 0,
            sequential_next_url: None,
            search_watermark: watermark,
            last_search_at: 0,
            last_events_at: 0,
            events_etag: None,
            search_etag: None,
            checked,
        }
    }
}

impl Clone for AppState {
    fn clone(&self) -> (s: Self)
        ensures
            s == *self,
    {
        AppState {
            schema_version: self.schema_version,
            sequential_since: self.sequential_since,
            sequential_next_url: clone_opt(&self.sequential_next_url),
            search_watermark: self.search_watermark.clone(),
            last_search_at: self.last_search_at,
            last_events_at: self.last_events_at,
            events_etag: clone_opt(&self.events_etag),
            search_etag: clone_opt(&self.search_etag),
            checked: self.checked.clone(),
        }
    }
}

} // verus!
