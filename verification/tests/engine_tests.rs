use bloomrepo::config::FilteringConfig;
use bloomrepo::engine::{
    anchor_cursor, cursor_from_candidates, cursor_initialized_message, events_poll_message,
    log_entry, merge_candidates, raw_to_item_at, search_is_due, search_query,
    search_rate_limited_message, select_new, sequential_rate_limited_message, sort_by_id, triage,
    CursorAnchor, CycleWork, SequentialScan,
};
use bloomrepo::engine::{initial_state, raw_to_item, record_check, record_search};
use bloomrepo::crawler::{CrawlerError, Page};
use bloomrepo::filter::RepoFilter;
use bloomrepo::models::{GithubLicenseRaw, GithubOwnerRaw, GithubRepositoryRaw, RepoItem};
use bloomrepo::state::AppState;
use std::collections::HashSet;

fn raw(id: i64, full_name: &str) -> GithubRepositoryRaw {
    GithubRepositoryRaw {
        id,
        name: full_name.rsplit('/').next().unwrap().into(),
        full_name: full_name.into(),
        owner: Some(GithubOwnerRaw { login: "o".into(), owner_type: Some("User".into()) }),
        html_url: format!("https://github.com/{full_name}"),
        description: Some("a description".into()),
        fork: false,
        stargazers_count: 5,
        forks_count: 1,
        language: Some("Rust".into()),
        license: Some(GithubLicenseRaw { key: None, name: Some("MIT License".into()), spdx_id: None }),
        topics: vec!["x".into()],
        created_at: None,
    }
}

fn item(id: i64, name: &str) -> RepoItem {
    RepoItem {
        id,
        name: name.into(),
        full_name: format!("e/{name}"),
        owner: "e".into(),
        owner_type: None,
        html_url: format!("https://github.com/e/{name}"),
        description: Some("from an event".into()),
        fork: false,
        stars: 0,
        forks_count: 0,
        language: None,
        license: None,
        topics: vec![],
        created_at: None,
        discovered_at: "t".into(),
        is_priority: false,
    }
}

#[test]
fn raw_results_become_records() {
    let r = raw_to_item_at(&raw(9, "bob/thing"), "when".into());
    assert_eq!(r.owner, "bob");
    assert_eq!(r.name, "thing");
    assert_eq!(r.owner_type.as_deref(), Some("User"));
    assert_eq!(r.license.as_deref(), Some("MIT License"));
    assert_eq!(r.stars, 5);
    assert_eq!(r.discovered_at, "when");
    let mut no_slash = raw(3, "plain");
    no_slash.name = "own-name".into();
    no_slash.license = Some(GithubLicenseRaw { key: None, name: Some("n".into()), spdx_id: Some("MIT".into()) });
    let r = raw_to_item_at(&no_slash, "w".into());
    assert_eq!(r.owner, "unknown");
    assert_eq!(r.name, "own-name");
    assert_eq!(r.license.as_deref(), Some("MIT"));
}

#[test]
fn merge_keeps_first_of_each_id() {
    let raws = vec![raw(5, "a/five"), raw(3, "a/three"), raw(5, "a/again")];
    let events = vec![item(3, "dup"), item(8, "eight")];
    let merged = merge_candidates(&raws, &events);
    let ids: Vec<i64> = merged.iter().map(|r| r.id).collect();
    assert_eq!(ids, vec![5, 3, 8]);
    assert_eq!(merged[0].name, "five");
    assert_eq!(merged[2].name, "eight");
}

#[test]
fn triage_counts_and_sorts() {
    let filter = RepoFilter::new(FilteringConfig {
        priority_keywords: vec!["event".into()],
        ..Default::default()
    });
    let mut fork = item(4, "forked");
    fork.fork = true;
    let candidates = vec![item(9, "nine"), fork, item(2, "repo-1"), item(5, "five")];
    let t = triage(&filter, &candidates);
    assert_eq!(t.spam_count, 2);
    let ids: Vec<i64> = t.accepted.iter().map(|r| r.id).collect();
    assert_eq!(ids, vec![5, 9]);
    assert_eq!(t.priority_count, 2);
    assert!(t.accepted.iter().all(|r| r.is_priority));
}

#[test]
fn sorting_is_stable() {
    let items = vec![item(2, "b1"), item(1, "a"), item(2, "b2")];
    let sorted = sort_by_id(&items);
    let names: Vec<&str> = sorted.iter().map(|r| r.name.as_str()).collect();
    assert_eq!(names, vec!["a", "b1", "b2"]);
}

#[test]
fn only_unstored_items_are_new() {
    let accepted = vec![item(1, "a"), item(2, "b"), item(3, "c")];
    let existing: HashSet<i64> = [2].into_iter().collect();
    let fresh = select_new(&accepted, &existing);
    let ids: Vec<i64> = fresh.iter().map(|r| r.id).collect();
    assert_eq!(ids, vec![1, 3]);
}

#[test]
fn cursor_choices() {
    assert_eq!(anchor_cursor(0, true, 40), CursorAnchor::FromDatabase(40));
    assert_eq!(anchor_cursor(0, true, 0), CursorAnchor::FromGithub);
    assert_eq!(anchor_cursor(7, true, 40), CursorAnchor::Keep);
    assert_eq!(anchor_cursor(0, false, 40), CursorAnchor::Keep);
    let raws = vec![raw(5, "a/b"), raw(11, "a/c")];
    let events = vec![item(30, "e")];
    assert_eq!(cursor_from_candidates(0, &raws, &events), 11);
    assert_eq!(cursor_from_candidates(0, &vec![], &events), 30);
    assert_eq!(cursor_from_candidates(0, &vec![], &vec![]), 0);
    assert_eq!(cursor_from_candidates(4, &raws, &events), 4);
}

#[test]
fn sequential_walk_moves_the_cursor_at_the_end() {
    let mut state = AppState::starting_at("2026-01-01T00:00:00Z".into());
    state.sequential_since = 100;
    let mut scan = SequentialScan::start(&state, 2);
    assert_eq!(
        scan.next_request().as_deref(),
        Some("https://api.github.com/repositories?since=100&per_page=100")
    );
    scan.record_page(&vec![raw(150, "a/b"), raw(120, "a/c")], Some("next-page".into()));
    assert_eq!(scan.next_request().as_deref(), Some("next-page"));
    scan.record_page(&vec![raw(180, "a/d")], None);
    assert_eq!(scan.next_request(), None);
    scan.finish(&mut state);
    assert_eq!(state.sequential_since, 180);
    assert_eq!(state.sequential_next_url, None);
}

#[test]
fn unfinished_walk_resumes_next_cycle() {
    let mut state = AppState::starting_at("x".into());
    state.sequential_since = 100;
    let mut scan = SequentialScan::start(&state, 1);
    scan.record_page(&vec![raw(150, "a/b")], Some("page-2".into()));
    assert_eq!(scan.next_request(), None);
    scan.finish(&mut state);
    assert_eq!(state.sequential_since, 100);
    assert_eq!(state.sequential_next_url.as_deref(), Some("page-2"));
    let scan = SequentialScan::start(&state, 1);
    assert_eq!(scan.next_request().as_deref(), Some("page-2"));
}

#[test]
fn search_schedule_and_query() {
    assert!(search_is_due(1000, 900, 60));
    assert!(!search_is_due(1000, 990, 60));
    assert_eq!(
        search_query("2026-09-22T18:00:00+02:00", 3),
        "created:>2026-09-22T16:00:00Z"
    );
    assert!(search_query("not a time", 3).starts_with("created:>"));
}

#[test]
fn status_messages_and_log_lines() {
    assert_eq!(cursor_initialized_message(-5), " Initialized cursor at #-5.");
    assert_eq!(events_poll_message(60), " Events poll=60s.");
    assert_eq!(search_rate_limited_message(9), " Search rate limited for 9s.");
    assert_eq!(sequential_rate_limited_message(0), " Sequential rate limited for 0s.");
    let mut r = item(1, "x");
    assert_eq!(log_entry(&r), "e/x | from an event\n  https://github.com/e/x\n");
    r.description = None;
    assert_eq!(log_entry(&r), "e/x | no description\n  https://github.com/e/x\n");
}

fn page<T>(items: Vec<T>, next_url: Option<&str>) -> Page<T> {
    Page { items, next_url: next_url.map(Into::into), etag: None, poll_interval: None }
}

#[test]
fn cycle_work_walk_and_rate_limits() {
    let mut state = AppState::starting_at("x".into());
    state.sequential_since = 100;
    let mut work = CycleWork::new(state);
    let mut scan = SequentialScan::start(&work.state, 5);
    work.take_page(&mut scan, page(vec![raw(140, "a/b")], None));
    assert_eq!(work.raw.len(), 1);
    assert_eq!(work.state.sequential_since, 100);
    assert!(work.end_scan(scan, None));
    assert_eq!(work.state.sequential_since, 140);

    let mut scan = SequentialScan::start(&work.state, 5);
    work.take_page(&mut scan, page(vec![raw(190, "a/c")], Some("more")));
    assert!(work.end_scan(scan, Some(CrawlerError::RateLimited(30))));
    assert_eq!(work.state.sequential_since, 140);
    assert_eq!(work.state.sequential_next_url, None);
    assert_eq!(work.status, " Sequential rate limited for 30s.");
    assert_eq!(work.raw.len(), 2);

    let scan = SequentialScan::start(&work.state, 5);
    assert!(!work.end_scan(scan, Some(CrawlerError::Http("down".into()))));
    assert_eq!(work.state.sequential_since, 140);
}

#[test]
fn cycle_work_failed_streams_leave_the_state() {
    let mut work = CycleWork::new(AppState::starting_at("2026-01-01T00:00:00Z".into()));
    work.state.events_etag = Some("old".into());
    work.take_events(Err(CrawlerError::Json("bad".into())));
    assert_eq!(work.state.events_etag.as_deref(), Some("old"));
    assert_eq!(work.state.last_events_at, 0);
    work.take_search(Err(CrawlerError::Api { status: 500, body: "x".into() }));
    assert_eq!(work.state.search_watermark, "2026-01-01T00:00:00Z");
    assert_eq!(work.state.last_search_at, 0);
    assert_eq!(work.status, "");
    work.take_search(Err(CrawlerError::RateLimited(12)));
    assert_eq!(work.status, " Search rate limited for 12s.");
    assert_eq!(work.state.last_search_at, 0);
}

#[test]
fn cycle_work_collects_answers() {
    let mut work = CycleWork::new(AppState::starting_at("2026-01-01T00:00:00Z".into()));
    work.anchor_from_github(None);
    assert_eq!(work.state.sequential_since, 0);
    let mut events = page(vec![item(30, "thirty"), item(7, "seven")], None);
    events.etag = Some("tag".into());
    events.poll_interval = Some(60);
    work.take_events(Ok(events));
    assert_eq!(work.state.events_etag.as_deref(), Some("tag"));
    assert!(work.state.last_events_at > 0);
    assert_eq!(work.status, " Events poll=60s.");
    work.take_search(Ok(page(vec![raw(7, "a/seven"), raw(12, "a/twelve")], None)));
    assert!(work.state.last_search_at > 0);
    assert_ne!(work.state.search_watermark, "2026-01-01T00:00:00Z");
    let filter = RepoFilter::new(FilteringConfig::default());
    let t = work.collect(&filter);
    assert_eq!(work.state.sequential_since, 12);
    let ids: Vec<i64> = t.accepted.iter().map(|r| r.id).collect();
    assert_eq!(ids, vec![7, 12, 30]);
    assert_eq!(t.accepted[0].name, "seven");
    assert_eq!(t.accepted[0].full_name, "a/seven");
    assert_eq!(t.spam_count, 0);
}

#[test]
fn cycle_work_anchors() {
    let mut work = CycleWork::new(AppState::starting_at("x".into()));
    work.anchor_from_database(55);
    assert_eq!(work.state.sequential_since, 55);
    assert_eq!(work.status, "");
    let mut work = CycleWork::new(AppState::starting_at("x".into()));
    work.anchor_from_github(Some(99));
    assert_eq!(work.state.sequential_since, 99);
    assert_eq!(work.status, " Initialized cursor at #99.");
}

#[test]
fn cycle_reports_each_repository_once() {
    let mut work = CycleWork::new(AppState::starting_at("x".into()));
    work.raw = vec![raw(4, "a/four"), raw(6, "a/six"), raw(4, "a/four-again")];
    work.events = vec![item(6, "six"), item(8, "eight"), item(8, "eight-again")];
    let filter = RepoFilter::new(FilteringConfig::default());
    let t = work.collect(&filter);
    let stored: HashSet<i64> = [6].into_iter().collect();
    let fresh = select_new(&t.accepted, &stored);
    let ids: Vec<i64> = fresh.iter().map(|r| r.id).collect();
    assert_eq!(ids, vec![4, 8]);
    assert_eq!(fresh[0].full_name, "a/four");
    assert_eq!(fresh[1].name, "eight");
}

fn parse_moment(text: &str) -> chrono::DateTime<chrono::Utc> {
    chrono::DateTime::parse_from_rfc3339(text).expect("RFC 3339 text").with_timezone(&chrono::Utc)
}

#[test]
fn clock_fields_are_written_as_rfc3339() {
    let fresh = AppState::starting_at("not a time".into());
    let s = initial_state(fresh, 3);
    let lag = chrono::Utc::now() - parse_moment(&s.search_watermark);
    assert!((179..=181).contains(&lag.num_minutes()));

    let mut kept = AppState::starting_at("2026-01-01T00:00:00Z".into());
    kept.last_search_at = 5;
    let same = initial_state(kept, 3);
    assert_eq!(same.search_watermark, "2026-01-01T00:00:00Z");

    let mut s = s;
    record_search(&mut s);
    assert_eq!(s.last_search_at - parse_moment(&s.search_watermark).timestamp(), 120);
    assert!((chrono::Utc::now().timestamp() - s.last_search_at).abs() <= 5);

    let mut s = AppState::starting_at("not a time".into());
    record_check(&mut s);
    let lag = chrono::Utc::now() - parse_moment(&s.checked);
    assert!(lag.num_seconds().abs() <= 5);
    assert_eq!(s.search_watermark, "not a time");
}

#[test]
fn streams_chosen_by_the_cycle() {
    let mut work = CycleWork::new(AppState::starting_at("x".into()));
    assert!(work.anchor_wanted(true));
    assert!(!work.anchor_wanted(false));
    assert!(!work.walk_wanted(true));
    work.anchor_from_database(10);
    assert!(!work.anchor_wanted(true));
    assert!(work.walk_wanted(true));
    assert!(!work.walk_wanted(false));
    work.state.last_search_at = 1000;
    assert!(work.search_wanted(true, 1060, 60));
    assert!(!work.search_wanted(true, 1059, 60));
    assert!(!work.search_wanted(false, 5000, 60));
}

#[test]
fn events_poll_time_is_now() {
    let mut work = CycleWork::new(AppState::starting_at("x".into()));
    work.take_events(Ok(page(vec![], None)));
    assert!((chrono::Utc::now().timestamp() - work.state.last_events_at).abs() <= 5);
}

#[test]
fn stamps_and_defaults_are_clock_readings() {
    let r = raw_to_item(&raw(3, "a/b"));
    assert!((chrono::Utc::now() - parse_moment(&r.discovered_at)).num_seconds().abs() <= 5);
    let d = AppState::default();
    assert!((chrono::Utc::now() - parse_moment(&d.search_watermark)).num_seconds().abs() <= 5);
    assert!((chrono::Utc::now() - parse_moment(&d.checked)).num_seconds().abs() <= 5);
    let far = initial_state(AppState::starting_at("x".into()), 1_000_000);
    let lag = chrono::Utc::now() - parse_moment(&far.search_watermark);
    assert!((999_999..=1_000_001).contains(&lag.num_hours()));
}

#[test]
fn sorting_keeps_equal_ids_in_order() {
    let items = vec![item(3, "c1"), item(1, "a1"), item(3, "c2"), item(1, "a2"), item(2, "b")];
    let sorted = sort_by_id(&items);
    let names: Vec<&str> = sorted.iter().map(|r| r.name.as_str()).collect();
    assert_eq!(names, vec!["a1", "a2", "b", "c1", "c2"]);
}
