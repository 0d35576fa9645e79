use bloomrepo::cli::{log_level, CliOptions, LogLevel, RunMode};
use bloomrepo::decimal::{format_i64, format_u128, parse_i64, parse_u32, parse_u64};
use bloomrepo::engine::CycleResult;
use bloomrepo::gui::{
    apply_command, cycle_failed_status, cycle_report, next_step, scanning_status, BackgroundStep,
    Dashboard, GuiCommand, GuiEvent,
};
use bloomrepo::models::RepoItem;
use bloomrepo::state::AppState;
use bloomrepo::text::{contains_str, equal_ignoring_ascii_case, split_once_at, trimmed};
use bloomrepo::ui::{badge_of, language_label, short_description, RepoBadge};

fn item(id: i64) -> RepoItem {
    RepoItem {
        id,
        name: format!("r{id}"),
        full_name: format!("u/r{id}"),
        owner: "u".into(),
        owner_type: None,
        html_url: "h".into(),
        description: None,
        fork: false,
        stars: 0,
        forks_count: 0,
        language: None,
        license: None,
        topics: vec![],
        created_at: None,
        discovered_at: "t".into(),
        is_priority: false,
    }
}

#[test]
fn integers_parse_as_rust_does() {
    assert_eq!(parse_u64("+5"), Some(5));
    assert_eq!(parse_u64("-5"), None);
    assert_eq!(parse_u64(""), None);
    assert_eq!(parse_u64("+"), None);
    assert_eq!(parse_u64("18446744073709551615"), Some(u64::MAX));
    assert_eq!(parse_u64("18446744073709551616"), None);
    assert_eq!(parse_u64(" 5"), None);
    assert_eq!(parse_u32("4294967296"), None);
    assert_eq!(parse_u32("007"), Some(7));
    assert_eq!(parse_i64("-9223372036854775808"), Some(i64::MIN));
    assert_eq!(parse_i64("9223372036854775808"), None);
    assert_eq!(parse_i64("-"), None);
    assert_eq!(parse_i64("+12"), Some(12));
}

#[test]
fn integers_format_as_rust_does() {
    assert_eq!(format_i64(i64::MIN), i64::MIN.to_string());
    assert_eq!(format_i64(0), "0");
    assert_eq!(format_u128(u128::MAX), u128::MAX.to_string());
    assert_eq!(format_u128(10), "10");
}

#[test]
fn text_helpers() {
    assert_eq!(trimmed("\u{3000} a b \t\n"), "a b");
    assert!(contains_str("haystack", "st"));
    assert!(contains_str("abc", ""));
    assert!(!contains_str("ab", "abc"));
    assert!(equal_ignoring_ascii_case("RuSt", "rust"));
    assert!(!equal_ignoring_ascii_case("Ü", "ü"));
    assert_eq!(split_once_at("a/b/c", '/'), Some(("a".to_string(), "b/c".to_string())));
    assert_eq!(split_once_at("abc", '/'), None);
}

#[test]
fn log_levels_by_name() {
    assert_eq!(log_level(" WARNING "), LogLevel::Warn);
    assert_eq!(log_level("trace"), LogLevel::Trace);
    assert_eq!(log_level("Error"), LogLevel::Error);
    assert_eq!(log_level("verbose"), LogLevel::Info);
}

fn args(list: &[&str]) -> Vec<String> {
    list.iter().map(|s| s.to_string()).collect()
}

#[test]
fn command_line_modes() {
    let o = CliOptions::parse(&args(&["app"]));
    assert_eq!(o.config_path, "config.toml");
    assert!(matches!(o.mode(), RunMode::Gui));
    let o = CliOptions::parse(&args(&["app", "--once", "--config", "c.toml"]));
    assert_eq!(o.config_path, "c.toml");
    assert!(matches!(o.mode(), RunMode::Console { once: true }));
    let o = CliOptions::parse(&args(&["app", "--cli", "--gui"]));
    assert!(matches!(o.mode(), RunMode::Gui));
    let o = CliOptions::parse(&args(&["app", "--terminal"]));
    assert!(matches!(o.mode(), RunMode::Console { once: false }));
    let o = CliOptions::parse(&args(&["app", "--search", "rust", "--stats"]));
    assert!(matches!(o.mode(), RunMode::Stats));
    let o = CliOptions::parse(&args(&["app", "--search"]));
    assert!(matches!(o.mode(), RunMode::Search(None)));
    let o = CliOptions::parse(&args(&["app", "--search", "rust"]));
    assert!(matches!(o.mode(), RunMode::Search(Some(q)) if q == "rust"));
    let o = CliOptions::parse(&args(&["app", "--stats", "--rebuild-fts"]));
    assert!(matches!(o.mode(), RunMode::RebuildIndex));
    let o = CliOptions::parse(&args(&["app", "--config"]));
    assert_eq!(o.config_path, "config.toml");
}

#[test]
fn dashboard_feed_is_newest_first_and_bounded() {
    let mut d = Dashboard::new(1, 2, 3, vec![item(1)]);
    assert_eq!(d.status_text, "Engine ready — monitoring active");
    d.apply_event(GuiEvent::NewBatch(vec![item(2), item(3)]), "12:00:00".into());
    let ids: Vec<i64> = d.feed.iter().map(|r| r.id).collect();
    assert_eq!(ids, vec![3, 2, 1]);
    let big: Vec<RepoItem> = (10..610).map(item).collect();
    d.apply_event(GuiEvent::NewBatch(big), "12:00:01".into());
    assert_eq!(d.feed.len(), 500);
    assert_eq!(d.feed[0].id, 609);
    d.apply_event(
        GuiEvent::CycleFinished {
            cycle: 4,
            new_count: 2,
            priority_total: 9,
            spam_count: 5,
            duration_ms: 1234,
            db_total: 100,
            today_total: 7,
        },
        "12:00:02".into(),
    );
    assert_eq!(d.status_text, "Cycle #4 completed · 2 new · 1234 ms");
    assert_eq!(d.spam_filtered, 5);
    assert_eq!(d.total_repos, 100);
    assert_eq!(d.last_cycle.as_deref(), Some("12:00:02"));
    d.apply_event(GuiEvent::Status("hello".into()), "x".into());
    assert_eq!(d.status_text, "hello");
}

#[test]
fn dashboard_switches() {
    let mut d = Dashboard::new(0, 0, 0, vec![]);
    assert_eq!(d.toggle_monitoring(), GuiCommand::SetPaused(true));
    assert!(!d.monitoring);
    assert_eq!(d.toggle_monitoring(), GuiCommand::SetPaused(false));
    let mut fork = item(1);
    fork.fork = true;
    let mut hot = item(2);
    hot.is_priority = true;
    d.feed = vec![fork.clone(), hot.clone(), item(3)];
    assert_eq!(d.visible_positions(), vec![1, 2]);
    d.priority_only = true;
    assert_eq!(d.visible_positions(), vec![1]);
    assert_eq!(badge_of(&hot), RepoBadge::Priority);
    assert_eq!(badge_of(&fork), RepoBadge::Fork);
    assert_eq!(badge_of(&item(4)), RepoBadge::New);
}

#[test]
fn console_labels() {
    let mut r = item(1);
    assert_eq!(short_description(&r), "No description");
    r.description = Some("x".repeat(100));
    assert_eq!(short_description(&r).chars().count(), 80);
    assert_eq!(language_label(&r), "General");
}

#[test]
fn fresh_state() {
    let s = AppState::starting_at("2026-09-22T18:00:00Z".into());
    assert_eq!(s.schema_version, 2);
    assert_eq!(s.sequential_since, 0);
    assert_eq!(s.search_watermark, "2026-09-22T18:00:00Z");
    assert_eq!(s.checked, "2026-09-22T18:00:00Z");
    let d = AppState::default();
    assert_eq!(d.schema_version, 2);
    assert_eq!(d.last_search_at, 0);
}

#[test]
fn background_cycle_reports() {
    assert!(matches!(scanning_status(3), GuiEvent::Status(m) if m == "Scanning cycle #3…"));
    assert!(matches!(cycle_failed_status("down"), GuiEvent::Status(m) if m == "Cycle failed: down"));
    let result = CycleResult {
        cycle: 4,
        items: vec![item(1), item(2)],
        spam_count: 5,
        priority_count: 1,
        duration_ms: 70,
        db_total: 9,
        status: String::new(),
    };
    let events = cycle_report(result, Some((40, 3, 2)));
    assert_eq!(events.len(), 2);
    assert!(matches!(&events[0], GuiEvent::NewBatch(items) if items.len() == 2));
    assert!(matches!(events[1], GuiEvent::CycleFinished {
        cycle: 4, new_count: 2, priority_total: 2, spam_count: 5, duration_ms: 70, db_total: 40, today_total: 3
    }));
    let quiet = CycleResult { cycle: 5, items: vec![], spam_count: 0, priority_count: 0, duration_ms: 1, db_total: 9, status: String::new() };
    let events = cycle_report(quiet, None);
    assert_eq!(events.len(), 1);
    assert!(matches!(events[0], GuiEvent::CycleFinished { db_total: 9, today_total: 0, priority_total: 0, new_count: 0, .. }));
}

#[test]
fn background_pause_commands() {
    let mut paused = false;
    for c in [GuiCommand::SetPaused(true), GuiCommand::TriggerScan, GuiCommand::TriggerScan] {
        paused = apply_command(paused, c);
    }
    assert!(paused);
    assert_eq!(next_step(paused), BackgroundStep::WaitForCommand);
    paused = apply_command(paused, GuiCommand::SetPaused(false));
    assert_eq!(next_step(paused), BackgroundStep::RunCycle);
    assert!(!apply_command(false, GuiCommand::TriggerScan));
}
