use bloomrepo::config::{AppConfig, ConfigError, EnvOverrides, FilteringConfig};
use bloomrepo::filter::RepoFilter;
use bloomrepo::models::RepoItem;

fn item() -> RepoItem {
    RepoItem {
        id: 1,
        name: "agent-tool".into(),
        full_name: "alice/agent-tool".into(),
        owner: "alice".into(),
        owner_type: None,
        html_url: "https://github.com/alice/agent-tool".into(),
        description: Some("A useful agent".into()),
        fork: false,
        stars: 0,
        forks_count: 0,
        language: Some("Rust".into()),
        license: None,
        topics: vec!["agent".into()],
        created_at: None,
        discovered_at: "now".into(),
        is_priority: false,
    }
}

#[test]
fn disabled_spam_filter_still_marks_priority() {
    let config = FilteringConfig {
        enable_spam_filter: false,
        priority_keywords: vec!["agent".into()],
        ..Default::default()
    };
    let filter = RepoFilter::new(config);
    let mut repo = item();
    assert!(filter.process(&mut repo));
    assert!(repo.is_priority);
}

#[test]
fn spam_rules_reject() {
    let filter = RepoFilter::new(FilteringConfig::default());
    let mut fork = item();
    fork.fork = true;
    assert!(!filter.process(&mut fork));
    let mut generated = item();
    generated.name = "repo-123".into();
    assert!(!filter.process(&mut generated));
    let mut homework = item();
    homework.name = "homework-week1".into();
    assert!(!filter.process(&mut homework));
    let mut fine = item();
    assert!(filter.process(&mut fine));
    assert!(!fine.is_priority);
}

#[test]
fn description_and_language_rules() {
    let config = FilteringConfig {
        min_description_length: 10,
        allowed_languages: vec!["rust".into(), "Go".into()],
        ..Default::default()
    };
    let filter = RepoFilter::new(config);
    let mut short = item();
    short.description = Some("   short   ".into());
    assert!(!filter.process(&mut short));
    let mut none = item();
    none.description = None;
    assert!(!filter.process(&mut none));
    let mut rust = item();
    assert!(filter.process(&mut rust));
    let mut python = item();
    python.language = Some("Python".into());
    assert!(!filter.process(&mut python));
    let mut unknown = item();
    unknown.language = None;
    assert!(!filter.process(&mut unknown));
}

#[test]
fn priority_from_name_description_or_topic() {
    let config = FilteringConfig {
        priority_keywords: vec!["LLM".into()],
        ..Default::default()
    };
    let filter = RepoFilter::new(config);
    let mut by_topic = item();
    by_topic.topics = vec!["Local-LLM".into()];
    assert!(filter.process(&mut by_topic));
    assert!(by_topic.is_priority);
    let mut by_description = item();
    by_description.description = Some("an llm toolkit".into());
    assert!(filter.process(&mut by_description));
    assert!(by_description.is_priority);
    let mut plain = item();
    plain.is_priority = true;
    assert!(filter.process(&mut plain));
    assert!(!plain.is_priority);
    // A second pass changes nothing.
    let mut again = by_topic.clone();
    assert!(filter.process(&mut again));
    assert!(again.is_priority);
}

#[test]
fn uncompilable_patterns_are_skipped_by_the_filter() {
    let config = FilteringConfig {
        ignore_name_patterns: vec!["(".into(), "^bad$".into()],
        ..Default::default()
    };
    let filter = RepoFilter::new(config);
    let mut bad = item();
    bad.name = "bad".into();
    assert!(!filter.process(&mut bad));
    assert!(filter.process(&mut item()));
}

fn no_env() -> EnvOverrides {
    EnvOverrides {
        github_tokens: None,
        github_token: None,
        github_user_agent: None,
        github_timeout_seconds: None,
        discord_webhook_url: None,
        telegram_bot_token: None,
        telegram_chat_id: None,
        webhook_url: None,
    }
}

fn invalid_message(config: AppConfig) -> String {
    match config.validate() {
        Err(ConfigError::Invalid(m)) => m,
        _ => panic!("expected an invalid configuration"),
    }
}

#[test]
fn defaults_pass_validation() {
    let config = AppConfig::default();
    assert_eq!(config.general.interval_seconds, 30);
    assert_eq!(config.filtering.ignore_name_patterns.len(), 4);
    assert!(config.validate().is_ok());
}

#[test]
fn each_invalid_value_is_named() {
    let mut c = AppConfig::default();
    c.general.interval_seconds = 4;
    assert_eq!(invalid_message(c), "general.interval_seconds must be at least 5");
    let mut c = AppConfig::default();
    c.general.max_pages_per_cycle = 1001;
    assert_eq!(invalid_message(c), "general.max_pages_per_cycle must be between 1 and 1000");
    let mut c = AppConfig::default();
    c.general.lookback_hours = 721;
    assert_eq!(invalid_message(c), "general.lookback_hours must be between 1 and 720");
    let mut c = AppConfig::default();
    c.general.max_concurrent_requests = 0;
    assert_eq!(invalid_message(c), "general.max_concurrent_requests must be between 1 and 32");
    let mut c = AppConfig::default();
    c.auth.timeout_seconds = 301;
    assert_eq!(invalid_message(c), "auth.timeout_seconds must be between 1 and 300");
    let mut c = AppConfig::default();
    c.notifications.timeout_seconds = 0;
    assert_eq!(invalid_message(c), "notifications.timeout_seconds must be between 1 and 120");
    let mut c = AppConfig::default();
    c.notifications.telegram_chat_id = Some("1".into());
    assert_eq!(invalid_message(c), "Telegram bot token and chat ID must be configured together");
    let mut c = AppConfig::default();
    c.filtering.ignore_name_patterns = vec!["ok".into(), "(".into()];
    assert!(invalid_message(c).starts_with("invalid ignore_name_patterns regex '(': "));
}

#[test]
fn environment_overrides_configuration() {
    let mut env = no_env();
    env.github_tokens = Some(" a , b\n\n,c ".into());
    env.github_token = Some("ignored".into());
    env.github_timeout_seconds = Some("42".into());
    env.webhook_url = Some("https://hook".into());
    let config = AppConfig::default().finish_load(&env).expect("valid");
    assert_eq!(config.auth.tokens, vec!["a".to_string(), "b".to_string(), "c".to_string()]);
    assert_eq!(config.auth.timeout_seconds, 42);
    assert_eq!(config.notifications.webhook_url.as_deref(), Some("https://hook"));

    let mut env = no_env();
    env.github_token = Some("   ".into());
    env.github_timeout_seconds = Some("x".into());
    let mut config = AppConfig::default();
    config.auth.tokens = vec!["kept".into()];
    config.apply_environment(&env);
    assert_eq!(config.auth.tokens, vec!["kept".to_string()]);
    assert_eq!(config.auth.timeout_seconds, 25);

    let mut env = no_env();
    env.github_token = Some(" tok ".into());
    env.github_timeout_seconds = Some("0".into());
    let mut config = AppConfig::default();
    config.apply_environment(&env);
    assert_eq!(config.auth.tokens, vec![" tok ".to_string()]);
    assert!(matches!(
        config.finish_load(&env),
        Err(ConfigError::Invalid(m)) if m == "auth.timeout_seconds must be between 1 and 300"
    ));
}

#[test]
fn environment_applied_twice_is_applied_once() {
    let mut env = no_env();
    env.github_tokens = Some("x, y".into());
    env.github_user_agent = Some("agent/1".into());
    env.telegram_bot_token = Some("bot".into());
    let mut once = AppConfig::default();
    once.apply_environment(&env);
    let mut twice = once.clone();
    twice.apply_environment(&env);
    assert_eq!(once.auth.tokens, twice.auth.tokens);
    assert_eq!(once.auth.user_agent, twice.auth.user_agent);
    assert_eq!(twice.auth.tokens, vec!["x".to_string(), "y".to_string()]);
    assert_eq!(twice.notifications.telegram_bot_token.as_deref(), Some("bot"));
    assert_eq!(once.notifications.telegram_chat_id, twice.notifications.telegram_chat_id);
}
