//! The service's configuration: its sections and their defaults, the
//! environment variables that override them, and the checks a loaded
//! configuration must pass.
use vstd::prelude::*;
use crate::decimal::{parse_u64, parsed_u64};
use crate::models::{clone_opt, opt_view};
use crate::pattern::{pattern_error, regex_error};
use crate::text::{owned, push_all, split_on, split_trimmed, string_views, trim, trimmed, trimmed_nonempty, Delim};

verus! {

broadcast use vstd::string::group_string_axioms;

/// Why a configuration could not be loaded.
#[derive(Debug)]
pub enum ConfigError {
    /// The file could not be read.
    Read { path: String, message: String },
    /// The file is not valid TOML for a configuration.
    Parse(String),
    /// A value is out of range.
    Invalid(String),
}

#[derive(Clone, Debug)]
pub struct AppConfig {
    pub general: GeneralConfig,
    pub auth: AuthConfig,
    pub streams: StreamsConfig,
    pub filtering: FilteringConfig,
    pub storage: StorageConfig,
    pub notifications: NotificationsConfig,
}

#[derive(Clone, Debug)]
pub struct GeneralConfig {
    pub interval_seconds: u64,
    pub max_pages_per_cycle: usize,
    pub lookback_hours: i64,
    pub log_level: String,
    pub max_concurrent_requests: usize,
    pub search_interval_seconds: u64,
}

#[derive(Clone, Debug)]
pub struct AuthConfig {
    pub tokens: Vec<String>,
    pub timeout_seconds: u64,
    pub user_agent: String,
}

#[derive(Clone, Debug)]
pub struct StreamsConfig {
    pub enable_sequential_stream: bool,
    pub enable_events_stream: bool,
    pub enable_search_stream: bool,
    pub search_queries: Vec<String>,
}

#[derive(Clone, Debug)]
pub struct FilteringConfig {
    pub enable_spam_filter: bool,
    pub ignore_forks: bool,
    pub min_description_length: usize,
    pub ignore_name_patterns: Vec<String>,
    pub priority_keywords: Vec<String>,
    pub allowed_languages: Vec<String>,
}

#[derive(Clone, Debug)]
pub struct StorageConfig {
    pub database_path: String,
    pub state_path: String,
    pub enable_wal: bool,
    pub enable_log_file: bool,
    pub enable_jsonl_stream: bool,
}

#[derive(Clone, Debug)]
pub struct NotificationsConfig {
    pub enable_windows_toast: bool,
    pub toast_priority_only: bool,
    pub timeout_seconds: u64,
    pub max_items_per_message: usize,
    pub discord_webhook_url: Option<String>,
    pub telegram_bot_token: Option<String>,
    pub telegram_chat_id: Option<String>,
    pub webhook_url: Option<String>,
}

// ---------------------------------------------------------------------------
// Defaults
// ---------------------------------------------------------------------------

pub fn default_interval() -> (r: u64)
    ensures
        r == 30,
{
    30
}

pub fn default_max_pages() -> (r: usize)
    ensures
        r == 5,
{
    5
}

pub fn default_lookback() -> (r: i64)
    ensures
        r == 3,
{
    3
}

pub fn default_log_level() -> (r: String)
    ensures
        r@ == "info"@,
{
    owned("info")
}

pub fn default_max_concurrent() -> (r: usize)
    ensures
        r == 4,
{
    4
}

pub fn default_search_interval() -> (r: u64)
    ensures
        r == 60,
{
    60
}

pub fn default_timeout() -> (r: u64)
    ensures
        r == 25,
{
    25
}

pub fn default_user_agent() -> (r: String)
    ensures
        r@ == "BloomRepo/2.1 (+https://github.com/)"@,
{
    owned("BloomRepo/2.1 (+https://github.com/)")
}

pub fn default_true() -> (r: bool)
    ensures
        r,
{
    true
}

pub fn default_db_path() -> (r: String)
    ensures
        r@ == "repos.db"@,
{
    owned("repos.db")
}

pub fn default_state_path() -> (r: String)
    ensures
        r@ == "_state.json"@,
{
    owned("_state.json")
}

pub fn default_notification_timeout() -> (r: u64)
    ensures
        r == 10,
{
    10
}

pub fn default_max_notification_items() -> (r: usize)
    ensures
        r == 5,
{
    5
}

/// The name patterns that the spam filter ignores unless configured otherwise.
pub open spec fn default_ignore_patterns() -> Seq<Seq<char>> {
    seq!["^auto-repo-\\d+"@, "^repo-\\d+$"@, "^test-\\d+$"@, "^homework-"@]
}

impl Default for GeneralConfig {
    fn default() -> (r: Self)
        ensures
            r.interval_seconds == 30,
            r.max_pages_per_cycle == 5,
            r.lookback_hours == 3,
            r.log_level@ == "info"@,
            r.max_concurrent_requests == 4,
            r.search_interval_seconds == 60,
    {
        GeneralConfig {
            interval_seconds: default_interval(),
            max_pages_per_cycle: default_max_pages(),
            lookback_hours: default_lookback(),
            log_level: default_log_level(),
            max_concurrent_requests: default_max_concurrent(),
            search_interval_seconds: default_search_interval(),
        }
    }
}

impl Default for AuthConfig {
    fn default() -> (r: Self)
        ensures
            r.tokens@.len() == 0,
            r.timeout_seconds == 25,
            r.user_agent@ == "BloomRepo/2.1 (+https://github.com/)"@,
    {
        AuthConfig {
            tokens: Vec::new(),
            timeout_seconds: default_timeout(),
            user_agent: default_user_agent(),
        }
    }
}

impl Default for StreamsConfig {
    fn default() -> (r: Self)
        ensures
            r.enable_sequential_stream,
            r.enable_events_stream,
            r.enable_search_stream,
            r.search_queries@.len() == 0,
    {
        StreamsConfig {
            enable_sequential_stream: true,
            enable_events_stream: true,
            enable_search_stream: true,
            search_queries: Vec::new(),
        }
    }
}

impl Default for FilteringConfig {
    fn default() -> (r: Self)
        ensures
            r.enable_spam_filter,
            r.ignore_forks,
            r.min_description_length == 0,
            string_views(r.ignore_name_patterns@) == default_ignore_patterns(),
            r.priority_keywords@.len() == 0,
            r.allowed_languages@.len() == 0,
    {
        let mut patterns: Vec<String> = Vec::new();
        patterns.push(owned("^auto-repo-\\d+"));
        patterns.push(owned("^repo-\\d+$"));
        patterns.push(owned("^test-\\d+$"));
        patterns.push(owned("^homework-"));
        assert(string_views(patterns@) =~= default_ignore_patterns());
        FilteringConfig {
            enable_spam_filter: true,
            ignore_forks: true,
            min_description_length: 0,
            ignore_name_patterns: patterns,
            priority_keywords: Vec::new(),
            allowed_languages: Vec::new(),
        }
    }
}

impl Default for StorageConfig {
    fn default() -> (r: Self)
        ensures
            r.database_path@ == "repos.db"@,
            r.state_path@ == "_state.json"@,
            r.enable_wal,
            r.enable_log_file,
            r.enable_jsonl_stream,
    {
        StorageConfig {
            database_path: default_db_path(),
            state_path: default_state_path(),
            enable_wal: true,
            enable_log_file: true,
            enable_jsonl_stream: true,
        }
    }
}

impl Default for NotificationsConfig {
    fn default() -> (r: Self)
        ensures
            r.enable_windows_toast,
            !r.toast_priority_only,
            r.timeout_seconds == 10,
            r.max_items_per_message == 5,
            r.discord_webhook_url is None,
            r.telegram_bot_token is None,
            r.telegram_chat_id is None,
            r.webhook_url is None,
    {
        NotificationsConfig {
            enable_windows_toast: true,
            toast_priority_only: false,
            timeout_seconds: default_notification_timeout(),
            max_items_per_message: default_max_notification_items(),
            discord_webhook_url: None,
            telegram_bot_token: None,
            telegram_chat_id: None,
            webhook_url: None,
        }
    }
}

/// The default of every section.
pub open spec fn is_default_config(c: AppConfig) -> bool {
    &&& c.general.interval_seconds == 30
    &&& c.general.max_pages_per_cycle == 5
    &&& c.general.lookback_hours == 3
    &&& c.general.log_level@ == "info"@
    &&& c.general.max_concurrent_requests == 4
    &&& c.general.search_interval_seconds == 60
    &&& c.auth.tokens@.len() == 0
    &&& c.auth.timeout_seconds == 25
    &&& c.auth.user_agent@ == "BloomRepo/2.1 (+https://github.com/)"@
    &&& c.streams.enable_sequential_stream
    &&& c.streams.enable_events_stream
    &&& c.streams.enable_search_stream
    &&& c.streams.search_queries@.len() == 0
    &&& c.filtering.enable_spam_filter
    &&& c.filtering.ignore_forks
    &&& c.filtering.min_description_length == 0
    &&& string_views(c.filtering.ignore_name_patterns@) == default_ignore_patterns()
    &&& c.filtering.priority_keywords@.len() == 0
    &&& c.filtering.allowed_languages@.len() == 0
    &&& c.storage.database_path@ == "repos.db"@
    &&& c.storage.state_path@ == "_state.json"@
    &&& c.storage.enable_wal
    &&& c.storage.enable_log_file
    &&& c.storage.enable_jsonl_stream
    &&& c.notifications.enable_windows_toast
    &&& !c.notifications.toast_priority_only
    &&& c.notifications.timeout_seconds == 10
    &&& c.notifications.max_items_per_message == 5
    &&& c.notifications.discord_webhook_url is None
    &&& c.notifications.telegram_bot_token is None
    &&& c.notifications.telegram_chat_id is None
    &&& c.notifications.webhook_url is None
}

impl Default for AppConfig {
    fn default() -> (r: Self)
        ensures
            is_default_config(r),
    {
        AppConfig {
            general: GeneralConfig::default(),
            auth: AuthConfig::default(),
            streams: StreamsConfig::default(),
            filtering: FilteringConfig::default(),
            storage: StorageConfig::default(),
            notifications: NotificationsConfig::default(),
        }
    }
}

// ---------------------------------------------------------------------------
// Environment overrides
// ---------------------------------------------------------------------------

/// The values of the environment variables that override the configuration,
/// each `None` when the variable is unset (or not valid Unicode).
#[derive(Clone, Debug)]
pub struct EnvOverrides {
    /// `GITHUB_TOKENS`
    pub github_tokens: Option<String>,
    /// `GITHUB_TOKEN`
    pub github_token: Option<String>,
    /// `GITHUB_USER_AGENT`
    pub github_user_agent: Option<String>,
    /// `GITHUB_TIMEOUT_SECONDS`
    pub github_timeout_seconds: Option<String>,
    /// `DISCORD_WEBHOOK_URL`
    pub discord_webhook_url: Option<String>,
    /// `TELEGRAM_BOT_TOKEN`
    pub telegram_bot_token: Option<String>,
    /// `TELEGRAM_CHAT_ID`
    pub telegram_chat_id: Option<String>,
    /// `WEBHOOK_URL`
    pub webhook_url: Option<String>,
}

/// The API tokens after the environment: `GITHUB_TOKENS` split on commas and
/// newlines, each piece trimmed and empty ones dropped; else a non-blank
/// `GITHUB_TOKEN` as the only token; else the configured tokens.
pub open spec fn tokens_after_env(env: EnvOverrides, configured: Seq<Seq<char>>) -> Seq<Seq<char>> {
    match env.github_tokens {
        Some(list) => trimmed_nonempty(split_on(list@, Delim::CommaOrNewline)),
        None => match env.github_token {
            Some(t) => if trim(t@).len() > 0 {
                seq![t@]
            } else {
                configured
            },
            None => configured,
        },
    }
}

/// `v` when the variable is set, else `current`.
pub open spec fn override_opt(v: Option<String>, current: Option<Seq<char>>) -> Option<Seq<char>> {
    match v {
        Some(s) => Some(s@),
        None => current,
    }
}

/// `after` is `before` with the environment `env` applied: every field that
/// no variable overrides is unchanged, and every overridden one takes the
/// variable's value.
pub open spec fn env_applied(before: AppConfig, after: AppConfig, env: EnvOverrides) -> bool {
    &&& after.general == before.general
    &&& after.streams == before.streams
    &&& after.filtering == before.filtering
    &&& after.storage == before.storage
    &&& string_views(after.auth.tokens@) == tokens_after_env(env, string_views(before.auth.tokens@))
    &&& after.auth.user_agent@ == match env.github_user_agent {
        Some(ua) => ua@,
        None => before.auth.user_agent@,
    }
    &&& after.auth.timeout_seconds == match env.github_timeout_seconds {
        Some(t) => match parsed_u64(t@) {
            Some(v) => v,
            None => before.auth.timeout_seconds,
        },
        None => before.auth.timeout_seconds,
    }
    &&& after.notifications.enable_windows_toast == before.notifications.enable_windows_toast
    &&& after.notifications.toast_priority_only == before.notifications.toast_priority_only
    &&& after.notifications.timeout_seconds == before.notifications.timeout_seconds
    &&& after.notifications.max_items_per_message == before.notifications.max_items_per_message
    &&& opt_view(after.notifications.discord_webhook_url) == override_opt(
        env.discord_webhook_url,
        opt_view(before.notifications.discord_webhook_url),
    )
    &&& opt_view(after.notifications.telegram_bot_token) == override_opt(
        env.telegram_bot_token,
        opt_view(before.notifications.telegram_bot_token),
    )
    &&& opt_view(after.notifications.telegram_chat_id) == override_opt(
        env.telegram_chat_id,
        opt_view(before.notifications.telegram_chat_id),
    )
    &&& opt_view(after.notifications.webhook_url) == override_opt(
        env.webhook_url,
        opt_view(before.notifications.webhook_url),
    )
}

impl AppConfig {
    /// Applies the environment variables on top of the loaded configuration.
    pub fn apply_environment(&mut self, env: &EnvOverrides)
        ensures
            env_applied(*old(self), *final(self), *env),
    {
        match &env.github_tokens {
            Some(list) => {
                self.auth.tokens = split_trimmed(list.as_str(), Delim::CommaOrNewline);
            },
            None => {
                if let Some(t) = &env.github_token {
                    let tt = trimmed(t.as_str());
                    if tt.as_str().is_empty() == false {
                        let mut one: Vec<String> = Vec::new();
                        one.push(t.clone());
                        assert(string_views(one@) =~= seq![t@]);
                        self.auth.tokens = one;
                    }
                }
            },
        }
        if let Some(ua) = &env.github_user_agent {
            self.auth.user_agent = ua.clone();
        }
        if let Some(t) = &env.github_timeout_seconds {
            if let Some(v) = parse_u64(t.as_str()) {
                self.auth.timeout_seconds = v;
            }
        }
        if let Some(v) = &env.discord_webhook_url {
            self.notifications.discord_webhook_url = Some(v.clone());
        }
        if let Some(v) = &env.telegram_bot_token {
            self.notifications.telegram_bot_token = Some(v.clone());
        }
        if let Some(v) = &env.telegram_chat_id {
            self.notifications.telegram_chat_id = Some(v.clone());
        }
        if let Some(v) = &env.webhook_url {
            self.notifications.webhook_url = Some(v.clone());
        }
    }
}

// ---------------------------------------------------------------------------
// Validation
// ---------------------------------------------------------------------------

/// The message for the first ignore pattern that does not compile, if any.
pub open spec fn pattern_problem(patterns: Seq<Seq<char>>) -> Option<Seq<char>>
    decreases patterns.len(),
{
    if patterns.len() == 0 {
        None
    } else {
        match regex_error(patterns[0]) {
            Some(e) => Some(
                "invalid ignore_name_patterns regex '"@ + patterns[0] + "': "@ + e,
            ),
            None => pattern_problem(patterns.drop_first()),
        }
    }
}

/// The message of the first check that the configuration fails, in the
/// order the checks are made, or `None` when it passes them all.
pub open spec fn config_problem(c: AppConfig) -> Option<Seq<char>> {
    if c.general.interval_seconds < 5 {
        Some("general.interval_seconds must be at least 5"@)
    } else if c.general.max_pages_per_cycle == 0 || c.general.max_pages_per_cycle > 1000 {
        Some("general.max_pages_per_cycle must be between 1 and 1000"@)
    } else if c.general.lookback_hours <= 0 || c.general.lookback_hours > 720 {
        Some("general.lookback_hours must be between 1 and 720"@)
    } else if c.general.max_concurrent_requests == 0 || c.general.max_concurrent_requests > 32 {
        Some("general.max_concurrent_requests must be between 1 and 32"@)
    } else if c.auth.timeout_seconds == 0 || c.auth.timeout_seconds > 300 {
        Some("auth.timeout_seconds must be between 1 and 300"@)
    } else if c.notifications.timeout_seconds == 0 || c.notifications.timeout_seconds > 120 {
        Some("notifications.timeout_seconds must be between 1 and 120"@)
    } else if (c.notifications.telegram_bot_token is Some) != (
    c.notifications.telegram_chat_id is Some) {
        Some("Telegram bot token and chat ID must be configured together"@)
    } else {
        pattern_problem(string_views(c.filtering.ignore_name_patterns@))
    }
}

/// The ranges that a configuration which passes validation keeps.
pub open spec fn within_limits(c: AppConfig) -> bool {
    &&& c.general.interval_seconds >= 5
    &&& 1 <= c.general.max_pages_per_cycle <= 1000
    &&& 1 <= c.general.lookback_hours <= 720
    &&& 1 <= c.general.max_concurrent_requests <= 32
    &&& 1 <= c.auth.timeout_seconds <= 300
    &&& 1 <= c.notifications.timeout_seconds <= 120
    &&& (c.notifications.telegram_bot_token is Some) == (c.notifications.telegram_chat_id is Some)
}

fn invalid(msg: &str) -> (r: Result<(), ConfigError>)
    ensures
        r matches Err(ConfigError::Invalid(m)) && m@ == msg@,
{
    Err(ConfigError::Invalid(owned(msg)))
}

impl AppConfig {
    /// Checks the loaded configuration, reporting the first value out of range.
    pub fn validate(&self) -> (r: Result<(), ConfigError>)
        ensures
            match r {
                Ok(()) => config_problem(*self) is None,
                Err(ConfigError::Invalid(m)) => config_problem(*self) == Some(m@),
                Err(_) => false,
            },
    {
        if self.general.interval_seconds < 5 {
            return invalid("general.interval_seconds must be at least 5");
        }
        if self.general.max_pages_per_cycle == 0 || self.general.max_pages_per_cycle > 1000 {
            return invalid("general.max_pages_per_cycle must be between 1 and 1000");
        }
        if self.general.lookback_hours <= 0 || self.general.lookback_hours > 24 * 30 {
            return invalid("general.lookback_hours must be between 1 and 720");
        }
        if self.general.max_concurrent_requests == 0 || self.general.max_concurrent_requests > 32 {
            return invalid("general.max_concurrent_requests must be between 1 and 32");
        }
        if self.auth.timeout_seconds == 0 || self.auth.timeout_seconds > 300 {
            return invalid("auth.timeout_seconds must be between 1 and 300");
        }
        if self.notifications.timeout_seconds == 0 || self.notifications.timeout_seconds > 120 {
            return invalid("notifications.timeout_seconds must be between 1 and 120");
        }
        if self.notifications.telegram_bot_token.is_some()
            != self.notifications.telegram_chat_id.is_some() {
            return invalid("Telegram bot token and chat ID must be configured together");
        }
        let patterns = &self.filtering.ignore_name_patterns;
        let ghost all = string_views(patterns@);
        assert(all.skip(0) =~= all);
        for i in 0..patterns.len()
            invariant
                all == string_views(patterns@),
                *patterns == self.filtering.ignore_name_patterns,
                config_problem(*self) == pattern_problem(all),
                pattern_problem(all) == pattern_problem(all.skip(i as int)),
        {
            let p = &patterns[i];
            assert(all.skip(i as int)[0] == p@);
            assert(all.skip(i as int).drop_first() =~= all.skip(i + 1));
            if let Some(e) = pattern_error(p.as_str()) {
                let mut m = owned("invalid ignore_name_patterns regex '");
                push_all(&mut m, p.as_str());
                push_all(&mut m, "': ");
                push_all(&mut m, e.as_str());
                assert(pattern_problem(all.skip(i as int)) == Some(m@));
                return Err(ConfigError::Invalid(m));
            }
        }
        assert(all.skip(patterns@.len() as int) =~= Seq::<Seq<char>>::empty());
        Ok(())
    }

    /// The last steps of loading a configuration: the environment is applied,
    /// then the result is validated.
    pub fn finish_load(self, env: &EnvOverrides) -> (r: Result<AppConfig, ConfigError>)
        ensures
            match r {
                Ok(c) => env_applied(self, c, *env) && config_problem(c) is None,
                Err(ConfigError::Invalid(m)) => exists|c: AppConfig|
                    #![trigger env_applied(self, c, *env)]
                    env_applied(self, c, *env) && config_problem(c) == Some(m@),
                Err(_) => false,
            },
    {
        let mut config = self;
        config.apply_environment(env);
        match config.validate() {
            Ok(()) => Ok(config),
            Err(e) => Err(e),
        }
    }
}

/// The environment wins over the file: applying it to a configuration that
/// already has it applied changes nothing more.
pub proof fn lemma_environment_applies_once(
    file: AppConfig,
    once: AppConfig,
    twice: AppConfig,
    env: EnvOverrides,
)
    requires
        env_applied(file, once, env),
        env_applied(once, twice, env),
    ensures
        env_applied(file, twice, env),
{
}

/// A configuration that passes validation keeps every value within its range.
pub proof fn lemma_valid_config_within_limits(c: AppConfig)
    requires
        config_problem(c) is None,
    ensures
        within_limits(c),
{
}

proof fn lemma_pattern_problem_none(ps: Seq<Seq<char>>)
    ensures
        pattern_problem(ps) is None <==> forall|i: int| 0 <= i < ps.len() ==> regex_error(#[trigger] ps[i]) is None,
    decreases ps.len(),
{
    if ps.len() > 0 {
        lemma_pattern_problem_none(ps.drop_first());
        assert forall|i: int| 0 < i < ps.len() implies #[trigger] ps[i] == ps.drop_first()[i - 1] by {}
        if pattern_problem(ps) is None {
            assert forall|i: int| 0 <= i < ps.len() implies regex_error(#[trigger] ps[i]) is None by {
                if i > 0 {
                    assert(ps[i] == ps.drop_first()[i - 1]);
                }
            }
        }
    }
}

/// A configuration passes validation exactly when every value is within its
/// range, Telegram's token and chat are set together, and every ignore
/// pattern compiles.
pub proof fn lemma_validation_passes_exactly(c: AppConfig)
    ensures
        config_problem(c) is None <==> within_limits(c) && forall|i: int|
            0 <= i < c.filtering.ignore_name_patterns@.len() ==> regex_error(
                #[trigger] c.filtering.ignore_name_patterns@[i]@,
            ) is None,
{
    let ps = string_views(c.filtering.ignore_name_patterns@);
    lemma_pattern_problem_none(ps);
    let raw = c.filtering.ignore_name_patterns@;
    assert(ps.len() == raw.len());
    if forall|i: int| 0 <= i < raw.len() ==> regex_error(#[trigger] raw[i]@) is None {
        assert forall|i: int| 0 <= i < ps.len() implies regex_error(#[trigger] ps[i]) is None by {
            assert(ps[i] == raw[i]@);
        }
    }
    if forall|i: int| 0 <= i < ps.len() ==> regex_error(#[trigger] ps[i]) is None {
        assert forall|i: int| 0 <= i < raw.len() implies regex_error(#[trigger] raw[i]@) is None by {
            assert(ps[i] == raw[i]@);
        }
    }
}

} // verus!
