use bloomrepo::config::NotificationsConfig;
use bloomrepo::models::RepoItem;
use bloomrepo::notifier::{
    base64_encode, channel_failure, channels, discord_content, discord_embeds,
    encode_powershell_script, ps_quote, select_for_notification, telegram_message, toast_script,
    toast_text, notification_plan, NotifyChannel,
};

fn repo(id: i64, name: &str, priority: bool, description: Option<&str>) -> RepoItem {
    RepoItem {
        id,
        name: name.into(),
        full_name: format!("u/{name}"),
        owner: "u".into(),
        owner_type: None,
        html_url: format!("https://github.com/u/{name}"),
        description: description.map(|s| s.to_string()),
        fork: false,
        stars: 3,
        forks_count: 0,
        language: None,
        license: None,
        topics: vec![],
        created_at: None,
        discovered_at: "now".into(),
        is_priority: priority,
    }
}

#[test]
fn test_ps_quote() {
    assert_eq!(ps_quote("John's Repo"), "John''s Repo");
    assert_eq!(ps_quote("normal"), "normal");
}

#[test]
fn test_base64_encode() {
    assert_eq!(base64_encode(b""), "");
    assert_eq!(base64_encode(b"f"), "Zg==");
    assert_eq!(base64_encode(b"fo"), "Zm8=");
    assert_eq!(base64_encode(b"foo"), "Zm9v");
    assert_eq!(base64_encode(b"Hello World"), "SGVsbG8gV29ybGQ=");
}

#[test]
fn base64_covers_every_digit_class() {
    assert_eq!(base64_encode(&[0xfb, 0xff, 0xbf]), "+/+/");
    assert_eq!(base64_encode(&[0x00, 0x10, 0x83]), "ABCD");
}

#[test]
fn powershell_script_is_base64_of_utf16le() {
    assert_eq!(encode_powershell_script("A"), "QQA=");
    assert_eq!(encode_powershell_script("Hi"), "SABpAA==");
    // U+1F600 takes a surrogate pair: D83D DE00.
    assert_eq!(encode_powershell_script("\u{1F600}"), base64_encode(&[0x3d, 0xd8, 0x00, 0xde]));
}

#[test]
fn toast_for_one_and_for_many() {
    let one = vec![repo(1, "a", false, None)];
    assert_eq!(
        toast_text(&one),
        ("GitHub: u/a".to_string(), "No description".to_string())
    );
    let many = vec![repo(1, "a", false, None), repo(2, "b", false, None), repo(3, "c", false, None)];
    assert_eq!(
        toast_text(&many),
        ("GitHub: 3 new repositories".to_string(), "u/a + 2 more".to_string())
    );
    let script = toast_script("it's", "x");
    assert!(script.contains("CreateTextNode('it''s')"));
    assert!(script.ends_with("CreateToastNotifier('BloomRepo').Show($x)"));
}

#[test]
fn notification_selection_and_messages() {
    let repos = vec![repo(1, "a", true, Some("first")), repo(2, "b", false, None)];
    let only = select_for_notification(&repos, true);
    assert_eq!(only.len(), 1);
    assert_eq!(only[0].id, 1);
    assert_eq!(select_for_notification(&repos, false).len(), 2);
    assert_eq!(
        telegram_message(&repos, 1),
        "Discovered 2 new GitHub repositories:\n\n- u/a\n  first\n  https://github.com/u/a\n\n"
    );
    assert_eq!(discord_content(2), "Discovered 2 new GitHub repositories");
    let embeds = discord_embeds(&repos, 5);
    assert_eq!(embeds.len(), 2);
    assert_eq!(embeds[0].color, 0xFF5722);
    assert_eq!(embeds[1].color, 0x2196F3);
    assert_eq!(embeds[1].description, "No description provided");
    assert_eq!(embeds[1].language, "Unknown");
    assert_eq!(embeds[0].stars, "3");
}

#[test]
fn channels_in_sending_order() {
    let mut config = NotificationsConfig::default();
    config.discord_webhook_url = Some("d".into());
    config.telegram_bot_token = Some("t".into());
    config.webhook_url = Some("w".into());
    let list = channels(&config);
    assert_eq!(list.len(), 3);
    assert!(matches!(list[0], NotifyChannel::Toast));
    assert!(matches!(&list[1], NotifyChannel::Discord { url } if url == "d"));
    assert!(matches!(&list[2], NotifyChannel::Webhook { url } if url == "w"));
    assert_eq!(channel_failure(&list[1], "boom"), "discord: boom");
}

#[test]
fn every_channel_once_in_order() {
    let mut config = NotificationsConfig::default();
    config.discord_webhook_url = Some("d".into());
    config.telegram_bot_token = Some("t".into());
    config.telegram_chat_id = Some("c".into());
    config.webhook_url = Some("w".into());
    let list = channels(&config);
    assert_eq!(list.len(), 4);
    assert!(matches!(list[0], NotifyChannel::Toast));
    assert!(matches!(&list[1], NotifyChannel::Discord { url } if url == "d"));
    assert!(matches!(&list[2], NotifyChannel::Telegram { token, chat_id } if token == "t" && chat_id == "c"));
    assert!(matches!(&list[3], NotifyChannel::Webhook { url } if url == "w"));
    let labels: Vec<String> = list[1..].iter().map(|c| channel_failure(c, "x")).collect();
    assert_eq!(labels, vec!["discord: x", "telegram: x", "webhook: x"]);
}

#[test]
fn nothing_selected_goes_nowhere() {
    let mut config = NotificationsConfig::default();
    config.toast_priority_only = true;
    config.discord_webhook_url = Some("d".into());
    let repos = vec![repo(1, "a", false, None)];
    let (selected, targets) = notification_plan(&repos, &config);
    assert!(selected.is_empty());
    assert!(targets.is_empty());
    let repos = vec![repo(1, "a", false, None), repo(2, "b", true, None)];
    let (selected, targets) = notification_plan(&repos, &config);
    assert_eq!(selected.len(), 1);
    assert_eq!(selected[0].id, 2);
    assert_eq!(targets.len(), 2);
}

#[test]
fn quoting_and_encoding_laws_on_examples() {
    let quoted = ps_quote("it's a ''test'");
    assert_eq!(quoted.replace("''", "'"), "it's a ''test'");
    assert_eq!(quoted, "it''s a ''''test''");
    assert_eq!(quoted.len(), "it's a ''test'".len() + 4);
    let a = base64_encode(b"abc");
    let b = base64_encode(b"de");
    assert_eq!(base64_encode(b"abcde"), format!("{a}{b}"));
}

#[test]
fn quoted_runs_are_even() {
    let quoted = ps_quote("'a'''b");
    assert_eq!(quoted, "''a''''''b");
    assert_eq!(quoted.len(), "'a'''b".len() + 4);
    assert_eq!(quoted.replace("''", "'"), "'a'''b");
    let runs: Vec<usize> = quoted.split(|c| c != '\'').filter(|r| !r.is_empty()).map(str::len).collect();
    assert!(runs.iter().all(|n| n % 2 == 0));
}
