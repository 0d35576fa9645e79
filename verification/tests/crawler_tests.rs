use bloomrepo::crawler::{
    event_to_repo, event_to_repo_at, latest_repo_url, parse_next_link, repositories_url, response_step,
    retry_seconds, search_url, url_encode, ResponseHeaders, ResponseStep,
};
use bloomrepo::models::{GithubEventPayload, GithubEventRaw, GithubEventRepo};

fn headers(retry_after: Option<&str>) -> ResponseHeaders {
    ResponseHeaders {
        link: None,
        etag: None,
        retry_after: retry_after.map(|s| s.to_string()),
        poll_interval: None,
        ratelimit_remaining: None,
        ratelimit_reset: None,
    }
}

#[test]
fn test_parse_next_link() {
    let link = r#"<https://api.github.com/repositories?since=100&per_page=100>; rel="next", <https://api.github.com/repositories{?since}>; rel="first""#;
    let next = parse_next_link(Some(link));
    assert_eq!(
        next,
        Some("https://api.github.com/repositories?since=100&per_page=100".to_string())
    );
}

#[test]
fn test_url_encode() {
    assert_eq!(url_encode("created:>2026-09-01"), "created:>2026-09-01");
    assert_eq!(url_encode("hello world"), "hello+world");
}

#[test]
fn url_encode_escapes_reserved_and_non_ascii_bytes() {
    assert_eq!(url_encode("a/b&c"), "a%2Fb%26c");
    assert_eq!(url_encode("é"), "%C3%A9");
    assert_eq!(url_encode("~._-<"), "~._-<");
}

#[test]
fn next_link_absent_or_not_marked_next() {
    assert_eq!(parse_next_link(None), None);
    assert_eq!(parse_next_link(Some(r#"<https://x/1>; rel="prev""#)), None);
    assert_eq!(
        parse_next_link(Some(r#"<https://x/1>; rel="prev",  <https://x/2> ; rel="next" "#)),
        Some("https://x/2".to_string())
    );
}

#[test]
fn urls_for_each_stream() {
    assert_eq!(
        repositories_url(42),
        "https://api.github.com/repositories?since=42&per_page=100"
    );
    assert_eq!(
        search_url("created:>2026-01-01T00:00:00Z"),
        "https://api.github.com/search/repositories?q=created:>2026-01-01T00:00:00Z&sort=created&order=desc&per_page=100"
    );
    assert!(latest_repo_url().ends_with("per_page=1"));
}

#[test]
fn retry_wait_is_clamped() {
    assert_eq!(retry_seconds(&headers(Some("5")), 60), 5);
    assert_eq!(retry_seconds(&headers(None), 60), 60);
    assert_eq!(retry_seconds(&headers(Some("0")), 60), 1);
    assert_eq!(retry_seconds(&headers(Some("100000")), 60), 900);
    assert_eq!(retry_seconds(&headers(Some("soon")), 60), 60);
}

#[test]
fn response_steps_follow_the_status() {
    let h = headers(Some("30"));
    assert_eq!(response_step(304, true, &h), ResponseStep::NotModified);
    assert_eq!(response_step(304, false, &h), ResponseStep::Failed);
    assert_eq!(response_step(403, false, &h), ResponseStep::RateLimited(30));
    assert_eq!(response_step(429, true, &headers(None)), ResponseStep::RateLimited(60));
    assert_eq!(response_step(200, false, &h), ResponseStep::Succeeded);
    assert_eq!(response_step(500, false, &h), ResponseStep::Failed);
}

fn event(kind: &str, ref_type: Option<&str>, name: &str) -> GithubEventRaw {
    GithubEventRaw {
        id: "1".into(),
        event_type: kind.into(),
        repo: GithubEventRepo { id: 7, name: name.into(), url: "u".into() },
        payload: Some(GithubEventPayload {
            ref_type: ref_type.map(|s| s.to_string()),
            master_branch: None,
            description: Some("desc".into()),
        }),
        created_at: Some("2026-01-01T00:00:00Z".into()),
    }
}

#[test]
fn creation_events_become_records() {
    let item = event_to_repo_at(&event("CreateEvent", Some("repository"), "alice/tool"), "now".into())
        .expect("a repository creation");
    assert_eq!(item.id, 7);
    assert_eq!(item.owner, "alice");
    assert_eq!(item.name, "tool");
    assert_eq!(item.html_url, "https://github.com/alice/tool");
    assert_eq!(item.description.as_deref(), Some("desc"));
    assert_eq!(item.discovered_at, "now");
    assert!(event_to_repo_at(&event("CreateEvent", Some("branch"), "a/b"), "now".into()).is_none());
    assert!(event_to_repo_at(&event("PushEvent", Some("repository"), "a/b"), "now".into()).is_none());
    let odd = event_to_repo_at(&event("CreateEvent", Some("repository"), "noslash"), "t".into()).unwrap();
    assert_eq!(odd.owner, "unknown");
    assert_eq!(odd.name, "noslash");
}

fn form_decode(text: &str) -> Vec<u8> {
    let bytes = text.as_bytes();
    let mut out = Vec::new();
    let mut i = 0;
    while i < bytes.len() {
        match bytes[i] {
            b'+' => {
                out.push(b' ');
                i += 1;
            }
            b'%' => {
                let hex = std::str::from_utf8(&bytes[i + 1..i + 3]).unwrap();
                out.push(u8::from_str_radix(hex, 16).unwrap());
                i += 3;
            }
            b => {
                out.push(b);
                i += 1;
            }
        }
    }
    out
}

#[test]
fn url_encoding_decodes_back() {
    for text in ["a+b c", "100% é&#=", "created:>2026-09-01", ""] {
        assert_eq!(form_decode(&url_encode(text)), text.as_bytes());
    }
    assert_eq!(url_encode("a+b"), "a%2Bb");
}

#[test]
fn events_are_stamped_with_the_current_time() {
    let item = event_to_repo(&event("CreateEvent", Some("repository"), "alice/tool")).expect("a creation");
    let at = chrono::DateTime::parse_from_rfc3339(&item.discovered_at).expect("RFC 3339");
    assert!((chrono::Utc::now().timestamp() - at.timestamp()).abs() <= 5);
}
