use bloomrepo::crawler::ResponseHeaders;
use bloomrepo::tokens::{authorization_value, RateResource, TokenPool};

fn limits(remaining: &str, reset: &str) -> ResponseHeaders {
    ResponseHeaders {
        link: None,
        etag: None,
        retry_after: None,
        poll_interval: None,
        ratelimit_remaining: Some(remaining.into()),
        ratelimit_reset: Some(reset.into()),
    }
}

#[test]
fn anonymous_pool_has_one_client() {
    let mut pool = TokenPool::new(vec![], "ua".into());
    assert_eq!(pool.select_token(RateResource::Core, 0), None);
    assert_eq!(pool.user_agent(), "ua");
    assert_eq!(pool.wait_if_exhausted(RateResource::Core, 0), None);
}

#[test]
fn spent_token_waits_for_its_reset() {
    let mut pool = TokenPool::new(vec!["t".into()], "ua".into());
    pool.update_limits(Some("t"), RateResource::Search, &limits("1", "1030"));
    assert_eq!(pool.wait_if_exhausted(RateResource::Search, 1000), Some(30));
    assert_eq!(pool.wait_if_exhausted(RateResource::Search, 900), Some(60));
    // Past the reset a bucket with one request left still counts as spent
    // until a response refreshes it; the wait is then the minimum second.
    assert_eq!(pool.wait_if_exhausted(RateResource::Search, 2000), Some(1));
    pool.update_limits(Some("t"), RateResource::Search, &limits("30", "2060"));
    assert_eq!(pool.wait_if_exhausted(RateResource::Search, 2000), None);
    assert_eq!(pool.wait_if_exhausted(RateResource::Core, 1000), None);
}

#[test]
fn selection_prefers_the_most_remaining() {
    let mut pool = TokenPool::new(vec!["a".into(), "b".into(), "c".into()], "ua".into());
    pool.update_limits(Some("a"), RateResource::Core, &limits("5", "100"));
    pool.update_limits(Some("b"), RateResource::Core, &limits("4000", "100"));
    pool.update_limits(Some("c"), RateResource::Core, &limits("1", "100"));
    assert_eq!(pool.select_token(RateResource::Core, 50), Some("b".to_string()));
    assert_eq!(pool.select_token(RateResource::Core, 50), Some("b".to_string()));
    // Unreadable headers change nothing.
    pool.update_limits(Some("b"), RateResource::Core, &limits("x", "100"));
    assert_eq!(pool.select_token(RateResource::Core, 50), Some("b".to_string()));
}

#[test]
fn all_spent_falls_back_to_round_robin() {
    let mut pool = TokenPool::new(vec!["a".into(), "b".into()], "ua".into());
    pool.update_limits(Some("a"), RateResource::Core, &limits("0", "500"));
    pool.update_limits(Some("b"), RateResource::Core, &limits("0", "400"));
    assert_eq!(pool.select_token(RateResource::Core, 10), Some("a".to_string()));
    assert_eq!(pool.select_token(RateResource::Core, 10), Some("b".to_string()));
    assert_eq!(pool.wait_if_exhausted(RateResource::Core, 390), Some(10));
}

#[test]
fn bearer_header_value() {
    assert_eq!(authorization_value("abc123"), "Bearer abc123");
}
