use router_metrics::rate_limit::{
    config_from_settings, decide_at, rate_limit_key, rejection, RateLimitConfig,
    RateLimitDecision, RateLimiter,
};
use std::time::Duration;

fn limiter(max: u32, window_secs: u64) -> RateLimiter {
    RateLimiter::new(RateLimitConfig {
        max_requests: max,
        window_nanos: Duration::from_secs(window_secs).as_nanos(),
    })
}

#[test]
fn allows_requests_within_limit() {
    let mut rl = limiter(3, 60);
    assert!(rl.check("127.0.0.1"));
    assert!(rl.check("127.0.0.1"));
    assert!(rl.check("127.0.0.1"));
}

#[test]
fn rejects_request_over_limit() {
    let mut rl = limiter(2, 60);
    rl.check("10.0.0.1");
    rl.check("10.0.0.1");
    assert!(!rl.check("10.0.0.1"));
}

#[test]
fn different_keys_are_independent() {
    let mut rl = limiter(1, 60);
    assert!(rl.check("192.168.1.1"));
    assert!(rl.check("192.168.1.2")); // different key — should pass
    assert!(!rl.check("192.168.1.1")); // same key — should fail
}

const SEC: u128 = 1_000_000_000;

#[test]
fn window_allows_first_max_requests_then_rejects() {
    let mut rl = limiter(3, 10);
    let results: Vec<bool> = [0, SEC, 2 * SEC, 3 * SEC, 9 * SEC]
        .iter()
        .map(|t| rl.check_at("k", 5 * SEC + t))
        .collect();
    assert_eq!(results, vec![true, true, true, false, false]);
    // Only allowed requests are recorded.
    assert_eq!(rl.recorded_requests("k"), 3);
}

#[test]
fn expired_window_starts_over() {
    let mut rl = limiter(1, 10);
    assert!(rl.check_at("k", 0));
    assert!(!rl.check_at("k", 10 * SEC - 1));
    assert!(rl.check_at("k", 10 * SEC));
    assert_eq!(rl.recorded_requests("k"), 1);
    assert!(!rl.check_at("k", 19 * SEC));
}

#[test]
fn window_slides_with_each_request() {
    // Limit 2 per 10 s: a request at 10 s only sees the one at 9 s, and a
    // request at 11 s sees two allowed requests in (1 s, 11 s].
    let mut rl = limiter(2, 10);
    assert!(rl.check_at("k", 0));
    assert!(rl.check_at("k", 9 * SEC));
    assert!(rl.check_at("k", 10 * SEC));
    assert!(!rl.check_at("k", 11 * SEC));
    assert!(!rl.check_at("k", 19 * SEC - 1));
    assert!(rl.check_at("k", 19 * SEC));
}

#[test]
fn rejected_requests_are_not_counted() {
    let mut rl = limiter(1, 10);
    assert!(rl.check_at("k", 0));
    assert!(!rl.check_at("k", 5 * SEC));
    assert!(rl.check_at("k", 10 * SEC));
    assert_eq!(rl.recorded_requests("k"), 1);
}

#[test]
fn other_keys_do_not_disturb_a_burst() {
    let mut rl = limiter(2, 10);
    assert!(rl.check_at("a", 0));
    assert!(rl.check_at("b", SEC));
    assert!(rl.check_at("a", 2 * SEC));
    assert!(rl.check_at("b", 3 * SEC));
    assert!(!rl.check_at("a", 4 * SEC));
    assert!(!rl.check_at("b", 5 * SEC));
}

#[test]
fn zero_limit_rejects_everything() {
    let mut rl = limiter(0, 10);
    assert!(!rl.check_at("k", 0));
    assert!(!rl.check_at("k", 100 * SEC));
}

#[test]
fn retry_after_counts_whole_seconds_left() {
    let mut rl = limiter(1, 60);
    assert_eq!(rl.retry_after_secs_at("k", 0), 1);
    rl.check_at("k", 0);
    assert_eq!(rl.retry_after_secs_at("k", 0), 60);
    assert_eq!(rl.retry_after_secs_at("k", SEC / 2), 59);
    assert_eq!(rl.retry_after_secs_at("k", 59 * SEC + 1), 1);
    assert_eq!(rl.retry_after_secs_at("k", 60 * SEC), 1);
    assert_eq!(rl.retry_after_secs_at("other", 0), 1);
    assert!(rl.retry_after_secs("k") >= 1);
}

#[test]
fn key_prefers_api_key() {
    assert_eq!(rate_limit_key(Some("abc"), "10.0.0.1"), "abc");
    assert_eq!(rate_limit_key(None, "10.0.0.1"), "10.0.0.1");
}

#[test]
fn rejection_body() {
    let e = rejection(42);
    assert_eq!(e.error, "rate_limit_exceeded");
    assert_eq!(e.message, "Too many requests. Retry after 42 second(s).");
    assert_eq!(e.retry_after_secs, 42);
    assert_eq!(
        rejection(0).message,
        "Too many requests. Retry after 0 second(s)."
    );
    assert_eq!(
        rejection(u64::MAX).message,
        "Too many requests. Retry after 18446744073709551615 second(s)."
    );
}

#[test]
fn decide_counts_under_key_and_rejects_with_delay() {
    let mut rl = limiter(1, 30);
    assert!(matches!(
        decide_at(&mut rl, Some("key-1"), "10.0.0.9", 0),
        RateLimitDecision::Allow
    ));
    match decide_at(&mut rl, Some("key-1"), "10.0.0.8", 10 * SEC) {
        RateLimitDecision::Reject(e) => {
            assert_eq!(e.retry_after_secs, 20);
            assert_eq!(e.message, "Too many requests. Retry after 20 second(s).");
        }
        RateLimitDecision::Allow => panic!("second request in the window must be rejected"),
    }
    // The address was not counted: requests came with an API key.
    assert_eq!(rl.recorded_requests("10.0.0.9"), 0);
    assert!(matches!(
        decide_at(&mut rl, None, "10.0.0.9", 10 * SEC),
        RateLimitDecision::Allow
    ));
    assert_eq!(rl.recorded_requests("10.0.0.9"), 1);
}

#[test]
fn default_rate_limit_config() {
    let d = RateLimitConfig::default();
    assert_eq!(d.max_requests, 60);
    assert_eq!(d.window_nanos, Duration::from_secs(60).as_nanos());
}

#[test]
fn rate_limit_config_from_raw_settings() {
    let c = config_from_settings(None, None);
    assert_eq!(c.max_requests, 60);
    assert_eq!(c.window_nanos, Duration::from_secs(60).as_nanos());
    let c = config_from_settings(Some("5"), Some("2"));
    assert_eq!(c.max_requests, 5);
    assert_eq!(c.window_nanos, Duration::from_secs(2).as_nanos());
    // Too large for u32, but not for u64.
    let c = config_from_settings(Some("4294967296"), Some("4294967296"));
    assert_eq!(c.max_requests, 60);
    assert_eq!(c.window_nanos, Duration::from_secs(4294967296).as_nanos());
    let c = config_from_settings(Some("-1"), Some("1.5"));
    assert_eq!(c.max_requests, 60);
    assert_eq!(c.window_nanos, Duration::from_secs(60).as_nanos());
}
