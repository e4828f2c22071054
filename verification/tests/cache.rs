use router_metrics::cache::{config_from_settings, CacheConfig, ResponseCache};
use std::time::Duration;

fn cache(ttl_secs: u64) -> ResponseCache {
    ResponseCache::new(CacheConfig {
        ttl_nanos: Duration::from_secs(ttl_secs).as_nanos(),
        enabled: true,
    })
}

#[test]
fn miss_on_empty_cache() {
    let mut c = cache(10);
    assert!(c.get("metrics").is_none());
}

#[test]
fn hit_after_set() {
    let mut c = cache(10);
    c.set("metrics", b"data".to_vec(), "text/plain");
    let (body, ct) = c.get("metrics").unwrap();
    assert_eq!(body, b"data");
    assert_eq!(ct, "text/plain");
}

#[test]
fn expired_entry_returns_none() {
    let mut c = ResponseCache::new(CacheConfig {
        ttl_nanos: Duration::from_millis(1).as_nanos(),
        enabled: true,
    });
    // Stored at 0 ns, read 5 ms later.
    c.set_at("metrics", b"data".to_vec(), "text/plain", 0);
    assert!(c.get_at("metrics", 5_000_000).is_none());
}

#[test]
fn disabled_cache_always_misses() {
    let mut c = ResponseCache::new(CacheConfig {
        ttl_nanos: Duration::from_secs(60).as_nanos(),
        enabled: false,
    });
    c.set("metrics", b"data".to_vec(), "text/plain");
    assert!(c.get("metrics").is_none());
}

#[test]
fn evict_expired_removes_stale_entries() {
    let mut c = ResponseCache::new(CacheConfig {
        ttl_nanos: Duration::from_millis(1).as_nanos(),
        enabled: true,
    });
    c.set_at("a", b"1".to_vec(), "text/plain", 0);
    c.set_at("b", b"2".to_vec(), "text/plain", 0);
    c.evict_expired_at(5_000_000);
    assert_eq!(c.stored_len(), 0);
}

#[test]
fn entry_is_served_until_ttl_passes() {
    let mut c = cache(10);
    c.set_at("k", b"v".to_vec(), "ct", 1_000);
    let ttl = 10_000_000_000u128;
    assert_eq!(
        c.get_at("k", 1_000 + ttl - 1),
        Some((b"v".to_vec(), "ct".to_string()))
    );
    assert_eq!(c.stored_len(), 1);
    assert!(c.get_at("k", 1_000 + ttl).is_none());
    // The miss dropped the stale entry.
    assert_eq!(c.stored_len(), 0);
}

#[test]
fn clock_reading_before_store_counts_as_no_time() {
    let mut c = cache(10);
    c.set_at("k", b"v".to_vec(), "ct", 500);
    assert!(c.get_at("k", 100).is_some());
}

#[test]
fn set_replaces_and_keeps_other_keys() {
    let mut c = cache(10);
    c.set_at("a", b"1".to_vec(), "x", 0);
    c.set_at("b", b"2".to_vec(), "y", 0);
    c.set_at("a", b"3".to_vec(), "z", 0);
    assert_eq!(c.get_at("a", 1), Some((b"3".to_vec(), "z".to_string())));
    assert_eq!(c.get_at("b", 1), Some((b"2".to_vec(), "y".to_string())));
    assert_eq!(c.stored_len(), 2);
}

#[test]
fn miss_on_absent_key_keeps_other_entries() {
    let mut c = cache(10);
    c.set_at("a", b"1".to_vec(), "x", 0);
    assert!(c.get_at("zzz", 1).is_none());
    assert_eq!(c.stored_len(), 1);
}

#[test]
fn len_counts_only_live_entries() {
    let mut c = cache(1);
    c.set_at("old", b"1".to_vec(), "x", 0);
    c.set_at("new", b"2".to_vec(), "x", 900_000_000);
    assert_eq!(c.len_at(500_000_000), 2);
    assert_eq!(c.len_at(1_500_000_000), 1);
    assert_eq!(c.len_at(5_000_000_000), 0);
    // Counting evicts nothing.
    assert_eq!(c.stored_len(), 2);
    c.evict_expired_at(1_500_000_000);
    assert_eq!(c.stored_len(), 1);
    assert_eq!(c.len_at(1_500_000_000), 1);
}

#[test]
fn fresh_cache_now_has_live_entries() {
    let mut c = cache(60);
    c.set("a", b"1".to_vec(), "x");
    c.set("b", b"2".to_vec(), "x");
    assert_eq!(c.len(), 2);
    c.evict_expired();
    assert_eq!(c.stored_len(), 2);
}

#[test]
fn default_cache_config() {
    let d = CacheConfig::default();
    assert_eq!(d.ttl_nanos, Duration::from_secs(10).as_nanos());
    assert!(d.enabled);
}

#[test]
fn cache_config_from_raw_settings() {
    let c = config_from_settings(None, None);
    assert_eq!(c.ttl_nanos, Duration::from_secs(10).as_nanos());
    assert!(c.enabled);

    let c = config_from_settings(Some("30"), Some("false"));
    assert_eq!(c.ttl_nanos, Duration::from_secs(30).as_nanos());
    assert!(!c.enabled);

    let c = config_from_settings(Some("+7"), Some("0"));
    assert_eq!(c.ttl_nanos, Duration::from_secs(7).as_nanos());
    assert!(!c.enabled);

    let c = config_from_settings(Some("ten"), Some("no"));
    assert_eq!(c.ttl_nanos, Duration::from_secs(10).as_nanos());
    assert!(c.enabled);

    let c = config_from_settings(Some(" 5"), Some("FALSE"));
    assert_eq!(c.ttl_nanos, Duration::from_secs(10).as_nanos());
    assert!(c.enabled);

    let c = config_from_settings(Some("18446744073709551616"), Some(""));
    assert_eq!(c.ttl_nanos, Duration::from_secs(10).as_nanos());
    assert!(c.enabled);

    let c = config_from_settings(Some("18446744073709551615"), Some("true"));
    assert_eq!(c.ttl_nanos, Duration::from_secs(u64::MAX).as_nanos());
    assert!(c.enabled);
}
