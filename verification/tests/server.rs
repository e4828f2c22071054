use router_metrics::cache::{CacheConfig, ResponseCache};
use router_metrics::server::{
    encode_families, health_reply, metrics_reply, metrics_reply_at, metrics_reply_from_encoding,
    metrics_reply_from_families, ready_reply, HttpReply, ReplyBody,
};

fn text_of(r: &HttpReply) -> &str {
    match &r.body {
        ReplyBody::Text(t) => t.as_str(),
        ReplyBody::Bytes(_) => panic!("expected a text body"),
    }
}

fn bytes_of(r: &HttpReply) -> &[u8] {
    match &r.body {
        ReplyBody::Bytes(b) => b.as_slice(),
        ReplyBody::Text(_) => panic!("expected a byte body"),
    }
}

fn registry_with_gauge() -> prometheus::Registry {
    let registry = prometheus::Registry::new();
    let gauge = prometheus::Gauge::new("test_gauge", "a test gauge").unwrap();
    registry.register(Box::new(gauge.clone())).unwrap();
    gauge.set(42.0);
    registry
}

#[test]
fn test_health_returns_200() {
    let r = health_reply();
    assert_eq!(r.status, 200);
    assert_eq!(r.content_type, None);
    assert_eq!(text_of(&r), "ok");
}

#[test]
fn ready_follows_up_flag() {
    let r = ready_reply(true);
    assert_eq!(r.status, 200);
    assert_eq!(text_of(&r), "ready");
    let r = ready_reply(false);
    assert_eq!(r.status, 503);
    assert_eq!(text_of(&r), "not ready");
}

#[test]
fn test_metrics_returns_200_with_prometheus_content_type() {
    let registry = registry_with_gauge();
    let mut cache = ResponseCache::new(CacheConfig::default());
    let r = metrics_reply(&mut cache, &registry);
    assert_eq!(r.status, 200);
    let content_type = r.content_type.clone().unwrap_or_default();
    assert!(
        content_type.contains("text/plain"),
        "expected text/plain content type, got: {content_type}"
    );
    assert_eq!(content_type, "text/plain; version=0.0.4");
    // The text was cached.
    assert_eq!(cache.stored_len(), 1);
}

#[test]
fn test_metrics_body_contains_gauge() {
    let registry = registry_with_gauge();
    let mut cache = ResponseCache::new(CacheConfig::default());
    let r = metrics_reply(&mut cache, &registry);
    let body_str = std::str::from_utf8(bytes_of(&r)).unwrap();
    assert!(
        body_str.contains("test_gauge"),
        "expected test_gauge in metrics output"
    );
    assert!(
        body_str.contains("42"),
        "expected gauge value 42 in metrics output"
    );
}

#[test]
fn metrics_are_served_from_cache_while_fresh() {
    let registry = registry_with_gauge();
    let mut cache = ResponseCache::new(CacheConfig::default());
    let first = metrics_reply_at(&mut cache, &registry, 0);
    let first_body = bytes_of(&first).to_vec();
    // A new gauge value is not seen while the cached copy is fresh.
    let gauge = prometheus::Gauge::new("other_gauge", "another gauge").unwrap();
    registry.register(Box::new(gauge.clone())).unwrap();
    let second = metrics_reply_at(&mut cache, &registry, 9_999_999_999);
    assert_eq!(bytes_of(&second), first_body.as_slice());
    // Once it has expired, the registry is encoded again.
    let third = metrics_reply_at(&mut cache, &registry, 10_000_000_000);
    let text = std::str::from_utf8(bytes_of(&third)).unwrap().to_string();
    assert!(text.contains("other_gauge"));
}

#[test]
fn encoding_error_is_a_server_error_and_not_cached() {
    let mut cache = ResponseCache::new(CacheConfig::default());
    let r = metrics_reply_from_encoding(
        &mut cache,
        Err("boom".to_string()),
        "text/plain; version=0.0.4",
        0,
    );
    assert_eq!(r.status, 500);
    assert_eq!(r.content_type, None);
    assert_eq!(text_of(&r), "failed to encode metrics: boom");
    assert_eq!(cache.stored_len(), 0);

    let r = metrics_reply_from_encoding(
        &mut cache,
        Ok(b"x 1\n".to_vec()),
        "text/plain; version=0.0.4",
        0,
    );
    assert_eq!(r.status, 200);
    assert_eq!(bytes_of(&r), b"x 1\n");
    assert_eq!(cache.get_at("metrics", 1), Some((b"x 1\n".to_vec(), "text/plain; version=0.0.4".to_string())));
}

#[test]
fn disabled_cache_encodes_every_time() {
    let registry = registry_with_gauge();
    let mut cache = ResponseCache::new(CacheConfig {
        ttl_nanos: std::time::Duration::from_secs(60).as_nanos(),
        enabled: false,
    });
    let r = metrics_reply_at(&mut cache, &registry, 0);
    assert_eq!(r.status, 200);
    assert_eq!(cache.stored_len(), 0);
}

struct UntypedCollector;

impl prometheus::core::Collector for UntypedCollector {
    fn desc(&self) -> Vec<&prometheus::core::Desc> {
        Vec::new()
    }

    fn collect(&self) -> Vec<prometheus::proto::MetricFamily> {
        let mut mf = prometheus::proto::MetricFamily::default();
        mf.set_name("legacy_value".to_string());
        mf.set_help("an untyped value".to_string());
        mf.set_field_type(prometheus::proto::MetricType::UNTYPED);
        mf.mut_metric().push(prometheus::proto::Metric::default());
        vec![mf]
    }
}

#[test]
fn untyped_family_is_a_server_error_not_a_panic() {
    let registry = registry_with_gauge();
    registry.register(Box::new(UntypedCollector)).unwrap();
    let mut cache = ResponseCache::new(CacheConfig::default());
    let r = metrics_reply(&mut cache, &registry);
    assert_eq!(r.status, 500);
    assert_eq!(
        text_of(&r),
        "failed to encode metrics: untyped metric families cannot be encoded as text"
    );
    assert_eq!(cache.stored_len(), 0);
}

#[test]
fn millisecond_ttl_expires() {
    let mut cache = ResponseCache::new(CacheConfig {
        ttl_nanos: std::time::Duration::from_millis(1).as_nanos(),
        enabled: true,
    });
    let registry = registry_with_gauge();
    let first = metrics_reply_at(&mut cache, &registry, 0);
    assert_eq!(first.status, 200);
    assert!(cache.get_at("metrics", 999_999).is_some());
    assert!(cache.get_at("metrics", 1_000_000).is_none());
}

fn family(name: &str, kind: prometheus::proto::MetricType, metrics: usize) -> prometheus::proto::MetricFamily {
    let mut mf = prometheus::proto::MetricFamily::default();
    mf.set_name(name.to_string());
    mf.set_field_type(kind);
    for _ in 0..metrics {
        let mut m = prometheus::proto::Metric::default();
        let mut g = prometheus::proto::Gauge::default();
        g.set_value(7.0);
        m.set_gauge(g);
        mf.mut_metric().push(m);
    }
    mf
}

#[test]
fn encode_families_writes_the_text_format() {
    let families = vec![family("depth", prometheus::proto::MetricType::GAUGE, 1)];
    let encoded = encode_families(&families).unwrap();
    assert_eq!(String::from_utf8(encoded).unwrap(), "# TYPE depth gauge\ndepth 7\n");
}

#[test]
fn encode_families_of_nothing_is_empty_text() {
    assert_eq!(encode_families(&Vec::new()), Ok(Vec::new()));
}

#[test]
fn untyped_family_first_is_refused() {
    let families = vec![
        family("legacy", prometheus::proto::MetricType::UNTYPED, 1),
        family("depth", prometheus::proto::MetricType::GAUGE, 1),
    ];
    assert_eq!(
        encode_families(&families),
        Err("untyped metric families cannot be encoded as text".to_string())
    );
}

#[test]
fn nameless_family_gets_the_encoders_own_error() {
    let families = vec![
        family("", prometheus::proto::MetricType::GAUGE, 1),
        family("legacy", prometheus::proto::MetricType::UNTYPED, 1),
    ];
    let err = encode_families(&families).unwrap_err();
    assert!(err.starts_with("Error: MetricFamily has no name"), "got: {err}");
}

#[test]
fn empty_family_gets_the_encoders_own_error() {
    let families = vec![
        family("depth", prometheus::proto::MetricType::GAUGE, 0),
        family("legacy", prometheus::proto::MetricType::UNTYPED, 1),
    ];
    let err = encode_families(&families).unwrap_err();
    assert!(err.starts_with("Error: MetricFamily has no metrics"), "got: {err}");
}

#[test]
fn untyped_family_without_metrics_is_not_reached() {
    let families = vec![family("legacy", prometheus::proto::MetricType::UNTYPED, 0)];
    let err = encode_families(&families).unwrap_err();
    assert!(err.starts_with("Error: MetricFamily has no metrics"), "got: {err}");
}

#[test]
fn reply_from_families_caches_the_text() {
    let mut cache = ResponseCache::new(CacheConfig::default());
    let families = vec![family("depth", prometheus::proto::MetricType::GAUGE, 1)];
    let r = metrics_reply_from_families(&mut cache, &families, 5);
    assert_eq!(r.status, 200);
    assert_eq!(r.content_type.as_deref(), Some("text/plain; version=0.0.4"));
    assert_eq!(bytes_of(&r), b"# TYPE depth gauge\ndepth 7\n");
    assert_eq!(
        cache.get_at("metrics", 6),
        Some((b"# TYPE depth gauge\ndepth 7\n".to_vec(), "text/plain; version=0.0.4".to_string()))
    );
}

#[test]
fn reply_from_nameless_family_is_a_server_error() {
    let mut cache = ResponseCache::new(CacheConfig::default());
    let families = vec![family("", prometheus::proto::MetricType::COUNTER, 1)];
    let r = metrics_reply_from_families(&mut cache, &families, 5);
    assert_eq!(r.status, 500);
    assert!(text_of(&r).starts_with("failed to encode metrics: Error: MetricFamily has no name"));
    assert_eq!(cache.stored_len(), 0);
}
