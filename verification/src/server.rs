//! Replies of the HTTP endpoints.
//!
//! - `GET /metrics`: every registered metric in the Prometheus text format,
//!   served from the response cache while the cached copy is fresh.
//! - `GET /health`: liveness probe, always `200 ok`.
//! - `GET /ready`: readiness probe, `200 ready` when the exporter is up and
//!   `503 not ready` otherwise.
//!
//! The network side (routing, sockets, response headers) lives with the
//! program; here each endpoint's reply is decided.

use crate::cache::{
    after_lookup, after_store, lemma_lookup_returns_stored, lookup, reply_view, CacheState,
    ResponseCache,
};
use crate::clock::elapsed;
use prometheus::proto::MetricFamily;
use prometheus::proto::MetricType;
use prometheus::Encoder;
use prometheus::Registry;
use prometheus::TextEncoder;
use vstd::prelude::*;

verus! {

#[verifier::external_type_specification]
#[verifier::external_body]
pub struct ExRegistry(Registry);

#[verifier::external_type_specification]
#[verifier::external_body]
pub struct ExMetricFamily(MetricFamily);

#[verifier::external_type_specification]
#[verifier::external_body]
pub struct ExTextEncoder(TextEncoder);

#[verifier::external_type_specification]
#[verifier::external_body]
pub struct ExPrometheusError(prometheus::Error);

/// Calls `Registry::gather`. Nothing is stated of the result: it depends on
/// the values the registered collectors hold at the time of the call.
#[verifier::external_body]
fn gather_metrics(registry: &Registry) -> Vec<MetricFamily> {
    registry.gather()
}

/// Calls `TextEncoder::new`.
#[verifier::external_body]
fn new_text_encoder() -> TextEncoder {
    TextEncoder::new()
}

/// The type of a metric family, as `MetricFamily::get_field_type` reports
/// it.
pub enum MetricKind {
    Counter,
    Gauge,
    Summary,
    Untyped,
    Histogram,
}

/// The type of `family` (`MetricFamily::get_field_type`).
pub uninterp spec fn kind_of(family: MetricFamily) -> MetricKind;

/// Calls `MetricFamily::get_field_type`, one arm per variant of the
/// protobuf enum.
#[verifier::external_body]
fn family_kind(family: &MetricFamily) -> (r: MetricKind)
    ensures
        r == kind_of(*family),
{
    match family.get_field_type() {
        MetricType::COUNTER => MetricKind::Counter,
        MetricType::GAUGE => MetricKind::Gauge,
        MetricType::SUMMARY => MetricKind::Summary,
        MetricType::UNTYPED => MetricKind::Untyped,
        MetricType::HISTOGRAM => MetricKind::Histogram,
    }
}

/// The length in bytes of the name of `family` (`MetricFamily::get_name`).
pub uninterp spec fn name_length(family: MetricFamily) -> usize;

/// Calls `MetricFamily::get_name` and hands out the name's length.
#[verifier::external_body]
fn family_name_length(family: &MetricFamily) -> (r: usize)
    ensures
        r == name_length(*family),
{
    family.get_name().len()
}

/// The number of metrics `family` holds (`MetricFamily::get_metric`).
pub uninterp spec fn metric_count(family: MetricFamily) -> usize;

/// Calls `MetricFamily::get_metric` and hands out how many metrics it holds.
#[verifier::external_body]
fn family_metric_count(family: &MetricFamily) -> (r: usize)
    ensures
        r == metric_count(*family),
{
    family.get_metric().len()
}

/// The text encoder's answer for `families`: the text exposition, or the
/// encoder's error rendered with `Display`.
pub uninterp spec fn text_exposition(families: Seq<MetricFamily>) -> Result<Seq<u8>, Seq<char>>;

/// The encoder gives up on `family` with its own error: the family holds no
/// metrics or has no name.
pub open spec fn fails_check(family: MetricFamily) -> bool {
    metric_count(family) == 0 || name_length(family) == 0
}

/// The text encoder, which walks the families in order and stops at the
/// first that fails its checks, reaches an untyped family that passes them.
/// There it panics (`unimplemented!`).
pub open spec fn untyped_reached(families: Seq<MetricFamily>) -> bool {
    exists|i: int|
        0 <= i < families.len() && kind_of(#[trigger] families[i]) is Untyped && !fails_check(
            families[i],
        ) && forall|j: int| 0 <= j < i ==> !fails_check(#[trigger] families[j])
}

/// Calls `Encoder::encode` of the text encoder into a new buffer, and
/// renders an error with its `Display` impl. Its answer depends on the
/// families alone and is named `text_exposition`. It panics where an untyped
/// family is reached, so such families are left out.
#[verifier::external_body]
fn encode_metrics(encoder: &TextEncoder, families: &Vec<MetricFamily>) -> (r: Result<
    Vec<u8>,
    String,
>)
    requires
        !untyped_reached(families@),
    ensures
        encoded_view(r) == text_exposition(families@),
{
    let mut buf: Vec<u8> = Vec::new();
    match encoder.encode(families, &mut buf) {
        Ok(()) => Ok(buf),
        Err(e) => Err(e.to_string()),
    }
}

/// Calls `Encoder::format_type` of the text encoder, which returns the
/// constant `TEXT_FORMAT`, `text/plain; version=0.0.4`.
#[verifier::external_body]
fn text_format_type(encoder: &TextEncoder) -> (r: String)
    ensures
        r@ == metrics_content_type(),
{
    encoder.format_type().to_string()
}

/// The HTTP status codes the endpoints answer with.
pub const STATUS_OK: u16 = 200;

pub const STATUS_INTERNAL_SERVER_ERROR: u16 = 500;

pub const STATUS_SERVICE_UNAVAILABLE: u16 = 503;

/// The body of a reply.
pub enum ReplyBody {
    /// Text, sent as `text/plain; charset=utf-8`.
    Text(String),
    /// Raw bytes, sent with the reply's content type.
    Bytes(Vec<u8>),
}

/// An endpoint's reply.
pub struct HttpReply {
    pub status: u16,
    /// An explicit `Content-Type` header, if the reply sets one.
    pub content_type: Option<String>,
    pub body: ReplyBody,
}

/// `r` is a text reply with the given status and text.
pub open spec fn is_text_reply(r: HttpReply, status: u16, text: Seq<char>) -> bool {
    &&& r.status == status
    &&& r.content_type is None
    &&& r.body matches ReplyBody::Text(t) && t@ == text
}

/// `r` is a byte reply with the given status, content type and bytes.
pub open spec fn is_bytes_reply(r: HttpReply, status: u16, content_type: Seq<char>, body: Seq<u8>) -> bool {
    &&& r.status == status
    &&& r.content_type matches Some(c) && c@ == content_type
    &&& r.body matches ReplyBody::Bytes(b) && b@ == body
}

fn text_reply(status: u16, text: String) -> (r: HttpReply)
    ensures
        is_text_reply(r, status, text@),
{
    HttpReply { status, content_type: None, body: ReplyBody::Text(text) }
}

fn bytes_reply(status: u16, content_type: String, body: Vec<u8>) -> (r: HttpReply)
    ensures
        is_bytes_reply(r, status, content_type@, body@),
{
    HttpReply { status, content_type: Some(content_type), body: ReplyBody::Bytes(body) }
}

/// The cache key of the metrics text.
pub open spec fn metrics_cache_key() -> Seq<char> {
    "metrics"@
}

/// The content type of the Prometheus text format.
pub open spec fn metrics_content_type() -> Seq<char> {
    "text/plain; version=0.0.4"@
}

/// The reply to a metrics request that the encoder answered with `encoded`:
/// the encoded text, or a server error naming the encoder's error.
pub open spec fn is_encoded_metrics_reply(r: HttpReply, encoded: Result<Seq<u8>, Seq<char>>) -> bool {
    match encoded {
        Ok(body) => is_bytes_reply(r, STATUS_OK, metrics_content_type(), body),
        Err(text) => is_text_reply(
            r,
            STATUS_INTERNAL_SERVER_ERROR,
            "failed to encode metrics: "@ + text,
        ),
    }
}

/// The cache after the encoder answered `encoded` at `now`: encoded text is
/// stored under the metrics key, an error leaves the cache as it was.
pub open spec fn cache_after_encoding(s: CacheState, encoded: Result<Seq<u8>, Seq<char>>, now: u128) -> CacheState {
    match encoded {
        Ok(body) => after_store(s, metrics_cache_key(), body, metrics_content_type(), now),
        Err(_) => s,
    }
}

/// The reply, and what the cache holds afterwards, to a metrics request
/// whose cache lookup happens at clock reading `read`, and whose encoder, if
/// it is asked at all, answers `encoded`, stored at clock reading `stored`: a
/// fresh cached copy is served as it was stored; otherwise the stale copy is
/// dropped and the encoder's answer decides.
pub open spec fn metrics_outcome(
    old_cache: CacheState,
    new_cache: CacheState,
    r: HttpReply,
    encoded: Result<Seq<u8>, Seq<char>>,
    read: u128,
    stored: u128,
) -> bool {
    let looked_up = after_lookup(old_cache, metrics_cache_key(), read);
    match lookup(old_cache, metrics_cache_key(), read) {
        Some(hit) => is_bytes_reply(r, STATUS_OK, hit.1, hit.0) && new_cache == looked_up,
        None => is_encoded_metrics_reply(r, encoded) && new_cache == cache_after_encoding(
            looked_up,
            encoded,
            stored,
        ),
    }
}

/// Metrics text that was encoded and cached is served from the cache, as it
/// was encoded and without asking the encoder again, by every metrics
/// request that comes while it is fresh.
pub proof fn lemma_cached_metrics_served_again(
    s: CacheState,
    body: Seq<u8>,
    stored: u128,
    later: u128,
)
    requires
        s.enabled,
        elapsed(stored, later) < s.ttl,
    ensures
        forall|r: HttpReply, new_cache: CacheState, encoded: Result<Seq<u8>, Seq<char>>, again: u128|
            #[trigger] metrics_outcome(
                cache_after_encoding(s, Ok(body), stored),
                new_cache,
                r,
                encoded,
                later,
                again,
            ) ==> is_bytes_reply(r, STATUS_OK, metrics_content_type(), body) && new_cache
                == cache_after_encoding(s, Ok(body), stored),
{
    lemma_lookup_returns_stored(s, metrics_cache_key(), body, metrics_content_type(), stored, later);
}

fn metrics_key() -> (r: &'static str)
    ensures
        r@ == metrics_cache_key(),
{
    "metrics"
}

/// Answers a metrics request once the encoder has answered with `encoded`
/// (the text, or the rendered error) at clock reading `now`.
pub fn metrics_reply_from_encoding(
    cache: &mut ResponseCache,
    encoded: Result<Vec<u8>, String>,
    content_type: &str,
    now: u128,
) -> (r: HttpReply)
    requires
        old(cache).wf(),
        content_type@ == metrics_content_type(),
    ensures
        final(cache).wf(),
        final(cache).config_spec() == old(cache).config_spec(),
        final(cache).latest() == old(cache).latest(),
        is_encoded_metrics_reply(r, encoded_view(encoded)),
        final(cache)@ == cache_after_encoding(old(cache)@, encoded_view(encoded), now),
{
    match encoded {
        Ok(body) => {
            let stored = body.clone();
            proof {
                assert(stored@ =~= body@);
            }
            cache.set_at(metrics_key(), stored, content_type, now);
            bytes_reply(STATUS_OK, content_type.to_owned(), body)
        },
        Err(text) => {
            let mut message = String::new();
            message.append("failed to encode metrics: ");
            message.append(text.as_str());
            text_reply(STATUS_INTERNAL_SERVER_ERROR, message)
        },
    }
}

/// An encoder's answer as plain values.
pub open spec fn encoded_view(encoded: Result<Vec<u8>, String>) -> Result<Seq<u8>, Seq<char>> {
    match encoded {
        Ok(b) => Ok(b@),
        Err(t) => Err(t@),
    }
}

/// The error text for metric families whose encoding would reach an untyped
/// family, which the text format cannot express.
pub open spec fn untyped_family_message() -> Seq<char> {
    "untyped metric families cannot be encoded as text"@
}

fn untyped_family_text() -> (r: String)
    ensures
        r@ == untyped_family_message(),
{
    "untyped metric families cannot be encoded as text".to_owned()
}

/// What encoding `families` as text answers: refused when the encoder would
/// reach an untyped family, and the encoder's answer otherwise.
pub open spec fn exposition_outcome(families: Seq<MetricFamily>) -> Result<Seq<u8>, Seq<char>> {
    if untyped_reached(families) {
        Err(untyped_family_message())
    } else {
        text_exposition(families)
    }
}

/// Encodes gathered metric families as text: refused with
/// `untyped_family_message` exactly when the encoder would reach an untyped
/// family, and otherwise the encoder's answer.
pub fn encode_families(families: &Vec<MetricFamily>) -> (r: Result<Vec<u8>, String>)
    ensures
        encoded_view(r) == exposition_outcome(families@),
{
    let mut i: usize = 0;
    while i < families.len()
        invariant
            i <= families@.len(),
            forall|j: int| 0 <= j < i ==> !fails_check(#[trigger] families@[j]),
            forall|j: int| 0 <= j < i ==> !(kind_of(#[trigger] families@[j]) is Untyped),
        ensures
            i <= families@.len(),
            forall|j: int| 0 <= j < i ==> !fails_check(#[trigger] families@[j]),
            forall|j: int| 0 <= j < i ==> !(kind_of(#[trigger] families@[j]) is Untyped),
            i < families@.len() ==> fails_check(families@[i as int]),
        decreases families@.len() - i,
    {
        let family = &families[i];
        if family_metric_count(family) == 0 || family_name_length(family) == 0 {
            break;
        }
        match family_kind(family) {
            MetricKind::Untyped => {
                assert(untyped_reached(families@)) by {
                    let at = families@[i as int];
                }
                return Err(untyped_family_text());
            },
            _ => {},
        }
        i = i + 1;
    }
    assert(!untyped_reached(families@)) by {
        if untyped_reached(families@) {
            let k = choose|k: int|
                0 <= k < families@.len() && kind_of(#[trigger] families@[k]) is Untyped
                    && !fails_check(families@[k]) && forall|j: int|
                    0 <= j < k ==> !fails_check(#[trigger] families@[j]);
            if i < families@.len() && k > i {
                let stopped = families@[i as int];
            }
        }
    }
    let encoder = new_text_encoder();
    encode_metrics(&encoder, families)
}

/// Answers a metrics request that missed the cache, from the gathered
/// families, at clock reading `now`.
pub fn metrics_reply_from_families(
    cache: &mut ResponseCache,
    families: &Vec<MetricFamily>,
    now: u128,
) -> (r: HttpReply)
    requires
        old(cache).wf(),
    ensures
        final(cache).wf(),
        final(cache).config_spec() == old(cache).config_spec(),
        final(cache).latest() == old(cache).latest(),
        is_encoded_metrics_reply(r, exposition_outcome(families@)),
        final(cache)@ == cache_after_encoding(old(cache)@, exposition_outcome(families@), now),
{
    let content_type = text_format_type(&new_text_encoder());
    let encoded = encode_families(families);
    metrics_reply_from_encoding(cache, encoded, content_type.as_str(), now)
}

/// Answers `GET /metrics` at clock reading `now`: a fresh cached copy as
/// stored, and otherwise the encoding of the families gathered from the
/// registry (which depend on the values its collectors hold at the time).
pub fn metrics_reply_at(cache: &mut ResponseCache, registry: &Registry, now: u128) -> (r: HttpReply)
    requires
        old(cache).wf(),
    ensures
        final(cache).wf(),
        final(cache).config_spec() == old(cache).config_spec(),
        final(cache).latest() == old(cache).latest(),
        exists|gathered: Seq<MetricFamily>|
            metrics_outcome(
                old(cache)@,
                final(cache)@,
                r,
                exposition_outcome(gathered),
                now,
                now,
            ),
{
    let key = metrics_key();
    match cache.get_at(key, now) {
        Some((body, content_type)) => {
            let r = bytes_reply(STATUS_OK, content_type, body);
            assert(metrics_outcome(
                old(cache)@,
                cache@,
                r,
                exposition_outcome(Seq::empty()),
                now,
                now,
            ));
            return r;
        },
        None => {},
    }
    let families = gather_metrics(registry);
    let r = metrics_reply_from_families(cache, &families, now);
    assert(metrics_outcome(old(cache)@, cache@, r, exposition_outcome(families@), now, now));
    r
}

/// Answers `GET /metrics` now. The cache is read at one clock reading and,
/// on a miss, refilled with the encoding of the gathered families at
/// another; neither goes back behind the cache's latest reading.
pub fn metrics_reply(cache: &mut ResponseCache, registry: &Registry) -> (r: HttpReply)
    requires
        old(cache).wf(),
    ensures
        final(cache).wf(),
        final(cache).config_spec() == old(cache).config_spec(),
        final(cache).latest() >= old(cache).latest(),
        exists|gathered: Seq<MetricFamily>, read: u128, stored: u128|
            {
                &&& old(cache).latest() <= read <= stored
                &&& metrics_outcome(
                    old(cache)@,
                    final(cache)@,
                    r,
                    exposition_outcome(gathered),
                    read,
                    stored,
                )
            },
{
    let key = metrics_key();
    let ghost before = cache@;
    let ghost before_latest = cache.latest();
    let looked = cache.get(key);
    let ghost read = choose|t: u128|
        {
            &&& t >= before_latest
            &&& cache.latest() == t
            &&& reply_view(looked) == lookup(before, key@, t)
            &&& cache@ == after_lookup(before, key@, t)
        };
    let ghost looked_up = cache@;
    match looked {
        Some((body, content_type)) => {
            let r = bytes_reply(STATUS_OK, content_type, body);
            assert(metrics_outcome(before, cache@, r, exposition_outcome(Seq::empty()), read, read));
            return r;
        },
        None => {},
    }
    let families = gather_metrics(registry);
    let encoded = encode_families(&families);
    let content_type = text_format_type(&new_text_encoder());
    let ghost seen = exposition_outcome(families@);
    let r = match encoded {
        Ok(body) => {
            let stored = body.clone();
            proof {
                assert(stored@ =~= body@);
            }
            cache.set(key, stored, content_type.as_str());
            let ghost at = choose|t: u128|
                {
                    &&& t >= read
                    &&& cache.latest() == t
                    &&& cache@ == after_store(looked_up, key@, body@, content_type@, t)
                };
            let r = bytes_reply(STATUS_OK, content_type, body);
            assert(metrics_outcome(before, cache@, r, seen, read, at));
            r
        },
        Err(text) => {
            let mut message = String::new();
            message.append("failed to encode metrics: ");
            message.append(text.as_str());
            let r = text_reply(STATUS_INTERNAL_SERVER_ERROR, message);
            assert(metrics_outcome(before, cache@, r, seen, read, read));
            r
        },
    };
    r
}

/// Answers `GET /health`: always `200 ok`.
pub fn health_reply() -> (r: HttpReply)
    ensures
        is_text_reply(r, STATUS_OK, "ok"@),
{
    text_reply(STATUS_OK, "ok".to_owned())
}

/// Answers `GET /ready`: `200 ready` when the exporter is up, `503 not
/// ready` otherwise.
pub fn ready_reply(up: bool) -> (r: HttpReply)
    ensures
        up ==> is_text_reply(r, STATUS_OK, "ready"@),
        !up ==> is_text_reply(r, STATUS_SERVICE_UNAVAILABLE, "not ready"@),
{
    if up {
        text_reply(STATUS_OK, "ready".to_owned())
    } else {
        text_reply(STATUS_SERVICE_UNAVAILABLE, "not ready".to_owned())
    }
}

} // verus!
