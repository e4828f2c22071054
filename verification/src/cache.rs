//! In-memory response cache with a time-to-live.
//!
//! Cached entries are served until they expire; an expired entry is dropped
//! by the lookup that finds it, so the next request re-fetches and
//! repopulates the cache. A disabled cache never stores and never serves.

use crate::clock::{clock_now, clock_start, elapsed, NANOS_PER_SEC};
use crate::text::{parse_u64, parsed_unsigned, same_text, setting_view};
use dashmap::DashMap;
use std::time::Instant;
use vstd::prelude::*;
use vstd::seq_lib::seq_to_set_is_finite;

verus! {

/// Cache settings.
#[derive(Debug, Clone, Copy)]
pub struct CacheConfig {
    /// How long an entry is served after it was stored, in nanoseconds.
    pub ttl_nanos: u128,
    /// When `false`, lookups always miss and stores do nothing.
    pub enabled: bool,
}

/// Time-to-live, in seconds, when none is configured.
pub const DEFAULT_TTL_SECS: u64 = 10;

impl Default for CacheConfig {
    fn default() -> (r: Self)
        ensures
            r.ttl_nanos == DEFAULT_TTL_SECS * NANOS_PER_SEC,
            r.enabled,
    {
        CacheConfig { ttl_nanos: (DEFAULT_TTL_SECS as u128) * NANOS_PER_SEC, enabled: true }
    }
}

/// The time-to-live in seconds that a raw setting gives: its value when it
/// reads as a `u64`, and the default otherwise.
pub open spec fn ttl_secs_setting(raw: Option<Seq<char>>) -> u64 {
    match raw {
        Some(v) => match parsed_unsigned(v, u64::MAX as nat) {
            Some(n) => n as u64,
            None => DEFAULT_TTL_SECS,
        },
        None => DEFAULT_TTL_SECS,
    }
}

/// Whether a raw setting leaves caching on: it is off only for `false` or
/// `0`, and on when unset.
pub open spec fn enabled_setting(raw: Option<Seq<char>>) -> bool {
    match raw {
        Some(v) => v != "false"@ && v != "0"@,
        None => true,
    }
}

/// Cache settings from their raw text values (`None` when unset).
pub fn config_from_settings(ttl_secs: Option<&str>, enabled: Option<&str>) -> (r: CacheConfig)
    ensures
        r.ttl_nanos == ttl_secs_setting(setting_view(ttl_secs)) * NANOS_PER_SEC,
        r.enabled == enabled_setting(setting_view(enabled)),
{
    let secs = match ttl_secs {
        Some(v) => match parse_u64(v) {
            Some(n) => n,
            None => DEFAULT_TTL_SECS,
        },
        None => DEFAULT_TTL_SECS,
    };
    let on = match enabled {
        Some(v) => !same_text(v, "false") && !same_text(v, "0"),
        None => true,
    };
    CacheConfig { ttl_nanos: (secs as u128) * NANOS_PER_SEC, enabled: on }
}

/// One cached response and the clock reading at which it was stored.
#[derive(Clone)]
pub struct CacheEntry {
    pub body: Vec<u8>,
    pub content_type: String,
    pub inserted_at: u128,
}

/// What a cache entry holds, as plain values.
pub struct StoredResponse {
    pub body: Seq<u8>,
    pub content_type: Seq<char>,
    pub inserted_at: u128,
}

impl View for CacheEntry {
    type V = StoredResponse;

    open spec fn view(&self) -> StoredResponse {
        StoredResponse {
            body: self.body@,
            content_type: self.content_type@,
            inserted_at: self.inserted_at,
        }
    }
}

/// The responses a store holds, by key.
pub uninterp spec fn stored_responses(store: DashMap<String, CacheEntry>) -> Map<
    Seq<char>,
    StoredResponse,
>;

/// Calls `DashMap::new`: the new store holds nothing.
#[verifier::external_body]
fn response_store_new() -> (r: DashMap<String, CacheEntry>)
    ensures
        stored_responses(r).dom() == Set::<Seq<char>>::empty(),
{
    DashMap::new()
}

/// Calls `DashMap::get` and clones the entry found: `Some` of the entry
/// stored under `key`, or `None` when there is none.
#[verifier::external_body]
fn response_store_get(m: &DashMap<String, CacheEntry>, key: &str) -> (r: Option<CacheEntry>)
    ensures
        match r {
            Some(e) => stored_responses(*m).contains_key(key@) && stored_responses(*m)[key@]
                == e@,
            None => !stored_responses(*m).contains_key(key@),
        },
{
    m.get(key).map(|found| found.value().clone())
}

/// Calls `DashMap::insert`: `key` now maps to `e`, every other key is
/// unchanged.
#[verifier::external_body]
fn response_store_insert(m: &mut DashMap<String, CacheEntry>, key: String, e: CacheEntry)
    ensures
        stored_responses(*final(m)) == stored_responses(*old(m)).insert(key@, e@),
{
    m.insert(key, e);
}

/// Calls `DashMap::remove`: `key` no longer maps to anything, every other
/// key is unchanged.
#[verifier::external_body]
fn response_store_remove(m: &mut DashMap<String, CacheEntry>, key: &str)
    ensures
        stored_responses(*final(m)) == stored_responses(*old(m)).remove(key@),
{
    m.remove(key);
}

/// Calls `DashMap::retain` with a predicate that keeps the entries still fresh
/// at `now`: exactly those stay, unchanged.
#[verifier::external_body]
fn response_store_retain_fresh(m: &mut DashMap<String, CacheEntry>, now: u128, ttl: u128)
    ensures
        stored_responses(*final(m)) == fresh_only(stored_responses(*old(m)), now, ttl),
{
    m.retain(|_, e| entry_is_fresh(e, now, ttl));
}

/// Calls `DashMap::len`: the number of keys stored.
#[verifier::external_body]
fn response_store_len(m: &DashMap<String, CacheEntry>) -> (r: usize)
    ensures
        r == stored_responses(*m).len(),
{
    m.len()
}

/// Walks the store with `DashMap::iter`, handing out each key with the clock
/// reading of its entry: every stored key exactly once, in no stated order.
#[verifier::external_body]
fn response_store_ages(m: &DashMap<String, CacheEntry>) -> (r: Vec<(String, u128)>)
    ensures
        forall|i: int|
            0 <= i < r@.len() ==> {
                &&& stored_responses(*m).contains_key(#[trigger] r@[i].0@)
                &&& stored_responses(*m)[r@[i].0@].inserted_at == r@[i].1
            },
        forall|i: int, j: int| 0 <= i < j < r@.len() ==> r@[i].0@ != r@[j].0@,
        forall|k: Seq<char>|
            stored_responses(*m).contains_key(k) ==> exists|i: int|
                0 <= i < r@.len() && #[trigger] r@[i].0@ == k,
{
    m.iter().map(|e| (e.key().clone(), e.value().inserted_at)).collect()
}

/// An entry is fresh while less than `ttl` has passed since it was stored.
pub open spec fn is_fresh(e: StoredResponse, now: u128, ttl: u128) -> bool {
    elapsed(e.inserted_at, now) < ttl
}

/// The entries of `entries` that are fresh at `now`.
pub open spec fn fresh_only(entries: Map<Seq<char>, StoredResponse>, now: u128, ttl: u128) -> Map<
    Seq<char>,
    StoredResponse,
> {
    entries.restrict(fresh_keys(entries, now, ttl))
}

/// The keys of `entries` whose entries are fresh at `now`.
pub open spec fn fresh_keys(entries: Map<Seq<char>, StoredResponse>, now: u128, ttl: u128) -> Set<
    Seq<char>,
> {
    entries.dom().filter(|k: Seq<char>| is_fresh(entries[k], now, ttl))
}

fn entry_is_fresh(e: &CacheEntry, now: u128, ttl: u128) -> (b: bool)
    ensures
        b == is_fresh(e@, now, ttl),
{
    let age = if now >= e.inserted_at {
        now - e.inserted_at
    } else {
        0
    };
    age < ttl
}

/// The abstract state of a cache.
pub struct CacheState {
    pub enabled: bool,
    /// Time-to-live in clock nanoseconds.
    pub ttl: u128,
    pub entries: Map<Seq<char>, StoredResponse>,
}

/// What a lookup of `key` at `now` returns: the body and content type of a
/// fresh entry of an enabled cache, and nothing otherwise.
pub open spec fn lookup(s: CacheState, key: Seq<char>, now: u128) -> Option<(Seq<u8>, Seq<char>)> {
    if s.enabled && s.entries.contains_key(key) && is_fresh(s.entries[key], now, s.ttl) {
        Some((s.entries[key].body, s.entries[key].content_type))
    } else {
        None
    }
}

/// The state after a lookup of `key` at `now`: an enabled cache that misses
/// drops whatever it held under `key`.
pub open spec fn after_lookup(s: CacheState, key: Seq<char>, now: u128) -> CacheState {
    if !s.enabled || lookup(s, key, now) is Some {
        s
    } else {
        CacheState { entries: s.entries.remove(key), ..s }
    }
}

/// The state after storing `body` and `content_type` under `key` at `now`:
/// an enabled cache replaces the entry, a disabled one is unchanged.
pub open spec fn after_store(
    s: CacheState,
    key: Seq<char>,
    body: Seq<u8>,
    content_type: Seq<char>,
    now: u128,
) -> CacheState {
    if s.enabled {
        CacheState {
            entries: s.entries.insert(
                key,
                StoredResponse { body: body, content_type: content_type, inserted_at: now },
            ),
            ..s
        }
    } else {
        s
    }
}

/// The state after evicting at `now`: only the fresh entries remain.
pub open spec fn after_eviction(s: CacheState, now: u128) -> CacheState {
    CacheState { entries: fresh_only(s.entries, now, s.ttl), ..s }
}

/// The number of entries fresh at `now`.
pub open spec fn live_count(s: CacheState, now: u128) -> nat {
    fresh_keys(s.entries, now, s.ttl).len()
}

/// A lookup result as plain values.
pub open spec fn reply_view(r: Option<(Vec<u8>, String)>) -> Option<(Seq<u8>, Seq<char>)> {
    match r {
        Some((b, c)) => Some((b@, c@)),
        None => None,
    }
}

/// A response stored in an enabled cache is what a later lookup of the same
/// key returns, as long as less than the time-to-live has passed.
pub proof fn lemma_lookup_returns_stored(
    s: CacheState,
    key: Seq<char>,
    body: Seq<u8>,
    content_type: Seq<char>,
    stored_at: u128,
    read_at: u128,
)
    requires
        s.enabled,
        elapsed(stored_at, read_at) < s.ttl,
    ensures
        lookup(after_store(s, key, body, content_type, stored_at), key, read_at) == Some(
            (body, content_type),
        ),
        after_lookup(after_store(s, key, body, content_type, stored_at), key, read_at) == after_store(
            s,
            key,
            body,
            content_type,
            stored_at,
        ),
{
}

/// Once the time-to-live has passed, a response stored in an enabled cache is no longer served,
/// and the lookup that misses drops it.
pub proof fn lemma_expired_entry_misses(
    s: CacheState,
    key: Seq<char>,
    body: Seq<u8>,
    content_type: Seq<char>,
    stored_at: u128,
    read_at: u128,
)
    requires
        s.enabled,
        elapsed(stored_at, read_at) >= s.ttl,
    ensures
        lookup(after_store(s, key, body, content_type, stored_at), key, read_at) is None,
        !after_lookup(after_store(s, key, body, content_type, stored_at), key, read_at).entries.contains_key(
            key,
        ),
{
}

/// A disabled cache always misses, and neither storing nor looking up
/// changes it.
pub proof fn lemma_disabled_cache_never_serves(
    s: CacheState,
    key: Seq<char>,
    body: Seq<u8>,
    content_type: Seq<char>,
    now: u128,
    later: u128,
)
    requires
        !s.enabled,
    ensures
        lookup(s, key, now) is None,
        after_store(s, key, body, content_type, now) == s,
        after_lookup(s, key, now) == s,
        lookup(after_store(s, key, body, content_type, now), key, later) is None,
{
}

/// Storing or looking up one key leaves every other key's entry as it was.
pub proof fn lemma_other_keys_untouched(
    s: CacheState,
    key: Seq<char>,
    other: Seq<char>,
    body: Seq<u8>,
    content_type: Seq<char>,
    now: u128,
)
    requires
        key != other,
    ensures
        after_store(s, key, body, content_type, now).entries.contains_key(other)
            == s.entries.contains_key(other),
        after_lookup(s, key, now).entries.contains_key(other) == s.entries.contains_key(other),
        s.entries.contains_key(other) ==> after_store(s, key, body, content_type, now).entries[other]
            == s.entries[other] && after_lookup(s, key, now).entries[other] == s.entries[other],
{
}

/// Eviction removes exactly the expired entries: what remains is fresh and
/// unchanged, so every remaining entry is counted as live, and the live
/// count is what it was before.
pub proof fn lemma_eviction_keeps_live_entries(s: CacheState, now: u128)
    requires
        s.entries.dom().finite(),
    ensures
        forall|k: Seq<char>|
            #![trigger after_eviction(s, now).entries.contains_key(k)]
            after_eviction(s, now).entries.contains_key(k) <==> (s.entries.contains_key(k)
                && is_fresh(s.entries[k], now, s.ttl)),
        forall|k: Seq<char>|
            after_eviction(s, now).entries.contains_key(k) ==> #[trigger] after_eviction(
                s,
                now,
            ).entries[k] == s.entries[k],
        after_eviction(s, now).entries.len() == live_count(s, now),
        live_count(after_eviction(s, now), now) == live_count(s, now),
{
    let e = after_eviction(s, now);
    assert(e.entries.dom() =~= fresh_keys(s.entries, now, s.ttl));
    assert(fresh_keys(e.entries, now, s.ttl) =~= fresh_keys(s.entries, now, s.ttl));
}

/// Response cache keyed by route.
pub struct ResponseCache {
    config: CacheConfig,
    store: DashMap<String, CacheEntry>,
    clock: Instant,
    latest: u128,
}

impl View for ResponseCache {
    type V = CacheState;

    closed spec fn view(&self) -> CacheState {
        CacheState {
            enabled: self.config.enabled,
            ttl: self.config.ttl_nanos,
            entries: stored_responses(self.store),
        }
    }
}

impl ResponseCache {
    /// The cache's invariant: it holds finitely many entries.
    pub closed spec fn wf(&self) -> bool {
        stored_responses(self.store).dom().finite()
    }

    /// The settings the cache was built with.
    pub closed spec fn config_spec(&self) -> CacheConfig {
        self.config
    }

    /// The latest clock reading the cache has used. Readings never go back:
    /// each one is at least the one before.
    pub closed spec fn latest(&self) -> u128 {
        self.latest
    }

    /// A cache that holds its invariant holds finitely many entries.
    pub proof fn lemma_wf_entries_finite(&self)
        requires
            self.wf(),
        ensures
            self@.entries.dom().finite(),
    {
    }

    /// Reads the clock, never going back behind the latest reading.
    fn read_clock(&mut self) -> (now: u128)
        ensures
            now >= old(self).latest,
            final(self).latest == now,
            final(self).store == old(self).store,
            final(self).config == old(self).config,
    {
        let t = clock_now(&self.clock);
        let now = if t >= self.latest {
            t
        } else {
            self.latest
        };
        self.latest = now;
        now
    }

    /// Reads the clock without recording the reading, never going back
    /// behind the latest one.
    fn peek_clock(&self) -> (now: u128)
        ensures
            now >= self.latest,
    {
        let t = clock_now(&self.clock);
        if t >= self.latest {
            t
        } else {
            self.latest
        }
    }

    /// An empty cache with the given settings. Its clock starts now.
    pub fn new(config: CacheConfig) -> (r: Self)
        ensures
            r.wf(),
            r.config_spec() == config,
            r.latest() == 0,
            r@.enabled == config.enabled,
            r@.ttl == config.ttl_nanos,
            r@.entries.dom() == Set::<Seq<char>>::empty(),
    {
        let store = response_store_new();
        let clock = clock_start();
        ResponseCache { config, store, clock, latest: 0 }
    }

    /// Looks `key` up at clock reading `now`. A disabled cache misses and
    /// keeps its state; an enabled one returns a fresh entry's body and
    /// content type, or misses and drops the stale or absent entry.
    pub fn get_at(&mut self, key: &str, now: u128) -> (r: Option<(Vec<u8>, String)>)
        requires
            old(self).wf(),
        ensures
            final(self).wf(),
            final(self).config_spec() == old(self).config_spec(),
            final(self).latest() == old(self).latest(),
            reply_view(r) == lookup(old(self)@, key@, now),
            final(self)@ == after_lookup(old(self)@, key@, now),
    {
        if !self.config.enabled {
            return None;
        }
        match response_store_get(&self.store, key) {
            Some(e) => {
                if entry_is_fresh(&e, now, self.config.ttl_nanos) {
                    return Some((e.body, e.content_type));
                }
            },
            None => {},
        }
        response_store_remove(&mut self.store, key);
        None
    }

    /// Looks `key` up now: the result and new state are those of `get_at`
    /// at a clock reading no earlier than the latest one.
    pub fn get(&mut self, key: &str) -> (r: Option<(Vec<u8>, String)>)
        requires
            old(self).wf(),
        ensures
            final(self).wf(),
            final(self).config_spec() == old(self).config_spec(),
            exists|now: u128|
                {
                    &&& now >= old(self).latest()
                    &&& final(self).latest() == now
                    &&& reply_view(r) == lookup(old(self)@, key@, now)
                    &&& final(self)@ == after_lookup(old(self)@, key@, now)
                },
    {
        let now = self.read_clock();
        assert(self@ == old(self)@);
        let r = self.get_at(key, now);
        assert(reply_view(r) == lookup(old(self)@, key@, now));
        r
    }

    /// Stores `body` and `content_type` under `key` at clock reading `now`,
    /// replacing any earlier entry; a disabled cache is left unchanged.
    pub fn set_at(&mut self, key: &str, body: Vec<u8>, content_type: &str, now: u128)
        requires
            old(self).wf(),
        ensures
            final(self).wf(),
            final(self).config_spec() == old(self).config_spec(),
            final(self).latest() == old(self).latest(),
            final(self)@ == after_store(old(self)@, key@, body@, content_type@, now),
    {
        if !self.config.enabled {
            return;
        }
        let entry = CacheEntry { body, content_type: content_type.to_owned(), inserted_at: now };
        response_store_insert(&mut self.store, key.to_owned(), entry);
    }

    /// Stores `body` and `content_type` under `key` now.
    pub fn set(&mut self, key: &str, body: Vec<u8>, content_type: &str)
        requires
            old(self).wf(),
        ensures
            final(self).wf(),
            final(self).config_spec() == old(self).config_spec(),
            exists|now: u128|
                {
                    &&& now >= old(self).latest()
                    &&& final(self).latest() == now
                    &&& final(self)@ == after_store(old(self)@, key@, body@, content_type@, now)
                },
    {
        let now = self.read_clock();
        assert(self@ == old(self)@);
        self.set_at(key, body, content_type, now);
        assert(self@ == after_store(old(self)@, key@, body@, content_type@, now));
    }

    /// Removes every entry that has expired at clock reading `now`.
    pub fn evict_expired_at(&mut self, now: u128)
        requires
            old(self).wf(),
        ensures
            final(self).wf(),
            final(self).config_spec() == old(self).config_spec(),
            final(self).latest() == old(self).latest(),
            final(self)@ == after_eviction(old(self)@, now),
    {
        let ttl = self.config.ttl_nanos;
        response_store_retain_fresh(&mut self.store, now, ttl);
        proof {
            let old_entries = stored_responses(old(self).store);
            assert(fresh_only(old_entries, now, ttl).dom() =~= old_entries.dom().intersect(
                fresh_keys(old_entries, now, ttl),
            ));
        }
    }

    /// Removes every entry that has expired now.
    pub fn evict_expired(&mut self)
        requires
            old(self).wf(),
        ensures
            final(self).wf(),
            final(self).config_spec() == old(self).config_spec(),
            exists|now: u128|
                {
                    &&& now >= old(self).latest()
                    &&& final(self).latest() == now
                    &&& final(self)@ == after_eviction(old(self)@, now)
                },
    {
        let now = self.read_clock();
        assert(self@ == old(self)@);
        self.evict_expired_at(now);
        assert(self@ == after_eviction(old(self)@, now));
    }

    /// The number of entries still fresh at clock reading `now`.
    pub fn len_at(&self, now: u128) -> (r: usize)
        requires
            self.wf(),
        ensures
            r == live_count(self@, now),
    {
        let ages = response_store_ages(&self.store);
        let ghost entries = stored_responses(self.store);
        let ghost keys = ages@.map_values(|p: (String, u128)| p.0@);
        let ghost pred = |k: Seq<char>| is_fresh(entries[k], now, self.config.ttl_nanos);
        let mut count: usize = 0;
        let mut i: usize = 0;
        proof {
            assert(keys.take(0).to_set() =~= Set::<Seq<char>>::empty());
            assert(keys.take(0).to_set().filter(pred) =~= Set::<Seq<char>>::empty());
        }
        while i < ages.len()
            invariant
                i <= ages@.len(),
                keys.len() == ages@.len(),
                forall|j: int| 0 <= j < ages@.len() ==> #[trigger] keys[j] == ages@[j].0@,
                forall|j: int|
                    0 <= j < ages@.len() ==> {
                        &&& entries.contains_key(#[trigger] ages@[j].0@)
                        &&& entries[ages@[j].0@].inserted_at == ages@[j].1
                    },
                forall|j: int, l: int| 0 <= j < l < ages@.len() ==> ages@[j].0@ != ages@[l].0@,
                count <= i,
                count == keys.take(i as int).to_set().filter(pred).len(),
                entries == stored_responses(self.store),
                pred == (|k: Seq<char>| is_fresh(entries[k], now, self.config.ttl_nanos)),
            decreases ages@.len() - i,
        {
            let ghost before = keys.take(i as int).to_set().filter(pred);
            let inserted = ages[i].1;
            let fresh = if now >= inserted {
                now - inserted < self.config.ttl_nanos
            } else {
                0 < self.config.ttl_nanos
            };
            proof {
                let k = keys[i as int];
                assert(keys.take(i + 1) =~= keys.take(i as int).push(k));
                keys.take(i as int).lemma_push_to_set_commute(k);
                seq_to_set_is_finite(keys.take(i as int));
                assert(!keys.take(i as int).to_set().contains(k)) by {
                    if keys.take(i as int).to_set().contains(k) {
                        let j = choose|j: int| 0 <= j < i && keys.take(i as int)[j] == k;
                        assert(keys[j] == ages@[j].0@);
                    }
                }
                assert(fresh == pred(k));
                if fresh {
                    assert(keys.take(i + 1).to_set().filter(pred) =~= before.insert(k));
                } else {
                    assert(keys.take(i + 1).to_set().filter(pred) =~= before);
                }
            }
            if fresh {
                count = count + 1;
            }
            i = i + 1;
        }
        proof {
            assert(keys.take(ages@.len() as int) =~= keys);
            assert(keys.to_set().filter(pred) =~= fresh_keys(entries, now, self.config.ttl_nanos)) by {
                assert forall|k: Seq<char>|
                    keys.to_set().filter(pred).contains(k) <==> fresh_keys(
                        entries,
                        now,
                        self.config.ttl_nanos,
                    ).contains(k) by {
                    if entries.contains_key(k) {
                        let j = choose|j: int| 0 <= j < ages@.len() && #[trigger] ages@[j].0@ == k;
                        assert(keys[j] == k);
                    }
                    if keys.to_set().contains(k) {
                        let j = choose|j: int| 0 <= j < keys.len() && keys[j] == k;
                        assert(ages@[j].0@ == k);
                    }
                }
            }
        }
        count
    }

    /// The number of entries fresh now.
    pub fn len(&self) -> (r: usize)
        requires
            self.wf(),
        ensures
            exists|now: u128| now >= self.latest() && r == live_count(self@, now),
    {
        let now = self.peek_clock();
        self.len_at(now)
    }

    /// The number of entries stored, fresh or not.
    pub fn stored_len(&self) -> (r: usize)
        requires
            self.wf(),
        ensures
            r == self@.entries.len(),
    {
        response_store_len(&self.store)
    }
}

} // verus!
