//! Per-key sliding-window rate limiter.
//!
//! Requests are counted per key (an API key, or else the caller's address).
//! A request is allowed when fewer than `max_requests` requests for its key
//! were allowed in the window of the configured length that ends at the
//! request, so no span of one window length ever holds more than
//! `max_requests` allowed requests for a key. Each key keeps the clock
//! readings of its allowed requests that may still lie inside a window. A
//! rejected request is answered with HTTP 429, a `Retry-After` header and a
//! JSON body.

use crate::clock::{clock_now, clock_start, elapsed, NANOS_PER_SEC};
use crate::text::{decimal, parse_u32, parse_u64, parsed_unsigned, setting_view, u64_to_decimal};
use dashmap::DashMap;
use std::time::Instant;
use vstd::prelude::*;

verus! {

/// Rate-limit settings.
#[derive(Debug, Clone, Copy)]
pub struct RateLimitConfig {
    /// Maximum requests allowed per window.
    pub max_requests: u32,
    /// Length of the sliding window, in nanoseconds.
    pub window_nanos: u128,
}

/// Requests allowed per window when none is configured.
pub const DEFAULT_MAX_REQUESTS: u32 = 60;

/// Window length, in seconds, when none is configured.
pub const DEFAULT_WINDOW_SECS: u64 = 60;

impl Default for RateLimitConfig {
    fn default() -> (r: Self)
        ensures
            r.max_requests == DEFAULT_MAX_REQUESTS,
            r.window_nanos == DEFAULT_WINDOW_SECS * NANOS_PER_SEC,
    {
        RateLimitConfig {
            max_requests: DEFAULT_MAX_REQUESTS,
            window_nanos: (DEFAULT_WINDOW_SECS as u128) * NANOS_PER_SEC,
        }
    }
}

/// The request limit that a raw setting gives: its value when it reads as a
/// `u32`, and the default otherwise.
pub open spec fn max_requests_setting(raw: Option<Seq<char>>) -> u32 {
    match raw {
        Some(v) => match parsed_unsigned(v, u32::MAX as nat) {
            Some(n) => n as u32,
            None => DEFAULT_MAX_REQUESTS,
        },
        None => DEFAULT_MAX_REQUESTS,
    }
}

/// The window length in seconds that a raw setting gives: its value when it
/// reads as a `u64`, and the default otherwise.
pub open spec fn window_secs_setting(raw: Option<Seq<char>>) -> u64 {
    match raw {
        Some(v) => match parsed_unsigned(v, u64::MAX as nat) {
            Some(n) => n as u64,
            None => DEFAULT_WINDOW_SECS,
        },
        None => DEFAULT_WINDOW_SECS,
    }
}

/// Rate-limit settings from their raw text values (`None` when unset).
pub fn config_from_settings(max_requests: Option<&str>, window_secs: Option<&str>) -> (r:
    RateLimitConfig)
    ensures
        r.max_requests == max_requests_setting(setting_view(max_requests)),
        r.window_nanos == window_secs_setting(setting_view(window_secs)) * NANOS_PER_SEC,
{
    let max = match max_requests {
        Some(v) => match parse_u32(v) {
            Some(n) => n,
            None => DEFAULT_MAX_REQUESTS,
        },
        None => DEFAULT_MAX_REQUESTS,
    };
    let secs = match window_secs {
        Some(v) => match parse_u64(v) {
            Some(n) => n,
            None => DEFAULT_WINDOW_SECS,
        },
        None => DEFAULT_WINDOW_SECS,
    };
    RateLimitConfig { max_requests: max, window_nanos: (secs as u128) * NANOS_PER_SEC }
}

/// The clock readings of a key's allowed requests, oldest first.
pub uninterp spec fn request_logs(store: DashMap<String, Vec<u128>>) -> Map<Seq<char>, Seq<u128>>;

/// Calls `DashMap::new`: the new store holds nothing.
#[verifier::external_body]
fn log_store_new() -> (r: DashMap<String, Vec<u128>>)
    ensures
        request_logs(r).dom() == Set::<Seq<char>>::empty(),
{
    DashMap::new()
}

/// Calls `DashMap::get` and clones the log found: `Some` of the log stored
/// under `key`, or `None` when there is none.
#[verifier::external_body]
fn log_store_get(m: &DashMap<String, Vec<u128>>, key: &str) -> (r: Option<Vec<u128>>)
    ensures
        match r {
            Some(v) => request_logs(*m).contains_key(key@) && request_logs(*m)[key@] == v@,
            None => !request_logs(*m).contains_key(key@),
        },
{
    m.get(key).map(|found| found.value().clone())
}

/// Calls `DashMap::insert`: `key` now maps to `v`, every other key is
/// unchanged.
#[verifier::external_body]
fn log_store_insert(m: &mut DashMap<String, Vec<u128>>, key: String, v: Vec<u128>)
    ensures
        request_logs(*final(m)) == request_logs(*old(m)).insert(key@, v@),
{
    m.insert(key, v);
}

/// The abstract state of a rate limiter.
pub struct LimiterState {
    pub max_requests: u32,
    /// Window length in clock nanoseconds.
    pub window: u128,
    /// For each key, the clock readings of the requests it was allowed that
    /// may still lie inside a window.
    pub logs: Map<Seq<char>, Seq<u128>>,
}

/// The readings recorded for `key` (none when it has no log).
pub open spec fn recorded(s: LimiterState, key: Seq<char>) -> Seq<u128> {
    if s.logs.contains_key(key) {
        s.logs[key]
    } else {
        Seq::empty()
    }
}

/// A reading lies inside the window that ends at `now`: less than `window`
/// has passed since it.
pub open spec fn in_window(now: u128, window: u128) -> spec_fn(u128) -> bool {
    |t: u128| elapsed(t, now) < window
}

/// The readings of `log` inside the window that ends at `now`.
pub open spec fn live(log: Seq<u128>, now: u128, window: u128) -> Seq<u128> {
    log.filter(in_window(now, window))
}

/// The allowed requests for `key` inside the window that ends at `now`.
pub open spec fn live_requests(s: LimiterState, key: Seq<char>, now: u128) -> Seq<u128> {
    live(recorded(s, key), now, s.window)
}

/// Whether a request for `key` at `now` is allowed: fewer than
/// `max_requests` requests were allowed in the window that ends at `now`.
pub open spec fn allows(s: LimiterState, key: Seq<char>, now: u128) -> bool {
    live_requests(s, key, now).len() < s.max_requests
}

/// The state after a request for `key` at `now` has been decided: `key`'s
/// log keeps the readings inside the window, followed by `now` when the
/// request is allowed.
pub open spec fn after_check(s: LimiterState, key: Seq<char>, now: u128) -> LimiterState {
    let kept = live_requests(s, key, now);
    LimiterState {
        logs: s.logs.insert(key, if allows(s, key, now) { kept.push(now) } else { kept }),
        ..s
    }
}

/// The greatest age at `now` of the readings of `log` inside the window (0
/// when there are none).
pub open spec fn live_age(log: Seq<u128>, now: u128, window: u128) -> u128
    decreases log.len(),
{
    if log.len() == 0 {
        0
    } else {
        let age = elapsed(log.last(), now);
        let rest = live_age(log.drop_last(), now, window);
        if age < window && age > rest {
            age
        } else {
            rest
        }
    }
}

/// Whole seconds, at least one, until the oldest allowed request inside
/// `key`'s window leaves it (and so a place frees up); one when there is no
/// such request. (A count beyond `u64::MAX` seconds, which no `Duration`
/// window reaches, is held at `u64::MAX`.)
pub open spec fn retry_after(s: LimiterState, key: Seq<char>, now: u128) -> u64 {
    if live_requests(s, key, now).len() > 0 {
        let whole = (s.window - live_age(recorded(s, key), now, s.window)) / NANOS_PER_SEC as int;
        let secs: u64 = if whole > u64::MAX {
            u64::MAX
        } else {
            whole as u64
        };
        if secs >= 1 {
            secs
        } else {
            1
        }
    } else {
        1
    }
}

proof fn lemma_filter_push(x: Seq<u128>, a: u128, p: spec_fn(u128) -> bool)
    ensures
        x.push(a).filter(p) == (if p(a) {
            x.filter(p).push(a)
        } else {
            x.filter(p)
        }),
{
    reveal(Seq::filter);
    assert(x.push(a).drop_last() =~= x);
}

proof fn lemma_take_push(x: Seq<u128>, i: int)
    requires
        0 <= i < x.len(),
    ensures
        x.take(i + 1) == x.take(i).push(x[i]),
{
    assert(x.take(i + 1) =~= x.take(i).push(x[i]));
}

proof fn lemma_live_age_below_window(log: Seq<u128>, now: u128, window: u128)
    ensures
        live_age(log, now, window) == 0 || live_age(log, now, window) < window,
        live(log, now, window).len() > 0 ==> window > 0,
    decreases log.len(),
{
    reveal(Seq::filter);
    if log.len() > 0 {
        lemma_live_age_below_window(log.drop_last(), now, window);
    }
}

proof fn lemma_filter_all(x: Seq<u128>, p: spec_fn(u128) -> bool)
    requires
        forall|i: int| 0 <= i < x.len() ==> p(#[trigger] x[i]),
    ensures
        x.filter(p) == x,
    decreases x.len(),
{
    reveal(Seq::filter);
    if x.len() > 0 {
        lemma_filter_all(x.drop_last(), p);
        assert(x.drop_last().push(x.last()) =~= x);
    }
}

proof fn lemma_filter_none(x: Seq<u128>, p: spec_fn(u128) -> bool)
    requires
        forall|i: int| 0 <= i < x.len() ==> !p(#[trigger] x[i]),
    ensures
        x.filter(p).len() == 0,
    decreases x.len(),
{
    reveal(Seq::filter);
    if x.len() > 0 {
        lemma_filter_none(x.drop_last(), p);
    }
}

proof fn lemma_filter_nested(x: Seq<u128>, p: spec_fn(u128) -> bool, q: spec_fn(u128) -> bool)
    requires
        forall|i: int| 0 <= i < x.len() ==> q(#[trigger] x[i]) ==> p(x[i]),
    ensures
        x.filter(p).filter(q) == x.filter(q),
    decreases x.len(),
{
    reveal(Seq::filter);
    if x.len() > 0 {
        let init = x.drop_last();
        lemma_filter_nested(init, p, q);
        assert(init.push(x.last()) =~= x);
        lemma_filter_push(init, x.last(), p);
        lemma_filter_push(init, x.last(), q);
        lemma_filter_push(init.filter(p), x.last(), q);
    }
}

proof fn lemma_filter_bounded(x: Seq<u128>, p: spec_fn(u128) -> bool, bound: u128)
    requires
        forall|i: int| 0 <= i < x.len() ==> #[trigger] x[i] <= bound,
    ensures
        forall|i: int| 0 <= i < x.filter(p).len() ==> #[trigger] x.filter(p)[i] <= bound,
    decreases x.len(),
{
    reveal(Seq::filter);
    if x.len() > 0 {
        let init = x.drop_last();
        lemma_filter_bounded(init, p, bound);
        assert(x.last() == x[x.len() - 1]);
        assert forall|i: int| 0 <= i < x.filter(p).len() implies #[trigger] x.filter(p)[i]
            <= bound by {
            if p(x.last()) && i == init.filter(p).len() {
                assert(x.filter(p)[i] == x.last());
            } else {
                assert(x.filter(p)[i] == init.filter(p)[i]);
            }
        }
    }
}

/// The limiter's state after deciding the requests `reqs` (each a key and
/// a clock reading) one after the other.
pub open spec fn state_after(s: LimiterState, reqs: Seq<(Seq<char>, u128)>) -> LimiterState
    decreases reqs.len(),
{
    if reqs.len() == 0 {
        s
    } else {
        after_check(state_after(s, reqs.drop_last()), reqs.last().0, reqs.last().1)
    }
}

/// How many of the requests `reqs`, decided one after the other, are
/// requests for `key` with a clock reading in `[lo, hi)` that were allowed.
pub open spec fn allowed_between(
    s: LimiterState,
    reqs: Seq<(Seq<char>, u128)>,
    key: Seq<char>,
    lo: int,
    hi: int,
) -> nat
    decreases reqs.len(),
{
    if reqs.len() == 0 {
        0
    } else {
        let before = reqs.drop_last();
        allowed_between(s, before, key, lo, hi) + if reqs.last().0 == key && lo <= reqs.last().1
            < hi && allows(state_after(s, before), key, reqs.last().1) {
            1nat
        } else {
            0nat
        }
    }
}

/// How many of the requests `reqs` are for `key`.
pub open spec fn count_key(reqs: Seq<(Seq<char>, u128)>, key: Seq<char>) -> nat
    decreases reqs.len(),
{
    if reqs.len() == 0 {
        0
    } else {
        count_key(reqs.drop_last(), key) + if reqs.last().0 == key {
            1nat
        } else {
            0nat
        }
    }
}

/// The clock readings of `reqs` never go back.
pub open spec fn readings_in_order(reqs: Seq<(Seq<char>, u128)>) -> bool {
    forall|i: int, j: int| 0 <= i <= j < reqs.len() ==> #[trigger] reqs[i].1 <= #[trigger] reqs[j].1
}

proof fn lemma_state_after_keeps_settings(s: LimiterState, reqs: Seq<(Seq<char>, u128)>)
    ensures
        state_after(s, reqs).window == s.window,
        state_after(s, reqs).max_requests == s.max_requests,
    decreases reqs.len(),
{
    if reqs.len() > 0 {
        lemma_state_after_keeps_settings(s, reqs.drop_last());
    }
}

proof fn lemma_prefix_step(reqs: Seq<(Seq<char>, u128)>, n: int)
    requires
        0 <= n < reqs.len(),
    ensures
        reqs.take(n + 1).drop_last() == reqs.take(n),
        reqs.take(n + 1).last() == reqs[n],
        reqs.take(n + 1).len() == n + 1,
{
    assert(reqs.take(n + 1).drop_last() =~= reqs.take(n));
}

proof fn lemma_allowed_between_mono(
    s: LimiterState,
    reqs: Seq<(Seq<char>, u128)>,
    key: Seq<char>,
    lo: int,
    hi: int,
    lo2: int,
    hi2: int,
)
    requires
        forall|i: int|
            0 <= i < reqs.len() && #[trigger] reqs[i].0 == key && lo <= reqs[i].1 < hi ==> lo2
                <= reqs[i].1 < hi2,
    ensures
        allowed_between(s, reqs, key, lo, hi) <= allowed_between(s, reqs, key, lo2, hi2),
    decreases reqs.len(),
{
    if reqs.len() > 0 {
        let before = reqs.drop_last();
        assert forall|i: int|
            0 <= i < before.len() && #[trigger] before[i].0 == key && lo <= before[i].1 < hi
                implies lo2 <= before[i].1 < hi2 by {
            assert(before[i] == reqs[i]);
        }
        lemma_allowed_between_mono(s, before, key, lo, hi, lo2, hi2);
        assert(reqs.last() == reqs[reqs.len() - 1]);
    }
}

/// What the sliding-window proof keeps after the first `n` requests: every
/// reading in `key`'s log is at most the latest reading, and at any later
/// reading `tau` the log holds at least as many readings inside the window
/// ending at `tau` as requests for `key` were allowed in that window.
pub open spec fn sliding_invariant(
    s: LimiterState,
    reqs: Seq<(Seq<char>, u128)>,
    key: Seq<char>,
    n: int,
) -> bool {
    &&& log_before_latest(recorded(state_after(s, reqs.take(n)), key), reqs, n)
    &&& log_covers_allowed(s, recorded(state_after(s, reqs.take(n)), key), reqs, key, n)
}

/// Every reading of `log` is at most the latest of the first `n` readings
/// (so `log` is empty when `n` is zero).
pub open spec fn log_before_latest(log: Seq<u128>, reqs: Seq<(Seq<char>, u128)>, n: int) -> bool {
    forall|j: int| #![trigger log[j]] 0 <= j < log.len() ==> (n > 0 && log[j] <= reqs[n - 1].1)
}

/// At any reading `tau` from the latest of the first `n` on, `log` holds at
/// least as many readings inside the window ending at `tau` as requests for
/// `key` among the first `n` were allowed in that window.
pub open spec fn log_covers_allowed(
    s: LimiterState,
    log: Seq<u128>,
    reqs: Seq<(Seq<char>, u128)>,
    key: Seq<char>,
    n: int,
) -> bool {
    forall|tau: u128|
        (n > 0 ==> tau >= reqs[n - 1].1) ==> (#[trigger] live(log, tau, s.window).len()
            >= allowed_between(s, reqs.take(n), key, tau - s.window + 1, tau + 1))
}

proof fn lemma_sliding_step(s: LimiterState, reqs: Seq<(Seq<char>, u128)>, key: Seq<char>, n: int)
    requires
        0 <= n < reqs.len(),
        readings_in_order(reqs),
        sliding_invariant(s, reqs, key, n),
    ensures
        sliding_invariant(s, reqs, key, n + 1),
{
    let p = reqs.take(n);
    let p1 = reqs.take(n + 1);
    lemma_prefix_step(reqs, n);
    let st = state_after(s, p);
    lemma_state_after_keeps_settings(s, p);
    let w = s.window;
    let now = reqs[n].1;
    let k2 = reqs[n].0;
    let log = recorded(st, key);
    assert(state_after(s, p1) == after_check(st, k2, now));
    let log1 = recorded(state_after(s, p1), key);
    assert(log_before_latest(log, reqs, n));
    assert forall|j: int| 0 <= j < log.len() implies #[trigger] log[j] <= now by {
        assert(log_before_latest(log, reqs, n));
        let v = log[j];
        assert(n > 0);
        assert(v <= reqs[n - 1].1);
        assert(reqs[n - 1].1 <= reqs[n].1);
    }
    if k2 != key {
        assert(log1 == log);
        assert forall|j: int| 0 <= j < log1.len() implies n + 1 > 0 && #[trigger] log1[j]
            <= reqs[n].1 by {
            assert(log[j] <= now);
        }
        assert forall|tau: u128| (n + 1 > 0 ==> tau >= reqs[n].1) implies #[trigger] live(
            log1,
            tau,
            s.window,
        ).len() >= allowed_between(s, p1, key, tau - s.window + 1, tau + 1) by {
            if n > 0 {
                assert(reqs[n - 1].1 <= reqs[n].1);
            }
        }
    } else {
        let kept = live(log, now, w);
        lemma_filter_bounded(log, in_window(now, w), now);
        assert(log1 == if allows(st, key, now) {
            kept.push(now)
        } else {
            kept
        });
        assert forall|j: int| 0 <= j < log1.len() implies n + 1 > 0 && #[trigger] log1[j]
            <= reqs[n].1 by {
            if j < kept.len() {
                assert(kept[j] <= now);
            }
        }
        assert forall|tau: u128| (n + 1 > 0 ==> tau >= reqs[n].1) implies #[trigger] live(
            log1,
            tau,
            s.window,
        ).len() >= allowed_between(s, p1, key, tau - s.window + 1, tau + 1) by {
            lemma_filter_push(kept, now, in_window(tau, w));
            assert forall|i: int| 0 <= i < log.len() implies #[trigger] in_window(tau, w)(log[i])
                ==> in_window(now, w)(log[i]) by {
                assert(log[i] <= now);
            }
            lemma_filter_nested(log, in_window(now, w), in_window(tau, w));
            if n > 0 {
                assert(reqs[n - 1].1 <= reqs[n].1);
            }
            assert(live(log, tau, s.window).len() >= allowed_between(
                s,
                p,
                key,
                tau - s.window + 1,
                tau + 1,
            ));
        }
    }
}

proof fn lemma_sliding_prefix(
    s: LimiterState,
    reqs: Seq<(Seq<char>, u128)>,
    key: Seq<char>,
    lo: int,
    n: int,
)
    requires
        0 <= n <= reqs.len(),
        readings_in_order(reqs),
        recorded(s, key).len() == 0,
    ensures
        sliding_invariant(s, reqs, key, n),
        allowed_between(s, reqs.take(n), key, lo, lo + s.window) <= s.max_requests,
    decreases n,
{
    if n == 0 {
        reveal(Seq::filter);
        assert(reqs.take(0) =~= Seq::<(Seq<char>, u128)>::empty());
        assert forall|tau: u128| (n > 0 ==> tau >= reqs[n - 1].1) implies #[trigger] live(
            recorded(state_after(s, reqs.take(n)), key),
            tau,
            s.window,
        ).len() >= allowed_between(s, reqs.take(n), key, tau - s.window + 1, tau + 1) by {
            assert(recorded(s, key) =~= Seq::<u128>::empty());
        }
    } else {
        lemma_sliding_prefix(s, reqs, key, lo, n - 1);
        lemma_sliding_step(s, reqs, key, n - 1);
        let p = reqs.take(n - 1);
        lemma_prefix_step(reqs, n - 1);
        lemma_state_after_keeps_settings(s, p);
        let now = reqs[n - 1].1;
        let w = s.window;
        if reqs[n - 1].0 == key && lo <= now < lo + w && allows(state_after(s, p), key, now) {
            let log = recorded(state_after(s, p), key);
            if n - 1 > 0 {
                assert(reqs[n - 2].1 <= reqs[n - 1].1);
            }
            assert(live(log, now, s.window).len() >= allowed_between(
                s,
                p,
                key,
                now - s.window + 1,
                now + 1,
            ));
            assert forall|i: int|
                0 <= i < p.len() && #[trigger] p[i].0 == key && lo <= p[i].1 < lo + w implies now
                - w + 1 <= p[i].1 < now + 1 by {
                assert(p[i] == reqs[i]);
                assert(reqs[i].1 <= reqs[n - 1].1);
            }
            lemma_allowed_between_mono(s, p, key, lo, lo + w, now - w + 1, now + 1);
        }
    }
}

/// The sliding window: starting from a key with nothing recorded, and
/// deciding requests (for any keys) whose clock readings never go back, no
/// span of one window length `[lo, lo + window)` holds more than
/// `max_requests` allowed requests for the key.
pub proof fn lemma_sliding_window_bound(
    s: LimiterState,
    reqs: Seq<(Seq<char>, u128)>,
    key: Seq<char>,
    lo: int,
)
    requires
        recorded(s, key).len() == 0,
        readings_in_order(reqs),
    ensures
        allowed_between(s, reqs, key, lo, lo + s.window) <= s.max_requests,
{
    lemma_sliding_prefix(s, reqs, key, lo, reqs.len() as int);
    assert(reqs.take(reqs.len() as int) =~= reqs);
}

/// What the burst proof keeps after the first `n` requests: `key`'s log
/// holds one reading per allowed request for `key` so far, which is the
/// smaller of the number of requests for `key` and `max_requests`, and each
/// reading lies within a window before every later request for `key`.
pub open spec fn burst_invariant(
    s: LimiterState,
    reqs: Seq<(Seq<char>, u128)>,
    key: Seq<char>,
    n: int,
) -> bool {
    let log = recorded(state_after(s, reqs.take(n)), key);
    let c = count_key(reqs.take(n), key);
    &&& log.len() == if c < s.max_requests {
        c
    } else {
        s.max_requests as nat
    }
    &&& forall|x: int, j: int|
        0 <= x < log.len() && n <= j < reqs.len() && #[trigger] reqs[j].0 == key ==> #[trigger] log[x]
            <= reqs[j].1 && reqs[j].1 - log[x] < s.window
}

/// The readings of requests for `key` lie less than a window apart.
pub open spec fn within_one_window(reqs: Seq<(Seq<char>, u128)>, key: Seq<char>, window: u128) -> bool {
    forall|i: int, j: int|
        0 <= i <= j < reqs.len() && #[trigger] reqs[i].0 == key && #[trigger] reqs[j].0 == key
            ==> reqs[j].1 - reqs[i].1 < window
}

proof fn lemma_burst_prefix(s: LimiterState, reqs: Seq<(Seq<char>, u128)>, key: Seq<char>, n: int)
    requires
        0 <= n <= reqs.len(),
        readings_in_order(reqs),
        within_one_window(reqs, key, s.window),
        recorded(s, key).len() == 0,
    ensures
        burst_invariant(s, reqs, key, n),
    decreases n,
{
    if n == 0 {
        assert(reqs.take(0) =~= Seq::<(Seq<char>, u128)>::empty());
    } else {
        let m = n - 1;
        lemma_burst_prefix(s, reqs, key, m);
        let p = reqs.take(m);
        lemma_prefix_step(reqs, m);
        let st = state_after(s, p);
        lemma_state_after_keeps_settings(s, p);
        let w = s.window;
        let now = reqs[m].1;
        let log = recorded(st, key);
        assert(state_after(s, reqs.take(n)) == after_check(st, reqs[m].0, now));
        let log1 = recorded(state_after(s, reqs.take(n)), key);
        if reqs[m].0 != key {
            assert(log1 == log);
        } else {
            assert forall|i: int| 0 <= i < log.len() implies #[trigger] in_window(now, w)(
                log[i],
            ) by {
                assert(log[i] <= reqs[m].1 && reqs[m].1 - log[i] < w);
            }
            lemma_filter_all(log, in_window(now, w));
            assert forall|x: int, j: int|
                0 <= x < log1.len() && n <= j < reqs.len() && #[trigger] reqs[j].0 == key
                    implies #[trigger] log1[x] <= reqs[j].1 && reqs[j].1 - log1[x] < s.window by {
                assert(reqs[m].1 <= reqs[j].1);
                if x < log.len() {
                    assert(log1[x] == log[x]);
                } else {
                    assert(log1[x] == now);
                }
            }
        }
    }
}

/// Within one window the first `max_requests` requests for a key are
/// allowed and every later one is rejected, whatever requests for other keys
/// come in between: starting from a key with nothing recorded, deciding
/// requests whose clock readings never go back and whose readings for the
/// key lie less than a window apart allows a request for the key exactly
/// when fewer than `max_requests` requests for it came before.
pub proof fn lemma_window_allows_first_max_requests(
    s: LimiterState,
    reqs: Seq<(Seq<char>, u128)>,
    key: Seq<char>,
)
    requires
        recorded(s, key).len() == 0,
        readings_in_order(reqs),
        within_one_window(reqs, key, s.window),
    ensures
        forall|n: int|
            0 <= n < reqs.len() && #[trigger] reqs[n].0 == key ==> allows(
                state_after(s, reqs.take(n)),
                key,
                reqs[n].1,
            ) == (count_key(reqs.take(n), key) < s.max_requests),
{
    assert forall|n: int| 0 <= n < reqs.len() && #[trigger] reqs[n].0 == key implies allows(
        state_after(s, reqs.take(n)),
        key,
        reqs[n].1,
    ) == (count_key(reqs.take(n), key) < s.max_requests) by {
        lemma_burst_prefix(s, reqs, key, n);
        let st = state_after(s, reqs.take(n));
        lemma_state_after_keeps_settings(s, reqs.take(n));
        let log = recorded(st, key);
        assert forall|i: int| 0 <= i < log.len() implies #[trigger] in_window(
            reqs[n].1,
            s.window,
        )(log[i]) by {
            assert(log[i] <= reqs[n].1 && reqs[n].1 - log[i] < s.window);
        }
        lemma_filter_all(log, in_window(reqs[n].1, s.window));
    }
}

/// Keys are independent: deciding a request for one key changes neither
/// the log, nor the verdict, nor the retry delay of any other.
pub proof fn lemma_keys_are_independent(
    s: LimiterState,
    key: Seq<char>,
    other: Seq<char>,
    now: u128,
    later: u128,
)
    requires
        key != other,
    ensures
        recorded(after_check(s, key, now), other) == recorded(s, other),
        allows(after_check(s, key, now), other, later) == allows(s, other, later),
        retry_after(after_check(s, key, now), other, later) == retry_after(s, other, later),
{
}

/// Once every recorded request for a key is a full window old, the key
/// starts over: the next request is allowed whenever the limit is at least
/// one, and then the log holds only its reading.
pub proof fn lemma_quiet_key_starts_over(s: LimiterState, key: Seq<char>, now: u128)
    requires
        forall|j: int|
            0 <= j < recorded(s, key).len() ==> elapsed(#[trigger] recorded(s, key)[j], now)
                >= s.window,
    ensures
        live_requests(s, key, now).len() == 0,
        allows(s, key, now) == (s.max_requests >= 1),
        recorded(after_check(s, key, now), key) == if s.max_requests >= 1 {
            seq![now]
        } else {
            Seq::<u128>::empty()
        },
{
    lemma_filter_none(recorded(s, key), in_window(now, s.window));
    assert(live_requests(s, key, now) =~= Seq::<u128>::empty());
    assert(Seq::<u128>::empty().push(now) =~= seq![now]);
}

/// The retry delay is at least one second and, when the window lasts a
/// second or more, no longer than the window in whole seconds.
pub proof fn lemma_retry_after_bounds(s: LimiterState, key: Seq<char>, now: u128)
    ensures
        retry_after(s, key, now) >= 1,
        s.window >= NANOS_PER_SEC ==> retry_after(s, key, now) as int * NANOS_PER_SEC <= s.window,
{
    lemma_live_age_below_window(recorded(s, key), now, s.window);
    if live_requests(s, key, now).len() > 0 {
        let x: int = s.window - live_age(recorded(s, key), now, s.window);
        let d: int = NANOS_PER_SEC as int;
        assert(0 < x <= s.window);
        assert((x / d) * d <= x) by (nonlinear_arith)
            requires
                0 < x,
                d == 1_000_000_000,
        ;
        assert(x / d >= 0) by (nonlinear_arith)
            requires
                0 < x,
                d == 1_000_000_000,
        ;
        let secs: u64 = if x / d > u64::MAX {
            u64::MAX
        } else {
            (x / d) as u64
        };
        assert(secs <= x / d);
        if secs >= 1 {
            assert(secs as int * d <= (x / d) * d) by (nonlinear_arith)
                requires
                    secs as int <= x / d,
                    d == 1_000_000_000,
            ;
        }
        if s.window >= NANOS_PER_SEC && secs < 1 {
            assert(1 * d <= s.window);
        }
    }
}

proof fn lemma_live_age_covers(log: Seq<u128>, now: u128, window: u128)
    ensures
        forall|j: int|
            0 <= j < log.len() && elapsed(#[trigger] log[j], now) < window ==> elapsed(log[j], now)
                <= live_age(log, now, window),
    decreases log.len(),
{
    if log.len() > 0 {
        let init = log.drop_last();
        lemma_live_age_covers(init, now, window);
        assert forall|j: int|
            0 <= j < log.len() && elapsed(#[trigger] log[j], now) < window implies elapsed(
            log[j],
            now,
        ) <= live_age(log, now, window) by {
            if j < log.len() - 1 {
                assert(log[j] == init[j]);
            }
        }
    }
}

/// While the retry delay `d` runs, nothing leaves the window: when `d` is
/// more than one second, at every reading less than `d` whole seconds after
/// `now` each request for `key` counted at `now` still lies inside the
/// window, so at least as many are counted there.
pub proof fn lemma_retry_after_keeps_window(s: LimiterState, key: Seq<char>, now: u128, later: u128)
    requires
        retry_after(s, key, now) > 1,
        now <= later,
        later - now < retry_after(s, key, now) as int * NANOS_PER_SEC,
    ensures
        forall|j: int|
            0 <= j < live_requests(s, key, now).len() ==> elapsed(
                #[trigger] live_requests(s, key, now)[j],
                later,
            ) < s.window,
        live_requests(s, key, now).len() <= live_requests(s, key, later).len(),
{
    let log = recorded(s, key);
    let w = s.window;
    let d = retry_after(s, key, now);
    assert(live_requests(s, key, now).len() > 0);
    let age = live_age(log, now, w);
    lemma_live_age_covers(log, now, w);
    lemma_live_age_below_window(log, now, w);
    let x: int = w - age;
    let n: int = NANOS_PER_SEC as int;
    assert(d as int <= x / n);
    assert(d as int * n <= x) by (nonlinear_arith)
        requires
            d as int <= x / n,
            n == 1_000_000_000,
            x >= 0,
    ;
    assert forall|i: int|
        0 <= i < log.len() && #[trigger] in_window(now, w)(log[i]) implies in_window(later, w)(
        log[i],
    ) by {
        assert(elapsed(log[i], now) <= age);
    }
    let live_now = live_requests(s, key, now);
    assert forall|j: int| 0 <= j < live_now.len() implies elapsed(#[trigger] live_now[j], later)
        < w by {
        let t = live_now[j];
        log.lemma_filter_pred(in_window(now, w), j);
        assert(live_now.contains(t));
        log.lemma_filter_contains_rev(in_window(now, w), t);
        let i = choose|i: int| 0 <= i < log.len() && log[i] == t;
        assert(in_window(later, w)(log[i]));
    }
    lemma_filter_nested(log, in_window(later, w), in_window(now, w));
    log.filter(in_window(later, w)).lemma_filter_len(in_window(now, w));
}

/// The retry delay of a rejection is no longer than needed: after a request
/// for `key` is rejected at `now` with a delay of `d` seconds, `d` more than
/// one, every request allowed earlier that still counts at `now` still lies
/// inside the window at any reading less than `d` whole seconds later, so a
/// request for `key` there, with nothing decided in between, is rejected
/// too. (The delay counts down to when the oldest of them leaves the
/// window.)
pub proof fn lemma_retry_after_not_too_long(s: LimiterState, key: Seq<char>, now: u128, later: u128)
    requires
        !allows(s, key, now),
        retry_after(after_check(s, key, now), key, now) > 1,
        now <= later,
        later - now < retry_after(after_check(s, key, now), key, now) as int * NANOS_PER_SEC,
    ensures
        recorded(after_check(s, key, now), key).len() >= s.max_requests,
        forall|j: int|
            0 <= j < recorded(after_check(s, key, now), key).len() ==> elapsed(
                #[trigger] recorded(after_check(s, key, now), key)[j],
                later,
            ) < s.window,
        !allows(after_check(s, key, now), key, later),
{
    let s2 = after_check(s, key, now);
    let kept = live_requests(s, key, now);
    let w = s.window;
    assert(recorded(s2, key) == kept);
    assert forall|j: int| 0 <= j < kept.len() implies #[trigger] in_window(now, w)(kept[j]) by {
        recorded(s, key).lemma_filter_pred(in_window(now, w), j);
    }
    lemma_filter_all(kept, in_window(now, w));
    assert(live_requests(s2, key, now) == kept);
    let d = retry_after(s2, key, now);
    assert(kept.len() > 0);
    let age = live_age(kept, now, w);
    lemma_live_age_covers(kept, now, w);
    lemma_live_age_below_window(kept, now, w);
    let x: int = w - age;
    let n: int = NANOS_PER_SEC as int;
    assert(d as int <= x / n);
    assert(d as int * n <= x) by (nonlinear_arith)
        requires
            d as int <= x / n,
            n == 1_000_000_000,
            x >= 0,
    ;
    assert forall|j: int| 0 <= j < kept.len() implies #[trigger] in_window(later, w)(kept[j]) by {
        assert(in_window(now, w)(kept[j]));
        assert(elapsed(kept[j], now) <= age);
    }
    lemma_filter_all(kept, in_window(later, w));
    assert(live_requests(s2, key, later) == kept);
}

/// Shared state of the rate limiter.
pub struct RateLimiter {
    config: RateLimitConfig,
    logs: DashMap<String, Vec<u128>>,
    clock: Instant,
    latest: u128,
}

impl View for RateLimiter {
    type V = LimiterState;

    closed spec fn view(&self) -> LimiterState {
        LimiterState {
            max_requests: self.config.max_requests,
            window: self.config.window_nanos,
            logs: request_logs(self.logs),
        }
    }
}

impl RateLimiter {
    /// The settings the limiter was built with.
    pub closed spec fn config_spec(&self) -> RateLimitConfig {
        self.config
    }

    /// The latest clock reading the limiter has decided a request at.
    /// Readings never go back: each one is at least the one before.
    pub closed spec fn latest(&self) -> u128 {
        self.latest
    }

    /// Reads the clock, never going back behind the latest reading.
    fn read_clock(&mut self) -> (now: u128)
        ensures
            now >= old(self).latest,
            final(self).latest == now,
            final(self).logs == old(self).logs,
            final(self).config == old(self).config,
    {
        let t = clock_now(&self.clock);
        let now = if t >= self.latest {
            t
        } else {
            self.latest
        };
        self.latest = now;
        now
    }

    /// Reads the clock without recording the reading, never going back
    /// behind the latest one.
    fn peek_clock(&self) -> (now: u128)
        ensures
            now >= self.latest,
    {
        let t = clock_now(&self.clock);
        if t >= self.latest {
            t
        } else {
            self.latest
        }
    }

    /// A limiter with no requests recorded yet. Its clock starts now.
    pub fn new(config: RateLimitConfig) -> (r: Self)
        ensures
            r.config_spec() == config,
            r.latest() == 0,
            r@.max_requests == config.max_requests,
            r@.window == config.window_nanos,
            r@.logs.dom() == Set::<Seq<char>>::empty(),
    {
        let logs = log_store_new();
        let clock = clock_start();
        RateLimiter { config, logs, clock, latest: 0 }
    }

    /// The readings recorded for `key`, as stored.
    fn recorded_log(&self, key: &str) -> (r: Vec<u128>)
        ensures
            r@ == recorded(self@, key@),
    {
        match log_store_get(&self.logs, key) {
            Some(v) => v,
            None => Vec::new(),
        }
    }

    /// Decides a request for `key` at clock reading `now`: it is allowed when
    /// fewer than `max_requests` requests for `key` were allowed in the window
    /// that ends at `now`. Only `key`'s log changes.
    pub fn check_at(&mut self, key: &str, now: u128) -> (r: bool)
        ensures
            final(self).config_spec() == old(self).config_spec(),
            final(self).latest() == old(self).latest(),
            r == allows(old(self)@, key@, now),
            final(self)@ == after_check(old(self)@, key@, now),
    {
        let log = self.recorded_log(key);
        let mut kept: Vec<u128> = Vec::new();
        let mut i: usize = 0;
        while i < log.len()
            invariant
                i <= log@.len(),
                kept@ == live(log@.take(i as int), now, self.config.window_nanos),
            decreases log@.len() - i,
        {
            let t = log[i];
            let age = if now >= t {
                now - t
            } else {
                0
            };
            proof {
                lemma_take_push(log@, i as int);
                lemma_filter_push(log@.take(i as int), t, in_window(now, self.config.window_nanos));
            }
            if age < self.config.window_nanos {
                kept.push(t);
            }
            i = i + 1;
        }
        proof {
            assert(log@.take(log@.len() as int) =~= log@);
        }
        let allowed = (kept.len() as u64) < (self.config.max_requests as u64);
        if allowed {
            kept.push(now);
        }
        log_store_insert(&mut self.logs, key.to_owned(), kept);
        allowed
    }

    /// The number of readings recorded for `key`.
    pub fn recorded_requests(&self, key: &str) -> (r: usize)
        ensures
            r == recorded(self@, key@).len(),
    {
        self.recorded_log(key).len()
    }

    /// Decides a request for `key` now: the result and new state are those of
    /// `check_at` at a clock reading no earlier than the latest one, which
    /// becomes the latest.
    pub fn check(&mut self, key: &str) -> (r: bool)
        ensures
            final(self).config_spec() == old(self).config_spec(),
            exists|now: u128|
                {
                    &&& now >= old(self).latest()
                    &&& final(self).latest() == now
                    &&& r == allows(old(self)@, key@, now)
                    &&& final(self)@ == after_check(old(self)@, key@, now)
                },
    {
        let now = self.read_clock();
        assert(self@ == old(self)@);
        let r = self.check_at(key, now);
        assert(r == allows(old(self)@, key@, now));
        r
    }

    /// Whole seconds, at least one, until a place frees up in `key`'s window
    /// at clock reading `now`.
    pub fn retry_after_secs_at(&self, key: &str, now: u128) -> (r: u64)
        ensures
            r == retry_after(self@, key@, now),
            r >= 1,
            r > 1 ==> forall|later: u128|
                now <= later && later - now < r as int * NANOS_PER_SEC ==> live_requests(
                    self@,
                    key@,
                    now,
                ).len() <= #[trigger] live_requests(self@, key@, later).len(),
    {
        let log = self.recorded_log(key);
        let mut count: usize = 0;
        let mut age: u128 = 0;
        let mut i: usize = 0;
        while i < log.len()
            invariant
                i <= log@.len(),
                count == live(log@.take(i as int), now, self.config.window_nanos).len(),
                age == live_age(log@.take(i as int), now, self.config.window_nanos),
            decreases log@.len() - i,
        {
            let t = log[i];
            let a = if now >= t {
                now - t
            } else {
                0
            };
            proof {
                lemma_take_push(log@, i as int);
                lemma_filter_push(log@.take(i as int), t, in_window(now, self.config.window_nanos));
                assert(log@.take(i + 1).drop_last() =~= log@.take(i as int));
                log@.take(i as int).lemma_filter_len(in_window(now, self.config.window_nanos));
            }
            if a < self.config.window_nanos {
                count = count + 1;
                if a > age {
                    age = a;
                }
            }
            i = i + 1;
        }
        proof {
            assert(log@.take(log@.len() as int) =~= log@);
            lemma_live_age_below_window(log@, now, self.config.window_nanos);
        }
        proof {
            assert forall|later: u128|
                retry_after(self@, key@, now) > 1 && now <= later && later - now < retry_after(
                    self@,
                    key@,
                    now,
                ) as int * NANOS_PER_SEC implies live_requests(self@, key@, now).len()
                <= #[trigger] live_requests(self@, key@, later).len() by {
                lemma_retry_after_keeps_window(self@, key@, now, later);
            }
        }
        if count > 0 {
            let whole = (self.config.window_nanos - age) / NANOS_PER_SEC;
            let secs: u64 = if whole > u64::MAX as u128 {
                u64::MAX
            } else {
                whole as u64
            };
            if secs >= 1 {
                secs
            } else {
                1
            }
        } else {
            1
        }
    }

    /// Whole seconds, at least one, until a place frees up in `key`'s window
    /// now (at a clock reading no earlier than the latest one).
    pub fn retry_after_secs(&self, key: &str) -> (r: u64)
        ensures
            exists|now: u128|
                {
                    &&& now >= self.latest()
                    &&& r == retry_after(self@, key@, now)
                    &&& r > 1 ==> forall|later: u128|
                        now <= later && later - now < r as int * NANOS_PER_SEC ==> live_requests(
                            self@,
                            key@,
                            now,
                        ).len() <= #[trigger] live_requests(self@, key@, later).len()
                },
            r >= 1,
    {
        let now = self.peek_clock();
        let r = self.retry_after_secs_at(key, now);
        assert(now >= self.latest() && r == retry_after(self@, key@, now));
        r
    }
}

/// The JSON body of a rejected request.
pub struct RateLimitError {
    pub error: &'static str,
    pub message: String,
    pub retry_after_secs: u64,
}

/// What the middleware does with a request.
pub enum RateLimitDecision {
    /// Pass the request on.
    Allow,
    /// Answer HTTP 429 with this body and a `Retry-After` header of its
    /// `retry_after_secs`.
    Reject(RateLimitError),
}

/// The HTTP status of a rejected request.
pub const TOO_MANY_REQUESTS: u16 = 429;

/// The message of a rejection that asks to retry after `secs` seconds.
pub open spec fn rejection_message(secs: u64) -> Seq<char> {
    "Too many requests. Retry after "@ + decimal(secs as nat) + " second(s)."@
}

/// The body of a rejection that asks to retry after `secs` seconds.
pub open spec fn is_rejection(e: RateLimitError, secs: u64) -> bool {
    &&& e.error@ == "rate_limit_exceeded"@
    &&& e.message@ == rejection_message(secs)
    &&& e.retry_after_secs == secs
}

/// Builds the body of a rejection that asks to retry after `secs` seconds.
pub fn rejection(secs: u64) -> (r: RateLimitError)
    ensures
        is_rejection(r, secs),
{
    proof {
        reveal_strlit("rate_limit_exceeded");
    }
    let mut message = String::new();
    message.append("Too many requests. Retry after ");
    let digits = u64_to_decimal(secs);
    message.append(digits.as_str());
    message.append(" second(s).");
    RateLimitError { error: "rate_limit_exceeded", message, retry_after_secs: secs }
}

/// The key a request is counted under: its API key when it has one, and
/// otherwise the caller's address.
pub open spec fn limit_key(api_key: Option<Seq<char>>, remote_ip: Seq<char>) -> Seq<char> {
    match api_key {
        Some(k) => k,
        None => remote_ip,
    }
}

/// The key a request is counted under.
pub fn rate_limit_key(api_key: Option<&str>, remote_ip: &str) -> (r: String)
    ensures
        r@ == limit_key(setting_view(api_key), remote_ip@),
{
    match api_key {
        Some(k) => k.to_owned(),
        None => remote_ip.to_owned(),
    }
}

/// Decides a request at clock reading `now` under its key: an allowed
/// request passes, a rejected one gets a rejection whose delay is read from
/// the limiter after the decision.
pub fn decide_at(limiter: &mut RateLimiter, api_key: Option<&str>, remote_ip: &str, now: u128) -> (r:
    RateLimitDecision)
    ensures
        final(limiter).config_spec() == old(limiter).config_spec(),
        final(limiter).latest() == old(limiter).latest(),
        final(limiter)@ == after_check(
            old(limiter)@,
            limit_key(setting_view(api_key), remote_ip@),
            now,
        ),
        match r {
            RateLimitDecision::Allow => allows(
                old(limiter)@,
                limit_key(setting_view(api_key), remote_ip@),
                now,
            ),
            RateLimitDecision::Reject(e) => !allows(
                old(limiter)@,
                limit_key(setting_view(api_key), remote_ip@),
                now,
            ) && is_rejection(
                e,
                retry_after(final(limiter)@, limit_key(setting_view(api_key), remote_ip@), now),
            ) && (e.retry_after_secs > 1 ==> forall|later: u128|
                now <= later && later - now < e.retry_after_secs as int * NANOS_PER_SEC ==> !allows(
                    final(limiter)@,
                    limit_key(setting_view(api_key), remote_ip@),
                    later,
                )),
        },
{
    let key = rate_limit_key(api_key, remote_ip);
    let ghost before = limiter@;
    if limiter.check_at(key.as_str(), now) {
        RateLimitDecision::Allow
    } else {
        let secs = limiter.retry_after_secs_at(key.as_str(), now);
        proof {
            assert forall|later: u128|
                secs > 1 && now <= later && later - now < secs as int * NANOS_PER_SEC implies !allows(
                limiter@,
                key@,
                later,
            ) by {
                lemma_retry_after_not_too_long(before, key@, now, later);
            }
        }
        RateLimitDecision::Reject(rejection(secs))
    }
}

/// Decides a request now: the request is decided at one clock reading (no
/// earlier than the latest one, and then the latest) and a rejection's delay
/// read at another no earlier than that.
pub fn decide(limiter: &mut RateLimiter, api_key: Option<&str>, remote_ip: &str) -> (r:
    RateLimitDecision)
    ensures
        final(limiter).config_spec() == old(limiter).config_spec(),
        exists|now: u128|
            {
                &&& now >= old(limiter).latest()
                &&& final(limiter).latest() == now
                &&& final(limiter)@ == after_check(
                    old(limiter)@,
                    limit_key(setting_view(api_key), remote_ip@),
                    now,
                )
                &&& match r {
                    RateLimitDecision::Allow => allows(
                        old(limiter)@,
                        limit_key(setting_view(api_key), remote_ip@),
                        now,
                    ),
                    RateLimitDecision::Reject(e) => !allows(
                        old(limiter)@,
                        limit_key(setting_view(api_key), remote_ip@),
                        now,
                    ) && exists|later: u128|
                        later >= now && is_rejection(
                            e,
                            retry_after(
                                final(limiter)@,
                                limit_key(setting_view(api_key), remote_ip@),
                                later,
                            ),
                        ),
                }
            },
{
    let key = rate_limit_key(api_key, remote_ip);
    if limiter.check(key.as_str()) {
        RateLimitDecision::Allow
    } else {
        let secs = limiter.retry_after_secs(key.as_str());
        RateLimitDecision::Reject(rejection(secs))
    }
}

} // verus!
