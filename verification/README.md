# router_metrics

The verified core of an off-chain Prometheus metrics exporter for a suite of
router contracts, written in Verus.

- `src/` is the library, checked by Verus:
  - `validation`: contract-ID, route-name and scrape-interval rules;
  - `cache`: the TTL response cache over a `DashMap`;
  - `rate_limit`: the per-key sliding-window limiter over a `DashMap`, and the
    decision the HTTP middleware takes for each request;
  - `server`: the replies of `/metrics`, `/health` and `/ready`;
  - `logging`: request identifiers (UUID v4);
  - `clock`, `text`: clock readings in nanoseconds, decimal text.
- `app/` is the program around it: argument and environment reading, the
  JSON log subscriber, the axum router and middleware, and the readiness
  probe's floating-point gauge comparison.
- `tests/` exercise the library with the real outside crates linked.

Time-dependent operations come in two forms: `get`, `check`, ... read the
clock, and `get_at`, `check_at`, ... take the clock reading as an argument and
have exact contracts.
