//! Verified core of the router metrics exporter: request validation, the
//! TTL response cache, the per-key sliding-window rate limiter, and the
//! reply decisions of the HTTP endpoints.

use dashmap::DashMap;
use vstd::prelude::*;

pub mod cache;
pub mod clock;
pub mod logging;
pub mod rate_limit;
pub mod server;
pub mod text;
pub mod validation;

verus! {

#[verifier::external_type_specification]
#[verifier::external_body]
#[verifier::reject_recursive_types(K)]
#[verifier::reject_recursive_types(V)]
#[verifier::reject_recursive_types(S)]
pub struct ExDashMap<K, V, S>(DashMap<K, V, S>);

} // verus!
