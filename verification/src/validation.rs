//! Validation of incoming query parameters.
//!
//! Each validator returns `Ok(())` exactly when its input satisfies the rule
//! and otherwise a [`ValidationError`] whose message is one fixed sentence per
//! violated rule; no message echoes the rejected input.

use vstd::prelude::*;
use vstd::string::StrSliceExecFns;

verus! {

/// The `error` field carried by every validation failure.
pub open spec fn validation_error_tag() -> Seq<char> {
    "validation_error"@
}

/// A structured validation error, returned to clients as JSON.
pub struct ValidationError {
    pub error: &'static str,
    pub message: String,
}

impl ValidationError {
    /// Builds a validation error with the given message.
    pub fn new(message: &str) -> (r: Self)
        ensures
            r.error@ == validation_error_tag(),
            r.message@ == message@,
    {
        proof {
            reveal_strlit("validation_error");
        }
        ValidationError { error: "validation_error", message: message.to_owned() }
    }
}

/// An ASCII letter or digit.
pub open spec fn is_ascii_alnum(c: char) -> bool {
    ||| ('0' <= c && c <= '9')
    ||| ('a' <= c && c <= 'z')
    ||| ('A' <= c && c <= 'Z')
}

/// A character allowed in a route name.
pub open spec fn is_route_name_char(c: char) -> bool {
    is_ascii_alnum(c) || c == '_' || c == '-'
}

pub open spec fn all_ascii_alnum(s: Seq<char>) -> bool {
    forall|i: int| 0 <= i < s.len() ==> is_ascii_alnum(#[trigger] s[i])
}

pub open spec fn all_route_name_chars(s: Seq<char>) -> bool {
    forall|i: int| 0 <= i < s.len() ==> is_route_name_char(#[trigger] s[i])
}

/// Length in bytes of a contract ID.
pub const CONTRACT_ID_BYTES: usize = 56;

/// Largest route name length in bytes.
pub const ROUTE_NAME_MAX_BYTES: usize = 64;

/// Largest scrape interval in seconds.
pub const SCRAPE_INTERVAL_MAX_SECS: u64 = 3600;

/// The message of the first contract-ID rule that `id` breaks, if any.
/// Lengths are counted in UTF-8 bytes.
pub open spec fn contract_id_violation(id: &str) -> Option<Seq<char>> {
    if id@.len() == 0 {
        Some("contract_id must not be empty"@)
    } else if id.len() != CONTRACT_ID_BYTES {
        Some("contract_id must be exactly 56 characters"@)
    } else if !all_ascii_alnum(id@) {
        Some("contract_id must contain only alphanumeric characters"@)
    } else {
        None
    }
}

/// The message of the first route-name rule that `name` breaks, if any.
/// Lengths are counted in UTF-8 bytes.
pub open spec fn route_name_violation(name: &str) -> Option<Seq<char>> {
    if name@.len() == 0 {
        Some("route name must not be empty"@)
    } else if name.len() > ROUTE_NAME_MAX_BYTES {
        Some("route name must be 64 characters or fewer"@)
    } else if !all_route_name_chars(name@) {
        Some(
            "route name must contain only alphanumeric characters, underscores, or hyphens"@,
        )
    } else {
        None
    }
}

/// The message of the scrape-interval rule that `secs` breaks, if any.
pub open spec fn scrape_interval_violation(secs: u64) -> Option<Seq<char>> {
    if secs == 0 {
        Some("scrape_interval_secs must be greater than 0"@)
    } else if secs > SCRAPE_INTERVAL_MAX_SECS {
        Some("scrape_interval_secs must not exceed 3600"@)
    } else {
        None
    }
}

/// Relates a validator's result to the rule it checks: `Ok` exactly when no
/// rule is broken, and otherwise a validation error carrying the message of
/// the first broken rule.
pub open spec fn verdict_matches(r: Result<(), ValidationError>, violation: Option<Seq<char>>) -> bool {
    match r {
        Ok(()) => violation is None,
        Err(e) => violation == Some(e.message@) && e.error@ == validation_error_tag(),
    }
}

/// No message echoes the rejected input: each validator's message is one of
/// its fixed sentences.
pub proof fn lemma_messages_are_fixed(id: &str, name: &str, secs: u64)
    ensures
        contract_id_violation(id) matches Some(m) ==> m == "contract_id must not be empty"@ || m
            == "contract_id must be exactly 56 characters"@ || m
            == "contract_id must contain only alphanumeric characters"@,
        route_name_violation(name) matches Some(m) ==> m == "route name must not be empty"@ || m
            == "route name must be 64 characters or fewer"@ || m
            == "route name must contain only alphanumeric characters, underscores, or hyphens"@,
        scrape_interval_violation(secs) matches Some(m) ==> m
            == "scrape_interval_secs must be greater than 0"@ || m
            == "scrape_interval_secs must not exceed 3600"@,
{
}

/// A route name passes exactly when it is non-empty, at most 64 bytes long,
/// and made only of the digits `0`-`9`, the letters `a`-`z` and `A`-`Z`,
/// underscores and hyphens.
pub proof fn lemma_route_name_rule(name: &str)
    ensures
        route_name_violation(name) is None <==> {
            &&& name@.len() != 0
            &&& name.len() <= 64
            &&& forall|i: int|
                0 <= i < name@.len() ==> {
                    let c = #[trigger] name@[i];
                    ||| '0' <= c <= '9'
                    ||| 'a' <= c <= 'z'
                    ||| 'A' <= c <= 'Z'
                    ||| c == '_'
                    ||| c == '-'
                }
        },
{
}

/// A contract ID passes exactly when it is 56 bytes long and made only of
/// the digits `0`-`9` and the letters `a`-`z` and `A`-`Z` (so it is not
/// empty either).
pub proof fn lemma_contract_id_rule(id: &str)
    ensures
        contract_id_violation(id) is None <==> {
            &&& id.len() == 56
            &&& forall|i: int|
                0 <= i < id@.len() ==> {
                    let c = #[trigger] id@[i];
                    ||| '0' <= c <= '9'
                    ||| 'a' <= c <= 'z'
                    ||| 'A' <= c <= 'Z'
                }
        },
{
}

fn ascii_alnum(c: char) -> (b: bool)
    ensures
        b == is_ascii_alnum(c),
{
    ('0' <= c && c <= '9') || ('a' <= c && c <= 'z') || ('A' <= c && c <= 'Z')
}

fn only_ascii_alnum(s: &str) -> (b: bool)
    ensures
        b == all_ascii_alnum(s@),
{
    let n = s.unicode_len();
    let mut i: usize = 0;
    while i < n
        invariant
            n == s@.len(),
            i <= n,
            forall|j: int| 0 <= j < i ==> is_ascii_alnum(#[trigger] s@[j]),
        decreases n - i,
    {
        let c = s.get_char(i);
        if !ascii_alnum(c) {
            return false;
        }
        i = i + 1;
    }
    true
}

fn only_route_name_chars(s: &str) -> (b: bool)
    ensures
        b == all_route_name_chars(s@),
{
    let n = s.unicode_len();
    let mut i: usize = 0;
    while i < n
        invariant
            n == s@.len(),
            i <= n,
            forall|j: int| 0 <= j < i ==> is_route_name_char(#[trigger] s@[j]),
        decreases n - i,
    {
        let c = s.get_char(i);
        if !(ascii_alnum(c) || c == '_' || c == '-') {
            return false;
        }
        i = i + 1;
    }
    true
}

/// Validates a contract ID: a 56-character alphanumeric Stellar address.
pub fn validate_contract_id(id: &str) -> (r: Result<(), ValidationError>)
    ensures
        verdict_matches(r, contract_id_violation(id)),
        r is Ok <==> {
            &&& id.len() == 56
            &&& forall|i: int|
                0 <= i < id@.len() ==> {
                    let c = #[trigger] id@[i];
                    ||| '0' <= c <= '9'
                    ||| 'a' <= c <= 'z'
                    ||| 'A' <= c <= 'Z'
                }
        },
{
    proof {
        lemma_contract_id_rule(id);
    }
    if id.is_empty() {
        return Err(ValidationError::new("contract_id must not be empty"));
    }
    if id.len() != CONTRACT_ID_BYTES {
        return Err(ValidationError::new("contract_id must be exactly 56 characters"));
    }
    if !only_ascii_alnum(id) {
        return Err(ValidationError::new("contract_id must contain only alphanumeric characters"));
    }
    Ok(())
}

/// Validates a route name: non-empty, at most 64 bytes, and made of ASCII
/// letters, digits, underscores and hyphens.
pub fn validate_route_name(name: &str) -> (r: Result<(), ValidationError>)
    ensures
        verdict_matches(r, route_name_violation(name)),
        r is Ok <==> {
            &&& name@.len() != 0
            &&& name.len() <= 64
            &&& forall|i: int|
                0 <= i < name@.len() ==> {
                    let c = #[trigger] name@[i];
                    ||| '0' <= c <= '9'
                    ||| 'a' <= c <= 'z'
                    ||| 'A' <= c <= 'Z'
                    ||| c == '_'
                    ||| c == '-'
                }
        },
{
    proof {
        lemma_route_name_rule(name);
    }
    if name.is_empty() {
        return Err(ValidationError::new("route name must not be empty"));
    }
    if name.len() > ROUTE_NAME_MAX_BYTES {
        return Err(ValidationError::new("route name must be 64 characters or fewer"));
    }
    if !only_route_name_chars(name) {
        return Err(
            ValidationError::new(
                "route name must contain only alphanumeric characters, underscores, or hyphens",
            ),
        );
    }
    Ok(())
}

/// Validates a scrape interval: between 1 and 3600 seconds.
pub fn validate_scrape_interval(secs: u64) -> (r: Result<(), ValidationError>)
    ensures
        verdict_matches(r, scrape_interval_violation(secs)),
        r is Ok <==> 1 <= secs <= 3600,
{
    if secs == 0 {
        return Err(ValidationError::new("scrape_interval_secs must be greater than 0"));
    }
    if secs > SCRAPE_INTERVAL_MAX_SECS {
        return Err(ValidationError::new("scrape_interval_secs must not exceed 3600"));
    }
    Ok(())
}

} // verus!
