use router_metrics::validation::{
    validate_contract_id, validate_route_name, validate_scrape_interval, ValidationError,
};

#[test]
fn valid_contract_id() {
    let id = "A".repeat(56);
    assert!(validate_contract_id(&id).is_ok());
}

#[test]
fn short_contract_id_rejected() {
    assert!(validate_contract_id("SHORT").is_err());
}

#[test]
fn empty_contract_id_rejected() {
    assert!(validate_contract_id("").is_err());
}

#[test]
fn contract_id_with_special_chars_rejected() {
    let id = format!("{}!", "A".repeat(55));
    assert!(validate_contract_id(&id).is_err());
}

#[test]
fn valid_route_name() {
    assert!(validate_route_name("oracle_feed-v2").is_ok());
}

#[test]
fn empty_route_name_rejected() {
    assert!(validate_route_name("").is_err());
}

#[test]
fn long_route_name_rejected() {
    assert!(validate_route_name(&"a".repeat(65)).is_err());
}

#[test]
fn route_name_with_spaces_rejected() {
    assert!(validate_route_name("bad name").is_err());
}

#[test]
fn valid_scrape_interval() {
    assert!(validate_scrape_interval(15).is_ok());
}

#[test]
fn zero_scrape_interval_rejected() {
    assert!(validate_scrape_interval(0).is_err());
}

#[test]
fn too_large_scrape_interval_rejected() {
    assert!(validate_scrape_interval(3601).is_err());
}

fn message(r: Result<(), ValidationError>) -> String {
    let e = r.unwrap_err();
    assert_eq!(e.error, "validation_error");
    e.message
}

#[test]
fn new_error_carries_tag_and_message() {
    let e = ValidationError::new("something is off");
    assert_eq!(e.error, "validation_error");
    assert_eq!(e.message, "something is off");
}

#[test]
fn contract_id_messages_name_the_first_broken_rule() {
    assert_eq!(message(validate_contract_id("")), "contract_id must not be empty");
    assert_eq!(
        message(validate_contract_id("SHORT")),
        "contract_id must be exactly 56 characters"
    );
    assert_eq!(
        message(validate_contract_id(&format!("{}!", "A".repeat(55)))),
        "contract_id must contain only alphanumeric characters"
    );
    assert_eq!(
        message(validate_contract_id(&"a".repeat(57))),
        "contract_id must be exactly 56 characters"
    );
    assert!(validate_contract_id(&"0aZ9".repeat(14)).is_ok());
}

#[test]
fn contract_id_length_counts_bytes() {
    // 54 ASCII letters and one two-byte character make 56 bytes but 55
    // characters: the length rule passes, the character rule fails.
    let id = format!("{}é", "A".repeat(54));
    assert_eq!(id.len(), 56);
    assert_eq!(
        message(validate_contract_id(&id)),
        "contract_id must contain only alphanumeric characters"
    );
    // 56 characters of which one takes two bytes: 57 bytes.
    let id = format!("{}é", "A".repeat(55));
    assert_eq!(
        message(validate_contract_id(&id)),
        "contract_id must be exactly 56 characters"
    );
}

#[test]
fn route_name_edges() {
    assert!(validate_route_name(&"a".repeat(64)).is_ok());
    assert!(validate_route_name("_").is_ok());
    assert!(validate_route_name("-").is_ok());
    assert_eq!(message(validate_route_name("")), "route name must not be empty");
    assert_eq!(
        message(validate_route_name(&"a".repeat(65))),
        "route name must be 64 characters or fewer"
    );
    assert_eq!(
        message(validate_route_name("bad name")),
        "route name must contain only alphanumeric characters, underscores, or hyphens"
    );
    assert_eq!(
        message(validate_route_name("dot.name")),
        "route name must contain only alphanumeric characters, underscores, or hyphens"
    );
}

#[test]
fn scrape_interval_edges() {
    assert!(validate_scrape_interval(1).is_ok());
    assert!(validate_scrape_interval(3600).is_ok());
    assert_eq!(
        message(validate_scrape_interval(0)),
        "scrape_interval_secs must be greater than 0"
    );
    assert_eq!(
        message(validate_scrape_interval(u64::MAX)),
        "scrape_interval_secs must not exceed 3600"
    );
}
