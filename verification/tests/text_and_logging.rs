use router_metrics::logging::new_request_id;
use router_metrics::text::{same_text, u64_to_decimal};

#[test]
fn decimal_text() {
    assert_eq!(u64_to_decimal(0), "0");
    assert_eq!(u64_to_decimal(7), "7");
    assert_eq!(u64_to_decimal(10), "10");
    assert_eq!(u64_to_decimal(3600), "3600");
    assert_eq!(u64_to_decimal(u64::MAX), u64::MAX.to_string());
}

#[test]
fn text_comparison() {
    assert!(same_text("false", "false"));
    assert!(!same_text("false", "False"));
    assert!(!same_text("0", "00"));
    assert!(same_text("", ""));
    assert!(same_text("é", "é"));
}

#[test]
fn request_id_is_hyphenated_v4_uuid() {
    let id = new_request_id();
    assert_eq!(id.len(), 36);
    let chars: Vec<char> = id.chars().collect();
    for (i, c) in chars.iter().enumerate() {
        if i == 8 || i == 13 || i == 18 || i == 23 {
            assert_eq!(*c, '-');
        } else {
            assert!(c.is_ascii_hexdigit() && !c.is_ascii_uppercase());
        }
    }
    assert_eq!(chars[14], '4');
    assert!(matches!(chars[19], '8' | '9' | 'a' | 'b'));
    assert_ne!(new_request_id(), id);
}
