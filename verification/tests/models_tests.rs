//! Tests of identifiers, identifier parsing and the multi-valued mapping.

use rusqbin::models::Id;
use rusqbin::models::IdExtractor;
use rusqbin::models::MultiMap;
use rusqbin::models::uuid_v4_valid;

#[test]
fn test_idextractor_instantiation() {
    let _ = IdExtractor::new();
}

#[test]
fn test_random_id_is_canonical_uuid_v4() {
    let id = Id::random();
    assert!(uuid_v4_valid(id.value()));
}

#[test]
fn test_id_parse_round_trip() {
    let id = Id::random();

    let id_extractor = IdExtractor::new();

    let parsed_id = {
        let id_as_str = id.value();
        id_extractor.parse(id_as_str)
    };

    assert_eq!(parsed_id, Some(id));

    let nope = id_extractor.parse("lulz");
    assert_eq!(nope, None);
}

#[test]
fn test_uuid_validation_accepts_both_cases() {
    assert!(uuid_v4_valid("5579fcd5-8353-4072-bb80-2d63a49c7ced"));
    assert!(uuid_v4_valid("5579FCD5-8353-4072-BB80-2D63A49C7CED"));
}

#[test]
fn test_uuid_validation_rejects_wrong_version() {
    // version nibble is 1, not 4
    assert!(!uuid_v4_valid("5579fcd5-8353-1072-bb80-2d63a49c7ced"));
}

#[test]
fn test_uuid_validation_rejects_wrong_variant() {
    // variant nibble is c, outside 8..b
    assert!(!uuid_v4_valid("5579fcd5-8353-4072-cb80-2d63a49c7ced"));
}

#[test]
fn test_uuid_validation_rejects_wrong_shape() {
    assert!(!uuid_v4_valid(""));
    assert!(!uuid_v4_valid("5579fcd5-8353-4072-bb80-2d63a49c7ce"));
    assert!(!uuid_v4_valid("5579fcd5-8353-4072-bb80-2d63a49c7cedd"));
    assert!(!uuid_v4_valid("5579fcd5x8353-4072-bb80-2d63a49c7ced"));
    assert!(!uuid_v4_valid("5579fcd5-8353-4072-bb80-2d63a49c7ceg"));
}

#[test]
fn test_extractor_rejects_embedded_uuid() {
    let id_extractor = IdExtractor::new();
    assert!(id_extractor.parse("x5579fcd5-8353-4072-bb80-2d63a49c7ced").is_none());
    assert!(id_extractor.parse("5579fcd5-8353-4072-bb80-2d63a49c7ced ").is_none());
}

#[test]
fn test_multimap_preserves_value_order_per_name() {
    let mut m = MultiMap::new();
    m.append("a".to_owned(), "1".to_owned());
    m.append("b".to_owned(), "x".to_owned());
    m.append("a".to_owned(), "2".to_owned());
    assert_eq!(m.len(), 2);
    let values = m.get("a").unwrap();
    assert_eq!(values, &vec!["1".to_owned(), "2".to_owned()]);
    assert_eq!(m.get("b").unwrap(), &vec!["x".to_owned()]);
    assert!(m.get("c").is_none());
}

#[test]
fn test_multimap_case_insensitive_first_value() {
    let mut m = MultiMap::new();
    m.append("Content-Length".to_owned(), "5".to_owned());
    let v = m.get_first_ignore_ascii_case("content-length").unwrap();
    assert_eq!(v, "5");
    assert!(m.get_first_ignore_ascii_case("content-type").is_none());
}
