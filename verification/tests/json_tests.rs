//! Tests of the JSON rendering and the text helpers: exact expected strings.

use rusqbin::errors::Error;
use rusqbin::json::json_string_exec;
use rusqbin::json::request_json;
use rusqbin::json::summaries_json;
use rusqbin::json::summary_json;
use rusqbin::models::BinSummary;
use rusqbin::models::IdExtractor;
use rusqbin::models::MultiMap;
use rusqbin::models::Request;
use rusqbin::text::i64_dec;
use rusqbin::text::parse_u64;
use rusqbin::text::u64_dec;

#[test]
fn test_json_string_escaping() {
    assert_eq!(json_string_exec("plain"), "\"plain\"");
    assert_eq!(json_string_exec("a\"b"), "\"a\\\"b\"");
    assert_eq!(json_string_exec("a\\b"), "\"a\\\\b\"");
    assert_eq!(json_string_exec("a\nb"), "\"a\\u000ab\"");
    assert_eq!(json_string_exec("a\tb"), "\"a\\u0009b\"");
    assert_eq!(json_string_exec(""), "\"\"");
}

#[test]
fn test_escaped_strings_parse_back() {
    let encoded = json_string_exec("quote \" backslash \\ newline \n end");
    let decoded: serde_json::Value = serde_json::from_str(&encoded).unwrap();
    assert_eq!(decoded.as_str(), Some("quote \" backslash \\ newline \n end"));
}

#[test]
fn test_id_encodes_as_bare_json_string() {
    let text = "5579fcd5-8353-4072-bb80-2d63a49c7ced";
    let id = IdExtractor::new().parse(text).unwrap();
    let encoded = json_string_exec(id.value());
    assert_eq!(encoded, format!("\"{}\"", text));
}

#[test]
fn test_summary_json_shape() {
    let id = IdExtractor::new().parse("5579fcd5-8353-4072-bb80-2d63a49c7ced").unwrap();
    let summary = BinSummary { id, request_count: 3 };
    assert_eq!(
        summary_json(&summary),
        "{\"id\":\"5579fcd5-8353-4072-bb80-2d63a49c7ced\",\"request_count\":3}"
    );
}

#[test]
fn test_summaries_json_shape() {
    let id = IdExtractor::new().parse("5579fcd5-8353-4072-bb80-2d63a49c7ced").unwrap();
    let summaries = vec![BinSummary { id, request_count: 0 }];
    assert_eq!(
        summaries_json(&summaries),
        "{\"5579fcd5-8353-4072-bb80-2d63a49c7ced\":{\"id\":\"5579fcd5-8353-4072-bb80-2d63a49c7ced\",\"request_count\":0}}"
    );
    assert_eq!(summaries_json(&Vec::new()), "{}");
}

#[test]
fn test_request_json_shape() {
    let mut headers = MultiMap::new();
    headers.append("X-One".to_owned(), "a".to_owned());
    headers.append("X-One".to_owned(), "b".to_owned());
    let mut query_string = MultiMap::new();
    query_string.append("q".to_owned(), "1".to_owned());
    let req = Request {
        content_length: Some(4),
        content_type: None,
        time: 1234,
        method: "POST".to_owned(),
        path: "/x?q=1".to_owned(),
        body: Some("body".to_owned()),
        headers,
        query_string,
    };
    assert_eq!(
        request_json(&req),
        "{\"content_length\":4,\"content_type\":null,\"time\":1234,\"method\":\"POST\",\"path\":\"/x?q=1\",\"body\":\"body\",\"headers\":{\"X-One\":[\"a\",\"b\"]},\"query_string\":{\"q\":[\"1\"]}}"
    );
}

#[test]
fn test_request_json_parses_back() {
    let req = Request {
        content_length: None,
        content_type: Some("text/plain".to_owned()),
        time: -7,
        method: "GET".to_owned(),
        path: "/".to_owned(),
        body: None,
        headers: MultiMap::new(),
        query_string: MultiMap::new(),
    };
    let v: serde_json::Value = serde_json::from_str(&request_json(&req)).unwrap();
    assert_eq!(v["content_length"], serde_json::Value::Null);
    assert_eq!(v["content_type"].as_str(), Some("text/plain"));
    assert_eq!(v["time"].as_i64(), Some(-7));
    assert_eq!(v["body"], serde_json::Value::Null);
}

#[test]
fn test_decimal_rendering() {
    assert_eq!(u64_dec(0), "0");
    assert_eq!(u64_dec(1234), "1234");
    assert_eq!(u64_dec(u64::MAX), "18446744073709551615");
    assert_eq!(i64_dec(0), "0");
    assert_eq!(i64_dec(-5), "-5");
    assert_eq!(i64_dec(i64::MIN), "-9223372036854775808");
}

#[test]
fn test_parse_u64_cases() {
    assert_eq!(parse_u64("0"), Some(0));
    assert_eq!(parse_u64("123"), Some(123));
    assert_eq!(parse_u64("18446744073709551615"), Some(u64::MAX));
    assert_eq!(parse_u64("18446744073709551616"), None);
    assert_eq!(parse_u64(""), None);
    assert_eq!(parse_u64("12a"), None);
    assert_eq!(parse_u64("-3"), None);
}

#[test]
fn test_error_statuses() {
    assert_eq!(Error::NotFound.status(), 404);
    assert_eq!(Error::BadRequest.status(), 400);
    assert_eq!(Error::MalformedInput.status(), 400);
    assert_eq!(Error::ConcurrencyFault.status(), 500);
    assert_eq!(Error::UnforeseenInternal.status(), 500);
    assert_eq!(Error::NotFound.message(), "not found");
}
