//! Tests of the router/dispatcher pipeline, driven through `handle_request`
//! the way the HTTP transport drives it.

use rusqbin::models::Id;
use rusqbin::models::IdExtractor;
use rusqbin::server::Route;
use rusqbin::server::classify;
use rusqbin::server::handle_request;
use rusqbin::storage::Bins;
use rusqbin::storage::InMemoryBins;

fn parse_json(s: &str) -> serde_json::Value {
    serde_json::from_str(s).unwrap()
}

/// Creates a bin over the HTTP surface and returns its identifier text.
fn create_bin_http(store: &mut InMemoryBins) -> String {
    let resp = handle_request(store, "POST", "/rusqbins", &Vec::new(), Vec::new());
    assert_eq!(resp.status, 200);
    let v = parse_json(&resp.body.unwrap());
    v["id"].as_str().unwrap().to_owned()
}

/// Sends one capture request the way the transport would: with the
/// bin-identifying header, a host header and the body's content length.
fn capture_http(
    store: &mut InMemoryBins,
    id: &str,
    method: &str,
    path: &str,
    extra_headers: &[(&str, &str)],
    body: Option<&str>,
) -> u16 {
    let body_bytes: Vec<u8> = body.map(|b| b.as_bytes().to_vec()).unwrap_or_default();
    let mut headers: Vec<(String, String)> = vec![
        ("Host".to_owned(), "localhost".to_owned()),
        ("Content-Length".to_owned(), format!("{}", body_bytes.len())),
        ("X-Rusqbin-Id".to_owned(), id.to_owned()),
    ];
    for (name, value) in extra_headers {
        headers.push(((*name).to_owned(), (*value).to_owned()));
    }
    let resp = handle_request(store, method, path, &headers, body_bytes);
    resp.status
}

fn id_of(text: &str) -> Id {
    IdExtractor::new().parse(text).unwrap()
}

#[test]
fn internal_integration_tests_test_list_empty() {
    let store = InMemoryBins::new();
    let bins = store.get_bin_summaries();
    assert!(bins.is_empty());
}

#[test]
fn internal_integration_tests_test_creating_bin() {
    let mut store = InMemoryBins::new();
    let id = create_bin_http(&mut store);
    assert!(store.get_bin_summary(&id_of(&id)).is_some());
}

#[test]
fn internal_integration_tests_test_deleting_existing_bin() {
    let mut store = InMemoryBins::new();
    let id = create_bin_http(&mut store);
    let resp = handle_request(
        &mut store,
        "DELETE",
        &format!("/rusqbins/{}", id),
        &Vec::new(),
        Vec::new(),
    );
    assert_eq!(resp.status, 200);
    assert!(store.get_bin_summary(&id_of(&id)).is_none());
}

#[test]
fn internal_integration_tests_test_requesting_bin_summary() {
    let mut store = InMemoryBins::new();
    let id = create_bin_http(&mut store);

    let requests: Vec<(&str, &str, Option<&str>)> = vec![
        ("GET", "/", None),
        ("GET", "/hello/world", None),
        ("POST", "/boom/chicka/chicka", Some("{ id: 3 }")),
    ];
    for _ in 0..2 {
        for (method, path, body) in &requests {
            let status = capture_http(&mut store, &id, method, path, &[], *body);
            assert_eq!(status, 200);
        }
    }

    let summary = store.get_bin_summary(&id_of(&id)).unwrap();
    assert_eq!(summary.request_count, requests.len() * 2);
}

#[test]
fn internal_integration_tests_test_requesting_bin_requests() {
    let mut store = InMemoryBins::new();
    let id = create_bin_http(&mut store);

    let extra = [("X-Flubble", "yep"), ("X-Doodle", "nope")];
    let status = capture_http(&mut store, &id, "POST", "/", &extra, Some("hey there."));
    assert_eq!(status, 200);

    let bin_id = id_of(&id);
    let requests = store.get_bin(&bin_id).unwrap();
    assert_eq!(requests.len(), 1);

    let req = &requests[0];
    println!("{:?}", req.headers);
    // includes content-length, host, the bin-identifying header, and the 2
    // additional ones we sent.
    assert_eq!(req.headers.len(), 5);

    assert!(req.headers.get("X-Flubble").is_some());
    assert!(req.headers.get("X-Doodle").is_some());

    assert_eq!(req.body, Some("hey there.".to_owned()));
    assert_eq!(req.method, "POST");
}

#[test]
fn end_to_end_integration_tests_test_list_empty() {
    let mut store = InMemoryBins::new();
    let resp = handle_request(&mut store, "GET", "/rusqbins", &Vec::new(), Vec::new());
    assert_eq!(resp.status, 200);
    let decoded = parse_json(&resp.body.unwrap());
    assert_eq!(decoded.as_object().unwrap().is_empty(), true);
}

#[test]
fn test_getting_non_existent_bin() {
    let mut store = InMemoryBins::new();
    let resp = handle_request(
        &mut store,
        "GET",
        "/rusqbins/5579fcd5-8353-4072-bb80-2d63a49c7ced",
        &Vec::new(),
        Vec::new(),
    );
    assert_eq!(resp.status, 404);
}

#[test]
fn end_to_end_integration_tests_test_creating_bin() {
    let mut store = InMemoryBins::new();
    let resp = handle_request(&mut store, "POST", "/rusqbins", &Vec::new(), Vec::new());
    assert_eq!(resp.status == 200, true);
}

#[test]
fn test_deleting_non_existing_bin() {
    let mut store = InMemoryBins::new();
    let unknown = Id::random();
    let resp = handle_request(
        &mut store,
        "DELETE",
        &format!("/rusqbins/{}", unknown.value()),
        &Vec::new(),
        Vec::new(),
    );
    assert_eq!(resp.status, 404);
}

#[test]
fn end_to_end_integration_tests_test_deleting_existing_bin() {
    let mut store = InMemoryBins::new();
    let id = create_bin_http(&mut store);
    let resp = handle_request(
        &mut store,
        "DELETE",
        &format!("/rusqbins/{}", id),
        &Vec::new(),
        Vec::new(),
    );
    assert_eq!(resp.status, 200);
}

#[test]
fn end_to_end_integration_tests_test_requesting_bin_summary() {
    let mut store = InMemoryBins::new();
    let id = create_bin_http(&mut store);

    let requests: Vec<(&str, &str, Option<&str>)> = vec![
        ("GET", "/", None),
        ("GET", "/hello/world", None),
        ("POST", "/boom/chicka/chicka", Some("{ id: 3 }")),
    ];
    for _ in 0..2 {
        for (method, path, body) in &requests {
            let status = capture_http(&mut store, &id, method, path, &[], *body);
            assert_eq!(status, 200);
        }
    }

    let resp = handle_request(
        &mut store,
        "GET",
        &format!("/rusqbins/{}", id),
        &Vec::new(),
        Vec::new(),
    );
    assert_eq!(resp.status, 200);
    let summary = parse_json(&resp.body.unwrap());
    assert_eq!(summary["request_count"].as_u64().unwrap() as usize, requests.len() * 2);
}

#[test]
fn end_to_end_integration_tests_test_requesting_bin_requests() {
    let mut store = InMemoryBins::new();
    let id = create_bin_http(&mut store);

    let extra = [("X-Flubble", "yep"), ("X-Doodle", "nope")];
    let status = capture_http(&mut store, &id, "POST", "/", &extra, Some("hey there."));
    assert_eq!(status, 200);

    let resp = handle_request(
        &mut store,
        "GET",
        &format!("/rusqbins/{}/requests", id),
        &Vec::new(),
        Vec::new(),
    );
    assert_eq!(resp.status, 200);
    let requests = parse_json(&resp.body.unwrap());
    let arr = requests.as_array().unwrap();
    assert_eq!(arr.len(), 1);

    let req = &arr[0];
    println!("{:?}", req["headers"]);
    assert_eq!(req["headers"].as_object().unwrap().len(), 5);
    assert!(req["headers"].as_object().unwrap().get("X-Flubble").is_some());
    assert!(req["headers"].as_object().unwrap().get("X-Doodle").is_some());
    assert_eq!(req["body"].as_str(), Some("hey there."));
    assert_eq!(req["method"].as_str(), Some("POST"));
}

#[test]
fn test_end_to_end_scenario() {
    let mut store = InMemoryBins::new();

    let resp = handle_request(&mut store, "POST", "/rusqbins", &Vec::new(), Vec::new());
    assert_eq!(resp.status, 200);
    let created = parse_json(&resp.body.unwrap());
    assert_eq!(created["request_count"].as_u64(), Some(0));
    let id = created["id"].as_str().unwrap().to_owned();

    let headers = vec![("X-Rusqbin-Id".to_owned(), id.clone())];
    let resp = handle_request(&mut store, "GET", "/hello", &headers, Vec::new());
    assert_eq!(resp.status, 200);

    let resp = handle_request(
        &mut store,
        "GET",
        &format!("/rusqbins/{}/requests", id),
        &Vec::new(),
        Vec::new(),
    );
    assert_eq!(resp.status, 200);
    let requests = parse_json(&resp.body.unwrap());
    let arr = requests.as_array().unwrap();
    assert_eq!(arr.len(), 1);
    assert_eq!(arr[0]["method"].as_str(), Some("GET"));
    assert_eq!(arr[0]["path"].as_str(), Some("/hello"));

    let resp = handle_request(
        &mut store,
        "DELETE",
        &format!("/rusqbins/{}", id),
        &Vec::new(),
        Vec::new(),
    );
    assert_eq!(resp.status, 200);

    let resp = handle_request(
        &mut store,
        "GET",
        &format!("/rusqbins/{}", id),
        &Vec::new(),
        Vec::new(),
    );
    assert_eq!(resp.status, 404);
}

#[test]
fn test_routing_precedence_path_beats_header() {
    let mut store = InMemoryBins::new();
    let id = create_bin_http(&mut store);

    // a GET to the bin path with a valid bin-identifying header is a summary
    // lookup, not a capture
    let headers = vec![("X-Rusqbin-Id".to_owned(), id.clone())];
    let resp = handle_request(
        &mut store,
        "GET",
        &format!("/rusqbins/{}", id),
        &headers,
        Vec::new(),
    );
    assert_eq!(resp.status, 200);
    let summary = parse_json(&resp.body.unwrap());
    assert_eq!(summary["request_count"].as_u64(), Some(0));
    let bin_id = id_of(&id);
    assert_eq!(store.get_bin(&bin_id).unwrap().len(), 0);

    let route = classify("GET", &format!("/rusqbins/{}", id), &headers);
    assert!(matches!(route, Route::GetBinSummary(_)));
}

#[test]
fn test_invalid_path_uuid_falls_through_to_capture() {
    let mut store = InMemoryBins::new();
    let id = create_bin_http(&mut store);

    // wrong version nibble in the path: not a bin path, so the header wins
    let headers = vec![("X-Rusqbin-Id".to_owned(), id.clone())];
    let bad_path = "/rusqbins/5579fcd5-8353-1072-bb80-2d63a49c7ced";
    let resp = handle_request(&mut store, "GET", bad_path, &headers, Vec::new());
    assert_eq!(resp.status, 200);
    let bin_id = id_of(&id);
    let captured = store.get_bin(&bin_id).unwrap();
    assert_eq!(captured.len(), 1);
    assert_eq!(captured[0].path, bad_path);
}

#[test]
fn test_reject_without_header_or_route() {
    let mut store = InMemoryBins::new();
    let resp = handle_request(&mut store, "GET", "/nowhere", &Vec::new(), Vec::new());
    assert_eq!(resp.status, 400);
}

#[test]
fn test_reject_with_invalid_header_value() {
    let mut store = InMemoryBins::new();
    let headers = vec![("X-Rusqbin-Id".to_owned(), "not-an-id".to_owned())];
    let resp = handle_request(&mut store, "GET", "/anywhere", &headers, Vec::new());
    assert_eq!(resp.status, 400);
}

#[test]
fn test_capture_against_unknown_id_reports_absence() {
    let mut store = InMemoryBins::new();
    let unknown = Id::random();
    let headers = vec![("X-Rusqbin-Id".to_owned(), unknown.value().to_owned())];
    let resp = handle_request(&mut store, "GET", "/anywhere", &headers, Vec::new());
    assert_eq!(resp.status, 404);
}

#[test]
fn test_capture_with_invalid_utf8_body_is_malformed() {
    let mut store = InMemoryBins::new();
    let id = create_bin_http(&mut store);
    let headers = vec![("X-Rusqbin-Id".to_owned(), id.clone())];
    let resp = handle_request(&mut store, "POST", "/data", &headers, vec![0xff, 0xfe]);
    assert_eq!(resp.status, 400);
    let bin_id = id_of(&id);
    assert_eq!(store.get_bin(&bin_id).unwrap().len(), 0);
}

#[test]
fn test_header_multiplicity_preserved() {
    let mut store = InMemoryBins::new();
    let id = create_bin_http(&mut store);

    let headers = vec![
        ("X-Rusqbin-Id".to_owned(), id.clone()),
        ("X-Thing".to_owned(), "one".to_owned()),
        ("X-Thing".to_owned(), "two".to_owned()),
    ];
    let resp = handle_request(&mut store, "GET", "/multi", &headers, Vec::new());
    assert_eq!(resp.status, 200);

    let bin_id = id_of(&id);
    let captured = store.get_bin(&bin_id).unwrap();
    let values = captured[0].headers.get("X-Thing").unwrap();
    assert_eq!(values, &vec!["one".to_owned(), "two".to_owned()]);
}

#[test]
fn test_query_string_is_parsed_and_decoded() {
    let mut store = InMemoryBins::new();
    let id = create_bin_http(&mut store);
    let headers = vec![("X-Rusqbin-Id".to_owned(), id.clone())];
    let resp = handle_request(
        &mut store,
        "GET",
        "/search?a=1&a=2&b=%20x&c=hi+there",
        &headers,
        Vec::new(),
    );
    assert_eq!(resp.status, 200);
    let bin_id = id_of(&id);
    let captured = store.get_bin(&bin_id).unwrap();
    let req = &captured[0];
    assert_eq!(req.path, "/search?a=1&a=2&b=%20x&c=hi+there");
    assert_eq!(req.query_string.get("a").unwrap(), &vec!["1".to_owned(), "2".to_owned()]);
    assert_eq!(req.query_string.get("b").unwrap(), &vec![" x".to_owned()]);
    assert_eq!(req.query_string.get("c").unwrap(), &vec!["hi there".to_owned()]);
}

#[test]
fn test_capture_records_content_headers_and_body() {
    let mut store = InMemoryBins::new();
    let id = create_bin_http(&mut store);
    let headers = vec![
        ("X-Rusqbin-Id".to_owned(), id.clone()),
        ("Content-Length".to_owned(), "5".to_owned()),
        ("Content-Type".to_owned(), "text/plain".to_owned()),
    ];
    let resp = handle_request(&mut store, "POST", "/upload", &headers, b"hello".to_vec());
    assert_eq!(resp.status, 200);
    let bin_id = id_of(&id);
    let captured = store.get_bin(&bin_id).unwrap();
    let req = &captured[0];
    assert_eq!(req.content_length, Some(5));
    assert_eq!(req.content_type, Some("text/plain".to_owned()));
    assert_eq!(req.body, Some("hello".to_owned()));
    assert_eq!(req.method, "POST");
}

#[test]
fn test_empty_body_is_recorded_as_absent() {
    let mut store = InMemoryBins::new();
    let id = create_bin_http(&mut store);
    let headers = vec![("X-Rusqbin-Id".to_owned(), id.clone())];
    let resp = handle_request(&mut store, "POST", "/empty", &headers, Vec::new());
    assert_eq!(resp.status, 200);
    let bin_id = id_of(&id);
    let captured = store.get_bin(&bin_id).unwrap();
    assert_eq!(captured[0].body, None);
}

#[test]
fn test_trailing_slash_variants_route_alike() {
    let mut store = InMemoryBins::new();
    let resp = handle_request(&mut store, "POST", "/rusqbins/", &Vec::new(), Vec::new());
    assert_eq!(resp.status, 200);
    let resp = handle_request(&mut store, "GET", "/rusqbins/", &Vec::new(), Vec::new());
    assert_eq!(resp.status, 200);
    let id = create_bin_http(&mut store);
    let resp = handle_request(
        &mut store,
        "GET",
        &format!("/rusqbins/{}/requests/", id),
        &Vec::new(),
        Vec::new(),
    );
    assert_eq!(resp.status, 200);
}
