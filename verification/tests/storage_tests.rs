//! Tests of the in-memory bin store.

use rusqbin::models::MultiMap;
use rusqbin::models::Request;
use rusqbin::storage::Bins;
use rusqbin::storage::DeleteBinStatus;
use rusqbin::storage::InMemoryBins;
use rusqbin::storage::InsertRequestStatus;

fn sample_request() -> Request {
    Request {
        content_length: None,
        content_type: Some("fake".to_owned()),
        time: 123,
        method: "GET".to_owned(),
        path: "/whoa".to_owned(),
        body: None,
        headers: MultiMap::new(),
        query_string: MultiMap::new(),
    }
}

#[test]
fn test_inmemory_bin_creation() {
    let mut bins = InMemoryBins::new();
    let _ = bins.create_bin();
}

#[test]
fn test_inmemory_bin_deletion() {
    let mut bins = InMemoryBins::new();
    let bin = bins.create_bin();
    bins.delete_bin(&bin.id);
    assert!(bins.bins.is_empty())
}

#[test]
fn test_inmemory_get_bin_summary() {
    let mut bins = InMemoryBins::new();
    let bin = bins.create_bin();
    let req = sample_request();
    bins.insert_request(&bin.id, req);

    let summary = bins.get_bin_summary(&bin.id).unwrap();
    assert_eq!(summary.request_count, 1)
}

#[test]
fn test_inmemory_get_bin() {
    let mut bins = InMemoryBins::new();
    let bin = bins.create_bin();
    let req = sample_request();
    bins.insert_request(&bin.id, req);

    let stored = bins.get_bin(&bin.id).unwrap();
    assert_eq!(stored[0], sample_request())
}

#[test]
fn test_inmemory_get_bin_summaries() {
    let mut bins = InMemoryBins::new();
    let bin = bins.create_bin();
    let req = sample_request();
    bins.insert_request(&bin.id, req);

    let summaries = bins.get_bin_summaries();
    let found = summaries.iter().find(|s| s.id == bin.id).unwrap();
    assert_eq!(found.request_count, 1)
}

#[test]
fn test_created_ids_are_pairwise_distinct() {
    let mut bins = InMemoryBins::new();
    let mut ids: Vec<String> = Vec::new();
    for _ in 0..50 {
        let summary = bins.create_bin();
        ids.push(summary.id.value().to_owned());
    }
    for i in 0..ids.len() {
        for j in 0..ids.len() {
            if i != j {
                assert_ne!(ids[i], ids[j]);
            }
        }
    }
}

#[test]
fn test_count_accuracy_after_n_inserts() {
    let mut bins = InMemoryBins::new();
    let bin = bins.create_bin();
    let n = 7;
    for k in 0..n {
        let req = Request {
            content_length: None,
            content_type: None,
            time: k,
            method: "GET".to_owned(),
            path: format!("/item/{}", k),
            body: None,
            headers: MultiMap::new(),
            query_string: MultiMap::new(),
        };
        let status = bins.insert_request(&bin.id, req);
        assert!(matches!(status, InsertRequestStatus::Inserted));
    }
    let summary = bins.get_bin_summary(&bin.id).unwrap();
    assert_eq!(summary.request_count, n as usize);
    let stored = bins.get_bin(&bin.id).unwrap();
    assert_eq!(stored.len(), n as usize);
    for k in 0..n as usize {
        assert_eq!(stored[k].path, format!("/item/{}", k));
    }
}

#[test]
fn test_deletion_finality() {
    let mut bins = InMemoryBins::new();
    let bin = bins.create_bin();
    let status = bins.delete_bin(&bin.id);
    assert!(matches!(status, DeleteBinStatus::Deleted));
    assert!(bins.get_bin(&bin.id).is_none());
    assert!(bins.get_bin_summary(&bin.id).is_none());
    let status = bins.insert_request(&bin.id, sample_request());
    assert!(matches!(status, InsertRequestStatus::NoSuchBin));
}

#[test]
fn test_delete_unknown_id_is_idempotent_absence() {
    let mut bins = InMemoryBins::new();
    let kept = bins.create_bin();
    bins.insert_request(&kept.id, sample_request());
    let unknown = rusqbin::models::Id::random();
    let status = bins.delete_bin(&unknown);
    assert!(matches!(status, DeleteBinStatus::NoSuchBin));
    let status = bins.delete_bin(&unknown);
    assert!(matches!(status, DeleteBinStatus::NoSuchBin));
    let summary = bins.get_bin_summary(&kept.id).unwrap();
    assert_eq!(summary.request_count, 1);
    assert_eq!(bins.get_bin_summaries().len(), 1);
}
