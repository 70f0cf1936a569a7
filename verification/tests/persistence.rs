use std::collections::HashMap;

use indexify_core::persistence::{ContentPayload, ExtractedAttributes, PayloadType, Repository};

fn meta(key: &str, val: &str) -> HashMap<String, serde_json::Value> {
    let mut m = HashMap::new();
    m.insert(key.to_string(), serde_json::Value::String(val.to_string()));
    m
}

#[test]
fn from_text_id_is_stable_and_ignores_metadata() {
    let a = ContentPayload::from_text("repo", "text", HashMap::new());
    let b = ContentPayload::from_text("repo", "text", meta("lang", "en"));
    assert_eq!(a.id, b.id);
    assert_eq!(a.id, "93053e54c732492c");
    assert_eq!(a.content_type, "text/plain");
    assert_eq!(a.payload, "text");
    assert!(matches!(a.payload_type, PayloadType::EmbeddedStorage));
}

#[test]
fn from_text_id_changes_with_repo_or_text() {
    let base = ContentPayload::from_text("repo", "text", HashMap::new());
    let other_text = ContentPayload::from_text("repo", "other", HashMap::new());
    let other_repo = ContentPayload::from_text("repo2", "text", HashMap::new());
    assert_ne!(base.id, other_text.id);
    assert_ne!(base.id, other_repo.id);
    assert_eq!(other_text.id, "f703fcddbc0f0cad");
}

#[test]
fn from_text_id_splits_pair_unambiguously() {
    let a = ContentPayload::from_text("ab", "c", HashMap::new());
    let b = ContentPayload::from_text("a", "bc", HashMap::new());
    assert_ne!(a.id, b.id);
}

#[test]
fn from_file_guesses_mime_from_extension() {
    let p = ContentPayload::from_file("repo", "notes.txt", "/tmp/blob-1");
    assert_eq!(p.content_type, "text/plain");
    assert_eq!(p.payload, "/tmp/blob-1");
    assert!(matches!(p.payload_type, PayloadType::BlobStorageLink));
    assert!(p.metadata.is_empty());

    let unknown = ContentPayload::from_file("repo", "data.zzqq", "/tmp/blob-2");
    assert_eq!(unknown.content_type, "application/octet-stream");
}

#[test]
fn from_file_id_comes_from_repository_and_name() {
    let a = ContentPayload::from_file("repo", "doc.pdf", "/tmp/x");
    let b = ContentPayload::from_file("repo", "doc.pdf", "/tmp/y");
    assert_eq!(a.id, b.id);
    let text_twin = ContentPayload::from_text("repo", "doc.pdf", HashMap::new());
    assert_eq!(a.id, text_twin.id);
}

#[test]
fn payload_type_labels_round_trip() {
    assert_eq!(PayloadType::EmbeddedStorage.label(), "embedded_storage");
    assert_eq!(PayloadType::BlobStorageLink.label(), "blob_storage_link");
    assert!(matches!(
        PayloadType::from_label("embedded_storage"),
        Some(PayloadType::EmbeddedStorage)
    ));
    assert!(matches!(
        PayloadType::from_label("blob_storage_link"),
        Some(PayloadType::BlobStorageLink)
    ));
    assert!(PayloadType::from_label("embedded").is_none());
    assert!(matches!(PayloadType::default(), PayloadType::EmbeddedStorage));
}

#[test]
fn extracted_attributes_id_is_deterministic() {
    let v1 = serde_json::Value::String("v1".to_string());
    let v2 = serde_json::Value::String("v2".to_string());
    let a = ExtractedAttributes::new("c1", v1, "extract-a");
    let b = ExtractedAttributes::new("c1", v2, "extract-a");
    assert_eq!(a.id, b.id);
    assert_eq!(a.id, "d4fe26b0faecc292");
    assert_eq!(a.content_id, "c1");
    assert_eq!(a.extractor_name, "extract-a");
    let other = ExtractedAttributes::new("c2", serde_json::Value::Null, "extract-a");
    assert_ne!(a.id, other.id);
}

#[test]
fn upsert_twice_keeps_one_row_with_latest_value() {
    let mut repo = Repository::new();
    let first = ExtractedAttributes::new(
        "c1",
        serde_json::Value::String("old".to_string()),
        "extract-a",
    );
    let second = ExtractedAttributes::new(
        "c1",
        serde_json::Value::String("new".to_string()),
        "extract-a",
    );
    repo.add_attributes("repo", "idx", first);
    repo.add_attributes("repo", "idx", second);
    let got = repo.get_extracted_attributes("repo", "idx", None);
    assert_eq!(got.len(), 1);
    assert_eq!(got[0].attributes, serde_json::Value::String("new".to_string()));
    assert_eq!(got[0].content_id, "c1");
    assert_eq!(got[0].extractor_name, "extract-a");
}

#[test]
fn distinct_pairs_store_distinct_rows() {
    let mut repo = Repository::new();
    repo.add_attributes(
        "repo",
        "idx",
        ExtractedAttributes::new("c1", serde_json::Value::Bool(true), "extract-a"),
    );
    repo.add_attributes(
        "repo",
        "idx",
        ExtractedAttributes::new("c2", serde_json::Value::Bool(false), "extract-a"),
    );
    repo.add_attributes(
        "repo",
        "idx",
        ExtractedAttributes::new("c1", serde_json::Value::Null, "extract-b"),
    );
    let all = repo.get_extracted_attributes("repo", "idx", None);
    assert_eq!(all.len(), 3);
    let c1 = "c1".to_string();
    let only_c1 = repo.get_extracted_attributes("repo", "idx", Some(&c1));
    assert_eq!(only_c1.len(), 2);
    assert!(only_c1.iter().all(|e| e.content_id == "c1"));
}

#[test]
fn query_filters_by_repository_and_index() {
    let mut repo = Repository::new();
    repo.add_attributes(
        "repo-a",
        "idx-1",
        ExtractedAttributes::new("c1", serde_json::Value::Null, "x"),
    );
    repo.add_attributes(
        "repo-b",
        "idx-1",
        ExtractedAttributes::new("c2", serde_json::Value::Null, "x"),
    );
    repo.add_attributes(
        "repo-a",
        "idx-2",
        ExtractedAttributes::new("c3", serde_json::Value::Null, "x"),
    );
    let got = repo.get_extracted_attributes("repo-a", "idx-1", None);
    assert_eq!(got.len(), 1);
    assert_eq!(got[0].content_id, "c1");
    assert!(repo.get_extracted_attributes("repo-c", "idx-1", None).is_empty());
}
