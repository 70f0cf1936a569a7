use indexify_core::errors::StateMachineError;
use indexify_core::reader::StateMachineReader;
use indexify_core::records::{ContentMetadata, ExecutorMetadata};
use indexify_core::store::StateMachineStore;

fn executor(id: &str) -> ExecutorMetadata {
    ExecutorMetadata {
        id: id.to_string(),
        addr: format!("10.0.0.1:{}", id.len()),
        labels: vec!["gpu".to_string(), "west".to_string()],
    }
}

fn content(id: &str, parent: Option<&str>) -> ContentMetadata {
    ContentMetadata {
        id: id.to_string(),
        parent_id: parent.map(|p| p.to_string()),
        content_type: "text/plain".to_string(),
        storage_ptr: format!("s3://bucket/{}", id),
    }
}

fn seeded_store() -> StateMachineStore {
    let mut store = StateMachineStore::new();
    let mut txn = store.begin_transaction();
    txn.put_executor(&executor("e1"));
    txn.put_executor(&executor("e2"));
    txn.put_content(&content("c1", None));
    txn.put_content(&content("c2", Some("c1")));
    txn.commit(&mut store).unwrap();
    store
}

#[test]
fn executors_every_requested_id_appears_exactly_once() {
    let store = seeded_store();
    let reader = StateMachineReader {};
    let got = reader
        .get_executors_from_ids(vec!["e2".to_string(), "e1".to_string()], &store)
        .unwrap();
    assert_eq!(got.len(), 2);
    let mut ids: Vec<String> = got.iter().map(|e| e.id.clone()).collect();
    ids.sort();
    assert_eq!(ids, vec!["e1".to_string(), "e2".to_string()]);
    assert_eq!(got[0].labels, vec!["gpu".to_string(), "west".to_string()]);
}

#[test]
fn executors_any_missing_id_fails_whole_call() {
    let store = seeded_store();
    let reader = StateMachineReader {};
    let err = reader
        .get_executors_from_ids(vec!["e1".to_string(), "e9".to_string()], &store)
        .unwrap_err();
    assert!(matches!(err, StateMachineError::DatabaseError(_)));
    assert_eq!(err.message(), "Executor e9 not found");
}

#[test]
fn content_every_requested_id_appears_exactly_once() {
    let store = seeded_store();
    let reader = StateMachineReader {};
    let got = reader
        .get_content_from_ids(vec!["c1".to_string(), "c2".to_string()], &store)
        .unwrap();
    assert_eq!(got.len(), 2);
    assert_eq!(got[0].id, "c1");
    assert_eq!(got[0].parent_id, None);
    assert_eq!(got[1].id, "c2");
    assert_eq!(got[1].parent_id, Some("c1".to_string()));
}

#[test]
fn content_any_missing_id_fails_whole_call() {
    let store = seeded_store();
    let reader = StateMachineReader {};
    let err = reader
        .get_content_from_ids(vec!["c9".to_string(), "c1".to_string()], &store)
        .unwrap_err();
    assert!(matches!(err, StateMachineError::DatabaseError(_)));
    assert_eq!(err.message(), "Content c9 not found");
}

#[test]
fn executors_empty_request_yields_empty() {
    let store = seeded_store();
    let reader = StateMachineReader {};
    let got = reader.get_executors_from_ids(Vec::new(), &store).unwrap();
    assert!(got.is_empty());
}
