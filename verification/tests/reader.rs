use indexify_core::errors::StateMachineError;
use indexify_core::reader::StateMachineReader;
use indexify_core::records::Task;
use indexify_core::store::{StateMachineColumn, StateMachineStore};

fn task(id: &str) -> Task {
    Task {
        id: id.to_string(),
        executor_id: "exec-1".to_string(),
        extractor_name: "minilm".to_string(),
        status: "pending".to_string(),
        payload_ref: format!("blob/{}", id),
    }
}

fn seeded_store() -> StateMachineStore {
    let mut store = StateMachineStore::new();
    let mut txn = store.begin_transaction();
    txn.put_task(&task("t1"));
    txn.put_task(&task("t2"));
    txn.put_task(&task("t3"));
    txn.put_assignments(
        &"exec-1".to_string(),
        &vec!["t1".to_string(), "t2".to_string(), "t3".to_string()],
    );
    txn.commit(&mut store).unwrap();
    store
}

#[test]
fn no_assignment_entry_yields_empty() {
    let store = StateMachineStore::new();
    let reader = StateMachineReader {};
    let tasks = reader.get_tasks_for_executor("ghost-exec", None, &store).unwrap();
    assert!(tasks.is_empty());
}

#[test]
fn no_assignment_entry_with_limit_yields_empty() {
    let store = seeded_store();
    let reader = StateMachineReader {};
    let tasks = reader.get_tasks_for_executor("other-exec", Some(5), &store).unwrap();
    assert!(tasks.is_empty());
}

#[test]
fn limit_two_returns_first_two_in_order() {
    let store = seeded_store();
    let reader = StateMachineReader {};
    let tasks = reader.get_tasks_for_executor("exec-1", Some(2), &store).unwrap();
    assert_eq!(tasks.len(), 2);
    assert_eq!(tasks[0].id, "t1");
    assert_eq!(tasks[1].id, "t2");
}

#[test]
fn no_limit_returns_all_in_order() {
    let store = seeded_store();
    let reader = StateMachineReader {};
    let tasks = reader.get_tasks_for_executor("exec-1", None, &store).unwrap();
    assert_eq!(tasks.len(), 3);
    assert_eq!(tasks[0].id, "t1");
    assert_eq!(tasks[1].id, "t2");
    assert_eq!(tasks[2].id, "t3");
    assert_eq!(tasks[0].executor_id, "exec-1");
    assert_eq!(tasks[0].payload_ref, "blob/t1");
}

#[test]
fn limit_zero_returns_nothing() {
    let store = seeded_store();
    let reader = StateMachineReader {};
    let tasks = reader.get_tasks_for_executor("exec-1", Some(0), &store).unwrap();
    assert!(tasks.is_empty());
}

#[test]
fn limit_above_length_returns_all() {
    let store = seeded_store();
    let reader = StateMachineReader {};
    let tasks = reader.get_tasks_for_executor("exec-1", Some(10), &store).unwrap();
    assert_eq!(tasks.len(), 3);
}

#[test]
fn missing_task_record_is_database_error_naming_id() {
    let mut store = StateMachineStore::new();
    let mut txn = store.begin_transaction();
    txn.put_task(&task("t1"));
    txn.put_assignments(&"exec-1".to_string(), &vec!["t1".to_string(), "t9".to_string()]);
    txn.commit(&mut store).unwrap();
    let reader = StateMachineReader {};
    let err = reader.get_tasks_for_executor("exec-1", None, &store).unwrap_err();
    assert!(matches!(err, StateMachineError::DatabaseError(_)));
    assert_eq!(err.message(), "Task t9 not found");
}

#[test]
fn corrupt_task_record_is_serialization_error() {
    let mut store = StateMachineStore::new();
    let mut txn = store.begin_transaction();
    txn.put(StateMachineColumn::Tasks, "t1".to_string(), "not canonical".to_string());
    txn.put_assignments(&"exec-1".to_string(), &vec!["t1".to_string()]);
    txn.commit(&mut store).unwrap();
    let reader = StateMachineReader {};
    let err = reader.get_tasks_for_executor("exec-1", None, &store).unwrap_err();
    assert!(matches!(err, StateMachineError::SerializationError(_)));
}

#[test]
fn corrupt_assignment_list_is_serialization_error() {
    let mut store = StateMachineStore::new();
    let mut txn = store.begin_transaction();
    txn.put(
        StateMachineColumn::TaskAssignments,
        "exec-1".to_string(),
        "{broken".to_string(),
    );
    txn.commit(&mut store).unwrap();
    let reader = StateMachineReader {};
    let err = reader.get_tasks_for_executor("exec-1", None, &store).unwrap_err();
    assert!(matches!(err, StateMachineError::SerializationError(_)));
}

#[test]
fn deleted_assignment_entry_yields_empty() {
    let mut store = seeded_store();
    let mut txn = store.begin_transaction();
    txn.delete(StateMachineColumn::TaskAssignments, "exec-1".to_string());
    txn.commit(&mut store).unwrap();
    let reader = StateMachineReader {};
    let tasks = reader.get_tasks_for_executor("exec-1", None, &store).unwrap();
    assert!(tasks.is_empty());
}

#[test]
fn commit_conflict_is_transaction_error_and_store_untouched() {
    let mut store = seeded_store();
    let mut first = store.begin_transaction();
    let mut second = store.begin_transaction();
    first.put_task(&task("t4"));
    second.put_task(&task("t5"));
    first.commit(&mut store).unwrap();
    let err = second.commit(&mut store).unwrap_err();
    assert!(matches!(err, StateMachineError::TransactionError(_)));
    let reader = StateMachineReader {};
    let tasks = reader.get_tasks_for_executor("exec-1", None, &store).unwrap();
    assert_eq!(tasks.len(), 3);
}
