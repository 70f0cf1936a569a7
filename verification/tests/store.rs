use indexify_core::store::{StateMachineColumn, StateMachineStore};

#[test]
fn writes_are_invisible_until_commit() {
    let mut store = StateMachineStore::new();
    let mut txn = store.begin_transaction();
    txn.put(
        StateMachineColumn::Tasks,
        "k".to_string(),
        "v".to_string(),
    );
    // Reads see the transaction's snapshot, taken before the write.
    assert!(txn.get(StateMachineColumn::Tasks, &"k".to_string()).is_none());
    // Other transactions see nothing either before the commit.
    let probe = store.begin_transaction();
    assert!(probe.get(StateMachineColumn::Tasks, &"k".to_string()).is_none());
    txn.commit(&mut store).unwrap();
    let after = store.begin_transaction();
    assert_eq!(
        after.get(StateMachineColumn::Tasks, &"k".to_string()).unwrap(),
        "v"
    );
}

#[test]
fn last_committed_write_wins_and_delete_removes() {
    let mut store = StateMachineStore::new();
    let mut txn = store.begin_transaction();
    txn.put(StateMachineColumn::Executors, "k".to_string(), "v1".to_string());
    txn.put(StateMachineColumn::Executors, "k".to_string(), "v2".to_string());
    txn.commit(&mut store).unwrap();
    let read = store.begin_transaction();
    assert_eq!(
        read.get(StateMachineColumn::Executors, &"k".to_string()).unwrap(),
        "v2"
    );
    let mut txn = store.begin_transaction();
    txn.delete(StateMachineColumn::Executors, "k".to_string());
    txn.commit(&mut store).unwrap();
    let read = store.begin_transaction();
    assert!(read.get(StateMachineColumn::Executors, &"k".to_string()).is_none());
}

#[test]
fn column_families_are_disjoint_namespaces() {
    let mut store = StateMachineStore::new();
    let mut txn = store.begin_transaction();
    txn.put(StateMachineColumn::Tasks, "k".to_string(), "task".to_string());
    txn.put(StateMachineColumn::ContentTable, "k".to_string(), "content".to_string());
    txn.commit(&mut store).unwrap();
    let read = store.begin_transaction();
    assert_eq!(read.get(StateMachineColumn::Tasks, &"k".to_string()).unwrap(), "task");
    assert_eq!(
        read.get(StateMachineColumn::ContentTable, &"k".to_string()).unwrap(),
        "content"
    );
    assert!(read.get(StateMachineColumn::Executors, &"k".to_string()).is_none());
}

#[test]
fn each_commit_bumps_the_version() {
    let mut store = StateMachineStore::new();
    assert_eq!(store.version, 0);
    let txn = store.begin_transaction();
    txn.commit(&mut store).unwrap();
    assert_eq!(store.version, 1);
    let txn = store.begin_transaction();
    txn.commit(&mut store).unwrap();
    assert_eq!(store.version, 2);
}
