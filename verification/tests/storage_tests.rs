use taskstorage::operation::Operation;
use taskstorage::storage::{InMemoryStorage, StorageError};
use taskstorage::task::{TaskMap, Uuid};

fn task_with(pairs: &[(&str, &str)]) -> TaskMap {
    let mut t = TaskMap::new();
    for (k, v) in pairs {
        t.set(k.to_string(), v.to_string());
    }
    t
}

fn payloads(s: &InMemoryStorage) -> Vec<String> {
    s.operations().iter().map(|op| op.payload().clone()).collect()
}

fn sorted_uuid_values(s: &InMemoryStorage) -> Vec<u128> {
    let mut v: Vec<u128> = s.get_task_uuids().iter().map(|u| u.0).collect();
    v.sort();
    v
}

#[test]
fn new_storage_is_empty() {
    let s = InMemoryStorage::new();
    assert_eq!(s.base_version(), 0);
    assert_eq!(s.operations().len(), 0);
    assert!(s.get_task(&Uuid(1)).is_none());
    assert!(s.get_task_uuids().is_empty());
}

#[test]
fn create_then_get_returns_same_content() {
    let mut s = InMemoryStorage::new();
    let t = task_with(&[("title", "buy milk"), ("status", "pending")]);
    assert!(s.create_task(Uuid(42), t));
    let got = s.get_task(&Uuid(42)).expect("task should be present");
    assert_eq!(got.get(&"title".to_string()), Some(&"buy milk".to_string()));
    assert_eq!(got.get(&"status".to_string()), Some(&"pending".to_string()));
    assert_eq!(got.get(&"missing".to_string()), None);
}

#[test]
fn create_existing_returns_false_and_keeps_task() {
    let mut s = InMemoryStorage::new();
    assert!(s.create_task(Uuid(7), task_with(&[("x", "old")])));
    assert!(!s.create_task(Uuid(7), task_with(&[("x", "new")])));
    let got = s.get_task(&Uuid(7)).expect("task should be present");
    assert_eq!(got.get(&"x".to_string()), Some(&"old".to_string()));
}

#[test]
fn delete_absent_returns_false_and_changes_nothing() {
    let mut s = InMemoryStorage::new();
    assert!(s.create_task(Uuid(1), task_with(&[("a", "1")])));
    assert!(!s.delete_task(&Uuid(2)));
    assert_eq!(sorted_uuid_values(&s), vec![1]);
    assert!(s.get_task(&Uuid(1)).is_some());
}

#[test]
fn delete_present_returns_true_and_removes() {
    let mut s = InMemoryStorage::new();
    assert!(s.create_task(Uuid(1), task_with(&[("a", "1")])));
    assert!(s.delete_task(&Uuid(1)));
    assert!(s.get_task(&Uuid(1)).is_none());
    assert!(s.get_task_uuids().is_empty());
}

#[test]
fn set_task_upserts_regardless_of_presence() {
    let mut s = InMemoryStorage::new();
    s.set_task(Uuid(9), task_with(&[("k", "first")]));
    let got = s.get_task(&Uuid(9)).expect("set on absent uuid inserts");
    assert_eq!(got.get(&"k".to_string()), Some(&"first".to_string()));
    s.set_task(Uuid(9), task_with(&[("k", "second")]));
    let got = s.get_task(&Uuid(9)).expect("set on present uuid replaces");
    assert_eq!(got.get(&"k".to_string()), Some(&"second".to_string()));
    assert_eq!(sorted_uuid_values(&s), vec![9]);
}

#[test]
fn get_task_uuids_lists_each_present_uuid_once() {
    let mut s = InMemoryStorage::new();
    assert!(s.create_task(Uuid(3), TaskMap::new()));
    assert!(s.create_task(Uuid(1), TaskMap::new()));
    s.set_task(Uuid(2), TaskMap::new());
    s.set_task(Uuid(1), task_with(&[("seen", "twice")]));
    assert!(s.delete_task(&Uuid(3)));
    assert!(s.create_task(Uuid(4), TaskMap::new()));
    assert_eq!(sorted_uuid_values(&s), vec![1, 2, 4]);
}

#[test]
fn got_task_is_an_independent_copy() {
    let mut s = InMemoryStorage::new();
    assert!(s.create_task(Uuid(5), task_with(&[("k", "stored")])));
    let mut got = s.get_task(&Uuid(5)).expect("task should be present");
    got.set("k".to_string(), "mutated".to_string());
    let again = s.get_task(&Uuid(5)).expect("task should still be present");
    assert_eq!(again.get(&"k".to_string()), Some(&"stored".to_string()));
}

#[test]
fn create_succeeds_again_after_delete() {
    let mut s = InMemoryStorage::new();
    assert!(s.create_task(Uuid(8), task_with(&[("v", "one")])));
    assert!(s.delete_task(&Uuid(8)));
    assert!(s.create_task(Uuid(8), task_with(&[("v", "two")])));
    let got = s.get_task(&Uuid(8)).expect("task should be present");
    assert_eq!(got.get(&"v".to_string()), Some(&"two".to_string()));
}

#[test]
fn operations_are_returned_in_append_order() {
    let mut s = InMemoryStorage::new();
    s.add_operation(Operation::new("first".to_string()));
    s.add_operation(Operation::new("second".to_string()));
    s.add_operation(Operation::new("third".to_string()));
    assert_eq!(payloads(&s), vec!["first", "second", "third"]);
}

#[test]
fn update_version_replaces_log_and_advances() {
    let mut s = InMemoryStorage::new();
    s.add_operation(Operation::new("pending".to_string()));
    let ops = vec![Operation::new("op2".to_string()), Operation::new("op3".to_string())];
    assert_eq!(s.update_version(1, ops), Ok(()));
    assert_eq!(s.base_version(), 1);
    assert_eq!(payloads(&s), vec!["op2", "op3"]);
}

#[test]
fn local_operations_synced_clears_log_and_advances() {
    let mut s = InMemoryStorage::new();
    s.add_operation(Operation::new("pending".to_string()));
    assert_eq!(s.local_operations_synced(1), Ok(()));
    assert_eq!(s.base_version(), 1);
    assert_eq!(s.operations().len(), 0);
}

#[test]
fn update_version_with_wrong_version_is_refused() {
    let mut s = InMemoryStorage::new();
    s.add_operation(Operation::new("keep me".to_string()));
    for bad in [0u64, 2, 3, u64::MAX] {
        let r = s.update_version(bad, vec![Operation::new("discard".to_string())]);
        assert_eq!(r, Err(StorageError::VersionMismatch));
        assert_eq!(s.base_version(), 0);
        assert_eq!(payloads(&s), vec!["keep me"]);
    }
}

#[test]
fn local_operations_synced_with_wrong_version_is_refused() {
    let mut s = InMemoryStorage::new();
    assert_eq!(s.local_operations_synced(1), Ok(()));
    s.add_operation(Operation::new("keep me".to_string()));
    for bad in [0u64, 1, 3, u64::MAX] {
        assert_eq!(s.local_operations_synced(bad), Err(StorageError::VersionMismatch));
        assert_eq!(s.base_version(), 1);
        assert_eq!(payloads(&s), vec!["keep me"]);
    }
}

#[test]
fn versions_advance_one_at_a_time() {
    let mut s = InMemoryStorage::new();
    assert_eq!(s.local_operations_synced(1), Ok(()));
    assert_eq!(s.update_version(2, vec![]), Ok(()));
    assert_eq!(s.local_operations_synced(3), Ok(()));
    assert_eq!(s.base_version(), 3);
}

#[test]
fn fresh_storage_scenario() {
    let mut s = InMemoryStorage::new();
    assert_eq!(s.base_version(), 0);
    assert_eq!(s.operations().len(), 0);
    assert!(s.create_task(Uuid(0xA), task_with(&[("x", "1")])));
    s.add_operation(Operation::new("op1".to_string()));
    assert_eq!(s.base_version(), 0);
    assert_eq!(payloads(&s), vec!["op1"]);
    assert_eq!(s.local_operations_synced(1), Ok(()));
    assert_eq!(s.base_version(), 1);
    assert_eq!(payloads(&s), Vec::<String>::new());
}

#[test]
fn update_from_version_one_scenario() {
    let mut s = InMemoryStorage::new();
    assert_eq!(s.local_operations_synced(1), Ok(()));
    assert_eq!(s.base_version(), 1);
    let ops = vec![Operation::new("op2".to_string()), Operation::new("op3".to_string())];
    assert_eq!(s.update_version(2, ops), Ok(()));
    assert_eq!(s.base_version(), 2);
    assert_eq!(payloads(&s), vec!["op2", "op3"]);
}
