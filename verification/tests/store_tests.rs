use task_store::errors::TodoError;
use task_store::storage::{MemoryStorage, Storage};
use task_store::store::TodoList;
use task_store::tasks::{Task, TaskDescription, TaskId};

fn make_task(id: usize, text: &str, completed: bool) -> Task {
    Task { id: TaskId(id), description: TaskDescription(String::from(text)), completed }
}

fn fresh_store() -> TodoList<MemoryStorage> {
    TodoList::new(MemoryStorage::new()).expect("a fresh in-memory store must build")
}

#[test]
fn first_run_is_empty_not_an_error() {
    let store = fresh_store();
    assert!(store.list_tasks().is_empty());
}

#[test]
fn first_add_returns_one() {
    let mut store = fresh_store();
    assert_eq!(store.add_task(String::from("buy milk")), Ok(1));
}

#[test]
fn add_empty_description_fails_validation() {
    let mut store = fresh_store();
    assert_eq!(store.add_task(String::from("")), Err(TodoError::ValidationError));
    assert!(store.list_tasks().is_empty());
}

#[test]
fn add_blank_description_fails_validation() {
    let mut store = fresh_store();
    assert_eq!(store.add_task(String::from("   ")), Err(TodoError::ValidationError));
    assert!(store.list_tasks().is_empty());
}

#[test]
fn add_unicode_whitespace_fails_validation() {
    let mut store = fresh_store();
    assert_eq!(
        store.add_task(String::from("\u{2003}\u{00a0}\t\n\u{3000}")),
        Err(TodoError::ValidationError)
    );
    assert!(store.list_tasks().is_empty());
}

#[test]
fn rejected_add_leaves_counter_unchanged() {
    let mut store = fresh_store();
    assert_eq!(store.add_task(String::from("  ")), Err(TodoError::ValidationError));
    assert_eq!(store.add_task(String::from("first real task")), Ok(1));
}

#[test]
fn complete_missing_id_fails_not_found() {
    let mut store = fresh_store();
    assert_eq!(store.complete_task(999), Err(TodoError::NotFoundError));
    store.add_task(String::from("present")).unwrap();
    assert_eq!(store.complete_task(999), Err(TodoError::NotFoundError));
    let tasks = store.list_tasks();
    assert_eq!(tasks.len(), 1);
    assert!(!tasks[0].completed);
}

#[test]
fn delete_missing_id_fails_not_found() {
    let mut store = fresh_store();
    assert_eq!(store.delete_task(999), Err(TodoError::NotFoundError));
    store.add_task(String::from("present")).unwrap();
    assert_eq!(store.delete_task(999), Err(TodoError::NotFoundError));
    assert_eq!(store.list_tasks().len(), 1);
}

#[test]
fn complete_marks_task_completed() {
    let mut store = fresh_store();
    let id = store.add_task(String::from("wash up")).unwrap();
    assert_eq!(store.complete_task(id), Ok(()));
    let tasks = store.list_tasks();
    assert!(tasks[0].completed);
}

#[test]
fn complete_twice_is_idempotent() {
    let mut store = fresh_store();
    let id = store.add_task(String::from("wash up")).unwrap();
    assert_eq!(store.complete_task(id), Ok(()));
    assert_eq!(store.complete_task(id), Ok(()));
    let tasks = store.list_tasks();
    assert_eq!(tasks.len(), 1);
    assert!(tasks[0].completed);
}

#[test]
fn ids_increase_across_adds_and_deletes() {
    let mut store = fresh_store();
    let a = store.add_task(String::from("one")).unwrap();
    let b = store.add_task(String::from("two")).unwrap();
    assert!(b > a);
    store.delete_task(b).unwrap();
    let c = store.add_task(String::from("three")).unwrap();
    assert!(c > b);
}

#[test]
fn deleted_id_is_never_reissued() {
    let mut store = fresh_store();
    let k = store.add_task(String::from("doomed")).unwrap();
    store.delete_task(k).unwrap();
    for text in ["a", "b", "c", "d"] {
        let id = store.add_task(String::from(text)).unwrap();
        assert_ne!(id, k);
    }
}

#[test]
fn save_then_load_round_trips() {
    let mut store = fresh_store();
    store.add_task(String::from("keep me")).unwrap();
    let done = store.add_task(String::from("done already")).unwrap();
    store.complete_task(done).unwrap();
    let reloaded = TodoList::new(store.storage).expect("saved contents must load");
    let before = store.tasks;
    let after = reloaded.list_tasks();
    assert_eq!(before.len(), after.len());
    for (b, a) in before.iter().zip(after.iter()) {
        assert_eq!(b.id.0, a.id.0);
        assert_eq!(b.description.get(), a.description.get());
        assert_eq!(b.completed, a.completed);
    }
}

#[test]
fn provider_save_then_load_reproduces_collection() {
    let mut provider = MemoryStorage::new();
    let tasks = vec![make_task(1, "first", false), make_task(2, "second", true)];
    provider.save(&tasks).unwrap();
    let loaded = provider.load().unwrap();
    assert_eq!(loaded.len(), tasks.len());
    for (saved, back) in tasks.iter().zip(loaded.iter()) {
        assert_eq!(saved.id.0, back.id.0);
        assert_eq!(saved.description.get(), back.description.get());
        assert_eq!(saved.completed, back.completed);
    }
}

#[test]
fn listing_sorts_by_id_whatever_the_stored_order() {
    let provider = MemoryStorage::from_tasks(vec![
        make_task(3, "third", false),
        make_task(1, "first", true),
        make_task(2, "second", false),
    ]);
    let store = TodoList::new(provider).unwrap();
    let tasks = store.list_tasks();
    let ids: Vec<usize> = tasks.iter().map(|t| t.id.0).collect();
    assert_eq!(ids, vec![1, 2, 3]);
    assert_eq!(tasks[0].description.get(), "first");
    assert!(tasks[0].completed);
}

#[test]
fn counter_resumes_after_greatest_stored_id() {
    let provider = MemoryStorage::from_tasks(vec![
        make_task(5, "high", false),
        make_task(2, "low", false),
    ]);
    let mut store = TodoList::new(provider).unwrap();
    assert_eq!(store.add_task(String::from("next")), Ok(6));
}

#[test]
fn duplicate_stored_ids_are_rejected() {
    let provider = MemoryStorage::from_tasks(vec![
        make_task(1, "one copy", false),
        make_task(1, "another copy", false),
    ]);
    assert!(matches!(TodoList::new(provider), Err(TodoError::StorageError)));
}

#[test]
fn zero_stored_id_is_rejected() {
    let provider = MemoryStorage::from_tasks(vec![make_task(0, "bad id", false)]);
    assert!(matches!(TodoList::new(provider), Err(TodoError::StorageError)));
}

#[test]
fn overflowing_stored_id_is_rejected() {
    let provider = MemoryStorage::from_tasks(vec![make_task(usize::MAX, "too big", false)]);
    assert!(matches!(TodoList::new(provider), Err(TodoError::StorageError)));
}

#[test]
fn failed_save_reports_storage_error_and_rolls_back() {
    let mut store = fresh_store();
    store.add_task(String::from("kept")).unwrap();
    store.storage.set_fail_saves(true);
    assert_eq!(store.add_task(String::from("lost")), Err(TodoError::StorageError));
    assert_eq!(store.complete_task(1), Err(TodoError::StorageError));
    assert_eq!(store.delete_task(1), Err(TodoError::StorageError));
    let tasks = store.list_tasks();
    assert_eq!(tasks.len(), 1);
    assert_eq!(tasks[0].description.get(), "kept");
    assert!(!tasks[0].completed);
    store.storage.set_fail_saves(false);
    assert_eq!(store.add_task(String::from("counter intact")), Ok(2));
}

#[test]
fn save_writes_current_collection() {
    let mut store = fresh_store();
    store.add_task(String::from("persist me")).unwrap();
    assert_eq!(store.save(), Ok(()));
    store.storage.set_fail_saves(true);
    assert_eq!(store.save(), Err(TodoError::StorageError));
}

#[test]
fn end_to_end_scenario() {
    let mut store = fresh_store();
    assert_eq!(store.add_task(String::from("buy milk")), Ok(1));
    assert_eq!(store.add_task(String::from("walk dog")), Ok(2));
    assert_eq!(store.delete_task(1), Ok(()));
    assert_eq!(store.add_task(String::from("pay bills")), Ok(3));
    let tasks = store.list_tasks();
    assert_eq!(tasks.len(), 2);
    assert_eq!(tasks[0].id.0, 2);
    assert_eq!(tasks[0].description.get(), "walk dog");
    assert!(!tasks[0].completed);
    assert_eq!(tasks[1].id.0, 3);
    assert_eq!(tasks[1].description.get(), "pay bills");
    assert!(!tasks[1].completed);
}
