use task_store::errors::TodoError;
use task_store::storage::FileStorage;
use task_store::tasks::TaskDescription;

#[test]
fn description_keeps_text_untrimmed() {
    let d = TaskDescription::new(String::from("  padded text  ")).unwrap();
    assert_eq!(d.get(), "  padded text  ");
}

#[test]
fn description_rejects_empty_text() {
    assert!(matches!(
        TaskDescription::new(String::from("")),
        Err(TodoError::ValidationError)
    ));
}

#[test]
fn description_rejects_whitespace_only_text() {
    assert!(matches!(
        TaskDescription::new(String::from(" \t\r\n\u{2000}\u{202f}\u{3000}")),
        Err(TodoError::ValidationError)
    ));
}

#[test]
fn description_accepts_single_character_amid_whitespace() {
    let d = TaskDescription::new(String::from("  x  ")).unwrap();
    assert_eq!(d.get(), "  x  ");
}

#[test]
fn error_messages_describe_each_kind() {
    assert_eq!(TodoError::ValidationError.message(), "description cannot be empty");
    assert_eq!(TodoError::NotFoundError.message(), "task not found");
    assert_eq!(TodoError::StorageError.message(), "storage failure");
}

#[test]
fn file_storage_keeps_its_location() {
    let fs = FileStorage::new(String::from("todo.json"));
    assert_eq!(fs.filename, "todo.json");
}
