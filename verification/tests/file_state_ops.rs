//! Tests for the session file-state store.

use simple_tools::FileState;

#[test]
fn test_file_state_set_get() {
    let mut state = FileState::new();
    let files = vec![
        "/path/to/file1.txt".to_string(),
        "/path/to/file2.txt".to_string(),
    ];

    state.set_files(files.clone());
    let result = state.get_files();

    assert_eq!(result, files);
}

#[test]
fn test_file_state_clear() {
    let mut state = FileState::new();
    state.set_files(vec!["file1.txt".to_string()]);
    assert_eq!(state.len(), 1);

    state.clear();
    assert_eq!(state.len(), 0);
    assert!(state.get_files().is_empty());
}

#[test]
fn test_file_state_replace_files() {
    let mut state = FileState::new();
    state.set_files(vec!["old.txt".to_string()]);
    state.set_files(vec!["new1.txt".to_string(), "new2.txt".to_string()]);

    let files = state.get_files();
    assert_eq!(files.len(), 2);
    assert!(files.contains(&"new1.txt".to_string()));
    assert!(files.contains(&"new2.txt".to_string()));
    assert!(!files.contains(&"old.txt".to_string()));
}

#[test]
fn test_file_state_empty_by_default() {
    let state = FileState::new();
    assert!(state.get_files().is_empty());
}

#[test]
fn test_file_state_default_is_empty() {
    let state = FileState::default();
    assert!(state.get_files().is_empty());
}
