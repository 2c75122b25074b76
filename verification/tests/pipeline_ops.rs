//! Tests for the streaming pipelines: search (two-phase), delete (with
//! directory cleanup), rename and listing — and for the progress-event
//! types they emit.

use simple_tools::delete::{CleanupStep, DeleteRun, TargetStep};
use simple_tools::events::{
    DeleteProgress, EntryInfo, FileMatchResult, ListProgress, PatternType, PipelineStep,
    RenameProgress, SearchProgress,
};
use simple_tools::rename::{ListRun, RenameRun};
use simple_tools::search::{match_entries_sequential, SearchQuery, SearchRun};

fn entry(path: &str, name: &str) -> EntryInfo {
    EntryInfo {
        path: path.to_string(),
        name: name.to_string(),
        size: 0,
        is_directory: false,
    }
}

/// Drives a search run to its end, cancelling before entry `cancel_at` if
/// given; returns the emitted events and the final result.
fn drive_search(
    pattern: &str,
    pattern_type: PatternType,
    case_sensitive: bool,
    entries: Vec<EntryInfo>,
    cancel_at: Option<usize>,
) -> (Vec<SearchProgress>, Vec<FileMatchResult>) {
    let mut run = SearchRun::new(
        "/base".to_string(),
        pattern.to_string(),
        pattern_type,
        true,
        case_sensitive,
    )
    .unwrap();
    let mut events = vec![run.started_event()];
    for (i, e) in entries.into_iter().enumerate() {
        let cancel = cancel_at == Some(i);
        match run.on_entry(e, cancel) {
            PipelineStep::Continue => {}
            PipelineStep::Emit(ev) => events.push(ev),
            PipelineStep::Halt(ev) => {
                events.push(ev);
                return (events, run.take_result());
            }
        }
    }
    match run.finish_scan(false) {
        PipelineStep::Emit(ev) => events.push(ev),
        PipelineStep::Halt(ev) => {
            events.push(ev);
            return (events, run.take_result());
        }
        PipelineStep::Continue => unreachable!(),
    }
    run.run_matching();
    match run.complete(false) {
        PipelineStep::Halt(ev) => events.push(ev),
        _ => unreachable!(),
    }
    (events, run.take_result())
}

fn test_entries() -> Vec<EntryInfo> {
    vec![
        entry("/base/file1.txt", "file1.txt"),
        entry("/base/file2.txt", "file2.txt"),
        entry("/base/data.log", "data.log"),
        entry("/base/temp.tmp", "temp.tmp"),
    ]
}

// ==================== Search pipeline ====================

/// Simple pattern "file", case-insensitive: two matches, each with the
/// range at the substring position.
#[test]
fn test_search_pipeline_simple_pattern() {
    let (events, results) = drive_search("file", PatternType::Simple, false, test_entries(), None);

    assert_eq!(results.len(), 2);
    assert!(results.iter().all(|r| r.name.contains("file")));
    assert!(results.iter().all(|r| r.match_ranges == vec![(0, 4)]));

    assert_eq!(
        events[0],
        SearchProgress::Started {
            base_path: "/base".to_string()
        }
    );
    assert_eq!(
        events[1],
        SearchProgress::Scanning {
            current_dir: "/base".to_string(),
            files_found: 0
        }
    );
    assert_eq!(events[2], SearchProgress::Matching { total_files: 4 });
    assert_eq!(events[3], SearchProgress::Completed { matches_found: 2 });
    assert_eq!(events.len(), 4);
}

/// Extension pattern ".txt": three matches when nested entries are
/// scanned, two when the traversal stays at the top level.
#[test]
fn test_search_pipeline_extension_pattern() {
    let with_nested = vec![
        entry("/base/a.txt", "a.txt"),
        entry("/base/b.txt", "b.txt"),
        entry("/base/subdir/nested.txt", "nested.txt"),
        entry("/base/data.log", "data.log"),
    ];
    let (_, results) = drive_search(".txt", PatternType::Extension, false, with_nested, None);
    assert_eq!(results.len(), 3);

    let top_only = vec![
        entry("/base/a.txt", "a.txt"),
        entry("/base/b.txt", "b.txt"),
        entry("/base/data.log", "data.log"),
    ];
    let (_, results) = drive_search(".txt", PatternType::Extension, false, top_only, None);
    assert_eq!(results.len(), 2);
}

/// Regex pattern over the scanned names.
#[test]
fn test_search_pipeline_regex_pattern() {
    let (_, results) = drive_search(r"file\d", PatternType::Regex, false, test_entries(), None);
    assert_eq!(results.len(), 2);
}

/// Cancelling mid-scan yields an empty match list and a terminal
/// `Cancelled` event; the partial scan findings are discarded.
#[test]
fn test_search_pipeline_cancel_mid_scan() {
    let (events, results) = drive_search("file", PatternType::Simple, false, test_entries(), Some(2));

    assert!(results.is_empty());
    assert_eq!(events.last().unwrap(), &SearchProgress::Cancelled);
}

/// Cancelling at the final checkpoint discards all matching work.
#[test]
fn test_search_pipeline_cancel_after_matching() {
    let mut run = SearchRun::new(
        "/base".to_string(),
        "file".to_string(),
        PatternType::Simple,
        false,
        false,
    )
    .unwrap();
    for e in test_entries() {
        match run.on_entry(e, false) {
            PipelineStep::Halt(_) => unreachable!(),
            _ => {}
        }
    }
    match run.finish_scan(false) {
        PipelineStep::Emit(_) => {}
        _ => unreachable!(),
    }
    run.run_matching();
    match run.complete(true) {
        PipelineStep::Halt(ev) => assert_eq!(ev, SearchProgress::Cancelled),
        _ => unreachable!(),
    }
    assert!(run.take_result().is_empty());
}

/// A disconnected sink aborts the run silently with an empty result.
#[test]
fn test_search_pipeline_silent_abort() {
    let mut run = SearchRun::new(
        "/base".to_string(),
        "file".to_string(),
        PatternType::Simple,
        false,
        false,
    )
    .unwrap();
    match run.on_entry(entry("/base/file1.txt", "file1.txt"), false) {
        PipelineStep::Emit(_) => {}
        _ => unreachable!(),
    }
    // The send failed: the run ends without a further event.
    run.abort_silent();
    assert!(run.take_result().is_empty());
}

/// The parallel matching phase returns exactly what sequential evaluation
/// of the same predicate over the same entries returns.
#[test]
fn test_search_parallel_equals_sequential() {
    let mut entries = Vec::new();
    for i in 0..250 {
        entries.push(entry(
            &format!("/base/file{:04}.txt", i),
            &format!("file{:04}.txt", i),
        ));
        if i % 5 == 0 {
            entries.push(entry(
                &format!("/base/data{:04}.log", i),
                &format!("data{:04}.log", i),
            ));
        }
    }

    let query = SearchQuery::new(
        "/base".to_string(),
        "file".to_string(),
        PatternType::Simple,
        true,
        false,
    )
    .unwrap();
    let sequential = match_entries_sequential(&entries, &query);

    let (_, parallel) = drive_search("file", PatternType::Simple, false, entries, None);

    assert_eq!(parallel, sequential);
}

/// An empty (or all-whitespace) pattern is rejected before any traversal.
#[test]
fn test_search_empty_pattern_rejected() {
    let r = SearchRun::new(
        "/base".to_string(),
        "".to_string(),
        PatternType::Simple,
        false,
        false,
    );
    assert_eq!(r.err().unwrap(), "Pattern cannot be empty");

    let r = SearchRun::new(
        "/base".to_string(),
        "   ".to_string(),
        PatternType::Simple,
        false,
        false,
    );
    assert_eq!(r.err().unwrap(), "Pattern cannot be empty");
}

/// A malformed regex is fatal before phase 1.
#[test]
fn test_search_invalid_regex_rejected() {
    let r = SearchRun::new(
        "/base".to_string(),
        "[invalid".to_string(),
        PatternType::Regex,
        false,
        false,
    );
    assert!(r.is_err());
}

// ==================== Delete pipeline ====================

/// Drives a delete run: `fails` marks targets whose deletion fails,
/// `cancel_at` cancels before that target index.
fn drive_delete(
    files: Vec<&str>,
    delete_empty_dirs: bool,
    fails: Vec<&str>,
    cancel_at: Option<usize>,
) -> (Vec<DeleteProgress>, simple_tools::events::DeleteResult) {
    let files: Vec<String> = files.into_iter().map(|s| s.to_string()).collect();
    let mut run = DeleteRun::new(files, delete_empty_dirs);
    let mut events = vec![run.started_event()];
    let mut i = 0;
    loop {
        let cancel = cancel_at == Some(i);
        match run.next_target(cancel) {
            TargetStep::Finished => break,
            TargetStep::Cancelled(ev) => {
                events.push(ev);
                return (events, run.take_result());
            }
            TargetStep::Target(path) => {
                let ok = !fails.contains(&path.as_str());
                let err = if ok {
                    String::new()
                } else {
                    "permission denied".to_string()
                };
                events.push(run.record_outcome(ok, err));
            }
        }
        i += 1;
    }
    run.begin_cleanup(false);
    loop {
        match run.next_cleanup_dir(false) {
            CleanupStep::Finished => break,
            CleanupStep::Cancelled(ev) => {
                events.push(ev);
                return (events, run.take_result());
            }
            CleanupStep::Dir(_) => {
                // Pretend every candidate directory is empty and removable.
                run.record_cleanup(true);
            }
        }
    }
    events.push(run.complete());
    (events, run.take_result())
}

#[test]
fn test_delete_pipeline_all_success() {
    let (events, result) = drive_delete(vec!["/d/a.txt", "/d/b.txt"], false, vec![], None);

    assert_eq!(result.successful, vec!["/d/a.txt", "/d/b.txt"]);
    assert!(result.failed.is_empty());
    assert!(result.deleted_dirs.is_empty());

    assert_eq!(events[0], DeleteProgress::Started { total_files: 2 });
    assert_eq!(
        events[1],
        DeleteProgress::Progress {
            current: 1,
            total: 2,
            current_path: "/d/a.txt".to_string()
        }
    );
    assert_eq!(
        events[2],
        DeleteProgress::Progress {
            current: 2,
            total: 2,
            current_path: "/d/b.txt".to_string()
        }
    );
    assert_eq!(
        events[3],
        DeleteProgress::Completed {
            successful: 2,
            failed: 0
        }
    );
}

#[test]
fn test_delete_pipeline_partial_failure() {
    let (events, result) = drive_delete(
        vec!["/d/a.txt", "/d/missing.txt"],
        false,
        vec!["/d/missing.txt"],
        None,
    );

    assert_eq!(result.successful, vec!["/d/a.txt"]);
    assert_eq!(result.failed.len(), 1);
    assert_eq!(result.failed[0].0, "/d/missing.txt");
    assert_eq!(result.failed[0].1, "permission denied");
    assert_eq!(
        events.last().unwrap(),
        &DeleteProgress::Completed {
            successful: 1,
            failed: 1
        }
    );
}

/// Cancelling mid-delete keeps the successes and failures accumulated so
/// far and ends with a terminal `Cancelled` event.
#[test]
fn test_delete_pipeline_cancel_keeps_partial() {
    let (events, result) = drive_delete(
        vec!["/d/a.txt", "/d/b.txt", "/d/c.txt"],
        false,
        vec![],
        Some(2),
    );

    assert_eq!(result.successful, vec!["/d/a.txt", "/d/b.txt"]);
    assert!(result.failed.is_empty());
    assert_eq!(events.last().unwrap(), &DeleteProgress::Cancelled);
}

/// With cleanup enabled, nested parent directories are removed deepest
/// first and reported in that order.
#[test]
fn test_delete_pipeline_cleanup_deepest_first() {
    let (_, result) = drive_delete(
        vec!["a/b/c/f1.txt", "a/b/f2.txt", "a/f3.txt"],
        true,
        vec![],
        None,
    );

    assert_eq!(result.deleted_dirs, vec!["a/b/c", "a/b", "a"]);
}

/// Deleting a single nested file with cleanup enabled removes (and
/// reports) its now-empty parent directory.
#[test]
fn test_delete_pipeline_nested_single_file_cleanup() {
    let (_, result) = drive_delete(vec!["sub/nested.txt", ], true, vec![], None);

    assert_eq!(result.successful, vec!["sub/nested.txt"]);
    assert_eq!(result.deleted_dirs, vec!["sub"]);
    assert_eq!(result.deleted_dirs.len(), 1);
}

#[test]
fn test_delete_pipeline_empty_list() {
    let (events, result) = drive_delete(vec![], false, vec![], None);

    assert!(result.successful.is_empty());
    assert!(result.failed.is_empty());
    assert!(result.deleted_dirs.is_empty());
    assert_eq!(
        events.last().unwrap(),
        &DeleteProgress::Completed {
            successful: 0,
            failed: 0
        }
    );
}

/// Duplicate parents are tracked once.
#[test]
fn test_delete_pipeline_parent_tracked_once() {
    let (_, result) = drive_delete(vec!["d/x.txt", "d/y.txt"], true, vec![], None);
    assert_eq!(result.deleted_dirs, vec!["d"]);
}

/// A cancellation observed exactly at the cleanup gate skips cleanup but
/// still completes normally.
#[test]
fn test_delete_pipeline_cancel_at_gate_skips_cleanup() {
    let mut run = DeleteRun::new(vec!["d/x.txt".to_string()], true);
    match run.next_target(false) {
        TargetStep::Target(_) => {
            run.record_outcome(true, String::new());
        }
        _ => unreachable!(),
    }
    match run.next_target(false) {
        TargetStep::Finished => {}
        _ => unreachable!(),
    }
    run.begin_cleanup(true);
    let ev = run.complete();
    assert_eq!(
        ev,
        DeleteProgress::Completed {
            successful: 1,
            failed: 0
        }
    );
    let result = run.take_result();
    assert!(result.deleted_dirs.is_empty());
    assert_eq!(result.successful.len(), 1);
}

/// A disconnected sink ends the run silently, keeping the partial result.
#[test]
fn test_delete_pipeline_silent_abort_keeps_partial() {
    let mut run = DeleteRun::new(vec!["a.txt".to_string(), "b.txt".to_string()], false);
    match run.next_target(false) {
        TargetStep::Target(_) => {
            run.record_outcome(true, String::new());
        }
        _ => unreachable!(),
    }
    run.abort_silent();
    let result = run.take_result();
    assert_eq!(result.successful, vec!["a.txt"]);
}

// ==================== Rename pipeline ====================

fn drive_rename(
    pairs: Vec<(&str, &str)>,
    fails: Vec<&str>,
) -> (Vec<RenameProgress>, Result<Vec<String>, String>) {
    let pairs: Vec<(String, String)> = pairs
        .into_iter()
        .map(|(a, b)| (a.to_string(), b.to_string()))
        .collect();
    let mut run = RenameRun::new(pairs);
    let mut events = vec![run.started_event()];
    while let Some((old_path, _new_path)) = run.next_pair() {
        let ok = !fails.contains(&old_path.as_str());
        let err = if ok {
            String::new()
        } else {
            "No such file or directory".to_string()
        };
        events.push(run.record_rename(ok, err));
    }
    events.push(run.complete());
    (events, run.take_result())
}

#[test]
fn test_rename_pipeline_success() {
    let (events, result) = drive_rename(
        vec![("old1.txt", "new1.txt"), ("old2.txt", "new2.txt")],
        vec![],
    );

    let renamed = result.unwrap();
    assert_eq!(renamed, vec!["new1.txt", "new2.txt"]);
    assert_eq!(events[0], RenameProgress::Started { total_files: 2 });
    assert_eq!(
        events.last().unwrap(),
        &RenameProgress::Completed {
            successful: 2,
            failed: 0
        }
    );
}

#[test]
fn test_rename_pipeline_empty_list() {
    let (_, result) = drive_rename(vec![], vec![]);
    assert!(result.unwrap().is_empty());
}

#[test]
fn test_rename_pipeline_failure_collects_errors() {
    let (_, result) = drive_rename(vec![("missing.txt", "renamed.txt")], vec!["missing.txt"]);

    let error = result.unwrap_err();
    assert_eq!(
        error,
        "Failed to rename missing.txt: No such file or directory"
    );
}

#[test]
fn test_rename_pipeline_partial_failure() {
    let (events, result) = drive_rename(
        vec![("a.txt", "a2.txt"), ("missing.txt", "m2.txt")],
        vec!["missing.txt"],
    );

    let error = result.unwrap_err();
    assert!(error.contains("Failed to rename"));
    assert_eq!(
        events.last().unwrap(),
        &RenameProgress::Completed {
            successful: 1,
            failed: 1
        }
    );
}

#[test]
fn test_rename_pipeline_joins_errors_with_newlines() {
    let (_, result) = drive_rename(
        vec![("x.txt", "x2.txt"), ("y.txt", "y2.txt")],
        vec!["x.txt", "y.txt"],
    );

    let error = result.unwrap_err();
    assert_eq!(
        error,
        "Failed to rename x.txt: No such file or directory\nFailed to rename y.txt: No such file or directory"
    );
}

// ==================== List pipeline ====================

#[test]
fn test_list_pipeline_collects_paths() {
    let mut run = ListRun::new("/base".to_string());
    assert_eq!(
        run.started_event(),
        ListProgress::Started {
            base_path: "/base".to_string()
        }
    );
    assert!(run.on_file("/base/a.txt".to_string()).is_none());
    assert!(run.on_file("/base/b.txt".to_string()).is_none());
    assert!(run.on_file("/base/sub/c.txt".to_string()).is_none());
    let ev = run.complete();
    assert_eq!(ev, ListProgress::Completed { total_files: 3 });
    let files = run.take_result();
    assert_eq!(files, vec!["/base/a.txt", "/base/b.txt", "/base/sub/c.txt"]);
}

/// A `Scanning` event is produced at the progress interval when a new
/// directory has been entered.
#[test]
fn test_list_pipeline_progress_interval() {
    let mut run = ListRun::new("/base".to_string());
    let mut scanning_events = Vec::new();
    for i in 0..100 {
        let dir = if i < 50 { "/base/one" } else { "/base/two" };
        if let Some(ev) = run.on_file(format!("{}/f{}.txt", dir, i)) {
            scanning_events.push(ev);
        }
    }
    assert_eq!(
        scanning_events,
        vec![
            ListProgress::Scanning {
                current_dir: "/base/one".to_string(),
                files_found: 50
            },
            ListProgress::Scanning {
                current_dir: "/base/two".to_string(),
                files_found: 100
            },
        ]
    );
}

// ==================== Progress event types ====================

/// Tests that ListProgress can be cloned.
#[test]
fn test_list_progress_clone() {
    let original = ListProgress::Scanning {
        current_dir: "/test".to_string(),
        files_found: 100,
    };
    let cloned = original.clone();
    if let (
        ListProgress::Scanning {
            current_dir: dir1,
            files_found: count1,
        },
        ListProgress::Scanning {
            current_dir: dir2,
            files_found: count2,
        },
    ) = (original, cloned)
    {
        assert_eq!(dir1, dir2);
        assert_eq!(count1, count2);
    } else {
        panic!("Expected Scanning variants");
    }
}

/// Tests that RenameProgress can be cloned.
#[test]
fn test_rename_progress_clone() {
    let original = RenameProgress::Progress {
        current: 5,
        total: 10,
        current_path: "/test.txt".to_string(),
    };
    let cloned = original.clone();
    if let (
        RenameProgress::Progress {
            current: c1,
            total: t1,
            current_path: p1,
        },
        RenameProgress::Progress {
            current: c2,
            total: t2,
            current_path: p2,
        },
    ) = (original, cloned)
    {
        assert_eq!(c1, c2);
        assert_eq!(t1, t2);
        assert_eq!(p1, p2);
    } else {
        panic!("Expected Progress variants");
    }
}

/// Tests that SearchProgress can be cloned.
#[test]
fn test_search_progress_clone() {
    let original = SearchProgress::Scanning {
        current_dir: "/test".to_string(),
        files_found: 100,
    };
    let cloned = original.clone();
    assert_eq!(original, cloned);
}

/// Tests that DeleteProgress can be cloned.
#[test]
fn test_delete_progress_clone() {
    let original = DeleteProgress::Progress {
        current: 5,
        total: 10,
        current_path: "/test.txt".to_string(),
    };
    let cloned = original.clone();
    assert_eq!(original, cloned);
}

/// Tests that SearchProgress implements Debug.
#[test]
fn test_search_progress_debug() {
    let progress = SearchProgress::Completed { matches_found: 42 };
    let debug_str = format!("{:?}", progress);
    assert!(debug_str.contains("Completed"));
    assert!(debug_str.contains("42"));
}

/// Tests that DeleteProgress implements Debug.
#[test]
fn test_delete_progress_debug() {
    let progress = DeleteProgress::Started { total_files: 100 };
    let debug_str = format!("{:?}", progress);
    assert!(debug_str.contains("Started"));
    assert!(debug_str.contains("100"));
}

/// Tests that ListProgress implements Debug.
#[test]
fn test_list_progress_debug() {
    let progress = ListProgress::Completed { total_files: 42 };
    let debug_str = format!("{:?}", progress);
    assert!(debug_str.contains("Completed"));
    assert!(debug_str.contains("42"));
}

/// Tests that RenameProgress implements Debug.
#[test]
fn test_rename_progress_debug() {
    let progress = RenameProgress::Started { total_files: 100 };
    let debug_str = format!("{:?}", progress);
    assert!(debug_str.contains("Started"));
    assert!(debug_str.contains("100"));
}

/// Tests that SearchProgress::Cancelled can be cloned.
#[test]
fn test_search_progress_cancelled_clone() {
    let original = SearchProgress::Cancelled;
    let cloned = original.clone();
    assert_eq!(original, cloned);
}

/// Tests that DeleteProgress::Cancelled can be cloned.
#[test]
fn test_delete_progress_cancelled_clone() {
    let original = DeleteProgress::Cancelled;
    let cloned = original.clone();
    assert_eq!(original, cloned);
}

/// Tests SearchProgress::Cancelled debug output.
#[test]
fn test_search_progress_cancelled_debug() {
    let progress = SearchProgress::Cancelled;
    let debug_str = format!("{:?}", progress);
    assert!(debug_str.contains("Cancelled"));
}

/// Tests DeleteProgress::Cancelled debug output.
#[test]
fn test_delete_progress_cancelled_debug() {
    let progress = DeleteProgress::Cancelled;
    let debug_str = format!("{:?}", progress);
    assert!(debug_str.contains("Cancelled"));
}
