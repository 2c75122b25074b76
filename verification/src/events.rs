//! Data types shared by the pipelines: pattern kinds, scanned-entry and
//! match records, result aggregates, and the progress events each pipeline
//! emits.

use vstd::prelude::*;

verus! {

/// Pattern matching mode for file search.
#[derive(Debug, Clone, Copy, PartialEq, Eq, Structural)]
pub enum PatternType {
    /// Simple substring matching.
    Simple,
    /// Match by file extension (comma-separated list).
    Extension,
    /// Regular expression matching.
    Regex,
}

/// One file-system entry handed to the search pipeline by the scan phase.
#[derive(Debug, Clone)]
pub struct EntryInfo {
    /// Full path of the entry.
    pub path: String,
    /// File name only.
    pub name: String,
    /// Size in bytes.
    pub size: u64,
    /// Whether the entry is a directory.
    pub is_directory: bool,
}

/// Ghost model of a scanned entry.
pub struct EntryModel {
    pub path: Seq<char>,
    pub name: Seq<char>,
    pub size: u64,
    pub is_directory: bool,
}

impl View for EntryInfo {
    type V = EntryModel;

    open spec fn view(&self) -> EntryModel {
        EntryModel {
            path: self.path@,
            name: self.name@,
            size: self.size,
            is_directory: self.is_directory,
        }
    }
}

/// One matched file, with the character ranges at which the pattern matched.
#[derive(Debug, Clone, PartialEq)]
pub struct FileMatchResult {
    /// Full path to the matched file.
    pub path: String,
    /// File name only.
    pub name: String,
    /// Ranges where the pattern matched (start, end).
    pub match_ranges: Vec<(usize, usize)>,
    /// File size in bytes.
    pub size: u64,
    /// Whether this is a directory.
    pub is_directory: bool,
}

/// Ghost model of a match record.
pub struct MatchModel {
    pub path: Seq<char>,
    pub name: Seq<char>,
    pub ranges: Seq<(usize, usize)>,
    pub size: u64,
    pub is_directory: bool,
}

impl View for FileMatchResult {
    type V = MatchModel;

    open spec fn view(&self) -> MatchModel {
        MatchModel {
            path: self.path@,
            name: self.name@,
            ranges: self.match_ranges@,
            size: self.size,
            is_directory: self.is_directory,
        }
    }
}

/// The models of a sequence of match records.
pub open spec fn match_models(s: Seq<FileMatchResult>) -> Seq<MatchModel> {
    s.map_values(|x: FileMatchResult| x@)
}

/// The models of a sequence of scanned entries.
pub open spec fn entry_models(s: Seq<EntryInfo>) -> Seq<EntryModel> {
    s.map_values(|x: EntryInfo| x@)
}

/// Result of a batch delete operation.
#[derive(Debug, Clone, PartialEq)]
pub struct DeleteResult {
    /// Paths that were successfully deleted.
    pub successful: Vec<String>,
    /// Paths that failed to delete, with error messages.
    pub failed: Vec<(String, String)>,
    /// Empty directories that were cleaned up.
    pub deleted_dirs: Vec<String>,
}

/// Progress events for file search operations.
#[derive(Debug, Clone, PartialEq)]
pub enum SearchProgress {
    /// Search has started.
    Started { base_path: String },
    /// Sent periodically during the scan phase.
    Scanning { current_dir: String, files_found: usize },
    /// The pattern-matching phase has begun.
    Matching { total_files: usize },
    /// Search completed successfully.
    Completed { matches_found: usize },
    /// The operation was cancelled.
    Cancelled,
}

/// Progress events for batch delete operations.
#[derive(Debug, Clone, PartialEq)]
pub enum DeleteProgress {
    /// Deletion has started.
    Started { total_files: usize },
    /// Progress update during deletion (1-based index).
    Progress { current: usize, total: usize, current_path: String },
    /// Deletion completed.
    Completed { successful: usize, failed: usize },
    /// The operation was cancelled.
    Cancelled,
}

/// Progress events for recursive listing operations.
#[derive(Debug, Clone, PartialEq)]
pub enum ListProgress {
    /// Listing has started.
    Started { base_path: String },
    /// Sent periodically during traversal.
    Scanning { current_dir: String, files_found: usize },
    /// Listing completed successfully.
    Completed { total_files: usize },
}

/// Progress events for batch rename operations.
#[derive(Debug, Clone, PartialEq)]
pub enum RenameProgress {
    /// Renaming has started.
    Started { total_files: usize },
    /// Progress update during renaming (1-based index).
    Progress { current: usize, total: usize, current_path: String },
    /// Renaming completed.
    Completed { successful: usize, failed: usize },
}

/// A pushed element extends a vector's deep view by its own deep view.
pub proof fn lemma_deep_view_push<T: DeepView>(pre: Seq<T::V>, v: &Vec<T>)
    requires
        v@.len() > 0,
        pre.len() == v@.len() - 1,
        forall|i: int| 0 <= i < v@.len() - 1 ==> pre[i] == #[trigger] v@[i].deep_view(),
    ensures
        v.deep_view() == pre.push(v@.last().deep_view()),
{
    assert forall|i: int| 0 <= i < v@.len() implies v.deep_view()[i] == pre.push(
        v@.last().deep_view(),
    )[i] by {
        if i < v@.len() - 1 {
            assert(v.deep_view()[i] == v@[i].deep_view());
        } else {
            assert(v.deep_view()[i] == v@.last().deep_view());
        }
    }
    assert(v.deep_view() =~= pre.push(v@.last().deep_view()));
}

/// What the caller driving a pipeline must do next: nothing, attempt to
/// send an interior progress event (a failed send is the disconnection
/// signal), or attempt to send a terminal event (whose delivery failure is
/// ignored — the run is already over).
#[derive(Debug)]
pub enum PipelineStep<E> {
    /// Keep driving the pipeline.
    Continue,
    /// Send this interior event; on failure, abort the run silently.
    Emit(E),
    /// The run is over: send this terminal event, ignoring failure.
    Halt(E),
}

} // verus!
