//! Batch file-operation core: a cancellation registry and the cancellable,
//! progress-reporting pipelines for pattern search, batch deletion, batch
//! renaming and recursive listing.
//!
//! The registry tracks operation lifecycles (active flags and pre-cancellation
//! tombstones); the pipelines are state machines that make every control
//! decision — cancellation checkpoints, progress emission, result
//! aggregation — while the surrounding binary performs the actual file-system
//! work and event delivery.

pub mod delete;
pub mod diff;
pub mod events;
pub mod file_state;
pub mod matching;
pub mod registry;
pub mod rename;
pub mod search;
pub mod text;

pub use delete::{CleanupStep, DeleteRun, TargetStep};
pub use diff::{
    compute_diff, get_regex_highlights, has_capture_groups, DiffSegment, DiffSegmentType,
    RegexSegment,
};
pub use events::{
    DeleteProgress, DeleteResult, EntryInfo, FileMatchResult, ListProgress, PatternType,
    PipelineStep, RenameProgress, SearchProgress,
};
pub use file_state::FileState;
pub use registry::{CancelledError, OperationGuard, OperationRegistry};
pub use rename::{ListRun, RenameRun};
pub use search::{SearchQuery, SearchRun};
