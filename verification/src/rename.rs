//! The single-phase streaming pipelines: batch renaming over a caller-
//! supplied pair list, and recursive listing. These variants carry no
//! cancellation flag; their progress events are delivered best-effort.

use vstd::prelude::*;
use vstd::string::StringExecFns;

use crate::events::{ListProgress, RenameProgress};
use crate::text::{parent_dir, parent_dir_spec};

verus! {

/// How many listed files lie between two list-progress checkpoints.
pub const LIST_PROGRESS_INTERVAL: usize = 50;

/// The error line recorded for one failed rename.
pub open spec fn rename_error_line(old_path: Seq<char>, err: Seq<char>) -> Seq<char> {
    "Failed to rename "@ + old_path + ": "@ + err
}

/// The newline-joined form of the collected error lines.
pub open spec fn joined_lines(lines: Seq<Seq<char>>) -> Seq<char>
    decreases lines.len(),
{
    if lines.len() == 0 {
        Seq::empty()
    } else if lines.len() == 1 {
        lines[0]
    } else {
        joined_lines(lines.drop_last()) + "\n"@ + lines.last()
    }
}

/// Phases of a rename run.
#[derive(Debug, Clone, Copy, PartialEq, Eq, Structural)]
pub enum RenamePhase {
    /// Iterating the rename pairs.
    Renaming,
    /// A pair has been handed out; its outcome is pending.
    Acting,
    /// Ready to emit the completion event.
    Completing,
    /// The run is over.
    Done,
}

/// One batch-rename operation over (old path, new path) pairs.
#[derive(Debug)]
pub struct RenameRun {
    files: Vec<(String, String)>,
    idx: usize,
    renamed: Vec<String>,
    errors: Vec<String>,
    phase: RenamePhase,
}

impl RenameRun {
    /// The run's phase.
    pub closed spec fn state(&self) -> RenamePhase {
        self.phase
    }

    /// The (old, new) path pairs.
    pub closed spec fn pairs(&self) -> Seq<(Seq<char>, Seq<char>)> {
        self.files.deep_view()
    }

    /// Index of the next unprocessed pair.
    pub closed spec fn pos(&self) -> int {
        self.idx as int
    }

    /// New paths of the renames that succeeded, in order.
    pub closed spec fn renamed_list(&self) -> Seq<Seq<char>> {
        self.renamed.deep_view()
    }

    /// Error lines of the renames that failed, in order.
    pub closed spec fn error_list(&self) -> Seq<Seq<char>> {
        self.errors.deep_view()
    }

    /// Invariant: the index stays in range.
    pub closed spec fn wf(&self) -> bool {
        &&& self.idx <= self.files.len()
        &&& (self.phase is Acting ==> self.idx < self.files.len())
    }

    /// Starts a batch-rename run over `files`.
    pub fn new(files: Vec<(String, String)>) -> (r: RenameRun)
        ensures
            r.wf(),
            r.state() is Renaming,
            r.pairs() == files.deep_view(),
            r.pos() == 0,
            r.renamed_list().len() == 0,
            r.error_list().len() == 0,
    {
        let r = RenameRun {
            files,
            idx: 0,
            renamed: Vec::new(),
            errors: Vec::new(),
            phase: RenamePhase::Renaming,
        };
        proof {
            assert(r.renamed.deep_view() =~= Seq::<Seq<char>>::empty());
            assert(r.errors.deep_view() =~= Seq::<Seq<char>>::empty());
        }
        r
    }

    /// The event that opens the run's progress stream.
    pub fn started_event(&self) -> (r: RenameProgress)
        ensures
            r matches RenameProgress::Started { total_files } && total_files == self.pairs().len(),
    {
        RenameProgress::Started { total_files: self.files.len() }
    }

    /// Hands out the next pair to rename, or `None` once every pair has
    /// been processed.
    pub fn next_pair(&mut self) -> (r: Option<(String, String)>)
        requires
            old(self).wf(),
            old(self).state() is Renaming,
        ensures
            final(self).wf(),
            final(self).pairs() == old(self).pairs(),
            final(self).pos() == old(self).pos(),
            final(self).renamed_list() == old(self).renamed_list(),
            final(self).error_list() == old(self).error_list(),
            if old(self).pos() == old(self).pairs().len() {
                (r is None) && final(self).state() is Completing
            } else {
                &&& r matches Some(p) && p.0@ == old(self).pairs()[old(self).pos()].0 && p.1@
                    == old(self).pairs()[old(self).pos()].1
                &&& final(self).state() is Acting
            },
    {
        if self.idx == self.files.len() {
            self.phase = RenamePhase::Completing;
            return None;
        }
        self.phase = RenamePhase::Acting;
        let pair_ref = &self.files[self.idx];
        let old_path = pair_ref.0.clone();
        let new_path = pair_ref.1.clone();
        proof {
            assert(self.files.deep_view()[self.idx as int] == self.files@[self.idx as int].deep_view());
        }
        Some((old_path, new_path))
    }

    /// Records the outcome of the pending pair's rename attempt and returns
    /// the progress event for it: a success stores the new path, a failure
    /// stores an error line naming the old path and the reported error.
    pub fn record_rename(&mut self, ok: bool, io_error: String) -> (ev: RenameProgress)
        requires
            old(self).wf(),
            old(self).state() is Acting,
        ensures
            final(self).wf(),
            final(self).state() is Renaming,
            final(self).pairs() == old(self).pairs(),
            final(self).pos() == old(self).pos() + 1,
            ok ==> final(self).renamed_list() == old(self).renamed_list().push(
                old(self).pairs()[old(self).pos()].1,
            ) && final(self).error_list() == old(self).error_list(),
            !ok ==> final(self).error_list() == old(self).error_list().push(
                rename_error_line(old(self).pairs()[old(self).pos()].0, io_error@),
            ) && final(self).renamed_list() == old(self).renamed_list(),
            ev matches RenameProgress::Progress { current, total, current_path } && current == old(
                self,
            ).pos() + 1 && total == old(self).pairs().len() && current_path@ == old(self).pairs()[
                old(self).pos()
            ].1,
    {
        let pair_ref = &self.files[self.idx];
        let old_path = pair_ref.0.clone();
        let new_path = pair_ref.1.clone();
        proof {
            assert(self.files.deep_view()[self.idx as int] == self.files@[self.idx as int].deep_view());
        }
        if ok {
            let ghost pre = self.renamed.deep_view();
            self.renamed.push(new_path.clone());
            proof {
                assert forall|u: int| 0 <= u < self.renamed@.len() - 1 implies pre[u]
                    == #[trigger] self.renamed@[u].deep_view() by {}
                crate::events::lemma_deep_view_push(pre, &self.renamed);
            }
        } else {
            let line = String::from_str("Failed to rename ").concat(old_path.as_str()).concat(
                ": ",
            ).concat(io_error.as_str());
            proof {
                assert(line@ == rename_error_line(old_path@, io_error@));
            }
            let ghost pre = self.errors.deep_view();
            self.errors.push(line);
            proof {
                assert forall|u: int| 0 <= u < self.errors@.len() - 1 implies pre[u]
                    == #[trigger] self.errors@[u].deep_view() by {}
                crate::events::lemma_deep_view_push(pre, &self.errors);
            }
        }
        let current = self.idx + 1;
        self.idx = current;
        self.phase = RenamePhase::Renaming;
        RenameProgress::Progress { current, total: self.files.len(), current_path: new_path }
    }

    /// The completion event: success and failure counts.
    pub fn complete(&mut self) -> (ev: RenameProgress)
        requires
            old(self).wf(),
            old(self).state() is Completing,
        ensures
            final(self).wf(),
            final(self).state() is Done,
            final(self).renamed_list() == old(self).renamed_list(),
            final(self).error_list() == old(self).error_list(),
            ev matches RenameProgress::Completed { successful, failed } && successful == old(
                self,
            ).renamed_list().len() && failed == old(self).error_list().len(),
    {
        self.phase = RenamePhase::Done;
        RenameProgress::Completed { successful: self.renamed.len(), failed: self.errors.len() }
    }

    /// Hands out the outcome once the run is over: all new paths on full
    /// success, otherwise every error line joined with newlines.
    pub fn take_result(self) -> (r: Result<Vec<String>, String>)
        requires
            self.wf(),
            self.state() is Done,
        ensures
            r is Ok <==> self.error_list().len() == 0,
            r matches Ok(v) ==> v.deep_view() == self.renamed_list(),
            r matches Err(e) ==> e@ == joined_lines(self.error_list()),
    {
        if self.errors.len() == 0 {
            Ok(self.renamed)
        } else {
            let n = self.errors.len();
            let mut joined = self.errors[0].clone();
            proof {
                assert(self.errors.deep_view()[0] == self.errors@[0].deep_view());
                assert(self.errors.deep_view().subrange(0, 1) =~= seq![
                    self.errors.deep_view()[0],
                ]);
                assert(joined_lines(self.errors.deep_view().subrange(0, 1)) == self.errors.deep_view()[0]);
            }
            let mut i: usize = 1;
            while i < n
                invariant
                    n == self.errors@.len(),
                    1 <= i <= n,
                    joined@ == joined_lines(self.errors.deep_view().subrange(0, i as int)),
                decreases n - i,
            {
                joined.append("\n");
                joined.append(self.errors[i].as_str());
                proof {
                    let dv = self.errors.deep_view();
                    assert(self.errors.deep_view()[i as int] == self.errors@[i as int].deep_view());
                    let pre = dv.subrange(0, i as int);
                    let post = dv.subrange(0, i + 1);
                    assert(post.drop_last() =~= pre);
                    assert(post.last() == dv[i as int]);
                    assert(post.len() >= 2);
                    assert(joined_lines(post) == joined_lines(pre) + "\n"@ + dv[i as int]);
                }
                i += 1;
            }
            proof {
                assert(self.errors.deep_view().subrange(0, n as int) =~= self.errors.deep_view());
            }
            Err(joined)
        }
    }
}

/// Phases of a listing run.
#[derive(Debug, Clone, Copy, PartialEq, Eq, Structural)]
pub enum ListPhase {
    /// Collecting file paths from the caller's traversal.
    Listing,
    /// The run is over.
    Done,
}

/// One recursive-listing operation: the collected paths and the progress
/// bookkeeping.
#[derive(Debug)]
pub struct ListRun {
    base_path: String,
    files: Vec<String>,
    last_progress_dir: String,
    phase: ListPhase,
}

impl ListRun {
    /// The run's phase.
    pub closed spec fn state(&self) -> ListPhase {
        self.phase
    }

    /// The base path being listed.
    pub closed spec fn base(&self) -> Seq<char> {
        self.base_path@
    }

    /// The paths collected so far.
    pub closed spec fn listed(&self) -> Seq<Seq<char>> {
        self.files.deep_view()
    }

    /// The directory of the most recent progress event.
    pub closed spec fn last_dir(&self) -> Seq<char> {
        self.last_progress_dir@
    }

    /// Starts a listing run under `base_path`.
    pub fn new(base_path: String) -> (r: ListRun)
        ensures
            r.state() is Listing,
            r.base() == base_path@,
            r.listed().len() == 0,
            r.last_dir().len() == 0,
    {
        let r = ListRun {
            base_path,
            files: Vec::new(),
            last_progress_dir: String::new(),
            phase: ListPhase::Listing,
        };
        proof {
            assert(r.files.deep_view() =~= Seq::<Seq<char>>::empty());
        }
        r
    }

    /// The event that opens the run's progress stream.
    pub fn started_event(&self) -> (r: ListProgress)
        ensures
            r matches ListProgress::Started { base_path } && base_path@ == self.base(),
    {
        ListProgress::Started { base_path: self.base_path.clone() }
    }

    /// Collects one file path; every `LIST_PROGRESS_INTERVAL` files a
    /// `Scanning` event carrying a newly entered directory is produced.
    pub fn on_file(&mut self, path: String) -> (r: Option<ListProgress>)
        requires
            old(self).state() is Listing,
        ensures
            final(self).state() is Listing,
            final(self).base() == old(self).base(),
            final(self).listed() == old(self).listed().push(path@),
            ({
                let c = old(self).listed().len() + 1;
                let pd = parent_dir_spec(path@);
                if c % (LIST_PROGRESS_INTERVAL as nat) == 0 && pd is Some && pd->Some_0 != old(
                    self,
                ).last_dir() {
                    &&& r matches Some(ev)
                    &&& ev matches ListProgress::Scanning { current_dir, files_found }
                        && current_dir@ == pd->Some_0 && files_found == c
                    &&& final(self).last_dir() == pd->Some_0
                } else {
                    (r is None) && final(self).last_dir() == old(self).last_dir()
                }
            }),
    {
        let ghost pre = self.files.deep_view();
        let dir_opt = parent_dir(path.as_str());
        self.files.push(path);
        proof {
            assert forall|u: int| 0 <= u < self.files@.len() - 1 implies pre[u]
                == #[trigger] self.files@[u].deep_view() by {}
            crate::events::lemma_deep_view_push(pre, &self.files);
        }
        let count = self.files.len();
        if count % LIST_PROGRESS_INTERVAL == 0 {
            if let Some(dir) = dir_opt {
                let differs = !(dir == self.last_progress_dir);
                if differs {
                    self.last_progress_dir = dir.clone();
                    return Some(
                        ListProgress::Scanning { current_dir: dir, files_found: count },
                    );
                }
            }
        }
        None
    }

    /// The completion event: the total number of files found.
    pub fn complete(&mut self) -> (ev: ListProgress)
        requires
            old(self).state() is Listing,
        ensures
            final(self).state() is Done,
            final(self).listed() == old(self).listed(),
            ev matches ListProgress::Completed { total_files } && total_files == old(
                self,
            ).listed().len(),
    {
        self.phase = ListPhase::Done;
        ListProgress::Completed { total_files: self.files.len() }
    }

    /// Hands out the collected paths once the run is over.
    pub fn take_result(self) -> (r: Vec<String>)
        requires
            self.state() is Done,
        ensures
            r.deep_view() == self.listed(),
    {
        self.files
    }
}

} // verus!
