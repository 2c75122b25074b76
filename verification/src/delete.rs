//! The batch-delete pipeline: sequential deletion with cancellation and
//! progress checkpoints, followed by bottom-up cleanup of the parent
//! directories that may have been emptied.
//!
//! [`DeleteRun`] makes every decision — which target is next, what is
//! recorded, when cancellation ends the run, and in which order directories
//! are cleaned — while the caller performs the file-system work. Unlike
//! search, a cancelled delete keeps the partial aggregate built so far.

use vstd::prelude::*;

use crate::events::{DeleteProgress, DeleteResult};
use crate::text::{count_separators, parent_dir, parent_dir_spec, sep_count};

verus! {

/// `s` with `d` appended unless already present.
pub open spec fn insert_unique(s: Seq<Seq<char>>, d: Seq<char>) -> Seq<Seq<char>> {
    if s.contains(d) {
        s
    } else {
        s.push(d)
    }
}

/// The parent-directory set after processing a target: unchanged unless
/// cleanup is wanted and the target has a parent.
pub open spec fn track_parent(s: Seq<Seq<char>>, path: Seq<char>, want: bool) -> Seq<Seq<char>> {
    if want {
        match parent_dir_spec(path) {
            Some(d) => insert_unique(s, d),
            None => s,
        }
    } else {
        s
    }
}

/// Paths ordered deepest first: separator counts never increase.
pub open spec fn sorted_by_depth_desc(s: Seq<Seq<char>>) -> bool {
    forall|i: int, j: int| 0 <= i < j < s.len() ==> sep_count(s[i]) >= sep_count(s[j])
}

proof fn lemma_deep_view_insert<T: DeepView>(pre: Seq<T::V>, v: &Vec<T>, p: int, xv: T::V)
    requires
        0 <= p < v@.len(),
        pre.len() == v@.len() - 1,
        forall|i: int| 0 <= i < p ==> pre[i] == #[trigger] v@[i].deep_view(),
        forall|i: int| p <= i < v@.len() - 1 ==> pre[i] == #[trigger] v@[i + 1].deep_view(),
        v@[p].deep_view() == xv,
    ensures
        v.deep_view() == pre.insert(p, xv),
{
    assert forall|i: int| 0 <= i < v@.len() implies v.deep_view()[i] == pre.insert(p, xv)[i] by {
        assert(v.deep_view()[i] == v@[i].deep_view());
        if i < p {
            assert(pre.insert(p, xv)[i] == pre[i]);
        } else if i == p {
            assert(pre.insert(p, xv)[i] == xv);
        } else {
            assert(pre.insert(p, xv)[i] == pre[i - 1]);
            let i0 = i - 1;
            assert(pre[i0] == v@[i0 + 1].deep_view());
        }
    }
    assert(v.deep_view() =~= pre.insert(p, xv));
}

/// Sorts paths so that deeper directories (more separators) come first —
/// the order in which nested empty directories must be removed.
pub fn sort_dirs_deepest_first(v: Vec<String>) -> (r: Vec<String>)
    ensures
        r.deep_view().to_multiset() == v.deep_view().to_multiset(),
        sorted_by_depth_desc(r.deep_view()),
{
    let n = v.len();
    let mut out: Vec<String> = Vec::new();
    let mut i: usize = 0;
    proof {
        broadcast use vstd::seq_lib::group_to_multiset_ensures;

        assert(v.deep_view().subrange(0, 0) =~= Seq::<Seq<char>>::empty());
        assert(out.deep_view() =~= Seq::<Seq<char>>::empty());
        assert(out.deep_view().to_multiset() =~= v.deep_view().subrange(0, 0).to_multiset());
    }
    while i < n
        invariant
            n == v.len(),
            0 <= i <= n,
            out@.len() == i,
            sorted_by_depth_desc(out.deep_view()),
            out.deep_view().to_multiset() == v.deep_view().subrange(0, i as int).to_multiset(),
        decreases n - i,
    {
        let x = v[i].clone();
        proof {
            assert(v.deep_view()[i as int] == v@[i as int].deep_view());
            assert(x@ == v.deep_view()[i as int]);
        }
        let key_depth = count_separators(x.as_str());
        let m = out.len();
        let mut p: usize = 0;
        while p < m && count_separators(out[p].as_str()) >= key_depth
            invariant
                m == out@.len(),
                key_depth == sep_count(x@),
                0 <= p <= m,
                forall|t: int|
                    0 <= t < p ==> sep_count(#[trigger] out.deep_view()[t]) >= sep_count(x@),
            decreases m - p,
        {
            proof {
                assert(out.deep_view()[p as int] == out@[p as int].deep_view());
            }
            p += 1;
        }
        proof {
            if p < m {
                assert(out.deep_view()[p as int] == out@[p as int].deep_view());
                assert(sep_count(out.deep_view()[p as int]) < sep_count(x@));
            }
        }
        let ghost out_pre = out.deep_view();
        let ghost old_at = out@;
        let ghost xv = x@;
        out.insert(p, x);
        proof {
            broadcast use vstd::seq_lib::group_to_multiset_ensures;

            assert(out@ == old_at.insert(p as int, out@[p as int]));
            assert forall|t: int| 0 <= t < p implies out_pre[t] == #[trigger] out@[
                t
            ].deep_view() by {
                assert(out@[t] == old_at[t]);
            }
            assert forall|t: int| p <= t < out@.len() - 1 implies out_pre[t] == #[trigger] out@[
                t + 1
            ].deep_view() by {
                assert(out@[t + 1] == old_at[t]);
            }
            lemma_deep_view_insert(out_pre, &out, p as int, xv);
            vstd::seq_lib::to_multiset_insert(out_pre, p as int, xv);
            assert(v.deep_view().subrange(0, i + 1) =~= v.deep_view().subrange(0, i as int).push(
                xv,
            ));
            assert(out.deep_view().to_multiset() =~= v.deep_view().subrange(
                0,
                i + 1,
            ).to_multiset());
            // Sortedness: entries before p are at least as deep as x, and
            // entries from p on were already no deeper than those before —
            // and x is deeper than the entry at p (if any).
            let dv = out.deep_view();
            assert forall|a: int, b: int| 0 <= a < b < dv.len() implies sep_count(dv[a])
                >= sep_count(dv[b]) by {
                if a < p && b == p {
                } else if a == p && b > p {
                    assert(dv[b] == out_pre[b - 1]);
                    if b - 1 >= p {
                        assert(sep_count(out_pre[p as int]) >= sep_count(out_pre[b - 1]));
                    }
                } else if a < p && b > p {
                    assert(dv[a] == out_pre[a]);
                    assert(dv[b] == out_pre[b - 1]);
                } else if a > p && b > p {
                    assert(dv[a] == out_pre[a - 1]);
                    assert(dv[b] == out_pre[b - 1]);
                }
            }
        }
        i += 1;
    }
    proof {
        assert(v.deep_view().subrange(0, n as int) =~= v.deep_view());
    }
    out
}

/// Phases of a delete run.
#[derive(Debug, Clone, Copy, PartialEq, Eq, Structural)]
pub enum DeletePhase {
    /// Iterating the deletion targets.
    Deleting,
    /// A target has been handed out; its outcome is pending.
    Acting,
    /// All targets processed; the cleanup gate has not been passed yet.
    CleanupGate,
    /// Iterating the cleanup directories.
    Cleanup,
    /// A cleanup directory has been handed out; its outcome is pending.
    CleanupActing,
    /// Ready to emit the completion event.
    Completing,
    /// The run is over.
    Done,
}

/// What the caller must do with the next deletion target.
#[derive(Debug)]
pub enum TargetStep {
    /// Cancellation observed: send this terminal event; the partial result
    /// stands.
    Cancelled(DeleteProgress),
    /// Attempt to delete this path, then report the outcome.
    Target(String),
    /// Every target has been processed.
    Finished,
}

/// What the caller must do with the next cleanup directory.
#[derive(Debug)]
pub enum CleanupStep {
    /// Cancellation observed: send this terminal event; the partial result
    /// stands.
    Cancelled(DeleteProgress),
    /// If this directory still exists and is empty, remove it, then report
    /// whether it was removed.
    Dir(String),
    /// Every cleanup candidate has been processed.
    Finished,
}

/// One batch-delete operation: targets, phase, partial aggregates and the
/// cleanup queue.
#[derive(Debug)]
pub struct DeleteRun {
    files: Vec<String>,
    delete_empty_dirs: bool,
    phase: DeletePhase,
    idx: usize,
    successful: Vec<String>,
    failed: Vec<(String, String)>,
    parent_dirs: Vec<String>,
    cleanup_dirs: Vec<String>,
    cleanup_idx: usize,
    deleted_dirs: Vec<String>,
    cancelled: bool,
}

impl DeleteRun {
    /// The run's phase.
    pub closed spec fn state(&self) -> DeletePhase {
        self.phase
    }

    /// The deletion targets.
    pub closed spec fn targets(&self) -> Seq<Seq<char>> {
        self.files.deep_view()
    }

    /// Whether empty-parent cleanup was requested.
    pub closed spec fn wants_cleanup(&self) -> bool {
        self.delete_empty_dirs
    }

    /// Index of the next unprocessed target.
    pub closed spec fn pos(&self) -> int {
        self.idx as int
    }

    /// Paths deleted successfully so far.
    pub closed spec fn ok_list(&self) -> Seq<Seq<char>> {
        self.successful.deep_view()
    }

    /// Failed paths with their error messages, so far.
    pub closed spec fn fail_list(&self) -> Seq<(Seq<char>, Seq<char>)> {
        self.failed.deep_view()
    }

    /// The distinct parent directories tracked for cleanup, in first-seen
    /// order.
    pub closed spec fn parents(&self) -> Seq<Seq<char>> {
        self.parent_dirs.deep_view()
    }

    /// The cleanup queue (set at the cleanup gate, deepest first).
    pub closed spec fn queue(&self) -> Seq<Seq<char>> {
        self.cleanup_dirs.deep_view()
    }

    /// Index of the next unprocessed cleanup directory.
    pub closed spec fn qpos(&self) -> int {
        self.cleanup_idx as int
    }

    /// Directories actually removed during cleanup, in removal order.
    pub closed spec fn cleaned(&self) -> Seq<Seq<char>> {
        self.deleted_dirs.deep_view()
    }

    /// Whether a cancellation checkpoint observed the flag set.
    pub closed spec fn cancel_seen(&self) -> bool {
        self.cancelled
    }

    /// Invariant: indices in range, and the removed directories followed by
    /// the remaining queue stay ordered deepest first — so the report of
    /// cleaned directories is itself ordered deepest first.
    pub closed spec fn wf(&self) -> bool {
        &&& self.idx <= self.files.len()
        &&& self.cleanup_idx <= self.cleanup_dirs.len()
        &&& (self.phase is Acting ==> self.idx < self.files.len())
        &&& (self.phase is CleanupActing ==> self.cleanup_idx < self.cleanup_dirs.len())
        &&& ((self.phase is Deleting || self.phase is Acting || self.phase is CleanupGate)
            ==> self.deleted_dirs@.len() == 0 && self.cleanup_dirs@.len() == 0)
        &&& sorted_by_depth_desc(
            self.deleted_dirs.deep_view() + self.cleanup_dirs.deep_view().subrange(
                self.cleanup_idx as int,
                self.cleanup_dirs@.len() as int,
            ),
        )
    }

    /// Starts a batch-delete run over `files`.
    pub fn new(files: Vec<String>, delete_empty_dirs: bool) -> (r: DeleteRun)
        ensures
            r.wf(),
            r.state() is Deleting,
            r.targets() == files.deep_view(),
            r.wants_cleanup() == delete_empty_dirs,
            r.pos() == 0,
            r.ok_list().len() == 0,
            r.fail_list().len() == 0,
            r.parents().len() == 0,
            r.cleaned().len() == 0,
            !r.cancel_seen(),
    {
        let r = DeleteRun {
            files,
            delete_empty_dirs,
            phase: DeletePhase::Deleting,
            idx: 0,
            successful: Vec::new(),
            failed: Vec::new(),
            parent_dirs: Vec::new(),
            cleanup_dirs: Vec::new(),
            cleanup_idx: 0,
            deleted_dirs: Vec::new(),
            cancelled: false,
        };
        proof {
            assert(r.successful.deep_view() =~= Seq::<Seq<char>>::empty());
            assert(r.failed.deep_view() =~= Seq::<(Seq<char>, Seq<char>)>::empty());
            assert(r.parent_dirs.deep_view() =~= Seq::<Seq<char>>::empty());
            assert(r.deleted_dirs.deep_view() =~= Seq::<Seq<char>>::empty());
            assert(r.deleted_dirs.deep_view() + r.cleanup_dirs.deep_view().subrange(0, 0)
                =~= Seq::<Seq<char>>::empty());
        }
        r
    }

    /// The event that opens the run's progress stream.
    pub fn started_event(&self) -> (r: DeleteProgress)
        ensures
            r matches DeleteProgress::Started { total_files } && total_files
                == self.targets().len(),
    {
        DeleteProgress::Started { total_files: self.files.len() }
    }

    /// Deletion-phase checkpoint. Hands out the next target; observes
    /// cancellation first, in which case the run ends at once and the
    /// partial aggregate is preserved.
    pub fn next_target(&mut self, cancel_requested: bool) -> (r: TargetStep)
        requires
            old(self).wf(),
            old(self).state() is Deleting,
        ensures
            final(self).wf(),
            final(self).targets() == old(self).targets(),
            final(self).wants_cleanup() == old(self).wants_cleanup(),
            final(self).ok_list() == old(self).ok_list(),
            final(self).fail_list() == old(self).fail_list(),
            final(self).parents() == old(self).parents(),
            final(self).cleaned() == old(self).cleaned(),
            final(self).pos() == old(self).pos(),
            if old(self).pos() == old(self).targets().len() {
                (r is Finished) && final(self).state() is CleanupGate && final(self).cancel_seen()
                    == old(self).cancel_seen()
            } else if cancel_requested {
                &&& r matches TargetStep::Cancelled(e) && e == DeleteProgress::Cancelled
                &&& final(self).state() is Done
                &&& final(self).cancel_seen()
            } else {
                &&& r matches TargetStep::Target(p) && p@ == old(self).targets()[old(self).pos()]
                &&& final(self).state() is Acting
                &&& final(self).cancel_seen() == old(self).cancel_seen()
            },
    {
        if self.idx == self.files.len() {
            self.phase = DeletePhase::CleanupGate;
            return TargetStep::Finished;
        }
        if cancel_requested {
            self.cancelled = true;
            self.phase = DeletePhase::Done;
            return TargetStep::Cancelled(DeleteProgress::Cancelled);
        }
        self.phase = DeletePhase::Acting;
        let p = self.files[self.idx].clone();
        proof {
            assert(self.files.deep_view()[self.idx as int] == self.files@[self.idx as int].deep_view());
        }
        TargetStep::Target(p)
    }

    /// Records the outcome of the pending target's deletion attempt: the
    /// path joins the success or failure list, its parent directory is
    /// tracked for cleanup, and the progress event for this target is
    /// returned.
    pub fn record_outcome(&mut self, ok: bool, error: String) -> (ev: DeleteProgress)
        requires
            old(self).wf(),
            old(self).state() is Acting,
        ensures
            final(self).wf(),
            final(self).state() is Deleting,
            final(self).targets() == old(self).targets(),
            final(self).wants_cleanup() == old(self).wants_cleanup(),
            final(self).pos() == old(self).pos() + 1,
            final(self).cleaned() == old(self).cleaned(),
            final(self).cancel_seen() == old(self).cancel_seen(),
            final(self).parents() == track_parent(
                old(self).parents(),
                old(self).targets()[old(self).pos()],
                old(self).wants_cleanup(),
            ),
            ok ==> final(self).ok_list() == old(self).ok_list().push(
                old(self).targets()[old(self).pos()],
            ) && final(self).fail_list() == old(self).fail_list(),
            !ok ==> final(self).fail_list() == old(self).fail_list().push(
                (old(self).targets()[old(self).pos()], error@),
            ) && final(self).ok_list() == old(self).ok_list(),
            ev matches DeleteProgress::Progress { current, total, current_path } && current == old(
                self,
            ).pos() + 1 && total == old(self).targets().len() && current_path@ == old(
                self,
            ).targets()[old(self).pos()],
    {
        let path = self.files[self.idx].clone();
        proof {
            assert(self.files.deep_view()[self.idx as int] == self.files@[self.idx as int].deep_view());
        }
        // Track the parent directory for potential cleanup.
        if self.delete_empty_dirs {
            if let Some(parent) = parent_dir(path.as_str()) {
                let mut present = false;
                let pn = self.parent_dirs.len();
                let mut t: usize = 0;
                while t < pn
                    invariant
                        pn == self.parent_dirs@.len(),
                        0 <= t <= pn,
                        present <==> exists|u: int|
                            0 <= u < t && #[trigger] self.parent_dirs.deep_view()[u] == parent@,
                    decreases pn - t,
                {
                    proof {
                        assert(self.parent_dirs.deep_view()[t as int] == self.parent_dirs@[
                            t as int
                        ].deep_view());
                    }
                    if self.parent_dirs[t] == parent {
                        present = true;
                        proof {
                            assert(self.parent_dirs.deep_view()[t as int] == parent@);
                        }
                        t = pn;
                    } else {
                        t += 1;
                    }
                }
                proof {
                    if present {
                        let u = choose|u: int|
                            0 <= u < self.parent_dirs@.len()
                                && #[trigger] self.parent_dirs.deep_view()[u] == parent@;
                        assert(self.parent_dirs.deep_view().contains(parent@));
                    } else {
                        assert forall|u: int| 0 <= u < self.parent_dirs@.len() implies #[trigger] self
                            .parent_dirs.deep_view()[u] != parent@ by {}
                        assert(!self.parent_dirs.deep_view().contains(parent@));
                    }
                }
                if !present {
                    let ghost pre = self.parent_dirs.deep_view();
                    self.parent_dirs.push(parent);
                    proof {
                        assert forall|u: int|
                            0 <= u < self.parent_dirs@.len() - 1 implies pre[u]
                            == #[trigger] self.parent_dirs@[u].deep_view() by {}
                        crate::events::lemma_deep_view_push(pre, &self.parent_dirs);
                    }
                }
            }
        }
        // Record the outcome.
        if ok {
            let ghost pre = self.successful.deep_view();
            self.successful.push(path.clone());
            proof {
                assert forall|u: int| 0 <= u < self.successful@.len() - 1 implies pre[u]
                    == #[trigger] self.successful@[u].deep_view() by {}
                crate::events::lemma_deep_view_push(pre, &self.successful);
            }
        } else {
            let ghost pre = self.failed.deep_view();
            self.failed.push((path.clone(), error));
            proof {
                assert forall|u: int| 0 <= u < self.failed@.len() - 1 implies pre[u]
                    == #[trigger] self.failed@[u].deep_view() by {}
                crate::events::lemma_deep_view_push(pre, &self.failed);
            }
        }
        let current = self.idx + 1;
        self.idx = current;
        self.phase = DeletePhase::Deleting;
        DeleteProgress::Progress { current, total: self.files.len(), current_path: path }
    }

    /// Ends the run, keeping whatever aggregate has been built: this is the
    /// silent abort taken when the progress sink turns out to be
    /// disconnected.
    pub fn abort_silent(&mut self)
        requires
            old(self).wf(),
        ensures
            final(self).wf(),
            final(self).state() is Done,
            final(self).ok_list() == old(self).ok_list(),
            final(self).fail_list() == old(self).fail_list(),
            final(self).cleaned() == old(self).cleaned(),
    {
        self.phase = DeletePhase::Done;
    }

    /// The cleanup gate, passed once after the last target: cleanup runs
    /// only if it was requested and no cancellation has been observed at
    /// this point; otherwise the run proceeds straight to completion (this
    /// gate itself emits no event). Entering cleanup sorts the tracked
    /// parent directories deepest first.
    pub fn begin_cleanup(&mut self, cancel_requested: bool)
        requires
            old(self).wf(),
            old(self).state() is CleanupGate,
        ensures
            final(self).wf(),
            final(self).targets() == old(self).targets(),
            final(self).ok_list() == old(self).ok_list(),
            final(self).fail_list() == old(self).fail_list(),
            final(self).cleaned() == old(self).cleaned(),
            if old(self).wants_cleanup() && !cancel_requested {
                &&& final(self).state() is Cleanup
                &&& final(self).qpos() == 0
                &&& final(self).queue().to_multiset() == old(self).parents().to_multiset()
                &&& sorted_by_depth_desc(final(self).queue())
            } else {
                final(self).state() is Completing && final(self).queue().len() == 0
            },
    {
        if self.delete_empty_dirs && !cancel_requested {
            let mut dirs: Vec<String> = Vec::new();
            core::mem::swap(&mut dirs, &mut self.parent_dirs);
            let sorted = sort_dirs_deepest_first(dirs);
            self.cleanup_dirs = sorted;
            self.cleanup_idx = 0;
            self.phase = DeletePhase::Cleanup;
            proof {
                assert(self.deleted_dirs.deep_view().len() == 0);
                let tail = self.cleanup_dirs.deep_view().subrange(
                    0,
                    self.cleanup_dirs@.len() as int,
                );
                assert(tail =~= self.cleanup_dirs.deep_view());
                assert(self.deleted_dirs.deep_view() + tail =~= self.cleanup_dirs.deep_view());
            }
        } else {
            self.phase = DeletePhase::Completing;
            proof {
                assert(self.cleanup_dirs.deep_view().len() == 0);
            }
        }
    }

    /// Cleanup-phase checkpoint. Hands out the next candidate directory;
    /// observes cancellation first, ending the run with the partial
    /// aggregate and a terminal `Cancelled` event.
    pub fn next_cleanup_dir(&mut self, cancel_requested: bool) -> (r: CleanupStep)
        requires
            old(self).wf(),
            old(self).state() is Cleanup,
        ensures
            final(self).wf(),
            final(self).ok_list() == old(self).ok_list(),
            final(self).fail_list() == old(self).fail_list(),
            final(self).cleaned() == old(self).cleaned(),
            final(self).queue() == old(self).queue(),
            final(self).qpos() == old(self).qpos(),
            if old(self).qpos() == old(self).queue().len() {
                (r is Finished) && final(self).state() is Completing
            } else if cancel_requested {
                &&& r matches CleanupStep::Cancelled(e) && e == DeleteProgress::Cancelled
                &&& final(self).state() is Done
                &&& final(self).cancel_seen()
            } else {
                &&& r matches CleanupStep::Dir(d) && d@ == old(self).queue()[old(self).qpos()]
                &&& final(self).state() is CleanupActing
            },
    {
        if self.cleanup_idx == self.cleanup_dirs.len() {
            self.phase = DeletePhase::Completing;
            return CleanupStep::Finished;
        }
        if cancel_requested {
            self.cancelled = true;
            self.phase = DeletePhase::Done;
            return CleanupStep::Cancelled(DeleteProgress::Cancelled);
        }
        self.phase = DeletePhase::CleanupActing;
        let d = self.cleanup_dirs[self.cleanup_idx].clone();
        proof {
            assert(self.cleanup_dirs.deep_view()[self.cleanup_idx as int] == self.cleanup_dirs@[
                self.cleanup_idx as int
            ].deep_view());
        }
        CleanupStep::Dir(d)
    }

    /// Records whether the pending cleanup directory was actually removed
    /// (it is removed only if it still exists and is empty).
    pub fn record_cleanup(&mut self, removed: bool)
        requires
            old(self).wf(),
            old(self).state() is CleanupActing,
        ensures
            final(self).wf(),
            final(self).state() is Cleanup,
            final(self).ok_list() == old(self).ok_list(),
            final(self).fail_list() == old(self).fail_list(),
            final(self).queue() == old(self).queue(),
            final(self).qpos() == old(self).qpos() + 1,
            removed ==> final(self).cleaned() == old(self).cleaned().push(
                old(self).queue()[old(self).qpos()],
            ),
            !removed ==> final(self).cleaned() == old(self).cleaned(),
    {
        let ghost old_combined = self.deleted_dirs.deep_view()
            + self.cleanup_dirs.deep_view().subrange(
            self.cleanup_idx as int,
            self.cleanup_dirs@.len() as int,
        );
        if removed {
            let d = self.cleanup_dirs[self.cleanup_idx].clone();
            proof {
                assert(self.cleanup_dirs.deep_view()[self.cleanup_idx as int] == self.cleanup_dirs@[
                    self.cleanup_idx as int
                ].deep_view());
            }
            let ghost pre = self.deleted_dirs.deep_view();
            self.deleted_dirs.push(d);
            proof {
                assert forall|u: int| 0 <= u < self.deleted_dirs@.len() - 1 implies pre[u]
                    == #[trigger] self.deleted_dirs@[u].deep_view() by {}
                crate::events::lemma_deep_view_push(pre, &self.deleted_dirs);
            }
        }
        self.cleanup_idx = self.cleanup_idx + 1;
        self.phase = DeletePhase::Cleanup;
        proof {
            let new_combined = self.deleted_dirs.deep_view()
                + self.cleanup_dirs.deep_view().subrange(
                self.cleanup_idx as int,
                self.cleanup_dirs@.len() as int,
            );
            if removed {
                assert(new_combined =~= old_combined);
            } else {
                // Dropping one element from the middle keeps the order.
                assert forall|a: int, b: int|
                    0 <= a < b < new_combined.len() implies sep_count(new_combined[a])
                    >= sep_count(new_combined[b]) by {
                    let k = self.deleted_dirs.deep_view().len() as int;
                    let a0 = if a < k {
                        a
                    } else {
                        a + 1
                    };
                    let b0 = if b < k {
                        b
                    } else {
                        b + 1
                    };
                    assert(new_combined[a] == old_combined[a0]);
                    assert(new_combined[b] == old_combined[b0]);
                }
            }
        }
    }

    /// The completion event: success and failure counts.
    pub fn complete(&mut self) -> (ev: DeleteProgress)
        requires
            old(self).wf(),
            old(self).state() is Completing,
        ensures
            final(self).wf(),
            final(self).state() is Done,
            final(self).ok_list() == old(self).ok_list(),
            final(self).fail_list() == old(self).fail_list(),
            final(self).cleaned() == old(self).cleaned(),
            ev matches DeleteProgress::Completed { successful, failed } && successful == old(
                self,
            ).ok_list().len() && failed == old(self).fail_list().len(),
    {
        self.phase = DeletePhase::Done;
        DeleteProgress::Completed { successful: self.successful.len(), failed: self.failed.len() }
    }

    /// Hands out the aggregate once the run is over. The cleaned
    /// directories are reported deepest first.
    pub fn take_result(self) -> (r: DeleteResult)
        requires
            self.wf(),
            self.state() is Done,
        ensures
            r.successful.deep_view() == self.ok_list(),
            r.failed.deep_view() == self.fail_list(),
            r.deleted_dirs.deep_view() == self.cleaned(),
            sorted_by_depth_desc(r.deleted_dirs.deep_view()),
    {
        proof {
            let combined = self.deleted_dirs.deep_view() + self.cleanup_dirs.deep_view().subrange(
                self.cleanup_idx as int,
                self.cleanup_dirs@.len() as int,
            );
            assert forall|a: int, b: int|
                0 <= a < b < self.deleted_dirs.deep_view().len() implies sep_count(
                self.deleted_dirs.deep_view()[a],
            ) >= sep_count(self.deleted_dirs.deep_view()[b]) by {
                assert(combined[a] == self.deleted_dirs.deep_view()[a]);
                assert(combined[b] == self.deleted_dirs.deep_view()[b]);
            }
        }
        DeleteResult {
            successful: self.successful,
            failed: self.failed,
            deleted_dirs: self.deleted_dirs,
        }
    }
}

} // verus!
