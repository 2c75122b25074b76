//! The two-phase search pipeline: a sequential scan that collects entries
//! under cancellation and progress checkpoints, followed by a parallel
//! matching phase over the collected entries.
//!
//! [`SearchRun`] is the decision core: the caller walks the file system and
//! delivers events, but every checkpoint decision — when to emit progress,
//! when cancellation or a dead sink ends the run, and what the final result
//! is — is made (and specified) here. On any cancellation the search result
//! is empty: partial findings are discarded by contract.

use vstd::prelude::*;

use crate::events::{
    entry_models, match_models, EntryInfo, EntryModel, FileMatchResult, MatchModel, PatternType,
    PipelineStep, SearchProgress,
};
use crate::matching::{
    effective_pattern, extension_range, match_extension, match_positions, match_regex,
    match_simple, occurs_at, regex_ok, regex_ranges,
};
use crate::text::{all_whitespace, fold_case, is_blank, parent_dir, parent_dir_spec};

use rayon::iter::{IntoParallelRefIterator, ParallelIterator};

verus! {

/// How many scanned entries lie between two scan-progress checkpoints.
pub const SCAN_PROGRESS_INTERVAL: usize = 100;

/// A validated search request.
#[derive(Debug, Clone)]
pub struct SearchQuery {
    base_path: String,
    pattern: String,
    pattern_type: PatternType,
    include_subdirs: bool,
    case_sensitive: bool,
}

/// Ghost model of a search request.
pub struct QueryModel {
    pub base_path: Seq<char>,
    pub pattern: Seq<char>,
    pub pattern_type: PatternType,
    pub include_subdirs: bool,
    pub case_sensitive: bool,
}

impl View for SearchQuery {
    type V = QueryModel;

    closed spec fn view(&self) -> QueryModel {
        QueryModel {
            base_path: self.base_path@,
            pattern: self.pattern@,
            pattern_type: self.pattern_type,
            include_subdirs: self.include_subdirs,
            case_sensitive: self.case_sensitive,
        }
    }
}

impl SearchQuery {
    /// Validates a search request. Fails exactly when the pattern trims to
    /// nothing or a regex pattern does not compile — both are rejected
    /// before any traversal begins.
    pub fn new(
        base_path: String,
        pattern: String,
        pattern_type: PatternType,
        include_subdirs: bool,
        case_sensitive: bool,
    ) -> (r: Result<SearchQuery, String>)
        ensures
            r is Ok <==> query_wf(
                QueryModel {
                    base_path: base_path@,
                    pattern: pattern@,
                    pattern_type: pattern_type,
                    include_subdirs: include_subdirs,
                    case_sensitive: case_sensitive,
                },
            ),
            r matches Ok(q) ==> q@ == (QueryModel {
                base_path: base_path@,
                pattern: pattern@,
                pattern_type: pattern_type,
                include_subdirs: include_subdirs,
                case_sensitive: case_sensitive,
            }),
            r matches Err(e) ==> all_whitespace(pattern@) ==> e@ == "Pattern cannot be empty"@,
    {
        if is_blank(pattern.as_str()) {
            return Err("Pattern cannot be empty".to_owned());
        }
        let is_regex = match pattern_type {
            PatternType::Regex => true,
            PatternType::Simple => false,
            PatternType::Extension => false,
        };
        if is_regex {
            // Compile once up front so that a malformed pattern is fatal
            // before phase 1, not a per-item failure.
            if let Err(e) = match_regex("", pattern.as_str(), case_sensitive) {
                return Err(e);
            }
        }
        Ok(SearchQuery { base_path, pattern, pattern_type, include_subdirs, case_sensitive })
    }
}

/// A usable query: the pattern does not trim to nothing, and a regex
/// pattern compiles.
pub open spec fn query_wf(q: QueryModel) -> bool {
    &&& !all_whitespace(q.pattern)
    &&& (q.pattern_type is Regex ==> regex_ok(effective_pattern(q.case_sensitive, q.pattern)))
}

/// The ranges that substring matching reports for `name`.
pub open spec fn simple_ranges_spec(name: Seq<char>, pattern: Seq<char>, cs: bool) -> Seq<
    (usize, usize),
> {
    let hay = fold_case(cs, name);
    let needle = fold_case(cs, pattern);
    let ps = match_positions(hay, needle);
    Seq::new(ps.len(), |t: int| (ps[t] as usize, (ps[t] + needle.len()) as usize))
}

/// The ranges (if any) at which the query's pattern matches `name`.
pub open spec fn entry_ranges_spec(name: Seq<char>, q: QueryModel) -> Option<Seq<(usize, usize)>> {
    match q.pattern_type {
        PatternType::Simple => {
            let rs = simple_ranges_spec(name, q.pattern, q.case_sensitive);
            if rs.len() > 0 {
                Some(rs)
            } else {
                None
            }
        },
        PatternType::Extension => {
            match extension_range(name, q.pattern, q.case_sensitive) {
                None => None,
                Some(p) => Some(seq![(p.0 as usize, p.1 as usize)]),
            }
        },
        PatternType::Regex => {
            let rs = regex_ranges(effective_pattern(q.case_sensitive, q.pattern), name);
            if rs.len() > 0 {
                Some(rs)
            } else {
                None
            }
        },
    }
}

/// The match record (if any) that the query produces for one entry.
pub open spec fn match_entry_spec(e: EntryModel, q: QueryModel) -> Option<MatchModel> {
    match entry_ranges_spec(e.name, q) {
        None => None,
        Some(rs) => Some(
            MatchModel {
                path: e.path,
                name: e.name,
                ranges: rs,
                size: e.size,
                is_directory: e.is_directory,
            },
        ),
    }
}

/// The matches that evaluating the query over `es`, in order, produces.
pub open spec fn match_all_spec(es: Seq<EntryModel>, q: QueryModel) -> Seq<MatchModel>
    decreases es.len(),
{
    if es.len() == 0 {
        Seq::empty()
    } else {
        match_all_spec(es.drop_last(), q) + (match match_entry_spec(es.last(), q) {
            Some(m) => seq![m],
            None => Seq::empty(),
        })
    }
}

/// Evaluates the query against a single scanned entry.
pub fn match_entry(e: &EntryInfo, q: &SearchQuery) -> (r: Option<FileMatchResult>)
    requires
        query_wf(q@),
    ensures
        r matches Some(m) ==> match_entry_spec(e@, q@) == Some(m@),
        r is None ==> match_entry_spec(e@, q@) is None,
{
    proof {
        if q@.pattern.len() == 0 {
            assert(all_whitespace(q@.pattern));
        }
    }
    let ranges: Option<Vec<(usize, usize)>> = match q.pattern_type {
        PatternType::Simple => {
            let r = match_simple(e.name.as_str(), q.pattern.as_str(), q.case_sensitive);
            proof {
                let hay = fold_case(q@.case_sensitive, e@.name);
                let needle = fold_case(q@.case_sensitive, q@.pattern);
                let ps = match_positions(hay, needle);
                crate::matching::lemma_positions_props(hay, needle, 0);
                if r is Some {
                    let v = r->Some_0;
                    assert forall|t: int|
                        0 <= t < ps.len() implies v@[t] == simple_ranges_spec(
                        e@.name,
                        q@.pattern,
                        q@.case_sensitive,
                    )[t] by {
                        assert(0 <= ps[t] && occurs_at(hay, needle, ps[t]));
                        assert(v@[t].0 == ps[t] && v@[t].1 == ps[t] + needle.len());
                    }
                    assert(v@ =~= simple_ranges_spec(e@.name, q@.pattern, q@.case_sensitive));
                }
            }
            r
        },
        PatternType::Extension => {
            let r = match_extension(e.name.as_str(), q.pattern.as_str(), q.case_sensitive);
            proof {
                crate::matching::lemma_extension_range_bounds(
                    e@.name,
                    q@.pattern,
                    q@.case_sensitive,
                );
                if r is Some {
                    let v = r->Some_0;
                    let p = extension_range(e@.name, q@.pattern, q@.case_sensitive)->Some_0;
                    assert(v@[0] == (p.0 as usize, p.1 as usize));
                    assert(v@ =~= seq![(p.0 as usize, p.1 as usize)]);
                }
            }
            r
        },
        PatternType::Regex => {
            match match_regex(e.name.as_str(), q.pattern.as_str(), q.case_sensitive) {
                Ok(o) => o,
                Err(_) => {
                    proof {
                        assert(false);
                    }
                    None
                },
            }
        },
    };
    match ranges {
        Some(v) => Some(
            FileMatchResult {
                path: e.path.clone(),
                name: e.name.clone(),
                match_ranges: v,
                size: e.size,
                is_directory: e.is_directory,
            },
        ),
        None => None,
    }
}

/// Evaluates the query against every entry in order, sequentially. This is
/// the reference implementation that the parallel phase is held to.
pub fn match_entries_sequential(entries: &Vec<EntryInfo>, q: &SearchQuery) -> (r: Vec<
    FileMatchResult,
>)
    requires
        query_wf(q@),
    ensures
        match_models(r@) == match_all_spec(entry_models(entries@), q@),
{
    let n = entries.len();
    let mut out: Vec<FileMatchResult> = Vec::new();
    let mut i: usize = 0;
    proof {
        assert(entry_models(entries@.subrange(0, 0)) =~= Seq::<EntryModel>::empty());
        assert(match_models(out@) =~= match_all_spec(entry_models(entries@.subrange(0, 0)), q@));
    }
    while i < n
        invariant
            n == entries.len(),
            query_wf(q@),
            0 <= i <= n,
            match_models(out@) == match_all_spec(entry_models(entries@.subrange(0, i as int)), q@),
        decreases n - i,
    {
        let ghost pre_models = entry_models(entries@.subrange(0, i as int));
        let ghost post_models = entry_models(entries@.subrange(0, i + 1));
        proof {
            assert(post_models.drop_last() =~= pre_models);
            assert(post_models.last() == entries@[i as int]@);
        }
        match match_entry(&entries[i], q) {
            Some(m) => {
                let ghost out_pre = out@;
                out.push(m);
                proof {
                    assert(match_models(out@) =~= match_models(out_pre).push(m@));
                    assert(match_all_spec(post_models, q@) == match_all_spec(pre_models, q@)
                        + seq![m@]);
                    assert(match_models(out@) =~= match_all_spec(post_models, q@));
                }
            },
            None => {
                proof {
                    assert(match_all_spec(post_models, q@) =~= match_all_spec(pre_models, q@));
                }
            },
        }
        i += 1;
    }
    proof {
        assert(entries@.subrange(0, n as int) =~= entries@);
    }
    out
}

/// Relies on rayon's par_iter, filter_map and collect: collecting into a
/// `Vec` concatenates each split's results in the source's split order
/// (only the `_any`-suffixed adaptors disclaim order), so the result equals
/// the sequential filter-map over the same entries. The closure only calls
/// this library's verified matcher.
#[verifier::external_body]
fn par_match_entries(entries: &Vec<EntryInfo>, q: &SearchQuery) -> (r: Vec<FileMatchResult>)
    requires
        query_wf(q@),
    ensures
        match_models(r@) == match_all_spec(entry_models(entries@), q@),
{
    entries.par_iter().filter_map(|e| match_entry(e, q)).collect()
}

/// For any entry list and any valid query, the parallel matching phase
/// returns exactly what sequential evaluation of the same predicate over the
/// same entries returns — the two contracts pin both to the same value, so
/// the match sets (indeed the sequences) coincide.
pub proof fn lemma_parallel_equals_sequential(
    parallel: Seq<MatchModel>,
    sequential: Seq<MatchModel>,
    es: Seq<EntryModel>,
    q: QueryModel,
)
    requires
        parallel == match_all_spec(es, q),
        sequential == match_all_spec(es, q),
    ensures
        parallel == sequential,
        parallel.to_set() == sequential.to_set(),
{
}

/// Phases of a search run.
#[derive(Debug, Clone, Copy, PartialEq, Eq, Structural)]
pub enum SearchPhase {
    /// Collecting entries from the caller's traversal.
    Scanning,
    /// Scan finished; the matching phase has not run yet.
    MatchPending,
    /// Matching has run; the final cancellation check is outstanding.
    Matched,
    /// The run is over.
    Done,
}

/// One streaming search operation: phase, collected entries, progress
/// bookkeeping and the (eventual) result.
#[derive(Debug)]
pub struct SearchRun {
    query: SearchQuery,
    phase: SearchPhase,
    entries: Vec<EntryInfo>,
    last_progress_dir: String,
    result: Vec<FileMatchResult>,
    cancelled: bool,
}

impl SearchRun {
    /// The run's phase.
    pub closed spec fn state(&self) -> SearchPhase {
        self.phase
    }

    /// The query being run.
    pub closed spec fn query_model(&self) -> QueryModel {
        self.query@
    }

    /// Models of the entries collected so far.
    pub closed spec fn scanned(&self) -> Seq<EntryModel> {
        entry_models(self.entries@)
    }

    /// Models of the current result list.
    pub closed spec fn found(&self) -> Seq<MatchModel> {
        match_models(self.result@)
    }

    /// The directory of the most recent scan-progress event.
    pub closed spec fn last_dir(&self) -> Seq<char> {
        self.last_progress_dir@
    }

    /// Whether a cancellation checkpoint observed the flag set.
    pub closed spec fn cancel_seen(&self) -> bool {
        self.cancelled
    }

    /// The run's invariant: its query is usable.
    pub closed spec fn wf(&self) -> bool {
        query_wf(self.query@)
    }

    /// Validates a search request and starts a run. Fails exactly when the
    /// pattern trims to nothing or a regex pattern does not compile — both
    /// are rejected before any traversal.
    pub fn new(
        base_path: String,
        pattern: String,
        pattern_type: PatternType,
        include_subdirs: bool,
        case_sensitive: bool,
    ) -> (r: Result<SearchRun, String>)
        ensures
            r is Ok <==> query_wf(
                QueryModel {
                    base_path: base_path@,
                    pattern: pattern@,
                    pattern_type: pattern_type,
                    include_subdirs: include_subdirs,
                    case_sensitive: case_sensitive,
                },
            ),
            r matches Ok(run) ==> {
                &&& run.wf()
                &&& run.state() is Scanning
                &&& run.query_model() == QueryModel {
                    base_path: base_path@,
                    pattern: pattern@,
                    pattern_type: pattern_type,
                    include_subdirs: include_subdirs,
                    case_sensitive: case_sensitive,
                }
                &&& run.scanned().len() == 0
                &&& run.found().len() == 0
                &&& !run.cancel_seen()
                &&& run.last_dir().len() == 0
            },
            r matches Err(e) ==> all_whitespace(pattern@) ==> e@ == "Pattern cannot be empty"@,
    {
        let query = match SearchQuery::new(
            base_path,
            pattern,
            pattern_type,
            include_subdirs,
            case_sensitive,
        ) {
            Ok(q) => q,
            Err(e) => {
                return Err(e);
            },
        };
        Ok(SearchRun::start(query))
    }

    /// Starts a run over an already-validated query.
    pub fn start(query: SearchQuery) -> (r: SearchRun)
        requires
            query_wf(query@),
        ensures
            r.wf(),
            r.state() is Scanning,
            r.query_model() == query@,
            r.scanned().len() == 0,
            r.found().len() == 0,
            !r.cancel_seen(),
            r.last_dir().len() == 0,
    {
        SearchRun {
            query,
            phase: SearchPhase::Scanning,
            entries: Vec::new(),
            last_progress_dir: String::new(),
            result: Vec::new(),
            cancelled: false,
        }
    }

    /// The event that opens the run's progress stream.
    pub fn started_event(&self) -> (r: SearchProgress)
        ensures
            r matches SearchProgress::Started { base_path } && base_path@
                == self.query_model().base_path,
    {
        SearchProgress::Started { base_path: self.query.base_path.clone() }
    }

    /// Whether the traversal should descend into subdirectories.
    pub fn include_subdirs(&self) -> (r: bool)
        ensures
            r == self.query_model().include_subdirs,
    {
        self.query.include_subdirs
    }

    /// The base path the run searches under.
    pub fn base_path(&self) -> (r: &str)
        ensures
            r@ == self.query_model().base_path,
    {
        self.query.base_path.as_str()
    }

    /// Scan-phase checkpoint for one visited entry. If cancellation has been
    /// requested the run ends at once with an empty result and a terminal
    /// `Cancelled` event; otherwise the entry is collected, and every
    /// `SCAN_PROGRESS_INTERVAL` entries a `Scanning` event carrying a newly
    /// entered directory is emitted.
    pub fn on_entry(&mut self, entry: EntryInfo, cancel_requested: bool) -> (r: PipelineStep<
        SearchProgress,
    >)
        requires
            old(self).wf(),
            old(self).state() is Scanning,
        ensures
            final(self).wf(),
            final(self).query_model() == old(self).query_model(),
            cancel_requested ==> {
                &&& final(self).state() is Done
                &&& final(self).cancel_seen()
                &&& final(self).found().len() == 0
                &&& r matches PipelineStep::Halt(e) && e == SearchProgress::Cancelled
            },
            !cancel_requested ==> {
                &&& final(self).state() is Scanning
                &&& final(self).scanned() == old(self).scanned().push(entry@)
                &&& final(self).found() == old(self).found()
                &&& final(self).cancel_seen() == old(self).cancel_seen()
                &&& ({
                    let c = old(self).scanned().len();
                    let pd = parent_dir_spec(entry@.path);
                    if c % (SCAN_PROGRESS_INTERVAL as nat) == 0 && pd is Some && pd->Some_0 != old(
                        self,
                    ).last_dir() {
                        &&& r matches PipelineStep::Emit(ev)
                        &&& ev matches SearchProgress::Scanning { current_dir, files_found }
                            && current_dir@ == pd->Some_0 && files_found == c
                        &&& final(self).last_dir() == pd->Some_0
                    } else {
                        (r is Continue) && final(self).last_dir() == old(self).last_dir()
                    }
                })
            },
    {
        if cancel_requested {
            self.cancelled = true;
            self.phase = SearchPhase::Done;
            self.result = Vec::new();
            proof {
                assert(match_models(self.result@) =~= Seq::<MatchModel>::empty());
            }
            return PipelineStep::Halt(SearchProgress::Cancelled);
        }
        let count = self.entries.len();
        let mut step: PipelineStep<SearchProgress> = PipelineStep::Continue;
        if count % SCAN_PROGRESS_INTERVAL == 0 {
            if let Some(dir) = parent_dir(entry.path.as_str()) {
                let differs = !(dir == self.last_progress_dir);
                if differs {
                    self.last_progress_dir = dir.clone();
                    step = PipelineStep::Emit(
                        SearchProgress::Scanning { current_dir: dir, files_found: count },
                    );
                }
            }
        }
        let ghost pre_models = entry_models(self.entries@);
        self.entries.push(entry);
        proof {
            assert(entry_models(self.entries@) =~= pre_models.push(self.entries@.last()@));
        }
        step
    }

    /// Ends the run silently with an empty result, as happens when the
    /// progress sink turns out to be disconnected: no further event is
    /// emitted, and the caller receives an empty match list.
    pub fn abort_silent(&mut self)
        requires
            old(self).wf(),
        ensures
            final(self).wf(),
            final(self).state() is Done,
            final(self).found().len() == 0,
    {
        self.phase = SearchPhase::Done;
        self.result = Vec::new();
        proof {
            assert(match_models(self.result@) =~= Seq::<MatchModel>::empty());
        }
    }

    /// Post-scan checkpoint. A requested cancellation ends the run with an
    /// empty result and `Cancelled`; otherwise the matching phase is
    /// announced with the number of collected entries.
    pub fn finish_scan(&mut self, cancel_requested: bool) -> (r: PipelineStep<SearchProgress>)
        requires
            old(self).wf(),
            old(self).state() is Scanning,
        ensures
            final(self).wf(),
            final(self).query_model() == old(self).query_model(),
            final(self).scanned() == old(self).scanned(),
            cancel_requested ==> {
                &&& final(self).state() is Done
                &&& final(self).cancel_seen()
                &&& final(self).found().len() == 0
                &&& r matches PipelineStep::Halt(e) && e == SearchProgress::Cancelled
            },
            !cancel_requested ==> {
                &&& final(self).state() is MatchPending
                &&& final(self).found() == old(self).found()
                &&& r matches PipelineStep::Emit(SearchProgress::Matching { total_files })
                    && total_files == old(self).scanned().len()
            },
    {
        if cancel_requested {
            self.cancelled = true;
            self.phase = SearchPhase::Done;
            self.result = Vec::new();
            proof {
                assert(match_models(self.result@) =~= Seq::<MatchModel>::empty());
            }
            return PipelineStep::Halt(SearchProgress::Cancelled);
        }
        self.phase = SearchPhase::MatchPending;
        PipelineStep::Emit(SearchProgress::Matching { total_files: self.entries.len() })
    }

    /// The parallel matching phase: evaluates the pattern against every
    /// collected entry. The result equals the sequential evaluation of the
    /// same predicate over the same entries.
    pub fn run_matching(&mut self)
        requires
            old(self).wf(),
            old(self).state() is MatchPending,
        ensures
            final(self).wf(),
            final(self).query_model() == old(self).query_model(),
            final(self).scanned() == old(self).scanned(),
            final(self).state() is Matched,
            final(self).found() == match_all_spec(old(self).scanned(), old(self).query_model()),
    {
        self.result = par_match_entries(&self.entries, &self.query);
        self.phase = SearchPhase::Matched;
    }

    /// Final checkpoint after matching. A cancellation observed here
    /// discards all matching work: the run ends with an empty result and
    /// `Cancelled`. Otherwise the run completes, keeping its matches.
    pub fn complete(&mut self, cancel_requested: bool) -> (r: PipelineStep<SearchProgress>)
        requires
            old(self).wf(),
            old(self).state() is Matched,
        ensures
            final(self).wf(),
            final(self).state() is Done,
            cancel_requested ==> {
                &&& final(self).cancel_seen()
                &&& final(self).found().len() == 0
                &&& r matches PipelineStep::Halt(e) && e == SearchProgress::Cancelled
            },
            !cancel_requested ==> {
                &&& final(self).found() == old(self).found()
                &&& r matches PipelineStep::Halt(SearchProgress::Completed { matches_found })
                    && matches_found == old(self).found().len()
            },
    {
        self.phase = SearchPhase::Done;
        if cancel_requested {
            self.cancelled = true;
            self.result = Vec::new();
            proof {
                assert(match_models(self.result@) =~= Seq::<MatchModel>::empty());
            }
            return PipelineStep::Halt(SearchProgress::Cancelled);
        }
        PipelineStep::Halt(SearchProgress::Completed { matches_found: self.result.len() })
    }

    /// Hands out the final match list once the run is over.
    pub fn take_result(self) -> (r: Vec<FileMatchResult>)
        requires
            self.state() is Done,
        ensures
            match_models(r@) == self.found(),
    {
        self.result
    }
}

} // verus!
