//! The operation registry: lifecycle tracking for cancellable operations.
//!
//! The registry maps operation identifiers to entries. An `Active` entry
//! carries the operation's cancellation flag; a `Tombstone` records that an
//! identifier was cancelled before (or without) being registered, so that a
//! later registration attempt fails instead of losing the cancellation.
//! Stale tombstones are swept lazily, from registration, once the registry
//! grows past a threshold.
//!
//! Callers pass the current time in explicitly (as milliseconds), which
//! keeps every transition a function of its arguments.
//!
//! The registry is a single-owner structure (`&mut self` transitions)
//! rather than a wrapper over a concurrent map: a concurrent map mutates
//! through `&self`, and a contract on such a call can name neither the
//! state before nor the state after, so nothing about the transitions
//! could be stated, let alone proved. Callers that share the registry
//! across threads put it behind a lock and keep every contract here intact.

use vstd::prelude::*;

verus! {

/// Registry size above which a registration triggers a tombstone sweep.
pub const SWEEP_THRESHOLD: usize = 100;

/// Age, in milliseconds, at which a tombstone becomes eligible for removal.
pub const TOMBSTONE_MAX_AGE_MS: u64 = 60000;

/// Error returned when an operation was cancelled before it could start.
#[derive(Debug, Clone, PartialEq, Eq, Structural)]
pub struct CancelledError;

impl CancelledError {
    /// The human-readable description of this error.
    pub fn message(&self) -> (r: String)
        ensures
            r@ == "Operation was cancelled"@,
    {
        "Operation was cancelled".to_owned()
    }
}

/// One registry entry: a running operation's cancellation flag, or a
/// tombstone recording a pre-cancellation.
#[derive(Debug, Clone, Copy, PartialEq, Eq, Structural)]
pub enum OperationEntry {
    /// An active operation; `cancelled` is its cancellation flag.
    Active { cancelled: bool },
    /// A pre-cancelled identifier, stamped with its creation time.
    Tombstone { created_ms: u64 },
}

/// Token for one registration. Handing it back to
/// [`OperationRegistry::release`] removes the registration's entry; because
/// the token is consumed, the removal happens exactly once.
#[derive(Debug)]
pub struct OperationGuard {
    id: String,
}

impl OperationGuard {
    /// The identifier this guard was registered under.
    pub closed spec fn view(&self) -> Seq<char> {
        self.id@
    }

    /// Returns the identifier this guard was registered under.
    pub fn id(&self) -> (r: &str)
        ensures
            r@ == self@,
    {
        self.id.as_str()
    }
}

/// The age of a timestamp, saturating at zero.
pub open spec fn age_of(now_ms: u64, created_ms: u64) -> int {
    if now_ms >= created_ms {
        now_ms - created_ms
    } else {
        0
    }
}

/// Whether a sweep at time `now_ms` retains the entry `e`: active entries
/// always stay; tombstones stay while younger than the maximum age.
pub open spec fn keeps_entry(e: OperationEntry, now_ms: u64) -> bool {
    match e {
        OperationEntry::Active { .. } => true,
        OperationEntry::Tombstone { created_ms } => age_of(now_ms, created_ms) < TOMBSTONE_MAX_AGE_MS,
    }
}

/// The registry after a sweep: exactly the retained entries, unchanged.
pub open spec fn sweep_spec(
    m: Map<Seq<char>, OperationEntry>,
    now_ms: u64,
) -> Map<Seq<char>, OperationEntry> {
    Map::new(|k: Seq<char>| m.contains_key(k) && keeps_entry(m[k], now_ms), |k: Seq<char>| m[k])
}

/// The registry after `cancel(id)`: an active entry's flag is set, a
/// tombstone is left alone, and an absent identifier gains a tombstone.
pub open spec fn cancel_spec(
    m: Map<Seq<char>, OperationEntry>,
    id: Seq<char>,
    now_ms: u64,
) -> Map<Seq<char>, OperationEntry> {
    if m.contains_key(id) {
        match m[id] {
            OperationEntry::Active { .. } => m.insert(
                id,
                OperationEntry::Active { cancelled: true },
            ),
            OperationEntry::Tombstone { .. } => m,
        }
    } else {
        m.insert(id, OperationEntry::Tombstone { created_ms: now_ms })
    }
}

/// Whether `try_register(id)` fails: exactly when a tombstone holds the id.
pub open spec fn try_register_fails(m: Map<Seq<char>, OperationEntry>, id: Seq<char>) -> bool {
    m.contains_key(id) && m[id] matches OperationEntry::Tombstone { .. }
}

/// The registry after `try_register(id)`: on failure the tombstone is
/// consumed; otherwise a sweep runs first if the registry is over the
/// threshold, and a fresh active entry is inserted (replacing any entry
/// still present under the same id).
pub open spec fn try_register_spec(
    m: Map<Seq<char>, OperationEntry>,
    id: Seq<char>,
    now_ms: u64,
) -> Map<Seq<char>, OperationEntry> {
    if try_register_fails(m, id) {
        m.remove(id)
    } else {
        let swept = if m.dom().len() > SWEEP_THRESHOLD {
            sweep_spec(m, now_ms)
        } else {
            m
        };
        swept.insert(id, OperationEntry::Active { cancelled: false })
    }
}

/// The abstract map held by a sequence of key/entry pairs.
pub closed spec fn map_of(s: Seq<(String, OperationEntry)>) -> Map<Seq<char>, OperationEntry>
    decreases s.len(),
{
    if s.len() == 0 {
        Map::empty()
    } else {
        map_of(s.drop_last()).insert(s.last().0@, s.last().1)
    }
}

/// The pairs carry pairwise-distinct keys.
pub closed spec fn keys_distinct(s: Seq<(String, OperationEntry)>) -> bool {
    forall|i: int, j: int| 0 <= i < j < s.len() ==> (#[trigger] s[i]).0@ != (#[trigger] s[j]).0@
}

proof fn lemma_map_of_contains(s: Seq<(String, OperationEntry)>, k: Seq<char>)
    ensures
        map_of(s).contains_key(k) <==> exists|i: int| 0 <= i < s.len() && (#[trigger] s[i]).0@ == k,
    decreases s.len(),
{
    if s.len() > 0 {
        lemma_map_of_contains(s.drop_last(), k);
        if map_of(s).contains_key(k) {
            if s.last().0@ == k {
                assert(s[s.len() - 1].0@ == k);
            } else {
                let i = choose|i: int|
                    0 <= i < s.drop_last().len() && (#[trigger] s.drop_last()[i]).0@ == k;
                assert(s[i].0@ == k);
            }
        }
        if exists|i: int| 0 <= i < s.len() && (#[trigger] s[i]).0@ == k {
            let i = choose|i: int| 0 <= i < s.len() && (#[trigger] s[i]).0@ == k;
            if i < s.len() - 1 {
                assert(s.drop_last()[i].0@ == k);
            }
        }
    }
}

proof fn lemma_map_of_index(s: Seq<(String, OperationEntry)>, i: int)
    requires
        keys_distinct(s),
        0 <= i < s.len(),
    ensures
        map_of(s).contains_key(s[i].0@),
        map_of(s)[s[i].0@] == s[i].1,
    decreases s.len(),
{
    if i == s.len() - 1 {
        assert(s.last() == s[i]);
    } else {
        assert(keys_distinct(s.drop_last()));
        assert(s.drop_last()[i] == s[i]);
        lemma_map_of_index(s.drop_last(), i);
        assert(s[i].0@ != s.last().0@);
    }
}

proof fn lemma_map_of_len(s: Seq<(String, OperationEntry)>)
    requires
        keys_distinct(s),
    ensures
        map_of(s).dom().finite(),
        map_of(s).dom().len() == s.len(),
    decreases s.len(),
{
    if s.len() > 0 {
        assert(keys_distinct(s.drop_last()));
        lemma_map_of_len(s.drop_last());
        lemma_map_of_contains(s.drop_last(), s.last().0@);
        assert forall|i: int| 0 <= i < s.drop_last().len() implies (#[trigger] s.drop_last()[
            i
        ]).0@ != s.last().0@ by {
            assert(s[i] == s.drop_last()[i]);
            assert(s[i].0@ != s[s.len() - 1].0@);
        }
        assert(!map_of(s.drop_last()).contains_key(s.last().0@));
        assert(map_of(s).dom() =~= map_of(s.drop_last()).dom().insert(s.last().0@));
        vstd::set::axiom_set_insert_len(map_of(s.drop_last()).dom(), s.last().0@);
    }
}

proof fn lemma_map_of_update(s: Seq<(String, OperationEntry)>, i: int, e: OperationEntry)
    requires
        keys_distinct(s),
        0 <= i < s.len(),
        s.update(i, (s[i].0, e))[i].0@ == s[i].0@,
    ensures
        keys_distinct(s.update(i, (s[i].0, e))),
        map_of(s.update(i, (s[i].0, e))) == map_of(s).insert(s[i].0@, e),
    decreases s.len(),
{
    let t = s.update(i, (s[i].0, e));
    assert forall|p: int, q: int| 0 <= p < q < t.len() implies (#[trigger] t[p]).0@
        != (#[trigger] t[q]).0@ by {
        assert(t[p].0@ == s[p].0@);
        assert(t[q].0@ == s[q].0@);
    }
    if i == s.len() - 1 {
        assert(t.drop_last() =~= s.drop_last());
        assert(t.last() == (s[i].0, e));
        assert(map_of(t) == map_of(s.drop_last()).insert(s[i].0@, e));
        assert(map_of(s) == map_of(s.drop_last()).insert(s[i].0@, s[i].1));
        assert(map_of(s).insert(s[i].0@, e) =~= map_of(s.drop_last()).insert(s[i].0@, e));
    } else {
        assert(keys_distinct(s.drop_last()));
        assert(s.drop_last()[i] == s[i]);
        lemma_map_of_update(s.drop_last(), i, e);
        assert(t.drop_last() =~= s.drop_last().update(i, (s[i].0, e)));
        assert(t.last() == s.last());
        assert(map_of(t) == map_of(s.drop_last()).insert(s[i].0@, e).insert(s.last().0@, s.last().1));
        assert(s[i].0@ != s.last().0@);
        assert(map_of(s.drop_last()).insert(s[i].0@, e).insert(s.last().0@, s.last().1)
            =~= map_of(s.drop_last()).insert(s.last().0@, s.last().1).insert(s[i].0@, e));
    }
}

proof fn lemma_map_of_remove(s: Seq<(String, OperationEntry)>, i: int)
    requires
        keys_distinct(s),
        0 <= i < s.len(),
    ensures
        keys_distinct(s.remove(i)),
        map_of(s.remove(i)) == map_of(s).remove(s[i].0@),
    decreases s.len(),
{
    let t = s.remove(i);
    assert forall|p: int, q: int| 0 <= p < q < t.len() implies (#[trigger] t[p]).0@
        != (#[trigger] t[q]).0@ by {
        let p0 = if p < i {
            p
        } else {
            p + 1
        };
        let q0 = if q < i {
            q
        } else {
            q + 1
        };
        assert(t[p] == s[p0]);
        assert(t[q] == s[q0]);
    }
    if i == s.len() - 1 {
        assert(t =~= s.drop_last());
        lemma_map_of_contains(s.drop_last(), s.last().0@);
        assert forall|j: int| 0 <= j < s.drop_last().len() implies (#[trigger] s.drop_last()[
            j
        ]).0@ != s.last().0@ by {
            assert(s.drop_last()[j] == s[j]);
            assert(s[j].0@ != s[s.len() - 1].0@);
        }
        assert(!map_of(s.drop_last()).contains_key(s.last().0@));
        assert(map_of(s) == map_of(s.drop_last()).insert(s.last().0@, s.last().1));
        assert(map_of(s).remove(s.last().0@) =~= map_of(s.drop_last()));
    } else {
        assert(keys_distinct(s.drop_last()));
        assert(s.drop_last()[i] == s[i]);
        lemma_map_of_remove(s.drop_last(), i);
        assert(t.drop_last() =~= s.drop_last().remove(i));
        assert(t.last() == s.last());
        assert(map_of(t) == map_of(s.drop_last()).remove(s[i].0@).insert(s.last().0@, s.last().1));
        assert(s[i].0@ != s.last().0@);
        assert(map_of(s.drop_last()).remove(s[i].0@).insert(s.last().0@, s.last().1)
            =~= map_of(s.drop_last()).insert(s.last().0@, s.last().1).remove(s[i].0@));
    }
}

/// Registry of operation lifecycles, keyed by caller-chosen identifiers.
pub struct OperationRegistry {
    entries: Vec<(String, OperationEntry)>,
}

impl OperationRegistry {
    /// The abstract state: a map from identifier to entry.
    pub closed spec fn view(&self) -> Map<Seq<char>, OperationEntry> {
        map_of(self.entries@)
    }

    /// Internal representation invariant: one entry per identifier.
    pub closed spec fn wf(&self) -> bool {
        keys_distinct(self.entries@)
    }

    /// Creates an empty registry.
    pub fn new() -> (r: Self)
        ensures
            r.wf(),
            r@ === Map::<Seq<char>, OperationEntry>::empty(),
    {
        OperationRegistry { entries: Vec::new() }
    }

    /// Finds the position of `id` among the entries.
    fn find_index(&self, id: &str) -> (r: Option<usize>)
        requires
            self.wf(),
        ensures
            match r {
                Some(i) => i < self.entries@.len() && self.entries@[i as int].0@ == id@
                    && self@.contains_key(id@) && self@[id@] == self.entries@[i as int].1,
                None => !self@.contains_key(id@),
            },
    {
        let key: String = id.to_owned();
        let n = self.entries.len();
        let mut i: usize = 0;
        while i < n
            invariant
                self.wf(),
                n == self.entries@.len(),
                key@ == id@,
                0 <= i <= n,
                forall|j: int| 0 <= j < i ==> (#[trigger] self.entries@[j]).0@ != id@,
            decreases n - i,
        {
            if self.entries[i].0 == key {
                proof {
                    lemma_map_of_index(self.entries@, i as int);
                }
                return Some(i);
            }
            i += 1;
        }
        proof {
            lemma_map_of_contains(self.entries@, id@);
        }
        None
    }

    /// Number of entries currently in the registry.
    pub fn len(&self) -> (r: usize)
        requires
            self.wf(),
        ensures
            r == self@.dom().len(),
    {
        proof {
            lemma_map_of_len(self.entries@);
        }
        self.entries.len()
    }

    /// Whether the registry holds no entry.
    pub fn is_empty(&self) -> (r: bool)
        requires
            self.wf(),
        ensures
            r == (self@.dom() === Set::<Seq<char>>::empty()),
    {
        proof {
            lemma_map_of_len(self.entries@);
            if self.entries@.len() == 0 {
                assert(self@.dom() =~= Set::<Seq<char>>::empty());
            } else {
                lemma_map_of_index(self.entries@, 0);
                assert(self@.dom().contains(self.entries@[0].0@));
            }
        }
        self.entries.len() == 0
    }

    /// Whether any entry is registered under `id`.
    pub fn contains(&self, id: &str) -> (r: bool)
        requires
            self.wf(),
        ensures
            r == self@.contains_key(id@),
    {
        self.find_index(id).is_some()
    }

    /// Whether `id` currently maps to a tombstone.
    pub fn is_tombstone(&self, id: &str) -> (r: bool)
        requires
            self.wf(),
        ensures
            r == (self@.contains_key(id@) && self@[id@] matches OperationEntry::Tombstone { .. }),
    {
        match self.find_index(id) {
            Some(i) => match self.entries[i].1 {
                OperationEntry::Tombstone { .. } => true,
                OperationEntry::Active { .. } => false,
            },
            None => false,
        }
    }

    /// Whether `id` currently maps to an active entry.
    pub fn is_active(&self, id: &str) -> (r: bool)
        requires
            self.wf(),
        ensures
            r == (self@.contains_key(id@) && self@[id@] matches OperationEntry::Active { .. }),
    {
        match self.find_index(id) {
            Some(i) => match self.entries[i].1 {
                OperationEntry::Active { .. } => true,
                OperationEntry::Tombstone { .. } => false,
            },
            None => false,
        }
    }

    /// Whether `id`'s active entry has its cancellation flag set. The flag
    /// is what running workers poll at their checkpoints.
    pub fn is_cancelled(&self, id: &str) -> (r: bool)
        requires
            self.wf(),
        ensures
            r == (self@.contains_key(id@) && self@[id@] matches OperationEntry::Active {
                cancelled: true,
            }),
    {
        match self.find_index(id) {
            Some(i) => match self.entries[i].1 {
                OperationEntry::Active { cancelled } => cancelled,
                OperationEntry::Tombstone { .. } => false,
            },
            None => false,
        }
    }

    /// Inserts or replaces the entry under `id`.
    fn put(&mut self, id: &str, e: OperationEntry)
        requires
            old(self).wf(),
        ensures
            final(self).wf(),
            final(self)@ == old(self)@.insert(id@, e),
    {
        match self.find_index(id) {
            Some(i) => {
                let pair = self.entries.remove(i);
                let ghost removed = self.entries@;
                proof {
                    lemma_map_of_remove(old(self).entries@, i as int);
                }
                self.entries.insert(i, (pair.0, e));
                proof {
                    let s = old(self).entries@;
                    assert(self.entries@ =~= s.update(i as int, (s[i as int].0, e)));
                    lemma_map_of_update(s, i as int, e);
                    assert(final(self)@ == old(self)@.insert(id@, e));
                }
            },
            None => {
                let key: String = id.to_owned();
                self.entries.push((key, e));
                proof {
                    let s = old(self).entries@;
                    assert(self.entries@.drop_last() =~= s);
                    lemma_map_of_contains(s, id@);
                    assert forall|p: int, q: int|
                        0 <= p < q < self.entries@.len() implies (#[trigger] self.entries@[p]).0@
                        != (#[trigger] self.entries@[q]).0@ by {
                        if q < self.entries@.len() - 1 {
                            assert(self.entries@[p] == s[p]);
                            assert(self.entries@[q] == s[q]);
                        } else {
                            assert(self.entries@[p] == s[p]);
                            assert(self.entries@[q].0@ == id@);
                        }
                    }
                }
            },
        }
    }

    /// Removes the entry under `id`, if any.
    fn remove_entry(&mut self, id: &str)
        requires
            old(self).wf(),
        ensures
            final(self).wf(),
            final(self)@ == old(self)@.remove(id@),
    {
        match self.find_index(id) {
            Some(i) => {
                self.entries.remove(i);
                proof {
                    lemma_map_of_remove(old(self).entries@, i as int);
                }
            },
            None => {
                proof {
                    assert(old(self)@.remove(id@) =~= old(self)@);
                }
            },
        }
    }

    /// Removes every tombstone that has reached the maximum age, keeping
    /// all active entries and every younger tombstone.
    fn sweep(&mut self, now_ms: u64)
        requires
            old(self).wf(),
        ensures
            final(self).wf(),
            final(self)@ == sweep_spec(old(self)@, now_ms),
    {
        let n = self.entries.len();
        let mut kept: Vec<(String, OperationEntry)> = Vec::new();
        let mut i: usize = 0;
        proof {
            assert(self.entries@.subrange(0, 0) =~= Seq::<(String, OperationEntry)>::empty());
            assert(map_of(kept@) =~= sweep_spec(map_of(self.entries@.subrange(0, 0)), now_ms));
        }
        while i < n
            invariant
                self.wf(),
                self == old(self),
                n == self.entries@.len(),
                0 <= i <= n,
                keys_distinct(kept@),
                forall|t: int|
                    0 <= t < kept@.len() ==> exists|u: int|
                        0 <= u < i && (#[trigger] kept@[t]).0@ == self.entries@[u].0@,
                map_of(kept@) == sweep_spec(map_of(self.entries@.subrange(0, i as int)), now_ms),
            decreases n - i,
        {
            let ghost pre = self.entries@.subrange(0, i as int);
            let ghost post = self.entries@.subrange(0, i + 1);
            proof {
                assert(post.drop_last() =~= pre);
                assert(post.last() == self.entries@[i as int]);
                assert(map_of(post) == map_of(pre).insert(
                    self.entries@[i as int].0@,
                    self.entries@[i as int].1,
                ));
            }
            let keep = match self.entries[i].1 {
                OperationEntry::Active { .. } => true,
                OperationEntry::Tombstone { created_ms } => {
                    let age = if now_ms >= created_ms {
                        now_ms - created_ms
                    } else {
                        0
                    };
                    age < TOMBSTONE_MAX_AGE_MS
                },
            };
            proof {
                assert(keep == keeps_entry(self.entries@[i as int].1, now_ms));
            }
            if keep {
                let pair_ref = &self.entries[i];
                let key_copy = pair_ref.0.clone();
                let entry_copy = pair_ref.1;
                let ghost kept_pre = kept@;
                kept.push((key_copy, entry_copy));
                proof {
                    assert(kept@.drop_last() =~= kept_pre);
                    assert(kept@.last().0@ == self.entries@[i as int].0@);
                    assert(kept@.last().1 == self.entries@[i as int].1);
                    // Distinctness: the new key differs from every key already kept.
                    assert forall|p: int, q: int| 0 <= p < q < kept@.len() implies (
                    #[trigger] kept@[p]).0@ != (#[trigger] kept@[q]).0@ by {
                        if q == kept@.len() - 1 {
                            let u = choose|u: int|
                                0 <= u < i && (#[trigger] kept_pre[p]).0@ == self.entries@[u].0@;
                            assert(self.entries@[u].0@ != self.entries@[i as int].0@);
                            assert(kept@[p] == kept_pre[p]);
                        } else {
                            assert(kept@[p] == kept_pre[p]);
                            assert(kept@[q] == kept_pre[q]);
                        }
                    }
                    assert(map_of(kept@) == map_of(kept_pre).insert(
                        self.entries@[i as int].0@,
                        self.entries@[i as int].1,
                    ));
                    assert(map_of(kept@) =~= sweep_spec(map_of(post), now_ms));
                }
            } else {
                proof {
                    lemma_map_of_contains(pre, self.entries@[i as int].0@);
                    assert forall|u: int| 0 <= u < pre.len() implies (#[trigger] pre[u]).0@
                        != self.entries@[i as int].0@ by {
                        assert(pre[u] == self.entries@[u]);
                    }
                    assert(!map_of(pre).contains_key(self.entries@[i as int].0@));
                    assert(map_of(kept@) =~= sweep_spec(map_of(post), now_ms));
                }
            }
            i += 1;
        }
        proof {
            assert(self.entries@.subrange(0, n as int) =~= self.entries@);
        }
        self.entries = kept;
    }

    /// Cancels the operation registered under `id`. An active entry has its
    /// flag set (idempotently); an absent identifier gains a tombstone
    /// stamped `now_ms`; an existing tombstone is left alone.
    pub fn cancel(&mut self, id: &str, now_ms: u64)
        requires
            old(self).wf(),
        ensures
            final(self).wf(),
            final(self)@ == cancel_spec(old(self)@, id@, now_ms),
    {
        match self.find_index(id) {
            Some(i) => match self.entries[i].1 {
                OperationEntry::Active { .. } => {
                    self.put(id, OperationEntry::Active { cancelled: true });
                },
                OperationEntry::Tombstone { .. } => {},
            },
            None => {
                self.put(id, OperationEntry::Tombstone { created_ms: now_ms });
            },
        }
    }

    /// Attempts to register `id`. Fails, consuming the tombstone, when the
    /// identifier was pre-cancelled; otherwise sweeps (if the registry is
    /// over the threshold) and inserts a fresh active entry, returning the
    /// guard that must later be handed back to [`Self::release`].
    pub fn try_register(&mut self, id: &str, now_ms: u64) -> (r: Result<
        OperationGuard,
        CancelledError,
    >)
        requires
            old(self).wf(),
        ensures
            final(self).wf(),
            final(self)@ == try_register_spec(old(self)@, id@, now_ms),
            r is Err <==> try_register_fails(old(self)@, id@),
            r matches Ok(guard) ==> guard@ == id@,
    {
        let is_tomb = match self.find_index(id) {
            Some(i) => match self.entries[i].1 {
                OperationEntry::Tombstone { .. } => true,
                OperationEntry::Active { .. } => false,
            },
            None => false,
        };
        if is_tomb {
            self.remove_entry(id);
            return Err(CancelledError);
        }
        if self.len() > SWEEP_THRESHOLD {
            self.sweep(now_ms);
        }
        self.put(id, OperationEntry::Active { cancelled: false });
        Ok(OperationGuard { id: id.to_owned() })
    }

    /// Releases a registration: removes the entry under the guard's
    /// identifier. Consuming the guard makes the removal happen exactly
    /// once; no other path removes active entries.
    pub fn release(&mut self, guard: OperationGuard)
        requires
            old(self).wf(),
        ensures
            final(self).wf(),
            final(self)@ == old(self)@.remove(guard@),
    {
        self.remove_entry(guard.id.as_str());
    }

    /// Inserts a tombstone whose age at `now_ms` is `age_ms`, replacing any
    /// existing entry. Intended for exercising the sweep.
    pub fn insert_tombstone_with_age(&mut self, id: &str, age_ms: u64, now_ms: u64)
        requires
            old(self).wf(),
        ensures
            final(self).wf(),
            final(self)@ == old(self)@.insert(
                id@,
                OperationEntry::Tombstone {
                    created_ms: if age_ms <= now_ms {
                        (now_ms - age_ms) as u64
                    } else {
                        0
                    },
                },
            ),
    {
        let created = if age_ms <= now_ms {
            now_ms - age_ms
        } else {
            0
        };
        self.put(id, OperationEntry::Tombstone { created_ms: created });
    }
}

// ==================== Registry laws ====================

/// Cancelling an unknown identifier plants a tombstone; a following
/// registration fails, and the identifier is absent afterwards — the
/// tombstone is consumed exactly once.
pub proof fn lemma_precancel_then_register(
    m: Map<Seq<char>, OperationEntry>,
    id: Seq<char>,
    t1: u64,
    t2: u64,
)
    requires
        !m.contains_key(id),
    ensures
        try_register_fails(cancel_spec(m, id, t1), id),
        !try_register_spec(cancel_spec(m, id, t1), id, t2).contains_key(id),
{
}

/// `cancel` is idempotent on an active entry: the first call sets the flag,
/// every further call leaves the registry unchanged, and the entry stays a
/// single active entry.
pub proof fn lemma_cancel_idempotent(
    m: Map<Seq<char>, OperationEntry>,
    id: Seq<char>,
    t1: u64,
    t2: u64,
)
    requires
        m.contains_key(id),
        m[id] matches OperationEntry::Active { .. },
    ensures
        cancel_spec(m, id, t1)[id] == (OperationEntry::Active { cancelled: true }),
        cancel_spec(cancel_spec(m, id, t1), id, t2) == cancel_spec(m, id, t1),
        cancel_spec(m, id, t1).dom() == m.dom(),
{
    let m1 = cancel_spec(m, id, t1);
    assert(cancel_spec(m1, id, t2) =~= m1);
    assert(m1.dom() =~= m.dom());
}

/// A sweep never removes an active entry, and removes exactly the
/// tombstones that have reached the maximum age.
pub proof fn lemma_sweep_exact(m: Map<Seq<char>, OperationEntry>, now_ms: u64, id: Seq<char>)
    ensures
        sweep_spec(m, now_ms).contains_key(id) <==> m.contains_key(id) && keeps_entry(
            m[id],
            now_ms,
        ),
        (m.contains_key(id) && m[id] matches OperationEntry::Active { .. }) ==> sweep_spec(
            m,
            now_ms,
        ).contains_key(id) && sweep_spec(m, now_ms)[id] == m[id],
{
}

/// A registration that stays at or under the sweep threshold leaves every
/// other entry — however old a tombstone it is — in place.
pub proof fn lemma_register_under_threshold_keeps(
    m: Map<Seq<char>, OperationEntry>,
    id: Seq<char>,
    other: Seq<char>,
    now_ms: u64,
)
    requires
        !try_register_fails(m, id),
        m.dom().len() <= SWEEP_THRESHOLD,
        other != id,
        m.contains_key(other),
    ensures
        try_register_spec(m, id, now_ms).contains_key(other),
        try_register_spec(m, id, now_ms)[other] == m[other],
{
}

/// A registration over the threshold sweeps: active entries and young
/// tombstones survive, expired tombstones are gone.
pub proof fn lemma_register_over_threshold_sweeps(
    m: Map<Seq<char>, OperationEntry>,
    id: Seq<char>,
    other: Seq<char>,
    now_ms: u64,
)
    requires
        !try_register_fails(m, id),
        m.dom().len() > SWEEP_THRESHOLD,
        other != id,
    ensures
        try_register_spec(m, id, now_ms).contains_key(other) <==> m.contains_key(other)
            && keeps_entry(m[other], now_ms),
{
}

/// Releasing a guard removes exactly its own entry: every other identifier
/// keeps its entry, active or not, unchanged.
pub proof fn lemma_release_removes_only_own(
    m: Map<Seq<char>, OperationEntry>,
    id: Seq<char>,
    other: Seq<char>,
)
    requires
        other != id,
    ensures
        !m.remove(id).contains_key(id),
        m.remove(id).contains_key(other) <==> m.contains_key(other),
        m.contains_key(other) ==> m.remove(id)[other] == m[other],
{
}

} // verus!
