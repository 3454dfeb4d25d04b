//! The incremental query engine.
//!
//! Every pipeline stage is a [`QueryKey`], every result a memoized
//! [`Entry`] carrying the dependencies it read and the revision at
//! which its value last changed. Writing an input opens a new revision;
//! the next demand verifies each cached entry by walking its
//! dependencies and re-evaluates only those whose inputs drifted. When a
//! recomputed value equals the memoized one, `computed_at` is preserved:
//! the change cuts off and dependents stay fresh.
//!
//! The engine decides, its caller evaluates. A demand is driven by
//! [`Engine::step`] until it asks for an evaluation, hands a value to the
//! evaluation in flight, or is done. Values are numbers: the caller
//! numbers what its evaluators yield, equal values by equal numbers.

use crate::diagnostic::{diags, Diagnostic, DiagnosticV};
use crate::fxmap::KeyMap;
use crate::patch::copy_diags;
use crate::query::{
    bumped, comparable, lemma_query_code, query_code, query_name, total, QueryKey, QueryStats,
    StatsV,
};
use vstd::prelude::*;

verus! {

/// One memoized result plus its dependency fingerprint.
pub struct Entry {
    /// The memoized value.
    pub value: u64,
    /// Direct dependencies, in demand order.
    pub deps: Vec<QueryKey>,
    /// The values of the dependencies when they were read.
    pub reads: Ghost<Seq<u64>>,
    /// The diagnostics of the dependencies when they were read, then
    /// those the evaluation itself emitted.
    pub diags: Vec<Diagnostic>,
    /// Revision at which `value` last changed.
    pub computed_at: u64,
    /// Revision at which freshness was last verified.
    pub verified_at: u64,
}

/// Model of [`Entry`].
#[verifier::ext_equal]
pub struct EntryV {
    pub value: u64,
    pub deps: Seq<QueryKey>,
    pub reads: Seq<u64>,
    pub diags: Seq<DiagnosticV>,
    pub computed_at: u64,
    pub verified_at: u64,
}

impl Entry {
    /// The model of this entry.
    pub open spec fn view(&self) -> EntryV {
        EntryV {
            value: self.value,
            deps: self.deps@,
            reads: self.reads@,
            diags: diags(self.diags@),
            computed_at: self.computed_at,
            verified_at: self.verified_at,
        }
    }
}

struct Slot {
    key: QueryKey,
    entry: Entry,
}

/// The memo table.
pub struct Memo {
    index: KeyMap,
    slots: Vec<Slot>,
}

impl Memo {
    /// The entries by key.
    pub closed spec fn view(&self) -> Map<QueryKey, EntryV> {
        Map::new(
            |k: QueryKey| self.index@.contains_key(query_code(k)),
            |k: QueryKey| self.slots@[self.index@[query_code(k)] as int].entry@,
        )
    }

    /// Whether every bound key leads to its own slot.
    pub closed spec fn wf(&self) -> bool {
        forall|k: QueryKey|
            #[trigger] self.index@.contains_key(query_code(k)) ==> self.index@[query_code(k)]
                < self.slots@.len() && self.slots@[self.index@[query_code(k)] as int].key == k
    }

    /// An empty table.
    pub fn new() -> (r: Memo)
        ensures
            r.wf(),
            r@ == Map::<QueryKey, EntryV>::empty(),
    {
        let r = Memo { index: KeyMap::new(), slots: Vec::new() };
        proof {
            assert(r@ =~= Map::<QueryKey, EntryV>::empty());
        }
        r
    }

    /// The entry of a key.
    pub fn get(&self, key: QueryKey) -> (r: Option<&Entry>)
        requires
            self.wf(),
        ensures
            match r {
                Some(e) => self@.contains_key(key) && self@[key] == e@,
                None => !self@.contains_key(key),
            },
    {
        match self.index.get(key.code()) {
            Some(i) => {
                assert(self.index@.contains_key(query_code(key)));
                Some(&self.slots[i].entry)
            },
            None => None,
        }
    }

    /// Binds a key to an entry.
    pub fn insert(&mut self, key: QueryKey, entry: Entry)
        requires
            old(self).wf(),
        ensures
            final(self).wf(),
            final(self)@ == old(self)@.insert(key, entry@),
    {
        let ghost before = *self;
        match self.index.get(key.code()) {
            Some(i) => {
                assert(self.index@.contains_key(query_code(key)));
                self.slots.set(i, Slot { key, entry });
            },
            None => {
                let n: usize = self.slots.len();
                self.slots.push(Slot { key, entry });
                self.index.insert(key.code(), n);
            },
        }
        proof {
            assert forall|k: QueryKey| #[trigger]
                self.index@.contains_key(query_code(k)) implies self.index@[query_code(k)]
                < self.slots@.len() && self.slots@[self.index@[query_code(k)] as int].key == k by {
                lemma_query_code(k, key);
                if k != key {
                    assert(before.index@.contains_key(query_code(k)));
                }
            }
            assert forall|k: QueryKey|
                self@.contains_key(k) == before@.insert(key, entry@).contains_key(k) by {
                lemma_query_code(k, key);
            }
            assert forall|k: QueryKey| self@.contains_key(k) implies #[trigger] self@[k]
                == before@.insert(key, entry@)[k] by {
                lemma_query_code(k, key);
                if k != key {
                    assert(before.index@.contains_key(query_code(k)));
                    assert(before.index@.contains_key(query_code(key)) ==> before.slots@[
                        before.index@[query_code(key)] as int].key == key);
                }
            }
            assert(self@ =~= before@.insert(key, entry@));
        }
    }

    /// Marks an entry as verified at a revision.
    pub fn mark(&mut self, key: QueryKey, revision: u64)
        requires
            old(self).wf(),
        ensures
            final(self).wf(),
            final(self)@ == marked(old(self)@, key, revision),
    {
        let (value, computed_at, deps, ds, reads) = match self.get(key) {
            None => return ,
            Some(e) => (e.value, e.computed_at, copy_keys(&e.deps), copy_diags(&e.diags), Ghost(
                e.reads@,
            )),
        };
        self.insert(
            key,
            Entry { value, deps, reads, diags: ds, computed_at, verified_at: revision },
        );
    }
}

/// A table with one entry marked as verified at a revision.
pub open spec fn marked(memo: Map<QueryKey, EntryV>, key: QueryKey, revision: u64) -> Map<
    QueryKey,
    EntryV,
> {
    if memo.contains_key(key) {
        memo.insert(key, EntryV { verified_at: revision, ..memo[key] })
    } else {
        memo
    }
}

fn copy_keys(v: &Vec<QueryKey>) -> (r: Vec<QueryKey>)
    ensures
        r@ == v@,
{
    let mut out: Vec<QueryKey> = Vec::new();
    let mut i: usize = 0;
    while i < v.len()
        invariant
            i <= v@.len(),
            out@ == v@.take(i as int),
        decreases v@.len() - i,
    {
        out.push(v[i]);
        i += 1;
        proof {
            assert(out@ =~= v@.take(i as int));
        }
    }
    proof {
        assert(v@.take(v@.len() as int) =~= v@);
    }
    out
}

/// Work in progress.
pub enum Job {
    /// Verifying an entry: `next` is the dependency looked at.
    Check { key: QueryKey, verified_at: u64, deps: Vec<QueryKey>, next: usize },
    /// An evaluation in flight, with what it has demanded so far.
    Run { key: QueryKey, deps: Vec<QueryKey>, reads: Ghost<Seq<u64>> },
}

/// Model of [`Job`].
#[verifier::ext_equal]
pub enum JobV {
    Check { key: QueryKey, verified_at: u64, deps: Seq<QueryKey>, next: int },
    Run { key: QueryKey, deps: Seq<QueryKey>, reads: Seq<u64> },
}

impl Job {
    /// The model of this job.
    pub open spec fn view(&self) -> JobV {
        match self {
            Job::Check { key, verified_at, deps, next } => JobV::Check {
                key: *key,
                verified_at: *verified_at,
                deps: deps@,
                next: *next as int,
            },
            Job::Run { key, deps, reads } => JobV::Run {
                key: *key,
                deps: deps@,
                reads: reads@,
            },
        }
    }
}

/// The models of a sequence of jobs.
pub open spec fn jobs(v: Seq<Job>) -> Seq<JobV> {
    Seq::new(v.len(), |i: int| v[i]@)
}

/// What the engine turns to next.
#[derive(Clone, Copy, Debug, PartialEq, Eq, Structural)]
pub enum Focus {
    /// Nothing is in progress.
    Idle,
    /// A query to bring to freshness.
    Enter(QueryKey),
    /// The next dependency of the entry being verified.
    Next,
    /// A query that is fresh now.
    Back(QueryKey),
    /// The evaluation in flight.
    Waiting,
}

/// What a step asks of the engine's caller.
#[derive(Clone, Copy, Debug, PartialEq, Eq, Structural)]
pub enum Action {
    /// Step again.
    Again,
    /// Evaluate a query.
    Evaluate(QueryKey),
    /// Go on with the evaluation in flight: the query it demanded has
    /// this value.
    Resume(QueryKey, u64),
    /// The demanded query has this value.
    Ready(QueryKey, u64),
    /// There is nothing to step.
    Nothing,
}

/// The engine.
pub struct Engine {
    memo: Memo,
    revision: u64,
    stack: Vec<Job>,
    focus: Focus,
    last_run: Vec<(QueryKey, u64)>,
    stats: QueryStats,
}

/// Model of [`Engine`].
#[verifier::ext_equal]
pub struct EngineV {
    pub memo: Map<QueryKey, EntryV>,
    pub revision: u64,
    pub stack: Seq<JobV>,
    pub focus: Focus,
    pub last_run: Seq<(QueryKey, u64)>,
    pub stats: StatsV,
}

/// Statistics after a memoized entry served.
pub open spec fn served(s: StatsV, k: QueryKey) -> StatsV {
    StatsV { reused: bumped(s.reused, query_name(k), 1), ..s }
}

/// Statistics after an evaluation.
pub open spec fn ran(s: StatsV, k: QueryKey, nanos: u64) -> StatsV {
    StatsV {
        executed: bumped(s.executed, query_name(k), 1),
        eval_nanos: bumped(s.eval_nanos, query_name(k), nanos),
        ..s
    }
}

/// Whether the counters have room for one more event.
pub open spec fn room(s: StatsV, nanos: u64) -> bool {
    &&& total(s.executed) < u64::MAX
    &&& total(s.reused) < u64::MAX
    &&& total(s.eval_nanos) + nanos <= u64::MAX
}

/// An engine at the start of a top-level demand: the run log is empty.
pub open spec fn opened(s: EngineV, key: QueryKey) -> EngineV {
    EngineV { last_run: Seq::empty(), focus: Focus::Enter(key), ..s }
}

/// An engine after the evaluation in flight demanded a query.
pub open spec fn demanded(s: EngineV, key: QueryKey) -> EngineV {
    match s.stack.last() {
        JobV::Run { key: k, deps, reads } => EngineV {
            stack: s.stack.drop_last().push(JobV::Run { key: k, deps: deps.push(key), reads }),
            focus: Focus::Enter(key),
            ..s
        },
        JobV::Check { key: _, verified_at: _, deps: _, next: _ } => s,
    }
}

/// Whether an evaluation is in flight and may demand or finish.
pub open spec fn in_flight(s: EngineV) -> bool {
    s.focus == Focus::Waiting && s.stack.len() > 0 && s.stack.last() is Run
}

/// An evaluation of `key` at its start.
pub open spec fn fresh_run(key: QueryKey) -> JobV {
    JobV::Run { key, deps: Seq::empty(), reads: Seq::empty() }
}

/// Whether a dependency changed after an entry was last verified. Not
/// after the entry's value last changed: an entry that recomputed to an
/// equal value keeps its `computed_at` and must not stay dirty.
pub open spec fn changed_since(memo: Map<QueryKey, EntryV>, dep: QueryKey, at: u64) -> bool {
    !memo.contains_key(dep) || memo[dep].computed_at > at
}

/// One step of the engine.
pub open spec fn stepped(s: EngineV) -> (EngineV, Action) {
    match s.focus {
        Focus::Idle => (s, Action::Nothing),
        Focus::Waiting => (s, Action::Nothing),
        Focus::Enter(k) => if !s.memo.contains_key(k) {
            (
                EngineV { stack: s.stack.push(fresh_run(k)), focus: Focus::Waiting, ..s },
                Action::Evaluate(k),
            )
        } else if s.memo[k].verified_at == s.revision {
            (EngineV { focus: Focus::Back(k), stats: served(s.stats, k), ..s }, Action::Again)
        } else {
            (
                EngineV {
                    stack: s.stack.push(
                        JobV::Check {
                            key: k,
                            verified_at: s.memo[k].verified_at,
                            deps: s.memo[k].deps,
                            next: 0,
                        },
                    ),
                    focus: Focus::Next,
                    ..s
                },
                Action::Again,
            )
        },
        Focus::Next => if s.stack.len() == 0 {
            (s, Action::Nothing)
        } else {
            match s.stack.last() {
                JobV::Run { key: _, deps: _, reads: _ } => (s, Action::Nothing),
                JobV::Check { key, verified_at, deps, next } => if next >= deps.len() {
                    (
                        EngineV {
                            memo: marked(s.memo, key, s.revision),
                            stack: s.stack.drop_last(),
                            focus: Focus::Back(key),
                            stats: served(s.stats, key),
                            ..s
                        },
                        Action::Again,
                    )
                } else {
                    (EngineV { focus: Focus::Enter(deps[next]), ..s }, Action::Again)
                },
            }
        },
        Focus::Back(k) => if !s.memo.contains_key(k) {
            (s, Action::Nothing)
        } else if s.stack.len() == 0 {
            (EngineV { focus: Focus::Idle, ..s }, Action::Ready(k, s.memo[k].value))
        } else {
            match s.stack.last() {
                JobV::Run { key, deps, reads } => (
                    EngineV {
                        stack: s.stack.drop_last().push(
                            JobV::Run { key, deps, reads: reads.push(s.memo[k].value) },
                        ),
                        focus: Focus::Waiting,
                        ..s
                    },
                    Action::Resume(k, s.memo[k].value),
                ),
                JobV::Check { key, verified_at, deps, next } => if changed_since(
                    s.memo,
                    k,
                    verified_at,
                ) {
                    (
                        EngineV {
                            stack: s.stack.drop_last().push(fresh_run(key)),
                            focus: Focus::Waiting,
                            ..s
                        },
                        Action::Evaluate(key),
                    )
                } else {
                    (
                        EngineV {
                            stack: s.stack.drop_last().push(
                                JobV::Check {
                                    key,
                                    verified_at,
                                    deps,
                                    next: if next < deps.len() {
                                        next + 1
                                    } else {
                                        next
                                    },
                                },
                            ),
                            focus: Focus::Next,
                            ..s
                        },
                        Action::Again,
                    )
                },
            }
        },
    }
}

/// The diagnostics recorded on the entries of dependencies, in order.
pub open spec fn dep_diags(memo: Map<QueryKey, EntryV>, deps: Seq<QueryKey>) -> Seq<DiagnosticV>
    decreases deps.len(),
{
    if deps.len() == 0 {
        Seq::empty()
    } else {
        let front = dep_diags(memo, deps.drop_last());
        if memo.contains_key(deps.last()) {
            front + memo[deps.last()].diags
        } else {
            front
        }
    }
}

/// The revision at which a value last changed, once a query evaluated to
/// it: an equal value keeps the memoized entry's.
pub open spec fn changed_at(s: EngineV, key: QueryKey, value: u64) -> u64 {
    if s.memo.contains_key(key) && comparable(key) && s.memo[key].value == value {
        s.memo[key].computed_at
    } else {
        s.revision
    }
}

/// An engine after the evaluation in flight yielded its value.
pub open spec fn finished(s: EngineV, value: u64, own: Seq<DiagnosticV>, nanos: u64) -> EngineV {
    match s.stack.last() {
        JobV::Check { key: _, verified_at: _, deps: _, next: _ } => s,
        JobV::Run { key, deps, reads } => EngineV {
            memo: s.memo.insert(
                key,
                EntryV {
                    value,
                    deps,
                    reads,
                    diags: dep_diags(s.memo, deps) + own,
                    computed_at: changed_at(s, key, value),
                    verified_at: s.revision,
                },
            ),
            stack: s.stack.drop_last(),
            focus: Focus::Back(key),
            last_run: s.last_run.push((key, nanos)),
            stats: ran(s.stats, key, nanos),
            ..s
        },
    }
}

/// An engine after an input was written in the current revision.
pub open spec fn written(s: EngineV, key: QueryKey, value: u64) -> EngineV {
    EngineV {
        memo: s.memo.insert(
            key,
            EntryV {
                value,
                deps: Seq::empty(),
                reads: Seq::empty(),
                diags: Seq::empty(),
                computed_at: changed_at(s, key, value),
                verified_at: s.revision,
            },
        ),
        ..s
    }
}

impl Engine {
    /// The model of this engine.
    pub closed spec fn view(&self) -> EngineV {
        EngineV {
            memo: self.memo@,
            revision: self.revision,
            stack: jobs(self.stack@),
            focus: self.focus,
            last_run: self.last_run@,
            stats: self.stats@,
        }
    }

    /// Whether the memo table is well formed.
    pub closed spec fn wf(&self) -> bool {
        self.memo.wf()
    }

    /// An engine that has computed nothing.
    pub fn new() -> (r: Engine)
        ensures
            r.wf(),
            r@ == (EngineV {
                memo: Map::empty(),
                revision: 0,
                stack: Seq::empty(),
                focus: Focus::Idle,
                last_run: Seq::empty(),
                stats: StatsV {
                    executed: Seq::empty(),
                    reused: Seq::empty(),
                    eval_nanos: Seq::empty(),
                },
            }),
    {
        let r = Engine {
            memo: Memo::new(),
            revision: 0,
            stack: Vec::new(),
            focus: Focus::Idle,
            last_run: Vec::new(),
            stats: QueryStats::new(),
        };
        proof {
            assert(jobs(r.stack@) =~= Seq::empty());
        }
        r
    }

    /// The global input revision.
    pub fn revision(&self) -> (r: u64)
        ensures
            r == self@.revision,
    {
        self.revision
    }

    /// Cumulative query statistics since the engine was created.
    pub fn stats(&self) -> (r: &QueryStats)
        ensures
            r@ == self@.stats,
    {
        &self.stats
    }

    /// The evaluations of the current demand with their nanoseconds.
    pub fn last_run(&self) -> (r: &Vec<(QueryKey, u64)>)
        ensures
            r@ == self@.last_run,
    {
        &self.last_run
    }

    /// Query keys evaluated during the most recent top-level demand —
    /// the observable unit of incremental work. Empty when the last
    /// demand verified everything fresh.
    pub fn last_evaluated(&self) -> (r: Vec<QueryKey>)
        ensures
            r@ == Seq::new(self@.last_run.len(), |i: int| self@.last_run[i].0),
    {
        let ghost all = Seq::new(self@.last_run.len(), |i: int| self@.last_run[i].0);
        let mut out: Vec<QueryKey> = Vec::new();
        let mut i: usize = 0;
        while i < self.last_run.len()
            invariant
                i <= self.last_run@.len(),
                all == Seq::new(self.last_run@.len(), |j: int| self.last_run@[j].0),
                out@ == all.take(i as int),
            decreases self.last_run@.len() - i,
        {
            out.push(self.last_run[i].0);
            i += 1;
            proof {
                assert(out@ =~= all.take(i as int));
            }
        }
        proof {
            assert(all.take(all.len() as int) =~= all);
        }
        out
    }

    /// The memoized value of a query.
    pub fn value(&self, key: QueryKey) -> (r: Option<u64>)
        requires
            self.wf(),
        ensures
            r == (if self@.memo.contains_key(key) {
                Some(self@.memo[key].value)
            } else {
                None
            }),
    {
        match self.memo.get(key) {
            Some(e) => Some(e.value),
            None => None,
        }
    }

    /// The revision a query's value last changed at (`0` = never).
    pub fn stamp(&self, key: QueryKey) -> (r: u64)
        requires
            self.wf(),
        ensures
            r == (if self@.memo.contains_key(key) {
                self@.memo[key].computed_at
            } else {
                0
            }),
    {
        match self.memo.get(key) {
            Some(e) => e.computed_at,
            None => 0,
        }
    }

    /// Diagnostics recorded on a query's entry.
    pub fn entry_diags(&self, key: QueryKey) -> (r: Vec<Diagnostic>)
        requires
            self.wf(),
        ensures
            diags(r@) == (if self@.memo.contains_key(key) {
                self@.memo[key].diags
            } else {
                Seq::empty()
            }),
    {
        match self.memo.get(key) {
            Some(e) => copy_diags(&e.diags),
            None => {
                let v: Vec<Diagnostic> = Vec::new();
                proof {
                    assert(diags(v@) =~= Seq::empty());
                }
                v
            },
        }
    }

    /// Dependencies demanded so far by the evaluation in flight.
    pub fn deps_so_far(&self) -> (r: Vec<QueryKey>)
        ensures
            r@ == (if self@.stack.len() > 0 && self@.stack.last() is Run {
                self@.stack.last()->Run_deps
            } else {
                Seq::empty()
            }),
    {
        let n: usize = self.stack.len();
        if n == 0 {
            let v: Vec<QueryKey> = Vec::new();
            assert(v@ =~= Seq::empty());
            return v;
        }
        assert(jobs(self.stack@).last() == self.stack@[n - 1]@);
        match &self.stack[n - 1] {
            Job::Run { key: _, deps, reads: _ } => copy_keys(deps),
            Job::Check { key: _, verified_at: _, deps: _, next: _ } => {
                let v: Vec<QueryKey> = Vec::new();
                assert(v@ =~= Seq::empty());
                v
            },
        }
    }

    /// Opens a new revision.
    pub fn open_revision(&mut self)
        requires
            old(self).wf(),
            old(self)@.revision < u64::MAX,
        ensures
            final(self).wf(),
            final(self)@ == (EngineV {
                revision: (old(self)@.revision + 1) as u64,
                ..old(self)@
            }),
    {
        self.revision = self.revision + 1;
    }

    fn stamp_for(&self, key: QueryKey, value: u64) -> (r: u64)
        requires
            self.wf(),
        ensures
            r == changed_at(self@, key, value),
    {
        match self.memo.get(key) {
            Some(e) => if key.is_comparable() && e.value == value {
                e.computed_at
            } else {
                self.revision
            },
            None => self.revision,
        }
    }

    /// Writes an input in the current revision. An input that is
    /// written unchanged keeps its `computed_at`: dependents stay fresh.
    pub fn write_input(&mut self, key: QueryKey, value: u64)
        requires
            old(self).wf(),
        ensures
            final(self).wf(),
            final(self)@ == written(old(self)@, key, value),
    {
        let computed_at = self.stamp_for(key, value);
        let ds: Vec<Diagnostic> = Vec::new();
        let deps: Vec<QueryKey> = Vec::new();
        proof {
            assert(diags(ds@) =~= Seq::empty());
            assert(deps@ =~= Seq::empty());
        }
        let verified_at = self.revision;
        self.memo.insert(
            key,
            Entry { value, deps, reads: Ghost(Seq::empty()), diags: ds, computed_at, verified_at },
        );
    }

    /// Starts a top-level demand: clears the run log and turns to `key`.
    pub fn open(&mut self, key: QueryKey)
        requires
            old(self).wf(),
        ensures
            final(self).wf(),
            final(self)@ == opened(old(self)@, key),
    {
        self.last_run = Vec::new();
        self.focus = Focus::Enter(key);
        proof {
            assert(self.last_run@ =~= Seq::empty());
        }
    }

    /// Records `key` as a dependency of the evaluation in flight and
    /// turns to it.
    pub fn demand(&mut self, key: QueryKey)
        requires
            old(self).wf(),
            in_flight(old(self)@),
        ensures
            final(self).wf(),
            final(self)@ == demanded(old(self)@, key),
    {
        let ghost before = jobs(self.stack@);
        proof {
            assert(before.last() == self.stack@[self.stack@.len() - 1]@);
        }
        if let Some(Job::Run { key: k, deps, reads }) = self.stack.pop() {
            let mut more = deps;
            more.push(key);
            self.stack.push(Job::Run { key: k, deps: more, reads });
            self.focus = Focus::Enter(key);
        }
        proof {
            assert(jobs(self.stack@) =~= demanded(old(self)@, key).stack);
        }
    }

    /// Whether the counters have room for one more event that takes
    /// `nanos`.
    pub fn has_room(&self, nanos: u64) -> (r: bool)
        ensures
            r == room(self@.stats, nanos),
    {
        let executed = self.stats.executed.checked_sum();
        let reused = self.stats.reused.checked_sum();
        let spent = self.stats.eval_nanos.checked_sum();
        match (executed, reused, spent) {
            (Some(e), Some(u), Some(n)) => e < u64::MAX && u < u64::MAX && n <= u64::MAX - nanos,
            _ => false,
        }
    }

    /// Takes one step.
    pub fn step(&mut self) -> (r: Action)
        requires
            old(self).wf(),
            room(old(self)@.stats, 0),
        ensures
            final(self).wf(),
            (final(self)@, r) == stepped(old(self)@),
    {
        match self.focus {
            Focus::Idle => Action::Nothing,
            Focus::Waiting => Action::Nothing,
            Focus::Enter(k) => self.enter(k),
            Focus::Next => self.next(),
            Focus::Back(k) => self.back(k),
        }
    }

    fn enter(&mut self, k: QueryKey) -> (r: Action)
        requires
            old(self).wf(),
            old(self)@.focus == Focus::Enter(k),
            room(old(self)@.stats, 0),
        ensures
            final(self).wf(),
            (final(self)@, r) == stepped(old(self)@),
    {
        let ghost before = jobs(self.stack@);
        let (fresh, verified_at, deps) = match self.memo.get(k) {
            None => {
                self.stack.push(
                    Job::Run { key: k, deps: Vec::new(), reads: Ghost(Seq::empty()) },
                );
                self.focus = Focus::Waiting;
                proof {
                    assert(self.stack@.last()@ =~= fresh_run(k));
                    assert(jobs(self.stack@) =~= before.push(fresh_run(k)));
                }
                return Action::Evaluate(k);
            },
            Some(e) => (e.verified_at == self.revision, e.verified_at, copy_keys(&e.deps)),
        };
        if fresh {
            self.stats.reused.bump(k.name(), 1);
            self.focus = Focus::Back(k);
        } else {
            self.stack.push(Job::Check { key: k, verified_at, deps, next: 0 });
            self.focus = Focus::Next;
            proof {
                assert(jobs(self.stack@) =~= before.push(
                    JobV::Check { key: k, verified_at, deps: deps@, next: 0 },
                ));
            }
        }
        Action::Again
    }

    fn next(&mut self) -> (r: Action)
        requires
            old(self).wf(),
            old(self)@.focus == Focus::Next,
            room(old(self)@.stats, 0),
        ensures
            final(self).wf(),
            (final(self)@, r) == stepped(old(self)@),
    {
        let n: usize = self.stack.len();
        let ghost before = jobs(self.stack@);
        if n == 0 {
            return Action::Nothing;
        }
        assert(before.last() == self.stack@[n - 1]@);
        let dep = match &self.stack[n - 1] {
            Job::Run { key: _, deps: _, reads: _ } => return Action::Nothing,
            Job::Check { key, verified_at: _, deps, next } => if *next < deps.len() {
                Ok(deps[*next])
            } else {
                Err(*key)
            },
        };
        match dep {
            Ok(d) => {
                self.focus = Focus::Enter(d);
            },
            Err(key) => {
                self.stack.pop();
                self.memo.mark(key, self.revision);
                self.stats.reused.bump(key.name(), 1);
                self.focus = Focus::Back(key);
                proof {
                    assert(jobs(self.stack@) =~= before.drop_last());
                }
            },
        }
        Action::Again
    }

    fn back(&mut self, k: QueryKey) -> (r: Action)
        requires
            old(self).wf(),
            old(self)@.focus == Focus::Back(k),
        ensures
            final(self).wf(),
            (final(self)@, r) == stepped(old(self)@),
    {
        let (value, computed_at) = match self.memo.get(k) {
            None => return Action::Nothing,
            Some(e) => (e.value, e.computed_at),
        };
        let ghost before = jobs(self.stack@);
        proof {
            if self.stack@.len() > 0 {
                assert(before.last() == self.stack@[self.stack@.len() - 1]@);
            }
        }
        match self.stack.pop() {
            None => {
                self.focus = Focus::Idle;
                proof {
                    assert(jobs(self.stack@) =~= before);
                }
                Action::Ready(k, value)
            },
            Some(Job::Run { key, deps, reads }) => {
                self.stack.push(
                    Job::Run { key, deps, reads: Ghost(reads@.push(value)) },
                );
                self.focus = Focus::Waiting;
                proof {
                    assert(jobs(self.stack@) =~= before.drop_last().push(
                        JobV::Run { key, deps: deps@, reads: reads@.push(value) },
                    ));
                }
                Action::Resume(k, value)
            },
            Some(Job::Check { key, verified_at, deps, next }) => if computed_at > verified_at {
                self.stack.push(
                    Job::Run { key, deps: Vec::new(), reads: Ghost(Seq::empty()) },
                );
                self.focus = Focus::Waiting;
                proof {
                    assert(self.stack@.last()@ =~= fresh_run(key));
                    assert(jobs(self.stack@) =~= before.drop_last().push(fresh_run(key)));
                }
                Action::Evaluate(key)
            } else {
                let more: usize = if next < deps.len() {
                    next + 1
                } else {
                    next
                };
                self.stack.push(Job::Check { key, verified_at, deps, next: more });
                self.focus = Focus::Next;
                proof {
                    assert(jobs(self.stack@) =~= before.drop_last().push(
                        JobV::Check { key, verified_at, deps: deps@, next: more as int },
                    ));
                }
                Action::Again
            },
        }
    }

    /// Installs what the evaluation in flight yielded, preserving
    /// `computed_at` when the value is unchanged. Entries record their
    /// transitive diagnostics — dependencies' first (demand order), then
    /// the evaluation's own.
    pub fn finish(&mut self, value: u64, own: Vec<Diagnostic>, nanos: u64)
        requires
            old(self).wf(),
            in_flight(old(self)@),
            room(old(self)@.stats, nanos),
        ensures
            final(self).wf(),
            final(self)@ == finished(old(self)@, value, diags(own@), nanos),
    {
        let ghost before = jobs(self.stack@);
        proof {
            assert(before.last() == self.stack@[self.stack@.len() - 1]@);
        }
        if let Some(Job::Run { key, deps, reads }) = self.stack.pop() {
            let mut all = self.collect(&deps);
            let mut mine = own;
            let ghost a = diags(all@);
            let ghost b = diags(mine@);
            all.append(&mut mine);
            proof {
                assert(diags(all@) =~= a + b);
                assert(jobs(self.stack@) =~= before.drop_last());
            }
            let computed_at = self.stamp_for(key, value);
            let verified_at = self.revision;
            self.memo.insert(
                key,
                Entry { value, deps, reads, diags: all, computed_at, verified_at },
            );
            self.last_run.push((key, nanos));
            self.stats.executed.bump(key.name(), 1);
            self.stats.eval_nanos.bump(key.name(), nanos);
            self.focus = Focus::Back(key);
        }
    }

    fn collect(&self, deps: &Vec<QueryKey>) -> (r: Vec<Diagnostic>)
        requires
            self.wf(),
        ensures
            diags(r@) == dep_diags(self@.memo, deps@),
    {
        let mut out: Vec<Diagnostic> = Vec::new();
        let mut i: usize = 0;
        proof {
            assert(deps@.take(0) =~= Seq::empty());
            assert(diags(out@) =~= Seq::empty());
        }
        while i < deps.len()
            invariant
                self.wf(),
                i <= deps@.len(),
                diags(out@) == dep_diags(self@.memo, deps@.take(i as int)),
            decreases deps@.len() - i,
        {
            proof {
                assert(deps@.take(i + 1).drop_last() =~= deps@.take(i as int));
            }
            let mut more = self.entry_diags(deps[i]);
            let ghost a = diags(out@);
            let ghost b = diags(more@);
            out.append(&mut more);
            proof {
                assert(diags(out@) =~= a + b);
                assert(!self@.memo.contains_key(deps@[i as int]) ==> a + b =~= a);
            }
            i += 1;
        }
        proof {
            assert(deps@.take(deps@.len() as int) =~= deps@);
        }
        out
    }
}

} // verus!
