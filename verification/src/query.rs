//! Query vocabulary of the incremental engine: keys, statistics, and
//! stage timings.
//!
//! Queries form a directed graph rooted at [`QueryKey::Compile`];
//! per-definition queries are keyed by the stable [`DefKey`] so editing
//! one function can never invalidate another function's memoized
//! results.

use crate::hir::DefKey;
use crate::order::{text_before, text_le};
use crate::source::FileId;
use crate::text::same;
use vstd::prelude::*;
use vstd::string::*;

verus! {

/// Identifies a memoized computation. File-granular keys carry a
/// [`FileId`]; per-definition keys carry a [`DefKey`].
#[derive(Clone, Copy, Debug, PartialEq, Eq, Hash, Structural)]
pub enum QueryKey {
    /// Raw source text — the only true input.
    Source(FileId),
    /// Text to lossless syntax tree.
    Parse(FileId),
    /// Syntax tree to canonical AST.
    Ast(FileId),
    /// ASTs to workspace scope.
    Scope(FileId),
    /// One item's AST, extracted by name: the narrow waist between "the
    /// file's AST changed" and "this function's AST changed".
    AstItem(DefKey),
    /// One `fn` item to its lowered body.
    HirBody(DefKey),
    /// One body to its checked form.
    BodyTypes(DefKey),
    /// Workspace-wide ownership contracts.
    Ownership(FileId),
    /// One checked body to MIR.
    MirBody(DefKey),
    /// The semantic program graph of a workspace.
    Graph(FileId),
    /// Every diagnostic emitted while producing a workspace's artifacts.
    Diagnostics(FileId),
    /// The assembled artifact bundle.
    Compile(FileId),
}

/// The statistics name of a query.
pub open spec fn query_name(k: QueryKey) -> Seq<char> {
    match k {
        QueryKey::Source(_) => "source"@,
        QueryKey::Parse(_) => "lex+parse"@,
        QueryKey::Ast(_) => "ast"@,
        QueryKey::Scope(_) => "resolve"@,
        QueryKey::AstItem(_) => "ast-item"@,
        QueryKey::HirBody(_) => "hir"@,
        QueryKey::BodyTypes(_) => "types"@,
        QueryKey::Ownership(_) => "ownership"@,
        QueryKey::MirBody(_) => "mir"@,
        QueryKey::Graph(_) => "graph"@,
        QueryKey::Diagnostics(_) => "diagnostics"@,
        QueryKey::Compile(_) => "assemble"@,
    }
}

/// The file a query's result belongs to.
pub open spec fn query_file(k: QueryKey) -> FileId {
    match k {
        QueryKey::Source(f) => f,
        QueryKey::Parse(f) => f,
        QueryKey::Ast(f) => f,
        QueryKey::Scope(f) => f,
        QueryKey::Ownership(f) => f,
        QueryKey::Graph(f) => f,
        QueryKey::Diagnostics(f) => f,
        QueryKey::Compile(f) => f,
        QueryKey::AstItem(d) => d.file,
        QueryKey::HirBody(d) => d.file,
        QueryKey::BodyTypes(d) => d.file,
        QueryKey::MirBody(d) => d.file,
    }
}

/// Whether two values of a query are ever held equal. Syntax trees have
/// no cheap structural equality, and the AST above them catches
/// white-space edits; nothing depends on the assembled bundle.
pub open spec fn comparable(k: QueryKey) -> bool {
    match k {
        QueryKey::Parse(_) => false,
        QueryKey::Compile(_) => false,
        _ => true,
    }
}

/// A query as a tuple of numbers: its kind, root, file and name.
pub open spec fn query_code(k: QueryKey) -> (usize, usize, usize, usize) {
    match k {
        QueryKey::Source(f) => (0, 0, f.raw, 0),
        QueryKey::Parse(f) => (1, 0, f.raw, 0),
        QueryKey::Ast(f) => (2, 0, f.raw, 0),
        QueryKey::Scope(f) => (3, 0, f.raw, 0),
        QueryKey::AstItem(d) => (4, d.root.raw, d.file.raw, d.name.raw),
        QueryKey::HirBody(d) => (5, d.root.raw, d.file.raw, d.name.raw),
        QueryKey::BodyTypes(d) => (6, d.root.raw, d.file.raw, d.name.raw),
        QueryKey::Ownership(f) => (7, 0, f.raw, 0),
        QueryKey::MirBody(d) => (8, d.root.raw, d.file.raw, d.name.raw),
        QueryKey::Graph(f) => (9, 0, f.raw, 0),
        QueryKey::Diagnostics(f) => (10, 0, f.raw, 0),
        QueryKey::Compile(f) => (11, 0, f.raw, 0),
    }
}

/// No two queries have the same numbers.
pub proof fn lemma_query_code(a: QueryKey, b: QueryKey)
    ensures
        query_code(a) == query_code(b) ==> a == b,
{
}

impl QueryKey {
    /// Stable name for statistics and stage timings.
    pub fn name(self) -> (r: &'static str)
        ensures
            r@ == query_name(self),
    {
        match self {
            QueryKey::Source(_) => "source",
            QueryKey::Parse(_) => "lex+parse",
            QueryKey::Ast(_) => "ast",
            QueryKey::Scope(_) => "resolve",
            QueryKey::AstItem(_) => "ast-item",
            QueryKey::HirBody(_) => "hir",
            QueryKey::BodyTypes(_) => "types",
            QueryKey::Ownership(_) => "ownership",
            QueryKey::MirBody(_) => "mir",
            QueryKey::Graph(_) => "graph",
            QueryKey::Diagnostics(_) => "diagnostics",
            QueryKey::Compile(_) => "assemble",
        }
    }

    /// The file this query's result belongs to.
    pub fn file(self) -> (r: FileId)
        ensures
            r == query_file(self),
    {
        match self {
            QueryKey::Source(f) => f,
            QueryKey::Parse(f) => f,
            QueryKey::Ast(f) => f,
            QueryKey::Scope(f) => f,
            QueryKey::Ownership(f) => f,
            QueryKey::Graph(f) => f,
            QueryKey::Diagnostics(f) => f,
            QueryKey::Compile(f) => f,
            QueryKey::AstItem(d) => d.file,
            QueryKey::HirBody(d) => d.file,
            QueryKey::BodyTypes(d) => d.file,
            QueryKey::MirBody(d) => d.file,
        }
    }

    /// Whether a recomputed value may be held equal to the memoized one.
    pub fn is_comparable(self) -> (r: bool)
        ensures
            r == comparable(self),
    {
        match self {
            QueryKey::Parse(_) => false,
            QueryKey::Compile(_) => false,
            _ => true,
        }
    }

    /// The query as a tuple of numbers.
    pub fn code(self) -> (r: (usize, usize, usize, usize))
        ensures
            r == query_code(self),
    {
        match self {
            QueryKey::Source(f) => (0, 0, f.raw, 0),
            QueryKey::Parse(f) => (1, 0, f.raw, 0),
            QueryKey::Ast(f) => (2, 0, f.raw, 0),
            QueryKey::Scope(f) => (3, 0, f.raw, 0),
            QueryKey::AstItem(d) => (4, d.root.raw, d.file.raw, d.name.raw),
            QueryKey::HirBody(d) => (5, d.root.raw, d.file.raw, d.name.raw),
            QueryKey::BodyTypes(d) => (6, d.root.raw, d.file.raw, d.name.raw),
            QueryKey::Ownership(f) => (7, 0, f.raw, 0),
            QueryKey::MirBody(d) => (8, d.root.raw, d.file.raw, d.name.raw),
            QueryKey::Graph(f) => (9, 0, f.raw, 0),
            QueryKey::Diagnostics(f) => (10, 0, f.raw, 0),
            QueryKey::Compile(f) => (11, 0, f.raw, 0),
        }
    }
}

// ---------- counters ----------

/// One named counter.
#[derive(Debug)]
pub struct Count {
    /// The counter's name.
    pub name: &'static str,
    /// Its value.
    pub count: u64,
}

/// Model of [`Count`].
#[verifier::ext_equal]
pub struct CountV {
    pub name: Seq<char>,
    pub count: u64,
}

impl Count {
    /// The model of this counter.
    pub open spec fn view(&self) -> CountV {
        CountV { name: self.name@, count: self.count }
    }
}

/// The models of a sequence of counters.
pub open spec fn counts(v: Seq<Count>) -> Seq<CountV> {
    Seq::new(v.len(), |i: int| v[i]@)
}

/// The sum of a sequence of counters.
pub open spec fn total(s: Seq<CountV>) -> nat
    decreases s.len(),
{
    if s.len() == 0 {
        0
    } else {
        total(s.drop_last()) + s.last().count as nat
    }
}

/// Counters, in name order, after one of them grew.
pub open spec fn bumped(s: Seq<CountV>, name: Seq<char>, by: u64) -> Seq<CountV>
    decreases s.len(),
{
    if s.len() == 0 {
        seq![CountV { name, count: by }]
    } else {
        let c = s.last();
        if c.name == name {
            s.drop_last().push(CountV { name, count: (c.count + by) as u64 })
        } else if text_le(c.name, name) {
            s.push(CountV { name, count: by })
        } else {
            bumped(s.drop_last(), name, by).push(c)
        }
    }
}

/// The value of a counter; the last of its name counts.
pub open spec fn count_of(s: Seq<CountV>, name: Seq<char>) -> Option<u64>
    decreases s.len(),
{
    if s.len() == 0 {
        None
    } else if s.last().name == name {
        Some(s.last().count)
    } else {
        count_of(s.drop_last(), name)
    }
}

proof fn lemma_total_bounds(s: Seq<CountV>, i: int)
    requires
        0 <= i < s.len(),
    ensures
        s[i].count <= total(s),
    decreases s.len(),
{
    if i < s.len() - 1 {
        lemma_total_bounds(s.drop_last(), i);
    }
}

/// A bump adds its amount to the sum, whichever counter it is on.
pub proof fn law_bump_adds(s: Seq<CountV>, name: Seq<char>, by: u64)
    requires
        total(s) + by <= u64::MAX,
    ensures
        total(bumped(s, name, by)) == total(s) + by,
    decreases s.len(),
{
    if s.len() == 0 {
        let one = seq![CountV { name, count: by }];
        assert(one.drop_last() =~= s);
        assert(one.last().count == by);
    } else {
        let c = s.last();
        let front = s.drop_last();
        if c.name == name {
            let out = front.push(CountV { name, count: (c.count + by) as u64 });
            assert(out.drop_last() =~= front);
        } else if text_le(c.name, name) {
            let out = s.push(CountV { name, count: by });
            assert(out.drop_last() =~= s);
        } else {
            law_bump_adds(front, name, by);
            let out = bumped(front, name, by).push(c);
            assert(out.drop_last() =~= bumped(front, name, by));
        }
    }
}

/// Named counters, in name order.
#[derive(Debug)]
pub struct Counters {
    items: Vec<Count>,
}

impl Counters {
    /// The counters.
    pub closed spec fn view(&self) -> Seq<CountV> {
        counts(self.items@)
    }

    /// No counters.
    pub fn new() -> (r: Counters)
        ensures
            r@ == Seq::<CountV>::empty(),
    {
        let r = Counters { items: Vec::new() };
        proof {
            assert(r@ =~= Seq::<CountV>::empty());
        }
        r
    }

    /// The counters, in name order.
    pub fn items(&self) -> (r: &Vec<Count>)
        ensures
            counts(r@) == self@,
    {
        &self.items
    }

    /// The value of a counter.
    pub fn get(&self, name: &str) -> (r: Option<u64>)
        ensures
            r == count_of(self@, name@),
    {
        let ghost all = self@;
        let mut i: usize = self.items.len();
        proof {
            assert(all.take(i as int) =~= all);
        }
        while i > 0
            invariant
                i <= self.items@.len(),
                all == counts(self.items@),
                all == self@,
                count_of(all.take(i as int), name@) == count_of(all, name@),
            decreases i,
        {
            proof {
                assert(all.take(i as int).drop_last() =~= all.take(i - 1));
                assert(all.take(i as int).last() == self.items@[i - 1]@);
            }
            if same(self.items[i - 1].name, name) {
                return Some(self.items[i - 1].count);
            }
            i -= 1;
        }
        proof {
            assert(all.take(0) =~= Seq::empty());
        }
        None
    }

    /// The sum of all counters.
    pub fn sum(&self) -> (r: u64)
        requires
            total(self@) <= u64::MAX,
        ensures
            r == total(self@),
    {
        let ghost all = self@;
        let mut out: u64 = 0;
        let mut i: usize = 0;
        proof {
            assert(all.take(0) =~= Seq::empty());
        }
        while i < self.items.len()
            invariant
                i <= self.items@.len(),
                all == counts(self.items@),
                total(all) <= u64::MAX,
                out == total(all.take(i as int)),
            decreases self.items@.len() - i,
        {
            proof {
                assert(all.take(i + 1).drop_last() =~= all.take(i as int));
                assert(all.take(i + 1).last() == self.items@[i as int]@);
                lemma_total_prefix(all, i + 1);
            }
            out = out + self.items[i].count;
            i += 1;
        }
        proof {
            assert(all.take(all.len() as int) =~= all);
        }
        out
    }

    /// The sum of all counters, if it fits.
    pub fn checked_sum(&self) -> (r: Option<u64>)
        ensures
            match r {
                Some(n) => n == total(self@),
                None => total(self@) > u64::MAX,
            },
    {
        let ghost all = self@;
        let mut out: u64 = 0;
        let mut i: usize = 0;
        proof {
            assert(all.take(0) =~= Seq::empty());
        }
        while i < self.items.len()
            invariant
                i <= self.items@.len(),
                all == counts(self.items@),
                out == total(all.take(i as int)),
            decreases self.items@.len() - i,
        {
            proof {
                assert(all.take(i + 1).drop_last() =~= all.take(i as int));
                assert(all.take(i + 1).last() == self.items@[i as int]@);
                lemma_total_prefix(all, i + 1);
            }
            match out.checked_add(self.items[i].count) {
                Some(n) => {
                    out = n;
                },
                None => return None,
            }
            i += 1;
        }
        proof {
            assert(all.take(all.len() as int) =~= all);
        }
        Some(out)
    }

    /// Adds to a counter, which starts from zero.
    pub fn bump(&mut self, name: &'static str, by: u64)
        requires
            total(old(self)@) + by <= u64::MAX,
        ensures
            final(self)@ == bumped(old(self)@, name@, by),
    {
        let ghost all = self@;
        let mut i: usize = self.items.len();
        proof {
            assert(all.take(i as int) =~= all);
            assert(bumped(all, name@, by) + all.skip(i as int) =~= bumped(all, name@, by));
        }
        while i > 0
            invariant
                i <= self.items@.len(),
                all == counts(self.items@),
                all == old(self)@,
                total(all) + by <= u64::MAX,
                bumped(all.take(i as int), name@, by) + all.skip(i as int) == bumped(
                    all,
                    name@,
                    by,
                ),
            decreases i,
        {
            let ghost front = all.take(i as int);
            proof {
                assert(front.drop_last() =~= all.take(i - 1));
                assert(front.last() == self.items@[i - 1]@);
            }
            if same(self.items[i - 1].name, name) {
                proof {
                    lemma_total_bounds(all, i - 1);
                }
                let count = self.items[i - 1].count + by;
                self.items.set(i - 1, Count { name, count });
                proof {
                    assert(counts(self.items@) =~= front.drop_last().push(
                        CountV { name: name@, count },
                    ) + all.skip(i as int));
                }
                return ;
            }
            if text_before(self.items[i - 1].name, name) {
                self.items.insert(i, Count { name, count: by });
                proof {
                    assert(counts(self.items@) =~= front.push(CountV { name: name@, count: by })
                        + all.skip(i as int));
                }
                return ;
            }
            proof {
                assert(bumped(front, name@, by) =~= bumped(all.take(i - 1), name@, by).push(
                    front.last(),
                ));
                assert(bumped(front, name@, by) + all.skip(i as int) =~= bumped(
                    all.take(i - 1),
                    name@,
                    by,
                ) + all.skip(i - 1));
            }
            i -= 1;
        }
        self.items.insert(0, Count { name, count: by });
        proof {
            assert(all.take(0) =~= Seq::empty());
            assert(counts(self.items@) =~= seq![CountV { name: name@, count: by }] + all.skip(0));
        }
    }
}

proof fn lemma_total_prefix(s: Seq<CountV>, n: int)
    requires
        0 <= n <= s.len(),
    ensures
        total(s.take(n)) <= total(s),
    decreases s.len() - n,
{
    if n < s.len() {
        lemma_total_prefix(s, n + 1);
        assert(s.take(n + 1).drop_last() =~= s.take(n));
    } else {
        assert(s.take(n) =~= s);
    }
}

/// Cumulative per-query-kind execution statistics — the objective
/// evidence that incrementality works.
#[derive(Debug)]
pub struct QueryStats {
    /// Times each query kind was actually evaluated.
    pub executed: Counters,
    /// Times a memoized entry served without re-evaluating
    /// (same-revision hits and verified-fresh hits).
    pub reused: Counters,
    /// Cumulative evaluation nanoseconds per query kind.
    pub eval_nanos: Counters,
}

/// Model of [`QueryStats`].
#[verifier::ext_equal]
pub struct StatsV {
    pub executed: Seq<CountV>,
    pub reused: Seq<CountV>,
    pub eval_nanos: Seq<CountV>,
}

impl QueryStats {
    /// The model of these statistics.
    pub open spec fn view(&self) -> StatsV {
        StatsV {
            executed: self.executed@,
            reused: self.reused@,
            eval_nanos: self.eval_nanos@,
        }
    }

    /// Statistics of nothing.
    pub fn new() -> (r: QueryStats)
        ensures
            r@ == (StatsV {
                executed: Seq::empty(),
                reused: Seq::empty(),
                eval_nanos: Seq::empty(),
            }),
    {
        QueryStats {
            executed: Counters::new(),
            reused: Counters::new(),
            eval_nanos: Counters::new(),
        }
    }

    /// `(executed, reused)` totals across all query kinds.
    pub fn totals(&self) -> (r: (u64, u64))
        requires
            total(self@.executed) <= u64::MAX,
            total(self@.reused) <= u64::MAX,
        ensures
            r.0 == total(self@.executed),
            r.1 == total(self@.reused),
    {
        (self.executed.sum(), self.reused.sum())
    }
}

// ---------- stage timings ----------

/// One pipeline stage's measured cost.
#[derive(Clone, Copy, Debug)]
pub struct StageTiming {
    /// Stage name. Per-definition query evaluations are aggregated
    /// under their stage name.
    pub stage: &'static str,
    /// Wall-clock nanoseconds of the last demand.
    pub nanos: u64,
}

/// Model of [`StageTiming`].
#[verifier::ext_equal]
pub struct TimingV {
    pub stage: Seq<char>,
    pub nanos: u64,
}

impl StageTiming {
    /// The model of this timing.
    pub open spec fn view(&self) -> TimingV {
        TimingV { stage: self.stage@, nanos: self.nanos }
    }
}

/// The models of a sequence of timings.
pub open spec fn timings(v: Seq<StageTiming>) -> Seq<TimingV> {
    Seq::new(v.len(), |i: int| v[i]@)
}

/// Where a stage stands among timings.
pub open spec fn stage_at(ts: Seq<TimingV>, stage: Seq<char>) -> Option<int>
    decreases ts.len(),
{
    if ts.len() == 0 {
        None
    } else {
        match stage_at(ts.drop_last(), stage) {
            Some(i) => Some(i),
            None => if ts.last().stage == stage {
                Some(ts.len() - 1)
            } else {
                None
            },
        }
    }
}

/// The nanoseconds of all evaluations of a run.
pub open spec fn run_nanos(run: Seq<(QueryKey, u64)>) -> nat
    decreases run.len(),
{
    if run.len() == 0 {
        0
    } else {
        run_nanos(run.drop_last()) + run.last().1 as nat
    }
}

/// The evaluations of a run summed per stage, in first-seen order.
pub open spec fn staged(run: Seq<(QueryKey, u64)>) -> Seq<TimingV>
    decreases run.len(),
{
    if run.len() == 0 {
        Seq::empty()
    } else {
        let done = staged(run.drop_last());
        let (k, n) = run.last();
        match stage_at(done, query_name(k)) {
            Some(i) => done.update(
                i,
                TimingV { stage: done[i].stage, nanos: (done[i].nanos + n) as u64 },
            ),
            None => done.push(TimingV { stage: query_name(k), nanos: n }),
        }
    }
}

/// The sum of timings.
pub open spec fn timed(ts: Seq<TimingV>) -> nat
    decreases ts.len(),
{
    if ts.len() == 0 {
        0
    } else {
        timed(ts.drop_last()) + ts.last().nanos as nat
    }
}

proof fn lemma_stage_at(ts: Seq<TimingV>, stage: Seq<char>)
    ensures
        stage_at(ts, stage) is Some ==> 0 <= stage_at(ts, stage)->0 < ts.len() && ts[stage_at(
            ts,
            stage,
        )->0].stage == stage,
    decreases ts.len(),
{
    if ts.len() > 0 {
        lemma_stage_at(ts.drop_last(), stage);
    }
}

proof fn lemma_timed_update(ts: Seq<TimingV>, i: int, t: TimingV)
    requires
        0 <= i < ts.len(),
    ensures
        timed(ts.update(i, t)) == timed(ts) - ts[i].nanos + t.nanos,
        ts[i].nanos <= timed(ts),
    decreases ts.len(),
{
    let out = ts.update(i, t);
    if i == ts.len() - 1 {
        assert(out.drop_last() =~= ts.drop_last());
    } else {
        lemma_timed_update(ts.drop_last(), i, t);
        assert(out.drop_last() =~= ts.drop_last().update(i, t));
    }
}

/// No time is lost between evaluations and stages.
pub proof fn law_stages_keep_time(run: Seq<(QueryKey, u64)>)
    requires
        run_nanos(run) <= u64::MAX,
    ensures
        timed(staged(run)) == run_nanos(run),
    decreases run.len(),
{
    if run.len() > 0 {
        law_stages_keep_time(run.drop_last());
        let done = staged(run.drop_last());
        let (k, n) = run.last();
        lemma_stage_at(done, query_name(k));
        match stage_at(done, query_name(k)) {
            Some(i) => {
                lemma_timed_update(
                    done,
                    i,
                    TimingV { stage: done[i].stage, nanos: (done[i].nanos + n) as u64 },
                );
            },
            None => {
                let t = TimingV { stage: query_name(k), nanos: n };
                assert(done.push(t).drop_last() =~= done);
            },
        }
    }
}

fn find_stage(ts: &Vec<StageTiming>, stage: &str) -> (r: Option<usize>)
    ensures
        match r {
            Some(i) => stage_at(timings(ts@), stage@) == Some(i as int) && i < ts@.len(),
            None => stage_at(timings(ts@), stage@) is None,
        },
{
    let ghost all = timings(ts@);
    let mut i: usize = 0;
    proof {
        assert(all.take(0) =~= Seq::empty());
    }
    while i < ts.len()
        invariant
            i <= ts@.len(),
            all == timings(ts@),
            stage_at(all.take(i as int), stage@) is None,
        decreases ts@.len() - i,
    {
        proof {
            assert(all.take(i + 1).drop_last() =~= all.take(i as int));
            assert(all.take(i + 1).last() == ts@[i as int]@);
        }
        if same(ts[i].stage, stage) {
            proof {
                lemma_stage_stable(all, stage@, i + 1);
            }
            return Some(i);
        }
        i += 1;
    }
    proof {
        assert(all.take(all.len() as int) =~= all);
    }
    None
}

proof fn lemma_stage_stable(ts: Seq<TimingV>, stage: Seq<char>, n: int)
    requires
        0 <= n <= ts.len(),
        stage_at(ts.take(n), stage) is Some,
    ensures
        stage_at(ts, stage) == stage_at(ts.take(n), stage),
    decreases ts.len() - n,
{
    if n < ts.len() {
        assert(ts.take(n + 1).drop_last() =~= ts.take(n));
        lemma_stage_stable(ts, stage, n + 1);
    } else {
        assert(ts.take(n) =~= ts);
    }
}

proof fn lemma_run_prefix(run: Seq<(QueryKey, u64)>, n: int)
    requires
        0 <= n <= run.len(),
    ensures
        run_nanos(run.take(n)) <= run_nanos(run),
    decreases run.len() - n,
{
    if n < run.len() {
        lemma_run_prefix(run, n + 1);
        assert(run.take(n + 1).drop_last() =~= run.take(n));
    } else {
        assert(run.take(n) =~= run);
    }
}

/// Aggregates a run's per-query timings into per-stage timings.
pub fn stage_timings(run: &Vec<(QueryKey, u64)>) -> (r: Vec<StageTiming>)
    requires
        run_nanos(run@) <= u64::MAX,
    ensures
        timings(r@) == staged(run@),
{
    let mut out: Vec<StageTiming> = Vec::new();
    let mut i: usize = 0;
    proof {
        assert(run@.take(0) =~= Seq::empty());
        assert(timings(out@) =~= Seq::empty());
    }
    while i < run.len()
        invariant
            i <= run@.len(),
            run_nanos(run@) <= u64::MAX,
            timings(out@) == staged(run@.take(i as int)),
        decreases run@.len() - i,
    {
        let (k, n) = run[i];
        let ghost done = timings(out@);
        proof {
            assert(run@.take(i + 1).drop_last() =~= run@.take(i as int));
            lemma_run_prefix(run@, i + 1);
            law_stages_keep_time(run@.take(i as int));
        }
        match find_stage(&out, k.name()) {
            Some(j) => {
                proof {
                    lemma_timed_update(done, j as int, done[j as int]);
                }
                let t = StageTiming { stage: out[j].stage, nanos: out[j].nanos + n };
                let ghost tv = t@;
                out.set(j, t);
                proof {
                    assert(timings(out@) =~= done.update(j as int, tv));
                }
            },
            None => {
                let t = StageTiming { stage: k.name(), nanos: n };
                let ghost tv = t@;
                out.push(t);
                proof {
                    assert(timings(out@) =~= done.push(tv));
                }
            },
        }
        i += 1;
    }
    proof {
        assert(run@.take(run@.len() as int) =~= run@);
    }
    out
}

} // verus!
