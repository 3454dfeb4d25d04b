//! What a check and a compile report.
//!
//! A database on given sources makes, for every query, the same demands
//! and reports the same diagnostics. [`told`] is what then holds of the
//! engine of a database in its first revision, and
//! [`law_check_reports_what_compile_reports`] what follows from it.

use crate::collect::collected;
use crate::diagnostic::DiagnosticV;
use crate::engine::{
    demanded, dep_diags, finished, in_flight, opened, stepped, written, EngineV, EntryV, Focus,
    JobV,
};
use crate::engine_laws::{job_key, on_stack};
use crate::evaluate::{ast_demands, declaring_files, demands_of, fns_demands, PerFn};
use crate::hir::ModuleScopeV;
use crate::query::QueryKey;
use crate::snapshot::SnapV;
use crate::source::FileId;
use vstd::prelude::*;

verus! {

/// Whether the evaluation of a query starts from the resolved scope.
pub open spec fn takes_scope(k: QueryKey) -> bool {
    !(k is Source || k is Parse || k is Ast || k is Scope || k is AstItem)
}

/// Every query that the evaluation of a query demands, in order.
pub open spec fn plan_of_query(s: ModuleScopeV, root: FileId, k: QueryKey) -> Seq<QueryKey> {
    if takes_scope(k) {
        seq![QueryKey::Scope(root)] + demands_of(k, s, root)
    } else {
        demands_of(k, s, root)
    }
}

/// Whether every query of a list has an entry.
pub open spec fn all_in(memo: Map<QueryKey, EntryV>, ks: Seq<QueryKey>) -> bool {
    forall|i: int| 0 <= i < ks.len() ==> memo.contains_key(#[trigger] ks[i])
}

/// An entry records the demands of its query, and the diagnostics of
/// what it demanded and its own.
pub open spec fn tells(
    s: ModuleScopeV,
    root: FileId,
    own: spec_fn(QueryKey) -> Seq<DiagnosticV>,
    memo: Map<QueryKey, EntryV>,
    k: QueryKey,
) -> bool {
    &&& memo[k].deps == plan_of_query(s, root, k)
    &&& all_in(memo, memo[k].deps)
    &&& memo[k].diags == dep_diags(memo, memo[k].deps) + own(k)
}

/// A job is an evaluation that has demanded the front of its plan.
pub open spec fn on_plan(
    s: ModuleScopeV,
    root: FileId,
    memo: Map<QueryKey, EntryV>,
    t: JobV,
) -> bool {
    match t {
        JobV::Check { .. } => false,
        JobV::Run { key, deps, reads } => {
            &&& !memo.contains_key(key)
            &&& deps.len() <= plan_of_query(s, root, key).len()
            &&& deps == plan_of_query(s, root, key).take(deps.len() as int)
            &&& reads.len() <= deps.len() <= reads.len() + 1
            &&& forall|j: int| 0 <= j < reads.len() ==> memo.contains_key(#[trigger] deps[j])
        },
    }
}

/// What holds of the engine of a database in its first revision.
pub open spec fn told(
    s: ModuleScopeV,
    root: FileId,
    own: spec_fn(QueryKey) -> Seq<DiagnosticV>,
    e: EngineV,
) -> bool {
    &&& forall|k: QueryKey| #[trigger]
        e.memo.contains_key(k) ==> e.memo[k].verified_at == e.revision && tells(
            s,
            root,
            own,
            e.memo,
            k,
        )
    &&& forall|i: int| 0 <= i < e.stack.len() ==> on_plan(s, root, e.memo, #[trigger] e.stack[i])
    &&& forall|i: int, j: int|
        0 <= i < j < e.stack.len() ==> job_key(#[trigger] e.stack[i]) != job_key(
            #[trigger] e.stack[j],
        )
    &&& match e.focus {
        Focus::Idle => e.stack.len() == 0,
        Focus::Enter(k) => {
            &&& !on_stack(e, k)
            &&& e.stack.len() > 0 ==> e.stack.last()->Run_deps.len()
                == e.stack.last()->Run_reads.len() + 1 && e.stack.last()->Run_deps.last() == k
        },
        Focus::Next => false,
        Focus::Back(k) => {
            &&& e.memo.contains_key(k)
            &&& e.stack.len() > 0 ==> e.stack.last()->Run_deps.len()
                == e.stack.last()->Run_reads.len() + 1 && e.stack.last()->Run_deps.last() == k
        },
        Focus::Waiting => e.stack.len() > 0 && e.stack.last()->Run_deps.len()
            == e.stack.last()->Run_reads.len(),
    }
    &&& forall|i: int|
        0 <= i < e.stack.len() - 1 ==> (#[trigger] e.stack[i])->Run_deps.len()
            == e.stack[i]->Run_reads.len() + 1 && e.stack[i]->Run_deps.last() == job_key(
            e.stack[i + 1],
        )
}

/// A new engine.
pub proof fn law_told_start(
    s: ModuleScopeV,
    root: FileId,
    own: spec_fn(QueryKey) -> Seq<DiagnosticV>,
    e: EngineV,
)
    requires
        e.memo == Map::<QueryKey, EntryV>::empty(),
        e.stack.len() == 0,
        e.focus == Focus::Idle,
    ensures
        told(s, root, own, e),
{
}

/// Entries that are there already keep what they tell of others.
proof fn lemma_dep_diags_kept(
    memo: Map<QueryKey, EntryV>,
    key: QueryKey,
    x: EntryV,
    ks: Seq<QueryKey>,
)
    requires
        !memo.contains_key(key),
        all_in(memo, ks),
    ensures
        dep_diags(memo.insert(key, x), ks) == dep_diags(memo, ks),
        all_in(memo.insert(key, x), ks),
    decreases ks.len(),
{
    if ks.len() > 0 {
        let front = ks.drop_last();
        assert forall|i: int| 0 <= i < front.len() implies memo.contains_key(
            #[trigger] front[i],
        ) by {
            assert(memo.contains_key(ks[i]));
        }
        lemma_dep_diags_kept(memo, key, x, front);
        assert(memo.contains_key(ks[ks.len() - 1]));
    }
}

proof fn lemma_added(
    s: ModuleScopeV,
    root: FileId,
    own: spec_fn(QueryKey) -> Seq<DiagnosticV>,
    memo: Map<QueryKey, EntryV>,
    key: QueryKey,
    x: EntryV,
    revision: u64,
)
    requires
        !memo.contains_key(key),
        forall|k: QueryKey| #[trigger]
            memo.contains_key(k) ==> memo[k].verified_at == revision && tells(
                s,
                root,
                own,
                memo,
                k,
            ),
        x.verified_at == revision,
        x.deps == plan_of_query(s, root, key),
        all_in(memo, x.deps),
        x.diags == dep_diags(memo, x.deps) + own(key),
    ensures
        forall|k: QueryKey| #[trigger]
            memo.insert(key, x).contains_key(k) ==> memo.insert(key, x)[k].verified_at == revision
                && tells(s, root, own, memo.insert(key, x), k),
{
    let m2 = memo.insert(key, x);
    assert forall|k: QueryKey| #[trigger] m2.contains_key(k) implies m2[k].verified_at == revision
        && tells(s, root, own, m2, k) by {
        if k == key {
            lemma_dep_diags_kept(memo, key, x, x.deps);
        } else {
            assert(memo.contains_key(k));
            lemma_dep_diags_kept(memo, key, x, memo[k].deps);
        }
    }
}

/// Writing the sources of a database.
pub proof fn law_told_written(
    s: ModuleScopeV,
    root: FileId,
    own: spec_fn(QueryKey) -> Seq<DiagnosticV>,
    e: EngineV,
    f: FileId,
    value: u64,
)
    requires
        told(s, root, own, e),
        e.stack.len() == 0,
        !e.memo.contains_key(QueryKey::Source(f)),
        own(QueryKey::Source(f)).len() == 0,
    ensures
        told(s, root, own, written(e, QueryKey::Source(f), value)),
{
    let k = QueryKey::Source(f);
    let e2 = written(e, k, value);
    let x = e2.memo[k];
    assert(x.deps =~= plan_of_query(s, root, k));
    assert(x.diags =~= dep_diags(e.memo, x.deps) + own(k));
    lemma_added(s, root, own, e.memo, k, x, e.revision);
}

/// A top-level demand.
pub proof fn law_told_opened(
    s: ModuleScopeV,
    root: FileId,
    own: spec_fn(QueryKey) -> Seq<DiagnosticV>,
    e: EngineV,
    key: QueryKey,
)
    requires
        told(s, root, own, e),
        e.focus == Focus::Idle,
    ensures
        told(s, root, own, opened(e, key)),
{
}

/// The evaluations on the stack come nearer to the sources.
proof fn lemma_ranks(
    s: ModuleScopeV,
    root: FileId,
    own: spec_fn(QueryKey) -> Seq<DiagnosticV>,
    e: EngineV,
    i: int,
    j: int,
)
    requires
        told(s, root, own, e),
        0 <= i <= j < e.stack.len(),
    ensures
        rank(job_key(e.stack[j])) <= rank(job_key(e.stack[i])),
    decreases j - i,
{
    if i < j {
        lemma_ranks(s, root, own, e, i, j - 1);
        let t = e.stack[j - 1];
        assert(on_plan(s, root, e.memo, t));
        assert(e.stack[j - 1 + 1] == e.stack[j]);
        let plan = plan_of_query(s, root, job_key(t));
        lemma_plan_below(s, root, job_key(t));
        let n = t->Run_deps.len() - 1;
        assert(plan[n] == t->Run_deps[n]);
        assert(rank(plan[n]) < rank(job_key(t)));
    }
}

/// No query demands itself, directly or through others.
proof fn lemma_not_on_stack(
    s: ModuleScopeV,
    root: FileId,
    own: spec_fn(QueryKey) -> Seq<DiagnosticV>,
    e: EngineV,
    key: QueryKey,
)
    requires
        told(s, root, own, e),
        in_flight(e),
        ({
            let t = e.stack.last();
            let plan = plan_of_query(s, root, job_key(t));
            t->Run_deps.len() < plan.len() && key == plan[t->Run_deps.len() as int]
        }),
    ensures
        !on_stack(e, key),
{
    let t = e.stack.last();
    let plan = plan_of_query(s, root, job_key(t));
    lemma_plan_below(s, root, job_key(t));
    assert(rank(plan[t->Run_deps.len() as int]) < rank(job_key(t)));
    assert forall|i: int| 0 <= i < e.stack.len() implies job_key(#[trigger] e.stack[i]) != key by {
        lemma_ranks(s, root, own, e, i, e.stack.len() - 1);
    }
}

/// An evaluation demands what its plan says next.
pub proof fn law_told_demanded(
    s: ModuleScopeV,
    root: FileId,
    own: spec_fn(QueryKey) -> Seq<DiagnosticV>,
    e: EngineV,
    key: QueryKey,
)
    requires
        told(s, root, own, e),
        in_flight(e),
        ({
            let t = e.stack.last();
            let plan = plan_of_query(s, root, job_key(t));
            t->Run_deps.len() < plan.len() && key == plan[t->Run_deps.len() as int]
        }),
    ensures
        told(s, root, own, demanded(e, key)),
{
    lemma_not_on_stack(s, root, own, e, key);
    let e2 = demanded(e, key);
    let n = e.stack.len() - 1;
    let t = e.stack[n];
    assert(t == e.stack.last());
    assert(on_plan(s, root, e.memo, t));
    let plan = plan_of_query(s, root, job_key(t));
    let deps = t->Run_deps;
    assert(deps.push(key) =~= plan.take((deps.len() + 1) as int));
    assert(e2.stack.len() == e.stack.len());
    assert forall|i: int| 0 <= i < e2.stack.len() implies on_plan(
        s,
        root,
        e.memo,
        #[trigger] e2.stack[i],
    ) by {
        if i < n {
            assert(e2.stack[i] == e.stack[i]);
        } else {
            assert forall|j: int| 0 <= j < t->Run_reads.len() implies e.memo.contains_key(
                #[trigger] e2.stack[i]->Run_deps[j],
            ) by {
                assert(deps[j] == e2.stack[i]->Run_deps[j]);
            }
        }
    }
    assert forall|i: int, j: int| 0 <= i < j < e2.stack.len() implies job_key(
        #[trigger] e2.stack[i],
    ) != job_key(#[trigger] e2.stack[j]) by {
        assert(job_key(e2.stack[i]) == job_key(e.stack[i]));
        assert(job_key(e2.stack[j]) == job_key(e.stack[j]));
    }
    assert(!on_stack(e2, key)) by {
        assert forall|i: int| 0 <= i < e2.stack.len() implies job_key(#[trigger] e2.stack[i])
            != key by {
            assert(job_key(e2.stack[i]) == job_key(e.stack[i]));
        }
    }
    assert forall|i: int| 0 <= i < e2.stack.len() - 1 implies (
    #[trigger] e2.stack[i])->Run_deps.len() == e2.stack[i]->Run_reads.len() + 1
        && e2.stack[i]->Run_deps.last() == job_key(e2.stack[i + 1]) by {
        assert(e2.stack[i] == e.stack[i]);
        assert(job_key(e2.stack[i + 1]) == job_key(e.stack[i + 1]));
    }
}

/// An evaluation ends once it has demanded its whole plan, and reports
/// its own diagnostics.
pub proof fn law_told_finished(
    s: ModuleScopeV,
    root: FileId,
    own: spec_fn(QueryKey) -> Seq<DiagnosticV>,
    e: EngineV,
    value: u64,
    nanos: u64,
)
    requires
        told(s, root, own, e),
        in_flight(e),
        e.stack.last()->Run_deps.len() == plan_of_query(s, root, job_key(e.stack.last())).len(),
    ensures
        told(s, root, own, finished(e, value, own(job_key(e.stack.last())), nanos)),
{
    let n = e.stack.len() - 1;
    let t = e.stack[n];
    assert(t == e.stack.last());
    let key = job_key(t);
    let e2 = finished(e, value, own(key), nanos);
    let x = e2.memo[key];
    assert(on_plan(s, root, e.memo, t));
    let plan = plan_of_query(s, root, key);
    assert(plan.take(plan.len() as int) =~= plan);
    lemma_added(s, root, own, e.memo, key, x, e.revision);
    assert forall|i: int| 0 <= i < e2.stack.len() implies on_plan(
        s,
        root,
        e2.memo,
        #[trigger] e2.stack[i],
    ) by {
        assert(e2.stack[i] == e.stack[i]);
        assert(on_plan(s, root, e.memo, e.stack[i]));
        assert(job_key(e.stack[i]) != job_key(e.stack[n]));
        assert forall|j: int| 0 <= j < e2.stack[i]->Run_reads.len() implies e2.memo.contains_key(
            #[trigger] e2.stack[i]->Run_deps[j],
        ) by {
            assert(e.memo.contains_key(e.stack[i]->Run_deps[j]));
        }
    }
    if e2.stack.len() > 0 {
        assert(e2.stack.last() == e.stack[n - 1]);
        assert(e.stack[n - 1 + 1] == t);
    }
    assert forall|i: int| 0 <= i < e2.stack.len() - 1 implies (
    #[trigger] e2.stack[i])->Run_deps.len() == e2.stack[i]->Run_reads.len() + 1
        && e2.stack[i]->Run_deps.last() == job_key(e2.stack[i + 1]) by {
        assert(e2.stack[i] == e.stack[i]);
        assert(e2.stack[i + 1] == e.stack[i + 1]);
    }
}

/// A step of the engine.
pub proof fn law_told_stepped(
    s: ModuleScopeV,
    root: FileId,
    own: spec_fn(QueryKey) -> Seq<DiagnosticV>,
    e: EngineV,
)
    requires
        told(s, root, own, e),
    ensures
        told(s, root, own, stepped(e).0),
{
    let e2 = stepped(e).0;
    let n = e.stack.len() - 1;
    if e.stack.len() > 0 {
        assert(e.stack.last() == e.stack[n]);
        assert(on_plan(s, root, e.memo, e.stack[n]));
    }
    match e.focus {
        Focus::Enter(k) => {
            if !e.memo.contains_key(k) {
                assert forall|i: int| 0 <= i < e2.stack.len() implies on_plan(
                    s,
                    root,
                    e2.memo,
                    #[trigger] e2.stack[i],
                ) by {
                    if i <= n {
                        assert(e2.stack[i] == e.stack[i]);
                    } else {
                        assert(Seq::<QueryKey>::empty() =~= plan_of_query(s, root, k).take(0));
                    }
                }
                assert forall|i: int, j: int| 0 <= i < j < e2.stack.len() implies job_key(
                    #[trigger] e2.stack[i],
                ) != job_key(#[trigger] e2.stack[j]) by {
                    assert(e2.stack[i] == e.stack[i]);
                    if j <= n {
                        assert(e2.stack[j] == e.stack[j]);
                    } else {
                        assert(job_key(e.stack[i]) != k);
                    }
                }
                assert forall|i: int| 0 <= i < e2.stack.len() - 1 implies (
                #[trigger] e2.stack[i])->Run_deps.len() == e2.stack[i]->Run_reads.len() + 1
                    && e2.stack[i]->Run_deps.last() == job_key(e2.stack[i + 1]) by {
                    assert(e2.stack[i] == e.stack[i]);
                    if i < n {
                        assert(e2.stack[i + 1] == e.stack[i + 1]);
                    }
                }
            } else {
                assert(e.memo[k].verified_at == e.revision);
                assert(e2.stack == e.stack);
            }
        },
        Focus::Back(k) => {
            if e.stack.len() > 0 {
                let t = e.stack[n];
                let deps = t->Run_deps;
                assert(e2.stack.len() == e.stack.len());
                assert forall|i: int| 0 <= i < e2.stack.len() implies on_plan(
                    s,
                    root,
                    e2.memo,
                    #[trigger] e2.stack[i],
                ) by {
                    if i < n {
                        assert(e2.stack[i] == e.stack[i]);
                    } else {
                        assert forall|j: int| 0 <= j < t->Run_reads.len() + 1 implies
                            e2.memo.contains_key(#[trigger] e2.stack[i]->Run_deps[j]) by {
                            assert(e2.stack[i]->Run_deps[j] == deps[j]);
                        }
                    }
                }
                assert forall|i: int, j: int| 0 <= i < j < e2.stack.len() implies job_key(
                    #[trigger] e2.stack[i],
                ) != job_key(#[trigger] e2.stack[j]) by {
                    assert(job_key(e2.stack[i]) == job_key(e.stack[i]));
                    assert(job_key(e2.stack[j]) == job_key(e.stack[j]));
                }
                assert forall|i: int| 0 <= i < e2.stack.len() - 1 implies (
                #[trigger] e2.stack[i])->Run_deps.len() == e2.stack[i]->Run_reads.len() + 1
                    && e2.stack[i]->Run_deps.last() == job_key(e2.stack[i + 1]) by {
                    assert(e2.stack[i] == e.stack[i]);
                    assert(job_key(e2.stack[i + 1]) == job_key(e.stack[i + 1]));
                }
            }
        },
        _ => {},
    }
}

/// How far a query stands from the sources.
pub open spec fn rank(k: QueryKey) -> nat {
    match k {
        QueryKey::Source(_) => 0,
        QueryKey::Parse(_) => 1,
        QueryKey::Ast(_) => 2,
        QueryKey::Scope(_) => 3,
        QueryKey::AstItem(_) => 3,
        QueryKey::HirBody(_) => 4,
        QueryKey::BodyTypes(_) => 5,
        QueryKey::Ownership(_) => 6,
        QueryKey::MirBody(_) => 7,
        QueryKey::Graph(_) => 7,
        QueryKey::Diagnostics(_) => 7,
        QueryKey::Compile(_) => 8,
    }
}

/// Every query of a list stands nearer to the sources than `n`.
pub open spec fn all_below(ks: Seq<QueryKey>, n: nat) -> bool {
    forall|i: int| 0 <= i < ks.len() ==> rank(#[trigger] ks[i]) < n
}

proof fn lemma_fns_below(s: ModuleScopeV, what: PerFn, n: int)
    ensures
        all_below(fns_demands(s, what, n), 8),
        what != PerFn::Mir ==> all_below(fns_demands(s, what, n), 6),
    decreases n,
{
    if n > 0 {
        lemma_fns_below(s, what, n - 1);
    }
}

proof fn lemma_plan_below(s: ModuleScopeV, root: FileId, k: QueryKey)
    ensures
        all_below(plan_of_query(s, root, k), rank(k)),
{
    let n = s.defs.len() as int;
    lemma_fns_below(s, PerFn::Types, n);
    lemma_fns_below(s, PerFn::HirThenTypes, n);
    lemma_fns_below(s, PerFn::Mir, n);
}

proof fn lemma_same_list(
    s: ModuleScopeV,
    root: FileId,
    own: spec_fn(QueryKey) -> Seq<DiagnosticV>,
    a: EngineV,
    b: EngineV,
    ks: Seq<QueryKey>,
    n: nat,
)
    requires
        told(s, root, own, a),
        told(s, root, own, b),
        all_in(a.memo, ks),
        all_in(b.memo, ks),
        all_below(ks, n),
    ensures
        dep_diags(a.memo, ks) == dep_diags(b.memo, ks),
    decreases n, ks.len(),
{
    if ks.len() > 0 {
        let front = ks.drop_last();
        assert forall|i: int| 0 <= i < front.len() implies a.memo.contains_key(
            #[trigger] front[i],
        ) && b.memo.contains_key(front[i]) && rank(front[i]) < n by {
            assert(a.memo.contains_key(ks[i]) && b.memo.contains_key(ks[i]) && rank(ks[i]) < n);
        }
        lemma_same_list(s, root, own, a, b, front, n);
        let k = ks[ks.len() - 1];
        assert(a.memo.contains_key(k) && b.memo.contains_key(k) && rank(k) < n);
        lemma_plan_below(s, root, k);
        lemma_same_list(s, root, own, a, b, plan_of_query(s, root, k), rank(k));
    }
}

/// Two databases on the same sources record the same diagnostics for a
/// query.
pub proof fn law_databases_agree(
    s: ModuleScopeV,
    root: FileId,
    own: spec_fn(QueryKey) -> Seq<DiagnosticV>,
    a: EngineV,
    b: EngineV,
    k: QueryKey,
)
    requires
        told(s, root, own, a),
        told(s, root, own, b),
        a.memo.contains_key(k),
        b.memo.contains_key(k),
    ensures
        a.memo[k].diags == b.memo[k].diags,
{
    lemma_plan_below(s, root, k);
    lemma_same_list(s, root, own, a, b, plan_of_query(s, root, k), rank(k));
}

/// Every diagnostic of `ds` is one of `all`.
pub open spec fn all_among(ds: Seq<DiagnosticV>, all: Seq<DiagnosticV>) -> bool {
    forall|i: int| 0 <= i < ds.len() ==> all.contains(#[trigger] ds[i])
}

/// The diagnostics of a query in a list are among those of the list.
proof fn lemma_among(memo: Map<QueryKey, EntryV>, ks: Seq<QueryKey>, k: QueryKey)
    requires
        ks.contains(k),
        memo.contains_key(k),
    ensures
        all_among(memo[k].diags, dep_diags(memo, ks)),
    decreases ks.len(),
{
    let front = ks.drop_last();
    let all = dep_diags(memo, ks);
    let head = dep_diags(memo, front);
    if ks.last() == k {
        assert forall|i: int| 0 <= i < memo[k].diags.len() implies all.contains(
            #[trigger] memo[k].diags[i],
        ) by {
            assert(all[head.len() + i] == memo[k].diags[i]);
        }
    } else {
        let i = choose|i: int| 0 <= i < ks.len() && ks[i] == k;
        assert(front[i] == k);
        lemma_among(memo, front, k);
        assert forall|i: int| 0 <= i < memo[k].diags.len() implies all.contains(
            #[trigger] memo[k].diags[i],
        ) by {
            let j = choose|j: int| 0 <= j < head.len() && head[j] == memo[k].diags[i];
            assert(all[j] == memo[k].diags[i]);
        }
    }
}

/// What a list of queries records is among `all` when what each of them
/// records is.
proof fn lemma_list_among(memo: Map<QueryKey, EntryV>, ks: Seq<QueryKey>, all: Seq<DiagnosticV>)
    requires
        forall|i: int|
            0 <= i < ks.len() && memo.contains_key(ks[i]) ==> all_among(
                memo[#[trigger] ks[i]].diags,
                all,
            ),
    ensures
        all_among(dep_diags(memo, ks), all),
    decreases ks.len(),
{
    if ks.len() > 0 {
        let front = ks.drop_last();
        assert forall|i: int| 0 <= i < front.len() && memo.contains_key(front[i]) implies all_among(
            memo[#[trigger] front[i]].diags,
            all,
        ) by {
            assert(ks[i] == front[i]);
        }
        lemma_list_among(memo, front, all);
        let k = ks[ks.len() - 1];
        let ds = dep_diags(memo, ks);
        let head = dep_diags(memo, front);
        assert forall|i: int| 0 <= i < ds.len() implies all.contains(#[trigger] ds[i]) by {
            if i < head.len() {
                assert(ds[i] == head[i]);
            } else {
                assert(memo.contains_key(k));
                assert(all_among(memo[k].diags, all));
                assert(ds[i] == memo[k].diags[i - head.len()]);
            }
        }
    }
}

/// A list of queries behind another.
proof fn lemma_dep_diags_join(memo: Map<QueryKey, EntryV>, a: Seq<QueryKey>, b: Seq<QueryKey>)
    ensures
        dep_diags(memo, a + b) == dep_diags(memo, a) + dep_diags(memo, b),
    decreases b.len(),
{
    if b.len() == 0 {
        assert(a + b =~= a);
        assert(dep_diags(memo, a) + dep_diags(memo, b) =~= dep_diags(memo, a));
    } else {
        assert((a + b).drop_last() =~= a + b.drop_last());
        lemma_dep_diags_join(memo, a, b.drop_last());
        assert(dep_diags(memo, a + b) =~= dep_diags(memo, a) + dep_diags(memo, b));
    }
}

/// Diagnostics that were seen before add nothing to what is collected.
proof fn lemma_collected_again(snap: SnapV, a: Seq<DiagnosticV>, b: Seq<DiagnosticV>)
    requires
        all_among(b, a),
    ensures
        collected(snap, a + b) == collected(snap, a),
    decreases b.len(),
{
    if b.len() == 0 {
        assert(a + b =~= a);
    } else {
        assert((a + b).drop_last() =~= a + b.drop_last());
        assert forall|i: int| 0 <= i < b.drop_last().len() implies a.contains(
            #[trigger] b.drop_last()[i],
        ) by {
            assert(a.contains(b[i]));
        }
        lemma_collected_again(snap, a, b.drop_last());
        let d = b[b.len() - 1];
        assert(a.contains(d));
        let i = choose|i: int| 0 <= i < a.len() && a[i] == d;
        crate::collect::law_collected_all(snap, a, i);
        assert((a + b).last() == d);
    }
}

proof fn lemma_mir_of_types(s: ModuleScopeV, n: int)
    ensures
        fns_demands(s, PerFn::Mir, n).len() == fns_demands(s, PerFn::Types, n).len(),
        forall|i: int|
            0 <= i < fns_demands(s, PerFn::Mir, n).len() ==> {
                let k = #[trigger] fns_demands(s, PerFn::Mir, n)[i];
                k is MirBody && fns_demands(s, PerFn::Types, n)[i] == QueryKey::BodyTypes(
                    k->MirBody_0,
                )
            },
    decreases n,
{
    if n > 0 {
        lemma_mir_of_types(s, n - 1);
    }
}

proof fn lemma_declared_in(s: ModuleScopeV, n: int)
    requires
        0 <= n <= s.defs.len(),
        forall|i: int| 0 <= i < s.defs.len() ==> s.files.contains((#[trigger] s.defs[i]).file),
    ensures
        forall|i: int|
            0 <= i < declaring_files(s, n).len() ==> s.files.contains(
                #[trigger] declaring_files(s, n)[i],
            ),
    decreases n,
{
    if n > 0 {
        lemma_declared_in(s, n - 1);
        let front = declaring_files(s, n - 1);
        assert(s.files.contains(s.defs[n - 1].file));
        assert forall|i: int| 0 <= i < declaring_files(s, n).len() implies s.files.contains(
            #[trigger] declaring_files(s, n)[i],
        ) by {
            if i < front.len() {
                assert(declaring_files(s, n)[i] == front[i]);
            }
        }
    }
}

/// What a check demands, in order.
pub open spec fn front_of(s: ModuleScopeV, root: FileId) -> Seq<QueryKey> {
    seq![QueryKey::Scope(root)] + (ast_demands(s.files) + fns_demands(
        s,
        PerFn::Types,
        s.defs.len() as int,
    ) + seq![QueryKey::Ownership(root)])
}

/// A check demands each of these.
proof fn lemma_in_front(s: ModuleScopeV, root: FileId)
    ensures
        front_of(s, root).contains(QueryKey::Scope(root)),
        front_of(s, root).contains(QueryKey::Ownership(root)),
        forall|i: int|
            0 <= i < fns_demands(s, PerFn::Types, s.defs.len() as int).len() ==> front_of(
                s,
                root,
            ).contains(#[trigger] fns_demands(s, PerFn::Types, s.defs.len() as int)[i]),
        forall|f: FileId|
            #[trigger] s.files.contains(f) ==> front_of(s, root).contains(QueryKey::Ast(f)),
{
    let fr = front_of(s, root);
    let asts = ast_demands(s.files);
    let types = fns_demands(s, PerFn::Types, s.defs.len() as int);
    assert(fr[0] == QueryKey::Scope(root));
    assert(fr[fr.len() - 1] == QueryKey::Ownership(root));
    assert forall|i: int| 0 <= i < types.len() implies fr.contains(#[trigger] types[i]) by {
        assert(fr[1 + asts.len() + i] == types[i]);
    }
    assert forall|f: FileId| #[trigger] s.files.contains(f) implies fr.contains(
        QueryKey::Ast(f),
    ) by {
        let i = choose|i: int| 0 <= i < s.files.len() && s.files[i] == f;
        assert(asts[i] == QueryKey::Ast(f));
        assert(fr[1 + i] == asts[i]);
    }
}

/// What a backend query records, a check recorded before.
proof fn lemma_backend_among(
    s: ModuleScopeV,
    root: FileId,
    own: spec_fn(QueryKey) -> Seq<DiagnosticV>,
    e: EngineV,
    k: QueryKey,
)
    requires
        told(s, root, own, e),
        e.memo.contains_key(k),
        own(k).len() == 0,
        forall|i: int|
            0 <= i < plan_of_query(s, root, k).len() ==> front_of(s, root).contains(
                #[trigger] plan_of_query(s, root, k)[i],
            ),
    ensures
        all_among(e.memo[k].diags, dep_diags(e.memo, front_of(s, root))),
{
    let plan = plan_of_query(s, root, k);
    let all = dep_diags(e.memo, front_of(s, root));
    assert forall|i: int| 0 <= i < plan.len() && e.memo.contains_key(plan[i]) implies all_among(
        e.memo[#[trigger] plan[i]].diags,
        all,
    ) by {
        lemma_among(e.memo, front_of(s, root), plan[i]);
    }
    lemma_list_among(e.memo, plan, all);
    assert(e.memo[k].diags =~= dep_diags(e.memo, plan));
}

/// What a compile demands behind what a check demands.
pub open spec fn back_of(s: ModuleScopeV, root: FileId) -> Seq<QueryKey> {
    seq![QueryKey::Graph(root)] + fns_demands(s, PerFn::Mir, s.defs.len() as int) + seq![
        QueryKey::Diagnostics(root),
    ]
}

proof fn lemma_plans(s: ModuleScopeV, root: FileId)
    ensures
        plan_of_query(s, root, QueryKey::Diagnostics(root)) == front_of(s, root),
        plan_of_query(s, root, QueryKey::Compile(root)) == front_of(s, root) + back_of(s, root),
{
    assert(plan_of_query(s, root, QueryKey::Diagnostics(root)) =~= front_of(s, root));
    assert(plan_of_query(s, root, QueryKey::Compile(root)) =~= front_of(s, root) + back_of(
        s,
        root,
    ));
}

/// What an evaluation of MIR demands, a check demands too.
proof fn lemma_mir_in_front(s: ModuleScopeV, root: FileId, i: int)
    requires
        0 <= i < fns_demands(s, PerFn::Mir, s.defs.len() as int).len(),
    ensures
        ({
            let k = fns_demands(s, PerFn::Mir, s.defs.len() as int)[i];
            k is MirBody && forall|j: int|
                0 <= j < plan_of_query(s, root, k).len() ==> front_of(s, root).contains(
                    #[trigger] plan_of_query(s, root, k)[j],
                )
        }),
{
    let n = s.defs.len() as int;
    let k = fns_demands(s, PerFn::Mir, n)[i];
    lemma_mir_of_types(s, n);
    lemma_in_front(s, root);
    let types = fns_demands(s, PerFn::Types, n);
    assert(types[i] == QueryKey::BodyTypes(k->MirBody_0));
    assert(front_of(s, root).contains(types[i]));
    let plan = plan_of_query(s, root, k);
    assert(plan =~= seq![QueryKey::Scope(root), types[i], QueryKey::Ownership(root)]);
}

/// What a compile records behind what a check records, the check
/// recorded before.
proof fn lemma_back_among(
    s: ModuleScopeV,
    root: FileId,
    own: spec_fn(QueryKey) -> Seq<DiagnosticV>,
    e: EngineV,
)
    requires
        told(s, root, own, e),
        forall|i: int| 0 <= i < s.defs.len() ==> s.files.contains((#[trigger] s.defs[i]).file),
        forall|k: QueryKey|
            crate::evaluate::is_backend(k) || k is Diagnostics ==> (#[trigger] own(k)).len() == 0,
    ensures
        all_among(
            dep_diags(e.memo, back_of(s, root)),
            dep_diags(e.memo, front_of(s, root)),
        ),
{
    let n = s.defs.len() as int;
    let rest = back_of(s, root);
    let all = dep_diags(e.memo, front_of(s, root));
    let mirs = fns_demands(s, PerFn::Mir, n);
    assert forall|i: int| 0 <= i < rest.len() && e.memo.contains_key(rest[i]) implies all_among(
        e.memo[#[trigger] rest[i]].diags,
        all,
    ) by {
        let k = rest[i];
        if i == 0 {
            assert(k == QueryKey::Graph(root));
            lemma_graph_in_front(s, root);
        } else if i <= mirs.len() {
            assert(k == mirs[i - 1]);
            lemma_mir_in_front(s, root, i - 1);
        } else {
            assert(k == QueryKey::Diagnostics(root));
            lemma_plans(s, root);
        }
        assert(own(k).len() == 0);
        lemma_backend_among(s, root, own, e, k);
    }
    lemma_list_among(e.memo, rest, all);
}

/// A check is not a weaker pass: on the same sources it reports exactly
/// the diagnostics a compile reports, in the same order. Building the
/// graph and MIR reports nothing of its own, and neither does putting
/// the results together.
pub proof fn law_check_reports_what_compile_reports(
    s: ModuleScopeV,
    root: FileId,
    own: spec_fn(QueryKey) -> Seq<DiagnosticV>,
    check: EngineV,
    compile: EngineV,
    snap: SnapV,
)
    requires
        told(s, root, own, check),
        told(s, root, own, compile),
        check.memo.contains_key(QueryKey::Diagnostics(root)),
        compile.memo.contains_key(QueryKey::Compile(root)),
        forall|i: int| 0 <= i < s.defs.len() ==> s.files.contains((#[trigger] s.defs[i]).file),
        forall|k: QueryKey|
            crate::evaluate::is_backend(k) || k is Diagnostics ==> (#[trigger] own(k)).len() == 0,
    ensures
        collected(snap, check.memo[QueryKey::Diagnostics(root)].diags) == collected(
            snap,
            compile.memo[QueryKey::Compile(root)].diags,
        ),
{
    let d = QueryKey::Diagnostics(root);
    let c = QueryKey::Compile(root);
    let memo = compile.memo;
    let front = front_of(s, root);
    let rest = back_of(s, root);
    lemma_plans(s, root);
    assert(tells(s, root, own, memo, c));
    let deps = memo[c].deps;
    assert(deps[deps.len() - 1] == d);
    assert(memo.contains_key(d));
    law_databases_agree(s, root, own, check, compile, d);
    assert(own(d).len() == 0 && own(c).len() == 0);
    assert(memo[d].diags =~= dep_diags(memo, front));
    lemma_back_among(s, root, own, compile);
    lemma_dep_diags_join(memo, front, rest);
    assert(memo[c].diags =~= dep_diags(memo, front) + dep_diags(memo, rest));
    lemma_collected_again(snap, dep_diags(memo, front), dep_diags(memo, rest));
}

proof fn lemma_graph_in_front(s: ModuleScopeV, root: FileId)
    requires
        forall|i: int| 0 <= i < s.defs.len() ==> s.files.contains((#[trigger] s.defs[i]).file),
    ensures
        forall|i: int|
            0 <= i < plan_of_query(s, root, QueryKey::Graph(root)).len() ==> front_of(
                s,
                root,
            ).contains(#[trigger] plan_of_query(s, root, QueryKey::Graph(root))[i]),
{
    let n = s.defs.len() as int;
    let front = front_of(s, root);
    let types = fns_demands(s, PerFn::Types, n);
    let files = declaring_files(s, n);
    let asts = ast_demands(files);
    let plan = plan_of_query(s, root, QueryKey::Graph(root));
    lemma_in_front(s, root);
    lemma_declared_in(s, n);
    assert forall|i: int| 0 <= i < plan.len() implies front.contains(#[trigger] plan[i]) by {
        if i == 0 {
            assert(plan[i] == QueryKey::Scope(root));
        } else if i <= types.len() {
            assert(plan[i] == types[i - 1]);
        } else if i == types.len() + 1 {
            assert(plan[i] == QueryKey::Ownership(root));
        } else {
            let j = i - types.len() - 2;
            assert(plan[i] == asts[j]);
            assert(s.files.contains(files[j]));
            assert(asts[j] == QueryKey::Ast(files[j]));
        }
    }
}

} // verus!
