//! The run of a check.
//!
//! [`run_trace`] is a run of the engine on the plans of its queries.
//! [`law_check_is_a_cheap_compile`] says what a check is: it reports what
//! a compile reports, builds nothing that only a run needs, and costs
//! nothing when it is asked again.

use crate::check_laws::{
    law_check_reports_what_compile_reports, law_told_demanded, law_told_finished, law_told_opened,
    law_told_stepped, on_plan, plan_of_query, told,
};
use crate::collect::collected;
use crate::diagnostic::DiagnosticV;
use crate::engine::{demanded, finished, in_flight, opened, stepped, Action, EngineV, Focus};
use crate::engine_laws::{job_key, law_fresh_demand_evaluates_nothing};
use crate::evaluate::{is_backend, law_check_builds_nothing};
use crate::hir::ModuleScopeV;
use crate::query::QueryKey;
use crate::snapshot::SnapV;
use crate::source::FileId;
use vstd::prelude::*;

verus! {

/// The evaluation in flight demands what its plan says next.
pub open spec fn demands_next(s: ModuleScopeV, root: FileId, e: EngineV, e2: EngineV) -> bool {
    let t = e.stack.last();
    let plan = plan_of_query(s, root, job_key(t));
    let n = t->Run_deps.len();
    in_flight(e) && n < plan.len() && e2 == demanded(e, plan[n as int])
}

/// The evaluation in flight ends: it has demanded its plan and reports
/// its own diagnostics.
pub open spec fn ends(
    s: ModuleScopeV,
    root: FileId,
    own: spec_fn(QueryKey) -> Seq<DiagnosticV>,
    e: EngineV,
    e2: EngineV,
) -> bool {
    let t = e.stack.last();
    &&& in_flight(e)
    &&& t->Run_deps.len() == plan_of_query(s, root, job_key(t)).len()
    &&& exists|value: u64, nanos: u64| e2 == #[trigger] finished(e, value, own(job_key(t)), nanos)
}

/// One move of a run.
pub open spec fn run_moves(
    s: ModuleScopeV,
    root: FileId,
    own: spec_fn(QueryKey) -> Seq<DiagnosticV>,
    e: EngineV,
    e2: EngineV,
) -> bool {
    e2 == stepped(e).0 || demands_next(s, root, e, e2) || ends(s, root, own, e, e2)
}

/// A run: the engines one after the other, from a top-level demand on.
pub open spec fn run_trace(
    s: ModuleScopeV,
    root: FileId,
    own: spec_fn(QueryKey) -> Seq<DiagnosticV>,
    start: EngineV,
    k: QueryKey,
    tr: Seq<EngineV>,
) -> bool {
    &&& tr.len() > 0
    &&& tr[0] == opened(start, k)
    &&& forall|i: int|
        0 <= i < tr.len() - 1 ==> run_moves(s, root, own, #[trigger] tr[i], tr[i + 1])
}

/// An engine on its way to `k`.
pub open spec fn heads_for(e: EngineV, k: QueryKey) -> bool {
    if e.stack.len() > 0 {
        job_key(e.stack[0]) == k && e.focus != Focus::Idle
    } else {
        match e.focus {
            Focus::Enter(x) => x == k,
            Focus::Back(x) => x == k,
            Focus::Idle => e.memo.contains_key(k),
            _ => false,
        }
    }
}

/// An engine that has evaluated, evaluates and enters nothing that only
/// a run needs.
pub open spec fn stays_front(e: EngineV) -> bool {
    &&& forall|i: int| 0 <= i < e.stack.len() ==> !is_backend(job_key(#[trigger] e.stack[i]))
    &&& forall|i: int| 0 <= i < e.last_run.len() ==> !is_backend((#[trigger] e.last_run[i]).0)
    &&& e.focus matches Focus::Enter(k) ==> !is_backend(k)
}

proof fn lemma_move_told(
    s: ModuleScopeV,
    root: FileId,
    own: spec_fn(QueryKey) -> Seq<DiagnosticV>,
    e: EngineV,
    e2: EngineV,
)
    requires
        told(s, root, own, e),
        run_moves(s, root, own, e, e2),
    ensures
        told(s, root, own, e2),
{
    if e2 == stepped(e).0 {
        law_told_stepped(s, root, own, e);
    } else if demands_next(s, root, e, e2) {
        let t = e.stack.last();
        let plan = plan_of_query(s, root, job_key(t));
        law_told_demanded(s, root, own, e, plan[t->Run_deps.len() as int]);
    } else {
        let (value, nanos) = choose|value: u64, nanos: u64|
            e2 == #[trigger] finished(e, value, own(job_key(e.stack.last())), nanos);
        law_told_finished(s, root, own, e, value, nanos);
    }
}

proof fn lemma_move_heads(
    s: ModuleScopeV,
    root: FileId,
    own: spec_fn(QueryKey) -> Seq<DiagnosticV>,
    e: EngineV,
    e2: EngineV,
    k: QueryKey,
)
    requires
        told(s, root, own, e),
        run_moves(s, root, own, e, e2),
        heads_for(e, k),
    ensures
        heads_for(e2, k),
{
    if e.stack.len() > 0 {
        assert(on_plan(s, root, e.memo, e.stack.last())) by {
            assert(e.stack.last() == e.stack[e.stack.len() - 1]);
        }
    }
    if e2 == stepped(e).0 {
        if e.stack.len() > 0 {
            assert(e2.stack.len() >= e.stack.len());
            assert(job_key(e2.stack[0]) == job_key(e.stack[0]));
        }
    } else if demands_next(s, root, e, e2) {
        assert(job_key(e2.stack[0]) == job_key(e.stack[0]));
    } else {
        if e2.stack.len() > 0 {
            assert(e2.stack[0] == e.stack[0]);
        }
    }
}

proof fn lemma_move_front(
    s: ModuleScopeV,
    root: FileId,
    own: spec_fn(QueryKey) -> Seq<DiagnosticV>,
    e: EngineV,
    e2: EngineV,
)
    requires
        told(s, root, own, e),
        run_moves(s, root, own, e, e2),
        stays_front(e),
    ensures
        stays_front(e2),
{
    let n = e.stack.len() - 1;
    if e.stack.len() > 0 {
        assert(e.stack.last() == e.stack[n]);
        assert(on_plan(s, root, e.memo, e.stack[n]));
        assert(!is_backend(job_key(e.stack[n])));
    }
    if e2 == stepped(e).0 {
        assert forall|i: int| 0 <= i < e2.stack.len() implies !is_backend(
            job_key(#[trigger] e2.stack[i]),
        ) by {
            if i < e.stack.len() {
                assert(job_key(e2.stack[i]) == job_key(e.stack[i]));
            }
        }
    } else if demands_next(s, root, e, e2) {
        let k = job_key(e.stack[n]);
        let plan = plan_of_query(s, root, k);
        law_check_builds_nothing(k, s, root);
        let d = e.stack[n]->Run_deps.len() as int;
        let rest = crate::evaluate::demands_of(k, s, root);
        if crate::check_laws::takes_scope(k) && d > 0 {
            assert(plan[d] == rest[d - 1]);
        } else if !crate::check_laws::takes_scope(k) {
            assert(plan[d] == rest[d]);
        }
        assert forall|i: int| 0 <= i < e2.stack.len() implies !is_backend(
            job_key(#[trigger] e2.stack[i]),
        ) by {
            assert(job_key(e2.stack[i]) == job_key(e.stack[i]));
        }
    } else {
        assert forall|i: int| 0 <= i < e2.stack.len() implies !is_backend(
            job_key(#[trigger] e2.stack[i]),
        ) by {
            assert(e2.stack[i] == e.stack[i]);
        }
        assert forall|i: int| 0 <= i < e2.last_run.len() implies !is_backend(
            (#[trigger] e2.last_run[i]).0,
        ) by {
            if i < e.last_run.len() {
                assert(e2.last_run[i] == e.last_run[i]);
            }
        }
    }
}

/// Every point of a run is on its way, and once the engine is idle the
/// demanded query has its entry.
proof fn lemma_run(
    s: ModuleScopeV,
    root: FileId,
    own: spec_fn(QueryKey) -> Seq<DiagnosticV>,
    start: EngineV,
    k: QueryKey,
    tr: Seq<EngineV>,
    i: int,
)
    requires
        told(s, root, own, start),
        start.focus == Focus::Idle,
        run_trace(s, root, own, start, k, tr),
        0 <= i < tr.len(),
    ensures
        told(s, root, own, tr[i]),
        heads_for(tr[i], k),
        !is_backend(k) ==> stays_front(tr[i]),
    decreases i,
{
    if i == 0 {
        law_told_opened(s, root, own, start, k);
    } else {
        lemma_run(s, root, own, start, k, tr, i - 1);
        assert(run_moves(s, root, own, tr[i - 1], tr[i - 1 + 1]));
        lemma_move_told(s, root, own, tr[i - 1], tr[i]);
        lemma_move_heads(s, root, own, tr[i - 1], tr[i], k);
        if !is_backend(k) {
            lemma_move_front(s, root, own, tr[i - 1], tr[i]);
        }
    }
}

/// No point of a check's run has evaluated, evaluates or enters the
/// graph, MIR or the assembled bundle.
pub proof fn law_check_run_builds_nothing(
    s: ModuleScopeV,
    root: FileId,
    own: spec_fn(QueryKey) -> Seq<DiagnosticV>,
    start: EngineV,
    tr: Seq<EngineV>,
    i: int,
)
    requires
        told(s, root, own, start),
        start.focus == Focus::Idle,
        run_trace(s, root, own, start, QueryKey::Diagnostics(root), tr),
        0 <= i < tr.len(),
    ensures
        stays_front(tr[i]),
{
    lemma_run(s, root, own, start, QueryKey::Diagnostics(root), tr, i);
}

/// What a check is. On the same sources it reports exactly the
/// diagnostics that a compile reports, in the same order; its run log
/// names nothing that only a run needs; and a second check is ready
/// after two steps with an empty run log and the same report.
pub proof fn law_check_is_a_cheap_compile(
    s: ModuleScopeV,
    root: FileId,
    own: spec_fn(QueryKey) -> Seq<DiagnosticV>,
    check: (EngineV, Seq<EngineV>),
    compile: (EngineV, Seq<EngineV>),
    snap: SnapV,
)
    requires
        told(s, root, own, check.0),
        check.0.focus == Focus::Idle,
        run_trace(s, root, own, check.0, QueryKey::Diagnostics(root), check.1),
        check.1.last().focus == Focus::Idle,
        told(s, root, own, compile.0),
        compile.0.focus == Focus::Idle,
        run_trace(s, root, own, compile.0, QueryKey::Compile(root), compile.1),
        compile.1.last().focus == Focus::Idle,
        forall|i: int| 0 <= i < s.defs.len() ==> s.files.contains((#[trigger] s.defs[i]).file),
        forall|k: QueryKey|
            is_backend(k) || k is Diagnostics ==> (#[trigger] own(k)).len() == 0,
    ensures
        ({
            let d = QueryKey::Diagnostics(root);
            let checked = check.1.last();
            let compiled = compile.1.last();
            let (again, first) = stepped(opened(checked, d));
            let (ready, second) = stepped(again);
            &&& checked.memo.contains_key(d)
            &&& compiled.memo.contains_key(QueryKey::Compile(root))
            &&& collected(snap, checked.memo[d].diags) == collected(
                snap,
                compiled.memo[QueryKey::Compile(root)].diags,
            )
            &&& forall|i: int|
                0 <= i < checked.last_run.len() ==> !is_backend((#[trigger] checked.last_run[i]).0)
            &&& first == Action::Again
            &&& second == Action::Ready(d, checked.memo[d].value)
            &&& ready.last_run.len() == 0
            &&& ready.memo == checked.memo
        }),
{
    let d = QueryKey::Diagnostics(root);
    let c = QueryKey::Compile(root);
    let checked = check.1.last();
    let compiled = compile.1.last();
    assert(checked == check.1[check.1.len() - 1]);
    assert(compiled == compile.1[compile.1.len() - 1]);
    lemma_run(s, root, own, check.0, d, check.1, check.1.len() - 1);
    lemma_run(s, root, own, compile.0, c, compile.1, compile.1.len() - 1);
    law_check_reports_what_compile_reports(s, root, own, checked, compiled, snap);
    law_fresh_demand_evaluates_nothing(checked, d);
}

} // verus!
