//! What the incremental engine guarantees.
//!
//! An evaluator is deterministic: what it does next — demand another
//! query, or yield its value — depends on the query and on the values it
//! has read so far. Against any such evaluator, the engine's memoized
//! values are those of a clean build.

use crate::diagnostic::DiagnosticV;
use crate::engine::{
    changed_since, demanded, finished, fresh_run, in_flight, marked, opened, stepped, written,
    Action, EngineV, EntryV, Focus, JobV,
};
use crate::query::QueryKey;
use vstd::prelude::*;

verus! {

/// What an evaluator does next.
pub enum NextV {
    /// Demands another query.
    Demand(QueryKey),
    /// Yields its value.
    Done(u64),
}

/// What a clean build computes for a query within `fuel` steps, from the
/// inputs alone; `None` when that is not enough.
pub open spec fn clean(
    ev: spec_fn(QueryKey, Seq<u64>) -> NextV,
    inputs: Map<QueryKey, u64>,
    key: QueryKey,
    fuel: nat,
) -> Option<u64>
    decreases fuel, 1int,
{
    if inputs.contains_key(key) {
        Some(inputs[key])
    } else {
        clean_run(ev, inputs, key, Seq::empty(), fuel)
    }
}

/// What a clean build computes for a query whose evaluation has read the
/// given values.
pub open spec fn clean_run(
    ev: spec_fn(QueryKey, Seq<u64>) -> NextV,
    inputs: Map<QueryKey, u64>,
    key: QueryKey,
    reads: Seq<u64>,
    fuel: nat,
) -> Option<u64>
    decreases fuel, 0int,
{
    if fuel == 0 {
        None
    } else {
        match ev(key, reads) {
            NextV::Done(v) => Some(v),
            NextV::Demand(d) => match clean(ev, inputs, d, (fuel - 1) as nat) {
                None => None,
                Some(x) => clean_run(ev, inputs, key, reads.push(x), (fuel - 1) as nat),
            },
        }
    }
}

/// Whether an evaluator demands the given queries when it reads the
/// given values.
pub open spec fn demands(
    ev: spec_fn(QueryKey, Seq<u64>) -> NextV,
    key: QueryKey,
    deps: Seq<QueryKey>,
    reads: Seq<u64>,
) -> bool {
    forall|i: int|
        0 <= i < deps.len() && i <= reads.len() ==> ev(key, reads.take(i)) == NextV::Demand(
            #[trigger] deps[i],
        )
}

/// Whether an entry is what an evaluator yields for the values it read.
pub open spec fn traced(ev: spec_fn(QueryKey, Seq<u64>) -> NextV, key: QueryKey, e: EntryV) -> bool {
    &&& e.reads.len() == e.deps.len()
    &&& demands(ev, key, e.deps, e.reads)
    &&& ev(key, e.reads) == NextV::Done(e.value)
}

/// Whether an entry can be relied on as far as its dependencies tell:
/// each of them was verified no earlier than the entry, and one that did
/// not change since holds the value the entry read.
pub open spec fn supported(memo: Map<QueryKey, EntryV>, e: EntryV) -> bool {
    forall|i: int|
        0 <= i < e.deps.len() ==> {
            &&& memo.contains_key(#[trigger] e.deps[i])
            &&& memo[e.deps[i]].verified_at >= e.verified_at
            &&& memo[e.deps[i]].computed_at <= e.verified_at ==> memo[e.deps[i]].value == e.reads[i]
        }
}

/// Whether an entry is an input, or what its evaluator yields.
pub open spec fn sound_entry(
    ev: spec_fn(QueryKey, Seq<u64>) -> NextV,
    inputs: Map<QueryKey, u64>,
    memo: Map<QueryKey, EntryV>,
    revision: u64,
    k: QueryKey,
) -> bool {
    let e = memo[k];
    &&& e.computed_at <= e.verified_at <= revision
    &&& supported(memo, e)
    &&& if inputs.contains_key(k) {
        e.deps.len() == 0 && e.value == inputs[k]
    } else {
        traced(ev, k, e)
    }
}

/// Whether every entry of a memo table can be relied on.
pub open spec fn sound_memo(
    ev: spec_fn(QueryKey, Seq<u64>) -> NextV,
    inputs: Map<QueryKey, u64>,
    memo: Map<QueryKey, EntryV>,
    revision: u64,
) -> bool {
    &&& forall|k: QueryKey| #[trigger] inputs.contains_key(k) ==> memo.contains_key(k)
    &&& forall|k: QueryKey| #[trigger]
        memo.contains_key(k) ==> sound_entry(ev, inputs, memo, revision, k)
}

/// The query a job works on.
pub open spec fn job_key(t: JobV) -> QueryKey {
    match t {
        JobV::Check { key, verified_at: _, deps: _, next: _ } => key,
        JobV::Run { key, deps: _, reads: _ } => key,
    }
}

/// Whether a query is verified at the current revision.
pub open spec fn fresh(memo: Map<QueryKey, EntryV>, revision: u64, k: QueryKey) -> bool {
    memo.contains_key(k) && memo[k].verified_at == revision
}

/// Whether a job agrees with the memo table.
pub open spec fn sound_job(
    ev: spec_fn(QueryKey, Seq<u64>) -> NextV,
    inputs: Map<QueryKey, u64>,
    s: EngineV,
    t: JobV,
) -> bool {
    &&& !fresh(s.memo, s.revision, job_key(t))
    &&& match t {
        JobV::Check { key, verified_at, deps, next } => {
            &&& s.memo.contains_key(key)
            &&& verified_at == s.memo[key].verified_at
            &&& deps == s.memo[key].deps
            &&& 0 <= next <= deps.len()
            &&& forall|j: int|
                0 <= j < next ==> fresh(s.memo, s.revision, #[trigger] deps[j])
                    && s.memo[deps[j]].computed_at <= verified_at
        },
        JobV::Run { key, deps, reads } => {
            &&& !inputs.contains_key(key)
            &&& reads.len() <= deps.len()
            &&& demands(ev, key, deps, reads)
            &&& forall|j: int|
                0 <= j < reads.len() ==> fresh(s.memo, s.revision, #[trigger] deps[j])
                    && s.memo[deps[j]].value == reads[j]
        },
    }
}

/// Whether a job is waiting for a query.
pub open spec fn awaits(t: JobV, k: QueryKey) -> bool {
    match t {
        JobV::Check { key: _, verified_at: _, deps, next } => 0 <= next < deps.len() && deps[next]
            == k,
        JobV::Run { key: _, deps, reads } => deps.len() == reads.len() + 1 && deps.last() == k,
    }
}

/// Whether the stack and the focus of an engine fit each other.
pub open spec fn in_order(s: EngineV) -> bool {
    &&& forall|i: int, j: int|
        0 <= i < j < s.stack.len() ==> job_key(#[trigger] s.stack[i]) != job_key(
            #[trigger] s.stack[j],
        )
    &&& forall|i: int, j: int|
        0 <= i && j == i + 1 && j < s.stack.len() ==> awaits(
            #[trigger] s.stack[i],
            job_key(#[trigger] s.stack[j]),
        )
    &&& match s.focus {
        Focus::Idle => s.stack.len() == 0,
        Focus::Enter(k) => s.stack.len() > 0 ==> awaits(s.stack.last(), k),
        Focus::Next => s.stack.len() > 0 && s.stack.last() is Check,
        Focus::Back(k) => fresh(s.memo, s.revision, k) && (s.stack.len() > 0 ==> awaits(
            s.stack.last(),
            k,
        )),
        Focus::Waiting => s.stack.len() > 0 && s.stack.last() is Run
            && s.stack.last()->Run_deps.len() == s.stack.last()->Run_reads.len(),
    }
}

/// The engine's invariant, against an evaluator and the inputs written
/// so far.
pub open spec fn sound(
    ev: spec_fn(QueryKey, Seq<u64>) -> NextV,
    inputs: Map<QueryKey, u64>,
    s: EngineV,
) -> bool {
    &&& sound_memo(ev, inputs, s.memo, s.revision)
    &&& forall|i: int|
        0 <= i < s.stack.len() ==> sound_job(ev, inputs, s, #[trigger] s.stack[i])
    &&& in_order(s)
}

/// Whether a query is being worked on.
pub open spec fn on_stack(s: EngineV, k: QueryKey) -> bool {
    exists|i: int| 0 <= i < s.stack.len() && job_key(#[trigger] s.stack[i]) == k
}

// ---------- the central law ----------

proof fn lemma_clean_run(
    ev: spec_fn(QueryKey, Seq<u64>) -> NextV,
    inputs: Map<QueryKey, u64>,
    memo: Map<QueryKey, EntryV>,
    revision: u64,
    key: QueryKey,
    j: int,
    fuel: nat,
)
    requires
        sound_memo(ev, inputs, memo, revision),
        fresh(memo, revision, key),
        !inputs.contains_key(key),
        0 <= j <= memo[key].reads.len(),
        clean_run(ev, inputs, key, memo[key].reads.take(j), fuel) is Some,
    ensures
        clean_run(ev, inputs, key, memo[key].reads.take(j), fuel) == Some(memo[key].value),
    decreases fuel, 0int,
{
    let e = memo[key];
    assert(sound_entry(ev, inputs, memo, revision, key));
    if j < e.reads.len() {
        let d = e.deps[j];
        assert(ev(key, e.reads.take(j)) == NextV::Demand(d));
        assert(memo.contains_key(d));
        assert(sound_entry(ev, inputs, memo, revision, d));
        assert(memo[d].value == e.reads[j]);
        lemma_clean(ev, inputs, memo, revision, d, (fuel - 1) as nat);
        assert(e.reads.take(j).push(e.reads[j]) =~= e.reads.take(j + 1));
        lemma_clean_run(ev, inputs, memo, revision, key, j + 1, (fuel - 1) as nat);
    } else {
        assert(e.reads.take(j) =~= e.reads);
    }
}

proof fn lemma_clean(
    ev: spec_fn(QueryKey, Seq<u64>) -> NextV,
    inputs: Map<QueryKey, u64>,
    memo: Map<QueryKey, EntryV>,
    revision: u64,
    key: QueryKey,
    fuel: nat,
)
    requires
        sound_memo(ev, inputs, memo, revision),
        fresh(memo, revision, key),
        clean(ev, inputs, key, fuel) is Some,
    ensures
        clean(ev, inputs, key, fuel) == Some(memo[key].value),
    decreases fuel, 1int,
{
    assert(sound_entry(ev, inputs, memo, revision, key));
    if !inputs.contains_key(key) {
        assert(memo[key].reads.take(0) =~= Seq::empty());
        lemma_clean_run(ev, inputs, memo, revision, key, 0, fuel);
    }
}

/// Incremental recomputation never produces anything else than a clean
/// build: once a demand is ready, its value is what a clean build
/// computes from the inputs, whenever that build comes to an end.
pub proof fn law_incremental_equals_clean_build(
    ev: spec_fn(QueryKey, Seq<u64>) -> NextV,
    inputs: Map<QueryKey, u64>,
    s: EngineV,
    key: QueryKey,
    fuel: nat,
)
    requires
        sound(ev, inputs, s),
        s.focus == Focus::Back(key),
        clean(ev, inputs, key, fuel) is Some,
    ensures
        s.stack.len() == 0 ==> stepped(s).1 == Action::Ready(
            key,
            clean(ev, inputs, key, fuel)->0,
        ),
        s.stack.len() > 0 && s.stack.last() is Run ==> stepped(s).1 == Action::Resume(
            key,
            clean(ev, inputs, key, fuel)->0,
        ),
{
    lemma_clean(ev, inputs, s.memo, s.revision, key, fuel);
}

// ---------- the invariant is kept ----------

/// A new engine keeps the invariant.
pub proof fn law_new_engine_sound(ev: spec_fn(QueryKey, Seq<u64>) -> NextV, s: EngineV)
    requires
        s.memo == Map::<QueryKey, EntryV>::empty(),
        s.stack.len() == 0,
        s.focus == Focus::Idle,
    ensures
        sound(ev, Map::empty(), s),
{
}

/// Opening a revision keeps the invariant.
pub proof fn law_revision_keeps_sound(
    ev: spec_fn(QueryKey, Seq<u64>) -> NextV,
    inputs: Map<QueryKey, u64>,
    s: EngineV,
)
    requires
        sound(ev, inputs, s),
        s.focus == Focus::Idle,
        s.revision < u64::MAX,
    ensures
        sound(ev, inputs, EngineV { revision: (s.revision + 1) as u64, ..s }),
        forall|k: QueryKey| #[trigger]
            s.memo.contains_key(k) ==> s.memo[k].verified_at < s.revision + 1,
{
    let next = (s.revision + 1) as u64;
    assert forall|k: QueryKey| #[trigger] s.memo.contains_key(k) implies sound_entry(
        ev,
        inputs,
        s.memo,
        next,
        k,
    ) && s.memo[k].verified_at < next by {
        assert(sound_entry(ev, inputs, s.memo, s.revision, k));
    }
}

/// Whether nothing but inputs was verified at the current revision.
pub open spec fn only_inputs_fresh(inputs: Map<QueryKey, u64>, s: EngineV) -> bool {
    forall|k: QueryKey| #[trigger]
        s.memo.contains_key(k) && !inputs.contains_key(k) ==> s.memo[k].verified_at < s.revision
}

/// Writing an input at the start of a revision keeps the invariant.
pub proof fn law_write_keeps_sound(
    ev: spec_fn(QueryKey, Seq<u64>) -> NextV,
    inputs: Map<QueryKey, u64>,
    s: EngineV,
    key: QueryKey,
    value: u64,
)
    requires
        sound(ev, inputs, s),
        s.focus == Focus::Idle,
        only_inputs_fresh(inputs, s),
        inputs.contains_key(key) || !s.memo.contains_key(key),
    ensures
        sound(ev, inputs.insert(key, value), written(s, key, value)),
        only_inputs_fresh(inputs.insert(key, value), written(s, key, value)),
{
    let t = written(s, key, value);
    let ins = inputs.insert(key, value);
    if s.memo.contains_key(key) {
        assert(sound_entry(ev, inputs, s.memo, s.revision, key));
    }
    assert forall|k: QueryKey| #[trigger] t.memo.contains_key(k) implies sound_entry(
        ev,
        ins,
        t.memo,
        t.revision,
        k,
    ) by {
        if k != key {
            assert(s.memo.contains_key(k));
            assert(sound_entry(ev, inputs, s.memo, s.revision, k));
            let e = s.memo[k];
            assert forall|i: int| 0 <= i < e.deps.len() implies {
                &&& t.memo.contains_key(#[trigger] e.deps[i])
                &&& t.memo[e.deps[i]].verified_at >= e.verified_at
                &&& t.memo[e.deps[i]].computed_at <= e.verified_at ==> t.memo[e.deps[i]].value
                    == e.reads[i]
            } by {
                assert(s.memo.contains_key(e.deps[i]));
                assert(!inputs.contains_key(k));
                assert(e.verified_at < s.revision);
            }
        }
    }
    assert forall|k: QueryKey| #[trigger] ins.contains_key(k) implies t.memo.contains_key(k) by {
        if k != key {
            assert(inputs.contains_key(k));
        }
    }
}

/// Starting a demand keeps the invariant.
pub proof fn law_open_keeps_sound(
    ev: spec_fn(QueryKey, Seq<u64>) -> NextV,
    inputs: Map<QueryKey, u64>,
    s: EngineV,
    key: QueryKey,
)
    requires
        sound(ev, inputs, s),
        s.focus == Focus::Idle,
    ensures
        sound(ev, inputs, opened(s, key)),
{
}

/// A demand by the evaluation in flight keeps the invariant, when it is
/// what the evaluator does next.
pub proof fn law_demand_keeps_sound(
    ev: spec_fn(QueryKey, Seq<u64>) -> NextV,
    inputs: Map<QueryKey, u64>,
    s: EngineV,
    key: QueryKey,
)
    requires
        sound(ev, inputs, s),
        in_flight(s),
        ev(job_key(s.stack.last()), s.stack.last()->Run_reads) == NextV::Demand(key),
    ensures
        sound(ev, inputs, demanded(s, key)),
{
    let t = demanded(s, key);
    let n = s.stack.len() - 1;
    let top = s.stack[n];
    assert(sound_job(ev, inputs, s, top));
    let (k, deps, reads) = (job_key(top), top->Run_deps, top->Run_reads);
    let more = deps.push(key);
    assert forall|i: int| 0 <= i < more.len() && i <= reads.len() implies ev(k, reads.take(i))
        == NextV::Demand(#[trigger] more[i]) by {
        if i < deps.len() {
            assert(more[i] == deps[i]);
        } else {
            assert(reads.take(i) =~= reads);
        }
    }
    assert forall|j: int| 0 <= j < reads.len() implies fresh(
        t.memo,
        t.revision,
        #[trigger] more[j],
    ) && t.memo[more[j]].value == reads[j] by {
        assert(more[j] == deps[j]);
    }
    assert forall|i: int| 0 <= i < t.stack.len() implies sound_job(
        ev,
        inputs,
        t,
        #[trigger] t.stack[i],
    ) by {
        if i < n {
            assert(t.stack[i] == s.stack[i]);
            assert(sound_job(ev, inputs, s, s.stack[i]));
        }
    }
    lemma_order_kept(s, t);
}

/// Replacing the top job by one on the same query keeps the stack in
/// order.
proof fn lemma_order_kept(s: EngineV, t: EngineV)
    requires
        in_order(s),
        s.stack.len() > 0,
        t.stack.len() == s.stack.len(),
        forall|i: int| 0 <= i < s.stack.len() - 1 ==> t.stack[i] == #[trigger] s.stack[i],
        job_key(t.stack.last()) == job_key(s.stack.last()),
    ensures
        forall|i: int, j: int|
            0 <= i < j < t.stack.len() ==> job_key(#[trigger] t.stack[i]) != job_key(
                #[trigger] t.stack[j],
            ),
        forall|i: int, j: int|
            0 <= i && j == i + 1 && j < t.stack.len() ==> awaits(
                #[trigger] t.stack[i],
                job_key(#[trigger] t.stack[j]),
            ),
{
    let n = s.stack.len() - 1;
    assert(s.stack.last() == s.stack[n]);
    assert(t.stack.last() == t.stack[n]);
    assert forall|i: int, j: int| 0 <= i < j < t.stack.len() implies job_key(
        #[trigger] t.stack[i],
    ) != job_key(#[trigger] t.stack[j]) by {
        assert(t.stack[i] == s.stack[i]);
        assert(job_key(s.stack[i]) != job_key(s.stack[j]));
        if j < n {
            assert(t.stack[j] == s.stack[j]);
        }
    }
    assert forall|i: int, j: int| 0 <= i && j == i + 1 && j < t.stack.len() implies awaits(
        #[trigger] t.stack[i],
        job_key(#[trigger] t.stack[j]),
    ) by {
        assert(t.stack[i] == s.stack[i]);
        assert(awaits(s.stack[i], job_key(s.stack[j])));
        if j < n {
            assert(t.stack[j] == s.stack[j]);
        }
    }
}

/// Marking an entry whose dependencies are fresh and unchanged keeps
/// the memo table sound.
proof fn lemma_marked(
    ev: spec_fn(QueryKey, Seq<u64>) -> NextV,
    inputs: Map<QueryKey, u64>,
    memo: Map<QueryKey, EntryV>,
    revision: u64,
    key: QueryKey,
)
    requires
        sound_memo(ev, inputs, memo, revision),
        memo.contains_key(key),
        forall|j: int|
            0 <= j < memo[key].deps.len() ==> fresh(memo, revision, #[trigger] memo[key].deps[j])
                && memo[memo[key].deps[j]].computed_at <= memo[key].verified_at,
    ensures
        sound_memo(ev, inputs, marked(memo, key, revision), revision),
{
    let out = marked(memo, key, revision);
    let e = memo[key];
    assert(sound_entry(ev, inputs, memo, revision, key));
    assert forall|k: QueryKey| #[trigger] out.contains_key(k) implies sound_entry(
        ev,
        inputs,
        out,
        revision,
        k,
    ) by {
        assert(memo.contains_key(k));
        assert(sound_entry(ev, inputs, memo, revision, k));
        let o = out[k];
        assert forall|i: int| 0 <= i < o.deps.len() implies {
            &&& out.contains_key(#[trigger] o.deps[i])
            &&& out[o.deps[i]].verified_at >= o.verified_at
            &&& out[o.deps[i]].computed_at <= o.verified_at ==> out[o.deps[i]].value == o.reads[i]
        } by {
            assert(memo[k].deps[i] == o.deps[i]);
            assert(memo.contains_key(memo[k].deps[i]));
            assert(sound_entry(ev, inputs, memo, revision, memo[k].deps[i]));
            if k == key {
                assert(fresh(memo, revision, e.deps[i]));
            }
        }
    }
}

/// A step keeps the invariant, unless it turns to a query that is being
/// worked on already.
pub proof fn law_step_keeps_sound(
    ev: spec_fn(QueryKey, Seq<u64>) -> NextV,
    inputs: Map<QueryKey, u64>,
    s: EngineV,
)
    requires
        sound(ev, inputs, s),
        s.focus is Enter ==> !on_stack(s, s.focus->Enter_0),
    ensures
        sound(ev, inputs, stepped(s).0),
{
    match s.focus {
        Focus::Idle => {},
        Focus::Waiting => {},
        Focus::Enter(k) => lemma_enter(ev, inputs, s, k),
        Focus::Next => lemma_next(ev, inputs, s),
        Focus::Back(k) => lemma_back(ev, inputs, s, k),
    }
}

proof fn lemma_pushed(
    ev: spec_fn(QueryKey, Seq<u64>) -> NextV,
    inputs: Map<QueryKey, u64>,
    s: EngineV,
    k: QueryKey,
    job: JobV,
    focus: Focus,
)
    requires
        sound(ev, inputs, s),
        s.focus == Focus::Enter(k),
        !on_stack(s, k),
        job_key(job) == k,
        sound_job(ev, inputs, s, job),
        focus == Focus::Next && job is Check || focus == Focus::Waiting && job == fresh_run(k),
    ensures
        sound(ev, inputs, EngineV { stack: s.stack.push(job), focus, ..s }),
{
    let t = EngineV { stack: s.stack.push(job), focus, ..s };
    let n = s.stack.len() as int;
    assert forall|i: int| 0 <= i < t.stack.len() implies sound_job(
        ev,
        inputs,
        t,
        #[trigger] t.stack[i],
    ) by {
        if i < n {
            assert(t.stack[i] == s.stack[i]);
            assert(sound_job(ev, inputs, s, s.stack[i]));
        }
    }
    assert forall|i: int, j: int| 0 <= i < j < t.stack.len() implies job_key(
        #[trigger] t.stack[i],
    ) != job_key(#[trigger] t.stack[j]) by {
        assert(t.stack[i] == s.stack[i]);
        if j < n {
            assert(t.stack[j] == s.stack[j]);
        }
    }
    assert forall|i: int, j: int| 0 <= i && j == i + 1 && j < t.stack.len() implies awaits(
        #[trigger] t.stack[i],
        job_key(#[trigger] t.stack[j]),
    ) by {
        assert(t.stack[i] == s.stack[i]);
        if j < n {
            assert(t.stack[j] == s.stack[j]);
        } else {
            assert(s.stack.last() == s.stack[i]);
        }
    }
}

proof fn lemma_enter(
    ev: spec_fn(QueryKey, Seq<u64>) -> NextV,
    inputs: Map<QueryKey, u64>,
    s: EngineV,
    k: QueryKey,
)
    requires
        sound(ev, inputs, s),
        s.focus == Focus::Enter(k),
        !on_stack(s, k),
    ensures
        sound(ev, inputs, stepped(s).0),
{
    let t = stepped(s).0;
    if !s.memo.contains_key(k) {
        assert(inputs.contains_key(k) ==> s.memo.contains_key(k));
        lemma_pushed(ev, inputs, s, k, fresh_run(k), Focus::Waiting);
    } else if s.memo[k].verified_at == s.revision {
        assert forall|i: int| 0 <= i < t.stack.len() implies sound_job(
            ev,
            inputs,
            t,
            #[trigger] t.stack[i],
        ) by {
            assert(sound_job(ev, inputs, s, s.stack[i]));
        }
    } else {
        let job = JobV::Check {
            key: k,
            verified_at: s.memo[k].verified_at,
            deps: s.memo[k].deps,
            next: 0,
        };
        lemma_pushed(ev, inputs, s, k, job, Focus::Next);
    }
}

/// The jobs below the top agree with a table in which only the top
/// job's query changed.
proof fn lemma_popped(
    ev: spec_fn(QueryKey, Seq<u64>) -> NextV,
    inputs: Map<QueryKey, u64>,
    s: EngineV,
    t: EngineV,
    key: QueryKey,
)
    requires
        sound(ev, inputs, s),
        s.stack.len() > 0,
        job_key(s.stack.last()) == key,
        t.stack == s.stack.drop_last(),
        t.revision == s.revision,
        t.focus == Focus::Back(key),
        fresh(t.memo, t.revision, key),
        forall|k: QueryKey| k != key ==> (s.memo.contains_key(k) == #[trigger] t.memo.contains_key(
            k,
        )),
        forall|k: QueryKey|
            k != key && #[trigger] t.memo.contains_key(k) ==> t.memo[k] == s.memo[k],
    ensures
        forall|i: int|
            0 <= i < t.stack.len() ==> sound_job(ev, inputs, t, #[trigger] t.stack[i]),
        in_order(t),
{
    let n = s.stack.len() - 1;
    assert(s.stack.last() == s.stack[n]);
    assert(sound_job(ev, inputs, s, s.stack[n]));
    assert forall|i: int| 0 <= i < t.stack.len() implies sound_job(
        ev,
        inputs,
        t,
        #[trigger] t.stack[i],
    ) by {
        assert(t.stack[i] == s.stack[i]);
        assert(sound_job(ev, inputs, s, s.stack[i]));
        assert(job_key(s.stack[i]) != job_key(s.stack[n]));
        match t.stack[i] {
            JobV::Check { key: k, verified_at, deps, next } => {
                assert forall|j: int| 0 <= j < next implies fresh(
                    t.memo,
                    t.revision,
                    #[trigger] deps[j],
                ) && t.memo[deps[j]].computed_at <= verified_at by {
                    assert(fresh(s.memo, s.revision, deps[j]));
                    assert(deps[j] != key);
                    assert(t.memo.contains_key(deps[j]));
                }
                assert(t.memo.contains_key(k));
            },
            JobV::Run { key: k, deps, reads } => {
                assert forall|j: int| 0 <= j < reads.len() implies fresh(
                    t.memo,
                    t.revision,
                    #[trigger] deps[j],
                ) && t.memo[deps[j]].value == reads[j] by {
                    assert(fresh(s.memo, s.revision, deps[j]));
                    assert(deps[j] != key);
                    assert(t.memo.contains_key(deps[j]));
                }
                let _ = t.memo.contains_key(k);
            },
        }
    }
    assert forall|i: int, j: int| 0 <= i < j < t.stack.len() implies job_key(
        #[trigger] t.stack[i],
    ) != job_key(#[trigger] t.stack[j]) by {
        assert(t.stack[i] == s.stack[i]);
        assert(t.stack[j] == s.stack[j]);
    }
    assert forall|i: int, j: int| 0 <= i && j == i + 1 && j < t.stack.len() implies awaits(
        #[trigger] t.stack[i],
        job_key(#[trigger] t.stack[j]),
    ) by {
        assert(t.stack[i] == s.stack[i]);
        assert(t.stack[j] == s.stack[j]);
    }
    if t.stack.len() > 0 {
        assert(t.stack.last() == s.stack[n - 1]);
        assert(awaits(s.stack[n - 1], job_key(s.stack[n])));
    }
}

proof fn lemma_next(
    ev: spec_fn(QueryKey, Seq<u64>) -> NextV,
    inputs: Map<QueryKey, u64>,
    s: EngineV,
)
    requires
        sound(ev, inputs, s),
        s.focus == Focus::Next,
    ensures
        sound(ev, inputs, stepped(s).0),
{
    let t = stepped(s).0;
    let n = s.stack.len() - 1;
    let top = s.stack[n];
    assert(s.stack.last() == top);
    assert(sound_job(ev, inputs, s, top));
    match top {
        JobV::Run { key: _, deps: _, reads: _ } => {},
        JobV::Check { key, verified_at, deps, next } => if next >= deps.len() {
            assert forall|j: int| 0 <= j < s.memo[key].deps.len() implies fresh(
                s.memo,
                s.revision,
                #[trigger] s.memo[key].deps[j],
            ) && s.memo[s.memo[key].deps[j]].computed_at <= s.memo[key].verified_at by {
                assert(fresh(s.memo, s.revision, deps[j]));
            }
            lemma_marked(ev, inputs, s.memo, s.revision, key);
            lemma_popped(ev, inputs, s, t, key);
        } else {
            assert forall|i: int| 0 <= i < t.stack.len() implies sound_job(
                ev,
                inputs,
                t,
                #[trigger] t.stack[i],
            ) by {
                assert(sound_job(ev, inputs, s, s.stack[i]));
            }
        },
    }
}

proof fn lemma_back(
    ev: spec_fn(QueryKey, Seq<u64>) -> NextV,
    inputs: Map<QueryKey, u64>,
    s: EngineV,
    k: QueryKey,
)
    requires
        sound(ev, inputs, s),
        s.focus == Focus::Back(k),
    ensures
        sound(ev, inputs, stepped(s).0),
{
    let t = stepped(s).0;
    if s.stack.len() > 0 {
        let n = s.stack.len() - 1;
        let top = s.stack[n];
        assert(s.stack.last() == top);
        assert(sound_job(ev, inputs, s, top));
        assert forall|i: int| 0 <= i < t.stack.len() implies sound_job(
            ev,
            inputs,
            t,
            #[trigger] t.stack[i],
        ) by {
            if i < n {
                assert(t.stack[i] == s.stack[i]);
                assert(sound_job(ev, inputs, s, s.stack[i]));
            } else {
                match top {
                    JobV::Run { key, deps, reads } => {
                        let more = reads.push(s.memo[k].value);
                        assert forall|j: int| 0 <= j < deps.len() && j <= more.len() implies ev(
                            key,
                            more.take(j),
                        ) == NextV::Demand(#[trigger] deps[j]) by {
                            assert(more.take(j) =~= reads.take(j));
                        }
                        assert forall|j: int| 0 <= j < more.len() implies fresh(
                            t.memo,
                            t.revision,
                            #[trigger] deps[j],
                        ) && t.memo[deps[j]].value == more[j] by {
                            if j < reads.len() {
                                assert(fresh(s.memo, s.revision, deps[j]));
                                assert(more[j] == reads[j]);
                            } else {
                                assert(deps[j] == deps.last());
                            }
                        }
                    },
                    JobV::Check { key, verified_at, deps, next } => {
                        assert(inputs.contains_key(key) ==> s.memo[key].deps.len() == 0) by {
                            assert(sound_entry(ev, inputs, s.memo, s.revision, key));
                        }
                    },
                }
            }
        }
        lemma_order_kept(s, t);
    }
}

/// Installing what the evaluation in flight yielded keeps the
/// invariant, when it is what the evaluator does next.
pub proof fn law_finish_keeps_sound(
    ev: spec_fn(QueryKey, Seq<u64>) -> NextV,
    inputs: Map<QueryKey, u64>,
    s: EngineV,
    value: u64,
    own: Seq<DiagnosticV>,
    nanos: u64,
)
    requires
        sound(ev, inputs, s),
        in_flight(s),
        ev(job_key(s.stack.last()), s.stack.last()->Run_reads) == NextV::Done(value),
    ensures
        sound(ev, inputs, finished(s, value, own, nanos)),
{
    let t = finished(s, value, own, nanos);
    let n = s.stack.len() - 1;
    let top = s.stack[n];
    assert(s.stack.last() == top);
    assert(sound_job(ev, inputs, s, top));
    let (key, deps, reads) = (job_key(top), top->Run_deps, top->Run_reads);
    if s.memo.contains_key(key) {
        assert(sound_entry(ev, inputs, s.memo, s.revision, key));
    }
    assert forall|k: QueryKey| #[trigger] t.memo.contains_key(k) implies sound_entry(
        ev,
        inputs,
        t.memo,
        t.revision,
        k,
    ) by {
        let o = t.memo[k];
        if k != key {
            assert(s.memo.contains_key(k));
            assert(sound_entry(ev, inputs, s.memo, s.revision, k));
        }
        assert forall|i: int| 0 <= i < o.deps.len() implies {
            &&& t.memo.contains_key(#[trigger] o.deps[i])
            &&& t.memo[o.deps[i]].verified_at >= o.verified_at
            &&& t.memo[o.deps[i]].computed_at <= o.verified_at ==> t.memo[o.deps[i]].value
                == o.reads[i]
        } by {
            if k == key {
                assert(o.deps[i] == deps[i]);
                assert(fresh(s.memo, s.revision, deps[i]));
            } else {
                assert(s.memo[k].deps[i] == o.deps[i]);
                assert(s.memo.contains_key(s.memo[k].deps[i]));
            }
        }
    }
    assert forall|k: QueryKey| #[trigger] inputs.contains_key(k) implies t.memo.contains_key(
        k,
    ) by {
        assert(s.memo.contains_key(k));
    }
    lemma_popped(ev, inputs, s, t, key);
}

// ---------- what is not evaluated again ----------

/// A second demand of a fresh query evaluates nothing: two steps and it
/// is ready, with an empty run log.
pub proof fn law_fresh_demand_evaluates_nothing(s: EngineV, key: QueryKey)
    requires
        s.stack.len() == 0,
        fresh(s.memo, s.revision, key),
    ensures
        ({
            let (s1, a1) = stepped(opened(s, key));
            let (s2, a2) = stepped(s1);
            &&& a1 == Action::Again
            &&& a2 == Action::Ready(key, s.memo[key].value)
            &&& s2.last_run.len() == 0
            &&& s2.memo == s.memo
            &&& s2.focus == Focus::Idle
        }),
{
}

/// Whether no entry changed after any entry was last verified: what
/// holds once every input was written back unchanged.
pub open spec fn quiet(s: EngineV, at: u64) -> bool {
    &&& forall|k: QueryKey| #[trigger]
        s.memo.contains_key(k) ==> s.memo[k].computed_at <= at <= s.memo[k].verified_at
    &&& forall|k: QueryKey, i: int|
        s.memo.contains_key(k) && 0 <= i < s.memo[k].deps.len() ==> s.memo.contains_key(
            #[trigger] s.memo[k].deps[i],
        )
    &&& at <= s.revision
    &&& forall|i: int|
        0 <= i < s.stack.len() ==> {
            &&& (#[trigger] s.stack[i]) is Check
            &&& s.stack[i]->Check_verified_at >= at
            &&& s.stack[i]->Check_next >= 0
            &&& forall|j: int|
                0 <= j < s.stack[i]->Check_deps.len() ==> s.memo.contains_key(
                    #[trigger] s.stack[i]->Check_deps[j],
                )
        }
    &&& s.focus is Enter ==> s.memo.contains_key(s.focus->Enter_0)
}

/// A verification pass over unchanged inputs is pure: it evaluates
/// nothing, logs nothing, and changes no value.
pub proof fn law_unchanged_inputs_evaluate_nothing(s: EngineV, at: u64)
    requires
        quiet(s, at),
    ensures
        quiet(stepped(s).0, at),
        !(stepped(s).1 is Evaluate),
        stepped(s).0.last_run == s.last_run,
        forall|k: QueryKey| #[trigger]
            s.memo.contains_key(k) ==> stepped(s).0.memo.contains_key(k)
                && stepped(s).0.memo[k].value == s.memo[k].value,
{
    let t = stepped(s).0;
    if s.stack.len() > 0 {
        assert(s.stack.last() == s.stack[s.stack.len() - 1]);
    }
    assert forall|k: QueryKey, i: int|
        t.memo.contains_key(k) && 0 <= i < t.memo[k].deps.len() implies t.memo.contains_key(
        #[trigger] t.memo[k].deps[i],
    ) by {
        assert(s.memo.contains_key(k));
        assert(t.memo[k].deps == s.memo[k].deps);
        assert(s.memo.contains_key(s.memo[k].deps[i]));
    }
    if s.stack.len() > 0 {
        let n = s.stack.len() - 1;
        assert(s.stack.last() == s.stack[n]);
        let top = s.stack[n];
        assert(top is Check);
        if s.focus is Next && top->Check_next < top->Check_deps.len() {
            assert(s.memo.contains_key(top->Check_deps[top->Check_next]));
        }
        assert forall|i: int| 0 <= i < t.stack.len() implies {
            &&& (#[trigger] t.stack[i]) is Check
            &&& t.stack[i]->Check_verified_at >= at
            &&& t.stack[i]->Check_next >= 0
            &&& forall|j: int|
                0 <= j < t.stack[i]->Check_deps.len() ==> t.memo.contains_key(
                    #[trigger] t.stack[i]->Check_deps[j],
                )
        } by {
            if i < n {
                assert(t.stack[i] == s.stack[i]);
            } else if i == n {
                assert(t.stack[i]->Check_deps == top->Check_deps);
                assert forall|j: int| 0 <= j < t.stack[i]->Check_deps.len() implies
                    t.memo.contains_key(#[trigger] t.stack[i]->Check_deps[j]) by {
                    assert(s.memo.contains_key(top->Check_deps[j]));
                }
            } else if let Focus::Enter(k) = s.focus {
                assert forall|j: int| 0 <= j < t.stack[i]->Check_deps.len() implies
                    t.memo.contains_key(#[trigger] t.stack[i]->Check_deps[j]) by {
                    assert(s.memo.contains_key(s.memo[k].deps[j]));
                }
            }
        }
    } else if let Focus::Enter(k) = s.focus {
        assert forall|i: int| 0 <= i < t.stack.len() implies {
            &&& (#[trigger] t.stack[i]) is Check
            &&& t.stack[i]->Check_verified_at >= at
            &&& t.stack[i]->Check_next >= 0
            &&& forall|j: int|
                0 <= j < t.stack[i]->Check_deps.len() ==> t.memo.contains_key(
                    #[trigger] t.stack[i]->Check_deps[j],
                )
        } by {
            assert forall|j: int| 0 <= j < t.stack[i]->Check_deps.len() implies
                t.memo.contains_key(#[trigger] t.stack[i]->Check_deps[j]) by {
                assert(s.memo.contains_key(s.memo[k].deps[j]));
            }
        }
    }
}

/// Early cutoff: an evaluation that yields an equal value does not make
/// a dependent dirty that was not dirty before.
pub proof fn law_equal_value_cuts_off(
    s: EngineV,
    value: u64,
    own: Seq<DiagnosticV>,
    nanos: u64,
    at: u64,
)
    requires
        in_flight(s),
        ({
            let key = job_key(s.stack.last());
            &&& s.memo.contains_key(key)
            &&& crate::query::comparable(key)
            &&& s.memo[key].value == value
        }),
    ensures
        changed_since(finished(s, value, own, nanos).memo, job_key(s.stack.last()), at)
            == changed_since(s.memo, job_key(s.stack.last()), at),
{
}

} // verus!
