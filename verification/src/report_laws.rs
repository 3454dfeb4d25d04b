//! What a collected diagnostic keeps and what moves in it, in which order
//! diagnostics are reported, and what is counted and timed.

use crate::ast::item_span;
use crate::collect::{located, placed};
use crate::diagnostic::{diag_le, rebased_of, DiagnosticV};
use crate::json::{at_key, law_member_read_back, member, JsonV};
use crate::order::text_le;
use crate::query::{
    bumped, count_of, query_name, run_nanos, stage_at, staged, CountV, QueryKey, TimingV,
};
use crate::snapshot::{item_of, SnapV};
use crate::source::Span;
use vstd::prelude::*;
use vstd::string::*;

verus! {

// ---------- diagnostics ----------

/// A span lies `base` bytes further on.
pub open spec fn moved(from: Span, to: Span, base: u32) -> bool {
    &&& from.start + base <= u32::MAX ==> to.start == from.start + base
    &&& from.end + base <= u32::MAX ==> to.end == from.end + base
}

/// A diagnostic that was reported relative to its item is moved as a
/// whole: its primary span, every label and every detail that is a span.
/// All that it says stays.
pub proof fn law_collected_diagnostic_moves(
    d: DiagnosticV,
    base: u32,
    i: int,
    k: int,
    key: Seq<char>,
)
    ensures
        ({
            let r = rebased_of(d, base);
            &&& r.severity == d.severity && r.message == d.message && r.notes == d.notes && r.help
                == d.help && r.subject == d.subject && r.code == d.code
            &&& r.primary is Some <==> d.primary is Some
            &&& d.primary is Some ==> moved(d.primary->0, r.primary->0, base)
            &&& r.labels.len() == d.labels.len()
            &&& 0 <= i < d.labels.len() ==> r.labels[i].message == d.labels[i].message && moved(
                d.labels[i].span,
                r.labels[i].span,
                base,
            )
            &&& r.details.len() == d.details.len()
            &&& 0 <= k < d.details.len() ==> {
                let v = d.details[k].value;
                let w = r.details[k].value;
                &&& r.details[k].key == d.details[k].key
                &&& match (at_key(v, "start"@), at_key(v, "end"@)) {
                    (JsonV::Uint(s), JsonV::Uint(e)) => {
                        &&& s + base <= u64::MAX ==> at_key(w, "start"@) == JsonV::Uint(
                            (s + base) as u64,
                        )
                        &&& e + base <= u64::MAX ==> at_key(w, "end"@) == JsonV::Uint(
                            (e + base) as u64,
                        )
                        &&& key != "start"@ && key != "end"@ ==> at_key(w, key) == at_key(v, key)
                    },
                    _ => w == v,
                }
            }
        }),
{
    reveal_strlit("start");
    reveal_strlit("end");
    assert("start"@.len() != "end"@.len());
    if 0 <= k < d.details.len() {
        if let JsonV::Object(ms) = d.details[k].value {
            if let (Some(JsonV::Uint(s)), Some(JsonV::Uint(e))) = (
                member(ms, "start"@),
                member(ms, "end"@),
            ) {
                let a = JsonV::Uint(crate::diagnostic::offset_plus(s, base));
                let b = JsonV::Uint(crate::diagnostic::offset_plus(e, base));
                let one = crate::json::with_member(ms, "start"@, a);
                law_member_read_back(ms, "start"@, a, key);
                law_member_read_back(one, "end"@, b, "start"@);
                law_member_read_back(one, "end"@, b, key);
            }
        }
    }
}

/// A diagnostic of a definition is reported in the file that declares the
/// definition, its span counted from where the definition starts; one
/// without a definition stays where it is.
pub proof fn law_diagnostic_located(s: SnapV, d: DiagnosticV)
    requires
        placed(s, d),
    ensures
        match d.origin {
            Some(did) => {
                let at = item_span(item_of(s, did)->0).start;
                &&& located(s, d).file == Some(s.scope.defs[did.raw as int].file)
                &&& located(s, d).primary is Some <==> d.primary is Some
                &&& d.primary is Some ==> moved(d.primary->0, located(s, d).primary->0, at)
            },
            None => located(s, d).file == d.file && located(s, d).primary == d.primary,
        },
        located(s, d).message == d.message,
        located(s, d).severity == d.severity,
        located(s, d).code == d.code,
{
}

/// The file that a diagnostic is reported in; the first where it names
/// none.
pub open spec fn reported_in(d: DiagnosticV) -> usize {
    match d.file {
        Some(f) => f.raw,
        None => 0,
    }
}

/// Diagnostics are reported file by file; within a file by where they
/// start, and of two that start together the shorter first. Those without
/// a place come last in their file.
pub proof fn law_report_order(a: DiagnosticV, b: DiagnosticV)
    ensures
        reported_in(a) < reported_in(b) ==> diag_le(a, b) && !diag_le(b, a),
        reported_in(a) == reported_in(b) ==> match (a.primary, b.primary) {
            (Some(s), Some(t)) => {
                &&& s.start < t.start ==> diag_le(a, b) && !diag_le(b, a)
                &&& s.start == t.start && s.end < t.end ==> diag_le(a, b) && !diag_le(b, a)
            },
            (Some(s), None) => s.start < u32::MAX ==> diag_le(a, b) && !diag_le(b, a),
            _ => true,
        },
        reported_in(a) == reported_in(b) && a.primary == b.primary ==> (diag_le(a, b) <==> text_le(
            crate::code::code_text(a.code),
            crate::code::code_text(b.code),
        )),
{
}

// ---------- counters ----------

/// Counters stand in name order, and no two bear the same name.
pub open spec fn in_name_order(s: Seq<CountV>) -> bool {
    forall|i: int, j: int|
        0 <= i < j < s.len() ==> text_le((#[trigger] s[i]).name, (#[trigger] s[j]).name)
            && s[i].name != s[j].name
}

/// What a counter stands at; zero where there is none.
pub open spec fn stands_at(s: Seq<CountV>, name: Seq<char>) -> nat {
    match count_of(s, name) {
        Some(n) => n as nat,
        None => 0,
    }
}

proof fn lemma_antisymmetric(a: Seq<char>, b: Seq<char>)
    requires
        text_le(a, b),
        text_le(b, a),
    ensures
        a == b,
    decreases a.len(),
{
    if a.len() > 0 && b.len() > 0 && a[0] == b[0] {
        let x = a.subrange(1, a.len() as int);
        let y = b.subrange(1, b.len() as int);
        lemma_antisymmetric(x, y);
        assert(a =~= seq![a[0]] + x);
        assert(b =~= seq![b[0]] + y);
    } else {
        assert(a =~= b);
    }
}

proof fn lemma_not_there(s: Seq<CountV>, name: Seq<char>)
    requires
        forall|i: int| 0 <= i < s.len() ==> (#[trigger] s[i]).name != name,
    ensures
        count_of(s, name) is None,
    decreases s.len(),
{
    if s.len() > 0 {
        assert(s[s.len() - 1].name != name);
        assert forall|i: int| 0 <= i < s.drop_last().len() implies (
        #[trigger] s.drop_last()[i]).name != name by {
            assert(s[i].name != name);
        }
        lemma_not_there(s.drop_last(), name);
    }
}

/// A bump raises its own counter by its amount, and no other; the
/// counters stay in name order.
pub proof fn law_bump_raises_its_counter(
    s: Seq<CountV>,
    name: Seq<char>,
    by: u64,
    other: Seq<char>,
)
    requires
        in_name_order(s),
        stands_at(s, name) + by <= u64::MAX,
    ensures
        stands_at(bumped(s, name, by), name) == stands_at(s, name) + by,
        other != name ==> count_of(bumped(s, name, by), other) == count_of(s, other),
        in_name_order(bumped(s, name, by)),
        forall|i: int|
            0 <= i < bumped(s, name, by).len() ==> (#[trigger] bumped(s, name, by)[i]).name == name
                || exists|j: int| 0 <= j < s.len() && (#[trigger] s[j]).name == bumped(s, name, by)[i].name,
    decreases s.len(),
{
    let out = bumped(s, name, by);
    if s.len() == 0 {
        reveal_with_fuel(count_of, 2);
        assert(out.drop_last() =~= Seq::<CountV>::empty());
    } else {
        let c = s.last();
        let front = s.drop_last();
        assert(c == s[s.len() - 1]);
        assert forall|i: int| 0 <= i < front.len() implies #[trigger] front[i] == s[i] by {}
        if c.name == name {
            assert(out.drop_last() =~= front);
            assert forall|i: int| 0 <= i < out.len() implies (#[trigger] out[i]).name == name
                || exists|j: int| 0 <= j < s.len() && (#[trigger] s[j]).name == out[i].name by {
                assert(s[i].name == out[i].name);
            }
            assert forall|i: int, j: int| 0 <= i < j < out.len() implies text_le(
                (#[trigger] out[i]).name,
                (#[trigger] out[j]).name,
            ) && out[i].name != out[j].name by {
                assert(out[i].name == s[i].name && out[j].name == s[j].name);
            }
        } else if text_le(c.name, name) {
            assert(out.drop_last() =~= s);
            assert forall|i: int| 0 <= i < s.len() implies text_le((#[trigger] s[i]).name, name)
                && s[i].name != name by {
                if i < s.len() - 1 {
                    crate::order::lemma_text_le_transitive(s[i].name, c.name, name);
                    if s[i].name == name {
                        lemma_antisymmetric(c.name, name);
                    }
                }
            }
            lemma_not_there(s, name);
            assert forall|i: int| 0 <= i < out.len() implies (#[trigger] out[i]).name == name
                || exists|j: int| 0 <= j < s.len() && (#[trigger] s[j]).name == out[i].name by {
                if i < s.len() {
                    assert(s[i].name == out[i].name);
                }
            }
        } else {
            crate::order::lemma_text_le_total(c.name, name);
            assert(in_name_order(front));
            law_bump_raises_its_counter(front, name, by, other);
            let part = bumped(front, name, by);
            assert(out.drop_last() =~= part);
            assert forall|i: int| 0 <= i < part.len() implies text_le(
                (#[trigger] part[i]).name,
                c.name,
            ) && part[i].name != c.name by {
                if part[i].name != name {
                    let j = choose|j: int|
                        0 <= j < front.len() && (#[trigger] front[j]).name == part[i].name;
                    assert(s[j].name == part[i].name);
                }
            }
            assert forall|i: int| 0 <= i < out.len() implies (#[trigger] out[i]).name == name
                || exists|j: int| 0 <= j < s.len() && (#[trigger] s[j]).name == out[i].name by {
                if i < part.len() {
                    assert(out[i] == part[i]);
                    if part[i].name != name {
                        let j = choose|j: int|
                            0 <= j < front.len() && (#[trigger] front[j]).name == part[i].name;
                        assert(s[j].name == out[i].name);
                    }
                } else {
                    assert(s[s.len() - 1].name == out[i].name);
                }
            }
            assert forall|i: int, j: int| 0 <= i < j < out.len() implies text_le(
                (#[trigger] out[i]).name,
                (#[trigger] out[j]).name,
            ) && out[i].name != out[j].name by {
                assert(out[i] == part[i]);
                if j < part.len() {
                    assert(out[j] == part[j]);
                }
            }
        }
    }
}

// ---------- stages ----------

/// The time of the evaluations of one stage.
pub open spec fn time_of(run: Seq<(QueryKey, u64)>, stage: Seq<char>) -> nat
    decreases run.len(),
{
    if run.len() == 0 {
        0
    } else {
        time_of(run.drop_last(), stage) + if query_name(run.last().0) == stage {
            run.last().1 as nat
        } else {
            0
        }
    }
}

proof fn lemma_time_bound(run: Seq<(QueryKey, u64)>, stage: Seq<char>)
    ensures
        time_of(run, stage) <= run_nanos(run),
    decreases run.len(),
{
    if run.len() > 0 {
        lemma_time_bound(run.drop_last(), stage);
    }
}

proof fn lemma_stage(ts: Seq<TimingV>, stage: Seq<char>)
    ensures
        match stage_at(ts, stage) {
            Some(i) => 0 <= i < ts.len() && ts[i].stage == stage && forall|j: int|
                0 <= j < i ==> (#[trigger] ts[j]).stage != stage,
            None => forall|j: int| 0 <= j < ts.len() ==> (#[trigger] ts[j]).stage != stage,
        },
    decreases ts.len(),
{
    if ts.len() > 0 {
        let front = ts.drop_last();
        lemma_stage(front, stage);
        assert forall|j: int| 0 <= j < front.len() implies #[trigger] ts[j] == front[j] by {}
    }
}

/// Each stage of a run is listed once, with the time of all its
/// evaluations; every evaluated stage is listed.
pub proof fn law_stage_has_its_time(run: Seq<(QueryKey, u64)>, i: int, q: int)
    requires
        run_nanos(run) <= u64::MAX,
    ensures
        0 <= i < staged(run).len() ==> staged(run)[i].nanos == time_of(run, staged(run)[i].stage),
        0 <= i < q < staged(run).len() ==> staged(run)[i].stage != staged(run)[q].stage,
        0 <= q < run.len() ==> stage_at(staged(run), query_name(run[q].0)) is Some,
    decreases run.len(),
{
    if run.len() > 0 {
        let front = run.drop_last();
        let done = staged(front);
        let (k, n) = run.last();
        let name = query_name(k);
        law_stage_has_its_time(front, i, q);
        lemma_stage(done, name);
        lemma_stage(staged(run), query_name(run[q].0));
        match stage_at(done, name) {
            Some(j) => {
                law_stage_has_its_time(front, j, q);
                law_stage_has_its_time(front, i, j);
                law_stage_has_its_time(front, j, i);
                lemma_time_bound(run, name);
                assert(staged(run)[j].nanos == time_of(run, name));
                assert(staged(run)[j].stage == name);
                if 0 <= q < run.len() {
                    if q < front.len() {
                        lemma_stage(done, query_name(run[q].0));
                        let m = stage_at(done, query_name(front[q].0))->0;
                        assert(staged(run)[m].stage == query_name(run[q].0));
                    }
                }
            },
            None => {
                lemma_no_time(front, name);
                assert(staged(run)[done.len() as int].stage == name);
                if 0 <= i < done.len() {
                    assert(done[i].stage != name);
                }
                if 0 <= q < front.len() {
                    lemma_stage(done, query_name(run[q].0));
                    let m = stage_at(done, query_name(front[q].0))->0;
                    assert(staged(run)[m].stage == query_name(run[q].0));
                }
            },
        }
    }
}

proof fn lemma_no_time(run: Seq<(QueryKey, u64)>, stage: Seq<char>)
    requires
        run_nanos(run) <= u64::MAX,
        stage_at(staged(run), stage) is None,
    ensures
        time_of(run, stage) == 0,
    decreases run.len(),
{
    if run.len() > 0 {
        let front = run.drop_last();
        let done = staged(front);
        let (k, n) = run.last();
        lemma_stage(done, stage);
        lemma_stage(staged(run), stage);
        lemma_stage(done, query_name(k));
        assert(stage_at(done, stage) is None) by {
            if let Some(m) = stage_at(done, stage) {
                assert(staged(run)[m].stage == stage);
            }
        }
        lemma_no_time(front, stage);
        if query_name(k) == stage {
            match stage_at(done, stage) {
                Some(m) => {},
                None => {
                    assert(staged(run)[done.len() as int].stage == stage);
                },
            }
        }
    }
}

} // verus!
