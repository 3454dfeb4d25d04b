//! Collecting the diagnostics of a workspace from the entries of the
//! queries that produced them.

use crate::ast::item_span;
use crate::diagnostic::{
    any_error, diag_order, diags, labels, rebased_of, stamped, Diagnostic, DiagnosticV,
    Diagnostics, Label,
};
use crate::json::{
    distinct_keys, key_sorted, members, normal_list, normal_members, same_map, Json, JsonV, Member,
};
use crate::order::sorted;
use crate::query::{run_nanos, stage_timings, staged, timings, QueryKey, StageTiming};
use crate::snapshot::{item_of, SnapV, Snapshot};
use crate::source::{DefId, Span};
use crate::text::{same, same_opt, texts};
use vstd::prelude::*;

verus! {

/// Whether two JSON values are equal.
pub fn same_json(a: &Json, b: &Json) -> (r: bool)
    ensures
        r == (a@ == b@),
    decreases a,
{
    match (a, b) {
        (Json::Null, Json::Null) => true,
        (Json::Bool(x), Json::Bool(y)) => *x == *y,
        (Json::Uint(x), Json::Uint(y)) => *x == *y,
        (Json::Int(x), Json::Int(y)) => *x == *y,
        (Json::Decimal(x), Json::Decimal(y)) => same(x.as_str(), y.as_str()),
        (Json::Str(x), Json::Str(y)) => same(x.as_str(), y.as_str()),
        (Json::Array(x), Json::Array(y)) => {
            if x.len() != y.len() {
                proof {
                    assert(a@->Array_0.len() != b@->Array_0.len());
                }
                return false;
            }
            let mut i: usize = 0;
            while i < x.len()
                invariant
                    i <= x@.len(),
                    x@.len() == y@.len(),
                    a matches Json::Array(v) && v == x,
                    b matches Json::Array(w) && w == y,
                    forall|j: int| 0 <= j < i ==> (#[trigger] x@[j])@ == y@[j]@,
                decreases x@.len() - i,
            {
                if !same_json(&x[i], &y[i]) {
                    proof {
                        assert(a@->Array_0[i as int] == x@[i as int]@);
                        assert(b@->Array_0[i as int] == y@[i as int]@);
                    }
                    return false;
                }
                i += 1;
            }
            proof {
                assert(a@->Array_0 =~= b@->Array_0);
            }
            true
        },
        (Json::Object(x), Json::Object(y)) => {
            if x.len() != y.len() {
                proof {
                    assert(a@->Object_0.len() != b@->Object_0.len());
                }
                return false;
            }
            let mut i: usize = 0;
            while i < x.len()
                invariant
                    i <= x@.len(),
                    x@.len() == y@.len(),
                    a matches Json::Object(v) && v == x,
                    b matches Json::Object(w) && w == y,
                    forall|j: int| 0 <= j < i ==> (#[trigger] x@[j])@ == y@[j]@,
                decreases x@.len() - i,
            {
                let m = &x[i];
                let n = &y[i];
                if !same(m.key.as_str(), n.key.as_str()) || !same_json(&m.value, &n.value) {
                    proof {
                        assert(a@->Object_0[i as int] == x@[i as int]@);
                        assert(b@->Object_0[i as int] == y@[i as int]@);
                    }
                    return false;
                }
                i += 1;
            }
            proof {
                assert(a@->Object_0 =~= b@->Object_0);
            }
            true
        },
        _ => false,
    }
}

fn same_members(a: &Vec<Member>, b: &Vec<Member>) -> (r: bool)
    ensures
        r == (members(a@) == members(b@)),
{
    if a.len() != b.len() {
        assert(members(a@).len() != members(b@).len());
        return false;
    }
    let mut i: usize = 0;
    while i < a.len()
        invariant
            i <= a@.len(),
            a@.len() == b@.len(),
            forall|j: int| 0 <= j < i ==> (#[trigger] a@[j])@ == b@[j]@,
        decreases a@.len() - i,
    {
        if !same(a[i].key.as_str(), b[i].key.as_str()) || !same_json(&a[i].value, &b[i].value) {
            proof {
                assert(members(a@)[i as int] == a@[i as int]@);
                assert(members(b@)[i as int] == b@[i as int]@);
            }
            return false;
        }
        i += 1;
    }
    proof {
        assert(members(a@) =~= members(b@));
    }
    true
}

fn same_labels(a: &Vec<Label>, b: &Vec<Label>) -> (r: bool)
    ensures
        r == (labels(a@) == labels(b@)),
{
    if a.len() != b.len() {
        assert(labels(a@).len() != labels(b@).len());
        return false;
    }
    let mut i: usize = 0;
    while i < a.len()
        invariant
            i <= a@.len(),
            a@.len() == b@.len(),
            forall|j: int| 0 <= j < i ==> (#[trigger] a@[j])@ == b@[j]@,
        decreases a@.len() - i,
    {
        if a[i].span != b[i].span || !same(a[i].message.as_str(), b[i].message.as_str()) {
            proof {
                assert(labels(a@)[i as int] == a@[i as int]@);
                assert(labels(b@)[i as int] == b@[i as int]@);
            }
            return false;
        }
        i += 1;
    }
    proof {
        assert(labels(a@) =~= labels(b@));
    }
    true
}

fn same_texts(a: &Vec<String>, b: &Vec<String>) -> (r: bool)
    ensures
        r == (texts(a@) == texts(b@)),
{
    if a.len() != b.len() {
        assert(texts(a@).len() != texts(b@).len());
        return false;
    }
    let mut i: usize = 0;
    while i < a.len()
        invariant
            i <= a@.len(),
            a@.len() == b@.len(),
            forall|j: int| 0 <= j < i ==> (#[trigger] a@[j])@ == b@[j]@,
        decreases a@.len() - i,
    {
        if !same(a[i].as_str(), b[i].as_str()) {
            proof {
                assert(texts(a@)[i as int] == a@[i as int]@);
                assert(texts(b@)[i as int] == b@[i as int]@);
            }
            return false;
        }
        i += 1;
    }
    proof {
        assert(texts(a@) =~= texts(b@));
    }
    true
}

fn same_span(a: &Option<Span>, b: &Option<Span>) -> (r: bool)
    ensures
        r == (*a == *b),
{
    match (a, b) {
        (Some(x), Some(y)) => *x == *y,
        (None, None) => true,
        _ => false,
    }
}

fn same_origin(a: &Diagnostic, b: &Diagnostic) -> (r: bool)
    ensures
        r == (a.origin == b.origin && a.file == b.file),
{
    let origin = match (a.origin, b.origin) {
        (Some(x), Some(y)) => x == y,
        (None, None) => true,
        _ => false,
    };
    let file = match (a.file, b.file) {
        (Some(x), Some(y)) => x == y,
        (None, None) => true,
        _ => false,
    };
    origin && file
}

/// Whether two diagnostics are equal.
pub fn same_diagnostic(a: &Diagnostic, b: &Diagnostic) -> (r: bool)
    ensures
        r == (a@ == b@),
{
    a.code == b.code && a.severity == b.severity && same(a.message.as_str(), b.message.as_str())
        && same_span(&a.primary, &b.primary) && same_labels(&a.labels, &b.labels) && same_texts(
        &a.notes,
        &b.notes,
    ) && same_texts(&a.help, &b.help) && same_opt(&a.subject, &b.subject) && same_members(
        &a.details,
        &b.details,
    ) && same_origin(a, b)
}

// ---------- collection ----------

/// Whether a diagnostic's origin, if it has one, is an item of the
/// workspace.
pub open spec fn placed(s: SnapV, d: DiagnosticV) -> bool {
    d.origin is Some ==> item_of(s, d.origin->0) is Some
}

/// A diagnostic with its details in key order: details are a map, so
/// those set in another order are the same.
pub open spec fn in_key_order(d: DiagnosticV) -> DiagnosticV {
    DiagnosticV { details: normal_members(d.details), ..d }
}

/// A diagnostic in file coordinates, its details in key order.
pub open spec fn located(s: SnapV, d: DiagnosticV) -> DiagnosticV {
    in_key_order(moved_to_file(s, d))
}

/// A diagnostic in file coordinates. An origin's item gives the base,
/// and its file is authoritative: a stamp names the file of the query,
/// which for a dependency's definition is another.
pub open spec fn moved_to_file(s: SnapV, d: DiagnosticV) -> DiagnosticV {
    match d.origin {
        Some(did) => DiagnosticV {
            file: Some(s.scope.defs[did.raw as int].file),
            ..rebased_of(d, item_span(item_of(s, did)->0).start)
        },
        None => d,
    }
}

/// Diagnostics without those that were seen before. They are located
/// first, so that equal item-relative diagnostics of two definitions do
/// not collapse.
pub open spec fn collected(s: SnapV, ds: Seq<DiagnosticV>) -> Seq<DiagnosticV>
    decreases ds.len(),
{
    if ds.len() == 0 {
        Seq::empty()
    } else {
        let front = collected(s, ds.drop_last());
        let d = located(s, ds.last());
        if front.contains(d) {
            front
        } else {
            front.push(d)
        }
    }
}

fn has_diagnostic(v: &Vec<Diagnostic>, d: &Diagnostic) -> (r: bool)
    ensures
        r == diags(v@).contains(d@),
{
    let mut i: usize = 0;
    while i < v.len()
        invariant
            i <= v@.len(),
            forall|j: int| 0 <= j < i ==> diags(v@)[j] != d@,
        decreases v@.len() - i,
    {
        assert(diags(v@)[i as int] == v@[i as int]@);
        if same_diagnostic(&v[i], d) {
            return true;
        }
        i += 1;
    }
    false
}

/// The result of a check: diagnostics and stage timings, without
/// anything a build would add.
pub struct CheckReport {
    /// Source revision these diagnostics were produced from.
    pub checked_revision: u64,
    /// All diagnostics, sorted for deterministic output.
    pub diags: Diagnostics,
    /// Per-stage timings of the check.
    pub timings: Vec<StageTiming>,
}

impl CheckReport {
    /// Whether no stage produced an error-severity diagnostic.
    pub fn is_valid(&self) -> (r: bool)
        ensures
            r == !any_error(self.diags@),
    {
        !self.diags.has_errors()
    }
}

impl Snapshot {
    fn locate(&self, d: &Diagnostic) -> (r: Diagnostic)
        requires
            placed(self@, d@),
        ensures
            r@ == located(self@, d@),
    {
        let mut out = match d.origin {
            Some(did) => match self.item(did) {
                Some(item) => {
                    let mut x = d.rebased(item.span().start);
                    assert(self@.scope.defs[did.raw as int]
                        == self.scope.defs@[did.raw as int]@);
                    x.file = Some(self.scope.defs[did.raw].file);
                    x
                },
                None => d.copy(),
            },
            None => d.copy(),
        };
        out.details = normal_list(&out.details);
        out
    }

    /// Every diagnostic of a workspace, from those recorded on the
    /// entries its pipeline read, in demand order.
    pub fn collect_diagnostics(&self, ds: &Vec<Diagnostic>) -> (r: Vec<Diagnostic>)
        requires
            forall|i: int| 0 <= i < ds@.len() ==> placed(self@, (#[trigger] ds@[i])@),
        ensures
            diags(r@) == collected(self@, diags(ds@)),
    {
        let ghost all = diags(ds@);
        let mut out: Vec<Diagnostic> = Vec::new();
        let mut i: usize = 0;
        proof {
            assert(all.take(0) =~= Seq::empty());
            assert(diags(out@) =~= Seq::empty());
        }
        while i < ds.len()
            invariant
                i <= ds@.len(),
                all == diags(ds@),
                forall|j: int| 0 <= j < ds@.len() ==> placed(self@, (#[trigger] ds@[j])@),
                diags(out@) == collected(self@, all.take(i as int)),
            decreases ds@.len() - i,
        {
            proof {
                assert(all.take(i + 1).drop_last() =~= all.take(i as int));
                assert(all.take(i + 1).last() == ds@[i as int]@);
            }
            let d = self.locate(&ds[i]);
            if !has_diagnostic(&out, &d) {
                let ghost before = diags(out@);
                let ghost dv = d@;
                out.push(d);
                proof {
                    assert(diags(out@) =~= before.push(dv));
                }
            }
            i += 1;
        }
        proof {
            assert(all.take(all.len() as int) =~= all);
        }
        out
    }

    /// What a check reports: every diagnostic its queries recorded, in
    /// file coordinates and in output order, and what each stage of the
    /// run took.
    pub fn check_report(
        &self,
        revision: u64,
        ds: &Vec<Diagnostic>,
        run: &Vec<(QueryKey, u64)>,
    ) -> (r: CheckReport)
        requires
            forall|i: int| 0 <= i < ds@.len() ==> placed(self@, (#[trigger] ds@[i])@),
            run_nanos(run@) <= u64::MAX,
        ensures
            r.checked_revision == revision,
            r.diags@ == sorted(collected(self@, diags(ds@)), diag_order()),
            timings(r.timings@) == staged(run@),
    {
        let found = self.collect_diagnostics(ds);
        let ghost all = diags(found@);
        let mut out = Diagnostics::new();
        let mut i: usize = 0;
        proof {
            assert(all.take(0) =~= Seq::empty());
        }
        while i < found.len()
            invariant
                i <= found@.len(),
                all == diags(found@),
                out@ == all.take(i as int),
                out.stamp() is None,
            decreases found@.len() - i,
        {
            out.push(found[i].copy());
            proof {
                assert(stamped(found@[i as int]@, None) =~= found@[i as int]@);
                assert(all.take(i + 1) =~= all.take(i as int).push(found@[i as int]@));
                assert(out@ =~= all.take(i + 1));
            }
            i += 1;
        }
        proof {
            assert(all.take(all.len() as int) =~= all);
        }
        out.sort();
        CheckReport { checked_revision: revision, diags: out, timings: stage_timings(run) }
    }

    /// The absolute start of every definition's item, in its own file.
    pub fn item_bases(&self) -> (r: Vec<u32>)
        requires
            forall|i: int|
                0 <= i < self@.scope.defs.len() ==> item_of(
                    self@,
                    #[trigger] def_at(i),
                ) is Some,
        ensures
            r@ == Seq::new(
                self@.scope.defs.len(),
                |i: int| item_span(item_of(self@, def_at(i))->0).start,
            ),
    {
        let ghost all = Seq::new(
            self@.scope.defs.len(),
            |i: int| item_span(item_of(self@, def_at(i))->0).start,
        );
        let mut out: Vec<u32> = Vec::new();
        let n: usize = self.scope.defs.len();
        let mut i: usize = 0;
        assert(self@.scope.defs.len() == n);
        while i < n
            invariant
                i <= n,
                n == self@.scope.defs.len(),
                forall|j: int|
                    0 <= j < self@.scope.defs.len() ==> item_of(
                        self@,
                        #[trigger] def_at(j),
                    ) is Some,
                all == Seq::new(
                    self@.scope.defs.len(),
                    |j: int| item_span(item_of(self@, def_at(j))->0).start,
                ),
                out@ == all.take(i as int),
            decreases n - i,
        {
            proof {
                assert(def_at(i as int) == DefId { raw: i });
            }
            if let Some(item) = self.item(DefId { raw: i }) {
                out.push(item.span().start);
            }
            i += 1;
            proof {
                assert(out@ =~= all.take(i as int));
            }
        }
        proof {
            assert(all.take(n as int) =~= all);
        }
        out
    }
}

/// The definition with a number.
pub open spec fn def_at(i: int) -> DefId {
    DefId { raw: i as usize }
}

/// No diagnostic is reported twice, and none is in item coordinates.
pub proof fn law_collected_once(s: SnapV, ds: Seq<DiagnosticV>)
    ensures
        forall|i: int, j: int|
            0 <= i < j < collected(s, ds).len() ==> #[trigger] collected(s, ds)[i]
                != #[trigger] collected(s, ds)[j],
        forall|i: int| 0 <= i < collected(s, ds).len() ==> (#[trigger] collected(s, ds)[i]).origin is None,
    decreases ds.len(),
{
    if ds.len() > 0 {
        law_collected_once(s, ds.drop_last());
        let front = collected(s, ds.drop_last());
        let d = located(s, ds.last());
        if !front.contains(d) {
            assert forall|i: int, j: int| 0 <= i < j < front.push(d).len() implies
                #[trigger] front.push(d)[i] != #[trigger] front.push(d)[j] by {
                if j == front.len() {
                    assert(front[i] != d);
                }
            }
        }
    }
}

/// It does not matter in which order details are set.
pub proof fn law_detail_order_free(
    d: DiagnosticV,
    k1: Seq<char>,
    v1: JsonV,
    k2: Seq<char>,
    v2: JsonV,
)
    requires
        key_sorted(d.details),
        k1 != k2,
    ensures
        d.with_detail(k1, v1).with_detail(k2, v2) == d.with_detail(k2, v2).with_detail(k1, v1),
{
    crate::json::law_member_order_free(d.details, k1, v1, k2, v2);
}

/// Two diagnostics that differ only in the order of their details are
/// reported as one.
pub proof fn law_details_are_a_map(a: DiagnosticV, b: DiagnosticV)
    requires
        b == (DiagnosticV { details: b.details, ..a }),
        distinct_keys(a.details),
        distinct_keys(b.details),
        same_map(a.details, b.details),
    ensures
        in_key_order(a) == in_key_order(b),
{
    crate::json::law_normal_is_a_map(a.details, b.details);
}

/// Every diagnostic a query recorded is reported, in file coordinates.
pub proof fn law_collected_all(s: SnapV, ds: Seq<DiagnosticV>, i: int)
    requires
        0 <= i < ds.len(),
    ensures
        collected(s, ds).contains(located(s, ds[i])),
    decreases ds.len(),
{
    let front = collected(s, ds.drop_last());
    let d = located(s, ds.last());
    let out = collected(s, ds);
    if i < ds.len() - 1 {
        law_collected_all(s, ds.drop_last(), i);
        let k = choose|k: int| 0 <= k < front.len() && front[k] == located(s, ds[i]);
        assert(out[k] == located(s, ds[i]));
    } else if !front.contains(d) {
        assert(out[out.len() - 1] == d);
    }
}

} // verus!
