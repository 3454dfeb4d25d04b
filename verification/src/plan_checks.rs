//! What a plan is held to, before it is made and before it is applied.

use crate::ast::AstModuleV;
use crate::code::Code;
use crate::diagnostic::{any_error, errors_in, DiagnosticV, Severity};
use crate::patch::{
    declared_name, first_error, ident_lexed, is_block, one_type, op_error, Lexed, PatchEditV,
    PatchErrorV, PatchOp, MAX_OP_TEXT, MAX_PATCH_OPS,
};
use crate::patch_edits::{op_edits_of, OpEditsV};
use crate::patch_plan::{
    apply_error, first_drift, only_errors, overlap, payload_error, resolve_ops_of, spec_error,
    PatchPlanV, ProbeV, ResolvedV,
};
use crate::rename::conflict_of;
use crate::rename_scan::use_names;
use crate::session::SessionV;
use crate::snapshot::SnapV;
use crate::source::{lookup, DefId, FileId};
use crate::target::{imported, own_member};
use crate::text::{bytes_of, slice_spec, trimmed};
use vstd::prelude::*;

verus! {

// ---------- ops as they are written ----------

/// A text that an op may carry: not blank, and not too long.
pub open spec fn carries(t: Seq<char>) -> bool {
    trimmed(t).len() > 0 && bytes_of(t).len() <= MAX_OP_TEXT
}

/// A name that an op may give: one identifier and nothing else.
pub open spec fn gives_name(t: Seq<char>, lexed: Lexed) -> bool {
    carries(t) && ident_lexed(trimmed(t), lexed)
}

/// No diagnostic of a list is an error.
pub open spec fn parses(ds: Seq<DiagnosticV>) -> bool {
    forall|i: int| 0 <= i < ds.len() ==> (#[trigger] ds[i]).severity != Severity::Error
}

/// A type that an op may give: it was read, in the place of the one
/// parameter's type, as one type.
pub open spec fn gives_type(t: Seq<char>, ast: AstModuleV, ds: Seq<DiagnosticV>) -> bool {
    carries(t) && parses(ds) && one_type(ast)
}

/// A path that an op may import: `m` or `m::x`, without an alias.
pub open spec fn gives_path(t: Seq<char>, ast: AstModuleV, ds: Seq<DiagnosticV>) -> bool {
    &&& carries(t)
    &&& parses(ds)
    &&& ast.uses.len() == 1
    &&& ast.uses[0].path.segs.len() <= 2
    &&& ast.uses[0].alias is None
    &&& ast.items.len() == 0
}

/// An op is well formed: what was read of its texts is what the op needs.
pub open spec fn well_formed(op: PatchOp, name: Lexed, ast: AstModuleV, ds: Seq<DiagnosticV>) -> bool {
    match op {
        PatchOp::ReplaceBody { symbol, body } => carries(body@) && is_block(body@),
        PatchOp::RemoveDef { symbol } => true,
        PatchOp::AddDef { module, text } => carries(text@) && parses(ds) && ast.uses.len() == 0
            && ast.items.len() == 1,
        PatchOp::RenameParam { symbol, param, to } => carries(param@) && gives_name(to@, name),
        PatchOp::SetParamType { symbol, param, ty } => carries(param@) && gives_type(ty@, ast, ds),
        PatchOp::SetRetType { symbol, ty } => ty matches Some(t) ==> gives_type(t@, ast, ds),
        PatchOp::AddUse { module, path, alias } => gives_path(path@, ast, ds) && (
        alias matches Some(a) ==> gives_name(a@, name)),
        PatchOp::RemoveUse { module, path, alias } => gives_path(path@, ast, ds) && (
        alias matches Some(a) ==> gives_name(a@, name)),
        PatchOp::AddField { symbol, field, ty } => gives_name(field@, name) && gives_type(
            ty@,
            ast,
            ds,
        ),
        PatchOp::RemoveField { symbol, field } => carries(field@),
        PatchOp::RenameField { symbol, field, to } => carries(field@) && gives_name(to@, name),
        PatchOp::SetFieldType { symbol, field, ty } => carries(field@) && gives_type(ty@, ast, ds),
    }
}

proof fn lemma_first_error(ds: Seq<DiagnosticV>)
    ensures
        first_error(ds) is None <==> parses(ds),
        first_error(ds) matches Some(d) ==> d.severity == Severity::Error && ds.contains(d),
    decreases ds.len(),
{
    if ds.len() > 0 {
        let front = ds.drop_last();
        lemma_first_error(front);
        assert(ds[ds.len() - 1] == ds.last());
        if let Some(d) = first_error(front) {
            let i = choose|i: int| 0 <= i < front.len() && front[i] == d;
            assert(ds[i] == d);
        } else {
            assert forall|i: int| 0 <= i < ds.len() && ds.last().severity != Severity::Error implies (
            #[trigger] ds[i]).severity != Severity::Error by {
                if i < front.len() {
                    assert(front[i] == ds[i]);
                }
            }
        }
    }
}

/// An op is refused exactly when it is not well formed, and then as
/// malformed.
#[verifier::spinoff_prover]
pub proof fn law_ops_are_well_formed(
    i: usize,
    op: PatchOp,
    name: Lexed,
    ast: AstModuleV,
    ds: Seq<DiagnosticV>,
)
    ensures
        op_error(i, op, name, ast, ds) is None <==> well_formed(op, name, ast, ds),
        op_error(i, op, name, ast, ds) matches Some(e) ==> (e matches PatchErrorV::Malformed(d)
            && d.code == Code::MalformedPatch),
{
    lemma_first_error(ds);
}

/// Every op of a patch is checked: a patch passes exactly when each of
/// its ops does.
pub proof fn law_every_op_is_checked(ops: Seq<PatchOp>, ps: Seq<ProbeV>)
    requires
        ops.len() <= usize::MAX,
    ensures
        payload_error(ops, ps) is None <==> forall|i: int|
            0 <= i < ops.len() ==> well_formed(
                #[trigger] ops[i],
                ps[i].name,
                ps[i].ast,
                ps[i].diags,
            ),
        payload_error(ops, ps) matches Some(e) ==> e is Malformed,
    decreases ops.len(),
{
    if ops.len() > 0 {
        let front = ops.drop_last();
        let n = ops.len() - 1;
        law_every_op_is_checked(front, ps);
        law_ops_are_well_formed(n as usize, ops[n], ps[n].name, ps[n].ast, ps[n].diags);
        if payload_error(front, ps) is None {
            assert forall|i: int| 0 <= i < n implies well_formed(
                #[trigger] ops[i],
                ps[i].name,
                ps[i].ast,
                ps[i].diags,
            ) by {
                assert(front[i] == ops[i]);
            }
        } else {
            let i = choose|i: int|
                0 <= i < front.len() && !well_formed(
                    #[trigger] front[i],
                    ps[i].name,
                    ps[i].ast,
                    ps[i].diags,
                );
            assert(front[i] == ops[i]);
        }
    }
}

/// A patch is taken up only when it has ops, not too many, each well
/// formed, and when the workspace has no error before it.
pub proof fn law_patch_needs_a_clean_start(
    ops: Seq<PatchOp>,
    ps: Seq<ProbeV>,
    baseline: Seq<DiagnosticV>,
)
    requires
        ops.len() <= usize::MAX,
    ensures
        spec_error(ops, ps, baseline) is None <==> {
            &&& 0 < ops.len() <= MAX_PATCH_OPS
            &&& forall|i: int|
                0 <= i < ops.len() ==> well_formed(
                    #[trigger] ops[i],
                    ps[i].name,
                    ps[i].ast,
                    ps[i].diags,
                )
            &&& parses(baseline)
        },
        spec_error(ops, ps, baseline) matches Some(e) ==> e is Malformed || e is BaselineErrors,
{
    law_every_op_is_checked(ops, ps);
}

/// What each op of a patch comes down to, one after another, in order.
pub open spec fn resolved_with(
    each: spec_fn(int) -> Result<OpEditsV, PatchErrorV>,
    n: int,
) -> Result<ResolvedV, PatchErrorV>
    decreases n,
{
    if n <= 0 {
        Ok(ResolvedV { edits: Seq::empty(), ops: Seq::empty() })
    } else {
        match resolved_with(each, n - 1) {
            Err(e) => Err(e),
            Ok(done) => match each(n - 1) {
                Err(e) => Err(e),
                Ok(x) => Ok(
                    ResolvedV { edits: done.edits + x.edits, ops: done.ops.push(x.summary) },
                ),
            },
        }
    }
}

/// What the op with number `i` of a patch comes down to.
#[verifier::opaque]
pub open spec fn each_op(s: SnapV, root: FileId, ops: Seq<PatchOp>, ps: Seq<ProbeV>) -> spec_fn(
    int,
) -> Result<OpEditsV, PatchErrorV> {
    |i: int| op_edits_of(s, root, i as usize, ops[i], declared_name(ops[i], ps[i].ast))
}

proof fn lemma_resolved_with(
    s: SnapV,
    root: FileId,
    all: Seq<PatchOp>,
    ps: Seq<ProbeV>,
    n: int,
)
    requires
        0 <= n <= all.len(),
    ensures
        resolve_ops_of(s, root, all.take(n), ps) == resolved_with(each_op(s, root, all, ps), n),
    decreases n,
{
    reveal(each_op);
    if n > 0 {
        lemma_resolved_with(s, root, all, ps, n - 1);
        let now = all.take(n);
        assert(now.drop_last() =~= all.take(n - 1));
        assert(now[n - 1] == all[n - 1]);
        let x = each_op(s, root, all, ps)(n - 1);
        assert(x == op_edits_of(
            s,
            root,
            (n - 1) as usize,
            now[n - 1],
            declared_name(now[n - 1], ps[n - 1].ast),
        ));
    }
}

proof fn lemma_each(
    each: spec_fn(int) -> Result<OpEditsV, PatchErrorV>,
    n: int,
    i: int,
    k: int,
)
    requires
        0 <= i < n,
    ensures
        match resolved_with(each, n) {
            Ok(all) => {
                &&& each(i) is Ok
                &&& all.ops.len() == n
                &&& all.ops[i] == each(i)->Ok_0.summary
                &&& 0 <= k < each(i)->Ok_0.edits.len() ==> all.edits.contains(
                    each(i)->Ok_0.edits[k],
                )
            },
            Err(e) => exists|j: int|
                0 <= j < n && #[trigger] each(j) == Err::<OpEditsV, PatchErrorV>(e),
        },
    decreases n,
{
    lemma_each_len(each, n - 1);
    if i < n - 1 {
        lemma_each(each, n - 1, i, k);
    } else if n > 1 {
        lemma_each(each, n - 1, 0, 0);
    }
    if let Ok(done) = resolved_with(each, n - 1) {
        if let Ok(x) = each(n - 1) {
            let all = done.edits + x.edits;
            if i < n - 1 {
                if 0 <= k < each(i)->Ok_0.edits.len() {
                    let e = each(i)->Ok_0.edits[k];
                    let q = choose|q: int| 0 <= q < done.edits.len() && done.edits[q] == e;
                    assert(all[q] == e);
                }
            } else if 0 <= k < x.edits.len() {
                assert(all[done.edits.len() + k] == x.edits[k]);
            }
        }
    } else if n > 1 {
        let e = resolved_with(each, n - 1)->Err_0;
        let j = choose|j: int|
            0 <= j < n - 1 && #[trigger] each(j) == Err::<OpEditsV, PatchErrorV>(e);
        assert(each(j) == Err::<OpEditsV, PatchErrorV>(e));
    }
}

proof fn lemma_each_len(each: spec_fn(int) -> Result<OpEditsV, PatchErrorV>, n: int)
    requires
        0 <= n,
    ensures
        resolved_with(each, n) matches Ok(all) ==> all.ops.len() == n,
    decreases n,
{
    if n > 0 {
        lemma_each_len(each, n - 1);
    }
}

/// The ops of a patch are resolved one after another, in order, and all
/// of their edits and summaries are kept; one that cannot be resolved
/// refuses the patch, for its own reason.
pub proof fn law_ops_resolved_in_order(
    s: SnapV,
    root: FileId,
    ops: Seq<PatchOp>,
    ps: Seq<ProbeV>,
    i: int,
    k: int,
)
    requires
        0 <= i < ops.len() <= usize::MAX,
    ensures
        ({
            let each = each_op(s, root, ops, ps);
            match resolve_ops_of(s, root, ops, ps) {
                Ok(all) => {
                    &&& each(i) is Ok
                    &&& all.ops.len() == ops.len()
                    &&& all.ops[i] == each(i)->Ok_0.summary
                    &&& 0 <= k < each(i)->Ok_0.edits.len() ==> all.edits.contains(
                        each(i)->Ok_0.edits[k],
                    )
                },
                Err(e) => exists|j: int|
                    0 <= j < ops.len() && #[trigger] each(j) == Err::<OpEditsV, PatchErrorV>(e),
            }
        }),
{
    lemma_resolved_with(s, root, ops, ps, ops.len() as int);
    assert(ops.take(ops.len() as int) =~= ops);
    lemma_each(each_op(s, root, ops, ps), ops.len() as int, i, k);
}

// ---------- edits side by side ----------

/// A byte lies in an edit's span.
pub open spec fn covers_byte(e: PatchEditV, p: int) -> bool {
    e.span.start <= p < e.span.end
}

/// Two edits overlap exactly when they are of one file and some byte lies
/// in both, or one of them inserts strictly inside the other.
pub proof fn law_overlap_is_a_shared_byte(a: PatchEditV, b: PatchEditV)
    requires
        a.span.start <= a.span.end,
        b.span.start <= b.span.end,
    ensures
        overlap(a, b) <==> a.file == b.file && {
            ||| exists|p: int| #[trigger] covers_byte(a, p) && covers_byte(b, p)
            ||| a.span.start == a.span.end && b.span.start < a.span.start < b.span.end
            ||| b.span.start == b.span.end && a.span.start < b.span.start < a.span.end
        },
        overlap(a, b) == overlap(b, a),
{
    if overlap(a, b) {
        let p = if a.span.start >= b.span.start {
            a.span.start as int
        } else {
            b.span.start as int
        };
        if a.span.start < a.span.end && b.span.start < b.span.end {
            assert(covers_byte(a, p) && covers_byte(b, p));
        }
    }
}

// ---------- before a plan is applied ----------

proof fn lemma_drift(s: SessionV, es: Seq<PatchEditV>)
    ensures
        first_drift(s, es) is None <==> forall|i: int|
            0 <= i < es.len() ==> {
                let e = #[trigger] es[i];
                e.file.raw < s.files.len() && slice_spec(
                    s.files[e.file.raw as int].text,
                    e.span.start as int,
                    e.span.end as int,
                ) == Some(e.expected)
            },
    decreases es.len(),
{
    if es.len() > 0 {
        let front = es.drop_last();
        lemma_drift(s, front);
        assert(es[es.len() - 1] == es.last());
        if first_drift(s, front) is None {
            assert forall|i: int| 0 <= i < front.len() implies {
                let e = #[trigger] es[i];
                e.file.raw < s.files.len() && slice_spec(
                    s.files[e.file.raw as int].text,
                    e.span.start as int,
                    e.span.end as int,
                ) == Some(e.expected)
            } by {
                assert(front[i] == es[i]);
            }
        } else {
            let i = choose|i: int|
                0 <= i < front.len() && !({
                    let e = #[trigger] front[i];
                    e.file.raw < s.files.len() && slice_spec(
                        s.files[e.file.raw as int].text,
                        e.span.start as int,
                        e.span.end as int,
                    ) == Some(e.expected)
                });
            assert(es[i] == front[i]);
        }
    }
}

/// A plan is applied only to the session it was made in, at the revision
/// it was made at, to the texts it was made for, and where every edit
/// still covers the text it expects.
pub proof fn law_applied_plan_still_fits(s: SessionV, p: PatchPlanV, i: int)
    requires
        apply_error(s, p) is None,
        0 <= i < p.edits.len(),
    ensures
        p.db_id == s.id,
        p.revision == s.revision,
        p.edits[i].file.raw < s.files.len(),
        slice_spec(
            s.files[p.edits[i].file.raw as int].text,
            p.edits[i].span.start as int,
            p.edits[i].span.end as int,
        ) == Some(p.edits[i].expected),
{
    lemma_drift(s, p.edits);
}

/// An edit that no longer covers the text it expects refuses the whole
/// plan.
pub proof fn law_drifted_plan_refused(s: SessionV, p: PatchPlanV, i: int)
    requires
        0 <= i < p.edits.len(),
        p.edits[i].file.raw >= s.files.len() || slice_spec(
            s.files[p.edits[i].file.raw as int].text,
            p.edits[i].span.start as int,
            p.edits[i].span.end as int,
        ) != Some(p.edits[i].expected),
    ensures
        apply_error(s, p) is Some,
{
    lemma_drift(s, p.edits);
}

/// The errors of a list are its diagnostics of that severity, one for
/// one, in order.
pub proof fn law_only_errors_kept(ds: Seq<DiagnosticV>)
    ensures
        only_errors(ds).len() == errors_in(ds),
        only_errors(ds) == ds.filter(|d: DiagnosticV| d.severity == Severity::Error),
        any_error(ds) <==> only_errors(ds).len() > 0,
    decreases ds.len(),
{
    reveal(Seq::filter);
    if ds.len() > 0 {
        let front = ds.drop_last();
        law_only_errors_kept(front);
        assert(ds[ds.len() - 1] == ds.last());
        if any_error(front) {
            let i = choose|i: int|
                0 <= i < front.len() && (#[trigger] front[i]).severity == Severity::Error;
            assert(ds[i] == front[i]);
        }
        if any_error(ds) && ds.last().severity != Severity::Error {
            let i = choose|i: int|
                0 <= i < ds.len() && (#[trigger] ds[i]).severity == Severity::Error;
            assert(front[i] == ds[i]);
        }
    }
}

// ---------- names that are taken ----------

/// A new name is free for a definition exactly when no file that would
/// gain a binding of it — the declaring file, and each file that imports
/// the definition under its own name — binds it already, to anything but
/// the definition itself.
pub proof fn law_free_name_binds_nowhere(
    s: SnapV,
    target: DefId,
    new_name: Seq<char>,
    f: FileId,
)
    requires
        target.raw < s.scope.defs.len(),
        conflict_of(s, target, new_name) is None,
        lookup(s.names, new_name) is Some,
        f == s.scope.defs[target.raw as int].file || (s.scope.files.contains(f) && exists|i: int|
            0 <= i < crate::patch_edits::tree_of(s, f).uses.len() && (
            #[trigger] crate::patch_edits::tree_of(s, f).uses[i]).alias is None && use_names(
                s.scope,
                s.names,
                crate::patch_edits::tree_of(s, f).uses[i],
                target,
            )),
    ensures
        ({
            let id = lookup(s.names, new_name)->0;
            match (own_member(s.scope, f, id), imported(s.scope, f, id)) {
                (Some(d), _) => d == target.raw,
                (None, Some(d)) => d == target.raw,
                (None, None) => true,
            }
        }),
{
    let id = lookup(s.names, new_name)->0;
    let declaring = s.scope.defs[target.raw as int].file;
    lemma_no_clash(s, declaring, target, id, s.scope.files);
    if f != declaring {
        let k = choose|k: int| 0 <= k < s.scope.files.len() && s.scope.files[k] == f;
        assert(s.scope.files[k] == f);
    }
}

proof fn lemma_no_clash(
    s: SnapV,
    declaring: FileId,
    target: DefId,
    id: crate::source::InternId,
    files: Seq<FileId>,
)
    requires
        crate::rename::clash_file(s, declaring, target, id, files) is None,
    ensures
        !crate::rename::clashes(s, target, declaring, id),
        forall|k: int|
            0 <= k < files.len() && #[trigger] files[k] != declaring && crate::rename::rebinds(
                s,
                crate::patch_edits::tree_of(s, files[k]).uses,
                target,
            ) ==> !crate::rename::clashes(s, target, files[k], id),
    decreases files.len(),
{
    if files.len() > 0 {
        let front = files.drop_last();
        lemma_no_clash(s, declaring, target, id, front);
        assert forall|k: int|
            0 <= k < files.len() && #[trigger] files[k] != declaring && crate::rename::rebinds(
                s,
                crate::patch_edits::tree_of(s, files[k]).uses,
                target,
            ) implies !crate::rename::clashes(s, target, files[k], id) by {
            if k < front.len() {
                assert(front[k] == files[k]);
            }
        }
    }
}

} // verus!
