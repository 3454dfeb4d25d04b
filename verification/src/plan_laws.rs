//! What becomes of a plan.
//!
//! A plan that was just made for a session is accepted by it, once. It
//! is refused by every other session, and refusing it changes nothing.

use crate::code::Code;
use crate::diagnostic::{any_error, DiagnosticV, Severity};
use crate::order::sorted;
use crate::patch::{Lexed, PatchEditV, PatchError, PatchErrorV, PatchOp};
use crate::patch_edits::{
    add_def_of, add_field_of, add_use_of, edit_of, op_edits_of, remove_def_of, remove_field_of,
    remove_use_of, rename_field_of, rename_param_of, replace_body_of, set_field_type_of,
    set_param_type_of, set_ret_type_of, OpEditsV,
};
use crate::patch_plan::{
    after_apply, apply_error, bares, candidate_of, first_drift, only_errors, patch_applied, plan_of,
    preview_order, resolve_ops_of, splice_order, still_covers, CandidateV, PatchPlanV, PatchReport,
    ProbeV, ResolvedV,
};
use crate::plan_spans::{law_all_edits_lie_in, lies_in, snap_fits};
use crate::rename::{
    first_lost, rename_applied, rename_apply_error, rename_candidate, rename_plan_of, still_names,
    RenameCandidateV, RenameError, RenameErrorV, RenamePlanV, RenameReport,
};
use crate::rename_local::local_candidate;
use crate::rename_spans::{
    all_replace, law_local_rename_covers_old_name, law_rename_covers_old_name, replaces,
    snap_spelled,
};
use crate::session::{installed, law_install_touches_only_its_files, FileSlotV, SessionV};
use crate::snapshot::{lowered_of, SnapV};
use crate::source::{DefId, FileId};
use crate::splice::{spliced_files, EditV};
use crate::text::opt_text;
use vstd::prelude::*;

verus! {

/// Snapshot `s` shows the texts of session `d`.
pub open spec fn is_shown(s: SnapV, d: SessionV) -> bool {
    &&& s.sources.len() == d.files.len()
    &&& forall|i: int| 0 <= i < d.files.len() ==> #[trigger] s.sources[i] == d.files[i].text
}

/// An edit has recorded what it covers.
pub open spec fn is_recorded(s: SnapV, e: PatchEditV) -> bool {
    ||| e == edit_of(s, e.file, e.span, e.replace, e.op)
    ||| e.span.start == e.span.end && e.expected.len() == 0
}

/// Every edit has recorded what it covers.
pub open spec fn all_recorded(s: SnapV, es: Seq<PatchEditV>) -> bool {
    forall|i: int| 0 <= i < es.len() ==> is_recorded(s, #[trigger] es[i])
}

proof fn lemma_replace_body(
    s: SnapV,
    root: FileId,
    op: usize,
    symbol: Seq<char>,
    body: Seq<char>,
    x: OpEditsV,
)
    requires
        replace_body_of(s, root, op, symbol, body) == Ok::<OpEditsV, PatchErrorV>(x),
    ensures
        all_recorded(s, x.edits),
{
}

proof fn lemma_remove_def(
    s: SnapV,
    root: FileId,
    op: usize,
    symbol: Seq<char>,
    x: OpEditsV,
)
    requires
        remove_def_of(s, root, op, symbol) == Ok::<OpEditsV, PatchErrorV>(x),
    ensures
        all_recorded(s, x.edits),
{
}

proof fn lemma_add_def(
    s: SnapV,
    root: FileId,
    op: usize,
    module: Option<Seq<char>>,
    text: Seq<char>,
    added: Option<Seq<char>>,
    x: OpEditsV,
)
    requires
        add_def_of(s, root, op, module, text, added) == Ok::<OpEditsV, PatchErrorV>(x),
    ensures
        all_recorded(s, x.edits),
{
}

proof fn lemma_rename_param(
    s: SnapV,
    root: FileId,
    op: usize,
    symbol: Seq<char>,
    param: Seq<char>,
    to: Seq<char>,
    x: OpEditsV,
)
    requires
        rename_param_of(s, root, op, symbol, param, to) == Ok::<OpEditsV, PatchErrorV>(x),
    ensures
        all_recorded(s, x.edits),
{
}

proof fn lemma_set_param_type(
    s: SnapV,
    root: FileId,
    op: usize,
    symbol: Seq<char>,
    param: Seq<char>,
    ty: Seq<char>,
    x: OpEditsV,
)
    requires
        set_param_type_of(s, root, op, symbol, param, ty) == Ok::<OpEditsV, PatchErrorV>(x),
    ensures
        all_recorded(s, x.edits),
{
}

proof fn lemma_set_ret_type(
    s: SnapV,
    root: FileId,
    op: usize,
    symbol: Seq<char>,
    ty: Option<Seq<char>>,
    x: OpEditsV,
)
    requires
        set_ret_type_of(s, root, op, symbol, ty) == Ok::<OpEditsV, PatchErrorV>(x),
    ensures
        all_recorded(s, x.edits),
{
}

proof fn lemma_add_use(
    s: SnapV,
    root: FileId,
    op: usize,
    module: Option<Seq<char>>,
    path: Seq<char>,
    alias: Option<Seq<char>>,
    x: OpEditsV,
)
    requires
        add_use_of(s, root, op, module, path, alias) == Ok::<OpEditsV, PatchErrorV>(x),
    ensures
        all_recorded(s, x.edits),
{
}

proof fn lemma_remove_use(
    s: SnapV,
    root: FileId,
    op: usize,
    module: Option<Seq<char>>,
    path: Seq<char>,
    alias: Option<Seq<char>>,
    x: OpEditsV,
)
    requires
        remove_use_of(s, root, op, module, path, alias) == Ok::<OpEditsV, PatchErrorV>(x),
    ensures
        all_recorded(s, x.edits),
{
}

proof fn lemma_add_field(
    s: SnapV,
    root: FileId,
    op: usize,
    symbol: Seq<char>,
    field: Seq<char>,
    ty: Seq<char>,
    x: OpEditsV,
)
    requires
        add_field_of(s, root, op, symbol, field, ty) == Ok::<OpEditsV, PatchErrorV>(x),
    ensures
        all_recorded(s, x.edits),
{
}

proof fn lemma_remove_field(
    s: SnapV,
    root: FileId,
    op: usize,
    symbol: Seq<char>,
    field: Seq<char>,
    x: OpEditsV,
)
    requires
        remove_field_of(s, root, op, symbol, field) == Ok::<OpEditsV, PatchErrorV>(x),
    ensures
        all_recorded(s, x.edits),
{
}

proof fn lemma_rename_field(
    s: SnapV,
    root: FileId,
    op: usize,
    symbol: Seq<char>,
    field: Seq<char>,
    to: Seq<char>,
    x: OpEditsV,
)
    requires
        rename_field_of(s, root, op, symbol, field, to) == Ok::<OpEditsV, PatchErrorV>(x),
    ensures
        all_recorded(s, x.edits),
{
}

proof fn lemma_set_field_type(
    s: SnapV,
    root: FileId,
    op: usize,
    symbol: Seq<char>,
    field: Seq<char>,
    ty: Seq<char>,
    x: OpEditsV,
)
    requires
        set_field_type_of(s, root, op, symbol, field, ty) == Ok::<OpEditsV, PatchErrorV>(x),
    ensures
        all_recorded(s, x.edits),
{
}

proof fn lemma_op_recorded(
    s: SnapV,
    root: FileId,
    i: usize,
    op: PatchOp,
    added: Option<Seq<char>>,
    x: OpEditsV,
)
    requires
        op_edits_of(s, root, i, op, added) == Ok::<OpEditsV, PatchErrorV>(x),
    ensures
        all_recorded(s, x.edits),
{
    match op {
        PatchOp::ReplaceBody { symbol, body } => {
            lemma_replace_body(s, root, i, symbol@, body@, x);
        },
        PatchOp::RemoveDef { symbol } => {
            lemma_remove_def(s, root, i, symbol@, x);
        },
        PatchOp::AddDef { module, text } => {
            lemma_add_def(s, root, i, opt_text(module), text@, added, x);
        },
        PatchOp::RenameParam { symbol, param, to } => {
            lemma_rename_param(s, root, i, symbol@, param@, to@, x);
        },
        PatchOp::SetParamType { symbol, param, ty } => {
            lemma_set_param_type(s, root, i, symbol@, param@, ty@, x);
        },
        PatchOp::SetRetType { symbol, ty } => {
            lemma_set_ret_type(s, root, i, symbol@, opt_text(ty), x);
        },
        PatchOp::AddUse { module, path, alias } => {
            lemma_add_use(s, root, i, opt_text(module), path@, opt_text(alias), x);
        },
        PatchOp::RemoveUse { module, path, alias } => {
            lemma_remove_use(s, root, i, opt_text(module), path@, opt_text(alias), x);
        },
        PatchOp::AddField { symbol, field, ty } => {
            lemma_add_field(s, root, i, symbol@, field@, ty@, x);
        },
        PatchOp::RemoveField { symbol, field } => {
            lemma_remove_field(s, root, i, symbol@, field@, x);
        },
        PatchOp::RenameField { symbol, field, to } => {
            lemma_rename_field(s, root, i, symbol@, field@, to@, x);
        },
        PatchOp::SetFieldType { symbol, field, ty } => {
            lemma_set_field_type(s, root, i, symbol@, field@, ty@, x);
        },
    }
}

proof fn lemma_all_recorded(
    s: SnapV,
    root: FileId,
    ops: Seq<PatchOp>,
    ps: Seq<ProbeV>,
    x: ResolvedV,
)
    requires
        resolve_ops_of(s, root, ops, ps) == Ok::<ResolvedV, PatchErrorV>(x),
    ensures
        all_recorded(s, x.edits),
    decreases ops.len(),
{
    if ops.len() > 0 {
        let i = ops.len() - 1;
        let done = resolve_ops_of(s, root, ops.drop_last(), ps)->Ok_0;
        lemma_all_recorded(s, root, ops.drop_last(), ps, done);
        let added = crate::patch::declared_name(ops[i], ps[i].ast);
        let y = op_edits_of(s, root, i as usize, ops[i], added)->Ok_0;
        lemma_op_recorded(s, root, i as usize, ops[i], added, y);
        assert forall|k: int| 0 <= k < x.edits.len() implies is_recorded(
            s,
            #[trigger] x.edits[k],
        ) by {
            if k < done.edits.len() {
                assert(x.edits[k] == done.edits[k]);
            } else {
                assert(x.edits[k] == y.edits[k - done.edits.len()]);
            }
        }
    }
}

proof fn lemma_no_drift(d: SessionV, es: Seq<PatchEditV>)
    requires
        forall|i: int| 0 <= i < es.len() ==> still_covers(d, #[trigger] es[i]),
    ensures
        first_drift(d, es) is None,
    decreases es.len(),
{
    if es.len() > 0 {
        let head = es.drop_last();
        assert forall|i: int| 0 <= i < head.len() implies still_covers(d, #[trigger] head[i]) by {
            assert(still_covers(d, es[i]));
        }
        lemma_no_drift(d, head);
        assert(still_covers(d, es[es.len() - 1]));
    }
}

/// What an edit recorded is what it covers.
proof fn lemma_covers(s: SnapV, d: SessionV, e: PatchEditV)
    requires
        is_shown(s, d),
        lies_in(s, e),
        is_recorded(s, e),
    ensures
        still_covers(d, e),
{
    let src = s.sources[e.file.raw as int];
    assert(src == d.files[e.file.raw as int].text);
    if !(e == edit_of(s, e.file, e.span, e.replace, e.op)) {
        let b = crate::text::bytes_of(src);
        assert(b.subrange(e.span.start as int, e.span.end as int) =~= Seq::<u8>::empty());
        assert(e.expected =~= Seq::<char>::empty());
    }
}

/// A patch plan that was just made is accepted: where the snapshot it
/// was made on shows the texts of the session and hangs together with
/// them, the session has nothing against it.
pub proof fn law_fresh_patch_accepted(
    s: SnapV,
    d: SessionV,
    root: FileId,
    ops: Seq<PatchOp>,
    ps: Seq<ProbeV>,
    c: CandidateV,
    ds: Seq<DiagnosticV>,
)
    requires
        is_shown(s, d),
        snap_fits(s),
        s.scope.files.contains(root),
        s.names.len() <= usize::MAX,
        s.scope.defs.len() <= usize::MAX,
        resolve_ops_of(s, root, ops, ps) matches Ok(x) && c.edits == x.edits,
    ensures
        apply_error(d, plan_of(c, ds, d)) is None,
{
    let x = resolve_ops_of(s, root, ops, ps)->Ok_0;
    lemma_all_recorded(s, root, ops, ps, x);
    law_all_edits_lie_in(s, root, ops, ps, x);
    let p = |e: PatchEditV| still_covers(d, e);
    assert forall|i: int| 0 <= i < c.edits.len() implies p(#[trigger] c.edits[i]) by {
        lemma_covers(s, d, c.edits[i]);
    }
    crate::order::lemma_sorted_all(c.edits, preview_order(), p);
    let es = plan_of(c, ds, d).edits;
    assert forall|i: int| 0 <= i < es.len() implies still_covers(d, #[trigger] es[i]) by {
        assert(p(es[i]));
    }
    lemma_no_drift(d, es);
}

proof fn lemma_none_lost(d: SessionV, es: Seq<EditV>, name: Seq<char>)
    ensures
        first_lost(d, es, name) is None <==> forall|i: int|
            0 <= i < es.len() ==> still_names(d, #[trigger] es[i], name),
    decreases es.len(),
{
    if es.len() > 0 {
        let head = es.drop_last();
        lemma_none_lost(d, head, name);
        if first_lost(d, es, name) is None {
            assert forall|i: int| 0 <= i < es.len() implies still_names(
                d,
                #[trigger] es[i],
                name,
            ) by {
                if i < head.len() {
                    assert(still_names(d, head[i], name));
                }
            }
        } else if forall|i: int| 0 <= i < es.len() ==> still_names(d, #[trigger] es[i], name) {
            assert forall|i: int| 0 <= i < head.len() implies still_names(
                d,
                #[trigger] head[i],
                name,
            ) by {
                assert(still_names(d, es[i], name));
            }
            assert(still_names(d, es[es.len() - 1], name));
        }
    }
}

/// A plan whose sites bear the old name in the texts that the session
/// shows is accepted by it.
proof fn lemma_covered_rename(
    s: SnapV,
    d: SessionV,
    c: RenameCandidateV,
    ds: Seq<DiagnosticV>,
)
    requires
        is_shown(s, d),
        all_replace(s, c.edits, c.old_name),
    ensures
        rename_apply_error(d, rename_plan_of(c, ds, d)) is None,
{
    assert forall|i: int| 0 <= i < c.edits.len() implies still_names(
        d,
        #[trigger] c.edits[i],
        c.old_name,
    ) by {
        assert(replaces(s, c.old_name)(c.edits[i]));
        assert(s.sources[c.edits[i].file.raw as int] == d.files[c.edits[i].file.raw as int].text);
    }
    lemma_none_lost(d, c.edits, c.old_name);
}

/// A rename plan that was just made is accepted: where the snapshot it
/// was made on shows the texts of the session and its names are spelled
/// there, the session has nothing against it.
pub proof fn law_fresh_rename_accepted(
    s: SnapV,
    d: SessionV,
    root: usize,
    symbol: Seq<char>,
    new_name: Seq<char>,
    lexed: Lexed,
    baseline: Seq<DiagnosticV>,
    c: RenameCandidateV,
    ds: Seq<DiagnosticV>,
)
    requires
        is_shown(s, d),
        snap_spelled(s),
        s.names.len() <= usize::MAX,
        rename_candidate(s, root, symbol, new_name, lexed, baseline) == Ok::<
            RenameCandidateV,
            RenameErrorV,
        >(c),
    ensures
        rename_apply_error(d, rename_plan_of(c, ds, d)) is None,
{
    law_rename_covers_old_name(s, root, symbol, new_name, lexed, baseline, c);
    lemma_covered_rename(s, d, c, ds);
}

/// A local rename plan that was just made is accepted: where the
/// snapshot it was made on shows the texts of the session and hangs
/// together with them, the session has nothing against it.
pub proof fn law_fresh_local_rename_accepted(
    s: SnapV,
    d: SessionV,
    root: usize,
    file: usize,
    off: u32,
    new_name: Seq<char>,
    lexed: Lexed,
    baseline: Seq<DiagnosticV>,
    c: RenameCandidateV,
    ds: Seq<DiagnosticV>,
)
    requires
        is_shown(s, d),
        snap_fits(s),
        s.scope.defs.len() <= usize::MAX,
        forall|def: DefId|
            (#[trigger] lowered_of(s, def)) matches Some(b) ==> b.local_symbols.len() <= usize::MAX,
        local_candidate(s, root, file, off, new_name, lexed, baseline) == Ok::<
            RenameCandidateV,
            RenameErrorV,
        >(c),
    ensures
        rename_apply_error(d, rename_plan_of(c, ds, d)) is None,
{
    law_local_rename_covers_old_name(s, root, file, off, new_name, lexed, baseline, c);
    lemma_covered_rename(s, d, c, ds);
}

/// A patch plan belongs to one session and is good for one use there.
/// Another session refuses it and stays as it is. Its own session, if
/// it has nothing against it, then applies it, and refuses it as stale
/// from then on, staying as it is.
pub proof fn law_patch_applies_once(
    own: SessionV,
    other: SessionV,
    p: PatchPlanV,
    first: (Result<PatchReport, PatchError>, SessionV),
    second: (Result<PatchReport, PatchError>, SessionV),
    third: (Result<PatchReport, PatchError>, SessionV),
)
    requires
        own.id != other.id,
        own.revision < u64::MAX,
        apply_error(own, p) is None,
        patch_applied(other, p, first.0, first.1),
        patch_applied(own, p, second.0, second.1),
        patch_applied(second.1, p, third.0, third.1),
    ensures
        first.0 matches Err(e) && e@ is PlanMismatch,
        first.1 == other,
        second.0 is Ok,
        second.1 == after_apply(own, p.new_sources),
        third.0 matches Err(e) && e@ == (PatchErrorV::Stale {
            planned: own.revision,
            current: (own.revision + 1) as u64,
        }),
        third.1 == second.1,
{
}

/// A rename plan belongs to one session and is good for one use there.
/// Another session refuses it and stays as it is. Its own session, if
/// it has nothing against it, then applies it, and refuses it as stale
/// from then on, staying as it is.
pub proof fn law_rename_applies_once(
    own: SessionV,
    other: SessionV,
    p: RenamePlanV,
    first: (Result<RenameReport, RenameError>, SessionV),
    second: (Result<RenameReport, RenameError>, SessionV),
    third: (Result<RenameReport, RenameError>, SessionV),
)
    requires
        own.id != other.id,
        own.revision < u64::MAX,
        rename_apply_error(own, p) is None,
        rename_applied(other, p, first.0, first.1),
        rename_applied(own, p, second.0, second.1),
        rename_applied(second.1, p, third.0, third.1),
    ensures
        first.0 matches Err(e) && e@ is PlanMismatch,
        first.1 == other,
        second.0 is Ok,
        second.1 == after_apply(own, p.new_sources),
        third.0 matches Err(e) && e@ == (RenameErrorV::Stale {
            planned: own.revision,
            current: (own.revision + 1) as u64,
        }),
        third.1 == second.1,
{
}

/// New texts are in file order, one for each file, and of registered
/// files.
proof fn lemma_file_order(sources: Seq<Seq<char>>, es: Seq<EditV>, n: int)
    requires
        n <= sources.len() <= usize::MAX,
    ensures
        ({
            let v = spliced_files(sources, es, n);
            &&& forall|i: int| 0 <= i < v.len() ==> (#[trigger] v[i]).0 < n
            &&& forall|i: int, j: int|
                0 <= i < j < v.len() ==> (#[trigger] v[i]).0 < (#[trigger] v[j]).0
        }),
    decreases n,
{
    if n > 0 {
        lemma_file_order(sources, es, n - 1);
        let done = spliced_files(sources, es, n - 1);
        let v = spliced_files(sources, es, n);
        assert forall|i: int| 0 <= i < v.len() implies (#[trigger] v[i]).0 < n by {
            if i < done.len() {
                assert(v[i] == done[i]);
            }
        }
        assert forall|i: int, j: int| 0 <= i < j < v.len() implies (#[trigger] v[i]).0 < (
        #[trigger] v[j]).0 by {
            assert(v[i] == done[i]);
            if j < done.len() {
                assert(v[j] == done[j]);
            }
        }
    }
}

/// What is installed is what the files then hold.
proof fn lemma_installed(files: Seq<FileSlotV>, news: Seq<(usize, Seq<char>)>, i: int)
    requires
        0 <= i < news.len(),
        forall|k: int| 0 <= k < news.len() ==> (#[trigger] news[k]).0 < files.len(),
        forall|k: int, j: int|
            0 <= k < j < news.len() ==> (#[trigger] news[k]).0 < (#[trigger] news[j]).0,
    ensures
        installed(files, news).len() == files.len(),
        installed(files, news)[news[i].0 as int].text == news[i].1,
    decreases news.len(),
{
    let head = news.drop_last();
    law_install_touches_only_its_files(files, head, news[news.len() - 1].0 as int);
    assert forall|k: int| 0 <= k < head.len() implies (#[trigger] head[k]).0 < files.len() by {
        assert(head[k] == news[k]);
    }
    assert forall|k: int, j: int| 0 <= k < j < head.len() implies (#[trigger] head[k]).0 < (
    #[trigger] head[j]).0 by {
        assert(head[k] == news[k] && head[j] == news[j]);
    }
    if i < head.len() {
        lemma_installed(files, head, i);
        assert(head[i] == news[i]);
        assert(news[i].0 < news[news.len() - 1].0);
    }
}

proof fn lemma_one_summary_each(
    s: SnapV,
    root: FileId,
    ops: Seq<PatchOp>,
    ps: Seq<ProbeV>,
    x: ResolvedV,
)
    requires
        resolve_ops_of(s, root, ops, ps) == Ok::<ResolvedV, PatchErrorV>(x),
    ensures
        x.ops.len() == ops.len(),
    decreases ops.len(),
{
    if ops.len() > 0 {
        lemma_one_summary_each(
            s,
            root,
            ops.drop_last(),
            ps,
            resolve_ops_of(s, root, ops.drop_last(), ps)->Ok_0,
        );
    }
}

/// The files of a session after new texts were installed: the new texts
/// where there is one, and the old files elsewhere.
pub open spec fn holds_new(
    before: Seq<FileSlotV>,
    after: Seq<FileSlotV>,
    news: Seq<(usize, Seq<char>)>,
) -> bool {
    &&& after.len() == before.len()
    &&& forall|i: int|
        0 <= i < news.len() ==> (#[trigger] news[i]).0 < after.len() && after[news[i].0 as int].text
            == news[i].1
    &&& forall|f: int|
        0 <= f < before.len() && (forall|i: int|
            0 <= i < news.len() ==> (#[trigger] news[i]).0 != f) ==> #[trigger] after[f]
            == before[f]
}

proof fn lemma_holds_new(d: SessionV, sources: Seq<Seq<char>>, es: Seq<EditV>)
    requires
        sources.len() == d.files.len() <= usize::MAX,
    ensures
        ({
            let news = spliced_files(sources, es, sources.len() as int);
            holds_new(d.files, after_apply(d, news).files, news)
        }),
{
    let news = spliced_files(sources, es, sources.len() as int);
    let after = after_apply(d, news).files;
    lemma_file_order(sources, es, sources.len() as int);
    if d.files.len() > 0 {
        law_install_touches_only_its_files(d.files, news, 0);
    } else if news.len() > 0 {
        assert(news[0].0 < 0);
    }
    assert forall|i: int| 0 <= i < news.len() implies (#[trigger] news[i]).0 < after.len()
        && after[news[i].0 as int].text == news[i].1 by {
        lemma_installed(d.files, news, i);
    }
    assert forall|f: int|
        0 <= f < d.files.len() && (forall|i: int|
            0 <= i < news.len() ==> (#[trigger] news[i]).0 != f) implies #[trigger] after[f]
        == d.files[f] by {
        law_install_touches_only_its_files(d.files, news, f);
    }
    assert(after.len() == d.files.len()) by {
        if d.files.len() == 0 {
            assert(news =~= Seq::empty());
        }
    }
}

/// A patch that was planned and not overtaken by a write lands once.
/// Applying its plan gives the next revision, in which the files hold
/// the planned texts and every other file is as it was; the report
/// counts the operations and edits. Applying the plan again is refused
/// as stale and changes nothing.
pub proof fn law_planned_patch_lands_once(
    s: SnapV,
    d: SessionV,
    root: FileId,
    ops: Seq<PatchOp>,
    ps: Seq<ProbeV>,
    x: ResolvedV,
    ds: Seq<DiagnosticV>,
    first: (Result<PatchReport, PatchError>, SessionV),
    second: (Result<PatchReport, PatchError>, SessionV),
)
    requires
        is_shown(s, d),
        snap_fits(s),
        s.scope.files.contains(root),
        s.sources.len() <= usize::MAX,
        s.names.len() <= usize::MAX,
        s.scope.defs.len() <= usize::MAX,
        d.revision < u64::MAX,
        resolve_ops_of(s, root, ops, ps) == Ok::<ResolvedV, PatchErrorV>(x),
        patch_applied(d, plan_of(resolved_candidate(s, root, x), ds, d), first.0, first.1),
        patch_applied(first.1, plan_of(resolved_candidate(s, root, x), ds, d), second.0, second.1),
    ensures
        ({
            let plan = plan_of(resolved_candidate(s, root, x), ds, d);
            &&& first.0 matches Ok(report) && report.revision == d.revision + 1 && report.ops
                == ops.len() && report.edits == plan.edits.len()
            &&& first.1.revision == d.revision + 1
            &&& holds_new(d.files, first.1.files, plan.new_sources)
            &&& second.0 matches Err(e) && e@ == (PatchErrorV::Stale {
                planned: d.revision,
                current: (d.revision + 1) as u64,
            })
            &&& second.1 == first.1
        }),
{
    let c = resolved_candidate(s, root, x);
    law_fresh_patch_accepted(s, d, root, ops, ps, c, ds);
    lemma_one_summary_each(s, root, ops, ps, x);
    lemma_holds_new(d, s.sources, bares(sorted(x.edits, splice_order())));
}

/// The candidate of resolved operations.
pub open spec fn resolved_candidate(s: SnapV, root: FileId, x: ResolvedV) -> CandidateV {
    CandidateV {
        root: root.raw,
        ops: x.ops,
        edits: x.edits,
        new_sources: candidate_of(s.sources, x.edits),
    }
}

/// A rename plan cannot cross sessions. Another session, though it holds
/// the same texts at the same revision, refuses the plan and stays as it
/// is; the session that made it then applies it, and holds the planned
/// texts in its next revision.
pub proof fn law_planned_rename_stays_home(
    s: SnapV,
    own: SessionV,
    other: SessionV,
    root: usize,
    symbol: Seq<char>,
    new_name: Seq<char>,
    lexed: Lexed,
    baseline: Seq<DiagnosticV>,
    c: RenameCandidateV,
    ds: Seq<DiagnosticV>,
    first: (Result<RenameReport, RenameError>, SessionV),
    second: (Result<RenameReport, RenameError>, SessionV),
)
    requires
        is_shown(s, own),
        snap_spelled(s),
        s.names.len() <= usize::MAX,
        s.sources.len() <= usize::MAX,
        own.id != other.id,
        own.revision < u64::MAX,
        rename_candidate(s, root, symbol, new_name, lexed, baseline) == Ok::<
            RenameCandidateV,
            RenameErrorV,
        >(c),
        rename_applied(other, rename_plan_of(c, ds, own), first.0, first.1),
        rename_applied(own, rename_plan_of(c, ds, own), second.0, second.1),
    ensures
        first.0 matches Err(e) && e@ matches RenameErrorV::PlanMismatch(x) && x.code
            == Code::PlanMismatch,
        first.1 == other,
        second.0 matches Ok(report) && report.revision == own.revision + 1 && report.edits
            == c.edits.len(),
        second.1.revision == own.revision + 1,
        holds_new(own.files, second.1.files, c.new_sources),
{
    law_fresh_rename_accepted(s, own, root, symbol, new_name, lexed, baseline, c, ds);
    lemma_holds_new(own, s.sources, c.edits);
}

proof fn lemma_no_errors(ds: Seq<DiagnosticV>)
    requires
        only_errors(ds).len() == 0,
    ensures
        !any_error(ds),
    decreases ds.len(),
{
    if ds.len() > 0 {
        lemma_no_errors(ds.drop_last());
        assert forall|i: int| 0 <= i < ds.len() implies (#[trigger] ds[i]).severity
            != Severity::Error by {
            if i < ds.len() - 1 {
                assert(ds.drop_last()[i] == ds[i]);
            }
        }
    }
}

/// An applied patch reports what its candidate was found to report, and
/// no error is among it.
pub proof fn law_applied_patch_is_clean(
    s: SessionV,
    c: CandidateV,
    ds: Seq<DiagnosticV>,
    r: Result<PatchReport, PatchError>,
    s2: SessionV,
)
    requires
        only_errors(ds).len() == 0,
        patch_applied(s, plan_of(c, ds, s), r, s2),
    ensures
        r matches Ok(report) ==> report.diags@ == ds && !any_error(report.diags@),
{
    lemma_no_errors(ds);
}

/// An applied rename reports what its candidate was found to report,
/// and no error is among it.
pub proof fn law_applied_rename_is_clean(
    s: SessionV,
    c: RenameCandidateV,
    ds: Seq<DiagnosticV>,
    r: Result<RenameReport, RenameError>,
    s2: SessionV,
)
    requires
        only_errors(ds).len() == 0,
        rename_applied(s, rename_plan_of(c, ds, s), r, s2),
    ensures
        r matches Ok(report) ==> report.diags@ == ds && !any_error(report.diags@),
{
    lemma_no_errors(ds);
}

} // verus!
