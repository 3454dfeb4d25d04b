//! What renaming a field reaches: its declaration and every token that
//! names it — in a projection, in a literal, and in the target of an
//! assignment, however long the chain — and nothing else.

use crate::ast::{item_span, DataDeclV, ItemV};
use crate::fxmap::entry;
use crate::hir::{shape_of, HirExprKindV, HirExprV, HirStmtV, ModuleScopeV, Name, TypeRef};
use crate::param_laws::stmt_at;
use crate::patch::PatchOp;
use crate::patch_edits::{op_edits_of, target_item};
use crate::snapshot::{
    all_field_sites, body_field_sites, chain_sites, checked_of, data_of_expr, data_of_local,
    expr_field_sites, exprs_field_sites, file_field_sites, fn_field_sites, init_sites, is_fn_of,
    item_of, stmts_field_sites, stmts_of, CheckedV, FieldRef, SnapV,
};
use crate::source::{lookup, span_abs, DefId, ExprId, FileId, Span};
use crate::text::trimmed;
use vstd::prelude::*;

verus! {

// ---------- what names a field ----------

/// The `data` that a chain of projections has arrived at behind its first
/// `k` names, when it starts at a value of `cur`.
pub open spec fn walked(s: ModuleScopeV, cur: Option<DefId>, fs: Seq<Name>, k: int) -> Option<DefId>
    decreases k,
{
    if k <= 0 {
        cur
    } else {
        match walked(s, cur, fs, k - 1) {
            None => None,
            Some(d) => projected(s, d, fs[k - 1]),
        }
    }
}

/// The `data` that a field of a `data` holds, if it holds one.
pub open spec fn projected(s: ModuleScopeV, d: DefId, n: Name) -> Option<DefId> {
    match shape_of(s, d) {
        None => None,
        Some(shape) => match entry(shape.field_index, n.id.raw) {
            None => None,
            Some(i) => if i < shape.fields.len() {
                match shape.fields[i as int].ty {
                    TypeRef::Struct(x) => Some(x),
                    _ => None,
                }
            } else {
                None
            },
        },
    }
}

/// The `k`-th name of a chain names the field.
pub open spec fn chain_names(
    s: ModuleScopeV,
    cur: Option<DefId>,
    fs: Seq<Name>,
    k: int,
    f: FieldRef,
) -> bool {
    &&& 0 <= k < fs.len()
    &&& walked(s, cur, fs, k) == Some(f.data)
    &&& shape_of(s, f.data) matches Some(shape) && entry(shape.field_index, fs[k].id.raw) == Some(
        f.index,
    )
}

/// A token of the body is the name of the field in a projection.
pub open spec fn projects_at(c: CheckedV, e: HirExprV, f: FieldRef, sp: Span) -> bool {
    e.kind matches HirExprKindV::Field { base, name, field } && field == Some(f.index)
        && data_of_expr(c, base) == Some(f.data) && sp == name.span
}

/// A token of the body is the name of the field in a literal.
pub open spec fn writes_at(e: HirExprV, f: FieldRef, sp: Span) -> bool {
    e.kind matches HirExprKindV::StructLit { def, fields } && def == f.data && exists|r: int|
        0 <= r < fields.len() && (#[trigger] fields[r]).0.id == f.name && sp == fields[r].0.span
}

/// A token of the statement is the name of the field in the target of an
/// assignment.
pub open spec fn assigns_through(
    s: ModuleScopeV,
    c: CheckedV,
    st: HirStmtV,
    f: FieldRef,
    sp: Span,
) -> bool {
    st matches HirStmtV::Assign { target, value, span } && exists|k: int|
        #[trigger] chain_names(s, data_of_local(c, target.base), target.fields, k, f) && sp
            == target.fields[k].span
}

/// A token of a body names the field.
pub open spec fn names_field(s: ModuleScopeV, c: CheckedV, f: FieldRef, sp: Span) -> bool {
    ||| exists|q: int|
        0 <= q < c.body.exprs.len() && (projects_at(c, #[trigger] c.body.exprs[q], f, sp)
            || writes_at(c.body.exprs[q], f, sp))
    ||| exists|q: int, r: int|
        (#[trigger] stmt_at(c.body, q, r)) is Some && assigns_through(
            s,
            c,
            stmt_at(c.body, q, r)->0,
            f,
            sp,
        )
}

/// A token of the function with number `n` names the field at `at`.
pub open spec fn fn_names_field(s: SnapV, n: int, f: FieldRef, at: Span) -> bool {
    let d = DefId { raw: n as usize };
    &&& item_of(s, d) is Some
    &&& checked_of(s, d) is Some
    &&& exists|sp: Span|
        #[trigger] names_field(s.scope, checked_of(s, d)->0, f, sp) && at == span_abs(
            sp,
            item_span(item_of(s, d)->0).start,
        )
}

// ---------- bodies ----------

proof fn lemma_push<T>(v: Seq<T>, x: T, y: T)
    ensures
        v.push(x).contains(y) <==> v.contains(y) || y == x,
{
    let w = v.push(x);
    assert(w[v.len() as int] == x);
    if v.contains(y) {
        let i = choose|i: int| 0 <= i < v.len() && v[i] == y;
        assert(w[i] == y);
    }
    if w.contains(y) && y != x {
        let i = choose|i: int| 0 <= i < w.len() && w[i] == y;
        assert(v[i] == y);
    }
}

proof fn lemma_cat<T>(v: Seq<T>, w: Seq<T>, y: T)
    ensures
        (v + w).contains(y) <==> v.contains(y) || w.contains(y),
{
    let u = v + w;
    if v.contains(y) {
        let i = choose|i: int| 0 <= i < v.len() && v[i] == y;
        assert(u[i] == y);
    }
    if w.contains(y) {
        let i = choose|i: int| 0 <= i < w.len() && w[i] == y;
        assert(u[v.len() + i] == y);
    }
    if u.contains(y) {
        let i = choose|i: int| 0 <= i < u.len() && u[i] == y;
        if i < v.len() {
            assert(v[i] == y);
        } else {
            assert(w[i - v.len()] == y);
        }
    }
}

proof fn lemma_inits(fs: Seq<(Name, ExprId)>, f: FieldRef, sp: Span)
    ensures
        init_sites(fs, f).contains(sp) <==> exists|r: int|
            0 <= r < fs.len() && (#[trigger] fs[r]).0.id == f.name && sp == fs[r].0.span,
    decreases fs.len(),
{
    if fs.len() > 0 {
        let front = fs.drop_last();
        let last = fs[fs.len() - 1];
        lemma_inits(front, f, sp);
        lemma_push(init_sites(front, f), last.0.span, sp);
        if init_sites(front, f).contains(sp) {
            let r = choose|r: int|
                0 <= r < front.len() && (#[trigger] front[r]).0.id == f.name && sp
                    == front[r].0.span;
            assert(fs[r] == front[r]);
        }
        if exists|r: int|
            0 <= r < fs.len() && (#[trigger] fs[r]).0.id == f.name && sp == fs[r].0.span {
            let r = choose|r: int|
                0 <= r < fs.len() && (#[trigger] fs[r]).0.id == f.name && sp == fs[r].0.span;
            if r < front.len() {
                assert(front[r] == fs[r]);
            }
        }
    }
}

proof fn lemma_exprs(c: CheckedV, es: Seq<HirExprV>, f: FieldRef, sp: Span)
    ensures
        exprs_field_sites(c, es, f).contains(sp) <==> exists|q: int|
            0 <= q < es.len() && (projects_at(c, #[trigger] es[q], f, sp) || writes_at(
                es[q],
                f,
                sp,
            )),
    decreases es.len(),
{
    if es.len() > 0 {
        let front = es.drop_last();
        let e = es[es.len() - 1];
        lemma_exprs(c, front, f, sp);
        lemma_cat(exprs_field_sites(c, front, f), expr_field_sites(c, e, f), sp);
        assert(expr_field_sites(c, e, f).contains(sp) <==> projects_at(c, e, f, sp) || writes_at(
            e,
            f,
            sp,
        )) by {
            match e.kind {
                HirExprKindV::Field { base, name, field: Some(i) } => {
                    assert(seq![name.span][0] == name.span);
                },
                HirExprKindV::StructLit { def, fields } => {
                    lemma_inits(fields, f, sp);
                },
                _ => {},
            }
        }
        if exprs_field_sites(c, front, f).contains(sp) {
            let q = choose|q: int|
                0 <= q < front.len() && (projects_at(c, #[trigger] front[q], f, sp) || writes_at(
                    front[q],
                    f,
                    sp,
                ));
            assert(es[q] == front[q]);
        }
        if exists|q: int|
            0 <= q < es.len() && (projects_at(c, #[trigger] es[q], f, sp) || writes_at(
                es[q],
                f,
                sp,
            )) {
            let q = choose|q: int|
                0 <= q < es.len() && (projects_at(c, #[trigger] es[q], f, sp) || writes_at(
                    es[q],
                    f,
                    sp,
                ));
            if q < front.len() {
                assert(front[q] == es[q]);
            }
        }
    }
}

proof fn lemma_walked(s: ModuleScopeV, d: DefId, fs: Seq<Name>, k: int)
    requires
        0 < k <= fs.len(),
    ensures
        walked(s, Some(d), fs, k) == walked(s, projected(s, d, fs[0]), fs.skip(1), k - 1),
    decreases k,
{
    if k > 1 {
        lemma_walked(s, d, fs, k - 1);
        assert(fs.skip(1)[k - 2] == fs[k - 1]);
    } else {
        assert(walked(s, Some(d), fs, 0) == Some(d));
    }
}

proof fn lemma_walked_none(s: ModuleScopeV, fs: Seq<Name>, k: int)
    requires
        0 <= k,
    ensures
        walked(s, None, fs, k) is None,
    decreases k,
{
    if k > 0 {
        lemma_walked_none(s, fs, k - 1);
    }
}

proof fn lemma_chain(s: ModuleScopeV, cur: Option<DefId>, fs: Seq<Name>, f: FieldRef, sp: Span)
    ensures
        chain_sites(s, cur, fs, f).contains(sp) <==> exists|k: int|
            #[trigger] chain_names(s, cur, fs, k, f) && sp == fs[k].span,
    decreases fs.len(),
{
    if cur is None {
        assert forall|k: int| !#[trigger] chain_names(s, cur, fs, k, f) by {
            if 0 <= k {
                lemma_walked_none(s, fs, k);
            }
        }
    } else if fs.len() > 0 {
        let d = cur->0;
        let next = projected(s, d, fs[0]);
        let rest = fs.skip(1);
        assert forall|k: int| 1 <= k < fs.len() implies #[trigger] chain_names(s, cur, fs, k, f)
            == chain_names(s, next, rest, k - 1, f) by {
            lemma_walked(s, d, fs, k);
            assert(rest[k - 1] == fs[k]);
        }
        let known = shape_of(s, d) is Some && entry(
            shape_of(s, d)->0.field_index,
            fs[0].id.raw,
        ) is Some;
        if known {
            lemma_chain(s, next, rest, f, sp);
            let here: Seq<Span> = if d == f.data && entry(
                shape_of(s, d)->0.field_index,
                fs[0].id.raw,
            ) == Some(f.index) {
                seq![fs[0].span]
            } else {
                Seq::empty()
            };
            lemma_cat(here, chain_sites(s, next, rest, f), sp);
            assert(chain_sites(s, cur, fs, f) == here + chain_sites(s, next, rest, f));
            assert(chain_names(s, cur, fs, 0, f) <==> here.len() > 0);
            if here.len() > 0 {
                assert(here[0] == fs[0].span);
            }
            if chain_sites(s, next, rest, f).contains(sp) {
                let k = choose|k: int|
                    #[trigger] chain_names(s, next, rest, k, f) && sp == rest[k].span;
                assert(chain_names(s, cur, fs, k + 1, f));
                assert(rest[k] == fs[k + 1]);
            }
            if exists|k: int| #[trigger] chain_names(s, cur, fs, k, f) && sp == fs[k].span {
                let k = choose|k: int| #[trigger] chain_names(s, cur, fs, k, f) && sp == fs[k].span;
                if k > 0 {
                    assert(chain_names(s, next, rest, k - 1, f));
                    assert(rest[k - 1] == fs[k]);
                }
            }
        } else {
            assert forall|k: int| !#[trigger] chain_names(s, cur, fs, k, f) by {
                if 0 < k < fs.len() {
                    lemma_walked(s, d, fs, k);
                    lemma_walked_none(s, rest, k - 1);
                }
            }
        }
    }
}

proof fn lemma_stmts(s: ModuleScopeV, c: CheckedV, ss: Seq<HirStmtV>, f: FieldRef, sp: Span)
    ensures
        stmts_field_sites(s, c, ss, f).contains(sp) <==> exists|r: int|
            0 <= r < ss.len() && assigns_through(s, c, #[trigger] ss[r], f, sp),
    decreases ss.len(),
{
    if ss.len() > 0 {
        let front = ss.drop_last();
        let st = ss[ss.len() - 1];
        lemma_stmts(s, c, front, f, sp);
        let done = stmts_field_sites(s, c, front, f);
        match st {
            HirStmtV::Assign { target, value, span } => {
                let cur = data_of_local(c, target.base);
                lemma_chain(s, cur, target.fields, f, sp);
                lemma_cat(done, chain_sites(s, cur, target.fields, f), sp);
            },
            _ => {},
        }
        if done.contains(sp) {
            let r = choose|r: int|
                0 <= r < front.len() && assigns_through(s, c, #[trigger] front[r], f, sp);
            assert(ss[r] == front[r]);
        }
        if exists|r: int| 0 <= r < ss.len() && assigns_through(s, c, #[trigger] ss[r], f, sp) {
            let r = choose|r: int|
                0 <= r < ss.len() && assigns_through(s, c, #[trigger] ss[r], f, sp);
            if r < front.len() {
                assert(front[r] == ss[r]);
            }
        }
    }
}

/// The sites of a field in a body are exactly the tokens that name it.
pub proof fn law_body_sites_name_the_field(
    s: ModuleScopeV,
    c: CheckedV,
    f: FieldRef,
    base: u32,
    at: Span,
)
    ensures
        body_field_sites(s, c, f, base).contains(at) <==> exists|sp: Span|
            #[trigger] names_field(s, c, f, sp) && at == span_abs(sp, base),
{
    let es = c.body.exprs;
    let ss = stmts_of(es);
    let rel = exprs_field_sites(c, es, f) + stmts_field_sites(s, c, ss, f);
    let sites = body_field_sites(s, c, f, base);
    assert forall|sp: Span| #[trigger] rel.contains(sp) <==> names_field(s, c, f, sp) by {
        lemma_cat(exprs_field_sites(c, es, f), stmts_field_sites(s, c, ss, f), sp);
        lemma_exprs(c, es, f, sp);
        lemma_stmts(s, c, ss, f, sp);
        if exists|r: int| 0 <= r < ss.len() && assigns_through(s, c, #[trigger] ss[r], f, sp) {
            let r = choose|r: int|
                0 <= r < ss.len() && assigns_through(s, c, #[trigger] ss[r], f, sp);
            assert(ss.contains(ss[r]));
            crate::param_laws::lemma_stmts(es, ss[r]);
            let q = choose|q: int|
                0 <= q < es.len() && ((#[trigger] es[q]).kind matches HirExprKindV::Block {
                    stmts,
                    tail,
                } && stmts.contains(ss[r]));
            match es[q].kind {
                HirExprKindV::Block { stmts, tail } => {
                    let r2 = choose|r2: int| 0 <= r2 < stmts.len() && stmts[r2] == ss[r];
                    assert(stmt_at(c.body, q, r2) == Some(ss[r]));
                },
                _ => {},
            }
        }
        if exists|q: int, r: int|
            (#[trigger] stmt_at(c.body, q, r)) is Some && assigns_through(
                s,
                c,
                stmt_at(c.body, q, r)->0,
                f,
                sp,
            ) {
            let (q, r) = choose|q: int, r: int|
                (#[trigger] stmt_at(c.body, q, r)) is Some && assigns_through(
                    s,
                    c,
                    stmt_at(c.body, q, r)->0,
                    f,
                    sp,
                );
            let st = stmt_at(c.body, q, r)->0;
            crate::param_laws::lemma_stmts(es, st);
            match es[q].kind {
                HirExprKindV::Block { stmts, tail } => {
                    assert(stmts[r] == st);
                    assert(stmts.contains(st));
                },
                _ => {},
            }
            let r2 = choose|r2: int| 0 <= r2 < ss.len() && ss[r2] == st;
            assert(assigns_through(s, c, ss[r2], f, sp));
        }
    }
    if sites.contains(at) {
        let i = choose|i: int| 0 <= i < sites.len() && sites[i] == at;
        assert(rel.contains(rel[i]));
        assert(names_field(s, c, f, rel[i]));
    }
    if exists|sp: Span| #[trigger] names_field(s, c, f, sp) && at == span_abs(sp, base) {
        let sp = choose|sp: Span| #[trigger] names_field(s, c, f, sp) && at == span_abs(sp, base);
        assert(rel.contains(sp));
        let i = choose|i: int| 0 <= i < rel.len() && rel[i] == sp;
        assert(sites[i] == at);
    }
}

// ---------- files ----------

proof fn lemma_fn_sites(s: SnapV, file: FileId, n: int, f: FieldRef, x: (FileId, Span))
    ensures
        fn_field_sites(s, file, n, f).contains(x) <==> x.0 == file && fn_names_field(s, n, f, x.1),
{
    let d = DefId { raw: n as usize };
    let sites = fn_field_sites(s, file, n, f);
    match (item_of(s, d), checked_of(s, d)) {
        (Some(item), Some(c)) => {
            let base = item_span(item).start;
            let inner = body_field_sites(s.scope, c, f, base);
            law_body_sites_name_the_field(s.scope, c, f, base, x.1);
            if sites.contains(x) {
                let i = choose|i: int| 0 <= i < sites.len() && sites[i] == x;
                assert(inner[i] == x.1);
            }
            if x.0 == file && inner.contains(x.1) {
                let i = choose|i: int| 0 <= i < inner.len() && inner[i] == x.1;
                assert(sites[i] == x);
            }
        },
        _ => {},
    }
}

proof fn lemma_file_sites(s: SnapV, file: FileId, n: int, f: FieldRef, x: (FileId, Span))
    ensures
        file_field_sites(s, file, n, f).contains(x) <==> x.0 == file && exists|d: int|
            0 <= d < n && is_fn_of(s.scope, file, d) && #[trigger] fn_names_field(s, d, f, x.1),
    decreases n,
{
    if n > 0 {
        lemma_file_sites(s, file, n - 1, f, x);
        lemma_fn_sites(s, file, n - 1, f, x);
        lemma_cat(file_field_sites(s, file, n - 1, f), fn_field_sites(s, file, n - 1, f), x);
        if exists|d: int|
            0 <= d < n && is_fn_of(s.scope, file, d) && #[trigger] fn_names_field(s, d, f, x.1) {
            let d = choose|d: int|
                0 <= d < n && is_fn_of(s.scope, file, d) && #[trigger] fn_names_field(
                    s,
                    d,
                    f,
                    x.1,
                );
            if d < n - 1 {
                assert(fn_names_field(s, d, f, x.1));
            }
        }
    }
}

/// The sites of a field in some files are exactly the tokens that name it
/// in the functions of those files.
pub proof fn law_field_sites_are_its_mentions(
    s: SnapV,
    files: Seq<FileId>,
    f: FieldRef,
    x: (FileId, Span),
)
    ensures
        all_field_sites(s, files, f).contains(x) <==> files.contains(x.0) && exists|d: int|
            0 <= d < s.scope.defs.len() && is_fn_of(s.scope, x.0, d) && #[trigger] fn_names_field(
                s,
                d,
                f,
                x.1,
            ),
    decreases files.len(),
{
    if files.len() > 0 {
        let front = files.drop_last();
        let file = files[files.len() - 1];
        let n = s.scope.defs.len() as int;
        law_field_sites_are_its_mentions(s, front, f, x);
        lemma_file_sites(s, file, n, f, x);
        lemma_cat(all_field_sites(s, front, f), file_field_sites(s, file, n, f), x);
        if files.contains(x.0) {
            let j = choose|j: int| 0 <= j < files.len() && files[j] == x.0;
            if j < front.len() {
                assert(front[j] == x.0);
            }
        }
        if front.contains(x.0) {
            let j = choose|j: int| 0 <= j < front.len() && front[j] == x.0;
            assert(files[j] == x.0);
        }
        if x.0 == file {
            assert(files[files.len() - 1] == x.0);
        }
    }
}

/// `rename_field` puts the new name at the field's declaration and at
/// every token that names the field in a function of the workspace, and
/// at no other place.
pub proof fn law_rename_field_reaches_every_mention(
    s: SnapV,
    root: FileId,
    seq: usize,
    op: PatchOp,
    added: Option<Seq<char>>,
    d: DataDeclV,
    index: usize,
    file: FileId,
    at: Span,
)
    requires
        op is RenameField,
        target_item(s, root, op->RenameField_symbol@) is Ok,
        target_item(s, root, op->RenameField_symbol@)->Ok_0.item == ItemV::Data(d),
        shape_of(s.scope, target_item(s, root, op->RenameField_symbol@)->Ok_0.def) is Some,
        lookup(s.names, op->RenameField_field@) is Some,
        entry(
            shape_of(s.scope, target_item(s, root, op->RenameField_symbol@)->Ok_0.def)->0.field_index,
            lookup(s.names, op->RenameField_field@)->0.raw,
        ) == Some(index),
        index < d.fields.len(),
    ensures
        ({
            let t = target_item(s, root, op->RenameField_symbol@)->Ok_0;
            let f = FieldRef {
                data: t.def,
                index,
                name: lookup(s.names, op->RenameField_field@)->0,
            };
            let r = op_edits_of(s, root, seq, op, added);
            &&& r is Ok
            &&& forall|k: int|
                0 <= k < r->Ok_0.edits.len() ==> (#[trigger] r->Ok_0.edits[k]).replace == trimmed(
                    op->RenameField_to@,
                ) && r->Ok_0.edits[k].op == seq
            &&& (exists|k: int|
                0 <= k < r->Ok_0.edits.len() && (#[trigger] r->Ok_0.edits[k]).file == file
                    && r->Ok_0.edits[k].span == at) <==> (file == t.file && at
                == d.fields[index as int].name.span) || (s.scope.files.contains(file) && exists|
                n: int,
            |
                0 <= n < s.scope.defs.len() && is_fn_of(s.scope, file, n)
                    && #[trigger] fn_names_field(s, n, f, at))
        }),
{
    let t = target_item(s, root, op->RenameField_symbol@)->Ok_0;
    let f = FieldRef { data: t.def, index, name: lookup(s.names, op->RenameField_field@)->0 };
    let x = (file, at);
    law_field_sites_are_its_mentions(s, s.scope.files, f, x);
    let sites = all_field_sites(s, s.scope.files, f);
    let es = op_edits_of(s, root, seq, op, added)->Ok_0.edits;
    assert(es.len() == sites.len() + 1);
    assert(es[0].file == t.file && es[0].span == d.fields[index as int].name.span);
    assert forall|k: int| 1 <= k < es.len() implies (#[trigger] es[k]).file == sites[k - 1].0
        && es[k].span == sites[k - 1].1 by {}
    if sites.contains(x) {
        let i = choose|i: int| 0 <= i < sites.len() && sites[i] == x;
        assert(es[i + 1].file == file && es[i + 1].span == at);
    }
    if exists|k: int| 0 <= k < es.len() && (#[trigger] es[k]).file == file && es[k].span == at {
        let k = choose|k: int|
            0 <= k < es.len() && (#[trigger] es[k]).file == file && es[k].span == at;
        if k > 0 {
            assert(sites[k - 1] == x);
        }
    }
}

} // verus!
