//! The shape of a lowered body.
//!
//! A lowered body mirrors the function it was lowered from: each node
//! stands for one expression, bears its span, and has for its parts the
//! nodes of that expression's parts, in the same places and the same
//! order.

use crate::ast::{
    expr_span, BlockV, ExprV, FieldInitV, FnDeclV, IdentV, MatchArmV, ParamV, PathV, PatternV,
    PlaceV, StmtV, TypeExprV,
};
use crate::diagnostic::DiagnosticV;
use crate::hir::{
    HirArmV, HirExprKindV, HirExprV, HirPatV, HirPlaceV, HirStmtV, ModuleScopeV, Name, Symbol,
    SymbolKind,
};
use crate::hir_lower::{
    alloc_node, binds_inner, close_scope, ctx_of, declare, intern_in, keeps,
    law_lowering_keeps_scopes, lemma_alloc, lemma_arms, lemma_block, lemma_callee, lemma_declare,
    lemma_exprs, lemma_inits, lemma_intern, lemma_params, lemma_path_def, lemma_pattern,
    lemma_place, lemma_refl, lemma_report, lemma_stmt, lemma_stmts, lemma_struct, lemma_type,
    lemma_variant_of, lookup, lower_arms, lower_binds, lower_block, lower_callee, lower_expr,
    lower_exprs, lower_inits, lower_names, lower_params, lower_path, lower_pattern, lower_place,
    lower_run, lower_start, lower_stmt, lower_stmts, lower_struct, lower_type, lower_var, lowered,
    open_scope, path_def, poison, report, variant_of, variant_or, CtxV, LowerV, PathErr,
};
use crate::source::{DefId, ExprId, FileId, Span, SymbolId};
use vstd::prelude::*;

verus! {

// ---------- what mirrors what ----------

/// What a lowered body holds: its nodes, its locals, the names they
/// bear, and how much was reported up to the end.
#[verifier::ext_equal]
pub struct ArenaV {
    pub exprs: Seq<HirExprV>,
    pub locals: Seq<Symbol>,
    pub names: Seq<Seq<char>>,
    pub reports: nat,
}

/// A name of a body is the identifier it was read from.
pub open spec fn named(w: ArenaV, n: Name, x: IdentV) -> bool {
    &&& n.span == x.span
    &&& n.id.raw < w.names.len()
    &&& w.names[n.id.raw as int] == x.name
}

/// Names are the identifiers they were read from, one for one.
pub open spec fn all_named(w: ArenaV, ns: Seq<Name>, xs: Seq<IdentV>) -> bool {
    &&& ns.len() == xs.len()
    &&& forall|i: int| 0 <= i < xs.len() ==> named(w, #[trigger] ns[i], xs[i])
}

/// A symbol is a local of the body that an identifier declares.
pub open spec fn declared(
    w: ArenaV,
    sym: SymbolId,
    x: IdentV,
    kind: SymbolKind,
    mutable: bool,
) -> bool {
    &&& sym matches SymbolId::Local(i)
    &&& i < w.locals.len()
    &&& w.locals[i as int].id == sym
    &&& w.locals[i as int].span == x.span
    &&& w.locals[i as int].kind == kind
    &&& w.locals[i as int].mutable == mutable
    &&& w.locals[i as int].name.raw < w.names.len()
    &&& w.names[w.locals[i as int].name.raw as int] == x.name
}

/// What an identifier of a pattern binds: nothing for `_`.
pub open spec fn binding(w: ArenaV, sym: Option<SymbolId>, x: IdentV) -> bool {
    if x.name == "_"@ {
        sym is None
    } else {
        sym is Some && declared(w, sym->0, x, SymbolKind::Local, false)
    }
}

/// A lowered pattern stands for a pattern. `clean` tells that nothing
/// was reported.
pub open spec fn mirrors_pattern(w: ArenaV, clean: bool, h: HirPatV, p: PatternV) -> bool {
    match p {
        PatternV::Bind { name } => h matches HirPatV::Bind { sym, span } && span == name.span
            && binding(w, sym, name),
        PatternV::Variant { path, binds, span: at } => match h {
            HirPatV::Variant { def, variant, binds: bs, span } => {
                &&& span == at
                &&& bs.len() == binds.len()
                &&& forall|i: int| 0 <= i < binds.len() ==> binding(w, #[trigger] bs[i], binds[i])
            },
            HirPatV::Poison => !clean,
            _ => false,
        },
    }
}

/// A lowered place stands for a place.
pub open spec fn mirrors_place(w: ArenaV, h: HirPlaceV, p: PlaceV) -> bool {
    &&& all_named(w, h.fields, p.fields)
    &&& h.span.start <= p.base.span.start
    &&& p.base.span.end <= h.span.end
}

/// A node of the body stands for an expression: it bears its span, and
/// its parts stand for that expression's parts. Only a name that does
/// not resolve, which is reported, and an expression that could not be
/// read have a poisoned node. `clean` tells that nothing was reported.
pub open spec fn mirrors(w: ArenaV, clean: bool, id: ExprId, e: ExprV) -> bool
    decreases e,
{
    if id.raw >= w.exprs.len() {
        false
    } else {
        let node = w.exprs[id.raw as int];
        match e {
            ExprV::Block { block, span: _ } => mirrors_block(w, clean, id, block),
            _ => node.span == expr_span(e) && match e {
                ExprV::Literal { value, span: _ } => node.kind == HirExprKindV::Literal(value),
                ExprV::Var { name } => node.kind is Var || (!clean && node.kind is Poison),
                ExprV::Call { callee, args, span: _ } => match node.kind {
                    HirExprKindV::Call { def, args: ids } => mirrors_all(w, clean, ids, args),
                    HirExprKindV::VariantLit { def, variant, args: ids } => mirrors_all(
                        w,
                        clean,
                        ids,
                        args,
                    ),
                    HirExprKindV::Poison => !clean,
                    _ => false,
                },
                ExprV::Path { path } => match node.kind {
                    HirExprKindV::VariantLit { def, variant, args } => args.len() == 0,
                    HirExprKindV::Poison => !clean,
                    _ => false,
                },
                ExprV::Field { base, name, span: _ } => node.kind matches HirExprKindV::Field {
                    base: b,
                    name: n,
                    field,
                } && mirrors(w, clean, b, *base) && named(w, n, name) && field is None,
                ExprV::Index { base, index, span: _ } => node.kind matches HirExprKindV::Index {
                    base: b,
                    index: i,
                } && mirrors(w, clean, b, *base) && mirrors(w, clean, i, *index),
                ExprV::Slice { base, lo, hi, span: _ } => node.kind matches HirExprKindV::Slice {
                    base: b,
                    lo: l,
                    hi: h,
                } && mirrors(w, clean, b, *base) && mirrors_opt(w, clean, l, lo) && mirrors_opt(
                    w,
                    clean,
                    h,
                    hi,
                ),
                ExprV::ArrayLit { elems, span: _ } => node.kind matches HirExprKindV::ArrayLit {
                    elems: ids,
                } && mirrors_all(w, clean, ids, elems),
                ExprV::Range { lo, hi, span: _ } => node.kind matches HirExprKindV::Range {
                    lo: l,
                    hi: h,
                } && mirrors_opt(w, clean, l, lo) && mirrors_opt(w, clean, h, hi),
                ExprV::For { var, mutable, iter, body, span: _ } => node.kind matches HirExprKindV::For {
                    var: v,
                    iter: i,
                    body: b,
                } && declared(w, v, var, SymbolKind::Local, mutable) && mirrors(w, clean, i, *iter)
                    && mirrors_block(w, clean, b, body),
                ExprV::Match { scrutinee, arms, span: _ } => node.kind matches HirExprKindV::Match {
                    scrutinee: s,
                    arms: hs,
                } && mirrors(w, clean, s, *scrutinee) && mirrors_arms(w, clean, hs, arms),
                ExprV::Binary { op, lhs, rhs, span: _ } => node.kind matches HirExprKindV::Binary {
                    op: o,
                    lhs: l,
                    rhs: r,
                } && o == op && mirrors(w, clean, l, *lhs) && mirrors(w, clean, r, *rhs),
                ExprV::Unary { op, expr, span: _ } => node.kind matches HirExprKindV::Unary {
                    op: o,
                    expr: x,
                } && o == op && mirrors(w, clean, x, *expr),
                ExprV::If { cond, then_, else_, span: _ } => node.kind matches HirExprKindV::If {
                    cond: c,
                    then_: t,
                    else_: f,
                } && mirrors(w, clean, c, *cond) && mirrors_block(w, clean, t, then_)
                    && mirrors_opt(w, clean, f, else_),
                ExprV::StructLit { name, fields, span: _ } => match node.kind {
                    HirExprKindV::StructLit { def, fields: fs } => mirrors_inits(
                        w,
                        clean,
                        fs,
                        fields,
                    ),
                    HirExprKindV::Poison => !clean,
                    _ => false,
                },
                ExprV::Error { span: _ } => node.kind is Poison,
                ExprV::Block { .. } => false,
            },
        }
    }
}

/// A node, where there is one, stands for an expression, where there is
/// one.
pub open spec fn mirrors_opt(
    w: ArenaV,
    clean: bool,
    id: Option<ExprId>,
    e: Option<Box<ExprV>>,
) -> bool
    decreases e,
{
    match (id, e) {
        (Some(i), Some(x)) => mirrors(w, clean, i, *x),
        (None, None) => true,
        _ => false,
    }
}

/// Nodes stand for expressions, one for one and in order.
pub open spec fn mirrors_all(w: ArenaV, clean: bool, ids: Seq<ExprId>, es: Seq<ExprV>) -> bool
    decreases es,
{
    if es.len() == 0 {
        ids.len() == 0
    } else {
        ids.len() > 0 && mirrors_all(w, clean, ids.drop_last(), es.drop_last()) && mirrors(
            w,
            clean,
            ids.last(),
            es.last(),
        )
    }
}

/// Lowered field values stand for those of a literal, one for one and in
/// order, each under its name.
pub open spec fn mirrors_inits(
    w: ArenaV,
    clean: bool,
    hs: Seq<(Name, ExprId)>,
    fs: Seq<FieldInitV>,
) -> bool
    decreases fs,
{
    if fs.len() == 0 {
        hs.len() == 0
    } else {
        hs.len() > 0 && mirrors_inits(w, clean, hs.drop_last(), fs.drop_last()) && named(
            w,
            hs.last().0,
            fs.last().name,
        ) && mirrors(w, clean, hs.last().1, fs.last().value)
    }
}

/// Lowered arms stand for arms, one for one and in order.
pub open spec fn mirrors_arms(
    w: ArenaV,
    clean: bool,
    hs: Seq<HirArmV>,
    arms: Seq<MatchArmV>,
) -> bool
    decreases arms,
{
    if arms.len() == 0 {
        hs.len() == 0
    } else {
        hs.len() > 0 && mirrors_arms(w, clean, hs.drop_last(), arms.drop_last()) && hs.last().span
            == arms.last().span && mirrors_pattern(w, clean, hs.last().pat, arms.last().pat)
            && mirrors(w, clean, hs.last().body, arms.last().body)
    }
}

/// A node of the body stands for a block.
pub open spec fn mirrors_block(w: ArenaV, clean: bool, id: ExprId, b: BlockV) -> bool
    decreases b,
{
    &&& id.raw < w.exprs.len()
    &&& w.exprs[id.raw as int].span == b.span
    &&& w.exprs[id.raw as int].kind matches HirExprKindV::Block { stmts, tail }
    &&& mirrors_stmts(w, clean, stmts, b.stmts)
    &&& mirrors_opt(w, clean, tail, b.tail)
}

/// Lowered statements stand for statements, one for one and in order. An
/// assignment to a name that is not bound, which is reported, drops out.
pub open spec fn mirrors_stmts(w: ArenaV, clean: bool, hs: Seq<HirStmtV>, ss: Seq<StmtV>) -> bool
    decreases ss,
{
    if ss.len() == 0 {
        hs.len() == 0
    } else {
        ||| hs.len() > 0 && mirrors_stmts(w, clean, hs.drop_last(), ss.drop_last())
            && mirrors_stmt(w, clean, hs.last(), ss.last())
        ||| !clean && ss.last() is Assign && mirrors_stmts(w, clean, hs, ss.drop_last())
    }
}

/// A lowered statement stands for a statement.
pub open spec fn mirrors_stmt(w: ArenaV, clean: bool, h: HirStmtV, s: StmtV) -> bool
    decreases s,
{
    match s {
        StmtV::Let { name, mutable, ty, init, span: at } => h matches HirStmtV::Let {
            symbol,
            ty: t,
            init: i,
            span,
        } && span == at && declared(w, symbol, name, SymbolKind::Local, mutable) && (t is Some
            <==> ty is Some) && match (i, init) {
            (Some(id), Some(x)) => mirrors(w, clean, id, x),
            (None, None) => true,
            _ => false,
        },
        StmtV::Assign { target, value, span: at } => h matches HirStmtV::Assign {
            target: p,
            value: v,
            span,
        } && span == at && mirrors_place(w, p, target) && mirrors(w, clean, v, value),
        StmtV::Expr { expr, has_semi, span: _ } => h matches HirStmtV::Expr {
            expr: x,
            has_semi: semi,
        } && semi == has_semi && mirrors(w, clean, x, expr),
        StmtV::Return { value, span: at } => h matches HirStmtV::Return { value: v, span } && span
            == at && match (v, value) {
            (Some(id), Some(x)) => mirrors(w, clean, id, x),
            (None, None) => true,
            _ => false,
        },
    }
}

// ---------- the arena at the end ----------

/// `w` holds what `st` holds, and fits the machine. Where it is clean,
/// nothing was reported beyond the first `n` reports.
#[verifier::opaque]
pub open spec fn under(st: LowerV, w: ArenaV, clean: bool, n: nat) -> bool {
    &&& st.exprs.len() <= w.exprs.len() && w.exprs.take(st.exprs.len() as int) == st.exprs
    &&& st.locals.len() <= w.locals.len() && w.locals.take(st.locals.len() as int) == st.locals
    &&& st.names.len() <= w.names.len() && w.names.take(st.names.len() as int) == st.names
    &&& st.diags.len() <= w.reports
    &&& w.exprs.len() <= usize::MAX
    &&& w.locals.len() <= usize::MAX
    &&& w.names.len() <= usize::MAX
    &&& clean ==> w.reports <= n
}

proof fn lemma_under(a: LowerV, b: LowerV, w: ArenaV, clean: bool, n: nat)
    requires
        keeps(a, b) || binds_inner(a, b),
        under(b, w, clean, n),
    ensures
        under(a, w, clean, n),
{
    reveal(under);
    reveal(keeps);
    reveal(binds_inner);
    assert(w.names.take(a.names.len() as int) =~= w.names.take(b.names.len() as int).take(
        a.names.len() as int,
    ));
    assert(w.exprs.take(a.exprs.len() as int) =~= w.exprs.take(b.exprs.len() as int).take(
        a.exprs.len() as int,
    ));
    assert(w.locals.take(a.locals.len() as int) =~= w.locals.take(b.locals.len() as int).take(
        a.locals.len() as int,
    ));
}

proof fn lemma_closed(a: LowerV, w: ArenaV, clean: bool, n: nat)
    ensures
        under(close_scope(a), w, clean, n) <==> under(a, w, clean, n),
        under(open_scope(a), w, clean, n) <==> under(a, w, clean, n),
{
    reveal(under);
}

proof fn lemma_placed(st: LowerV, kind: HirExprKindV, span: Span, w: ArenaV, clean: bool, n: nat)
    requires
        under(alloc_node(st, kind, span).0, w, clean, n),
    ensures
        under(st, w, clean, n),
        alloc_node(st, kind, span).1.raw < w.exprs.len(),
        w.exprs[alloc_node(st, kind, span).1.raw as int].kind == kind,
        w.exprs[alloc_node(st, kind, span).1.raw as int].span == span,
{
    lemma_alloc(st, kind, span);
    let out = alloc_node(st, kind, span).0;
    lemma_under(st, out, w, clean, n);
    reveal(under);
    let i = st.exprs.len() as int;
    assert(w.exprs.take(out.exprs.len() as int)[i] == out.exprs[i]);
}

proof fn lemma_poisoned(
    st: LowerV,
    d: DiagnosticV,
    span: Span,
    w: ArenaV,
    clean: bool,
    n: nat,
)
    requires
        under(poison(st, d, span).0, w, clean, n),
        n <= st.diags.len(),
    ensures
        under(st, w, clean, n),
        !clean,
        poison(st, d, span).1.raw < w.exprs.len(),
        w.exprs[poison(st, d, span).1.raw as int].kind == HirExprKindV::Poison,
        w.exprs[poison(st, d, span).1.raw as int].span == span,
{
    let s1 = report(st, d);
    lemma_placed(s1, HirExprKindV::Poison, span, w, clean, n);
    lemma_report(st, d);
    lemma_under(st, s1, w, clean, n);
    reveal(under);
}

proof fn lemma_interned(st: LowerV, name: Seq<char>, w: ArenaV, clean: bool, n: nat)
    requires
        under(intern_in(st, name).0, w, clean, n),
    ensures
        under(st, w, clean, n),
        intern_in(st, name).1.raw < w.names.len(),
        w.names[intern_in(st, name).1.raw as int] == name,
{
    lemma_intern(st, name);
    let (out, id) = intern_in(st, name);
    lemma_under(st, out, w, clean, n);
    reveal(under);
    crate::source::lemma_position(st.names, name);
    let i = match crate::source::position(st.names, name) {
        Some(i) => i,
        None => st.names.len() as int,
    };
    assert(out.names[i] == name);
    assert(w.names.take(out.names.len() as int)[i] == out.names[i]);
}

proof fn lemma_declared(
    cx: CtxV,
    st: LowerV,
    x: IdentV,
    kind: SymbolKind,
    mutable: bool,
    w: ArenaV,
    clean: bool,
    n: nat,
)
    requires
        under(declare(cx, st, x, kind, mutable).0, w, clean, n),
    ensures
        under(st, w, clean, n),
        declared(w, declare(cx, st, x, kind, mutable).1, x, kind, mutable),
{
    let (out, sym) = declare(cx, st, x, kind, mutable);
    lemma_declare(cx, st, x, kind, mutable);
    lemma_under(st, out, w, clean, n);
    reveal(declare);
    let (s1, id) = intern_in(st, x.name);
    assert(under(s1, w, clean, n)) by {
        reveal(under);
        assert(w.locals.take(s1.locals.len() as int) =~= w.locals.take(
            out.locals.len() as int,
        ).take(s1.locals.len() as int));
    }
    lemma_interned(st, x.name, w, clean, n);
    reveal(under);
    let i = s1.locals.len() as int;
    assert(w.locals.take(out.locals.len() as int)[i] == out.locals[i]);
}

proof fn lemma_reports(a: LowerV, b: LowerV)
    requires
        keeps(a, b) || binds_inner(a, b),
    ensures
        a.diags.len() <= b.diags.len(),
{
    reveal(keeps);
    reveal(binds_inner);
}

// ---------- names and paths ----------

/// A node that resolves a name, or is poisoned behind a report.
spec fn resolves(w: ArenaV, clean: bool, id: ExprId, span: Span) -> bool {
    &&& id.raw < w.exprs.len()
    &&& w.exprs[id.raw as int].span == span
    &&& w.exprs[id.raw as int].kind is Poison ==> !clean
}

spec fn arena_kind(w: ArenaV, id: ExprId) -> HirExprKindV {
    w.exprs[id.raw as int].kind
}

proof fn lemma_var_shape(
    cx: CtxV,
    st: LowerV,
    name: IdentV,
    span: Span,
    w: ArenaV,
    clean: bool,
    n: nat,
)
    requires
        under(lower_var(cx, st, name, span).0, w, clean, n),
        n <= st.diags.len(),
    ensures
        resolves(w, clean, lower_var(cx, st, name, span).1, span),
        arena_kind(w, lower_var(cx, st, name, span).1) is Var || arena_kind(
            w,
            lower_var(cx, st, name, span).1,
        ) is Poison,
{
    reveal(lower_var);
    let (s1, id) = intern_in(st, name.name);
    match lookup(s1.scopes, id) {
        Some(sym) => {
            lemma_placed(s1, HirExprKindV::Var(sym), span, w, clean, n);
        },
        None => {
            let d = crate::hir_lower::unknown_binding(name, crate::hir_lower::describe(cx, id));
            lemma_poisoned(s1, d, span, w, clean, n);
        },
    }
}

proof fn lemma_variant_shape(
    cx: CtxV,
    st: LowerV,
    p: PathV,
    args: Seq<ExprId>,
    e: PathErr,
    what: Seq<char>,
    span: Span,
    w: ArenaV,
    clean: bool,
    n: nat,
)
    requires
        under(variant_or(cx, st, p, args, e, what, span).0, w, clean, n),
        n <= st.diags.len(),
    ensures
        ({
            let id = variant_or(cx, st, p, args, e, what, span).1;
            &&& resolves(w, clean, id, span)
            &&& match arena_kind(w, id) {
                HirExprKindV::VariantLit { def, variant, args: ids } => ids == args,
                HirExprKindV::Poison => true,
                _ => false,
            }
        }),
{
    reveal(variant_or);
    let (s1, found) = variant_of(cx, st, p);
    lemma_variant_of(cx, st, p);
    lemma_reports(st, s1);
    match found {
        Ok((def, variant)) => {
            lemma_placed(s1, HirExprKindV::VariantLit { def, variant, args }, span, w, clean, n);
        },
        Err(crate::hir_lower::VariantErr::NotVariant(d)) => {
            let diag = crate::hir_lower::variant_diag(
                cx,
                s1,
                p,
                crate::hir_lower::VariantErr::NotVariant(d),
            );
            lemma_poisoned(s1, diag, span, w, clean, n);
        },
        Err(_) => {
            let diag = crate::hir_lower::path_diag(
                p,
                e,
                what,
                crate::code::Code::UnknownSymbol,
            );
            lemma_poisoned(s1, diag, span, w, clean, n);
        },
    }
}

proof fn lemma_callee_shape(
    cx: CtxV,
    st: LowerV,
    callee: PathV,
    args: Seq<ExprId>,
    span: Span,
    w: ArenaV,
    clean: bool,
    n: nat,
)
    requires
        under(lower_callee(cx, st, callee, args, span).0, w, clean, n),
        n <= st.diags.len(),
    ensures
        ({
            let id = lower_callee(cx, st, callee, args, span).1;
            &&& resolves(w, clean, id, span)
            &&& match arena_kind(w, id) {
                HirExprKindV::Call { def, args: ids } => ids == args,
                HirExprKindV::VariantLit { def, variant, args: ids } => ids == args,
                HirExprKindV::Poison => true,
                _ => false,
            }
        }),
{
    reveal(lower_callee);
    let (s1, found) = path_def(cx, st, callee);
    lemma_path_def(cx, st, callee);
    lemma_reports(st, s1);
    match found {
        Ok(d) => if crate::hir::sig_of(cx.scope, d) is Some {
            lemma_placed(s1, HirExprKindV::Call { def: d, args }, span, w, clean, n);
        } else {
            let diag = crate::hir_lower::not_a_function(
                callee,
                crate::code::Code::NotCallable,
            );
            lemma_poisoned(s1, diag, span, w, clean, n);
        },
        Err(e) => if e == PathErr::NotFound && callee.segs.len() == 1 {
            let (s2, id) = intern_in(s1, callee.segs[0].name);
            let code = if lookup(s2.scopes, id) is Some {
                crate::code::Code::NotCallable
            } else {
                crate::code::Code::UnknownSymbol
            };
            lemma_poisoned(
                s2,
                crate::hir_lower::not_a_function(callee, code),
                span,
                w,
                clean,
                n,
            );
        } else {
            lemma_variant_shape(cx, s1, callee, args, e, "function"@, span, w, clean, n);
        },
    }
}

proof fn lemma_path_shape(
    cx: CtxV,
    st: LowerV,
    p: PathV,
    span: Span,
    w: ArenaV,
    clean: bool,
    n: nat,
)
    requires
        under(lower_path(cx, st, p, span).0, w, clean, n),
        n <= st.diags.len(),
    ensures
        ({
            let id = lower_path(cx, st, p, span).1;
            &&& resolves(w, clean, id, span)
            &&& match arena_kind(w, id) {
                HirExprKindV::VariantLit { def, variant, args } => args.len() == 0,
                HirExprKindV::Poison => true,
                _ => false,
            }
        }),
{
    reveal(lower_path);
    let (s1, found) = path_def(cx, st, p);
    lemma_path_def(cx, st, p);
    lemma_reports(st, s1);
    match found {
        Ok(d) => {
            let what = if crate::hir::sig_of(cx.scope, d) is Some {
                "a function"@
            } else {
                "a type"@
            };
            lemma_poisoned(s1, crate::hir_lower::not_a_value(p, what), span, w, clean, n);
        },
        Err(e) => {
            lemma_variant_shape(cx, s1, p, Seq::empty(), e, "symbol"@, span, w, clean, n);
        },
    }
}

proof fn lemma_struct_shape(
    cx: CtxV,
    st: LowerV,
    name: PathV,
    fields: Seq<(Name, ExprId)>,
    span: Span,
    w: ArenaV,
    clean: bool,
    n: nat,
)
    requires
        under(lower_struct(cx, st, name, fields, span).0, w, clean, n),
        n <= st.diags.len(),
    ensures
        ({
            let id = lower_struct(cx, st, name, fields, span).1;
            &&& resolves(w, clean, id, span)
            &&& match arena_kind(w, id) {
                HirExprKindV::StructLit { def, fields: fs } => fs == fields,
                HirExprKindV::Poison => true,
                _ => false,
            }
        }),
{
    reveal(lower_struct);
    let (s1, found) = path_def(cx, st, name);
    lemma_path_def(cx, st, name);
    lemma_reports(st, s1);
    match found {
        Ok(d) => if crate::hir::shape_of(cx.scope, d) is Some {
            lemma_placed(s1, HirExprKindV::StructLit { def: d, fields }, span, w, clean, n);
        } else {
            lemma_poisoned(s1, crate::hir_lower::not_a_type(name), span, w, clean, n);
        },
        Err(e) => {
            let diag = crate::hir_lower::path_diag(
                name,
                e,
                "type"@,
                crate::code::Code::UnknownType,
            );
            lemma_poisoned(s1, diag, span, w, clean, n);
        },
    }
}

// ---------- patterns and places ----------

proof fn lemma_binds_shape(
    cx: CtxV,
    st: LowerV,
    binds: Seq<IdentV>,
    w: ArenaV,
    clean: bool,
    n: nat,
)
    requires
        under(lower_binds(cx, st, binds).0, w, clean, n),
    ensures
        lower_binds(cx, st, binds).1.len() == binds.len(),
        forall|i: int|
            0 <= i < binds.len() ==> binding(
                w,
                #[trigger] lower_binds(cx, st, binds).1[i],
                binds[i],
            ),
    decreases binds.len(),
{
    if binds.len() > 0 {
        let front = binds.drop_last();
        let (s1, done) = lower_binds(cx, st, front);
        let out = lower_binds(cx, st, binds).1;
        if binds.last().name != "_"@ {
            lemma_declared(cx, s1, binds.last(), SymbolKind::Local, false, w, clean, n);
        }
        lemma_binds_shape(cx, st, front, w, clean, n);
        assert forall|i: int| 0 <= i < binds.len() implies binding(
            w,
            #[trigger] out[i],
            binds[i],
        ) by {
            if i < front.len() {
                assert(out[i] == done[i]);
                assert(front[i] == binds[i]);
            }
        }
    }
}

proof fn lemma_pattern_shape(
    cx: CtxV,
    st: LowerV,
    p: PatternV,
    w: ArenaV,
    clean: bool,
    n: nat,
)
    requires
        under(lower_pattern(cx, st, p).0, w, clean, n),
        n <= st.diags.len(),
    ensures
        mirrors_pattern(w, clean, lower_pattern(cx, st, p).1, p),
{
    reveal(lower_pattern);
    match p {
        PatternV::Bind { name } => {
            if name.name != "_"@ {
                lemma_declared(cx, st, name, SymbolKind::Local, false, w, clean, n);
            }
        },
        PatternV::Variant { path, binds, span } => {
            let (s1, found) = variant_of(cx, st, path);
            lemma_variant_of(cx, st, path);
            lemma_reports(st, s1);
            match found {
                Ok((def, variant)) => {
                    lemma_binds_shape(cx, s1, binds, w, clean, n);
                },
                Err(e) => {
                    reveal(under);
                },
            }
        },
    }
}

proof fn lemma_names_shape(st: LowerV, v: Seq<IdentV>, w: ArenaV, clean: bool, n: nat)
    requires
        under(lower_names(st, v).0, w, clean, n),
    ensures
        all_named(w, lower_names(st, v).1, v),
    decreases v.len(),
{
    if v.len() > 0 {
        let front = v.drop_last();
        let (s1, done) = lower_names(st, front);
        let out = lower_names(st, v).1;
        lemma_interned(s1, v.last().name, w, clean, n);
        lemma_names_shape(st, front, w, clean, n);
        assert forall|i: int| 0 <= i < v.len() implies named(w, #[trigger] out[i], v[i]) by {
            if i < front.len() {
                assert(out[i] == done[i]);
                assert(front[i] == v[i]);
            }
        }
    }
}

proof fn lemma_place_shape(st: LowerV, p: PlaceV, w: ArenaV, clean: bool, n: nat)
    requires
        under(lower_place(st, p).0, w, clean, n),
        n <= st.diags.len(),
    ensures
        match lower_place(st, p).1 {
            Some(h) => mirrors_place(w, h, p),
            None => !clean,
        },
{
    reveal(lower_place);
    let (s1, id) = intern_in(st, p.base.name);
    match lookup(s1.scopes, id) {
        Some(base) => {
            lemma_names_shape(s1, p.fields, w, clean, n);
        },
        None => {
            reveal(under);
        },
    }
}

// ---------- expressions ----------

/// What lowering an expression yields, where there is one.
spec fn opt_lowered(cx: CtxV, st: LowerV, e: Option<Box<ExprV>>) -> (LowerV, Option<ExprId>) {
    match e {
        Some(x) => {
            let (s, id) = lower_expr(cx, st, *x);
            (s, Some(id))
        },
        None => (st, None),
    }
}

proof fn lemma_opt_keeps(cx: CtxV, st: LowerV, e: Option<Box<ExprV>>)
    ensures
        keeps(st, opt_lowered(cx, st, e).0),
{
    lemma_refl(st);
    if let Some(x) = e {
        law_lowering_keeps_scopes(cx, st, *x);
    }
}

proof fn lemma_opt_shape(
    cx: CtxV,
    st: LowerV,
    e: Option<Box<ExprV>>,
    w: ArenaV,
    clean: bool,
    n: nat,
)
    requires
        under(opt_lowered(cx, st, e).0, w, clean, n),
        n <= st.diags.len(),
    ensures
        mirrors_opt(w, clean, opt_lowered(cx, st, e).1, e),
        under(st, w, clean, n),
    decreases e,
{
    match e {
        Some(x) => {
            lemma_expr_shape(cx, st, *x, w, clean, n);
        },
        None => {},
    }
}

#[verifier::spinoff_prover]
proof fn lemma_expr_shape(cx: CtxV, st: LowerV, e: ExprV, w: ArenaV, clean: bool, n: nat)
    requires
        under(lower_expr(cx, st, e).0, w, clean, n),
        n <= st.diags.len(),
    ensures
        mirrors(w, clean, lower_expr(cx, st, e).1, e),
        under(st, w, clean, n),
        n <= lower_expr(cx, st, e).0.diags.len(),
    decreases e,
{
    let (out, id) = lower_expr(cx, st, e);
    law_lowering_keeps_scopes(cx, st, e);
    lemma_under(st, out, w, clean, n);
    lemma_reports(st, out);
    match e {
        ExprV::Literal { value, span } => {
            lemma_placed(st, HirExprKindV::Literal(value), span, w, clean, n);
        },
        ExprV::Var { name } => {
            lemma_var_shape(cx, st, name, name.span, w, clean, n);
        },
        ExprV::Call { callee, args, span } => {
            let (s1, ids) = lower_exprs(cx, st, args);
            lemma_exprs(cx, st, args);
            lemma_reports(st, s1);
            lemma_callee(cx, s1, callee, ids, span);
            lemma_under(s1, out, w, clean, n);
            lemma_callee_shape(cx, s1, callee, ids, span, w, clean, n);
            lemma_exprs_shape(cx, st, args, w, clean, n);
        },
        ExprV::Path { path } => {
            lemma_path_shape(cx, st, path, path.span, w, clean, n);
        },
        ExprV::Field { base, name, span } => {
            let (s1, b) = lower_expr(cx, st, *base);
            let (s2, x) = intern_in(s1, name.name);
            let kind = HirExprKindV::Field {
                base: b,
                name: Name { id: x, span: name.span },
                field: None,
            };
            lemma_placed(s2, kind, span, w, clean, n);
            lemma_interned(s1, name.name, w, clean, n);
            lemma_expr_shape(cx, st, *base, w, clean, n);
        },
        ExprV::Index { base, index, span } => {
            let (s1, b) = lower_expr(cx, st, *base);
            let (s2, i) = lower_expr(cx, s1, *index);
            law_lowering_keeps_scopes(cx, st, *base);
            lemma_reports(st, s1);
            lemma_placed(s2, HirExprKindV::Index { base: b, index: i }, span, w, clean, n);
            lemma_expr_shape(cx, s1, *index, w, clean, n);
            lemma_expr_shape(cx, st, *base, w, clean, n);
        },
        ExprV::Slice { base, lo, hi, span } => {
            let (s1, b) = lower_expr(cx, st, *base);
            law_lowering_keeps_scopes(cx, st, *base);
            lemma_reports(st, s1);
            let (s2, l) = opt_lowered(cx, s1, lo);
            lemma_opt_keeps(cx, s1, lo);
            lemma_reports(s1, s2);
            let (s3, h) = opt_lowered(cx, s2, hi);
            lemma_placed(s3, HirExprKindV::Slice { base: b, lo: l, hi: h }, span, w, clean, n);
            lemma_opt_shape(cx, s2, hi, w, clean, n);
            lemma_opt_shape(cx, s1, lo, w, clean, n);
            lemma_expr_shape(cx, st, *base, w, clean, n);
        },
        ExprV::ArrayLit { elems, span } => {
            let (s1, ids) = lower_exprs(cx, st, elems);
            lemma_placed(s1, HirExprKindV::ArrayLit { elems: ids }, span, w, clean, n);
            lemma_exprs_shape(cx, st, elems, w, clean, n);
        },
        ExprV::Range { lo, hi, span } => {
            let (s1, l) = opt_lowered(cx, st, lo);
            lemma_opt_keeps(cx, st, lo);
            lemma_reports(st, s1);
            let (s2, h) = opt_lowered(cx, s1, hi);
            lemma_placed(s2, HirExprKindV::Range { lo: l, hi: h }, span, w, clean, n);
            lemma_opt_shape(cx, s1, hi, w, clean, n);
            lemma_opt_shape(cx, st, lo, w, clean, n);
        },
        ExprV::For { var, mutable, iter, body, span } => {
            let (s1, i) = lower_expr(cx, st, *iter);
            let (s2, v) = declare(cx, open_scope(s1), var, SymbolKind::Local, mutable);
            let (s3, b) = lower_block(cx, s2, body);
            law_lowering_keeps_scopes(cx, st, *iter);
            lemma_reports(st, s1);
            lemma_declare(cx, open_scope(s1), var, SymbolKind::Local, mutable);
            lemma_reports(open_scope(s1), s2);
            lemma_placed(
                close_scope(s3),
                HirExprKindV::For { var: v, iter: i, body: b },
                span,
                w,
                clean,
                n,
            );
            lemma_closed(s3, w, clean, n);
            lemma_block_shape(cx, s2, body, w, clean, n);
            lemma_declared(cx, open_scope(s1), var, SymbolKind::Local, mutable, w, clean, n);
            lemma_closed(s1, w, clean, n);
            lemma_expr_shape(cx, st, *iter, w, clean, n);
        },
        ExprV::Match { scrutinee, arms, span } => {
            let (s1, s) = lower_expr(cx, st, *scrutinee);
            let (s2, hs) = lower_arms(cx, s1, arms);
            law_lowering_keeps_scopes(cx, st, *scrutinee);
            lemma_reports(st, s1);
            lemma_placed(s2, HirExprKindV::Match { scrutinee: s, arms: hs }, span, w, clean, n);
            lemma_arms_shape(cx, s1, arms, w, clean, n);
            lemma_expr_shape(cx, st, *scrutinee, w, clean, n);
        },
        ExprV::Binary { op, lhs, rhs, span } => {
            let (s1, l) = lower_expr(cx, st, *lhs);
            let (s2, r) = lower_expr(cx, s1, *rhs);
            law_lowering_keeps_scopes(cx, st, *lhs);
            lemma_reports(st, s1);
            lemma_placed(s2, HirExprKindV::Binary { op, lhs: l, rhs: r }, span, w, clean, n);
            lemma_expr_shape(cx, s1, *rhs, w, clean, n);
            lemma_expr_shape(cx, st, *lhs, w, clean, n);
        },
        ExprV::Unary { op, expr, span } => {
            let (s1, i) = lower_expr(cx, st, *expr);
            lemma_placed(s1, HirExprKindV::Unary { op, expr: i }, span, w, clean, n);
            lemma_expr_shape(cx, st, *expr, w, clean, n);
        },
        ExprV::If { cond, then_, else_, span } => {
            let (s1, c) = lower_expr(cx, st, *cond);
            law_lowering_keeps_scopes(cx, st, *cond);
            lemma_reports(st, s1);
            let (s2, t) = lower_block(cx, s1, then_);
            lemma_block(cx, s1, then_);
            lemma_reports(s1, s2);
            let (s3, f) = opt_lowered(cx, s2, else_);
            lemma_placed(s3, HirExprKindV::If { cond: c, then_: t, else_: f }, span, w, clean, n);
            lemma_opt_shape(cx, s2, else_, w, clean, n);
            lemma_block_shape(cx, s1, then_, w, clean, n);
            lemma_expr_shape(cx, st, *cond, w, clean, n);
        },
        ExprV::Block { block, span } => {
            lemma_block_shape(cx, st, block, w, clean, n);
        },
        ExprV::StructLit { name, fields, span } => {
            let (s1, fs) = lower_inits(cx, st, fields);
            lemma_inits(cx, st, fields);
            lemma_reports(st, s1);
            lemma_struct(cx, s1, name, fs, span);
            lemma_under(s1, out, w, clean, n);
            lemma_struct_shape(cx, s1, name, fs, span, w, clean, n);
            lemma_inits_shape(cx, st, fields, w, clean, n);
        },
        ExprV::Error { span } => {
            lemma_placed(st, HirExprKindV::Poison, span, w, clean, n);
        },
    }
}

proof fn lemma_exprs_shape(
    cx: CtxV,
    st: LowerV,
    es: Seq<ExprV>,
    w: ArenaV,
    clean: bool,
    n: nat,
)
    requires
        under(lower_exprs(cx, st, es).0, w, clean, n),
        n <= st.diags.len(),
    ensures
        mirrors_all(w, clean, lower_exprs(cx, st, es).1, es),
        under(st, w, clean, n),
    decreases es,
{
    if es.len() > 0 {
        let (s1, ids) = lower_exprs(cx, st, es.drop_last());
        let (s2, id) = lower_expr(cx, s1, es.last());
        lemma_exprs(cx, st, es.drop_last());
        lemma_reports(st, s1);
        lemma_expr_shape(cx, s1, es.last(), w, clean, n);
        lemma_exprs_shape(cx, st, es.drop_last(), w, clean, n);
        assert(ids.push(id).drop_last() =~= ids);
    }
}

proof fn lemma_inits_shape(
    cx: CtxV,
    st: LowerV,
    fs: Seq<FieldInitV>,
    w: ArenaV,
    clean: bool,
    n: nat,
)
    requires
        under(lower_inits(cx, st, fs).0, w, clean, n),
        n <= st.diags.len(),
    ensures
        mirrors_inits(w, clean, lower_inits(cx, st, fs).1, fs),
        under(st, w, clean, n),
    decreases fs,
{
    if fs.len() > 0 {
        let (s1, done) = lower_inits(cx, st, fs.drop_last());
        let f = fs.last();
        let (s2, x) = intern_in(s1, f.name.name);
        let (s3, v) = lower_expr(cx, s2, f.value);
        lemma_inits(cx, st, fs.drop_last());
        lemma_reports(st, s1);
        lemma_expr_shape(cx, s2, f.value, w, clean, n);
        lemma_interned(s1, f.name.name, w, clean, n);
        lemma_inits_shape(cx, st, fs.drop_last(), w, clean, n);
        assert(done.push((Name { id: x, span: f.name.span }, v)).drop_last() =~= done);
    }
}

proof fn lemma_arms_shape(
    cx: CtxV,
    st: LowerV,
    arms: Seq<MatchArmV>,
    w: ArenaV,
    clean: bool,
    n: nat,
)
    requires
        under(lower_arms(cx, st, arms).0, w, clean, n),
        n <= st.diags.len(),
    ensures
        mirrors_arms(w, clean, lower_arms(cx, st, arms).1, arms),
        under(st, w, clean, n),
    decreases arms,
{
    if arms.len() > 0 {
        let (s1, done) = lower_arms(cx, st, arms.drop_last());
        let a = arms.last();
        let (s2, pat) = lower_pattern(cx, open_scope(s1), a.pat);
        let (s3, body) = lower_expr(cx, s2, a.body);
        lemma_arms(cx, st, arms.drop_last());
        lemma_reports(st, s1);
        lemma_pattern(cx, open_scope(s1), a.pat);
        lemma_reports(open_scope(s1), s2);
        lemma_closed(s3, w, clean, n);
        lemma_expr_shape(cx, s2, a.body, w, clean, n);
        lemma_pattern_shape(cx, open_scope(s1), a.pat, w, clean, n);
        lemma_under(open_scope(s1), s2, w, clean, n);
        lemma_closed(s1, w, clean, n);
        lemma_arms_shape(cx, st, arms.drop_last(), w, clean, n);
        assert(done.push(HirArmV { pat, body, span: a.span }).drop_last() =~= done);
    }
}

proof fn lemma_block_shape(cx: CtxV, st: LowerV, b: BlockV, w: ArenaV, clean: bool, n: nat)
    requires
        under(lower_block(cx, st, b).0, w, clean, n),
        n <= st.diags.len(),
    ensures
        mirrors_block(w, clean, lower_block(cx, st, b).1, b),
        under(st, w, clean, n),
    decreases b,
{
    let (s1, stmts) = lower_stmts(cx, open_scope(st), b.stmts);
    let (s2, tail) = opt_lowered(cx, s1, b.tail);
    lemma_stmts(cx, open_scope(st), b.stmts);
    lemma_reports(open_scope(st), s1);
    lemma_placed(
        close_scope(s2),
        HirExprKindV::Block { stmts, tail },
        b.span,
        w,
        clean,
        n,
    );
    lemma_closed(s2, w, clean, n);
    lemma_opt_shape(cx, s1, b.tail, w, clean, n);
    lemma_stmts_shape(cx, open_scope(st), b.stmts, w, clean, n);
    lemma_closed(st, w, clean, n);
}

proof fn lemma_stmts_shape(
    cx: CtxV,
    st: LowerV,
    ss: Seq<StmtV>,
    w: ArenaV,
    clean: bool,
    n: nat,
)
    requires
        under(lower_stmts(cx, st, ss).0, w, clean, n),
        n <= st.diags.len(),
    ensures
        mirrors_stmts(w, clean, lower_stmts(cx, st, ss).1, ss),
        under(st, w, clean, n),
    decreases ss,
{
    if ss.len() > 0 {
        let (s1, done) = lower_stmts(cx, st, ss.drop_last());
        let (s2, stmt) = lower_stmt(cx, s1, ss.last());
        lemma_stmts(cx, st, ss.drop_last());
        lemma_reports(st, s1);
        lemma_stmt_shape(cx, s1, ss.last(), w, clean, n);
        reveal(stmt_mirrored);
        lemma_stmts_shape(cx, st, ss.drop_last(), w, clean, n);
        if let Some(x) = stmt {
            assert(done.push(x).drop_last() =~= done);
        }
    }
}

proof fn lemma_let_parts(
    cx: CtxV,
    st: LowerV,
    name: IdentV,
    mutable: bool,
    ty: Option<TypeExprV>,
    init: Option<ExprV>,
    span: Span,
    w: ArenaV,
    clean: bool,
    n: nat,
)
    requires
        under(
            lower_stmt(cx, st, StmtV::Let { name, mutable, ty, init, span }).0,
            w,
            clean,
            n,
        ),
    ensures
        under(
            match init {
                Some(x) => lower_expr(cx, st, x).0,
                None => st,
            },
            w,
            clean,
            n,
        ),
        lower_stmt(cx, st, StmtV::Let { name, mutable, ty, init, span }).1 matches Some(
            HirStmtV::Let { symbol, ty: t, init: i, span: at },
        ) && at == span && declared(w, symbol, name, SymbolKind::Local, mutable) && (t is Some
            <==> ty is Some) && i == (match init {
            Some(x) => Some(lower_expr(cx, st, x).1),
            None => None,
        }),
{
    let s1 = match init {
        Some(x) => lower_expr(cx, st, x).0,
        None => st,
    };
    let s2 = match ty {
        Some(x) => lower_type(cx, s1, x).0,
        None => s1,
    };
    lemma_declared(cx, s2, name, SymbolKind::Local, mutable, w, clean, n);
    if let Some(x) = ty {
        lemma_type(cx, s1, x);
        lemma_under(s1, s2, w, clean, n);
    }
}

proof fn lemma_assign_parts(
    cx: CtxV,
    st: LowerV,
    target: PlaceV,
    value: ExprV,
    span: Span,
    w: ArenaV,
    clean: bool,
    n: nat,
)
    requires
        under(lower_stmt(cx, st, StmtV::Assign { target, value, span }).0, w, clean, n),
        n <= st.diags.len(),
    ensures
        under(lower_expr(cx, st, value).0, w, clean, n),
        match lower_stmt(cx, st, StmtV::Assign { target, value, span }).1 {
            Some(h) => h matches HirStmtV::Assign { target: p, value: v, span: at } && at == span
                && mirrors_place(w, p, target) && v == lower_expr(cx, st, value).1,
            None => !clean,
        },
{
    let (s1, v) = lower_expr(cx, st, value);
    law_lowering_keeps_scopes(cx, st, value);
    lemma_reports(st, s1);
    lemma_place(s1, target);
    lemma_under(s1, lower_place(s1, target).0, w, clean, n);
    lemma_place_shape(s1, target, w, clean, n);
}

/// What a statement lowers to stands for it, or drops out behind a
/// report.
#[verifier::opaque]
spec fn stmt_mirrored(cx: CtxV, st: LowerV, s: StmtV, w: ArenaV, clean: bool) -> bool {
    match lower_stmt(cx, st, s).1 {
        Some(h) => mirrors_stmt(w, clean, h, s),
        None => !clean && s is Assign,
    }
}

proof fn lemma_let_mirrored(
    cx: CtxV,
    st: LowerV,
    name: IdentV,
    mutable: bool,
    ty: Option<TypeExprV>,
    init: Option<ExprV>,
    span: Span,
    w: ArenaV,
    clean: bool,
    n: nat,
)
    requires
        under(
            lower_stmt(cx, st, StmtV::Let { name, mutable, ty, init, span }).0,
            w,
            clean,
            n,
        ),
        init matches Some(x) ==> mirrors(w, clean, lower_expr(cx, st, x).1, x),
    ensures
        stmt_mirrored(cx, st, StmtV::Let { name, mutable, ty, init, span }, w, clean),
{
    reveal(stmt_mirrored);
    lemma_let_parts(cx, st, name, mutable, ty, init, span, w, clean, n);
}

proof fn lemma_assign_mirrored(
    cx: CtxV,
    st: LowerV,
    target: PlaceV,
    value: ExprV,
    span: Span,
    w: ArenaV,
    clean: bool,
    n: nat,
)
    requires
        under(lower_stmt(cx, st, StmtV::Assign { target, value, span }).0, w, clean, n),
        n <= st.diags.len(),
        mirrors(w, clean, lower_expr(cx, st, value).1, value),
    ensures
        stmt_mirrored(cx, st, StmtV::Assign { target, value, span }, w, clean),
{
    reveal(stmt_mirrored);
    lemma_assign_parts(cx, st, target, value, span, w, clean, n);
}

proof fn lemma_expr_stmt_mirrored(
    cx: CtxV,
    st: LowerV,
    expr: ExprV,
    has_semi: bool,
    span: Span,
    w: ArenaV,
    clean: bool,
)
    requires
        mirrors(w, clean, lower_expr(cx, st, expr).1, expr),
    ensures
        stmt_mirrored(cx, st, StmtV::Expr { expr, has_semi, span }, w, clean),
        lower_stmt(cx, st, StmtV::Expr { expr, has_semi, span }).0 == lower_expr(cx, st, expr).0,
{
    reveal(stmt_mirrored);
}

proof fn lemma_return_mirrored(
    cx: CtxV,
    st: LowerV,
    value: Option<ExprV>,
    span: Span,
    w: ArenaV,
    clean: bool,
)
    requires
        value matches Some(x) ==> mirrors(w, clean, lower_expr(cx, st, x).1, x),
    ensures
        stmt_mirrored(cx, st, StmtV::Return { value, span }, w, clean),
{
    reveal(stmt_mirrored);
}

proof fn lemma_stmt_start(cx: CtxV, st: LowerV, s: StmtV, w: ArenaV, clean: bool, n: nat)
    requires
        under(lower_stmt(cx, st, s).0, w, clean, n),
    ensures
        under(st, w, clean, n),
{
    lemma_stmt(cx, st, s);
    lemma_under(st, lower_stmt(cx, st, s).0, w, clean, n);
}

/// What lowering a value yields, where there is one.
spec fn value_lowered(cx: CtxV, st: LowerV, e: Option<ExprV>) -> LowerV {
    match e {
        Some(x) => lower_expr(cx, st, x).0,
        None => st,
    }
}

/// A value, where there is one, is mirrored.
spec fn value_mirrored(cx: CtxV, st: LowerV, e: Option<ExprV>, w: ArenaV, clean: bool) -> bool {
    e matches Some(x) ==> mirrors(w, clean, lower_expr(cx, st, x).1, x)
}

/// The value a statement starts with.
spec fn stmt_value(s: StmtV) -> Option<ExprV> {
    match s {
        StmtV::Let { name, mutable, ty, init, span } => init,
        StmtV::Assign { target, value, span } => Some(value),
        StmtV::Expr { expr, has_semi, span } => Some(expr),
        StmtV::Return { value, span } => value,
    }
}

#[verifier::spinoff_prover]
proof fn lemma_stmt_value(cx: CtxV, st: LowerV, s: StmtV, w: ArenaV, clean: bool, n: nat)
    requires
        under(lower_stmt(cx, st, s).0, w, clean, n),
        n <= st.diags.len(),
    ensures
        under(value_lowered(cx, st, stmt_value(s)), w, clean, n),
{
    match s {
        StmtV::Let { name, mutable, ty, init, span } => {
            lemma_let_parts(cx, st, name, mutable, ty, init, span, w, clean, n);
        },
        StmtV::Assign { target, value, span } => {
            lemma_assign_parts(cx, st, target, value, span, w, clean, n);
        },
        StmtV::Expr { expr, has_semi, span } => {},
        StmtV::Return { value, span } => {},
    }
}

#[verifier::spinoff_prover]
proof fn lemma_stmt_mirrored(cx: CtxV, st: LowerV, s: StmtV, w: ArenaV, clean: bool, n: nat)
    requires
        under(lower_stmt(cx, st, s).0, w, clean, n),
        n <= st.diags.len(),
        value_mirrored(cx, st, stmt_value(s), w, clean),
    ensures
        stmt_mirrored(cx, st, s, w, clean),
{
    match s {
        StmtV::Let { name, mutable, ty, init, span } => {
            lemma_let_mirrored(cx, st, name, mutable, ty, init, span, w, clean, n);
        },
        StmtV::Assign { target, value, span } => {
            lemma_assign_mirrored(cx, st, target, value, span, w, clean, n);
        },
        StmtV::Expr { expr, has_semi, span } => {
            lemma_expr_stmt_mirrored(cx, st, expr, has_semi, span, w, clean);
        },
        StmtV::Return { value, span } => {
            lemma_return_mirrored(cx, st, value, span, w, clean);
        },
    }
}

proof fn lemma_stmt_shape(cx: CtxV, st: LowerV, s: StmtV, w: ArenaV, clean: bool, n: nat)
    requires
        under(lower_stmt(cx, st, s).0, w, clean, n),
        n <= st.diags.len(),
    ensures
        stmt_mirrored(cx, st, s, w, clean),
        under(st, w, clean, n),
    decreases s,
{
    lemma_stmt_start(cx, st, s, w, clean, n);
    lemma_stmt_value(cx, st, s, w, clean, n);
    let v = stmt_value(s);
    match v {
        Some(x) => {
            assert(decreases_to!(s => x));
            lemma_expr_shape(cx, st, x, w, clean, n);
        },
        None => {},
    }
    lemma_stmt_mirrored(cx, st, s, w, clean, n);
}

// ---------- a whole body ----------

/// What a state holds.
pub open spec fn arena(st: LowerV) -> ArenaV {
    ArenaV { exprs: st.exprs, locals: st.locals, names: st.names, reports: st.diags.len() }
}

/// A state fits the machine.
pub open spec fn fits(w: ArenaV) -> bool {
    w.exprs.len() <= usize::MAX && w.locals.len() <= usize::MAX && w.names.len() <= usize::MAX
}

proof fn lemma_arena(st: LowerV, n: nat)
    requires
        fits(arena(st)),
    ensures
        under(st, arena(st), st.diags.len() <= n, n),
{
    reveal(under);
    assert(st.exprs.take(st.exprs.len() as int) =~= st.exprs);
    assert(st.locals.take(st.locals.len() as int) =~= st.locals);
    assert(st.names.take(st.names.len() as int) =~= st.names);
}

proof fn lemma_params_shape(
    cx: CtxV,
    st: LowerV,
    ps: Seq<ParamV>,
    w: ArenaV,
    clean: bool,
    n: nat,
)
    requires
        under(lower_params(cx, st, ps), w, clean, n),
        st.locals.len() == 0,
    ensures
        lower_params(cx, st, ps).locals.len() == ps.len(),
        forall|i: int|
            0 <= i < ps.len() ==> declared(
                w,
                SymbolId::Local(i as usize),
                (#[trigger] ps[i]).name,
                SymbolKind::Param,
                ps[i].mutable,
            ),
    decreases ps.len(),
{
    if ps.len() > 0 {
        let front = ps.drop_last();
        let s1 = lower_params(cx, st, front);
        let p = ps.last();
        lemma_declared(cx, s1, p.name, SymbolKind::Param, p.mutable, w, clean, n);
        lemma_params_shape(cx, st, front, w, clean, n);
        reveal(declare);
        assert forall|i: int| 0 <= i < ps.len() implies declared(
            w,
            SymbolId::Local(i as usize),
            (#[trigger] ps[i]).name,
            SymbolKind::Param,
            ps[i].mutable,
        ) by {
            if i < front.len() {
                assert(front[i] == ps[i]);
            }
        }
    }
}

/// The body of a function mirrors the function. Its parameters are the
/// first locals, in order. Its root stands for the function's block:
/// every statement and every expression of it, however deep, has the node
/// that stands for it in its place, with its span, its operator or value,
/// and its parts in their order. When nothing was reported, no node is
/// poisoned that was not already unreadable, and no statement drops out.
pub proof fn law_lowered_body_mirrors_source(
    f: FnDeclV,
    def: DefId,
    scope: ModuleScopeV,
    names: Seq<Seq<char>>,
    ds: Seq<DiagnosticV>,
    stamp: Option<FileId>,
)
    requires
        ({
            let out = lowered(f, def, scope, names, ds, stamp);
            out.0.exprs.len() <= usize::MAX && out.0.local_symbols.len() <= usize::MAX
                && out.1.len() <= usize::MAX
        }),
    ensures
        ({
            let out = lowered(f, def, scope, names, ds, stamp);
            let w = ArenaV {
                exprs: out.0.exprs,
                locals: out.0.local_symbols,
                names: out.1,
                reports: out.2.len(),
            };
            &&& mirrors_block(w, out.2.len() == ds.len(), out.0.root, f.body)
            &&& forall|i: int|
                0 <= i < f.params.len() ==> declared(
                    w,
                    SymbolId::Local(i as usize),
                    (#[trigger] f.params[i]).name,
                    SymbolKind::Param,
                    f.params[i].mutable,
                )
        }),
{
    let cx = ctx_of(scope, def);
    let st = lower_start(names, ds, stamp);
    let (end, root) = lower_run(cx, st, f);
    let w = arena(end);
    let s1 = lower_params(cx, st, f.params);
    lemma_params(cx, st, f.params);
    lemma_reports(st, s1);
    lemma_block(cx, s1, f.body);
    lemma_reports(s1, end);
    lemma_arena(end, ds.len());
    let clean = end.diags.len() <= ds.len();
    lemma_block_shape(cx, s1, f.body, w, clean, ds.len());
    lemma_params_shape(cx, st, f.params, w, clean, ds.len());
}

/// A lowered expression mirrors the expression, wherever in a body it
/// stands.
pub proof fn law_lowered_expr_mirrors_source(cx: CtxV, st: LowerV, e: ExprV)
    requires
        fits(arena(lower_expr(cx, st, e).0)),
    ensures
        ({
            let (out, id) = lower_expr(cx, st, e);
            mirrors(arena(out), out.diags.len() == st.diags.len(), id, e)
        }),
{
    let (out, id) = lower_expr(cx, st, e);
    law_lowering_keeps_scopes(cx, st, e);
    lemma_reports(st, out);
    lemma_arena(out, st.diags.len());
    lemma_expr_shape(cx, st, e, arena(out), out.diags.len() <= st.diags.len(), st.diags.len());
}

/// A node that stands for an expression bears that expression's span; a
/// block's node bears the block's.
pub proof fn law_mirrored_span(w: ArenaV, clean: bool, id: ExprId, e: ExprV)
    requires
        mirrors(w, clean, id, e),
    ensures
        id.raw < w.exprs.len(),
        w.exprs[id.raw as int].span == (match e {
            ExprV::Block { block, span: _ } => block.span,
            _ => expr_span(e),
        }),
{
    match e {
        ExprV::Block { block, span: _ } => {
            assert(mirrors_block(w, clean, id, block));
        },
        _ => {},
    }
}

/// The bounds of a range keep their places: the node of the low bound is
/// the range node's low bound, and that of the high bound its high bound.
pub proof fn law_range_keeps_its_bounds(
    cx: CtxV,
    st: LowerV,
    lo: Option<Box<ExprV>>,
    hi: Option<Box<ExprV>>,
    span: Span,
)
    requires
        fits(arena(lower_expr(cx, st, ExprV::Range { lo, hi, span }).0)),
        lo matches Some(x) ==> !(*x is Block),
        hi matches Some(x) ==> !(*x is Block),
    ensures
        ({
            let (out, id) = lower_expr(cx, st, ExprV::Range { lo, hi, span });
            &&& id.raw < out.exprs.len()
            &&& out.exprs[id.raw as int].kind matches HirExprKindV::Range { lo: l, hi: h }
            &&& l is Some <==> lo is Some
            &&& h is Some <==> hi is Some
            &&& lo is Some ==> l->0.raw < out.exprs.len() && out.exprs[l->0.raw as int].span
                == expr_span(*lo->0)
            &&& hi is Some ==> h->0.raw < out.exprs.len() && out.exprs[h->0.raw as int].span
                == expr_span(*hi->0)
        }),
{
    let e = ExprV::Range { lo, hi, span };
    law_lowered_expr_mirrors_source(cx, st, e);
    let (out, id) = lower_expr(cx, st, e);
    let clean = out.diags.len() == st.diags.len();
    match out.exprs[id.raw as int].kind {
        HirExprKindV::Range { lo: l, hi: h } => {
            assert(mirrors_opt(arena(out), clean, l, lo));
            assert(mirrors_opt(arena(out), clean, h, hi));
            if lo is Some && l is Some {
                law_mirrored_span(arena(out), clean, l->0, *lo->0);
            }
            if hi is Some && h is Some {
                law_mirrored_span(arena(out), clean, h->0, *hi->0);
            }
        },
        _ => {},
    }
}

} // verus!
