//! Rebasing an [`Item`]'s spans to item-relative coordinates.
//!
//! `AstModule` keeps file-absolute spans (it is the source of truth
//! for item bases). The incremental engine's per-definition queries
//! work on *item-relative* copies instead: subtracting the item's
//! absolute start makes a lowered body independent of where the item
//! sits in the file, so an edit that merely shifts an item's offset
//! leaves every per-def query result unchanged (early cutoff) and
//! item-local diagnostics stay valid until rebased at collection.

use crate::ast::{
    Block, BlockV, DataDecl, DataDeclV, Expr, ExprV, Field, FieldInit, FieldInitV, FieldV, FnDecl,
    FnDeclV, Ident, IdentV, Item, ItemV, MatchArm, MatchArmV, Param, ParamV, Path, PathV, Pattern,
    PatternV, Place, PlaceV, Stmt, StmtV, TypeExpr, TypeExprV, Variant, VariantV,
};
use crate::source::Span;
use vstd::prelude::*;

verus! {

/// The map that makes spans relative to `base`.
pub open spec fn rel_by(base: u32) -> spec_fn(Span) -> Span {
    |s: Span| crate::source::span_rel(s, base)
}

/// The map that moves spans right by `k`.
pub open spec fn abs_by(k: u32) -> spec_fn(Span) -> Span {
    |s: Span| crate::source::span_abs(s, k)
}

/// `i` with its span replaced by its image under `f`.
pub open spec fn map_ident(i: IdentV, f: spec_fn(Span) -> Span) -> IdentV {
    IdentV { name: i.name, span: f(i.span) }
}

/// [`map_ident`] on every element.
pub open spec fn map_idents(v: Seq<IdentV>, f: spec_fn(Span) -> Span) -> Seq<IdentV> {
    Seq::new(v.len(), |i: int| map_ident(v[i], f))
}

/// `p` with every span replaced by its image under `f`.
pub open spec fn map_path(p: PathV, f: spec_fn(Span) -> Span) -> PathV {
    PathV { segs: map_idents(p.segs, f), span: f(p.span) }
}

/// `t` with every span replaced by its image under `f`.
pub open spec fn map_type(t: TypeExprV, f: spec_fn(Span) -> Span) -> TypeExprV
    decreases t,
{
    match t {
        TypeExprV::Named { path } => TypeExprV::Named { path: map_path(path, f) },
        TypeExprV::Array { elem, span } => TypeExprV::Array {
            elem: Box::new(map_type(*elem, f)),
            span: f(span),
        },
    }
}

/// [`map_type`] under an option.
pub open spec fn map_opt_type(t: Option<TypeExprV>, f: spec_fn(Span) -> Span) -> Option<TypeExprV> {
    match t {
        Some(x) => Some(map_type(x, f)),
        None => None,
    }
}

/// `p` with every span replaced by its image under `f`.
pub open spec fn map_place(p: PlaceV, f: spec_fn(Span) -> Span) -> PlaceV {
    PlaceV { base: map_ident(p.base, f), fields: map_idents(p.fields, f) }
}

/// `p` with every span replaced by its image under `f`.
pub open spec fn map_pattern(p: PatternV, f: spec_fn(Span) -> Span) -> PatternV {
    match p {
        PatternV::Bind { name } => PatternV::Bind { name: map_ident(name, f) },
        PatternV::Variant { path, binds, span } => PatternV::Variant {
            path: map_path(path, f),
            binds: map_idents(binds, f),
            span: f(span),
        },
    }
}

/// Whether every span in `v` satisfies `p`.
pub open spec fn all_idents(v: Seq<IdentV>, p: spec_fn(Span) -> bool) -> bool {
    forall|i: int| 0 <= i < v.len() ==> p((#[trigger] v[i]).span)
}

/// Whether every span in `x` satisfies `p`.
pub open spec fn all_path(x: PathV, p: spec_fn(Span) -> bool) -> bool {
    all_idents(x.segs, p) && p(x.span)
}

/// Whether every span in `t` satisfies `p`.
pub open spec fn all_type(t: TypeExprV, p: spec_fn(Span) -> bool) -> bool
    decreases t,
{
    match t {
        TypeExprV::Named { path } => all_path(path, p),
        TypeExprV::Array { elem, span } => all_type(*elem, p) && p(span),
    }
}

/// Whether every span in `x` satisfies `p`.
pub open spec fn all_place(x: PlaceV, p: spec_fn(Span) -> bool) -> bool {
    p(x.base.span) && all_idents(x.fields, p)
}

/// Whether every span in `x` satisfies `p`.
pub open spec fn all_pattern(x: PatternV, p: spec_fn(Span) -> bool) -> bool {
    match x {
        PatternV::Bind { name } => p(name.span),
        PatternV::Variant { path, binds, span } => all_path(path, p) && all_idents(binds, p) && p(
            span,
        ),
    }
}

/// `e` with every span replaced by its image under `f`.
pub open spec fn map_expr(e: ExprV, f: spec_fn(Span) -> Span) -> ExprV
    decreases e,
{
    match e {
        ExprV::Literal { value, span } => ExprV::Literal { value: value, span: f(span) },
        ExprV::Var { name } => ExprV::Var { name: map_ident(name, f) },
        ExprV::Call { callee, args, span } => ExprV::Call {
            callee: map_path(callee, f),
            args: Seq::new(
                args.len(),
                |i: int| if 0 <= i < args.len() { map_expr(args[i], f) } else { arbitrary() },
            ),
            span: f(span),
        },
        ExprV::Field { base, name, span } => ExprV::Field {
            base: Box::new(map_expr(*base, f)),
            name: map_ident(name, f),
            span: f(span),
        },
        ExprV::Index { base, index, span } => ExprV::Index {
            base: Box::new(map_expr(*base, f)),
            index: Box::new(map_expr(*index, f)),
            span: f(span),
        },
        ExprV::Slice { base, lo, hi, span } => ExprV::Slice {
            base: Box::new(map_expr(*base, f)),
            lo: match lo { Some(x) => Some(Box::new(map_expr(*x, f))), None => None },
            hi: match hi { Some(x) => Some(Box::new(map_expr(*x, f))), None => None },
            span: f(span),
        },
        ExprV::ArrayLit { elems, span } => ExprV::ArrayLit {
            elems: Seq::new(
                elems.len(),
                |i: int| if 0 <= i < elems.len() { map_expr(elems[i], f) } else { arbitrary() },
            ),
            span: f(span),
        },
        ExprV::Range { lo, hi, span } => ExprV::Range {
            lo: match lo { Some(x) => Some(Box::new(map_expr(*x, f))), None => None },
            hi: match hi { Some(x) => Some(Box::new(map_expr(*x, f))), None => None },
            span: f(span),
        },
        ExprV::Match { scrutinee, arms, span } => ExprV::Match {
            scrutinee: Box::new(map_expr(*scrutinee, f)),
            arms: Seq::new(
                arms.len(),
                |i: int| if 0 <= i < arms.len() { map_arm(arms[i], f) } else { arbitrary() },
            ),
            span: f(span),
        },
        ExprV::For { var, mutable, iter, body, span } => ExprV::For {
            var: map_ident(var, f),
            mutable: mutable,
            iter: Box::new(map_expr(*iter, f)),
            body: map_block(body, f),
            span: f(span),
        },
        ExprV::Binary { op, lhs, rhs, span } => ExprV::Binary {
            op: op,
            lhs: Box::new(map_expr(*lhs, f)),
            rhs: Box::new(map_expr(*rhs, f)),
            span: f(span),
        },
        ExprV::Unary { op, expr, span } => ExprV::Unary {
            op: op,
            expr: Box::new(map_expr(*expr, f)),
            span: f(span),
        },
        ExprV::If { cond, then_, else_, span } => ExprV::If {
            cond: Box::new(map_expr(*cond, f)),
            then_: map_block(then_, f),
            else_: match else_ { Some(x) => Some(Box::new(map_expr(*x, f))), None => None },
            span: f(span),
        },
        ExprV::Block { block, span } => ExprV::Block { block: map_block(block, f), span: f(span) },
        ExprV::StructLit { name, fields, span } => ExprV::StructLit {
            name: map_path(name, f),
            fields: Seq::new(
                fields.len(),
                |i: int| if 0 <= i < fields.len() { map_init(fields[i], f) } else { arbitrary() },
            ),
            span: f(span),
        },
        ExprV::Path { path } => ExprV::Path { path: map_path(path, f) },
        ExprV::Error { span } => ExprV::Error { span: f(span) },
    }
}

/// `s` with every span replaced by its image under `f`.
pub open spec fn map_stmt(s: StmtV, f: spec_fn(Span) -> Span) -> StmtV
    decreases s,
{
    match s {
        StmtV::Let { name, mutable, ty, init, span } => StmtV::Let {
            name: map_ident(name, f),
            mutable: mutable,
            ty: map_opt_type(ty, f),
            init: match init { Some(x) => Some(map_expr(x, f)), None => None },
            span: f(span),
        },
        StmtV::Assign { target, value, span } => StmtV::Assign {
            target: map_place(target, f),
            value: map_expr(value, f),
            span: f(span),
        },
        StmtV::Expr { expr, has_semi, span } => StmtV::Expr {
            expr: map_expr(expr, f),
            has_semi: has_semi,
            span: f(span),
        },
        StmtV::Return { value, span } => StmtV::Return {
            value: match value { Some(x) => Some(map_expr(x, f)), None => None },
            span: f(span),
        },
    }
}

/// `x` with every span replaced by its image under `f`.
pub open spec fn map_block(x: BlockV, f: spec_fn(Span) -> Span) -> BlockV
    decreases x,
{
    let BlockV { stmts, tail, span } = x;
    BlockV {
        stmts: Seq::new(
            stmts.len(),
            |i: int| if 0 <= i < stmts.len() { map_stmt(stmts[i], f) } else { arbitrary() },
        ),
        tail: match tail { Some(x) => Some(Box::new(map_expr(*x, f))), None => None },
        span: f(span),
    }
}

/// `x` with every span replaced by its image under `f`.
pub open spec fn map_arm(x: MatchArmV, f: spec_fn(Span) -> Span) -> MatchArmV
    decreases x,
{
    let MatchArmV { pat, body, span } = x;
    MatchArmV { pat: map_pattern(pat, f), body: map_expr(body, f), span: f(span) }
}

/// `x` with every span replaced by its image under `f`.
pub open spec fn map_init(x: FieldInitV, f: spec_fn(Span) -> Span) -> FieldInitV
    decreases x,
{
    let FieldInitV { name, value, span } = x;
    FieldInitV { name: map_ident(name, f), value: map_expr(value, f), span: f(span) }
}

/// Whether every span in `e` satisfies `p`.
pub open spec fn all_expr(e: ExprV, p: spec_fn(Span) -> bool) -> bool
    decreases e,
{
    match e {
        ExprV::Literal { value, span } => { &&& p(span) },
        ExprV::Var { name } => { &&& p(name.span) },
        ExprV::Call { callee, args, span } => {
            &&& all_path(callee, p)
            &&& forall|i: int| 0 <= i < args.len() ==> all_expr(#[trigger] args[i], p)
            &&& p(span)
        },
        ExprV::Field { base, name, span } => {
            &&& all_expr(*base, p)
            &&& p(name.span)
            &&& p(span)
        },
        ExprV::Index { base, index, span } => {
            &&& all_expr(*base, p)
            &&& all_expr(*index, p)
            &&& p(span)
        },
        ExprV::Slice { base, lo, hi, span } => {
            &&& all_expr(*base, p)
            &&& match lo { Some(x) => all_expr(*x, p), None => true }
            &&& match hi { Some(x) => all_expr(*x, p), None => true }
            &&& p(span)
        },
        ExprV::ArrayLit { elems, span } => {
            &&& forall|i: int| 0 <= i < elems.len() ==> all_expr(#[trigger] elems[i], p)
            &&& p(span)
        },
        ExprV::Range { lo, hi, span } => {
            &&& match lo { Some(x) => all_expr(*x, p), None => true }
            &&& match hi { Some(x) => all_expr(*x, p), None => true }
            &&& p(span)
        },
        ExprV::Match { scrutinee, arms, span } => {
            &&& all_expr(*scrutinee, p)
            &&& forall|i: int| 0 <= i < arms.len() ==> all_arm(#[trigger] arms[i], p)
            &&& p(span)
        },
        ExprV::For { var, mutable, iter, body, span } => {
            &&& p(var.span)
            &&& all_expr(*iter, p)
            &&& all_block(body, p)
            &&& p(span)
        },
        ExprV::Binary { op, lhs, rhs, span } => {
            &&& all_expr(*lhs, p)
            &&& all_expr(*rhs, p)
            &&& p(span)
        },
        ExprV::Unary { op, expr, span } => { &&& all_expr(*expr, p) &&& p(span) },
        ExprV::If { cond, then_, else_, span } => {
            &&& all_expr(*cond, p)
            &&& all_block(then_, p)
            &&& match else_ { Some(x) => all_expr(*x, p), None => true }
            &&& p(span)
        },
        ExprV::Block { block, span } => { &&& all_block(block, p) &&& p(span) },
        ExprV::StructLit { name, fields, span } => {
            &&& all_path(name, p)
            &&& forall|i: int| 0 <= i < fields.len() ==> all_init(#[trigger] fields[i], p)
            &&& p(span)
        },
        ExprV::Path { path } => { &&& all_path(path, p) },
        ExprV::Error { span } => { &&& p(span) },
    }
}

/// Whether every span in `s` satisfies `p`.
pub open spec fn all_stmt(s: StmtV, p: spec_fn(Span) -> bool) -> bool
    decreases s,
{
    match s {
        StmtV::Let { name, mutable, ty, init, span } => {
            &&& p(name.span)
            &&& (ty matches Some(x) ==> all_type(x, p))
            &&& match init { Some(x) => all_expr(x, p), None => true }
            &&& p(span)
        },
        StmtV::Assign { target, value, span } => {
            &&& all_place(target, p)
            &&& all_expr(value, p)
            &&& p(span)
        },
        StmtV::Expr { expr, has_semi, span } => { &&& all_expr(expr, p) &&& p(span) },
        StmtV::Return { value, span } => {
            &&& match value { Some(x) => all_expr(x, p), None => true }
            &&& p(span)
        },
    }
}

/// Whether every span in `x` satisfies `p`.
pub open spec fn all_block(x: BlockV, p: spec_fn(Span) -> bool) -> bool
    decreases x,
{
    let BlockV { stmts, tail, span } = x;
    &&& forall|i: int| 0 <= i < stmts.len() ==> all_stmt(#[trigger] stmts[i], p) &&& match tail {
        Some(x) => all_expr(*x, p),
        None => true,
    } &&& p(span)
}

/// Whether every span in `x` satisfies `p`.
pub open spec fn all_arm(x: MatchArmV, p: spec_fn(Span) -> bool) -> bool
    decreases x,
{
    let MatchArmV { pat, body, span } = x;
    &&& all_pattern(pat, p) &&& all_expr(body, p) &&& p(span)
}

/// Whether every span in `x` satisfies `p`.
pub open spec fn all_init(x: FieldInitV, p: spec_fn(Span) -> bool) -> bool
    decreases x,
{
    let FieldInitV { name, value, span } = x;
    &&& p(name.span) &&& all_expr(value, p) &&& p(span)
}

proof fn lemma_expr(
    e: ExprV,
    f: spec_fn(Span) -> Span,
    g: spec_fn(Span) -> Span,
    h: spec_fn(Span) -> Span,
    p: spec_fn(Span) -> bool,
)
    requires
        forall|s: Span| #[trigger] p(s) ==> f(g(s)) == h(s),
        all_expr(e, p),
    ensures
        map_expr(map_expr(e, g), f) == map_expr(e, h),
    decreases e,
{
    match e {
        ExprV::Literal { value, span } => {  },
        ExprV::Var { name } => {  },
        ExprV::Call { callee, args, span } => {
            lemma_path(callee, f, g, h, p);
            assert forall|i: int| 0 <= i < args.len() implies
            map_expr(map_expr(#[trigger] args[i], g), f) == map_expr(args[i], h) by {
                lemma_expr(args[i], f, g, h, p);
            }
            assert(map_expr(map_expr(e, g), f)->Call_args =~= map_expr(e, h)->Call_args);
        },
        ExprV::Field { base, name, span } => { lemma_expr(*base, f, g, h, p); },
        ExprV::Index { base, index, span } => {
            lemma_expr(*base, f, g, h, p);
            lemma_expr(*index, f, g, h, p);
        },
        ExprV::Slice { base, lo, hi, span } => {
            lemma_expr(*base, f, g, h, p);
            if let Some(x) = lo { lemma_expr(*x, f, g, h, p); }
            if let Some(x) = hi { lemma_expr(*x, f, g, h, p); }
        },
        ExprV::ArrayLit { elems, span } => {
            assert forall|i: int| 0 <= i < elems.len() implies
            map_expr(map_expr(#[trigger] elems[i], g), f) == map_expr(elems[i], h) by {
                lemma_expr(elems[i], f, g, h, p);
            }
            assert(map_expr(map_expr(e, g), f)->ArrayLit_elems =~= map_expr(e, h)->ArrayLit_elems);
        },
        ExprV::Range { lo, hi, span } => {
            if let Some(x) = lo { lemma_expr(*x, f, g, h, p); } if let Some(x) = hi {
                lemma_expr(*x, f, g, h, p);
            }
        },
        ExprV::Match { scrutinee, arms, span } => {
            lemma_expr(*scrutinee, f, g, h, p);
            assert forall|i: int| 0 <= i < arms.len() implies
            map_arm(map_arm(#[trigger] arms[i], g), f) == map_arm(arms[i], h) by {
                lemma_arm(arms[i], f, g, h, p);
            }
            assert(map_expr(map_expr(e, g), f)->Match_arms =~= map_expr(e, h)->Match_arms);
        },
        ExprV::For { var, mutable, iter, body, span } => {
            lemma_expr(*iter, f, g, h, p);
            lemma_block(body, f, g, h, p);
        },
        ExprV::Binary { op, lhs, rhs, span } => {
            lemma_expr(*lhs, f, g, h, p);
            lemma_expr(*rhs, f, g, h, p);
        },
        ExprV::Unary { op, expr, span } => { lemma_expr(*expr, f, g, h, p); },
        ExprV::If { cond, then_, else_, span } => {
            lemma_expr(*cond, f, g, h, p);
            lemma_block(then_, f, g, h, p);
            if let Some(x) = else_ { lemma_expr(*x, f, g, h, p); }
        },
        ExprV::Block { block, span } => { lemma_block(block, f, g, h, p); },
        ExprV::StructLit { name, fields, span } => {
            lemma_path(name, f, g, h, p);
            assert forall|i: int| 0 <= i < fields.len() implies
            map_init(map_init(#[trigger] fields[i], g), f) == map_init(fields[i], h) by {
                lemma_init(fields[i], f, g, h, p);
            }
            assert(
                map_expr(map_expr(e, g), f)->StructLit_fields =~= map_expr(e, h)->StructLit_fields
            );
        },
        ExprV::Path { path } => { lemma_path(path, f, g, h, p); },
        ExprV::Error { span } => {  },
    }
}

proof fn lemma_stmt(
    s: StmtV,
    f: spec_fn(Span) -> Span,
    g: spec_fn(Span) -> Span,
    h: spec_fn(Span) -> Span,
    p: spec_fn(Span) -> bool,
)
    requires
        forall|s: Span| #[trigger] p(s) ==> f(g(s)) == h(s),
        all_stmt(s, p),
    ensures
        map_stmt(map_stmt(s, g), f) == map_stmt(s, h),
    decreases s,
{
    match s {
        StmtV::Let { name, mutable, ty, init, span } => {
            if let Some(x) = ty { lemma_type(x, f, g, h, p); } if let Some(x) = init {
                lemma_expr(x, f, g, h, p);
            }
        },
        StmtV::Assign { target, value, span } => {
            lemma_place(target, f, g, h, p);
            lemma_expr(value, f, g, h, p);
        },
        StmtV::Expr { expr, has_semi, span } => { lemma_expr(expr, f, g, h, p); },
        StmtV::Return { value, span } => { if let Some(x) = value { lemma_expr(x, f, g, h, p); } },
    }
}

proof fn lemma_block(
    x: BlockV,
    f: spec_fn(Span) -> Span,
    g: spec_fn(Span) -> Span,
    h: spec_fn(Span) -> Span,
    p: spec_fn(Span) -> bool,
)
    requires
        forall|s: Span| #[trigger] p(s) ==> f(g(s)) == h(s),
        all_block(x, p),
    ensures
        map_block(map_block(x, g), f) == map_block(x, h),
    decreases x,
{
    let BlockV { stmts, tail, span } = x;
    assert forall|i: int| 0 <= i < stmts.len() implies
    map_stmt(map_stmt(#[trigger] stmts[i], g), f) == map_stmt(stmts[i], h) by {
        lemma_stmt(stmts[i], f, g, h, p);
    }
    if let Some(x) = tail { lemma_expr(*x, f, g, h, p); }
    assert(map_block(map_block(x, g), f).stmts =~= map_block(x, h).stmts);
}

proof fn lemma_arm(
    x: MatchArmV,
    f: spec_fn(Span) -> Span,
    g: spec_fn(Span) -> Span,
    h: spec_fn(Span) -> Span,
    p: spec_fn(Span) -> bool,
)
    requires
        forall|s: Span| #[trigger] p(s) ==> f(g(s)) == h(s),
        all_arm(x, p),
    ensures
        map_arm(map_arm(x, g), f) == map_arm(x, h),
    decreases x,
{
    let MatchArmV { pat, body, span } = x;
    lemma_pattern(pat, f, g, h, p);
    lemma_expr(body, f, g, h, p);
}

proof fn lemma_init(
    x: FieldInitV,
    f: spec_fn(Span) -> Span,
    g: spec_fn(Span) -> Span,
    h: spec_fn(Span) -> Span,
    p: spec_fn(Span) -> bool,
)
    requires
        forall|s: Span| #[trigger] p(s) ==> f(g(s)) == h(s),
        all_init(x, p),
    ensures
        map_init(map_init(x, g), f) == map_init(x, h),
    decreases x,
{
    let FieldInitV { name, value, span } = x;
    lemma_expr(value, f, g, h, p);
}

fn rebase_expr(e: &Expr, by: u32) -> (r: Expr)
    ensures
        r@ == map_expr(e@, rel_by(by)),
    decreases e,
{
    match e {
        Expr::Literal { value, span } => Expr::Literal { value: value.copy(), span: span.rel(by) },
        Expr::Var { name } => Expr::Var { name: rebase_ident(name, by) },
        Expr::Call { callee, args, span } => {
            let mut out: Vec<Expr> = Vec::new();
            let mut i: usize = 0;
            while i < args.len()
                invariant
                    i <= args@.len(),
                    out@.len() == i,
                    e matches Expr::Call { args: w, .. } && w == args,
                    forall|j: int| 0 <= j < i ==> (#[trigger] out@[j])@ == map_expr(
                        args@[j]@,
                        rel_by(by),
                    ),
                decreases args@.len() - i,
            {
                out.push(rebase_expr(&args[i], by));
                i += 1;
            }
            let r = Expr::Call { callee: rebase_path(callee, by), args: out, span: span.rel(by) };
            proof { assert(r@->Call_args =~= map_expr(e@, rel_by(by))->Call_args); }
            r
        },
        Expr::Field { base, name, span } => Expr::Field {
            base: Box::new(rebase_expr(base, by)),
            name: rebase_ident(name, by),
            span: span.rel(by),
        },
        Expr::Index { base, index, span } => Expr::Index {
            base: Box::new(rebase_expr(base, by)),
            index: Box::new(rebase_expr(index, by)),
            span: span.rel(by),
        },
        Expr::Slice { base, lo, hi, span } => Expr::Slice {
            base: Box::new(rebase_expr(base, by)),
            lo: match lo { Some(x) => Some(Box::new(rebase_expr(x, by))), None => None },
            hi: match hi { Some(x) => Some(Box::new(rebase_expr(x, by))), None => None },
            span: span.rel(by),
        },
        Expr::ArrayLit { elems, span } => {
            let mut out: Vec<Expr> = Vec::new();
            let mut i: usize = 0;
            while i < elems.len()
                invariant
                    i <= elems@.len(),
                    out@.len() == i,
                    e matches Expr::ArrayLit { elems: w, .. } && w == elems,
                    forall|j: int| 0 <= j < i ==> (#[trigger] out@[j])@ == map_expr(
                        elems@[j]@,
                        rel_by(by),
                    ),
                decreases elems@.len() - i,
            {
                out.push(rebase_expr(&elems[i], by));
                i += 1;
            }
            let r = Expr::ArrayLit { elems: out, span: span.rel(by) };
            proof { assert(r@->ArrayLit_elems =~= map_expr(e@, rel_by(by))->ArrayLit_elems); }
            r
        },
        Expr::Range { lo, hi, span } => Expr::Range {
            lo: match lo { Some(x) => Some(Box::new(rebase_expr(x, by))), None => None },
            hi: match hi { Some(x) => Some(Box::new(rebase_expr(x, by))), None => None },
            span: span.rel(by),
        },
        Expr::Match { scrutinee, arms, span } => {
            let mut out: Vec<MatchArm> = Vec::new();
            let mut i: usize = 0;
            while i < arms.len()
                invariant
                    i <= arms@.len(),
                    out@.len() == i,
                    e matches Expr::Match { arms: w, .. } && w == arms,
                    forall|j: int| 0 <= j < i ==> (#[trigger] out@[j])@ == map_arm(
                        arms@[j]@,
                        rel_by(by),
                    ),
                decreases arms@.len() - i,
            {
                out.push(rebase_arm(&arms[i], by));
                i += 1;
            }
            let r = Expr::Match {
                scrutinee: Box::new(rebase_expr(scrutinee, by)),
                arms: out,
                span: span.rel(by),
            };
            proof { assert(r@->Match_arms =~= map_expr(e@, rel_by(by))->Match_arms); }
            r
        },
        Expr::For { var, mutable, iter, body, span } => Expr::For {
            var: rebase_ident(var, by),
            mutable: *mutable,
            iter: Box::new(rebase_expr(iter, by)),
            body: rebase_block(body, by),
            span: span.rel(by),
        },
        Expr::Binary { op, lhs, rhs, span } => Expr::Binary {
            op: *op,
            lhs: Box::new(rebase_expr(lhs, by)),
            rhs: Box::new(rebase_expr(rhs, by)),
            span: span.rel(by),
        },
        Expr::Unary { op, expr, span } => Expr::Unary {
            op: *op,
            expr: Box::new(rebase_expr(expr, by)),
            span: span.rel(by),
        },
        Expr::If { cond, then_, else_, span } => Expr::If {
            cond: Box::new(rebase_expr(cond, by)),
            then_: rebase_block(then_, by),
            else_: match else_ { Some(x) => Some(Box::new(rebase_expr(x, by))), None => None },
            span: span.rel(by),
        },
        Expr::Block { block, span } => Expr::Block {
            block: rebase_block(block, by),
            span: span.rel(by),
        },
        Expr::StructLit { name, fields, span } => {
            let mut out: Vec<FieldInit> = Vec::new();
            let mut i: usize = 0;
            while i < fields.len()
                invariant
                    i <= fields@.len(),
                    out@.len() == i,
                    e matches Expr::StructLit { fields: w, .. } && w == fields,
                    forall|j: int| 0 <= j < i ==> (#[trigger] out@[j])@ == map_init(
                        fields@[j]@,
                        rel_by(by),
                    ),
                decreases fields@.len() - i,
            {
                out.push(rebase_init(&fields[i], by));
                i += 1;
            }
            let r = Expr::StructLit {
                name: rebase_path(name, by),
                fields: out,
                span: span.rel(by),
            };
            proof { assert(r@->StructLit_fields =~= map_expr(e@, rel_by(by))->StructLit_fields); }
            r
        },
        Expr::Path { path } => Expr::Path { path: rebase_path(path, by) },
        Expr::Error { span } => Expr::Error { span: span.rel(by) },
    }
}

fn rebase_stmt(s: &Stmt, by: u32) -> (r: Stmt)
    ensures
        r@ == map_stmt(s@, rel_by(by)),
    decreases s,
{
    match s {
        Stmt::Let { name, mutable, ty, init, span } => Stmt::Let {
            name: rebase_ident(name, by),
            mutable: *mutable,
            ty: rebase_opt_type_expr(ty, by),
            init: match init { Some(x) => Some(rebase_expr(x, by)), None => None },
            span: span.rel(by),
        },
        Stmt::Assign { target, value, span } => Stmt::Assign {
            target: rebase_place(target, by),
            value: rebase_expr(value, by),
            span: span.rel(by),
        },
        Stmt::Expr { expr, has_semi, span } => Stmt::Expr {
            expr: rebase_expr(expr, by),
            has_semi: *has_semi,
            span: span.rel(by),
        },
        Stmt::Return { value, span } => Stmt::Return {
            value: match value { Some(x) => Some(rebase_expr(x, by)), None => None },
            span: span.rel(by),
        },
    }
}

fn rebase_block(b: &Block, by: u32) -> (r: Block)
    ensures
        r@ == map_block(b@, rel_by(by)),
    decreases b,
{
            let mut out: Vec<Stmt> = Vec::new();
            let mut i: usize = 0;
            while i < b.stmts.len()
                invariant
                    i <= b.stmts@.len(),
                    out@.len() == i,
                    forall|j: int| 0 <= j < i ==> (#[trigger] out@[j])@ == map_stmt(
                        b.stmts@[j]@,
                        rel_by(by),
                    ),
                decreases b.stmts@.len() - i,
            {
                out.push(rebase_stmt(&b.stmts[i], by));
                i += 1;
            }
    let tail = match &b.tail {
        Some(x) => Some(Box::new(rebase_expr(x, by))),
        None => None,
    };
    let r = Block { stmts: out, tail, span: b.span.rel(by) };
    proof {
        assert(r@.stmts =~= map_block(b@, rel_by(by)).stmts);
    }
    r
}

fn rebase_arm(a: &MatchArm, by: u32) -> (r: MatchArm)
    ensures
        r@ == map_arm(a@, rel_by(by)),
    decreases a,
{
    MatchArm {
        pat: rebase_pattern(&a.pat, by),
        body: rebase_expr(&a.body, by),
        span: a.span.rel(by),
    }
}

fn rebase_init(f: &FieldInit, by: u32) -> (r: FieldInit)
    ensures
        r@ == map_init(f@, rel_by(by)),
    decreases f,
{
    FieldInit {
        name: rebase_ident(&f.name, by),
        value: rebase_expr(&f.value, by),
        span: f.span.rel(by),
    }
}
proof fn lemma_idents(
    v: Seq<IdentV>,
    f: spec_fn(Span) -> Span,
    g: spec_fn(Span) -> Span,
    h: spec_fn(Span) -> Span,
    p: spec_fn(Span) -> bool,
)
    requires
        forall|s: Span| #[trigger] p(s) ==> f(g(s)) == h(s),
        all_idents(v, p),
    ensures
        map_idents(map_idents(v, g), f) == map_idents(v, h),
{
    assert(map_idents(map_idents(v, g), f) =~= map_idents(v, h));
}

proof fn lemma_path(
    x: PathV,
    f: spec_fn(Span) -> Span,
    g: spec_fn(Span) -> Span,
    h: spec_fn(Span) -> Span,
    p: spec_fn(Span) -> bool,
)
    requires
        forall|s: Span| #[trigger] p(s) ==> f(g(s)) == h(s),
        all_path(x, p),
    ensures
        map_path(map_path(x, g), f) == map_path(x, h),
{
    lemma_idents(x.segs, f, g, h, p);
}

proof fn lemma_type(
    t: TypeExprV,
    f: spec_fn(Span) -> Span,
    g: spec_fn(Span) -> Span,
    h: spec_fn(Span) -> Span,
    p: spec_fn(Span) -> bool,
)
    requires
        forall|s: Span| #[trigger] p(s) ==> f(g(s)) == h(s),
        all_type(t, p),
    ensures
        map_type(map_type(t, g), f) == map_type(t, h),
    decreases t,
{
    match t {
        TypeExprV::Named { path } => {
            lemma_path(path, f, g, h, p);
        },
        TypeExprV::Array { elem, span } => {
            lemma_type(*elem, f, g, h, p);
        },
    }
}

proof fn lemma_place(
    x: PlaceV,
    f: spec_fn(Span) -> Span,
    g: spec_fn(Span) -> Span,
    h: spec_fn(Span) -> Span,
    p: spec_fn(Span) -> bool,
)
    requires
        forall|s: Span| #[trigger] p(s) ==> f(g(s)) == h(s),
        all_place(x, p),
    ensures
        map_place(map_place(x, g), f) == map_place(x, h),
{
    lemma_idents(x.fields, f, g, h, p);
}

proof fn lemma_pattern(
    x: PatternV,
    f: spec_fn(Span) -> Span,
    g: spec_fn(Span) -> Span,
    h: spec_fn(Span) -> Span,
    p: spec_fn(Span) -> bool,
)
    requires
        forall|s: Span| #[trigger] p(s) ==> f(g(s)) == h(s),
        all_pattern(x, p),
    ensures
        map_pattern(map_pattern(x, g), f) == map_pattern(x, h),
{
    match x {
        PatternV::Bind { name } => {},
        PatternV::Variant { path, binds, span } => {
            lemma_path(path, f, g, h, p);
            lemma_idents(binds, f, g, h, p);
        },
    }
}

/// `x` with every span replaced by its image under `f`.
pub open spec fn map_field(x: FieldV, f: spec_fn(Span) -> Span) -> FieldV {
    FieldV { name: map_ident(x.name, f), ty: map_type(x.ty, f), span: f(x.span) }
}

/// `x` with every span replaced by its image under `f`.
pub open spec fn map_variant(x: VariantV, f: spec_fn(Span) -> Span) -> VariantV {
    VariantV {
        name: map_ident(x.name, f),
        payload: Seq::new(x.payload.len(), |i: int| map_type(x.payload[i], f)),
        span: f(x.span),
    }
}

/// `x` with every span replaced by its image under `f`.
pub open spec fn map_param(x: ParamV, f: spec_fn(Span) -> Span) -> ParamV {
    ParamV {
        name: map_ident(x.name, f),
        mutable: x.mutable,
        ty: map_type(x.ty, f),
        span: f(x.span),
    }
}

/// `x` with every span replaced by its image under `f`.
pub open spec fn map_data(x: DataDeclV, f: spec_fn(Span) -> Span) -> DataDeclV {
    DataDeclV {
        name: map_ident(x.name, f),
        fields: Seq::new(x.fields.len(), |i: int| map_field(x.fields[i], f)),
        variants: Seq::new(x.variants.len(), |i: int| map_variant(x.variants[i], f)),
        span: f(x.span),
    }
}

/// `x` with every span replaced by its image under `f`.
pub open spec fn map_fn(x: FnDeclV, f: spec_fn(Span) -> Span) -> FnDeclV {
    FnDeclV {
        name: map_ident(x.name, f),
        params: Seq::new(x.params.len(), |i: int| map_param(x.params[i], f)),
        ret: map_opt_type(x.ret, f),
        body: map_block(x.body, f),
        span: f(x.span),
    }
}

/// `x` with every span replaced by its image under `f`.
pub open spec fn map_item(x: ItemV, f: spec_fn(Span) -> Span) -> ItemV {
    match x {
        ItemV::Data(d) => ItemV::Data(map_data(d, f)),
        ItemV::Fn(d) => ItemV::Fn(map_fn(d, f)),
    }
}

/// Whether every span in `x` satisfies `p`.
pub open spec fn all_item(x: ItemV, p: spec_fn(Span) -> bool) -> bool {
    match x {
        ItemV::Data(d) => {
            &&& p(d.name.span)
            &&& p(d.span)
            &&& forall|i: int| #![trigger d.fields[i]]
                0 <= i < d.fields.len() ==> p(d.fields[i].name.span) && p(d.fields[i].span)
                    && all_type(d.fields[i].ty, p)
            &&& forall|i: int| #![trigger d.variants[i]]
                0 <= i < d.variants.len() ==> p(d.variants[i].name.span) && p(d.variants[i].span)
            &&& forall|i: int, j: int| #![trigger d.variants[i].payload[j]]
                0 <= i < d.variants.len() && 0 <= j < d.variants[i].payload.len() ==> all_type(
                    d.variants[i].payload[j],
                    p,
                )
        },
        ItemV::Fn(d) => {
            &&& p(d.name.span)
            &&& p(d.span)
            &&& forall|i: int| #![trigger d.params[i]]
                0 <= i < d.params.len() ==> p(d.params[i].name.span) && p(d.params[i].span)
                    && all_type(d.params[i].ty, p)
            &&& (d.ret matches Some(t) ==> all_type(t, p))
            &&& all_block(d.body, p)
        },
    }
}

/// Applying `g` and then `f` to every span is applying `h`, where `h`
/// agrees with `f` after `g` on the spans of the item.
pub proof fn lemma_item(
    x: ItemV,
    f: spec_fn(Span) -> Span,
    g: spec_fn(Span) -> Span,
    h: spec_fn(Span) -> Span,
    p: spec_fn(Span) -> bool,
)
    requires
        forall|s: Span| #[trigger] p(s) ==> f(g(s)) == h(s),
        all_item(x, p),
    ensures
        map_item(map_item(x, g), f) == map_item(x, h),
{
    match x {
        ItemV::Data(d) => {
            let l = map_data(map_data(d, g), f);
            let r = map_data(d, h);
            assert forall|i: int| 0 <= i < d.fields.len() implies l.fields[i] == r.fields[i] by {
                lemma_type(d.fields[i].ty, f, g, h, p);
            }
            assert(l.fields =~= r.fields);
            assert forall|i: int| 0 <= i < d.variants.len() implies l.variants[i]
                == r.variants[i] by {
                let v = d.variants[i];
                assert forall|j: int| 0 <= j < v.payload.len() implies map_type(
                    map_type(v.payload[j], g),
                    f,
                ) == map_type(v.payload[j], h) by {
                    assert(all_type(d.variants[i].payload[j], p));
                    lemma_type(v.payload[j], f, g, h, p);
                }
                assert(l.variants[i].payload =~= r.variants[i].payload);
            }
            assert(l.variants =~= r.variants);
        },
        ItemV::Fn(d) => {
            let l = map_fn(map_fn(d, g), f);
            let r = map_fn(d, h);
            assert forall|i: int| 0 <= i < d.params.len() implies l.params[i] == r.params[i] by {
                lemma_type(d.params[i].ty, f, g, h, p);
            }
            assert(l.params =~= r.params);
            if let Some(t) = d.ret {
                lemma_type(t, f, g, h, p);
            }
            lemma_block(d.body, f, g, h, p);
        },
    }
}

/// Early cutoff: an item that an edit merely shifted by `k` has the
/// same item-relative form as before, so long as no position passes
/// the largest one.
pub proof fn law_rebase_ignores_position(item: ItemV, base: u32, k: u32)
    requires
        base + k <= u32::MAX,
        all_item(item, |s: Span| s.start + k <= u32::MAX && s.end + k <= u32::MAX),
    ensures
        map_item(map_item(item, abs_by(k)), rel_by((base + k) as u32)) == map_item(
            item,
            rel_by(base),
        ),
{
    let p = |s: Span| s.start + k <= u32::MAX && s.end + k <= u32::MAX;
    lemma_item(item, rel_by((base + k) as u32), abs_by(k), rel_by(base), p);
}

/// Rebasing loses nothing: shifting the item-relative form back by the
/// base restores an item whose spans all start at or after the base.
pub proof fn law_rebase_round_trip(item: ItemV, base: u32)
    requires
        all_item(item, |s: Span| base <= s.start <= s.end),
    ensures
        map_item(map_item(item, rel_by(base)), abs_by(base)) == map_item(item, |s: Span| s),
{
    let p = |s: Span| base <= s.start <= s.end;
    lemma_item(item, abs_by(base), rel_by(base), |s: Span| s, p);
}

proof fn lemma_any_type(t: TypeExprV, p: spec_fn(Span) -> bool)
    requires
        forall|s: Span| #[trigger] p(s),
    ensures
        all_type(t, p),
    decreases t,
{
    if let TypeExprV::Array { elem, span } = t {
        lemma_any_type(*elem, p);
    }
}

proof fn lemma_any_expr(e: ExprV, p: spec_fn(Span) -> bool)
    requires
        forall|s: Span| #[trigger] p(s),
    ensures
        all_expr(e, p),
    decreases e,
{
    match e {
        ExprV::Call { callee, args, span } => {
            assert forall|i: int| 0 <= i < args.len() implies all_expr(#[trigger] args[i], p) by {
                lemma_any_expr(args[i], p);
            }
        },
        ExprV::Field { base, name, span } => {
            lemma_any_expr(*base, p);
        },
        ExprV::Index { base, index, span } => {
            lemma_any_expr(*base, p);
            lemma_any_expr(*index, p);
        },
        ExprV::Slice { base, lo, hi, span } => {
            lemma_any_expr(*base, p);
            if let Some(x) = lo {
                lemma_any_expr(*x, p);
            }
            if let Some(x) = hi {
                lemma_any_expr(*x, p);
            }
        },
        ExprV::ArrayLit { elems, span } => {
            assert forall|i: int| 0 <= i < elems.len() implies all_expr(#[trigger] elems[i], p) by {
                lemma_any_expr(elems[i], p);
            }
        },
        ExprV::Range { lo, hi, span } => {
            if let Some(x) = lo {
                lemma_any_expr(*x, p);
            }
            if let Some(x) = hi {
                lemma_any_expr(*x, p);
            }
        },
        ExprV::Match { scrutinee, arms, span } => {
            lemma_any_expr(*scrutinee, p);
            assert forall|i: int| 0 <= i < arms.len() implies all_arm(#[trigger] arms[i], p) by {
                lemma_any_expr(arms[i].body, p);
            }
        },
        ExprV::For { var, mutable, iter, body, span } => {
            lemma_any_expr(*iter, p);
            lemma_any_block(body, p);
        },
        ExprV::Binary { op, lhs, rhs, span } => {
            lemma_any_expr(*lhs, p);
            lemma_any_expr(*rhs, p);
        },
        ExprV::Unary { op, expr, span } => {
            lemma_any_expr(*expr, p);
        },
        ExprV::If { cond, then_, else_, span } => {
            lemma_any_expr(*cond, p);
            lemma_any_block(then_, p);
            if let Some(x) = else_ {
                lemma_any_expr(*x, p);
            }
        },
        ExprV::Block { block, span } => {
            lemma_any_block(block, p);
        },
        ExprV::StructLit { name, fields, span } => {
            assert forall|i: int| 0 <= i < fields.len() implies all_init(
                #[trigger] fields[i],
                p,
            ) by {
                lemma_any_expr(fields[i].value, p);
            }
        },
        _ => {},
    }
}

proof fn lemma_any_stmt(s: StmtV, p: spec_fn(Span) -> bool)
    requires
        forall|s: Span| #[trigger] p(s),
    ensures
        all_stmt(s, p),
    decreases s,
{
    match s {
        StmtV::Let { name, mutable, ty, init, span } => {
            if let Some(x) = ty {
                lemma_any_type(x, p);
            }
            if let Some(x) = init {
                lemma_any_expr(x, p);
            }
        },
        StmtV::Assign { target, value, span } => {
            lemma_any_expr(value, p);
        },
        StmtV::Expr { expr, has_semi, span } => {
            lemma_any_expr(expr, p);
        },
        StmtV::Return { value, span } => {
            if let Some(x) = value {
                lemma_any_expr(x, p);
            }
        },
    }
}

proof fn lemma_any_block(x: BlockV, p: spec_fn(Span) -> bool)
    requires
        forall|s: Span| #[trigger] p(s),
    ensures
        all_block(x, p),
    decreases x,
{
    let stmts = x.stmts;
    assert forall|i: int| 0 <= i < stmts.len() implies all_stmt(#[trigger] stmts[i], p) by {
        lemma_any_stmt(x.stmts[i], p);
    }
    if let Some(e) = x.tail {
        lemma_any_expr(*e, p);
    }
}

proof fn lemma_any_item(x: ItemV, p: spec_fn(Span) -> bool)
    requires
        forall|s: Span| #[trigger] p(s),
    ensures
        all_item(x, p),
{
    match x {
        ItemV::Data(d) => {
            assert forall|i: int|
                #![trigger d.fields[i]]
                0 <= i < d.fields.len() implies p(d.fields[i].name.span) && p(d.fields[i].span)
                && all_type(d.fields[i].ty, p) by {
                lemma_any_type(d.fields[i].ty, p);
            }
            assert forall|i: int, j: int|
                #![trigger d.variants[i].payload[j]]
                0 <= i < d.variants.len() && 0 <= j
                    < d.variants[i].payload.len() implies all_type(
                d.variants[i].payload[j],
                p,
            ) by {
                lemma_any_type(d.variants[i].payload[j], p);
            }
        },
        ItemV::Fn(d) => {
            assert forall|i: int|
                #![trigger d.params[i]]
                0 <= i < d.params.len() implies p(d.params[i].name.span) && p(d.params[i].span)
                && all_type(d.params[i].ty, p) by {
                lemma_any_type(d.params[i].ty, p);
            }
            if let Some(t) = d.ret {
                lemma_any_type(t, p);
            }
            lemma_any_block(d.body, p);
        },
    }
}

/// Rebasing twice is rebasing once by the sum.
pub proof fn law_rebase_composes(item: ItemV, a: u32, b: u32)
    requires
        a + b <= u32::MAX,
    ensures
        map_item(map_item(item, rel_by(a)), rel_by(b)) == map_item(item, rel_by((a + b) as u32)),
{
    let p = |s: Span| true;
    lemma_any_item(item, p);
    lemma_item(item, rel_by(b), rel_by(a), rel_by((a + b) as u32), p);
}

/// Returns `item` with every span shifted by `-base`. `base` is
/// normally `item.span().start`, making all spans item-relative.
pub fn rebase_item(item: &Item, by: u32) -> (r: Item)
    ensures
        r@ == map_item(item@, rel_by(by)),
{
    match item {
        Item::Data(d) => Item::Data(rebase_data(d, by)),
        Item::Fn(f) => Item::Fn(rebase_fn(f, by)),
    }
}

fn rebase_ident(i: &Ident, by: u32) -> (r: Ident)
    ensures
        r@ == map_ident(i@, rel_by(by)),
{
    Ident { name: i.name.clone(), span: i.span.rel(by) }
}

fn rebase_ident_vec(v: &Vec<Ident>, by: u32) -> (r: Vec<Ident>)
    ensures
        crate::ast::idents(r@) == map_idents(crate::ast::idents(v@), rel_by(by)),
{
    let mut out: Vec<Ident> = Vec::new();
    let mut i: usize = 0;
    while i < v.len()
        invariant
            i <= v@.len(),
            out@.len() == i,
            forall|j: int| 0 <= j < i ==> (#[trigger] out@[j])@ == map_ident(v@[j]@, rel_by(by)),
        decreases v@.len() - i,
    {
        out.push(rebase_ident(&v[i], by));
        i += 1;
    }
    proof {
        assert(crate::ast::idents(out@) =~= map_idents(crate::ast::idents(v@), rel_by(by)));
    }
    out
}

fn rebase_path(p: &Path, by: u32) -> (r: Path)
    ensures
        r@ == map_path(p@, rel_by(by)),
{
    Path { segs: rebase_ident_vec(&p.segs, by), span: p.span.rel(by) }
}

fn rebase_type_expr(t: &TypeExpr, by: u32) -> (r: TypeExpr)
    ensures
        r@ == map_type(t@, rel_by(by)),
    decreases t,
{
    match t {
        TypeExpr::Named { path: p } => TypeExpr::Named { path: rebase_path(p, by) },
        TypeExpr::Array { elem, span } => TypeExpr::Array {
            elem: Box::new(rebase_type_expr(elem, by)),
            span: span.rel(by),
        },
    }
}

fn rebase_opt_type_expr(t: &Option<TypeExpr>, by: u32) -> (r: Option<TypeExpr>)
    ensures
        crate::ast::opt_type(r) == map_opt_type(crate::ast::opt_type(*t), rel_by(by)),
{
    match t {
        Some(x) => Some(rebase_type_expr(x, by)),
        None => None,
    }
}

fn rebase_place(p: &Place, by: u32) -> (r: Place)
    ensures
        r@ == map_place(p@, rel_by(by)),
{
    Place { base: rebase_ident(&p.base, by), fields: rebase_ident_vec(&p.fields, by) }
}

fn rebase_pattern(p: &Pattern, by: u32) -> (r: Pattern)
    ensures
        r@ == map_pattern(p@, rel_by(by)),
{
    match p {
        Pattern::Bind { name } => Pattern::Bind { name: rebase_ident(name, by) },
        Pattern::Variant { path: q, binds, span } => Pattern::Variant {
            path: rebase_path(q, by),
            binds: rebase_ident_vec(binds, by),
            span: span.rel(by),
        },
    }
}

fn rebase_field(f: &Field, by: u32) -> (r: Field)
    ensures
        r@ == map_field(f@, rel_by(by)),
{
    Field { name: rebase_ident(&f.name, by), ty: rebase_type_expr(&f.ty, by), span: f.span.rel(by) }
}

fn rebase_variant(v: &Variant, by: u32) -> (r: Variant)
    ensures
        r@ == map_variant(v@, rel_by(by)),
{
    let mut out: Vec<TypeExpr> = Vec::new();
    let mut i: usize = 0;
    while i < v.payload.len()
        invariant
            i <= v.payload@.len(),
            out@.len() == i,
            forall|j: int|
                0 <= j < i ==> (#[trigger] out@[j])@ == map_type(v.payload@[j]@, rel_by(by)),
        decreases v.payload@.len() - i,
    {
        out.push(rebase_type_expr(&v.payload[i], by));
        i += 1;
    }
    let r = Variant { name: rebase_ident(&v.name, by), payload: out, span: v.span.rel(by) };
    proof {
        assert(r@.payload =~= map_variant(v@, rel_by(by)).payload);
    }
    r
}

fn rebase_param(p: &Param, by: u32) -> (r: Param)
    ensures
        r@ == map_param(p@, rel_by(by)),
{
    Param {
        name: rebase_ident(&p.name, by),
        mutable: p.mutable,
        ty: rebase_type_expr(&p.ty, by),
        span: p.span.rel(by),
    }
}

fn rebase_data(d: &DataDecl, by: u32) -> (r: DataDecl)
    ensures
        r@ == map_data(d@, rel_by(by)),
{
    let mut fs: Vec<Field> = Vec::new();
    let mut i: usize = 0;
    while i < d.fields.len()
        invariant
            i <= d.fields@.len(),
            fs@.len() == i,
            forall|j: int|
                0 <= j < i ==> (#[trigger] fs@[j])@ == map_field(d.fields@[j]@, rel_by(by)),
        decreases d.fields@.len() - i,
    {
        fs.push(rebase_field(&d.fields[i], by));
        i += 1;
    }
    let mut vs: Vec<Variant> = Vec::new();
    let mut k: usize = 0;
    while k < d.variants.len()
        invariant
            k <= d.variants@.len(),
            vs@.len() == k,
            forall|j: int|
                0 <= j < k ==> (#[trigger] vs@[j])@ == map_variant(d.variants@[j]@, rel_by(by)),
        decreases d.variants@.len() - k,
    {
        vs.push(rebase_variant(&d.variants[k], by));
        k += 1;
    }
    let r = DataDecl {
        name: rebase_ident(&d.name, by),
        fields: fs,
        variants: vs,
        span: d.span.rel(by),
    };
    proof {
        assert(r@.fields =~= map_data(d@, rel_by(by)).fields);
        assert(r@.variants =~= map_data(d@, rel_by(by)).variants);
    }
    r
}

fn rebase_fn(f: &FnDecl, by: u32) -> (r: FnDecl)
    ensures
        r@ == map_fn(f@, rel_by(by)),
{
    let mut ps: Vec<Param> = Vec::new();
    let mut i: usize = 0;
    while i < f.params.len()
        invariant
            i <= f.params@.len(),
            ps@.len() == i,
            forall|j: int|
                0 <= j < i ==> (#[trigger] ps@[j])@ == map_param(f.params@[j]@, rel_by(by)),
        decreases f.params@.len() - i,
    {
        ps.push(rebase_param(&f.params[i], by));
        i += 1;
    }
    let r = FnDecl {
        name: rebase_ident(&f.name, by),
        params: ps,
        ret: rebase_opt_type_expr(&f.ret, by),
        body: rebase_block(&f.body, by),
        span: f.span.rel(by),
    };
    proof {
        assert(r@.params =~= map_fn(f@, rel_by(by)).params);
    }
    r
}

} // verus!
