//! The tokens of a lowered body.
//!
//! Where the names that a function binds and uses are spelled, lowering
//! it yields a body whose locals are spelled.

use crate::ast::{
    BlockV, ExprV, FieldInitV, FnDeclV, IdentV, MatchArmV, ParamV, PathV, PatternV, PlaceV, StmtV,
    TypeExprV,
};
use crate::code::Code;
use crate::diagnostic::DiagnosticV;
use crate::fxmap::entry;
use crate::hir::{
    HirBodyV, HirExprKindV, HirExprV, HirPlaceV, HirStmtV, ModuleScopeV, Name, SymbolKind,
};
use crate::hir_lower::{
    alloc_node, close_scope, ctx_of, declare, describe, intern_in, lookup, lower_arms, lower_binds,
    lower_block, lower_callee, lower_expr, lower_exprs, lower_inits, lower_names, lower_params,
    lower_path, lower_pattern, lower_place, lower_run, lower_start, lower_stmt, lower_stmts,
    lower_struct, lower_type, lower_var, lowered, not_a_function, not_a_type, not_a_value,
    open_scope, path_def, path_diag, poison, report, unknown_binding, variant_diag, variant_of,
    variant_or, CtxV, LowerV, PathErr, VariantErr,
};
use crate::snapshot::{base_token, stmts_of};
use crate::source::{name_of, span_abs, DefId, ExprId, FileId, InternId, Span, SymbolId};
use crate::spelling::{
    is_spelled, local_name, locals_are_spelled, read_is_spelled, write_is_spelled,
};
use crate::text::bytes_of;
use vstd::prelude::*;
use vstd::utf8::*;

verus! {

/// A text, and where the spans of one of its items count from.
#[verifier::ext_equal]
pub struct ItemTextV {
    pub src: Seq<char>,
    pub base: u32,
}

/// A span of an item covers exactly `name`.
#[verifier::opaque]
pub open spec fn spells(w: ItemTextV, sp: Span, name: Seq<char>) -> bool {
    sp.start <= sp.end && sp.end + w.base <= u32::MAX && is_spelled(
        w.src,
        span_abs(sp, w.base),
        name,
    )
}

/// A name of an item is spelled.
pub open spec fn spelled(w: ItemTextV, n: IdentV) -> bool {
    spells(w, n.span, n.name)
}

// ---------- names that are bound and used ----------

/// The names that an expression binds and uses are spelled.
pub open spec fn expr_named(w: ItemTextV, e: ExprV) -> bool
    decreases e,
{
    match e {
        ExprV::Var { name } => spelled(w, name),
        ExprV::Call { callee, args, span } => exprs_named(w, args),
        ExprV::StructLit { name, fields, span } => inits_named(w, fields),
        ExprV::Field { base, name, span } => expr_named(w, *base),
        ExprV::Index { base, index, span } => expr_named(w, *base) && expr_named(w, *index),
        ExprV::Slice { base, lo, hi, span } => {
            &&& expr_named(w, *base)
            &&& match lo {
                Some(x) => expr_named(w, *x),
                None => true,
            }
            &&& match hi {
                Some(x) => expr_named(w, *x),
                None => true,
            }
        },
        ExprV::ArrayLit { elems, span } => exprs_named(w, elems),
        ExprV::Range { lo, hi, span } => {
            &&& match lo {
                Some(x) => expr_named(w, *x),
                None => true,
            }
            &&& match hi {
                Some(x) => expr_named(w, *x),
                None => true,
            }
        },
        ExprV::Match { scrutinee, arms, span } => expr_named(w, *scrutinee) && arms_named(w, arms),
        ExprV::For { var, mutable, iter, body, span } => {
            &&& spelled(w, var)
            &&& expr_named(w, *iter)
            &&& block_named(w, body)
        },
        ExprV::Binary { op, lhs, rhs, span } => expr_named(w, *lhs) && expr_named(w, *rhs),
        ExprV::Unary { op, expr, span } => expr_named(w, *expr),
        ExprV::If { cond, then_, else_, span } => {
            &&& expr_named(w, *cond)
            &&& block_named(w, then_)
            &&& match else_ {
                Some(x) => expr_named(w, *x),
                None => true,
            }
        },
        ExprV::Block { block, span } => block_named(w, block),
        ExprV::Path { path } => true,
        ExprV::Literal { value, span } => true,
        ExprV::Error { span } => true,
    }
}

/// The names that a list of expressions binds and uses are spelled.
pub open spec fn exprs_named(w: ItemTextV, es: Seq<ExprV>) -> bool
    decreases es,
{
    es.len() == 0 || (exprs_named(w, es.drop_last()) && expr_named(w, es.last()))
}

/// The names that initializers bind and use are spelled.
pub open spec fn inits_named(w: ItemTextV, fs: Seq<FieldInitV>) -> bool
    decreases fs,
{
    fs.len() == 0 || (inits_named(w, fs.drop_last()) && expr_named(w, fs.last().value))
}

/// The names that a pattern binds are spelled.
pub open spec fn pattern_named(w: ItemTextV, p: PatternV) -> bool {
    match p {
        PatternV::Bind { name } => spelled(w, name),
        PatternV::Variant { path, binds, span } => forall|i: int|
            0 <= i < binds.len() ==> spelled(w, #[trigger] binds[i]),
    }
}

/// The names that the arms of a match bind and use are spelled.
pub open spec fn arms_named(w: ItemTextV, arms: Seq<MatchArmV>) -> bool
    decreases arms,
{
    arms.len() == 0 || (arms_named(w, arms.drop_last()) && pattern_named(w, arms.last().pat)
        && expr_named(w, arms.last().body))
}

/// The names that a block binds and uses are spelled.
pub open spec fn block_named(w: ItemTextV, b: BlockV) -> bool
    decreases b,
{
    &&& stmts_named(w, b.stmts)
    &&& match b.tail {
        Some(x) => expr_named(w, *x),
        None => true,
    }
}

/// The names that a list of statements binds and uses are spelled.
pub open spec fn stmts_named(w: ItemTextV, ss: Seq<StmtV>) -> bool
    decreases ss,
{
    ss.len() == 0 || (stmts_named(w, ss.drop_last()) && stmt_named(w, ss.last()))
}

/// The base of an assignment target is spelled, and its fields follow.
pub open spec fn place_named(w: ItemTextV, p: PlaceV) -> bool {
    &&& spelled(w, p.base)
    &&& p.fields.len() > 0 ==> p.base.span.start <= p.fields.last().span.start
}

/// The names that a statement binds and uses are spelled.
pub open spec fn stmt_named(w: ItemTextV, st: StmtV) -> bool
    decreases st,
{
    match st {
        StmtV::Let { name, mutable, ty, init, span } => {
            &&& spelled(w, name)
            &&& match init {
                Some(e) => expr_named(w, e),
                None => true,
            }
        },
        StmtV::Assign { target, value, span } => place_named(w, target) && expr_named(w, value),
        StmtV::Expr { expr, has_semi, span } => expr_named(w, expr),
        StmtV::Return { value, span } => match value {
            Some(e) => expr_named(w, e),
            None => true,
        },
    }
}

/// The names that a function binds and uses are spelled. Its spans count
/// from the item's start.
pub open spec fn fn_named(w: ItemTextV, f: FnDeclV) -> bool {
    &&& forall|i: int| 0 <= i < f.params.len() ==> spelled(w, (#[trigger] f.params[i]).name)
    &&& block_named(w, f.body)
}

// ---------- a body on its way ----------

/// The arenas fit the machine.
pub open spec fn fits(st: LowerV) -> bool {
    st.names.len() <= usize::MAX && st.locals.len() <= usize::MAX
}

/// The text of a local's name.
pub open spec fn name_text(st: LowerV, i: int) -> Seq<char> {
    st.names[st.locals[i].name.raw as int]
}

/// A symbol is a local, and the span covers its name.
pub open spec fn token_ok(w: ItemTextV, st: LowerV, sym: SymbolId, sp: Span) -> bool {
    match sym {
        SymbolId::Local(i) => i < st.locals.len() && spells(w, sp, name_text(st, i as int)),
        SymbolId::Module(_) => false,
    }
}

/// A statement that assigns begins with the name of a local.
pub open spec fn stmt_ok(w: ItemTextV, st: LowerV, x: HirStmtV) -> bool {
    match x {
        HirStmtV::Assign { target, value, span } => match target.base {
            SymbolId::Local(i) => i < st.locals.len() && spells(
                w,
                base_token(target.span, bytes_of(name_text(st, i as int)).len()),
                name_text(st, i as int),
            ),
            SymbolId::Module(_) => false,
        },
        _ => true,
    }
}

/// Statements that all do so.
pub open spec fn stmts_ok(w: ItemTextV, st: LowerV, v: Seq<HirStmtV>) -> bool {
    forall|i: int| 0 <= i < v.len() ==> stmt_ok(w, st, #[trigger] v[i])
}

/// A node that reads a local covers its name, and a block's statements
/// are in order.
pub open spec fn node_ok(w: ItemTextV, st: LowerV, kind: HirExprKindV, sp: Span) -> bool {
    match kind {
        HirExprKindV::Var(sym) => token_ok(w, st, sym, sp),
        HirExprKindV::Block { stmts, tail } => stmts_ok(w, st, stmts),
        _ => true,
    }
}

/// A scope maps names to locals of that name.
pub open spec fn scope_ok(st: LowerV, m: Map<usize, usize>) -> bool {
    forall|k: usize|
        (#[trigger] entry(m, k)) matches Some(i) ==> i < st.locals.len()
            && st.locals[i as int].name.raw == k
}

/// A body in order: its locals are spelled, its nodes are in order, and
/// its scopes hold its locals by their names.
pub open spec fn good(w: ItemTextV, st: LowerV) -> bool {
    &&& forall|i: int|
        0 <= i < st.locals.len() ==> (#[trigger] st.locals[i]).name.raw < st.names.len() && spells(
            w,
            st.locals[i].span,
            name_text(st, i),
        )
    &&& forall|i: int|
        0 <= i < st.exprs.len() ==> node_ok(
            w,
            st,
            (#[trigger] st.exprs[i]).kind,
            st.exprs[i].span,
        )
    &&& forall|i: int| 0 <= i < st.scopes.len() ==> scope_ok(st, #[trigger] st.scopes[i])
}

/// Names and locals were only added.
pub open spec fn grown(a: LowerV, b: LowerV) -> bool {
    &&& a.names.len() <= b.names.len()
    &&& forall|i: int| 0 <= i < a.names.len() ==> #[trigger] b.names[i] == a.names[i]
    &&& a.locals.len() <= b.locals.len()
    &&& forall|i: int| 0 <= i < a.locals.len() ==> #[trigger] b.locals[i] == a.locals[i]
}

/// A step of a lowering: names and locals are only added, and a body in
/// order stays in order as long as the arenas fit the machine.
#[verifier::opaque]
pub open spec fn step(w: ItemTextV, a: LowerV, b: LowerV) -> bool {
    grown(a, b) && (fits(b) && good(w, a) ==> good(w, b))
}

proof fn lemma_refl(w: ItemTextV, a: LowerV)
    ensures
        step(w, a, a),
{
    reveal(step);
}

proof fn lemma_then(w: ItemTextV, a: LowerV, b: LowerV, c: LowerV)
    requires
        step(w, a, b),
        step(w, b, c),
    ensures
        step(w, a, c),
{
    reveal(step);
    assert forall|i: int| 0 <= i < a.names.len() implies #[trigger] c.names[i] == a.names[i] by {
        assert(b.names[i] == a.names[i]);
    }
    assert forall|i: int| 0 <= i < a.locals.len() implies #[trigger] c.locals[i]
        == a.locals[i] by {
        assert(b.locals[i] == a.locals[i]);
    }
}

/// What was in order stays so when names and locals are added.
proof fn lemma_stmts_grown(w: ItemTextV, a: LowerV, b: LowerV, v: Seq<HirStmtV>)
    requires
        good(w, a),
        grown(a, b),
        stmts_ok(w, a, v),
    ensures
        stmts_ok(w, b, v),
{
    assert forall|i: int| 0 <= i < v.len() implies stmt_ok(w, b, #[trigger] v[i]) by {
        assert(stmt_ok(w, a, v[i]));
        if let HirStmtV::Assign { target, value, span } = v[i] {
            let k = target.base->Local_0 as int;
            assert(a.locals[k].name.raw < a.names.len());
            assert(b.locals[k] == a.locals[k]);
            assert(b.names[a.locals[k].name.raw as int] == a.names[a.locals[k].name.raw as int]);
        }
    }
}

proof fn lemma_grown(w: ItemTextV, a: LowerV, b: LowerV)
    requires
        good(w, a),
        grown(a, b),
    ensures
        forall|i: int|
            0 <= i < a.locals.len() ==> (#[trigger] b.locals[i]).name.raw < b.names.len() && spells(
                w,
                b.locals[i].span,
                name_text(b, i),
            ),
        forall|i: int|
            0 <= i < a.exprs.len() ==> node_ok(
                w,
                b,
                (#[trigger] a.exprs[i]).kind,
                a.exprs[i].span,
            ),
        forall|i: int| 0 <= i < a.scopes.len() ==> scope_ok(b, #[trigger] a.scopes[i]),
{
    assert forall|i: int| 0 <= i < a.locals.len() implies (#[trigger] b.locals[i]).name.raw
        < b.names.len() && spells(w, b.locals[i].span, name_text(b, i)) by {
        assert(b.locals[i] == a.locals[i]);
        assert(a.locals[i].name.raw < a.names.len());
        assert(b.names[a.locals[i].name.raw as int] == a.names[a.locals[i].name.raw as int]);
    }
    assert forall|i: int| 0 <= i < a.exprs.len() implies node_ok(
        w,
        b,
        (#[trigger] a.exprs[i]).kind,
        a.exprs[i].span,
    ) by {
        assert(node_ok(w, a, a.exprs[i].kind, a.exprs[i].span));
        match a.exprs[i].kind {
            HirExprKindV::Var(sym) => {
                let k = sym->Local_0 as int;
                assert(a.locals[k].name.raw < a.names.len());
                assert(b.locals[k] == a.locals[k]);
                assert(b.names[a.locals[k].name.raw as int]
                    == a.names[a.locals[k].name.raw as int]);
            },
            HirExprKindV::Block { stmts, tail } => {
                lemma_stmts_grown(w, a, b, stmts);
            },
            _ => {},
        }
    }
    assert forall|i: int| 0 <= i < a.scopes.len() implies scope_ok(b, #[trigger] a.scopes[i]) by {
        let m = a.scopes[i];
        assert(scope_ok(a, m));
        assert forall|k: usize| (#[trigger] entry(m, k)) is Some implies {
            let x = entry(m, k)->0;
            x < b.locals.len() && b.locals[x as int].name.raw == k
        } by {
            let x = entry(m, k)->0;
            assert(b.locals[x as int] == a.locals[x as int]);
        }
    }
}

// ---------- plain work ----------

proof fn lemma_intern(w: ItemTextV, st: LowerV, name: Seq<char>)
    ensures
        step(w, st, intern_in(st, name).0),
        ({
            let (b, n) = intern_in(st, name);
            fits(b) ==> n.raw < b.names.len() && b.names[n.raw as int] == name
        }),
{
    reveal(step);
    crate::source::lemma_position(st.names, name);
    let b = intern_in(st, name).0;
    assert(grown(st, b));
    if good(w, st) {
        lemma_grown(w, st, b);
    }
}

proof fn lemma_report(w: ItemTextV, st: LowerV, d: DiagnosticV)
    ensures
        step(w, st, report(st, d)),
{
    reveal(step);
    let b = report(st, d);
    assert(grown(st, b));
    if good(w, st) {
        lemma_grown(w, st, b);
    }
}

proof fn lemma_alloc(w: ItemTextV, st: LowerV, kind: HirExprKindV, sp: Span)
    requires
        fits(st) && good(w, st) ==> node_ok(w, st, kind, sp),
    ensures
        step(w, st, alloc_node(st, kind, sp).0),
{
    reveal(step);
    let b = alloc_node(st, kind, sp).0;
    assert(grown(st, b));
    if fits(b) && good(w, st) {
        lemma_grown(w, st, b);
        assert(node_ok(w, b, kind, sp)) by {
            if let HirExprKindV::Block { stmts, tail } = kind {
                lemma_stmts_grown(w, st, b, stmts);
            }
        }
        assert forall|i: int| 0 <= i < b.exprs.len() implies node_ok(
            w,
            b,
            (#[trigger] b.exprs[i]).kind,
            b.exprs[i].span,
        ) by {
            if i < st.exprs.len() {
                assert(b.exprs[i] == st.exprs[i]);
            }
        }
    }
}

proof fn lemma_poison(w: ItemTextV, st: LowerV, d: DiagnosticV, sp: Span)
    ensures
        step(w, st, poison(st, d, sp).0),
{
    let s1 = report(st, d);
    lemma_report(w, st, d);
    lemma_alloc(w, s1, HirExprKindV::Poison, sp);
    lemma_then(w, st, s1, poison(st, d, sp).0);
}

proof fn lemma_open(w: ItemTextV, st: LowerV)
    ensures
        step(w, st, open_scope(st)),
{
    reveal(step);
    let b = open_scope(st);
    assert(grown(st, b));
    if good(w, st) {
        lemma_grown(w, st, b);
        assert forall|i: int| 0 <= i < b.scopes.len() implies scope_ok(
            b,
            #[trigger] b.scopes[i],
        ) by {
            if i < st.scopes.len() {
                assert(b.scopes[i] == st.scopes[i]);
            }
        }
    }
}

proof fn lemma_close(w: ItemTextV, st: LowerV)
    ensures
        step(w, st, close_scope(st)),
        close_scope(st).names == st.names,
        close_scope(st).locals == st.locals,
{
    reveal(step);
    let b = close_scope(st);
    assert(grown(st, b));
    if good(w, st) {
        lemma_grown(w, st, b);
        assert forall|i: int| 0 <= i < b.scopes.len() implies scope_ok(
            b,
            #[trigger] b.scopes[i],
        ) by {
            assert(b.scopes[i] == st.scopes[i]);
        }
    }
}

proof fn lemma_declare(
    w: ItemTextV,
    cx: CtxV,
    st: LowerV,
    ident: IdentV,
    kind: SymbolKind,
    mutable: bool,
)
    requires
        spelled(w, ident),
    ensures
        step(w, st, declare(cx, st, ident, kind, mutable).0),
{
    reveal(declare);
    reveal(step);
    let (s1, n) = intern_in(st, ident.name);
    let b = declare(cx, st, ident, kind, mutable).0;
    lemma_intern(w, st, ident.name);
    assert(grown(s1, b));
    assert(grown(st, b)) by {
        assert forall|i: int| 0 <= i < st.locals.len() implies #[trigger] b.locals[i]
            == st.locals[i] by {}
    }
    if fits(b) && good(w, st) {
        lemma_grown(w, s1, b);
        let slot = s1.locals.len() as int;
        assert(b.locals[slot].name == n);
        assert(spells(w, b.locals[slot].span, name_text(b, slot)));
        assert forall|i: int| 0 <= i < b.locals.len() implies (#[trigger] b.locals[i]).name.raw
            < b.names.len() && spells(w, b.locals[i].span, name_text(b, i)) by {}
        assert forall|i: int| 0 <= i < b.scopes.len() implies scope_ok(
            b,
            #[trigger] b.scopes[i],
        ) by {
            if i < b.scopes.len() - 1 {
                assert(b.scopes[i] == s1.scopes[i]);
            } else {
                let m = s1.scopes.last();
                assert(scope_ok(b, s1.scopes[s1.scopes.len() - 1]));
                let m2 = m.insert(n.raw, slot as usize);
                assert(b.scopes[i] == m2);
                assert forall|k: usize| (#[trigger] entry(m2, k)) is Some implies {
                    let x = entry(m2, k)->0;
                    x < b.locals.len() && b.locals[x as int].name.raw == k
                } by {
                    if k != n.raw {
                        assert(entry(m, k) == entry(m2, k));
                    }
                }
            }
        }
    }
}

proof fn lemma_path_def(w: ItemTextV, cx: CtxV, st: LowerV, p: PathV)
    ensures
        step(w, st, path_def(cx, st, p).0),
{
    reveal(path_def);
    lemma_refl(w, st);
    if p.segs.len() == 1 {
        lemma_intern(w, st, p.segs[0].name);
    } else if p.segs.len() == 2 {
        let s1 = intern_in(st, p.segs[0].name).0;
        lemma_intern(w, st, p.segs[0].name);
        lemma_intern(w, s1, p.segs[1].name);
        lemma_then(w, st, s1, intern_in(s1, p.segs[1].name).0);
    }
}

proof fn lemma_variant_of(w: ItemTextV, cx: CtxV, st: LowerV, p: PathV)
    ensures
        step(w, st, variant_of(cx, st, p).0),
{
    reveal(variant_of);
    lemma_refl(w, st);
    if p.segs.len() == 2 {
        let s1 = intern_in(st, p.segs[0].name).0;
        lemma_intern(w, st, p.segs[0].name);
        lemma_intern(w, s1, p.segs[1].name);
        lemma_then(w, st, s1, intern_in(s1, p.segs[1].name).0);
    } else if p.segs.len() == 3 {
        let s1 = intern_in(st, p.segs[0].name).0;
        let s2 = intern_in(s1, p.segs[1].name).0;
        lemma_intern(w, st, p.segs[0].name);
        lemma_intern(w, s1, p.segs[1].name);
        lemma_then(w, st, s1, s2);
        lemma_intern(w, s2, p.segs[2].name);
        lemma_then(w, st, s2, intern_in(s2, p.segs[2].name).0);
    }
}

proof fn lemma_type(w: ItemTextV, cx: CtxV, st: LowerV, t: TypeExprV)
    ensures
        step(w, st, lower_type(cx, st, t).0),
    decreases t,
{
    reveal(lower_type);
    lemma_refl(w, st);
    let out = lower_type(cx, st, t).0;
    match t {
        TypeExprV::Array { elem, span } => {
            lemma_type(w, cx, st, *elem);
            let (s1, r) = lower_type(cx, st, *elem);
            lemma_refl(w, s1);
            lemma_report(
                w,
                s1,
                crate::diagnostic::error_of(
                    Code::UnsupportedOperation,
                    "nested array types are not supported yet"@,
                ).with_primary(span),
            );
            lemma_report(
                w,
                s1,
                crate::diagnostic::error_of(
                    Code::UnsupportedOperation,
                    "arrays cannot hold `unit` elements"@,
                ).with_primary(span),
            );
            lemma_then(w, st, s1, out);
        },
        TypeExprV::Named { path } => {
            lemma_path_def(w, cx, st, path);
            let (s1, found) = path_def(cx, st, path);
            lemma_refl(w, s1);
            match found {
                Ok(d) => {
                    lemma_report(w, s1, not_a_type(path));
                    lemma_then(w, st, s1, report(s1, not_a_type(path)));
                },
                Err(e) => {
                    let diag = path_diag(path, e, "type"@, Code::UnknownType);
                    lemma_report(w, s1, diag);
                    lemma_then(w, st, s1, report(s1, diag));
                },
            }
        },
    }
}

proof fn lemma_binds(w: ItemTextV, cx: CtxV, st: LowerV, binds: Seq<IdentV>)
    requires
        forall|i: int| 0 <= i < binds.len() ==> spelled(w, #[trigger] binds[i]),
    ensures
        step(w, st, lower_binds(cx, st, binds).0),
    decreases binds.len(),
{
    lemma_refl(w, st);
    if binds.len() > 0 {
        let head = binds.drop_last();
        assert forall|i: int| 0 <= i < head.len() implies spelled(w, #[trigger] head[i]) by {
            assert(head[i] == binds[i]);
        }
        lemma_binds(w, cx, st, binds.drop_last());
        let s1 = lower_binds(cx, st, binds.drop_last()).0;
        assert(spelled(w, binds[binds.len() - 1]));
        lemma_declare(w, cx, s1, binds.last(), SymbolKind::Local, false);
        lemma_then(w, st, s1, declare(cx, s1, binds.last(), SymbolKind::Local, false).0);
    }
}

proof fn lemma_pattern(w: ItemTextV, cx: CtxV, st: LowerV, p: PatternV)
    requires
        pattern_named(w, p),
    ensures
        step(w, st, lower_pattern(cx, st, p).0),
{
    reveal(lower_pattern);
    lemma_refl(w, st);
    match p {
        PatternV::Bind { name } => {
            lemma_declare(w, cx, st, name, SymbolKind::Local, false);
        },
        PatternV::Variant { path, binds, span } => {
            lemma_variant_of(w, cx, st, path);
            let (s1, found) = variant_of(cx, st, path);
            match found {
                Ok(v) => {
                    lemma_binds(w, cx, s1, binds);
                    lemma_then(w, st, s1, lower_binds(cx, s1, binds).0);
                },
                Err(e) => {
                    lemma_report(w, s1, variant_diag(cx, s1, path, e));
                    lemma_then(w, st, s1, report(s1, variant_diag(cx, s1, path, e)));
                },
            }
        },
    }
}

proof fn lemma_names(w: ItemTextV, st: LowerV, v: Seq<IdentV>)
    ensures
        step(w, st, lower_names(st, v).0),
    decreases v.len(),
{
    lemma_refl(w, st);
    if v.len() > 0 {
        lemma_names(w, st, v.drop_last());
        let s1 = lower_names(st, v.drop_last()).0;
        lemma_intern(w, s1, v.last().name);
        lemma_then(w, st, s1, intern_in(s1, v.last().name).0);
    }
}

/// An assignment to a place.
pub open spec fn assignment(target: HirPlaceV, value: ExprId, span: Span) -> HirStmtV {
    HirStmtV::Assign { target, value, span }
}

/// A name that a scope binds is the name of the local it is bound to.
proof fn lemma_lookup(w: ItemTextV, st: LowerV, scopes: Seq<Map<usize, usize>>, n: InternId)
    requires
        forall|i: int| 0 <= i < scopes.len() ==> scope_ok(st, #[trigger] scopes[i]) || !good(w, st),
    ensures
        good(w, st) ==> (lookup(scopes, n) matches Some(sym) ==> sym matches SymbolId::Local(i) && i
            < st.locals.len() && st.locals[i as int].name == n),
    decreases scopes.len(),
{
    if scopes.len() > 0 {
        let head = scopes.drop_last();
        assert forall|i: int| 0 <= i < head.len() implies scope_ok(st, #[trigger] head[i]) || !good(
            w,
            st,
        ) by {
            assert(head[i] == scopes[i]);
        }
        lemma_lookup(w, st, head, n);
        assert(scope_ok(st, scopes[scopes.len() - 1]) || !good(w, st));
        assert(entry(scopes.last(), n.raw) is Some || entry(scopes.last(), n.raw) is None);
        if let Some(i) = entry(scopes.last(), n.raw) {
            if good(w, st) {
                assert(st.locals[i as int].name.raw == n.raw);
            }
        }
    }
}

/// What a span covers is as long as the span.
proof fn lemma_spelled_len(src: Seq<char>, sp: Span, name: Seq<char>)
    requires
        is_spelled(src, sp, name),
    ensures
        bytes_of(name).len() == sp.end - sp.start,
{
    let b = bytes_of(src);
    let part = b.subrange(sp.start as int, sp.end as int);
    encode_utf8_valid_utf8(src);
    valid_utf8_split(b, sp.end as int);
    let front = b.subrange(0, sp.end as int);
    if sp.start < sp.end {
        is_char_boundary_iff_not_is_continuation_byte(b, sp.start as int);
        is_char_boundary_iff_not_is_continuation_byte(front, sp.start as int);
    } else {
        is_char_boundary_start_end_of_seq(front);
    }
    valid_utf8_split(front, sp.start as int);
    assert(front.subrange(sp.start as int, front.len() as int) =~= part);
    decode_utf8_encode_utf8(part);
}

/// An assignment target begins with its base.
proof fn lemma_base_token(w: ItemTextV, p: PlaceV)
    requires
        place_named(w, p),
    ensures
        ({
            let last = if p.fields.len() > 0 {
                p.fields.last().span
            } else {
                p.base.span
            };
            base_token(
                crate::source::span_cover(p.base.span, last),
                bytes_of(p.base.name).len(),
            ) == p.base.span
        }),
{
    reveal(spells);
    lemma_spelled_len(w.src, span_abs(p.base.span, w.base), p.base.name);
}

/// Statements in order stay so to the end of their block.
proof fn lemma_stmts_carried(
    w: ItemTextV,
    o: LowerV,
    s1: LowerV,
    s2: LowerV,
    v: Seq<HirStmtV>,
)
    requires
        step(w, o, s1),
        step(w, s1, s2),
        fits(s1) && good(w, o) ==> stmts_ok(w, s1, v),
    ensures
        fits(s2) && good(w, o) ==> stmts_ok(w, s2, v),
{
    reveal(step);
    if fits(s2) && good(w, o) {
        lemma_stmts_grown(w, s1, s2, v);
    }
}

proof fn lemma_place(w: ItemTextV, st: LowerV, p: PlaceV)
    requires
        place_named(w, p),
    ensures
        step(w, st, lower_place(st, p).0),
        fits(lower_place(st, p).0) && good(w, st) ==> (lower_place(st, p).1 matches Some(t)
            ==> forall|value: ExprId, span: Span|
            stmt_ok(
                w,
                lower_place(st, p).0,
                #[trigger] assignment(t, value, span),
            )),
{
    reveal(lower_place);
    let (s1, n) = intern_in(st, p.base.name);
    lemma_intern(w, st, p.base.name);
    let s2 = lower_names(s1, p.fields).0;
    lemma_names(w, s1, p.fields);
    lemma_then(w, st, s1, s2);
    let d = unknown_binding(p.base, Seq::empty());
    lemma_report(w, s1, d);
    lemma_then(w, st, s1, report(s1, d));
    if let Some(base) = lookup(s1.scopes, n) {
        reveal(step);
        if fits(s2) && good(w, st) {
            lemma_lookup(w, s1, s1.scopes, n);
            let i = base->Local_0 as int;
            assert(s2.locals[i] == s1.locals[i]);
            assert(s2.names[n.raw as int] == s1.names[n.raw as int]);
            assert(name_text(s2, i) == p.base.name);
            lemma_base_token(w, p);
        }
    }
}

proof fn lemma_variant_or(
    w: ItemTextV,
    cx: CtxV,
    st: LowerV,
    p: PathV,
    args: Seq<ExprId>,
    e: PathErr,
    what: Seq<char>,
    span: Span,
)
    ensures
        step(w, st, variant_or(cx, st, p, args, e, what, span).0),
{
    reveal(variant_or);
    lemma_variant_of(w, cx, st, p);
    let (s1, found) = variant_of(cx, st, p);
    match found {
        Ok((def, variant)) => {
            lemma_alloc(w, s1, HirExprKindV::VariantLit { def, variant, args }, span);
        },
        Err(VariantErr::NotVariant(d)) => {
            lemma_poison(w, s1, variant_diag(cx, s1, p, VariantErr::NotVariant(d)), span);
        },
        Err(_) => {
            lemma_poison(w, s1, path_diag(p, e, what, Code::UnknownSymbol), span);
        },
    }
    lemma_then(w, st, s1, variant_or(cx, st, p, args, e, what, span).0);
}

proof fn lemma_callee(
    w: ItemTextV,
    cx: CtxV,
    st: LowerV,
    callee: PathV,
    args: Seq<ExprId>,
    span: Span,
)
    ensures
        step(w, st, lower_callee(cx, st, callee, args, span).0),
{
    reveal(lower_callee);
    lemma_path_def(w, cx, st, callee);
    let (s1, found) = path_def(cx, st, callee);
    match found {
        Ok(d) => {
            lemma_alloc(w, s1, HirExprKindV::Call { def: d, args }, span);
            lemma_poison(w, s1, not_a_function(callee, Code::NotCallable), span);
        },
        Err(e) => {
            if e == PathErr::NotFound && callee.segs.len() == 1 {
                lemma_intern(w, s1, callee.segs[0].name);
                let s2 = intern_in(s1, callee.segs[0].name).0;
                lemma_poison(w, s2, not_a_function(callee, Code::NotCallable), span);
                lemma_poison(w, s2, not_a_function(callee, Code::UnknownSymbol), span);
                lemma_then(
                    w,
                    s1,
                    s2,
                    poison(s2, not_a_function(callee, Code::NotCallable), span).0,
                );
                lemma_then(
                    w,
                    s1,
                    s2,
                    poison(s2, not_a_function(callee, Code::UnknownSymbol), span).0,
                );
            } else {
                lemma_variant_or(w, cx, s1, callee, args, e, "function"@, span);
            }
        },
    }
    lemma_then(w, st, s1, lower_callee(cx, st, callee, args, span).0);
}

proof fn lemma_path_value(w: ItemTextV, cx: CtxV, st: LowerV, p: PathV, span: Span)
    ensures
        step(w, st, lower_path(cx, st, p, span).0),
{
    reveal(lower_path);
    lemma_path_def(w, cx, st, p);
    let (s1, found) = path_def(cx, st, p);
    match found {
        Ok(d) => {
            lemma_poison(w, s1, not_a_value(p, "a function"@), span);
            lemma_poison(w, s1, not_a_value(p, "a type"@), span);
        },
        Err(e) => {
            lemma_variant_or(w, cx, s1, p, Seq::empty(), e, "symbol"@, span);
        },
    }
    lemma_then(w, st, s1, lower_path(cx, st, p, span).0);
}

proof fn lemma_struct(
    w: ItemTextV,
    cx: CtxV,
    st: LowerV,
    name: PathV,
    fields: Seq<(Name, ExprId)>,
    span: Span,
)
    ensures
        step(w, st, lower_struct(cx, st, name, fields, span).0),
{
    reveal(lower_struct);
    lemma_path_def(w, cx, st, name);
    let (s1, found) = path_def(cx, st, name);
    match found {
        Ok(d) => {
            lemma_alloc(w, s1, HirExprKindV::StructLit { def: d, fields }, span);
            lemma_poison(w, s1, not_a_type(name), span);
        },
        Err(e) => {
            lemma_poison(w, s1, path_diag(name, e, "type"@, Code::UnknownType), span);
        },
    }
    lemma_then(w, st, s1, lower_struct(cx, st, name, fields, span).0);
}

proof fn lemma_var(w: ItemTextV, cx: CtxV, st: LowerV, name: IdentV, span: Span)
    requires
        spells(w, span, name.name),
    ensures
        step(w, st, lower_var(cx, st, name, span).0),
{
    reveal(lower_var);
    lemma_intern(w, st, name.name);
    let (s1, n) = intern_in(st, name.name);
    match lookup(s1.scopes, n) {
        Some(sym) => {
            lemma_lookup(w, s1, s1.scopes, n);
            lemma_alloc(w, s1, HirExprKindV::Var(sym), span);
        },
        None => {
            lemma_poison(w, s1, unknown_binding(name, describe(cx, n)), span);
        },
    }
    lemma_then(w, st, s1, lower_var(cx, st, name, span).0);
}

proof fn lemma_expr(w: ItemTextV, cx: CtxV, st: LowerV, e: ExprV)
    requires
        expr_named(w, e),
    ensures
        step(w, st, lower_expr(cx, st, e).0),
    decreases e,
{
    lemma_refl(w, st);
    let out = lower_expr(cx, st, e).0;
    match e {
        ExprV::Literal { value, span } => {
            lemma_alloc(w, st, HirExprKindV::Literal(value), span);
        },
        ExprV::Var { name } => {
            lemma_var(w, cx, st, name, name.span);
        },
        ExprV::Call { callee, args, span } => {
            lemma_exprs(w, cx, st, args);
            let (s1, ids) = lower_exprs(cx, st, args);
            lemma_callee(w, cx, s1, callee, ids, span);
            lemma_then(w, st, s1, out);
        },
        ExprV::Path { path } => {
            lemma_path_value(w, cx, st, path, path.span);
        },
        ExprV::Field { base, name, span } => {
            lemma_expr(w, cx, st, *base);
            let (s1, b) = lower_expr(cx, st, *base);
            lemma_intern(w, s1, name.name);
            let (s2, n) = intern_in(s1, name.name);
            lemma_then(w, st, s1, s2);
            lemma_alloc(
                w,
                s2,
                HirExprKindV::Field { base: b, name: Name { id: n, span: name.span }, field: None },
                span,
            );
            lemma_then(w, st, s2, out);
        },
        ExprV::Index { base, index, span } => {
            lemma_expr(w, cx, st, *base);
            let (s1, b) = lower_expr(cx, st, *base);
            lemma_expr(w, cx, s1, *index);
            let (s2, i) = lower_expr(cx, s1, *index);
            lemma_then(w, st, s1, s2);
            lemma_alloc(w, s2, HirExprKindV::Index { base: b, index: i }, span);
            lemma_then(w, st, s2, out);
        },
        ExprV::Slice { base, lo, hi, span } => {
            lemma_expr(w, cx, st, *base);
            let (s1, b) = lower_expr(cx, st, *base);
            let (s2, l) = match lo {
                Some(x) => {
                    lemma_expr(w, cx, s1, *x);
                    let (s, id) = lower_expr(cx, s1, *x);
                    (s, Some(id))
                },
                None => (s1, None),
            };
            lemma_refl(w, s1);
            lemma_then(w, st, s1, s2);
            let (s3, h) = match hi {
                Some(x) => {
                    lemma_expr(w, cx, s2, *x);
                    let (s, id) = lower_expr(cx, s2, *x);
                    (s, Some(id))
                },
                None => (s2, None),
            };
            lemma_refl(w, s2);
            lemma_then(w, st, s2, s3);
            lemma_alloc(w, s3, HirExprKindV::Slice { base: b, lo: l, hi: h }, span);
            lemma_then(w, st, s3, out);
        },
        ExprV::ArrayLit { elems, span } => {
            lemma_exprs(w, cx, st, elems);
            let (s1, ids) = lower_exprs(cx, st, elems);
            lemma_alloc(w, s1, HirExprKindV::ArrayLit { elems: ids }, span);
            lemma_then(w, st, s1, out);
        },
        ExprV::Range { lo, hi, span } => {
            let (s1, l) = match lo {
                Some(x) => {
                    lemma_expr(w, cx, st, *x);
                    let (s, id) = lower_expr(cx, st, *x);
                    (s, Some(id))
                },
                None => (st, None),
            };
            let (s2, h) = match hi {
                Some(x) => {
                    lemma_expr(w, cx, s1, *x);
                    let (s, id) = lower_expr(cx, s1, *x);
                    (s, Some(id))
                },
                None => (s1, None),
            };
            lemma_refl(w, s1);
            lemma_then(w, st, s1, s2);
            lemma_alloc(w, s2, HirExprKindV::Range { lo: l, hi: h }, span);
            lemma_then(w, st, s2, out);
        },
        ExprV::For { var, mutable, iter, body, span } => {
            lemma_expr(w, cx, st, *iter);
            let (s1, i) = lower_expr(cx, st, *iter);
            let o = open_scope(s1);
            lemma_open(w, s1);
            lemma_then(w, st, s1, o);
            lemma_declare(w, cx, o, var, SymbolKind::Local, mutable);
            let (s2, v) = declare(cx, o, var, SymbolKind::Local, mutable);
            lemma_block(w, cx, s2, body);
            let (s3, b) = lower_block(cx, s2, body);
            lemma_then(w, st, o, s2);
            lemma_then(w, st, s2, s3);
            lemma_close(w, s3);
            lemma_then(w, st, s3, close_scope(s3));
            lemma_alloc(w, close_scope(s3), HirExprKindV::For { var: v, iter: i, body: b }, span);
            lemma_then(w, st, close_scope(s3), out);
        },
        ExprV::Match { scrutinee, arms, span } => {
            lemma_expr(w, cx, st, *scrutinee);
            let (s1, s) = lower_expr(cx, st, *scrutinee);
            lemma_arms(w, cx, s1, arms);
            let (s2, hir) = lower_arms(cx, s1, arms);
            lemma_then(w, st, s1, s2);
            lemma_alloc(w, s2, HirExprKindV::Match { scrutinee: s, arms: hir }, span);
            lemma_then(w, st, s2, out);
        },
        ExprV::Binary { op, lhs, rhs, span } => {
            lemma_expr(w, cx, st, *lhs);
            let (s1, l) = lower_expr(cx, st, *lhs);
            lemma_expr(w, cx, s1, *rhs);
            let (s2, r) = lower_expr(cx, s1, *rhs);
            lemma_then(w, st, s1, s2);
            lemma_alloc(w, s2, HirExprKindV::Binary { op, lhs: l, rhs: r }, span);
            lemma_then(w, st, s2, out);
        },
        ExprV::Unary { op, expr, span } => {
            lemma_expr(w, cx, st, *expr);
            let (s1, i) = lower_expr(cx, st, *expr);
            lemma_alloc(w, s1, HirExprKindV::Unary { op, expr: i }, span);
            lemma_then(w, st, s1, out);
        },
        ExprV::If { cond, then_, else_, span } => {
            lemma_expr(w, cx, st, *cond);
            let (s1, c) = lower_expr(cx, st, *cond);
            lemma_block(w, cx, s1, then_);
            let (s2, t) = lower_block(cx, s1, then_);
            lemma_then(w, st, s1, s2);
            let (s3, f) = match else_ {
                Some(x) => {
                    lemma_expr(w, cx, s2, *x);
                    let (s, id) = lower_expr(cx, s2, *x);
                    (s, Some(id))
                },
                None => (s2, None),
            };
            lemma_refl(w, s2);
            lemma_then(w, st, s2, s3);
            lemma_alloc(w, s3, HirExprKindV::If { cond: c, then_: t, else_: f }, span);
            lemma_then(w, st, s3, out);
        },
        ExprV::Block { block, span } => {
            lemma_block(w, cx, st, block);
        },
        ExprV::StructLit { name, fields, span } => {
            lemma_inits(w, cx, st, fields);
            let (s1, fs) = lower_inits(cx, st, fields);
            lemma_struct(w, cx, s1, name, fs, span);
            lemma_then(w, st, s1, out);
        },
        ExprV::Error { span } => {
            lemma_alloc(w, st, HirExprKindV::Poison, span);
        },
    }
}

proof fn lemma_exprs(w: ItemTextV, cx: CtxV, st: LowerV, es: Seq<ExprV>)
    requires
        exprs_named(w, es),
    ensures
        step(w, st, lower_exprs(cx, st, es).0),
    decreases es,
{
    lemma_refl(w, st);
    if es.len() > 0 {
        lemma_exprs(w, cx, st, es.drop_last());
        let s1 = lower_exprs(cx, st, es.drop_last()).0;
        lemma_expr(w, cx, s1, es.last());
        lemma_then(w, st, s1, lower_expr(cx, s1, es.last()).0);
    }
}

proof fn lemma_inits(w: ItemTextV, cx: CtxV, st: LowerV, fs: Seq<FieldInitV>)
    requires
        inits_named(w, fs),
    ensures
        step(w, st, lower_inits(cx, st, fs).0),
    decreases fs,
{
    lemma_refl(w, st);
    if fs.len() > 0 {
        lemma_inits(w, cx, st, fs.drop_last());
        let s1 = lower_inits(cx, st, fs.drop_last()).0;
        let f = fs.last();
        lemma_intern(w, s1, f.name.name);
        let s2 = intern_in(s1, f.name.name).0;
        lemma_then(w, st, s1, s2);
        lemma_expr(w, cx, s2, f.value);
        lemma_then(w, st, s2, lower_expr(cx, s2, f.value).0);
    }
}

proof fn lemma_arms(w: ItemTextV, cx: CtxV, st: LowerV, arms: Seq<MatchArmV>)
    requires
        arms_named(w, arms),
    ensures
        step(w, st, lower_arms(cx, st, arms).0),
    decreases arms,
{
    lemma_refl(w, st);
    if arms.len() > 0 {
        lemma_arms(w, cx, st, arms.drop_last());
        let s1 = lower_arms(cx, st, arms.drop_last()).0;
        let a = arms.last();
        let o = open_scope(s1);
        lemma_open(w, s1);
        lemma_then(w, st, s1, o);
        lemma_pattern(w, cx, o, a.pat);
        let s2 = lower_pattern(cx, o, a.pat).0;
        lemma_expr(w, cx, s2, a.body);
        let s3 = lower_expr(cx, s2, a.body).0;
        lemma_then(w, st, o, s2);
        lemma_then(w, st, s2, s3);
        lemma_close(w, s3);
        lemma_then(w, st, s3, close_scope(s3));
    }
}

proof fn lemma_block(w: ItemTextV, cx: CtxV, st: LowerV, b: BlockV)
    requires
        block_named(w, b),
    ensures
        step(w, st, lower_block(cx, st, b).0),
    decreases b,
{
    let o = open_scope(st);
    lemma_open(w, st);
    lemma_stmts(w, cx, o, b.stmts);
    let (s1, stmts) = lower_stmts(cx, o, b.stmts);
    lemma_then(w, st, o, s1);
    let (s2, tail) = match b.tail {
        Some(x) => {
            lemma_expr(w, cx, s1, *x);
            let (s, id) = lower_expr(cx, s1, *x);
            (s, Some(id))
        },
        None => (s1, None),
    };
    lemma_refl(w, s1);
    lemma_then(w, st, s1, s2);
    lemma_close(w, s2);
    let c = close_scope(s2);
    lemma_then(w, st, s2, c);
    lemma_stmts_carried(w, o, s1, s2, stmts);
    let kind = HirExprKindV::Block { stmts, tail };
    reveal(step);
    assert(grown(st, c));
    let out = alloc_node(c, kind, b.span).0;
    if fits(c) && good(w, st) {
        assert(good(w, o) && good(w, c));
        assert(stmts_ok(w, c, stmts)) by {
            lemma_stmts_grown(w, s2, c, stmts);
        }
        lemma_alloc(w, c, kind, b.span);
    }
    assert(grown(st, out));
}

proof fn lemma_stmts(w: ItemTextV, cx: CtxV, st: LowerV, ss: Seq<StmtV>)
    requires
        stmts_named(w, ss),
    ensures
        step(w, st, lower_stmts(cx, st, ss).0),
        fits(lower_stmts(cx, st, ss).0) && good(w, st) ==> stmts_ok(
            w,
            lower_stmts(cx, st, ss).0,
            lower_stmts(cx, st, ss).1,
        ),
    decreases ss,
{
    lemma_refl(w, st);
    if ss.len() > 0 {
        lemma_stmts(w, cx, st, ss.drop_last());
        let (s1, done) = lower_stmts(cx, st, ss.drop_last());
        lemma_stmt(w, cx, s1, ss.last());
        let (s2, x) = lower_stmt(cx, s1, ss.last());
        lemma_then(w, st, s1, s2);
        reveal(step);
        reveal(yields);
        if fits(s2) && good(w, st) {
            lemma_stmts_grown(w, s1, s2, done);
        }
    }
}

/// A lowered statement is in order.
#[verifier::opaque]
pub open spec fn yields(w: ItemTextV, a: LowerV, b: LowerV, x: Option<HirStmtV>) -> bool {
    fits(b) && good(w, a) ==> (x matches Some(t) ==> stmt_ok(w, b, t))
}

proof fn lemma_yields(w: ItemTextV, a: LowerV, b: LowerV, x: Option<HirStmtV>)
    requires
        x matches Some(t) ==> !(t is Assign),
    ensures
        yields(w, a, b, x),
{
    reveal(yields);
}

proof fn lemma_assigned(
    w: ItemTextV,
    st: LowerV,
    s1: LowerV,
    target: PlaceV,
    v: ExprId,
    span: Span,
)
    requires
        step(w, st, s1),
        place_named(w, target),
    ensures
        step(w, st, lower_place(s1, target).0),
        lower_place(s1, target).1 matches Some(t) ==> yields(
            w,
            st,
            lower_place(s1, target).0,
            Some(HirStmtV::Assign { target: t, value: v, span }),
        ),
{
    reveal(yields);
    lemma_place(w, s1, target);
    let (s2, place) = lower_place(s1, target);
    lemma_then(w, st, s1, s2);
    if let Some(t) = place {
        if fits(s2) && good(w, st) {
            assert(good(w, s1)) by {
                assert(step(w, s1, s2));
                reveal(step);
            }
            assert(stmt_ok(w, s2, assignment(t, v, span)));
        }
    }
}

/// The tables behind a type annotation, if there is one.
pub open spec fn annotated(cx: CtxV, st: LowerV, ty: Option<TypeExprV>) -> LowerV {
    match ty {
        Some(x) => lower_type(cx, st, x).0,
        None => st,
    }
}

proof fn lemma_let(
    w: ItemTextV,
    cx: CtxV,
    st: LowerV,
    s1: LowerV,
    name: IdentV,
    mutable: bool,
    ty: Option<TypeExprV>,
)
    requires
        step(w, st, s1),
        spelled(w, name),
    ensures
        step(
            w,
            st,
            declare(cx, annotated(cx, s1, ty), name, SymbolKind::Local, mutable).0,
        ),
{
    let s2 = annotated(cx, s1, ty);
    lemma_refl(w, s1);
    if let Some(x) = ty {
        lemma_type(w, cx, s1, x);
    }
    lemma_then(w, st, s1, s2);
    lemma_declare(w, cx, s2, name, SymbolKind::Local, mutable);
    lemma_then(w, st, s2, declare(cx, s2, name, SymbolKind::Local, mutable).0);
}

/// A statement was lowered in order.
pub open spec fn lowers_well(w: ItemTextV, cx: CtxV, st: LowerV, s: StmtV) -> bool {
    let (b, x) = lower_stmt(cx, st, s);
    step(w, st, b) && yields(w, st, b, x)
}

proof fn lemma_let_stmt(w: ItemTextV, cx: CtxV, st: LowerV, s: StmtV)
    requires
        s is Let,
        spelled(w, s->Let_name),
        s->Let_init matches Some(x) ==> step(w, st, lower_expr(cx, st, x).0),
    ensures
        lowers_well(w, cx, st, s),
{
    if let StmtV::Let { name, mutable, ty, init, span } = s {
        lemma_refl(w, st);
        let s1 = match init {
            Some(x) => lower_expr(cx, st, x).0,
            None => st,
        };
        lemma_let(w, cx, st, s1, name, mutable, ty);
        lemma_yields(w, st, lower_stmt(cx, st, s).0, lower_stmt(cx, st, s).1);
    }
}

proof fn lemma_assign_stmt(w: ItemTextV, cx: CtxV, st: LowerV, s: StmtV)
    requires
        s is Assign,
        place_named(w, s->target),
        step(w, st, lower_expr(cx, st, s->Assign_value).0),
    ensures
        lowers_well(w, cx, st, s),
{
    if let StmtV::Assign { target, value, span } = s {
        let (s1, v) = lower_expr(cx, st, value);
        lemma_assigned(w, st, s1, target, v, span);
        if lower_place(s1, target).1 is None {
            lemma_yields(w, st, lower_place(s1, target).0, None);
        }
    }
}

proof fn lemma_other_stmt(w: ItemTextV, cx: CtxV, st: LowerV, s: StmtV)
    requires
        s is Expr || s is Return,
        s is Expr ==> step(w, st, lower_expr(cx, st, s->expr).0),
        s is Return ==> (s->Return_value matches Some(x) ==> step(
            w,
            st,
            lower_expr(cx, st, x).0,
        )),
    ensures
        lowers_well(w, cx, st, s),
{
    lemma_refl(w, st);
    lemma_yields(w, st, lower_stmt(cx, st, s).0, lower_stmt(cx, st, s).1);
}

proof fn lemma_stmt(w: ItemTextV, cx: CtxV, st: LowerV, s: StmtV)
    requires
        stmt_named(w, s),
    ensures
        lowers_well(w, cx, st, s),
    decreases s,
{
    match s {
        StmtV::Let { name, mutable, ty, init, span } => {
            if let Some(x) = init {
                lemma_expr(w, cx, st, x);
            }
            lemma_let_stmt(w, cx, st, s);
        },
        StmtV::Assign { target, value, span } => {
            lemma_expr(w, cx, st, value);
            lemma_assign_stmt(w, cx, st, s);
        },
        StmtV::Expr { expr, has_semi, span } => {
            lemma_expr(w, cx, st, expr);
            lemma_other_stmt(w, cx, st, s);
        },
        StmtV::Return { value, span } => {
            if let Some(x) = value {
                lemma_expr(w, cx, st, x);
            }
            lemma_other_stmt(w, cx, st, s);
        },
    }
}

// ---------- the whole body ----------

proof fn lemma_params(w: ItemTextV, cx: CtxV, st: LowerV, ps: Seq<ParamV>)
    requires
        forall|i: int| 0 <= i < ps.len() ==> spelled(w, (#[trigger] ps[i]).name),
    ensures
        step(w, st, lower_params(cx, st, ps)),
    decreases ps.len(),
{
    lemma_refl(w, st);
    if ps.len() > 0 {
        let head = ps.drop_last();
        assert forall|i: int| 0 <= i < head.len() implies spelled(w, (#[trigger] head[i]).name) by {
            assert(head[i] == ps[i]);
        }
        lemma_params(w, cx, st, head);
        let s1 = lower_params(cx, st, head);
        assert(spelled(w, ps[ps.len() - 1].name));
        lemma_declare(w, cx, s1, ps.last().name, SymbolKind::Param, ps.last().mutable);
        lemma_then(w, st, s1, lower_params(cx, st, ps));
    }
}

proof fn lemma_stmts_of(w: ItemTextV, st: LowerV, es: Seq<HirExprV>)
    requires
        forall|i: int|
            0 <= i < es.len() ==> node_ok(w, st, (#[trigger] es[i]).kind, es[i].span),
    ensures
        stmts_ok(w, st, stmts_of(es)),
    decreases es.len(),
{
    if es.len() > 0 {
        let head = es.drop_last();
        assert forall|i: int| 0 <= i < head.len() implies node_ok(
            w,
            st,
            (#[trigger] head[i]).kind,
            head[i].span,
        ) by {
            assert(head[i] == es[i]);
        }
        lemma_stmts_of(w, st, head);
        let e = es[es.len() - 1];
        assert(node_ok(w, st, e.kind, e.span));
        let done = stmts_of(head);
        let all = stmts_of(es);
        assert forall|i: int| 0 <= i < all.len() implies stmt_ok(w, st, #[trigger] all[i]) by {
            if i < done.len() {
                assert(all[i] == done[i]);
            } else {
                let own = e.kind->Block_stmts;
                assert(all[i] == own[i - done.len()]);
            }
        }
    }
}

/// The first locals of a body are the parameters, under their names.
pub open spec fn locals_named(b: HirBodyV, names: Seq<Seq<char>>, ps: Seq<ParamV>) -> bool {
    forall|i: int|
        0 <= i < ps.len() ==> local_name(b, names, SymbolId::Local(i as usize)) == Some(
            (#[trigger] ps[i]).name.name,
        )
}

proof fn lemma_param_names(w: ItemTextV, cx: CtxV, st: LowerV, ps: Seq<ParamV>)
    requires
        forall|i: int| 0 <= i < ps.len() ==> spelled(w, (#[trigger] ps[i]).name),
        st.locals.len() == 0,
        fits(lower_params(cx, st, ps)),
    ensures
        ({
            let b = lower_params(cx, st, ps);
            &&& b.locals.len() == ps.len()
            &&& forall|i: int|
                0 <= i < ps.len() ==> (#[trigger] b.locals[i]).name.raw < b.names.len()
                    && name_text(b, i) == ps[i].name.name
        }),
    decreases ps.len(),
{
    if ps.len() > 0 {
        let head = ps.drop_last();
        assert forall|i: int| 0 <= i < head.len() implies spelled(w, (#[trigger] head[i]).name) by {
            assert(head[i] == ps[i]);
        }
        let s1 = lower_params(cx, st, head);
        let q = ps[ps.len() - 1];
        let b = lower_params(cx, st, ps);
        lemma_declare(w, cx, s1, q.name, SymbolKind::Param, q.mutable);
        reveal(step);
        assert(grown(s1, b));
        lemma_param_names(w, cx, st, head);
        reveal(declare);
        let (s2, n) = intern_in(s1, q.name.name);
        lemma_intern(w, s1, q.name.name);
        assert forall|i: int| 0 <= i < ps.len() implies (#[trigger] b.locals[i]).name.raw
            < b.names.len() && name_text(b, i) == ps[i].name.name by {
            if i < head.len() {
                assert(b.locals[i] == s1.locals[i]);
                let k = s1.locals[i].name.raw as int;
                assert(b.names[k] == s1.names[k]);
            } else {
                assert(b.locals[i].name == n);
            }
        }
    }
}

/// Where the names that a function binds and uses are spelled, every
/// token of the lowered body that stands for a local covers its name,
/// and the first locals are the parameters. `later` are the names of the
/// session, which may have grown since.
pub proof fn law_lowered_locals_spelled(
    w: ItemTextV,
    f: FnDeclV,
    def: DefId,
    scope: ModuleScopeV,
    names: Seq<Seq<char>>,
    ds: Seq<DiagnosticV>,
    stamp: Option<FileId>,
    later: Seq<Seq<char>>,
)
    requires
        fn_named(w, f),
        lowered(f, def, scope, names, ds, stamp).0.local_symbols.len() <= usize::MAX,
        ({
            let known = lowered(f, def, scope, names, ds, stamp).1;
            &&& known.len() <= later.len() <= usize::MAX
            &&& forall|i: int| 0 <= i < known.len() ==> #[trigger] later[i] == known[i]
        }),
    ensures
        ({
            let body = lowered(f, def, scope, names, ds, stamp).0;
            &&& locals_are_spelled(w.src, later, w.base, body)
            &&& locals_named(body, later, f.params)
        }),
{
    reveal(spells);
    let cx = ctx_of(scope, def);
    let s0 = lower_start(names, ds, stamp);
    let s1 = lower_params(cx, s0, f.params);
    let st = lower_run(cx, s0, f).0;
    lemma_params(w, cx, s0, f.params);
    lemma_block(w, cx, s1, f.body);
    lemma_then(w, s0, s1, st);
    assert(good(w, s0)) by {
        assert(scope_ok(s0, s0.scopes[0]));
    }
    assert(good(w, st) && grown(s1, st)) by {
        reveal(step);
    }
    lemma_param_names(w, cx, s0, f.params);
    let body = lowered(f, def, scope, names, ds, stamp).0;
    assert forall|i: int| 0 <= i < st.locals.len() implies name_of(
        later,
        (#[trigger] st.locals[i]).name,
    ) == name_text(st, i) by {
        assert(st.locals[i].name.raw < st.names.len());
        assert(later[st.locals[i].name.raw as int] == st.names[st.locals[i].name.raw as int]);
    }
    lemma_stmts_of(w, st, st.exprs);
    assert forall|i: int| 0 <= i < body.exprs.len() implies read_is_spelled(
        w.src,
        later,
        w.base,
        body,
        #[trigger] body.exprs[i],
    ) by {
        assert(node_ok(w, st, st.exprs[i].kind, st.exprs[i].span));
        if let HirExprKindV::Var(sym) = body.exprs[i].kind {
            let k = sym->Local_0 as int;
            assert(name_of(later, st.locals[k].name) == name_text(st, k));
        }
    }
    let ss = stmts_of(body.exprs);
    assert forall|i: int| 0 <= i < ss.len() implies write_is_spelled(
        w.src,
        later,
        w.base,
        body,
        #[trigger] ss[i],
    ) by {
        assert(stmt_ok(w, st, ss[i]));
        if let HirStmtV::Assign { target, value, span } = ss[i] {
            let k = target.base->Local_0 as int;
            assert(name_of(later, st.locals[k].name) == name_text(st, k));
        }
    }
    assert forall|i: int| 0 <= i < body.local_symbols.len() implies is_spelled(
        w.src,
        span_abs((#[trigger] body.local_symbols[i]).span, w.base),
        name_of(later, body.local_symbols[i].name),
    ) by {
        assert(name_of(later, st.locals[i].name) == name_text(st, i));
    }
    let ps = f.params;
    assert forall|i: int| 0 <= i < ps.len() implies local_name(
        body,
        later,
        SymbolId::Local(i as usize),
    ) == Some((#[trigger] ps[i]).name.name) by {
        assert(st.locals[i] == s1.locals[i]);
        let k = s1.locals[i].name.raw as int;
        assert(st.names[k] == s1.names[k]);
        assert(name_of(later, st.locals[i].name) == name_text(st, i));
    }
}

} // verus!
