//! What rebasing an item keeps, and what it moves.

use crate::ast::{
    BlockV, ExprV, FieldInitV, IdentV, ItemV, MatchArmV, PathV, PatternV, PlaceV, StmtV, TypeExprV,
};
use crate::rebase::{
    abs_by, all_arm, all_block, all_expr, all_idents, all_init, all_item, all_path, all_pattern,
    all_place, all_stmt, all_type, law_rebase_round_trip, map_arm, map_block, map_data, map_expr,
    map_fn, map_idents, map_init, map_item, map_path, map_pattern, map_place, map_stmt, map_type,
    rel_by,
};
use crate::source::{span_rel, Span};
use vstd::prelude::*;

verus! {

proof fn lemma_same_idents(
    v: Seq<IdentV>,
    f: spec_fn(Span) -> Span,
)
    requires
        forall|s: Span| #[trigger] f(s) == s,
    ensures
        map_idents(v, f) == v,
{
    assert(map_idents(v, f) =~= v);
}

proof fn lemma_same_path(
    x: PathV,
    f: spec_fn(Span) -> Span,
)
    requires
        forall|s: Span| #[trigger] f(s) == s,
    ensures
        map_path(x, f) == x,
{
    lemma_same_idents(x.segs, f);
    assert(map_path(x, f) =~= x);
}

proof fn lemma_same_type(
    t: TypeExprV,
    f: spec_fn(Span) -> Span,
)
    requires
        forall|s: Span| #[trigger] f(s) == s,
    ensures
        map_type(t, f) == t,
    decreases t,
{
    match t {
        TypeExprV::Named { path } => {
            lemma_same_path(path, f);
        },
        TypeExprV::Array { elem, span } => {
            lemma_same_type(*elem, f);
        },
    }
}

proof fn lemma_same_place(
    x: PlaceV,
    f: spec_fn(Span) -> Span,
)
    requires
        forall|s: Span| #[trigger] f(s) == s,
    ensures
        map_place(x, f) == x,
{
    lemma_same_idents(x.fields, f);
    assert(map_place(x, f) =~= x);
}

proof fn lemma_same_pattern(
    x: PatternV,
    f: spec_fn(Span) -> Span,
)
    requires
        forall|s: Span| #[trigger] f(s) == s,
    ensures
        map_pattern(x, f) == x,
{
    match x {
        PatternV::Bind { name } => {},
        PatternV::Variant { path, binds, span } => {
            lemma_same_path(path, f);
            lemma_same_idents(binds, f);
        },
    }
}

proof fn lemma_same_expr(
    e: ExprV,
    f: spec_fn(Span) -> Span,
)
    requires
        forall|s: Span| #[trigger] f(s) == s,
    ensures
        map_expr(e, f) == e,
    decreases e,
{
    match e {
        ExprV::Literal { value, span } => {},
        ExprV::Var { name } => {},
        ExprV::Call { callee, args, span } => {
            lemma_same_path(callee, f);
            let out = map_expr(e, f)->Call_args;
            assert forall|i: int| 0 <= i < args.len() implies #[trigger] out[i] == args[i] by {
                lemma_same_expr(args[i], f);
            }
            assert(out =~= args);
        },
        ExprV::Field { base, name, span } => {
            lemma_same_expr(*base, f);
        },
        ExprV::Index { base, index, span } => {
            lemma_same_expr(*base, f);
            lemma_same_expr(*index, f);
        },
        ExprV::Slice { base, lo, hi, span } => {
            lemma_same_expr(*base, f);
            if let Some(x) = lo {
                lemma_same_expr(*x, f);
            }
            if let Some(x) = hi {
                lemma_same_expr(*x, f);
            }
        },
        ExprV::ArrayLit { elems, span } => {
            let out = map_expr(e, f)->ArrayLit_elems;
            assert forall|i: int| 0 <= i < elems.len() implies #[trigger] out[i] == elems[i] by {
                lemma_same_expr(elems[i], f);
            }
            assert(out =~= elems);
        },
        ExprV::Range { lo, hi, span } => {
            if let Some(x) = lo {
                lemma_same_expr(*x, f);
            }
            if let Some(x) = hi {
                lemma_same_expr(*x, f);
            }
        },
        ExprV::Match { scrutinee, arms, span } => {
            lemma_same_expr(*scrutinee, f);
            let out = map_expr(e, f)->Match_arms;
            assert forall|i: int| 0 <= i < arms.len() implies #[trigger] out[i] == arms[i] by {
                lemma_same_arm(arms[i], f);
            }
            assert(out =~= arms);
        },
        ExprV::For { var, mutable, iter, body, span } => {
            lemma_same_expr(*iter, f);
            lemma_same_block(body, f);
        },
        ExprV::Binary { op, lhs, rhs, span } => {
            lemma_same_expr(*lhs, f);
            lemma_same_expr(*rhs, f);
        },
        ExprV::Unary { op, expr, span } => {
            lemma_same_expr(*expr, f);
        },
        ExprV::If { cond, then_, else_, span } => {
            lemma_same_expr(*cond, f);
            lemma_same_block(then_, f);
            if let Some(x) = else_ {
                lemma_same_expr(*x, f);
            }
        },
        ExprV::Block { block, span } => {
            lemma_same_block(block, f);
        },
        ExprV::StructLit { name, fields, span } => {
            lemma_same_path(name, f);
            let out = map_expr(e, f)->StructLit_fields;
            assert forall|i: int| 0 <= i < fields.len() implies #[trigger] out[i] == fields[i] by {
                lemma_same_init(fields[i], f);
            }
            assert(out =~= fields);
        },
        ExprV::Path { path } => {
            lemma_same_path(path, f);
        },
        ExprV::Error { span } => {},
    }
}

proof fn lemma_same_stmt(
    s: StmtV,
    f: spec_fn(Span) -> Span,
)
    requires
        forall|s: Span| #[trigger] f(s) == s,
    ensures
        map_stmt(s, f) == s,
    decreases s,
{
    match s {
        StmtV::Let { name, mutable, ty, init, span } => {
            if let Some(x) = ty {
                lemma_same_type(x, f);
            }
            if let Some(x) = init {
                lemma_same_expr(x, f);
            }
        },
        StmtV::Assign { target, value, span } => {
            lemma_same_place(target, f);
            lemma_same_expr(value, f);
        },
        StmtV::Expr { expr, has_semi, span } => {
            lemma_same_expr(expr, f);
        },
        StmtV::Return { value, span } => {
            if let Some(x) = value {
                lemma_same_expr(x, f);
            }
        },
    }
}

proof fn lemma_same_block(
    x: BlockV,
    f: spec_fn(Span) -> Span,
)
    requires
        forall|s: Span| #[trigger] f(s) == s,
    ensures
        map_block(x, f) == x,
    decreases x,
{
    let out = map_block(x, f).stmts;
    assert forall|i: int| 0 <= i < x.stmts.len() implies #[trigger] out[i] == x.stmts[i] by {
        lemma_same_stmt(x.stmts[i], f);
    }
    assert(out =~= x.stmts);
    if let Some(e) = x.tail {
        lemma_same_expr(*e, f);
    }
}

proof fn lemma_same_arm(
    x: MatchArmV,
    f: spec_fn(Span) -> Span,
)
    requires
        forall|s: Span| #[trigger] f(s) == s,
    ensures
        map_arm(x, f) == x,
    decreases x,
{
    lemma_same_pattern(x.pat, f);
    lemma_same_expr(x.body, f);
}

proof fn lemma_same_init(
    x: FieldInitV,
    f: spec_fn(Span) -> Span,
)
    requires
        forall|s: Span| #[trigger] f(s) == s,
    ensures
        map_init(x, f) == x,
    decreases x,
{
    lemma_same_expr(x.value, f);
}

proof fn lemma_same_item(x: ItemV, f: spec_fn(Span) -> Span)
    requires
        forall|s: Span| #[trigger] f(s) == s,
    ensures
        map_item(x, f) == x,
{
    match x {
        ItemV::Data(d) => {
            let r = map_data(d, f);
            assert forall|i: int| 0 <= i < d.fields.len() implies #[trigger] r.fields[i]
                == d.fields[i] by {
                lemma_same_type(d.fields[i].ty, f);
            }
            assert(r.fields =~= d.fields);
            assert forall|i: int| 0 <= i < d.variants.len() implies #[trigger] r.variants[i]
                == d.variants[i] by {
                let v = d.variants[i];
                assert forall|j: int| 0 <= j < v.payload.len() implies map_type(
                    #[trigger] v.payload[j],
                    f,
                ) == v.payload[j] by {
                    lemma_same_type(v.payload[j], f);
                }
                assert(r.variants[i].payload =~= v.payload);
            }
            assert(r.variants =~= d.variants);
        },
        ItemV::Fn(d) => {
            let r = map_fn(d, f);
            assert forall|i: int| 0 <= i < d.params.len() implies #[trigger] r.params[i]
                == d.params[i] by {
                lemma_same_type(d.params[i].ty, f);
            }
            assert(r.params =~= d.params);
            if let Some(t) = d.ret {
                lemma_same_type(t, f);
            }
            lemma_same_block(d.body, f);
        },
    }
}

proof fn lemma_image_idents(
    v: Seq<IdentV>,
    f: spec_fn(Span) -> Span,
    p: spec_fn(Span) -> bool,
    q: spec_fn(Span) -> bool,
)
    requires
        forall|s: Span| #[trigger] p(s) ==> q(f(s)),
        all_idents(v, p),
    ensures
        all_idents(map_idents(v, f), q),
{
    let w = map_idents(v, f);
    assert forall|i: int| 0 <= i < w.len() implies q((#[trigger] w[i]).span) by {
        assert(p(v[i].span));
    }
}

proof fn lemma_image_path(
    x: PathV,
    f: spec_fn(Span) -> Span,
    p: spec_fn(Span) -> bool,
    q: spec_fn(Span) -> bool,
)
    requires
        forall|s: Span| #[trigger] p(s) ==> q(f(s)),
        all_path(x, p),
    ensures
        all_path(map_path(x, f), q),
{
    lemma_image_idents(x.segs, f, p, q);
}

proof fn lemma_image_type(
    t: TypeExprV,
    f: spec_fn(Span) -> Span,
    p: spec_fn(Span) -> bool,
    q: spec_fn(Span) -> bool,
)
    requires
        forall|s: Span| #[trigger] p(s) ==> q(f(s)),
        all_type(t, p),
    ensures
        all_type(map_type(t, f), q),
    decreases t,
{
    match t {
        TypeExprV::Named { path } => {
            lemma_image_path(path, f, p, q);
        },
        TypeExprV::Array { elem, span } => {
            lemma_image_type(*elem, f, p, q);
        },
    }
}

proof fn lemma_image_place(
    x: PlaceV,
    f: spec_fn(Span) -> Span,
    p: spec_fn(Span) -> bool,
    q: spec_fn(Span) -> bool,
)
    requires
        forall|s: Span| #[trigger] p(s) ==> q(f(s)),
        all_place(x, p),
    ensures
        all_place(map_place(x, f), q),
{
    lemma_image_idents(x.fields, f, p, q);
}

proof fn lemma_image_pattern(
    x: PatternV,
    f: spec_fn(Span) -> Span,
    p: spec_fn(Span) -> bool,
    q: spec_fn(Span) -> bool,
)
    requires
        forall|s: Span| #[trigger] p(s) ==> q(f(s)),
        all_pattern(x, p),
    ensures
        all_pattern(map_pattern(x, f), q),
{
    match x {
        PatternV::Bind { name } => {},
        PatternV::Variant { path, binds, span } => {
            lemma_image_path(path, f, p, q);
            lemma_image_idents(binds, f, p, q);
        },
    }
}

proof fn lemma_image_expr(
    e: ExprV,
    f: spec_fn(Span) -> Span,
    p: spec_fn(Span) -> bool,
    q: spec_fn(Span) -> bool,
)
    requires
        forall|s: Span| #[trigger] p(s) ==> q(f(s)),
        all_expr(e, p),
    ensures
        all_expr(map_expr(e, f), q),
    decreases e,
{
    match e {
        ExprV::Literal { value, span } => {},
        ExprV::Var { name } => {},
        ExprV::Call { callee, args, span } => {
            lemma_image_path(callee, f, p, q);
            let out = map_expr(e, f)->Call_args;
            assert forall|i: int| 0 <= i < out.len() implies all_expr(#[trigger] out[i], q) by {
                assert(all_expr(args[i], p));
                lemma_image_expr(args[i], f, p, q);
            }
        },
        ExprV::Field { base, name, span } => {
            lemma_image_expr(*base, f, p, q);
        },
        ExprV::Index { base, index, span } => {
            lemma_image_expr(*base, f, p, q);
            lemma_image_expr(*index, f, p, q);
        },
        ExprV::Slice { base, lo, hi, span } => {
            lemma_image_expr(*base, f, p, q);
            if let Some(x) = lo {
                lemma_image_expr(*x, f, p, q);
            }
            if let Some(x) = hi {
                lemma_image_expr(*x, f, p, q);
            }
        },
        ExprV::ArrayLit { elems, span } => {
            let out = map_expr(e, f)->ArrayLit_elems;
            assert forall|i: int| 0 <= i < out.len() implies all_expr(#[trigger] out[i], q) by {
                assert(all_expr(elems[i], p));
                lemma_image_expr(elems[i], f, p, q);
            }
        },
        ExprV::Range { lo, hi, span } => {
            if let Some(x) = lo {
                lemma_image_expr(*x, f, p, q);
            }
            if let Some(x) = hi {
                lemma_image_expr(*x, f, p, q);
            }
        },
        ExprV::Match { scrutinee, arms, span } => {
            lemma_image_expr(*scrutinee, f, p, q);
            let out = map_expr(e, f)->Match_arms;
            assert forall|i: int| 0 <= i < out.len() implies all_arm(#[trigger] out[i], q) by {
                assert(all_arm(arms[i], p));
                lemma_image_arm(arms[i], f, p, q);
            }
        },
        ExprV::For { var, mutable, iter, body, span } => {
            lemma_image_expr(*iter, f, p, q);
            lemma_image_block(body, f, p, q);
        },
        ExprV::Binary { op, lhs, rhs, span } => {
            lemma_image_expr(*lhs, f, p, q);
            lemma_image_expr(*rhs, f, p, q);
        },
        ExprV::Unary { op, expr, span } => {
            lemma_image_expr(*expr, f, p, q);
        },
        ExprV::If { cond, then_, else_, span } => {
            lemma_image_expr(*cond, f, p, q);
            lemma_image_block(then_, f, p, q);
            if let Some(x) = else_ {
                lemma_image_expr(*x, f, p, q);
            }
        },
        ExprV::Block { block, span } => {
            lemma_image_block(block, f, p, q);
        },
        ExprV::StructLit { name, fields, span } => {
            lemma_image_path(name, f, p, q);
            let out = map_expr(e, f)->StructLit_fields;
            assert forall|i: int| 0 <= i < out.len() implies all_init(#[trigger] out[i], q) by {
                assert(all_init(fields[i], p));
                lemma_image_init(fields[i], f, p, q);
            }
        },
        ExprV::Path { path } => {
            lemma_image_path(path, f, p, q);
        },
        ExprV::Error { span } => {},
    }
}

proof fn lemma_image_stmt(
    s: StmtV,
    f: spec_fn(Span) -> Span,
    p: spec_fn(Span) -> bool,
    q: spec_fn(Span) -> bool,
)
    requires
        forall|s: Span| #[trigger] p(s) ==> q(f(s)),
        all_stmt(s, p),
    ensures
        all_stmt(map_stmt(s, f), q),
    decreases s,
{
    match s {
        StmtV::Let { name, mutable, ty, init, span } => {
            if let Some(x) = ty {
                lemma_image_type(x, f, p, q);
            }
            if let Some(x) = init {
                lemma_image_expr(x, f, p, q);
            }
        },
        StmtV::Assign { target, value, span } => {
            lemma_image_place(target, f, p, q);
            lemma_image_expr(value, f, p, q);
        },
        StmtV::Expr { expr, has_semi, span } => {
            lemma_image_expr(expr, f, p, q);
        },
        StmtV::Return { value, span } => {
            if let Some(x) = value {
                lemma_image_expr(x, f, p, q);
            }
        },
    }
}

proof fn lemma_image_block(
    x: BlockV,
    f: spec_fn(Span) -> Span,
    p: spec_fn(Span) -> bool,
    q: spec_fn(Span) -> bool,
)
    requires
        forall|s: Span| #[trigger] p(s) ==> q(f(s)),
        all_block(x, p),
    ensures
        all_block(map_block(x, f), q),
    decreases x,
{
    let out = map_block(x, f).stmts;
    let stmts = x.stmts;
    assert forall|i: int| 0 <= i < out.len() implies all_stmt(#[trigger] out[i], q) by {
        assert(all_stmt(stmts[i], p));
        lemma_image_stmt(x.stmts[i], f, p, q);
    }
    if let Some(e) = x.tail {
        lemma_image_expr(*e, f, p, q);
    }
}

proof fn lemma_image_arm(
    x: MatchArmV,
    f: spec_fn(Span) -> Span,
    p: spec_fn(Span) -> bool,
    q: spec_fn(Span) -> bool,
)
    requires
        forall|s: Span| #[trigger] p(s) ==> q(f(s)),
        all_arm(x, p),
    ensures
        all_arm(map_arm(x, f), q),
    decreases x,
{
    lemma_image_pattern(x.pat, f, p, q);
    lemma_image_expr(x.body, f, p, q);
}

proof fn lemma_image_init(
    x: FieldInitV,
    f: spec_fn(Span) -> Span,
    p: spec_fn(Span) -> bool,
    q: spec_fn(Span) -> bool,
)
    requires
        forall|s: Span| #[trigger] p(s) ==> q(f(s)),
        all_init(x, p),
    ensures
        all_init(map_init(x, f), q),
    decreases x,
{
    lemma_image_expr(x.value, f, p, q);
}

/// Where no span moves, an item stays the same: rebasing changes spans
/// only, and keeps every part in its place.
pub proof fn law_rebase_changes_spans_only(item: ItemV)
    ensures
        map_item(item, |s: Span| s) == item,
{
    lemma_same_item(item, |s: Span| s);
}

/// The item itself comes back when its item-relative form is shifted by
/// its base.
pub proof fn law_rebased_item_restored(item: ItemV, base: u32)
    requires
        all_item(item, |s: Span| base <= s.start <= s.end),
    ensures
        map_item(map_item(item, rel_by(base)), abs_by(base)) == item,
{
    law_rebase_round_trip(item, base);
    law_rebase_changes_spans_only(item);
}

/// Rebasing moves every span of an item: whatever holds of the moved
/// spans holds of all the spans that the rebased item has.
pub proof fn law_rebase_moves_every_span(
    item: ItemV,
    base: u32,
    p: spec_fn(Span) -> bool,
    q: spec_fn(Span) -> bool,
)
    requires
        all_item(item, p),
        forall|s: Span| #[trigger] p(s) ==> q(span_rel(s, base)),
    ensures
        all_item(map_item(item, rel_by(base)), q),
{
    let f = rel_by(base);
    assert forall|s: Span| #[trigger] p(s) implies q(f(s)) by {}
    match item {
        ItemV::Data(d) => {
            let r = map_data(d, f);
            assert forall|i: int|
                #![trigger r.fields[i]]
                0 <= i < r.fields.len() implies q(r.fields[i].name.span) && q(r.fields[i].span)
                && all_type(r.fields[i].ty, q) by {
                let x = d.fields[i];
                lemma_image_type(x.ty, f, p, q);
                assert(p(x.name.span) && p(x.span));
            }
            assert forall|i: int|
                #![trigger r.variants[i]]
                0 <= i < r.variants.len() implies q(r.variants[i].name.span) && q(
                r.variants[i].span,
            ) by {
                let x = d.variants[i];
                assert(p(x.name.span) && p(x.span));
            }
            assert forall|i: int, j: int|
                #![trigger r.variants[i].payload[j]]
                0 <= i < r.variants.len() && 0 <= j
                    < r.variants[i].payload.len() implies all_type(
                r.variants[i].payload[j],
                q,
            ) by {
                assert(all_type(d.variants[i].payload[j], p));
                lemma_image_type(d.variants[i].payload[j], f, p, q);
            }
            assert(p(d.name.span) && p(d.span));
        },
        ItemV::Fn(d) => {
            let r = map_fn(d, f);
            assert forall|i: int|
                #![trigger r.params[i]]
                0 <= i < r.params.len() implies q(r.params[i].name.span) && q(r.params[i].span)
                && all_type(r.params[i].ty, q) by {
                let x = d.params[i];
                lemma_image_type(x.ty, f, p, q);
                assert(p(x.name.span) && p(x.span));
            }
            if let Some(t) = d.ret {
                lemma_image_type(t, f, p, q);
            }
            lemma_image_block(d.body, f, p, q);
            assert(p(d.name.span) && p(d.span));
        },
    }
}

} // verus!
