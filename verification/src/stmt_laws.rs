//! How blocks, arms and literals are read: each statement, arm and field
//! value one for one, in the order in which they stand.

use crate::ast::{ExprV, FieldInitV, MatchArmV, PatternV, PlaceV, StmtV};
use crate::ast_body::{
    arm_in, arms_in, assign_of, block_of, expr_at, expr_of, inits_in, let_of, match_in, place_of,
    stmts_in, value_of,
};
use crate::ast_laws::{
    count, lemma_count_grows, lemma_find_none, lemma_find_only, lowers, one_value, reads, reads_as,
};
use crate::ast_lower::{binds_in, first_name, name_of, path_of, pattern_of, type_of, type_ref};
use crate::decl_laws::{first_of, holds_token, none_of};
use crate::diagnostic::DiagnosticV;
use crate::syntax::{
    find, first, has_token, is_value_kind, node_at, token_at, wanted, ElemV, NodeV, SyntaxKind,
    Want,
};
use vstd::prelude::*;

verus! {

proof fn lemma_first(es: Seq<ElemV>, w: Want, i: int)
    ensures
        first_of(es, w, i) ==> first(es, w) == node_at(es, i) && find(es, w, 0) == i,
        none_of(es, w) ==> first(es, w) is None && find(es, w, 0) == es.len(),
{
    if first_of(es, w, i) {
        lemma_find_only(es, w, 0, i);
    }
    if none_of(es, w) {
        lemma_find_none(es, w, 0);
    }
}

proof fn lemma_has_token(es: Seq<ElemV>, k: SyntaxKind)
    ensures
        has_token(es, k) <==> holds_token(es, k),
{
    if has_token(es, k) {
        let i = choose|i: int|
            token_at(es, i) is Some && (#[trigger] token_at(es, i))->0.kind == k;
        assert(token_at(es, i) is Some);
    }
}

// ---------- patterns and arms ----------

proof fn lemma_binds(es: Seq<ElemV>, k: int)
    requires
        0 <= k <= es.len(),
    ensures
        binds_in(es, k).len() == count(es, Want::Kind(SyntaxKind::PatBind), k),
        forall|m: int|
            0 <= m < k && #[trigger] wanted(es, Want::Kind(SyntaxKind::PatBind), m) ==> binds_in(
                es,
                k,
            )[count(es, Want::Kind(SyntaxKind::PatBind), m) as int] == first_name(
                node_at(es, m)->0,
            ),
    decreases k,
{
    if k > 0 {
        let w = Want::Kind(SyntaxKind::PatBind);
        lemma_binds(es, k - 1);
        let front = binds_in(es, k - 1);
        let now = binds_in(es, k);
        let here = wanted(es, w, k - 1);
        assert forall|m: int| 0 <= m < k && #[trigger] wanted(es, w, m) implies now[count(
            es,
            w,
            m,
        ) as int] == first_name(node_at(es, m)->0) by {
            if m < k - 1 {
                lemma_count_grows(es, w, m, k - 1);
                assert(now[count(es, w, m) as int] == front[count(es, w, m) as int]);
            }
        }
    }
}

/// A pattern is read from its node: a binding from its name; a variant
/// from its path and from the bindings in it, one for one and in order.
pub proof fn law_pattern_read(n: NodeV, i: int, m: int)
    ensures
        n.kind == SyntaxKind::PatBind && first_of(n.children, Want::AnyName, i) ==> pattern_of(n)
            == (PatternV::Bind { name: name_of(node_at(n.children, i)->0) }),
        n.kind != SyntaxKind::PatBind ==> ({
            let w = Want::Kind(SyntaxKind::PatBind);
            &&& pattern_of(n) matches PatternV::Variant { path, binds, span }
            &&& path == path_of(n)
            &&& span == n.span
            &&& binds.len() == count(n.children, w, n.children.len() as int)
            &&& 0 <= m < n.children.len() && wanted(n.children, w, m) ==> forall|k: int|
                #[trigger]
                first_of(node_at(n.children, m)->0.children, Want::AnyName, k) ==> binds[count(
                    n.children,
                    w,
                    m,
                ) as int] == name_of(node_at(node_at(n.children, m)->0.children, k)->0)
        }),
{
    lemma_first(n.children, Want::AnyName, i);
    lemma_binds(n.children, n.children.len() as int);
    if 0 <= m < n.children.len() && wanted(n.children, Want::Kind(SyntaxKind::PatBind), m) {
        let c = node_at(n.children, m)->0;
        assert forall|k: int| #[trigger] first_of(c.children, Want::AnyName, k) implies first_name(
            c,
        ) == name_of(node_at(c.children, k)->0) by {
            lemma_first(c.children, Want::AnyName, k);
        }
    }
}

/// A pattern node.
pub open spec fn pattern_kind(k: SyntaxKind) -> bool {
    k == SyntaxKind::PatBind || k == SyntaxKind::PatVariant
}

/// An arm holds one pattern, at `p`, and one value, at `v`.
pub open spec fn arm_shape(c: NodeV, p: int, v: int) -> bool {
    let es = c.children;
    &&& 0 <= p < es.len() && 0 <= v < es.len()
    &&& node_at(es, p) is Some && pattern_kind(node_at(es, p)->0.kind)
    &&& forall|m: int|
        0 <= m < es.len() && (#[trigger] node_at(es, m)) is Some && pattern_kind(
            node_at(es, m)->0.kind,
        ) ==> m == p
    &&& forall|m: int| 0 <= m < es.len() ==> (#[trigger] wanted(es, Want::Value, m) <==> m == v)
    &&& lowers(node_at(es, v)->0)
}

/// An arm is read from its node: its pattern from the pattern, its body
/// from the value.
pub open spec fn reads_arm(a: MatchArmV, c: NodeV) -> bool {
    &&& a.span == c.span
    &&& forall|p: int, v: int| #[trigger]
        arm_shape(c, p, v) ==> a.pat == pattern_of(node_at(c.children, p)->0) && reads(
            a.body,
            node_at(c.children, v)->0,
        )
}

proof fn lemma_arm(c: NodeV, p: int, v: int, k: int, ds: Seq<DiagnosticV>)
    requires
        arm_shape(c, p, v),
        0 <= k <= c.children.len(),
    ensures
        k > p ==> arm_in(c.children, k, c.span, ds).1.0 == pattern_of(node_at(c.children, p)->0),
        k > v ==> reads(arm_in(c.children, k, c.span, ds).1.1, node_at(c.children, v)->0),
    decreases k,
{
    if k > 0 {
        lemma_arm(c, p, v, k - 1, ds);
        let es = c.children;
        let ds1 = arm_in(es, k - 1, c.span, ds).0;
        let here = wanted(es, Want::Value, k - 1);
        assert(here <==> k - 1 == v);
        let n = node_at(es, k - 1);
        if here {
            assert(expr_of(n->0, ds1).1 is Some);
            assert(reads(expr_of(n->0, ds1).1->0, n->0));
        }
    }
}

proof fn lemma_arms(es: Seq<ElemV>, k: int, ds: Seq<DiagnosticV>)
    requires
        0 <= k <= es.len(),
    ensures
        arms_in(es, k, ds).1.len() == count(es, Want::Kind(SyntaxKind::MatchArm), k),
        forall|m: int|
            0 <= m < k && #[trigger] wanted(es, Want::Kind(SyntaxKind::MatchArm), m) ==> reads_arm(
                arms_in(es, k, ds).1[count(es, Want::Kind(SyntaxKind::MatchArm), m) as int],
                node_at(es, m)->0,
            ),
    decreases k,
{
    if k > 0 {
        let w = Want::Kind(SyntaxKind::MatchArm);
        lemma_arms(es, k - 1, ds);
        let (ds1, front) = arms_in(es, k - 1, ds);
        let now = arms_in(es, k, ds).1;
        if wanted(es, w, k - 1) {
            let c = node_at(es, k - 1)->0;
            let a = now.last();
            assert forall|p: int, v: int| #[trigger] arm_shape(c, p, v) implies a.pat == pattern_of(
                node_at(c.children, p)->0,
            ) && reads(a.body, node_at(c.children, v)->0) by {
                lemma_arm(c, p, v, c.children.len() as int, ds1);
            }
        }
        assert forall|m: int| 0 <= m < k && #[trigger] wanted(es, w, m) implies reads_arm(
            now[count(es, w, m) as int],
            node_at(es, m)->0,
        ) by {
            if m < k - 1 {
                lemma_count_grows(es, w, m, k - 1);
                assert(now[count(es, w, m) as int] == front[count(es, w, m) as int]);
            }
        }
    }
}

proof fn lemma_match(es: Seq<ElemV>, v: int, l: int, k: int, ds: Seq<DiagnosticV>)
    requires
        0 <= v < es.len(),
        0 <= l < es.len(),
        0 <= k <= es.len(),
        forall|m: int| 0 <= m < es.len() ==> (#[trigger] wanted(es, Want::Value, m) <==> m == v),
        forall|m: int|
            0 <= m < es.len() ==> (#[trigger] wanted(es, Want::Kind(SyntaxKind::MatchArmList), m)
                <==> m == l),
        lowers(node_at(es, v)->0),
    ensures
        ({
            let (scrutinee, arms) = match_in(es, k, ds).1;
            let list = node_at(es, l)->0.children;
            &&& if k > v {
                scrutinee is Some && reads(scrutinee->0, node_at(es, v)->0)
            } else {
                scrutinee is None
            }
            &&& if k > l {
                exists|d: Seq<DiagnosticV>|
                    arms == (#[trigger] arms_in(list, list.len() as int, d)).1
            } else {
                arms.len() == 0
            }
        }),
    decreases k,
{
    if k > 0 {
        lemma_match(es, v, l, k - 1, ds);
        let (ds1, (scrutinee, arms)) = match_in(es, k - 1, ds);
        let here = wanted(es, Want::Value, k - 1);
        let list_here = wanted(es, Want::Kind(SyntaxKind::MatchArmList), k - 1);
        assert(here <==> k - 1 == v);
        assert(list_here <==> k - 1 == l);
        match es[k - 1] {
            ElemV::Node(c) => {
                if c.kind == SyntaxKind::MatchArmList {
                    let more = arms_in(c.children, c.children.len() as int, ds1).1;
                    assert(arms + more =~= more);
                    assert(match_in(es, k, ds).1.1 == more);
                } else if is_value_kind(c.kind) {
                    assert(expr_of(c, ds1).1 is Some);
                    assert(reads(expr_of(c, ds1).1->0, c));
                }
            },
            ElemV::Token(t) => {},
        }
    }
}

/// A match is read with the value it is about and with the arms of its
/// list, one for one and in order.
pub proof fn law_match_read(n: NodeV, v: int, l: int, m: int, ds: Seq<DiagnosticV>)
    requires
        n.kind == SyntaxKind::MatchExpr,
        0 <= v < n.children.len(),
        0 <= l < n.children.len(),
        forall|k: int|
            0 <= k < n.children.len() ==> (#[trigger] wanted(n.children, Want::Value, k) <==> k
                == v),
        forall|k: int|
            0 <= k < n.children.len() ==> (#[trigger] wanted(
                n.children,
                Want::Kind(SyntaxKind::MatchArmList),
                k,
            ) <==> k == l),
        lowers(node_at(n.children, v)->0),
    ensures
        ({
            let list = node_at(n.children, l)->0.children;
            let w = Want::Kind(SyntaxKind::MatchArm);
            &&& expr_of(n, ds).1 matches Some(ExprV::Match { scrutinee, arms, span })
            &&& span == n.span
            &&& reads(*scrutinee, node_at(n.children, v)->0)
            &&& arms.len() == count(list, w, list.len() as int)
            &&& 0 <= m < list.len() && wanted(list, w, m) ==> reads_arm(
                arms[count(list, w, m) as int],
                node_at(list, m)->0,
            )
        }),
{
    let es = n.children;
    let list = node_at(es, l)->0.children;
    lemma_match(es, v, l, es.len() as int, ds);
    let arms = match_in(es, es.len() as int, ds).1.1;
    let d = choose|d: Seq<DiagnosticV>| arms == (#[trigger] arms_in(list, list.len() as int, d)).1;
    lemma_arms(list, list.len() as int, d);
    assert(expr_of(n, ds) == crate::ast_body::match_of(n, ds));
}

// ---------- literals of a `data` ----------

/// A field value holds a name, at `i`, and a value behind it, at `j`.
pub open spec fn init_shape(c: NodeV, i: int, j: int) -> bool {
    &&& 0 <= i < j < c.children.len()
    &&& one_value(c.children, 0, j, i)
    &&& wanted(c.children, Want::Value, j)
    &&& node_at(c.children, i)->0.kind == SyntaxKind::NameRef
    &&& lowers(node_at(c.children, j)->0)
}

/// A field value is read from its node.
pub open spec fn reads_init(f: FieldInitV, c: NodeV) -> bool {
    &&& f.span == c.span
    &&& forall|i: int, j: int| #[trigger]
        init_shape(c, i, j) ==> f.name == name_of(node_at(c.children, i)->0) && reads(
            f.value,
            node_at(c.children, j)->0,
        )
}

proof fn lemma_init(c: NodeV, i: int, j: int)
    requires
        init_shape(c, i, j),
    ensures
        find(c.children, Want::Value, 0) == i,
        find(c.children, Want::Value, i + 1) == j,
        node_at(c.children, i) is Some,
        node_at(c.children, j) is Some,
{
    assert(wanted(c.children, Want::Value, i));
    lemma_find_only(c.children, Want::Value, 0, i);
    lemma_find_only(c.children, Want::Value, i + 1, j);
}

proof fn lemma_inits(es: Seq<ElemV>, k: int, ds: Seq<DiagnosticV>)
    requires
        0 <= k <= es.len(),
        forall|m: int|
            0 <= m < es.len() && #[trigger] wanted(es, Want::Kind(SyntaxKind::StructLitField), m)
                ==> exists|i: int, j: int| init_shape(node_at(es, m)->0, i, j),
    ensures
        inits_in(es, k, ds).1.len() == count(es, Want::Kind(SyntaxKind::StructLitField), k),
        forall|m: int|
            0 <= m < k && #[trigger] wanted(es, Want::Kind(SyntaxKind::StructLitField), m)
                ==> reads_init(
                inits_in(es, k, ds).1[count(
                    es,
                    Want::Kind(SyntaxKind::StructLitField),
                    m,
                ) as int],
                node_at(es, m)->0,
            ),
    decreases k,
{
    if k > 0 {
        let w = Want::Kind(SyntaxKind::StructLitField);
        lemma_inits(es, k - 1, ds);
        let (ds1, front) = inits_in(es, k - 1, ds);
        let now = inits_in(es, k, ds).1;
        if wanted(es, w, k - 1) {
            let c = node_at(es, k - 1)->0;
            let (i, j) = choose|i: int, j: int| init_shape(c, i, j);
            lemma_init(c, i, j);
            let x = node_at(c.children, j)->0;
            assert(expr_at(c.children, j, ds1) == expr_of(x, ds1));
            assert(expr_of(x, ds1).1 is Some);
            assert(reads(expr_of(x, ds1).1->0, x));
            assert(now == front.push(
                FieldInitV {
                    name: name_of(node_at(c.children, i)->0),
                    value: expr_of(x, ds1).1->0,
                    span: c.span,
                },
            ));
            assert forall|a: int, b: int| #[trigger] init_shape(c, a, b) implies a == i && b
                == j by {
                lemma_init(c, a, b);
            }
        }
        assert forall|m: int| 0 <= m < k && #[trigger] wanted(es, w, m) implies reads_init(
            now[count(es, w, m) as int],
            node_at(es, m)->0,
        ) by {
            if m < k - 1 {
                lemma_count_grows(es, w, m, k - 1);
                assert(now[count(es, w, m) as int] == front[count(es, w, m) as int]);
            }
        }
    }
}

/// A literal of a `data` is read with its type's name and with its field
/// values one for one, in order, each under its own name.
pub proof fn law_struct_literal_read(n: NodeV, t: int, m: int, ds: Seq<DiagnosticV>)
    requires
        n.kind == SyntaxKind::StructLit,
        first_of(n.children, Want::NameOrPath, t),
        forall|k: int|
            0 <= k < n.children.len() && #[trigger] wanted(
                n.children,
                Want::Kind(SyntaxKind::StructLitField),
                k,
            ) ==> exists|i: int, j: int| init_shape(node_at(n.children, k)->0, i, j),
    ensures
        ({
            let c = node_at(n.children, t)->0;
            let w = Want::Kind(SyntaxKind::StructLitField);
            &&& expr_of(n, ds).1 matches Some(ExprV::StructLit { name, fields, span })
            &&& span == n.span
            &&& if c.kind == SyntaxKind::PathExpr {
                name == path_of(c)
            } else {
                name.segs.len() == 1 && name.segs[0] == name_of(c)
            }
            &&& fields.len() == count(n.children, w, n.children.len() as int)
            &&& 0 <= m < n.children.len() && wanted(n.children, w, m) ==> reads_init(
                fields[count(n.children, w, m) as int],
                node_at(n.children, m)->0,
            )
        }),
{
    lemma_first(n.children, Want::NameOrPath, t);
    lemma_inits(n.children, n.children.len() as int, ds);
}

// ---------- statements ----------

/// A kind of node that is read as a statement.
pub open spec fn stmt_kind(k: SyntaxKind) -> bool {
    k == SyntaxKind::LetStmt || k == SyntaxKind::AssignStmt || k == SyntaxKind::ReturnStmt || k
        == SyntaxKind::ExprStmt
}

/// How many statements stand in front of a position.
pub open spec fn stmts_before(es: Seq<ElemV>, m: int) -> nat
    decreases m,
{
    if m <= 0 {
        0
    } else {
        stmts_before(es, m - 1) + if node_at(es, m - 1) is Some && stmt_kind(
            node_at(es, m - 1)->0.kind,
        ) {
            1nat
        } else {
            0
        }
    }
}

/// The value of a statement is what the first value in it is read as;
/// there is none where the statement holds no value.
pub open spec fn reads_value(e: Option<ExprV>, c: NodeV) -> bool {
    &&& forall|i: int| #[trigger]
        first_of(c.children, Want::Value, i) ==> reads_as(e, node_at(c.children, i)->0)
    &&& none_of(c.children, Want::Value) ==> e is None
}

/// A node that ends its block: an expression without a semicolon, behind
/// which no node follows.
pub open spec fn ends_block(es: Seq<ElemV>, m: int) -> bool {
    &&& 0 <= m < es.len()
    &&& node_at(es, m) is Some
    &&& node_at(es, m)->0.kind == SyntaxKind::ExprStmt
    &&& !holds_token(node_at(es, m)->0.children, SyntaxKind::Semicolon)
    &&& forall|k: int| m < k < es.len() ==> (#[trigger] node_at(es, k)) is None
}

/// A statement is read from its node: a `let` with its name, that it is
/// mutable, its type and, behind `=`, its value; an assignment with its
/// target and its value; a `return` with its value; an expression with
/// whether a semicolon follows.
pub open spec fn reads_stmt(s: StmtV, c: NodeV) -> bool {
    match c.kind {
        SyntaxKind::LetStmt => {
            &&& s matches StmtV::Let { name, mutable, ty, init, span }
            &&& span == c.span
            &&& forall|i: int| #[trigger]
                first_of(c.children, Want::Kind(SyntaxKind::Name), i) ==> name == name_of(
                    node_at(c.children, i)->0,
                )
            &&& mutable <==> holds_token(c.children, SyntaxKind::MutKw)
            &&& forall|i: int| #[trigger]
                first_of(c.children, Want::Kind(SyntaxKind::TypeRef), i) ==> ty == Some(
                    type_of(node_at(c.children, i)->0),
                )
            &&& none_of(c.children, Want::Kind(SyntaxKind::TypeRef)) ==> ty is None
            &&& if holds_token(c.children, SyntaxKind::Eq) {
                reads_value(init, c)
            } else {
                init is None
            }
        },
        SyntaxKind::AssignStmt => {
            &&& s matches StmtV::Assign { target, value, span }
            &&& span == c.span
            &&& forall|i: int, j: int| #[trigger]
                assign_shape(c, i, j) ==> reads(value, node_at(c.children, j)->0) && exists|
                    ds: Seq<DiagnosticV>,
                |
                    (#[trigger] place_of(node_at(c.children, i)->0, ds)).1 == Some(target)
        },
        SyntaxKind::ReturnStmt => s matches StmtV::Return { value, span } && span == c.span
            && reads_value(value, c),
        SyntaxKind::ExprStmt => s matches StmtV::Expr { expr, has_semi, span } && span == c.span
            && reads_value(Some(expr), c) && (has_semi <==> holds_token(
            c.children,
            SyntaxKind::Semicolon,
        )),
        _ => false,
    }
}

/// An assignment holds a target, at `i`, and a value behind it, at `j`.
pub open spec fn assign_shape(c: NodeV, i: int, j: int) -> bool {
    &&& 0 <= i < j < c.children.len()
    &&& one_value(c.children, 0, j, i)
    &&& wanted(c.children, Want::Value, j)
}

/// A statement node that is read as a statement: a `let` has a name, an
/// assignment a target that is a place and a value, an expression a
/// value.
pub open spec fn readable(c: NodeV) -> bool {
    match c.kind {
        SyntaxKind::LetStmt => exists|i: int|
            first_of(c.children, Want::Kind(SyntaxKind::Name), i),
        SyntaxKind::AssignStmt => exists|i: int, j: int| #[trigger]
            assign_shape(c, i, j) && lowers(node_at(c.children, j)->0) && forall|
                ds: Seq<DiagnosticV>,
            |
                (#[trigger] place_of(node_at(c.children, i)->0, ds)).1 is Some,
        SyntaxKind::ExprStmt => exists|i: int| #[trigger]
            first_of(c.children, Want::Value, i) && lowers(node_at(c.children, i)->0),
        _ => true,
    }
}

proof fn lemma_value(c: NodeV, ds: Seq<DiagnosticV>)
    ensures
        reads_value(value_of(c, ds).1, c),
{
    let es = c.children;
    assert forall|i: int| #[trigger] first_of(es, Want::Value, i) implies reads_as(
        value_of(c, ds).1,
        node_at(es, i)->0,
    ) by {
        lemma_first(es, Want::Value, i);
        let x = node_at(es, i)->0;
        assert(expr_at(es, i, ds) == expr_of(x, ds));
        assert(expr_of(x, ds).1 == value_of(c, ds).1);
    }
    lemma_first(es, Want::Value, 0);
    if none_of(es, Want::Value) {
        assert(expr_at(es, es.len() as int, ds).1 is None);
    }
}

proof fn lemma_let(c: NodeV, ds: Seq<DiagnosticV>)
    requires
        c.kind == SyntaxKind::LetStmt,
        readable(c),
    ensures
        let_of(c, ds).1 is Some,
        reads_stmt(let_of(c, ds).1->0, c),
{
    let es = c.children;
    let n = choose|i: int| first_of(es, Want::Kind(SyntaxKind::Name), i);
    assert(first_of(es, Want::Kind(SyntaxKind::Name), n));
    lemma_first(es, Want::Kind(SyntaxKind::Name), n);
    assert forall|i: int| #[trigger] first_of(
        es,
        Want::Kind(SyntaxKind::Name),
        i,
    ) implies name_of(node_at(es, n)->0) == name_of(node_at(es, i)->0) by {
        lemma_first(es, Want::Kind(SyntaxKind::Name), i);
    }
    let w = Want::Kind(SyntaxKind::TypeRef);
    assert forall|i: int| #[trigger] first_of(es, w, i) implies type_ref(c) == Some(
        type_of(node_at(es, i)->0),
    ) by {
        lemma_first(es, w, i);
    }
    lemma_first(es, w, 0);
    lemma_has_token(es, SyntaxKind::MutKw);
    lemma_has_token(es, SyntaxKind::Eq);
    lemma_value(c, ds);
}

proof fn lemma_assign(c: NodeV, ds: Seq<DiagnosticV>)
    requires
        c.kind == SyntaxKind::AssignStmt,
        readable(c),
    ensures
        assign_of(c, ds).1 is Some,
        reads_stmt(assign_of(c, ds).1->0, c),
{
    let es = c.children;
    let (i, j) = choose|i: int, j: int| #[trigger]
        assign_shape(c, i, j) && lowers(node_at(c.children, j)->0) && forall|
            ds: Seq<DiagnosticV>,
        |
            (#[trigger] place_of(node_at(c.children, i)->0, ds)).1 is Some;
    assert(wanted(es, Want::Value, i));
    lemma_find_only(es, Want::Value, 0, i);
    lemma_find_only(es, Want::Value, i + 1, j);
    let x = node_at(es, j)->0;
    let t = node_at(es, i)->0;
    assert(expr_at(es, j, ds) == expr_of(x, ds));
    assert(expr_of(x, ds).1 is Some);
    assert(reads(expr_of(x, ds).1->0, x));
    let ds1 = expr_of(x, ds).0;
    assert(place_of(t, ds1).1 is Some);
    assert forall|a: int, b: int| #[trigger] assign_shape(c, a, b) implies a == i && b == j by {
        assert(wanted(es, Want::Value, a));
        lemma_find_only(es, Want::Value, 0, a);
        lemma_find_only(es, Want::Value, a + 1, b);
    }
}

proof fn lemma_after(es: Seq<ElemV>, m: int)
    requires
        0 <= m < es.len(),
    ensures
        find(es, Want::Any, m + 1) >= es.len() <==> forall|k: int|
            m < k < es.len() ==> (#[trigger] node_at(es, k)) is None,
    decreases es.len() - m,
{
    if m + 1 < es.len() {
        lemma_after(es, m + 1);
        let here = wanted(es, Want::Any, m + 1);
        assert(here <==> node_at(es, m + 1) is Some);
        if node_at(es, m + 1) is None {
            assert(find(es, Want::Any, m + 1) == find(es, Want::Any, m + 2));
        }
    }
}

proof fn lemma_stmts_grow(es: Seq<ElemV>, a: int, b: int)
    requires
        0 <= a <= b,
    ensures
        stmts_before(es, a) <= stmts_before(es, b),
        a < b && node_at(es, a) is Some && stmt_kind(node_at(es, a)->0.kind) ==> stmts_before(
            es,
            a,
        ) < stmts_before(es, b),
    decreases b,
{
    if a < b {
        lemma_stmts_grow(es, a, b - 1);
    }
}

/// What the first `k` children of a block are read as: each statement
/// one for one and in order, but for an expression that ends the block,
/// which is the block's value.
pub open spec fn stmts_read(es: Seq<ElemV>, k: int, stmts: Seq<StmtV>, tail: Option<ExprV>) -> bool {
    &&& forall|m: int|
        0 <= m < k && (#[trigger] node_at(es, m)) is Some && stmt_kind(node_at(es, m)->0.kind)
            && !ends_block(es, m) ==> stmts_before(es, m) < stmts.len() && reads_stmt(
            stmts[stmts_before(es, m) as int],
            node_at(es, m)->0,
        )
    &&& forall|m: int| 0 <= m < k && #[trigger] ends_block(es, m) ==> tail is Some && reads_value(
        tail,
        node_at(es, m)->0,
    ) && stmts.len() == stmts_before(es, m)
    &&& (forall|m: int| 0 <= m < k ==> !#[trigger] ends_block(es, m)) ==> tail is None
        && stmts.len() == stmts_before(es, k)
}

proof fn lemma_one_stmt(es: Seq<ElemV>, m: int, ds: Seq<DiagnosticV>)
    requires
        0 <= m < es.len(),
        node_at(es, m) is Some,
        node_at(es, m)->0.kind == SyntaxKind::ExprStmt,
        readable(node_at(es, m)->0),
    ensures
        value_of(node_at(es, m)->0, ds).1 is Some,
        reads_value(value_of(node_at(es, m)->0, ds).1, node_at(es, m)->0),
        ends_block(es, m) <==> !has_token(
            node_at(es, m)->0.children,
            SyntaxKind::Semicolon,
        ) && find(es, Want::Any, m + 1) >= es.len(),
{
    let c = node_at(es, m)->0;
    lemma_value(c, ds);
    lemma_has_token(c.children, SyntaxKind::Semicolon);
    lemma_after(es, m);
    let i = choose|i: int| #[trigger]
        first_of(c.children, Want::Value, i) && lowers(node_at(c.children, i)->0);
    lemma_first(c.children, Want::Value, i);
    let x = node_at(c.children, i)->0;
    assert(expr_at(c.children, i, ds) == expr_of(x, ds));
    assert(expr_of(x, ds).1 is Some);
}

proof fn lemma_stmt_step(es: Seq<ElemV>, k: int, ds: Seq<DiagnosticV>)
    requires
        0 < k <= es.len(),
        node_at(es, k - 1) is Some,
        stmt_kind(node_at(es, k - 1)->0.kind),
        readable(node_at(es, k - 1)->0),
    ensures
        ({
            let (stmts, tail) = stmts_in(es, k - 1, ds).1;
            let (now, end) = stmts_in(es, k, ds).1;
            if ends_block(es, k - 1) {
                now == stmts && end is Some && reads_value(end, node_at(es, k - 1)->0)
            } else {
                now == stmts.push(now.last()) && now.len() == stmts.len() + 1 && reads_stmt(
                    now.last(),
                    node_at(es, k - 1)->0,
                ) && end == tail
            }
        }),
{
    let c = node_at(es, k - 1)->0;
    let ds1 = stmts_in(es, k - 1, ds).0;
    match c.kind {
        SyntaxKind::LetStmt => {
            lemma_let(c, ds1);
        },
        SyntaxKind::AssignStmt => {
            lemma_assign(c, ds1);
        },
        SyntaxKind::ReturnStmt => {
            lemma_value(c, ds1);
        },
        SyntaxKind::ExprStmt => {
            lemma_one_stmt(es, k - 1, ds1);
            lemma_has_token(c.children, SyntaxKind::Semicolon);
        },
        _ => {},
    }
}

proof fn lemma_stmts(es: Seq<ElemV>, k: int, ds: Seq<DiagnosticV>)
    requires
        0 <= k <= es.len(),
        forall|m: int|
            0 <= m < es.len() && (#[trigger] node_at(es, m)) is Some && stmt_kind(
                node_at(es, m)->0.kind,
            ) ==> readable(node_at(es, m)->0),
    ensures
        stmts_read(es, k, stmts_in(es, k, ds).1.0, stmts_in(es, k, ds).1.1),
    decreases k,
{
    if k > 0 {
        lemma_stmts(es, k - 1, ds);
        let (stmts, tail) = stmts_in(es, k - 1, ds).1;
        let (now, end) = stmts_in(es, k, ds).1;
        let is_stmt = node_at(es, k - 1) is Some && stmt_kind(node_at(es, k - 1)->0.kind);
        if exists|m: int| 0 <= m < k - 1 && #[trigger] ends_block(es, m) {
            let m = choose|m: int| 0 <= m < k - 1 && #[trigger] ends_block(es, m);
            assert(node_at(es, k - 1) is None);
            assert(!ends_block(es, k - 1));
            assert(now == stmts && end == tail);
        } else {
            if is_stmt {
                lemma_stmt_step(es, k, ds);
            } else {
                assert(now == stmts && end == tail);
                assert(!ends_block(es, k - 1));
            }
            assert forall|m: int|
                0 <= m < k && (#[trigger] node_at(es, m)) is Some && stmt_kind(
                    node_at(es, m)->0.kind,
                ) && !ends_block(es, m) implies stmts_before(es, m) < now.len() && reads_stmt(
                now[stmts_before(es, m) as int],
                node_at(es, m)->0,
            ) by {
                if m < k - 1 {
                    assert(now[stmts_before(es, m) as int] == stmts[stmts_before(es, m) as int]);
                }
            }
        }
    }
}

/// A block is read with its statements one for one, in order. An
/// expression without a semicolon with which the block ends is no
/// statement but the block's value; otherwise the block has none.
pub proof fn law_block_read(n: NodeV, ds: Seq<DiagnosticV>)
    requires
        forall|m: int|
            0 <= m < n.children.len() && (#[trigger] node_at(n.children, m)) is Some && stmt_kind(
                node_at(n.children, m)->0.kind,
            ) ==> readable(node_at(n.children, m)->0),
    ensures
        stmts_read(
            n.children,
            n.children.len() as int,
            block_of(n, ds).1.stmts,
            match block_of(n, ds).1.tail {
                Some(x) => Some(*x),
                None => None,
            },
        ),
        block_of(n, ds).1.span == n.span,
{
    lemma_stmts(n.children, n.children.len() as int, ds);
}

/// A bare name is assigned to as itself; a chain of fields is assigned to
/// as its first name and the fields behind it, in order.
pub proof fn law_place_read(n: NodeV, b: int, f: int, ds: Seq<DiagnosticV>)
    ensures
        n.kind == SyntaxKind::NameRef ==> place_of(n, ds) == (
            ds,
            Some(PlaceV { base: name_of(n), fields: Seq::empty() }),
        ),
        n.kind == SyntaxKind::FieldExpr && field_shape(n, b, f) ==> ({
            let inner = node_at(n.children, b)->0;
            let name = name_of(node_at(n.children, f)->0);
            &&& inner.kind == SyntaxKind::NameRef ==> place_of(n, ds).1 == Some(
                PlaceV { base: name_of(inner), fields: seq![name] },
            )
            &&& inner.kind == SyntaxKind::FieldExpr && place_of(inner, ds).1 is Some ==> place_of(
                n,
                ds,
            ).1 == Some(
                PlaceV {
                    base: place_of(inner, ds).1->0.base,
                    fields: place_of(inner, ds).1->0.fields.push(name),
                },
            )
        }),
        n.kind != SyntaxKind::NameRef && n.kind != SyntaxKind::FieldExpr ==> place_of(n, ds).1
            is None && place_of(n, ds).0.len() == ds.len() + 1,
{
    if n.kind == SyntaxKind::FieldExpr && field_shape(n, b, f) {
        let es = n.children;
        let inner = node_at(es, b)->0;
        let name = name_of(node_at(es, f)->0);
        lemma_field_shape(n, b, f);
        assert(es[b] == ElemV::Node(inner));
        if inner.kind == SyntaxKind::NameRef {
            assert(crate::ast_body::chain_of(n, ds).1 == Some(seq![name_of(inner), name]));
            assert(seq![name_of(inner), name].skip(1) =~= seq![name]);
        }
        if inner.kind == SyntaxKind::FieldExpr {
            let front = crate::ast_body::chain_of(inner, ds).1;
            if front is Some {
                lemma_chain_len(inner, ds);
                assert(front->0.push(name).skip(1) =~= front->0.skip(1).push(name));
            }
        }
    }
}

/// A projection holds a base, at `b`, and a name behind it, at `f`.
pub open spec fn field_shape(n: NodeV, b: int, f: int) -> bool {
    &&& 0 <= b < f < n.children.len()
    &&& node_at(n.children, b) is Some
    &&& forall|m: int| 0 <= m < b ==> (#[trigger] node_at(n.children, m)) is None
    &&& forall|m: int| b < m < f ==> (#[trigger] node_at(n.children, m)) is None
    &&& node_at(n.children, f) is Some
    &&& node_at(n.children, f)->0.kind == SyntaxKind::NameRef
}

proof fn lemma_field_shape(n: NodeV, b: int, f: int)
    requires
        field_shape(n, b, f),
    ensures
        crate::ast_body::field_parts(n) == Some((b, f)),
{
    let es = n.children;
    assert forall|m: int| 0 <= m < b implies !#[trigger] wanted(es, Want::Any, m) by {
        assert(node_at(es, m) is None);
    }
    lemma_find_only(es, Want::Any, 0, b);
    let w = Want::Kind(SyntaxKind::NameRef);
    assert forall|m: int| b + 1 <= m < f implies !#[trigger] wanted(es, w, m) by {
        assert(node_at(es, m) is None);
    }
    lemma_find_only(es, w, b + 1, f);
}

proof fn lemma_chain_len(n: NodeV, ds: Seq<DiagnosticV>)
    requires
        crate::ast_body::chain_of(n, ds).1 is Some,
    ensures
        crate::ast_body::chain_of(n, ds).1->0.len() >= 2,
    decreases n,
{
    match crate::ast_body::field_parts(n) {
        None => {},
        Some((b, f)) => {
            if 0 <= b < n.children.len() {
                match n.children[b] {
                    ElemV::Node(base) => {
                        if base.kind == SyntaxKind::FieldExpr {
                            lemma_chain_len(base, ds);
                        }
                    },
                    ElemV::Token(_) => {},
                }
            }
        },
    }
}

} // verus!
