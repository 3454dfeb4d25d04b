//! How the lowered tree mirrors the syntax tree it was read from: each
//! part of a lowered expression comes from the child that stands in its
//! place, and an operator is the one that its token writes.

use crate::ast::{BinOp, BlockV, ExprV, LiteralV, UnOp};
use crate::ast_body::{
    bin_in, block_of, bounds_in, expr_at, expr_of, exprs_in, if_in, loop_in, args_in, IfPartsV,
};
use crate::ast_lower::{binop_of, name_of, path_of};
use crate::diagnostic::DiagnosticV;
use crate::syntax::{
    find, find_token, is_value_kind, node_at, solid, token_at, wanted, ElemV, NodeV, SyntaxKind,
    Want,
};
use vstd::prelude::*;
use vstd::string::*;

verus! {

// ---------- operators ----------

/// How a binary operator is written.
pub open spec fn op_text(op: BinOp) -> Seq<char> {
    match op {
        BinOp::Add => "+"@,
        BinOp::Sub => "-"@,
        BinOp::Mul => "*"@,
        BinOp::Div => "/"@,
        BinOp::Rem => "%"@,
        BinOp::Eq => "=="@,
        BinOp::Ne => "!="@,
        BinOp::Lt => "<"@,
        BinOp::Le => "<="@,
        BinOp::Gt => ">"@,
        BinOp::Ge => ">="@,
        BinOp::And => "&&"@,
        BinOp::Or => "||"@,
    }
}

/// How a prefix operator is written.
pub open spec fn prefix_text(op: UnOp) -> Seq<char> {
    match op {
        UnOp::Neg => "-"@,
        UnOp::Not => "!"@,
    }
}

/// The text of a token that is an operator between two values.
pub open spec fn operator_token(k: SyntaxKind) -> Option<Seq<char>> {
    match k {
        SyntaxKind::Plus => Some("+"@),
        SyntaxKind::Minus => Some("-"@),
        SyntaxKind::Star => Some("*"@),
        SyntaxKind::Slash => Some("/"@),
        SyntaxKind::Percent => Some("%"@),
        SyntaxKind::Eq2 => Some("=="@),
        SyntaxKind::Neq => Some("!="@),
        SyntaxKind::Lt => Some("<"@),
        SyntaxKind::Le => Some("<="@),
        SyntaxKind::Gt => Some(">"@),
        SyntaxKind::Ge => Some(">="@),
        SyntaxKind::And2 => Some("&&"@),
        SyntaxKind::Or2 => Some("||"@),
        _ => None,
    }
}

/// The text of a token that is an operator in front of a value.
pub open spec fn prefix_token(k: SyntaxKind) -> Option<Seq<char>> {
    match k {
        SyntaxKind::Minus => Some("-"@),
        SyntaxKind::Not => Some("!"@),
        _ => None,
    }
}

/// Every operator token stands for an operator, and that operator is
/// written as the token is; no other token stands for one.
pub proof fn law_operator_reads_its_text(k: SyntaxKind)
    ensures
        binop_of(k) is Some <==> operator_token(k) is Some,
        binop_of(k) matches Some(op) ==> op_text(op) == operator_token(k)->0,
{
}

/// No two operators are written alike.
pub proof fn law_operators_written_apart(a: BinOp, b: BinOp)
    ensures
        op_text(a) == op_text(b) <==> a == b,
{
    reveal_strlit("+");
    reveal_strlit("-");
    reveal_strlit("*");
    reveal_strlit("/");
    reveal_strlit("%");
    reveal_strlit("==");
    reveal_strlit("!=");
    reveal_strlit("<");
    reveal_strlit("<=");
    reveal_strlit(">");
    reveal_strlit(">=");
    reveal_strlit("&&");
    reveal_strlit("||");
    let x = op_text(a);
    let y = op_text(b);
    if x == y {
        assert(x.len() == y.len());
        assert(x[0] == y[0]);
    }
}

/// Distinct operator tokens stand for distinct operators.
pub proof fn law_operator_tokens_kept_apart(a: SyntaxKind, b: SyntaxKind)
    requires
        operator_token(a) is Some,
        operator_token(b) is Some,
        a != b,
    ensures
        binop_of(a) != binop_of(b),
{
    law_operator_reads_its_text(a);
    law_operator_reads_its_text(b);
}

// ---------- what is read from where ----------

/// An expression is what a node lowers to.
pub open spec fn reads(e: ExprV, c: NodeV) -> bool {
    exists|ds: Seq<DiagnosticV>| (#[trigger] expr_of(c, ds)).1 == Some(e)
}

/// An expression, or none, is what a node lowers to.
pub open spec fn reads_as(e: Option<ExprV>, c: NodeV) -> bool {
    exists|ds: Seq<DiagnosticV>| (#[trigger] expr_of(c, ds)).1 == e
}

/// A block is what a node lowers to.
pub open spec fn reads_block(b: BlockV, c: NodeV) -> bool {
    exists|ds: Seq<DiagnosticV>| (#[trigger] block_of(c, ds)).1 == b
}

/// A node always lowers to an expression.
pub open spec fn lowers(c: NodeV) -> bool {
    forall|ds: Seq<DiagnosticV>| (#[trigger] expr_of(c, ds)).1 is Some
}

/// Between two positions, the node at `i` is the one value; none is when
/// `i` lies outside.
pub open spec fn one_value(es: Seq<ElemV>, a: int, b: int, i: int) -> bool {
    forall|m: int| a <= m < b ==> (#[trigger] wanted(es, Want::Value, m) <==> m == i)
}

/// How many wanted nodes stand in front of a position.
pub open spec fn count(es: Seq<ElemV>, w: Want, m: int) -> nat
    decreases m,
{
    if m <= 0 {
        0
    } else {
        count(es, w, m - 1) + if wanted(es, w, m - 1) {
            1nat
        } else {
            0
        }
    }
}

pub(crate) proof fn lemma_count_grows(es: Seq<ElemV>, w: Want, a: int, b: int)
    requires
        0 <= a <= b,
    ensures
        count(es, w, a) <= count(es, w, b),
        wanted(es, w, a) && a < b ==> count(es, w, a) < count(es, w, b),
    decreases b,
{
    if a < b {
        lemma_count_grows(es, w, a, b - 1);
    }
}

pub(crate) proof fn lemma_find_only(es: Seq<ElemV>, w: Want, a: int, i: int)
    requires
        0 <= a <= i < es.len(),
        forall|m: int| a <= m < i ==> !#[trigger] wanted(es, w, m),
        wanted(es, w, i),
    ensures
        find(es, w, a) == i,
    decreases i - a,
{
    if a < i {
        assert(!wanted(es, w, a));
        lemma_find_only(es, w, a + 1, i);
    }
}

pub(crate) proof fn lemma_find_none(es: Seq<ElemV>, w: Want, a: int)
    requires
        0 <= a,
        forall|m: int| a <= m < es.len() ==> !#[trigger] wanted(es, w, m),
    ensures
        find(es, w, a) == es.len(),
    decreases es.len() - a,
{
    if a < es.len() {
        assert(!wanted(es, w, a));
        lemma_find_none(es, w, a + 1);
    }
}

pub(crate) proof fn lemma_find_token_only(es: Seq<ElemV>, a: int, i: int)
    requires
        0 <= a <= i < es.len(),
        forall|m: int| a <= m < i ==> !#[trigger] solid(es, m),
        solid(es, i),
    ensures
        find_token(es, a) == i,
    decreases i - a,
{
    if a < i {
        assert(!solid(es, a));
        lemma_find_token_only(es, a + 1, i);
    }
}

// ---------- names and literals ----------

/// A name is spelled by the first token of its node that is no trivia,
/// and stands where that token stands.
pub proof fn law_name_is_its_token(n: NodeV, t: int)
    requires
        0 <= t < n.children.len(),
        solid(n.children, t),
        forall|m: int| 0 <= m < t ==> !#[trigger] solid(n.children, m),
    ensures
        name_of(n).name == token_at(n.children, t)->0.text,
        name_of(n).span == token_at(n.children, t)->0.span,
{
    lemma_find_token_only(n.children, 0, t);
}

/// A name in value position is read as a variable of that name.
pub proof fn law_name_read(n: NodeV, t: int, ds: Seq<DiagnosticV>)
    requires
        n.kind == SyntaxKind::NameRef,
        0 <= t < n.children.len(),
        solid(n.children, t),
        forall|m: int| 0 <= m < t ==> !#[trigger] solid(n.children, m),
    ensures
        expr_of(n, ds).0 == ds,
        expr_of(n, ds).1 matches Some(ExprV::Var { name }) && name.name == token_at(
            n.children,
            t,
        )->0.text && name.span == token_at(n.children, t)->0.span,
{
    lemma_find_token_only(n.children, 0, t);
}

/// `true` and `false` are read as what they say, without a report.
pub proof fn law_bool_read(n: NodeV, t: int, ds: Seq<DiagnosticV>)
    requires
        n.kind == SyntaxKind::Literal,
        0 <= t < n.children.len(),
        solid(n.children, t),
        forall|m: int| 0 <= m < t ==> !#[trigger] solid(n.children, m),
    ensures
        token_at(n.children, t)->0.kind == SyntaxKind::TrueKw ==> expr_of(n, ds) == (
            ds,
            Some(ExprV::Literal { value: LiteralV::Bool(true), span: n.span }),
        ),
        token_at(n.children, t)->0.kind == SyntaxKind::FalseKw ==> expr_of(n, ds) == (
            ds,
            Some(ExprV::Literal { value: LiteralV::Bool(false), span: n.span }),
        ),
{
    lemma_find_token_only(n.children, 0, t);
}

// ---------- expressions ----------

proof fn lemma_bin(es: Seq<ElemV>, i: int, t: int, j: int, k: int, ds: Seq<DiagnosticV>)
    requires
        0 <= i < t < j < es.len(),
        0 <= k <= es.len(),
        forall|m: int|
            0 <= m < es.len() ==> (#[trigger] wanted(es, Want::Value, m) <==> m == i || m == j),
        forall|m: int| 0 <= m < es.len() ==> (#[trigger] solid(es, m) <==> m == t),
        operator_token(token_at(es, t)->0.kind) is Some,
        lowers(node_at(es, i)->0),
        lowers(node_at(es, j)->0),
    ensures
        ({
            let p = bin_in(es, k, ds).1;
            &&& !p.stopped
            &&& p.parts.len() == (if k <= i {
                0int
            } else if k <= j {
                1
            } else {
                2
            })
            &&& k > i ==> reads(p.parts[0], node_at(es, i)->0)
            &&& k > j ==> reads(p.parts[1], node_at(es, j)->0)
            &&& p.op == (if k <= t {
                None
            } else {
                binop_of(token_at(es, t)->0.kind)
            })
        }),
    decreases k,
{
    if k > 0 {
        lemma_bin(es, i, t, j, k - 1, ds);
        law_operator_reads_its_text(token_at(es, t)->0.kind);
        let (ds1, p) = bin_in(es, k - 1, ds);
        assert(wanted(es, Want::Value, k - 1) <==> k - 1 == i || k - 1 == j);
        assert(solid(es, k - 1) <==> k - 1 == t);
        match es[k - 1] {
            ElemV::Node(c) => if is_value_kind(c.kind) {
                assert(expr_of(c, ds1).1 is Some);
                assert(reads(expr_of(c, ds1).1->0, c));
            },
            ElemV::Token(tok) => {},
        }
    }
}

/// A value, an operator token and a value, with nothing but trivia
/// around them, are read as that operation: written back, the operator
/// is the token's text, the left side is what the first value is read as,
/// and the right side what the second is read as.
pub proof fn law_binary_read(n: NodeV, i: int, t: int, j: int, ds: Seq<DiagnosticV>)
    requires
        n.kind == SyntaxKind::BinExpr,
        0 <= i < t < j < n.children.len(),
        forall|m: int|
            0 <= m < n.children.len() ==> (#[trigger] wanted(n.children, Want::Value, m) <==> m == i
                || m == j),
        forall|m: int|
            0 <= m < n.children.len() ==> (#[trigger] solid(n.children, m) <==> m == t),
        operator_token(token_at(n.children, t)->0.kind) == Some(token_at(n.children, t)->0.text),
        lowers(node_at(n.children, i)->0),
        lowers(node_at(n.children, j)->0),
    ensures
        ({
            &&& expr_of(n, ds).1 matches Some(ExprV::Binary { op, lhs, rhs, span })
            &&& op_text(op) == token_at(n.children, t)->0.text
            &&& reads(*lhs, node_at(n.children, i)->0)
            &&& reads(*rhs, node_at(n.children, j)->0)
            &&& span == n.span
        }),
{
    lemma_bin(n.children, i, t, j, n.children.len() as int, ds);
    law_operator_reads_its_text(token_at(n.children, t)->0.kind);
    reveal_with_fuel(expr_of, 2);
    reveal_with_fuel(crate::ast_body::bin_of, 2);
}

/// A prefix token and a value behind it are read as that operation:
/// written back, the operator is the token's text.
pub proof fn law_prefix_read(n: NodeV, t: int, j: int, ds: Seq<DiagnosticV>)
    requires
        n.kind == SyntaxKind::PrefixExpr,
        0 <= t < j < n.children.len(),
        forall|m: int| 0 <= m < t ==> !#[trigger] solid(n.children, m),
        solid(n.children, t),
        one_value(n.children, t + 1, n.children.len() as int, j),
        prefix_token(token_at(n.children, t)->0.kind) == Some(token_at(n.children, t)->0.text),
        lowers(node_at(n.children, j)->0),
    ensures
        ({
            &&& expr_of(n, ds).1 matches Some(ExprV::Unary { op, expr, span })
            &&& prefix_text(op) == token_at(n.children, t)->0.text
            &&& reads(*expr, node_at(n.children, j)->0)
            &&& span == n.span
        }),
{
    lemma_find_token_only(n.children, 0, t);
    assert(wanted(n.children, Want::Value, j));
    lemma_find_only(n.children, Want::Value, t + 1, j);
    let c = node_at(n.children, j)->0;
    assert(expr_of(c, ds).1 is Some);
    assert(reads(expr_of(c, ds).1->0, c));
    reveal_with_fuel(expr_of, 3);
    reveal_with_fuel(crate::ast_body::prefix_of, 2);
}

proof fn lemma_bounds(es: Seq<ElemV>, l: int, d: int, h: int, k: int, ds: Seq<DiagnosticV>)
    requires
        0 <= d < es.len(),
        0 <= k <= es.len(),
        token_at(es, d) is Some,
        token_at(es, d)->0.kind == SyntaxKind::Dot2,
        forall|m: int|
            0 <= m < d && (#[trigger] token_at(es, m)) is Some ==> token_at(es, m)->0.kind
                != SyntaxKind::Dot2,
        one_value(es, 0, d, l),
        one_value(es, d, es.len() as int, h),
    ensures
        ({
            let (lo, hi, dots) = bounds_in(es, k, ds).1;
            &&& dots == (k > d)
            &&& if 0 <= l < d && l < k {
                reads_as(lo, node_at(es, l)->0)
            } else {
                lo is None
            }
            &&& if d <= h < k {
                reads_as(hi, node_at(es, h)->0)
            } else {
                hi is None
            }
        }),
    decreases k,
{
    if k > 0 {
        lemma_bounds(es, l, d, h, k - 1, ds);
        let ds1 = bounds_in(es, k - 1, ds).0;
        let here = wanted(es, Want::Value, k - 1);
        match es[k - 1] {
            ElemV::Node(c) => if is_value_kind(c.kind) {
                assert(reads_as(expr_of(c, ds1).1, c));
            },
            ElemV::Token(t) => {
                assert(token_at(es, k - 1) == Some(t));
            },
        }
    }
}

/// A range is read with its bounds in place: the value in front of the
/// dots is the low bound, the one behind them the high bound, and where
/// no value stands there is no bound. A position outside the children
/// stands for no value.
pub proof fn law_range_read(n: NodeV, l: int, d: int, h: int, ds: Seq<DiagnosticV>)
    requires
        n.kind == SyntaxKind::Range,
        0 <= d < n.children.len(),
        token_at(n.children, d) is Some,
        token_at(n.children, d)->0.kind == SyntaxKind::Dot2,
        forall|m: int|
            0 <= m < d && (#[trigger] token_at(n.children, m)) is Some ==> token_at(
                n.children,
                m,
            )->0.kind != SyntaxKind::Dot2,
        one_value(n.children, 0, d, l),
        one_value(n.children, d, n.children.len() as int, h),
    ensures
        ({
            &&& expr_of(n, ds).1 matches Some(ExprV::Range { lo, hi, span })
            &&& span == n.span
            &&& if 0 <= l < d {
                reads_as(
                    match lo {
                        Some(x) => Some(*x),
                        None => None,
                    },
                    node_at(n.children, l)->0,
                )
            } else {
                lo is None
            }
            &&& if d <= h < n.children.len() {
                reads_as(
                    match hi {
                        Some(x) => Some(*x),
                        None => None,
                    },
                    node_at(n.children, h)->0,
                )
            } else {
                hi is None
            }
        }),
{
    lemma_bounds(n.children, l, d, h, n.children.len() as int, ds);
    let (lo, hi, dots) = bounds_in(n.children, n.children.len() as int, ds).1;
    reveal_with_fuel(expr_of, 2);
}

/// A value and an index behind it are read as the indexing of the first
/// by the second.
pub proof fn law_index_read(n: NodeV, i: int, j: int, ds: Seq<DiagnosticV>)
    requires
        n.kind == SyntaxKind::IndexExpr,
        0 <= i < j < n.children.len(),
        one_value(n.children, 0, j, i),
        wanted(n.children, Want::Value, j),
        node_at(n.children, j)->0.kind != SyntaxKind::Range,
        lowers(node_at(n.children, i)->0),
        lowers(node_at(n.children, j)->0),
    ensures
        ({
            &&& expr_of(n, ds).1 matches Some(ExprV::Index { base, index, span })
            &&& reads(*base, node_at(n.children, i)->0)
            &&& reads(*index, node_at(n.children, j)->0)
            &&& span == n.span
        }),
{
    let es = n.children;
    assert(wanted(es, Want::Value, i));
    lemma_find_only(es, Want::Value, 0, i);
    lemma_find_only(es, Want::Value, i + 1, j);
    let a = node_at(es, i)->0;
    let c = node_at(es, j)->0;
    let ds1 = expr_of(a, ds).0;
    assert(expr_of(a, ds).1 is Some && expr_of(c, ds1).1 is Some);
    assert(reads(expr_of(a, ds).1->0, a));
    assert(reads(expr_of(c, ds1).1->0, c));
    assert(expr_at(es, i, ds) == expr_of(a, ds));
    assert(es[j] == ElemV::Node(c));
    assert(expr_of(n, ds) == crate::ast_body::index_of(n, ds));
}

/// A value and a range behind it are read as the slice of the value
/// between the bounds of the range.
pub proof fn law_slice_read(n: NodeV, i: int, j: int, l: int, d: int, h: int, ds: Seq<DiagnosticV>)
    requires
        n.kind == SyntaxKind::IndexExpr,
        0 <= i < j < n.children.len(),
        one_value(n.children, 0, j, i),
        wanted(n.children, Want::Value, j),
        node_at(n.children, j)->0.kind == SyntaxKind::Range,
        lowers(node_at(n.children, i)->0),
        ({
            let es = node_at(n.children, j)->0.children;
            &&& 0 <= d < es.len()
            &&& token_at(es, d) is Some
            &&& token_at(es, d)->0.kind == SyntaxKind::Dot2
            &&& forall|m: int|
                0 <= m < d && (#[trigger] token_at(es, m)) is Some ==> token_at(es, m)->0.kind
                    != SyntaxKind::Dot2
            &&& one_value(es, 0, d, l)
            &&& one_value(es, d, es.len() as int, h)
        }),
    ensures
        ({
            let es = node_at(n.children, j)->0.children;
            &&& expr_of(n, ds).1 matches Some(ExprV::Slice { base, lo, hi, span })
            &&& reads(*base, node_at(n.children, i)->0)
            &&& span == n.span
            &&& if 0 <= l < d {
                reads_as(
                    match lo {
                        Some(x) => Some(*x),
                        None => None,
                    },
                    node_at(es, l)->0,
                )
            } else {
                lo is None
            }
            &&& if d <= h < es.len() {
                reads_as(
                    match hi {
                        Some(x) => Some(*x),
                        None => None,
                    },
                    node_at(es, h)->0,
                )
            } else {
                hi is None
            }
        }),
{
    let es = n.children;
    assert(wanted(es, Want::Value, i));
    lemma_find_only(es, Want::Value, 0, i);
    lemma_find_only(es, Want::Value, i + 1, j);
    let a = node_at(es, i)->0;
    let c = node_at(es, j)->0;
    let ds1 = expr_of(a, ds).0;
    assert(expr_of(a, ds).1 is Some);
    assert(reads(expr_of(a, ds).1->0, a));
    lemma_bounds(c.children, l, d, h, c.children.len() as int, ds1);
    let (lo, hi, dots) = bounds_in(c.children, c.children.len() as int, ds1).1;
    reveal_with_fuel(expr_of, 3);
    reveal_with_fuel(crate::ast_body::index_of, 2);
}

/// A value and a name behind it are read as that field of the value.
pub proof fn law_field_read(n: NodeV, i: int, j: int, ds: Seq<DiagnosticV>)
    requires
        n.kind == SyntaxKind::FieldExpr,
        0 <= i < j < n.children.len(),
        node_at(n.children, i) is Some,
        forall|m: int| 0 <= m < i ==> (#[trigger] node_at(n.children, m)) is None,
        forall|m: int| i < m < j ==> (#[trigger] node_at(n.children, m)) is None,
        node_at(n.children, j) is Some,
        node_at(n.children, j)->0.kind == SyntaxKind::NameRef,
        lowers(node_at(n.children, i)->0),
    ensures
        ({
            &&& expr_of(n, ds).1 matches Some(ExprV::Field { base, name, span })
            &&& reads(*base, node_at(n.children, i)->0)
            &&& name == name_of(node_at(n.children, j)->0)
            &&& span == n.span
        }),
{
    let es = n.children;
    assert forall|m: int| 0 <= m < i implies !#[trigger] wanted(es, Want::Any, m) by {
        assert(node_at(es, m) is None);
    }
    lemma_find_only(es, Want::Any, 0, i);
    let w = Want::Kind(SyntaxKind::NameRef);
    assert forall|m: int| i + 1 <= m < j implies !#[trigger] wanted(es, w, m) by {
        assert(node_at(es, m) is None);
    }
    lemma_find_only(es, w, i + 1, j);
    let a = node_at(es, i)->0;
    assert(expr_of(a, ds).1 is Some);
    assert(reads(expr_of(a, ds).1->0, a));
    reveal_with_fuel(expr_of, 3);
    reveal_with_fuel(crate::ast_body::field_expr_of, 2);
}

proof fn lemma_if(es: Seq<ElemV>, c: int, t: int, e: int, k: int)
    requires
        0 <= c < t < es.len(),
        0 <= k <= es.len(),
        e < 0 || t < e,
        forall|m: int|
            0 <= m < es.len() ==> (#[trigger] wanted(es, Want::Value, m) <==> m == c || m == t || m
                == e),
        node_at(es, t)->0.kind == SyntaxKind::Block,
        0 <= e < es.len() ==> node_at(es, e)->0.kind == SyntaxKind::Block || node_at(es, e)->0.kind
            == SyntaxKind::IfExpr,
    ensures
        ({
            let p = if_in(es, k);
            &&& p.cond == (if k > c {
                Some(c)
            } else {
                None
            })
            &&& p.then_ == (if k > t {
                Some(t)
            } else {
                None
            })
            &&& p.other == (if 0 <= e < k && node_at(es, e)->0.kind == SyntaxKind::Block {
                Some(e)
            } else {
                None
            })
            &&& p.else_if == (if 0 <= e < k && node_at(es, e)->0.kind == SyntaxKind::IfExpr {
                Some(e)
            } else {
                None
            })
        }),
    decreases k,
{
    if k > 0 {
        lemma_if(es, c, t, e, k - 1);
        let here = wanted(es, Want::Value, k - 1);
        assert(here <==> k - 1 == c || k - 1 == t || k - 1 == e);
    }
}

proof fn lemma_else(es: Seq<ElemV>, e: int, p: IfPartsV, ds: Seq<DiagnosticV>)
    requires
        0 <= e < es.len(),
        node_at(es, e) is Some,
        node_at(es, e)->0.kind == SyntaxKind::Block || node_at(es, e)->0.kind
            == SyntaxKind::IfExpr,
        p.other == (if node_at(es, e)->0.kind == SyntaxKind::Block {
            Some(e)
        } else {
            None
        }),
        p.else_if == (if node_at(es, e)->0.kind == SyntaxKind::IfExpr {
            Some(e)
        } else {
            None
        }),
    ensures
        (match crate::ast_body::else_of(es, p, ds).1 {
            Some(x) => Some(*x),
            None => None,
        }) == expr_of(node_at(es, e)->0, ds).1,
{
    let x = node_at(es, e)->0;
    assert(expr_at(es, e, ds) == expr_of(x, ds));
    assert(crate::ast_body::block_at(es, e, ds).1 == Some(block_of(x, ds).1));
    if x.kind == SyntaxKind::Block {
        assert(expr_of(x, ds).1 == Some(
            ExprV::Block { block: block_of(x, ds).1, span: x.span },
        ));
    }
}

/// A condition, a block and, where there is one, an `else` behind it are
/// read in those places: the condition from the first value, what holds
/// when it is met from the block, and what holds otherwise from the last.
/// A negative `e` stands for no `else`.
pub proof fn law_if_read(n: NodeV, c: int, t: int, e: int, ds: Seq<DiagnosticV>)
    requires
        n.kind == SyntaxKind::IfExpr,
        0 <= c < t < n.children.len(),
        e < 0 || t < e < n.children.len(),
        forall|m: int|
            0 <= m < n.children.len() ==> (#[trigger] wanted(n.children, Want::Value, m) <==> m == c
                || m == t || m == e),
        node_at(n.children, t)->0.kind == SyntaxKind::Block,
        e >= 0 ==> node_at(n.children, e)->0.kind == SyntaxKind::Block || node_at(
            n.children,
            e,
        )->0.kind == SyntaxKind::IfExpr,
        lowers(node_at(n.children, c)->0),
    ensures
        ({
            &&& expr_of(n, ds).1 matches Some(ExprV::If { cond, then_, else_, span })
            &&& reads(*cond, node_at(n.children, c)->0)
            &&& reads_block(then_, node_at(n.children, t)->0)
            &&& if e < 0 {
                else_ is None
            } else {
                reads_as(
                    match else_ {
                        Some(x) => Some(*x),
                        None => None,
                    },
                    node_at(n.children, e)->0,
                )
            }
            &&& span == n.span
        }),
{
    let es = n.children;
    lemma_if(es, c, t, e, es.len() as int);
    assert(wanted(es, Want::Value, c));
    assert(wanted(es, Want::Value, t));
    let p = if_in(es, es.len() as int);
    let (ds1, other) = crate::ast_body::else_of(es, p, ds);
    let a = node_at(es, c)->0;
    assert(expr_at(es, c, ds1) == expr_of(a, ds1));
    assert(expr_of(a, ds1).1 is Some);
    assert(reads(expr_of(a, ds1).1->0, a));
    let ds2 = expr_of(a, ds1).0;
    let b = node_at(es, t)->0;
    assert(crate::ast_body::block_at(es, t, ds2).1 == Some(block_of(b, ds2).1));
    assert(reads_block(block_of(b, ds2).1, b));
    assert(expr_of(n, ds) == crate::ast_body::if_of(n, ds));
    if e >= 0 {
        assert(wanted(es, Want::Value, e));
        let x = node_at(es, e)->0;
        assert(reads_as(expr_of(x, ds).1, x));
        lemma_else(es, e, p, ds);
    }
}

proof fn lemma_loop(es: Seq<ElemV>, i: int, b: int, k: int, ds: Seq<DiagnosticV>)
    requires
        0 <= i < b < es.len(),
        0 <= k <= es.len(),
        forall|m: int|
            0 <= m < es.len() ==> (#[trigger] wanted(es, Want::Value, m) <==> m == i || m == b),
        node_at(es, b)->0.kind == SyntaxKind::Block,
        lowers(node_at(es, i)->0),
    ensures
        ({
            let (iter, body) = loop_in(es, k, ds).1;
            &&& if k > i {
                iter is Some && reads(iter->0, node_at(es, i)->0)
            } else {
                iter is None
            }
            &&& body == (if k > b {
                Some(b)
            } else {
                None
            })
        }),
    decreases k,
{
    if k > 0 {
        lemma_loop(es, i, b, k - 1, ds);
        let here = wanted(es, Want::Value, k - 1);
        assert(here <==> k - 1 == i || k - 1 == b);
        let ds1 = loop_in(es, k - 1, ds).0;
        match es[k - 1] {
            ElemV::Node(c) => if is_value_kind(c.kind) && k - 1 == i {
                assert(expr_of(c, ds1).1 is Some);
                assert(reads(expr_of(c, ds1).1->0, c));
            },
            ElemV::Token(t) => {},
        }
    }
}

/// A loop is read with its parts in place: the variable from the first
/// declared name, what it runs over from the first value, and the body
/// from the block behind that.
pub proof fn law_for_read(n: NodeV, v: int, i: int, b: int, ds: Seq<DiagnosticV>)
    requires
        n.kind == SyntaxKind::ForExpr,
        0 <= v < n.children.len(),
        wanted(n.children, Want::Kind(SyntaxKind::Name), v),
        forall|m: int| 0 <= m < v ==> !#[trigger] wanted(n.children, Want::Kind(SyntaxKind::Name), m),
        0 <= i < b < n.children.len(),
        forall|m: int|
            0 <= m < n.children.len() ==> (#[trigger] wanted(n.children, Want::Value, m) <==> m == i
                || m == b),
        node_at(n.children, b)->0.kind == SyntaxKind::Block,
        lowers(node_at(n.children, i)->0),
    ensures
        ({
            &&& expr_of(n, ds).1 matches Some(ExprV::For { var, mutable, iter, body, span })
            &&& var == name_of(node_at(n.children, v)->0)
            &&& mutable <==> exists|m: int|
                0 <= m < n.children.len() && (#[trigger] token_at(n.children, m)) is Some
                    && token_at(n.children, m)->0.kind == SyntaxKind::MutKw
            &&& reads(*iter, node_at(n.children, i)->0)
            &&& reads_block(body, node_at(n.children, b)->0)
            &&& span == n.span
        }),
{
    let es = n.children;
    lemma_find_only(es, Want::Kind(SyntaxKind::Name), 0, v);
    lemma_loop(es, i, b, es.len() as int, ds);
    assert(wanted(es, Want::Value, b));
    let ds1 = loop_in(es, es.len() as int, ds).0;
    let c = node_at(es, b)->0;
    assert(reads_block(block_of(c, ds1).1, c));
    reveal_with_fuel(expr_of, 2);
    reveal_with_fuel(crate::ast_body::for_of, 2);
}

proof fn lemma_exprs(es: Seq<ElemV>, k: int, ds: Seq<DiagnosticV>)
    requires
        0 <= k <= es.len(),
        forall|m: int|
            0 <= m < es.len() && #[trigger] wanted(es, Want::Value, m) ==> lowers(
                node_at(es, m)->0,
            ),
    ensures
        exprs_in(es, k, ds).1.len() == count(es, Want::Value, k),
        forall|m: int|
            0 <= m < k && #[trigger] wanted(es, Want::Value, m) ==> reads(
                exprs_in(es, k, ds).1[count(es, Want::Value, m) as int],
                node_at(es, m)->0,
            ),
    decreases k,
{
    if k > 0 {
        lemma_exprs(es, k - 1, ds);
        let (ds1, front) = exprs_in(es, k - 1, ds);
        let now = exprs_in(es, k, ds).1;
        let here = wanted(es, Want::Value, k - 1);
        if here {
            let c = node_at(es, k - 1)->0;
            assert(expr_of(c, ds1).1 is Some);
            assert(reads(expr_of(c, ds1).1->0, c));
        }
        assert forall|m: int| 0 <= m < k && #[trigger] wanted(es, Want::Value, m) implies reads(
            now[count(es, Want::Value, m) as int],
            node_at(es, m)->0,
        ) by {
            if m < k - 1 {
                lemma_count_grows(es, Want::Value, m, k - 1);
                assert(now[count(es, Want::Value, m) as int] == front[count(
                    es,
                    Want::Value,
                    m,
                ) as int]);
            }
        }
    }
}

/// The elements of an array are read one for one, in the order in which
/// they stand.
pub proof fn law_array_read(n: NodeV, m: int, ds: Seq<DiagnosticV>)
    requires
        n.kind == SyntaxKind::ArrayExpr,
        forall|q: int|
            0 <= q < n.children.len() && #[trigger] wanted(n.children, Want::Value, q) ==> lowers(
                node_at(n.children, q)->0,
            ),
    ensures
        ({
            &&& expr_of(n, ds).1 matches Some(ExprV::ArrayLit { elems, span })
            &&& span == n.span
            &&& elems.len() == count(n.children, Want::Value, n.children.len() as int)
            &&& 0 <= m < n.children.len() && wanted(n.children, Want::Value, m) ==> reads(
                elems[count(n.children, Want::Value, m) as int],
                node_at(n.children, m)->0,
            )
        }),
{
    lemma_exprs(n.children, n.children.len() as int, ds);
    reveal_with_fuel(expr_of, 2);
}

proof fn lemma_args(es: Seq<ElemV>, a: int, k: int, ds: Seq<DiagnosticV>)
    requires
        0 <= a < es.len(),
        0 <= k <= es.len(),
        forall|m: int|
            0 <= m < es.len() ==> (#[trigger] wanted(es, Want::Kind(SyntaxKind::ArgList), m) <==> m
                == a),
    ensures
        k <= a ==> args_in(es, k, ds).1.len() == 0,
        k > a ==> exists|d: Seq<DiagnosticV>|
            args_in(es, k, ds).1 == (#[trigger] exprs_in(
                node_at(es, a)->0.children,
                node_at(es, a)->0.children.len() as int,
                d,
            )).1,
    decreases k,
{
    if k > 0 {
        lemma_args(es, a, k - 1, ds);
        let here = wanted(es, Want::Kind(SyntaxKind::ArgList), k - 1);
        assert(here <==> k - 1 == a);
        let (ds1, front) = args_in(es, k - 1, ds);
        if k - 1 == a {
            let c = node_at(es, a)->0;
            let more = exprs_in(c.children, c.children.len() as int, ds1).1;
            assert(front + more =~= more);
            assert(args_in(es, k, ds).1 == more);
        } else {
            assert(args_in(es, k, ds).1 == front);
        }
    }
}

/// A call is read with the callee that is named in front of its argument
/// list and with the arguments of that list, one for one and in order.
pub proof fn law_call_read(n: NodeV, f: int, a: int, m: int, ds: Seq<DiagnosticV>)
    requires
        n.kind == SyntaxKind::CallExpr,
        0 <= f < n.children.len(),
        0 <= a < n.children.len(),
        wanted(n.children, Want::NotArgs, f),
        forall|q: int| 0 <= q < f ==> !#[trigger] wanted(n.children, Want::NotArgs, q),
        node_at(n.children, f)->0.kind == SyntaxKind::NameRef || node_at(n.children, f)->0.kind
            == SyntaxKind::PathExpr,
        forall|q: int|
            0 <= q < n.children.len() ==> (#[trigger] wanted(
                n.children,
                Want::Kind(SyntaxKind::ArgList),
                q,
            ) <==> q == a),
        forall|q: int|
            0 <= q < node_at(n.children, a)->0.children.len() && #[trigger] wanted(
                node_at(n.children, a)->0.children,
                Want::Value,
                q,
            ) ==> lowers(node_at(node_at(n.children, a)->0.children, q)->0),
    ensures
        ({
            let c = node_at(n.children, f)->0;
            let list = node_at(n.children, a)->0.children;
            &&& expr_of(n, ds).1 matches Some(ExprV::Call { callee, args, span })
            &&& span == n.span
            &&& if c.kind == SyntaxKind::NameRef {
                callee.segs.len() == 1 && callee.segs[0] == name_of(c)
            } else {
                callee == path_of(c)
            }
            &&& args.len() == count(list, Want::Value, list.len() as int)
            &&& 0 <= m < list.len() && wanted(list, Want::Value, m) ==> reads(
                args[count(list, Want::Value, m) as int],
                node_at(list, m)->0,
            )
        }),
{
    let es = n.children;
    let list = node_at(es, a)->0.children;
    lemma_find_only(es, Want::NotArgs, 0, f);
    assert(wanted(es, Want::Kind(SyntaxKind::ArgList), a));
    lemma_args(es, a, es.len() as int, ds);
    let d = choose|d: Seq<DiagnosticV>|
        args_in(es, es.len() as int, ds).1 == (#[trigger] exprs_in(list, list.len() as int, d)).1;
    lemma_exprs(list, list.len() as int, d);
    reveal_with_fuel(expr_of, 2);
    reveal_with_fuel(crate::ast_body::call_of, 2);
}

} // verus!
