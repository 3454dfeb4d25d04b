//! Lowering of blocks, statements and expressions.
//!
//! Every lowering reads a node of the syntax tree and the errors found
//! so far, and yields the errors found afterwards and the lowered tree,
//! if there is one.

use crate::ast::{
    Block, BlockV, Expr, ExprV, FieldInit, FieldInitV, Ident, IdentV, Literal, MatchArm, MatchArmV,
    Path, PathV, Pattern, PatternV, Place, PlaceV, Stmt, StmtV, UnOp,
};
use crate::ast::idents;
use crate::ast_lower::{
    binop_of, literal_of, missing, name, name_of, path, path_of, pattern, pattern_of, structural,
    token_to_binop, type_child, type_ref,
};
use crate::code::Code;
use crate::diagnostic::{diags, Diagnostic, DiagnosticV};
use crate::hir_lower::{arms_view, exprs_view, inits_view, stmts_view};
use crate::lexeme::{decode_string, parse_int, spells_float, without_separators};
use crate::source::Span;
use crate::syntax::{
    contains_token, elems, find, find_node, find_solid, find_token, first, first_node, first_token,
    has_token, is_trivia, is_value_kind, lemma_children, node_at, node_ref, solid_token, token_at,
    token_ref, ElemV, NodeV, SyntaxElement, SyntaxKind, SyntaxNode, SyntaxToken, Want,
};
use crate::text::cat3;
use vstd::prelude::*;

verus! {

// ---------- expressions ----------

/// The expression at a position.
pub open spec fn expr_at(es: Seq<ElemV>, i: int, ds: Seq<DiagnosticV>) -> (
    Seq<DiagnosticV>,
    Option<ExprV>,
)
    decreases es, 0int,
{
    if 0 <= i < es.len() {
        match es[i] {
            ElemV::Node(c) => expr_of(c, ds),
            ElemV::Token(_) => (ds, None),
        }
    } else {
        (ds, None)
    }
}

/// The block at a position.
pub open spec fn block_at(es: Seq<ElemV>, i: int, ds: Seq<DiagnosticV>) -> (
    Seq<DiagnosticV>,
    Option<BlockV>,
)
    decreases es, 0int,
{
    if 0 <= i < es.len() {
        match es[i] {
            ElemV::Node(c) => {
                let (ds1, b) = block_of(c, ds);
                (ds1, Some(b))
            },
            ElemV::Token(_) => (ds, None),
        }
    } else {
        (ds, None)
    }
}

/// The value expressions among the first `k` elements.
pub open spec fn exprs_in(es: Seq<ElemV>, k: int, ds: Seq<DiagnosticV>) -> (
    Seq<DiagnosticV>,
    Seq<ExprV>,
)
    decreases es, k,
{
    if k <= 0 || k > es.len() {
        (ds, Seq::empty())
    } else {
        let (ds1, front) = exprs_in(es, k - 1, ds);
        match es[k - 1] {
            ElemV::Node(c) => if is_value_kind(c.kind) {
                let (ds2, e) = expr_of(c, ds1);
                (
                    ds2,
                    match e {
                        Some(x) => front.push(x),
                        None => front,
                    },
                )
            } else {
                (ds1, front)
            },
            ElemV::Token(_) => (ds1, front),
        }
    }
}

/// The arguments in the argument lists among the first `k` elements.
pub open spec fn args_in(es: Seq<ElemV>, k: int, ds: Seq<DiagnosticV>) -> (
    Seq<DiagnosticV>,
    Seq<ExprV>,
)
    decreases es, k,
{
    if k <= 0 || k > es.len() {
        (ds, Seq::empty())
    } else {
        let (ds1, front) = args_in(es, k - 1, ds);
        match es[k - 1] {
            ElemV::Node(c) => if c.kind == SyntaxKind::ArgList {
                let (ds2, more) = exprs_in(c.children, c.children.len() as int, ds1);
                (ds2, front + more)
            } else {
                (ds1, front)
            },
            ElemV::Token(_) => (ds1, front),
        }
    }
}

/// A call: its callee is a name or a path.
pub open spec fn call_of(n: NodeV, ds: Seq<DiagnosticV>) -> (Seq<DiagnosticV>, Option<ExprV>)
    decreases n, 1int,
{
    let (ds1, args) = args_in(n.children, n.children.len() as int, ds);
    match first(n.children, Want::NotArgs) {
        None => (ds1, None),
        Some(c) => if c.kind == SyntaxKind::NameRef {
            (
                ds1,
                Some(
                    ExprV::Call {
                        callee: PathV { segs: seq![name_of(c)], span: name_of(c).span },
                        args,
                        span: n.span,
                    },
                ),
            )
        } else if c.kind == SyntaxKind::PathExpr {
            (ds1, Some(ExprV::Call { callee: path_of(c), args, span: n.span }))
        } else {
            (ds1.push(structural("only direct function calls are supported"@, c.span)), None)
        },
    }
}

/// Where the base and the field name of a field expression stand: the
/// first node, and the first name reference behind it.
pub open spec fn field_parts(n: NodeV) -> Option<(int, int)> {
    let b = find(n.children, Want::Any, 0);
    let f = find(n.children, Want::Kind(SyntaxKind::NameRef), b + 1);
    if b < n.children.len() && f < n.children.len() {
        Some((b, f))
    } else {
        None
    }
}

/// The bounds among the first `k` elements of a range, and whether its
/// `..` is among them: a bound before it is the low one, one behind it
/// the high one.
pub open spec fn bounds_in(es: Seq<ElemV>, k: int, ds: Seq<DiagnosticV>) -> (
    Seq<DiagnosticV>,
    (Option<ExprV>, Option<ExprV>, bool),
)
    decreases es, k,
{
    if k <= 0 || k > es.len() {
        (ds, (None, None, false))
    } else {
        let (ds1, (lo, hi, dots)) = bounds_in(es, k - 1, ds);
        match es[k - 1] {
            ElemV::Token(t) => (ds1, (lo, hi, dots || t.kind == SyntaxKind::Dot2)),
            ElemV::Node(c) => if is_value_kind(c.kind) {
                let (ds2, e) = expr_of(c, ds1);
                if dots {
                    (ds2, (lo, e, dots))
                } else {
                    (ds2, (e, hi, dots))
                }
            } else {
                (ds1, (lo, hi, dots))
            },
        }
    }
}

/// An optional expression, boxed.
pub open spec fn boxed(e: Option<ExprV>) -> Option<Box<ExprV>> {
    match e {
        Some(x) => Some(Box::new(x)),
        None => None,
    }
}

/// An index or slice expression. Empty brackets already carry a
/// diagnostic, so they lower to an error expression.
pub open spec fn index_of(n: NodeV, ds: Seq<DiagnosticV>) -> (Seq<DiagnosticV>, Option<ExprV>)
    decreases n, 1int,
{
    let i = find(n.children, Want::Value, 0);
    let (ds1, base) = expr_at(n.children, i, ds);
    match base {
        None => (ds1, None),
        Some(base) => {
            let j = find(n.children, Want::Value, i + 1);
            if j >= n.children.len() || j < 0 {
                (ds1, Some(ExprV::Error { span: n.span }))
            } else {
                match n.children[j] {
                    ElemV::Node(c) => if c.kind == SyntaxKind::Range {
                        let (ds2, (lo, hi, dots)) = bounds_in(
                            c.children,
                            c.children.len() as int,
                            ds1,
                        );
                        (
                            ds2,
                            Some(
                                ExprV::Slice {
                                    base: Box::new(base),
                                    lo: boxed(lo),
                                    hi: boxed(hi),
                                    span: n.span,
                                },
                            ),
                        )
                    } else {
                        let (ds2, index) = expr_of(c, ds1);
                        (
                            ds2,
                            match index {
                                Some(x) => Some(
                                    ExprV::Index {
                                        base: Box::new(base),
                                        index: Box::new(x),
                                        span: n.span,
                                    },
                                ),
                                None => None,
                            },
                        )
                    },
                    ElemV::Token(_) => (ds1, None),
                }
            }
        },
    }
}

/// The iterable among the first `k` elements of a `for`, and where the
/// last block behind it stands.
pub open spec fn loop_in(es: Seq<ElemV>, k: int, ds: Seq<DiagnosticV>) -> (
    Seq<DiagnosticV>,
    (Option<ExprV>, Option<int>),
)
    decreases es, k,
{
    if k <= 0 || k > es.len() {
        (ds, (None, None))
    } else {
        let (ds1, (iter, body)) = loop_in(es, k - 1, ds);
        match es[k - 1] {
            ElemV::Node(c) => if c.kind == SyntaxKind::Block && iter is Some {
                (ds1, (iter, Some(k - 1)))
            } else if is_value_kind(c.kind) && iter is None {
                let (ds2, e) = expr_of(c, ds1);
                (ds2, (e, body))
            } else {
                (ds1, (iter, body))
            },
            ElemV::Token(_) => (ds1, (iter, body)),
        }
    }
}

/// An empty block at a place.
pub open spec fn no_block(span: Span) -> BlockV {
    BlockV { stmts: Seq::empty(), tail: None, span }
}

/// A `for` loop.
pub open spec fn for_of(n: NodeV, ds: Seq<DiagnosticV>) -> (Seq<DiagnosticV>, Option<ExprV>)
    decreases n, 1int,
{
    let (ds1, (iter, body)) = loop_in(n.children, n.children.len() as int, ds);
    match iter {
        None => (ds1, None),
        Some(iter) => {
            let (ds2, b) = match body {
                Some(i) => block_at(n.children, i, ds1),
                None => (ds1, None),
            };
            (
                ds2,
                Some(
                    ExprV::For {
                        var: match first(n.children, Want::Kind(SyntaxKind::Name)) {
                            Some(c) => name_of(c),
                            None => IdentV { name: "<missing>"@, span: n.span },
                        },
                        mutable: has_token(n.children, SyntaxKind::MutKw),
                        iter: Box::new(iter),
                        body: match b {
                            Some(x) => x,
                            None => no_block(Span { start: n.span.end, end: n.span.end }),
                        },
                        span: n.span,
                    },
                ),
            )
        },
    }
}

/// The pattern and the body among the first `k` elements of a match arm
/// that covers `span`: the last of each.
pub open spec fn arm_in(es: Seq<ElemV>, k: int, span: Span, ds: Seq<DiagnosticV>) -> (
    Seq<DiagnosticV>,
    (PatternV, ExprV),
)
    decreases es, k,
{
    if k <= 0 || k > es.len() {
        (
            ds,
            (
                PatternV::Bind {
                    name: IdentV { name: "_"@, span: Span { start: span.start, end: span.start } },
                },
                ExprV::Error { span },
            ),
        )
    } else {
        let (ds1, (pat, body)) = arm_in(es, k - 1, span, ds);
        match es[k - 1] {
            ElemV::Node(c) => if c.kind == SyntaxKind::PatBind || c.kind
                == SyntaxKind::PatVariant {
                (ds1, (pattern_of(c), body))
            } else if is_value_kind(c.kind) {
                let (ds2, e) = expr_of(c, ds1);
                (
                    ds2,
                    (
                        pat,
                        match e {
                            Some(x) => x,
                            None => ExprV::Error { span },
                        },
                    ),
                )
            } else {
                (ds1, (pat, body))
            },
            ElemV::Token(_) => (ds1, (pat, body)),
        }
    }
}

/// The arms among the first `k` elements of an arm list.
pub open spec fn arms_in(es: Seq<ElemV>, k: int, ds: Seq<DiagnosticV>) -> (
    Seq<DiagnosticV>,
    Seq<MatchArmV>,
)
    decreases es, k,
{
    if k <= 0 || k > es.len() {
        (ds, Seq::empty())
    } else {
        let (ds1, front) = arms_in(es, k - 1, ds);
        match es[k - 1] {
            ElemV::Node(c) => if c.kind == SyntaxKind::MatchArm {
                let (ds2, (pat, body)) = arm_in(
                    c.children,
                    c.children.len() as int,
                    c.span,
                    ds1,
                );
                (ds2, front.push(MatchArmV { pat, body, span: c.span }))
            } else {
                (ds1, front)
            },
            ElemV::Token(_) => (ds1, front),
        }
    }
}

/// The scrutinee and the arms among the first `k` elements of a `match`.
pub open spec fn match_in(es: Seq<ElemV>, k: int, ds: Seq<DiagnosticV>) -> (
    Seq<DiagnosticV>,
    (Option<ExprV>, Seq<MatchArmV>),
)
    decreases es, k,
{
    if k <= 0 || k > es.len() {
        (ds, (None, Seq::empty()))
    } else {
        let (ds1, (scrutinee, arms)) = match_in(es, k - 1, ds);
        match es[k - 1] {
            ElemV::Node(c) => if c.kind == SyntaxKind::MatchArmList {
                let (ds2, more) = arms_in(c.children, c.children.len() as int, ds1);
                (ds2, (scrutinee, arms + more))
            } else if is_value_kind(c.kind) && scrutinee is None {
                let (ds2, e) = expr_of(c, ds1);
                (ds2, (e, arms))
            } else {
                (ds1, (scrutinee, arms))
            },
            ElemV::Token(_) => (ds1, (scrutinee, arms)),
        }
    }
}

/// A `match` expression.
pub open spec fn match_of(n: NodeV, ds: Seq<DiagnosticV>) -> (Seq<DiagnosticV>, Option<ExprV>)
    decreases n, 1int,
{
    let (ds1, (scrutinee, arms)) = match_in(n.children, n.children.len() as int, ds);
    (
        ds1,
        Some(
            ExprV::Match {
                scrutinee: match scrutinee {
                    Some(e) => Box::new(e),
                    None => Box::new(ExprV::Error { span: n.span }),
                },
                arms,
                span: n.span,
            },
        ),
    )
}

/// What the first `k` elements of a binary expression hold.
#[verifier::ext_equal]
pub struct BinPartsV {
    /// The operator of the last token that is no trivia.
    pub op: Option<crate::ast::BinOp>,
    /// The operands.
    pub parts: Seq<ExprV>,
    /// Whether a token was no operator; nothing behind it counts.
    pub stopped: bool,
}

/// What the first `k` elements of a binary expression hold.
pub open spec fn bin_in(es: Seq<ElemV>, k: int, ds: Seq<DiagnosticV>) -> (
    Seq<DiagnosticV>,
    BinPartsV,
)
    decreases es, k,
{
    if k <= 0 || k > es.len() {
        (ds, BinPartsV { op: None, parts: Seq::empty(), stopped: false })
    } else {
        let (ds1, p) = bin_in(es, k - 1, ds);
        if p.stopped {
            (ds1, p)
        } else {
            match es[k - 1] {
                ElemV::Node(c) => if is_value_kind(c.kind) {
                    let (ds2, e) = expr_of(c, ds1);
                    (
                        ds2,
                        match e {
                            Some(x) => BinPartsV { parts: p.parts.push(x), ..p },
                            None => p,
                        },
                    )
                } else {
                    (ds1, p)
                },
                ElemV::Token(t) => if is_trivia(t.kind) {
                    (ds1, p)
                } else {
                    match binop_of(t.kind) {
                        Some(op) => (ds1, BinPartsV { op: Some(op), ..p }),
                        None => (ds1, BinPartsV { stopped: true, ..p }),
                    }
                },
            }
        }
    }
}

/// A binary expression: an operator between two operands.
pub open spec fn bin_of(n: NodeV, ds: Seq<DiagnosticV>) -> (Seq<DiagnosticV>, Option<ExprV>)
    decreases n, 1int,
{
    let (ds1, p) = bin_in(n.children, n.children.len() as int, ds);
    (
        ds1,
        if p.stopped {
            None
        } else if p.parts.len() != 2 {
            Some(ExprV::Error { span: n.span })
        } else {
            match p.op {
                Some(op) => Some(
                    ExprV::Binary {
                        op,
                        lhs: Box::new(p.parts[0]),
                        rhs: Box::new(p.parts[1]),
                        span: n.span,
                    },
                ),
                None => None,
            }
        },
    )
}

/// Where the parts of an `if` stand among the first `k` elements.
#[verifier::ext_equal]
pub struct IfPartsV {
    /// The condition.
    pub cond: Option<int>,
    /// The block behind the condition.
    pub then_: Option<int>,
    /// The second block behind the condition.
    pub other: Option<int>,
    /// The last chained `if` behind the first block.
    pub else_if: Option<int>,
}

/// Where the parts of an `if` stand among the first `k` elements. A
/// block in condition position precedes the first block.
pub open spec fn if_in(es: Seq<ElemV>, k: int) -> IfPartsV
    decreases k,
{
    if k <= 0 {
        IfPartsV { cond: None, then_: None, other: None, else_if: None }
    } else {
        let p = if_in(es, k - 1);
        match node_at(es, k - 1) {
            None => p,
            Some(c) => if c.kind == SyntaxKind::Block {
                if p.cond is None {
                    IfPartsV { cond: Some(k - 1), ..p }
                } else if p.then_ is None {
                    IfPartsV { then_: Some(k - 1), ..p }
                } else if p.other is None {
                    IfPartsV { other: Some(k - 1), ..p }
                } else {
                    p
                }
            } else if c.kind == SyntaxKind::IfExpr && p.then_ is Some {
                IfPartsV { else_if: Some(k - 1), ..p }
            } else if is_value_kind(c.kind) && p.cond is None {
                IfPartsV { cond: Some(k - 1), ..p }
            } else {
                p
            },
        }
    }
}

/// The `else` branch of an `if`: a chained `if`, or a second block.
pub open spec fn else_of(es: Seq<ElemV>, p: IfPartsV, ds: Seq<DiagnosticV>) -> (
    Seq<DiagnosticV>,
    Option<Box<ExprV>>,
)
    decreases es, 1int,
{
    match p.else_if {
        Some(i) => {
            let (ds1, e) = expr_at(es, i, ds);
            (ds1, boxed(e))
        },
        None => match p.other {
            Some(i) => {
                let (ds1, b) = block_at(es, i, ds);
                (
                    ds1,
                    match b {
                        Some(block) => Some(
                            Box::new(ExprV::Block { block, span: node_at(es, i)->0.span }),
                        ),
                        None => None,
                    },
                )
            },
            None => (ds, None),
        },
    }
}

/// An `if` expression. Its `else` branch is lowered first.
pub open spec fn if_of(n: NodeV, ds: Seq<DiagnosticV>) -> (Seq<DiagnosticV>, Option<ExprV>)
    decreases n, 1int,
{
    let p = if_in(n.children, n.children.len() as int);
    match (p.cond, p.then_) {
        (Some(c), Some(t)) => {
            let (ds1, else_) = else_of(n.children, p, ds);
            let (ds2, cond) = expr_at(n.children, c, ds1);
            match cond {
                None => (ds2, None),
                Some(cond) => {
                    let (ds3, then_) = block_at(n.children, t, ds2);
                    match then_ {
                        Some(then_) => (
                            ds3,
                            Some(ExprV::If { cond: Box::new(cond), then_, else_, span: n.span }),
                        ),
                        None => (ds3, None),
                    }
                },
            }
        },
        _ => (ds, None),
    }
}

/// The initializers among the first `k` elements of a struct literal.
/// The field name is itself a name reference, so the value is the first
/// value node behind it.
pub open spec fn inits_in(es: Seq<ElemV>, k: int, ds: Seq<DiagnosticV>) -> (
    Seq<DiagnosticV>,
    Seq<FieldInitV>,
)
    decreases es, k,
{
    if k <= 0 || k > es.len() {
        (ds, Seq::empty())
    } else {
        let (ds1, front) = inits_in(es, k - 1, ds);
        match es[k - 1] {
            ElemV::Node(c) => {
                let i = find(c.children, Want::Value, 0);
                match node_at(c.children, i) {
                    Some(x) => if c.kind == SyntaxKind::StructLitField && x.kind
                        == SyntaxKind::NameRef {
                        let (ds2, e) = expr_at(
                            c.children,
                            find(c.children, Want::Value, i + 1),
                            ds1,
                        );
                        (
                            ds2,
                            match e {
                                Some(value) => front.push(
                                    FieldInitV { name: name_of(x), value, span: c.span },
                                ),
                                None => front,
                            },
                        )
                    } else {
                        (ds1, front)
                    },
                    None => (ds1, front),
                }
            },
            ElemV::Token(_) => (ds1, front),
        }
    }
}

/// The name of a struct literal: its first name or path.
pub open spec fn struct_name(n: NodeV) -> PathV {
    match first(n.children, Want::NameOrPath) {
        Some(c) => if c.kind == SyntaxKind::PathExpr {
            path_of(c)
        } else {
            PathV { segs: seq![name_of(c)], span: name_of(c).span }
        },
        None => PathV {
            segs: seq![IdentV { name: "<missing>"@, span: n.span }],
            span: n.span,
        },
    }
}

/// A unary expression: an operator token, and the first value node
/// behind it.
pub open spec fn prefix_of(n: NodeV, ds: Seq<DiagnosticV>) -> (Seq<DiagnosticV>, Option<ExprV>)
    decreases n, 1int,
{
    let t = find_token(n.children, 0);
    let i = find(n.children, Want::Value, t + 1);
    match token_at(n.children, t) {
        None => (ds, None),
        Some(tok) => if node_at(n.children, i) is None {
            (ds, None)
        } else if tok.kind == SyntaxKind::Minus || tok.kind == SyntaxKind::Not {
            let (ds1, e) = expr_at(n.children, i, ds);
            (
                ds1,
                match e {
                    Some(x) => Some(
                        ExprV::Unary {
                            op: if tok.kind == SyntaxKind::Minus {
                                UnOp::Neg
                            } else {
                                UnOp::Not
                            },
                            expr: Box::new(x),
                            span: n.span,
                        },
                    ),
                    None => None,
                },
            )
        } else {
            (ds, Some(ExprV::Error { span: n.span }))
        },
    }
}

/// A field access.
pub open spec fn field_expr_of(n: NodeV, ds: Seq<DiagnosticV>) -> (
    Seq<DiagnosticV>,
    Option<ExprV>,
)
    decreases n, 1int,
{
    match field_parts(n) {
        None => (ds, None),
        Some((b, f)) => {
            let (ds1, e) = expr_at(n.children, b, ds);
            (
                ds1,
                match e {
                    Some(base) => Some(
                        ExprV::Field {
                            base: Box::new(base),
                            name: name_of(node_at(n.children, f)->0),
                            span: n.span,
                        },
                    ),
                    None => None,
                },
            )
        },
    }
}

/// What an expression node lowers to. Parentheses are removed; a node
/// that is no expression lowers to nothing.
pub open spec fn expr_of(n: NodeV, ds: Seq<DiagnosticV>) -> (Seq<DiagnosticV>, Option<ExprV>)
    decreases n, 2int,
{
    match n.kind {
        SyntaxKind::Literal => match first_token(n.children) {
            Some(t) => {
                let (ds1, value) = literal_of(t, ds);
                (ds1, Some(ExprV::Literal { value, span: n.span }))
            },
            None => (ds, None),
        },
        SyntaxKind::NameRef => (ds, Some(ExprV::Var { name: name_of(n) })),
        SyntaxKind::PathExpr => (ds, Some(ExprV::Path { path: path_of(n) })),
        SyntaxKind::CallExpr => call_of(n, ds),
        SyntaxKind::FieldExpr => field_expr_of(n, ds),
        SyntaxKind::IndexExpr => index_of(n, ds),
        SyntaxKind::Range => {
            let (ds1, (lo, hi, dots)) = bounds_in(n.children, n.children.len() as int, ds);
            (ds1, Some(ExprV::Range { lo: boxed(lo), hi: boxed(hi), span: n.span }))
        },
        SyntaxKind::ArrayExpr => {
            let (ds1, es) = exprs_in(n.children, n.children.len() as int, ds);
            (ds1, Some(ExprV::ArrayLit { elems: es, span: n.span }))
        },
        SyntaxKind::ForExpr => for_of(n, ds),
        SyntaxKind::MatchExpr => match_of(n, ds),
        SyntaxKind::BinExpr => bin_of(n, ds),
        SyntaxKind::PrefixExpr => prefix_of(n, ds),
        SyntaxKind::IfExpr => if_of(n, ds),
        SyntaxKind::ParenExpr => expr_at(n.children, find(n.children, Want::Value, 0), ds),
        SyntaxKind::Block => {
            let (ds1, block) = block_of(n, ds);
            (ds1, Some(ExprV::Block { block, span: n.span }))
        },
        SyntaxKind::StructLit => {
            let (ds1, fs) = inits_in(n.children, n.children.len() as int, ds);
            (ds1, Some(ExprV::StructLit { name: struct_name(n), fields: fs, span: n.span }))
        },
        SyntaxKind::Error => (ds, Some(ExprV::Error { span: n.span })),
        _ => (ds, None),
    }
}

// ---------- statements ----------

/// The first value expression of a node.
pub open spec fn value_of(n: NodeV, ds: Seq<DiagnosticV>) -> (Seq<DiagnosticV>, Option<ExprV>)
    decreases n, 0int,
{
    expr_at(n.children, find(n.children, Want::Value, 0), ds)
}

/// A `let`: its initializer is the first value behind a `=`.
pub open spec fn let_of(n: NodeV, ds: Seq<DiagnosticV>) -> (Seq<DiagnosticV>, Option<StmtV>)
    decreases n, 1int,
{
    match first(n.children, Want::Kind(SyntaxKind::Name)) {
        None => (ds, None),
        Some(c) => {
            let (ds1, init) = if has_token(n.children, SyntaxKind::Eq) {
                value_of(n, ds)
            } else {
                (ds, None)
            };
            (
                ds1,
                Some(
                    StmtV::Let {
                        name: name_of(c),
                        mutable: has_token(n.children, SyntaxKind::MutKw),
                        ty: type_ref(n),
                        init,
                        span: n.span,
                    },
                ),
            )
        },
    }
}

/// The names of a field chain, the binding first: `x.f.g`.
pub open spec fn chain_of(n: NodeV, ds: Seq<DiagnosticV>) -> (
    Seq<DiagnosticV>,
    Option<Seq<IdentV>>,
)
    decreases n,
{
    match field_parts(n) {
        None => (ds, None),
        Some((b, f)) => if 0 <= b < n.children.len() {
            match n.children[b] {
                ElemV::Node(base) => {
                    let name = name_of(node_at(n.children, f)->0);
                    if base.kind == SyntaxKind::FieldExpr {
                        let (ds1, front) = chain_of(base, ds);
                        (
                            ds1,
                            match front {
                                Some(x) => Some(x.push(name)),
                                None => None,
                            },
                        )
                    } else if base.kind == SyntaxKind::NameRef {
                        (ds, Some(seq![name_of(base), name]))
                    } else {
                        (ds.push(structural("invalid assignment target"@, n.span)), None)
                    }
                },
                ElemV::Token(_) => (ds, None),
            }
        } else {
            (ds, None)
        },
    }
}

/// The place an expression node stands for: `x` or `x.f.g`. Anything
/// else is a structural error.
pub open spec fn place_of(n: NodeV, ds: Seq<DiagnosticV>) -> (Seq<DiagnosticV>, Option<PlaceV>) {
    if n.kind == SyntaxKind::NameRef {
        (ds, Some(PlaceV { base: name_of(n), fields: Seq::empty() }))
    } else if n.kind == SyntaxKind::FieldExpr {
        let (ds1, names) = chain_of(n, ds);
        (
            ds1,
            match names {
                Some(x) => Some(PlaceV { base: x[0], fields: x.skip(1) }),
                None => None,
            },
        )
    } else {
        (ds.push(structural("invalid assignment target"@, n.span)), None)
    }
}

/// An assignment: its first two values, the first of them a place. The
/// assigned value is lowered first.
pub open spec fn assign_of(n: NodeV, ds: Seq<DiagnosticV>) -> (Seq<DiagnosticV>, Option<StmtV>)
    decreases n, 1int,
{
    let i = find(n.children, Want::Value, 0);
    match node_at(n.children, i) {
        None => (ds, None),
        Some(target) => {
            let (ds1, value) = expr_at(n.children, find(n.children, Want::Value, i + 1), ds);
            let (ds2, place) = place_of(target, ds1);
            (
                ds2,
                match (place, value) {
                    (Some(target), Some(value)) => Some(
                        StmtV::Assign { target, value, span: n.span },
                    ),
                    _ => None,
                },
            )
        },
    }
}

/// What the first `k` elements of a block hold: statements, and the
/// tail. Only the final node, an expression written without a
/// semicolon, is the block's tail value.
pub open spec fn stmts_in(es: Seq<ElemV>, k: int, ds: Seq<DiagnosticV>) -> (
    Seq<DiagnosticV>,
    (Seq<StmtV>, Option<ExprV>),
)
    decreases es, k,
{
    if k <= 0 || k > es.len() {
        (ds, (Seq::empty(), None))
    } else {
        let (ds1, (stmts, tail)) = stmts_in(es, k - 1, ds);
        match es[k - 1] {
            ElemV::Token(_) => (ds1, (stmts, tail)),
            ElemV::Node(c) => match c.kind {
                SyntaxKind::LetStmt => {
                    let (ds2, s) = let_of(c, ds1);
                    (ds2, (with_stmt(stmts, s), tail))
                },
                SyntaxKind::AssignStmt => {
                    let (ds2, s) = assign_of(c, ds1);
                    (ds2, (with_stmt(stmts, s), tail))
                },
                SyntaxKind::ReturnStmt => {
                    let (ds2, value) = value_of(c, ds1);
                    (ds2, (stmts.push(StmtV::Return { value, span: c.span }), tail))
                },
                SyntaxKind::ExprStmt => {
                    let has_semi = has_token(c.children, SyntaxKind::Semicolon);
                    let (ds2, e) = value_of(c, ds1);
                    match e {
                        None => (ds2, (stmts, tail)),
                        Some(expr) => if !has_semi && find(es, Want::Any, k) >= es.len() {
                            (ds2, (stmts, Some(expr)))
                        } else {
                            (
                                ds2,
                                (
                                    stmts.push(StmtV::Expr { expr, has_semi, span: c.span }),
                                    tail,
                                ),
                            )
                        },
                    }
                },
                _ => (ds1, (stmts, tail)),
            },
        }
    }
}

/// Statements with one more, if there is one.
pub open spec fn with_stmt(stmts: Seq<StmtV>, s: Option<StmtV>) -> Seq<StmtV> {
    match s {
        Some(x) => stmts.push(x),
        None => stmts,
    }
}

/// A block.
pub open spec fn block_of(n: NodeV, ds: Seq<DiagnosticV>) -> (Seq<DiagnosticV>, BlockV)
    decreases n, 1int,
{
    let (ds1, (stmts, tail)) = stmts_in(n.children, n.children.len() as int, ds);
    (ds1, BlockV { stmts, tail: boxed(tail), span: n.span })
}

// ---------- the lowerer ----------

/// The model of an optional expression.
pub open spec fn opt_expr(e: Option<Expr>) -> Option<ExprV> {
    match e {
        Some(x) => Some(x@),
        None => None,
    }
}

/// The model of an optional statement.
pub open spec fn opt_stmt(s: Option<Stmt>) -> Option<StmtV> {
    match s {
        Some(x) => Some(x@),
        None => None,
    }
}

/// The model of an optional block.
pub open spec fn opt_block(b: Option<Block>) -> Option<BlockV> {
    match b {
        Some(x) => Some(x@),
        None => None,
    }
}

/// The model of an optional boxed expression.
pub open spec fn opt_boxed(e: Option<Box<Expr>>) -> Option<Box<ExprV>> {
    match e {
        Some(x) => Some(Box::new((*x).view())),
        None => None,
    }
}

fn to_box(e: Option<Expr>) -> (r: Option<Box<Expr>>)
    ensures
        opt_boxed(r) == boxed(opt_expr(e)),
{
    match e {
        Some(x) => Some(Box::new(x)),
        None => None,
    }
}

/// Lowers syntax nodes and collects the structural errors it finds.
pub struct Lowerer {
    /// The errors found so far.
    pub errs: Vec<Diagnostic>,
}

impl Lowerer {
    /// The errors found so far.
    pub open spec fn view(&self) -> Seq<DiagnosticV> {
        diags(self.errs@)
    }

    fn error(&mut self, message: String, span: Span)
        ensures
            final(self)@ == old(self)@.push(structural(message@, span)),
    {
        let d = Diagnostic::error(Code::Parse, message).primary(span);
        let ghost dv = d@;
        self.errs.push(d);
        proof {
            assert(self@ =~= old(self)@.push(dv));
        }
    }

    fn literal(&mut self, t: &SyntaxToken) -> (r: Literal)
        ensures
            (final(self)@, r@) == literal_of(t@, old(self)@),
    {
        match t.kind {
            SyntaxKind::TrueKw => Literal::Bool(true),
            SyntaxKind::FalseKw => Literal::Bool(false),
            SyntaxKind::IntNumber => {
                let clean = without_separators(t.text.as_str());
                match parse_int(clean.as_str()) {
                    Some(v) => Literal::Int(v),
                    None => {
                        self.error(
                            cat3("integer literal `", t.text.as_str(), "` is too large"),
                            t.span,
                        );
                        Literal::Int(0)
                    },
                }
            },
            SyntaxKind::FloatNumber => {
                let clean = without_separators(t.text.as_str());
                if spells_float(clean.as_str()) {
                    Literal::Float(clean)
                } else {
                    self.error(
                        cat3("invalid float literal `", t.text.as_str(), "`"),
                        t.span,
                    );
                    Literal::Float("0.0".to_owned())
                }
            },
            SyntaxKind::Str => Literal::Str(decode_string(t.text.as_str())),
            _ => Literal::Int(0),
        }
    }

    fn expr_at(&mut self, es: &Vec<SyntaxElement>, i: usize) -> (r: Option<Expr>)
        ensures
            (final(self)@, opt_expr(r)) == expr_at(elems(es@), i as int, old(self)@),
        decreases es@, 0int,
    {
        if i < es.len() {
            match &es[i] {
                SyntaxElement::Node(c) => self.expr(c),
                SyntaxElement::Token(_) => None,
            }
        } else {
            None
        }
    }

    fn block_at(&mut self, es: &Vec<SyntaxElement>, i: usize) -> (r: Option<Block>)
        ensures
            (final(self)@, opt_block(r)) == block_at(elems(es@), i as int, old(self)@),
        decreases es@, 0int,
    {
        if i < es.len() {
            match &es[i] {
                SyntaxElement::Node(c) => Some(self.block(c)),
                SyntaxElement::Token(_) => None,
            }
        } else {
            None
        }
    }

    fn exprs(&mut self, es: &Vec<SyntaxElement>) -> (r: Vec<Expr>)
        ensures
            (final(self)@, exprs_view(r@)) == exprs_in(
                elems(es@),
                es@.len() as int,
                old(self)@,
            ),
        decreases es@, 1int,
    {
        let ghost ds0 = self@;
        let mut out: Vec<Expr> = Vec::new();
        let mut i: usize = 0;
        proof {
            assert(exprs_view(out@) =~= Seq::empty());
        }
        while i < es.len()
            invariant
                i <= es@.len(),
                (self@, exprs_view(out@)) == exprs_in(elems(es@), i as int, ds0),
            decreases es@.len() - i,
        {
            match &es[i] {
                SyntaxElement::Node(c) => if c.kind.is_value_node() {
                    if let Some(x) = self.expr(c) {
                        let ghost before = exprs_view(out@);
                        let ghost xv = x@;
                        out.push(x);
                        proof {
                            assert(exprs_view(out@) =~= before.push(xv));
                        }
                    }
                },
                SyntaxElement::Token(_) => {},
            }
            i += 1;
        }
        out
    }

    fn args(&mut self, es: &Vec<SyntaxElement>) -> (r: Vec<Expr>)
        ensures
            (final(self)@, exprs_view(r@)) == args_in(elems(es@), es@.len() as int, old(self)@),
        decreases es@, 1int,
    {
        let ghost ds0 = self@;
        let mut out: Vec<Expr> = Vec::new();
        let mut i: usize = 0;
        proof {
            assert(exprs_view(out@) =~= Seq::empty());
        }
        while i < es.len()
            invariant
                i <= es@.len(),
                (self@, exprs_view(out@)) == args_in(elems(es@), i as int, ds0),
            decreases es@.len() - i,
        {
            match &es[i] {
                SyntaxElement::Node(c) => if c.kind == SyntaxKind::ArgList {
                    proof {
                        lemma_children(*c);
                    }
                    let mut more = self.exprs(&c.children);
                    let ghost before = exprs_view(out@);
                    let ghost mv = exprs_view(more@);
                    out.append(&mut more);
                    proof {
                        assert(exprs_view(out@) =~= before + mv);
                    }
                },
                SyntaxElement::Token(_) => {},
            }
            i += 1;
        }
        out
    }

    fn call_expr(&mut self, n: &SyntaxNode) -> (r: Option<Expr>)
        ensures
            (final(self)@, opt_expr(r)) == call_of(n@, old(self)@),
        decreases n, 1int,
    {
        proof {
            lemma_children(*n);
        }
        let args = self.args(&n.children);
        let callee = match first_node(&n.children, Want::NotArgs) {
            None => return None,
            Some(c) => if c.kind == SyntaxKind::NameRef {
                Path::single(name(c))
            } else if c.kind == SyntaxKind::PathExpr {
                path(c)
            } else {
                self.error("only direct function calls are supported".to_owned(), c.span);
                return None;
            },
        };
        let e = Expr::Call { callee, args, span: n.span };
        proof {
            assert(e@->Call_args =~= exprs_view(args@));
        }
        Some(e)
    }

    fn range_bounds(&mut self, es: &Vec<SyntaxElement>) -> (r: (Option<Expr>, Option<Expr>))
        ensures
            ({
                let (ds, (lo, hi, dots)) = bounds_in(elems(es@), es@.len() as int, old(self)@);
                final(self)@ == ds && opt_expr(r.0) == lo && opt_expr(r.1) == hi
            }),
        decreases es@, 1int,
    {
        let ghost ds0 = self@;
        let mut lo: Option<Expr> = None;
        let mut hi: Option<Expr> = None;
        let mut dots = false;
        let mut i: usize = 0;
        while i < es.len()
            invariant
                i <= es@.len(),
                (self@, (opt_expr(lo), opt_expr(hi), dots)) == bounds_in(
                    elems(es@),
                    i as int,
                    ds0,
                ),
            decreases es@.len() - i,
        {
            match &es[i] {
                SyntaxElement::Token(t) => if t.kind == SyntaxKind::Dot2 {
                    dots = true;
                },
                SyntaxElement::Node(c) => if c.kind.is_value_node() {
                    let e = self.expr(c);
                    if dots {
                        hi = e;
                    } else {
                        lo = e;
                    }
                },
            }
            i += 1;
        }
        (lo, hi)
    }

    fn index_expr(&mut self, n: &SyntaxNode) -> (r: Option<Expr>)
        ensures
            (final(self)@, opt_expr(r)) == index_of(n@, old(self)@),
        decreases n, 1int,
    {
        proof {
            lemma_children(*n);
        }
        let len: usize = n.children.len();
        let i = find_node(&n.children, Want::Value, 0);
        let base = match self.expr_at(&n.children, i) {
            Some(b) => b,
            None => return None,
        };
        if i >= len {
            return None;
        }
        let j = find_node(&n.children, Want::Value, i + 1);
        if j >= len {
            return Some(Expr::Error { span: n.span });
        }
        match &n.children[j] {
            SyntaxElement::Node(c) => if c.kind == SyntaxKind::Range {
                proof {
                    lemma_children(*c);
                }
                let (lo, hi) = self.range_bounds(&c.children);
                Some(
                    Expr::Slice {
                        base: Box::new(base),
                        lo: to_box(lo),
                        hi: to_box(hi),
                        span: n.span,
                    },
                )
            } else {
                match self.expr(c) {
                    Some(x) => Some(
                        Expr::Index { base: Box::new(base), index: Box::new(x), span: n.span },
                    ),
                    None => None,
                }
            },
            SyntaxElement::Token(_) => None,
        }
    }

    fn loop_parts(&mut self, es: &Vec<SyntaxElement>) -> (r: (Option<Expr>, Option<usize>))
        ensures
            ({
                let (ds, (iter, body)) = loop_in(elems(es@), es@.len() as int, old(self)@);
                &&& final(self)@ == ds
                &&& opt_expr(r.0) == iter
                &&& match r.1 {
                    Some(i) => body == Some(i as int),
                    None => body is None,
                }
            }),
        decreases es@, 1int,
    {
        let ghost ds0 = self@;
        let mut iter: Option<Expr> = None;
        let mut body: Option<usize> = None;
        let mut i: usize = 0;
        while i < es.len()
            invariant
                i <= es@.len(),
                ({
                    let (ds, (it, b)) = loop_in(elems(es@), i as int, ds0);
                    &&& self@ == ds
                    &&& opt_expr(iter) == it
                    &&& match body {
                        Some(x) => b == Some(x as int),
                        None => b is None,
                    }
                }),
            decreases es@.len() - i,
        {
            match &es[i] {
                SyntaxElement::Node(c) => if c.kind == SyntaxKind::Block && iter.is_some() {
                    body = Some(i);
                } else if c.kind.is_value_node() && iter.is_none() {
                    iter = self.expr(c);
                },
                SyntaxElement::Token(_) => {},
            }
            i += 1;
        }
        (iter, body)
    }

    fn for_expr(&mut self, n: &SyntaxNode) -> (r: Option<Expr>)
        ensures
            (final(self)@, opt_expr(r)) == for_of(n@, old(self)@),
        decreases n, 1int,
    {
        proof {
            lemma_children(*n);
        }
        let (iter, at) = self.loop_parts(&n.children);
        let iter = match iter {
            Some(e) => e,
            None => return None,
        };
        let found = match at {
            Some(i) => self.block_at(&n.children, i),
            None => None,
        };
        let body = match found {
            Some(b) => b,
            None => {
                let b = Block { stmts: Vec::new(), tail: None, span: Span::empty(n.span.end) };
                proof {
                    assert(b@.stmts =~= Seq::empty());
                }
                b
            },
        };
        let var = match first_node(&n.children, Want::Kind(SyntaxKind::Name)) {
            Some(c) => name(c),
            None => Ident::new(missing(), n.span),
        };
        Some(
            Expr::For {
                var,
                mutable: contains_token(&n.children, SyntaxKind::MutKw),
                iter: Box::new(iter),
                body,
                span: n.span,
            },
        )
    }

    fn arm(&mut self, es: &Vec<SyntaxElement>, span: Span) -> (r: (Pattern, Expr))
        ensures
            (final(self)@, (r.0@, r.1@)) == arm_in(
                elems(es@),
                es@.len() as int,
                span,
                old(self)@,
            ),
        decreases es@, 1int,
    {
        let ghost ds0 = self@;
        let mut pat = Pattern::Bind {
            name: Ident::new("_".to_owned(), Span::empty(span.start)),
        };
        let mut body = Expr::Error { span };
        let mut i: usize = 0;
        while i < es.len()
            invariant
                i <= es@.len(),
                (self@, (pat@, body@)) == arm_in(elems(es@), i as int, span, ds0),
            decreases es@.len() - i,
        {
            match &es[i] {
                SyntaxElement::Node(c) => if c.kind == SyntaxKind::PatBind || c.kind
                    == SyntaxKind::PatVariant {
                    pat = pattern(c);
                } else if c.kind.is_value_node() {
                    body = match self.expr(c) {
                        Some(x) => x,
                        None => Expr::Error { span },
                    };
                },
                SyntaxElement::Token(_) => {},
            }
            i += 1;
        }
        (pat, body)
    }

    fn arms(&mut self, es: &Vec<SyntaxElement>) -> (r: Vec<MatchArm>)
        ensures
            (final(self)@, arms_view(r@)) == arms_in(elems(es@), es@.len() as int, old(self)@),
        decreases es@, 2int,
    {
        let ghost ds0 = self@;
        let mut out: Vec<MatchArm> = Vec::new();
        let mut i: usize = 0;
        proof {
            assert(arms_view(out@) =~= Seq::empty());
        }
        while i < es.len()
            invariant
                i <= es@.len(),
                (self@, arms_view(out@)) == arms_in(elems(es@), i as int, ds0),
            decreases es@.len() - i,
        {
            match &es[i] {
                SyntaxElement::Node(c) => if c.kind == SyntaxKind::MatchArm {
                    proof {
                        lemma_children(*c);
                    }
                    let (pat, body) = self.arm(&c.children, c.span);
                    let ghost before = arms_view(out@);
                    let x = MatchArm { pat, body, span: c.span };
                    let ghost xv = x@;
                    out.push(x);
                    proof {
                        assert(arms_view(out@) =~= before.push(xv));
                    }
                },
                SyntaxElement::Token(_) => {},
            }
            i += 1;
        }
        out
    }

    fn match_parts(&mut self, es: &Vec<SyntaxElement>) -> (r: (Option<Expr>, Vec<MatchArm>))
        ensures
            (final(self)@, (opt_expr(r.0), arms_view(r.1@))) == match_in(
                elems(es@),
                es@.len() as int,
                old(self)@,
            ),
        decreases es@, 2int,
    {
        let ghost ds0 = self@;
        let mut scrutinee: Option<Expr> = None;
        let mut out: Vec<MatchArm> = Vec::new();
        let mut i: usize = 0;
        proof {
            assert(arms_view(out@) =~= Seq::empty());
        }
        while i < es.len()
            invariant
                i <= es@.len(),
                (self@, (opt_expr(scrutinee), arms_view(out@))) == match_in(
                    elems(es@),
                    i as int,
                    ds0,
                ),
            decreases es@.len() - i,
        {
            match &es[i] {
                SyntaxElement::Node(c) => if c.kind == SyntaxKind::MatchArmList {
                    proof {
                        lemma_children(*c);
                    }
                    let mut more = self.arms(&c.children);
                    let ghost before = arms_view(out@);
                    let ghost mv = arms_view(more@);
                    out.append(&mut more);
                    proof {
                        assert(arms_view(out@) =~= before + mv);
                    }
                } else if c.kind.is_value_node() && scrutinee.is_none() {
                    scrutinee = self.expr(c);
                },
                SyntaxElement::Token(_) => {},
            }
            i += 1;
        }
        (scrutinee, out)
    }

    fn match_expr(&mut self, n: &SyntaxNode) -> (r: Option<Expr>)
        ensures
            (final(self)@, opt_expr(r)) == match_of(n@, old(self)@),
        decreases n, 1int,
    {
        proof {
            lemma_children(*n);
        }
        let (scrutinee, arms) = self.match_parts(&n.children);
        let head = match scrutinee {
            Some(e) => e,
            None => Expr::Error { span: n.span },
        };
        let ghost hv = head@;
        let e = Expr::Match { scrutinee: Box::new(head), arms, span: n.span };
        proof {
            assert(e@->Match_arms =~= arms_view(arms@));
            assert(e@ == (ExprV::Match {
                scrutinee: Box::new(hv),
                arms: arms_view(arms@),
                span: n@.span,
            }));
        }
        Some(e)
    }

    fn bin_expr(&mut self, n: &SyntaxNode) -> (r: Option<Expr>)
        ensures
            (final(self)@, opt_expr(r)) == bin_of(n@, old(self)@),
        decreases n, 1int,
    {
        proof {
            lemma_children(*n);
        }
        let ghost ds0 = self@;
        let es = &n.children;
        let mut op: Option<crate::ast::BinOp> = None;
        let mut parts: Vec<Expr> = Vec::new();
        let mut i: usize = 0;
        proof {
            assert(exprs_view(parts@) =~= Seq::empty());
        }
        while i < es.len()
            invariant
                i <= es@.len(),
                es == n.children,
                n@.children == elems(es@),
                ds0 == old(self)@,
                (self@, BinPartsV { op, parts: exprs_view(parts@), stopped: false }) == bin_in(
                    elems(es@),
                    i as int,
                    ds0,
                ),
            decreases es@.len() - i,
        {
            match &es[i] {
                SyntaxElement::Node(c) => if c.kind.is_value_node() {
                    if let Some(x) = self.expr(c) {
                        let ghost before = exprs_view(parts@);
                        let ghost xv = x@;
                        parts.push(x);
                        proof {
                            assert(exprs_view(parts@) =~= before.push(xv));
                        }
                    }
                },
                SyntaxElement::Token(t) => if !t.kind.is_trivia() {
                    match token_to_binop(t.kind) {
                        Some(x) => {
                            op = Some(x);
                        },
                        None => {
                            proof {
                                lemma_bin_stopped(elems(es@), i + 1, ds0);
                            }
                            return None;
                        },
                    }
                },
            }
            i += 1;
        }
        proof {
            assert(exprs_view(parts@).len() == parts@.len());
        }
        if parts.len() != 2 {
            return Some(Expr::Error { span: n.span });
        }
        let ghost pv = exprs_view(parts@);
        let rhs = parts.pop();
        let lhs = parts.pop();
        match (op, lhs, rhs) {
            (Some(op), Some(lhs), Some(rhs)) => {
                assert(lhs@ == pv[0] && rhs@ == pv[1]);
                Some(
                    Expr::Binary { op, lhs: Box::new(lhs), rhs: Box::new(rhs), span: n.span },
                )
            },
            _ => None,
        }
    }

    fn if_expr(&mut self, n: &SyntaxNode) -> (r: Option<Expr>)
        ensures
            (final(self)@, opt_expr(r)) == if_of(n@, old(self)@),
        decreases n, 1int,
    {
        proof {
            lemma_children(*n);
        }
        let p = if_parts(&n.children);
        let (c, t) = match (p.cond, p.then_) {
            (Some(c), Some(t)) => (c, t),
            _ => return None,
        };
        let else_ = self.else_branch(&n.children, &p);
        let cond = match self.expr_at(&n.children, c) {
            Some(e) => e,
            None => return None,
        };
        match self.block_at(&n.children, t) {
            Some(then_) => Some(
                Expr::If { cond: Box::new(cond), then_, else_, span: n.span },
            ),
            None => None,
        }
    }

    fn else_branch(&mut self, es: &Vec<SyntaxElement>, p: &IfParts) -> (r: Option<Box<Expr>>)
        ensures
            (final(self)@, opt_boxed(r)) == else_of(elems(es@), p@, old(self)@),
        decreases es@, 1int,
    {
        match p.else_if {
            Some(i) => to_box(self.expr_at(es, i)),
            None => match p.other {
                Some(i) => {
                    let span = match node_ref(es, i) {
                        Some(c) => c.span,
                        None => return None,
                    };
                    match self.block_at(es, i) {
                        Some(block) => Some(Box::new(Expr::Block { block, span })),
                        None => None,
                    }
                },
                None => None,
            },
        }
    }

    fn inits(&mut self, es: &Vec<SyntaxElement>) -> (r: Vec<FieldInit>)
        ensures
            (final(self)@, inits_view(r@)) == inits_in(
                elems(es@),
                es@.len() as int,
                old(self)@,
            ),
        decreases es@, 1int,
    {
        let ghost ds0 = self@;
        let mut out: Vec<FieldInit> = Vec::new();
        let mut i: usize = 0;
        proof {
            assert(inits_view(out@) =~= Seq::empty());
        }
        while i < es.len()
            invariant
                i <= es@.len(),
                (self@, inits_view(out@)) == inits_in(elems(es@), i as int, ds0),
            decreases es@.len() - i,
        {
            match &es[i] {
                SyntaxElement::Node(c) => {
                    proof {
                        lemma_children(*c);
                    }
                    let at = find_node(&c.children, Want::Value, 0);
                    if let Some(x) = node_ref(&c.children, at) {
                        if c.kind == SyntaxKind::StructLitField && x.kind
                            == SyntaxKind::NameRef {
                            assert(c.children@.len() == c.children.len());
                            let next = find_node(&c.children, Want::Value, at + 1);
                            let fname = name(x);
                            if let Some(value) = self.expr_at(&c.children, next) {
                                let ghost before = inits_view(out@);
                                let f = FieldInit { name: fname, value, span: c.span };
                                let ghost fv = f@;
                                out.push(f);
                                proof {
                                    assert(inits_view(out@) =~= before.push(fv));
                                }
                            }
                        }
                    }
                },
                SyntaxElement::Token(_) => {},
            }
            i += 1;
        }
        out
    }

    fn struct_lit(&mut self, n: &SyntaxNode) -> (r: Option<Expr>)
        ensures
            ({
                let (ds, fs) = inits_in(n@.children, n@.children.len() as int, old(self)@);
                (final(self)@, opt_expr(r)) == (
                    ds,
                    Some(
                        ExprV::StructLit { name: struct_name(n@), fields: fs, span: n@.span },
                    ),
                )
            }),
        decreases n, 1int,
    {
        proof {
            lemma_children(*n);
        }
        let head = match first_node(&n.children, Want::NameOrPath) {
            Some(c) => if c.kind == SyntaxKind::PathExpr {
                path(c)
            } else {
                Path::single(name(c))
            },
            None => Path::single(Ident::new(missing(), n.span)),
        };
        let fs = self.inits(&n.children);
        let e = Expr::StructLit { name: head, fields: fs, span: n.span };
        proof {
            assert(e@->StructLit_fields =~= inits_view(fs@));
        }
        Some(e)
    }

    fn prefix_expr(&mut self, n: &SyntaxNode) -> (r: Option<Expr>)
        ensures
            (final(self)@, opt_expr(r)) == prefix_of(n@, old(self)@),
        decreases n, 1int,
    {
        proof {
            lemma_children(*n);
        }
        let t = find_solid(&n.children, 0);
        let kind = match token_ref(&n.children, t) {
            Some(tok) => tok.kind,
            None => return None,
        };
        if t >= n.children.len() {
            return None;
        }
        let i = find_node(&n.children, Want::Value, t + 1);
        if node_ref(&n.children, i).is_none() {
            return None;
        }
        let op = if kind == SyntaxKind::Minus {
            UnOp::Neg
        } else if kind == SyntaxKind::Not {
            UnOp::Not
        } else {
            return Some(Expr::Error { span: n.span });
        };
        match self.expr_at(&n.children, i) {
            Some(x) => Some(Expr::Unary { op, expr: Box::new(x), span: n.span }),
            None => None,
        }
    }

    fn field_expr(&mut self, n: &SyntaxNode) -> (r: Option<Expr>)
        ensures
            (final(self)@, opt_expr(r)) == field_expr_of(n@, old(self)@),
        decreases n, 1int,
    {
        proof {
            lemma_children(*n);
        }
        let (b, f) = match split_field_expr(n) {
            Some(x) => x,
            None => return None,
        };
        let base = match self.expr_at(&n.children, b) {
            Some(e) => e,
            None => return None,
        };
        match node_ref(&n.children, f) {
            Some(c) => Some(
                Expr::Field { base: Box::new(base), name: name(c), span: n.span },
            ),
            None => None,
        }
    }

    /// Lowers an expression node.
    pub fn expr(&mut self, n: &SyntaxNode) -> (r: Option<Expr>)
        ensures
            (final(self)@, opt_expr(r)) == expr_of(n@, old(self)@),
        decreases n, 2int,
    {
        proof {
            lemma_children(*n);
        }
        match n.kind {
            SyntaxKind::Literal => match solid_token(&n.children) {
                Some(t) => Some(Expr::Literal { value: self.literal(t), span: n.span }),
                None => None,
            },
            SyntaxKind::NameRef => Some(Expr::Var { name: name(n) }),
            SyntaxKind::PathExpr => Some(Expr::Path { path: path(n) }),
            SyntaxKind::CallExpr => self.call_expr(n),
            SyntaxKind::FieldExpr => self.field_expr(n),
            SyntaxKind::IndexExpr => self.index_expr(n),
            SyntaxKind::Range => {
                let (lo, hi) = self.range_bounds(&n.children);
                Some(Expr::Range { lo: to_box(lo), hi: to_box(hi), span: n.span })
            },
            SyntaxKind::ArrayExpr => {
                let es = self.exprs(&n.children);
                let e = Expr::ArrayLit { elems: es, span: n.span };
                proof {
                    assert(e@->ArrayLit_elems =~= exprs_view(es@));
                }
                Some(e)
            },
            SyntaxKind::ForExpr => self.for_expr(n),
            SyntaxKind::MatchExpr => self.match_expr(n),
            SyntaxKind::BinExpr => self.bin_expr(n),
            SyntaxKind::PrefixExpr => self.prefix_expr(n),
            SyntaxKind::IfExpr => self.if_expr(n),
            SyntaxKind::ParenExpr => {
                let i = find_node(&n.children, Want::Value, 0);
                self.expr_at(&n.children, i)
            },
            SyntaxKind::Block => Some(Expr::Block { block: self.block(n), span: n.span }),
            SyntaxKind::StructLit => self.struct_lit(n),
            SyntaxKind::Error => Some(Expr::Error { span: n.span }),
            _ => None,
        }
    }

    fn value(&mut self, n: &SyntaxNode) -> (r: Option<Expr>)
        ensures
            (final(self)@, opt_expr(r)) == value_of(n@, old(self)@),
        decreases n, 0int,
    {
        proof {
            lemma_children(*n);
        }
        let i = find_node(&n.children, Want::Value, 0);
        self.expr_at(&n.children, i)
    }

    fn let_stmt(&mut self, n: &SyntaxNode) -> (r: Option<Stmt>)
        ensures
            (final(self)@, opt_stmt(r)) == let_of(n@, old(self)@),
        decreases n, 1int,
    {
        proof {
            lemma_children(*n);
        }
        let bound = match first_node(&n.children, Want::Kind(SyntaxKind::Name)) {
            Some(c) => name(c),
            None => return None,
        };
        let init = if contains_token(&n.children, SyntaxKind::Eq) {
            self.value(n)
        } else {
            None
        };
        Some(
            Stmt::Let {
                name: bound,
                mutable: contains_token(&n.children, SyntaxKind::MutKw),
                ty: type_child(n),
                init,
                span: n.span,
            },
        )
    }

    fn chain(&mut self, n: &SyntaxNode) -> (r: Option<Vec<Ident>>)
        ensures
            ({
                let (ds, names) = chain_of(n@, old(self)@);
                &&& final(self)@ == ds
                &&& match r {
                    Some(v) => names == Some(idents(v@)) && v@.len() > 0,
                    None => names is None,
                }
            }),
        decreases n,
    {
        proof {
            lemma_children(*n);
        }
        let (b, f) = match split_field_expr(n) {
            Some(x) => x,
            None => return None,
        };
        let last = match node_ref(&n.children, f) {
            Some(c) => name(c),
            None => return None,
        };
        let ghost lv = last@;
        match &n.children[b] {
            SyntaxElement::Node(base) => if base.kind == SyntaxKind::FieldExpr {
                match self.chain(base) {
                    Some(v) => {
                        let mut out = v;
                        let ghost before = idents(out@);
                        out.push(last);
                        proof {
                            assert(idents(out@) =~= before.push(lv));
                        }
                        Some(out)
                    },
                    None => None,
                }
            } else if base.kind == SyntaxKind::NameRef {
                let mut out: Vec<Ident> = Vec::new();
                let x = name(base);
                let ghost xv = x@;
                out.push(x);
                out.push(last);
                proof {
                    assert(idents(out@) =~= seq![xv, lv]);
                }
                Some(out)
            } else {
                self.error("invalid assignment target".to_owned(), n.span);
                None
            },
            SyntaxElement::Token(_) => None,
        }
    }

    fn expr_to_place(&mut self, n: &SyntaxNode) -> (r: Option<Place>)
        ensures
            ({
                let (ds, p) = place_of(n@, old(self)@);
                &&& final(self)@ == ds
                &&& match r {
                    Some(x) => p == Some(x@),
                    None => p is None,
                }
            }),
    {
        if n.kind == SyntaxKind::NameRef {
            let p = Place { base: name(n), fields: Vec::new() };
            proof {
                assert(p@.fields =~= Seq::empty());
            }
            Some(p)
        } else if n.kind == SyntaxKind::FieldExpr {
            match self.chain(n) {
                Some(v) => {
                    let mut rest = v;
                    let ghost all = idents(rest@);
                    let base = rest.remove(0);
                    let p = Place { base, fields: rest };
                    proof {
                        assert(p@.fields =~= all.skip(1));
                        assert(p@.base == all[0]);
                    }
                    Some(p)
                },
                None => None,
            }
        } else {
            self.error("invalid assignment target".to_owned(), n.span);
            None
        }
    }

    fn assign_stmt(&mut self, n: &SyntaxNode) -> (r: Option<Stmt>)
        ensures
            (final(self)@, opt_stmt(r)) == assign_of(n@, old(self)@),
        decreases n, 1int,
    {
        proof {
            lemma_children(*n);
        }
        let i = find_node(&n.children, Want::Value, 0);
        match node_ref(&n.children, i) {
            None => None,
            Some(target) => {
                assert(n.children@.len() == n.children.len());
                let j = find_node(&n.children, Want::Value, i + 1);
                let value = self.expr_at(&n.children, j);
                let place = self.expr_to_place(target);
                match (place, value) {
                    (Some(target), Some(value)) => Some(
                        Stmt::Assign { target, value, span: n.span },
                    ),
                    _ => None,
                }
            },
        }
    }

    fn stmts(&mut self, es: &Vec<SyntaxElement>) -> (r: (Vec<Stmt>, Option<Expr>))
        ensures
            (final(self)@, (stmts_view(r.0@), opt_expr(r.1))) == stmts_in(
                elems(es@),
                es@.len() as int,
                old(self)@,
            ),
        decreases es@, 1int,
    {
        let ghost ds0 = self@;
        let mut out: Vec<Stmt> = Vec::new();
        let mut tail: Option<Expr> = None;
        let mut i: usize = 0;
        proof {
            assert(stmts_view(out@) =~= Seq::empty());
        }
        while i < es.len()
            invariant
                i <= es@.len(),
                (self@, (stmts_view(out@), opt_expr(tail))) == stmts_in(
                    elems(es@),
                    i as int,
                    ds0,
                ),
            decreases es@.len() - i,
        {
            match &es[i] {
                SyntaxElement::Token(_) => {},
                SyntaxElement::Node(c) => match c.kind {
                    SyntaxKind::LetStmt => {
                        let s = self.let_stmt(c);
                        push_stmt(&mut out, s);
                    },
                    SyntaxKind::AssignStmt => {
                        let s = self.assign_stmt(c);
                        push_stmt(&mut out, s);
                    },
                    SyntaxKind::ReturnStmt => {
                        let value = self.value(c);
                        push_stmt(&mut out, Some(Stmt::Return { value, span: c.span }));
                    },
                    SyntaxKind::ExprStmt => {
                        proof {
                            lemma_children(*c);
                        }
                        let has_semi = contains_token(&c.children, SyntaxKind::Semicolon);
                        if let Some(expr) = self.value(c) {
                            let next = find_node(es, Want::Any, i + 1);
                            if !has_semi && next >= es.len() {
                                tail = Some(expr);
                            } else {
                                push_stmt(
                                    &mut out,
                                    Some(Stmt::Expr { expr, has_semi, span: c.span }),
                                );
                            }
                        }
                    },
                    _ => {},
                },
            }
            i += 1;
        }
        (out, tail)
    }

    /// Lowers a block node.
    pub fn block(&mut self, n: &SyntaxNode) -> (r: Block)
        ensures
            (final(self)@, r@) == block_of(n@, old(self)@),
        decreases n, 1int,
    {
        proof {
            lemma_children(*n);
        }
        let (stmts, tail) = self.stmts(&n.children);
        let b = Block { stmts, tail: to_box(tail), span: n.span };
        proof {
            assert(b@.stmts =~= stmts_view(stmts@));
        }
        b
    }
}

fn push_stmt(out: &mut Vec<Stmt>, s: Option<Stmt>)
    ensures
        stmts_view(final(out)@) == with_stmt(stmts_view(old(out)@), opt_stmt(s)),
{
    if let Some(x) = s {
        let ghost before = stmts_view(out@);
        let ghost xv = x@;
        out.push(x);
        proof {
            assert(stmts_view(out@) =~= before.push(xv));
        }
    }
}

/// Where the parts of an `if` stand.
struct IfParts {
    cond: Option<usize>,
    then_: Option<usize>,
    other: Option<usize>,
    else_if: Option<usize>,
}

spec fn opt_int(x: Option<usize>) -> Option<int> {
    match x {
        Some(i) => Some(i as int),
        None => None,
    }
}

impl IfParts {
    spec fn view(&self) -> IfPartsV {
        IfPartsV {
            cond: opt_int(self.cond),
            then_: opt_int(self.then_),
            other: opt_int(self.other),
            else_if: opt_int(self.else_if),
        }
    }
}

fn if_parts(es: &Vec<SyntaxElement>) -> (r: IfParts)
    ensures
        r@ == if_in(elems(es@), es@.len() as int),
{
    let mut p = IfParts { cond: None, then_: None, other: None, else_if: None };
    let mut i: usize = 0;
    while i < es.len()
        invariant
            i <= es@.len(),
            p@ == if_in(elems(es@), i as int),
        decreases es@.len() - i,
    {
        if let Some(c) = node_ref(es, i) {
            if c.kind == SyntaxKind::Block {
                if p.cond.is_none() {
                    p.cond = Some(i);
                } else if p.then_.is_none() {
                    p.then_ = Some(i);
                } else if p.other.is_none() {
                    p.other = Some(i);
                }
            } else if c.kind == SyntaxKind::IfExpr && p.then_.is_some() {
                p.else_if = Some(i);
            } else if c.kind.is_value_node() && p.cond.is_none() {
                p.cond = Some(i);
            }
        }
        i += 1;
    }
    p
}

fn split_field_expr(n: &SyntaxNode) -> (r: Option<(usize, usize)>)
    ensures
        match r {
            Some((b, f)) => {
                &&& field_parts(n@) == Some((b as int, f as int))
                &&& b < n.children@.len()
                &&& f < n.children@.len()
                &&& node_at(n@.children, b as int) is Some
                &&& node_at(n@.children, f as int) is Some
            },
            None => field_parts(n@) is None,
        },
{
    proof {
        lemma_children(*n);
    }
    let len: usize = n.children.len();
    let b = find_node(&n.children, Want::Any, 0);
    if b >= len {
        return None;
    }
    let f = find_node(&n.children, Want::Kind(SyntaxKind::NameRef), b + 1);
    if f >= len {
        return None;
    }
    Some((b, f))
}

proof fn lemma_bin_stopped(es: Seq<ElemV>, k: int, ds: Seq<DiagnosticV>)
    requires
        0 <= k <= es.len(),
        bin_in(es, k, ds).1.stopped,
    ensures
        bin_in(es, es.len() as int, ds) == bin_in(es, k, ds),
    decreases es.len() - k,
{
    if k < es.len() {
        lemma_bin_stopped(es, k + 1, ds);
    }
}

} // verus!
