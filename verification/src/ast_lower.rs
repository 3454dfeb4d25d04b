//! Lowering from the lossless syntax tree to the canonical
//! [`AstModule`].
//!
//! The parser has already emitted diagnostics for malformed regions;
//! lowering's job is structural interpretation. It skips error nodes
//! (their diagnostics exist) and reports only structural problems the
//! parser could not know — e.g. an expression that is not a valid
//! assignment target.

use crate::ast::{
    BinOp, DataDecl, DataDeclV, Field, FieldV, Ident, IdentV, LiteralV, Param, ParamV, Path, PathV,
    Pattern, PatternV, TypeExpr, TypeExprV, UseDecl, UseDeclV, Variant, VariantV,
};
use crate::ast::{fields, idents, opt_type, params, type_exprs, variants};
use crate::code::Code;
use crate::diagnostic::{error_of, DiagnosticV};
use crate::lexeme::{cleaned, float_text, int_value, unescaped, unquoted};
use crate::source::Span;
use crate::syntax::{
    contains_token, elems, find, find_node, first, first_node, first_token, has_token,
    lemma_children, node_at, node_ref, solid_token, wants, ElemV, NodeV, SyntaxElement, SyntaxKind,
    SyntaxNode, TokenV, Want,
};
use vstd::prelude::*;

verus! {

// ---------- names, paths and types ----------

/// A name node's identifier: its first token that is no trivia. Keyword
/// tokens are accepted (a diagnostic already exists).
pub open spec fn name_of(n: NodeV) -> IdentV {
    match first_token(n.children) {
        Some(t) => IdentV { name: t.text, span: t.span },
        None => IdentV { name: "<missing>"@, span: n.span },
    }
}

/// The identifier of a node's first name child.
pub open spec fn first_name(n: NodeV) -> IdentV {
    match first(n.children, Want::AnyName) {
        Some(c) => name_of(c),
        None => IdentV { name: "<missing>"@, span: n.span },
    }
}

/// The identifiers of the wanted nodes among the first `k` elements.
pub open spec fn names_in(es: Seq<ElemV>, w: Want, k: int) -> Seq<IdentV>
    decreases k,
{
    if k <= 0 {
        Seq::empty()
    } else {
        let front = names_in(es, w, k - 1);
        match node_at(es, k - 1) {
            Some(c) => if wants(w, c.kind) {
                front.push(name_of(c))
            } else {
                front
            },
            None => front,
        }
    }
}

/// The path of a list of segments; its span reaches from the first to
/// the last.
pub open spec fn path_from(segs: Seq<IdentV>, otherwise: Span) -> PathV {
    PathV {
        segs,
        span: if segs.len() > 0 {
            Span { start: segs[0].span.start, end: segs.last().span.end }
        } else {
            otherwise
        },
    }
}

/// A node's path: one name child per segment.
pub open spec fn path_of(n: NodeV) -> PathV {
    path_from(names_in(n.children, Want::AnyName, n.children.len() as int), n.span)
}

/// A type node: a named path or an array type whose element is itself a
/// type node.
pub open spec fn type_of(n: NodeV) -> TypeExprV
    decreases n, 1int,
{
    match type_in(n.children, find(n.children, Want::Kind(SyntaxKind::TypeRef), 0)) {
        Some(elem) => TypeExprV::Array { elem: Box::new(elem), span: n.span },
        None => TypeExprV::Named { path: path_of(n) },
    }
}

/// The type at a position.
pub open spec fn type_in(es: Seq<ElemV>, i: int) -> Option<TypeExprV>
    decreases es, 0int,
{
    if 0 <= i < es.len() {
        match es[i] {
            ElemV::Node(c) => Some(type_of(c)),
            ElemV::Token(_) => None,
        }
    } else {
        None
    }
}

/// A node's first type child.
pub open spec fn type_ref(n: NodeV) -> Option<TypeExprV> {
    type_in(n.children, find(n.children, Want::Kind(SyntaxKind::TypeRef), 0))
}

/// The types among the first `k` elements.
pub open spec fn types_in(es: Seq<ElemV>, k: int) -> Seq<TypeExprV>
    decreases k,
{
    if k <= 0 {
        Seq::empty()
    } else {
        let front = types_in(es, k - 1);
        match node_at(es, k - 1) {
            Some(c) => if c.kind == SyntaxKind::TypeRef {
                front.push(type_of(c))
            } else {
                front
            },
            None => front,
        }
    }
}

pub(crate) fn missing() -> (r: String)
    ensures
        r@ == "<missing>"@,
{
    "<missing>".to_owned()
}

pub(crate) fn name(n: &SyntaxNode) -> (r: Ident)
    ensures
        r@ == name_of(n@),
{
    proof {
        lemma_children(*n);
    }
    match solid_token(&n.children) {
        Some(t) => Ident::new(t.text.clone(), t.span),
        None => Ident::new(missing(), n.span),
    }
}

pub(crate) fn name_child(n: &SyntaxNode) -> (r: Ident)
    ensures
        r@ == first_name(n@),
{
    proof {
        lemma_children(*n);
    }
    match first_node(&n.children, Want::AnyName) {
        Some(c) => name(c),
        None => Ident::new(missing(), n.span),
    }
}

pub(crate) fn names(es: &Vec<SyntaxElement>, w: Want) -> (r: Vec<Ident>)
    ensures
        idents(r@) == names_in(elems(es@), w, es@.len() as int),
{
    let mut out: Vec<Ident> = Vec::new();
    let mut i: usize = 0;
    proof {
        assert(idents(out@) =~= Seq::empty());
    }
    while i < es.len()
        invariant
            i <= es@.len(),
            idents(out@) == names_in(elems(es@), w, i as int),
        decreases es@.len() - i,
    {
        if let Some(c) = node_ref(es, i) {
            if w.takes(c.kind) {
                let ghost before = idents(out@);
                let x = name(c);
                let ghost xv = x@;
                out.push(x);
                proof {
                    assert(idents(out@) =~= before.push(xv));
                }
            }
        }
        i += 1;
    }
    out
}

pub(crate) fn path_with(segs: Vec<Ident>, otherwise: Span) -> (r: Path)
    ensures
        r@ == path_from(idents(segs@), otherwise),
{
    let n: usize = segs.len();
    let span = if n > 0 {
        Span::new(segs[0].span.start, segs[n - 1].span.end)
    } else {
        otherwise
    };
    Path { segs, span }
}

pub(crate) fn path(n: &SyntaxNode) -> (r: Path)
    ensures
        r@ == path_of(n@),
{
    proof {
        lemma_children(*n);
    }
    path_with(names(&n.children, Want::AnyName), n.span)
}

pub(crate) fn type_expr(n: &SyntaxNode) -> (r: TypeExpr)
    ensures
        r@ == type_of(n@),
    decreases n, 1int,
{
    proof {
        lemma_children(*n);
    }
    let i = find_node(&n.children, Want::Kind(SyntaxKind::TypeRef), 0);
    match type_at(&n.children, i) {
        Some(elem) => TypeExpr::Array { elem: Box::new(elem), span: n.span },
        None => TypeExpr::Named { path: path(n) },
    }
}

pub(crate) fn type_at(es: &Vec<SyntaxElement>, i: usize) -> (r: Option<TypeExpr>)
    ensures
        opt_type(r) == type_in(elems(es@), i as int),
    decreases es@, 0int,
{
    if i < es.len() {
        match &es[i] {
            SyntaxElement::Node(c) => Some(type_expr(c)),
            SyntaxElement::Token(_) => None,
        }
    } else {
        None
    }
}

pub(crate) fn type_child(n: &SyntaxNode) -> (r: Option<TypeExpr>)
    ensures
        opt_type(r) == type_ref(n@),
{
    proof {
        lemma_children(*n);
    }
    let i = find_node(&n.children, Want::Kind(SyntaxKind::TypeRef), 0);
    type_at(&n.children, i)
}

pub(crate) fn types(es: &Vec<SyntaxElement>) -> (r: Vec<TypeExpr>)
    ensures
        type_exprs(r@) == types_in(elems(es@), es@.len() as int),
{
    let mut out: Vec<TypeExpr> = Vec::new();
    let mut i: usize = 0;
    proof {
        assert(type_exprs(out@) =~= Seq::empty());
    }
    while i < es.len()
        invariant
            i <= es@.len(),
            type_exprs(out@) == types_in(elems(es@), i as int),
        decreases es@.len() - i,
    {
        if let Some(c) = node_ref(es, i) {
            if c.kind == SyntaxKind::TypeRef {
                let ghost before = type_exprs(out@);
                let x = type_expr(c);
                let ghost xv = x@;
                out.push(x);
                proof {
                    assert(type_exprs(out@) =~= before.push(xv));
                }
            }
        }
        i += 1;
    }
    out
}

// ---------- declarations ----------

/// A declaration's span starting at its first token that is no trivia,
/// not at the node's leading trivia: a comment inserted before an item
/// must not move the item's coordinate base.
pub open spec fn decl_span_of(n: NodeV) -> Span {
    Span {
        start: match first_token(n.children) {
            Some(t) => t.span.start,
            None => n.span.start,
        },
        end: n.span.end,
    }
}

pub(crate) fn decl_span(n: &SyntaxNode) -> (r: Span)
    ensures
        r == decl_span_of(n@),
{
    proof {
        lemma_children(*n);
    }
    let start = match solid_token(&n.children) {
        Some(t) => t.span.start,
        None => n.span.start,
    };
    Span::new(start, n.span.end)
}

/// A `use` declaration: name references are the path segments; a name
/// is the `as` alias.
pub open spec fn use_decl_of(n: NodeV) -> UseDeclV {
    UseDeclV {
        path: path_from(
            names_in(n.children, Want::Kind(SyntaxKind::NameRef), n.children.len() as int),
            decl_span_of(n),
        ),
        alias: match first(n.children, Want::Kind(SyntaxKind::Name)) {
            Some(c) => Some(name_of(c)),
            None => None,
        },
        span: decl_span_of(n),
    }
}

pub(crate) fn use_decl(n: &SyntaxNode) -> (r: UseDecl)
    ensures
        r@ == use_decl_of(n@),
{
    proof {
        lemma_children(*n);
    }
    let span = decl_span(n);
    let segs = names(&n.children, Want::Kind(SyntaxKind::NameRef));
    let alias = match first_node(&n.children, Want::Kind(SyntaxKind::Name)) {
        Some(c) => Some(name(c)),
        None => None,
    };
    UseDecl { path: path_with(segs, span), alias, span }
}

/// A field, when it has a type.
pub open spec fn field_of(n: NodeV) -> Option<FieldV> {
    match type_ref(n) {
        Some(ty) => Some(FieldV { name: first_name(n), ty, span: n.span }),
        None => None,
    }
}

/// A variant: its name, then its payload types.
pub open spec fn variant_of(n: NodeV) -> VariantV {
    VariantV {
        name: first_name(n),
        payload: types_in(n.children, n.children.len() as int),
        span: n.span,
    }
}

/// A parameter, when it has a type.
pub open spec fn param_of(n: NodeV) -> Option<ParamV> {
    match type_ref(n) {
        Some(ty) => Some(
            ParamV {
                name: first_name(n),
                mutable: has_token(n.children, SyntaxKind::MutKw),
                ty,
                span: n.span,
            },
        ),
        None => None,
    }
}

/// The fields among the first `k` elements.
pub open spec fn fields_in(es: Seq<ElemV>, k: int) -> Seq<FieldV>
    decreases k,
{
    if k <= 0 {
        Seq::empty()
    } else {
        let front = fields_in(es, k - 1);
        match node_at(es, k - 1) {
            Some(c) => match field_of(c) {
                Some(f) => if c.kind == SyntaxKind::Field {
                    front.push(f)
                } else {
                    front
                },
                None => front,
            },
            None => front,
        }
    }
}

/// The variants among the first `k` elements.
pub open spec fn variants_in(es: Seq<ElemV>, k: int) -> Seq<VariantV>
    decreases k,
{
    if k <= 0 {
        Seq::empty()
    } else {
        let front = variants_in(es, k - 1);
        match node_at(es, k - 1) {
            Some(c) => if c.kind == SyntaxKind::Variant {
                front.push(variant_of(c))
            } else {
                front
            },
            None => front,
        }
    }
}

/// The parameters among the first `k` elements.
pub open spec fn params_in(es: Seq<ElemV>, k: int) -> Seq<ParamV>
    decreases k,
{
    if k <= 0 {
        Seq::empty()
    } else {
        let front = params_in(es, k - 1);
        match node_at(es, k - 1) {
            Some(c) => match param_of(c) {
                Some(p) => if c.kind == SyntaxKind::Param {
                    front.push(p)
                } else {
                    front
                },
                None => front,
            },
            None => front,
        }
    }
}

/// A `data` declaration.
pub open spec fn data_decl_of(n: NodeV) -> DataDeclV {
    DataDeclV {
        name: first_name(n),
        fields: fields_in(n.children, n.children.len() as int),
        variants: variants_in(n.children, n.children.len() as int),
        span: decl_span_of(n),
    }
}

fn field(n: &SyntaxNode) -> (r: Option<Field>)
    ensures
        match r {
            Some(f) => field_of(n@) == Some(f@),
            None => field_of(n@) is None,
        },
{
    match type_child(n) {
        Some(ty) => Some(Field { name: name_child(n), ty, span: n.span }),
        None => None,
    }
}

fn variant(n: &SyntaxNode) -> (r: Variant)
    ensures
        r@ == variant_of(n@),
{
    proof {
        lemma_children(*n);
    }
    Variant { name: name_child(n), payload: types(&n.children), span: n.span }
}

fn param(n: &SyntaxNode) -> (r: Option<Param>)
    ensures
        match r {
            Some(p) => param_of(n@) == Some(p@),
            None => param_of(n@) is None,
        },
{
    proof {
        lemma_children(*n);
    }
    match type_child(n) {
        Some(ty) => Some(
            Param {
                name: name_child(n),
                mutable: contains_token(&n.children, SyntaxKind::MutKw),
                ty,
                span: n.span,
            },
        ),
        None => None,
    }
}

fn data_fields(es: &Vec<SyntaxElement>) -> (r: Vec<Field>)
    ensures
        fields(r@) == fields_in(elems(es@), es@.len() as int),
{
    let mut out: Vec<Field> = Vec::new();
    let mut i: usize = 0;
    proof {
        assert(fields(out@) =~= Seq::empty());
    }
    while i < es.len()
        invariant
            i <= es@.len(),
            fields(out@) == fields_in(elems(es@), i as int),
        decreases es@.len() - i,
    {
        if let Some(c) = node_ref(es, i) {
            if c.kind == SyntaxKind::Field {
                if let Some(x) = field(c) {
                    let ghost before = fields(out@);
                    let ghost xv = x@;
                    out.push(x);
                    proof {
                        assert(fields(out@) =~= before.push(xv));
                    }
                }
            }
        }
        i += 1;
    }
    out
}

fn data_variants(es: &Vec<SyntaxElement>) -> (r: Vec<Variant>)
    ensures
        variants(r@) == variants_in(elems(es@), es@.len() as int),
{
    let mut out: Vec<Variant> = Vec::new();
    let mut i: usize = 0;
    proof {
        assert(variants(out@) =~= Seq::empty());
    }
    while i < es.len()
        invariant
            i <= es@.len(),
            variants(out@) == variants_in(elems(es@), i as int),
        decreases es@.len() - i,
    {
        if let Some(c) = node_ref(es, i) {
            if c.kind == SyntaxKind::Variant {
                let ghost before = variants(out@);
                let x = variant(c);
                let ghost xv = x@;
                out.push(x);
                proof {
                    assert(variants(out@) =~= before.push(xv));
                }
            }
        }
        i += 1;
    }
    out
}

pub(crate) fn fn_params(es: &Vec<SyntaxElement>) -> (r: Vec<Param>)
    ensures
        params(r@) == params_in(elems(es@), es@.len() as int),
{
    let mut out: Vec<Param> = Vec::new();
    let mut i: usize = 0;
    proof {
        assert(params(out@) =~= Seq::empty());
    }
    while i < es.len()
        invariant
            i <= es@.len(),
            params(out@) == params_in(elems(es@), i as int),
        decreases es@.len() - i,
    {
        if let Some(c) = node_ref(es, i) {
            if c.kind == SyntaxKind::Param {
                if let Some(x) = param(c) {
                    let ghost before = params(out@);
                    let ghost xv = x@;
                    out.push(x);
                    proof {
                        assert(params(out@) =~= before.push(xv));
                    }
                }
            }
        }
        i += 1;
    }
    out
}

pub(crate) fn data_decl(n: &SyntaxNode) -> (r: DataDecl)
    ensures
        r@ == data_decl_of(n@),
{
    proof {
        lemma_children(*n);
    }
    DataDecl {
        name: name_child(n),
        fields: data_fields(&n.children),
        variants: data_variants(&n.children),
        span: decl_span(n),
    }
}

// ---------- patterns, operators and literals ----------

/// A pattern: a binding, or a variant path with its payload bindings.
pub open spec fn pattern_of(n: NodeV) -> PatternV {
    if n.kind == SyntaxKind::PatBind {
        PatternV::Bind { name: first_name(n) }
    } else {
        PatternV::Variant {
            path: path_of(n),
            binds: binds_in(n.children, n.children.len() as int),
            span: n.span,
        }
    }
}

/// The bindings among the first `k` elements.
pub open spec fn binds_in(es: Seq<ElemV>, k: int) -> Seq<IdentV>
    decreases k,
{
    if k <= 0 {
        Seq::empty()
    } else {
        let front = binds_in(es, k - 1);
        match node_at(es, k - 1) {
            Some(c) => if c.kind == SyntaxKind::PatBind {
                front.push(first_name(c))
            } else {
                front
            },
            None => front,
        }
    }
}

fn binds(es: &Vec<SyntaxElement>) -> (r: Vec<Ident>)
    ensures
        idents(r@) == binds_in(elems(es@), es@.len() as int),
{
    let mut out: Vec<Ident> = Vec::new();
    let mut i: usize = 0;
    proof {
        assert(idents(out@) =~= Seq::empty());
    }
    while i < es.len()
        invariant
            i <= es@.len(),
            idents(out@) == binds_in(elems(es@), i as int),
        decreases es@.len() - i,
    {
        if let Some(c) = node_ref(es, i) {
            if c.kind == SyntaxKind::PatBind {
                let ghost before = idents(out@);
                let x = name_child(c);
                let ghost xv = x@;
                out.push(x);
                proof {
                    assert(idents(out@) =~= before.push(xv));
                }
            }
        }
        i += 1;
    }
    out
}

pub(crate) fn pattern(n: &SyntaxNode) -> (r: Pattern)
    ensures
        r@ == pattern_of(n@),
{
    proof {
        lemma_children(*n);
    }
    if n.kind == SyntaxKind::PatBind {
        Pattern::Bind { name: name_child(n) }
    } else {
        Pattern::Variant { path: path(n), binds: binds(&n.children), span: n.span }
    }
}

/// The binary operator a token writes.
pub open spec fn binop_of(k: SyntaxKind) -> Option<BinOp> {
    match k {
        SyntaxKind::Plus => Some(BinOp::Add),
        SyntaxKind::Minus => Some(BinOp::Sub),
        SyntaxKind::Star => Some(BinOp::Mul),
        SyntaxKind::Slash => Some(BinOp::Div),
        SyntaxKind::Percent => Some(BinOp::Rem),
        SyntaxKind::Eq2 => Some(BinOp::Eq),
        SyntaxKind::Neq => Some(BinOp::Ne),
        SyntaxKind::Lt => Some(BinOp::Lt),
        SyntaxKind::Le => Some(BinOp::Le),
        SyntaxKind::Gt => Some(BinOp::Gt),
        SyntaxKind::Ge => Some(BinOp::Ge),
        SyntaxKind::And2 => Some(BinOp::And),
        SyntaxKind::Or2 => Some(BinOp::Or),
        _ => None,
    }
}

pub(crate) fn token_to_binop(k: SyntaxKind) -> (r: Option<BinOp>)
    ensures
        r == binop_of(k),
{
    match k {
        SyntaxKind::Plus => Some(BinOp::Add),
        SyntaxKind::Minus => Some(BinOp::Sub),
        SyntaxKind::Star => Some(BinOp::Mul),
        SyntaxKind::Slash => Some(BinOp::Div),
        SyntaxKind::Percent => Some(BinOp::Rem),
        SyntaxKind::Eq2 => Some(BinOp::Eq),
        SyntaxKind::Neq => Some(BinOp::Ne),
        SyntaxKind::Lt => Some(BinOp::Lt),
        SyntaxKind::Le => Some(BinOp::Le),
        SyntaxKind::Gt => Some(BinOp::Gt),
        SyntaxKind::Ge => Some(BinOp::Ge),
        SyntaxKind::And2 => Some(BinOp::And),
        SyntaxKind::Or2 => Some(BinOp::Or),
        _ => None,
    }
}

/// A structural error at a place.
pub open spec fn structural(message: Seq<char>, span: Span) -> DiagnosticV {
    error_of(Code::Parse, message).with_primary(span)
}

/// The value of a literal token, and the errors found so far.
pub open spec fn literal_of(t: TokenV, ds: Seq<DiagnosticV>) -> (Seq<DiagnosticV>, LiteralV) {
    match t.kind {
        SyntaxKind::TrueKw => (ds, LiteralV::Bool(true)),
        SyntaxKind::FalseKw => (ds, LiteralV::Bool(false)),
        SyntaxKind::IntNumber => match int_value(cleaned(t.text)) {
            Some(v) => (ds, LiteralV::Int(v)),
            None => (
                ds.push(structural("integer literal `"@ + t.text + "` is too large"@, t.span)),
                LiteralV::Int(0),
            ),
        },
        SyntaxKind::FloatNumber => if float_text(cleaned(t.text)) {
            (ds, LiteralV::Float(cleaned(t.text)))
        } else {
            (
                ds.push(structural("invalid float literal `"@ + t.text + "`"@, t.span)),
                LiteralV::Float("0.0"@),
            )
        },
        SyntaxKind::Str => (ds, LiteralV::Str(unescaped(unquoted(t.text)))),
        _ => (ds, LiteralV::Int(0)),
    }
}

} // verus!
