//! The lossless syntax tree, as plain values.
//!
//! A node is a kind, its child elements in source order (nodes and
//! tokens, trivia included), and the byte range it covers.

use crate::source::Span;
use vstd::prelude::*;

verus! {

/// What a node or a token is.
#[derive(Clone, Copy, Debug, PartialEq, Eq, Structural)]
pub enum SyntaxKind {
    // Trivia.
    Whitespace,
    Comment,
    // Tokens.
    Ident,
    IntNumber,
    FloatNumber,
    Str,
    TrueKw,
    FalseKw,
    MutKw,
    Keyword,
    Plus,
    Minus,
    Star,
    Slash,
    Percent,
    Not,
    Eq,
    Eq2,
    Neq,
    Lt,
    Le,
    Gt,
    Ge,
    And2,
    Or2,
    Dot2,
    Semicolon,
    Punct,
    // Declarations.
    SourceFile,
    UseDecl,
    DataDecl,
    FnDecl,
    Field,
    Variant,
    ParamList,
    Param,
    RetType,
    TypeRef,
    Name,
    NameRef,
    // Statements.
    LetStmt,
    AssignStmt,
    ReturnStmt,
    ExprStmt,
    // Expressions.
    Literal,
    PathExpr,
    CallExpr,
    ArgList,
    FieldExpr,
    IndexExpr,
    Range,
    ArrayExpr,
    ForExpr,
    MatchExpr,
    MatchArmList,
    MatchArm,
    PatBind,
    PatVariant,
    BinExpr,
    PrefixExpr,
    IfExpr,
    ParenExpr,
    Block,
    StructLit,
    StructLitField,
    Error,
}

/// Whether a kind is white space or a comment.
pub open spec fn is_trivia(k: SyntaxKind) -> bool {
    k == SyntaxKind::Whitespace || k == SyntaxKind::Comment
}

/// Whether a kind is an expression node's.
pub open spec fn is_expr_kind(k: SyntaxKind) -> bool {
    ||| k == SyntaxKind::Literal
    ||| k == SyntaxKind::CallExpr
    ||| k == SyntaxKind::FieldExpr
    ||| k == SyntaxKind::IndexExpr
    ||| k == SyntaxKind::PathExpr
    ||| k == SyntaxKind::BinExpr
    ||| k == SyntaxKind::PrefixExpr
    ||| k == SyntaxKind::IfExpr
    ||| k == SyntaxKind::ForExpr
    ||| k == SyntaxKind::MatchExpr
    ||| k == SyntaxKind::ParenExpr
    ||| k == SyntaxKind::Block
    ||| k == SyntaxKind::StructLit
    ||| k == SyntaxKind::ArrayExpr
    ||| k == SyntaxKind::Range
}

/// Whether a node kind can hold a value expression. A name reference is
/// an expression in value position.
pub open spec fn is_value_kind(k: SyntaxKind) -> bool {
    is_expr_kind(k) || k == SyntaxKind::NameRef
}

impl SyntaxKind {
    /// Whether the kind is white space or a comment.
    pub fn is_trivia(self) -> (r: bool)
        ensures
            r == is_trivia(self),
    {
        self == SyntaxKind::Whitespace || self == SyntaxKind::Comment
    }

    /// Whether a node of this kind can hold a value expression.
    pub fn is_value_node(self) -> (r: bool)
        ensures
            r == is_value_kind(self),
    {
        match self {
            SyntaxKind::Literal
            | SyntaxKind::CallExpr
            | SyntaxKind::FieldExpr
            | SyntaxKind::IndexExpr
            | SyntaxKind::PathExpr
            | SyntaxKind::BinExpr
            | SyntaxKind::PrefixExpr
            | SyntaxKind::IfExpr
            | SyntaxKind::ForExpr
            | SyntaxKind::MatchExpr
            | SyntaxKind::ParenExpr
            | SyntaxKind::Block
            | SyntaxKind::StructLit
            | SyntaxKind::ArrayExpr
            | SyntaxKind::Range
            | SyntaxKind::NameRef => true,
            _ => false,
        }
    }
}

/// A token with its text.
#[derive(Debug)]
pub struct SyntaxToken {
    /// What the token is.
    pub kind: SyntaxKind,
    /// The text as written.
    pub text: String,
    /// The bytes it covers.
    pub span: Span,
}

/// Model of [`SyntaxToken`].
#[verifier::ext_equal]
pub struct TokenV {
    pub kind: SyntaxKind,
    pub text: Seq<char>,
    pub span: Span,
}

impl SyntaxToken {
    /// The model of this token.
    pub open spec fn view(&self) -> TokenV {
        TokenV { kind: self.kind, text: self.text@, span: self.span }
    }
}

/// A node with its children.
#[derive(Debug)]
pub struct SyntaxNode {
    /// What the node is.
    pub kind: SyntaxKind,
    /// Child nodes and tokens in source order.
    pub children: Vec<SyntaxElement>,
    /// The bytes it covers.
    pub span: Span,
}

/// Model of [`SyntaxNode`].
#[verifier::ext_equal]
pub struct NodeV {
    pub kind: SyntaxKind,
    pub children: Seq<ElemV>,
    pub span: Span,
}

/// One child of a node.
#[derive(Debug)]
pub enum SyntaxElement {
    /// A child node.
    Node(SyntaxNode),
    /// A child token.
    Token(SyntaxToken),
}

/// Model of [`SyntaxElement`].
#[verifier::ext_equal]
pub enum ElemV {
    Node(NodeV),
    Token(TokenV),
}

impl SyntaxNode {
    /// The model of this node.
    pub open spec fn view(&self) -> NodeV
        decreases self,
    {
        NodeV {
            kind: self.kind,
            children: Seq::new(
                self.children@.len(),
                |i: int|
                    if 0 <= i < self.children@.len() {
                        self.children@[i].view()
                    } else {
                        arbitrary()
                    },
            ),
            span: self.span,
        }
    }
}

impl SyntaxElement {
    /// The model of this element.
    pub open spec fn view(&self) -> ElemV
        decreases self,
    {
        match self {
            SyntaxElement::Node(n) => ElemV::Node(n.view()),
            SyntaxElement::Token(t) => ElemV::Token(t@),
        }
    }
}

/// The models of a sequence of elements.
pub open spec fn elems(v: Seq<SyntaxElement>) -> Seq<ElemV> {
    Seq::new(v.len(), |i: int| v[i]@)
}

/// A node's children, as a sequence of models.
pub proof fn lemma_children(n: SyntaxNode)
    ensures
        n@.children == elems(n.children@),
{
    assert(n@.children =~= elems(n.children@));
}

/// Which child nodes a search is after.
#[derive(Clone, Copy, Debug, PartialEq, Eq, Structural)]
pub enum Want {
    /// Nodes of one kind.
    Kind(SyntaxKind),
    /// Declared or referenced names.
    AnyName,
    /// Names and paths.
    NameOrPath,
    /// Value expressions.
    Value,
    /// Everything but an argument list.
    NotArgs,
    /// Every node.
    Any,
}

/// Whether a search is after nodes of a kind.
pub open spec fn wants(w: Want, k: SyntaxKind) -> bool {
    match w {
        Want::Kind(x) => k == x,
        Want::AnyName => k == SyntaxKind::Name || k == SyntaxKind::NameRef,
        Want::NameOrPath => k == SyntaxKind::NameRef || k == SyntaxKind::PathExpr,
        Want::Value => is_value_kind(k),
        Want::NotArgs => k != SyntaxKind::ArgList,
        Want::Any => true,
    }
}

impl Want {
    /// Whether the search is after nodes of a kind.
    pub fn takes(self, k: SyntaxKind) -> (r: bool)
        ensures
            r == wants(self, k),
    {
        match self {
            Want::Kind(x) => k == x,
            Want::AnyName => k == SyntaxKind::Name || k == SyntaxKind::NameRef,
            Want::NameOrPath => k == SyntaxKind::NameRef || k == SyntaxKind::PathExpr,
            Want::Value => k.is_value_node(),
            Want::NotArgs => k != SyntaxKind::ArgList,
            Want::Any => true,
        }
    }
}

/// The node at a position, when there is one.
pub open spec fn node_at(es: Seq<ElemV>, i: int) -> Option<NodeV> {
    if 0 <= i < es.len() {
        match es[i] {
            ElemV::Node(n) => Some(n),
            ElemV::Token(_) => None,
        }
    } else {
        None
    }
}

/// The token at a position, when there is one.
pub open spec fn token_at(es: Seq<ElemV>, i: int) -> Option<TokenV> {
    if 0 <= i < es.len() {
        match es[i] {
            ElemV::Node(_) => None,
            ElemV::Token(t) => Some(t),
        }
    } else {
        None
    }
}

/// Whether the element at a position is a node that a search is after.
pub open spec fn wanted(es: Seq<ElemV>, w: Want, i: int) -> bool {
    match node_at(es, i) {
        Some(n) => wants(w, n.kind),
        None => false,
    }
}

/// The first position from `i` on with a wanted node; the number of
/// elements when there is none.
pub open spec fn find(es: Seq<ElemV>, w: Want, i: int) -> int
    decreases es.len() - i,
{
    if i < 0 || i >= es.len() {
        es.len() as int
    } else if wanted(es, w, i) {
        i
    } else {
        find(es, w, i + 1)
    }
}

/// The first wanted node.
pub open spec fn first(es: Seq<ElemV>, w: Want) -> Option<NodeV> {
    node_at(es, find(es, w, 0))
}

/// Whether the element at a position is a token that is no trivia.
pub open spec fn solid(es: Seq<ElemV>, i: int) -> bool {
    match token_at(es, i) {
        Some(t) => !is_trivia(t.kind),
        None => false,
    }
}

/// The first position from `i` on with a token that is no trivia; the
/// number of elements when there is none.
pub open spec fn find_token(es: Seq<ElemV>, i: int) -> int
    decreases es.len() - i,
{
    if i < 0 || i >= es.len() {
        es.len() as int
    } else if solid(es, i) {
        i
    } else {
        find_token(es, i + 1)
    }
}

/// The first token that is no trivia.
pub open spec fn first_token(es: Seq<ElemV>) -> Option<TokenV> {
    token_at(es, find_token(es, 0))
}

/// Whether a node has a direct child token of a kind.
pub open spec fn has_token(es: Seq<ElemV>, k: SyntaxKind) -> bool {
    exists|i: int| token_at(es, i) is Some && (#[trigger] token_at(es, i))->0.kind == k
}

/// The node at a position.
pub fn node_ref(es: &Vec<SyntaxElement>, i: usize) -> (r: Option<&SyntaxNode>)
    ensures
        match r {
            Some(n) => node_at(elems(es@), i as int) == Some(n@) && i < es@.len() && es@[i as int]
                == SyntaxElement::Node(*n),
            None => node_at(elems(es@), i as int) is None,
        },
{
    if i < es.len() {
        match &es[i] {
            SyntaxElement::Node(n) => Some(n),
            SyntaxElement::Token(_) => None,
        }
    } else {
        None
    }
}

/// The token at a position.
pub fn token_ref(es: &Vec<SyntaxElement>, i: usize) -> (r: Option<&SyntaxToken>)
    ensures
        match r {
            Some(t) => token_at(elems(es@), i as int) == Some(t@),
            None => token_at(elems(es@), i as int) is None,
        },
{
    if i < es.len() {
        match &es[i] {
            SyntaxElement::Node(_) => None,
            SyntaxElement::Token(t) => Some(t),
        }
    } else {
        None
    }
}

/// The first position from `from` on with a wanted node; the number of
/// elements when there is none.
pub fn find_node(es: &Vec<SyntaxElement>, w: Want, from: usize) -> (r: usize)
    ensures
        r == find(elems(es@), w, from as int),
        r <= es@.len(),
        r < es@.len() ==> from <= r && wanted(elems(es@), w, r as int),
{
    let n: usize = es.len();
    if from >= n {
        return n;
    }
    let mut i: usize = from;
    while i < n
        invariant
            from <= i <= n,
            n == es@.len(),
            find(elems(es@), w, i as int) == find(elems(es@), w, from as int),
        decreases n - i,
    {
        if let Some(c) = node_ref(es, i) {
            if w.takes(c.kind) {
                return i;
            }
        }
        i += 1;
    }
    n
}

/// The first wanted node.
pub fn first_node(es: &Vec<SyntaxElement>, w: Want) -> (r: Option<&SyntaxNode>)
    ensures
        match r {
            Some(n) => first(elems(es@), w) == Some(n@) && (exists|i: int|
                0 <= i < es@.len() && #[trigger] es@[i] == SyntaxElement::Node(*n)),
            None => first(elems(es@), w) is None,
        },
{
    let i = find_node(es, w, 0);
    node_ref(es, i)
}

/// The first position from `from` on with a token that is no trivia.
pub fn find_solid(es: &Vec<SyntaxElement>, from: usize) -> (r: usize)
    ensures
        r == find_token(elems(es@), from as int),
        r <= es@.len(),
{
    let n: usize = es.len();
    if from >= n {
        return n;
    }
    let mut i: usize = from;
    while i < n
        invariant
            from <= i <= n,
            n == es@.len(),
            find_token(elems(es@), i as int) == find_token(elems(es@), from as int),
        decreases n - i,
    {
        if let Some(t) = token_ref(es, i) {
            if !t.kind.is_trivia() {
                return i;
            }
        }
        i += 1;
    }
    n
}

/// The first token that is no trivia.
pub fn solid_token(es: &Vec<SyntaxElement>) -> (r: Option<&SyntaxToken>)
    ensures
        match r {
            Some(t) => first_token(elems(es@)) == Some(t@),
            None => first_token(elems(es@)) is None,
        },
{
    let i = find_solid(es, 0);
    token_ref(es, i)
}

/// Whether a node has a direct child token of a kind.
pub fn contains_token(es: &Vec<SyntaxElement>, k: SyntaxKind) -> (r: bool)
    ensures
        r == has_token(elems(es@), k),
{
    let mut i: usize = 0;
    while i < es.len()
        invariant
            i <= es@.len(),
            forall|j: int|
                j < i && token_at(elems(es@), j) is Some ==> (#[trigger] token_at(
                    elems(es@),
                    j,
                ))->0.kind != k,
        decreases es@.len() - i,
    {
        if let Some(t) = token_ref(es, i) {
            if t.kind == k {
                return true;
            }
        }
        i += 1;
    }
    false
}

} // verus!
