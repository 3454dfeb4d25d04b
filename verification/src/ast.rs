//! Canonical AST node types.
//!
//! The AST is *owned* (not a view over the CST) and *canonical*: parens
//! are removed, statement/expression boundaries are normalized, and every
//! node carries its source [`Span`]. It is the boundary where trivia is
//! left behind — the CST remains available underneath for tooling that
//! needs comments and formatting fidelity.
//!
//! Each node type `T` has a mathematical counterpart `TV`, in which
//! vectors are sequences and strings are character sequences; `t@` is
//! the counterpart of `t`.

use crate::source::Span;
use vstd::prelude::*;
use vstd::string::*;

verus! {

/// A name with its source span.
#[derive(Debug)]
pub struct Ident {
    /// The identifier text.
    pub name: String,
    /// Where it stands.
    pub span: Span,
}

/// Model of [`Ident`].
#[verifier::ext_equal]
pub struct IdentV {
    pub name: Seq<char>,
    pub span: Span,
}

impl Ident {
    /// The model of this identifier.
    pub open spec fn view(&self) -> IdentV {
        IdentV { name: self.name@, span: self.span }
    }

    /// Builds an identifier.
    pub fn new(name: String, span: Span) -> (r: Ident)
        ensures
            r@ == (IdentV { name: name@, span }),
    {
        Ident { name, span }
    }
}

/// The models of a sequence of identifiers.
pub open spec fn idents(v: Seq<Ident>) -> Seq<IdentV> {
    Seq::new(v.len(), |i: int| v[i]@)
}

/// The model of an optional identifier.
pub open spec fn opt_ident(v: Option<Ident>) -> Option<IdentV> {
    match v {
        Some(i) => Some(i@),
        None => None,
    }
}

/// A possibly-qualified name: `x` or `m::x`.
#[derive(Debug)]
pub struct Path {
    /// Path segments, outermost first.
    pub segs: Vec<Ident>,
    /// Span covering the whole path.
    pub span: Span,
}

/// Model of [`Path`].
#[verifier::ext_equal]
pub struct PathV {
    pub segs: Seq<IdentV>,
    pub span: Span,
}

/// The segment names of a path joined by `::`.
pub open spec fn path_text(segs: Seq<IdentV>) -> Seq<char>
    decreases segs.len(),
{
    if segs.len() == 0 {
        Seq::empty()
    } else if segs.len() == 1 {
        segs[0].name
    } else {
        path_text(segs.drop_last()) + "::"@ + segs.last().name
    }
}

impl Path {
    /// The model of this path.
    pub open spec fn view(&self) -> PathV {
        PathV { segs: idents(self.segs@), span: self.span }
    }

    /// A one-segment path; its span is the name's.
    pub fn single(name: Ident) -> (r: Path)
        ensures
            r@ == (PathV { segs: seq![name@], span: name@.span }),
    {
        let span = name.span;
        let mut segs: Vec<Ident> = Vec::new();
        segs.push(name);
        let r = Path { segs, span };
        proof {
            assert(r@.segs =~= seq![name@]);
        }
        r
    }

    /// The segments joined by `::`.
    pub fn display(&self) -> (r: String)
        ensures
            r@ == path_text(self@.segs),
    {
        let mut out = String::new();
        let mut i: usize = 0;
        proof {
            assert(self@.segs.take(0) =~= Seq::empty());
        }
        while i < self.segs.len()
            invariant
                i <= self.segs@.len(),
                out@ == path_text(self@.segs.take(i as int)),
            decreases self.segs@.len() - i,
        {
            let ghost pre = self@.segs.take(i as int);
            let ghost cur = self@.segs.take(i + 1);
            proof {
                assert(cur.drop_last() =~= pre);
                assert(cur.last() == self.segs@[i as int]@);
            }
            if i > 0 {
                out.append("::");
            }
            out.append(self.segs[i].name.as_str());
            proof {
                if i == 0 {
                    assert(out@ =~= path_text(cur));
                }
            }
            i += 1;
        }
        proof {
            assert(self@.segs.take(self.segs@.len() as int) =~= self@.segs);
        }
        out
    }
}

/// A `use` declaration.
#[derive(Debug)]
pub struct UseDecl {
    /// The imported path.
    pub path: Path,
    /// The `as` alias.
    pub alias: Option<Ident>,
    /// Span of the whole declaration.
    pub span: Span,
}

/// Model of [`UseDecl`].
#[verifier::ext_equal]
pub struct UseDeclV {
    pub path: PathV,
    pub alias: Option<IdentV>,
    pub span: Span,
}

impl UseDecl {
    /// The model of this declaration.
    pub open spec fn view(&self) -> UseDeclV {
        UseDeclV { path: self.path@, alias: opt_ident(self.alias), span: self.span }
    }
}

/// One source file: its `use` block and its items.
#[derive(Debug)]
pub struct AstModule {
    /// `use` declarations in source order.
    pub uses: Vec<UseDecl>,
    /// Items in source order.
    pub items: Vec<Item>,
    /// Span of the whole module.
    pub span: Span,
}

/// Model of [`AstModule`].
#[verifier::ext_equal]
pub struct AstModuleV {
    pub uses: Seq<UseDeclV>,
    pub items: Seq<ItemV>,
    pub span: Span,
}

/// The models of a sequence of `use` declarations.
pub open spec fn use_decls(v: Seq<UseDecl>) -> Seq<UseDeclV> {
    Seq::new(v.len(), |i: int| v[i]@)
}

/// The models of a sequence of items.
pub open spec fn items(v: Seq<Item>) -> Seq<ItemV> {
    Seq::new(v.len(), |i: int| v[i]@)
}

impl AstModule {
    /// The model of this module.
    pub open spec fn view(&self) -> AstModuleV {
        AstModuleV { uses: use_decls(self.uses@), items: items(self.items@), span: self.span }
    }
}

/// A top-level item.
#[derive(Debug)]
pub enum Item {
    /// A `data` declaration.
    Data(DataDecl),
    /// A `fn` declaration.
    Fn(FnDecl),
}

/// Model of [`Item`].
#[verifier::ext_equal]
pub enum ItemV {
    Data(DataDeclV),
    Fn(FnDeclV),
}

/// The span of an item.
pub open spec fn item_span(i: ItemV) -> Span {
    match i {
        ItemV::Data(d) => d.span,
        ItemV::Fn(f) => f.span,
    }
}

/// The declared name of an item.
pub open spec fn item_name(i: ItemV) -> IdentV {
    match i {
        ItemV::Data(d) => d.name,
        ItemV::Fn(f) => f.name,
    }
}

impl Item {
    /// The model of this item.
    pub open spec fn view(&self) -> ItemV {
        match self {
            Item::Data(d) => ItemV::Data(d@),
            Item::Fn(f) => ItemV::Fn(f@),
        }
    }

    /// The item's source span.
    pub fn span(&self) -> (r: Span)
        ensures
            r == item_span(self@),
    {
        match self {
            Item::Data(d) => d.span,
            Item::Fn(f) => f.span,
        }
    }

    /// The item's declared name.
    pub fn name(&self) -> (r: &Ident)
        ensures
            r@ == item_name(self@),
    {
        match self {
            Item::Data(d) => &d.name,
            Item::Fn(f) => &f.name,
        }
    }
}

/// A `data` declaration: a struct (`fields`) or an enum (`variants`).
#[derive(Debug)]
pub struct DataDecl {
    /// Declared name.
    pub name: Ident,
    /// Fields in source order.
    pub fields: Vec<Field>,
    /// Variants in source order.
    pub variants: Vec<Variant>,
    /// Span of the whole declaration.
    pub span: Span,
}

/// Model of [`DataDecl`].
#[verifier::ext_equal]
pub struct DataDeclV {
    pub name: IdentV,
    pub fields: Seq<FieldV>,
    pub variants: Seq<VariantV>,
    pub span: Span,
}

/// The models of a sequence of fields.
pub open spec fn fields(v: Seq<Field>) -> Seq<FieldV> {
    Seq::new(v.len(), |i: int| v[i]@)
}

/// The models of a sequence of variants.
pub open spec fn variants(v: Seq<Variant>) -> Seq<VariantV> {
    Seq::new(v.len(), |i: int| v[i]@)
}

impl DataDecl {
    /// The model of this declaration.
    pub open spec fn view(&self) -> DataDeclV {
        DataDeclV {
            name: self.name@,
            fields: fields(self.fields@),
            variants: variants(self.variants@),
            span: self.span,
        }
    }
}

/// One `data` field.
#[derive(Debug)]
pub struct Field {
    /// Field name.
    pub name: Ident,
    /// Declared type.
    pub ty: TypeExpr,
    /// Span of the whole field.
    pub span: Span,
}

/// Model of [`Field`].
#[verifier::ext_equal]
pub struct FieldV {
    pub name: IdentV,
    pub ty: TypeExprV,
    pub span: Span,
}

impl Field {
    /// The model of this field.
    pub open spec fn view(&self) -> FieldV {
        FieldV { name: self.name@, ty: self.ty@, span: self.span }
    }
}

/// One enum variant.
#[derive(Debug)]
pub struct Variant {
    /// Variant name.
    pub name: Ident,
    /// Payload types in order.
    pub payload: Vec<TypeExpr>,
    /// Span of the whole variant.
    pub span: Span,
}

/// Model of [`Variant`].
#[verifier::ext_equal]
pub struct VariantV {
    pub name: IdentV,
    pub payload: Seq<TypeExprV>,
    pub span: Span,
}

/// The models of a sequence of types.
pub open spec fn type_exprs(v: Seq<TypeExpr>) -> Seq<TypeExprV> {
    Seq::new(v.len(), |i: int| v[i]@)
}

impl Variant {
    /// The model of this variant.
    pub open spec fn view(&self) -> VariantV {
        VariantV { name: self.name@, payload: type_exprs(self.payload@), span: self.span }
    }
}

/// A function declaration.
#[derive(Debug)]
pub struct FnDecl {
    /// Declared name.
    pub name: Ident,
    /// Parameters in order.
    pub params: Vec<Param>,
    /// Return type, when written.
    pub ret: Option<TypeExpr>,
    /// The body block.
    pub body: Block,
    /// Span of the whole declaration.
    pub span: Span,
}

/// Model of [`FnDecl`].
#[verifier::ext_equal]
pub struct FnDeclV {
    pub name: IdentV,
    pub params: Seq<ParamV>,
    pub ret: Option<TypeExprV>,
    pub body: BlockV,
    pub span: Span,
}

/// The models of a sequence of parameters.
pub open spec fn params(v: Seq<Param>) -> Seq<ParamV> {
    Seq::new(v.len(), |i: int| v[i]@)
}

impl FnDecl {
    /// The model of this declaration.
    pub open spec fn view(&self) -> FnDeclV {
        FnDeclV {
            name: self.name@,
            params: params(self.params@),
            ret: opt_type(self.ret),
            body: self.body@,
            span: self.span,
        }
    }
}

/// A function parameter.
#[derive(Debug)]
pub struct Param {
    /// Parameter name.
    pub name: Ident,
    /// Declared `mut`.
    pub mutable: bool,
    /// Declared type.
    pub ty: TypeExpr,
    /// Span of the whole parameter.
    pub span: Span,
}

/// Model of [`Param`].
#[verifier::ext_equal]
pub struct ParamV {
    pub name: IdentV,
    pub mutable: bool,
    pub ty: TypeExprV,
    pub span: Span,
}

impl Param {
    /// The model of this parameter.
    pub open spec fn view(&self) -> ParamV {
        ParamV { name: self.name@, mutable: self.mutable, ty: self.ty@, span: self.span }
    }
}

/// A type as written.
#[derive(Debug)]
pub enum TypeExpr {
    /// `i32`, `D`, `m::D`.
    Named {
        /// The type's path.
        path: Path,
    },
    /// `[T]`.
    Array {
        /// Element type.
        elem: Box<TypeExpr>,
        /// Span covering the whole `[T]`.
        span: Span,
    },
}

/// Model of [`TypeExpr`].
#[verifier::ext_equal]
pub enum TypeExprV {
    Named { path: PathV },
    Array { elem: Box<TypeExprV>, span: Span },
}

/// The span of a type.
pub open spec fn type_span(t: TypeExprV) -> Span {
    match t {
        TypeExprV::Named { path } => path.span,
        TypeExprV::Array { elem: _, span } => span,
    }
}

/// The named path a type is built on.
pub open spec fn type_path(t: TypeExprV) -> PathV
    decreases t,
{
    match t {
        TypeExprV::Named { path } => path,
        TypeExprV::Array { elem, span: _ } => type_path(*elem),
    }
}

/// The model of an optional type.
pub open spec fn opt_type(v: Option<TypeExpr>) -> Option<TypeExprV> {
    match v {
        Some(t) => Some(t@),
        None => None,
    }
}

impl TypeExpr {
    /// The model of this type.
    pub open spec fn view(&self) -> TypeExprV
        decreases self,
    {
        match self {
            TypeExpr::Named { path } => TypeExprV::Named { path: path@ },
            TypeExpr::Array { elem, span } => TypeExprV::Array {
                elem: Box::new((**elem).view()),
                span: *span,
            },
        }
    }

    /// The type's source span.
    pub fn span(&self) -> (r: Span)
        ensures
            r == type_span(self@),
    {
        match self {
            TypeExpr::Named { path } => path.span,
            TypeExpr::Array { elem: _, span } => *span,
        }
    }

    /// Every path named in the type: exactly one, under any nesting
    /// of arrays.
    pub fn paths(&self) -> (r: Vec<&Path>)
        ensures
            r@.len() == 1,
            r@[0]@ == type_path(self@),
        decreases self,
    {
        match self {
            TypeExpr::Named { path } => {
                let mut v: Vec<&Path> = Vec::new();
                v.push(path);
                v
            },
            TypeExpr::Array { elem, span: _ } => elem.paths(),
        }
    }
}

/// A `{ ... }` block.
#[derive(Debug)]
pub struct Block {
    /// Statements in order.
    pub stmts: Vec<Stmt>,
    /// The value expression, when the block ends in one.
    pub tail: Option<Box<Expr>>,
    /// Span of the whole block.
    pub span: Span,
}

/// Model of [`Block`].
#[verifier::ext_equal]
pub struct BlockV {
    pub stmts: Seq<StmtV>,
    pub tail: Option<Box<ExprV>>,
    pub span: Span,
}

impl Block {
    /// The model of this block.
    pub open spec fn view(&self) -> BlockV
        decreases self,
    {
        BlockV {
            stmts: Seq::new(
                self.stmts@.len(),
                |i: int|
                    if 0 <= i < self.stmts@.len() {
                        self.stmts@[i].view()
                    } else {
                        arbitrary()
                    },
            ),
            tail: match self.tail {
                Some(e) => Some(Box::new((*e).view())),
                None => None,
            },
            span: self.span,
        }
    }
}

/// An assignable place: a binding and a chain of fields.
#[derive(Debug)]
pub struct Place {
    /// The binding.
    pub base: Ident,
    /// Field projections, outermost first.
    pub fields: Vec<Ident>,
}

/// Model of [`Place`].
#[verifier::ext_equal]
pub struct PlaceV {
    pub base: IdentV,
    pub fields: Seq<IdentV>,
}

impl Place {
    /// The model of this place.
    pub open spec fn view(&self) -> PlaceV {
        PlaceV { base: self.base@, fields: idents(self.fields@) }
    }
}

/// A statement.
#[allow(inconsistent_fields)]
#[derive(Debug)]
pub enum Stmt {
    /// `let [mut] name[: ty] [= init];`
    Let {
        /// Binding name.
        name: Ident,
        /// Declared `mut`.
        mutable: bool,
        /// Declared type.
        ty: Option<TypeExpr>,
        /// Initializer.
        init: Option<Expr>,
        /// Span of the whole statement.
        span: Span,
    },
    /// `place = value;`
    Assign {
        /// Assigned place.
        target: Place,
        /// Assigned value.
        value: Expr,
        /// Span of the whole statement.
        span: Span,
    },
    /// An expression in statement position.
    Expr {
        /// The expression.
        expr: Expr,
        /// Whether a `;` follows.
        has_semi: bool,
        /// Span of the whole statement.
        span: Span,
    },
    /// `return [value];`
    Return {
        /// Returned value.
        value: Option<Expr>,
        /// Span of the whole statement.
        span: Span,
    },
}

/// Model of [`Stmt`].
#[allow(inconsistent_fields)]
#[verifier::ext_equal]
pub enum StmtV {
    Let {
        name: IdentV,
        mutable: bool,
        ty: Option<TypeExprV>,
        init: Option<ExprV>,
        span: Span,
    },
    Assign { target: PlaceV, value: ExprV, span: Span },
    Expr { expr: ExprV, has_semi: bool, span: Span },
    Return { value: Option<ExprV>, span: Span },
}

impl Stmt {
    /// The model of this statement.
    pub open spec fn view(&self) -> StmtV
        decreases self,
    {
        match self {
            Stmt::Let { name, mutable, ty, init, span } => StmtV::Let {
                name: name@,
                mutable: *mutable,
                ty: opt_type(*ty),
                init: match init {
                    Some(e) => Some(e.view()),
                    None => None,
                },
                span: *span,
            },
            Stmt::Assign { target, value, span } => StmtV::Assign {
                target: target@,
                value: value.view(),
                span: *span,
            },
            Stmt::Expr { expr, has_semi, span } => StmtV::Expr {
                expr: expr.view(),
                has_semi: *has_semi,
                span: *span,
            },
            Stmt::Return { value, span } => StmtV::Return {
                value: match value {
                    Some(e) => Some(e.view()),
                    None => None,
                },
                span: *span,
            },
        }
    }
}

/// One arm of a `match`.
#[derive(Debug)]
pub struct MatchArm {
    /// The pattern.
    pub pat: Pattern,
    /// The arm's value.
    pub body: Expr,
    /// Span covering `pat => expr`.
    pub span: Span,
}

/// Model of [`MatchArm`].
#[verifier::ext_equal]
pub struct MatchArmV {
    pub pat: PatternV,
    pub body: ExprV,
    pub span: Span,
}

impl MatchArm {
    /// The model of this arm.
    pub open spec fn view(&self) -> MatchArmV
        decreases self,
    {
        MatchArmV { pat: self.pat@, body: self.body.view(), span: self.span }
    }
}

/// A `match` pattern.
#[derive(Debug)]
pub enum Pattern {
    /// A binding, or the `_` wildcard.
    Bind {
        /// The bound name.
        name: Ident,
    },
    /// `E::V` or `E::V(a, b)`.
    Variant {
        /// The variant's path.
        path: Path,
        /// Payload bindings in order.
        binds: Vec<Ident>,
        /// Span of the whole pattern.
        span: Span,
    },
}

/// Model of [`Pattern`].
#[verifier::ext_equal]
pub enum PatternV {
    Bind { name: IdentV },
    Variant { path: PathV, binds: Seq<IdentV>, span: Span },
}

impl Pattern {
    /// The model of this pattern.
    pub open spec fn view(&self) -> PatternV {
        match self {
            Pattern::Bind { name } => PatternV::Bind { name: name@ },
            Pattern::Variant { path, binds, span } => PatternV::Variant {
                path: path@,
                binds: idents(binds@),
                span: *span,
            },
        }
    }
}

/// `name: value` in a struct literal.
#[derive(Debug)]
pub struct FieldInit {
    /// Field name.
    pub name: Ident,
    /// Field value.
    pub value: Expr,
    /// Span of the whole initializer.
    pub span: Span,
}

/// Model of [`FieldInit`].
#[verifier::ext_equal]
pub struct FieldInitV {
    pub name: IdentV,
    pub value: ExprV,
    pub span: Span,
}

impl FieldInit {
    /// The model of this initializer.
    pub open spec fn view(&self) -> FieldInitV
        decreases self,
    {
        FieldInitV { name: self.name@, value: self.value.view(), span: self.span }
    }
}

/// An expression.
#[allow(inconsistent_fields)]
#[derive(Debug)]
pub enum Expr {
    /// A literal.
    Literal { value: Literal, span: Span },
    /// A plain name.
    Var { name: Ident },
    /// `f(a, b)`.
    Call { callee: Path, args: Vec<Expr>, span: Span },
    /// `base.name`.
    Field { base: Box<Expr>, name: Ident, span: Span },
    /// `base[index]`.
    Index { base: Box<Expr>, index: Box<Expr>, span: Span },
    /// `base[lo..hi]`.
    Slice { base: Box<Expr>, lo: Option<Box<Expr>>, hi: Option<Box<Expr>>, span: Span },
    /// `[a, b]`.
    ArrayLit { elems: Vec<Expr>, span: Span },
    /// `lo..hi`.
    Range { lo: Option<Box<Expr>>, hi: Option<Box<Expr>>, span: Span },
    /// `match scrutinee { ... }`.
    Match { scrutinee: Box<Expr>, arms: Vec<MatchArm>, span: Span },
    /// `for var in iter { ... }`.
    For { var: Ident, mutable: bool, iter: Box<Expr>, body: Block, span: Span },
    /// `lhs op rhs`.
    Binary { op: BinOp, lhs: Box<Expr>, rhs: Box<Expr>, span: Span },
    /// `op expr`.
    Unary { op: UnOp, expr: Box<Expr>, span: Span },
    /// `if cond { ... } else ...`.
    If { cond: Box<Expr>, then_: Block, else_: Option<Box<Expr>>, span: Span },
    /// `{ ... }`.
    Block { block: Block, span: Span },
    /// `D { f: v }`.
    StructLit { name: Path, fields: Vec<FieldInit>, span: Span },
    /// `m::x` or `E::V` in value position.
    Path { path: Path },
    /// Unparseable input.
    Error { span: Span },
}

/// Model of [`Expr`].
#[allow(inconsistent_fields)]
#[verifier::ext_equal]
pub enum ExprV {
    Literal { value: LiteralV, span: Span },
    Var { name: IdentV },
    Call { callee: PathV, args: Seq<ExprV>, span: Span },
    Field { base: Box<ExprV>, name: IdentV, span: Span },
    Index { base: Box<ExprV>, index: Box<ExprV>, span: Span },
    Slice { base: Box<ExprV>, lo: Option<Box<ExprV>>, hi: Option<Box<ExprV>>, span: Span },
    ArrayLit { elems: Seq<ExprV>, span: Span },
    Range { lo: Option<Box<ExprV>>, hi: Option<Box<ExprV>>, span: Span },
    Match { scrutinee: Box<ExprV>, arms: Seq<MatchArmV>, span: Span },
    For { var: IdentV, mutable: bool, iter: Box<ExprV>, body: BlockV, span: Span },
    Binary { op: BinOp, lhs: Box<ExprV>, rhs: Box<ExprV>, span: Span },
    Unary { op: UnOp, expr: Box<ExprV>, span: Span },
    If { cond: Box<ExprV>, then_: BlockV, else_: Option<Box<ExprV>>, span: Span },
    Block { block: BlockV, span: Span },
    StructLit { name: PathV, fields: Seq<FieldInitV>, span: Span },
    Path { path: PathV },
    Error { span: Span },
}

/// The span of an expression.
pub open spec fn expr_span(e: ExprV) -> Span {
    match e {
        ExprV::Literal { value: _, span } => span,
        ExprV::Var { name } => name.span,
        ExprV::Call { callee: _, args: _, span } => span,
        ExprV::Field { base: _, name: _, span } => span,
        ExprV::Index { base: _, index: _, span } => span,
        ExprV::Slice { base: _, lo: _, hi: _, span } => span,
        ExprV::ArrayLit { elems: _, span } => span,
        ExprV::Range { lo: _, hi: _, span } => span,
        ExprV::Match { scrutinee: _, arms: _, span } => span,
        ExprV::For { var: _, mutable: _, iter: _, body: _, span } => span,
        ExprV::Binary { op: _, lhs: _, rhs: _, span } => span,
        ExprV::Unary { op: _, expr: _, span } => span,
        ExprV::If { cond: _, then_: _, else_: _, span } => span,
        ExprV::Block { block: _, span } => span,
        ExprV::StructLit { name: _, fields: _, span } => span,
        ExprV::Path { path } => path.span,
        ExprV::Error { span } => span,
    }
}

impl Expr {
    /// The model of this expression.
    pub open spec fn view(&self) -> ExprV
        decreases self,
    {
        match self {
            Expr::Literal { value, span } => ExprV::Literal { value: value@, span: *span },
            Expr::Var { name } => ExprV::Var { name: name@ },
            Expr::Call { callee, args, span } => ExprV::Call {
                callee: callee@,
                args: Seq::new(
                    args@.len(),
                    |i: int|
                        if 0 <= i < args@.len() {
                            args@[i].view()
                        } else {
                            arbitrary()
                        },
                ),
                span: *span,
            },
            Expr::Field { base, name, span } => ExprV::Field {
                base: Box::new((**base).view()),
                name: name@,
                span: *span,
            },
            Expr::Index { base, index, span } => ExprV::Index {
                base: Box::new((**base).view()),
                index: Box::new((**index).view()),
                span: *span,
            },
            Expr::Slice { base, lo, hi, span } => ExprV::Slice {
                base: Box::new((**base).view()),
                lo: match lo {
                    Some(e) => Some(Box::new((**e).view())),
                    None => None,
                },
                hi: match hi {
                    Some(e) => Some(Box::new((**e).view())),
                    None => None,
                },
                span: *span,
            },
            Expr::ArrayLit { elems, span } => ExprV::ArrayLit {
                elems: Seq::new(
                    elems@.len(),
                    |i: int|
                        if 0 <= i < elems@.len() {
                            elems@[i].view()
                        } else {
                            arbitrary()
                        },
                ),
                span: *span,
            },
            Expr::Range { lo, hi, span } => ExprV::Range {
                lo: match lo {
                    Some(e) => Some(Box::new((**e).view())),
                    None => None,
                },
                hi: match hi {
                    Some(e) => Some(Box::new((**e).view())),
                    None => None,
                },
                span: *span,
            },
            Expr::Match { scrutinee, arms, span } => ExprV::Match {
                scrutinee: Box::new((**scrutinee).view()),
                arms: Seq::new(
                    arms@.len(),
                    |i: int|
                        if 0 <= i < arms@.len() {
                            arms@[i].view()
                        } else {
                            arbitrary()
                        },
                ),
                span: *span,
            },
            Expr::For { var, mutable, iter, body, span } => ExprV::For {
                var: var@,
                mutable: *mutable,
                iter: Box::new((**iter).view()),
                body: body.view(),
                span: *span,
            },
            Expr::Binary { op, lhs, rhs, span } => ExprV::Binary {
                op: *op,
                lhs: Box::new((**lhs).view()),
                rhs: Box::new((**rhs).view()),
                span: *span,
            },
            Expr::Unary { op, expr, span } => ExprV::Unary {
                op: *op,
                expr: Box::new((**expr).view()),
                span: *span,
            },
            Expr::If { cond, then_, else_, span } => ExprV::If {
                cond: Box::new((**cond).view()),
                then_: then_.view(),
                else_: match else_ {
                    Some(e) => Some(Box::new((**e).view())),
                    None => None,
                },
                span: *span,
            },
            Expr::Block { block, span } => ExprV::Block { block: block.view(), span: *span },
            Expr::StructLit { name, fields, span } => ExprV::StructLit {
                name: name@,
                fields: Seq::new(
                    fields@.len(),
                    |i: int|
                        if 0 <= i < fields@.len() {
                            fields@[i].view()
                        } else {
                            arbitrary()
                        },
                ),
                span: *span,
            },
            Expr::Path { path } => ExprV::Path { path: path@ },
            Expr::Error { span } => ExprV::Error { span: *span },
        }
    }

    /// The expression's source span.
    pub fn span(&self) -> (r: Span)
        ensures
            r == expr_span(self@),
    {
        match self {
            Expr::Literal { value: _, span } => *span,
            Expr::Var { name } => name.span,
            Expr::Call { callee: _, args: _, span } => *span,
            Expr::Field { base: _, name: _, span } => *span,
            Expr::Index { base: _, index: _, span } => *span,
            Expr::Slice { base: _, lo: _, hi: _, span } => *span,
            Expr::ArrayLit { elems: _, span } => *span,
            Expr::Range { lo: _, hi: _, span } => *span,
            Expr::Match { scrutinee: _, arms: _, span } => *span,
            Expr::For { var: _, mutable: _, iter: _, body: _, span } => *span,
            Expr::Binary { op: _, lhs: _, rhs: _, span } => *span,
            Expr::Unary { op: _, expr: _, span } => *span,
            Expr::If { cond: _, then_: _, else_: _, span } => *span,
            Expr::Block { block: _, span } => *span,
            Expr::StructLit { name: _, fields: _, span } => *span,
            Expr::Path { path } => path.span,
            Expr::Error { span } => *span,
        }
    }
}

/// A literal value.
#[derive(Debug)]
pub enum Literal {
    /// An integer.
    Int(i128),
    /// A floating-point number, as its digits without separators.
    Float(String),
    /// A string, escapes decoded.
    Str(String),
    /// A character.
    Char(char),
    /// `true` or `false`.
    Bool(bool),
}

/// Model of [`Literal`].
#[verifier::ext_equal]
pub enum LiteralV {
    Int(i128),
    Float(Seq<char>),
    Str(Seq<char>),
    Char(char),
    Bool(bool),
}

impl Literal {
    /// The model of this literal.
    pub open spec fn view(&self) -> LiteralV {
        match self {
            Literal::Int(n) => LiteralV::Int(*n),
            Literal::Float(s) => LiteralV::Float(s@),
            Literal::Str(s) => LiteralV::Str(s@),
            Literal::Char(c) => LiteralV::Char(*c),
            Literal::Bool(b) => LiteralV::Bool(*b),
        }
    }

    /// A copy of this literal.
    pub fn copy(&self) -> (r: Literal)
        ensures
            r@ == self@,
    {
        match self {
            Literal::Int(n) => Literal::Int(*n),
            Literal::Float(s) => Literal::Float(s.clone()),
            Literal::Str(s) => Literal::Str(s.clone()),
            Literal::Char(c) => Literal::Char(*c),
            Literal::Bool(b) => Literal::Bool(*b),
        }
    }
}

/// A binary operator.
#[derive(Clone, Copy, Debug, PartialEq, Eq, Structural)]
pub enum BinOp {
    /// `+`
    Add,
    /// `-`
    Sub,
    /// `*`
    Mul,
    /// `/`
    Div,
    /// `%`
    Rem,
    /// `==`
    Eq,
    /// `!=`
    Ne,
    /// `<`
    Lt,
    /// `<=`
    Le,
    /// `>`
    Gt,
    /// `>=`
    Ge,
    /// `&&`
    And,
    /// `||`
    Or,
}

/// A unary operator.
#[derive(Clone, Copy, Debug, PartialEq, Eq, Structural)]
pub enum UnOp {
    /// `-`
    Neg,
    /// `!`
    Not,
}

} // verus!
