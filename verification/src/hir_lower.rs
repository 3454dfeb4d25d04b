//! AST → HIR body lowering with expression-level name resolution.
//!
//! Each function body is lowered with a lexical scope stack. Names
//! resolve to (innermost-first):
//!
//! 1. `let` bindings in enclosing blocks,
//! 2. function parameters,
//! 3. module definitions (in call/struct-literal position only —
//!    definitions are not values).
//!
//! Unresolved names produce diagnostics and `Poison` nodes rather than
//! guesses, so later passes never see fabricated semantics.

use crate::ast::{
    Block, BlockV, Expr, ExprV, FieldInit, FieldInitV, FnDecl, FnDeclV, Ident, IdentV, MatchArm,
    MatchArmV, Param, ParamV, Path, PathV, Pattern, PatternV, Place, PlaceV, Stmt, StmtV, TypeExpr,
    TypeExprV,
};
use crate::code::Code;
use crate::diagnostic::{Diagnostic, DiagnosticV, Diagnostics};
use crate::fxmap::IdMap;
use crate::hir::{
    builtin_type, ElemRef, FileEnvV, HirArm, HirArmV, HirBody, HirBodyV, HirExpr, HirExprKind,
    HirExprKindV, HirExprV, HirPat, HirPatV, HirPlace, HirPlaceV, HirStmt, HirStmtV, ModuleScope,
    ModuleScopeV, Name, Symbol, SymbolKind, TypeRef,
};
use crate::source::{DefId, ExprId, FileId, InternId, Interner, Span, SymbolId};
use crate::text::{cat3, cat4, cat5, same};
use vstd::prelude::*;

verus! {

/// What a body is lowered against.
pub struct Ctx<'a> {
    /// The function being lowered.
    pub def: DefId,
    /// The file this body lives in — selects the [`FileEnv`] its
    /// names resolve through.
    pub file: FileId,
    /// The resolved workspace.
    pub scope: &'a ModuleScope,
}

/// Model of [`Ctx`].
#[verifier::ext_equal]
pub struct CtxV {
    pub def: DefId,
    pub file: FileId,
    pub scope: ModuleScopeV,
}

impl<'a> Ctx<'a> {
    /// The model of this context.
    pub open spec fn view(&self) -> CtxV {
        CtxV { def: self.def, file: self.file, scope: self.scope@ }
    }
}

/// A body being lowered: its arenas, its scope stack, and what it
/// reported so far.
pub struct BodyLowerer {
    interner: Interner,
    diags: Diagnostics,
    exprs: Vec<HirExpr>,
    locals: Vec<Symbol>,
    scopes: Vec<IdMap>,
}

/// Model of [`BodyLowerer`]. A scope maps an interned name to a slot of
/// the body's symbol arena.
#[verifier::ext_equal]
pub struct LowerV {
    pub names: Seq<Seq<char>>,
    pub diags: Seq<DiagnosticV>,
    pub stamp: Option<FileId>,
    pub exprs: Seq<HirExprV>,
    pub locals: Seq<Symbol>,
    pub scopes: Seq<Map<usize, usize>>,
}

/// The entries of a sequence of maps.
pub open spec fn maps_view(v: Seq<IdMap>) -> Seq<Map<usize, usize>> {
    Seq::new(v.len(), |i: int| v[i]@)
}

/// How a `path` failed to resolve — selects the diagnostic shape.
#[derive(Clone, Copy, Debug, PartialEq, Eq, Structural)]
pub enum PathErr {
    /// The `m` in `m::x` is not a bound module.
    UnknownModule,
    /// `m` exists but has no member `x`.
    UnknownMember,
    /// Unqualified name not found, or a path longer than `m::x`.
    NotFound,
}

/// How a `T::V`/`m::T::V` path failed to name a `data` variant.
#[derive(Clone, Copy, Debug, PartialEq, Eq, Structural)]
pub enum VariantErr {
    /// The `m` in `m::T::V` is not a bound module.
    UnknownModule,
    /// Wrong shape, or the type segment is not a `data` def.
    NotFound,
    /// The data def exists but has no such variant.
    NotVariant(DefId),
}

// ---------- infrastructure ----------

/// Interns a name.
pub open spec fn intern_in(st: LowerV, name: Seq<char>) -> (LowerV, InternId) {
    (
        LowerV { names: crate::source::interned(st.names, name), ..st },
        crate::source::intern_id(st.names, name),
    )
}

/// Reports a diagnostic.
pub open spec fn report(st: LowerV, d: DiagnosticV) -> LowerV {
    LowerV { diags: st.diags.push(crate::diagnostic::stamped(d, st.stamp)), ..st }
}

/// Appends a node to the expression arena; its id is its position.
pub open spec fn alloc_node(st: LowerV, kind: HirExprKindV, span: Span) -> (LowerV, ExprId) {
    let id = ExprId { raw: st.exprs.len() as usize };
    (LowerV { exprs: st.exprs.push(HirExprV { id, kind, span }), ..st }, id)
}

/// The binding a name has in the innermost scope that binds it.
pub open spec fn lookup(scopes: Seq<Map<usize, usize>>, id: InternId) -> Option<SymbolId>
    decreases scopes.len(),
{
    if scopes.len() == 0 {
        None
    } else {
        match crate::fxmap::entry(scopes.last(), id.raw) {
            Some(i) => Some(SymbolId::Local(i)),
            None => lookup(scopes.drop_last(), id),
        }
    }
}

/// Declares a binding in the innermost scope; its id is its slot in the
/// body's symbol arena.
#[verifier::opaque]
pub open spec fn declare(
    cx: CtxV,
    st: LowerV,
    ident: IdentV,
    kind: SymbolKind,
    mutable: bool,
) -> (LowerV, SymbolId) {
    let (s1, n) = intern_in(st, ident.name);
    let slot = s1.locals.len() as usize;
    let id = SymbolId::Local(slot);
    (
        LowerV {
            locals: s1.locals.push(
                Symbol { id, name: n, kind, mutable, owner: Some(cx.def), span: ident.span },
            ),
            scopes: if s1.scopes.len() > 0 {
                s1.scopes.drop_last().push(s1.scopes.last().insert(n.raw, slot))
            } else {
                s1.scopes
            },
            ..s1
        },
        id,
    )
}

/// Opens a scope.
pub open spec fn open_scope(st: LowerV) -> LowerV {
    LowerV { scopes: st.scopes.push(Map::empty()), ..st }
}

/// Closes the innermost scope.
pub open spec fn close_scope(st: LowerV) -> LowerV {
    LowerV {
        scopes: if st.scopes.len() > 0 {
            st.scopes.drop_last()
        } else {
            st.scopes
        },
        ..st
    }
}

/// The name environment of the body's file.
pub open spec fn env_here(cx: CtxV) -> FileEnvV {
    match crate::hir::env_of(cx.scope, cx.file) {
        Some(e) => e,
        None => crate::hir::empty_env(),
    }
}

/// The first of two lookups that finds something.
pub open spec fn either(a: Option<usize>, b: Option<usize>) -> Option<usize> {
    match a {
        Some(x) => Some(x),
        None => b,
    }
}

/// An own member of a file: its functions, then its data.
pub open spec fn member_of(e: FileEnvV, n: InternId) -> Option<usize> {
    either(crate::fxmap::entry(e.fns, n.raw), crate::fxmap::entry(e.datas, n.raw))
}

/// Resolves a `path` (`x` or `m::x`) to a definition through the file's
/// env. Any def kind may come back.
#[verifier::opaque]
pub open spec fn path_def(cx: CtxV, st: LowerV, p: PathV) -> (LowerV, Result<DefId, PathErr>) {
    if p.segs.len() == 1 {
        let (s1, n) = intern_in(st, p.segs[0].name);
        let e = env_here(cx);
        match either(member_of(e, n), crate::fxmap::entry(e.imports, n.raw)) {
            Some(d) => (s1, Ok(DefId { raw: d })),
            None => (s1, Err(PathErr::NotFound)),
        }
    } else if p.segs.len() == 2 {
        let (s1, m) = intern_in(st, p.segs[0].name);
        match crate::fxmap::entry(env_here(cx).modules, m.raw) {
            None => (s1, Err(PathErr::UnknownModule)),
            Some(file) => {
                let (s2, n) = intern_in(s1, p.segs[1].name);
                match crate::hir::env_of(cx.scope, FileId { raw: file }) {
                    None => (s2, Err(PathErr::UnknownMember)),
                    Some(e) => match member_of(e, n) {
                        Some(d) => (s2, Ok(DefId { raw: d })),
                        None => (s2, Err(PathErr::UnknownMember)),
                    },
                }
            },
        }
    } else {
        (st, Err(PathErr::NotFound))
    }
}

/// Looks up variant `v` in the shape of `data`.
pub open spec fn variant_in(
    cx: CtxV,
    st: LowerV,
    data: DefId,
    v: IdentV,
) -> (LowerV, Result<(DefId, usize), VariantErr>) {
    let (s1, n) = intern_in(st, v.name);
    match crate::hir::shape_of(cx.scope, data) {
        None => (s1, Err(VariantErr::NotVariant(data))),
        Some(shape) => match crate::fxmap::entry(shape.variant_index, n.raw) {
            Some(i) => (s1, Ok((data, i))),
            None => (s1, Err(VariantErr::NotVariant(data))),
        },
    }
}

/// The data a name stands for in a file: its own, then imported.
pub open spec fn data_named(s: ModuleScopeV, e: FileEnvV, n: InternId) -> Option<usize> {
    either(
        crate::fxmap::entry(e.datas, n.raw),
        match crate::fxmap::entry(e.imports, n.raw) {
            Some(d) => if crate::hir::shape_of(s, DefId { raw: d }) is Some {
                Some(d)
            } else {
                None
            },
            None => None,
        },
    )
}

/// Resolves a variant path `T::V` or `m::T::V` to its data and
/// discriminant. `T` resolves through the file's data env (own `data`
/// defs and `use m::T` member imports); `m::T::V` reaches into a bound
/// module's data defs.
#[verifier::opaque]
pub open spec fn variant_of(
    cx: CtxV,
    st: LowerV,
    p: PathV,
) -> (LowerV, Result<(DefId, usize), VariantErr>) {
    if p.segs.len() == 2 {
        let (s1, t) = intern_in(st, p.segs[0].name);
        match data_named(cx.scope, env_here(cx), t) {
            None => (s1, Err(VariantErr::NotFound)),
            Some(d) => variant_in(cx, s1, DefId { raw: d }, p.segs[1]),
        }
    } else if p.segs.len() == 3 {
        let (s1, m) = intern_in(st, p.segs[0].name);
        match crate::fxmap::entry(env_here(cx).modules, m.raw) {
            None => (s1, Err(VariantErr::UnknownModule)),
            Some(file) => {
                let (s2, t) = intern_in(s1, p.segs[1].name);
                match crate::hir::env_of(cx.scope, FileId { raw: file }) {
                    None => (s2, Err(VariantErr::NotFound)),
                    Some(e) => match crate::fxmap::entry(e.datas, t.raw) {
                        None => (s2, Err(VariantErr::NotFound)),
                        Some(d) => variant_in(cx, s2, DefId { raw: d }, p.segs[2]),
                    },
                }
            },
        }
    } else {
        (st, Err(VariantErr::NotFound))
    }
}

/// An error about the path segment or name at `span`.
pub open spec fn name_error(code: Code, message: Seq<char>, span: Span, subject: Seq<char>) -> DiagnosticV {
    crate::diagnostic::error_of(code, message).with_primary(span).with_subject(subject)
}

/// `unknown module` at a segment.
pub open spec fn unknown_module(seg: IdentV) -> DiagnosticV {
    name_error(Code::UnknownModule, "unknown module `"@ + seg.name + "`"@, seg.span, seg.name)
}

/// The diagnostic for a failed [`variant_of`].
pub open spec fn variant_diag(cx: CtxV, st: LowerV, p: PathV, err: VariantErr) -> DiagnosticV {
    match err {
        VariantErr::UnknownModule => unknown_module(p.segs[0]),
        VariantErr::NotVariant(d) => name_error(
            Code::UnknownSymbol,
            "`"@ + crate::hir::def_text(cx.scope, st.names, d) + "` has no variant `"@
                + p.segs.last().name + "`"@,
            p.segs.last().span,
            p.segs.last().name,
        ),
        VariantErr::NotFound => name_error(
            Code::UnknownSymbol,
            "`"@ + crate::ast::path_text(p.segs) + "` does not name a `data` variant"@,
            p.span,
            crate::ast::path_text(p.segs),
        ),
    }
}

/// The diagnostic for a failed [`path_def`] — `code` covers the
/// member/name misses; an unknown module is always `E_UNKNOWN_MODULE`.
pub open spec fn path_diag(p: PathV, err: PathErr, what: Seq<char>, code: Code) -> DiagnosticV {
    match err {
        PathErr::UnknownModule => unknown_module(p.segs[0]),
        PathErr::UnknownMember => name_error(
            code,
            "module `"@ + p.segs[0].name + "` has no "@ + what + " `"@ + p.segs[1].name + "`"@,
            p.segs[1].span,
            p.segs[1].name,
        ),
        PathErr::NotFound => name_error(
            code,
            "unknown "@ + what + " `"@ + crate::ast::path_text(p.segs) + "`"@,
            p.span,
            crate::ast::path_text(p.segs),
        ),
    }
}

/// Describes a def-level name for a better "unknown binding" message.
pub open spec fn describe(cx: CtxV, n: InternId) -> Seq<char> {
    let e = env_here(cx);
    let imported = crate::fxmap::entry(e.imports, n.raw);
    if e.fns.contains_key(n.raw) || (imported matches Some(d) && crate::hir::sig_of(
        cx.scope,
        DefId { raw: d },
    ) is Some) {
        " (a function, not a value)"@
    } else if e.datas.contains_key(n.raw) || (imported matches Some(d) && crate::hir::shape_of(
        cx.scope,
        DefId { raw: d },
    ) is Some) {
        " (a type, not a value)"@
    } else {
        Seq::empty()
    }
}

// ---------- types ----------

/// Resolves a type inside a body.
#[verifier::opaque]
pub open spec fn lower_type(cx: CtxV, st: LowerV, t: TypeExprV) -> (LowerV, TypeRef)
    decreases t,
{
    match t {
        TypeExprV::Array { elem, span } => {
            let (s1, r) = lower_type(cx, st, *elem);
            array_type(s1, r, span)
        },
        TypeExprV::Named { path } => {
            let direct = if path.segs.len() == 1 {
                crate::hir::builtin(path.segs[0].name)
            } else {
                None
            };
            match direct {
                Some(r) => (st, r),
                None => {
                    let (s1, found) = path_def(cx, st, path);
                    match found {
                        Ok(d) => if crate::hir::shape_of(cx.scope, d) is Some {
                            (s1, TypeRef::Struct(d))
                        } else {
                            (report(s1, not_a_type(path)), TypeRef::Poison)
                        },
                        Err(e) => (
                            report(s1, path_diag(path, e, "type"@, Code::UnknownType)),
                            TypeRef::Poison,
                        ),
                    }
                },
            }
        },
    }
}

/// A function where a type was expected.
pub open spec fn not_a_type(p: PathV) -> DiagnosticV {
    name_error(
        Code::UnknownType,
        "`"@ + crate::ast::path_text(p.segs) + "` is a function, not a type"@,
        p.span,
        crate::ast::path_text(p.segs),
    )
}

/// The array type over a resolved element type.
pub open spec fn array_type(st: LowerV, elem: TypeRef, span: Span) -> (LowerV, TypeRef) {
    match elem {
        TypeRef::Poison => (st, TypeRef::Poison),
        TypeRef::Array { .. } => (
            report(
                st,
                crate::diagnostic::error_of(
                    Code::UnsupportedOperation,
                    "nested array types are not supported yet"@,
                ).with_primary(span),
            ),
            TypeRef::Poison,
        ),
        TypeRef::Unit => (
            report(
                st,
                crate::diagnostic::error_of(
                    Code::UnsupportedOperation,
                    "arrays cannot hold `unit` elements"@,
                ).with_primary(span),
            ),
            TypeRef::Poison,
        ),
        leaf => (st, TypeRef::Array { elem: crate::hir::elem_of(leaf)->0 }),
    }
}

// ---------- patterns & places ----------

/// The bindings of a variant pattern: `_` binds nothing.
pub open spec fn lower_binds(cx: CtxV, st: LowerV, binds: Seq<IdentV>) -> (LowerV, Seq<Option<SymbolId>>)
    decreases binds.len(),
{
    if binds.len() == 0 {
        (st, Seq::empty())
    } else {
        let (s1, done) = lower_binds(cx, st, binds.drop_last());
        if binds.last().name == "_"@ {
            (s1, done.push(None))
        } else {
            let (s2, id) = declare(cx, s1, binds.last(), SymbolKind::Local, false);
            (s2, done.push(Some(id)))
        }
    }
}

/// Lowers a match pattern inside the current (arm) scope.
#[verifier::opaque]
pub open spec fn lower_pattern(cx: CtxV, st: LowerV, p: PatternV) -> (LowerV, HirPatV) {
    match p {
        PatternV::Bind { name } => if name.name == "_"@ {
            (st, HirPatV::Bind { sym: None, span: name.span })
        } else {
            let (s1, id) = declare(cx, st, name, SymbolKind::Local, false);
            (s1, HirPatV::Bind { sym: Some(id), span: name.span })
        },
        PatternV::Variant { path, binds, span } => {
            let (s1, found) = variant_of(cx, st, path);
            match found {
                Ok((def, variant)) => {
                    let (s2, bound) = lower_binds(cx, s1, binds);
                    (s2, HirPatV::Variant { def, variant, binds: bound, span })
                },
                Err(e) => (report(s1, variant_diag(cx, s1, path, e)), HirPatV::Poison),
            }
        },
    }
}

/// Interns the names of a field chain.
pub open spec fn lower_names(st: LowerV, v: Seq<IdentV>) -> (LowerV, Seq<Name>)
    decreases v.len(),
{
    if v.len() == 0 {
        (st, Seq::empty())
    } else {
        let (s1, done) = lower_names(st, v.drop_last());
        let (s2, n) = intern_in(s1, v.last().name);
        (s2, done.push(Name { id: n, span: v.last().span }))
    }
}

/// An unbound name in value or place position.
pub open spec fn unknown_binding(name: IdentV, what: Seq<char>) -> DiagnosticV {
    name_error(
        Code::UnknownSymbol,
        "unknown binding `"@ + name.name + "`"@ + what,
        name.span,
        name.name,
    )
}

/// Lowers an assignment target.
#[verifier::opaque]
pub open spec fn lower_place(st: LowerV, p: PlaceV) -> (LowerV, Option<HirPlaceV>) {
    let (s1, n) = intern_in(st, p.base.name);
    match lookup(s1.scopes, n) {
        Some(base) => {
            let (s2, fields) = lower_names(s1, p.fields);
            (
                s2,
                Some(
                    HirPlaceV {
                        base,
                        fields,
                        span: crate::source::span_cover(
                            p.base.span,
                            if p.fields.len() > 0 {
                                p.fields.last().span
                            } else {
                                p.base.span
                            },
                        ),
                    },
                ),
            )
        },
        None => (report(s1, unknown_binding(p.base, Seq::empty())), None),
    }
}

// ---------- expressions ----------

/// A callee that is no function.
pub open spec fn not_a_function(p: PathV, code: Code) -> DiagnosticV {
    name_error(
        code,
        "`"@ + crate::ast::path_text(p.segs) + "` is not a function"@,
        p.span,
        crate::ast::path_text(p.segs),
    )
}

/// A definition in value position.
pub open spec fn not_a_value(p: PathV, what: Seq<char>) -> DiagnosticV {
    name_error(
        Code::UnknownSymbol,
        "`"@ + crate::ast::path_text(p.segs) + "` is "@ + what + ", not a value"@,
        p.span,
        crate::ast::path_text(p.segs),
    )
}

/// A poisoned node behind a diagnostic.
pub open spec fn poison(st: LowerV, d: DiagnosticV, span: Span) -> (LowerV, ExprId) {
    alloc_node(report(st, d), HirExprKindV::Poison, span)
}

/// A path that may still construct a variant: the node for it, or the
/// diagnostic of the path error `e`.
#[verifier::opaque]
pub open spec fn variant_or(
    cx: CtxV,
    st: LowerV,
    p: PathV,
    args: Seq<ExprId>,
    e: PathErr,
    what: Seq<char>,
    span: Span,
) -> (LowerV, ExprId) {
    let (s1, found) = variant_of(cx, st, p);
    match found {
        Ok((def, variant)) => alloc_node(s1, HirExprKindV::VariantLit { def, variant, args }, span),
        Err(VariantErr::NotVariant(d)) => poison(
            s1,
            variant_diag(cx, s1, p, VariantErr::NotVariant(d)),
            span,
        ),
        Err(_) => poison(s1, path_diag(p, e, what, Code::UnknownSymbol), span),
    }
}

/// Resolves the callee of a call whose arguments are lowered.
#[verifier::opaque]
pub open spec fn lower_callee(
    cx: CtxV,
    st: LowerV,
    callee: PathV,
    args: Seq<ExprId>,
    span: Span,
) -> (LowerV, ExprId) {
    let (s1, found) = path_def(cx, st, callee);
    match found {
        Ok(d) => if crate::hir::sig_of(cx.scope, d) is Some {
            alloc_node(s1, HirExprKindV::Call { def: d, args }, span)
        } else {
            poison(s1, not_a_function(callee, Code::NotCallable), span)
        },
        Err(e) => if e == PathErr::NotFound && callee.segs.len() == 1 {
            let (s2, n) = intern_in(s1, callee.segs[0].name);
            let code = if lookup(s2.scopes, n) is Some {
                Code::NotCallable
            } else {
                Code::UnknownSymbol
            };
            poison(s2, not_a_function(callee, code), span)
        } else {
            variant_or(cx, s1, callee, args, e, "function"@, span)
        },
    }
}

/// Resolves a path in value position.
#[verifier::opaque]
pub open spec fn lower_path(cx: CtxV, st: LowerV, p: PathV, span: Span) -> (LowerV, ExprId) {
    let (s1, found) = path_def(cx, st, p);
    match found {
        Ok(d) => poison(
            s1,
            not_a_value(
                p,
                if crate::hir::sig_of(cx.scope, d) is Some {
                    "a function"@
                } else {
                    "a type"@
                },
            ),
            span,
        ),
        Err(e) => variant_or(cx, s1, p, Seq::empty(), e, "symbol"@, span),
    }
}

/// Resolves the type of a struct literal whose fields are lowered.
#[verifier::opaque]
pub open spec fn lower_struct(
    cx: CtxV,
    st: LowerV,
    name: PathV,
    fields: Seq<(Name, ExprId)>,
    span: Span,
) -> (LowerV, ExprId) {
    let (s1, found) = path_def(cx, st, name);
    match found {
        Ok(d) => if crate::hir::shape_of(cx.scope, d) is Some {
            alloc_node(s1, HirExprKindV::StructLit { def: d, fields }, span)
        } else {
            poison(s1, not_a_type(name), span)
        },
        Err(e) => poison(s1, path_diag(name, e, "type"@, Code::UnknownType), span),
    }
}

/// Resolves a plain name in value position.
#[verifier::opaque]
pub open spec fn lower_var(cx: CtxV, st: LowerV, name: IdentV, span: Span) -> (LowerV, ExprId) {
    let (s1, n) = intern_in(st, name.name);
    match lookup(s1.scopes, n) {
        Some(sym) => alloc_node(s1, HirExprKindV::Var(sym), span),
        None => poison(s1, unknown_binding(name, describe(cx, n)), span),
    }
}

/// Lowers an expression.
pub open spec fn lower_expr(cx: CtxV, st: LowerV, e: ExprV) -> (LowerV, ExprId)
    decreases e,
{
    match e {
        ExprV::Literal { value, span } => alloc_node(st, HirExprKindV::Literal(value), span),
        ExprV::Var { name } => lower_var(cx, st, name, name.span),
        ExprV::Call { callee, args, span } => {
            let (s1, ids) = lower_exprs(cx, st, args);
            lower_callee(cx, s1, callee, ids, span)
        },
        ExprV::Path { path } => lower_path(cx, st, path, path.span),
        ExprV::Field { base, name, span } => {
            let (s1, b) = lower_expr(cx, st, *base);
            let (s2, n) = intern_in(s1, name.name);
            alloc_node(
                s2,
                HirExprKindV::Field { base: b, name: Name { id: n, span: name.span }, field: None },
                span,
            )
        },
        ExprV::Index { base, index, span } => {
            let (s1, b) = lower_expr(cx, st, *base);
            let (s2, i) = lower_expr(cx, s1, *index);
            alloc_node(s2, HirExprKindV::Index { base: b, index: i }, span)
        },
        ExprV::Slice { base, lo, hi, span } => {
            let (s1, b) = lower_expr(cx, st, *base);
            let (s2, l) = match lo {
                Some(x) => {
                    let (s, id) = lower_expr(cx, s1, *x);
                    (s, Some(id))
                },
                None => (s1, None),
            };
            let (s3, h) = match hi {
                Some(x) => {
                    let (s, id) = lower_expr(cx, s2, *x);
                    (s, Some(id))
                },
                None => (s2, None),
            };
            alloc_node(s3, HirExprKindV::Slice { base: b, lo: l, hi: h }, span)
        },
        ExprV::ArrayLit { elems, span } => {
            let (s1, ids) = lower_exprs(cx, st, elems);
            alloc_node(s1, HirExprKindV::ArrayLit { elems: ids }, span)
        },
        ExprV::Range { lo, hi, span } => {
            let (s1, l) = match lo {
                Some(x) => {
                    let (s, id) = lower_expr(cx, st, *x);
                    (s, Some(id))
                },
                None => (st, None),
            };
            let (s2, h) = match hi {
                Some(x) => {
                    let (s, id) = lower_expr(cx, s1, *x);
                    (s, Some(id))
                },
                None => (s1, None),
            };
            alloc_node(s2, HirExprKindV::Range { lo: l, hi: h }, span)
        },
        ExprV::For { var, mutable, iter, body, span } => {
            let (s1, i) = lower_expr(cx, st, *iter);
            let (s2, v) = declare(cx, open_scope(s1), var, SymbolKind::Local, mutable);
            let (s3, b) = lower_block(cx, s2, body);
            alloc_node(close_scope(s3), HirExprKindV::For { var: v, iter: i, body: b }, span)
        },
        ExprV::Match { scrutinee, arms, span } => {
            let (s1, s) = lower_expr(cx, st, *scrutinee);
            let (s2, hir) = lower_arms(cx, s1, arms);
            alloc_node(s2, HirExprKindV::Match { scrutinee: s, arms: hir }, span)
        },
        ExprV::Binary { op, lhs, rhs, span } => {
            let (s1, l) = lower_expr(cx, st, *lhs);
            let (s2, r) = lower_expr(cx, s1, *rhs);
            alloc_node(s2, HirExprKindV::Binary { op, lhs: l, rhs: r }, span)
        },
        ExprV::Unary { op, expr, span } => {
            let (s1, i) = lower_expr(cx, st, *expr);
            alloc_node(s1, HirExprKindV::Unary { op, expr: i }, span)
        },
        ExprV::If { cond, then_, else_, span } => {
            let (s1, c) = lower_expr(cx, st, *cond);
            let (s2, t) = lower_block(cx, s1, then_);
            let (s3, f) = match else_ {
                Some(x) => {
                    let (s, id) = lower_expr(cx, s2, *x);
                    (s, Some(id))
                },
                None => (s2, None),
            };
            alloc_node(s3, HirExprKindV::If { cond: c, then_: t, else_: f }, span)
        },
        ExprV::Block { block, span: _ } => lower_block(cx, st, block),
        ExprV::StructLit { name, fields, span } => {
            let (s1, fs) = lower_inits(cx, st, fields);
            lower_struct(cx, s1, name, fs, span)
        },
        ExprV::Error { span } => alloc_node(st, HirExprKindV::Poison, span),
    }
}

/// Lowers expressions left to right.
pub open spec fn lower_exprs(cx: CtxV, st: LowerV, es: Seq<ExprV>) -> (LowerV, Seq<ExprId>)
    decreases es,
{
    if es.len() == 0 {
        (st, Seq::empty())
    } else {
        let (s1, ids) = lower_exprs(cx, st, es.drop_last());
        let (s2, id) = lower_expr(cx, s1, es.last());
        (s2, ids.push(id))
    }
}

/// Lowers struct-literal fields in written order.
pub open spec fn lower_inits(cx: CtxV, st: LowerV, fs: Seq<FieldInitV>) -> (LowerV, Seq<(Name, ExprId)>)
    decreases fs,
{
    if fs.len() == 0 {
        (st, Seq::empty())
    } else {
        let (s1, done) = lower_inits(cx, st, fs.drop_last());
        let f = fs.last();
        let (s2, n) = intern_in(s1, f.name.name);
        let (s3, v) = lower_expr(cx, s2, f.value);
        (s3, done.push((Name { id: n, span: f.name.span }, v)))
    }
}

/// Lowers match arms in written order. Each arm is its own scope:
/// pattern bindings are visible in the arm body only.
pub open spec fn lower_arms(cx: CtxV, st: LowerV, arms: Seq<MatchArmV>) -> (LowerV, Seq<HirArmV>)
    decreases arms,
{
    if arms.len() == 0 {
        (st, Seq::empty())
    } else {
        let (s1, done) = lower_arms(cx, st, arms.drop_last());
        let a = arms.last();
        let (s2, pat) = lower_pattern(cx, open_scope(s1), a.pat);
        let (s3, body) = lower_expr(cx, s2, a.body);
        (close_scope(s3), done.push(HirArmV { pat, body, span: a.span }))
    }
}

/// Lowers a block in a scope of its own.
pub open spec fn lower_block(cx: CtxV, st: LowerV, b: BlockV) -> (LowerV, ExprId)
    decreases b,
{
    let (s1, stmts) = lower_stmts(cx, open_scope(st), b.stmts);
    let (s2, tail) = match b.tail {
        Some(x) => {
            let (s, id) = lower_expr(cx, s1, *x);
            (s, Some(id))
        },
        None => (s1, None),
    };
    alloc_node(close_scope(s2), HirExprKindV::Block { stmts, tail }, b.span)
}

/// Lowers statements in order; one whose target is unknown drops out.
pub open spec fn lower_stmts(cx: CtxV, st: LowerV, ss: Seq<StmtV>) -> (LowerV, Seq<HirStmtV>)
    decreases ss,
{
    if ss.len() == 0 {
        (st, Seq::empty())
    } else {
        let (s1, done) = lower_stmts(cx, st, ss.drop_last());
        let (s2, stmt) = lower_stmt(cx, s1, ss.last());
        match stmt {
            Some(x) => (s2, done.push(x)),
            None => (s2, done),
        }
    }
}

/// Lowers a statement.
pub open spec fn lower_stmt(cx: CtxV, st: LowerV, s: StmtV) -> (LowerV, Option<HirStmtV>)
    decreases s,
{
    match s {
        StmtV::Let { name, mutable, ty, init, span } => {
            let (s1, i) = match init {
                Some(x) => {
                    let (s, id) = lower_expr(cx, st, x);
                    (s, Some(id))
                },
                None => (st, None),
            };
            let (s2, t) = match ty {
                Some(x) => {
                    let (s, r) = lower_type(cx, s1, x);
                    (s, Some(r))
                },
                None => (s1, None),
            };
            let (s3, symbol) = declare(cx, s2, name, SymbolKind::Local, mutable);
            (s3, Some(HirStmtV::Let { symbol, ty: t, init: i, span }))
        },
        StmtV::Assign { target, value, span } => {
            let (s1, v) = lower_expr(cx, st, value);
            let (s2, place) = lower_place(s1, target);
            match place {
                Some(p) => (s2, Some(HirStmtV::Assign { target: p, value: v, span })),
                None => (s2, None),
            }
        },
        StmtV::Expr { expr, has_semi, span: _ } => {
            let (s1, x) = lower_expr(cx, st, expr);
            (s1, Some(HirStmtV::Expr { expr: x, has_semi }))
        },
        StmtV::Return { value, span } => {
            let (s1, v) = match value {
                Some(x) => {
                    let (s, id) = lower_expr(cx, st, x);
                    (s, Some(id))
                },
                None => (st, None),
            };
            (s1, Some(HirStmtV::Return { value: v, span }))
        },
    }
}

/// Declares the parameters of a function, in order.
pub open spec fn lower_params(cx: CtxV, st: LowerV, ps: Seq<ParamV>) -> LowerV
    decreases ps.len(),
{
    if ps.len() == 0 {
        st
    } else {
        let s1 = lower_params(cx, st, ps.drop_last());
        declare(cx, s1, ps.last().name, SymbolKind::Param, ps.last().mutable).0
    }
}

/// A body before anything of it was lowered: one scope, for the
/// parameters.
pub open spec fn lower_start(names: Seq<Seq<char>>, diags: Seq<DiagnosticV>, stamp: Option<FileId>) -> LowerV {
    LowerV {
        names,
        diags,
        stamp,
        exprs: Seq::empty(),
        locals: Seq::empty(),
        scopes: seq![Map::empty()],
    }
}

/// The whole lowering of one function, before its diagnostics are
/// tagged.
pub open spec fn lower_run(cx: CtxV, st: LowerV, f: FnDeclV) -> (LowerV, ExprId) {
    lower_block(cx, lower_params(cx, st, f.params), f.body)
}

/// The context of def `def` in `scope`.
pub open spec fn ctx_of(scope: ModuleScopeV, def: DefId) -> CtxV {
    CtxV { def, file: scope.defs[def.raw as int].file, scope }
}

// ---------- the lowering itself ----------

/// An error about the path segment or name at `span`.
fn err_at(code: Code, message: String, span: Span, subject: &str) -> (r: Diagnostic)
    ensures
        r@ == name_error(code, message@, span, subject@),
{
    Diagnostic::error(code, message).primary(span).subject(subject.to_owned())
}

/// `unknown module` at a segment.
fn err_module(seg: &Ident) -> (r: Diagnostic)
    ensures
        r@ == unknown_module(seg@),
{
    err_at(
        Code::UnknownModule,
        cat3("unknown module `", seg.name.as_str(), "`"),
        seg.span,
        seg.name.as_str(),
    )
}

/// The diagnostic for a failed path lookup.
fn err_path(p: &Path, err: PathErr, what: &str, code: Code) -> (r: Diagnostic)
    requires
        err == PathErr::UnknownModule ==> p@.segs.len() >= 1,
        err == PathErr::UnknownMember ==> p@.segs.len() >= 2,
    ensures
        r@ == path_diag(p@, err, what@, code),
{
    match err {
        PathErr::UnknownModule => err_module(&p.segs[0]),
        PathErr::UnknownMember => {
            let mut m = cat5("module `", p.segs[0].name.as_str(), "` has no ", what, " `");
            m.append(p.segs[1].name.as_str());
            m.append("`");
            err_at(code, m, p.segs[1].span, p.segs[1].name.as_str())
        },
        PathErr::NotFound => {
            let text = p.display();
            err_at(
                code,
                cat5("unknown ", what, " `", text.as_str(), "`"),
                p.span,
                text.as_str(),
            )
        },
    }
}

/// A function where a type was expected.
fn err_not_type(p: &Path) -> (r: Diagnostic)
    ensures
        r@ == not_a_type(p@),
{
    let text = p.display();
    err_at(
        Code::UnknownType,
        cat3("`", text.as_str(), "` is a function, not a type"),
        p.span,
        text.as_str(),
    )
}

/// A callee that is no function.
fn err_not_function(p: &Path, code: Code) -> (r: Diagnostic)
    ensures
        r@ == not_a_function(p@, code),
{
    let text = p.display();
    err_at(code, cat3("`", text.as_str(), "` is not a function"), p.span, text.as_str())
}

/// A definition in value position.
fn err_not_value(p: &Path, what: &str) -> (r: Diagnostic)
    ensures
        r@ == not_a_value(p@, what@),
{
    let text = p.display();
    err_at(
        Code::UnknownSymbol,
        cat5("`", text.as_str(), "` is ", what, ", not a value"),
        p.span,
        text.as_str(),
    )
}

/// An unbound name in value or place position.
fn err_binding(name: &Ident, what: &str) -> (r: Diagnostic)
    ensures
        r@ == unknown_binding(name@, what@),
{
    err_at(
        Code::UnknownSymbol,
        cat4("unknown binding `", name.name.as_str(), "`", what),
        name.span,
        name.name.as_str(),
    )
}

impl<'a> Ctx<'a> {
    /// An own or imported def of the body's file.
    fn bare(&self, n: InternId) -> (r: Option<usize>)
        ensures
            r == either(
                member_of(env_here(self@), n),
                crate::fxmap::entry(env_here(self@).imports, n.raw),
            ),
    {
        match self.scope.env(self.file) {
            None => None,
            Some(e) => match e.fns.get(n.raw) {
                Some(d) => Some(d),
                None => match e.datas.get(n.raw) {
                    Some(d) => Some(d),
                    None => e.imports.get(n.raw),
                },
            },
        }
    }

    /// The file a module name is bound to in the body's file.
    fn module(&self, n: InternId) -> (r: Option<usize>)
        ensures
            r == crate::fxmap::entry(env_here(self@).modules, n.raw),
    {
        match self.scope.env(self.file) {
            None => None,
            Some(e) => e.modules.get(n.raw),
        }
    }

    /// The data a name stands for in the body's file.
    fn data(&self, n: InternId) -> (r: Option<usize>)
        ensures
            r == data_named(self@.scope, env_here(self@), n),
    {
        match self.scope.env(self.file) {
            None => None,
            Some(e) => match e.datas.get(n.raw) {
                Some(d) => Some(d),
                None => match e.imports.get(n.raw) {
                    Some(d) => if self.scope.data_shape(DefId { raw: d }).is_some() {
                        Some(d)
                    } else {
                        None
                    },
                    None => None,
                },
            },
        }
    }

    /// Describes a def-level name for a better "unknown binding"
    /// message.
    fn describe_def(&self, n: InternId) -> (r: &'static str)
        ensures
            r@ == describe(self@, n),
    {
        proof {
            reveal_strlit("");
        }
        let r = match self.scope.env(self.file) {
            None => "",
            Some(e) => {
                let imported = e.imports.get(n.raw);
                let is_fn = e.fns.contains_key(n.raw) || (match imported {
                    Some(d) => self.scope.fn_sig(DefId { raw: d }).is_some(),
                    None => false,
                });
                let is_data = e.datas.contains_key(n.raw) || (match imported {
                    Some(d) => self.scope.data_shape(DefId { raw: d }).is_some(),
                    None => false,
                });
                if is_fn {
                    " (a function, not a value)"
                } else if is_data {
                    " (a type, not a value)"
                } else {
                    ""
                }
            },
        };
        proof {
            assert(""@ =~= Seq::<char>::empty());
        }
        r
    }
}

impl BodyLowerer {
    /// The model of this state.
    pub closed spec fn view(&self) -> LowerV {
        LowerV {
            names: self.interner@,
            diags: self.diags@,
            stamp: self.diags.stamp(),
            exprs: crate::hir::hir_exprs(self.exprs@),
            locals: self.locals@,
            scopes: maps_view(self.scopes@),
        }
    }

    fn intern(&mut self, name: &str) -> (r: InternId)
        ensures
            (final(self)@, r) == intern_in(old(self)@, name@),
    {
        self.interner.intern(name)
    }

    fn push_diag(&mut self, d: Diagnostic)
        ensures
            final(self)@ == report(old(self)@, d@),
    {
        self.diags.push(d);
    }

    fn alloc_expr(&mut self, kind: HirExprKind, span: Span) -> (r: ExprId)
        ensures
            (final(self)@, r) == alloc_node(old(self)@, kind@, span),
    {
        let id = ExprId { raw: self.exprs.len() };
        self.exprs.push(HirExpr { id, kind, span });
        proof {
            assert(self@.exprs =~= alloc_node(old(self)@, kind@, span).0.exprs);
        }
        id
    }

    fn alloc_poison(&mut self, d: Diagnostic, span: Span) -> (r: ExprId)
        ensures
            (final(self)@, r) == poison(old(self)@, d@, span),
    {
        self.push_diag(d);
        self.alloc_expr(HirExprKind::Poison, span)
    }

    fn name_of(&mut self, ident: &Ident) -> (r: Name)
        ensures
            final(self)@ == intern_in(old(self)@, ident@.name).0,
            r == (Name { id: intern_in(old(self)@, ident@.name).1, span: ident@.span }),
    {
        Name { id: self.intern(ident.name.as_str()), span: ident.span }
    }

    fn lookup(&self, id: InternId) -> (r: Option<SymbolId>)
        ensures
            r == lookup(self@.scopes, id),
    {
        let mut n: usize = self.scopes.len();
        let ghost all = self@.scopes;
        proof {
            assert(all.take(n as int) =~= all);
        }
        while n > 0
            invariant
                n <= self.scopes@.len(),
                all == maps_view(self.scopes@),
                lookup(all.take(n as int), id) == lookup(all, id),
            decreases n,
        {
            proof {
                assert(all.take(n as int).last() == self.scopes@[n - 1]@);
                assert(all.take(n as int).drop_last() =~= all.take(n - 1));
            }
            if let Some(i) = self.scopes[n - 1].get(id.raw) {
                return Some(SymbolId::Local(i));
            }
            n -= 1;
        }
        None
    }

    fn declare_sym(&mut self, cx: &Ctx, ident: &Ident, kind: SymbolKind, mutable: bool) -> (r:
        SymbolId)
        ensures
            (final(self)@, r) == declare(cx@, old(self)@, ident@, kind, mutable),
    {
        proof {
            reveal(declare);
        }
        let n = self.intern(ident.name.as_str());
        let slot: usize = self.locals.len();
        let id = SymbolId::Local(slot);
        let ghost before = self@;
        self.locals.push(
            Symbol { id, name: n, kind, mutable, owner: Some(cx.def), span: ident.span },
        );
        match self.scopes.pop() {
            Some(top) => {
                let mut m = top;
                m.insert(n.raw, slot);
                self.scopes.push(m);
                proof {
                    assert(self@.scopes =~= before.scopes.drop_last().push(
                        before.scopes.last().insert(n.raw, slot),
                    ));
                }
            },
            None => {
                proof {
                    assert(self@.scopes =~= before.scopes);
                }
            },
        }
        id
    }

    fn open(&mut self)
        ensures
            final(self)@ == open_scope(old(self)@),
    {
        self.scopes.push(IdMap::new());
        proof {
            assert(self@.scopes =~= old(self)@.scopes.push(Map::empty()));
        }
    }

    fn close(&mut self)
        ensures
            final(self)@ == close_scope(old(self)@),
    {
        let _ = self.scopes.pop();
        proof {
            assert(self@.scopes =~= close_scope(old(self)@).scopes);
        }
    }

    /// Resolves a `path` (`x` or `m::x`) to a definition through this
    /// file's env. Any def kind may come back — callers check.
    fn path_def(&mut self, cx: &Ctx, path: &Path) -> (r: Result<DefId, PathErr>)
        ensures
            (final(self)@, r) == path_def(cx@, old(self)@, path@),
            r == Err::<DefId, PathErr>(PathErr::UnknownModule) ==> path@.segs.len() == 2,
            r == Err::<DefId, PathErr>(PathErr::UnknownMember) ==> path@.segs.len() == 2,
    {
        proof {
            reveal(path_def);
        }
        if path.segs.len() == 1 {
            let n = self.intern(path.segs[0].name.as_str());
            match cx.bare(n) {
                Some(d) => Ok(DefId { raw: d }),
                None => Err(PathErr::NotFound),
            }
        } else if path.segs.len() == 2 {
            let m = self.intern(path.segs[0].name.as_str());
            match cx.module(m) {
                None => Err(PathErr::UnknownModule),
                Some(file) => {
                    let n = self.intern(path.segs[1].name.as_str());
                    match cx.scope.env(FileId { raw: file }) {
                        None => Err(PathErr::UnknownMember),
                        Some(e) => match e.fns.get(n.raw) {
                            Some(d) => Ok(DefId { raw: d }),
                            None => match e.datas.get(n.raw) {
                                Some(d) => Ok(DefId { raw: d }),
                                None => Err(PathErr::UnknownMember),
                            },
                        },
                    }
                },
            }
        } else {
            Err(PathErr::NotFound)
        }
    }

    /// Looks up variant `v` in `data`'s shape.
    fn variant_index_of(&mut self, cx: &Ctx, data: DefId, v: &Ident) -> (r: Result<
        (DefId, usize),
        VariantErr,
    >)
        ensures
            (final(self)@, r) == variant_in(cx@, old(self)@, data, v@),
            !(r matches Err(VariantErr::UnknownModule)),
    {
        let n = self.intern(v.name.as_str());
        match cx.scope.data_shape(data) {
            None => Err(VariantErr::NotVariant(data)),
            Some(shape) => match shape.variant_index.get(n.raw) {
                Some(i) => Ok((data, i)),
                None => Err(VariantErr::NotVariant(data)),
            },
        }
    }

    /// Resolves a variant path `T::V` or `m::T::V` to `(data DefId,
    /// discriminant index)`.
    fn resolve_variant(&mut self, cx: &Ctx, path: &Path) -> (r: Result<(DefId, usize), VariantErr>)
        ensures
            (final(self)@, r) == variant_of(cx@, old(self)@, path@),
            r matches Err(VariantErr::UnknownModule) ==> path@.segs.len() > 0,
            r matches Err(VariantErr::NotVariant(_)) ==> path@.segs.len() > 0,
    {
        proof {
            reveal(variant_of);
        }
        if path.segs.len() == 2 {
            let t = self.intern(path.segs[0].name.as_str());
            match cx.data(t) {
                None => Err(VariantErr::NotFound),
                Some(d) => self.variant_index_of(cx, DefId { raw: d }, &path.segs[1]),
            }
        } else if path.segs.len() == 3 {
            let m = self.intern(path.segs[0].name.as_str());
            match cx.module(m) {
                None => Err(VariantErr::UnknownModule),
                Some(file) => {
                    let t = self.intern(path.segs[1].name.as_str());
                    match cx.scope.env(FileId { raw: file }) {
                        None => Err(VariantErr::NotFound),
                        Some(e) => match e.datas.get(t.raw) {
                            None => Err(VariantErr::NotFound),
                            Some(d) => self.variant_index_of(
                                cx,
                                DefId { raw: d },
                                &path.segs[2],
                            ),
                        },
                    }
                },
            }
        } else {
            Err(VariantErr::NotFound)
        }
    }

    /// The diagnostic for a failed [`Self::resolve_variant`].
    fn variant_error(&self, cx: &Ctx, path: &Path, err: VariantErr) -> (r: Diagnostic)
        requires
            !(err is NotFound) ==> path@.segs.len() > 0,
        ensures
            r@ == variant_diag(cx@, self@, path@, err),
    {
        match err {
            VariantErr::UnknownModule => err_module(&path.segs[0]),
            VariantErr::NotVariant(d) => {
                let data = cx.scope.def_display(&self.interner, d);
                let last = &path.segs[path.segs.len() - 1];
                err_at(
                    Code::UnknownSymbol,
                    cat5("`", data, "` has no variant `", last.name.as_str(), "`"),
                    last.span,
                    last.name.as_str(),
                )
            },
            VariantErr::NotFound => {
                let text = path.display();
                err_at(
                    Code::UnknownSymbol,
                    cat3("`", text.as_str(), "` does not name a `data` variant"),
                    path.span,
                    text.as_str(),
                )
            },
        }
    }

    /// Resolves a type inside the body.
    fn resolve_type(&mut self, cx: &Ctx, ty: &TypeExpr) -> (r: TypeRef)
        ensures
            (final(self)@, r) == lower_type(cx@, old(self)@, ty@),
        decreases ty,
    {
        proof {
            reveal(lower_type);
            reveal(path_def);
        }
        match ty {
            TypeExpr::Array { elem, span } => {
                let inner = self.resolve_type(cx, elem);
                match inner {
                    TypeRef::Poison => TypeRef::Poison,
                    TypeRef::Array { .. } => {
                        let d = Diagnostic::error(
                            Code::UnsupportedOperation,
                            "nested array types are not supported yet".to_owned(),
                        ).primary(*span);
                        self.push_diag(d);
                        TypeRef::Poison
                    },
                    TypeRef::Unit => {
                        let d = Diagnostic::error(
                            Code::UnsupportedOperation,
                            "arrays cannot hold `unit` elements".to_owned(),
                        ).primary(*span);
                        self.push_diag(d);
                        TypeRef::Poison
                    },
                    leaf => TypeRef::Array { elem: ElemRef::of(leaf).unwrap() },
                }
            },
            TypeExpr::Named { path } => {
                if path.segs.len() == 1 {
                    if let Some(r) = builtin_type(path.segs[0].name.as_str()) {
                        return r;
                    }
                }
                match self.path_def(cx, path) {
                    Ok(d) => if cx.scope.data_shape(d).is_some() {
                        TypeRef::Struct(d)
                    } else {
                        self.push_diag(err_not_type(path));
                        TypeRef::Poison
                    },
                    Err(e) => {
                        self.push_diag(err_path(path, e, "type", Code::UnknownType));
                        TypeRef::Poison
                    },
                }
            },
        }
    }

    fn binds(&mut self, cx: &Ctx, binds: &Vec<Ident>) -> (r: Vec<Option<SymbolId>>)
        ensures
            (final(self)@, r@) == lower_binds(cx@, old(self)@, crate::ast::idents(binds@)),
    {
        let ghost all = crate::ast::idents(binds@);
        let ghost st0 = self@;
        let mut out: Vec<Option<SymbolId>> = Vec::new();
        let mut i: usize = 0;
        proof {
            assert(all.take(0) =~= Seq::empty());
            assert(out@ =~= Seq::empty());
        }
        while i < binds.len()
            invariant
                i <= binds@.len(),
                all == crate::ast::idents(binds@),
                (self@, out@) == lower_binds(cx@, st0, all.take(i as int)),
            decreases binds@.len() - i,
        {
            proof {
                assert(all.take(i + 1).drop_last() =~= all.take(i as int));
                assert(all.take(i + 1).last() == binds@[i as int]@);
            }
            if same(binds[i].name.as_str(), "_") {
                out.push(None);
            } else {
                let id = self.declare_sym(cx, &binds[i], SymbolKind::Local, false);
                out.push(Some(id));
            }
            i += 1;
        }
        proof {
            assert(all.take(all.len() as int) =~= all);
        }
        out
    }

    /// Lowers a match pattern inside the current (arm) scope.
    /// `T::V(b, ..)` resolves the variant and declares each payload
    /// binding (`_` slots bind nothing); a bare `x` declares a binding
    /// for the whole scrutinee and `_` is the wildcard.
    fn pattern(&mut self, cx: &Ctx, pat: &Pattern) -> (r: HirPat)
        ensures
            (final(self)@, r@) == lower_pattern(cx@, old(self)@, pat@),
    {
        proof {
            reveal(lower_pattern);
            reveal(variant_of);
        }
        match pat {
            Pattern::Bind { name } => {
                if same(name.name.as_str(), "_") {
                    HirPat::Bind { sym: None, span: name.span }
                } else {
                    let id = self.declare_sym(cx, name, SymbolKind::Local, false);
                    HirPat::Bind { sym: Some(id), span: name.span }
                }
            },
            Pattern::Variant { path, binds, span } => match self.resolve_variant(cx, path) {
                Ok((def, variant)) => {
                    let bound = self.binds(cx, binds);
                    HirPat::Variant { def, variant, binds: bound, span: *span }
                },
                Err(e) => {
                    let d = self.variant_error(cx, path, e);
                    self.push_diag(d);
                    HirPat::Poison
                },
            },
        }
    }

    fn names(&mut self, v: &Vec<Ident>) -> (r: Vec<Name>)
        ensures
            (final(self)@, r@) == lower_names(old(self)@, crate::ast::idents(v@)),
    {
        let ghost all = crate::ast::idents(v@);
        let ghost st0 = self@;
        let mut out: Vec<Name> = Vec::new();
        let mut i: usize = 0;
        proof {
            assert(all.take(0) =~= Seq::empty());
            assert(out@ =~= Seq::empty());
        }
        while i < v.len()
            invariant
                i <= v@.len(),
                all == crate::ast::idents(v@),
                (self@, out@) == lower_names(st0, all.take(i as int)),
            decreases v@.len() - i,
        {
            proof {
                assert(all.take(i + 1).drop_last() =~= all.take(i as int));
                assert(all.take(i + 1).last() == v@[i as int]@);
            }
            let n = self.name_of(&v[i]);
            out.push(n);
            i += 1;
        }
        proof {
            assert(all.take(all.len() as int) =~= all);
        }
        out
    }

    fn place(&mut self, place: &Place) -> (r: Option<HirPlace>)
        ensures
            final(self)@ == lower_place(old(self)@, place@).0,
            (match r {
                Some(p) => Some(p@),
                None => None,
            }) == lower_place(old(self)@, place@).1,
    {
        proof {
            reveal(lower_place);
        }
        let n = self.intern(place.base.name.as_str());
        match self.lookup(n) {
            Some(base) => {
                let fields = self.names(&place.fields);
                let end = if place.fields.len() > 0 {
                    place.fields[place.fields.len() - 1].span
                } else {
                    place.base.span
                };
                Some(HirPlace { base, fields, span: place.base.span.covering(end) })
            },
            None => {
                proof {
                    reveal_strlit("");
                    assert(""@ =~= Seq::<char>::empty());
                }
                self.push_diag(err_binding(&place.base, ""));
                None
            },
        }
    }

    fn variant_or_path(
        &mut self,
        cx: &Ctx,
        p: &Path,
        args: Vec<ExprId>,
        e: PathErr,
        what: &str,
        span: Span,
    ) -> (r: ExprId)
        requires
            !(e is NotFound) ==> p@.segs.len() == 2,
        ensures
            (final(self)@, r) == variant_or(cx@, old(self)@, p@, args@, e, what@, span),
    {
        proof {
            reveal(variant_or);
            reveal(variant_of);
        }
        match self.resolve_variant(cx, p) {
            Ok((def, variant)) => self.alloc_expr(
                HirExprKind::VariantLit { def, variant, args },
                span,
            ),
            Err(VariantErr::NotVariant(d)) => {
                let diag = self.variant_error(cx, p, VariantErr::NotVariant(d));
                self.alloc_poison(diag, span)
            },
            Err(_) => self.alloc_poison(err_path(p, e, what, Code::UnknownSymbol), span),
        }
    }

    fn callee(&mut self, cx: &Ctx, callee: &Path, args: Vec<ExprId>, span: Span) -> (r: ExprId)
        ensures
            (final(self)@, r) == lower_callee(cx@, old(self)@, callee@, args@, span),
    {
        proof {
            reveal(lower_callee);
            reveal(path_def);
        }
        match self.path_def(cx, callee) {
            Ok(d) => if cx.scope.fn_sig(d).is_some() {
                self.alloc_expr(HirExprKind::Call { def: d, args }, span)
            } else {
                self.alloc_poison(err_not_function(callee, Code::NotCallable), span)
            },
            Err(e) => if e == PathErr::NotFound && callee.segs.len() == 1 {
                // A local bearing the callee's name reports "not a
                // function" as not callable, anything else as unknown.
                let n = self.intern(callee.segs[0].name.as_str());
                let code = if self.lookup(n).is_some() {
                    Code::NotCallable
                } else {
                    Code::UnknownSymbol
                };
                self.alloc_poison(err_not_function(callee, code), span)
            } else {
                self.variant_or_path(cx, callee, args, e, "function", span)
            },
        }
    }

    fn path_value(&mut self, cx: &Ctx, p: &Path, span: Span) -> (r: ExprId)
        ensures
            (final(self)@, r) == lower_path(cx@, old(self)@, p@, span),
    {
        proof {
            reveal(lower_path);
            reveal(path_def);
        }
        match self.path_def(cx, p) {
            Ok(d) => {
                let what = if cx.scope.fn_sig(d).is_some() {
                    "a function"
                } else {
                    "a type"
                };
                self.alloc_poison(err_not_value(p, what), span)
            },
            Err(e) => {
                let none: Vec<ExprId> = Vec::new();
                proof {
                    assert(none@ =~= Seq::empty());
                }
                self.variant_or_path(cx, p, none, e, "symbol", span)
            },
        }
    }

    fn struct_value(&mut self, cx: &Ctx, name: &Path, fields: Vec<(Name, ExprId)>, span: Span) -> (r:
        ExprId)
        ensures
            (final(self)@, r) == lower_struct(cx@, old(self)@, name@, fields@, span),
    {
        proof {
            reveal(lower_struct);
            reveal(path_def);
        }
        match self.path_def(cx, name) {
            Ok(d) => if cx.scope.data_shape(d).is_some() {
                self.alloc_expr(HirExprKind::StructLit { def: d, fields }, span)
            } else {
                self.alloc_poison(err_not_type(name), span)
            },
            Err(e) => self.alloc_poison(err_path(name, e, "type", Code::UnknownType), span),
        }
    }

    fn var(&mut self, cx: &Ctx, name: &Ident, span: Span) -> (r: ExprId)
        ensures
            (final(self)@, r) == lower_var(cx@, old(self)@, name@, span),
    {
        proof {
            reveal(lower_var);
        }
        let n = self.intern(name.name.as_str());
        match self.lookup(n) {
            Some(sym) => self.alloc_expr(HirExprKind::Var(sym), span),
            None => {
                let what = cx.describe_def(n);
                self.alloc_poison(err_binding(name, what), span)
            },
        }
    }
}

impl BodyLowerer {
    fn exprs(&mut self, cx: &Ctx, es: &Vec<Expr>) -> (r: Vec<ExprId>)
        ensures
            (final(self)@, r@) == lower_exprs(cx@, old(self)@, exprs_view(es@)),
        decreases es@, 0int,
    {
        let ghost all = exprs_view(es@);
        let ghost st0 = self@;
        let mut out: Vec<ExprId> = Vec::new();
        let mut i: usize = 0;
        proof {
            assert(all.take(0) =~= Seq::empty());
            assert(out@ =~= Seq::empty());
        }
        while i < es.len()
            invariant
                i <= es@.len(),
                all == exprs_view(es@),
                (self@, out@) == lower_exprs(cx@, st0, all.take(i as int)),
            decreases es@.len() - i,
        {
            proof {
                assert(all.take(i + 1).drop_last() =~= all.take(i as int));
                assert(all.take(i + 1).last() == es@[i as int]@);
            }
            let id = self.expr(cx, &es[i]);
            out.push(id);
            i += 1;
        }
        proof {
            assert(all.take(all.len() as int) =~= all);
        }
        out
    }

    fn inits(&mut self, cx: &Ctx, fs: &Vec<FieldInit>) -> (r: Vec<(Name, ExprId)>)
        ensures
            (final(self)@, r@) == lower_inits(cx@, old(self)@, inits_view(fs@)),
        decreases fs@, 0int,
    {
        let ghost all = inits_view(fs@);
        let ghost st0 = self@;
        let mut out: Vec<(Name, ExprId)> = Vec::new();
        let mut i: usize = 0;
        proof {
            assert(all.take(0) =~= Seq::empty());
            assert(out@ =~= Seq::empty());
        }
        while i < fs.len()
            invariant
                i <= fs@.len(),
                all == inits_view(fs@),
                (self@, out@) == lower_inits(cx@, st0, all.take(i as int)),
            decreases fs@.len() - i,
        {
            proof {
                assert(all.take(i + 1).drop_last() =~= all.take(i as int));
                assert(all.take(i + 1).last() == fs@[i as int]@);
            }
            let n = self.name_of(&fs[i].name);
            let v = self.expr(cx, &fs[i].value);
            out.push((n, v));
            i += 1;
        }
        proof {
            assert(all.take(all.len() as int) =~= all);
        }
        out
    }

    fn arms(&mut self, cx: &Ctx, arms: &Vec<MatchArm>) -> (r: Vec<HirArm>)
        ensures
            (final(self)@, crate::hir::hir_arms(r@)) == lower_arms(
                cx@,
                old(self)@,
                arms_view(arms@),
            ),
        decreases arms@, 0int,
    {
        let ghost all = arms_view(arms@);
        let ghost st0 = self@;
        let mut out: Vec<HirArm> = Vec::new();
        let mut i: usize = 0;
        proof {
            assert(all.take(0) =~= Seq::empty());
            assert(crate::hir::hir_arms(out@) =~= Seq::empty());
        }
        while i < arms.len()
            invariant
                i <= arms@.len(),
                all == arms_view(arms@),
                (self@, crate::hir::hir_arms(out@)) == lower_arms(cx@, st0, all.take(i as int)),
            decreases arms@.len() - i,
        {
            proof {
                assert(all.take(i + 1).drop_last() =~= all.take(i as int));
                assert(all.take(i + 1).last() == arms@[i as int]@);
            }
            let ghost done = crate::hir::hir_arms(out@);
            self.open();
            let pat = self.pattern(cx, &arms[i].pat);
            let body = self.expr(cx, &arms[i].body);
            self.close();
            out.push(HirArm { pat, body, span: arms[i].span });
            proof {
                assert(crate::hir::hir_arms(out@) =~= done.push(
                    HirArmV { pat: pat@, body, span: arms@[i as int].span },
                ));
            }
            i += 1;
        }
        proof {
            assert(all.take(all.len() as int) =~= all);
        }
        out
    }

    fn stmts(&mut self, cx: &Ctx, ss: &Vec<Stmt>) -> (r: Vec<HirStmt>)
        ensures
            (final(self)@, crate::hir::hir_stmts(r@)) == lower_stmts(
                cx@,
                old(self)@,
                stmts_view(ss@),
            ),
        decreases ss@, 0int,
    {
        let ghost all = stmts_view(ss@);
        let ghost st0 = self@;
        let mut out: Vec<HirStmt> = Vec::new();
        let mut i: usize = 0;
        proof {
            assert(all.take(0) =~= Seq::empty());
            assert(crate::hir::hir_stmts(out@) =~= Seq::empty());
        }
        while i < ss.len()
            invariant
                i <= ss@.len(),
                all == stmts_view(ss@),
                (self@, crate::hir::hir_stmts(out@)) == lower_stmts(cx@, st0, all.take(i as int)),
            decreases ss@.len() - i,
        {
            proof {
                assert(all.take(i + 1).drop_last() =~= all.take(i as int));
                assert(all.take(i + 1).last() == ss@[i as int]@);
            }
            let ghost done = crate::hir::hir_stmts(out@);
            match self.stmt(cx, &ss[i]) {
                Some(x) => {
                    out.push(x);
                    proof {
                        assert(crate::hir::hir_stmts(out@) =~= done.push(x@));
                    }
                },
                None => {},
            }
            i += 1;
        }
        proof {
            assert(all.take(all.len() as int) =~= all);
        }
        out
    }

    fn block(&mut self, cx: &Ctx, b: &Block) -> (r: ExprId)
        ensures
            (final(self)@, r) == lower_block(cx@, old(self)@, b@),
        decreases b, 0int,
    {
        proof {
            assert(b@.stmts =~= stmts_view(b.stmts@));
        }
        self.open();
        let stmts = self.stmts(cx, &b.stmts);
        let tail = match &b.tail {
            Some(x) => Some(self.expr(cx, x)),
            None => None,
        };
        self.close();
        self.alloc_expr(HirExprKind::Block { stmts, tail }, b.span)
    }

    fn opt_expr(&mut self, cx: &Ctx, e: &Option<Expr>) -> (r: Option<ExprId>)
        ensures
            match *e {
                Some(x) => {
                    &&& final(self)@ == lower_expr(cx@, old(self)@, x@).0
                    &&& r == Some(lower_expr(cx@, old(self)@, x@).1)
                },
                None => final(self)@ == old(self)@ && r is None,
            },
        decreases e, 0int,
    {
        match e {
            Some(x) => Some(self.expr(cx, x)),
            None => None,
        }
    }

    fn opt_type(&mut self, cx: &Ctx, t: &Option<TypeExpr>) -> (r: Option<TypeRef>)
        ensures
            match *t {
                Some(x) => {
                    &&& final(self)@ == lower_type(cx@, old(self)@, x@).0
                    &&& r == Some(lower_type(cx@, old(self)@, x@).1)
                },
                None => final(self)@ == old(self)@ && r is None,
            },
    {
        match t {
            Some(x) => Some(self.resolve_type(cx, x)),
            None => None,
        }
    }

    fn let_stmt(
        &mut self,
        cx: &Ctx,
        name: &Ident,
        mutable: bool,
        ty: &Option<TypeExpr>,
        init: &Option<Expr>,
        span: Span,
    ) -> (r: HirStmt)
        ensures
            (final(self)@, Some(r@)) == lower_stmt(
                cx@,
                old(self)@,
                (StmtV::Let {
                    name: name@,
                    mutable,
                    ty: crate::ast::opt_type(*ty),
                    init: opt_expr_view(*init),
                    span,
                }),
            ),
        decreases init, 2int,
    {
        // The initializer is evaluated before the binding exists
        // (`let x = x` cannot self-reference).
        let init_id = self.opt_expr(cx, init);
        let ty_ref = self.opt_type(cx, ty);
        let symbol = self.declare_sym(cx, name, SymbolKind::Local, mutable);
        HirStmt::Let { symbol, ty: ty_ref, init: init_id, span }
    }

    fn assign_stmt(&mut self, cx: &Ctx, target: &Place, value: &Expr, span: Span) -> (r: Option<
        HirStmt,
    >)
        ensures
            (final(self)@, stmt_view(r)) == lower_stmt(
                cx@,
                old(self)@,
                (StmtV::Assign { target: target@, value: value@, span }),
            ),
        decreases value, 1int,
    {
        let v = self.expr(cx, value);
        match self.place(target) {
            Some(p) => Some(HirStmt::Assign { target: p, value: v, span }),
            None => None,
        }
    }

    fn stmt(&mut self, cx: &Ctx, s: &Stmt) -> (r: Option<HirStmt>)
        ensures
            (final(self)@, stmt_view(r)) == lower_stmt(cx@, old(self)@, s@),
        decreases s, 0int,
    {
        match s {
            Stmt::Let { name, mutable, ty, init, span } => {
                proof {
                    assert(s@ == (StmtV::Let {
                        name: name@,
                        mutable: *mutable,
                        ty: crate::ast::opt_type(*ty),
                        init: opt_expr_view(*init),
                        span: *span,
                    }));
                }
                Some(self.let_stmt(cx, name, *mutable, ty, init, *span))
            },
            Stmt::Assign { target, value, span } => {
                proof {
                    assert(s@ == (StmtV::Assign { target: target@, value: value@, span: *span }));
                }
                self.assign_stmt(cx, target, value, *span)
            },
            Stmt::Expr { expr, has_semi, span } => {
                proof {
                    assert(s@ == (StmtV::Expr { expr: expr@, has_semi: *has_semi, span: *span }));
                }
                self.expr_stmt(cx, expr, *has_semi, *span)
            },
            Stmt::Return { value, span } => {
                proof {
                    assert(s@ == (StmtV::Return { value: opt_expr_view(*value), span: *span }));
                }
                self.return_stmt(cx, value, *span)
            },
        }
    }

    fn expr_stmt(&mut self, cx: &Ctx, expr: &Expr, has_semi: bool, span: Span) -> (r: Option<
        HirStmt,
    >)
        ensures
            (final(self)@, stmt_view(r)) == lower_stmt(
                cx@,
                old(self)@,
                (StmtV::Expr { expr: expr@, has_semi, span }),
            ),
        decreases expr, 1int,
    {
        let x = self.expr(cx, expr);
        Some(HirStmt::Expr { expr: x, has_semi })
    }

    fn return_stmt(&mut self, cx: &Ctx, value: &Option<Expr>, span: Span) -> (r: Option<HirStmt>)
        ensures
            (final(self)@, stmt_view(r)) == lower_stmt(
                cx@,
                old(self)@,
                (StmtV::Return { value: opt_expr_view(*value), span }),
            ),
        decreases value, 1int,
    {
        let v = self.opt_expr(cx, value);
        Some(HirStmt::Return { value: v, span })
    }

    #[verifier::spinoff_prover]
    fn expr(&mut self, cx: &Ctx, e: &Expr) -> (r: ExprId)
        ensures
            (final(self)@, r) == lower_expr(cx@, old(self)@, e@),
        decreases e, 0int,
    {
        match e {
            Expr::Literal { value, span } => self.alloc_expr(
                HirExprKind::Literal(value.copy()),
                *span,
            ),
            Expr::Var { name } => self.var(cx, name, name.span),
            Expr::Call { callee, args, span } => {
                proof {
                    assert(e@->Call_args =~= exprs_view(args@));
                }
                let ids = self.exprs(cx, args);
                self.callee(cx, callee, ids, *span)
            },
            Expr::Path { path } => self.path_value(cx, path, path.span),
            Expr::Field { base, name, span } => {
                let b = self.expr(cx, base);
                let n = self.name_of(name);
                self.alloc_expr(HirExprKind::Field { base: b, name: n, field: None }, *span)
            },
            Expr::Index { base, index, span } => {
                let b = self.expr(cx, base);
                let i = self.expr(cx, index);
                self.alloc_expr(HirExprKind::Index { base: b, index: i }, *span)
            },
            Expr::Slice { base, lo, hi, span } => {
                let b = self.expr(cx, base);
                let l = match lo {
                    Some(x) => Some(self.expr(cx, x)),
                    None => None,
                };
                let h = match hi {
                    Some(x) => Some(self.expr(cx, x)),
                    None => None,
                };
                self.alloc_expr(HirExprKind::Slice { base: b, lo: l, hi: h }, *span)
            },
            Expr::ArrayLit { elems, span } => {
                proof {
                    assert(e@->ArrayLit_elems =~= exprs_view(elems@));
                }
                let ids = self.exprs(cx, elems);
                self.alloc_expr(HirExprKind::ArrayLit { elems: ids }, *span)
            },
            Expr::Range { lo, hi, span } => {
                let l = match lo {
                    Some(x) => Some(self.expr(cx, x)),
                    None => None,
                };
                let h = match hi {
                    Some(x) => Some(self.expr(cx, x)),
                    None => None,
                };
                self.alloc_expr(HirExprKind::Range { lo: l, hi: h }, *span)
            },
            Expr::For { var, mutable, iter, body, span } => {
                // The iterable resolves before the loop variable exists
                // — `for x in x` reads an outer `x`. The variable then
                // scopes over the body only.
                let i = self.expr(cx, iter);
                self.open();
                let v = self.declare_sym(cx, var, SymbolKind::Local, *mutable);
                let b = self.block(cx, body);
                self.close();
                self.alloc_expr(HirExprKind::For { var: v, iter: i, body: b }, *span)
            },
            Expr::Match { scrutinee, arms, span } => {
                proof {
                    assert(e@->Match_arms =~= arms_view(arms@));
                }
                let s = self.expr(cx, scrutinee);
                let hir = self.arms(cx, arms);
                self.alloc_expr(HirExprKind::Match { scrutinee: s, arms: hir }, *span)
            },
            Expr::Binary { op, lhs, rhs, span } => {
                let l = self.expr(cx, lhs);
                let r = self.expr(cx, rhs);
                self.alloc_expr(HirExprKind::Binary { op: *op, lhs: l, rhs: r }, *span)
            },
            Expr::Unary { op, expr, span } => {
                let i = self.expr(cx, expr);
                self.alloc_expr(HirExprKind::Unary { op: *op, expr: i }, *span)
            },
            Expr::If { cond, then_, else_, span } => {
                let c = self.expr(cx, cond);
                let t = self.block(cx, then_);
                let f = match else_ {
                    Some(x) => Some(self.expr(cx, x)),
                    None => None,
                };
                self.alloc_expr(HirExprKind::If { cond: c, then_: t, else_: f }, *span)
            },
            Expr::Block { block, span: _ } => self.block(cx, block),
            Expr::StructLit { name, fields, span } => {
                proof {
                    assert(e@->StructLit_fields =~= inits_view(fields@));
                }
                let fs = self.inits(cx, fields);
                self.struct_value(cx, name, fs, *span)
            },
            Expr::Error { span } => self.alloc_expr(HirExprKind::Poison, *span),
        }
    }

    fn params(&mut self, cx: &Ctx, ps: &Vec<Param>)
        ensures
            final(self)@ == lower_params(cx@, old(self)@, crate::ast::params(ps@)),
    {
        let ghost all = crate::ast::params(ps@);
        let ghost st0 = self@;
        let mut i: usize = 0;
        proof {
            assert(all.take(0) =~= Seq::empty());
        }
        while i < ps.len()
            invariant
                i <= ps@.len(),
                all == crate::ast::params(ps@),
                self@ == lower_params(cx@, st0, all.take(i as int)),
            decreases ps@.len() - i,
        {
            proof {
                assert(all.take(i + 1).drop_last() =~= all.take(i as int));
                assert(all.take(i + 1).last() == ps@[i as int]@);
            }
            let _ = self.declare_sym(cx, &ps[i].name, SymbolKind::Param, ps[i].mutable);
            i += 1;
        }
        proof {
            assert(all.take(all.len() as int) =~= all);
        }
    }
}

/// The model of an optional expression.
pub open spec fn opt_expr_view(e: Option<Expr>) -> Option<ExprV> {
    match e {
        Some(x) => Some(x@),
        None => None,
    }
}

/// The model of an optional lowered statement.
pub open spec fn stmt_view(s: Option<HirStmt>) -> Option<HirStmtV> {
    match s {
        Some(x) => Some(x@),
        None => None,
    }
}

/// The models of a sequence of expressions.
pub open spec fn exprs_view(v: Seq<Expr>) -> Seq<ExprV> {
    Seq::new(v.len(), |i: int| v[i]@)
}

/// The models of a sequence of struct-literal fields.
pub open spec fn inits_view(v: Seq<FieldInit>) -> Seq<FieldInitV> {
    Seq::new(v.len(), |i: int| v[i]@)
}

/// The models of a sequence of match arms.
pub open spec fn arms_view(v: Seq<MatchArm>) -> Seq<MatchArmV> {
    Seq::new(v.len(), |i: int| v[i]@)
}

/// The models of a sequence of statements.
pub open spec fn stmts_view(v: Seq<Stmt>) -> Seq<StmtV> {
    Seq::new(v.len(), |i: int| v[i]@)
}

/// The diagnostics from `mark` on, tagged with an origin.
pub open spec fn tag_from(ds: Seq<DiagnosticV>, mark: int, def: DefId) -> Seq<DiagnosticV> {
    Seq::new(
        ds.len(),
        |i: int|
            if i < mark {
                ds[i]
            } else {
                crate::diagnostic::tagged(ds[i], def)
            },
    )
}

/// What lowering one function yields: its body, the interned names, and
/// all diagnostics, those of this body tagged with the function.
pub open spec fn lowered(
    f: FnDeclV,
    def: DefId,
    scope: ModuleScopeV,
    names: Seq<Seq<char>>,
    ds: Seq<DiagnosticV>,
    stamp: Option<FileId>,
) -> (HirBodyV, Seq<Seq<char>>, Seq<DiagnosticV>) {
    let (st, root) = lower_run(ctx_of(scope, def), lower_start(names, ds, stamp), f);
    (
        HirBodyV { def, root, exprs: st.exprs, local_symbols: st.locals },
        st.names,
        tag_from(st.diags, ds.len() as int, def),
    )
}

/// Lowers one function body against the resolved module `scope`.
///
/// `f`'s spans must be **item-relative** (see
/// [`crate::rebase::rebase_item`]) — the returned body's spans and the
/// diagnostics emitted here are item-local, and diagnostics are
/// tagged `origin = def` so a collector can rebase them.
///
/// The scope is borrowed immutably: everything the body declares —
/// its params and its `let` bindings — lives in the returned
/// [`HirBody`]'s own arenas, never in the module table.
pub fn lower_body(
    f: &FnDecl,
    def: DefId,
    scope: &ModuleScope,
    interner: &mut Interner,
    diags: &mut Diagnostics,
) -> (r: HirBody)
    requires
        def.raw < scope@.defs.len(),
    ensures
        (r@, final(interner)@, final(diags)@) == lowered(
            f@,
            def,
            scope@,
            old(interner)@,
            old(diags)@,
            old(diags).stamp(),
        ),
        final(diags).stamp() == old(diags).stamp(),
{
    let mark: usize = diags.len();
    let cx = Ctx { def, file: scope.def(def).file, scope };
    let mut b = BodyLowerer {
        interner: Interner::new(),
        diags: Diagnostics::new(),
        exprs: Vec::new(),
        locals: Vec::new(),
        scopes: Vec::new(),
    };
    std::mem::swap(&mut b.interner, interner);
    std::mem::swap(&mut b.diags, diags);
    b.scopes.push(IdMap::new());
    proof {
        assert(b@.exprs =~= Seq::empty());
        assert(b@.locals =~= Seq::empty());
        assert(b@.scopes =~= seq![Map::empty()]);
        assert(cx@ == ctx_of(scope@, def));
    }
    let ghost st0 = b@;
    // Params occupy local arena slots 0..n — matching
    // `sig.params[i].symbol == SymbolId::local(i)`, which name
    // resolution fixed before any body existed.
    b.params(&cx, &f.params);
    let root = b.block(&cx, &f.body);
    proof {
        lemma_run(cx@, st0, f@);
    }
    std::mem::swap(&mut b.interner, interner);
    std::mem::swap(&mut b.diags, diags);
    diags.tag_origin_from(mark, def);
    HirBody { def, root, exprs: b.exprs, local_symbols: b.locals }
}

// ---------- what lowering keeps ----------

/// What lowering never does: it only appends to the arenas, the names,
/// and the diagnostics, and leaves the stamp alone.
pub open spec fn extends(a: LowerV, b: LowerV) -> bool {
    &&& b.stamp == a.stamp
    &&& a.names.len() <= b.names.len() && b.names.take(a.names.len() as int) == a.names
    &&& a.diags.len() <= b.diags.len() && b.diags.take(a.diags.len() as int) == a.diags
    &&& a.exprs.len() <= b.exprs.len() && b.exprs.take(a.exprs.len() as int) == a.exprs
    &&& a.locals.len() <= b.locals.len() && b.locals.take(a.locals.len() as int) == a.locals
}

/// Every node and every symbol carries its own arena position, in any
/// arena that fits the machine.
pub open spec fn ids_are_positions(st: LowerV) -> bool {
    st.exprs.len() <= usize::MAX && st.locals.len() <= usize::MAX ==> {
        &&& forall|i: int| 0 <= i < st.exprs.len() ==> (#[trigger] st.exprs[i]).id.raw == i
        &&& forall|i: int|
            0 <= i < st.locals.len() ==> (#[trigger] st.locals[i]).id == SymbolId::Local(i as usize)
    }
}

/// `b` follows `a` and leaves every scope as it was.
#[verifier::opaque]
pub open spec fn keeps(a: LowerV, b: LowerV) -> bool {
    &&& extends(a, b)
    &&& ids_are_positions(a) ==> ids_are_positions(b)
    &&& b.scopes == a.scopes
}

/// `b` follows `a` and changes at most the innermost scope.
#[verifier::opaque]
pub open spec fn binds_inner(a: LowerV, b: LowerV) -> bool {
    &&& extends(a, b)
    &&& ids_are_positions(a) ==> ids_are_positions(b)
    &&& b.scopes.len() == a.scopes.len()
    &&& a.scopes.len() > 0 ==> b.scopes.drop_last() == a.scopes.drop_last()
}

pub(crate) proof fn lemma_refl(a: LowerV)
    ensures
        keeps(a, a),
        binds_inner(a, a),
{
    reveal(keeps);
    reveal(binds_inner);
    assert(a.names.take(a.names.len() as int) =~= a.names);
    assert(a.diags.take(a.diags.len() as int) =~= a.diags);
    assert(a.exprs.take(a.exprs.len() as int) =~= a.exprs);
    assert(a.locals.take(a.locals.len() as int) =~= a.locals);
}

proof fn lemma_extends_trans(a: LowerV, b: LowerV, c: LowerV)
    requires
        extends(a, b),
        extends(b, c),
    ensures
        extends(a, c),
{
    assert(c.names.take(a.names.len() as int) =~= c.names.take(b.names.len() as int).take(
        a.names.len() as int,
    ));
    assert(c.diags.take(a.diags.len() as int) =~= c.diags.take(b.diags.len() as int).take(
        a.diags.len() as int,
    ));
    assert(c.exprs.take(a.exprs.len() as int) =~= c.exprs.take(b.exprs.len() as int).take(
        a.exprs.len() as int,
    ));
    assert(c.locals.take(a.locals.len() as int) =~= c.locals.take(b.locals.len() as int).take(
        a.locals.len() as int,
    ));
}

proof fn lemma_then(a: LowerV, b: LowerV, c: LowerV)
    requires
        keeps(a, b) || binds_inner(a, b),
        keeps(b, c) || binds_inner(b, c),
    ensures
        keeps(a, b) && keeps(b, c) ==> keeps(a, c),
        binds_inner(a, c),
{
    reveal(keeps);
    reveal(binds_inner);
    lemma_extends_trans(a, b, c);
}

pub(crate) proof fn lemma_intern(st: LowerV, name: Seq<char>)
    ensures
        keeps(st, intern_in(st, name).0),
{
    reveal(keeps);
    let b = intern_in(st, name).0;
    lemma_refl(st);
    assert(b.names.take(st.names.len() as int) =~= st.names);
}

pub(crate) proof fn lemma_report(st: LowerV, d: DiagnosticV)
    ensures
        keeps(st, report(st, d)),
{
    reveal(keeps);
    let b = report(st, d);
    lemma_refl(st);
    assert(b.diags.take(st.diags.len() as int) =~= st.diags);
}

pub(crate) proof fn lemma_alloc(st: LowerV, kind: HirExprKindV, span: Span)
    ensures
        keeps(st, alloc_node(st, kind, span).0),
{
    reveal(keeps);
    let b = alloc_node(st, kind, span).0;
    lemma_refl(st);
    assert(b.exprs.take(st.exprs.len() as int) =~= st.exprs);
}

proof fn lemma_poison(st: LowerV, d: DiagnosticV, span: Span)
    ensures
        keeps(st, poison(st, d, span).0),
{
    lemma_report(st, d);
    lemma_alloc(report(st, d), HirExprKindV::Poison, span);
    lemma_then(st, report(st, d), poison(st, d, span).0);
}

pub(crate) proof fn lemma_declare(cx: CtxV, st: LowerV, ident: IdentV, kind: SymbolKind, mutable: bool)
    ensures
        binds_inner(st, declare(cx, st, ident, kind, mutable).0),
{
    reveal(declare);
    reveal(keeps);
    reveal(binds_inner);
    lemma_intern(st, ident.name);
    let s1 = intern_in(st, ident.name).0;
    let b = declare(cx, st, ident, kind, mutable).0;
    lemma_refl(s1);
    assert(b.locals.take(s1.locals.len() as int) =~= s1.locals);
    if s1.scopes.len() > 0 {
        assert(b.scopes.drop_last() =~= s1.scopes.drop_last());
    }
    lemma_then(st, s1, b);
}

/// Work in a scope of its own leaves the scopes around it as they were.
proof fn lemma_scoped(a: LowerV, b: LowerV)
    requires
        binds_inner(open_scope(a), b),
    ensures
        keeps(a, close_scope(b)),
{
    reveal(keeps);
    reveal(binds_inner);
    let o = open_scope(a);
    lemma_refl(a);
    assert(extends(a, o));
    lemma_extends_trans(a, o, b);
    assert(o.scopes.drop_last() =~= a.scopes);
    assert(extends(a, close_scope(b)));
}

pub(crate) proof fn lemma_path_def(cx: CtxV, st: LowerV, p: PathV)
    ensures
        keeps(st, path_def(cx, st, p).0),
{
    reveal(path_def);
    lemma_refl(st);
    if p.segs.len() > 0 {
        lemma_intern(st, p.segs[0].name);
        let s1 = intern_in(st, p.segs[0].name).0;
        if p.segs.len() > 1 {
            lemma_intern(s1, p.segs[1].name);
            lemma_then(st, s1, intern_in(s1, p.segs[1].name).0);
        }
    }
}

proof fn lemma_variant_in(cx: CtxV, st: LowerV, data: DefId, v: IdentV)
    ensures
        keeps(st, variant_in(cx, st, data, v).0),
{
    lemma_intern(st, v.name);
}

pub(crate) proof fn lemma_variant_of(cx: CtxV, st: LowerV, p: PathV)
    ensures
        keeps(st, variant_of(cx, st, p).0),
{
    reveal(variant_of);
    lemma_refl(st);
    if p.segs.len() == 2 || p.segs.len() == 3 {
        lemma_intern(st, p.segs[0].name);
        let s1 = intern_in(st, p.segs[0].name).0;
        if p.segs.len() == 2 {
            if let Some(d) = data_named(cx.scope, env_here(cx), intern_in(st, p.segs[0].name).1) {
                lemma_variant_in(cx, s1, DefId { raw: d }, p.segs[1]);
                lemma_then(st, s1, variant_in(cx, s1, DefId { raw: d }, p.segs[1]).0);
            }
        } else {
            lemma_intern(s1, p.segs[1].name);
            let s2 = intern_in(s1, p.segs[1].name).0;
            lemma_then(st, s1, s2);
            let m = intern_in(st, p.segs[0].name).1;
            let t = intern_in(s1, p.segs[1].name).1;
            if let Some(file) = crate::fxmap::entry(env_here(cx).modules, m.raw) {
                if let Some(e) = crate::hir::env_of(cx.scope, FileId { raw: file }) {
                    if let Some(d) = crate::fxmap::entry(e.datas, t.raw) {
                        lemma_variant_in(cx, s2, DefId { raw: d }, p.segs[2]);
                        lemma_then(st, s2, variant_in(cx, s2, DefId { raw: d }, p.segs[2]).0);
                    }
                }
            }
        }
    }
}

pub(crate) proof fn lemma_type(cx: CtxV, st: LowerV, t: TypeExprV)
    ensures
        keeps(st, lower_type(cx, st, t).0),
    decreases t,
{
    reveal(lower_type);
    lemma_refl(st);
    let out = lower_type(cx, st, t).0;
    match t {
        TypeExprV::Array { elem, span } => {
            lemma_type(cx, st, *elem);
            let (s1, r) = lower_type(cx, st, *elem);
            lemma_refl(s1);
            lemma_report(
                s1,
                crate::diagnostic::error_of(
                    Code::UnsupportedOperation,
                    "nested array types are not supported yet"@,
                ).with_primary(span),
            );
            lemma_report(
                s1,
                crate::diagnostic::error_of(
                    Code::UnsupportedOperation,
                    "arrays cannot hold `unit` elements"@,
                ).with_primary(span),
            );
            lemma_then(st, s1, out);
        },
        TypeExprV::Named { path } => {
            lemma_path_def(cx, st, path);
            let (s1, found) = path_def(cx, st, path);
            lemma_refl(s1);
            match found {
                Ok(d) => {
                    lemma_report(s1, not_a_type(path));
                    lemma_then(st, s1, report(s1, not_a_type(path)));
                },
                Err(e) => {
                    let diag = path_diag(path, e, "type"@, Code::UnknownType);
                    lemma_report(s1, diag);
                    lemma_then(st, s1, report(s1, diag));
                },
            }
        },
    }
}

pub(crate) proof fn lemma_binds(cx: CtxV, st: LowerV, binds: Seq<IdentV>)
    ensures
        binds_inner(st, lower_binds(cx, st, binds).0),
    decreases binds.len(),
{
    lemma_refl(st);
    if binds.len() > 0 {
        lemma_binds(cx, st, binds.drop_last());
        let s1 = lower_binds(cx, st, binds.drop_last()).0;
        lemma_declare(cx, s1, binds.last(), SymbolKind::Local, false);
        lemma_then(st, s1, declare(cx, s1, binds.last(), SymbolKind::Local, false).0);
    }
}

pub(crate) proof fn lemma_pattern(cx: CtxV, st: LowerV, p: PatternV)
    ensures
        binds_inner(st, lower_pattern(cx, st, p).0),
{
    reveal(lower_pattern);
    lemma_refl(st);
    match p {
        PatternV::Bind { name } => {
            lemma_declare(cx, st, name, SymbolKind::Local, false);
        },
        PatternV::Variant { path, binds, span } => {
            lemma_variant_of(cx, st, path);
            let (s1, found) = variant_of(cx, st, path);
            match found {
                Ok(v) => {
                    lemma_binds(cx, s1, binds);
                    lemma_then(st, s1, lower_binds(cx, s1, binds).0);
                },
                Err(e) => {
                    lemma_report(s1, variant_diag(cx, s1, path, e));
                    lemma_then(st, s1, report(s1, variant_diag(cx, s1, path, e)));
                },
            }
        },
    }
}

pub(crate) proof fn lemma_names(st: LowerV, v: Seq<IdentV>)
    ensures
        keeps(st, lower_names(st, v).0),
    decreases v.len(),
{
    lemma_refl(st);
    if v.len() > 0 {
        lemma_names(st, v.drop_last());
        let s1 = lower_names(st, v.drop_last()).0;
        lemma_intern(s1, v.last().name);
        lemma_then(st, s1, intern_in(s1, v.last().name).0);
    }
}

pub(crate) proof fn lemma_place(st: LowerV, p: PlaceV)
    ensures
        keeps(st, lower_place(st, p).0),
{
    reveal(lower_place);
    lemma_intern(st, p.base.name);
    let s1 = intern_in(st, p.base.name).0;
    lemma_names(s1, p.fields);
    lemma_then(st, s1, lower_names(s1, p.fields).0);
    lemma_report(s1, unknown_binding(p.base, Seq::empty()));
    lemma_then(st, s1, report(s1, unknown_binding(p.base, Seq::empty())));
}

proof fn lemma_variant_or(
    cx: CtxV,
    st: LowerV,
    p: PathV,
    args: Seq<ExprId>,
    e: PathErr,
    what: Seq<char>,
    span: Span,
)
    ensures
        keeps(st, variant_or(cx, st, p, args, e, what, span).0),
{
    reveal(variant_or);
    lemma_variant_of(cx, st, p);
    let (s1, found) = variant_of(cx, st, p);
    match found {
        Ok((def, variant)) => {
            lemma_alloc(s1, HirExprKindV::VariantLit { def, variant, args }, span);
        },
        Err(VariantErr::NotVariant(d)) => {
            lemma_poison(s1, variant_diag(cx, s1, p, VariantErr::NotVariant(d)), span);
        },
        Err(_) => {
            lemma_poison(s1, path_diag(p, e, what, Code::UnknownSymbol), span);
        },
    }
    lemma_then(st, s1, variant_or(cx, st, p, args, e, what, span).0);
}

pub(crate) proof fn lemma_callee(cx: CtxV, st: LowerV, callee: PathV, args: Seq<ExprId>, span: Span)
    ensures
        keeps(st, lower_callee(cx, st, callee, args, span).0),
{
    reveal(lower_callee);
    lemma_path_def(cx, st, callee);
    let (s1, found) = path_def(cx, st, callee);
    match found {
        Ok(d) => {
            lemma_alloc(s1, HirExprKindV::Call { def: d, args }, span);
            lemma_poison(s1, not_a_function(callee, Code::NotCallable), span);
        },
        Err(e) => {
            if e == PathErr::NotFound && callee.segs.len() == 1 {
                lemma_intern(s1, callee.segs[0].name);
                let s2 = intern_in(s1, callee.segs[0].name).0;
                lemma_poison(s2, not_a_function(callee, Code::NotCallable), span);
                lemma_poison(s2, not_a_function(callee, Code::UnknownSymbol), span);
                lemma_then(s1, s2, poison(s2, not_a_function(callee, Code::NotCallable), span).0);
                lemma_then(
                    s1,
                    s2,
                    poison(s2, not_a_function(callee, Code::UnknownSymbol), span).0,
                );
            } else {
                lemma_variant_or(cx, s1, callee, args, e, "function"@, span);
            }
        },
    }
    lemma_then(st, s1, lower_callee(cx, st, callee, args, span).0);
}

pub(crate) proof fn lemma_path_value(cx: CtxV, st: LowerV, p: PathV, span: Span)
    ensures
        keeps(st, lower_path(cx, st, p, span).0),
{
    reveal(lower_path);
    lemma_path_def(cx, st, p);
    let (s1, found) = path_def(cx, st, p);
    match found {
        Ok(d) => {
            lemma_poison(s1, not_a_value(p, "a function"@), span);
            lemma_poison(s1, not_a_value(p, "a type"@), span);
        },
        Err(e) => {
            lemma_variant_or(cx, s1, p, Seq::empty(), e, "symbol"@, span);
        },
    }
    lemma_then(st, s1, lower_path(cx, st, p, span).0);
}

pub(crate) proof fn lemma_struct(cx: CtxV, st: LowerV, name: PathV, fields: Seq<(Name, ExprId)>, span: Span)
    ensures
        keeps(st, lower_struct(cx, st, name, fields, span).0),
{
    reveal(lower_struct);
    lemma_path_def(cx, st, name);
    let (s1, found) = path_def(cx, st, name);
    match found {
        Ok(d) => {
            lemma_alloc(s1, HirExprKindV::StructLit { def: d, fields }, span);
            lemma_poison(s1, not_a_type(name), span);
        },
        Err(e) => {
            lemma_poison(s1, path_diag(name, e, "type"@, Code::UnknownType), span);
        },
    }
    lemma_then(st, s1, lower_struct(cx, st, name, fields, span).0);
}

pub(crate) proof fn lemma_var(cx: CtxV, st: LowerV, name: IdentV, span: Span)
    ensures
        keeps(st, lower_var(cx, st, name, span).0),
{
    reveal(lower_var);
    lemma_intern(st, name.name);
    let (s1, n) = intern_in(st, name.name);
    match lookup(s1.scopes, n) {
        Some(sym) => {
            lemma_alloc(s1, HirExprKindV::Var(sym), span);
        },
        None => {
            lemma_poison(s1, unknown_binding(name, describe(cx, n)), span);
        },
    }
    lemma_then(st, s1, lower_var(cx, st, name, span).0);
}

/// Lowering an expression only appends, gives every new node its own
/// position as id, and leaves every scope as it was: a binding is never
/// visible outside the block, loop, or arm that declares it.
pub proof fn law_lowering_keeps_scopes(cx: CtxV, st: LowerV, e: ExprV)
    ensures
        keeps(st, lower_expr(cx, st, e).0),
    decreases e,
{
    lemma_refl(st);
    let out = lower_expr(cx, st, e).0;
    match e {
        ExprV::Literal { value, span } => {
            lemma_alloc(st, HirExprKindV::Literal(value), span);
        },
        ExprV::Var { name } => {
            lemma_var(cx, st, name, name.span);
        },
        ExprV::Call { callee, args, span } => {
            lemma_exprs(cx, st, args);
            let (s1, ids) = lower_exprs(cx, st, args);
            lemma_callee(cx, s1, callee, ids, span);
            lemma_then(st, s1, out);
        },
        ExprV::Path { path } => {
            lemma_path_value(cx, st, path, path.span);
        },
        ExprV::Field { base, name, span } => {
            law_lowering_keeps_scopes(cx, st, *base);
            let (s1, b) = lower_expr(cx, st, *base);
            lemma_intern(s1, name.name);
            let (s2, n) = intern_in(s1, name.name);
            lemma_then(st, s1, s2);
            lemma_alloc(
                s2,
                HirExprKindV::Field { base: b, name: Name { id: n, span: name.span }, field: None },
                span,
            );
            lemma_then(st, s2, out);
        },
        ExprV::Index { base, index, span } => {
            law_lowering_keeps_scopes(cx, st, *base);
            let (s1, b) = lower_expr(cx, st, *base);
            law_lowering_keeps_scopes(cx, s1, *index);
            let (s2, i) = lower_expr(cx, s1, *index);
            lemma_then(st, s1, s2);
            lemma_alloc(s2, HirExprKindV::Index { base: b, index: i }, span);
            lemma_then(st, s2, out);
        },
        ExprV::Slice { base, lo, hi, span } => {
            law_lowering_keeps_scopes(cx, st, *base);
            let (s1, b) = lower_expr(cx, st, *base);
            let (s2, l) = match lo {
                Some(x) => {
                    law_lowering_keeps_scopes(cx, s1, *x);
                    let (s, id) = lower_expr(cx, s1, *x);
                    (s, Some(id))
                },
                None => (s1, None),
            };
            lemma_refl(s1);
            lemma_then(st, s1, s2);
            let (s3, h) = match hi {
                Some(x) => {
                    law_lowering_keeps_scopes(cx, s2, *x);
                    let (s, id) = lower_expr(cx, s2, *x);
                    (s, Some(id))
                },
                None => (s2, None),
            };
            lemma_refl(s2);
            lemma_then(st, s2, s3);
            lemma_alloc(s3, HirExprKindV::Slice { base: b, lo: l, hi: h }, span);
            lemma_then(st, s3, out);
        },
        ExprV::ArrayLit { elems, span } => {
            lemma_exprs(cx, st, elems);
            let (s1, ids) = lower_exprs(cx, st, elems);
            lemma_alloc(s1, HirExprKindV::ArrayLit { elems: ids }, span);
            lemma_then(st, s1, out);
        },
        ExprV::Range { lo, hi, span } => {
            let (s1, l) = match lo {
                Some(x) => {
                    law_lowering_keeps_scopes(cx, st, *x);
                    let (s, id) = lower_expr(cx, st, *x);
                    (s, Some(id))
                },
                None => (st, None),
            };
            let (s2, h) = match hi {
                Some(x) => {
                    law_lowering_keeps_scopes(cx, s1, *x);
                    let (s, id) = lower_expr(cx, s1, *x);
                    (s, Some(id))
                },
                None => (s1, None),
            };
            lemma_refl(s1);
            lemma_then(st, s1, s2);
            lemma_alloc(s2, HirExprKindV::Range { lo: l, hi: h }, span);
            lemma_then(st, s2, out);
        },
        ExprV::For { var, mutable, iter, body, span } => {
            law_lowering_keeps_scopes(cx, st, *iter);
            let (s1, i) = lower_expr(cx, st, *iter);
            let o = open_scope(s1);
            lemma_declare(cx, o, var, SymbolKind::Local, mutable);
            let (s2, v) = declare(cx, o, var, SymbolKind::Local, mutable);
            lemma_block(cx, s2, body);
            let (s3, b) = lower_block(cx, s2, body);
            lemma_then(o, s2, s3);
            lemma_scoped(s1, s3);
            lemma_then(st, s1, close_scope(s3));
            lemma_alloc(close_scope(s3), HirExprKindV::For { var: v, iter: i, body: b }, span);
            lemma_then(st, close_scope(s3), out);
        },
        ExprV::Match { scrutinee, arms, span } => {
            law_lowering_keeps_scopes(cx, st, *scrutinee);
            let (s1, s) = lower_expr(cx, st, *scrutinee);
            lemma_arms(cx, s1, arms);
            let (s2, hir) = lower_arms(cx, s1, arms);
            lemma_then(st, s1, s2);
            lemma_alloc(s2, HirExprKindV::Match { scrutinee: s, arms: hir }, span);
            lemma_then(st, s2, out);
        },
        ExprV::Binary { op, lhs, rhs, span } => {
            law_lowering_keeps_scopes(cx, st, *lhs);
            let (s1, l) = lower_expr(cx, st, *lhs);
            law_lowering_keeps_scopes(cx, s1, *rhs);
            let (s2, r) = lower_expr(cx, s1, *rhs);
            lemma_then(st, s1, s2);
            lemma_alloc(s2, HirExprKindV::Binary { op, lhs: l, rhs: r }, span);
            lemma_then(st, s2, out);
        },
        ExprV::Unary { op, expr, span } => {
            law_lowering_keeps_scopes(cx, st, *expr);
            let (s1, i) = lower_expr(cx, st, *expr);
            lemma_alloc(s1, HirExprKindV::Unary { op, expr: i }, span);
            lemma_then(st, s1, out);
        },
        ExprV::If { cond, then_, else_, span } => {
            law_lowering_keeps_scopes(cx, st, *cond);
            let (s1, c) = lower_expr(cx, st, *cond);
            lemma_block(cx, s1, then_);
            let (s2, t) = lower_block(cx, s1, then_);
            lemma_then(st, s1, s2);
            let (s3, f) = match else_ {
                Some(x) => {
                    law_lowering_keeps_scopes(cx, s2, *x);
                    let (s, id) = lower_expr(cx, s2, *x);
                    (s, Some(id))
                },
                None => (s2, None),
            };
            lemma_refl(s2);
            lemma_then(st, s2, s3);
            lemma_alloc(s3, HirExprKindV::If { cond: c, then_: t, else_: f }, span);
            lemma_then(st, s3, out);
        },
        ExprV::Block { block, span } => {
            lemma_block(cx, st, block);
        },
        ExprV::StructLit { name, fields, span } => {
            lemma_inits(cx, st, fields);
            let (s1, fs) = lower_inits(cx, st, fields);
            lemma_struct(cx, s1, name, fs, span);
            lemma_then(st, s1, out);
        },
        ExprV::Error { span } => {
            lemma_alloc(st, HirExprKindV::Poison, span);
        },
    }
}

pub(crate) proof fn lemma_exprs(cx: CtxV, st: LowerV, es: Seq<ExprV>)
    ensures
        keeps(st, lower_exprs(cx, st, es).0),
    decreases es,
{
    lemma_refl(st);
    if es.len() > 0 {
        lemma_exprs(cx, st, es.drop_last());
        let s1 = lower_exprs(cx, st, es.drop_last()).0;
        law_lowering_keeps_scopes(cx, s1, es.last());
        lemma_then(st, s1, lower_expr(cx, s1, es.last()).0);
    }
}

pub(crate) proof fn lemma_inits(cx: CtxV, st: LowerV, fs: Seq<FieldInitV>)
    ensures
        keeps(st, lower_inits(cx, st, fs).0),
    decreases fs,
{
    lemma_refl(st);
    if fs.len() > 0 {
        lemma_inits(cx, st, fs.drop_last());
        let s1 = lower_inits(cx, st, fs.drop_last()).0;
        let f = fs.last();
        lemma_intern(s1, f.name.name);
        let s2 = intern_in(s1, f.name.name).0;
        lemma_then(st, s1, s2);
        law_lowering_keeps_scopes(cx, s2, f.value);
        lemma_then(st, s2, lower_expr(cx, s2, f.value).0);
    }
}

pub(crate) proof fn lemma_arms(cx: CtxV, st: LowerV, arms: Seq<MatchArmV>)
    ensures
        keeps(st, lower_arms(cx, st, arms).0),
    decreases arms,
{
    lemma_refl(st);
    if arms.len() > 0 {
        lemma_arms(cx, st, arms.drop_last());
        let s1 = lower_arms(cx, st, arms.drop_last()).0;
        let a = arms.last();
        let o = open_scope(s1);
        lemma_pattern(cx, o, a.pat);
        let s2 = lower_pattern(cx, o, a.pat).0;
        law_lowering_keeps_scopes(cx, s2, a.body);
        let s3 = lower_expr(cx, s2, a.body).0;
        lemma_then(o, s2, s3);
        lemma_scoped(s1, s3);
        lemma_then(st, s1, close_scope(s3));
    }
}

pub(crate) proof fn lemma_block(cx: CtxV, st: LowerV, b: BlockV)
    ensures
        keeps(st, lower_block(cx, st, b).0),
    decreases b,
{
    let o = open_scope(st);
    lemma_stmts(cx, o, b.stmts);
    let (s1, stmts) = lower_stmts(cx, o, b.stmts);
    let (s2, tail) = match b.tail {
        Some(x) => {
            law_lowering_keeps_scopes(cx, s1, *x);
            let (s, id) = lower_expr(cx, s1, *x);
            (s, Some(id))
        },
        None => (s1, None),
    };
    lemma_refl(s1);
    lemma_then(o, s1, s2);
    lemma_scoped(st, s2);
    lemma_alloc(close_scope(s2), HirExprKindV::Block { stmts, tail }, b.span);
    lemma_then(st, close_scope(s2), lower_block(cx, st, b).0);
}

pub(crate) proof fn lemma_stmts(cx: CtxV, st: LowerV, ss: Seq<StmtV>)
    ensures
        binds_inner(st, lower_stmts(cx, st, ss).0),
    decreases ss,
{
    lemma_refl(st);
    if ss.len() > 0 {
        lemma_stmts(cx, st, ss.drop_last());
        let s1 = lower_stmts(cx, st, ss.drop_last()).0;
        lemma_stmt(cx, s1, ss.last());
        lemma_then(st, s1, lower_stmt(cx, s1, ss.last()).0);
    }
}

pub(crate) proof fn lemma_stmt(cx: CtxV, st: LowerV, s: StmtV)
    ensures
        binds_inner(st, lower_stmt(cx, st, s).0),
    decreases s,
{
    lemma_refl(st);
    match s {
        StmtV::Let { name, mutable, ty, init, span } => {
            let s1 = match init {
                Some(x) => {
                    law_lowering_keeps_scopes(cx, st, x);
                    lower_expr(cx, st, x).0
                },
                None => st,
            };
            let s2 = match ty {
                Some(x) => {
                    lemma_type(cx, s1, x);
                    lower_type(cx, s1, x).0
                },
                None => s1,
            };
            lemma_refl(s1);
            lemma_then(st, s1, s2);
            lemma_declare(cx, s2, name, SymbolKind::Local, mutable);
            lemma_then(st, s2, declare(cx, s2, name, SymbolKind::Local, mutable).0);
        },
        StmtV::Assign { target, value, span } => {
            law_lowering_keeps_scopes(cx, st, value);
            let s1 = lower_expr(cx, st, value).0;
            lemma_place(s1, target);
            lemma_then(st, s1, lower_place(s1, target).0);
        },
        StmtV::Expr { expr, has_semi, span } => {
            law_lowering_keeps_scopes(cx, st, expr);
            lemma_refl(lower_expr(cx, st, expr).0);
            lemma_then(st, lower_expr(cx, st, expr).0, lower_expr(cx, st, expr).0);
        },
        StmtV::Return { value, span } => {
            if let Some(x) = value {
                law_lowering_keeps_scopes(cx, st, x);
                lemma_refl(lower_expr(cx, st, x).0);
                lemma_then(st, lower_expr(cx, st, x).0, lower_expr(cx, st, x).0);
            }
        },
    }
}

pub(crate) proof fn lemma_params(cx: CtxV, st: LowerV, ps: Seq<ParamV>)
    ensures
        binds_inner(st, lower_params(cx, st, ps)),
        lower_params(cx, st, ps).locals.len() == st.locals.len() + ps.len(),
        lower_params(cx, st, ps).exprs == st.exprs,
    decreases ps.len(),
{
    reveal(declare);
    lemma_refl(st);
    if ps.len() > 0 {
        lemma_params(cx, st, ps.drop_last());
        let s1 = lower_params(cx, st, ps.drop_last());
        lemma_declare(cx, s1, ps.last().name, SymbolKind::Param, ps.last().mutable);
        lemma_then(st, s1, lower_params(cx, st, ps));
    }
}

proof fn lemma_run(cx: CtxV, st: LowerV, f: FnDeclV)
    ensures
        extends(st, lower_run(cx, st, f).0),
        ids_are_positions(st) ==> ids_are_positions(lower_run(cx, st, f).0),
{
    reveal(keeps);
    reveal(binds_inner);
    lemma_params(cx, st, f.params);
    let s1 = lower_params(cx, st, f.params);
    lemma_block(cx, s1, f.body);
    lemma_then(st, s1, lower_run(cx, st, f).0);
}

/// A lowered body is self-contained: its root is the last node of its
/// own arena, every node and symbol carries its own position, and the
/// parameters take the first slots of the symbol arena. Diagnostics of
/// earlier passes stay as they were.
pub proof fn law_body_self_contained(
    f: FnDeclV,
    def: DefId,
    scope: ModuleScopeV,
    names: Seq<Seq<char>>,
    ds: Seq<DiagnosticV>,
    stamp: Option<FileId>,
)
    requires
        lowered(f, def, scope, names, ds, stamp).0.exprs.len() <= usize::MAX,
        lowered(f, def, scope, names, ds, stamp).0.local_symbols.len() <= usize::MAX,
    ensures
        ({
            let (body, names2, ds2) = lowered(f, def, scope, names, ds, stamp);
            &&& body.root.raw == body.exprs.len() - 1
            &&& forall|i: int| 0 <= i < body.exprs.len() ==> (#[trigger] body.exprs[i]).id.raw == i
            &&& forall|i: int|
                0 <= i < body.local_symbols.len() ==> (#[trigger] body.local_symbols[i]).id
                    == SymbolId::Local(i as usize)
            &&& f.params.len() <= body.local_symbols.len()
            &&& names.len() <= names2.len() && names2.take(names.len() as int) == names
            &&& ds.len() <= ds2.len() && ds2.take(ds.len() as int) == ds
        }),
{
    reveal(keeps);
    reveal(binds_inner);
    let cx = ctx_of(scope, def);
    let st = lower_start(names, ds, stamp);
    lemma_run(cx, st, f);
    lemma_params(cx, st, f.params);
    lemma_block(cx, lower_params(cx, st, f.params), f.body);
    let (st2, root) = lower_run(cx, st, f);
    let ds2 = tag_from(st2.diags, ds.len() as int, def);
    assert(ds2.take(ds.len() as int) =~= st2.diags.take(ds.len() as int));
}

} // verus!
