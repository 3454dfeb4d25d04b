//! What a name in a body stands for: the nearest binding of it, or else
//! the definition that its file knows by it.

use crate::ast::{IdentV, PathV, PatternV, TypeExprV};
use crate::code::Code;
use crate::fxmap::entry;
use crate::hir::{
    builtin, env_of, shape_of, sig_of, HirExprKindV, HirPatV, Name, SymbolKind, TypeRef,
};
use crate::hir_lower::{
    close_scope, declare, env_here, lookup, lower_callee, lower_path, lower_pattern, lower_struct,
    lower_type, lower_var, open_scope, path_def, variant_of, variant_or, CtxV, LowerV, PathErr,
    VariantErr,
};
use crate::source::{intern_id, interned, DefId, ExprId, FileId, InternId, Span, SymbolId};
use vstd::prelude::*;

verus! {

// ---------- scopes ----------

/// A declared name is found from then on, and hides every outer binding
/// of it; all other names keep their bindings. What is declared is the
/// next local of the body.
pub proof fn law_declared_name_found(
    cx: CtxV,
    st: LowerV,
    x: IdentV,
    kind: SymbolKind,
    mutable: bool,
    k: InternId,
)
    requires
        st.scopes.len() > 0,
        st.locals.len() <= usize::MAX,
    ensures
        ({
            let (out, sym) = declare(cx, st, x, kind, mutable);
            let n = intern_id(st.names, x.name);
            &&& sym == SymbolId::Local(st.locals.len() as usize)
            &&& out.locals.len() == st.locals.len() + 1
            &&& lookup(out.scopes, n) == Some(sym)
            &&& k.raw != n.raw ==> lookup(out.scopes, k) == lookup(st.scopes, k)
            &&& out.exprs == st.exprs
            &&& out.diags == st.diags
        }),
{
    reveal(declare);
    let (out, sym) = declare(cx, st, x, kind, mutable);
    assert(out.scopes.drop_last() =~= st.scopes.drop_last());
}

/// A new scope binds nothing yet, and closing it gives back what was
/// bound before it was opened, whatever was declared in it.
pub proof fn law_scope_hides_nothing(
    cx: CtxV,
    st: LowerV,
    x: IdentV,
    kind: SymbolKind,
    mutable: bool,
    k: InternId,
)
    ensures
        lookup(open_scope(st).scopes, k) == lookup(st.scopes, k),
        close_scope(open_scope(st)).scopes == st.scopes,
        close_scope(declare(cx, open_scope(st), x, kind, mutable).0).scopes == st.scopes,
{
    reveal(declare);
    let inner = open_scope(st);
    assert(inner.scopes.drop_last() =~= st.scopes);
    assert(inner.scopes.last() == Map::<usize, usize>::empty());
    let out = declare(cx, inner, x, kind, mutable).0;
    assert(out.scopes.drop_last() =~= st.scopes);
}

/// A name in value position reads the nearest binding of it. Where it has
/// none, it is reported, and its node is poisoned.
pub proof fn law_name_reads_nearest_binding(cx: CtxV, st: LowerV, x: IdentV, span: Span)
    requires
        st.exprs.len() <= usize::MAX,
    ensures
        ({
            let (out, id) = lower_var(cx, st, x, span);
            let n = intern_id(st.names, x.name);
            &&& id.raw == st.exprs.len()
            &&& out.exprs.len() == st.exprs.len() + 1
            &&& out.exprs[id.raw as int].span == span
            &&& match lookup(st.scopes, n) {
                Some(sym) => out.exprs[id.raw as int].kind == HirExprKindV::Var(sym) && out.diags
                    == st.diags,
                None => out.exprs[id.raw as int].kind is Poison && out.diags.len()
                    == st.diags.len() + 1 && out.diags.last().code == Code::UnknownSymbol,
            }
        }),
{
    reveal(lower_var);
}

// ---------- paths ----------

/// A single name stands for the file's own definition of it, a function
/// before a `data`, or else for the imported one.
pub proof fn law_own_definition_before_imported(cx: CtxV, st: LowerV, p: PathV)
    requires
        p.segs.len() == 1,
    ensures
        ({
            let n = intern_id(st.names, p.segs[0].name).raw;
            let e = env_here(cx);
            let r = path_def(cx, st, p).1;
            match (entry(e.fns, n), entry(e.datas, n), entry(e.imports, n)) {
                (Some(d), _, _) => r == Ok::<DefId, PathErr>(DefId { raw: d }),
                (None, Some(d), _) => r == Ok::<DefId, PathErr>(DefId { raw: d }),
                (None, None, Some(d)) => r == Ok::<DefId, PathErr>(DefId { raw: d }),
                (None, None, None) => r == Err::<DefId, PathErr>(PathErr::NotFound),
            }
        }),
{
    reveal(path_def);
}

/// A qualified name stands for the member of that name of the file that
/// the module name is bound to, never for an import of that file.
pub proof fn law_qualified_definition(cx: CtxV, st: LowerV, p: PathV)
    requires
        p.segs.len() == 2,
    ensures
        ({
            let m = intern_id(st.names, p.segs[0].name).raw;
            let names = interned(st.names, p.segs[0].name);
            let n = intern_id(names, p.segs[1].name).raw;
            let r = path_def(cx, st, p).1;
            match entry(env_here(cx).modules, m) {
                None => r == Err::<DefId, PathErr>(PathErr::UnknownModule),
                Some(f) => match env_of(cx.scope, FileId { raw: f }) {
                    None => r == Err::<DefId, PathErr>(PathErr::UnknownMember),
                    Some(e) => match (entry(e.fns, n), entry(e.datas, n)) {
                        (Some(d), _) => r == Ok::<DefId, PathErr>(DefId { raw: d }),
                        (None, Some(d)) => r == Ok::<DefId, PathErr>(DefId { raw: d }),
                        (None, None) => r == Err::<DefId, PathErr>(PathErr::UnknownMember),
                    },
                },
            }
        }),
{
    reveal(path_def);
}

/// `T::V` stands for the variant `V` of the `data` that the file knows by
/// `T`, its own before an imported one.
pub proof fn law_variant_of_known_data(cx: CtxV, st: LowerV, p: PathV)
    requires
        p.segs.len() == 2,
    ensures
        ({
            let t = intern_id(st.names, p.segs[0].name).raw;
            let names = interned(st.names, p.segs[0].name);
            let v = intern_id(names, p.segs[1].name).raw;
            let e = env_here(cx);
            let data = match entry(e.datas, t) {
                Some(d) => Some(d),
                None => match entry(e.imports, t) {
                    Some(d) => if shape_of(cx.scope, DefId { raw: d }) is Some {
                        Some(d)
                    } else {
                        None
                    },
                    None => None,
                },
            };
            let r = variant_of(cx, st, p).1;
            match data {
                None => r == Err::<(DefId, usize), VariantErr>(VariantErr::NotFound),
                Some(d) => match shape_of(cx.scope, DefId { raw: d }) {
                    None => r == Err::<(DefId, usize), VariantErr>(
                        VariantErr::NotVariant(DefId { raw: d }),
                    ),
                    Some(shape) => match entry(shape.variant_index, v) {
                        Some(i) => r == Ok::<(DefId, usize), VariantErr>((DefId { raw: d }, i)),
                        None => r == Err::<(DefId, usize), VariantErr>(
                            VariantErr::NotVariant(DefId { raw: d }),
                        ),
                    },
                },
            }
        }),
{
    reveal(variant_of);
}

/// `m::T::V` stands for the variant `V` of the `data` `T` of the file
/// that the module name is bound to.
pub proof fn law_variant_of_qualified_data(cx: CtxV, st: LowerV, p: PathV)
    requires
        p.segs.len() == 3,
    ensures
        ({
            let m = intern_id(st.names, p.segs[0].name).raw;
            let names = interned(st.names, p.segs[0].name);
            let t = intern_id(names, p.segs[1].name).raw;
            let names2 = interned(names, p.segs[1].name);
            let v = intern_id(names2, p.segs[2].name).raw;
            let r = variant_of(cx, st, p).1;
            match entry(env_here(cx).modules, m) {
                None => r == Err::<(DefId, usize), VariantErr>(VariantErr::UnknownModule),
                Some(f) => match env_of(cx.scope, FileId { raw: f }) {
                    None => r == Err::<(DefId, usize), VariantErr>(VariantErr::NotFound),
                    Some(e) => match entry(e.datas, t) {
                        None => r == Err::<(DefId, usize), VariantErr>(VariantErr::NotFound),
                        Some(d) => match shape_of(cx.scope, DefId { raw: d }) {
                            None => r is Err,
                            Some(shape) => match entry(shape.variant_index, v) {
                                Some(i) => r == Ok::<(DefId, usize), VariantErr>(
                                    (DefId { raw: d }, i),
                                ),
                                None => r is Err,
                            },
                        },
                    },
                },
            }
        }),
{
    reveal(variant_of);
}

// ---------- nodes that name definitions ----------

/// The node that lowering appended last.
pub open spec fn last_kind(st: LowerV, id: ExprId) -> HirExprKindV {
    st.exprs[id.raw as int].kind
}

proof fn lemma_path_def_frame(cx: CtxV, st: LowerV, p: PathV)
    ensures
        path_def(cx, st, p).0.exprs == st.exprs,
        path_def(cx, st, p).0.diags == st.diags,
        path_def(cx, st, p).0.scopes == st.scopes,
{
    reveal(path_def);
}

proof fn lemma_variant_of_frame(cx: CtxV, st: LowerV, p: PathV)
    ensures
        variant_of(cx, st, p).0.exprs == st.exprs,
        variant_of(cx, st, p).0.diags == st.diags,
{
    reveal(variant_of);
}

/// A call of a path that stands for a function calls that function with
/// the arguments as they are; a path that stands for something else
/// cannot be called, and is reported.
pub proof fn law_call_calls_its_callee(
    cx: CtxV,
    st: LowerV,
    callee: PathV,
    args: Seq<ExprId>,
    span: Span,
    d: DefId,
)
    requires
        st.exprs.len() <= usize::MAX,
        path_def(cx, st, callee).1 == Ok::<DefId, PathErr>(d),
    ensures
        ({
            let (out, id) = lower_callee(cx, st, callee, args, span);
            if sig_of(cx.scope, d) is Some {
                last_kind(out, id) == (HirExprKindV::Call { def: d, args }) && out.diags
                    == st.diags
            } else {
                last_kind(out, id) is Poison && out.diags.len() == st.diags.len() + 1
                    && out.diags.last().code == Code::NotCallable
            }
        }),
{
    reveal(lower_callee);
    lemma_path_def_frame(cx, st, callee);
}

/// A call of a path that stands for no definition but for a variant
/// constructs that variant from the arguments.
pub proof fn law_call_constructs_its_variant(
    cx: CtxV,
    st: LowerV,
    callee: PathV,
    args: Seq<ExprId>,
    span: Span,
    d: DefId,
    v: usize,
)
    requires
        st.exprs.len() <= usize::MAX,
        callee.segs.len() != 1,
        path_def(cx, st, callee).1 is Err,
        variant_of(cx, path_def(cx, st, callee).0, callee).1 == Ok::<(DefId, usize), VariantErr>(
            (d, v),
        ),
    ensures
        ({
            let (out, id) = lower_callee(cx, st, callee, args, span);
            last_kind(out, id) == (HirExprKindV::VariantLit { def: d, variant: v, args })
                && out.diags == st.diags
        }),
{
    reveal(lower_callee);
    reveal(variant_or);
    lemma_path_def_frame(cx, st, callee);
    lemma_variant_of_frame(cx, path_def(cx, st, callee).0, callee);
}

/// A path in value position constructs the variant it stands for; a
/// definition is no value, and is reported.
pub proof fn law_path_constructs_its_variant(
    cx: CtxV,
    st: LowerV,
    p: PathV,
    span: Span,
)
    requires
        st.exprs.len() <= usize::MAX,
    ensures
        ({
            let (out, id) = lower_path(cx, st, p, span);
            match (path_def(cx, st, p).1, variant_of(cx, path_def(cx, st, p).0, p).1) {
                (Ok(d), _) => last_kind(out, id) is Poison && out.diags.len() == st.diags.len()
                    + 1 && out.diags.last().code == Code::UnknownSymbol,
                (Err(_), Ok((d, v))) => last_kind(out, id) == (HirExprKindV::VariantLit {
                    def: d,
                    variant: v,
                    args: Seq::empty(),
                }) && out.diags == st.diags,
                (Err(_), Err(_)) => last_kind(out, id) is Poison && out.diags.len()
                    == st.diags.len() + 1,
            }
        }),
{
    reveal(lower_path);
    reveal(variant_or);
    lemma_path_def_frame(cx, st, p);
    lemma_variant_of_frame(cx, path_def(cx, st, p).0, p);
}

/// A literal constructs the `data` its name stands for; any other name is
/// reported.
pub proof fn law_literal_constructs_its_data(
    cx: CtxV,
    st: LowerV,
    name: PathV,
    fields: Seq<(Name, ExprId)>,
    span: Span,
)
    requires
        st.exprs.len() <= usize::MAX,
    ensures
        ({
            let (out, id) = lower_struct(cx, st, name, fields, span);
            match path_def(cx, st, name).1 {
                Ok(d) => if shape_of(cx.scope, d) is Some {
                    last_kind(out, id) == (HirExprKindV::StructLit { def: d, fields })
                        && out.diags == st.diags
                } else {
                    last_kind(out, id) is Poison && out.diags.len() == st.diags.len() + 1
                },
                Err(_) => last_kind(out, id) is Poison && out.diags.len() == st.diags.len() + 1,
            }
        }),
{
    reveal(lower_struct);
    lemma_path_def_frame(cx, st, name);
}

/// A variant pattern matches the variant its path stands for.
pub proof fn law_pattern_matches_its_variant(
    cx: CtxV,
    st: LowerV,
    path: PathV,
    binds: Seq<IdentV>,
    span: Span,
)
    ensures
        ({
            let (out, h) = lower_pattern(cx, st, PatternV::Variant { path, binds, span });
            match variant_of(cx, st, path).1 {
                Ok((d, v)) => h matches HirPatV::Variant { def, variant, binds: bs, span: at }
                    && def == d && variant == v && at == span,
                Err(_) => h == HirPatV::Poison && out.diags.len() == st.diags.len() + 1,
            }
        }),
{
    reveal(lower_pattern);
    lemma_variant_of_frame(cx, st, path);
}

/// A type in a body is the builtin its one name writes, or else the
/// `data` its path stands for; anything else is reported.
pub proof fn law_named_type_in_body(cx: CtxV, st: LowerV, p: PathV)
    ensures
        ({
            let (out, r) = lower_type(cx, st, TypeExprV::Named { path: p });
            if p.segs.len() == 1 && builtin(p.segs[0].name) is Some {
                r == builtin(p.segs[0].name)->0 && out == st
            } else {
                match path_def(cx, st, p).1 {
                    Ok(d) => if shape_of(cx.scope, d) is Some {
                        r == TypeRef::Struct(d) && out.diags == st.diags
                    } else {
                        r == TypeRef::Poison && out.diags.len() == st.diags.len() + 1
                            && out.diags.last().code == Code::UnknownType
                    },
                    Err(_) => r == TypeRef::Poison && out.diags.len() == st.diags.len() + 1,
                }
            }
        }),
{
    reveal(lower_type);
    lemma_path_def_frame(cx, st, p);
}

/// The array of a type in a body holds that type, where an array can hold
/// it.
pub proof fn law_array_type_in_body(cx: CtxV, st: LowerV, t: TypeExprV)
    requires
        t is Array,
    ensures
        ({
            let (s1, e) = lower_type(cx, st, *t->Array_elem);
            let (out, r) = lower_type(cx, st, t);
            match e {
                TypeRef::Poison => out == s1 && r == TypeRef::Poison,
                TypeRef::Array { elem } => out.diags.len() == s1.diags.len() + 1 && r
                    == TypeRef::Poison,
                TypeRef::Unit => out.diags.len() == s1.diags.len() + 1 && r == TypeRef::Poison,
                _ => out == s1 && (r matches TypeRef::Array { elem } && crate::hir::elem_of(e)
                    == Some(elem)),
            }
        }),
{
    reveal_with_fuel(lower_type, 2);
}

} // verus!
