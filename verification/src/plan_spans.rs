//! Where the edits of a patch lie.
//!
//! On a snapshot that hangs together with its texts, every operation
//! edits whole characters of registered files.

use crate::ast::{item_span, type_span, FieldV, ItemV, ParamV, UseDeclV};
use crate::explain::base_of;
use crate::fxmap::entry;
use crate::hir::{
    shape_of, sig_of, HirExprKindV, HirExprV, HirStmtV, ModuleScopeV, Name, ParamDef, TypeRef,
};
use crate::patch::{PatchEditV, PatchErrorV, PatchOp};
use crate::patch_edits::{
    add_def_of, add_field_of, add_use_of, field_named, module_file_result, op_edits_of, param_named,
    remove_def_of, remove_field_of, remove_use_of, rename_field_of, rename_param_of,
    replace_body_of, set_field_type_of, set_param_type_of, set_ret_type_of, sig_param, target_item,
    tree_of, use_named,
};
use crate::patch_plan::{resolve_ops_of, ProbeV, ResolvedV};
use crate::seam::{
    back_spaces, byte_at, byte_outside, first_byte, is_space, least, pair_at, skip_spaces,
    type_site, with_newline,
};
use crate::snapshot::{
    all_field_sites, binding_sites, chain_sites, checked_of, data_of_local, expr_field_sites,
    exprs_field_sites, file_field_sites, fn_field_sites, init_sites, is_fn_of, item_of, lowered_of,
    source_of, stmts_field_sites, stmts_of, texts_fit, CheckedV, FieldRef, SnapV,
};
use crate::source::{lookup, name_of, span_abs, DefId, ExprId, FileId, InternId, Span};
use crate::spelling::{
    expr_fields_fit, field_fits, fields_fit, is_gap, is_inked, is_spelled, is_whole, item_fits,
    law_local_tokens_bear_the_name, lemma_back, lemma_back_blanks, lemma_byte_outside, lemma_ends,
    lemma_first_byte, lemma_narrow, lemma_skip, local_name, locals_are_spelled, names_fit,
    stmt_fields_fit, tree_fits,
};
use crate::target::provider;
use crate::text::{bytes_of, opt_text, slice_spec};
use vstd::prelude::*;

verus! {

/// The files of a scope are registered, every definition stands in one
/// of them, and what a file knows as its function is defined in it.
pub open spec fn scope_fits(s: SnapV) -> bool {
    &&& forall|i: int|
        0 <= i < s.scope.files.len() ==> (#[trigger] s.scope.files[i]).raw < s.sources.len()
    &&& forall|i: int|
        0 <= i < s.scope.defs.len() ==> s.scope.files.contains((#[trigger] s.scope.defs[i]).file)
    &&& forall|file: FileId, d: int|
        0 <= d < s.scope.defs.len() && #[trigger] is_fn_of(s.scope, file, d)
            ==> s.scope.defs[d].file == file
}

/// The parameters of a signature are locals of the body, under their
/// own names.
pub open spec fn params_agree(s: SnapV, def: DefId) -> bool {
    (sig_of(s.scope, def) matches Some(sig) && lowered_of(s, def) matches Some(b)) ==> forall|
        i: int,
    |
        0 <= i < sig_of(s.scope, def)->0.params.len() ==> {
            let p = #[trigger] sig_of(s.scope, def)->0.params[i];
            local_name(lowered_of(s, def)->0, s.names, p.symbol) == Some(name_of(s.names, p.name))
        }
}

/// The bodies of a definition hang together with the text of its file.
pub open spec fn def_fits(s: SnapV, def: DefId) -> bool {
    let src = source_of(s, s.scope.defs[def.raw as int].file);
    &&& params_agree(s, def)
    &&& lowered_of(s, def) matches Some(b) ==> locals_are_spelled(src, s.names, base_of(s, def), b)
    &&& checked_of(s, def) matches Some(c) ==> fields_fit(src, base_of(s, def), c.body)
}

/// A snapshot hangs together with its texts: the trees, the bodies and
/// the scope of its workspace do.
pub open spec fn snap_fits(s: SnapV) -> bool {
    &&& texts_fit(s.sources)
    &&& forall|i: int|
        0 <= i < s.scope.files.len() ==> tree_fits(
            source_of(s, #[trigger] s.scope.files[i]),
            tree_of(s, s.scope.files[i]),
        )
    &&& scope_fits(s)
    &&& forall|d: DefId| d.raw < s.scope.defs.len() ==> #[trigger] def_fits(s, d)
}

/// An edit lies on whole characters of a registered file.
pub open spec fn lies_in(s: SnapV, e: PatchEditV) -> bool {
    e.file.raw < s.sources.len() && slice_spec(
        s.sources[e.file.raw as int],
        e.span.start as int,
        e.span.end as int,
    ) is Some
}

/// Every edit lies on whole characters of a registered file.
pub open spec fn all_lie_in(s: SnapV, es: Seq<PatchEditV>) -> bool {
    forall|i: int| 0 <= i < es.len() ==> lies_in(s, #[trigger] es[i])
}

// ---------- targets ----------

proof fn lemma_target(s: SnapV, root: FileId, symbol: Seq<char>)
    requires
        snap_fits(s),
    ensures
        target_item(s, root, symbol) matches Ok(t) ==> {
            &&& t.def.raw < s.scope.defs.len()
            &&& item_of(s, t.def) == Some(t.item)
            &&& t.file == s.scope.defs[t.def.raw as int].file
            &&& t.file.raw < s.sources.len()
            &&& item_fits(source_of(s, t.file), t.item)
            &&& def_fits(s, t.def)
        },
{
    if let Ok(t) = target_item(s, root, symbol) {
        let d = s.scope.defs[t.def.raw as int];
        let i = choose|i: int| 0 <= i < s.scope.files.len() && s.scope.files[i] == d.file;
        assert(tree_fits(source_of(s, s.scope.files[i]), tree_of(s, s.scope.files[i])));
        assert(def_fits(s, t.def));
    }
}

proof fn lemma_provider(s: ModuleScopeV, files: Seq<FileId>, id: InternId)
    ensures
        provider(s, files, id) matches Some(f) ==> files.contains(f),
    decreases files.len(),
{
    if files.len() > 0 {
        let head = files.drop_last();
        lemma_provider(s, head, id);
        if let Some(f) = provider(s, head, id) {
            let i = choose|i: int| 0 <= i < head.len() && head[i] == f;
            assert(files[i] == f);
        } else {
            assert(files[files.len() - 1] == files.last());
        }
    }
}

proof fn lemma_module_file(s: SnapV, root: FileId, module: Option<Seq<char>>)
    requires
        snap_fits(s),
        s.scope.files.contains(root),
    ensures
        module_file_result(s, root, module) matches Ok(f) ==> f.raw < s.sources.len()
            && tree_fits(source_of(s, f), tree_of(s, f)),
{
    if let Some(m) = module {
        if let Some(id) = lookup(s.names, m) {
            lemma_provider(s.scope, s.scope.files, id);
        }
    }
    if let Ok(f) = module_file_result(s, root, module) {
        let i = choose|i: int| 0 <= i < s.scope.files.len() && s.scope.files[i] == f;
        assert(tree_fits(source_of(s, s.scope.files[i]), tree_of(s, s.scope.files[i])));
    }
}

// ---------- spans ----------

proof fn lemma_with_newline(src: Seq<char>, span: Span)
    requires
        is_whole(src, span),
        bytes_of(src).len() <= u32::MAX,
    ensures
        is_whole(src, with_newline(bytes_of(src), span)),
{
    let b = bytes_of(src);
    let e = span.end as int;
    if pair_at(b, e, 0xd, 0xa) {
        lemma_narrow(src, e + 1);
    } else if byte_at(b, e, 0xa) {
        lemma_narrow(src, e);
    }
}

proof fn lemma_ink(src: Seq<char>, span: Span)
    requires
        is_inked(src, span),
    ensures
        span.start <= skip_spaces(bytes_of(src), span.start as int) < span.end,
        is_gap(src, skip_spaces(bytes_of(src), span.start as int)),
{
    let p = choose|p: int|
        span.start <= p < span.end && !is_space(#[trigger] bytes_of(src)[p]);
    lemma_skip(src, span.start as int, p);
}

proof fn lemma_type_site(src: Seq<char>, span: Span)
    requires
        is_inked(src, span),
        bytes_of(src).len() <= u32::MAX,
    ensures
        type_site(bytes_of(src), span) matches Some(site) ==> is_whole(src, site) && site.start
            >= span.start,
{
    lemma_ink(src, span);
}

// ---------- one operation each ----------

proof fn lemma_replace_body(
    s: SnapV,
    root: FileId,
    op: usize,
    symbol: Seq<char>,
    body: Seq<char>,
)
    requires
        snap_fits(s),
    ensures
        replace_body_of(s, root, op, symbol, body) matches Ok(x) ==> all_lie_in(s, x.edits),
{
    lemma_target(s, root, symbol);
    if let Ok(t) = target_item(s, root, symbol) {
        if let ItemV::Fn(f) = t.item {
            lemma_ink(source_of(s, t.file), f.body.span);
        }
    }
}

proof fn lemma_remove_def(s: SnapV, root: FileId, op: usize, symbol: Seq<char>)
    requires
        snap_fits(s),
    ensures
        remove_def_of(s, root, op, symbol) matches Ok(x) ==> all_lie_in(s, x.edits),
{
    lemma_target(s, root, symbol);
    if let Ok(t) = target_item(s, root, symbol) {
        lemma_with_newline(source_of(s, t.file), item_span(t.item));
    }
}

proof fn lemma_add_def(
    s: SnapV,
    root: FileId,
    op: usize,
    module: Option<Seq<char>>,
    text: Seq<char>,
    added: Option<Seq<char>>,
)
    requires
        snap_fits(s),
        s.scope.files.contains(root),
    ensures
        add_def_of(s, root, op, module, text, added) matches Ok(x) ==> all_lie_in(s, x.edits),
{
    lemma_module_file(s, root, module);
    if let Ok(f) = module_file_result(s, root, module) {
        lemma_ends(source_of(s, f));
    }
}

proof fn lemma_sig_param(ps: Seq<ParamDef>, id: InternId)
    ensures
        sig_param(ps, id) matches Some(p) ==> p.name == id && exists|i: int|
            0 <= i < ps.len() && #[trigger] ps[i] == p,
    decreases ps.len(),
{
    if ps.len() > 0 {
        let head = ps.drop_last();
        lemma_sig_param(head, id);
        match sig_param(head, id) {
            Some(p) => {
                let i = choose|i: int| 0 <= i < head.len() && #[trigger] head[i] == p;
                assert(ps[i] == p);
            },
            None => {
                assert(ps[ps.len() - 1] == ps.last());
            },
        }
    }
}

proof fn lemma_lookup(names: Seq<Seq<char>>, name: Seq<char>)
    requires
        names.len() <= usize::MAX,
    ensures
        lookup(names, name) matches Some(id) ==> name_of(names, id) == name,
{
    crate::source::lemma_position(names, name);
}

proof fn lemma_rename_param(
    s: SnapV,
    root: FileId,
    op: usize,
    symbol: Seq<char>,
    param: Seq<char>,
    to: Seq<char>,
)
    requires
        snap_fits(s),
        s.names.len() <= usize::MAX,
    ensures
        rename_param_of(s, root, op, symbol, param, to) matches Ok(x) ==> all_lie_in(s, x.edits),
{
    lemma_target(s, root, symbol);
    if let Ok(x) = rename_param_of(s, root, op, symbol, param, to) {
        let t = target_item(s, root, symbol)->Ok_0;
        let sig = sig_of(s.scope, t.def)->0;
        let id = lookup(s.names, param)->0;
        let p = sig_param(sig.params, id)->0;
        let body = lowered_of(s, t.def)->0;
        let base = item_span(t.item).start;
        lemma_lookup(s.names, param);
        lemma_sig_param(sig.params, id);
        let i = choose|i: int| 0 <= i < sig.params.len() && #[trigger] sig.params[i] == p;
        assert(params_agree(s, t.def));
        assert(sig_of(s.scope, t.def)->0.params[i] == p);
        assert(local_name(body, s.names, p.symbol) == Some(param));
        law_local_tokens_bear_the_name(
            source_of(s, t.file),
            s.names,
            base,
            body,
            p.symbol,
        );
        let v = binding_sites(body, p.symbol, bytes_of(param).len(), base);
        assert forall|k: int| 0 <= k < x.edits.len() implies lies_in(s, #[trigger] x.edits[k]) by {
            assert(is_spelled(source_of(s, t.file), v[k], param));
        }
    }
}

proof fn lemma_param_named(ps: Seq<ParamV>, name: Seq<char>)
    ensures
        param_named(ps, name) matches Some(i) ==> 0 <= i < ps.len(),
    decreases ps.len(),
{
    if ps.len() > 0 {
        lemma_param_named(ps.drop_last(), name);
    }
}

proof fn lemma_field_named(fs: Seq<FieldV>, name: Seq<char>)
    ensures
        field_named(fs, name) matches Some(i) ==> 0 <= i < fs.len(),
    decreases fs.len(),
{
    if fs.len() > 0 {
        lemma_field_named(fs.drop_last(), name);
    }
}

proof fn lemma_use_named(
    us: Seq<UseDeclV>,
    path: Seq<char>,
    alias: Option<Seq<char>>,
)
    ensures
        use_named(us, path, alias) matches Some(i) ==> 0 <= i < us.len(),
    decreases us.len(),
{
    if us.len() > 0 {
        lemma_use_named(us.drop_last(), path, alias);
    }
}

proof fn lemma_set_param_type(
    s: SnapV,
    root: FileId,
    op: usize,
    symbol: Seq<char>,
    param: Seq<char>,
    ty: Seq<char>,
)
    requires
        snap_fits(s),
    ensures
        set_param_type_of(s, root, op, symbol, param, ty) matches Ok(x) ==> all_lie_in(
            s,
            x.edits,
        ),
{
    lemma_target(s, root, symbol);
    if let Ok(t) = target_item(s, root, symbol) {
        if let ItemV::Fn(f) = t.item {
            lemma_param_named(f.params, param);
            if let Some(i) = param_named(f.params, param) {
                assert(is_inked(
                    source_of(s, t.file),
                    type_span(f.params[i].ty),
                ));
                lemma_type_site(source_of(s, t.file), type_span(f.params[i].ty));
            }
        }
    }
}

proof fn lemma_set_ret_type(
    s: SnapV,
    root: FileId,
    op: usize,
    symbol: Seq<char>,
    ty: Option<Seq<char>>,
)
    requires
        snap_fits(s),
    ensures
        set_ret_type_of(s, root, op, symbol, ty) matches Ok(x) ==> all_lie_in(s, x.edits),
{
    lemma_target(s, root, symbol);
    if let Ok(t) = target_item(s, root, symbol) {
        if let ItemV::Fn(f) = t.item {
            let src = source_of(s, t.file);
            let b = bytes_of(src);
            match f.ret {
                Some(ret) => {
                    let span = type_span(ret);
                    lemma_type_site(src, span);
                    if let Some(site) = type_site(b, span) {
                        lemma_back(src, site.start as int);
                        let p = back_spaces(b, site.start as int);
                        if p >= 2 && pair_at(b, p - 2, 0x2d, 0x3e) {
                            lemma_narrow(src, p - 2);
                            lemma_back_blanks(src, p - 2);
                        }
                    }
                },
                None => {
                    lemma_back(src, f.body.span.start as int);
                },
            }
        }
    }
}

proof fn lemma_add_use(
    s: SnapV,
    root: FileId,
    op: usize,
    module: Option<Seq<char>>,
    path: Seq<char>,
    alias: Option<Seq<char>>,
)
    requires
        snap_fits(s),
        s.scope.files.contains(root),
    ensures
        add_use_of(s, root, op, module, path, alias) matches Ok(x) ==> all_lie_in(s, x.edits),
{
    lemma_module_file(s, root, module);
    if let Ok(f) = module_file_result(s, root, module) {
        let src = source_of(s, f);
        let b = bytes_of(src);
        let ast = tree_of(s, f);
        lemma_ends(src);
        if ast.uses.len() > 0 {
            let e = ast.uses.last().span.end as int;
            lemma_first_byte(b, e, 0xa);
            if let Some(p) = first_byte(b, e, 0xa) {
                lemma_narrow(src, p);
            }
        } else if ast.items.len() > 0 {
            assert(item_fits(src, ast.items[0]));
        }
    }
}

proof fn lemma_remove_use(
    s: SnapV,
    root: FileId,
    op: usize,
    module: Option<Seq<char>>,
    path: Seq<char>,
    alias: Option<Seq<char>>,
)
    requires
        snap_fits(s),
        s.scope.files.contains(root),
    ensures
        remove_use_of(s, root, op, module, path, alias) matches Ok(x) ==> all_lie_in(s, x.edits),
{
    lemma_module_file(s, root, module);
    if let Ok(f) = module_file_result(s, root, module) {
        let us = tree_of(s, f).uses;
        lemma_use_named(us, path, alias);
        if let Some(i) = use_named(us, path, alias) {
            assert(is_whole(source_of(s, f), us[i].span));
            lemma_with_newline(source_of(s, f), us[i].span);
        }
    }
}

proof fn lemma_add_field(
    s: SnapV,
    root: FileId,
    op: usize,
    symbol: Seq<char>,
    field: Seq<char>,
    ty: Seq<char>,
)
    requires
        snap_fits(s),
    ensures
        add_field_of(s, root, op, symbol, field, ty) matches Ok(x) ==> all_lie_in(s, x.edits),
{
    lemma_target(s, root, symbol);
    if let Ok(t) = target_item(s, root, symbol) {
        if let ItemV::Data(d) = t.item {
            let src = source_of(s, t.file);
            let b = bytes_of(src);
            if d.fields.len() > 0 {
                assert(field_fits(src, d.fields[d.fields.len() - 1]));
            } else {
                let from = d.name.span.end as int;
                let lim = least(d.span.end as int, b.len() as int);
                lemma_byte_outside(b, from, lim, 0x7b);
                if let Some(p) = byte_outside(b, from, lim, 0x7b) {
                    lemma_narrow(src, p);
                }
            }
        }
    }
}

proof fn lemma_remove_field(
    s: SnapV,
    root: FileId,
    op: usize,
    symbol: Seq<char>,
    field: Seq<char>,
)
    requires
        snap_fits(s),
    ensures
        remove_field_of(s, root, op, symbol, field) matches Ok(x) ==> all_lie_in(s, x.edits),
{
    lemma_target(s, root, symbol);
    if let Ok(t) = target_item(s, root, symbol) {
        if let ItemV::Data(d) = t.item {
            lemma_field_named(d.fields, field);
            if let Some(i) = field_named(d.fields, field) {
                assert(field_fits(source_of(s, t.file), d.fields[i]));
            }
        }
    }
}

proof fn lemma_set_field_type(
    s: SnapV,
    root: FileId,
    op: usize,
    symbol: Seq<char>,
    field: Seq<char>,
    ty: Seq<char>,
)
    requires
        snap_fits(s),
    ensures
        set_field_type_of(s, root, op, symbol, field, ty) matches Ok(x) ==> all_lie_in(
            s,
            x.edits,
        ),
{
    lemma_target(s, root, symbol);
    if let Ok(t) = target_item(s, root, symbol) {
        if let ItemV::Data(d) = t.item {
            lemma_field_named(d.fields, field);
            if let Some(i) = field_named(d.fields, field) {
                assert(field_fits(source_of(s, t.file), d.fields[i]));
                lemma_type_site(source_of(s, t.file), type_span(d.fields[i].ty));
            }
        }
    }
}

// ---------- the sites of a field ----------

/// Spans that lie on whole characters once they count from `base`.
pub open spec fn all_whole(src: Seq<char>, base: u32, v: Seq<Span>) -> bool {
    forall|i: int| 0 <= i < v.len() ==> is_whole(src, span_abs(#[trigger] v[i], base))
}

proof fn lemma_all_whole_cat(src: Seq<char>, base: u32, v: Seq<Span>, w: Seq<Span>)
    requires
        all_whole(src, base, v),
        all_whole(src, base, w),
    ensures
        all_whole(src, base, v + w),
{
    let x = v + w;
    assert forall|i: int| 0 <= i < x.len() implies is_whole(
        src,
        span_abs(#[trigger] x[i], base),
    ) by {
        if i < v.len() {
            assert(x[i] == v[i]);
        } else {
            assert(x[i] == w[i - v.len()]);
        }
    }
}

proof fn lemma_init_sites(
    src: Seq<char>,
    base: u32,
    fs: Seq<(Name, ExprId)>,
    f: FieldRef,
)
    requires
        forall|i: int|
            0 <= i < fs.len() ==> is_whole(src, span_abs((#[trigger] fs[i]).0.span, base)),
    ensures
        all_whole(src, base, init_sites(fs, f)),
    decreases fs.len(),
{
    if fs.len() > 0 {
        let head = fs.drop_last();
        assert forall|i: int| 0 <= i < head.len() implies is_whole(
            src,
            span_abs((#[trigger] head[i]).0.span, base),
        ) by {
            assert(head[i] == fs[i]);
        }
        lemma_init_sites(src, base, head, f);
        assert(is_whole(src, span_abs(fs[fs.len() - 1].0.span, base)));
        let one = seq![fs.last().0.span];
        lemma_all_whole_cat(src, base, init_sites(head, f), one);
        assert(init_sites(head, f) + one =~= init_sites(head, f).push(fs.last().0.span));
    }
}

proof fn lemma_exprs_field_sites(
    src: Seq<char>,
    base: u32,
    c: CheckedV,
    es: Seq<HirExprV>,
    f: FieldRef,
)
    requires
        forall|i: int| 0 <= i < es.len() ==> expr_fields_fit(src, base, #[trigger] es[i]),
    ensures
        all_whole(src, base, exprs_field_sites(c, es, f)),
    decreases es.len(),
{
    if es.len() > 0 {
        let head = es.drop_last();
        assert forall|i: int| 0 <= i < head.len() implies expr_fields_fit(
            src,
            base,
            #[trigger] head[i],
        ) by {
            assert(head[i] == es[i]);
        }
        lemma_exprs_field_sites(src, base, c, head, f);
        let e = es[es.len() - 1];
        assert(expr_fields_fit(src, base, e));
        if let HirExprKindV::StructLit { def, fields } = e.kind {
            lemma_init_sites(src, base, fields, f);
        }
        lemma_all_whole_cat(
            src,
            base,
            exprs_field_sites(c, head, f),
            expr_field_sites(c, e, f),
        );
    }
}

proof fn lemma_chain_sites(
    src: Seq<char>,
    base: u32,
    s: ModuleScopeV,
    cur: Option<DefId>,
    fs: Seq<Name>,
    f: FieldRef,
)
    requires
        names_fit(src, base, fs),
    ensures
        all_whole(src, base, chain_sites(s, cur, fs, f)),
    decreases fs.len(),
{
    if fs.len() > 0 && cur is Some {
        if let Some(shape) = shape_of(s, cur->0) {
            if let Some(i) = entry(shape.field_index, fs[0].id.raw) {
                let here = if cur->0 == f.data && i == f.index {
                    seq![fs[0].span]
                } else {
                    Seq::empty()
                };
                let next = if i < shape.fields.len() {
                    match shape.fields[i as int].ty {
                        TypeRef::Struct(d) => Some(d),
                        _ => None,
                    }
                } else {
                    None
                };
                let rest = fs.skip(1);
                assert forall|k: int| 0 <= k < rest.len() implies is_whole(
                    src,
                    span_abs((#[trigger] rest[k]).span, base),
                ) by {
                    assert(rest[k] == fs[k + 1]);
                }
                lemma_chain_sites(src, base, s, next, rest, f);
                assert(is_whole(src, span_abs(fs[0].span, base)));
                lemma_all_whole_cat(src, base, here, chain_sites(s, next, rest, f));
            }
        }
    }
}

proof fn lemma_stmts_field_sites(
    src: Seq<char>,
    base: u32,
    s: ModuleScopeV,
    c: CheckedV,
    ss: Seq<HirStmtV>,
    f: FieldRef,
)
    requires
        forall|i: int| 0 <= i < ss.len() ==> stmt_fields_fit(src, base, #[trigger] ss[i]),
    ensures
        all_whole(src, base, stmts_field_sites(s, c, ss, f)),
    decreases ss.len(),
{
    if ss.len() > 0 {
        let head = ss.drop_last();
        assert forall|i: int| 0 <= i < head.len() implies stmt_fields_fit(
            src,
            base,
            #[trigger] head[i],
        ) by {
            assert(head[i] == ss[i]);
        }
        lemma_stmts_field_sites(src, base, s, c, head, f);
        let st = ss[ss.len() - 1];
        assert(stmt_fields_fit(src, base, st));
        if let HirStmtV::Assign { target, value, span } = st {
            let cur = data_of_local(c, target.base);
            lemma_chain_sites(src, base, s, cur, target.fields, f);
            lemma_all_whole_cat(
                src,
                base,
                stmts_field_sites(s, c, head, f),
                chain_sites(s, cur, target.fields, f),
            );
        }
    }
}

/// Sites that lie on whole characters of registered files.
pub open spec fn sites_fit(s: SnapV, v: Seq<(FileId, Span)>) -> bool {
    forall|i: int|
        0 <= i < v.len() ==> (#[trigger] v[i]).0.raw < s.sources.len() && is_whole(
            s.sources[v[i].0.raw as int],
            v[i].1,
        )
}

proof fn lemma_sites_cat(s: SnapV, v: Seq<(FileId, Span)>, w: Seq<(FileId, Span)>)
    requires
        sites_fit(s, v),
        sites_fit(s, w),
    ensures
        sites_fit(s, v + w),
{
    let x = v + w;
    assert forall|i: int| 0 <= i < x.len() implies (#[trigger] x[i]).0.raw < s.sources.len()
        && is_whole(s.sources[x[i].0.raw as int], x[i].1) by {
        if i < v.len() {
            assert(x[i] == v[i]);
        } else {
            assert(x[i] == w[i - v.len()]);
        }
    }
}

proof fn lemma_fn_field_sites(s: SnapV, file: FileId, d: int, f: FieldRef)
    requires
        snap_fits(s),
        file.raw < s.sources.len(),
        0 <= d < s.scope.defs.len(),
        s.scope.defs.len() <= usize::MAX,
        s.scope.defs[d].file == file,
    ensures
        sites_fit(s, fn_field_sites(s, file, d, f)),
{
    let def = DefId { raw: d as usize };
    assert(def_fits(s, def));
    if let (Some(item), Some(c)) = (item_of(s, def), checked_of(s, def)) {
        let src = source_of(s, file);
        let base = item_span(item).start;
        let a = exprs_field_sites(c, c.body.exprs, f);
        let b = stmts_field_sites(s.scope, c, stmts_of(c.body.exprs), f);
        assert(fields_fit(src, base, c.body));
        lemma_exprs_field_sites(src, base, c, c.body.exprs, f);
        lemma_stmts_field_sites(src, base, s.scope, c, stmts_of(c.body.exprs), f);
        lemma_all_whole_cat(src, base, a, b);
        let v = fn_field_sites(s, file, d, f);
        assert forall|i: int| 0 <= i < v.len() implies (#[trigger] v[i]).0.raw < s.sources.len()
            && is_whole(s.sources[v[i].0.raw as int], v[i].1) by {
            assert(v[i] == (file, span_abs((a + b)[i], base)));
        }
    }
}

proof fn lemma_file_field_sites(s: SnapV, file: FileId, n: int, f: FieldRef)
    requires
        snap_fits(s),
        file.raw < s.sources.len(),
        n <= s.scope.defs.len() <= usize::MAX,
    ensures
        sites_fit(s, file_field_sites(s, file, n, f)),
    decreases n,
{
    if n > 0 {
        lemma_file_field_sites(s, file, n - 1, f);
        if is_fn_of(s.scope, file, n - 1) {
            lemma_fn_field_sites(s, file, n - 1, f);
            lemma_sites_cat(
                s,
                file_field_sites(s, file, n - 1, f),
                fn_field_sites(s, file, n - 1, f),
            );
        }
    }
}

proof fn lemma_all_field_sites(s: SnapV, files: Seq<FileId>, f: FieldRef)
    requires
        snap_fits(s),
        s.scope.defs.len() <= usize::MAX,
        forall|i: int| 0 <= i < files.len() ==> (#[trigger] files[i]).raw < s.sources.len(),
    ensures
        sites_fit(s, all_field_sites(s, files, f)),
    decreases files.len(),
{
    if files.len() > 0 {
        let head = files.drop_last();
        assert forall|i: int| 0 <= i < head.len() implies (#[trigger] head[i]).raw
            < s.sources.len() by {
            assert(head[i] == files[i]);
        }
        lemma_all_field_sites(s, head, f);
        let last = files[files.len() - 1];
        lemma_file_field_sites(s, last, s.scope.defs.len() as int, f);
        lemma_sites_cat(
            s,
            all_field_sites(s, head, f),
            file_field_sites(s, last, s.scope.defs.len() as int, f),
        );
    }
}

proof fn lemma_rename_field(
    s: SnapV,
    root: FileId,
    op: usize,
    symbol: Seq<char>,
    field: Seq<char>,
    to: Seq<char>,
)
    requires
        snap_fits(s),
        s.scope.defs.len() <= usize::MAX,
    ensures
        rename_field_of(s, root, op, symbol, field, to) matches Ok(x) ==> all_lie_in(s, x.edits),
{
    lemma_target(s, root, symbol);
    if let Ok(x) = rename_field_of(s, root, op, symbol, field, to) {
        let t = target_item(s, root, symbol)->Ok_0;
        let d = t.item->Data_0;
        let id = lookup(s.names, field)->0;
        let index = entry(shape_of(s.scope, t.def)->0.field_index, id.raw)->0;
        let f = FieldRef { data: t.def, index, name: id };
        lemma_all_field_sites(s, s.scope.files, f);
        let v = all_field_sites(s, s.scope.files, f);
        assert(field_fits(source_of(s, t.file), d.fields[index as int]));
        assert forall|k: int| 0 <= k < x.edits.len() implies lies_in(s, #[trigger] x.edits[k]) by {
            if k > 0 {
                assert(v[k - 1].0.raw < s.sources.len());
            }
        }
    }
}

// ---------- every operation ----------

/// On a snapshot that hangs together with its texts, an operation edits
/// whole characters of registered files.
pub proof fn law_edits_lie_in(
    s: SnapV,
    root: FileId,
    i: usize,
    op: PatchOp,
    added: Option<Seq<char>>,
)
    requires
        snap_fits(s),
        s.scope.files.contains(root),
        s.names.len() <= usize::MAX,
        s.scope.defs.len() <= usize::MAX,
    ensures
        op_edits_of(s, root, i, op, added) matches Ok(x) ==> all_lie_in(s, x.edits),
{
    match op {
        PatchOp::ReplaceBody { symbol, body } => {
            lemma_replace_body(s, root, i, symbol@, body@);
        },
        PatchOp::RemoveDef { symbol } => {
            lemma_remove_def(s, root, i, symbol@);
        },
        PatchOp::AddDef { module, text } => {
            lemma_add_def(s, root, i, opt_text(module), text@, added);
        },
        PatchOp::RenameParam { symbol, param, to } => {
            lemma_rename_param(s, root, i, symbol@, param@, to@);
        },
        PatchOp::SetParamType { symbol, param, ty } => {
            lemma_set_param_type(s, root, i, symbol@, param@, ty@);
        },
        PatchOp::SetRetType { symbol, ty } => {
            lemma_set_ret_type(s, root, i, symbol@, opt_text(ty));
        },
        PatchOp::AddUse { module, path, alias } => {
            lemma_add_use(s, root, i, opt_text(module), path@, opt_text(alias));
        },
        PatchOp::RemoveUse { module, path, alias } => {
            lemma_remove_use(s, root, i, opt_text(module), path@, opt_text(alias));
        },
        PatchOp::AddField { symbol, field, ty } => {
            lemma_add_field(s, root, i, symbol@, field@, ty@);
        },
        PatchOp::RemoveField { symbol, field } => {
            lemma_remove_field(s, root, i, symbol@, field@);
        },
        PatchOp::RenameField { symbol, field, to } => {
            lemma_rename_field(s, root, i, symbol@, field@, to@);
        },
        PatchOp::SetFieldType { symbol, field, ty } => {
            lemma_set_field_type(s, root, i, symbol@, field@, ty@);
        },
    }
}

/// On a snapshot that hangs together with its texts, a list of
/// operations edits whole characters of registered files.
pub proof fn law_all_edits_lie_in(
    s: SnapV,
    root: FileId,
    ops: Seq<PatchOp>,
    ps: Seq<ProbeV>,
    x: ResolvedV,
)
    requires
        snap_fits(s),
        s.scope.files.contains(root),
        s.names.len() <= usize::MAX,
        s.scope.defs.len() <= usize::MAX,
        resolve_ops_of(s, root, ops, ps) == Ok::<ResolvedV, PatchErrorV>(x),
    ensures
        all_lie_in(s, x.edits),
    decreases ops.len(),
{
    if ops.len() > 0 {
        let i = ops.len() - 1;
        let done = resolve_ops_of(s, root, ops.drop_last(), ps)->Ok_0;
        law_all_edits_lie_in(s, root, ops.drop_last(), ps, done);
        let added = crate::patch::declared_name(ops[i], ps[i].ast);
        let y = op_edits_of(s, root, i as usize, ops[i], added)->Ok_0;
        law_edits_lie_in(s, root, i as usize, ops[i], added);
        assert forall|k: int| 0 <= k < x.edits.len() implies lies_in(s, #[trigger] x.edits[k]) by {
            if k < done.edits.len() {
                assert(x.edits[k] == done.edits[k]);
            } else {
                assert(x.edits[k] == y.edits[k - done.edits.len()]);
            }
        }
    }
}

} // verus!
