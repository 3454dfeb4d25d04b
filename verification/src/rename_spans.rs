//! Where the edits of a rename lie.
//!
//! On a snapshot whose names are spelled, every site of a rename bears
//! the old name.

use crate::ast::{
    item_name, type_path, BlockV, ExprV, FieldInitV, FieldV, ItemV, MatchArmV, ParamV, PathV,
    PatternV, StmtV, TypeExprV, UseDeclV, VariantV,
};
use crate::diagnostic::DiagnosticV;
use crate::explain::base_of;
use crate::fxmap::entry;
use crate::hir::{def_intern, env_of, HirBodyV, ModuleScopeV};
use crate::hir_lower::member_of;
use crate::order::{lemma_sorted_all, sorted};
use crate::patch::Lexed;
use crate::patch_edits::tree_of;
use crate::plan_spans::{def_fits, scope_fits, snap_fits};
use crate::rename::{
    deduped, files_edits, rename_candidate, site_edits, site_order, RenameCandidateV, RenameErrorV,
};
use crate::rename_local::{local_at, local_candidate, local_sites, picked};
use crate::rename_scan::{
    arms_sites, bare_hit, block_sites, data_hit, declares, def_path_sites, expr_sites, exprs_sites,
    fields_sites, file_sites, inits_sites, item_sites, items_sites, member_at, module_hit,
    params_sites, pattern_sites, stmt_sites, stmts_sites, type_sites, types_sites, unaliased_of,
    use_names, use_sites, value_path_sites, variant_path_sites, variants_sites, ScanV,
};
use crate::snapshot::{item_of, lowered_of, source_of, SnapV};
use crate::source::{lookup, name_of, DefId, FileId, InternId, Span, SymbolId};
use crate::spelling::{
    all_spelled, arms_spelled, block_spelled, expr_spelled, exprs_spelled, ident_spelled,
    inits_spelled, is_spelled, item_spelled, law_local_tokens_bear_the_name, path_spelled,
    stmt_spelled, stmts_spelled, tree_spelled, type_spelled,
};
use crate::splice::EditV;
use crate::target::{own_member, target_of};
use vstd::prelude::*;

verus! {

/// What a file knows as a function or as data, it knows by the name of
/// the definition.
pub open spec fn env_by_name(s: ModuleScopeV, file: FileId) -> bool {
    env_of(s, file) matches Some(e) ==> {
        &&& forall|k: usize|
            (#[trigger] entry(e.fns, k)) matches Some(d) ==> def_intern(s, DefId { raw: d })
                == Some(InternId { raw: k })
        &&& forall|k: usize|
            (#[trigger] entry(e.datas, k)) matches Some(d) ==> def_intern(s, DefId { raw: d })
                == Some(InternId { raw: k })
    }
}

/// The item of a definition has the definition's name.
pub open spec fn item_by_name(s: SnapV, def: DefId) -> bool {
    (item_of(s, def) is Some && def_intern(s.scope, def) is Some) ==> item_name(
        item_of(s, def)->0,
    ).name == name_of(s.names, def_intern(s.scope, def)->0)
}

/// The scope of a snapshot knows definitions by their names.
pub open spec fn scope_by_name(s: SnapV) -> bool {
    &&& forall|file: FileId| #[trigger] env_by_name(s.scope, file)
    &&& forall|d: DefId| d.raw < s.scope.defs.len() ==> #[trigger] item_by_name(s, d)
}

/// The names of a snapshot are spelled: in the trees of its workspace
/// each name's span covers the name, and its scope knows definitions by
/// their names.
pub open spec fn snap_spelled(s: SnapV) -> bool {
    &&& forall|i: int|
        0 <= i < s.scope.files.len() ==> tree_spelled(
            source_of(s, #[trigger] s.scope.files[i]),
            tree_of(s, s.scope.files[i]),
        )
    &&& scope_fits(s)
    &&& scope_by_name(s)
}

// ---------- hits ----------

/// A scan finds its target by the name `name` only.
pub open spec fn scan_by_name(cx: ScanV, name: Seq<char>) -> bool {
    &&& cx.names.len() <= usize::MAX
    &&& env_of(cx.scope, cx.file) == Some(cx.env)
    &&& forall|file: FileId| #[trigger] env_by_name(cx.scope, file)
    &&& def_intern(cx.scope, cx.target) matches Some(id) && name_of(cx.names, id) == name
    &&& forall|k: usize| #[trigger]
        cx.unaliased.contains_key(k) ==> def_intern(cx.scope, cx.target) == Some(
            InternId { raw: k },
        )
}

proof fn lemma_lookup(names: Seq<Seq<char>>, n: Seq<char>)
    requires
        names.len() <= usize::MAX,
    ensures
        lookup(names, n) matches Some(id) ==> name_of(names, id) == n,
{
    crate::source::lemma_position(names, n);
}

proof fn lemma_own_member(s: ModuleScopeV, file: FileId, id: InternId)
    requires
        env_by_name(s, file),
    ensures
        own_member(s, file, id) matches Some(d) ==> def_intern(s, DefId { raw: d }) == Some(id),
{
    if let Some(e) = env_of(s, file) {
        assert(InternId { raw: id.raw } == id);
        assert(entry(e.fns, id.raw) is Some || entry(e.fns, id.raw) is None);
        assert(entry(e.datas, id.raw) is Some || entry(e.datas, id.raw) is None);
    }
}

proof fn lemma_bare(cx: ScanV, name: Seq<char>, n: Seq<char>)
    requires
        scan_by_name(cx, name),
        bare_hit(cx, n),
    ensures
        n == name,
{
    lemma_lookup(cx.names, n);
    let id = lookup(cx.names, n)->0;
    assert(InternId { raw: id.raw } == id);
    assert(env_by_name(cx.scope, cx.file));
    lemma_own_member(cx.scope, cx.file, id);
    assert(own_member(cx.scope, cx.file, id) == member_of(cx.env, id));
}

proof fn lemma_data(cx: ScanV, name: Seq<char>, n: Seq<char>)
    requires
        scan_by_name(cx, name),
        data_hit(cx, n),
    ensures
        n == name,
{
    lemma_lookup(cx.names, n);
    let id = lookup(cx.names, n)->0;
    assert(InternId { raw: id.raw } == id);
    assert(env_by_name(cx.scope, cx.file));
    assert(entry(cx.env.datas, id.raw) is Some || entry(cx.env.datas, id.raw) is None);
}

proof fn lemma_member(cx: ScanV, name: Seq<char>, f: FileId, n: Seq<char>)
    requires
        scan_by_name(cx, name),
        member_at(cx, f, n) == Some(cx.target.raw),
    ensures
        n == name,
{
    lemma_lookup(cx.names, n);
    let id = lookup(cx.names, n)->0;
    assert(env_by_name(cx.scope, f));
    lemma_own_member(cx.scope, f, id);
}

// ---------- paths ----------

proof fn lemma_cat(src: Seq<char>, v: Seq<Span>, w: Seq<Span>, name: Seq<char>)
    requires
        all_spelled(src, v, name),
        all_spelled(src, w, name),
    ensures
        all_spelled(src, v + w, name),
{
    let x = v + w;
    assert forall|i: int| 0 <= i < x.len() implies is_spelled(src, #[trigger] x[i], name) by {
        if i < v.len() {
            assert(x[i] == v[i]);
        } else {
            assert(x[i] == w[i - v.len()]);
        }
    }
}

proof fn lemma_def_path(cx: ScanV, src: Seq<char>, name: Seq<char>, p: PathV)
    requires
        scan_by_name(cx, name),
        path_spelled(src, p),
    ensures
        all_spelled(src, def_path_sites(cx, p), name),
{
    if p.segs.len() == 1 {
        assert(ident_spelled(src, p.segs[0]));
        if bare_hit(cx, p.segs[0].name) {
            lemma_bare(cx, name, p.segs[0].name);
        }
    } else if p.segs.len() == 2 {
        assert(ident_spelled(src, p.segs[1]));
        if let Some(f) = module_hit(cx, p.segs[0].name) {
            if member_at(cx, f, p.segs[1].name) == Some(cx.target.raw) {
                lemma_member(cx, name, f, p.segs[1].name);
            }
        }
    }
}

proof fn lemma_variant_path(cx: ScanV, src: Seq<char>, name: Seq<char>, p: PathV)
    requires
        scan_by_name(cx, name),
        path_spelled(src, p),
    ensures
        all_spelled(src, variant_path_sites(cx, p), name),
{
    if p.segs.len() == 2 {
        assert(ident_spelled(src, p.segs[0]));
        if data_hit(cx, p.segs[0].name) {
            lemma_data(cx, name, p.segs[0].name);
        }
    } else if p.segs.len() == 3 {
        assert(ident_spelled(src, p.segs[1]));
        if let Some(f) = module_hit(cx, p.segs[0].name) {
            if member_at(cx, f, p.segs[1].name) == Some(cx.target.raw) {
                lemma_member(cx, name, f, p.segs[1].name);
            }
        }
    }
}

proof fn lemma_value_path(cx: ScanV, src: Seq<char>, name: Seq<char>, p: PathV)
    requires
        scan_by_name(cx, name),
        path_spelled(src, p),
    ensures
        all_spelled(src, value_path_sites(cx, p), name),
{
    lemma_def_path(cx, src, name, p);
    lemma_variant_path(cx, src, name, p);
}

// ---------- expressions ----------

proof fn lemma_expr(cx: ScanV, src: Seq<char>, name: Seq<char>, e: ExprV)
    requires
        scan_by_name(cx, name),
        expr_spelled(src, e),
    ensures
        all_spelled(src, expr_sites(cx, e), name),
    decreases e,
{
    match e {
        ExprV::Call { callee, args, span } => {
            lemma_value_path(cx, src, name, callee);
            lemma_exprs(cx, src, name, args);
            lemma_cat(src, value_path_sites(cx, callee), exprs_sites(cx, args), name);
        },
        ExprV::StructLit { name: p, fields, span } => {
            lemma_def_path(cx, src, name, p);
            lemma_inits(cx, src, name, fields);
            lemma_cat(src, def_path_sites(cx, p), inits_sites(cx, fields), name);
        },
        ExprV::Path { path } => {
            lemma_value_path(cx, src, name, path);
        },
        ExprV::Field { base, name: _, span } => {
            lemma_expr(cx, src, name, *base);
        },
        ExprV::Index { base, index, span } => {
            lemma_expr(cx, src, name, *base);
            lemma_expr(cx, src, name, *index);
            lemma_cat(src, expr_sites(cx, *base), expr_sites(cx, *index), name);
        },
        ExprV::Slice { base, lo, hi, span } => {
            lemma_expr(cx, src, name, *base);
            let a = expr_sites(cx, *base);
            let b = match lo {
                Some(x) => a + expr_sites(cx, *x),
                None => a,
            };
            if let Some(x) = lo {
                lemma_expr(cx, src, name, *x);
                lemma_cat(src, a, expr_sites(cx, *x), name);
            }
            if let Some(x) = hi {
                lemma_expr(cx, src, name, *x);
                lemma_cat(src, b, expr_sites(cx, *x), name);
            }
        },
        ExprV::ArrayLit { elems, span } => {
            lemma_exprs(cx, src, name, elems);
        },
        ExprV::Range { lo, hi, span } => {
            let a = match lo {
                Some(x) => expr_sites(cx, *x),
                None => Seq::empty(),
            };
            if let Some(x) = lo {
                lemma_expr(cx, src, name, *x);
            }
            if let Some(x) = hi {
                lemma_expr(cx, src, name, *x);
                lemma_cat(src, a, expr_sites(cx, *x), name);
            }
        },
        ExprV::Match { scrutinee, arms, span } => {
            lemma_expr(cx, src, name, *scrutinee);
            lemma_arms(cx, src, name, arms);
            lemma_cat(src, expr_sites(cx, *scrutinee), arms_sites(cx, arms), name);
        },
        ExprV::For { var, mutable, iter, body, span } => {
            lemma_expr(cx, src, name, *iter);
            lemma_block(cx, src, name, body);
            lemma_cat(src, expr_sites(cx, *iter), block_sites(cx, body), name);
        },
        ExprV::Binary { op, lhs, rhs, span } => {
            lemma_expr(cx, src, name, *lhs);
            lemma_expr(cx, src, name, *rhs);
            lemma_cat(src, expr_sites(cx, *lhs), expr_sites(cx, *rhs), name);
        },
        ExprV::Unary { op, expr, span } => {
            lemma_expr(cx, src, name, *expr);
        },
        ExprV::If { cond, then_, else_, span } => {
            lemma_expr(cx, src, name, *cond);
            lemma_block(cx, src, name, then_);
            lemma_cat(src, expr_sites(cx, *cond), block_sites(cx, then_), name);
            if let Some(x) = else_ {
                lemma_expr(cx, src, name, *x);
                lemma_cat(
                    src,
                    expr_sites(cx, *cond) + block_sites(cx, then_),
                    expr_sites(cx, *x),
                    name,
                );
            }
        },
        ExprV::Block { block, span } => {
            lemma_block(cx, src, name, block);
        },
        ExprV::Var { name: _ } => {},
        ExprV::Literal { value, span } => {},
        ExprV::Error { span } => {},
    }
}

proof fn lemma_exprs(cx: ScanV, src: Seq<char>, name: Seq<char>, es: Seq<ExprV>)
    requires
        scan_by_name(cx, name),
        exprs_spelled(src, es),
    ensures
        all_spelled(src, exprs_sites(cx, es), name),
    decreases es,
{
    if es.len() > 0 {
        lemma_exprs(cx, src, name, es.drop_last());
        lemma_expr(cx, src, name, es.last());
        lemma_cat(src, exprs_sites(cx, es.drop_last()), expr_sites(cx, es.last()), name);
    }
}

proof fn lemma_inits(cx: ScanV, src: Seq<char>, name: Seq<char>, fs: Seq<FieldInitV>)
    requires
        scan_by_name(cx, name),
        inits_spelled(src, fs),
    ensures
        all_spelled(src, inits_sites(cx, fs), name),
    decreases fs,
{
    if fs.len() > 0 {
        lemma_inits(cx, src, name, fs.drop_last());
        lemma_expr(cx, src, name, fs.last().value);
        lemma_cat(src, inits_sites(cx, fs.drop_last()), expr_sites(cx, fs.last().value), name);
    }
}

proof fn lemma_arms(cx: ScanV, src: Seq<char>, name: Seq<char>, arms: Seq<MatchArmV>)
    requires
        scan_by_name(cx, name),
        arms_spelled(src, arms),
    ensures
        all_spelled(src, arms_sites(cx, arms), name),
    decreases arms,
{
    if arms.len() > 0 {
        let head = arms.drop_last();
        let a = arms.last();
        lemma_arms(cx, src, name, head);
        if let PatternV::Variant { path, binds, span } = a.pat {
            lemma_variant_path(cx, src, name, path);
        }
        lemma_expr(cx, src, name, arms.last().body);
        lemma_cat(src, arms_sites(cx, head), pattern_sites(cx, a.pat), name);
        lemma_cat(
            src,
            arms_sites(cx, head) + pattern_sites(cx, a.pat),
            expr_sites(cx, a.body),
            name,
        );
    }
}

proof fn lemma_block(cx: ScanV, src: Seq<char>, name: Seq<char>, b: BlockV)
    requires
        scan_by_name(cx, name),
        block_spelled(src, b),
    ensures
        all_spelled(src, block_sites(cx, b), name),
    decreases b,
{
    lemma_stmts(cx, src, name, b.stmts);
    if let Some(x) = b.tail {
        lemma_expr(cx, src, name, *x);
        lemma_cat(src, stmts_sites(cx, b.stmts), expr_sites(cx, *x), name);
    }
}

proof fn lemma_stmts(cx: ScanV, src: Seq<char>, name: Seq<char>, ss: Seq<StmtV>)
    requires
        scan_by_name(cx, name),
        stmts_spelled(src, ss),
    ensures
        all_spelled(src, stmts_sites(cx, ss), name),
    decreases ss,
{
    if ss.len() > 0 {
        lemma_stmts(cx, src, name, ss.drop_last());
        lemma_stmt(cx, src, name, ss.last());
        lemma_cat(src, stmts_sites(cx, ss.drop_last()), stmt_sites(cx, ss.last()), name);
    }
}

proof fn lemma_stmt(cx: ScanV, src: Seq<char>, name: Seq<char>, st: StmtV)
    requires
        scan_by_name(cx, name),
        stmt_spelled(src, st),
    ensures
        all_spelled(src, stmt_sites(cx, st), name),
    decreases st,
{
    match st {
        StmtV::Let { name: _, mutable, ty, init, span } => {
            let a = match ty {
                Some(t) => type_sites(cx, t),
                None => Seq::empty(),
            };
            if let Some(t) = ty {
                lemma_def_path(cx, src, name, type_path(t));
            }
            if let Some(e) = init {
                lemma_expr(cx, src, name, e);
                lemma_cat(src, a, expr_sites(cx, e), name);
            }
        },
        StmtV::Assign { target, value, span } => {
            lemma_expr(cx, src, name, value);
        },
        StmtV::Expr { expr, has_semi, span } => {
            lemma_expr(cx, src, name, expr);
        },
        StmtV::Return { value, span } => {
            if let Some(e) = value {
                lemma_expr(cx, src, name, e);
            }
        },
    }
}

// ---------- items ----------

proof fn lemma_fields(cx: ScanV, src: Seq<char>, name: Seq<char>, fs: Seq<FieldV>)
    requires
        scan_by_name(cx, name),
        forall|i: int| 0 <= i < fs.len() ==> type_spelled(src, (#[trigger] fs[i]).ty),
    ensures
        all_spelled(src, fields_sites(cx, fs), name),
    decreases fs.len(),
{
    if fs.len() > 0 {
        let head = fs.drop_last();
        assert forall|i: int| 0 <= i < head.len() implies type_spelled(
            src,
            (#[trigger] head[i]).ty,
        ) by {
            assert(head[i] == fs[i]);
        }
        lemma_fields(cx, src, name, head);
        assert(type_spelled(src, fs[fs.len() - 1].ty));
        lemma_def_path(cx, src, name, type_path(fs.last().ty));
        lemma_cat(src, fields_sites(cx, head), type_sites(cx, fs.last().ty), name);
    }
}

proof fn lemma_params(cx: ScanV, src: Seq<char>, name: Seq<char>, ps: Seq<ParamV>)
    requires
        scan_by_name(cx, name),
        forall|i: int| 0 <= i < ps.len() ==> type_spelled(src, (#[trigger] ps[i]).ty),
    ensures
        all_spelled(src, params_sites(cx, ps), name),
    decreases ps.len(),
{
    if ps.len() > 0 {
        let head = ps.drop_last();
        assert forall|i: int| 0 <= i < head.len() implies type_spelled(
            src,
            (#[trigger] head[i]).ty,
        ) by {
            assert(head[i] == ps[i]);
        }
        lemma_params(cx, src, name, head);
        assert(type_spelled(src, ps[ps.len() - 1].ty));
        lemma_def_path(cx, src, name, type_path(ps.last().ty));
        lemma_cat(src, params_sites(cx, head), type_sites(cx, ps.last().ty), name);
    }
}

proof fn lemma_types(cx: ScanV, src: Seq<char>, name: Seq<char>, ts: Seq<TypeExprV>)
    requires
        scan_by_name(cx, name),
        forall|i: int| 0 <= i < ts.len() ==> type_spelled(src, #[trigger] ts[i]),
    ensures
        all_spelled(src, types_sites(cx, ts), name),
    decreases ts.len(),
{
    if ts.len() > 0 {
        let head = ts.drop_last();
        assert forall|i: int| 0 <= i < head.len() implies type_spelled(src, #[trigger] head[i]) by {
            assert(head[i] == ts[i]);
        }
        lemma_types(cx, src, name, head);
        assert(type_spelled(src, ts[ts.len() - 1]));
        lemma_def_path(cx, src, name, type_path(ts.last()));
        lemma_cat(src, types_sites(cx, head), type_sites(cx, ts.last()), name);
    }
}

proof fn lemma_variants(cx: ScanV, src: Seq<char>, name: Seq<char>, vs: Seq<VariantV>)
    requires
        scan_by_name(cx, name),
        forall|i: int, k: int|
            0 <= i < vs.len() && 0 <= k < vs[i].payload.len() ==> type_spelled(
                src,
                #[trigger] vs[i].payload[k],
            ),
    ensures
        all_spelled(src, variants_sites(cx, vs), name),
    decreases vs.len(),
{
    if vs.len() > 0 {
        let head = vs.drop_last();
        assert forall|i: int, k: int|
            0 <= i < head.len() && 0 <= k < head[i].payload.len() implies type_spelled(
            src,
            #[trigger] head[i].payload[k],
        ) by {
            assert(head[i].payload[k] == vs[i].payload[k]);
        }
        lemma_variants(cx, src, name, head);
        let ts = vs[vs.len() - 1].payload;
        assert forall|k: int| 0 <= k < ts.len() implies type_spelled(src, #[trigger] ts[k]) by {
            assert(ts[k] == vs[vs.len() - 1].payload[k]);
        }
        lemma_types(cx, src, name, ts);
        lemma_cat(src, variants_sites(cx, head), types_sites(cx, ts), name);
    }
}

proof fn lemma_item(cx: ScanV, src: Seq<char>, name: Seq<char>, i: int, it: ItemV)
    requires
        scan_by_name(cx, name),
        item_spelled(src, it),
        declares(cx, i) ==> item_name(it).name == name,
    ensures
        all_spelled(src, item_sites(cx, i, it), name),
{
    let decl = if declares(cx, i) {
        seq![item_name(it).span]
    } else {
        Seq::empty()
    };
    assert(all_spelled(src, decl, name));
    match it {
        ItemV::Data(d) => {
            lemma_fields(cx, src, name, d.fields);
            lemma_variants(cx, src, name, d.variants);
            lemma_cat(src, decl, fields_sites(cx, d.fields), name);
            lemma_cat(
                src,
                decl + fields_sites(cx, d.fields),
                variants_sites(cx, d.variants),
                name,
            );
        },
        ItemV::Fn(f) => {
            let a = decl + params_sites(cx, f.params);
            let b = match f.ret {
                Some(t) => a + type_sites(cx, t),
                None => a,
            };
            lemma_params(cx, src, name, f.params);
            lemma_cat(src, decl, params_sites(cx, f.params), name);
            if let Some(t) = f.ret {
                lemma_def_path(cx, src, name, type_path(t));
                lemma_cat(src, a, type_sites(cx, t), name);
            }
            lemma_block(cx, src, name, f.body);
            lemma_cat(src, b, block_sites(cx, f.body), name);
        },
    }
}

proof fn lemma_items(cx: ScanV, src: Seq<char>, name: Seq<char>, items: Seq<ItemV>)
    requires
        scan_by_name(cx, name),
        forall|i: int| 0 <= i < items.len() ==> item_spelled(src, #[trigger] items[i]),
        forall|i: int|
            0 <= i < items.len() && declares(cx, i) ==> item_name(#[trigger] items[i]).name == name,
    ensures
        all_spelled(src, items_sites(cx, items), name),
    decreases items.len(),
{
    if items.len() > 0 {
        let head = items.drop_last();
        assert forall|i: int| 0 <= i < head.len() implies item_spelled(src, #[trigger] head[i]) by {
            assert(head[i] == items[i]);
        }
        assert forall|i: int| 0 <= i < head.len() && declares(cx, i) implies item_name(
            #[trigger] head[i],
        ).name == name by {
            assert(head[i] == items[i]);
        }
        lemma_items(cx, src, name, head);
        let k = items.len() - 1;
        assert(item_spelled(src, items[k]));
        lemma_item(cx, src, name, k, items[k]);
        lemma_cat(src, items_sites(cx, head), item_sites(cx, k, items[k]), name);
    }
}

// ---------- imports ----------

proof fn lemma_use_names(s: ModuleScopeV, names: Seq<Seq<char>>, u: UseDeclV, target: DefId)
    requires
        names.len() <= usize::MAX,
        forall|file: FileId| #[trigger] env_by_name(s, file),
        use_names(s, names, u, target),
    ensures
        def_intern(s, target) == lookup(names, u.path.segs[1].name),
        def_intern(s, target) matches Some(id) && name_of(names, id) == u.path.segs[1].name,
{
    let f = crate::target::module_file_spec(s, names, u.path.segs[0].name)->0;
    let id = lookup(names, u.path.segs[1].name)->0;
    assert(env_by_name(s, f));
    lemma_own_member(s, f, id);
    lemma_lookup(names, u.path.segs[1].name);
    assert(DefId { raw: target.raw } == target);
}

proof fn lemma_uses(
    s: ModuleScopeV,
    names: Seq<Seq<char>>,
    us: Seq<UseDeclV>,
    target: DefId,
    src: Seq<char>,
)
    requires
        names.len() <= usize::MAX,
        forall|file: FileId| #[trigger] env_by_name(s, file),
        def_intern(s, target) is Some,
        forall|i: int| 0 <= i < us.len() ==> path_spelled(src, (#[trigger] us[i]).path),
    ensures
        all_spelled(
            src,
            use_sites(s, names, us, target),
            name_of(names, def_intern(s, target)->0),
        ),
        forall|k: usize| #[trigger]
            unaliased_of(s, names, us, target).contains_key(k) ==> def_intern(s, target) == Some(
                InternId { raw: k },
            ),
    decreases us.len(),
{
    if us.len() > 0 {
        let head = us.drop_last();
        assert forall|i: int| 0 <= i < head.len() implies path_spelled(
            src,
            (#[trigger] head[i]).path,
        ) by {
            assert(head[i] == us[i]);
        }
        lemma_uses(s, names, head, target, src);
        let u = us[us.len() - 1];
        assert(path_spelled(src, u.path));
        if use_names(s, names, u, target) {
            lemma_use_names(s, names, u, target);
            assert(ident_spelled(src, u.path.segs[1]));
            let name = name_of(names, def_intern(s, target)->0);
            let done = use_sites(s, names, head, target);
            lemma_cat(src, done, seq![u.path.segs[1].span], name);
            assert(done + seq![u.path.segs[1].span] =~= done.push(u.path.segs[1].span));
        }
        let known = unaliased_of(s, names, head, target);
        let m = unaliased_of(s, names, us, target);
        assert forall|k: usize| #[trigger] m.contains_key(k) implies def_intern(s, target) == Some(
            InternId { raw: k },
        ) by {
            if !known.contains_key(k) {
                assert(lookup(names, u.path.segs[1].name) == Some(InternId { raw: k }));
            }
        }
    }
}

// ---------- files ----------

/// On a snapshot whose names are spelled, every site of a definition
/// that a file holds covers the definition's name.
pub proof fn law_sites_bear_the_name(s: SnapV, file: FileId, target: DefId)
    requires
        snap_spelled(s),
        s.names.len() <= usize::MAX,
        s.scope.files.contains(file),
        target.raw < s.scope.defs.len(),
        def_intern(s.scope, target) is Some,
    ensures
        all_spelled(
            source_of(s, file),
            file_sites(file, tree_of(s, file), s.scope, s.names, target),
            name_of(s.names, def_intern(s.scope, target)->0),
        ),
{
    let src = source_of(s, file);
    let ast = tree_of(s, file);
    let name = name_of(s.names, def_intern(s.scope, target)->0);
    let i = choose|i: int| 0 <= i < s.scope.files.len() && s.scope.files[i] == file;
    assert(tree_spelled(source_of(s, s.scope.files[i]), tree_of(s, s.scope.files[i])));
    if let Some(env) = env_of(s.scope, file) {
        lemma_uses(s.scope, s.names, ast.uses, target, src);
        let cx = ScanV {
            file,
            env,
            scope: s.scope,
            names: s.names,
            target,
            unaliased: unaliased_of(s.scope, s.names, ast.uses, target),
        };
        assert(item_by_name(s, target));
        assert forall|i: int| 0 <= i < ast.items.len() && declares(cx, i) implies item_name(
            #[trigger] ast.items[i],
        ).name == name by {
            assert(item_of(s, target) == Some(ast.items[i]));
        }
        lemma_items(cx, src, name, ast.items);
        lemma_cat(
            src,
            use_sites(s.scope, s.names, ast.uses, target),
            items_sites(cx, ast.items),
            name,
        );
    }
}

/// An edit covers `name` in the texts of a snapshot.
pub open spec fn replaces(s: SnapV, name: Seq<char>) -> spec_fn(EditV) -> bool {
    |e: EditV|
        e.file.raw < s.sources.len() && is_spelled(s.sources[e.file.raw as int], e.span, name)
}

proof fn lemma_site_edits(
    s: SnapV,
    file: FileId,
    v: Seq<Span>,
    name: Seq<char>,
    new_name: Seq<char>,
)
    requires
        file.raw < s.sources.len(),
        all_spelled(source_of(s, file), v, name),
    ensures
        forall|i: int|
            0 <= i < site_edits(file, v, new_name).len() ==> replaces(s, name)(
                #[trigger] site_edits(file, v, new_name)[i],
            ),
{
    let es = site_edits(file, v, new_name);
    assert forall|i: int| 0 <= i < es.len() implies replaces(s, name)(#[trigger] es[i]) by {
        assert(is_spelled(source_of(s, file), v[i], name));
    }
}

proof fn lemma_files(s: SnapV, files: Seq<FileId>, target: DefId, new_name: Seq<char>)
    requires
        snap_spelled(s),
        s.names.len() <= usize::MAX,
        forall|i: int| 0 <= i < files.len() ==> s.scope.files.contains(#[trigger] files[i]),
        target.raw < s.scope.defs.len(),
        def_intern(s.scope, target) is Some,
    ensures
        forall|i: int|
            0 <= i < files_edits(s, files, target, new_name).len() ==> replaces(
                s,
                name_of(s.names, def_intern(s.scope, target)->0),
            )(#[trigger] files_edits(s, files, target, new_name)[i]),
    decreases files.len(),
{
    if files.len() > 0 {
        let head = files.drop_last();
        let name = name_of(s.names, def_intern(s.scope, target)->0);
        assert forall|i: int| 0 <= i < head.len() implies s.scope.files.contains(
            #[trigger] head[i],
        ) by {
            assert(head[i] == files[i]);
        }
        lemma_files(s, head, target, new_name);
        let file = files[files.len() - 1];
        let v = file_sites(file, tree_of(s, file), s.scope, s.names, target);
        law_sites_bear_the_name(s, file, target);
        lemma_site_edits(s, file, v, name, new_name);
        let done = files_edits(s, head, target, new_name);
        let more = site_edits(file, v, new_name);
        let es = files_edits(s, files, target, new_name);
        assert forall|i: int| 0 <= i < es.len() implies replaces(s, name)(#[trigger] es[i]) by {
            if i < done.len() {
                assert(es[i] == done[i]);
            } else {
                assert(es[i] == more[i - done.len()]);
            }
        }
    }
}

proof fn lemma_deduped(es: Seq<EditV>, p: spec_fn(EditV) -> bool)
    requires
        forall|i: int| 0 <= i < es.len() ==> p(#[trigger] es[i]),
    ensures
        forall|i: int| 0 <= i < deduped(es).len() ==> p(#[trigger] deduped(es)[i]),
    decreases es.len(),
{
    if es.len() > 0 {
        let head = es.drop_last();
        assert forall|i: int| 0 <= i < head.len() implies p(#[trigger] head[i]) by {
            assert(head[i] == es[i]);
        }
        lemma_deduped(head, p);
        let done = deduped(head);
        let out = deduped(es);
        assert forall|i: int| 0 <= i < out.len() implies p(#[trigger] out[i]) by {
            if i < done.len() {
                assert(out[i] == done[i]);
            } else {
                assert(out[i] == es[es.len() - 1]);
            }
        }
    }
}

/// Every edit covers `name` in the texts of a snapshot.
pub open spec fn all_replace(s: SnapV, es: Seq<EditV>, name: Seq<char>) -> bool {
    forall|i: int| 0 <= i < es.len() ==> replaces(s, name)(#[trigger] es[i])
}

/// On a snapshot whose names are spelled, every edit of a rename covers
/// the old name.
pub proof fn law_rename_covers_old_name(
    s: SnapV,
    root: usize,
    symbol: Seq<char>,
    new_name: Seq<char>,
    lexed: Lexed,
    baseline: Seq<DiagnosticV>,
    c: RenameCandidateV,
)
    requires
        snap_spelled(s),
        s.names.len() <= usize::MAX,
        rename_candidate(s, root, symbol, new_name, lexed, baseline) == Ok::<
            RenameCandidateV,
            RenameErrorV,
        >(c),
    ensures
        all_replace(s, c.edits, c.old_name),
{
    let target = target_of(s.scope, s.names, FileId { raw: root }, symbol)->Ok_0;
    let es = files_edits(s, s.scope.files, target, new_name);
    lemma_files(s, s.scope.files, target, new_name);
    lemma_sorted_all(es, site_order(), replaces(s, c.old_name));
    lemma_deduped(sorted(es, site_order()), replaces(s, c.old_name));
}

// ---------- locals ----------

proof fn lemma_local_at(s: SnapV, d: DefId, b: HirBodyV, off: u32, i: int)
    requires
        b.local_symbols.len() <= usize::MAX,
    ensures
        local_at(s, d, b, off, i) matches Some(k) ==> k < b.local_symbols.len(),
    decreases b.local_symbols.len() - i,
{
    if 0 <= i < b.local_symbols.len() {
        lemma_local_at(s, d, b, off, i + 1);
    }
}

proof fn lemma_picked(s: SnapV, file: FileId, off: u32, k: int)
    requires
        s.scope.defs.len() <= usize::MAX,
    ensures
        picked(s, file, off, k) matches Some((d, i)) ==> {
            &&& d.raw < s.scope.defs.len()
            &&& s.scope.defs[d.raw as int].file == file
            &&& lowered_of(s, d) matches Some(b) && local_at(s, d, b, off, 0) == Some(i)
        },
    decreases s.scope.defs.len() - k,
{
    if 0 <= k < s.scope.defs.len() {
        lemma_picked(s, file, off, k + 1);
    }
}

/// On a snapshot that hangs together with its texts, every edit of a
/// local rename covers the old name.
pub proof fn law_local_rename_covers_old_name(
    s: SnapV,
    root: usize,
    file: usize,
    off: u32,
    new_name: Seq<char>,
    lexed: Lexed,
    baseline: Seq<DiagnosticV>,
    c: RenameCandidateV,
)
    requires
        snap_fits(s),
        s.scope.defs.len() <= usize::MAX,
        forall|d: DefId|
            (#[trigger] lowered_of(s, d)) matches Some(b) ==> b.local_symbols.len() <= usize::MAX,
        local_candidate(s, root, file, off, new_name, lexed, baseline) == Ok::<
            RenameCandidateV,
            RenameErrorV,
        >(c),
    ensures
        all_replace(s, c.edits, c.old_name),
{
    let f = FileId { raw: file };
    lemma_picked(s, f, off, 0);
    let (d, i) = picked(s, f, off, 0)->0;
    let b = lowered_of(s, d)->0;
    lemma_local_at(s, d, b, off, 0);
    assert(def_fits(s, d));
    let sym = SymbolId::Local(i);
    law_local_tokens_bear_the_name(source_of(s, f), s.names, base_of(s, d), b, sym);
    let v = local_sites(s, d, b, i as int);
    lemma_site_edits(s, f, v, c.old_name, new_name);
    let es = site_edits(f, v, new_name);
    lemma_sorted_all(es, site_order(), replaces(s, c.old_name));
    lemma_deduped(sorted(es, site_order()), replaces(s, c.old_name));
}

} // verus!
