//! The parameters of a resolved signature and of a lowered body agree.

use crate::ast::{FnDeclV, ItemV, ParamV};
use crate::diagnostic::DiagnosticV;
use crate::fxmap::entry;
use crate::hir::{sig_of, DefKindV, DefV, FnSigV};
use crate::lower_spelling::locals_named;
use crate::patch_edits::tree_of;
use crate::plan_spans::params_agree;
use crate::resolve::{
    add_defs, add_files, add_imports, add_item, add_items, add_param, fields_of, fill_data,
    fill_defs, fill_fn, fill_item, fill_items, intern_in, item_count, lemma_fields_frame,
    lemma_imports_keep_defs, lemma_params_frame, lemma_type_frame, lemma_variants_frame, params_of,
    repeated, report, res_start, resolved, scope_of, type_of, Place, ResV, WorkspaceFileV,
};
use crate::resolve_names::{
    is_snapped, lemma_fill_defs, lemma_fill_item, lemma_fill_items, lemma_intern, lemma_no_defs,
    lemma_type, lemma_widens, widens,
};
use crate::snapshot::{item_of, lowered_of, SnapV};
use crate::source::{name_of, DefId, FileId, SymbolId};
use crate::spelling::local_name;
use vstd::prelude::*;

verus! {

/// The parameters of a signature are the locals of those numbers, under
/// the names that the function gives them.
pub open spec fn params_named(
    names: Seq<Seq<char>>,
    sig: FnSigV,
    ps: Seq<ParamV>,
) -> bool {
    forall|i: int|
        0 <= i < sig.params.len() ==> i < ps.len() && (#[trigger] sig.params[i]).symbol
            == SymbolId::Local(i as usize) && sig.params[i].name.raw < names.len()
            && names[sig.params[i].name.raw as int] == ps[i].name.name
}

/// The signature of a definition agrees with its item.
pub open spec fn sig_ok(st: ResV, s: SnapV, d: int) -> bool {
    let x = st.defs[d];
    match x.kind {
        DefKindV::Function(sig) => sig.params.len() == 0 || (tree_of(s, x.file).items[x.item as int]
            matches ItemV::Fn(f) && params_named(st.names, sig, f.params)),
        DefKindV::Data(_) => true,
    }
}

/// Every signature agrees with its item.
pub open spec fn sigs_ok(st: ResV, s: SnapV) -> bool {
    forall|d: int| 0 <= d < st.defs.len() ==> #[trigger] sig_ok(st, s, d)
}

/// The definitions stand in the order of the files and their items.
pub open spec fn in_place(defs: Seq<DefV>, fs: Seq<WorkspaceFileV>) -> bool
    decreases fs.len(),
{
    fs.len() == 0 || (in_place(defs, fs.drop_last()) && item_count(fs) <= defs.len() && forall|
        k: int,
    |
        item_count(fs.drop_last()) <= k < item_count(fs) ==> (#[trigger] defs[k]).file
            == fs.last().file && defs[k].item == k - item_count(fs.drop_last()))
}

proof fn lemma_count(fs: Seq<WorkspaceFileV>)
    ensures
        item_count(fs) >= 0,
    decreases fs.len(),
{
    if fs.len() > 0 {
        lemma_count(fs.drop_last());
    }
}

proof fn lemma_in_place(a: Seq<DefV>, b: Seq<DefV>, fs: Seq<WorkspaceFileV>)
    requires
        in_place(a, fs),
        a.len() <= b.len(),
        forall|i: int|
            0 <= i < a.len() ==> (#[trigger] b[i]).file == a[i].file && b[i].item == a[i].item,
    ensures
        in_place(b, fs),
    decreases fs.len(),
{
    if fs.len() > 0 {
        lemma_in_place(a, b, fs.drop_last());
        lemma_count(fs.drop_last());
        assert forall|k: int|
            item_count(fs.drop_last()) <= k < item_count(fs) implies (#[trigger] b[k]).file
            == fs.last().file && b[k].item == k - item_count(fs.drop_last()) by {
            assert(a[k].file == fs.last().file);
        }
    }
}

proof fn lemma_items_placed(st: ResV, file: FileId, items: Seq<ItemV>)
    requires
        items.len() <= usize::MAX,
    ensures
        ({
            let b = add_items(st, file, items);
            &&& b.defs.len() == st.defs.len() + items.len()
            &&& forall|k: int| 0 <= k < st.defs.len() ==> #[trigger] b.defs[k] == st.defs[k]
            &&& forall|k: int|
                st.defs.len() <= k < b.defs.len() ==> (#[trigger] b.defs[k]).file == file
                    && b.defs[k].item == k - st.defs.len() && (b.defs[k].kind matches
                    DefKindV::Function(sig) ==> sig.params.len() == 0)
        }),
    decreases items.len(),
{
    if items.len() > 0 {
        reveal(add_item);
        lemma_items_placed(st, file, items.drop_last());
        let s1 = add_items(st, file, items.drop_last());
        let b = add_items(st, file, items);
        assert forall|k: int| 0 <= k < st.defs.len() implies #[trigger] b.defs[k] == st.defs[k] by {
            assert(b.defs[k] == s1.defs[k]);
        }
        assert forall|k: int| st.defs.len() <= k < b.defs.len() implies (
        #[trigger] b.defs[k]).file == file && b.defs[k].item == k - st.defs.len() && (
        b.defs[k].kind matches DefKindV::Function(sig) ==> sig.params.len() == 0) by {
            if k < s1.defs.len() {
                assert(b.defs[k] == s1.defs[k]);
            }
        }
    }
}

proof fn lemma_defs_placed(st: ResV, fs: Seq<WorkspaceFileV>, s: SnapV)
    requires
        st.defs.len() == 0,
        is_snapped(s, fs),
    ensures
        ({
            let b = add_defs(st, fs);
            &&& b.defs.len() == item_count(fs)
            &&& in_place(b.defs, fs)
            &&& forall|k: int|
                0 <= k < b.defs.len() ==> ((#[trigger] b.defs[k]).kind matches DefKindV::Function(
                    sig,
                ) ==> sig.params.len() == 0)
        }),
    decreases fs.len(),
{
    if fs.len() > 0 {
        let head = fs.drop_last();
        let f = fs[fs.len() - 1];
        assert(f == fs.last());
        assert forall|i: int| 0 <= i < head.len() implies (#[trigger] head[i]).file.raw
            < s.sources.len() && tree_of(s, head[i].file) == head[i].ast && head[i].ast.items.len()
            <= usize::MAX by {
            assert(head[i] == fs[i]);
        }
        lemma_defs_placed(st, head, s);
        let s1 = add_defs(st, head);
        let s2 = ResV { stamp: Some(f.file), ..s1 };
        lemma_items_placed(s2, f.file, f.ast.items);
        let b = add_defs(st, fs);
        lemma_in_place(s1.defs, b.defs, head);
        lemma_count(head);
        assert forall|k: int| 0 <= k < b.defs.len() implies ((#[trigger] b.defs[k]).kind matches
            DefKindV::Function(sig) ==> sig.params.len() == 0) by {
            if k < s1.defs.len() {
                assert(b.defs[k] == s1.defs[k]);
            }
        }
    }
}

// ---------- signatures ----------

proof fn lemma_params_named(st: ResV, at: Place, ps: Seq<ParamV>)
    requires
        ps.len() <= usize::MAX,
        params_of(st, at, ps).0.names.len() <= usize::MAX,
    ensures
        ({
            let (b, p) = params_of(st, at, ps);
            &&& p.params.len() == ps.len()
            &&& forall|i: int|
                0 <= i < ps.len() ==> (#[trigger] p.params[i]).symbol == SymbolId::Local(
                    i as usize,
                ) && p.params[i].name.raw < b.names.len() && b.names[p.params[i].name.raw as int]
                    == ps[i].name.name
        }),
    decreases ps.len(),
{
    lemma_params_frame(st, at, ps);
    if ps.len() > 0 {
        reveal(add_param);
        let head = ps.drop_last();
        let (s1, done) = params_of(st, at, head);
        let q = ps.last();
        let (s2, n) = intern_in(s1, q.name.name);
        lemma_intern(s1, q.name.name);
        let s3 = match entry(done.first, n.raw) {
            Some(i) => report(
                s2,
                repeated(
                    crate::code::Code::DuplicateDef,
                    "parameter"@,
                    q.name,
                    ps[i as int].name.span,
                    "previous parameter here"@,
                ),
            ),
            None => s2,
        };
        assert(widens(s2, s3));
        lemma_type(s3, at.file, q.ty);
        let (b, p) = params_of(st, at, ps);
        lemma_widens(s2, s3, b);
        lemma_widens(s1, s2, b);
        lemma_params_named(st, at, head);
        assert forall|i: int| 0 <= i < ps.len() implies (#[trigger] p.params[i]).name.raw
            < b.names.len() && b.names[p.params[i].name.raw as int] == ps[i].name.name by {
            if i < head.len() {
                assert(p.params[i] == done.params[i]);
                let k = done.params[i].name.raw as int;
                assert(b.names[k] == s1.names[k]);
            } else {
                assert(b.names[n.raw as int] == s2.names[n.raw as int]);
            }
        }
    }
}

proof fn lemma_sig_kept(a: ResV, b: ResV, s: SnapV, d: int)
    requires
        widens(a, b),
        0 <= d < a.defs.len(),
        sig_ok(a, s, d),
        b.defs[d].kind == a.defs[d].kind,
    ensures
        sig_ok(b, s, d),
{
    assert(b.defs[d].file == a.defs[d].file);
    if let DefKindV::Function(sig) = a.defs[d].kind {
        if sig.params.len() > 0 {
            let f = tree_of(s, a.defs[d].file).items[a.defs[d].item as int]->Fn_0;
            assert forall|i: int| 0 <= i < sig.params.len() implies i < f.params.len() && (
            #[trigger] sig.params[i]).symbol == SymbolId::Local(i as usize)
                && sig.params[i].name.raw < b.names.len() && b.names[sig.params[i].name.raw as int]
                == f.params[i].name.name by {
                let k = sig.params[i].name.raw as int;
                assert(b.names[k] == a.names[k]);
            }
        }
    }
}

proof fn lemma_fill_one(st: ResV, file: FileId, def: int, item: ItemV, s: SnapV)
    requires
        sigs_ok(st, s),
        0 <= def < st.defs.len() <= usize::MAX,
        tree_of(s, st.defs[def].file).items[st.defs[def].item as int] == item,
        item matches ItemV::Fn(f) ==> f.params.len() <= usize::MAX,
        fill_item(st, file, def, item).names.len() <= usize::MAX,
    ensures
        sigs_ok(fill_item(st, file, def, item), s),
{
    reveal(fill_data);
    reveal(fill_fn);
    let b = fill_item(st, file, def, item);
    let at = Place {
        file,
        def: DefId { raw: def as usize },
        base: crate::ast::item_span(item).start,
    };
    lemma_fill_item(st, file, def, item);
    match item {
        ItemV::Data(d) => {
            lemma_fields_frame(st, at, d.fields);
            lemma_variants_frame(fields_of(st, at, d.fields).0, at, d.variants);
            assert forall|k: int| 0 <= k < b.defs.len() implies #[trigger] sig_ok(b, s, k) by {
                assert(sig_ok(st, s, k));
                if k != def {
                    lemma_sig_kept(st, b, s, k);
                }
            }
        },
        ItemV::Fn(f) => {
            lemma_params_frame(st, at, f.params);
            let (s1, p) = params_of(st, at, f.params);
            let s2 = match f.ret {
                Some(t) => type_of(s1, at.file, t).0,
                None => s1,
            };
            if let Some(t) = f.ret {
                lemma_type_frame(s1, at.file, t);
                lemma_type(s1, at.file, t);
            }
            assert(widens(s1, s2));
            assert(b.names == s2.names);
            lemma_params_named(st, at, f.params);
            let sig = b.defs[def].kind->Function_0;
            assert(sig.params == p.params);
            assert(params_named(b.names, sig, f.params)) by {
                assert forall|i: int| 0 <= i < sig.params.len() implies i < f.params.len() && (
                #[trigger] sig.params[i]).symbol == SymbolId::Local(i as usize)
                    && sig.params[i].name.raw < b.names.len()
                    && b.names[sig.params[i].name.raw as int] == f.params[i].name.name by {
                    assert(p.params[i].symbol == SymbolId::Local(i as usize));
                    let k = p.params[i].name.raw as int;
                    assert(s2.names[k] == s1.names[k]);
                }
            }
            assert(b.defs[def].file == st.defs[def].file);
            assert forall|k: int| 0 <= k < b.defs.len() implies #[trigger] sig_ok(b, s, k) by {
                assert(sig_ok(st, s, k));
                if k != def {
                    lemma_sig_kept(st, b, s, k);
                }
            }
        },
    }
}

proof fn lemma_fill_list(st: ResV, file: FileId, def: int, items: Seq<ItemV>, s: SnapV)
    requires
        sigs_ok(st, s),
        0 <= def,
        def + items.len() <= st.defs.len() <= usize::MAX,
        forall|k: int|
            def <= k < def + items.len() ==> tree_of(
                s,
                (#[trigger] st.defs[k]).file,
            ).items[st.defs[k].item as int] == items[k - def],
        forall|i: int|
            0 <= i < items.len() ==> ((#[trigger] items[i]) matches ItemV::Fn(f) ==> f.params.len()
                <= usize::MAX),
        fill_items(st, file, def, items).names.len() <= usize::MAX,
    ensures
        sigs_ok(fill_items(st, file, def, items), s),
    decreases items.len(),
{
    if items.len() > 0 {
        let head = items.drop_last();
        let s1 = fill_items(st, file, def, head);
        let n = items.len() - 1;
        lemma_fill_items(st, file, def, head);
        lemma_fill_item(s1, file, def + n, items.last());
        assert forall|k: int| def <= k < def + head.len() implies tree_of(
            s,
            (#[trigger] st.defs[k]).file,
        ).items[st.defs[k].item as int] == head[k - def] by {
            assert(head[k - def] == items[k - def]);
        }
        assert forall|i: int| 0 <= i < head.len() implies ((#[trigger] head[i]) matches ItemV::Fn(
            f,
        ) ==> f.params.len() <= usize::MAX) by {
            assert(head[i] == items[i]);
        }
        lemma_fill_list(st, file, def, head, s);
        assert(items[n] == items.last());
        assert(s1.defs[def + n].file == st.defs[def + n].file);
        lemma_fill_one(s1, file, def + n, items.last(), s);
    }
}

/// The functions of a workspace have as many parameters as the machine
/// can count.
pub open spec fn params_fit(fs: Seq<WorkspaceFileV>) -> bool {
    forall|j: int, i: int|
        0 <= j < fs.len() && 0 <= i < fs[j].ast.items.len() ==> ((
        #[trigger] fs[j].ast.items[i]) matches ItemV::Fn(f) ==> f.params.len() <= usize::MAX)
}

proof fn lemma_fill_all(st: ResV, fs: Seq<WorkspaceFileV>, s: SnapV)
    requires
        sigs_ok(st, s),
        is_snapped(s, fs),
        params_fit(fs),
        in_place(st.defs, fs),
        item_count(fs) <= st.defs.len() <= usize::MAX,
        fill_defs(st, fs).names.len() <= usize::MAX,
    ensures
        sigs_ok(fill_defs(st, fs), s),
    decreases fs.len(),
{
    if fs.len() > 0 {
        let head = fs.drop_last();
        let f = fs[fs.len() - 1];
        assert(f == fs.last());
        lemma_count(head);
        let s1 = fill_defs(st, head);
        let s2 = ResV { stamp: Some(f.file), ..s1 };
        let def = item_count(head);
        lemma_fill_defs(st, head);
        lemma_fill_items(s2, f.file, def, f.ast.items);
        assert forall|i: int| 0 <= i < head.len() implies (#[trigger] head[i]).file.raw
            < s.sources.len() && tree_of(s, head[i].file) == head[i].ast && head[i].ast.items.len()
            <= usize::MAX by {
            assert(head[i] == fs[i]);
        }
        assert(params_fit(head)) by {
            assert forall|j: int, i: int|
                0 <= j < head.len() && 0 <= i < head[j].ast.items.len() implies ((
            #[trigger] head[j].ast.items[i]) matches ItemV::Fn(x) ==> x.params.len()
                <= usize::MAX) by {
                assert(head[j].ast.items[i] == fs[j].ast.items[i]);
            }
        }
        lemma_fill_all(st, head, s);
        assert(sigs_ok(s2, s)) by {
            assert forall|d: int| 0 <= d < s2.defs.len() implies #[trigger] sig_ok(s2, s, d) by {
                assert(sig_ok(s1, s, d));
            }
        }
        let items = f.ast.items;
        assert forall|k: int| def <= k < def + items.len() implies tree_of(
            s,
            (#[trigger] s2.defs[k]).file,
        ).items[s2.defs[k].item as int] == items[k - def] by {
            assert(st.defs[k].file == f.file);
            assert(s1.defs[k].file == st.defs[k].file);
        }
        assert forall|i: int| 0 <= i < items.len() implies ((
        #[trigger] items[i]) matches ItemV::Fn(x) ==> x.params.len() <= usize::MAX) by {
            assert(items[i] == fs[fs.len() - 1].ast.items[i]);
        }
        lemma_fill_list(s2, f.file, def, items, s);
    }
}

/// In a resolved scope, the parameters of a signature are the locals of
/// those numbers, under the names that the function gives them. The
/// names may have grown since.
pub proof fn law_resolved_params_named(
    names: Seq<Seq<char>>,
    diags: Seq<DiagnosticV>,
    stamp: Option<FileId>,
    root: FileId,
    fs: Seq<WorkspaceFileV>,
    s: SnapV,
    def: DefId,
    f: FnDeclV,
)
    requires
        ({
            let st = resolved(res_start(names, diags, stamp), fs);
            &&& s.scope == scope_of(st, root, fs)
            &&& st.names.len() <= s.names.len() <= usize::MAX
            &&& forall|i: int| 0 <= i < st.names.len() ==> #[trigger] s.names[i] == st.names[i]
            &&& st.defs.len() <= usize::MAX
        }),
        is_snapped(s, fs),
        params_fit(fs),
        item_of(s, def) == Some(ItemV::Fn(f)),
    ensures
        sig_of(s.scope, def) matches Some(sig) ==> params_named(s.names, sig, f.params),
{
    let s0 = res_start(names, diags, stamp);
    let s1 = add_files(s0, fs);
    let s2 = add_defs(s1, fs);
    let s3 = add_imports(s2, fs);
    let st = fill_defs(s3, fs);
    lemma_no_defs(s0, fs);
    lemma_defs_placed(s1, fs, s);
    lemma_imports_keep_defs(s2, fs);
    lemma_fill_defs(s3, fs);
    assert(sigs_ok(s3, s)) by {
        assert forall|d: int| 0 <= d < s3.defs.len() implies #[trigger] sig_ok(s3, s, d) by {
            assert(s3.defs[d] == s2.defs[d]);
        }
    }
    lemma_fill_all(s3, fs, s);
    assert(sig_ok(st, s, def.raw as int));
    if let Some(sig) = sig_of(s.scope, def) {
        assert forall|i: int| 0 <= i < sig.params.len() implies i < f.params.len() && (
        #[trigger] sig.params[i]).symbol == SymbolId::Local(i as usize) && sig.params[i].name.raw
            < s.names.len() && s.names[sig.params[i].name.raw as int] == f.params[i].name.name by {
            let k = sig.params[i].name.raw as int;
            assert(s.names[k] == st.names[k]);
        }
    }
}

/// A signature and a body whose parameters are named as the function
/// names them agree.
pub proof fn law_params_agree(s: SnapV, def: DefId, f: FnDeclV)
    requires
        sig_of(s.scope, def) matches Some(sig) ==> params_named(s.names, sig, f.params),
        lowered_of(s, def) matches Some(b) ==> locals_named(b, s.names, f.params),
    ensures
        params_agree(s, def),
{
    if let (Some(sig), Some(b)) = (sig_of(s.scope, def), lowered_of(s, def)) {
        assert forall|i: int| 0 <= i < sig.params.len() implies local_name(
            b,
            s.names,
            (#[trigger] sig.params[i]).symbol,
        ) == Some(name_of(s.names, sig.params[i].name)) by {
            assert(f.params[i].name.name == s.names[sig.params[i].name.raw as int]);
        }
    }
}

} // verus!
