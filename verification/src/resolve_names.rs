//! A resolved scope knows definitions by their names.

use crate::ast::{item_name, FieldV, ItemV, ParamV, TypeExprV, UseDeclV, VariantV};
use crate::code::Code;
use crate::diagnostic::DiagnosticV;
use crate::fxmap::entry;
use crate::hir::{def_intern, env_of};
use crate::hir_lower::member_of;
use crate::patch_edits::tree_of;
use crate::plan_spans::scope_fits;
use crate::rename_spans::{env_by_name, item_by_name, scope_by_name};
use crate::resolve::{
    add_defs, add_field, add_file, add_files, add_imports, add_item, add_items, add_member,
    add_param, add_use, add_uses, add_variant, bound_name, env_at, env_slot, fields_of, fill_data,
    fill_defs, fill_fn, fill_item, fill_items, intern_in, item_count, params_of, repeated, report,
    res_start, resolved, scope_of, type_of, types_of, variants_of, Place, ResV, WorkspaceFileV,
};
use crate::snapshot::{is_fn_of, SnapV};
use crate::source::{DefId, FileId, InternId, SymbolId};
use vstd::prelude::*;

verus! {

/// The tables `b` are the tables `a` with more names and symbols. No
/// definition changed but in kind, and no file knows other definitions
/// of its own.
pub open spec fn widens(a: ResV, b: ResV) -> bool {
    &&& a.names.len() <= b.names.len()
    &&& forall|i: int| 0 <= i < a.names.len() ==> #[trigger] b.names[i] == a.names[i]
    &&& a.symbols.len() <= b.symbols.len()
    &&& forall|i: int| 0 <= i < a.symbols.len() ==> #[trigger] b.symbols[i] == a.symbols[i]
    &&& b.defs.len() == a.defs.len()
    &&& forall|i: int|
        0 <= i < a.defs.len() ==> (#[trigger] b.defs[i]).file == a.defs[i].file && b.defs[i].item
            == a.defs[i].item && b.defs[i].name == a.defs[i].name
    &&& b.env_index == a.env_index
    &&& b.envs.len() == a.envs.len()
    &&& forall|i: int|
        0 <= i < a.envs.len() ==> (#[trigger] b.envs[i]).fns == a.envs[i].fns && b.envs[i].datas
            == a.envs[i].datas
}

pub proof fn lemma_widens(a: ResV, b: ResV, c: ResV)
    requires
        widens(a, b),
        widens(b, c),
    ensures
        widens(a, c),
{
    assert forall|i: int| 0 <= i < a.names.len() implies #[trigger] c.names[i] == a.names[i] by {
        assert(b.names[i] == a.names[i]);
    }
    assert forall|i: int| 0 <= i < a.symbols.len() implies #[trigger] c.symbols[i]
        == a.symbols[i] by {
        assert(b.symbols[i] == a.symbols[i]);
    }
    assert forall|i: int| 0 <= i < a.defs.len() implies (#[trigger] c.defs[i]).file
        == a.defs[i].file && c.defs[i].item == a.defs[i].item && c.defs[i].name
        == a.defs[i].name by {
        assert(b.defs[i].file == a.defs[i].file);
    }
    assert forall|i: int| 0 <= i < a.envs.len() implies (#[trigger] c.envs[i]).fns == a.envs[i].fns
        && c.envs[i].datas == a.envs[i].datas by {
        assert(b.envs[i].fns == a.envs[i].fns);
    }
}

pub proof fn lemma_intern(st: ResV, name: Seq<char>)
    ensures
        widens(st, intern_in(st, name).0),
        ({
            let (s1, n) = intern_in(st, name);
            s1.names.len() <= usize::MAX ==> n.raw < s1.names.len() && s1.names[n.raw as int]
                == name
        }),
{
    crate::source::lemma_position(st.names, name);
}

pub proof fn lemma_type(st: ResV, file: FileId, t: TypeExprV)
    ensures
        widens(st, type_of(st, file, t).0),
    decreases t,
{
    reveal_with_fuel(type_of, 2);
    match t {
        TypeExprV::Array { elem, span } => {
            let s1 = type_of(st, file, *elem).0;
            lemma_type(st, file, *elem);
            assert(widens(s1, type_of(st, file, t).0));
            lemma_widens(st, s1, type_of(st, file, t).0);
        },
        TypeExprV::Named { path } => {
            if path.segs.len() == 1 {
                lemma_intern(st, path.segs[0].name);
            } else if path.segs.len() == 2 {
                let s1 = intern_in(st, path.segs[0].name).0;
                lemma_intern(st, path.segs[0].name);
                lemma_intern(s1, path.segs[1].name);
                lemma_widens(st, s1, intern_in(s1, path.segs[1].name).0);
            }
        },
    }
}

proof fn lemma_types(st: ResV, file: FileId, ts: Seq<TypeExprV>)
    ensures
        widens(st, types_of(st, file, ts).0),
    decreases ts.len(),
{
    if ts.len() > 0 {
        let s1 = types_of(st, file, ts.drop_last()).0;
        lemma_types(st, file, ts.drop_last());
        lemma_type(s1, file, ts.last());
        lemma_widens(st, s1, types_of(st, file, ts).0);
    }
}

proof fn lemma_fields(st: ResV, at: Place, fs: Seq<FieldV>)
    ensures
        widens(st, fields_of(st, at, fs).0),
    decreases fs.len(),
{
    if fs.len() > 0 {
        reveal(add_field);
        let (s1, done) = fields_of(st, at, fs.drop_last());
        lemma_fields(st, at, fs.drop_last());
        let f = fs.last();
        let (s2, n) = intern_in(s1, f.name.name);
        lemma_intern(s1, f.name.name);
        lemma_widens(st, s1, s2);
        let s3 = type_of(s2, at.file, f.ty).0;
        lemma_type(s2, at.file, f.ty);
        lemma_widens(st, s2, s3);
        let out = fields_of(st, at, fs).0;
        if done.index.contains_key(n.raw) {
            assert(widens(s2, out));
            lemma_widens(st, s2, out);
        } else {
            assert(widens(s3, out));
            lemma_widens(st, s3, out);
        }
    }
}

proof fn lemma_variants(st: ResV, at: Place, vs: Seq<VariantV>)
    ensures
        widens(st, variants_of(st, at, vs).0),
    decreases vs.len(),
{
    if vs.len() > 0 {
        reveal(add_variant);
        let (s1, done) = variants_of(st, at, vs.drop_last());
        lemma_variants(st, at, vs.drop_last());
        let v = vs.last();
        let (s2, n) = intern_in(s1, v.name.name);
        lemma_intern(s1, v.name.name);
        lemma_widens(st, s1, s2);
        let s3 = types_of(s2, at.file, v.payload).0;
        lemma_types(s2, at.file, v.payload);
        lemma_widens(st, s2, s3);
        let out = variants_of(st, at, vs).0;
        if done.index.contains_key(n.raw) {
            assert(widens(s2, out));
            lemma_widens(st, s2, out);
        } else {
            assert(widens(s3, out));
            lemma_widens(st, s3, out);
        }
    }
}

proof fn lemma_params(st: ResV, at: Place, ps: Seq<ParamV>)
    ensures
        widens(st, params_of(st, at, ps).0),
    decreases ps.len(),
{
    if ps.len() > 0 {
        reveal(add_param);
        let (s1, done) = params_of(st, at, ps.drop_last());
        lemma_params(st, at, ps.drop_last());
        let p = ps.last();
        let (s2, n) = intern_in(s1, p.name.name);
        lemma_intern(s1, p.name.name);
        lemma_widens(st, s1, s2);
        let s3 = match entry(done.first, n.raw) {
            Some(i) => report(
                s2,
                repeated(
                    Code::DuplicateDef,
                    "parameter"@,
                    p.name,
                    ps[i as int].name.span,
                    "previous parameter here"@,
                ),
            ),
            None => s2,
        };
        assert(widens(s2, s3));
        lemma_widens(st, s2, s3);
        lemma_type(s3, at.file, p.ty);
        lemma_widens(st, s3, params_of(st, at, ps).0);
    }
}

pub proof fn lemma_fill_item(st: ResV, file: FileId, def: int, item: ItemV)
    ensures
        widens(st, fill_item(st, file, def, item)),
{
    let at = Place {
        file,
        def: DefId { raw: def as usize },
        base: crate::ast::item_span(item).start,
    };
    let out = fill_item(st, file, def, item);
    match item {
        ItemV::Data(d) => {
            reveal(fill_data);
            let s1 = fields_of(st, at, d.fields).0;
            let s2 = variants_of(s1, at, d.variants).0;
            lemma_fields(st, at, d.fields);
            lemma_variants(s1, at, d.variants);
            lemma_widens(st, s1, s2);
            assert(widens(s2, out));
            lemma_widens(st, s2, out);
        },
        ItemV::Fn(f) => {
            reveal(fill_fn);
            let s1 = params_of(st, at, f.params).0;
            let s2 = match f.ret {
                Some(t) => type_of(s1, at.file, t).0,
                None => s1,
            };
            lemma_params(st, at, f.params);
            if let Some(t) = f.ret {
                lemma_type(s1, at.file, t);
            }
            lemma_widens(st, s1, s2);
            assert(widens(s2, out));
            lemma_widens(st, s2, out);
        },
    }
}

pub proof fn lemma_fill_items(st: ResV, file: FileId, def: int, items: Seq<ItemV>)
    ensures
        widens(st, fill_items(st, file, def, items)),
    decreases items.len(),
{
    if items.len() > 0 {
        let s1 = fill_items(st, file, def, items.drop_last());
        lemma_fill_items(st, file, def, items.drop_last());
        lemma_fill_item(s1, file, def + items.len() - 1, items.last());
        lemma_widens(st, s1, fill_items(st, file, def, items));
    }
}

pub proof fn lemma_fill_defs(st: ResV, fs: Seq<WorkspaceFileV>)
    ensures
        widens(st, fill_defs(st, fs)),
    decreases fs.len(),
{
    if fs.len() > 0 {
        let f = fs.last();
        let s1 = fill_defs(st, fs.drop_last());
        let s2 = ResV { stamp: Some(f.file), ..s1 };
        lemma_fill_defs(st, fs.drop_last());
        assert(widens(s1, s2));
        lemma_widens(st, s1, s2);
        lemma_fill_items(s2, f.file, item_count(fs.drop_last()), f.ast.items);
        lemma_widens(st, s2, fill_defs(st, fs));
    }
}

// ---------- imports ----------

proof fn lemma_add_member(st: ResV, file: FileId, from: FileId, u: UseDeclV)
    requires
        u.path.segs.len() == 2,
    ensures
        widens(st, add_member(st, file, from, u.path.segs[0], u.path.segs[1], u.alias)),
{
    let (module, member) = (u.path.segs[0], u.path.segs[1]);
    let out = add_member(st, file, from, module, member, u.alias);
    let (s1, n) = intern_in(st, member.name);
    lemma_intern(st, member.name);
    match member_of(env_at(s1, from), n) {
        None => {
            assert(widens(s1, out));
            lemma_widens(st, s1, out);
        },
        Some(def) => {
            let bind = bound_name(u.alias, member);
            let s2 = intern_in(s1, bind.name).0;
            lemma_intern(s1, bind.name);
            lemma_widens(st, s1, s2);
            assert(widens(s2, out));
            lemma_widens(st, s2, out);
        },
    }
}

proof fn lemma_add_use(st: ResV, file: FileId, u: UseDeclV)
    ensures
        widens(st, add_use(st, file, u)),
{
    reveal(add_use);
    let segs = u.path.segs;
    let out = add_use(st, file, u);
    if segs.len() > 0 {
        let (s1, m) = intern_in(st, segs[0].name);
        lemma_intern(st, segs[0].name);
        match entry(s1.module_of, m.raw) {
            None => {
                assert(widens(s1, out));
            },
            Some(f) => {
                if f == file.raw || segs.len() > 2 {
                    assert(widens(s1, out));
                } else if segs.len() == 1 {
                    let s2 = intern_in(s1, bound_name(u.alias, segs[0]).name).0;
                    lemma_intern(s1, bound_name(u.alias, segs[0]).name);
                    assert(widens(s2, out));
                    lemma_widens(s1, s2, out);
                } else {
                    lemma_add_member(s1, file, FileId { raw: f }, u);
                }
            },
        }
        lemma_widens(st, s1, out);
    }
}

proof fn lemma_add_uses(st: ResV, file: FileId, us: Seq<UseDeclV>)
    ensures
        widens(st, add_uses(st, file, us)),
    decreases us.len(),
{
    if us.len() > 0 {
        let s1 = add_uses(st, file, us.drop_last());
        lemma_add_uses(st, file, us.drop_last());
        lemma_add_use(s1, file, us.last());
        lemma_widens(st, s1, add_uses(st, file, us));
    }
}

proof fn lemma_add_imports(st: ResV, fs: Seq<WorkspaceFileV>)
    ensures
        widens(st, add_imports(st, fs)),
    decreases fs.len(),
{
    if fs.len() > 0 {
        let f = fs.last();
        let s1 = add_imports(st, fs.drop_last());
        let s2 = ResV { stamp: Some(f.file), ..s1 };
        lemma_add_imports(st, fs.drop_last());
        assert(widens(s1, s2));
        lemma_widens(st, s1, s2);
        lemma_add_uses(s2, f.file, f.ast.uses);
        lemma_widens(st, s2, add_imports(st, fs));
    }
}

// ---------- definitions ----------

/// The name that the tables hold of a definition.
pub open spec fn name_at(st: ResV, d: int) -> Option<InternId> {
    match st.defs[d].name {
        SymbolId::Module(i) => if i < st.symbols.len() {
            Some(st.symbols[i as int].name)
        } else {
            None
        },
        SymbolId::Local(_) => None,
    }
}

/// A definition stands in a file of the scope, where its item has its
/// name.
pub open spec fn def_ok(st: ResV, s: SnapV, d: int) -> bool {
    let x = st.defs[d];
    let items = tree_of(s, x.file).items;
    &&& s.scope.files.contains(x.file)
    &&& x.item < items.len()
    &&& name_at(st, d) matches Some(n) && n.raw < st.names.len() && st.names[n.raw as int]
        == item_name(items[x.item as int]).name
}

/// What a file knows by a name is a definition of that file with that
/// name.
pub open spec fn known_ok(st: ResV, file: FileId, m: Map<usize, usize>) -> bool {
    forall|k: usize|
        (#[trigger] entry(m, k)) matches Some(d) ==> d < st.defs.len() && st.defs[d as int].file
            == file && name_at(st, d as int) == Some(InternId { raw: k })
}

/// A file knows its own definitions, by their names.
pub open spec fn file_ok(st: ResV, file: FileId) -> bool {
    env_slot(st, file) matches Some(i) ==> known_ok(st, file, st.envs[i].fns) && known_ok(
        st,
        file,
        st.envs[i].datas,
    )
}

/// The tables of a resolution on its way.
pub open spec fn tables_ok(st: ResV, s: SnapV) -> bool {
    &&& forall|d: int| 0 <= d < st.defs.len() ==> #[trigger] def_ok(st, s, d)
    &&& forall|file: FileId| #[trigger] file_ok(st, file)
    &&& forall|f: FileId, g: FileId|
        env_slot(st, f) is Some && #[trigger] env_slot(st, f) == #[trigger] env_slot(st, g)
            ==> f == g
}

proof fn lemma_kept(a: ResV, b: ResV, s: SnapV)
    requires
        tables_ok(a, s),
        widens(a, b),
    ensures
        tables_ok(b, s),
{
    assert forall|d: int| 0 <= d < b.defs.len() implies #[trigger] def_ok(b, s, d) by {
        assert(def_ok(a, s, d));
        assert(b.defs[d].name == a.defs[d].name);
        let i = a.defs[d].name->Module_0;
        assert(b.symbols[i as int] == a.symbols[i as int]);
        let n = a.symbols[i as int].name;
        assert(b.names[n.raw as int] == a.names[n.raw as int]);
    }
    assert forall|file: FileId| #[trigger] file_ok(b, file) by {
        assert(file_ok(a, file));
        if let Some(i) = env_slot(b, file) {
            assert(env_slot(a, file) == Some(i));
            assert(b.envs[i].fns == a.envs[i].fns);
            lemma_known_kept(a, b, s, file, a.envs[i].fns);
            lemma_known_kept(a, b, s, file, a.envs[i].datas);
        }
    }
    assert forall|f: FileId, g: FileId|
        env_slot(b, f) is Some && #[trigger] env_slot(b, f) == #[trigger] env_slot(b, g) implies f
        == g by {
        assert(env_slot(a, f) == env_slot(b, f));
        assert(env_slot(a, g) == env_slot(b, g));
    }
}

proof fn lemma_known_kept(a: ResV, b: ResV, s: SnapV, file: FileId, m: Map<usize, usize>)
    requires
        tables_ok(a, s),
        widens(a, b),
        known_ok(a, file, m),
    ensures
        known_ok(b, file, m),
{
    assert forall|k: usize| (#[trigger] entry(m, k)) is Some implies {
        let d = entry(m, k)->0;
        d < b.defs.len() && b.defs[d as int].file == file && name_at(b, d as int) == Some(
            InternId { raw: k },
        )
    } by {
        let d = entry(m, k)->0;
        assert(def_ok(a, s, d as int));
        assert(b.defs[d as int].name == a.defs[d as int].name);
        let i = a.defs[d as int].name->Module_0;
        assert(b.symbols[i as int] == a.symbols[i as int]);
    }
}

proof fn lemma_add_file(st: ResV, f: WorkspaceFileV, s: SnapV)
    requires
        tables_ok(st, s),
        st.defs.len() == 0,
        st.envs.len() < usize::MAX,
        forall|file: FileId| (#[trigger] env_slot(st, file)) matches Some(i) ==> i < st.envs.len(),
        forall|k: usize| #[trigger]
            st.env_index.contains_key(k) ==> st.env_index[k] < st.envs.len(),
        forall|i: int|
            0 <= i < st.envs.len() ==> (#[trigger] st.envs[i]).fns == Map::<usize, usize>::empty()
                && st.envs[i].datas == Map::<usize, usize>::empty(),
    ensures
        tables_ok(add_file(st, f), s),
        add_file(st, f).defs.len() == 0,
        add_file(st, f).envs.len() == st.envs.len() + 1,
        forall|k: usize| #[trigger]
            add_file(st, f).env_index.contains_key(k) ==> add_file(st, f).env_index[k] < add_file(
                st,
                f,
            ).envs.len(),
        forall|i: int|
            0 <= i < add_file(st, f).envs.len() ==> (#[trigger] add_file(st, f).envs[i]).fns
                == Map::<usize, usize>::empty() && add_file(st, f).envs[i].datas == Map::<
                usize,
                usize,
            >::empty(),
{
    reveal(add_file);
    let b = add_file(st, f);
    assert forall|file: FileId| #[trigger] file_ok(b, file) by {}
    assert forall|x: FileId, y: FileId|
        env_slot(b, x) is Some && #[trigger] env_slot(b, x) == #[trigger] env_slot(b, y) implies x
        == y by {
        if x.raw != f.file.raw && y.raw != f.file.raw {
            assert(st.env_index.contains_key(x.raw) && st.env_index.contains_key(y.raw));
            assert(env_slot(st, x) == env_slot(st, y));
        } else if x.raw != f.file.raw {
            assert(st.env_index.contains_key(x.raw));
        } else if y.raw != f.file.raw {
            assert(st.env_index.contains_key(y.raw));
        }
    }
}

proof fn lemma_add_files(st: ResV, fs: Seq<WorkspaceFileV>, s: SnapV)
    requires
        st.defs.len() == 0,
        st.envs.len() == 0,
        st.env_index == Map::<usize, usize>::empty(),
        fs.len() <= usize::MAX,
    ensures
        ({
            let b = add_files(st, fs);
            &&& tables_ok(b, s)
            &&& b.defs.len() == 0
            &&& b.envs.len() == fs.len()
            &&& forall|k: usize| #[trigger]
                b.env_index.contains_key(k) ==> b.env_index[k] < b.envs.len()
            &&& forall|i: int|
                0 <= i < b.envs.len() ==> (#[trigger] b.envs[i]).fns == Map::<
                    usize,
                    usize,
                >::empty() && b.envs[i].datas == Map::<usize, usize>::empty()
        }),
    decreases fs.len(),
{
    if fs.len() > 0 {
        lemma_add_files(st, fs.drop_last(), s);
        lemma_add_file(add_files(st, fs.drop_last()), fs.last(), s);
    }
}

/// Reading the files of a workspace defines nothing.
pub proof fn lemma_no_defs(st: ResV, fs: Seq<WorkspaceFileV>)
    ensures
        add_files(st, fs).defs == st.defs,
    decreases fs.len(),
{
    if fs.len() > 0 {
        reveal(add_file);
        lemma_no_defs(st, fs.drop_last());
    }
}

proof fn lemma_add_item(st: ResV, file: FileId, index: int, item: ItemV, s: SnapV)
    requires
        tables_ok(st, s),
        s.scope.files.contains(file),
        0 <= index < tree_of(s, file).items.len() <= usize::MAX,
        tree_of(s, file).items[index] == item,
        add_item(st, file, index, item).names.len() <= usize::MAX,
        st.symbols.len() <= usize::MAX,
        st.defs.len() <= usize::MAX,
    ensures
        tables_ok(add_item(st, file, index, item), s),
{
    reveal(add_item);
    let b = add_item(st, file, index, item);
    let name = item_name(item).name;
    let (s1, n) = intern_in(st, name);
    lemma_intern(st, name);
    let d = st.defs.len() as int;
    assert forall|i: int| 0 <= i < b.defs.len() implies #[trigger] def_ok(b, s, i) by {
        if i < d {
            assert(def_ok(st, s, i));
            assert(b.defs[i] == st.defs[i]);
            let y = st.defs[i].name->Module_0;
            assert(b.symbols[y as int] == st.symbols[y as int]);
            let k = st.symbols[y as int].name;
            assert(s1.names[k.raw as int] == st.names[k.raw as int]);
        }
    }
    assert(name_at(b, d) == Some(n));
    assert forall|g: FileId| #[trigger] file_ok(b, g) by {
        assert(file_ok(st, g));
        if let Some(i) = env_slot(b, g) {
            assert(env_slot(st, g) == Some(i));
            assert(env_slot(st, file) == Some(i) ==> file == g);
            lemma_known_added(st, b, s, g, st.envs[i].fns);
            lemma_known_added(st, b, s, g, st.envs[i].datas);
            let (fns, datas) = (b.envs[i].fns, b.envs[i].datas);
            if g == file {
                assert(fns == st.envs[i].fns || fns == st.envs[i].fns.insert(n.raw, d as usize));
                assert(datas == st.envs[i].datas || datas == st.envs[i].datas.insert(
                    n.raw,
                    d as usize,
                ));
                lemma_known_one(b, g, st.envs[i].fns, n, d as usize);
                lemma_known_one(b, g, st.envs[i].datas, n, d as usize);
            } else {
                assert(b.envs[i] == st.envs[i]);
            }
        }
    }
    assert forall|f: FileId, g: FileId|
        env_slot(b, f) is Some && #[trigger] env_slot(b, f) == #[trigger] env_slot(b, g) implies f
        == g by {
        assert(env_slot(st, f) == env_slot(b, f));
        assert(env_slot(st, g) == env_slot(b, g));
    }
}

proof fn lemma_known_one(b: ResV, file: FileId, m: Map<usize, usize>, n: InternId, d: usize)
    requires
        known_ok(b, file, m),
        d < b.defs.len(),
        b.defs[d as int].file == file,
        name_at(b, d as int) == Some(n),
    ensures
        known_ok(b, file, m.insert(n.raw, d)),
{
    let m2 = m.insert(n.raw, d);
    assert forall|k: usize| (#[trigger] entry(m2, k)) is Some implies {
        let x = entry(m2, k)->0;
        x < b.defs.len() && b.defs[x as int].file == file && name_at(b, x as int) == Some(
            InternId { raw: k },
        )
    } by {
        if k == n.raw {
            assert(InternId { raw: k } == n);
        } else {
            assert(entry(m, k) == entry(m2, k));
        }
    }
}

proof fn lemma_known_added(a: ResV, b: ResV, s: SnapV, file: FileId, m: Map<usize, usize>)
    requires
        tables_ok(a, s),
        known_ok(a, file, m),
        b.defs.len() >= a.defs.len(),
        forall|i: int| 0 <= i < a.defs.len() ==> #[trigger] b.defs[i] == a.defs[i],
        b.symbols.len() >= a.symbols.len(),
        forall|i: int| 0 <= i < a.symbols.len() ==> #[trigger] b.symbols[i] == a.symbols[i],
    ensures
        known_ok(b, file, m),
{
    assert forall|k: usize| (#[trigger] entry(m, k)) is Some implies {
        let d = entry(m, k)->0;
        d < b.defs.len() && b.defs[d as int].file == file && name_at(b, d as int) == Some(
            InternId { raw: k },
        )
    } by {
        let d = entry(m, k)->0;
        assert(def_ok(a, s, d as int));
        assert(b.defs[d as int] == a.defs[d as int]);
        let i = a.defs[d as int].name->Module_0;
        assert(b.symbols[i as int] == a.symbols[i as int]);
    }
}

proof fn lemma_items_grow(st: ResV, file: FileId, items: Seq<ItemV>)
    ensures
        ({
            let b = add_items(st, file, items);
            &&& st.names.len() <= b.names.len()
            &&& b.symbols.len() == st.symbols.len() + items.len()
            &&& b.defs.len() == st.defs.len() + items.len()
        }),
    decreases items.len(),
{
    if items.len() > 0 {
        reveal(add_item);
        lemma_items_grow(st, file, items.drop_last());
        let s1 = add_items(st, file, items.drop_last());
        lemma_intern(s1, item_name(items.last()).name);
    }
}

proof fn lemma_add_items(st: ResV, file: FileId, items: Seq<ItemV>, s: SnapV)
    requires
        tables_ok(st, s),
        s.scope.files.contains(file),
        items.len() <= tree_of(s, file).items.len() <= usize::MAX,
        items == tree_of(s, file).items.take(items.len() as int),
        ({
            let b = add_items(st, file, items);
            b.names.len() <= usize::MAX && b.symbols.len() <= usize::MAX && b.defs.len()
                <= usize::MAX
        }),
    ensures
        tables_ok(add_items(st, file, items), s),
    decreases items.len(),
{
    if items.len() > 0 {
        reveal(add_item);
        let head = items.drop_last();
        let s1 = add_items(st, file, head);
        assert(head =~= tree_of(s, file).items.take(head.len() as int));
        lemma_items_grow(st, file, head);
        lemma_items_grow(st, file, items);
        lemma_intern(s1, item_name(items.last()).name);
        lemma_add_items(st, file, head, s);
        lemma_add_item(s1, file, items.len() - 1, items.last(), s);
    }
}

/// The files of a workspace are registered in a snapshot, each with its
/// tree.
pub open spec fn is_snapped(s: SnapV, fs: Seq<WorkspaceFileV>) -> bool {
    forall|i: int|
        0 <= i < fs.len() ==> (#[trigger] fs[i]).file.raw < s.sources.len() && tree_of(
            s,
            fs[i].file,
        ) == fs[i].ast && fs[i].ast.items.len() <= usize::MAX
}

proof fn lemma_defs_grow(st: ResV, fs: Seq<WorkspaceFileV>)
    ensures
        ({
            let b = add_defs(st, fs);
            st.names.len() <= b.names.len() && st.symbols.len() <= b.symbols.len()
                && st.defs.len() <= b.defs.len()
        }),
    decreases fs.len(),
{
    if fs.len() > 0 {
        let f = fs.last();
        let s1 = add_defs(st, fs.drop_last());
        lemma_defs_grow(st, fs.drop_last());
        lemma_items_grow(ResV { stamp: Some(f.file), ..s1 }, f.file, f.ast.items);
    }
}

proof fn lemma_add_defs(st: ResV, fs: Seq<WorkspaceFileV>, s: SnapV)
    requires
        tables_ok(st, s),
        is_snapped(s, fs),
        forall|i: int| 0 <= i < fs.len() ==> s.scope.files.contains((#[trigger] fs[i]).file),
        ({
            let b = add_defs(st, fs);
            b.names.len() <= usize::MAX && b.symbols.len() <= usize::MAX && b.defs.len()
                <= usize::MAX
        }),
    ensures
        tables_ok(add_defs(st, fs), s),
    decreases fs.len(),
{
    if fs.len() > 0 {
        let head = fs.drop_last();
        let f = fs[fs.len() - 1];
        assert(f == fs.last());
        let s1 = add_defs(st, head);
        let s2 = ResV { stamp: Some(f.file), ..s1 };
        lemma_items_grow(s2, f.file, f.ast.items);
        assert forall|i: int| 0 <= i < head.len() implies (#[trigger] head[i]).file.raw
            < s.sources.len() && tree_of(s, head[i].file) == head[i].ast && head[i].ast.items.len()
            <= usize::MAX by {
            assert(head[i] == fs[i]);
        }
        assert forall|i: int| 0 <= i < head.len() implies s.scope.files.contains(
            (#[trigger] head[i]).file,
        ) by {
            assert(head[i] == fs[i]);
        }
        lemma_add_defs(st, head, s);
        assert(widens(s1, s2));
        lemma_kept(s1, s2, s);
        assert(f.ast.items =~= tree_of(s, f.file).items.take(f.ast.items.len() as int));
        lemma_add_items(s2, f.file, f.ast.items, s);
    }
}

/// A scope that was resolved knows definitions by their names: the item
/// of a definition has the definition's name, a file knows its own
/// definitions by theirs, and every file of the scope is registered.
/// The names may have grown since.
pub proof fn law_resolved_by_name(
    names: Seq<Seq<char>>,
    diags: Seq<DiagnosticV>,
    stamp: Option<FileId>,
    root: FileId,
    fs: Seq<WorkspaceFileV>,
    s: SnapV,
)
    requires
        ({
            let st = resolved(res_start(names, diags, stamp), fs);
            &&& s.scope == scope_of(st, root, fs)
            &&& st.names.len() <= s.names.len() <= usize::MAX
            &&& forall|i: int| 0 <= i < st.names.len() ==> #[trigger] s.names[i] == st.names[i]
            &&& st.symbols.len() <= usize::MAX
            &&& st.defs.len() <= usize::MAX
        }),
        fs.len() <= usize::MAX,
        is_snapped(s, fs),
    ensures
        scope_fits(s),
        scope_by_name(s),
{
    let s0 = res_start(names, diags, stamp);
    let s1 = add_files(s0, fs);
    let s2 = add_defs(s1, fs);
    let s3 = add_imports(s2, fs);
    let st = fill_defs(s3, fs);
    lemma_add_files(s0, fs, s);
    lemma_add_imports(s2, fs);
    lemma_fill_defs(s3, fs);
    lemma_widens(s2, s3, st);
    assert forall|i: int| 0 <= i < fs.len() implies s.scope.files.contains(
        (#[trigger] fs[i]).file,
    ) by {
        assert(s.scope.files[i] == fs[i].file);
    }
    lemma_add_defs(s1, fs, s);
    lemma_kept(s2, st, s);
    assert forall|file: FileId| #[trigger] env_by_name(s.scope, file) by {
        assert(file_ok(st, file));
        assert(env_of(s.scope, file) is Some <==> env_slot(st, file) is Some);
    }
    assert forall|d: DefId| d.raw < s.scope.defs.len() implies #[trigger] item_by_name(s, d) by {
        assert(def_ok(st, s, d.raw as int));
        assert(name_at(st, d.raw as int) == def_intern(s.scope, d));
    }
    assert forall|i: int| 0 <= i < s.scope.files.len() implies (
    #[trigger] s.scope.files[i]).raw < s.sources.len() by {
        assert(fs[i].file.raw < s.sources.len());
    }
    assert forall|i: int| 0 <= i < s.scope.defs.len() implies s.scope.files.contains(
        (#[trigger] s.scope.defs[i]).file,
    ) by {
        assert(def_ok(st, s, i));
    }
    assert forall|file: FileId, d: int|
        0 <= d < s.scope.defs.len() && #[trigger] is_fn_of(
            s.scope,
            file,
            d,
        ) implies s.scope.defs[d].file == file by {
        assert(file_ok(st, file));
        assert(env_slot(st, file) is Some);
    }
}

} // verus!
