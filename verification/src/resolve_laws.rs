//! What name resolution binds: each item, import, field, variant and
//! parameter under its own name and with its own type.

use crate::ast::{
    item_name, DataDeclV, FieldV, FnDeclV, ItemV, ParamV, PathV, TypeExprV, UseDeclV, VariantV,
};
use crate::code::Code;
use crate::fxmap::entry;
use crate::hir::{builtin, elem_of, signature_builtin, DefKindV, SymbolKind, TypeRef};
use crate::hir_lower::member_of;
use crate::resolve::{
    add_field, add_file, add_item, add_param, add_use, add_variant, env_at, env_slot, fields_of,
    fill_data, fill_fn, intern_in, is_data, lemma_fields_frame, lemma_params_frame,
    lemma_type_frame, lemma_variants_frame, params_of, same_tables, type_of, types_of, variants_of,
    Place, ResV, WorkspaceFileV,
};
use crate::source::{intern_id, interned, span_rel, DefId, FileId, InternId, SymbolId};
use vstd::prelude::*;
use vstd::string::*;

verus! {

// ---------- builtin types ----------

/// The word for a builtin type.
pub open spec fn type_word(t: TypeRef) -> Option<Seq<char>> {
    match t {
        TypeRef::Bool => Some("bool"@),
        TypeRef::I8 => Some("i8"@),
        TypeRef::I16 => Some("i16"@),
        TypeRef::I32 => Some("i32"@),
        TypeRef::I64 => Some("i64"@),
        TypeRef::Isize => Some("isize"@),
        TypeRef::U8 => Some("u8"@),
        TypeRef::U16 => Some("u16"@),
        TypeRef::U32 => Some("u32"@),
        TypeRef::U64 => Some("u64"@),
        TypeRef::Usize => Some("usize"@),
        TypeRef::F32 => Some("f32"@),
        TypeRef::F64 => Some("f64"@),
        TypeRef::Str => Some("str"@),
        TypeRef::Char => Some("char"@),
        TypeRef::Unit => Some("unit"@),
        _ => None,
    }
}

proof fn lemma_words()
    ensures
        "bool"@ != "i8"@,
        "bool"@ != "i16"@,
        "bool"@ != "i32"@,
        "bool"@ != "i64"@,
        "bool"@ != "isize"@,
        "bool"@ != "u8"@,
        "bool"@ != "u16"@,
        "bool"@ != "u32"@,
        "bool"@ != "u64"@,
        "bool"@ != "usize"@,
        "bool"@ != "f32"@,
        "bool"@ != "f64"@,
        "bool"@ != "str"@,
        "bool"@ != "char"@,
        "bool"@ != "unit"@,
        "i8"@ != "i16"@,
        "i8"@ != "i32"@,
        "i8"@ != "i64"@,
        "i8"@ != "isize"@,
        "i8"@ != "u8"@,
        "i8"@ != "u16"@,
        "i8"@ != "u32"@,
        "i8"@ != "u64"@,
        "i8"@ != "usize"@,
        "i8"@ != "f32"@,
        "i8"@ != "f64"@,
        "i8"@ != "str"@,
        "i8"@ != "char"@,
        "i8"@ != "unit"@,
        "i16"@ != "i32"@,
        "i16"@ != "i64"@,
        "i16"@ != "isize"@,
        "i16"@ != "u8"@,
        "i16"@ != "u16"@,
        "i16"@ != "u32"@,
        "i16"@ != "u64"@,
        "i16"@ != "usize"@,
        "i16"@ != "f32"@,
        "i16"@ != "f64"@,
        "i16"@ != "str"@,
        "i16"@ != "char"@,
        "i16"@ != "unit"@,
        "i32"@ != "i64"@,
        "i32"@ != "isize"@,
        "i32"@ != "u8"@,
        "i32"@ != "u16"@,
        "i32"@ != "u32"@,
        "i32"@ != "u64"@,
        "i32"@ != "usize"@,
        "i32"@ != "f32"@,
        "i32"@ != "f64"@,
        "i32"@ != "str"@,
        "i32"@ != "char"@,
        "i32"@ != "unit"@,
        "i64"@ != "isize"@,
        "i64"@ != "u8"@,
        "i64"@ != "u16"@,
        "i64"@ != "u32"@,
        "i64"@ != "u64"@,
        "i64"@ != "usize"@,
        "i64"@ != "f32"@,
        "i64"@ != "f64"@,
        "i64"@ != "str"@,
        "i64"@ != "char"@,
        "i64"@ != "unit"@,
        "isize"@ != "u8"@,
        "isize"@ != "u16"@,
        "isize"@ != "u32"@,
        "isize"@ != "u64"@,
        "isize"@ != "usize"@,
        "isize"@ != "f32"@,
        "isize"@ != "f64"@,
        "isize"@ != "str"@,
        "isize"@ != "char"@,
        "isize"@ != "unit"@,
        "u8"@ != "u16"@,
        "u8"@ != "u32"@,
        "u8"@ != "u64"@,
        "u8"@ != "usize"@,
        "u8"@ != "f32"@,
        "u8"@ != "f64"@,
        "u8"@ != "str"@,
        "u8"@ != "char"@,
        "u8"@ != "unit"@,
        "u16"@ != "u32"@,
        "u16"@ != "u64"@,
        "u16"@ != "usize"@,
        "u16"@ != "f32"@,
        "u16"@ != "f64"@,
        "u16"@ != "str"@,
        "u16"@ != "char"@,
        "u16"@ != "unit"@,
        "u32"@ != "u64"@,
        "u32"@ != "usize"@,
        "u32"@ != "f32"@,
        "u32"@ != "f64"@,
        "u32"@ != "str"@,
        "u32"@ != "char"@,
        "u32"@ != "unit"@,
        "u64"@ != "usize"@,
        "u64"@ != "f32"@,
        "u64"@ != "f64"@,
        "u64"@ != "str"@,
        "u64"@ != "char"@,
        "u64"@ != "unit"@,
        "usize"@ != "f32"@,
        "usize"@ != "f64"@,
        "usize"@ != "str"@,
        "usize"@ != "char"@,
        "usize"@ != "unit"@,
        "f32"@ != "f64"@,
        "f32"@ != "str"@,
        "f32"@ != "char"@,
        "f32"@ != "unit"@,
        "f64"@ != "str"@,
        "f64"@ != "char"@,
        "f64"@ != "unit"@,
        "str"@ != "char"@,
        "str"@ != "unit"@,
        "char"@ != "unit"@,
{
    reveal_strlit("bool");
    reveal_strlit("i8");
    reveal_strlit("i16");
    reveal_strlit("i32");
    reveal_strlit("i64");
    reveal_strlit("isize");
    reveal_strlit("u8");
    reveal_strlit("u16");
    reveal_strlit("u32");
    reveal_strlit("u64");
    reveal_strlit("usize");
    reveal_strlit("f32");
    reveal_strlit("f64");
    reveal_strlit("str");
    reveal_strlit("char");
    reveal_strlit("unit");
    assert("bool"@.len() != "i8"@.len());
    assert("bool"@.len() != "i16"@.len());
    assert("bool"@.len() != "i32"@.len());
    assert("bool"@.len() != "i64"@.len());
    assert("bool"@.len() != "isize"@.len());
    assert("bool"@.len() != "u8"@.len());
    assert("bool"@.len() != "u16"@.len());
    assert("bool"@.len() != "u32"@.len());
    assert("bool"@.len() != "u64"@.len());
    assert("bool"@.len() != "usize"@.len());
    assert("bool"@.len() != "f32"@.len());
    assert("bool"@.len() != "f64"@.len());
    assert("bool"@.len() != "str"@.len());
    assert("bool"@[0] != "char"@[0]);
    assert("bool"@[0] != "unit"@[0]);
    assert("i8"@.len() != "i16"@.len());
    assert("i8"@.len() != "i32"@.len());
    assert("i8"@.len() != "i64"@.len());
    assert("i8"@.len() != "isize"@.len());
    assert("i8"@[0] != "u8"@[0]);
    assert("i8"@.len() != "u16"@.len());
    assert("i8"@.len() != "u32"@.len());
    assert("i8"@.len() != "u64"@.len());
    assert("i8"@.len() != "usize"@.len());
    assert("i8"@.len() != "f32"@.len());
    assert("i8"@.len() != "f64"@.len());
    assert("i8"@.len() != "str"@.len());
    assert("i8"@.len() != "char"@.len());
    assert("i8"@.len() != "unit"@.len());
    assert("i16"@[1] != "i32"@[1]);
    assert("i16"@[1] != "i64"@[1]);
    assert("i16"@.len() != "isize"@.len());
    assert("i16"@.len() != "u8"@.len());
    assert("i16"@[0] != "u16"@[0]);
    assert("i16"@[0] != "u32"@[0]);
    assert("i16"@[0] != "u64"@[0]);
    assert("i16"@.len() != "usize"@.len());
    assert("i16"@[0] != "f32"@[0]);
    assert("i16"@[0] != "f64"@[0]);
    assert("i16"@[0] != "str"@[0]);
    assert("i16"@.len() != "char"@.len());
    assert("i16"@.len() != "unit"@.len());
    assert("i32"@[1] != "i64"@[1]);
    assert("i32"@.len() != "isize"@.len());
    assert("i32"@.len() != "u8"@.len());
    assert("i32"@[0] != "u16"@[0]);
    assert("i32"@[0] != "u32"@[0]);
    assert("i32"@[0] != "u64"@[0]);
    assert("i32"@.len() != "usize"@.len());
    assert("i32"@[0] != "f32"@[0]);
    assert("i32"@[0] != "f64"@[0]);
    assert("i32"@[0] != "str"@[0]);
    assert("i32"@.len() != "char"@.len());
    assert("i32"@.len() != "unit"@.len());
    assert("i64"@.len() != "isize"@.len());
    assert("i64"@.len() != "u8"@.len());
    assert("i64"@[0] != "u16"@[0]);
    assert("i64"@[0] != "u32"@[0]);
    assert("i64"@[0] != "u64"@[0]);
    assert("i64"@.len() != "usize"@.len());
    assert("i64"@[0] != "f32"@[0]);
    assert("i64"@[0] != "f64"@[0]);
    assert("i64"@[0] != "str"@[0]);
    assert("i64"@.len() != "char"@.len());
    assert("i64"@.len() != "unit"@.len());
    assert("isize"@.len() != "u8"@.len());
    assert("isize"@.len() != "u16"@.len());
    assert("isize"@.len() != "u32"@.len());
    assert("isize"@.len() != "u64"@.len());
    assert("isize"@[0] != "usize"@[0]);
    assert("isize"@.len() != "f32"@.len());
    assert("isize"@.len() != "f64"@.len());
    assert("isize"@.len() != "str"@.len());
    assert("isize"@.len() != "char"@.len());
    assert("isize"@.len() != "unit"@.len());
    assert("u8"@.len() != "u16"@.len());
    assert("u8"@.len() != "u32"@.len());
    assert("u8"@.len() != "u64"@.len());
    assert("u8"@.len() != "usize"@.len());
    assert("u8"@.len() != "f32"@.len());
    assert("u8"@.len() != "f64"@.len());
    assert("u8"@.len() != "str"@.len());
    assert("u8"@.len() != "char"@.len());
    assert("u8"@.len() != "unit"@.len());
    assert("u16"@[1] != "u32"@[1]);
    assert("u16"@[1] != "u64"@[1]);
    assert("u16"@.len() != "usize"@.len());
    assert("u16"@[0] != "f32"@[0]);
    assert("u16"@[0] != "f64"@[0]);
    assert("u16"@[0] != "str"@[0]);
    assert("u16"@.len() != "char"@.len());
    assert("u16"@.len() != "unit"@.len());
    assert("u32"@[1] != "u64"@[1]);
    assert("u32"@.len() != "usize"@.len());
    assert("u32"@[0] != "f32"@[0]);
    assert("u32"@[0] != "f64"@[0]);
    assert("u32"@[0] != "str"@[0]);
    assert("u32"@.len() != "char"@.len());
    assert("u32"@.len() != "unit"@.len());
    assert("u64"@.len() != "usize"@.len());
    assert("u64"@[0] != "f32"@[0]);
    assert("u64"@[0] != "f64"@[0]);
    assert("u64"@[0] != "str"@[0]);
    assert("u64"@.len() != "char"@.len());
    assert("u64"@.len() != "unit"@.len());
    assert("usize"@.len() != "f32"@.len());
    assert("usize"@.len() != "f64"@.len());
    assert("usize"@.len() != "str"@.len());
    assert("usize"@.len() != "char"@.len());
    assert("usize"@.len() != "unit"@.len());
    assert("f32"@[1] != "f64"@[1]);
    assert("f32"@[0] != "str"@[0]);
    assert("f32"@.len() != "char"@.len());
    assert("f32"@.len() != "unit"@.len());
    assert("f64"@[0] != "str"@[0]);
    assert("f64"@.len() != "char"@.len());
    assert("f64"@.len() != "unit"@.len());
    assert("str"@.len() != "char"@.len());
    assert("str"@.len() != "unit"@.len());
    assert("char"@[0] != "unit"@[0]);
}

/// A word stands for the builtin type that is written so, and every
/// builtin type can be written; a signature takes fewer of them, each as
/// a body does.
pub proof fn law_builtin_types_by_word(name: Seq<char>, t: TypeRef)
    ensures
        builtin(name) == Some(t) <==> type_word(t) == Some(name),
        signature_builtin(name) == Some(t) ==> builtin(name) == Some(t),
{
    lemma_words();
}

/// The array of a type holds that type, where it is one that an array can
/// hold; an array of arrays or of `unit` is reported.
pub proof fn law_array_holds_its_element(st: ResV, file: FileId, t: TypeExprV)
    requires
        t is Array,
    ensures
        ({
            let (s1, e) = type_of(st, file, *t->Array_elem);
            let (s2, r) = type_of(st, file, t);
            match e {
                TypeRef::Poison => s2 == s1 && r == TypeRef::Poison,
                TypeRef::Array { elem } => s2.diags.len() == s1.diags.len() + 1 && r
                    == TypeRef::Poison,
                TypeRef::Unit => s2.diags.len() == s1.diags.len() + 1 && r == TypeRef::Poison,
                _ => s2 == s1 && (r matches TypeRef::Array { elem } && elem_of(e) == Some(elem)),
            }
        }),
{
    reveal_with_fuel(type_of, 2);
}

/// An element type keeps which type it is.
pub proof fn law_elements_kept_apart(a: TypeRef, b: TypeRef)
    requires
        elem_of(a) is Some,
        elem_of(a) == elem_of(b),
    ensures
        a == b,
{
}

/// A single name that is no builtin stands for the `data` of that name
/// in the file, or else for an imported one; it is unknown otherwise, and
/// only then reported.
pub proof fn law_own_type_before_imported(st: ResV, file: FileId, p: PathV)
    requires
        p.segs.len() == 1,
        signature_builtin(p.segs[0].name) is None,
    ensures
        ({
            let n = intern_id(st.names, p.segs[0].name);
            let env = env_at(st, file);
            let (s2, r) = type_of(st, file, TypeExprV::Named { path: p });
            match (entry(env.datas, n.raw), entry(env.imports, n.raw)) {
                (Some(d), _) => r == TypeRef::Struct(DefId { raw: d }) && s2.diags == st.diags,
                (None, Some(d)) => if is_data(st.defs, d) {
                    r == TypeRef::Struct(DefId { raw: d }) && s2.diags == st.diags
                } else {
                    r == TypeRef::Poison && s2.diags.len() == st.diags.len() + 1
                        && s2.diags.last().code == Code::UnknownType
                },
                (None, None) => r == TypeRef::Poison && s2.diags.len() == st.diags.len() + 1
                    && s2.diags.last().code == Code::UnknownType,
            }
        }),
{
    reveal_with_fuel(type_of, 2);
}

/// A qualified name stands for the `data` of that name in the file that
/// the module name is bound to.
pub proof fn law_qualified_type(st: ResV, file: FileId, p: PathV)
    requires
        p.segs.len() == 2,
    ensures
        ({
            let m = intern_id(st.names, p.segs[0].name);
            let names = interned(st.names, p.segs[0].name);
            let n = intern_id(names, p.segs[1].name);
            let (s2, r) = type_of(st, file, TypeExprV::Named { path: p });
            match entry(env_at(st, file).modules, m.raw) {
                None => r == TypeRef::Poison && s2.diags.len() == st.diags.len() + 1
                    && s2.diags.last().code == Code::UnknownModule,
                Some(f) => match entry(env_at(st, FileId { raw: f }).datas, n.raw) {
                    Some(d) => r == TypeRef::Struct(DefId { raw: d }) && s2.diags == st.diags,
                    None => r == TypeRef::Poison && s2.diags.len() == st.diags.len() + 1
                        && s2.diags.last().code == Code::UnknownType,
                },
            }
        }),
{
    reveal_with_fuel(type_of, 2);
}

// ---------- files, items, imports ----------

/// A file is entered under its module name, with nothing in it yet.
pub proof fn law_file_entered(st: ResV, f: WorkspaceFileV)
    requires
        st.envs.len() < usize::MAX,
    ensures
        ({
            let out = add_file(st, f);
            let n = intern_id(st.names, f.module);
            &&& entry(out.module_of, n.raw) == Some(f.file.raw)
            &&& entry(out.file_names, f.file.raw) == Some(n.raw)
            &&& env_slot(out, f.file) == Some(st.envs.len() as int)
            &&& env_at(out, f.file) == crate::hir::empty_env()
            &&& forall|e: int| 0 <= e < st.envs.len() ==> (#[trigger] out.envs[e]) == st.envs[e]
            &&& forall|k: usize|
                k != n.raw ==> #[trigger] entry(out.module_of, k) == entry(st.module_of, k)
            &&& out.diags.len() == st.diags.len() + (if entry(st.module_of, n.raw) is Some {
                1int
            } else {
                0
            })
        }),
{
    reveal(add_file);
}

/// An item of a new name becomes the next definition, of its kind, and
/// its file knows it by its name from then on; what the file knew by
/// other names stays.
pub proof fn law_item_declared(st: ResV, file: FileId, index: int, item: ItemV)
    requires
        env_slot(st, file) is Some,
        0 <= index <= usize::MAX,
        st.defs.len() <= usize::MAX,
        st.symbols.len() <= usize::MAX,
        ({
            let n = intern_id(st.names, item_name(item).name).raw;
            !env_at(st, file).fns.contains_key(n) && !env_at(st, file).datas.contains_key(n)
        }),
    ensures
        ({
            let out = add_item(st, file, index, item);
            let n = intern_id(st.names, item_name(item).name).raw;
            let d = st.defs.len();
            let env = env_at(out, file);
            &&& out.diags == st.diags
            &&& out.defs.len() == d + 1
            &&& out.defs[d as int].id.raw == d
            &&& out.defs[d as int].file == file
            &&& out.defs[d as int].item == index
            &&& (out.defs[d as int].kind is Data <==> item is Data)
            &&& out.defs[d as int].name == SymbolId::Module(st.symbols.len() as usize)
            &&& out.symbols.len() == st.symbols.len() + 1
            &&& out.symbols[st.symbols.len() as int].name.raw == n
            &&& out.symbols[st.symbols.len() as int].kind == (if item is Data {
                SymbolKind::Data
            } else {
                SymbolKind::Function
            })
            &&& out.symbols[st.symbols.len() as int].span == span_rel(
                item_name(item).span,
                crate::ast::item_span(item).start,
            )
            &&& item is Fn ==> entry(env.fns, n) == Some(d as usize) && env.datas == env_at(
                st,
                file,
            ).datas
            &&& item is Data ==> entry(env.datas, n) == Some(d as usize) && env.fns == env_at(
                st,
                file,
            ).fns
            &&& forall|k: usize|
                k != n ==> #[trigger] member_of(env, InternId { raw: k }) == member_of(
                    env_at(st, file),
                    InternId { raw: k },
                )
            &&& env.imports == env_at(st, file).imports
            &&& env.modules == env_at(st, file).modules
            &&& forall|k: int| 0 <= k < d ==> #[trigger] out.defs[k] == st.defs[k]
        }),
{
    reveal(add_item);
    let out = add_item(st, file, index, item);
    let i = env_slot(st, file)->0;
    assert(env_slot(out, file) == Some(i));
}

/// `use m [as n];` binds the module's file to the alias, or else to the
/// module's own name, and changes nothing else.
pub proof fn law_module_import_binds(st: ResV, file: FileId, u: UseDeclV)
    requires
        env_slot(st, file) is Some,
        u.path.segs.len() == 1,
    ensures
        ({
            let out = add_use(st, file, u);
            let m = intern_id(st.names, u.path.segs[0].name);
            let names = interned(st.names, u.path.segs[0].name);
            let bound = match u.alias {
                Some(a) => a.name,
                None => u.path.segs[0].name,
            };
            let n = intern_id(names, bound);
            match entry(st.module_of, m.raw) {
                Some(f) => if f != file.raw {
                    &&& out.diags == st.diags
                    &&& entry(env_at(out, file).modules, n.raw) == Some(f)
                    &&& forall|k: usize|
                        k != n.raw ==> #[trigger] entry(env_at(out, file).modules, k) == entry(
                            env_at(st, file).modules,
                            k,
                        )
                    &&& env_at(out, file).imports == env_at(st, file).imports
                    &&& env_at(out, file).fns == env_at(st, file).fns
                    &&& env_at(out, file).datas == env_at(st, file).datas
                } else {
                    out.envs == st.envs && out.diags.len() == st.diags.len() + 1
                        && out.diags.last().code == Code::UnknownModule
                },
                None => out.envs == st.envs && out.diags.len() == st.diags.len() + 1
                    && out.diags.last().code == Code::UnknownModule,
            }
        }),
{
    reveal(add_use);
    let out = add_use(st, file, u);
    let i = env_slot(st, file)->0;
    assert(env_slot(out, file) == Some(i));
}

/// `use m::x [as y];` binds the member `x` of the module to the alias, or
/// else to its own name. A module or a member that does not exist, and a
/// name that the file has already, are reported and bind nothing.
pub proof fn law_member_import_binds(st: ResV, file: FileId, u: UseDeclV)
    requires
        env_slot(st, file) is Some,
        u.path.segs.len() == 2,
    ensures
        ({
            let out = add_use(st, file, u);
            let m = intern_id(st.names, u.path.segs[0].name);
            let names = interned(st.names, u.path.segs[0].name);
            let x = intern_id(names, u.path.segs[1].name);
            let names2 = interned(names, u.path.segs[1].name);
            let bound = match u.alias {
                Some(a) => a.name,
                None => u.path.segs[1].name,
            };
            let n = intern_id(names2, bound);
            let env = env_at(st, file);
            let silent = out.envs == st.envs && out.diags.len() == st.diags.len() + 1;
            match entry(st.module_of, m.raw) {
                None => silent && out.diags.last().code == Code::UnknownModule,
                Some(f) => if f == file.raw {
                    silent && out.diags.last().code == Code::UnknownModule
                } else {
                    match member_of(env_at(st, FileId { raw: f }), x) {
                        None => silent && out.diags.last().code == Code::UnknownSymbol,
                        Some(d) => if member_of(env, n) is Some || entry(env.imports, n.raw)
                            is Some {
                            silent && out.diags.last().code == Code::DuplicateDef
                        } else {
                            &&& out.diags == st.diags
                            &&& entry(env_at(out, file).imports, n.raw) == Some(d)
                            &&& forall|k: usize|
                                k != n.raw ==> #[trigger] entry(env_at(out, file).imports, k)
                                    == entry(env.imports, k)
                            &&& env_at(out, file).modules == env.modules
                            &&& env_at(out, file).fns == env.fns
                            &&& env_at(out, file).datas == env.datas
                        },
                    }
                },
            }
        }),
{
    reveal(add_use);
    let out = add_use(st, file, u);
    let i = env_slot(st, file)->0;
    assert(env_slot(out, file) == Some(i));
}

/// A longer path imports nothing and is reported.
pub proof fn law_long_import_refused(st: ResV, file: FileId, u: UseDeclV)
    requires
        u.path.segs.len() > 2,
    ensures
        add_use(st, file, u).envs == st.envs,
        add_use(st, file, u).diags.len() == st.diags.len() + 1,
{
    reveal(add_use);
}

// ---------- members ----------

/// A type is what a written type resolves to, with the definitions and
/// environments as they are.
pub open spec fn typed(st: ResV, file: FileId, t: TypeExprV, r: TypeRef) -> bool {
    exists|s2: ResV| same_tables(st, s2) && (#[trigger] type_of(s2, file, t)).1 == r
}

/// The parameters of a function are resolved one for one, in order: the
/// `i`-th is local `i` of the body, and bears its declared name,
/// mutability and type.
pub proof fn law_params_resolved(st: ResV, at: Place, ps: Seq<ParamV>, i: int)
    requires
        0 <= i < ps.len(),
        ps.len() <= usize::MAX,
        params_of(st, at, ps).0.names.len() <= usize::MAX,
    ensures
        ({
            let (out, done) = params_of(st, at, ps);
            let p = done.params[i];
            &&& done.params.len() == ps.len()
            &&& p.symbol == SymbolId::Local(i as usize)
            &&& p.name.raw < out.names.len()
            &&& out.names[p.name.raw as int] == ps[i].name.name
            &&& p.mutable == ps[i].mutable
            &&& p.span == span_rel(ps[i].span, at.base)
            &&& typed(st, at.file, ps[i].ty, p.ty)
        }),
    decreases ps.len(),
{
    reveal(add_param);
    lemma_params_frame(st, at, ps);
    let front = ps.drop_last();
    let (s1, done) = params_of(st, at, front);
    lemma_params_frame(st, at, front);
    let p = ps.last();
    let (s2, n) = intern_in(s1, p.name.name);
    let s3 = match entry(done.first, n.raw) {
        Some(k) => crate::resolve::report(
            s2,
            crate::resolve::repeated(
                Code::DuplicateDef,
                "parameter"@,
                p.name,
                ps[k as int].name.span,
                "previous parameter here"@,
            ),
        ),
        None => s2,
    };
    let out = params_of(st, at, ps).0;
    assert(out == type_of(s3, at.file, p.ty).0);
    lemma_type_names(s3, at.file, p.ty);
    crate::source::lemma_position(s1.names, p.name.name);
    if i < front.len() {
        assert(front[i] == ps[i]);
        assert(s1.names.len() <= s2.names.len());
        law_params_resolved(st, at, front, i);
        assert(params_of(st, at, ps).1.params[i] == done.params[i]);
        let raw = done.params[i].name.raw as int;
        assert(s2.names[raw] == s1.names[raw]);
        assert(out.names[raw] == s3.names[raw]);
    } else {
        assert(same_tables(st, s3));
        assert(out.names[n.raw as int] == s3.names[n.raw as int]);
    }
}

proof fn lemma_type_names(st: ResV, file: FileId, t: TypeExprV)
    ensures
        st.names.len() <= type_of(st, file, t).0.names.len(),
        forall|i: int|
            0 <= i < st.names.len() ==> #[trigger] type_of(st, file, t).0.names[i] == st.names[i],
    decreases t,
{
    reveal_with_fuel(type_of, 2);
    match t {
        TypeExprV::Array { elem, span } => {
            lemma_type_names(st, file, *elem);
        },
        TypeExprV::Named { path } => {},
    }
}

/// The fields that were taken up so far stand at their own positions:
/// field `k` says that it is the `k`-th, and its name leads back to it.
pub proof fn law_fields_keep_their_positions(st: ResV, at: Place, fs: Seq<FieldV>)
    requires
        fs.len() <= usize::MAX,
    ensures
        ({
            let done = fields_of(st, at, fs).1;
            &&& done.fields.len() <= fs.len()
            &&& forall|k: int|
                0 <= k < done.fields.len() ==> (#[trigger] done.fields[k]).index == k
            &&& forall|n: usize| #[trigger]
                done.index.contains_key(n) ==> done.index[n] < done.fields.len()
            &&& forall|a: usize, b: usize|
                #![trigger done.index[a], done.index[b]]
                done.index.contains_key(a) && done.index.contains_key(b) && done.index[a]
                    == done.index[b] ==> a == b
        }),
    decreases fs.len(),
{
    if fs.len() > 0 {
        reveal(add_field);
        law_fields_keep_their_positions(st, at, fs.drop_last());
    }
}

/// The next field of a `data`, under a name that no earlier one bears,
/// is taken up behind the others with its declared type, and is found by
/// its name; one under a name that is taken is reported and left out.
pub proof fn law_field_taken_up(st: ResV, at: Place, fs: Seq<FieldV>)
    requires
        0 < fs.len() <= usize::MAX,
        fields_of(st, at, fs.drop_last()).0.symbols.len() < usize::MAX,
    ensures
        ({
            let f = fs[fs.len() - 1];
            let (s1, done) = fields_of(st, at, fs.drop_last());
            let (s2, now) = fields_of(st, at, fs);
            let n = intern_id(s1.names, f.name.name).raw;
            if done.index.contains_key(n) {
                now == done && s2.diags.len() == s1.diags.len() + 1 && s2.diags.last().code
                    == Code::DuplicateField
            } else {
                &&& now.fields.len() == done.fields.len() + 1
                &&& forall|k: int|
                    0 <= k < done.fields.len() ==> #[trigger] now.fields[k] == done.fields[k]
                &&& typed(st, at.file, f.ty, now.fields[done.fields.len() as int].ty)
                &&& entry(now.index, n) == Some(done.fields.len() as usize)
                &&& forall|k: usize| k != n ==> #[trigger] entry(now.index, k) == entry(
                    done.index,
                    k,
                )
                &&& now.fields[done.fields.len() as int].symbol matches SymbolId::Module(i)
                &&& i < s2.symbols.len()
                &&& s2.symbols[i as int].name.raw == n
                &&& s2.symbols[i as int].kind == SymbolKind::Field
                &&& s2.symbols[i as int].owner == Some(at.def)
                &&& s2.symbols[i as int].span == span_rel(f.name.span, at.base)
            }
        }),
{
    reveal(add_field);
    let f = fs.last();
    let (s1, done) = fields_of(st, at, fs.drop_last());
    lemma_fields_frame(st, at, fs.drop_last());
    law_fields_keep_their_positions(st, at, fs.drop_last());
    let s2 = intern_in(s1, f.name.name).0;
    assert(same_tables(st, s2));
    lemma_type_symbols(s2, at.file, f.ty);
}

proof fn lemma_type_symbols(st: ResV, file: FileId, t: TypeExprV)
    ensures
        type_of(st, file, t).0.symbols == st.symbols,
    decreases t,
{
    reveal_with_fuel(type_of, 2);
    match t {
        TypeExprV::Array { elem, span } => {
            lemma_type_symbols(st, file, *elem);
        },
        TypeExprV::Named { path } => {},
    }
}

proof fn lemma_types_symbols(st: ResV, file: FileId, ts: Seq<TypeExprV>)
    ensures
        types_of(st, file, ts).0.symbols == st.symbols,
        same_tables(st, types_of(st, file, ts).0),
    decreases ts.len(),
{
    if ts.len() > 0 {
        lemma_types_symbols(st, file, ts.drop_last());
        let s1 = types_of(st, file, ts.drop_last()).0;
        lemma_type_symbols(s1, file, ts.last());
        lemma_type_frame(s1, file, ts.last());
    }
}

/// A list of types is resolved one for one, in order.
pub proof fn law_types_resolved(st: ResV, file: FileId, ts: Seq<TypeExprV>, i: int)
    requires
        0 <= i < ts.len(),
    ensures
        types_of(st, file, ts).1.len() == ts.len(),
        typed(st, file, ts[i], types_of(st, file, ts).1[i]),
    decreases ts.len(),
{
    let front = ts.drop_last();
    let s1 = types_of(st, file, front).0;
    lemma_types_symbols(st, file, front);
    lemma_types_len(st, file, front);
    if i < front.len() {
        law_types_resolved(st, file, front, i);
        assert(front[i] == ts[i]);
    } else {
        assert(same_tables(st, s1));
    }
}

proof fn lemma_types_len(st: ResV, file: FileId, ts: Seq<TypeExprV>)
    ensures
        types_of(st, file, ts).1.len() == ts.len(),
    decreases ts.len(),
{
    if ts.len() > 0 {
        lemma_types_len(st, file, ts.drop_last());
    }
}

/// The next variant of a `data`, under a name that no earlier one bears,
/// is taken up behind the others: its discriminant is its position, its
/// payload has its declared types in order, and it is found by its name.
/// One under a name that is taken is reported and left out.
pub proof fn law_variant_taken_up(st: ResV, at: Place, vs: Seq<VariantV>, i: int)
    requires
        0 < vs.len() <= usize::MAX,
        variants_of(st, at, vs.drop_last()).0.symbols.len() < usize::MAX,
        variants_of(st, at, vs.drop_last()).1.variants.len() <= usize::MAX,
    ensures
        ({
            let v = vs[vs.len() - 1];
            let (s1, done) = variants_of(st, at, vs.drop_last());
            let (s2, now) = variants_of(st, at, vs);
            let n = intern_id(s1.names, v.name.name).raw;
            let k = done.variants.len() as int;
            if done.index.contains_key(n) {
                now == done && s2.diags.len() == s1.diags.len() + 1 && s2.diags.last().code
                    == Code::DuplicateField
            } else {
                &&& now.variants.len() == k + 1
                &&& forall|j: int| 0 <= j < k ==> #[trigger] now.variants[j] == done.variants[j]
                &&& now.variants[k].index == k
                &&& now.variants[k].payload.len() == v.payload.len()
                &&& 0 <= i < v.payload.len() ==> typed(
                    st,
                    at.file,
                    v.payload[i],
                    now.variants[k].payload[i],
                )
                &&& entry(now.index, n) == Some(k as usize)
                &&& forall|j: usize| j != n ==> #[trigger] entry(now.index, j) == entry(
                    done.index,
                    j,
                )
                &&& now.variants[k].symbol matches SymbolId::Module(m)
                &&& m < s2.symbols.len()
                &&& s2.symbols[m as int].name.raw == n
                &&& s2.symbols[m as int].kind == SymbolKind::Variant
                &&& s2.symbols[m as int].owner == Some(at.def)
                &&& s2.symbols[m as int].span == span_rel(v.name.span, at.base)
            }
        }),
{
    reveal(add_variant);
    let v = vs.last();
    let (s1, done) = variants_of(st, at, vs.drop_last());
    lemma_variants_frame(st, at, vs.drop_last());
    let s2 = intern_in(s1, v.name.name).0;
    assert(same_tables(st, s2));
    lemma_types_symbols(s2, at.file, v.payload);
    lemma_types_len(s2, at.file, v.payload);
    if 0 <= i < v.payload.len() {
        law_types_resolved(s2, at.file, v.payload, i);
        let r = types_of(s2, at.file, v.payload).1[i];
        let s3 = choose|s3: ResV|
            same_tables(s2, s3) && (#[trigger] type_of(s3, at.file, v.payload[i])).1 == r;
        assert(same_tables(st, s3));
    }
}

/// A function's definition is filled in with its parameters and its
/// return type, which is `unit` where none is written; no other
/// definition changes.
pub proof fn law_signature_filled_in(st: ResV, at: Place, f: FnDeclV)
    requires
        at.def.raw < st.defs.len(),
    ensures
        ({
            let out = fill_fn(st, at, f);
            let d = at.def.raw as int;
            &&& out.defs.len() == st.defs.len()
            &&& out.defs[d].kind matches DefKindV::Function(sig)
            &&& sig.params == params_of(st, at, f.params).1.params
            &&& match f.ret {
                Some(t) => typed(st, at.file, t, sig.ret),
                None => sig.ret == TypeRef::Unit,
            }
            &&& forall|k: int| 0 <= k < st.defs.len() && k != d ==> #[trigger] out.defs[k]
                == st.defs[k]
            &&& out.defs[d].file == st.defs[d].file && out.defs[d].item == st.defs[d].item
            &&& out.envs == st.envs
        }),
{
    reveal(fill_fn);
    let s1 = params_of(st, at, f.params).0;
    lemma_params_frame(st, at, f.params);
    if let Some(t) = f.ret {
        lemma_type_frame(s1, at.file, t);
        assert(same_tables(st, s1));
    }
}

/// A `data`'s definition is filled in with its own fields and variants;
/// no other definition changes.
pub proof fn law_shape_filled_in(st: ResV, at: Place, d: DataDeclV)
    requires
        at.def.raw < st.defs.len(),
    ensures
        ({
            let out = fill_data(st, at, d);
            let (s1, f) = fields_of(st, at, d.fields);
            let v = variants_of(s1, at, d.variants).1;
            let k = at.def.raw as int;
            &&& out.defs.len() == st.defs.len()
            &&& out.defs[k].kind matches DefKindV::Data(shape)
            &&& shape.fields == f.fields && shape.field_index == f.index
            &&& shape.variants == v.variants && shape.variant_index == v.index
            &&& forall|j: int| 0 <= j < st.defs.len() && j != k ==> #[trigger] out.defs[j]
                == st.defs[j]
            &&& out.envs == st.envs
        }),
{
    reveal(fill_data);
    lemma_fields_frame(st, at, d.fields);
    let s1 = fields_of(st, at, d.fields).0;
    lemma_variants_frame(s1, at, d.variants);
}

} // verus!
