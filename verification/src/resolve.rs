//! Workspace-level name resolution.
//!
//! Collects top-level definitions (`fn`, `data`) across every
//! reachable file, builds per-file name environments ([`FileEnv`]),
//! resolves `use` declarations and the types used in signatures, and
//! detects duplicate definitions — everything needed before bodies
//! are lowered.
//!
//! Resolution rules:
//!
//! - One module per file; the file's stem is its module name.
//! - `use m;` binds `m` to the file that provides module `m`.
//! - `use m::x [as y];` binds `x` (or `y`) to a member of `m`.
//! - `data` and `fn` share one top-level namespace *per file*: the
//!   same name in two different files is not a conflict.
//! - Type positions resolve to a builtin primitive, a `data` def in
//!   the file's env (own defs and imports), or a qualified `m::T`.
//! - Field names within one `data` def must be unique.

use crate::ast::{
    AstModule, AstModuleV, DataDecl, DataDeclV, Field, FieldV, FnDecl, FnDeclV, Ident, IdentV,
    Item, ItemV, Param, ParamV, Path, PathV, TypeExpr, TypeExprV, UseDecl, UseDeclV, Variant,
    VariantV,
};
use crate::code::Code;
use crate::diagnostic::{error_of, stamped, Diagnostic, DiagnosticV, Diagnostics};
use crate::fxmap::{entry, IdMap};
use crate::hir::{
    defs_view, elem_of, empty_env, envs_view, pushed_symbol, signature_builtin, signature_type,
    variant_defs, DataShape, DataShapeV, Def, DefKind, DefKindV, DefV, ElemRef, FieldDef, FileEnv,
    FileEnvV, FnSig, FnSigV, ModuleScope, ModuleScopeV, ParamDef, Symbol, SymbolKind, SymbolTable,
    TypeRef, VariantDef, VariantDefV,
};
use crate::source::{
    intern_id, interned, span_rel, DefId, FileId, InternId, Interner, Span, SymbolId,
};
use crate::text::{cat3, cat5};
use vstd::prelude::*;

verus! {

/// One file participating in workspace resolution.
pub struct WorkspaceFile<'a> {
    /// The file's id in the session.
    pub file: FileId,
    /// The module name this file provides (its stem).
    pub module: &'a str,
    /// The file's parsed AST.
    pub ast: &'a AstModule,
}

/// Model of [`WorkspaceFile`].
#[verifier::ext_equal]
pub struct WorkspaceFileV {
    pub file: FileId,
    pub module: Seq<char>,
    pub ast: AstModuleV,
}

impl<'a> WorkspaceFile<'a> {
    /// The model of this file.
    pub open spec fn view(&self) -> WorkspaceFileV {
        WorkspaceFileV { file: self.file, module: self.module@, ast: self.ast@ }
    }
}

/// The models of a sequence of files.
pub open spec fn ws_files(v: Seq<WorkspaceFile>) -> Seq<WorkspaceFileV> {
    Seq::new(v.len(), |i: int| v[i]@)
}

/// The ids of a sequence of files.
pub open spec fn file_ids(v: Seq<WorkspaceFileV>) -> Seq<FileId> {
    Seq::new(v.len(), |i: int| v[i].file)
}

/// The resolver's tables: interned names, diagnostics so far, the
/// symbols, definitions, and name environments.
struct Resolver {
    interner: Interner,
    diags: Diagnostics,
    symbols: SymbolTable,
    defs: Vec<Def>,
    envs: Vec<FileEnv>,
    /// File → its environment's slot.
    env_index: IdMap,
    /// File → its module name (for `use` resolution and diagnostics).
    file_names: IdMap,
    /// Module name → providing file.
    module_of: IdMap,
}

/// Model of the resolver's tables.
#[verifier::ext_equal]
pub struct ResV {
    pub names: Seq<Seq<char>>,
    pub diags: Seq<DiagnosticV>,
    pub stamp: Option<FileId>,
    pub symbols: Seq<Symbol>,
    pub defs: Seq<DefV>,
    pub envs: Seq<FileEnvV>,
    pub env_index: Map<usize, usize>,
    pub file_names: Map<usize, usize>,
    pub module_of: Map<usize, usize>,
}

/// Interns a name.
pub open spec fn intern_in(st: ResV, name: Seq<char>) -> (ResV, InternId) {
    (ResV { names: interned(st.names, name), ..st }, intern_id(st.names, name))
}

/// Reports a diagnostic.
pub open spec fn report(st: ResV, d: DiagnosticV) -> ResV {
    ResV { diags: st.diags.push(stamped(d, st.stamp)), ..st }
}

/// The slot of a file's environment.
pub open spec fn env_slot(st: ResV, file: FileId) -> Option<int> {
    match entry(st.env_index, file.raw) {
        Some(i) => if i < st.envs.len() {
            Some(i as int)
        } else {
            None
        },
        None => None,
    }
}

/// A file's environment.
pub open spec fn env_at(st: ResV, file: FileId) -> FileEnvV {
    match env_slot(st, file) {
        Some(i) => st.envs[i],
        None => empty_env(),
    }
}

/// The tables with a file's environment replaced.
pub open spec fn with_env(st: ResV, file: FileId, env: FileEnvV) -> ResV {
    match env_slot(st, file) {
        Some(i) => ResV { envs: st.envs.update(i, env), ..st },
        None => st,
    }
}

/// Whether a definition is a `data`.
pub open spec fn is_data(defs: Seq<DefV>, d: usize) -> bool {
    d < defs.len() && defs[d as int].kind is Data
}

/// An error at a name.
pub open spec fn at_name(code: Code, message: Seq<char>, name: IdentV) -> DiagnosticV {
    error_of(code, message).with_primary(name.span).with_subject(name.name)
}

/// An error about a whole path.
pub open spec fn at_path(code: Code, message: Seq<char>, p: PathV) -> DiagnosticV {
    error_of(code, message).with_primary(p.span).with_subject(crate::ast::path_text(p.segs))
}

// ---------- the module-name table ----------

/// Two files that provide one module name.
pub open spec fn module_clash(module: Seq<char>) -> DiagnosticV {
    error_of(
        Code::DuplicateDef,
        "module `"@ + module + "` is provided by more than one file"@,
    ).with_subject(module)
}

/// Enters a file into the module-name table and gives it an empty
/// environment. A module name that another file provides already is an
/// error — `use m` would be ambiguous — and the later file gets it.
#[verifier::opaque]
pub open spec fn add_file(st: ResV, f: WorkspaceFileV) -> ResV {
    let (s1, name) = intern_in(st, f.module);
    let s2 = ResV {
        file_names: s1.file_names.insert(f.file.raw, name.raw),
        module_of: s1.module_of.insert(name.raw, f.file.raw),
        env_index: s1.env_index.insert(f.file.raw, s1.envs.len() as usize),
        envs: s1.envs.push(empty_env()),
        ..s1
    };
    if s1.module_of.contains_key(name.raw) {
        report(ResV { stamp: Some(f.file), ..s2 }, module_clash(f.module))
    } else {
        s2
    }
}

/// Enters every file.
pub open spec fn add_files(st: ResV, fs: Seq<WorkspaceFileV>) -> ResV
    decreases fs.len(),
{
    if fs.len() == 0 {
        st
    } else {
        add_file(add_files(st, fs.drop_last()), fs.last())
    }
}

// ---------- definitions ----------

/// A definition's kind before its signature or shape is known.
pub open spec fn blank_kind(item: ItemV) -> DefKindV {
    match item {
        ItemV::Data(_) => DefKindV::Data(empty_shape()),
        ItemV::Fn(_) => DefKindV::Function(FnSigV { params: Seq::empty(), ret: TypeRef::Unit }),
    }
}

/// A shape with neither fields nor variants.
pub open spec fn empty_shape() -> DataShapeV {
    DataShapeV {
        fields: Seq::empty(),
        field_index: Map::empty(),
        variants: Seq::empty(),
        variant_index: Map::empty(),
    }
}

/// Declares one item: its symbol, its definition, and — when the name is
/// still free in its file — its entry in the file's environment. A
/// second item of one name keeps its definition, but the name stands
/// for the first.
#[verifier::opaque]
pub open spec fn add_item(st: ResV, file: FileId, index: int, item: ItemV) -> ResV {
    let base = crate::ast::item_span(item).start;
    let name = crate::ast::item_name(item);
    let (s1, n) = intern_in(st, name.name);
    let symbol = SymbolId::Module(s1.symbols.len() as usize);
    let def = DefId { raw: s1.defs.len() as usize };
    let env = env_at(s1, file);
    let s2 = ResV {
        symbols: pushed_symbol(
            s1.symbols,
            Symbol {
                id: SymbolId::Module(0),
                name: n,
                kind: match item {
                    ItemV::Data(_) => SymbolKind::Data,
                    ItemV::Fn(_) => SymbolKind::Function,
                },
                mutable: false,
                owner: None,
                span: span_rel(name.span, base),
            },
        ),
        ..s1
    };
    let s3 = if env.fns.contains_key(n.raw) || env.datas.contains_key(n.raw) {
        report(
            s2,
            at_name(Code::DuplicateDef, "`"@ + name.name + "` is defined more than once"@, name),
        )
    } else {
        with_env(
            s2,
            file,
            match item {
                ItemV::Data(_) => FileEnvV { datas: env.datas.insert(n.raw, def.raw), ..env },
                ItemV::Fn(_) => FileEnvV { fns: env.fns.insert(n.raw, def.raw), ..env },
            },
        )
    };
    ResV {
        defs: s3.defs.push(
            DefV {
                id: def,
                file,
                item: index as usize,
                name: symbol,
                kind: blank_kind(item),
                span: span_rel(name.span, base),
            },
        ),
        ..s3
    }
}

/// Declares the items of one file, in order.
pub open spec fn add_items(st: ResV, file: FileId, items: Seq<ItemV>) -> ResV
    decreases items.len(),
{
    if items.len() == 0 {
        st
    } else {
        add_item(add_items(st, file, items.drop_last()), file, items.len() - 1, items.last())
    }
}

/// Declares the items of every file.
pub open spec fn add_defs(st: ResV, fs: Seq<WorkspaceFileV>) -> ResV
    decreases fs.len(),
{
    if fs.len() == 0 {
        st
    } else {
        let s1 = add_defs(st, fs.drop_last());
        let f = fs.last();
        add_items(ResV { stamp: Some(f.file), ..s1 }, f.file, f.ast.items)
    }
}

// ---------- `use` declarations ----------

/// The name a `use` binds: its alias, or the last segment it names.
pub open spec fn bound_name(alias: Option<IdentV>, seg: IdentV) -> IdentV {
    match alias {
        Some(a) => a,
        None => seg,
    }
}

/// Wires one `use` into the environment of `file`: `use m;` binds a
/// module name, `use m as n;` binds it under an alias, and
/// `use m::x [as y];` binds one member of `m`.
#[verifier::opaque]
pub open spec fn add_use(st: ResV, file: FileId, u: UseDeclV) -> ResV {
    let segs = u.path.segs;
    if segs.len() == 0 {
        st
    } else {
        let (s1, m) = intern_in(st, segs[0].name);
        match entry(s1.module_of, m.raw) {
            None => report(
                s1,
                at_name(
                    Code::UnknownModule,
                    "unknown module `"@ + segs[0].name + "`"@,
                    segs[0],
                ),
            ),
            Some(f) => if f == file.raw {
                report(
                    s1,
                    at_name(
                        Code::UnknownModule,
                        "module `"@ + segs[0].name + "` is this file itself"@,
                        segs[0],
                    ),
                )
            } else if segs.len() > 2 {
                report(
                    s1,
                    at_path(
                        Code::UnknownSymbol,
                        "unsupported path `"@ + crate::ast::path_text(segs)
                            + "` — only `m` or `m::x`"@,
                        u.path,
                    ),
                )
            } else if segs.len() == 1 {
                let (s2, n) = intern_in(s1, bound_name(u.alias, segs[0]).name);
                let env = env_at(s2, file);
                with_env(s2, file, FileEnvV { modules: env.modules.insert(n.raw, f), ..env })
            } else {
                add_member(s1, file, FileId { raw: f }, segs[0], segs[1], u.alias)
            },
        }
    }
}

/// Binds a member of the module in `from` to a name in `file`.
pub open spec fn add_member(
    st: ResV,
    file: FileId,
    from: FileId,
    module: IdentV,
    member: IdentV,
    alias: Option<IdentV>,
) -> ResV {
    let (s1, n) = intern_in(st, member.name);
    match crate::hir_lower::member_of(env_at(s1, from), n) {
        None => report(
            s1,
            at_name(
                Code::UnknownSymbol,
                "module `"@ + module.name + "` has no member `"@ + member.name + "`"@,
                member,
            ),
        ),
        Some(def) => {
            let bind = bound_name(alias, member);
            let (s2, b) = intern_in(s1, bind.name);
            let env = env_at(s2, file);
            if env.fns.contains_key(b.raw) || env.datas.contains_key(b.raw)
                || env.imports.contains_key(b.raw) {
                report(
                    s2,
                    at_name(
                        Code::DuplicateDef,
                        "name `"@ + bind.name + "` is already defined or imported in this file"@,
                        bind,
                    ),
                )
            } else {
                with_env(s2, file, FileEnvV { imports: env.imports.insert(b.raw, def), ..env })
            }
        },
    }
}

/// Wires the `use` declarations of one file, in order.
pub open spec fn add_uses(st: ResV, file: FileId, us: Seq<UseDeclV>) -> ResV
    decreases us.len(),
{
    if us.len() == 0 {
        st
    } else {
        add_use(add_uses(st, file, us.drop_last()), file, us.last())
    }
}

/// Wires the `use` declarations of every file.
pub open spec fn add_imports(st: ResV, fs: Seq<WorkspaceFileV>) -> ResV
    decreases fs.len(),
{
    if fs.len() == 0 {
        st
    } else {
        let s1 = add_imports(st, fs.drop_last());
        let f = fs.last();
        add_uses(ResV { stamp: Some(f.file), ..s1 }, f.file, f.ast.uses)
    }
}

// ---------- types ----------

/// A type that cannot be used as it is written.
pub open spec fn unsupported(message: Seq<char>, span: Span) -> DiagnosticV {
    error_of(Code::UnsupportedOperation, message).with_primary(span)
}

/// The array type over a resolved element type.
pub open spec fn array_of(st: ResV, elem: TypeRef, span: Span) -> (ResV, TypeRef) {
    match elem {
        TypeRef::Poison => (st, TypeRef::Poison),
        TypeRef::Array { .. } => (
            report(st, unsupported("nested array types are not supported yet"@, span)),
            TypeRef::Poison,
        ),
        TypeRef::Unit => (
            report(st, unsupported("arrays cannot hold `unit` elements"@, span)),
            TypeRef::Poison,
        ),
        leaf => (st, TypeRef::Array { elem: elem_of(leaf)->0 }),
    }
}

/// Resolves a named type through the environment of `file`: builtins,
/// own `data` defs, imports, or a qualified `m::T` path.
pub open spec fn named_type(st: ResV, file: FileId, p: PathV) -> (ResV, TypeRef) {
    if p.segs.len() == 1 {
        let name = p.segs[0];
        match signature_builtin(name.name) {
            Some(t) => (st, t),
            None => {
                let (s1, n) = intern_in(st, name.name);
                let env = env_at(s1, file);
                let imported = entry(env.imports, n.raw);
                match entry(env.datas, n.raw) {
                    Some(d) => (s1, TypeRef::Struct(DefId { raw: d })),
                    None => if imported is Some && is_data(s1.defs, imported->0) {
                        (s1, TypeRef::Struct(DefId { raw: imported->0 }))
                    } else {
                        (
                            report(
                                s1,
                                at_name(
                                    Code::UnknownType,
                                    "unknown type `"@ + name.name + "`"@,
                                    name,
                                ),
                            ),
                            TypeRef::Poison,
                        )
                    },
                }
            },
        }
    } else if p.segs.len() == 2 {
        let (s1, m) = intern_in(st, p.segs[0].name);
        match entry(env_at(s1, file).modules, m.raw) {
            None => (
                report(
                    s1,
                    at_name(
                        Code::UnknownModule,
                        "unknown module `"@ + p.segs[0].name + "`"@,
                        p.segs[0],
                    ),
                ),
                TypeRef::Poison,
            ),
            Some(from) => {
                let (s2, n) = intern_in(s1, p.segs[1].name);
                match entry(env_at(s2, FileId { raw: from }).datas, n.raw) {
                    Some(d) => (s2, TypeRef::Struct(DefId { raw: d })),
                    None => (
                        report(
                            s2,
                            at_name(
                                Code::UnknownType,
                                "module `"@ + p.segs[0].name + "` has no type `"@ + p.segs[1].name
                                    + "`"@,
                                p.segs[1],
                            ),
                        ),
                        TypeRef::Poison,
                    ),
                }
            },
        }
    } else {
        (
            report(
                st,
                at_path(
                    Code::UnknownType,
                    "unsupported type path `"@ + crate::ast::path_text(p.segs) + "`"@,
                    p,
                ),
            ),
            TypeRef::Poison,
        )
    }
}

/// Resolves a written type.
#[verifier::opaque]
pub open spec fn type_of(st: ResV, file: FileId, t: TypeExprV) -> (ResV, TypeRef)
    decreases t,
{
    match t {
        TypeExprV::Array { elem, span } => {
            let (s1, e) = type_of(st, file, *elem);
            array_of(s1, e, span)
        },
        TypeExprV::Named { path } => named_type(st, file, path),
    }
}

/// Resolves a list of written types, in order.
pub open spec fn types_of(st: ResV, file: FileId, ts: Seq<TypeExprV>) -> (ResV, Seq<TypeRef>)
    decreases ts.len(),
{
    if ts.len() == 0 {
        (st, Seq::empty())
    } else {
        let (s1, done) = types_of(st, file, ts.drop_last());
        let (s2, t) = type_of(s1, file, ts.last());
        (s2, done.push(t))
    }
}

// ---------- signatures and shapes ----------

/// Where a definition lives: its file, its id, and the absolute start
/// of its item.
#[derive(Clone, Copy, Debug, PartialEq, Eq, Structural)]
pub struct Place {
    /// The file.
    pub file: FileId,
    /// The definition.
    pub def: DefId,
    /// Absolute start of the item.
    pub base: u32,
}

/// A member whose name an earlier member has already.
pub open spec fn repeated(
    code: Code,
    what: Seq<char>,
    name: IdentV,
    first: Span,
    label: Seq<char>,
) -> DiagnosticV {
    error_of(code, what + " `"@ + name.name + "` is defined more than once"@).with_primary(
        name.span,
    ).with_label(first, label).with_subject(name.name)
}

/// The fields of a `data` that were resolved so far, and which declared
/// field first bore each name.
#[verifier::ext_equal]
pub struct FieldsV {
    pub first: Map<usize, usize>,
    pub index: Map<usize, usize>,
    pub fields: Seq<FieldDef>,
}

/// Resolves the fields of a `data`. A field whose name is taken is
/// reported and left out.
pub open spec fn fields_of(st: ResV, at: Place, fs: Seq<FieldV>) -> (ResV, FieldsV)
    decreases fs.len(),
{
    if fs.len() == 0 {
        (st, FieldsV { first: Map::empty(), index: Map::empty(), fields: Seq::empty() })
    } else {
        let (s1, done) = fields_of(st, at, fs.drop_last());
        add_field(s1, at, fs, done)
    }
}

/// Resolves the last of the fields `fs`, those before it being `done`.
#[verifier::opaque]
pub open spec fn add_field(st: ResV, at: Place, fs: Seq<FieldV>, done: FieldsV) -> (ResV, FieldsV) {
    let f = fs.last();
    let (s2, n) = intern_in(st, f.name.name);
    if done.index.contains_key(n.raw) {
        let first = fs[done.first[n.raw] as int].name.span;
        (
            report(
                s2,
                repeated(
                    Code::DuplicateField,
                    "field"@,
                    f.name,
                    first,
                    "previous definition here"@,
                ),
            ),
            done,
        )
    } else {
        let (s3, ty) = type_of(s2, at.file, f.ty);
        let symbol = SymbolId::Module(s3.symbols.len() as usize);
        (
            with_member(s3, at, n, SymbolKind::Field, f.name.span),
            FieldsV {
                first: done.first.insert(n.raw, (fs.len() - 1) as usize),
                index: done.index.insert(n.raw, done.fields.len() as usize),
                fields: done.fields.push(
                    FieldDef { symbol, ty, index: done.fields.len() as usize },
                ),
            },
        )
    }
}

/// Pushes the symbol of a field or variant.
pub open spec fn with_member(st: ResV, at: Place, n: InternId, kind: SymbolKind, span: Span) -> ResV {
    ResV {
        symbols: pushed_symbol(
            st.symbols,
            Symbol {
                id: SymbolId::Module(0),
                name: n,
                kind,
                mutable: false,
                owner: Some(at.def),
                span: span_rel(span, at.base),
            },
        ),
        ..st
    }
}

/// The variants of a `data` that were resolved so far, and which
/// declared variant first bore each name.
#[verifier::ext_equal]
pub struct VariantsV {
    pub first: Map<usize, usize>,
    pub index: Map<usize, usize>,
    pub variants: Seq<VariantDefV>,
}

/// Resolves the variants of a `data`. A variant whose name is taken is
/// reported and left out.
pub open spec fn variants_of(st: ResV, at: Place, vs: Seq<VariantV>) -> (ResV, VariantsV)
    decreases vs.len(),
{
    if vs.len() == 0 {
        (st, VariantsV { first: Map::empty(), index: Map::empty(), variants: Seq::empty() })
    } else {
        let (s1, done) = variants_of(st, at, vs.drop_last());
        add_variant(s1, at, vs, done)
    }
}

/// Resolves the last of the variants `vs`, those before it being `done`.
#[verifier::opaque]
pub open spec fn add_variant(st: ResV, at: Place, vs: Seq<VariantV>, done: VariantsV) -> (
    ResV,
    VariantsV,
) {
    let v = vs.last();
    let (s2, n) = intern_in(st, v.name.name);
    if done.index.contains_key(n.raw) {
        let first = vs[done.first[n.raw] as int].name.span;
        (
            report(
                s2,
                repeated(
                    Code::DuplicateField,
                    "variant"@,
                    v.name,
                    first,
                    "previous definition here"@,
                ),
            ),
            done,
        )
    } else {
        let (s3, payload) = types_of(s2, at.file, v.payload);
        let symbol = SymbolId::Module(s3.symbols.len() as usize);
        (
            with_member(s3, at, n, SymbolKind::Variant, v.name.span),
            VariantsV {
                first: done.first.insert(n.raw, (vs.len() - 1) as usize),
                index: done.index.insert(n.raw, done.variants.len() as usize),
                variants: done.variants.push(
                    VariantDefV { symbol, payload, index: done.variants.len() as usize },
                ),
            },
        )
    }
}

/// The parameters of a function that were resolved so far, and which
/// declared parameter first bore each name.
#[verifier::ext_equal]
pub struct ParamsV {
    pub first: Map<usize, usize>,
    pub params: Seq<ParamDef>,
}

/// Resolves the parameters of a function. A repeated name is reported;
/// the parameter stays, so that positions keep their meaning.
pub open spec fn params_of(st: ResV, at: Place, ps: Seq<ParamV>) -> (ResV, ParamsV)
    decreases ps.len(),
{
    if ps.len() == 0 {
        (st, ParamsV { first: Map::empty(), params: Seq::empty() })
    } else {
        let (s1, done) = params_of(st, at, ps.drop_last());
        add_param(s1, at, ps, done)
    }
}

/// Resolves the last of the parameters `ps`, those before it being
/// `done`.
#[verifier::opaque]
pub open spec fn add_param(st: ResV, at: Place, ps: Seq<ParamV>, done: ParamsV) -> (ResV, ParamsV) {
    let p = ps.last();
    let (s2, n) = intern_in(st, p.name.name);
    let (s3, first) = match entry(done.first, n.raw) {
        Some(i) => (
            report(
                s2,
                repeated(
                    Code::DuplicateDef,
                    "parameter"@,
                    p.name,
                    ps[i as int].name.span,
                    "previous parameter here"@,
                ),
            ),
            done.first,
        ),
        None => (s2, done.first.insert(n.raw, (ps.len() - 1) as usize)),
    };
    let (s4, ty) = type_of(s3, at.file, p.ty);
    (
        s4,
        ParamsV {
            first,
            params: done.params.push(
                ParamDef {
                    symbol: SymbolId::Local((ps.len() - 1) as usize),
                    name: n,
                    mutable: p.mutable,
                    ty,
                    span: span_rel(p.span, at.base),
                },
            ),
        },
    )
}

/// The tables with the kind of one definition filled in.
pub open spec fn with_kind(st: ResV, def: DefId, kind: DefKindV) -> ResV {
    if def.raw < st.defs.len() {
        ResV {
            defs: st.defs.update(
                def.raw as int,
                DefV { kind, ..st.defs[def.raw as int] },
            ),
            ..st
        }
    } else {
        st
    }
}

/// Fills in the shape of a `data`.
#[verifier::opaque]
pub open spec fn fill_data(st: ResV, at: Place, d: DataDeclV) -> ResV {
    let (s1, f) = fields_of(st, at, d.fields);
    let (s2, v) = variants_of(s1, at, d.variants);
    with_kind(
        s2,
        at.def,
        DefKindV::Data(
            DataShapeV {
                fields: f.fields,
                field_index: f.index,
                variants: v.variants,
                variant_index: v.index,
            },
        ),
    )
}

/// Fills in the signature of a function; a missing return type is
/// `unit`.
#[verifier::opaque]
pub open spec fn fill_fn(st: ResV, at: Place, f: FnDeclV) -> ResV {
    let (s1, p) = params_of(st, at, f.params);
    let (s2, ret) = match f.ret {
        Some(t) => type_of(s1, at.file, t),
        None => (s1, TypeRef::Unit),
    };
    with_kind(s2, at.def, DefKindV::Function(FnSigV { params: p.params, ret }))
}

/// Fills in one definition.
pub open spec fn fill_item(st: ResV, file: FileId, def: int, item: ItemV) -> ResV {
    let at = Place {
        file,
        def: DefId { raw: def as usize },
        base: crate::ast::item_span(item).start,
    };
    match item {
        ItemV::Data(d) => fill_data(st, at, d),
        ItemV::Fn(f) => fill_fn(st, at, f),
    }
}

/// Fills in the definitions of one file, which start at `def`.
pub open spec fn fill_items(st: ResV, file: FileId, def: int, items: Seq<ItemV>) -> ResV
    decreases items.len(),
{
    if items.len() == 0 {
        st
    } else {
        fill_item(
            fill_items(st, file, def, items.drop_last()),
            file,
            def + items.len() - 1,
            items.last(),
        )
    }
}

/// How many items a list of files holds.
pub open spec fn item_count(fs: Seq<WorkspaceFileV>) -> int
    decreases fs.len(),
{
    if fs.len() == 0 {
        0
    } else {
        item_count(fs.drop_last()) + fs.last().ast.items.len()
    }
}

/// Fills in the definitions of every file.
pub open spec fn fill_defs(st: ResV, fs: Seq<WorkspaceFileV>) -> ResV
    decreases fs.len(),
{
    if fs.len() == 0 {
        st
    } else {
        let s1 = fill_defs(st, fs.drop_last());
        let f = fs.last();
        fill_items(
            ResV { stamp: Some(f.file), ..s1 },
            f.file,
            item_count(fs.drop_last()),
            f.ast.items,
        )
    }
}

/// The tables before any file was read.
pub open spec fn res_start(
    names: Seq<Seq<char>>,
    diags: Seq<DiagnosticV>,
    stamp: Option<FileId>,
) -> ResV {
    ResV {
        names,
        diags,
        stamp,
        symbols: Seq::empty(),
        defs: Seq::empty(),
        envs: Seq::empty(),
        env_index: Map::empty(),
        file_names: Map::empty(),
        module_of: Map::empty(),
    }
}

/// The tables after all passes: the module-name table, definitions,
/// `use` declarations, and last the signatures and shapes, so that
/// definitions in any order and any file can refer to each other.
pub open spec fn resolved(st: ResV, fs: Seq<WorkspaceFileV>) -> ResV {
    fill_defs(add_imports(add_defs(add_files(st, fs), fs), fs), fs)
}

/// The scope that the final tables make up.
pub open spec fn scope_of(st: ResV, root: FileId, fs: Seq<WorkspaceFileV>) -> ModuleScopeV {
    ModuleScopeV {
        root,
        defs: st.defs,
        symbols: st.symbols,
        envs: st.envs,
        env_index: st.env_index,
        files: file_ids(fs),
        file_names: st.file_names,
    }
}

// ---------- the resolver ----------

impl Resolver {
    closed spec fn view(&self) -> ResV {
        ResV {
            names: self.interner@,
            diags: self.diags@,
            stamp: self.diags.stamp(),
            symbols: self.symbols@,
            defs: defs_view(self.defs@),
            envs: envs_view(self.envs@),
            env_index: self.env_index@,
            file_names: self.file_names@,
            module_of: self.module_of@,
        }
    }

    fn intern(&mut self, name: &str) -> (r: InternId)
        ensures
            (final(self)@, r) == intern_in(old(self)@, name@),
    {
        self.interner.intern(name)
    }

    fn push_diag(&mut self, d: Diagnostic)
        ensures
            final(self)@ == report(old(self)@, d@),
    {
        self.diags.push(d);
    }

    fn stamp(&mut self, file: FileId)
        ensures
            final(self)@ == (ResV { stamp: Some(file), ..old(self)@ }),
    {
        self.diags.set_file(Some(file));
    }

    fn name_error(&mut self, code: Code, message: String, name: &Ident)
        ensures
            final(self)@ == report(old(self)@, at_name(code, message@, name@)),
    {
        self.push_diag(
            Diagnostic::error(code, message).primary(name.span).subject(name.name.clone()),
        );
    }

    fn path_error(&mut self, code: Code, message: String, p: &Path)
        ensures
            final(self)@ == report(old(self)@, at_path(code, message@, p@)),
    {
        self.push_diag(Diagnostic::error(code, message).primary(p.span).subject(p.display()));
    }

    fn slot(&self, file: FileId) -> (r: Option<usize>)
        ensures
            match r {
                Some(i) => env_slot(self@, file) == Some(i as int) && i < self.envs@.len(),
                None => env_slot(self@, file) is None,
            },
    {
        match self.env_index.get(file.raw) {
            Some(i) => if i < self.envs.len() {
                Some(i)
            } else {
                None
            },
            None => None,
        }
    }

    /// Whether the file itself defines `n`.
    fn defines(&self, file: FileId, n: InternId) -> (r: bool)
        ensures
            r == (env_at(self@, file).fns.contains_key(n.raw) || env_at(
                self@,
                file,
            ).datas.contains_key(n.raw)),
    {
        match self.slot(file) {
            Some(i) => self.envs[i].fns.contains_key(n.raw) || self.envs[i].datas.contains_key(
                n.raw,
            ),
            None => false,
        }
    }

    fn data_in(&self, file: FileId, n: InternId) -> (r: Option<usize>)
        ensures
            r == entry(env_at(self@, file).datas, n.raw),
    {
        match self.slot(file) {
            Some(i) => self.envs[i].datas.get(n.raw),
            None => None,
        }
    }

    fn fn_in(&self, file: FileId, n: InternId) -> (r: Option<usize>)
        ensures
            r == entry(env_at(self@, file).fns, n.raw),
    {
        match self.slot(file) {
            Some(i) => self.envs[i].fns.get(n.raw),
            None => None,
        }
    }

    fn module_in(&self, file: FileId, n: InternId) -> (r: Option<usize>)
        ensures
            r == entry(env_at(self@, file).modules, n.raw),
    {
        match self.slot(file) {
            Some(i) => self.envs[i].modules.get(n.raw),
            None => None,
        }
    }

    fn import_in(&self, file: FileId, n: InternId) -> (r: Option<usize>)
        ensures
            r == entry(env_at(self@, file).imports, n.raw),
    {
        match self.slot(file) {
            Some(i) => self.envs[i].imports.get(n.raw),
            None => None,
        }
    }

    fn bind_fn(&mut self, file: FileId, n: InternId, def: usize)
        ensures
            final(self)@ == with_env(
                old(self)@,
                file,
                (FileEnvV {
                    fns: env_at(old(self)@, file).fns.insert(n.raw, def),
                    ..env_at(old(self)@, file)
                }),
            ),
    {
        if let Some(i) = self.slot(file) {
            let _ = self.envs[i].fns.insert(n.raw, def);
        }
    }

    fn bind_data(&mut self, file: FileId, n: InternId, def: usize)
        ensures
            final(self)@ == with_env(
                old(self)@,
                file,
                (FileEnvV {
                    datas: env_at(old(self)@, file).datas.insert(n.raw, def),
                    ..env_at(old(self)@, file)
                }),
            ),
    {
        if let Some(i) = self.slot(file) {
            let _ = self.envs[i].datas.insert(n.raw, def);
        }
    }

    fn bind_module(&mut self, file: FileId, n: InternId, from: usize)
        ensures
            final(self)@ == with_env(
                old(self)@,
                file,
                (FileEnvV {
                    modules: env_at(old(self)@, file).modules.insert(n.raw, from),
                    ..env_at(old(self)@, file)
                }),
            ),
    {
        if let Some(i) = self.slot(file) {
            let _ = self.envs[i].modules.insert(n.raw, from);
        }
    }

    fn bind_import(&mut self, file: FileId, n: InternId, def: usize)
        ensures
            final(self)@ == with_env(
                old(self)@,
                file,
                (FileEnvV {
                    imports: env_at(old(self)@, file).imports.insert(n.raw, def),
                    ..env_at(old(self)@, file)
                }),
            ),
    {
        if let Some(i) = self.slot(file) {
            let _ = self.envs[i].imports.insert(n.raw, def);
        }
    }

    // Pass 0: the module-name table.
    fn add_file(&mut self, f: &WorkspaceFile)
        ensures
            final(self)@ == add_file(old(self)@, f@),
    {
        proof {
            reveal(add_file);
        }
        let name = self.intern(f.module);
        let _ = self.file_names.insert(f.file.raw, name.raw);
        let prev = self.module_of.insert(name.raw, f.file.raw);
        let slot: usize = self.envs.len();
        let _ = self.env_index.insert(f.file.raw, slot);
        let ghost before = envs_view(self.envs@);
        self.envs.push(FileEnv::new());
        proof {
            assert(envs_view(self.envs@) =~= before.push(empty_env()));
        }
        if prev.is_some() {
            self.stamp(f.file);
            self.push_diag(
                Diagnostic::error(
                    Code::DuplicateDef,
                    cat3("module `", f.module, "` is provided by more than one file"),
                ).subject(f.module.to_string()),
            );
        }
    }

    fn symbol(
        &mut self,
        n: InternId,
        kind: SymbolKind,
        owner: Option<DefId>,
        span: Span,
    ) -> (r: SymbolId)
        ensures
            r == SymbolId::Module(old(self)@.symbols.len() as usize),
            final(self)@ == (ResV {
                symbols: pushed_symbol(
                    old(self)@.symbols,
                    Symbol { id: SymbolId::Module(0), name: n, kind, mutable: false, owner, span },
                ),
                ..old(self)@
            }),
    {
        self.symbols.push(
            Symbol { id: SymbolId::Module(0), name: n, kind, mutable: false, owner, span },
        )
    }

    // Pass 1: one definition.
    fn add_item(&mut self, file: FileId, index: usize, item: &Item)
        ensures
            final(self)@ == add_item(old(self)@, file, index as int, item@),
    {
        proof {
            reveal(add_item);
        }
        // Spans stored in the scope are item-relative: an edit that only
        // shifts an item's absolute offset leaves the scope unchanged.
        // Diagnostics emitted here use the AST's absolute spans.
        let base = item.span().start;
        let name = item.name();
        let n = self.intern(name.name.as_str());
        let kind = match item {
            Item::Data(_) => SymbolKind::Data,
            Item::Fn(_) => SymbolKind::Function,
        };
        let symbol = self.symbol(n, kind, None, name.span.rel(base));
        let def: usize = self.defs.len();
        if self.defines(file, n) {
            self.name_error(
                Code::DuplicateDef,
                cat3("`", name.name.as_str(), "` is defined more than once"),
                name,
            );
        } else {
            match item {
                Item::Data(_) => self.bind_data(file, n, def),
                Item::Fn(_) => self.bind_fn(file, n, def),
            }
        }
        // The def is allocated even on duplicates so later references
        // still resolve somewhere deterministic (the first def wins).
        let blank = match item {
            Item::Data(_) => DefKind::Data(
                DataShape {
                    fields: Vec::new(),
                    field_index: IdMap::new(),
                    variants: Vec::new(),
                    variant_index: IdMap::new(),
                },
            ),
            Item::Fn(_) => DefKind::Function(FnSig { params: Vec::new(), ret: TypeRef::Unit }),
        };
        proof {
            assert(blank@ =~~= blank_kind(item@));
        }
        let ghost before = defs_view(self.defs@);
        let d = Def {
            id: DefId { raw: def },
            file,
            item: index,
            name: symbol,
            kind: blank,
            span: name.span.rel(base),
        };
        let ghost dv = d@;
        self.defs.push(d);
        proof {
            assert(defs_view(self.defs@) =~= before.push(dv));
        }
    }

    // Pass 2: one `use` declaration.
    fn add_use(&mut self, file: FileId, u: &UseDecl)
        ensures
            final(self)@ == add_use(old(self)@, file, u@),
    {
        proof {
            reveal(add_use);
        }
        let segs = &u.path.segs;
        if segs.len() == 0 {
            return ;
        }
        let m = self.intern(segs[0].name.as_str());
        match self.module_of.get(m.raw) {
            None => {
                self.name_error(
                    Code::UnknownModule,
                    cat3("unknown module `", segs[0].name.as_str(), "`"),
                    &segs[0],
                );
            },
            Some(f) => if f == file.raw {
                self.name_error(
                    Code::UnknownModule,
                    cat3("module `", segs[0].name.as_str(), "` is this file itself"),
                    &segs[0],
                );
            } else if segs.len() > 2 {
                let text = u.path.display();
                self.path_error(
                    Code::UnknownSymbol,
                    cat3("unsupported path `", text.as_str(), "` — only `m` or `m::x`"),
                    &u.path,
                );
            } else if segs.len() == 1 {
                // Module import: bind `m` (or the `as` alias).
                let bind = match &u.alias {
                    Some(a) => a,
                    None => &segs[0],
                };
                let n = self.intern(bind.name.as_str());
                self.bind_module(file, n, f);
            } else {
                self.add_member(file, FileId { raw: f }, &segs[0], &segs[1], &u.alias);
            },
        }
    }

    fn add_member(
        &mut self,
        file: FileId,
        from: FileId,
        module: &Ident,
        member: &Ident,
        alias: &Option<Ident>,
    )
        ensures
            final(self)@ == add_member(
                old(self)@,
                file,
                from,
                module@,
                member@,
                crate::ast::opt_ident(*alias),
            ),
    {
        let n = self.intern(member.name.as_str());
        let found = match self.fn_in(from, n) {
            Some(d) => Some(d),
            None => self.data_in(from, n),
        };
        match found {
            None => {
                self.name_error(
                    Code::UnknownSymbol,
                    cat5(
                        "module `",
                        module.name.as_str(),
                        "` has no member `",
                        member.name.as_str(),
                        "`",
                    ),
                    member,
                );
            },
            Some(def) => {
                let bind = match alias {
                    Some(a) => a,
                    None => member,
                };
                let b = self.intern(bind.name.as_str());
                if self.defines(file, b) || self.import_in(file, b).is_some() {
                    self.name_error(
                        Code::DuplicateDef,
                        cat3(
                            "name `",
                            bind.name.as_str(),
                            "` is already defined or imported in this file",
                        ),
                        bind,
                    );
                } else {
                    self.bind_import(file, b, def);
                }
            },
        }
    }

    fn named_type(&mut self, file: FileId, p: &Path) -> (r: TypeRef)
        ensures
            (final(self)@, r) == named_type(old(self)@, file, p@),
    {
        let segs = &p.segs;
        if segs.len() == 1 {
            let name = &segs[0];
            if let Some(t) = signature_type(name.name.as_str()) {
                return t;
            }
            let n = self.intern(name.name.as_str());
            if let Some(d) = self.data_in(file, n) {
                return TypeRef::Struct(DefId { raw: d });
            }
            if let Some(d) = self.import_in(file, n) {
                if d < self.defs.len() {
                    if let DefKind::Data(_) = &self.defs[d].kind {
                        return TypeRef::Struct(DefId { raw: d });
                    }
                }
            }
            self.name_error(
                Code::UnknownType,
                cat3("unknown type `", name.name.as_str(), "`"),
                name,
            );
            return TypeRef::Poison;
        }
        if segs.len() == 2 {
            let m = self.intern(segs[0].name.as_str());
            match self.module_in(file, m) {
                None => {
                    self.name_error(
                        Code::UnknownModule,
                        cat3("unknown module `", segs[0].name.as_str(), "`"),
                        &segs[0],
                    );
                    return TypeRef::Poison;
                },
                Some(from) => {
                    let n = self.intern(segs[1].name.as_str());
                    if let Some(d) = self.data_in(FileId { raw: from }, n) {
                        return TypeRef::Struct(DefId { raw: d });
                    }
                    self.name_error(
                        Code::UnknownType,
                        cat5(
                            "module `",
                            segs[0].name.as_str(),
                            "` has no type `",
                            segs[1].name.as_str(),
                            "`",
                        ),
                        &segs[1],
                    );
                    return TypeRef::Poison;
                },
            }
        }
        let text = p.display();
        self.path_error(
            Code::UnknownType,
            cat3("unsupported type path `", text.as_str(), "`"),
            p,
        );
        TypeRef::Poison
    }

    fn array_type(&mut self, elem: TypeRef, span: Span) -> (r: TypeRef)
        ensures
            (final(self)@, r) == array_of(old(self)@, elem, span),
    {
        match elem {
            TypeRef::Poison => TypeRef::Poison,
            TypeRef::Array { elem: _ } => {
                self.push_diag(
                    Diagnostic::error(
                        Code::UnsupportedOperation,
                        "nested array types are not supported yet".to_string(),
                    ).primary(span),
                );
                TypeRef::Poison
            },
            TypeRef::Unit => {
                self.push_diag(
                    Diagnostic::error(
                        Code::UnsupportedOperation,
                        "arrays cannot hold `unit` elements".to_string(),
                    ).primary(span),
                );
                TypeRef::Poison
            },
            leaf => match ElemRef::of(leaf) {
                Some(e) => TypeRef::Array { elem: e },
                None => TypeRef::Poison,
            },
        }
    }

    /// Resolves a syntactic type to a [`TypeRef`] through `file`'s
    /// environment.
    fn resolve_type(&mut self, file: FileId, t: &TypeExpr) -> (r: TypeRef)
        ensures
            (final(self)@, r) == type_of(old(self)@, file, t@),
        decreases t,
    {
        proof {
            reveal_with_fuel(type_of, 2);
        }
        match t {
            TypeExpr::Array { elem, span } => {
                let e = self.resolve_type(file, elem);
                self.array_type(e, *span)
            },
            TypeExpr::Named { path } => self.named_type(file, path),
        }
    }

    fn resolve_types(&mut self, file: FileId, ts: &Vec<TypeExpr>) -> (r: Vec<TypeRef>)
        ensures
            (final(self)@, r@) == types_of(old(self)@, file, crate::ast::type_exprs(ts@)),
    {
        let ghost all = crate::ast::type_exprs(ts@);
        let ghost st0 = self@;
        let mut out: Vec<TypeRef> = Vec::new();
        let mut i: usize = 0;
        proof {
            assert(all.take(0) =~= Seq::empty());
            assert(out@ =~= Seq::empty());
        }
        while i < ts.len()
            invariant
                i <= ts@.len(),
                all == crate::ast::type_exprs(ts@),
                (self@, out@) == types_of(st0, file, all.take(i as int)),
            decreases ts@.len() - i,
        {
            proof {
                assert(all.take(i + 1).drop_last() =~= all.take(i as int));
                assert(all.take(i + 1).last() == ts@[i as int]@);
            }
            let t = self.resolve_type(file, &ts[i]);
            out.push(t);
            i += 1;
        }
        proof {
            assert(all.take(all.len() as int) =~= all);
        }
        out
    }

    // Pass 3: the fields of one `data`.
    fn fields(&mut self, at: Place, fs: &Vec<Field>) -> (r: (Vec<FieldDef>, IdMap))
        ensures
            final(self)@ == fields_of(old(self)@, at, crate::ast::fields(fs@)).0,
            r.0@ == fields_of(old(self)@, at, crate::ast::fields(fs@)).1.fields,
            r.1@ == fields_of(old(self)@, at, crate::ast::fields(fs@)).1.index,
    {
        let ghost all = crate::ast::fields(fs@);
        let ghost st0 = self@;
        let mut fields: Vec<FieldDef> = Vec::new();
        let mut index = IdMap::new();
        // Which field first bore a name — the duplicate-field label must
        // render file-absolute.
        let mut first = IdMap::new();
        let mut i: usize = 0;
        proof {
            assert(all.take(0) =~= Seq::empty());
            assert(fields@ =~= Seq::empty());
        }
        while i < fs.len()
            invariant
                i <= fs@.len(),
                all == crate::ast::fields(fs@),
                (self@, (FieldsV { first: first@, index: index@, fields: fields@ })) == fields_of(
                    st0,
                    at,
                    all.take(i as int),
                ),
                forall|k: usize| #[trigger]
                    index@.contains_key(k) ==> first@.contains_key(k) && first@[k] < i,
            decreases fs@.len() - i,
        {
            proof {
                reveal(add_field);
                assert(all.take(i + 1).drop_last() =~= all.take(i as int));
                assert(all.take(i + 1).last() == fs@[i as int]@);
            }
            let f = &fs[i];
            let n = self.intern(f.name.name.as_str());
            if index.contains_key(n.raw) {
                let prev: usize = match first.get(n.raw) {
                    Some(j) => j,
                    None => i,
                };
                proof {
                    assert(all.take(i + 1)[prev as int] == fs@[prev as int]@);
                }
                self.push_diag(
                    Diagnostic::error(
                        Code::DuplicateField,
                        crate::text::cat4(
                            "field",
                            " `",
                            f.name.name.as_str(),
                            "` is defined more than once",
                        ),
                    ).primary(f.name.span).label(
                        fs[prev].name.span,
                        "previous definition here".to_string(),
                    ).subject(f.name.name.clone()),
                );
            } else {
                let ty = self.resolve_type(at.file, &f.ty);
                let symbol = self.symbol(
                    n,
                    SymbolKind::Field,
                    Some(at.def),
                    f.name.span.rel(at.base),
                );
                let pos: usize = fields.len();
                let _ = index.insert(n.raw, pos);
                let _ = first.insert(n.raw, i);
                fields.push(FieldDef { symbol, ty, index: pos });
            }
            i += 1;
        }
        proof {
            assert(all.take(all.len() as int) =~= all);
        }
        (fields, index)
    }

    // Pass 3: the variants of one `data`.
    fn variants(&mut self, at: Place, vs: &Vec<Variant>) -> (r: (Vec<VariantDef>, IdMap))
        ensures
            final(self)@ == variants_of(old(self)@, at, crate::ast::variants(vs@)).0,
            variant_defs(r.0@) == variants_of(
                old(self)@,
                at,
                crate::ast::variants(vs@),
            ).1.variants,
            r.1@ == variants_of(old(self)@, at, crate::ast::variants(vs@)).1.index,
    {
        let ghost all = crate::ast::variants(vs@);
        let ghost st0 = self@;
        let mut variants: Vec<VariantDef> = Vec::new();
        let mut index = IdMap::new();
        let mut first = IdMap::new();
        let mut i: usize = 0;
        proof {
            assert(all.take(0) =~= Seq::empty());
            assert(variant_defs(variants@) =~= Seq::empty());
        }
        while i < vs.len()
            invariant
                i <= vs@.len(),
                all == crate::ast::variants(vs@),
                (
                    self@,
                    (VariantsV {
                        first: first@,
                        index: index@,
                        variants: variant_defs(variants@),
                    }),
                ) == variants_of(st0, at, all.take(i as int)),
                forall|k: usize| #[trigger]
                    index@.contains_key(k) ==> first@.contains_key(k) && first@[k] < i,
            decreases vs@.len() - i,
        {
            proof {
                reveal(add_variant);
                assert(all.take(i + 1).drop_last() =~= all.take(i as int));
                assert(all.take(i + 1).last() == vs@[i as int]@);
            }
            let v = &vs[i];
            let n = self.intern(v.name.name.as_str());
            if index.contains_key(n.raw) {
                let prev: usize = match first.get(n.raw) {
                    Some(j) => j,
                    None => i,
                };
                proof {
                    assert(all.take(i + 1)[prev as int] == vs@[prev as int]@);
                }
                self.push_diag(
                    Diagnostic::error(
                        Code::DuplicateField,
                        crate::text::cat4(
                            "variant",
                            " `",
                            v.name.name.as_str(),
                            "` is defined more than once",
                        ),
                    ).primary(v.name.span).label(
                        vs[prev].name.span,
                        "previous definition here".to_string(),
                    ).subject(v.name.name.clone()),
                );
            } else {
                let payload = self.resolve_types(at.file, &v.payload);
                let symbol = self.symbol(
                    n,
                    SymbolKind::Variant,
                    Some(at.def),
                    v.name.span.rel(at.base),
                );
                let pos: usize = variants.len();
                let _ = index.insert(n.raw, pos);
                let _ = first.insert(n.raw, i);
                let ghost before = variant_defs(variants@);
                let d = VariantDef { symbol, payload, index: pos };
                let ghost dv = d@;
                variants.push(d);
                proof {
                    assert(variant_defs(variants@) =~= before.push(dv));
                }
            }
            i += 1;
        }
        proof {
            assert(all.take(all.len() as int) =~= all);
        }
        (variants, index)
    }

    // Pass 3: the parameters of one function.
    fn params(&mut self, at: Place, ps: &Vec<Param>) -> (r: Vec<ParamDef>)
        ensures
            final(self)@ == params_of(old(self)@, at, crate::ast::params(ps@)).0,
            r@ == params_of(old(self)@, at, crate::ast::params(ps@)).1.params,
    {
        let ghost all = crate::ast::params(ps@);
        let ghost st0 = self@;
        let mut params: Vec<ParamDef> = Vec::new();
        let mut first = IdMap::new();
        let mut i: usize = 0;
        proof {
            assert(all.take(0) =~= Seq::empty());
            assert(params@ =~= Seq::empty());
        }
        while i < ps.len()
            invariant
                i <= ps@.len(),
                all == crate::ast::params(ps@),
                (self@, (ParamsV { first: first@, params: params@ })) == params_of(
                    st0,
                    at,
                    all.take(i as int),
                ),
                forall|k: usize| #[trigger] first@.contains_key(k) ==> first@[k] < i,
            decreases ps@.len() - i,
        {
            proof {
                reveal(add_param);
                assert(all.take(i + 1).drop_last() =~= all.take(i as int));
                assert(all.take(i + 1).last() == ps@[i as int]@);
            }
            let p = &ps[i];
            let n = self.intern(p.name.name.as_str());
            match first.get(n.raw) {
                Some(prev) => {
                    proof {
                        assert(all.take(i + 1)[prev as int] == ps@[prev as int]@);
                    }
                    self.push_diag(
                        Diagnostic::error(
                            Code::DuplicateDef,
                            crate::text::cat4(
                                "parameter",
                                " `",
                                p.name.name.as_str(),
                                "` is defined more than once",
                            ),
                        ).primary(p.name.span).label(
                            ps[prev].name.span,
                            "previous parameter here".to_string(),
                        ).subject(p.name.name.clone()),
                    );
                },
                None => {
                    let _ = first.insert(n.raw, i);
                },
            }
            let ty = self.resolve_type(at.file, &p.ty);
            // Params are body-local: their `Symbol` record is allocated
            // by body lowering into `local_symbols[i]`. Resolution only
            // fixes the identity (`local(i)`) and type.
            params.push(
                ParamDef {
                    symbol: SymbolId::local(i),
                    name: n,
                    mutable: p.mutable,
                    ty,
                    span: p.span.rel(at.base),
                },
            );
            i += 1;
        }
        proof {
            assert(all.take(all.len() as int) =~= all);
        }
        params
    }

    fn set_kind(&mut self, def: DefId, kind: DefKind)
        ensures
            final(self)@ == with_kind(old(self)@, def, kind@),
    {
        if def.raw < self.defs.len() {
            let ghost before = defs_view(self.defs@);
            let ghost kv = kind@;
            self.defs[def.raw].kind = kind;
            proof {
                assert(defs_view(self.defs@) =~= before.update(
                    def.raw as int,
                    DefV { kind: kv, ..before[def.raw as int] },
                ));
            }
        }
    }

    fn fill_data(&mut self, at: Place, d: &DataDecl)
        ensures
            final(self)@ == fill_data(old(self)@, at, d@),
    {
        proof {
            reveal(fill_data);
        }
        let (fields, field_index) = self.fields(at, &d.fields);
        let (variants, variant_index) = self.variants(at, &d.variants);
        self.set_kind(
            at.def,
            DefKind::Data(DataShape { fields, field_index, variants, variant_index }),
        );
    }

    fn fill_fn(&mut self, at: Place, f: &FnDecl)
        ensures
            final(self)@ == fill_fn(old(self)@, at, f@),
    {
        proof {
            reveal(fill_fn);
        }
        let params = self.params(at, &f.params);
        let ret = match &f.ret {
            Some(t) => self.resolve_type(at.file, t),
            None => TypeRef::Unit,
        };
        self.set_kind(at.def, DefKind::Function(FnSig { params, ret }));
    }

    fn run(&mut self, files: &Vec<WorkspaceFile>)
        ensures
            final(self)@ == resolved(old(self)@, ws_files(files@)),
    {
        self.pass_files(files);
        self.pass_defs(files);
        self.pass_uses(files);
        proof {
            let fs = ws_files(files@);
            let s1 = add_files(old(self)@, fs);
            lemma_defs_count(s1, fs);
            lemma_imports_keep_defs(add_defs(s1, fs), fs);
        }
        let n: usize = self.defs.len();
        assert(item_count(ws_files(files@)) <= n);
        self.pass_fill(files);
    }

    fn pass_files(&mut self, files: &Vec<WorkspaceFile>)
        ensures
            final(self)@ == add_files(old(self)@, ws_files(files@)),
    {
        let ghost all = ws_files(files@);
        let ghost st0 = self@;
        let mut i: usize = 0;
        proof {
            assert(all.take(0) =~= Seq::empty());
        }
        while i < files.len()
            invariant
                i <= files@.len(),
                all == ws_files(files@),
                self@ == add_files(st0, all.take(i as int)),
            decreases files@.len() - i,
        {
            proof {
                assert(all.take(i + 1).drop_last() =~= all.take(i as int));
                assert(all.take(i + 1).last() == files@[i as int]@);
            }
            self.add_file(&files[i]);
            i += 1;
        }
        proof {
            assert(all.take(all.len() as int) =~= all);
        }
    }

    fn items(&mut self, file: FileId, items: &Vec<Item>)
        ensures
            final(self)@ == add_items(old(self)@, file, crate::ast::items(items@)),
    {
        let ghost all = crate::ast::items(items@);
        let ghost st0 = self@;
        let mut i: usize = 0;
        proof {
            assert(all.take(0) =~= Seq::empty());
        }
        while i < items.len()
            invariant
                i <= items@.len(),
                all == crate::ast::items(items@),
                self@ == add_items(st0, file, all.take(i as int)),
            decreases items@.len() - i,
        {
            proof {
                assert(all.take(i + 1).drop_last() =~= all.take(i as int));
                assert(all.take(i + 1).last() == items@[i as int]@);
            }
            self.add_item(file, i, &items[i]);
            i += 1;
        }
        proof {
            assert(all.take(all.len() as int) =~= all);
        }
    }

    fn pass_defs(&mut self, files: &Vec<WorkspaceFile>)
        ensures
            final(self)@ == add_defs(old(self)@, ws_files(files@)),
    {
        let ghost all = ws_files(files@);
        let ghost st0 = self@;
        let mut i: usize = 0;
        proof {
            assert(all.take(0) =~= Seq::empty());
        }
        while i < files.len()
            invariant
                i <= files@.len(),
                all == ws_files(files@),
                self@ == add_defs(st0, all.take(i as int)),
            decreases files@.len() - i,
        {
            proof {
                assert(all.take(i + 1).drop_last() =~= all.take(i as int));
                assert(all.take(i + 1).last() == files@[i as int]@);
            }
            self.stamp(files[i].file);
            self.items(files[i].file, &files[i].ast.items);
            i += 1;
        }
        proof {
            assert(all.take(all.len() as int) =~= all);
        }
    }

    fn uses(&mut self, file: FileId, us: &Vec<UseDecl>)
        ensures
            final(self)@ == add_uses(old(self)@, file, crate::ast::use_decls(us@)),
    {
        let ghost all = crate::ast::use_decls(us@);
        let ghost st0 = self@;
        let mut i: usize = 0;
        proof {
            assert(all.take(0) =~= Seq::empty());
        }
        while i < us.len()
            invariant
                i <= us@.len(),
                all == crate::ast::use_decls(us@),
                self@ == add_uses(st0, file, all.take(i as int)),
            decreases us@.len() - i,
        {
            proof {
                assert(all.take(i + 1).drop_last() =~= all.take(i as int));
                assert(all.take(i + 1).last() == us@[i as int]@);
            }
            self.add_use(file, &us[i]);
            i += 1;
        }
        proof {
            assert(all.take(all.len() as int) =~= all);
        }
    }

    fn pass_uses(&mut self, files: &Vec<WorkspaceFile>)
        ensures
            final(self)@ == add_imports(old(self)@, ws_files(files@)),
    {
        let ghost all = ws_files(files@);
        let ghost st0 = self@;
        let mut i: usize = 0;
        proof {
            assert(all.take(0) =~= Seq::empty());
        }
        while i < files.len()
            invariant
                i <= files@.len(),
                all == ws_files(files@),
                self@ == add_imports(st0, all.take(i as int)),
            decreases files@.len() - i,
        {
            proof {
                assert(all.take(i + 1).drop_last() =~= all.take(i as int));
                assert(all.take(i + 1).last() == files@[i as int]@);
            }
            self.stamp(files[i].file);
            self.uses(files[i].file, &files[i].ast.uses);
            i += 1;
        }
        proof {
            assert(all.take(all.len() as int) =~= all);
        }
    }

    /// Fills in the definitions of one file, which start at `start`, as
    /// far as they exist.
    fn fill(&mut self, file: FileId, start: usize, items: &Vec<Item>)
        requires
            start + items@.len() <= usize::MAX,
        ensures
            final(self)@ == fill_items(
                old(self)@,
                file,
                start as int,
                crate::ast::items(items@),
            ),
    {
        let ghost all = crate::ast::items(items@);
        let ghost st0 = self@;
        let mut i: usize = 0;
        proof {
            assert(all.take(0) =~= Seq::empty());
        }
        while i < items.len()
            invariant
                i <= items@.len(),
                start + items@.len() <= usize::MAX,
                all == crate::ast::items(items@),
                self@ == fill_items(st0, file, start as int, all.take(i as int)),
            decreases items@.len() - i,
        {
            proof {
                assert(all.take(i + 1).drop_last() =~= all.take(i as int));
                assert(all.take(i + 1).last() == items@[i as int]@);
            }
            let at = Place {
                file,
                def: DefId { raw: start + i },
                base: items[i].span().start,
            };
            match &items[i] {
                Item::Data(d) => self.fill_data(at, d),
                Item::Fn(f) => self.fill_fn(at, f),
            }
            i += 1;
        }
        proof {
            assert(all.take(all.len() as int) =~= all);
        }
    }

    fn pass_fill(&mut self, files: &Vec<WorkspaceFile>)
        requires
            item_count(ws_files(files@)) <= usize::MAX,
        ensures
            final(self)@ == fill_defs(old(self)@, ws_files(files@)),
    {
        let ghost all = ws_files(files@);
        let ghost st0 = self@;
        let mut i: usize = 0;
        let mut start: usize = 0;
        proof {
            assert(all.take(0) =~= Seq::empty());
            assert(all.take(all.len() as int) =~= all);
        }
        while i < files.len()
            invariant
                i <= files@.len(),
                all == ws_files(files@),
                start == item_count(all.take(i as int)),
                item_count(all) <= usize::MAX,
                self@ == fill_defs(st0, all.take(i as int)),
            decreases files@.len() - i,
        {
            proof {
                assert(all.take(i + 1).drop_last() =~= all.take(i as int));
                assert(all.take(i + 1).last() == files@[i as int]@);
                lemma_item_count(all, i + 1);
            }
            self.stamp(files[i].file);
            self.fill(files[i].file, start, &files[i].ast.items);
            start += files[i].ast.items.len();
            i += 1;
        }
        proof {
            assert(all.take(all.len() as int) =~= all);
        }
    }
}

/// Resolves the workspace reachable from `root`. `files` lists every
/// reachable file in discovery order (root first); each file's
/// `module` is the name `use` declarations resolve against. Module
/// resolution itself — turning `use m` into a file — happened when
/// the workspace was loaded; here `use` bindings are checked and
/// wired into per-file environments.
pub fn resolve_workspace(
    root: FileId,
    files: &Vec<WorkspaceFile>,
    interner: &mut Interner,
    diags: &mut Diagnostics,
) -> (r: ModuleScope)
    ensures
        ({
            let st = resolved(
                res_start(old(interner)@, old(diags)@, old(diags).stamp()),
                ws_files(files@),
            );
            &&& r@ == scope_of(st, root, ws_files(files@))
            &&& final(interner)@ == st.names
            &&& final(diags)@ == st.diags
            &&& final(diags).stamp() is None
        }),
{
    let mut r = Resolver {
        interner: Interner::new(),
        diags: Diagnostics::new(),
        symbols: SymbolTable::new(),
        defs: Vec::new(),
        envs: Vec::new(),
        env_index: IdMap::new(),
        file_names: IdMap::new(),
        module_of: IdMap::new(),
    };
    std::mem::swap(&mut r.interner, interner);
    std::mem::swap(&mut r.diags, diags);
    proof {
        assert(r@.symbols =~= Seq::empty());
        assert(r@.defs =~= Seq::empty());
        assert(r@.envs =~= Seq::empty());
    }
    r.run(files);
    std::mem::swap(&mut r.interner, interner);
    std::mem::swap(&mut r.diags, diags);
    diags.set_file(None);
    let mut ids: Vec<FileId> = Vec::new();
    let mut i: usize = 0;
    while i < files.len()
        invariant
            i <= files@.len(),
            ids@ == file_ids(ws_files(files@)).take(i as int),
        decreases files@.len() - i,
    {
        ids.push(files[i].file);
        i += 1;
    }
    proof {
        assert(ids@ =~= file_ids(ws_files(files@)));
    }
    ModuleScope {
        root,
        defs: r.defs,
        symbols: r.symbols,
        envs: r.envs,
        env_index: r.env_index,
        files: ids,
        file_names: r.file_names,
    }
}

/// The degenerate workspace of one file, `main`.
pub open spec fn single(ast: AstModuleV) -> Seq<WorkspaceFileV> {
    seq![WorkspaceFileV { file: FileId { raw: 0 }, module: "main"@, ast }]
}

/// Resolves a single file with no imports — the degenerate workspace.
pub fn resolve_module(ast: &AstModule, interner: &mut Interner, diags: &mut Diagnostics) -> (r:
    ModuleScope)
    ensures
        ({
            let st = resolved(
                res_start(old(interner)@, old(diags)@, old(diags).stamp()),
                single(ast@),
            );
            &&& r@ == scope_of(st, FileId { raw: 0 }, single(ast@))
            &&& final(interner)@ == st.names
            &&& final(diags)@ == st.diags
            &&& final(diags).stamp() is None
        }),
{
    let mut files: Vec<WorkspaceFile> = Vec::new();
    files.push(WorkspaceFile { file: FileId::new(0), module: "main", ast });
    proof {
        assert(ws_files(files@) =~= single(ast@));
    }
    resolve_workspace(FileId::new(0), &files, interner, diags)
}

// ---------- what resolution keeps ----------

/// All items of a list of files, in order.
pub open spec fn all_items(fs: Seq<WorkspaceFileV>) -> Seq<ItemV>
    decreases fs.len(),
{
    if fs.len() == 0 {
        Seq::empty()
    } else {
        all_items(fs.drop_last()) + fs.last().ast.items
    }
}

proof fn lemma_item_count(fs: Seq<WorkspaceFileV>, n: int)
    requires
        0 <= n <= fs.len(),
    ensures
        0 <= item_count(fs.take(n)) <= item_count(fs),
        item_count(fs) == all_items(fs).len(),
    decreases fs.len(),
{
    if fs.len() > 0 {
        if n == fs.len() {
            assert(fs.take(n) =~= fs);
            lemma_item_count(fs.drop_last(), n - 1);
        } else {
            lemma_item_count(fs.drop_last(), n);
            assert(fs.drop_last().take(n) =~= fs.take(n));
        }
    } else {
        assert(fs.take(n) =~= fs);
    }
}

/// Whether an environment's own names stand for definitions of their
/// kind, and its imports for definitions.
pub open spec fn env_ok(env: FileEnvV, defs: Seq<DefV>) -> bool {
    &&& forall|n: usize| #[trigger]
        env.fns.contains_key(n) ==> env.fns[n] < defs.len() && defs[env.fns[n] as int].kind
            is Function
    &&& forall|n: usize| #[trigger]
        env.datas.contains_key(n) ==> env.datas[n] < defs.len() && defs[env.datas[n] as int].kind
            is Data
    &&& forall|n: usize| #[trigger] env.imports.contains_key(n) ==> env.imports[n] < defs.len()
}

/// Whether the first definitions are those of `items`: each carries its
/// own position as id, and is a `data` or a function as its item is.
pub open spec fn defs_match(defs: Seq<DefV>, items: Seq<ItemV>) -> bool {
    &&& defs.len() == items.len()
    &&& forall|k: int|
        0 <= k < items.len() ==> (#[trigger] defs[k]).id.raw == k && (defs[k].kind is Data) == (
        items[k] is Data)
}

/// Whether every environment speaks of definitions only.
pub open spec fn envs_ok(st: ResV) -> bool {
    forall|e: int| 0 <= e < st.envs.len() ==> env_ok(#[trigger] st.envs[e], st.defs)
}

/// Whether nothing but names, symbols, and diagnostics differ.
pub open spec fn same_tables(a: ResV, b: ResV) -> bool {
    &&& b.defs == a.defs
    &&& b.envs == a.envs
    &&& b.env_index == a.env_index
    &&& b.file_names == a.file_names
    &&& b.module_of == a.module_of
}

pub proof fn lemma_type_frame(st: ResV, file: FileId, t: TypeExprV)
    ensures
        same_tables(st, type_of(st, file, t).0),
    decreases t,
{
    reveal_with_fuel(type_of, 2);
    match t {
        TypeExprV::Array { elem, span } => {
            lemma_type_frame(st, file, *elem);
        },
        TypeExprV::Named { path } => {},
    }
}

proof fn lemma_types_frame(st: ResV, file: FileId, ts: Seq<TypeExprV>)
    ensures
        same_tables(st, types_of(st, file, ts).0),
    decreases ts.len(),
{
    if ts.len() > 0 {
        lemma_types_frame(st, file, ts.drop_last());
        lemma_type_frame(types_of(st, file, ts.drop_last()).0, file, ts.last());
    }
}

pub proof fn lemma_fields_frame(st: ResV, at: Place, fs: Seq<FieldV>)
    ensures
        same_tables(st, fields_of(st, at, fs).0),
    decreases fs.len(),
{
    if fs.len() > 0 {
        reveal(add_field);
        lemma_fields_frame(st, at, fs.drop_last());
        let s1 = fields_of(st, at, fs.drop_last()).0;
        lemma_type_frame(intern_in(s1, fs.last().name.name).0, at.file, fs.last().ty);
    }
}

pub proof fn lemma_variants_frame(st: ResV, at: Place, vs: Seq<VariantV>)
    ensures
        same_tables(st, variants_of(st, at, vs).0),
    decreases vs.len(),
{
    if vs.len() > 0 {
        reveal(add_variant);
        lemma_variants_frame(st, at, vs.drop_last());
        let s1 = variants_of(st, at, vs.drop_last()).0;
        lemma_types_frame(intern_in(s1, vs.last().name.name).0, at.file, vs.last().payload);
    }
}

pub proof fn lemma_params_frame(st: ResV, at: Place, ps: Seq<ParamV>)
    ensures
        same_tables(st, params_of(st, at, ps).0),
        params_of(st, at, ps).1.params.len() == ps.len(),
        forall|i: int|
            0 <= i < ps.len() && ps.len() <= usize::MAX ==> (#[trigger] params_of(
                st,
                at,
                ps,
            ).1.params[i]).symbol == SymbolId::Local(i as usize),
    decreases ps.len(),
{
    if ps.len() > 0 {
        reveal(add_param);
        lemma_params_frame(st, at, ps.drop_last());
        let (s1, done) = params_of(st, at, ps.drop_last());
        let (s2, n) = intern_in(s1, ps.last().name.name);
        let s3 = match entry(done.first, n.raw) {
            Some(i) => report(
                s2,
                repeated(
                    Code::DuplicateDef,
                    "parameter"@,
                    ps.last().name,
                    ps[i as int].name.span,
                    "previous parameter here"@,
                ),
            ),
            None => s2,
        };
        lemma_type_frame(s3, at.file, ps.last().ty);
        let all = params_of(st, at, ps).1.params;
        assert forall|i: int| 0 <= i < ps.len() && ps.len() <= usize::MAX implies (
        #[trigger] all[i]).symbol == SymbolId::Local(i as usize) by {
            if i < ps.len() - 1 {
                assert(all[i] == done.params[i]);
            }
        }
    }
}

/// Filling in a definition changes the kind of that definition alone,
/// and never turns a `data` into a function or back.
proof fn lemma_fill_item(st: ResV, file: FileId, def: int, item: ItemV)
    requires
        0 <= def < st.defs.len(),
        st.defs.len() <= usize::MAX,
        (st.defs[def].kind is Data) == (item is Data),
    ensures
        ({
            let b = fill_item(st, file, def, item);
            &&& b.envs == st.envs
            &&& b.env_index == st.env_index
            &&& b.file_names == st.file_names
            &&& b.module_of == st.module_of
            &&& b.defs.len() == st.defs.len()
            &&& forall|k: int|
                0 <= k < st.defs.len() ==> (#[trigger] b.defs[k]).id == st.defs[k].id && (
                b.defs[k].kind is Data) == (st.defs[k].kind is Data)
        }),
{
    reveal(fill_data);
    reveal(fill_fn);
    let at = Place {
        file,
        def: DefId { raw: def as usize },
        base: crate::ast::item_span(item).start,
    };
    match item {
        ItemV::Data(d) => {
            lemma_fields_frame(st, at, d.fields);
            lemma_variants_frame(fields_of(st, at, d.fields).0, at, d.variants);
        },
        ItemV::Fn(f) => {
            lemma_params_frame(st, at, f.params);
            if let Some(t) = f.ret {
                lemma_type_frame(params_of(st, at, f.params).0, file, t);
            }
        },
    }
}

proof fn lemma_fill_items(st: ResV, file: FileId, def: int, items: Seq<ItemV>, all: Seq<ItemV>)
    requires
        0 <= def,
        def + items.len() <= all.len() <= usize::MAX,
        items == all.subrange(def, def + items.len()),
        defs_match(st.defs, all),
        envs_ok(st),
    ensures
        ({
            let b = fill_items(st, file, def, items);
            &&& defs_match(b.defs, all)
            &&& envs_ok(b)
            &&& b.envs == st.envs
            &&& b.env_index == st.env_index
            &&& b.module_of == st.module_of
        }),
    decreases items.len(),
{
    if items.len() > 0 {
        assert(items.drop_last() =~= all.subrange(def, def + items.len() - 1));
        lemma_fill_items(st, file, def, items.drop_last(), all);
        let s1 = fill_items(st, file, def, items.drop_last());
        let k = def + items.len() - 1;
        assert(all[k] == items.last());
        assert(s1.defs[k].id.raw == k);
        lemma_fill_item(s1, file, k, items.last());
        let b = fill_items(st, file, def, items);
        assert forall|e: int| 0 <= e < b.envs.len() implies
        env_ok(#[trigger] b.envs[e], b.defs) by {
            let env = s1.envs[e];
            assert(env_ok(env, s1.defs));
            assert forall|n: usize| #[trigger]
                env.fns.contains_key(n) implies env.fns[n] < b.defs.len()
                && b.defs[env.fns[n] as int].kind is Function by {
                assert(s1.defs[env.fns[n] as int].kind is Function);
            }
            assert forall|n: usize| #[trigger]
                env.datas.contains_key(n) implies env.datas[n] < b.defs.len()
                && b.defs[env.datas[n] as int].kind is Data by {
                assert(s1.defs[env.datas[n] as int].kind is Data);
            }
        }
        assert forall|k: int| 0 <= k < all.len() implies (#[trigger] b.defs[k]).id.raw == k && (
        b.defs[k].kind is Data) == (all[k] is Data) by {
            assert(s1.defs[k].id.raw == k);
        }
    }
}

proof fn lemma_fill_defs(st: ResV, fs: Seq<WorkspaceFileV>, all: Seq<ItemV>)
    requires
        all_items(fs).len() <= all.len() <= usize::MAX,
        all.take(all_items(fs).len() as int) == all_items(fs),
        defs_match(st.defs, all),
        envs_ok(st),
    ensures
        ({
            let b = fill_defs(st, fs);
            &&& defs_match(b.defs, all)
            &&& envs_ok(b)
            &&& b.envs == st.envs
            &&& b.env_index == st.env_index
            &&& b.module_of == st.module_of
        }),
    decreases fs.len(),
{
    if fs.len() > 0 {
        let head = all_items(fs.drop_last());
        let n = head.len() as int;
        assert(all.take(n) =~= all_items(fs).take(n));
        assert(all_items(fs).take(n) =~= head);
        lemma_fill_defs(st, fs.drop_last(), all);
        lemma_item_count(fs.drop_last(), 0);
        let f = fs.last();
        let s1 = ResV { stamp: Some(f.file), ..fill_defs(st, fs.drop_last()) };
        let items = f.ast.items;
        assert(items =~= all.subrange(n, n + items.len())) by {
            assert forall|j: int| 0 <= j < items.len() implies items[j] == all.subrange(
                n,
                n + items.len(),
            )[j] by {
                assert(all_items(fs)[n + j] == all.take(all_items(fs).len() as int)[n + j]);
            }
        }
        lemma_fill_items(s1, f.file, n, items, all);
    }
}

/// Growing the definitions keeps an environment that speaks of them.
proof fn lemma_env_grows(env: FileEnvV, a: Seq<DefV>, d: DefV)
    requires
        env_ok(env, a),
    ensures
        env_ok(env, a.push(d)),
{
    let b = a.push(d);
    assert forall|n: usize| #[trigger] env.fns.contains_key(n) implies env.fns[n] < b.len()
        && b[env.fns[n] as int].kind is Function by {
        assert(b[env.fns[n] as int] == a[env.fns[n] as int]);
    }
    assert forall|n: usize| #[trigger] env.datas.contains_key(n) implies env.datas[n] < b.len()
        && b[env.datas[n] as int].kind is Data by {
        assert(b[env.datas[n] as int] == a[env.datas[n] as int]);
    }
}

proof fn lemma_add_item(st: ResV, file: FileId, index: int, item: ItemV, all: Seq<ItemV>)
    requires
        defs_match(st.defs, all),
        envs_ok(st),
        all.len() < usize::MAX,
    ensures
        ({
            let b = add_item(st, file, index, item);
            &&& defs_match(b.defs, all.push(item))
            &&& envs_ok(b)
        }),
{
    reveal(add_item);
    let b = add_item(st, file, index, item);
    let d = b.defs.last();
    assert(b.defs =~= st.defs.push(d));
    assert forall|k: int| 0 <= k < all.push(item).len() implies (#[trigger] b.defs[k]).id.raw == k
        && (b.defs[k].kind is Data) == (all.push(item)[k] is Data) by {
        if k < all.len() {
            assert(b.defs[k] == st.defs[k]);
        }
    }
    assert forall|e: int| 0 <= e < b.envs.len() implies env_ok(#[trigger] b.envs[e], b.defs) by {
        lemma_env_grows(st.envs[e], st.defs, d);
        if b.envs[e] != st.envs[e] {
            let env = b.envs[e];
            let was = st.envs[e];
            assert(env_ok(was, b.defs));
            assert forall|n: usize| #[trigger] env.fns.contains_key(n) implies env.fns[n]
                < b.defs.len() && b.defs[env.fns[n] as int].kind is Function by {
                if was.fns.contains_key(n) {}
            }
            assert forall|n: usize| #[trigger] env.datas.contains_key(n) implies env.datas[n]
                < b.defs.len() && b.defs[env.datas[n] as int].kind is Data by {
                if was.datas.contains_key(n) {}
            }
        }
    }
}

proof fn lemma_add_items(st: ResV, file: FileId, items: Seq<ItemV>, all: Seq<ItemV>)
    requires
        defs_match(st.defs, all),
        envs_ok(st),
        all.len() + items.len() <= usize::MAX,
    ensures
        ({
            let b = add_items(st, file, items);
            &&& defs_match(b.defs, all + items)
            &&& envs_ok(b)
        }),
    decreases items.len(),
{
    if items.len() > 0 {
        lemma_add_items(st, file, items.drop_last(), all);
        lemma_add_item(
            add_items(st, file, items.drop_last()),
            file,
            items.len() - 1,
            items.last(),
            all + items.drop_last(),
        );
        assert((all + items.drop_last()).push(items.last()) =~= all + items);
    } else {
        assert(all + items =~= all);
    }
}

proof fn lemma_defs_count(st: ResV, fs: Seq<WorkspaceFileV>)
    ensures
        add_defs(st, fs).defs.len() == st.defs.len() + item_count(fs),
    decreases fs.len(),
{
    if fs.len() > 0 {
        lemma_defs_count(st, fs.drop_last());
        let f = fs.last();
        let s1 = ResV { stamp: Some(f.file), ..add_defs(st, fs.drop_last()) };
        lemma_items_count(s1, f.file, f.ast.items);
    }
}

proof fn lemma_items_count(st: ResV, file: FileId, items: Seq<ItemV>)
    ensures
        add_items(st, file, items).defs.len() == st.defs.len() + items.len(),
    decreases items.len(),
{
    if items.len() > 0 {
        reveal(add_item);
        lemma_items_count(st, file, items.drop_last());
    }
}

proof fn lemma_add_defs(st: ResV, fs: Seq<WorkspaceFileV>)
    requires
        st.defs.len() == 0,
        envs_ok(st),
        all_items(fs).len() <= usize::MAX,
    ensures
        ({
            let b = add_defs(st, fs);
            &&& defs_match(b.defs, all_items(fs))
            &&& envs_ok(b)
        }),
    decreases fs.len(),
{
    if fs.len() > 0 {
        lemma_add_defs(st, fs.drop_last());
        let f = fs.last();
        let s1 = ResV { stamp: Some(f.file), ..add_defs(st, fs.drop_last()) };
        lemma_add_items(s1, f.file, f.ast.items, all_items(fs.drop_last()));
    }
}

proof fn lemma_add_use(st: ResV, file: FileId, u: UseDeclV)
    requires
        envs_ok(st),
    ensures
        envs_ok(add_use(st, file, u)),
        add_use(st, file, u).defs == st.defs,
{
    reveal(add_use);
    let b = add_use(st, file, u);
    assert forall|e: int| 0 <= e < b.envs.len() implies env_ok(#[trigger] b.envs[e], b.defs) by {
        assert(env_ok(st.envs[e], st.defs));
        if b.envs[e] != st.envs[e] {
            let env = b.envs[e];
            let was = st.envs[e];
            assert(env.fns == was.fns && env.datas == was.datas);
            assert forall|n: usize| #[trigger] env.imports.contains_key(n) implies env.imports[n]
                < b.defs.len() by {
                if was.imports.contains_key(n) {}
                lemma_members(st);
            }
        }
    }
}

/// A member that any environment names is a definition.
proof fn lemma_members(st: ResV)
    requires
        envs_ok(st),
    ensures
        forall|file: FileId, n: InternId|
            (#[trigger] crate::hir_lower::member_of(env_at(st, file), n)) is Some
                ==> crate::hir_lower::member_of(env_at(st, file), n)->0 < st.defs.len(),
{
    assert forall|file: FileId, n: InternId|
        (#[trigger] crate::hir_lower::member_of(env_at(st, file), n))
            is Some implies crate::hir_lower::member_of(env_at(st, file), n)->0 < st.defs.len() by {
        if let Some(i) = env_slot(st, file) {
            assert(env_ok(st.envs[i], st.defs));
            assert(st.envs[i].fns.contains_key(n.raw) || !st.envs[i].fns.contains_key(n.raw));
            assert(st.envs[i].datas.contains_key(n.raw) || !st.envs[i].datas.contains_key(n.raw));
        }
    }
}

proof fn lemma_add_uses(st: ResV, file: FileId, us: Seq<UseDeclV>)
    requires
        envs_ok(st),
    ensures
        envs_ok(add_uses(st, file, us)),
        add_uses(st, file, us).defs == st.defs,
    decreases us.len(),
{
    if us.len() > 0 {
        lemma_add_uses(st, file, us.drop_last());
        lemma_add_use(add_uses(st, file, us.drop_last()), file, us.last());
    }
}

proof fn lemma_add_imports(st: ResV, fs: Seq<WorkspaceFileV>)
    requires
        envs_ok(st),
    ensures
        envs_ok(add_imports(st, fs)),
        add_imports(st, fs).defs == st.defs,
    decreases fs.len(),
{
    if fs.len() > 0 {
        lemma_add_imports(st, fs.drop_last());
        let f = fs.last();
        let s1 = ResV { stamp: Some(f.file), ..add_imports(st, fs.drop_last()) };
        lemma_add_uses(s1, f.file, f.ast.uses);
    }
}

pub proof fn lemma_imports_keep_defs(st: ResV, fs: Seq<WorkspaceFileV>)
    ensures
        add_imports(st, fs).defs == st.defs,
    decreases fs.len(),
{
    if fs.len() > 0 {
        lemma_imports_keep_defs(st, fs.drop_last());
        let f = fs.last();
        let s1 = ResV { stamp: Some(f.file), ..add_imports(st, fs.drop_last()) };
        lemma_uses_keep_defs(s1, f.file, f.ast.uses);
    }
}

proof fn lemma_uses_keep_defs(st: ResV, file: FileId, us: Seq<UseDeclV>)
    ensures
        add_uses(st, file, us).defs == st.defs,
    decreases us.len(),
{
    if us.len() > 0 {
        reveal(add_use);
        lemma_uses_keep_defs(st, file, us.drop_last());
    }
}

proof fn lemma_add_files(st: ResV, fs: Seq<WorkspaceFileV>)
    requires
        st.defs.len() == 0,
        envs_ok(st),
    ensures
        add_files(st, fs).defs.len() == 0,
        envs_ok(add_files(st, fs)),
    decreases fs.len(),
{
    if fs.len() > 0 {
        reveal(add_file);
        let s1 = add_files(st, fs.drop_last());
        lemma_add_files(st, fs.drop_last());
        let b = add_files(st, fs);
        assert forall|e: int| 0 <= e < b.envs.len() implies
        env_ok(#[trigger] b.envs[e], b.defs) by {
            if e < s1.envs.len() {
                assert(b.envs[e] == s1.envs[e]);
            }
        }
    }
}

/// What a resolved workspace guarantees the passes behind it: there is
/// one definition per item, in order, under its own position as id and
/// of its item's kind; a name an environment gives to a function stands
/// for a function, one it gives to a `data` for a `data`, and an import
/// for a definition.
pub proof fn law_resolved_scope(
    names: Seq<Seq<char>>,
    diags: Seq<DiagnosticV>,
    stamp: Option<FileId>,
    fs: Seq<WorkspaceFileV>,
)
    requires
        all_items(fs).len() <= usize::MAX,
    ensures
        ({
            let st = resolved(res_start(names, diags, stamp), fs);
            &&& defs_match(st.defs, all_items(fs))
            &&& envs_ok(st)
        }),
{
    let s0 = res_start(names, diags, stamp);
    lemma_add_files(s0, fs);
    let s1 = add_files(s0, fs);
    lemma_add_defs(s1, fs);
    let s2 = add_defs(s1, fs);
    lemma_add_imports(s2, fs);
    let all = all_items(fs);
    assert(all.take(all.len() as int) =~= all);
    lemma_fill_defs(add_imports(s2, fs), fs, all);
}

/// On duplicates the first definition wins: an item whose name its file
/// has already defined changes no environment.
pub proof fn law_first_definition_wins(st: ResV, file: FileId, index: int, item: ItemV)
    requires
        ({
            let n = intern_id(st.names, crate::ast::item_name(item).name).raw;
            env_at(st, file).fns.contains_key(n) || env_at(st, file).datas.contains_key(n)
        }),
    ensures
        add_item(st, file, index, item).envs == st.envs,
        add_item(st, file, index, item).env_index == st.env_index,
        add_item(st, file, index, item).defs.len() == st.defs.len() + 1,
        add_item(st, file, index, item).diags.len() == st.diags.len() + 1,
{
    reveal(add_item);
}

} // verus!
