//! HIR data structures.
//!
//! HIR is the first *semantic* representation: names are resolved to
//! [`SymbolId`]s, definitions to [`DefId`]s, and every expression
//! lives in its owning [`HirBody`]'s arena indexed by [`ExprId`].
//! It is deliberately free of runtime concerns — no evaluation
//! state, no codegen details.
//!
//! Expression nodes and binding symbols are **body-local**: editing
//! one function can never renumber another function's `ExprId`s or
//! `SymbolId`s, which is what makes per-definition incremental
//! caching meaningful. Resolve a symbol id through [`HirBody::symbol`],
//! which dispatches between the body arena and the workspace table.

use crate::ast::{BinOp, Literal, LiteralV, UnOp};
use crate::fxmap::IdMap;
use crate::source::{DefId, ExprId, FileId, InternId, Interner, Span, SymbolId};
use vstd::prelude::*;

verus! {

/// An interned name with its source location.
#[derive(Clone, Copy, Debug, PartialEq, Eq, Structural)]
pub struct Name {
    /// Interned text.
    pub id: InternId,
    /// Source location.
    pub span: Span,
}

/// A resolved type reference.
#[derive(Clone, Copy, Debug, PartialEq, Eq, Hash, Structural)]
pub enum TypeRef {
    /// `bool`
    Bool,
    /// `i8`
    I8,
    /// `i16`
    I16,
    /// `i32`
    I32,
    /// `i64`
    I64,
    /// `isize`
    Isize,
    /// `u8`
    U8,
    /// `u16`
    U16,
    /// `u32`
    U32,
    /// `u64`
    U64,
    /// `usize`
    Usize,
    /// `f32`
    F32,
    /// `f64`
    F64,
    /// `str`
    Str,
    /// `char`
    Char,
    /// `unit` (also the type of a function without `->`).
    Unit,
    /// A user `data` type.
    Struct(DefId),
    /// `[T]` — a homogeneous array. `elem` is flat by construction:
    /// nested arrays are rejected at resolution.
    Array {
        /// The resolved element type.
        elem: ElemRef,
    },
    /// Resolution failed — a diagnostic already exists. Poison values
    /// keep downstream passes running without inventing semantics.
    Poison,
}

/// A resolved array element type — every [`TypeRef`] leaf except
/// `Unit` (arrays of nothing carry nothing), `Array` (nested arrays
/// are not supported yet), and `Poison`.
#[derive(Clone, Copy, Debug, PartialEq, Eq, Hash, Structural)]
pub enum ElemRef {
    /// `bool`
    Bool,
    /// `i8`
    I8,
    /// `i16`
    I16,
    /// `i32`
    I32,
    /// `i64`
    I64,
    /// `isize`
    Isize,
    /// `u8`
    U8,
    /// `u16`
    U16,
    /// `u32`
    U32,
    /// `u64`
    U64,
    /// `usize`
    Usize,
    /// `f32`
    F32,
    /// `f64`
    F64,
    /// `str`
    Str,
    /// `char`
    Char,
    /// A user `data` type.
    Struct(DefId),
}

/// The element type of a leaf type, if it can be one.
pub open spec fn elem_of(ty: TypeRef) -> Option<ElemRef> {
    match ty {
        TypeRef::Bool => Some(ElemRef::Bool),
        TypeRef::I8 => Some(ElemRef::I8),
        TypeRef::I16 => Some(ElemRef::I16),
        TypeRef::I32 => Some(ElemRef::I32),
        TypeRef::I64 => Some(ElemRef::I64),
        TypeRef::Isize => Some(ElemRef::Isize),
        TypeRef::U8 => Some(ElemRef::U8),
        TypeRef::U16 => Some(ElemRef::U16),
        TypeRef::U32 => Some(ElemRef::U32),
        TypeRef::U64 => Some(ElemRef::U64),
        TypeRef::Usize => Some(ElemRef::Usize),
        TypeRef::F32 => Some(ElemRef::F32),
        TypeRef::F64 => Some(ElemRef::F64),
        TypeRef::Str => Some(ElemRef::Str),
        TypeRef::Char => Some(ElemRef::Char),
        TypeRef::Struct(d) => Some(ElemRef::Struct(d)),
        TypeRef::Unit => None,
        TypeRef::Array { .. } => None,
        TypeRef::Poison => None,
    }
}

impl ElemRef {
    /// The element type for a resolved leaf [`TypeRef`], or `None`
    /// when `ty` cannot be an element (`unit`, `[_]`, `Poison`).
    pub fn of(ty: TypeRef) -> (r: Option<ElemRef>)
        ensures
            r == elem_of(ty),
    {
        match ty {
            TypeRef::Bool => Some(ElemRef::Bool),
            TypeRef::I8 => Some(ElemRef::I8),
            TypeRef::I16 => Some(ElemRef::I16),
            TypeRef::I32 => Some(ElemRef::I32),
            TypeRef::I64 => Some(ElemRef::I64),
            TypeRef::Isize => Some(ElemRef::Isize),
            TypeRef::U8 => Some(ElemRef::U8),
            TypeRef::U16 => Some(ElemRef::U16),
            TypeRef::U32 => Some(ElemRef::U32),
            TypeRef::U64 => Some(ElemRef::U64),
            TypeRef::Usize => Some(ElemRef::Usize),
            TypeRef::F32 => Some(ElemRef::F32),
            TypeRef::F64 => Some(ElemRef::F64),
            TypeRef::Str => Some(ElemRef::Str),
            TypeRef::Char => Some(ElemRef::Char),
            TypeRef::Struct(d) => Some(ElemRef::Struct(d)),
            TypeRef::Unit => None,
            TypeRef::Array { .. } => None,
            TypeRef::Poison => None,
        }
    }
}

/// The builtin type a single name stands for in a body.
pub open spec fn builtin(name: Seq<char>) -> Option<TypeRef> {
    if name == "bool"@ {
        Some(TypeRef::Bool)
    } else if name == "i8"@ {
        Some(TypeRef::I8)
    } else if name == "i16"@ {
        Some(TypeRef::I16)
    } else if name == "i32"@ {
        Some(TypeRef::I32)
    } else if name == "i64"@ {
        Some(TypeRef::I64)
    } else if name == "isize"@ {
        Some(TypeRef::Isize)
    } else if name == "u8"@ {
        Some(TypeRef::U8)
    } else if name == "u16"@ {
        Some(TypeRef::U16)
    } else if name == "u32"@ {
        Some(TypeRef::U32)
    } else if name == "u64"@ {
        Some(TypeRef::U64)
    } else if name == "usize"@ {
        Some(TypeRef::Usize)
    } else if name == "f32"@ {
        Some(TypeRef::F32)
    } else if name == "f64"@ {
        Some(TypeRef::F64)
    } else if name == "str"@ {
        Some(TypeRef::Str)
    } else if name == "char"@ {
        Some(TypeRef::Char)
    } else if name == "unit"@ {
        Some(TypeRef::Unit)
    } else {
        None
    }
}

/// The builtin type a single name stands for in a body.
pub fn builtin_type(name: &str) -> (r: Option<TypeRef>)
    ensures
        r == builtin(name@),
{
    if crate::text::same(name, "bool") {
        Some(TypeRef::Bool)
    } else if crate::text::same(name, "i8") {
        Some(TypeRef::I8)
    } else if crate::text::same(name, "i16") {
        Some(TypeRef::I16)
    } else if crate::text::same(name, "i32") {
        Some(TypeRef::I32)
    } else if crate::text::same(name, "i64") {
        Some(TypeRef::I64)
    } else if crate::text::same(name, "isize") {
        Some(TypeRef::Isize)
    } else if crate::text::same(name, "u8") {
        Some(TypeRef::U8)
    } else if crate::text::same(name, "u16") {
        Some(TypeRef::U16)
    } else if crate::text::same(name, "u32") {
        Some(TypeRef::U32)
    } else if crate::text::same(name, "u64") {
        Some(TypeRef::U64)
    } else if crate::text::same(name, "usize") {
        Some(TypeRef::Usize)
    } else if crate::text::same(name, "f32") {
        Some(TypeRef::F32)
    } else if crate::text::same(name, "f64") {
        Some(TypeRef::F64)
    } else if crate::text::same(name, "str") {
        Some(TypeRef::Str)
    } else if crate::text::same(name, "char") {
        Some(TypeRef::Char)
    } else if crate::text::same(name, "unit") {
        Some(TypeRef::Unit)
    } else {
        None
    }
}

/// The builtin type a single name stands for in a signature. Bodies know
/// more of them, see [`builtin`].
pub open spec fn signature_builtin(name: Seq<char>) -> Option<TypeRef> {
    if name == "bool"@ {
        Some(TypeRef::Bool)
    } else if name == "i32"@ {
        Some(TypeRef::I32)
    } else if name == "i64"@ {
        Some(TypeRef::I64)
    } else if name == "u32"@ {
        Some(TypeRef::U32)
    } else if name == "u64"@ {
        Some(TypeRef::U64)
    } else if name == "f32"@ {
        Some(TypeRef::F32)
    } else if name == "f64"@ {
        Some(TypeRef::F64)
    } else if name == "str"@ {
        Some(TypeRef::Str)
    } else if name == "unit"@ {
        Some(TypeRef::Unit)
    } else {
        None
    }
}

/// The builtin type a single name stands for in a signature.
pub fn signature_type(name: &str) -> (r: Option<TypeRef>)
    ensures
        r == signature_builtin(name@),
{
    if crate::text::same(name, "bool") {
        Some(TypeRef::Bool)
    } else if crate::text::same(name, "i32") {
        Some(TypeRef::I32)
    } else if crate::text::same(name, "i64") {
        Some(TypeRef::I64)
    } else if crate::text::same(name, "u32") {
        Some(TypeRef::U32)
    } else if crate::text::same(name, "u64") {
        Some(TypeRef::U64)
    } else if crate::text::same(name, "f32") {
        Some(TypeRef::F32)
    } else if crate::text::same(name, "f64") {
        Some(TypeRef::F64)
    } else if crate::text::same(name, "str") {
        Some(TypeRef::Str)
    } else if crate::text::same(name, "unit") {
        Some(TypeRef::Unit)
    } else {
        None
    }
}

/// The kind of a symbol in the module symbol table or a body arena.
#[derive(Clone, Copy, Debug, PartialEq, Eq, Structural)]
pub enum SymbolKind {
    /// A `fn` definition.
    Function,
    /// A `data` definition.
    Data,
    /// A field of a `data` definition.
    Field,
    /// A variant of an enum `data` definition.
    Variant,
    /// A function parameter.
    Param,
    /// A `let` binding.
    Local,
}

/// One entry in a symbol table (module-level or body-local).
#[derive(Clone, Copy, Debug, PartialEq, Eq, Structural)]
pub struct Symbol {
    /// This symbol's own ID (redundant with its table index).
    pub id: SymbolId,
    /// Interned name.
    pub name: InternId,
    /// What kind of entity this is.
    pub kind: SymbolKind,
    /// Whether the binding was declared `mut` (locals/params only —
    /// `false` for defs and fields).
    pub mutable: bool,
    /// Owning definition for params, locals, fields, and variants.
    pub owner: Option<DefId>,
    /// Declaration site.
    pub span: Span,
}

/// The module-wide symbol table, indexed by [`SymbolId`]. Holds only
/// *module-level* symbols: defs, `data` fields, and variants. Params
/// and locals live in their owning [`HirBody`].
#[derive(Debug)]
pub struct SymbolTable {
    symbols: Vec<Symbol>,
}

/// The table after `symbol` was pushed: it gets its position as id.
pub open spec fn pushed_symbol(table: Seq<Symbol>, symbol: Symbol) -> Seq<Symbol> {
    table.push(Symbol { id: SymbolId::Module(table.len() as usize), ..symbol })
}

impl SymbolTable {
    /// The symbols in allocation order.
    pub closed spec fn view(&self) -> Seq<Symbol> {
        self.symbols@
    }

    /// An empty table.
    pub fn new() -> (r: SymbolTable)
        ensures
            r@ == Seq::<Symbol>::empty(),
    {
        SymbolTable { symbols: Vec::new() }
    }

    /// Allocates a new symbol entry.
    pub fn push(&mut self, symbol: Symbol) -> (r: SymbolId)
        ensures
            final(self)@ == pushed_symbol(old(self)@, symbol),
            r == SymbolId::Module(old(self)@.len() as usize),
    {
        let id = SymbolId::Module(self.symbols.len());
        let mut s = symbol;
        s.id = id;
        self.symbols.push(s);
        id
    }

    /// Looks up a module-level symbol by ID. Body-local ids are looked
    /// up through [`HirBody::symbol`].
    pub fn get(&self, id: SymbolId) -> (r: &Symbol)
        requires
            id matches SymbolId::Module(i) && i < self@.len(),
        ensures
            *r == self@[id->Module_0 as int],
    {
        match id {
            SymbolId::Module(i) => &self.symbols[i],
            SymbolId::Local(i) => &self.symbols[i],
        }
    }

    /// All symbols in allocation order.
    pub fn iter(&self) -> (r: &Vec<Symbol>)
        ensures
            r@ == self@,
    {
        &self.symbols
    }

    /// Number of symbols.
    pub fn len(&self) -> (r: usize)
        ensures
            r == self@.len(),
    {
        self.symbols.len()
    }

    /// Whether the table is empty.
    pub fn is_empty(&self) -> (r: bool)
        ensures
            r == (self@.len() == 0),
    {
        self.symbols.len() == 0
    }
}

/// A top-level definition (function or data).
pub struct Def {
    /// This def's ID — dense over the whole workspace, so a def in a
    /// dependency file can be referenced directly by `Call`/`StructLit`.
    pub id: DefId,
    /// The file that declares this def.
    pub file: FileId,
    /// Index of the def's item within `file`'s `AstModule.items` —
    /// locates the item's absolute start (the rebase base) without a
    /// name lookup.
    pub item: usize,
    /// Symbol carrying the def's name.
    pub name: SymbolId,
    /// Kind-specific payload.
    pub kind: DefKind,
    /// Declaration span.
    pub span: Span,
}

/// Model of [`Def`].
#[verifier::ext_equal]
pub struct DefV {
    pub id: DefId,
    pub file: FileId,
    pub item: usize,
    pub name: SymbolId,
    pub kind: DefKindV,
    pub span: Span,
}

impl Def {
    /// The model of this def.
    pub open spec fn view(&self) -> DefV {
        DefV {
            id: self.id,
            file: self.file,
            item: self.item,
            name: self.name,
            kind: self.kind@,
            span: self.span,
        }
    }
}

/// The models of a sequence of defs.
pub open spec fn defs_view(v: Seq<Def>) -> Seq<DefV> {
    Seq::new(v.len(), |i: int| v[i]@)
}

/// Definition payload.
pub enum DefKind {
    /// A function with its signature.
    Function(FnSig),
    /// A `data` shape.
    Data(DataShape),
}

/// Model of [`DefKind`].
#[verifier::ext_equal]
pub enum DefKindV {
    Function(FnSigV),
    Data(DataShapeV),
}

impl DefKind {
    /// The model of this payload.
    pub open spec fn view(&self) -> DefKindV {
        match self {
            DefKind::Function(s) => DefKindV::Function(s@),
            DefKind::Data(s) => DefKindV::Data(s@),
        }
    }
}

/// A function signature: parameter symbols and resolved types.
pub struct FnSig {
    /// Parameter symbols in order. `params[i].symbol` is the
    /// body-local id `SymbolId::local(i)` — the param's `Symbol`
    /// record lives in `body.local_symbols[i]` once the body is
    /// lowered.
    pub params: Vec<ParamDef>,
    /// Resolved return type (`Unit` when no `->` was written).
    pub ret: TypeRef,
}

/// Model of [`FnSig`].
#[verifier::ext_equal]
pub struct FnSigV {
    pub params: Seq<ParamDef>,
    pub ret: TypeRef,
}

impl FnSig {
    /// The model of this signature.
    pub open spec fn view(&self) -> FnSigV {
        FnSigV { params: self.params@, ret: self.ret }
    }
}

/// A parameter: symbol plus resolved type.
#[derive(Clone, Copy, Debug, PartialEq, Eq, Structural)]
pub struct ParamDef {
    /// The parameter's body-local symbol id (`SymbolId::local(i)`).
    pub symbol: SymbolId,
    /// Interned parameter name (kept here so signatures — and tools
    /// explaining them — don't need the body to be lowered).
    pub name: InternId,
    /// Whether the parameter was declared `mut`.
    pub mutable: bool,
    /// Resolved parameter type.
    pub ty: TypeRef,
    /// Source span of the parameter.
    pub span: Span,
}

/// A `data` definition's shape — either a record (`fields`) or an
/// enum (`variants`); the parser reports mixing, so at most one is
/// populated for valid source.
pub struct DataShape {
    /// Fields in declaration order (index = field position).
    pub fields: Vec<FieldDef>,
    /// Field name → position index.
    pub field_index: IdMap,
    /// Variants in declaration order (index = discriminant).
    pub variants: Vec<VariantDef>,
    /// Variant name → discriminant index.
    pub variant_index: IdMap,
}

/// Model of [`DataShape`].
#[verifier::ext_equal]
pub struct DataShapeV {
    pub fields: Seq<FieldDef>,
    pub field_index: Map<usize, usize>,
    pub variants: Seq<VariantDefV>,
    pub variant_index: Map<usize, usize>,
}

/// Whether a shape is an enum.
pub open spec fn is_enum_shape(s: DataShapeV) -> bool {
    s.variants.len() > 0
}

/// The stable name of a shape.
pub open spec fn shape_text(s: DataShapeV) -> Seq<char> {
    if is_enum_shape(s) {
        "enum"@
    } else {
        "record"@
    }
}

impl DataShape {
    /// The model of this shape.
    pub open spec fn view(&self) -> DataShapeV {
        DataShapeV {
            fields: self.fields@,
            field_index: self.field_index@,
            variants: variant_defs(self.variants@),
            variant_index: self.variant_index@,
        }
    }

    /// Whether this `data` is an enum (has variants) rather than a
    /// record (has fields).
    pub fn is_enum(&self) -> (r: bool)
        ensures
            r == is_enum_shape(self@),
    {
        self.variants.len() > 0
    }

    /// `"enum"` or `"record"` — the shape's stable name for
    /// diagnostics and graph attrs.
    pub fn shape_name(&self) -> (r: &'static str)
        ensures
            r@ == shape_text(self@),
    {
        if self.is_enum() {
            "enum"
        } else {
            "record"
        }
    }
}

/// A variant of an enum `data` definition.
pub struct VariantDef {
    /// The variant's symbol (module-level, owned by the data def).
    pub symbol: SymbolId,
    /// Resolved payload element types in order.
    pub payload: Vec<TypeRef>,
    /// Discriminant index (declaration order).
    pub index: usize,
}

/// Model of [`VariantDef`].
#[verifier::ext_equal]
pub struct VariantDefV {
    pub symbol: SymbolId,
    pub payload: Seq<TypeRef>,
    pub index: usize,
}

impl VariantDef {
    /// The model of this variant.
    pub open spec fn view(&self) -> VariantDefV {
        VariantDefV { symbol: self.symbol, payload: self.payload@, index: self.index }
    }
}

/// The models of a sequence of variants.
pub open spec fn variant_defs(v: Seq<VariantDef>) -> Seq<VariantDefV> {
    Seq::new(v.len(), |i: int| v[i]@)
}

/// A field of a `data` definition.
#[derive(Clone, Copy, Debug, PartialEq, Eq, Structural)]
pub struct FieldDef {
    /// The field's symbol (module-level).
    pub symbol: SymbolId,
    /// Resolved field type.
    pub ty: TypeRef,
    /// Field position index.
    pub index: usize,
}

/// One file's name environment within the workspace: what its
/// top-level names and `use` declarations bring into scope.
///
/// `fns`/`datas` hold only *this file's own* defs (one namespace — a
/// name may be defined once per file). `modules` binds module names
/// (`use m;`) and `imports` binds member aliases (`use m::x as y;`).
/// Bare names resolve through `fns`/`datas` then `imports`;
/// `m::x` paths resolve through `modules` then the target's env.
pub struct FileEnv {
    /// Function name → `DefId`.
    pub fns: IdMap,
    /// Data name → `DefId`.
    pub datas: IdMap,
    /// Module name → the file that provides it (`use m;`).
    pub modules: IdMap,
    /// Bound name → the imported def (`use m::x [as y];`).
    pub imports: IdMap,
}

/// Model of [`FileEnv`].
#[verifier::ext_equal]
pub struct FileEnvV {
    pub fns: Map<usize, usize>,
    pub datas: Map<usize, usize>,
    pub modules: Map<usize, usize>,
    pub imports: Map<usize, usize>,
}

/// An environment that binds nothing.
pub open spec fn empty_env() -> FileEnvV {
    FileEnvV { fns: Map::empty(), datas: Map::empty(), modules: Map::empty(), imports: Map::empty() }
}

impl FileEnv {
    /// The model of this environment.
    pub open spec fn view(&self) -> FileEnvV {
        FileEnvV {
            fns: self.fns@,
            datas: self.datas@,
            modules: self.modules@,
            imports: self.imports@,
        }
    }

    /// An environment that binds nothing.
    pub fn new() -> (r: FileEnv)
        ensures
            r@ == empty_env(),
    {
        FileEnv {
            fns: IdMap::new(),
            datas: IdMap::new(),
            modules: IdMap::new(),
            imports: IdMap::new(),
        }
    }
}

/// The models of a sequence of environments.
pub open spec fn envs_view(v: Seq<FileEnv>) -> Seq<FileEnvV> {
    Seq::new(v.len(), |i: int| v[i]@)
}

/// The workspace scope produced by name resolution: every definition
/// in every reachable file, plus each file's name environment.
/// Defs are globally indexed (`DefId` spans the whole workspace) so a
/// call in one module can reference a callee in another directly.
pub struct ModuleScope {
    /// The workspace root file — the entry the scope was built around.
    pub root: FileId,
    /// Top-level definitions across all reachable files, indexed by
    /// `DefId`. Order is deterministic: files in discovery order
    /// (`files`), items in source order within each file.
    pub defs: Vec<Def>,
    /// Module-level symbol table (defs, `data` fields, and variants;
    /// params and locals are body-local).
    pub symbols: SymbolTable,
    /// Per-file name environments, in order of `files`.
    pub envs: Vec<FileEnv>,
    /// File → its position in `envs`.
    pub env_index: IdMap,
    /// Reachable files in discovery order — the root first.
    pub files: Vec<FileId>,
    /// Module name (file stem) per reachable file.
    pub file_names: IdMap,
}

/// Model of [`ModuleScope`].
#[verifier::ext_equal]
pub struct ModuleScopeV {
    pub root: FileId,
    pub defs: Seq<DefV>,
    pub symbols: Seq<Symbol>,
    pub envs: Seq<FileEnvV>,
    pub env_index: Map<usize, usize>,
    pub files: Seq<FileId>,
    pub file_names: Map<usize, usize>,
}

/// The name environment of `file`, if it is part of the workspace.
pub open spec fn env_of(s: ModuleScopeV, file: FileId) -> Option<FileEnvV> {
    match crate::fxmap::entry(s.env_index, file.raw) {
        Some(i) => if i < s.envs.len() {
            Some(s.envs[i as int])
        } else {
            None
        },
        None => None,
    }
}

/// The signature of a def, when it is a function.
pub open spec fn sig_of(s: ModuleScopeV, id: DefId) -> Option<FnSigV> {
    if id.raw < s.defs.len() {
        match s.defs[id.raw as int].kind {
            DefKindV::Function(sig) => Some(sig),
            DefKindV::Data(_) => None,
        }
    } else {
        None
    }
}

/// The shape of a def, when it is a `data` definition.
pub open spec fn shape_of(s: ModuleScopeV, id: DefId) -> Option<DataShapeV> {
    if id.raw < s.defs.len() {
        match s.defs[id.raw as int].kind {
            DefKindV::Function(_) => None,
            DefKindV::Data(shape) => Some(shape),
        }
    } else {
        None
    }
}

/// The module name a file provides.
pub open spec fn file_name_of(s: ModuleScopeV, file: FileId) -> Option<InternId> {
    match crate::fxmap::entry(s.file_names, file.raw) {
        Some(n) => Some(InternId { raw: n }),
        None => None,
    }
}

/// The interned name of a def.
pub open spec fn def_intern(s: ModuleScopeV, id: DefId) -> Option<InternId> {
    if id.raw < s.defs.len() {
        match s.defs[id.raw as int].name {
            SymbolId::Module(i) => if i < s.symbols.len() {
                Some(s.symbols[i as int].name)
            } else {
                None
            },
            SymbolId::Local(_) => None,
        }
    } else {
        None
    }
}

/// The name of a def as text, `?` when it cannot be resolved.
pub open spec fn def_text(s: ModuleScopeV, names: Seq<Seq<char>>, id: DefId) -> Seq<char> {
    match def_intern(s, id) {
        Some(n) => crate::source::name_of(names, n),
        None => "?"@,
    }
}

impl ModuleScope {
    /// The model of this scope.
    pub open spec fn view(&self) -> ModuleScopeV {
        ModuleScopeV {
            root: self.root,
            defs: defs_view(self.defs@),
            symbols: self.symbols@,
            envs: envs_view(self.envs@),
            env_index: self.env_index@,
            files: self.files@,
            file_names: self.file_names@,
        }
    }

    /// Looks up a def by ID.
    pub fn def(&self, id: DefId) -> (r: &Def)
        requires
            id.raw < self@.defs.len(),
        ensures
            r@ == self@.defs[id.raw as int],
    {
        &self.defs[id.raw]
    }

    /// The name environment of `file` (`None` when the file is not
    /// part of this workspace).
    pub fn env(&self, file: FileId) -> (r: Option<&FileEnv>)
        ensures
            (match r {
                Some(e) => Some(e@),
                None => None,
            }) == env_of(self@, file),
    {
        match self.env_index.get(file.raw) {
            Some(i) => if i < self.envs.len() {
                Some(&self.envs[i])
            } else {
                None
            },
            None => None,
        }
    }

    /// The root file's name environment — where unqualified lookups
    /// in workspace-level entry points resolve.
    pub fn root_env(&self) -> (r: &FileEnv)
        requires
            env_of(self@, self@.root) is Some,
        ensures
            env_of(self@, self@.root) == Some(r@),
    {
        self.env(self.root).unwrap()
    }

    /// The module name a file provides (its stem).
    pub fn file_name(&self, file: FileId) -> (r: Option<InternId>)
        ensures
            r == file_name_of(self@, file),
    {
        match self.file_names.get(file.raw) {
            Some(n) => Some(InternId { raw: n }),
            None => None,
        }
    }

    /// Function signature of a def, when it is a function.
    pub fn fn_sig(&self, id: DefId) -> (r: Option<&FnSig>)
        ensures
            (match r {
                Some(s) => Some(s@),
                None => None,
            }) == sig_of(self@, id),
    {
        if id.raw < self.defs.len() {
            match &self.defs[id.raw].kind {
                DefKind::Function(sig) => Some(sig),
                DefKind::Data(_) => None,
            }
        } else {
            None
        }
    }

    /// Data shape of a def, when it is a `data` definition.
    pub fn data_shape(&self, id: DefId) -> (r: Option<&DataShape>)
        ensures
            (match r {
                Some(s) => Some(s@),
                None => None,
            }) == shape_of(self@, id),
    {
        if id.raw < self.defs.len() {
            match &self.defs[id.raw].kind {
                DefKind::Function(_) => None,
                DefKind::Data(shape) => Some(shape),
            }
        } else {
            None
        }
    }

    /// The interned name of a def.
    pub fn def_name(&self, id: DefId) -> (r: Option<InternId>)
        ensures
            r == def_intern(self@, id),
    {
        if id.raw < self.defs.len() {
            match self.defs[id.raw].name {
                SymbolId::Module(i) => if i < self.symbols.len() {
                    Some(self.symbols.get(SymbolId::Module(i)).name)
                } else {
                    None
                },
                SymbolId::Local(_) => None,
            }
        } else {
            None
        }
    }

    /// The name of a def as text.
    pub fn def_display<'a>(&self, interner: &'a Interner, id: DefId) -> (r: &'a str)
        ensures
            r@ == def_text(self@, interner@, id),
    {
        match self.def_name(id) {
            Some(n) => interner.name_or_unknown(n),
            None => "?",
        }
    }

    /// The stable query key of a def in this workspace —
    /// `(root, file, name)`. Per-definition query results are only
    /// valid within the scope that produced them (`DefId`s are
    /// scope-relative), so the root belongs to the key.
    pub fn def_key(&self, id: DefId) -> (r: DefKey)
        requires
            def_intern(self@, id) is Some,
        ensures
            r == def_key_of(self@, id),
    {
        DefKey { root: self.root, file: self.defs[id.raw].file, name: self.def_name(id).unwrap() }
    }
}

/// The identity of a definition across edits: the workspace it is seen
/// from, the file that declares it, and its name.
#[derive(Clone, Copy, Debug, PartialEq, Eq, Hash, Structural)]
pub struct DefKey {
    /// The workspace root.
    pub root: FileId,
    /// The declaring file.
    pub file: FileId,
    /// The interned name.
    pub name: InternId,
}

/// The query key of a def.
pub open spec fn def_key_of(s: ModuleScopeV, id: DefId) -> DefKey {
    DefKey { root: s.root, file: s.defs[id.raw as int].file, name: def_intern(s, id)->0 }
}

/// A lowered function body — its own expression arena and its own
/// symbol arena (params followed by `let` bindings).
#[derive(Debug)]
pub struct HirBody {
    /// The function this body belongs to.
    pub def: DefId,
    /// Root expression — always a `Block`.
    pub root: ExprId,
    /// Body-local expression arena, indexed by `ExprId`.
    pub exprs: Vec<HirExpr>,
    /// Body-local symbol arena: `local_symbols[i]` has id
    /// `SymbolId::local(i)`. Params occupy `0..n_params`, in the same
    /// order as the signature; `let` bindings follow in source order.
    pub local_symbols: Vec<Symbol>,
}

/// Model of [`HirBody`].
#[verifier::ext_equal]
pub struct HirBodyV {
    pub def: DefId,
    pub root: ExprId,
    pub exprs: Seq<HirExprV>,
    pub local_symbols: Seq<Symbol>,
}

/// The models of a sequence of expression nodes.
pub open spec fn hir_exprs(v: Seq<HirExpr>) -> Seq<HirExprV> {
    Seq::new(v.len(), |i: int| v[i]@)
}

/// The symbol behind an id, seen from a body.
pub open spec fn symbol_of(b: HirBodyV, s: ModuleScopeV, id: SymbolId) -> Option<Symbol> {
    match id {
        SymbolId::Local(i) => if i < b.local_symbols.len() {
            Some(b.local_symbols[i as int])
        } else {
            None
        },
        SymbolId::Module(i) => if i < s.symbols.len() {
            Some(s.symbols[i as int])
        } else {
            None
        },
    }
}

/// The ids of the `let` bindings among symbols.
pub open spec fn local_ids_of(syms: Seq<Symbol>) -> Seq<SymbolId>
    decreases syms.len(),
{
    if syms.len() == 0 {
        Seq::empty()
    } else if syms.last().kind == SymbolKind::Local {
        local_ids_of(syms.drop_last()).push(syms.last().id)
    } else {
        local_ids_of(syms.drop_last())
    }
}

impl HirBody {
    /// The model of this body.
    pub open spec fn view(&self) -> HirBodyV {
        HirBodyV {
            def: self.def,
            root: self.root,
            exprs: hir_exprs(self.exprs@),
            local_symbols: self.local_symbols@,
        }
    }

    /// Looks up an expression in this body's arena.
    pub fn expr(&self, id: ExprId) -> (r: &HirExpr)
        requires
            id.raw < self@.exprs.len(),
        ensures
            r@ == self@.exprs[id.raw as int],
    {
        &self.exprs[id.raw]
    }

    /// Resolves any [`SymbolId`] reachable from this body: body-local
    /// ids (params, `let` bindings) index [`Self::local_symbols`];
    /// module-level ids index `scope.symbols`.
    pub fn symbol<'a>(&'a self, scope: &'a ModuleScope, id: SymbolId) -> (r: &'a Symbol)
        requires
            symbol_of(self@, scope@, id) is Some,
        ensures
            symbol_of(self@, scope@, id) == Some(*r),
    {
        match id {
            SymbolId::Local(i) => &self.local_symbols[i],
            SymbolId::Module(_) => scope.symbols.get(id),
        }
    }

    /// The ids of the `let` bindings (skips params).
    pub fn local_ids(&self) -> (r: Vec<SymbolId>)
        ensures
            r@ == local_ids_of(self@.local_symbols),
    {
        let mut out: Vec<SymbolId> = Vec::new();
        let mut i: usize = 0;
        proof {
            assert(self.local_symbols@.take(0) =~= Seq::empty());
        }
        while i < self.local_symbols.len()
            invariant
                i <= self.local_symbols@.len(),
                out@ == local_ids_of(self.local_symbols@.take(i as int)),
            decreases self.local_symbols@.len() - i,
        {
            proof {
                assert(self.local_symbols@.take(i + 1).drop_last()
                    =~= self.local_symbols@.take(i as int));
            }
            if self.local_symbols[i].kind == SymbolKind::Local {
                out.push(self.local_symbols[i].id);
            }
            i += 1;
        }
        proof {
            assert(self.local_symbols@.take(self.local_symbols@.len() as int)
                =~= self.local_symbols@);
        }
        out
    }
}

/// An expression node in a body arena.
#[derive(Debug)]
pub struct HirExpr {
    /// This expression's arena ID.
    pub id: ExprId,
    /// Node payload.
    pub kind: HirExprKind,
    /// Source span.
    pub span: Span,
}

/// Model of [`HirExpr`].
#[verifier::ext_equal]
pub struct HirExprV {
    pub id: ExprId,
    pub kind: HirExprKindV,
    pub span: Span,
}

impl HirExpr {
    /// The model of this node.
    pub open spec fn view(&self) -> HirExprV {
        HirExprV { id: self.id, kind: self.kind@, span: self.span }
    }
}

/// Expression payload.
#[allow(inconsistent_fields)]
#[derive(Debug)]
pub enum HirExprKind {
    /// A literal.
    Literal(Literal),
    /// Reference to a binding (param or local).
    Var(SymbolId),
    /// Direct function call.
    Call { def: DefId, args: Vec<ExprId> },
    /// Field access (`base.name`). `field` is resolved by type checking.
    Field { base: ExprId, name: Name, field: Option<usize> },
    /// `base.len` on a `str` or `[T]` — a built-in read-only
    /// property. The type checker rewrites a `Field` node into this
    /// kind so downstream passes never mistake it for a data
    /// projection.
    Len { base: ExprId },
    /// Indexing (`base[index]`); for `str` the index is a character
    /// position and the result is a one-character `str`; for `[T]`
    /// it is an element position and the result is a `T`.
    Index { base: ExprId, index: ExprId },
    /// Slicing (`base[lo..hi]`); either bound may be absent. For
    /// `str` the result is a `str`; for `[T]` a fresh `[T]`.
    Slice { base: ExprId, lo: Option<ExprId>, hi: Option<ExprId> },
    /// `[e, ...]` — a homogeneous array literal.
    ArrayLit { elems: Vec<ExprId> },
    /// `lo..hi` — an integer range; either bound may be absent.
    /// Valid only as a `for` iterable — the checker diagnoses every
    /// other position.
    Range { lo: Option<ExprId>, hi: Option<ExprId> },
    /// `for x in e { .. }` — iterates `e` (an array or a `Range`),
    /// binding each element to `var` fresh per iteration. `var` is a
    /// body-local `Local` symbol, assignable iff written `for mut x`.
    /// Always `unit`-typed.
    For { var: SymbolId, iter: ExprId, body: ExprId },
    /// Infix operation.
    Binary { op: BinOp, lhs: ExprId, rhs: ExprId },
    /// Prefix operation.
    Unary { op: UnOp, expr: ExprId },
    /// `if` with optional else (else is a block or chained if).
    If { cond: ExprId, then_: ExprId, else_: Option<ExprId> },
    /// A block: statements plus optional tail expression.
    Block { stmts: Vec<HirStmt>, tail: Option<ExprId> },
    /// `Name { f: v, ... }` — `(field name, value)` pairs in written
    /// order.
    StructLit { def: DefId, fields: Vec<(Name, ExprId)> },
    /// `T::V(args)` — a variant constructor. `args` may be empty for a
    /// bare `T::V` path; arity is validated by type checking.
    VariantLit { def: DefId, variant: usize, args: Vec<ExprId> },
    /// `match e { pat => v, .. }` — selection over `data` variants.
    Match { scrutinee: ExprId, arms: Vec<HirArm> },
    /// Poisoned expression — an upstream diagnostic already exists.
    Poison,
}

/// Model of [`HirExprKind`].
#[allow(inconsistent_fields)]
#[verifier::ext_equal]
pub enum HirExprKindV {
    Literal(LiteralV),
    Var(SymbolId),
    Call { def: DefId, args: Seq<ExprId> },
    Field { base: ExprId, name: Name, field: Option<usize> },
    Len { base: ExprId },
    Index { base: ExprId, index: ExprId },
    Slice { base: ExprId, lo: Option<ExprId>, hi: Option<ExprId> },
    ArrayLit { elems: Seq<ExprId> },
    Range { lo: Option<ExprId>, hi: Option<ExprId> },
    For { var: SymbolId, iter: ExprId, body: ExprId },
    Binary { op: BinOp, lhs: ExprId, rhs: ExprId },
    Unary { op: UnOp, expr: ExprId },
    If { cond: ExprId, then_: ExprId, else_: Option<ExprId> },
    Block { stmts: Seq<HirStmtV>, tail: Option<ExprId> },
    StructLit { def: DefId, fields: Seq<(Name, ExprId)> },
    VariantLit { def: DefId, variant: usize, args: Seq<ExprId> },
    Match { scrutinee: ExprId, arms: Seq<HirArmV> },
    Poison,
}

impl HirExprKind {
    /// The model of this payload.
    pub open spec fn view(&self) -> HirExprKindV {
        match self {
            HirExprKind::Literal(l) => HirExprKindV::Literal(l@),
            HirExprKind::Var(s) => HirExprKindV::Var(*s),
            HirExprKind::Call { def, args } => HirExprKindV::Call { def: *def, args: args@ },
            HirExprKind::Field { base, name, field } => HirExprKindV::Field {
                base: *base,
                name: *name,
                field: *field,
            },
            HirExprKind::Len { base } => HirExprKindV::Len { base: *base },
            HirExprKind::Index { base, index } => HirExprKindV::Index {
                base: *base,
                index: *index,
            },
            HirExprKind::Slice { base, lo, hi } => HirExprKindV::Slice {
                base: *base,
                lo: *lo,
                hi: *hi,
            },
            HirExprKind::ArrayLit { elems } => HirExprKindV::ArrayLit { elems: elems@ },
            HirExprKind::Range { lo, hi } => HirExprKindV::Range { lo: *lo, hi: *hi },
            HirExprKind::For { var, iter, body } => HirExprKindV::For {
                var: *var,
                iter: *iter,
                body: *body,
            },
            HirExprKind::Binary { op, lhs, rhs } => HirExprKindV::Binary {
                op: *op,
                lhs: *lhs,
                rhs: *rhs,
            },
            HirExprKind::Unary { op, expr } => HirExprKindV::Unary { op: *op, expr: *expr },
            HirExprKind::If { cond, then_, else_ } => HirExprKindV::If {
                cond: *cond,
                then_: *then_,
                else_: *else_,
            },
            HirExprKind::Block { stmts, tail } => HirExprKindV::Block {
                stmts: hir_stmts(stmts@),
                tail: *tail,
            },
            HirExprKind::StructLit { def, fields } => HirExprKindV::StructLit {
                def: *def,
                fields: fields@,
            },
            HirExprKind::VariantLit { def, variant, args } => HirExprKindV::VariantLit {
                def: *def,
                variant: *variant,
                args: args@,
            },
            HirExprKind::Match { scrutinee, arms } => HirExprKindV::Match {
                scrutinee: *scrutinee,
                arms: hir_arms(arms@),
            },
            HirExprKind::Poison => HirExprKindV::Poison,
        }
    }
}

/// One `pat => expr` arm of a [`HirExprKind::Match`]. `span` covers
/// the whole arm.
#[derive(Debug)]
pub struct HirArm {
    /// The resolved pattern.
    pub pat: HirPat,
    /// The arm's value expression.
    pub body: ExprId,
    /// Arm span (`pat => expr`).
    pub span: Span,
}

/// Model of [`HirArm`].
#[verifier::ext_equal]
pub struct HirArmV {
    pub pat: HirPatV,
    pub body: ExprId,
    pub span: Span,
}

impl HirArm {
    /// The model of this arm.
    pub open spec fn view(&self) -> HirArmV {
        HirArmV { pat: self.pat@, body: self.body, span: self.span }
    }
}

/// The models of a sequence of arms.
pub open spec fn hir_arms(v: Seq<HirArm>) -> Seq<HirArmV> {
    Seq::new(v.len(), |i: int| v[i]@)
}

/// A resolved match pattern.
#[derive(Debug)]
pub enum HirPat {
    /// `T::V(b0, ..)` / `m::T::V(..)` — matches discriminant `variant`
    /// of `def`. `binds[i]` is the payload-`i` binding (`None` = `_`).
    Variant { def: DefId, variant: usize, binds: Vec<Option<SymbolId>>, span: Span },
    /// `x` binds the whole scrutinee (`Some`); `_` ignores it (`None`).
    Bind { sym: Option<SymbolId>, span: Span },
    /// Resolution failed upstream — a diagnostic already exists.
    Poison,
}

/// Model of [`HirPat`].
#[verifier::ext_equal]
pub enum HirPatV {
    Variant { def: DefId, variant: usize, binds: Seq<Option<SymbolId>>, span: Span },
    Bind { sym: Option<SymbolId>, span: Span },
    Poison,
}

impl HirPat {
    /// The model of this pattern.
    pub open spec fn view(&self) -> HirPatV {
        match self {
            HirPat::Variant { def, variant, binds, span } => HirPatV::Variant {
                def: *def,
                variant: *variant,
                binds: binds@,
                span: *span,
            },
            HirPat::Bind { sym, span } => HirPatV::Bind { sym: *sym, span: *span },
            HirPat::Poison => HirPatV::Poison,
        }
    }
}

/// A statement inside a `Block`.
#[allow(inconsistent_fields)]
#[derive(Debug)]
pub enum HirStmt {
    /// `let x (: T)? (= init)? ;`
    Let { symbol: SymbolId, ty: Option<TypeRef>, init: Option<ExprId>, span: Span },
    /// `place = value ;`
    Assign { target: HirPlace, value: ExprId, span: Span },
    /// Expression statement.
    Expr { expr: ExprId, has_semi: bool },
    /// `return value? ;`
    Return { value: Option<ExprId>, span: Span },
}

/// Model of [`HirStmt`].
#[allow(inconsistent_fields)]
#[verifier::ext_equal]
pub enum HirStmtV {
    Let { symbol: SymbolId, ty: Option<TypeRef>, init: Option<ExprId>, span: Span },
    Assign { target: HirPlaceV, value: ExprId, span: Span },
    Expr { expr: ExprId, has_semi: bool },
    Return { value: Option<ExprId>, span: Span },
}

impl HirStmt {
    /// The model of this statement.
    pub open spec fn view(&self) -> HirStmtV {
        match self {
            HirStmt::Let { symbol, ty, init, span } => HirStmtV::Let {
                symbol: *symbol,
                ty: *ty,
                init: *init,
                span: *span,
            },
            HirStmt::Assign { target, value, span } => HirStmtV::Assign {
                target: target@,
                value: *value,
                span: *span,
            },
            HirStmt::Expr { expr, has_semi } => HirStmtV::Expr {
                expr: *expr,
                has_semi: *has_semi,
            },
            HirStmt::Return { value, span } => HirStmtV::Return { value: *value, span: *span },
        }
    }
}

/// The models of a sequence of statements.
pub open spec fn hir_stmts(v: Seq<HirStmt>) -> Seq<HirStmtV> {
    Seq::new(v.len(), |i: int| v[i]@)
}

/// An assignment target: binding plus field projections.
#[derive(Debug)]
pub struct HirPlace {
    /// Root binding symbol (may be body-local).
    pub base: SymbolId,
    /// Field projections in order.
    pub fields: Vec<Name>,
    /// Whole-place span.
    pub span: Span,
}

/// Model of [`HirPlace`].
#[verifier::ext_equal]
pub struct HirPlaceV {
    pub base: SymbolId,
    pub fields: Seq<Name>,
    pub span: Span,
}

impl HirPlace {
    /// The model of this place.
    pub open spec fn view(&self) -> HirPlaceV {
        HirPlaceV { base: self.base, fields: self.fields@, span: self.span }
    }
}

/// The lowered module: resolved scope plus per-def bodies.
pub struct HirModule {
    /// Resolved module scope (defs, symbols, name indices).
    pub scope: ModuleScope,
    /// Function bodies by `DefId` (`None` for data defs). Each body
    /// owns its expression and local-symbol arenas.
    pub bodies: Vec<Option<HirBody>>,
}

/// Model of [`HirModule`].
#[verifier::ext_equal]
pub struct HirModuleV {
    pub scope: ModuleScopeV,
    pub bodies: Seq<Option<HirBodyV>>,
}

/// The model of an optional body.
pub open spec fn opt_body(b: Option<HirBody>) -> Option<HirBodyV> {
    match b {
        Some(x) => Some(x@),
        None => None,
    }
}

/// The models of a sequence of optional bodies.
pub open spec fn bodies_view(v: Seq<Option<HirBody>>) -> Seq<Option<HirBodyV>> {
    Seq::new(v.len(), |i: int| opt_body(v[i]))
}

/// The body of a def, when present.
pub open spec fn body_of(m: HirModuleV, def: DefId) -> Option<HirBodyV> {
    if def.raw < m.bodies.len() {
        m.bodies[def.raw as int]
    } else {
        None
    }
}

impl HirModule {
    /// The model of this module.
    pub open spec fn view(&self) -> HirModuleV {
        HirModuleV { scope: self.scope@, bodies: bodies_view(self.bodies@) }
    }

    /// The body of a function def, when present.
    pub fn body(&self, def: DefId) -> (r: Option<&HirBody>)
        ensures
            (match r {
                Some(b) => Some(b@),
                None => None,
            }) == body_of(self@, def),
    {
        if def.raw < self.bodies.len() {
            self.bodies[def.raw].as_ref()
        } else {
            None
        }
    }
}

} // verus!
