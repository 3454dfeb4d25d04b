//! A workspace at one revision, as the planning of edits reads it: the
//! source texts, their syntax trees, the resolved scope, and the lowered
//! and checked function bodies.

use crate::ast::{item_span, AstModule, AstModuleV, Item, ItemV};
use crate::fxmap::entry;
use crate::hir::{
    def_intern, env_of, hir_exprs, hir_stmts, opt_body, bodies_view, shape_of, HirBody, HirBodyV,
    HirExprKind, HirExprKindV, HirExprV, HirStmt, HirStmtV, ModuleScope, ModuleScopeV, Name,
    TypeRef,
};
use crate::source::{
    pos_plus, span_abs, DefId, ExprId, FileId, InternId, Interner, Span, SymbolId,
};
use crate::text::{bytes_of, texts};
use vstd::prelude::*;
use vstd::string::*;

verus! {

/// A function body with what type checking found: field accesses are
/// resolved, and of every expression and local it is known which `data`
/// its type is, if any.
pub struct CheckedBody {
    /// The body, its field accesses resolved.
    pub body: HirBody,
    /// Per expression: the `data` that is its type.
    pub expr_data: Vec<Option<DefId>>,
    /// Per local: the `data` that is its type.
    pub local_data: Vec<Option<DefId>>,
}

/// Model of [`CheckedBody`].
#[verifier::ext_equal]
pub struct CheckedV {
    pub body: HirBodyV,
    pub expr_data: Seq<Option<DefId>>,
    pub local_data: Seq<Option<DefId>>,
}

impl CheckedBody {
    /// The model of this body.
    pub open spec fn view(&self) -> CheckedV {
        CheckedV {
            body: self.body@,
            expr_data: self.expr_data@,
            local_data: self.local_data@,
        }
    }
}

/// The model of an optional checked body.
pub open spec fn opt_checked(c: Option<CheckedBody>) -> Option<CheckedV> {
    match c {
        Some(x) => Some(x@),
        None => None,
    }
}

/// A workspace at one revision.
pub struct Snapshot {
    /// The text of every registered file.
    pub sources: Vec<String>,
    /// The syntax tree of every registered file.
    pub asts: Vec<AstModule>,
    /// The interned names.
    pub interner: Interner,
    /// The resolved workspace.
    pub scope: ModuleScope,
    /// Per definition: the lowered body of a function.
    pub bodies: Vec<Option<HirBody>>,
    /// Per definition: the checked body of a function.
    pub checked: Vec<Option<CheckedBody>>,
}

/// Model of [`Snapshot`].
#[verifier::ext_equal]
pub struct SnapV {
    pub sources: Seq<Seq<char>>,
    pub asts: Seq<AstModuleV>,
    pub names: Seq<Seq<char>>,
    pub scope: ModuleScopeV,
    pub bodies: Seq<Option<HirBodyV>>,
    pub checked: Seq<Option<CheckedV>>,
}

/// The models of a sequence of syntax trees.
pub open spec fn asts_view(v: Seq<AstModule>) -> Seq<AstModuleV> {
    Seq::new(v.len(), |i: int| v[i]@)
}

/// The models of a sequence of checked bodies.
pub open spec fn checked_view(v: Seq<Option<CheckedBody>>) -> Seq<Option<CheckedV>> {
    Seq::new(v.len(), |i: int| opt_checked(v[i]))
}

/// Whether every text is small enough for its spans: byte offsets are
/// 32 bits wide.
pub open spec fn texts_fit(sources: Seq<Seq<char>>) -> bool {
    forall|i: int| 0 <= i < sources.len() ==> bytes_of(#[trigger] sources[i]).len() <= u32::MAX
}

/// The text of a file; that of an unknown file is empty.
pub open spec fn source_of(s: SnapV, file: FileId) -> Seq<char> {
    if file.raw < s.sources.len() {
        s.sources[file.raw as int]
    } else {
        Seq::empty()
    }
}

/// The item a definition comes from.
pub open spec fn item_of(s: SnapV, def: DefId) -> Option<ItemV> {
    if def.raw < s.scope.defs.len() {
        let d = s.scope.defs[def.raw as int];
        if d.file.raw < s.asts.len() && d.item < s.asts[d.file.raw as int].items.len() {
            Some(s.asts[d.file.raw as int].items[d.item as int])
        } else {
            None
        }
    } else {
        None
    }
}

/// The lowered body of a definition.
pub open spec fn lowered_of(s: SnapV, def: DefId) -> Option<HirBodyV> {
    if def.raw < s.bodies.len() {
        s.bodies[def.raw as int]
    } else {
        None
    }
}

/// The checked body of a definition.
pub open spec fn checked_of(s: SnapV, def: DefId) -> Option<CheckedV> {
    if def.raw < s.checked.len() {
        s.checked[def.raw as int]
    } else {
        None
    }
}

impl Snapshot {
    /// The model of this snapshot.
    pub open spec fn view(&self) -> SnapV {
        SnapV {
            sources: texts(self.sources@),
            asts: asts_view(self.asts@),
            names: self.interner@,
            scope: self.scope@,
            bodies: bodies_view(self.bodies@),
            checked: checked_view(self.checked@),
        }
    }

    /// The text of a file.
    pub fn source(&self, file: FileId) -> (r: &str)
        ensures
            r@ == source_of(self@, file),
            texts_fit(self@.sources) ==> bytes_of(r@).len() <= u32::MAX,
    {
        if file.raw < self.sources.len() {
            proof {
                assert(self@.sources[file.raw as int] == self.sources@[file.raw as int]@);
            }
            self.sources[file.raw].as_str()
        } else {
            proof {
                reveal_strlit("");
                assert(""@ =~= Seq::<char>::empty());
                assert(bytes_of(""@).len() == 0) by {
                    reveal_with_fuel(vstd::utf8::encode_utf8, 1);
                }
            }
            ""
        }
    }

    /// The syntax tree of a file.
    pub fn ast(&self, file: FileId) -> (r: Option<&AstModule>)
        ensures
            match r {
                Some(a) => file.raw < self@.asts.len() && a@ == self@.asts[file.raw as int],
                None => file.raw >= self@.asts.len(),
            },
    {
        if file.raw < self.asts.len() {
            Some(&self.asts[file.raw])
        } else {
            None
        }
    }

    /// The item a definition comes from.
    pub fn item(&self, def: DefId) -> (r: Option<&Item>)
        ensures
            match r {
                Some(i) => item_of(self@, def) == Some(i@),
                None => item_of(self@, def) is None,
            },
    {
        if def.raw < self.scope.defs.len() {
            let d = &self.scope.defs[def.raw];
            assert(d@ == self@.scope.defs[def.raw as int]);
            if let Some(ast) = self.ast(d.file) {
                if d.item < ast.items.len() {
                    assert(ast@.items[d.item as int] == ast.items@[d.item as int]@);
                    return Some(&ast.items[d.item]);
                }
            }
        }
        None
    }

    /// The lowered body of a definition.
    pub fn lowered(&self, def: DefId) -> (r: Option<&HirBody>)
        ensures
            match r {
                Some(b) => lowered_of(self@, def) == Some(b@),
                None => lowered_of(self@, def) is None,
            },
    {
        if def.raw < self.bodies.len() {
            assert(self@.bodies[def.raw as int] == opt_body(self.bodies@[def.raw as int]));
            match &self.bodies[def.raw] {
                Some(b) => Some(b),
                None => None,
            }
        } else {
            None
        }
    }

    /// The checked body of a definition.
    pub fn checked_body(&self, def: DefId) -> (r: Option<&CheckedBody>)
        ensures
            match r {
                Some(b) => checked_of(self@, def) == Some(b@),
                None => checked_of(self@, def) is None,
            },
    {
        if def.raw < self.checked.len() {
            assert(self@.checked[def.raw as int] == opt_checked(self.checked@[def.raw as int]));
            match &self.checked[def.raw] {
                Some(b) => Some(b),
                None => None,
            }
        } else {
            None
        }
    }
}

// ---------- sites of a local binding ----------

/// The spans of the expressions that read a binding.
pub open spec fn var_sites(es: Seq<HirExprV>, sym: SymbolId) -> Seq<Span>
    decreases es.len(),
{
    if es.len() == 0 {
        Seq::empty()
    } else {
        let done = var_sites(es.drop_last(), sym);
        if es.last().kind == HirExprKindV::Var(sym) {
            done.push(es.last().span)
        } else {
            done
        }
    }
}

/// All statements of a list of expressions: those of its blocks, in
/// arena order.
pub open spec fn stmts_of(es: Seq<HirExprV>) -> Seq<HirStmtV>
    decreases es.len(),
{
    if es.len() == 0 {
        Seq::empty()
    } else {
        stmts_of(es.drop_last()) + match es.last().kind {
            HirExprKindV::Block { stmts, tail } => stmts,
            _ => Seq::empty(),
        }
    }
}

/// The first `len` bytes of a place: the token of its base.
pub open spec fn base_token(span: Span, len: nat) -> Span {
    Span {
        start: span.start,
        end: pos_plus(
            span.start,
            if len <= u32::MAX {
                len as u32
            } else {
                u32::MAX
            },
        ),
    }
}

/// The tokens by which statements assign to a binding.
pub open spec fn place_sites(ss: Seq<HirStmtV>, sym: SymbolId, len: nat) -> Seq<Span>
    decreases ss.len(),
{
    if ss.len() == 0 {
        Seq::empty()
    } else {
        let done = place_sites(ss.drop_last(), sym, len);
        match ss.last() {
            HirStmtV::Assign { target, value, span } => if target.base == sym {
                done.push(base_token(target.span, len))
            } else {
                done
            },
            _ => done,
        }
    }
}

/// Spans moved to file coordinates.
pub open spec fn spans_abs(v: Seq<Span>, base: u32) -> Seq<Span> {
    Seq::new(v.len(), |i: int| span_abs(v[i], base))
}

/// The declaration token of a local, if it is one of the body.
pub open spec fn decl_sites(b: HirBodyV, sym: SymbolId) -> Seq<Span> {
    match sym {
        SymbolId::Local(i) => if i < b.local_symbols.len() {
            seq![b.local_symbols[i as int].span]
        } else {
            Seq::empty()
        },
        SymbolId::Module(_) => Seq::empty(),
    }
}

/// Every token bound to a local of a body, in file coordinates: its
/// declaration, the expressions that read it, and the assignments to it
/// or to a field of it. `len` is the length of its name.
pub open spec fn binding_sites(b: HirBodyV, sym: SymbolId, len: nat, base: u32) -> Seq<Span> {
    spans_abs(
        decl_sites(b, sym) + var_sites(b.exprs, sym) + place_sites(stmts_of(b.exprs), sym, len),
        base,
    )
}

fn base_span(span: Span, len: usize) -> (r: Span)
    ensures
        r == base_token(span, len as nat),
{
    let n: u32 = if len <= u32::MAX as usize {
        len as u32
    } else {
        u32::MAX
    };
    Span::new(span.start, span.start.saturating_add(n))
}

fn push_places(ss: &Vec<HirStmt>, sym: SymbolId, len: usize, out: &mut Vec<Span>)
    ensures
        final(out)@ == old(out)@ + place_sites(hir_stmts(ss@), sym, len as nat),
{
    let ghost all = hir_stmts(ss@);
    let ghost before = out@;
    let mut i: usize = 0;
    proof {
        assert(all.take(0) =~= Seq::empty());
        assert(before + place_sites(all.take(0), sym, len as nat) =~= before);
    }
    while i < ss.len()
        invariant
            i <= ss@.len(),
            all == hir_stmts(ss@),
            out@ == before + place_sites(all.take(i as int), sym, len as nat),
        decreases ss@.len() - i,
    {
        proof {
            assert(all.take(i + 1).drop_last() =~= all.take(i as int));
            assert(all.take(i + 1).last() == ss@[i as int]@);
        }
        let ghost done = place_sites(all.take(i as int), sym, len as nat);
        if let HirStmt::Assign { target, value: _, span: _ } = &ss[i] {
            if target.base == sym {
                let t = base_span(target.span, len);
                out.push(t);
                proof {
                    assert(out@ =~= before + done.push(t));
                }
            }
        }
        i += 1;
    }
    proof {
        assert(all.take(all.len() as int) =~= all);
    }
}

proof fn lemma_place_sites_concat(a: Seq<HirStmtV>, b: Seq<HirStmtV>, sym: SymbolId, len: nat)
    ensures
        place_sites(a + b, sym, len) == place_sites(a, sym, len) + place_sites(b, sym, len),
    decreases b.len(),
{
    if b.len() == 0 {
        assert(a + b =~= a);
        assert(place_sites(a, sym, len) + place_sites(b, sym, len) =~= place_sites(a, sym, len));
    } else {
        assert((a + b).drop_last() =~= a + b.drop_last());
        assert((a + b).last() == b.last());
        lemma_place_sites_concat(a, b.drop_last(), sym, len);
        assert(place_sites(a + b, sym, len) =~= place_sites(a, sym, len) + place_sites(
            b,
            sym,
            len,
        ));
    }
}

/// Every token bound to the local `sym` of `body`, in file coordinates.
/// `name` is the local's name, `base` the absolute start of the item.
pub fn local_binding_sites(body: &HirBody, sym: SymbolId, name: &str, base: u32) -> (r: Vec<Span>)
    ensures
        r@ == binding_sites(body@, sym, bytes_of(name@).len(), base),
{
    let len: usize = name.as_bytes().len();
    let ghost n = len as nat;
    let ghost all = body@.exprs;
    let mut vars: Vec<Span> = Vec::new();
    let mut places: Vec<Span> = Vec::new();
    if let SymbolId::Local(k) = sym {
        if k < body.local_symbols.len() {
            vars.push(body.local_symbols[k].span);
        }
    }
    let ghost decl = decl_sites(body@, sym);
    let mut i: usize = 0;
    proof {
        assert(vars@ =~= decl);
        assert(places@ =~= Seq::empty());
        assert(all.take(0) =~= Seq::empty());
        assert(decl + var_sites(all.take(0), sym) =~= decl);
    }
    while i < body.exprs.len()
        invariant
            i <= body.exprs@.len(),
            n == len,
            all == hir_exprs(body.exprs@),
            vars@ == decl + var_sites(all.take(i as int), sym),
            places@ == place_sites(stmts_of(all.take(i as int)), sym, n),
        decreases body.exprs@.len() - i,
    {
        proof {
            assert(all.take(i + 1).drop_last() =~= all.take(i as int));
            assert(all.take(i + 1).last() == body.exprs@[i as int]@);
        }
        let ghost seen = var_sites(all.take(i as int), sym);
        let ghost before = stmts_of(all.take(i as int));
        match &body.exprs[i].kind {
            HirExprKind::Var(s) => if *s == sym {
                vars.push(body.exprs[i].span);
                proof {
                    assert(vars@ =~= decl + seen.push(body.exprs@[i as int].span));
                }
            },
            HirExprKind::Block { stmts, tail: _ } => {
                push_places(stmts, sym, len, &mut places);
                proof {
                    assert(body.exprs@[i as int]@.kind->Block_stmts == hir_stmts(stmts@));
                    lemma_place_sites_concat(before, hir_stmts(stmts@), sym, n);
                }
            },
            _ => {},
        }
        proof {
            assert(before + Seq::<HirStmtV>::empty() =~= before);
        }
        i += 1;
    }
    let ghost rel = vars@ + places@;
    proof {
        assert(all.take(all.len() as int) =~= all);
        assert(rel =~= decl + var_sites(all, sym) + place_sites(stmts_of(all), sym, n));
    }
    vars.append(&mut places);
    let mut out: Vec<Span> = Vec::new();
    let mut j: usize = 0;
    while j < vars.len()
        invariant
            j <= vars@.len(),
            out@ == spans_abs(vars@, base).take(j as int),
        decreases vars@.len() - j,
    {
        out.push(vars[j].abs(base));
        j += 1;
        proof {
            assert(out@ =~= spans_abs(vars@, base).take(j as int));
        }
    }
    proof {
        assert(out@ =~= spans_abs(rel, base));
    }
    out
}

// ---------- sites of a field ----------

/// The `data` an expression's type is.
pub open spec fn data_of_expr(c: CheckedV, e: ExprId) -> Option<DefId> {
    if e.raw < c.expr_data.len() {
        c.expr_data[e.raw as int]
    } else {
        None
    }
}

/// The `data` a binding's type is.
pub open spec fn data_of_local(c: CheckedV, sym: SymbolId) -> Option<DefId> {
    match sym {
        SymbolId::Local(i) => if i < c.local_data.len() {
            c.local_data[i as int]
        } else {
            None
        },
        SymbolId::Module(_) => None,
    }
}

/// A field of a `data`: which `data`, its position, and its name.
#[derive(Clone, Copy, Debug, PartialEq, Eq, Structural)]
pub struct FieldRef {
    /// The `data`.
    pub data: DefId,
    /// Position in its shape.
    pub index: usize,
    /// Interned name.
    pub name: InternId,
}

/// The initializers of a struct literal that write a field.
pub open spec fn init_sites(fs: Seq<(Name, ExprId)>, f: FieldRef) -> Seq<Span>
    decreases fs.len(),
{
    if fs.len() == 0 {
        Seq::empty()
    } else {
        let done = init_sites(fs.drop_last(), f);
        if fs.last().0.id == f.name {
            done.push(fs.last().0.span)
        } else {
            done
        }
    }
}

/// The tokens of one expression that name a field: `x.f` where `x` is
/// of the field's `data`, or `D { f: v }` of that `data`.
pub open spec fn expr_field_sites(c: CheckedV, e: HirExprV, f: FieldRef) -> Seq<Span> {
    match e.kind {
        HirExprKindV::Field { base, name, field: Some(i) } => if i == f.index && data_of_expr(
            c,
            base,
        ) == Some(f.data) {
            seq![name.span]
        } else {
            Seq::empty()
        },
        HirExprKindV::StructLit { def, fields } => if def == f.data {
            init_sites(fields, f)
        } else {
            Seq::empty()
        },
        _ => Seq::empty(),
    }
}

/// The tokens of a list of expressions that name a field.
pub open spec fn exprs_field_sites(c: CheckedV, es: Seq<HirExprV>, f: FieldRef) -> Seq<Span>
    decreases es.len(),
{
    if es.len() == 0 {
        Seq::empty()
    } else {
        exprs_field_sites(c, es.drop_last(), f) + expr_field_sites(c, es.last(), f)
    }
}

/// The tokens of a chain of projections that name a field, walking from
/// a value whose type is `cur`. The walk goes on behind a hit: `p.f.f`
/// on a recursive type holds two tokens bound to one field.
pub open spec fn chain_sites(s: ModuleScopeV, cur: Option<DefId>, fs: Seq<Name>, f: FieldRef) -> Seq<
    Span,
>
    decreases fs.len(),
{
    if fs.len() == 0 || cur is None {
        Seq::empty()
    } else {
        match shape_of(s, cur->0) {
            None => Seq::empty(),
            Some(shape) => match entry(shape.field_index, fs[0].id.raw) {
                None => Seq::empty(),
                Some(i) => {
                    let here = if cur->0 == f.data && i == f.index {
                        seq![fs[0].span]
                    } else {
                        Seq::empty()
                    };
                    let next = if i < shape.fields.len() {
                        match shape.fields[i as int].ty {
                            TypeRef::Struct(d) => Some(d),
                            _ => None,
                        }
                    } else {
                        None
                    };
                    here + chain_sites(s, next, fs.skip(1), f)
                },
            },
        }
    }
}

/// The tokens of a list of statements that assign through a field.
pub open spec fn stmts_field_sites(
    s: ModuleScopeV,
    c: CheckedV,
    ss: Seq<HirStmtV>,
    f: FieldRef,
) -> Seq<Span>
    decreases ss.len(),
{
    if ss.len() == 0 {
        Seq::empty()
    } else {
        let done = stmts_field_sites(s, c, ss.drop_last(), f);
        match ss.last() {
            HirStmtV::Assign { target, value, span } => done + chain_sites(
                s,
                data_of_local(c, target.base),
                target.fields,
                f,
            ),
            _ => done,
        }
    }
}

/// The tokens of one body that name a field, in file coordinates.
pub open spec fn body_field_sites(s: ModuleScopeV, c: CheckedV, f: FieldRef, base: u32) -> Seq<Span> {
    spans_abs(
        exprs_field_sites(c, c.body.exprs, f) + stmts_field_sites(
            s,
            c,
            stmts_of(c.body.exprs),
            f,
        ),
        base,
    )
}

/// Whether a definition is the function that its name stands for in a
/// file.
pub open spec fn is_fn_of(s: ModuleScopeV, file: FileId, d: int) -> bool {
    match (env_of(s, file), def_intern(s, DefId { raw: d as usize })) {
        (Some(e), Some(n)) => entry(e.fns, n.raw) == Some(d as usize),
        _ => false,
    }
}

/// Spans paired with their file.
pub open spec fn in_file(file: FileId, v: Seq<Span>) -> Seq<(FileId, Span)> {
    Seq::new(v.len(), |i: int| (file, v[i]))
}

/// The tokens that name a field in one function of a file.
pub open spec fn fn_field_sites(s: SnapV, file: FileId, d: int, f: FieldRef) -> Seq<(FileId, Span)> {
    let def = DefId { raw: d as usize };
    match (item_of(s, def), checked_of(s, def)) {
        (Some(item), Some(c)) => in_file(
            file,
            body_field_sites(s.scope, c, f, item_span(item).start),
        ),
        _ => Seq::empty(),
    }
}

/// The tokens that name a field in the first `n` definitions, as far as
/// those are functions of a file.
pub open spec fn file_field_sites(s: SnapV, file: FileId, n: int, f: FieldRef) -> Seq<(FileId, Span)>
    decreases n,
{
    if n <= 0 {
        Seq::empty()
    } else {
        let done = file_field_sites(s, file, n - 1, f);
        if is_fn_of(s.scope, file, n - 1) {
            done + fn_field_sites(s, file, n - 1, f)
        } else {
            done
        }
    }
}

/// The tokens that name a field, in every function of the given files.
pub open spec fn all_field_sites(s: SnapV, files: Seq<FileId>, f: FieldRef) -> Seq<(FileId, Span)>
    decreases files.len(),
{
    if files.len() == 0 {
        Seq::empty()
    } else {
        all_field_sites(s, files.drop_last(), f) + file_field_sites(
            s,
            files.last(),
            s.scope.defs.len() as int,
            f,
        )
    }
}

fn push_inits(fs: &Vec<(Name, ExprId)>, f: FieldRef, out: &mut Vec<Span>)
    ensures
        final(out)@ == old(out)@ + init_sites(fs@, f),
{
    let ghost before = out@;
    let mut i: usize = 0;
    proof {
        assert(fs@.take(0) =~= Seq::empty());
        assert(before + init_sites(fs@.take(0), f) =~= before);
    }
    while i < fs.len()
        invariant
            i <= fs@.len(),
            out@ == before + init_sites(fs@.take(i as int), f),
        decreases fs@.len() - i,
    {
        proof {
            assert(fs@.take(i + 1).drop_last() =~= fs@.take(i as int));
        }
        let ghost done = init_sites(fs@.take(i as int), f);
        if fs[i].0.id == f.name {
            out.push(fs[i].0.span);
            proof {
                assert(out@ =~= before + done.push(fs@[i as int].0.span));
            }
        }
        i += 1;
    }
    proof {
        assert(fs@.take(fs@.len() as int) =~= fs@);
    }
}

fn push_chain(scope: &ModuleScope, start: Option<DefId>, fs: &Vec<Name>, f: FieldRef, out: &mut Vec<
    Span,
>)
    ensures
        final(out)@ == old(out)@ + chain_sites(scope@, start, fs@, f),
{
    let ghost before = out@;
    let ghost want = chain_sites(scope@, start, fs@, f);
    let mut cur: Option<DefId> = start;
    let mut i: usize = 0;
    proof {
        assert(fs@.skip(0) =~= fs@);
        assert(out@ + want =~= before + want);
    }
    while i < fs.len()
        invariant
            i <= fs@.len(),
            before == old(out)@,
            want == chain_sites(scope@, start, fs@, f),
            out@ + chain_sites(scope@, cur, fs@.skip(i as int), f) == before + want,
        decreases fs@.len() - i,
    {
        let ghost rest = fs@.skip(i as int);
        proof {
            assert(rest[0] == fs@[i as int]);
            assert(rest.skip(1) =~= fs@.skip(i + 1));
        }
        let d = match cur {
            Some(d) => d,
            None => {
                proof {
                    assert(out@ =~= before + want);
                }
                return ;
            },
        };
        let shape = match scope.data_shape(d) {
            Some(s) => s,
            None => {
                proof {
                    assert(out@ =~= before + want);
                }
                return ;
            },
        };
        let k: usize = match shape.field_index.get(fs[i].id.raw) {
            Some(k) => k,
            None => {
                proof {
                    assert(out@ =~= before + want);
                }
                return ;
            },
        };
        let ghost had = out@;
        if d == f.data && k == f.index {
            out.push(fs[i].span);
        }
        cur = if k < shape.fields.len() {
            match shape.fields[k].ty {
                TypeRef::Struct(nd) => Some(nd),
                _ => None,
            }
        } else {
            None
        };
        proof {
            let tail = chain_sites(scope@, cur, fs@.skip(i + 1), f);
            let here = if d == f.data && k == f.index {
                seq![fs@[i as int].span]
            } else {
                Seq::empty()
            };
            assert(out@ =~= had + here);
            assert(chain_sites(scope@, Some(d), rest, f) == here + tail);
            assert(out@ + tail =~= had + (here + tail));
        }
        i += 1;
    }
    proof {
        assert(out@ =~= before + want);
    }
}

fn local_data(c: &CheckedBody, sym: SymbolId) -> (r: Option<DefId>)
    ensures
        r == data_of_local(c@, sym),
{
    match sym {
        SymbolId::Local(i) => if i < c.local_data.len() {
            c.local_data[i]
        } else {
            None
        },
        SymbolId::Module(_) => None,
    }
}

fn expr_data(c: &CheckedBody, e: ExprId) -> (r: Option<DefId>)
    ensures
        r == data_of_expr(c@, e),
{
    if e.raw < c.expr_data.len() {
        c.expr_data[e.raw]
    } else {
        None
    }
}

fn push_stmts(scope: &ModuleScope, c: &CheckedBody, ss: &Vec<HirStmt>, f: FieldRef, out: &mut Vec<
    Span,
>)
    ensures
        final(out)@ == old(out)@ + stmts_field_sites(scope@, c@, hir_stmts(ss@), f),
{
    let ghost all = hir_stmts(ss@);
    let ghost before = out@;
    let mut i: usize = 0;
    proof {
        assert(all.take(0) =~= Seq::empty());
        assert(before + stmts_field_sites(scope@, c@, all.take(0), f) =~= before);
    }
    while i < ss.len()
        invariant
            i <= ss@.len(),
            all == hir_stmts(ss@),
            out@ == before + stmts_field_sites(scope@, c@, all.take(i as int), f),
        decreases ss@.len() - i,
    {
        proof {
            assert(all.take(i + 1).drop_last() =~= all.take(i as int));
            assert(all.take(i + 1).last() == ss@[i as int]@);
        }
        let ghost done = stmts_field_sites(scope@, c@, all.take(i as int), f);
        if let HirStmt::Assign { target, value: _, span: _ } = &ss[i] {
            let start = local_data(c, target.base);
            push_chain(scope, start, &target.fields, f, out);
            proof {
                let hit = chain_sites(scope@, start, target.fields@, f);
                assert(before + done + hit =~= before + (done + hit));
            }
        }
        i += 1;
    }
    proof {
        assert(all.take(all.len() as int) =~= all);
    }
}

proof fn lemma_stmts_field_sites_concat(
    s: ModuleScopeV,
    c: CheckedV,
    a: Seq<HirStmtV>,
    b: Seq<HirStmtV>,
    f: FieldRef,
)
    ensures
        stmts_field_sites(s, c, a + b, f) == stmts_field_sites(s, c, a, f) + stmts_field_sites(
            s,
            c,
            b,
            f,
        ),
    decreases b.len(),
{
    let x = stmts_field_sites(s, c, a, f);
    if b.len() == 0 {
        assert(a + b =~= a);
        assert(x + stmts_field_sites(s, c, b, f) =~= x);
    } else {
        assert((a + b).drop_last() =~= a + b.drop_last());
        assert((a + b).last() == b.last());
        lemma_stmts_field_sites_concat(s, c, a, b.drop_last(), f);
        assert(stmts_field_sites(s, c, a + b, f) =~= x + stmts_field_sites(s, c, b, f));
    }
}

fn body_sites(scope: &ModuleScope, c: &CheckedBody, f: FieldRef, base: u32) -> (r: Vec<Span>)
    ensures
        r@ == body_field_sites(scope@, c@, f, base),
{
    let ghost all = c@.body.exprs;
    let mut hits: Vec<Span> = Vec::new();
    let mut places: Vec<Span> = Vec::new();
    let mut i: usize = 0;
    proof {
        assert(all.take(0) =~= Seq::empty());
        assert(hits@ =~= Seq::empty());
        assert(places@ =~= Seq::empty());
    }
    while i < c.body.exprs.len()
        invariant
            i <= c.body.exprs@.len(),
            all == hir_exprs(c.body.exprs@),
            hits@ == exprs_field_sites(c@, all.take(i as int), f),
            places@ == stmts_field_sites(scope@, c@, stmts_of(all.take(i as int)), f),
        decreases c.body.exprs@.len() - i,
    {
        proof {
            assert(all.take(i + 1).drop_last() =~= all.take(i as int));
            assert(all.take(i + 1).last() == c.body.exprs@[i as int]@);
        }
        let ghost seen = hits@;
        let ghost before = stmts_of(all.take(i as int));
        match &c.body.exprs[i].kind {
            HirExprKind::Field { base: be, name, field: Some(k) } => if *k == f.index {
                if let Some(d) = expr_data(c, *be) {
                    if d == f.data {
                        hits.push(name.span);
                        proof {
                            assert(hits@ =~= seen + seq![name.span]);
                        }
                    }
                }
            },
            HirExprKind::StructLit { def, fields } => if *def == f.data {
                push_inits(fields, f, &mut hits);
            },
            HirExprKind::Block { stmts, tail: _ } => {
                push_stmts(scope, c, stmts, f, &mut places);
                proof {
                    assert(c.body.exprs@[i as int]@.kind->Block_stmts == hir_stmts(stmts@));
                    lemma_stmts_field_sites_concat(scope@, c@, before, hir_stmts(stmts@), f);
                }
            },
            _ => {},
        }
        proof {
            assert(before + Seq::<HirStmtV>::empty() =~= before);
            assert(seen + Seq::<Span>::empty() =~= seen);
        }
        i += 1;
    }
    let ghost rel = hits@ + places@;
    proof {
        assert(all.take(all.len() as int) =~= all);
    }
    hits.append(&mut places);
    let mut out: Vec<Span> = Vec::new();
    let mut j: usize = 0;
    while j < hits.len()
        invariant
            j <= hits@.len(),
            out@ == spans_abs(hits@, base).take(j as int),
        decreases hits@.len() - j,
    {
        out.push(hits[j].abs(base));
        j += 1;
        proof {
            assert(out@ =~= spans_abs(hits@, base).take(j as int));
        }
    }
    proof {
        assert(out@ =~= spans_abs(rel, base));
    }
    out
}

fn push_in_file(file: FileId, v: &Vec<Span>, out: &mut Vec<(FileId, Span)>)
    ensures
        final(out)@ == old(out)@ + in_file(file, v@),
{
    let ghost before = out@;
    let mut i: usize = 0;
    proof {
        assert(before + in_file(file, v@).take(0) =~= before);
    }
    while i < v.len()
        invariant
            i <= v@.len(),
            out@ == before + in_file(file, v@).take(i as int),
        decreases v@.len() - i,
    {
        out.push((file, v[i]));
        i += 1;
        proof {
            assert(out@ =~= before + in_file(file, v@).take(i as int));
        }
    }
    proof {
        assert(in_file(file, v@).take(v@.len() as int) =~= in_file(file, v@));
    }
}

impl Snapshot {
    fn is_fn(&self, file: FileId, d: usize) -> (r: bool)
        requires
            d < self.scope@.defs.len(),
        ensures
            r == is_fn_of(self@.scope, file, d as int),
    {
        match self.scope.env(file) {
            Some(e) => match self.scope.def_name(DefId { raw: d }) {
                Some(n) => match e.fns.get(n.raw) {
                    Some(x) => x == d,
                    None => false,
                },
                None => false,
            },
            None => false,
        }
    }

    fn push_file_sites(&self, file: FileId, f: FieldRef, out: &mut Vec<(FileId, Span)>)
        ensures
            final(out)@ == old(out)@ + file_field_sites(
                self@,
                file,
                self@.scope.defs.len() as int,
                f,
            ),
    {
        let ghost before = out@;
        let n: usize = self.scope.defs.len();
        let mut d: usize = 0;
        proof {
            assert(before + file_field_sites(self@, file, 0, f) =~= before);
        }
        while d < n
            invariant
                d <= n,
                n == self.scope@.defs.len(),
                out@ == before + file_field_sites(self@, file, d as int, f),
            decreases n - d,
        {
            let ghost done = file_field_sites(self@, file, d as int, f);
            if self.is_fn(file, d) {
                let def = DefId { raw: d };
                if let Some(item) = self.item(def) {
                    if let Some(c) = self.checked_body(def) {
                        let v = body_sites(&self.scope, c, f, item.span().start);
                        push_in_file(file, &v, out);
                        proof {
                            assert(before + done + in_file(file, v@) =~= before + (done + in_file(
                                file,
                                v@,
                            )));
                        }
                    }
                }
                proof {
                    assert(before + (done + Seq::<(FileId, Span)>::empty()) =~= before + done);
                }
            }
            d += 1;
        }
    }

    /// Every source site bound to a `data` field outside its
    /// declaration: in every reachable file's fns, `base.field`
    /// accesses whose checked base type is the `data`, `D { field: v }`
    /// initializer names, and `place.field = v` projections that walk
    /// to the field. Item-relative spans rebase through each fn's item
    /// start.
    pub fn field_sites(&self, f: FieldRef) -> (r: Vec<(FileId, Span)>)
        ensures
            r@ == all_field_sites(self@, self@.scope.files, f),
    {
        let ghost files = self@.scope.files;
        let mut out: Vec<(FileId, Span)> = Vec::new();
        let mut i: usize = 0;
        proof {
            assert(files.take(0) =~= Seq::empty());
            assert(out@ =~= Seq::empty());
        }
        while i < self.scope.files.len()
            invariant
                i <= self.scope.files@.len(),
                files == self.scope.files@,
                out@ == all_field_sites(self@, files.take(i as int), f),
            decreases self.scope.files@.len() - i,
        {
            proof {
                assert(files.take(i + 1).drop_last() =~= files.take(i as int));
            }
            self.push_file_sites(self.scope.files[i], f, &mut out);
            i += 1;
        }
        proof {
            assert(files.take(files.len() as int) =~= files);
        }
        out
    }
}

} // verus!
