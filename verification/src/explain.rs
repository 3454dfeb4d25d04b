//! `explain` — semantic introspection.
//!
//! Without a symbol: one summary per top-level definition (signature and
//! inferred ownership contracts). With a symbol: resolves the name
//! against the workspace's symbols — not source text — and explains the
//! single match, or reports `E_AMBIGUOUS_SYMBOL` / `E_UNKNOWN_SYMBOL`.

use crate::ast::item_span;
use crate::code::Code;
use crate::diagnostic::{error_of, Diagnostic, DiagnosticV};
use crate::hir::{
    def_text, shape_text, DataShapeV, DefKind, DefKindV, ElemRef, FieldDef, FnSig, FnSigV,
    HirBodyV, ParamDef, Symbol, SymbolKind, TypeRef, VariantDef, VariantDefV,
};
use crate::json::{
    json_array, json_object, json_str, json_texts, jsons, mem, members, no_items, no_members, put,
    put_item, str_items, Json, JsonV, Member, MemberV,
};
use crate::render::{span_mems, span_object};
use crate::seam::{split_once, split_path};
use crate::snapshot::{item_of, SnapV, Snapshot};
use crate::source::{lookup, name_of, span_abs, DefId, Span, SymbolId};
use crate::target::{
    candidates, find_candidates, find_own, module_file_of, module_file_spec, own_member,
};
use crate::text::{cat3, cat4, cat5, dec, decimal, same, texts};
use vstd::prelude::*;

verus! {

// ---------- ownership facts ----------

/// One place that shows what a function does with a parameter.
pub struct Evidence {
    /// What happens there.
    pub kind: String,
    /// Where, relative to the function's item.
    pub at: Span,
}

/// Model of [`Evidence`].
#[verifier::ext_equal]
pub struct EvidenceV {
    pub kind: Seq<char>,
    pub at: Span,
}

impl Evidence {
    /// The model of this evidence.
    pub open spec fn view(&self) -> EvidenceV {
        EvidenceV { kind: self.kind@, at: self.at }
    }
}

/// The models of a sequence of evidence.
pub open spec fn evidence_view(v: Seq<Evidence>) -> Seq<EvidenceV> {
    Seq::new(v.len(), |i: int| v[i]@)
}

/// What ownership inference found out about a parameter.
pub struct ParamFacts {
    /// The inferred behavior (`borrow`, `move`, ...).
    pub behavior: String,
    /// Where the argument may flow to.
    pub escapes: Vec<String>,
    /// What shows the behavior.
    pub evidence: Vec<Evidence>,
}

/// Model of [`ParamFacts`].
#[verifier::ext_equal]
pub struct ParamFactsV {
    pub behavior: Seq<char>,
    pub escapes: Seq<Seq<char>>,
    pub evidence: Seq<EvidenceV>,
}

impl ParamFacts {
    /// The model of these facts.
    pub open spec fn view(&self) -> ParamFactsV {
        ParamFactsV {
            behavior: self.behavior@,
            escapes: texts(self.escapes@),
            evidence: evidence_view(self.evidence@),
        }
    }
}

/// Per definition: the facts of its parameters, in order.
pub open spec fn facts_view(v: Seq<Vec<ParamFacts>>) -> Seq<Seq<ParamFactsV>> {
    Seq::new(v.len(), |d: int| Seq::new(v[d]@.len(), |i: int| v[d]@[i]@))
}

/// The facts of a definition's parameter.
pub open spec fn fact_of(facts: Seq<Seq<ParamFactsV>>, d: DefId, i: int) -> Option<ParamFactsV> {
    if d.raw < facts.len() && 0 <= i < facts[d.raw as int].len() {
        Some(facts[d.raw as int][i])
    } else {
        None
    }
}

pub(crate) fn find_fact(facts: &Vec<Vec<ParamFacts>>, d: DefId, i: usize) -> (r: Option<&ParamFacts>)
    ensures
        match r {
            Some(f) => fact_of(facts_view(facts@), d, i as int) == Some(f@),
            None => fact_of(facts_view(facts@), d, i as int) is None,
        },
{
    if d.raw < facts.len() && i < facts[d.raw].len() {
        Some(&facts[d.raw][i])
    } else {
        None
    }
}

// ---------- names ----------

/// The stable word for a kind of symbol.
pub open spec fn kind_text(k: SymbolKind) -> Seq<char> {
    match k {
        SymbolKind::Function => "fn"@,
        SymbolKind::Data => "data"@,
        SymbolKind::Field => "field"@,
        SymbolKind::Variant => "variant"@,
        SymbolKind::Param => "param"@,
        SymbolKind::Local => "local"@,
    }
}

/// The stable word for a kind of symbol.
pub fn kind_str(k: SymbolKind) -> (r: &'static str)
    ensures
        r@ == kind_text(k),
{
    match k {
        SymbolKind::Function => "fn",
        SymbolKind::Data => "data",
        SymbolKind::Field => "field",
        SymbolKind::Variant => "variant",
        SymbolKind::Param => "param",
        SymbolKind::Local => "local",
    }
}

/// An element type as text.
pub open spec fn elem_text(s: SnapV, e: ElemRef) -> Seq<char> {
    match e {
        ElemRef::Bool => "bool"@,
        ElemRef::I8 => "i8"@,
        ElemRef::I16 => "i16"@,
        ElemRef::I32 => "i32"@,
        ElemRef::I64 => "i64"@,
        ElemRef::Isize => "isize"@,
        ElemRef::U8 => "u8"@,
        ElemRef::U16 => "u16"@,
        ElemRef::U32 => "u32"@,
        ElemRef::U64 => "u64"@,
        ElemRef::Usize => "usize"@,
        ElemRef::F32 => "f32"@,
        ElemRef::F64 => "f64"@,
        ElemRef::Str => "str"@,
        ElemRef::Char => "char"@,
        ElemRef::Struct(d) => def_text(s.scope, s.names, d),
    }
}

/// A type as text.
pub open spec fn type_text(s: SnapV, t: TypeRef) -> Seq<char> {
    match t {
        TypeRef::Bool => "bool"@,
        TypeRef::I8 => "i8"@,
        TypeRef::I16 => "i16"@,
        TypeRef::I32 => "i32"@,
        TypeRef::I64 => "i64"@,
        TypeRef::Isize => "isize"@,
        TypeRef::U8 => "u8"@,
        TypeRef::U16 => "u16"@,
        TypeRef::U32 => "u32"@,
        TypeRef::U64 => "u64"@,
        TypeRef::Usize => "usize"@,
        TypeRef::F32 => "f32"@,
        TypeRef::F64 => "f64"@,
        TypeRef::Str => "str"@,
        TypeRef::Char => "char"@,
        TypeRef::Unit => "unit"@,
        TypeRef::Struct(d) => def_text(s.scope, s.names, d),
        TypeRef::Array { elem } => "["@ + elem_text(s, elem) + "]"@,
        TypeRef::Poison => "poison"@,
    }
}

/// The absolute start of a definition's item; `0` when it has none.
pub open spec fn base_of(s: SnapV, d: DefId) -> u32 {
    match item_of(s, d) {
        Some(i) => item_span(i).start,
        None => 0,
    }
}

impl Snapshot {
    pub(crate) fn def_label(&self, d: DefId) -> (r: &str)
        ensures
            r@ == def_text(self@.scope, self@.names, d),
    {
        self.scope.def_display(&self.interner, d)
    }

    fn elem_name(&self, e: ElemRef) -> (r: &str)
        ensures
            r@ == elem_text(self@, e),
    {
        match e {
            ElemRef::Bool => "bool",
            ElemRef::I8 => "i8",
            ElemRef::I16 => "i16",
            ElemRef::I32 => "i32",
            ElemRef::I64 => "i64",
            ElemRef::Isize => "isize",
            ElemRef::U8 => "u8",
            ElemRef::U16 => "u16",
            ElemRef::U32 => "u32",
            ElemRef::U64 => "u64",
            ElemRef::Usize => "usize",
            ElemRef::F32 => "f32",
            ElemRef::F64 => "f64",
            ElemRef::Str => "str",
            ElemRef::Char => "char",
            ElemRef::Struct(d) => self.def_label(d),
        }
    }

    /// A type as text.
    pub fn ty_name(&self, t: TypeRef) -> (r: String)
        ensures
            r@ == type_text(self@, t),
    {
        match t {
            TypeRef::Bool => "bool".to_owned(),
            TypeRef::I8 => "i8".to_owned(),
            TypeRef::I16 => "i16".to_owned(),
            TypeRef::I32 => "i32".to_owned(),
            TypeRef::I64 => "i64".to_owned(),
            TypeRef::Isize => "isize".to_owned(),
            TypeRef::U8 => "u8".to_owned(),
            TypeRef::U16 => "u16".to_owned(),
            TypeRef::U32 => "u32".to_owned(),
            TypeRef::U64 => "u64".to_owned(),
            TypeRef::Usize => "usize".to_owned(),
            TypeRef::F32 => "f32".to_owned(),
            TypeRef::F64 => "f64".to_owned(),
            TypeRef::Str => "str".to_owned(),
            TypeRef::Char => "char".to_owned(),
            TypeRef::Unit => "unit".to_owned(),
            TypeRef::Struct(d) => self.def_label(d).to_owned(),
            TypeRef::Array { elem } => cat3("[", self.elem_name(elem), "]"),
            TypeRef::Poison => "poison".to_owned(),
        }
    }

    pub(crate) fn base(&self, d: DefId) -> (r: u32)
        ensures
            r == base_of(self@, d),
    {
        match self.item(d) {
            Some(i) => i.span().start,
            None => 0,
        }
    }
}

// ---------- resolution ----------

/// A symbol together with the definition it belongs to.
pub struct Candidate {
    /// The definition.
    pub owner: DefId,
    /// The symbol.
    pub symbol: Symbol,
}

/// What a name resolves to.
pub enum Resolved {
    /// A definition.
    Def(DefId),
    /// A parameter, local, field or variant.
    Sym(DefId, Symbol),
    /// Several symbols.
    Ambiguous(Vec<Candidate>),
    /// Nothing.
    Unknown,
}

/// Model of [`Resolved`].
#[verifier::ext_equal]
pub enum ResolvedV {
    Def(DefId),
    Sym(DefId, Symbol),
    Ambiguous(Seq<Candidate>),
    Unknown,
}

impl Resolved {
    /// The model of this resolution.
    pub open spec fn view(&self) -> ResolvedV {
        match self {
            Resolved::Def(d) => ResolvedV::Def(*d),
            Resolved::Sym(d, s) => ResolvedV::Sym(*d, *s),
            Resolved::Ambiguous(v) => ResolvedV::Ambiguous(v@),
            Resolved::Unknown => ResolvedV::Unknown,
        }
    }
}

/// The symbol that carries a definition's name.
pub open spec fn def_symbol(s: SnapV, d: DefId) -> Option<Symbol> {
    if d.raw < s.scope.defs.len() {
        match s.scope.defs[d.raw as int].name {
            SymbolId::Module(i) => if i < s.scope.symbols.len() {
                Some(s.scope.symbols[i as int])
            } else {
                None
            },
            SymbolId::Local(_) => None,
        }
    } else {
        None
    }
}

/// Definitions with the symbols that carry their names.
pub open spec fn def_candidates(s: SnapV, ds: Seq<DefId>, k: int) -> Seq<Candidate>
    decreases k,
{
    if k <= 0 {
        Seq::empty()
    } else {
        let front = def_candidates(s, ds, k - 1);
        match def_symbol(s, ds[k - 1]) {
            Some(x) => front.push(Candidate { owner: ds[k - 1], symbol: x }),
            None => front,
        }
    }
}

/// The fields and variants of a name among the first `k` module symbols.
pub open spec fn member_candidates(s: SnapV, name: Seq<char>, k: int) -> Seq<Candidate>
    decreases k,
{
    if k <= 0 {
        Seq::empty()
    } else {
        let front = member_candidates(s, name, k - 1);
        let x = s.scope.symbols[k - 1];
        if (x.kind == SymbolKind::Field || x.kind == SymbolKind::Variant) && name_of(
            s.names,
            x.name,
        ) == name && x.owner is Some {
            front.push(Candidate { owner: x.owner->0, symbol: x })
        } else {
            front
        }
    }
}

/// The parameters and locals of a name among the first `k` of a body.
pub open spec fn body_candidates(s: SnapV, b: HirBodyV, name: Seq<char>, k: int) -> Seq<Candidate>
    decreases k,
{
    if k <= 0 {
        Seq::empty()
    } else {
        let front = body_candidates(s, b, name, k - 1);
        let x = b.local_symbols[k - 1];
        if name_of(s.names, x.name) == name {
            front.push(Candidate { owner: b.def, symbol: x })
        } else {
            front
        }
    }
}

/// The parameters and locals of a name in the first `k` bodies.
pub open spec fn local_candidates(s: SnapV, name: Seq<char>, k: int) -> Seq<Candidate>
    decreases k,
{
    if k <= 0 {
        Seq::empty()
    } else {
        let front = local_candidates(s, name, k - 1);
        match s.bodies[k - 1] {
            Some(b) => front + body_candidates(s, b, name, b.local_symbols.len() as int),
            None => front,
        }
    }
}

/// What a name resolves to. `m::x` selects a definition of module `m`; a
/// bare name matches top-level definitions in every reachable file,
/// otherwise every field, variant, parameter and local of the name.
pub open spec fn resolved_of(s: SnapV, name: Seq<char>) -> ResolvedV {
    match split_path(name) {
        Some((m, member)) => match (module_file_spec(s.scope, s.names, m), lookup(
            s.names,
            member,
        )) {
            (Some(f), Some(id)) => match own_member(s.scope, f, id) {
                Some(d) => ResolvedV::Def(DefId { raw: d }),
                None => ResolvedV::Unknown,
            },
            _ => ResolvedV::Unknown,
        },
        None => {
            let defs = match lookup(s.names, name) {
                Some(id) => candidates(s.scope, id, s.scope.defs.len() as int),
                None => Seq::empty(),
            };
            if defs.len() == 1 {
                ResolvedV::Def(defs[0])
            } else if defs.len() > 1 {
                ResolvedV::Ambiguous(def_candidates(s, defs, defs.len() as int))
            } else {
                let cands = member_candidates(s, name, s.scope.symbols.len() as int)
                    + local_candidates(s, name, s.bodies.len() as int);
                if cands.len() == 0 {
                    ResolvedV::Unknown
                } else if cands.len() == 1 {
                    ResolvedV::Sym(cands[0].owner, cands[0].symbol)
                } else {
                    ResolvedV::Ambiguous(cands)
                }
            }
        },
    }
}

impl Snapshot {
    fn symbol_of_def(&self, d: DefId) -> (r: Option<Symbol>)
        ensures
            r == def_symbol(self@, d),
    {
        if d.raw < self.scope.defs.len() {
            assert(self@.scope.defs[d.raw as int] == self.scope.defs@[d.raw as int]@);
            match self.scope.defs[d.raw].name {
                SymbolId::Module(i) => if i < self.scope.symbols.len() {
                    Some(*self.scope.symbols.get(SymbolId::Module(i)))
                } else {
                    None
                },
                SymbolId::Local(_) => None,
            }
        } else {
            None
        }
    }

    fn defs_as_candidates(&self, ds: &Vec<DefId>) -> (r: Vec<Candidate>)
        ensures
            r@ == def_candidates(self@, ds@, ds@.len() as int),
    {
        let mut out: Vec<Candidate> = Vec::new();
        let mut i: usize = 0;
        proof {
            assert(out@ =~= Seq::empty());
        }
        while i < ds.len()
            invariant
                i <= ds@.len(),
                out@ == def_candidates(self@, ds@, i as int),
            decreases ds@.len() - i,
        {
            if let Some(x) = self.symbol_of_def(ds[i]) {
                out.push(Candidate { owner: ds[i], symbol: x });
            }
            i += 1;
        }
        out
    }

    fn members_named(&self, name: &str) -> (r: Vec<Candidate>)
        ensures
            r@ == member_candidates(self@, name@, self@.scope.symbols.len() as int),
    {
        let v = self.scope.symbols.iter();
        let mut out: Vec<Candidate> = Vec::new();
        let mut i: usize = 0;
        proof {
            assert(out@ =~= Seq::empty());
        }
        while i < v.len()
            invariant
                i <= v@.len(),
                v@ == self@.scope.symbols,
                out@ == member_candidates(self@, name@, i as int),
            decreases v@.len() - i,
        {
            let x = v[i];
            if (x.kind == SymbolKind::Field || x.kind == SymbolKind::Variant) && same(
                self.interner.name_or_unknown(x.name),
                name,
            ) {
                if let Some(owner) = x.owner {
                    out.push(Candidate { owner, symbol: x });
                }
            }
            i += 1;
        }
        out
    }

    fn locals_named(&self, name: &str, out: &mut Vec<Candidate>)
        ensures
            final(out)@ == old(out)@ + local_candidates(self@, name@, self@.bodies.len() as int),
    {
        let ghost start = out@;
        let n: usize = self.bodies.len();
        let mut k: usize = 0;
        proof {
            assert(self@.bodies.len() == n);
            assert(start + Seq::<Candidate>::empty() =~= start);
        }
        while k < n
            invariant
                k <= n,
                n == self@.bodies.len(),
                n == self.bodies@.len(),
                out@ == start + local_candidates(self@, name@, k as int),
            decreases n - k,
        {
            let ghost front = local_candidates(self@, name@, k as int);
            if let Some(b) = &self.bodies[k] {
                let ghost bv = b@;
                assert(self@.bodies[k as int] == Some(bv));
                let ghost before = out@;
                let mut i: usize = 0;
                proof {
                    assert(before + Seq::<Candidate>::empty() =~= before);
                }
                while i < b.local_symbols.len()
                    invariant
                        i <= b.local_symbols@.len(),
                        bv == b@,
                        out@ == before + body_candidates(self@, bv, name@, i as int),
                    decreases b.local_symbols@.len() - i,
                {
                    let x = b.local_symbols[i];
                    let ghost pre = body_candidates(self@, bv, name@, i as int);
                    if same(self.interner.name_or_unknown(x.name), name) {
                        out.push(Candidate { owner: b.def, symbol: x });
                        proof {
                            assert(out@ =~= before + pre.push(
                                Candidate { owner: bv.def, symbol: x },
                            ));
                        }
                    }
                    i += 1;
                }
                proof {
                    let more = body_candidates(
                        self@,
                        bv,
                        name@,
                        bv.local_symbols.len() as int,
                    );
                    assert(before + more =~= start + (front + more));
                }
            } else {
                assert(self@.bodies[k as int] is None);
            }
            k += 1;
        }
    }

    /// Resolves a query name to a semantic symbol.
    pub fn resolve_symbol(&self, name: &str) -> (r: Resolved)
        ensures
            r@ == resolved_of(self@, name@),
    {
        if let Some((m, member)) = split_once(name) {
            let file = module_file_of(&self.scope, &self.interner, m);
            let id = self.interner.get(member);
            return match (file, id) {
                (Some(f), Some(id)) => match find_own(&self.scope, f, id) {
                    Some(d) => Resolved::Def(DefId { raw: d }),
                    None => Resolved::Unknown,
                },
                _ => Resolved::Unknown,
            };
        }
        let defs = match self.interner.get(name) {
            Some(id) => find_candidates(&self.scope, id),
            None => {
                let v: Vec<DefId> = Vec::new();
                assert(v@ =~= Seq::empty());
                v
            },
        };
        if defs.len() == 1 {
            return Resolved::Def(defs[0]);
        }
        if defs.len() > 1 {
            return Resolved::Ambiguous(self.defs_as_candidates(&defs));
        }
        let mut cands = self.members_named(name);
        self.locals_named(name, &mut cands);
        if cands.len() == 0 {
            Resolved::Unknown
        } else if cands.len() == 1 {
            Resolved::Sym(cands[0].owner, cands[0].symbol)
        } else {
            Resolved::Ambiguous(cands)
        }
    }
}

// ---------- ambiguity ----------

/// What a symbol is, in words.
pub open spec fn describe_of(s: SnapV, x: Symbol) -> Seq<char> {
    let name = name_of(s.names, x.name);
    match x.kind {
        SymbolKind::Function => "fn `"@ + name + "`"@,
        SymbolKind::Data => "data `"@ + name + "`"@,
        _ => match x.owner {
            Some(o) => kind_text(x.kind) + " `"@ + name + "` of `"@ + def_text(
                s.scope,
                s.names,
                o,
            ) + "`"@,
            None => kind_text(x.kind) + " `"@ + name + "`"@,
        },
    }
}

/// A candidate as JSON.
pub open spec fn candidate_json(s: SnapV, c: Candidate) -> JsonV {
    JsonV::Object(
        seq![
            mem("kind"@, JsonV::Str(kind_text(c.symbol.kind))),
            mem("owner"@, JsonV::Str(def_text(s.scope, s.names, c.owner))),
            mem(
                "span"@,
                JsonV::Object(span_mems(span_abs(c.symbol.span, base_of(s, c.owner)))),
            ),
            mem("description"@, JsonV::Str(describe_of(s, c.symbol))),
        ],
    )
}

/// A diagnostic with one label per candidate among the first `k`.
pub open spec fn with_labels(s: SnapV, d: DiagnosticV, cs: Seq<Candidate>, k: int) -> DiagnosticV
    decreases k,
{
    if k <= 0 {
        d
    } else {
        let c = cs[k - 1];
        with_labels(s, d, cs, k - 1).with_label(
            span_abs(c.symbol.span, base_of(s, c.owner)),
            describe_of(s, c.symbol),
        )
    }
}

/// The ambiguity report: every candidate is a label and a detail.
pub open spec fn ambiguity(s: SnapV, name: Seq<char>, cs: Seq<Candidate>) -> DiagnosticV {
    with_labels(
        s,
        error_of(
            Code::AmbiguousSymbol,
            "`"@ + name + "` is ambiguous: "@ + dec(cs.len()) + " candidates"@,
        ).with_subject(name),
        cs,
        cs.len() as int,
    ).with_detail(
        "candidates"@,
        JsonV::Array(Seq::new(cs.len(), |i: int| candidate_json(s, cs[i]))),
    )
}

impl Snapshot {
    /// What a symbol is, in words.
    pub fn describe_symbol(&self, x: &Symbol) -> (r: String)
        ensures
            r@ == describe_of(self@, *x),
    {
        let name = self.interner.name_or_unknown(x.name);
        match x.kind {
            SymbolKind::Function => cat3("fn `", name, "`"),
            SymbolKind::Data => cat3("data `", name, "`"),
            _ => match x.owner {
                Some(o) => {
                    let head = cat4(kind_str(x.kind), " `", name, "` of `");
                    cat3(head.as_str(), self.def_label(o), "`")
                },
                None => cat4(kind_str(x.kind), " `", name, "`"),
            },
        }
    }

    pub(crate) fn ambiguous(&self, name: &str, cs: &Vec<Candidate>) -> (r: Diagnostic)
        ensures
            r@ == ambiguity(self@, name@, cs@),
    {
        let n = decimal(cs.len() as u64);
        let mut d = Diagnostic::error(
            Code::AmbiguousSymbol,
            cat5("`", name, "` is ambiguous: ", n.as_str(), " candidates"),
        ).subject(name.to_string());
        let ghost d0 = d@;
        let ghost all = Seq::new(cs@.len(), |i: int| candidate_json(self@, cs@[i]));
        let mut items = no_items();
        let mut i: usize = 0;
        proof {
            assert(all.take(0) =~= Seq::empty());
        }
        while i < cs.len()
            invariant
                i <= cs@.len(),
                all == Seq::new(cs@.len(), |j: int| candidate_json(self@, cs@[j])),
                d@ == with_labels(self@, d0, cs@, i as int),
                jsons(items@) == all.take(i as int),
            decreases cs@.len() - i,
        {
            let c = &cs[i];
            let at = c.symbol.span.abs(self.base(c.owner));
            let desc = self.describe_symbol(&c.symbol);
            let mut ms = no_members();
            put(&mut ms, "kind", json_str(kind_str(c.symbol.kind)));
            put(&mut ms, "owner", json_str(self.def_label(c.owner)));
            put(&mut ms, "span", span_object(at));
            put(&mut ms, "description", json_str(desc.as_str()));
            proof {
                assert(members(ms@) =~= candidate_json(self@, cs@[i as int])->Object_0);
            }
            put_item(&mut items, json_object(ms));
            d = d.label(at, desc);
            i += 1;
            proof {
                assert(all.take(i as int) =~= all.take(i - 1).push(all[i - 1]));
            }
        }
        proof {
            assert(all.take(all.len() as int) =~= all);
        }
        d.detail("candidates", json_array(items))
    }
}

// ---------- summaries ----------

/// Evidence as JSON, in file coordinates.
pub open spec fn evidence_json_of(v: Seq<EvidenceV>, base: u32) -> JsonV {
    JsonV::Array(
        Seq::new(
            v.len(),
            |i: int|
                JsonV::Object(
                    seq![
                        mem("kind"@, JsonV::Str(v[i].kind)),
                        mem("span"@, JsonV::Object(span_mems(span_abs(v[i].at, base)))),
                    ],
                ),
        ),
    )
}

fn evidence_json(v: &Vec<Evidence>, base: u32) -> (r: Json)
    ensures
        r@ == evidence_json_of(evidence_view(v@), base),
{
    let ghost all = evidence_json_of(evidence_view(v@), base)->Array_0;
    let mut out = no_items();
    let mut i: usize = 0;
    proof {
        assert(all.take(0) =~= Seq::empty());
    }
    while i < v.len()
        invariant
            i <= v@.len(),
            all == evidence_json_of(evidence_view(v@), base)->Array_0,
            jsons(out@) == all.take(i as int),
        decreases v@.len() - i,
    {
        let mut ms = no_members();
        put(&mut ms, "kind", json_str(v[i].kind.as_str()));
        put(&mut ms, "span", span_object(v[i].at.abs(base)));
        proof {
            assert(members(ms@) =~= all[i as int]->Object_0);
        }
        put_item(&mut out, json_object(ms));
        i += 1;
        proof {
            assert(all.take(i as int) =~= all.take(i - 1).push(all[i - 1]));
        }
    }
    proof {
        assert(all.take(all.len() as int) =~= all);
    }
    json_array(out)
}

/// Members with what is known of a parameter's flow, where there is
/// something.
pub open spec fn with_flow(ms: Seq<MemberV>, f: Option<ParamFactsV>, base: u32) -> Seq<MemberV> {
    match f {
        None => ms,
        Some(x) => {
            let a = if x.escapes.len() > 0 {
                ms.push(mem("escapes"@, JsonV::Array(str_items(x.escapes))))
            } else {
                ms
            };
            if x.evidence.len() > 0 {
                a.push(mem("evidence"@, evidence_json_of(x.evidence, base)))
            } else {
                a
            }
        },
    }
}

pub(crate) fn put_flow(ms: &mut Vec<Member>, f: Option<&ParamFacts>, base: u32)
    ensures
        members(final(ms)@) == with_flow(
            members(old(ms)@),
            match f {
                Some(x) => Some(x@),
                None => None,
            },
            base,
        ),
{
    if let Some(x) = f {
        proof {
            assert(texts(x.escapes@).len() == x.escapes@.len());
            assert(evidence_view(x.evidence@).len() == x.evidence@.len());
        }
        if x.escapes.len() > 0 {
            put(ms, "escapes", json_texts(&x.escapes));
        }
        if x.evidence.len() > 0 {
            put(ms, "evidence", evidence_json(&x.evidence, base));
        }
    }
}

/// The inferred behavior of a parameter.
pub open spec fn behavior_of(f: Option<ParamFactsV>) -> Seq<char> {
    match f {
        Some(x) => x.behavior,
        None => "unknown"@,
    }
}

/// A parameter as JSON.
pub open spec fn param_json(
    s: SnapV,
    facts: Seq<Seq<ParamFactsV>>,
    d: DefId,
    i: int,
    p: ParamDef,
) -> JsonV {
    JsonV::Object(
        with_flow(
            seq![
                mem("name"@, JsonV::Str(name_of(s.names, p.name))),
                mem("type"@, JsonV::Str(type_text(s, p.ty))),
                mem("mutable"@, JsonV::Bool(p.mutable)),
                mem("behavior"@, JsonV::Str(behavior_of(fact_of(facts, d, i)))),
            ],
            fact_of(facts, d, i),
            base_of(s, d),
        ),
    )
}

/// The name a module symbol bears, or `?`.
pub open spec fn symbol_text(s: SnapV, id: SymbolId) -> Seq<char> {
    match id {
        SymbolId::Module(i) => if i < s.scope.symbols.len() {
            name_of(s.names, s.scope.symbols[i as int].name)
        } else {
            "?"@
        },
        SymbolId::Local(_) => "?"@,
    }
}

/// A field as JSON.
pub open spec fn field_json(s: SnapV, f: FieldDef) -> JsonV {
    JsonV::Object(
        seq![
            mem("name"@, JsonV::Str(symbol_text(s, f.symbol))),
            mem("type"@, JsonV::Str(type_text(s, f.ty))),
        ],
    )
}

/// Types as JSON strings.
pub open spec fn types_json(s: SnapV, ts: Seq<TypeRef>) -> Seq<JsonV> {
    Seq::new(ts.len(), |i: int| JsonV::Str(type_text(s, ts[i])))
}

/// A variant as JSON.
pub open spec fn variant_json(s: SnapV, v: VariantDefV) -> JsonV {
    JsonV::Object(
        seq![
            mem("name"@, JsonV::Str(symbol_text(s, v.symbol))),
            mem("discriminant"@, JsonV::Uint(v.index as u64)),
            mem("payload"@, JsonV::Array(types_json(s, v.payload))),
        ],
    )
}

/// A function as JSON.
pub open spec fn fn_json(s: SnapV, facts: Seq<Seq<ParamFactsV>>, d: DefId, sig: FnSigV) -> JsonV {
    JsonV::Object(
        seq![
            mem("kind"@, JsonV::Str("fn"@)),
            mem("name"@, JsonV::Str(def_text(s.scope, s.names, d))),
            mem(
                "params"@,
                JsonV::Array(
                    Seq::new(
                        sig.params.len(),
                        |i: int| param_json(s, facts, d, i, sig.params[i]),
                    ),
                ),
            ),
            mem("returns"@, JsonV::Str(type_text(s, sig.ret))),
        ],
    )
}

/// A `data` as JSON.
pub open spec fn data_json(s: SnapV, d: DefId, shape: DataShapeV) -> JsonV {
    JsonV::Object(
        seq![
            mem("kind"@, JsonV::Str("data"@)),
            mem("name"@, JsonV::Str(def_text(s.scope, s.names, d))),
            mem("shape"@, JsonV::Str(shape_text(shape))),
            mem(
                "fields"@,
                JsonV::Array(
                    Seq::new(shape.fields.len(), |i: int| field_json(s, shape.fields[i])),
                ),
            ),
            mem(
                "variants"@,
                JsonV::Array(
                    Seq::new(shape.variants.len(), |i: int| variant_json(s, shape.variants[i])),
                ),
            ),
        ],
    )
}

/// A definition as JSON; `null` when there is none.
pub open spec fn def_json_of(s: SnapV, facts: Seq<Seq<ParamFactsV>>, d: DefId) -> JsonV {
    if d.raw < s.scope.defs.len() {
        match s.scope.defs[d.raw as int].kind {
            DefKindV::Function(sig) => fn_json(s, facts, d, sig),
            DefKindV::Data(shape) => data_json(s, d, shape),
        }
    } else {
        JsonV::Null
    }
}

impl Snapshot {
    pub(crate) fn symbol_name(&self, id: SymbolId) -> (r: &str)
        ensures
            r@ == symbol_text(self@, id),
    {
        match id {
            SymbolId::Module(i) => if i < self.scope.symbols.len() {
                self.interner.name_or_unknown(self.scope.symbols.get(id).name)
            } else {
                "?"
            },
            SymbolId::Local(_) => "?",
        }
    }

    fn params_json(&self, facts: &Vec<Vec<ParamFacts>>, d: DefId, sig: &FnSig) -> (r: Json)
        ensures
            r@ == JsonV::Array(
                Seq::new(
                    sig@.params.len(),
                    |i: int| param_json(self@, facts_view(facts@), d, i, sig@.params[i]),
                ),
            ),
    {
        let ghost all = Seq::new(
            sig@.params.len(),
            |i: int| param_json(self@, facts_view(facts@), d, i, sig@.params[i]),
        );
        let base = self.base(d);
        let mut out = no_items();
        let mut i: usize = 0;
        proof {
            assert(all.take(0) =~= Seq::empty());
        }
        while i < sig.params.len()
            invariant
                i <= sig.params@.len(),
                base == base_of(self@, d),
                all == Seq::new(
                    sig@.params.len(),
                    |j: int| param_json(self@, facts_view(facts@), d, j, sig@.params[j]),
                ),
                jsons(out@) == all.take(i as int),
            decreases sig.params@.len() - i,
        {
            let p = sig.params[i];
            let fact = find_fact(facts, d, i);
            let behavior = match fact {
                Some(f) => f.behavior.as_str(),
                None => "unknown",
            };
            let mut ms = no_members();
            put(&mut ms, "name", json_str(self.interner.name_or_unknown(p.name)));
            put(&mut ms, "type", json_str(self.ty_name(p.ty).as_str()));
            put(&mut ms, "mutable", Json::Bool(p.mutable));
            put(&mut ms, "behavior", json_str(behavior));
            proof {
                assert(members(ms@) =~= seq![
                    mem("name"@, JsonV::Str(name_of(self@.names, p.name))),
                    mem("type"@, JsonV::Str(type_text(self@, p.ty))),
                    mem("mutable"@, JsonV::Bool(p.mutable)),
                    mem(
                        "behavior"@,
                        JsonV::Str(behavior_of(fact_of(facts_view(facts@), d, i as int))),
                    ),
                ]);
            }
            put_flow(&mut ms, fact, base);
            put_item(&mut out, json_object(ms));
            i += 1;
            proof {
                assert(all.take(i as int) =~= all.take(i - 1).push(all[i - 1]));
            }
        }
        proof {
            assert(all.take(all.len() as int) =~= all);
        }
        json_array(out)
    }

    pub(crate) fn payload_json(&self, ts: &Vec<TypeRef>) -> (r: Json)
        ensures
            r@ == JsonV::Array(types_json(self@, ts@)),
    {
        let ghost all = types_json(self@, ts@);
        let mut out = no_items();
        let mut i: usize = 0;
        proof {
            assert(all.take(0) =~= Seq::empty());
        }
        while i < ts.len()
            invariant
                i <= ts@.len(),
                all == types_json(self@, ts@),
                jsons(out@) == all.take(i as int),
            decreases ts@.len() - i,
        {
            put_item(&mut out, json_str(self.ty_name(ts[i]).as_str()));
            i += 1;
            proof {
                assert(all.take(i as int) =~= all.take(i - 1).push(all[i - 1]));
            }
        }
        proof {
            assert(all.take(all.len() as int) =~= all);
        }
        json_array(out)
    }

    fn fields_json(&self, fs: &Vec<FieldDef>) -> (r: Json)
        ensures
            r@ == JsonV::Array(Seq::new(fs@.len(), |i: int| field_json(self@, fs@[i]))),
    {
        let ghost all = Seq::new(fs@.len(), |i: int| field_json(self@, fs@[i]));
        let mut out = no_items();
        let mut i: usize = 0;
        proof {
            assert(all.take(0) =~= Seq::empty());
        }
        while i < fs.len()
            invariant
                i <= fs@.len(),
                all == Seq::new(fs@.len(), |j: int| field_json(self@, fs@[j])),
                jsons(out@) == all.take(i as int),
            decreases fs@.len() - i,
        {
            let mut ms = no_members();
            put(&mut ms, "name", json_str(self.symbol_name(fs[i].symbol)));
            put(&mut ms, "type", json_str(self.ty_name(fs[i].ty).as_str()));
            proof {
                assert(members(ms@) =~= field_json(self@, fs@[i as int])->Object_0);
            }
            put_item(&mut out, json_object(ms));
            i += 1;
            proof {
                assert(all.take(i as int) =~= all.take(i - 1).push(all[i - 1]));
            }
        }
        proof {
            assert(all.take(all.len() as int) =~= all);
        }
        json_array(out)
    }

    fn variants_json(&self, vs: &Vec<VariantDef>) -> (r: Json)
        ensures
            r@ == JsonV::Array(
                Seq::new(
                    vs@.len(),
                    |i: int| variant_json(self@, crate::hir::variant_defs(vs@)[i]),
                ),
            ),
    {
        let ghost all = Seq::new(
            vs@.len(),
            |i: int| variant_json(self@, crate::hir::variant_defs(vs@)[i]),
        );
        let mut out = no_items();
        let mut i: usize = 0;
        proof {
            assert(all.take(0) =~= Seq::empty());
        }
        while i < vs.len()
            invariant
                i <= vs@.len(),
                all == Seq::new(
                    vs@.len(),
                    |j: int| variant_json(self@, crate::hir::variant_defs(vs@)[j]),
                ),
                jsons(out@) == all.take(i as int),
            decreases vs@.len() - i,
        {
            let v = &vs[i];
            let mut ms = no_members();
            put(&mut ms, "name", json_str(self.symbol_name(v.symbol)));
            put(&mut ms, "discriminant", Json::Uint(v.index as u64));
            put(&mut ms, "payload", self.payload_json(&v.payload));
            proof {
                assert(members(ms@) =~= variant_json(self@, v@)->Object_0);
            }
            put_item(&mut out, json_object(ms));
            i += 1;
            proof {
                assert(all.take(i as int) =~= all.take(i - 1).push(all[i - 1]));
            }
        }
        proof {
            assert(all.take(all.len() as int) =~= all);
        }
        json_array(out)
    }

    /// A definition as JSON.
    pub fn def_json(&self, facts: &Vec<Vec<ParamFacts>>, d: DefId) -> (r: Json)
        ensures
            r@ == def_json_of(self@, facts_view(facts@), d),
    {
        if d.raw >= self.scope.defs.len() {
            return Json::Null;
        }
        assert(self@.scope.defs[d.raw as int] == self.scope.defs@[d.raw as int]@);
        let mut ms = no_members();
        match &self.scope.defs[d.raw].kind {
            DefKind::Function(sig) => {
                put(&mut ms, "kind", json_str("fn"));
                put(&mut ms, "name", json_str(self.def_label(d)));
                put(&mut ms, "params", self.params_json(facts, d, sig));
                put(&mut ms, "returns", json_str(self.ty_name(sig.ret).as_str()));
                proof {
                    assert(members(ms@) =~= fn_json(
                        self@,
                        facts_view(facts@),
                        d,
                        sig@,
                    )->Object_0);
                }
            },
            DefKind::Data(shape) => {
                put(&mut ms, "kind", json_str("data"));
                put(&mut ms, "name", json_str(self.def_label(d)));
                put(&mut ms, "shape", json_str(shape.shape_name()));
                put(&mut ms, "fields", self.fields_json(&shape.fields));
                put(&mut ms, "variants", self.variants_json(&shape.variants));
                proof {
                    assert(crate::hir::variant_defs(shape.variants@).len()
                        == shape.variants@.len());
                    assert(members(ms@) =~= data_json(self@, d, shape@)->Object_0);
                }
            },
        }
        json_object(ms)
    }

    pub(crate) fn def_summaries(&self, facts: &Vec<Vec<ParamFacts>>) -> (r: Json)
        ensures
            r@ == JsonV::Array(summaries_of(self@, facts_view(facts@))),
    {
        let ghost all = summaries_of(self@, facts_view(facts@));
        let n: usize = self.scope.defs.len();
        let mut out = no_items();
        let mut i: usize = 0;
        proof {
            assert(self@.scope.defs.len() == n);
            assert(all.take(0) =~= Seq::empty());
        }
        while i < n
            invariant
                i <= n,
                n == self@.scope.defs.len(),
                all == summaries_of(self@, facts_view(facts@)),
                jsons(out@) == all.take(i as int),
            decreases n - i,
        {
            put_item(&mut out, self.def_json(facts, DefId { raw: i }));
            i += 1;
            proof {
                assert(all.take(i as int) =~= all.take(i - 1).push(all[i - 1]));
            }
        }
        proof {
            assert(all.take(all.len() as int) =~= all);
        }
        json_array(out)
    }
}

/// Every definition as JSON, in declaration order.
pub open spec fn summaries_of(s: SnapV, facts: Seq<Seq<ParamFactsV>>) -> Seq<JsonV> {
    Seq::new(s.scope.defs.len(), |i: int| def_json_of(s, facts, DefId { raw: i as usize }))
}

} // verus!
