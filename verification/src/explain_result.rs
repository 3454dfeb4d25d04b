//! The explain query: from a symbol's name to what it is.

use crate::code::Code;
use crate::diagnostic::{error_of, Diagnostic, DiagnosticV};
use crate::explain::{
    ambiguity, base_of, behavior_of, def_json_of, fact_of, facts_view, find_fact, kind_str,
    kind_text, put_flow, resolved_of, summaries_of, type_text, types_json, with_flow, ParamFacts,
    ParamFactsV, Resolved, ResolvedV,
};
use crate::hir::{
    def_text, shape_of, sig_of, variant_defs, FieldDef, ParamDef, Symbol, TypeRef, VariantDef,
    VariantDefV,
};
use crate::json::{
    json_object, json_str, mem, members, no_members, put, Json, JsonV, Member, MemberV,
};
use crate::render::{span_mems, span_object};
use crate::snapshot::{SnapV, Snapshot};
use crate::source::{name_of, span_abs, DefId, SymbolId};
use crate::text::cat3;
use vstd::prelude::*;

verus! {

/// The checked type of a body's symbol.
#[derive(Clone, Copy, Debug, PartialEq, Eq, Structural)]
pub struct LocalType {
    /// The body's definition.
    pub owner: DefId,
    /// The symbol.
    pub symbol: SymbolId,
    /// Its type.
    pub ty: TypeRef,
}

/// The checked type of a symbol among the first `k` known ones.
pub open spec fn checked_type(ls: Seq<LocalType>, owner: DefId, id: SymbolId, k: int) -> Option<
    TypeRef,
>
    decreases k,
{
    if k <= 0 {
        None
    } else if ls[k - 1].owner == owner && ls[k - 1].symbol == id {
        Some(ls[k - 1].ty)
    } else {
        checked_type(ls, owner, id, k - 1)
    }
}

fn find_checked(ls: &Vec<LocalType>, owner: DefId, id: SymbolId) -> (r: Option<TypeRef>)
    ensures
        r == checked_type(ls@, owner, id, ls@.len() as int),
{
    let mut found: Option<TypeRef> = None;
    let mut i: usize = 0;
    while i < ls.len()
        invariant
            i <= ls@.len(),
            found == checked_type(ls@, owner, id, i as int),
        decreases ls@.len() - i,
    {
        if ls[i].owner == owner && ls[i].symbol == id {
            found = Some(ls[i].ty);
        }
        i += 1;
    }
    found
}

/// The first parameter from `i` on that is symbol `id`.
pub open spec fn param_at(ps: Seq<ParamDef>, id: SymbolId, i: int) -> Option<int>
    decreases ps.len() - i,
{
    if i < 0 || i >= ps.len() {
        None
    } else if ps[i].symbol == id {
        Some(i)
    } else {
        param_at(ps, id, i + 1)
    }
}

fn find_param(ps: &Vec<ParamDef>, id: SymbolId) -> (r: Option<usize>)
    ensures
        match r {
            Some(i) => i < ps@.len() && param_at(ps@, id, 0) == Some(i as int),
            None => param_at(ps@, id, 0) is None,
        },
{
    let mut i: usize = 0;
    while i < ps.len()
        invariant
            i <= ps@.len(),
            param_at(ps@, id, 0) == param_at(ps@, id, i as int),
        decreases ps@.len() - i,
    {
        if ps[i].symbol == id {
            return Some(i);
        }
        i += 1;
    }
    None
}

/// The first field from `i` on that is symbol `id`.
pub open spec fn field_of(fs: Seq<FieldDef>, id: SymbolId, i: int) -> Option<FieldDef>
    decreases fs.len() - i,
{
    if i < 0 || i >= fs.len() {
        None
    } else if fs[i].symbol == id {
        Some(fs[i])
    } else {
        field_of(fs, id, i + 1)
    }
}

fn find_field(fs: &Vec<FieldDef>, id: SymbolId) -> (r: Option<FieldDef>)
    ensures
        r == field_of(fs@, id, 0),
{
    let mut i: usize = 0;
    while i < fs.len()
        invariant
            i <= fs@.len(),
            field_of(fs@, id, 0) == field_of(fs@, id, i as int),
        decreases fs@.len() - i,
    {
        if fs[i].symbol == id {
            return Some(fs[i]);
        }
        i += 1;
    }
    None
}

/// The first variant from `i` on that is symbol `id`.
pub open spec fn variant_of(vs: Seq<VariantDefV>, id: SymbolId, i: int) -> Option<VariantDefV>
    decreases vs.len() - i,
{
    if i < 0 || i >= vs.len() {
        None
    } else if vs[i].symbol == id {
        Some(vs[i])
    } else {
        variant_of(vs, id, i + 1)
    }
}

fn find_variant(vs: &Vec<VariantDef>, id: SymbolId) -> (r: Option<&VariantDef>)
    ensures
        (match r {
            Some(v) => Some(v@),
            None => None,
        }) == variant_of(variant_defs(vs@), id, 0),
{
    let ghost all = variant_defs(vs@);
    let mut i: usize = 0;
    while i < vs.len()
        invariant
            i <= vs@.len(),
            all == variant_defs(vs@),
            variant_of(all, id, 0) == variant_of(all, id, i as int),
        decreases vs@.len() - i,
    {
        assert(all[i as int] == vs@[i as int]@);
        if vs[i].symbol == id {
            return Some(&vs[i]);
        }
        i += 1;
    }
    None
}

/// The position of a symbol among its owner's parameters.
pub open spec fn param_index(s: SnapV, owner: DefId, id: SymbolId) -> Option<int> {
    match sig_of(s.scope, owner) {
        Some(sig) => param_at(sig.params, id, 0),
        None => None,
    }
}

/// The variant of its owner that a symbol is.
pub open spec fn owner_variant(s: SnapV, owner: DefId, id: SymbolId) -> Option<VariantDefV> {
    match shape_of(s.scope, owner) {
        Some(shape) => variant_of(shape.variants, id, 0),
        None => None,
    }
}

/// A symbol's type: a variant's is its enum, another's the checked type,
/// or else the declared one.
pub open spec fn symbol_type(s: SnapV, ls: Seq<LocalType>, owner: DefId, id: SymbolId) -> Option<
    TypeRef,
> {
    if owner_variant(s, owner, id) is Some {
        Some(TypeRef::Struct(owner))
    } else {
        match checked_type(ls, owner, id, ls.len() as int) {
            Some(t) => Some(t),
            None => match (sig_of(s.scope, owner), shape_of(s.scope, owner)) {
                (Some(sig), _) => match param_at(sig.params, id, 0) {
                    Some(i) => Some(sig.params[i].ty),
                    None => None,
                },
                (None, Some(shape)) => match field_of(shape.fields, id, 0) {
                    Some(f) => Some(f.ty),
                    None => None,
                },
                (None, None) => None,
            },
        }
    }
}

/// What every explained symbol says of itself.
pub open spec fn symbol_head(s: SnapV, owner: DefId, x: Symbol) -> Seq<MemberV> {
    seq![
        mem("kind"@, JsonV::Str(kind_text(x.kind))),
        mem("name"@, JsonV::Str(name_of(s.names, x.name))),
        mem("mutable"@, JsonV::Bool(x.mutable)),
        mem("owner"@, JsonV::Str(def_text(s.scope, s.names, owner))),
        mem("span"@, JsonV::Object(span_mems(span_abs(x.span, base_of(s, owner))))),
    ]
}

/// Members with the symbol's type, where it has one.
pub open spec fn with_type(s: SnapV, ms: Seq<MemberV>, t: Option<TypeRef>) -> Seq<MemberV> {
    match t {
        Some(t) => ms.push(mem("type"@, JsonV::Str(type_text(s, t)))),
        None => ms,
    }
}

/// Members with what ownership inference says of a parameter.
pub open spec fn with_behavior(
    s: SnapV,
    ms: Seq<MemberV>,
    facts: Seq<Seq<ParamFactsV>>,
    owner: DefId,
    i: Option<int>,
) -> Seq<MemberV> {
    match i {
        Some(i) => with_flow(
            ms.push(mem("behavior"@, JsonV::Str(behavior_of(fact_of(facts, owner, i))))),
            fact_of(facts, owner, i),
            base_of(s, owner),
        ),
        None => ms,
    }
}

/// Members with a variant's discriminant and constructor arguments.
pub open spec fn with_variant(s: SnapV, ms: Seq<MemberV>, v: Option<VariantDefV>) -> Seq<MemberV> {
    match v {
        Some(v) => ms.push(mem("discriminant"@, JsonV::Uint(v.index as u64))).push(
            mem("payload"@, JsonV::Array(types_json(s, v.payload))),
        ),
        None => ms,
    }
}

/// A parameter, local, field or variant as JSON.
pub open spec fn symbol_json_of(
    s: SnapV,
    facts: Seq<Seq<ParamFactsV>>,
    ls: Seq<LocalType>,
    owner: DefId,
    x: Symbol,
) -> JsonV {
    let a = with_type(s, symbol_head(s, owner, x), symbol_type(s, ls, owner, x.id));
    let b = with_behavior(s, a, facts, owner, param_index(s, owner, x.id));
    JsonV::Object(with_variant(s, b, owner_variant(s, owner, x.id)))
}

/// What an explain query answers: the result, and a diagnostic when the
/// name does not select one symbol.
pub open spec fn explained(
    s: SnapV,
    facts: Seq<Seq<ParamFactsV>>,
    ls: Seq<LocalType>,
    symbol: Option<Seq<char>>,
    file: Seq<char>,
) -> (JsonV, Option<DiagnosticV>) {
    match symbol {
        None => (
            JsonV::Object(
                seq![
                    mem("file"@, JsonV::Str(file)),
                    mem("defs"@, JsonV::Array(summaries_of(s, facts))),
                ],
            ),
            None,
        ),
        Some(name) => match resolved_of(s, name) {
            ResolvedV::Def(d) => (
                JsonV::Object(seq![mem("symbol"@, def_json_of(s, facts, d))]),
                None,
            ),
            ResolvedV::Sym(d, x) => (
                JsonV::Object(seq![mem("symbol"@, symbol_json_of(s, facts, ls, d, x))]),
                None,
            ),
            ResolvedV::Ambiguous(cs) => (JsonV::Null, Some(ambiguity(s, name, cs))),
            ResolvedV::Unknown => (
                JsonV::Null,
                Some(
                    error_of(
                        Code::UnknownSymbol,
                        "no symbol named `"@ + name + "`"@,
                    ).with_subject(name),
                ),
            ),
        },
    }
}

impl Snapshot {
    fn type_of_symbol(&self, ls: &Vec<LocalType>, owner: DefId, id: SymbolId) -> (r: Option<
        TypeRef,
    >)
        requires
            owner_variant(self@, owner, id) is None,
        ensures
            r == symbol_type(self@, ls@, owner, id),
    {
        if let Some(t) = find_checked(ls, owner, id) {
            return Some(t);
        }
        if let Some(sig) = self.scope.fn_sig(owner) {
            return match find_param(&sig.params, id) {
                Some(i) => Some(sig.params[i].ty),
                None => None,
            };
        }
        if let Some(shape) = self.scope.data_shape(owner) {
            return match find_field(&shape.fields, id) {
                Some(f) => Some(f.ty),
                None => None,
            };
        }
        None
    }

    fn position_of(&self, owner: DefId, id: SymbolId) -> (r: Option<usize>)
        ensures
            (match r {
                Some(i) => Some(i as int),
                None => None,
            }) == param_index(self@, owner, id),
    {
        match self.scope.fn_sig(owner) {
            Some(sig) => find_param(&sig.params, id),
            None => None,
        }
    }

    fn variant_of_owner(&self, owner: DefId, id: SymbolId) -> (r: Option<&VariantDef>)
        ensures
            (match r {
                Some(v) => Some(v@),
                None => None,
            }) == owner_variant(self@, owner, id),
    {
        match self.scope.data_shape(owner) {
            Some(shape) => find_variant(&shape.variants, id),
            None => None,
        }
    }

    fn put_behavior(
        &self,
        ms: &mut Vec<Member>,
        facts: &Vec<Vec<ParamFacts>>,
        owner: DefId,
        i: Option<usize>,
    )
        ensures
            members(final(ms)@) == with_behavior(
                self@,
                members(old(ms)@),
                facts_view(facts@),
                owner,
                match i {
                    Some(i) => Some(i as int),
                    None => None,
                },
            ),
    {
        if let Some(i) = i {
            let fact = find_fact(facts, owner, i);
            let behavior = match fact {
                Some(f) => f.behavior.as_str(),
                None => "unknown",
            };
            put(ms, "behavior", json_str(behavior));
            put_flow(ms, fact, self.base(owner));
        }
    }

    /// A parameter, local, field or variant as JSON.
    pub fn sym_json(
        &self,
        facts: &Vec<Vec<ParamFacts>>,
        ls: &Vec<LocalType>,
        owner: DefId,
        x: &Symbol,
    ) -> (r: Json)
        ensures
            r@ == symbol_json_of(self@, facts_view(facts@), ls@, owner, *x),
    {
        let mut ms = no_members();
        put(&mut ms, "kind", json_str(kind_str(x.kind)));
        put(&mut ms, "name", json_str(self.interner.name_or_unknown(x.name)));
        put(&mut ms, "mutable", Json::Bool(x.mutable));
        put(&mut ms, "owner", json_str(self.def_label(owner)));
        put(&mut ms, "span", span_object(x.span.abs(self.base(owner))));
        proof {
            assert(members(ms@) =~= symbol_head(self@, owner, *x));
        }
        let variant = self.variant_of_owner(owner, x.id);
        let ty = if variant.is_some() {
            Some(TypeRef::Struct(owner))
        } else {
            self.type_of_symbol(ls, owner, x.id)
        };
        if let Some(t) = ty {
            put(&mut ms, "type", json_str(self.ty_name(t).as_str()));
        }
        let i = self.position_of(owner, x.id);
        self.put_behavior(&mut ms, facts, owner, i);
        if let Some(v) = variant {
            put(&mut ms, "discriminant", Json::Uint(v.index as u64));
            put(&mut ms, "payload", self.payload_json(&v.payload));
        }
        json_object(ms)
    }

    /// The explain query: the result and, when the name does not select
    /// one symbol, the diagnostic that says so.
    pub fn explain_result(
        &self,
        facts: &Vec<Vec<ParamFacts>>,
        ls: &Vec<LocalType>,
        symbol: Option<&str>,
        file: &str,
    ) -> (r: (Json, Option<Diagnostic>))
        ensures
            (r.0@, match r.1 {
                Some(d) => Some(d@),
                None => None,
            }) == explained(
                self@,
                facts_view(facts@),
                ls@,
                match symbol {
                    Some(n) => Some(n@),
                    None => None,
                },
                file@,
            ),
    {
        let mut ms = no_members();
        match symbol {
            None => {
                put(&mut ms, "file", json_str(file));
                put(&mut ms, "defs", self.def_summaries(facts));
                proof {
                    assert(members(ms@) =~= seq![
                        mem("file"@, JsonV::Str(file@)),
                        mem("defs"@, JsonV::Array(summaries_of(self@, facts_view(facts@)))),
                    ]);
                }
                (json_object(ms), None)
            },
            Some(name) => match self.resolve_symbol(name) {
                Resolved::Def(d) => {
                    put(&mut ms, "symbol", self.def_json(facts, d));
                    proof {
                        assert(members(ms@) =~= seq![
                            mem("symbol"@, def_json_of(self@, facts_view(facts@), d)),
                        ]);
                    }
                    (json_object(ms), None)
                },
                Resolved::Sym(d, x) => {
                    put(&mut ms, "symbol", self.sym_json(facts, ls, d, &x));
                    proof {
                        assert(members(ms@) =~= seq![
                            mem(
                                "symbol"@,
                                symbol_json_of(self@, facts_view(facts@), ls@, d, x),
                            ),
                        ]);
                    }
                    (json_object(ms), None)
                },
                Resolved::Ambiguous(cs) => (Json::Null, Some(self.ambiguous(name, &cs))),
                Resolved::Unknown => {
                    let d = Diagnostic::error(
                        Code::UnknownSymbol,
                        cat3("no symbol named `", name, "`"),
                    ).subject(name.to_string());
                    (Json::Null, Some(d))
                },
            },
        }
    }
}

/// A query answers with a symbol exactly when it reports nothing.
pub proof fn law_symbol_or_diagnostic(
    s: SnapV,
    facts: Seq<Seq<ParamFactsV>>,
    ls: Seq<LocalType>,
    name: Seq<char>,
    file: Seq<char>,
)
    ensures
        ({
            let (j, d) = explained(s, facts, ls, Some(name), file);
            &&& j is Null <==> d is Some
            &&& d is Some ==> d->0.subject == Some(name)
        }),
{
    if let ResolvedV::Ambiguous(cs) = resolved_of(s, name) {
        let d0 = error_of(
            Code::AmbiguousSymbol,
            "`"@ + name + "` is ambiguous: "@ + crate::text::dec(cs.len()) + " candidates"@,
        ).with_subject(name);
        lemma_labels_keep_subject(s, d0, cs, cs.len() as int);
    }
}

proof fn lemma_labels_keep_subject(
    s: SnapV,
    d: DiagnosticV,
    cs: Seq<crate::explain::Candidate>,
    k: int,
)
    ensures
        crate::explain::with_labels(s, d, cs, k).subject == d.subject,
    decreases k,
{
    if k > 0 {
        lemma_labels_keep_subject(s, d, cs, k - 1);
    }
}

} // verus!
