//! What the name in an explain query selects: the one symbol that bears
//! it, or every one of several.

use crate::explain::{
    ambiguity, base_of, body_candidates, def_candidates, def_symbol, describe_of, local_candidates,
    member_candidates, resolved_of, type_text, with_labels, Candidate, ResolvedV,
};
use crate::explain_result::{
    checked_type, field_of, owner_variant, param_at, symbol_type, variant_of, LocalType,
};
use crate::hir::{
    builtin, elem_of, shape_of, sig_of, FieldDef, HirBodyV, ParamDef, SymbolKind, TypeRef,
    VariantDefV,
};
use crate::resolve_laws::law_builtin_types_by_word;
use crate::snapshot::SnapV;
use crate::source::{lookup, name_of, span_abs, DefId, SymbolId};
use crate::target::{candidates, module_file_spec, named_by_some, own_member};
use crate::target_laws::{law_split_at_first_colons, lemma_candidates, unqualified};
use vstd::prelude::*;

verus! {

// ---------- candidates ----------

/// A symbol is a field or a variant of its owner, and bears a name.
pub open spec fn member_named(s: SnapV, c: Candidate, name: Seq<char>) -> bool {
    &&& s.scope.symbols.contains(c.symbol)
    &&& c.symbol.kind == SymbolKind::Field || c.symbol.kind == SymbolKind::Variant
    &&& c.symbol.owner == Some(c.owner)
    &&& name_of(s.names, c.symbol.name) == name
}

/// A symbol is a parameter or a local of its owner's body, and bears a
/// name.
pub open spec fn local_named(s: SnapV, c: Candidate, name: Seq<char>) -> bool {
    exists|k: int|
        0 <= k < s.bodies.len() && (#[trigger] s.bodies[k] matches Some(b) && b.def == c.owner
            && b.local_symbols.contains(c.symbol)) && name_of(s.names, c.symbol.name) == name
}

proof fn lemma_members(s: SnapV, name: Seq<char>, k: int, c: Candidate)
    requires
        0 <= k <= s.scope.symbols.len(),
    ensures
        member_candidates(s, name, k).contains(c) <==> {
            &&& s.scope.symbols.take(k).contains(c.symbol)
            &&& c.symbol.kind == SymbolKind::Field || c.symbol.kind == SymbolKind::Variant
            &&& c.symbol.owner == Some(c.owner)
            &&& name_of(s.names, c.symbol.name) == name
        },
    decreases k,
{
    if k > 0 {
        lemma_members(s, name, k - 1, c);
        let front = member_candidates(s, name, k - 1);
        let x = s.scope.symbols[k - 1];
        assert(s.scope.symbols.take(k) =~= s.scope.symbols.take(k - 1).push(x));
        lemma_push(s.scope.symbols.take(k - 1), x, c.symbol);
        if x.owner is Some {
            lemma_push(front, Candidate { owner: x.owner->0, symbol: x }, c);
        }
    }
}

proof fn lemma_push<A>(v: Seq<A>, a: A, x: A)
    ensures
        v.push(a).contains(x) <==> v.contains(x) || x == a,
{
    let w = v.push(a);
    if v.contains(x) {
        let i = choose|i: int| 0 <= i < v.len() && v[i] == x;
        assert(w[i] == x);
    }
    assert(w[v.len() as int] == a);
}

proof fn lemma_join<A>(v: Seq<A>, w: Seq<A>, x: A)
    ensures
        (v + w).contains(x) <==> v.contains(x) || w.contains(x),
{
    let all = v + w;
    if v.contains(x) {
        let i = choose|i: int| 0 <= i < v.len() && v[i] == x;
        assert(all[i] == x);
    }
    if w.contains(x) {
        let i = choose|i: int| 0 <= i < w.len() && w[i] == x;
        assert(all[v.len() + i] == x);
    }
    if all.contains(x) {
        let i = choose|i: int| 0 <= i < all.len() && all[i] == x;
        if i < v.len() {
            assert(v[i] == x);
        } else {
            assert(w[i - v.len()] == x);
        }
    }
}

proof fn lemma_body(s: SnapV, b: HirBodyV, name: Seq<char>, k: int, c: Candidate)
    requires
        0 <= k <= b.local_symbols.len(),
    ensures
        body_candidates(s, b, name, k).contains(c) <==> {
            &&& b.local_symbols.take(k).contains(c.symbol)
            &&& b.def == c.owner
            &&& name_of(s.names, c.symbol.name) == name
        },
    decreases k,
{
    if k > 0 {
        lemma_body(s, b, name, k - 1, c);
        let x = b.local_symbols[k - 1];
        assert(b.local_symbols.take(k) =~= b.local_symbols.take(k - 1).push(x));
        lemma_push(b.local_symbols.take(k - 1), x, c.symbol);
        lemma_push(body_candidates(s, b, name, k - 1), Candidate { owner: b.def, symbol: x }, c);
    }
}

proof fn lemma_locals(s: SnapV, name: Seq<char>, k: int, c: Candidate)
    requires
        0 <= k <= s.bodies.len(),
    ensures
        local_candidates(s, name, k).contains(c) <==> exists|q: int|
            0 <= q < k && (#[trigger] s.bodies[q] matches Some(b) && b.def == c.owner
                && b.local_symbols.contains(c.symbol)) && name_of(s.names, c.symbol.name) == name,
    decreases k,
{
    if k > 0 {
        lemma_locals(s, name, k - 1, c);
        let front = local_candidates(s, name, k - 1);
        if let Some(b) = s.bodies[k - 1] {
            let n = b.local_symbols.len() as int;
            lemma_body(s, b, name, n, c);
            assert(b.local_symbols.take(n) =~= b.local_symbols);
            lemma_join(front, body_candidates(s, b, name, n), c);
        }
    }
}

proof fn lemma_found(s: SnapV, name: Seq<char>, c: Candidate)
    ensures
        (member_candidates(s, name, s.scope.symbols.len() as int) + local_candidates(
            s,
            name,
            s.bodies.len() as int,
        )).contains(c) <==> member_named(s, c, name) || local_named(s, c, name),
{
    let n = s.scope.symbols.len() as int;
    lemma_members(s, name, n, c);
    assert(s.scope.symbols.take(n) =~= s.scope.symbols);
    lemma_locals(s, name, s.bodies.len() as int, c);
    lemma_join(
        member_candidates(s, name, n),
        local_candidates(s, name, s.bodies.len() as int),
        c,
    );
}

proof fn lemma_defs(s: SnapV, ds: Seq<DefId>, k: int, i: int)
    requires
        0 <= i < k <= ds.len(),
        def_symbol(s, ds[i]) is Some,
    ensures
        def_candidates(s, ds, k).contains(
            Candidate { owner: ds[i], symbol: def_symbol(s, ds[i])->0 },
        ),
    decreases k,
{
    let c = Candidate { owner: ds[i], symbol: def_symbol(s, ds[i])->0 };
    let front = def_candidates(s, ds, k - 1);
    if i < k - 1 {
        lemma_defs(s, ds, k - 1, i);
    }
    if let Some(x) = def_symbol(s, ds[k - 1]) {
        lemma_push(front, Candidate { owner: ds[k - 1], symbol: x }, c);
    }
}

// ---------- resolution ----------

/// `m::x` selects the definition `x` of the file that provides `m`, and
/// nothing else.
pub proof fn law_qualified_name_selects(s: SnapV, m: Seq<char>, x: Seq<char>)
    requires
        unqualified(m),
        m.len() > 0 ==> m.last() != ':',
    ensures
        resolved_of(s, m + seq![':', ':'] + x) == match (
            module_file_spec(s.scope, s.names, m),
            lookup(s.names, x),
        ) {
            (Some(f), Some(id)) => match own_member(s.scope, f, id) {
                Some(d) => ResolvedV::Def(DefId { raw: d }),
                None => ResolvedV::Unknown,
            },
            _ => ResolvedV::Unknown,
        },
{
    law_split_at_first_colons(m, x);
}

/// A definition bears a name.
pub open spec fn def_named(s: SnapV, name: Seq<char>, d: int) -> bool {
    &&& 0 <= d < s.scope.defs.len()
    &&& lookup(s.names, name) matches Some(id) && named_by_some(s.scope, id, d)
}

/// A bare name selects the one definition that bears it, before any
/// field, variant, parameter or local; two definitions of the name are
/// both candidates.
pub proof fn law_definition_selected(s: SnapV, name: Seq<char>, d: int, e: int)
    requires
        unqualified(name),
        s.scope.defs.len() <= usize::MAX,
        def_named(s, name, d),
    ensures
        (forall|k: int| #[trigger] def_named(s, name, k) ==> k == d) ==> resolved_of(s, name)
            == ResolvedV::Def(DefId { raw: d as usize }),
        def_named(s, name, e) && e != d ==> (resolved_of(s, name) matches ResolvedV::Ambiguous(cs)
            && (def_symbol(s, DefId { raw: d as usize }) matches Some(x) ==> cs.contains(
            Candidate { owner: DefId { raw: d as usize }, symbol: x },
        ))),
{
    law_split_at_first_colons(Seq::empty(), name);
    let id = lookup(s.names, name)->0;
    let n = s.scope.defs.len() as int;
    let found = candidates(s.scope, id, n);
    lemma_candidates(s.scope, id, n, d);
    let i = choose|i: int| 0 <= i < found.len() && found[i] == DefId { raw: d as usize };
    if forall|k: int| #[trigger] def_named(s, name, k) ==> k == d {
        if found.len() >= 2 {
            assert(found[0].raw < found[1].raw);
            assert(def_named(s, name, found[0].raw as int));
            assert(def_named(s, name, found[1].raw as int));
        }
    }
    if def_named(s, name, e) && e != d {
        lemma_candidates(s.scope, id, n, e);
        let j = choose|j: int| 0 <= j < found.len() && found[j] == DefId { raw: e as usize };
        assert(i != j);
        assert(found.len() >= 2);
        if def_symbol(s, found[i]) is Some {
            lemma_defs(s, found, found.len() as int, i);
        }
    }
}

/// A bare name that no definition bears selects the field, variant,
/// parameter or local that bears it. The candidates of an ambiguous name
/// are exactly the symbols that bear it; a name is unknown only where
/// none does.
pub proof fn law_symbol_selected(s: SnapV, name: Seq<char>, c: Candidate)
    requires
        unqualified(name),
        s.scope.defs.len() <= usize::MAX,
        forall|k: int| !#[trigger] def_named(s, name, k),
    ensures
        match resolved_of(s, name) {
            ResolvedV::Def(_) => false,
            ResolvedV::Sym(o, x) => {
                let it = Candidate { owner: o, symbol: x };
                &&& member_named(s, it, name) || local_named(s, it, name)
                &&& member_named(s, c, name) || local_named(s, c, name) ==> c == it
            },
            ResolvedV::Ambiguous(cs) => cs.len() > 1 && (cs.contains(c) <==> member_named(
                s,
                c,
                name,
            ) || local_named(s, c, name)),
            ResolvedV::Unknown => !member_named(s, c, name) && !local_named(s, c, name),
        },
{
    law_split_at_first_colons(Seq::empty(), name);
    if let Some(id) = lookup(s.names, name) {
        let n = s.scope.defs.len() as int;
        let found = candidates(s.scope, id, n);
        lemma_candidates(s.scope, id, n, 0);
        if found.len() > 0 {
            assert(def_named(s, name, found[0].raw as int));
        }
    }
    let cands = member_candidates(s, name, s.scope.symbols.len() as int) + local_candidates(
        s,
        name,
        s.bodies.len() as int,
    );
    lemma_found(s, name, c);
    if cands.len() == 1 {
        assert(cands.contains(cands[0]));
        lemma_found(s, name, cands[0]);
        assert(cands[0] == Candidate { owner: cands[0].owner, symbol: cands[0].symbol });
    }
}

proof fn lemma_label(
    s: SnapV,
    d: crate::diagnostic::DiagnosticV,
    cs: Seq<Candidate>,
    k: int,
)
    requires
        0 <= k <= cs.len(),
    ensures
        with_labels(s, d, cs, k).labels.len() == d.labels.len() + k,
        forall|i: int|
            0 <= i < k ==> {
                let l = #[trigger] with_labels(s, d, cs, k).labels[d.labels.len() + i];
                &&& l.span == span_abs(cs[i].symbol.span, base_of(s, cs[i].owner))
                &&& l.message == describe_of(s, cs[i].symbol)
            },
    decreases k,
{
    if k > 0 {
        lemma_label(s, d, cs, k - 1);
        let before = with_labels(s, d, cs, k - 1);
        let now = with_labels(s, d, cs, k);
        assert forall|i: int| 0 <= i < k implies {
            let l = #[trigger] now.labels[d.labels.len() + i];
            &&& l.span == span_abs(cs[i].symbol.span, base_of(s, cs[i].owner))
            &&& l.message == describe_of(s, cs[i].symbol)
        } by {
            if i < k - 1 {
                assert(now.labels[d.labels.len() + i] == before.labels[d.labels.len() + i]);
            }
        }
    }
}

/// The report of an ambiguous name marks each candidate, one for one and
/// in order, at the place where it is declared.
pub proof fn law_ambiguity_marks_candidates(
    s: SnapV,
    name: Seq<char>,
    cs: Seq<Candidate>,
    i: int,
)
    requires
        0 <= i < cs.len(),
    ensures
        ambiguity(s, name, cs).labels.len() == cs.len(),
        ambiguity(s, name, cs).labels[i].span == span_abs(
            cs[i].symbol.span,
            base_of(s, cs[i].owner),
        ),
        ambiguity(s, name, cs).labels[i].message == describe_of(s, cs[i].symbol),
{
    let d = crate::diagnostic::error_of(
        crate::code::Code::AmbiguousSymbol,
        "`"@ + name + "` is ambiguous: "@ + crate::text::dec(cs.len()) + " candidates"@,
    ).with_subject(name);
    lemma_label(s, d, cs, cs.len() as int);
    let l = with_labels(s, d, cs, cs.len() as int).labels[d.labels.len() + i];
}

// ---------- types ----------

/// A builtin type is shown by the word that stands for it; an array
/// between brackets, as its element is shown.
pub proof fn law_type_shown_as_written(s: SnapV, name: Seq<char>, t: TypeRef)
    ensures
        builtin(name) == Some(t) ==> type_text(s, t) == name,
        elem_of(t) matches Some(e) ==> type_text(s, TypeRef::Array { elem: e }) == "["@ + type_text(
            s,
            t,
        ) + "]"@,
{
    law_builtin_types_by_word(name, t);
}

proof fn lemma_param(ps: Seq<ParamDef>, id: SymbolId, from: int)
    requires
        0 <= from,
    ensures
        match param_at(ps, id, from) {
            Some(i) => from <= i < ps.len() && ps[i].symbol == id,
            None => forall|i: int| from <= i < ps.len() ==> (#[trigger] ps[i]).symbol != id,
        },
    decreases ps.len() - from,
{
    if from < ps.len() && ps[from].symbol != id {
        lemma_param(ps, id, from + 1);
    }
}

proof fn lemma_field(fs: Seq<FieldDef>, id: SymbolId, from: int)
    requires
        0 <= from,
    ensures
        match field_of(fs, id, from) {
            Some(f) => exists|i: int| from <= i < fs.len() && #[trigger] fs[i] == f && f.symbol == id,
            None => forall|i: int| from <= i < fs.len() ==> (#[trigger] fs[i]).symbol != id,
        },
    decreases fs.len() - from,
{
    if from < fs.len() {
        if fs[from].symbol == id {
            assert(fs[from] == field_of(fs, id, from)->0);
        } else {
            lemma_field(fs, id, from + 1);
        }
    }
}

proof fn lemma_variant(vs: Seq<VariantDefV>, id: SymbolId, from: int)
    requires
        0 <= from,
    ensures
        variant_of(vs, id, from) is Some <==> exists|i: int|
            from <= i < vs.len() && (#[trigger] vs[i]).symbol == id,
    decreases vs.len() - from,
{
    if from < vs.len() && vs[from].symbol != id {
        lemma_variant(vs, id, from + 1);
    }
}

proof fn lemma_checked(ls: Seq<LocalType>, owner: DefId, id: SymbolId, k: int)
    requires
        0 <= k <= ls.len(),
    ensures
        match checked_type(ls, owner, id, k) {
            Some(t) => exists|i: int|
                0 <= i < k && (#[trigger] ls[i]).owner == owner && ls[i].symbol == id && ls[i].ty
                    == t,
            None => forall|i: int|
                0 <= i < k && (#[trigger] ls[i]).owner == owner ==> ls[i].symbol != id,
        },
    decreases k,
{
    if k > 0 {
        lemma_checked(ls, owner, id, k - 1);
    }
}

/// The type of a symbol: a variant's is the `data` that it is a variant
/// of. Another symbol's is the one that was checked for it in its owner;
/// where none was, the declared one of the parameter or field that it is.
pub proof fn law_type_of_symbol(s: SnapV, ls: Seq<LocalType>, owner: DefId, id: SymbolId, i: int)
    ensures
        shape_of(s.scope, owner) is Some && 0 <= i < shape_of(s.scope, owner)->0.variants.len()
            && shape_of(s.scope, owner)->0.variants[i].symbol == id ==> symbol_type(s, ls, owner, id) == Some(
            TypeRef::Struct(owner),
        ),
        owner_variant(s, owner, id) is None && 0 <= i < ls.len() && ls[i].owner == owner
            && ls[i].symbol == id && (forall|j: int|
            0 <= j < ls.len() && (#[trigger] ls[j]).owner == owner && ls[j].symbol == id
                ==> ls[j].ty == ls[i].ty) ==> symbol_type(s, ls, owner, id) == Some(ls[i].ty),
        owner_variant(s, owner, id) is None && (forall|j: int|
            0 <= j < ls.len() && (#[trigger] ls[j]).owner == owner ==> ls[j].symbol != id) ==> {
            match (sig_of(s.scope, owner), shape_of(s.scope, owner)) {
                (Some(sig), _) => 0 <= i < sig.params.len() && sig.params[i].symbol == id && (
                forall|j: int|
                    0 <= j < sig.params.len() && (#[trigger] sig.params[j]).symbol == id ==> j == i)
                    ==> symbol_type(s, ls, owner, id) == Some(sig.params[i].ty),
                (None, Some(shape)) => 0 <= i < shape.fields.len() && shape.fields[i].symbol == id
                    && (forall|j: int|
                    0 <= j < shape.fields.len() && (#[trigger] shape.fields[j]).symbol == id ==> j
                        == i) ==> symbol_type(s, ls, owner, id) == Some(shape.fields[i].ty),
                (None, None) => symbol_type(s, ls, owner, id) is None,
            }
        },
{
    lemma_checked(ls, owner, id, ls.len() as int);
    if let Some(shape) = shape_of(s.scope, owner) {
        lemma_variant(shape.variants, id, 0);
        lemma_field(shape.fields, id, 0);
    }
    if let Some(sig) = sig_of(s.scope, owner) {
        lemma_param(sig.params, id, 0);
    }
}

} // verus!
