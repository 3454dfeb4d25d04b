//! What an explain document tells: each parameter, field and variant
//! stands in it at its own position, with its own facts.

use crate::explain::{
    base_of, def_json_of, kind_text, symbol_text, type_text, EvidenceV, ParamFactsV,
};
use crate::explain_result::{
    explained, param_at, symbol_head, symbol_json_of, symbol_type, with_type, LocalType,
};
use crate::hir::{def_text, sig_of, ParamDef, Symbol};
use crate::json::{at_key, member, JsonV, MemberV};
use crate::snapshot::SnapV;
use crate::source::{name_of, span_abs, DefId, Span, SymbolId};
use vstd::prelude::*;
use vstd::string::*;

verus! {

/// What an array holds at a position; `null` when it holds nothing there.
pub open spec fn item_at(v: JsonV, i: int) -> JsonV {
    match v {
        JsonV::Array(xs) => if 0 <= i < xs.len() {
            xs[i]
        } else {
            JsonV::Null
        },
        _ => JsonV::Null,
    }
}

/// How many values an array holds.
pub open spec fn size_of_array(v: JsonV) -> nat {
    match v {
        JsonV::Array(xs) => xs.len(),
        _ => 0,
    }
}

/// A value is a list of the given texts, in order; `null` stands for no
/// text.
pub open spec fn lists_texts(v: JsonV, ts: Seq<Seq<char>>) -> bool {
    if ts.len() == 0 {
        v == JsonV::Null
    } else {
        &&& size_of_array(v) == ts.len()
        &&& forall|k: int|
            0 <= k < ts.len() ==> #[trigger] item_at(v, k) == JsonV::Str(ts[k])
    }
}

/// A value names a span by its two offsets.
pub open spec fn shows_span(v: JsonV, at: Span) -> bool {
    &&& at_key(v, "start"@) == JsonV::Uint(at.start as u64)
    &&& at_key(v, "end"@) == JsonV::Uint(at.end as u64)
}

/// A value is one piece of evidence, its span counted from `base`.
pub open spec fn shows_evidence(v: JsonV, e: EvidenceV, base: u32) -> bool {
    &&& at_key(v, "kind"@) == JsonV::Str(e.kind)
    &&& shows_span(at_key(v, "span"@), span_abs(e.at, base))
}

/// A value is a list of the given evidence, in order; `null` stands for
/// none.
pub open spec fn lists_evidence(v: JsonV, es: Seq<EvidenceV>, base: u32) -> bool {
    if es.len() == 0 {
        v == JsonV::Null
    } else {
        &&& size_of_array(v) == es.len()
        &&& forall|k: int|
            0 <= k < es.len() ==> shows_evidence(#[trigger] item_at(v, k), es[k], base)
    }
}

/// An object tells the facts of a parameter.
pub open spec fn tells(v: JsonV, f: ParamFactsV, base: u32) -> bool {
    &&& at_key(v, "behavior"@) == JsonV::Str(f.behavior)
    &&& lists_texts(at_key(v, "escapes"@), f.escapes)
    &&& lists_evidence(at_key(v, "evidence"@), f.evidence, base)
}

/// An object that tells nothing inferred of a parameter.
pub open spec fn tells_nothing(v: JsonV) -> bool {
    &&& at_key(v, "behavior"@) == JsonV::Str("unknown"@)
    &&& at_key(v, "escapes"@) == JsonV::Null
    &&& at_key(v, "evidence"@) == JsonV::Null
}

pub(crate) proof fn lemma_member_at(ms: Seq<MemberV>, i: int, key: Seq<char>)
    requires
        0 <= i < ms.len(),
        ms[i].key == key,
        forall|j: int| 0 <= j < i ==> (#[trigger] ms[j]).key != key,
    ensures
        member(ms, key) == Some(ms[i].value),
    decreases ms.len(),
{
    if i > 0 {
        let rest = ms.subrange(1, ms.len() as int);
        assert(ms[0].key != key);
        assert forall|j: int| 0 <= j < i - 1 implies (#[trigger] rest[j]).key != key by {
            assert(rest[j] == ms[j + 1]);
        }
        lemma_member_at(rest, i - 1, key);
    }
}

pub(crate) proof fn lemma_no_member(ms: Seq<MemberV>, key: Seq<char>)
    requires
        forall|j: int| 0 <= j < ms.len() ==> (#[trigger] ms[j]).key != key,
    ensures
        member(ms, key) is None,
    decreases ms.len(),
{
    if ms.len() > 0 {
        let rest = ms.subrange(1, ms.len() as int);
        assert(ms[0].key != key);
        assert forall|j: int| 0 <= j < rest.len() implies (#[trigger] rest[j]).key != key by {
            assert(rest[j] == ms[j + 1]);
        }
        lemma_no_member(rest, key);
    }
}

/// No two members bear the same key.
pub open spec fn keys_apart(ms: Seq<MemberV>) -> bool {
    forall|i: int, j: int|
        0 <= i < j < ms.len() ==> (#[trigger] ms[i]).key != (#[trigger] ms[j]).key
}

pub(crate) proof fn lemma_apart(ms: Seq<MemberV>, i: int)
    requires
        keys_apart(ms),
        0 <= i < ms.len(),
    ensures
        at_key(JsonV::Object(ms), ms[i].key) == ms[i].value,
{
    lemma_member_at(ms, i, ms[i].key);
}

proof fn lemma_param_keys()
    ensures
        "name"@ != "type"@,
        "name"@ != "mutable"@,
        "name"@ != "behavior"@,
        "name"@ != "escapes"@,
        "name"@ != "evidence"@,
        "type"@ != "mutable"@,
        "type"@ != "behavior"@,
        "type"@ != "escapes"@,
        "type"@ != "evidence"@,
        "mutable"@ != "behavior"@,
        "mutable"@ != "escapes"@,
        "mutable"@ != "evidence"@,
        "behavior"@ != "escapes"@,
        "behavior"@ != "evidence"@,
        "escapes"@ != "evidence"@,
{
    reveal_strlit("name");
    reveal_strlit("type");
    reveal_strlit("mutable");
    reveal_strlit("behavior");
    reveal_strlit("escapes");
    reveal_strlit("evidence");
    assert("name"@[0] != "type"@[0]);
    assert("name"@.len() != "mutable"@.len());
    assert("name"@.len() != "behavior"@.len());
    assert("name"@.len() != "escapes"@.len());
    assert("name"@.len() != "evidence"@.len());
    assert("type"@.len() != "mutable"@.len());
    assert("type"@.len() != "behavior"@.len());
    assert("type"@.len() != "escapes"@.len());
    assert("type"@.len() != "evidence"@.len());
    assert("mutable"@.len() != "behavior"@.len());
    assert("mutable"@[0] != "escapes"@[0]);
    assert("mutable"@.len() != "evidence"@.len());
    assert("behavior"@.len() != "escapes"@.len());
    assert("behavior"@[0] != "evidence"@[0]);
    assert("escapes"@.len() != "evidence"@.len());
}

proof fn lemma_def_keys()
    ensures
        "kind"@ != "name"@,
        "kind"@ != "params"@,
        "kind"@ != "returns"@,
        "kind"@ != "shape"@,
        "kind"@ != "fields"@,
        "kind"@ != "variants"@,
        "kind"@ != "span"@,
        "name"@ != "params"@,
        "name"@ != "returns"@,
        "name"@ != "shape"@,
        "name"@ != "fields"@,
        "name"@ != "variants"@,
        "params"@ != "returns"@,
        "shape"@ != "fields"@,
        "shape"@ != "variants"@,
        "fields"@ != "variants"@,
        "start"@ != "end"@,
        "name"@ != "discriminant"@,
        "name"@ != "payload"@,
        "discriminant"@ != "payload"@,
        "file"@ != "defs"@,
{
    reveal_strlit("kind");
    reveal_strlit("name");
    reveal_strlit("params");
    reveal_strlit("returns");
    reveal_strlit("shape");
    reveal_strlit("fields");
    reveal_strlit("variants");
    reveal_strlit("start");
    reveal_strlit("end");
    reveal_strlit("span");
    reveal_strlit("discriminant");
    reveal_strlit("payload");
    reveal_strlit("file");
    reveal_strlit("defs");
    assert("kind"@[0] != "name"@[0]);
    assert("kind"@.len() != "params"@.len());
    assert("kind"@.len() != "returns"@.len());
    assert("kind"@.len() != "shape"@.len());
    assert("kind"@.len() != "fields"@.len());
    assert("kind"@.len() != "variants"@.len());
    assert("kind"@[0] != "span"@[0]);
    assert("name"@.len() != "params"@.len());
    assert("name"@.len() != "returns"@.len());
    assert("name"@.len() != "shape"@.len());
    assert("name"@.len() != "fields"@.len());
    assert("name"@.len() != "variants"@.len());
    assert("params"@.len() != "returns"@.len());
    assert("shape"@.len() != "fields"@.len());
    assert("shape"@.len() != "variants"@.len());
    assert("fields"@.len() != "variants"@.len());
    assert("start"@.len() != "end"@.len());
    assert("name"@.len() != "discriminant"@.len());
    assert("name"@.len() != "payload"@.len());
    assert("discriminant"@.len() != "payload"@.len());
    assert("file"@[0] != "defs"@[0]);
}

proof fn lemma_evidence(es: Seq<EvidenceV>, base: u32)
    requires
        es.len() > 0,
    ensures
        lists_evidence(crate::explain::evidence_json_of(es, base), es, base),
{
    lemma_def_keys();
    let v = crate::explain::evidence_json_of(es, base);
    assert forall|k: int| 0 <= k < es.len() implies shows_evidence(
        #[trigger] item_at(v, k),
        es[k],
        base,
    ) by {
        let ms = item_at(v, k)->Object_0;
        assert(keys_apart(ms));
        lemma_apart(ms, 0);
        lemma_apart(ms, 1);
        let sp = ms[1].value->Object_0;
        assert(keys_apart(sp));
        lemma_apart(sp, 0);
        lemma_apart(sp, 1);
    }
}

proof fn lemma_texts(ts: Seq<Seq<char>>)
    requires
        ts.len() > 0,
    ensures
        lists_texts(JsonV::Array(crate::json::str_items(ts)), ts),
{
}

proof fn lemma_flow(ms: Seq<MemberV>, b: int, f: ParamFactsV, base: u32)
    requires
        keys_apart(ms),
        0 <= b < ms.len(),
        ms[b].key == "behavior"@,
        ms[b].value == JsonV::Str(f.behavior),
        forall|j: int| 0 <= j < ms.len() ==> (#[trigger] ms[j]).key != "escapes"@,
        forall|j: int| 0 <= j < ms.len() ==> (#[trigger] ms[j]).key != "evidence"@,
    ensures
        tells(JsonV::Object(crate::explain::with_flow(ms, Some(f), base)), f, base),
        forall|j: int|
            0 <= j < ms.len() ==> at_key(
                JsonV::Object(crate::explain::with_flow(ms, Some(f), base)),
                (#[trigger] ms[j]).key,
            ) == ms[j].value,
{
    lemma_param_keys();
    let w = crate::explain::with_flow(ms, Some(f), base);
    assert(keys_apart(w));
    assert forall|j: int| 0 <= j < ms.len() implies at_key(
        JsonV::Object(w),
        (#[trigger] ms[j]).key,
    ) == ms[j].value by {
        assert(w[j] == ms[j]);
        lemma_apart(w, j);
    }
    if f.escapes.len() > 0 {
        lemma_texts(f.escapes);
        assert(w[ms.len() as int].key == "escapes"@);
        lemma_apart(w, ms.len() as int);
    } else {
        assert forall|j: int| 0 <= j < w.len() implies (#[trigger] w[j]).key != "escapes"@ by {
            if j < ms.len() {
                assert(w[j] == ms[j]);
            }
        }
        lemma_no_member(w, "escapes"@);
    }
    if f.evidence.len() > 0 {
        lemma_evidence(f.evidence, base);
        assert(w.last().key == "evidence"@);
        lemma_apart(w, w.len() - 1);
    } else {
        assert forall|j: int| 0 <= j < w.len() implies (#[trigger] w[j]).key != "evidence"@ by {
            if j < ms.len() {
                assert(w[j] == ms[j]);
            }
        }
        lemma_no_member(w, "evidence"@);
    }
}

pub(crate) proof fn lemma_function_head(s: SnapV, facts: Seq<Seq<ParamFactsV>>, d: DefId)
    requires
        d.raw < s.scope.defs.len(),
        s.scope.defs[d.raw as int].kind is Function,
    ensures
        ({
            let sig = s.scope.defs[d.raw as int].kind->Function_0;
            let doc = def_json_of(s, facts, d);
            &&& at_key(doc, "kind"@) == JsonV::Str("fn"@)
            &&& at_key(doc, "name"@) == JsonV::Str(def_text(s.scope, s.names, d))
            &&& at_key(doc, "params"@) is Array
            &&& size_of_array(at_key(doc, "params"@)) == sig.params.len()
        }),
{
    let top = def_json_of(s, facts, d)->Object_0;
    lemma_def_keys();
    assert(keys_apart(top));
    lemma_apart(top, 0);
    lemma_apart(top, 1);
    lemma_apart(top, 2);
}

/// The document of a function lists its parameters one for one, in
/// order. The entry of parameter `i` bears the name, type and mutability
/// of parameter `i`, and tells the behavior, the escapes and the evidence
/// that were inferred for parameter `i` of this very function; where
/// nothing was inferred for it, it tells nothing.
pub proof fn law_params_tell_their_own_facts(
    s: SnapV,
    facts: Seq<Seq<ParamFactsV>>,
    d: DefId,
    i: int,
)
    requires
        d.raw < s.scope.defs.len(),
        s.scope.defs[d.raw as int].kind is Function,
        0 <= i < s.scope.defs[d.raw as int].kind->Function_0.params.len(),
    ensures
        ({
            let sig = s.scope.defs[d.raw as int].kind->Function_0;
            let doc = def_json_of(s, facts, d);
            let entry = item_at(at_key(doc, "params"@), i);
            &&& at_key(doc, "kind"@) == JsonV::Str("fn"@)
            &&& at_key(doc, "name"@) == JsonV::Str(def_text(s.scope, s.names, d))
            &&& at_key(doc, "returns"@) == JsonV::Str(type_text(s, sig.ret))
            &&& size_of_array(at_key(doc, "params"@)) == sig.params.len()
            &&& at_key(entry, "name"@) == JsonV::Str(name_of(s.names, sig.params[i].name))
            &&& at_key(entry, "type"@) == JsonV::Str(type_text(s, sig.params[i].ty))
            &&& at_key(entry, "mutable"@) == JsonV::Bool(sig.params[i].mutable)
            &&& if d.raw < facts.len() && i < facts[d.raw as int].len() {
                tells(entry, facts[d.raw as int][i], base_of(s, d))
            } else {
                tells_nothing(entry)
            }
        }),
{
    let sig = s.scope.defs[d.raw as int].kind->Function_0;
    let doc = def_json_of(s, facts, d);
    let top = doc->Object_0;
    lemma_def_keys();
    lemma_param_keys();
    assert(keys_apart(top));
    lemma_apart(top, 0);
    lemma_apart(top, 1);
    lemma_apart(top, 2);
    lemma_apart(top, 3);
    let entry = item_at(at_key(doc, "params"@), i);
    let head = seq![
        crate::json::mem("name"@, JsonV::Str(name_of(s.names, sig.params[i].name))),
        crate::json::mem("type"@, JsonV::Str(type_text(s, sig.params[i].ty))),
        crate::json::mem("mutable"@, JsonV::Bool(sig.params[i].mutable)),
        crate::json::mem(
            "behavior"@,
            JsonV::Str(
                if d.raw < facts.len() && i < facts[d.raw as int].len() {
                    facts[d.raw as int][i].behavior
                } else {
                    "unknown"@
                },
            ),
        ),
    ];
    assert(keys_apart(head));
    if d.raw < facts.len() && i < facts[d.raw as int].len() {
        let f = facts[d.raw as int][i];
        lemma_flow(head, 3, f, base_of(s, d));
        assert(entry == JsonV::Object(crate::explain::with_flow(head, Some(f), base_of(s, d))));
        assert(head[0].key == "name"@ && head[1].key == "type"@ && head[2].key == "mutable"@);
    } else {
        assert(entry == JsonV::Object(head));
        lemma_apart(head, 0);
        lemma_apart(head, 1);
        lemma_apart(head, 2);
        lemma_apart(head, 3);
        lemma_no_member(head, "escapes"@);
        lemma_no_member(head, "evidence"@);
    }
}

/// The document of a `data` lists its fields and its variants one for
/// one, in order: each field with its name and type, each variant with
/// its name, its discriminant and the types of its payload.
pub proof fn law_data_lists_its_members(
    s: SnapV,
    facts: Seq<Seq<ParamFactsV>>,
    d: DefId,
    i: int,
    k: int,
)
    requires
        d.raw < s.scope.defs.len(),
        s.scope.defs[d.raw as int].kind is Data,
    ensures
        ({
            let shape = s.scope.defs[d.raw as int].kind->Data_0;
            let doc = def_json_of(s, facts, d);
            let f = item_at(at_key(doc, "fields"@), i);
            let v = item_at(at_key(doc, "variants"@), i);
            &&& at_key(doc, "kind"@) == JsonV::Str("data"@)
            &&& at_key(doc, "name"@) == JsonV::Str(def_text(s.scope, s.names, d))
            &&& at_key(doc, "shape"@) == JsonV::Str(
                if shape.variants.len() > 0 {
                    "enum"@
                } else {
                    "record"@
                },
            )
            &&& size_of_array(at_key(doc, "fields"@)) == shape.fields.len()
            &&& size_of_array(at_key(doc, "variants"@)) == shape.variants.len()
            &&& 0 <= i < shape.fields.len() ==> {
                &&& at_key(f, "name"@) == JsonV::Str(symbol_text(s, shape.fields[i].symbol))
                &&& at_key(f, "type"@) == JsonV::Str(type_text(s, shape.fields[i].ty))
            }
            &&& 0 <= i < shape.variants.len() ==> {
                &&& at_key(v, "name"@) == JsonV::Str(symbol_text(s, shape.variants[i].symbol))
                &&& at_key(v, "discriminant"@) == JsonV::Uint(shape.variants[i].index as u64)
                &&& size_of_array(at_key(v, "payload"@)) == shape.variants[i].payload.len()
                &&& 0 <= k < shape.variants[i].payload.len() ==> item_at(
                    at_key(v, "payload"@),
                    k,
                ) == JsonV::Str(type_text(s, shape.variants[i].payload[k]))
            }
        }),
{
    let shape = s.scope.defs[d.raw as int].kind->Data_0;
    let doc = def_json_of(s, facts, d);
    let top = doc->Object_0;
    lemma_def_keys();
    lemma_param_keys();
    assert(keys_apart(top));
    lemma_apart(top, 0);
    lemma_apart(top, 1);
    lemma_apart(top, 2);
    lemma_apart(top, 3);
    lemma_apart(top, 4);
    if 0 <= i < shape.fields.len() {
        let ms = item_at(at_key(doc, "fields"@), i)->Object_0;
        assert(keys_apart(ms));
        lemma_apart(ms, 0);
        lemma_apart(ms, 1);
    }
    if 0 <= i < shape.variants.len() {
        let ms = item_at(at_key(doc, "variants"@), i)->Object_0;
        assert(keys_apart(ms));
        lemma_apart(ms, 0);
        lemma_apart(ms, 1);
        lemma_apart(ms, 2);
    }
}

/// The document of a file holds the document of each definition, in
/// declaration order, under the file's name.
pub proof fn law_document_lists_definitions(
    s: SnapV,
    facts: Seq<Seq<ParamFactsV>>,
    ls: Seq<LocalType>,
    file: Seq<char>,
    d: DefId,
)
    ensures
        ({
            let (doc, report) = explained(s, facts, ls, None, file);
            &&& report is None
            &&& at_key(doc, "file"@) == JsonV::Str(file)
            &&& size_of_array(at_key(doc, "defs"@)) == s.scope.defs.len()
            &&& d.raw < s.scope.defs.len() ==> item_at(at_key(doc, "defs"@), d.raw as int)
                == def_json_of(s, facts, d)
        }),
{
    lemma_def_keys();
    let doc = explained(s, facts, ls, None, file).0;
    let top = doc->Object_0;
    assert(keys_apart(top));
    lemma_apart(top, 0);
    lemma_apart(top, 1);
    if d.raw < s.scope.defs.len() {
        assert(DefId { raw: (d.raw as int) as usize } == d);
    }
}

proof fn lemma_symbol_keys()
    ensures
        "kind"@ != "name"@,
        "kind"@ != "mutable"@,
        "kind"@ != "owner"@,
        "kind"@ != "span"@,
        "kind"@ != "type"@,
        "kind"@ != "behavior"@,
        "kind"@ != "escapes"@,
        "kind"@ != "evidence"@,
        "name"@ != "mutable"@,
        "name"@ != "owner"@,
        "name"@ != "span"@,
        "name"@ != "type"@,
        "name"@ != "behavior"@,
        "name"@ != "escapes"@,
        "name"@ != "evidence"@,
        "mutable"@ != "owner"@,
        "mutable"@ != "span"@,
        "mutable"@ != "type"@,
        "mutable"@ != "behavior"@,
        "mutable"@ != "escapes"@,
        "mutable"@ != "evidence"@,
        "owner"@ != "span"@,
        "owner"@ != "type"@,
        "owner"@ != "behavior"@,
        "owner"@ != "escapes"@,
        "owner"@ != "evidence"@,
        "span"@ != "type"@,
        "span"@ != "behavior"@,
        "span"@ != "escapes"@,
        "span"@ != "evidence"@,
        "type"@ != "behavior"@,
        "type"@ != "escapes"@,
        "type"@ != "evidence"@,
        "behavior"@ != "escapes"@,
        "behavior"@ != "evidence"@,
        "escapes"@ != "evidence"@,
{
    reveal_strlit("kind");
    reveal_strlit("name");
    reveal_strlit("mutable");
    reveal_strlit("owner");
    reveal_strlit("span");
    reveal_strlit("type");
    reveal_strlit("behavior");
    reveal_strlit("escapes");
    reveal_strlit("evidence");
    assert("kind"@[0] != "name"@[0]);
    assert("kind"@.len() != "mutable"@.len());
    assert("kind"@.len() != "owner"@.len());
    assert("kind"@[0] != "span"@[0]);
    assert("kind"@[0] != "type"@[0]);
    assert("kind"@.len() != "behavior"@.len());
    assert("kind"@.len() != "escapes"@.len());
    assert("kind"@.len() != "evidence"@.len());
    assert("name"@.len() != "mutable"@.len());
    assert("name"@.len() != "owner"@.len());
    assert("name"@[0] != "span"@[0]);
    assert("name"@[0] != "type"@[0]);
    assert("name"@.len() != "behavior"@.len());
    assert("name"@.len() != "escapes"@.len());
    assert("name"@.len() != "evidence"@.len());
    assert("mutable"@.len() != "owner"@.len());
    assert("mutable"@.len() != "span"@.len());
    assert("mutable"@.len() != "type"@.len());
    assert("mutable"@.len() != "behavior"@.len());
    assert("mutable"@[0] != "escapes"@[0]);
    assert("mutable"@.len() != "evidence"@.len());
    assert("owner"@.len() != "span"@.len());
    assert("owner"@.len() != "type"@.len());
    assert("owner"@.len() != "behavior"@.len());
    assert("owner"@.len() != "escapes"@.len());
    assert("owner"@.len() != "evidence"@.len());
    assert("span"@[0] != "type"@[0]);
    assert("span"@.len() != "behavior"@.len());
    assert("span"@.len() != "escapes"@.len());
    assert("span"@.len() != "evidence"@.len());
    assert("type"@.len() != "behavior"@.len());
    assert("type"@.len() != "escapes"@.len());
    assert("type"@.len() != "evidence"@.len());
    assert("behavior"@.len() != "escapes"@.len());
    assert("behavior"@[0] != "evidence"@[0]);
    assert("escapes"@.len() != "evidence"@.len());
}

proof fn lemma_param_at(ps: Seq<ParamDef>, id: SymbolId, i: int, from: int)
    requires
        0 <= from <= i < ps.len(),
        ps[i].symbol == id,
        forall|j: int| 0 <= j < i ==> (#[trigger] ps[j]).symbol != id,
    ensures
        param_at(ps, id, from) == Some(i),
    decreases i - from,
{
    if from < i {
        assert(ps[from].symbol != id);
        lemma_param_at(ps, id, i, from + 1);
    }
}

/// Explaining a parameter by its own name tells what the function's
/// document tells of it: the facts inferred for the very position at
/// which the signature declares it.
pub proof fn law_parameter_explained_with_its_facts(
    s: SnapV,
    facts: Seq<Seq<ParamFactsV>>,
    ls: Seq<LocalType>,
    owner: DefId,
    x: Symbol,
    i: int,
)
    requires
        owner.raw < s.scope.defs.len(),
        s.scope.defs[owner.raw as int].kind is Function,
        0 <= i < s.scope.defs[owner.raw as int].kind->Function_0.params.len(),
        s.scope.defs[owner.raw as int].kind->Function_0.params[i].symbol == x.id,
        forall|j: int|
            0 <= j < i ==> (
            #[trigger] s.scope.defs[owner.raw as int].kind->Function_0.params[j]).symbol != x.id,
    ensures
        ({
            let doc = symbol_json_of(s, facts, ls, owner, x);
            &&& at_key(doc, "kind"@) == JsonV::Str(kind_text(x.kind))
            &&& at_key(doc, "name"@) == JsonV::Str(name_of(s.names, x.name))
            &&& at_key(doc, "mutable"@) == JsonV::Bool(x.mutable)
            &&& at_key(doc, "owner"@) == JsonV::Str(def_text(s.scope, s.names, owner))
            &&& shows_span(at_key(doc, "span"@), span_abs(x.span, base_of(s, owner)))
            &&& owner.raw < facts.len() && i < facts[owner.raw as int].len() ==> tells(
                doc,
                facts[owner.raw as int][i],
                base_of(s, owner),
            )
        }),
{
    lemma_symbol_keys();
    lemma_def_keys();
    let sig = s.scope.defs[owner.raw as int].kind->Function_0;
    assert(sig_of(s.scope, owner) == Some(sig));
    assert forall|j: int| 0 <= j < i implies (#[trigger] sig.params[j]).symbol != x.id by {}
    lemma_param_at(sig.params, x.id, i, 0);
    let a = with_type(s, symbol_head(s, owner, x), symbol_type(s, ls, owner, x.id));
    assert(keys_apart(a));
    let doc = symbol_json_of(s, facts, ls, owner, x);
    let behavior = if owner.raw < facts.len() && i < facts[owner.raw as int].len() {
        facts[owner.raw as int][i].behavior
    } else {
        "unknown"@
    };
    let b = a.push(crate::json::mem("behavior"@, JsonV::Str(behavior)));
    assert(keys_apart(b));
    let sp = b[4].value->Object_0;
    assert(keys_apart(sp));
    lemma_apart(sp, 0);
    lemma_apart(sp, 1);
    if owner.raw < facts.len() && i < facts[owner.raw as int].len() {
        let f = facts[owner.raw as int][i];
        lemma_flow(b, a.len() as int, f, base_of(s, owner));
        assert(doc == JsonV::Object(crate::explain::with_flow(b, Some(f), base_of(s, owner))));
        assert(b[0].key == "kind"@ && b[1].key == "name"@ && b[2].key == "mutable"@);
        assert(b[3].key == "owner"@ && b[4].key == "span"@);
    } else {
        assert(doc == JsonV::Object(b));
        lemma_apart(b, 0);
        lemma_apart(b, 1);
        lemma_apart(b, 2);
        lemma_apart(b, 3);
        lemma_apart(b, 4);
    }
}

} // verus!
