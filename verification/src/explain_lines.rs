//! What `explain` prints: the lines say what the document says.

use crate::explain::{def_json_of, symbol_text, type_text, ParamFactsV};
use crate::explain_laws::{
    item_at, law_data_lists_its_members, law_params_tell_their_own_facts, lemma_function_head,
};
use crate::explain_text::{
    def_line_text, defs_text, fields_text, items_at, params_text, symbol_lines, texts_at, texts_in,
    variants_text,
};
use crate::hir::def_text;
use crate::json::{at_key, JsonV};
use crate::paths::joined;
use crate::snapshot::SnapV;
use crate::source::{name_of, DefId};
use vstd::prelude::*;
use vstd::string::*;

verus! {

proof fn lemma_kinds()
    ensures
        "fn"@ != "data"@,
{
    reveal_strlit("fn");
    reveal_strlit("data");
    assert("fn"@.len() != "data"@.len());
}

/// The line of a function names it and lists its parameters in order,
/// each with the behavior that was inferred for it.
pub proof fn law_function_line(
    s: SnapV,
    facts: Seq<Seq<ParamFactsV>>,
    d: DefId,
    shown: Seq<Seq<char>>,
)
    requires
        d.raw < s.scope.defs.len(),
        s.scope.defs[d.raw as int].kind is Function,
        shown.len() == s.scope.defs[d.raw as int].kind->Function_0.params.len(),
        d.raw < facts.len(),
        facts[d.raw as int].len() == shown.len(),
        forall|i: int|
            0 <= i < shown.len() ==> #[trigger] shown[i] == name_of(
                s.names,
                s.scope.defs[d.raw as int].kind->Function_0.params[i].name,
            ) + ": "@ + facts[d.raw as int][i].behavior,
    ensures
        symbol_lines(def_json_of(s, facts, d)) == "  fn "@ + def_text(s.scope, s.names, d) + "("@
            + joined(shown, ", "@) + ")\n"@,
{
    let doc = def_json_of(s, facts, d);
    lemma_head(s, facts, d);
    assert forall|i: int| 0 <= i < shown.len() implies #[trigger] params_text(doc)[i]
        == shown[i] by {
        law_params_tell_their_own_facts(s, facts, d, i);
        assert(item_at(at_key(doc, "params"@), i) == items_at(doc, "params"@)[i]);
    }
    assert(params_text(doc) =~= shown);
    assert(doc is Object);
}

proof fn lemma_head(s: SnapV, facts: Seq<Seq<ParamFactsV>>, d: DefId)
    requires
        d.raw < s.scope.defs.len(),
        s.scope.defs[d.raw as int].kind is Function,
    ensures
        ({
            let doc = def_json_of(s, facts, d);
            let sig = s.scope.defs[d.raw as int].kind->Function_0;
            &&& at_key(doc, "kind"@) == JsonV::Str("fn"@)
            &&& at_key(doc, "name"@) == JsonV::Str(def_text(s.scope, s.names, d))
            &&& items_at(doc, "params"@).len() == sig.params.len()
        }),
{
    lemma_function_head(s, facts, d);
}

proof fn lemma_texts(xs: Seq<JsonV>, ts: Seq<Seq<char>>, k: int)
    requires
        0 <= k <= xs.len(),
        xs.len() == ts.len(),
        forall|i: int| 0 <= i < xs.len() ==> #[trigger] xs[i] == JsonV::Str(ts[i]),
    ensures
        texts_in(xs, k) == ts.take(k),
    decreases k,
{
    if k > 0 {
        lemma_texts(xs, ts, k - 1);
        assert(xs[k - 1] == JsonV::Str(ts[k - 1]));
        assert(ts.take(k) =~= ts.take(k - 1).push(ts[k - 1]));
    } else {
        assert(ts.take(0) =~= Seq::empty());
    }
}

/// The line of a `data` names it and lists its variants in order, each
/// with the types of its payload; a record lists its fields.
pub proof fn law_data_line(
    s: SnapV,
    facts: Seq<Seq<ParamFactsV>>,
    d: DefId,
    shown: Seq<Seq<char>>,
)
    requires
        d.raw < s.scope.defs.len(),
        s.scope.defs[d.raw as int].kind is Data,
        ({
            let shape = s.scope.defs[d.raw as int].kind->Data_0;
            if shape.variants.len() > 0 {
                &&& shown.len() == shape.variants.len()
                &&& forall|i: int|
                    0 <= i < shown.len() ==> {
                        let v = shape.variants[i];
                        let name = symbol_text(s, v.symbol);
                        #[trigger] shown[i] == if v.payload.len() == 0 {
                            name
                        } else {
                            name + "("@ + joined(
                                Seq::new(v.payload.len(), |k: int| type_text(s, v.payload[k])),
                                ", "@,
                            ) + ")"@
                        }
                    }
            } else {
                &&& shown.len() == shape.fields.len()
                &&& forall|i: int|
                    0 <= i < shown.len() ==> #[trigger] shown[i] == symbol_text(
                        s,
                        shape.fields[i].symbol,
                    )
            }
        }),
    ensures
        symbol_lines(def_json_of(s, facts, d)) == "  data "@ + def_text(s.scope, s.names, d)
            + " { "@ + joined(shown, ", "@) + " }\n"@,
{
    lemma_kinds();
    let doc = def_json_of(s, facts, d);
    let shape = s.scope.defs[d.raw as int].kind->Data_0;
    law_data_lists_its_members(s, facts, d, 0, 0);
    assert(items_at(doc, "variants"@).len() == shape.variants.len());
    assert(items_at(doc, "fields"@).len() == shape.fields.len());
    if shape.variants.len() > 0 {
        assert forall|i: int| 0 <= i < shown.len() implies #[trigger] variants_text(doc)[i]
            == shown[i] by {
            let v = shape.variants[i];
            let j = items_at(doc, "variants"@)[i];
            law_data_lists_its_members(s, facts, d, i, 0);
            assert(j == item_at(at_key(doc, "variants"@), i));
            let ts = Seq::new(v.payload.len(), |k: int| type_text(s, v.payload[k]));
            let xs = items_at(j, "payload"@);
            assert(xs.len() == ts.len());
            assert forall|k: int| 0 <= k < xs.len() implies #[trigger] xs[k] == JsonV::Str(
                ts[k],
            ) by {
                law_data_lists_its_members(s, facts, d, i, k);
                assert(xs[k] == item_at(at_key(j, "payload"@), k));
            }
            lemma_texts(xs, ts, xs.len() as int);
            assert(ts.take(ts.len() as int) =~= ts);
            assert(texts_at(j, "payload"@) == ts);
        }
        assert(variants_text(doc) =~= shown);
    } else {
        assert forall|i: int| 0 <= i < shown.len() implies #[trigger] fields_text(doc)[i]
            == shown[i] by {
            law_data_lists_its_members(s, facts, d, i, 0);
            assert(items_at(doc, "fields"@)[i] == item_at(at_key(doc, "fields"@), i));
        }
        assert(fields_text(doc) =~= shown);
    }
    assert(doc is Object);
}

/// The lines of several definitions are those of the first ones and then
/// those of the others; a single definition has its own line.
pub proof fn law_definition_lines(xs: Seq<JsonV>, ys: Seq<JsonV>, x: JsonV)
    ensures
        defs_text(xs + ys, (xs + ys).len() as int) == defs_text(xs, xs.len() as int) + defs_text(
            ys,
            ys.len() as int,
        ),
        defs_text(seq![x], 1) == def_line_text(x),
{
    lemma_lines(xs, ys, ys.len() as int);
    reveal_with_fuel(defs_text, 2);
    assert(Seq::<char>::empty() + def_line_text(x) =~= def_line_text(x));
}

proof fn lemma_lines(xs: Seq<JsonV>, ys: Seq<JsonV>, k: int)
    requires
        0 <= k <= ys.len(),
    ensures
        defs_text(xs + ys, xs.len() + k) == defs_text(xs, xs.len() as int) + defs_text(ys, k),
    decreases k,
{
    let all = xs + ys;
    if k > 0 {
        lemma_lines(xs, ys, k - 1);
        assert(all[xs.len() + k - 1] == ys[k - 1]);
        assert(defs_text(all, xs.len() + k) =~= defs_text(xs, xs.len() as int) + defs_text(ys, k));
    } else {
        lemma_prefix(xs, ys, xs.len() as int);
        assert(defs_text(all, xs.len() as int) =~= defs_text(xs, xs.len() as int) + defs_text(
            ys,
            0,
        ));
    }
}

proof fn lemma_prefix(xs: Seq<JsonV>, ys: Seq<JsonV>, k: int)
    requires
        0 <= k <= xs.len(),
    ensures
        defs_text(xs + ys, k) == defs_text(xs, k),
    decreases k,
{
    if k > 0 {
        lemma_prefix(xs, ys, k - 1);
        assert((xs + ys)[k - 1] == xs[k - 1]);
    }
}

} // verus!
