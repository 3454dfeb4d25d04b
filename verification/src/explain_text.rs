//! What `explain` prints: its answers as lines for people.
//!
//! ```text
//! examples/borrow-inference.ixa
//!   data Point { x, y }
//!   fn read(p: borrow)
//!   fn bump(p: borrow_mut)
//!   fn add(a: copy, b: copy)
//!   fn main()
//! ```

use crate::json::{at_key, bool_of, jsons, str_of, uint_of, Json, JsonV};
use crate::paths::{join, joined};
use crate::text::{cat2, cat3, cat5, dec, decimal, same, texts};
use vstd::prelude::*;

verus! {

/// The string at a key, or a default.
pub open spec fn str_or(v: JsonV, key: Seq<char>, default: Seq<char>) -> Seq<char> {
    match str_of(at_key(v, key)) {
        Some(s) => s,
        None => default,
    }
}

fn get_or<'a>(v: &'a Json, key: &str, default: &'a str) -> (r: &'a str)
    ensures
        r@ == str_or(v@, key@, default@),
{
    match v.get_str(key) {
        Some(s) => s,
        None => default,
    }
}

/// The values at a key; none unless it is an array.
pub open spec fn items_at(v: JsonV, key: Seq<char>) -> Seq<JsonV> {
    match at_key(v, key) {
        JsonV::Array(xs) => xs,
        _ => Seq::empty(),
    }
}

pub(crate) fn get_items<'a>(v: &'a Json, key: &str) -> (r: Option<&'a Vec<Json>>)
    ensures
        match r {
            Some(xs) => at_key(v@, key@) == JsonV::Array(jsons(xs@)) && items_at(v@, key@)
                == jsons(xs@),
            None => !(at_key(v@, key@) is Array) && items_at(v@, key@) == Seq::<JsonV>::empty(),
        },
{
    match v.get(key) {
        Some(Json::Array(xs)) => {
            let ghost got = Json::Array(*xs);
            proof {
                assert(got@->Array_0 =~= jsons(xs@));
            }
            Some(xs)
        },
        _ => None,
    }
}

/// The strings among the first `k` values.
pub open spec fn texts_in(xs: Seq<JsonV>, k: int) -> Seq<Seq<char>>
    decreases k,
{
    if k <= 0 {
        Seq::empty()
    } else {
        match str_of(xs[k - 1]) {
            Some(s) => texts_in(xs, k - 1).push(s),
            None => texts_in(xs, k - 1),
        }
    }
}

/// The strings at a key.
pub open spec fn texts_at(v: JsonV, key: Seq<char>) -> Seq<Seq<char>> {
    texts_in(items_at(v, key), items_at(v, key).len() as int)
}

fn get_texts(v: &Json, key: &str) -> (r: Vec<String>)
    ensures
        texts(r@) == texts_at(v@, key@),
{
    let mut out: Vec<String> = Vec::new();
    proof {
        assert(texts(out@) =~= Seq::empty());
    }
    if let Some(xs) = get_items(v, key) {
        let ghost all = jsons(xs@);
        let mut i: usize = 0;
        while i < xs.len()
            invariant
                i <= xs@.len(),
                all == jsons(xs@),
                texts(out@) == texts_in(all, i as int),
            decreases xs@.len() - i,
        {
            assert(all[i as int] == xs@[i as int]@);
            if let Some(s) = xs[i].as_str() {
                let ghost before = texts(out@);
                out.push(s.to_owned());
                proof {
                    assert(texts(out@) =~= before.push(s@));
                }
            }
            i += 1;
        }
    }
    out
}

// ---------- definitions ----------

/// A parameter and what the function does with it.
pub open spec fn param_text(p: JsonV) -> Seq<char> {
    str_or(p, "name"@, "?"@) + ": "@ + str_or(p, "behavior"@, "?"@)
}

fn param_line(p: &Json) -> (r: String)
    ensures
        r@ == param_text(p@),
{
    cat3(get_or(p, "name", "?"), ": ", get_or(p, "behavior", "?"))
}

/// A variant and its constructor arguments.
pub open spec fn variant_text(v: JsonV) -> Seq<char> {
    let payload = texts_at(v, "payload"@);
    if payload.len() == 0 {
        str_or(v, "name"@, "?"@)
    } else {
        str_or(v, "name"@, "?"@) + "("@ + joined(payload, ", "@) + ")"@
    }
}

fn variant_line(v: &Json) -> (r: String)
    ensures
        r@ == variant_text(v@),
{
    let payload = get_texts(v, "payload");
    proof {
        assert(texts(payload@).len() == payload@.len());
    }
    if payload.len() == 0 {
        get_or(v, "name", "?").to_owned()
    } else {
        let inner = join(&payload, ", ");
        let head = cat2(get_or(v, "name", "?"), "(");
        cat3(head.as_str(), inner.as_str(), ")")
    }
}

/// The name of a field.
pub open spec fn field_text(f: JsonV) -> Seq<char> {
    str_or(f, "name"@, "?"@)
}

fn field_line(f: &Json) -> (r: String)
    ensures
        r@ == field_text(f@),
{
    get_or(f, "name", "?").to_owned()
}

/// The parameters of a signature, one after the other.
pub open spec fn params_text(d: JsonV) -> Seq<Seq<char>> {
    let ps = items_at(d, "params"@);
    Seq::new(ps.len(), |i: int| param_text(ps[i]))
}

/// The variants of a `data`.
pub open spec fn variants_text(d: JsonV) -> Seq<Seq<char>> {
    let vs = items_at(d, "variants"@);
    Seq::new(vs.len(), |i: int| variant_text(vs[i]))
}

/// The fields of a `data`.
pub open spec fn fields_text(d: JsonV) -> Seq<Seq<char>> {
    let fs = items_at(d, "fields"@);
    Seq::new(fs.len(), |i: int| field_text(fs[i]))
}

fn param_lines(d: &Json) -> (r: Vec<String>)
    ensures
        texts(r@) == params_text(d@),
{
    let ghost all = params_text(d@);
    let mut out: Vec<String> = Vec::new();
    proof {
        assert(texts(out@) =~= all.take(0));
    }
    if let Some(xs) = get_items(d, "params") {
        let mut i: usize = 0;
        while i < xs.len()
            invariant
                i <= xs@.len(),
                all == params_text(d@),
                items_at(d@, "params"@) == jsons(xs@),
                texts(out@) == all.take(i as int),
            decreases xs@.len() - i,
        {
            let ghost before = texts(out@);
            out.push(param_line(&xs[i]));
            proof {
                assert(jsons(xs@)[i as int] == xs@[i as int]@);
                assert(texts(out@) =~= before.push(all[i as int]));
                assert(all.take(i + 1) =~= all.take(i as int).push(all[i as int]));
            }
            i += 1;
        }
    }
    proof {
        assert(all.take(all.len() as int) =~= all);
    }
    out
}

fn variant_lines(d: &Json) -> (r: Vec<String>)
    ensures
        texts(r@) == variants_text(d@),
{
    let ghost all = variants_text(d@);
    let mut out: Vec<String> = Vec::new();
    proof {
        assert(texts(out@) =~= all.take(0));
    }
    if let Some(xs) = get_items(d, "variants") {
        let mut i: usize = 0;
        while i < xs.len()
            invariant
                i <= xs@.len(),
                all == variants_text(d@),
                items_at(d@, "variants"@) == jsons(xs@),
                texts(out@) == all.take(i as int),
            decreases xs@.len() - i,
        {
            let ghost before = texts(out@);
            out.push(variant_line(&xs[i]));
            proof {
                assert(jsons(xs@)[i as int] == xs@[i as int]@);
                assert(texts(out@) =~= before.push(all[i as int]));
                assert(all.take(i + 1) =~= all.take(i as int).push(all[i as int]));
            }
            i += 1;
        }
    }
    proof {
        assert(all.take(all.len() as int) =~= all);
    }
    out
}

fn field_lines(d: &Json) -> (r: Vec<String>)
    ensures
        texts(r@) == fields_text(d@),
{
    let ghost all = fields_text(d@);
    let mut out: Vec<String> = Vec::new();
    proof {
        assert(texts(out@) =~= all.take(0));
    }
    if let Some(xs) = get_items(d, "fields") {
        let mut i: usize = 0;
        while i < xs.len()
            invariant
                i <= xs@.len(),
                all == fields_text(d@),
                items_at(d@, "fields"@) == jsons(xs@),
                texts(out@) == all.take(i as int),
            decreases xs@.len() - i,
        {
            let ghost before = texts(out@);
            out.push(field_line(&xs[i]));
            proof {
                assert(jsons(xs@)[i as int] == xs@[i as int]@);
                assert(texts(out@) =~= before.push(all[i as int]));
                assert(all.take(i + 1) =~= all.take(i as int).push(all[i as int]));
            }
            i += 1;
        }
    }
    proof {
        assert(all.take(all.len() as int) =~= all);
    }
    out
}

/// The line of a definition.
pub open spec fn def_line_text(d: JsonV) -> Seq<char> {
    if str_of(at_key(d, "kind"@)) == Some("fn"@) {
        "  fn "@ + str_or(d, "name"@, "?"@) + "("@ + joined(params_text(d), ", "@) + ")\n"@
    } else {
        let body = if variants_text(d).len() > 0 {
            variants_text(d)
        } else {
            fields_text(d)
        };
        "  data "@ + str_or(d, "name"@, "?"@) + " { "@ + joined(body, ", "@) + " }\n"@
    }
}

/// The line of a definition.
pub fn def_line(d: &Json) -> (r: String)
    ensures
        r@ == def_line_text(d@),
{
    let name = get_or(d, "name", "?");
    let is_fn = match d.get_str("kind") {
        Some(k) => same(k, "fn"),
        None => false,
    };
    if is_fn {
        let params = join(&param_lines(d), ", ");
        let head = cat3("  fn ", name, "(");
        cat3(head.as_str(), params.as_str(), ")\n")
    } else {
        let variants = variant_lines(d);
        proof {
            assert(texts(variants@).len() == variants@.len());
        }
        let body = if variants.len() > 0 {
            join(&variants, ", ")
        } else {
            join(&field_lines(d), ", ")
        };
        cat5("  data ", name, " { ", body.as_str(), " }\n")
    }
}

/// The lines of the first `k` definitions.
pub open spec fn defs_text(ds: Seq<JsonV>, k: int) -> Seq<char>
    decreases k,
{
    if k <= 0 {
        Seq::empty()
    } else {
        defs_text(ds, k - 1) + def_line_text(ds[k - 1])
    }
}

/// One line per definition.
pub fn print_defs(ds: &Vec<Json>) -> (r: String)
    ensures
        r@ == defs_text(jsons(ds@), ds@.len() as int),
{
    let ghost all = jsons(ds@);
    let mut out = String::new();
    let mut i: usize = 0;
    proof {
        assert(out@ =~= Seq::empty());
    }
    while i < ds.len()
        invariant
            i <= ds@.len(),
            all == jsons(ds@),
            out@ == defs_text(all, i as int),
        decreases ds@.len() - i,
    {
        assert(all[i as int] == ds@[i as int]@);
        out.append(def_line(&ds[i]).as_str());
        i += 1;
    }
    out
}

// ---------- symbols ----------

/// A line with a string member, when there is one.
pub open spec fn opt_line(label: Seq<char>, v: Option<Seq<char>>) -> Seq<char> {
    match v {
        Some(t) => label + t + "\n"@,
        None => Seq::empty(),
    }
}

fn opt_text(label: &str, v: Option<&str>) -> (r: String)
    ensures
        r@ == opt_line(
            label@,
            match v {
                Some(t) => Some(t@),
                None => None,
            },
        ),
{
    match v {
        Some(t) => cat3(label, t, "\n"),
        None => {
            let e = String::new();
            assert(e@ =~= Seq::empty());
            e
        },
    }
}

/// The lines of evidence for a behavior among the first `k`.
pub open spec fn evidence_text(es: Seq<JsonV>, k: int) -> Seq<char>
    decreases k,
{
    if k <= 0 {
        Seq::empty()
    } else {
        evidence_text(es, k - 1) + evidence_line_text(es[k - 1])
    }
}

/// A number at a key, or zero.
pub open spec fn num_or_zero(v: JsonV, key: Seq<char>) -> u64 {
    match uint_of(at_key(v, key)) {
        Some(n) => n,
        None => 0,
    }
}

/// The line of one evidence.
pub open spec fn evidence_line_text(e: JsonV) -> Seq<char> {
    let sp = at_key(e, "span"@);
    "    "@ + str_or(e, "kind"@, "?"@) + " at "@ + dec(num_or_zero(sp, "start"@) as nat) + ".."@
        + dec(num_or_zero(sp, "end"@) as nat) + "\n"@
}

fn evidence_line(e: &Json) -> (r: String)
    ensures
        r@ == evidence_line_text(e@),
{
    let (start, end): (u64, u64) = match e.get("span") {
        Some(sp) => {
            let a: u64 = match sp.get_u64("start") {
                Some(n) => n,
                None => 0,
            };
            let b: u64 = match sp.get_u64("end") {
                Some(n) => n,
                None => 0,
            };
            (a, b)
        },
        None => (0, 0),
    };
    let head = cat3("    ", get_or(e, "kind", "?"), " at ");
    let a = decimal(start);
    let b = decimal(end);
    cat5(head.as_str(), a.as_str(), "..", b.as_str(), "\n")
}

fn evidence_lines(s: &Json) -> (r: String)
    ensures
        r@ == evidence_text(items_at(s@, "evidence"@), items_at(s@, "evidence"@).len() as int),
{
    let ghost all = items_at(s@, "evidence"@);
    let mut out = String::new();
    proof {
        assert(out@ =~= Seq::empty());
    }
    if let Some(es) = get_items(s, "evidence") {
        let mut i: usize = 0;
        while i < es.len()
            invariant
                i <= es@.len(),
                all == jsons(es@),
                out@ == evidence_text(all, i as int),
            decreases es@.len() - i,
        {
            assert(all[i as int] == es@[i as int]@);
            out.append(evidence_line(&es[i]).as_str());
            i += 1;
        }
    }
    out
}

/// How a binding is declared.
pub open spec fn binding_text(v: JsonV) -> Option<Seq<char>> {
    match bool_of(at_key(v, "mutable"@)) {
        Some(true) => Some("mutable"@),
        Some(false) => Some("immutable"@),
        None => None,
    }
}

/// The discriminant of a variant.
pub open spec fn discriminant_text(v: JsonV) -> Option<Seq<char>> {
    match uint_of(at_key(v, "discriminant"@)) {
        Some(n) => Some(dec(n as nat)),
        None => None,
    }
}

/// The constructor arguments of a variant.
pub open spec fn payload_text(v: JsonV) -> Option<Seq<char>> {
    if at_key(v, "payload"@) is Array {
        Some("("@ + joined(texts_at(v, "payload"@), ", "@) + ")"@)
    } else {
        None
    }
}

/// Where an argument may flow to.
pub open spec fn escapes_text(v: JsonV) -> Option<Seq<char>> {
    let es = texts_at(v, "escapes"@);
    if es.len() > 0 {
        Some(joined(es, ", "@))
    } else {
        None
    }
}

/// The lines of a parameter, local, field or variant.
pub open spec fn member_text(s: JsonV) -> Seq<char> {
    "symbol: "@ + str_or(s, "name"@, "?"@) + "\n  kind: "@ + str_or(s, "kind"@, "?"@) + "\n"@
        + opt_line("  owner: "@, str_of(at_key(s, "owner"@))) + opt_line(
        "  type: "@,
        str_of(at_key(s, "type"@)),
    ) + opt_line("  binding: "@, binding_text(s)) + opt_line(
        "  discriminant: "@,
        discriminant_text(s),
    ) + opt_line("  payload: "@, payload_text(s)) + opt_line(
        "  behavior: "@,
        str_of(at_key(s, "behavior"@)),
    ) + evidence_text(items_at(s, "evidence"@), items_at(s, "evidence"@).len() as int) + opt_line(
        "  escapes: "@,
        escapes_text(s),
    )
}

fn member_lines(s: &Json) -> (r: String)
    ensures
        r@ == member_text(s@),
{
    let name = get_or(s, "name", "?");
    let mut out = cat5("symbol: ", name, "\n  kind: ", get_or(s, "kind", "?"), "\n");
    out.append(opt_text("  owner: ", s.get_str("owner")).as_str());
    out.append(opt_text("  type: ", s.get_str("type")).as_str());
    let binding = match s.get_bool("mutable") {
        Some(true) => Some("mutable"),
        Some(false) => Some("immutable"),
        None => None,
    };
    out.append(opt_text("  binding: ", binding).as_str());
    if let Some(n) = s.get_u64("discriminant") {
        out.append(opt_text("  discriminant: ", Some(decimal(n).as_str())).as_str());
    } else {
        out.append(opt_text("  discriminant: ", None).as_str());
    }
    if get_items(s, "payload").is_some() {
        let inner = join(&get_texts(s, "payload"), ", ");
        let text = cat3("(", inner.as_str(), ")");
        out.append(opt_text("  payload: ", Some(text.as_str())).as_str());
    } else {
        out.append(opt_text("  payload: ", None).as_str());
    }
    out.append(opt_text("  behavior: ", s.get_str("behavior")).as_str());
    out.append(evidence_lines(s).as_str());
    let es = get_texts(s, "escapes");
    proof {
        assert(texts(es@).len() == es@.len());
    }
    if es.len() > 0 {
        let list = join(&es, ", ");
        out.append(opt_text("  escapes: ", Some(list.as_str())).as_str());
    } else {
        out.append(opt_text("  escapes: ", None).as_str());
    }
    out
}

/// What is printed of a symbol: a definition has its line, anything else
/// its members; nothing for `null`.
pub open spec fn symbol_lines(s: JsonV) -> Seq<char> {
    if s is Null {
        Seq::empty()
    } else if str_of(at_key(s, "kind"@)) == Some("fn"@) || str_of(at_key(s, "kind"@)) == Some(
        "data"@,
    ) {
        def_line_text(s)
    } else {
        member_text(s)
    }
}

/// What is printed of a symbol.
pub fn print_symbol(s: &Json) -> (r: String)
    ensures
        r@ == symbol_lines(s@),
{
    match s {
        Json::Null => {
            let e = String::new();
            assert(e@ =~= Seq::empty());
            return e;
        },
        _ => {},
    }
    let is_def = match s.get_str("kind") {
        Some(k) => same(k, "fn") || same(k, "data"),
        None => false,
    };
    if is_def {
        def_line(s)
    } else {
        member_lines(s)
    }
}

} // verus!
