//! Runtime values as JSON.

use crate::explain::symbol_text;
use crate::hir::{def_text, shape_of, FieldDef};
use crate::json::{
    json_array, json_object, json_str, jsons, mem, members, no_items, no_members, put, put_item,
    set_member, with_member, Json, JsonV, Member, MemberV,
};
use crate::snapshot::{SnapV, Snapshot};
use crate::source::DefId;
use crate::text::{cat2, dec, decimal, digit, digit_text};
use vstd::prelude::*;

verus! {

/// A value a program computed.
pub enum RunValue {
    /// An integer.
    Int(i128),
    /// A floating-point number by its decimal form; `None` when it is
    /// not finite.
    Float(Option<String>),
    /// A string.
    Str(String),
    /// A character, as a text of one.
    Char(String),
    /// A boolean.
    Bool(bool),
    /// `unit`
    Unit,
    /// Not yet initialized.
    Hole,
    /// A record and its fields, in declaration order.
    Struct(DefId, Vec<RunValue>),
    /// An array.
    Array(Vec<RunValue>),
    /// A variant of an enum.
    Variant {
        /// The enum.
        def: DefId,
        /// The discriminant.
        tag: u32,
        /// The constructor's arguments.
        payload: Vec<RunValue>,
    },
}

/// The decimal form of an integer.
pub open spec fn int_text(i: int) -> Seq<char> {
    if i < 0 {
        "-"@ + dec((-i) as nat)
    } else {
        dec(i as nat)
    }
}

fn wide_decimal(n: u128) -> (r: String)
    ensures
        r@ == dec(n as nat),
    decreases n,
{
    if n < 10 {
        digit_text(n as u64).to_owned()
    } else {
        let mut s = wide_decimal(n / 10);
        s.append(digit_text((n % 10) as u64));
        s
    }
}

/// An integer as JSON: a number when it fits 64 bits, else a string.
pub open spec fn int_json_of(i: i128) -> JsonV {
    if i64::MIN <= i < 0 {
        JsonV::Int(i as i64)
    } else if 0 <= i <= u64::MAX {
        JsonV::Uint(i as u64)
    } else {
        JsonV::Str(int_text(i as int))
    }
}

/// An integer as JSON.
pub fn int_json(i: i128) -> (r: Json)
    ensures
        r@ == int_json_of(i),
{
    if i < 0 {
        if i >= -0x8000_0000_0000_0000 {
            return Json::Int(i as i64);
        }
        let n: u128 = (-(i + 1)) as u128 + 1;
        return Json::Str(cat2("-", wide_decimal(n).as_str()));
    }
    if i <= 0xffff_ffff_ffff_ffff {
        return Json::Uint(i as u64);
    }
    Json::Str(wide_decimal(i as u128))
}

/// A record's fields as members, for the first `k` fields.
pub open spec fn field_members(
    s: SnapV,
    fs: Seq<FieldDef>,
    vals: Seq<RunValue>,
    k: int,
) -> Seq<MemberV>
    decreases vals, k,
{
    if k <= 0 || k > vals.len() || k > fs.len() {
        Seq::empty()
    } else {
        with_member(
            field_members(s, fs, vals, k - 1),
            symbol_text(s, fs[k - 1].symbol),
            value_json_of(s, vals[k - 1]),
        )
    }
}

/// How many fields have both a name and a value.
pub open spec fn paired(fs: Seq<FieldDef>, vals: Seq<RunValue>) -> int {
    if fs.len() < vals.len() {
        fs.len() as int
    } else {
        vals.len() as int
    }
}

/// Values as JSON, one by one.
pub open spec fn values_json(s: SnapV, vals: Seq<RunValue>) -> Seq<JsonV>
    decreases vals, 0int,
{
    Seq::new(
        vals.len(),
        |i: int|
            if 0 <= i < vals.len() {
                value_json_of(s, vals[i])
            } else {
                JsonV::Null
            },
    )
}

/// The name of an enum's variant; its number when the enum has no such
/// variant.
pub open spec fn variant_name(s: SnapV, def: DefId, tag: u32) -> Seq<char> {
    match shape_of(s.scope, def) {
        Some(shape) => if tag < shape.variants.len() {
            symbol_text(s, shape.variants[tag as int].symbol)
        } else {
            dec(tag as nat)
        },
        None => dec(tag as nat),
    }
}

/// A runtime value as JSON: scalars natively, records as
/// `{data, fields}`, variants as `{data, variant, payload}`.
pub open spec fn value_json_of(s: SnapV, v: RunValue) -> JsonV
    decreases v, 0int,
{
    match v {
        RunValue::Int(i) => int_json_of(i),
        RunValue::Float(Some(t)) => JsonV::Decimal(t@),
        RunValue::Float(None) => JsonV::Null,
        RunValue::Str(t) => JsonV::Str(t@),
        RunValue::Char(c) => JsonV::Str(c@),
        RunValue::Bool(b) => JsonV::Bool(b),
        RunValue::Unit => JsonV::Null,
        RunValue::Hole => JsonV::Str("<uninitialized>"@),
        RunValue::Struct(d, fields) => JsonV::Object(
            seq![
                mem("data"@, JsonV::Str(def_text(s.scope, s.names, d))),
                mem(
                    "fields"@,
                    JsonV::Object(
                        match shape_of(s.scope, d) {
                            Some(shape) => field_members(
                                s,
                                shape.fields,
                                fields@,
                                paired(shape.fields, fields@),
                            ),
                            None => Seq::empty(),
                        },
                    ),
                ),
            ],
        ),
        RunValue::Array(elems) => JsonV::Array(values_json(s, elems@)),
        RunValue::Variant { def, tag, payload } => JsonV::Object(
            seq![
                mem("data"@, JsonV::Str(def_text(s.scope, s.names, def))),
                mem("variant"@, JsonV::Str(variant_name(s, def, tag))),
                mem("payload"@, JsonV::Array(values_json(s, payload@))),
            ],
        ),
    }
}

impl Snapshot {
    fn field_map(&self, fs: &Vec<FieldDef>, vals: &Vec<RunValue>) -> (r: Vec<Member>)
        ensures
            members(r@) == field_members(self@, fs@, vals@, paired(fs@, vals@)),
        decreases vals@, 1int,
    {
        let mut ms = no_members();
        let mut k: usize = 0;
        while k < fs.len() && k < vals.len()
            invariant
                k <= fs@.len(),
                k <= vals@.len(),
                members(ms@) == field_members(self@, fs@, vals@, k as int),
            decreases vals@.len() - k,
        {
            let name = self.symbol_name(fs[k].symbol);
            let value = self.value_json(&vals[k]);
            set_member(&mut ms, name, value);
            k += 1;
        }
        ms
    }

    fn value_items(&self, vals: &Vec<RunValue>) -> (r: Json)
        ensures
            r@ == JsonV::Array(values_json(self@, vals@)),
        decreases vals@, 1int,
    {
        let ghost all = values_json(self@, vals@);
        let mut out = no_items();
        let mut i: usize = 0;
        proof {
            assert(all.take(0) =~= Seq::empty());
        }
        while i < vals.len()
            invariant
                i <= vals@.len(),
                all == values_json(self@, vals@),
                jsons(out@) == all.take(i as int),
            decreases vals@.len() - i,
        {
            put_item(&mut out, self.value_json(&vals[i]));
            i += 1;
            proof {
                assert(all.take(i as int) =~= all.take(i - 1).push(all[i - 1]));
            }
        }
        proof {
            assert(all.take(all.len() as int) =~= all);
        }
        json_array(out)
    }

    fn variant_label(&self, def: DefId, tag: u32) -> (r: String)
        ensures
            r@ == variant_name(self@, def, tag),
    {
        if let Some(shape) = self.scope.data_shape(def) {
            proof {
                assert(crate::hir::variant_defs(shape.variants@).len() == shape.variants@.len());
            }
            if (tag as usize) < shape.variants.len() {
                return self.symbol_name(shape.variants[tag as usize].symbol).to_owned();
            }
        }
        decimal(tag as u64)
    }

    /// A runtime value as JSON.
    pub fn value_json(&self, v: &RunValue) -> (r: Json)
        ensures
            r@ == value_json_of(self@, *v),
        decreases *v, 1int,
    {
        match v {
            RunValue::Int(i) => int_json(*i),
            RunValue::Float(Some(t)) => Json::Decimal(t.clone()),
            RunValue::Float(None) => Json::Null,
            RunValue::Str(t) => json_str(t.as_str()),
            RunValue::Char(c) => json_str(c.as_str()),
            RunValue::Bool(b) => Json::Bool(*b),
            RunValue::Unit => Json::Null,
            RunValue::Hole => json_str("<uninitialized>"),
            RunValue::Struct(d, fields) => {
                let inner = match self.scope.data_shape(*d) {
                    Some(shape) => self.field_map(&shape.fields, fields),
                    None => no_members(),
                };
                let mut ms = no_members();
                put(&mut ms, "data", json_str(self.def_label(*d)));
                put(&mut ms, "fields", json_object(inner));
                proof {
                    assert(members(ms@) =~= value_json_of(self@, *v)->Object_0);
                }
                json_object(ms)
            },
            RunValue::Array(elems) => self.value_items(elems),
            RunValue::Variant { def, tag, payload } => {
                let mut ms = no_members();
                put(&mut ms, "data", json_str(self.def_label(*def)));
                put(&mut ms, "variant", Json::Str(self.variant_label(*def, *tag)));
                put(&mut ms, "payload", self.value_items(payload));
                proof {
                    assert(members(ms@) =~= value_json_of(self@, *v)->Object_0);
                }
                json_object(ms)
            },
        }
    }
}

proof fn lemma_digit(d: nat)
    requires
        d < 10,
    ensures
        digit(d).len() == 1,
        digit(d)[0] as u32 == 48 + d,
{
    reveal_strlit("0");
    reveal_strlit("1");
    reveal_strlit("2");
    reveal_strlit("3");
    reveal_strlit("4");
    reveal_strlit("5");
    reveal_strlit("6");
    reveal_strlit("7");
    reveal_strlit("8");
    reveal_strlit("9");
}

proof fn lemma_dec_shape(n: nat)
    ensures
        dec(n).len() > 0,
        dec(n)[0] != '-',
    decreases n,
{
    if n < 10 {
        lemma_digit(n);
    } else {
        lemma_dec_shape(n / 10);
    }
}

proof fn lemma_dec_injective(a: nat, b: nat)
    requires
        dec(a) == dec(b),
    ensures
        a == b,
    decreases a,
{
    lemma_digit(a % 10);
    lemma_digit(b % 10);
    if a >= 10 {
        lemma_dec_shape(a / 10);
        assert(dec(a).drop_last() =~= dec(a / 10));
        assert(dec(a).last() == digit(a % 10)[0]);
    }
    if b >= 10 {
        lemma_dec_shape(b / 10);
        assert(dec(b).drop_last() =~= dec(b / 10));
        assert(dec(b).last() == digit(b % 10)[0]);
    }
    if a >= 10 && b >= 10 {
        lemma_dec_injective(a / 10, b / 10);
    } else if a < 10 && b < 10 {
        assert(digit(a)[0] == digit(b)[0]);
    }
}

proof fn lemma_int_text_injective(a: int, b: int)
    requires
        int_text(a) == int_text(b),
    ensures
        a == b,
{
    reveal_strlit("-");
    let x = if a < 0 {
        (-a) as nat
    } else {
        a as nat
    };
    let y = if b < 0 {
        (-b) as nat
    } else {
        b as nat
    };
    lemma_dec_shape(x);
    lemma_dec_shape(y);
    if a < 0 {
        assert(int_text(a)[0] == '-');
        assert(int_text(a).skip(1) =~= dec(x));
    } else {
        assert(int_text(a)[0] != '-');
    }
    if b < 0 {
        assert(int_text(b)[0] == '-');
        assert(int_text(b).skip(1) =~= dec(y));
    } else {
        assert(int_text(b)[0] != '-');
    }
    lemma_dec_injective(x, y);
}

/// No two integers share a JSON form.
pub proof fn law_int_json_injective(a: i128, b: i128)
    requires
        int_json_of(a) == int_json_of(b),
    ensures
        a == b,
{
    if int_json_of(a) is Str {
        lemma_int_text_injective(a as int, b as int);
    }
}

} // verus!
