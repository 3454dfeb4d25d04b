//! JSON values: what machine-readable requests and responses hold.

use crate::order::{lemma_text_le_total, lemma_text_le_transitive, text_before, text_le};
use crate::text::{same, texts};
use vstd::prelude::*;

verus! {

/// A JSON value. Numbers that are not 64-bit integers keep their text.
#[derive(Debug, PartialEq, Eq)]
pub enum Json {
    /// `null`
    Null,
    /// `true` or `false`
    Bool(bool),
    /// A non-negative integer.
    Uint(u64),
    /// A negative integer.
    Int(i64),
    /// Any other number, as written.
    Decimal(String),
    /// A string.
    Str(String),
    /// An array.
    Array(Vec<Json>),
    /// An object: members with distinct keys, see [`json_wf`].
    Object(Vec<Member>),
}

/// One member of a JSON object.
#[derive(Debug, PartialEq, Eq)]
pub struct Member {
    /// The key.
    pub key: String,
    /// The value.
    pub value: Json,
}

/// Model of [`Json`].
#[verifier::ext_equal]
pub enum JsonV {
    Null,
    Bool(bool),
    Uint(u64),
    Int(i64),
    Decimal(Seq<char>),
    Str(Seq<char>),
    Array(Seq<JsonV>),
    Object(Seq<MemberV>),
}

/// Model of [`Member`].
#[verifier::ext_equal]
pub struct MemberV {
    pub key: Seq<char>,
    pub value: JsonV,
}

/// The value of the first member named `key`.
pub open spec fn member(ms: Seq<MemberV>, key: Seq<char>) -> Option<JsonV>
    decreases ms.len(),
{
    if ms.len() == 0 {
        None
    } else if ms[0].key == key {
        Some(ms[0].value)
    } else {
        member(ms.subrange(1, ms.len() as int), key)
    }
}

/// `ms` with member `key` set to `value`: replaced in place when the
/// key occurs, added in front of the first greater key otherwise.
pub open spec fn with_member(ms: Seq<MemberV>, key: Seq<char>, value: JsonV) -> Seq<MemberV>
    decreases ms.len(),
{
    if ms.len() == 0 {
        seq![MemberV { key, value }]
    } else if ms[0].key == key {
        ms.update(0, MemberV { key, value })
    } else if member(ms, key) is None && text_le(key, ms[0].key) {
        seq![MemberV { key, value }] + ms
    } else {
        seq![ms[0]] + with_member(ms.subrange(1, ms.len() as int), key, value)
    }
}

/// Reading back the member that was set gives its value; every other
/// member keeps its value.
pub proof fn law_member_read_back(ms: Seq<MemberV>, key: Seq<char>, value: JsonV, other: Seq<char>)
    ensures
        member(with_member(ms, key, value), key) == Some(value),
        other != key ==> member(with_member(ms, key, value), other) == member(ms, other),
    decreases ms.len(),
{
    if ms.len() == 0 {
        let w = with_member(ms, key, value);
        reveal_with_fuel(member, 2);
        assert(w.subrange(1, 1) =~= Seq::<MemberV>::empty());
    } else {
        let rest = ms.subrange(1, ms.len() as int);
        let w = with_member(ms, key, value);
        if ms[0].key == key {
            assert(w.subrange(1, w.len() as int) =~= rest);
        } else if member(ms, key) is None && text_le(key, ms[0].key) {
            assert(w.subrange(1, w.len() as int) =~= ms);
        } else {
            law_member_read_back(rest, key, value, other);
            assert(w.subrange(1, w.len() as int) =~= with_member(rest, key, value));
        }
    }
}

/// The value `v[key]` reads: the member's value, `null` when there is
/// none or `v` is not an object.
pub open spec fn at_key(v: JsonV, key: Seq<char>) -> JsonV {
    match v {
        JsonV::Object(ms) => match member(ms, key) {
            Some(x) => x,
            None => JsonV::Null,
        },
        _ => JsonV::Null,
    }
}

/// The text of a string value.
pub open spec fn str_of(v: JsonV) -> Option<Seq<char>> {
    match v {
        JsonV::Str(s) => Some(s),
        _ => None,
    }
}

/// The value of a non-negative integer.
pub open spec fn uint_of(v: JsonV) -> Option<u64> {
    match v {
        JsonV::Uint(n) => Some(n),
        _ => None,
    }
}

/// The value of a boolean.
pub open spec fn bool_of(v: JsonV) -> Option<bool> {
    match v {
        JsonV::Bool(b) => Some(b),
        _ => None,
    }
}

/// The models of a sequence of members.
pub open spec fn members(ms: Seq<Member>) -> Seq<MemberV> {
    Seq::new(ms.len(), |i: int| ms[i]@)
}

impl Member {
    /// The model of this member.
    pub open spec fn view(&self) -> MemberV
        decreases self,
    {
        MemberV { key: self.key@, value: self.value.view() }
    }

    /// A copy of this member.
    fn copy(&self) -> (r: Member)
        ensures
            r@ == self@,
        decreases self,
    {
        Member { key: self.key.clone(), value: self.value.copy() }
    }
}

impl Json {
    /// The model of this value.
    pub open spec fn view(&self) -> JsonV
        decreases self,
    {
        match self {
            Json::Null => JsonV::Null,
            Json::Bool(b) => JsonV::Bool(*b),
            Json::Uint(n) => JsonV::Uint(*n),
            Json::Int(n) => JsonV::Int(*n),
            Json::Decimal(s) => JsonV::Decimal(s@),
            Json::Str(s) => JsonV::Str(s@),
            Json::Array(v) => JsonV::Array(
                Seq::new(
                    v@.len(),
                    |i: int|
                        if 0 <= i < v@.len() {
                            v@[i].view()
                        } else {
                            arbitrary()
                        },
                ),
            ),
            Json::Object(v) => JsonV::Object(
                Seq::new(
                    v@.len(),
                    |i: int|
                        if 0 <= i < v@.len() {
                            v@[i].view()
                        } else {
                            arbitrary()
                        },
                ),
            ),
        }
    }

    /// A copy of this value.
    pub fn copy(&self) -> (r: Json)
        ensures
            r@ == self@,
        decreases self,
    {
        match self {
            Json::Null => Json::Null,
            Json::Bool(b) => Json::Bool(*b),
            Json::Uint(n) => Json::Uint(*n),
            Json::Int(n) => Json::Int(*n),
            Json::Decimal(s) => Json::Decimal(s.clone()),
            Json::Str(s) => Json::Str(s.clone()),
            Json::Array(v) => {
                let mut out: Vec<Json> = Vec::new();
                let mut i: usize = 0;
                while i < v.len()
                    invariant
                        i <= v@.len(),
                        out@.len() == i,
                        self matches Json::Array(w) && w == v,
                        forall|j: int| 0 <= j < i ==> (#[trigger] out@[j])@ == v@[j]@,
                    decreases v@.len() - i,
                {
                    out.push(v[i].copy());
                    i += 1;
                }
                let r = Json::Array(out);
                proof {
                    assert(r@->Array_0 =~= self@->Array_0);
                }
                r
            },
            Json::Object(v) => {
                let mut out: Vec<Member> = Vec::new();
                let mut i: usize = 0;
                while i < v.len()
                    invariant
                        i <= v@.len(),
                        out@.len() == i,
                        self matches Json::Object(w) && w == v,
                        forall|j: int| 0 <= j < i ==> (#[trigger] out@[j])@ == v@[j]@,
                    decreases v@.len() - i,
                {
                    out.push(v[i].copy());
                    i += 1;
                }
                let r = Json::Object(out);
                proof {
                    assert(r@->Object_0 =~= self@->Object_0);
                }
                r
            },
        }
    }

    /// The value of member `key`, when this is an object that has it.
    pub fn get(&self, key: &str) -> (r: Option<&Json>)
        ensures
            match (self@, r) {
                (JsonV::Object(ms), Some(v)) => member(ms, key@) == Some(v@),
                (JsonV::Object(ms), None) => member(ms, key@) is None,
                (_, r) => r is None,
            },
    {
        match self {
            Json::Object(ms) => {
                proof {
                    assert(self@->Object_0 =~= members(ms@));
                }
                find_member(ms, key)
            },
            _ => None,
        }
    }

    /// The string `self[key]` holds, if it is one.
    pub fn get_str(&self, key: &str) -> (r: Option<&str>)
        ensures
            (match r {
                Some(s) => Some(s@),
                None => None,
            }) == str_of(at_key(self@, key@)),
    {
        match self.get(key) {
            Some(v) => v.as_str(),
            None => None,
        }
    }

    /// The non-negative integer `self[key]` holds, if it is one.
    pub fn get_u64(&self, key: &str) -> (r: Option<u64>)
        ensures
            r == uint_of(at_key(self@, key@)),
    {
        match self.get(key) {
            Some(Json::Uint(n)) => Some(*n),
            _ => None,
        }
    }

    /// The boolean `self[key]` holds, if it is one.
    pub fn get_bool(&self, key: &str) -> (r: Option<bool>)
        ensures
            r == bool_of(at_key(self@, key@)),
    {
        match self.get(key) {
            Some(Json::Bool(b)) => Some(*b),
            _ => None,
        }
    }

    /// The text of a string value.
    pub fn as_str(&self) -> (r: Option<&str>)
        ensures
            (match r {
                Some(s) => Some(s@),
                None => None,
            }) == str_of(self@),
    {
        match self {
            Json::Str(s) => Some(s.as_str()),
            _ => None,
        }
    }
}

/// The value of the first member named `key`.
pub fn find_member<'a>(ms: &'a Vec<Member>, key: &str) -> (r: Option<&'a Json>)
    ensures
        match r {
            Some(v) => member(members(ms@), key@) == Some(v@),
            None => member(members(ms@), key@) is None,
        },
{
    let ghost all = members(ms@);
    let mut i: usize = 0;
    proof {
        assert(all.subrange(0, all.len() as int) =~= all);
    }
    while i < ms.len()
        invariant
            i <= ms@.len(),
            all == members(ms@),
            member(all.subrange(i as int, all.len() as int), key@) == member(all, key@),
        decreases ms@.len() - i,
    {
        let ghost rest = all.subrange(i as int, all.len() as int);
        if same(ms[i].key.as_str(), key) {
            return Some(&ms[i].value);
        }
        proof {
            assert(rest.subrange(1, rest.len() as int) =~= all.subrange(i + 1, all.len() as int));
        }
        i += 1;
    }
    None
}

/// Sets member `key` to `value`.
pub fn set_member(ms: &mut Vec<Member>, key: &str, value: Json)
    ensures
        members(final(ms)@) == with_member(members(old(ms)@), key@, value@),
{
    let known = find_member(ms, key).is_some();
    let ghost all = members(ms@);
    let mut i: usize = 0;
    proof {
        assert(all.subrange(0, all.len() as int) =~= all);
        assert(all.subrange(0, 0) + with_member(all, key@, value@) =~= with_member(
            all,
            key@,
            value@,
        ));
    }
    while i < ms.len()
        invariant
            i <= ms@.len(),
            all == members(ms@),
            all == members(old(ms)@),
            known == (member(all.subrange(i as int, all.len() as int), key@) is Some),
            all.subrange(0, i as int) + with_member(
                all.subrange(i as int, all.len() as int),
                key@,
                value@,
            ) == with_member(all, key@, value@),
        decreases ms@.len() - i,
    {
        let ghost rest = all.subrange(i as int, all.len() as int);
        assert(rest[0] == ms@[i as int]@);
        if same(ms[i].key.as_str(), key) {
            ms.set(i, Member { key: key.to_owned(), value });
            proof {
                assert(members(ms@) =~= all.subrange(0, i as int) + with_member(
                    rest,
                    key@,
                    value@,
                ));
            }
            return;
        }
        if !known && text_before(key, ms[i].key.as_str()) {
            ms.insert(i, Member { key: key.to_owned(), value });
            proof {
                assert(members(ms@) =~= all.subrange(0, i as int) + with_member(
                    rest,
                    key@,
                    value@,
                ));
            }
            return;
        }
        proof {
            let tail = all.subrange(i + 1, all.len() as int);
            assert(rest.subrange(1, rest.len() as int) =~= tail);
            assert(all.subrange(0, i + 1) + with_member(tail, key@, value@) =~= all.subrange(
                0,
                i as int,
            ) + with_member(rest, key@, value@));
        }
        i += 1;
    }
    ms.push(Member { key: key.to_owned(), value });
    proof {
        let rest = all.subrange(all.len() as int, all.len() as int);
        assert(members(ms@) =~= all.subrange(0, all.len() as int) + with_member(
            rest,
            key@,
            value@,
        ));
    }
}

// ---------- building ----------

/// A member with a key and a value.
pub open spec fn mem(key: Seq<char>, value: JsonV) -> MemberV {
    MemberV { key, value }
}

/// The models of a sequence of values.
pub open spec fn jsons(v: Seq<Json>) -> Seq<JsonV> {
    Seq::new(v.len(), |i: int| v[i]@)
}

/// A string value.
pub fn json_str(s: &str) -> (r: Json)
    ensures
        r@ == JsonV::Str(s@),
{
    Json::Str(s.to_owned())
}

/// An array of values.
pub fn json_array(v: Vec<Json>) -> (r: Json)
    ensures
        r@ == JsonV::Array(jsons(v@)),
{
    let r = Json::Array(v);
    proof {
        assert(r@->Array_0 =~= jsons(v@));
    }
    r
}

/// An object of members.
pub fn json_object(ms: Vec<Member>) -> (r: Json)
    ensures
        r@ == JsonV::Object(members(ms@)),
{
    let r = Json::Object(ms);
    proof {
        assert(r@->Object_0 =~= members(ms@));
    }
    r
}

/// Adds a member behind the others.
pub fn put(ms: &mut Vec<Member>, key: &str, value: Json)
    ensures
        members(final(ms)@) == members(old(ms)@).push(mem(key@, value@)),
{
    let ghost before = members(ms@);
    let m = Member { key: key.to_owned(), value };
    let ghost mv = m@;
    ms.push(m);
    proof {
        assert(members(ms@) =~= before.push(mv));
    }
}

/// Adds a value behind the others.
pub fn put_item(v: &mut Vec<Json>, value: Json)
    ensures
        jsons(final(v)@) == jsons(old(v)@).push(value@),
{
    let ghost before = jsons(v@);
    let ghost x = value@;
    v.push(value);
    proof {
        assert(jsons(v@) =~= before.push(x));
    }
}

/// No members.
pub fn no_members() -> (r: Vec<Member>)
    ensures
        members(r@) == Seq::<MemberV>::empty(),
{
    let v: Vec<Member> = Vec::new();
    proof {
        assert(members(v@) =~= Seq::empty());
    }
    v
}

/// No values.
pub fn no_items() -> (r: Vec<Json>)
    ensures
        jsons(r@) == Seq::<JsonV>::empty(),
{
    let v: Vec<Json> = Vec::new();
    proof {
        assert(jsons(v@) =~= Seq::empty());
    }
    v
}

/// The string values of a sequence of texts.
pub open spec fn str_items(v: Seq<Seq<char>>) -> Seq<JsonV> {
    Seq::new(v.len(), |i: int| JsonV::Str(v[i]))
}

/// An array of strings.
pub fn json_texts(v: &Vec<String>) -> (r: Json)
    ensures
        r@ == JsonV::Array(str_items(texts(v@))),
{
    let ghost all = str_items(texts(v@));
    let mut out = no_items();
    let mut i: usize = 0;
    proof {
        assert(all.take(0) =~= Seq::empty());
    }
    while i < v.len()
        invariant
            i <= v@.len(),
            all == str_items(texts(v@)),
            jsons(out@) == all.take(i as int),
        decreases v@.len() - i,
    {
        put_item(&mut out, json_str(v[i].as_str()));
        i += 1;
        proof {
            assert(all.take(i as int) =~= all.take(i - 1).push(all[i - 1]));
        }
    }
    proof {
        assert(all.take(all.len() as int) =~= all);
    }
    json_array(out)
}

// ---------- objects as maps ----------

/// Members in ascending order of their keys, each key once.
pub open spec fn key_sorted(ms: Seq<MemberV>) -> bool {
    forall|i: int, j: int|
        0 <= i < j < ms.len() ==> text_le(#[trigger] ms[i].key, #[trigger] ms[j].key) && ms[i].key
            != ms[j].key
}

/// Setting a member keeps the order of the keys.
pub proof fn law_with_member_sorted(ms: Seq<MemberV>, key: Seq<char>, value: JsonV)
    requires
        key_sorted(ms),
    ensures
        key_sorted(with_member(ms, key, value)),
        forall|j: int|
            0 <= j < with_member(ms, key, value).len() ==> (#[trigger] with_member(
                ms,
                key,
                value,
            )[j]).key == key || exists|i: int|
                0 <= i < ms.len() && ms[i].key == with_member(ms, key, value)[j].key,
    decreases ms.len(),
{
    let w = with_member(ms, key, value);
    if ms.len() > 0 && ms[0].key != key {
        let rest = ms.subrange(1, ms.len() as int);
        assert(key_sorted(rest)) by {
            assert forall|i: int, j: int| 0 <= i < j < rest.len() implies text_le(
                #[trigger] rest[i].key,
                #[trigger] rest[j].key,
            ) && rest[i].key != rest[j].key by {
                assert(rest[i] == ms[i + 1] && rest[j] == ms[j + 1]);
            }
        }
        if member(ms, key) is None && text_le(key, ms[0].key) {
            assert forall|i: int, j: int| 0 <= i < j < w.len() implies text_le(
                #[trigger] w[i].key,
                #[trigger] w[j].key,
            ) && w[i].key != w[j].key by {
                assert(w[j] == ms[j - 1]);
                if i > 0 {
                    assert(w[i] == ms[i - 1]);
                } else {
                    lemma_member_none(ms, key, j - 1);
                    if j > 1 {
                        assert(text_le(ms[0].key, ms[j - 1].key));
                        lemma_text_le_transitive(key, ms[0].key, ms[j - 1].key);
                    }
                }
            }
            assert forall|j: int| 0 <= j < w.len() implies (#[trigger] w[j]).key == key || exists|
                i: int,
            |
                0 <= i < ms.len() && ms[i].key == w[j].key by {
                if j > 0 {
                    assert(w[j] == ms[j - 1]);
                }
            }
        } else {
            law_with_member_sorted(rest, key, value);
            let v = with_member(rest, key, value);
            assert(text_le(ms[0].key, key)) by {
                lemma_text_le_total(ms[0].key, key);
                if member(ms, key) is Some {
                    lemma_member_some(rest, key);
                    let i = choose|i: int| 0 <= i < rest.len() && rest[i].key == key;
                    assert(rest[i] == ms[i + 1]);
                }
            }
            assert forall|i: int, j: int| 0 <= i < j < w.len() implies text_le(
                #[trigger] w[i].key,
                #[trigger] w[j].key,
            ) && w[i].key != w[j].key by {
                assert(w[j] == v[j - 1]);
                if i > 0 {
                    assert(w[i] == v[i - 1]);
                } else if v[j - 1].key != key {
                    let k = choose|k: int| 0 <= k < rest.len() && rest[k].key == v[j - 1].key;
                    assert(rest[k] == ms[k + 1]);
                }
            }
            assert forall|j: int| 0 <= j < w.len() implies (#[trigger] w[j]).key == key || exists|
                i: int,
            |
                0 <= i < ms.len() && ms[i].key == w[j].key by {
                if j > 0 {
                    assert(w[j] == v[j - 1]);
                    if v[j - 1].key != key {
                        let k = choose|k: int| 0 <= k < rest.len() && rest[k].key == v[j - 1].key;
                        assert(ms[k + 1].key == w[j].key);
                    }
                } else {
                    assert(ms[0].key == w[0].key);
                }
            }
        }
    } else if ms.len() > 0 {
        assert forall|i: int, j: int| 0 <= i < j < w.len() implies text_le(
            #[trigger] w[i].key,
            #[trigger] w[j].key,
        ) && w[i].key != w[j].key by {
            assert(w[i].key == ms[i].key && w[j].key == ms[j].key);
        }
        assert forall|j: int| 0 <= j < w.len() implies (#[trigger] w[j]).key == key || exists|
            i: int,
        |
            0 <= i < ms.len() && ms[i].key == w[j].key by {
            assert(ms[j].key == w[j].key);
        }
    }
}

proof fn lemma_member_none(ms: Seq<MemberV>, key: Seq<char>, i: int)
    requires
        member(ms, key) is None,
        0 <= i < ms.len(),
    ensures
        ms[i].key != key,
    decreases ms.len(),
{
    if i > 0 {
        let rest = ms.subrange(1, ms.len() as int);
        lemma_member_none(rest, key, i - 1);
        assert(rest[i - 1] == ms[i]);
    }
}

proof fn lemma_member_some(ms: Seq<MemberV>, key: Seq<char>)
    requires
        member(ms, key) is Some,
    ensures
        exists|i: int| 0 <= i < ms.len() && ms[i].key == key,
    decreases ms.len(),
{
    if ms[0].key != key {
        let rest = ms.subrange(1, ms.len() as int);
        lemma_member_some(rest, key);
        let i = choose|i: int| 0 <= i < rest.len() && rest[i].key == key;
        assert(ms[i + 1].key == key);
    } else {
        assert(ms[0].key == key);
    }
}

/// Whether two lists of members give the same value for every key.
pub open spec fn same_map(a: Seq<MemberV>, b: Seq<MemberV>) -> bool {
    forall|k: Seq<char>| #[trigger] member(a, k) == member(b, k)
}

/// The first key of a sorted list is the least.
proof fn lemma_first_least(ms: Seq<MemberV>, key: Seq<char>)
    requires
        key_sorted(ms),
        ms.len() > 0,
        member(ms, key) is Some,
    ensures
        text_le(ms[0].key, key),
{
    lemma_member_some(ms, key);
    let i = choose|i: int| 0 <= i < ms.len() && ms[i].key == key;
    if i == 0 {
        lemma_text_le_total(key, key);
    }
}

/// Members in key order are equal when they give the same values: an
/// object is its members, not the order they were set in.
pub proof fn law_sorted_members_equal(a: Seq<MemberV>, b: Seq<MemberV>)
    requires
        key_sorted(a),
        key_sorted(b),
        same_map(a, b),
    ensures
        a == b,
    decreases a.len(),
{
    if a.len() == 0 {
        if b.len() > 0 {
            assert(member(a, b[0].key) == member(b, b[0].key));
        }
        assert(a =~= b);
    } else {
        let k = a[0].key;
        assert(member(a, k) == member(b, k));
        assert(b.len() > 0);
        lemma_first_least(b, k);
        assert(member(a, b[0].key) == member(b, b[0].key));
        lemma_first_least(a, b[0].key);
        lemma_text_le_antisymmetric(k, b[0].key);
        let x = a.subrange(1, a.len() as int);
        let y = b.subrange(1, b.len() as int);
        assert forall|i: int, j: int| 0 <= i < j < x.len() implies text_le(
            #[trigger] x[i].key,
            #[trigger] x[j].key,
        ) && x[i].key != x[j].key by {
            assert(x[i] == a[i + 1] && x[j] == a[j + 1]);
        }
        assert forall|i: int, j: int| 0 <= i < j < y.len() implies text_le(
            #[trigger] y[i].key,
            #[trigger] y[j].key,
        ) && y[i].key != y[j].key by {
            assert(y[i] == b[i + 1] && y[j] == b[j + 1]);
        }
        assert forall|q: Seq<char>| #[trigger] member(x, q) == member(y, q) by {
            assert(member(a, q) == member(b, q));
            if q == k {
                if member(x, q) is Some {
                    lemma_member_some(x, q);
                    let i = choose|i: int| 0 <= i < x.len() && x[i].key == q;
                    assert(x[i] == a[i + 1]);
                }
                if member(y, q) is Some {
                    lemma_member_some(y, q);
                    let i = choose|i: int| 0 <= i < y.len() && y[i].key == q;
                    assert(y[i] == b[i + 1]);
                }
            }
        }
        law_sorted_members_equal(x, y);
        assert(a =~= seq![a[0]] + x);
        assert(b =~= seq![b[0]] + y);
    }
}

proof fn lemma_text_le_antisymmetric(a: Seq<char>, b: Seq<char>)
    requires
        text_le(a, b),
        text_le(b, a),
    ensures
        a == b,
    decreases a.len(),
{
    if a.len() == 0 || b.len() == 0 {
        assert(a =~= b);
    } else {
        let x = a.subrange(1, a.len() as int);
        let y = b.subrange(1, b.len() as int);
        lemma_text_le_antisymmetric(x, y);
        assert(a =~= seq![a[0]] + x);
        assert(b =~= seq![b[0]] + y);
    }
}

/// It does not matter in which order two members are set.
pub proof fn law_member_order_free(
    ms: Seq<MemberV>,
    k1: Seq<char>,
    v1: JsonV,
    k2: Seq<char>,
    v2: JsonV,
)
    requires
        key_sorted(ms),
        k1 != k2,
    ensures
        with_member(with_member(ms, k1, v1), k2, v2) == with_member(
            with_member(ms, k2, v2),
            k1,
            v1,
        ),
{
    let a = with_member(with_member(ms, k1, v1), k2, v2);
    let b = with_member(with_member(ms, k2, v2), k1, v1);
    law_with_member_sorted(ms, k1, v1);
    law_with_member_sorted(ms, k2, v2);
    law_with_member_sorted(with_member(ms, k1, v1), k2, v2);
    law_with_member_sorted(with_member(ms, k2, v2), k1, v1);
    assert forall|k: Seq<char>| #[trigger] member(a, k) == member(b, k) by {
        law_member_read_back(ms, k1, v1, k);
        law_member_read_back(ms, k2, v2, k);
        law_member_read_back(with_member(ms, k1, v1), k2, v2, k);
        law_member_read_back(with_member(ms, k2, v2), k1, v1, k);
    }
    law_sorted_members_equal(a, b);
}

/// A value with the members of its objects in key order; of members
/// with one key the last counts.
pub open spec fn normal(v: JsonV) -> JsonV
    decreases v, 0int,
{
    match v {
        JsonV::Array(xs) => JsonV::Array(normal_items(xs, xs.len() as int)),
        JsonV::Object(ms) => JsonV::Object(normal_first(ms, ms.len() as int)),
        _ => v,
    }
}

/// The first `n` values in [`normal`] form.
pub open spec fn normal_items(xs: Seq<JsonV>, n: int) -> Seq<JsonV>
    decreases xs, n,
{
    if 0 < n <= xs.len() {
        normal_items(xs, n - 1).push(normal(xs[n - 1]))
    } else {
        Seq::empty()
    }
}

/// The first `n` members in [`normal`] form.
pub open spec fn normal_first(ms: Seq<MemberV>, n: int) -> Seq<MemberV>
    decreases ms, n,
{
    if 0 < n <= ms.len() {
        with_member(normal_first(ms, n - 1), ms[n - 1].key, normal(ms[n - 1].value))
    } else {
        Seq::empty()
    }
}

/// Members in [`normal`] form.
pub open spec fn normal_members(ms: Seq<MemberV>) -> Seq<MemberV> {
    normal_first(ms, ms.len() as int)
}

/// Whether every object in a value has its members in key order, each
/// key once.
pub open spec fn json_wf(v: JsonV) -> bool
    decreases v,
{
    match v {
        JsonV::Array(xs) => forall|i: int| 0 <= i < xs.len() ==> json_wf(#[trigger] xs[i]),
        JsonV::Object(ms) => key_sorted(ms) && forall|i: int|
            0 <= i < ms.len() ==> json_wf((#[trigger] ms[i]).value),
        _ => true,
    }
}

proof fn lemma_normal_items(xs: Seq<JsonV>, n: int)
    requires
        0 <= n <= xs.len(),
    ensures
        normal_items(xs, n).len() == n,
        forall|i: int| 0 <= i < n ==> json_wf(#[trigger] normal_items(xs, n)[i]),
    decreases xs, n,
{
    if n > 0 {
        lemma_normal_items(xs, n - 1);
        law_normal_wf(xs[n - 1]);
    }
}

proof fn lemma_with_member_values(ms: Seq<MemberV>, key: Seq<char>, value: JsonV)
    requires
        json_wf(value),
        forall|i: int| 0 <= i < ms.len() ==> json_wf((#[trigger] ms[i]).value),
    ensures
        forall|i: int|
            0 <= i < with_member(ms, key, value).len() ==> json_wf(
                (#[trigger] with_member(ms, key, value)[i]).value,
            ),
    decreases ms.len(),
{
    let w = with_member(ms, key, value);
    if ms.len() > 0 && ms[0].key != key {
        let rest = ms.subrange(1, ms.len() as int);
        assert forall|i: int| 0 <= i < rest.len() implies json_wf((#[trigger] rest[i]).value) by {
            assert(rest[i] == ms[i + 1]);
        }
        lemma_with_member_values(rest, key, value);
        assert forall|i: int| 0 <= i < w.len() implies json_wf((#[trigger] w[i]).value) by {
            if member(ms, key) is None && text_le(key, ms[0].key) {
                if i > 0 {
                    assert(w[i] == ms[i - 1]);
                }
            } else if i > 0 {
                assert(w[i] == with_member(rest, key, value)[i - 1]);
            } else {
                assert(w[0] == ms[0]);
            }
        }
    }
}

proof fn lemma_normal_first(ms: Seq<MemberV>, n: int)
    requires
        0 <= n <= ms.len(),
    ensures
        key_sorted(normal_first(ms, n)),
        forall|i: int|
            0 <= i < normal_first(ms, n).len() ==> json_wf((#[trigger] normal_first(ms, n)[i]).value),
    decreases ms, n,
{
    if n > 0 {
        lemma_normal_first(ms, n - 1);
        law_normal_wf(ms[n - 1].value);
        law_with_member_sorted(
            normal_first(ms, n - 1),
            ms[n - 1].key,
            normal(ms[n - 1].value),
        );
        lemma_with_member_values(
            normal_first(ms, n - 1),
            ms[n - 1].key,
            normal(ms[n - 1].value),
        );
    }
}

/// The normal form of a value is well formed.
pub proof fn law_normal_wf(v: JsonV)
    ensures
        json_wf(normal(v)),
    decreases v, 0int,
{
    match v {
        JsonV::Array(xs) => {
            lemma_normal_items(xs, xs.len() as int);
        },
        JsonV::Object(ms) => {
            lemma_normal_first(ms, ms.len() as int);
        },
        _ => {},
    }
}

/// Whether no two members have one key.
pub open spec fn distinct_keys(ms: Seq<MemberV>) -> bool {
    forall|i: int, j: int| 0 <= i < j < ms.len() ==> #[trigger] ms[i].key != #[trigger] ms[j].key
}

/// What a key holds in the first `n` members.
spec fn among(ms: Seq<MemberV>, n: int, key: Seq<char>) -> Option<JsonV>
    decreases n,
{
    if 0 < n <= ms.len() {
        if ms[n - 1].key == key {
            Some(ms[n - 1].value)
        } else {
            among(ms, n - 1, key)
        }
    } else {
        None
    }
}

proof fn lemma_among(ms: Seq<MemberV>, n: int, key: Seq<char>)
    requires
        0 <= n <= ms.len(),
    ensures
        match among(ms, n, key) {
            Some(v) => exists|i: int| 0 <= i < n && #[trigger] ms[i].key == key && ms[i].value == v,
            None => forall|i: int| 0 <= i < n ==> #[trigger] ms[i].key != key,
        },
    decreases n,
{
    if n > 0 {
        lemma_among(ms, n - 1, key);
        if ms[n - 1].key == key {
            assert(ms[n - 1].key == key);
        }
    }
}

proof fn lemma_member_at(ms: Seq<MemberV>, i: int)
    requires
        distinct_keys(ms),
        0 <= i < ms.len(),
    ensures
        member(ms, ms[i].key) == Some(ms[i].value),
    decreases ms.len(),
{
    if i > 0 {
        assert(ms[0].key != ms[i].key);
        let rest = ms.subrange(1, ms.len() as int);
        assert forall|x: int, y: int| 0 <= x < y < rest.len() implies #[trigger] rest[x].key
            != #[trigger] rest[y].key by {
            assert(rest[x] == ms[x + 1] && rest[y] == ms[y + 1]);
        }
        lemma_member_at(rest, i - 1);
        assert(rest[i - 1] == ms[i]);
    }
}

proof fn lemma_normal_member(ms: Seq<MemberV>, n: int, key: Seq<char>)
    requires
        0 <= n <= ms.len(),
    ensures
        member(normal_first(ms, n), key) == match among(ms, n, key) {
            Some(v) => Some(normal(v)),
            None => None,
        },
    decreases n,
{
    if n > 0 {
        lemma_normal_member(ms, n - 1, key);
        law_member_read_back(
            normal_first(ms, n - 1),
            ms[n - 1].key,
            normal(ms[n - 1].value),
            key,
        );
    }
}

proof fn lemma_among_is_member(ms: Seq<MemberV>, key: Seq<char>)
    requires
        distinct_keys(ms),
    ensures
        among(ms, ms.len() as int, key) == member(ms, key),
{
    lemma_among(ms, ms.len() as int, key);
    match among(ms, ms.len() as int, key) {
        Some(v) => {
            let i = choose|i: int|
                0 <= i < ms.len() && #[trigger] ms[i].key == key && ms[i].value == v;
            lemma_member_at(ms, i);
        },
        None => {
            if member(ms, key) is Some {
                lemma_member_some(ms, key);
            }
        },
    }
}

/// The normal form of members goes by what they give for each key, not
/// by their order.
pub proof fn law_normal_is_a_map(a: Seq<MemberV>, b: Seq<MemberV>)
    requires
        distinct_keys(a),
        distinct_keys(b),
        same_map(a, b),
    ensures
        normal_members(a) == normal_members(b),
{
    lemma_normal_first(a, a.len() as int);
    lemma_normal_first(b, b.len() as int);
    assert forall|k: Seq<char>| #[trigger] member(normal_members(a), k) == member(
        normal_members(b),
        k,
    ) by {
        lemma_normal_member(a, a.len() as int, k);
        lemma_normal_member(b, b.len() as int, k);
        lemma_among_is_member(a, k);
        lemma_among_is_member(b, k);
        assert(member(a, k) == member(b, k));
    }
    law_sorted_members_equal(normal_members(a), normal_members(b));
}

impl Json {
    /// This value with the members of its objects in key order.
    pub fn normal(&self) -> (r: Json)
        ensures
            r@ == normal(self@),
        decreases self,
    {
        match self {
            Json::Array(v) => {
                let ghost all = self@->Array_0;
                let mut out: Vec<Json> = Vec::new();
                let mut i: usize = 0;
                proof {
                    assert(jsons(out@) =~= normal_items(all, 0));
                }
                while i < v.len()
                    invariant
                        i <= v@.len(),
                        self matches Json::Array(w) && w == v,
                        all == self@->Array_0,
                        all.len() == v@.len(),
                        jsons(out@) == normal_items(all, i as int),
                    decreases v@.len() - i,
                {
                    let ghost before = jsons(out@);
                    let x = v[i].normal();
                    let ghost xv = x@;
                    out.push(x);
                    proof {
                        assert(all[i as int] == v@[i as int]@);
                        assert(jsons(out@) =~= before.push(xv));
                    }
                    i += 1;
                }
                json_array(out)
            },
            Json::Object(v) => {
                let ghost all = self@->Object_0;
                let mut out: Vec<Member> = Vec::new();
                let mut i: usize = 0;
                proof {
                    assert(members(out@) =~= normal_first(all, 0));
                }
                while i < v.len()
                    invariant
                        i <= v@.len(),
                        self matches Json::Object(w) && w == v,
                        all == self@->Object_0,
                        all.len() == v@.len(),
                        members(out@) == normal_first(all, i as int),
                    decreases v@.len() - i,
                {
                    assert(all[i as int] == v@[i as int]@);
                    let x = v[i].value.normal();
                    set_member(&mut out, v[i].key.as_str(), x);
                    i += 1;
                }
                json_object(out)
            },
            _ => self.copy(),
        }
    }
}

/// Members in key order, and the objects in their values too.
pub fn normal_list(ms: &Vec<Member>) -> (r: Vec<Member>)
    ensures
        members(r@) == normal_members(members(ms@)),
{
    let ghost all = members(ms@);
    let mut out: Vec<Member> = Vec::new();
    let mut i: usize = 0;
    proof {
        assert(members(out@) =~= normal_first(all, 0));
    }
    while i < ms.len()
        invariant
            i <= ms@.len(),
            all == members(ms@),
            members(out@) == normal_first(all, i as int),
        decreases ms@.len() - i,
    {
        assert(all[i as int] == ms@[i as int]@);
        let x = ms[i].value.normal();
        set_member(&mut out, ms[i].key.as_str(), x);
        i += 1;
    }
    out
}

} // verus!
