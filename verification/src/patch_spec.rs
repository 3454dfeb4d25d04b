//! Patch specs: the JSON form of a list of ops.
//!
//! The spec is `{"ops": [...]}` or a bare `[...]`:
//!
//! ```json
//! {"ops": [
//!   {"op": "replace_body", "symbol": "m::f", "body": "{ return x + 1; }"},
//!   {"op": "set_ret_type", "symbol": "m::f", "ty": "i32"},
//!   {"op": "add_use", "module": "m", "path": "dep::T", "as": "T2"}
//! ]}
//! ```
//!
//! Malformed specs surface as `E_MALFORMED_PATCH` diagnostics, and every
//! rejection names the exact field and op index.

use crate::code::Code;
use crate::diagnostic::{error_of, Diagnostic, DiagnosticV};
use crate::json::{at_key, jsons, member, str_of, Json, JsonV};
use crate::patch::PatchOp;
use crate::text::{cat3, cat4, dec, decimal, opt_text, same};
use vstd::prelude::*;

verus! {

/// Model of [`PatchOp`].
#[allow(inconsistent_fields)]
#[verifier::ext_equal]
pub enum OpV {
    ReplaceBody { symbol: Seq<char>, body: Seq<char> },
    RemoveDef { symbol: Seq<char> },
    AddDef { module: Option<Seq<char>>, text: Seq<char> },
    RenameParam { symbol: Seq<char>, param: Seq<char>, to: Seq<char> },
    SetParamType { symbol: Seq<char>, param: Seq<char>, ty: Seq<char> },
    SetRetType { symbol: Seq<char>, ty: Option<Seq<char>> },
    AddUse { module: Option<Seq<char>>, path: Seq<char>, alias: Option<Seq<char>> },
    RemoveUse { module: Option<Seq<char>>, path: Seq<char>, alias: Option<Seq<char>> },
    AddField { symbol: Seq<char>, field: Seq<char>, ty: Seq<char> },
    RemoveField { symbol: Seq<char>, field: Seq<char> },
    RenameField { symbol: Seq<char>, field: Seq<char>, to: Seq<char> },
    SetFieldType { symbol: Seq<char>, field: Seq<char>, ty: Seq<char> },
}

impl PatchOp {
    /// The model of this op.
    pub open spec fn view(&self) -> OpV {
        match self {
            PatchOp::ReplaceBody { symbol, body } => OpV::ReplaceBody {
                symbol: symbol@,
                body: body@,
            },
            PatchOp::RemoveDef { symbol } => OpV::RemoveDef { symbol: symbol@ },
            PatchOp::AddDef { module, text } => OpV::AddDef {
                module: opt_text(*module),
                text: text@,
            },
            PatchOp::RenameParam { symbol, param, to } => OpV::RenameParam {
                symbol: symbol@,
                param: param@,
                to: to@,
            },
            PatchOp::SetParamType { symbol, param, ty } => OpV::SetParamType {
                symbol: symbol@,
                param: param@,
                ty: ty@,
            },
            PatchOp::SetRetType { symbol, ty } => OpV::SetRetType {
                symbol: symbol@,
                ty: opt_text(*ty),
            },
            PatchOp::AddUse { module, path, alias } => OpV::AddUse {
                module: opt_text(*module),
                path: path@,
                alias: opt_text(*alias),
            },
            PatchOp::RemoveUse { module, path, alias } => OpV::RemoveUse {
                module: opt_text(*module),
                path: path@,
                alias: opt_text(*alias),
            },
            PatchOp::AddField { symbol, field, ty } => OpV::AddField {
                symbol: symbol@,
                field: field@,
                ty: ty@,
            },
            PatchOp::RemoveField { symbol, field } => OpV::RemoveField {
                symbol: symbol@,
                field: field@,
            },
            PatchOp::RenameField { symbol, field, to } => OpV::RenameField {
                symbol: symbol@,
                field: field@,
                to: to@,
            },
            PatchOp::SetFieldType { symbol, field, ty } => OpV::SetFieldType {
                symbol: symbol@,
                field: field@,
                ty: ty@,
            },
        }
    }
}

/// The models of a sequence of ops.
pub open spec fn ops_view(v: Seq<PatchOp>) -> Seq<OpV> {
    Seq::new(v.len(), |i: int| v[i]@)
}

/// The rejection of a spec.
pub open spec fn spec_error(message: Seq<char>) -> DiagnosticV {
    error_of(Code::MalformedPatch, message)
}

/// The rejection of one op.
pub open spec fn op_error(i: nat, message: Seq<char>) -> DiagnosticV {
    spec_error("ops["@ + dec(i) + "]: "@ + message)
}

/// A required string field.
pub open spec fn need_of(i: nat, kind: Seq<char>, op: JsonV, field: Seq<char>) -> Result<
    Seq<char>,
    DiagnosticV,
> {
    match str_of(at_key(op, field)) {
        Some(s) => Ok(s),
        None => Err(
            spec_error(
                "ops["@ + dec(i) + "] "@ + kind + ": missing string field `"@ + field + "`"@,
            ),
        ),
    }
}

/// The value of a field, when the op has it.
pub open spec fn field_of(op: JsonV, field: Seq<char>) -> Option<JsonV> {
    match op {
        JsonV::Object(ms) => member(ms, field),
        _ => None,
    }
}

/// An optional string field: absent or `null` is none; any other type
/// rejects.
pub open spec fn opt_of(i: nat, kind: Seq<char>, op: JsonV, field: Seq<char>) -> Result<
    Option<Seq<char>>,
    DiagnosticV,
> {
    match field_of(op, field) {
        None => Ok(None),
        Some(JsonV::Null) => Ok(None),
        Some(JsonV::Str(s)) => Ok(Some(s)),
        Some(_) => Err(
            spec_error(
                "ops["@ + dec(i) + "] "@ + kind + ": `"@ + field
                    + "` must be a string or absent"@,
            ),
        ),
    }
}

/// A required field that may be `null`: the form that removes has to be
/// written deliberately.
pub open spec fn req_opt_of(i: nat, kind: Seq<char>, op: JsonV, field: Seq<char>) -> Result<
    Option<Seq<char>>,
    DiagnosticV,
> {
    match field_of(op, field) {
        None => Err(
            spec_error(
                "ops["@ + dec(i) + "] "@ + kind + ": missing field `"@ + field
                    + "` (a type string, or `null` to remove)"@,
            ),
        ),
        Some(JsonV::Null) => Ok(None),
        Some(JsonV::Str(s)) => Ok(Some(s)),
        Some(_) => Err(
            spec_error(
                "ops["@ + dec(i) + "] "@ + kind + ": `"@ + field
                    + "` must be a type string or `null`"@,
            ),
        ),
    }
}

/// Two required fields; the first that is missing rejects.
pub open spec fn need2_of(i: nat, kind: Seq<char>, op: JsonV, a: Seq<char>, b: Seq<char>) -> Result<
    (Seq<char>, Seq<char>),
    DiagnosticV,
> {
    match need_of(i, kind, op, a) {
        Err(e) => Err(e),
        Ok(x) => match need_of(i, kind, op, b) {
            Err(e) => Err(e),
            Ok(y) => Ok((x, y)),
        },
    }
}

/// Three required fields; the first that is missing rejects.
pub open spec fn need3_of(
    i: nat,
    kind: Seq<char>,
    op: JsonV,
    a: Seq<char>,
    b: Seq<char>,
    c: Seq<char>,
) -> Result<(Seq<char>, Seq<char>, Seq<char>), DiagnosticV> {
    match need2_of(i, kind, op, a, b) {
        Err(e) => Err(e),
        Ok((x, y)) => match need_of(i, kind, op, c) {
            Err(e) => Err(e),
            Ok(z) => Ok((x, y, z)),
        },
    }
}

/// The fields of a `use` op: module, path, alias.
pub open spec fn use_of(i: nat, kind: Seq<char>, op: JsonV) -> Result<
    (Option<Seq<char>>, Seq<char>, Option<Seq<char>>),
    DiagnosticV,
> {
    match opt_of(i, kind, op, "module"@) {
        Err(e) => Err(e),
        Ok(module) => match need_of(i, kind, op, "path"@) {
            Err(e) => Err(e),
            Ok(path) => match opt_of(i, kind, op, "as"@) {
                Err(e) => Err(e),
                Ok(alias) => Ok((module, path, alias)),
            },
        },
    }
}

/// The message of an op without a kind.
pub open spec fn no_kind() -> Seq<char> {
    "missing `op` kind (expected \"replace_body\" | \"remove_def\" | \"add_def\" | \"rename_param\" | \"set_param_type\" | \"set_ret_type\" | \"add_use\" | \"remove_use\" | \"add_field\" | \"remove_field\" | \"rename_field\" | \"set_field_type\")"@
}

/// The op of a kind.
pub open spec fn op_of_kind(i: nat, kind: Seq<char>, op: JsonV) -> Result<OpV, DiagnosticV> {
    if kind == "replace_body"@ {
        match need2_of(i, kind, op, "symbol"@, "body"@) {
            Err(e) => Err(e),
            Ok((symbol, body)) => Ok(OpV::ReplaceBody { symbol, body }),
        }
    } else if kind == "remove_def"@ {
        match need_of(i, kind, op, "symbol"@) {
            Err(e) => Err(e),
            Ok(symbol) => Ok(OpV::RemoveDef { symbol }),
        }
    } else if kind == "add_def"@ {
        match opt_of(i, kind, op, "module"@) {
            Err(e) => Err(e),
            Ok(module) => match need_of(i, kind, op, "text"@) {
                Err(e) => Err(e),
                Ok(text) => Ok(OpV::AddDef { module, text }),
            },
        }
    } else if kind == "rename_param"@ {
        match need3_of(i, kind, op, "symbol"@, "param"@, "to"@) {
            Err(e) => Err(e),
            Ok((symbol, param, to)) => Ok(OpV::RenameParam { symbol, param, to }),
        }
    } else if kind == "set_param_type"@ {
        match need3_of(i, kind, op, "symbol"@, "param"@, "ty"@) {
            Err(e) => Err(e),
            Ok((symbol, param, ty)) => Ok(OpV::SetParamType { symbol, param, ty }),
        }
    } else if kind == "set_ret_type"@ {
        match need_of(i, kind, op, "symbol"@) {
            Err(e) => Err(e),
            Ok(symbol) => match req_opt_of(i, kind, op, "ty"@) {
                Err(e) => Err(e),
                Ok(ty) => Ok(OpV::SetRetType { symbol, ty }),
            },
        }
    } else if kind == "add_use"@ {
        match use_of(i, kind, op) {
            Err(e) => Err(e),
            Ok((module, path, alias)) => Ok(OpV::AddUse { module, path, alias }),
        }
    } else if kind == "remove_use"@ {
        match use_of(i, kind, op) {
            Err(e) => Err(e),
            Ok((module, path, alias)) => Ok(OpV::RemoveUse { module, path, alias }),
        }
    } else {
        op_on_field(i, kind, op)
    }
}

/// The op of a kind that is about a field.
pub open spec fn op_on_field(i: nat, kind: Seq<char>, op: JsonV) -> Result<OpV, DiagnosticV> {
    if kind == "add_field"@ {
        match need3_of(i, kind, op, "symbol"@, "field"@, "ty"@) {
            Err(e) => Err(e),
            Ok((symbol, field, ty)) => Ok(OpV::AddField { symbol, field, ty }),
        }
    } else if kind == "remove_field"@ {
        match need2_of(i, kind, op, "symbol"@, "field"@) {
            Err(e) => Err(e),
            Ok((symbol, field)) => Ok(OpV::RemoveField { symbol, field }),
        }
    } else if kind == "rename_field"@ {
        match need3_of(i, kind, op, "symbol"@, "field"@, "to"@) {
            Err(e) => Err(e),
            Ok((symbol, field, to)) => Ok(OpV::RenameField { symbol, field, to }),
        }
    } else if kind == "set_field_type"@ {
        match need3_of(i, kind, op, "symbol"@, "field"@, "ty"@) {
            Err(e) => Err(e),
            Ok((symbol, field, ty)) => Ok(OpV::SetFieldType { symbol, field, ty }),
        }
    } else {
        Err(op_error(i, "unknown op `"@ + kind + "`"@))
    }
}

/// One op object.
pub open spec fn op_of(i: nat, op: JsonV) -> Result<OpV, DiagnosticV> {
    match op {
        JsonV::Object(_) => match str_of(at_key(op, "op"@)) {
            Some(kind) => op_of_kind(i, kind, op),
            None => Err(op_error(i, no_kind())),
        },
        _ => Err(
            op_error(i, "an op must be an object like `{\"op\": \"remove_def\", ...}`"@),
        ),
    }
}

/// The first `k` ops; the first malformed one rejects.
pub open spec fn ops_of(items: Seq<JsonV>, k: int) -> Result<Seq<OpV>, DiagnosticV>
    decreases k,
{
    if k <= 0 {
        Ok(Seq::empty())
    } else {
        match ops_of(items, k - 1) {
            Err(e) => Err(e),
            Ok(front) => match op_of((k - 1) as nat, items[k - 1]) {
                Err(e) => Err(e),
                Ok(op) => Ok(front.push(op)),
            },
        }
    }
}

/// A patch spec.
pub open spec fn spec_of(spec: JsonV) -> Result<Seq<OpV>, DiagnosticV> {
    let list = match spec {
        JsonV::Array(_) => spec,
        JsonV::Object(_) => at_key(spec, "ops"@),
        _ => JsonV::Null,
    };
    match list {
        JsonV::Array(items) => ops_of(items, items.len() as int),
        _ => Err(spec_error("a patch spec must be `{\"ops\": [...]}` or a bare op array"@)),
    }
}

/// The view of a parsed op.
pub open spec fn op_result(r: Result<PatchOp, Diagnostic>) -> Result<OpV, DiagnosticV> {
    match r {
        Ok(x) => Ok(x@),
        Err(d) => Err(d@),
    }
}

/// The view of a required field.
pub open spec fn text_result(r: Result<String, Diagnostic>) -> Result<Seq<char>, DiagnosticV> {
    match r {
        Ok(x) => Ok(x@),
        Err(d) => Err(d@),
    }
}

/// The view of an optional field.
pub open spec fn opt_result(r: Result<Option<String>, Diagnostic>) -> Result<
    Option<Seq<char>>,
    DiagnosticV,
> {
    match r {
        Ok(x) => Ok(opt_text(x)),
        Err(d) => Err(d@),
    }
}

fn malformed(message: String) -> (r: Diagnostic)
    ensures
        r@ == spec_error(message@),
{
    Diagnostic::error(Code::MalformedPatch, message)
}

fn bad_op(i: usize, message: &str) -> (r: Diagnostic)
    ensures
        r@ == op_error(i as nat, message@),
{
    let n = decimal(i as u64);
    malformed(cat4("ops[", n.as_str(), "]: ", message))
}

fn need(i: usize, kind: &str, op: &Json, field: &str) -> (r: Result<String, Diagnostic>)
    ensures
        text_result(r) == need_of(i as nat, kind@, op@, field@),
{
    match op.get_str(field) {
        Some(s) => Ok(s.to_owned()),
        None => {
            let n = decimal(i as u64);
            let head = cat4("ops[", n.as_str(), "] ", kind);
            Err(malformed(cat4(head.as_str(), ": missing string field `", field, "`")))
        },
    }
}

fn opt(i: usize, kind: &str, op: &Json, field: &str) -> (r: Result<Option<String>, Diagnostic>)
    ensures
        opt_result(r) == opt_of(i as nat, kind@, op@, field@),
{
    match op.get(field) {
        None => Ok(None),
        Some(Json::Null) => Ok(None),
        Some(Json::Str(s)) => Ok(Some(s.clone())),
        Some(_) => {
            let n = decimal(i as u64);
            let head = cat4("ops[", n.as_str(), "] ", kind);
            Err(malformed(cat4(head.as_str(), ": `", field, "` must be a string or absent")))
        },
    }
}

fn req_opt(i: usize, kind: &str, op: &Json, field: &str) -> (r: Result<Option<String>, Diagnostic>)
    ensures
        opt_result(r) == req_opt_of(i as nat, kind@, op@, field@),
{
    let n = decimal(i as u64);
    let head = cat4("ops[", n.as_str(), "] ", kind);
    match op.get(field) {
        None => Err(
            malformed(
                cat4(
                    head.as_str(),
                    ": missing field `",
                    field,
                    "` (a type string, or `null` to remove)",
                ),
            ),
        ),
        Some(Json::Null) => Ok(None),
        Some(Json::Str(s)) => Ok(Some(s.clone())),
        Some(_) => Err(
            malformed(cat4(head.as_str(), ": `", field, "` must be a type string or `null`")),
        ),
    }
}

fn need2(i: usize, kind: &str, op: &Json, a: &str, b: &str) -> (r: Result<
    (String, String),
    Diagnostic,
>)
    ensures
        match r {
            Ok(x) => need2_of(i as nat, kind@, op@, a@, b@) == Ok::<_, DiagnosticV>(
                (x.0@, x.1@),
            ),
            Err(d) => need2_of(i as nat, kind@, op@, a@, b@) == Err::<
                (Seq<char>, Seq<char>),
                _,
            >(d@),
        },
{
    match need(i, kind, op, a) {
        Err(e) => Err(e),
        Ok(x) => match need(i, kind, op, b) {
            Err(e) => Err(e),
            Ok(y) => Ok((x, y)),
        },
    }
}

fn need3(i: usize, kind: &str, op: &Json, a: &str, b: &str, c: &str) -> (r: Result<
    (String, String, String),
    Diagnostic,
>)
    ensures
        match r {
            Ok(x) => need3_of(i as nat, kind@, op@, a@, b@, c@) == Ok::<_, DiagnosticV>(
                (x.0@, x.1@, x.2@),
            ),
            Err(d) => need3_of(i as nat, kind@, op@, a@, b@, c@) == Err::<
                (Seq<char>, Seq<char>, Seq<char>),
                _,
            >(d@),
        },
{
    match need2(i, kind, op, a, b) {
        Err(e) => Err(e),
        Ok((x, y)) => match need(i, kind, op, c) {
            Err(e) => Err(e),
            Ok(z) => Ok((x, y, z)),
        },
    }
}

fn use_fields(i: usize, kind: &str, op: &Json) -> (r: Result<
    (Option<String>, String, Option<String>),
    Diagnostic,
>)
    ensures
        match r {
            Ok(x) => use_of(i as nat, kind@, op@) == Ok::<_, DiagnosticV>(
                (opt_text(x.0), x.1@, opt_text(x.2)),
            ),
            Err(d) => use_of(i as nat, kind@, op@) == Err::<
                (Option<Seq<char>>, Seq<char>, Option<Seq<char>>),
                _,
            >(d@),
        },
{
    match opt(i, kind, op, "module") {
        Err(e) => Err(e),
        Ok(module) => match need(i, kind, op, "path") {
            Err(e) => Err(e),
            Ok(path) => match opt(i, kind, op, "as") {
                Err(e) => Err(e),
                Ok(alias) => Ok((module, path, alias)),
            },
        },
    }
}

fn field_op(i: usize, kind: &str, op: &Json) -> (r: Result<PatchOp, Diagnostic>)
    ensures
        op_result(r) == op_on_field(i as nat, kind@, op@),
{
    if same(kind, "add_field") {
        match need3(i, kind, op, "symbol", "field", "ty") {
            Err(e) => Err(e),
            Ok((symbol, field, ty)) => Ok(PatchOp::AddField { symbol, field, ty }),
        }
    } else if same(kind, "remove_field") {
        match need2(i, kind, op, "symbol", "field") {
            Err(e) => Err(e),
            Ok((symbol, field)) => Ok(PatchOp::RemoveField { symbol, field }),
        }
    } else if same(kind, "rename_field") {
        match need3(i, kind, op, "symbol", "field", "to") {
            Err(e) => Err(e),
            Ok((symbol, field, to)) => Ok(PatchOp::RenameField { symbol, field, to }),
        }
    } else if same(kind, "set_field_type") {
        match need3(i, kind, op, "symbol", "field", "ty") {
            Err(e) => Err(e),
            Ok((symbol, field, ty)) => Ok(PatchOp::SetFieldType { symbol, field, ty }),
        }
    } else {
        let message = cat3("unknown op `", kind, "`");
        Err(bad_op(i, message.as_str()))
    }
}

fn kind_op(i: usize, kind: &str, op: &Json) -> (r: Result<PatchOp, Diagnostic>)
    ensures
        op_result(r) == op_of_kind(i as nat, kind@, op@),
{
    if same(kind, "replace_body") {
        match need2(i, kind, op, "symbol", "body") {
            Err(e) => Err(e),
            Ok((symbol, body)) => Ok(PatchOp::ReplaceBody { symbol, body }),
        }
    } else if same(kind, "remove_def") {
        match need(i, kind, op, "symbol") {
            Err(e) => Err(e),
            Ok(symbol) => Ok(PatchOp::RemoveDef { symbol }),
        }
    } else if same(kind, "add_def") {
        match opt(i, kind, op, "module") {
            Err(e) => Err(e),
            Ok(module) => match need(i, kind, op, "text") {
                Err(e) => Err(e),
                Ok(text) => Ok(PatchOp::AddDef { module, text }),
            },
        }
    } else if same(kind, "rename_param") {
        match need3(i, kind, op, "symbol", "param", "to") {
            Err(e) => Err(e),
            Ok((symbol, param, to)) => Ok(PatchOp::RenameParam { symbol, param, to }),
        }
    } else if same(kind, "set_param_type") {
        match need3(i, kind, op, "symbol", "param", "ty") {
            Err(e) => Err(e),
            Ok((symbol, param, ty)) => Ok(PatchOp::SetParamType { symbol, param, ty }),
        }
    } else if same(kind, "set_ret_type") {
        match need(i, kind, op, "symbol") {
            Err(e) => Err(e),
            Ok(symbol) => match req_opt(i, kind, op, "ty") {
                Err(e) => Err(e),
                Ok(ty) => Ok(PatchOp::SetRetType { symbol, ty }),
            },
        }
    } else if same(kind, "add_use") {
        match use_fields(i, kind, op) {
            Err(e) => Err(e),
            Ok((module, path, alias)) => Ok(PatchOp::AddUse { module, path, alias }),
        }
    } else if same(kind, "remove_use") {
        match use_fields(i, kind, op) {
            Err(e) => Err(e),
            Ok((module, path, alias)) => Ok(PatchOp::RemoveUse { module, path, alias }),
        }
    } else {
        field_op(i, kind, op)
    }
}

/// One op object to a [`PatchOp`]. Unknown kinds, missing required
/// fields, and wrong-typed fields are all `E_MALFORMED_PATCH`.
pub fn op_from_json(i: usize, op: &Json) -> (r: Result<PatchOp, Diagnostic>)
    ensures
        op_result(r) == op_of(i as nat, op@),
{
    match op {
        Json::Object(_) => match op.get_str("op") {
            Some(kind) => kind_op(i, kind, op),
            None => Err(
                bad_op(
                    i,
                    "missing `op` kind (expected \"replace_body\" | \"remove_def\" | \"add_def\" | \"rename_param\" | \"set_param_type\" | \"set_ret_type\" | \"add_use\" | \"remove_use\" | \"add_field\" | \"remove_field\" | \"rename_field\" | \"set_field_type\")",
                ),
            ),
        },
        _ => Err(
            bad_op(i, "an op must be an object like `{\"op\": \"remove_def\", ...}`"),
        ),
    }
}

/// The view of a parsed spec.
pub open spec fn spec_result(r: Result<Vec<PatchOp>, Diagnostic>) -> Result<Seq<OpV>, DiagnosticV> {
    match r {
        Ok(v) => Ok(ops_view(v@)),
        Err(d) => Err(d@),
    }
}

proof fn lemma_ops_fail(items: Seq<JsonV>, k: int, n: int)
    requires
        0 <= k <= n,
        ops_of(items, k) is Err,
    ensures
        ops_of(items, n) == ops_of(items, k),
    decreases n - k,
{
    if k < n {
        lemma_ops_fail(items, k, n - 1);
    }
}

fn parse_list(items: &Vec<Json>) -> (r: Result<Vec<PatchOp>, Diagnostic>)
    ensures
        spec_result(r) == ops_of(jsons(items@), items@.len() as int),
{
    let ghost all = jsons(items@);
    let mut out: Vec<PatchOp> = Vec::new();
    let mut i: usize = 0;
    proof {
        assert(ops_view(out@) =~= Seq::empty());
    }
    while i < items.len()
        invariant
            i <= items@.len(),
            all == jsons(items@),
            ops_of(all, i as int) == Ok::<Seq<OpV>, DiagnosticV>(ops_view(out@)),
        decreases items@.len() - i,
    {
        assert(all[i as int] == items@[i as int]@);
        match op_from_json(i, &items[i]) {
            Ok(op) => {
                let ghost before = ops_view(out@);
                let ghost ov = op@;
                out.push(op);
                proof {
                    assert(ops_view(out@) =~= before.push(ov));
                }
            },
            Err(e) => {
                proof {
                    lemma_ops_fail(all, i + 1, items@.len() as int);
                }
                return Err(e);
            },
        }
        i += 1;
    }
    Ok(out)
}

/// Parses a patch spec document into the op list.
pub fn parse_ops(spec: &Json) -> (r: Result<Vec<PatchOp>, Diagnostic>)
    ensures
        spec_result(r) == spec_of(spec@),
{
    let list = match spec {
        Json::Array(v) => {
            proof {
                assert(spec@->Array_0 =~= jsons(v@));
            }
            Some(v)
        },
        Json::Object(_) => match spec.get("ops") {
            Some(x) => match x {
                Json::Array(v) => {
                    proof {
                        assert(x@->Array_0 =~= jsons(v@));
                    }
                    Some(v)
                },
                _ => None,
            },
            None => None,
        },
        _ => None,
    };
    match list {
        Some(v) => parse_list(v),
        None => Err(
            malformed(
                "a patch spec must be `{\"ops\": [...]}` or a bare op array".to_string(),
            ),
        ),
    }
}

/// A wrapped list and a bare one parse to the same ops.
pub proof fn law_wrapped_spec_is_bare(items: Seq<JsonV>)
    ensures
        spec_of(JsonV::Object(seq![crate::json::mem("ops"@, JsonV::Array(items))])) == spec_of(
            JsonV::Array(items),
        ),
{
    let ms = seq![crate::json::mem("ops"@, JsonV::Array(items))];
    assert(ms[0].key == "ops"@);
}

} // verus!
