//! How a patch is written as JSON: each op by its own word and members,
//! and read back as just that op.

use crate::code::Code;
use crate::diagnostic::DiagnosticV;
use crate::json::{at_key, JsonV};
use crate::patch_spec::{field_of, op_of, ops_of, spec_of, OpV};
use vstd::prelude::*;
use vstd::string::*;

verus! {

/// A member of an object is a text.
pub open spec fn says(j: JsonV, key: Seq<char>, text: Seq<char>) -> bool {
    at_key(j, key) == JsonV::Str(text)
}

/// A member of an object is a text, or is `null` or missing where there
/// is none.
pub open spec fn may_say(j: JsonV, key: Seq<char>, text: Option<Seq<char>>) -> bool {
    match text {
        Some(t) => says(j, key, t),
        None => at_key(j, key) == JsonV::Null,
    }
}

/// An object describes an op: it names the op's kind, and has a member
/// for each of its parts.
pub open spec fn describes(j: JsonV, op: OpV) -> bool {
    match op {
        OpV::ReplaceBody { symbol, body } => says(j, "op"@, "replace_body"@) && says(
            j,
            "symbol"@,
            symbol,
        ) && says(j, "body"@, body),
        OpV::RemoveDef { symbol } => says(j, "op"@, "remove_def"@) && says(j, "symbol"@, symbol),
        OpV::AddDef { module, text } => says(j, "op"@, "add_def"@) && may_say(
            j,
            "module"@,
            module,
        ) && says(j, "text"@, text),
        OpV::RenameParam { symbol, param, to } => says(j, "op"@, "rename_param"@) && says(
            j,
            "symbol"@,
            symbol,
        ) && says(j, "param"@, param) && says(j, "to"@, to),
        OpV::SetParamType { symbol, param, ty } => says(j, "op"@, "set_param_type"@) && says(
            j,
            "symbol"@,
            symbol,
        ) && says(j, "param"@, param) && says(j, "ty"@, ty),
        OpV::SetRetType { symbol, ty } => says(j, "op"@, "set_ret_type"@) && says(
            j,
            "symbol"@,
            symbol,
        ) && may_say(j, "ty"@, ty) && field_of(j, "ty"@) is Some,
        OpV::AddUse { module, path, alias } => says(j, "op"@, "add_use"@) && may_say(
            j,
            "module"@,
            module,
        ) && says(j, "path"@, path) && may_say(j, "as"@, alias),
        OpV::RemoveUse { module, path, alias } => says(j, "op"@, "remove_use"@) && may_say(
            j,
            "module"@,
            module,
        ) && says(j, "path"@, path) && may_say(j, "as"@, alias),
        OpV::AddField { symbol, field, ty } => says(j, "op"@, "add_field"@) && says(
            j,
            "symbol"@,
            symbol,
        ) && says(j, "field"@, field) && says(j, "ty"@, ty),
        OpV::RemoveField { symbol, field } => says(j, "op"@, "remove_field"@) && says(
            j,
            "symbol"@,
            symbol,
        ) && says(j, "field"@, field),
        OpV::RenameField { symbol, field, to } => says(j, "op"@, "rename_field"@) && says(
            j,
            "symbol"@,
            symbol,
        ) && says(j, "field"@, field) && says(j, "to"@, to),
        OpV::SetFieldType { symbol, field, ty } => says(j, "op"@, "set_field_type"@) && says(
            j,
            "symbol"@,
            symbol,
        ) && says(j, "field"@, field) && says(j, "ty"@, ty),
    }
}

proof fn lemma_kinds()
    ensures
        "replace_body"@ != "remove_def"@,
        "replace_body"@ != "add_def"@,
        "replace_body"@ != "rename_param"@,
        "replace_body"@ != "set_param_type"@,
        "replace_body"@ != "set_ret_type"@,
        "replace_body"@ != "add_use"@,
        "replace_body"@ != "remove_use"@,
        "replace_body"@ != "add_field"@,
        "replace_body"@ != "remove_field"@,
        "replace_body"@ != "rename_field"@,
        "replace_body"@ != "set_field_type"@,
        "remove_def"@ != "add_def"@,
        "remove_def"@ != "rename_param"@,
        "remove_def"@ != "set_param_type"@,
        "remove_def"@ != "set_ret_type"@,
        "remove_def"@ != "add_use"@,
        "remove_def"@ != "remove_use"@,
        "remove_def"@ != "add_field"@,
        "remove_def"@ != "remove_field"@,
        "remove_def"@ != "rename_field"@,
        "remove_def"@ != "set_field_type"@,
        "add_def"@ != "rename_param"@,
        "add_def"@ != "set_param_type"@,
        "add_def"@ != "set_ret_type"@,
        "add_def"@ != "add_use"@,
        "add_def"@ != "remove_use"@,
        "add_def"@ != "add_field"@,
        "add_def"@ != "remove_field"@,
        "add_def"@ != "rename_field"@,
        "add_def"@ != "set_field_type"@,
        "rename_param"@ != "set_param_type"@,
        "rename_param"@ != "set_ret_type"@,
        "rename_param"@ != "add_use"@,
        "rename_param"@ != "remove_use"@,
        "rename_param"@ != "add_field"@,
        "rename_param"@ != "remove_field"@,
        "rename_param"@ != "rename_field"@,
        "rename_param"@ != "set_field_type"@,
        "set_param_type"@ != "set_ret_type"@,
        "set_param_type"@ != "add_use"@,
        "set_param_type"@ != "remove_use"@,
        "set_param_type"@ != "add_field"@,
        "set_param_type"@ != "remove_field"@,
        "set_param_type"@ != "rename_field"@,
        "set_param_type"@ != "set_field_type"@,
        "set_ret_type"@ != "add_use"@,
        "set_ret_type"@ != "remove_use"@,
        "set_ret_type"@ != "add_field"@,
        "set_ret_type"@ != "remove_field"@,
        "set_ret_type"@ != "rename_field"@,
        "set_ret_type"@ != "set_field_type"@,
        "add_use"@ != "remove_use"@,
        "add_use"@ != "add_field"@,
        "add_use"@ != "remove_field"@,
        "add_use"@ != "rename_field"@,
        "add_use"@ != "set_field_type"@,
        "remove_use"@ != "add_field"@,
        "remove_use"@ != "remove_field"@,
        "remove_use"@ != "rename_field"@,
        "remove_use"@ != "set_field_type"@,
        "add_field"@ != "remove_field"@,
        "add_field"@ != "rename_field"@,
        "add_field"@ != "set_field_type"@,
        "remove_field"@ != "rename_field"@,
        "remove_field"@ != "set_field_type"@,
        "rename_field"@ != "set_field_type"@,
{
    reveal_strlit("replace_body");
    reveal_strlit("remove_def");
    reveal_strlit("add_def");
    reveal_strlit("rename_param");
    reveal_strlit("set_param_type");
    reveal_strlit("set_ret_type");
    reveal_strlit("add_use");
    reveal_strlit("remove_use");
    reveal_strlit("add_field");
    reveal_strlit("remove_field");
    reveal_strlit("rename_field");
    reveal_strlit("set_field_type");
    assert("replace_body"@.len() != "remove_def"@.len());
    assert("replace_body"@.len() != "add_def"@.len());
    assert("replace_body"@[2] != "rename_param"@[2]);
    assert("replace_body"@.len() != "set_param_type"@.len());
    assert("replace_body"@[0] != "set_ret_type"@[0]);
    assert("replace_body"@.len() != "add_use"@.len());
    assert("replace_body"@.len() != "remove_use"@.len());
    assert("replace_body"@.len() != "add_field"@.len());
    assert("replace_body"@[2] != "remove_field"@[2]);
    assert("replace_body"@[2] != "rename_field"@[2]);
    assert("replace_body"@.len() != "set_field_type"@.len());
    assert("remove_def"@.len() != "add_def"@.len());
    assert("remove_def"@.len() != "rename_param"@.len());
    assert("remove_def"@.len() != "set_param_type"@.len());
    assert("remove_def"@.len() != "set_ret_type"@.len());
    assert("remove_def"@.len() != "add_use"@.len());
    assert("remove_def"@[7] != "remove_use"@[7]);
    assert("remove_def"@.len() != "add_field"@.len());
    assert("remove_def"@.len() != "remove_field"@.len());
    assert("remove_def"@.len() != "rename_field"@.len());
    assert("remove_def"@.len() != "set_field_type"@.len());
    assert("add_def"@.len() != "rename_param"@.len());
    assert("add_def"@.len() != "set_param_type"@.len());
    assert("add_def"@.len() != "set_ret_type"@.len());
    assert("add_def"@[4] != "add_use"@[4]);
    assert("add_def"@.len() != "remove_use"@.len());
    assert("add_def"@.len() != "add_field"@.len());
    assert("add_def"@.len() != "remove_field"@.len());
    assert("add_def"@.len() != "rename_field"@.len());
    assert("add_def"@.len() != "set_field_type"@.len());
    assert("rename_param"@.len() != "set_param_type"@.len());
    assert("rename_param"@[0] != "set_ret_type"@[0]);
    assert("rename_param"@.len() != "add_use"@.len());
    assert("rename_param"@.len() != "remove_use"@.len());
    assert("rename_param"@.len() != "add_field"@.len());
    assert("rename_param"@[2] != "remove_field"@[2]);
    assert("rename_param"@[7] != "rename_field"@[7]);
    assert("rename_param"@.len() != "set_field_type"@.len());
    assert("set_param_type"@.len() != "set_ret_type"@.len());
    assert("set_param_type"@.len() != "add_use"@.len());
    assert("set_param_type"@.len() != "remove_use"@.len());
    assert("set_param_type"@.len() != "add_field"@.len());
    assert("set_param_type"@.len() != "remove_field"@.len());
    assert("set_param_type"@.len() != "rename_field"@.len());
    assert("set_param_type"@[4] != "set_field_type"@[4]);
    assert("set_ret_type"@.len() != "add_use"@.len());
    assert("set_ret_type"@.len() != "remove_use"@.len());
    assert("set_ret_type"@.len() != "add_field"@.len());
    assert("set_ret_type"@[0] != "remove_field"@[0]);
    assert("set_ret_type"@[0] != "rename_field"@[0]);
    assert("set_ret_type"@.len() != "set_field_type"@.len());
    assert("add_use"@.len() != "remove_use"@.len());
    assert("add_use"@.len() != "add_field"@.len());
    assert("add_use"@.len() != "remove_field"@.len());
    assert("add_use"@.len() != "rename_field"@.len());
    assert("add_use"@.len() != "set_field_type"@.len());
    assert("remove_use"@.len() != "add_field"@.len());
    assert("remove_use"@.len() != "remove_field"@.len());
    assert("remove_use"@.len() != "rename_field"@.len());
    assert("remove_use"@.len() != "set_field_type"@.len());
    assert("add_field"@.len() != "remove_field"@.len());
    assert("add_field"@.len() != "rename_field"@.len());
    assert("add_field"@.len() != "set_field_type"@.len());
    assert("remove_field"@[2] != "rename_field"@[2]);
    assert("remove_field"@.len() != "set_field_type"@.len());
    assert("rename_field"@.len() != "set_field_type"@.len());
}

/// An object is read as the op it describes, and as no other; one that
/// describes none is refused as malformed.
#[verifier::spinoff_prover]
pub proof fn law_op_read_as_described(i: nat, j: JsonV, op: OpV)
    ensures
        op_of(i, j) == Ok::<OpV, DiagnosticV>(op) <==> describes(j, op),
        op_of(i, j) matches Err(d) ==> d.code == Code::MalformedPatch,
{
    lemma_kinds();
}

/// A list of ops is read one for one, in order, and only where each of
/// them can be read.
pub proof fn law_ops_read_in_order(items: Seq<JsonV>, k: int)
    requires
        0 <= k <= items.len(),
    ensures
        match ops_of(items, k) {
            Ok(ops) => ops.len() == k && forall|i: int|
                0 <= i < k ==> describes(#[trigger] items[i], ops[i]),
            Err(d) => d.code == Code::MalformedPatch && exists|i: int|
                0 <= i < k && op_of(i as nat, #[trigger] items[i]) is Err,
        },
    decreases k,
{
    if k > 0 {
        law_ops_read_in_order(items, k - 1);
        match op_of((k - 1) as nat, items[k - 1]) {
            Ok(op) => {
                law_op_read_as_described((k - 1) as nat, items[k - 1], op);
            },
            Err(d) => {
                law_op_read_as_described(
                    (k - 1) as nat,
                    items[k - 1],
                    OpV::RemoveDef { symbol: Seq::empty() },
                );
            },
        }
        if let Err(d) = ops_of(items, k - 1) {
            let i = choose|i: int| 0 <= i < k - 1 && op_of(i as nat, #[trigger] items[i]) is Err;
            assert(op_of(i as nat, items[i]) is Err);
        }
    }
}

/// A patch is a list of ops, bare or as the member `ops` of an object;
/// anything else is refused as malformed.
pub proof fn law_patch_is_a_list_of_ops(spec: JsonV)
    ensures
        match (spec, at_key(spec, "ops"@)) {
            (JsonV::Array(items), _) => spec_of(spec) == ops_of(items, items.len() as int),
            (JsonV::Object(_), JsonV::Array(items)) => spec_of(spec) == ops_of(
                items,
                items.len() as int,
            ),
            _ => spec_of(spec) matches Err(d) && d.code == Code::MalformedPatch,
        },
{
}

} // verus!
