//! How the arguments of a command are told apart, and what the recovery
//! command reports.

use crate::answer_laws::law_envelope_parts;
use crate::commands::{with_result, AnswerV};
use crate::envelope::{envelope_of, with_error};
use crate::explain_laws::{item_at, keys_apart, lemma_apart, size_of_array};
use crate::json::{at_key, mem, JsonV};
use crate::lexeme::is_digit;
use crate::lexeme_laws::{law_number_read_back, lemma_dec};
use crate::paths::path_display;
use crate::recovery::RecoveryOutcomeV;
use crate::routing::{
    outcome_json, recover_answer, selector_of, spec_source_of, SelectorV, SpecSourceV,
};
use crate::text::{dec, is_white, trim_start};
use vstd::prelude::*;
use vstd::string::*;

verus! {

/// `@` and the digits of a byte offset select by position; a selector
/// that does not start with `@` is a symbol.
pub proof fn law_selector_read(n: u32, s: Seq<char>)
    ensures
        selector_of(seq!['@'] + dec(n as nat)) == SelectorV::At(n),
        s.len() == 0 || s[0] != '@' ==> selector_of(s) == SelectorV::Symbol(s),
{
    let t = seq!['@'] + dec(n as nat);
    assert(t.skip(1) =~= dec(n as nat));
    law_number_read_back(n as nat);
    lemma_dec(n as nat);
    assert(is_digit(dec(n as nat)[0]));
}

/// A patch spec comes from standard input for `-`, from the named file
/// behind `@`, from the argument itself where that starts with a brace or
/// a bracket, and from the file that the argument names otherwise.
pub proof fn law_spec_source_read(s: Seq<char>, blanks: Seq<char>)
    requires
        forall|i: int| 0 <= i < blanks.len() ==> is_white(#[trigger] blanks[i]),
    ensures
        spec_source_of("-"@) == SpecSourceV::Stdin,
        spec_source_of(seq!['@'] + s) == SpecSourceV::File(s),
        s.len() > 0 && (s[0] == '{' || s[0] == '[') ==> spec_source_of(blanks + s)
            == SpecSourceV::Inline(blanks + s),
        s.len() > 0 && s[0] != '{' && s[0] != '[' && s[0] != '@' && s[0] != '-' && !is_white(s[0])
            ==> spec_source_of(s) == SpecSourceV::File(s),
{
    reveal_strlit("-");
    let t = seq!['@'] + s;
    assert(t[0] == '@');
    assert("-"@[0] == '-');
    assert(t != "-"@);
    assert(t.skip(1) =~= s);
    if s.len() > 0 && (s[0] == '{' || s[0] == '[') {
        lemma_trimmed(blanks, s);
        let u = blanks + s;
        if blanks.len() > 0 {
            assert(u[0] == blanks[0]);
            assert(is_white(blanks[0]));
        } else {
            assert(u[0] == s[0]);
        }
        assert(u[0] != '-' && u[0] != '@');
        assert(u != "-"@);
    }
}

proof fn lemma_trimmed(blanks: Seq<char>, s: Seq<char>)
    requires
        forall|i: int| 0 <= i < blanks.len() ==> is_white(#[trigger] blanks[i]),
        s.len() > 0,
        !is_white(s[0]),
    ensures
        trim_start(blanks + s) == s,
    decreases blanks.len(),
{
    let u = blanks + s;
    if blanks.len() > 0 {
        let rest = blanks.subrange(1, blanks.len() as int);
        assert(u[0] == blanks[0]);
        assert(is_white(blanks[0]));
        assert(u.subrange(1, u.len() as int) =~= rest + s);
        assert forall|i: int| 0 <= i < rest.len() implies is_white(#[trigger] rest[i]) by {
            assert(is_white(blanks[i + 1]));
        }
        lemma_trimmed(rest, s);
    } else {
        assert(u =~= s);
    }
}

// ---------- recovery ----------

proof fn lemma_keys()
    ensures
        "status"@ != "tx"@,
        "status"@ != "files"@,
        "status"@ != "path"@,
        "tx"@ != "files"@,
        "tx"@ != "path"@,
{
    reveal_strlit("status");
    reveal_strlit("tx");
    reveal_strlit("files");
    reveal_strlit("path");
    assert("status"@.len() != "tx"@.len());
    assert("status"@.len() != "files"@.len());
    assert("status"@.len() != "path"@.len());
    assert("tx"@.len() != "files"@.len());
    assert("tx"@.len() != "path"@.len());
}

/// An object tells what became of one transaction.
pub open spec fn tells_outcome(v: JsonV, o: RecoveryOutcomeV) -> bool {
    match o {
        RecoveryOutcomeV::Clean => at_key(v, "status"@) == JsonV::Str("clean"@),
        RecoveryOutcomeV::Committed { tx, files } => {
            &&& at_key(v, "status"@) == JsonV::Str("committed"@)
            &&& at_key(v, "tx"@) == JsonV::Str(tx)
            &&& at_key(v, "files"@) == JsonV::Uint(files as u64)
        },
        RecoveryOutcomeV::RolledBack { tx, files } => {
            &&& at_key(v, "status"@) == JsonV::Str("rolled_back"@)
            &&& at_key(v, "tx"@) == JsonV::Str(tx)
            &&& at_key(v, "files"@) == JsonV::Uint(files as u64)
        },
        RecoveryOutcomeV::Conflict { tx, path } => {
            &&& at_key(v, "status"@) == JsonV::Str("conflict"@)
            &&& at_key(v, "tx"@) == JsonV::Str(tx)
            &&& at_key(v, "path"@) == JsonV::Str(path_display(path))
        },
    }
}

/// The document of `recover` tells of every transaction, in order, and is
/// a success exactly where none is in conflict.
pub proof fn law_recovery_document(os: Seq<RecoveryOutcomeV>, i: int)
    requires
        0 <= i < os.len(),
    ensures
        recover_answer(os, true) matches AnswerV::Document(doc, _) && {
            let list = at_key(at_key(doc, "result"@), "outcomes"@);
            &&& size_of_array(list) == os.len()
            &&& tells_outcome(item_at(list, i), os[i])
            &&& at_key(doc, "success"@) == JsonV::Bool(
                forall|k: int| 0 <= k < os.len() ==> !((#[trigger] os[k]) is Conflict),
            )
        },
{
    lemma_keys();
    let list = JsonV::Array(Seq::new(os.len(), |k: int| outcome_json(os[k])));
    let top = seq![mem("outcomes"@, list)];
    assert(keys_apart(top));
    lemma_apart(top, 0);
    let e = with_result(envelope_of("recover"@), JsonV::Object(top));
    law_envelope_parts(e);
    law_envelope_parts(with_error(e, "conflict"@, "recovery has unresolved conflicts"@, 1));
    let ms = outcome_json(os[i])->Object_0;
    assert(keys_apart(ms));
    lemma_apart(ms, 0);
    if !(os[i] is Clean) {
        lemma_apart(ms, 1);
        lemma_apart(ms, 2);
    }
    assert(item_at(list, i) == outcome_json(os[i]));
}

} // verus!
