//! Reading what the command line says: where a patch spec comes from and
//! what a rename selects; and what `recover` answers.

use crate::commands::{answer, document, with_result, Answer, AnswerV};
use crate::envelope::{envelope_of, with_error, Envelope};
use crate::fmt::Output;
use crate::json::{
    json_array, json_object, json_str, jsons, mem, members, no_items, no_members, put, put_item,
    Json, JsonV,
};
use crate::lexeme::{int_value, parse_int};
use crate::paths::path_display;
use crate::recovery::{RecoveryOutcome, RecoveryOutcomeV};
use crate::text::{cat5, chars_of, dec, decimal, same, trim_start, white};
use vstd::prelude::*;

verus! {

// ---------- patch specs ----------

/// Where a patch spec comes from.
pub enum SpecSource {
    /// Standard input.
    Stdin,
    /// A file.
    File(String),
    /// The argument itself.
    Inline(String),
}

/// Model of [`SpecSource`].
#[verifier::ext_equal]
pub enum SpecSourceV {
    Stdin,
    File(Seq<char>),
    Inline(Seq<char>),
}

impl SpecSource {
    /// The model of this source.
    pub open spec fn view(&self) -> SpecSourceV {
        match self {
            SpecSource::Stdin => SpecSourceV::Stdin,
            SpecSource::File(p) => SpecSourceV::File(p@),
            SpecSource::Inline(t) => SpecSourceV::Inline(t@),
        }
    }
}

/// Whether an argument looks like JSON: it starts with a brace or a
/// bracket, white space aside.
pub open spec fn inline_spec(s: Seq<char>) -> bool {
    let t = trim_start(s);
    t.len() > 0 && (t[0] == '{' || t[0] == '[')
}

/// `-` is standard input, `@path` a file, an argument that starts with
/// `{` or `[` is the spec itself, anything else a file.
pub open spec fn spec_source_of(s: Seq<char>) -> SpecSourceV {
    if s == "-"@ {
        SpecSourceV::Stdin
    } else if s.len() > 0 && s[0] == '@' {
        SpecSourceV::File(s.skip(1))
    } else if inline_spec(s) {
        SpecSourceV::Inline(s)
    } else {
        SpecSourceV::File(s)
    }
}

fn is_inline(s: &str) -> (r: bool)
    ensures
        r == inline_spec(s@),
{
    let cs = chars_of(s);
    let n: usize = cs.len();
    let mut a: usize = 0;
    proof {
        assert(s@.subrange(0, n as int) =~= s@);
    }
    while a < n && white(cs[a])
        invariant
            a <= n,
            n == cs@.len(),
            cs@ == s@,
            trim_start(s@.subrange(a as int, n as int)) == trim_start(s@),
        decreases n - a,
    {
        proof {
            assert(s@.subrange(a as int, n as int).subrange(1, n - a) =~= s@.subrange(
                a + 1,
                n as int,
            ));
        }
        a += 1;
    }
    a < n && (cs[a] == '{' || cs[a] == '[')
}

fn after_at(s: &str) -> (r: Option<String>)
    ensures
        match r {
            Some(t) => s@.len() > 0 && s@[0] == '@' && t@ == s@.skip(1),
            None => s@.len() == 0 || s@[0] != '@',
        },
{
    let n: usize = s.unicode_len();
    if n == 0 || s.get_char(0) != '@' {
        return None;
    }
    let rest = s.substring_char(1, n);
    proof {
        assert(rest@ =~= s@.skip(1));
    }
    Some(rest.to_owned())
}

/// Where a patch spec comes from.
pub fn spec_source(s: &str) -> (r: SpecSource)
    ensures
        r@ == spec_source_of(s@),
{
    if same(s, "-") {
        return SpecSource::Stdin;
    }
    if let Some(path) = after_at(s) {
        return SpecSource::File(path);
    }
    if is_inline(s) {
        SpecSource::Inline(s.to_owned())
    } else {
        SpecSource::File(s.to_owned())
    }
}

// ---------- rename targets ----------

/// What a rename selects.
pub enum Selector {
    /// The parameter or local at a byte.
    At(u32),
    /// A top-level symbol.
    Symbol(String),
}

/// Model of [`Selector`].
#[verifier::ext_equal]
pub enum SelectorV {
    At(u32),
    Symbol(Seq<char>),
}

impl Selector {
    /// The model of this selector.
    pub open spec fn view(&self) -> SelectorV {
        match self {
            Selector::At(n) => SelectorV::At(*n),
            Selector::Symbol(s) => SelectorV::Symbol(s@),
        }
    }
}

/// The byte offset a text spells: digits, maybe behind a plus sign.
pub open spec fn offset_of(s: Seq<char>) -> Option<u32> {
    match int_value(s) {
        Some(n) => if s[0] != '-' && 0 <= n <= u32::MAX {
            Some(n as u32)
        } else {
            None
        },
        None => None,
    }
}

/// `@` and a byte offset select by position; anything else is a symbol.
pub open spec fn selector_of(s: Seq<char>) -> SelectorV {
    if s.len() > 0 && s[0] == '@' {
        match offset_of(s.skip(1)) {
            Some(n) => SelectorV::At(n),
            None => SelectorV::Symbol(s),
        }
    } else {
        SelectorV::Symbol(s)
    }
}

/// What a rename selects.
pub fn selector(s: &str) -> (r: Selector)
    ensures
        r@ == selector_of(s@),
{
    if let Some(rest) = after_at(s) {
        if let Some(n) = parse_int(rest.as_str()) {
            let signed = rest.as_str().unicode_len() == 0 || rest.as_str().get_char(0) == '-';
            if !signed && n >= 0 && n <= 0xffff_ffff {
                return Selector::At(n as u32);
            }
        }
    }
    Selector::Symbol(s.to_owned())
}

// ---------- recover ----------

/// An outcome as JSON.
pub open spec fn outcome_json(o: RecoveryOutcomeV) -> JsonV {
    match o {
        RecoveryOutcomeV::Clean => JsonV::Object(seq![mem("status"@, JsonV::Str("clean"@))]),
        RecoveryOutcomeV::Committed { tx, files } => JsonV::Object(
            seq![
                mem("status"@, JsonV::Str("committed"@)),
                mem("tx"@, JsonV::Str(tx)),
                mem("files"@, JsonV::Uint(files as u64)),
            ],
        ),
        RecoveryOutcomeV::RolledBack { tx, files } => JsonV::Object(
            seq![
                mem("status"@, JsonV::Str("rolled_back"@)),
                mem("tx"@, JsonV::Str(tx)),
                mem("files"@, JsonV::Uint(files as u64)),
            ],
        ),
        RecoveryOutcomeV::Conflict { tx, path } => JsonV::Object(
            seq![
                mem("status"@, JsonV::Str("conflict"@)),
                mem("tx"@, JsonV::Str(tx)),
                mem("path"@, JsonV::Str(path_display(path))),
            ],
        ),
    }
}

/// The models of several outcomes.
pub open spec fn outcomes(v: Seq<RecoveryOutcome>) -> Seq<RecoveryOutcomeV> {
    Seq::new(v.len(), |i: int| v[i]@)
}

/// Whether one of the outcomes is a conflict.
pub open spec fn any_conflict(os: Seq<RecoveryOutcomeV>) -> bool {
    exists|i: int| 0 <= i < os.len() && (#[trigger] os[i]) is Conflict
}

/// What an outcome prints to stdout.
pub open spec fn outcome_line(o: RecoveryOutcomeV) -> Seq<char> {
    match o {
        RecoveryOutcomeV::Clean => "clean — no pending transaction\n"@,
        RecoveryOutcomeV::Committed { tx, files } => "committed "@ + tx + ": "@ + dec(
            files as nat,
        ) + " file(s) finalized\n"@,
        RecoveryOutcomeV::RolledBack { tx, files } => "rolled back "@ + tx + ": "@ + dec(
            files as nat,
        ) + " file(s) untouched\n"@,
        RecoveryOutcomeV::Conflict { tx, path } => Seq::empty(),
    }
}

/// What an outcome prints to stderr.
pub open spec fn conflict_line(o: RecoveryOutcomeV) -> Seq<char> {
    match o {
        RecoveryOutcomeV::Conflict { tx, path } => "conflict "@ + tx + ": "@ + path_display(path)
            + " matches neither the pre- nor post-transaction snapshot — journal preserved\n"@,
        _ => Seq::empty(),
    }
}

/// The lines of the first `k` outcomes on stdout.
pub open spec fn outcome_lines(os: Seq<RecoveryOutcomeV>, k: int) -> Seq<char>
    decreases k,
{
    if k <= 0 {
        Seq::empty()
    } else {
        outcome_lines(os, k - 1) + outcome_line(os[k - 1])
    }
}

/// The lines of the first `k` outcomes on stderr.
pub open spec fn conflict_lines(os: Seq<RecoveryOutcomeV>, k: int) -> Seq<char>
    decreases k,
{
    if k <= 0 {
        Seq::empty()
    } else {
        conflict_lines(os, k - 1) + conflict_line(os[k - 1])
    }
}

/// What `recover` answers: a conflict fails the command.
pub open spec fn recover_answer(os: Seq<RecoveryOutcomeV>, json: bool) -> AnswerV {
    if json {
        let e = with_result(
            envelope_of("recover"@),
            JsonV::Object(
                seq![
                    mem(
                        "outcomes"@,
                        JsonV::Array(Seq::new(os.len(), |i: int| outcome_json(os[i]))),
                    ),
                ],
            ),
        );
        if any_conflict(os) {
            document(with_error(e, "conflict"@, "recovery has unresolved conflicts"@, 1))
        } else {
            document(e)
        }
    } else {
        AnswerV::Text {
            out: outcome_lines(os, os.len() as int),
            err: conflict_lines(os, os.len() as int),
            code: if any_conflict(os) {
                1
            } else {
                0
            },
        }
    }
}

fn status_json(status: &str, tx: &str, key: &str, value: Json) -> (r: Json)
    ensures
        r@ == JsonV::Object(
            seq![
                mem("status"@, JsonV::Str(status@)),
                mem("tx"@, JsonV::Str(tx@)),
                mem(key@, value@),
            ],
        ),
{
    let ghost vv = value@;
    let mut ms = no_members();
    put(&mut ms, "status", json_str(status));
    put(&mut ms, "tx", json_str(tx));
    put(&mut ms, key, value);
    proof {
        assert(members(ms@) =~= seq![
            mem("status"@, JsonV::Str(status@)),
            mem("tx"@, JsonV::Str(tx@)),
            mem(key@, vv),
        ]);
    }
    json_object(ms)
}

fn outcome_item(o: &RecoveryOutcome) -> (r: Json)
    ensures
        r@ == outcome_json(o@),
{
    match o {
        RecoveryOutcome::Clean => {
            let mut ms = no_members();
            put(&mut ms, "status", json_str("clean"));
            proof {
                assert(members(ms@) =~= seq![mem("status"@, JsonV::Str("clean"@))]);
            }
            json_object(ms)
        },
        RecoveryOutcome::Committed { tx, files } => status_json(
            "committed",
            tx.as_str(),
            "files",
            Json::Uint(*files as u64),
        ),
        RecoveryOutcome::RolledBack { tx, files } => status_json(
            "rolled_back",
            tx.as_str(),
            "files",
            Json::Uint(*files as u64),
        ),
        RecoveryOutcome::Conflict { tx, path } => status_json(
            "conflict",
            tx.as_str(),
            "path",
            Json::Str(path.display()),
        ),
    }
}

fn outcome_items(os: &Vec<RecoveryOutcome>) -> (r: Json)
    ensures
        r@ == JsonV::Array(
            Seq::new(outcomes(os@).len(), |i: int| outcome_json(outcomes(os@)[i])),
        ),
{
    let ghost all = Seq::new(outcomes(os@).len(), |i: int| outcome_json(outcomes(os@)[i]));
    let mut out = no_items();
    let mut i: usize = 0;
    proof {
        assert(all.take(0) =~= Seq::empty());
    }
    while i < os.len()
        invariant
            i <= os@.len(),
            all == Seq::new(outcomes(os@).len(), |j: int| outcome_json(outcomes(os@)[j])),
            jsons(out@) == all.take(i as int),
        decreases os@.len() - i,
    {
        put_item(&mut out, outcome_item(&os[i]));
        i += 1;
        proof {
            assert(all.take(i as int) =~= all.take(i - 1).push(all[i - 1]));
        }
    }
    proof {
        assert(all.take(all.len() as int) =~= all);
    }
    json_array(out)
}

fn has_conflict(os: &Vec<RecoveryOutcome>) -> (r: bool)
    ensures
        r == any_conflict(outcomes(os@)),
{
    let ghost all = outcomes(os@);
    let mut i: usize = 0;
    while i < os.len()
        invariant
            i <= os@.len(),
            all == outcomes(os@),
            forall|j: int| 0 <= j < i ==> !((#[trigger] all[j]) is Conflict),
        decreases os@.len() - i,
    {
        assert(all[i as int] == os@[i as int]@);
        if let RecoveryOutcome::Conflict { .. } = &os[i] {
            return true;
        }
        i += 1;
    }
    false
}

fn outcome_text(o: &RecoveryOutcome, out: &mut String, err: &mut String)
    ensures
        final(out)@ == old(out)@ + outcome_line(o@),
        final(err)@ == old(err)@ + conflict_line(o@),
{
    let ghost a = out@;
    let ghost b = err@;
    match o {
        RecoveryOutcome::Clean => {
            out.append("clean — no pending transaction\n");
        },
        RecoveryOutcome::Committed { tx, files } => {
            let n = decimal(*files as u64);
            out.append(
                cat5("committed ", tx.as_str(), ": ", n.as_str(), " file(s) finalized\n").as_str(),
            );
        },
        RecoveryOutcome::RolledBack { tx, files } => {
            let n = decimal(*files as u64);
            out.append(
                cat5(
                    "rolled back ",
                    tx.as_str(),
                    ": ",
                    n.as_str(),
                    " file(s) untouched\n",
                ).as_str(),
            );
        },
        RecoveryOutcome::Conflict { tx, path } => {
            let p = path.display();
            err.append(
                cat5(
                    "conflict ",
                    tx.as_str(),
                    ": ",
                    p.as_str(),
                    " matches neither the pre- nor post-transaction snapshot — journal preserved\n",
                ).as_str(),
            );
        },
    }
    proof {
        assert(out@ =~= a + outcome_line(o@));
        assert(err@ =~= b + conflict_line(o@));
    }
}

/// What `recover` answers.
pub fn recover(os: &Vec<RecoveryOutcome>, json: bool) -> (r: Answer)
    ensures
        r@ == recover_answer(outcomes(os@), json),
{
    let conflict = has_conflict(os);
    let ghost all = outcomes(os@);
    if json {
        let mut ms = no_members();
        put(&mut ms, "outcomes", outcome_items(os));
        proof {
            assert(members(ms@) =~= seq![
                mem(
                    "outcomes"@,
                    JsonV::Array(Seq::new(all.len(), |i: int| outcome_json(all[i]))),
                ),
            ]);
        }
        let e = Envelope::new("recover").result(json_object(ms));
        return if conflict {
            answer(e.error("conflict", "recovery has unresolved conflicts", 1))
        } else {
            answer(e)
        };
    }
    let mut out = String::new();
    let mut err = String::new();
    let mut i: usize = 0;
    proof {
        assert(out@ =~= Seq::empty());
        assert(err@ =~= Seq::empty());
    }
    while i < os.len()
        invariant
            i <= os@.len(),
            all == outcomes(os@),
            out@ == outcome_lines(all, i as int),
            err@ == conflict_lines(all, i as int),
        decreases os@.len() - i,
    {
        assert(all[i as int] == os@[i as int]@);
        outcome_text(&os[i], &mut out, &mut err);
        i += 1;
    }
    let code: u8 = if conflict {
        1
    } else {
        0
    };
    Answer::Text(Output { out, err, code })
}

/// `recover` fails exactly when a conflict is left to resolve.
pub proof fn law_recover_fails_on_conflict(os: Seq<RecoveryOutcomeV>, json: bool)
    ensures
        crate::commands::answer_code(recover_answer(os, json)) != 0 <==> any_conflict(os),
{
}

} // verus!
