//! What each command answers: one document in machine mode, text and an
//! exit code for people otherwise.

use crate::code::Code;
use crate::diagnostic::{any_error, diags, error_of, Diagnostic, DiagnosticV, Diagnostics};
use crate::envelope::{
    diags_code, envelope_json, envelope_of, exit_code, emit_human_diags, print_timings, right,
    timings_json, timings_text, with_diagnostics, with_error, with_extra, with_extras, Envelope,
    EnvelopeV,
};
use crate::explain_text::{
    defs_text, get_items, items_at, print_defs, print_symbol, symbol_lines,
};
use crate::fmt::Output;
use crate::json::{
    at_key, json_array, json_object, json_str, jsons, mem, members, no_items, no_members, put,
    put_item, Json, JsonV,
};
use crate::patch::{error_diags, PatchError};
use crate::patch_plan::{PatchPlan, PatchReport};
use crate::patch_output::{patch_applied, patch_members, patch_preview_of};
use crate::plan_output::{debug_form, debug_text};
use crate::rename_output::{rename_applied, rename_members, rename_preview_of};
use crate::query::{timings, StageTiming, TimingV};
use crate::rename::{rename_diags, RenameError, RenamePlan, RenameReport};
use crate::render::{all_rendered_in, file_for, render_all_in, render_in, rendered, times};
use crate::run_value::{value_json_of, RunValue};
use crate::snapshot::{SnapV, Snapshot};
use crate::source_file::{source_files, SourceFile, SourceFileV};
use crate::text::{cat2, cat3, cat5, dec, decimal, slice, slice_spec};
use vstd::prelude::*;

verus! {

/// What a command writes.
pub enum Answer {
    /// One document to stdout, and the exit code.
    Document(Json, u8),
    /// Text for people.
    Text(Output),
}

/// Model of [`Answer`].
#[verifier::ext_equal]
#[allow(inconsistent_fields)]
pub enum AnswerV {
    Document(JsonV, u8),
    Text { out: Seq<char>, err: Seq<char>, code: u8 },
}

impl Answer {
    /// The model of this answer.
    pub open spec fn view(&self) -> AnswerV {
        match self {
            Answer::Document(j, c) => AnswerV::Document(j@, *c),
            Answer::Text(o) => AnswerV::Text { out: o.out@, err: o.err@, code: o.code },
        }
    }
}

/// An envelope as an answer.
pub open spec fn document(e: EnvelopeV) -> AnswerV {
    AnswerV::Document(envelope_json(e), exit_code(e))
}

/// The exit code of an answer.
pub open spec fn answer_code(a: AnswerV) -> u8 {
    match a {
        AnswerV::Document(_, c) => c,
        AnswerV::Text { code, .. } => code,
    }
}

pub(crate) fn answer(e: Envelope) -> (r: Answer)
    ensures
        r@ == document(e@),
{
    let (doc, code) = e.into_parts();
    Answer::Document(doc, code)
}

fn text(out: String, err: String, code: u8) -> (r: Answer)
    ensures
        r@ == (AnswerV::Text { out: out@, err: err@, code }),
{
    Answer::Text(Output { out, err, code })
}

fn nothing() -> (r: String)
    ensures
        r@ == Seq::<char>::empty(),
{
    let e = String::new();
    assert(e@ =~= Seq::empty());
    e
}

/// An envelope with a payload.
pub open spec fn with_result(e: EnvelopeV, j: JsonV) -> EnvelopeV {
    EnvelopeV { result: j, ..e }
}

/// An envelope with timings, when they were asked for.
pub open spec fn with_timings(e: EnvelopeV, ts: Option<Seq<TimingV>>) -> EnvelopeV {
    match ts {
        Some(ts) => EnvelopeV { timings: timings_json(ts), ..e },
        None => e,
    }
}

/// The model of timings that may have been asked for.
pub open spec fn timings_opt(ts: Option<&Vec<StageTiming>>) -> Option<Seq<TimingV>> {
    match ts {
        Some(v) => Some(timings(v@)),
        None => None,
    }
}

fn timed(e: Envelope, ts: Option<&Vec<StageTiming>>) -> (r: Envelope)
    ensures
        r@ == with_timings(e@, timings_opt(ts)),
{
    match ts {
        Some(v) => e.timings(v),
        None => e,
    }
}

/// The lines of timings, when they were asked for.
pub open spec fn timing_lines(ts: Option<Seq<TimingV>>) -> Seq<char> {
    match ts {
        Some(v) => timings_text(v, v.len() as int),
        None => Seq::empty(),
    }
}

fn timing_text(ts: Option<&Vec<StageTiming>>) -> (r: String)
    ensures
        r@ == timing_lines(timings_opt(ts)),
{
    match ts {
        Some(v) => {
            proof {
                assert(timings(v@).len() == v@.len());
            }
            print_timings(v)
        },
        None => nothing(),
    }
}

/// All diagnostics of a workspace, rendered.
pub open spec fn diag_lines(ds: Seq<DiagnosticV>, files: Seq<SourceFileV>) -> Seq<char> {
    all_rendered_in(ds, ds.len() as int, files)
}

// ---------- check ----------

/// What `check` answers.
pub open spec fn check_answer(
    file: Seq<char>,
    ds: Seq<DiagnosticV>,
    files: Seq<SourceFileV>,
    ts: Option<Seq<TimingV>>,
    json: bool,
) -> AnswerV {
    if json {
        document(with_timings(with_diagnostics(envelope_of("check"@), ds, files), ts))
    } else {
        AnswerV::Text {
            out: Seq::empty(),
            err: diag_lines(ds, files) + timing_lines(ts) + if any_error(ds) {
                Seq::empty()
            } else {
                file + ": ok\n"@
            },
            code: diags_code(ds),
        }
    }
}

/// What `check` answers.
pub fn check(
    file: &str,
    ds: &Diagnostics,
    files: &Vec<SourceFile>,
    ts: Option<&Vec<StageTiming>>,
    json: bool,
) -> (r: Answer)
    requires
        ds@.len() > 0 ==> files@.len() > 0,
    ensures
        r@ == check_answer(file@, ds@, source_files(files@), timings_opt(ts), json),
{
    if json {
        return answer(timed(Envelope::new("check").diagnostics(ds, files), ts));
    }
    let (mut err, code) = emit_human_diags(ds, files);
    err.append(timing_text(ts).as_str());
    if code == 0 {
        err.append(cat2(file, ": ok\n").as_str());
    } else {
        proof {
            assert(err@ + Seq::<char>::empty() =~= err@);
        }
    }
    text(nothing(), err, code)
}

// ---------- run ----------

/// What `run` answers when the workspace has errors: the program does
/// not run.
pub open spec fn refused_run(
    ds: Seq<DiagnosticV>,
    files: Seq<SourceFileV>,
    ts: Option<Seq<TimingV>>,
    json: bool,
) -> AnswerV {
    if json {
        document(with_timings(with_diagnostics(envelope_of("run"@), ds, files), ts))
    } else {
        AnswerV::Text { out: Seq::empty(), err: diag_lines(ds, files), code: 1 }
    }
}

/// Whether `run` stops before the program starts, and with what.
pub fn run_refusal(
    ds: &Diagnostics,
    files: &Vec<SourceFile>,
    ts: Option<&Vec<StageTiming>>,
    json: bool,
) -> (r: Option<Answer>)
    requires
        ds@.len() > 0 ==> files@.len() > 0,
    ensures
        r is Some <==> any_error(ds@),
        r matches Some(a) ==> a@ == refused_run(ds@, source_files(files@), timings_opt(ts), json),
{
    if !ds.has_errors() {
        return None;
    }
    if json {
        return Some(answer(timed(Envelope::new("run").diagnostics(ds, files), ts)));
    }
    let (err, code) = emit_human_diags(ds, files);
    Some(text(nothing(), err, code))
}

/// What a program that ran came to.
pub enum RunOutcome {
    /// A value, and how it is shown.
    Value(RunValue, String),
    /// A trap or a missing entry.
    Trap(String),
}

/// What `run` answers once the program ran.
pub open spec fn run_answer(
    s: SnapV,
    entry: Seq<char>,
    outcome: RunOutcome,
    ds: Seq<DiagnosticV>,
    files: Seq<SourceFileV>,
    ts: Option<Seq<TimingV>>,
    json: bool,
) -> AnswerV {
    let e = with_diagnostics(envelope_of("run"@), ds, files);
    match outcome {
        RunOutcome::Value(v, shown) => if json {
            document(
                with_timings(
                    with_result(
                        e,
                        JsonV::Object(
                            seq![
                                mem("entry"@, JsonV::Str(entry)),
                                mem("value"@, value_json_of(s, v)),
                                mem("display"@, JsonV::Str(shown@)),
                            ],
                        ),
                    ),
                    ts,
                ),
            )
        } else {
            AnswerV::Text { out: shown@ + "\n"@, err: timing_lines(ts), code: 0 }
        },
        RunOutcome::Trap(msg) => if json {
            document(with_timings(with_error(e, "runtime"@, msg@, 2), ts))
        } else {
            AnswerV::Text { out: Seq::empty(), err: "error: "@ + msg@ + "\n"@, code: 2 }
        },
    }
}

/// What `run` answers once the program ran.
pub fn run(
    snap: &Snapshot,
    entry: &str,
    outcome: &RunOutcome,
    ds: &Diagnostics,
    files: &Vec<SourceFile>,
    ts: Option<&Vec<StageTiming>>,
    json: bool,
) -> (r: Answer)
    requires
        ds@.len() > 0 ==> files@.len() > 0,
    ensures
        r@ == run_answer(
            snap@,
            entry@,
            *outcome,
            ds@,
            source_files(files@),
            timings_opt(ts),
            json,
        ),
{
    match outcome {
        RunOutcome::Value(v, shown) => {
            if json {
                let mut ms = no_members();
                put(&mut ms, "entry", json_str(entry));
                put(&mut ms, "value", snap.value_json(v));
                put(&mut ms, "display", json_str(shown.as_str()));
                proof {
                    assert(members(ms@) =~= seq![
                        mem("entry"@, JsonV::Str(entry@)),
                        mem("value"@, value_json_of(snap@, *v)),
                        mem("display"@, JsonV::Str(shown@)),
                    ]);
                }
                let e = Envelope::new("run").diagnostics(ds, files).result(json_object(ms));
                answer(timed(e, ts))
            } else {
                text(cat2(shown.as_str(), "\n"), timing_text(ts), 0)
            }
        },
        RunOutcome::Trap(msg) => {
            if json {
                let e = Envelope::new("run").diagnostics(ds, files).error(
                    "runtime",
                    msg.as_str(),
                    2,
                );
                answer(timed(e, ts))
            } else {
                text(nothing(), cat3("error: ", msg.as_str(), "\n"), 2)
            }
        },
    }
}

// ---------- tokens ----------

/// A token of a file.
pub struct LexToken {
    /// The name of its kind.
    pub kind: String,
    /// First byte.
    pub start: u32,
    /// One past the last byte.
    pub end: u32,
}

/// Whether every token lies in the text, on character boundaries.
pub open spec fn tokens_fit(ts: Seq<LexToken>, source: Seq<char>) -> bool {
    forall|i: int|
        0 <= i < ts.len() ==> slice_spec(
            source,
            (#[trigger] ts[i]).start as int,
            ts[i].end as int,
        ) is Some
}

/// The text of a token.
pub open spec fn token_text(t: LexToken, source: Seq<char>) -> Seq<char> {
    slice_spec(source, t.start as int, t.end as int)->0
}

/// A token as JSON.
pub open spec fn token_json(t: LexToken, source: Seq<char>) -> JsonV {
    JsonV::Object(
        seq![
            mem("kind"@, JsonV::Str(t.kind@)),
            mem("start"@, JsonV::Uint(t.start as u64)),
            mem("end"@, JsonV::Uint(t.end as u64)),
            mem("text"@, JsonV::Str(token_text(t, source))),
        ],
    )
}

/// A text with blanks after it, up to a width.
pub open spec fn left(s: Seq<char>, width: nat) -> Seq<char> {
    if s.len() < width {
        s + times(" "@, (width - s.len()) as nat)
    } else {
        s
    }
}

/// The line of a token.
pub open spec fn token_line(t: LexToken, source: Seq<char>) -> Seq<char> {
    right(dec(t.start as nat), 6) + ".."@ + left(dec(t.end as nat), 6) + " "@ + t.kind@ + " "@
        + debug_form(token_text(t, source)) + "\n"@
}

/// The lines of the first `k` tokens.
pub open spec fn token_lines(ts: Seq<LexToken>, source: Seq<char>, k: int) -> Seq<char>
    decreases k,
{
    if k <= 0 {
        Seq::empty()
    } else {
        token_lines(ts, source, k - 1) + token_line(ts[k - 1], source)
    }
}

/// What `tokens` answers.
pub open spec fn tokens_answer(
    ts: Seq<LexToken>,
    source: Seq<char>,
    ds: Seq<DiagnosticV>,
    files: Seq<SourceFileV>,
    json: bool,
) -> AnswerV {
    if json {
        document(
            with_result(
                with_diagnostics(envelope_of("tokens"@), ds, files),
                JsonV::Object(
                    seq![
                        mem(
                            "tokens"@,
                            JsonV::Array(
                                Seq::new(ts.len(), |i: int| token_json(ts[i], source)),
                            ),
                        ),
                    ],
                ),
            ),
        )
    } else {
        AnswerV::Text {
            out: token_lines(ts, source, ts.len() as int),
            err: diag_lines(ds, files),
            code: diags_code(ds),
        }
    }
}

fn token_items(ts: &Vec<LexToken>, source: &str) -> (r: Json)
    requires
        tokens_fit(ts@, source@),
    ensures
        r@ == JsonV::Array(Seq::new(ts@.len(), |i: int| token_json(ts@[i], source@))),
{
    let ghost all = Seq::new(ts@.len(), |i: int| token_json(ts@[i], source@));
    let mut out = no_items();
    let mut i: usize = 0;
    proof {
        assert(all.take(0) =~= Seq::empty());
    }
    while i < ts.len()
        invariant
            i <= ts@.len(),
            tokens_fit(ts@, source@),
            all == Seq::new(ts@.len(), |j: int| token_json(ts@[j], source@)),
            jsons(out@) == all.take(i as int),
        decreases ts@.len() - i,
    {
        let t = &ts[i];
        assert(slice_spec(source@, ts@[i as int].start as int, ts@[i as int].end as int) is Some);
        let mut ms = no_members();
        put(&mut ms, "kind", json_str(t.kind.as_str()));
        put(&mut ms, "start", Json::Uint(t.start as u64));
        put(&mut ms, "end", Json::Uint(t.end as u64));
        if let Some(s) = slice(source, t.start as usize, t.end as usize) {
            put(&mut ms, "text", Json::Str(s));
        }
        proof {
            assert(members(ms@) =~= token_json(*t, source@)->Object_0);
        }
        put_item(&mut out, json_object(ms));
        i += 1;
        proof {
            assert(all.take(i as int) =~= all.take(i - 1).push(all[i - 1]));
        }
    }
    proof {
        assert(all.take(all.len() as int) =~= all);
    }
    json_array(out)
}

fn pad_right(s: &str, width: u64) -> (r: String)
    ensures
        r@ == left(s@, width as nat),
{
    let n = s.unicode_len() as u64;
    if n < width {
        let blanks = crate::render::repeat(" ", width - n);
        cat2(s, blanks.as_str())
    } else {
        s.to_owned()
    }
}

fn token_row(t: &LexToken, source: &str) -> (r: String)
    requires
        slice_spec(source@, t.start as int, t.end as int) is Some,
    ensures
        r@ == token_line(*t, source@),
{
    let a = crate::envelope::pad_left(decimal(t.start as u64).as_str(), 6);
    let b = pad_right(decimal(t.end as u64).as_str(), 6);
    let shown = match slice(source, t.start as usize, t.end as usize) {
        Some(s) => debug_text(s.as_str()),
        None => nothing(),
    };
    let head = cat5(a.as_str(), "..", b.as_str(), " ", t.kind.as_str());
    let mut out = head;
    out.append(" ");
    out.append(shown.as_str());
    out.append("\n");
    out
}

fn token_rows(ts: &Vec<LexToken>, source: &str) -> (r: String)
    requires
        tokens_fit(ts@, source@),
    ensures
        r@ == token_lines(ts@, source@, ts@.len() as int),
{
    let mut out = nothing();
    let mut i: usize = 0;
    while i < ts.len()
        invariant
            i <= ts@.len(),
            tokens_fit(ts@, source@),
            out@ == token_lines(ts@, source@, i as int),
        decreases ts@.len() - i,
    {
        assert(slice_spec(source@, ts@[i as int].start as int, ts@[i as int].end as int) is Some);
        out.append(token_row(&ts[i], source).as_str());
        i += 1;
    }
    out
}

/// What `tokens` answers.
pub fn tokens(
    ts: &Vec<LexToken>,
    source: &str,
    ds: &Diagnostics,
    files: &Vec<SourceFile>,
    json: bool,
) -> (r: Answer)
    requires
        ds@.len() > 0 ==> files@.len() > 0,
        tokens_fit(ts@, source@),
    ensures
        r@ == tokens_answer(ts@, source@, ds@, source_files(files@), json),
{
    if json {
        let mut ms = no_members();
        put(&mut ms, "tokens", token_items(ts, source));
        proof {
            assert(members(ms@) =~= seq![
                mem(
                    "tokens"@,
                    JsonV::Array(Seq::new(ts@.len(), |i: int| token_json(ts@[i], source@))),
                ),
            ]);
        }
        return answer(Envelope::new("tokens").diagnostics(ds, files).result(json_object(ms)));
    }
    let (err, code) = emit_human_diags(ds, files);
    text(token_rows(ts, source), err, code)
}

// ---------- artifacts ----------

/// What `ast`, `mir` and `graph` answer: the artifact under the
/// command's name.
pub open spec fn dump_answer(
    what: Seq<char>,
    payload: JsonV,
    pretty: Seq<char>,
    ds: Seq<DiagnosticV>,
    files: Seq<SourceFileV>,
    json: bool,
) -> AnswerV {
    if json {
        document(
            with_result(
                with_diagnostics(envelope_of(what), ds, files),
                JsonV::Object(seq![mem(what, payload)]),
            ),
        )
    } else {
        AnswerV::Text { out: pretty + "\n"@, err: diag_lines(ds, files), code: diags_code(ds) }
    }
}

/// What `ast`, `mir` and `graph` answer.
pub fn dump(
    what: &'static str,
    payload: Json,
    pretty: &str,
    ds: &Diagnostics,
    files: &Vec<SourceFile>,
    json: bool,
) -> (r: Answer)
    requires
        ds@.len() > 0 ==> files@.len() > 0,
    ensures
        r@ == dump_answer(what@, payload@, pretty@, ds@, source_files(files@), json),
{
    if json {
        let ghost p = payload@;
        let mut ms = no_members();
        put(&mut ms, what, payload);
        proof {
            assert(members(ms@) =~= seq![mem(what@, p)]);
        }
        return answer(Envelope::new(what).diagnostics(ds, files).result(json_object(ms)));
    }
    let (err, code) = emit_human_diags(ds, files);
    text(cat2(pretty, "\n"), err, code)
}

// ---------- explain ----------

/// What `explain` answers, from the query's result and diagnostic.
pub open spec fn explain_answer(
    file: Seq<char>,
    named: bool,
    result: JsonV,
    extra: Option<DiagnosticV>,
    ds: Seq<DiagnosticV>,
    files: Seq<SourceFileV>,
    ts: Option<Seq<TimingV>>,
    json: bool,
) -> AnswerV {
    if json {
        let e = with_result(with_diagnostics(envelope_of("explain"@), ds, files), result);
        document(
            with_timings(
                match extra {
                    Some(d) => with_extra(e, d, files),
                    None => e,
                },
                ts,
            ),
        )
    } else {
        match extra {
            Some(d) => AnswerV::Text {
                out: Seq::empty(),
                err: rendered(d, file_for(d, files)),
                code: 1,
            },
            None => AnswerV::Text {
                out: if named {
                    symbol_lines(at_key(result, "symbol"@))
                } else {
                    let defs = items_at(result, "defs"@);
                    file + "\n"@ + defs_text(defs, defs.len() as int)
                },
                err: diag_lines(ds, files) + timing_lines(ts),
                code: diags_code(ds),
            },
        }
    }
}

/// What `explain` answers.
pub fn explain(
    file: &str,
    named: bool,
    result: Json,
    extra: Option<&Diagnostic>,
    ds: &Diagnostics,
    files: &Vec<SourceFile>,
    ts: Option<&Vec<StageTiming>>,
    json: bool,
) -> (r: Answer)
    requires
        ds@.len() > 0 || extra is Some ==> files@.len() > 0,
    ensures
        r@ == explain_answer(
            file@,
            named,
            result@,
            match extra {
                Some(d) => Some(d@),
                None => None,
            },
            ds@,
            source_files(files@),
            timings_opt(ts),
            json,
        ),
{
    if json {
        let mut e = Envelope::new("explain").diagnostics(ds, files).result(result);
        if let Some(d) = extra {
            e = e.extra_diagnostic(d, files);
        }
        return answer(timed(e, ts));
    }
    if let Some(d) = extra {
        return text(nothing(), render_in(d, files), 1);
    }
    let (mut err, code) = emit_human_diags(ds, files);
    err.append(timing_text(ts).as_str());
    let out = if named {
        match result.get("symbol") {
            Some(s) => print_symbol(s),
            None => nothing(),
        }
    } else {
        let lines = match get_items(&result, "defs") {
            Some(xs) => print_defs(xs),
            None => nothing(),
        };
        cat3(file, "\n", lines.as_str())
    };
    text(out, err, code)
}

// ---------- rename and patch ----------

/// What a refused plan answers.
pub open spec fn refusal(
    command: Seq<char>,
    ds: Seq<DiagnosticV>,
    files: Seq<SourceFileV>,
    json: bool,
) -> AnswerV {
    if json {
        document(with_extras(envelope_of(command), ds, files))
    } else {
        AnswerV::Text { out: Seq::empty(), err: diag_lines(ds, files), code: 1 }
    }
}

fn refuse(
    command: &'static str,
    ds: &Vec<Diagnostic>,
    files: &Vec<SourceFile>,
    json: bool,
) -> (r: Answer)
    requires
        ds@.len() > 0 ==> files@.len() > 0,
    ensures
        r@ == refusal(command@, diags(ds@), source_files(files@), json),
{
    if json {
        answer(Envelope::new(command).extra_diagnostics(ds, files))
    } else {
        proof {
            assert(diags(ds@).len() == ds@.len());
        }
        text(nothing(), render_all_in(ds, files), 1)
    }
}

/// What a refused rename answers.
pub fn rename_refused(e: &RenameError, files: &Vec<SourceFile>, json: bool) -> (r: Answer)
    requires
        files@.len() > 0,
    ensures
        r@ == refusal("rename"@, rename_diags(e@), source_files(files@), json),
{
    refuse("rename", &e.diagnostics(), files, json)
}

/// What a refused patch answers.
pub fn patch_refused(e: &PatchError, files: &Vec<SourceFile>, json: bool) -> (r: Answer)
    requires
        files@.len() > 0,
    ensures
        r@ == refusal("patch"@, error_diags(e@), source_files(files@), json),
{
    refuse("patch", &e.diagnostics(), files, json)
}

/// What a malformed patch spec answers.
pub fn patch_spec_failure(d: Diagnostic, files: &Vec<SourceFile>, json: bool) -> (r: Answer)
    requires
        files@.len() > 0,
    ensures
        r@ == refusal("patch"@, seq![d@], source_files(files@), json),
{
    let ghost dv = d@;
    let mut ds: Vec<Diagnostic> = Vec::new();
    ds.push(d);
    proof {
        assert(diags(ds@) =~= seq![dv]);
    }
    refuse("patch", &ds, files, json)
}

/// The diagnostic for a patch spec that is no JSON.
pub open spec fn not_json(message: Seq<char>) -> DiagnosticV {
    error_of(Code::MalformedPatch, "patch spec is not valid JSON: "@ + message)
}

/// The diagnostic for a patch spec that is no JSON.
pub fn malformed_spec(message: &str) -> (r: Diagnostic)
    ensures
        r@ == not_json(message@),
{
    Diagnostic::error(Code::MalformedPatch, cat2("patch spec is not valid JSON: ", message))
}

/// What a preview says after the plan.
pub open spec fn dry_run() -> Seq<char> {
    "dry run — pass --apply to write the changes\n"@
}

/// What the preview of a rename answers.
pub fn rename_previewed(plan: &RenamePlan, files: &Vec<SourceFile>, json: bool) -> (r: Answer)
    ensures
        json ==> r@ == document(
            with_result(
                envelope_of("rename"@),
                JsonV::Object(
                    rename_members(plan@, source_files(files@), false),
                ),
            ),
        ),
        !json ==> r@ == (AnswerV::Text {
            out: rename_preview_of(plan@, source_files(files@)),
            err: dry_run(),
            code: 0,
        }),
{
    if json {
        answer(Envelope::new("rename").result(crate::rename_output::plan_json(plan, files, false)))
    } else {
        text(
            crate::rename_output::print_preview(plan, files),
            "dry run — pass --apply to write the changes\n".to_owned(),
            0,
        )
    }
}

/// What an applied rename answers, once its files are written.
pub fn rename_done(
    plan: &RenamePlan,
    report: &RenameReport,
    ds: &Diagnostics,
    files: &Vec<SourceFile>,
    json: bool,
) -> (r: Answer)
    requires
        ds@.len() > 0 ==> files@.len() > 0,
    ensures
        json ==> r@ == document(
            with_result(
                with_diagnostics(envelope_of("rename"@), ds@, source_files(files@)),
                JsonV::Object(
                    rename_applied(plan@, *report, source_files(files@)),
                ),
            ),
        ),
        !json ==> r@ == (AnswerV::Text {
            out: "renamed "@ + plan@.old_name + " → "@ + plan@.new_name + ": "@ + dec(
                report.edits as nat,
            ) + " edit(s), "@ + dec(report.files@.len()) + " file(s) written\n"@,
            err: diag_lines(ds@, source_files(files@)),
            code: diags_code(ds@),
        }),
{
    if json {
        let e = Envelope::new("rename").diagnostics(ds, files);
        return answer(e.result(crate::rename_output::applied_json(plan, report, files)));
    }
    let (err, code) = emit_human_diags(ds, files);
    text(crate::rename_output::print_summary(plan, report), err, code)
}

/// What the preview of a patch answers.
pub fn patch_previewed(plan: &PatchPlan, files: &Vec<SourceFile>, json: bool) -> (r: Answer)
    ensures
        json ==> r@ == document(
            with_result(
                envelope_of("patch"@),
                JsonV::Object(
                    patch_members(plan@, source_files(files@), false),
                ),
            ),
        ),
        !json ==> r@ == (AnswerV::Text {
            out: patch_preview_of(plan@, source_files(files@)),
            err: dry_run(),
            code: 0,
        }),
{
    if json {
        answer(Envelope::new("patch").result(crate::patch_output::plan_json(plan, files, false)))
    } else {
        text(
            crate::patch_output::print_preview(plan, files),
            "dry run — pass --apply to write the changes\n".to_owned(),
            0,
        )
    }
}

/// What an applied patch answers, once its files are written.
pub fn patch_done(
    plan: &PatchPlan,
    report: &PatchReport,
    ds: &Diagnostics,
    files: &Vec<SourceFile>,
    json: bool,
) -> (r: Answer)
    requires
        ds@.len() > 0 ==> files@.len() > 0,
    ensures
        json ==> r@ == document(
            with_result(
                with_diagnostics(envelope_of("patch"@), ds@, source_files(files@)),
                JsonV::Object(
                    patch_applied(plan@, *report, source_files(files@)),
                ),
            ),
        ),
        !json ==> r@ == (AnswerV::Text {
            out: "applied "@ + dec(report.ops as nat) + " op(s): "@ + dec(report.edits as nat)
                + " edit(s), "@ + dec(report.files@.len()) + " file(s) written\n"@,
            err: diag_lines(ds@, source_files(files@)),
            code: diags_code(ds@),
        }),
{
    if json {
        let e = Envelope::new("patch").diagnostics(ds, files);
        return answer(e.result(crate::patch_output::applied_json(plan, report, files)));
    }
    let (err, code) = emit_human_diags(ds, files);
    text(crate::patch_output::print_summary(report), err, code)
}

} // verus!
