//! What the commands answer, whichever form is asked for: one exit code,
//! and a document with every part in its place.

use crate::commands::{
    answer_code, check_answer, dump_answer, explain_answer, refusal, refused_run, run_answer,
    token_json, tokens_answer, with_result, with_timings, AnswerV, LexToken, RunOutcome,
};
use crate::diagnostic::{any_error, DiagnosticV, Severity};
use crate::envelope::{
    envelope_json, envelope_of, exit_code, failure_reply_of, with_diagnostics, with_extra,
    with_extras, CompileFailure, EnvelopeV, ReplyV,
};
use crate::explain_laws::{item_at, keys_apart, lemma_apart, size_of_array};
use crate::fmt::{
    after_write, differs, file_json, fmt_code, fmt_envelope, result_json_of, rewritten, with_file,
    FileResultV, FmtRunV,
};
use crate::json::{at_key, JsonV};
use crate::paths::FsPathV;
use crate::persist::TxFileV;
use crate::query::TimingV;
use crate::render::{diagnostic_json_of, file_for};
use crate::run_value::value_json_of;
use crate::snapshot::SnapV;
use crate::source::FileId;
use crate::source_file::SourceFileV;
use crate::text::{bytes_of, slice_spec};
use vstd::prelude::*;
use vstd::string::*;

verus! {

proof fn lemma_keys()
    ensures
        "schema"@ != "command"@,
        "schema"@ != "success"@,
        "schema"@ != "diagnostics"@,
        "schema"@ != "result"@,
        "schema"@ != "timings"@,
        "schema"@ != "error"@,
        "command"@ != "success"@,
        "command"@ != "diagnostics"@,
        "command"@ != "result"@,
        "command"@ != "timings"@,
        "command"@ != "error"@,
        "success"@ != "diagnostics"@,
        "success"@ != "result"@,
        "success"@ != "timings"@,
        "success"@ != "error"@,
        "diagnostics"@ != "result"@,
        "diagnostics"@ != "timings"@,
        "diagnostics"@ != "error"@,
        "result"@ != "timings"@,
        "result"@ != "error"@,
        "timings"@ != "error"@,
        "kind"@ != "message"@,
        "kind"@ != "start"@,
        "kind"@ != "end"@,
        "kind"@ != "text"@,
        "start"@ != "end"@,
        "start"@ != "text"@,
        "end"@ != "text"@,
        "entry"@ != "value"@,
        "entry"@ != "display"@,
        "value"@ != "display"@,
        "file"@ != "changed"@,
        "file"@ != "formatted"@,
        "file"@ != "written"@,
        "changed"@ != "formatted"@,
        "changed"@ != "written"@,
        "formatted"@ != "written"@,
        "would_change"@ != "files"@,
        "stage"@ != "nanos"@,
{
    reveal_strlit("schema");
    reveal_strlit("command");
    reveal_strlit("success");
    reveal_strlit("diagnostics");
    reveal_strlit("result");
    reveal_strlit("timings");
    reveal_strlit("error");
    reveal_strlit("kind");
    reveal_strlit("message");
    reveal_strlit("start");
    reveal_strlit("end");
    reveal_strlit("text");
    reveal_strlit("entry");
    reveal_strlit("value");
    reveal_strlit("display");
    reveal_strlit("file");
    reveal_strlit("changed");
    reveal_strlit("formatted");
    reveal_strlit("written");
    reveal_strlit("would_change");
    reveal_strlit("files");
    reveal_strlit("stage");
    reveal_strlit("nanos");
    assert("schema"@.len() != "command"@.len());
    assert("schema"@.len() != "success"@.len());
    assert("schema"@.len() != "diagnostics"@.len());
    assert("schema"@[0] != "result"@[0]);
    assert("schema"@.len() != "timings"@.len());
    assert("schema"@.len() != "error"@.len());
    assert("command"@[0] != "success"@[0]);
    assert("command"@.len() != "diagnostics"@.len());
    assert("command"@.len() != "result"@.len());
    assert("command"@[0] != "timings"@[0]);
    assert("command"@.len() != "error"@.len());
    assert("success"@.len() != "diagnostics"@.len());
    assert("success"@.len() != "result"@.len());
    assert("success"@[0] != "timings"@[0]);
    assert("success"@.len() != "error"@.len());
    assert("diagnostics"@.len() != "result"@.len());
    assert("diagnostics"@.len() != "timings"@.len());
    assert("diagnostics"@.len() != "error"@.len());
    assert("result"@.len() != "timings"@.len());
    assert("result"@.len() != "error"@.len());
    assert("timings"@.len() != "error"@.len());
    assert("kind"@.len() != "message"@.len());
    assert("kind"@.len() != "start"@.len());
    assert("kind"@.len() != "end"@.len());
    assert("kind"@[0] != "text"@[0]);
    assert("start"@.len() != "end"@.len());
    assert("start"@.len() != "text"@.len());
    assert("end"@.len() != "text"@.len());
    assert("entry"@[0] != "value"@[0]);
    assert("entry"@.len() != "display"@.len());
    assert("value"@.len() != "display"@.len());
    assert("file"@.len() != "changed"@.len());
    assert("file"@.len() != "formatted"@.len());
    assert("file"@.len() != "written"@.len());
    assert("changed"@.len() != "formatted"@.len());
    assert("changed"@[0] != "written"@[0]);
    assert("formatted"@.len() != "written"@.len());
    assert("would_change"@.len() != "files"@.len());
    assert("stage"@[0] != "nanos"@[0]);
}

// ---------- exit codes ----------

/// Some diagnostic is an error.
pub open spec fn fails(ds: Seq<DiagnosticV>) -> bool {
    exists|i: int| 0 <= i < ds.len() && (#[trigger] ds[i]).severity == Severity::Error
}

/// `check` and the dumps exit with one exactly where some diagnostic is
/// an error, with zero otherwise; as a document and as text alike.
pub proof fn law_exit_code_of_diagnostics(
    file: Seq<char>,
    what: Seq<char>,
    payload: JsonV,
    pretty: Seq<char>,
    tokens: Seq<LexToken>,
    source: Seq<char>,
    ds: Seq<DiagnosticV>,
    files: Seq<SourceFileV>,
    ts: Option<Seq<TimingV>>,
    json: bool,
)
    ensures
        answer_code(check_answer(file, ds, files, ts, json)) == (if fails(ds) {
            1u8
        } else {
            0u8
        }),
        answer_code(dump_answer(what, payload, pretty, ds, files, json)) == (if fails(ds) {
            1u8
        } else {
            0u8
        }),
        answer_code(tokens_answer(tokens, source, ds, files, json)) == (if fails(ds) {
            1u8
        } else {
            0u8
        }),
{
    assert(fails(ds) == any_error(ds));
}

/// A program with errors is not run and exits with one; a run that yields
/// a value exits with zero, and one that traps with two; as a document
/// and as text alike.
pub proof fn law_exit_code_of_run(
    s: SnapV,
    entry: Seq<char>,
    outcome: RunOutcome,
    ds: Seq<DiagnosticV>,
    files: Seq<SourceFileV>,
    ts: Option<Seq<TimingV>>,
    json: bool,
)
    ensures
        fails(ds) ==> answer_code(refused_run(ds, files, ts, json)) == 1,
        !fails(ds) ==> answer_code(run_answer(s, entry, outcome, ds, files, ts, json)) == (
        match outcome {
            RunOutcome::Value(_, _) => 0u8,
            RunOutcome::Trap(_) => 2u8,
        }),
{
    assert(fails(ds) == any_error(ds));
}

/// A name that selects no single symbol makes `explain` exit with one;
/// otherwise the exit code is that of the diagnostics.
pub proof fn law_exit_code_of_explain(
    file: Seq<char>,
    named: bool,
    result: JsonV,
    extra: Option<DiagnosticV>,
    ds: Seq<DiagnosticV>,
    files: Seq<SourceFileV>,
    ts: Option<Seq<TimingV>>,
    json: bool,
)
    requires
        extra matches Some(d) ==> d.severity == Severity::Error,
    ensures
        answer_code(explain_answer(file, named, result, extra, ds, files, ts, json)) == (
        if extra is Some || fails(ds) {
            1u8
        } else {
            0u8
        }),
{
    assert(fails(ds) == any_error(ds));
}

proof fn lemma_extras(e: EnvelopeV, ds: Seq<DiagnosticV>, files: Seq<SourceFileV>)
    ensures
        with_extras(e, ds, files).has_errors <==> e.has_errors || fails(ds),
        with_extras(e, ds, files).error == e.error,
        with_extras(e, ds, files).command == e.command,
        with_extras(e, ds, files).diags.len() == e.diags.len() + ds.len(),
        forall|i: int|
            0 <= i < ds.len() ==> #[trigger] with_extras(e, ds, files).diags[e.diags.len() + i]
                == diagnostic_json_of(ds[i], file_for(ds[i], files)),
    decreases ds.len(),
{
    if ds.len() > 0 {
        let front = ds.drop_last();
        lemma_extras(e, front, files);
        if fails(front) {
            let i = choose|i: int|
                0 <= i < front.len() && (#[trigger] front[i]).severity == Severity::Error;
            assert(ds[i].severity == Severity::Error);
        }
        if fails(ds) && ds.last().severity != Severity::Error {
            let i = choose|i: int|
                0 <= i < ds.len() && (#[trigger] ds[i]).severity == Severity::Error;
            assert(front[i].severity == Severity::Error);
        }
        assert(ds.last() == ds[ds.len() - 1]);
        let before = with_extras(e, front, files);
        let now = with_extras(e, ds, files);
        assert forall|i: int| 0 <= i < ds.len() implies #[trigger] now.diags[e.diags.len() + i]
            == diagnostic_json_of(ds[i], file_for(ds[i], files)) by {
            if i < front.len() {
                assert(now.diags[e.diags.len() + i] == before.diags[e.diags.len() + i]);
                assert(front[i] == ds[i]);
            }
        }
    }
}

/// A refused request exits with one, as a document and as text alike, and
/// its document lists every reason, in order.
pub proof fn law_refusal_lists_reasons(
    command: Seq<char>,
    ds: Seq<DiagnosticV>,
    files: Seq<SourceFileV>,
    json: bool,
    i: int,
)
    requires
        fails(ds),
        0 <= i < ds.len(),
    ensures
        answer_code(refusal(command, ds, files, json)) == 1,
        refusal(command, ds, files, true) matches AnswerV::Document(doc, _) && {
            &&& at_key(doc, "command"@) == JsonV::Str(command)
            &&& at_key(doc, "success"@) == JsonV::Bool(false)
            &&& size_of_array(at_key(doc, "diagnostics"@)) == ds.len()
            &&& item_at(at_key(doc, "diagnostics"@), i) == diagnostic_json_of(
                ds[i],
                file_for(ds[i], files),
            )
        },
{
    let e0 = envelope_of(command);
    lemma_extras(e0, ds, files);
    let e = with_extras(e0, ds, files);
    law_envelope_parts(e);
    assert(e.diags[e0.diags.len() + i] == diagnostic_json_of(ds[i], file_for(ds[i], files)));
}

/// A file that cannot be read exits with two, and a panic of the pipeline
/// with three; as a document and as text alike. The document of a panic
/// shows its diagnostic.
pub proof fn law_failures_told_apart(f: CompileFailure, command: Seq<char>, json: bool)
    ensures
        ({
            let code = match failure_reply_of(f, command, json) {
                ReplyV::Document(_, c) => c,
                ReplyV::Message(_, c) => c,
            };
            match f {
                CompileFailure::Io(_) => code == 2,
                CompileFailure::Ice(_, _) => code == 3,
            }
        }),
        failure_reply_of(f, command, true) matches ReplyV::Document(doc, _) && {
            &&& at_key(doc, "command"@) == JsonV::Str(command)
            &&& at_key(doc, "success"@) == JsonV::Bool(false)
            &&& match f {
                CompileFailure::Io(msg) => {
                    &&& at_key(at_key(doc, "error"@), "kind"@) == JsonV::Str("io"@)
                    &&& at_key(at_key(doc, "error"@), "message"@) == JsonV::Str(msg@)
                    &&& size_of_array(at_key(doc, "diagnostics"@)) == 0
                },
                CompileFailure::Ice(sf, d) => {
                    &&& at_key(at_key(doc, "error"@), "kind"@) == JsonV::Str("internal"@)
                    &&& at_key(at_key(doc, "error"@), "message"@) == JsonV::Str((*d).view().message)
                    &&& size_of_array(at_key(doc, "diagnostics"@)) == 1
                },
            }
        },
{
    lemma_keys();
    let e = match f {
        CompileFailure::Io(msg) => crate::envelope::with_error(
            envelope_of(command),
            "io"@,
            msg@,
            2,
        ),
        CompileFailure::Ice(sf, d) => crate::envelope::with_error(
            with_extra(envelope_of(command), (*d).view(), seq![sf@]),
            "internal"@,
            (*d).view().message,
            3,
        ),
    };
    law_envelope_parts(e);
    let ms = (e.error->0).1->Object_0;
    assert(keys_apart(ms));
    lemma_apart(ms, 0);
    lemma_apart(ms, 1);
}

// ---------- documents ----------

/// The document of a command holds its name, its diagnostics, its result
/// and its timings, each under its own key; it tells of success exactly
/// where there is no error of either kind.
pub proof fn law_envelope_parts(e: EnvelopeV)
    ensures
        at_key(envelope_json(e), "command"@) == JsonV::Str(e.command),
        at_key(envelope_json(e), "diagnostics"@) == JsonV::Array(e.diags),
        at_key(envelope_json(e), "result"@) == e.result,
        at_key(envelope_json(e), "timings"@) == e.timings,
        at_key(envelope_json(e), "success"@) == JsonV::Bool(!(e.has_errors || e.error is Some)),
        at_key(envelope_json(e), "error"@) == (match e.error {
            Some(x) => x.1,
            None => JsonV::Null,
        }),
{
    lemma_keys();
    let ms = envelope_json(e)->Object_0;
    assert(keys_apart(ms));
    lemma_apart(ms, 1);
    lemma_apart(ms, 2);
    lemma_apart(ms, 3);
    lemma_apart(ms, 4);
    lemma_apart(ms, 5);
    lemma_apart(ms, 6);
}

/// The document of `check` shows every diagnostic, in order, and every
/// stage with its own time.
pub proof fn law_check_document(
    file: Seq<char>,
    ds: Seq<DiagnosticV>,
    files: Seq<SourceFileV>,
    ts: Seq<TimingV>,
    i: int,
    k: int,
)
    requires
        0 <= i < ds.len(),
        0 <= k < ts.len(),
    ensures
        check_answer(file, ds, files, Some(ts), true) matches AnswerV::Document(doc, _) && {
            &&& at_key(doc, "success"@) == JsonV::Bool(!fails(ds))
            &&& size_of_array(at_key(doc, "diagnostics"@)) == ds.len()
            &&& item_at(at_key(doc, "diagnostics"@), i) == diagnostic_json_of(
                ds[i],
                file_for(ds[i], files),
            )
            &&& size_of_array(at_key(doc, "timings"@)) == ts.len()
            &&& at_key(item_at(at_key(doc, "timings"@), k), "stage"@) == JsonV::Str(ts[k].stage)
            &&& at_key(item_at(at_key(doc, "timings"@), k), "nanos"@) == JsonV::Uint(ts[k].nanos)
        },
{
    lemma_keys();
    assert(fails(ds) == any_error(ds));
    let e = with_timings(with_diagnostics(envelope_of("check"@), ds, files), Some(ts));
    law_envelope_parts(e);
    let ms = item_at(e.timings, k)->Object_0;
    assert(keys_apart(ms));
    lemma_apart(ms, 0);
    lemma_apart(ms, 1);
}

/// The document of a run that yields a value holds the entry, the value
/// and how it is shown.
pub proof fn law_run_document(
    s: SnapV,
    entry: Seq<char>,
    outcome: RunOutcome,
    ds: Seq<DiagnosticV>,
    files: Seq<SourceFileV>,
    ts: Option<Seq<TimingV>>,
)
    ensures
        outcome matches RunOutcome::Value(v, shown) ==> (run_answer(
            s,
            entry,
            outcome,
            ds,
            files,
            ts,
            true,
        ) matches AnswerV::Document(doc, _) && {
            &&& at_key(at_key(doc, "result"@), "entry"@) == JsonV::Str(entry)
            &&& at_key(at_key(doc, "result"@), "value"@) == value_json_of(s, v)
            &&& at_key(at_key(doc, "result"@), "display"@) == JsonV::Str(shown@)
        }),
{
    lemma_keys();
    if let RunOutcome::Value(v, shown) = outcome {
        let r = JsonV::Object(
            seq![
                crate::json::mem("entry"@, JsonV::Str(entry)),
                crate::json::mem("value"@, value_json_of(s, v)),
                crate::json::mem("display"@, JsonV::Str(shown@)),
            ],
        );
        let e = with_timings(
            with_result(with_diagnostics(envelope_of("run"@), ds, files), r),
            ts,
        );
        law_envelope_parts(e);
        let ms = r->Object_0;
        assert(keys_apart(ms));
        lemma_apart(ms, 0);
        lemma_apart(ms, 1);
        lemma_apart(ms, 2);
    }
}

/// The entry of a token holds its kind, its two offsets, and the text
/// that stands between them.
pub proof fn law_token_entry(t: LexToken, source: Seq<char>)
    requires
        slice_spec(source, t.start as int, t.end as int) is Some,
    ensures
        at_key(token_json(t, source), "kind"@) == JsonV::Str(t.kind@),
        at_key(token_json(t, source), "start"@) == JsonV::Uint(t.start as u64),
        at_key(token_json(t, source), "end"@) == JsonV::Uint(t.end as u64),
        slice_spec(source, t.start as int, t.end as int) matches Some(x) && at_key(
            token_json(t, source),
            "text"@,
        ) == JsonV::Str(x),
{
    lemma_keys();
    let ms = token_json(t, source)->Object_0;
    assert(keys_apart(ms));
    lemma_apart(ms, 0);
    lemma_apart(ms, 1);
    lemma_apart(ms, 2);
    lemma_apart(ms, 3);
}

// ---------- formatting ----------

proof fn lemma_rewritten(run: FmtRunV, k: int, t: TxFileV)
    requires
        0 <= k <= run.results.len(),
    ensures
        rewritten(run, k).contains(t) <==> exists|j: int|
            0 <= j < k && differs(#[trigger] run.results[j]) && run.results[j].formatted is Some
                && t.path == run.paths[j] && t.before == bytes_of(run.files[j].text) && t.after
                == bytes_of(run.results[j].formatted->0),
    decreases k,
{
    if k > 0 {
        lemma_rewritten(run, k - 1, t);
        let front = rewritten(run, k - 1);
        let now = rewritten(run, k);
        let r = run.results[k - 1];
        if r.formatted is Some && differs(r) {
            let x = now.last();
            assert(now =~= front.push(x));
            if front.contains(t) {
                let i = choose|i: int| 0 <= i < front.len() && front[i] == t;
                assert(now[i] == t);
            }
            assert(now[front.len() as int] == x);
            if now.contains(t) {
                let i = choose|i: int| 0 <= i < now.len() && now[i] == t;
                if i < front.len() {
                    assert(front[i] == t);
                } else {
                    assert(differs(run.results[k - 1]));
                }
            }
            if exists|j: int|
                0 <= j < k && differs(#[trigger] run.results[j]) && run.results[j].formatted is Some
                    && t.path == run.paths[j] && t.before == bytes_of(run.files[j].text) && t.after
                    == bytes_of(run.results[j].formatted->0) {
                let j = choose|j: int|
                    0 <= j < k && differs(#[trigger] run.results[j])
                        && run.results[j].formatted is Some && t.path == run.paths[j] && t.before
                        == bytes_of(run.files[j].text) && t.after == bytes_of(
                        run.results[j].formatted->0,
                    );
                if j == k - 1 {
                    assert(x =~= t);
                } else {
                    assert(differs(run.results[j]));
                }
            }
        }
    }
}

/// `--write` rewrites every file whose canonical form differs, from the
/// text that was read to the canonical one, and no other; and it reports
/// exactly those as written.
pub proof fn law_write_rewrites_changed_files(run: FmtRunV, t: TxFileV, i: int)
    requires
        0 <= i < run.results.len(),
        !run.results[i].written,
    ensures
        rewritten(run, run.results.len() as int).contains(t) <==> exists|j: int|
            0 <= j < run.results.len() && differs(#[trigger] run.results[j])
                && run.results[j].formatted is Some && t.path == run.paths[j] && t.before
                == bytes_of(run.files[j].text) && t.after == bytes_of(run.results[j].formatted->0),
        after_write(run).results[i].written <==> run.results[i].changed == Some(true),
        after_write(run).results[i].file == run.results[i].file,
        after_write(run).results[i].formatted == run.results[i].formatted,
{
    lemma_rewritten(run, run.results.len() as int, t);
}

/// A formatted file differs exactly where its canonical text is not the
/// text that was read. A file that does not parse has no canonical text,
/// and its diagnostics are reported in it,
/// unless they tell of another file.
pub proof fn law_file_formatted(
    run: FmtRunV,
    path: FsPathV,
    text: Seq<char>,
    outcome: Result<Seq<char>, Seq<DiagnosticV>>,
    i: int,
)
    requires
        run.results.len() == run.files.len() == run.paths.len() <= usize::MAX,
    ensures
        ({
            let next = with_file(run, path, text, outcome);
            let n = run.results.len() as int;
            &&& next.results.len() == n + 1
            &&& next.paths[n] == path
            &&& next.files[n].text == text
            &&& !next.results[n].written
            &&& match outcome {
                Ok(t) => next.diags == run.diags && next.results[n].formatted == Some(t) && (
                differs(next.results[n]) <==> t != text),
                Err(ds) => {
                    &&& next.results[n].formatted is None
                    &&& !differs(next.results[n])
                    &&& next.diags.len() == run.diags.len() + ds.len()
                    &&& 0 <= i < ds.len() ==> {
                        let d = next.diags[run.diags.len() + i];
                        &&& d.code == ds[i].code
                        &&& ds[i].file is None ==> d.file == Some(FileId { raw: n as usize })
                        &&& ds[i].file is Some ==> d.file == ds[i].file
                    }
                },
            }
        }),
{
}

/// `--check` exits with one where a file would change or does not parse;
/// without it only what does not parse is a failure. The document tells
/// whether a file would change, and lists each file with its own verdict.
pub proof fn law_check_finds_changes(run: FmtRunV, check: bool, i: int)
    requires
        0 <= i < run.results.len(),
    ensures
        fmt_code(run, check, exit_code(fmt_envelope(run))) == (if fails(run.diags) || (check
            && exists|k: int|
            0 <= k < run.results.len() && (#[trigger] run.results[k]).changed == Some(true)) {
            1u8
        } else {
            0u8
        }),
        at_key(result_json_of(run.results), "would_change"@) == JsonV::Bool(
            exists|k: int|
                0 <= k < run.results.len() && (#[trigger] run.results[k]).changed == Some(true),
        ),
        size_of_array(at_key(result_json_of(run.results), "files"@)) == run.results.len(),
        shows_file(item_at(at_key(result_json_of(run.results), "files"@), i), run.results[i]),
{
    lemma_keys();
    assert(fails(run.diags) == any_error(run.diags));
    let some = exists|k: int|
        0 <= k < run.results.len() && (#[trigger] run.results[k]).changed == Some(true);
    if some {
        let k = choose|k: int|
            0 <= k < run.results.len() && (#[trigger] run.results[k]).changed == Some(true);
        assert(differs(run.results[k]));
    }
    assert(crate::fmt::would_change(run.results) == some);
    let ms = result_json_of(run.results)->Object_0;
    assert(keys_apart(ms));
    lemma_apart(ms, 0);
    lemma_apart(ms, 1);
    let fs = file_json(run.results[i])->Object_0;
    assert(keys_apart(fs));
    lemma_apart(fs, 0);
    lemma_apart(fs, 1);
    lemma_apart(fs, 2);
    lemma_apart(fs, 3);
}

/// An object shows the verdict on a file.
pub open spec fn shows_file(v: JsonV, r: FileResultV) -> bool {
    &&& at_key(v, "file"@) == JsonV::Str(r.file)
    &&& at_key(v, "changed"@) == (match r.changed {
        Some(b) => JsonV::Bool(b),
        None => JsonV::Null,
    })
    &&& at_key(v, "formatted"@) == (match r.formatted {
        Some(t) => JsonV::Str(t),
        None => JsonV::Null,
    })
    &&& at_key(v, "written"@) == JsonV::Bool(r.written)
}

} // verus!
