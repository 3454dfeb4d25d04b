//! The single-document machine-output contract (schema 1).
//!
//! Every `--json` invocation writes exactly one envelope document — never
//! a diagnostics document followed by a payload document:
//!
//! ```json
//! {
//!   "schema": 1,
//!   "command": "check",
//!   "success": true,
//!   "diagnostics": [],
//!   "result": null,
//!   "timings": [],
//!   "error": null
//! }
//! ```
//!
//! `error` is `{kind, message}` for failures that are no diagnostics:
//! `io` (unreadable file), `runtime` (trap, missing entry), `internal`.

use crate::code::Code;
use crate::diagnostic::{
    any_error, diags, error_of, Diagnostic, DiagnosticV, Diagnostics, Severity,
};
use crate::json::{
    json_array, json_object, json_str, jsons, mem, members, no_items, no_members, put, put_item,
    Json, JsonV,
};
use crate::query::{timings, StageTiming, TimingV};
use crate::render::{
    all_rendered_in, diagnostic_items, diagnostic_json_in, diagnostic_json_of, diagnostics_json,
    file_for, render_all_in, rendered, repeat, times,
};
use crate::source::Span;
use crate::source_file::{source_files, SourceFile, SourceFileV};
use crate::text::{cat2, cat3, dec, decimal};
use vstd::prelude::*;
use vstd::string::*;

verus! {

/// Builds the one-document JSON response for a command.
pub struct Envelope {
    command: &'static str,
    diags: Vec<Json>,
    has_errors: bool,
    result: Json,
    timings: Json,
    error: Option<(u8, Json)>,
}

/// Model of [`Envelope`].
#[verifier::ext_equal]
pub struct EnvelopeV {
    pub command: Seq<char>,
    pub diags: Seq<JsonV>,
    pub has_errors: bool,
    pub result: JsonV,
    pub timings: JsonV,
    pub error: Option<(u8, JsonV)>,
}

/// A fresh envelope.
pub open spec fn envelope_of(command: Seq<char>) -> EnvelopeV {
    EnvelopeV {
        command,
        diags: Seq::empty(),
        has_errors: false,
        result: JsonV::Null,
        timings: JsonV::Array(Seq::empty()),
        error: None,
    }
}

/// An envelope with the diagnostics of a workspace.
pub open spec fn with_diagnostics(
    e: EnvelopeV,
    ds: Seq<DiagnosticV>,
    files: Seq<SourceFileV>,
) -> EnvelopeV {
    EnvelopeV { diags: diagnostics_json(ds, files), has_errors: any_error(ds), ..e }
}

/// An envelope with one more diagnostic.
pub open spec fn with_extra(e: EnvelopeV, d: DiagnosticV, files: Seq<SourceFileV>) -> EnvelopeV {
    EnvelopeV {
        diags: e.diags.push(diagnostic_json_of(d, file_for(d, files))),
        has_errors: e.has_errors || d.severity == Severity::Error,
        ..e
    }
}

/// An envelope with more diagnostics, one after the other.
pub open spec fn with_extras(e: EnvelopeV, ds: Seq<DiagnosticV>, files: Seq<SourceFileV>) -> EnvelopeV
    decreases ds.len(),
{
    if ds.len() == 0 {
        e
    } else {
        with_extra(with_extras(e, ds.drop_last(), files), ds.last(), files)
    }
}

/// A stage timing as JSON.
pub open spec fn timing_json(t: TimingV) -> JsonV {
    JsonV::Object(
        seq![mem("stage"@, JsonV::Str(t.stage)), mem("nanos"@, JsonV::Uint(t.nanos))],
    )
}

/// Stage timings as JSON.
pub open spec fn timings_json(ts: Seq<TimingV>) -> JsonV {
    JsonV::Array(Seq::new(ts.len(), |i: int| timing_json(ts[i])))
}

/// An envelope that failed for another reason than a diagnostic.
pub open spec fn with_error(e: EnvelopeV, kind: Seq<char>, message: Seq<char>, code: u8) -> EnvelopeV {
    EnvelopeV {
        error: Some(
            (
                code,
                JsonV::Object(
                    seq![mem("kind"@, JsonV::Str(kind)), mem("message"@, JsonV::Str(message))],
                ),
            ),
        ),
        ..e
    }
}

/// The envelope's document.
pub open spec fn envelope_json(e: EnvelopeV) -> JsonV {
    JsonV::Object(
        seq![
            mem("schema"@, JsonV::Uint(1)),
            mem("command"@, JsonV::Str(e.command)),
            mem("success"@, JsonV::Bool(!e.has_errors && e.error is None)),
            mem("diagnostics"@, JsonV::Array(e.diags)),
            mem("result"@, e.result),
            mem("timings"@, e.timings),
            mem(
                "error"@,
                match e.error {
                    Some(x) => x.1,
                    None => JsonV::Null,
                },
            ),
        ],
    )
}

/// The process exit code of an envelope.
pub open spec fn exit_code(e: EnvelopeV) -> u8 {
    match e.error {
        Some(x) => x.0,
        None => if e.has_errors {
            1
        } else {
            0
        },
    }
}

impl Envelope {
    /// The model of this envelope.
    pub closed spec fn view(&self) -> EnvelopeV {
        EnvelopeV {
            command: self.command@,
            diags: jsons(self.diags@),
            has_errors: self.has_errors,
            result: self.result@,
            timings: self.timings@,
            error: match self.error {
                Some(x) => Some((x.0, x.1@)),
                None => None,
            },
        }
    }

    /// A fresh envelope for `command`.
    pub fn new(command: &'static str) -> (r: Envelope)
        ensures
            r@ == envelope_of(command@),
    {
        Envelope {
            command,
            diags: no_items(),
            has_errors: false,
            result: Json::Null,
            timings: json_array(no_items()),
            error: None,
        }
    }

    /// Fills `diagnostics`. Each diagnostic is shown with the file its
    /// tag names.
    pub fn diagnostics(self, ds: &Diagnostics, files: &Vec<SourceFile>) -> (r: Envelope)
        requires
            ds@.len() > 0 ==> files@.len() > 0,
        ensures
            r@ == with_diagnostics(self@, ds@, source_files(files@)),
    {
        let mut out = self;
        out.has_errors = ds.has_errors();
        let v = ds.iter();
        proof {
            assert(diags(v@).len() == v@.len());
        }
        out.diags = diagnostic_items(v, files);
        out
    }

    /// Attaches a single extra diagnostic.
    pub fn extra_diagnostic(self, d: &Diagnostic, files: &Vec<SourceFile>) -> (r: Envelope)
        requires
            files@.len() > 0,
        ensures
            r@ == with_extra(self@, d@, source_files(files@)),
    {
        let mut out = self;
        if d.severity == Severity::Error {
            out.has_errors = true;
        }
        let item = diagnostic_json_in(d, files);
        put_item(&mut out.diags, item);
        out
    }

    /// Attaches extra diagnostics, one after the other.
    pub fn extra_diagnostics(self, ds: &Vec<Diagnostic>, files: &Vec<SourceFile>) -> (r: Envelope)
        requires
            ds@.len() > 0 ==> files@.len() > 0,
        ensures
            r@ == with_extras(self@, diags(ds@), source_files(files@)),
    {
        let ghost all = diags(ds@);
        let ghost start = self@;
        let mut out = self;
        let mut i: usize = 0;
        proof {
            assert(all.take(0) =~= Seq::empty());
        }
        while i < ds.len()
            invariant
                i <= ds@.len(),
                ds@.len() > 0 ==> files@.len() > 0,
                all == diags(ds@),
                out@ == with_extras(start, all.take(i as int), source_files(files@)),
            decreases ds@.len() - i,
        {
            proof {
                assert(all.take(i + 1).drop_last() =~= all.take(i as int));
                assert(all.take(i + 1).last() == ds@[i as int]@);
            }
            out = out.extra_diagnostic(&ds[i], files);
            i += 1;
        }
        proof {
            assert(all.take(all.len() as int) =~= all);
        }
        out
    }

    /// Sets the command payload.
    pub fn result(self, result: Json) -> (r: Envelope)
        ensures
            r@ == (EnvelopeV { result: result@, ..self@ }),
    {
        let mut out = self;
        out.result = result;
        out
    }

    /// Includes per-stage timings (opt-in — nondeterministic data).
    pub fn timings(self, ts: &Vec<StageTiming>) -> (r: Envelope)
        ensures
            r@ == (EnvelopeV { timings: timings_json(timings(ts@)), ..self@ }),
    {
        let mut out = self;
        out.timings = timings_array(ts);
        out
    }

    /// Marks the command failed for a reason that is no diagnostic.
    /// `code` is the process exit code (2 = io or runtime, 3 =
    /// internal).
    pub fn error(self, kind: &str, message: &str, code: u8) -> (r: Envelope)
        ensures
            r@ == with_error(self@, kind@, message@, code),
    {
        let mut out = self;
        let mut ms = no_members();
        put(&mut ms, "kind", json_str(kind));
        put(&mut ms, "message", json_str(message));
        proof {
            assert(members(ms@) =~= seq![
                mem("kind"@, JsonV::Str(kind@)),
                mem("message"@, JsonV::Str(message@)),
            ]);
        }
        out.error = Some((code, json_object(ms)));
        out
    }

    /// The envelope document plus its exit code.
    pub fn into_parts(self) -> (r: (Json, u8))
        ensures
            r.0@ == envelope_json(self@),
            r.1 == exit_code(self@),
    {
        let success = !self.has_errors && self.error.is_none();
        let code = match &self.error {
            Some(x) => x.0,
            None => if self.has_errors {
                1
            } else {
                0
            },
        };
        let failed = match &self.error {
            Some(x) => x.1.copy(),
            None => Json::Null,
        };
        let ghost v = self@;
        let mut ms = no_members();
        put(&mut ms, "schema", Json::Uint(1));
        put(&mut ms, "command", json_str(self.command));
        put(&mut ms, "success", Json::Bool(success));
        put(&mut ms, "diagnostics", json_array(self.diags));
        put(&mut ms, "result", self.result);
        put(&mut ms, "timings", self.timings);
        put(&mut ms, "error", failed);
        proof {
            assert(members(ms@) =~= envelope_json(v)->Object_0);
        }
        (json_object(ms), code)
    }

    /// The envelope document.
    pub fn into_json(self) -> (r: Json)
        ensures
            r@ == envelope_json(self@),
    {
        self.into_parts().0
    }
}

fn timings_array(ts: &Vec<StageTiming>) -> (r: Json)
    ensures
        r@ == timings_json(timings(ts@)),
{
    let ghost all = timings_json(timings(ts@))->Array_0;
    let mut out = no_items();
    let mut i: usize = 0;
    proof {
        assert(all.take(0) =~= Seq::empty());
    }
    while i < ts.len()
        invariant
            i <= ts@.len(),
            all == timings_json(timings(ts@))->Array_0,
            jsons(out@) == all.take(i as int),
        decreases ts@.len() - i,
    {
        let mut ms = no_members();
        put(&mut ms, "stage", json_str(ts[i].stage));
        put(&mut ms, "nanos", Json::Uint(ts[i].nanos));
        proof {
            assert(members(ms@) =~= timing_json(ts@[i as int]@)->Object_0);
        }
        put_item(&mut out, json_object(ms));
        i += 1;
        proof {
            assert(all.take(i as int) =~= all.take(i - 1).push(all[i - 1]));
        }
    }
    proof {
        assert(all.take(all.len() as int) =~= all);
    }
    json_array(out)
}

/// The code of a failure that is no diagnostic.
pub open spec fn failure_code(e: EnvelopeV) -> u8 {
    match e.error {
        Some((code, _)) => code,
        None => 0,
    }
}

/// The exit code says what the document says: zero exactly for a
/// success, when a failure's own code is not zero.
pub proof fn law_exit_code_agrees(e: EnvelopeV)
    requires
        e.error is Some ==> failure_code(e) != 0,
    ensures
        exit_code(e) == 0 <==> envelope_json(e)->Object_0[2] == mem(
            "success"@,
            JsonV::Bool(true),
        ),
{
}

/// Every envelope has the same seven members, in the same order.
pub proof fn law_envelope_shape(e: EnvelopeV)
    ensures
        ({
            let ms = envelope_json(e)->Object_0;
            &&& ms.len() == 7
            &&& ms[0].key == "schema"@
            &&& ms[1].key == "command"@
            &&& ms[2].key == "success"@
            &&& ms[3].key == "diagnostics"@
            &&& ms[4].key == "result"@
            &&& ms[5].key == "timings"@
            &&& ms[6].key == "error"@
        }),
{
}

// ---------- failures and human output ----------

/// Failure paths of a compilation.
pub enum CompileFailure {
    /// The source file could not be read (exit 2).
    Io(String),
    /// The pipeline panicked; the diagnostic is the `I_INTERNAL` record
    /// (exit 3).
    Ice(SourceFile, Box<Diagnostic>),
}

/// What a command writes, and the exit code.
pub enum Reply {
    /// One document to stdout.
    Document(Json, u8),
    /// Text to stderr.
    Message(String, u8),
}

/// Model of [`Reply`].
#[verifier::ext_equal]
pub enum ReplyV {
    Document(JsonV, u8),
    Message(Seq<char>, u8),
}

impl Reply {
    /// The model of this reply.
    pub open spec fn view(&self) -> ReplyV {
        match self {
            Reply::Document(j, c) => ReplyV::Document(j@, *c),
            Reply::Message(t, c) => ReplyV::Message(t@, *c),
        }
    }
}

/// An envelope as a reply.
pub open spec fn document_reply(e: EnvelopeV) -> ReplyV {
    ReplyV::Document(envelope_json(e), exit_code(e))
}

/// How a failure is reported.
pub open spec fn failure_reply_of(f: CompileFailure, command: Seq<char>, json: bool) -> ReplyV {
    match f {
        CompileFailure::Io(msg) => if json {
            document_reply(with_error(envelope_of(command), "io"@, msg@, 2))
        } else {
            ReplyV::Message("error: "@ + msg@ + "\n"@, 2)
        },
        CompileFailure::Ice(sf, d) => if json {
            document_reply(
                with_error(
                    with_extra(envelope_of(command), (*d).view(), seq![sf@]),
                    "internal"@,
                    (*d).view().message,
                    3,
                ),
            )
        } else {
            ReplyV::Message(rendered((*d).view(), sf@), 3)
        },
    }
}

/// Reports a compile failure in the active output mode.
pub fn emit_failure(f: CompileFailure, command: &'static str, json: bool) -> (r: Reply)
    ensures
        r@ == failure_reply_of(f, command@, json),
{
    match f {
        CompileFailure::Io(msg) => if json {
            let (doc, code) = Envelope::new(command).error("io", msg.as_str(), 2).into_parts();
            Reply::Document(doc, code)
        } else {
            Reply::Message(cat3("error: ", msg.as_str(), "\n"), 2)
        },
        CompileFailure::Ice(sf, d) => if json {
            let mut files: Vec<SourceFile> = Vec::new();
            let ghost sv = sf@;
            files.push(sf);
            proof {
                assert(source_files(files@) =~= seq![sv]);
            }
            let (doc, code) = Envelope::new(command).extra_diagnostic(&d, &files).error(
                "internal",
                d.message.as_str(),
                3,
            ).into_parts();
            Reply::Document(doc, code)
        } else {
            Reply::Message(crate::render::render(&d, &sf), 3)
        },
    }
}

/// What a panic in the pipeline is reported as.
pub open spec fn internal_error(msg: Seq<char>) -> DiagnosticV {
    error_of(Code::Internal, "internal compiler error: "@ + msg).with_primary(
        Span { start: 0, end: 0 },
    ).with_help(
        "this is a compiler bug — please report it at https://github.com/Ontixa/ontixa/issues"@,
    )
}

/// The diagnostic for a panic that crossed the compile boundary, with
/// the input being processed.
pub fn ice_failure(file: SourceFile, msg: &str) -> (r: CompileFailure)
    ensures
        r matches CompileFailure::Ice(sf, d) && sf@ == file@ && (*d).view() == internal_error(msg@),
{
    let d = Diagnostic::error(
        Code::Internal,
        cat2("internal compiler error: ", msg),
    ).primary(Span::empty(0)).help(
        "this is a compiler bug — please report it at https://github.com/Ontixa/ontixa/issues".to_string(),
    );
    CompileFailure::Ice(file, Box::new(d))
}

/// The exit code of diagnostics.
pub open spec fn diags_code(ds: Seq<DiagnosticV>) -> u8 {
    if any_error(ds) {
        1
    } else {
        0
    }
}

/// Renders diagnostics for human mode: the text for stderr, and the
/// exit code.
pub fn emit_human_diags(ds: &Diagnostics, files: &Vec<SourceFile>) -> (r: (String, u8))
    requires
        ds@.len() > 0 ==> files@.len() > 0,
    ensures
        r.0@ == all_rendered_in(ds@, ds@.len() as int, source_files(files@)),
        r.1 == diags_code(ds@),
{
    let v = ds.iter();
    proof {
        assert(diags(v@).len() == v@.len());
    }
    let text = render_all_in(v, files);
    let code: u8 = if ds.has_errors() {
        1
    } else {
        0
    };
    (text, code)
}

/// A text with blanks before it, up to a width.
pub open spec fn right(s: Seq<char>, width: nat) -> Seq<char> {
    if s.len() < width {
        times(" "@, (width - s.len()) as nat) + s
    } else {
        s
    }
}

pub(crate) fn pad_left(s: &str, width: u64) -> (r: String)
    ensures
        r@ == right(s@, width as nat),
{
    let n = s.unicode_len() as u64;
    if n < width {
        let mut out = repeat(" ", width - n);
        out.append(s);
        out
    } else {
        s.to_owned()
    }
}

/// Stage timings for human mode.
pub open spec fn timings_text(ts: Seq<TimingV>, k: int) -> Seq<char>
    decreases k,
{
    if k <= 0 {
        "timings:\n"@
    } else {
        timings_text(ts, k - 1) + "  "@ + right(ts[k - 1].stage, 9) + "  "@ + right(
            dec((ts[k - 1].nanos / 1000) as nat),
            7,
        ) + " µs\n"@
    }
}

/// Stage timings for human mode.
pub fn print_timings(ts: &Vec<StageTiming>) -> (r: String)
    ensures
        r@ == timings_text(timings(ts@), ts@.len() as int),
{
    let ghost all = timings(ts@);
    let mut out = "timings:\n".to_owned();
    let mut i: usize = 0;
    while i < ts.len()
        invariant
            i <= ts@.len(),
            all == timings(ts@),
            out@ == timings_text(all, i as int),
        decreases ts@.len() - i,
    {
        assert(all[i as int] == ts@[i as int]@);
        let stage = pad_left(ts[i].stage, 9);
        let micros = decimal(ts[i].nanos / 1000);
        let padded = pad_left(micros.as_str(), 7);
        out.append("  ");
        out.append(stage.as_str());
        out.append("  ");
        out.append(padded.as_str());
        out.append(" µs\n");
        i += 1;
    }
    out
}

} // verus!
