//! The diagnostic data model and collection.

use crate::code::Code;
use crate::json::{set_member, Json, JsonV, Member, MemberV};
use crate::order::text_before;
use crate::source::{DefId, FileId, Span};
use vstd::prelude::*;

verus! {

/// How bad the finding is. Errors reject the program; warnings allow
/// compilation to continue.
#[derive(Clone, Copy, Debug, PartialEq, Eq, PartialOrd, Ord, Hash, Structural)]
pub enum Severity {
    /// Compilation must not produce a runnable artifact.
    Error,
    /// Something suspicious that is not (yet) an error.
    Warning,
}

/// A secondary source annotation attached to a diagnostic.
#[derive(Debug, PartialEq, Eq)]
pub struct Label {
    /// The source range being annotated.
    pub span: Span,
    /// Short explanation of what this range means.
    pub message: String,
}

/// Model of [`Label`].
#[verifier::ext_equal]
pub struct LabelV {
    pub span: Span,
    pub message: Seq<char>,
}

impl Label {
    /// The model of this label.
    pub open spec fn view(&self) -> LabelV {
        LabelV { span: self.span, message: self.message@ }
    }
}

/// A structured compiler diagnostic.
///
/// `details` is the escape hatch for machine consumers: stable keys with
/// JSON values (typically span objects `{start, end}` or short strings).
#[derive(Debug, PartialEq, Eq)]
pub struct Diagnostic {
    /// Stable code, e.g. `Code::UseAfterMove`.
    pub code: Code,
    /// Error or warning.
    pub severity: Severity,
    /// One-sentence description of what went wrong.
    pub message: String,
    /// Primary source range. `None` only for diagnostics with no
    /// meaningful location (e.g. missing `main`).
    pub primary: Option<Span>,
    /// Secondary labeled ranges, e.g. "moved here".
    pub labels: Vec<Label>,
    /// Extra context lines ("why"), rendered as `= note:` entries.
    pub notes: Vec<String>,
    /// Actionable suggestions, rendered as `= help:` entries.
    pub help: Vec<String>,
    /// Name of the semantic subject (symbol) when one exists, so machine
    /// consumers can join diagnostics with the semantic graph.
    pub subject: Option<String>,
    /// Structured extras (stable keys), e.g. `moved_at`, `reason`.
    pub details: Vec<Member>,
    /// The definition this diagnostic's spans are relative to:
    /// `Some(d)` means `primary`/`labels`/span-shaped `details` are
    /// in `d`'s item-local coordinates; `None` means file-absolute.
    pub origin: Option<DefId>,
    /// The source file this diagnostic's spans index into. `None`
    /// means "the operation's root file".
    pub file: Option<FileId>,
}

/// Model of [`Diagnostic`].
#[verifier::ext_equal]
pub struct DiagnosticV {
    pub code: Code,
    pub severity: Severity,
    pub message: Seq<char>,
    pub primary: Option<Span>,
    pub labels: Seq<LabelV>,
    pub notes: Seq<Seq<char>>,
    pub help: Seq<Seq<char>>,
    pub subject: Option<Seq<char>>,
    pub details: Seq<MemberV>,
    pub origin: Option<DefId>,
    pub file: Option<FileId>,
}

/// The models of a sequence of labels.
pub open spec fn labels(v: Seq<Label>) -> Seq<LabelV> {
    Seq::new(v.len(), |i: int| v[i]@)
}

/// The models of a sequence of diagnostics.
pub open spec fn diags(v: Seq<Diagnostic>) -> Seq<DiagnosticV> {
    Seq::new(v.len(), |i: int| v[i]@)
}

/// A fresh error with nothing but a code and a message.
pub open spec fn error_of(code: Code, message: Seq<char>) -> DiagnosticV {
    DiagnosticV {
        code,
        severity: Severity::Error,
        message,
        primary: None,
        labels: Seq::empty(),
        notes: Seq::empty(),
        help: Seq::empty(),
        subject: None,
        details: Seq::empty(),
        origin: None,
        file: None,
    }
}

/// The JSON object `{"start": .., "end": ..}` of a span.
pub open spec fn span_members(start: u64, end: u64) -> Seq<MemberV> {
    seq![
        MemberV { key: "start"@, value: JsonV::Uint(start) },
        MemberV { key: "end"@, value: JsonV::Uint(end) },
    ]
}

impl DiagnosticV {
    /// With the primary span set.
    pub open spec fn with_primary(self, span: Span) -> DiagnosticV {
        DiagnosticV { primary: Some(span), ..self }
    }

    /// With one more label.
    pub open spec fn with_label(self, span: Span, message: Seq<char>) -> DiagnosticV {
        DiagnosticV { labels: self.labels.push(LabelV { span, message }), ..self }
    }

    /// With one more help line.
    pub open spec fn with_help(self, text: Seq<char>) -> DiagnosticV {
        DiagnosticV { help: self.help.push(text), ..self }
    }

    /// With one more note line.
    pub open spec fn with_note(self, text: Seq<char>) -> DiagnosticV {
        DiagnosticV { notes: self.notes.push(text), ..self }
    }

    /// With the subject set.
    pub open spec fn with_subject(self, name: Seq<char>) -> DiagnosticV {
        DiagnosticV { subject: Some(name), ..self }
    }

    /// With one structured detail set.
    pub open spec fn with_detail(self, key: Seq<char>, value: JsonV) -> DiagnosticV {
        DiagnosticV { details: crate::json::with_member(self.details, key, value), ..self }
    }
}

/// `a + b`, clamped to the largest value.
pub open spec fn offset_plus(a: u64, b: u32) -> u64 {
    if a + b > u64::MAX {
        u64::MAX
    } else {
        (a + b) as u64
    }
}

/// A detail value shifted by `base`: an object with integer `start`
/// and `end` moves both, anything else stays.
pub open spec fn shift_detail(v: JsonV, base: u32) -> JsonV {
    match v {
        JsonV::Object(ms) => match (
            crate::json::member(ms, "start"@),
            crate::json::member(ms, "end"@),
        ) {
            (Some(JsonV::Uint(s)), Some(JsonV::Uint(e))) => JsonV::Object(
                crate::json::with_member(
                    crate::json::with_member(ms, "start"@, JsonV::Uint(offset_plus(s, base))),
                    "end"@,
                    JsonV::Uint(offset_plus(e, base)),
                ),
            ),
            _ => v,
        },
        _ => v,
    }
}

/// `d` with every span shifted right by `base` and its origin cleared.
pub open spec fn rebased_of(d: DiagnosticV, base: u32) -> DiagnosticV {
    DiagnosticV {
        primary: match d.primary {
            Some(s) => Some(crate::source::span_abs(s, base)),
            None => None,
        },
        labels: Seq::new(
            d.labels.len(),
            |i: int|
                LabelV {
                    span: crate::source::span_abs(d.labels[i].span, base),
                    message: d.labels[i].message,
                },
        ),
        details: Seq::new(
            d.details.len(),
            |i: int|
                MemberV { key: d.details[i].key, value: shift_detail(d.details[i].value, base) },
        ),
        origin: None,
        ..d
    }
}

/// Copies a vector of strings.
pub fn copy_texts(v: &Vec<String>) -> (r: Vec<String>)
    ensures
        crate::text::texts(r@) == crate::text::texts(v@),
{
    let mut out: Vec<String> = Vec::new();
    let mut i: usize = 0;
    while i < v.len()
        invariant
            i <= v@.len(),
            out@.len() == i,
            forall|j: int| 0 <= j < i ==> (#[trigger] out@[j])@ == v@[j]@,
        decreases v@.len() - i,
    {
        out.push(v[i].clone());
        i += 1;
    }
    proof {
        assert(crate::text::texts(out@) =~= crate::text::texts(v@));
    }
    out
}

/// A detail value shifted by `base`.
fn shift_json(v: &Json, base: u32) -> (r: Json)
    ensures
        r@ == shift_detail(v@, base),
{
    match v {
        Json::Object(ms) => {
            proof {
                assert(v@->Object_0 =~= crate::json::members(ms@));
            }
            match (crate::json::find_member(ms, "start"), crate::json::find_member(ms, "end")) {
                (Some(Json::Uint(s)), Some(Json::Uint(e))) => {
                    let s2: u64 = s.saturating_add(base as u64);
                    let e2: u64 = e.saturating_add(base as u64);
                    let c = v.copy();
                    match c {
                        Json::Object(mut out) => {
                            proof {
                                assert(c@->Object_0 =~= crate::json::members(out@));
                            }
                            set_member(&mut out, "start", Json::Uint(s2));
                            set_member(&mut out, "end", Json::Uint(e2));
                            let r = Json::Object(out);
                            proof {
                                assert(r@->Object_0 =~= crate::json::members(out@));
                            }
                            r
                        },
                        other => other,
                    }
                },
                _ => v.copy(),
            }
        },
        _ => v.copy(),
    }
}

impl Diagnostic {
    /// The model of this diagnostic.
    pub open spec fn view(&self) -> DiagnosticV {
        DiagnosticV {
            code: self.code,
            severity: self.severity,
            message: self.message@,
            primary: self.primary,
            labels: labels(self.labels@),
            notes: crate::text::texts(self.notes@),
            help: crate::text::texts(self.help@),
            subject: crate::text::opt_text(self.subject),
            details: crate::json::members(self.details@),
            origin: self.origin,
            file: self.file,
        }
    }

    /// Starts building an error diagnostic.
    pub fn error(code: Code, message: String) -> (r: Diagnostic)
        ensures
            r@ == error_of(code, message@),
    {
        let r = Diagnostic {
            code,
            severity: Severity::Error,
            message,
            primary: None,
            labels: Vec::new(),
            notes: Vec::new(),
            help: Vec::new(),
            subject: None,
            details: Vec::new(),
            origin: None,
            file: None,
        };
        proof {
            assert(r@ =~~= error_of(code, message@));
        }
        r
    }

    /// Starts building a warning diagnostic.
    pub fn warning(code: Code, message: String) -> (r: Diagnostic)
        ensures
            r@ == (DiagnosticV { severity: Severity::Warning, ..error_of(code, message@) }),
    {
        let mut d = Diagnostic::error(code, message);
        d.severity = Severity::Warning;
        d
    }

    /// Sets the primary span.
    pub fn primary(self, span: Span) -> (r: Diagnostic)
        ensures
            r@ == self@.with_primary(span),
    {
        let mut d = self;
        d.primary = Some(span);
        d
    }

    /// Adds a secondary labeled span.
    pub fn label(self, span: Span, message: String) -> (r: Diagnostic)
        ensures
            r@ == self@.with_label(span, message@),
    {
        let mut d = self;
        d.labels.push(Label { span, message });
        proof {
            assert(d@.labels =~= self@.with_label(span, message@).labels);
        }
        d
    }

    /// Adds a note line.
    pub fn note(self, note: String) -> (r: Diagnostic)
        ensures
            r@ == self@.with_note(note@),
    {
        let mut d = self;
        d.notes.push(note);
        proof {
            assert(d@.notes =~= self@.with_note(note@).notes);
        }
        d
    }

    /// Adds a help line.
    pub fn help(self, help: String) -> (r: Diagnostic)
        ensures
            r@ == self@.with_help(help@),
    {
        let mut d = self;
        d.help.push(help);
        proof {
            assert(d@.help =~= self@.with_help(help@).help);
        }
        d
    }

    /// Sets the semantic subject symbol name.
    pub fn subject(self, name: String) -> (r: Diagnostic)
        ensures
            r@ == self@.with_subject(name@),
    {
        let mut d = self;
        d.subject = Some(name);
        d
    }

    /// Adds a structured detail key/value.
    pub fn detail(self, key: &str, value: Json) -> (r: Diagnostic)
        ensures
            r@ == self@.with_detail(key@, value@),
    {
        let mut d = self;
        set_member(&mut d.details, key, value);
        d
    }

    /// Adds a structured span detail (`{"start": .., "end": ..}`).
    pub fn detail_span(self, key: &str, span: Span) -> (r: Diagnostic)
        ensures
            r@ == self@.with_detail(
                key@,
                JsonV::Object(span_members(span.start as u64, span.end as u64)),
            ),
    {
        self.detail(key, span_json(span))
    }

    /// A copy of this diagnostic.
    pub fn copy(&self) -> (r: Diagnostic)
        ensures
            r@ == self@,
    {
        let mut ls: Vec<Label> = Vec::new();
        let mut i: usize = 0;
        while i < self.labels.len()
            invariant
                i <= self.labels@.len(),
                ls@.len() == i,
                forall|j: int| 0 <= j < i ==> (#[trigger] ls@[j])@ == self.labels@[j]@,
            decreases self.labels@.len() - i,
        {
            ls.push(Label { span: self.labels[i].span, message: self.labels[i].message.clone() });
            i += 1;
        }
        let mut ds: Vec<Member> = Vec::new();
        let mut k: usize = 0;
        while k < self.details.len()
            invariant
                k <= self.details@.len(),
                ds@.len() == k,
                forall|j: int| 0 <= j < k ==> (#[trigger] ds@[j])@ == self.details@[j]@,
            decreases self.details@.len() - k,
        {
            ds.push(
                Member { key: self.details[k].key.clone(), value: self.details[k].value.copy() },
            );
            k += 1;
        }
        let r = Diagnostic {
            code: self.code,
            severity: self.severity,
            message: self.message.clone(),
            primary: self.primary,
            labels: ls,
            notes: copy_texts(&self.notes),
            help: copy_texts(&self.help),
            subject: self.subject.clone(),
            details: ds,
            origin: self.origin,
            file: self.file,
        };
        proof {
            assert(r@.labels =~= self@.labels);
            assert(r@.details =~= self@.details);
            assert(r@.subject == self@.subject);
        }
        r
    }

    /// A copy with every span shifted right by `base` — rebasing
    /// item-relative coordinates back to file-absolute. The result's
    /// `origin` is cleared: an absolute diagnostic has no home item.
    pub fn rebased(&self, base: u32) -> (r: Diagnostic)
        ensures
            r@ == rebased_of(self@, base),
    {
        let mut ls: Vec<Label> = Vec::new();
        let mut i: usize = 0;
        while i < self.labels.len()
            invariant
                i <= self.labels@.len(),
                ls@.len() == i,
                forall|j: int|
                    0 <= j < i ==> (#[trigger] ls@[j])@ == (LabelV {
                        span: crate::source::span_abs(self.labels@[j].span, base),
                        message: self.labels@[j].message@,
                    }),
            decreases self.labels@.len() - i,
        {
            ls.push(
                Label {
                    span: self.labels[i].span.abs(base),
                    message: self.labels[i].message.clone(),
                },
            );
            i += 1;
        }
        let mut ds: Vec<Member> = Vec::new();
        let mut k: usize = 0;
        while k < self.details.len()
            invariant
                k <= self.details@.len(),
                ds@.len() == k,
                forall|j: int|
                    0 <= j < k ==> (#[trigger] ds@[j])@ == (MemberV {
                        key: self.details@[j].key@,
                        value: shift_detail(self.details@[j].value@, base),
                    }),
            decreases self.details@.len() - k,
        {
            ds.push(
                Member {
                    key: self.details[k].key.clone(),
                    value: shift_json(&self.details[k].value, base),
                },
            );
            k += 1;
        }
        let r = Diagnostic {
            code: self.code,
            severity: self.severity,
            message: self.message.clone(),
            primary: match self.primary {
                Some(s) => Some(s.abs(base)),
                None => None,
            },
            labels: ls,
            notes: copy_texts(&self.notes),
            help: copy_texts(&self.help),
            subject: self.subject.clone(),
            details: ds,
            origin: None,
            file: self.file,
        };
        proof {
            assert(r@.labels =~= rebased_of(self@, base).labels);
            assert(r@.details =~= rebased_of(self@, base).details);
            assert(r@.subject == self@.subject);
        }
        r
    }
}

/// The JSON object `{"start": .., "end": ..}` of a span.
pub fn span_json(span: Span) -> (r: Json)
    ensures
        r@ == JsonV::Object(span_members(span.start as u64, span.end as u64)),
{
    let mut ms: Vec<Member> = Vec::new();
    ms.push(Member { key: "start".to_owned(), value: Json::Uint(span.start as u64) });
    ms.push(Member { key: "end".to_owned(), value: Json::Uint(span.end as u64) });
    let r = Json::Object(ms);
    proof {
        assert(ms@[0].value@ == JsonV::Uint(span.start as u64));
        assert(ms@[1].value@ == JsonV::Uint(span.end as u64));
        assert(ms@[0]@ == span_members(span.start as u64, span.end as u64)[0]);
        assert(ms@[1]@ == span_members(span.start as u64, span.end as u64)[1]);
        assert(r@->Object_0 =~= span_members(span.start as u64, span.end as u64));
    }
    r
}

/// A diagnostic's place in the deterministic output order: its file
/// (the root when untagged), then its primary span (last when it has
/// none).
pub open spec fn diag_pos(d: DiagnosticV) -> (int, int, int) {
    (
        match d.file {
            Some(f) => f.raw as int,
            None => 0,
        },
        match d.primary {
            Some(s) => s.start as int,
            None => u32::MAX as int,
        },
        match d.primary {
            Some(s) => s.end as int,
            None => u32::MAX as int,
        },
    )
}

/// Whether `a` may stand before `b`: by file, then primary span, then
/// code.
pub open spec fn diag_le(a: DiagnosticV, b: DiagnosticV) -> bool {
    let (fa, sa, ea) = diag_pos(a);
    let (fb, sb, eb) = diag_pos(b);
    if fa != fb {
        fa < fb
    } else if sa != sb {
        sa < sb
    } else if ea != eb {
        ea < eb
    } else {
        crate::order::text_le(crate::code::code_text(a.code), crate::code::code_text(b.code))
    }
}

/// [`diag_le`] as a function value.
pub open spec fn diag_order() -> spec_fn(DiagnosticV, DiagnosticV) -> bool {
    |a: DiagnosticV, b: DiagnosticV| diag_le(a, b)
}

/// The output order compares any two diagnostics and is transitive.
pub proof fn lemma_diag_order()
    ensures
        crate::order::total_preorder(diag_order()),
{
    let le = diag_order();
    assert forall|a: DiagnosticV, b: DiagnosticV| #[trigger] le(a, b) || le(b, a) by {
        crate::order::lemma_text_le_total(
            crate::code::code_text(a.code),
            crate::code::code_text(b.code),
        );
    }
    assert forall|a: DiagnosticV, b: DiagnosticV, c: DiagnosticV| #[trigger]
        le(a, b) && #[trigger] le(b, c) implies le(a, c) by {
        let (x, y, z) = (
            crate::code::code_text(a.code),
            crate::code::code_text(b.code),
            crate::code::code_text(c.code),
        );
        if crate::order::text_le(x, y) && crate::order::text_le(y, z) {
            crate::order::lemma_text_le_transitive(x, y, z);
        }
    }
}

/// Sorted diagnostics are in output order and are the same
/// diagnostics.
pub proof fn law_diagnostics_sorted(ds: Seq<DiagnosticV>)
    ensures
        crate::order::ordered(crate::order::sorted(ds, diag_order()), diag_order()),
        crate::order::sorted(ds, diag_order()).to_multiset() == ds.to_multiset(),
{
    lemma_diag_order();
    crate::order::law_sorted(ds, diag_order());
}

/// Diagnostics that stand level in output order keep the order they were
/// reported in.
pub proof fn law_diagnostics_stable(ds: Seq<DiagnosticV>, d: DiagnosticV)
    ensures
        crate::order::level_with(crate::order::sorted(ds, diag_order()), d, diag_order())
            == crate::order::level_with(ds, d, diag_order()),
{
    lemma_diag_order();
    crate::order::law_sorted_stable(ds, d, diag_order());
}

/// A rebased diagnostic can never be rebased twice: its origin is
/// gone, so a second collection leaves it alone.
pub proof fn law_rebased_untagged(d: DiagnosticV, base: u32)
    ensures
        rebased_of(d, base).origin is None,
        rebased_of(d, base).code == d.code,
        rebased_of(d, base).message == d.message,
        rebased_of(d, base).file == d.file,
{
}

/// Whether `a` may stand before `b` in output order.
fn diag_before(a: &Diagnostic, b: &Diagnostic) -> (r: bool)
    ensures
        r == diag_le(a@, b@),
{
    let fa: usize = match a.file {
        Some(f) => f.raw,
        None => 0,
    };
    let fb: usize = match b.file {
        Some(f) => f.raw,
        None => 0,
    };
    if fa != fb {
        return fa < fb;
    }
    let (sa, ea): (u32, u32) = match a.primary {
        Some(s) => (s.start, s.end),
        None => (u32::MAX, u32::MAX),
    };
    let (sb, eb): (u32, u32) = match b.primary {
        Some(s) => (s.start, s.end),
        None => (u32::MAX, u32::MAX),
    };
    if sa != sb {
        return sa < sb;
    }
    if ea != eb {
        return ea < eb;
    }
    text_before(a.code.as_str(), b.code.as_str())
}

/// An ordered collection of diagnostics with convenience queries.
#[derive(Debug)]
pub struct Diagnostics {
    items: Vec<Diagnostic>,
    current_file: Option<FileId>,
}

/// `d` stamped with `file` unless it carries a file already.
pub open spec fn stamped(d: DiagnosticV, file: Option<FileId>) -> DiagnosticV {
    if d.file is None {
        DiagnosticV { file, ..d }
    } else {
        d
    }
}

/// The number of error-severity diagnostics.
pub open spec fn errors_in(ds: Seq<DiagnosticV>) -> nat
    decreases ds.len(),
{
    if ds.len() == 0 {
        0
    } else {
        errors_in(ds.drop_last()) + if ds.last().severity == Severity::Error {
            1nat
        } else {
            0nat
        }
    }
}

/// Whether any diagnostic has error severity.
pub open spec fn any_error(ds: Seq<DiagnosticV>) -> bool {
    exists|i: int| 0 <= i < ds.len() && (#[trigger] ds[i]).severity == Severity::Error
}

impl Diagnostics {
    /// The stored diagnostics, in order.
    pub closed spec fn view(&self) -> Seq<DiagnosticV> {
        diags(self.items@)
    }

    /// The file stamped onto pushed diagnostics.
    pub closed spec fn stamp(&self) -> Option<FileId> {
        self.current_file
    }

    /// Creates an empty collection.
    pub fn new() -> (r: Diagnostics)
        ensures
            r@ == Seq::<DiagnosticV>::empty(),
            r.stamp() is None,
    {
        let r = Diagnostics { items: Vec::new(), current_file: None };
        proof {
            assert(r@ =~= Seq::<DiagnosticV>::empty());
        }
        r
    }

    /// The same diagnostics once more.
    pub fn copy(&self) -> (r: Diagnostics)
        ensures
            r@ == self@,
            r.stamp() == self.stamp(),
    {
        let mut items: Vec<Diagnostic> = Vec::new();
        let mut i: usize = 0;
        while i < self.items.len()
            invariant
                i <= self.items@.len(),
                diags(items@) == diags(self.items@).take(i as int),
            decreases self.items@.len() - i,
        {
            let ghost before = diags(items@);
            items.push(self.items[i].copy());
            proof {
                let all = diags(self.items@);
                assert(diags(items@) =~= before.push(self.items@[i as int]@));
                assert(all.take(i + 1) =~= all.take(i as int).push(self.items@[i as int]@));
            }
            i += 1;
        }
        proof {
            let all = diags(self.items@);
            assert(all.take(all.len() as int) =~= all);
        }
        Diagnostics { items, current_file: self.current_file }
    }

    /// Appends one diagnostic. If [`Self::set_file`] established a
    /// current file and the diagnostic doesn't already carry one, it
    /// is stamped with it.
    pub fn push(&mut self, d: Diagnostic)
        ensures
            final(self)@ == old(self)@.push(stamped(d@, old(self).stamp())),
            final(self).stamp() == old(self).stamp(),
    {
        let mut x = d;
        if x.file.is_none() {
            x.file = self.current_file;
        }
        self.items.push(x);
        proof {
            assert(self@ =~= old(self)@.push(stamped(d@, old(self).stamp())));
        }
    }

    /// Sets the file stamped onto subsequently pushed diagnostics.
    /// Workspace-level passes call this once per file so each
    /// diagnostic knows which source text its spans index into.
    /// `None` restores unstamped pushing.
    pub fn set_file(&mut self, file: Option<FileId>)
        ensures
            final(self)@ == old(self)@,
            final(self).stamp() == file,
    {
        self.current_file = file;
    }

    /// Tags `file` on diagnostics pushed at or after `mark` that
    /// don't already carry one — the post-hoc form of `set_file`,
    /// for collectors stamping a whole stage's output.
    pub fn tag_file_from(&mut self, mark: usize, file: FileId)
        requires
            mark <= old(self)@.len(),
        ensures
            final(self).stamp() == old(self).stamp(),
            final(self)@ == Seq::new(
                old(self)@.len(),
                |i: int|
                    if i < mark {
                        old(self)@[i]
                    } else {
                        stamped(old(self)@[i], Some(file))
                    },
            ),
    {
        let ghost before = self@;
        let mut i: usize = mark;
        while i < self.items.len()
            invariant
                mark <= i <= self.items@.len(),
                self.items@.len() == before.len(),
                self.current_file == old(self).current_file,
                forall|j: int|
                    0 <= j < before.len() ==> (#[trigger] self.items@[j])@ == if mark <= j < i {
                        stamped(before[j], Some(file))
                    } else {
                        before[j]
                    },
            decreases self.items@.len() - i,
        {
            if self.items[i].file.is_none() {
                self.items[i].file = Some(file);
            }
            i += 1;
        }
        proof {
            assert(self@ =~= Seq::new(
                before.len(),
                |i: int|
                    if i < mark {
                        before[i]
                    } else {
                        stamped(before[i], Some(file))
                    },
            ));
        }
    }

    /// Whether any diagnostic has error severity.
    pub fn has_errors(&self) -> (r: bool)
        ensures
            r == any_error(self@),
    {
        let mut i: usize = 0;
        while i < self.items.len()
            invariant
                i <= self.items@.len(),
                self@ == diags(self.items@),
                forall|j: int| 0 <= j < i ==> (#[trigger] self@[j]).severity != Severity::Error,
            decreases self.items@.len() - i,
        {
            if self.items[i].severity == Severity::Error {
                proof {
                    assert(self@[i as int].severity == Severity::Error);
                }
                return true;
            }
            i += 1;
        }
        false
    }

    /// Number of error-severity diagnostics.
    pub fn error_count(&self) -> (r: usize)
        ensures
            r == errors_in(self@),
    {
        let mut n: usize = 0;
        let mut i: usize = 0;
        proof {
            assert(self@.take(0) =~= Seq::empty());
        }
        while i < self.items.len()
            invariant
                i <= self.items@.len(),
                n <= i,
                self@ == diags(self.items@),
                n == errors_in(self@.take(i as int)),
            decreases self.items@.len() - i,
        {
            proof {
                assert(self@.take(i + 1).drop_last() =~= self@.take(i as int));
                assert(self@.take(i + 1).last() == self.items@[i as int]@);
            }
            if self.items[i].severity == Severity::Error {
                n += 1;
            }
            i += 1;
        }
        proof {
            assert(self@.take(self@.len() as int) =~= self@);
        }
        n
    }

    /// Number of diagnostics total.
    pub fn len(&self) -> (r: usize)
        ensures
            r == self@.len(),
    {
        self.items.len()
    }

    /// Whether the collection is empty.
    pub fn is_empty(&self) -> (r: bool)
        ensures
            r == (self@.len() == 0),
    {
        self.items.len() == 0
    }

    /// Sorts deterministically by file, then primary span, then code.
    /// Call before rendering when diagnostics were gathered by
    /// multiple passes.
    pub fn sort(&mut self)
        ensures
            final(self)@ == crate::order::sorted(old(self)@, diag_order()),
            final(self).stamp() == old(self).stamp(),
    {
        let ghost all = self@;
        let mut todo: Vec<Diagnostic> = Vec::new();
        std::mem::swap(&mut todo, &mut self.items);
        let mut out: Vec<Diagnostic> = Vec::new();
        let mut i: usize = 0;
        let n: usize = todo.len();
        proof {
            assert(diags(todo@) =~= all);
            assert(all.take(0) =~= Seq::empty());
            assert(diags(out@) =~= Seq::empty());
        }
        while i < n
            invariant
                i <= n,
                n == all.len(),
                diags(todo@) == all.skip(i as int),
                diags(out@) == crate::order::sorted(all.take(i as int), diag_order()),
                self.current_file == old(self).current_file,
            decreases n - i,
        {
            let ghost t0 = todo@;
            proof {
                assert(t0.len() == diags(t0).len());
                assert(diags(t0)[0] == all[i as int]);
            }
            let d = todo.remove(0);
            proof {
                assert forall|j: int| 0 <= j < todo@.len() implies diags(todo@)[j] == all.skip(
                    i + 1,
                )[j] by {
                    assert(diags(t0)[j + 1] == all.skip(i as int)[j + 1]);
                }
                assert(diags(todo@) =~= all.skip(i + 1));
                assert(all.take(i + 1).drop_last() =~= all.take(i as int));
            }
            insert_diag(&mut out, d);
            i += 1;
        }
        self.items = out;
        proof {
            assert(all.take(n as int) =~= all);
        }
    }

    /// All diagnostics in stored order.
    pub fn iter(&self) -> (r: &Vec<Diagnostic>)
        ensures
            diags(r@) == self@,
    {
        &self.items
    }

    /// Consumes into the underlying vector.
    pub fn into_vec(self) -> (r: Vec<Diagnostic>)
        ensures
            diags(r@) == self@,
    {
        self.items
    }

    /// Appends all diagnostics from `other`.
    pub fn extend(&mut self, other: Diagnostics)
        ensures
            final(self)@ == old(self)@ + other@,
            final(self).stamp() == old(self).stamp(),
    {
        let mut items = other.items;
        self.items.append(&mut items);
        proof {
            assert(self@ =~= old(self)@ + other@);
        }
    }

    /// Tags `origin = def` on diagnostics pushed at or after `mark`
    /// that don't already carry one. Per-definition passes call this
    /// so a collector can rebase item-relative spans to absolute.
    pub fn tag_origin_from(&mut self, mark: usize, def: DefId)
        requires
            mark <= old(self)@.len(),
        ensures
            final(self).stamp() == old(self).stamp(),
            final(self)@ == Seq::new(
                old(self)@.len(),
                |i: int|
                    if i < mark {
                        old(self)@[i]
                    } else {
                        tagged(old(self)@[i], def)
                    },
            ),
    {
        let ghost before = self@;
        let mut i: usize = mark;
        while i < self.items.len()
            invariant
                mark <= i <= self.items@.len(),
                self.items@.len() == before.len(),
                self.current_file == old(self).current_file,
                forall|j: int|
                    0 <= j < before.len() ==> (#[trigger] self.items@[j])@ == if mark <= j < i {
                        tagged(before[j], def)
                    } else {
                        before[j]
                    },
            decreases self.items@.len() - i,
        {
            if self.items[i].origin.is_none() {
                self.items[i].origin = Some(def);
            }
            i += 1;
        }
        proof {
            assert(self@ =~= Seq::new(
                before.len(),
                |i: int|
                    if i < mark {
                        before[i]
                    } else {
                        tagged(before[i], def)
                    },
            ));
        }
    }

    /// Rebases every `origin`-tagged diagnostic to file-absolute via
    /// `base_of` (def → its item's absolute start), clearing tags.
    pub fn rebase_tagged<F: Fn(DefId) -> u32>(&mut self, base_of: F)
        requires
            forall|i: int, d: DefId|
                0 <= i < old(self)@.len() && #[trigger] old(self)@[i].origin == Some(d)
                    ==> #[trigger] call_requires(base_of, (d,)),
        ensures
            final(self).stamp() == old(self).stamp(),
            final(self)@.len() == old(self)@.len(),
            forall|i: int|
                0 <= i < old(self)@.len() ==> #[trigger] rebase_step(
                    base_of,
                    old(self)@[i],
                    final(self)@[i],
                ),
    {
        let ghost before = self@;
        let mut i: usize = 0;
        while i < self.items.len()
            invariant
                i <= self.items@.len(),
                self.items@.len() == before.len(),
                self.current_file == old(self).current_file,
                forall|k: int, d: DefId|
                    0 <= k < before.len() && #[trigger] before[k].origin == Some(d)
                        ==> #[trigger] call_requires(base_of, (d,)),
                forall|j: int|
                    i <= j < before.len() ==> (#[trigger] self.items@[j])@ == before[j],
                forall|j: int|
                    0 <= j < i ==> #[trigger] rebase_step(base_of, before[j], self.items@[j]@),
            decreases self.items@.len() - i,
        {
            if let Some(def) = self.items[i].origin {
                assert(before[i as int].origin == Some(def));
                assert(call_requires(base_of, (def,)));
                let base: u32 = base_of(def);
                let r = self.items[i].rebased(base);
                self.items.set(i, r);
                proof {
                    assert(self.items@[i as int]@ == rebased_of(before[i as int], base));
                }
            }
            i += 1;
        }
        proof {
            assert forall|i: int| 0 <= i < before.len() implies #[trigger] rebase_step(
                base_of,
                before[i],
                self@[i],
            ) by {
                assert(self@[i] == self.items@[i]@);
            }
        }
    }
}

/// Whether `new` is `old` after collection: shifted by the base of its
/// origin and untagged, or unchanged when it had no origin.
pub open spec fn rebase_step<F: Fn(DefId) -> u32>(
    base_of: F,
    old_diag: DiagnosticV,
    new_diag: DiagnosticV,
) -> bool {
    match old_diag.origin {
        None => new_diag == old_diag,
        Some(def) => exists|base: u32|
            call_ensures(base_of, (def,), base) && new_diag == #[trigger] rebased_of(
                old_diag,
                base,
            ),
    }
}

/// `d` tagged with origin `def` unless it carries one already.
pub open spec fn tagged(d: DiagnosticV, def: DefId) -> DiagnosticV {
    if d.origin is None {
        DiagnosticV { origin: Some(def), ..d }
    } else {
        d
    }
}

/// Inserts `d` into an output-ordered run.
fn insert_diag(out: &mut Vec<Diagnostic>, d: Diagnostic)
    ensures
        diags(final(out)@) == crate::order::insert_sorted(diags(old(out)@), d@, diag_order()),
{
    let ghost all = diags(out@);
    let mut j: usize = out.len();
    proof {
        assert(all.take(j as int) =~= all);
        assert(all.skip(j as int) =~= Seq::empty());
        let ins = crate::order::insert_sorted(all, d@, diag_order());
        assert(ins + Seq::<DiagnosticV>::empty() =~= ins);
    }
    while j > 0 && !diag_before(&out[j - 1], &d)
        invariant
            j <= out@.len(),
            all == diags(out@),
            out@ == old(out)@,
            crate::order::insert_sorted(all.take(j as int), d@, diag_order()) + all.skip(j as int)
                == crate::order::insert_sorted(all, d@, diag_order()),
        decreases j,
    {
        proof {
            let t = all.take(j as int);
            assert(t.last() == out@[j - 1]@);
            assert(t.drop_last() =~= all.take(j - 1));
            let ins = crate::order::insert_sorted(t.drop_last(), d@, diag_order());
            assert(ins.push(t.last()) + all.skip(j as int) =~= ins + all.skip(j - 1));
        }
        j -= 1;
    }
    proof {
        let t = all.take(j as int);
        if j > 0 {
            assert(t.last() == out@[j - 1]@);
        }
        assert(crate::order::insert_sorted(t, d@, diag_order()) == t.push(d@));
    }
    out.insert(j, d);
    proof {
        assert(diags(out@) =~= all.take(j as int).push(d@) + all.skip(j as int));
    }
}

} // verus!
