//! Human and JSON rendering of diagnostics.
//!
//! Human output follows the annotated-source convention:
//!
//! ```text
//! error[E_USE_AFTER_MOVE]: value `user` was used after ownership moved
//!   --> examples/use-after-move.ixa:13:12
//!    |
//! 12 |     let moved = identity(user);
//!    |                          ---- moved here
//! 13 |     return user.id;
//!    |            ^^^^ used here
//!    |
//!    = note: ownership escaped through call to `identity`
//! ```
//!
//! JSON output is schema version 1.

use crate::code::code_text;
use crate::diagnostic::{diags, Diagnostic, DiagnosticV, LabelV, Severity};
use crate::json::{
    json_array, json_object, json_str, json_texts, jsons, mem, members, no_items, no_members, put,
    put_item, str_items, Json, JsonV, MemberV,
};
use crate::order::{lemma_sorted_mapped, mapped, sort_by, sorted};
use crate::source::Span;
use crate::source_file::{
    line_col_of, line_of, source_files, LineCol, SourceFile, SourceFileV,
};
use crate::text::{chars_of, dec, decimal, texts};
use vstd::prelude::*;
use vstd::string::*;

verus! {

/// JSON schema version of the diagnostics document.
pub const DIAGNOSTICS_SCHEMA_VERSION: u64 = 1;

// ---------- pieces of text ----------

/// A text `n` times over.
pub open spec fn times(s: Seq<char>, n: nat) -> Seq<char>
    decreases n,
{
    if n == 0 {
        Seq::empty()
    } else {
        times(s, (n - 1) as nat) + s
    }
}

pub(crate) fn repeat(s: &str, n: u64) -> (r: String)
    ensures
        r@ == times(s@, n as nat),
{
    let mut out = String::new();
    let mut i: u64 = 0;
    proof {
        assert(out@ =~= Seq::empty());
    }
    while i < n
        invariant
            i <= n,
            out@ == times(s@, i as nat),
        decreases n - i,
    {
        out.append(s);
        i += 1;
    }
    out
}

/// The severity's word.
pub open spec fn severity_text(s: Severity) -> Seq<char> {
    match s {
        Severity::Error => "error"@,
        Severity::Warning => "warning"@,
    }
}

fn severity_str(s: Severity) -> (r: &'static str)
    ensures
        r@ == severity_text(s),
{
    match s {
        Severity::Error => "error",
        Severity::Warning => "warning",
    }
}

// ---------- annotations ----------

/// A span to underline.
pub struct Note {
    span: Span,
    message: String,
    primary: bool,
}

/// Model of [`Note`].
#[verifier::ext_equal]
pub struct NoteV {
    pub span: Span,
    pub message: Seq<char>,
    pub primary: bool,
}

impl Note {
    /// The model of this note.
    pub closed spec fn view(&self) -> NoteV {
        NoteV { span: self.span, message: self.message@, primary: self.primary }
    }
}

/// The models of a sequence of notes.
pub open spec fn notes_view(v: Seq<Note>) -> Seq<NoteV> {
    Seq::new(v.len(), |i: int| v[i]@)
}

/// In source order, the primary one first.
pub open spec fn note_order() -> spec_fn(NoteV, NoteV) -> bool {
    |a: NoteV, b: NoteV|
        a.span.start < b.span.start || (a.span.start == b.span.start && (a.primary || !b.primary))
}

/// What stands beside the primary mark: the message of the first label,
/// from label `i` on, that has the span of the mark.
pub open spec fn label_on(ls: Seq<LabelV>, span: Span, i: int) -> Seq<char>
    decreases ls.len() - i,
{
    if i >= ls.len() {
        ""@
    } else if ls[i].span == span {
        ls[i].message
    } else {
        label_on(ls, span, i + 1)
    }
}

/// Every span of a diagnostic, the primary one before the labels.
pub open spec fn spans_of(d: DiagnosticV) -> Seq<NoteV> {
    let labels = Seq::new(
        d.labels.len(),
        |i: int|
            NoteV { span: d.labels[i].span, message: d.labels[i].message, primary: false },
    );
    match d.primary {
        Some(p) => seq![NoteV { span: p, message: label_on(d.labels, p, 0), primary: true }]
            + labels,
        None => labels,
    }
}

/// Every span of a diagnostic, in the order it is shown.
pub open spec fn annotated(d: DiagnosticV) -> Seq<NoteV> {
    sorted(spans_of(d), note_order())
}

/// The largest line a note starts on; `1` when there is none.
pub open spec fn max_line(notes: Seq<NoteV>, s: Seq<char>) -> u64
    decreases notes.len(),
{
    if notes.len() == 0 {
        1
    } else {
        let front = max_line(notes.drop_last(), s);
        let line = line_col_of(s, notes.last().span.start).line;
        if line > front {
            line
        } else {
            front
        }
    }
}

/// Blanks as wide as the largest line number.
pub open spec fn gutter_of(notes: Seq<NoteV>, s: Seq<char>) -> Seq<char> {
    times(" "@, dec(max_line(notes, s) as nat).len())
}

/// What stands above the marks: a tab under a tab, else a blank.
pub open spec fn lead_of(text: Seq<char>, n: int) -> Seq<char>
    decreases n,
{
    if n <= 0 {
        Seq::empty()
    } else if n > text.len() {
        lead_of(text, text.len() as int)
    } else {
        lead_of(text, n - 1) + (if text[n - 1] == '\t' {
            "\t"@
        } else {
            " "@
        })
    }
}

/// How many characters of the starting line a span covers; at least one.
pub open spec fn mark_len(text: Seq<char>, start: LineCol, end: LineCol) -> nat {
    if end.line == start.line {
        if end.column >= start.column {
            (end.column - start.column + 1) as nat
        } else {
            1
        }
    } else if text.len() >= start.column {
        (text.len() - start.column + 1) as nat
    } else {
        1
    }
}

/// The last byte of a span.
pub open spec fn last_byte(s: Span) -> u32 {
    let e = if s.end == 0 {
        0
    } else {
        (s.end - 1) as u32
    };
    if e > s.start {
        e
    } else {
        s.start
    }
}

/// The text of a note's line; empty when there is no such line.
pub open spec fn shown_line(s: Seq<char>, line: u64) -> Seq<char> {
    match line_of(s, line as nat) {
        Some(t) => t,
        None => ""@,
    }
}

/// The two lines of a note: its source line, and the marks below.
pub open spec fn note_lines(n: NoteV, s: Seq<char>, gutter: Seq<char>) -> Seq<char> {
    let start = line_col_of(s, n.span.start);
    let end = line_col_of(s, last_byte(n.span));
    let text = shown_line(s, start.line);
    let number = dec(start.line as nat);
    let pad = if gutter.len() >= number.len() {
        (gutter.len() - number.len()) as nat
    } else {
        0
    };
    let mark = if n.primary {
        "^"@
    } else {
        "-"@
    };
    times(" "@, pad) + number + " | "@ + text + "\n"@ + gutter + " | "@ + lead_of(
        text,
        start.column - 1,
    ) + times(mark, mark_len(text, start, end)) + " "@ + n.message + "\n"@
}

/// What the first `k` notes render to, and the line of the last one
/// shown. One note per line keeps the output compact; skipped lines are
/// marked.
pub open spec fn notes_text(notes: Seq<NoteV>, k: int, s: Seq<char>, gutter: Seq<char>) -> (
    Seq<char>,
    Option<u64>,
)
    decreases k,
{
    if k <= 0 {
        (Seq::empty(), None)
    } else {
        let (front, last) = notes_text(notes, k - 1, s, gutter);
        let n = notes[k - 1];
        let line = line_col_of(s, n.span.start).line;
        match last {
            Some(l) => if l == line {
                (front, last)
            } else if line > l + 1 {
                (front + gutter + " ...\n"@ + note_lines(n, s, gutter), Some(line))
            } else {
                (front + note_lines(n, s, gutter), Some(line))
            },
            None => (front + note_lines(n, s, gutter), Some(line)),
        }
    }
}

/// One trailing line per entry.
pub open spec fn trailer(v: Seq<Seq<char>>, k: int, gutter: Seq<char>, word: Seq<char>) -> Seq<
    char,
>
    decreases k,
{
    if k <= 0 {
        Seq::empty()
    } else {
        trailer(v, k - 1, gutter, word) + gutter + word + v[k - 1] + "\n"@
    }
}

/// Where a diagnostic points: its primary span, else the start of the
/// file.
pub open spec fn place_of(d: DiagnosticV) -> u32 {
    match d.primary {
        Some(p) => p.start,
        None => 0,
    }
}

/// A diagnostic as annotated source text.
pub open spec fn rendered(d: DiagnosticV, f: SourceFileV) -> Seq<char> {
    let notes = annotated(d);
    let gutter = gutter_of(notes, f.text);
    let at = line_col_of(f.text, place_of(d));
    severity_text(d.severity) + "["@ + code_text(d.code) + "]: "@ + d.message + "\n  --> "@ + f.name
        + ":"@ + dec(at.line as nat) + ":"@ + dec(at.column as nat) + "\n"@ + gutter + " |\n"@
        + notes_text(notes, notes.len() as int, f.text, gutter).0 + (if notes.len() > 0 {
        gutter + " |\n"@
    } else {
        Seq::empty()
    }) + trailer(d.notes, d.notes.len() as int, gutter, " = note: "@) + trailer(
        d.help,
        d.help.len() as int,
        gutter,
        " = help: "@,
    )
}

fn primary_message(d: &Diagnostic, p: Span) -> (r: String)
    ensures
        r@ == label_on(d@.labels, p, 0),
{
    let ghost all = d@.labels;
    let mut i: usize = 0;
    while i < d.labels.len()
        invariant
            i <= d.labels@.len(),
            all == d@.labels,
            label_on(all, p, 0) == label_on(all, p, i as int),
        decreases d.labels@.len() - i,
    {
        assert(all[i as int] == d.labels@[i as int]@);
        if d.labels[i].span == p {
            return d.labels[i].message.clone();
        }
        i += 1;
    }
    "".to_owned()
}

fn collect_notes(d: &Diagnostic) -> (r: Vec<Note>)
    ensures
        notes_view(r@) == spans_of(d@),
{
    let ghost all = spans_of(d@);
    let mut out: Vec<Note> = Vec::new();
    let ghost skip: int = if d.primary is Some {
        1
    } else {
        0
    };
    if let Some(p) = d.primary {
        let n = Note { span: p, message: primary_message(d, p), primary: true };
        out.push(n);
    }
    let mut i: usize = 0;
    proof {
        assert(notes_view(out@) =~= all.take(skip));
    }
    while i < d.labels.len()
        invariant
            i <= d.labels@.len(),
            all == spans_of(d@),
            skip == (if d.primary is Some {
                1int
            } else {
                0int
            }),
            notes_view(out@) == all.take(skip + i),
        decreases d.labels@.len() - i,
    {
        let ghost before = notes_view(out@);
        let n = Note {
            span: d.labels[i].span,
            message: d.labels[i].message.clone(),
            primary: false,
        };
        let ghost nv = n@;
        out.push(n);
        proof {
            assert(notes_view(out@) =~= before.push(nv));
            assert(d@.labels[i as int] == d.labels@[i as int]@);
            assert(all[skip + i] == nv);
            assert(before.push(nv) =~= all.take(skip + i + 1));
        }
        i += 1;
    }
    proof {
        assert(all.take(all.len() as int) =~= all);
    }
    out
}

fn sort_notes(v: Vec<Note>) -> (r: Vec<Note>)
    ensures
        notes_view(r@) == sorted(notes_view(v@), note_order()),
{
    let ghost f = |n: Note| n@;
    let ghost le = |a: Note, b: Note| note_order()(a@, b@);
    proof {
        lemma_sorted_mapped(v@, f, le, note_order());
        assert(mapped(v@, f) =~= notes_view(v@));
    }
    let before = |a: &Note, b: &Note| -> (r: bool)
        ensures
            r == note_order()(a@, b@),
        {
            a.span.start < b.span.start || (a.span.start == b.span.start && (a.primary
                || !b.primary))
        };
    let r = sort_by(v, before, Ghost(le));
    proof {
        assert(mapped(r@, f) =~= notes_view(r@));
    }
    r
}

fn widest(notes: &Vec<Note>, file: &SourceFile) -> (r: u64)
    ensures
        r == max_line(notes_view(notes@), file@.text),
{
    let ghost all = notes_view(notes@);
    let mut out: u64 = 1;
    let mut i: usize = 0;
    proof {
        assert(all.take(0) =~= Seq::empty());
    }
    while i < notes.len()
        invariant
            i <= notes@.len(),
            all == notes_view(notes@),
            out == max_line(all.take(i as int), file@.text),
        decreases notes@.len() - i,
    {
        proof {
            assert(all.take(i + 1).drop_last() =~= all.take(i as int));
            assert(all.take(i + 1).last() == notes@[i as int]@);
        }
        let line = file.start_line_col(notes[i].span).line;
        if line > out {
            out = line;
        }
        i += 1;
    }
    proof {
        assert(all.take(all.len() as int) =~= all);
    }
    out
}

fn push_lead(out: &mut String, text: &str, n: u64)
    ensures
        final(out)@ == old(out)@ + lead_of(text@, n as int),
{
    let cs = chars_of(text);
    let len: usize = cs.len();
    let stop: usize = if n <= len as u64 {
        n as usize
    } else {
        len
    };
    let ghost start = out@;
    let mut i: usize = 0;
    proof {
        assert(start + lead_of(text@, 0) =~= start);
    }
    while i < stop
        invariant
            i <= stop <= cs@.len(),
            cs@ == text@,
            out@ == start + lead_of(text@, i as int),
        decreases stop - i,
    {
        if cs[i] == '\t' {
            out.append("\t");
        } else {
            out.append(" ");
        }
        i += 1;
        proof {
            assert(out@ =~= start + lead_of(text@, i as int));
        }
    }
}

fn marks(text: &str, start: LineCol, end: LineCol) -> (r: u64)
    requires
        start.column >= 1,
    ensures
        r == mark_len(text@, start, end),
{
    let cs = chars_of(text);
    let n = cs.len() as u64;
    if end.line == start.line {
        if end.column >= start.column {
            (end.column - start.column) + 1
        } else {
            1
        }
    } else if n >= start.column {
        (n - start.column) + 1
    } else {
        1
    }
}

fn push_note(out: &mut String, n: &Note, file: &SourceFile, gutter: &str)
    ensures
        final(out)@ == old(out)@ + note_lines(n@, file@.text, gutter@),
{
    let start = file.start_line_col(n.span);
    let e: u32 = if n.span.end == 0 {
        0
    } else {
        n.span.end - 1
    };
    let last: u32 = if e > n.span.start {
        e
    } else {
        n.span.start
    };
    let end = file.line_col(last);
    let text = match file.line_text(start.line) {
        Some(t) => t,
        None => "".to_owned(),
    };
    let number = decimal(start.line);
    let a: usize = gutter.unicode_len();
    let b: usize = number.as_str().unicode_len();
    let pad: u64 = if a >= b {
        (a - b) as u64
    } else {
        0
    };
    let mut s = repeat(" ", pad);
    s.append(number.as_str());
    s.append(" | ");
    s.append(text.as_str());
    s.append("\n");
    s.append(gutter);
    s.append(" | ");
    push_lead(&mut s, text.as_str(), start.column - 1);
    let mark = if n.primary {
        "^"
    } else {
        "-"
    };
    let under = repeat(mark, marks(text.as_str(), start, end));
    s.append(under.as_str());
    s.append(" ");
    s.append(n.message.as_str());
    s.append("\n");
    assert(s@ == note_lines(n@, file@.text, gutter@));
    out.append(s.as_str());
}

fn push_notes(out: &mut String, notes: &Vec<Note>, file: &SourceFile, gutter: &str)
    ensures
        final(out)@ == old(out)@ + notes_text(
            notes_view(notes@),
            notes@.len() as int,
            file@.text,
            gutter@,
        ).0,
{
    let ghost start = out@;
    let ghost all = notes_view(notes@);
    let mut last: Option<u64> = None;
    let mut i: usize = 0;
    proof {
        assert(start + Seq::<char>::empty() =~= start);
    }
    while i < notes.len()
        invariant
            i <= notes@.len(),
            all == notes_view(notes@),
            out@ == start + notes_text(all, i as int, file@.text, gutter@).0,
            last == notes_text(all, i as int, file@.text, gutter@).1,
        decreases notes@.len() - i,
    {
        let ghost front = notes_text(all, i as int, file@.text, gutter@).0;
        let ghost lines = note_lines(all[i as int], file@.text, gutter@);
        assert(all[i as int] == notes@[i as int]@);
        let line = file.start_line_col(notes[i].span).line;
        let skip = match last {
            Some(l) => l == line,
            None => false,
        };
        if !skip {
            let gap = match last {
                Some(l) => line > l && line - l > 1,
                None => false,
            };
            if gap {
                out.append(gutter);
                out.append(" ...\n");
                push_note(out, &notes[i], file, gutter);
                proof {
                    assert(out@ =~= start + (front + gutter@ + " ...\n"@ + lines));
                }
            } else {
                push_note(out, &notes[i], file, gutter);
                proof {
                    assert(out@ =~= start + (front + lines));
                }
            }
            last = Some(line);
        }
        i += 1;
    }
}

fn push_trailer(out: &mut String, v: &Vec<String>, gutter: &str, word: &str)
    ensures
        final(out)@ == old(out)@ + trailer(texts(v@), v@.len() as int, gutter@, word@),
{
    let ghost start = out@;
    let ghost all = texts(v@);
    let mut i: usize = 0;
    proof {
        assert(start + Seq::<char>::empty() =~= start);
    }
    while i < v.len()
        invariant
            i <= v@.len(),
            all == texts(v@),
            out@ == start + trailer(all, i as int, gutter@, word@),
        decreases v@.len() - i,
    {
        let ghost front = trailer(all, i as int, gutter@, word@);
        out.append(gutter);
        out.append(word);
        out.append(v[i].as_str());
        out.append("\n");
        proof {
            assert(all[i as int] == v@[i as int]@);
            assert(out@ =~= start + (front + gutter@ + word@ + all[i as int] + "\n"@));
        }
        i += 1;
    }
}

/// Renders one diagnostic as annotated source text.
pub fn render(d: &Diagnostic, file: &SourceFile) -> (r: String)
    ensures
        r@ == rendered(d@, file@),
{
    let notes = sort_notes(collect_notes(d));
    let number = decimal(widest(&notes, file));
    let gutter = repeat(" ", number.as_str().unicode_len() as u64);
    let at = match d.primary {
        Some(p) => file.start_line_col(p),
        None => file.line_col(0),
    };
    let line = decimal(at.line);
    let column = decimal(at.column);
    let mut out = severity_str(d.severity).to_owned();
    out.append("[");
    out.append(d.code.as_str());
    out.append("]: ");
    out.append(d.message.as_str());
    out.append("\n  --> ");
    out.append(file.name.as_str());
    out.append(":");
    out.append(line.as_str());
    out.append(":");
    out.append(column.as_str());
    out.append("\n");
    out.append(gutter.as_str());
    out.append(" |\n");
    push_notes(&mut out, &notes, file, gutter.as_str());
    proof {
        assert(notes_view(notes@).len() == notes@.len());
    }
    let ghost body = out@;
    if notes.len() > 0 {
        out.append(gutter.as_str());
        out.append(" |\n");
        proof {
            assert(out@ =~= body + (gutter@ + " |\n"@));
        }
    } else {
        proof {
            assert(body + Seq::<char>::empty() =~= body);
        }
    }
    push_trailer(&mut out, &d.notes, gutter.as_str(), " = note: ");
    push_trailer(&mut out, &d.help, gutter.as_str(), " = help: ");
    out
}

/// The file a diagnostic's spans index into: the one its tag names, else
/// the operation's root file.
pub open spec fn file_for(d: DiagnosticV, files: Seq<SourceFileV>) -> SourceFileV {
    match d.file {
        Some(f) => if f.raw < files.len() {
            files[f.raw as int]
        } else {
            files[0]
        },
        None => files[0],
    }
}

fn pick<'a>(d: &Diagnostic, files: &'a Vec<SourceFile>) -> (r: &'a SourceFile)
    requires
        files@.len() > 0,
    ensures
        r@ == file_for(d@, source_files(files@)),
{
    match d.file {
        Some(f) => if f.raw < files.len() {
            &files[f.raw]
        } else {
            &files[0]
        },
        None => &files[0],
    }
}

/// Renders one diagnostic against the file its tag names.
pub fn render_in(d: &Diagnostic, files: &Vec<SourceFile>) -> (r: String)
    requires
        files@.len() > 0,
    ensures
        r@ == rendered(d@, file_for(d@, source_files(files@))),
{
    render(d, pick(d, files))
}

/// Diagnostics rendered against one file, blank lines between them.
pub open spec fn all_rendered(ds: Seq<DiagnosticV>, k: int, f: SourceFileV) -> Seq<char>
    decreases k,
{
    if k <= 0 {
        Seq::empty()
    } else if k == 1 {
        rendered(ds[0], f)
    } else {
        all_rendered(ds, k - 1, f) + "\n"@ + rendered(ds[k - 1], f)
    }
}

/// Renders all diagnostics joined by blank lines.
pub fn render_all(ds: &Vec<Diagnostic>, file: &SourceFile) -> (r: String)
    ensures
        r@ == all_rendered(diags(ds@), ds@.len() as int, file@),
{
    let ghost all = diags(ds@);
    let mut out = String::new();
    let mut i: usize = 0;
    proof {
        assert(out@ =~= Seq::empty());
    }
    while i < ds.len()
        invariant
            i <= ds@.len(),
            all == diags(ds@),
            out@ == all_rendered(all, i as int, file@),
        decreases ds@.len() - i,
    {
        assert(all[i as int] == ds@[i as int]@);
        if i > 0 {
            out.append("\n");
        }
        let one = render(&ds[i], file);
        out.append(one.as_str());
        proof {
            if i == 0 {
                assert(out@ =~= one@);
            }
        }
        i += 1;
    }
    out
}

/// Diagnostics rendered against the files their tags name, blank lines
/// between them.
pub open spec fn all_rendered_in(ds: Seq<DiagnosticV>, k: int, files: Seq<SourceFileV>) -> Seq<
    char,
>
    decreases k,
{
    if k <= 0 {
        Seq::empty()
    } else if k == 1 {
        rendered(ds[0], file_for(ds[0], files))
    } else {
        all_rendered_in(ds, k - 1, files) + "\n"@ + rendered(
            ds[k - 1],
            file_for(ds[k - 1], files),
        )
    }
}

/// Renders all diagnostics, each against the file its tag names.
pub fn render_all_in(ds: &Vec<Diagnostic>, files: &Vec<SourceFile>) -> (r: String)
    requires
        ds@.len() > 0 ==> files@.len() > 0,
    ensures
        r@ == all_rendered_in(diags(ds@), ds@.len() as int, source_files(files@)),
{
    let ghost all = diags(ds@);
    let ghost fs = source_files(files@);
    let mut out = String::new();
    let mut i: usize = 0;
    proof {
        assert(out@ =~= Seq::empty());
    }
    while i < ds.len()
        invariant
            i <= ds@.len(),
            ds@.len() > 0 ==> files@.len() > 0,
            all == diags(ds@),
            fs == source_files(files@),
            out@ == all_rendered_in(all, i as int, fs),
        decreases ds@.len() - i,
    {
        assert(all[i as int] == ds@[i as int]@);
        if i > 0 {
            out.append("\n");
        }
        let one = render_in(&ds[i], files);
        out.append(one.as_str());
        proof {
            if i == 0 {
                assert(out@ =~= one@);
            }
        }
        i += 1;
    }
    out
}

// ---------- JSON ----------

/// The members of a span.
pub open spec fn span_mems(s: Span) -> Seq<MemberV> {
    seq![mem("start"@, JsonV::Uint(s.start as u64)), mem("end"@, JsonV::Uint(s.end as u64))]
}

/// A label as JSON.
pub open spec fn label_json(span: Span, message: Seq<char>) -> JsonV {
    JsonV::Object(span_mems(span).push(mem("message"@, JsonV::Str(message))))
}

/// The primary span as JSON, with the name of its file.
pub open spec fn primary_json(d: DiagnosticV, f: SourceFileV) -> JsonV {
    match d.primary {
        Some(s) => JsonV::Object(seq![mem("file"@, JsonV::Str(f.name))] + span_mems(s)),
        None => JsonV::Null,
    }
}

/// The members every diagnostic has.
pub open spec fn base_members(d: DiagnosticV, f: SourceFileV) -> Seq<MemberV> {
    seq![
        mem("code"@, JsonV::Str(code_text(d.code))),
        mem("severity"@, JsonV::Str(severity_text(d.severity))),
        mem("message"@, JsonV::Str(d.message)),
        mem("primary"@, primary_json(d, f)),
        mem(
            "labels"@,
            JsonV::Array(
                Seq::new(
                    d.labels.len(),
                    |i: int| label_json(d.labels[i].span, d.labels[i].message),
                ),
            ),
        ),
        mem("notes"@, JsonV::Array(str_items(d.notes))),
        mem("help"@, JsonV::Array(str_items(d.help))),
    ]
}

/// A diagnostic as JSON.
pub open spec fn diagnostic_json_of(d: DiagnosticV, f: SourceFileV) -> JsonV {
    let a = base_members(d, f);
    let b = match d.subject {
        Some(s) => a.push(mem("subject"@, JsonV::Str(s))),
        None => a,
    };
    JsonV::Object(
        if d.details.len() > 0 {
            b.push(mem("details"@, JsonV::Object(d.details)))
        } else {
            b
        },
    )
}

fn put_span(ms: &mut Vec<crate::json::Member>, s: Span)
    ensures
        members(final(ms)@) == members(old(ms)@) + span_mems(s),
{
    let ghost before = members(ms@);
    put(ms, "start", Json::Uint(s.start as u64));
    put(ms, "end", Json::Uint(s.end as u64));
    proof {
        assert(members(ms@) =~= before + span_mems(s));
    }
}

/// A span as a JSON object.
pub fn span_object(s: Span) -> (r: Json)
    ensures
        r@ == JsonV::Object(span_mems(s)),
{
    let mut ms = no_members();
    put_span(&mut ms, s);
    proof {
        assert(members(ms@) =~= span_mems(s));
    }
    json_object(ms)
}

fn labels_array(d: &Diagnostic) -> (r: Json)
    ensures
        r@ == JsonV::Array(
            Seq::new(
                d@.labels.len(),
                |i: int| label_json(d@.labels[i].span, d@.labels[i].message),
            ),
        ),
{
    let ghost all = Seq::new(
        d@.labels.len(),
        |i: int| label_json(d@.labels[i].span, d@.labels[i].message),
    );
    let mut out = no_items();
    let mut i: usize = 0;
    proof {
        assert(all.take(0) =~= Seq::empty());
    }
    while i < d.labels.len()
        invariant
            i <= d.labels@.len(),
            all == Seq::new(
                d@.labels.len(),
                |j: int| label_json(d@.labels[j].span, d@.labels[j].message),
            ),
            jsons(out@) == all.take(i as int),
        decreases d.labels@.len() - i,
    {
        let l = &d.labels[i];
        assert(d@.labels[i as int] == l@);
        let mut ms = no_members();
        put_span(&mut ms, l.span);
        put(&mut ms, "message", json_str(l.message.as_str()));
        proof {
            assert(members(ms@) =~= span_mems(l.span).push(
                mem("message"@, JsonV::Str(l.message@)),
            ));
        }
        put_item(&mut out, json_object(ms));
        i += 1;
        proof {
            assert(all.take(i as int) =~= all.take(i - 1).push(all[i - 1]));
        }
    }
    proof {
        assert(all.take(all.len() as int) =~= all);
    }
    json_array(out)
}

/// Serializes one diagnostic to the versioned JSON shape.
pub fn diagnostic_json(d: &Diagnostic, file: &SourceFile) -> (r: Json)
    ensures
        r@ == diagnostic_json_of(d@, file@),
{
    let mut ms = no_members();
    put(&mut ms, "code", json_str(d.code.as_str()));
    put(&mut ms, "severity", json_str(severity_str(d.severity)));
    put(&mut ms, "message", json_str(d.message.as_str()));
    let primary = match d.primary {
        Some(s) => {
            let mut p = no_members();
            put(&mut p, "file", json_str(file.name.as_str()));
            put_span(&mut p, s);
            proof {
                assert(members(p@) =~= seq![mem("file"@, JsonV::Str(file.name@))] + span_mems(s));
            }
            json_object(p)
        },
        None => Json::Null,
    };
    put(&mut ms, "primary", primary);
    put(&mut ms, "labels", labels_array(d));
    put(&mut ms, "notes", json_texts(&d.notes));
    put(&mut ms, "help", json_texts(&d.help));
    proof {
        assert(members(ms@) =~= base_members(d@, file@));
    }
    if let Some(s) = &d.subject {
        put(&mut ms, "subject", json_str(s.as_str()));
    }
    if d.details.len() > 0 {
        let details = copy_members(&d.details);
        put(&mut ms, "details", json_object(details));
    }
    proof {
        assert(members(d.details@).len() == d.details@.len());
    }
    json_object(ms)
}

pub(crate) fn copy_members(v: &Vec<crate::json::Member>) -> (r: Vec<crate::json::Member>)
    ensures
        members(r@) == members(v@),
{
    let ghost all = members(v@);
    let mut out = no_members();
    let mut i: usize = 0;
    proof {
        assert(all.take(0) =~= Seq::empty());
    }
    while i < v.len()
        invariant
            i <= v@.len(),
            all == members(v@),
            members(out@) == all.take(i as int),
        decreases v@.len() - i,
    {
        put(&mut out, v[i].key.as_str(), v[i].value.copy());
        i += 1;
        proof {
            assert(all.take(i as int) =~= all.take(i - 1).push(all[i - 1]));
        }
    }
    proof {
        assert(all.take(all.len() as int) =~= all);
    }
    out
}

/// Serializes one diagnostic with the file its tag names.
pub fn diagnostic_json_in(d: &Diagnostic, files: &Vec<SourceFile>) -> (r: Json)
    requires
        files@.len() > 0,
    ensures
        r@ == diagnostic_json_of(d@, file_for(d@, source_files(files@))),
{
    diagnostic_json(d, pick(d, files))
}

/// Diagnostics as JSON, each with the file its tag names.
pub open spec fn diagnostics_json(ds: Seq<DiagnosticV>, files: Seq<SourceFileV>) -> Seq<JsonV> {
    Seq::new(ds.len(), |i: int| diagnostic_json_of(ds[i], file_for(ds[i], files)))
}

/// Serializes diagnostics, each with the file its tag names.
pub fn diagnostic_items(ds: &Vec<Diagnostic>, files: &Vec<SourceFile>) -> (r: Vec<Json>)
    requires
        ds@.len() > 0 ==> files@.len() > 0,
    ensures
        jsons(r@) == diagnostics_json(diags(ds@), source_files(files@)),
{
    let ghost all = diagnostics_json(diags(ds@), source_files(files@));
    let mut out = no_items();
    let mut i: usize = 0;
    proof {
        assert(all.take(0) =~= Seq::empty());
    }
    while i < ds.len()
        invariant
            i <= ds@.len(),
            ds@.len() > 0 ==> files@.len() > 0,
            all == diagnostics_json(diags(ds@), source_files(files@)),
            jsons(out@) == all.take(i as int),
        decreases ds@.len() - i,
    {
        put_item(&mut out, diagnostic_json_in(&ds[i], files));
        i += 1;
        proof {
            assert(all.take(i as int) =~= all.take(i - 1).push(all[i - 1]));
        }
    }
    proof {
        assert(all.take(all.len() as int) =~= all);
    }
    out
}

/// The versioned document of a list of diagnostics.
pub open spec fn document(items: Seq<JsonV>) -> JsonV {
    JsonV::Object(
        seq![
            mem("version"@, JsonV::Uint(DIAGNOSTICS_SCHEMA_VERSION)),
            mem("diagnostics"@, JsonV::Array(items)),
        ],
    )
}

/// Serializes a full diagnostic list to the versioned document.
pub fn to_json_in(ds: &Vec<Diagnostic>, files: &Vec<SourceFile>) -> (r: Json)
    requires
        ds@.len() > 0 ==> files@.len() > 0,
    ensures
        r@ == document(diagnostics_json(diags(ds@), source_files(files@))),
{
    let items = diagnostic_items(ds, files);
    let mut ms = no_members();
    put(&mut ms, "version", Json::Uint(DIAGNOSTICS_SCHEMA_VERSION));
    put(&mut ms, "diagnostics", json_array(items));
    proof {
        assert(members(ms@) =~= document(
            diagnostics_json(diags(ds@), source_files(files@)),
        )->Object_0);
    }
    json_object(ms)
}

/// Serializes a full diagnostic list, all of it against one file.
pub fn to_json(ds: &Vec<Diagnostic>, file: &SourceFile) -> (r: Json)
    ensures
        r@ == document(
            Seq::new(ds@.len(), |i: int| diagnostic_json_of(diags(ds@)[i], file@)),
        ),
{
    let ghost all = Seq::new(ds@.len(), |i: int| diagnostic_json_of(diags(ds@)[i], file@));
    let mut out = no_items();
    let mut i: usize = 0;
    proof {
        assert(all.take(0) =~= Seq::empty());
    }
    while i < ds.len()
        invariant
            i <= ds@.len(),
            all == Seq::new(ds@.len(), |j: int| diagnostic_json_of(diags(ds@)[j], file@)),
            jsons(out@) == all.take(i as int),
        decreases ds@.len() - i,
    {
        put_item(&mut out, diagnostic_json(&ds[i], file));
        i += 1;
        proof {
            assert(all.take(i as int) =~= all.take(i - 1).push(all[i - 1]));
        }
    }
    proof {
        assert(all.take(all.len() as int) =~= all);
    }
    let mut ms = no_members();
    put(&mut ms, "version", Json::Uint(DIAGNOSTICS_SCHEMA_VERSION));
    put(&mut ms, "diagnostics", json_array(out));
    proof {
        assert(members(ms@) =~= document(all)->Object_0);
    }
    json_object(ms)
}

} // verus!
