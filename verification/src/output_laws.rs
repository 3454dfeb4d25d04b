//! What the documents and texts for a reader show: each part of a
//! diagnostic and of a value under its own key, and the mark of a note
//! under the text it is about.

use crate::code::code_text;
use crate::diagnostic::{DiagnosticV, LabelV, Severity};
use crate::explain::symbol_text;
use crate::explain_laws::{
    item_at, keys_apart, lemma_apart, lemma_no_member, shows_span, size_of_array,
};
use crate::hir::{def_text, shape_of, FieldDef};
use crate::json::{at_key, law_member_read_back, member, JsonV};
use crate::render::{
    annotated, diagnostic_json_of, diagnostics_json, document, gutter_of, label_on, last_byte,
    lead_of, mark_len, max_line, note_lines, note_order, shown_line, spans_of, times, NoteV,
    DIAGNOSTICS_SCHEMA_VERSION,
};
use crate::run_value::{field_members, value_json_of, values_json, RunValue};
use crate::snapshot::SnapV;
use crate::source::{DefId, Span};
use crate::source_file::{line_col_of, SourceFileV};
use crate::text::dec;
use vstd::prelude::*;
use vstd::string::*;

verus! {

proof fn lemma_diag_keys()
    ensures
        "code"@ != "severity"@,
        "code"@ != "message"@,
        "code"@ != "primary"@,
        "code"@ != "labels"@,
        "code"@ != "notes"@,
        "code"@ != "help"@,
        "code"@ != "subject"@,
        "code"@ != "details"@,
        "severity"@ != "message"@,
        "severity"@ != "primary"@,
        "severity"@ != "labels"@,
        "severity"@ != "notes"@,
        "severity"@ != "help"@,
        "severity"@ != "subject"@,
        "severity"@ != "details"@,
        "message"@ != "primary"@,
        "message"@ != "labels"@,
        "message"@ != "notes"@,
        "message"@ != "help"@,
        "message"@ != "subject"@,
        "message"@ != "details"@,
        "primary"@ != "labels"@,
        "primary"@ != "notes"@,
        "primary"@ != "help"@,
        "primary"@ != "subject"@,
        "primary"@ != "details"@,
        "labels"@ != "notes"@,
        "labels"@ != "help"@,
        "labels"@ != "subject"@,
        "labels"@ != "details"@,
        "notes"@ != "help"@,
        "notes"@ != "subject"@,
        "notes"@ != "details"@,
        "help"@ != "subject"@,
        "help"@ != "details"@,
        "subject"@ != "details"@,
{
    reveal_strlit("code");
    reveal_strlit("severity");
    reveal_strlit("message");
    reveal_strlit("primary");
    reveal_strlit("labels");
    reveal_strlit("notes");
    reveal_strlit("help");
    reveal_strlit("subject");
    reveal_strlit("details");
    assert("code"@.len() != "severity"@.len());
    assert("code"@.len() != "message"@.len());
    assert("code"@.len() != "primary"@.len());
    assert("code"@.len() != "labels"@.len());
    assert("code"@.len() != "notes"@.len());
    assert("code"@[0] != "help"@[0]);
    assert("code"@.len() != "subject"@.len());
    assert("code"@.len() != "details"@.len());
    assert("severity"@.len() != "message"@.len());
    assert("severity"@.len() != "primary"@.len());
    assert("severity"@.len() != "labels"@.len());
    assert("severity"@.len() != "notes"@.len());
    assert("severity"@.len() != "help"@.len());
    assert("severity"@.len() != "subject"@.len());
    assert("severity"@.len() != "details"@.len());
    assert("message"@[0] != "primary"@[0]);
    assert("message"@.len() != "labels"@.len());
    assert("message"@.len() != "notes"@.len());
    assert("message"@.len() != "help"@.len());
    assert("message"@[0] != "subject"@[0]);
    assert("message"@[0] != "details"@[0]);
    assert("primary"@.len() != "labels"@.len());
    assert("primary"@.len() != "notes"@.len());
    assert("primary"@.len() != "help"@.len());
    assert("primary"@[0] != "subject"@[0]);
    assert("primary"@[0] != "details"@[0]);
    assert("labels"@.len() != "notes"@.len());
    assert("labels"@.len() != "help"@.len());
    assert("labels"@.len() != "subject"@.len());
    assert("labels"@.len() != "details"@.len());
    assert("notes"@.len() != "help"@.len());
    assert("notes"@.len() != "subject"@.len());
    assert("notes"@.len() != "details"@.len());
    assert("help"@.len() != "subject"@.len());
    assert("help"@.len() != "details"@.len());
    assert("subject"@[0] != "details"@[0]);
}

proof fn lemma_part_keys()
    ensures
        "file"@ != "start"@,
        "file"@ != "end"@,
        "file"@ != "message"@,
        "start"@ != "end"@,
        "start"@ != "message"@,
        "end"@ != "message"@,
{
    reveal_strlit("file");
    reveal_strlit("start");
    reveal_strlit("end");
    reveal_strlit("message");
    assert("file"@.len() != "start"@.len());
    assert("file"@.len() != "end"@.len());
    assert("file"@.len() != "message"@.len());
    assert("start"@.len() != "end"@.len());
    assert("start"@.len() != "message"@.len());
    assert("end"@.len() != "message"@.len());
}

proof fn lemma_value_keys()
    ensures
        "data"@ != "fields"@,
        "data"@ != "variant"@,
        "data"@ != "payload"@,
        "fields"@ != "variant"@,
        "fields"@ != "payload"@,
        "variant"@ != "payload"@,
{
    reveal_strlit("data");
    reveal_strlit("fields");
    reveal_strlit("variant");
    reveal_strlit("payload");
    assert("data"@.len() != "fields"@.len());
    assert("data"@.len() != "variant"@.len());
    assert("data"@.len() != "payload"@.len());
    assert("fields"@.len() != "variant"@.len());
    assert("fields"@.len() != "payload"@.len());
    assert("variant"@[0] != "payload"@[0]);
}

proof fn lemma_top_keys()
    ensures
        "version"@ != "diagnostics"@,
{
    reveal_strlit("version");
    reveal_strlit("diagnostics");
    assert("version"@.len() != "diagnostics"@.len());
}

// ---------- diagnostics ----------

/// The document of a diagnostic shows each of its parts under its own
/// key: code, severity and message, the primary place with the file's
/// name, the labels, notes and help one for one and in order, and the
/// subject and the details where there are any.
pub proof fn law_diagnostic_document(d: DiagnosticV, f: SourceFileV, i: int)
    ensures
        ({
            let j = diagnostic_json_of(d, f);
            &&& at_key(j, "code"@) == JsonV::Str(code_text(d.code))
            &&& at_key(j, "severity"@) == JsonV::Str(
                if d.severity == Severity::Error {
                    "error"@
                } else {
                    "warning"@
                },
            )
            &&& at_key(j, "message"@) == JsonV::Str(d.message)
            &&& match d.primary {
                None => at_key(j, "primary"@) == JsonV::Null,
                Some(sp) => at_key(at_key(j, "primary"@), "file"@) == JsonV::Str(f.name)
                    && shows_span(at_key(j, "primary"@), sp),
            }
            &&& size_of_array(at_key(j, "labels"@)) == d.labels.len()
            &&& 0 <= i < d.labels.len() ==> {
                let l = item_at(at_key(j, "labels"@), i);
                shows_span(l, d.labels[i].span) && at_key(l, "message"@) == JsonV::Str(
                    d.labels[i].message,
                )
            }
            &&& size_of_array(at_key(j, "notes"@)) == d.notes.len()
            &&& 0 <= i < d.notes.len() ==> item_at(at_key(j, "notes"@), i) == JsonV::Str(
                d.notes[i],
            )
            &&& size_of_array(at_key(j, "help"@)) == d.help.len()
            &&& 0 <= i < d.help.len() ==> item_at(at_key(j, "help"@), i) == JsonV::Str(d.help[i])
            &&& at_key(j, "subject"@) == (match d.subject {
                Some(t) => JsonV::Str(t),
                None => JsonV::Null,
            })
            &&& at_key(j, "details"@) == (if d.details.len() > 0 {
                JsonV::Object(d.details)
            } else {
                JsonV::Null
            })
        }),
{
    lemma_diag_keys();
    lemma_part_keys();
    let ms = diagnostic_json_of(d, f)->Object_0;
    assert(keys_apart(ms));
    lemma_apart(ms, 0);
    lemma_apart(ms, 1);
    lemma_apart(ms, 2);
    lemma_apart(ms, 3);
    lemma_apart(ms, 4);
    lemma_apart(ms, 5);
    lemma_apart(ms, 6);
    if d.subject is Some {
        lemma_apart(ms, 7);
        if d.details.len() > 0 {
            lemma_apart(ms, 8);
        } else {
            lemma_no_member(ms, "details"@);
        }
    } else {
        lemma_no_member(ms, "subject"@);
        if d.details.len() > 0 {
            lemma_apart(ms, 7);
        } else {
            lemma_no_member(ms, "details"@);
        }
    }
    if d.primary is Some {
        let ps = ms[3].value->Object_0;
        assert(keys_apart(ps));
        lemma_apart(ps, 0);
        lemma_apart(ps, 1);
        lemma_apart(ps, 2);
    }
    if 0 <= i < d.labels.len() {
        let ls = item_at(ms[4].value, i)->Object_0;
        assert(keys_apart(ls));
        lemma_apart(ls, 0);
        lemma_apart(ls, 1);
        lemma_apart(ls, 2);
    }
}

/// The document of several diagnostics shows each of them, in order, with
/// the name of its own file; one without a file is shown in the first.
pub proof fn law_diagnostics_document(ds: Seq<DiagnosticV>, files: Seq<SourceFileV>, i: int)
    requires
        0 <= i < ds.len(),
    ensures
        ({
            let j = document(diagnostics_json(ds, files));
            &&& at_key(j, "version"@) == JsonV::Uint(DIAGNOSTICS_SCHEMA_VERSION)
            &&& size_of_array(at_key(j, "diagnostics"@)) == ds.len()
            &&& item_at(at_key(j, "diagnostics"@), i) == diagnostic_json_of(
                ds[i],
                match ds[i].file {
                    Some(f) => if f.raw < files.len() {
                        files[f.raw as int]
                    } else {
                        files[0]
                    },
                    None => files[0],
                },
            )
        }),
{
    lemma_top_keys();
    let ms = document(diagnostics_json(ds, files))->Object_0;
    assert(keys_apart(ms));
    lemma_apart(ms, 0);
    lemma_apart(ms, 1);
}

// ---------- values ----------

/// A list of values is shown one for one, in order.
pub proof fn law_array_value_shown(s: SnapV, elems: Vec<RunValue>, i: int)
    requires
        0 <= i < elems@.len(),
    ensures
        ({
            let j = value_json_of(s, RunValue::Array(elems));
            size_of_array(j) == elems@.len() && item_at(j, i) == value_json_of(s, elems@[i])
        }),
{
    assert(value_json_of(s, RunValue::Array(elems)) == JsonV::Array(values_json(s, elems@)));
}

/// A variant is shown with its `data`, its name and its payload, one for
/// one and in order.
pub proof fn law_variant_value_shown(s: SnapV, def: DefId, tag: u32, payload: Vec<RunValue>, i: int)
    ensures
        ({
            let j = value_json_of(s, RunValue::Variant { def, tag, payload });
            &&& at_key(j, "data"@) == JsonV::Str(def_text(s.scope, s.names, def))
            &&& shape_of(s.scope, def) matches Some(shape) ==> (tag < shape.variants.len()
                ==> at_key(j, "variant"@) == JsonV::Str(
                symbol_text(s, shape.variants[tag as int].symbol),
            ))
            &&& size_of_array(at_key(j, "payload"@)) == payload@.len()
            &&& 0 <= i < payload@.len() ==> item_at(at_key(j, "payload"@), i) == value_json_of(
                s,
                payload@[i],
            )
        }),
{
    lemma_value_keys();
    let v = RunValue::Variant { def, tag, payload };
    let ms = value_json_of(s, v)->Object_0;
    assert(ms[2].value == JsonV::Array(values_json(s, payload@)));
    assert(keys_apart(ms));
    lemma_apart(ms, 0);
    lemma_apart(ms, 1);
    lemma_apart(ms, 2);
}

proof fn lemma_field_members(s: SnapV, fs: Seq<FieldDef>, vals: Seq<RunValue>, k: int, i: int)
    requires
        0 <= i < k <= vals.len(),
        k <= fs.len(),
        forall|a: int, b: int|
            0 <= a < b < k ==> symbol_text(s, (#[trigger] fs[a]).symbol) != symbol_text(
                s,
                (#[trigger] fs[b]).symbol,
            ),
    ensures
        member(field_members(s, fs, vals, k), symbol_text(s, fs[i].symbol)) == Some(
            value_json_of(s, vals[i]),
        ),
    decreases k,
{
    let front = field_members(s, fs, vals, k - 1);
    let key = symbol_text(s, fs[k - 1].symbol);
    law_member_read_back(
        front,
        key,
        value_json_of(s, vals[k - 1]),
        symbol_text(s, fs[i].symbol),
    );
    if i < k - 1 {
        lemma_field_members(s, fs, vals, k - 1, i);
        assert(symbol_text(s, fs[i].symbol) != symbol_text(s, fs[k - 1].symbol));
    }
}

/// A record is shown with its `data` and with each field's value under
/// that field's name.
pub proof fn law_record_value_shown(s: SnapV, d: DefId, fields: Vec<RunValue>, i: int)
    requires
        shape_of(s.scope, d) is Some,
        0 <= i < fields@.len(),
        fields@.len() == shape_of(s.scope, d)->0.fields.len(),
        forall|a: int, b: int|
            0 <= a < b < fields@.len() ==> symbol_text(
                s,
                (#[trigger] shape_of(s.scope, d)->0.fields[a]).symbol,
            ) != symbol_text(s, (#[trigger] shape_of(s.scope, d)->0.fields[b]).symbol),
    ensures
        ({
            let j = value_json_of(s, RunValue::Struct(d, fields));
            &&& at_key(j, "data"@) == JsonV::Str(def_text(s.scope, s.names, d))
            &&& at_key(
                at_key(j, "fields"@),
                symbol_text(s, shape_of(s.scope, d)->0.fields[i].symbol),
            ) == value_json_of(s, fields@[i])
        }),
{
    lemma_value_keys();
    let fs = shape_of(s.scope, d)->0.fields;
    let v = RunValue::Struct(d, fields);
    let ms = value_json_of(s, v)->Object_0;
    let n = fields@.len() as int;
    assert(ms[1].value == JsonV::Object(field_members(s, fs, fields@, n)));
    assert(keys_apart(ms));
    lemma_apart(ms, 0);
    lemma_apart(ms, 1);
    lemma_field_members(s, fs, fields@, n, i);
}

/// A plain value is shown as itself: a whole number as that number where
/// JSON has it and as its digits elsewhere, a text, a truth value; a
/// value that is not there as such.
pub proof fn law_plain_value_shown(s: SnapV, v: RunValue)
    ensures
        match v {
            RunValue::Int(i) => value_json_of(s, v) == (if i64::MIN <= i < 0 {
                JsonV::Int(i as i64)
            } else if 0 <= i <= u64::MAX {
                JsonV::Uint(i as u64)
            } else if i < 0 {
                JsonV::Str("-"@ + dec((-i) as nat))
            } else {
                JsonV::Str(dec(i as nat))
            }),
            RunValue::Str(t) => value_json_of(s, v) == JsonV::Str(t@),
            RunValue::Char(c) => value_json_of(s, v) == JsonV::Str(c@),
            RunValue::Bool(b) => value_json_of(s, v) == JsonV::Bool(b),
            RunValue::Unit => value_json_of(s, v) == JsonV::Null,
            RunValue::Float(Some(t)) => value_json_of(s, v) == JsonV::Decimal(t@),
            RunValue::Float(None) => value_json_of(s, v) == JsonV::Null,
            RunValue::Hole => value_json_of(s, v) is Str,
            _ => true,
        },
{
}

// ---------- marks ----------

proof fn lemma_times_len(s: Seq<char>, n: nat)
    requires
        s.len() == 1,
    ensures
        times(s, n).len() == n,
        forall|i: int| 0 <= i < n ==> #[trigger] times(s, n)[i] == s[0],
    decreases n,
{
    if n > 0 {
        lemma_times_len(s, (n - 1) as nat);
    }
}

proof fn lemma_lead(text: Seq<char>, n: int)
    requires
        0 <= n <= text.len(),
    ensures
        lead_of(text, n).len() == n,
        forall|i: int|
            0 <= i < n ==> #[trigger] lead_of(text, n)[i] == (if text[i] == '\t' {
                '\t'
            } else {
                ' '
            }),
    decreases n,
{
    reveal_strlit("\t");
    reveal_strlit(" ");
    if n > 0 {
        lemma_lead(text, n - 1);
    }
}

/// The mark of a note stands under the text it is about. In front of it,
/// each character of the line is matched by a blank, or by a tab where it
/// is one, so that the mark begins in the note's first column. It is as
/// long as the note's text on that line, and at least one character: `^`
/// for the primary place, `-` for another.
pub proof fn law_mark_stands_under_its_text(n: NoteV, s: Seq<char>, gutter: Seq<char>, i: int)
    requires
        ({
            let start = line_col_of(s, n.span.start);
            1 <= start.column <= shown_line(s, start.line).len() + 1
        }),
    ensures
        ({
            let start = line_col_of(s, n.span.start);
            let end = line_col_of(s, last_byte(n.span));
            let text = shown_line(s, start.line);
            let number = dec(start.line as nat);
            let lead = lead_of(text, start.column - 1);
            let len = if end.line == start.line && end.column >= start.column {
                end.column - start.column + 1
            } else if end.line != start.line && text.len() >= start.column {
                text.len() - start.column + 1
            } else {
                1
            };
            let mark = times(
                if n.primary {
                    "^"@
                } else {
                    "-"@
                },
                len as nat,
            );
            &&& lead.len() == start.column - 1
            &&& 0 <= i < lead.len() ==> lead[i] == (if text[i] == '\t' {
                '\t'
            } else {
                ' '
            })
            &&& mark.len() == len && len >= 1
            &&& note_lines(n, s, gutter) == times(
                " "@,
                if gutter.len() >= number.len() {
                    (gutter.len() - number.len()) as nat
                } else {
                    0
                },
            ) + number + " | "@ + text + "\n"@ + gutter + " | "@ + lead + mark + " "@ + n.message
                + "\n"@
        }),
{
    reveal_strlit("^");
    reveal_strlit("-");
    let start = line_col_of(s, n.span.start);
    let end = line_col_of(s, last_byte(n.span));
    let text = shown_line(s, start.line);
    lemma_lead(text, start.column - 1);
    lemma_times_len("^"@, mark_len(text, start, end));
    lemma_times_len("-"@, mark_len(text, start, end));
}

/// The gutter is as wide as the widest line number that a note is shown
/// with, so that every number fits in it.
pub proof fn law_gutter_fits_every_number(notes: Seq<NoteV>, s: Seq<char>, i: int)
    requires
        0 <= i < notes.len(),
    ensures
        line_col_of(s, notes[i].span.start).line <= max_line(notes, s),
        gutter_of(notes, s).len() == dec(max_line(notes, s) as nat).len(),
    decreases notes.len(),
{
    reveal_strlit(" ");
    lemma_times_len(" "@, dec(max_line(notes, s) as nat).len());
    if i < notes.len() - 1 {
        law_gutter_fits_every_number(notes.drop_last(), s, i);
    }
}

/// The notes of a diagnostic are its primary place and its labels, none
/// of them left out, by where they start; at one place the primary comes
/// first. The primary bears the message of the first label at its span.
pub proof fn law_notes_are_the_places(d: DiagnosticV, i: int)
    ensures
        ({
            let ns = spans_of(d);
            let k: int = if d.primary is Some {
                1
            } else {
                0
            };
            &&& ns.len() == d.labels.len() + k
            &&& annotated(d).to_multiset() == ns.to_multiset()
            &&& crate::order::ordered(annotated(d), note_order())
            &&& d.primary is Some ==> ns[0].span == d.primary->0 && ns[0].primary
            &&& 0 <= i < d.labels.len() ==> ns[k + i].span == d.labels[i].span && ns[k
                + i].message == d.labels[i].message && !ns[k + i].primary
            &&& d.primary is Some && 0 <= i < d.labels.len() && d.labels[i].span == d.primary->0
                && (forall|j: int| 0 <= j < i ==> (#[trigger] d.labels[j]).span != d.primary->0)
                ==> ns[0].message == d.labels[i].message
        }),
{
    crate::order::law_sorted(spans_of(d), note_order());
    if d.primary is Some && 0 <= i < d.labels.len() && d.labels[i].span == d.primary->0 && (forall|
        j: int,
    |
        0 <= j < i ==> (#[trigger] d.labels[j]).span != d.primary->0) {
        lemma_label_on(d.labels, d.primary->0, i, 0);
    }
}

proof fn lemma_label_on(ls: Seq<LabelV>, sp: Span, i: int, from: int)
    requires
        0 <= from <= i < ls.len(),
        ls[i].span == sp,
        forall|j: int| 0 <= j < i ==> (#[trigger] ls[j]).span != sp,
    ensures
        label_on(ls, sp, from) == ls[i].message,
    decreases i - from,
{
    if from < i {
        assert(ls[from].span != sp);
        lemma_label_on(ls, sp, i, from + 1);
    }
}

} // verus!
