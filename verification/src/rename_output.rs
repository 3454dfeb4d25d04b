//! Renames as commands and the daemon show them: the preview, the
//! report of an apply, and rejections.

use crate::commit::{committed, persist_sources, tx_paths};
use crate::envelope::{envelope_json, envelope_of, with_extras, Envelope};
use crate::hir::DefKey;
use crate::json::{
    json_array, json_object, json_str, jsons, mem, members, no_items, no_members, put, put_item,
    Json, JsonV, Member, MemberV,
};
use crate::paths::tx_root_of;
use crate::plan_output::{
    file_label, file_name, names_of, new_sources, new_sources_member, numbered, numbered_names,
    touched_names,
};
use crate::rename::{
    rename_diags, RenameError, RenamePlan, RenamePlanV, RenameReport,
};
use crate::render::{span_mems, span_object};
use crate::source_file::{source_files, SourceFile, SourceFileV};
use crate::splice::{edit_views, file_texts, EditV, RenameEdit};
use crate::text::{cat3, cat4, dec, decimal};
use crate::transaction::{run_wf, start_of, TxRun};
use vstd::prelude::*;
use vstd::string::*;

verus! {

/// A definition's key as text: root, file and name by number.
pub open spec fn key_text(k: DefKey) -> Seq<char> {
    "DefKey("@ + dec(k.root.raw as nat) + ":"@ + dec(k.file.raw as nat) + ":"@ + dec(
        k.name.raw as nat,
    ) + ")"@
}

pub(crate) fn show_key(k: DefKey) -> (r: String)
    ensures
        r@ == key_text(k),
{
    let a = decimal(k.root.raw as u64);
    let b = decimal(k.file.raw as u64);
    let c = decimal(k.name.raw as u64);
    let head = cat4("DefKey(", a.as_str(), ":", b.as_str());
    cat4(head.as_str(), ":", c.as_str(), ")")
}

/// A rename edit as JSON.
pub open spec fn rename_edit_json(e: EditV, files: Seq<SourceFileV>) -> JsonV {
    JsonV::Object(
        seq![
            mem("file"@, JsonV::Str(file_label(files, e.file.raw))),
            mem("span"@, JsonV::Object(span_mems(e.span))),
            mem("replace"@, JsonV::Str(e.replace)),
        ],
    )
}

/// The members of a rename plan: every edit with its file and span.
pub open spec fn rename_members(p: RenamePlanV, files: Seq<SourceFileV>, applied: bool) -> Seq<
    MemberV,
> {
    seq![
        mem("symbol"@, JsonV::Str(p.symbol)),
        mem("old_name"@, JsonV::Str(p.old_name)),
        mem("new_name"@, JsonV::Str(p.new_name)),
        mem("target"@, JsonV::Str(key_text(p.target))),
        mem("revision"@, JsonV::Uint(p.revision)),
        mem("applied"@, JsonV::Bool(applied)),
        mem(
            "edits"@,
            JsonV::Array(
                Seq::new(p.edits.len(), |i: int| rename_edit_json(p.edits[i], files)),
            ),
        ),
        mem("files"@, JsonV::Array(touched_names(p.new_sources, files))),
    ]
}

fn rename_edits(es: &Vec<RenameEdit>, files: &Vec<SourceFile>) -> (r: Json)
    ensures
        r@ == JsonV::Array(
            Seq::new(
                es@.len(),
                |i: int| rename_edit_json(edit_views(es@)[i], source_files(files@)),
            ),
        ),
{
    let ghost all = Seq::new(
        es@.len(),
        |i: int| rename_edit_json(edit_views(es@)[i], source_files(files@)),
    );
    let mut out = no_items();
    let mut i: usize = 0;
    proof {
        assert(all.take(0) =~= Seq::empty());
    }
    while i < es.len()
        invariant
            i <= es@.len(),
            all == Seq::new(
                es@.len(),
                |j: int| rename_edit_json(edit_views(es@)[j], source_files(files@)),
            ),
            jsons(out@) == all.take(i as int),
        decreases es@.len() - i,
    {
        let e = &es[i];
        let mut ms = no_members();
        put(&mut ms, "file", json_str(file_name(files, e.file.raw).as_str()));
        put(&mut ms, "span", span_object(e.span));
        put(&mut ms, "replace", json_str(e.replace.as_str()));
        proof {
            assert(edit_views(es@)[i as int] == e@);
            assert(members(ms@) =~= rename_edit_json(e@, source_files(files@))->Object_0);
        }
        put_item(&mut out, json_object(ms));
        i += 1;
        proof {
            assert(all.take(i as int) =~= all.take(i - 1).push(all[i - 1]));
        }
    }
    proof {
        assert(all.take(all.len() as int) =~= all);
    }
    json_array(out)
}

fn rename_plan_members(plan: &RenamePlan, files: &Vec<SourceFile>, applied: bool) -> (r: Vec<
    Member,
>)
    ensures
        members(r@) == rename_members(plan@, source_files(files@), applied),
{
    let es = plan.edits();
    let mut ms = no_members();
    put(&mut ms, "symbol", json_str(plan.symbol()));
    put(&mut ms, "old_name", json_str(plan.old_name()));
    put(&mut ms, "new_name", json_str(plan.new_name()));
    put(&mut ms, "target", json_str(show_key(plan.target()).as_str()));
    put(&mut ms, "revision", Json::Uint(plan.revision()));
    put(&mut ms, "applied", Json::Bool(applied));
    put(&mut ms, "edits", rename_edits(es, files));
    put(&mut ms, "files", names_of(plan.new_sources(), files));
    proof {
        assert(edit_views(es@).len() == es@.len());
        assert(members(ms@) =~= rename_members(plan@, source_files(files@), applied));
    }
    ms
}

/// The plan as a JSON payload.
pub fn plan_json(plan: &RenamePlan, files: &Vec<SourceFile>, applied: bool) -> (r: Json)
    ensures
        r@ == JsonV::Object(rename_members(plan@, source_files(files@), applied)),
{
    json_object(rename_plan_members(plan, files, applied))
}

/// The apply report merged into the result payload.
pub open spec fn rename_applied(p: RenamePlanV, report: RenameReport, files: Seq<SourceFileV>) -> Seq<
    MemberV,
> {
    rename_members(p, files, true) + seq![
        mem("applied_files"@, JsonV::Array(numbered_names(report.files@, files))),
        mem("applied_revision"@, JsonV::Uint(report.revision)),
    ]
}

fn rename_applied_members(plan: &RenamePlan, report: &RenameReport, files: &Vec<SourceFile>) -> (r:
    Vec<Member>)
    ensures
        members(r@) == rename_applied(plan@, *report, source_files(files@)),
{
    let mut ms = rename_plan_members(plan, files, true);
    put(&mut ms, "applied_files", numbered(&report.files, files));
    put(&mut ms, "applied_revision", Json::Uint(report.revision));
    proof {
        assert(members(ms@) =~= rename_applied(plan@, *report, source_files(files@)));
    }
    ms
}

/// The apply report merged into the result payload.
pub fn applied_json(plan: &RenamePlan, report: &RenameReport, files: &Vec<SourceFile>) -> (r:
    Json)
    ensures
        r@ == JsonV::Object(rename_applied(plan@, *report, source_files(files@))),
{
    json_object(rename_applied_members(plan, report, files))
}

/// The apply report together with the new texts: persisting them is the
/// client's business.
pub fn served_json(plan: &RenamePlan, report: &RenameReport, files: &Vec<SourceFile>) -> (r:
    Json)
    ensures
        r@ == JsonV::Object(
            rename_applied(plan@, *report, source_files(files@)).push(
                new_sources_member(plan@.new_sources, source_files(files@)),
            ),
        ),
{
    let news = plan.new_sources();
    let mut ms = rename_applied_members(plan, report, files);
    put(&mut ms, "new_sources", new_sources(news, files));
    proof {
        assert(file_texts(news@).len() == news@.len());
    }
    json_object(ms)
}

/// The rejection as a ready envelope document.
pub fn rejection_json(e: &RenameError, files: &Vec<SourceFile>) -> (r: Json)
    requires
        files@.len() > 0,
    ensures
        r@ == envelope_json(
            with_extras(envelope_of("rename"@), rename_diags(e@), source_files(files@)),
        ),
{
    Envelope::new("rename").extra_diagnostics(&e.diagnostics(), files).into_json()
}

/// The preview line of one edit.
pub open spec fn rename_line(e: EditV, files: Seq<SourceFileV>) -> Seq<char> {
    "  "@ + file_label(files, e.file.raw) + ":"@ + dec(e.span.start as nat) + ".."@ + dec(
        e.span.end as nat,
    ) + "  → "@ + e.replace + "\n"@
}

fn edit_line(e: &RenameEdit, files: &Vec<SourceFile>) -> (r: String)
    ensures
        r@ == rename_line(e@, source_files(files@)),
{
    let name = file_name(files, e.file.raw);
    let a = decimal(e.span.start as u64);
    let z = decimal(e.span.end as u64);
    let mut out = "  ".to_string();
    out.append(name.as_str());
    out.append(":");
    out.append(a.as_str());
    out.append("..");
    out.append(z.as_str());
    out.append("  → ");
    out.append(e.replace.as_str());
    out.append("\n");
    out
}

/// The preview lines of the first `k` edits.
pub open spec fn rename_lines(es: Seq<EditV>, files: Seq<SourceFileV>, k: int) -> Seq<char>
    decreases k,
{
    if k <= 0 {
        Seq::empty()
    } else {
        rename_lines(es, files, k - 1) + rename_line(es[k - 1], files)
    }
}

/// Human preview of a rename plan: one line per edit.
pub open spec fn rename_preview_of(p: RenamePlanV, files: Seq<SourceFileV>) -> Seq<char> {
    p.symbol + " → "@ + p.new_name + ": "@ + dec(p.edits.len()) + " edit(s) in "@ + dec(
        p.new_sources.len(),
    ) + " file(s)\n"@ + rename_lines(p.edits, files, p.edits.len() as int)
}

/// Human preview of a rename plan.
pub fn print_preview(plan: &RenamePlan, files: &Vec<SourceFile>) -> (r: String)
    ensures
        r@ == rename_preview_of(plan@, source_files(files@)),
{
    let es = plan.edits();
    let news = plan.new_sources();
    let ghost all = edit_views(es@);
    let ghost fs = source_files(files@);
    proof {
        assert(edit_views(es@).len() == es@.len());
        assert(file_texts(news@).len() == news@.len());
    }
    let b = decimal(es.len() as u64);
    let c = decimal(news.len() as u64);
    let mut out = cat3(plan.symbol(), " → ", plan.new_name());
    out.append(": ");
    out.append(b.as_str());
    out.append(" edit(s) in ");
    out.append(c.as_str());
    out.append(" file(s)\n");
    let ghost start = out@;
    let mut i: usize = 0;
    proof {
        assert(start + Seq::<char>::empty() =~= start);
    }
    while i < es.len()
        invariant
            i <= es@.len(),
            all == edit_views(es@),
            fs == source_files(files@),
            out@ == start + rename_lines(all, fs, i as int),
        decreases es@.len() - i,
    {
        let ghost front = rename_lines(all, fs, i as int);
        let line = edit_line(&es[i], files);
        out.append(line.as_str());
        proof {
            assert(all[i as int] == es@[i as int]@);
            assert(out@ =~= start + (front + line@));
        }
        i += 1;
    }
    out
}

/// What an applied rename prints.
pub fn print_summary(plan: &RenamePlan, report: &RenameReport) -> (r: String)
    ensures
        r@ == "renamed "@ + plan@.old_name + " → "@ + plan@.new_name + ": "@ + dec(
            report.edits as nat,
        ) + " edit(s), "@ + dec(report.files@.len()) + " file(s) written\n"@,
{
    let a = decimal(report.edits as u64);
    let b = decimal(report.files.len() as u64);
    let mut out = cat3("renamed ", plan.old_name(), " → ");
    out.append(plan.new_name());
    out.append(": ");
    out.append(a.as_str());
    out.append(" edit(s), ");
    out.append(b.as_str());
    out.append(" file(s) written\n");
    out
}

/// Starts the disk commit of a plan's new texts, through the staged
/// transaction of [`crate::commit`]: each destination's disk bytes must
/// equal the snapshot the plan validated, or nothing is written.
pub fn persist(plan: &RenamePlan, files: &Vec<SourceFile>, tx: String) -> (r: Option<TxRun>)
    requires
        forall|i: int|
            0 <= i < plan@.new_sources.len() ==> (#[trigger] plan@.new_sources[i]).0 < files@.len(),
    ensures
        ({
            let fs = committed(plan@.new_sources, source_files(files@));
            match (r, tx_root_of(tx_paths(fs))) {
                (Some(run), Some(root)) => run@ == start_of(root, fs, None, tx@) && run_wf(run@),
                (None, None) => true,
                _ => false,
            }
        }),
{
    let news = plan.new_sources();
    assert forall|i: int| 0 <= i < news@.len() implies (#[trigger] news@[i]).0 < files@.len() by {
        assert(plan@.new_sources[i].0 == news@[i].0);
    }
    persist_sources(news, files, tx)
}

} // verus!
