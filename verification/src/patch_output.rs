//! Patches as commands and the daemon show them: the preview, the
//! report of an apply, and rejections.

use crate::commit::{committed, persist_sources, tx_paths};
use crate::envelope::{envelope_json, envelope_of, with_extras, Envelope};
use crate::json::{
    json_array, json_object, json_str, json_texts, jsons, mem, members, no_items, no_members, put,
    put_item, str_items, Json, JsonV, Member, MemberV,
};
use crate::patch::{edits_view, error_diags, PatchEdit, PatchEditV, PatchError};
use crate::patch_plan::{PatchPlan, PatchPlanV, PatchReport};
use crate::paths::tx_root_of;
use crate::plan_output::{
    debug_form, debug_text, file_label, file_name, names_of, new_sources, new_sources_member,
    numbered, numbered_names, touched_names,
};
use crate::render::{span_mems, span_object};
use crate::source_file::{source_files, SourceFile, SourceFileV};
use crate::splice::file_texts;
use crate::text::{cat3, dec, decimal, texts};
use crate::transaction::{run_wf, start_of, TxRun};
use vstd::prelude::*;
use vstd::string::*;

verus! {

/// A patch edit as JSON.
pub open spec fn patch_edit_json(e: PatchEditV, files: Seq<SourceFileV>) -> JsonV {
    JsonV::Object(
        seq![
            mem("file"@, JsonV::Str(file_label(files, e.file.raw))),
            mem("op"@, JsonV::Uint(e.op as u64)),
            mem("span"@, JsonV::Object(span_mems(e.span))),
            mem("replace"@, JsonV::Str(e.replace)),
        ],
    )
}

/// The members of a patch plan: op summaries plus every edit with its
/// file, span, and producing op.
pub open spec fn patch_members(p: PatchPlanV, files: Seq<SourceFileV>, applied: bool) -> Seq<
    MemberV,
> {
    seq![
        mem("ops"@, JsonV::Array(str_items(p.ops))),
        mem("revision"@, JsonV::Uint(p.revision)),
        mem("applied"@, JsonV::Bool(applied)),
        mem(
            "edits"@,
            JsonV::Array(
                Seq::new(p.edits.len(), |i: int| patch_edit_json(p.edits[i], files)),
            ),
        ),
        mem("files"@, JsonV::Array(touched_names(p.new_sources, files))),
    ]
}

fn patch_edits(es: &Vec<PatchEdit>, files: &Vec<SourceFile>) -> (r: Json)
    ensures
        r@ == JsonV::Array(
            Seq::new(
                es@.len(),
                |i: int| patch_edit_json(edits_view(es@)[i], source_files(files@)),
            ),
        ),
{
    let ghost all = Seq::new(
        es@.len(),
        |i: int| patch_edit_json(edits_view(es@)[i], source_files(files@)),
    );
    let mut out = no_items();
    let mut i: usize = 0;
    proof {
        assert(all.take(0) =~= Seq::empty());
    }
    while i < es.len()
        invariant
            i <= es@.len(),
            all == Seq::new(
                es@.len(),
                |j: int| patch_edit_json(edits_view(es@)[j], source_files(files@)),
            ),
            jsons(out@) == all.take(i as int),
        decreases es@.len() - i,
    {
        let e = &es[i];
        let mut ms = no_members();
        put(&mut ms, "file", json_str(file_name(files, e.file.raw).as_str()));
        put(&mut ms, "op", Json::Uint(e.op as u64));
        put(&mut ms, "span", span_object(e.span));
        put(&mut ms, "replace", json_str(e.replace.as_str()));
        proof {
            assert(edits_view(es@)[i as int] == e@);
            assert(members(ms@) =~= patch_edit_json(e@, source_files(files@))->Object_0);
        }
        put_item(&mut out, json_object(ms));
        i += 1;
        proof {
            assert(all.take(i as int) =~= all.take(i - 1).push(all[i - 1]));
        }
    }
    proof {
        assert(all.take(all.len() as int) =~= all);
    }
    json_array(out)
}

fn patch_plan_members(plan: &PatchPlan, files: &Vec<SourceFile>, applied: bool) -> (r: Vec<Member>)
    ensures
        members(r@) == patch_members(plan@, source_files(files@), applied),
{
    let mut ms = no_members();
    let es = plan.edits();
    put(&mut ms, "ops", json_texts(plan.ops()));
    put(&mut ms, "revision", Json::Uint(plan.revision()));
    put(&mut ms, "applied", Json::Bool(applied));
    put(&mut ms, "edits", patch_edits(es, files));
    put(&mut ms, "files", names_of(plan.new_sources(), files));
    proof {
        assert(edits_view(es@).len() == es@.len());
        assert(members(ms@) =~= patch_members(plan@, source_files(files@), applied));
    }
    ms
}

/// The plan as a JSON payload.
pub fn plan_json(plan: &PatchPlan, files: &Vec<SourceFile>, applied: bool) -> (r: Json)
    ensures
        r@ == JsonV::Object(patch_members(plan@, source_files(files@), applied)),
{
    json_object(patch_plan_members(plan, files, applied))
}

/// The members of an applied patch: the plan's, and the report's.
pub open spec fn patch_applied(p: PatchPlanV, report: PatchReport, files: Seq<SourceFileV>) -> Seq<
    MemberV,
> {
    patch_members(p, files, true) + seq![
        mem("applied_files"@, JsonV::Array(numbered_names(report.files@, files))),
        mem("applied_revision"@, JsonV::Uint(report.revision)),
        mem("ops_applied"@, JsonV::Uint(report.ops as u64)),
    ]
}

fn patch_applied_members(plan: &PatchPlan, report: &PatchReport, files: &Vec<SourceFile>) -> (r: Vec<
    Member,
>)
    ensures
        members(r@) == patch_applied(plan@, *report, source_files(files@)),
{
    let mut ms = patch_plan_members(plan, files, true);
    let ghost base = members(ms@);
    put(&mut ms, "applied_files", numbered(&report.files, files));
    put(&mut ms, "applied_revision", Json::Uint(report.revision));
    put(&mut ms, "ops_applied", Json::Uint(report.ops as u64));
    proof {
        assert(members(ms@) =~= base + seq![
            mem(
                "applied_files"@,
                JsonV::Array(numbered_names(report.files@, source_files(files@))),
            ),
            mem("applied_revision"@, JsonV::Uint(report.revision)),
            mem("ops_applied"@, JsonV::Uint(report.ops as u64)),
        ]);
    }
    ms
}

/// The apply report merged into the result payload.
pub fn applied_json(plan: &PatchPlan, report: &PatchReport, files: &Vec<SourceFile>) -> (r:
    Json)
    ensures
        r@ == JsonV::Object(patch_applied(plan@, *report, source_files(files@))),
{
    json_object(patch_applied_members(plan, report, files))
}

/// The payload of a patch that the daemon applied: what the CLI says of
/// one, and the new texts.
pub fn served_json(plan: &PatchPlan, report: &PatchReport, files: &Vec<SourceFile>) -> (r:
    Json)
    ensures
        r@ == JsonV::Object(
            patch_applied(plan@, *report, source_files(files@)).push(
                new_sources_member(plan@.new_sources, source_files(files@)),
            ),
        ),
{
    let news = plan.new_sources();
    let mut ms = patch_applied_members(plan, report, files);
    put(&mut ms, "new_sources", new_sources(news, files));
    proof {
        assert(file_texts(news@).len() == news@.len());
    }
    json_object(ms)
}

/// The rejection as a ready envelope document.
pub fn rejection_json(e: &PatchError, files: &Vec<SourceFile>) -> (r: Json)
    requires
        files@.len() > 0,
    ensures
        r@ == envelope_json(
            with_extras(envelope_of("patch"@), error_diags(e@), source_files(files@)),
        ),
{
    Envelope::new("patch").extra_diagnostics(&e.diagnostics(), files).into_json()
}

/// One line per op.
pub open spec fn op_lines(ops: Seq<Seq<char>>, k: int) -> Seq<char>
    decreases k,
{
    if k <= 0 {
        Seq::empty()
    } else {
        op_lines(ops, k - 1) + "  ops["@ + dec((k - 1) as nat) + "] "@ + ops[k - 1] + "\n"@
    }
}

/// One line per edit of a patch.
pub open spec fn patch_lines(es: Seq<PatchEditV>, files: Seq<SourceFileV>, k: int) -> Seq<char>
    decreases k,
{
    if k <= 0 {
        Seq::empty()
    } else {
        let e = es[k - 1];
        patch_lines(es, files, k - 1) + "  "@ + file_label(files, e.file.raw) + ":"@ + dec(
            e.span.start as nat,
        ) + ".."@ + dec(e.span.end as nat) + "  → "@ + debug_form(e.replace) + "\n"@
    }
}

/// Human preview of a patch plan: one line per op, then one per edit.
pub open spec fn patch_preview_of(p: PatchPlanV, files: Seq<SourceFileV>) -> Seq<char> {
    "patch: "@ + dec(p.ops.len()) + " op(s), "@ + dec(p.edits.len()) + " edit(s) in "@ + dec(
        p.new_sources.len(),
    ) + " file(s)\n"@ + op_lines(p.ops, p.ops.len() as int) + patch_lines(
        p.edits,
        files,
        p.edits.len() as int,
    )
}

fn push_ops(out: &mut String, ops: &Vec<String>)
    ensures
        final(out)@ == old(out)@ + op_lines(texts(ops@), ops@.len() as int),
{
    let ghost start = out@;
    let ghost all = texts(ops@);
    let mut i: usize = 0;
    proof {
        assert(start + Seq::<char>::empty() =~= start);
    }
    while i < ops.len()
        invariant
            i <= ops@.len(),
            all == texts(ops@),
            out@ == start + op_lines(all, i as int),
        decreases ops@.len() - i,
    {
        let ghost front = op_lines(all, i as int);
        let n = decimal(i as u64);
        out.append("  ops[");
        out.append(n.as_str());
        out.append("] ");
        out.append(ops[i].as_str());
        out.append("\n");
        proof {
            assert(all[i as int] == ops@[i as int]@);
            assert(out@ =~= start + (front + "  ops["@ + dec(i as nat) + "] "@ + all[i as int]
                + "\n"@));
        }
        i += 1;
    }
}

fn push_patch_edits(out: &mut String, es: &Vec<PatchEdit>, files: &Vec<SourceFile>)
    ensures
        final(out)@ == old(out)@ + patch_lines(
            edits_view(es@),
            source_files(files@),
            es@.len() as int,
        ),
{
    let ghost start = out@;
    let ghost all = edits_view(es@);
    let ghost fs = source_files(files@);
    let mut i: usize = 0;
    proof {
        assert(start + Seq::<char>::empty() =~= start);
    }
    while i < es.len()
        invariant
            i <= es@.len(),
            all == edits_view(es@),
            fs == source_files(files@),
            out@ == start + patch_lines(all, fs, i as int),
        decreases es@.len() - i,
    {
        let ghost front = patch_lines(all, fs, i as int);
        let e = &es[i];
        let name = file_name(files, e.file.raw);
        let a = decimal(e.span.start as u64);
        let b = decimal(e.span.end as u64);
        let shown = debug_text(e.replace.as_str());
        out.append("  ");
        out.append(name.as_str());
        out.append(":");
        out.append(a.as_str());
        out.append("..");
        out.append(b.as_str());
        out.append("  → ");
        out.append(shown.as_str());
        out.append("\n");
        proof {
            assert(all[i as int] == e@);
            assert(out@ =~= start + (front + "  "@ + name@ + ":"@ + a@ + ".."@ + b@ + "  → "@
                + shown@ + "\n"@));
        }
        i += 1;
    }
}

/// Human preview of a patch plan.
pub fn print_preview(plan: &PatchPlan, files: &Vec<SourceFile>) -> (r: String)
    ensures
        r@ == patch_preview_of(plan@, source_files(files@)),
{
    let ops = plan.ops();
    let es = plan.edits();
    let news = plan.new_sources();
    proof {
        assert(texts(ops@).len() == ops@.len());
        assert(edits_view(es@).len() == es@.len());
        assert(file_texts(news@).len() == news@.len());
    }
    let a = decimal(ops.len() as u64);
    let b = decimal(es.len() as u64);
    let c = decimal(news.len() as u64);
    let mut out = cat3("patch: ", a.as_str(), " op(s), ");
    out.append(b.as_str());
    out.append(" edit(s) in ");
    out.append(c.as_str());
    out.append(" file(s)\n");
    push_ops(&mut out, ops);
    push_patch_edits(&mut out, es, files);
    out
}

/// What an applied patch prints.
pub fn print_summary(report: &PatchReport) -> (r: String)
    ensures
        r@ == "applied "@ + dec(report.ops as nat) + " op(s): "@ + dec(report.edits as nat)
            + " edit(s), "@ + dec(report.files@.len()) + " file(s) written\n"@,
{
    let a = decimal(report.ops as u64);
    let b = decimal(report.edits as u64);
    let c = decimal(report.files.len() as u64);
    let mut out = cat3("applied ", a.as_str(), " op(s): ");
    out.append(b.as_str());
    out.append(" edit(s), ");
    out.append(c.as_str());
    out.append(" file(s) written\n");
    out
}

/// Starts the disk commit of a plan's new texts, through the staged
/// transaction of [`crate::commit`]: each destination's disk bytes must
/// equal the snapshot the plan validated, or nothing is written.
pub fn persist(plan: &PatchPlan, files: &Vec<SourceFile>, tx: String) -> (r: Option<TxRun>)
    requires
        forall|i: int|
            0 <= i < plan@.new_sources.len() ==> (#[trigger] plan@.new_sources[i]).0 < files@.len(),
    ensures
        ({
            let fs = committed(plan@.new_sources, source_files(files@));
            match (r, tx_root_of(tx_paths(fs))) {
                (Some(run), Some(root)) => run@ == start_of(root, fs, None, tx@) && run_wf(run@),
                (None, None) => true,
                _ => false,
            }
        }),
{
    let news = plan.new_sources();
    assert forall|i: int| 0 <= i < news@.len() implies (#[trigger] news@[i]).0 < files@.len() by {
        assert(plan@.new_sources[i].0 == news@[i].0);
    }
    persist_sources(news, files, tx)
}

} // verus!
