//! What the document of a plan shows: every edit at its own position,
//! with the name of its file, its span and its text, and every file that
//! the plan touches.

use crate::explain_laws::{item_at, keys_apart, lemma_apart, shows_span, size_of_array};
use crate::json::{at_key, JsonV};
use crate::patch_output::{patch_applied, patch_edit_json, patch_members};
use crate::patch_plan::{PatchPlanV, PatchReport};
use crate::plan_output::new_source_json;
use crate::rename::{RenamePlanV, RenameReport};
use crate::rename_output::{rename_applied, rename_edit_json, rename_members};
use crate::source_file::SourceFileV;
use crate::text::dec;
use vstd::prelude::*;
use vstd::string::*;

verus! {

proof fn lemma_keys()
    ensures
        "symbol"@ != "old_name"@,
        "symbol"@ != "new_name"@,
        "symbol"@ != "target"@,
        "symbol"@ != "revision"@,
        "symbol"@ != "applied"@,
        "symbol"@ != "edits"@,
        "symbol"@ != "files"@,
        "symbol"@ != "applied_files"@,
        "symbol"@ != "applied_revision"@,
        "old_name"@ != "new_name"@,
        "old_name"@ != "target"@,
        "old_name"@ != "revision"@,
        "old_name"@ != "applied"@,
        "old_name"@ != "edits"@,
        "old_name"@ != "files"@,
        "old_name"@ != "applied_files"@,
        "old_name"@ != "applied_revision"@,
        "new_name"@ != "target"@,
        "new_name"@ != "revision"@,
        "new_name"@ != "applied"@,
        "new_name"@ != "edits"@,
        "new_name"@ != "files"@,
        "new_name"@ != "applied_files"@,
        "new_name"@ != "applied_revision"@,
        "target"@ != "revision"@,
        "target"@ != "applied"@,
        "target"@ != "edits"@,
        "target"@ != "files"@,
        "target"@ != "applied_files"@,
        "target"@ != "applied_revision"@,
        "revision"@ != "applied"@,
        "revision"@ != "edits"@,
        "revision"@ != "files"@,
        "revision"@ != "applied_files"@,
        "revision"@ != "applied_revision"@,
        "applied"@ != "edits"@,
        "applied"@ != "files"@,
        "applied"@ != "applied_files"@,
        "applied"@ != "applied_revision"@,
        "edits"@ != "files"@,
        "edits"@ != "applied_files"@,
        "edits"@ != "applied_revision"@,
        "files"@ != "applied_files"@,
        "files"@ != "applied_revision"@,
        "applied_files"@ != "applied_revision"@,
        "ops"@ != "revision"@,
        "ops"@ != "applied"@,
        "ops"@ != "edits"@,
        "ops"@ != "files"@,
        "ops"@ != "applied_files"@,
        "ops"@ != "applied_revision"@,
        "ops"@ != "ops_applied"@,
        "revision"@ != "ops_applied"@,
        "applied"@ != "ops_applied"@,
        "edits"@ != "ops_applied"@,
        "files"@ != "ops_applied"@,
        "applied_files"@ != "ops_applied"@,
        "applied_revision"@ != "ops_applied"@,
        "file"@ != "op"@,
        "file"@ != "span"@,
        "file"@ != "replace"@,
        "op"@ != "span"@,
        "op"@ != "replace"@,
        "span"@ != "replace"@,
        "start"@ != "end"@,
        "file"@ != "path"@,
        "file"@ != "text"@,
        "path"@ != "text"@,
{
    reveal_strlit("symbol");
    reveal_strlit("old_name");
    reveal_strlit("new_name");
    reveal_strlit("target");
    reveal_strlit("revision");
    reveal_strlit("applied");
    reveal_strlit("edits");
    reveal_strlit("files");
    reveal_strlit("applied_files");
    reveal_strlit("applied_revision");
    reveal_strlit("ops");
    reveal_strlit("ops_applied");
    reveal_strlit("file");
    reveal_strlit("op");
    reveal_strlit("span");
    reveal_strlit("replace");
    reveal_strlit("start");
    reveal_strlit("end");
    reveal_strlit("path");
    reveal_strlit("text");
    assert("symbol"@.len() != "old_name"@.len());
    assert("symbol"@.len() != "new_name"@.len());
    assert("symbol"@[0] != "target"@[0]);
    assert("symbol"@.len() != "revision"@.len());
    assert("symbol"@.len() != "applied"@.len());
    assert("symbol"@.len() != "edits"@.len());
    assert("symbol"@.len() != "files"@.len());
    assert("symbol"@.len() != "applied_files"@.len());
    assert("symbol"@.len() != "applied_revision"@.len());
    assert("old_name"@[0] != "new_name"@[0]);
    assert("old_name"@.len() != "target"@.len());
    assert("old_name"@[0] != "revision"@[0]);
    assert("old_name"@.len() != "applied"@.len());
    assert("old_name"@.len() != "edits"@.len());
    assert("old_name"@.len() != "files"@.len());
    assert("old_name"@.len() != "applied_files"@.len());
    assert("old_name"@.len() != "applied_revision"@.len());
    assert("new_name"@.len() != "target"@.len());
    assert("new_name"@[0] != "revision"@[0]);
    assert("new_name"@.len() != "applied"@.len());
    assert("new_name"@.len() != "edits"@.len());
    assert("new_name"@.len() != "files"@.len());
    assert("new_name"@.len() != "applied_files"@.len());
    assert("new_name"@.len() != "applied_revision"@.len());
    assert("target"@.len() != "revision"@.len());
    assert("target"@.len() != "applied"@.len());
    assert("target"@.len() != "edits"@.len());
    assert("target"@.len() != "files"@.len());
    assert("target"@.len() != "applied_files"@.len());
    assert("target"@.len() != "applied_revision"@.len());
    assert("revision"@.len() != "applied"@.len());
    assert("revision"@.len() != "edits"@.len());
    assert("revision"@.len() != "files"@.len());
    assert("revision"@.len() != "applied_files"@.len());
    assert("revision"@.len() != "applied_revision"@.len());
    assert("applied"@.len() != "edits"@.len());
    assert("applied"@.len() != "files"@.len());
    assert("applied"@.len() != "applied_files"@.len());
    assert("applied"@.len() != "applied_revision"@.len());
    assert("edits"@[0] != "files"@[0]);
    assert("edits"@.len() != "applied_files"@.len());
    assert("edits"@.len() != "applied_revision"@.len());
    assert("files"@.len() != "applied_files"@.len());
    assert("files"@.len() != "applied_revision"@.len());
    assert("applied_files"@.len() != "applied_revision"@.len());
    assert("ops"@.len() != "revision"@.len());
    assert("ops"@.len() != "applied"@.len());
    assert("ops"@.len() != "edits"@.len());
    assert("ops"@.len() != "files"@.len());
    assert("ops"@.len() != "applied_files"@.len());
    assert("ops"@.len() != "applied_revision"@.len());
    assert("ops"@.len() != "ops_applied"@.len());
    assert("revision"@.len() != "ops_applied"@.len());
    assert("applied"@.len() != "ops_applied"@.len());
    assert("edits"@.len() != "ops_applied"@.len());
    assert("files"@.len() != "ops_applied"@.len());
    assert("applied_files"@.len() != "ops_applied"@.len());
    assert("applied_revision"@.len() != "ops_applied"@.len());
    assert("file"@.len() != "op"@.len());
    assert("file"@[0] != "span"@[0]);
    assert("file"@.len() != "replace"@.len());
    assert("op"@.len() != "span"@.len());
    assert("op"@.len() != "replace"@.len());
    assert("span"@.len() != "replace"@.len());
    assert("start"@.len() != "end"@.len());
    assert("file"@[0] != "path"@[0]);
    assert("file"@[0] != "text"@[0]);
    assert("path"@[0] != "text"@[0]);
}

/// The text by which a file is called: its name, or its number where it
/// has none.
pub open spec fn called(files: Seq<SourceFileV>, f: usize, label: Seq<char>) -> bool {
    &&& f < files.len() ==> label == files[f as int].name
    &&& f >= files.len() ==> label == dec(f as nat)
}

/// The document of a rename shows the two names, each edit in order with
/// its own file, span and text, and each touched file in order.
pub proof fn law_rename_document(
    p: RenamePlanV,
    report: RenameReport,
    files: Seq<SourceFileV>,
    applied: bool,
    i: int,
    k: int,
)
    requires
        0 <= i < p.edits.len(),
        0 <= k < p.new_sources.len(),
    ensures
        forall|doc: JsonV| #[trigger]
            rename_documents(p, report, files, applied).contains(doc) ==> {
                &&& at_key(doc, "symbol"@) == JsonV::Str(p.symbol)
                &&& at_key(doc, "old_name"@) == JsonV::Str(p.old_name)
                &&& at_key(doc, "new_name"@) == JsonV::Str(p.new_name)
                &&& at_key(doc, "revision"@) == JsonV::Uint(p.revision)
                &&& size_of_array(at_key(doc, "edits"@)) == p.edits.len()
                &&& size_of_array(at_key(doc, "files"@)) == p.new_sources.len()
                &&& {
                    let e = item_at(at_key(doc, "edits"@), i);
                    &&& at_key(e, "file"@) matches JsonV::Str(label)
                    &&& called(files, p.edits[i].file.raw, label)
                    &&& shows_span(at_key(e, "span"@), p.edits[i].span)
                    &&& at_key(e, "replace"@) == JsonV::Str(p.edits[i].replace)
                }
                &&& item_at(at_key(doc, "files"@), k) matches JsonV::Str(label)
                &&& called(files, p.new_sources[k].0, label)
            },
        at_key(JsonV::Object(rename_members(p, files, applied)), "applied"@) == JsonV::Bool(applied),
        ({
            let done = JsonV::Object(rename_applied(p, report, files));
            &&& at_key(done, "applied"@) == JsonV::Bool(true)
            &&& at_key(done, "applied_revision"@) == JsonV::Uint(report.revision)
            &&& size_of_array(at_key(done, "applied_files"@)) == report.files@.len()
            &&& forall|q: int|
                0 <= q < report.files@.len() ==> (#[trigger] item_at(
                    at_key(done, "applied_files"@),
                    q,
                ) matches JsonV::Str(label) && called(files, report.files@[q], label))
        }),
{
    lemma_keys();
    let a = rename_members(p, files, applied);
    let b = rename_applied(p, report, files);
    assert(keys_apart(a));
    assert(keys_apart(b));
    let e = rename_edit_json(p.edits[i], files)->Object_0;
    assert(keys_apart(e));
    lemma_apart(e, 0);
    lemma_apart(e, 1);
    lemma_apart(e, 2);
    let sp = e[1].value->Object_0;
    assert(keys_apart(sp));
    lemma_apart(sp, 0);
    lemma_apart(sp, 1);
    lemma_apart(a, 0);
    lemma_apart(a, 1);
    lemma_apart(a, 2);
    lemma_apart(a, 4);
    lemma_apart(a, 5);
    lemma_apart(a, 6);
    lemma_apart(a, 7);
    lemma_apart(b, 0);
    lemma_apart(b, 1);
    lemma_apart(b, 2);
    lemma_apart(b, 4);
    lemma_apart(b, 5);
    lemma_apart(b, 6);
    lemma_apart(b, 7);
    lemma_apart(b, 8);
    lemma_apart(b, 9);
}

/// The documents of a rename: planned, and applied.
pub open spec fn rename_documents(
    p: RenamePlanV,
    report: RenameReport,
    files: Seq<SourceFileV>,
    applied: bool,
) -> Set<JsonV> {
    set![
        JsonV::Object(rename_members(p, files, applied)),
        JsonV::Object(rename_applied(p, report, files)),
    ]
}

/// The document of a patch shows each op in order, each edit in order
/// with its own file, op, span and text, and each touched file in order.
pub proof fn law_patch_document(
    p: PatchPlanV,
    report: PatchReport,
    files: Seq<SourceFileV>,
    applied: bool,
    i: int,
    k: int,
    o: int,
)
    requires
        0 <= i < p.edits.len(),
        0 <= k < p.new_sources.len(),
        0 <= o < p.ops.len(),
    ensures
        forall|doc: JsonV| #[trigger]
            patch_documents(p, report, files, applied).contains(doc) ==> {
                &&& size_of_array(at_key(doc, "ops"@)) == p.ops.len()
                &&& item_at(at_key(doc, "ops"@), o) == JsonV::Str(p.ops[o])
                &&& at_key(doc, "revision"@) == JsonV::Uint(p.revision)
                &&& size_of_array(at_key(doc, "edits"@)) == p.edits.len()
                &&& size_of_array(at_key(doc, "files"@)) == p.new_sources.len()
                &&& {
                    let e = item_at(at_key(doc, "edits"@), i);
                    &&& at_key(e, "file"@) matches JsonV::Str(label)
                    &&& called(files, p.edits[i].file.raw, label)
                    &&& at_key(e, "op"@) == JsonV::Uint(p.edits[i].op as u64)
                    &&& shows_span(at_key(e, "span"@), p.edits[i].span)
                    &&& at_key(e, "replace"@) == JsonV::Str(p.edits[i].replace)
                }
                &&& item_at(at_key(doc, "files"@), k) matches JsonV::Str(label)
                &&& called(files, p.new_sources[k].0, label)
            },
        at_key(JsonV::Object(patch_members(p, files, applied)), "applied"@) == JsonV::Bool(applied),
        ({
            let done = JsonV::Object(patch_applied(p, report, files));
            &&& at_key(done, "applied"@) == JsonV::Bool(true)
            &&& at_key(done, "applied_revision"@) == JsonV::Uint(report.revision)
            &&& at_key(done, "ops_applied"@) == JsonV::Uint(report.ops as u64)
            &&& size_of_array(at_key(done, "applied_files"@)) == report.files@.len()
            &&& forall|q: int|
                0 <= q < report.files@.len() ==> (#[trigger] item_at(
                    at_key(done, "applied_files"@),
                    q,
                ) matches JsonV::Str(label) && called(files, report.files@[q], label))
        }),
{
    lemma_keys();
    let a = patch_members(p, files, applied);
    let b = patch_applied(p, report, files);
    assert(keys_apart(a));
    assert(keys_apart(b));
    let e = patch_edit_json(p.edits[i], files)->Object_0;
    assert(keys_apart(e));
    lemma_apart(e, 0);
    lemma_apart(e, 1);
    lemma_apart(e, 2);
    lemma_apart(e, 3);
    let sp = e[2].value->Object_0;
    assert(keys_apart(sp));
    lemma_apart(sp, 0);
    lemma_apart(sp, 1);
    lemma_apart(a, 0);
    lemma_apart(a, 1);
    lemma_apart(a, 2);
    lemma_apart(a, 3);
    lemma_apart(a, 4);
    lemma_apart(b, 0);
    lemma_apart(b, 1);
    lemma_apart(b, 2);
    lemma_apart(b, 3);
    lemma_apart(b, 4);
    lemma_apart(b, 5);
    lemma_apart(b, 6);
    lemma_apart(b, 7);
}

/// The documents of a patch: planned, and applied.
pub open spec fn patch_documents(
    p: PatchPlanV,
    report: PatchReport,
    files: Seq<SourceFileV>,
    applied: bool,
) -> Set<JsonV> {
    set![
        JsonV::Object(patch_members(p, files, applied)),
        JsonV::Object(patch_applied(p, report, files)),
    ]
}

/// The entry of a new text shows the file that it is for, the path at
/// which that file lies, and the whole text.
pub proof fn law_new_text_entry(n: (usize, Seq<char>), files: Seq<SourceFileV>)
    ensures
        at_key(new_source_json(n, files), "text"@) == JsonV::Str(n.1),
        at_key(new_source_json(n, files), "file"@) matches JsonV::Str(label) && called(
            files,
            n.0,
            label,
        ),
        n.0 < files.len() && files[n.0 as int].path is Some ==> at_key(
            new_source_json(n, files),
            "path"@,
        ) == JsonV::Str(crate::paths::path_display(files[n.0 as int].path->0)),
        n.0 >= files.len() || files[n.0 as int].path is None ==> at_key(
            new_source_json(n, files),
            "path"@,
        ) == JsonV::Null,
{
    lemma_keys();
    let ms = new_source_json(n, files)->Object_0;
    assert(keys_apart(ms));
    lemma_apart(ms, 0);
    lemma_apart(ms, 1);
    lemma_apart(ms, 2);
}

} // verus!
