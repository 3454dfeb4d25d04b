//! `fmt` — canonical formatting: per-file outcomes, the payload shape,
//! and what a run writes and prints.
//!
//! - Without flags, each file's canonical form goes to stdout: the
//!   preview. Nothing is written.
//! - `--check` writes nothing and exits non-zero when any file would
//!   change.
//! - `--write` persists every changed file in one staged transaction.
//! - A file with parse diagnostics is never reformatted: its diagnostics
//!   surface, and the file is skipped.

use crate::commit::to_bytes;
use crate::diagnostic::{diags, stamped, DiagnosticV, Diagnostics};
use crate::envelope::{
    diags_code, envelope_json, envelope_of, exit_code, emit_human_diags, with_diagnostics, Envelope,
    EnvelopeV,
};
use crate::json::{
    json_array, json_object, json_str, jsons, mem, members, no_items, no_members, put, put_item,
    Json, JsonV,
};
use crate::paths::{path_display, FsPath, FsPathV};
use crate::persist::{tx_files, TxFile, TxFileV};
use crate::render::all_rendered_in;
use crate::source::FileId;
use crate::source_file::{source_files, SourceFile, SourceFileV};
use crate::text::{bytes_of, opt_text, same};
use vstd::prelude::*;
use vstd::string::*;

verus! {

/// One input file's format outcome.
#[derive(Debug)]
pub struct FileResult {
    /// Display path as given on the command line.
    pub file: String,
    /// Whether the canonical form differs from the input; `None` on
    /// parse failure.
    pub changed: Option<bool>,
    /// The canonical text — `None` on parse failure.
    pub formatted: Option<String>,
    /// Whether `--write` actually persisted this file.
    pub written: bool,
}

/// Model of [`FileResult`].
#[verifier::ext_equal]
pub struct FileResultV {
    pub file: Seq<char>,
    pub changed: Option<bool>,
    pub formatted: Option<Seq<char>>,
    pub written: bool,
}

impl FileResult {
    /// The model of this result.
    pub open spec fn view(&self) -> FileResultV {
        FileResultV {
            file: self.file@,
            changed: self.changed,
            formatted: opt_text(self.formatted),
            written: self.written,
        }
    }
}

/// The models of a sequence of results.
pub open spec fn file_results(v: Seq<FileResult>) -> Seq<FileResultV> {
    Seq::new(v.len(), |i: int| v[i]@)
}

/// Whether a file's canonical form differs.
pub open spec fn differs(r: FileResultV) -> bool {
    r.changed == Some(true)
}

/// Whether any file would change.
pub open spec fn would_change(rs: Seq<FileResultV>) -> bool {
    exists|i: int| 0 <= i < rs.len() && differs(#[trigger] rs[i])
}

/// One result as JSON.
pub open spec fn file_json(r: FileResultV) -> JsonV {
    JsonV::Object(
        seq![
            mem("file"@, JsonV::Str(r.file)),
            mem(
                "changed"@,
                match r.changed {
                    Some(b) => JsonV::Bool(b),
                    None => JsonV::Null,
                },
            ),
            mem(
                "formatted"@,
                match r.formatted {
                    Some(t) => JsonV::Str(t),
                    None => JsonV::Null,
                },
            ),
            mem("written"@, JsonV::Bool(r.written)),
        ],
    )
}

/// The `result` payload of `fmt` envelopes.
pub open spec fn result_json_of(rs: Seq<FileResultV>) -> JsonV {
    JsonV::Object(
        seq![
            mem("would_change"@, JsonV::Bool(would_change(rs))),
            mem("files"@, JsonV::Array(Seq::new(rs.len(), |i: int| file_json(rs[i])))),
        ],
    )
}

fn changed_true(r: &FileResult) -> (b: bool)
    ensures
        b == differs(r@),
{
    match r.changed {
        Some(c) => c,
        None => false,
    }
}

fn any_change(rs: &Vec<FileResult>) -> (b: bool)
    ensures
        b == would_change(file_results(rs@)),
{
    let mut i: usize = 0;
    while i < rs.len()
        invariant
            i <= rs@.len(),
            forall|j: int| 0 <= j < i ==> !differs(#[trigger] file_results(rs@)[j]),
        decreases rs@.len() - i,
    {
        assert(file_results(rs@)[i as int] == rs@[i as int]@);
        if changed_true(&rs[i]) {
            return true;
        }
        i += 1;
    }
    false
}

/// The `result` payload of `fmt` envelopes.
pub fn result_json(rs: &Vec<FileResult>) -> (r: Json)
    ensures
        r@ == result_json_of(file_results(rs@)),
{
    let ghost all = Seq::new(rs@.len(), |i: int| file_json(file_results(rs@)[i]));
    let mut out = no_items();
    let mut i: usize = 0;
    proof {
        assert(all.take(0) =~= Seq::empty());
    }
    while i < rs.len()
        invariant
            i <= rs@.len(),
            all == Seq::new(rs@.len(), |j: int| file_json(file_results(rs@)[j])),
            jsons(out@) == all.take(i as int),
        decreases rs@.len() - i,
    {
        let f = &rs[i];
        let changed = match f.changed {
            Some(b) => Json::Bool(b),
            None => Json::Null,
        };
        let formatted = match &f.formatted {
            Some(t) => json_str(t.as_str()),
            None => Json::Null,
        };
        let mut ms = no_members();
        put(&mut ms, "file", json_str(f.file.as_str()));
        put(&mut ms, "changed", changed);
        put(&mut ms, "formatted", formatted);
        put(&mut ms, "written", Json::Bool(f.written));
        proof {
            assert(file_results(rs@)[i as int] == f@);
            assert(members(ms@) =~= file_json(f@)->Object_0);
        }
        put_item(&mut out, json_object(ms));
        i += 1;
        proof {
            assert(all.take(i as int) =~= all.take(i - 1).push(all[i - 1]));
        }
    }
    let mut ms = no_members();
    put(&mut ms, "would_change", Json::Bool(any_change(rs)));
    put(&mut ms, "files", json_array(out));
    proof {
        assert(all.take(all.len() as int) =~= all);
        assert(members(ms@) =~= result_json_of(file_results(rs@))->Object_0);
    }
    json_object(ms)
}

// ---------- a run ----------

/// A run over the files of one command.
pub struct FmtRun {
    files: Vec<SourceFile>,
    paths: Vec<FsPath>,
    diags: Diagnostics,
    results: Vec<FileResult>,
}

/// Model of [`FmtRun`].
#[verifier::ext_equal]
pub struct FmtRunV {
    pub files: Seq<SourceFileV>,
    pub paths: Seq<FsPathV>,
    pub diags: Seq<DiagnosticV>,
    pub results: Seq<FileResultV>,
}

/// Diagnostics tagged with a file.
pub open spec fn tagged_with(ds: Seq<DiagnosticV>, f: FileId) -> Seq<DiagnosticV> {
    Seq::new(ds.len(), |i: int| stamped(ds[i], Some(f)))
}

/// What formatting a file yielded: its canonical text, or diagnostics.
pub open spec fn outcome_view(r: Result<String, Diagnostics>) -> Result<
    Seq<char>,
    Seq<DiagnosticV>,
> {
    match r {
        Ok(t) => Ok(t@),
        Err(d) => Err(d@),
    }
}

/// A run after one more file was formatted.
pub open spec fn with_file(
    run: FmtRunV,
    path: FsPathV,
    text: Seq<char>,
    outcome: Result<Seq<char>, Seq<DiagnosticV>>,
) -> FmtRunV {
    let name = path_display(path);
    FmtRunV {
        files: run.files.push(SourceFileV { name, path: Some(path), text }),
        paths: run.paths.push(path),
        diags: match outcome {
            Ok(_) => run.diags,
            Err(ds) => run.diags + tagged_with(ds, FileId { raw: run.files.len() as usize }),
        },
        results: run.results.push(
            match outcome {
                Ok(t) => FileResultV {
                    file: name,
                    changed: Some(t != text),
                    formatted: Some(t),
                    written: false,
                },
                Err(_) => FileResultV {
                    file: name,
                    changed: None,
                    formatted: None,
                    written: false,
                },
            },
        ),
    }
}

/// The files `--write` commits: every changed one, from what was read to
/// its canonical form.
pub open spec fn rewritten(run: FmtRunV, k: int) -> Seq<TxFileV>
    decreases k,
{
    if k <= 0 {
        Seq::empty()
    } else {
        let front = rewritten(run, k - 1);
        match run.results[k - 1].formatted {
            Some(t) => if differs(run.results[k - 1]) {
                front.push(
                    TxFileV {
                        path: run.paths[k - 1],
                        before: bytes_of(run.files[k - 1].text),
                        after: bytes_of(t),
                    },
                )
            } else {
                front
            },
            None => front,
        }
    }
}

/// A run after its changed files were written.
pub open spec fn after_write(run: FmtRunV) -> FmtRunV {
    FmtRunV {
        results: Seq::new(
            run.results.len(),
            |i: int|
                FileResultV {
                    written: run.results[i].written || differs(run.results[i]),
                    ..run.results[i]
                },
        ),
        ..run
    }
}

/// What a command writes to stdout and stderr, and its exit code.
pub struct Output {
    /// Text for stdout.
    pub out: String,
    /// Text for stderr.
    pub err: String,
    /// The exit code.
    pub code: u8,
}

/// The lines of the files that satisfy a condition.
pub open spec fn listed(rs: Seq<FileResultV>, k: int, written: bool, suffix: Seq<char>) -> Seq<char>
    decreases k,
{
    if k <= 0 {
        Seq::empty()
    } else {
        let front = listed(rs, k - 1, written, suffix);
        let r = rs[k - 1];
        if if written {
            r.written
        } else {
            differs(r)
        } {
            front + r.file + suffix
        } else {
            front
        }
    }
}

/// The canonical texts, one after the other.
pub open spec fn previewed(rs: Seq<FileResultV>, k: int) -> Seq<char>
    decreases k,
{
    if k <= 0 {
        Seq::empty()
    } else {
        let front = previewed(rs, k - 1);
        match rs[k - 1].formatted {
            Some(t) => front + t,
            None => front,
        }
    }
}

/// The exit code of a run: `--check` failing is a verdict, not a command
/// error.
pub open spec fn fmt_code(run: FmtRunV, check: bool, code: u8) -> u8 {
    if code == 0 && check && would_change(run.results) {
        1
    } else {
        code
    }
}

/// The envelope of a run.
pub open spec fn fmt_envelope(run: FmtRunV) -> EnvelopeV {
    EnvelopeV {
        result: result_json_of(run.results),
        ..with_diagnostics(envelope_of("fmt"@), run.diags, run.files)
    }
}

impl FmtRun {
    /// The model of this run.
    pub closed spec fn view(&self) -> FmtRunV {
        FmtRunV {
            files: source_files(self.files@),
            paths: crate::paths::fs_paths(self.paths@),
            diags: self.diags@,
            results: file_results(self.results@),
        }
    }

    /// Whether every file has a path and a result.
    pub closed spec fn wf(&self) -> bool {
        self.files@.len() == self.results@.len() && self.paths@.len() == self.results@.len()
    }

    /// A run over nothing.
    pub fn new() -> (r: FmtRun)
        ensures
            r.wf(),
            r@ == (FmtRunV {
                files: Seq::empty(),
                paths: Seq::empty(),
                diags: Seq::empty(),
                results: Seq::empty(),
            }),
    {
        let r = FmtRun {
            files: Vec::new(),
            paths: Vec::new(),
            diags: Diagnostics::new(),
            results: Vec::new(),
        };
        proof {
            assert(source_files(r.files@) =~= Seq::empty());
            assert(crate::paths::fs_paths(r.paths@) =~= Seq::empty());
            assert(file_results(r.results@) =~= Seq::empty());
        }
        r
    }

    /// Adds a file: what was read, and what the formatter yielded.
    pub fn add_file(&mut self, path: FsPath, text: String, outcome: Result<String, Diagnostics>)
        requires
            old(self).wf(),
        ensures
            final(self).wf(),
            final(self)@ == with_file(old(self)@, path@, text@, outcome_view(outcome)),
    {
        let ghost before = self@;
        let ghost pv = path@;
        let ghost tv = text@;
        let name = path.display();
        let fid = FileId { raw: self.files.len() };
        let result = match outcome {
            Ok(formatted) => {
                let changed = !same(formatted.as_str(), text.as_str());
                FileResult {
                    file: name.clone(),
                    changed: Some(changed),
                    formatted: Some(formatted),
                    written: false,
                }
            },
            Err(ds) => {
                let mark = self.diags.len();
                let ghost dv = ds@;
                self.diags.extend(ds);
                self.diags.tag_file_from(mark, fid);
                proof {
                    assert(self.diags@ =~= before.diags + tagged_with(dv, fid));
                }
                FileResult { file: name.clone(), changed: None, formatted: None, written: false }
            },
        };
        let ghost rv = result@;
        self.results.push(result);
        self.files.push(SourceFile { name, path: Some(path.copy()), text });
        self.paths.push(path);
        proof {
            assert(file_results(self.results@) =~= before.results.push(rv));
            assert(source_files(self.files@) =~= before.files.push(
                SourceFileV { name: path_display(pv), path: Some(pv), text: tv },
            ));
            assert(crate::paths::fs_paths(self.paths@) =~= before.paths.push(pv));
        }
    }

    /// The files `--write` commits.
    pub fn changed_files(&self) -> (r: Vec<TxFile>)
        requires
            self.wf(),
        ensures
            tx_files(r@) == rewritten(self@, self@.results.len() as int),
    {
        let mut out: Vec<TxFile> = Vec::new();
        let mut i: usize = 0;
        proof {
            assert(tx_files(out@) =~= Seq::empty());
        }
        while i < self.results.len()
            invariant
                self.wf(),
                i <= self.results@.len(),
                tx_files(out@) == rewritten(self@, i as int),
            decreases self.results@.len() - i,
        {
            assert(self@.results[i as int] == self.results@[i as int]@);
            assert(self@.files[i as int] == self.files@[i as int]@);
            assert(self@.paths[i as int] == self.paths@[i as int]@);
            if changed_true(&self.results[i]) {
                if let Some(t) = &self.results[i].formatted {
                    let f = TxFile {
                        path: self.paths[i].copy(),
                        before: to_bytes(self.files[i].text.as_str()),
                        after: to_bytes(t.as_str()),
                    };
                    let ghost fv = f@;
                    let ghost before = tx_files(out@);
                    out.push(f);
                    proof {
                        assert(tx_files(out@) =~= before.push(fv));
                    }
                }
            }
            i += 1;
        }
        out
    }

    /// Records that the changed files were written.
    pub fn mark_written(&mut self)
        requires
            old(self).wf(),
        ensures
            final(self).wf(),
            final(self)@ == after_write(old(self)@),
    {
        let ghost before = self@;
        let mut i: usize = 0;
        while i < self.results.len()
            invariant
                i <= self.results@.len(),
                self.results@.len() == before.results.len(),
                self.files == old(self).files,
                self.paths == old(self).paths,
                self.diags == old(self).diags,
                before == old(self)@,
                forall|j: int|
                    0 <= j < before.results.len() ==> (#[trigger] self.results@[j])@ == (if j < i {
                        after_write(before).results[j]
                    } else {
                        before.results[j]
                    }),
            decreases self.results@.len() - i,
        {
            if changed_true(&self.results[i]) {
                self.results[i].written = true;
            }
            i += 1;
        }
        proof {
            assert(file_results(self.results@) =~= after_write(before).results);
        }
    }

    /// Whether any file would change.
    pub fn would_change(&self) -> (r: bool)
        ensures
            r == would_change(self@.results),
    {
        any_change(&self.results)
    }

    /// The document of the run, and the exit code.
    pub fn document(&self, check: bool) -> (r: (Json, u8))
        requires
            self@.diags.len() > 0 ==> self@.files.len() > 0,
        ensures
            r.0@ == envelope_json(fmt_envelope(self@)),
            r.1 == fmt_code(self@, check, exit_code(fmt_envelope(self@))),
    {
        let (doc, code) = Envelope::new("fmt").diagnostics(&self.diags, &self.files).result(
            result_json(&self.results),
        ).into_parts();
        let code: u8 = if code == 0 && check && any_change(&self.results) {
            1
        } else {
            code
        };
        (doc, code)
    }

    fn list(&self, written: bool, suffix: &str) -> (r: String)
        ensures
            r@ == listed(self@.results, self@.results.len() as int, written, suffix@),
    {
        let ghost all = self@.results;
        let mut out = String::new();
        let mut i: usize = 0;
        proof {
            assert(out@ =~= Seq::empty());
        }
        while i < self.results.len()
            invariant
                i <= self.results@.len(),
                all == file_results(self.results@),
                out@ == listed(all, i as int, written, suffix@),
            decreases self.results@.len() - i,
        {
            assert(all[i as int] == self.results@[i as int]@);
            let take = if written {
                self.results[i].written
            } else {
                changed_true(&self.results[i])
            };
            if take {
                out.append(self.results[i].file.as_str());
                out.append(suffix);
            }
            i += 1;
        }
        out
    }

    fn preview(&self) -> (r: String)
        ensures
            r@ == previewed(self@.results, self@.results.len() as int),
    {
        let ghost all = self@.results;
        let mut out = String::new();
        let mut i: usize = 0;
        proof {
            assert(out@ =~= Seq::empty());
        }
        while i < self.results.len()
            invariant
                i <= self.results@.len(),
                all == file_results(self.results@),
                out@ == previewed(all, i as int),
            decreases self.results@.len() - i,
        {
            assert(all[i as int] == self.results@[i as int]@);
            if let Some(t) = &self.results[i].formatted {
                out.append(t.as_str());
            }
            i += 1;
        }
        out
    }

    /// What the run prints for humans: diagnostics, then the paths that
    /// would change (`check`), the files written (`write`), or the
    /// canonical texts.
    pub fn human(&self, check: bool, write: bool) -> (r: Output)
        requires
            self@.diags.len() > 0 ==> self@.files.len() > 0,
        ensures
            ({
                let rs = self@.results;
                let n = rs.len() as int;
                let shown = all_rendered_in(
                    self@.diags,
                    self@.diags.len() as int,
                    self@.files,
                );
                if check {
                    &&& r.out@ == listed(rs, n, false, "\n"@)
                    &&& r.err@ == shown
                    &&& r.code == fmt_code(self@, true, diags_code(self@.diags))
                } else if write {
                    &&& r.out@ == Seq::<char>::empty()
                    &&& r.err@ == shown + listed(rs, n, true, ": formatted\n"@)
                    &&& r.code == diags_code(self@.diags)
                } else {
                    &&& r.out@ == previewed(rs, n)
                    &&& r.err@ == shown
                    &&& r.code == diags_code(self@.diags)
                }
            }),
    {
        let (err, code) = emit_human_diags(&self.diags, &self.files);
        if check {
            let code: u8 = if code == 0 && any_change(&self.results) {
                1
            } else {
                code
            };
            return Output { out: self.list(false, "\n"), err, code };
        }
        if write {
            let lines = self.list(true, ": formatted\n");
            let mut all = err;
            all.append(lines.as_str());
            let out = String::new();
            proof {
                assert(out@ =~= Seq::empty());
            }
            return Output { out, err: all, code };
        }
        Output { out: self.preview(), err, code }
    }
}

/// Whether a path is that of one of the first `k` files, and that file's
/// canonical form differs from what was read.
pub open spec fn of_changed(run: FmtRunV, k: int, path: FsPathV) -> bool {
    exists|j: int| 0 <= j < k && differs(#[trigger] run.results[j]) && path == run.paths[j]
}

proof fn lemma_rewritten(run: FmtRunV, k: int, i: int)
    requires
        0 <= i < rewritten(run, k).len(),
    ensures
        of_changed(run, k, rewritten(run, k)[i].path),
    decreases k,
{
    let front = rewritten(run, k - 1);
    let out = rewritten(run, k);
    if i < front.len() {
        lemma_rewritten(run, k - 1, i);
        assert(out[i] == front[i]);
        let j = choose|j: int|
            0 <= j < k - 1 && differs(#[trigger] run.results[j]) && front[i].path == run.paths[j];
        assert(differs(run.results[j]));
    } else {
        assert(differs(run.results[k - 1]));
    }
}

/// `--write` touches no file whose canonical form is what was read, and
/// no file that did not parse.
pub proof fn law_write_touches_changed_only(run: FmtRunV, i: int)
    requires
        0 <= i < rewritten(run, run.results.len() as int).len(),
    ensures
        of_changed(
            run,
            run.results.len() as int,
            rewritten(run, run.results.len() as int)[i].path,
        ),
{
    lemma_rewritten(run, run.results.len() as int, i);
}

} // verus!
