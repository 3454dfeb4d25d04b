//! Planning and applying a patch.
//!
//! A plan is computed in two steps around one compile of the candidate:
//! [`prepare_patch`] resolves the ops and splices the candidate sources,
//! and [`finish_patch`] turns what the compiler said of them into a plan
//! or a rejection. [`apply_patch`] re-verifies a plan's provenance and
//! then installs every edited file in one revision: either all edits
//! land or none do.

use crate::ast::AstModuleV;
use crate::code::{code_text, Code};
use crate::diagnostic::{
    any_error, diags, error_of, errors_in, Diagnostic, DiagnosticV, Diagnostics, Severity,
};
use crate::order::{lemma_sorted_mapped, mapped, sort_by, sorted};
use crate::patch::{
    check_op, declared_name, edits_view, malformed, malformed_of, op_error, Lexed, PatchEdit,
    PatchEditV, PatchError, PatchErrorV, PatchOp, Probe, MAX_PATCH_OPS,
};
use crate::patch_edits::op_edits_of;
use crate::paths::{join, joined};
use crate::persist::fnv;
use crate::session::{
    installed, slot_bytes, sources_fingerprint, text_bytes, Session, SessionV,
};
use crate::snapshot::{texts_fit, SnapV, Snapshot};
use crate::source::{FileId, Span};
use crate::splice::{
    edit_views, file_texts, later_first, of_file, splice_sources, spliced_files, EditV, RenameEdit,
};
use crate::text::{cat2, cat3, cat5, cat6, dec, decimal, opt_text, same, slice, slice_spec, texts};
use vstd::prelude::*;

verus! {

/// What the syntax stages say of an op's payload.
#[verifier::ext_equal]
pub struct ProbeV {
    pub name: Lexed,
    pub ast: AstModuleV,
    pub diags: Seq<DiagnosticV>,
}

impl Probe {
    /// The model of this probe.
    pub open spec fn view(&self) -> ProbeV {
        ProbeV { name: self.name, ast: self.parsed.ast@, diags: self.parsed.diags@ }
    }
}

/// The models of a sequence of probes.
pub open spec fn probes_view(v: Seq<Probe>) -> Seq<ProbeV> {
    Seq::new(v.len(), |i: int| v[i]@)
}

// ---------- overlap ----------

/// Whether two edits overlap within one file — half-open ranges, so
/// adjacent spans and same-point insertions are fine.
pub open spec fn overlap(a: PatchEditV, b: PatchEditV) -> bool {
    a.file == b.file && a.span.start < b.span.end && b.span.start < a.span.end
}

/// Whether no two edits overlap.
pub open spec fn no_overlap(es: Seq<PatchEditV>) -> bool {
    forall|i: int, j: int| 0 <= i < j < es.len() ==> !overlap(#[trigger] es[i], #[trigger] es[j])
}

/// The first overlapping pair: no edit before `i` overlaps a later one,
/// and `j` is the first behind `i` that does.
pub open spec fn first_overlap(es: Seq<PatchEditV>, i: int, j: int) -> bool {
    &&& 0 <= i < j < es.len()
    &&& overlap(es[i], es[j])
    &&& forall|a: int, b: int|
        0 <= a < i && a < b < es.len() ==> !overlap(#[trigger] es[a], #[trigger] es[b])
    &&& forall|b: int| i < b < j ==> !overlap(es[i], #[trigger] es[b])
}

/// The rejection of an overlapping pair.
pub open spec fn overlap_error(a: PatchEditV, b: PatchEditV) -> PatchErrorV {
    malformed_of(
        "ops["@ + dec(a.op as nat) + "] and ops["@ + dec(b.op as nat)
            + "] edit overlapping spans in file "@ + dec(a.file.raw as nat),
    )
}

/// Two edits conflict when their spans overlap within one file; the
/// first such pair is reported.
pub fn check_overlap(edits: &Vec<PatchEdit>) -> (r: Result<(), PatchError>)
    ensures
        match r {
            Ok(_) => no_overlap(edits_view(edits@)),
            Err(e) => exists|i: int, j: int| #[trigger]
                first_overlap(edits_view(edits@), i, j) && e@ == overlap_error(
                    edits_view(edits@)[i],
                    edits_view(edits@)[j],
                ),
        },
{
    let ghost es = edits_view(edits@);
    let n: usize = edits.len();
    let mut i: usize = 0;
    while i < n
        invariant
            i <= n,
            n == edits@.len(),
            es == edits_view(edits@),
            forall|a: int, b: int|
                0 <= a < i && a < b < es.len() ==> !overlap(#[trigger] es[a], #[trigger] es[b]),
        decreases n - i,
    {
        let a = &edits[i];
        assert(a@ == es[i as int]);
        let mut j: usize = i + 1;
        while j < n
            invariant
                i < j <= n,
                n == edits@.len(),
                es == edits_view(edits@),
                a@ == es[i as int],
                forall|x: int, b: int|
                    0 <= x < i && x < b < es.len() ==> !overlap(
                        #[trigger] es[x],
                        #[trigger] es[b],
                    ),
                forall|b: int| i < b < j ==> !overlap(es[i as int], #[trigger] es[b]),
            decreases n - j,
        {
            let b = &edits[j];
            assert(b@ == es[j as int]);
            if a.file == b.file && a.span.start < b.span.end && b.span.start < a.span.end {
                let x = decimal(a.op as u64);
                let y = decimal(b.op as u64);
                let f = decimal(a.file.raw as u64);
                let e = malformed(
                    cat6(
                        "ops[",
                        x.as_str(),
                        "] and ops[",
                        y.as_str(),
                        "] edit overlapping spans in file ",
                        f.as_str(),
                    ),
                );
                assert(first_overlap(es, i as int, j as int));
                return Err(e);
            }
            j += 1;
        }
        i += 1;
    }
    Ok(())
}

// ---------- baseline ----------

/// The refusal of a workspace that reports errors already.
pub open spec fn baseline_error(ds: Seq<DiagnosticV>, subject: Seq<char>, what: Seq<char>) -> Option<
    DiagnosticV,
> {
    if any_error(ds) {
        Some(
            error_of(
                Code::BaselineErrors,
                "workspace reports "@ + dec(errors_in(ds)) + " error(s); "@ + what
                    + " requires a clean baseline"@,
            ).with_subject(subject),
        )
    } else {
        None
    }
}

/// A plan requires a workspace without errors: what a candidate reports
/// is then new.
pub fn check_baseline(ds: &Diagnostics, subject: &str, what: &str) -> (r: Option<Diagnostic>)
    ensures
        match r {
            Some(d) => baseline_error(ds@, subject@, what@) == Some(d@),
            None => baseline_error(ds@, subject@, what@) is None,
        },
{
    if ds.has_errors() {
        let n = decimal(ds.error_count() as u64);
        Some(
            Diagnostic::error(
                Code::BaselineErrors,
                cat5(
                    "workspace reports ",
                    n.as_str(),
                    " error(s); ",
                    what,
                    " requires a clean baseline",
                ),
            ).subject(subject.to_string()),
        )
    } else {
        None
    }
}

// ---------- the candidate ----------

/// The first error that the payload checks find.
pub open spec fn payload_error(ops: Seq<PatchOp>, ps: Seq<ProbeV>) -> Option<PatchErrorV>
    decreases ops.len(),
{
    if ops.len() == 0 {
        None
    } else {
        match payload_error(ops.drop_last(), ps) {
            Some(e) => Some(e),
            None => {
                let i = ops.len() - 1;
                op_error(i as usize, ops[i], ps[i].name, ps[i].ast, ps[i].diags)
            },
        }
    }
}

/// The edits and summaries of a list of ops, in order.
#[verifier::ext_equal]
pub struct ResolvedV {
    pub edits: Seq<PatchEditV>,
    pub ops: Seq<Seq<char>>,
}

/// Resolves a list of ops, or gives the first refusal.
pub open spec fn resolve_ops_of(s: SnapV, root: FileId, ops: Seq<PatchOp>, ps: Seq<ProbeV>) -> Result<
    ResolvedV,
    PatchErrorV,
>
    decreases ops.len(),
{
    if ops.len() == 0 {
        Ok(ResolvedV { edits: Seq::empty(), ops: Seq::empty() })
    } else {
        match resolve_ops_of(s, root, ops.drop_last(), ps) {
            Err(e) => Err(e),
            Ok(done) => {
                let i = ops.len() - 1;
                match op_edits_of(s, root, i as usize, ops[i], declared_name(ops[i], ps[i].ast)) {
                    Err(e) => Err(e),
                    Ok(x) => Ok(
                        ResolvedV {
                            edits: done.edits + x.edits,
                            ops: done.ops.push(x.summary),
                        },
                    ),
                }
            },
        }
    }
}

/// Splice order: later sites first; of several insertions at one point
/// the later op first, so that op order in the spec becomes op order in
/// the file.
pub open spec fn splice_order() -> spec_fn(PatchEditV, PatchEditV) -> bool {
    |a: PatchEditV, b: PatchEditV|
        a.span.start > b.span.start || (a.span.start == b.span.start && a.op >= b.op)
}

/// Preview order: by file, then site, then op.
pub open spec fn preview_order() -> spec_fn(PatchEditV, PatchEditV) -> bool {
    |a: PatchEditV, b: PatchEditV|
        a.file.raw < b.file.raw || (a.file.raw == b.file.raw && (a.span.start < b.span.start || (
        a.span.start == b.span.start && a.op <= b.op)))
}

/// An edit without its provenance.
pub open spec fn bare(e: PatchEditV) -> EditV {
    EditV { file: e.file, span: e.span, replace: e.replace }
}

/// Edits without their provenance.
pub open spec fn bares(es: Seq<PatchEditV>) -> Seq<EditV> {
    Seq::new(es.len(), |i: int| bare(es[i]))
}

/// The candidate sources of a list of edits.
pub open spec fn candidate_of(sources: Seq<Seq<char>>, es: Seq<PatchEditV>) -> Seq<
    (usize, Seq<char>),
> {
    spliced_files(sources, bares(sorted(es, splice_order())), sources.len() as int)
}

/// A patch whose ops are resolved and spliced, but not compiled.
#[derive(Debug)]
pub struct Candidate {
    /// The workspace root.
    pub root: usize,
    /// One-line op summaries, in spec order.
    pub ops: Vec<String>,
    /// Every edit, in spec order.
    pub edits: Vec<PatchEdit>,
    /// `(file, post-edit text)` for every touched file.
    pub new_sources: Vec<(usize, String)>,
}

/// Model of [`Candidate`].
#[verifier::ext_equal]
pub struct CandidateV {
    pub root: usize,
    pub ops: Seq<Seq<char>>,
    pub edits: Seq<PatchEditV>,
    pub new_sources: Seq<(usize, Seq<char>)>,
}

impl Candidate {
    /// The model of this candidate.
    pub open spec fn view(&self) -> CandidateV {
        CandidateV {
            root: self.root,
            ops: texts(self.ops@),
            edits: edits_view(self.edits@),
            new_sources: file_texts(self.new_sources@),
        }
    }
}

/// How a patch names itself in diagnostics.
pub open spec fn patch_subject(n: nat) -> Seq<char> {
    "patch ("@ + dec(n) + " op(s))"@
}

/// What is wrong with a patch before its ops are resolved.
pub open spec fn spec_error(ops: Seq<PatchOp>, ps: Seq<ProbeV>, baseline: Seq<DiagnosticV>) -> Option<
    PatchErrorV,
> {
    if ops.len() == 0 {
        Some(malformed_of("the patch contains no operations"@))
    } else if ops.len() > MAX_PATCH_OPS {
        Some(
            malformed_of(
                "the patch has "@ + dec(ops.len()) + " operations; the limit is 64"@,
            ),
        )
    } else {
        match payload_error(ops, ps) {
            Some(e) => Some(e),
            None => match baseline_error(baseline, patch_subject(ops.len()), "patch"@) {
                Some(d) => Some(PatchErrorV::BaselineErrors(d)),
                None => None,
            },
        }
    }
}

/// The view of a preparation's result.
pub open spec fn prepare_result(r: Result<Candidate, PatchError>) -> Result<CandidateV, PatchErrorV> {
    match r {
        Ok(c) => Ok(c@),
        Err(e) => Err(e@),
    }
}

fn check_payloads(ops: &Vec<PatchOp>, probes: &Vec<Probe>) -> (r: Result<
    Vec<Option<String>>,
    PatchError,
>)
    requires
        ops@.len() == probes@.len(),
    ensures
        match r {
            Ok(v) => {
                &&& payload_error(ops@, probes_view(probes@)) is None
                &&& v@.len() == ops@.len()
                &&& forall|i: int|
                    0 <= i < ops@.len() ==> opt_text(#[trigger] v@[i]) == declared_name(
                        ops@[i],
                        probes@[i].parsed.ast@,
                    )
            },
            Err(e) => payload_error(ops@, probes_view(probes@)) == Some(e@),
        },
{
    let ghost ps = probes_view(probes@);
    let mut out: Vec<Option<String>> = Vec::new();
    let mut i: usize = 0;
    proof {
        assert(ops@.take(0) =~= Seq::empty());
    }
    while i < ops.len()
        invariant
            i <= ops@.len(),
            ops@.len() == probes@.len(),
            ps == probes_view(probes@),
            payload_error(ops@.take(i as int), ps) is None,
            out@.len() == i,
            forall|k: int|
                0 <= k < i ==> opt_text(#[trigger] out@[k]) == declared_name(
                    ops@[k],
                    probes@[k].parsed.ast@,
                ),
        decreases ops@.len() - i,
    {
        proof {
            assert(ops@.take(i + 1).drop_last() =~= ops@.take(i as int));
            assert(ps[i as int] == probes@[i as int]@);
        }
        match check_op(i, &ops[i], &probes[i]) {
            Ok(n) => {
                out.push(n);
            },
            Err(e) => {
                proof {
                    lemma_payload_error_stable(ops@, ps, i + 1);
                }
                return Err(e);
            },
        }
        i += 1;
    }
    proof {
        assert(ops@.take(ops@.len() as int) =~= ops@);
    }
    Ok(out)
}

proof fn lemma_payload_error_stable(ops: Seq<PatchOp>, ps: Seq<ProbeV>, n: int)
    requires
        0 <= n <= ops.len(),
        payload_error(ops.take(n), ps) is Some,
    ensures
        payload_error(ops, ps) == payload_error(ops.take(n), ps),
    decreases ops.len() - n,
{
    if n < ops.len() {
        assert(ops.take(n + 1).drop_last() =~= ops.take(n));
        lemma_payload_error_stable(ops, ps, n + 1);
    } else {
        assert(ops.take(n) =~= ops);
    }
}

proof fn lemma_resolve_stable(s: SnapV, root: FileId, ops: Seq<PatchOp>, ps: Seq<ProbeV>, n: int)
    requires
        0 <= n <= ops.len(),
        resolve_ops_of(s, root, ops.take(n), ps) is Err,
    ensures
        resolve_ops_of(s, root, ops, ps) == resolve_ops_of(s, root, ops.take(n), ps),
    decreases ops.len() - n,
{
    if n < ops.len() {
        assert(ops.take(n + 1).drop_last() =~= ops.take(n));
        lemma_resolve_stable(s, root, ops, ps, n + 1);
    } else {
        assert(ops.take(n) =~= ops);
    }
}

fn resolve_ops(
    snap: &Snapshot,
    root: FileId,
    ops: &Vec<PatchOp>,
    probes: &Vec<Probe>,
    added: &Vec<Option<String>>,
) -> (r: Result<(Vec<PatchEdit>, Vec<String>), PatchError>)
    requires
        texts_fit(snap@.sources),
        ops@.len() == probes@.len(),
        added@.len() == ops@.len(),
        forall|i: int|
            0 <= i < ops@.len() ==> opt_text(#[trigger] added@[i]) == declared_name(
                ops@[i],
                probes@[i].parsed.ast@,
            ),
    ensures
        match r {
            Ok(x) => resolve_ops_of(snap@, root, ops@, probes_view(probes@)) == Ok::<
                ResolvedV,
                PatchErrorV,
            >(ResolvedV { edits: edits_view(x.0@), ops: texts(x.1@) }),
            Err(e) => resolve_ops_of(snap@, root, ops@, probes_view(probes@)) == Err::<
                ResolvedV,
                PatchErrorV,
            >(e@),
        },
{
    let ghost ps = probes_view(probes@);
    let mut edits: Vec<PatchEdit> = Vec::new();
    let mut names: Vec<String> = Vec::new();
    let mut i: usize = 0;
    proof {
        assert(ops@.take(0) =~= Seq::empty());
        assert(edits_view(edits@) =~= Seq::empty());
        assert(texts(names@) =~= Seq::empty());
    }
    while i < ops.len()
        invariant
            i <= ops@.len(),
            texts_fit(snap@.sources),
            ops@.len() == probes@.len(),
            added@.len() == ops@.len(),
            ps == probes_view(probes@),
            forall|k: int|
                0 <= k < ops@.len() ==> opt_text(#[trigger] added@[k]) == declared_name(
                    ops@[k],
                    probes@[k].parsed.ast@,
                ),
            resolve_ops_of(snap@, root, ops@.take(i as int), ps) == Ok::<ResolvedV, PatchErrorV>(
                ResolvedV { edits: edits_view(edits@), ops: texts(names@) },
            ),
        decreases ops@.len() - i,
    {
        proof {
            assert(ops@.take(i + 1).drop_last() =~= ops@.take(i as int));
            assert(ps[i as int] == probes@[i as int]@);
            assert(opt_text(added@[i as int]) == declared_name(
                ops@[i as int],
                ps[i as int].ast,
            ));
        }
        match snap.op_edits(root, i, &ops[i], &added[i]) {
            Err(e) => {
                proof {
                    lemma_resolve_stable(snap@, root, ops@, ps, i + 1);
                }
                return Err(e);
            },
            Ok(x) => {
                let ghost a = edits_view(edits@);
                let ghost b = edits_view(x.edits@);
                let ghost ns = texts(names@);
                let ghost sv = x.summary@;
                let mut more = x.edits;
                edits.append(&mut more);
                names.push(x.summary);
                proof {
                    assert(edits_view(edits@) =~= a + b);
                    assert(texts(names@) =~= ns.push(sv));
                }
            },
        }
        i += 1;
    }
    proof {
        assert(ops@.take(ops@.len() as int) =~= ops@);
    }
    Ok((edits, names))
}

fn copy_edits(v: &Vec<PatchEdit>) -> (r: Vec<PatchEdit>)
    ensures
        edits_view(r@) == edits_view(v@),
{
    let mut out: Vec<PatchEdit> = Vec::new();
    let mut i: usize = 0;
    while i < v.len()
        invariant
            i <= v@.len(),
            edits_view(out@) == edits_view(v@).take(i as int),
        decreases v@.len() - i,
    {
        let ghost before = edits_view(out@);
        out.push(
            PatchEdit {
                file: v[i].file,
                span: v[i].span,
                replace: v[i].replace.clone(),
                op: v[i].op,
                expected: v[i].expected.clone(),
            },
        );
        proof {
            assert(edits_view(out@) =~= before.push(v@[i as int]@));
            assert(edits_view(v@).take(i + 1) =~= edits_view(v@).take(i as int).push(
                v@[i as int]@,
            ));
        }
        i += 1;
    }
    proof {
        assert(edits_view(v@).take(v@.len() as int) =~= edits_view(v@));
    }
    out
}

fn sort_for_splice(v: Vec<PatchEdit>) -> (r: Vec<PatchEdit>)
    ensures
        edits_view(r@) == sorted(edits_view(v@), splice_order()),
{
    let ghost f = |e: PatchEdit| e@;
    let ghost le = |a: PatchEdit, b: PatchEdit| splice_order()(a@, b@);
    proof {
        lemma_sorted_mapped(v@, f, le, splice_order());
        assert(mapped(v@, f) =~= edits_view(v@));
    }
    let before = |a: &PatchEdit, b: &PatchEdit| -> (r: bool)
        ensures
            r == (a.span.start > b.span.start || (a.span.start == b.span.start && a.op >= b.op)),
        {
            a.span.start > b.span.start || (a.span.start == b.span.start && a.op >= b.op)
        };
    let r = sort_by(v, before, Ghost(le));
    proof {
        assert(mapped(r@, f) =~= edits_view(r@));
    }
    r
}

fn sort_for_preview(v: Vec<PatchEdit>) -> (r: Vec<PatchEdit>)
    ensures
        edits_view(r@) == sorted(edits_view(v@), preview_order()),
{
    let ghost f = |e: PatchEdit| e@;
    let ghost le = |a: PatchEdit, b: PatchEdit| preview_order()(a@, b@);
    proof {
        lemma_sorted_mapped(v@, f, le, preview_order());
        assert(mapped(v@, f) =~= edits_view(v@));
    }
    let before = |a: &PatchEdit, b: &PatchEdit| -> (r: bool)
        ensures
            r == preview_order()(a@, b@),
        {
            a.file.raw < b.file.raw || (a.file.raw == b.file.raw && (a.span.start < b.span.start
                || (a.span.start == b.span.start && a.op <= b.op)))
        };
    let r = sort_by(v, before, Ghost(le));
    proof {
        assert(mapped(r@, f) =~= edits_view(r@));
    }
    r
}

fn bare_edits(v: &Vec<PatchEdit>) -> (r: Vec<RenameEdit>)
    ensures
        edit_views(r@) == bares(edits_view(v@)),
{
    let ghost all = bares(edits_view(v@));
    let mut out: Vec<RenameEdit> = Vec::new();
    let mut i: usize = 0;
    while i < v.len()
        invariant
            i <= v@.len(),
            all == bares(edits_view(v@)),
            edit_views(out@) == all.take(i as int),
        decreases v@.len() - i,
    {
        let ghost before = edit_views(out@);
        out.push(
            RenameEdit { file: v[i].file, span: v[i].span, replace: v[i].replace.clone() },
        );
        proof {
            assert(edit_views(out@) =~= before.push(all[i as int]));
            assert(all.take(i + 1) =~= all.take(i as int).push(all[i as int]));
        }
        i += 1;
    }
    proof {
        assert(all.take(all.len() as int) =~= all);
    }
    out
}

/// Checks and resolves a patch — a bounded list of [`PatchOp`]s — over
/// the workspace rooted at `root`, and splices the candidate sources.
/// Pure: nothing is written. `probes` are what the syntax stages say of
/// each op's payload, `baseline` is what the workspace reports before
/// the patch.
///
/// Cheapest checks first: spec bounds and shapes
/// (`E_MALFORMED_PATCH`), the clean baseline (`E_BASELINE_ERRORS`),
/// semantic resolution, and last overlap — two ops editing the same
/// span reject (`E_MALFORMED_PATCH`).
pub fn prepare_patch(
    snap: &Snapshot,
    root: usize,
    ops: &Vec<PatchOp>,
    probes: &Vec<Probe>,
    baseline: &Diagnostics,
) -> (r: Result<Candidate, PatchError>)
    requires
        ops@.len() == probes@.len(),
        texts_fit(snap@.sources),
    ensures
        ({
            let ps = probes_view(probes@);
            let resolved = resolve_ops_of(snap@, FileId { raw: root }, ops@, ps);
            match spec_error(ops@, ps, baseline@) {
                Some(e) => prepare_result(r) == Err::<CandidateV, PatchErrorV>(e),
                None => match resolved {
                    Err(e) => prepare_result(r) == Err::<CandidateV, PatchErrorV>(e),
                    Ok(x) => match r {
                        Ok(c) => {
                            &&& no_overlap(x.edits)
                            &&& c@ == (CandidateV {
                                root,
                                ops: x.ops,
                                edits: x.edits,
                                new_sources: candidate_of(snap@.sources, x.edits),
                            })
                        },
                        Err(e) => exists|i: int, j: int| #[trigger]
                            first_overlap(x.edits, i, j) && e@ == overlap_error(
                                x.edits[i],
                                x.edits[j],
                            ),
                    },
                },
            }
        }),
{
    if ops.len() == 0 {
        return Err(malformed("the patch contains no operations".to_string()));
    }
    if ops.len() > MAX_PATCH_OPS {
        let n = decimal(ops.len() as u64);
        return Err(
            malformed(cat3("the patch has ", n.as_str(), " operations; the limit is 64")),
        );
    }
    let added = match check_payloads(ops, probes) {
        Ok(v) => v,
        Err(e) => return Err(e),
    };
    let n = decimal(ops.len() as u64);
    let subject = cat3("patch (", n.as_str(), " op(s))");
    if let Some(d) = check_baseline(baseline, subject.as_str(), "patch") {
        return Err(PatchError::BaselineErrors(Box::new(d)));
    }
    let (edits, names) = match resolve_ops(snap, FileId { raw: root }, ops, probes, &added) {
        Ok(x) => x,
        Err(e) => return Err(e),
    };
    match check_overlap(&edits) {
        Ok(_) => {},
        Err(e) => return Err(e),
    }
    let order = sort_for_splice(copy_edits(&edits));
    let new_sources = splice_sources(&snap.sources, &bare_edits(&order));
    proof {
        assert(texts(snap.sources@) == snap@.sources);
    }
    Ok(Candidate { root, ops: names, edits, new_sources })
}

// ---------- the plan ----------

/// A validated patch. All fields are private: a plan is only
/// constructible by [`finish_patch`] after validation, so its
/// candidate bytes can never be substituted and it can never be
/// applied to a different session or source snapshot.
#[derive(Debug)]
pub struct PatchPlan {
    root: usize,
    ops: Vec<String>,
    revision: u64,
    db_id: u64,
    workspace_fp: u64,
    candidate_fp: u64,
    edits: Vec<PatchEdit>,
    new_sources: Vec<(usize, String)>,
    diags: Diagnostics,
}

/// Model of [`PatchPlan`].
#[verifier::ext_equal]
pub struct PatchPlanV {
    pub root: usize,
    pub ops: Seq<Seq<char>>,
    pub revision: u64,
    pub db_id: u64,
    pub workspace_fp: u64,
    pub candidate_fp: u64,
    pub edits: Seq<PatchEditV>,
    pub new_sources: Seq<(usize, Seq<char>)>,
    pub diags: Seq<DiagnosticV>,
}

impl PatchPlan {
    /// The model of this plan.
    pub closed spec fn view(&self) -> PatchPlanV {
        PatchPlanV {
            root: self.root,
            ops: texts(self.ops@),
            revision: self.revision,
            db_id: self.db_id,
            workspace_fp: self.workspace_fp,
            candidate_fp: self.candidate_fp,
            edits: edits_view(self.edits@),
            new_sources: file_texts(self.new_sources@),
            diags: self.diags@,
        }
    }

    /// The workspace root the plan was computed under.
    pub fn root(&self) -> (r: usize)
        ensures
            r == self@.root,
    {
        self.root
    }

    /// One-line op summaries, in spec order.
    pub fn ops(&self) -> (r: &Vec<String>)
        ensures
            texts(r@) == self@.ops,
    {
        &self.ops
    }

    /// The session's revision at plan time — the apply-time stale guard.
    pub fn revision(&self) -> (r: u64)
        ensures
            r == self@.revision,
    {
        self.revision
    }

    /// Every edit, sorted by `(file, span.start, op)` — the preview.
    pub fn edits(&self) -> (r: &Vec<PatchEdit>)
        ensures
            edits_view(r@) == self@.edits,
    {
        &self.edits
    }

    /// `(file, post-edit text)` for every touched file — what apply
    /// installs atomically.
    pub fn new_sources(&self) -> (r: &Vec<(usize, String)>)
        ensures
            file_texts(r@) == self@.new_sources,
    {
        &self.new_sources
    }

    /// The subject label attached to plan diagnostics.
    fn subject(&self) -> (r: String)
        ensures
            r@ == plan_subject(self@),
    {
        let all = join(&self.ops, ", ");
        cat2("patch: ", all.as_str())
    }
}

/// The subject label attached to plan diagnostics.
pub open spec fn plan_subject(p: PatchPlanV) -> Seq<char> {
    "patch: "@ + joined(p.ops, ", "@)
}

/// The errors of a list of diagnostics, in order.
pub open spec fn only_errors(ds: Seq<DiagnosticV>) -> Seq<DiagnosticV>
    decreases ds.len(),
{
    if ds.len() == 0 {
        Seq::empty()
    } else if ds.last().severity == Severity::Error {
        only_errors(ds.drop_last()).push(ds.last())
    } else {
        only_errors(ds.drop_last())
    }
}

/// The errors of a list of diagnostics, in order.
pub fn error_diagnostics(ds: &Diagnostics) -> (r: Vec<Diagnostic>)
    ensures
        diags(r@) == only_errors(ds@),
{
    let v = ds.iter();
    let ghost all = ds@;
    let mut out: Vec<Diagnostic> = Vec::new();
    let mut i: usize = 0;
    proof {
        assert(all.take(0) =~= Seq::empty());
        assert(diags(out@) =~= Seq::empty());
    }
    while i < v.len()
        invariant
            i <= v@.len(),
            all == ds@,
            diags(v@) == all,
            diags(out@) == only_errors(all.take(i as int)),
        decreases v@.len() - i,
    {
        proof {
            assert(all.take(i + 1).drop_last() =~= all.take(i as int));
            assert(all.take(i + 1).last() == v@[i as int]@);
        }
        if v[i].severity == Severity::Error {
            let ghost before = diags(out@);
            let d = v[i].copy();
            out.push(d);
            proof {
                assert(diags(out@) =~= before.push(v@[i as int]@));
            }
        }
        i += 1;
    }
    proof {
        assert(all.take(all.len() as int) =~= all);
    }
    out
}

/// A diagnostic with one label per error.
pub open spec fn with_error_labels(d: DiagnosticV, es: Seq<DiagnosticV>) -> DiagnosticV
    decreases es.len(),
{
    if es.len() == 0 {
        d
    } else {
        let e = es.last();
        with_error_labels(d, es.drop_last()).with_label(
            match e.primary {
                Some(s) => s,
                None => Span { start: 0, end: 0 },
            },
            code_text(e.code) + ": "@ + e.message,
        )
    }
}

/// Adds one label per error to a diagnostic.
pub fn label_errors(d: Diagnostic, es: &Vec<Diagnostic>) -> (r: Diagnostic)
    ensures
        r@ == with_error_labels(d@, diags(es@)),
{
    let ghost all = diags(es@);
    let ghost d0 = d@;
    let mut out = d;
    let mut i: usize = 0;
    proof {
        assert(all.take(0) =~= Seq::empty());
    }
    while i < es.len()
        invariant
            i <= es@.len(),
            all == diags(es@),
            out@ == with_error_labels(d0, all.take(i as int)),
        decreases es@.len() - i,
    {
        proof {
            assert(all.take(i + 1).drop_last() =~= all.take(i as int));
            assert(all.take(i + 1).last() == es@[i as int]@);
        }
        let at = match es[i].primary {
            Some(s) => s,
            None => Span::new(0, 0),
        };
        out = out.label(at, cat3(es[i].code.as_str(), ": ", es[i].message.as_str()));
        i += 1;
    }
    proof {
        assert(all.take(all.len() as int) =~= all);
    }
    out
}

/// The rejection of a candidate that reports errors.
pub open spec fn rejection(fresh: Seq<DiagnosticV>, n: nat) -> PatchErrorV {
    PatchErrorV::Rejected(
        with_error_labels(
            error_of(
                Code::PatchRejected,
                "applying the patch would produce "@ + dec(fresh.len())
                    + " new error(s); workspace unchanged"@,
            ).with_subject(patch_subject(n)),
            fresh,
        ),
        fresh,
    )
}

/// The plan of a candidate that compiles.
pub open spec fn plan_of(c: CandidateV, ds: Seq<DiagnosticV>, s: SessionV) -> PatchPlanV {
    PatchPlanV {
        root: c.root,
        ops: c.ops,
        revision: s.revision,
        db_id: s.id,
        workspace_fp: fnv(slot_bytes(s.files)),
        candidate_fp: fnv(text_bytes(c.new_sources)),
        edits: sorted(c.edits, preview_order()),
        new_sources: c.new_sources,
        diags: ds,
    }
}

/// Turns a candidate into a plan. `compiled` is what compiling the
/// candidate reports: the baseline is clean, so any error is new and
/// rejects the whole patch.
pub fn finish_patch(candidate: Candidate, compiled: &Diagnostics, session: &Session) -> (r: Result<
    PatchPlan,
    PatchError,
>)
    ensures
        match r {
            Ok(p) => only_errors(compiled@).len() == 0 && p@ == plan_of(
                candidate@,
                compiled@,
                session@,
            ),
            Err(e) => only_errors(compiled@).len() > 0 && e@ == rejection(
                only_errors(compiled@),
                candidate@.ops.len(),
            ),
        },
{
    let fresh = error_diagnostics(compiled);
    proof {
        assert(diags(fresh@).len() == fresh@.len());
        assert(texts(candidate.ops@).len() == candidate.ops@.len());
    }
    if fresh.len() > 0 {
        let n = decimal(fresh.len() as u64);
        let m = decimal(candidate.ops.len() as u64);
        let d = Diagnostic::error(
            Code::PatchRejected,
            cat3(
                "applying the patch would produce ",
                n.as_str(),
                " new error(s); workspace unchanged",
            ),
        ).subject(cat3("patch (", m.as_str(), " op(s))"));
        let d = label_errors(d, &fresh);
        return Err(PatchError::Rejected(Box::new(d), fresh));
    }
    let workspace_fp = session.workspace_fingerprint();
    let candidate_fp = sources_fingerprint(&candidate.new_sources);
    Ok(
        PatchPlan {
            root: candidate.root,
            ops: candidate.ops,
            revision: session.revision(),
            db_id: session.id(),
            workspace_fp,
            candidate_fp,
            edits: sort_for_preview(candidate.edits),
            new_sources: candidate.new_sources,
            diags: compiled.copy(),
        },
    )
}

// ---------- apply ----------

/// What an applied patch reports back.
#[derive(Debug)]
pub struct PatchReport {
    /// Files whose text changed.
    pub files: Vec<usize>,
    /// Number of ops in the patch.
    pub ops: usize,
    /// Number of text edits spliced.
    pub edits: usize,
    /// What the patched workspace reports.
    pub diags: Diagnostics,
    /// The revision the patch landed at.
    pub revision: u64,
}

/// Whether an edit's span still covers the bytes the plan recorded.
pub open spec fn still_covers(s: SessionV, e: PatchEditV) -> bool {
    e.file.raw < s.files.len() && slice_spec(
        s.files[e.file.raw as int].text,
        e.span.start as int,
        e.span.end as int,
    ) == Some(e.expected)
}

/// The first edit of a plan that no longer covers its bytes.
pub open spec fn first_drift(s: SessionV, es: Seq<PatchEditV>) -> Option<PatchEditV>
    decreases es.len(),
{
    if es.len() == 0 {
        None
    } else {
        match first_drift(s, es.drop_last()) {
            Some(e) => Some(e),
            None => if still_covers(s, es.last()) {
                None
            } else {
                Some(es.last())
            },
        }
    }
}

proof fn lemma_drift_stable(s: SessionV, es: Seq<PatchEditV>, n: int)
    requires
        0 <= n <= es.len(),
        first_drift(s, es.take(n)) is Some,
    ensures
        first_drift(s, es) == first_drift(s, es.take(n)),
    decreases es.len() - n,
{
    if n < es.len() {
        assert(es.take(n + 1).drop_last() =~= es.take(n));
        lemma_drift_stable(s, es, n + 1);
    } else {
        assert(es.take(n) =~= es);
    }
}

/// A plan that does not belong to what it is applied to.
pub open spec fn mismatch(message: Seq<char>, subject: Seq<char>) -> DiagnosticV {
    error_of(Code::PlanMismatch, message).with_subject(subject)
}

fn err_mismatch(message: &str, subject: String) -> (r: PatchError)
    ensures
        r@ == PatchErrorV::PlanMismatch(mismatch(message@, subject@)),
{
    PatchError::PlanMismatch(
        Box::new(Diagnostic::error(Code::PlanMismatch, message.to_string()).subject(subject)),
    )
}

/// Why a plan cannot be applied, checked in this order: another
/// session, another revision, other workspace contents, other candidate
/// sources, and other bytes under an edit.
pub open spec fn apply_error(s: SessionV, p: PatchPlanV) -> Option<PatchErrorV> {
    if p.db_id != s.id {
        Some(
            PatchErrorV::PlanMismatch(
                mismatch(
                    "patch plan was produced by a different database session; re-plan against this workspace"@,
                    plan_subject(p),
                ),
            ),
        )
    } else if s.revision != p.revision {
        Some(PatchErrorV::Stale { planned: p.revision, current: s.revision })
    } else if fnv(slot_bytes(s.files)) != p.workspace_fp {
        Some(
            PatchErrorV::PlanMismatch(
                mismatch(
                    "workspace contents changed since the patch plan was validated; re-plan and retry"@,
                    plan_subject(p),
                ),
            ),
        )
    } else if fnv(text_bytes(p.new_sources)) != p.candidate_fp {
        Some(
            PatchErrorV::PlanMismatch(
                mismatch(
                    "patch plan's candidate sources differ from the validated payload; re-plan and retry"@,
                    plan_subject(p),
                ),
            ),
        )
    } else {
        match first_drift(s, p.edits) {
            Some(e) => Some(
                PatchErrorV::PlanMismatch(
                    error_of(
                        Code::PlanMismatch,
                        "edit site no longer covers the bytes the plan recorded; the plan does not match this source"@,
                    ).with_primary(e.span).with_subject(plan_subject(p)),
                ),
            ),
            None => None,
        }
    }
}

fn find_drift(session: &Session, edits: &Vec<PatchEdit>) -> (r: Option<Span>)
    ensures
        match r {
            Some(s) => first_drift(session@, edits_view(edits@)) is Some && s == first_drift(
                session@,
                edits_view(edits@),
            )->0.span,
            None => first_drift(session@, edits_view(edits@)) is None,
        },
{
    let ghost all = edits_view(edits@);
    let mut i: usize = 0;
    proof {
        assert(all.take(0) =~= Seq::empty());
    }
    while i < edits.len()
        invariant
            i <= edits@.len(),
            all == edits_view(edits@),
            first_drift(session@, all.take(i as int)) is None,
        decreases edits@.len() - i,
    {
        proof {
            assert(all.take(i + 1).drop_last() =~= all.take(i as int));
            assert(all.take(i + 1).last() == edits@[i as int]@);
        }
        let e = &edits[i];
        let ok = if e.file.raw < session.file_count() {
            match slice(
                session.source(e.file.raw),
                e.span.start as usize,
                e.span.end as usize,
            ) {
                Some(t) => same(t.as_str(), e.expected.as_str()),
                None => false,
            }
        } else {
            false
        };
        if !ok {
            proof {
                lemma_drift_stable(session@, all, i + 1);
            }
            return Some(e.span);
        }
        i += 1;
    }
    proof {
        assert(all.take(all.len() as int) =~= all);
    }
    None
}

/// The files of a list of new texts.
pub open spec fn touched(news: Seq<(usize, Seq<char>)>) -> Seq<usize> {
    Seq::new(news.len(), |i: int| news[i].0)
}

/// The files of a list of new texts.
pub fn touched_files(news: &Vec<(usize, String)>) -> (r: Vec<usize>)
    ensures
        r@ == touched(file_texts(news@)),
{
    let mut out: Vec<usize> = Vec::new();
    let mut i: usize = 0;
    while i < news.len()
        invariant
            i <= news@.len(),
            out@ == touched(file_texts(news@)).take(i as int),
        decreases news@.len() - i,
    {
        out.push(news[i].0);
        i += 1;
        proof {
            assert(out@ =~= touched(file_texts(news@)).take(i as int));
        }
    }
    proof {
        assert(out@ =~= touched(file_texts(news@)));
    }
    out
}

/// Whether every new text is of a registered file.
pub open spec fn all_registered(news: Seq<(usize, Seq<char>)>, n: nat) -> bool {
    forall|i: int| 0 <= i < news.len() ==> (#[trigger] news[i]).0 < n
}

/// What applying a plan to session `s` comes to: `s2` is the session
/// behind it.
pub open spec fn patch_applied(
    s: SessionV,
    plan: PatchPlanV,
    r: Result<PatchReport, PatchError>,
    s2: SessionV,
) -> bool {
    match r {
        Err(e) => apply_error(s, plan) == Some(e@) && s2 == s,
        Ok(report) => {
            &&& apply_error(s, plan) is None
            &&& s2 == after_apply(s, plan.new_sources)
            &&& report.files@ == touched(plan.new_sources)
            &&& report.ops == plan.ops.len()
            &&& report.edits == plan.edits.len()
            &&& report.diags@ == plan.diags
            &&& report.revision == s2.revision
        },
    }
}

/// Session `s` with new texts, one revision on.
pub open spec fn after_apply(s: SessionV, news: Seq<(usize, Seq<char>)>) -> SessionV {
    SessionV { revision: (s.revision + 1) as u64, files: installed(s.files, news), ..s }
}

/// Applies a validated patch plan. Provenance is re-verified before any
/// mutation; only then do all edited files land in one revision bump. A
/// refused plan changes nothing.
pub fn apply_patch(session: &mut Session, plan: &PatchPlan) -> (r: Result<PatchReport, PatchError>)
    requires
        apply_error(old(session)@, plan@) is None ==> old(session)@.revision < u64::MAX,
    ensures
        patch_applied(old(session)@, plan@, r, final(session)@),
{
    if plan.db_id != session.id() {
        return Err(
            err_mismatch(
                "patch plan was produced by a different database session; re-plan against this workspace",
                plan.subject(),
            ),
        );
    }
    if session.revision() != plan.revision {
        return Err(PatchError::Stale { planned: plan.revision, current: session.revision() });
    }
    if session.workspace_fingerprint() != plan.workspace_fp {
        return Err(
            err_mismatch(
                "workspace contents changed since the patch plan was validated; re-plan and retry",
                plan.subject(),
            ),
        );
    }
    if sources_fingerprint(&plan.new_sources) != plan.candidate_fp {
        return Err(
            err_mismatch(
                "patch plan's candidate sources differ from the validated payload; re-plan and retry",
                plan.subject(),
            ),
        );
    }
    if let Some(span) = find_drift(session, &plan.edits) {
        return Err(
            PatchError::PlanMismatch(
                Box::new(
                    Diagnostic::error(
                        Code::PlanMismatch,
                        "edit site no longer covers the bytes the plan recorded; the plan does not match this source".to_string(),
                    ).primary(span).subject(plan.subject()),
                ),
            ),
        );
    }
    let files = touched_files(&plan.new_sources);
    proof {
        assert(texts(plan.ops@).len() == plan.ops@.len());
        assert(edits_view(plan.edits@).len() == plan.edits@.len());
    }
    session.set_sources(&plan.new_sources);
    Ok(
        PatchReport {
            files,
            ops: plan.ops.len(),
            edits: plan.edits.len(),
            diags: plan.diags.copy(),
            revision: session.revision(),
        },
    )
}

/// Applies a patch plan when asked to. A plan that is only looked at
/// changes nothing.
pub fn settle_patch(session: &mut Session, plan: &PatchPlan, apply: bool) -> (r: Option<
    Result<PatchReport, PatchError>,
>)
    requires
        apply && apply_error(old(session)@, plan@) is None ==> old(session)@.revision < u64::MAX,
    ensures
        match r {
            None => !apply && final(session)@ == old(session)@,
            Some(done) => apply && patch_applied(old(session)@, plan@, done, final(session)@),
        },
{
    if apply {
        Some(apply_patch(session, plan))
    } else {
        None
    }
}

// ---------- laws ----------

/// A plan is single-shot: once it was applied, the revision has moved
/// on, and replaying it is refused as stale.
pub proof fn law_replay_is_stale(s: SessionV, p: PatchPlanV)
    requires
        apply_error(s, p) is None,
        s.revision < u64::MAX,
    ensures
        ({
            let after = SessionV {
                revision: (s.revision + 1) as u64,
                files: installed(s.files, p.new_sources),
                ..s
            };
            apply_error(after, p) == Some(
                PatchErrorV::Stale { planned: p.revision, current: (p.revision + 1) as u64 },
            )
        }),
{
}

/// A plan never crosses sessions, whatever their files and revisions.
pub proof fn law_plan_bound_to_session(s: SessionV, p: PatchPlanV)
    requires
        p.db_id != s.id,
    ensures
        apply_error(s, p) is Some,
        apply_error(s, p)->0 is PlanMismatch,
{
}

proof fn lemma_spliced_files(sources: Seq<Seq<char>>, es: Seq<EditV>, n: int)
    requires
        n <= usize::MAX,
    ensures
        forall|i: int|
            0 <= i < spliced_files(sources, es, n).len() ==> (#[trigger] spliced_files(
                sources,
                es,
                n,
            )[i]).0 < n,
    decreases n,
{
    if n > 0 {
        lemma_spliced_files(sources, es, n - 1);
        let done = spliced_files(sources, es, n - 1);
        let out = spliced_files(sources, es, n);
        assert forall|i: int| 0 <= i < out.len() implies (#[trigger] out[i]).0 < n by {
            if i < done.len() {
                assert(out[i] == done[i]);
                assert(done[i].0 < n - 1);
            }
        }
    }
}

/// A candidate speaks of registered files only, so that a plan can be
/// applied to the session it was made for.
pub proof fn law_candidate_registered(sources: Seq<Seq<char>>, es: Seq<PatchEditV>)
    requires
        sources.len() <= usize::MAX,
    ensures
        all_registered(candidate_of(sources, es), sources.len()),
{
    lemma_spliced_files(sources, bares(sorted(es, splice_order())), sources.len() as int);
}

/// Whether two edits keep out of each other's way: in one file they do
/// not overlap, and they start at one point only when both insert.
pub open spec fn apart(a: EditV, b: EditV) -> bool {
    a.file == b.file ==> {
        &&& !(a.span.start < b.span.end && b.span.start < a.span.end)
        &&& a.span.start == b.span.start ==> a.span.start == a.span.end && b.span.start
            == b.span.end
    }
}

/// [`apart`] as a relation.
pub open spec fn apart_rel() -> spec_fn(EditV, EditV) -> bool {
    |a: EditV, b: EditV| apart(a, b)
}

proof fn lemma_of_file(es: Seq<EditV>, file: FileId, p: spec_fn(EditV) -> bool)
    requires
        forall|i: int, j: int| 0 <= i < j < es.len() ==> apart(#[trigger] es[i], #[trigger] es[j]),
        forall|i: int| 0 <= i < es.len() ==> p(#[trigger] es[i]),
    ensures
        forall|i: int|
            0 <= i < of_file(es, file).len() ==> (#[trigger] of_file(es, file)[i]).file == file
                && p(of_file(es, file)[i]),
        crate::order::pairwise(of_file(es, file), apart_rel()),
        forall|y: EditV|
            crate::order::all_related(es, y, apart_rel())
                ==> #[trigger] crate::order::all_related(
                of_file(es, file),
                y,
                apart_rel(),
            ),
    decreases es.len(),
{
    let rel = apart_rel();
    if es.len() > 0 {
        let head = es.drop_last();
        let x = es.last();
        assert forall|i: int, j: int| 0 <= i < j < head.len() implies apart(
            #[trigger] head[i],
            #[trigger] head[j],
        ) by {
            assert(apart(es[i], es[j]));
        }
        assert forall|i: int| 0 <= i < head.len() implies p(#[trigger] head[i]) by {
            assert(p(es[i]));
        }
        lemma_of_file(head, file, p);
        let done = of_file(head, file);
        let out = of_file(es, file);
        assert(crate::order::all_related(head, x, rel)) by {
            assert forall|i: int| 0 <= i < head.len() implies rel(#[trigger] head[i], x) by {
                assert(apart(es[i], es[es.len() - 1]));
            }
        }
        assert(crate::order::all_related(done, x, rel));
        assert(p(es[es.len() - 1]));
        assert forall|i: int| 0 <= i < out.len() implies (#[trigger] out[i]).file == file && p(
            out[i],
        ) by {
            if i < done.len() {
                assert(out[i] == done[i]);
            }
        }
        assert forall|i: int, j: int| 0 <= i < j < out.len() implies rel(
            #[trigger] out[i],
            #[trigger] out[j],
        ) by {
            assert(out[i] == done[i]);
            if j < done.len() {
                assert(out[j] == done[j]);
                assert(rel(done[i], done[j]));
            } else {
                assert(rel(done[i], x));
            }
        }
        assert forall|y: EditV|
            crate::order::all_related(es, y, rel) implies #[trigger] crate::order::all_related(
            out,
            y,
            rel,
        ) by {
            assert(crate::order::all_related(head, y, rel)) by {
                assert forall|i: int| 0 <= i < head.len() implies rel(#[trigger] head[i], y) by {
                    assert(rel(es[i], y));
                }
            }
            assert(crate::order::all_related(done, y, rel));
            assert(rel(es[es.len() - 1], y));
            assert forall|i: int| 0 <= i < out.len() implies rel(#[trigger] out[i], y) by {
                if i < done.len() {
                    assert(out[i] == done[i]);
                }
            }
        }
    }
}

/// The candidate is exact: where the edits of a file keep out of each
/// other's way, its new text holds every replacement at its planned
/// range and every other byte as it was.
pub proof fn law_splice_of_plan_exact(text: Seq<char>, es: Seq<EditV>, file: FileId)
    requires
        forall|i: int, j: int| 0 <= i < j < es.len() ==> apart(#[trigger] es[i], #[trigger] es[j]),
        forall|i: int|
            0 <= i < es.len() ==> ((#[trigger] es[i]).file == file ==> crate::splice::fits(
                crate::text::bytes_of(text),
                es[i],
            )),
    ensures
        crate::text::bytes_of(crate::splice::spliced(text, of_file(es, file)))
            == crate::splice::woven(
            crate::text::bytes_of(text),
            sorted(of_file(es, file), later_first()),
            0,
        ),
{
    let b = crate::text::bytes_of(text);
    let p = |e: EditV| e.file == file ==> crate::splice::fits(b, e);
    let rel = apart_rel();
    lemma_of_file(es, file, p);
    let own = of_file(es, file);
    let q = |e: EditV| e.file == file && crate::splice::fits(b, e);
    assert forall|i: int| 0 <= i < own.len() implies q(#[trigger] own[i]) by {
        assert(own[i].file == file && p(own[i]));
    }
    crate::order::lemma_sorted_all(own, later_first(), q);
    crate::order::lemma_sorted_pairwise(own, later_first(), rel);
    crate::order::law_sorted(own, later_first());
    let order = sorted(own, later_first());
    assert forall|i: int| 0 <= i < order.len() implies
    crate::splice::fits(b, #[trigger] order[i]) by {
        assert(q(order[i]));
    }
    assert forall|i: int, j: int| 0 <= i < j < order.len() implies (#[trigger] order[j]).span.end
        <= (#[trigger] order[i]).span.start by {
        assert(q(order[i]) && q(order[j]));
        assert(later_first()(order[i], order[j]));
        assert(rel(order[i], order[j]));
    }
    crate::splice::law_splice_exact(text, order);
}

} // verus!
