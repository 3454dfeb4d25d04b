//! Semantic rename transactions: plan → validate → apply.
//!
//! A rename is a *transaction* over the workspace, not a text
//! substitution:
//!
//! - **plan** resolves the symbol through the workspace scope (the
//!   same name resolution bodies use), scans every reachable file's
//!   AST for sites that resolve to the target definition, and produces
//!   one [`RenameEdit`] per name token.
//! - **validate** rejects an invalid new name, a workspace that reports
//!   errors already, a name that would collide with an existing binding
//!   in any affected file, or a rename whose candidate does not compile.
//! - **apply** re-verifies the plan's provenance and installs every
//!   edited file in a single revision — failed validation never
//!   mutates, and there is no partial mutation: either all edits land
//!   or none do.

use crate::ast::{item_span, IdentV, UseDecl, UseDeclV};
use crate::code::Code;
use crate::diagnostic::{any_error, diags, error_of, Diagnostic, DiagnosticV, Diagnostics};
use crate::hir::{def_intern, def_key_of, env_of, DefKey, ModuleScopeV};
use crate::hir_lower::either;
use crate::order::{lemma_sorted_all, lemma_sorted_mapped, mapped, sort_by, sorted};
use crate::patch::{copy_diags, err_stale, ident_lexed, is_ident, stale_diag, Lexed};
use crate::patch_edits::tree_of;
use crate::patch_plan::{
    after_apply, baseline_error, check_baseline, error_diagnostics, label_errors, mismatch,
    only_errors, touched, touched_files, with_error_labels,
};
use crate::persist::fnv;
use crate::rename_scan::{file_sites, scan_file, use_names, use_targets};
use crate::session::{
    installed, slot_bytes, sources_fingerprint, text_bytes, Session, SessionV,
};
use crate::snapshot::{item_of, SnapV, Snapshot};
use crate::source::{lookup, name_of, span_abs, DefId, FileId, InternId, Span};
use crate::splice::{
    edit_views, file_texts, splice_sources, spliced_files, EditV, RenameEdit,
};
use crate::target::{
    find_import, find_own, imported, module_name_of, module_text, no_symbol, own_member,
    resolve_target_diag, target_of,
};
use crate::text::{cat3, cat5, cat7, dec, decimal, same, slice, slice_spec, texts};
use vstd::prelude::*;

verus! {

/// Why a rename was rejected. Every variant maps to diagnostics so
/// CLI and daemon output stay on the schema-1 contract.
#[derive(Debug)]
pub enum RenameError {
    /// The symbol resolved to nothing (`E_UNKNOWN_SYMBOL`).
    UnknownSymbol(Box<Diagnostic>),
    /// A bare name matched defs in several modules (`E_AMBIGUOUS_SYMBOL`).
    AmbiguousSymbol(Box<Diagnostic>),
    /// The new name is not a valid identifier (`E_INVALID_NAME`).
    InvalidName(Box<Diagnostic>),
    /// The new name is already bound in an affected file (`E_NAME_CONFLICT`).
    Conflict(Box<Diagnostic>),
    /// The candidate produced error diagnostics (`E_RENAME_REJECTED`,
    /// plus the offending diagnostics).
    ValidationFailed(Box<Diagnostic>, Vec<Diagnostic>),
    /// The workspace already reports error diagnostics
    /// (`E_BASELINE_ERRORS`).
    BaselineErrors(Box<Diagnostic>),
    /// The plan failed provenance checks at apply time
    /// (`E_PLAN_MISMATCH`).
    PlanMismatch(Box<Diagnostic>),
    /// The selected token names something that cannot be renamed by
    /// position (`E_UNSUPPORTED_TARGET`).
    Unsupported(Box<Diagnostic>),
    /// The workspace changed between plan and apply (`E_STALE_REVISION`).
    Stale {
        /// Revision the plan was computed at.
        planned: u64,
        /// Revision at apply time.
        current: u64,
    },
}

/// Model of [`RenameError`].
#[verifier::ext_equal]
pub enum RenameErrorV {
    UnknownSymbol(DiagnosticV),
    AmbiguousSymbol(DiagnosticV),
    InvalidName(DiagnosticV),
    Conflict(DiagnosticV),
    ValidationFailed(DiagnosticV, Seq<DiagnosticV>),
    BaselineErrors(DiagnosticV),
    PlanMismatch(DiagnosticV),
    Unsupported(DiagnosticV),
    Stale { planned: u64, current: u64 },
}

/// All diagnostics describing a rejection.
pub open spec fn rename_diags(e: RenameErrorV) -> Seq<DiagnosticV> {
    match e {
        RenameErrorV::UnknownSymbol(d) => seq![d],
        RenameErrorV::AmbiguousSymbol(d) => seq![d],
        RenameErrorV::InvalidName(d) => seq![d],
        RenameErrorV::Conflict(d) => seq![d],
        RenameErrorV::BaselineErrors(d) => seq![d],
        RenameErrorV::PlanMismatch(d) => seq![d],
        RenameErrorV::Unsupported(d) => seq![d],
        RenameErrorV::ValidationFailed(d, extra) => seq![d] + extra,
        RenameErrorV::Stale { planned, current } => seq![stale_diag("rename"@, planned, current)],
    }
}

fn one(d: Diagnostic) -> (r: Vec<Diagnostic>)
    ensures
        diags(r@) == seq![d@],
{
    let mut v: Vec<Diagnostic> = Vec::new();
    let ghost dv = d@;
    v.push(d);
    proof {
        assert(diags(v@) =~= seq![dv]);
    }
    v
}

impl RenameError {
    /// The model of this error.
    pub open spec fn view(&self) -> RenameErrorV {
        match self {
            RenameError::UnknownSymbol(d) => RenameErrorV::UnknownSymbol((**d).view()),
            RenameError::AmbiguousSymbol(d) => RenameErrorV::AmbiguousSymbol((**d).view()),
            RenameError::InvalidName(d) => RenameErrorV::InvalidName((**d).view()),
            RenameError::Conflict(d) => RenameErrorV::Conflict((**d).view()),
            RenameError::ValidationFailed(d, extra) => RenameErrorV::ValidationFailed(
                (**d).view(),
                diags(extra@),
            ),
            RenameError::BaselineErrors(d) => RenameErrorV::BaselineErrors((**d).view()),
            RenameError::PlanMismatch(d) => RenameErrorV::PlanMismatch((**d).view()),
            RenameError::Unsupported(d) => RenameErrorV::Unsupported((**d).view()),
            RenameError::Stale { planned, current } => RenameErrorV::Stale {
                planned: *planned,
                current: *current,
            },
        }
    }

    /// All diagnostics describing the rejection.
    pub fn diagnostics(&self) -> (r: Vec<Diagnostic>)
        ensures
            diags(r@) == rename_diags(self@),
    {
        match self {
            RenameError::UnknownSymbol(d) => one(d.copy()),
            RenameError::AmbiguousSymbol(d) => one(d.copy()),
            RenameError::InvalidName(d) => one(d.copy()),
            RenameError::Conflict(d) => one(d.copy()),
            RenameError::BaselineErrors(d) => one(d.copy()),
            RenameError::PlanMismatch(d) => one(d.copy()),
            RenameError::Unsupported(d) => one(d.copy()),
            RenameError::ValidationFailed(d, extra) => {
                let mut v = one(d.copy());
                let mut more = copy_diags(extra);
                let ghost a = diags(v@);
                let ghost b = diags(more@);
                v.append(&mut more);
                proof {
                    assert(diags(v@) =~= a + b);
                }
                v
            },
            RenameError::Stale { planned, current } => one(
                err_stale("rename", *planned, *current),
            ),
        }
    }
}

// ---------- edits ----------

/// One edit per site of a file.
pub open spec fn site_edits(file: FileId, sites: Seq<Span>, new_name: Seq<char>) -> Seq<EditV> {
    Seq::new(sites.len(), |i: int| EditV { file, span: sites[i], replace: new_name })
}

/// The edits of every file, in the given order.
pub open spec fn files_edits(s: SnapV, files: Seq<FileId>, target: DefId, new_name: Seq<char>) -> Seq<
    EditV,
>
    decreases files.len(),
{
    if files.len() == 0 {
        Seq::empty()
    } else {
        files_edits(s, files.drop_last(), target, new_name) + site_edits(
            files.last(),
            file_sites(files.last(), tree_of(s, files.last()), s.scope, s.names, target),
            new_name,
        )
    }
}

/// By file, then site.
pub open spec fn site_order() -> spec_fn(EditV, EditV) -> bool {
    |a: EditV, b: EditV|
        a.file.raw < b.file.raw || (a.file.raw == b.file.raw && a.span.start <= b.span.start)
}

/// Edits without those that follow one at the same site.
pub open spec fn deduped(es: Seq<EditV>) -> Seq<EditV>
    decreases es.len(),
{
    if es.len() == 0 {
        Seq::empty()
    } else {
        let done = deduped(es.drop_last());
        let e = es.last();
        if done.len() > 0 && done.last().file == e.file && done.last().span == e.span {
            done
        } else {
            done.push(e)
        }
    }
}

/// Every edit of a rename, in preview order.
pub open spec fn rename_edits(s: SnapV, target: DefId, new_name: Seq<char>) -> Seq<EditV> {
    deduped(sorted(files_edits(s, s.scope.files, target, new_name), site_order()))
}

pub(crate) fn push_site_edits(file: FileId, sites: &Vec<Span>, new_name: &str, out: &mut Vec<RenameEdit>)
    ensures
        edit_views(final(out)@) == edit_views(old(out)@) + site_edits(file, sites@, new_name@),
{
    let ghost all = site_edits(file, sites@, new_name@);
    let ghost start = edit_views(out@);
    let mut i: usize = 0;
    proof {
        assert(edit_views(out@) =~= start + all.take(0));
    }
    while i < sites.len()
        invariant
            i <= sites@.len(),
            all == site_edits(file, sites@, new_name@),
            edit_views(out@) == start + all.take(i as int),
        decreases sites@.len() - i,
    {
        let ghost before = edit_views(out@);
        out.push(RenameEdit { file, span: sites[i], replace: new_name.to_owned() });
        proof {
            assert(edit_views(out@) =~= before.push(all[i as int]));
            assert(before.push(all[i as int]) =~= start + all.take(i + 1));
        }
        i += 1;
    }
    proof {
        assert(all.take(all.len() as int) =~= all);
    }
}

pub(crate) fn sort_sites(es: Vec<RenameEdit>) -> (r: Vec<RenameEdit>)
    ensures
        edit_views(r@) == sorted(edit_views(es@), site_order()),
{
    let ghost f = |e: RenameEdit| e@;
    let ghost le = |a: RenameEdit, b: RenameEdit| site_order()(a@, b@);
    proof {
        lemma_sorted_mapped(es@, f, le, site_order());
        assert(mapped(es@, f) =~= edit_views(es@));
    }
    let before = |a: &RenameEdit, b: &RenameEdit| -> (r: bool)
        ensures
            r == site_order()(a@, b@),
        {
            a.file.raw < b.file.raw || (a.file.raw == b.file.raw && a.span.start <= b.span.start)
        };
    let r = sort_by(es, before, Ghost(le));
    proof {
        assert(mapped(r@, f) =~= edit_views(r@));
    }
    r
}

pub(crate) fn dedup(es: &Vec<RenameEdit>) -> (r: Vec<RenameEdit>)
    ensures
        edit_views(r@) == deduped(edit_views(es@)),
{
    let ghost all = edit_views(es@);
    let mut out: Vec<RenameEdit> = Vec::new();
    let mut i: usize = 0;
    proof {
        assert(all.take(0) =~= Seq::empty());
        assert(edit_views(out@) =~= Seq::empty());
    }
    while i < es.len()
        invariant
            i <= es@.len(),
            all == edit_views(es@),
            edit_views(out@) == deduped(all.take(i as int)),
        decreases es@.len() - i,
    {
        proof {
            assert(all.take(i + 1).drop_last() =~= all.take(i as int));
            assert(all.take(i + 1).last() == es@[i as int]@);
        }
        let n: usize = out.len();
        assert(edit_views(out@).len() == n);
        let repeat = if n > 0 {
            assert(edit_views(out@).last() == out@[n - 1]@);
            out[n - 1].file == es[i].file && out[n - 1].span == es[i].span
        } else {
            false
        };
        if !repeat {
            let ghost before = edit_views(out@);
            let e = es[i].copy();
            out.push(e);
            proof {
                assert(edit_views(out@) =~= before.push(es@[i as int]@));
            }
        }
        i += 1;
    }
    proof {
        assert(all.take(all.len() as int) =~= all);
    }
    out
}

impl Snapshot {
    fn rename_edits(&self, target: DefId, new_name: &str) -> (r: Vec<RenameEdit>)
        ensures
            edit_views(r@) == rename_edits(self@, target, new_name@),
    {
        let ghost files = self@.scope.files;
        let mut out: Vec<RenameEdit> = Vec::new();
        let mut i: usize = 0;
        proof {
            assert(files.take(0) =~= Seq::empty());
            assert(edit_views(out@) =~= Seq::empty());
        }
        while i < self.scope.files.len()
            invariant
                i <= self.scope.files@.len(),
                files == self.scope.files@,
                edit_views(out@) == files_edits(
                    self@,
                    files.take(i as int),
                    target,
                    new_name@,
                ),
            decreases self.scope.files@.len() - i,
        {
            proof {
                assert(files.take(i + 1).drop_last() =~= files.take(i as int));
            }
            let f = self.scope.files[i];
            match self.ast(f) {
                Some(ast) => {
                    let sites = scan_file(f, ast, &self.scope, &self.interner, target);
                    push_site_edits(f, &sites, new_name, &mut out);
                },
                None => {
                    let empty = crate::ast::AstModule {
                        uses: Vec::new(),
                        items: Vec::new(),
                        span: Span::new(0, 0),
                    };
                    proof {
                        assert(empty@ =~= tree_of(self@, f));
                    }
                    let sites = scan_file(f, &empty, &self.scope, &self.interner, target);
                    push_site_edits(f, &sites, new_name, &mut out);
                },
            }
            i += 1;
        }
        proof {
            assert(files.take(files.len() as int) =~= files);
        }
        let order = sort_sites(out);
        dedup(&order)
    }
}

// ---------- conflicts ----------

/// The name a `use` declaration binds.
pub open spec fn use_binding(u: UseDeclV) -> Option<IdentV> {
    match u.alias {
        Some(a) => Some(a),
        None => if u.path.segs.len() > 0 {
            Some(u.path.segs.last())
        } else {
            None
        },
    }
}

/// The first `use` declaration that binds `want`.
pub open spec fn binding_use(us: Seq<UseDeclV>, want: Seq<char>) -> Option<Span>
    decreases us.len(),
{
    if us.len() == 0 {
        None
    } else {
        match binding_use(us.drop_last(), want) {
            Some(s) => Some(s),
            None => match use_binding(us.last()) {
                Some(b) => if b.name == want {
                    Some(b.span)
                } else {
                    None
                },
                None => None,
            },
        }
    }
}

proof fn lemma_binding_use_stable(us: Seq<UseDeclV>, n: int, want: Seq<char>)
    requires
        0 <= n <= us.len(),
        binding_use(us.take(n), want) is Some,
    ensures
        binding_use(us, want) == binding_use(us.take(n), want),
    decreases us.len() - n,
{
    if n < us.len() {
        assert(us.take(n + 1).drop_last() =~= us.take(n));
        lemma_binding_use_stable(us, n + 1, want);
    } else {
        assert(us.take(n) =~= us);
    }
}

fn find_binding_use(us: &Vec<UseDecl>, want: &str) -> (r: Option<Span>)
    ensures
        r == binding_use(crate::ast::use_decls(us@), want@),
{
    let ghost all = crate::ast::use_decls(us@);
    let mut i: usize = 0;
    proof {
        assert(all.take(0) =~= Seq::empty());
    }
    while i < us.len()
        invariant
            i <= us@.len(),
            all == crate::ast::use_decls(us@),
            binding_use(all.take(i as int), want@) is None,
        decreases us@.len() - i,
    {
        let u = &us[i];
        proof {
            assert(all.take(i + 1).drop_last() =~= all.take(i as int));
            assert(all.take(i + 1).last() == u@);
        }
        let bind = match &u.alias {
            Some(a) => Some(a),
            None => if u.path.segs.len() > 0 {
                assert(u@.path.segs.last() == u.path.segs@[u.path.segs@.len() - 1]@);
                Some(&u.path.segs[u.path.segs.len() - 1])
            } else {
                None
            },
        };
        if let Some(b) = bind {
            if same(b.name.as_str(), want) {
                proof {
                    lemma_binding_use_stable(all, i + 1, want@);
                }
                return Some(b.span);
            }
        }
        i += 1;
    }
    proof {
        assert(all.take(all.len() as int) =~= all);
    }
    None
}

/// The site that binds `name` in `file`: the existing def's name
/// span (rebased absolute) or the `use` decl's binding segment.
pub open spec fn binding_span_of(s: SnapV, file: FileId, name: InternId) -> Option<Span> {
    match own_member(s.scope, file, name) {
        Some(d) => match item_of(s, DefId { raw: d }) {
            Some(item) => Some(span_abs(s.scope.defs[d as int].span, item_span(item).start)),
            None => None,
        },
        None => if env_of(s.scope, file) is Some {
            binding_use(tree_of(s, file).uses, name_of(s.names, name))
        } else {
            None
        },
    }
}

/// What a file binds a name to: its own member, then an import.
pub open spec fn bound_to(s: ModuleScopeV, file: FileId, id: InternId) -> Option<usize> {
    either(own_member(s, file, id), imported(s, file, id))
}

/// Whether one of the declarations imports the target unaliased.
pub open spec fn rebinds(s: SnapV, us: Seq<UseDeclV>, target: DefId) -> bool {
    exists|i: int|
        0 <= i < us.len() && (#[trigger] us[i]).alias is None && use_names(
            s.scope,
            s.names,
            us[i],
            target,
        )
}

/// Whether a file gains a binding of the new name: the declaring file,
/// and every file that imports the target unaliased.
pub open spec fn affected(s: SnapV, declaring: FileId, target: DefId, f: FileId) -> bool {
    f == declaring || rebinds(s, tree_of(s, f).uses, target)
}

/// Whether a name already binds in a file, to something else than the
/// target.
pub open spec fn clashes(s: SnapV, target: DefId, f: FileId, id: InternId) -> bool {
    match bound_to(s.scope, f, id) {
        Some(d) => d != target.raw,
        None => false,
    }
}

/// The first of the files, the declaring one first, in which the new
/// name clashes.
pub open spec fn clash_file(
    s: SnapV,
    declaring: FileId,
    target: DefId,
    id: InternId,
    files: Seq<FileId>,
) -> Option<FileId>
    decreases files.len(),
{
    if files.len() == 0 {
        if clashes(s, target, declaring, id) {
            Some(declaring)
        } else {
            None
        }
    } else {
        match clash_file(s, declaring, target, id, files.drop_last()) {
            Some(f) => Some(f),
            None => {
                let f = files.last();
                if f != declaring && affected(s, declaring, target, f) && clashes(
                    s,
                    target,
                    f,
                    id,
                ) {
                    Some(f)
                } else {
                    None
                }
            },
        }
    }
}

proof fn lemma_clash_stable(
    s: SnapV,
    declaring: FileId,
    target: DefId,
    id: InternId,
    files: Seq<FileId>,
    n: int,
)
    requires
        0 <= n <= files.len(),
        clash_file(s, declaring, target, id, files.take(n)) is Some,
    ensures
        clash_file(s, declaring, target, id, files) == clash_file(
            s,
            declaring,
            target,
            id,
            files.take(n),
        ),
    decreases files.len() - n,
{
    if n < files.len() {
        assert(files.take(n + 1).drop_last() =~= files.take(n));
        lemma_clash_stable(s, declaring, target, id, files, n + 1);
    } else {
        assert(files.take(n) =~= files);
    }
}

/// The rejection of a name that binds already.
pub open spec fn conflict_diag(s: SnapV, target: DefId, f: FileId, id: InternId, new_name: Seq<char>) -> DiagnosticV {
    let d = error_of(
        Code::NameConflict,
        "name `"@ + new_name + "` is already bound in `"@ + module_text(s.scope, s.names, f) + "`"@,
    ).with_primary(
        match binding_span_of(s, f, id) {
            Some(x) => x,
            None => s.scope.defs[target.raw as int].span,
        },
    ).with_subject(new_name);
    DiagnosticV { file: Some(f), ..d }
}

/// Why a new name cannot be given to the target.
pub open spec fn conflict_of(s: SnapV, target: DefId, new_name: Seq<char>) -> Option<DiagnosticV> {
    match lookup(s.names, new_name) {
        // Not interned anywhere — no binding can collide.
        None => None,
        Some(id) => match clash_file(
            s,
            s.scope.defs[target.raw as int].file,
            target,
            id,
            s.scope.files,
        ) {
            None => None,
            Some(f) => Some(conflict_diag(s, target, f, id, new_name)),
        },
    }
}

impl Snapshot {
    fn binding_span(&self, file: FileId, name: InternId) -> (r: Option<Span>)
        ensures
            r == binding_span_of(self@, file, name),
    {
        match find_own(&self.scope, file, name) {
            Some(d) => match self.item(DefId { raw: d }) {
                Some(item) => {
                    assert(self@.scope.defs[d as int] == self.scope.defs@[d as int]@);
                    Some(self.scope.defs[d].span.abs(item.span().start))
                },
                None => None,
            },
            None => if self.scope.env(file).is_some() {
                match self.ast(file) {
                    Some(ast) => find_binding_use(
                        &ast.uses,
                        self.interner.name_or_unknown(name),
                    ),
                    None => None,
                }
            } else {
                None
            },
        }
    }

    fn rebinds(&self, file: FileId, target: DefId) -> (r: bool)
        ensures
            r == rebinds(self@, tree_of(self@, file).uses, target),
    {
        match self.ast(file) {
            None => false,
            Some(ast) => {
                let ghost us = ast@.uses;
                let mut i: usize = 0;
                while i < ast.uses.len()
                    invariant
                        i <= ast.uses@.len(),
                        us == crate::ast::use_decls(ast.uses@),
                        us == tree_of(self@, file).uses,
                        forall|j: int|
                            0 <= j < i ==> !((#[trigger] us[j]).alias is None && use_names(
                                self@.scope,
                                self@.names,
                                us[j],
                                target,
                            )),
                    decreases ast.uses@.len() - i,
                {
                    let u = &ast.uses[i];
                    assert(u@ == us[i as int]);
                    if u.alias.is_none() && use_targets(&self.scope, &self.interner, u, target) {
                        return true;
                    }
                    i += 1;
                }
                false
            },
        }
    }

    fn clashes(&self, target: DefId, file: FileId, id: InternId) -> (r: bool)
        ensures
            r == clashes(self@, target, file, id),
    {
        let found = match find_own(&self.scope, file, id) {
            Some(d) => Some(d),
            None => find_import(&self.scope, file, id),
        };
        match found {
            Some(d) => d != target.raw,
            None => false,
        }
    }

    fn find_clash(&self, declaring: FileId, target: DefId, id: InternId) -> (r: Option<FileId>)
        ensures
            r == clash_file(self@, declaring, target, id, self@.scope.files),
    {
        let ghost files = self@.scope.files;
        proof {
            assert(files.take(0) =~= Seq::empty());
        }
        if self.clashes(target, declaring, id) {
            proof {
                lemma_clash_stable(self@, declaring, target, id, files, 0);
            }
            return Some(declaring);
        }
        // Discovery order keeps the first reported conflict
        // deterministic.
        let mut i: usize = 0;
        while i < self.scope.files.len()
            invariant
                i <= self.scope.files@.len(),
                files == self.scope.files@,
                files == self@.scope.files,
                clash_file(self@, declaring, target, id, files.take(i as int)) is None,
            decreases self.scope.files@.len() - i,
        {
            let f = self.scope.files[i];
            proof {
                assert(files.take(i + 1).drop_last() =~= files.take(i as int));
                assert(files.take(i + 1).last() == f);
            }
            if f != declaring && self.rebinds(f, target) && self.clashes(target, f, id) {
                proof {
                    lemma_clash_stable(self@, declaring, target, id, files, i + 1);
                }
                return Some(f);
            }
            i += 1;
        }
        proof {
            assert(files.take(files.len() as int) =~= files);
        }
        None
    }

    /// Rejects the rename when `new_name` is already bound in the
    /// declaring file's env or in any file whose unaliased member import
    /// of the target would rebind under `new_name`.
    pub fn check_conflicts(&self, target: DefId, new_name: &str) -> (r: Option<Diagnostic>)
        requires
            target.raw < self@.scope.defs.len(),
        ensures
            match r {
                Some(d) => conflict_of(self@, target, new_name@) == Some(d@),
                None => conflict_of(self@, target, new_name@) is None,
            },
    {
        let id = match self.interner.get(new_name) {
            Some(id) => id,
            None => return None,
        };
        assert(self@.scope.defs[target.raw as int] == self.scope.defs@[target.raw as int]@);
        let own = &self.scope.defs[target.raw];
        match self.find_clash(own.file, target, id) {
            None => None,
            Some(f) => {
                let span = match self.binding_span(f, id) {
                    Some(x) => x,
                    None => own.span,
                };
                let module = module_name_of(&self.scope, &self.interner, f);
                let mut d = Diagnostic::error(
                    Code::NameConflict,
                    cat5("name `", new_name, "` is already bound in `", module, "`"),
                ).primary(span).subject(new_name.to_string());
                // The span indexes `f`'s text — tag it so multi-file
                // rendering picks the right source.
                d.file = Some(f);
                Some(d)
            },
        }
    }
}

// ---------- the candidate ----------

/// A rename whose sites are found and spliced, but not compiled.
#[derive(Debug)]
pub struct RenameCandidate {
    /// The workspace root.
    pub root: usize,
    /// The symbol as written (`x` or `m::x`).
    pub symbol: String,
    /// The target's current name.
    pub old_name: String,
    /// The requested new name.
    pub new_name: String,
    /// Root-aware identity of the renamed definition.
    pub target: DefKey,
    /// Every edit, sorted by `(file, span.start)`.
    pub edits: Vec<RenameEdit>,
    /// `(file, post-edit text)` for every touched file.
    pub new_sources: Vec<(usize, String)>,
}

/// Model of [`RenameCandidate`].
#[verifier::ext_equal]
pub struct RenameCandidateV {
    pub root: usize,
    pub symbol: Seq<char>,
    pub old_name: Seq<char>,
    pub new_name: Seq<char>,
    pub target: DefKey,
    pub edits: Seq<EditV>,
    pub new_sources: Seq<(usize, Seq<char>)>,
}

impl RenameCandidate {
    /// The model of this candidate.
    pub open spec fn view(&self) -> RenameCandidateV {
        RenameCandidateV {
            root: self.root,
            symbol: self.symbol@,
            old_name: self.old_name@,
            new_name: self.new_name@,
            target: self.target,
            edits: edit_views(self.edits@),
            new_sources: file_texts(self.new_sources@),
        }
    }
}

/// How a rename names itself in diagnostics.
pub open spec fn rename_subject(symbol: Seq<char>, new_name: Seq<char>) -> Seq<char> {
    symbol + " → "@ + new_name
}

/// The candidate of a rename, or why there is none: an invalid name, a
/// dirty baseline, a symbol that stands for no or several definitions,
/// or a name that binds already — in this order.
pub open spec fn rename_candidate(
    s: SnapV,
    root: usize,
    symbol: Seq<char>,
    new_name: Seq<char>,
    lexed: Lexed,
    baseline: Seq<DiagnosticV>,
) -> Result<RenameCandidateV, RenameErrorV> {
    if !ident_lexed(new_name, lexed) {
        Err(
            RenameErrorV::InvalidName(
                error_of(
                    Code::InvalidName,
                    "`"@ + new_name + "` is not a valid identifier"@,
                ).with_subject(new_name),
            ),
        )
    } else {
        match baseline_error(baseline, rename_subject(symbol, new_name), "rename"@) {
            Some(d) => Err(RenameErrorV::BaselineErrors(d)),
            None => match target_of(s.scope, s.names, FileId { raw: root }, symbol) {
                Err(d) => if d.code == Code::AmbiguousSymbol {
                    Err(RenameErrorV::AmbiguousSymbol(d))
                } else {
                    Err(RenameErrorV::UnknownSymbol(d))
                },
                Ok(target) => if target.raw >= s.scope.defs.len() || def_intern(s.scope, target)
                    is None {
                    Err(RenameErrorV::UnknownSymbol(no_symbol(symbol)))
                } else {
                    match conflict_of(s, target, new_name) {
                        Some(d) => Err(RenameErrorV::Conflict(d)),
                        None => {
                            let edits = rename_edits(s, target, new_name);
                            Ok(
                                RenameCandidateV {
                                    root,
                                    symbol,
                                    old_name: name_of(s.names, def_intern(s.scope, target)->0),
                                    new_name,
                                    target: def_key_of(s.scope, target),
                                    edits,
                                    new_sources: spliced_files(
                                        s.sources,
                                        edits,
                                        s.sources.len() as int,
                                    ),
                                },
                            )
                        },
                    }
                },
            },
        }
    }
}

/// The view of a preparation's result.
pub open spec fn rename_result(r: Result<RenameCandidate, RenameError>) -> Result<
    RenameCandidateV,
    RenameErrorV,
> {
    match r {
        Ok(c) => Ok(c@),
        Err(e) => Err(e@),
    }
}

/// Plans a rename of `symbol` (a def name, `x` or `m::x`) to `new_name`
/// under the workspace rooted at `root`, and splices the candidate
/// sources. Pure: nothing is written. `lexed` is what lexing `new_name`
/// yielded, `baseline` what the workspace reports before the rename.
pub fn prepare_rename(
    snap: &Snapshot,
    root: usize,
    symbol: &str,
    new_name: &str,
    lexed: &Lexed,
    baseline: &Diagnostics,
) -> (r: Result<RenameCandidate, RenameError>)
    ensures
        rename_result(r) == rename_candidate(
            snap@,
            root,
            symbol@,
            new_name@,
            *lexed,
            baseline@,
        ),
{
    if !is_ident(new_name, lexed) {
        return Err(
            RenameError::InvalidName(
                Box::new(
                    Diagnostic::error(
                        Code::InvalidName,
                        cat3("`", new_name, "` is not a valid identifier"),
                    ).subject(new_name.to_string()),
                ),
            ),
        );
    }
    let subject = cat3(symbol, " → ", new_name);
    if let Some(d) = check_baseline(baseline, subject.as_str(), "rename") {
        return Err(RenameError::BaselineErrors(Box::new(d)));
    }
    let target = match resolve_target_diag(
        &snap.scope,
        &snap.interner,
        FileId { raw: root },
        symbol,
    ) {
        Ok(t) => t,
        Err(d) => if d.code == Code::AmbiguousSymbol {
            return Err(RenameError::AmbiguousSymbol(Box::new(d)));
        } else {
            return Err(RenameError::UnknownSymbol(Box::new(d)));
        },
    };
    let name = if target.raw < snap.scope.defs.len() {
        snap.scope.def_name(target)
    } else {
        None
    };
    let old_id = match name {
        Some(n) => n,
        None => {
            return Err(
                RenameError::UnknownSymbol(
                    Box::new(
                        Diagnostic::error(
                            Code::UnknownSymbol,
                            cat3("no symbol named `", symbol, "`"),
                        ).subject(symbol.to_string()),
                    ),
                ),
            );
        },
    };
    if let Some(d) = snap.check_conflicts(target, new_name) {
        return Err(RenameError::Conflict(Box::new(d)));
    }
    let edits = snap.rename_edits(target, new_name);
    let new_sources = splice_sources(&snap.sources, &edits);
    proof {
        assert(texts(snap.sources@) == snap@.sources);
    }
    Ok(
        RenameCandidate {
            root,
            symbol: symbol.to_owned(),
            old_name: snap.interner.name_or_unknown(old_id).to_owned(),
            new_name: new_name.to_owned(),
            target: snap.scope.def_key(target),
            edits,
            new_sources,
        },
    )
}

/// A validated rename: the edits and the revision they were computed
/// against. Apply with [`apply_rename`].
#[derive(Debug)]
pub struct RenamePlan {
    root: usize,
    symbol: String,
    old_name: String,
    new_name: String,
    target: DefKey,
    revision: u64,
    db_id: u64,
    workspace_fp: u64,
    candidate_fp: u64,
    edits: Vec<RenameEdit>,
    new_sources: Vec<(usize, String)>,
    diags: Diagnostics,
}

/// Model of [`RenamePlan`].
#[verifier::ext_equal]
pub struct RenamePlanV {
    pub root: usize,
    pub symbol: Seq<char>,
    pub old_name: Seq<char>,
    pub new_name: Seq<char>,
    pub target: DefKey,
    pub revision: u64,
    pub db_id: u64,
    pub workspace_fp: u64,
    pub candidate_fp: u64,
    pub edits: Seq<EditV>,
    pub new_sources: Seq<(usize, Seq<char>)>,
    pub diags: Seq<DiagnosticV>,
}

impl RenamePlan {
    /// The model of this plan.
    pub closed spec fn view(&self) -> RenamePlanV {
        RenamePlanV {
            root: self.root,
            symbol: self.symbol@,
            old_name: self.old_name@,
            new_name: self.new_name@,
            target: self.target,
            revision: self.revision,
            db_id: self.db_id,
            workspace_fp: self.workspace_fp,
            candidate_fp: self.candidate_fp,
            edits: edit_views(self.edits@),
            new_sources: file_texts(self.new_sources@),
            diags: self.diags@,
        }
    }

    /// The workspace root the plan was computed under.
    pub fn root(&self) -> (r: usize)
        ensures
            r == self@.root,
    {
        self.root
    }

    /// The symbol as written (`x` or `m::x`).
    pub fn symbol(&self) -> (r: &str)
        ensures
            r@ == self@.symbol,
    {
        self.symbol.as_str()
    }

    /// The target's current name.
    pub fn old_name(&self) -> (r: &str)
        ensures
            r@ == self@.old_name,
    {
        self.old_name.as_str()
    }

    /// The requested new name.
    pub fn new_name(&self) -> (r: &str)
        ensures
            r@ == self@.new_name,
    {
        self.new_name.as_str()
    }

    /// Root-aware identity of the renamed definition.
    pub fn target(&self) -> (r: DefKey)
        ensures
            r == self@.target,
    {
        self.target
    }

    /// The session's revision at plan time — the apply-time stale guard.
    pub fn revision(&self) -> (r: u64)
        ensures
            r == self@.revision,
    {
        self.revision
    }

    /// Every edit, sorted by `(file, span.start)` — the preview.
    pub fn edits(&self) -> (r: &Vec<RenameEdit>)
        ensures
            edit_views(r@) == self@.edits,
    {
        &self.edits
    }

    /// `(file, post-edit text)` for every touched file — what apply
    /// installs atomically.
    pub fn new_sources(&self) -> (r: &Vec<(usize, String)>)
        ensures
            file_texts(r@) == self@.new_sources,
    {
        &self.new_sources
    }

    fn subject(&self) -> (r: String)
        ensures
            r@ == rename_subject(self@.symbol, self@.new_name),
    {
        cat3(self.symbol.as_str(), " → ", self.new_name.as_str())
    }
}

/// The rejection of a candidate that reports errors.
pub open spec fn rename_rejection(c: RenameCandidateV, fresh: Seq<DiagnosticV>) -> RenameErrorV {
    RenameErrorV::ValidationFailed(
        with_error_labels(
            error_of(
                Code::RenameRejected,
                "renaming `"@ + c.old_name + "` to `"@ + c.new_name + "` would produce "@ + dec(
                    fresh.len(),
                ) + " new error(s); workspace unchanged"@,
            ).with_subject(rename_subject(c.symbol, c.new_name)),
            fresh,
        ),
        fresh,
    )
}

/// The plan of a candidate that compiles.
pub open spec fn rename_plan_of(
    c: RenameCandidateV,
    ds: Seq<DiagnosticV>,
    s: SessionV,
) -> RenamePlanV {
    RenamePlanV {
        root: c.root,
        symbol: c.symbol,
        old_name: c.old_name,
        new_name: c.new_name,
        target: c.target,
        revision: s.revision,
        db_id: s.id,
        workspace_fp: fnv(slot_bytes(s.files)),
        candidate_fp: fnv(text_bytes(c.new_sources)),
        edits: c.edits,
        new_sources: c.new_sources,
        diags: ds,
    }
}

/// Turns a candidate into a plan. `compiled` is what compiling the
/// candidate reports: the baseline is clean, so any error is new and
/// rejects the rename.
pub fn finish_rename(candidate: RenameCandidate, compiled: &Diagnostics, session: &Session) -> (r:
    Result<RenamePlan, RenameError>)
    ensures
        match r {
            Ok(p) => only_errors(compiled@).len() == 0 && p@ == rename_plan_of(
                candidate@,
                compiled@,
                session@,
            ),
            Err(e) => only_errors(compiled@).len() > 0 && e@ == rename_rejection(
                candidate@,
                only_errors(compiled@),
            ),
        },
{
    let fresh = error_diagnostics(compiled);
    proof {
        assert(diags(fresh@).len() == fresh@.len());
    }
    if fresh.len() > 0 {
        let n = decimal(fresh.len() as u64);
        let d = Diagnostic::error(
            Code::RenameRejected,
            cat7(
                "renaming `",
                candidate.old_name.as_str(),
                "` to `",
                candidate.new_name.as_str(),
                "` would produce ",
                n.as_str(),
                " new error(s); workspace unchanged",
            ),
        ).subject(cat3(candidate.symbol.as_str(), " → ", candidate.new_name.as_str()));
        let d = label_errors(d, &fresh);
        return Err(RenameError::ValidationFailed(Box::new(d), fresh));
    }
    let workspace_fp = session.workspace_fingerprint();
    let candidate_fp = sources_fingerprint(&candidate.new_sources);
    Ok(
        RenamePlan {
            root: candidate.root,
            symbol: candidate.symbol,
            old_name: candidate.old_name,
            new_name: candidate.new_name,
            target: candidate.target,
            revision: session.revision(),
            db_id: session.id(),
            workspace_fp,
            candidate_fp,
            edits: candidate.edits,
            new_sources: candidate.new_sources,
            diags: compiled.copy(),
        },
    )
}

// ---------- apply ----------

/// What an applied rename reports back.
#[derive(Debug)]
pub struct RenameReport {
    /// Files whose text changed.
    pub files: Vec<usize>,
    /// Number of name tokens rewritten.
    pub edits: usize,
    /// What the renamed workspace reports.
    pub diags: Diagnostics,
    /// The revision the rename landed at.
    pub revision: u64,
}

/// Whether an edit's span still covers the old name.
pub open spec fn still_names(s: SessionV, e: EditV, old_name: Seq<char>) -> bool {
    e.file.raw < s.files.len() && slice_spec(
        s.files[e.file.raw as int].text,
        e.span.start as int,
        e.span.end as int,
    ) == Some(old_name)
}

/// The first edit of a plan that no longer covers the old name.
pub open spec fn first_lost(s: SessionV, es: Seq<EditV>, old_name: Seq<char>) -> Option<EditV>
    decreases es.len(),
{
    if es.len() == 0 {
        None
    } else {
        match first_lost(s, es.drop_last(), old_name) {
            Some(e) => Some(e),
            None => if still_names(s, es.last(), old_name) {
                None
            } else {
                Some(es.last())
            },
        }
    }
}

proof fn lemma_lost_stable(s: SessionV, es: Seq<EditV>, old_name: Seq<char>, n: int)
    requires
        0 <= n <= es.len(),
        first_lost(s, es.take(n), old_name) is Some,
    ensures
        first_lost(s, es, old_name) == first_lost(s, es.take(n), old_name),
    decreases es.len() - n,
{
    if n < es.len() {
        assert(es.take(n + 1).drop_last() =~= es.take(n));
        lemma_lost_stable(s, es, old_name, n + 1);
    } else {
        assert(es.take(n) =~= es);
    }
}

fn err_mismatch(message: &str, subject: String) -> (r: RenameError)
    ensures
        r@ == RenameErrorV::PlanMismatch(mismatch(message@, subject@)),
{
    RenameError::PlanMismatch(
        Box::new(Diagnostic::error(Code::PlanMismatch, message.to_string()).subject(subject)),
    )
}

/// Why a plan cannot be applied, checked in this order: another
/// session, another revision, other workspace contents, other candidate
/// sources, and a site that no longer covers the old name.
pub open spec fn rename_apply_error(s: SessionV, p: RenamePlanV) -> Option<RenameErrorV> {
    let subject = rename_subject(p.symbol, p.new_name);
    if p.db_id != s.id {
        Some(
            RenameErrorV::PlanMismatch(
                mismatch(
                    "rename plan was produced by a different database session; re-plan against this workspace"@,
                    subject,
                ),
            ),
        )
    } else if s.revision != p.revision {
        Some(RenameErrorV::Stale { planned: p.revision, current: s.revision })
    } else if fnv(slot_bytes(s.files)) != p.workspace_fp {
        Some(
            RenameErrorV::PlanMismatch(
                mismatch(
                    "workspace contents changed since the rename plan was validated; re-plan and retry"@,
                    subject,
                ),
            ),
        )
    } else if fnv(text_bytes(p.new_sources)) != p.candidate_fp {
        Some(
            RenameErrorV::PlanMismatch(
                mismatch(
                    "rename plan's candidate sources differ from the validated payload; re-plan and retry"@,
                    subject,
                ),
            ),
        )
    } else {
        match first_lost(s, p.edits, p.old_name) {
            Some(e) => Some(
                RenameErrorV::PlanMismatch(
                    error_of(
                        Code::PlanMismatch,
                        "edit site no longer covers the name the plan recorded; the plan does not match this source"@,
                    ).with_primary(e.span).with_subject(subject),
                ),
            ),
            None => None,
        }
    }
}

fn find_lost(session: &Session, edits: &Vec<RenameEdit>, old_name: &str) -> (r: Option<Span>)
    ensures
        match r {
            Some(s) => first_lost(session@, edit_views(edits@), old_name@) is Some && s
                == first_lost(session@, edit_views(edits@), old_name@)->0.span,
            None => first_lost(session@, edit_views(edits@), old_name@) is None,
        },
{
    let ghost all = edit_views(edits@);
    let mut i: usize = 0;
    proof {
        assert(all.take(0) =~= Seq::empty());
    }
    while i < edits.len()
        invariant
            i <= edits@.len(),
            all == edit_views(edits@),
            first_lost(session@, all.take(i as int), old_name@) is None,
        decreases edits@.len() - i,
    {
        proof {
            assert(all.take(i + 1).drop_last() =~= all.take(i as int));
            assert(all.take(i + 1).last() == edits@[i as int]@);
        }
        let e = &edits[i];
        let ok = if e.file.raw < session.file_count() {
            match slice(
                session.source(e.file.raw),
                e.span.start as usize,
                e.span.end as usize,
            ) {
                Some(t) => same(t.as_str(), old_name),
                None => false,
            }
        } else {
            false
        };
        if !ok {
            proof {
                lemma_lost_stable(session@, all, old_name@, i + 1);
            }
            return Some(e.span);
        }
        i += 1;
    }
    proof {
        assert(all.take(all.len() as int) =~= all);
    }
    None
}

/// What applying a plan to session `s` comes to: `s2` is the session
/// behind it.
pub open spec fn rename_applied(
    s: SessionV,
    plan: RenamePlanV,
    r: Result<RenameReport, RenameError>,
    s2: SessionV,
) -> bool {
    match r {
        Err(e) => rename_apply_error(s, plan) == Some(e@) && s2 == s,
        Ok(report) => {
            &&& rename_apply_error(s, plan) is None
            &&& s2 == after_apply(s, plan.new_sources)
            &&& report.files@ == touched(plan.new_sources)
            &&& report.edits == plan.edits.len()
            &&& report.diags@ == plan.diags
            &&& report.revision == s2.revision
        },
    }
}

/// Applies a validated rename plan. Provenance is re-verified before
/// any mutation; only then do all edited files land in one revision
/// bump. A refused plan changes nothing.
pub fn apply_rename(session: &mut Session, plan: &RenamePlan) -> (r: Result<
    RenameReport,
    RenameError,
>)
    requires
        rename_apply_error(old(session)@, plan@) is None ==> old(session)@.revision < u64::MAX,
    ensures
        rename_applied(old(session)@, plan@, r, final(session)@),
{
    if plan.db_id != session.id() {
        return Err(
            err_mismatch(
                "rename plan was produced by a different database session; re-plan against this workspace",
                plan.subject(),
            ),
        );
    }
    if session.revision() != plan.revision {
        return Err(RenameError::Stale { planned: plan.revision, current: session.revision() });
    }
    if session.workspace_fingerprint() != plan.workspace_fp {
        return Err(
            err_mismatch(
                "workspace contents changed since the rename plan was validated; re-plan and retry",
                plan.subject(),
            ),
        );
    }
    if sources_fingerprint(&plan.new_sources) != plan.candidate_fp {
        return Err(
            err_mismatch(
                "rename plan's candidate sources differ from the validated payload; re-plan and retry",
                plan.subject(),
            ),
        );
    }
    if let Some(span) = find_lost(session, &plan.edits, plan.old_name.as_str()) {
        return Err(
            RenameError::PlanMismatch(
                Box::new(
                    Diagnostic::error(
                        Code::PlanMismatch,
                        "edit site no longer covers the name the plan recorded; the plan does not match this source".to_string(),
                    ).primary(span).subject(plan.subject()),
                ),
            ),
        );
    }
    let files = touched_files(&plan.new_sources);
    proof {
        assert(edit_views(plan.edits@).len() == plan.edits@.len());
    }
    session.set_sources(&plan.new_sources);
    Ok(
        RenameReport {
            files,
            edits: plan.edits.len(),
            diags: plan.diags.copy(),
            revision: session.revision(),
        },
    )
}

/// Applies a rename plan when asked to. A plan that is only looked at
/// changes nothing.
pub fn settle_rename(session: &mut Session, plan: &RenamePlan, apply: bool) -> (r: Option<
    Result<RenameReport, RenameError>,
>)
    requires
        apply && rename_apply_error(old(session)@, plan@) is None ==> old(session)@.revision
            < u64::MAX,
    ensures
        match r {
            None => !apply && final(session)@ == old(session)@,
            Some(done) => apply && rename_applied(old(session)@, plan@, done, final(session)@),
        },
{
    if apply {
        Some(apply_rename(session, plan))
    } else {
        None
    }
}

// ---------- laws ----------

/// A plan is single-shot: once it was applied, the revision has moved
/// on, and replaying it is refused as stale.
pub proof fn law_rename_replay_is_stale(s: SessionV, p: RenamePlanV)
    requires
        rename_apply_error(s, p) is None,
        s.revision < u64::MAX,
    ensures
        ({
            let after = SessionV {
                revision: (s.revision + 1) as u64,
                files: installed(s.files, p.new_sources),
                ..s
            };
            rename_apply_error(after, p) == Some(
                RenameErrorV::Stale { planned: p.revision, current: (p.revision + 1) as u64 },
            )
        }),
{
}

/// A plan never crosses sessions, whatever their files and revisions.
pub proof fn law_rename_bound_to_session(s: SessionV, p: RenamePlanV)
    requires
        p.db_id != s.id,
    ensures
        rename_apply_error(s, p) is Some,
        rename_apply_error(s, p)->0 is PlanMismatch,
{
}

/// A workspace that reports an error is refused before the symbol is
/// looked at.
pub proof fn law_dirty_baseline_refused(
    s: SnapV,
    root: usize,
    symbol: Seq<char>,
    new_name: Seq<char>,
    lexed: Lexed,
    baseline: Seq<DiagnosticV>,
)
    requires
        ident_lexed(new_name, lexed),
        any_error(baseline),
    ensures
        rename_candidate(s, root, symbol, new_name, lexed, baseline) is Err,
        rename_candidate(s, root, symbol, new_name, lexed, baseline)->Err_0 is BaselineErrors,
{
}

/// A name that binds already, in a file that would gain a binding of
/// it, is never given away: no candidate exists.
pub proof fn law_conflicting_name_refused(
    s: SnapV,
    root: usize,
    symbol: Seq<char>,
    new_name: Seq<char>,
    lexed: Lexed,
    baseline: Seq<DiagnosticV>,
    target: DefId,
    f: FileId,
)
    requires
        target_of(s.scope, s.names, FileId { raw: root }, symbol) == Ok::<DefId, DiagnosticV>(
            target,
        ),
        target.raw < s.scope.defs.len(),
        s.scope.files.contains(f) || f == s.scope.defs[target.raw as int].file,
        affected(s, s.scope.defs[target.raw as int].file, target, f),
        lookup(s.names, new_name) is Some,
        clashes(s, target, f, lookup(s.names, new_name)->0),
    ensures
        rename_candidate(s, root, symbol, new_name, lexed, baseline) is Err,
{
    let declaring = s.scope.defs[target.raw as int].file;
    let id = lookup(s.names, new_name)->0;
    let files = s.scope.files;
    if f == declaring {
        assert(files.take(0) =~= Seq::empty());
        lemma_clash_stable(s, declaring, target, id, files, 0);
    } else {
        let k = choose|k: int| 0 <= k < files.len() && files[k] == f;
        assert(files.take(k + 1).drop_last() =~= files.take(k));
        assert(files.take(k + 1).last() == f);
        lemma_clash_stable(s, declaring, target, id, files, k + 1);
    }
}

/// Whether an edit writes the given name.
pub open spec fn writes(new_name: Seq<char>) -> spec_fn(EditV) -> bool {
    |e: EditV| e.replace == new_name
}

proof fn lemma_files_edits(s: SnapV, files: Seq<FileId>, target: DefId, new_name: Seq<char>)
    ensures
        all_write(files_edits(s, files, target, new_name), new_name),
    decreases files.len(),
{
    if files.len() > 0 {
        lemma_files_edits(s, files.drop_last(), target, new_name);
    }
}

/// Whether every edit writes the given name.
pub open spec fn all_write(es: Seq<EditV>, new_name: Seq<char>) -> bool {
    forall|i: int| 0 <= i < es.len() ==> writes(new_name)(#[trigger] es[i])
}

/// Whether no edit stands at the site of the one before it.
pub open spec fn no_repeats(es: Seq<EditV>) -> bool {
    forall|i: int, j: int|
        0 <= i && j == i + 1 && j < es.len() ==> !((#[trigger] es[i]).file == (
        #[trigger] es[j]).file && es[i].span == es[j].span)
}

proof fn lemma_deduped(es: Seq<EditV>, new_name: Seq<char>)
    requires
        all_write(es, new_name),
    ensures
        all_write(deduped(es), new_name),
        no_repeats(deduped(es)),
    decreases es.len(),
{
    if es.len() > 0 {
        let front = es.drop_last();
        assert forall|i: int| 0 <= i < front.len() implies writes(new_name)(
            #[trigger] front[i],
        ) by {
            assert(front[i] == es[i]);
        }
        lemma_deduped(front, new_name);
        assert(es.last() == es[es.len() - 1]);
        let done = deduped(front);
        let out = deduped(es);
        if out.len() > done.len() {
            assert forall|i: int| 0 <= i < out.len() implies writes(new_name)(
                #[trigger] out[i],
            ) by {
                if i < done.len() {
                    assert(out[i] == done[i]);
                }
            }
            assert forall|i: int, j: int| 0 <= i && j == i + 1 && j < out.len() implies !((
            #[trigger] out[i]).file == (#[trigger] out[j]).file && out[i].span == out[j].span) by {
                assert(out[i] == done[i]);
                if j < done.len() {
                    assert(out[j] == done[j]);
                }
            }
        }
    }
}

/// A rename writes nothing but the new name, and touches no site twice.
pub proof fn law_rename_writes_new_name(s: SnapV, target: DefId, new_name: Seq<char>)
    ensures
        all_write(rename_edits(s, target, new_name), new_name),
        no_repeats(rename_edits(s, target, new_name)),
{
    let es = files_edits(s, s.scope.files, target, new_name);
    lemma_files_edits(s, s.scope.files, target, new_name);
    lemma_sorted_all(es, site_order(), writes(new_name));
    lemma_deduped(sorted(es, site_order()), new_name);
}

} // verus!
