//! Renaming a parameter or a local, selected by a byte offset.
//!
//! The offset may point at the declaration or at any use. A rename that
//! would make a reference bind to another declaration is refused, even
//! when the result compiles.

use crate::ast::item_name;
use crate::code::Code;
use crate::diagnostic::{error_of, Diagnostic, DiagnosticV, Diagnostics};
use crate::explain::base_of;
use crate::hir::{
    def_intern, def_key_of, hir_exprs, hir_stmts, HirBody, HirBodyV, HirExprKind, HirExprKindV, HirExprV,
    HirStmt, HirStmtV,
};
use crate::order::sorted;
use crate::patch::{ident_lexed, is_ident, Lexed};
use crate::patch_plan::{baseline_error, check_baseline, only_errors};
use crate::rename::{
    dedup, deduped, finish_rename, push_site_edits, rename_plan_of, rename_rejection,
    rename_result, rename_subject, site_edits, site_order, sort_sites, RenameCandidate,
    RenameCandidateV, RenameError, RenameErrorV, RenamePlan,
};
use crate::session::Session;
use crate::snapshot::{binding_sites, item_of, local_binding_sites, lowered_of, SnapV, Snapshot};
use crate::source::{name_of, DefId, FileId, Span, SymbolId};
use crate::splice::{edit_views, splice_sources, spliced_files, EditV, RenameEdit};
use crate::text::{bytes_of, cat2, cat3, cat5, dec, decimal, texts};
use vstd::prelude::*;

verus! {

// ---------- selection ----------

/// Whether a byte lies in a span.
pub open spec fn covers(sp: Span, off: u32) -> bool {
    sp.start <= off < sp.end
}

/// Whether a byte lies in one of several spans.
pub open spec fn hits(sites: Seq<Span>, off: u32) -> bool {
    exists|i: int| 0 <= i < sites.len() && covers(#[trigger] sites[i], off)
}

fn any_covers(sites: &Vec<Span>, off: u32) -> (r: bool)
    ensures
        r == hits(sites@, off),
{
    let mut i: usize = 0;
    while i < sites.len()
        invariant
            i <= sites@.len(),
            forall|j: int| 0 <= j < i ==> !covers(#[trigger] sites@[j], off),
        decreases sites@.len() - i,
    {
        if sites[i].start <= off && off < sites[i].end {
            assert(covers(sites@[i as int], off));
            return true;
        }
        i += 1;
    }
    false
}

/// The name of a body's local.
pub open spec fn local_name(s: SnapV, b: HirBodyV, i: int) -> Seq<char> {
    name_of(s.names, b.local_symbols[i].name)
}

/// The tokens bound to a body's local.
pub open spec fn local_sites(s: SnapV, d: DefId, b: HirBodyV, i: int) -> Seq<Span> {
    binding_sites(
        b,
        SymbolId::Local(i as usize),
        bytes_of(local_name(s, b, i)).len(),
        base_of(s, d),
    )
}

/// The first local from `i` on that a byte selects.
pub open spec fn local_at(s: SnapV, d: DefId, b: HirBodyV, off: u32, i: int) -> Option<usize>
    decreases b.local_symbols.len() - i,
{
    if i < 0 || i >= b.local_symbols.len() {
        None
    } else if hits(local_sites(s, d, b, i), off) {
        Some(i as usize)
    } else {
        local_at(s, d, b, off, i + 1)
    }
}

/// The local of a definition of a file that a byte selects.
pub open spec fn local_of_def(s: SnapV, file: FileId, off: u32, d: DefId) -> Option<usize> {
    match lowered_of(s, d) {
        Some(b) => if s.scope.defs[d.raw as int].file == file && def_intern(s.scope, d) is Some {
            local_at(s, d, b, off, 0)
        } else {
            None
        },
        None => None,
    }
}

/// The first definition from `k` on with a local that a byte selects.
pub open spec fn picked(s: SnapV, file: FileId, off: u32, k: int) -> Option<(DefId, usize)>
    decreases s.scope.defs.len() - k,
{
    if k < 0 || k >= s.scope.defs.len() {
        None
    } else {
        let d = DefId { raw: k as usize };
        match local_of_def(s, file, off, d) {
            Some(i) => Some((d, i)),
            None => picked(s, file, off, k + 1),
        }
    }
}

/// Whether a byte lies in the name of a definition of a file.
pub open spec fn on_name(s: SnapV, file: FileId, off: u32, d: DefId) -> bool {
    s.scope.defs[d.raw as int].file == file && item_of(s, d) is Some && covers(
        item_name(item_of(s, d)->0).span,
        off,
    )
}

/// The first definition from `k` on whose name a byte lies in.
pub open spec fn named_at(s: SnapV, file: FileId, off: u32, k: int) -> Option<DefId>
    decreases s.scope.defs.len() - k,
{
    if k < 0 || k >= s.scope.defs.len() {
        None
    } else if on_name(s, file, off, DefId { raw: k as usize }) {
        Some(DefId { raw: k as usize })
    } else {
        named_at(s, file, off, k + 1)
    }
}

impl Snapshot {
    fn find_local(&self, d: DefId, b: &HirBody, off: u32) -> (r: Option<usize>)
        ensures
            r == local_at(self@, d, b@, off, 0),
            r matches Some(i) ==> i < b@.local_symbols.len(),
    {
        let base = self.base(d);
        let ghost bv = b@;
        let mut i: usize = 0;
        while i < b.local_symbols.len()
            invariant
                i <= b.local_symbols@.len(),
                bv == b@,
                base == base_of(self@, d),
                local_at(self@, d, bv, off, 0) == local_at(self@, d, bv, off, i as int),
            decreases b.local_symbols@.len() - i,
        {
            let name = self.interner.name_or_unknown(b.local_symbols[i].name);
            let sites = local_binding_sites(b, SymbolId::Local(i), name, base);
            if any_covers(&sites, off) {
                return Some(i);
            }
            i += 1;
        }
        None
    }

    fn find_picked(&self, file: FileId, off: u32) -> (r: Option<(DefId, usize)>)
        ensures
            r == picked(self@, file, off, 0),
            r matches Some((d, i)) ==> lowered_of(self@, d) is Some && i < lowered_of(
                self@,
                d,
            )->0.local_symbols.len() && def_intern(self@.scope, d) is Some,
    {
        let n: usize = self.scope.defs.len();
        proof {
            assert(self@.scope.defs.len() == n);
        }
        let mut k: usize = 0;
        while k < n
            invariant
                k <= n,
                n == self@.scope.defs.len(),
                n == self.scope.defs@.len(),
                picked(self@, file, off, 0) == picked(self@, file, off, k as int),
            decreases n - k,
        {
            let d = DefId { raw: k };
            assert(self@.scope.defs[k as int] == self.scope.defs@[k as int]@);
            if self.scope.defs[k].file == file && self.scope.def_name(d).is_some() {
                if let Some(b) = self.lowered(d) {
                    if let Some(i) = self.find_local(d, b, off) {
                        return Some((d, i));
                    }
                }
            }
            k += 1;
        }
        None
    }

    fn find_named(&self, file: FileId, off: u32) -> (r: Option<DefId>)
        ensures
            r == named_at(self@, file, off, 0),
    {
        let n: usize = self.scope.defs.len();
        proof {
            assert(self@.scope.defs.len() == n);
        }
        let mut k: usize = 0;
        while k < n
            invariant
                k <= n,
                n == self@.scope.defs.len(),
                n == self.scope.defs@.len(),
                named_at(self@, file, off, 0) == named_at(self@, file, off, k as int),
            decreases n - k,
        {
            let d = DefId { raw: k };
            assert(self@.scope.defs[k as int] == self.scope.defs@[k as int]@);
            if self.scope.defs[k].file == file {
                if let Some(item) = self.item(d) {
                    let sp = item.name().span;
                    if sp.start <= off && off < sp.end {
                        return Some(d);
                    }
                }
            }
            k += 1;
        }
        None
    }
}

// ---------- the candidate ----------

/// How a position names itself in diagnostics and plans.
pub open spec fn position_text(off: u32) -> Seq<char> {
    "@"@ + dec(off as nat)
}

/// The edits of a local rename.
pub open spec fn local_edits(file: FileId, sites: Seq<Span>, new_name: Seq<char>) -> Seq<EditV> {
    deduped(sorted(site_edits(file, sites, new_name), site_order()))
}

/// The candidate of a local rename, or why there is none: an invalid
/// name, a dirty baseline, or a byte that selects no local.
pub open spec fn local_candidate(
    s: SnapV,
    root: usize,
    file: usize,
    off: u32,
    new_name: Seq<char>,
    lexed: Lexed,
    baseline: Seq<DiagnosticV>,
) -> Result<RenameCandidateV, RenameErrorV> {
    let f = FileId { raw: file };
    if !ident_lexed(new_name, lexed) {
        Err(
            RenameErrorV::InvalidName(
                error_of(
                    Code::InvalidName,
                    "`"@ + new_name + "` is not a valid identifier"@,
                ).with_subject(new_name),
            ),
        )
    } else {
        match baseline_error(baseline, rename_subject(position_text(off), new_name), "rename"@) {
            Some(d) => Err(RenameErrorV::BaselineErrors(d)),
            None => match picked(s, f, off, 0) {
                Some((d, i)) => {
                    let b = lowered_of(s, d)->0;
                    let edits = local_edits(f, local_sites(s, d, b, i as int), new_name);
                    Ok(
                        RenameCandidateV {
                            root,
                            symbol: position_text(off),
                            old_name: local_name(s, b, i as int),
                            new_name,
                            target: def_key_of(s.scope, d),
                            edits,
                            new_sources: spliced_files(s.sources, edits, s.sources.len() as int),
                        },
                    )
                },
                None => match named_at(s, f, off, 0) {
                    Some(d) => Err(
                        RenameErrorV::Unsupported(
                            error_of(
                                Code::UnsupportedTarget,
                                "a top-level definition is renamed by its name, not by position"@,
                            ).with_subject(position_text(off)),
                        ),
                    ),
                    None => Err(
                        RenameErrorV::UnknownSymbol(
                            error_of(
                                Code::UnknownSymbol,
                                "no parameter or local at byte "@ + dec(off as nat),
                            ).with_subject(position_text(off)),
                        ),
                    ),
                },
            },
        }
    }
}

/// Plans a rename of the parameter or local at byte `off` of `file`, and
/// splices the candidate sources. Pure: nothing is written.
pub fn prepare_rename_at(
    snap: &Snapshot,
    root: usize,
    file: usize,
    off: u32,
    new_name: &str,
    lexed: &Lexed,
    baseline: &Diagnostics,
) -> (r: Result<RenameCandidate, RenameError>)
    ensures
        rename_result(r) == local_candidate(
            snap@,
            root,
            file,
            off,
            new_name@,
            *lexed,
            baseline@,
        ),
{
    let f = FileId { raw: file };
    if !is_ident(new_name, lexed) {
        return Err(
            RenameError::InvalidName(
                Box::new(
                    Diagnostic::error(
                        Code::InvalidName,
                        cat3("`", new_name, "` is not a valid identifier"),
                    ).subject(new_name.to_string()),
                ),
            ),
        );
    }
    let digits = decimal(off as u64);
    let symbol = cat2("@", digits.as_str());
    let subject = cat3(symbol.as_str(), " → ", new_name);
    if let Some(d) = check_baseline(baseline, subject.as_str(), "rename") {
        return Err(RenameError::BaselineErrors(Box::new(d)));
    }
    let (d, i) = match snap.find_picked(f, off) {
        Some(x) => x,
        None => {
            if snap.find_named(f, off).is_some() {
                return Err(
                    RenameError::Unsupported(
                        Box::new(
                            Diagnostic::error(
                                Code::UnsupportedTarget,
                                "a top-level definition is renamed by its name, not by position".to_owned(),
                            ).subject(symbol),
                        ),
                    ),
                );
            }
            return Err(
                RenameError::UnknownSymbol(
                    Box::new(
                        Diagnostic::error(
                            Code::UnknownSymbol,
                            cat2("no parameter or local at byte ", digits.as_str()),
                        ).subject(symbol),
                    ),
                ),
            );
        },
    };
    let b = match snap.lowered(d) {
        Some(b) => b,
        None => {
            proof {
                assert(false);
            }
            return Err(RenameError::Stale { planned: 0, current: 0 });
        },
    };
    let old_name = snap.interner.name_or_unknown(b.local_symbols[i].name);
    let sites = local_binding_sites(b, SymbolId::Local(i), old_name, snap.base(d));
    let mut found: Vec<RenameEdit> = Vec::new();
    proof {
        assert(edit_views(found@) =~= Seq::empty());
    }
    push_site_edits(f, &sites, new_name, &mut found);
    proof {
        assert(edit_views(found@) =~= site_edits(f, sites@, new_name@));
    }
    let order = sort_sites(found);
    let edits = dedup(&order);
    let new_sources = splice_sources(&snap.sources, &edits);
    proof {
        assert(texts(snap.sources@) == snap@.sources);
    }
    Ok(
        RenameCandidate {
            root,
            symbol,
            old_name: old_name.to_owned(),
            new_name: new_name.to_owned(),
            target: snap.scope.def_key(d),
            edits,
            new_sources,
        },
    )
}

// ---------- binding correspondence ----------

/// What a reference in a body is bound to.
#[derive(Clone, Copy, Debug, PartialEq, Eq, Structural)]
pub enum BoundTo {
    /// A parameter, local or module-level symbol.
    Symbol(SymbolId),
    /// A definition.
    Def(DefId),
}

/// What the assignments among the first `k` statements are bound to.
pub open spec fn assigned(ss: Seq<HirStmtV>, k: int) -> Seq<BoundTo>
    decreases k,
{
    if k <= 0 {
        Seq::empty()
    } else {
        match ss[k - 1] {
            HirStmtV::Assign { target, value, span } => assigned(ss, k - 1).push(
                BoundTo::Symbol(target.base),
            ),
            _ => assigned(ss, k - 1),
        }
    }
}

/// What the references in the first `k` expressions are bound to.
pub open spec fn bound(es: Seq<HirExprV>, k: int) -> Seq<BoundTo>
    decreases k,
{
    if k <= 0 {
        Seq::empty()
    } else {
        let front = bound(es, k - 1);
        match es[k - 1].kind {
            HirExprKindV::Var(s) => front.push(BoundTo::Symbol(s)),
            HirExprKindV::Call { def, args } => front.push(BoundTo::Def(def)),
            HirExprKindV::StructLit { def, fields } => front.push(BoundTo::Def(def)),
            HirExprKindV::VariantLit { def, variant, args } => front.push(BoundTo::Def(def)),
            HirExprKindV::Block { stmts, tail } => front + assigned(stmts, stmts.len() as int),
            _ => front,
        }
    }
}

/// What every reference of a body is bound to, in order.
pub open spec fn bindings_of(b: HirBodyV) -> Seq<BoundTo> {
    bound(b.exprs, b.exprs.len() as int)
}

fn push_assigned(ss: &Vec<HirStmt>, out: &mut Vec<BoundTo>)
    ensures
        final(out)@ == old(out)@ + assigned(hir_stmts(ss@), ss@.len() as int),
{
    let ghost all = hir_stmts(ss@);
    let ghost before = out@;
    let mut i: usize = 0;
    proof {
        assert(before + Seq::<BoundTo>::empty() =~= before);
    }
    while i < ss.len()
        invariant
            i <= ss@.len(),
            all == hir_stmts(ss@),
            out@ == before + assigned(all, i as int),
        decreases ss@.len() - i,
    {
        let ghost front = assigned(all, i as int);
        assert(all[i as int] == ss@[i as int]@);
        if let HirStmt::Assign { target, value: _, span: _ } = &ss[i] {
            out.push(BoundTo::Symbol(target.base));
            proof {
                assert(out@ =~= before + front.push(BoundTo::Symbol(target.base)));
            }
        }
        i += 1;
    }
}

/// What every reference of a body is bound to, in order.
pub fn bindings(b: &HirBody) -> (r: Vec<BoundTo>)
    ensures
        r@ == bindings_of(b@),
{
    let ghost all = b@.exprs;
    let mut out: Vec<BoundTo> = Vec::new();
    let mut i: usize = 0;
    proof {
        assert(out@ =~= Seq::empty());
    }
    while i < b.exprs.len()
        invariant
            i <= b.exprs@.len(),
            all == hir_exprs(b.exprs@),
            out@ == bound(all, i as int),
        decreases b.exprs@.len() - i,
    {
        assert(all[i as int] == b.exprs@[i as int]@);
        match &b.exprs[i].kind {
            HirExprKind::Var(s) => {
                out.push(BoundTo::Symbol(*s));
            },
            HirExprKind::Call { def, args: _ } => {
                out.push(BoundTo::Def(*def));
            },
            HirExprKind::StructLit { def, fields: _ } => {
                out.push(BoundTo::Def(*def));
            },
            HirExprKind::VariantLit { def, variant: _, args: _ } => {
                out.push(BoundTo::Def(*def));
            },
            HirExprKind::Block { stmts, tail: _ } => {
                push_assigned(stmts, &mut out);
                proof {
                    assert(hir_stmts(stmts@).len() == stmts@.len());
                }
            },
            _ => {},
        }
        i += 1;
    }
    out
}

fn same_bindings(a: &Vec<BoundTo>, b: &Vec<BoundTo>) -> (r: bool)
    ensures
        r == (a@ == b@),
{
    if a.len() != b.len() {
        return false;
    }
    let mut i: usize = 0;
    while i < a.len()
        invariant
            i <= a@.len(),
            a@.len() == b@.len(),
            forall|j: int| 0 <= j < i ==> a@[j] == b@[j],
        decreases a@.len() - i,
    {
        if a[i] != b[i] {
            return false;
        }
        i += 1;
    }
    proof {
        assert(a@ =~= b@);
    }
    true
}

/// The rejection of a candidate in which a reference binds elsewhere.
pub open spec fn rebind_rejection(c: RenameCandidateV) -> RenameErrorV {
    RenameErrorV::ValidationFailed(
        error_of(
            Code::RenameRejected,
            "renaming `"@ + c.old_name + "` to `"@ + c.new_name
                + "` would rebind a reference; workspace unchanged"@,
        ).with_subject(rename_subject(c.symbol, c.new_name)),
        Seq::empty(),
    )
}

/// Turns the candidate of a local rename into a plan. `compiled` is what
/// compiling the candidate reports; `before` and `after` are the
/// function's lowered bodies in the workspace and in the candidate. An
/// error rejects the rename, and so does a reference that is bound to
/// something else afterwards.
pub fn finish_rename_at(
    candidate: RenameCandidate,
    before: &HirBody,
    after: &HirBody,
    compiled: &Diagnostics,
    session: &Session,
) -> (r: Result<RenamePlan, RenameError>)
    ensures
        match r {
            Ok(p) => only_errors(compiled@).len() == 0 && bindings_of(before@) == bindings_of(
                after@,
            ) && p@ == rename_plan_of(candidate@, compiled@, session@),
            Err(e) => if only_errors(compiled@).len() > 0 {
                e@ == rename_rejection(candidate@, only_errors(compiled@))
            } else {
                bindings_of(before@) != bindings_of(after@) && e@ == rebind_rejection(candidate@)
            },
        },
{
    let message = cat5(
        "renaming `",
        candidate.old_name.as_str(),
        "` to `",
        candidate.new_name.as_str(),
        "` would rebind a reference; workspace unchanged",
    );
    let subject = cat3(candidate.symbol.as_str(), " → ", candidate.new_name.as_str());
    let plan = match finish_rename(candidate, compiled, session) {
        Ok(p) => p,
        Err(e) => return Err(e),
    };
    if !same_bindings(&bindings(before), &bindings(after)) {
        let none: Vec<Diagnostic> = Vec::new();
        proof {
            assert(crate::diagnostic::diags(none@) =~= Seq::empty());
        }
        return Err(
            RenameError::ValidationFailed(
                Box::new(Diagnostic::error(Code::RenameRejected, message).subject(subject)),
                none,
            ),
        );
    }
    Ok(plan)
}

// ---------- laws ----------

proof fn lemma_deduped_from(es: Seq<EditV>, i: int)
    requires
        0 <= i < deduped(es).len(),
    ensures
        es.contains(deduped(es)[i]),
    decreases es.len(),
{
    if es.len() > 0 {
        let front = deduped(es.drop_last());
        if i < front.len() {
            lemma_deduped_from(es.drop_last(), i);
            let j = choose|j: int|
                0 <= j < es.drop_last().len() && es.drop_last()[j] == front[i];
            assert(es[j] == front[i]);
        } else {
            assert(es[es.len() - 1] == es.last());
        }
    }
}

/// A local rename edits its own file only, and writes the new name at
/// every site.
pub proof fn law_local_rename_stays_in_file(
    s: SnapV,
    root: usize,
    file: usize,
    off: u32,
    new_name: Seq<char>,
    lexed: Lexed,
    baseline: Seq<DiagnosticV>,
    i: int,
)
    requires
        local_candidate(s, root, file, off, new_name, lexed, baseline) is Ok,
        0 <= i < local_candidate(s, root, file, off, new_name, lexed, baseline)->Ok_0.edits.len(),
    ensures
        ({
            let e = local_candidate(s, root, file, off, new_name, lexed, baseline)->Ok_0.edits[i];
            e.file == (FileId { raw: file }) && e.replace == new_name
        }),
{
    let c = local_candidate(s, root, file, off, new_name, lexed, baseline)->Ok_0;
    let f = FileId { raw: file };
    let (d, k) = picked(s, f, off, 0)->0;
    let b = lowered_of(s, d)->0;
    let all = site_edits(f, local_sites(s, d, b, k as int), new_name);
    let order = sorted(all, site_order());
    lemma_deduped_from(order, i);
    let p = |e: EditV| e.file == f && e.replace == new_name;
    assert(forall|j: int| 0 <= j < all.len() ==> p(#[trigger] all[j]));
    crate::order::lemma_sorted_all(all, site_order(), p);
    let j = choose|j: int| 0 <= j < order.len() && order[j] == c.edits[i];
    assert(p(order[j]));
}

} // verus!
