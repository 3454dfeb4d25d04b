//! What renaming a local by position promises: the byte selects the
//! local whose token it lies in, every token bound to that local is
//! rewritten and nothing else, and no reference is bound anew.

use crate::explain::base_of;
use crate::hir::{def_intern, HirBodyV, HirExprKindV, HirExprV, HirStmtV};
use crate::param_laws::{bound_token, law_sites_are_the_bound_tokens};
use crate::rename::{site_edits, site_order};
use crate::rename_local::{
    assigned, bindings_of, bound, covers, hits, local_at, local_edits, local_name, local_of_def,
    local_sites, picked, BoundTo,
};
use crate::rename_reach::{lemma_dedup_keeps, lemma_sorted_same};
use crate::order::sorted;
use crate::snapshot::{lowered_of, SnapV};
use crate::source::{span_abs, DefId, FileId, Span, SymbolId};
use crate::splice::EditV;
use crate::text::bytes_of;
use vstd::prelude::*;

verus! {

// ---------- selection ----------

/// A byte of a file lies in a token that is bound to a local of the
/// definition's body.
pub open spec fn lies_in(s: SnapV, d: DefId, b: HirBodyV, i: int, off: u32) -> bool {
    exists|sp: Span| #[trigger]
        bound_token(b, SymbolId::Local(i as usize), bytes_of(local_name(s, b, i)).len(), sp) && ({
            let at = span_abs(sp, base_of(s, d));
            at.start <= off < at.end
        })
}

proof fn lemma_hits(s: SnapV, d: DefId, b: HirBodyV, i: int, off: u32)
    ensures
        hits(local_sites(s, d, b, i), off) <==> lies_in(s, d, b, i, off),
{
    let sym = SymbolId::Local(i as usize);
    let len = bytes_of(local_name(s, b, i)).len();
    let base = base_of(s, d);
    let sites = local_sites(s, d, b, i);
    if hits(sites, off) {
        let k = choose|k: int| 0 <= k < sites.len() && covers(#[trigger] sites[k], off);
        law_sites_are_the_bound_tokens(b, sym, len, base, sites[k]);
        assert(sites.contains(sites[k]));
        let sp = choose|sp: Span| #[trigger]
            bound_token(b, sym, len, sp) && sites[k] == span_abs(sp, base);
        assert(bound_token(b, sym, len, sp));
    }
    if lies_in(s, d, b, i, off) {
        let sp = choose|sp: Span| #[trigger]
            bound_token(b, sym, len, sp) && ({
                let at = span_abs(sp, base);
                at.start <= off < at.end
            });
        let at = span_abs(sp, base);
        law_sites_are_the_bound_tokens(b, sym, len, base, at);
        let k = choose|k: int| 0 <= k < sites.len() && sites[k] == at;
        assert(covers(sites[k], off));
    }
}

proof fn lemma_local_at(s: SnapV, d: DefId, b: HirBodyV, off: u32, from: int)
    requires
        0 <= from <= b.local_symbols.len() <= usize::MAX,
    ensures
        match local_at(s, d, b, off, from) {
            Some(i) => from <= i < b.local_symbols.len() && lies_in(s, d, b, i as int, off),
            None => forall|i: int|
                from <= i < b.local_symbols.len() ==> !#[trigger] lies_in(s, d, b, i, off),
        },
    decreases b.local_symbols.len() - from,
{
    if from < b.local_symbols.len() {
        lemma_hits(s, d, b, from, off);
        if !hits(local_sites(s, d, b, from), off) {
            lemma_local_at(s, d, b, off, from + 1);
        }
    }
}

/// A function of the file whose body can be searched.
pub open spec fn searched(s: SnapV, file: FileId, k: int) -> bool {
    let d = DefId { raw: k as usize };
    &&& s.scope.defs[k].file == file
    &&& def_intern(s.scope, d) is Some
    &&& lowered_of(s, d) is Some
}

proof fn lemma_picked(s: SnapV, file: FileId, off: u32, from: int)
    requires
        0 <= from <= s.scope.defs.len() <= usize::MAX,
        forall|k: int|
            0 <= k < s.scope.defs.len() && #[trigger] searched(s, file, k) ==> lowered_of(
                s,
                DefId { raw: k as usize },
            )->0.local_symbols.len() <= usize::MAX,
    ensures
        match picked(s, file, off, from) {
            Some((d, i)) => {
                &&& from <= d.raw < s.scope.defs.len()
                &&& searched(s, file, d.raw as int)
                &&& i < lowered_of(s, d)->0.local_symbols.len()
                &&& lies_in(s, d, lowered_of(s, d)->0, i as int, off)
            },
            None => forall|k: int, i: int|
                #![trigger searched(s, file, k), lowered_of(s, DefId { raw: k as usize })->0.local_symbols[i]]
                from <= k < s.scope.defs.len() && searched(s, file, k) && 0 <= i < lowered_of(
                    s,
                    DefId { raw: k as usize },
                )->0.local_symbols.len() ==> !lies_in(
                    s,
                    DefId { raw: k as usize },
                    lowered_of(s, DefId { raw: k as usize })->0,
                    i,
                    off,
                ),
        },
    decreases s.scope.defs.len() - from,
{
    if from < s.scope.defs.len() {
        let d = DefId { raw: from as usize };
        assert(d.raw as int == from);
        if searched(s, file, from) {
            let b = lowered_of(s, d)->0;
            lemma_local_at(s, d, b, off, 0);
        }
        if local_of_def(s, file, off, d) is None {
            lemma_picked(s, file, off, from + 1);
            if picked(s, file, off, from + 1) is None {
                assert forall|k: int, i: int|
                    #![trigger searched(s, file, k), lowered_of(s, DefId { raw: k as usize })->0.local_symbols[i]]
                    from <= k < s.scope.defs.len() && searched(s, file, k) && 0 <= i < lowered_of(
                        s,
                        DefId { raw: k as usize },
                    )->0.local_symbols.len() implies !lies_in(
                    s,
                    DefId { raw: k as usize },
                    lowered_of(s, DefId { raw: k as usize })->0,
                    i,
                    off,
                ) by {
                    if k == from {
                        assert(lowered_of(s, d) is Some);
                    }
                }
            }
        }
    }
}

/// A byte selects a local only where it lies in a token that is bound to
/// it, in a function of that file; and it selects one wherever it lies in
/// such a token.
pub proof fn law_byte_selects_its_local(s: SnapV, file: FileId, off: u32, k: int, i: int)
    requires
        s.scope.defs.len() <= usize::MAX,
        forall|k: int|
            0 <= k < s.scope.defs.len() && #[trigger] searched(s, file, k) ==> lowered_of(
                s,
                DefId { raw: k as usize },
            )->0.local_symbols.len() <= usize::MAX,
    ensures
        picked(s, file, off, 0) matches Some((d, j)) ==> {
            &&& d.raw < s.scope.defs.len()
            &&& searched(s, file, d.raw as int)
            &&& j < lowered_of(s, d)->0.local_symbols.len()
            &&& lies_in(s, d, lowered_of(s, d)->0, j as int, off)
        },
        0 <= k < s.scope.defs.len() && searched(s, file, k) && 0 <= i < lowered_of(
            s,
            DefId { raw: k as usize },
        )->0.local_symbols.len() && lies_in(
            s,
            DefId { raw: k as usize },
            lowered_of(s, DefId { raw: k as usize })->0,
            i,
            off,
        ) ==> picked(s, file, off, 0) is Some,
{
    lemma_picked(s, file, off, 0);
    let x = lowered_of(s, DefId { raw: k as usize })->0.local_symbols[i];
}

// ---------- edits ----------

/// The edits of a local rename put the new name at every token that is
/// bound to the local, and at no other place.
pub proof fn law_local_rename_reaches_every_token(
    s: SnapV,
    file: FileId,
    d: DefId,
    b: HirBodyV,
    i: int,
    new_name: Seq<char>,
    e: EditV,
)
    ensures
        local_edits(file, local_sites(s, d, b, i), new_name).contains(e) <==> {
            &&& e.file == file
            &&& e.replace == new_name
            &&& exists|sp: Span| #[trigger]
                bound_token(
                    b,
                    SymbolId::Local(i as usize),
                    bytes_of(local_name(s, b, i)).len(),
                    sp,
                ) && e.span == span_abs(sp, base_of(s, d))
        },
{
    let sites = local_sites(s, d, b, i);
    let all = site_edits(file, sites, new_name);
    let ord = sorted(all, site_order());
    law_sites_are_the_bound_tokens(
        b,
        SymbolId::Local(i as usize),
        bytes_of(local_name(s, b, i)).len(),
        base_of(s, d),
        e.span,
    );
    lemma_sorted_same(all, e);
    assert forall|k: int| 0 <= k < ord.len() implies (#[trigger] ord[k]).replace == new_name by {
        lemma_sorted_same(all, ord[k]);
        assert(ord.contains(ord[k]));
        let q = choose|q: int| 0 <= q < all.len() && all[q] == ord[k];
        assert(all[q].replace == new_name);
    }
    if all.contains(e) {
        let q = choose|q: int| 0 <= q < all.len() && all[q] == e;
        assert(sites[q] == e.span);
    }
    if e.file == file && e.replace == new_name && sites.contains(e.span) {
        let q = choose|q: int| 0 <= q < sites.len() && sites[q] == e.span;
        assert(all[q] == e);
    }
    if e.replace == new_name {
        lemma_dedup_keeps(ord, e);
    } else {
        crate::rename_reach::lemma_dedup_replace(ord, new_name);
    }
}

// ---------- references ----------

proof fn lemma_bound_grows(es: Seq<HirExprV>, k: int, n: int)
    requires
        0 <= k <= n <= es.len(),
    ensures
        bound(es, k).len() <= bound(es, n).len(),
        bound(es, n).take(bound(es, k).len() as int) == bound(es, k),
    decreases n - k,
{
    if k < n {
        lemma_bound_grows(es, k, n - 1);
        let front = bound(es, n - 1);
        let now = bound(es, n);
        assert(front.len() <= now.len());
        assert(now.take(front.len() as int) =~= front);
        assert(now.take(bound(es, k).len() as int) =~= front.take(bound(es, k).len() as int));
    } else {
        assert(bound(es, n).take(bound(es, n).len() as int) =~= bound(es, n));
    }
}

proof fn lemma_assigned(ss: Seq<HirStmtV>, r: int, n: int)
    requires
        0 <= r < n <= ss.len(),
        ss[r] is Assign,
    ensures
        assigned(ss, r).len() < assigned(ss, n).len(),
        assigned(ss, n)[assigned(ss, r).len() as int] == BoundTo::Symbol(
            ss[r]->Assign_target.base,
        ),
    decreases n - r,
{
    if r + 1 < n {
        lemma_assigned(ss, r, n - 1);
    }
}

/// The bindings of a body list every reference of it, in order, with what
/// it is bound to: each name that is read, each function that is called,
/// each `data` and variant that is constructed, and each local that is
/// assigned to. So two bodies with the same bindings bind each reference
/// alike.
pub proof fn law_bindings_list_every_reference(b: HirBodyV, q: int, r: int)
    requires
        0 <= q < b.exprs.len(),
    ensures
        ({
            let all = bindings_of(b);
            let at = bound(b.exprs, q).len() as int;
            match b.exprs[q].kind {
                HirExprKindV::Var(sym) => at < all.len() && all[at] == BoundTo::Symbol(sym),
                HirExprKindV::Call { def, args } => at < all.len() && all[at] == BoundTo::Def(def),
                HirExprKindV::StructLit { def, fields } => at < all.len() && all[at]
                    == BoundTo::Def(def),
                HirExprKindV::VariantLit { def, variant, args } => at < all.len() && all[at]
                    == BoundTo::Def(def),
                HirExprKindV::Block { stmts, tail } => 0 <= r < stmts.len() && stmts[r] is Assign
                    ==> at + assigned(stmts, r).len() < all.len() && all[at + assigned(
                    stmts,
                    r,
                ).len()] == BoundTo::Symbol(stmts[r]->Assign_target.base),
                _ => true,
            }
        }),
{
    let es = b.exprs;
    let n = es.len() as int;
    lemma_bound_grows(es, q + 1, n);
    let all = bindings_of(b);
    let here = bound(es, q + 1);
    let at = bound(es, q).len() as int;
    assert(all.take(here.len() as int) == here);
    match es[q].kind {
        HirExprKindV::Block { stmts, tail } => {
            if 0 <= r < stmts.len() && stmts[r] is Assign {
                lemma_assigned(stmts, r, stmts.len() as int);
                let k = at + assigned(stmts, r).len();
                assert(here[k] == assigned(stmts, stmts.len() as int)[assigned(
                    stmts,
                    r,
                ).len() as int]);
                assert(all[k] == here[k]);
            }
        },
        HirExprKindV::Var(sym) => {
            assert(here[at] == BoundTo::Symbol(sym));
            assert(all[at] == here[at]);
        },
        HirExprKindV::Call { def, args } => {
            assert(here[at] == BoundTo::Def(def));
            assert(all[at] == here[at]);
        },
        HirExprKindV::StructLit { def, fields } => {
            assert(here[at] == BoundTo::Def(def));
            assert(all[at] == here[at]);
        },
        HirExprKindV::VariantLit { def, variant, args } => {
            assert(here[at] == BoundTo::Def(def));
            assert(all[at] == here[at]);
        },
        _ => {},
    }
}

} // verus!
