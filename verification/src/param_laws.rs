//! What renaming a parameter inside its function promises: the new name
//! is one that the function does not bind yet, and every token bound to
//! the parameter is rewritten, and nothing else.

use crate::ast::item_span;
use crate::code::Code;
use crate::hir::{HirBodyV, HirExprKindV, HirExprV, HirStmtV, ParamDef, Symbol};
use crate::patch::{PatchErrorV, PatchOp};
use crate::patch_edits::{local_named, op_edits_of, rename_param_of, sig_param, target_item};
use crate::snapshot::{
    binding_sites, decl_sites, lowered_of, place_sites, stmts_of, var_sites, SnapV,
};
use crate::source::{lemma_position, lookup, span_abs, FileId, InternId, Span, SymbolId};
use crate::text::{bytes_of, trimmed};
use vstd::prelude::*;

verus! {

/// No name occurs twice.
pub open spec fn names_apart(names: Seq<Seq<char>>) -> bool {
    forall|i: int, j: int|
        0 <= i < j < names.len() ==> #[trigger] names[i] != #[trigger] names[j]
}

/// An interned name is spelled so.
pub open spec fn spelled(names: Seq<Seq<char>>, id: InternId, name: Seq<char>) -> bool {
    id.raw < names.len() && names[id.raw as int] == name
}

/// A parameter or a local of the body bears a name.
pub open spec fn binds_name(s: SnapV, b: HirBodyV, name: Seq<char>) -> bool {
    exists|i: int|
        0 <= i < b.local_symbols.len() && spelled(
            s.names,
            (#[trigger] b.local_symbols[i]).name,
            name,
        )
}

/// A statement of the body assigns to a binding, or to a field of it,
/// and its target starts with the token `sp`.
pub open spec fn assigns_at(st: HirStmtV, sym: SymbolId, len: nat, sp: Span) -> bool {
    match st {
        HirStmtV::Assign { target, value, span } => {
            &&& target.base == sym
            &&& sp.start == target.span.start
            &&& sp.end == (if target.span.start + len <= u32::MAX {
                target.span.start + len
            } else {
                u32::MAX as int
            })
        },
        _ => false,
    }
}

/// The `r`-th statement of the `q`-th expression, when that is a block.
pub open spec fn stmt_at(b: HirBodyV, q: int, r: int) -> Option<HirStmtV> {
    if 0 <= q < b.exprs.len() {
        match b.exprs[q].kind {
            HirExprKindV::Block { stmts, tail } => if 0 <= r < stmts.len() {
                Some(stmts[r])
            } else {
                None
            },
            _ => None,
        }
    } else {
        None
    }
}

/// A token of the body is bound to a symbol: it declares it, reads it,
/// or starts the target of an assignment to it. `len` is the length of
/// its name.
pub open spec fn bound_token(b: HirBodyV, sym: SymbolId, len: nat, sp: Span) -> bool {
    ||| sym matches SymbolId::Local(i) && i < b.local_symbols.len() && sp
        == b.local_symbols[i as int].span
    ||| exists|q: int|
        0 <= q < b.exprs.len() && (#[trigger] b.exprs[q]).kind == HirExprKindV::Var(sym) && sp
            == b.exprs[q].span
    ||| exists|q: int, r: int|
        (#[trigger] stmt_at(b, q, r)) is Some && assigns_at(stmt_at(b, q, r)->0, sym, len, sp)
}

proof fn lemma_lookup(names: Seq<Seq<char>>, id: InternId, name: Seq<char>)
    requires
        names_apart(names),
    ensures
        spelled(names, id, name) ==> lookup(names, name) == Some(id),
        lookup(names, name) == Some(id) && names.len() <= usize::MAX ==> spelled(names, id, name),
{
    lemma_position(names, name);
    if spelled(names, id, name) {
        let i = crate::source::position(names, name)->0;
        assert(names[i] == name);
        if i < id.raw {
            assert(names[i] != names[id.raw as int]);
        } else if id.raw < i {
            assert(names[id.raw as int] != names[i]);
        }
    }
}

proof fn lemma_local_named(ss: Seq<Symbol>, id: InternId)
    ensures
        match local_named(ss, id) {
            Some(x) => x.name == id && ss.contains(x),
            None => forall|i: int| 0 <= i < ss.len() ==> (#[trigger] ss[i]).name != id,
        },
    decreases ss.len(),
{
    if ss.len() > 0 {
        let front = ss.drop_last();
        lemma_local_named(front, id);
        match local_named(front, id) {
            Some(x) => {
                let i = choose|i: int| 0 <= i < front.len() && front[i] == x;
                assert(ss[i] == x);
            },
            None => {
                assert forall|i: int| 0 <= i < ss.len() && ss.last().name != id implies (
                #[trigger] ss[i]).name != id by {
                    if i < front.len() {
                        assert(front[i] == ss[i]);
                    }
                }
                assert(ss[ss.len() - 1] == ss.last());
            },
        }
    }
}

proof fn lemma_sig_param(ps: Seq<ParamDef>, id: InternId, i: int)
    requires
        0 <= i < ps.len(),
        ps[i].name == id,
        forall|j: int| 0 <= j < i ==> (#[trigger] ps[j]).name != id,
    ensures
        sig_param(ps, id) == Some(ps[i]),
    decreases ps.len(),
{
    let front = ps.drop_last();
    if i < front.len() {
        assert(front[i] == ps[i]);
        assert forall|j: int| 0 <= j < i implies (#[trigger] front[j]).name != id by {
            assert(front[j] == ps[j]);
        }
        lemma_sig_param(front, id, i);
    } else {
        lemma_no_sig_param(front, id, ps);
    }
}

proof fn lemma_no_sig_param(front: Seq<ParamDef>, id: InternId, ps: Seq<ParamDef>)
    requires
        front.len() < ps.len(),
        front =~= ps.take(front.len() as int),
        forall|j: int| 0 <= j < front.len() ==> (#[trigger] ps[j]).name != id,
    ensures
        sig_param(front, id) is None,
    decreases front.len(),
{
    if front.len() > 0 {
        assert(ps[front.len() - 1].name != id);
        lemma_no_sig_param(front.drop_last(), id, ps);
    }
}

proof fn lemma_vars(es: Seq<HirExprV>, sym: SymbolId, sp: Span)
    ensures
        var_sites(es, sym).contains(sp) <==> exists|q: int|
            0 <= q < es.len() && (#[trigger] es[q]).kind == HirExprKindV::Var(sym) && sp
                == es[q].span,
    decreases es.len(),
{
    if es.len() > 0 {
        let front = es.drop_last();
        let done = var_sites(front, sym);
        lemma_vars(front, sym, sp);
        assert(es[es.len() - 1] == es.last());
        if es.last().kind == HirExprKindV::Var(sym) {
            lemma_push_contains(done, es.last().span, sp);
        }
        if exists|q: int|
            0 <= q < es.len() && (#[trigger] es[q]).kind == HirExprKindV::Var(sym) && sp
                == es[q].span {
            let q = choose|q: int|
                0 <= q < es.len() && (#[trigger] es[q]).kind == HirExprKindV::Var(sym) && sp
                    == es[q].span;
            if q < front.len() {
                assert(front[q] == es[q]);
            }
        }
        if done.contains(sp) {
            let q = choose|q: int|
                0 <= q < front.len() && (#[trigger] front[q]).kind == HirExprKindV::Var(sym) && sp
                    == front[q].span;
            assert(es[q] == front[q]);
        }
    }
}

proof fn lemma_push_contains<T>(v: Seq<T>, x: T, y: T)
    ensures
        v.push(x).contains(y) <==> v.contains(y) || y == x,
{
    let w = v.push(x);
    assert(w[v.len() as int] == x);
    if v.contains(y) {
        let i = choose|i: int| 0 <= i < v.len() && v[i] == y;
        assert(w[i] == y);
    }
    if w.contains(y) && y != x {
        let i = choose|i: int| 0 <= i < w.len() && w[i] == y;
        assert(v[i] == y);
    }
}

proof fn lemma_concat_contains<T>(a: Seq<T>, b: Seq<T>, y: T)
    ensures
        (a + b).contains(y) <==> a.contains(y) || b.contains(y),
{
    let w = a + b;
    if a.contains(y) {
        let i = choose|i: int| 0 <= i < a.len() && a[i] == y;
        assert(w[i] == y);
    }
    if b.contains(y) {
        let i = choose|i: int| 0 <= i < b.len() && b[i] == y;
        assert(w[a.len() + i] == y);
    }
    if w.contains(y) {
        let i = choose|i: int| 0 <= i < w.len() && w[i] == y;
        if i < a.len() {
            assert(a[i] == y);
        } else {
            assert(b[i - a.len()] == y);
        }
    }
}

pub(crate) proof fn lemma_stmts(es: Seq<HirExprV>, st: HirStmtV)
    ensures
        stmts_of(es).contains(st) <==> exists|q: int|
            0 <= q < es.len() && ((#[trigger] es[q]).kind matches HirExprKindV::Block {
                stmts,
                tail,
            } && stmts.contains(st)),
    decreases es.len(),
{
    if es.len() > 0 {
        let front = es.drop_last();
        lemma_stmts(front, st);
        let more = match es.last().kind {
            HirExprKindV::Block { stmts, tail } => stmts,
            _ => Seq::empty(),
        };
        lemma_concat_contains(stmts_of(front), more, st);
        assert(es[es.len() - 1] == es.last());
        if stmts_of(front).contains(st) {
            let q = choose|q: int|
                0 <= q < front.len() && ((#[trigger] front[q]).kind matches HirExprKindV::Block {
                    stmts,
                    tail,
                } && stmts.contains(st));
            assert(es[q] == front[q]);
        }
        if exists|q: int|
            0 <= q < es.len() && ((#[trigger] es[q]).kind matches HirExprKindV::Block {
                stmts,
                tail,
            } && stmts.contains(st)) {
            let q = choose|q: int|
                0 <= q < es.len() && ((#[trigger] es[q]).kind matches HirExprKindV::Block {
                    stmts,
                    tail,
                } && stmts.contains(st));
            if q < front.len() {
                assert(front[q] == es[q]);
            }
        }
    }
}

proof fn lemma_places(ss: Seq<HirStmtV>, sym: SymbolId, len: nat, sp: Span)
    ensures
        place_sites(ss, sym, len).contains(sp) <==> exists|r: int|
            0 <= r < ss.len() && assigns_at(#[trigger] ss[r], sym, len, sp),
    decreases ss.len(),
{
    if ss.len() > 0 {
        let front = ss.drop_last();
        let done = place_sites(front, sym, len);
        lemma_places(front, sym, len, sp);
        assert(ss[ss.len() - 1] == ss.last());
        match ss.last() {
            HirStmtV::Assign { target, value, span } => if target.base == sym {
                lemma_push_contains(done, crate::snapshot::base_token(target.span, len), sp);
                assert(assigns_at(ss.last(), sym, len, sp) <==> sp == crate::snapshot::base_token(
                    target.span,
                    len,
                ));
            },
            _ => {},
        }
        if exists|r: int| 0 <= r < ss.len() && assigns_at(#[trigger] ss[r], sym, len, sp) {
            let r = choose|r: int| 0 <= r < ss.len() && assigns_at(#[trigger] ss[r], sym, len, sp);
            if r < front.len() {
                assert(front[r] == ss[r]);
            }
        }
        if done.contains(sp) {
            let r = choose|r: int|
                0 <= r < front.len() && assigns_at(#[trigger] front[r], sym, len, sp);
            assert(ss[r] == front[r]);
        }
    }
}

/// The sites of a local are its tokens: each token that is bound to it,
/// and no other, moved to file coordinates.
pub proof fn law_sites_are_the_bound_tokens(
    b: HirBodyV,
    sym: SymbolId,
    len: nat,
    base: u32,
    at: Span,
)
    ensures
        binding_sites(b, sym, len, base).contains(at) <==> exists|sp: Span|
            #[trigger] bound_token(b, sym, len, sp) && at == span_abs(sp, base),
{
    let rel = decl_sites(b, sym) + var_sites(b.exprs, sym) + place_sites(
        stmts_of(b.exprs),
        sym,
        len,
    );
    let sites = binding_sites(b, sym, len, base);
    assert forall|sp: Span| #[trigger] rel.contains(sp) <==> bound_token(b, sym, len, sp) by {
        lemma_concat_contains(
            decl_sites(b, sym) + var_sites(b.exprs, sym),
            place_sites(stmts_of(b.exprs), sym, len),
            sp,
        );
        lemma_concat_contains(decl_sites(b, sym), var_sites(b.exprs, sym), sp);
        lemma_vars(b.exprs, sym, sp);
        lemma_places(stmts_of(b.exprs), sym, len, sp);
        let ss = stmts_of(b.exprs);
        if exists|r: int| 0 <= r < ss.len() && assigns_at(#[trigger] ss[r], sym, len, sp) {
            let r = choose|r: int| 0 <= r < ss.len() && assigns_at(#[trigger] ss[r], sym, len, sp);
            lemma_stmts(b.exprs, ss[r]);
            assert(ss.contains(ss[r]));
            let q = choose|q: int|
                0 <= q < b.exprs.len() && ((#[trigger] b.exprs[q]).kind matches HirExprKindV::Block {
                    stmts,
                    tail,
                } && stmts.contains(ss[r]));
            match b.exprs[q].kind {
                HirExprKindV::Block { stmts, tail } => {
                    let r2 = choose|r2: int| 0 <= r2 < stmts.len() && stmts[r2] == ss[r];
                    assert(stmt_at(b, q, r2) == Some(ss[r]));
                },
                _ => {},
            }
        }
        if exists|q: int, r: int|
            (#[trigger] stmt_at(b, q, r)) is Some && assigns_at(
                stmt_at(b, q, r)->0,
                sym,
                len,
                sp,
            ) {
            let (q, r) = choose|q: int, r: int|
                (#[trigger] stmt_at(b, q, r)) is Some && assigns_at(
                    stmt_at(b, q, r)->0,
                    sym,
                    len,
                    sp,
                );
            let st = stmt_at(b, q, r)->0;
            lemma_stmts(b.exprs, st);
            match b.exprs[q].kind {
                HirExprKindV::Block { stmts, tail } => {
                    assert(stmts[r] == st);
                    assert(stmts.contains(st));
                },
                _ => {},
            }
            let r2 = choose|r2: int| 0 <= r2 < ss.len() && ss[r2] == st;
            assert(assigns_at(ss[r2], sym, len, sp));
        }
        let decl = decl_sites(b, sym);
        match sym {
            SymbolId::Local(i) => {
                if i < b.local_symbols.len() {
                    assert(decl[0] == b.local_symbols[i as int].span);
                }
            },
            SymbolId::Module(_) => {},
        }
    }
    if sites.contains(at) {
        let i = choose|i: int| 0 <= i < sites.len() && sites[i] == at;
        assert(rel.contains(rel[i]));
        assert(bound_token(b, sym, len, rel[i]));
    }
    if exists|sp: Span| #[trigger] bound_token(b, sym, len, sp) && at == span_abs(sp, base) {
        let sp = choose|sp: Span|
            #[trigger] bound_token(b, sym, len, sp) && at == span_abs(sp, base);
        assert(rel.contains(sp));
        let i = choose|i: int| 0 <= i < rel.len() && rel[i] == sp;
        assert(sites[i] == at);
    }
}

/// A function, its lowered body, and the position of the parameter that
/// is the first to bear a name.
pub open spec fn is_param_of(
    s: SnapV,
    root: FileId,
    symbol: Seq<char>,
    param: Seq<char>,
    b: HirBodyV,
    ps: Seq<ParamDef>,
    i: int,
) -> bool {
    &&& target_item(s, root, symbol) is Ok
    &&& target_item(s, root, symbol)->Ok_0.item is Fn
    &&& crate::hir::sig_of(s.scope, target_item(s, root, symbol)->Ok_0.def) is Some
    &&& crate::hir::sig_of(s.scope, target_item(s, root, symbol)->Ok_0.def)->0.params == ps
    &&& lowered_of(s, target_item(s, root, symbol)->Ok_0.def) == Some(b)
    &&& 0 <= i < ps.len()
    &&& spelled(s.names, ps[i].name, param)
    &&& forall|j: int| 0 <= j < i ==> !spelled(s.names, (#[trigger] ps[j]).name, param)
}

proof fn lemma_found(
    s: SnapV,
    root: FileId,
    symbol: Seq<char>,
    param: Seq<char>,
    b: HirBodyV,
    ps: Seq<ParamDef>,
    i: int,
)
    requires
        names_apart(s.names),
        is_param_of(s, root, symbol, param, b, ps, i),
    ensures
        lookup(s.names, param) == Some(ps[i].name),
        sig_param(ps, ps[i].name) == Some(ps[i]),
{
    lemma_lookup(s.names, ps[i].name, param);
    assert forall|j: int| 0 <= j < i implies (#[trigger] ps[j]).name != ps[i].name by {
        assert(!spelled(s.names, ps[j].name, param));
    }
    lemma_sig_param(ps, ps[i].name, i);
}

/// A rename of a parameter goes through exactly when no parameter and no
/// local of the function bears the new name already. Where one does, the
/// op is refused with a name conflict about the new name, which points
/// at a binding that bears it.
pub proof fn law_rename_param_captures_nothing(
    s: SnapV,
    root: FileId,
    op: usize,
    symbol: Seq<char>,
    param: Seq<char>,
    to: Seq<char>,
    b: HirBodyV,
    ps: Seq<ParamDef>,
    i: int,
)
    requires
        names_apart(s.names),
        s.names.len() <= usize::MAX,
        is_param_of(s, root, symbol, param, b, ps, i),
    ensures
        rename_param_of(s, root, op, symbol, param, to) is Ok <==> !binds_name(s, b, trimmed(to)),
        binds_name(s, b, trimmed(to)) ==> ({
            &&& rename_param_of(s, root, op, symbol, param, to) matches Err(
                PatchErrorV::Conflict(d),
            )
            &&& d.code == Code::NameConflict
            &&& d.subject == Some(trimmed(to))
            &&& d.primary is Some
            &&& exists|k: int|
                0 <= k < b.local_symbols.len() && spelled(
                    s.names,
                    (#[trigger] b.local_symbols[k]).name,
                    trimmed(to),
                ) && d.primary->0 == span_abs(
                    b.local_symbols[k].span,
                    item_span(target_item(s, root, symbol)->Ok_0.item).start,
                )
        }),
{
    let name = trimmed(to);
    lemma_found(s, root, symbol, param, b, ps, i);
    match lookup(s.names, name) {
        Some(id) => {
            lemma_lookup(s.names, id, name);
            lemma_local_named(b.local_symbols, id);
            match local_named(b.local_symbols, id) {
                Some(x) => {
                    let k = choose|k: int|
                        0 <= k < b.local_symbols.len() && b.local_symbols[k] == x;
                    assert(spelled(s.names, b.local_symbols[k].name, name));
                },
                None => {
                    assert forall|k: int| 0 <= k < b.local_symbols.len() implies !spelled(
                        s.names,
                        (#[trigger] b.local_symbols[k]).name,
                        name,
                    ) by {
                        lemma_lookup(s.names, b.local_symbols[k].name, name);
                    }
                },
            }
        },
        None => {
            assert forall|k: int| 0 <= k < b.local_symbols.len() implies !spelled(
                s.names,
                (#[trigger] b.local_symbols[k]).name,
                name,
            ) by {
                lemma_lookup(s.names, b.local_symbols[k].name, name);
            }
        },
    }
}

/// A rename of a parameter that goes through puts the new name, and
/// nothing else, at every token of the function that is bound to that
/// parameter, and at no other place: where it is declared, where it is
/// read and where it or a field of it is assigned to.
pub proof fn law_rename_param_reaches_every_token(
    s: SnapV,
    root: FileId,
    op: usize,
    symbol: Seq<char>,
    param: Seq<char>,
    to: Seq<char>,
    b: HirBodyV,
    ps: Seq<ParamDef>,
    i: int,
    at: Span,
)
    requires
        names_apart(s.names),
        is_param_of(s, root, symbol, param, b, ps, i),
        rename_param_of(s, root, op, symbol, param, to) is Ok,
    ensures
        ({
            let t = target_item(s, root, symbol)->Ok_0;
            let es = rename_param_of(s, root, op, symbol, param, to)->Ok_0.edits;
            &&& forall|k: int|
                0 <= k < es.len() ==> (#[trigger] es[k]).replace == trimmed(to) && es[k].file
                    == t.file && es[k].op == op
            &&& (exists|k: int| 0 <= k < es.len() && (#[trigger] es[k]).span == at) <==> exists|
                sp: Span,
            |
                #[trigger] bound_token(b, ps[i].symbol, bytes_of(param).len(), sp) && at
                    == span_abs(sp, item_span(t.item).start)
        }),
{
    lemma_found(s, root, symbol, param, b, ps, i);
    let t = target_item(s, root, symbol)->Ok_0;
    let es = rename_param_of(s, root, op, symbol, param, to)->Ok_0.edits;
    let base = item_span(t.item).start;
    let sites = binding_sites(b, ps[i].symbol, bytes_of(param).len(), base);
    law_sites_are_the_bound_tokens(b, ps[i].symbol, bytes_of(param).len(), base, at);
    assert(es.len() == sites.len());
    if sites.contains(at) {
        let k = choose|k: int| 0 <= k < sites.len() && sites[k] == at;
        assert(es[k].span == at);
    }
    if exists|k: int| 0 <= k < es.len() && (#[trigger] es[k]).span == at {
        let k = choose|k: int| 0 <= k < es.len() && (#[trigger] es[k]).span == at;
        assert(sites[k] == at);
    }
}

/// The op of a patch that renames a parameter does just that: it goes
/// through only where the new name is bound nowhere in the function.
pub proof fn law_rename_param_op_captures_nothing(
    s: SnapV,
    root: FileId,
    seq: usize,
    op: PatchOp,
    added: Option<Seq<char>>,
    b: HirBodyV,
    ps: Seq<ParamDef>,
    i: int,
)
    requires
        names_apart(s.names),
        s.names.len() <= usize::MAX,
        op is RenameParam,
        is_param_of(s, root, op->RenameParam_symbol@, op->RenameParam_param@, b, ps, i),
    ensures
        op_edits_of(s, root, seq, op, added) is Ok <==> !binds_name(
            s,
            b,
            trimmed(op->RenameParam_to@),
        ),
        op_edits_of(s, root, seq, op, added) matches Err(e) ==> (e matches PatchErrorV::Conflict(d)
            && d.code == Code::NameConflict),
{
    law_rename_param_captures_nothing(
        s,
        root,
        seq,
        op->RenameParam_symbol@,
        op->RenameParam_param@,
        op->RenameParam_to@,
        b,
        ps,
        i,
    );
}

} // verus!
