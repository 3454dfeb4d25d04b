//! Spans and what they cover.
//!
//! A tree or a body hangs together with its text where each span lies
//! on whole characters of the text, and a name's span covers the name.

use crate::ast::{
    item_name, item_span, type_path, type_span, AstModuleV, BlockV, ExprV, FieldInitV, FieldV,
    IdentV, ItemV, MatchArmV, PathV, PatternV, StmtV, TypeExprV,
};
use crate::hir::{HirBodyV, HirExprKindV, HirExprV, HirStmtV, Name};
use crate::seam::{back_blanks, back_spaces, byte_outside, first_byte, is_space, skip_spaces};
use crate::snapshot::{base_token, binding_sites, decl_sites, place_sites, stmts_of, var_sites};
use crate::source::{name_of, span_abs, Span, SymbolId};
use crate::text::{bytes_of, slice_spec};
use vstd::prelude::*;
use vstd::utf8::*;

verus! {

// ---------- spans of a text ----------

/// A span lies on whole characters of a text.
pub open spec fn is_whole(src: Seq<char>, sp: Span) -> bool {
    slice_spec(src, sp.start as int, sp.end as int) is Some
}

/// A span lies on whole characters of a text and covers more than white
/// space.
pub open spec fn is_inked(src: Seq<char>, sp: Span) -> bool {
    is_whole(src, sp) && exists|p: int|
        sp.start <= p < sp.end && !is_space(#[trigger] bytes_of(src)[p])
}

/// A span covers exactly `name`.
pub open spec fn is_spelled(src: Seq<char>, sp: Span, name: Seq<char>) -> bool {
    slice_spec(src, sp.start as int, sp.end as int) == Some(name)
}

/// A position of a text between two characters.
pub open spec fn is_gap(src: Seq<char>, p: int) -> bool {
    0 <= p <= bytes_of(src).len() && is_char_boundary(bytes_of(src), p)
}

proof fn lemma_behind_narrow(b: Seq<u8>, p: int)
    requires
        valid_utf8(b),
        0 <= p < b.len(),
        b[p] < 0x80,
        is_char_boundary(b, p),
    ensures
        is_char_boundary(b, p + 1),
    decreases b.len(),
{
    let n = length_of_first_scalar(b);
    let rest = pop_first_scalar(b);
    if p == 0 {
        assert(n == 1);
        assert(is_char_boundary(rest, 0)) by {
            is_char_boundary_start_end_of_seq(rest);
        }
    } else {
        assert(is_char_boundary(rest, p - n));
        assert(p - n >= 0) by {
            reveal_with_fuel(is_char_boundary, 2);
        }
        assert(rest[p - n] == b[p]);
        lemma_behind_narrow(rest, p - n);
        assert(p + 1 - n == p - n + 1);
    }
}

/// There is a gap before and behind every one-byte character.
pub proof fn lemma_narrow(src: Seq<char>, p: int)
    requires
        0 <= p < bytes_of(src).len(),
        bytes_of(src)[p] < 0x80,
    ensures
        is_gap(src, p),
        is_gap(src, p + 1),
{
    encode_utf8_valid_utf8(src);
    is_char_boundary_iff_not_is_continuation_byte(bytes_of(src), p);
    lemma_behind_narrow(bytes_of(src), p);
}

/// Both ends of a text are gaps.
pub proof fn lemma_ends(src: Seq<char>)
    ensures
        is_gap(src, 0),
        is_gap(src, bytes_of(src).len() as int),
{
    encode_utf8_valid_utf8(src);
    is_char_boundary_start_end_of_seq(bytes_of(src));
}

/// Behind white space there is a gap, if there was one before it.
pub proof fn lemma_skip(src: Seq<char>, p: int, stop: int)
    requires
        is_gap(src, p),
        p <= stop < bytes_of(src).len(),
        !is_space(bytes_of(src)[stop]),
    ensures
        p <= skip_spaces(bytes_of(src), p) <= stop,
        is_gap(src, skip_spaces(bytes_of(src), p)),
    decreases stop - p,
{
    let b = bytes_of(src);
    if is_space(b[p]) {
        lemma_narrow(src, p);
        lemma_skip(src, p + 1, stop);
    }
}

/// Before white space there is a gap, if there was one behind it.
pub proof fn lemma_back(src: Seq<char>, p: int)
    requires
        is_gap(src, p),
    ensures
        0 <= back_spaces(bytes_of(src), p) <= p,
        is_gap(src, back_spaces(bytes_of(src), p)),
    decreases p,
{
    let b = bytes_of(src);
    if 0 < p && is_space(b[p - 1]) {
        lemma_narrow(src, p - 1);
        lemma_back(src, p - 1);
    }
}

/// Before blanks there is a gap, if there was one behind them.
pub proof fn lemma_back_blanks(src: Seq<char>, p: int)
    requires
        is_gap(src, p),
    ensures
        0 <= back_blanks(bytes_of(src), p) <= p,
        is_gap(src, back_blanks(bytes_of(src), p)),
    decreases p,
{
    let b = bytes_of(src);
    if 0 < p && (b[p - 1] == 0x20 || b[p - 1] == 0x9) {
        lemma_narrow(src, p - 1);
        lemma_back_blanks(src, p - 1);
    }
}

/// A byte that was found stands where it was found.
pub proof fn lemma_first_byte(b: Seq<u8>, p: int, x: u8)
    ensures
        first_byte(b, p, x) matches Some(q) ==> p <= q < b.len() && 0 <= q && b[q] == x,
    decreases b.len() - p,
{
    if 0 <= p < b.len() && b[p] != x {
        lemma_first_byte(b, p + 1, x);
    }
}

/// A byte that was found outside comments stands where it was found.
pub proof fn lemma_byte_outside(b: Seq<u8>, p: int, lim: int, x: u8)
    ensures
        byte_outside(b, p, lim, x) matches Some(q) ==> 0 <= q < b.len() && b[q] == x,
    decreases lim - p,
{
    if 0 <= p < lim && lim <= b.len() && b[p] != x {
        if crate::seam::pair_at(b, p, 0x2f, 0x2f) {
            let q = crate::seam::line_comment_end(b, p + 1, lim);
            if p < q <= lim {
                lemma_byte_outside(b, q, lim, x);
            }
        } else if crate::seam::pair_at(b, p, 0x2f, 0x2a) {
            let q = crate::seam::least(crate::seam::block_comment_end(b, p + 2, lim) + 2, lim);
            if p < q <= lim {
                lemma_byte_outside(b, q, lim, x);
            }
        } else {
            lemma_byte_outside(b, p + 1, lim, x);
        }
    }
}

// ---------- trees ----------

/// A field hangs together with its text.
pub open spec fn field_fits(src: Seq<char>, f: FieldV) -> bool {
    is_whole(src, f.span) && is_whole(src, f.name.span) && is_inked(src, type_span(f.ty))
}

/// An item hangs together with its text.
pub open spec fn item_fits(src: Seq<char>, it: ItemV) -> bool {
    is_whole(src, item_span(it)) && match it {
        ItemV::Fn(f) => {
            &&& is_inked(src, f.body.span)
            &&& forall|i: int|
                0 <= i < f.params.len() ==> is_inked(src, type_span((#[trigger] f.params[i]).ty))
            &&& f.ret matches Some(t) ==> is_inked(src, type_span(t))
        },
        ItemV::Data(d) => forall|i: int|
            0 <= i < d.fields.len() ==> field_fits(src, #[trigger] d.fields[i]),
    }
}

/// A tree hangs together with its text: the spans of its imports, items,
/// bodies, fields and types lie on whole characters, and bodies and
/// types cover more than white space.
pub open spec fn tree_fits(src: Seq<char>, m: AstModuleV) -> bool {
    &&& forall|i: int| 0 <= i < m.uses.len() ==> is_whole(src, (#[trigger] m.uses[i]).span)
    &&& forall|i: int| 0 <= i < m.items.len() ==> item_fits(src, #[trigger] m.items[i])
}

// ---------- names of a tree ----------

/// A name's span covers the name.
pub open spec fn ident_spelled(src: Seq<char>, n: IdentV) -> bool {
    is_spelled(src, n.span, n.name)
}

/// The names of a path are spelled.
pub open spec fn path_spelled(src: Seq<char>, p: PathV) -> bool {
    forall|i: int| 0 <= i < p.segs.len() ==> ident_spelled(src, #[trigger] p.segs[i])
}

/// The names of a type are spelled.
pub open spec fn type_spelled(src: Seq<char>, t: TypeExprV) -> bool {
    path_spelled(src, type_path(t))
}

/// The paths and types in an expression are spelled.
pub open spec fn expr_spelled(src: Seq<char>, e: ExprV) -> bool
    decreases e,
{
    match e {
        ExprV::Call { callee, args, span } => path_spelled(src, callee) && exprs_spelled(src, args),
        ExprV::StructLit { name, fields, span } => path_spelled(src, name) && inits_spelled(
            src,
            fields,
        ),
        ExprV::Path { path } => path_spelled(src, path),
        ExprV::Field { base, name, span } => expr_spelled(src, *base),
        ExprV::Index { base, index, span } => expr_spelled(src, *base) && expr_spelled(src, *index),
        ExprV::Slice { base, lo, hi, span } => {
            &&& expr_spelled(src, *base)
            &&& match lo {
                Some(x) => expr_spelled(src, *x),
                None => true,
            }
            &&& match hi {
                Some(x) => expr_spelled(src, *x),
                None => true,
            }
        },
        ExprV::ArrayLit { elems, span } => exprs_spelled(src, elems),
        ExprV::Range { lo, hi, span } => {
            &&& match lo {
                Some(x) => expr_spelled(src, *x),
                None => true,
            }
            &&& match hi {
                Some(x) => expr_spelled(src, *x),
                None => true,
            }
        },
        ExprV::Match { scrutinee, arms, span } => expr_spelled(src, *scrutinee) && arms_spelled(
            src,
            arms,
        ),
        ExprV::For { var, mutable, iter, body, span } => expr_spelled(src, *iter) && block_spelled(
            src,
            body,
        ),
        ExprV::Binary { op, lhs, rhs, span } => expr_spelled(src, *lhs) && expr_spelled(src, *rhs),
        ExprV::Unary { op, expr, span } => expr_spelled(src, *expr),
        ExprV::If { cond, then_, else_, span } => {
            &&& expr_spelled(src, *cond)
            &&& block_spelled(src, then_)
            &&& match else_ {
                Some(x) => expr_spelled(src, *x),
                None => true,
            }
        },
        ExprV::Block { block, span } => block_spelled(src, block),
        ExprV::Var { name } => true,
        ExprV::Literal { value, span } => true,
        ExprV::Error { span } => true,
    }
}

/// The paths and types in a list of expressions are spelled.
pub open spec fn exprs_spelled(src: Seq<char>, es: Seq<ExprV>) -> bool
    decreases es,
{
    es.len() == 0 || (exprs_spelled(src, es.drop_last()) && expr_spelled(src, es.last()))
}

/// The paths and types in the initializers of a struct are spelled.
pub open spec fn inits_spelled(src: Seq<char>, fs: Seq<FieldInitV>) -> bool
    decreases fs,
{
    fs.len() == 0 || (inits_spelled(src, fs.drop_last()) && expr_spelled(src, fs.last().value))
}

/// The path of a pattern is spelled.
pub open spec fn pattern_spelled(src: Seq<char>, p: PatternV) -> bool {
    match p {
        PatternV::Bind { name } => true,
        PatternV::Variant { path, binds, span } => path_spelled(src, path),
    }
}

/// The paths and types in the arms of a match are spelled.
pub open spec fn arms_spelled(src: Seq<char>, arms: Seq<MatchArmV>) -> bool
    decreases arms,
{
    arms.len() == 0 || (arms_spelled(src, arms.drop_last()) && pattern_spelled(
        src,
        arms.last().pat,
    ) && expr_spelled(src, arms.last().body))
}

/// The paths and types in a block are spelled.
pub open spec fn block_spelled(src: Seq<char>, b: BlockV) -> bool
    decreases b,
{
    &&& stmts_spelled(src, b.stmts)
    &&& match b.tail {
        Some(x) => expr_spelled(src, *x),
        None => true,
    }
}

/// The paths and types in a list of statements are spelled.
pub open spec fn stmts_spelled(src: Seq<char>, ss: Seq<StmtV>) -> bool
    decreases ss,
{
    ss.len() == 0 || (stmts_spelled(src, ss.drop_last()) && stmt_spelled(src, ss.last()))
}

/// The paths and types in a statement are spelled.
pub open spec fn stmt_spelled(src: Seq<char>, st: StmtV) -> bool
    decreases st,
{
    match st {
        StmtV::Let { name, mutable, ty, init, span } => {
            &&& ty matches Some(t) ==> type_spelled(src, t)
            &&& match init {
                Some(e) => expr_spelled(src, e),
                None => true,
            }
        },
        StmtV::Assign { target, value, span } => expr_spelled(src, value),
        StmtV::Expr { expr, has_semi, span } => expr_spelled(src, expr),
        StmtV::Return { value, span } => match value {
            Some(e) => expr_spelled(src, e),
            None => true,
        },
    }
}

/// The name of an item, and the paths and types in it, are spelled.
pub open spec fn item_spelled(src: Seq<char>, it: ItemV) -> bool {
    ident_spelled(src, item_name(it)) && match it {
        ItemV::Data(d) => {
            &&& forall|i: int|
                0 <= i < d.fields.len() ==> type_spelled(src, (#[trigger] d.fields[i]).ty)
            &&& forall|i: int, k: int|
                0 <= i < d.variants.len() && 0 <= k < d.variants[i].payload.len()
                    ==> type_spelled(src, #[trigger] d.variants[i].payload[k])
        },
        ItemV::Fn(f) => {
            &&& forall|i: int|
                0 <= i < f.params.len() ==> type_spelled(src, (#[trigger] f.params[i]).ty)
            &&& f.ret matches Some(t) ==> type_spelled(src, t)
            &&& block_spelled(src, f.body)
        },
    }
}

/// The names of a tree are spelled: each one's span covers it.
pub open spec fn tree_spelled(src: Seq<char>, m: AstModuleV) -> bool {
    &&& forall|i: int| 0 <= i < m.uses.len() ==> path_spelled(src, (#[trigger] m.uses[i]).path)
    &&& forall|i: int| 0 <= i < m.items.len() ==> item_spelled(src, #[trigger] m.items[i])
}

// ---------- bodies ----------

/// The name of a local of a body.
pub open spec fn local_name(b: HirBodyV, names: Seq<Seq<char>>, sym: SymbolId) -> Option<
    Seq<char>,
> {
    match sym {
        SymbolId::Local(i) => if i < b.local_symbols.len() {
            Some(name_of(names, b.local_symbols[i as int].name))
        } else {
            None
        },
        SymbolId::Module(_) => None,
    }
}

/// Where an expression reads a local, its span covers the local's name.
pub open spec fn read_is_spelled(
    src: Seq<char>,
    names: Seq<Seq<char>>,
    base: u32,
    b: HirBodyV,
    e: HirExprV,
) -> bool {
    match e.kind {
        HirExprKindV::Var(sym) => local_name(b, names, sym) matches Some(n) ==> is_spelled(
            src,
            span_abs(e.span, base),
            n,
        ),
        _ => true,
    }
}

/// Where a statement assigns to a local, its target begins with the
/// local's name.
pub open spec fn write_is_spelled(
    src: Seq<char>,
    names: Seq<Seq<char>>,
    base: u32,
    b: HirBodyV,
    st: HirStmtV,
) -> bool {
    match st {
        HirStmtV::Assign { target, value, span } => local_name(b, names, target.base) matches Some(
            n,
        ) ==> is_spelled(src, span_abs(base_token(target.span, bytes_of(n).len()), base), n),
        _ => true,
    }
}

/// Every token of a body that stands for a local covers its name: the
/// declarations, the reads and the writes. The body's spans count from
/// `base`.
pub open spec fn locals_are_spelled(
    src: Seq<char>,
    names: Seq<Seq<char>>,
    base: u32,
    b: HirBodyV,
) -> bool {
    &&& forall|i: int|
        0 <= i < b.local_symbols.len() ==> is_spelled(
            src,
            span_abs((#[trigger] b.local_symbols[i]).span, base),
            name_of(names, b.local_symbols[i].name),
        )
    &&& forall|i: int|
        0 <= i < b.exprs.len() ==> read_is_spelled(src, names, base, b, #[trigger] b.exprs[i])
    &&& forall|i: int|
        0 <= i < stmts_of(b.exprs).len() ==> write_is_spelled(
            src,
            names,
            base,
            b,
            #[trigger] stmts_of(b.exprs)[i],
        )
}

/// Spans that all cover `name`.
pub open spec fn all_spelled(src: Seq<char>, v: Seq<Span>, name: Seq<char>) -> bool {
    forall|i: int| 0 <= i < v.len() ==> is_spelled(src, #[trigger] v[i], name)
}

proof fn lemma_reads(
    src: Seq<char>,
    names: Seq<Seq<char>>,
    base: u32,
    b: HirBodyV,
    es: Seq<HirExprV>,
    sym: SymbolId,
)
    requires
        local_name(b, names, sym) is Some,
        forall|i: int|
            0 <= i < es.len() ==> read_is_spelled(src, names, base, b, #[trigger] es[i]),
    ensures
        forall|i: int|
            0 <= i < var_sites(es, sym).len() ==> is_spelled(
                src,
                span_abs(#[trigger] var_sites(es, sym)[i], base),
                local_name(b, names, sym)->0,
            ),
    decreases es.len(),
{
    if es.len() > 0 {
        let head = es.drop_last();
        assert forall|i: int| 0 <= i < head.len() implies read_is_spelled(
            src,
            names,
            base,
            b,
            #[trigger] head[i],
        ) by {
            assert(head[i] == es[i]);
        }
        lemma_reads(src, names, base, b, head, sym);
        assert(read_is_spelled(src, names, base, b, es[es.len() - 1]));
        let done = var_sites(head, sym);
        let v = var_sites(es, sym);
        assert forall|i: int| 0 <= i < v.len() implies is_spelled(
            src,
            span_abs(#[trigger] v[i], base),
            local_name(b, names, sym)->0,
        ) by {
            if i < done.len() {
                assert(v[i] == done[i]);
            }
        }
    }
}

proof fn lemma_writes(
    src: Seq<char>,
    names: Seq<Seq<char>>,
    base: u32,
    b: HirBodyV,
    ss: Seq<HirStmtV>,
    sym: SymbolId,
)
    requires
        local_name(b, names, sym) is Some,
        forall|i: int|
            0 <= i < ss.len() ==> write_is_spelled(src, names, base, b, #[trigger] ss[i]),
    ensures
        ({
            let n = local_name(b, names, sym)->0;
            forall|i: int|
                0 <= i < place_sites(ss, sym, bytes_of(n).len()).len() ==> is_spelled(
                    src,
                    span_abs(#[trigger] place_sites(ss, sym, bytes_of(n).len())[i], base),
                    n,
                )
        }),
    decreases ss.len(),
{
    if ss.len() > 0 {
        let head = ss.drop_last();
        assert forall|i: int| 0 <= i < head.len() implies write_is_spelled(
            src,
            names,
            base,
            b,
            #[trigger] head[i],
        ) by {
            assert(head[i] == ss[i]);
        }
        lemma_writes(src, names, base, b, head, sym);
        assert(write_is_spelled(src, names, base, b, ss[ss.len() - 1]));
        let n = local_name(b, names, sym)->0;
        let done = place_sites(head, sym, bytes_of(n).len());
        let v = place_sites(ss, sym, bytes_of(n).len());
        assert forall|i: int| 0 <= i < v.len() implies is_spelled(
            src,
            span_abs(#[trigger] v[i], base),
            n,
        ) by {
            if i < done.len() {
                assert(v[i] == done[i]);
            }
        }
    }
}

/// In a body whose locals are spelled, every token bound to a local
/// covers the local's name.
pub proof fn law_local_tokens_bear_the_name(
    src: Seq<char>,
    names: Seq<Seq<char>>,
    base: u32,
    b: HirBodyV,
    sym: SymbolId,
)
    requires
        locals_are_spelled(src, names, base, b),
        local_name(b, names, sym) is Some,
    ensures
        ({
            let n = local_name(b, names, sym)->0;
            all_spelled(src, binding_sites(b, sym, bytes_of(n).len(), base), n)
        }),
{
    let n = local_name(b, names, sym)->0;
    let v = binding_sites(b, sym, bytes_of(n).len(), base);
    let reads = var_sites(b.exprs, sym);
    let writes = place_sites(stmts_of(b.exprs), sym, bytes_of(n).len());
    let decls = decl_sites(b, sym);
    lemma_reads(src, names, base, b, b.exprs, sym);
    lemma_writes(src, names, base, b, stmts_of(b.exprs), sym);
    assert forall|i: int| 0 <= i < v.len() implies is_spelled(src, #[trigger] v[i], n) by {
        let all = decls + reads + writes;
        assert(v[i] == span_abs(all[i], base));
        if i < decls.len() {
            assert(all[i] == decls[i]);
            assert(b.local_symbols[sym->Local_0 as int].span == decls[i]);
        } else if i < decls.len() + reads.len() {
            assert(all[i] == reads[i - decls.len()]);
        } else {
            assert(all[i] == writes[i - decls.len() - reads.len()]);
        }
    }
}

// ---------- field names of a body ----------

/// Names that lie on whole characters of a text. Their spans count from
/// `base`.
pub open spec fn names_fit(src: Seq<char>, base: u32, v: Seq<Name>) -> bool {
    forall|i: int| 0 <= i < v.len() ==> is_whole(src, span_abs((#[trigger] v[i]).span, base))
}

/// The field names of an expression lie on whole characters.
pub open spec fn expr_fields_fit(src: Seq<char>, base: u32, e: HirExprV) -> bool {
    match e.kind {
        HirExprKindV::Field { base: _, name, field: _ } => is_whole(
            src,
            span_abs(name.span, base),
        ),
        HirExprKindV::StructLit { def: _, fields } => forall|i: int|
            0 <= i < fields.len() ==> is_whole(
                src,
                span_abs((#[trigger] fields[i]).0.span, base),
            ),
        _ => true,
    }
}

/// The field names of a statement's target lie on whole characters.
pub open spec fn stmt_fields_fit(src: Seq<char>, base: u32, st: HirStmtV) -> bool {
    match st {
        HirStmtV::Assign { target, value, span } => names_fit(src, base, target.fields),
        _ => true,
    }
}

/// The field names of a body lie on whole characters.
pub open spec fn fields_fit(src: Seq<char>, base: u32, b: HirBodyV) -> bool {
    &&& forall|i: int|
        0 <= i < b.exprs.len() ==> expr_fields_fit(src, base, #[trigger] b.exprs[i])
    &&& forall|i: int|
        0 <= i < stmts_of(b.exprs).len() ==> stmt_fields_fit(
            src,
            base,
            #[trigger] stmts_of(b.exprs)[i],
        )
}

} // verus!
