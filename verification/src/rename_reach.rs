//! What a rename reaches: every path of every file that stands for the
//! renamed definition, wherever in the file it stands, and nothing else.

use crate::ast::{
    AstModuleV, BlockV, ExprV, FieldInitV, FieldV, ItemV, MatchArmV, ParamV, PathV, PatternV,
    StmtV, TypeExprV, UseDeclV, VariantV,
};
use crate::fxmap::entry;
use crate::hir::{env_of, shape_of, FileEnvV, ModuleScopeV};
use crate::hir_lower::{member_of, path_def, variant_of, CtxV, LowerV};
use crate::order::{law_sorted, sorted};
use crate::patch_edits::tree_of;
use crate::rename::{deduped, files_edits, rename_edits, site_edits, site_order};
use crate::rename_scan::{
    arms_sites, bare_hit, block_sites, data_hit, declares, def_path_sites, expr_sites, exprs_sites,
    fields_sites, file_sites, inits_sites, is_member_path, item_sites, items_sites, member_at,
    module_hit, params_sites, pattern_sites, stmt_sites, stmts_sites, type_sites, types_sites,
    unaliased_of, use_names, use_sites, value_path_sites, variant_path_sites, variants_sites,
    ScanV,
};
use crate::snapshot::SnapV;
use crate::source::{lookup, DefId, FileId, InternId, Span};
use crate::splice::EditV;
use crate::target::{module_file_spec, own_member};
use vstd::prelude::*;

verus! {

// ---------- the parts of a file ----------

/// A piece of a file's syntax.
#[allow(inconsistent_fields)]
pub enum PieceV {
    Item(ItemV),
    Block(BlockV),
    Stmt(StmtV),
    Expr(ExprV),
    Arm(MatchArmV),
    Pattern(PatternV),
    Type(TypeExprV),
}

/// An expression that may be missing is the piece `b`.
pub open spec fn is_expr(e: Option<Box<ExprV>>, b: PieceV) -> bool {
    e matches Some(x) && b == PieceV::Expr(*x)
}

/// `b` is written directly inside the expression `e`.
pub open spec fn in_expr(e: ExprV, b: PieceV) -> bool {
    match e {
        ExprV::Call { callee, args, span } => exists|i: int|
            0 <= i < args.len() && b == PieceV::Expr(#[trigger] args[i]),
        ExprV::StructLit { name, fields, span } => exists|i: int|
            0 <= i < fields.len() && b == PieceV::Expr((#[trigger] fields[i]).value),
        ExprV::ArrayLit { elems, span } => exists|i: int|
            0 <= i < elems.len() && b == PieceV::Expr(#[trigger] elems[i]),
        ExprV::Field { base, name, span } => b == PieceV::Expr(*base),
        ExprV::Index { base, index, span } => b == PieceV::Expr(*base) || b == PieceV::Expr(*index),
        ExprV::Slice { base, lo, hi, span } => b == PieceV::Expr(*base) || is_expr(lo, b)
            || is_expr(hi, b),
        ExprV::Range { lo, hi, span } => is_expr(lo, b) || is_expr(hi, b),
        ExprV::Match { scrutinee, arms, span } => b == PieceV::Expr(*scrutinee) || exists|i: int|
            0 <= i < arms.len() && b == PieceV::Arm(#[trigger] arms[i]),
        ExprV::For { var, mutable, iter, body, span } => b == PieceV::Expr(*iter) || b
            == PieceV::Block(body),
        ExprV::Binary { op, lhs, rhs, span } => b == PieceV::Expr(*lhs) || b == PieceV::Expr(*rhs),
        ExprV::Unary { op, expr, span } => b == PieceV::Expr(*expr),
        ExprV::If { cond, then_, else_, span } => b == PieceV::Expr(*cond) || b == PieceV::Block(
            then_,
        ) || is_expr(else_, b),
        ExprV::Block { block, span } => b == PieceV::Block(block),
        ExprV::Var { name } => false,
        ExprV::Path { path } => false,
        ExprV::Literal { value, span } => false,
        ExprV::Error { span } => false,
    }
}

/// `b` is written directly inside the statement `s`.
pub open spec fn in_stmt(s: StmtV, b: PieceV) -> bool {
    match s {
        StmtV::Let { name, mutable, ty, init, span } => (ty matches Some(t) && b == PieceV::Type(t))
            || (init matches Some(e) && b == PieceV::Expr(e)),
        StmtV::Assign { target, value, span } => b == PieceV::Expr(value),
        StmtV::Expr { expr, has_semi, span } => b == PieceV::Expr(expr),
        StmtV::Return { value, span } => value matches Some(e) && b == PieceV::Expr(e),
    }
}

/// `b` is written directly inside the item.
pub open spec fn in_item(item: ItemV, b: PieceV) -> bool {
    match item {
        ItemV::Data(d) => {
            ||| exists|i: int| 0 <= i < d.fields.len() && b == PieceV::Type((#[trigger] d.fields[i]).ty)
            ||| exists|i: int, j: int|
                0 <= i < d.variants.len() && 0 <= j < d.variants[i].payload.len() && b
                    == PieceV::Type(#[trigger] d.variants[i].payload[j])
        },
        ItemV::Fn(f) => {
            ||| exists|i: int| 0 <= i < f.params.len() && b == PieceV::Type((#[trigger] f.params[i]).ty)
            ||| f.ret matches Some(t) && b == PieceV::Type(t)
            ||| b == PieceV::Block(f.body)
        },
    }
}

/// `b` is written directly inside `a`.
pub open spec fn directly_in(a: PieceV, b: PieceV) -> bool {
    match a {
        PieceV::Item(item) => in_item(item, b),
        PieceV::Block(k) => is_expr(k.tail, b) || exists|i: int|
            0 <= i < k.stmts.len() && b == PieceV::Stmt(#[trigger] k.stmts[i]),
        PieceV::Stmt(s) => in_stmt(s, b),
        PieceV::Expr(e) => in_expr(e, b),
        PieceV::Arm(arm) => b == PieceV::Pattern(arm.pat) || b == PieceV::Expr(arm.body),
        PieceV::Pattern(p) => false,
        PieceV::Type(t) => match t {
            TypeExprV::Array { elem, span } => b == PieceV::Type(*elem),
            TypeExprV::Named { path } => false,
        },
    }
}

/// The piece behind position `i` of a chain is written directly inside
/// the one at that position.
pub open spec fn linked(c: Seq<PieceV>, i: int) -> bool {
    directly_in(c[i], c[i + 1])
}

/// A chain of pieces, each written directly inside the one in front.
pub open spec fn is_chain(c: Seq<PieceV>) -> bool {
    c.len() > 0 && forall|i: int| 0 <= i < c.len() - 1 ==> #[trigger] linked(c, i)
}

// ---------- what a path stands for ----------

/// Every name of a path is interned.
pub open spec fn known(names: Seq<Seq<char>>, p: PathV) -> bool {
    forall|i: int| 0 <= i < p.segs.len() ==> lookup(names, (#[trigger] p.segs[i]).name) is Some
}

/// A file imports the target under its own name, and that name is `name`.
pub open spec fn imports_plainly(
    s: ModuleScopeV,
    names: Seq<Seq<char>>,
    uses: Seq<UseDeclV>,
    target: DefId,
    name: Seq<char>,
) -> bool {
    exists|i: int|
        0 <= i < uses.len() && imports(s, names, #[trigger] uses[i], target)
            && uses[i].alias is None && uses[i].path.segs[1].name == name
}

/// A `use` names the target as a member of the file that provides its
/// module.
pub open spec fn imports(
    s: ModuleScopeV,
    names: Seq<Seq<char>>,
    u: UseDeclV,
    target: DefId,
) -> bool {
    &&& u.path.segs.len() == 2
    &&& module_file_spec(s, names, u.path.segs[0].name) is Some
    &&& lookup(names, u.path.segs[1].name) is Some
    &&& own_member(
        s,
        module_file_spec(s, names, u.path.segs[0].name)->0,
        lookup(names, u.path.segs[1].name)->0,
    ) == Some(target.raw)
}

/// A file, and what it is searched for.
#[verifier::ext_equal]
pub struct SearchV {
    pub file: FileId,
    pub uses: Seq<UseDeclV>,
    pub scope: ModuleScopeV,
    pub names: Seq<Seq<char>>,
    pub target: DefId,
}

/// Name resolution takes a path of the file to the target itself.
pub open spec fn resolves_to(x: SearchV, p: PathV) -> bool {
    exists|cx: CtxV, st: LowerV|
        cx.scope == x.scope && cx.file == x.file && st.names == x.names && (#[trigger] path_def(
            cx,
            st,
            p,
        )).1 == Ok::<DefId, crate::hir_lower::PathErr>(x.target)
}

/// Name resolution takes a path of the file to some definition.
pub open spec fn resolves_at_all(x: SearchV, p: PathV) -> bool {
    exists|cx: CtxV, st: LowerV|
        cx.scope == x.scope && cx.file == x.file && st.names == x.names && (#[trigger] path_def(
            cx,
            st,
            p,
        )).1 is Ok
}

/// The name in front stands for the target as a `data` of its own or as
/// one of a bound module, behind whose segment a variant follows.
pub open spec fn data_of_path(x: SearchV, p: PathV) -> bool {
    let env = env_of(x.scope, x.file);
    &&& env is Some
    &&& if p.segs.len() == 2 {
        match entry(env->0.datas, lookup(x.names, p.segs[0].name)->0.raw) {
            Some(d) => d == x.target.raw,
            None => shape_of(x.scope, x.target) is Some && entry(
                env->0.imports,
                lookup(x.names, p.segs[0].name)->0.raw,
            ) == Some(x.target.raw),
        }
    } else {
        &&& p.segs.len() == 3
        &&& shape_of(x.scope, x.target) is Some
        &&& entry(env->0.modules, lookup(x.names, p.segs[0].name)->0.raw) is Some
        &&& own_member(
            x.scope,
            FileId { raw: entry(env->0.modules, lookup(x.names, p.segs[0].name)->0.raw)->0 },
            lookup(x.names, p.segs[1].name)->0,
        ) == Some(x.target.raw)
    }
}

/// A name that the file does not declare itself reaches the target by an
/// import under the target's own name, and so has to change with it.
pub open spec fn bears_its_name(x: SearchV, own: bool, name: Seq<char>) -> bool {
    own || imports_plainly(x.scope, x.names, x.uses, x.target, name)
}

/// A path of the file names the target, by the segment at `sp`, which
/// bears the target's own name.
pub open spec fn names_at(x: SearchV, p: PathV, sp: Span) -> bool {
    &&& known(x.names, p)
    &&& resolves_to(x, p)
    &&& sp == p.segs.last().span
    &&& p.segs.len() == 1 ==> bears_its_name(
        x,
        env_of(x.scope, x.file) matches Some(e) && member_of(
            e,
            lookup(x.names, p.segs[0].name)->0,
        ) is Some,
        p.segs[0].name,
    )
}

/// A path of the file names a variant of the target, whose own name is
/// the segment at `sp`.
pub open spec fn names_variant_at(x: SearchV, p: PathV, sp: Span) -> bool {
    &&& known(x.names, p)
    &&& data_of_path(x, p)
    &&& sp == p.segs[p.segs.len() - 2].span
    &&& p.segs.len() == 2 ==> bears_its_name(
        x,
        entry(env_of(x.scope, x.file)->0.datas, lookup(x.names, p.segs[0].name)->0.raw) is Some,
        p.segs[0].name,
    )
}

/// A path in value position: a definition where it resolves to one or
/// has one segment, a variant otherwise.
pub open spec fn value_names_at(x: SearchV, p: PathV, sp: Span) -> bool {
    if p.segs.len() == 1 || resolves_at_all(x, p) {
        names_at(x, p, sp)
    } else {
        names_variant_at(x, p, sp)
    }
}

/// A piece of the file names the target itself, by the segment at `sp`.
pub open spec fn mentions(x: SearchV, b: PieceV, sp: Span) -> bool {
    match b {
        PieceV::Expr(ExprV::Call { callee, args, span }) => value_names_at(x, callee, sp),
        PieceV::Expr(ExprV::Path { path }) => value_names_at(x, path, sp),
        PieceV::Expr(ExprV::StructLit { name, fields, span }) => names_at(x, name, sp),
        PieceV::Pattern(PatternV::Variant { path, binds, span }) => names_variant_at(x, path, sp),
        PieceV::Type(TypeExprV::Named { path }) => names_at(x, path, sp),
        _ => false,
    }
}

// ---------- paths ----------

/// The search that a scan carries out.
pub open spec fn scan_of(x: SearchV, env: FileEnvV) -> ScanV {
    ScanV {
        file: x.file,
        env,
        scope: x.scope,
        names: x.names,
        target: x.target,
        unaliased: unaliased_of(x.scope, x.names, x.uses, x.target),
    }
}

proof fn lemma_unaliased(
    s: ModuleScopeV,
    names: Seq<Seq<char>>,
    us: Seq<UseDeclV>,
    target: DefId,
    name: Seq<char>,
)
    requires
        lookup(names, name) is Some,
        names.len() <= usize::MAX,
    ensures
        unaliased_of(s, names, us, target).contains_key(lookup(names, name)->0.raw)
            <==> imports_plainly(s, names, us, target, name),
    decreases us.len(),
{
    if us.len() > 0 {
        let front = us.drop_last();
        let u = us.last();
        lemma_unaliased(s, names, front, target, name);
        assert(use_names(s, names, u, target) <==> imports(s, names, u, target));
        assert(us[us.len() - 1] == u);
        if imports_plainly(s, names, front, target, name) {
            let i = choose|i: int|
                0 <= i < front.len() && imports(s, names, #[trigger] front[i], target)
                    && front[i].alias is None && front[i].path.segs[1].name == name;
            assert(us[i] == front[i]);
        }
        if imports_plainly(s, names, us, target, name) {
            let i = choose|i: int|
                0 <= i < us.len() && imports(s, names, #[trigger] us[i], target)
                    && us[i].alias is None && us[i].path.segs[1].name == name;
            if i < front.len() {
                assert(front[i] == us[i]);
            }
        }
        if use_names(s, names, u, target) && u.alias is None {
            let other = u.path.segs[1].name;
            if lookup(names, other)->0.raw == lookup(names, name)->0.raw {
                crate::source::lemma_position(names, other);
                crate::source::lemma_position(names, name);
            }
        }
    }
}

proof fn lemma_interned_id(names: Seq<Seq<char>>, name: Seq<char>)
    requires
        lookup(names, name) is Some,
    ensures
        crate::source::intern_id(names, name) == lookup(names, name)->0,
        crate::source::interned(names, name) == names,
{
}

proof fn lemma_path_def(x: SearchV, env: FileEnvV, p: PathV, cx: CtxV, st: LowerV)
    requires
        env_of(x.scope, x.file) == Some(env),
        known(x.names, p),
        cx.scope == x.scope,
        cx.file == x.file,
        st.names == x.names,
    ensures
        p.segs.len() == 1 ==> path_def(cx, st, p).1 == (match member_of(
            env,
            lookup(x.names, p.segs[0].name)->0,
        ) {
            Some(d) => Ok::<DefId, crate::hir_lower::PathErr>(DefId { raw: d }),
            None => match entry(env.imports, lookup(x.names, p.segs[0].name)->0.raw) {
                Some(d) => Ok(DefId { raw: d }),
                None => Err(crate::hir_lower::PathErr::NotFound),
            },
        }),
        p.segs.len() == 2 ==> (path_def(cx, st, p).1 matches Ok(d) ==> module_hit(
            scan_of(x, env),
            p.segs[0].name,
        ) is Some && member_at(
            scan_of(x, env),
            module_hit(scan_of(x, env), p.segs[0].name)->0,
            p.segs[1].name,
        ) == Some(d.raw)),
        p.segs.len() == 2 && module_hit(scan_of(x, env), p.segs[0].name) is Some && member_at(
            scan_of(x, env),
            module_hit(scan_of(x, env), p.segs[0].name)->0,
            p.segs[1].name,
        ) is Some ==> path_def(cx, st, p).1 == Ok::<DefId, crate::hir_lower::PathErr>(
            DefId {
                raw: member_at(
                    scan_of(x, env),
                    module_hit(scan_of(x, env), p.segs[0].name)->0,
                    p.segs[1].name,
                )->0,
            },
        ),
        p.segs.len() != 1 && p.segs.len() != 2 ==> path_def(cx, st, p).1 is Err,
{
    reveal(path_def);
    if p.segs.len() >= 1 {
        assert(lookup(x.names, p.segs[0].name) is Some);
        lemma_interned_id(x.names, p.segs[0].name);
    }
    if p.segs.len() == 2 {
        assert(lookup(x.names, p.segs[1].name) is Some);
        lemma_interned_id(x.names, p.segs[1].name);
    }
}

proof fn lemma_some_state(x: SearchV) -> (r: (CtxV, LowerV))
    ensures
        r.0.scope == x.scope,
        r.0.file == x.file,
        r.1.names == x.names,
{
    (
        CtxV { def: x.target, file: x.file, scope: x.scope },
        crate::hir_lower::lower_start(x.names, Seq::empty(), None),
    )
}

proof fn lemma_def_path(x: SearchV, env: FileEnvV, p: PathV, sp: Span)
    requires
        env_of(x.scope, x.file) == Some(env),
        x.names.len() <= usize::MAX,
        known(x.names, p),
    ensures
        def_path_sites(scan_of(x, env), p).contains(sp) <==> names_at(x, p, sp),
        resolves_at_all(x, p) <==> (p.segs.len() == 1 && (member_of(
            env,
            lookup(x.names, p.segs[0].name)->0,
        ) is Some || entry(env.imports, lookup(x.names, p.segs[0].name)->0.raw) is Some))
            || is_member_path(scan_of(x, env), p),
{
    let cx = scan_of(x, env);
    let (c, st) = lemma_some_state(x);
    lemma_path_def(x, env, p, c, st);
    assert forall|c2: CtxV, s2: LowerV|
        c2.scope == x.scope && c2.file == x.file && s2.names == x.names implies (
    #[trigger] path_def(c2, s2, p)).1 is Ok <==> path_def(c, st, p).1 is Ok by {
        lemma_path_def(x, env, p, c2, s2);
    }
    assert forall|c2: CtxV, s2: LowerV|
        c2.scope == x.scope && c2.file == x.file && s2.names == x.names && (
        #[trigger] path_def(c2, s2, p)).1 is Ok implies path_def(c2, s2, p).1 == path_def(
        c,
        st,
        p,
    ).1 by {
        lemma_path_def(x, env, p, c2, s2);
    }
    assert(resolves_to(x, p) <==> path_def(c, st, p).1 == Ok::<DefId, crate::hir_lower::PathErr>(
        x.target,
    ));
    assert(resolves_at_all(x, p) <==> path_def(c, st, p).1 is Ok);
    let sites = def_path_sites(cx, p);
    if p.segs.len() == 1 {
        assert(lookup(x.names, p.segs[0].name) is Some);
        lemma_unaliased(x.scope, x.names, x.uses, x.target, p.segs[0].name);
        if bare_hit(cx, p.segs[0].name) {
            assert(sites[0] == p.segs[0].span);
        }
    } else if p.segs.len() == 2 {
        if sites.len() > 0 {
            assert(sites[0] == p.segs[1].span);
        }
    }
}

proof fn lemma_variant_path(x: SearchV, env: FileEnvV, p: PathV, sp: Span)
    requires
        env_of(x.scope, x.file) == Some(env),
        x.names.len() <= usize::MAX,
        known(x.names, p),
    ensures
        variant_path_sites(scan_of(x, env), p).contains(sp) <==> names_variant_at(x, p, sp),
{
    let cx = scan_of(x, env);
    let sites = variant_path_sites(cx, p);
    if p.segs.len() == 2 {
        assert(lookup(x.names, p.segs[0].name) is Some);
        lemma_unaliased(x.scope, x.names, x.uses, x.target, p.segs[0].name);
        if data_hit(cx, p.segs[0].name) {
            assert(sites[0] == p.segs[0].span);
        }
    } else if p.segs.len() == 3 {
        assert(lookup(x.names, p.segs[0].name) is Some);
        assert(lookup(x.names, p.segs[1].name) is Some);
        if sites.len() > 0 {
            assert(sites[0] == p.segs[1].span);
        }
    }
}

/// Resolution takes a variant path to a variant of the target only where
/// the path names the target as its `data`. In a module, no function may
/// hide a `data` of its name.
pub proof fn law_variant_paths_name_their_data(
    x: SearchV,
    p: PathV,
    cx: CtxV,
    st: LowerV,
    env: FileEnvV,
    v: usize,
)
    requires
        env_of(x.scope, x.file) == Some(env),
        known(x.names, p),
        cx.scope == x.scope,
        cx.file == x.file,
        st.names == x.names,
        forall|f: FileId, id: InternId|
            #![trigger own_member(x.scope, f, id)]
            env_of(x.scope, f) matches Some(e) ==> entry(e.fns, id.raw) is None || entry(
                e.datas,
                id.raw,
            ) is None,
        variant_of(cx, st, p).1 == Ok::<(DefId, usize), crate::hir_lower::VariantErr>(
            (x.target, v),
        ),
    ensures
        data_of_path(x, p),
{
    reveal(variant_of);
    if p.segs.len() >= 1 {
        assert(lookup(x.names, p.segs[0].name) is Some);
        lemma_interned_id(x.names, p.segs[0].name);
    }
    if p.segs.len() == 3 {
        assert(lookup(x.names, p.segs[1].name) is Some);
        lemma_interned_id(x.names, p.segs[1].name);
        let m = entry(env.modules, lookup(x.names, p.segs[0].name)->0.raw);
        if m is Some {
            let f = FileId { raw: m->0 };
            let id = lookup(x.names, p.segs[1].name)->0;
            let o = own_member(x.scope, f, id);
        }
    }
}

// ---------- what is reached ----------

/// The names of the path that a piece names itself are interned.
pub open spec fn piece_known(names: Seq<Seq<char>>, b: PieceV) -> bool {
    match b {
        PieceV::Expr(ExprV::Call { callee, args, span }) => known(names, callee),
        PieceV::Expr(ExprV::Path { path }) => known(names, path),
        PieceV::Expr(ExprV::StructLit { name, fields, span }) => known(names, name),
        PieceV::Pattern(PatternV::Variant { path, binds, span }) => known(names, path),
        PieceV::Type(TypeExprV::Named { path }) => known(names, path),
        _ => true,
    }
}

/// The names of every path in a piece, however deep, are interned.
#[verifier::opaque]
pub open spec fn all_known(names: Seq<Seq<char>>, a: PieceV) -> bool {
    forall|c: Seq<PieceV>| #[trigger] is_chain(c) && c[0] == a ==> piece_known(names, c.last())
}

/// Somewhere in a piece, however deep, the target is named by the segment
/// at `sp`.
#[verifier::opaque]
pub open spec fn reached(x: SearchV, a: PieceV, sp: Span) -> bool {
    exists|c: Seq<PieceV>| #[trigger] is_chain(c) && c[0] == a && mentions(x, c.last(), sp)
}

proof fn lemma_prepend(a: PieceV, c: Seq<PieceV>) -> (r: Seq<PieceV>)
    requires
        is_chain(c),
        directly_in(a, c[0]),
    ensures
        is_chain(r),
        r[0] == a,
        r.last() == c.last(),
{
    let r = seq![a] + c;
    assert forall|i: int| 0 <= i < r.len() - 1 implies #[trigger] linked(r, i) by {
        if i > 0 {
            assert(linked(c, i - 1));
            assert(r[i] == c[i - 1]);
            assert(r[i + 1] == c[i]);
        } else {
            assert(r[1] == c[0]);
        }
    }
    r
}

proof fn lemma_here(names: Seq<Seq<char>>, x: SearchV, a: PieceV, sp: Span)
    ensures
        mentions(x, a, sp) ==> reached(x, a, sp),
        all_known(names, a) ==> piece_known(names, a),
{
    reveal(reached);
    reveal(all_known);
    let c = seq![a];
    assert(is_chain(c));
    assert(c.last() == a);
}

proof fn lemma_inside(names: Seq<Seq<char>>, x: SearchV, a: PieceV, b: PieceV, sp: Span)
    requires
        directly_in(a, b),
    ensures
        reached(x, b, sp) ==> reached(x, a, sp),
        all_known(names, a) ==> all_known(names, b),
{
    reveal(reached);
    reveal(all_known);
    if reached(x, b, sp) {
        let c = choose|c: Seq<PieceV>|
            #[trigger] is_chain(c) && c[0] == b && mentions(x, c.last(), sp);
        let r = lemma_prepend(a, c);
    }
    if all_known(names, a) {
        assert forall|c: Seq<PieceV>| #[trigger] is_chain(c) && c[0] == b implies piece_known(
            names,
            c.last(),
        ) by {
            let r = lemma_prepend(a, c);
        }
    }
}

proof fn lemma_outside(x: SearchV, a: PieceV, sp: Span) -> (b: PieceV)
    requires
        reached(x, a, sp),
    ensures
        mentions(x, a, sp) || (directly_in(a, b) && reached(x, b, sp)),
{
    reveal(reached);
    let c = choose|c: Seq<PieceV>|
        #[trigger] is_chain(c) && c[0] == a && mentions(x, c.last(), sp);
    if c.len() == 1 {
        a
    } else {
        let rest = c.subrange(1, c.len() as int);
        assert(linked(c, 0));
        assert forall|i: int| 0 <= i < rest.len() - 1 implies #[trigger] linked(rest, i) by {
            assert(linked(c, i + 1));
        }
        assert(is_chain(rest));
        assert(rest.last() == c.last());
        c[1]
    }
}

proof fn lemma_cat(v: Seq<Span>, w: Seq<Span>, sp: Span)
    ensures
        (v + w).contains(sp) <==> v.contains(sp) || w.contains(sp),
{
    let u = v + w;
    if v.contains(sp) {
        let i = choose|i: int| 0 <= i < v.len() && v[i] == sp;
        assert(u[i] == sp);
    }
    if w.contains(sp) {
        let i = choose|i: int| 0 <= i < w.len() && w[i] == sp;
        assert(u[v.len() + i] == sp);
    }
    if u.contains(sp) {
        let i = choose|i: int| 0 <= i < u.len() && u[i] == sp;
        if i < v.len() {
            assert(v[i] == sp);
        } else {
            assert(w[i - v.len()] == sp);
        }
    }
}

/// What a piece reaches is what the scan of it collects.
spec fn agrees(x: SearchV, a: PieceV, sites: Seq<Span>, sp: Span) -> bool {
    sites.contains(sp) <==> reached(x, a, sp)
}

/// A search of a file that is part of the scope, over names that fit the
/// machine.
pub open spec fn searchable(x: SearchV, env: FileEnvV) -> bool {
    env_of(x.scope, x.file) == Some(env) && x.names.len() <= usize::MAX
}

proof fn lemma_value_path(x: SearchV, env: FileEnvV, p: PathV, sp: Span)
    requires
        searchable(x, env),
        known(x.names, p),
    ensures
        value_path_sites(scan_of(x, env), p).contains(sp) <==> value_names_at(x, p, sp),
{
    lemma_def_path(x, env, p, sp);
    lemma_variant_path(x, env, p, sp);
}

proof fn lemma_type_reach(x: SearchV, env: FileEnvV, t: TypeExprV, sp: Span)
    requires
        searchable(x, env),
        all_known(x.names, PieceV::Type(t)),
    ensures
        agrees(x, PieceV::Type(t), type_sites(scan_of(x, env), t), sp),
    decreases t,
{
    let a = PieceV::Type(t);
    lemma_here(x.names, x, a, sp);
    if reached(x, a, sp) {
        let b = lemma_outside(x, a, sp);
    }
    match t {
        TypeExprV::Named { path } => {
            lemma_def_path(x, env, path, sp);
        },
        TypeExprV::Array { elem, span } => {
            lemma_inside(x.names, x, a, PieceV::Type(*elem), sp);
            lemma_type_reach(x, env, *elem, sp);
        },
    }
}

proof fn lemma_pattern_reach(x: SearchV, env: FileEnvV, p: PatternV, sp: Span)
    requires
        searchable(x, env),
        all_known(x.names, PieceV::Pattern(p)),
    ensures
        agrees(x, PieceV::Pattern(p), pattern_sites(scan_of(x, env), p), sp),
{
    let a = PieceV::Pattern(p);
    lemma_here(x.names, x, a, sp);
    if reached(x, a, sp) {
        let b = lemma_outside(x, a, sp);
    }
    match p {
        PatternV::Bind { name } => {},
        PatternV::Variant { path, binds, span } => {
            lemma_variant_path(x, env, path, sp);
        },
    }
}

/// A part of `a` that may be missing: what it reaches, `a` reaches.
proof fn lemma_opt_part(
    x: SearchV,
    env: FileEnvV,
    a: PieceV,
    e: Option<Box<ExprV>>,
    sp: Span,
)
    requires
        searchable(x, env),
        all_known(x.names, a),
        e matches Some(y) ==> directly_in(a, PieceV::Expr(*y)),
    ensures
        e matches Some(y) ==> agrees(x, PieceV::Expr(*y), expr_sites(scan_of(x, env), *y), sp) && (
        reached(x, PieceV::Expr(*y), sp) ==> reached(x, a, sp)),
    decreases e, 1int,
{
    if let Some(y) = e {
        lemma_inside(x.names, x, a, PieceV::Expr(*y), sp);
        lemma_expr_reach(x, env, *y, sp);
    }
}

/// A part of `a`: what it reaches, `a` reaches.
proof fn lemma_expr_part(x: SearchV, env: FileEnvV, a: PieceV, e: ExprV, sp: Span)
    requires
        searchable(x, env),
        all_known(x.names, a),
        directly_in(a, PieceV::Expr(e)),
    ensures
        agrees(x, PieceV::Expr(e), expr_sites(scan_of(x, env), e), sp),
        reached(x, PieceV::Expr(e), sp) ==> reached(x, a, sp),
    decreases e, 1int,
{
    lemma_inside(x.names, x, a, PieceV::Expr(e), sp);
    lemma_expr_reach(x, env, e, sp);
}

proof fn lemma_block_part(x: SearchV, env: FileEnvV, a: PieceV, b: BlockV, sp: Span)
    requires
        searchable(x, env),
        all_known(x.names, a),
        directly_in(a, PieceV::Block(b)),
    ensures
        agrees(x, PieceV::Block(b), block_sites(scan_of(x, env), b), sp),
        reached(x, PieceV::Block(b), sp) ==> reached(x, a, sp),
    decreases b, 1int,
{
    lemma_inside(x.names, x, a, PieceV::Block(b), sp);
    lemma_block_reach(x, env, b, sp);
}

proof fn lemma_exprs_part(x: SearchV, env: FileEnvV, a: PieceV, es: Seq<ExprV>, sp: Span)
    requires
        searchable(x, env),
        all_known(x.names, a),
        forall|i: int| 0 <= i < es.len() ==> directly_in(a, PieceV::Expr(#[trigger] es[i])),
    ensures
        exprs_sites(scan_of(x, env), es).contains(sp) <==> exists|i: int|
            0 <= i < es.len() && reached(x, PieceV::Expr(#[trigger] es[i]), sp),
        exprs_sites(scan_of(x, env), es).contains(sp) ==> reached(x, a, sp),
    decreases es, 1int,
{
    if es.len() > 0 {
        let cx = scan_of(x, env);
        let front = es.drop_last();
        assert forall|i: int| 0 <= i < front.len() implies directly_in(
            a,
            PieceV::Expr(#[trigger] front[i]),
        ) by {
            assert(front[i] == es[i]);
        }
        assert(es[es.len() - 1] == es.last());
        lemma_exprs_part(x, env, a, front, sp);
        lemma_expr_part(x, env, a, es.last(), sp);
        lemma_cat(exprs_sites(cx, front), expr_sites(cx, es.last()), sp);
        if exists|i: int| 0 <= i < front.len() && reached(x, PieceV::Expr(#[trigger] front[i]), sp) {
            let i = choose|i: int|
                0 <= i < front.len() && reached(x, PieceV::Expr(#[trigger] front[i]), sp);
            assert(es[i] == front[i]);
        }
        if exists|i: int| 0 <= i < es.len() && reached(x, PieceV::Expr(#[trigger] es[i]), sp) {
            let i = choose|i: int|
                0 <= i < es.len() && reached(x, PieceV::Expr(#[trigger] es[i]), sp);
            if i < front.len() {
                assert(front[i] == es[i]);
            }
        }
    }
}

proof fn lemma_inits_part(x: SearchV, env: FileEnvV, a: PieceV, fs: Seq<FieldInitV>, sp: Span)
    requires
        searchable(x, env),
        all_known(x.names, a),
        forall|i: int| 0 <= i < fs.len() ==> directly_in(a, PieceV::Expr((#[trigger] fs[i]).value)),
    ensures
        inits_sites(scan_of(x, env), fs).contains(sp) <==> exists|i: int|
            0 <= i < fs.len() && reached(x, PieceV::Expr((#[trigger] fs[i]).value), sp),
        inits_sites(scan_of(x, env), fs).contains(sp) ==> reached(x, a, sp),
    decreases fs, 1int,
{
    if fs.len() > 0 {
        let cx = scan_of(x, env);
        let front = fs.drop_last();
        assert forall|i: int| 0 <= i < front.len() implies directly_in(
            a,
            PieceV::Expr((#[trigger] front[i]).value),
        ) by {
            assert(front[i] == fs[i]);
        }
        assert(fs[fs.len() - 1] == fs.last());
        lemma_inits_part(x, env, a, front, sp);
        lemma_expr_part(x, env, a, fs.last().value, sp);
        lemma_cat(inits_sites(cx, front), expr_sites(cx, fs.last().value), sp);
        if exists|i: int|
            0 <= i < front.len() && reached(x, PieceV::Expr((#[trigger] front[i]).value), sp) {
            let i = choose|i: int|
                0 <= i < front.len() && reached(x, PieceV::Expr((#[trigger] front[i]).value), sp);
            assert(fs[i] == front[i]);
        }
        if exists|i: int|
            0 <= i < fs.len() && reached(x, PieceV::Expr((#[trigger] fs[i]).value), sp) {
            let i = choose|i: int|
                0 <= i < fs.len() && reached(x, PieceV::Expr((#[trigger] fs[i]).value), sp);
            if i < front.len() {
                assert(front[i] == fs[i]);
            }
        }
    }
}

/// What the scan of one arm collects.
spec fn arm_sites(cx: ScanV, m: MatchArmV) -> Seq<Span> {
    pattern_sites(cx, m.pat) + expr_sites(cx, m.body)
}

proof fn lemma_arm_reach(x: SearchV, env: FileEnvV, m: MatchArmV, sp: Span)
    requires
        searchable(x, env),
        all_known(x.names, PieceV::Arm(m)),
    ensures
        agrees(x, PieceV::Arm(m), arm_sites(scan_of(x, env), m), sp),
    decreases m, 1int,
{
    let a = PieceV::Arm(m);
    let cx = scan_of(x, env);
    lemma_here(x.names, x, a, sp);
    lemma_inside(x.names, x, a, PieceV::Pattern(m.pat), sp);
    lemma_pattern_reach(x, env, m.pat, sp);
    lemma_expr_part(x, env, a, m.body, sp);
    lemma_cat(pattern_sites(cx, m.pat), expr_sites(cx, m.body), sp);
    if reached(x, a, sp) {
        let b = lemma_outside(x, a, sp);
    }
}

proof fn lemma_arms_part(x: SearchV, env: FileEnvV, a: PieceV, arms: Seq<MatchArmV>, sp: Span)
    requires
        searchable(x, env),
        all_known(x.names, a),
        forall|i: int| 0 <= i < arms.len() ==> directly_in(a, PieceV::Arm(#[trigger] arms[i])),
    ensures
        arms_sites(scan_of(x, env), arms).contains(sp) <==> exists|i: int|
            0 <= i < arms.len() && reached(x, PieceV::Arm(#[trigger] arms[i]), sp),
        arms_sites(scan_of(x, env), arms).contains(sp) ==> reached(x, a, sp),
    decreases arms, 1int,
{
    if arms.len() > 0 {
        let cx = scan_of(x, env);
        let front = arms.drop_last();
        let m = arms.last();
        assert forall|i: int| 0 <= i < front.len() implies directly_in(
            a,
            PieceV::Arm(#[trigger] front[i]),
        ) by {
            assert(front[i] == arms[i]);
        }
        assert(arms[arms.len() - 1] == m);
        lemma_arms_part(x, env, a, front, sp);
        lemma_inside(x.names, x, a, PieceV::Arm(m), sp);
        lemma_arm_reach(x, env, m, sp);
        lemma_cat(arms_sites(cx, front), pattern_sites(cx, m.pat), sp);
        lemma_cat(
            arms_sites(cx, front) + pattern_sites(cx, m.pat),
            expr_sites(cx, m.body),
            sp,
        );
        lemma_cat(pattern_sites(cx, m.pat), expr_sites(cx, m.body), sp);
        if exists|i: int| 0 <= i < front.len() && reached(x, PieceV::Arm(#[trigger] front[i]), sp) {
            let i = choose|i: int|
                0 <= i < front.len() && reached(x, PieceV::Arm(#[trigger] front[i]), sp);
            assert(arms[i] == front[i]);
        }
        if exists|i: int| 0 <= i < arms.len() && reached(x, PieceV::Arm(#[trigger] arms[i]), sp) {
            let i = choose|i: int|
                0 <= i < arms.len() && reached(x, PieceV::Arm(#[trigger] arms[i]), sp);
            if i < front.len() {
                assert(front[i] == arms[i]);
            }
        }
    }
}

#[verifier::spinoff_prover]
proof fn lemma_expr_reach(x: SearchV, env: FileEnvV, e: ExprV, sp: Span)
    requires
        searchable(x, env),
        all_known(x.names, PieceV::Expr(e)),
    ensures
        agrees(x, PieceV::Expr(e), expr_sites(scan_of(x, env), e), sp),
    decreases e, 0int,
{
    let a = PieceV::Expr(e);
    let cx = scan_of(x, env);
    lemma_here(x.names, x, a, sp);
    let b = if reached(x, a, sp) {
        lemma_outside(x, a, sp)
    } else {
        a
    };
    match e {
        ExprV::Call { callee, args, span } => {
            lemma_value_path(x, env, callee, sp);
            lemma_exprs_part(x, env, a, args, sp);
            lemma_cat(value_path_sites(cx, callee), exprs_sites(cx, args), sp);
        },
        ExprV::StructLit { name, fields, span } => {
            lemma_def_path(x, env, name, sp);
            lemma_inits_part(x, env, a, fields, sp);
            lemma_cat(def_path_sites(cx, name), inits_sites(cx, fields), sp);
        },
        ExprV::Path { path } => {
            lemma_value_path(x, env, path, sp);
        },
        ExprV::Field { base, name, span } => {
            lemma_expr_part(x, env, a, *base, sp);
        },
        ExprV::Index { base, index, span } => {
            lemma_expr_part(x, env, a, *base, sp);
            lemma_expr_part(x, env, a, *index, sp);
            lemma_cat(expr_sites(cx, *base), expr_sites(cx, *index), sp);
        },
        ExprV::Slice { base, lo, hi, span } => {
            lemma_expr_part(x, env, a, *base, sp);
            lemma_opt_part(x, env, a, lo, sp);
            lemma_opt_part(x, env, a, hi, sp);
            let s1 = expr_sites(cx, *base);
            let s2 = match lo {
                Some(y) => s1 + expr_sites(cx, *y),
                None => s1,
            };
            if let Some(y) = lo {
                lemma_cat(s1, expr_sites(cx, *y), sp);
            }
            if let Some(y) = hi {
                lemma_cat(s2, expr_sites(cx, *y), sp);
            }
        },
        ExprV::ArrayLit { elems, span } => {
            lemma_exprs_part(x, env, a, elems, sp);
        },
        ExprV::Range { lo, hi, span } => {
            lemma_opt_part(x, env, a, lo, sp);
            lemma_opt_part(x, env, a, hi, sp);
            let s1 = match lo {
                Some(y) => expr_sites(cx, *y),
                None => Seq::empty(),
            };
            if let Some(y) = hi {
                lemma_cat(s1, expr_sites(cx, *y), sp);
            }
        },
        ExprV::Match { scrutinee, arms, span } => {
            lemma_expr_part(x, env, a, *scrutinee, sp);
            lemma_arms_part(x, env, a, arms, sp);
            lemma_cat(expr_sites(cx, *scrutinee), arms_sites(cx, arms), sp);
        },
        ExprV::For { var, mutable, iter, body, span } => {
            lemma_expr_part(x, env, a, *iter, sp);
            lemma_block_part(x, env, a, body, sp);
            lemma_cat(expr_sites(cx, *iter), block_sites(cx, body), sp);
        },
        ExprV::Binary { op, lhs, rhs, span } => {
            lemma_expr_part(x, env, a, *lhs, sp);
            lemma_expr_part(x, env, a, *rhs, sp);
            lemma_cat(expr_sites(cx, *lhs), expr_sites(cx, *rhs), sp);
        },
        ExprV::Unary { op, expr, span } => {
            lemma_expr_part(x, env, a, *expr, sp);
        },
        ExprV::If { cond, then_, else_, span } => {
            lemma_expr_part(x, env, a, *cond, sp);
            lemma_block_part(x, env, a, then_, sp);
            lemma_opt_part(x, env, a, else_, sp);
            lemma_cat(expr_sites(cx, *cond), block_sites(cx, then_), sp);
            if let Some(y) = else_ {
                lemma_cat(
                    expr_sites(cx, *cond) + block_sites(cx, then_),
                    expr_sites(cx, *y),
                    sp,
                );
            }
        },
        ExprV::Block { block, span } => {
            lemma_block_part(x, env, a, block, sp);
        },
        ExprV::Var { name } => {},
        ExprV::Literal { value, span } => {},
        ExprV::Error { span } => {},
    }
}

proof fn lemma_stmt_reach(x: SearchV, env: FileEnvV, s: StmtV, sp: Span)
    requires
        searchable(x, env),
        all_known(x.names, PieceV::Stmt(s)),
    ensures
        agrees(x, PieceV::Stmt(s), stmt_sites(scan_of(x, env), s), sp),
    decreases s, 1int,
{
    let a = PieceV::Stmt(s);
    let cx = scan_of(x, env);
    lemma_here(x.names, x, a, sp);
    if reached(x, a, sp) {
        let b = lemma_outside(x, a, sp);
    }
    match s {
        StmtV::Let { name, mutable, ty, init, span } => {
            let s1 = match ty {
                Some(t) => type_sites(cx, t),
                None => Seq::empty(),
            };
            if let Some(t) = ty {
                lemma_inside(x.names, x, a, PieceV::Type(t), sp);
                lemma_type_reach(x, env, t, sp);
            }
            if let Some(e) = init {
                lemma_expr_part(x, env, a, e, sp);
                lemma_cat(s1, expr_sites(cx, e), sp);
            }
        },
        StmtV::Assign { target, value, span } => {
            lemma_expr_part(x, env, a, value, sp);
        },
        StmtV::Expr { expr, has_semi, span } => {
            lemma_expr_part(x, env, a, expr, sp);
        },
        StmtV::Return { value, span } => {
            if let Some(e) = value {
                lemma_expr_part(x, env, a, e, sp);
            }
        },
    }
}

proof fn lemma_stmts_part(x: SearchV, env: FileEnvV, a: PieceV, ss: Seq<StmtV>, sp: Span)
    requires
        searchable(x, env),
        all_known(x.names, a),
        forall|i: int| 0 <= i < ss.len() ==> directly_in(a, PieceV::Stmt(#[trigger] ss[i])),
    ensures
        stmts_sites(scan_of(x, env), ss).contains(sp) <==> exists|i: int|
            0 <= i < ss.len() && reached(x, PieceV::Stmt(#[trigger] ss[i]), sp),
        stmts_sites(scan_of(x, env), ss).contains(sp) ==> reached(x, a, sp),
    decreases ss, 1int,
{
    if ss.len() > 0 {
        let cx = scan_of(x, env);
        let front = ss.drop_last();
        let s = ss.last();
        assert forall|i: int| 0 <= i < front.len() implies directly_in(
            a,
            PieceV::Stmt(#[trigger] front[i]),
        ) by {
            assert(front[i] == ss[i]);
        }
        assert(ss[ss.len() - 1] == s);
        lemma_stmts_part(x, env, a, front, sp);
        lemma_inside(x.names, x, a, PieceV::Stmt(s), sp);
        lemma_stmt_reach(x, env, s, sp);
        lemma_cat(stmts_sites(cx, front), stmt_sites(cx, s), sp);
        if exists|i: int| 0 <= i < front.len() && reached(x, PieceV::Stmt(#[trigger] front[i]), sp) {
            let i = choose|i: int|
                0 <= i < front.len() && reached(x, PieceV::Stmt(#[trigger] front[i]), sp);
            assert(ss[i] == front[i]);
        }
        if exists|i: int| 0 <= i < ss.len() && reached(x, PieceV::Stmt(#[trigger] ss[i]), sp) {
            let i = choose|i: int|
                0 <= i < ss.len() && reached(x, PieceV::Stmt(#[trigger] ss[i]), sp);
            if i < front.len() {
                assert(front[i] == ss[i]);
            }
        }
    }
}

proof fn lemma_block_reach(x: SearchV, env: FileEnvV, k: BlockV, sp: Span)
    requires
        searchable(x, env),
        all_known(x.names, PieceV::Block(k)),
    ensures
        agrees(x, PieceV::Block(k), block_sites(scan_of(x, env), k), sp),
    decreases k, 0int,
{
    let a = PieceV::Block(k);
    let cx = scan_of(x, env);
    lemma_here(x.names, x, a, sp);
    if reached(x, a, sp) {
        let b = lemma_outside(x, a, sp);
    }
    lemma_stmts_part(x, env, a, k.stmts, sp);
    lemma_opt_part(x, env, a, k.tail, sp);
    if let Some(y) = k.tail {
        lemma_cat(stmts_sites(cx, k.stmts), expr_sites(cx, *y), sp);
    }
}

/// What the scan of a list of types collects is what one of them reaches.
proof fn lemma_type_part(x: SearchV, env: FileEnvV, a: PieceV, t: TypeExprV, sp: Span)
    requires
        searchable(x, env),
        all_known(x.names, a),
        directly_in(a, PieceV::Type(t)),
    ensures
        agrees(x, PieceV::Type(t), type_sites(scan_of(x, env), t), sp),
        reached(x, PieceV::Type(t), sp) ==> reached(x, a, sp),
{
    lemma_inside(x.names, x, a, PieceV::Type(t), sp);
    lemma_type_reach(x, env, t, sp);
}

proof fn lemma_fields_part(x: SearchV, env: FileEnvV, a: PieceV, fs: Seq<FieldV>, sp: Span)
    requires
        searchable(x, env),
        all_known(x.names, a),
        forall|i: int| 0 <= i < fs.len() ==> directly_in(a, PieceV::Type((#[trigger] fs[i]).ty)),
    ensures
        fields_sites(scan_of(x, env), fs).contains(sp) <==> exists|i: int|
            0 <= i < fs.len() && reached(x, PieceV::Type((#[trigger] fs[i]).ty), sp),
        fields_sites(scan_of(x, env), fs).contains(sp) ==> reached(x, a, sp),
    decreases fs.len(),
{
    if fs.len() > 0 {
        let cx = scan_of(x, env);
        let front = fs.drop_last();
        assert forall|i: int| 0 <= i < front.len() implies directly_in(
            a,
            PieceV::Type((#[trigger] front[i]).ty),
        ) by {
            assert(front[i] == fs[i]);
        }
        assert(fs[fs.len() - 1] == fs.last());
        lemma_fields_part(x, env, a, front, sp);
        lemma_type_part(x, env, a, fs.last().ty, sp);
        lemma_cat(fields_sites(cx, front), type_sites(cx, fs.last().ty), sp);
        if exists|i: int|
            0 <= i < front.len() && reached(x, PieceV::Type((#[trigger] front[i]).ty), sp) {
            let i = choose|i: int|
                0 <= i < front.len() && reached(x, PieceV::Type((#[trigger] front[i]).ty), sp);
            assert(fs[i] == front[i]);
        }
        if exists|i: int| 0 <= i < fs.len() && reached(x, PieceV::Type((#[trigger] fs[i]).ty), sp) {
            let i = choose|i: int|
                0 <= i < fs.len() && reached(x, PieceV::Type((#[trigger] fs[i]).ty), sp);
            if i < front.len() {
                assert(front[i] == fs[i]);
            }
        }
    }
}

proof fn lemma_params_part(x: SearchV, env: FileEnvV, a: PieceV, ps: Seq<ParamV>, sp: Span)
    requires
        searchable(x, env),
        all_known(x.names, a),
        forall|i: int| 0 <= i < ps.len() ==> directly_in(a, PieceV::Type((#[trigger] ps[i]).ty)),
    ensures
        params_sites(scan_of(x, env), ps).contains(sp) <==> exists|i: int|
            0 <= i < ps.len() && reached(x, PieceV::Type((#[trigger] ps[i]).ty), sp),
        params_sites(scan_of(x, env), ps).contains(sp) ==> reached(x, a, sp),
    decreases ps.len(),
{
    if ps.len() > 0 {
        let cx = scan_of(x, env);
        let front = ps.drop_last();
        assert forall|i: int| 0 <= i < front.len() implies directly_in(
            a,
            PieceV::Type((#[trigger] front[i]).ty),
        ) by {
            assert(front[i] == ps[i]);
        }
        assert(ps[ps.len() - 1] == ps.last());
        lemma_params_part(x, env, a, front, sp);
        lemma_type_part(x, env, a, ps.last().ty, sp);
        lemma_cat(params_sites(cx, front), type_sites(cx, ps.last().ty), sp);
        if exists|i: int|
            0 <= i < front.len() && reached(x, PieceV::Type((#[trigger] front[i]).ty), sp) {
            let i = choose|i: int|
                0 <= i < front.len() && reached(x, PieceV::Type((#[trigger] front[i]).ty), sp);
            assert(ps[i] == front[i]);
        }
        if exists|i: int| 0 <= i < ps.len() && reached(x, PieceV::Type((#[trigger] ps[i]).ty), sp) {
            let i = choose|i: int|
                0 <= i < ps.len() && reached(x, PieceV::Type((#[trigger] ps[i]).ty), sp);
            if i < front.len() {
                assert(front[i] == ps[i]);
            }
        }
    }
}

proof fn lemma_types_part(x: SearchV, env: FileEnvV, a: PieceV, ts: Seq<TypeExprV>, sp: Span)
    requires
        searchable(x, env),
        all_known(x.names, a),
        forall|i: int| 0 <= i < ts.len() ==> directly_in(a, PieceV::Type(#[trigger] ts[i])),
    ensures
        types_sites(scan_of(x, env), ts).contains(sp) <==> exists|i: int|
            0 <= i < ts.len() && reached(x, PieceV::Type(#[trigger] ts[i]), sp),
        types_sites(scan_of(x, env), ts).contains(sp) ==> reached(x, a, sp),
    decreases ts.len(),
{
    if ts.len() > 0 {
        let cx = scan_of(x, env);
        let front = ts.drop_last();
        assert forall|i: int| 0 <= i < front.len() implies directly_in(
            a,
            PieceV::Type(#[trigger] front[i]),
        ) by {
            assert(front[i] == ts[i]);
        }
        assert(ts[ts.len() - 1] == ts.last());
        lemma_types_part(x, env, a, front, sp);
        lemma_type_part(x, env, a, ts.last(), sp);
        lemma_cat(types_sites(cx, front), type_sites(cx, ts.last()), sp);
        if exists|i: int| 0 <= i < front.len() && reached(x, PieceV::Type(#[trigger] front[i]), sp) {
            let i = choose|i: int|
                0 <= i < front.len() && reached(x, PieceV::Type(#[trigger] front[i]), sp);
            assert(ts[i] == front[i]);
        }
        if exists|i: int| 0 <= i < ts.len() && reached(x, PieceV::Type(#[trigger] ts[i]), sp) {
            let i = choose|i: int|
                0 <= i < ts.len() && reached(x, PieceV::Type(#[trigger] ts[i]), sp);
            if i < front.len() {
                assert(front[i] == ts[i]);
            }
        }
    }
}

proof fn lemma_variants_part(x: SearchV, env: FileEnvV, a: PieceV, vs: Seq<VariantV>, sp: Span)
    requires
        searchable(x, env),
        all_known(x.names, a),
        forall|i: int, j: int|
            0 <= i < vs.len() && 0 <= j < vs[i].payload.len() ==> directly_in(
                a,
                PieceV::Type(#[trigger] vs[i].payload[j]),
            ),
    ensures
        variants_sites(scan_of(x, env), vs).contains(sp) <==> exists|i: int, j: int|
            0 <= i < vs.len() && 0 <= j < vs[i].payload.len() && reached(
                x,
                PieceV::Type(#[trigger] vs[i].payload[j]),
                sp,
            ),
        variants_sites(scan_of(x, env), vs).contains(sp) ==> reached(x, a, sp),
    decreases vs.len(),
{
    if vs.len() > 0 {
        let cx = scan_of(x, env);
        let front = vs.drop_last();
        let last = vs[vs.len() - 1];
        assert forall|i: int, j: int|
            0 <= i < front.len() && 0 <= j < front[i].payload.len() implies directly_in(
            a,
            PieceV::Type(#[trigger] front[i].payload[j]),
        ) by {
            let t = vs[i].payload[j];
        }
        assert forall|j: int| 0 <= j < last.payload.len() implies directly_in(
            a,
            PieceV::Type(#[trigger] last.payload[j]),
        ) by {
            let t = vs[vs.len() - 1].payload[j];
        }
        lemma_variants_part(x, env, a, front, sp);
        lemma_types_part(x, env, a, last.payload, sp);
        lemma_cat(variants_sites(cx, front), types_sites(cx, last.payload), sp);
        if exists|i: int, j: int|
            0 <= i < front.len() && 0 <= j < front[i].payload.len() && reached(
                x,
                PieceV::Type(#[trigger] front[i].payload[j]),
                sp,
            ) {
            let (i, j) = choose|i: int, j: int|
                0 <= i < front.len() && 0 <= j < front[i].payload.len() && reached(
                    x,
                    PieceV::Type(#[trigger] front[i].payload[j]),
                    sp,
                );
            let t = vs[i].payload[j];
        }
        if exists|j: int|
            0 <= j < last.payload.len() && reached(
                x,
                PieceV::Type(#[trigger] last.payload[j]),
                sp,
            ) {
            let j = choose|j: int|
                0 <= j < last.payload.len() && reached(
                    x,
                    PieceV::Type(#[trigger] last.payload[j]),
                    sp,
                );
            let t = vs[vs.len() - 1].payload[j];
        }
        if exists|i: int, j: int|
            0 <= i < vs.len() && 0 <= j < vs[i].payload.len() && reached(
                x,
                PieceV::Type(#[trigger] vs[i].payload[j]),
                sp,
            ) {
            let (i, j) = choose|i: int, j: int|
                0 <= i < vs.len() && 0 <= j < vs[i].payload.len() && reached(
                    x,
                    PieceV::Type(#[trigger] vs[i].payload[j]),
                    sp,
                );
            if i < front.len() {
                let t = front[i].payload[j];
            } else {
                let t = last.payload[j];
            }
        }
    }
}

/// The target is declared by the `i`-th item of the file.
pub open spec fn declared_by(x: SearchV, i: int) -> bool {
    &&& x.target.raw < x.scope.defs.len()
    &&& x.scope.defs[x.target.raw as int].file == x.file
    &&& x.scope.defs[x.target.raw as int].item == i
}

proof fn lemma_item_reach(x: SearchV, env: FileEnvV, i: int, item: ItemV, sp: Span)
    requires
        searchable(x, env),
        all_known(x.names, PieceV::Item(item)),
    ensures
        item_sites(scan_of(x, env), i, item).contains(sp) <==> (declared_by(x, i) && sp
            == crate::ast::item_name(item).span) || reached(x, PieceV::Item(item), sp),
{
    let a = PieceV::Item(item);
    let cx = scan_of(x, env);
    lemma_here(x.names, x, a, sp);
    if reached(x, a, sp) {
        let b = lemma_outside(x, a, sp);
    }
    let decl = if declares(cx, i) {
        seq![crate::ast::item_name(item).span]
    } else {
        Seq::empty()
    };
    if declares(cx, i) {
        assert(decl[0] == crate::ast::item_name(item).span);
    }
    assert(decl.contains(sp) <==> declared_by(x, i) && sp == crate::ast::item_name(item).span);
    match item {
        ItemV::Data(d) => {
            lemma_fields_part(x, env, a, d.fields, sp);
            lemma_variants_part(x, env, a, d.variants, sp);
            lemma_cat(decl, fields_sites(cx, d.fields), sp);
            lemma_cat(decl + fields_sites(cx, d.fields), variants_sites(cx, d.variants), sp);
        },
        ItemV::Fn(f) => {
            lemma_params_part(x, env, a, f.params, sp);
            lemma_block_part(x, env, a, f.body, sp);
            let s1 = decl + params_sites(cx, f.params);
            lemma_cat(decl, params_sites(cx, f.params), sp);
            let s2 = match f.ret {
                Some(t) => s1 + type_sites(cx, t),
                None => s1,
            };
            if let Some(t) = f.ret {
                lemma_type_part(x, env, a, t, sp);
                lemma_cat(s1, type_sites(cx, t), sp);
            }
            lemma_cat(s2, block_sites(cx, f.body), sp);
        },
    }
}

/// The `i`-th item of the file declares the target, or names it somewhere
/// in it, at `sp`.
pub open spec fn item_names(x: SearchV, items: Seq<ItemV>, i: int, sp: Span) -> bool {
    (declared_by(x, i) && sp == crate::ast::item_name(items[i]).span) || reached(
        x,
        PieceV::Item(items[i]),
        sp,
    )
}

proof fn lemma_items_reach(x: SearchV, env: FileEnvV, items: Seq<ItemV>, sp: Span)
    requires
        searchable(x, env),
        forall|i: int| 0 <= i < items.len() ==> all_known(x.names, PieceV::Item(#[trigger] items[i])),
    ensures
        items_sites(scan_of(x, env), items).contains(sp) <==> exists|i: int|
            0 <= i < items.len() && #[trigger] item_names(x, items, i, sp),
    decreases items.len(),
{
    if items.len() > 0 {
        let cx = scan_of(x, env);
        let front = items.drop_last();
        let n = items.len() - 1;
        assert forall|i: int| 0 <= i < front.len() implies all_known(
            x.names,
            PieceV::Item(#[trigger] front[i]),
        ) by {
            assert(front[i] == items[i]);
        }
        assert(items[n] == items.last());
        lemma_items_reach(x, env, front, sp);
        lemma_item_reach(x, env, n, items[n], sp);
        lemma_cat(items_sites(cx, front), item_sites(cx, n, items[n]), sp);
        assert forall|i: int| 0 <= i < front.len() implies item_names(x, front, i, sp)
            == #[trigger] item_names(x, items, i, sp) by {
            assert(front[i] == items[i]);
        }
        if exists|i: int| 0 <= i < front.len() && #[trigger] item_names(x, front, i, sp) {
            let i = choose|i: int| 0 <= i < front.len() && #[trigger] item_names(x, front, i, sp);
            assert(item_names(x, items, i, sp));
        }
        if exists|i: int| 0 <= i < items.len() && #[trigger] item_names(x, items, i, sp) {
            let i = choose|i: int| 0 <= i < items.len() && #[trigger] item_names(x, items, i, sp);
            if i < front.len() {
                assert(item_names(x, front, i, sp));
            }
        }
        assert(item_sites(cx, n, items[n]).contains(sp) <==> item_names(x, items, n, sp));
    }
}

proof fn lemma_uses_reach(x: SearchV, us: Seq<UseDeclV>, sp: Span)
    ensures
        use_sites(x.scope, x.names, us, x.target).contains(sp) <==> exists|i: int|
            0 <= i < us.len() && imports(x.scope, x.names, #[trigger] us[i], x.target) && sp
                == us[i].path.segs[1].span,
    decreases us.len(),
{
    if us.len() > 0 {
        let front = us.drop_last();
        let u = us[us.len() - 1];
        lemma_uses_reach(x, front, sp);
        let done = use_sites(x.scope, x.names, front, x.target);
        assert(use_names(x.scope, x.names, u, x.target) <==> imports(
            x.scope,
            x.names,
            u,
            x.target,
        ));
        lemma_cat(done, seq![u.path.segs[1].span], sp);
        assert(done.push(u.path.segs[1].span) =~= done + seq![u.path.segs[1].span]);
        assert(seq![u.path.segs[1].span][0] == u.path.segs[1].span);
        if done.contains(sp) {
            let i = choose|i: int|
                0 <= i < front.len() && imports(x.scope, x.names, #[trigger] front[i], x.target)
                    && sp == front[i].path.segs[1].span;
            assert(us[i] == front[i]);
        }
        if exists|i: int|
            0 <= i < us.len() && imports(x.scope, x.names, #[trigger] us[i], x.target) && sp
                == us[i].path.segs[1].span {
            let i = choose|i: int|
                0 <= i < us.len() && imports(x.scope, x.names, #[trigger] us[i], x.target) && sp
                    == us[i].path.segs[1].span;
            if i < front.len() {
                assert(front[i] == us[i]);
            }
        }
    }
}

// ---------- files and edits ----------

/// A file names the target at `sp`: a `use` imports it, an item declares
/// it, or a path somewhere in an item stands for it.
pub open spec fn file_names(x: SearchV, items: Seq<ItemV>, sp: Span) -> bool {
    ||| exists|i: int|
        0 <= i < x.uses.len() && imports(x.scope, x.names, #[trigger] x.uses[i], x.target) && sp
            == x.uses[i].path.segs[1].span
    ||| exists|i: int| 0 <= i < items.len() && #[trigger] item_names(x, items, i, sp)
}

/// The sites of a file are exactly the places where it names the target:
/// in a `use`, at the declaration, and in every path of every item that
/// stands for the target — a callee, a value, a literal's type, a
/// pattern or a type, in whatever branch, arm, loop or block it stands.
pub proof fn law_sites_are_the_mentions(
    file: FileId,
    ast: AstModuleV,
    s: ModuleScopeV,
    names: Seq<Seq<char>>,
    target: DefId,
    sp: Span,
)
    requires
        env_of(s, file) is Some,
        names.len() <= usize::MAX,
        forall|i: int|
            0 <= i < ast.items.len() ==> all_known(names, PieceV::Item(#[trigger] ast.items[i])),
    ensures
        file_sites(file, ast, s, names, target).contains(sp) <==> file_names(
            SearchV { file, uses: ast.uses, scope: s, names, target },
            ast.items,
            sp,
        ),
{
    let x = SearchV { file, uses: ast.uses, scope: s, names, target };
    let env = env_of(s, file)->0;
    lemma_uses_reach(x, ast.uses, sp);
    lemma_items_reach(x, env, ast.items, sp);
    lemma_cat(
        use_sites(s, names, ast.uses, target),
        items_sites(scan_of(x, env), ast.items),
        sp,
    );
}

/// A path that names the target is a site, however deep in an item it
/// stands: at the end of any chain of pieces, each written directly
/// inside the one in front, that starts with an item of the file.
pub proof fn law_every_mention_is_a_site(
    file: FileId,
    ast: AstModuleV,
    s: ModuleScopeV,
    names: Seq<Seq<char>>,
    target: DefId,
    i: int,
    c: Seq<PieceV>,
    sp: Span,
)
    requires
        env_of(s, file) is Some,
        names.len() <= usize::MAX,
        forall|k: int|
            0 <= k < ast.items.len() ==> all_known(names, PieceV::Item(#[trigger] ast.items[k])),
        0 <= i < ast.items.len(),
        is_chain(c),
        c[0] == PieceV::Item(ast.items[i]),
        mentions(SearchV { file, uses: ast.uses, scope: s, names, target }, c.last(), sp),
    ensures
        file_sites(file, ast, s, names, target).contains(sp),
{
    let x = SearchV { file, uses: ast.uses, scope: s, names, target };
    law_sites_are_the_mentions(file, ast, s, names, target, sp);
    reveal(reached);
    assert(item_names(x, ast.items, i, sp));
}

proof fn lemma_files_edits(
    s: SnapV,
    files: Seq<FileId>,
    target: DefId,
    new_name: Seq<char>,
    e: EditV,
)
    ensures
        files_edits(s, files, target, new_name).contains(e) <==> files.contains(e.file)
            && e.replace == new_name && file_sites(
            e.file,
            tree_of(s, e.file),
            s.scope,
            s.names,
            target,
        ).contains(e.span),
    decreases files.len(),
{
    if files.len() > 0 {
        let front = files.drop_last();
        let f = files[files.len() - 1];
        lemma_files_edits(s, front, target, new_name, e);
        let sites = file_sites(f, tree_of(s, f), s.scope, s.names, target);
        let more = site_edits(f, sites, new_name);
        let done = files_edits(s, front, target, new_name);
        let all = files_edits(s, files, target, new_name);
        assert(all == done + more);
        if more.contains(e) {
            let i = choose|i: int| 0 <= i < more.len() && more[i] == e;
            assert(sites[i] == e.span);
        }
        if e.file == f && e.replace == new_name && sites.contains(e.span) {
            let i = choose|i: int| 0 <= i < sites.len() && sites[i] == e.span;
            assert(more[i] == e);
        }
        if done.contains(e) {
            let i = choose|i: int| 0 <= i < done.len() && done[i] == e;
            assert(all[i] == e);
            let j = choose|j: int| 0 <= j < front.len() && front[j] == e.file;
            assert(files[j] == e.file);
        }
        if more.contains(e) {
            let i = choose|i: int| 0 <= i < more.len() && more[i] == e;
            assert(all[done.len() + i] == e);
            assert(files[files.len() - 1] == e.file);
        }
        if all.contains(e) {
            let i = choose|i: int| 0 <= i < all.len() && all[i] == e;
            if i < done.len() {
                assert(done[i] == e);
            } else {
                assert(more[i - done.len()] == e);
            }
        }
        if files.contains(e.file) {
            let j = choose|j: int| 0 <= j < files.len() && files[j] == e.file;
            if j < front.len() {
                assert(front[j] == e.file);
            }
        }
    }
}

pub(crate) proof fn lemma_sorted_same(es: Seq<EditV>, e: EditV)
    ensures
        sorted(es, site_order()).contains(e) <==> es.contains(e),
{
    broadcast use vstd::seq_lib::group_to_multiset_ensures;

    law_sorted(es, site_order());
    let ord = sorted(es, site_order());
    assert(ord.contains(e) <==> ord.to_multiset().count(e) > 0);
    assert(es.contains(e) <==> es.to_multiset().count(e) > 0);
}

pub(crate) proof fn lemma_dedup_keeps(es: Seq<EditV>, e: EditV)
    requires
        forall|i: int| 0 <= i < es.len() ==> (#[trigger] es[i]).replace == e.replace,
    ensures
        deduped(es).contains(e) <==> es.contains(e),
    decreases es.len(),
{
    if es.len() > 0 {
        let front = es.drop_last();
        let last = es[es.len() - 1];
        assert forall|i: int| 0 <= i < front.len() implies (#[trigger] front[i]).replace
            == e.replace by {
            assert(front[i] == es[i]);
        }
        lemma_dedup_keeps(front, e);
        let done = deduped(front);
        if front.contains(e) {
            let i = choose|i: int| 0 <= i < front.len() && front[i] == e;
            assert(es[i] == e);
            let j = choose|j: int| 0 <= j < done.len() && done[j] == e;
            assert(done.push(last)[j] == e);
        }
        if es.contains(e) {
            let i = choose|i: int| 0 <= i < es.len() && es[i] == e;
            if i < front.len() {
                assert(front[i] == e);
            }
        }
        if done.len() > 0 && done.last().file == last.file && done.last().span == last.span {
            if last == e {
                lemma_dedup_replace(front, e.replace);
                assert(done[done.len() - 1] == e);
            }
        } else {
            assert(done.push(last)[done.len() as int] == last);
            if done.push(last).contains(e) {
                let j = choose|j: int| 0 <= j < done.push(last).len() && done.push(last)[j] == e;
                if j < done.len() {
                    assert(done[j] == e);
                }
            }
        }
        if last == e {
            assert(es[es.len() - 1] == e);
        }
    }
}

pub(crate) proof fn lemma_dedup_replace(es: Seq<EditV>, r: Seq<char>)
    requires
        forall|i: int| 0 <= i < es.len() ==> (#[trigger] es[i]).replace == r,
    ensures
        forall|i: int| 0 <= i < deduped(es).len() ==> (#[trigger] deduped(es)[i]).replace == r,
    decreases es.len(),
{
    if es.len() > 0 {
        let front = es.drop_last();
        assert forall|i: int| 0 <= i < front.len() implies (#[trigger] front[i]).replace == r by {
            assert(front[i] == es[i]);
        }
        assert(es[es.len() - 1].replace == r);
        lemma_dedup_replace(front, r);
        let done = deduped(front);
        assert forall|i: int| 0 <= i < deduped(es).len() implies (#[trigger] deduped(
            es,
        )[i]).replace == r by {
            if i < done.len() {
                assert(deduped(es)[i] == done[i]);
            }
        }
    }
}

/// A rename edits exactly the places of the reachable files that name
/// the definition: each of them, in every file, is given the new name,
/// and no other place is touched.
pub proof fn law_rename_reaches_every_mention(
    s: SnapV,
    target: DefId,
    new_name: Seq<char>,
    file: FileId,
    sp: Span,
)
    requires
        s.names.len() <= usize::MAX,
        env_of(s.scope, file) is Some,
        forall|i: int|
            0 <= i < tree_of(s, file).items.len() ==> all_known(
                s.names,
                PieceV::Item(#[trigger] tree_of(s, file).items[i]),
            ),
    ensures
        rename_edits(s, target, new_name).contains(EditV { file, span: sp, replace: new_name })
            <==> s.scope.files.contains(file) && file_names(
            SearchV {
                file,
                uses: tree_of(s, file).uses,
                scope: s.scope,
                names: s.names,
                target,
            },
            tree_of(s, file).items,
            sp,
        ),
{
    let e = EditV { file, span: sp, replace: new_name };
    let all = files_edits(s, s.scope.files, target, new_name);
    let ord = sorted(all, site_order());
    lemma_files_edits(s, s.scope.files, target, new_name, e);
    law_sites_are_the_mentions(file, tree_of(s, file), s.scope, s.names, target, sp);
    lemma_sorted_same(all, e);
    assert forall|i: int| 0 <= i < ord.len() implies (#[trigger] ord[i]).replace == new_name by {
        lemma_sorted_same(all, ord[i]);
        assert(ord.contains(ord[i]));
        lemma_files_edits(s, s.scope.files, target, new_name, ord[i]);
    }
    lemma_dedup_keeps(ord, e);
}

} // verus!
