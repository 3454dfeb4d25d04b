//! Finding the sites of a definition in a file's syntax tree.
//!
//! A site is a name token that resolves to the target: the declared
//! name, the member segment of a `use` path, and the segment of a type,
//! call, literal, constructor, or pattern path. Aliased imports
//! (`use m::x as y`) keep their local name: only the path's member
//! segment is a site, references through `y` are not. Unaliased imports
//! (`use m::x`) rebind under the new name, so bare `x` references in
//! that file are sites too.

use crate::ast::{
    type_path, AstModule, AstModuleV, Block, BlockV, Expr, ExprV, Field, FieldInit, FieldInitV,
    FieldV, Item, ItemV, MatchArm, MatchArmV, Param, ParamV, Path, PathV, Pattern, PatternV, Stmt,
    StmtV, TypeExpr, TypeExprV, UseDecl, UseDeclV, Variant, VariantV,
};
use crate::fxmap::{entry, IdMap};
use crate::hir::{env_of, shape_of, FileEnv, FileEnvV, ModuleScope, ModuleScopeV};
use crate::hir_lower::{arms_view, exprs_view, inits_view, member_of, stmts_view};
use crate::source::{lookup, DefId, FileId, Interner, Span};
use crate::target::{find_own, module_file_of, module_file_spec, own_member};
use vstd::prelude::*;

verus! {

/// What a scan of one file looks for, and through what it resolves
/// names.
#[verifier::ext_equal]
pub struct ScanV {
    pub file: FileId,
    pub env: FileEnvV,
    pub scope: ModuleScopeV,
    pub names: Seq<Seq<char>>,
    pub target: DefId,
    /// Bound names of *unaliased* member imports of the target.
    pub unaliased: Map<usize, usize>,
}

/// Per-file reference scan — bundles the workspace scope and the file's
/// resolver env so recursive walks stay unary.
struct Scan<'a> {
    file: FileId,
    env: &'a FileEnv,
    scope: &'a ModuleScope,
    interner: &'a Interner,
    target: DefId,
    unaliased: IdMap,
}

impl<'a> Scan<'a> {
    closed spec fn view(&self) -> ScanV {
        ScanV {
            file: self.file,
            env: self.env@,
            scope: self.scope@,
            names: self.interner@,
            target: self.target,
            unaliased: self.unaliased@,
        }
    }
}

// ---------- `use` declarations ----------

/// Whether a `use` decl `m::x` names `target`. The module segment
/// of a `use` path resolves through the *workspace module table*
/// (file stems), not through the file's own bindings.
pub open spec fn use_names(s: ModuleScopeV, names: Seq<Seq<char>>, u: UseDeclV, target: DefId) -> bool {
    if u.path.segs.len() == 2 {
        match (
            module_file_spec(s, names, u.path.segs[0].name),
            lookup(names, u.path.segs[1].name),
        ) {
            (Some(f), Some(id)) => own_member(s, f, id) == Some(target.raw),
            _ => false,
        }
    } else {
        false
    }
}

/// Whether a `use` decl `m::x` names `target`.
pub fn use_targets(scope: &ModuleScope, interner: &Interner, u: &UseDecl, target: DefId) -> (r: bool)
    ensures
        r == use_names(scope@, interner@, u@, target),
{
    if u.path.segs.len() != 2 {
        return false;
    }
    assert(u@.path.segs[0] == u.path.segs@[0]@ && u@.path.segs[1] == u.path.segs@[1]@);
    match module_file_of(scope, interner, u.path.segs[0].name.as_str()) {
        None => false,
        Some(f) => match interner.get(u.path.segs[1].name.as_str()) {
            None => false,
            Some(id) => match find_own(scope, f, id) {
                Some(d) => d == target.raw,
                None => false,
            },
        },
    }
}

/// The member segments of the `use` decls that name the target.
pub open spec fn use_sites(s: ModuleScopeV, names: Seq<Seq<char>>, us: Seq<UseDeclV>, target: DefId) -> Seq<
    Span,
>
    decreases us.len(),
{
    if us.len() == 0 {
        Seq::empty()
    } else {
        let done = use_sites(s, names, us.drop_last(), target);
        if use_names(s, names, us.last(), target) {
            done.push(us.last().path.segs[1].span)
        } else {
            done
        }
    }
}

/// The names that unaliased imports of the target bind.
pub open spec fn unaliased_of(
    s: ModuleScopeV,
    names: Seq<Seq<char>>,
    us: Seq<UseDeclV>,
    target: DefId,
) -> Map<usize, usize>
    decreases us.len(),
{
    if us.len() == 0 {
        Map::empty()
    } else {
        let done = unaliased_of(s, names, us.drop_last(), target);
        if use_names(s, names, us.last(), target) && us.last().alias is None {
            done.insert(lookup(names, us.last().path.segs[1].name)->0.raw, 0)
        } else {
            done
        }
    }
}

fn scan_uses(scope: &ModuleScope, interner: &Interner, us: &Vec<UseDecl>, target: DefId) -> (r: (
    Vec<Span>,
    IdMap,
))
    ensures
        r.0@ == use_sites(scope@, interner@, crate::ast::use_decls(us@), target),
        r.1@ == unaliased_of(scope@, interner@, crate::ast::use_decls(us@), target),
{
    let ghost all = crate::ast::use_decls(us@);
    let mut out: Vec<Span> = Vec::new();
    let mut bound = IdMap::new();
    let mut i: usize = 0;
    proof {
        assert(all.take(0) =~= Seq::empty());
        assert(out@ =~= Seq::empty());
    }
    while i < us.len()
        invariant
            i <= us@.len(),
            all == crate::ast::use_decls(us@),
            out@ == use_sites(scope@, interner@, all.take(i as int), target),
            bound@ == unaliased_of(scope@, interner@, all.take(i as int), target),
        decreases us@.len() - i,
    {
        let u = &us[i];
        proof {
            assert(all.take(i + 1).drop_last() =~= all.take(i as int));
            assert(all.take(i + 1).last() == u@);
        }
        if use_targets(scope, interner, u, target) {
            assert(u@.path.segs[1] == u.path.segs@[1]@);
            let member = &u.path.segs[1];
            out.push(member.span);
            if u.alias.is_none() {
                if let Some(id) = interner.get(member.name.as_str()) {
                    let _ = bound.insert(id.raw, 0);
                }
            }
        }
        i += 1;
    }
    proof {
        assert(all.take(all.len() as int) =~= all);
    }
    (out, bound)
}

// ---------- paths ----------

/// The definition a bare name stands for, if a rename of it rewrites the
/// name: the file's own members come first; an imported name counts only
/// when the import was unaliased.
pub open spec fn bare_hit(cx: ScanV, name: Seq<char>) -> bool {
    match lookup(cx.names, name) {
        None => false,
        Some(id) => match member_of(cx.env, id) {
            Some(d) => d == cx.target.raw,
            None => entry(cx.env.imports, id.raw) == Some(cx.target.raw)
                && cx.unaliased.contains_key(id.raw),
        },
    }
}

/// Whether a bare name in front of `::V` is the target `data`, under its
/// own name.
pub open spec fn data_hit(cx: ScanV, name: Seq<char>) -> bool {
    match lookup(cx.names, name) {
        None => false,
        Some(id) => match entry(cx.env.datas, id.raw) {
            Some(d) => d == cx.target.raw,
            None => entry(cx.env.imports, id.raw) == Some(cx.target.raw) && shape_of(
                cx.scope,
                cx.target,
            ) is Some && cx.unaliased.contains_key(id.raw),
        },
    }
}

/// The file a module name of the scanned file stands for.
pub open spec fn module_hit(cx: ScanV, name: Seq<char>) -> Option<FileId> {
    match lookup(cx.names, name) {
        None => None,
        Some(id) => match entry(cx.env.modules, id.raw) {
            Some(f) => Some(FileId { raw: f }),
            None => None,
        },
    }
}

/// A member of a module, by name.
pub open spec fn member_at(cx: ScanV, file: FileId, name: Seq<char>) -> Option<usize> {
    match lookup(cx.names, name) {
        None => None,
        Some(id) => own_member(cx.scope, file, id),
    }
}

/// The site of a path that names a definition: `x` or `m::x`.
pub open spec fn def_path_sites(cx: ScanV, p: PathV) -> Seq<Span> {
    if p.segs.len() == 1 {
        if bare_hit(cx, p.segs[0].name) {
            seq![p.segs[0].span]
        } else {
            Seq::empty()
        }
    } else if p.segs.len() == 2 {
        match module_hit(cx, p.segs[0].name) {
            Some(f) => if member_at(cx, f, p.segs[1].name) == Some(cx.target.raw) {
                seq![p.segs[1].span]
            } else {
                Seq::empty()
            },
            None => Seq::empty(),
        }
    } else {
        Seq::empty()
    }
}

/// Whether a path names a member of a module.
pub open spec fn is_member_path(cx: ScanV, p: PathV) -> bool {
    p.segs.len() == 2 && (match module_hit(cx, p.segs[0].name) {
        Some(f) => member_at(cx, f, p.segs[1].name) is Some,
        None => false,
    })
}

/// The `data` segment of a variant path: `T` in `T::V` or `m::T::V`.
pub open spec fn variant_path_sites(cx: ScanV, p: PathV) -> Seq<Span> {
    if p.segs.len() == 2 {
        if data_hit(cx, p.segs[0].name) {
            seq![p.segs[0].span]
        } else {
            Seq::empty()
        }
    } else if p.segs.len() == 3 {
        match module_hit(cx, p.segs[0].name) {
            Some(f) => if member_at(cx, f, p.segs[1].name) == Some(cx.target.raw) && shape_of(
                cx.scope,
                cx.target,
            ) is Some {
                seq![p.segs[1].span]
            } else {
                Seq::empty()
            },
            None => Seq::empty(),
        }
    } else {
        Seq::empty()
    }
}

/// The site of a path in value position: a definition, or — where no
/// module member bears the path — a variant of the target.
pub open spec fn value_path_sites(cx: ScanV, p: PathV) -> Seq<Span> {
    if p.segs.len() == 1 || is_member_path(cx, p) {
        def_path_sites(cx, p)
    } else {
        variant_path_sites(cx, p)
    }
}

/// The site of a written type.
pub open spec fn type_sites(cx: ScanV, t: TypeExprV) -> Seq<Span> {
    def_path_sites(cx, type_path(t))
}

impl<'a> Scan<'a> {
    fn bare(&self, name: &str) -> (r: bool)
        ensures
            r == bare_hit(self@, name@),
    {
        match self.interner.get(name) {
            None => false,
            Some(id) => {
                let own = match self.env.fns.get(id.raw) {
                    Some(d) => Some(d),
                    None => self.env.datas.get(id.raw),
                };
                match own {
                    Some(d) => d == self.target.raw,
                    None => match self.env.imports.get(id.raw) {
                        Some(d) => d == self.target.raw && self.unaliased.contains_key(id.raw),
                        None => false,
                    },
                }
            },
        }
    }

    fn data(&self, name: &str) -> (r: bool)
        ensures
            r == data_hit(self@, name@),
    {
        match self.interner.get(name) {
            None => false,
            Some(id) => match self.env.datas.get(id.raw) {
                Some(d) => d == self.target.raw,
                None => match self.env.imports.get(id.raw) {
                    Some(d) => d == self.target.raw && self.scope.data_shape(
                        self.target,
                    ).is_some() && self.unaliased.contains_key(id.raw),
                    None => false,
                },
            },
        }
    }

    fn module(&self, name: &str) -> (r: Option<FileId>)
        ensures
            r == module_hit(self@, name@),
    {
        match self.interner.get(name) {
            None => None,
            Some(id) => match self.env.modules.get(id.raw) {
                Some(f) => Some(FileId { raw: f }),
                None => None,
            },
        }
    }

    fn member(&self, file: FileId, name: &str) -> (r: Option<usize>)
        ensures
            r == member_at(self@, file, name@),
    {
        match self.interner.get(name) {
            None => None,
            Some(id) => find_own(self.scope, file, id),
        }
    }

    fn def_path(&self, p: &Path) -> (r: Vec<Span>)
        ensures
            r@ == def_path_sites(self@, p@),
    {
        let mut out: Vec<Span> = Vec::new();
        if p.segs.len() == 1 {
            assert(p@.segs[0] == p.segs@[0]@);
            if self.bare(p.segs[0].name.as_str()) {
                out.push(p.segs[0].span);
            }
        } else if p.segs.len() == 2 {
            assert(p@.segs[0] == p.segs@[0]@ && p@.segs[1] == p.segs@[1]@);
            if let Some(f) = self.module(p.segs[0].name.as_str()) {
                if let Some(d) = self.member(f, p.segs[1].name.as_str()) {
                    if d == self.target.raw {
                        out.push(p.segs[1].span);
                    }
                }
            }
        }
        proof {
            assert(out@ =~= def_path_sites(self@, p@));
        }
        out
    }

    fn member_path(&self, p: &Path) -> (r: bool)
        ensures
            r == is_member_path(self@, p@),
    {
        if p.segs.len() != 2 {
            return false;
        }
        assert(p@.segs[0] == p.segs@[0]@ && p@.segs[1] == p.segs@[1]@);
        match self.module(p.segs[0].name.as_str()) {
            Some(f) => self.member(f, p.segs[1].name.as_str()).is_some(),
            None => false,
        }
    }

    fn variant_path(&self, p: &Path) -> (r: Vec<Span>)
        ensures
            r@ == variant_path_sites(self@, p@),
    {
        let mut out: Vec<Span> = Vec::new();
        if p.segs.len() == 2 {
            assert(p@.segs[0] == p.segs@[0]@);
            if self.data(p.segs[0].name.as_str()) {
                out.push(p.segs[0].span);
            }
        } else if p.segs.len() == 3 {
            assert(p@.segs[0] == p.segs@[0]@ && p@.segs[1] == p.segs@[1]@);
            if let Some(f) = self.module(p.segs[0].name.as_str()) {
                if let Some(d) = self.member(f, p.segs[1].name.as_str()) {
                    if d == self.target.raw && self.scope.data_shape(self.target).is_some() {
                        out.push(p.segs[1].span);
                    }
                }
            }
        }
        proof {
            assert(out@ =~= variant_path_sites(self@, p@));
        }
        out
    }

    fn value_path(&self, p: &Path) -> (r: Vec<Span>)
        ensures
            r@ == value_path_sites(self@, p@),
    {
        if p.segs.len() == 1 || self.member_path(p) {
            self.def_path(p)
        } else {
            self.variant_path(p)
        }
    }

    fn written_type(&self, t: &TypeExpr) -> (r: Vec<Span>)
        ensures
            r@ == type_sites(self@, t@),
    {
        let ps = t.paths();
        self.def_path(ps[0])
    }
}

// ---------- bodies ----------

/// The sites of an expression, in the order they are written.
pub open spec fn expr_sites(cx: ScanV, e: ExprV) -> Seq<Span>
    decreases e,
{
    match e {
        ExprV::Call { callee, args, span } => value_path_sites(cx, callee) + exprs_sites(cx, args),
        ExprV::StructLit { name, fields, span } => def_path_sites(cx, name) + inits_sites(
            cx,
            fields,
        ),
        ExprV::Path { path } => value_path_sites(cx, path),
        ExprV::Field { base, name, span } => expr_sites(cx, *base),
        ExprV::Index { base, index, span } => expr_sites(cx, *base) + expr_sites(cx, *index),
        ExprV::Slice { base, lo, hi, span } => {
            let a = expr_sites(cx, *base);
            let b = match lo {
                Some(x) => a + expr_sites(cx, *x),
                None => a,
            };
            match hi {
                Some(x) => b + expr_sites(cx, *x),
                None => b,
            }
        },
        ExprV::ArrayLit { elems, span } => exprs_sites(cx, elems),
        ExprV::Range { lo, hi, span } => {
            let a = match lo {
                Some(x) => expr_sites(cx, *x),
                None => Seq::empty(),
            };
            match hi {
                Some(x) => a + expr_sites(cx, *x),
                None => a,
            }
        },
        ExprV::Match { scrutinee, arms, span } => expr_sites(cx, *scrutinee) + arms_sites(cx, arms),
        ExprV::For { var, mutable, iter, body, span } => expr_sites(cx, *iter) + block_sites(
            cx,
            body,
        ),
        ExprV::Binary { op, lhs, rhs, span } => expr_sites(cx, *lhs) + expr_sites(cx, *rhs),
        ExprV::Unary { op, expr, span } => expr_sites(cx, *expr),
        ExprV::If { cond, then_, else_, span } => {
            let a = expr_sites(cx, *cond) + block_sites(cx, then_);
            match else_ {
                Some(x) => a + expr_sites(cx, *x),
                None => a,
            }
        },
        ExprV::Block { block, span } => block_sites(cx, block),
        // `Var` names resolve to locals only — never defs — and
        // field names are member names. None are sites of a
        // top-level definition.
        ExprV::Var { name } => Seq::empty(),
        ExprV::Literal { value, span } => Seq::empty(),
        ExprV::Error { span } => Seq::empty(),
    }
}

/// The sites of a list of expressions.
pub open spec fn exprs_sites(cx: ScanV, es: Seq<ExprV>) -> Seq<Span>
    decreases es,
{
    if es.len() == 0 {
        Seq::empty()
    } else {
        exprs_sites(cx, es.drop_last()) + expr_sites(cx, es.last())
    }
}

/// The sites of the initializers of a struct literal.
pub open spec fn inits_sites(cx: ScanV, fs: Seq<FieldInitV>) -> Seq<Span>
    decreases fs,
{
    if fs.len() == 0 {
        Seq::empty()
    } else {
        inits_sites(cx, fs.drop_last()) + expr_sites(cx, fs.last().value)
    }
}

/// The site of a pattern.
pub open spec fn pattern_sites(cx: ScanV, p: PatternV) -> Seq<Span> {
    match p {
        PatternV::Bind { name } => Seq::empty(),
        PatternV::Variant { path, binds, span } => variant_path_sites(cx, path),
    }
}

/// The sites of match arms.
pub open spec fn arms_sites(cx: ScanV, arms: Seq<MatchArmV>) -> Seq<Span>
    decreases arms,
{
    if arms.len() == 0 {
        Seq::empty()
    } else {
        arms_sites(cx, arms.drop_last()) + pattern_sites(cx, arms.last().pat) + expr_sites(
            cx,
            arms.last().body,
        )
    }
}

/// The sites of a block.
pub open spec fn block_sites(cx: ScanV, b: BlockV) -> Seq<Span>
    decreases b,
{
    let a = stmts_sites(cx, b.stmts);
    match b.tail {
        Some(x) => a + expr_sites(cx, *x),
        None => a,
    }
}

/// The sites of a list of statements.
pub open spec fn stmts_sites(cx: ScanV, ss: Seq<StmtV>) -> Seq<Span>
    decreases ss,
{
    if ss.len() == 0 {
        Seq::empty()
    } else {
        stmts_sites(cx, ss.drop_last()) + stmt_sites(cx, ss.last())
    }
}

/// The sites of a statement.
pub open spec fn stmt_sites(cx: ScanV, s: StmtV) -> Seq<Span>
    decreases s,
{
    match s {
        StmtV::Let { name, mutable, ty, init, span } => {
            let a = match ty {
                Some(t) => type_sites(cx, t),
                None => Seq::empty(),
            };
            match init {
                Some(e) => a + expr_sites(cx, e),
                None => a,
            }
        },
        StmtV::Assign { target, value, span } => expr_sites(cx, value),
        StmtV::Expr { expr, has_semi, span } => expr_sites(cx, expr),
        StmtV::Return { value, span } => match value {
            Some(e) => expr_sites(cx, e),
            None => Seq::empty(),
        },
    }
}

fn none() -> (r: Vec<Span>)
    ensures
        r@ == Seq::<Span>::empty(),
{
    Vec::new()
}

fn plus(a: Vec<Span>, b: Vec<Span>) -> (r: Vec<Span>)
    ensures
        r@ == a@ + b@,
{
    let mut out = a;
    let mut more = b;
    out.append(&mut more);
    out
}

impl<'a> Scan<'a> {
    fn exprs(&self, es: &Vec<Expr>) -> (r: Vec<Span>)
        ensures
            r@ == exprs_sites(self@, exprs_view(es@)),
        decreases es@,
    {
        let ghost all = exprs_view(es@);
        let mut out = none();
        let mut i: usize = 0;
        proof {
            assert(all.take(0) =~= Seq::empty());
        }
        while i < es.len()
            invariant
                i <= es@.len(),
                all == exprs_view(es@),
                out@ == exprs_sites(self@, all.take(i as int)),
            decreases es@.len() - i,
        {
            proof {
                assert(all.take(i + 1).drop_last() =~= all.take(i as int));
                assert(all.take(i + 1).last() == es@[i as int]@);
            }
            out = plus(out, self.expr(&es[i]));
            i += 1;
        }
        proof {
            assert(all.take(all.len() as int) =~= all);
        }
        out
    }

    fn inits(&self, fs: &Vec<FieldInit>) -> (r: Vec<Span>)
        ensures
            r@ == inits_sites(self@, inits_view(fs@)),
        decreases fs@,
    {
        let ghost all = inits_view(fs@);
        let mut out = none();
        let mut i: usize = 0;
        proof {
            assert(all.take(0) =~= Seq::empty());
        }
        while i < fs.len()
            invariant
                i <= fs@.len(),
                all == inits_view(fs@),
                out@ == inits_sites(self@, all.take(i as int)),
            decreases fs@.len() - i,
        {
            proof {
                assert(all.take(i + 1).drop_last() =~= all.take(i as int));
                assert(all.take(i + 1).last() == fs@[i as int]@);
            }
            out = plus(out, self.expr(&fs[i].value));
            i += 1;
        }
        proof {
            assert(all.take(all.len() as int) =~= all);
        }
        out
    }

    fn pattern(&self, p: &Pattern) -> (r: Vec<Span>)
        ensures
            r@ == pattern_sites(self@, p@),
    {
        match p {
            Pattern::Bind { name: _ } => none(),
            Pattern::Variant { path, binds: _, span: _ } => self.variant_path(path),
        }
    }

    fn arms(&self, arms: &Vec<MatchArm>) -> (r: Vec<Span>)
        ensures
            r@ == arms_sites(self@, arms_view(arms@)),
        decreases arms@,
    {
        let ghost all = arms_view(arms@);
        let mut out = none();
        let mut i: usize = 0;
        proof {
            assert(all.take(0) =~= Seq::empty());
        }
        while i < arms.len()
            invariant
                i <= arms@.len(),
                all == arms_view(arms@),
                out@ == arms_sites(self@, all.take(i as int)),
            decreases arms@.len() - i,
        {
            proof {
                assert(all.take(i + 1).drop_last() =~= all.take(i as int));
                assert(all.take(i + 1).last() == arms@[i as int]@);
            }
            out = plus(out, self.pattern(&arms[i].pat));
            out = plus(out, self.expr(&arms[i].body));
            i += 1;
        }
        proof {
            assert(all.take(all.len() as int) =~= all);
        }
        out
    }

    fn stmts(&self, ss: &Vec<Stmt>) -> (r: Vec<Span>)
        ensures
            r@ == stmts_sites(self@, stmts_view(ss@)),
        decreases ss@,
    {
        let ghost all = stmts_view(ss@);
        let mut out = none();
        let mut i: usize = 0;
        proof {
            assert(all.take(0) =~= Seq::empty());
        }
        while i < ss.len()
            invariant
                i <= ss@.len(),
                all == stmts_view(ss@),
                out@ == stmts_sites(self@, all.take(i as int)),
            decreases ss@.len() - i,
        {
            proof {
                assert(all.take(i + 1).drop_last() =~= all.take(i as int));
                assert(all.take(i + 1).last() == ss@[i as int]@);
            }
            out = plus(out, self.stmt(&ss[i]));
            i += 1;
        }
        proof {
            assert(all.take(all.len() as int) =~= all);
        }
        out
    }

    fn stmt(&self, s: &Stmt) -> (r: Vec<Span>)
        ensures
            r@ == stmt_sites(self@, s@),
        decreases s,
    {
        match s {
            Stmt::Let { name: _, mutable: _, ty, init, span: _ } => {
                let a = match ty {
                    Some(t) => self.written_type(t),
                    None => none(),
                };
                match init {
                    Some(e) => plus(a, self.expr(e)),
                    None => a,
                }
            },
            Stmt::Assign { target: _, value, span: _ } => self.expr(value),
            Stmt::Expr { expr, has_semi: _, span: _ } => self.expr(expr),
            Stmt::Return { value, span: _ } => match value {
                Some(e) => self.expr(e),
                None => none(),
            },
        }
    }

    fn block(&self, b: &Block) -> (r: Vec<Span>)
        ensures
            r@ == block_sites(self@, b@),
        decreases b,
    {
        proof {
            assert(b@.stmts =~= stmts_view(b.stmts@));
        }
        let a = self.stmts(&b.stmts);
        match &b.tail {
            Some(x) => plus(a, self.expr(x)),
            None => a,
        }
    }

    fn opt(&self, a: Vec<Span>, e: &Option<Box<Expr>>) -> (r: Vec<Span>)
        ensures
            match *e {
                Some(x) => r@ == a@ + expr_sites(self@, (*x)@),
                None => r@ == a@,
            },
        decreases e,
    {
        match e {
            Some(x) => plus(a, self.expr(x)),
            None => a,
        }
    }

    #[verifier::spinoff_prover]
    fn expr(&self, e: &Expr) -> (r: Vec<Span>)
        ensures
            r@ == expr_sites(self@, e@),
        decreases e,
    {
        match e {
            Expr::Call { callee, args, span: _ } => {
                proof {
                    assert(e@->Call_args =~= exprs_view(args@));
                }
                plus(self.value_path(callee), self.exprs(args))
            },
            Expr::StructLit { name, fields, span: _ } => {
                proof {
                    assert(e@->StructLit_fields =~= inits_view(fields@));
                }
                plus(self.def_path(name), self.inits(fields))
            },
            Expr::Path { path } => self.value_path(path),
            Expr::Field { base, name: _, span: _ } => self.expr(base),
            Expr::Index { base, index, span: _ } => plus(self.expr(base), self.expr(index)),
            Expr::Slice { base, lo, hi, span: _ } => {
                let a = self.expr(base);
                let b = self.opt(a, lo);
                self.opt(b, hi)
            },
            Expr::ArrayLit { elems, span: _ } => {
                proof {
                    assert(e@->ArrayLit_elems =~= exprs_view(elems@));
                }
                self.exprs(elems)
            },
            Expr::Range { lo, hi, span: _ } => {
                let a = match lo {
                    Some(x) => self.expr(x),
                    None => none(),
                };
                self.opt(a, hi)
            },
            Expr::Match { scrutinee, arms, span: _ } => {
                proof {
                    assert(e@->Match_arms =~= arms_view(arms@));
                }
                plus(self.expr(scrutinee), self.arms(arms))
            },
            Expr::For { var: _, mutable: _, iter, body, span: _ } => plus(
                self.expr(iter),
                self.block(body),
            ),
            Expr::Binary { op: _, lhs, rhs, span: _ } => plus(self.expr(lhs), self.expr(rhs)),
            Expr::Unary { op: _, expr, span: _ } => self.expr(expr),
            Expr::If { cond, then_, else_, span: _ } => {
                let a = plus(self.expr(cond), self.block(then_));
                self.opt(a, else_)
            },
            Expr::Block { block, span: _ } => self.block(block),
            Expr::Var { name: _ } => none(),
            Expr::Literal { value: _, span: _ } => none(),
            Expr::Error { span: _ } => none(),
        }
    }
}

// ---------- items ----------

/// The sites in the field types of a `data`.
pub open spec fn fields_sites(cx: ScanV, fs: Seq<FieldV>) -> Seq<Span>
    decreases fs.len(),
{
    if fs.len() == 0 {
        Seq::empty()
    } else {
        fields_sites(cx, fs.drop_last()) + type_sites(cx, fs.last().ty)
    }
}

/// The sites in a list of types.
pub open spec fn types_sites(cx: ScanV, ts: Seq<TypeExprV>) -> Seq<Span>
    decreases ts.len(),
{
    if ts.len() == 0 {
        Seq::empty()
    } else {
        types_sites(cx, ts.drop_last()) + type_sites(cx, ts.last())
    }
}

/// The sites in the payload types of variants.
pub open spec fn variants_sites(cx: ScanV, vs: Seq<VariantV>) -> Seq<Span>
    decreases vs.len(),
{
    if vs.len() == 0 {
        Seq::empty()
    } else {
        variants_sites(cx, vs.drop_last()) + types_sites(cx, vs.last().payload)
    }
}

/// The sites in the parameter types of a function.
pub open spec fn params_sites(cx: ScanV, ps: Seq<ParamV>) -> Seq<Span>
    decreases ps.len(),
{
    if ps.len() == 0 {
        Seq::empty()
    } else {
        params_sites(cx, ps.drop_last()) + type_sites(cx, ps.last().ty)
    }
}

/// Whether item `i` of the scanned file declares the target.
pub open spec fn declares(cx: ScanV, i: int) -> bool {
    cx.target.raw < cx.scope.defs.len() && cx.scope.defs[cx.target.raw as int].file == cx.file
        && cx.scope.defs[cx.target.raw as int].item == i
}

/// The sites of item `i`: its name if it declares the target, its types,
/// and its body.
pub open spec fn item_sites(cx: ScanV, i: int, item: ItemV) -> Seq<Span> {
    let decl = if declares(cx, i) {
        seq![crate::ast::item_name(item).span]
    } else {
        Seq::empty()
    };
    match item {
        ItemV::Data(d) => decl + fields_sites(cx, d.fields) + variants_sites(cx, d.variants),
        ItemV::Fn(f) => {
            let a = decl + params_sites(cx, f.params);
            let b = match f.ret {
                Some(t) => a + type_sites(cx, t),
                None => a,
            };
            b + block_sites(cx, f.body)
        },
    }
}

/// The sites of a list of items.
pub open spec fn items_sites(cx: ScanV, items: Seq<ItemV>) -> Seq<Span>
    decreases items.len(),
{
    if items.len() == 0 {
        Seq::empty()
    } else {
        items_sites(cx, items.drop_last()) + item_sites(cx, items.len() - 1, items.last())
    }
}

/// Every site of `target` in a file.
pub open spec fn file_sites(
    file: FileId,
    ast: AstModuleV,
    s: ModuleScopeV,
    names: Seq<Seq<char>>,
    target: DefId,
) -> Seq<Span> {
    match env_of(s, file) {
        None => Seq::empty(),
        Some(env) => use_sites(s, names, ast.uses, target) + items_sites(
            ScanV {
                file,
                env,
                scope: s,
                names,
                target,
                unaliased: unaliased_of(s, names, ast.uses, target),
            },
            ast.items,
        ),
    }
}

impl<'a> Scan<'a> {
    fn fields(&self, fs: &Vec<Field>) -> (r: Vec<Span>)
        ensures
            r@ == fields_sites(self@, crate::ast::fields(fs@)),
    {
        let ghost all = crate::ast::fields(fs@);
        let mut out = none();
        let mut i: usize = 0;
        proof {
            assert(all.take(0) =~= Seq::empty());
        }
        while i < fs.len()
            invariant
                i <= fs@.len(),
                all == crate::ast::fields(fs@),
                out@ == fields_sites(self@, all.take(i as int)),
            decreases fs@.len() - i,
        {
            proof {
                assert(all.take(i + 1).drop_last() =~= all.take(i as int));
                assert(all.take(i + 1).last() == fs@[i as int]@);
            }
            out = plus(out, self.written_type(&fs[i].ty));
            i += 1;
        }
        proof {
            assert(all.take(all.len() as int) =~= all);
        }
        out
    }

    fn types(&self, ts: &Vec<TypeExpr>) -> (r: Vec<Span>)
        ensures
            r@ == types_sites(self@, crate::ast::type_exprs(ts@)),
    {
        let ghost all = crate::ast::type_exprs(ts@);
        let mut out = none();
        let mut i: usize = 0;
        proof {
            assert(all.take(0) =~= Seq::empty());
        }
        while i < ts.len()
            invariant
                i <= ts@.len(),
                all == crate::ast::type_exprs(ts@),
                out@ == types_sites(self@, all.take(i as int)),
            decreases ts@.len() - i,
        {
            proof {
                assert(all.take(i + 1).drop_last() =~= all.take(i as int));
                assert(all.take(i + 1).last() == ts@[i as int]@);
            }
            out = plus(out, self.written_type(&ts[i]));
            i += 1;
        }
        proof {
            assert(all.take(all.len() as int) =~= all);
        }
        out
    }

    fn variants(&self, vs: &Vec<Variant>) -> (r: Vec<Span>)
        ensures
            r@ == variants_sites(self@, crate::ast::variants(vs@)),
    {
        let ghost all = crate::ast::variants(vs@);
        let mut out = none();
        let mut i: usize = 0;
        proof {
            assert(all.take(0) =~= Seq::empty());
        }
        while i < vs.len()
            invariant
                i <= vs@.len(),
                all == crate::ast::variants(vs@),
                out@ == variants_sites(self@, all.take(i as int)),
            decreases vs@.len() - i,
        {
            proof {
                assert(all.take(i + 1).drop_last() =~= all.take(i as int));
                assert(all.take(i + 1).last() == vs@[i as int]@);
            }
            out = plus(out, self.types(&vs[i].payload));
            i += 1;
        }
        proof {
            assert(all.take(all.len() as int) =~= all);
        }
        out
    }

    fn params(&self, ps: &Vec<Param>) -> (r: Vec<Span>)
        ensures
            r@ == params_sites(self@, crate::ast::params(ps@)),
    {
        let ghost all = crate::ast::params(ps@);
        let mut out = none();
        let mut i: usize = 0;
        proof {
            assert(all.take(0) =~= Seq::empty());
        }
        while i < ps.len()
            invariant
                i <= ps@.len(),
                all == crate::ast::params(ps@),
                out@ == params_sites(self@, all.take(i as int)),
            decreases ps@.len() - i,
        {
            proof {
                assert(all.take(i + 1).drop_last() =~= all.take(i as int));
                assert(all.take(i + 1).last() == ps@[i as int]@);
            }
            out = plus(out, self.written_type(&ps[i].ty));
            i += 1;
        }
        proof {
            assert(all.take(all.len() as int) =~= all);
        }
        out
    }

    fn item(&self, i: usize, item: &Item) -> (r: Vec<Span>)
        ensures
            r@ == item_sites(self@, i as int, item@),
    {
        let mut out = none();
        // The decl site itself: `(file, item)` is the target's unique
        // identity in the workspace.
        if self.target.raw < self.scope.defs.len() {
            let d = &self.scope.defs[self.target.raw];
            assert(self@.scope.defs[self.target.raw as int] == d@);
            if d.file == self.file && d.item == i {
                out.push(item.name().span);
            }
        }
        proof {
            let decl = if declares(self@, i as int) {
                seq![crate::ast::item_name(item@).span]
            } else {
                Seq::empty()
            };
            assert(out@ =~= decl);
        }
        match item {
            Item::Data(d) => {
                out = plus(out, self.fields(&d.fields));
                plus(out, self.variants(&d.variants))
            },
            Item::Fn(f) => {
                out = plus(out, self.params(&f.params));
                if let Some(t) = &f.ret {
                    out = plus(out, self.written_type(t));
                }
                plus(out, self.block(&f.body))
            },
        }
    }

    fn items(&self, items: &Vec<Item>) -> (r: Vec<Span>)
        ensures
            r@ == items_sites(self@, crate::ast::items(items@)),
    {
        let ghost all = crate::ast::items(items@);
        let mut out = none();
        let mut i: usize = 0;
        proof {
            assert(all.take(0) =~= Seq::empty());
        }
        while i < items.len()
            invariant
                i <= items@.len(),
                all == crate::ast::items(items@),
                out@ == items_sites(self@, all.take(i as int)),
            decreases items@.len() - i,
        {
            proof {
                assert(all.take(i + 1).drop_last() =~= all.take(i as int));
                assert(all.take(i + 1).last() == items@[i as int]@);
            }
            out = plus(out, self.item(i, &items[i]));
            i += 1;
        }
        proof {
            assert(all.take(all.len() as int) =~= all);
        }
        out
    }
}

/// Collects every site in `file`'s AST that resolves to `target`.
pub fn scan_file(
    file: FileId,
    ast: &AstModule,
    scope: &ModuleScope,
    interner: &Interner,
    target: DefId,
) -> (r: Vec<Span>)
    ensures
        r@ == file_sites(file, ast@, scope@, interner@, target),
{
    match scope.env(file) {
        None => none(),
        Some(env) => {
            let (sites, unaliased) = scan_uses(scope, interner, &ast.uses, target);
            let scan = Scan { file, env, scope, interner, target, unaliased };
            plus(sites, scan.items(&ast.items))
        },
    }
}

} // verus!
