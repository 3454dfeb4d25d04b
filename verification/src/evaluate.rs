//! What each query demands, and the evaluations that need nothing but
//! plain values.

use crate::ast::{item_name, item_span, items, AstModule, AstModuleV, Item, ItemV};
use crate::hir::{def_intern, def_key_of, sig_of, DefKey, ModuleScope, ModuleScopeV};
use crate::query::QueryKey;
use crate::rebase::{map_item, rebase_item, rel_by};
use crate::source::{DefId, FileId};
use crate::text::same;
use vstd::prelude::*;

verus! {

// ---------- one item ----------

/// The first item of a module with a name.
pub open spec fn item_named(its: Seq<ItemV>, name: Seq<char>) -> Option<ItemV>
    decreases its.len(),
{
    if its.len() == 0 {
        None
    } else {
        match item_named(its.drop_last(), name) {
            Some(i) => Some(i),
            None => if item_name(its.last()).name == name {
                Some(its.last())
            } else {
                None
            },
        }
    }
}

proof fn lemma_item_stable(its: Seq<ItemV>, name: Seq<char>, n: int)
    requires
        0 <= n <= its.len(),
        item_named(its.take(n), name) is Some,
    ensures
        item_named(its, name) == item_named(its.take(n), name),
    decreases its.len() - n,
{
    if n < its.len() {
        assert(its.take(n + 1).drop_last() =~= its.take(n));
        lemma_item_stable(its, name, n + 1);
    } else {
        assert(its.take(n) =~= its);
    }
}

/// One item of a module by name, in item coordinates: an edit that only
/// shifts the item recomputes an equal value.
pub open spec fn relative_item(m: AstModuleV, name: Seq<char>) -> Option<ItemV> {
    match item_named(m.items, name) {
        Some(i) => Some(map_item(i, rel_by(item_span(i).start))),
        None => None,
    }
}

/// One item of a module by name, in item coordinates.
pub fn ast_item(module: &AstModule, name: &str) -> (r: Option<Item>)
    ensures
        match r {
            Some(i) => relative_item(module@, name@) == Some(i@),
            None => relative_item(module@, name@) is None,
        },
{
    let ghost all = module@.items;
    let mut i: usize = 0;
    proof {
        assert(all.take(0) =~= Seq::empty());
    }
    while i < module.items.len()
        invariant
            i <= module.items@.len(),
            all == items(module.items@),
            all == module@.items,
            item_named(all.take(i as int), name@) is None,
        decreases module.items@.len() - i,
    {
        proof {
            assert(all.take(i + 1).drop_last() =~= all.take(i as int));
            assert(all.take(i + 1).last() == module.items@[i as int]@);
        }
        let item = &module.items[i];
        if same(item.name().name.as_str(), name) {
            proof {
                lemma_item_stable(all, name@, i + 1);
            }
            return Some(rebase_item(item, item.span().start));
        }
        i += 1;
    }
    proof {
        assert(all.take(all.len() as int) =~= all);
    }
    None
}

// ---------- demands ----------

/// What is demanded per function of a scope.
#[derive(Clone, Copy, Debug, PartialEq, Eq, Structural)]
pub enum PerFn {
    /// Its checked body.
    Types,
    /// Its lowered body, then its checked body.
    HirThenTypes,
    /// Its MIR.
    Mir,
}

/// What is demanded for one function.
pub open spec fn fn_demands(what: PerFn, k: DefKey) -> Seq<QueryKey> {
    match what {
        PerFn::Types => seq![QueryKey::BodyTypes(k)],
        PerFn::HirThenTypes => seq![QueryKey::HirBody(k), QueryKey::BodyTypes(k)],
        PerFn::Mir => seq![QueryKey::MirBody(k)],
    }
}

/// What is demanded for the functions among the first `n` definitions,
/// in declaration order.
pub open spec fn fns_demands(s: ModuleScopeV, what: PerFn, n: int) -> Seq<QueryKey>
    decreases n,
{
    if n <= 0 {
        Seq::empty()
    } else {
        let front = fns_demands(s, what, n - 1);
        let id = DefId { raw: (n - 1) as usize };
        if sig_of(s, id) is Some && def_intern(s, id) is Some {
            front + fn_demands(what, def_key_of(s, id))
        } else {
            front
        }
    }
}

/// The ASTs of every file of a scope.
pub open spec fn ast_demands(files: Seq<FileId>) -> Seq<QueryKey> {
    Seq::new(files.len(), |i: int| QueryKey::Ast(files[i]))
}

/// The files that declare the definitions among the first `n`, each once.
pub open spec fn declaring_files(s: ModuleScopeV, n: int) -> Seq<FileId>
    decreases n,
{
    if n <= 0 {
        Seq::empty()
    } else {
        let front = declaring_files(s, n - 1);
        let f = s.defs[n - 1].file;
        if front.contains(f) {
            front
        } else {
            front.push(f)
        }
    }
}

/// What the evaluation of a query demands behind its scope, in order,
/// when the definition it is about exists. `root` is the root of the
/// workspace the query's file is seen from.
pub open spec fn demands_of(k: QueryKey, s: ModuleScopeV, root: FileId) -> Seq<QueryKey> {
    let n = s.defs.len() as int;
    match k {
        QueryKey::Source(_) => Seq::empty(),
        QueryKey::Parse(f) => seq![QueryKey::Source(f)],
        QueryKey::Ast(f) => seq![QueryKey::Parse(f)],
        QueryKey::Scope(_) => ast_demands(s.files),
        QueryKey::AstItem(d) => seq![QueryKey::Ast(d.file)],
        QueryKey::HirBody(d) => seq![QueryKey::AstItem(d)],
        QueryKey::BodyTypes(d) => seq![QueryKey::HirBody(d)],
        QueryKey::Ownership(_) => fns_demands(s, PerFn::HirThenTypes, n),
        QueryKey::MirBody(d) => seq![QueryKey::BodyTypes(d), QueryKey::Ownership(root)],
        QueryKey::Graph(_) => fns_demands(s, PerFn::Types, n) + seq![QueryKey::Ownership(root)]
            + ast_demands(declaring_files(s, n)),
        QueryKey::Diagnostics(_) => ast_demands(s.files) + fns_demands(s, PerFn::Types, n) + seq![
            QueryKey::Ownership(root),
        ],
        QueryKey::Compile(f) => ast_demands(s.files) + fns_demands(s, PerFn::Types, n) + seq![
            QueryKey::Ownership(root),
            QueryKey::Graph(root),
        ] + fns_demands(s, PerFn::Mir, n) + seq![QueryKey::Diagnostics(f)],
    }
}

fn push_fn_demands(s: &ModuleScope, what: PerFn, out: &mut Vec<QueryKey>)
    ensures
        final(out)@ == old(out)@ + fns_demands(s@, what, s@.defs.len() as int),
{
    let ghost start = out@;
    let n: usize = s.defs.len();
    let mut i: usize = 0;
    proof {
        assert(s@.defs.len() == n);
        assert(out@ =~= start + fns_demands(s@, what, 0));
    }
    while i < n
        invariant
            i <= n,
            n == s@.defs.len(),
            out@ == start + fns_demands(s@, what, i as int),
        decreases n - i,
    {
        let id = DefId { raw: i };
        let ghost before = out@;
        if s.fn_sig(id).is_some() && s.def_name(id).is_some() {
            let k = s.def_key(id);
            match what {
                PerFn::Types => {
                    out.push(QueryKey::BodyTypes(k));
                },
                PerFn::HirThenTypes => {
                    out.push(QueryKey::HirBody(k));
                    out.push(QueryKey::BodyTypes(k));
                },
                PerFn::Mir => {
                    out.push(QueryKey::MirBody(k));
                },
            }
            proof {
                assert(out@ =~= before + fn_demands(what, k));
                assert(before + fn_demands(what, k) =~= start + (fns_demands(s@, what, i as int)
                    + fn_demands(what, k)));
            }
        }
        i += 1;
    }
}

fn push_asts(files: &Vec<FileId>, out: &mut Vec<QueryKey>)
    ensures
        final(out)@ == old(out)@ + ast_demands(files@),
{
    let ghost start = out@;
    let ghost all = ast_demands(files@);
    let mut i: usize = 0;
    proof {
        assert(out@ =~= start + all.take(0));
    }
    while i < files.len()
        invariant
            i <= files@.len(),
            all == ast_demands(files@),
            out@ == start + all.take(i as int),
        decreases files@.len() - i,
    {
        out.push(QueryKey::Ast(files[i]));
        i += 1;
        proof {
            assert(out@ =~= start + all.take(i as int));
        }
    }
    proof {
        assert(all.take(all.len() as int) =~= all);
    }
}

fn contains_file(v: &Vec<FileId>, f: FileId) -> (r: bool)
    ensures
        r == v@.contains(f),
{
    let mut i: usize = 0;
    while i < v.len()
        invariant
            i <= v@.len(),
            forall|j: int| 0 <= j < i ==> v@[j] != f,
        decreases v@.len() - i,
    {
        if v[i] == f {
            return true;
        }
        i += 1;
    }
    false
}

fn def_files(s: &ModuleScope) -> (r: Vec<FileId>)
    ensures
        r@ == declaring_files(s@, s@.defs.len() as int),
{
    let mut out: Vec<FileId> = Vec::new();
    let n: usize = s.defs.len();
    let mut i: usize = 0;
    proof {
        assert(s@.defs.len() == n);
        assert(out@ =~= Seq::empty());
    }
    while i < n
        invariant
            i <= n,
            n == s@.defs.len(),
            n == s.defs@.len(),
            out@ == declaring_files(s@, i as int),
        decreases n - i,
    {
        let f = s.defs[i].file;
        assert(s@.defs[i as int] == s.defs@[i as int]@);
        if !contains_file(&out, f) {
            out.push(f);
        }
        i += 1;
    }
    out
}

/// What the evaluation of a query demands behind its scope, in order.
pub fn demands(k: QueryKey, s: &ModuleScope, root: FileId) -> (r: Vec<QueryKey>)
    ensures
        r@ == demands_of(k, s@, root),
{
    let mut out: Vec<QueryKey> = Vec::new();
    proof {
        assert(out@ =~= Seq::empty());
    }
    match k {
        QueryKey::Source(_) => {},
        QueryKey::Parse(f) => {
            out.push(QueryKey::Source(f));
        },
        QueryKey::Ast(f) => {
            out.push(QueryKey::Parse(f));
        },
        QueryKey::Scope(_) => {
            push_asts(&s.files, &mut out);
        },
        QueryKey::AstItem(d) => {
            out.push(QueryKey::Ast(d.file));
        },
        QueryKey::HirBody(d) => {
            out.push(QueryKey::AstItem(d));
        },
        QueryKey::BodyTypes(d) => {
            out.push(QueryKey::HirBody(d));
        },
        QueryKey::Ownership(_) => {
            push_fn_demands(s, PerFn::HirThenTypes, &mut out);
        },
        QueryKey::MirBody(d) => {
            out.push(QueryKey::BodyTypes(d));
            out.push(QueryKey::Ownership(root));
        },
        QueryKey::Graph(_) => {
            push_fn_demands(s, PerFn::Types, &mut out);
            out.push(QueryKey::Ownership(root));
            let files = def_files(s);
            push_asts(&files, &mut out);
        },
        QueryKey::Diagnostics(_) => {
            push_asts(&s.files, &mut out);
            push_fn_demands(s, PerFn::Types, &mut out);
            out.push(QueryKey::Ownership(root));
        },
        QueryKey::Compile(f) => {
            push_asts(&s.files, &mut out);
            push_fn_demands(s, PerFn::Types, &mut out);
            out.push(QueryKey::Ownership(root));
            out.push(QueryKey::Graph(root));
            push_fn_demands(s, PerFn::Mir, &mut out);
            out.push(QueryKey::Diagnostics(f));
        },
    }
    proof {
        assert(out@ =~= demands_of(k, s@, root));
    }
    out
}

/// Whether a query builds something only a run needs.
pub open spec fn is_backend(k: QueryKey) -> bool {
    k is Graph || k is MirBody || k is Compile
}

/// Whether a list of queries builds nothing that only a run needs.
pub open spec fn front_only(ks: Seq<QueryKey>) -> bool {
    forall|i: int| 0 <= i < ks.len() ==> !is_backend(#[trigger] ks[i])
}

proof fn lemma_fns_front(s: ModuleScopeV, what: PerFn, n: int)
    requires
        what != PerFn::Mir,
    ensures
        front_only(fns_demands(s, what, n)),
    decreases n,
{
    if n > 0 {
        lemma_fns_front(s, what, n - 1);
    }
}

/// A check never pays for a build: no query it takes, directly or
/// through others, is the graph, MIR or the assembled bundle.
pub proof fn law_check_builds_nothing(k: QueryKey, s: ModuleScopeV, root: FileId)
    requires
        !is_backend(k),
    ensures
        front_only(demands_of(k, s, root)),
{
    lemma_fns_front(s, PerFn::Types, s.defs.len() as int);
    lemma_fns_front(s, PerFn::HirThenTypes, s.defs.len() as int);
}

/// Editing one function demands nothing of another: the chain from an
/// item to its checked body names that item only.
pub proof fn law_body_demands_itself(d: DefKey, s: ModuleScopeV, root: FileId)
    ensures
        demands_of(QueryKey::BodyTypes(d), s, root) == seq![QueryKey::HirBody(d)],
        demands_of(QueryKey::HirBody(d), s, root) == seq![QueryKey::AstItem(d)],
        demands_of(QueryKey::AstItem(d), s, root) == seq![QueryKey::Ast(d.file)],
{
}

} // verus!
