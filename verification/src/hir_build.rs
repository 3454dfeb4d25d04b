//! From one parsed file to its HIR module: names are resolved, then
//! every function body is lowered, then diagnostics are collected in
//! file-absolute coordinates.

use crate::ast::{item_span, AstModule, AstModuleV, FnDeclV, Item, ItemV};
use crate::diagnostic::{rebase_step, rebased_of, DiagnosticV, Diagnostics};
use crate::hir::{bodies_view, HirBody, HirBodyV, HirModule, HirModuleV, ModuleScope, ModuleScopeV};
use crate::hir_lower::{lower_body, lowered};
use crate::rebase::{map_item, rebase_item, rel_by};
use crate::resolve::{
    all_items, law_resolved_scope, res_start, resolve_module, resolved, scope_of, single,
};
use crate::source::{DefId, FileId, Interner};
use vstd::prelude::*;

verus! {

/// What lowering the bodies of a module leaves behind.
#[verifier::ext_equal]
pub struct LoweredV {
    pub bodies: Seq<Option<HirBodyV>>,
    pub names: Seq<Seq<char>>,
    pub diags: Seq<DiagnosticV>,
}

/// The item-relative copy of a function item.
pub open spec fn relative_fn(item: ItemV) -> FnDeclV {
    map_item(item, rel_by(item_span(item).start))->Fn_0
}

/// The bodies of the items `its`: slot `i` holds the body of item `i`
/// when that is a function.
pub open spec fn bodies_of(
    its: Seq<ItemV>,
    scope: ModuleScopeV,
    names: Seq<Seq<char>>,
    diags: Seq<DiagnosticV>,
    stamp: Option<FileId>,
) -> LoweredV
    decreases its.len(),
{
    if its.len() == 0 {
        LoweredV { bodies: Seq::new(scope.defs.len(), |i: int| None), names, diags }
    } else {
        let done = bodies_of(its.drop_last(), scope, names, diags, stamp);
        let idx = its.len() - 1;
        match its.last() {
            ItemV::Data(_) => done,
            ItemV::Fn(_) => {
                let (body, n, d) = lowered(
                    relative_fn(its.last()),
                    DefId { raw: idx as usize },
                    scope,
                    done.names,
                    done.diags,
                    stamp,
                );
                LoweredV { bodies: done.bodies.update(idx, Some(body)), names: n, diags: d }
            },
        }
    }
}

/// Lowers all function bodies in `ast` against the resolved `scope`,
/// producing the complete [`HirModule`].
///
/// Each body is lowered independently by [`lower_body`] into its own
/// expression and local-symbol arenas — an edit to one function can
/// never renumber another's ids.
pub fn lower_bodies(
    ast: &AstModule,
    scope: ModuleScope,
    interner: &mut Interner,
    diags: &mut Diagnostics,
) -> (r: HirModule)
    requires
        ast@.items.len() <= scope@.defs.len(),
    ensures
        ({
            let out = bodies_of(
                ast@.items,
                scope@,
                old(interner)@,
                old(diags)@,
                old(diags).stamp(),
            );
            &&& r@ == (HirModuleV { scope: scope@, bodies: out.bodies })
            &&& final(interner)@ == out.names
            &&& final(diags)@ == out.diags
            &&& final(diags).stamp() == old(diags).stamp()
        }),
{
    let ghost all = ast@.items;
    let ghost names = interner@;
    let ghost ds = diags@;
    let ghost stamp = diags.stamp();
    let n: usize = scope.defs.len();
    let mut bodies: Vec<Option<HirBody>> = Vec::new();
    let mut k: usize = 0;
    while k < n
        invariant
            k <= n,
            bodies@.len() == k,
            forall|i: int| 0 <= i < k ==> (#[trigger] bodies@[i]) is None,
        decreases n - k,
    {
        bodies.push(None);
        k += 1;
    }
    let mut i: usize = 0;
    proof {
        assert(all.take(0) =~= Seq::empty());
        assert(bodies_view(bodies@) =~= Seq::new(scope@.defs.len(), |i: int| None));
    }
    while i < ast.items.len()
        invariant
            i <= ast.items@.len(),
            ast.items@.len() <= n,
            n == bodies@.len(),
            n == scope@.defs.len(),
            all == ast@.items,
            (LoweredV { bodies: bodies_view(bodies@), names: interner@, diags: diags@ })
                == bodies_of(all.take(i as int), scope@, names, ds, stamp),
            diags.stamp() == stamp,
        decreases ast.items@.len() - i,
    {
        proof {
            assert(all.take(i + 1).drop_last() =~= all.take(i as int));
            assert(all.take(i + 1).last() == ast.items@[i as int]@);
        }
        if let Item::Fn(f) = &ast.items[i] {
            // Lower from the item-relative copy: scope spans and body
            // spans share the item-local coordinate space.
            if let Item::Fn(rel) = rebase_item(&ast.items[i], f.span.start) {
                let ghost before = bodies_view(bodies@);
                let body = lower_body(&rel, DefId { raw: i }, &scope, interner, diags);
                let ghost bv = body@;
                bodies.set(i, Some(body));
                proof {
                    assert(bodies_view(bodies@) =~= before.update(i as int, Some(bv)));
                }
            }
        }
        i += 1;
    }
    proof {
        assert(all.take(all.len() as int) =~= all);
    }
    HirModule { scope, bodies }
}

/// The absolute start of the item that a definition comes from.
pub open spec fn base_of(scope: ModuleScopeV, its: Seq<ItemV>, def: DefId) -> u32 {
    if def.raw < scope.defs.len() && scope.defs[def.raw as int].item < its.len() {
        item_span(its[scope.defs[def.raw as int].item as int]).start
    } else {
        0
    }
}

/// A diagnostic in file-absolute coordinates: one that carries an origin
/// is shifted by the start of that definition's item and loses the tag.
pub open spec fn collected(d: DiagnosticV, scope: ModuleScopeV, its: Seq<ItemV>) -> DiagnosticV {
    match d.origin {
        Some(def) => rebased_of(d, base_of(scope, its, def)),
        None => d,
    }
}

/// The whole-module result of [`lower_hir`]: the module, the interned
/// names, and all diagnostics.
pub open spec fn hir_of(
    ast: AstModuleV,
    names: Seq<Seq<char>>,
    diags: Seq<DiagnosticV>,
    stamp: Option<FileId>,
) -> (HirModuleV, Seq<Seq<char>>, Seq<DiagnosticV>) {
    let st = resolved(res_start(names, diags, stamp), single(ast));
    let scope = scope_of(st, FileId { raw: 0 }, single(ast));
    let out = bodies_of(ast.items, scope, st.names, st.diags, None);
    (
        HirModuleV { scope, bodies: out.bodies },
        out.names,
        Seq::new(out.diags.len(), |i: int| collected(out.diags[i], scope, ast.items)),
    )
}

/// Whether every tag of a list of diagnostics is one of `n` definitions.
pub open spec fn tags_below(ds: Seq<DiagnosticV>, n: int) -> bool {
    forall|i: int|
        0 <= i < ds.len() ==> ((#[trigger] ds[i]).origin is None || ds[i].origin->0.raw < n)
}

proof fn lemma_single_items(ast: AstModuleV)
    ensures
        all_items(single(ast)) == ast.items,
{
    let fs = single(ast);
    assert(fs.drop_last() =~= Seq::empty());
    reveal_with_fuel(all_items, 2);
    assert(all_items(fs) =~= ast.items);
}

/// Lowers a parsed file to a fully resolved [`HirModule`], appending
/// name-resolution diagnostics to `diags`.
///
/// Per-definition passes emit item-relative diagnostics tagged with
/// their owning def; this whole-module path rebases them to
/// file-absolute before returning.
pub fn lower_hir(ast: &AstModule, interner: &mut Interner, diags: &mut Diagnostics) -> (r: HirModule)
    requires
        tags_below(old(diags)@, ast@.items.len() as int),
    ensures
        (r@, final(interner)@, final(diags)@) == hir_of(
            ast@,
            old(interner)@,
            old(diags)@,
            old(diags).stamp(),
        ),
        final(diags).stamp() is None,
{
    let n: usize = ast.items.len();
    proof {
        lemma_single_items(ast@);
        law_resolved_scope(interner@, diags@, diags.stamp(), single(ast@));
    }
    let scope = resolve_module(ast, interner, diags);
    let module = lower_bodies(ast, scope, interner, diags);
    let ghost before = diags@;
    let ghost sv = module.scope@;
    let ghost its = ast@.items;
    let start = |d: DefId| -> (b: u32)
        ensures
            b == base_of(module.scope@, ast@.items, d),
        {
            // `Def.item` locates the owning item — its absolute start is
            // the rebase base for that def's tagged diagnostics.
            if d.raw < module.scope.defs.len() && module.scope.defs[d.raw].item < ast.items.len() {
                ast.items[module.scope.defs[d.raw].item].span().start
            } else {
                0
            }
        };
    diags.rebase_tagged(start);
    proof {
        assert(diags@ =~= Seq::new(before.len(), |i: int| collected(before[i], sv, its))) by {
            assert forall|i: int| 0 <= i < before.len() implies diags@[i] == collected(
                before[i],
                sv,
                its,
            ) by {
                assert(rebase_step(start, before[i], diags@[i]));
            }
        }
    }
    module
}

/// No diagnostic that leaves the whole-module path is item-relative.
pub proof fn law_collected_untagged(
    ast: AstModuleV,
    names: Seq<Seq<char>>,
    diags: Seq<DiagnosticV>,
    stamp: Option<FileId>,
)
    ensures
        forall|i: int|
            0 <= i < hir_of(ast, names, diags, stamp).2.len() ==> (#[trigger] hir_of(
                ast,
                names,
                diags,
                stamp,
            ).2[i]).origin is None,
{
}

/// Every function item of a file gets a body, in the slot of its own
/// definition.
pub proof fn law_every_function_has_a_body(
    its: Seq<ItemV>,
    scope: ModuleScopeV,
    names: Seq<Seq<char>>,
    diags: Seq<DiagnosticV>,
    stamp: Option<FileId>,
)
    requires
        its.len() <= scope.defs.len() <= usize::MAX,
    ensures
        ({
            let out = bodies_of(its, scope, names, diags, stamp);
            &&& out.bodies.len() == scope.defs.len()
            &&& forall|i: int|
                0 <= i < its.len() ==> (match its[i] {
                    ItemV::Fn(_) => (#[trigger] out.bodies[i]) is Some && out.bodies[i]->0.def.raw
                        == i,
                    ItemV::Data(_) => out.bodies[i] is None,
                })
            &&& forall|i: int|
                its.len() <= i < scope.defs.len() ==> (#[trigger] out.bodies[i]) is None
        }),
    decreases its.len(),
{
    if its.len() > 0 {
        law_every_function_has_a_body(its.drop_last(), scope, names, diags, stamp);
        let done = bodies_of(its.drop_last(), scope, names, diags, stamp);
        let out = bodies_of(its, scope, names, diags, stamp);
        assert forall|i: int| 0 <= i < its.len() implies (match its[i] {
            ItemV::Fn(_) => (#[trigger] out.bodies[i]) is Some && out.bodies[i]->0.def.raw == i,
            ItemV::Data(_) => out.bodies[i] is None,
        }) by {
            if i < its.len() - 1 {
                assert(its.drop_last()[i] == its[i]);
                assert(out.bodies[i] == done.bodies[i]);
            }
        }
    }
}

} // verus!
