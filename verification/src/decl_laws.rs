//! How declarations, statements and arms are read: one for one, in the
//! order in which they stand, each part from the child in its place.

use crate::ast::{FieldV, ItemV, ParamV, TypeExprV, VariantV};
use crate::ast_body::block_of;
use crate::ast_laws::{count, lemma_count_grows, lemma_find_none, lemma_find_only, reads_block};
use crate::ast_lower::{
    data_decl_of, field_of, fields_in, first_name, name_of, names_in, param_of, params_in, path_of,
    type_in, type_of, type_ref, types_in, use_decl_of, variant_of, variants_in,
};
use crate::ast_module::{decls_in, fn_decl_of, module_of};
use crate::diagnostic::DiagnosticV;
use crate::syntax::{
    find, first, has_token, node_at, token_at, wanted, ElemV, NodeV, SyntaxKind, Want,
};
use vstd::prelude::*;

verus! {

/// The node at `i` is the first of its kind among the children.
pub open spec fn first_of(es: Seq<ElemV>, w: Want, i: int) -> bool {
    &&& 0 <= i < es.len()
    &&& wanted(es, w, i)
    &&& forall|m: int| 0 <= m < i ==> !#[trigger] wanted(es, w, m)
}

/// No child is of a kind.
pub open spec fn none_of(es: Seq<ElemV>, w: Want) -> bool {
    forall|m: int| 0 <= m < es.len() ==> !#[trigger] wanted(es, w, m)
}

/// One of the children is a token of a kind.
pub open spec fn holds_token(es: Seq<ElemV>, k: SyntaxKind) -> bool {
    exists|m: int|
        0 <= m < es.len() && (#[trigger] token_at(es, m)) is Some && token_at(es, m)->0.kind == k
}

proof fn lemma_first(es: Seq<ElemV>, w: Want, i: int)
    ensures
        first_of(es, w, i) ==> first(es, w) == node_at(es, i) && find(es, w, 0) == i,
        none_of(es, w) ==> first(es, w) is None && find(es, w, 0) == es.len(),
{
    if first_of(es, w, i) {
        lemma_find_only(es, w, 0, i);
    }
    if none_of(es, w) {
        lemma_find_none(es, w, 0);
    }
}

// ---------- paths, types ----------

proof fn lemma_names(es: Seq<ElemV>, w: Want, k: int)
    requires
        0 <= k <= es.len(),
    ensures
        names_in(es, w, k).len() == count(es, w, k),
        forall|m: int|
            0 <= m < k && #[trigger] wanted(es, w, m) ==> names_in(es, w, k)[count(es, w, m) as int]
                == name_of(node_at(es, m)->0),
    decreases k,
{
    if k > 0 {
        lemma_names(es, w, k - 1);
        let front = names_in(es, w, k - 1);
        let now = names_in(es, w, k);
        let here = wanted(es, w, k - 1);
        assert forall|m: int| 0 <= m < k && #[trigger] wanted(es, w, m) implies now[count(
            es,
            w,
            m,
        ) as int] == name_of(node_at(es, m)->0) by {
            if m < k - 1 {
                lemma_count_grows(es, w, m, k - 1);
                assert(now[count(es, w, m) as int] == front[count(es, w, m) as int]);
            }
        }
    }
}

/// A path has one segment for each name of its node, in order, and spans
/// from the first to the last of them.
pub proof fn law_path_read(n: NodeV, m: int)
    ensures
        ({
            let p = path_of(n);
            let w = Want::AnyName;
            &&& p.segs.len() == count(n.children, w, n.children.len() as int)
            &&& 0 <= m < n.children.len() && wanted(n.children, w, m) ==> p.segs[count(
                n.children,
                w,
                m,
            ) as int] == name_of(node_at(n.children, m)->0)
            &&& p.segs.len() > 0 ==> p.span.start == p.segs[0].span.start && p.span.end
                == p.segs[p.segs.len() - 1].span.end
            &&& p.segs.len() == 0 ==> p.span == n.span
        }),
{
    lemma_names(n.children, Want::AnyName, n.children.len() as int);
}

/// A type around another type is the array of it; any other is a path.
pub proof fn law_type_read(n: NodeV, i: int)
    ensures
        first_of(n.children, Want::Kind(SyntaxKind::TypeRef), i) ==> type_of(n) == (
        TypeExprV::Array { elem: Box::new(type_of(node_at(n.children, i)->0)), span: n.span }),
        none_of(n.children, Want::Kind(SyntaxKind::TypeRef)) ==> type_of(n) == (
        TypeExprV::Named { path: path_of(n) }),
{
    let w = Want::Kind(SyntaxKind::TypeRef);
    lemma_first(n.children, w, i);
    if first_of(n.children, w, i) {
        assert(type_in(n.children, i) == Some(type_of(node_at(n.children, i)->0)));
    }
    if none_of(n.children, w) {
        assert(type_in(n.children, n.children.len() as int) is None);
    }
}

proof fn lemma_types(es: Seq<ElemV>, k: int)
    requires
        0 <= k <= es.len(),
    ensures
        types_in(es, k).len() == count(es, Want::Kind(SyntaxKind::TypeRef), k),
        forall|m: int|
            0 <= m < k && #[trigger] wanted(es, Want::Kind(SyntaxKind::TypeRef), m) ==> types_in(
                es,
                k,
            )[count(es, Want::Kind(SyntaxKind::TypeRef), m) as int] == type_of(node_at(es, m)->0),
    decreases k,
{
    if k > 0 {
        let w = Want::Kind(SyntaxKind::TypeRef);
        lemma_types(es, k - 1);
        let front = types_in(es, k - 1);
        let now = types_in(es, k);
        let here = wanted(es, w, k - 1);
        assert forall|m: int| 0 <= m < k && #[trigger] wanted(es, w, m) implies now[count(
            es,
            w,
            m,
        ) as int] == type_of(node_at(es, m)->0) by {
            if m < k - 1 {
                lemma_count_grows(es, w, m, k - 1);
                assert(now[count(es, w, m) as int] == front[count(es, w, m) as int]);
            }
        }
    }
}

/// A `use` reads its path from the names it refers to, in order, and its
/// alias from the name it declares, if it declares one.
pub proof fn law_use_read(n: NodeV, m: int, a: int)
    ensures
        ({
            let u = use_decl_of(n);
            let w = Want::Kind(SyntaxKind::NameRef);
            &&& u.path.segs.len() == count(n.children, w, n.children.len() as int)
            &&& 0 <= m < n.children.len() && wanted(n.children, w, m) ==> u.path.segs[count(
                n.children,
                w,
                m,
            ) as int] == name_of(node_at(n.children, m)->0)
            &&& first_of(n.children, Want::Kind(SyntaxKind::Name), a) ==> u.alias == Some(
                name_of(node_at(n.children, a)->0),
            )
            &&& none_of(n.children, Want::Kind(SyntaxKind::Name)) ==> u.alias is None
            &&& u.span.end == n.span.end
        }),
{
    lemma_names(n.children, Want::Kind(SyntaxKind::NameRef), n.children.len() as int);
    lemma_first(n.children, Want::Kind(SyntaxKind::Name), a);
}

// ---------- data ----------

/// A field is read from its node: its name from the first name, its type
/// from the first type.
pub open spec fn reads_field(f: FieldV, c: NodeV) -> bool {
    &&& f.span == c.span
    &&& forall|i: int| #[trigger]
        first_of(c.children, Want::AnyName, i) ==> f.name == name_of(node_at(c.children, i)->0)
    &&& forall|i: int| #[trigger]
        first_of(c.children, Want::Kind(SyntaxKind::TypeRef), i) ==> f.ty == type_of(
            node_at(c.children, i)->0,
        )
}

/// A parameter is read from its node: its name from the first name, its
/// type from the first type, and that it is mutable from the keyword.
pub open spec fn reads_param(p: ParamV, c: NodeV) -> bool {
    &&& p.span == c.span
    &&& p.mutable <==> holds_token(c.children, SyntaxKind::MutKw)
    &&& forall|i: int| #[trigger]
        first_of(c.children, Want::AnyName, i) ==> p.name == name_of(node_at(c.children, i)->0)
    &&& forall|i: int| #[trigger]
        first_of(c.children, Want::Kind(SyntaxKind::TypeRef), i) ==> p.ty == type_of(
            node_at(c.children, i)->0,
        )
}

/// A variant is read from its node: its name from the first name, its
/// payload from the types, one for one and in order.
pub open spec fn reads_variant(v: VariantV, c: NodeV) -> bool {
    &&& v.span == c.span
    &&& forall|i: int| #[trigger]
        first_of(c.children, Want::AnyName, i) ==> v.name == name_of(node_at(c.children, i)->0)
    &&& v.payload.len() == count(
        c.children,
        Want::Kind(SyntaxKind::TypeRef),
        c.children.len() as int,
    )
    &&& forall|m: int|
        0 <= m < c.children.len() && #[trigger] wanted(
            c.children,
            Want::Kind(SyntaxKind::TypeRef),
            m,
        ) ==> v.payload[count(c.children, Want::Kind(SyntaxKind::TypeRef), m) as int] == type_of(
            node_at(c.children, m)->0,
        )
}

proof fn lemma_first_name(c: NodeV)
    ensures
        forall|i: int| #[trigger]
            first_of(c.children, Want::AnyName, i) ==> first_name(c) == name_of(
                node_at(c.children, i)->0,
            ),
{
    assert forall|i: int| #[trigger] first_of(c.children, Want::AnyName, i) implies first_name(c)
        == name_of(node_at(c.children, i)->0) by {
        lemma_first(c.children, Want::AnyName, i);
    }
}

proof fn lemma_type_ref(c: NodeV)
    ensures
        forall|i: int| #[trigger]
            first_of(c.children, Want::Kind(SyntaxKind::TypeRef), i) ==> type_ref(c) == Some(
                type_of(node_at(c.children, i)->0),
            ),
        none_of(c.children, Want::Kind(SyntaxKind::TypeRef)) ==> type_ref(c) is None,
{
    let w = Want::Kind(SyntaxKind::TypeRef);
    assert forall|i: int| #[trigger] first_of(c.children, w, i) implies type_ref(c) == Some(
        type_of(node_at(c.children, i)->0),
    ) by {
        lemma_first(c.children, w, i);
    }
    lemma_first(c.children, w, 0);
}

proof fn lemma_field(c: NodeV)
    requires
        exists|i: int| first_of(c.children, Want::Kind(SyntaxKind::TypeRef), i),
    ensures
        field_of(c) is Some,
        reads_field(field_of(c)->0, c),
{
    lemma_first_name(c);
    lemma_type_ref(c);
    let i = choose|i: int| first_of(c.children, Want::Kind(SyntaxKind::TypeRef), i);
    assert(first_of(c.children, Want::Kind(SyntaxKind::TypeRef), i));
}

proof fn lemma_has_token(es: Seq<ElemV>, k: SyntaxKind)
    ensures
        has_token(es, k) <==> holds_token(es, k),
{
    if has_token(es, k) {
        let i = choose|i: int|
            token_at(es, i) is Some && (#[trigger] token_at(es, i))->0.kind == k;
        assert(token_at(es, i) is Some);
    }
}

proof fn lemma_param(c: NodeV)
    requires
        exists|i: int| first_of(c.children, Want::Kind(SyntaxKind::TypeRef), i),
    ensures
        param_of(c) is Some,
        reads_param(param_of(c)->0, c),
{
    lemma_first_name(c);
    lemma_type_ref(c);
    lemma_has_token(c.children, SyntaxKind::MutKw);
    let i = choose|i: int| first_of(c.children, Want::Kind(SyntaxKind::TypeRef), i);
    assert(first_of(c.children, Want::Kind(SyntaxKind::TypeRef), i));
}

proof fn lemma_variant(c: NodeV)
    ensures
        reads_variant(variant_of(c), c),
{
    lemma_first_name(c);
    lemma_types(c.children, c.children.len() as int);
}

/// Each child of a kind has a type.
pub open spec fn all_typed(es: Seq<ElemV>, k: SyntaxKind) -> bool {
    forall|m: int|
        0 <= m < es.len() && #[trigger] wanted(es, Want::Kind(k), m) ==> exists|i: int|
            first_of(node_at(es, m)->0.children, Want::Kind(SyntaxKind::TypeRef), i)
}

proof fn lemma_fields(es: Seq<ElemV>, k: int)
    requires
        0 <= k <= es.len(),
        all_typed(es, SyntaxKind::Field),
    ensures
        fields_in(es, k).len() == count(es, Want::Kind(SyntaxKind::Field), k),
        forall|m: int|
            0 <= m < k && #[trigger] wanted(es, Want::Kind(SyntaxKind::Field), m) ==> reads_field(
                fields_in(es, k)[count(es, Want::Kind(SyntaxKind::Field), m) as int],
                node_at(es, m)->0,
            ),
    decreases k,
{
    if k > 0 {
        let w = Want::Kind(SyntaxKind::Field);
        lemma_fields(es, k - 1);
        let front = fields_in(es, k - 1);
        let now = fields_in(es, k);
        if wanted(es, w, k - 1) {
            lemma_field(node_at(es, k - 1)->0);
        }
        assert forall|m: int| 0 <= m < k && #[trigger] wanted(es, w, m) implies reads_field(
            now[count(es, w, m) as int],
            node_at(es, m)->0,
        ) by {
            if m < k - 1 {
                lemma_count_grows(es, w, m, k - 1);
                assert(now[count(es, w, m) as int] == front[count(es, w, m) as int]);
            }
        }
    }
}

proof fn lemma_params(es: Seq<ElemV>, k: int)
    requires
        0 <= k <= es.len(),
        all_typed(es, SyntaxKind::Param),
    ensures
        params_in(es, k).len() == count(es, Want::Kind(SyntaxKind::Param), k),
        forall|m: int|
            0 <= m < k && #[trigger] wanted(es, Want::Kind(SyntaxKind::Param), m) ==> reads_param(
                params_in(es, k)[count(es, Want::Kind(SyntaxKind::Param), m) as int],
                node_at(es, m)->0,
            ),
    decreases k,
{
    if k > 0 {
        let w = Want::Kind(SyntaxKind::Param);
        lemma_params(es, k - 1);
        let front = params_in(es, k - 1);
        let now = params_in(es, k);
        if wanted(es, w, k - 1) {
            lemma_param(node_at(es, k - 1)->0);
        }
        assert forall|m: int| 0 <= m < k && #[trigger] wanted(es, w, m) implies reads_param(
            now[count(es, w, m) as int],
            node_at(es, m)->0,
        ) by {
            if m < k - 1 {
                lemma_count_grows(es, w, m, k - 1);
                assert(now[count(es, w, m) as int] == front[count(es, w, m) as int]);
            }
        }
    }
}

proof fn lemma_variants(es: Seq<ElemV>, k: int)
    requires
        0 <= k <= es.len(),
    ensures
        variants_in(es, k).len() == count(es, Want::Kind(SyntaxKind::Variant), k),
        forall|m: int|
            0 <= m < k && #[trigger] wanted(es, Want::Kind(SyntaxKind::Variant), m)
                ==> reads_variant(
                variants_in(es, k)[count(es, Want::Kind(SyntaxKind::Variant), m) as int],
                node_at(es, m)->0,
            ),
    decreases k,
{
    if k > 0 {
        let w = Want::Kind(SyntaxKind::Variant);
        lemma_variants(es, k - 1);
        let front = variants_in(es, k - 1);
        let now = variants_in(es, k);
        if wanted(es, w, k - 1) {
            lemma_variant(node_at(es, k - 1)->0);
        }
        assert forall|m: int| 0 <= m < k && #[trigger] wanted(es, w, m) implies reads_variant(
            now[count(es, w, m) as int],
            node_at(es, m)->0,
        ) by {
            if m < k - 1 {
                lemma_count_grows(es, w, m, k - 1);
                assert(now[count(es, w, m) as int] == front[count(es, w, m) as int]);
            }
        }
    }
}

/// A `data` is read with its name, and with its fields and its variants
/// one for one, in order.
pub proof fn law_data_read(n: NodeV, i: int, m: int)
    requires
        all_typed(n.children, SyntaxKind::Field),
    ensures
        ({
            let d = data_decl_of(n);
            let f = Want::Kind(SyntaxKind::Field);
            let v = Want::Kind(SyntaxKind::Variant);
            &&& first_of(n.children, Want::AnyName, i) ==> d.name == name_of(
                node_at(n.children, i)->0,
            )
            &&& d.fields.len() == count(n.children, f, n.children.len() as int)
            &&& d.variants.len() == count(n.children, v, n.children.len() as int)
            &&& 0 <= m < n.children.len() && wanted(n.children, f, m) ==> reads_field(
                d.fields[count(n.children, f, m) as int],
                node_at(n.children, m)->0,
            )
            &&& 0 <= m < n.children.len() && wanted(n.children, v, m) ==> reads_variant(
                d.variants[count(n.children, v, m) as int],
                node_at(n.children, m)->0,
            )
            &&& d.span.end == n.span.end
        }),
{
    lemma_first_name(n);
    lemma_fields(n.children, n.children.len() as int);
    lemma_variants(n.children, n.children.len() as int);
}

// ---------- functions ----------

/// A function is read with its name, with the parameters of its list one
/// for one and in order, with the type behind its arrow where there is
/// one, and with its block.
pub proof fn law_fn_read(n: NodeV, i: int, l: int, r: int, b: int, m: int, ds: Seq<DiagnosticV>)
    requires
        first_of(n.children, Want::Kind(SyntaxKind::ParamList), l),
        all_typed(node_at(n.children, l)->0.children, SyntaxKind::Param),
        first_of(n.children, Want::Kind(SyntaxKind::Block), b),
    ensures
        ({
            let f = fn_decl_of(n, ds).1;
            let list = node_at(n.children, l)->0.children;
            let w = Want::Kind(SyntaxKind::Param);
            &&& first_of(n.children, Want::AnyName, i) ==> f.name == name_of(
                node_at(n.children, i)->0,
            )
            &&& f.params.len() == count(list, w, list.len() as int)
            &&& 0 <= m < list.len() && wanted(list, w, m) ==> reads_param(
                f.params[count(list, w, m) as int],
                node_at(list, m)->0,
            )
            &&& none_of(n.children, Want::Kind(SyntaxKind::RetType)) ==> f.ret is None
            &&& first_of(n.children, Want::Kind(SyntaxKind::RetType), r) ==> forall|t: int|
                #[trigger]
                first_of(
                    node_at(n.children, r)->0.children,
                    Want::Kind(SyntaxKind::TypeRef),
                    t,
                ) ==> f.ret == Some(type_of(node_at(node_at(n.children, r)->0.children, t)->0))
            &&& reads_block(f.body, node_at(n.children, b)->0)
            &&& f.span.end == n.span.end
        }),
{
    lemma_first_name(n);
    lemma_first(n.children, Want::Kind(SyntaxKind::ParamList), l);
    lemma_first(n.children, Want::Kind(SyntaxKind::RetType), r);
    lemma_first(n.children, Want::Kind(SyntaxKind::Block), b);
    let list = node_at(n.children, l)->0.children;
    lemma_params(list, list.len() as int);
    if first_of(n.children, Want::Kind(SyntaxKind::RetType), r) {
        lemma_type_ref(node_at(n.children, r)->0);
    }
    let c = node_at(n.children, b)->0;
    assert(reads_block(block_of(c, ds).1, c));
}

// ---------- modules ----------

/// A kind of node that is read as an item.
pub open spec fn item_kind(k: SyntaxKind) -> bool {
    k == SyntaxKind::DataDecl || k == SyntaxKind::FnDecl
}

/// How many items stand in front of a position.
pub open spec fn items_before(es: Seq<ElemV>, m: int) -> nat {
    count(es, Want::Kind(SyntaxKind::DataDecl), m) + count(es, Want::Kind(SyntaxKind::FnDecl), m)
}

/// An item is what a node is read as.
pub open spec fn reads_item(item: ItemV, c: NodeV) -> bool {
    match c.kind {
        SyntaxKind::DataDecl => item == ItemV::Data(data_decl_of(c)),
        SyntaxKind::FnDecl => exists|ds: Seq<DiagnosticV>|
            item == ItemV::Fn((#[trigger] fn_decl_of(c, ds)).1),
        _ => false,
    }
}

proof fn lemma_decls(es: Seq<ElemV>, k: int, ds: Seq<DiagnosticV>)
    requires
        0 <= k <= es.len(),
    ensures
        ({
            let d = decls_in(es, k, ds).1;
            let u = Want::Kind(SyntaxKind::UseDecl);
            &&& d.uses.len() == count(es, u, k)
            &&& d.items.len() == items_before(es, k)
            &&& forall|m: int|
                0 <= m < k && #[trigger] wanted(es, u, m) ==> d.uses[count(es, u, m) as int]
                    == use_decl_of(node_at(es, m)->0)
            &&& forall|m: int|
                0 <= m < k && (#[trigger] node_at(es, m)) is Some && item_kind(node_at(es, m)->0.kind)
                    ==> reads_item(d.items[items_before(es, m) as int], node_at(es, m)->0)
        }),
    decreases k,
{
    if k > 0 {
        lemma_decls(es, k - 1, ds);
        let u = Want::Kind(SyntaxKind::UseDecl);
        let da = Want::Kind(SyntaxKind::DataDecl);
        let fu = Want::Kind(SyntaxKind::FnDecl);
        let (ds1, front) = decls_in(es, k - 1, ds);
        let now = decls_in(es, k, ds).1;
        let c = node_at(es, k - 1);
        let (a1, a2, a3) = (wanted(es, u, k - 1), wanted(es, da, k - 1), wanted(es, fu, k - 1));
        if a3 {
            let f = fn_decl_of(c->0, ds1).1;
            assert(reads_item(ItemV::Fn(f), c->0));
        }
        assert forall|m: int| 0 <= m < k && #[trigger] wanted(es, u, m) implies now.uses[count(
            es,
            u,
            m,
        ) as int] == use_decl_of(node_at(es, m)->0) by {
            if m < k - 1 {
                lemma_count_grows(es, u, m, k - 1);
                assert(now.uses[count(es, u, m) as int] == front.uses[count(es, u, m) as int]);
            }
        }
        assert forall|m: int|
            0 <= m < k && (#[trigger] node_at(es, m)) is Some && item_kind(
                node_at(es, m)->0.kind,
            ) implies reads_item(
            now.items[items_before(es, m) as int],
            node_at(es, m)->0,
        ) by {
            if m < k - 1 {
                lemma_count_grows(es, da, m, k - 1);
                lemma_count_grows(es, fu, m, k - 1);
                assert(wanted(es, da, m) || wanted(es, fu, m));
                assert(now.items[items_before(es, m) as int] == front.items[items_before(
                    es,
                    m,
                ) as int]);
            }
        }
    }
}

/// A module is read with its imports and with its items one for one, each
/// in the order in which they stand in the file.
pub proof fn law_module_read(n: NodeV, m: int)
    ensures
        ({
            let a = module_of(n);
            let u = Want::Kind(SyntaxKind::UseDecl);
            &&& a.uses.len() == count(n.children, u, n.children.len() as int)
            &&& a.items.len() == items_before(n.children, n.children.len() as int)
            &&& 0 <= m < n.children.len() && wanted(n.children, u, m) ==> a.uses[count(
                n.children,
                u,
                m,
            ) as int] == use_decl_of(node_at(n.children, m)->0)
            &&& 0 <= m < n.children.len() && node_at(n.children, m) is Some && item_kind(
                node_at(n.children, m)->0.kind,
            ) ==> reads_item(
                a.items[items_before(n.children, m) as int],
                node_at(n.children, m)->0,
            )
        }),
{
    lemma_decls(n.children, n.children.len() as int, Seq::empty());
}

} // verus!
