//! Lowering of a whole source file.

use crate::ast::{
    AstModule, AstModuleV, Block, FnDecl, FnDeclV, Item, ItemV, UseDecl, UseDeclV,
};
use crate::ast::{item_span, items, params, use_decls};
use crate::ast_body::{block_of, expr_of, no_block, Lowerer};
use crate::ast_lower::{
    data_decl, data_decl_of, decl_span, decl_span_of, first_name, fn_params, name_child, params_in,
    type_child, type_ref, use_decl, use_decl_of,
};
use crate::diagnostic::{diags, stamped, Diagnostic, DiagnosticV, Diagnostics};
use crate::source::{FileId, Span};
use crate::syntax::{
    elems, find, find_token, first, first_node, first_token, is_trivia, is_value_kind,
    lemma_children, node_at, node_ref, ElemV, NodeV, SyntaxKind, SyntaxNode, TokenV, Want,
};
use vstd::prelude::*;

verus! {

/// A function declaration, and the errors found up to its end.
pub open spec fn fn_decl_of(n: NodeV, ds: Seq<DiagnosticV>) -> (Seq<DiagnosticV>, FnDeclV) {
    let (ds1, body) = match first(n.children, Want::Kind(SyntaxKind::Block)) {
        Some(b) => block_of(b, ds),
        None => (ds, no_block(decl_span_of(n))),
    };
    (
        ds1,
        FnDeclV {
            name: first_name(n),
            params: match first(n.children, Want::Kind(SyntaxKind::ParamList)) {
                Some(list) => params_in(list.children, list.children.len() as int),
                None => Seq::empty(),
            },
            ret: match first(n.children, Want::Kind(SyntaxKind::RetType)) {
                Some(r) => type_ref(r),
                None => None,
            },
            body,
            span: decl_span_of(n),
        },
    )
}

/// An item, when the node is a declaration.
pub open spec fn item_of_node(n: NodeV, ds: Seq<DiagnosticV>) -> (
    Seq<DiagnosticV>,
    Option<ItemV>,
) {
    match n.kind {
        SyntaxKind::DataDecl => (ds, Some(ItemV::Data(data_decl_of(n)))),
        SyntaxKind::FnDecl => {
            let (ds1, f) = fn_decl_of(n, ds);
            (ds1, Some(ItemV::Fn(f)))
        },
        _ => (ds, None),
    }
}

/// What the first `k` elements of a source file declare.
#[verifier::ext_equal]
pub struct DeclsV {
    pub uses: Seq<UseDeclV>,
    pub items: Seq<ItemV>,
}

/// What the first `k` elements of a source file declare.
pub open spec fn decls_in(es: Seq<ElemV>, k: int, ds: Seq<DiagnosticV>) -> (
    Seq<DiagnosticV>,
    DeclsV,
)
    decreases k,
{
    if k <= 0 {
        (ds, DeclsV { uses: Seq::empty(), items: Seq::empty() })
    } else {
        let (ds1, d) = decls_in(es, k - 1, ds);
        match node_at(es, k - 1) {
            None => (ds1, d),
            Some(c) => if c.kind == SyntaxKind::UseDecl {
                (ds1, DeclsV { uses: d.uses.push(use_decl_of(c)), ..d })
            } else {
                let (ds2, item) = item_of_node(c, ds1);
                (
                    ds2,
                    match item {
                        Some(i) => DeclsV { items: d.items.push(i), ..d },
                        None => d,
                    },
                )
            },
        }
    }
}

/// The smaller of two positions.
pub open spec fn earlier(a: u32, b: u32) -> u32 {
    if a <= b {
        a
    } else {
        b
    }
}

/// The larger of two positions.
pub open spec fn later(a: u32, b: u32) -> u32 {
    if a >= b {
        a
    } else {
        b
    }
}

/// The span of a module covers its declarations, not the root's text
/// range: trailing trivia does not widen it.
pub open spec fn module_span(d: DeclsV) -> Span {
    if d.uses.len() == 0 && d.items.len() == 0 {
        Span { start: 0, end: 0 }
    } else if d.uses.len() == 0 {
        Span { start: item_span(d.items[0]).start, end: item_span(d.items.last()).end }
    } else if d.items.len() == 0 {
        Span { start: d.uses[0].span.start, end: d.uses.last().span.end }
    } else {
        Span {
            start: earlier(d.uses[0].span.start, item_span(d.items[0]).start),
            end: later(d.uses.last().span.end, item_span(d.items.last()).end),
        }
    }
}

/// The module a source file's root node lowers to.
pub open spec fn module_of(n: NodeV) -> AstModuleV {
    let d = decls_in(n.children, n.children.len() as int, Seq::empty()).1;
    AstModuleV { uses: d.uses, items: d.items, span: module_span(d) }
}

/// The structural errors of a source file.
pub open spec fn module_errors(n: NodeV) -> Seq<DiagnosticV> {
    decls_in(n.children, n.children.len() as int, Seq::empty()).0
}

/// Diagnostics as a collection stamps them.
pub open spec fn all_stamped(ds: Seq<DiagnosticV>, file: Option<FileId>) -> Seq<DiagnosticV> {
    Seq::new(ds.len(), |i: int| stamped(ds[i], file))
}

impl Lowerer {
    fn fn_decl(&mut self, n: &SyntaxNode) -> (r: FnDecl)
        ensures
            (final(self)@, r@) == fn_decl_of(n@, old(self)@),
    {
        proof {
            lemma_children(*n);
        }
        let name = name_child(n);
        let params = match first_node(&n.children, Want::Kind(SyntaxKind::ParamList)) {
            Some(list) => {
                proof {
                    lemma_children(*list);
                }
                fn_params(&list.children)
            },
            None => {
                let v = Vec::new();
                proof {
                    assert(params(v@) =~= Seq::empty());
                }
                v
            },
        };
        let ret = match first_node(&n.children, Want::Kind(SyntaxKind::RetType)) {
            Some(r) => type_child(r),
            None => None,
        };
        let span = decl_span(n);
        let body = match first_node(&n.children, Want::Kind(SyntaxKind::Block)) {
            Some(b) => self.block(b),
            None => {
                let b = Block { stmts: Vec::new(), tail: None, span };
                proof {
                    assert(b@.stmts =~= Seq::empty());
                }
                b
            },
        };
        FnDecl { name, params, ret, body, span }
    }

    fn item(&mut self, n: &SyntaxNode) -> (r: Option<Item>)
        ensures
            ({
                let (ds, item) = item_of_node(n@, old(self)@);
                &&& final(self)@ == ds
                &&& match r {
                    Some(x) => item == Some(x@),
                    None => item is None,
                }
            }),
    {
        match n.kind {
            SyntaxKind::DataDecl => Some(Item::Data(data_decl(n))),
            SyntaxKind::FnDecl => Some(Item::Fn(self.fn_decl(n))),
            _ => None,
        }
    }
}

fn span_of(uses: &Vec<UseDecl>, its: &Vec<Item>) -> (r: Span)
    ensures
        r == module_span(DeclsV { uses: use_decls(uses@), items: items(its@) }),
{
    let n: usize = uses.len();
    let m: usize = its.len();
    proof {
        assert(use_decls(uses@).len() == n);
        assert(items(its@).len() == m);
    }
    if n == 0 && m == 0 {
        return Span::empty(0);
    }
    if n == 0 {
        assert(items(its@).last() == its@[m - 1]@);
        return Span::new(its[0].span().start, its[m - 1].span().end);
    }
    assert(use_decls(uses@).last() == uses@[n - 1]@);
    if m == 0 {
        return Span::new(uses[0].span.start, uses[n - 1].span.end);
    }
    assert(items(its@).last() == its@[m - 1]@);
    let a = uses[0].span.start;
    let b = its[0].span().start;
    let c = uses[n - 1].span.end;
    let d = its[m - 1].span().end;
    Span::new(
        if a <= b {
            a
        } else {
            b
        },
        if c >= d {
            c
        } else {
            d
        },
    )
}

fn push_all(errs: Vec<Diagnostic>, out: &mut Diagnostics)
    ensures
        final(out)@ == old(out)@ + all_stamped(diags(errs@), old(out).stamp()),
        final(out).stamp() == old(out).stamp(),
{
    let ghost all = all_stamped(diags(errs@), out.stamp());
    let ghost start = out@;
    let mut i: usize = 0;
    proof {
        assert(out@ =~= start + all.take(0));
    }
    while i < errs.len()
        invariant
            i <= errs@.len(),
            out.stamp() == old(out).stamp(),
            all == all_stamped(diags(errs@), old(out).stamp()),
            out@ == start + all.take(i as int),
        decreases errs@.len() - i,
    {
        let ghost before = out@;
        out.push(errs[i].copy());
        proof {
            assert(out@ =~= before.push(all[i as int]));
            assert(before.push(all[i as int]) =~= start + all.take(i + 1));
        }
        i += 1;
    }
    proof {
        assert(all.take(all.len() as int) =~= all);
    }
}

/// Lowers a source file's root node into an [`AstModule`]. `out`
/// receives the structural diagnostics discovered during lowering.
pub fn lower_module(root: &SyntaxNode, out: &mut Diagnostics) -> (r: AstModule)
    ensures
        r@ == module_of(root@),
        final(out)@ == old(out)@ + all_stamped(module_errors(root@), old(out).stamp()),
        final(out).stamp() == old(out).stamp(),
{
    proof {
        lemma_children(*root);
    }
    let mut l = Lowerer { errs: Vec::new() };
    let es = &root.children;
    let mut uses: Vec<UseDecl> = Vec::new();
    let mut its: Vec<Item> = Vec::new();
    let mut i: usize = 0;
    proof {
        assert(l@ =~= Seq::empty());
        assert(use_decls(uses@) =~= Seq::empty());
        assert(items(its@) =~= Seq::empty());
    }
    while i < es.len()
        invariant
            i <= es@.len(),
            (l@, DeclsV { uses: use_decls(uses@), items: items(its@) }) == decls_in(
                elems(es@),
                i as int,
                Seq::empty(),
            ),
        decreases es@.len() - i,
    {
        if let Some(c) = node_ref(es, i) {
            if c.kind == SyntaxKind::UseDecl {
                let ghost before = use_decls(uses@);
                let u = use_decl(c);
                let ghost uv = u@;
                uses.push(u);
                proof {
                    assert(use_decls(uses@) =~= before.push(uv));
                }
            } else if let Some(x) = l.item(c) {
                let ghost before = items(its@);
                let ghost xv = x@;
                its.push(x);
                proof {
                    assert(items(its@) =~= before.push(xv));
                }
            }
        }
        i += 1;
    }
    let span = span_of(&uses, &its);
    push_all(l.errs, out);
    AstModule { uses, items: its, span }
}

// ---------- laws ----------

proof fn lemma_error_items(es: Seq<ElemV>, k: int, ds: Seq<DiagnosticV>)
    requires
        forall|i: int|
            0 <= i < k && #[trigger] node_at(es, i) is Some ==> node_at(es, i)->0.kind
                == SyntaxKind::Error,
    ensures
        decls_in(es, k, ds).0 == ds,
        decls_in(es, k, ds).1.uses.len() == 0,
        decls_in(es, k, ds).1.items.len() == 0,
    decreases k,
{
    if k > 0 {
        lemma_error_items(es, k - 1, ds);
        let _ = node_at(es, k - 1);
    }
}

/// Malformed regions are skipped in silence: the parser has reported
/// them. A file of nothing else lowers to the empty module.
pub proof fn law_error_nodes_skipped(n: NodeV)
    requires
        forall|i: int|
            #[trigger] node_at(n.children, i) is Some ==> node_at(n.children, i)->0.kind
                == SyntaxKind::Error,
    ensures
        module_errors(n).len() == 0,
        module_of(n).uses.len() == 0,
        module_of(n).items.len() == 0,
        module_of(n).span == (Span { start: 0, end: 0 }),
{
    lemma_error_items(n.children, n.children.len() as int, Seq::empty());
}

proof fn lemma_decls_prefix(es: Seq<ElemV>, x: ElemV, k: int, ds: Seq<DiagnosticV>)
    requires
        k <= es.len(),
    ensures
        decls_in(es.push(x), k, ds) == decls_in(es, k, ds),
    decreases k,
{
    if k > 0 {
        lemma_decls_prefix(es, x, k - 1, ds);
        assert(es.push(x)[k - 1] == es[k - 1]);
    }
}

/// A token behind the last declaration — a comment appended at the end
/// of the file — changes neither the module nor its errors, however
/// wide the root has become.
pub proof fn law_trailing_token_ignored(n: NodeV, t: TokenV, wider: Span)
    ensures
        ({
            let longer = NodeV {
                children: n.children.push(ElemV::Token(t)),
                span: wider,
                ..n
            };
            &&& module_of(longer) == module_of(n)
            &&& module_errors(longer) == module_errors(n)
        }),
{
    lemma_decls_prefix(n.children, ElemV::Token(t), n.children.len() as int, Seq::empty());
}

proof fn lemma_find_token_shift(es: Seq<ElemV>, x: ElemV, i: int)
    requires
        0 <= i,
    ensures
        find_token(seq![x] + es, i + 1) == find_token(es, i) + 1,
    decreases es.len() - i,
{
    let longer = seq![x] + es;
    if i < es.len() {
        assert(longer[i + 1] == es[i]);
        lemma_find_token_shift(es, x, i + 1);
    }
}

/// A comment or white space before a declaration, moved inside its
/// node, does not move the declaration's span.
pub proof fn law_leading_trivia_ignored(n: NodeV, t: TokenV, wider: Span)
    requires
        is_trivia(t.kind),
        first_token(n.children) is Some,
        wider.end == n.span.end,
    ensures
        decl_span_of(
            NodeV { children: seq![ElemV::Token(t)] + n.children, span: wider, ..n },
        ) == decl_span_of(n),
{
    let x = ElemV::Token(t);
    let longer = seq![x] + n.children;
    lemma_find_token_shift(n.children, x, 0);
    assert(longer[0] == x);
    assert(find_token(longer, 0) == find_token(longer, 1));
    let k = find_token(n.children, 0);
    assert(longer[k + 1] == n.children[k]);
}

/// Parentheses leave no trace: a parenthesised expression lowers to
/// what stands inside.
pub proof fn law_parentheses_removed(
    open: TokenV,
    inner: NodeV,
    close: TokenV,
    span: Span,
    ds: Seq<DiagnosticV>,
)
    requires
        is_value_kind(inner.kind),
    ensures
        expr_of(
            NodeV {
                kind: SyntaxKind::ParenExpr,
                children: seq![ElemV::Token(open), ElemV::Node(inner), ElemV::Token(close)],
                span,
            },
            ds,
        ) == expr_of(inner, ds),
{
    let es = seq![ElemV::Token(open), ElemV::Node(inner), ElemV::Token(close)];
    assert(es[0] == ElemV::Token(open));
    assert(es[1] == ElemV::Node(inner));
    assert(find(es, Want::Value, 0) == find(es, Want::Value, 1));
    assert(find(es, Want::Value, 1) == 1);
    reveal_with_fuel(expr_of, 2);
}

} // verus!
