//! Whether two resolved scopes are the same: what a query that reads a
//! scope need not be evaluated again for.

use crate::hir::{
    defs_view, envs_view, variant_defs, DataShape, Def, DefKind, FieldDef, FileEnv, FnSig,
    ModuleScope, ParamDef, Symbol, TypeRef, VariantDef,
};
use crate::source::FileId;
use vstd::prelude::*;

verus! {

fn same_symbols(a: &Vec<Symbol>, b: &Vec<Symbol>) -> (r: bool)
    ensures
        r == (a@ == b@),
{
    if a.len() != b.len() {
        return false;
    }
    let mut i: usize = 0;
    while i < a.len()
        invariant
            i <= a@.len(),
            a@.len() == b@.len(),
            forall|k: int| 0 <= k < i ==> a@[k] == b@[k],
        decreases a@.len() - i,
    {
        if a[i] != b[i] {
            return false;
        }
        i += 1;
    }
    assert(a@ =~= b@);
    true
}

fn same_params(a: &Vec<ParamDef>, b: &Vec<ParamDef>) -> (r: bool)
    ensures
        r == (a@ == b@),
{
    if a.len() != b.len() {
        return false;
    }
    let mut i: usize = 0;
    while i < a.len()
        invariant
            i <= a@.len(),
            a@.len() == b@.len(),
            forall|k: int| 0 <= k < i ==> a@[k] == b@[k],
        decreases a@.len() - i,
    {
        if a[i] != b[i] {
            return false;
        }
        i += 1;
    }
    assert(a@ =~= b@);
    true
}

fn same_fields(a: &Vec<FieldDef>, b: &Vec<FieldDef>) -> (r: bool)
    ensures
        r == (a@ == b@),
{
    if a.len() != b.len() {
        return false;
    }
    let mut i: usize = 0;
    while i < a.len()
        invariant
            i <= a@.len(),
            a@.len() == b@.len(),
            forall|k: int| 0 <= k < i ==> a@[k] == b@[k],
        decreases a@.len() - i,
    {
        if a[i] != b[i] {
            return false;
        }
        i += 1;
    }
    assert(a@ =~= b@);
    true
}

fn same_types(a: &Vec<TypeRef>, b: &Vec<TypeRef>) -> (r: bool)
    ensures
        r == (a@ == b@),
{
    if a.len() != b.len() {
        return false;
    }
    let mut i: usize = 0;
    while i < a.len()
        invariant
            i <= a@.len(),
            a@.len() == b@.len(),
            forall|k: int| 0 <= k < i ==> a@[k] == b@[k],
        decreases a@.len() - i,
    {
        if a[i] != b[i] {
            return false;
        }
        i += 1;
    }
    assert(a@ =~= b@);
    true
}

fn same_files(a: &Vec<FileId>, b: &Vec<FileId>) -> (r: bool)
    ensures
        r == (a@ == b@),
{
    if a.len() != b.len() {
        return false;
    }
    let mut i: usize = 0;
    while i < a.len()
        invariant
            i <= a@.len(),
            a@.len() == b@.len(),
            forall|k: int| 0 <= k < i ==> a@[k] == b@[k],
        decreases a@.len() - i,
    {
        if a[i] != b[i] {
            return false;
        }
        i += 1;
    }
    assert(a@ =~= b@);
    true
}

fn same_variant(a: &VariantDef, b: &VariantDef) -> (r: bool)
    ensures
        r == (a@ == b@),
{
    a.symbol == b.symbol && a.index == b.index && same_types(&a.payload, &b.payload)
}

fn same_variants(a: &Vec<VariantDef>, b: &Vec<VariantDef>) -> (r: bool)
    ensures
        r == (variant_defs(a@) == variant_defs(b@)),
{
    proof {
        assert(variant_defs(a@).len() == a@.len());
        assert(variant_defs(b@).len() == b@.len());
    }
    if a.len() != b.len() {
        return false;
    }
    let mut i: usize = 0;
    while i < a.len()
        invariant
            i <= a@.len(),
            a@.len() == b@.len(),
            forall|k: int| 0 <= k < i ==> variant_defs(a@)[k] == variant_defs(b@)[k],
        decreases a@.len() - i,
    {
        proof {
            assert(variant_defs(a@)[i as int] == a@[i as int]@);
            assert(variant_defs(b@)[i as int] == b@[i as int]@);
        }
        if !same_variant(&a[i], &b[i]) {
            return false;
        }
        i += 1;
    }
    assert(variant_defs(a@) =~= variant_defs(b@));
    true
}

fn same_sig(a: &FnSig, b: &FnSig) -> (r: bool)
    ensures
        r == (a@ == b@),
{
    a.ret == b.ret && same_params(&a.params, &b.params)
}

fn same_shape(a: &DataShape, b: &DataShape) -> (r: bool)
    ensures
        r == (a@ == b@),
{
    same_fields(&a.fields, &b.fields) && a.field_index.same(&b.field_index) && same_variants(
        &a.variants,
        &b.variants,
    ) && a.variant_index.same(&b.variant_index)
}

fn same_def(a: &Def, b: &Def) -> (r: bool)
    ensures
        r == (a@ == b@),
{
    let kinds = match (&a.kind, &b.kind) {
        (DefKind::Function(x), DefKind::Function(y)) => same_sig(x, y),
        (DefKind::Data(x), DefKind::Data(y)) => same_shape(x, y),
        _ => false,
    };
    kinds && a.id == b.id && a.file == b.file && a.item == b.item && a.name == b.name && a.span
        == b.span
}

fn same_defs(a: &Vec<Def>, b: &Vec<Def>) -> (r: bool)
    ensures
        r == (defs_view(a@) == defs_view(b@)),
{
    proof {
        assert(defs_view(a@).len() == a@.len());
        assert(defs_view(b@).len() == b@.len());
    }
    if a.len() != b.len() {
        return false;
    }
    let mut i: usize = 0;
    while i < a.len()
        invariant
            i <= a@.len(),
            a@.len() == b@.len(),
            forall|k: int| 0 <= k < i ==> defs_view(a@)[k] == defs_view(b@)[k],
        decreases a@.len() - i,
    {
        proof {
            assert(defs_view(a@)[i as int] == a@[i as int]@);
            assert(defs_view(b@)[i as int] == b@[i as int]@);
        }
        if !same_def(&a[i], &b[i]) {
            return false;
        }
        i += 1;
    }
    assert(defs_view(a@) =~= defs_view(b@));
    true
}

fn same_env(a: &FileEnv, b: &FileEnv) -> (r: bool)
    ensures
        r == (a@ == b@),
{
    a.fns.same(&b.fns) && a.datas.same(&b.datas) && a.modules.same(&b.modules) && a.imports.same(
        &b.imports,
    )
}

fn same_envs(a: &Vec<FileEnv>, b: &Vec<FileEnv>) -> (r: bool)
    ensures
        r == (envs_view(a@) == envs_view(b@)),
{
    proof {
        assert(envs_view(a@).len() == a@.len());
        assert(envs_view(b@).len() == b@.len());
    }
    if a.len() != b.len() {
        return false;
    }
    let mut i: usize = 0;
    while i < a.len()
        invariant
            i <= a@.len(),
            a@.len() == b@.len(),
            forall|k: int| 0 <= k < i ==> envs_view(a@)[k] == envs_view(b@)[k],
        decreases a@.len() - i,
    {
        proof {
            assert(envs_view(a@)[i as int] == a@[i as int]@);
            assert(envs_view(b@)[i as int] == b@[i as int]@);
        }
        if !same_env(&a[i], &b[i]) {
            return false;
        }
        i += 1;
    }
    assert(envs_view(a@) =~= envs_view(b@));
    true
}

impl ModuleScope {
    /// Whether two scopes are the same, down to the last span.
    pub fn same(&self, other: &ModuleScope) -> (r: bool)
        ensures
            r == (self@ == other@),
    {
        self.root == other.root && same_defs(&self.defs, &other.defs) && same_symbols(
            self.symbols.iter(),
            other.symbols.iter(),
        ) && same_envs(&self.envs, &other.envs) && self.env_index.same(&other.env_index)
            && same_files(&self.files, &other.files) && self.file_names.same(&other.file_names)
    }
}

} // verus!
