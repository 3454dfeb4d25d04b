//! Resolving a symbol as it is written on a command line — `x` or
//! `m::x` — to a definition of the workspace.

use crate::code::Code;
use crate::diagnostic::{error_of, Diagnostic, DiagnosticV};
use crate::fxmap::entry;
use crate::hir::{env_of, file_name_of, ModuleScope, ModuleScopeV};
use crate::hir_lower::{either, member_of};
use crate::seam::{split_once, split_path};
use crate::source::{lookup, name_of, DefId, FileId, InternId, Interner, Span};
use crate::text::{cat3, cat7, dec, decimal};
use vstd::prelude::*;

verus! {

/// A file's own member of a name: a function, then a `data`.
pub open spec fn own_member(s: ModuleScopeV, file: FileId, id: InternId) -> Option<usize> {
    match env_of(s, file) {
        Some(e) => member_of(e, id),
        None => None,
    }
}

/// A file's own member of a name: a function, then a `data`.
pub fn find_own(scope: &ModuleScope, file: FileId, id: InternId) -> (r: Option<usize>)
    ensures
        r == own_member(scope@, file, id),
{
    match scope.env(file) {
        Some(e) => match e.fns.get(id.raw) {
            Some(d) => Some(d),
            None => e.datas.get(id.raw),
        },
        None => None,
    }
}

/// What a file imports under a name.
pub open spec fn imported(s: ModuleScopeV, file: FileId, id: InternId) -> Option<usize> {
    match env_of(s, file) {
        Some(e) => entry(e.imports, id.raw),
        None => None,
    }
}

/// What a file imports under a name.
pub fn find_import(scope: &ModuleScope, file: FileId, id: InternId) -> (r: Option<usize>)
    ensures
        r == imported(scope@, file, id),
{
    match scope.env(file) {
        Some(e) => e.imports.get(id.raw),
        None => None,
    }
}

/// The first of the files that provides the module named `id`.
pub open spec fn provider(s: ModuleScopeV, files: Seq<FileId>, id: InternId) -> Option<FileId>
    decreases files.len(),
{
    if files.len() == 0 {
        None
    } else {
        match provider(s, files.drop_last(), id) {
            Some(f) => Some(f),
            None => if file_name_of(s, files.last()) == Some(id) {
                Some(files.last())
            } else {
                None
            },
        }
    }
}

/// The file that provides the module `name`.
pub open spec fn module_file_spec(s: ModuleScopeV, names: Seq<Seq<char>>, name: Seq<char>) -> Option<
    FileId,
> {
    match lookup(names, name) {
        Some(id) => provider(s, s.files, id),
        None => None,
    }
}

proof fn lemma_provider_stable(s: ModuleScopeV, files: Seq<FileId>, n: int, id: InternId)
    requires
        0 <= n <= files.len(),
        provider(s, files.take(n), id) is Some,
    ensures
        provider(s, files, id) == provider(s, files.take(n), id),
    decreases files.len() - n,
{
    if n < files.len() {
        assert(files.take(n + 1).drop_last() =~= files.take(n));
        lemma_provider_stable(s, files, n + 1, id);
    } else {
        assert(files.take(n) =~= files);
    }
}

fn find_provider(scope: &ModuleScope, id: InternId) -> (r: Option<FileId>)
    ensures
        r == provider(scope@, scope@.files, id),
{
    let ghost files = scope@.files;
    let mut i: usize = 0;
    proof {
        assert(files.take(0) =~= Seq::empty());
    }
    while i < scope.files.len()
        invariant
            i <= scope.files@.len(),
            files == scope.files@,
            files == scope@.files,
            provider(scope@, files.take(i as int), id) is None,
        decreases scope.files@.len() - i,
    {
        let f = scope.files[i];
        proof {
            assert(files.take(i + 1).drop_last() =~= files.take(i as int));
            assert(files.take(i + 1).last() == f);
        }
        if let Some(n) = scope.file_name(f) {
            if n == id {
                proof {
                    lemma_provider_stable(scope@, files, i + 1, id);
                }
                return Some(f);
            }
        }
        i += 1;
    }
    proof {
        assert(files.take(files.len() as int) =~= files);
    }
    None
}

/// The file providing module `name` in this workspace — the same
/// resolution `use` declarations use (file stems).
pub fn module_file_of(scope: &ModuleScope, interner: &Interner, name: &str) -> (r: Option<FileId>)
    ensures
        r == module_file_spec(scope@, interner@, name@),
{
    match interner.get(name) {
        Some(id) => find_provider(scope, id),
        None => None,
    }
}

/// The name of the module that a file provides, or `?`.
pub open spec fn module_text(s: ModuleScopeV, names: Seq<Seq<char>>, file: FileId) -> Seq<char> {
    match file_name_of(s, file) {
        Some(n) => name_of(names, n),
        None => "?"@,
    }
}

/// The name of the module that a file provides, or `?`.
pub fn module_name_of<'a>(scope: &ModuleScope, interner: &'a Interner, file: FileId) -> (r: &'a str)
    ensures
        r@ == module_text(scope@, interner@, file),
{
    match scope.file_name(file) {
        Some(n) => interner.name_or_unknown(n),
        None => "?",
    }
}

/// Whether some file of the workspace calls definition `d` its own `id`.
pub open spec fn named_by_some(s: ModuleScopeV, id: InternId, d: int) -> bool {
    exists|i: int| 0 <= i < s.files.len() && own_member(s, #[trigger] s.files[i], id) == Some(
        d as usize,
    )
}

/// The definitions below `n` that some file calls its own `id`, in
/// order.
pub open spec fn candidates(s: ModuleScopeV, id: InternId, n: int) -> Seq<DefId>
    decreases n,
{
    if n <= 0 {
        Seq::empty()
    } else if named_by_some(s, id, n - 1) {
        candidates(s, id, n - 1).push(DefId { raw: (n - 1) as usize })
    } else {
        candidates(s, id, n - 1)
    }
}

fn is_named(scope: &ModuleScope, id: InternId, d: usize) -> (r: bool)
    ensures
        r == named_by_some(scope@, id, d as int),
{
    let mut i: usize = 0;
    while i < scope.files.len()
        invariant
            i <= scope.files@.len(),
            forall|j: int|
                0 <= j < i ==> own_member(scope@, #[trigger] scope@.files[j], id) != Some(d),
        decreases scope.files@.len() - i,
    {
        let f = scope.files[i];
        assert(f == scope@.files[i as int]);
        if let Some(x) = find_own(scope, f, id) {
            if x == d {
                return true;
            }
        }
        i += 1;
    }
    false
}

pub(crate) fn find_candidates(scope: &ModuleScope, id: InternId) -> (r: Vec<DefId>)
    ensures
        r@ == candidates(scope@, id, scope@.defs.len() as int),
{
    let n: usize = scope.defs.len();
    let mut out: Vec<DefId> = Vec::new();
    let mut d: usize = 0;
    proof {
        assert(out@ =~= Seq::empty());
    }
    while d < n
        invariant
            d <= n,
            n == scope@.defs.len(),
            out@ == candidates(scope@, id, d as int),
        decreases n - d,
    {
        if is_named(scope, id, d) {
            out.push(DefId { raw: d });
        }
        d += 1;
    }
    out
}

/// Nothing bears the name.
pub open spec fn no_symbol(symbol: Seq<char>) -> DiagnosticV {
    error_of(Code::UnknownSymbol, "no symbol named `"@ + symbol + "`"@).with_subject(symbol)
}

fn err_no_symbol(symbol: &str) -> (r: Diagnostic)
    ensures
        r@ == no_symbol(symbol@),
{
    Diagnostic::error(Code::UnknownSymbol, cat3("no symbol named `", symbol, "`")).subject(
        symbol.to_string(),
    )
}

/// The module a definition lives in.
pub open spec fn def_module(s: ModuleScopeV, names: Seq<Seq<char>>, d: DefId) -> Seq<char> {
    if d.raw < s.defs.len() {
        module_text(s, names, s.defs[d.raw as int].file)
    } else {
        "?"@
    }
}

/// A diagnostic with one label per candidate.
pub open spec fn with_candidates(
    d: DiagnosticV,
    s: ModuleScopeV,
    names: Seq<Seq<char>>,
    symbol: Seq<char>,
    found: Seq<DefId>,
) -> DiagnosticV
    decreases found.len(),
{
    if found.len() == 0 {
        d
    } else {
        with_candidates(d, s, names, symbol, found.drop_last()).with_label(
            Span { start: 0, end: 0 },
            def_module(s, names, found.last()) + "::"@ + symbol,
        )
    }
}

/// Several definitions bear the name.
pub open spec fn ambiguous_symbol(
    s: ModuleScopeV,
    names: Seq<Seq<char>>,
    symbol: Seq<char>,
    found: Seq<DefId>,
) -> DiagnosticV {
    with_candidates(
        error_of(
            Code::AmbiguousSymbol,
            "`"@ + symbol + "` is ambiguous: "@ + dec(found.len()) + " candidates — qualify as `m::"@
                + symbol + "`"@,
        ).with_subject(symbol),
        s,
        names,
        symbol,
        found,
    )
}

fn err_ambiguous(scope: &ModuleScope, interner: &Interner, symbol: &str, found: &Vec<DefId>) -> (r:
    Diagnostic)
    ensures
        r@ == ambiguous_symbol(scope@, interner@, symbol@, found@),
{
    let count = decimal(found.len() as u64);
    let mut d = Diagnostic::error(
        Code::AmbiguousSymbol,
        cat7(
            "`",
            symbol,
            "` is ambiguous: ",
            count.as_str(),
            " candidates — qualify as `m::",
            symbol,
            "`",
        ),
    ).subject(symbol.to_string());
    let ghost d0 = d@;
    let mut i: usize = 0;
    proof {
        assert(found@.take(0) =~= Seq::empty());
    }
    while i < found.len()
        invariant
            i <= found@.len(),
            d@ == with_candidates(d0, scope@, interner@, symbol@, found@.take(i as int)),
        decreases found@.len() - i,
    {
        proof {
            assert(found@.take(i + 1).drop_last() =~= found@.take(i as int));
        }
        let at = found[i];
        let module = if at.raw < scope.defs.len() {
            module_name_of(scope, interner, scope.defs[at.raw].file)
        } else {
            "?"
        };
        d = d.label(Span::new(0, 0), cat3(module, "::", symbol));
        i += 1;
    }
    proof {
        assert(found@.take(found@.len() as int) =~= found@);
    }
    d
}

/// The definition a symbol stands for, or why it stands for none.
/// `m::x` selects module `m`'s own member `x`; a bare `x` resolves
/// through the root file's env (own defs, then imports), falling back
/// to a workspace-wide def search that reports ambiguity.
pub open spec fn target_of(
    s: ModuleScopeV,
    names: Seq<Seq<char>>,
    root: FileId,
    symbol: Seq<char>,
) -> Result<DefId, DiagnosticV> {
    match split_path(symbol) {
        Some((m, member)) => match (module_file_spec(s, names, m), lookup(names, member)) {
            (Some(file), Some(id)) => match own_member(s, file, id) {
                Some(d) => Ok(DefId { raw: d }),
                None => Err(no_symbol(symbol)),
            },
            _ => Err(no_symbol(symbol)),
        },
        None => match lookup(names, symbol) {
            None => Err(no_symbol(symbol)),
            Some(id) => match either(own_member(s, root, id), imported(s, root, id)) {
                Some(d) => Ok(DefId { raw: d }),
                None => {
                    let found = candidates(s, id, s.defs.len() as int);
                    if found.len() == 1 {
                        Ok(found[0])
                    } else if found.len() == 0 {
                        Err(no_symbol(symbol))
                    } else {
                        Err(ambiguous_symbol(s, names, symbol, found))
                    }
                },
            },
        },
    }
}

/// A diagnostic result.
pub open spec fn diag_result(r: Result<DefId, Diagnostic>) -> Result<DefId, DiagnosticV> {
    match r {
        Ok(d) => Ok(d),
        Err(e) => Err(e@),
    }
}

/// Resolves a rename or patch target through the workspace scope.
pub fn resolve_target_diag(scope: &ModuleScope, interner: &Interner, root: FileId, symbol: &str) -> (r:
    Result<DefId, Diagnostic>)
    ensures
        diag_result(r) == target_of(scope@, interner@, root, symbol@),
{
    if let Some((m, member)) = split_once(symbol) {
        if let Some(file) = module_file_of(scope, interner, m) {
            if let Some(id) = interner.get(member) {
                if let Some(d) = find_own(scope, file, id) {
                    return Ok(DefId { raw: d });
                }
            }
        }
        return Err(err_no_symbol(symbol));
    }
    match interner.get(symbol) {
        None => Err(err_no_symbol(symbol)),
        Some(id) => {
            if let Some(d) = find_own(scope, root, id) {
                return Ok(DefId { raw: d });
            }
            if let Some(d) = find_import(scope, root, id) {
                return Ok(DefId { raw: d });
            }
            // Workspace-wide fallback: a bare name may be a def in a
            // module the root does not import (or several — ambiguous).
            let found = find_candidates(scope, id);
            if found.len() == 1 {
                Ok(found[0])
            } else if found.len() == 0 {
                Err(err_no_symbol(symbol))
            } else {
                Err(err_ambiguous(scope, interner, symbol, &found))
            }
        },
    }
}

/// Whether every one of `v` is a definition below `n` that some file
/// calls its own `id`.
spec fn all_named(s: ModuleScopeV, id: InternId, v: Seq<DefId>, n: int) -> bool {
    forall|i: int|
        0 <= i < v.len() ==> (#[trigger] v[i]).raw < n && named_by_some(s, id, v[i].raw as int)
}

proof fn lemma_candidates(s: ModuleScopeV, id: InternId, n: int)
    requires
        n <= usize::MAX + 1,
    ensures
        all_named(s, id, candidates(s, id, n), n),
    decreases n,
{
    if n > 0 {
        lemma_candidates(s, id, n - 1);
        let before = candidates(s, id, n - 1);
        let v = candidates(s, id, n);
        assert forall|i: int| 0 <= i < v.len() implies (#[trigger] v[i]).raw < n && named_by_some(
            s,
            id,
            v[i].raw as int,
        ) by {
            if i < before.len() {
                assert(v[i] == before[i]);
            }
        }
    }
}

/// A symbol resolves only to a definition that some environment names:
/// resolution never fabricates one.
pub proof fn law_target_is_named(
    s: ModuleScopeV,
    names: Seq<Seq<char>>,
    root: FileId,
    symbol: Seq<char>,
)
    requires
        s.defs.len() <= usize::MAX,
        target_of(s, names, root, symbol) is Ok,
    ensures
        exists|file: FileId, id: InternId|
            {
                let d = target_of(s, names, root, symbol)->Ok_0.raw;
                ||| #[trigger] own_member(s, file, id) == Some(d)
                ||| imported(s, file, id) == Some(d)
            },
{
    let d = target_of(s, names, root, symbol)->Ok_0.raw;
    match split_path(symbol) {
        Some((m, member)) => {
            let file = module_file_spec(s, names, m)->0;
            let id = lookup(names, member)->0;
            assert(own_member(s, file, id) == Some(d));
        },
        None => {
            let id = lookup(names, symbol)->0;
            match either(own_member(s, root, id), imported(s, root, id)) {
                Some(_) => {
                    assert(own_member(s, root, id) == Some(d) || imported(s, root, id) == Some(d));
                },
                None => {
                    lemma_candidates(s, id, s.defs.len() as int);
                    assert(candidates(s, id, s.defs.len() as int)[0].raw == d);
                    assert(named_by_some(s, id, d as int));
                    let i = choose|i: int|
                        0 <= i < s.files.len() && own_member(s, #[trigger] s.files[i], id) == Some(d);
                    assert(own_member(s, s.files[i], id) == Some(d));
                },
            }
        },
    }
}

} // verus!
