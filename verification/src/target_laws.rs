//! What a symbol in a request stands for: a qualified name the member of
//! its module, a bare name what the root file knows by it, or else the
//! one definition of that name in the workspace.

use crate::code::Code;
use crate::diagnostic::DiagnosticV;
use crate::hir::{file_name_of, ModuleScopeV};
use crate::seam::{colons_at, split_path};
use crate::source::{lookup, DefId, FileId, InternId};
use crate::target::{
    candidates, imported, module_file_spec, named_by_some, own_member, provider, target_of,
};
use vstd::prelude::*;

verus! {

/// A text holds no `::`.
pub open spec fn unqualified(s: Seq<char>) -> bool {
    forall|i: int| 0 <= i && i + 1 < s.len() && #[trigger] s[i] == ':' ==> s[i + 1] != ':'
}

proof fn lemma_colons(s: Seq<char>, from: int, p: int)
    requires
        0 <= from <= p,
        p + 1 < s.len(),
        s[p] == ':' && s[p + 1] == ':',
        forall|i: int| 0 <= i < p && #[trigger] s[i] == ':' ==> s[i + 1] != ':',
    ensures
        colons_at(s, from) == Some(p),
    decreases p - from,
{
    if from < p {
        lemma_colons(s, from + 1, p);
    }
}

proof fn lemma_no_colons(s: Seq<char>, from: int)
    requires
        0 <= from,
        unqualified(s),
    ensures
        colons_at(s, from) is None,
    decreases s.len() - from,
{
    if from + 1 < s.len() {
        lemma_no_colons(s, from + 1);
    }
}

/// A symbol is split at its first `::`.
pub proof fn law_split_at_first_colons(m: Seq<char>, x: Seq<char>)
    requires
        unqualified(m),
        m.len() > 0 ==> m.last() != ':',
    ensures
        split_path(m + seq![':', ':'] + x) == Some((m, x)),
        unqualified(x) ==> split_path(x) is None,
{
    let s = m + seq![':', ':'] + x;
    let p = m.len() as int;
    assert(s[p] == ':' && s[p + 1] == ':');
    assert forall|i: int| 0 <= i < p && #[trigger] s[i] == ':' implies s[i + 1] != ':' by {
        assert(s[i] == m[i]);
        if i + 1 < p {
            assert(s[i + 1] == m[i + 1]);
        } else {
            assert(m.last() == m[i]);
        }
    }
    lemma_colons(s, 0, p);
    assert(s.take(p) =~= m);
    assert(s.skip(p + 2) =~= x);
    if unqualified(x) {
        lemma_no_colons(x, 0);
    }
}

/// A module is provided by the first of the workspace's files that bears
/// its name.
pub proof fn law_first_provider(s: ModuleScopeV, files: Seq<FileId>, id: InternId)
    ensures
        match provider(s, files, id) {
            Some(f) => exists|i: int|
                0 <= i < files.len() && #[trigger] files[i] == f && file_name_of(s, f) == Some(id)
                    && forall|j: int| 0 <= j < i ==> file_name_of(s, #[trigger] files[j]) != Some(
                    id,
                ),
            None => forall|i: int|
                0 <= i < files.len() ==> file_name_of(s, #[trigger] files[i]) != Some(id),
        },
    decreases files.len(),
{
    if files.len() > 0 {
        let front = files.drop_last();
        law_first_provider(s, front, id);
        match provider(s, front, id) {
            Some(f) => {
                let i = choose|i: int|
                    0 <= i < front.len() && #[trigger] front[i] == f && file_name_of(s, f) == Some(
                        id,
                    ) && forall|j: int|
                        0 <= j < i ==> file_name_of(s, #[trigger] front[j]) != Some(id);
                assert(files[i] == f);
                assert forall|j: int| 0 <= j < i implies file_name_of(s, #[trigger] files[j])
                    != Some(id) by {
                    assert(front[j] == files[j]);
                }
            },
            None => {
                assert forall|j: int| 0 <= j < front.len() implies file_name_of(
                    s,
                    #[trigger] files[j],
                ) != Some(id) by {
                    assert(front[j] == files[j]);
                }
                assert(files[files.len() - 1] == files.last());
            },
        }
    }
}

/// `m::x` stands for the member `x` of the file that provides `m`, and
/// for nothing else: not for an import of that file, and not for an `x`
/// elsewhere.
pub proof fn law_qualified_target(
    s: ModuleScopeV,
    names: Seq<Seq<char>>,
    root: FileId,
    m: Seq<char>,
    x: Seq<char>,
)
    requires
        unqualified(m),
        m.len() > 0 ==> m.last() != ':',
    ensures
        ({
            let symbol = m + seq![':', ':'] + x;
            let r = target_of(s, names, root, symbol);
            match (module_file_spec(s, names, m), lookup(names, x)) {
                (Some(f), Some(id)) => match own_member(s, f, id) {
                    Some(d) => r == Ok::<DefId, DiagnosticV>(DefId { raw: d }),
                    None => r matches Err(e) && e.code == Code::UnknownSymbol && e.subject == Some(
                        symbol,
                    ),
                },
                _ => r matches Err(e) && e.code == Code::UnknownSymbol && e.subject == Some(symbol),
            }
        }),
{
    law_split_at_first_colons(m, x);
}

pub(crate) proof fn lemma_candidates(s: ModuleScopeV, id: InternId, n: int, d: int)
    requires
        0 <= n <= usize::MAX + 1,
    ensures
        candidates(s, id, n).contains(DefId { raw: d as usize }) && 0 <= d < n ==> named_by_some(
            s,
            id,
            d,
        ),
        0 <= d < n && named_by_some(s, id, d) ==> candidates(s, id, n).contains(
            DefId { raw: d as usize },
        ),
        forall|i: int| 0 <= i < candidates(s, id, n).len() ==> (#[trigger] candidates(
            s,
            id,
            n,
        )[i]).raw < n && named_by_some(s, id, candidates(s, id, n)[i].raw as int),
        forall|i: int, j: int|
            0 <= i < j < candidates(s, id, n).len() ==> (#[trigger] candidates(s, id, n)[i]).raw < (
            #[trigger] candidates(s, id, n)[j]).raw,
    decreases n,
{
    if n > 0 {
        lemma_candidates(s, id, n - 1, d);
        let front = candidates(s, id, n - 1);
        let now = candidates(s, id, n);
        if named_by_some(s, id, n - 1) {
            assert(now[front.len() as int] == DefId { raw: (n - 1) as usize });
            assert forall|i: int| 0 <= i < front.len() implies #[trigger] now[i] == front[i] by {}
            if front.contains(DefId { raw: d as usize }) {
                let i = choose|i: int|
                    0 <= i < front.len() && front[i] == DefId { raw: d as usize };
                assert(now[i] == front[i]);
            }
            assert forall|i: int| 0 <= i < now.len() implies (#[trigger] now[i]).raw < n
                && named_by_some(s, id, now[i].raw as int) by {
                if i < front.len() {
                    assert(now[i] == front[i]);
                }
            }
        }
        if now.contains(DefId { raw: d as usize }) && 0 <= d < n {
            let i = choose|i: int| 0 <= i < now.len() && now[i] == DefId { raw: d as usize };
            assert(named_by_some(s, id, now[i].raw as int));
        }
    }
}

/// A bare name stands for the root file's own definition of it; or else
/// for the one that the root file imports by it; or else for the one
/// definition of that name in any file. Where several files define it, it
/// is ambiguous; where none does, it is unknown.
pub proof fn law_bare_target(
    s: ModuleScopeV,
    names: Seq<Seq<char>>,
    root: FileId,
    x: Seq<char>,
    d: int,
    e: int,
)
    requires
        unqualified(x),
        s.defs.len() <= usize::MAX,
        0 <= d < s.defs.len(),
        0 <= e < s.defs.len(),
    ensures
        ({
            let r = target_of(s, names, root, x);
            match lookup(names, x) {
                None => r matches Err(err) && err.code == Code::UnknownSymbol,
                Some(id) => match (own_member(s, root, id), imported(s, root, id)) {
                    (Some(k), _) => r == Ok::<DefId, DiagnosticV>(DefId { raw: k }),
                    (None, Some(k)) => r == Ok::<DefId, DiagnosticV>(DefId { raw: k }),
                    (None, None) => {
                        &&& named_by_some(s, id, d) && named_by_some(s, id, e) && d != e ==> (
                        r matches Err(err) && err.code == Code::AmbiguousSymbol)
                        &&& named_by_some(s, id, d) && (forall|k: int|
                            0 <= k < s.defs.len() && #[trigger] named_by_some(s, id, k) ==> k == d)
                            ==> r == Ok::<DefId, DiagnosticV>(DefId { raw: d as usize })
                        &&& (forall|k: int|
                            0 <= k < s.defs.len() ==> !#[trigger] named_by_some(s, id, k)) ==> (
                        r matches Err(err) && err.code == Code::UnknownSymbol)
                    },
                },
            }
        }),
{
    law_split_at_first_colons(Seq::empty(), x);
    if let Some(id) = lookup(names, x) {
        let n = s.defs.len() as int;
        let found = candidates(s, id, n);
        lemma_candidates(s, id, n, d);
        lemma_candidates(s, id, n, e);
        if named_by_some(s, id, d) && named_by_some(s, id, e) && d != e {
            let i = choose|i: int| 0 <= i < found.len() && found[i] == DefId { raw: d as usize };
            let j = choose|j: int| 0 <= j < found.len() && found[j] == DefId { raw: e as usize };
            assert(i != j);
            assert(found.len() >= 2);
            lemma_ambiguous(s, names, x, found);
        }
        if named_by_some(s, id, d) && (forall|k: int|
            0 <= k < s.defs.len() && #[trigger] named_by_some(s, id, k) ==> k == d) {
            let i = choose|i: int| 0 <= i < found.len() && found[i] == DefId { raw: d as usize };
            if found.len() >= 2 {
                assert(found[0].raw < found[1].raw);
                assert(named_by_some(s, id, found[0].raw as int));
                assert(named_by_some(s, id, found[1].raw as int));
            }
        }
        if forall|k: int| 0 <= k < s.defs.len() ==> !#[trigger] named_by_some(s, id, k) {
            if found.len() > 0 {
                assert(named_by_some(s, id, found[0].raw as int));
            }
        }
    }
}

proof fn lemma_ambiguous(s: ModuleScopeV, names: Seq<Seq<char>>, x: Seq<char>, found: Seq<DefId>)
    ensures
        crate::target::ambiguous_symbol(s, names, x, found).code == Code::AmbiguousSymbol,
{
    let d = crate::diagnostic::error_of(
        Code::AmbiguousSymbol,
        "`"@ + x + "` is ambiguous: "@ + crate::text::dec(found.len())
            + " candidates — qualify as `m::"@ + x + "`"@,
    ).with_subject(x);
    lemma_labels_keep_code(d, s, names, x, found);
}

proof fn lemma_labels_keep_code(
    d: DiagnosticV,
    s: ModuleScopeV,
    names: Seq<Seq<char>>,
    x: Seq<char>,
    found: Seq<DefId>,
)
    ensures
        crate::target::with_candidates(d, s, names, x, found).code == d.code,
    decreases found.len(),
{
    if found.len() > 0 {
        lemma_labels_keep_code(d, s, names, x, found.drop_last());
    }
}

} // verus!
