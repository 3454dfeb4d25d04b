//! How names and paths are taken apart and put together: stems and
//! extensions, siblings, journals, and the paths below a directory.

use crate::paths::{
    extension_of, final_name, has_prefix, has_suffix, here, inside, is_journal, is_sibling,
    is_source, is_under, joined, journal_path_of, journals_of, last_dot, module_of, parent_of,
    path_key_of, path_order, renamed, siblings_of, stem_of, FsPathV,
};
use crate::source::FileId;
use crate::ast::UseDeclV;
use crate::workspace::{claimed, reached, root_in, with_uses};
use vstd::prelude::*;
use vstd::string::*;

verus! {

// ---------- names ----------

/// A name holds no dot.
pub open spec fn dotless(name: Seq<char>) -> bool {
    forall|i: int| 0 <= i < name.len() ==> #[trigger] name[i] != '.'
}

proof fn lemma_no_dot(name: Seq<char>)
    requires
        dotless(name),
    ensures
        last_dot(name) is None,
    decreases name.len(),
{
    if name.len() > 0 {
        assert(name[name.len() - 1] != '.');
        assert forall|i: int| 0 <= i < name.drop_last().len() implies #[trigger] name.drop_last()[i]
            != '.' by {
            assert(name[i] != '.');
        }
        lemma_no_dot(name.drop_last());
    }
}

proof fn lemma_last_dot(stem: Seq<char>, ext: Seq<char>)
    requires
        dotless(ext),
    ensures
        last_dot(stem + seq!['.'] + ext) == Some(stem.len() as int),
    decreases ext.len(),
{
    let name = stem + seq!['.'] + ext;
    if ext.len() == 0 {
        assert(name.last() == '.');
    } else {
        assert(name.last() == ext[ext.len() - 1]);
        assert(name.drop_last() =~= stem + seq!['.'] + ext.drop_last());
        assert forall|i: int| 0 <= i < ext.drop_last().len() implies #[trigger] ext.drop_last()[i]
            != '.' by {
            assert(ext[i] != '.');
        }
        lemma_last_dot(stem, ext.drop_last());
    }
}

/// A file name is taken apart at its last dot, unless that dot is its
/// first character; a name without a dot is its own stem.
pub proof fn law_stem_and_extension(stem: Seq<char>, ext: Seq<char>)
    requires
        dotless(ext),
    ensures
        stem.len() > 0 ==> stem_of(stem + seq!['.'] + ext) == stem && extension_of(
            stem + seq!['.'] + ext,
        ) == Some(ext),
        stem_of(seq!['.'] + ext) == seq!['.'] + ext,
        extension_of(seq!['.'] + ext) is None,
        stem_of(ext) == ext,
        extension_of(ext) is None,
{
    lemma_last_dot(stem, ext);
    let name = stem + seq!['.'] + ext;
    assert(name.take(stem.len() as int) =~= stem);
    assert(name.skip(stem.len() as int + 1) =~= ext);
    lemma_last_dot(Seq::empty(), ext);
    assert(Seq::<char>::empty() + seq!['.'] + ext =~= seq!['.'] + ext);
    lemma_no_dot(ext);
}

/// The file `m.ixa` of a directory is a source file and provides module
/// `m`.
pub proof fn law_source_provides_its_stem(dir: FsPathV, m: Seq<char>)
    requires
        m.len() > 0,
    ensures
        ({
            let p = inside(dir, m + ".ixa"@);
            is_source(p) && module_of(p) == m
        }),
{
    reveal_strlit(".ixa");
    reveal_strlit("ixa");
    reveal_strlit(".");
    reveal_strlit("..");
    let n = m + ".ixa"@;
    assert(n =~= m + seq!['.'] + "ixa"@);
    assert(dotless("ixa"@));
    law_stem_and_extension(m, "ixa"@);
    assert(n.len() > 2);
    assert(n != "."@ && n != ".."@);
    assert(inside(dir, n).parts.last() == n);
}

/// The path of a name in a directory ends in that name, lies below the
/// directory, and has the directory as its parent.
pub proof fn law_path_inside(dir: FsPathV, name: Seq<char>)
    requires
        name != "."@ && name != ".."@,
    ensures
        final_name(inside(dir, name)) == Some(name),
        is_under(inside(dir, name), dir),
        dir.absolute || dir.parts.len() > 0 ==> parent_of(inside(dir, name)) == dir,
        !dir.absolute && dir.parts.len() == 0 ==> parent_of(inside(dir, name)) == here(),
{
    let p = inside(dir, name);
    assert(p.parts.take(dir.parts.len() as int) =~= dir.parts);
    assert(p.parts.drop_last() =~= dir.parts);
}

/// To rename a path is to replace its final name: it stays in its
/// directory.
pub proof fn law_renamed_in_place(dir: FsPathV, old_name: Seq<char>, new_name: Seq<char>)
    requires
        old_name != "."@ && old_name != ".."@,
    ensures
        renamed(inside(dir, old_name), new_name) == inside(dir, new_name),
{
    let p = inside(dir, old_name);
    assert(p.parts.drop_last() =~= dir.parts);
}

/// Texts are joined with the separator between each two, also where the
/// two halves are joined first.
pub proof fn law_joined_halves(a: Seq<Seq<char>>, b: Seq<Seq<char>>, sep: Seq<char>)
    requires
        a.len() > 0,
        b.len() > 0,
    ensures
        joined(a + b, sep) == joined(a, sep) + sep + joined(b, sep),
    decreases b.len(),
{
    let all = a + b;
    assert(all.drop_last() =~= a + b.drop_last());
    assert(all.last() == b.last());
    if b.len() > 1 {
        law_joined_halves(a, b.drop_last(), sep);
        assert(joined(all, sep) =~= joined(a, sep) + sep + joined(b, sep));
    } else {
        assert(a + b.drop_last() =~= a);
        assert(joined(all, sep) =~= joined(a, sep) + sep + joined(b, sep));
    }
}

/// A canonical text loses a verbatim prefix, and nothing else.
pub proof fn law_verbatim_prefix_taken_off(rest: Seq<char>)
    ensures
        path_key_of("\\\\?\\"@ + rest) == rest,
        rest.len() == 0 || rest[0] != '\\' ==> path_key_of(rest) == rest,
{
    reveal_strlit("\\\\?\\");
    let pre = "\\\\?\\"@;
    let s = pre + rest;
    assert(pre.len() == 4);
    assert(s.take(4) =~= pre);
    assert(s.skip(4) =~= rest);
    if rest.len() > 0 && rest[0] != '\\' && rest.len() >= 4 {
        assert(rest.take(4)[0] == rest[0]);
        assert(pre[0] == '\\');
        assert(rest.take(4) != pre);
    }
}

// ---------- journals ----------

/// The journal of a transaction is recognized by its name, in the
/// directory where it is kept.
pub proof fn law_journal_recognized(root: FsPathV, n: Seq<char>)
    ensures
        is_journal(journal_path_of(root, "ontixa-tx-"@ + n)),
        is_under(journal_path_of(root, "ontixa-tx-"@ + n), root),
{
    reveal_strlit(".ontixa-tx-");
    reveal_strlit("ontixa-tx-");
    reveal_strlit(".journal");
    reveal_strlit(".");
    reveal_strlit("..");
    let name = "."@ + ("ontixa-tx-"@ + n) + ".journal"@;
    assert(name.take(11) =~= ".ontixa-tx-"@);
    assert(name.skip(name.len() - 8) =~= ".journal"@);
    assert(name.len() > 2);
    law_path_inside(root, name);
}

/// The pending journals of a directory are the entries that bear such a
/// name: every one of them and no other.
pub proof fn law_pending_journals_found(entries: Seq<FsPathV>, k: int, p: FsPathV)
    requires
        0 <= k <= entries.len(),
    ensures
        journals_of(entries, k).contains(p) <==> entries.take(k).contains(p) && (final_name(
            p,
        ) matches Some(name) && has_prefix(name, ".ontixa-tx-"@) && has_suffix(name, ".journal"@)),
    decreases k,
{
    if k > 0 {
        law_pending_journals_found(entries, k - 1, p);
        let x = entries[k - 1];
        assert(entries.take(k) =~= entries.take(k - 1).push(x));
        lemma_pushed(entries.take(k - 1), x, p);
        lemma_pushed(journals_of(entries, k - 1), x, p);
    }
}

proof fn lemma_pushed<A>(v: Seq<A>, a: A, x: A)
    ensures
        v.push(a).contains(x) <==> v.contains(x) || x == a,
{
    let w = v.push(a);
    if v.contains(x) {
        let i = choose|i: int| 0 <= i < v.len() && v[i] == x;
        assert(w[i] == x);
    }
    assert(w[v.len() as int] == a);
}

// ---------- siblings ----------

/// The files that register with a root are the source files of its
/// directory that provide another module: every one of them and no
/// other.
pub proof fn law_siblings_found(root: FsPathV, entries: Seq<FsPathV>, p: FsPathV)
    ensures
        siblings_of(root, entries).contains(p) <==> entries.contains(p) && is_source(p)
            && module_of(p) != module_of(root),
    decreases entries.len(),
{
    if entries.len() > 0 {
        let front = entries.drop_last();
        let x = entries.last();
        law_siblings_found(root, front, p);
        assert(entries =~= front.push(x));
        lemma_pushed(front, x, p);
        if is_sibling(root, x) {
            lemma_inserted(siblings_of(root, front), x, p);
        }
    }
}

proof fn lemma_inserted(v: Seq<FsPathV>, a: FsPathV, x: FsPathV)
    ensures
        crate::order::insert_sorted(v, a, path_order()).contains(x) <==> v.contains(x) || x == a,
    decreases v.len(),
{
    let w = crate::order::insert_sorted(v, a, path_order());
    if v.len() > 0 && !(path_order())(v.last(), a) {
        let front = v.drop_last();
        lemma_inserted(front, a, x);
        assert(v =~= front.push(v.last()));
        lemma_pushed(front, v.last(), x);
        lemma_pushed(crate::order::insert_sorted(front, a, path_order()), v.last(), x);
    } else {
        lemma_pushed(v, a, x);
    }
}

// ---------- discovery ----------

/// A visited file adds the files that its `use` declarations reach:
/// every one of them and no other.
pub proof fn law_discovered_by_use(
    order: Seq<FileId>,
    modules: Seq<Seq<char>>,
    f: FileId,
    uses: Seq<UseDeclV>,
    x: FileId,
)
    ensures
        with_uses(order, modules, f, uses).contains(x) <==> order.contains(x) || exists|i: int|
            0 <= i < uses.len() && reached(modules, f, #[trigger] uses[i]) == Some(x),
    decreases uses.len(),
{
    if uses.len() > 0 {
        let front = uses.drop_last();
        law_discovered_by_use(order, modules, f, front, x);
        assert(uses[uses.len() - 1] == uses.last());
        assert forall|i: int| 0 <= i < front.len() implies #[trigger] front[i] == uses[i] by {}
        let before = with_uses(order, modules, f, front);
        if let Some(d) = reached(modules, f, uses.last()) {
            lemma_pushed(before, d, x);
        }
        if exists|i: int| 0 <= i < front.len() && reached(modules, f, #[trigger] front[i]) == Some(x) {
            let i = choose|i: int|
                0 <= i < front.len() && reached(modules, f, #[trigger] front[i]) == Some(x);
            assert(reached(modules, f, uses[i]) == Some(x));
        }
        if exists|i: int| 0 <= i < uses.len() && reached(modules, f, #[trigger] uses[i]) == Some(x) {
            let i = choose|i: int|
                0 <= i < uses.len() && reached(modules, f, #[trigger] uses[i]) == Some(x);
            if i < front.len() {
                assert(front[i] == uses[i]);
            }
        }
    }
}

/// A `use` reaches the first file that provides the module which its
/// path starts with, unless that is the file itself.
pub proof fn law_use_reaches_provider(
    modules: Seq<Seq<char>>,
    f: FileId,
    u: UseDeclV,
    i: int,
)
    requires
        u.path.segs.len() > 0,
        0 <= i < modules.len() <= usize::MAX,
        modules[i] == u.path.segs[0].name,
        forall|j: int| 0 <= j < i ==> #[trigger] modules[j] != u.path.segs[0].name,
    ensures
        reached(modules, f, u) == (if f.raw == i {
            None
        } else {
            Some(FileId { raw: i as usize })
        }),
{
    lemma_position(modules, u.path.segs[0].name, i);
}

proof fn lemma_position(names: Seq<Seq<char>>, name: Seq<char>, i: int)
    requires
        0 <= i < names.len(),
        names[i] == name,
        forall|j: int| 0 <= j < i ==> #[trigger] names[j] != name,
    ensures
        crate::source::position(names, name) == Some(i),
    decreases names.len(),
{
    let front = names.drop_last();
    if i < front.len() {
        assert forall|j: int| 0 <= j < i implies #[trigger] front[j] != name by {
            assert(names[j] != name);
        }
        lemma_position(front, name, i);
    } else {
        lemma_absent(front, name);
    }
}

proof fn lemma_absent(names: Seq<Seq<char>>, name: Seq<char>)
    requires
        forall|j: int| 0 <= j < names.len() ==> #[trigger] names[j] != name,
    ensures
        crate::source::position(names, name) is None,
    decreases names.len(),
{
    if names.len() > 0 {
        assert(names[names.len() - 1] != name);
        assert forall|j: int| 0 <= j < names.drop_last().len() implies #[trigger] names.drop_last()[j]
            != name by {
            assert(names[j] != name);
        }
        lemma_absent(names.drop_last(), name);
    }
}

/// A workspace that claims its files is the root of each of them; every
/// other file keeps its root.
pub proof fn law_claimed_files(
    roots: Map<usize, usize>,
    root: FileId,
    files: Seq<FileId>,
    f: FileId,
)
    ensures
        root_in(claimed(roots, root, files), f) == (if files.contains(f) {
            root
        } else {
            root_in(roots, f)
        }),
    decreases files.len(),
{
    if files.len() > 0 {
        let front = files.drop_last();
        law_claimed_files(roots, root, front, f);
        assert(files =~= front.push(files.last()));
        lemma_pushed(front, files.last(), f);
    }
}

} // verus!
