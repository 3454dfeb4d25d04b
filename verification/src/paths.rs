//! File-system paths as component lists, and the rules for where a
//! transaction's journal and a workspace's modules live.

use crate::order::text_before;
use crate::text::{cat3, chars_of, same};
use vstd::prelude::*;
use vstd::string::*;

verus! {

/// A path as its components: `absolute` for a leading root, then the
/// names in order. `.` stands only as a leading component.
#[derive(Debug, PartialEq, Eq)]
pub struct FsPath {
    /// Whether the path starts at the root.
    pub absolute: bool,
    /// The components below the root.
    pub parts: Vec<String>,
}

/// Model of [`FsPath`].
#[verifier::ext_equal]
pub struct FsPathV {
    pub absolute: bool,
    pub parts: Seq<Seq<char>>,
}

/// The models of a sequence of paths.
pub open spec fn fs_paths(v: Seq<FsPath>) -> Seq<FsPathV> {
    Seq::new(v.len(), |i: int| v[i]@)
}

/// The path `.`.
pub open spec fn here() -> FsPathV {
    FsPathV { absolute: false, parts: seq!["."@] }
}

/// The directory a file lives in, `.` for bare file names.
pub open spec fn parent_of(p: FsPathV) -> FsPathV {
    if p.parts.len() == 0 || (!p.absolute && p.parts.len() == 1) {
        here()
    } else {
        FsPathV { absolute: p.absolute, parts: p.parts.drop_last() }
    }
}

/// The number of leading components two lists share.
pub open spec fn shared(a: Seq<Seq<char>>, b: Seq<Seq<char>>) -> int
    decreases a.len(),
{
    if a.len() > 0 && b.len() > 0 && a[0] == b[0] {
        1 + shared(a.subrange(1, a.len() as int), b.subrange(1, b.len() as int))
    } else {
        0
    }
}

/// The longest common ancestor of two paths. A relative and an
/// absolute path share only the start of the first.
pub open spec fn ancestor_of(a: FsPathV, b: FsPathV) -> FsPathV {
    FsPathV {
        absolute: a.absolute,
        parts: a.parts.take(
            if a.absolute == b.absolute {
                shared(a.parts, b.parts)
            } else {
                0
            },
        ),
    }
}

/// Whether `p` lies at or below `dir`, by whole components.
pub open spec fn is_under(p: FsPathV, dir: FsPathV) -> bool {
    if p.absolute == dir.absolute {
        dir.parts.len() <= p.parts.len() && p.parts.take(dir.parts.len() as int) == dir.parts
    } else {
        !dir.absolute && dir.parts.len() == 0
    }
}

/// The common ancestor of the parents of `paths`.
pub open spec fn tx_root_of(paths: Seq<FsPathV>) -> Option<FsPathV>
    decreases paths.len(),
{
    if paths.len() == 0 {
        None
    } else {
        match tx_root_of(paths.drop_last()) {
            None => Some(parent_of(paths.last())),
            Some(r) => Some(ancestor_of(r, parent_of(paths.last()))),
        }
    }
}

/// The shared prefix is a prefix of both lists.
pub proof fn lemma_shared(a: Seq<Seq<char>>, b: Seq<Seq<char>>)
    ensures
        0 <= shared(a, b) <= a.len(),
        shared(a, b) <= b.len(),
        a.take(shared(a, b)) == b.take(shared(a, b)),
        shared(a, b) < a.len() && shared(a, b) < b.len() ==> a[shared(a, b)] != b[shared(a, b)],
    decreases a.len(),
{
    if a.len() > 0 && b.len() > 0 && a[0] == b[0] {
        let ra = a.subrange(1, a.len() as int);
        let rb = b.subrange(1, b.len() as int);
        lemma_shared(ra, rb);
        let k = shared(a, b);
        assert forall|i: int| 0 <= i < k implies a.take(k)[i] == b.take(k)[i] by {
            if i > 0 {
                assert(ra.take(k - 1)[i - 1] == rb.take(k - 1)[i - 1]);
            }
        }
        assert(a.take(k) =~= b.take(k));
    } else {
        assert(a.take(0) =~= b.take(0));
    }
}

/// The common ancestor of two paths of one kind holds both of them.
pub proof fn law_ancestor_holds_both(a: FsPathV, b: FsPathV)
    requires
        a.absolute == b.absolute,
    ensures
        is_under(a, ancestor_of(a, b)),
        is_under(b, ancestor_of(a, b)),
{
    lemma_shared(a.parts, b.parts);
}

/// Nothing longer holds both: any path that holds `a` and `b` holds
/// their common ancestor.
pub proof fn law_ancestor_longest(a: FsPathV, b: FsPathV, c: FsPathV)
    requires
        a.absolute == b.absolute,
        c.absolute == a.absolute,
        is_under(a, c),
        is_under(b, c),
    ensures
        is_under(ancestor_of(a, b), c),
{
    lemma_shared(a.parts, b.parts);
    let k = shared(a.parts, b.parts);
    let n = c.parts.len() as int;
    if k < n {
        assert(a.parts[k] == a.parts.take(n)[k]);
        assert(b.parts[k] == b.parts.take(n)[k]);
        assert(false);
    }
    assert(ancestor_of(a, b).parts.take(n) =~= c.parts);
}

/// The journal directory of a write holds every file of the write, so
/// long as the files are spelled all absolute or all relative.
pub proof fn law_tx_root_holds_all(paths: Seq<FsPathV>, i: int)
    requires
        0 <= i < paths.len(),
        forall|j: int| 0 <= j < paths.len() ==> parent_of(#[trigger] paths[j]).absolute
            == parent_of(paths[0]).absolute,
    ensures
        tx_root_of(paths) matches Some(r) && r.absolute == parent_of(paths[0]).absolute && is_under(
            parent_of(paths[i]),
            r,
        ),
    decreases paths.len(),
{
    let init = paths.drop_last();
    if init.len() == 0 {
        let r = parent_of(paths.last());
        assert(r.parts.take(r.parts.len() as int) =~= r.parts);
    } else {
        assert forall|j: int| 0 <= j < init.len() implies parent_of(#[trigger] init[j]).absolute
            == parent_of(init[0]).absolute by {
            assert(init[j] == paths[j]);
        }
        assert(init[0] == paths[0]);
        law_tx_root_holds_all(
            init,
            if i < init.len() {
                i
            } else {
                0
            },
        );
        let r0 = tx_root_of(init)->0;
        let last = parent_of(paths.last());
        assert(paths[paths.len() - 1] == paths.last());
        law_ancestor_holds_both(r0, last);
        let r = ancestor_of(r0, last);
        if i < init.len() {
            let p = parent_of(paths[i]);
            assert(p.parts.take(r.parts.len() as int) =~= p.parts.take(
                r0.parts.len() as int,
            ).take(r.parts.len() as int));
            assert(r0.parts.take(r.parts.len() as int) =~= r.parts);
        }
    }
}

/// The components joined by `/`, behind a leading `/` when absolute.
pub open spec fn path_display(p: FsPathV) -> Seq<char> {
    if p.absolute {
        "/"@ + joined(p.parts, "/"@)
    } else {
        joined(p.parts, "/"@)
    }
}

/// Texts joined by a separator.
pub open spec fn joined(parts: Seq<Seq<char>>, sep: Seq<char>) -> Seq<char>
    decreases parts.len(),
{
    if parts.len() == 0 {
        Seq::empty()
    } else if parts.len() == 1 {
        parts[0]
    } else {
        joined(parts.drop_last(), sep) + sep + parts.last()
    }
}

/// Joins texts by a separator.
pub fn join(parts: &Vec<String>, sep: &str) -> (r: String)
    ensures
        r@ == joined(crate::text::texts(parts@), sep@),
{
    let ghost all = crate::text::texts(parts@);
    let mut out = String::new();
    let mut i: usize = 0;
    proof {
        assert(all.take(0) =~= Seq::empty());
    }
    while i < parts.len()
        invariant
            i <= parts@.len(),
            all == crate::text::texts(parts@),
            out@ == joined(all.take(i as int), sep@),
        decreases parts@.len() - i,
    {
        let ghost cur = all.take(i + 1);
        proof {
            assert(cur.drop_last() =~= all.take(i as int));
            assert(cur.last() == parts@[i as int]@);
        }
        if i > 0 {
            out.append(sep);
        }
        out.append(parts[i].as_str());
        proof {
            if i == 0 {
                assert(out@ =~= joined(cur, sep@));
            }
        }
        i += 1;
    }
    proof {
        assert(all.take(all.len() as int) =~= all);
    }
    out
}

/// The final name of a path, when it ends in one.
pub open spec fn final_name(p: FsPathV) -> Option<Seq<char>> {
    if p.parts.len() == 0 || p.parts.last() == "."@ || p.parts.last() == ".."@ {
        None
    } else {
        Some(p.parts.last())
    }
}

/// The path with its final name replaced by `name`.
pub open spec fn renamed(p: FsPathV, name: Seq<char>) -> FsPathV {
    FsPathV {
        absolute: p.absolute,
        parts: if final_name(p) is Some {
            p.parts.drop_last().push(name)
        } else {
            p.parts.push(name)
        },
    }
}

/// The path of `name` inside directory `dir`.
pub open spec fn inside(dir: FsPathV, name: Seq<char>) -> FsPathV {
    FsPathV { absolute: dir.absolute, parts: dir.parts.push(name) }
}

impl FsPath {
    /// The model of this path.
    pub open spec fn view(&self) -> FsPathV {
        FsPathV { absolute: self.absolute, parts: crate::text::texts(self.parts@) }
    }

    /// A copy of this path.
    pub fn copy(&self) -> (r: FsPath)
        ensures
            r@ == self@,
    {
        FsPath { absolute: self.absolute, parts: crate::diagnostic::copy_texts(&self.parts) }
    }

    /// The path as text.
    pub fn display(&self) -> (r: String)
        ensures
            r@ == path_display(self@),
    {
        let body = join(&self.parts, "/");
        if self.absolute {
            let mut s = "/".to_owned();
            s.append(body.as_str());
            s
        } else {
            body
        }
    }

    /// The final name of the path, when it ends in one.
    pub fn file_name(&self) -> (r: Option<&str>)
        ensures
            (match r {
                Some(s) => Some(s@),
                None => None,
            }) == final_name(self@),
    {
        let n: usize = self.parts.len();
        if n == 0 {
            return None;
        }
        let last = self.parts[n - 1].as_str();
        if same(last, ".") || same(last, "..") {
            None
        } else {
            Some(last)
        }
    }

    /// The path with its final name replaced by `name`.
    pub fn with_file_name(&self, name: &str) -> (r: FsPath)
        ensures
            r@ == renamed(self@, name@),
    {
        let mut parts = crate::diagnostic::copy_texts(&self.parts);
        let ghost before = parts@;
        proof {
            assert(before.len() == crate::text::texts(before).len());
            assert(self@.parts.len() == self.parts@.len());
        }
        if self.file_name().is_some() {
            parts.pop();
            proof {
                assert(crate::text::texts(parts@) =~= self@.parts.drop_last()) by {
                    assert forall|i: int| 0 <= i < parts@.len() implies parts@[i]@
                        == self@.parts[i] by {
                        assert(crate::text::texts(before)[i] == self@.parts[i]);
                    }
                }
            }
        }
        let ghost mid = crate::text::texts(parts@);
        parts.push(name.to_owned());
        let r = FsPath { absolute: self.absolute, parts };
        proof {
            assert(crate::text::texts(parts@) =~= mid.push(name@));
        }
        r
    }

    /// The path of `name` inside this directory.
    pub fn join_name(&self, name: &str) -> (r: FsPath)
        ensures
            r@ == inside(self@, name@),
    {
        let mut parts = crate::diagnostic::copy_texts(&self.parts);
        let ghost mid = crate::text::texts(parts@);
        parts.push(name.to_owned());
        let r = FsPath { absolute: self.absolute, parts };
        proof {
            assert(crate::text::texts(parts@) =~= mid.push(name@));
        }
        r
    }
}

/// The first `n` components of a path.
fn prefix(p: &FsPath, n: usize) -> (r: FsPath)
    requires
        n <= p.parts@.len(),
    ensures
        r@ == (FsPathV { absolute: p.absolute, parts: p@.parts.take(n as int) }),
{
    let mut parts: Vec<String> = Vec::new();
    let mut i: usize = 0;
    while i < n
        invariant
            i <= n <= p.parts@.len(),
            parts@.len() == i,
            forall|j: int| 0 <= j < i ==> (#[trigger] parts@[j])@ == p.parts@[j]@,
        decreases n - i,
    {
        parts.push(p.parts[i].clone());
        i += 1;
    }
    let r = FsPath { absolute: p.absolute, parts };
    proof {
        assert(r@.parts =~= p@.parts.take(n as int));
    }
    r
}

/// The directory a file lives in — `.` for bare file names (an
/// empty parent would make a directory listing fail silently and every
/// prefix check vacuous).
pub fn parent_or_root(p: &FsPath) -> (r: FsPath)
    ensures
        r@ == parent_of(p@),
{
    let n: usize = p.parts.len();
    if n == 0 || (!p.absolute && n == 1) {
        let mut parts: Vec<String> = Vec::new();
        parts.push(".".to_owned());
        let r = FsPath { absolute: false, parts };
        proof {
            assert(r@.parts =~= here().parts);
        }
        r
    } else {
        let r = prefix(p, n - 1);
        proof {
            assert(p@.parts.take(n - 1) =~= p@.parts.drop_last());
        }
        r
    }
}

/// The longest common ancestor of two paths — the transaction root
/// for a multi-directory write.
pub fn common_ancestor(a: &FsPath, b: &FsPath) -> (r: FsPath)
    ensures
        r@ == ancestor_of(a@, b@),
{
    if a.absolute != b.absolute {
        return prefix(a, 0);
    }
    let mut k: usize = 0;
    let ghost x = a@.parts;
    let ghost y = b@.parts;
    proof {
        assert(x.subrange(0, x.len() as int) =~= x);
        assert(y.subrange(0, y.len() as int) =~= y);
    }
    while k < a.parts.len() && k < b.parts.len() && same(
        a.parts[k].as_str(),
        b.parts[k].as_str(),
    )
        invariant
            k <= a.parts@.len(),
            k <= b.parts@.len(),
            x == a@.parts,
            y == b@.parts,
            k + shared(x.subrange(k as int, x.len() as int), y.subrange(k as int, y.len() as int))
                == shared(x, y),
        decreases a.parts@.len() - k,
    {
        proof {
            let p = x.subrange(k as int, x.len() as int);
            let q = y.subrange(k as int, y.len() as int);
            assert(p.subrange(1, p.len() as int) =~= x.subrange(k + 1, x.len() as int));
            assert(q.subrange(1, q.len() as int) =~= y.subrange(k + 1, y.len() as int));
        }
        k += 1;
    }
    prefix(a, k)
}

/// The directory that should hold the journal for a write touching
/// `paths` — the common ancestor of every file's parent.
pub fn tx_root(paths: &Vec<FsPath>) -> (r: Option<FsPath>)
    ensures
        (match r {
            Some(p) => Some(p@),
            None => None,
        }) == tx_root_of(fs_paths(paths@)),
{
    let ghost all = fs_paths(paths@);
    let mut root: Option<FsPath> = None;
    let mut i: usize = 0;
    proof {
        assert(all.take(0) =~= Seq::empty());
    }
    while i < paths.len()
        invariant
            i <= paths@.len(),
            all == fs_paths(paths@),
            (match root {
                Some(p) => Some(p@),
                None => None,
            }) == tx_root_of(all.take(i as int)),
        decreases paths@.len() - i,
    {
        proof {
            assert(all.take(i + 1).drop_last() =~= all.take(i as int));
            assert(all.take(i + 1).last() == paths@[i as int]@);
        }
        let p = parent_or_root(&paths[i]);
        root = Some(
            match root {
                None => p,
                Some(r) => common_ancestor(&r, &p),
            },
        );
        i += 1;
    }
    proof {
        assert(all.take(all.len() as int) =~= all);
    }
    root
}

/// Whether `p` lies at or below `dir`, by whole components.
pub fn starts_with(p: &FsPath, dir: &FsPath) -> (r: bool)
    ensures
        r == is_under(p@, dir@),
{
    if p.absolute != dir.absolute {
        return !dir.absolute && dir.parts.len() == 0;
    }
    if dir.parts.len() > p.parts.len() {
        return false;
    }
    let mut i: usize = 0;
    while i < dir.parts.len()
        invariant
            i <= dir.parts@.len() <= p.parts@.len(),
            forall|j: int| 0 <= j < i ==> #[trigger] p@.parts[j] == dir@.parts[j],
        decreases dir.parts@.len() - i,
    {
        if !same(p.parts[i].as_str(), dir.parts[i].as_str()) {
            proof {
                assert(p@.parts.take(dir@.parts.len() as int)[i as int] == p.parts@[i as int]@);
                assert(dir@.parts[i as int] == dir.parts@[i as int]@);
            }
            return false;
        }
        i += 1;
    }
    proof {
        assert(p@.parts.take(dir@.parts.len() as int) =~= dir@.parts);
    }
    true
}

/// The position of the last `.` in `name`, if any.
pub open spec fn last_dot(name: Seq<char>) -> Option<int>
    decreases name.len(),
{
    if name.len() == 0 {
        None
    } else if name.last() == '.' {
        Some(name.len() - 1)
    } else {
        last_dot(name.drop_last())
    }
}

/// A file name without its extension. A name that only starts with a
/// dot has none.
pub open spec fn stem_of(name: Seq<char>) -> Seq<char> {
    match last_dot(name) {
        Some(i) => if i == 0 {
            name
        } else {
            name.take(i)
        },
        None => name,
    }
}

/// The extension of a file name.
pub open spec fn extension_of(name: Seq<char>) -> Option<Seq<char>> {
    match last_dot(name) {
        Some(i) => if i == 0 {
            None
        } else {
            Some(name.skip(i + 1))
        },
        None => None,
    }
}

/// The module name a path provides: its stem, or `module` when it
/// ends in no name.
pub open spec fn module_of(p: FsPathV) -> Seq<char> {
    match final_name(p) {
        Some(n) => stem_of(n),
        None => "module"@,
    }
}

/// Whether a path ends in a name with extension `ixa`.
pub open spec fn is_source(p: FsPathV) -> bool {
    final_name(p) matches Some(n) && extension_of(n) == Some("ixa"@)
}

/// The position of the last `.` in a name.
fn find_last_dot(cs: &Vec<char>) -> (r: Option<usize>)
    ensures
        match r {
            Some(i) => i < cs@.len() && last_dot(cs@) == Some(i as int),
            None => last_dot(cs@) is None,
        },
{
    let mut n: usize = cs.len();
    proof {
        assert(cs@.take(n as int) =~= cs@);
    }
    while n > 0
        invariant
            n <= cs@.len(),
            last_dot(cs@.take(n as int)) == last_dot(cs@),
        decreases n,
    {
        proof {
            assert(cs@.take(n as int).last() == cs@[n - 1]);
            assert(cs@.take(n as int).drop_last() =~= cs@.take(n - 1));
        }
        if cs[n - 1] == '.' {
            return Some(n - 1);
        }
        n -= 1;
    }
    None
}

/// The module name a `.ixa` path provides — its file stem. Stems
/// that aren't valid identifiers simply can't be `use`d.
pub fn module_name(path: &FsPath) -> (r: String)
    ensures
        r@ == module_of(path@),
{
    match path.file_name() {
        None => "module".to_owned(),
        Some(name) => {
            let cs = chars_of(name);
            match find_last_dot(&cs) {
                Some(i) => if i == 0 {
                    name.to_owned()
                } else {
                    let r = name.substring_char(0, i).to_owned();
                    proof {
                        assert(name@.subrange(0, i as int) =~= name@.take(i as int));
                    }
                    r
                },
                None => name.to_owned(),
            }
        },
    }
}

/// Whether a path ends in a name with extension `ixa`.
pub fn source_file(path: &FsPath) -> (r: bool)
    ensures
        r == is_source(path@),
{
    match path.file_name() {
        None => false,
        Some(name) => {
            let cs = chars_of(name);
            match find_last_dot(&cs) {
                Some(i) => if i == 0 {
                    false
                } else {
                    let n: usize = cs.len();
                    let ext = name.substring_char(i + 1, n);
                    proof {
                        assert(name@.subrange(i + 1, cs@.len() as int) =~= name@.skip(i + 1));
                    }
                    same(ext, "ixa")
                },
                None => false,
            }
        },
    }
}

/// A directory entry belongs to the workspace of `root` as a sibling:
/// it is a source file that provides another module than the root.
pub open spec fn is_sibling(root: FsPathV, p: FsPathV) -> bool {
    is_source(p) && module_of(p) != module_of(root)
}

/// The order of sibling paths: by their text.
pub open spec fn path_order() -> spec_fn(FsPathV, FsPathV) -> bool {
    |a: FsPathV, b: FsPathV| crate::order::text_le(path_display(a), path_display(b))
}

/// The siblings among the entries of the root's directory, in order.
pub open spec fn siblings_of(root: FsPathV, entries: Seq<FsPathV>) -> Seq<FsPathV>
    decreases entries.len(),
{
    if entries.len() == 0 {
        Seq::empty()
    } else if is_sibling(root, entries.last()) {
        crate::order::insert_sorted(
            siblings_of(root, entries.drop_last()),
            entries.last(),
            path_order(),
        )
    } else {
        siblings_of(root, entries.drop_last())
    }
}

/// Every `.ixa` file that should register with `root`, from the entries
/// of its directory: the root first, then the source files of other
/// modules, in sorted order for determinism.
pub fn workspace_files(root: &FsPath, entries: Vec<FsPath>) -> (r: Vec<FsPath>)
    ensures
        fs_paths(r@) == seq![root@] + siblings_of(root@, fs_paths(entries@)),
{
    let mut rest = siblings(root, entries);
    let mut out: Vec<FsPath> = Vec::new();
    out.push(root.copy());
    let ghost tail = fs_paths(rest@);
    out.append(&mut rest);
    proof {
        assert(fs_paths(out@) =~= seq![root@] + tail);
    }
    out
}

fn siblings(root: &FsPath, entries: Vec<FsPath>) -> (r: Vec<FsPath>)
    ensures
        fs_paths(r@) == siblings_of(root@, fs_paths(entries@)),
{
    let stem = module_name(root);
    let ghost all = fs_paths(entries@);
    let mut out: Vec<FsPath> = Vec::new();
    let mut i: usize = 0;
    proof {
        assert(all.take(0) =~= Seq::empty());
        assert(fs_paths(out@) =~= Seq::empty());
    }
    while i < entries.len()
        invariant
            i <= entries@.len(),
            all == fs_paths(entries@),
            stem@ == module_of(root@),
            fs_paths(out@) == siblings_of(root@, all.take(i as int)),
        decreases entries@.len() - i,
    {
        proof {
            assert(all.take(i + 1).drop_last() =~= all.take(i as int));
            assert(all.take(i + 1).last() == entries@[i as int]@);
        }
        if source_file(&entries[i]) && !same(module_name(&entries[i]).as_str(), stem.as_str()) {
            insert_path(&mut out, entries[i].copy());
        }
        i += 1;
    }
    proof {
        assert(all.take(all.len() as int) =~= all);
    }
    out
}

/// Inserts `p` into an ordered run of paths.
fn insert_path(out: &mut Vec<FsPath>, p: FsPath)
    ensures
        fs_paths(final(out)@) == crate::order::insert_sorted(
            fs_paths(old(out)@),
            p@,
            path_order(),
        ),
{
    let ghost all = fs_paths(out@);
    let text = p.display();
    let mut j: usize = out.len();
    proof {
        assert(all.take(j as int) =~= all);
        let ins = crate::order::insert_sorted(all, p@, path_order());
        assert(ins + all.skip(j as int) =~= ins);
    }
    while j > 0 && !text_before(out[j - 1].display().as_str(), text.as_str())
        invariant
            j <= out@.len(),
            all == fs_paths(out@),
            out@ == old(out)@,
            text@ == path_display(p@),
            crate::order::insert_sorted(all.take(j as int), p@, path_order()) + all.skip(j as int)
                == crate::order::insert_sorted(all, p@, path_order()),
        decreases j,
    {
        proof {
            let t = all.take(j as int);
            assert(t.last() == out@[j - 1]@);
            assert(t.drop_last() =~= all.take(j - 1));
            let ins = crate::order::insert_sorted(t.drop_last(), p@, path_order());
            assert(ins.push(t.last()) + all.skip(j as int) =~= ins + all.skip(j - 1));
        }
        j -= 1;
    }
    proof {
        let t = all.take(j as int);
        if j > 0 {
            assert(t.last() == out@[j - 1]@);
        }
        assert(crate::order::insert_sorted(t, p@, path_order()) == t.push(p@));
    }
    out.insert(j, p);
    proof {
        assert(fs_paths(out@) =~= all.take(j as int).push(p@) + all.skip(j as int));
    }
}

/// The journal of transaction `tx` under `root`.
pub open spec fn journal_path_of(root: FsPathV, tx: Seq<char>) -> FsPathV {
    inside(root, "."@ + tx + ".journal"@)
}

/// The journal of transaction `tx` under `root`.
pub fn journal_path(root: &FsPath, tx: &str) -> (r: FsPath)
    ensures
        r@ == journal_path_of(root@, tx@),
{
    let name = cat3(".", tx, ".journal");
    root.join_name(name.as_str())
}

/// Whether `s` starts with `pre`.
pub open spec fn has_prefix(s: Seq<char>, pre: Seq<char>) -> bool {
    pre.len() <= s.len() && s.take(pre.len() as int) == pre
}

/// Whether `s` ends with `suf`.
pub open spec fn has_suffix(s: Seq<char>, suf: Seq<char>) -> bool {
    suf.len() <= s.len() && s.skip(s.len() - suf.len()) == suf
}

/// Whether a file name is that of a pending journal.
pub open spec fn is_journal_name(name: Seq<char>) -> bool {
    has_prefix(name, ".ontixa-tx-"@) && has_suffix(name, ".journal"@)
}

/// Whether `s` starts with `pre`.
pub fn text_starts_with(s: &str, pre: &str) -> (r: bool)
    ensures
        r == has_prefix(s@, pre@),
{
    let n: usize = pre.unicode_len();
    if n > s.unicode_len() {
        return false;
    }
    let head = s.substring_char(0, n);
    proof {
        assert(s@.subrange(0, n as int) =~= s@.take(n as int));
    }
    same(head, pre)
}

/// Whether `s` ends with `suf`.
pub fn text_ends_with(s: &str, suf: &str) -> (r: bool)
    ensures
        r == has_suffix(s@, suf@),
{
    let n: usize = suf.unicode_len();
    let m: usize = s.unicode_len();
    if n > m {
        return false;
    }
    let tail = s.substring_char(m - n, m);
    proof {
        assert(s@.subrange(m - n, m as int) =~= s@.skip(m - n));
    }
    same(tail, suf)
}

/// Whether a file name is that of a pending journal:
/// `.ontixa-tx-*.journal`.
pub fn journal_name(name: &str) -> (r: bool)
    ensures
        r == is_journal_name(name@),
{
    text_starts_with(name, ".ontixa-tx-") && text_ends_with(name, ".journal")
}

/// The key that identifies an existing path: its canonical text
/// without the verbatim prefix.
pub open spec fn path_key_of(canonical: Seq<char>) -> Seq<char> {
    if has_prefix(canonical, "\\\\?\\"@) {
        canonical.skip(4)
    } else {
        canonical
    }
}

/// The key for deduplicating path spellings: the canonical text when
/// the path exists, without a `\\?\` verbatim prefix (it renders
/// badly in diagnostics), else the path as given.
pub fn path_key(canonical: Option<&str>, given: &str) -> (r: String)
    ensures
        r@ == match canonical {
            Some(c) => path_key_of(c@),
            None => given@,
        },
{
    match canonical {
        None => given.to_owned(),
        Some(c) => {
            proof {
                reveal_strlit("\\\\?\\");
            }
            if text_starts_with(c, "\\\\?\\") {
                let r = c.substring_char(4, c.unicode_len()).to_owned();
                proof {
                    assert(c@.subrange(4, c@.len() as int) =~= c@.skip(4));
                }
                r
            } else {
                c.to_owned()
            }
        },
    }
}

/// Whether a directory entry is a pending journal.
pub open spec fn is_journal(p: FsPathV) -> bool {
    match final_name(p) {
        Some(name) => is_journal_name(name),
        None => false,
    }
}

/// The pending journals among the first `k` entries of a directory.
pub open spec fn journals_of(entries: Seq<FsPathV>, k: int) -> Seq<FsPathV>
    decreases k,
{
    if k <= 0 {
        Seq::empty()
    } else if is_journal(entries[k - 1]) {
        journals_of(entries, k - 1).push(entries[k - 1])
    } else {
        journals_of(entries, k - 1)
    }
}

/// The pending journals among the entries of a directory.
pub fn pending_journals(entries: &Vec<FsPath>) -> (r: Vec<FsPath>)
    ensures
        fs_paths(r@) == journals_of(fs_paths(entries@), entries@.len() as int),
{
    let ghost all = fs_paths(entries@);
    let mut out: Vec<FsPath> = Vec::new();
    let mut i: usize = 0;
    proof {
        assert(fs_paths(out@) =~= Seq::empty());
    }
    while i < entries.len()
        invariant
            i <= entries@.len(),
            all == fs_paths(entries@),
            fs_paths(out@) == journals_of(all, i as int),
        decreases entries@.len() - i,
    {
        assert(all[i as int] == entries@[i as int]@);
        let pending = match entries[i].file_name() {
            Some(name) => journal_name(name),
            None => false,
        };
        if pending {
            let ghost before = fs_paths(out@);
            out.push(entries[i].copy());
            proof {
                assert(fs_paths(out@) =~= before.push(all[i as int]));
            }
        }
        i += 1;
    }
    out
}

} // verus!
