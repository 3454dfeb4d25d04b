//! Which files make up a workspace: discovery of the files reachable
//! through `use` declarations, and the root each file is seen from.

use crate::ast::{use_decls, UseDecl, UseDeclV};
use crate::fxmap::{entry, IdMap};
use crate::source::{position, FileId};
use crate::text::{same, texts};
use vstd::prelude::*;

verus! {

/// The file that provides a module: the first registered under the name.
pub open spec fn provider_of(modules: Seq<Seq<char>>, name: Seq<char>) -> Option<FileId> {
    match position(modules, name) {
        Some(i) => Some(FileId { raw: i as usize }),
        None => None,
    }
}

proof fn lemma_position_stable(names: Seq<Seq<char>>, name: Seq<char>, n: int)
    requires
        0 <= n <= names.len(),
        position(names.take(n), name) is Some,
    ensures
        position(names, name) == position(names.take(n), name),
    decreases names.len() - n,
{
    if n < names.len() {
        assert(names.take(n + 1).drop_last() =~= names.take(n));
        lemma_position_stable(names, name, n + 1);
    } else {
        assert(names.take(n) =~= names);
    }
}

/// The file that provides a module.
pub fn provider_file(modules: &Vec<String>, name: &str) -> (r: Option<FileId>)
    ensures
        r == provider_of(texts(modules@), name@),
{
    let ghost all = texts(modules@);
    let mut i: usize = 0;
    proof {
        assert(all.take(0) =~= Seq::empty());
    }
    while i < modules.len()
        invariant
            i <= modules@.len(),
            all == texts(modules@),
            position(all.take(i as int), name@) is None,
        decreases modules@.len() - i,
    {
        proof {
            assert(all.take(i + 1).drop_last() =~= all.take(i as int));
            assert(all.take(i + 1).last() == modules@[i as int]@);
        }
        if same(modules[i].as_str(), name) {
            proof {
                lemma_position_stable(all, name@, i + 1);
            }
            return Some(FileId { raw: i });
        }
        i += 1;
    }
    proof {
        assert(all.take(all.len() as int) =~= all);
    }
    None
}

/// The file a `use` declaration in `f` reaches: the provider of its
/// first segment, unless that is `f` itself.
pub open spec fn reached(modules: Seq<Seq<char>>, f: FileId, u: UseDeclV) -> Option<FileId> {
    if u.path.segs.len() == 0 {
        None
    } else {
        match provider_of(modules, u.path.segs[0].name) {
            Some(d) => if d != f {
                Some(d)
            } else {
                None
            },
            None => None,
        }
    }
}

/// The discovery order after the `use` declarations of `f` were walked.
pub open spec fn with_uses(
    order: Seq<FileId>,
    modules: Seq<Seq<char>>,
    f: FileId,
    uses: Seq<UseDeclV>,
) -> Seq<FileId>
    decreases uses.len(),
{
    if uses.len() == 0 {
        order
    } else {
        let front = with_uses(order, modules, f, uses.drop_last());
        match reached(modules, f, uses.last()) {
            Some(d) => if front.contains(d) {
                front
            } else {
                front.push(d)
            },
            None => front,
        }
    }
}

/// Breadth-first discovery over `use` declarations, the root first. The
/// order of the files is part of a scope's determinism.
pub struct Discovery {
    order: Vec<FileId>,
    head: usize,
}

/// Model of [`Discovery`].
#[verifier::ext_equal]
pub struct DiscoveryV {
    pub order: Seq<FileId>,
    pub head: nat,
}

/// A discovery after the next file was visited.
pub open spec fn visited(d: DiscoveryV, modules: Seq<Seq<char>>, uses: Seq<UseDeclV>) -> DiscoveryV {
    DiscoveryV {
        order: with_uses(d.order, modules, d.order[d.head as int], uses),
        head: d.head + 1,
    }
}

impl Discovery {
    /// The model of this discovery.
    pub closed spec fn view(&self) -> DiscoveryV {
        DiscoveryV { order: self.order@, head: self.head as nat }
    }

    /// A discovery that has found the root only.
    pub fn new(root: FileId) -> (r: Discovery)
        ensures
            r@ == (DiscoveryV { order: seq![root], head: 0 }),
    {
        let mut order: Vec<FileId> = Vec::new();
        order.push(root);
        proof {
            assert(order@ =~= seq![root]);
        }
        Discovery { order, head: 0 }
    }

    /// The next file to visit.
    pub fn next_file(&self) -> (r: Option<FileId>)
        ensures
            r == (if self@.head < self@.order.len() {
                Some(self@.order[self@.head as int])
            } else {
                None
            }),
    {
        if self.head < self.order.len() {
            Some(self.order[self.head])
        } else {
            None
        }
    }

    /// The files found, in discovery order.
    pub fn files(&self) -> (r: &Vec<FileId>)
        ensures
            r@ == self@.order,
    {
        &self.order
    }

    fn knows(&self, f: FileId) -> (r: bool)
        ensures
            r == self.order@.contains(f),
    {
        let mut i: usize = 0;
        while i < self.order.len()
            invariant
                i <= self.order@.len(),
                forall|j: int| 0 <= j < i ==> self.order@[j] != f,
            decreases self.order@.len() - i,
        {
            if self.order[i] == f {
                return true;
            }
            i += 1;
        }
        false
    }

    /// Visits the next file: walks its `use` declarations.
    pub fn visit(&mut self, modules: &Vec<String>, uses: &Vec<UseDecl>)
        requires
            old(self)@.head < old(self)@.order.len(),
        ensures
            final(self)@ == visited(old(self)@, texts(modules@), use_decls(uses@)),
    {
        let f = self.order[self.head];
        let ghost all = use_decls(uses@);
        let ghost start = self.order@;
        let mut i: usize = 0;
        proof {
            assert(all.take(0) =~= Seq::empty());
        }
        while i < uses.len()
            invariant
                i <= uses@.len(),
                all == use_decls(uses@),
                self.head == old(self).head,
                self.order@ == with_uses(start, texts(modules@), f, all.take(i as int)),
            decreases uses@.len() - i,
        {
            proof {
                assert(all.take(i + 1).drop_last() =~= all.take(i as int));
                assert(all.take(i + 1).last() == uses@[i as int]@);
            }
            if uses[i].path.segs.len() > 0 {
                assert(uses@[i as int]@.path.segs[0] == uses@[i as int].path.segs@[0]@);
                if let Some(d) = provider_file(modules, uses[i].path.segs[0].name.as_str()) {
                    if d != f && !self.knows(d) {
                        self.order.push(d);
                    }
                }
            }
            i += 1;
        }
        proof {
            assert(all.take(all.len() as int) =~= all);
            lemma_with_uses(start, texts(modules@), f, all);
        }
        assert(self.head < start.len() <= self.order@.len());
        assert(self.order@.len() == self.order.len());
        self.head = self.head + 1;
    }
}

/// Whether no file occurs twice.
pub open spec fn distinct(order: Seq<FileId>) -> bool {
    forall|i: int, j: int|
        0 <= i < j < order.len() ==> #[trigger] order[i] != #[trigger] order[j]
}

proof fn lemma_with_uses(
    order: Seq<FileId>,
    modules: Seq<Seq<char>>,
    f: FileId,
    uses: Seq<UseDeclV>,
)
    ensures
        order.len() <= with_uses(order, modules, f, uses).len(),
        forall|i: int|
            0 <= i < order.len() ==> #[trigger] with_uses(order, modules, f, uses)[i] == order[i],
        distinct(order) ==> distinct(with_uses(order, modules, f, uses)),
        forall|i: int|
            0 <= i < uses.len() && reached(modules, f, #[trigger] uses[i]) is Some ==> with_uses(
                order,
                modules,
                f,
                uses,
            ).contains(reached(modules, f, uses[i])->0),
    decreases uses.len(),
{
    if uses.len() > 0 {
        let last = uses.last();
        lemma_with_uses(order, modules, f, uses.drop_last());
        let front = with_uses(order, modules, f, uses.drop_last());
        let out = with_uses(order, modules, f, uses);
        assert forall|x: FileId| #[trigger] front.contains(x) implies out.contains(x) by {
            let k = choose|k: int| 0 <= k < front.len() && front[k] == x;
            assert(out[k] == x);
        }
        if let Some(d) = reached(modules, f, last) {
            if !front.contains(d) {
                assert(out[out.len() - 1] == d);
            }
            assert(out.contains(d));
        }
        assert forall|i: int|
            0 <= i < uses.len() && reached(modules, f, #[trigger] uses[i]) is Some implies
            out.contains(reached(modules, f, uses[i])->0) by {
            if i < uses.len() - 1 {
                assert(uses.drop_last()[i] == uses[i]);
            }
        }
    }
}

/// Discovery finds every file once, keeps what it found in place, and
/// finds whatever the visited file reaches.
pub proof fn law_visit_discovers(d: DiscoveryV, modules: Seq<Seq<char>>, uses: Seq<UseDeclV>)
    requires
        distinct(d.order),
        d.head < d.order.len(),
    ensures
        distinct(visited(d, modules, uses).order),
        d.order.len() <= visited(d, modules, uses).order.len(),
        forall|i: int|
            0 <= i < d.order.len() ==> #[trigger] visited(d, modules, uses).order[i] == d.order[i],
        forall|i: int|
            0 <= i < uses.len() && reached(
                modules,
                d.order[d.head as int],
                #[trigger] uses[i],
            ) is Some ==> visited(d, modules, uses).order.contains(
                reached(modules, d.order[d.head as int], uses[i])->0,
            ),
{
    lemma_with_uses(d.order, modules, d.order[d.head as int], uses);
}

// ---------- roots ----------

/// The workspace a file is seen from; a file nobody claimed is its own
/// root.
pub open spec fn root_in(roots: Map<usize, usize>, f: FileId) -> FileId {
    match entry(roots, f.raw) {
        Some(r) => FileId { raw: r },
        None => f,
    }
}

/// The roots after a workspace claimed its files.
pub open spec fn claimed(roots: Map<usize, usize>, root: FileId, files: Seq<FileId>) -> Map<
    usize,
    usize,
>
    decreases files.len(),
{
    if files.len() == 0 {
        roots
    } else {
        claimed(roots, root, files.drop_last()).insert(files.last().raw, root.raw)
    }
}

/// The roots at the start of a top-level demand of `root`: the demanded
/// file roots its own workspace, and reclaims the files its scope
/// reached before.
pub open spec fn rerooted(roots: Map<usize, usize>, root: FileId, files: Seq<FileId>) -> Map<
    usize,
    usize,
> {
    claimed(roots.insert(root.raw, root.raw), root, files)
}

/// The workspace root per file.
pub struct Roots {
    map: IdMap,
}

impl Roots {
    /// The roots that were claimed.
    pub closed spec fn view(&self) -> Map<usize, usize> {
        self.map@
    }

    /// No file is claimed.
    pub fn new() -> (r: Roots)
        ensures
            r@ == Map::<usize, usize>::empty(),
    {
        Roots { map: IdMap::new() }
    }

    /// The workspace root a file belongs to.
    pub fn root_of(&self, f: FileId) -> (r: FileId)
        ensures
            r == root_in(self@, f),
    {
        match self.map.get(f.raw) {
            Some(r) => FileId { raw: r },
            None => f,
        }
    }

    /// Records the files of a workspace.
    pub fn claim(&mut self, root: FileId, files: &Vec<FileId>)
        ensures
            final(self)@ == claimed(old(self)@, root, files@),
    {
        let ghost start = self@;
        let mut i: usize = 0;
        proof {
            assert(files@.take(0) =~= Seq::empty());
        }
        while i < files.len()
            invariant
                i <= files@.len(),
                self@ == claimed(start, root, files@.take(i as int)),
            decreases files@.len() - i,
        {
            proof {
                assert(files@.take(i + 1).drop_last() =~= files@.take(i as int));
            }
            self.map.insert(files[i].raw, root.raw);
            i += 1;
        }
        proof {
            assert(files@.take(files@.len() as int) =~= files@);
        }
    }

    /// Roots a demanded file at itself and reclaims the files of its
    /// memoized scope.
    pub fn reroot(&mut self, root: FileId, files: &Vec<FileId>)
        ensures
            final(self)@ == rerooted(old(self)@, root, files@),
    {
        self.map.insert(root.raw, root.raw);
        self.claim(root, files);
    }
}

/// A demand sees its own file and the files of its scope from the
/// demanded root, and every other file from where it was seen before.
pub proof fn law_demand_owns_its_files(
    roots: Map<usize, usize>,
    root: FileId,
    files: Seq<FileId>,
    f: FileId,
)
    ensures
        f == root || files.contains(f) ==> root_in(rerooted(roots, root, files), f) == root,
        f != root && !files.contains(f) ==> root_in(rerooted(roots, root, files), f) == root_in(
            roots,
            f,
        ),
    decreases files.len(),
{
    if files.len() > 0 {
        let front = files.drop_last();
        law_demand_owns_its_files(roots, root, front, f);
        if files.contains(f) && f != files.last() {
            let k = choose|k: int| 0 <= k < files.len() && files[k] == f;
            assert(front[k] == f);
        }
        if front.contains(f) {
            let k = choose|k: int| 0 <= k < front.len() && front[k] == f;
            assert(files[k] == f);
        }
        assert(files.last() == files[files.len() - 1]);
    }
}

} // verus!
