//! Source positions, identifiers of the compiler's tables, and the
//! name interner.

use crate::text::{same, texts};
use vstd::prelude::*;

verus! {

/// A half-open byte range in one source file.
#[derive(Clone, Copy, Debug, PartialEq, Eq, Structural)]
pub struct Span {
    /// First byte.
    pub start: u32,
    /// One past the last byte.
    pub end: u32,
}

/// `a + b`, clamped to the largest position.
pub open spec fn pos_plus(a: u32, b: u32) -> u32 {
    if a + b > u32::MAX {
        u32::MAX
    } else {
        (a + b) as u32
    }
}

/// `a - b`, clamped to zero.
pub open spec fn pos_minus(a: u32, b: u32) -> u32 {
    if a < b {
        0
    } else {
        (a - b) as u32
    }
}

/// `s` moved left by `base`: absolute to item-relative.
pub open spec fn span_rel(s: Span, base: u32) -> Span {
    Span { start: pos_minus(s.start, base), end: pos_minus(s.end, base) }
}

/// `s` moved right by `base`: item-relative to absolute.
pub open spec fn span_abs(s: Span, base: u32) -> Span {
    Span { start: pos_plus(s.start, base), end: pos_plus(s.end, base) }
}

/// The smallest span that covers `a` and `b`.
pub open spec fn span_cover(a: Span, b: Span) -> Span {
    Span {
        start: if a.start <= b.start {
            a.start
        } else {
            b.start
        },
        end: if a.end >= b.end {
            a.end
        } else {
            b.end
        },
    }
}

/// Moving a span to item-relative coordinates and back is the
/// identity, for every span that starts at or after the item.
pub proof fn law_rel_abs_round_trip(s: Span, base: u32)
    requires
        base <= s.start <= s.end,
    ensures
        span_abs(span_rel(s, base), base) == s,
{
}

impl Span {
    /// The span `start..end`.
    pub fn new(start: u32, end: u32) -> (s: Span)
        ensures
            s == (Span { start, end }),
    {
        Span { start, end }
    }

    /// The empty span at `at`.
    pub fn empty(at: u32) -> (s: Span)
        ensures
            s == (Span { start: at, end: at }),
    {
        Span { start: at, end: at }
    }

    /// The span in coordinates relative to `base`.
    pub fn rel(self, base: u32) -> (s: Span)
        ensures
            s == span_rel(self, base),
    {
        Span { start: self.start.saturating_sub(base), end: self.end.saturating_sub(base) }
    }

    /// The span in file coordinates, from coordinates relative to
    /// `base`.
    pub fn abs(self, base: u32) -> (s: Span)
        ensures
            s == span_abs(self, base),
    {
        Span { start: self.start.saturating_add(base), end: self.end.saturating_add(base) }
    }

    /// The smallest span that covers both.
    pub fn covering(self, other: Span) -> (s: Span)
        ensures
            s == span_cover(self, other),
    {
        Span {
            start: if self.start <= other.start {
                self.start
            } else {
                other.start
            },
            end: if self.end >= other.end {
                self.end
            } else {
                other.end
            },
        }
    }
}

/// A source file, by its registration index.
#[derive(Clone, Copy, Debug, PartialEq, Eq, PartialOrd, Ord, Hash, Structural)]
pub struct FileId {
    /// The registration index.
    pub raw: usize,
}

impl FileId {
    /// The file registered at `index`.
    pub fn new(index: usize) -> (r: FileId)
        ensures
            r.raw == index,
    {
        FileId { raw: index }
    }

    /// The registration index.
    pub fn index(self) -> (r: usize)
        ensures
            r == self.raw,
    {
        self.raw
    }
}

/// A top-level definition, by its index in the workspace scope.
#[derive(Clone, Copy, Debug, PartialEq, Eq, PartialOrd, Ord, Hash, Structural)]
pub struct DefId {
    /// The index in the scope's definition table.
    pub raw: usize,
}

impl DefId {
    /// The definition at `index`.
    pub fn new(index: usize) -> (r: DefId)
        ensures
            r.raw == index,
    {
        DefId { raw: index }
    }

    /// The index in the scope's definition table.
    pub fn index(self) -> (r: usize)
        ensures
            r == self.raw,
    {
        self.raw
    }
}

/// An expression, by its index in its body's arena.
#[derive(Clone, Copy, Debug, PartialEq, Eq, Hash, Structural)]
pub struct ExprId {
    /// The index in the arena.
    pub raw: usize,
}

/// An interned name.
#[derive(Clone, Copy, Debug, PartialEq, Eq, Hash, Structural)]
pub struct InternId {
    /// The index in the interner.
    pub raw: usize,
}

/// A symbol: an entry of the workspace table, or of one body's own
/// table. A body-local id means nothing outside its body.
#[derive(Clone, Copy, Debug, PartialEq, Eq, Hash, Structural)]
pub enum SymbolId {
    /// Index in the workspace symbol table.
    Module(usize),
    /// Index in the owning body's symbol table.
    Local(usize),
}

impl SymbolId {
    /// The body-local symbol at `index`.
    pub fn local(index: usize) -> (r: SymbolId)
        ensures
            r == SymbolId::Local(index),
    {
        SymbolId::Local(index)
    }

    /// Whether the id indexes a body's own table.
    pub fn is_local(self) -> (r: bool)
        ensures
            r == (self is Local),
    {
        match self {
            SymbolId::Local(_) => true,
            SymbolId::Module(_) => false,
        }
    }
}

/// A table of distinct names. The id of a name is its position, in
/// order of first interning.
pub struct Interner {
    names: Vec<String>,
}

/// The position of `name` in `names`, if it occurs.
pub open spec fn position(names: Seq<Seq<char>>, name: Seq<char>) -> Option<int>
    decreases names.len(),
{
    if names.len() == 0 {
        None
    } else {
        match position(names.drop_last(), name) {
            Some(i) => Some(i),
            None => if names.last() == name {
                Some(names.len() - 1)
            } else {
                None
            },
        }
    }
}

/// The names after `name` was interned.
pub open spec fn interned(names: Seq<Seq<char>>, name: Seq<char>) -> Seq<Seq<char>> {
    match position(names, name) {
        Some(_) => names,
        None => names.push(name),
    }
}

/// The id `name` has once it is interned.
pub open spec fn intern_id(names: Seq<Seq<char>>, name: Seq<char>) -> InternId {
    match position(names, name) {
        Some(i) => InternId { raw: i as usize },
        None => InternId { raw: names.len() as usize },
    }
}

/// The id of an already interned `name`.
pub open spec fn lookup(names: Seq<Seq<char>>, name: Seq<char>) -> Option<InternId> {
    match position(names, name) {
        Some(i) => Some(InternId { raw: i as usize }),
        None => None,
    }
}

/// The first occurrence is found, and only an occurrence is found.
pub proof fn lemma_position(names: Seq<Seq<char>>, name: Seq<char>)
    ensures
        match position(names, name) {
            Some(i) => 0 <= i < names.len() && names[i] == name && forall|j: int|
                0 <= j < i ==> names[j] != name,
            None => forall|j: int| 0 <= j < names.len() ==> names[j] != name,
        },
    decreases names.len(),
{
    if names.len() > 0 {
        lemma_position(names.drop_last(), name);
        assert forall|j: int| 0 <= j < names.len() - 1 implies
        names[j] == names.drop_last()[j] by {}
    }
}

/// Interning a name twice gives the same id, and the id resolves to
/// the name.
pub proof fn law_intern_idempotent(names: Seq<Seq<char>>, name: Seq<char>)
    requires
        names.len() < usize::MAX,
    ensures
        interned(interned(names, name), name) == interned(names, name),
        intern_id(interned(names, name), name) == intern_id(names, name),
        interned(names, name)[intern_id(names, name).raw as int] == name,
{
    lemma_position(names, name);
    let after = interned(names, name);
    lemma_position(after, name);
    if position(names, name) is None {
        assert(after.drop_last() =~= names);
    }
}

/// Interning never changes the id of a name that was there before.
pub proof fn law_intern_stable(names: Seq<Seq<char>>, name: Seq<char>, other: Seq<char>)
    requires
        position(names, other) is Some,
    ensures
        position(interned(names, name), other) == position(names, other),
{
    if position(names, name) is None {
        assert(names.push(name).drop_last() =~= names);
    }
}

impl Interner {
    /// The interned names, in id order.
    pub closed spec fn view(&self) -> Seq<Seq<char>> {
        texts(self.names@)
    }

    /// An empty interner.
    pub fn new() -> (r: Interner)
        ensures
            r@ == Seq::<Seq<char>>::empty(),
    {
        let r = Interner { names: Vec::new() };
        proof {
            assert(r@ =~= Seq::<Seq<char>>::empty());
        }
        r
    }

    /// The id of `name`, when it is interned.
    pub fn get(&self, name: &str) -> (r: Option<InternId>)
        ensures
            r == lookup(self@, name@),
    {
        let mut i: usize = 0;
        while i < self.names.len()
            invariant
                i <= self.names@.len(),
                self@ == texts(self.names@),
                forall|j: int| 0 <= j < i ==> self@[j] != name@,
            decreases self.names@.len() - i,
        {
            if same(self.names[i].as_str(), name) {
                proof {
                    lemma_position(self@, name@);
                    assert(self@[i as int] == name@);
                }
                return Some(InternId { raw: i });
            }
            i += 1;
        }
        proof {
            lemma_position(self@, name@);
        }
        None
    }

    /// The id of `name`, interning it first when it is new.
    pub fn intern(&mut self, name: &str) -> (r: InternId)
        ensures
            r == intern_id(old(self)@, name@),
            final(self)@ == interned(old(self)@, name@),
    {
        match self.get(name) {
            Some(id) => id,
            None => {
                let ghost before = self@;
                let n: usize = self.names.len();
                self.names.push(name.to_owned());
                proof {
                    assert(self@ =~= before.push(name@));
                }
                InternId { raw: n }
            },
        }
    }

    /// The name behind `id`.
    pub fn resolve(&self, id: InternId) -> (r: &str)
        requires
            id.raw < self@.len(),
        ensures
            r@ == self@[id.raw as int],
    {
        self.names[id.raw].as_str()
    }

    /// The name behind `id`, or `?` for an id of another interner.
    pub fn name_or_unknown(&self, id: InternId) -> (r: &str)
        ensures
            r@ == name_of(self@, id),
    {
        if id.raw < self.names.len() {
            self.names[id.raw].as_str()
        } else {
            "?"
        }
    }
}

/// The name behind `id`, or `?` for an id of another interner.
pub open spec fn name_of(names: Seq<Seq<char>>, id: InternId) -> Seq<char> {
    if id.raw < names.len() {
        names[id.raw as int]
    } else {
        "?"@
    }
}

} // verus!
