//! Maps from ids, and from keys of four ids, to ids, on `rustc_hash`'s
//! hash map.

use rustc_hash::FxHashMap;
use vstd::prelude::*;

verus! {

/// `rustc_hash::FxBuildHasher`, the hasher of the maps below.
#[verifier::external_type_specification]
#[verifier::external_body]
pub struct ExFxBuildHasher(rustc_hash::FxBuildHasher);

/// A key of four ids.
pub type Key = (usize, usize, usize, usize);

/// The entries a map holds.
pub uninterp spec fn fx_entries(m: FxHashMap<Key, usize>) -> Map<Key, usize>;

/// `FxHashMap::default`: a map that holds nothing.
#[verifier::external_body]
fn fx_new() -> (m: FxHashMap<Key, usize>)
    ensures
        (fx_entries(m) == Map::<Key, usize>::empty()),
{
    FxHashMap::default()
}

/// `FxHashMap::insert`: the key holds the value afterwards, every other
/// key holds what it held; the value the key held before comes back.
#[verifier::external_body]
fn fx_insert(m: &mut FxHashMap<Key, usize>, key: Key, value: usize) -> (r: Option<usize>)
    ensures
        fx_entries(*final(m)) == fx_entries(*old(m)).insert(key, value),
        r == (if fx_entries(*old(m)).contains_key(key) {
            Some(fx_entries(*old(m))[key])
        } else {
            None
        }),
{
    m.insert(key, value)
}

/// `FxHashMap::get`: the value the key holds, if any.
#[verifier::external_body]
fn fx_get(m: &FxHashMap<Key, usize>, key: Key) -> (r: Option<usize>)
    ensures
        r == (if fx_entries(*m).contains_key(key) {
            Some(fx_entries(*m)[key])
        } else {
            None
        }),
{
    m.get(&key).copied()
}

/// `==` of two `FxHashMap`s: they are equal when they hold the same keys
/// with the same values.
#[verifier::external_body]
fn fx_eq(a: &FxHashMap<Key, usize>, b: &FxHashMap<Key, usize>) -> (r: bool)
    ensures
        r == (fx_entries(*a) == fx_entries(*b)),
{
    a == b
}

/// A map from keys of four ids to ids.
pub struct KeyMap {
    map: FxHashMap<Key, usize>,
}

impl KeyMap {
    /// The entries.
    pub closed spec fn view(&self) -> Map<Key, usize> {
        fx_entries(self.map)
    }

    /// A map that holds nothing.
    pub fn new() -> (r: KeyMap)
        ensures
            r@ == Map::<Key, usize>::empty(),
    {
        KeyMap { map: fx_new() }
    }

    /// Binds `key` to `value`; what `key` was bound to comes back.
    pub fn insert(&mut self, key: Key, value: usize) -> (r: Option<usize>)
        ensures
            final(self)@ == old(self)@.insert(key, value),
            r == (if old(self)@.contains_key(key) {
                Some(old(self)@[key])
            } else {
                None
            }),
    {
        fx_insert(&mut self.map, key, value)
    }

    /// What `key` is bound to.
    pub fn get(&self, key: Key) -> (r: Option<usize>)
        ensures
            r == (if self@.contains_key(key) {
                Some(self@[key])
            } else {
                None
            }),
    {
        fx_get(&self.map, key)
    }

    /// Whether two maps hold the same.
    pub fn same(&self, other: &KeyMap) -> (r: bool)
        ensures
            r == (self@ == other@),
    {
        fx_eq(&self.map, &other.map)
    }
}

/// The value `key` holds in `m`, if any.
pub open spec fn entry(m: Map<usize, usize>, key: usize) -> Option<usize> {
    if m.contains_key(key) {
        Some(m[key])
    } else {
        None
    }
}

/// The key that stands for a single id.
pub open spec fn single(id: usize) -> Key {
    (id, 0, 0, 0)
}

/// A map from ids to ids.
pub struct IdMap {
    map: KeyMap,
}

impl IdMap {
    /// Every key stands for a single id.
    #[verifier::type_invariant]
    spec fn keys_are_single(self) -> bool {
        forall|k: Key| #[trigger] self.map@.contains_key(k) ==> k == single(k.0)
    }

    /// The entries.
    pub closed spec fn view(&self) -> Map<usize, usize> {
        Map::new(|k: usize| self.map@.contains_key(single(k)), |k: usize| self.map@[single(k)])
    }

    /// A map that holds nothing.
    pub fn new() -> (r: IdMap)
        ensures
            r@ == Map::<usize, usize>::empty(),
    {
        let r = IdMap { map: KeyMap::new() };
        assert(r@ =~= Map::<usize, usize>::empty());
        r
    }

    /// Binds `key` to `value`; what `key` was bound to comes back.
    pub fn insert(&mut self, key: usize, value: usize) -> (r: Option<usize>)
        ensures
            final(self)@ == old(self)@.insert(key, value),
            r == entry(old(self)@, key),
    {
        proof {
            use_type_invariant(&*self);
        }
        let mut map = KeyMap::new();
        std::mem::swap(&mut map, &mut self.map);
        let r = map.insert((key, 0, 0, 0), value);
        self.map = map;
        assert(self@ =~= old(self)@.insert(key, value));
        r
    }

    /// Whether two maps hold the same.
    pub fn same(&self, other: &IdMap) -> (r: bool)
        ensures
            r == (self@ == other@),
    {
        let r = self.map.same(&other.map);
        proof {
            use_type_invariant(self);
            use_type_invariant(other);
            if self@ == other@ {
                assert forall|k: Key| self.map@.contains_key(k) == other.map@.contains_key(k)
                    by {
                    assert(self@.contains_key(k.0) == other@.contains_key(k.0));
                    if self.map@.contains_key(k) {
                        assert(k == single(k.0));
                    }
                    if other.map@.contains_key(k) {
                        assert(k == single(k.0));
                    }
                }
                assert forall|k: Key| #[trigger] self.map@.contains_key(k) implies self.map@[k]
                    == other.map@[k] by {
                    assert(k == single(k.0));
                    assert(self@[k.0] == other@[k.0]);
                }
                assert(self.map@ =~= other.map@);
            }
        }
        r
    }

    /// What `key` is bound to.
    pub fn get(&self, key: usize) -> (r: Option<usize>)
        ensures
            r == entry(self@, key),
    {
        self.map.get((key, 0, 0, 0))
    }

    /// Whether `key` is bound.
    pub fn contains_key(&self, key: usize) -> (r: bool)
        ensures
            r == self@.contains_key(key),
    {
        self.get(key).is_some()
    }
}

} // verus!
