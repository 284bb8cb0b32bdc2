//! Maps and sets of numbers, on the hash tables of `rustc_hash`.

use rustc_hash::FxHashMap;
use vstd::prelude::*;

verus! {

#[verifier::external_type_specification]
#[verifier::external_body]
pub struct ExFxBuildHasher(rustc_hash::FxBuildHasher);

pub open spec fn no_entries() -> Map<u32, u32> {
    Map::empty()
}

/// `FxHashMap::default`: a table that holds nothing.
#[verifier::external_body]
fn empty_table() -> (m: FxHashMap<u32, u32>)
    ensures
        m@ == no_entries(),
{
    FxHashMap::default()
}

/// `HashMap::get` of a table hashed by `FxBuildHasher`: what the table holds
/// under the key, if anything.
#[verifier::external_body]
fn table_get(m: &FxHashMap<u32, u32>, key: u32) -> (r: Option<u32>)
    ensures
        r == if m@.dom().contains(key) {
            Some(m@[key])
        } else {
            None
        },
{
    m.get(&key).copied()
}

/// `HashMap::insert` of a table hashed by `FxBuildHasher`: the table holds the
/// value under the key, in place of what it held there.
#[verifier::external_body]
fn table_insert(m: &mut FxHashMap<u32, u32>, key: u32, value: u32)
    ensures
        final(m)@ == old(m)@.insert(key, value),
{
    m.insert(key, value);
}

/// What a number maps to.
pub struct IdMap {
    table: FxHashMap<u32, u32>,
}

/// The entry of a map under a key, if it has one.
pub open spec fn found(m: Map<u32, u32>, key: u32) -> Option<u32> {
    if m.dom().contains(key) {
        Some(m[key])
    } else {
        None
    }
}

/// What a number becomes: its entry, or itself where it has none.
pub open spec fn renamed(m: Map<u32, u32>, key: u32) -> u32 {
    if m.dom().contains(key) {
        m[key]
    } else {
        key
    }
}

impl IdMap {
    pub closed spec fn view(&self) -> Map<u32, u32> {
        self.table@
    }

    pub fn new() -> (r: IdMap)
        ensures
            r@ == no_entries(),
    {
        IdMap { table: empty_table() }
    }

    pub fn get(&self, key: u32) -> (r: Option<u32>)
        ensures
            r == found(self@, key),
    {
        table_get(&self.table, key)
    }

    pub fn has_key(&self, key: u32) -> (r: bool)
        ensures
            r == self@.dom().contains(key),
    {
        self.get(key).is_some()
    }

    pub fn insert(&mut self, key: u32, value: u32)
        ensures
            final(self)@ == old(self)@.insert(key, value),
    {
        table_insert(&mut self.table, key, value)
    }

    /// The number the map turns this one into.
    pub fn rename(&self, key: u32) -> (r: u32)
        ensures
            r == renamed(self@, key),
    {
        match self.get(key) {
            Some(v) => v,
            None => key,
        }
    }
}

/// A set of numbers.
pub struct IdSet {
    marks: IdMap,
}

impl IdSet {
    pub closed spec fn view(&self) -> Set<u32> {
        self.marks@.dom()
    }

    pub fn new() -> (r: IdSet)
        ensures
            r@ == Set::<u32>::empty(),
    {
        IdSet { marks: IdMap::new() }
    }

    pub fn contains(&self, id: u32) -> (r: bool)
        ensures
            r == self@.contains(id),
    {
        self.marks.has_key(id)
    }

    pub fn insert(&mut self, id: u32)
        ensures
            final(self)@ == old(self)@.insert(id),
    {
        self.marks.insert(id, 0);
        assert(self@ =~= old(self)@.insert(id));
    }
}

} // verus!
