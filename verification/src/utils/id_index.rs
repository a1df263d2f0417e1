//! Which place a numbered item has in the order in which items came.

use indexmap::IndexMap;
use vstd::prelude::*;

verus! {

/// The insertion-ordered map of the `indexmap` crate, seen from outside.
#[verifier::external_type_specification]
#[verifier::external_body]
#[verifier::reject_recursive_types(K)]
#[verifier::reject_recursive_types(V)]
#[verifier::reject_recursive_types(S)]
pub struct ExIndexMap<K, V, S>(indexmap::IndexMap<K, V, S>);

/// The keys that a map holds, in its order.
pub uninterp spec fn map_keys(m: IndexMap<usize, ()>) -> Seq<usize>;

/// `IndexMap::new`: a map without keys.
#[verifier::external_body]
fn map_new() -> (m: IndexMap<usize, ()>)
    ensures
        map_keys(m) == Seq::<usize>::empty(),
{
    IndexMap::new()
}

/// `IndexMap::insert`: a new key comes last; a key that is there keeps its place.
#[verifier::external_body]
fn map_insert(m: &mut IndexMap<usize, ()>, key: usize)
    ensures
        map_keys(*final(m)) == if map_keys(*old(m)).contains(key) {
            map_keys(*old(m))
        } else {
            map_keys(*old(m)).push(key)
        },
{
    m.insert(key, ());
}

/// `IndexMap::get_index_of`: a place at which the key stands, and nothing only if
/// it is not there.
#[verifier::external_body]
fn map_index_of(m: &IndexMap<usize, ()>, key: usize) -> (r: Option<usize>)
    ensures
        match r {
            Some(i) => i < map_keys(*m).len() && map_keys(*m)[i as int] == key,
            None => !map_keys(*m).contains(key),
        },
{
    m.get_index_of(&key)
}

/// `IndexMap::get_index`: the key at a place.
#[verifier::external_body]
fn map_at(m: &IndexMap<usize, ()>, i: usize) -> (r: Option<usize>)
    ensures
        r == if i < map_keys(*m).len() {
            Some(map_keys(*m)[i as int])
        } else {
            None
        },
{
    m.get_index(i).map(|entry| *entry.0)
}

/// `IndexMap::shift_remove_index`: the key at a place leaves, and those behind it
/// move up; past the end nothing changes.
#[verifier::external_body]
fn map_remove_at(m: &mut IndexMap<usize, ()>, i: usize)
    ensures
        map_keys(*final(m)) == if i < map_keys(*old(m)).len() {
            map_keys(*old(m)).remove(i as int)
        } else {
            map_keys(*old(m))
        },
{
    m.shift_remove_index(i);
}

/// The order of a set of distinct ids.
pub struct IdIndex {
    keys: IndexMap<usize, ()>,
}

impl View for IdIndex {
    type V = Seq<usize>;

    closed spec fn view(&self) -> Seq<usize> {
        map_keys(self.keys)
    }
}

impl IdIndex {
    #[verifier::type_invariant]
    spec fn distinct(self) -> bool {
        map_keys(self.keys).no_duplicates()
    }

    /// An index without ids.
    pub fn new() -> (r: Self)
        ensures
            r@ == Seq::<usize>::empty(),
    {
        IdIndex { keys: map_new() }
    }

    /// The place of an id.
    pub fn position(&self, id: usize) -> (r: Option<usize>)
        ensures
            self@.no_duplicates(),
            match r {
                Some(i) => i < self@.len() && self@[i as int] == id,
                None => !self@.contains(id),
            },
    {
        proof {
            use_type_invariant(self);
        }
        map_index_of(&self.keys, id)
    }

    /// Puts an id last; one that is there stays where it is.
    pub fn insert(&mut self, id: usize)
        ensures
            final(self)@ == if old(self)@.contains(id) {
                old(self)@
            } else {
                old(self)@.push(id)
            },
            final(self)@.no_duplicates(),
    {
        proof {
            use_type_invariant(&*self);
        }
        let mut keys = map_new();
        std::mem::swap(&mut keys, &mut self.keys);
        map_insert(&mut keys, id);
        self.keys = keys;
    }

    /// The id at a place.
    pub fn at(&self, i: usize) -> (r: usize)
        requires
            i < self@.len(),
        ensures
            r == self@[i as int],
    {
        match map_at(&self.keys, i) {
            Some(id) => id,
            None => i,
        }
    }

    /// Takes out the id at a place, if there is one there.
    pub fn remove_at(&mut self, i: usize)
        ensures
            final(self)@ == if i < old(self)@.len() {
                old(self)@.remove(i as int)
            } else {
                old(self)@
            },
            final(self)@.no_duplicates(),
    {
        proof {
            use_type_invariant(&*self);
        }
        let mut keys = map_new();
        std::mem::swap(&mut keys, &mut self.keys);
        map_remove_at(&mut keys, i);
        self.keys = keys;
    }
}

} // verus!
