//! Declarations by id, in the order in which they were made.
use crate::ir::{
    distinct_keys, has_key, key_from, key_index, lemma_distinct_push, Identified, Named,
};
use crate::text::{lemma_views_update, opt_int, views};
use indexmap::IndexMap;
use std::collections::hash_map::RandomState;
use vstd::prelude::*;

verus! {

impl<V> Named for (Seq<char>, V) {
    open spec fn key(self) -> Seq<char> {
        self.0
    }
}

// ---------------------------------------------------------------------------
// Trusted: the insertion-ordered map of the indexmap crate
// ---------------------------------------------------------------------------

/// Trusted: the type `indexmap::IndexMap`.
#[verifier::external_type_specification]
#[verifier::external_body]
#[verifier::reject_recursive_types(K)]
#[verifier::reject_recursive_types(V)]
#[verifier::reject_recursive_types(S)]
pub struct ExIndexMap<K, V, S>(IndexMap<K, V, S>);

/// The entries of the map, in the map's order.
pub uninterp spec fn map_entries(m: IndexMap<String, usize, RandomState>) -> Seq<
    (Seq<char>, usize),
>;

/// The entries after `v` was inserted for `k`: a key that is there keeps its
/// place, a new one comes last.
pub open spec fn put(s: Seq<(Seq<char>, usize)>, k: Seq<char>, v: usize) -> Seq<
    (Seq<char>, usize),
> {
    match key_index(s, k) {
        Some(i) => s.update(i, (s[i].0, v)),
        None => s.push((k, v)),
    }
}

/// Trusted: `IndexMap::new` makes an empty map.
#[verifier::external_body]
fn map_new() -> (r: IndexMap<String, usize, RandomState>)
    ensures
        map_entries(r) == Seq::<(Seq<char>, usize)>::empty(),
{
    IndexMap::new()
}

/// Trusted: `IndexMap::get` finds the value of the entry whose key is equal to
/// `k`, if there is one.
#[verifier::external_body]
fn map_get(m: &IndexMap<String, usize, RandomState>, k: &String) -> (r: Option<usize>)
    ensures
        r == match key_index(map_entries(*m), k@) {
            Some(i) => Some(map_entries(*m)[i].1),
            None => None,
        },
{
    m.get(k).copied()
}

/// Trusted: `IndexMap::insert` replaces the value of the entry whose key is
/// equal to `k` in its place, or adds an entry at the end.
#[verifier::external_body]
fn map_insert(m: &mut IndexMap<String, usize, RandomState>, k: String, v: usize)
    ensures
        map_entries(*final(m)) == put(map_entries(*old(m)), k@, v),
{
    m.insert(k, v);
}

/// Trusted: `IndexMap::get_index` hands out the entry at place `i` of the order.
#[verifier::external_body]
fn map_key(m: &IndexMap<String, usize, RandomState>, i: usize) -> (r: Option<&String>)
    ensures
        match r {
            Some(k) => i < map_entries(*m).len() && k@ == map_entries(*m)[i as int].0,
            None => i >= map_entries(*m).len(),
        },
{
    m.get_index(i).map(|e| e.0)
}

// ---------------------------------------------------------------------------
// The table
// ---------------------------------------------------------------------------

/// Values by id, in the order in which the ids were first declared.
pub struct Table<T> {
    places: IndexMap<String, usize, RandomState>,
    values: Vec<T>,
}

impl<T: View> View for Table<T> {
    type V = Seq<(Seq<char>, T::V)>;

    closed spec fn view(&self) -> Seq<(Seq<char>, T::V)> {
        Seq::new(
            self.values@.len(),
            |i: int| (map_entries(self.places)[i].0, self.values@[i]@),
        )
    }
}

/// The first place with the key `k` is the same in two lists with the same keys.
proof fn lemma_same_keys<M: Named, N: Named>(s: Seq<M>, t: Seq<N>, k: Seq<char>, i: int)
    requires
        s.len() == t.len(),
        forall|j: int| 0 <= j < s.len() ==> s[j].key() == (#[trigger] t[j]).key(),
        0 <= i <= s.len(),
    ensures
        key_from(s, k, i) == key_from(t, k, i),
    decreases s.len() - i,
{
    if i < s.len() {
        assert(s[i].key() == t[i].key());
        lemma_same_keys(s, t, k, i + 1);
    }
}

impl<T: View> Table<T> {
    /// The map sends each id to the place of its value.
    pub closed spec fn wf(&self) -> bool {
        &&& map_entries(self.places).len() == self.values@.len()
        &&& forall|i: int|
            0 <= i < self.values@.len() ==> (#[trigger] map_entries(self.places)[i]).1 == i
        &&& distinct_keys(self@)
    }

    /// No id has two places.
    pub proof fn lemma_distinct(&self)
        requires
            self.wf(),
        ensures
            distinct_keys(self@),
    {
    }

    /// An empty table.
    pub fn new() -> (r: Self)
        ensures
            r.wf(),
            r@ == Seq::<(Seq<char>, T::V)>::empty(),
    {
        let r = Table { places: map_new(), values: Vec::new() };
        assert(r@ =~= Seq::<(Seq<char>, T::V)>::empty());
        r
    }

    /// The number of entries.
    pub fn len(&self) -> (r: usize)
        requires
            self.wf(),
        ensures
            r == self@.len(),
    {
        self.values.len()
    }

    /// The place of `id`.
    pub fn find(&self, id: &String) -> (r: Option<usize>)
        requires
            self.wf(),
        ensures
            opt_int(r) == key_index(self@, id@),
            r matches Some(i) ==> i < self@.len() && self@[i as int].0 == id@,
    {
        proof {
            lemma_same_keys(self@, map_entries(self.places), id@, 0);
            crate::ir::lemma_key_from(self@, id@, 0);
        }
        map_get(&self.places, id)
    }

    /// The id at place `i`.
    pub fn id_at(&self, i: usize) -> (r: &String)
        requires
            self.wf(),
            i < self@.len(),
        ensures
            r@ == self@[i as int].0,
    {
        map_key(&self.places, i).unwrap()
    }

    /// The value at place `i`.
    pub fn value_at(&self, i: usize) -> (r: &T)
        requires
            self.wf(),
            i < self@.len(),
        ensures
            r@ == self@[i as int].1,
    {
        &self.values[i]
    }

    /// Adds a new id.
    pub fn add_new(&mut self, id: String, value: T)
        requires
            old(self).wf(),
            !has_key(old(self)@, id@),
        ensures
            final(self).wf(),
            final(self)@ == old(self)@.push((id@, value@)),
    {
        let ghost before = self@;
        let ghost entries = map_entries(self.places);
        let n: usize = self.values.len();
        proof {
            lemma_same_keys(before, entries, id@, 0);
            lemma_distinct_push(before, (id@, value@));
        }
        map_insert(&mut self.places, id, n);
        self.values.push(value);
        assert(self@ =~= before.push((id@, value@)));
    }

    /// Replaces the value at place `i`.
    pub fn set(&mut self, i: usize, value: T)
        requires
            old(self).wf(),
            i < old(self)@.len(),
        ensures
            final(self).wf(),
            final(self)@ == old(self)@.update(i as int, (old(self)@[i as int].0, value@)),
    {
        let ghost before = self@;
        proof {
            crate::ir::lemma_distinct_update(before, i as int, (before[i as int].0, value@));
        }
        self.values.set(i, value);
        assert(self@ =~= before.update(i as int, (before[i as int].0, value@)));
    }
}

// ---------------------------------------------------------------------------
// Items that hold their own id
// ---------------------------------------------------------------------------

/// Items by the id that they hold, in the order in which they were added.
pub struct Keyed<T> {
    places: IndexMap<String, usize, RandomState>,
    items: Vec<T>,
}

impl<T: View> View for Keyed<T> {
    type V = Seq<T::V>;

    closed spec fn view(&self) -> Seq<T::V> {
        views(self.items@)
    }
}

impl<T: Identified> Keyed<T> where <T as View>::V: Named {
    /// The map sends the id of each item to its place, and no two items have the
    /// same id.
    pub closed spec fn wf(&self) -> bool {
        &&& map_entries(self.places).len() == self.items@.len()
        &&& forall|i: int|
            0 <= i < self.items@.len() ==> (#[trigger] map_entries(self.places)[i]).0
                == self@[i].key() && map_entries(self.places)[i].1 == i
        &&& distinct_keys(self@)
    }

    /// No items.
    pub fn new() -> (r: Self)
        ensures
            r.wf(),
            r@ == Seq::<<T as View>::V>::empty(),
    {
        let r = Keyed { places: map_new(), items: Vec::new() };
        assert(r@ =~= Seq::<<T as View>::V>::empty());
        r
    }

    /// The place of `id`.
    pub fn find(&self, id: &String) -> (r: Option<usize>)
        requires
            self.wf(),
        ensures
            opt_int(r) == key_index(self@, id@),
            r matches Some(i) ==> i < self@.len(),
    {
        proof {
            lemma_same_keys(self@, map_entries(self.places), id@, 0);
            crate::ir::lemma_key_from(self@, id@, 0);
        }
        map_get(&self.places, id)
    }

    /// Adds an item with a new id at the end, and gives its place.
    pub fn push(&mut self, item: T) -> (r: usize)
        requires
            old(self).wf(),
            !has_key(old(self)@, item@.key()),
        ensures
            final(self).wf(),
            final(self)@ == old(self)@.push(item@),
            r == old(self)@.len(),
    {
        let ghost before = self@;
        let n: usize = self.items.len();
        proof {
            lemma_same_keys(before, map_entries(self.places), item@.key(), 0);
            lemma_distinct_push(before, item@);
        }
        map_insert(&mut self.places, item.id().clone(), n);
        self.items.push(item);
        assert(self@ =~= before.push(item@));
        n
    }

    /// The item at place `i`, to be changed. Its id stays.
    pub fn at_mut(&mut self, i: usize) -> (r: &mut T)
        requires
            old(self).wf(),
            i < old(self)@.len(),
        ensures
            (*r)@ == old(self)@[i as int],
            final(self)@ == old(self)@.update(i as int, (*final(r))@),
            (*final(r))@.key() == old(self)@[i as int].key() ==> final(self).wf(),
    {
        broadcast use lemma_views_update;

        &mut self.items[i]
    }

    /// The items.
    pub fn into_items(self) -> (r: Vec<T>)
        ensures
            views(r@) == self@,
    {
        self.items
    }
}

} // verus!
