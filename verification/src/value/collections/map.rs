//! A map with consistent ordering.
use vstd::prelude::*;

use crate::value::collections::keyed::{
    entries_have_key, entries_unique, entry_index_of, entry_with_key, lemma_entry_index_at,
    lemma_entry_index_props, Keyed,
};

verus! {

broadcast use vstd::seq_lib::group_seq_properties;

/// A map whose iteration order is the current first-insertion order of its
/// keys: inserting over an existing key replaces the value in place, and a
/// key inserted again after removal goes to the end.
#[derive(Debug, PartialEq, Eq)]
pub struct OrderedMap<K: Keyed, V> {
    entries: Vec<(K, V)>,
}

impl<K: Keyed, V> View for OrderedMap<K, V> {
    type V = Seq<(K, V)>;

    closed spec fn view(&self) -> Seq<(K, V)> {
        self.entries@
    }
}

impl<K: Keyed, V> OrderedMap<K, V> {
    /// No two entries share a key identity; every map this crate hands out
    /// satisfies this.
    #[verifier::type_invariant]
    pub open spec fn wf(&self) -> bool {
        entries_unique(self@)
    }

    /// Creates an empty map.
    pub fn new() -> (r: OrderedMap<K, V>)
        ensures
            r@ =~= Seq::<(K, V)>::empty(),
    {
        OrderedMap { entries: Vec::new() }
    }

    /// Creates an empty map that can hold `capacity` entries before
    /// reallocating.
    pub fn with_capacity(capacity: usize) -> (r: OrderedMap<K, V>)
        ensures
            r@ =~= Seq::<(K, V)>::empty(),
    {
        OrderedMap { entries: Vec::with_capacity(capacity) }
    }

    /// The number of entries in the map.
    pub fn len(&self) -> (r: usize)
        ensures
            r == self@.len(),
    {
        self.entries.len()
    }

    /// True when the map holds no entries.
    pub fn is_empty(&self) -> (r: bool)
        ensures
            r == (self@.len() == 0),
    {
        self.entries.len() == 0
    }

    /// Removes every entry.
    pub fn clear(&mut self)
        ensures
            final(self)@ =~= Seq::<(K, V)>::empty(),
    {
        proof {
            use_type_invariant(&*self);
        }
        self.entries = Vec::new();
    }

    /// The position of the key in the map, if it is present.
    fn position_of(&self, key: &K) -> (r: Option<usize>)
        ensures
            match r {
                Some(i) => i == entry_index_of(self@, key.key_ident()),
                None => !entries_have_key(self@, key.key_ident()),
            },
    {
        let ghost id = key.key_ident();
        let n = self.entries.len();
        let mut i: usize = 0;
        while i < n
            invariant
                id == key.key_ident(),
                n == self@.len(),
                i <= n,
                forall|j: int| 0 <= j < i ==> (#[trigger] self@[j]).0.key_ident() != id,
            decreases n - i,
        {
            if self.entries[i].0.key_eq(key) {
                proof {
                    lemma_entry_index_at(self@, id, i as int);
                }
                return Some(i);
            }
            i = i + 1;
        }
        proof {
            lemma_entry_index_at(self@, id, n as int);
        }
        None
    }

    /// True when the map has an entry for the key.
    pub fn contains_key(&self, key: &K) -> (r: bool)
        ensures
            r == entries_have_key(self@, key.key_ident()),
    {
        proof {
            lemma_entry_index_props(self@, key.key_ident());
        }
        match self.position_of(key) {
            Some(_) => true,
            None => false,
        }
    }

    /// The value stored for the key, if the key is present.
    pub fn get(&self, key: &K) -> (r: Option<&V>)
        ensures
            r is Some <==> entries_have_key(self@, key.key_ident()),
            r matches Some(v) ==> *v == entry_with_key(self@, key.key_ident()).1,
    {
        proof {
            lemma_entry_index_props(self@, key.key_ident());
        }
        match self.position_of(key) {
            Some(i) => Some(&self.entries[i].1),
            None => None,
        }
    }

    /// Inserts the value under the key: when the key is already present the
    /// entry is replaced in place (its position unchanged) and the old value
    /// is returned, otherwise the new entry goes to the end.
    pub fn insert(&mut self, key: K, value: V) -> (r: Option<V>)
        ensures
            ({
                let id = key.key_ident();
                if entries_have_key(old(self)@, id) {
                    let i = entry_index_of(old(self)@, id);
                    &&& final(self)@ =~= old(self)@.update(i, (key, value))
                    &&& r matches Some(v) && v == old(self)@[i].1
                } else {
                    &&& final(self)@ =~= old(self)@.push((key, value))
                    &&& r is None
                }
            }),
    {
        proof {
            use_type_invariant(&*self);
            lemma_entry_index_props(self@, key.key_ident());
        }
        let ghost id = key.key_ident();
        let position = self.position_of(&key);
        let mut tmp = OrderedMap { entries: Vec::new() };
        core::mem::swap(self, &mut tmp);
        let mut entries = tmp.entries;
        match position {
            Some(i) => {
                let mut pair = (key, value);
                entries.set_and_swap(i, &mut pair);
                let (_, old_value) = pair;
                proof {
                    assert(entries_unique(entries@)) by {
                        assert(forall|j: int|
                            0 <= j < entries@.len() && j != i ==> #[trigger] entries@[j] == old(
                                self,
                            )@[j]);
                    }
                }
                self.entries = entries;
                Some(old_value)
            },
            None => {
                entries.push((key, value));
                proof {
                    assert(entries_unique(entries@)) by {
                        assert(forall|j: int|
                            0 <= j < old(self)@.len() ==> #[trigger] entries@[j] == old(self)@[j]);
                        assert(forall|j: int|
                            0 <= j < old(self)@.len() ==> (#[trigger] old(
                                self,
                            )@[j]).0.key_ident() != id);
                    }
                }
                self.entries = entries;
                None
            },
        }
    }

    /// Removes the entry for the key, closing the gap, and returns its
    /// value if the key was present.
    pub fn remove(&mut self, key: &K) -> (r: Option<V>)
        ensures
            ({
                let id = key.key_ident();
                if entries_have_key(old(self)@, id) {
                    let i = entry_index_of(old(self)@, id);
                    &&& final(self)@ =~= old(self)@.remove(i)
                    &&& r matches Some(v) && v == old(self)@[i].1
                } else {
                    &&& final(self)@ =~= old(self)@
                    &&& r is None
                }
            }),
    {
        proof {
            use_type_invariant(&*self);
            lemma_entry_index_props(self@, key.key_ident());
        }
        let position = self.position_of(key);
        match position {
            Some(i) => {
                let mut tmp = OrderedMap { entries: Vec::new() };
                core::mem::swap(self, &mut tmp);
                let mut entries = tmp.entries;
                let (_, value) = entries.remove(i);
                proof {
                    assert(entries_unique(entries@)) by {
                        assert(forall|j: int|
                            0 <= j < entries@.len() ==> #[trigger] entries@[j] == if j < i {
                                old(self)@[j]
                            } else {
                                old(self)@[j + 1]
                            });
                    }
                }
                self.entries = entries;
                Some(value)
            },
            None => None,
        }
    }

    /// The key of the entry at the given position.
    pub fn key_at(&self, i: usize) -> (r: &K)
        requires
            i < self@.len(),
        ensures
            *r == self@[i as int].0,
    {
        &self.entries[i].0
    }

    /// The value of the entry at the given position.
    pub fn value_at(&self, i: usize) -> (r: &V)
        requires
            i < self@.len(),
        ensures
            *r == self@[i as int].1,
    {
        &self.entries[i].1
    }

    /// Takes the map apart into its entries, in order.
    pub fn into_entries(self) -> (r: Vec<(K, V)>)
        ensures
            r@ == self@,
    {
        self.entries
    }
}

/// A map's entry sequence sits below the map in the well-founded order that
/// `decreases` measures use, so view functions may recurse through it.
pub(crate) proof fn lemma_map_decreases_to_view<K: Keyed, V>(m: &OrderedMap<K, V>)
    ensures
        decreases_to!(*m => m@),
{
    assert(decreases_to!(*m => m.entries));
    assert(decreases_to!(m.entries => m.entries@));
}

impl<K: Keyed, V: Clone> Clone for OrderedMap<K, V> {
    /// Cloning keeps the entries in order; each key and value is itself a
    /// clone.
    fn clone(&self) -> (r: Self)
        ensures
            r@.len() == self@.len(),
            forall|i: int|
                0 <= i < self@.len() ==> cloned::<K>((#[trigger] self@[i]).0, r@[i].0)
                    && cloned::<V>(self@[i].1, r@[i].1),
    {
        proof {
            use_type_invariant(self);
        }
        let n = self.entries.len();
        let mut entries: Vec<(K, V)> = Vec::with_capacity(n);
        let mut i: usize = 0;
        while i < n
            invariant
                n == self@.len(),
                i <= n,
                entries@.len() == i,
                entries_unique(self@),
                forall|j: int|
                    0 <= j < i ==> cloned::<K>((#[trigger] self@[j]).0, entries@[j].0)
                        && cloned::<V>(self@[j].1, entries@[j].1),
                forall|j: int|
                    0 <= j < i ==> (#[trigger] entries@[j]).0.key_ident()
                        == self@[j].0.key_ident(),
            decreases n - i,
        {
            let k = self.entries[i].0.clone();
            let v = self.entries[i].1.clone();
            proof {
                K::lemma_cloned_ident(&self.entries[i as int].0, &k);
            }
            entries.push((k, v));
            i = i + 1;
        }
        OrderedMap { entries }
    }
}

} // verus!
