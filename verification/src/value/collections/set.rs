//! A set with consistent ordering.
use vstd::prelude::*;

use crate::value::collections::keyed::Keyed;

verus! {

/// The position of the first item of `s` with the identity `id`, or `-1`
/// when there is none.
pub open spec fn item_index_of<T: Keyed>(s: Seq<T>, id: T::Ident) -> int
    decreases s.len(),
{
    if s.len() == 0 {
        -1
    } else if s[0].key_ident() == id {
        0
    } else {
        let r = item_index_of(s.drop_first(), id);
        if r < 0 {
            -1
        } else {
            r + 1
        }
    }
}

/// True when some item of `s` has the identity `id`.
pub open spec fn items_have<T: Keyed>(s: Seq<T>, id: T::Ident) -> bool {
    item_index_of(s, id) >= 0
}

/// The first item of `s` with the identity `id`.
pub open spec fn item_with<T: Keyed>(s: Seq<T>, id: T::Ident) -> T {
    s[item_index_of(s, id)]
}

/// No two items of `s` share an identity.
pub open spec fn items_unique<T: Keyed>(s: Seq<T>) -> bool {
    forall|i: int, j: int|
        0 <= i < j < s.len() ==> (#[trigger] s[i]).key_ident() != (#[trigger] s[j]).key_ident()
}

/// When the first `k` items do not match `id`, the first match of `s` is at
/// `k` exactly when the item there matches, and absent when `k` is the end.
pub proof fn lemma_item_index_at<T: Keyed>(s: Seq<T>, id: T::Ident, k: int)
    requires
        0 <= k <= s.len(),
        forall|j: int| 0 <= j < k ==> (#[trigger] s[j]).key_ident() != id,
        k < s.len() ==> s[k].key_ident() == id,
    ensures
        item_index_of(s, id) == if k == s.len() {
            -1int
        } else {
            k
        },
    decreases s.len(),
{
    if s.len() > 0 && s[0].key_ident() != id {
        let t = s.drop_first();
        assert(forall|j: int| 0 <= j < k - 1 ==> (#[trigger] t[j]).key_ident() != id);
        lemma_item_index_at(t, id, k - 1);
    }
}

/// The item that `item_index_of` finds does match, and nothing before it
/// does.
pub proof fn lemma_item_index_props<T: Keyed>(s: Seq<T>, id: T::Ident)
    ensures
        item_index_of(s, id) >= 0 ==> item_index_of(s, id) < s.len() && s[item_index_of(
            s,
            id,
        )].key_ident() == id,
        item_index_of(s, id) < 0 ==> item_index_of(s, id) == -1 && forall|j: int|
            0 <= j < s.len() ==> (#[trigger] s[j]).key_ident() != id,
        forall|j: int| 0 <= j < item_index_of(s, id) ==> (#[trigger] s[j]).key_ident() != id,
    decreases s.len(),
{
    if s.len() > 0 && s[0].key_ident() != id {
        let t = s.drop_first();
        lemma_item_index_props(t, id);
        let r = item_index_of(s, id);
        if item_index_of(t, id) < 0 {
            assert forall|j: int| 0 <= j < s.len() implies (#[trigger] s[j]).key_ident() != id by {
                if j > 0 {
                    assert(t[j - 1] == s[j]);
                }
            }
        } else {
            assert(s[r] == t[r - 1]);
            assert forall|j: int| 0 <= j < r implies (#[trigger] s[j]).key_ident() != id by {
                if j > 0 {
                    assert(t[j - 1] == s[j]);
                }
            }
        }
    }
}

/// What inserting into an ordered set does to its items: nothing when an
/// item with the same identity is present, else an append.
pub open spec fn set_insert<T: Keyed>(s: Seq<T>, x: T) -> Seq<T> {
    if items_have(s, x.key_ident()) {
        s
    } else {
        s.push(x)
    }
}

/// How many items of `s` have the identity `id`.
pub open spec fn count_with<T: Keyed>(s: Seq<T>, id: T::Ident) -> int
    decreases s.len(),
{
    if s.len() == 0 {
        0
    } else {
        (if s[0].key_ident() == id {
            1int
        } else {
            0int
        }) + count_with(s.drop_first(), id)
    }
}

/// In a set without duplicate identities, a present identity is held by
/// exactly one item.
pub proof fn lemma_unique_count<T: Keyed>(s: Seq<T>, id: T::Ident)
    requires
        items_unique(s),
    ensures
        count_with(s, id) == if items_have(s, id) {
            1int
        } else {
            0int
        },
    decreases s.len(),
{
    if s.len() > 0 {
        let t = s.drop_first();
        assert(items_unique(t)) by {
            assert(forall|j: int| 0 <= j < t.len() ==> t[j] == #[trigger] s[j + 1]);
        }
        lemma_unique_count(t, id);
        if s[0].key_ident() == id {
            assert(!items_have(t, id)) by {
                lemma_item_index_props(t, id);
                if item_index_of(t, id) >= 0 {
                    let w = item_index_of(t, id);
                    assert(s[w + 1].key_ident() == id);
                    assert(s[0].key_ident() != s[w + 1].key_ident());
                }
            }
        }
    }
}

/// Inclusion deduplicates: once a resource's identity is in the set,
/// inserting another item with the same identity leaves the set unchanged,
/// and exactly one item holds that identity. A resource reachable by two
/// distinct relationship paths is therefore included at most once.
pub proof fn lemma_insert_dedup<T: Keyed>(s: Seq<T>, a: T, b: T)
    requires
        items_unique(s),
        a.key_ident() == b.key_ident(),
    ensures
        set_insert(set_insert(s, a), b) == set_insert(s, a),
        items_unique(set_insert(s, a)),
        count_with(set_insert(set_insert(s, a), b), a.key_ident()) == 1,
{
    let t = set_insert(s, a);
    lemma_item_index_props(s, a.key_ident());
    if !items_have(s, a.key_ident()) {
        assert(items_unique(t)) by {
            assert(forall|j: int| 0 <= j < s.len() ==> #[trigger] t[j] == s[j]);
            assert(forall|j: int|
                0 <= j < s.len() ==> (#[trigger] s[j]).key_ident() != a.key_ident());
        }
        assert(items_have(t, b.key_ident())) by {
            lemma_item_index_at(t, a.key_ident(), s.len() as int);
        }
    } else {
        assert(items_have(t, b.key_ident()));
    }
    lemma_unique_count(t, a.key_ident());
    assert(items_have(t, a.key_ident())) by {
        if !items_have(s, a.key_ident()) {
            lemma_item_index_at(t, a.key_ident(), s.len() as int);
        }
    }
}

/// A set whose iteration order is the current first-insertion order of its
/// items: inserting an item whose identity is already present is a no-op,
/// and an item inserted again after removal goes to the end.
#[derive(Debug, PartialEq, Eq)]
pub struct OrderedSet<T: Keyed = crate::value::fields::Key> {
    items: Vec<T>,
}

impl<T: Keyed> View for OrderedSet<T> {
    type V = Seq<T>;

    closed spec fn view(&self) -> Seq<T> {
        self.items@
    }
}

impl<T: Keyed> OrderedSet<T> {
    /// No two items share an identity; every set this crate hands out
    /// satisfies this.
    #[verifier::type_invariant]
    pub open spec fn wf(&self) -> bool {
        items_unique(self@)
    }

    /// Creates an empty set.
    pub fn new() -> (r: OrderedSet<T>)
        ensures
            r@ =~= Seq::<T>::empty(),
    {
        OrderedSet { items: Vec::new() }
    }

    /// Creates an empty set that can hold `capacity` items before
    /// reallocating.
    pub fn with_capacity(capacity: usize) -> (r: OrderedSet<T>)
        ensures
            r@ =~= Seq::<T>::empty(),
    {
        OrderedSet { items: Vec::with_capacity(capacity) }
    }

    /// The number of items in the set.
    pub fn len(&self) -> (r: usize)
        ensures
            r == self@.len(),
    {
        self.items.len()
    }

    /// True when the set holds no items.
    pub fn is_empty(&self) -> (r: bool)
        ensures
            r == (self@.len() == 0),
    {
        self.items.len() == 0
    }

    /// Removes every item.
    pub fn clear(&mut self)
        ensures
            final(self)@ =~= Seq::<T>::empty(),
    {
        proof {
            use_type_invariant(&*self);
        }
        self.items = Vec::new();
    }

    /// The position of the identity in the set, if it is present.
    fn position_of(&self, value: &T) -> (r: Option<usize>)
        ensures
            match r {
                Some(i) => i == item_index_of(self@, value.key_ident()),
                None => !items_have(self@, value.key_ident()),
            },
    {
        let ghost id = value.key_ident();
        let n = self.items.len();
        let mut i: usize = 0;
        while i < n
            invariant
                id == value.key_ident(),
                n == self@.len(),
                i <= n,
                forall|j: int| 0 <= j < i ==> (#[trigger] self@[j]).key_ident() != id,
            decreases n - i,
        {
            if self.items[i].key_eq(value) {
                proof {
                    lemma_item_index_at(self@, id, i as int);
                }
                return Some(i);
            }
            i = i + 1;
        }
        proof {
            lemma_item_index_at(self@, id, n as int);
        }
        None
    }

    /// True when an item with the value's identity is in the set.
    pub fn contains(&self, value: &T) -> (r: bool)
        ensures
            r == items_have(self@, value.key_ident()),
    {
        proof {
            lemma_item_index_props(self@, value.key_ident());
        }
        match self.position_of(value) {
            Some(_) => true,
            None => false,
        }
    }

    /// Adds the value to the set and returns `true`, unless an item with
    /// its identity is already present: then the set is unchanged, the
    /// value is dropped, and `false` is returned.
    pub fn insert(&mut self, value: T) -> (r: bool)
        ensures
            final(self)@ =~= set_insert(old(self)@, value),
            r == !items_have(old(self)@, value.key_ident()),
    {
        proof {
            use_type_invariant(&*self);
            lemma_item_index_props(self@, value.key_ident());
        }
        let ghost id = value.key_ident();
        let position = self.position_of(&value);
        match position {
            Some(_) => false,
            None => {
                let mut tmp = OrderedSet { items: Vec::new() };
                core::mem::swap(self, &mut tmp);
                let mut items = tmp.items;
                items.push(value);
                proof {
                    assert(items_unique(items@)) by {
                        assert(forall|j: int|
                            0 <= j < old(self)@.len() ==> #[trigger] items@[j] == old(self)@[j]);
                        assert(forall|j: int|
                            0 <= j < old(self)@.len() ==> (#[trigger] old(self)@[j]).key_ident()
                                != id);
                    }
                }
                self.items = items;
                true
            },
        }
    }

    /// Removes the item with the value's identity, closing the gap, and
    /// returns whether one was present.
    pub fn remove(&mut self, value: &T) -> (r: bool)
        ensures
            ({
                let id = value.key_ident();
                if items_have(old(self)@, id) {
                    final(self)@ =~= old(self)@.remove(item_index_of(old(self)@, id)) && r
                } else {
                    final(self)@ =~= old(self)@ && !r
                }
            }),
    {
        proof {
            use_type_invariant(&*self);
            lemma_item_index_props(self@, value.key_ident());
        }
        let position = self.position_of(value);
        match position {
            Some(i) => {
                let mut tmp = OrderedSet { items: Vec::new() };
                core::mem::swap(self, &mut tmp);
                let mut items = tmp.items;
                let _ = items.remove(i);
                proof {
                    assert(items_unique(items@)) by {
                        assert(forall|j: int|
                            0 <= j < items@.len() ==> #[trigger] items@[j] == if j < i {
                                old(self)@[j]
                            } else {
                                old(self)@[j + 1]
                            });
                    }
                }
                self.items = items;
                true
            },
            None => false,
        }
    }

    /// The item at the given position.
    pub fn item_at(&self, i: usize) -> (r: &T)
        requires
            i < self@.len(),
        ensures
            *r == self@[i as int],
    {
        &self.items[i]
    }

    /// Takes the set apart into its items, in order.
    pub fn into_items(self) -> (r: Vec<T>)
        ensures
            r@ == self@,
    {
        self.items
    }
}

impl<T: Keyed> Clone for OrderedSet<T> {
    /// Cloning keeps the items in order; each item is itself a clone.
    fn clone(&self) -> (r: Self)
        ensures
            r@.len() == self@.len(),
            forall|i: int| 0 <= i < self@.len() ==> cloned::<T>(#[trigger] self@[i], r@[i]),
    {
        proof {
            use_type_invariant(self);
        }
        let n = self.items.len();
        let mut items: Vec<T> = Vec::with_capacity(n);
        let mut i: usize = 0;
        while i < n
            invariant
                n == self@.len(),
                i <= n,
                items@.len() == i,
                items_unique(self@),
                forall|j: int| 0 <= j < i ==> cloned::<T>(#[trigger] self@[j], items@[j]),
                forall|j: int|
                    0 <= j < i ==> (#[trigger] items@[j]).key_ident() == self@[j].key_ident(),
            decreases n - i,
        {
            let v = self.items[i].clone();
            proof {
                T::lemma_cloned_ident(&self.items[i as int], &v);
            }
            items.push(v);
            i = i + 1;
        }
        OrderedSet { items }
    }
}

} // verus!
