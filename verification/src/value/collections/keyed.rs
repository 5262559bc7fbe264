//! The identity by which the ordered collections compare their entries.
use vstd::prelude::*;

verus! {

/// A type that the ordered collections can use as a key or element.
///
/// Each value has a mathematical identity; two values collide in a
/// collection exactly when their identities are equal. For most types the
/// identity is the whole value; resource objects are identified by their
/// `(id, type)` pair alone.
pub trait Keyed: Clone + Sized {
    /// The mathematical identity of the value.
    type Ident;

    /// The identity of this value.
    spec fn key_ident(&self) -> Self::Ident;

    /// Decides whether two values share an identity.
    fn key_eq(&self, other: &Self) -> (r: bool)
        ensures
            r == (self.key_ident() == other.key_ident()),
    ;

    /// Cloning keeps the identity.
    proof fn lemma_cloned_ident(a: &Self, b: &Self)
        requires
            cloned::<Self>(*a, *b),
        ensures
            b.key_ident() == a.key_ident(),
    ;
}

/// The position of the first entry of `s` whose key has the identity `id`,
/// or `-1` when there is none.
pub open spec fn entry_index_of<K: Keyed, V>(s: Seq<(K, V)>, id: K::Ident) -> int
    decreases s.len(),
{
    if s.len() == 0 {
        -1
    } else if s[0].0.key_ident() == id {
        0
    } else {
        let r = entry_index_of(s.drop_first(), id);
        if r < 0 {
            -1
        } else {
            r + 1
        }
    }
}

/// True when some entry of `s` has a key with the identity `id`.
pub open spec fn entries_have_key<K: Keyed, V>(s: Seq<(K, V)>, id: K::Ident) -> bool {
    entry_index_of(s, id) >= 0
}

/// The first entry of `s` whose key has the identity `id`.
pub open spec fn entry_with_key<K: Keyed, V>(s: Seq<(K, V)>, id: K::Ident) -> (K, V) {
    s[entry_index_of(s, id)]
}

/// No two entries of `s` share a key identity.
pub open spec fn entries_unique<K: Keyed, V>(s: Seq<(K, V)>) -> bool {
    forall|i: int, j: int|
        0 <= i < j < s.len() ==> (#[trigger] s[i]).0.key_ident() != (#[trigger] s[j]).0.key_ident()
}

/// When the first `k` entries do not match `id`, the first match of `s` is
/// at `k` exactly when the entry there matches, and absent when `k` is the
/// end.
pub proof fn lemma_entry_index_at<K: Keyed, V>(s: Seq<(K, V)>, id: K::Ident, k: int)
    requires
        0 <= k <= s.len(),
        forall|j: int| 0 <= j < k ==> (#[trigger] s[j]).0.key_ident() != id,
        k < s.len() ==> s[k].0.key_ident() == id,
    ensures
        entry_index_of(s, id) == if k == s.len() {
            -1int
        } else {
            k
        },
    decreases s.len(),
{
    if s.len() > 0 && s[0].0.key_ident() != id {
        let t = s.drop_first();
        assert(forall|j: int| 0 <= j < k - 1 ==> (#[trigger] t[j]).0.key_ident() != id);
        lemma_entry_index_at(t, id, k - 1);
    }
}

/// The entry that `entry_index_of` finds does match, and nothing before it
/// does.
pub proof fn lemma_entry_index_props<K: Keyed, V>(s: Seq<(K, V)>, id: K::Ident)
    ensures
        entry_index_of(s, id) >= 0 ==> entry_index_of(s, id) < s.len() && s[entry_index_of(
            s,
            id,
        )].0.key_ident() == id,
        entry_index_of(s, id) < 0 ==> entry_index_of(s, id) == -1 && forall|j: int|
            0 <= j < s.len() ==> (#[trigger] s[j]).0.key_ident() != id,
        forall|j: int| 0 <= j < entry_index_of(s, id) ==> (#[trigger] s[j]).0.key_ident() != id,
    decreases s.len(),
{
    if s.len() > 0 && s[0].0.key_ident() != id {
        let t = s.drop_first();
        lemma_entry_index_props(t, id);
        let r = entry_index_of(s, id);
        if entry_index_of(t, id) < 0 {
            assert forall|j: int| 0 <= j < s.len() implies (#[trigger] s[j]).0.key_ident()
                != id by {
                if j > 0 {
                    assert(t[j - 1] == s[j]);
                }
            }
        } else {
            assert(s[r] == t[r - 1]);
            assert forall|j: int| 0 <= j < r implies (#[trigger] s[j]).0.key_ident() != id by {
                if j > 0 {
                    assert(t[j - 1] == s[j]);
                }
            }
        }
    }
}

/// The position of the first pair of `s` whose left part is `k`, or `-1`.
pub open spec fn dfind<A, B>(s: Seq<(A, B)>, k: A) -> int
    decreases s.len(),
{
    if s.len() == 0 {
        -1
    } else if s[0].0 == k {
        0
    } else {
        let r = dfind(s.drop_first(), k);
        if r < 0 {
            -1
        } else {
            r + 1
        }
    }
}

/// Ordered-map insertion on a sequence of pairs: replaces in place when the
/// left part is present, else appends.
pub open spec fn dinsert<A, B>(s: Seq<(A, B)>, k: A, v: B) -> Seq<(A, B)> {
    let i = dfind(s, k);
    if 0 <= i < s.len() {
        s.update(i, (k, v))
    } else {
        s.push((k, v))
    }
}

/// Ordered-map insertion of each pair in turn.
pub open spec fn dinsert_all<A, B>(acc: Seq<(A, B)>, items: Seq<(A, B)>) -> Seq<(A, B)>
    decreases items.len(),
{
    if items.len() == 0 {
        acc
    } else {
        dinsert_all(dinsert(acc, items[0].0, items[0].1), items.drop_first())
    }
}

/// The position of the first item of `s` equal to `k`, or `-1`.
pub open spec fn sfind<A>(s: Seq<A>, k: A) -> int
    decreases s.len(),
{
    if s.len() == 0 {
        -1
    } else if s[0] == k {
        0
    } else {
        let r = sfind(s.drop_first(), k);
        if r < 0 {
            -1
        } else {
            r + 1
        }
    }
}

/// Ordered-set insertion on a sequence: appends unless already present.
pub open spec fn spush<A>(s: Seq<A>, k: A) -> Seq<A> {
    if sfind(s, k) >= 0 {
        s
    } else {
        s.push(k)
    }
}

/// When no item of `s` equals `k`, the search finds nothing.
pub proof fn lemma_sfind_none<A>(s: Seq<A>, k: A)
    requires
        forall|i: int| 0 <= i < s.len() ==> s[i] != k,
    ensures
        sfind(s, k) == -1,
    decreases s.len(),
{
    if s.len() > 0 {
        let t = s.drop_first();
        assert(forall|i: int| 0 <= i < t.len() ==> t[i] == #[trigger] s[i + 1]);
        lemma_sfind_none(t, k);
    }
}

/// A map's search by key identity agrees with the search over the
/// identity-level pairs that mirror its entries.
pub proof fn lemma_entry_index_matches<K: Keyed, V, B>(
    s: Seq<(K, V)>,
    d: Seq<(K::Ident, B)>,
    id: K::Ident,
)
    requires
        d.len() == s.len(),
        forall|i: int| 0 <= i < s.len() ==> (#[trigger] d[i]).0 == s[i].0.key_ident(),
    ensures
        entry_index_of(s, id) == dfind(d, id),
    decreases s.len(),
{
    if s.len() > 0 {
        assert(d[0].0 == s[0].0.key_ident());
        if s[0].0.key_ident() != id {
            let t = s.drop_first();
            let e = d.drop_first();
            assert(forall|i: int| 0 <= i < t.len() ==> (#[trigger] e[i]).0 == t[i].0.key_ident());
            lemma_entry_index_matches(t, e, id);
        }
    }
}

/// A set's search by item identity agrees with the search over the
/// identities that mirror its items.
pub proof fn lemma_item_index_matches<T: Keyed>(s: Seq<T>, d: Seq<T::Ident>, id: T::Ident)
    requires
        d.len() == s.len(),
        forall|i: int| 0 <= i < s.len() ==> #[trigger] d[i] == s[i].key_ident(),
    ensures
        crate::value::collections::set::item_index_of(s, id) == sfind(d, id),
    decreases s.len(),
{
    if s.len() > 0 {
        assert(d[0] == s[0].key_ident());
        if s[0].key_ident() != id {
            let t = s.drop_first();
            let e = d.drop_first();
            assert(forall|i: int| 0 <= i < t.len() ==> #[trigger] e[i] == t[i].key_ident());
            lemma_item_index_matches(t, e, id);
        }
    }
}

} // verus!
