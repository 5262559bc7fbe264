//! Low-level utilities for generically rendering a document.

pub mod render;

use vstd::prelude::*;

use crate::doc::Object;
use crate::query::Query;
use crate::value::collections::keyed::{dfind, Keyed};
use crate::value::collections::set::{items_have, OrderedSet};
use crate::value::fields::{Key, Path};

pub use self::render::Render;

verus! {

/// Whether a fieldset allows emitting the named field for the given
/// resource type: true when the fieldset has no entry for the type, or an
/// entry naming the field.
pub open spec fn field_allowed(
    fields: Seq<(Seq<char>, Seq<Seq<char>>)>,
    kind: Seq<char>,
    name: Seq<char>,
) -> bool {
    let i = dfind(fields, kind);
    if 0 <= i < fields.len() {
        fields[i].1.contains(name)
    } else {
        true
    }
}

/// Render context, forked and passed down while a resource graph is walked:
/// the type being rendered, the relationship path from the root, and the
/// active query.
///
/// The shared set of included resources is not part of the context; it is
/// passed alongside as one mutable reference, so only one walk can fill it
/// at a time.
#[derive(Debug)]
pub struct Context<'v> {
    /// The type of resource this context renders.
    pub kind: Key,
    /// The relationship path from the root resource to this context.
    pub path: Path,
    /// The query driving rendering decisions, if any.
    pub query: Option<&'v Query>,
}

impl<'v> Context<'v> {
    /// Creates a root context: an empty relationship path.
    pub fn new(kind: Key, query: Option<&'v Query>) -> (r: Context<'v>)
        ensures
            r.kind@ == kind@,
            r.path@ =~= Seq::<Seq<char>>::empty(),
            r.query == query,
    {
        Context { kind, path: Path::new(), query }
    }

    /// True when the field may be emitted: the query has no fieldset entry
    /// for this context's type, or one that names the field.
    pub fn field(&self, name: &str) -> (r: bool)
        ensures
            r == match self.query {
                Some(q) => field_allowed(q@.fields, self.kind@, name@),
                None => true,
            },
    {
        let q = match self.query {
            Some(q) => q,
            None => {
                return true;
            },
        };
        let ghost fviews = q@.fields;
        let n = q.fields.len();
        let mut i: usize = 0;
        while i < n
            invariant
                self.query == Some(q),
                fviews == q@.fields,
                n == q.fields@.len(),
                i <= n,
                forall|j: int| 0 <= j < i ==> (#[trigger] fviews[j]).0 != self.kind@,
            decreases n - i,
        {
            if q.fields.key_at(i).key_eq(&self.kind) {
                proof {
                    lemma_dfind_at(fviews, self.kind@, i as int);
                }
                let set = q.fields.value_at(i);
                let m = set.len();
                let mut j: usize = 0;
                while j < m
                    invariant
                        self.query == Some(q),
                        fviews == q@.fields,
                        n == q.fields@.len(),
                        i < n,
                        dfind(fviews, self.kind@) == i as int,
                        *set == q.fields@[i as int].1,
                        fviews[i as int].1 == crate::query::key_set_views(set@),
                        m == set@.len(),
                        j <= m,
                        forall|k: int| 0 <= k < j ==> (#[trigger] fviews[i as int].1[k]) != name@,
                    decreases m - j,
                {
                    if crate::query::codec::str_is(set.item_at(j).as_str(), name) {
                        proof {
                            assert(0 <= j < fviews[i as int].1.len() && fviews[i as int].1[j as int]
                                == name@);
                        }
                        assert(fviews[i as int].1.contains(name@));
                        return true;
                    }
                    j = j + 1;
                }
                assert(!fviews[i as int].1.contains(name@));
                return false;
            }
            i = i + 1;
        }
        proof {
            lemma_dfind_at(fviews, self.kind@, n as int);
        }
        true
    }

    /// Creates a child context: the child renders the given type, one
    /// relationship step further from the root, under the same query.
    pub fn fork(&self, kind: Key, key: &Key) -> (r: Context<'v>)
        ensures
            r.kind@ == kind@,
            r.path@ =~= self.path@.push(key@),
            r.query == self.query,
    {
        Context { kind, path: self.path.join(key), query: self.query }
    }

    /// True when the query asks for the resource at this context's
    /// relationship path to be included; always false at the root and
    /// without a query.
    pub fn included(&self) -> (r: bool)
        ensures
            r == match self.query {
                Some(q) => q@.includes.contains(self.path@),
                None => false,
            },
    {
        let q = match self.query {
            Some(q) => q,
            None => {
                return false;
            },
        };
        let ghost iviews = q@.includes;
        let n = q.includes.len();
        let mut i: usize = 0;
        while i < n
            invariant
                self.query == Some(q),
                iviews == q@.includes,
                n == q.includes@.len(),
                i <= n,
                forall|j: int| 0 <= j < i ==> (#[trigger] iviews[j]) != self.path@,
            decreases n - i,
        {
            if q.includes.item_at(i).key_eq(&self.path) {
                proof {
                    assert(0 <= i < iviews.len() && iviews[i as int] == self.path@);
                }
                assert(iviews.contains(self.path@));
                return true;
            }
            i = i + 1;
        }
        false
    }

    /// Adds the object to the shared set of included resources and returns
    /// `true`, unless a resource with the same `(id, type)` pair is already
    /// present: then the set is unchanged and `false` is returned. This is
    /// what keeps each included resource in a compound document unique.
    pub fn include_resource(&self, included: &mut OrderedSet<Object>, value: Object) -> (r: bool)
        ensures
            ({
                if items_have(old(included)@, value.key_ident()) {
                    final(included)@ =~= old(included)@ && !r
                } else {
                    final(included)@ =~= old(included)@.push(value) && r
                }
            }),
    {
        included.insert(value)
    }
}

/// When the first `k` entries' left parts do not match `kind`, the first
/// match is at `k` exactly when the entry there matches, and absent when
/// `k` is the end.
proof fn lemma_dfind_at(fields: Seq<(Seq<char>, Seq<Seq<char>>)>, kind: Seq<char>, k: int)
    requires
        0 <= k <= fields.len(),
        forall|j: int| 0 <= j < k ==> (#[trigger] fields[j]).0 != kind,
        k < fields.len() ==> fields[k].0 == kind,
    ensures
        dfind(fields, kind) == if k == fields.len() {
            -1int
        } else {
            k
        },
    decreases fields.len(),
{
    if fields.len() > 0 && fields[0].0 != kind {
        let t = fields.drop_first();
        assert(forall|j: int| 0 <= j < k - 1 ==> (#[trigger] t[j]).0 != kind);
        lemma_dfind_at(t, kind, k - 1);
    }
}

} // verus!
