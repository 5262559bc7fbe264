//! Resource identifier objects.
use vstd::prelude::*;

use crate::value::collections::keyed::Keyed;
use crate::value::collections::map::OrderedMap;
use crate::value::fields::Key;
use crate::value::value::Value;

verus! {

/// Identifies an individual resource: the minimal `(id, type)` pair, with
/// optional meta information.
///
/// Identifiers are equal, and collide in a set, by their `(id, type)` pair
/// alone, exactly like full resource objects.
#[derive(Debug)]
pub struct Identifier {
    /// The resource's identifier, unique within its type.
    pub id: String,
    /// The resource's type.
    pub kind: Key,
    /// Non-standard meta information.
    pub meta: OrderedMap<Key, Value>,
}

impl Identifier {
    /// Builds an identifier from a type and an id, with no meta
    /// information.
    pub fn new(kind: Key, id: String) -> (r: Identifier)
        ensures
            r.id == id,
            r.kind == kind,
            r.meta@ =~= Seq::<(Key, Value)>::empty(),
    {
        Identifier { id, kind, meta: OrderedMap::new() }
    }
}

impl PartialEq for Identifier {
    /// Identifiers are equal by their `(id, type)` pair alone.
    fn eq(&self, other: &Identifier) -> (r: bool) {
        self.id.eq(&other.id) && self.kind.key_eq(&other.kind)
    }
}

impl vstd::std_specs::cmp::PartialEqSpecImpl for Identifier {
    open spec fn obeys_eq_spec() -> bool {
        true
    }

    open spec fn eq_spec(&self, other: &Identifier) -> bool {
        self.id@ == other.id@ && self.kind@ == other.kind@
    }
}

impl Keyed for Identifier {
    type Ident = (Seq<char>, Seq<char>);

    /// An identifier's identity is its `(id, type)` pair; meta information
    /// does not count.
    open spec fn key_ident(&self) -> (Seq<char>, Seq<char>) {
        (self.id@, self.kind@)
    }

    fn key_eq(&self, other: &Identifier) -> (r: bool) {
        self.id.eq(&other.id) && self.kind.key_eq(&other.kind)
    }

    proof fn lemma_cloned_ident(a: &Identifier, b: &Identifier) {
        if a != b {
            assert(call_ensures(Identifier::clone, (a,), *b));
        }
    }
}

impl Clone for Identifier {
    /// Cloning an identifier keeps its id, type and meta information.
    fn clone(&self) -> (r: Identifier)
        ensures
            r.id@ == self.id@,
            r.kind@ == self.kind@,
            r.meta@.len() == self.meta@.len(),
            forall|i: int|
                0 <= i < self.meta@.len() ==> ((#[trigger] r.meta@[i]).0@ == self.meta@[i].0@
                    && r.meta@[i].1@ == self.meta@[i].1@),
    {
        let meta = self.meta.clone();
        proof {
            assert forall|i: int|
                0 <= i < self.meta@.len() implies (#[trigger] meta@[i]).0@ == self.meta@[i].0@
                && meta@[i].1@ == self.meta@[i].1@ by {
                let a = self.meta@[i];
                let b = meta@[i];
                if a.0 != b.0 {
                    assert(call_ensures(Key::clone, (&a.0,), b.0));
                }
                if a.1 != b.1 {
                    assert(call_ensures(Value::clone, (&a.1,), b.1));
                }
            }
        }
        Identifier { id: self.id.clone(), kind: self.kind.clone(), meta }
    }
}

} // verus!
