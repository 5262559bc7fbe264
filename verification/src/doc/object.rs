//! Resource objects.
use vstd::prelude::*;

use crate::doc::link::Link;
use crate::doc::relationship::Relationship;
use crate::value::collections::keyed::Keyed;
use crate::value::collections::map::OrderedMap;
use crate::value::fields::Key;
use crate::value::value::Value;

verus! {

/// A preexisting resource: its `(id, type)` pair with its attributes,
/// relationships, links and meta information.
///
/// Objects are equal, and collide in a set, by their `(id, type)` pair
/// alone: two objects for the same logical resource compare equal whatever
/// their attributes hold, so a set of objects silently coalesces duplicates.
/// This is what deduplicates a compound document's included resources.
#[derive(Debug)]
pub struct Object {
    /// Some of the resource's data.
    pub attributes: OrderedMap<Key, Value>,
    /// The resource's identifier, unique within its type.
    pub id: String,
    /// The resource's type.
    pub kind: Key,
    /// Relevant links.
    pub links: OrderedMap<Key, Link>,
    /// Non-standard meta information.
    pub meta: OrderedMap<Key, Value>,
    /// The resource's relationships to other resources.
    pub relationships: OrderedMap<Key, Relationship>,
}

impl Object {
    /// Builds an object from a type and an id, with everything else empty.
    pub fn new(kind: Key, id: String) -> (r: Object)
        ensures
            r.id == id,
            r.kind == kind,
            r.attributes@ =~= Seq::<(Key, Value)>::empty(),
            r.links@ =~= Seq::<(Key, Link)>::empty(),
            r.meta@ =~= Seq::<(Key, Value)>::empty(),
            r.relationships@ =~= Seq::<(Key, Relationship)>::empty(),
    {
        Object {
            attributes: OrderedMap::new(),
            id,
            kind,
            links: OrderedMap::new(),
            meta: OrderedMap::new(),
            relationships: OrderedMap::new(),
        }
    }

    /// The identifier of this object: its `(id, type)` pair and meta
    /// information, without the rest.
    pub fn to_identifier(&self) -> (r: crate::doc::ident::Identifier)
        ensures
            r.id@ == self.id@,
            r.kind@ == self.kind@,
    {
        crate::doc::ident::Identifier::new(self.kind.clone(), self.id.clone())
    }
}

impl PartialEq for Object {
    /// Objects are equal by their `(id, type)` pair alone.
    fn eq(&self, other: &Object) -> (r: bool) {
        self.id.eq(&other.id) && self.kind.key_eq(&other.kind)
    }
}

impl vstd::std_specs::cmp::PartialEqSpecImpl for Object {
    open spec fn obeys_eq_spec() -> bool {
        true
    }

    open spec fn eq_spec(&self, other: &Object) -> bool {
        self.id@ == other.id@ && self.kind@ == other.kind@
    }
}

impl Keyed for Object {
    type Ident = (Seq<char>, Seq<char>);

    /// An object's identity is its `(id, type)` pair; attributes and the
    /// rest do not count.
    open spec fn key_ident(&self) -> (Seq<char>, Seq<char>) {
        (self.id@, self.kind@)
    }

    fn key_eq(&self, other: &Object) -> (r: bool) {
        self.id.eq(&other.id) && self.kind.key_eq(&other.kind)
    }

    proof fn lemma_cloned_ident(a: &Object, b: &Object) {
        if a != b {
            assert(call_ensures(Object::clone, (a,), *b));
        }
    }
}

impl Clone for Object {
    /// Cloning an object keeps its `(id, type)` identity.
    fn clone(&self) -> (r: Object)
        ensures
            r.id@ == self.id@,
            r.kind@ == self.kind@,
    {
        Object {
            attributes: self.attributes.clone(),
            id: self.id.clone(),
            kind: self.kind.clone(),
            links: self.links.clone(),
            meta: self.meta.clone(),
            relationships: self.relationships.clone(),
        }
    }
}

/// A resource that does not exist yet, so its id is optional: commonly the
/// document of a creation request.
#[derive(Debug, PartialEq)]
pub struct NewObject {
    /// Some of the resource's data.
    pub attributes: OrderedMap<Key, Value>,
    /// The client-generated identifier, when there is one.
    pub id: Option<String>,
    /// The resource's type.
    pub kind: Key,
    /// Relevant links.
    pub links: OrderedMap<Key, Link>,
    /// Non-standard meta information.
    pub meta: OrderedMap<Key, Value>,
    /// The resource's relationships to other resources.
    pub relationships: OrderedMap<Key, Relationship>,
}

impl NewObject {
    /// Builds a new resource of the given type, with everything else empty.
    pub fn new(kind: Key) -> (r: NewObject)
        ensures
            r.kind@ == kind@,
            r.id is None,
            r.attributes@ =~= Seq::<(Key, Value)>::empty(),
            r.links@ =~= Seq::<(Key, Link)>::empty(),
            r.meta@ =~= Seq::<(Key, Value)>::empty(),
            r.relationships@ =~= Seq::<(Key, Relationship)>::empty(),
    {
        NewObject {
            attributes: OrderedMap::new(),
            id: None,
            kind,
            links: OrderedMap::new(),
            meta: OrderedMap::new(),
            relationships: OrderedMap::new(),
        }
    }
}

} // verus!
