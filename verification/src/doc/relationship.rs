//! Relationships between resources.
use vstd::prelude::*;

use crate::doc::ident::Identifier;
use crate::doc::link::Link;
use crate::doc::Data;
use crate::value::collections::map::OrderedMap;
use crate::value::fields::Key;
use crate::value::value::Value;

verus! {

/// A resource's relationship to another: its resource linkage, with
/// optional links and meta information.
#[derive(Debug, Clone, PartialEq)]
pub struct Relationship {
    /// The resource linkage: one optional identifier or a collection.
    pub data: Data<Identifier>,
    /// Relevant links.
    pub links: OrderedMap<Key, Link>,
    /// Non-standard meta information.
    pub meta: OrderedMap<Key, Value>,
}

impl Relationship {
    /// Builds a relationship around its linkage, with no links or meta
    /// information.
    pub fn new(data: Data<Identifier>) -> (r: Relationship)
        ensures
            r.data == data,
            r.links@ =~= Seq::<(Key, Link)>::empty(),
            r.meta@ =~= Seq::<(Key, Value)>::empty(),
    {
        Relationship { data, links: OrderedMap::new(), meta: OrderedMap::new() }
    }
}

} // verus!
