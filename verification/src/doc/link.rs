//! Links.
use vstd::prelude::*;

use crate::error::Error;
use crate::trusted::{normalize_uri, uri_of};
use crate::value::collections::map::OrderedMap;
use crate::value::fields::Key;
use crate::value::value::Value;

verus! {

/// A link: a URI in its normalized text, with optional meta information.
#[derive(Debug, Clone, PartialEq)]
pub struct Link {
    /// The link's URI, as its normalized text.
    pub href: String,
    /// Non-standard meta information.
    pub meta: OrderedMap<Key, Value>,
}

impl Link {
    /// Parses a link from text, accepting exactly the texts that parse as a
    /// URI and normalizing them.
    pub fn from_str(value: &str) -> (r: Result<Link, Error>)
        ensures
            r is Ok <==> uri_of(value@) is Some,
            r matches Ok(l) ==> l.href@ == uri_of(value@).unwrap() && l.meta@ =~= Seq::<
                (Key, Value),
            >::empty(),
            r matches Err(e) ==> (e matches Error::InvalidUri(s) && s@ == value@),
    {
        match normalize_uri(value) {
            Some(href) => Ok(Link { href, meta: OrderedMap::new() }),
            None => Err(Error::InvalidUri(value.to_owned())),
        }
    }

    /// The link's URI text.
    pub fn as_str(&self) -> (r: &str)
        ensures
            r@ == self.href@,
    {
        self.href.as_str()
    }
}

impl core::str::FromStr for Link {
    type Err = Error;

    fn from_str(value: &str) -> Result<Link, Error> {
        Link::from_str(value)
    }
}

} // verus!
