//! An API for working with well-known query parameters.

pub mod builder;
pub mod codec;
pub mod decode;
pub mod encode;
pub mod page;
pub mod sort;

use vstd::prelude::*;

use crate::value::collections::map::OrderedMap;
use crate::value::collections::set::OrderedSet;
use crate::value::fields::{Key, Path};
use crate::value::value::{Value, ValueView};

pub use self::builder::Builder;
pub use self::codec::component_text;
pub use self::codec::dec_digits;
pub use self::codec::form_decode_bytes;
pub use self::codec::form_encode_text;
pub use self::codec::pct_decode_bytes;
pub use self::codec::u64_parse;
pub use self::decode::from_slice;
pub use self::decode::from_str;
pub use self::decode::query_decode;
pub use self::decode::lemma_fields_component_round_trip;
pub use self::decode::lemma_sort_component_round_trip;
pub use self::decode::lemma_include_component_round_trip;
pub use self::encode::query_encode;
pub use self::encode::to_string;
pub use self::encode::to_vec;
pub use self::page::Page;
pub use self::sort::lemma_sort_round_trip;
pub use self::sort::sort_encode;
pub use self::sort::sort_parse;
pub use self::sort::Direction;
pub use self::sort::Sort;

verus! {

/// The mathematical shape of a query: each component over the texts of its
/// keys and paths, in insertion order.
#[verifier::ext_equal]
pub struct QueryView {
    /// Sparse fieldsets: resource type to allowed field names.
    pub fields: Seq<(Seq<char>, Seq<Seq<char>>)>,
    /// Filters: field path to value.
    pub filter: Seq<(Seq<Seq<char>>, ValueView)>,
    /// Relationship paths to includes.
    pub includes: Seq<Seq<Seq<char>>>,
    /// Pagination: page number and optional size.
    pub page: Option<(u64, Option<u64>)>,
    /// Sort instructions: field path and a descending flag.
    pub sort: Seq<(Seq<Seq<char>>, bool)>,
}

impl QueryView {
    /// The decoding of an empty query string: every component is at its
    /// default.
    pub open spec fn empty() -> QueryView {
        QueryView {
            fields: Seq::empty(),
            filter: Seq::empty(),
            includes: Seq::empty(),
            page: None,
            sort: Seq::empty(),
        }
    }
}

/// The texts of a sequence of keys.
pub open spec fn key_set_views(s: Seq<Key>) -> Seq<Seq<char>> {
    Seq::new(s.len(), |i: int| s[i]@)
}

/// The texts of a sequence of paths.
pub open spec fn path_set_views(s: Seq<Path>) -> Seq<Seq<Seq<char>>> {
    Seq::new(s.len(), |i: int| s[i]@)
}

/// The shapes of a sequence of sort instructions.
pub open spec fn sort_set_views(s: Seq<Sort>) -> Seq<(Seq<Seq<char>>, bool)> {
    Seq::new(s.len(), |i: int| s[i]@)
}

/// The shapes of a sequence of fieldset entries.
pub open spec fn fields_views(s: Seq<(Key, OrderedSet<Key>)>) -> Seq<(Seq<char>, Seq<Seq<char>>)> {
    Seq::new(s.len(), |i: int| (s[i].0@, key_set_views(s[i].1@)))
}

/// The shapes of a sequence of filter entries.
pub open spec fn filter_views(s: Seq<(Path, Value)>) -> Seq<(Seq<Seq<char>>, ValueView)> {
    Seq::new(s.len(), |i: int| (s[i].0@, s[i].1@))
}

/// The shape of an optional page.
pub open spec fn page_view(p: Option<Page>) -> Option<(u64, Option<u64>)> {
    match p {
        Some(page) => Some((page.number, page.size)),
        None => None,
    }
}

/// The five well-known query parameters of one request.
#[derive(Debug, PartialEq)]
pub struct Query {
    /// A map from resource type to the set of field names the client wants
    /// for that type; a type with no entry means every field.
    pub fields: OrderedMap<Key, OrderedSet<Key>>,
    /// A map from field path to the value the client filters by.
    pub filter: OrderedMap<Path, Value>,
    /// The relationship paths whose targets the client wants included.
    pub includes: OrderedSet<Path>,
    /// Pagination parameters, when given.
    pub page: Option<Page>,
    /// Sort instructions, in order.
    pub sort: OrderedSet<Sort>,
}

impl View for Query {
    type V = QueryView;

    open spec fn view(&self) -> QueryView {
        QueryView {
            fields: fields_views(self.fields@),
            filter: filter_views(self.filter@),
            includes: path_set_views(self.includes@),
            page: page_view(self.page),
            sort: sort_set_views(self.sort@),
        }
    }
}

impl Query {
    /// The decoded equivalent of an empty query string.
    pub fn new() -> (r: Query)
        ensures
            r@ =~= QueryView::empty(),
    {
        Query {
            fields: OrderedMap::new(),
            filter: OrderedMap::new(),
            includes: OrderedSet::new(),
            page: None,
            sort: OrderedSet::new(),
        }
    }

    /// A builder that accumulates raw component strings and validates them
    /// all at once.
    pub fn builder() -> (r: Builder)
        ensures
            r.is_empty(),
    {
        Builder::new()
    }
}

impl Default for Query {
    /// The default query is the decoding of an empty query string.
    fn default() -> (r: Query)
        ensures
            r@ =~= QueryView::empty(),
    {
        Query::new()
    }
}

} // verus!
