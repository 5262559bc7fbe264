//! Rendering a value as a document.
use vstd::prelude::*;

use crate::doc::{Data, Document, Identifier, JsonApi, NewObject, Object, PrimaryData, Version};
use crate::error::Error;
use crate::query::Query;
use crate::value::collections::map::OrderedMap;
use crate::value::collections::set::OrderedSet;

verus! {

/// The document-level information a fresh render carries: no meta
/// information and the latest supported version.
pub open spec fn default_jsonapi(j: JsonApi) -> bool {
    j.version == Version::V1 && j.meta@ == Seq::<
        (crate::value::fields::Key, crate::value::value::Value),
    >::empty()
}

/// A value that can be rendered as a document.
pub trait Render<T: PrimaryData>: Sized {
    /// What holds of a document this value successfully renders to.
    spec fn render_shape(self, query: Option<&Query>, doc: Document<T>) -> bool;

    /// Renders this value as a document, under the given query.
    fn render(self, query: Option<&Query>) -> (r: Result<Document<T>, Error>)
        ensures
            r matches Ok(doc) ==> self.render_shape(query, doc),
    ;
}

impl Render<Identifier> for Identifier {
    /// An identifier renders to a document whose primary data is the
    /// identifier itself, with the identifier's meta information moved to
    /// the document and nothing included.
    open spec fn render_shape(self, query: Option<&Query>, doc: Document<Identifier>) -> bool {
        &&& doc matches Document::Success { data, included, jsonapi, links, meta }
        &&& data matches Data::Member(opt)
        &&& *opt matches Some(ident)
        &&& ident.id == self.id
        &&& ident.kind == self.kind
        &&& ident.meta@ == Seq::<(crate::value::fields::Key, crate::value::value::Value)>::empty()
        &&& meta == self.meta
        &&& links@ == Seq::<(crate::value::fields::Key, crate::doc::Link)>::empty()
        &&& default_jsonapi(jsonapi)
        &&& included@ == Seq::<Object>::empty()
    }

    fn render(self, query: Option<&Query>) -> (r: Result<Document<Identifier>, Error>)
        ensures
            r is Ok,
    {
        let Identifier { id, kind, meta } = self;
        let ident = Identifier::new(kind, id);
        proof {
            assert(ident.meta@ =~= Seq::<
                (crate::value::fields::Key, crate::value::value::Value),
            >::empty());
        }
        let included: OrderedSet<Object> = OrderedSet::new();
        proof {
            assert(included@ =~= Seq::<Object>::empty());
        }
        Ok(
            Document::Success {
                data: Data::Member(Box::new(Some(ident))),
                included,
                jsonapi: JsonApi::default(),
                links: OrderedMap::new(),
                meta,
            },
        )
    }
}

impl Render<Identifier> for Vec<Identifier> {
    /// A collection of identifiers renders to a document whose primary
    /// data is the collection itself, with nothing included.
    open spec fn render_shape(self, query: Option<&Query>, doc: Document<Identifier>) -> bool {
        &&& doc matches Document::Success { data, included, jsonapi, links, meta }
        &&& data == Data::Collection(self)
        &&& links@ == Seq::<(crate::value::fields::Key, crate::doc::Link)>::empty()
        &&& meta@ == Seq::<(crate::value::fields::Key, crate::value::value::Value)>::empty()
        &&& default_jsonapi(jsonapi)
        &&& included@ == Seq::<Object>::empty()
    }

    fn render(self, query: Option<&Query>) -> (r: Result<Document<Identifier>, Error>)
        ensures
            r is Ok,
    {
        let included: OrderedSet<Object> = OrderedSet::new();
        proof {
            assert(included@ =~= Seq::<Object>::empty());
        }
        Ok(
            Document::Success {
                data: Data::Collection(self),
                included,
                jsonapi: JsonApi::default(),
                links: OrderedMap::new(),
                meta: OrderedMap::new(),
            },
        )
    }
}

impl Render<Object> for Object {
    /// An object renders to a document whose primary data is the object
    /// itself, with the object's links and meta information moved to the
    /// document and nothing included.
    open spec fn render_shape(self, query: Option<&Query>, doc: Document<Object>) -> bool {
        &&& doc matches Document::Success { data, included, jsonapi, links, meta }
        &&& data matches Data::Member(opt)
        &&& *opt matches Some(o)
        &&& o.id == self.id
        &&& o.kind == self.kind
        &&& o.attributes == self.attributes
        &&& o.relationships == self.relationships
        &&& o.links@ == Seq::<(crate::value::fields::Key, crate::doc::Link)>::empty()
        &&& o.meta@ == Seq::<(crate::value::fields::Key, crate::value::value::Value)>::empty()
        &&& links == self.links
        &&& meta == self.meta
        &&& default_jsonapi(jsonapi)
        &&& included@ == Seq::<Object>::empty()
    }

    fn render(self, query: Option<&Query>) -> (r: Result<Document<Object>, Error>)
        ensures
            r is Ok,
    {
        let Object { attributes, id, kind, links, meta, relationships } = self;
        let mut o = Object::new(kind, id);
        o.attributes = attributes;
        o.relationships = relationships;
        let included: OrderedSet<Object> = OrderedSet::new();
        proof {
            assert(included@ =~= Seq::<Object>::empty());
        }
        Ok(
            Document::Success {
                data: Data::Member(Box::new(Some(o))),
                included,
                jsonapi: JsonApi::default(),
                links,
                meta,
            },
        )
    }
}

impl Render<Object> for Vec<Object> {
    /// A collection of objects renders to a document whose primary data is
    /// the collection itself, with nothing included.
    open spec fn render_shape(self, query: Option<&Query>, doc: Document<Object>) -> bool {
        &&& doc matches Document::Success { data, included, jsonapi, links, meta }
        &&& data == Data::Collection(self)
        &&& links@ == Seq::<(crate::value::fields::Key, crate::doc::Link)>::empty()
        &&& meta@ == Seq::<(crate::value::fields::Key, crate::value::value::Value)>::empty()
        &&& default_jsonapi(jsonapi)
        &&& included@ == Seq::<Object>::empty()
    }

    fn render(self, query: Option<&Query>) -> (r: Result<Document<Object>, Error>)
        ensures
            r is Ok,
    {
        let included: OrderedSet<Object> = OrderedSet::new();
        proof {
            assert(included@ =~= Seq::<Object>::empty());
        }
        Ok(
            Document::Success {
                data: Data::Collection(self),
                included,
                jsonapi: JsonApi::default(),
                links: OrderedMap::new(),
                meta: OrderedMap::new(),
            },
        )
    }
}

impl Render<NewObject> for NewObject {
    /// A resource that does not exist yet renders to a document whose
    /// primary data is the resource itself.
    open spec fn render_shape(self, query: Option<&Query>, doc: Document<NewObject>) -> bool {
        &&& doc matches Document::Success { data, included, jsonapi, links, meta }
        &&& data matches Data::Member(opt)
        &&& *opt == Some(self)
        &&& links@ == Seq::<(crate::value::fields::Key, crate::doc::Link)>::empty()
        &&& meta@ == Seq::<(crate::value::fields::Key, crate::value::value::Value)>::empty()
        &&& default_jsonapi(jsonapi)
        &&& included@ == Seq::<Object>::empty()
    }

    fn render(self, query: Option<&Query>) -> (r: Result<Document<NewObject>, Error>)
        ensures
            r is Ok,
    {
        let included: OrderedSet<Object> = OrderedSet::new();
        proof {
            assert(included@ =~= Seq::<Object>::empty());
        }
        Ok(
            Document::Success {
                data: Data::Member(Box::new(Some(self))),
                included,
                jsonapi: JsonApi::default(),
                links: OrderedMap::new(),
                meta: OrderedMap::new(),
            },
        )
    }
}

impl<D: PrimaryData, T: Render<D>> Render<D> for Option<T> {
    /// An absent value renders to a document whose primary data is one
    /// absent member; a present value renders as the value does.
    open spec fn render_shape(self, query: Option<&Query>, doc: Document<D>) -> bool {
        match self {
            Some(value) => value.render_shape(query, doc),
            None => {
                &&& doc matches Document::Success { data, included, jsonapi, links, meta }
                &&& data matches Data::Member(opt)
                &&& *opt is None
                &&& links@ == Seq::<(crate::value::fields::Key, crate::doc::Link)>::empty()
                &&& meta@ == Seq::<(crate::value::fields::Key, crate::value::value::Value)>::empty()
                &&& default_jsonapi(jsonapi)
                &&& included@ == Seq::<Object>::empty()
            },
        }
    }

    fn render(self, query: Option<&Query>) -> (r: Result<Document<D>, Error>)
        ensures
            self is None ==> r is Ok,
    {
        match self {
            Some(value) => value.render(query),
            None => {
                let included: OrderedSet<Object> = OrderedSet::new();
                proof {
                    assert(included@ =~= Seq::<Object>::empty());
                }
                Ok(
                    Document::Success {
                        data: Data::Member(Box::new(None)),
                        included,
                        jsonapi: JsonApi::default(),
                        links: OrderedMap::new(),
                        meta: OrderedMap::new(),
                    },
                )
            },
        }
    }
}

/// Flattening the rendering of an absent resource gives null: an absent
/// member renders to a document whose primary data flattens to the null
/// value, whatever the query.
pub proof fn lemma_flatten_absent_render<D: PrimaryData, T: Render<D>>(
    value: Option<T>,
    query: Option<&Query>,
    doc: Document<D>,
)
    requires
        value is None,
        value.render_shape(query, doc),
    ensures
        doc matches Document::Success { data, included, .. } && crate::doc::data_flatten_spec::<
            D,
        >(data, included@) == crate::value::value::ValueView::Null,
{
}

/// Renders the value as a document, under the given query.
pub fn to_doc<T: Render<U>, U: PrimaryData>(value: T, query: Option<&Query>) -> (r: Result<
    Document<U>,
    Error,
>)
    ensures
        r matches Ok(doc) ==> value.render_shape(query, doc),
{
    value.render(query)
}

} // verus!
