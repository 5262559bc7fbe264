//! The capability a type needs so the library can render it as a resource.
use vstd::prelude::*;

use crate::doc::{Data, Document, Identifier, JsonApi, Object, Relationship};
use crate::error::Error;
use crate::query::Query;
use crate::value::collections::map::OrderedMap;
use crate::value::collections::set::OrderedSet;
use crate::value::fields::Key;
use crate::view::render::default_jsonapi;
use crate::view::{Context, Render};

verus! {

/// A type that can be represented as a resource.
///
/// The library renders any implementation into identifiers, objects and
/// compound documents; implementations decide what the resource's type, id,
/// attributes and relationships are, gating each field on
/// [`Context::field`] and expanding each relationship with [`has_one`] and
/// [`has_many`].
pub trait Resource {
    /// The type of this resource; constant for the implementing type.
    fn kind() -> Key;

    /// The resource's id, as a string.
    fn id(&self) -> String;

    /// Renders the resource as an identifier object.
    fn to_ident(&self, ctx: &Context) -> Result<Identifier, Error>;

    /// Renders the resource as a resource object, adding what the context
    /// asks to include to the shared set.
    fn to_object(&self, ctx: &Context, included: &mut OrderedSet<Object>) -> Result<Object, Error>;
}

/// Renders a to-one relationship, as the rendering engine asks of every
/// relationship: the target's identifier under the forked child context,
/// and, exactly when the child context's path is asked for, the target's
/// full object added to the included set.
pub fn has_one<T: Resource>(
    ctx: &Context,
    included: &mut OrderedSet<Object>,
    key: &Key,
    item: Option<&T>,
) -> (r: Result<Relationship, Error>)
    ensures
        r matches Ok(rel) ==> (rel.data matches Data::Member(opt) && (*opt is Some <==> item
            is Some)),
        item is None ==> r is Ok && final(included)@ == old(included)@,
        (match ctx.query {
            Some(q) => !q@.includes.contains(ctx.path@.push(key@)),
            None => true,
        }) ==> final(included)@ == old(included)@,
{
    match item {
        None => Ok(Relationship::new(Data::Member(Box::new(None)))),
        Some(it) => {
            let child = ctx.fork(T::kind(), key);
            let ident = match it.to_ident(&child) {
                Ok(i) => i,
                Err(e) => {
                    return Err(e);
                },
            };
            if child.included() {
                let object = match it.to_object(&child, included) {
                    Ok(o) => o,
                    Err(e) => {
                        return Err(e);
                    },
                };
                let _ = child.include_resource(included, object);
            }
            Ok(Relationship::new(Data::Member(Box::new(Some(ident)))))
        },
    }
}

/// Renders a to-many relationship, as the rendering engine asks of every
/// relationship: one identifier per target under the forked child context,
/// and, exactly when the child context's path is asked for, each target's
/// full object added to the included set.
pub fn has_many<T: Resource>(
    ctx: &Context,
    included: &mut OrderedSet<Object>,
    key: &Key,
    items: &Vec<T>,
) -> (r: Result<Relationship, Error>)
    ensures
        r matches Ok(rel) ==> (rel.data matches Data::Collection(v) && v@.len() == items@.len()),
        items@.len() == 0 ==> r is Ok && final(included)@ == old(included)@,
        (match ctx.query {
            Some(q) => !q@.includes.contains(ctx.path@.push(key@)),
            None => true,
        }) ==> final(included)@ == old(included)@,
{
    let child = ctx.fork(T::kind(), key);
    let n = items.len();
    let mut data: Vec<Identifier> = Vec::with_capacity(n);
    let expand = child.included();
    let mut i: usize = 0;
    while i < n
        invariant
            n == items@.len(),
            i <= n,
            data@.len() == i,
            expand == (match ctx.query {
                Some(q) => q@.includes.contains(ctx.path@.push(key@)),
                None => false,
            }),
            !expand ==> included@ == old(included)@,
            n == 0 ==> included@ == old(included)@,
        decreases n - i,
    {
        if expand {
            let object = match items[i].to_object(&child, included) {
                Ok(o) => o,
                Err(e) => {
                    return Err(e);
                },
            };
            let ident = object.to_identifier();
            let _ = child.include_resource(included, object);
            data.push(ident);
        } else {
            let ident = match items[i].to_ident(&child) {
                Ok(id) => id,
                Err(e) => {
                    return Err(e);
                },
            };
            data.push(ident);
        }
        i = i + 1;
    }
    Ok(Relationship::new(Data::Collection(data)))
}

impl<'a, T: Resource> Render<Identifier> for &'a T {
    /// A resource renders as an identifier document: one present member.
    open spec fn render_shape(self, query: Option<&Query>, doc: Document<Identifier>) -> bool {
        &&& doc matches Document::Success { data, included, jsonapi, links, meta }
        &&& data matches Data::Member(opt)
        &&& *opt is Some
        &&& links@ == Seq::<(Key, crate::doc::Link)>::empty()
        &&& meta@ == Seq::<(Key, crate::value::value::Value)>::empty()
        &&& default_jsonapi(jsonapi)
        &&& included@ == Seq::<Object>::empty()
    }

    fn render(self, query: Option<&Query>) -> (r: Result<Document<Identifier>, Error>) {
        let ctx = Context::new(T::kind(), query);
        let ident = match self.to_ident(&ctx) {
            Ok(i) => i,
            Err(e) => {
                return Err(e);
            },
        };
        let included: OrderedSet<Object> = OrderedSet::new();
        proof {
            assert(included@ =~= Seq::<Object>::empty());
        }
        Ok(
            Document::Success {
                data: Data::Member(Box::new(Some(ident))),
                included,
                jsonapi: JsonApi::default(),
                links: OrderedMap::new(),
                meta: OrderedMap::new(),
            },
        )
    }
}

impl<'a, T: Resource> Render<Identifier> for &'a Vec<T> {
    /// A collection of resources renders as an identifier document: one
    /// identifier per resource.
    open spec fn render_shape(self, query: Option<&Query>, doc: Document<Identifier>) -> bool {
        &&& doc matches Document::Success { data, included, jsonapi, links, meta }
        &&& data matches Data::Collection(v)
        &&& v@.len() == self@.len()
        &&& links@ == Seq::<(Key, crate::doc::Link)>::empty()
        &&& meta@ == Seq::<(Key, crate::value::value::Value)>::empty()
        &&& default_jsonapi(jsonapi)
        &&& included@ == Seq::<Object>::empty()
    }

    fn render(self, query: Option<&Query>) -> (r: Result<Document<Identifier>, Error>) {
        let ctx = Context::new(T::kind(), query);
        let n = self.len();
        let mut data: Vec<Identifier> = Vec::with_capacity(n);
        let mut i: usize = 0;
        while i < n
            invariant
                n == self@.len(),
                i <= n,
                data@.len() == i,
            decreases n - i,
        {
            let ident = match self[i].to_ident(&ctx) {
                Ok(id) => id,
                Err(e) => {
                    return Err(e);
                },
            };
            data.push(ident);
            i = i + 1;
        }
        let included: OrderedSet<Object> = OrderedSet::new();
        proof {
            assert(included@ =~= Seq::<Object>::empty());
        }
        Ok(
            Document::Success {
                data: Data::Collection(data),
                included,
                jsonapi: JsonApi::default(),
                links: OrderedMap::new(),
                meta: OrderedMap::new(),
            },
        )
    }
}

impl<'a, T: Resource> Render<Object> for &'a T {
    /// A resource renders as a compound document: its object as the one
    /// present member, the object's links and meta information moved to
    /// the document, and whatever the walk included alongside.
    open spec fn render_shape(self, query: Option<&Query>, doc: Document<Object>) -> bool {
        &&& doc matches Document::Success { data, jsonapi, .. }
        &&& data matches Data::Member(opt)
        &&& *opt matches Some(o)
        &&& o.links@ == Seq::<(Key, crate::doc::Link)>::empty()
        &&& o.meta@ == Seq::<(Key, crate::value::value::Value)>::empty()
        &&& default_jsonapi(jsonapi)
    }

    fn render(self, query: Option<&Query>) -> (r: Result<Document<Object>, Error>) {
        let ctx = Context::new(T::kind(), query);
        let mut included: OrderedSet<Object> = OrderedSet::new();
        let mut obj = match self.to_object(&ctx, &mut included) {
            Ok(o) => o,
            Err(e) => {
                return Err(e);
            },
        };
        let mut links: OrderedMap<Key, crate::doc::Link> = OrderedMap::new();
        let mut meta: OrderedMap<Key, crate::value::value::Value> = OrderedMap::new();
        core::mem::swap(&mut obj.links, &mut links);
        core::mem::swap(&mut obj.meta, &mut meta);
        proof {
            assert(obj.links@ =~= Seq::<(Key, crate::doc::Link)>::empty());
            assert(obj.meta@ =~= Seq::<(Key, crate::value::value::Value)>::empty());
        }
        Ok(
            Document::Success {
                data: Data::Member(Box::new(Some(obj))),
                included,
                jsonapi: JsonApi::default(),
                links,
                meta,
            },
        )
    }
}

impl<'a, T: Resource> Render<Object> for &'a Vec<T> {
    /// A collection of resources renders as a compound document: one
    /// object per resource, and whatever the walk included alongside.
    open spec fn render_shape(self, query: Option<&Query>, doc: Document<Object>) -> bool {
        &&& doc matches Document::Success { data, jsonapi, links, meta, .. }
        &&& data matches Data::Collection(v)
        &&& v@.len() == self@.len()
        &&& links@ == Seq::<(Key, crate::doc::Link)>::empty()
        &&& meta@ == Seq::<(Key, crate::value::value::Value)>::empty()
        &&& default_jsonapi(jsonapi)
    }

    fn render(self, query: Option<&Query>) -> (r: Result<Document<Object>, Error>) {
        let ctx = Context::new(T::kind(), query);
        let mut included: OrderedSet<Object> = OrderedSet::new();
        let n = self.len();
        let mut data: Vec<Object> = Vec::with_capacity(n);
        let mut i: usize = 0;
        while i < n
            invariant
                n == self@.len(),
                i <= n,
                data@.len() == i,
            decreases n - i,
        {
            let obj = match self[i].to_object(&ctx, &mut included) {
                Ok(o) => o,
                Err(e) => {
                    return Err(e);
                },
            };
            data.push(obj);
            i = i + 1;
        }
        Ok(
            Document::Success {
                data: Data::Collection(data),
                included,
                jsonapi: JsonApi::default(),
                links: OrderedMap::new(),
                meta: OrderedMap::new(),
            },
        )
    }
}

} // verus!
