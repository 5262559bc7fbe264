//! Components of a JSON API document.

pub mod error;
pub mod ident;
pub mod link;
pub mod object;
pub mod relationship;
pub mod specification;

use vstd::prelude::*;

use crate::value::collections::keyed::{dinsert_all, lemma_entry_index_matches, lemma_entry_index_props, Keyed};
use crate::value::collections::map::OrderedMap;
use crate::value::collections::set::{item_index_of, lemma_item_index_at, OrderedSet};
use crate::value::fields::{key_wf, kebab_shaped, member_name_ok, Key};
use crate::value::value::{entry_value_views, Value, ValueView};

pub use self::error::ErrorObject;
pub use self::error::ErrorSource;
pub use self::ident::Identifier;
pub use self::link::Link;
pub use self::object::NewObject;
pub use self::object::Object;
pub use self::relationship::Relationship;
pub use self::specification::JsonApi;
pub use self::specification::Version;

verus! {

/// The data of a document or of a resource linkage: one optional resource
/// for requests that target single resources, or a collection.
#[derive(Debug, Clone, PartialEq)]
pub enum Data<T> {
    /// A collection of resources.
    Collection(Vec<T>),
    /// One optional resource.
    Member(Box<Option<T>>),
}

/// The fuel that bounds how deep flattening follows resource linkage into
/// the included resources: enough to visit every included resource once.
pub open spec fn top_fuel(n: nat) -> nat {
    if n + 1 <= u64::MAX {
        n + 1
    } else {
        u64::MAX as nat
    }
}

/// What flattening an identifier returns: the flattening of the matching
/// included resource when there is one and fuel remains, else the bare id
/// as a string.
pub open spec fn flatten_ident(ident: Identifier, incl: Seq<Object>, fuel: nat) -> ValueView
    decreases fuel, 0int, 0int,
{
    let idx = item_index_of(incl, (ident.id@, ident.kind@));
    if 0 <= idx < incl.len() && fuel > 0 {
        flatten_object(incl[idx], incl, (fuel - 1) as nat)
    } else {
        ValueView::String(ident.id@)
    }
}

/// What flattening a resource object returns: one object holding its `id`,
/// its attributes, and each relationship flattened, inserted in that order.
pub open spec fn flatten_object(o: Object, incl: Seq<Object>, fuel: nat) -> ValueView
    decreases fuel, 4int, 0int,
{
    ValueView::Object(
        dinsert_all(
            dinsert_all(
                seq![("id"@, ValueView::String(o.id@))],
                entry_value_views(o.attributes@),
            ),
            rel_entries(o.relationships@, incl, fuel),
        ),
    )
}

/// The flattened entries of a resource's relationships, in order.
pub open spec fn rel_entries(rels: Seq<(Key, Relationship)>, incl: Seq<Object>, fuel: nat) -> Seq<
    (Seq<char>, ValueView),
>
    decreases fuel, 3int, rels.len(),
{
    if rels.len() == 0 {
        Seq::empty()
    } else {
        seq![(rels[0].0@, flatten_data(rels[0].1.data, incl, fuel))] + rel_entries(
            rels.drop_first(),
            incl,
            fuel,
        )
    }
}

/// What flattening resource linkage returns: null for an absent member, the
/// flattened target for a present one, and an array of flattened targets
/// for a collection.
pub open spec fn flatten_data(d: Data<Identifier>, incl: Seq<Object>, fuel: nat) -> ValueView
    decreases fuel, 2int, 0int,
{
    match d {
        Data::Member(opt) => match *opt {
            Some(ident) => flatten_ident(ident, incl, fuel),
            None => ValueView::Null,
        },
        Data::Collection(v) => ValueView::Array(flatten_idents(v@, incl, fuel)),
    }
}

/// The flattenings of a sequence of identifiers, in order.
pub open spec fn flatten_idents(v: Seq<Identifier>, incl: Seq<Object>, fuel: nat) -> Seq<ValueView>
    decreases fuel, 1int, v.len(),
{
    if v.len() == 0 {
        Seq::empty()
    } else {
        seq![flatten_ident(v[0], incl, fuel)] + flatten_idents(v.drop_first(), incl, fuel)
    }
}

/// What flattening a resource that does not exist yet returns: its optional
/// `id`, its attributes, and each relationship reduced to bare ids.
pub open spec fn flatten_new_object(o: NewObject) -> ValueView {
    ValueView::Object(
        dinsert_all(
            dinsert_all(
                match o.id {
                    Some(id) => seq![("id"@, ValueView::String(id@))],
                    None => Seq::empty(),
                },
                entry_value_views(o.attributes@),
            ),
            new_rel_entries(o.relationships@),
        ),
    )
}

/// The entries of a new resource's relationships: linkage reduced to bare
/// ids.
pub open spec fn new_rel_entries(rels: Seq<(Key, Relationship)>) -> Seq<(Seq<char>, ValueView)>
    decreases rels.len(),
{
    if rels.len() == 0 {
        Seq::empty()
    } else {
        seq![(rels[0].0@, new_rel_value(rels[0].1.data))] + new_rel_entries(rels.drop_first())
    }
}

/// A new resource's linkage as a value: bare ids, without lookup.
pub open spec fn new_rel_value(d: Data<Identifier>) -> ValueView {
    match d {
        Data::Member(opt) => match *opt {
            Some(ident) => ValueView::String(ident.id@),
            None => ValueView::Null,
        },
        Data::Collection(v) => ValueView::Array(
            Seq::new(v@.len(), |i: int| ValueView::String(v@[i].id@)),
        ),
    }
}

/// A type that can be the primary data of a document.
pub trait PrimaryData: crate::Sealed + Sized {
    /// What flattening this resource against the given included resources
    /// returns.
    spec fn flatten_spec(self, incl: Seq<Object>) -> ValueView;

    /// Flattens this resource into one denormalized value, resolving its
    /// resource linkage against the included resources.
    fn flatten(self, included: &OrderedSet<Object>) -> (r: Value)
        ensures
            r@ == self.flatten_spec(included@),
    ;
}

impl crate::Sealed for Identifier {

}

impl crate::Sealed for Object {

}

impl crate::Sealed for NewObject {

}

impl PrimaryData for Identifier {
    /// An identifier flattens to the flattening of the matching included
    /// resource, or to its bare id.
    open spec fn flatten_spec(self, incl: Seq<Object>) -> ValueView {
        flatten_ident(self, incl, top_fuel(incl.len()))
    }

    fn flatten(self, included: &OrderedSet<Object>) -> (r: Value) {
        let fuel = exec_top_fuel(included.len());
        flatten_ident_exec(&self, included, fuel)
    }
}

impl PrimaryData for Object {
    /// An object flattens to its `id`, its attributes, and its flattened
    /// relationships.
    open spec fn flatten_spec(self, incl: Seq<Object>) -> ValueView {
        flatten_object(self, incl, top_fuel(incl.len()))
    }

    fn flatten(self, included: &OrderedSet<Object>) -> (r: Value) {
        let fuel = exec_top_fuel(included.len());
        flatten_object_exec(&self, included, fuel)
    }
}

impl PrimaryData for NewObject {
    /// A new resource flattens to its optional `id`, its attributes, and
    /// its linkage reduced to bare ids.
    open spec fn flatten_spec(self, incl: Seq<Object>) -> ValueView {
        flatten_new_object(self)
    }

    fn flatten(self, included: &OrderedSet<Object>) -> (r: Value) {
        flatten_new_object_exec(self)
    }
}

/// The fuel that bounds flattening, as a machine integer.
fn exec_top_fuel(n: usize) -> (r: u64)
    ensures
        r as nat == top_fuel(n as nat),
{
    if (n as u64) < u64::MAX {
        (n as u64) + 1
    } else {
        u64::MAX
    }
}

/// The member name `id`, which every flattened resource carries.
fn id_key() -> (r: Key)
    ensures
        r@ == "id"@,
{
    proof {
        lemma_id_name_ok();
    }
    let r = match Key::from_str("id") {
        Ok(k) => k,
        Err(_) => unreached(),
    };
    proof {
        lemma_id_name_ok();
        crate::value::fields::lemma_kebab_fixpoint("id"@);
    }
    r
}

/// The text `id` is a well-formed member name.
proof fn lemma_id_name_ok()
    ensures
        key_wf("id"@),
{
    reveal_strlit("id");
    assert(member_name_ok("id"@)) by {
        assert(forall|i: int|
            0 <= i < "id"@.len() ==> !crate::value::fields::is_reserved_char(
                #[trigger] "id"@[i],
            )) by {
            assert("id"@[0] == 'i' && "id"@[1] == 'd');
        }
    }
    assert(kebab_shaped("id"@)) by {
        assert("id"@[0] == 'i' && "id"@[1] == 'd');
    }
}

/// Flattens an identifier: the flattening of the matching included
/// resource when there is one and fuel remains, else the bare id.
fn flatten_ident_exec(ident: &Identifier, included: &OrderedSet<Object>, fuel: u64) -> (r: Value)
    ensures
        r@ == flatten_ident(*ident, included@, fuel as nat),
    decreases fuel, 0int, 0int,
{
    let ghost id = (ident.id@, ident.kind@);
    let n = included.len();
    let mut i: usize = 0;
    while i < n
        invariant
            id == (ident.id@, ident.kind@),
            n == included@.len(),
            i <= n,
            forall|j: int| 0 <= j < i ==> (#[trigger] included@[j]).key_ident() != id,
        decreases n - i,
    {
        let o = included.item_at(i);
        if ident.id.eq(&o.id) && ident.kind.key_eq(&o.kind) {
            proof {
                lemma_item_index_at(included@, id, i as int);
            }
            if fuel == 0 {
                return Value::String(ident.id.clone());
            }
            return flatten_object_exec(included.item_at(i), included, fuel - 1);
        }
        i = i + 1;
    }
    proof {
        lemma_item_index_at(included@, id, n as int);
    }
    Value::String(ident.id.clone())
}

/// Flattens a resource object: one object holding its `id`, its attributes,
/// and each relationship flattened, inserted in that order.
fn flatten_object_exec(o: &Object, included: &OrderedSet<Object>, fuel: u64) -> (r: Value)
    ensures
        r@ == flatten_object(*o, included@, fuel as nat),
    decreases fuel, 4int, 0int,
{
    let mut map: OrderedMap<Key, Value> = OrderedMap::new();
    let idk = id_key();
    proof {
        assert(crate::value::collections::keyed::entries_have_key(map@, idk.key_ident())
            == false) by {
            assert(crate::value::collections::keyed::entry_index_of(map@, idk.key_ident()) == -1);
        }
    }
    let _ = map.insert(idk, Value::String(o.id.clone()));
    let ghost start = seq![("id"@, ValueView::String(o.id@))];
    proof {
        assert(entry_value_views(map@) =~= start);
    }
    let ghost attrs = entry_value_views(o.attributes@);
    let ghost after_attrs = dinsert_all(start, attrs);
    let na = o.attributes.len();
    let mut i: usize = 0;
    proof {
        assert(attrs.skip(0) =~= attrs);
    }
    while i < na
        invariant
            na == o.attributes@.len(),
            attrs == entry_value_views(o.attributes@),
            attrs.len() == na,
            after_attrs == dinsert_all(start, attrs),
            i <= na,
            dinsert_all(entry_value_views(map@), attrs.skip(i as int)) == after_attrs,
        decreases na - i,
    {
        let k = o.attributes.key_at(i).clone();
        let v = o.attributes.value_at(i).clone();
        let ghost kid = k@;
        let ghost vv = v@;
        let ghost pre = map@;
        let _ = map.insert(k, v);
        proof {
            lemma_entry_index_matches(pre, entry_value_views(pre), kid);
            lemma_entry_index_props(pre, kid);
            assert(entry_value_views(map@) =~= crate::value::collections::keyed::dinsert(
                entry_value_views(pre),
                kid,
                vv,
            ));
            assert(attrs.skip(i as int).drop_first() =~= attrs.skip(i as int + 1));
            assert((kid, vv) == attrs.skip(i as int)[0]);
        }
        i = i + 1;
    }
    proof {
        assert(attrs.skip(na as int) =~= Seq::<(Seq<char>, ValueView)>::empty());
    }
    let ghost rels = rel_entries(o.relationships@, included@, fuel as nat);
    let ghost fin = dinsert_all(after_attrs, rels);
    proof {
        lemma_rel_entries(o.relationships@, included@, fuel as nat);
        assert(rels.skip(0) =~= rels);
    }
    let nr = o.relationships.len();
    let mut i: usize = 0;
    while i < nr
        invariant
            nr == o.relationships@.len(),
            rels == rel_entries(o.relationships@, included@, fuel as nat),
            rels.len() == nr,
            fin == dinsert_all(after_attrs, rels),
            forall|j: int|
                0 <= j < nr ==> #[trigger] rels[j] == (
                    o.relationships@[j].0@,
                    flatten_data(o.relationships@[j].1.data, included@, fuel as nat),
                ),
            i <= nr,
            dinsert_all(entry_value_views(map@), rels.skip(i as int)) == fin,
        decreases nr - i,
    {
        let k = o.relationships.key_at(i).clone();
        let v = flatten_data_exec(&o.relationships.value_at(i).data, included, fuel);
        let ghost kid = k@;
        let ghost vv = v@;
        let ghost pre = map@;
        let _ = map.insert(k, v);
        proof {
            lemma_entry_index_matches(pre, entry_value_views(pre), kid);
            lemma_entry_index_props(pre, kid);
            assert(entry_value_views(map@) =~= crate::value::collections::keyed::dinsert(
                entry_value_views(pre),
                kid,
                vv,
            ));
            assert(rels.skip(i as int).drop_first() =~= rels.skip(i as int + 1));
            assert((kid, vv) == rels.skip(i as int)[0]);
        }
        i = i + 1;
    }
    proof {
        assert(rels.skip(nr as int) =~= Seq::<(Seq<char>, ValueView)>::empty());
    }
    let r = Value::Object(map);
    proof {
        Value::lemma_object_view(&map);
    }
    r
}

/// The relationship entries are, pointwise, each relationship's key with
/// its flattened linkage.
proof fn lemma_rel_entries(rels: Seq<(Key, Relationship)>, incl: Seq<Object>, fuel: nat)
    ensures
        rel_entries(rels, incl, fuel).len() == rels.len(),
        forall|j: int|
            0 <= j < rels.len() ==> #[trigger] rel_entries(rels, incl, fuel)[j] == (
                rels[j].0@,
                flatten_data(rels[j].1.data, incl, fuel),
            ),
    decreases rels.len(),
{
    if rels.len() > 0 {
        let t = rels.drop_first();
        lemma_rel_entries(t, incl, fuel);
        assert(forall|j: int| 0 <= j < t.len() ==> t[j] == #[trigger] rels[j + 1]);
    }
}

/// The flattenings of identifiers are, pointwise, each identifier's
/// flattening.
proof fn lemma_flatten_idents(v: Seq<Identifier>, incl: Seq<Object>, fuel: nat)
    ensures
        flatten_idents(v, incl, fuel).len() == v.len(),
        forall|j: int|
            0 <= j < v.len() ==> #[trigger] flatten_idents(v, incl, fuel)[j] == flatten_ident(
                v[j],
                incl,
                fuel,
            ),
    decreases v.len(),
{
    if v.len() > 0 {
        let t = v.drop_first();
        lemma_flatten_idents(t, incl, fuel);
        assert(forall|j: int| 0 <= j < t.len() ==> t[j] == #[trigger] v[j + 1]);
    }
}

/// Flattens resource linkage: null for an absent member, the flattened
/// target for a present one, an array of flattened targets for a
/// collection.
fn flatten_data_exec(d: &Data<Identifier>, included: &OrderedSet<Object>, fuel: u64) -> (r: Value)
    ensures
        r@ == flatten_data(*d, included@, fuel as nat),
    decreases fuel, 2int, 0int,
{
    match d {
        Data::Member(opt) => match &**opt {
            Some(ident) => flatten_ident_exec(ident, included, fuel),
            None => Value::Null,
        },
        Data::Collection(v) => {
            let n = v.len();
            let mut out: Vec<Value> = Vec::with_capacity(n);
            let mut i: usize = 0;
            proof {
                lemma_flatten_idents(v@, included@, fuel as nat);
            }
            while i < n
                invariant
                    n == v@.len(),
                    i <= n,
                    out@.len() == i,
                    flatten_idents(v@, included@, fuel as nat).len() == n,
                    forall|j: int|
                        0 <= j < i ==> #[trigger] out@[j]@ == flatten_idents(
                            v@,
                            included@,
                            fuel as nat,
                        )[j],
                    forall|j: int|
                        0 <= j < n ==> #[trigger] flatten_idents(v@, included@, fuel as nat)[j]
                            == flatten_ident(v@[j], included@, fuel as nat),
                decreases n - i,
            {
                proof {
                    assert(decreases_to!(fuel, 2int, 0int => fuel, 1int, 0int));
                }
                let item = flatten_ident_exec(&v[i], included, fuel);
                out.push(item);
                i = i + 1;
            }
            let r = Value::Array(out);
            proof {
                Value::lemma_array_view(&out);
                assert(crate::value::value::value_views(out@) =~= flatten_idents(
                    v@,
                    included@,
                    fuel as nat,
                ));
            }
            r
        },
    }
}

/// Flattens a resource that does not exist yet: its optional `id`, its
/// attributes, and its linkage reduced to bare ids.
fn flatten_new_object_exec(o: NewObject) -> (r: Value)
    ensures
        r@ == flatten_new_object(o),
{
    let mut map: OrderedMap<Key, Value> = OrderedMap::new();
    let ghost start: Seq<(Seq<char>, ValueView)> = if o.id is Some {
        seq![("id"@, ValueView::String(o.id->0@))]
    } else {
        Seq::empty()
    };
    match &o.id {
        Some(id) => {
            let idk = id_key();
            let _ = map.insert(idk, Value::String(id.clone()));
            proof {
                assert(entry_value_views(map@) =~= start);
            }
        },
        None => {
            proof {
                assert(entry_value_views(map@) =~= start);
            }
        },
    }
    let ghost attrs = entry_value_views(o.attributes@);
    let ghost after_attrs = dinsert_all(start, attrs);
    let na = o.attributes.len();
    let mut i: usize = 0;
    proof {
        assert(attrs.skip(0) =~= attrs);
    }
    while i < na
        invariant
            na == o.attributes@.len(),
            attrs == entry_value_views(o.attributes@),
            attrs.len() == na,
            after_attrs == dinsert_all(start, attrs),
            i <= na,
            dinsert_all(entry_value_views(map@), attrs.skip(i as int)) == after_attrs,
        decreases na - i,
    {
        let k = o.attributes.key_at(i).clone();
        let v = o.attributes.value_at(i).clone();
        let ghost kid = k@;
        let ghost vv = v@;
        let ghost pre = map@;
        let _ = map.insert(k, v);
        proof {
            lemma_entry_index_matches(pre, entry_value_views(pre), kid);
            lemma_entry_index_props(pre, kid);
            assert(entry_value_views(map@) =~= crate::value::collections::keyed::dinsert(
                entry_value_views(pre),
                kid,
                vv,
            ));
            assert(attrs.skip(i as int).drop_first() =~= attrs.skip(i as int + 1));
            assert((kid, vv) == attrs.skip(i as int)[0]);
        }
        i = i + 1;
    }
    proof {
        assert(attrs.skip(na as int) =~= Seq::<(Seq<char>, ValueView)>::empty());
    }
    let ghost rels = new_rel_entries(o.relationships@);
    let ghost fin = dinsert_all(after_attrs, rels);
    proof {
        lemma_new_rel_entries(o.relationships@);
        assert(rels.skip(0) =~= rels);
    }
    let nr = o.relationships.len();
    let mut i: usize = 0;
    while i < nr
        invariant
            nr == o.relationships@.len(),
            rels == new_rel_entries(o.relationships@),
            rels.len() == nr,
            fin == dinsert_all(after_attrs, rels),
            forall|j: int|
                0 <= j < nr ==> #[trigger] rels[j] == (
                    o.relationships@[j].0@,
                    new_rel_value(o.relationships@[j].1.data),
                ),
            i <= nr,
            dinsert_all(entry_value_views(map@), rels.skip(i as int)) == fin,
        decreases nr - i,
    {
        let k = o.relationships.key_at(i).clone();
        let v = new_rel_value_exec(&o.relationships.value_at(i).data);
        let ghost kid = k@;
        let ghost vv = v@;
        let ghost pre = map@;
        let _ = map.insert(k, v);
        proof {
            lemma_entry_index_matches(pre, entry_value_views(pre), kid);
            lemma_entry_index_props(pre, kid);
            assert(entry_value_views(map@) =~= crate::value::collections::keyed::dinsert(
                entry_value_views(pre),
                kid,
                vv,
            ));
            assert(rels.skip(i as int).drop_first() =~= rels.skip(i as int + 1));
            assert((kid, vv) == rels.skip(i as int)[0]);
        }
        i = i + 1;
    }
    proof {
        assert(rels.skip(nr as int) =~= Seq::<(Seq<char>, ValueView)>::empty());
    }
    let r = Value::Object(map);
    proof {
        Value::lemma_object_view(&map);
    }
    r
}

/// A new resource's relationship entries are, pointwise, each
/// relationship's key with its linkage reduced to bare ids.
proof fn lemma_new_rel_entries(rels: Seq<(Key, Relationship)>)
    ensures
        new_rel_entries(rels).len() == rels.len(),
        forall|j: int|
            0 <= j < rels.len() ==> #[trigger] new_rel_entries(rels)[j] == (
                rels[j].0@,
                new_rel_value(rels[j].1.data),
            ),
    decreases rels.len(),
{
    if rels.len() > 0 {
        let t = rels.drop_first();
        lemma_new_rel_entries(t);
        assert(forall|j: int| 0 <= j < t.len() ==> t[j] == #[trigger] rels[j + 1]);
    }
}

/// A new resource's linkage as a value: bare ids, without lookup.
fn new_rel_value_exec(d: &Data<Identifier>) -> (r: Value)
    ensures
        r@ == new_rel_value(*d),
{
    match d {
        Data::Member(opt) => match &**opt {
            Some(ident) => Value::String(ident.id.clone()),
            None => Value::Null,
        },
        Data::Collection(v) => {
            let n = v.len();
            let mut out: Vec<Value> = Vec::with_capacity(n);
            let mut i: usize = 0;
            while i < n
                invariant
                    n == v@.len(),
                    i <= n,
                    out@.len() == i,
                    forall|j: int|
                        0 <= j < i ==> #[trigger] out@[j]@ == ValueView::String(v@[j].id@),
                decreases n - i,
            {
                out.push(Value::String(v[i].id.clone()));
                i = i + 1;
            }
            let r = Value::Array(out);
            proof {
                Value::lemma_array_view(&out);
                assert(crate::value::value::value_views(out@) =~= Seq::new(
                    v@.len(),
                    |i: int| ValueView::String(v@[i].id@),
                ));
            }
            r
        },
    }
}

/// What flattening a document's primary data returns: null for an absent
/// member, the flattened resource for a present one, and an array of
/// flattened resources for a collection.
pub open spec fn data_flatten_spec<T: PrimaryData>(data: Data<T>, incl: Seq<Object>) -> ValueView {
    match data {
        Data::Member(opt) => match *opt {
            Some(item) => item.flatten_spec(incl),
            None => ValueView::Null,
        },
        Data::Collection(v) => ValueView::Array(
            Seq::new(v@.len(), |i: int| v@[i].flatten_spec(incl)),
        ),
    }
}

/// A compound JSON API document: either primary data with its included
/// resources, or one or more errors. Exactly one of the two is present.
#[derive(Debug, PartialEq)]
pub enum Document<T> {
    /// A document that does not contain errors.
    Success {
        /// The primary data of the document.
        data: Data<T>,
        /// Included resources, resolved from the `include` query parameter
        /// of a client request, each present at most once.
        included: OrderedSet<Object>,
        /// Information about the specification version the document was
        /// created with.
        jsonapi: JsonApi,
        /// Relevant links.
        links: OrderedMap<Key, Link>,
        /// Non-standard meta information.
        meta: OrderedMap<Key, Value>,
    },
    /// A document that contains one or more errors.
    Failure {
        /// The errors.
        errors: Vec<ErrorObject>,
        /// Information about the specification version the document was
        /// created with.
        jsonapi: JsonApi,
        /// Relevant links.
        links: OrderedMap<Key, Link>,
        /// Non-standard meta information.
        meta: OrderedMap<Key, Value>,
    },
}

impl<T: PrimaryData> Document<T> {
    /// True when the document does not contain errors.
    pub fn is_ok(&self) -> (r: bool)
        ensures
            r == (self matches Document::Success { .. }),
    {
        match self {
            Document::Success { .. } => true,
            Document::Failure { .. } => false,
        }
    }

    /// True when the document contains one or more errors.
    pub fn is_err(&self) -> (r: bool)
        ensures
            r == (self matches Document::Failure { .. }),
    {
        match self {
            Document::Success { .. } => false,
            Document::Failure { .. } => true,
        }
    }

    /// Flattens a document into one denormalized value: the primary data
    /// flattened against the included resources. An error document
    /// flattens to nothing.
    ///
    /// Resource linkage is followed at most once per included resource, so
    /// flattening always terminates; on cyclic linkage the innermost
    /// occurrence degrades to the bare id, like a dangling reference.
    pub fn flatten(self) -> (r: Option<Value>)
        ensures
            self matches Document::Success { data, included, .. } ==> (r matches Some(v) && v@
                == data_flatten_spec(data, included@)),
            self matches Document::Failure { .. } ==> r is None,
    {
        match self {
            Document::Success { data, included, .. } => match data {
                Data::Member(opt) => match *opt {
                    Some(item) => Some(item.flatten(&included)),
                    None => Some(Value::Null),
                },
                Data::Collection(v) => {
                    let ghost model = v@;
                    let n = v.len();
                    let mut v = v;
                    let mut out: Vec<Value> = Vec::with_capacity(n);
                    let mut i: usize = 0;
                    while i < n
                        invariant
                            n == model.len(),
                            v@.len() == n - i,
                            v@ =~= model.skip(i as int),
                            i <= n,
                            out@.len() == i,
                            forall|j: int|
                                0 <= j < i ==> #[trigger] out@[j]@ == model[j].flatten_spec(
                                    included@,
                                ),
                        decreases n - i,
                    {
                        let item = v.remove(0);
                        proof {
                            assert(item == model[i as int]);
                            assert(v@ =~= model.skip(i as int + 1));
                        }
                        out.push(item.flatten(&included));
                        i = i + 1;
                    }
                    let r = Value::Array(out);
                    proof {
                        Value::lemma_array_view(&out);
                        assert(crate::value::value::value_views(out@) =~= Seq::new(
                            model.len(),
                            |i: int| model[i].flatten_spec(included@),
                        ));
                    }
                    Some(r)
                },
            },
            Document::Failure { .. } => None,
        }
    }
}

} // verus!
