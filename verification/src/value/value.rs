//! The structural JSON value this crate renders and flattens.
use vstd::prelude::*;

use crate::value::collections::keyed::Keyed;
use crate::value::collections::map::lemma_map_decreases_to_view;
use crate::value::collections::map::OrderedMap;
use crate::value::fields::Key;
use crate::value::number::Number;

verus! {

/// The mathematical shape of a `Value`: object entries are the keys' texts
/// paired with the members' shapes, in order.
#[verifier::ext_equal]
pub enum ValueView {
    Null,
    Array(Seq<ValueView>),
    Bool(bool),
    Number(int),
    Object(Seq<(Seq<char>, ValueView)>),
    String(Seq<char>),
}

/// Any valid JSON API value: like a JSON value, except that numbers are
/// integers and object keys are validated member names.
#[derive(Debug, PartialEq)]
pub enum Value {
    /// A null value.
    Null,
    /// An array of values.
    Array(Vec<Value>),
    /// A boolean.
    Bool(bool),
    /// An integer number.
    Number(Number),
    /// An object whose keys are valid member names, in insertion order.
    Object(OrderedMap<Key, Value>),
    /// A string.
    String(String),
}

/// The shape of a value; see [`ValueView`].
pub open spec fn value_view(v: &Value) -> ValueView
    decreases v,
    via value_view_decreases
{
    match v {
        Value::Null => ValueView::Null,
        Value::Array(items) => ValueView::Array(seq_value_view(items@)),
        Value::Bool(b) => ValueView::Bool(*b),
        Value::Number(n) => ValueView::Number(n@),
        Value::Object(m) => ValueView::Object(entry_seq_view(m@)),
        Value::String(s) => ValueView::String(s@),
    }
}

#[via_fn]
proof fn value_view_decreases(v: &Value) {
    if let Value::Object(m) = v {
        lemma_map_decreases_to_view(m);
        assert(decreases_to!(*v => *m));
    }
}

/// The shapes of a sequence of values, defined element by element.
pub open spec fn seq_value_view(s: Seq<Value>) -> Seq<ValueView>
    decreases s,
{
    if s.len() == 0 {
        Seq::empty()
    } else {
        seq![value_view(&s[0])] + seq_value_view(s.subrange(1, s.len() as int))
    }
}

/// The shapes of a sequence of object entries, defined entry by entry.
pub open spec fn entry_seq_view(s: Seq<(Key, Value)>) -> Seq<(Seq<char>, ValueView)>
    decreases s,
    via entry_seq_view_decreases
{
    if s.len() == 0 {
        Seq::empty()
    } else {
        seq![(s[0].0@, value_view(&s[0].1))] + entry_seq_view(s.subrange(1, s.len() as int))
    }
}

#[via_fn]
proof fn entry_seq_view_decreases(s: Seq<(Key, Value)>) {
    if s.len() > 0 {
        assert(decreases_to!(s => s[0]));
        assert(decreases_to!(s[0] => s[0].1));
    }
}

/// The shapes of a sequence of values.
pub open spec fn value_views(s: Seq<Value>) -> Seq<ValueView> {
    Seq::new(s.len(), |i: int| s[i]@)
}

/// The shapes of a sequence of object entries.
pub open spec fn entry_value_views(s: Seq<(Key, Value)>) -> Seq<(Seq<char>, ValueView)> {
    Seq::new(s.len(), |i: int| (s[i].0@, s[i].1@))
}

/// The element-by-element shapes are the pointwise shapes.
pub proof fn lemma_seq_value_view(s: Seq<Value>)
    ensures
        seq_value_view(s) =~= value_views(s),
    decreases s.len(),
{
    if s.len() > 0 {
        let t = s.subrange(1, s.len() as int);
        lemma_seq_value_view(t);
        assert(forall|i: int| 0 <= i < t.len() ==> #[trigger] t[i] == s[i + 1]);
    }
}

/// The entry-by-entry shapes are the pointwise shapes.
pub proof fn lemma_entry_seq_view(s: Seq<(Key, Value)>)
    ensures
        entry_seq_view(s) =~= entry_value_views(s),
    decreases s.len(),
{
    if s.len() > 0 {
        let t = s.subrange(1, s.len() as int);
        lemma_entry_seq_view(t);
        assert(forall|i: int| 0 <= i < t.len() ==> #[trigger] t[i] == s[i + 1]);
    }
}

impl View for Value {
    type V = ValueView;

    open spec fn view(&self) -> ValueView {
        value_view(self)
    }
}

impl Value {
    /// An array's shape is the shape of its items.
    pub proof fn lemma_array_view(items: &Vec<Value>)
        ensures
            Value::Array(*items)@ == ValueView::Array(value_views(items@)),
    {
        lemma_seq_value_view(items@);
        assert(Value::Array(*items)@ =~= ValueView::Array(value_views(items@)));
    }

    /// An object's shape is the shape of its map's entries.
    pub proof fn lemma_object_view(m: &OrderedMap<Key, Value>)
        ensures
            Value::Object(*m)@ == ValueView::Object(entry_value_views(m@)),
    {
        lemma_entry_seq_view(m@);
        assert(Value::Object(*m)@ =~= ValueView::Object(entry_value_views(m@)));
    }

    /// The items of the array, when the value is an array.
    pub fn as_array(&self) -> (r: Option<&Vec<Value>>)
        ensures
            r is Some <==> self@ is Array,
            r matches Some(a) ==> self@ == ValueView::Array(value_views(a@)),
    {
        match self {
            Value::Array(items) => {
                proof {
                    Value::lemma_array_view(items);
                }
                Some(items)
            },
            _ => None,
        }
    }

    /// The inner boolean, when the value is a boolean.
    pub fn as_bool(&self) -> (r: Option<bool>)
        ensures
            r is Some <==> self@ is Bool,
            r matches Some(b) ==> self@ == ValueView::Bool(b),
    {
        match self {
            Value::Bool(b) => Some(*b),
            _ => None,
        }
    }

    /// `Some(())` when the value is null.
    pub fn as_null(&self) -> (r: Option<()>)
        ensures
            r is Some <==> self@ is Null,
    {
        match self {
            Value::Null => Some(()),
            _ => None,
        }
    }

    /// The object's map, when the value is an object.
    pub fn as_object(&self) -> (r: Option<&OrderedMap<Key, Value>>)
        ensures
            r is Some <==> self@ is Object,
            r matches Some(m) ==> self@ == ValueView::Object(entry_value_views(m@)),
    {
        match self {
            Value::Object(m) => {
                proof {
                    Value::lemma_object_view(m);
                }
                Some(m)
            },
            _ => None,
        }
    }

    /// The inner text, when the value is a string.
    pub fn as_str(&self) -> (r: Option<&str>)
        ensures
            r is Some <==> self@ is String,
            r matches Some(s) ==> self@ == ValueView::String(s@),
    {
        match self {
            Value::String(s) => Some(s.as_str()),
            _ => None,
        }
    }

    /// The number as a `u64`, when the value is a non-negative number.
    pub fn as_u64(&self) -> (r: Option<u64>)
        ensures
            r matches Some(n) ==> self@ == ValueView::Number(n as int),
            r is Some <==> (self@ matches ValueView::Number(v) && v >= 0),
    {
        match self {
            Value::Number(n) => n.as_u64(),
            _ => None,
        }
    }

    /// The number as an `i64`, when the value is a number that fits one.
    pub fn as_i64(&self) -> (r: Option<i64>)
        ensures
            r matches Some(n) ==> self@ == ValueView::Number(n as int),
            r is Some <==> (self@ matches ValueView::Number(v) && i64::MIN <= v <= i64::MAX),
    {
        match self {
            Value::Number(n) => n.as_i64(),
            _ => None,
        }
    }

    /// True when the value is an array.
    pub fn is_array(&self) -> (r: bool)
        ensures
            r == (self@ is Array),
    {
        match self {
            Value::Array(_) => true,
            _ => false,
        }
    }

    /// True when the value is a boolean.
    pub fn is_boolean(&self) -> (r: bool)
        ensures
            r == (self@ is Bool),
    {
        match self {
            Value::Bool(_) => true,
            _ => false,
        }
    }

    /// True when the value is null.
    pub fn is_null(&self) -> (r: bool)
        ensures
            r == (self@ is Null),
    {
        match self {
            Value::Null => true,
            _ => false,
        }
    }

    /// True when the value is a number.
    pub fn is_number(&self) -> (r: bool)
        ensures
            r == (self@ is Number),
    {
        match self {
            Value::Number(_) => true,
            _ => false,
        }
    }

    /// True when the value is an object.
    pub fn is_object(&self) -> (r: bool)
        ensures
            r == (self@ is Object),
    {
        match self {
            Value::Object(_) => true,
            _ => false,
        }
    }

    /// True when the value is a string.
    pub fn is_string(&self) -> (r: bool)
        ensures
            r == (self@ is String),
    {
        match self {
            Value::String(_) => true,
            _ => false,
        }
    }

    /// True when the value is a non-negative number.
    pub fn is_u64(&self) -> (r: bool)
        ensures
            r == (self@ matches ValueView::Number(v) && v >= 0),
    {
        match self {
            Value::Number(n) => n.is_u64(),
            _ => false,
        }
    }

    /// True when the value is a number that fits an `i64`.
    pub fn is_i64(&self) -> (r: bool)
        ensures
            r == (self@ matches ValueView::Number(v) && i64::MIN <= v <= i64::MAX),
    {
        match self {
            Value::Number(n) => n.is_i64(),
            _ => false,
        }
    }
}

impl Default for Value {
    /// The default value is null.
    fn default() -> (r: Value)
        ensures
            r@ == ValueView::Null,
    {
        Value::Null
    }
}

impl Clone for Value {
    /// Cloning a value keeps its shape.
    fn clone(&self) -> (r: Value)
        ensures
            r@ == self@,
        decreases self,
    {
        match self {
            Value::Null => Value::Null,
            Value::Array(items) => {
                let n = items.len();
                let mut out: Vec<Value> = Vec::with_capacity(n);
                let mut i: usize = 0;
                while i < n
                    invariant
                        *self == Value::Array(*items),
                        n == items@.len(),
                        i <= n,
                        out@.len() == i,
                        forall|j: int| 0 <= j < i ==> out@[j]@ == #[trigger] items@[j]@,
                    decreases n - i,
                {
                    proof {
                        assert(decreases_to!(*self => self->Array_0));
                        assert(self->Array_0 == *items);
                        assert(decreases_to!(*items => items@));
                        assert(decreases_to!(items@ => items@[i as int]));
                    }
                    out.push(items[i].clone());
                    i = i + 1;
                }
                let r = Value::Array(out);
                proof {
                    Value::lemma_array_view(&out);
                    Value::lemma_array_view(items);
                    assert(value_views(out@) =~= value_views(items@));
                }
                r
            },
            Value::Bool(b) => Value::Bool(*b),
            Value::Number(n) => Value::Number(*n),
            Value::Object(m) => {
                let n = m.len();
                let mut out: OrderedMap<Key, Value> = OrderedMap::with_capacity(n);
                let mut i: usize = 0;
                proof {
                    use_type_invariant(m);
                }
                while i < n
                    invariant
                        *self == Value::Object(*m),
                        n == m@.len(),
                        i <= n,
                        out@.len() == i,
                        crate::value::collections::keyed::entries_unique(m@),
                        forall|j: int|
                            0 <= j < i ==> (#[trigger] out@[j]).0@ == m@[j].0@ && out@[j].1@
                                == m@[j].1@,
                    decreases n - i,
                {
                    proof {
                        lemma_map_decreases_to_view(m);
                        assert(decreases_to!(*self => self->Object_0));
                        assert(self->Object_0 == *m);
                        assert(decreases_to!(m@ => m@[i as int]));
                    }
                    let k = m.key_at(i).clone();
                    let v = m.value_at(i).clone();
                    proof {
                        crate::value::collections::keyed::lemma_entry_index_at(
                            out@,
                            k.key_ident(),
                            i as int,
                        );
                        assert(!crate::value::collections::keyed::entries_have_key(
                            out@,
                            k.key_ident(),
                        ));
                    }
                    let _ = out.insert(k, v);
                    i = i + 1;
                }
                let r = Value::Object(out);
                proof {
                    Value::lemma_object_view(&out);
                    Value::lemma_object_view(m);
                    assert(entry_value_views(out@) =~= entry_value_views(m@));
                }
                r
            },
            Value::String(s) => Value::String(s.clone()),
        }
    }
}

} // verus!
