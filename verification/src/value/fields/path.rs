//! Dot-separated lists of member names.
use vstd::prelude::*;

use crate::error::Error;
use crate::value::collections::keyed::Keyed;
use crate::value::fields::key::{key_parse, key_wf, lemma_kebab_fixpoint, Key};

verus! {

/// The text of the keys from position `i` on, joined by `.`.
pub open spec fn path_join_from(views: Seq<Seq<char>>, i: int) -> Seq<char>
    decreases views.len() - i,
{
    if i < 0 || i >= views.len() {
        Seq::empty()
    } else if i == views.len() - 1 {
        views[i]
    } else {
        views[i] + seq!['.'] + path_join_from(views, i + 1)
    }
}

/// The text of a path: its keys joined by `.`.
pub open spec fn path_join(views: Seq<Seq<char>>) -> Seq<char> {
    path_join_from(views, 0)
}

/// The index of the first `sep` in `s`, or `-1` when there is none.
pub open spec fn find_char(s: Seq<char>, sep: char) -> int
    decreases s.len(),
{
    if s.len() == 0 {
        -1
    } else if s[0] == sep {
        0
    } else {
        let r = find_char(s.drop_first(), sep);
        if r < 0 {
            -1
        } else {
            r + 1
        }
    }
}

/// Splits `s` on `sep`; the result always has at least one segment, and
/// empty segments are kept.
pub open spec fn split_char(s: Seq<char>, sep: char) -> Seq<Seq<char>>
    decreases s.len(),
{
    let f = find_char(s, sep);
    if 0 <= f < s.len() {
        seq![s.take(f)] + split_char(s.skip(f + 1), sep)
    } else {
        seq![s]
    }
}

/// Splits `s` on `.`.
pub open spec fn split_dots(s: Seq<char>) -> Seq<Seq<char>> {
    split_char(s, '.')
}

/// What parsing a path returns: each `.`-separated segment parsed as a
/// member name, or nothing as soon as one segment is rejected.
pub open spec fn path_parse(s: Seq<char>) -> Option<Seq<Seq<char>>> {
    let segs = split_dots(s);
    if forall|i: int| 0 <= i < segs.len() ==> key_parse(#[trigger] segs[i]) is Some {
        Some(Seq::new(segs.len(), |i: int| key_parse(segs[i]).unwrap()))
    } else {
        None
    }
}

/// Every key of the path is well formed.
pub open spec fn path_wf(views: Seq<Seq<char>>) -> bool {
    forall|i: int| 0 <= i < views.len() ==> key_wf(#[trigger] views[i])
}

/// A dot-separated list of member names, as used in relationship paths and
/// filter parameters.
#[derive(Debug, Default, PartialEq, Eq, Hash)]
pub struct Path {
    keys: Vec<Key>,
}

impl View for Path {
    type V = Seq<Seq<char>>;

    closed spec fn view(&self) -> Seq<Seq<char>> {
        Seq::new(self.keys@.len(), |i: int| self.keys@[i]@)
    }
}

impl Clone for Path {
    /// Cloning a path keeps its keys.
    fn clone(&self) -> (r: Path)
        ensures
            r@ == self@,
    {
        let n = self.keys.len();
        let mut keys: Vec<Key> = Vec::with_capacity(n);
        let mut i: usize = 0;
        while i < n
            invariant
                n == self.keys@.len(),
                i <= n,
                keys@.len() == i,
                forall|j: int| 0 <= j < i ==> keys@[j]@ == #[trigger] self.keys@[j]@,
            decreases n - i,
        {
            keys.push(self.keys[i].clone());
            i = i + 1;
        }
        let r = Path { keys };
        assert(r@ =~= self@);
        r
    }
}

impl Path {
    /// Constructs a new, empty `Path`.
    pub fn new() -> (r: Path)
        ensures
            r@ =~= Seq::<Seq<char>>::empty(),
    {
        Path { keys: Vec::new() }
    }

    /// Constructs a new, empty `Path` that can hold `capacity` keys before
    /// reallocating.
    pub fn with_capacity(capacity: usize) -> (r: Path)
        ensures
            r@ =~= Seq::<Seq<char>>::empty(),
    {
        Path { keys: Vec::with_capacity(capacity) }
    }

    /// The number of keys in the path.
    pub fn len(&self) -> (r: usize)
        ensures
            r == self@.len(),
    {
        self.keys.len()
    }

    /// True when the path holds no keys.
    pub fn is_empty(&self) -> (r: bool)
        ensures
            r == (self@.len() == 0),
    {
        self.keys.len() == 0
    }

    /// The key at the given position.
    pub fn key_at(&self, i: usize) -> (r: &Key)
        requires
            i < self@.len(),
        ensures
            r@ == self@[i as int],
    {
        &self.keys[i]
    }

    /// The number of bytes in the path's text: each key's UTF-8 bytes plus
    /// one `.` between each pair, the length of what `to_bytes` returns.
    pub fn char_count(&self) -> (r: usize)
        ensures
            r == vstd::utf8::encode_utf8(path_join(self@)).len(),
    {
        let bytes = self.to_bytes();
        bytes.len()
    }

    /// Removes and returns the last key of the path, if any.
    pub fn pop(&mut self) -> (r: Option<Key>)
        ensures
            old(self)@.len() == 0 ==> r is None && final(self)@ =~= old(self)@,
            old(self)@.len() > 0 ==> (r matches Some(k) && k@ == old(self)@.last()
                && final(self)@ =~= old(self)@.drop_last()),
    {
        let r = self.keys.pop();
        proof {
            if old(self)@.len() == 0 {
                assert(final(self)@ =~= old(self)@);
            } else {
                assert(final(self)@ =~= old(self)@.drop_last());
            }
        }
        r
    }

    /// Appends a key to the back of the path.
    pub fn push(&mut self, key: Key)
        ensures
            final(self)@ =~= old(self)@.push(key@),
    {
        let ghost v = key@;
        self.keys.push(key);
        proof {
            assert(final(self)@ =~= old(self)@.push(v));
        }
    }

    /// Reserves room for at least `additional` more keys.
    pub fn reserve(&mut self, additional: usize)
        ensures
            final(self)@ =~= old(self)@,
    {
        self.keys.reserve(additional);
    }

    /// Returns a new path extending this one with the given key.
    pub fn join(&self, key: &Key) -> (r: Path)
        ensures
            r@ =~= self@.push(key@),
    {
        let mut r = self.clone();
        r.push(key.clone());
        proof {
            assert(r@ =~= self@.push(key@));
        }
        r
    }

    /// The path's text: its keys joined by `.`.
    pub fn to_string(&self) -> (r: String)
        ensures
            r@ == path_join(self@),
    {
        let n = self.keys.len();
        let mut out = String::new();
        let mut i: usize = 0;
        while i < n
            invariant
                n == self@.len(),
                i <= n,
                out@ + path_join_from(self@, i as int) == path_join(self@),
            decreases n - i,
        {
            let ghost pre = out@;
            out.append(self.keys[i].as_str());
            if i + 1 < n {
                out.push('.');
                proof {
                    assert(out@ =~= pre + (self@[i as int] + seq!['.']));
                    assert(pre + (self@[i as int] + seq!['.']) + path_join_from(
                        self@,
                        i as int + 1,
                    ) =~= pre + (self@[i as int] + seq!['.'] + path_join_from(self@, i as int + 1)));
                }
            } else {
                proof {
                    assert(out@ + path_join_from(self@, i as int + 1) =~= pre + self@[i as int]);
                }
            }
            i = i + 1;
        }
        proof {
            assert(out@ + Seq::<char>::empty() =~= out@);
        }
        out
    }

    /// The path's text as its UTF-8 bytes.
    pub fn to_bytes(&self) -> (r: Vec<u8>)
        ensures
            r@ == vstd::utf8::encode_utf8(path_join(self@)),
    {
        let s = self.to_string();
        s.as_str().as_bytes_vec()
    }

    /// Parses a path: splits on `.` and parses every segment as a member
    /// name, failing on the first segment that is rejected.
    pub fn from_str(value: &str) -> (r: Result<Path, Error>)
        ensures
            r is Ok <==> path_parse(value@) is Some,
            r matches Ok(p) ==> p@ == path_parse(value@).unwrap() && path_wf(p@),
            r matches Err(e) ==> e matches Error::InvalidMemberName(n),
    {
        let segs = split_char_exec(value, '.');
        let ghost model = split_dots(value@);
        let n = segs.len();
        let mut keys: Vec<Key> = Vec::new();
        let mut i: usize = 0;
        while i < n
            invariant
                n == model.len(),
                segs@.len() == n,
                model == split_dots(value@),
                i <= n,
                keys@.len() == i,
                forall|j: int| 0 <= j < n ==> #[trigger] segs@[j]@ == model[j],
                forall|j: int|
                    0 <= j < i ==> key_parse(#[trigger] model[j]) is Some && keys@[j]@ == key_parse(
                        model[j],
                    ).unwrap(),
                forall|j: int| 0 <= j < i ==> key_wf(#[trigger] keys@[j]@),
            decreases n - i,
        {
            match Key::from_str(segs[i].as_str()) {
                Ok(k) => {
                    keys.push(k);
                },
                Err(e) => {
                    assert(key_parse(model[i as int]) is None);
                    return Err(e);
                },
            }
            i = i + 1;
        }
        let p = Path { keys };
        proof {
            assert(forall|j: int|
                0 <= j < model.len() ==> key_parse(#[trigger] split_dots(value@)[j]) is Some);
            let v = path_parse(value@).unwrap();
            assert(p@ =~= v);
            assert(forall|j: int| 0 <= j < p@.len() ==> key_wf(#[trigger] p@[j]));
        }
        Ok(p)
    }
}

impl Keyed for Path {
    type Ident = Seq<Seq<char>>;

    /// A path's identity is the text of its keys.
    open spec fn key_ident(&self) -> Seq<Seq<char>> {
        self@
    }

    fn key_eq(&self, other: &Path) -> (r: bool) {
        let n = self.keys.len();
        if n != other.keys.len() {
            proof {
                assert(self@.len() != other@.len());
            }
            return false;
        }
        let mut i: usize = 0;
        while i < n
            invariant
                n == self@.len(),
                n == other@.len(),
                i <= n,
                forall|j: int| 0 <= j < i ==> #[trigger] self@[j] == other@[j],
            decreases n - i,
        {
            if !self.keys[i].key_eq(&other.keys[i]) {
                proof {
                    assert(self@[i as int] != other@[i as int]);
                }
                return false;
            }
            i = i + 1;
        }
        proof {
            assert(self@ =~= other@);
        }
        true
    }

    proof fn lemma_cloned_ident(a: &Path, b: &Path) {
        if a != b {
            assert(call_ensures(Path::clone, (a,), *b));
        }
    }
}

impl core::str::FromStr for Path {
    type Err = Error;

    fn from_str(value: &str) -> Result<Path, Error> {
        Path::from_str(value)
    }
}

/// Shared behavior for things that can be combined into a path.
pub trait Segment {
    /// Combines `self` with the given key, returning a new path.
    fn join(&self, key: &Key) -> Path;
}

impl Segment for Key {
    /// Joining two keys makes a two-key path.
    fn join(&self, key: &Key) -> (r: Path)
        ensures
            r@ =~= seq![self@, key@],
    {
        let mut path = Path::with_capacity(2);
        path.push(self.clone());
        path.push(key.clone());
        proof {
            assert(path@ =~= seq![self@, key@]);
        }
        path
    }
}

impl Segment for Path {
    /// Joining a path with a key appends the key.
    fn join(&self, key: &Key) -> (r: Path)
        ensures
            r@ =~= self@.push(key@),
    {
        Path::join(self, key)
    }
}

/// When the first `k` characters of `s` are not `sep`, the first `sep` of
/// `s` is at `k` exactly when `s[k]` is `sep`, and absent when `k` is the
/// end.
pub proof fn lemma_find_char_at(s: Seq<char>, sep: char, k: int)
    requires
        0 <= k <= s.len(),
        forall|j: int| 0 <= j < k ==> s[j] != sep,
        k < s.len() ==> s[k] == sep,
    ensures
        find_char(s, sep) == if k == s.len() {
            -1int
        } else {
            k
        },
    decreases s.len(),
{
    if s.len() > 0 && s[0] != sep {
        let t = s.drop_first();
        assert(forall|j: int| 0 <= j < k - 1 ==> t[j] != sep);
        lemma_find_char_at(t, sep, k - 1);
    }
}

/// Splits a string on the given separator, keeping empty segments.
pub fn split_char_exec(value: &str, sep: char) -> (r: Vec<String>)
    ensures
        r@.len() == split_char(value@, sep).len(),
        forall|j: int| 0 <= j < r@.len() ==> #[trigger] r@[j]@ == split_char(value@, sep)[j],
{
    let n = value.unicode_len();
    let mut segs: Vec<String> = Vec::new();
    let mut start: usize = 0;
    let mut i: usize = 0;
    proof {
        assert(seq_views(segs@) =~= Seq::<Seq<char>>::empty());
        assert(value@.skip(0) =~= value@);
        assert(Seq::<Seq<char>>::empty() + split_char(value@, sep) =~= split_char(value@, sep));
    }
    while i < n
        invariant
            n == value@.len(),
            start <= i <= n,
            forall|j: int| start <= j < i ==> value@[j] != sep,
            split_char(value@, sep) =~= seq_views(segs@) + split_char(
                value@.skip(start as int),
                sep,
            ),
        decreases n - i,
    {
        if value.get_char(i) == sep {
            let seg = value.substring_char(start, i);
            let ghost rest = value@.skip(start as int);
            proof {
                lemma_find_char_at(rest, sep, i - start);
                assert(rest.take(i - start) =~= value@.subrange(start as int, i as int));
                assert(rest.skip(i - start + 1) =~= value@.skip(i as int + 1));
            }
            segs.push(seg.to_owned());
            proof {
                assert(seq_views(segs@) =~= seq_views(segs@.drop_last()).push(
                    value@.subrange(start as int, i as int),
                ));
                assert(split_char(value@, sep) =~= seq_views(segs@) + split_char(
                    value@.skip(i as int + 1),
                    sep,
                ));
            }
            start = i + 1;
        }
        i = i + 1;
    }
    let seg = value.substring_char(start, n);
    let ghost rest = value@.skip(start as int);
    proof {
        lemma_find_char_at(rest, sep, n - start);
        assert(rest =~= value@.subrange(start as int, n as int));
    }
    segs.push(seg.to_owned());
    proof {
        assert(seq_views(segs@) =~= seq_views(segs@.drop_last()).push(
            value@.subrange(start as int, n as int),
        ));
        assert(split_char(value@, sep) =~= seq_views(segs@));
        assert(forall|j: int|
            0 <= j < segs@.len() ==> #[trigger] segs@[j]@ == seq_views(segs@)[j]);
    }
    segs
}

/// The views of a sequence of strings.
pub open spec fn seq_views(items: Seq<String>) -> Seq<Seq<char>> {
    Seq::new(items.len(), |i: int| items[i]@)
}

/// Splitting the join of non-empty, dot-free segments gives the segments
/// back, starting from position `i`.
proof fn lemma_split_join_from(views: Seq<Seq<char>>, i: int)
    requires
        0 <= i < views.len(),
        forall|j: int|
            0 <= j < views.len() ==> #[trigger] views[j].len() > 0 && forall|k: int|
                0 <= k < views[j].len() ==> views[j][k] != '.',
    ensures
        split_dots(path_join_from(views, i)) =~= views.skip(i),
    decreases views.len() - i,
{
    let s = path_join_from(views, i);
    if i == views.len() - 1 {
        assert(s == views[i]);
        lemma_find_char_at(s, '.', s.len() as int);
        assert(split_char(s, '.') =~= seq![views[i]]);
        assert(views.skip(i) =~= seq![views[i]]);
    } else {
        let rest = path_join_from(views, i + 1);
        assert(s == views[i] + seq!['.'] + rest);
        let f = views[i].len() as int;
        assert(forall|j: int| 0 <= j < f ==> s[j] == views[i][j] && s[j] != '.');
        assert(s[f] == '.');
        lemma_find_char_at(s, '.', f);
        assert(s.take(f) =~= views[i]);
        assert(s.skip(f + 1) =~= rest);
        lemma_split_join_from(views, i + 1);
        assert(split_char(s, '.') =~= seq![views[i]] + views.skip(i + 1));
        assert(seq![views[i]] + views.skip(i + 1) =~= views.skip(i));
    }
}

/// Round trip: parsing the text of a non-empty path of well-formed keys
/// gives the same keys back.
pub proof fn lemma_path_round_trip(views: Seq<Seq<char>>)
    requires
        views.len() > 0,
        path_wf(views),
    ensures
        path_parse(path_join(views)) == Some(views),
{
    assert(forall|j: int|
        0 <= j < views.len() ==> #[trigger] views[j].len() > 0 && forall|k: int|
            0 <= k < views[j].len() ==> views[j][k] != '.') by {
        assert forall|j: int| 0 <= j < views.len() implies #[trigger] views[j].len() > 0 && forall|
            k: int,
        | 0 <= k < views[j].len() ==> views[j][k] != '.' by {
            assert(key_wf(views[j]));
            assert(forall|k: int|
                0 <= k < views[j].len() ==> !crate::value::fields::key::is_reserved_char(
                    #[trigger] views[j][k],
                ));
        }
    }
    lemma_split_join_from(views, 0);
    assert(views.skip(0) =~= views);
    let segs = split_dots(path_join(views));
    assert(segs =~= views);
    assert forall|i: int| 0 <= i < segs.len() implies key_parse(#[trigger] segs[i]) is Some by {
        assert(key_wf(segs[i]));
        lemma_kebab_fixpoint(segs[i]);
    }
    assert forall|i: int| 0 <= i < segs.len() implies key_parse(#[trigger] segs[i]).unwrap()
        == views[i] by {
        lemma_kebab_fixpoint(segs[i]);
    }
    assert(Seq::new(segs.len(), |i: int| key_parse(segs[i]).unwrap()) =~= views);
}

} // verus!
