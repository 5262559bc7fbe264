//! A builder that accumulates raw component strings and validates them all
//! at once.
use vstd::prelude::*;

use crate::error::Error;
use crate::query::page::Page;
use crate::query::sort::{Direction, Sort};
use crate::query::{
    fields_views, filter_views, key_set_views, page_view, path_set_views, sort_set_views, Query,
    QueryView,
};
use crate::value::collections::keyed::{
    dinsert, lemma_entry_index_matches, lemma_entry_index_props, lemma_item_index_matches, spush,
};
use crate::value::collections::map::OrderedMap;
use crate::value::collections::set::{lemma_item_index_props, OrderedSet};
use crate::value::fields::{key_parse, path_parse, seq_views, Key, Path};
use crate::value::value::{Value, ValueView};

verus! {

/// The texts of a sequence of string slices.
pub open spec fn strs_views(s: Seq<&str>) -> Seq<Seq<char>> {
    Seq::new(s.len(), |i: int| s[i]@)
}

/// The shapes of the builder's raw fieldset entries.
pub open spec fn fields_raw_views(s: Seq<(String, Vec<String>)>) -> Seq<(Seq<char>, Seq<Seq<char>>)> {
    Seq::new(s.len(), |i: int| (s[i].0@, seq_views(s[i].1@)))
}

/// The shapes of the builder's raw filter entries.
pub open spec fn filter_raw_views(s: Seq<(String, Value)>) -> Seq<(Seq<char>, ValueView)> {
    Seq::new(s.len(), |i: int| (s[i].0@, s[i].1@))
}

/// The shapes of the builder's raw sort entries.
pub open spec fn sort_raw_views(s: Seq<(String, Direction)>) -> Seq<(Seq<char>, bool)> {
    Seq::new(s.len(), |i: int| (s[i].0@, s[i].1 == Direction::Desc))
}

/// Validates the raw field names of one fieldset entry, collecting them as
/// a set.
pub open spec fn build_key_set(raw: Seq<Seq<char>>, i: int, acc: Seq<Seq<char>>) -> Option<
    Seq<Seq<char>>,
>
    decreases raw.len() - i,
{
    if i < 0 || i >= raw.len() {
        Some(acc)
    } else {
        match key_parse(raw[i]) {
            Some(k) => build_key_set(raw, i + 1, spush(acc, k)),
            None => None,
        }
    }
}

/// Validates the raw fieldset entries, building the fields map.
pub open spec fn build_fields(
    raw: Seq<(Seq<char>, Seq<Seq<char>>)>,
    i: int,
    acc: Seq<(Seq<char>, Seq<Seq<char>>)>,
) -> Option<Seq<(Seq<char>, Seq<Seq<char>>)>>
    decreases raw.len() - i,
{
    if i < 0 || i >= raw.len() {
        Some(acc)
    } else {
        match key_parse(raw[i].0) {
            Some(k) => match build_key_set(raw[i].1, 0, Seq::empty()) {
                Some(ks) => build_fields(raw, i + 1, dinsert(acc, k, ks)),
                None => None,
            },
            None => None,
        }
    }
}

/// Validates the raw filter entries, building the filter map.
pub open spec fn build_filter(
    raw: Seq<(Seq<char>, ValueView)>,
    i: int,
    acc: Seq<(Seq<Seq<char>>, ValueView)>,
) -> Option<Seq<(Seq<Seq<char>>, ValueView)>>
    decreases raw.len() - i,
{
    if i < 0 || i >= raw.len() {
        Some(acc)
    } else {
        match path_parse(raw[i].0) {
            Some(p) => build_filter(raw, i + 1, dinsert(acc, p, raw[i].1)),
            None => None,
        }
    }
}

/// Validates the raw relationship paths, building the inclusion set.
pub open spec fn build_paths(raw: Seq<Seq<char>>, i: int, acc: Seq<Seq<Seq<char>>>) -> Option<
    Seq<Seq<Seq<char>>>,
>
    decreases raw.len() - i,
{
    if i < 0 || i >= raw.len() {
        Some(acc)
    } else {
        match path_parse(raw[i]) {
            Some(p) => build_paths(raw, i + 1, spush(acc, p)),
            None => None,
        }
    }
}

/// Validates the raw sort entries, building the sort set.
pub open spec fn build_sorts(
    raw: Seq<(Seq<char>, bool)>,
    i: int,
    acc: Seq<(Seq<Seq<char>>, bool)>,
) -> Option<Seq<(Seq<Seq<char>>, bool)>>
    decreases raw.len() - i,
{
    if i < 0 || i >= raw.len() {
        Some(acc)
    } else {
        match path_parse(raw[i].0) {
            Some(p) => build_sorts(raw, i + 1, spush(acc, (p, raw[i].1))),
            None => None,
        }
    }
}

/// What finalizing a builder returns: every accumulated string validated,
/// or nothing as soon as one is rejected.
pub open spec fn builder_build(
    fields: Seq<(Seq<char>, Seq<Seq<char>>)>,
    filter: Seq<(Seq<char>, ValueView)>,
    includes: Seq<Seq<char>>,
    page: Option<(u64, Option<u64>)>,
    sort: Seq<(Seq<char>, bool)>,
) -> Option<QueryView> {
    match (
        build_fields(fields, 0, Seq::empty()),
        build_filter(filter, 0, Seq::empty()),
        build_paths(includes, 0, Seq::empty()),
        build_sorts(sort, 0, Seq::empty()),
    ) {
        (Some(f), Some(l), Some(inc), Some(s)) => Some(
            QueryView { fields: f, filter: l, includes: inc, page, sort: s },
        ),
        _ => None,
    }
}

/// A builder that accumulates raw strings for each query component and
/// validates every entry when the query is built, failing on the first
/// invalid one.
#[derive(Debug)]
pub struct Builder {
    fields: Vec<(String, Vec<String>)>,
    filter: Vec<(String, Value)>,
    includes: Vec<String>,
    page: Option<Page>,
    sort: Vec<(String, Direction)>,
}

impl Builder {
    /// What the builder has accumulated so far.
    pub closed spec fn accumulated(&self) -> (
        Seq<(Seq<char>, Seq<Seq<char>>)>,
        Seq<(Seq<char>, ValueView)>,
        Seq<Seq<char>>,
        Option<(u64, Option<u64>)>,
        Seq<(Seq<char>, bool)>,
    ) {
        (
            fields_raw_views(self.fields@),
            filter_raw_views(self.filter@),
            seq_views(self.includes@),
            page_view(self.page),
            sort_raw_views(self.sort@),
        )
    }

    /// True when nothing has been accumulated.
    pub open spec fn is_empty(&self) -> bool {
        self.accumulated() == (
            Seq::<(Seq<char>, Seq<Seq<char>>)>::empty(),
            Seq::<(Seq<char>, ValueView)>::empty(),
            Seq::<Seq<char>>::empty(),
            None::<(u64, Option<u64>)>,
            Seq::<(Seq<char>, bool)>::empty(),
        )
    }

    /// Creates an empty builder.
    pub fn new() -> (r: Builder)
        ensures
            r.is_empty(),
    {
        let r = Builder {
            fields: Vec::new(),
            filter: Vec::new(),
            includes: Vec::new(),
            page: None,
            sort: Vec::new(),
        };
        proof {
            assert(fields_raw_views(r.fields@) =~= Seq::<(Seq<char>, Seq<Seq<char>>)>::empty());
            assert(filter_raw_views(r.filter@) =~= Seq::<(Seq<char>, ValueView)>::empty());
            assert(seq_views(r.includes@) =~= Seq::<Seq<char>>::empty());
            assert(sort_raw_views(r.sort@) =~= Seq::<(Seq<char>, bool)>::empty());
        }
        r
    }

    /// Queues a fieldset entry: a resource type and its field names.
    pub fn fields(self, key: &str, values: &[&str]) -> (r: Builder)
        ensures
            r.accumulated() == (
                self.accumulated().0.push((key@, strs_views(values@))),
                self.accumulated().1,
                self.accumulated().2,
                self.accumulated().3,
                self.accumulated().4,
            ),
    {
        let mut this = self;
        let mut owned: Vec<String> = Vec::new();
        let n = values.len();
        let mut i: usize = 0;
        while i < n
            invariant
                n == values@.len(),
                i <= n,
                owned@.len() == i,
                forall|j: int| 0 <= j < i ==> #[trigger] owned@[j]@ == values@[j]@,
            decreases n - i,
        {
            owned.push(values[i].to_owned());
            i = i + 1;
        }
        proof {
            assert(seq_views(owned@) =~= strs_views(values@));
        }
        this.fields.push((key.to_owned(), owned));
        proof {
            assert(fields_raw_views(this.fields@) =~= fields_raw_views(self.fields@).push(
                (key@, strs_views(values@)),
            ));
        }
        this
    }

    /// Queues a filter entry: a field path and the value to filter by.
    pub fn filter(self, key: &str, value: Value) -> (r: Builder)
        ensures
            r.accumulated() == (
                self.accumulated().0,
                self.accumulated().1.push((key@, value@)),
                self.accumulated().2,
                self.accumulated().3,
                self.accumulated().4,
            ),
    {
        let mut this = self;
        let ghost vv = value@;
        this.filter.push((key.to_owned(), value));
        proof {
            assert(filter_raw_views(this.filter@) =~= filter_raw_views(self.filter@).push(
                (key@, vv),
            ));
        }
        this
    }

    /// Queues a relationship path to include.
    pub fn includes(self, value: &str) -> (r: Builder)
        ensures
            r.accumulated() == (
                self.accumulated().0,
                self.accumulated().1,
                self.accumulated().2.push(value@),
                self.accumulated().3,
                self.accumulated().4,
            ),
    {
        let mut this = self;
        this.includes.push(value.to_owned());
        proof {
            assert(seq_views(this.includes@) =~= seq_views(self.includes@).push(value@));
        }
        this
    }

    /// Sets the pagination parameters; a page number of zero is normalized
    /// to one.
    pub fn page(self, number: u64, size: Option<u64>) -> (r: Builder)
        ensures
            r.accumulated() == (
                self.accumulated().0,
                self.accumulated().1,
                self.accumulated().2,
                Some(
                    (
                        if number > 0 {
                            number
                        } else {
                            1u64
                        },
                        size,
                    ),
                ),
                self.accumulated().4,
            ),
    {
        let mut this = self;
        this.page = Some(Page::new(number, size));
        proof {
            assert(fields_raw_views(this.fields@) =~= fields_raw_views(self.fields@));
            assert(filter_raw_views(this.filter@) =~= filter_raw_views(self.filter@));
            assert(seq_views(this.includes@) =~= seq_views(self.includes@));
            assert(sort_raw_views(this.sort@) =~= sort_raw_views(self.sort@));
        }
        this
    }

    /// Queues a sort instruction: a field path and a direction.
    pub fn sort(self, field: &str, direction: Direction) -> (r: Builder)
        ensures
            r.accumulated() == (
                self.accumulated().0,
                self.accumulated().1,
                self.accumulated().2,
                self.accumulated().3,
                self.accumulated().4.push((field@, direction == Direction::Desc)),
            ),
    {
        let mut this = self;
        let ghost d = direction;
        this.sort.push((field.to_owned(), direction));
        proof {
            assert(sort_raw_views(this.sort@) =~= sort_raw_views(self.sort@).push(
                (field@, d == Direction::Desc),
            ));
        }
        this
    }

    /// Validates everything accumulated and builds the query, failing on
    /// the first entry that is not a valid member name or path.
    pub fn build(self) -> (r: Result<Query, Error>)
        ensures
            ({
                let (f, l, inc, p, s) = self.accumulated();
                &&& r is Ok <==> builder_build(f, l, inc, p, s) is Some
                &&& (r matches Ok(q) ==> q@ == builder_build(f, l, inc, p, s).unwrap())
            }),
    {
        let ghost (fraw, lraw, iraw, praw, sraw) = self.accumulated();
        let Builder { fields: rf, filter: rl, includes: ri, page, sort: rs } = self;
        let mut fields: OrderedMap<Key, OrderedSet<Key>> = OrderedMap::new();
        let nf = rf.len();
        let mut i: usize = 0;
        proof {
            assert(fields_views(fields@) =~= Seq::<(Seq<char>, Seq<Seq<char>>)>::empty());
        }
        while i < nf
            invariant
                self.accumulated() == (fraw, lraw, iraw, praw, sraw),
                nf == rf@.len(),
                fraw == fields_raw_views(rf@),
                fraw.len() == nf,
                i <= nf,
                build_fields(fraw, i as int, fields_views(fields@)) == build_fields(
                    fraw,
                    0,
                    Seq::empty(),
                ),
            decreases nf - i,
        {
            let key = match Key::from_str(rf[i].0.as_str()) {
                Ok(k) => k,
                Err(e) => {
                    assert(key_parse(fraw[i as int].0) is None);
                    return Err(e);
                },
            };
            let texts = &rf[i].1;
            let m = texts.len();
            let mut set: OrderedSet<Key> = OrderedSet::new();
            let mut j: usize = 0;
            proof {
                assert(key_set_views(set@) =~= Seq::<Seq<char>>::empty());
                assert(seq_views(texts@) =~= fraw[i as int].1);
            }
            while j < m
                invariant
                    self.accumulated() == (fraw, lraw, iraw, praw, sraw),
                    m == texts@.len(),
                    seq_views(texts@) == fraw[i as int].1,
                    fraw == fields_raw_views(rf@),
                    i < fraw.len(),
                    j <= m,
                    key_parse(fraw[i as int].0) is Some,
                    build_fields(fraw, i as int, fields_views(fields@)) == build_fields(
                        fraw,
                        0,
                        Seq::empty(),
                    ),
                    build_key_set(fraw[i as int].1, j as int, key_set_views(set@))
                        == build_key_set(fraw[i as int].1, 0, Seq::empty()),
                decreases m - j,
            {
                match Key::from_str(texts[j].as_str()) {
                    Ok(k) => {
                        let ghost kid = k@;
                        let ghost pre = set@;
                        let _ = set.insert(k);
                        proof {
                            lemma_item_index_matches(pre, key_set_views(pre), kid);
                            lemma_item_index_props(pre, kid);
                            assert(key_set_views(set@) =~= spush(key_set_views(pre), kid));
                        }
                    },
                    Err(e) => {
                        assert(key_parse(fraw[i as int].1[j as int]) is None);
                        assert(build_key_set(fraw[i as int].1, 0, Seq::empty()) is None);
                        return Err(e);
                    },
                }
                j = j + 1;
            }
            let ghost kid = key@;
            let ghost sviews = key_set_views(set@);
            let ghost pre = fields@;
            let _ = fields.insert(key, set);
            proof {
                lemma_entry_index_matches(pre, fields_views(pre), kid);
                lemma_entry_index_props(pre, kid);
                assert(fields_views(fields@) =~= dinsert(fields_views(pre), kid, sviews));
            }
            i = i + 1;
        }
        let mut filter: OrderedMap<Path, Value> = OrderedMap::new();
        let nl = rl.len();
        let mut i: usize = 0;
        proof {
            assert(filter_views(filter@) =~= Seq::<(Seq<Seq<char>>, ValueView)>::empty());
        }
        while i < nl
            invariant
                self.accumulated() == (fraw, lraw, iraw, praw, sraw),
                nl == rl@.len(),
                lraw == filter_raw_views(rl@),
                lraw.len() == nl,
                i <= nl,
                build_filter(lraw, i as int, filter_views(filter@)) == build_filter(
                    lraw,
                    0,
                    Seq::empty(),
                ),
            decreases nl - i,
        {
            let path = match Path::from_str(rl[i].0.as_str()) {
                Ok(p) => p,
                Err(e) => {
                    assert(path_parse(lraw[i as int].0) is None);
                    return Err(e);
                },
            };
            let value = rl[i].1.clone();
            proof {
                assert(value@ == lraw[i as int].1);
            }
            let ghost pid = path@;
            let ghost vview = value@;
            let ghost pre = filter@;
            let _ = filter.insert(path, value);
            proof {
                lemma_entry_index_matches(pre, filter_views(pre), pid);
                lemma_entry_index_props(pre, pid);
                assert(filter_views(filter@) =~= dinsert(filter_views(pre), pid, vview));
            }
            i = i + 1;
        }
        let mut includes: OrderedSet<Path> = OrderedSet::new();
        let ni = ri.len();
        let mut i: usize = 0;
        proof {
            assert(path_set_views(includes@) =~= Seq::<Seq<Seq<char>>>::empty());
        }
        while i < ni
            invariant
                self.accumulated() == (fraw, lraw, iraw, praw, sraw),
                ni == ri@.len(),
                iraw == seq_views(ri@),
                iraw.len() == ni,
                i <= ni,
                build_paths(iraw, i as int, path_set_views(includes@)) == build_paths(
                    iraw,
                    0,
                    Seq::empty(),
                ),
            decreases ni - i,
        {
            match Path::from_str(ri[i].as_str()) {
                Ok(p) => {
                    let ghost pid = p@;
                    let ghost pre = includes@;
                    let _ = includes.insert(p);
                    proof {
                        lemma_item_index_matches(pre, path_set_views(pre), pid);
                        lemma_item_index_props(pre, pid);
                        assert(path_set_views(includes@) =~= spush(path_set_views(pre), pid));
                    }
                },
                Err(e) => {
                    assert(path_parse(iraw[i as int]) is None);
                    return Err(e);
                },
            }
            i = i + 1;
        }
        let mut sort: OrderedSet<Sort> = OrderedSet::new();
        let ns = rs.len();
        let mut i: usize = 0;
        proof {
            assert(sort_set_views(sort@) =~= Seq::<(Seq<Seq<char>>, bool)>::empty());
        }
        while i < ns
            invariant
                self.accumulated() == (fraw, lraw, iraw, praw, sraw),
                ns == rs@.len(),
                sraw == sort_raw_views(rs@),
                sraw.len() == ns,
                i <= ns,
                build_sorts(sraw, i as int, sort_set_views(sort@)) == build_sorts(
                    sraw,
                    0,
                    Seq::empty(),
                ),
            decreases ns - i,
        {
            let field = match Path::from_str(rs[i].0.as_str()) {
                Ok(p) => p,
                Err(e) => {
                    assert(path_parse(sraw[i as int].0) is None);
                    return Err(e);
                },
            };
            let direction = if rs[i].1.is_desc() {
                Direction::Desc
            } else {
                Direction::Asc
            };
            let item = Sort::new(field, direction);
            let ghost sid = item@;
            let ghost pre = sort@;
            let _ = sort.insert(item);
            proof {
                lemma_item_index_matches(pre, sort_set_views(pre), sid);
                lemma_item_index_props(pre, sid);
                assert(sort_set_views(sort@) =~= spush(sort_set_views(pre), sid));
                assert(sid == (path_parse(sraw[i as int].0).unwrap(), sraw[i as int].1));
            }
            i = i + 1;
        }
        let q = Query { fields, filter, includes, page, sort };
        proof {
            assert(q@ =~= builder_build(fraw, lraw, iraw, praw, sraw).unwrap());
        }
        Ok(q)
    }
}

} // verus!
