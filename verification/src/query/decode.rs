//! Decoding a percent-encoded query string into a `Query`.
use vstd::prelude::*;

use crate::error::Error;
use crate::query::encode::{join_from, join_with};
use crate::query::codec::{
    component_text, decode_component, find_byte, find_byte_exec, parse_u64, pct_decode,
    pct_decode_bytes, split_byte, split_byte_exec, str_is, u64_parse,
};
use crate::query::page::Page;
use crate::query::sort::{sort_encode, sort_parse, Sort};
use crate::query::{
    fields_views, filter_views, key_set_views, path_set_views, sort_set_views, Query, QueryView,
};
use crate::value::collections::keyed::{
    dinsert, lemma_entry_index_matches, lemma_entry_index_props, lemma_item_index_matches,
    lemma_sfind_none, spush,
};
use crate::value::collections::map::OrderedMap;
use crate::value::collections::set::{lemma_item_index_props, OrderedSet};
use crate::value::fields::{
    is_reserved_char, key_parse, key_wf, lemma_find_char_at, path_join, path_join_from, path_parse,
    path_wf, split_char, split_char_exec, Key, Path,
};
use crate::value::value::{Value, ValueView};
use vstd::slice::slice_subrange;

verus! {

/// The state a decoder accumulates while it walks the query string's
/// segments.
#[verifier::ext_equal]
pub struct DecodeState {
    pub fields: Seq<(Seq<char>, Seq<Seq<char>>)>,
    pub filter: Seq<(Seq<Seq<char>>, ValueView)>,
    pub includes: Seq<Seq<Seq<char>>>,
    pub number: Option<u64>,
    pub size: Option<u64>,
    pub sort: Seq<(Seq<Seq<char>>, bool)>,
}

/// The state before any segment has been read.
pub open spec fn initial_state() -> DecodeState {
    DecodeState {
        fields: Seq::empty(),
        filter: Seq::empty(),
        includes: Seq::empty(),
        number: None,
        size: None,
        sort: Seq::empty(),
    }
}

/// Parses a comma-separated list of member names into a set, keeping the
/// first occurrence of each.
pub open spec fn key_list_fold(segs: Seq<Seq<char>>, i: int, acc: Seq<Seq<char>>) -> Option<
    Seq<Seq<char>>,
>
    decreases segs.len() - i,
{
    if i < 0 || i >= segs.len() {
        Some(acc)
    } else {
        match key_parse(segs[i]) {
            Some(k) => key_list_fold(segs, i + 1, spush(acc, k)),
            None => None,
        }
    }
}

/// What parsing a `fields` value returns.
pub open spec fn key_list_parse(s: Seq<char>) -> Option<Seq<Seq<char>>> {
    key_list_fold(split_char(s, ','), 0, Seq::empty())
}

/// Parses a comma-separated list of paths into a set, keeping the first
/// occurrence of each.
pub open spec fn path_list_fold(segs: Seq<Seq<char>>, i: int, acc: Seq<Seq<Seq<char>>>) -> Option<
    Seq<Seq<Seq<char>>>,
>
    decreases segs.len() - i,
{
    if i < 0 || i >= segs.len() {
        Some(acc)
    } else {
        match path_parse(segs[i]) {
            Some(p) => path_list_fold(segs, i + 1, spush(acc, p)),
            None => None,
        }
    }
}

/// What parsing an `includes` value returns.
pub open spec fn path_list_parse(s: Seq<char>) -> Option<Seq<Seq<Seq<char>>>> {
    path_list_fold(split_char(s, ','), 0, Seq::empty())
}

/// Parses a comma-separated list of sort instructions into a set, keeping
/// the first occurrence of each.
pub open spec fn sort_list_fold(
    segs: Seq<Seq<char>>,
    i: int,
    acc: Seq<(Seq<Seq<char>>, bool)>,
) -> Option<Seq<(Seq<Seq<char>>, bool)>>
    decreases segs.len() - i,
{
    if i < 0 || i >= segs.len() {
        Some(acc)
    } else {
        match sort_parse(segs[i]) {
            Some(v) => sort_list_fold(segs, i + 1, spush(acc, v)),
            None => None,
        }
    }
}

/// What parsing a `sort` value returns.
pub open spec fn sort_list_parse(s: Seq<char>) -> Option<Seq<(Seq<Seq<char>>, bool)>> {
    sort_list_fold(split_char(s, ','), 0, Seq::empty())
}

/// Splits a segment's key part at its bracket syntax: `name` alone, or
/// `name[argument]`.
pub open spec fn bracket_parse(kb: Seq<u8>) -> Option<(Seq<u8>, Option<Seq<u8>>)> {
    let br = find_byte(kb, 0x5b);
    if br < 0 {
        Some((kb, None))
    } else if br + 1 <= kb.len() - 1 && kb[kb.len() - 1] == 0x5d {
        Some((kb.take(br), Some(kb.subrange(br + 1, kb.len() - 1))))
    } else {
        None
    }
}

/// The decoding of one bracketed parameter.
pub open spec fn bracket_step(
    st: DecodeState,
    nm: Seq<char>,
    ag: Seq<char>,
    vt: Seq<char>,
) -> Option<DecodeState> {
    if nm == "fields"@ {
        match key_parse(ag) {
            Some(k) => match key_list_parse(vt) {
                Some(ks) => Some(DecodeState { fields: dinsert(st.fields, k, ks), ..st }),
                None => None,
            },
            None => None,
        }
    } else if nm == "filter"@ {
        match path_parse(ag) {
            Some(p) => Some(
                DecodeState { filter: dinsert(st.filter, p, ValueView::String(vt)), ..st },
            ),
            None => None,
        }
    } else if nm == "page"@ {
        if ag == "number"@ {
            match u64_parse(vt) {
                Some(n) => Some(DecodeState { number: Some(n), ..st }),
                None => None,
            }
        } else if ag == "size"@ {
            match u64_parse(vt) {
                Some(n) => Some(DecodeState { size: Some(n), ..st }),
                None => None,
            }
        } else {
            None
        }
    } else {
        None
    }
}

/// The decoding of one plain parameter.
pub open spec fn plain_step(st: DecodeState, nm: Seq<char>, vt: Seq<char>) -> Option<DecodeState> {
    if nm == "include"@ {
        match path_list_parse(vt) {
            Some(ps) => Some(DecodeState { includes: ps, ..st }),
            None => None,
        }
    } else if nm == "sort"@ {
        match sort_list_parse(vt) {
            Some(ss) => Some(DecodeState { sort: ss, ..st }),
            None => None,
        }
    } else {
        None
    }
}

/// The decoding of one `key=value` segment; an empty segment is skipped.
pub open spec fn segment_step(st: DecodeState, seg: Seq<u8>) -> Option<DecodeState> {
    if seg.len() == 0 {
        Some(st)
    } else {
        let eq = find_byte(seg, 0x3d);
        let kb = if eq >= 0 {
            seg.take(eq)
        } else {
            seg
        };
        let vb = if eq >= 0 {
            seg.skip(eq + 1)
        } else {
            Seq::<u8>::empty()
        };
        match bracket_parse(kb) {
            Some((nb, ab)) => match (component_text(nb), component_text(vb)) {
                (Some(nm), Some(vt)) => match ab {
                    Some(abytes) => match component_text(abytes) {
                        Some(ag) => bracket_step(st, nm, ag, vt),
                        None => None,
                    },
                    None => plain_step(st, nm, vt),
                },
                _ => None,
            },
            None => None,
        }
    }
}

/// The decoding of a sequence of segments, from position `i` on.
pub open spec fn decode_fold(segs: Seq<Seq<u8>>, i: int, st: DecodeState) -> Option<DecodeState>
    decreases segs.len() - i,
{
    if i < 0 || i >= segs.len() {
        Some(st)
    } else {
        match segment_step(st, segs[i]) {
            Some(st2) => decode_fold(segs, i + 1, st2),
            None => None,
        }
    }
}

/// What decoding a percent-encoded query string returns: percent escapes
/// are resolved, the result is split on `&`, each segment updates the
/// state, and pagination is normalized (a missing or zero page number
/// becomes one). The first failure aborts the whole decode.
pub open spec fn query_decode(data: Seq<u8>) -> Option<QueryView> {
    match decode_fold(split_byte(pct_decode_bytes(data), 0x26), 0, initial_state()) {
        Some(st) => Some(
            QueryView {
                fields: st.fields,
                filter: st.filter,
                includes: st.includes,
                sort: st.sort,
                page: if st.number is Some || st.size is Some {
                    let n = if st.number is Some {
                        st.number.unwrap()
                    } else {
                        1u64
                    };
                    Some(
                        (
                            if n == 0 {
                                1u64
                            } else {
                                n
                            },
                            st.size,
                        ),
                    )
                } else {
                    None
                },
            },
        ),
        None => None,
    }
}

/// Parses a `fields` value: member names separated by commas, collected as
/// a set.
fn parse_key_set(value: &str) -> (r: Result<OrderedSet<Key>, Error>)
    ensures
        r is Ok <==> key_list_parse(value@) is Some,
        r matches Ok(s) ==> key_set_views(s@) == key_list_parse(value@).unwrap(),
{
    let segs = split_char_exec(value, ',');
    let ghost model = split_char(value@, ',');
    let n = segs.len();
    let mut out: OrderedSet<Key> = OrderedSet::new();
    let mut i: usize = 0;
    proof {
        assert(key_set_views(out@) =~= Seq::<Seq<char>>::empty());
    }
    while i < n
        invariant
            n == model.len(),
            segs@.len() == n,
            model == split_char(value@, ','),
            i <= n,
            forall|j: int| 0 <= j < n ==> #[trigger] segs@[j]@ == model[j],
            key_list_fold(model, i as int, key_set_views(out@)) == key_list_fold(
                model,
                0,
                Seq::empty(),
            ),
        decreases n - i,
    {
        match Key::from_str(segs[i].as_str()) {
            Ok(k) => {
                let ghost kid = k@;
                let ghost pre = out@;
                let _ = out.insert(k);
                proof {
                    lemma_item_index_matches(pre, key_set_views(pre), kid);
                    lemma_item_index_props(pre, kid);
                    assert(key_set_views(out@) =~= spush(key_set_views(pre), kid));
                }
            },
            Err(e) => {
                assert(key_parse(model[i as int]) is None);
                return Err(e);
            },
        }
        i = i + 1;
    }
    Ok(out)
}

/// Parses an `includes` value: paths separated by commas, collected as a
/// set.
fn parse_path_set(value: &str) -> (r: Result<OrderedSet<Path>, Error>)
    ensures
        r is Ok <==> path_list_parse(value@) is Some,
        r matches Ok(s) ==> path_set_views(s@) == path_list_parse(value@).unwrap(),
{
    let segs = split_char_exec(value, ',');
    let ghost model = split_char(value@, ',');
    let n = segs.len();
    let mut out: OrderedSet<Path> = OrderedSet::new();
    let mut i: usize = 0;
    proof {
        assert(path_set_views(out@) =~= Seq::<Seq<Seq<char>>>::empty());
    }
    while i < n
        invariant
            n == model.len(),
            segs@.len() == n,
            model == split_char(value@, ','),
            i <= n,
            forall|j: int| 0 <= j < n ==> #[trigger] segs@[j]@ == model[j],
            path_list_fold(model, i as int, path_set_views(out@)) == path_list_fold(
                model,
                0,
                Seq::empty(),
            ),
        decreases n - i,
    {
        match Path::from_str(segs[i].as_str()) {
            Ok(p) => {
                let ghost pid = p@;
                let ghost pre = out@;
                let _ = out.insert(p);
                proof {
                    lemma_item_index_matches(pre, path_set_views(pre), pid);
                    lemma_item_index_props(pre, pid);
                    assert(path_set_views(out@) =~= spush(path_set_views(pre), pid));
                }
            },
            Err(e) => {
                assert(path_parse(model[i as int]) is None);
                return Err(e);
            },
        }
        i = i + 1;
    }
    Ok(out)
}

/// Parses a `sort` value: sort instructions separated by commas, collected
/// as a set.
fn parse_sort_set(value: &str) -> (r: Result<OrderedSet<Sort>, Error>)
    ensures
        r is Ok <==> sort_list_parse(value@) is Some,
        r matches Ok(s) ==> sort_set_views(s@) == sort_list_parse(value@).unwrap(),
{
    let segs = split_char_exec(value, ',');
    let ghost model = split_char(value@, ',');
    let n = segs.len();
    let mut out: OrderedSet<Sort> = OrderedSet::new();
    let mut i: usize = 0;
    proof {
        assert(sort_set_views(out@) =~= Seq::<(Seq<Seq<char>>, bool)>::empty());
    }
    while i < n
        invariant
            n == model.len(),
            segs@.len() == n,
            model == split_char(value@, ','),
            i <= n,
            forall|j: int| 0 <= j < n ==> #[trigger] segs@[j]@ == model[j],
            sort_list_fold(model, i as int, sort_set_views(out@)) == sort_list_fold(
                model,
                0,
                Seq::empty(),
            ),
        decreases n - i,
    {
        match Sort::from_str(segs[i].as_str()) {
            Ok(s) => {
                let ghost sid = s@;
                let ghost pre = out@;
                let _ = out.insert(s);
                proof {
                    lemma_item_index_matches(pre, sort_set_views(pre), sid);
                    lemma_item_index_props(pre, sid);
                    assert(sort_set_views(out@) =~= spush(sort_set_views(pre), sid));
                }
            },
            Err(e) => {
                assert(sort_parse(model[i as int]) is None);
                return Err(e);
            },
        }
        i = i + 1;
    }
    Ok(out)
}

/// The current decoder state, as the spec sees it.
pub open spec fn state_of(
    fields: Seq<(Key, OrderedSet<Key>)>,
    filter: Seq<(Path, Value)>,
    includes: Seq<Path>,
    number: Option<u64>,
    size: Option<u64>,
    sort: Seq<Sort>,
) -> DecodeState {
    DecodeState {
        fields: fields_views(fields),
        filter: filter_views(filter),
        includes: path_set_views(includes),
        number,
        size,
        sort: sort_set_views(sort),
    }
}

/// Decodes a `Query` from the bytes of a percent-encoded query string.
///
/// Percent escapes are resolved first; the result is split on `&`; each
/// `key=value` segment must be one of the five well-known parameters, with
/// its pieces form-decoded (`+` means space) and validated. The first
/// failure aborts the whole decode. The empty string decodes to the
/// all-defaults query.
pub fn from_slice(data: &[u8]) -> (r: Result<Query, Error>)
    ensures
        r is Ok <==> query_decode(data@) is Some,
        r matches Ok(q) ==> q@ == query_decode(data@).unwrap(),
{
    let decoded = pct_decode(data);
    let segs = split_byte_exec(decoded.as_slice(), 0x26);
    let ghost model = split_byte(pct_decode_bytes(data@), 0x26);
    let n = segs.len();
    let mut fields: OrderedMap<Key, OrderedSet<Key>> = OrderedMap::new();
    let mut filter: OrderedMap<Path, Value> = OrderedMap::new();
    let mut includes: OrderedSet<Path> = OrderedSet::new();
    let mut number: Option<u64> = None;
    let mut size: Option<u64> = None;
    let mut sort: OrderedSet<Sort> = OrderedSet::new();
    let mut i: usize = 0;
    proof {
        assert(state_of(fields@, filter@, includes@, number, size, sort@) =~= initial_state());
    }
    while i < n
        invariant
            n == model.len(),
            segs@.len() == n,
            model == split_byte(pct_decode_bytes(data@), 0x26),
            i <= n,
            forall|j: int| 0 <= j < n ==> #[trigger] segs@[j]@ == model[j],
            decode_fold(
                model,
                i as int,
                state_of(fields@, filter@, includes@, number, size, sort@),
            ) == decode_fold(model, 0, initial_state()),
        decreases n - i,
    {
        let ghost st = state_of(fields@, filter@, includes@, number, size, sort@);
        let ghost segm = model[i as int];
        let seg = &segs[i];
        let m = seg.len();
        if m == 0 {
            i = i + 1;
            continue ;
        }
        let sl = seg.as_slice();
        let (kb, vb): (&[u8], &[u8]) = match find_byte_exec(sl, 0x3d) {
            Some(p) => (slice_subrange(sl, 0, p), slice_subrange(sl, p + 1, m)),
            None => (sl, slice_subrange(sl, m, m)),
        };
        proof {
            let eq = find_byte(segm, 0x3d);
            if eq >= 0 {
                assert(kb@ =~= segm.take(eq));
                assert(vb@ =~= segm.skip(eq + 1));
            } else {
                assert(kb@ =~= segm);
                assert(vb@ =~= Seq::<u8>::empty());
            }
        }
        let (nb, ab): (&[u8], Option<&[u8]>) = match find_byte_exec(kb, 0x5b) {
            None => (kb, None),
            Some(br) => {
                if kb.len() - 1 > br && kb[kb.len() - 1] == 0x5d {
                    (slice_subrange(kb, 0, br), Some(slice_subrange(kb, br + 1, kb.len() - 1)))
                } else {
                    assert(bracket_parse(kb@) is None);
                    return Err(Error::Query("malformed bracketed parameter".to_owned()));
                }
            },
        };
        proof {
            let br = find_byte(kb@, 0x5b);
            if br >= 0 {
                assert(nb@ =~= kb@.take(br));
                assert(ab matches Some(a) && a@ =~= kb@.subrange(br + 1, kb@.len() - 1));
            }
            assert(bracket_parse(kb@) matches Some(pair) && pair.0 == nb@);
        }
        let name = match decode_component(nb) {
            Some(s) => s,
            None => {
                return Err(Error::Query("query parameter is not valid text".to_owned()));
            },
        };
        let value = match decode_component(vb) {
            Some(s) => s,
            None => {
                return Err(Error::Query("query value is not valid text".to_owned()));
            },
        };
        match ab {
            Some(argb) => {
                let arg = match decode_component(argb) {
                    Some(s) => s,
                    None => {
                        return Err(Error::Query("query argument is not valid text".to_owned()));
                    },
                };
                if str_is(name.as_str(), "fields") {
                    let key = match Key::from_str(arg.as_str()) {
                        Ok(k) => k,
                        Err(e) => {
                            return Err(e);
                        },
                    };
                    let set = match parse_key_set(value.as_str()) {
                        Ok(s) => s,
                        Err(e) => {
                            return Err(e);
                        },
                    };
                    let ghost kid = key@;
                    let ghost sviews = key_set_views(set@);
                    let ghost pre = fields@;
                    let _ = fields.insert(key, set);
                    proof {
                        lemma_entry_index_matches(pre, fields_views(pre), kid);
                        lemma_entry_index_props(pre, kid);
                        assert(fields_views(fields@) =~= dinsert(fields_views(pre), kid, sviews));
                        assert(state_of(fields@, filter@, includes@, number, size, sort@)
                            =~= segment_step(st, segm).unwrap());
                    }
                } else if str_is(name.as_str(), "filter") {
                    let path = match Path::from_str(arg.as_str()) {
                        Ok(p) => p,
                        Err(e) => {
                            return Err(e);
                        },
                    };
                    let ghost pid = path@;
                    let ghost vview = ValueView::String(value@);
                    let ghost pre = filter@;
                    let _ = filter.insert(path, Value::String(value));
                    proof {
                        lemma_entry_index_matches(pre, filter_views(pre), pid);
                        lemma_entry_index_props(pre, pid);
                        assert(filter_views(filter@) =~= dinsert(filter_views(pre), pid, vview));
                        assert(state_of(fields@, filter@, includes@, number, size, sort@)
                            =~= segment_step(st, segm).unwrap());
                    }
                } else if str_is(name.as_str(), "page") {
                    let parsed = match parse_u64(value.as_str()) {
                        Some(v) => v,
                        None => {
                            return Err(Error::Query("page parameter is not a number".to_owned()));
                        },
                    };
                    if str_is(arg.as_str(), "number") {
                        number = Some(parsed);
                    } else if str_is(arg.as_str(), "size") {
                        size = Some(parsed);
                    } else {
                        return Err(Error::Query("unknown page parameter".to_owned()));
                    }
                    proof {
                        assert(state_of(fields@, filter@, includes@, number, size, sort@)
                            =~= segment_step(st, segm).unwrap());
                    }
                } else {
                    return Err(Error::Query("unknown query parameter".to_owned()));
                }
            },
            None => {
                if str_is(name.as_str(), "include") {
                    includes = match parse_path_set(value.as_str()) {
                        Ok(s) => s,
                        Err(e) => {
                            return Err(e);
                        },
                    };
                    proof {
                        assert(state_of(fields@, filter@, includes@, number, size, sort@)
                            =~= segment_step(st, segm).unwrap());
                    }
                } else if str_is(name.as_str(), "sort") {
                    sort = match parse_sort_set(value.as_str()) {
                        Ok(s) => s,
                        Err(e) => {
                            return Err(e);
                        },
                    };
                    proof {
                        assert(state_of(fields@, filter@, includes@, number, size, sort@)
                            =~= segment_step(st, segm).unwrap());
                    }
                } else {
                    return Err(Error::Query("unknown query parameter".to_owned()));
                }
            },
        }
        i = i + 1;
    }
    let page: Option<Page> = if number.is_some() || size.is_some() {
        let base = match number {
            Some(v) => v,
            None => 1,
        };
        Some(Page::new(base, size))
    } else {
        None
    };
    let q = Query { fields, filter, includes, page, sort };
    proof {
        assert(q@ =~= query_decode(data@).unwrap());
    }
    Ok(q)
}

/// The text of a path holds only its keys' characters and dots, so it
/// avoids every reserved character other than the dot itself.
proof fn lemma_path_join_avoids(views: Seq<Seq<char>>, i: int, c: char)
    requires
        0 <= i <= views.len(),
        c != '.',
        forall|j: int| 0 <= j < views.len() ==> path_wf_entry(views, j, c),
    ensures
        forall|idx: int|
            0 <= idx < path_join_from(views, i).len() ==> path_join_from(views, i)[idx] != c,
    decreases views.len() - i,
{
    if i < views.len() {
        lemma_path_join_avoids(views, i + 1, c);
        assert(path_wf_entry(views, i, c));
        let s = path_join_from(views, i);
        assert forall|idx: int| 0 <= idx < s.len() implies s[idx] != c by {
            if i < views.len() - 1 {
                let k = views[i].len() as int;
                if idx < k {
                    assert(s[idx] == views[i][idx]);
                } else if idx == k {
                    assert(s[idx] == '.');
                } else {
                    assert(s[idx] == path_join_from(views, i + 1)[idx - k - 1]);
                }
            }
        }
    }
}

/// The keys at position `j` avoid the character `c`.
pub open spec fn path_wf_entry(views: Seq<Seq<char>>, j: int, c: char) -> bool {
    forall|idx: int| 0 <= idx < views[j].len() ==> views[j][idx] != c
}

/// Splitting the separator-joined texts gives them back, when each is
/// non-empty and avoids the separator.
proof fn lemma_split_join_with(parts: Seq<Seq<char>>, sep: char, i: int)
    requires
        0 <= i < parts.len(),
        forall|j: int|
            0 <= j < parts.len() ==> #[trigger] parts[j].len() > 0 && path_wf_entry(parts, j, sep),
    ensures
        split_char(join_from(parts, i, sep), sep) =~= parts.skip(i),
    decreases parts.len() - i,
{
    let s = join_from(parts, i, sep);
    if i == parts.len() - 1 {
        assert(s == parts[i]);
        lemma_find_char_at(s, sep, s.len() as int);
        assert(split_char(s, sep) =~= seq![parts[i]]);
        assert(parts.skip(i) =~= seq![parts[i]]);
    } else {
        let rest = join_from(parts, i + 1, sep);
        assert(s == parts[i] + seq![sep] + rest);
        let f = parts[i].len() as int;
        assert(forall|j: int| 0 <= j < f ==> s[j] == parts[i][j] && s[j] != sep);
        assert(s[f] == sep);
        lemma_find_char_at(s, sep, f);
        assert(s.take(f) =~= parts[i]);
        assert(s.skip(f + 1) =~= rest);
        lemma_split_join_with(parts, sep, i + 1);
        assert(split_char(s, sep) =~= seq![parts[i]] + parts.skip(i + 1));
        assert(seq![parts[i]] + parts.skip(i + 1) =~= parts.skip(i));
    }
}

/// Parsing the collected instruction texts in turn gives the instructions
/// back, when they are distinct.
proof fn lemma_sort_fold_exact(
    texts: Seq<Seq<char>>,
    views: Seq<(Seq<Seq<char>>, bool)>,
    j: int,
)
    requires
        texts.len() == views.len(),
        0 <= j <= views.len(),
        forall|k: int| 0 <= k < views.len() ==> sort_parse(#[trigger] texts[k]) == Some(views[k]),
        forall|k: int, l: int| 0 <= k < l < views.len() ==> views[k] != views[l],
    ensures
        sort_list_fold(texts, j, views.take(j)) == Some(views),
    decreases views.len() - j,
{
    if j == views.len() {
        assert(views.take(j) =~= views);
    } else {
        assert(sort_parse(texts[j]) == Some(views[j]));
        assert(spush(views.take(j), views[j]) =~= views.take(j + 1)) by {
            lemma_sfind_none(views.take(j), views[j]);
        }
        lemma_sort_fold_exact(texts, views, j + 1);
    }
}

/// Round trip for the comma-list layer of the `sort` component: parsing the
/// text the component encodes to (before form encoding) gives the same
/// instructions back, for distinct instructions over non-empty paths of
/// well-formed keys.
pub proof fn lemma_sort_component_round_trip(views: Seq<(Seq<Seq<char>>, bool)>)
    requires
        views.len() > 0,
        forall|i: int|
            0 <= i < views.len() ==> (#[trigger] views[i]).0.len() > 0 && path_wf(views[i].0),
        forall|i: int, j: int| 0 <= i < j < views.len() ==> views[i] != views[j],
    ensures
        sort_list_parse(join_with(Seq::new(views.len(), |i: int| sort_encode(views[i])), ','))
            == Some(views),
{
    let texts = Seq::new(views.len(), |i: int| sort_encode(views[i]));
    assert forall|j: int|
        0 <= j < texts.len() implies #[trigger] texts[j].len() > 0 && path_wf_entry(
        texts,
        j,
        ',',
    ) by {
        let v = views[j];
        assert forall|x: int| 0 <= x < v.0.len() implies path_wf_entry(v.0, x, ',') by {
            assert(key_wf(v.0[x]));
            assert(forall|idx: int|
                0 <= idx < v.0[x].len() ==> !is_reserved_char(#[trigger] v.0[x][idx]));
        }
        lemma_path_join_avoids(v.0, 0, ',');
        assert(path_join(v.0).len() > 0) by {
            crate::value::fields::lemma_path_round_trip(v.0);
            assert(key_wf(v.0[0]));
            if v.0.len() == 1 {
                assert(path_join_from(v.0, 0) == v.0[0]);
            } else {
                assert(path_join_from(v.0, 0) == v.0[0] + seq![
                    '.',
                ] + path_join_from(v.0, 1));
            }
        }
        assert(forall|idx: int|
            0 <= idx < sort_encode(v).len() ==> #[trigger] sort_encode(v)[idx] != ',');
    }
    lemma_split_join_with(texts, ',', 0);
    assert(split_char(join_with(texts, ','), ',') =~= texts) by {
        assert(texts.skip(0) =~= texts);
    }
    assert forall|k: int| 0 <= k < views.len() implies sort_parse(#[trigger] texts[k]) == Some(
        views[k],
    ) by {
        crate::query::sort::lemma_sort_round_trip(views[k]);
    }
    lemma_sort_fold_exact(texts, views, 0);
    assert(views.take(0) =~= Seq::<(Seq<Seq<char>>, bool)>::empty());
}

/// Parsing the collected path texts in turn gives the paths back, when
/// they are distinct.
proof fn lemma_path_fold_exact(texts: Seq<Seq<char>>, views: Seq<Seq<Seq<char>>>, j: int)
    requires
        texts.len() == views.len(),
        0 <= j <= views.len(),
        forall|k: int| 0 <= k < views.len() ==> path_parse(#[trigger] texts[k]) == Some(views[k]),
        forall|k: int, l: int| 0 <= k < l < views.len() ==> views[k] != views[l],
    ensures
        path_list_fold(texts, j, views.take(j)) == Some(views),
    decreases views.len() - j,
{
    if j == views.len() {
        assert(views.take(j) =~= views);
    } else {
        assert(path_parse(texts[j]) == Some(views[j]));
        assert(spush(views.take(j), views[j]) =~= views.take(j + 1)) by {
            lemma_sfind_none(views.take(j), views[j]);
        }
        lemma_path_fold_exact(texts, views, j + 1);
    }
}

/// Round trip for the comma-list layer of the `include` component: parsing
/// the text the component encodes to (before form encoding) gives the same
/// paths back, for distinct, non-empty paths of well-formed keys.
pub proof fn lemma_include_component_round_trip(views: Seq<Seq<Seq<char>>>)
    requires
        views.len() > 0,
        forall|i: int| 0 <= i < views.len() ==> (#[trigger] views[i]).len() > 0 && path_wf(
            views[i],
        ),
        forall|i: int, j: int| 0 <= i < j < views.len() ==> views[i] != views[j],
    ensures
        path_list_parse(join_with(Seq::new(views.len(), |i: int| path_join(views[i])), ','))
            == Some(views),
{
    let texts = Seq::new(views.len(), |i: int| path_join(views[i]));
    assert forall|j: int|
        0 <= j < texts.len() implies #[trigger] texts[j].len() > 0 && path_wf_entry(
        texts,
        j,
        ',',
    ) by {
        let p = views[j];
        assert forall|x: int| 0 <= x < p.len() implies path_wf_entry(p, x, ',') by {
            assert(key_wf(p[x]));
            assert(forall|idx: int| 0 <= idx < p[x].len() ==> !is_reserved_char(
                #[trigger] p[x][idx],
            ));
        }
        lemma_path_join_avoids(p, 0, ',');
        assert(path_join(p).len() > 0) by {
            assert(key_wf(p[0]));
            if p.len() == 1 {
                assert(path_join_from(p, 0) == p[0]);
            } else {
                assert(path_join_from(p, 0) == p[0] + seq!['.'] + path_join_from(p, 1));
            }
        }
    }
    lemma_split_join_with(texts, ',', 0);
    assert(split_char(join_with(texts, ','), ',') =~= texts) by {
        assert(texts.skip(0) =~= texts);
    }
    assert forall|k: int| 0 <= k < views.len() implies path_parse(#[trigger] texts[k]) == Some(
        views[k],
    ) by {
        crate::value::fields::lemma_path_round_trip(views[k]);
    }
    lemma_path_fold_exact(texts, views, 0);
    assert(views.take(0) =~= Seq::<Seq<Seq<char>>>::empty());
}

/// Parsing the collected member names in turn gives the names back, when
/// they are distinct.
proof fn lemma_key_fold_exact(texts: Seq<Seq<char>>, views: Seq<Seq<char>>, j: int)
    requires
        texts.len() == views.len(),
        0 <= j <= views.len(),
        forall|k: int| 0 <= k < views.len() ==> key_parse(#[trigger] texts[k]) == Some(views[k]),
        forall|k: int, l: int| 0 <= k < l < views.len() ==> views[k] != views[l],
    ensures
        key_list_fold(texts, j, views.take(j)) == Some(views),
    decreases views.len() - j,
{
    if j == views.len() {
        assert(views.take(j) =~= views);
    } else {
        assert(key_parse(texts[j]) == Some(views[j]));
        assert(spush(views.take(j), views[j]) =~= views.take(j + 1)) by {
            lemma_sfind_none(views.take(j), views[j]);
        }
        lemma_key_fold_exact(texts, views, j + 1);
    }
}

/// Round trip for the comma-list layer of a `fields` value: parsing the
/// text the field names encode to (before form encoding) gives the same
/// names back, for distinct well-formed names.
pub proof fn lemma_fields_component_round_trip(views: Seq<Seq<char>>)
    requires
        views.len() > 0,
        forall|i: int| 0 <= i < views.len() ==> key_wf(#[trigger] views[i]),
        forall|i: int, j: int| 0 <= i < j < views.len() ==> views[i] != views[j],
    ensures
        key_list_parse(join_with(views, ',')) == Some(views),
{
    assert forall|j: int|
        0 <= j < views.len() implies #[trigger] views[j].len() > 0 && path_wf_entry(
        views,
        j,
        ',',
    ) by {
        assert(key_wf(views[j]));
        assert(forall|idx: int|
            0 <= idx < views[j].len() ==> !is_reserved_char(#[trigger] views[j][idx]));
    }
    lemma_split_join_with(views, ',', 0);
    assert(split_char(join_with(views, ','), ',') =~= views) by {
        assert(views.skip(0) =~= views);
    }
    assert forall|k: int| 0 <= k < views.len() implies key_parse(#[trigger] views[k]) == Some(
        views[k],
    ) by {
        crate::value::fields::lemma_kebab_fixpoint(views[k]);
    }
    lemma_key_fold_exact(views, views, 0);
    assert(views.take(0) =~= Seq::<Seq<char>>::empty());
}

/// Decodes a `Query` from a percent-encoded query string.
pub fn from_str(data: &str) -> (r: Result<Query, Error>)
    ensures
        r is Ok <==> query_decode(vstd::utf8::encode_utf8(data@)) is Some,
        r matches Ok(q) ==> q@ == query_decode(vstd::utf8::encode_utf8(data@)).unwrap(),
{
    from_slice(data.as_bytes())
}

} // verus!
