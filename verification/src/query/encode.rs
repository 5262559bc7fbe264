//! Encoding a `Query` as a percent-encoded query string.
use vstd::prelude::*;

use crate::error::Error;
use crate::query::codec::{dec_digits, fmt_u64, form_encode, form_encode_text};
use crate::query::sort::{sort_encode, Sort};
use crate::query::{key_set_views, Query, QueryView};
use crate::value::collections::map::OrderedMap;
use crate::value::fields::{path_join, seq_views, Key};
use crate::value::value::{Value, ValueView};

verus! {

/// The given texts joined by the separator, from position `i` on.
pub open spec fn join_from(parts: Seq<Seq<char>>, i: int, sep: char) -> Seq<char>
    decreases parts.len() - i,
{
    if i < 0 || i >= parts.len() {
        Seq::empty()
    } else if i == parts.len() - 1 {
        parts[i]
    } else {
        parts[i] + seq![sep] + join_from(parts, i + 1, sep)
    }
}

/// The given texts joined by the separator.
pub open spec fn join_with(parts: Seq<Seq<char>>, sep: char) -> Seq<char> {
    join_from(parts, 0, sep)
}

/// The text a value is written as in a filter parameter, when it has one:
/// strings are written as their content, booleans and integer numbers as
/// their usual text, null as nothing; arrays and objects cannot be written.
pub open spec fn value_text(v: ValueView) -> Option<Seq<char>> {
    match v {
        ValueView::String(s) => Some(s),
        ValueView::Bool(b) => Some(
            if b {
                "true"@
            } else {
                "false"@
            },
        ),
        ValueView::Number(n) => Some(int_text(n)),
        ValueView::Null => Some(Seq::empty()),
        _ => None,
    }
}

/// The decimal text of an integer.
pub open spec fn int_text(n: int) -> Seq<char> {
    if n >= 0 {
        dec_digits(n)
    } else {
        seq!['-'] + dec_digits(-n)
    }
}

/// The segment one fieldset entry encodes to.
pub open spec fn fields_segment(e: (Seq<char>, Seq<Seq<char>>)) -> Seq<char> {
    "fields%5B"@ + form_encode_text(e.0) + "%5D="@ + form_encode_text(join_with(e.1, ','))
}

/// The segments of the `fields` component.
pub open spec fn fields_segments(fs: Seq<(Seq<char>, Seq<Seq<char>>)>) -> Seq<Seq<char>> {
    Seq::new(fs.len(), |i: int| fields_segment(fs[i]))
}

/// The segment one filter entry encodes to, when its value can be written.
pub open spec fn filter_segment(e: (Seq<Seq<char>>, ValueView)) -> Option<Seq<char>> {
    match value_text(e.1) {
        Some(t) => Some(
            "filter%5B"@ + form_encode_text(path_join(e.0)) + "%5D="@ + form_encode_text(t),
        ),
        None => None,
    }
}

/// The segments of the `filter` component from position `i` on, or nothing
/// as soon as one value cannot be written.
pub open spec fn filter_segments_from(fs: Seq<(Seq<Seq<char>>, ValueView)>, i: int) -> Option<
    Seq<Seq<char>>,
>
    decreases fs.len() - i,
{
    if i < 0 || i >= fs.len() {
        Some(Seq::empty())
    } else {
        match filter_segment(fs[i]) {
            Some(sg) => match filter_segments_from(fs, i + 1) {
                Some(rest) => Some(seq![sg] + rest),
                None => None,
            },
            None => None,
        }
    }
}

/// The segments of the `include` component: one segment listing the paths,
/// or none when there are no paths.
pub open spec fn include_segments(inc: Seq<Seq<Seq<char>>>) -> Seq<Seq<char>> {
    if inc.len() == 0 {
        Seq::empty()
    } else {
        seq![
            "include="@ + form_encode_text(
                join_with(Seq::new(inc.len(), |i: int| path_join(inc[i])), ','),
            ),
        ]
    }
}

/// The segments of the `page` component: the number unless it is one, and
/// the size when present.
pub open spec fn page_segments(p: Option<(u64, Option<u64>)>) -> Seq<Seq<char>> {
    match p {
        None => Seq::empty(),
        Some((n, sz)) => (if n != 1 {
            seq!["page%5Bnumber%5D="@ + dec_digits(n as int)]
        } else {
            Seq::empty()
        }) + (match sz {
            Some(s) => seq!["page%5Bsize%5D="@ + dec_digits(s as int)],
            None => Seq::empty(),
        }),
    }
}

/// The segments of the `sort` component: one segment listing the
/// instructions, or none when there are none.
pub open spec fn sort_segments(ss: Seq<(Seq<Seq<char>>, bool)>) -> Seq<Seq<char>> {
    if ss.len() == 0 {
        Seq::empty()
    } else {
        seq![
            "sort="@ + form_encode_text(
                join_with(Seq::new(ss.len(), |i: int| sort_encode(ss[i])), ','),
            ),
        ]
    }
}

/// What encoding a query returns: its non-default components as `&`-joined
/// segments, each piece form-encoded; or nothing when a filter value is an
/// array or object, which this encoding cannot write.
pub open spec fn query_encode(q: QueryView) -> Option<Seq<char>> {
    match filter_segments_from(q.filter, 0) {
        Some(fsegs) => Some(
            join_with(
                fields_segments(q.fields) + fsegs + include_segments(q.includes) + page_segments(
                    q.page,
                ) + sort_segments(q.sort),
                '&',
            ),
        ),
        None => None,
    }
}

/// Joins the given strings with the separator.
fn join_strings(parts: &Vec<String>, sep: char) -> (r: String)
    ensures
        r@ == join_with(seq_views(parts@), sep),
{
    let n = parts.len();
    let ghost model = seq_views(parts@);
    let mut out = String::new();
    let mut i: usize = 0;
    while i < n
        invariant
            n == model.len(),
            parts@.len() == n,
            model == seq_views(parts@),
            i <= n,
            out@ + join_from(model, i as int, sep) == join_with(model, sep),
        decreases n - i,
    {
        let ghost pre = out@;
        out.append(parts[i].as_str());
        if i + 1 < n {
            out.push(sep);
            proof {
                assert(out@ =~= pre + (model[i as int] + seq![sep]));
                assert(pre + (model[i as int] + seq![sep]) + join_from(model, i as int + 1, sep)
                    =~= pre + (model[i as int] + seq![sep] + join_from(model, i as int + 1, sep)));
            }
        } else {
            proof {
                assert(out@ + join_from(model, i as int + 1, sep) =~= pre + model[i as int]);
            }
        }
        i = i + 1;
    }
    proof {
        assert(out@ + Seq::<char>::empty() =~= out@);
    }
    out
}

/// The text a value is written as, when it has one.
fn value_text_exec(v: &Value) -> (r: Option<String>)
    ensures
        r is Some <==> value_text(v@) is Some,
        r matches Some(s) ==> s@ == value_text(v@).unwrap(),
{
    match v {
        Value::String(s) => Some(s.clone()),
        Value::Bool(b) => Some(
            if *b {
                "true".to_owned()
            } else {
                "false".to_owned()
            },
        ),
        Value::Number(n) => {
            proof {
                n.lemma_bounds();
            }
            match n.as_u64() {
                Some(u) => Some(fmt_u64(u)),
                None => {
                    let m = match n.as_i64() {
                        Some(v) => v,
                        None => unreached(),
                    };
                    let magnitude: u64 = if m == i64::MIN {
                        9223372036854775808u64
                    } else {
                        (-m) as u64
                    };
                    let mut out = String::new();
                    out.push('-');
                    let digits = fmt_u64(magnitude);
                    out.append(digits.as_str());
                    proof {
                        assert(out@ =~= int_text(n@));
                    }
                    Some(out)
                },
            }
        },
        Value::Null => {
            let s = String::new();
            proof {
                assert(s@ =~= Seq::<char>::empty());
            }
            Some(s)
        },
        _ => None,
    }
}

/// Serializes the given query as a percent-encoded query string.
///
/// Each non-default component becomes one or more `key=value` segments,
/// joined by `&`; names, paths and values are form-encoded. Fails when a
/// filter value is an array or object, which this encoding cannot write.
pub fn to_string(query: &Query) -> (r: Result<String, Error>)
    ensures
        r is Ok <==> query_encode(query@) is Some,
        r matches Ok(s) ==> s@ == query_encode(query@).unwrap(),
{
    let mut segments: Vec<String> = Vec::new();
    let ghost fsegs = fields_segments(query@.fields);
    let nf = query.fields.len();
    let mut i: usize = 0;
    proof {
        assert(seq_views(segments@) =~= fsegs.take(0));
    }
    while i < nf
        invariant
            nf == query.fields@.len(),
            fsegs == fields_segments(query@.fields),
            fsegs.len() == nf,
            i <= nf,
            seq_views(segments@) =~= fsegs.take(i as int),
        decreases nf - i,
    {
        let key = query.fields.key_at(i);
        let set = query.fields.value_at(i);
        let mut texts: Vec<String> = Vec::new();
        let m = set.len();
        let mut j: usize = 0;
        while j < m
            invariant
                m == set@.len(),
                j <= m,
                texts@.len() == j,
                forall|k: int| 0 <= k < j ==> #[trigger] texts@[k]@ == set@[k]@,
            decreases m - j,
        {
            let t = set.item_at(j).as_str().to_owned();
            texts.push(t);
            j = j + 1;
        }
        proof {
            assert(seq_views(texts@) =~= key_set_views(set@));
        }
        let joined = join_strings(&texts, ',');
        let mut seg = String::new();
        seg.append("fields%5B");
        let ek = form_encode(key.as_str());
        seg.append(ek.as_str());
        seg.append("%5D=");
        let ev = form_encode(joined.as_str());
        seg.append(ev.as_str());
        proof {
            assert(seg@ =~= fields_segment(query@.fields[i as int]));
        }
        let ghost pre_views = seq_views(segments@);
        let ghost segv = seg@;
        segments.push(seg);
        proof {
            assert(seq_views(segments@) =~= pre_views.push(segv));
            assert(fsegs.take(i as int + 1) =~= fsegs.take(i as int).push(fsegs[i as int]));
            assert(fsegs[i as int] == fields_segment(query@.fields[i as int]));
            assert(seq_views(segments@) =~= fsegs.take(i as int + 1));
        }
        i = i + 1;
    }
    proof {
        assert(fsegs.take(nf as int) =~= fsegs);
    }
    let ghost fvs = query@.filter;
    let nl = query.filter.len();
    let mut i: usize = 0;
    while i < nl
        invariant
            nl == query.filter@.len(),
            fvs == query@.filter,
            fvs.len() == nl,
            i <= nl,
            fsegs == fields_segments(query@.fields),
            match filter_segments_from(fvs, i as int) {
                Some(rest) => filter_segments_from(fvs, 0) matches Some(all) && seq_views(
                    segments@,
                ) + rest =~= fsegs + all,
                None => filter_segments_from(fvs, 0) is None,
            },
        decreases nl - i,
    {
        let path = query.filter.key_at(i);
        let value = query.filter.value_at(i);
        let text = match value_text_exec(value) {
            Some(t) => t,
            None => {
                proof {
                    assert(filter_segments_from(fvs, i as int) is None);
                }
                return Err(Error::Query("a filter value cannot be written as text".to_owned()));
            },
        };
        let mut seg = String::new();
        seg.append("filter%5B");
        let pt = path.to_string();
        let ep = form_encode(pt.as_str());
        seg.append(ep.as_str());
        seg.append("%5D=");
        let ev = form_encode(text.as_str());
        seg.append(ev.as_str());
        proof {
            assert(filter_segment(fvs[i as int]) matches Some(sg) && seg@ =~= sg);
        }
        segments.push(seg);
        proof {
            if filter_segments_from(fvs, i as int + 1) is Some {
                let rest = filter_segments_from(fvs, i as int + 1).unwrap();
                assert(filter_segments_from(fvs, i as int) matches Some(whole) && whole =~= seq![
                    filter_segment(fvs[i as int]).unwrap(),
                ] + rest);
                assert(seq_views(segments@) =~= seq_views(segments@.drop_last()).push(
                    filter_segment(fvs[i as int]).unwrap(),
                ));
                assert(seq_views(segments@) + rest =~= seq_views(segments@.drop_last()) + (seq![
                    filter_segment(fvs[i as int]).unwrap(),
                ] + rest));
            }
        }
        i = i + 1;
    }
    let ghost flsegs = filter_segments_from(fvs, 0).unwrap();
    proof {
        assert(filter_segments_from(fvs, nl as int) matches Some(e) && e =~= Seq::<Seq<char>>::empty());
        assert(seq_views(segments@) =~= fsegs + flsegs) by {
            assert(seq_views(segments@) + Seq::<Seq<char>>::empty() =~= seq_views(segments@));
        }
    }
    let ni = query.includes.len();
    if ni > 0 {
        let mut texts: Vec<String> = Vec::new();
        let mut j: usize = 0;
        while j < ni
            invariant
                ni == query.includes@.len(),
                j <= ni,
                texts@.len() == j,
                forall|k: int|
                    0 <= k < j ==> #[trigger] texts@[k]@ == path_join(query.includes@[k]@),
            decreases ni - j,
        {
            let t = query.includes.item_at(j).to_string();
            texts.push(t);
            j = j + 1;
        }
        proof {
            assert(seq_views(texts@) =~= Seq::new(
                query@.includes.len(),
                |i: int| path_join(query@.includes[i]),
            ));
        }
        let joined = join_strings(&texts, ',');
        let mut seg = String::new();
        seg.append("include=");
        let ev = form_encode(joined.as_str());
        seg.append(ev.as_str());
        proof {
            assert(include_segments(query@.includes) =~= seq![seg@]);
        }
        segments.push(seg);
    }
    let ghost isegs = include_segments(query@.includes);
    proof {
        if ni > 0 {
            assert(seq_views(segments@) =~= fsegs + flsegs + isegs) by {
                assert(seq_views(segments@) =~= seq_views(segments@.drop_last()).push(
                    segments@.last()@,
                ));
            }
        } else {
            assert(isegs =~= Seq::<Seq<char>>::empty());
            assert(seq_views(segments@) =~= fsegs + flsegs + isegs);
        }
    }
    match query.page {
        Some(page) => {
            if page.number != 1 {
                let mut seg = String::new();
                seg.append("page%5Bnumber%5D=");
                let d = fmt_u64(page.number);
                seg.append(d.as_str());
                segments.push(seg);
            }
            match page.size {
                Some(size) => {
                    let mut seg = String::new();
                    seg.append("page%5Bsize%5D=");
                    let d = fmt_u64(size);
                    seg.append(d.as_str());
                    segments.push(seg);
                },
                None => {},
            }
        },
        None => {},
    }
    let ghost psegs = page_segments(query@.page);
    proof {
        assert(seq_views(segments@) =~= fsegs + flsegs + isegs + psegs);
    }
    let ns = query.sort.len();
    if ns > 0 {
        let mut texts: Vec<String> = Vec::new();
        let mut j: usize = 0;
        while j < ns
            invariant
                ns == query.sort@.len(),
                j <= ns,
                texts@.len() == j,
                forall|k: int| 0 <= k < j ==> #[trigger] texts@[k]@ == sort_encode(query.sort@[k]@),
            decreases ns - j,
        {
            let t = query.sort.item_at(j).to_string();
            texts.push(t);
            j = j + 1;
        }
        proof {
            assert(seq_views(texts@) =~= Seq::new(
                query@.sort.len(),
                |i: int| sort_encode(query@.sort[i]),
            ));
        }
        let joined = join_strings(&texts, ',');
        let mut seg = String::new();
        seg.append("sort=");
        let ev = form_encode(joined.as_str());
        seg.append(ev.as_str());
        proof {
            assert(sort_segments(query@.sort) =~= seq![seg@]);
        }
        segments.push(seg);
    }
    let ghost ssegs = sort_segments(query@.sort);
    proof {
        if ns > 0 {
            assert(seq_views(segments@) =~= fsegs + flsegs + isegs + psegs + ssegs) by {
                assert(seq_views(segments@) =~= seq_views(segments@.drop_last()).push(
                    segments@.last()@,
                ));
            }
        } else {
            assert(ssegs =~= Seq::<Seq<char>>::empty());
            assert(seq_views(segments@) =~= fsegs + flsegs + isegs + psegs + ssegs);
        }
    }
    let out = join_strings(&segments, '&');
    Ok(out)
}

/// Serializes the given query as a percent-encoded query string, as bytes.
pub fn to_vec(query: &Query) -> (r: Result<Vec<u8>, Error>)
    ensures
        r is Ok <==> query_encode(query@) is Some,
        r matches Ok(b) ==> b@ == vstd::utf8::encode_utf8(query_encode(query@).unwrap()),
{
    match to_string(query) {
        Ok(s) => Ok(s.as_str().as_bytes_vec()),
        Err(e) => Err(e),
    }
}

} // verus!
