//! Request normalizer: turns the transport-level pieces of an inbound
//! request (method, path, raw header pairs, body bytes, a timestamp) into the
//! canonical captured-request record.

use vstd::prelude::*;
use vstd::string::StringExecFns;

use crate::errors::Error;
use crate::models::MultiMap;
use crate::models::MultiMapView;
use crate::models::Request;
use crate::models::mm_append;
use crate::models::mm_first_ci;
use crate::models::mm_index_of;
use crate::models::lemma_mm_index_of;
use crate::text::parse_u64;
use crate::text::parse_u64_spec;

verus! {

/// What `url::Url::query_pairs` returns for a path: the decoded key/value
/// pairs of its query component in order of appearance, or nothing when the
/// path does not parse as the path-and-query of a URL. A pure function of
/// the path text.
pub uninterp spec fn spec_url_query_pairs(path: Seq<char>) -> Option<
    Seq<(Seq<char>, Seq<char>)>,
>;

/// What `String::from_utf8` returns: the decoded characters of a byte
/// sequence, or nothing when the bytes are not valid UTF-8. A pure function
/// of the bytes.
pub uninterp spec fn utf8_decoded(bytes: Seq<u8>) -> Option<Seq<char>>;

/// View of a list of string pairs as sequences.
pub open spec fn pairs_view(s: Seq<(String, String)>) -> Seq<(Seq<char>, Seq<char>)> {
    s.map_values(|p: (String, String)| (p.0@, p.1@))
}

/// Relies on url::Url::parse and Url::query_pairs: parsing a fixed scheme
/// and host with the given path is deterministic in the path text, and
/// query_pairs yields the query's key/value pairs, percent-decoded, in
/// order of appearance.
#[verifier::external_body]
fn url_query_pairs(path: &str) -> (r: Option<Vec<(String, String)>>)
    ensures
        r is Some <==> spec_url_query_pairs(path@) is Some,
        r is Some ==> pairs_view(r.unwrap()@) == spec_url_query_pairs(path@).unwrap(),
{
    match url::Url::parse(&format!("http://b.com{}", path)) {
        Ok(u) => Some(u.query_pairs().map(|(k, v)| (k.into_owned(), v.into_owned())).collect()),
        Err(_) => None,
    }
}

/// Relies on String::from_utf8: succeeds exactly on valid UTF-8, and the
/// decoded text is a pure function of the bytes.
#[verifier::external_body]
fn decode_utf8(bytes: Vec<u8>) -> (r: Option<String>)
    ensures
        r is Some <==> utf8_decoded(bytes@) is Some,
        r is Some ==> r.unwrap()@ == utf8_decoded(bytes@).unwrap(),
{
    String::from_utf8(bytes).ok()
}

/// Relies on time::get_time: the wall-clock instant since the epoch as
/// seconds and nanoseconds, where the crate's Timespec constructor asserts
/// that the nanoseconds lie in 0..1_000_000_000.
#[verifier::external_body]
fn now_timespec() -> (r: (i64, i32))
    ensures
        0 <= r.1 < 1_000_000_000,
{
    let t = time::get_time();
    (t.sec, t.nsec)
}

/// Epoch milliseconds of a second/nanosecond instant, clamped to the 64-bit
/// range.
pub open spec fn millis_of(sec: int, nsec: int) -> int {
    let m = sec * 1000 + nsec / 1000000;
    if m < i64::MIN {
        i64::MIN as int
    } else if m > i64::MAX {
        i64::MAX as int
    } else {
        m
    }
}

/// Computes epoch milliseconds from seconds and nanoseconds.
pub fn epoch_millis(sec: i64, nsec: i32) -> (r: i64)
    requires
        0 <= nsec < 1_000_000_000,
    ensures
        r as int == millis_of(sec as int, nsec as int),
{
    let wide: i128 = (sec as i128) * 1000 + (nsec as i128) / 1000000;
    if wide < i64::MIN as i128 {
        i64::MIN
    } else if wide > i64::MAX as i128 {
        i64::MAX
    } else {
        wide as i64
    }
}

/// The wall-clock time now, in epoch milliseconds.
pub fn now_millis() -> i64 {
    let (sec, nsec) = now_timespec();
    epoch_millis(sec, nsec)
}

/// Pairs folded into the multi-valued mapping, in arrival order.
pub open spec fn folded(pairs: Seq<(Seq<char>, Seq<char>)>) -> MultiMapView
    decreases pairs.len(),
{
    if pairs.len() == 0 {
        MultiMapView::empty()
    } else {
        mm_append(folded(pairs.drop_last()), pairs.last().0, pairs.last().1)
    }
}

/// The values carried under one name by a list of pairs, in arrival order.
pub open spec fn values_of(pairs: Seq<(Seq<char>, Seq<char>)>, name: Seq<char>) -> Seq<Seq<char>>
    decreases pairs.len(),
{
    if pairs.len() == 0 {
        Seq::empty()
    } else if pairs.last().0 == name {
        values_of(pairs.drop_last(), name).push(pairs.last().1)
    } else {
        values_of(pairs.drop_last(), name)
    }
}

/// Folding preserves multiplicity and order: the folded mapping holds a name
/// exactly when some pair carries it, and then its value list is exactly the
/// values carried under that name, in arrival order.
pub proof fn lemma_folded_values(pairs: Seq<(Seq<char>, Seq<char>)>, name: Seq<char>)
    ensures
        ({
            let m = folded(pairs);
            let i = mm_index_of(m, name);
            if values_of(pairs, name).len() == 0 {
                i == -1
            } else {
                i >= 0 && m[i].0 == name && m[i].1 == values_of(pairs, name)
            }
        }),
    decreases pairs.len(),
{
    if pairs.len() > 0 {
        let prev = pairs.drop_last();
        let pname = pairs.last().0;
        let pvalue = pairs.last().1;
        let m0 = folded(prev);
        let m = folded(pairs);
        lemma_folded_values(prev, name);
        lemma_folded_values(prev, pname);
        lemma_mm_index_of(m0, name);
        lemma_mm_index_of(m0, pname);
        lemma_mm_index_of(m, name);
        let i0 = mm_index_of(m0, pname);
        let iname0 = mm_index_of(m0, name);
        let r = mm_index_of(m, name);
        if i0 < 0 {
            assert(m == m0.push((pname, seq![pvalue])));
            assert(m.len() == m0.len() + 1);
            assert(forall|j: int| 0 <= j < m0.len() ==> #[trigger] m[j] == m0[j]);
            assert(m[m0.len() as int] == (pname, seq![pvalue]));
            if pname == name {
                assert(values_of(pairs, name) == values_of(prev, name).push(pvalue));
                assert(iname0 == -1);
                assert(values_of(prev, name).push(pvalue) =~= seq![pvalue]);
                assert(m[m0.len() as int].0 == name);
                assert(r != -1);
                assert(r == m0.len()) by {
                    if r < m0.len() {
                        assert(m[r] == m0[r]);
                    }
                }
                assert(m[r].1 == seq![pvalue]);
            } else {
                assert(values_of(pairs, name) == values_of(prev, name));
                if iname0 >= 0 {
                    assert(m[iname0].0 == name);
                    assert(r != -1);
                    assert(r == iname0) by {
                        if 0 <= r < iname0 {
                            assert(m[r] == m0[r]);
                        }
                        if iname0 < r {
                            assert((#[trigger] m[iname0]).0 != name);
                        }
                    }
                    assert(m[r].1 == m0[iname0].1);
                } else {
                    assert(r == -1) by {
                        if r >= 0 {
                            assert(m[r].0 == name);
                            assert(r < m0.len() ==> m0[r].0 != name);
                            assert(r == m0.len() ==> m[r].0 == pname);
                        }
                    }
                }
            }
        } else {
            assert(m == m0.update(i0, (m0[i0].0, m0[i0].1.push(pvalue))));
            assert(m.len() == m0.len());
            assert(forall|j: int| 0 <= j < m0.len() ==> (#[trigger] m[j]).0 == m0[j].0);
            assert(forall|j: int| 0 <= j < m0.len() && j != i0 ==> #[trigger] m[j] == m0[j]);
            assert(m0[i0].0 == pname);
            if pname == name {
                assert(values_of(pairs, name) == values_of(prev, name).push(pvalue));
                assert(iname0 == i0);
                assert(values_of(prev, name).len() > 0);
                assert(m0[i0].1 == values_of(prev, name));
                assert(m[i0].0 == name);
                assert(r != -1);
                assert(r == i0) by {
                    if 0 <= r < i0 {
                        assert(m0[r].0 != name);
                    }
                    if i0 < r {
                        assert((#[trigger] m[i0]).0 != name);
                    }
                }
                assert(m[r].1 == values_of(prev, name).push(pvalue));
            } else {
                assert(values_of(pairs, name) == values_of(prev, name));
                assert(i0 != iname0 || iname0 == -1);
                if iname0 >= 0 {
                    assert(m[iname0].0 == name);
                    assert(r != -1);
                    assert(r == iname0) by {
                        if 0 <= r < iname0 {
                            assert(m0[r].0 != name);
                        }
                        if iname0 < r {
                            assert((#[trigger] m[iname0]).0 != name);
                        }
                    }
                    assert(iname0 != i0);
                    assert(m[r].1 == m0[iname0].1);
                } else {
                    assert(r == -1) by {
                        if r >= 0 {
                            assert(m[r].0 == name);
                            assert(m0[r].0 != name);
                        }
                    }
                }
            }
        }
    }
}

/// The values carried by a concatenation: first the left list's, then the
/// right list's.
pub proof fn lemma_values_of_append(
    x: Seq<(Seq<char>, Seq<char>)>,
    y: Seq<(Seq<char>, Seq<char>)>,
    name: Seq<char>,
)
    ensures
        values_of(x + y, name) == values_of(x, name) + values_of(y, name),
    decreases y.len(),
{
    if y.len() == 0 {
        assert(x + y =~= x);
        assert(values_of(x, name) + values_of(y, name) =~= values_of(x, name));
    } else {
        assert((x + y).drop_last() =~= x + y.drop_last());
        assert((x + y).last() == y.last());
        lemma_values_of_append(x, y.drop_last(), name);
        if y.last().0 == name {
            assert(values_of(x, name) + values_of(y.drop_last(), name).push(y.last().1)
                =~= (values_of(x, name) + values_of(y.drop_last(), name)).push(y.last().1));
        }
    }
}

/// A list none of whose pairs carry the name carries no values under it.
pub proof fn lemma_values_of_absent(x: Seq<(Seq<char>, Seq<char>)>, name: Seq<char>)
    requires
        forall|i: int| 0 <= i < x.len() ==> (#[trigger] x[i]).0 != name,
    ensures
        values_of(x, name) == Seq::<Seq<char>>::empty(),
    decreases x.len(),
{
    if x.len() > 0 {
        assert(forall|i: int| 0 <= i < x.len() - 1 ==> #[trigger] x.drop_last()[i] == x[i]);
        lemma_values_of_absent(x.drop_last(), name);
        assert(x[x.len() - 1].0 != name);
    }
}

/// A single pair carrying the name carries exactly its value under it.
proof fn lemma_values_of_single(name: Seq<char>, v: Seq<char>)
    ensures
        values_of(seq![(name, v)], name) == seq![v],
{
    let s = seq![(name, v)];
    assert(s.len() == 1);
    assert(s.last() == (name, v));
    assert(s.drop_last() =~= Seq::<(Seq<char>, Seq<char>)>::empty());
    assert(values_of(s.drop_last(), name) == Seq::<Seq<char>>::empty());
    assert(values_of(s, name) == Seq::<Seq<char>>::empty().push(v));
    assert(Seq::<Seq<char>>::empty().push(v) =~= seq![v]);
}

/// Header multiplicity preserved: when exactly two pairs carry a name, with
/// values `v1` then `v2`, the folded mapping binds that name to exactly
/// `[v1, v2]`, in arrival order.
pub proof fn lemma_header_multiplicity(
    a: Seq<(Seq<char>, Seq<char>)>,
    b: Seq<(Seq<char>, Seq<char>)>,
    c: Seq<(Seq<char>, Seq<char>)>,
    name: Seq<char>,
    v1: Seq<char>,
    v2: Seq<char>,
)
    requires
        forall|i: int| 0 <= i < a.len() ==> (#[trigger] a[i]).0 != name,
        forall|i: int| 0 <= i < b.len() ==> (#[trigger] b[i]).0 != name,
        forall|i: int| 0 <= i < c.len() ==> (#[trigger] c[i]).0 != name,
    ensures
        ({
            let pairs = a + seq![(name, v1)] + b + seq![(name, v2)] + c;
            let m = folded(pairs);
            let i = mm_index_of(m, name);
            i >= 0 && m[i].1 == seq![v1, v2]
        }),
{
    let pairs = a + seq![(name, v1)] + b + seq![(name, v2)] + c;
    lemma_values_of_absent(a, name);
    lemma_values_of_absent(b, name);
    lemma_values_of_absent(c, name);
    lemma_values_of_append(a, seq![(name, v1)], name);
    lemma_values_of_append(a + seq![(name, v1)], b, name);
    lemma_values_of_append(a + seq![(name, v1)] + b, seq![(name, v2)], name);
    lemma_values_of_append(a + seq![(name, v1)] + b + seq![(name, v2)], c, name);
    lemma_values_of_single(name, v1);
    lemma_values_of_single(name, v2);
    assert(values_of(pairs, name) =~= seq![v1, v2]);
    lemma_folded_values(pairs, name);
}

/// Folds raw pairs into a multi-valued mapping, in arrival order.
pub fn fold_pairs(pairs: &Vec<(String, String)>) -> (r: MultiMap)
    ensures
        r@ == folded(pairs_view(pairs@)),
{
    let ghost pv = pairs_view(pairs@);
    let mut m = MultiMap::new();
    let n = pairs.len();
    let mut i: usize = 0;
    while i < n
        invariant
            i <= n == pairs@.len(),
            pv == pairs_view(pairs@),
            pv.len() == n,
            m@ == folded(pv.take(i as int)),
        decreases n - i,
    {
        let name = pairs[i].0.clone();
        let value = pairs[i].1.clone();
        m.append(name, value);
        proof {
            assert(pv.take(i + 1).drop_last() =~= pv.take(i as int));
            assert(pv.take(i + 1).last() == (pairs@[i as int].0@, pairs@[i as int].1@));
        }
        i += 1;
    }
    proof {
        assert(pv.take(n as int) =~= pv);
    }
    m
}

/// First content-length header value parsed as a number, when present and
/// numeric; header names are matched up to ASCII case.
pub open spec fn content_length_of(headers: MultiMapView) -> Option<u64> {
    match mm_first_ci(headers, "content-length"@) {
        Option::None => Option::None,
        Option::Some(v) => parse_u64_spec(v),
    }
}

/// First content-type header value, when present; header names are matched
/// up to ASCII case.
pub open spec fn content_type_of(headers: MultiMapView) -> Option<Seq<char>> {
    mm_first_ci(headers, "content-type"@)
}

/// Builds the canonical captured-request record from the transport-level
/// pieces. Fails, with a malformed-input error, exactly when the path does
/// not parse as the path-and-query of a URL or a non-empty body is not valid
/// UTF-8; an empty body is recorded as absent.
pub fn build_request(
    req_time: i64,
    method: &str,
    path: &str,
    raw_headers: &Vec<(String, String)>,
    body_bytes: Vec<u8>,
) -> (r: Result<Request, Error>)
    ensures
        ({
            let headers = folded(pairs_view(raw_headers@));
            match r {
                Result::Ok(q) => {
                    &&& spec_url_query_pairs(path@) is Some
                    &&& (body_bytes@.len() == 0 || utf8_decoded(body_bytes@) is Some)
                    &&& q.time == req_time
                    &&& q.method@ == method@
                    &&& q.path@ == path@
                    &&& q.headers@ == headers
                    &&& q.query_string@ == folded(spec_url_query_pairs(path@).unwrap())
                    &&& q.content_length == content_length_of(headers)
                    &&& (match q.content_type {
                        Option::Some(t) => content_type_of(headers) == Option::Some(t@),
                        Option::None => content_type_of(headers) is None,
                    })
                    &&& (body_bytes@.len() == 0 ==> q.body is None)
                    &&& (body_bytes@.len() > 0 ==> q.body is Some && q.body.unwrap()@
                        == utf8_decoded(body_bytes@).unwrap())
                },
                Result::Err(e) => {
                    &&& e == Error::MalformedInput
                    &&& (spec_url_query_pairs(path@) is None || (body_bytes@.len() > 0
                        && utf8_decoded(body_bytes@) is None))
                },
            }
        }),
{
    let query_pairs = match url_query_pairs(path) {
        Some(ps) => ps,
        None => {
            return Err(Error::MalformedInput);
        },
    };
    let body: Option<String> = if body_bytes.len() == 0 {
        None
    } else {
        match decode_utf8(body_bytes) {
            Some(s) => Some(s),
            None => {
                return Err(Error::MalformedInput);
            },
        }
    };
    let headers = fold_pairs(raw_headers);
    let query_string = fold_pairs(&query_pairs);
    let content_length: Option<u64> = match headers.get_first_ignore_ascii_case("content-length") {
        Some(v) => parse_u64(v.as_str()),
        None => None,
    };
    let content_type: Option<String> = match headers.get_first_ignore_ascii_case("content-type") {
        Some(v) => Some(v.clone()),
        None => None,
    };
    Ok(
        Request {
            content_length,
            content_type,
            time: req_time,
            method: String::from_str(method),
            path: String::from_str(path),
            body,
            headers,
            query_string,
        },
    )
}

} // verus!
