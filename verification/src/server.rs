//! Router/dispatcher and response writer: classifies each inbound request
//! into exactly one operation, in a fixed precedence order, invokes the
//! store, and renders the outcome as a status code and an optional JSON
//! body.
//!
//! When a response carries a body, the transport owes it a JSON content-type
//! header and a content-length of the body's byte length.

use vstd::prelude::*;
use vstd::string::StrSliceExecFns;

use crate::errors::Error;
use crate::errors::status_of_error;
use crate::json::json_of_bin;
use crate::json::json_of_summaries;
use crate::json::json_summary_parts;
use crate::json::bin_json;
use crate::json::summaries_json;
use crate::json::summary_json;
use crate::models::Id;
use crate::models::IdExtractor;
use crate::models::BinSummary;
use crate::models::is_uuid_v4;
use crate::normalize::build_request;
use crate::normalize::content_length_of;
use crate::normalize::content_type_of;
use crate::normalize::folded;
use crate::normalize::now_millis;
use crate::normalize::pairs_view;
use crate::normalize::spec_url_query_pairs;
use crate::normalize::utf8_decoded;
use crate::storage::Bins;
use crate::storage::BinsMap;
use crate::storage::DeleteBinStatus;
use crate::storage::InsertRequestStatus;
use crate::storage::create_post;
use crate::storage::delete_post;
use crate::storage::insert_post;
use crate::storage::summaries_complete;
use crate::text::lower;
use crate::text::str_eq;
use crate::text::str_eq_ignore_ascii_case;
use crate::models::Request;

verus! {

/// What the transport writes back: a status code and an optional JSON body.
pub struct HttpResponse {
    pub status: u16,
    pub body: Option<String>,
}

/// Classification of an inbound request, at the specification level: the
/// identifiers as character sequences.
pub enum RouteSpec {
    GetBinSummary(Seq<char>),
    DeleteBin(Seq<char>),
    GetBinRequests(Seq<char>),
    ListBins,
    CreateBin,
    Capture(Seq<char>),
    Reject,
}

/// Classification of an inbound request into exactly one operation.
pub enum Route {
    GetBinSummary(Id),
    DeleteBin(Id),
    GetBinRequests(Id),
    ListBins,
    CreateBin,
    Capture(Id),
    Reject,
}

impl View for Route {
    type V = RouteSpec;

    open spec fn view(&self) -> RouteSpec {
        match self {
            Route::GetBinSummary(id) => RouteSpec::GetBinSummary(id@),
            Route::DeleteBin(id) => RouteSpec::DeleteBin(id@),
            Route::GetBinRequests(id) => RouteSpec::GetBinRequests(id@),
            Route::ListBins => RouteSpec::ListBins,
            Route::CreateBin => RouteSpec::CreateBin,
            Route::Capture(id) => RouteSpec::Capture(id@),
            Route::Reject => RouteSpec::Reject,
        }
    }
}

/// The path addresses one bin: exactly `/rusqbins/` followed by a canonical
/// UUID-v4 text.
pub open spec fn is_bin_path(p: Seq<char>) -> bool {
    p.len() == 46 && p.subrange(0, 10) == "/rusqbins/"@ && is_uuid_v4(p.subrange(10, 46))
}

/// The identifier text of a bin path.
pub open spec fn bin_path_id(p: Seq<char>) -> Seq<char> {
    p.subrange(10, 46)
}

/// The path addresses a bin's requests: exactly `/rusqbins/` followed by a
/// canonical UUID-v4 text and `/requests`, with an optional trailing slash.
pub open spec fn is_bin_requests_path(p: Seq<char>) -> bool {
    &&& (p.len() == 55 || p.len() == 56)
    &&& p.subrange(0, 10) == "/rusqbins/"@
    &&& is_uuid_v4(p.subrange(10, 46))
    &&& p.subrange(46, 55) == "/requests"@
    &&& (p.len() == 56 ==> p[55] == '/')
}

/// The identifier text of a bin-requests path.
pub open spec fn bin_requests_path_id(p: Seq<char>) -> Seq<char> {
    p.subrange(10, 46)
}

/// The path lists or creates bins: `/rusqbins`, with an optional trailing
/// slash.
pub open spec fn is_bins_path(p: Seq<char>) -> bool {
    p == "/rusqbins"@ || p == "/rusqbins/"@
}

/// First value of the bin-identifying header among the raw header pairs,
/// matched up to ASCII case, in arrival order.
pub open spec fn header_id_value(pairs: Seq<(Seq<char>, Seq<char>)>) -> Option<Seq<char>>
    decreases pairs.len(),
{
    if pairs.len() == 0 {
        Option::None
    } else if lower(pairs.first().0) == lower("X-Rusqbin-Id"@) {
        Option::Some(pairs.first().1)
    } else {
        header_id_value(pairs.drop_first())
    }
}

/// The valid identifier carried by the bin-identifying header, when one is.
pub open spec fn capture_id(pairs: Seq<(Seq<char>, Seq<char>)>) -> Option<Seq<char>> {
    match header_id_value(pairs) {
        Option::Some(v) => if is_uuid_v4(v) {
            Option::Some(v)
        } else {
            Option::None
        },
        Option::None => Option::None,
    }
}

/// The classification contract: given method, path and raw headers, the
/// first matching rule in this precedence order decides the operation.
pub open spec fn spec_classify(
    method: Seq<char>,
    path: Seq<char>,
    headers: Seq<(Seq<char>, Seq<char>)>,
) -> RouteSpec {
    if method == "GET"@ && is_bin_path(path) {
        RouteSpec::GetBinSummary(bin_path_id(path))
    } else if method == "DELETE"@ && is_bin_path(path) {
        RouteSpec::DeleteBin(bin_path_id(path))
    } else if method == "GET"@ && is_bin_requests_path(path) {
        RouteSpec::GetBinRequests(bin_requests_path_id(path))
    } else if method == "GET"@ && is_bins_path(path) {
        RouteSpec::ListBins
    } else if method == "POST"@ && is_bins_path(path) {
        RouteSpec::CreateBin
    } else if capture_id(headers) is Some {
        RouteSpec::Capture(capture_id(headers).unwrap())
    } else {
        RouteSpec::Reject
    }
}

/// Routing precedence: a GET to a bin path is classified as get-bin-summary
/// whatever the headers carry; the capture header applies only when no
/// higher-precedence path rule matches.
pub proof fn lemma_routing_precedence(
    method: Seq<char>,
    path: Seq<char>,
    headers: Seq<(Seq<char>, Seq<char>)>,
)
    requires
        method == "GET"@,
        is_bin_path(path),
    ensures
        spec_classify(method, path, headers) == RouteSpec::GetBinSummary(bin_path_id(path)),
{
}

/// Decides whether the path's first ten characters are `/rusqbins/`.
fn has_rusqbins_prefix(path: &str) -> (r: bool)
    requires
        path@.len() >= 10,
    ensures
        r == (path@.subrange(0, 10) == "/rusqbins/"@),
{
    let pre = "/rusqbins/";
    proof {
        reveal_strlit("/rusqbins/");
    }
    let mut i: usize = 0;
    while i < 10
        invariant
            i <= 10,
            path@.len() >= 10,
            pre@ == "/rusqbins/"@,
            pre@.len() == 10,
            forall|j: int| 0 <= j < i ==> path@[j] == pre@[j],
        decreases 10 - i,
    {
        if path.get_char(i) != pre.get_char(i) {
            proof {
                assert(path@.subrange(0, 10)[i as int] == path@[i as int]);
            }
            return false;
        }
        i += 1;
    }
    proof {
        assert(path@.subrange(0, 10) =~= pre@);
    }
    true
}

/// Decides whether the path carries `/requests` at position forty-six.
fn has_requests_suffix(path: &str) -> (r: bool)
    requires
        path@.len() >= 55,
    ensures
        r == (path@.subrange(46, 55) == "/requests"@),
{
    let suf = "/requests";
    proof {
        reveal_strlit("/requests");
    }
    let mut i: usize = 0;
    while i < 9
        invariant
            i <= 9,
            path@.len() >= 55,
            suf@ == "/requests"@,
            suf@.len() == 9,
            forall|j: int| 0 <= j < i ==> path@[46 + j] == suf@[j],
        decreases 9 - i,
    {
        if path.get_char(46 + i) != suf.get_char(i) {
            proof {
                assert(path@.subrange(46, 55)[i as int] == path@[46 + i]);
            }
            return false;
        }
        i += 1;
    }
    proof {
        assert(path@.subrange(46, 55) =~= suf@);
    }
    true
}

/// Extracts the identifier of a bin path, exactly when the path is one.
pub fn parse_bin_path(path: &str, extractor: &IdExtractor) -> (r: Option<Id>)
    ensures
        r is Some <==> is_bin_path(path@),
        r is Some ==> r.unwrap()@ == bin_path_id(path@),
{
    let n = path.unicode_len();
    if n != 46 {
        return None;
    }
    if !has_rusqbins_prefix(path) {
        return None;
    }
    let tail = path.substring_char(10, 46);
    extractor.parse(tail)
}

/// Extracts the identifier of a bin-requests path, exactly when the path is
/// one.
pub fn parse_bin_requests_path(path: &str, extractor: &IdExtractor) -> (r: Option<Id>)
    ensures
        r is Some <==> is_bin_requests_path(path@),
        r is Some ==> r.unwrap()@ == bin_requests_path_id(path@),
{
    let n = path.unicode_len();
    if n != 55 && n != 56 {
        return None;
    }
    if !has_rusqbins_prefix(path) {
        return None;
    }
    if n == 56 && path.get_char(55) != '/' {
        return None;
    }
    if !has_requests_suffix(path) {
        return None;
    }
    let tail = path.substring_char(10, 46);
    extractor.parse(tail)
}

/// Decides whether the path lists or creates bins.
pub fn is_bins_path_exec(path: &str) -> (r: bool)
    ensures
        r == is_bins_path(path@),
{
    str_eq(path, "/rusqbins") || str_eq(path, "/rusqbins/")
}

/// Finds the first value of the bin-identifying header among the raw header
/// pairs.
pub fn extract_header_value<'a>(pairs: &'a Vec<(String, String)>) -> (r: Option<&'a String>)
    ensures
        match r {
            Some(v) => header_id_value(pairs_view(pairs@)) == Option::Some(v@),
            None => header_id_value(pairs_view(pairs@)) is None,
        },
{
    let ghost pv = pairs_view(pairs@);
    proof {
        assert(pv.skip(0) =~= pv);
    }
    let n = pairs.len();
    let mut i: usize = 0;
    while i < n
        invariant
            i <= n == pairs@.len(),
            pv == pairs_view(pairs@),
            pv.len() == n,
            header_id_value(pv) == header_id_value(pv.skip(i as int)),
        decreases n - i,
    {
        proof {
            assert(pv.skip(i as int).first() == (pairs@[i as int].0@, pairs@[i as int].1@));
            assert(pv.skip(i as int).drop_first() =~= pv.skip(i + 1));
        }
        if str_eq_ignore_ascii_case(pairs[i].0.as_str(), "X-Rusqbin-Id") {
            return Some(&pairs[i].1);
        }
        i += 1;
    }
    proof {
        assert(pv.skip(n as int) =~= Seq::<(Seq<char>, Seq<char>)>::empty());
    }
    None
}

/// Classifies an inbound request into exactly one operation, in the
/// precedence order of the routing contract.
pub fn classify(method: &str, path: &str, raw_headers: &Vec<(String, String)>) -> (r: Route)
    ensures
        r@ == spec_classify(method@, path@, pairs_view(raw_headers@)),
{
    let extractor = IdExtractor::new();
    let is_get = str_eq(method, "GET");
    let is_delete = str_eq(method, "DELETE");
    let is_post = str_eq(method, "POST");
    if is_get || is_delete {
        match parse_bin_path(path, &extractor) {
            Some(id) => {
                if is_get {
                    return Route::GetBinSummary(id);
                }
                return Route::DeleteBin(id);
            },
            None => {},
        }
    }
    if is_get {
        match parse_bin_requests_path(path, &extractor) {
            Some(id) => {
                return Route::GetBinRequests(id);
            },
            None => {},
        }
    }
    if is_get || is_post {
        if is_bins_path_exec(path) {
            if is_get {
                return Route::ListBins;
            }
            return Route::CreateBin;
        }
    }
    match extract_header_value(raw_headers) {
        Some(v) => {
            match extractor.parse(v.as_str()) {
                Some(id) => {
                    return Route::Capture(id);
                },
                None => {},
            }
        },
        None => {},
    }
    Route::Reject
}

/// Creates a bin and renders its summary.
pub fn create_bin_response<T: Bins>(store: &mut T) -> (r: HttpResponse)
    requires
        old(store).wf(),
    ensures
        final(store).wf(),
        r.status == 200,
        r.body is Some,
        exists|id: Seq<char>|
            #![auto]
            is_uuid_v4(id) && create_post(old(store).bins_map(), final(store).bins_map(), id)
                && r.body.unwrap()@ == json_summary_parts(id, 0),
{
    let summary = store.create_bin();
    let body = summary_json(&summary);
    HttpResponse { status: 200, body: Some(body) }
}

/// Deletes the addressed bin: success empties it out of the store; an
/// unknown identifier reports absence and changes nothing.
pub fn delete_bin_response<T: Bins>(store: &mut T, id: &Id) -> (r: HttpResponse)
    requires
        old(store).wf(),
    ensures
        final(store).wf(),
        r.body is None,
        old(store).bins_map().contains_key(id@) ==> r.status == 200 && delete_post(
            old(store).bins_map(),
            final(store).bins_map(),
            id@,
        ),
        !old(store).bins_map().contains_key(id@) ==> r.status == 404 && final(store).bins_map()
            == old(store).bins_map(),
{
    match store.delete_bin(id) {
        DeleteBinStatus::Deleted => HttpResponse { status: 200, body: None },
        DeleteBinStatus::NoSuchBin => HttpResponse { status: 404, body: None },
    }
}

/// Renders the addressed bin's summary, or absence.
pub fn find_bin_summary_response<T: Bins>(store: &T, id: &Id) -> (r: HttpResponse)
    requires
        store.wf(),
    ensures
        store.bins_map().contains_key(id@) ==> r.status == 200 && r.body is Some
            && r.body.unwrap()@ == json_summary_parts(id@, store.bins_map()[id@].len()),
        !store.bins_map().contains_key(id@) ==> r.status == 404 && r.body is None,
{
    match store.get_bin_summary(id) {
        Some(summary) => {
            let body = summary_json(&summary);
            HttpResponse { status: 200, body: Some(body) }
        },
        None => HttpResponse { status: 404, body: None },
    }
}

/// Renders the addressed bin's full request list, or absence.
pub fn find_bin_requests_response<T: Bins>(store: &T, id: &Id) -> (r: HttpResponse)
    requires
        store.wf(),
    ensures
        store.bins_map().contains_key(id@) ==> r.status == 200 && r.body is Some
            && r.body.unwrap()@ == json_of_bin(store.bins_map()[id@]),
        !store.bins_map().contains_key(id@) ==> r.status == 404 && r.body is None,
{
    match store.get_bin(id) {
        Some(bin) => {
            let body = bin_json(bin);
            HttpResponse { status: 200, body: Some(body) }
        },
        None => HttpResponse { status: 404, body: None },
    }
}

/// Renders the summary listing of every live bin.
pub fn list_bins_response<T: Bins>(store: &T) -> (r: HttpResponse)
    requires
        store.wf(),
    ensures
        r.status == 200,
        r.body is Some,
        exists|bs: Seq<BinSummary>|
            #![auto]
            r.body.unwrap()@ == json_of_summaries(bs) && summaries_complete(store.bins_map(), bs),
{
    let summaries = store.get_bin_summaries();
    let body = summaries_json(&summaries);
    HttpResponse { status: 200, body: Some(body) }
}

/// The captured request a normalization of these transport-level pieces must
/// produce, apart from its timestamp.
pub open spec fn normalized_request(
    q: Request,
    method: Seq<char>,
    path: Seq<char>,
    raw: Seq<(Seq<char>, Seq<char>)>,
    body: Seq<u8>,
) -> bool {
    let headers = folded(raw);
    &&& q.method@ == method
    &&& q.path@ == path
    &&& q.headers@ == headers
    &&& q.query_string@ == folded(spec_url_query_pairs(path).unwrap())
    &&& q.content_length == content_length_of(headers)
    &&& (match q.content_type {
        Option::Some(t) => content_type_of(headers) == Option::Some(t@),
        Option::None => content_type_of(headers) is None,
    })
    &&& (body.len() == 0 ==> q.body is None)
    &&& (body.len() > 0 ==> q.body is Some && q.body.unwrap()@ == utf8_decoded(body).unwrap())
}

/// The inbound pieces are malformed: the path does not parse as the
/// path-and-query of a URL, or a non-empty body is not valid UTF-8.
pub open spec fn capture_malformed(path: Seq<char>, body: Seq<u8>) -> bool {
    spec_url_query_pairs(path) is None || (body.len() > 0 && utf8_decoded(body) is None)
}

/// Captures a request against the addressed bin: normalizes it fully, then
/// appends it. Malformed input is rejected for this request alone; an
/// unknown identifier reports absence; success appends exactly one record.
pub fn capture_request_response<T: Bins>(
    store: &mut T,
    id: &Id,
    method: &str,
    path: &str,
    raw_headers: &Vec<(String, String)>,
    body_bytes: Vec<u8>,
) -> (r: HttpResponse)
    requires
        old(store).wf(),
    ensures
        final(store).wf(),
        r.body is None,
        capture_malformed(path@, body_bytes@) ==> r.status == 400 && final(store).bins_map()
            == old(store).bins_map(),
        !capture_malformed(path@, body_bytes@) && !old(store).bins_map().contains_key(id@)
            ==> r.status == 404 && final(store).bins_map() == old(store).bins_map(),
        !capture_malformed(path@, body_bytes@) && old(store).bins_map().contains_key(id@)
            ==> r.status == 200 && exists|q: Request|
            #![auto]
            normalized_request(q, method@, path@, pairs_view(raw_headers@), body_bytes@)
                && insert_post(old(store).bins_map(), final(store).bins_map(), id@, q),
{
    let req_time = now_millis();
    match build_request(req_time, method, path, raw_headers, body_bytes) {
        Ok(q) => {
            let ghost qq = q;
            match store.insert_request(id, q) {
                InsertRequestStatus::Inserted => {
                    proof {
                        assert(normalized_request(
                            qq,
                            method@,
                            path@,
                            pairs_view(raw_headers@),
                            body_bytes@,
                        ) && insert_post(
                            old(store).bins_map(),
                            store.bins_map(),
                            id@,
                            qq,
                        ));
                    }
                    HttpResponse { status: 200, body: None }
                },
                InsertRequestStatus::NoSuchBin => HttpResponse { status: 404, body: None },
            }
        },
        Err(_) => HttpResponse { status: 400, body: None },
    }
}

/// Handles one inbound request end to end: classification, the store
/// operation, and the rendered response, under the routing contract.
pub fn handle_request<T: Bins>(
    store: &mut T,
    method: &str,
    path: &str,
    raw_headers: &Vec<(String, String)>,
    body_bytes: Vec<u8>,
) -> (r: HttpResponse)
    requires
        old(store).wf(),
    ensures
        final(store).wf(),
        ({
            let m0 = old(store).bins_map();
            let m1 = final(store).bins_map();
            match spec_classify(method@, path@, pairs_view(raw_headers@)) {
                RouteSpec::GetBinSummary(id) => m1 == m0 && (if m0.contains_key(id) {
                    r.status == 200 && r.body is Some && r.body.unwrap()@ == json_summary_parts(
                        id,
                        m0[id].len(),
                    )
                } else {
                    r.status == 404 && r.body is None
                }),
                RouteSpec::DeleteBin(id) => r.body is None && (if m0.contains_key(id) {
                    r.status == 200 && delete_post(m0, m1, id)
                } else {
                    r.status == 404 && m1 == m0
                }),
                RouteSpec::GetBinRequests(id) => m1 == m0 && (if m0.contains_key(id) {
                    r.status == 200 && r.body is Some && r.body.unwrap()@ == json_of_bin(m0[id])
                } else {
                    r.status == 404 && r.body is None
                }),
                RouteSpec::ListBins => m1 == m0 && r.status == 200 && r.body is Some && (exists|
                    bs: Seq<BinSummary>,
                |
                    #![auto]
                    r.body.unwrap()@ == json_of_summaries(bs) && summaries_complete(m0, bs)),
                RouteSpec::CreateBin => r.status == 200 && r.body is Some && (exists|id: Seq<char>|
                    #![auto]
                    is_uuid_v4(id) && create_post(m0, m1, id) && r.body.unwrap()@
                        == json_summary_parts(id, 0)),
                RouteSpec::Capture(id) => r.body is None && (if capture_malformed(
                    path@,
                    body_bytes@,
                ) {
                    r.status == 400 && m1 == m0
                } else if m0.contains_key(id) {
                    r.status == 200 && (exists|q: Request|
                        #![auto]
                        normalized_request(q, method@, path@, pairs_view(raw_headers@), body_bytes@)
                            && insert_post(m0, m1, id, q))
                } else {
                    r.status == 404 && m1 == m0
                }),
                RouteSpec::Reject => m1 == m0 && r.status == 400 && r.body is None,
            }
        }),
{
    let route = classify(method, path, raw_headers);
    match route {
        Route::GetBinSummary(id) => find_bin_summary_response(store, &id),
        Route::DeleteBin(id) => delete_bin_response(store, &id),
        Route::GetBinRequests(id) => find_bin_requests_response(store, &id),
        Route::ListBins => list_bins_response(store),
        Route::CreateBin => create_bin_response(store),
        Route::Capture(id) => capture_request_response(
            store,
            &id,
            method,
            path,
            raw_headers,
            body_bytes,
        ),
        Route::Reject => HttpResponse { status: 400, body: None },
    }
}

/// Renders an error outcome as a transport response: its status code and an
/// empty body.
pub fn error_response(e: &Error) -> (r: HttpResponse)
    ensures
        r.status == status_of_error(*e),
        r.body is None,
{
    HttpResponse { status: e.status(), body: None }
}

} // verus!
