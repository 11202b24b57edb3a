//! Answering a request: from the cache where it can be, from the
//! directory where it must be.
//!
//! A request names an endpoint by the first segment of its path and asks
//! for a name. [`look_up`] answers it from the cache or says which query
//! to run; [`finish`] takes what the query came to, writes the cache and
//! gives the response.

use vstd::prelude::*;
use vstd::string::*;
use crate::cache::Cache;
use crate::config::{endpoint_views, endpoint_with_path, find_endpoint, EndpointConfig};
use crate::key::{encode_key, encoded_key, KEY_SEPARATOR};
use crate::pipeline::QueryFailure;
use crate::text::{
    chars_of, contains_char, copy_texts, first_index_of, lemma_first_index_of, texts,
};

verus! {

/// The status of an answer that was found.
pub const STATUS_OK: u16 = 200;

/// The status for a request whose path or name cannot be part of a key.
pub const STATUS_BAD_REQUEST: u16 = 400;

/// The status for a path that no endpoint is served under.
pub const STATUS_NOT_FOUND: u16 = 404;

/// The status for a query that the directory did not answer.
pub const STATUS_BAD_GATEWAY: u16 = 502;

/// The status for a directory that could not be reached.
pub const STATUS_SERVICE_UNAVAILABLE: u16 = 503;

/// Why a request got no values.
#[derive(Clone, Copy, Debug, PartialEq, Eq, Structural)]
pub enum RequestFailure {
    /// The path or the name holds the separator of cache keys.
    SeparatorInKey,
    /// No endpoint is served under the path.
    UnknownEndpoint,
    /// The connection to the directory could not be made, or the bind
    /// was refused.
    Connection,
    /// A search of the query failed.
    Query(QueryFailure),
}

/// What is sent back: a status and a list of values, which is written
/// as a JSON array of strings.
#[derive(Debug)]
pub struct Response {
    pub status: u16,
    pub body: Vec<String>,
}

/// What the cache says to a request.
#[derive(Debug)]
pub enum Lookup {
    /// The answer is cached.
    Hit { values: Vec<String> },
    /// Nothing is cached under `key`: the query for the name is to be
    /// run at the endpoint at position `endpoint`.
    Miss { key: String, endpoint: usize },
    /// Nothing is cached, and no endpoint is served under the path.
    UnknownEndpoint,
    /// The path or the name holds the separator of cache keys: no key
    /// can be written for the request that could be read back, and
    /// nothing is looked up for it.
    SeparatorInKey,
}

/// What a `Lookup` holds.
pub enum LookupView {
    Hit { values: Seq<Seq<char>> },
    Miss { key: Seq<char>, endpoint: int },
    UnknownEndpoint,
    SeparatorInKey,
}

impl View for Lookup {
    type V = LookupView;

    open spec fn view(&self) -> LookupView {
        match self {
            Lookup::Hit { values } => LookupView::Hit { values: texts(values@) },
            Lookup::Miss { key, endpoint } => LookupView::Miss {
                key: key@,
                endpoint: *endpoint as int,
            },
            Lookup::UnknownEndpoint => LookupView::UnknownEndpoint,
            Lookup::SeparatorInKey => LookupView::SeparatorInKey,
        }
    }
}

/// Number of characters at the start of `s` that are `c`.
pub open spec fn leading(s: Seq<char>, c: char) -> int
    decreases s.len(),
{
    if s.len() == 0 || s[0] != c {
        0
    } else {
        1 + leading(s.drop_first(), c)
    }
}

/// `leading` lies within the sequence or at its end, everything before it
/// is `c`, and what stands at it is not.
pub proof fn lemma_leading(s: Seq<char>, c: char)
    ensures
        0 <= leading(s, c) <= s.len(),
        forall|j: int| 0 <= j < leading(s, c) ==> s[j] == c,
        leading(s, c) < s.len() ==> s[leading(s, c)] != c,
    decreases s.len(),
{
    if s.len() > 0 && s[0] == c {
        let rest = s.drop_first();
        lemma_leading(rest, c);
        assert forall|j: int| 0 <= j < 1 + leading(rest, c) implies s[j] == c by {
            if j > 0 {
                assert(s[j] == rest[j - 1]);
            }
        }
        if leading(rest, c) < rest.len() {
            assert(s[1 + leading(rest, c)] == rest[leading(rest, c)]);
        }
    }
}

/// The first segment of a path that is not empty: what stands between
/// the slashes at its start and the next slash. A path of slashes alone
/// has none, and gives the empty segment.
pub open spec fn first_segment(path: Seq<char>) -> Seq<char> {
    let rest = path.skip(leading(path, '/'));
    rest.take(first_index_of(rest, '/'))
}

/// The path of the endpoint that a request's path names: a slash and the
/// first segment.
pub open spec fn endpoint_path(uri_path: Seq<char>) -> Seq<char> {
    seq!['/'] + first_segment(uri_path)
}

/// The route under which an endpoint is served: its path, and one more
/// segment for the name.
pub open spec fn route_of(path: Seq<char>) -> Seq<char> {
    path + "/:name"@
}

/// What the cache says to the request for `name` at `uri_path`: the
/// cached answer where there is one, else the query to run, where an
/// endpoint is served under the path. A request whose endpoint path or
/// name holds the separator of cache keys is answered with neither.
pub open spec fn looked_up(
    cache: Map<Seq<char>, Seq<Seq<char>>>,
    es: Seq<crate::config::EndpointView>,
    uri_path: Seq<char>,
    name: Seq<char>,
) -> LookupView {
    let path = endpoint_path(uri_path);
    let key = encoded_key(path, name);
    if path.contains(KEY_SEPARATOR) || name.contains(KEY_SEPARATOR) {
        LookupView::SeparatorInKey
    } else if cache.contains_key(key) {
        LookupView::Hit { values: cache[key] }
    } else {
        match endpoint_with_path(es, path, 0) {
            Some(i) => LookupView::Miss { key, endpoint: i },
            None => LookupView::UnknownEndpoint,
        }
    }
}

/// Once the values that the query gave are written under the key of a
/// miss, the same request is a hit and gets these values.
pub proof fn lemma_miss_then_hit(
    cache: Map<Seq<char>, Seq<Seq<char>>>,
    es: Seq<crate::config::EndpointView>,
    uri_path: Seq<char>,
    name: Seq<char>,
    values: Seq<Seq<char>>,
)
    requires
        looked_up(cache, es, uri_path, name) is Miss,
    ensures
        looked_up(
            cache.insert(looked_up(cache, es, uri_path, name)->key, values),
            es,
            uri_path,
            name,
        ) == (LookupView::Hit { values }),
{
}

/// The status that a failure is answered with.
pub open spec fn status_of(failure: RequestFailure) -> u16 {
    match failure {
        RequestFailure::SeparatorInKey => STATUS_BAD_REQUEST,
        RequestFailure::UnknownEndpoint => STATUS_NOT_FOUND,
        RequestFailure::Connection => STATUS_SERVICE_UNAVAILABLE,
        RequestFailure::Query(_) => STATUS_BAD_GATEWAY,
    }
}

/// The route under which the endpoint at `path` is served.
pub fn route_pattern(path: &str) -> (route: String)
    ensures
        route@ == route_of(path@),
{
    let mut route = String::from_str(path);
    route.append("/:name");
    route
}

/// The path of the endpoint that the request path `uri_path` names.
pub fn endpoint_path_of(uri_path: &str) -> (path: String)
    ensures
        path@ == endpoint_path(uri_path@),
{
    let chars = chars_of(uri_path);
    let n = chars.len();
    let mut start: usize = 0;
    while start < n && chars[start] == '/'
        invariant
            chars@ == uri_path@,
            n == chars.len(),
            start <= n,
            forall|j: int| 0 <= j < start ==> chars[j] == '/',
        decreases n - start,
    {
        start += 1;
    }
    let mut end: usize = start;
    while end < n && chars[end] != '/'
        invariant
            chars@ == uri_path@,
            n == chars.len(),
            start <= end <= n,
            forall|j: int| start <= j < end ==> chars[j] != '/',
        decreases n - end,
    {
        end += 1;
    }
    proof {
        lemma_leading(chars@, '/');
        let rest = chars@.skip(start as int);
        lemma_first_index_of(rest, '/');
        let at = first_index_of(rest, '/');
        assert(at == end - start) by {
            if at < end - start {
                assert(rest[at] == chars[start + at]);
            } else if at > end - start {
                assert(rest[end - start] == chars[end as int]);
            }
        }
        assert(uri_path@.subrange(start as int, end as int) =~= rest.take(at));
        reveal_strlit("/");
        assert("/"@ =~= seq!['/']);
    }
    let mut path = String::from_str("/");
    path.append(uri_path.substring_char(start, end));
    path
}

/// Answers the request for `name` at `uri_path` from the cache, or says
/// what is to be done for it.
pub fn look_up(cache: &Cache, endpoints: &Vec<EndpointConfig>, uri_path: &str, name: &str) -> (found:
    Lookup)
    ensures
        found@ == looked_up(cache@, endpoint_views(endpoints@), uri_path@, name@),
        found matches Lookup::Miss { endpoint, .. } ==> endpoint < endpoints.len(),
{
    let path = endpoint_path_of(uri_path);
    if contains_char(path.as_str(), KEY_SEPARATOR) || contains_char(name, KEY_SEPARATOR) {
        return Lookup::SeparatorInKey;
    }
    let key = encode_key(path.as_str(), name);
    match cache.get(key.as_str()) {
        Some(values) => Lookup::Hit { values },
        None => match find_endpoint(endpoints, path.as_str()) {
            Some(endpoint) => Lookup::Miss { key, endpoint },
            None => Lookup::UnknownEndpoint,
        },
    }
}

/// Ends a request that missed the cache. Values that the query gave are
/// written to the cache under `key`, in place of what was there, and
/// sent back with `STATUS_OK`; no values are an answer too. After a
/// failure the cache is as it was, and the response has the status of
/// the failure and no values.
pub fn finish(cache: &mut Cache, key: String, outcome: Result<Vec<String>, RequestFailure>) -> (response:
    Response)
    ensures
        match outcome {
            Ok(values) => {
                &&& final(cache)@ == old(cache)@.insert(key@, texts(values@))
                &&& response.status == STATUS_OK
                &&& texts(response.body@) == texts(values@)
            },
            Err(failure) => {
                &&& final(cache)@ == old(cache)@
                &&& response.status == status_of(failure)
                &&& response.body@.len() == 0
            },
        },
{
    match outcome {
        Ok(values) => {
            let body = copy_texts(&values);
            cache.put(key, values);
            Response { status: STATUS_OK, body }
        },
        Err(failure) => {
            let status = match failure {
                RequestFailure::SeparatorInKey => STATUS_BAD_REQUEST,
                RequestFailure::UnknownEndpoint => STATUS_NOT_FOUND,
                RequestFailure::Connection => STATUS_SERVICE_UNAVAILABLE,
                RequestFailure::Query(_) => STATUS_BAD_GATEWAY,
            };
            Response { status, body: Vec::new() }
        },
    }
}

/// The response to a request that the cache answered.
pub fn respond(values: Vec<String>) -> (response: Response)
    ensures
        response.status == STATUS_OK,
        response.body == values,
{
    Response { status: STATUS_OK, body: values }
}

} // verus!
