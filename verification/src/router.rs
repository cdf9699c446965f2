//! Routing: what the gateway does with a request, by its method, path,
//! query string and headers.

use vstd::prelude::*;
use crate::credentials::{token_of, Credentials, CredentialsError};
use crate::message::{
    find_header, header_value, text_reply, Header, Method, Reply, ReplyView,
};
use crate::query::{
    parameters_of_decoded, urlencoded_pairs, QueryError, SearchParameters, SearchParametersView,
};
use crate::text::{chars_of, concat, option_view, result_view, string_of};

verus! {

/// The head of an incoming request. `query` is the text after the `?` of
/// the request's target, empty where there is none.
#[derive(Clone, Debug, PartialEq, Eq)]
pub struct Request {
    pub method: Method,
    pub path: String,
    pub query: String,
    pub headers: Vec<Header>,
}

/// What the router is told about a request.
#[derive(Clone, Copy, Debug, PartialEq, Eq, Structural)]
pub enum RouteEvent {
    /// The request has arrived.
    Arrived,
    /// Credentials were had for the token of the request.
    Authorized,
    /// No credentials could be had for the token of the request.
    Refused,
}

/// What is to be done next for a request.
#[derive(Clone, Debug, PartialEq, Eq)]
pub enum RouteAction {
    /// Answer the client.
    Reply(Reply),
    /// Get credentials for this token, then come back with `Authorized` or
    /// `Refused`.
    Authenticate { token: String },
    /// List the objects of a bucket.
    List {
        bucket: String,
        prefix: String,
        continuation_token: Option<String>,
        start_after: Option<String>,
        max_keys: Option<i32>,
    },
    /// Get an object, or the range of it that the bytes of the request's
    /// `range` header name.
    Get { bucket: String, key: String, range: Option<Vec<u8>> },
    /// Get the metadata of an object.
    Head { bucket: String, key: String },
}

/// `RouteAction` with its texts as sequences of characters.
pub enum RouteActionView {
    Reply(ReplyView),
    Authenticate { token: Seq<char> },
    List {
        bucket: Seq<char>,
        prefix: Seq<char>,
        continuation_token: Option<Seq<char>>,
        start_after: Option<Seq<char>>,
        max_keys: Option<i32>,
    },
    Get { bucket: Seq<char>, key: Seq<char>, range: Option<Seq<u8>> },
    Head { bucket: Seq<char>, key: Seq<char> },
}

impl View for RouteAction {
    type V = RouteActionView;

    open spec fn view(&self) -> RouteActionView {
        match self {
            RouteAction::Reply(r) => RouteActionView::Reply(r@),
            RouteAction::Authenticate { token } => RouteActionView::Authenticate { token: token@ },
            RouteAction::List { bucket, prefix, continuation_token, start_after, max_keys } =>
                RouteActionView::List {
                    bucket: bucket@,
                    prefix: prefix@,
                    continuation_token: option_view(*continuation_token),
                    start_after: option_view(*start_after),
                    max_keys: *max_keys,
                },
            RouteAction::Get { bucket, key, range } => RouteActionView::Get {
                bucket: bucket@,
                key: key@,
                range: option_view(*range),
            },
            RouteAction::Head { bucket, key } => RouteActionView::Head {
                bucket: bucket@,
                key: key@,
            },
        }
    }
}

/// The first place at or after `from` where `path` holds a `/`, or the
/// length of `path` if there is none.
pub open spec fn next_slash(path: Seq<char>, from: int) -> int
    decreases path.len() - from,
{
    if from >= path.len() {
        path.len() as int
    } else if path[from] == '/' {
        from
    } else {
        next_slash(path, from + 1)
    }
}

/// The bucket that a path names: what stands between its leading `/` and
/// the next one.
pub open spec fn bucket_of(path: Seq<char>) -> Seq<char> {
    path.subrange(1, next_slash(path, 1))
}

/// The key that a path names: what follows the `/` after the bucket.
pub open spec fn key_of(path: Seq<char>) -> Seq<char> {
    if next_slash(path, 1) < path.len() {
        path.skip(next_slash(path, 1) + 1)
    } else {
        Seq::empty()
    }
}

/// Whether a path has the shape `/{bucket}/{key}` or `/{bucket}`.
pub open spec fn is_object_path(path: Seq<char>) -> bool {
    path.len() > 0 && path[0] == '/'
}

/// Where `next_slash` points there is a `/`, or the path ends, and before
/// it there is none.
proof fn lemma_next_slash(path: Seq<char>, from: int)
    requires
        0 <= from <= path.len(),
    ensures
        from <= next_slash(path, from) <= path.len(),
        forall|i: int| from <= i < next_slash(path, from) ==> path[i] != '/',
        next_slash(path, from) < path.len() ==> path[next_slash(path, from)] == '/',
    decreases path.len() - from,
{
    if from < path.len() && path[from] != '/' {
        lemma_next_slash(path, from + 1);
    }
}

/// A path of the shape `/{bucket}/{key}` is put together again from its
/// bucket and key, and the bucket holds no `/`.
pub proof fn lemma_path_parts(path: Seq<char>)
    requires
        is_object_path(path),
    ensures
        !bucket_of(path).contains('/'),
        next_slash(path, 1) < path.len() ==> path == seq!['/'] + bucket_of(path) + seq!['/']
            + key_of(path),
        next_slash(path, 1) >= path.len() ==> path == seq!['/'] + bucket_of(path) && key_of(
            path,
        ).len() == 0,
{
    lemma_next_slash(path, 1);
    let end = next_slash(path, 1);
    let bucket = bucket_of(path);
    assert forall|i: int| 0 <= i < bucket.len() implies bucket[i] != '/' by {
        assert(bucket[i] == path[i + 1]);
    }
    if end < path.len() {
        assert(path =~= seq!['/'] + bucket + seq!['/'] + key_of(path));
    } else {
        assert(path =~= seq!['/'] + bucket);
    }
}

/// Splits a path into bucket and key.
pub fn split_path(path: &str) -> (r: Option<(String, String)>)
    ensures
        r.is_some() == is_object_path(path@),
        r matches Some((bucket, key)) ==> bucket@ == bucket_of(path@) && key@ == key_of(path@),
{
    let v = chars_of(path);
    if v.len() == 0 || v[0] != '/' {
        return None;
    }
    let mut end: usize = 1;
    while end < v.len() && v[end] != '/'
        invariant
            1 <= end <= v.len(),
            v@ == path@,
            next_slash(path@, 1) == next_slash(path@, end as int),
        decreases v.len() - end,
    {
        end += 1;
    }
    let bucket = string_of(&v, 1, end);
    let key = if end < v.len() {
        string_of(&v, end + 1, v.len())
    } else {
        String::new()
    };
    Some((bucket, key))
}

/// The answer to a request that names nothing the gateway serves.
pub open spec fn not_found_reply() -> ReplyView {
    text_reply(404, "Not found.\n"@)
}

/// The answer to a request for whose token no credentials could be had.
pub open spec fn unauthorized_reply() -> ReplyView {
    text_reply(401, "Unauthorized\n"@)
}

/// The answer to a request whose query string was refused.
pub open spec fn bad_query_reply(e: QueryError) -> ReplyView {
    text_reply(400, "Failed to parse query string: "@ + e.message_text())
}

/// The answer to a request without a usable token.
pub open spec fn bad_token_reply(e: CredentialsError) -> ReplyView {
    text_reply(400, e.message_text())
}

/// What the gateway does with an authorized request: `GET` with
/// `list-type=2` lists, any other `GET` gets an object, `HEAD` gets its
/// metadata, and every other method finds nothing.
pub open spec fn operation_of(
    method: Method,
    path: Seq<char>,
    parameters: SearchParametersView,
    headers: Seq<Header>,
) -> RouteActionView {
    match method {
        Method::Get => if parameters.list_type == Some(2u8) {
            RouteActionView::List {
                bucket: bucket_of(path),
                prefix: match parameters.prefix {
                    Some(p) => p,
                    None => Seq::empty(),
                },
                continuation_token: parameters.continuation_token,
                start_after: parameters.start_after,
                max_keys: parameters.max_keys,
            }
        } else {
            RouteActionView::Get {
                bucket: bucket_of(path),
                key: key_of(path),
                range: header_value(headers, "range"@),
            }
        },
        Method::Head => RouteActionView::Head { bucket: bucket_of(path), key: key_of(path) },
        _ => RouteActionView::Reply(not_found_reply()),
    }
}

/// What is to be done next for a request, given what its query string
/// spells. The checks come in this order: the query string, the shape of
/// the path, the token, the credentials, the method.
pub open spec fn route_of(
    method: Method,
    path: Seq<char>,
    parameters: Result<SearchParametersView, QueryError>,
    headers: Seq<Header>,
    event: RouteEvent,
) -> RouteActionView {
    match parameters {
        Err(e) => RouteActionView::Reply(bad_query_reply(e)),
        Ok(p) => if !is_object_path(path) {
            RouteActionView::Reply(not_found_reply())
        } else {
            match token_of(headers) {
                Err(e) => RouteActionView::Reply(bad_token_reply(e)),
                Ok(token) => match event {
                    RouteEvent::Arrived => RouteActionView::Authenticate { token },
                    RouteEvent::Refused => RouteActionView::Reply(unauthorized_reply()),
                    RouteEvent::Authorized => operation_of(method, path, p, headers),
                },
            }
        },
    }
}

/// A copy of a run of bytes.
fn clone_bytes(bytes: &Vec<u8>) -> (r: Vec<u8>)
    ensures
        r@ == bytes@,
{
    bytes.clone()
}

/// A copy of a text that may be missing.
fn clone_text(text: &Option<String>) -> (r: Option<String>)
    ensures
        option_view(r) == option_view(*text),
{
    match text {
        Some(t) => Some(t.clone()),
        None => None,
    }
}

/// Decides what is to be done next for a request whose query string has
/// been read.
pub fn route_with(
    request: &Request,
    parameters: &Result<SearchParameters, QueryError>,
    event: RouteEvent,
) -> (action: RouteAction)
    ensures
        action@ == route_of(
            request.method,
            request.path@,
            result_view(*parameters),
            request.headers@,
            event,
        ),
{
    let parameters = match parameters {
        Err(e) => {
            let m = e.message();
            return RouteAction::Reply(
                Reply::text(400, concat("Failed to parse query string: ", m.as_str())),
            );
        },
        Ok(p) => p,
    };
    let (bucket, key) = match split_path(request.path.as_str()) {
        None => {
            return RouteAction::Reply(Reply::text(404, String::from_str("Not found.\n")));
        },
        Some(parts) => parts,
    };
    let token = match Credentials::token_from_headers(&request.headers) {
        Err(e) => {
            return RouteAction::Reply(Reply::text(400, e.message()));
        },
        Ok(token) => token,
    };
    match event {
        RouteEvent::Arrived => RouteAction::Authenticate { token },
        RouteEvent::Refused => RouteAction::Reply(
            Reply::text(401, String::from_str("Unauthorized\n")),
        ),
        RouteEvent::Authorized => match request.method {
            Method::Get => {
                let listing = match parameters.list_type {
                    Some(n) => n == 2,
                    None => false,
                };
                if listing {
                    let prefix = match &parameters.prefix {
                        Some(p) => p.clone(),
                        None => String::new(),
                    };
                    RouteAction::List {
                        bucket,
                        prefix,
                        continuation_token: clone_text(&parameters.continuation_token),
                        start_after: clone_text(&parameters.start_after),
                        max_keys: parameters.max_keys,
                    }
                } else {
                    let range = match find_header(&request.headers, "range") {
                        Some(bytes) => Some(clone_bytes(bytes)),
                        None => None,
                    };
                    RouteAction::Get { bucket, key, range }
                }
            },
            Method::Head => RouteAction::Head { bucket, key },
            _ => RouteAction::Reply(Reply::text(404, String::from_str("Not found.\n"))),
        },
    }
}

/// Decides what is to be done next for a request.
pub fn route_request(request: &Request, event: RouteEvent) -> (action: RouteAction)
    ensures
        action@ == route_of(
            request.method,
            request.path@,
            parameters_of_decoded(urlencoded_pairs(request.query@)),
            request.headers@,
            event,
        ),
{
    let parameters = SearchParameters::parse(request.query.as_str());
    route_with(request, &parameters, event)
}

} // verus!
