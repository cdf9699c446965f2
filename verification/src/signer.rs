//! Request signing: the headers that authenticate a request to the
//! backend, and how they join the headers that the caller supplies.

use vstd::prelude::*;
use vstd::utf8::encode_utf8;
use crate::credentials::Credentials;
use crate::message::{check_header_text, is_header_text, Method};
use crate::text::{lowercase, pairs_view, same_text, to_lowercase};
use aws_credential_types::Credentials as AwsCredentials;
use aws_sigv4::http_request::{sign, SignableBody, SignableRequest, SigningSettings};
use aws_sigv4::sign::v4::SigningParams;
use std::time::{Duration, UNIX_EPOCH};

verus! {

/// The scheme and the authority that the crate `http` reads from a text as
/// a URI, or `None` where the text is no URI or lacks one of the two.
pub uninterp spec fn uri_origin(uri: Seq<char>) -> Option<(Seq<char>, Seq<char>)>;

/// Parses a text with `http::Uri`'s `FromStr` and hands back what
/// `scheme_str` and `authority` give, where both are there.
#[verifier::external_body]
fn read_origin(uri: &str) -> (origin: Option<(String, String)>)
    ensures
        match origin {
            Some(o) => uri_origin(uri@) == Some((o.0@, o.1@)),
            None => uri_origin(uri@) is None,
        },
{
    let parsed = uri.parse::<http::Uri>().ok()?;
    Some((parsed.scheme_str()?.to_string(), parsed.authority()?.as_str().to_string()))
}

/// The last second at which a request can be signed: the end of the year
/// 9999.
pub const LAST_SIGNING_SECOND: u64 = 253_402_300_799;

/// The most bytes that a URI can have if it is to be signed. The signer
/// writes the query again with each byte as up to three and a `=` after
/// each name, and the path and query that it writes must stay within
/// 65,534 bytes: five times this many bytes and three more do.
pub const LONGEST_SIGNED_URI: usize = 13_106;

/// The most headers of its own that a request can have if it is to be
/// signed. The signer keeps the headers in a map that stops the program
/// when it has to grow beyond 32,768 places. It is made for as many names
/// as the request has headers and takes three more; with names that are
/// hard on it, it doubles its places while it holds a fifth as many names as
/// it has places: below 6,554 names it never doubles beyond that size.
pub const MOST_SIGNED_HEADERS: usize = 6_550;

/// The headers that `aws_sigv4` adds to sign a request with an empty body,
/// or `None` where it refuses the request. The arguments are the method,
/// the URI, the request's own headers, the three parts of the credentials,
/// the name of their provider, the region, the service and the time of
/// signing in seconds since the Unix epoch.
pub uninterp spec fn sigv4_headers(
    method: Seq<char>,
    uri: Seq<char>,
    headers: Seq<(Seq<char>, Seq<char>)>,
    access_key_id: Seq<char>,
    secret_access_key: Seq<char>,
    session_token: Seq<char>,
    provider: Seq<char>,
    region: Seq<char>,
    service: Seq<char>,
    epoch_seconds: u64,
) -> Option<Seq<(Seq<char>, Seq<char>)>>;

/// Calls `aws_sigv4::http_request::sign` with the crate's default settings
/// on a request with an empty body, and hands back the headers of the
/// signing instructions, in their order. The result is a function of the
/// arguments alone; an error of the crate is handed on as `None`. The URI
/// must have a scheme and an authority, it must be short enough for its
/// query to be written again within the length that a path and query may
/// have, the time must lie before the year 10000, and the headers must be
/// few enough for the map that the crate keeps them in: the crate stops
/// the program otherwise. With these settings and a session token the
/// instructions hold three headers: `x-amz-date`, `authorization` and
/// `x-amz-security-token`, the last with the session token as its value.
#[verifier::external_body]
fn sign_with_sigv4(
    method: &str,
    uri: &str,
    headers: &Vec<(&str, &str)>,
    access_key_id: &str,
    secret_access_key: &str,
    session_token: &str,
    provider: &'static str,
    region: &str,
    service: &str,
    epoch_seconds: u64,
) -> (signed: Option<Vec<(String, String)>>)
    requires
        uri_origin(uri@) is Some,
        encode_utf8(uri@).len() <= LONGEST_SIGNED_URI,
        epoch_seconds <= LAST_SIGNING_SECOND,
        headers@.len() <= MOST_SIGNED_HEADERS,
    ensures
        option_pairs_view(signed) == sigv4_headers(
            method@,
            uri@,
            borrowed_pairs_view(headers@),
            access_key_id@,
            secret_access_key@,
            session_token@,
            provider@,
            region@,
            service@,
            epoch_seconds,
        ),
        signed matches Some(h) ==> is_signature(pairs_view(h@), session_token@),
{
    let identity = AwsCredentials::new(access_key_id, secret_access_key, Some(session_token.into()), None, provider).into();
    let params = SigningParams::builder().identity(&identity).region(region).name(service)
        .settings(SigningSettings::default()).time(UNIX_EPOCH + Duration::from_secs(epoch_seconds))
        .build().ok()?.into();
    let request = SignableRequest::new(method, uri, headers.iter().copied(), SignableBody::Bytes(&[])).ok()?;
    let (instructions, _) = sign(request, &params).ok()?.into_parts();
    Some(instructions.headers().map(|(n, v)| (n.into(), v.into())).collect())
}

/// Whether headers are those that sign a request with a session token:
/// `x-amz-date`, `authorization` and `x-amz-security-token`, in this order,
/// the last with the session token as its value.
pub open spec fn is_signature(added: Seq<(Seq<char>, Seq<char>)>, session_token: Seq<char>) -> bool {
    &&& added.len() == 3
    &&& added[0].0 == "x-amz-date"@
    &&& added[1].0 == "authorization"@
    &&& added[2] == ("x-amz-security-token"@, session_token)
}

/// Borrowed pairs of strings as pairs of texts.
pub open spec fn borrowed_pairs_view(pairs: Seq<(&str, &str)>) -> Seq<(Seq<char>, Seq<char>)> {
    Seq::new(pairs.len(), |i: int| (pairs[i].0@, pairs[i].1@))
}

/// An optional list of pairs of strings as pairs of texts.
pub open spec fn option_pairs_view(pairs: Option<Vec<(String, String)>>) -> Option<
    Seq<(Seq<char>, Seq<char>)>,
> {
    match pairs {
        Some(p) => Some(pairs_view(p@)),
        None => None,
    }
}

/// Borrows each pair of a list.
fn borrow_pairs(pairs: &Vec<(String, String)>) -> (r: Vec<(&str, &str)>)
    ensures
        borrowed_pairs_view(r@) == pairs_view(pairs@),
{
    let mut r: Vec<(&str, &str)> = Vec::new();
    let mut i: usize = 0;
    while i < pairs.len()
        invariant
            i <= pairs.len(),
            r.len() == i,
            borrowed_pairs_view(r@) == pairs_view(pairs@).take(i as int),
        decreases pairs.len() - i,
    {
        r.push((pairs[i].0.as_str(), pairs[i].1.as_str()));
        assert forall|k: int| 0 <= k < i + 1 implies borrowed_pairs_view(r@)[k] == pairs_view(
            pairs@,
        ).take(i + 1)[k] by {}
        i += 1;
    }
    r
}

/// Why a request could not be signed.
#[derive(Clone, Copy, Debug, PartialEq, Eq, Structural)]
pub enum SignError {
    /// The method is none that the gateway sends.
    UnsupportedMethod,
    /// The URI has more bytes than a URI that is signed may have.
    UriTooLong,
    /// The URI has no scheme or no authority.
    InvalidUri,
    /// The time of signing lies after the year 9999.
    TimeOutOfRange,
    /// The request has more headers of its own than a request that is
    /// signed may have.
    TooManyHeaders,
    /// The signer refused the request: the name of a header is malformed.
    Rejected,
    /// The value of a header, of the caller's own or of the finished
    /// headers, holds a character that is not visible ASCII.
    MalformedHeader,
}

/// The name of a method on the wire.
pub open spec fn method_name(method: Method) -> Option<Seq<char>> {
    match method {
        Method::Get => Some("GET"@),
        Method::Head => Some("HEAD"@),
        Method::Post => Some("POST"@),
        Method::Other => None,
    }
}

/// The name of a method on the wire.
pub fn name_of_method(method: Method) -> (name: Option<&'static str>)
    ensures
        match name {
            Some(n) => method_name(method) == Some(n@),
            None => method_name(method) is None,
        },
{
    match method {
        Method::Get => Some("GET"),
        Method::Head => Some("HEAD"),
        Method::Post => Some("POST"),
        Method::Other => None,
    }
}

/// The first place in `list` of a header named `name`.
pub open spec fn position_of(list: Seq<(Seq<char>, Seq<char>)>, name: Seq<char>) -> Option<int>
    decreases list.len(),
{
    if list.len() == 0 {
        None
    } else {
        match position_of(list.drop_last(), name) {
            Some(i) => Some(i),
            None => if list.last().0 == name {
                Some(list.len() - 1)
            } else {
                None
            },
        }
    }
}

/// `list` with the header `name` set to `value`: the name is folded to
/// lower case; a header of that name already in the list gets the new value
/// in its place, else the header is added at the end.
pub open spec fn with_header(
    list: Seq<(Seq<char>, Seq<char>)>,
    name: Seq<char>,
    value: Seq<char>,
) -> Seq<(Seq<char>, Seq<char>)> {
    match position_of(list, lowercase(name)) {
        Some(i) => list.update(i, (lowercase(name), value)),
        None => list.push((lowercase(name), value)),
    }
}

/// `list` with each header of `more` set, in order.
pub open spec fn with_headers(
    list: Seq<(Seq<char>, Seq<char>)>,
    more: Seq<(Seq<char>, Seq<char>)>,
) -> Seq<(Seq<char>, Seq<char>)>
    decreases more.len(),
{
    if more.len() == 0 {
        list
    } else {
        with_header(with_headers(list, more.drop_last()), more.last().0, more.last().1)
    }
}

/// `position_of` gives the first place of a header of that name, or
/// `None` where the list has none.
proof fn lemma_position_of(list: Seq<(Seq<char>, Seq<char>)>, name: Seq<char>)
    ensures
        match position_of(list, name) {
            Some(i) => 0 <= i < list.len() && list[i].0 == name && forall|j: int|
                0 <= j < i ==> (#[trigger] list[j]).0 != name,
            None => forall|j: int| 0 <= j < list.len() ==> (#[trigger] list[j]).0 != name,
        },
    decreases list.len(),
{
    if list.len() > 0 {
        lemma_position_of(list.drop_last(), name);
        assert forall|j: int| 0 <= j < list.len() - 1 implies list[j] == list.drop_last()[j] by {}
    }
}

/// The value of the header `name` in a list, if the list has one.
pub open spec fn header_of(list: Seq<(Seq<char>, Seq<char>)>, name: Seq<char>) -> Option<Seq<char>> {
    match position_of(list, name) {
        Some(i) => Some(list[i].1),
        None => None,
    }
}

/// Whether a list of headers carries a signature: an `x-amz-date`, an
/// `authorization`, and the session token as `x-amz-security-token`.
pub open spec fn carries_signature(list: Seq<(Seq<char>, Seq<char>)>, session_token: Seq<char>)
    -> bool {
    &&& header_of(list, "x-amz-date"@) is Some
    &&& header_of(list, "authorization"@) is Some
    &&& header_of(list, "x-amz-security-token"@) == Some(session_token)
}

/// A header that is set has its new value, and every other header keeps
/// what it had.
proof fn lemma_with_header(
    list: Seq<(Seq<char>, Seq<char>)>,
    name: Seq<char>,
    value: Seq<char>,
    other: Seq<char>,
)
    ensures
        header_of(with_header(list, name, value), lowercase(name)) == Some(value),
        other != lowercase(name) ==> header_of(with_header(list, name, value), other) == header_of(
            list,
            other,
        ),
{
    let set = lowercase(name);
    let after = with_header(list, name, value);
    lemma_position_of(list, set);
    lemma_position_of(after, set);
    lemma_position_of(list, other);
    lemma_position_of(after, other);
    match position_of(list, set) {
        Some(i) => {
            assert(after[i] == (set, value));
            assert forall|j: int| 0 <= j < list.len() implies (#[trigger] after[j]).0 == list[j].0 by {}
            assert(position_of(after, set) == Some(i)) by {
                let k = position_of(after, set)->0;
                assert(after[i].0 == set);
                assert(list[k].0 == after[k].0);
            }
            if other != set {
                match position_of(list, other) {
                    Some(m) => {
                        assert(after[m].0 == list[m].0);
                        let k = position_of(after, other)->0;
                        assert(after[k].0 == list[k].0);
                        assert(k == m);
                        assert(m != i);
                    },
                    None => {
                        if position_of(after, other) is Some {
                            let k = position_of(after, other)->0;
                            assert(after[k].0 == list[k].0);
                        }
                    },
                }
            }
        },
        None => {
            let n = list.len() as int;
            assert(after[n] == (set, value));
            assert forall|j: int| 0 <= j < n implies #[trigger] after[j] == list[j] by {}
            assert(position_of(after, set) == Some(n)) by {
                let k = position_of(after, set)->0;
                if k < n {
                    assert(after[k] == list[k]);
                }
            }
            if other != set {
                match position_of(list, other) {
                    Some(m) => {
                        assert(after[m] == list[m]);
                        let k = position_of(after, other)->0;
                        if k < n {
                            assert(after[k] == list[k]);
                        }
                        assert(k == m);
                    },
                    None => {
                        if position_of(after, other) is Some {
                            let k = position_of(after, other)->0;
                            if k < n {
                                assert(after[k] == list[k]);
                            }
                        }
                    },
                }
            }
        },
    }
}

/// The names of the headers of a signature are in lower case and differ.
proof fn lemma_signature_names()
    ensures
        lowercase("x-amz-date"@) == "x-amz-date"@,
        lowercase("authorization"@) == "authorization"@,
        lowercase("x-amz-security-token"@) == "x-amz-security-token"@,
        "x-amz-date"@ != "authorization"@,
        "x-amz-date"@ != "x-amz-security-token"@,
        "authorization"@ != "x-amz-security-token"@,
{
    reveal_strlit("x-amz-date");
    reveal_strlit("authorization");
    reveal_strlit("x-amz-security-token");
    assert("x-amz-date"@.len() == 10);
    assert("authorization"@.len() == 13);
    assert("x-amz-security-token"@.len() == 20);
    assert(lowercase("x-amz-date"@) =~= "x-amz-date"@);
    assert(lowercase("authorization"@) =~= "authorization"@);
    assert(lowercase("x-amz-security-token"@) =~= "x-amz-security-token"@);
}

/// Headers to which the headers of a signature have been added carry the
/// signature.
pub proof fn lemma_signed_headers_carry_the_signature(
    base: Seq<(Seq<char>, Seq<char>)>,
    added: Seq<(Seq<char>, Seq<char>)>,
    session_token: Seq<char>,
)
    requires
        is_signature(added, session_token),
    ensures
        carries_signature(with_headers(base, added), session_token),
{
    lemma_signature_names();
    let two = added.drop_last();
    let one = two.drop_last();
    assert(one.drop_last().len() == 0);
    assert(two.last() == added[1]);
    assert(one.last() == added[0]);
    let first = with_headers(base, one);
    let second = with_headers(base, two);
    let third = with_headers(base, added);
    assert(with_headers(base, one.drop_last()) == base);
    assert(first == with_header(base, added[0].0, added[0].1));
    assert(second == with_header(first, added[1].0, added[1].1));
    assert(third == with_header(second, added[2].0, added[2].1));
    lemma_with_header(base, added[0].0, added[0].1, "x-amz-date"@);
    lemma_with_header(first, added[1].0, added[1].1, "x-amz-date"@);
    lemma_with_header(second, added[2].0, added[2].1, "x-amz-date"@);
    lemma_with_header(second, added[2].0, added[2].1, "authorization"@);
}

/// Sets one header in a list of headers.
pub fn put_header(list: &mut Vec<(String, String)>, name: &str, value: &str)
    ensures
        pairs_view(final(list)@) == with_header(pairs_view(old(list)@), name@, value@),
{
    let lower = to_lowercase(name);
    let ghost before = pairs_view(list@);
    proof {
        lemma_position_of(before, lower@);
    }
    let mut i: usize = 0;
    while i < list.len()
        invariant
            i <= list.len(),
            *list == *old(list),
            before == pairs_view(list@),
            lower@ == lowercase(name@),
            forall|j: int| 0 <= j < i ==> (#[trigger] before[j]).0 != lower@,
        decreases list.len() - i,
    {
        if same_text(list[i].0.as_str(), lower.as_str()) {
            proof {
                lemma_position_of(before, lower@);
                assert(before[i as int].0 == lower@);
            }
            list.set(i, (lower, value.to_owned()));
            return ;
        }
        i += 1;
    }
    proof {
        lemma_position_of(before, lower@);
    }
    list.push((lower, value.to_owned()));
}

/// Sets each header of `more` in a list of headers, in order.
pub fn put_headers(list: &mut Vec<(String, String)>, more: &Vec<(String, String)>)
    ensures
        pairs_view(final(list)@) == with_headers(pairs_view(old(list)@), pairs_view(more@)),
{
    let ghost start = pairs_view(list@);
    let ghost all = pairs_view(more@);
    let mut i: usize = 0;
    while i < more.len()
        invariant
            i <= more.len(),
            all == pairs_view(more@),
            pairs_view(list@) == with_headers(start, all.take(i as int)),
        decreases more.len() - i,
    {
        proof {
            assert(all.take(i + 1).drop_last() == all.take(i as int));
        }
        put_header(list, more[i].0.as_str(), more[i].1.as_str());
        i += 1;
    }
    assert(all.take(more.len() as int) == all);
}

/// Whether the value of every header may stand in a header.
pub open spec fn values_are_header_text(list: Seq<(Seq<char>, Seq<char>)>) -> bool {
    forall|i: int| 0 <= i < list.len() ==> is_header_text((#[trigger] list[i]).1)
}

/// The headers of the request that goes out, given the headers that the
/// signer added: the caller's own headers, then the signer's, each set in
/// order. A request that the signer refused, or a value that is not
/// visible ASCII, is an error.
pub open spec fn assembled(
    own: Seq<(Seq<char>, Seq<char>)>,
    signed: Option<Seq<(Seq<char>, Seq<char>)>>,
) -> Result<Seq<(Seq<char>, Seq<char>)>, SignError> {
    match signed {
        None => Err(SignError::Rejected),
        Some(added) => {
            let all = with_headers(with_headers(Seq::empty(), own), added);
            if values_are_header_text(all) {
                Ok(all)
            } else {
                Err(SignError::MalformedHeader)
            }
        },
    }
}

/// Checks that the value of every header may stand in a header.
pub fn check_values(list: &Vec<(String, String)>) -> (ok: bool)
    ensures
        ok == values_are_header_text(pairs_view(list@)),
{
    let mut i: usize = 0;
    while i < list.len()
        invariant
            i <= list.len(),
            forall|j: int| 0 <= j < i ==> is_header_text((#[trigger] pairs_view(list@)[j]).1),
        decreases list.len() - i,
    {
        if !check_header_text(list[i].1.as_str()) {
            assert(!is_header_text(pairs_view(list@)[i as int].1));
            return false;
        }
        i += 1;
    }
    true
}

/// A list of headers or an error, with the headers as pairs of texts.
pub open spec fn headers_result_view(r: Result<Vec<(String, String)>, SignError>) -> Result<
    Seq<(Seq<char>, Seq<char>)>,
    SignError,
> {
    match r {
        Ok(h) => Ok(pairs_view(h@)),
        Err(e) => Err(e),
    }
}

/// Puts the headers of the outgoing request together.
pub fn assemble(own: &Vec<(String, String)>, signed: &Option<Vec<(String, String)>>) -> (r: Result<
    Vec<(String, String)>,
    SignError,
>)
    ensures
        headers_result_view(r) == assembled(pairs_view(own@), option_pairs_view(*signed)),
{
    let added = match signed {
        None => {
            return Err(SignError::Rejected);
        },
        Some(h) => h,
    };
    let mut all: Vec<(String, String)> = Vec::new();
    assert(pairs_view(all@) == Seq::<(Seq<char>, Seq<char>)>::empty());
    put_headers(&mut all, own);
    put_headers(&mut all, added);
    if check_values(&all) {
        Ok(all)
    } else {
        Err(SignError::MalformedHeader)
    }
}

/// The headers of a signed request for the backend: the outcome of signing
/// at `epoch_seconds` with the gateway's fixed region, service and provider
/// name. The method, the length of the URI, its scheme and authority, the
/// time, and the number and the values of the caller's own headers are
/// looked at in this order before anything is signed.
pub open spec fn signing_outcome(
    method: Method,
    uri: Seq<char>,
    own: Seq<(Seq<char>, Seq<char>)>,
    access_key_id: Seq<char>,
    secret_access_key: Seq<char>,
    session_token: Seq<char>,
    epoch_seconds: u64,
) -> Result<Seq<(Seq<char>, Seq<char>)>, SignError> {
    match method_name(method) {
        None => Err(SignError::UnsupportedMethod),
        Some(name) => if encode_utf8(uri).len() > LONGEST_SIGNED_URI {
            Err(SignError::UriTooLong)
        } else if uri_origin(uri) is None {
            Err(SignError::InvalidUri)
        } else if epoch_seconds > LAST_SIGNING_SECOND {
            Err(SignError::TimeOutOfRange)
        } else if own.len() > MOST_SIGNED_HEADERS {
            Err(SignError::TooManyHeaders)
        } else if !values_are_header_text(own) {
            Err(SignError::MalformedHeader)
        } else {
            assembled(
                own,
                sigv4_headers(
                    name,
                    uri,
                    own,
                    access_key_id,
                    secret_access_key,
                    session_token,
                    "PLTR"@,
                    "foundry"@,
                    "s3"@,
                    epoch_seconds,
                ),
            )
        },
    }
}

/// Signs a request with an empty body for the backend and hands back the
/// headers that it is to be sent with.
pub fn sign_request(
    method: Method,
    uri: &str,
    own: &Vec<(String, String)>,
    credentials: &Credentials,
    epoch_seconds: u64,
) -> (r: Result<Vec<(String, String)>, SignError>)
    ensures
        headers_result_view(r) == signing_outcome(
            method,
            uri@,
            pairs_view(own@),
            credentials@.access_key_id,
            credentials@.secret_access_key,
            credentials@.session_token,
            epoch_seconds,
        ),
        r matches Ok(all) ==> carries_signature(pairs_view(all@), credentials@.session_token),
{
    let name = match name_of_method(method) {
        None => {
            return Err(SignError::UnsupportedMethod);
        },
        Some(name) => name,
    };
    if uri.as_bytes().len() > LONGEST_SIGNED_URI {
        return Err(SignError::UriTooLong);
    }
    if read_origin(uri).is_none() {
        return Err(SignError::InvalidUri);
    }
    if epoch_seconds > LAST_SIGNING_SECOND {
        return Err(SignError::TimeOutOfRange);
    }
    if own.len() > MOST_SIGNED_HEADERS {
        return Err(SignError::TooManyHeaders);
    }
    if !check_values(own) {
        return Err(SignError::MalformedHeader);
    }
    let borrowed = borrow_pairs(own);
    let signed = sign_with_sigv4(
        name,
        uri,
        &borrowed,
        credentials.access_key_id.as_str(),
        credentials.secret_access_key.as_str(),
        credentials.session_token.as_str(),
        "PLTR",
        "foundry",
        "s3",
        epoch_seconds,
    );
    proof {
        if signed is Some {
            lemma_signed_headers_carry_the_signature(
                with_headers(Seq::empty(), pairs_view(own@)),
                pairs_view(signed->0@),
                credentials@.session_token,
            );
        }
    }
    assemble(own, &signed)
}

} // verus!
