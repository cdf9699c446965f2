//! The handler of the gateway: what it asks of the backend for each
//! operation, and what it answers the client and remembers once the
//! backend has answered.

use vstd::prelude::*;
use vstd::utf8::encode_utf8;
use crate::clock::Timestamp;
use crate::content_cache::{
    alone, cache_name, each_is_sent, entry_at, entry_path, final_path, has_ended, hash_filename,
    is_interrupted, joined, lemma_concurrent_misses_store_the_object,
    lemma_interrupted_is_not_promoted, lemma_whole_response_is_promoted, none_is_promoted,
    quiet_world, whole_response, world_after, Happening, Phase, Population, TeeEvent,
};
use crate::credentials::{Credentials, CredentialsError, CredentialsView};
use crate::credentials_manager::{
    discard_step, is_pending, lookup_step, resolve_step, token_key, CredentialsManager, Lookup,
    SlotView,
};
use crate::decimal::{
    decimal_digits, numeral, numeral_in_range, parse_i64, render_i64, render_u64,
};
use crate::message::{
    answer_view, bare_reply, header_text, is_success, read_header_text, sendable,
    sendable_status, sized_reply, status_is_success, BackendFailure, BackendRequest,
    BackendRequestView, BackendResponse, BackendResponseView, Body, BodyView, Method, Reply,
    ReplyView,
};
use crate::signer::{carries_signature, sign_request, signing_outcome, SignError};
use crate::size_cache::{size_at, size_key, size_key_of, SizeCache};
use crate::text::{option_view, pairs_view, result_view};
use crate::xml::{xml_tokens, XmlError};
use crate::xml_writer::{
    contents_view, listing_of, ContentView, ListBucketResult, ListBucketResultView,
};

verus! {

/// The handler of the gateway: the credential cache, the size cache and
/// the endpoint of the backend.
pub struct S3Handler {
    credentials: CredentialsManager,
    size_cache: SizeCache,
    endpoint: String,
    populations: u64,
}

/// What the handler wants done next.
#[derive(Debug, PartialEq, Eq)]
pub enum Step {
    /// Send this request to the backend, then come back with what it gave.
    Send(BackendRequest),
    /// Answer the client.
    Reply(Reply),
}

/// `Step` with its texts as sequences of characters.
pub enum StepView {
    Send(BackendRequestView),
    Reply(ReplyView),
}

impl View for Step {
    type V = StepView;

    open spec fn view(&self) -> StepView {
        match self {
            Step::Send(request) => StepView::Send(request@),
            Step::Reply(reply) => StepView::Reply(reply@),
        }
    }
}

/// The answer to the client when a backend call has failed: the status of
/// the failure, where it has one that can be sent, else 500, and no body.
pub open spec fn failure_reply(failure: BackendFailure) -> ReplyView {
    bare_reply(
        match failure.status {
            Some(status) => sendable_status(status),
            None => 500,
        },
    )
}

/// The URI of an object at the backend.
pub open spec fn object_uri(endpoint: Seq<char>, bucket: Seq<char>, key: Seq<char>) -> Seq<char> {
    endpoint + bucket + seq!['/'] + key
}

/// The signed request for the backend, or why it could not be signed.
pub open spec fn signed_request(
    method: Method,
    uri: Seq<char>,
    own: Seq<(Seq<char>, Seq<char>)>,
    credentials: CredentialsView,
    epoch_seconds: u64,
) -> Result<BackendRequestView, SignError> {
    match signing_outcome(
        method,
        uri,
        own,
        credentials.access_key_id,
        credentials.secret_access_key,
        credentials.session_token,
        epoch_seconds,
    ) {
        Ok(headers) => Ok(BackendRequestView { method, uri, query: Seq::empty(), headers }),
        Err(e) => Err(e),
    }
}

/// To send the request if it could be signed, else to answer 500.
pub open spec fn send_or_fail(request: Result<BackendRequestView, SignError>) -> StepView {
    match request {
        Ok(r) => StepView::Send(r),
        Err(_) => StepView::Reply(bare_reply(500)),
    }
}

/// The length that a `content-length` header declares, if it is there and
/// spells a signed 64-bit number.
pub open spec fn declared_length(header: Option<Seq<u8>>) -> Option<i64> {
    match header {
        None => None,
        Some(bytes) => match header_text(bytes) {
            None => None,
            Some(text) => match numeral_in_range(text, true, i64::MIN as int, i64::MAX as int) {
                Some(n) => Some(n as i64),
                None => None,
            },
        },
    }
}

/// The sizes after a step of HEAD, and what the handler wants done. At the
/// start a size that is on file is answered at once, without a backend
/// call; else the backend is asked. A failed call and an answer outside the
/// 2xx class are passed on and leave the sizes as they are; an answer that
/// declares a length puts it on file.
pub open spec fn head_step(
    sizes: Map<Seq<char>, i64>,
    endpoint: Seq<char>,
    credentials: CredentialsView,
    bucket: Seq<char>,
    key: Seq<char>,
    epoch_seconds: u64,
    answer: Option<Result<BackendResponseView, BackendFailure>>,
) -> (Map<Seq<char>, i64>, StepView) {
    match answer {
        None => match size_at(sizes, size_key(bucket, key)) {
            Some(size) => (sizes, StepView::Reply(sized_reply(200, numeral(size as int)))),
            None => (
                sizes,
                send_or_fail(
                    signed_request(
                        Method::Head,
                        object_uri(endpoint, bucket, key),
                        Seq::empty(),
                        credentials,
                        epoch_seconds,
                    ),
                ),
            ),
        },
        Some(Err(failure)) => (sizes, StepView::Reply(failure_reply(failure))),
        Some(Ok(response)) => if !is_success(response.status) {
            (sizes, StepView::Reply(bare_reply(sendable_status(response.status))))
        } else {
            match declared_length(response.content_length) {
                None => (sizes, StepView::Reply(bare_reply(500))),
                Some(size) => (
                    sizes.insert(size_key(bucket, key), size),
                    StepView::Reply(sized_reply(200, numeral(size as int))),
                ),
            }
        },
    }
}

/// What the handler is told about a GET.
#[derive(Debug, PartialEq, Eq)]
pub enum GetEvent {
    /// The request has arrived.
    Start,
    /// The path that was to be probed holds a file of this length.
    Cached { length: u64 },
    /// The path that was to be probed holds nothing.
    Absent,
    /// What the backend call gave.
    Answer(Result<BackendResponse, BackendFailure>),
}

/// `GetEvent` with its texts as sequences.
pub enum GetEventView {
    Start,
    Cached { length: u64 },
    Absent,
    Answer(Result<BackendResponseView, BackendFailure>),
}

impl View for GetEvent {
    type V = GetEventView;

    open spec fn view(&self) -> GetEventView {
        match self {
            GetEvent::Start => GetEventView::Start,
            GetEvent::Cached { length } => GetEventView::Cached { length: *length },
            GetEvent::Absent => GetEventView::Absent,
            GetEvent::Answer(r) => GetEventView::Answer(result_view(*r)),
        }
    }
}

/// What the handler wants done next for a GET.
#[derive(Debug, PartialEq, Eq)]
pub enum GetStep {
    /// Look whether this path holds a file, then come back with `Cached`
    /// or `Absent`.
    Probe { path: String },
    /// Send this request to the backend, then come back with what it gave.
    Send(BackendRequest),
    /// Answer the client.
    Reply(Reply),
    /// Create the temporary file of this population, answer the client
    /// with this reply, and hand the backend response on as the population
    /// says.
    Tee { reply: Reply, population: Population },
}

/// `GetStep` with its texts as sequences of characters.
pub enum GetStepView {
    Probe { path: Seq<char> },
    Send(BackendRequestView),
    Reply(ReplyView),
    Tee { reply: ReplyView, name: Seq<char>, serial: u64, phase: Phase },
}

impl View for GetStep {
    type V = GetStepView;

    open spec fn view(&self) -> GetStepView {
        match self {
            GetStep::Probe { path } => GetStepView::Probe { path: path@ },
            GetStep::Send(request) => GetStepView::Send(request@),
            GetStep::Reply(reply) => GetStepView::Reply(reply@),
            GetStep::Tee { reply, population } => GetStepView::Tee {
                reply: reply@,
                name: population.name@,
                serial: population.serial,
                phase: population.phase,
            },
        }
    }
}

/// The headers that a GET sends to the backend besides those of the
/// signature: the range, if there is one.
pub open spec fn range_headers(range: Option<Seq<char>>) -> Seq<(Seq<char>, Seq<char>)> {
    match range {
        Some(r) => seq![("range"@, r)],
        None => Seq::empty(),
    }
}

/// The part of the cache name that stands for the range: its text, or the
/// empty text where there is none.
pub open spec fn range_part(range: Option<Seq<char>>) -> Seq<char> {
    match range {
        Some(r) => r,
        None => Seq::empty(),
    }
}

/// What the handler wants done at a step of GET, for a range that is text
/// or absent. A file under the finished path of the entry is served as it
/// is, without a backend call; else the backend is asked, and its answer,
/// if it is in the 2xx class and declares a length, is handed to the client
/// and stored at once, by a population with the number `serial`. A failed
/// call and an answer outside the 2xx class are passed on with an empty
/// body.
pub open spec fn get_step_with(
    endpoint: Seq<char>,
    credentials: CredentialsView,
    bucket: Seq<char>,
    key: Seq<char>,
    range: Option<Seq<char>>,
    epoch_seconds: u64,
    serial: u64,
    event: GetEventView,
) -> GetStepView {
    let name = cache_name(bucket, key, range_part(range));
    match event {
        GetEventView::Start => GetStepView::Probe { path: final_path(name) },
        GetEventView::Cached { length } => GetStepView::Reply(
            ReplyView {
                status: 200,
                content_length: Some(decimal_digits(length as nat)),
                body: BodyView::File(final_path(name)),
            },
        ),
        GetEventView::Absent => send_or_fail_get(
            signed_request(
                Method::Get,
                object_uri(endpoint, bucket, key),
                range_headers(range),
                credentials,
                epoch_seconds,
            ),
        ),
        GetEventView::Answer(Err(failure)) => GetStepView::Reply(failure_reply(failure)),
        GetEventView::Answer(Ok(response)) => if !is_success(response.status) {
            GetStepView::Reply(bare_reply(sendable_status(response.status)))
        } else {
            match response.content_length {
                None => GetStepView::Reply(bare_reply(500)),
                Some(bytes) => match header_text(bytes) {
                    None => GetStepView::Reply(bare_reply(500)),
                    Some(length) => GetStepView::Tee {
                        reply: ReplyView {
                            status: 200,
                            content_length: Some(length),
                            body: BodyView::Stream,
                        },
                        name,
                        serial,
                        phase: Phase::Teeing,
                    },
                },
            }
        },
    }
}

/// What the handler wants done at a step of GET. The bytes of the range
/// header must be text: if they are not, the answer is 400.
pub open spec fn get_step(
    endpoint: Seq<char>,
    credentials: CredentialsView,
    bucket: Seq<char>,
    key: Seq<char>,
    range: Option<Seq<u8>>,
    epoch_seconds: u64,
    serial: u64,
    event: GetEventView,
) -> GetStepView {
    match range {
        None => get_step_with(
            endpoint,
            credentials,
            bucket,
            key,
            None,
            epoch_seconds,
            serial,
            event,
        ),
        Some(bytes) => match header_text(bytes) {
            None => GetStepView::Reply(bare_reply(400)),
            Some(text) => get_step_with(
                endpoint,
                credentials,
                bucket,
                key,
                Some(text),
                epoch_seconds,
                serial,
                event,
            ),
        },
    }
}

/// The number of the next population after a step of GET: each population
/// that starts takes one number, and after the last number the first comes
/// again.
pub open spec fn serial_after(serial: u64, step: GetStepView) -> u64 {
    if step is Tee {
        if serial == u64::MAX {
            0
        } else {
            (serial + 1) as u64
        }
    } else {
        serial
    }
}

/// The number of bytes of a text in UTF-8.
pub open spec fn byte_length(text: Seq<char>) -> nat {
    encode_utf8(text).len()
}

/// The text of an optional parameter, empty where it is not there.
pub open spec fn or_empty(text: Option<Seq<char>>) -> Seq<char> {
    match text {
        Some(t) => t,
        None => Seq::empty(),
    }
}

/// The URI that lists a bucket at the backend.
pub open spec fn list_uri(
    endpoint: Seq<char>,
    bucket: Seq<char>,
    prefix: Seq<char>,
    continuation_token: Option<Seq<char>>,
    start_after: Option<Seq<char>>,
    max_keys: Option<i32>,
) -> Seq<char> {
    endpoint + bucket + "?list-type=2&prefix="@ + prefix + "&continuation-token="@ + or_empty(
        continuation_token,
    ) + "&start-after="@ + or_empty(start_after) + "&max-keys="@ + (match max_keys {
        Some(n) => numeral(n as int),
        None => Seq::empty(),
    })
}

/// The sizes with the size of each object of a listing put on file, in
/// the order of the listing.
pub open spec fn with_sizes(
    sizes: Map<Seq<char>, i64>,
    bucket: Seq<char>,
    contents: Seq<ContentView>,
) -> Map<Seq<char>, i64>
    decreases contents.len(),
{
    if contents.len() == 0 {
        sizes
    } else {
        with_sizes(sizes, bucket, contents.drop_last()).insert(
            size_key(bucket, contents.last().key),
            contents.last().size,
        )
    }
}

/// The sizes after the backend has answered a LIST with this status and a
/// body that spells this listing, or none: only an answer in the 2xx class
/// whose body is a listing changes them.
pub open spec fn sizes_after_listing(
    sizes: Map<Seq<char>, i64>,
    bucket: Seq<char>,
    status: u16,
    listing: Result<ListBucketResultView, XmlError>,
) -> Map<Seq<char>, i64> {
    if is_success(status) {
        match listing {
            Ok(l) => match l.contents {
                Some(c) => with_sizes(sizes, bucket, c),
                None => sizes,
            },
            Err(_) => sizes,
        }
    } else {
        sizes
    }
}

/// The sizes after a step of LIST and what the handler wants done, given
/// the listing that the body of the answer spells. The answer of the
/// backend is passed on as it is, with the length of its body.
pub open spec fn list_step(
    sizes: Map<Seq<char>, i64>,
    endpoint: Seq<char>,
    credentials: CredentialsView,
    bucket: Seq<char>,
    prefix: Seq<char>,
    continuation_token: Option<Seq<char>>,
    start_after: Option<Seq<char>>,
    max_keys: Option<i32>,
    epoch_seconds: u64,
    answer: Option<Result<BackendResponseView, BackendFailure>>,
    listing: Result<ListBucketResultView, XmlError>,
) -> (Map<Seq<char>, i64>, StepView) {
    match answer {
        None => (
            sizes,
            send_or_fail(
                signed_request(
                    Method::Get,
                    list_uri(endpoint, bucket, prefix, continuation_token, start_after, max_keys),
                    Seq::empty(),
                    credentials,
                    epoch_seconds,
                ),
            ),
        ),
        Some(Err(failure)) => (sizes, StepView::Reply(failure_reply(failure))),
        Some(Ok(response)) => (
            sizes_after_listing(sizes, bucket, response.status, listing),
            StepView::Reply(
                ReplyView {
                    status: sendable_status(response.status),
                    content_length: Some(decimal_digits(byte_length(response.body))),
                    body: BodyView::Text(response.body),
                },
            ),
        ),
    }
}

/// The listing that the body of an answer spells; of no interest where
/// there is no answer.
pub open spec fn listing_in(answer: Option<Result<BackendResponseView, BackendFailure>>) -> Result<
    ListBucketResultView,
    XmlError,
> {
    match answer {
        Some(Ok(response)) => listing_of(xml_tokens(response.body)),
        _ => Err(XmlError::NotWellFormed),
    }
}

/// The URI of an object at the backend.
fn object_uri_of(endpoint: &str, bucket: &str, key: &str) -> (uri: String)
    ensures
        uri@ == object_uri(endpoint@, bucket@, key@),
{
    let mut uri = String::from_str(endpoint);
    uri.append(bucket);
    uri.push('/');
    uri.append(key);
    uri
}

/// Reads the length that a `content-length` header declares.
fn read_declared_length(header: &Option<Vec<u8>>) -> (r: Option<i64>)
    ensures
        r == declared_length(option_view(*header)),
{
    match header {
        None => None,
        Some(bytes) => match read_header_text(bytes) {
            None => None,
            Some(text) => parse_i64(text.as_str()),
        },
    }
}

impl S3Handler {
    /// The sizes that the handler has on file.
    pub closed spec fn sizes(&self) -> Map<Seq<char>, i64> {
        self.size_cache@
    }

    /// The credential cache of the handler.
    pub closed spec fn slots(&self) -> Map<Seq<u8>, SlotView> {
        self.credentials@.slots
    }

    /// The endpoint of the backend.
    pub closed spec fn endpoint_text(&self) -> Seq<char> {
        self.endpoint@
    }

    /// The number that the next population gets.
    pub closed spec fn next_serial(&self) -> u64 {
        self.populations
    }

    /// A handler for the backend at `endpoint`, with nothing in its caches.
    pub fn new(endpoint: &str) -> (handler: S3Handler)
        ensures
            handler.endpoint_text() == endpoint@,
            handler.sizes() == Map::<Seq<char>, i64>::empty(),
            handler.slots() == Map::<Seq<u8>, SlotView>::empty(),
            handler.next_serial() == 0,
    {
        S3Handler {
            credentials: CredentialsManager::new(endpoint),
            size_cache: SizeCache::new(),
            endpoint: String::from_str(endpoint),
            populations: 0,
        }
    }

    /// The endpoint of the backend.
    pub fn endpoint(&self) -> (e: &str)
        ensures
            e@ == self.endpoint_text(),
    {
        self.endpoint.as_str()
    }

    /// The answer to the client when a backend call has failed.
    pub fn handle_sdk_error(failure: &BackendFailure) -> (reply: Reply)
        ensures
            reply@ == failure_reply(*failure),
    {
        match failure.status {
            Some(status) => Reply::bare(sendable(status)),
            None => Reply::bare(500),
        }
    }

    /// Answers a caller who wants the credentials of `token` at `now`; see
    /// `CredentialsManager::get_credentials`.
    pub fn get_credentials(&mut self, token: &str, now: Timestamp) -> (answer: Lookup)
        ensures
            (final(self).slots(), answer@) == lookup_step(old(self).slots(), token_key(token@), now),
            final(self).sizes() == old(self).sizes(),
            final(self).endpoint_text() == old(self).endpoint_text(),
            final(self).next_serial() == old(self).next_serial(),
    {
        self.credentials.get_credentials(token, now)
    }

    /// Takes in the outcome of the exchange for `token`; see
    /// `CredentialsManager::resolve`.
    pub fn resolve_credentials(
        &mut self,
        token: &str,
        outcome: Result<Credentials, CredentialsError>,
    ) -> (applied: bool)
        ensures
            final(self).slots() == resolve_step(
                old(self).slots(),
                token_key(token@),
                result_view(outcome),
            ),
            applied == is_pending(old(self).slots(), token_key(token@)),
            final(self).sizes() == old(self).sizes(),
            final(self).endpoint_text() == old(self).endpoint_text(),
            final(self).next_serial() == old(self).next_serial(),
    {
        self.credentials.resolve(token, outcome)
    }

    /// Clears away the slot of `token` if its exchange has failed; see
    /// `CredentialsManager::discard_failed`.
    pub fn discard_failed_credentials(&mut self, token: &str) -> (removed: bool)
        ensures
            final(self).slots() == discard_step(old(self).slots(), token_key(token@)),
            removed == (old(self).slots().contains_key(token_key(token@)) && old(
                self,
            ).slots()[token_key(token@)] is Failed),
            final(self).sizes() == old(self).sizes(),
            final(self).endpoint_text() == old(self).endpoint_text(),
            final(self).next_serial() == old(self).next_serial(),
    {
        self.credentials.discard_failed(token)
    }

    /// The signed request with an empty body for the backend.
    pub fn request(
        &self,
        method: Method,
        credentials: &Credentials,
        uri: &str,
        headers: &Vec<(String, String)>,
        epoch_seconds: u64,
    ) -> (r: Result<BackendRequest, SignError>)
        ensures
            result_view(r) == signed_request(
                method,
                uri@,
                pairs_view(headers@),
                credentials@,
                epoch_seconds,
            ),
            r matches Ok(request) ==> carries_signature(
                pairs_view(request.headers@),
                credentials@.session_token,
            ),
    {
        match sign_request(method, uri, headers, credentials, epoch_seconds) {
            Ok(signed) => {
                let request = BackendRequest {
                    method,
                    uri: String::from_str(uri),
                    query: Vec::new(),
                    headers: signed,
                };
                assert(pairs_view(request.query@) =~= Seq::<(Seq<char>, Seq<char>)>::empty());
                Ok(request)
            },
            Err(e) => Err(e),
        }
    }

    /// One step of HEAD for an object. Without an answer it is the start:
    /// the handler answers from the size cache or asks the backend. With
    /// what the backend gave, it answers the client and files the size.
    pub fn head_object(
        &mut self,
        credentials: &Credentials,
        bucket: &str,
        key: &str,
        epoch_seconds: u64,
        answer: Option<&Result<BackendResponse, BackendFailure>>,
    ) -> (step: Step)
        ensures
            (final(self).sizes(), step@) == head_step(
                old(self).sizes(),
                old(self).endpoint_text(),
                credentials@,
                bucket@,
                key@,
                epoch_seconds,
                answer_view(answer),
            ),
            final(self).slots() == old(self).slots(),
            final(self).endpoint_text() == old(self).endpoint_text(),
            final(self).next_serial() == old(self).next_serial(),
    {
        let filed_as = size_key_of(bucket, key);
        match answer {
            None => match self.size_cache.get(filed_as.as_str()) {
                Some(size) => Step::Reply(
                    Reply { status: 200, content_length: Some(render_i64(size)), body: Body::Empty },
                ),
                None => {
                    let uri = object_uri_of(self.endpoint.as_str(), bucket, key);
                    let own: Vec<(String, String)> = Vec::new();
                    assert(pairs_view(own@) =~= Seq::<(Seq<char>, Seq<char>)>::empty());
                    match self.request(Method::Head, credentials, uri.as_str(), &own, epoch_seconds) {
                        Ok(request) => Step::Send(request),
                        Err(_) => Step::Reply(Reply::bare(500)),
                    }
                },
            },
            Some(Err(failure)) => Step::Reply(S3Handler::handle_sdk_error(failure)),
            Some(Ok(response)) => {
                if !status_is_success(response.status) {
                    return Step::Reply(Reply::bare(sendable(response.status)));
                }
                match read_declared_length(&response.content_length) {
                    None => Step::Reply(Reply::bare(500)),
                    Some(size) => {
                        self.size_cache.put(filed_as.as_str(), size);
                        Step::Reply(
                            Reply {
                                status: 200,
                                content_length: Some(render_i64(size)),
                                body: Body::Empty,
                            },
                        )
                    },
                }
            },
        }
    }
}

impl S3Handler {
    /// One step of GET for an object or a range of it. A population that
    /// starts gets the next serial number.
    pub fn get_object(
        &mut self,
        credentials: &Credentials,
        bucket: &str,
        key: &str,
        range: Option<&Vec<u8>>,
        epoch_seconds: u64,
        event: GetEvent,
    ) -> (step: GetStep)
        ensures
            step@ == get_step(
                old(self).endpoint_text(),
                credentials@,
                bucket@,
                key@,
                option_view(range),
                epoch_seconds,
                old(self).next_serial(),
                event@,
            ),
            final(self).next_serial() == serial_after(old(self).next_serial(), step@),
            final(self).sizes() == old(self).sizes(),
            final(self).slots() == old(self).slots(),
            final(self).endpoint_text() == old(self).endpoint_text(),
    {
        let range_text = match range {
            None => None,
            Some(bytes) => match read_header_text(bytes) {
                None => {
                    return GetStep::Reply(Reply::bare(400));
                },
                Some(text) => Some(text),
            },
        };
        let name = match &range_text {
            Some(r) => hash_filename(bucket, key, r.as_str()),
            None => hash_filename(bucket, key, ""),
        };
        proof {
            reveal_strlit("");
        }
        match event {
            GetEvent::Start => GetStep::Probe { path: entry_path(name.as_str()) },
            GetEvent::Cached { length } => GetStep::Reply(
                Reply {
                    status: 200,
                    content_length: Some(render_u64(length)),
                    body: Body::File(entry_path(name.as_str())),
                },
            ),
            GetEvent::Absent => {
                let uri = object_uri_of(self.endpoint.as_str(), bucket, key);
                let mut own: Vec<(String, String)> = Vec::new();
                match &range_text {
                    Some(r) => {
                        own.push((String::from_str("range"), r.clone()));
                    },
                    None => {},
                }
                assert(pairs_view(own@) =~= range_headers(option_view(range_text)));
                match self.request(Method::Get, credentials, uri.as_str(), &own, epoch_seconds) {
                    Ok(request) => GetStep::Send(request),
                    Err(_) => GetStep::Reply(Reply::bare(500)),
                }
            },
            GetEvent::Answer(Err(failure)) => GetStep::Reply(S3Handler::handle_sdk_error(&failure)),
            GetEvent::Answer(Ok(response)) => {
                if !status_is_success(response.status) {
                    return GetStep::Reply(Reply::bare(sendable(response.status)));
                }
                let length = match &response.content_length {
                    None => None,
                    Some(bytes) => read_header_text(bytes),
                };
                match length {
                    None => GetStep::Reply(Reply::bare(500)),
                    Some(length) => {
                        let serial = self.populations;
                        self.populations = if serial == u64::MAX {
                            0
                        } else {
                            serial + 1
                        };
                        GetStep::Tee {
                            reply: Reply {
                                status: 200,
                                content_length: Some(length),
                                body: Body::Stream,
                            },
                            population: Population::begin(name, serial),
                        }
                    },
                }
            },
        }
    }

    /// Files the size of each object of a listing of `bucket`.
    pub fn record_listing(&mut self, bucket: &str, listing: &ListBucketResult)
        ensures
            final(self).sizes() == match listing@.contents {
                Some(c) => with_sizes(old(self).sizes(), bucket@, c),
                None => old(self).sizes(),
            },
            final(self).slots() == old(self).slots(),
            final(self).endpoint_text() == old(self).endpoint_text(),
            final(self).next_serial() == old(self).next_serial(),
    {
        match &listing.contents {
            None => {},
            Some(contents) => {
                let ghost all = contents_view(contents@);
                let ghost start = self.sizes();
                let mut i: usize = 0;
                while i < contents.len()
                    invariant
                        i <= contents.len(),
                        all == contents_view(contents@),
                        self.sizes() == with_sizes(start, bucket@, all.take(i as int)),
                        self.slots() == old(self).slots(),
                        self.endpoint_text() == old(self).endpoint_text(),
                        self.next_serial() == old(self).next_serial(),
                    decreases contents.len() - i,
                {
                    proof {
                        assert(all.take(i + 1).drop_last() == all.take(i as int));
                    }
                    let filed_as = size_key_of(bucket, contents[i].key.as_str());
                    self.size_cache.put(filed_as.as_str(), contents[i].size);
                    i += 1;
                }
                assert(all.take(contents.len() as int) == all);
            },
        }
    }

    /// One step of LIST for a bucket, given the listing that the body of
    /// the answer spells.
    pub fn list_objects_with(
        &mut self,
        credentials: &Credentials,
        bucket: &str,
        prefix: &str,
        continuation_token: &Option<String>,
        start_after: &Option<String>,
        max_keys: Option<i32>,
        epoch_seconds: u64,
        answer: Option<&Result<BackendResponse, BackendFailure>>,
        listing: &Result<ListBucketResult, XmlError>,
    ) -> (step: Step)
        ensures
            (final(self).sizes(), step@) == list_step(
                old(self).sizes(),
                old(self).endpoint_text(),
                credentials@,
                bucket@,
                prefix@,
                option_view(*continuation_token),
                option_view(*start_after),
                max_keys,
                epoch_seconds,
                answer_view(answer),
                result_view(*listing),
            ),
            final(self).slots() == old(self).slots(),
            final(self).endpoint_text() == old(self).endpoint_text(),
            final(self).next_serial() == old(self).next_serial(),
    {
        match answer {
            None => {
                let mut uri = String::from_str(self.endpoint.as_str());
                uri.append(bucket);
                uri.append("?list-type=2&prefix=");
                uri.append(prefix);
                uri.append("&continuation-token=");
                match continuation_token {
                    Some(t) => uri.append(t.as_str()),
                    None => {},
                }
                uri.append("&start-after=");
                match start_after {
                    Some(t) => uri.append(t.as_str()),
                    None => {},
                }
                uri.append("&max-keys=");
                match max_keys {
                    Some(n) => {
                        let digits = render_i64(n as i64);
                        uri.append(digits.as_str());
                    },
                    None => {},
                }
                let own: Vec<(String, String)> = Vec::new();
                assert(pairs_view(own@) =~= Seq::<(Seq<char>, Seq<char>)>::empty());
                match self.request(Method::Get, credentials, uri.as_str(), &own, epoch_seconds) {
                    Ok(request) => Step::Send(request),
                    Err(_) => Step::Reply(Reply::bare(500)),
                }
            },
            Some(Err(failure)) => Step::Reply(S3Handler::handle_sdk_error(failure)),
            Some(Ok(response)) => {
                if status_is_success(response.status) {
                    match listing {
                        Ok(l) => self.record_listing(bucket, l),
                        Err(_) => {},
                    }
                }
                Step::Reply(
                    Reply {
                        status: sendable(response.status),
                        content_length: Some(render_u64(response.body.as_str().as_bytes().len() as u64)),
                        body: Body::Text(response.body.clone()),
                    },
                )
            },
        }
    }

    /// One step of LIST for a bucket. Without an answer it is the start:
    /// the handler asks the backend. With what the backend gave, it passes
    /// the answer on and files the sizes of the objects that it lists.
    pub fn list_objects(
        &mut self,
        credentials: &Credentials,
        bucket: &str,
        prefix: &str,
        continuation_token: &Option<String>,
        start_after: &Option<String>,
        max_keys: Option<i32>,
        epoch_seconds: u64,
        answer: Option<&Result<BackendResponse, BackendFailure>>,
    ) -> (step: Step)
        ensures
            (final(self).sizes(), step@) == list_step(
                old(self).sizes(),
                old(self).endpoint_text(),
                credentials@,
                bucket@,
                prefix@,
                option_view(*continuation_token),
                option_view(*start_after),
                max_keys,
                epoch_seconds,
                answer_view(answer),
                listing_in(answer_view(answer)),
            ),
            final(self).slots() == old(self).slots(),
            final(self).endpoint_text() == old(self).endpoint_text(),
            final(self).next_serial() == old(self).next_serial(),
    {
        let listing = match answer {
            Some(Ok(response)) => if status_is_success(response.status) {
                ListBucketResult::from_str(response.body.as_str())
            } else {
                Err(XmlError::NotWellFormed)
            },
            _ => Err(XmlError::NotWellFormed),
        };
        self.list_objects_with(
            credentials,
            bucket,
            prefix,
            continuation_token,
            start_after,
            max_keys,
            epoch_seconds,
            answer,
            &listing,
        )
    }
}

/// What a probe of the cache root reports for an entry.
pub open spec fn probe_of(disk: Map<Seq<char>, Seq<u8>>, name: Seq<char>) -> GetEventView {
    match entry_at(disk, final_path(name)) {
        Some(bytes) => GetEventView::Cached { length: bytes.len() as u64 },
        None => GetEventView::Absent,
    }
}

/// Once a GET has handed a whole backend response on, the entry of its
/// range holds the bytes of that response, which are the bytes that the
/// client was handed; and a second GET for the same bucket, key and range
/// is answered with the file of that entry, without a request to the
/// backend.
pub proof fn lemma_second_get_is_served_from_cache(
    disk: Map<Seq<char>, Seq<u8>>,
    endpoint: Seq<char>,
    credentials: CredentialsView,
    bucket: Seq<char>,
    key: Seq<char>,
    range: Option<Seq<char>>,
    epoch_seconds: u64,
    serial: u64,
    later_serial: u64,
    chunks: Seq<Seq<u8>>,
)
    ensures
        ({
            let name = cache_name(bucket, key, range_part(range));
            let world = world_after(
                quiet_world(disk),
                name,
                alone(serial, whole_response(chunks)),
            );
            let again = get_step_with(
                endpoint,
                credentials,
                bucket,
                key,
                range,
                epoch_seconds,
                later_serial,
                probe_of(world.disk, name),
            );
            &&& world.runs[serial].delivered == joined(chunks)
            &&& entry_at(world.disk, final_path(name)) == Some(joined(chunks))
            &&& again matches GetStepView::Reply(reply)
            &&& reply.status == 200
            &&& reply.body == BodyView::File(final_path(name))
            &&& reply.content_length == Some(decimal_digits((joined(chunks).len() as u64) as nat))
        }),
{
    let name = cache_name(bucket, key, range_part(range));
    lemma_whole_response_is_promoted(disk, name, serial, chunks);
}

/// When two or more GETs for the same bucket, key and range miss at once,
/// each fetches the object and hands it on, with their chunks arriving in
/// whatever order. Every client whose response has ended has been handed
/// exactly the object; once one response has ended the entry holds exactly
/// the object, and never anything else before; and a later GET is answered
/// with the file of that entry, without a request to the backend.
pub proof fn lemma_concurrent_gets_store_the_object(
    disk: Map<Seq<char>, Seq<u8>>,
    endpoint: Seq<char>,
    credentials: CredentialsView,
    bucket: Seq<char>,
    key: Seq<char>,
    range: Option<Seq<char>>,
    epoch_seconds: u64,
    later_serial: u64,
    trace: Seq<(u64, Happening)>,
    object: Seq<u8>,
)
    requires
        each_is_sent(trace, object),
        entry_at(disk, final_path(cache_name(bucket, key, range_part(range)))) is None,
    ensures
        ({
            let name = cache_name(bucket, key, range_part(range));
            let world = world_after(quiet_world(disk), name, trace);
            let again = get_step_with(
                endpoint,
                credentials,
                bucket,
                key,
                range,
                epoch_seconds,
                later_serial,
                probe_of(world.disk, name),
            );
            &&& forall|serial: u64| #[trigger]
                world.runs.contains_key(serial) && has_ended(world.runs[serial].phase)
                    ==> world.runs[serial].delivered == object
            &&& none_is_promoted(world) ==> entry_at(world.disk, final_path(name)) is None
            &&& !none_is_promoted(world) ==> {
                &&& entry_at(world.disk, final_path(name)) == Some(object)
                &&& again matches GetStepView::Reply(reply)
                &&& reply.status == 200
                &&& reply.body == BodyView::File(final_path(name))
                &&& reply.content_length == Some(decimal_digits((object.len() as u64) as nat))
            }
        }),
{
    let name = cache_name(bucket, key, range_part(range));
    lemma_concurrent_misses_store_the_object(disk, name, trace, object);
}

/// After a GET whose backend response was interrupted, a GET for the same
/// bucket, key and range finds no entry, if none was there before: it goes
/// to the backend again and serves no partial bytes.
pub proof fn lemma_interrupted_get_is_fetched_again(
    disk: Map<Seq<char>, Seq<u8>>,
    endpoint: Seq<char>,
    credentials: CredentialsView,
    bucket: Seq<char>,
    key: Seq<char>,
    range: Option<Seq<char>>,
    epoch_seconds: u64,
    serial: u64,
    later_serial: u64,
    events: Seq<(TeeEvent, Seq<u8>)>,
)
    requires
        is_interrupted(events),
        entry_at(disk, final_path(cache_name(bucket, key, range_part(range)))) is None,
    ensures
        ({
            let name = cache_name(bucket, key, range_part(range));
            let world = world_after(quiet_world(disk), name, alone(serial, events));
            let again = get_step_with(
                endpoint,
                credentials,
                bucket,
                key,
                range,
                epoch_seconds,
                later_serial,
                probe_of(world.disk, name),
            );
            &&& probe_of(world.disk, name) == GetEventView::Absent
            &&& again == send_or_fail_get(
                signed_request(
                    Method::Get,
                    object_uri(endpoint, bucket, key),
                    range_headers(range),
                    credentials,
                    epoch_seconds,
                ),
            )
        }),
{
    let name = cache_name(bucket, key, range_part(range));
    lemma_interrupted_is_not_promoted(disk, name, serial, events);
}

/// To send the request of a GET if it could be signed, else to answer 500.
pub open spec fn send_or_fail_get(request: Result<BackendRequestView, SignError>) -> GetStepView {
    match request {
        Ok(r) => GetStepView::Send(r),
        Err(_) => GetStepView::Reply(bare_reply(500)),
    }
}

/// A HEAD that the backend answers outside the 2xx class, or not at all,
/// puts no size on file.
pub proof fn lemma_failed_head_files_nothing(
    sizes: Map<Seq<char>, i64>,
    endpoint: Seq<char>,
    credentials: CredentialsView,
    bucket: Seq<char>,
    key: Seq<char>,
    epoch_seconds: u64,
    answer: Result<BackendResponseView, BackendFailure>,
)
    requires
        answer matches Ok(response) ==> !is_success(response.status),
    ensures
        head_step(sizes, endpoint, credentials, bucket, key, epoch_seconds, Some(answer)).0
            == sizes,
        head_step(sizes, endpoint, credentials, bucket, key, epoch_seconds, Some(answer)).1
            matches StepView::Reply(reply) && reply.body == BodyView::Empty,
{
}

} // verus!
