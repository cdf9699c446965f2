//! Plain descriptions of the HTTP messages that the gateway receives,
//! sends to the backend and answers with.

use vstd::prelude::*;
use crate::text::{chars_of, lowercase, option_view, pairs_view, same_ignoring_case};

verus! {

/// The method of a request.
#[derive(Clone, Copy, Debug, PartialEq, Eq, Structural)]
pub enum Method {
    Get,
    Head,
    Post,
    Other,
}

/// One header of an incoming request. The name is text; the value is kept
/// as the bytes that came over the wire.
#[derive(Clone, Debug, PartialEq, Eq)]
pub struct Header {
    pub name: String,
    pub value: Vec<u8>,
}

/// The value of the first header whose name is `name`, whatever the case of
/// its ASCII letters.
pub open spec fn header_value(headers: Seq<Header>, name: Seq<char>) -> Option<Seq<u8>>
    decreases headers.len(),
{
    if headers.len() == 0 {
        None
    } else if lowercase(headers[0].name@) == lowercase(name) {
        Some(headers[0].value@)
    } else {
        header_value(headers.drop_first(), name)
    }
}

/// Looks a header up by name.
pub fn find_header<'a>(headers: &'a Vec<Header>, name: &str) -> (r: Option<&'a Vec<u8>>)
    ensures
        option_view(r) == header_value(headers@, name@),
{
    let mut i: usize = 0;
    assert(headers@.skip(0) == headers@);
    while i < headers.len()
        invariant
            i <= headers.len(),
            header_value(headers@, name@) == header_value(headers@.skip(i as int), name@),
        decreases headers.len() - i,
    {
        if same_ignoring_case(headers[i].name.as_str(), name) {
            return Some(&headers[i].value);
        }
        assert(headers@.skip(i as int).drop_first() == headers@.skip(i + 1));
        i += 1;
    }
    None
}

/// Whether a byte is a printable ASCII character, a space or a tab: the
/// bytes that a header value may hold if it is to be read as text.
pub open spec fn is_visible_ascii(b: u8) -> bool {
    (32 <= b && b < 127) || b == 9
}

/// Whether every byte is visible ASCII.
pub open spec fn all_visible_ascii(bytes: Seq<u8>) -> bool {
    forall|i: int| 0 <= i < bytes.len() ==> is_visible_ascii(#[trigger] bytes[i])
}

/// The text whose characters are the given ASCII bytes.
pub open spec fn ascii_text(bytes: Seq<u8>) -> Seq<char> {
    Seq::new(bytes.len(), |i: int| bytes[i] as char)
}

/// The value of a header as text: `None` unless every byte is visible ASCII.
pub open spec fn header_text(bytes: Seq<u8>) -> Option<Seq<char>> {
    if all_visible_ascii(bytes) {
        Some(ascii_text(bytes))
    } else {
        None
    }
}

/// Reads the bytes of a header value as text.
pub fn read_header_text(bytes: &Vec<u8>) -> (r: Option<String>)
    ensures
        option_view(r) == header_text(bytes@),
{
    let mut s = String::new();
    let mut i: usize = 0;
    while i < bytes.len()
        invariant
            i <= bytes.len(),
            all_visible_ascii(bytes@.take(i as int)),
            s@ == ascii_text(bytes@.take(i as int)),
        decreases bytes.len() - i,
    {
        let b = bytes[i];
        if !((32 <= b && b < 127) || b == 9) {
            return None;
        }
        s.push(b as char);
        i += 1;
    }
    assert(bytes@.take(bytes.len() as int) == bytes@);
    Some(s)
}

/// Whether a text may stand in the value of a header that is sent: every
/// character is a printable ASCII character, a space or a tab.
pub open spec fn is_header_text(text: Seq<char>) -> bool {
    forall|i: int| 0 <= i < text.len() ==> is_header_char(#[trigger] text[i])
}

/// Whether a character may stand in the value of a header that is sent: it
/// is a printable ASCII character, a space or a tab.
pub open spec fn is_header_char(c: char) -> bool {
    (' ' <= c && c <= '~') || c == '\t'
}

/// Checks that a text may stand in the value of a header.
pub fn check_header_text(text: &str) -> (ok: bool)
    ensures
        ok == is_header_text(text@),
{
    let v = chars_of(text);
    let mut i: usize = 0;
    while i < v.len()
        invariant
            i <= v.len(),
            v@ == text@,
            forall|j: int| 0 <= j < i ==> is_header_char(#[trigger] v@[j]),
        decreases v.len() - i,
    {
        let c = v[i];
        if !((' ' <= c && c <= '~') || c == '\t') {
            return false;
        }
        i += 1;
    }
    true
}

/// A request that the gateway wants sent to the backend or to the identity
/// service. `query` holds pairs still to be encoded and appended to `uri`.
#[derive(Clone, Debug, PartialEq, Eq)]
pub struct BackendRequest {
    pub method: Method,
    pub uri: String,
    pub query: Vec<(String, String)>,
    pub headers: Vec<(String, String)>,
}

/// `BackendRequest` with its texts as sequences of characters.
pub struct BackendRequestView {
    pub method: Method,
    pub uri: Seq<char>,
    pub query: Seq<(Seq<char>, Seq<char>)>,
    pub headers: Seq<(Seq<char>, Seq<char>)>,
}

impl View for BackendRequest {
    type V = BackendRequestView;

    open spec fn view(&self) -> BackendRequestView {
        BackendRequestView {
            method: self.method,
            uri: self.uri@,
            query: pairs_view(self.query@),
            headers: pairs_view(self.headers@),
        }
    }
}

/// A backend call that produced no response; `status` is the status that
/// the transport attached to the failure, if any.
#[derive(Clone, Copy, Debug, PartialEq, Eq)]
pub struct BackendFailure {
    pub status: Option<u16>,
}

/// What a backend call returned when a response arrived: its status, the
/// bytes of its `content-length` header if it had one, and its body where
/// the body was read as text (empty otherwise).
#[derive(Clone, Debug, PartialEq, Eq)]
pub struct BackendResponse {
    pub status: u16,
    pub content_length: Option<Vec<u8>>,
    pub body: String,
}

/// `BackendResponse` with its texts as sequences.
pub struct BackendResponseView {
    pub status: u16,
    pub content_length: Option<Seq<u8>>,
    pub body: Seq<char>,
}

impl View for BackendResponse {
    type V = BackendResponseView;

    open spec fn view(&self) -> BackendResponseView {
        BackendResponseView {
            status: self.status,
            content_length: option_view(self.content_length),
            body: self.body@,
        }
    }
}

/// What a backend call gave, if it has been made: the view of the response
/// or the failure.
pub open spec fn answer_view(answer: Option<&Result<BackendResponse, BackendFailure>>) -> Option<
    Result<BackendResponseView, BackendFailure>,
> {
    match answer {
        None => None,
        Some(Ok(response)) => Some(Ok(response@)),
        Some(Err(failure)) => Some(Err(*failure)),
    }
}

/// The status that goes out for a status that came in: the same if it has
/// three digits, else 500.
pub open spec fn sendable_status(status: u16) -> u16 {
    if 100 <= status <= 999 {
        status
    } else {
        500
    }
}

/// The status that goes out for a status that came in.
pub fn sendable(status: u16) -> (s: u16)
    ensures
        s == sendable_status(status),
{
    if 100 <= status && status <= 999 {
        status
    } else {
        500
    }
}

/// Whether a status code is in the 2xx class.
pub open spec fn is_success(status: u16) -> bool {
    200 <= status < 300
}

/// Whether a status code is in the 2xx class.
pub fn status_is_success(status: u16) -> (b: bool)
    ensures
        b == is_success(status),
{
    200 <= status && status < 300
}

/// The body of an answer to the client.
#[derive(Clone, Debug, PartialEq, Eq)]
pub enum Body {
    /// No bytes.
    Empty,
    /// The given text.
    Text(String),
    /// The bytes of the file at the given path.
    File(String),
    /// The bytes of the backend response, as they arrive.
    Stream,
}

/// `Body` with its texts as sequences of characters.
pub enum BodyView {
    Empty,
    Text(Seq<char>),
    File(Seq<char>),
    Stream,
}

impl View for Body {
    type V = BodyView;

    open spec fn view(&self) -> BodyView {
        match self {
            Body::Empty => BodyView::Empty,
            Body::Text(t) => BodyView::Text(t@),
            Body::File(p) => BodyView::File(p@),
            Body::Stream => BodyView::Stream,
        }
    }
}

/// An answer to the client.
#[derive(Clone, Debug, PartialEq, Eq)]
pub struct Reply {
    pub status: u16,
    /// The value of the `content-length` header, where one is set.
    pub content_length: Option<String>,
    pub body: Body,
}

/// `Reply` with its texts as sequences of characters.
pub struct ReplyView {
    pub status: u16,
    pub content_length: Option<Seq<char>>,
    pub body: BodyView,
}

impl View for Reply {
    type V = ReplyView;

    open spec fn view(&self) -> ReplyView {
        ReplyView {
            status: self.status,
            content_length: option_view(self.content_length),
            body: self.body@,
        }
    }
}

/// The answer with the given status, no `content-length` header and no
/// body.
pub open spec fn bare_reply(status: u16) -> ReplyView {
    ReplyView { status, content_length: None, body: BodyView::Empty }
}

/// The answer with the given status and text body, and no `content-length`
/// header.
pub open spec fn text_reply(status: u16, text: Seq<char>) -> ReplyView {
    ReplyView { status, content_length: None, body: BodyView::Text(text) }
}

/// The answer with the given status and `content-length` header, and no
/// body.
pub open spec fn sized_reply(status: u16, length: Seq<char>) -> ReplyView {
    ReplyView { status, content_length: Some(length), body: BodyView::Empty }
}

impl Reply {
    /// An answer without header or body.
    pub fn bare(status: u16) -> (r: Reply)
        ensures
            r@ == bare_reply(status),
    {
        Reply { status, content_length: None, body: Body::Empty }
    }

    /// An answer whose body is `text`.
    pub fn text(status: u16, text: String) -> (r: Reply)
        ensures
            r@ == text_reply(status, text@),
    {
        Reply { status, content_length: None, body: Body::Text(text) }
    }
}

} // verus!
