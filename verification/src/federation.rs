//! The exchange of an identity token for credentials: the request to the
//! identity service, and how credentials are read from its answer.

use vstd::prelude::*;
use chrono::{DateTime, Utc};
use crate::clock::Timestamp;
use crate::credentials::{Credentials, CredentialsError, CredentialsView};
use crate::message::{
    is_success, status_is_success, BackendFailure, BackendRequest, BackendRequestView,
    BackendResponse, Method,
};
use crate::text::{pairs_view, result_view, same_text};
use crate::xml::{
    missing_texts, no_fields, read_tokens, texts_view, tokens_view, xml_tokens, XmlError, XmlToken,
    XmlTokenView,
};

verus! {

/// The point in time that `chrono` reads from a text as a `DateTime<Utc>`:
/// its seconds since the Unix epoch and the nanoseconds within the second,
/// or `None` where the text spells no point in time.
pub uninterp spec fn chrono_instant(text: Seq<char>) -> Option<(i64, u32)>;

/// Parses a text with `DateTime<Utc>`'s `FromStr` and hands back what
/// `timestamp` and `timestamp_subsec_nanos` give.
#[verifier::external_body]
fn read_instant(text: &str) -> (t: Option<(i64, u32)>)
    ensures
        t == chrono_instant(text@),
{
    text.parse::<DateTime<Utc>>().ok().map(|t| (t.timestamp(), t.timestamp_subsec_nanos()))
}

/// Where in the answer of the identity service a reader stands.
pub enum EnvelopePlace {
    /// Before the root element.
    Prolog,
    /// Between the children of the root (level 1), of its
    /// `AssumeRoleWithWebIdentityResult` (level 2) or of the `Credentials`
    /// in there (level 3).
    Level(u8),
    /// In the field of the credentials with this number.
    Field(u8),
    /// In an element that is of no interest, `depth` elements deep below
    /// the given level.
    Skip { depth: nat, level: u8 },
    /// After the root element.
    Epilog,
    /// The document is refused.
    Failed(XmlError),
}

/// The number of the field of the credentials that an element name stands
/// for: the fields are `AccessKeyId`, `SecretAccessKey`, `SessionToken` and
/// `Expiration`.
pub open spec fn credential_field(name: Seq<char>) -> Option<u8> {
    if name == "AccessKeyId"@ {
        Some(0u8)
    } else if name == "SecretAccessKey"@ {
        Some(1u8)
    } else if name == "SessionToken"@ {
        Some(2u8)
    } else if name == "Expiration"@ {
        Some(3u8)
    } else {
        None
    }
}

/// What has been read of an answer so far: the place, the text of the field
/// that is being read, and the texts of the four fields by their numbers.
pub struct EnvelopeView {
    pub place: EnvelopePlace,
    pub text: Seq<char>,
    pub fields: Seq<Option<Seq<char>>>,
}

/// The envelope before anything is read.
pub open spec fn empty_envelope() -> EnvelopeView {
    EnvelopeView {
        place: EnvelopePlace::Prolog,
        text: Seq::empty(),
        fields: no_fields(4),
    }
}

/// The envelope after one more token. Comments and the like are passed
/// over, and so is text between elements. Any name will do for the root;
/// the credentials are looked for in its `AssumeRoleWithWebIdentityResult`,
/// in the `Credentials` in there. Every other element is skipped with all
/// that is in it.
pub open spec fn envelope_step(e: EnvelopeView, token: XmlTokenView) -> EnvelopeView {
    match e.place {
        EnvelopePlace::Failed(_) => e,
        _ => match token {
            XmlTokenView::Other => e,
            XmlTokenView::Invalid => EnvelopeView {
                place: EnvelopePlace::Failed(XmlError::NotWellFormed),
                ..e
            },
            XmlTokenView::Text(t) => match e.place {
                EnvelopePlace::Field(_) => EnvelopeView { text: e.text + t, ..e },
                _ => e,
            },
            XmlTokenView::Open(name) => match e.place {
                EnvelopePlace::Prolog => EnvelopeView { place: EnvelopePlace::Level(1), ..e },
                EnvelopePlace::Level(level) => if level == 1 && name
                    == "AssumeRoleWithWebIdentityResult"@ {
                    EnvelopeView { place: EnvelopePlace::Level(2), ..e }
                } else if level == 2 && name == "Credentials"@ {
                    EnvelopeView { place: EnvelopePlace::Level(3), ..e }
                } else if level == 3 && credential_field(name) is Some {
                    if e.fields[credential_field(name)->0 as int] is Some {
                        EnvelopeView { place: EnvelopePlace::Failed(XmlError::DuplicateField), ..e }
                    } else {
                        EnvelopeView {
                            place: EnvelopePlace::Field(credential_field(name)->0),
                            text: Seq::empty(),
                            ..e
                        }
                    }
                } else {
                    EnvelopeView { place: EnvelopePlace::Skip { depth: 1, level }, ..e }
                },
                EnvelopePlace::Field(_) => EnvelopeView {
                    place: EnvelopePlace::Failed(XmlError::UnexpectedElement),
                    ..e
                },
                EnvelopePlace::Skip { depth, level } => EnvelopeView {
                    place: EnvelopePlace::Skip { depth: depth + 1, level },
                    ..e
                },
                _ => EnvelopeView { place: EnvelopePlace::Failed(XmlError::NotWellFormed), ..e },
            },
            XmlTokenView::Close(_) => match e.place {
                EnvelopePlace::Level(level) => if level > 1 {
                    EnvelopeView { place: EnvelopePlace::Level((level - 1) as u8), ..e }
                } else {
                    EnvelopeView { place: EnvelopePlace::Epilog, ..e }
                },
                EnvelopePlace::Field(k) => EnvelopeView {
                    place: EnvelopePlace::Level(3),
                    text: Seq::empty(),
                    fields: e.fields.update(k as int, Some(e.text)),
                },
                EnvelopePlace::Skip { depth, level } => if depth > 1 {
                    EnvelopeView {
                        place: EnvelopePlace::Skip { depth: (depth - 1) as nat, level },
                        ..e
                    }
                } else {
                    EnvelopeView { place: EnvelopePlace::Level(level), ..e }
                },
                _ => EnvelopeView { place: EnvelopePlace::Failed(XmlError::NotWellFormed), ..e },
            },
        },
    }
}

/// The envelope after a run of tokens.
pub open spec fn envelope_after(e: EnvelopeView, tokens: Seq<XmlTokenView>) -> EnvelopeView
    decreases tokens.len(),
{
    if tokens.len() == 0 {
        e
    } else {
        envelope_step(envelope_after(e, tokens.drop_last()), tokens.last())
    }
}

/// The credentials that a finished envelope spells, given the point in
/// time that its `Expiration` spells. The document must have ended after
/// its root element and all four fields must be there.
pub open spec fn credentials_of_envelope(e: EnvelopeView, expiration: Option<(i64, u32)>) -> Result<
    CredentialsView,
    XmlError,
> {
    match e.place {
        EnvelopePlace::Failed(err) => Err(err),
        EnvelopePlace::Epilog => if e.fields[0] is None || e.fields[1] is None || e.fields[2]
            is None || e.fields[3] is None {
            Err(XmlError::MissingField)
        } else {
            match expiration {
                None => Err(XmlError::InvalidValue),
                Some(t) => Ok(
                    CredentialsView {
                        access_key_id: e.fields[0]->0,
                        secret_access_key: e.fields[1]->0,
                        session_token: e.fields[2]->0,
                        expiration: Timestamp { seconds: t.0, nanos: t.1 },
                    },
                ),
            }
        },
        _ => Err(XmlError::NotWellFormed),
    }
}

/// The text of the `Expiration` of an envelope, empty where it has none.
pub open spec fn expiration_text(e: EnvelopeView) -> Seq<char> {
    match e.fields[3] {
        Some(t) => t,
        None => Seq::empty(),
    }
}

/// The credentials that a run of tokens spells.
pub open spec fn credentials_of(tokens: Seq<XmlTokenView>) -> Result<CredentialsView, XmlError> {
    let e = envelope_after(empty_envelope(), tokens);
    credentials_of_envelope(e, chrono_instant(expiration_text(e)))
}

/// How deep in elements that are skipped a place is.
pub open spec fn envelope_depth(place: EnvelopePlace) -> nat {
    match place {
        EnvelopePlace::Skip { depth, .. } => depth,
        _ => 0,
    }
}

/// Where in the answer a reader stands, with the depth as a machine number.
#[derive(Clone, Copy)]
enum EnvelopeCursor {
    Prolog,
    Level(u8),
    Field(u8),
    Skip { depth: usize, level: u8 },
    Epilog,
    Failed(XmlError),
}

impl View for EnvelopeCursor {
    type V = EnvelopePlace;

    closed spec fn view(&self) -> EnvelopePlace {
        match self {
            EnvelopeCursor::Prolog => EnvelopePlace::Prolog,
            EnvelopeCursor::Level(level) => EnvelopePlace::Level(*level),
            EnvelopeCursor::Field(k) => EnvelopePlace::Field(*k),
            EnvelopeCursor::Skip { depth, level } => EnvelopePlace::Skip {
                depth: *depth as nat,
                level: *level,
            },
            EnvelopeCursor::Epilog => EnvelopePlace::Epilog,
            EnvelopeCursor::Failed(e) => EnvelopePlace::Failed(*e),
        }
    }
}

/// What has been read of an answer so far.
struct Envelope {
    place: EnvelopeCursor,
    text: String,
    fields: Vec<Option<String>>,
}

impl View for Envelope {
    type V = EnvelopeView;

    closed spec fn view(&self) -> EnvelopeView {
        EnvelopeView { place: self.place@, text: self.text@, fields: texts_view(self.fields@) }
    }
}

/// The number of the field of the credentials that an element name stands
/// for.
fn credential_field_number(name: &str) -> (k: Option<u8>)
    ensures
        k == credential_field(name@),
        k matches Some(n) ==> n < 4,
{
    if same_text(name, "AccessKeyId") {
        Some(0)
    } else if same_text(name, "SecretAccessKey") {
        Some(1)
    } else if same_text(name, "SessionToken") {
        Some(2)
    } else if same_text(name, "Expiration") {
        Some(3)
    } else {
        None
    }
}

impl Envelope {
    /// Whether the envelope has places for the four fields and is in the
    /// place of no other field.
    closed spec fn well_formed(&self) -> bool {
        &&& self.fields.len() == 4
        &&& self.place matches EnvelopeCursor::Field(k) ==> k < 4
    }

    /// The envelope before anything is read.
    fn new() -> (e: Envelope)
        ensures
            e.well_formed(),
            e@ == empty_envelope(),
    {
        Envelope { place: EnvelopeCursor::Prolog, text: String::new(), fields: missing_texts(4) }
    }

    /// Takes one more token in.
    fn feed(&mut self, token: &XmlToken)
        requires
            old(self).well_formed(),
            envelope_depth(old(self)@.place) < usize::MAX,
        ensures
            final(self).well_formed(),
            final(self)@ == envelope_step(old(self)@, token@),
    {
        if let EnvelopeCursor::Failed(_) = self.place {
            return ;
        }
        match token {
            XmlToken::Other => {},
            XmlToken::Invalid => {
                self.place = EnvelopeCursor::Failed(XmlError::NotWellFormed);
            },
            XmlToken::Text(t) => match self.place {
                EnvelopeCursor::Field(_) => {
                    self.text.append(t.as_str());
                },
                _ => {},
            },
            XmlToken::Open(name) => match self.place {
                EnvelopeCursor::Prolog => {
                    self.place = EnvelopeCursor::Level(1);
                },
                EnvelopeCursor::Level(level) => {
                    if level == 1 && same_text(name.as_str(), "AssumeRoleWithWebIdentityResult") {
                        self.place = EnvelopeCursor::Level(2);
                    } else if level == 2 && same_text(name.as_str(), "Credentials") {
                        self.place = EnvelopeCursor::Level(3);
                    } else {
                        let field = if level == 3 {
                            credential_field_number(name.as_str())
                        } else {
                            None
                        };
                        match field {
                            Some(k) => {
                                if self.fields[k as usize].is_some() {
                                    self.place = EnvelopeCursor::Failed(XmlError::DuplicateField);
                                } else {
                                    self.place = EnvelopeCursor::Field(k);
                                    self.text = String::new();
                                }
                            },
                            None => {
                                self.place = EnvelopeCursor::Skip { depth: 1, level };
                            },
                        }
                    }
                },
                EnvelopeCursor::Field(_) => {
                    self.place = EnvelopeCursor::Failed(XmlError::UnexpectedElement);
                },
                EnvelopeCursor::Skip { depth, level } => {
                    self.place = EnvelopeCursor::Skip { depth: depth + 1, level };
                },
                _ => {
                    self.place = EnvelopeCursor::Failed(XmlError::NotWellFormed);
                },
            },
            XmlToken::Close(_) => match self.place {
                EnvelopeCursor::Level(level) => {
                    if level > 1 {
                        self.place = EnvelopeCursor::Level(level - 1);
                    } else {
                        self.place = EnvelopeCursor::Epilog;
                    }
                },
                EnvelopeCursor::Field(k) => {
                    let mut text = String::new();
                    std::mem::swap(&mut text, &mut self.text);
                    let ghost before = self.fields@;
                    self.fields.set(k as usize, Some(text));
                    self.place = EnvelopeCursor::Level(3);
                    assert(texts_view(self.fields@) =~= texts_view(before).update(
                        k as int,
                        Some(text@),
                    ));
                },
                EnvelopeCursor::Skip { depth, level } => {
                    if depth > 1 {
                        self.place = EnvelopeCursor::Skip { depth: depth - 1, level };
                    } else {
                        self.place = EnvelopeCursor::Level(level);
                    }
                },
                _ => {
                    self.place = EnvelopeCursor::Failed(XmlError::NotWellFormed);
                },
            },
        }
    }

    /// The credentials that the envelope spells, once the document has
    /// ended.
    fn finish(&self) -> (r: Result<Credentials, XmlError>)
        requires
            self.well_formed(),
        ensures
            result_view(r) == credentials_of_envelope(
                self@,
                chrono_instant(expiration_text(self@)),
            ),
    {
        match self.place {
            EnvelopeCursor::Failed(e) => Err(e),
            EnvelopeCursor::Epilog => {
                match (&self.fields[0], &self.fields[1], &self.fields[2], &self.fields[3]) {
                    (Some(access_key_id), Some(secret_access_key), Some(session_token), Some(
                        expiration,
                    )) => {
                        match read_instant(expiration.as_str()) {
                            None => Err(XmlError::InvalidValue),
                            Some(t) => Ok(
                                Credentials {
                                    access_key_id: access_key_id.clone(),
                                    secret_access_key: secret_access_key.clone(),
                                    session_token: session_token.clone(),
                                    expiration: Timestamp { seconds: t.0, nanos: t.1 },
                                },
                            ),
                        }
                    },
                    _ => Err(XmlError::MissingField),
                }
            },
            _ => Err(XmlError::NotWellFormed),
        }
    }
}

/// The request that exchanges `token` for credentials at `endpoint`.
pub open spec fn federation_request(endpoint: Seq<char>, token: Seq<char>) -> BackendRequestView {
    BackendRequestView {
        method: Method::Post,
        uri: endpoint,
        query: seq![
            ("Action"@, "AssumeRoleWithWebIdentity"@),
            ("WebIdentityToken"@, token),
        ],
        headers: Seq::empty(),
    }
}

/// What the answer of the identity service amounts to, given the tokens of
/// its body: a call that failed or an answer outside the 2xx class is a
/// failed request with the status that was observed; a body that spells no
/// credentials cannot be parsed.
pub open spec fn federation_outcome(
    status: Result<u16, BackendFailure>,
    tokens: Seq<XmlTokenView>,
) -> Result<CredentialsView, CredentialsError> {
    match status {
        Err(failure) => Err(CredentialsError::RequestFailed(failure.status)),
        Ok(status) => if !is_success(status) {
            Err(CredentialsError::RequestFailed(Some(status)))
        } else {
            match credentials_of(tokens) {
                Ok(c) => Ok(c),
                Err(_) => Err(CredentialsError::CredentialsParse),
            }
        },
    }
}

/// The status of an answer, or the failure of the call.
pub open spec fn status_of(outcome: Result<BackendResponse, BackendFailure>) -> Result<
    u16,
    BackendFailure,
> {
    match outcome {
        Ok(response) => Ok(response.status),
        Err(failure) => Err(failure),
    }
}

/// The body of an answer, empty where the call failed.
pub open spec fn body_of(outcome: Result<BackendResponse, BackendFailure>) -> Seq<char> {
    match outcome {
        Ok(response) => response.body@,
        Err(_) => Seq::empty(),
    }
}

/// A step of the exchange of a token for credentials.
#[derive(Debug, PartialEq, Eq)]
pub enum FederationStep {
    /// Send this request, then come back with what it gave.
    Send(BackendRequest),
    /// The exchange has ended.
    Done(Result<Credentials, CredentialsError>),
}

/// `FederationStep` with its texts as sequences of characters.
pub enum FederationStepView {
    Send(BackendRequestView),
    Done(Result<CredentialsView, CredentialsError>),
}

impl View for FederationStep {
    type V = FederationStepView;

    open spec fn view(&self) -> FederationStepView {
        match self {
            FederationStep::Send(request) => FederationStepView::Send(request@),
            FederationStep::Done(r) => FederationStepView::Done(result_view(*r)),
        }
    }
}

impl Credentials {
    /// Reads credentials from the tokens of the answer of the identity
    /// service.
    pub fn from_tokens(tokens: &Vec<XmlToken>) -> (r: Result<Credentials, XmlError>)
        ensures
            result_view(r) == credentials_of(tokens_view(tokens@)),
    {
        let ghost all = tokens_view(tokens@);
        let mut envelope = Envelope::new();
        let mut i: usize = 0;
        while i < tokens.len()
            invariant
                i <= tokens.len(),
                all == tokens_view(tokens@),
                envelope.well_formed(),
                envelope@ == envelope_after(empty_envelope(), all.take(i as int)),
                envelope_depth(envelope@.place) <= i,
            decreases tokens.len() - i,
        {
            proof {
                assert(all.take(i + 1).drop_last() == all.take(i as int));
            }
            envelope.feed(&tokens[i]);
            i += 1;
        }
        assert(all.take(tokens.len() as int) == all);
        envelope.finish()
    }

    /// What a call to the identity service amounts to, given the tokens of
    /// the body of its answer.
    pub fn from_answer(status: Result<u16, BackendFailure>, tokens: &Vec<XmlToken>) -> (r: Result<
        Credentials,
        CredentialsError,
    >)
        ensures
            result_view(r) == federation_outcome(status, tokens_view(tokens@)),
    {
        match status {
            Err(failure) => Err(CredentialsError::RequestFailed(failure.status)),
            Ok(status) => {
                if !status_is_success(status) {
                    return Err(CredentialsError::RequestFailed(Some(status)));
                }
                match Credentials::from_tokens(tokens) {
                    Ok(c) => Ok(c),
                    Err(_) => Err(CredentialsError::CredentialsParse),
                }
            },
        }
    }

    /// One step of the exchange of `token` for credentials at `endpoint`.
    /// Without an answer it gives the request to send; with what the
    /// request gave, it gives the credentials or the error.
    pub fn from_token(
        endpoint: &str,
        token: &str,
        answer: Option<&Result<BackendResponse, BackendFailure>>,
    ) -> (step: FederationStep)
        ensures
            step@ == match answer {
                None => FederationStepView::Send(federation_request(endpoint@, token@)),
                Some(outcome) => FederationStepView::Done(
                    federation_outcome(status_of(*outcome), xml_tokens(body_of(*outcome))),
                ),
            },
    {
        match answer {
            None => {
                let mut query: Vec<(String, String)> = Vec::new();
                query.push(
                    (String::from_str("Action"), String::from_str("AssumeRoleWithWebIdentity")),
                );
                query.push((String::from_str("WebIdentityToken"), String::from_str(token)));
                let request = BackendRequest {
                    method: Method::Post,
                    uri: String::from_str(endpoint),
                    query,
                    headers: Vec::new(),
                };
                assert(pairs_view(request.query@) =~= federation_request(endpoint@, token@).query);
                assert(pairs_view(request.headers@) =~= federation_request(
                    endpoint@,
                    token@,
                ).headers);
                FederationStep::Send(request)
            },
            Some(Err(failure)) => FederationStep::Done(
                Credentials::from_answer(Err(*failure), &Vec::new()),
            ),
            Some(Ok(response)) => {
                let tokens = if status_is_success(response.status) {
                    read_tokens(response.body.as_str())
                } else {
                    Vec::new()
                };
                FederationStep::Done(Credentials::from_answer(Ok(response.status), &tokens))
            },
        }
    }
}

} // verus!
