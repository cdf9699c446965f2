//! Backend credentials: what they hold, how long they are valid, and how
//! the identity token that buys them is found in a request.

use vstd::prelude::*;
use crate::clock::Timestamp;
use crate::decimal::{decimal_digits, render_u64};
use crate::message::{
    check_header_text, find_header, header_text, header_value, is_header_text, is_success,
    read_header_text, status_is_success, BackendFailure, BackendRequest, BackendRequestView,
    BackendResponse, BackendResponseView, Header, Method,
};
use crate::text::{chars_of, lower, lowercase, pairs_view, result_view, string_of, to_lower};

verus! {

/// Why no credentials could be had.
#[derive(Clone, Copy, Debug, PartialEq, Eq)]
pub enum CredentialsError {
    /// The identity service answered with something that holds no
    /// credentials, or whoever was to fetch them gave up.
    CredentialsParse,
    /// The request carries no usable identity token.
    TokenMissing,
    /// The call to the identity service failed; the status is the one that
    /// was observed, if any.
    RequestFailed(Option<u16>),
}

impl CredentialsError {
    /// The text that describes the error.
    pub open spec fn message_text(self) -> Seq<char> {
        match self {
            CredentialsError::CredentialsParse => "Failed to parse credentials"@,
            CredentialsError::TokenMissing => "Token missing"@,
            CredentialsError::RequestFailed(Some(status)) => "Request failed with status code Some("@
                + decimal_digits(status as nat) + ")"@,
            CredentialsError::RequestFailed(None) => "Request failed with status code None"@,
        }
    }

    /// The text that describes the error.
    pub fn message(&self) -> (m: String)
        ensures
            m@ == self.message_text(),
    {
        match self {
            CredentialsError::CredentialsParse => String::from_str("Failed to parse credentials"),
            CredentialsError::TokenMissing => String::from_str("Token missing"),
            CredentialsError::RequestFailed(Some(status)) => {
                let mut m = String::from_str("Request failed with status code Some(");
                let digits = render_u64(*status as u64);
                m.append(digits.as_str());
                m.append(")");
                m
            },
            CredentialsError::RequestFailed(None) => String::from_str(
                "Request failed with status code None",
            ),
        }
    }
}

/// Short-lived credentials for the backend.
#[derive(Debug, PartialEq, Eq)]
pub struct Credentials {
    pub access_key_id: String,
    pub secret_access_key: String,
    pub session_token: String,
    pub expiration: Timestamp,
}

/// `Credentials` with its texts as sequences of characters.
pub struct CredentialsView {
    pub access_key_id: Seq<char>,
    pub secret_access_key: Seq<char>,
    pub session_token: Seq<char>,
    pub expiration: Timestamp,
}

impl View for Credentials {
    type V = CredentialsView;

    open spec fn view(&self) -> CredentialsView {
        CredentialsView {
            access_key_id: self.access_key_id@,
            secret_access_key: self.secret_access_key@,
            session_token: self.session_token@,
            expiration: self.expiration,
        }
    }
}

impl Clone for Credentials {
    fn clone(&self) -> (c: Credentials)
        ensures
            c@ == self@,
    {
        Credentials {
            access_key_id: self.access_key_id.clone(),
            secret_access_key: self.secret_access_key.clone(),
            session_token: self.session_token.clone(),
            expiration: self.expiration,
        }
    }
}

impl CredentialsView {
    /// Credentials are valid at `now` if and only if they expire after it.
    pub open spec fn valid_at(self, now: Timestamp) -> bool {
        now.is_before(self.expiration)
    }
}

/// The token that a request carries: the value of `x-amz-security-token`
/// if the request has that header, else the value of `authorization`
/// without a leading `Bearer ` (in any case of its letters). A value that is
/// not visible ASCII counts as no token.
pub open spec fn token_of(headers: Seq<Header>) -> Result<Seq<char>, CredentialsError> {
    match header_value(headers, "x-amz-security-token"@) {
        Some(value) => match header_text(value) {
            Some(text) => Ok(text),
            None => Err(CredentialsError::TokenMissing),
        },
        None => match header_value(headers, "authorization"@) {
            Some(value) => match header_text(value) {
                Some(text) => Ok(without_bearer(text)),
                None => Err(CredentialsError::TokenMissing),
            },
            None => Err(CredentialsError::TokenMissing),
        },
    }
}

/// Whether `text` begins with `bearer ` in any case of its letters.
pub open spec fn has_bearer(text: Seq<char>) -> bool {
    text.len() >= 7 && lowercase(text.take(7)) == "bearer "@
}

/// `text` without a leading `Bearer `.
pub open spec fn without_bearer(text: Seq<char>) -> Seq<char> {
    if has_bearer(text) {
        text.skip(7)
    } else {
        text
    }
}

/// Strips a leading `Bearer ` from `text`.
fn strip_bearer(text: &str) -> (r: String)
    ensures
        r@ == without_bearer(text@),
{
    let v = chars_of(text);
    let prefix = chars_of("bearer ");
    proof {
        reveal_strlit("bearer ");
    }
    if v.len() < 7 {
        return string_of(&v, 0, v.len());
    }
    let mut i: usize = 0;
    while i < 7
        invariant
            i <= 7 <= v.len(),
            v@ == text@,
            prefix@ == "bearer "@,
            prefix@.len() == 7,
            forall|j: int| 0 <= j < i ==> lower(v@[j]) == prefix@[j],
        decreases 7 - i,
    {
        if to_lower(v[i]) != prefix[i] {
            return string_of(&v, 0, v.len());
        }
        i += 1;
    }
    assert(lowercase(text@.take(7)) == "bearer "@);
    string_of(&v, 7, v.len())
}

impl Credentials {
    /// Builds credentials from their four parts.
    pub fn new(
        access_key_id: String,
        secret_access_key: String,
        session_token: String,
        expiration: Timestamp,
    ) -> (c: Credentials)
        ensures
            c@ == (CredentialsView {
                access_key_id: access_key_id@,
                secret_access_key: secret_access_key@,
                session_token: session_token@,
                expiration,
            }),
    {
        Credentials { access_key_id, secret_access_key, session_token, expiration }
    }

    /// Finds the identity token in the headers of a request.
    pub fn token_from_headers(headers: &Vec<Header>) -> (r: Result<String, CredentialsError>)
        ensures
            result_view(r) == token_of(headers@),
    {
        match find_header(headers, "x-amz-security-token") {
            Some(value) => match read_header_text(value) {
                Some(text) => Ok(text),
                None => Err(CredentialsError::TokenMissing),
            },
            None => match find_header(headers, "authorization") {
                Some(value) => match read_header_text(value) {
                    Some(text) => Ok(strip_bearer(text.as_str())),
                    None => Err(CredentialsError::TokenMissing),
                },
                None => Err(CredentialsError::TokenMissing),
            },
        }
    }

    /// Whether the credentials are no longer valid at `now`.
    pub fn is_expired(&self, now: Timestamp) -> (b: bool)
        ensures
            b == !self@.valid_at(now),
    {
        !now.before(&self.expiration)
    }
}

/// The attributes of a user that the identity service reports.
#[derive(Clone, Debug, PartialEq, Eq)]
struct UserAttributes {
    organization_rid: Vec<String>,
}

/// A user, as the identity service describes the bearer of a token.
#[derive(Clone, Debug, PartialEq, Eq)]
pub struct UserInfo {
    pub username: String,
    pub id: String,
    attributes: UserAttributes,
}

/// What a `UserInfo` holds: the user's name and id, and the organizations
/// that the user belongs to, in the order reported.
pub struct UserInfoView {
    pub username: Seq<char>,
    pub id: Seq<char>,
    pub organizations: Seq<Seq<char>>,
}

impl View for UserInfo {
    type V = UserInfoView;

    closed spec fn view(&self) -> UserInfoView {
        UserInfoView {
            username: self.username@,
            id: self.id@,
            organizations: Seq::new(
                self.attributes.organization_rid@.len(),
                |i: int| self.attributes.organization_rid@[i]@,
            ),
        }
    }
}

/// The request that asks the identity service who bears `token`, or
/// `TokenMissing` where the token cannot stand in the value of a header.
pub open spec fn user_info_request(token: Seq<char>) -> Result<BackendRequestView, CredentialsError> {
    if is_header_text(token) {
        Ok(
            BackendRequestView {
                method: Method::Get,
                uri: "https://ecosystem.athinia.com/multipass/api/me"@,
                query: Seq::empty(),
                headers: seq![("Authorization"@, "Bearer "@ + token)],
            },
        )
    } else {
        Err(CredentialsError::TokenMissing)
    }
}

/// The text in which the identity service describes a user, given what the
/// call gave: a call that failed or an answer outside the 2xx class is a
/// failed request with the status that was observed.
pub open spec fn user_info_text(answer: Result<BackendResponseView, BackendFailure>) -> Result<
    Seq<char>,
    CredentialsError,
> {
    match answer {
        Err(failure) => Err(CredentialsError::RequestFailed(failure.status)),
        Ok(response) => if is_success(response.status) {
            Ok(response.body)
        } else {
            Err(CredentialsError::RequestFailed(Some(response.status)))
        },
    }
}

impl UserInfo {
    /// The text in which the identity service describes a user, to be read
    /// as JSON by the caller.
    pub fn answer_text(answer: &Result<BackendResponse, BackendFailure>) -> (r: Result<
        &str,
        CredentialsError,
    >)
        ensures
            result_view(r) == user_info_text(result_view(*answer)),
    {
        match answer {
            Err(failure) => Err(CredentialsError::RequestFailed(failure.status)),
            Ok(response) => {
                if status_is_success(response.status) {
                    Ok(response.body.as_str())
                } else {
                    Err(CredentialsError::RequestFailed(Some(response.status)))
                }
            },
        }
    }

    /// A user with the given name, id and organizations.
    pub fn new(username: String, id: String, organization_rid: Vec<String>) -> (u: UserInfo)
        ensures
            u@.username == username@,
            u@.id == id@,
            u@.organizations.len() == organization_rid@.len(),
            forall|i: int|
                0 <= i < organization_rid@.len() ==> u@.organizations[i] == organization_rid@[i]@,
    {
        UserInfo { username, id, attributes: UserAttributes { organization_rid } }
    }

    /// The organizations of the user, in the order reported.
    pub fn organizations(&self) -> (all: &Vec<String>)
        ensures
            all@.len() == self@.organizations.len(),
            forall|i: int| 0 <= i < all@.len() ==> all@[i]@ == self@.organizations[i],
    {
        &self.attributes.organization_rid
    }

    /// Whether the user belongs to at least one organization.
    pub fn has_organization(&self) -> (b: bool)
        ensures
            b == (self@.organizations.len() > 0),
    {
        self.attributes.organization_rid.len() > 0
    }

    /// The first organization of the user.
    pub fn organization_rid(&self) -> (rid: &str)
        requires
            self@.organizations.len() > 0,
        ensures
            rid@ == self@.organizations[0],
    {
        self.attributes.organization_rid[0].as_str()
    }

    /// The request that asks the identity service who bears `token`.
    pub fn from_token(token: &str) -> (r: Result<BackendRequest, CredentialsError>)
        ensures
            result_view(r) == user_info_request(token@),
    {
        if !check_header_text(token) {
            return Err(CredentialsError::TokenMissing);
        }
        let mut value = String::from_str("Bearer ");
        value.append(token);
        let mut headers: Vec<(String, String)> = Vec::new();
        headers.push((String::from_str("Authorization"), value));
        let request = BackendRequest {
            method: Method::Get,
            uri: String::from_str("https://ecosystem.athinia.com/multipass/api/me"),
            query: Vec::new(),
            headers,
        };
        assert(pairs_view(request.query@) =~= Seq::<(Seq<char>, Seq<char>)>::empty());
        assert(pairs_view(request.headers@) =~= seq![("Authorization"@, "Bearer "@ + token@)]);
        Ok(request)
    }
}

} // verus!
