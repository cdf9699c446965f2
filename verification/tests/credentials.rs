use s3proxy::clock::Timestamp;
use s3proxy::credentials::{Credentials, CredentialsError, UserInfo};
use s3proxy::message::{check_header_text, BackendFailure, BackendResponse, Header, Method};

fn header(name: &str, value: &[u8]) -> Header {
    Header { name: name.to_string(), value: value.to_vec() }
}

fn sample(expiration: Timestamp) -> Credentials {
    Credentials::new("AKID".to_string(), "secret".to_string(), "session".to_string(), expiration)
}

#[test]
fn token_comes_from_the_security_token_header_first() {
    let headers = vec![
        header("authorization", b"Bearer from-authorization"),
        header("x-amz-security-token", b"from-security-token"),
    ];
    assert_eq!(Credentials::token_from_headers(&headers), Ok("from-security-token".to_string()));
}

#[test]
fn token_comes_from_authorization_otherwise() {
    let headers = vec![header("host", b"gateway"), header("authorization", b"plain-token")];
    assert_eq!(Credentials::token_from_headers(&headers), Ok("plain-token".to_string()));
}

#[test]
fn bearer_prefix_is_stripped_in_any_case() {
    for value in ["Bearer abc", "bearer abc", "BEARER abc", "bEaReR abc"] {
        let headers = vec![header("Authorization", value.as_bytes())];
        assert_eq!(Credentials::token_from_headers(&headers), Ok("abc".to_string()));
    }
}

#[test]
fn only_a_whole_bearer_prefix_is_stripped() {
    let headers = vec![header("authorization", b"Bearerabc")];
    assert_eq!(Credentials::token_from_headers(&headers), Ok("Bearerabc".to_string()));
    let headers = vec![header("authorization", b"Bearer ")];
    assert_eq!(Credentials::token_from_headers(&headers), Ok(String::new()));
    let headers = vec![header("authorization", b"Bear")];
    assert_eq!(Credentials::token_from_headers(&headers), Ok("Bear".to_string()));
}

#[test]
fn security_token_keeps_a_bearer_prefix() {
    let headers = vec![header("x-amz-security-token", b"Bearer abc")];
    assert_eq!(Credentials::token_from_headers(&headers), Ok("Bearer abc".to_string()));
}

#[test]
fn missing_token_is_reported() {
    let headers = vec![header("host", b"gateway")];
    assert_eq!(Credentials::token_from_headers(&headers), Err(CredentialsError::TokenMissing));
    assert_eq!(Credentials::token_from_headers(&Vec::new()), Err(CredentialsError::TokenMissing));
}

#[test]
fn token_that_is_not_visible_ascii_counts_as_missing() {
    let headers = vec![header("authorization", &[b'a', 0xff, b'b'])];
    assert_eq!(Credentials::token_from_headers(&headers), Err(CredentialsError::TokenMissing));
    let headers = vec![
        header("x-amz-security-token", &[0x7f]),
        header("authorization", b"Bearer good"),
    ];
    assert_eq!(Credentials::token_from_headers(&headers), Err(CredentialsError::TokenMissing));
    let headers = vec![header("authorization", b"with\ttab")];
    assert_eq!(Credentials::token_from_headers(&headers), Ok("with\ttab".to_string()));
}

#[test]
fn first_header_of_a_name_wins() {
    let headers = vec![header("authorization", b"first"), header("authorization", b"second")];
    assert_eq!(Credentials::token_from_headers(&headers), Ok("first".to_string()));
}

#[test]
fn credentials_expire_at_their_expiration() {
    let c = sample(Timestamp::new(1000, 500));
    assert!(!c.is_expired(Timestamp::new(999, 999_999_999)));
    assert!(!c.is_expired(Timestamp::new(1000, 499)));
    assert!(c.is_expired(Timestamp::new(1000, 500)));
    assert!(c.is_expired(Timestamp::new(1000, 501)));
    assert!(c.is_expired(Timestamp::new(1001, 0)));
    let early = sample(Timestamp::new(-5, 0));
    assert!(early.is_expired(Timestamp::new(0, 0)));
    assert!(!early.is_expired(Timestamp::new(-6, 999)));
}

#[test]
fn timestamps_compare_by_seconds_then_nanos() {
    assert!(Timestamp::new(1, 0).before(&Timestamp::new(2, 0)));
    assert!(Timestamp::new(1, 5).before(&Timestamp::new(1, 6)));
    assert!(!Timestamp::new(1, 6).before(&Timestamp::new(1, 6)));
    assert!(!Timestamp::new(2, 0).before(&Timestamp::new(1, 999)));
}

#[test]
fn credentials_compare_by_value() {
    let a = sample(Timestamp::new(10, 0));
    let b = a.clone();
    assert_eq!(a, b);
    assert_ne!(a, sample(Timestamp::new(11, 0)));
}

#[test]
fn errors_describe_themselves() {
    assert_eq!(CredentialsError::CredentialsParse.message(), "Failed to parse credentials");
    assert_eq!(CredentialsError::TokenMissing.message(), "Token missing");
    assert_eq!(
        CredentialsError::RequestFailed(Some(403)).message(),
        "Request failed with status code Some(403)"
    );
    assert_eq!(
        CredentialsError::RequestFailed(None).message(),
        "Request failed with status code None"
    );
}

#[test]
fn user_reports_its_first_organization() {
    let user = UserInfo::new(
        "alice".to_string(),
        "id-1".to_string(),
        vec!["ri.org.first".to_string(), "ri.org.second".to_string()],
    );
    assert!(user.has_organization());
    assert_eq!(user.organization_rid(), "ri.org.first");
    assert_eq!(user.username, "alice");
    assert_eq!(user.id, "id-1");
    let nobody = UserInfo::new("bob".to_string(), "id-2".to_string(), Vec::new());
    assert!(!nobody.has_organization());
}

#[test]
fn user_request_carries_the_token_as_bearer() {
    let request = UserInfo::from_token("abc").unwrap();
    assert_eq!(request.method, Method::Get);
    assert_eq!(request.uri, "https://ecosystem.athinia.com/multipass/api/me");
    assert!(request.query.is_empty());
    assert_eq!(request.headers, vec![("Authorization".to_string(), "Bearer abc".to_string())]);
}

#[test]
fn user_request_refuses_a_token_with_control_characters() {
    assert_eq!(UserInfo::from_token("a\nb"), Err(CredentialsError::TokenMissing));
    assert_eq!(UserInfo::from_token("a\u{7f}b"), Err(CredentialsError::TokenMissing));
    assert_eq!(UserInfo::from_token("a\u{e9}b"), Err(CredentialsError::TokenMissing));
    assert!(UserInfo::from_token("a\tb ~").is_ok());
    assert!(!check_header_text("\u{80}"));
    assert!(check_header_text(""));
    assert!(!check_header_text("\u{0}"));
}

#[test]
fn user_answer_gives_its_body_only_on_success() {
    let good = Ok(BackendResponse { status: 200, content_length: None, body: "{}".to_string() });
    assert_eq!(UserInfo::answer_text(&good), Ok("{}"));
    let denied = Ok(BackendResponse { status: 403, content_length: None, body: "no".to_string() });
    assert_eq!(UserInfo::answer_text(&denied), Err(CredentialsError::RequestFailed(Some(403))));
    let failed = Err(BackendFailure { status: None });
    assert_eq!(UserInfo::answer_text(&failed), Err(CredentialsError::RequestFailed(None)));
}
