use s3proxy::clock::Timestamp;
use s3proxy::credentials::{Credentials, CredentialsError};
use s3proxy::credentials_manager::{token_key_of, CredentialsManager, Lookup};

fn hex(bytes: &[u8]) -> String {
    let mut out = String::new();
    for b in bytes {
        out.push_str(&format!("{:02x}", b));
    }
    out
}

fn fresh(expiration_seconds: i64) -> Credentials {
    Credentials::new(
        "AKID".to_string(),
        "secret".to_string(),
        "session".to_string(),
        Timestamp::new(expiration_seconds, 0),
    )
}

#[test]
fn tokens_are_filed_under_their_blake3_digest() {
    assert_eq!(
        hex(&token_key_of("")),
        "af1349b9f5f9a1a6a0404dea36dcc9499bcb25c9adc112b7cc9a93cae41f3262"
    );
    assert_eq!(
        hex(&token_key_of("abc")),
        "6437b3ac38465133ffb63b75273a8db548c558465d79db03fd359c6cd5bd9d85"
    );
}

#[test]
fn new_manager_is_empty_and_keeps_its_endpoint() {
    let manager = CredentialsManager::new("https://identity.example.com/");
    assert_eq!(manager.len(), 0);
    assert_eq!(manager.endpoint(), "https://identity.example.com/");
}

#[test]
fn concurrent_callers_share_one_exchange() {
    let mut manager = CredentialsManager::new("https://identity.example.com/");
    let now = Timestamp::new(100, 0);
    assert_eq!(manager.get_credentials("abc", now), Lookup::Fetch);
    for _ in 0..5 {
        assert_eq!(manager.get_credentials("abc", now), Lookup::Wait);
    }
    assert_eq!(manager.len(), 1);
    assert!(manager.resolve("abc", Ok(fresh(3700))));
    for _ in 0..6 {
        assert_eq!(manager.get_credentials("abc", now), Lookup::Ready(fresh(3700)));
    }
    assert_eq!(manager.len(), 1);
}

#[test]
fn concurrent_callers_share_one_failure() {
    let mut manager = CredentialsManager::new("e");
    let now = Timestamp::new(100, 0);
    assert_eq!(manager.get_credentials("abc", now), Lookup::Fetch);
    assert_eq!(manager.get_credentials("abc", now), Lookup::Wait);
    assert!(manager.resolve("abc", Err(CredentialsError::RequestFailed(Some(403)))));
    for _ in 0..3 {
        assert_eq!(
            manager.get_credentials("abc", now),
            Lookup::Failed(CredentialsError::RequestFailed(Some(403)))
        );
    }
}

#[test]
fn a_failed_exchange_is_retried_only_after_it_is_discarded() {
    let mut manager = CredentialsManager::new("e");
    let now = Timestamp::new(100, 0);
    assert_eq!(manager.get_credentials("abc", now), Lookup::Fetch);
    assert!(manager.resolve("abc", Err(CredentialsError::CredentialsParse)));
    assert_eq!(
        manager.get_credentials("abc", now),
        Lookup::Failed(CredentialsError::CredentialsParse)
    );
    assert!(manager.discard_failed("abc"));
    assert_eq!(manager.len(), 0);
    assert!(!manager.discard_failed("abc"));
    assert_eq!(manager.get_credentials("abc", now), Lookup::Fetch);
}

#[test]
fn only_failed_slots_are_discarded() {
    let mut manager = CredentialsManager::new("e");
    let now = Timestamp::new(100, 0);
    assert_eq!(manager.get_credentials("pending", now), Lookup::Fetch);
    assert!(!manager.discard_failed("pending"));
    assert_eq!(manager.get_credentials("ready", now), Lookup::Fetch);
    assert!(manager.resolve("ready", Ok(fresh(1000))));
    assert!(!manager.discard_failed("ready"));
    assert_eq!(manager.len(), 2);
}

#[test]
fn expired_credentials_are_not_served_and_start_one_exchange() {
    let mut manager = CredentialsManager::new("e");
    assert_eq!(manager.get_credentials("abc", Timestamp::new(100, 0)), Lookup::Fetch);
    assert!(manager.resolve("abc", Ok(fresh(200))));
    assert_eq!(
        manager.get_credentials("abc", Timestamp::new(199, 999_999_999)),
        Lookup::Ready(fresh(200))
    );
    assert_eq!(manager.get_credentials("abc", Timestamp::new(200, 0)), Lookup::Fetch);
    assert_eq!(manager.get_credentials("abc", Timestamp::new(200, 0)), Lookup::Wait);
    assert_eq!(manager.get_credentials("abc", Timestamp::new(150, 0)), Lookup::Wait);
    assert_eq!(manager.len(), 1);
    assert!(manager.resolve("abc", Ok(fresh(4000))));
    assert_eq!(manager.get_credentials("abc", Timestamp::new(200, 0)), Lookup::Ready(fresh(4000)));
}

#[test]
fn a_slot_is_resolved_once() {
    let mut manager = CredentialsManager::new("e");
    let now = Timestamp::new(0, 0);
    assert!(!manager.resolve("abc", Ok(fresh(10))));
    assert_eq!(manager.len(), 0);
    assert_eq!(manager.get_credentials("abc", now), Lookup::Fetch);
    assert!(manager.resolve("abc", Ok(fresh(10))));
    assert!(!manager.resolve("abc", Ok(fresh(99))));
    assert_eq!(manager.get_credentials("abc", now), Lookup::Ready(fresh(10)));
}

#[test]
fn tokens_do_not_interfere() {
    let mut manager = CredentialsManager::new("e");
    let now = Timestamp::new(0, 0);
    assert_eq!(manager.get_credentials("one", now), Lookup::Fetch);
    assert_eq!(manager.get_credentials("two", now), Lookup::Fetch);
    assert_eq!(manager.get_credentials("one", now), Lookup::Wait);
    assert!(manager.resolve("two", Ok(fresh(50))));
    assert_eq!(manager.get_credentials("one", now), Lookup::Wait);
    assert_eq!(manager.get_credentials("two", now), Lookup::Ready(fresh(50)));
    assert_eq!(manager.len(), 2);
}
