use s3proxy::clock::Timestamp;
use s3proxy::content_cache::{entry_path, hash_filename, staging_path, Phase, TeeAction, TeeEvent};
use s3proxy::credentials::{Credentials, CredentialsError};
use s3proxy::credentials_manager::Lookup;
use s3proxy::message::{BackendFailure, BackendRequest, BackendResponse, Body, Method, Reply};
use s3proxy::s3_handler::{GetEvent, GetStep, S3Handler, Step};
use s3proxy::xml_writer::{Content, ListBucketResult};
use std::collections::HashMap;

const ENDPOINT: &str = "https://backend.example.com/";
const NOW: u64 = 1_704_067_200;

fn credentials() -> Credentials {
    Credentials::new(
        "AKIDEXAMPLE".to_string(),
        "wJalrXUtnFEMI/K7MDENG+bPxRfiCYEXAMPLEKEY".to_string(),
        "session-token-value".to_string(),
        Timestamp::new(NOW as i64 + 3600, 0),
    )
}

fn answer(status: u16, length: Option<&str>, body: &str) -> Result<BackendResponse, BackendFailure> {
    Ok(BackendResponse {
        status,
        content_length: length.map(|l| l.as_bytes().to_vec()),
        body: body.to_string(),
    })
}

fn bare(status: u16) -> Reply {
    Reply { status, content_length: None, body: Body::Empty }
}

fn sized(length: &str) -> Reply {
    Reply { status: 200, content_length: Some(length.to_string()), body: Body::Empty }
}

fn sent(step: Step) -> BackendRequest {
    match step {
        Step::Send(request) => request,
        other => panic!("expected a request, got {:?}", other),
    }
}

fn header<'a>(request: &'a BackendRequest, name: &str) -> Option<&'a str> {
    request.headers.iter().find(|h| h.0 == name).map(|h| h.1.as_str())
}

#[test]
fn backend_failure_maps_to_its_status_or_500() {
    assert_eq!(S3Handler::handle_sdk_error(&BackendFailure { status: Some(404) }), bare(404));
    assert_eq!(S3Handler::handle_sdk_error(&BackendFailure { status: None }), bare(500));
    assert_eq!(S3Handler::handle_sdk_error(&BackendFailure { status: Some(42) }), bare(500));
    assert_eq!(S3Handler::handle_sdk_error(&BackendFailure { status: Some(1000) }), bare(500));
}

#[test]
fn head_asks_the_backend_on_a_miss() {
    let mut handler = S3Handler::new(ENDPOINT);
    let request = sent(handler.head_object(&credentials(), "bucket", "dir/key", NOW, None));
    assert_eq!(request.method, Method::Head);
    assert_eq!(request.uri, "https://backend.example.com/bucket/dir/key");
    assert!(request.query.is_empty());
    assert_eq!(header(&request, "x-amz-date"), Some("20240101T000000Z"));
    assert_eq!(header(&request, "x-amz-security-token"), Some("session-token-value"));
    assert!(header(&request, "authorization").unwrap().starts_with("AWS4-HMAC-SHA256 "));
}

#[test]
fn head_request_carries_the_signature_of_a_head() {
    let mut handler = S3Handler::new(ENDPOINT);
    let request = sent(handler.head_object(&credentials(), "bucket", "key", NOW, None));
    assert_eq!(
        header(&request, "authorization"),
        Some(
            "AWS4-HMAC-SHA256 Credential=AKIDEXAMPLE/20240101/foundry/s3/aws4_request, \
             SignedHeaders=host;x-amz-date;x-amz-security-token, \
             Signature=2cd8cfbcec2e892a96a9c13d0c763c38807344e1d28871f0525ce1e92986af7a"
        )
    );
}

#[test]
fn head_files_the_size_and_answers_from_the_cache_afterwards() {
    let mut handler = S3Handler::new(ENDPOINT);
    let c = credentials();
    let step = handler.head_object(&c, "bucket", "key", NOW, Some(&answer(200, Some("1234"), "")));
    assert_eq!(step, Step::Reply(sized("1234")));
    assert_eq!(handler.head_object(&c, "bucket", "key", NOW, None), Step::Reply(sized("1234")));
    assert!(matches!(handler.head_object(&c, "bucket", "other", NOW, None), Step::Send(_)));
    assert!(matches!(handler.head_object(&c, "other", "key", NOW, None), Step::Send(_)));
}

#[test]
fn head_of_a_missing_key_is_404_and_files_nothing() {
    let mut handler = S3Handler::new(ENDPOINT);
    let c = credentials();
    assert!(matches!(handler.head_object(&c, "bucket", "missing-key", NOW, None), Step::Send(_)));
    let step =
        handler.head_object(&c, "bucket", "missing-key", NOW, Some(&answer(404, Some("0"), "")));
    assert_eq!(step, Step::Reply(bare(404)));
    assert!(matches!(handler.head_object(&c, "bucket", "missing-key", NOW, None), Step::Send(_)));
}

#[test]
fn head_passes_a_failed_call_on() {
    let mut handler = S3Handler::new(ENDPOINT);
    let c = credentials();
    let failed = Err(BackendFailure { status: None });
    assert_eq!(handler.head_object(&c, "b", "k", NOW, Some(&failed)), Step::Reply(bare(500)));
    let failed = Err(BackendFailure { status: Some(503) });
    assert_eq!(handler.head_object(&c, "b", "k", NOW, Some(&failed)), Step::Reply(bare(503)));
    assert!(matches!(handler.head_object(&c, "b", "k", NOW, None), Step::Send(_)));
}

#[test]
fn head_without_a_usable_length_is_500() {
    let mut handler = S3Handler::new(ENDPOINT);
    let c = credentials();
    for length in [None, Some("many"), Some(""), Some("12 "), Some("9223372036854775808")] {
        let step = handler.head_object(&c, "b", "k", NOW, Some(&answer(200, length, "")));
        assert_eq!(step, Step::Reply(bare(500)));
    }
    let raw = Ok(BackendResponse { status: 200, content_length: Some(vec![0xff]), body: String::new() });
    assert_eq!(handler.head_object(&c, "b", "k", NOW, Some(&raw)), Step::Reply(bare(500)));
    assert!(matches!(handler.head_object(&c, "b", "k", NOW, None), Step::Send(_)));
}

#[test]
fn head_that_cannot_be_signed_is_500() {
    let mut handler = S3Handler::new("no-scheme/");
    assert_eq!(handler.head_object(&credentials(), "b", "k", NOW, None), Step::Reply(bare(500)));
}

#[test]
fn get_probes_the_entry_of_its_range_first() {
    let mut handler = S3Handler::new(ENDPOINT);
    let c = credentials();
    let step = handler.get_object(&c, "bucket", "key", None, NOW, GetEvent::Start);
    assert_eq!(
        step,
        GetStep::Probe {
            path: "data/d9d9d975bf0d7fa618024b2ae34db440832e69c181e5ba315369a9991ce1a9a5".to_string()
        }
    );
    let range = b"bytes=0-9".to_vec();
    let step = handler.get_object(&c, "bucket", "key", Some(&range), NOW, GetEvent::Start);
    assert_eq!(
        step,
        GetStep::Probe {
            path: "data/25774b04cb85ae215eb30dac496cc9014dfeb9e4db076bce7537de1c91e9b503".to_string()
        }
    );
}

#[test]
fn get_serves_a_cached_entry_without_the_backend() {
    let mut handler = S3Handler::new(ENDPOINT);
    let step =
        handler.get_object(&credentials(), "bucket", "key", None, NOW, GetEvent::Cached { length: 11 });
    assert_eq!(
        step,
        GetStep::Reply(Reply {
            status: 200,
            content_length: Some("11".to_string()),
            body: Body::File(entry_path(&hash_filename("bucket", "key", ""))),
        })
    );
}

#[test]
fn get_asks_the_backend_for_an_absent_entry() {
    let mut handler = S3Handler::new(ENDPOINT);
    let c = credentials();
    match handler.get_object(&c, "bucket", "key", None, NOW, GetEvent::Absent) {
        GetStep::Send(request) => {
            assert_eq!(request.method, Method::Get);
            assert_eq!(request.uri, "https://backend.example.com/bucket/key");
            assert_eq!(header(&request, "range"), None);
            assert_eq!(
                header(&request, "authorization"),
                Some(
                    "AWS4-HMAC-SHA256 Credential=AKIDEXAMPLE/20240101/foundry/s3/aws4_request, \
                     SignedHeaders=host;x-amz-date;x-amz-security-token, \
                     Signature=896b54884378cb13af761adc4cae1771a91477a41d5018bba4f2a59bcf581665"
                )
            );
        }
        other => panic!("expected a request, got {:?}", other),
    }
    let range = b"bytes=0-9".to_vec();
    match handler.get_object(&c, "bucket", "key", Some(&range), NOW, GetEvent::Absent) {
        GetStep::Send(request) => {
            assert_eq!(header(&request, "range"), Some("bytes=0-9"));
            assert!(header(&request, "authorization").unwrap().contains("SignedHeaders=host;range;"));
        }
        other => panic!("expected a request, got {:?}", other),
    }
}

#[test]
fn get_hands_a_good_answer_on_and_stores_it() {
    let mut handler = S3Handler::new(ENDPOINT);
    let event = GetEvent::Answer(answer(200, Some("11"), ""));
    match handler.get_object(&credentials(), "bucket", "key", None, NOW, event) {
        GetStep::Tee { reply, population } => {
            assert_eq!(
                reply,
                Reply { status: 200, content_length: Some("11".to_string()), body: Body::Stream }
            );
            assert_eq!(population.name, hash_filename("bucket", "key", ""));
            assert_eq!(population.serial, 0);
            assert_eq!(population.phase, Phase::Teeing);
        }
        other => panic!("expected a tee, got {:?}", other),
    }
    let event = GetEvent::Answer(answer(206, Some("5"), ""));
    match handler.get_object(&credentials(), "bucket", "other", None, NOW, event) {
        GetStep::Tee { population, .. } => assert_eq!(population.serial, 1),
        other => panic!("expected a tee, got {:?}", other),
    }
}

#[test]
fn get_passes_backend_errors_on_with_an_empty_body() {
    let mut handler = S3Handler::new(ENDPOINT);
    let c = credentials();
    let mut step = |event| handler.get_object(&c, "bucket", "key", None, NOW, event);
    assert_eq!(step(GetEvent::Answer(answer(404, Some("5"), ""))), GetStep::Reply(bare(404)));
    assert_eq!(step(GetEvent::Answer(answer(500, None, ""))), GetStep::Reply(bare(500)));
    assert_eq!(
        step(GetEvent::Answer(Err(BackendFailure { status: Some(502) }))),
        GetStep::Reply(bare(502))
    );
    assert_eq!(
        step(GetEvent::Answer(Err(BackendFailure { status: None }))),
        GetStep::Reply(bare(500))
    );
    assert_eq!(step(GetEvent::Answer(answer(200, None, ""))), GetStep::Reply(bare(500)));
}

#[test]
fn get_refuses_a_range_that_is_no_text() {
    let mut handler = S3Handler::new(ENDPOINT);
    let range = vec![b'b', 0x80];
    for event in [GetEvent::Start, GetEvent::Absent, GetEvent::Cached { length: 1 }] {
        let step = handler.get_object(&credentials(), "bucket", "key", Some(&range), NOW, event);
        assert_eq!(step, GetStep::Reply(bare(400)));
    }
}

/// Plays the gateway for one GET against a disk and a backend that holds
/// `object`, and says what the client got and whether the backend was asked.
fn get(
    handler: &mut S3Handler,
    disk: &mut HashMap<String, Vec<u8>>,
    object: &[u8],
    cut_after: Option<usize>,
) -> (Reply, Vec<u8>, bool) {
    let c = credentials();
    let path = match handler.get_object(&c, "bucket", "key", None, NOW, GetEvent::Start) {
        GetStep::Probe { path } => path,
        other => panic!("expected a probe, got {:?}", other),
    };
    let probe = match disk.get(&path) {
        Some(bytes) => GetEvent::Cached { length: bytes.len() as u64 },
        None => GetEvent::Absent,
    };
    match handler.get_object(&c, "bucket", "key", None, NOW, probe) {
        GetStep::Reply(reply) => {
            let body = match &reply.body {
                Body::File(path) => disk.get(path).unwrap().clone(),
                _ => Vec::new(),
            };
            (reply, body, false)
        }
        GetStep::Send(_) => {
            let length = object.len().to_string();
            let event = GetEvent::Answer(answer(200, Some(&length), ""));
            match handler.get_object(&c, "bucket", "key", None, NOW, event) {
                GetStep::Tee { reply, mut population } => {
                    let temp = staging_path(&population.name, population.serial);
                    disk.insert(temp.clone(), Vec::new());
                    let mut delivered = Vec::new();
                    let mut events: Vec<(TeeEvent, &[u8])> = Vec::new();
                    for (i, chunk) in object.chunks(3).enumerate() {
                        if cut_after == Some(i) {
                            events.push((TeeEvent::BackendError, &[]));
                        }
                        events.push((TeeEvent::Chunk, chunk));
                    }
                    events.push((TeeEvent::End, &[]));
                    for (event, chunk) in events {
                        match population.on_event(event) {
                            TeeAction::Tee => {
                                delivered.extend_from_slice(chunk);
                                disk.get_mut(&temp).unwrap().extend_from_slice(chunk);
                            }
                            TeeAction::Deliver => delivered.extend_from_slice(chunk),
                            TeeAction::Promote => {
                                let bytes = disk.remove(&temp).unwrap();
                                disk.insert(entry_path(&population.name), bytes);
                                assert_eq!(population.on_event(TeeEvent::Stored), TeeAction::Ignore);
                            }
                            TeeAction::Discard | TeeAction::Abandon => {
                                disk.remove(&temp);
                            }
                            _ => {}
                        }
                    }
                    (reply, delivered, true)
                }
                other => panic!("expected a tee, got {:?}", other),
            }
        }
        other => panic!("unexpected step {:?}", other),
    }
}

#[test]
fn second_get_is_served_from_the_cache_with_the_same_bytes() {
    let mut handler = S3Handler::new(ENDPOINT);
    let mut disk = HashMap::new();
    let object = b"hello world";
    let (first, first_body, asked) = get(&mut handler, &mut disk, object, None);
    assert!(asked);
    assert_eq!(first.status, 200);
    assert_eq!(first.content_length, Some("11".to_string()));
    assert_eq!(first_body, object);
    let (second, second_body, asked_again) = get(&mut handler, &mut disk, b"changed at the backend", None);
    assert!(!asked_again);
    assert_eq!(second.status, 200);
    assert_eq!(second.content_length, first.content_length);
    assert_eq!(second_body, first_body);
    assert_eq!(disk.len(), 1);
    assert!(disk.contains_key(&entry_path(&hash_filename("bucket", "key", ""))));
}

#[test]
fn interrupted_get_is_fetched_again() {
    let mut handler = S3Handler::new(ENDPOINT);
    let mut disk = HashMap::new();
    let object = b"hello world";
    let (_, partial, asked) = get(&mut handler, &mut disk, object, Some(2));
    assert!(asked);
    assert_eq!(partial, b"hello ");
    assert!(disk.is_empty());
    let (_, whole, asked_again) = get(&mut handler, &mut disk, object, None);
    assert!(asked_again);
    assert_eq!(whole, object);
    assert_eq!(disk.len(), 1);
}

#[test]
fn two_gets_that_both_miss_store_one_entry() {
    let mut handler = S3Handler::new(ENDPOINT);
    let c = credentials();
    let mut disk: HashMap<String, Vec<u8>> = HashMap::new();
    let object = b"same bytes";
    let mut replies = Vec::new();
    let mut populations = Vec::new();
    for _ in 0..2 {
        assert!(matches!(
            handler.get_object(&c, "bucket", "key", None, NOW, GetEvent::Absent),
            GetStep::Send(_)
        ));
    }
    for _ in 0..2 {
        let event = GetEvent::Answer(answer(200, Some("10"), ""));
        match handler.get_object(&c, "bucket", "key", None, NOW, event) {
            GetStep::Tee { reply, population } => {
                disk.insert(staging_path(&population.name, population.serial), Vec::new());
                populations.push(population);
                replies.push(reply);
            }
            other => panic!("expected a tee, got {:?}", other),
        }
    }
    assert_ne!(populations[0].serial, populations[1].serial);
    assert_eq!(disk.len(), 2);
    let mut bodies = vec![Vec::new(), Vec::new()];
    for chunk in object.chunks(4) {
        for (i, population) in populations.iter_mut().enumerate() {
            assert_eq!(population.on_event(TeeEvent::Chunk), TeeAction::Tee);
            let temp = staging_path(&population.name, population.serial);
            disk.get_mut(&temp).unwrap().extend_from_slice(chunk);
            bodies[i].extend_from_slice(chunk);
        }
    }
    for population in populations.iter_mut() {
        assert_eq!(population.on_event(TeeEvent::End), TeeAction::Promote);
    }
    for population in populations.iter_mut().rev() {
        let bytes = disk.remove(&staging_path(&population.name, population.serial)).unwrap();
        disk.insert(entry_path(&population.name), bytes);
        assert_eq!(population.on_event(TeeEvent::Stored), TeeAction::Ignore);
        assert_eq!(population.phase, Phase::Promoted);
    }
    assert_eq!(replies[0], replies[1]);
    assert_eq!(replies[0].status, 200);
    assert_eq!(replies[0].content_length, Some("10".to_string()));
    assert_eq!(bodies[0], object);
    assert_eq!(bodies[1], object);
    assert_eq!(disk.len(), 1);
    assert_eq!(disk.get(&entry_path(&hash_filename("bucket", "key", ""))), Some(&object.to_vec()));
}

#[test]
fn one_token_and_two_concurrent_gets() {
    let mut handler = S3Handler::new(ENDPOINT);
    let now = Timestamp::new(NOW as i64, 0);
    let hour_later = Credentials::new(
        "AKIDEXAMPLE".to_string(),
        "secret".to_string(),
        "session".to_string(),
        Timestamp::new(NOW as i64 + 3600, 0),
    );
    assert_eq!(handler.get_credentials("abc", now), Lookup::Fetch);
    assert_eq!(handler.get_credentials("abc", now), Lookup::Wait);
    assert!(handler.resolve_credentials("abc", Ok(hour_later.clone())));
    let first = handler.get_credentials("abc", now);
    let second = handler.get_credentials("abc", now);
    assert_eq!(first, Lookup::Ready(hour_later.clone()));
    assert_eq!(second, first);
    let mut disk = HashMap::new();
    let (one, one_body, _) = get(&mut handler, &mut disk, b"object bytes", None);
    let (two, two_body, asked) = get(&mut handler, &mut disk, b"object bytes", None);
    assert!(!asked);
    assert_eq!((one.status, two.status), (200, 200));
    assert_eq!(one.content_length, two.content_length);
    assert_eq!(one_body, two_body);
    assert_eq!(disk.len(), 1);
}

fn listing_body() -> String {
    ListBucketResult {
        name: "bucket".to_string(),
        prefix: None,
        delimiter: None,
        key_count: 2,
        is_truncated: false,
        continuation_token: None,
        next_continuation_token: None,
        start_after: None,
        contents: Some(vec![
            Content {
                key: "a".to_string(),
                last_modified: "t".to_string(),
                e_tag: "e".to_string(),
                size: 10,
                storage_class: "S".to_string(),
            },
            Content {
                key: "dir/é".to_string(),
                last_modified: "t".to_string(),
                e_tag: "e".to_string(),
                size: 20,
                storage_class: "S".to_string(),
            },
        ]),
    }
    .to_xml()
}

#[test]
fn list_asks_the_backend_with_all_parameters() {
    let mut handler = S3Handler::new(ENDPOINT);
    let request = sent(handler.list_objects(
        &credentials(),
        "bucket",
        "a",
        &None,
        &None,
        None,
        NOW,
        None,
    ));
    assert_eq!(request.method, Method::Get);
    assert_eq!(
        request.uri,
        "https://backend.example.com/bucket?list-type=2&prefix=a&continuation-token=&start-after=&max-keys="
    );
    assert_eq!(
        header(&request, "authorization"),
        Some(
            "AWS4-HMAC-SHA256 Credential=AKIDEXAMPLE/20240101/foundry/s3/aws4_request, \
             SignedHeaders=host;x-amz-date;x-amz-security-token, \
             Signature=e65ffef3129b35e37529cf64da4e2f50183fe048ea2b4c25e7cd37cc747de664"
        )
    );
    let request = sent(handler.list_objects(
        &credentials(),
        "bucket",
        "p",
        &Some("ct".to_string()),
        &Some("sa".to_string()),
        Some(-5),
        NOW,
        None,
    ));
    assert_eq!(
        request.uri,
        "https://backend.example.com/bucket?list-type=2&prefix=p&continuation-token=ct&start-after=sa&max-keys=-5"
    );
}

#[test]
fn list_passes_the_answer_on_and_files_the_sizes() {
    let mut handler = S3Handler::new(ENDPOINT);
    let c = credentials();
    let body = listing_body();
    let step =
        handler.list_objects(&c, "bucket", "", &None, &None, None, NOW, Some(&answer(200, None, &body)));
    assert_eq!(
        step,
        Step::Reply(Reply {
            status: 200,
            content_length: Some(body.len().to_string()),
            body: Body::Text(body.clone()),
        })
    );
    assert_eq!(handler.head_object(&c, "bucket", "a", NOW, None), Step::Reply(sized("10")));
    assert_eq!(handler.head_object(&c, "bucket", "dir/é", NOW, None), Step::Reply(sized("20")));
    assert!(matches!(handler.head_object(&c, "other", "a", NOW, None), Step::Send(_)));
}

#[test]
fn list_counts_the_bytes_of_the_body() {
    let mut handler = S3Handler::new(ENDPOINT);
    let step = handler.list_objects(
        &credentials(),
        "bucket",
        "",
        &None,
        &None,
        None,
        NOW,
        Some(&answer(200, None, "é")),
    );
    assert_eq!(
        step,
        Step::Reply(Reply {
            status: 200,
            content_length: Some("2".to_string()),
            body: Body::Text("é".to_string()),
        })
    );
}

#[test]
fn list_files_nothing_from_an_error_or_a_body_that_is_no_listing() {
    let mut handler = S3Handler::new(ENDPOINT);
    let c = credentials();
    let body = listing_body();
    let step =
        handler.list_objects(&c, "bucket", "", &None, &None, None, NOW, Some(&answer(403, None, &body)));
    assert_eq!(
        step,
        Step::Reply(Reply {
            status: 403,
            content_length: Some(body.len().to_string()),
            body: Body::Text(body),
        })
    );
    assert!(matches!(handler.head_object(&c, "bucket", "a", NOW, None), Step::Send(_)));
    let step = handler.list_objects(
        &c,
        "bucket",
        "",
        &None,
        &None,
        None,
        NOW,
        Some(&answer(200, None, "<oops>")),
    );
    assert_eq!(
        step,
        Step::Reply(Reply {
            status: 200,
            content_length: Some("6".to_string()),
            body: Body::Text("<oops>".to_string()),
        })
    );
    let failed = Err(BackendFailure { status: Some(504) });
    assert_eq!(
        handler.list_objects(&c, "bucket", "", &None, &None, None, NOW, Some(&failed)),
        Step::Reply(bare(504))
    );
}

#[test]
fn later_listings_replace_sizes() {
    let mut handler = S3Handler::new(ENDPOINT);
    let c = credentials();
    let mut listing = ListBucketResult::from_str(&listing_body()).unwrap();
    handler.record_listing("bucket", &listing);
    listing.contents.as_mut().unwrap()[0].size = 11;
    listing.contents.as_mut().unwrap().push(Content {
        key: "a".to_string(),
        last_modified: "t".to_string(),
        e_tag: "e".to_string(),
        size: 12,
        storage_class: "S".to_string(),
    });
    handler.record_listing("bucket", &listing);
    assert_eq!(handler.head_object(&c, "bucket", "a", NOW, None), Step::Reply(sized("12")));
    assert_eq!(handler.head_object(&c, "bucket", "dir/é", NOW, None), Step::Reply(sized("20")));
}

#[test]
fn handler_keeps_one_credential_cache() {
    let mut handler = S3Handler::new(ENDPOINT);
    assert_eq!(handler.endpoint(), ENDPOINT);
    let now = Timestamp::new(NOW as i64, 0);
    assert_eq!(handler.get_credentials("abc", now), Lookup::Fetch);
    assert_eq!(handler.get_credentials("abc", now), Lookup::Wait);
    assert!(handler.resolve_credentials("abc", Ok(credentials())));
    assert_eq!(handler.get_credentials("abc", now), Lookup::Ready(credentials()));
    assert_eq!(handler.get_credentials("other", now), Lookup::Fetch);
    assert!(handler.resolve_credentials("other", Err(CredentialsError::RequestFailed(Some(401)))));
    assert_eq!(
        handler.get_credentials("other", now),
        Lookup::Failed(CredentialsError::RequestFailed(Some(401)))
    );
}

#[test]
fn request_is_the_signed_descriptor() {
    let mut handler = S3Handler::new(ENDPOINT);
    let own = vec![("Range".to_string(), "bytes=0-9".to_string())];
    let request = handler
        .request(Method::Get, &credentials(), "https://backend.example.com/bucket/key", &own, NOW)
        .unwrap();
    assert_eq!(request.method, Method::Get);
    assert_eq!(request.uri, "https://backend.example.com/bucket/key");
    assert_eq!(request.headers.len(), 4);
    assert_eq!(header(&request, "range"), Some("bytes=0-9"));
}

#[test]
fn list_with_a_prefix_too_long_to_sign_is_500() {
    let mut handler = S3Handler::new(ENDPOINT);
    let prefix = "/".repeat(22_000);
    let step = handler.list_objects(&credentials(), "bucket", &prefix, &None, &None, None, NOW, None);
    assert_eq!(step, Step::Reply(bare(500)));
    let step = handler.head_object(&credentials(), "bucket", &"k".repeat(14_000), NOW, None);
    assert_eq!(step, Step::Reply(bare(500)));
}

#[test]
fn request_with_too_many_headers_is_refused() {
    let handler = S3Handler::new(ENDPOINT);
    let own: Vec<(String, String)> =
        (0..6_551).map(|_| ("x-a".to_string(), "b".to_string())).collect();
    assert_eq!(
        handler.request(Method::Get, &credentials(), "https://backend.example.com/b/k", &own, NOW),
        Err(s3proxy::signer::SignError::TooManyHeaders)
    );
}

#[test]
fn signed_request_carries_date_authorization_and_token() {
    let handler = S3Handler::new(ENDPOINT);
    let own = vec![
        ("X-Amz-Security-Token".to_string(), "mine".to_string()),
        ("Authorization".to_string(), "mine".to_string()),
    ];
    let request = handler
        .request(Method::Get, &credentials(), "https://backend.example.com/b/k", &own, NOW)
        .unwrap();
    assert_eq!(header(&request, "x-amz-date"), Some("20240101T000000Z"));
    assert_eq!(header(&request, "x-amz-security-token"), Some("session-token-value"));
    assert!(header(&request, "authorization").unwrap().starts_with("AWS4-HMAC-SHA256 "));
    assert_eq!(request.headers.len(), 3);
}
