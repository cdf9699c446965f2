use s3proxy::message::{Body, Header, Method, Reply};
use s3proxy::query::{QueryError, SearchParameters};
use s3proxy::router::{route_request, route_with, split_path, Request, RouteAction, RouteEvent};

fn header(name: &str, value: &[u8]) -> Header {
    Header { name: name.to_string(), value: value.to_vec() }
}

fn request(method: Method, path: &str, query: &str) -> Request {
    Request {
        method,
        path: path.to_string(),
        query: query.to_string(),
        headers: vec![header("authorization", b"Bearer abc")],
    }
}

fn text_reply(status: u16, text: &str) -> RouteAction {
    RouteAction::Reply(Reply { status, content_length: None, body: Body::Text(text.to_string()) })
}

#[test]
fn path_splits_into_bucket_and_key() {
    assert_eq!(split_path("/bucket/key"), Some(("bucket".to_string(), "key".to_string())));
    assert_eq!(
        split_path("/bucket/dir/sub/key.txt"),
        Some(("bucket".to_string(), "dir/sub/key.txt".to_string()))
    );
    assert_eq!(split_path("/bucket"), Some(("bucket".to_string(), String::new())));
    assert_eq!(split_path("/bucket/"), Some(("bucket".to_string(), String::new())));
    assert_eq!(split_path("/"), Some((String::new(), String::new())));
    assert_eq!(split_path("//key"), Some((String::new(), "key".to_string())));
    assert_eq!(split_path("/bé/clé"), Some(("bé".to_string(), "clé".to_string())));
    assert_eq!(split_path(""), None);
    assert_eq!(split_path("*"), None);
    assert_eq!(split_path("bucket/key"), None);
}

#[test]
fn query_parameters_are_read_and_decoded() {
    let p = SearchParameters::parse(
        "list-type=2&prefix=a%20b%2Fc&continuation-token=t+1&start-after=k&max-keys=-7",
    )
    .unwrap();
    assert_eq!(p.list_type, Some(2));
    assert_eq!(p.prefix, Some("a b/c".to_string()));
    assert_eq!(p.continuation_token, Some("t 1".to_string()));
    assert_eq!(p.start_after, Some("k".to_string()));
    assert_eq!(p.max_keys, Some(-7));
}

#[test]
fn empty_query_sets_nothing() {
    let p = SearchParameters::parse("").unwrap();
    assert_eq!(
        p,
        SearchParameters {
            list_type: None,
            prefix: None,
            continuation_token: None,
            start_after: None,
            max_keys: None,
        }
    );
}

#[test]
fn query_errors_are_told_apart() {
    assert_eq!(SearchParameters::parse("versions=1"), Err(QueryError::UnknownField));
    assert_eq!(SearchParameters::parse("prefix=a&prefix=b"), Err(QueryError::DuplicateField));
    assert_eq!(SearchParameters::parse("list-type=two"), Err(QueryError::InvalidNumber));
    assert_eq!(SearchParameters::parse("list-type="), Err(QueryError::InvalidNumber));
    assert_eq!(SearchParameters::parse("list-type=256"), Err(QueryError::InvalidNumber));
    assert_eq!(SearchParameters::parse("max-keys=2147483648"), Err(QueryError::InvalidNumber));
    assert_eq!(
        SearchParameters::parse("list-type=x&list-type=2"),
        Err(QueryError::InvalidNumber)
    );
    assert_eq!(
        SearchParameters::parse("list-type=2&list-type=x"),
        Err(QueryError::DuplicateField)
    );
}

#[test]
fn pairs_are_taken_in_order() {
    let pairs = vec![
        ("prefix".to_string(), String::new()),
        ("max-keys".to_string(), "+10".to_string()),
    ];
    let p = SearchParameters::from_pairs(&pairs).unwrap();
    assert_eq!(p.prefix, Some(String::new()));
    assert_eq!(p.max_keys, Some(10));
    assert_eq!(SearchParameters::from_pairs(&Vec::new()).unwrap().prefix, None);
}

#[test]
fn arrival_asks_for_credentials() {
    let r = request(Method::Get, "/bucket/key", "");
    assert_eq!(
        route_request(&r, RouteEvent::Arrived),
        RouteAction::Authenticate { token: "abc".to_string() }
    );
}

#[test]
fn bad_query_is_answered_400_before_anything_else() {
    let mut r = request(Method::Get, "no-slash", "bogus=1");
    r.headers.clear();
    assert_eq!(
        route_request(&r, RouteEvent::Arrived),
        text_reply(400, "Failed to parse query string: unknown field")
    );
    assert_eq!(
        route_request(&request(Method::Get, "/b/k", "max-keys=x"), RouteEvent::Authorized),
        text_reply(400, "Failed to parse query string: invalid number")
    );
    assert_eq!(
        route_request(&request(Method::Get, "/b/k", "prefix=a&prefix=a"), RouteEvent::Arrived),
        text_reply(400, "Failed to parse query string: duplicate field")
    );
}

#[test]
fn missing_token_is_answered_400() {
    let mut r = request(Method::Get, "/bucket/key", "");
    r.headers.clear();
    assert_eq!(route_request(&r, RouteEvent::Arrived), text_reply(400, "Token missing"));
    assert_eq!(route_request(&r, RouteEvent::Authorized), text_reply(400, "Token missing"));
}

#[test]
fn refused_credentials_are_answered_401() {
    let r = request(Method::Get, "/bucket/key", "");
    assert_eq!(route_request(&r, RouteEvent::Refused), text_reply(401, "Unauthorized\n"));
}

#[test]
fn get_with_list_type_2_lists() {
    let r = request(Method::Get, "/bucket", "list-type=2&prefix=p&max-keys=5");
    assert_eq!(
        route_request(&r, RouteEvent::Authorized),
        RouteAction::List {
            bucket: "bucket".to_string(),
            prefix: "p".to_string(),
            continuation_token: None,
            start_after: None,
            max_keys: Some(5),
        }
    );
    let r = request(Method::Get, "/bucket/ignored", "list-type=2&continuation-token=c&start-after=s");
    assert_eq!(
        route_request(&r, RouteEvent::Authorized),
        RouteAction::List {
            bucket: "bucket".to_string(),
            prefix: String::new(),
            continuation_token: Some("c".to_string()),
            start_after: Some("s".to_string()),
            max_keys: None,
        }
    );
}

#[test]
fn other_get_gets_the_object_with_its_range() {
    let mut r = request(Method::Get, "/bucket/dir/key", "list-type=1");
    assert_eq!(
        route_request(&r, RouteEvent::Authorized),
        RouteAction::Get { bucket: "bucket".to_string(), key: "dir/key".to_string(), range: None }
    );
    r.query = String::new();
    r.headers.push(header("Range", b"bytes=0-9"));
    assert_eq!(
        route_request(&r, RouteEvent::Authorized),
        RouteAction::Get {
            bucket: "bucket".to_string(),
            key: "dir/key".to_string(),
            range: Some(b"bytes=0-9".to_vec()),
        }
    );
}

#[test]
fn head_gets_the_metadata() {
    let r = request(Method::Head, "/bucket/key", "list-type=2");
    assert_eq!(
        route_request(&r, RouteEvent::Authorized),
        RouteAction::Head { bucket: "bucket".to_string(), key: "key".to_string() }
    );
}

#[test]
fn other_methods_find_nothing_once_authorized() {
    for method in [Method::Post, Method::Other] {
        let r = request(method, "/bucket/key", "");
        assert_eq!(
            route_request(&r, RouteEvent::Arrived),
            RouteAction::Authenticate { token: "abc".to_string() }
        );
        assert_eq!(route_request(&r, RouteEvent::Authorized), text_reply(404, "Not found.\n"));
    }
}

#[test]
fn path_without_leading_slash_finds_nothing() {
    let r = request(Method::Get, "*", "");
    assert_eq!(route_request(&r, RouteEvent::Arrived), text_reply(404, "Not found.\n"));
}

#[test]
fn routing_goes_by_the_parameters_it_is_given() {
    let r = request(Method::Get, "/bucket/key", "this is not looked at");
    let listing = SearchParameters {
        list_type: Some(2),
        prefix: Some("x".to_string()),
        continuation_token: None,
        start_after: None,
        max_keys: None,
    };
    assert_eq!(
        route_with(&r, &Ok(listing), RouteEvent::Authorized),
        RouteAction::List {
            bucket: "bucket".to_string(),
            prefix: "x".to_string(),
            continuation_token: None,
            start_after: None,
            max_keys: None,
        }
    );
    assert_eq!(
        route_with(&r, &Err(QueryError::Malformed), RouteEvent::Authorized),
        text_reply(400, "Failed to parse query string: malformed query string")
    );
}
