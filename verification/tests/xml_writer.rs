use s3proxy::xml::{read_tokens, write_tokens, XmlError, XmlToken};
use s3proxy::xml_writer::{Content, ListBucketResult};

fn content(key: &str, size: i64) -> Content {
    Content {
        key: key.to_string(),
        last_modified: "2024-01-01T00:00:00.000Z".to_string(),
        e_tag: "\"etag\"".to_string(),
        size,
        storage_class: "STANDARD".to_string(),
    }
}

fn listing() -> ListBucketResult {
    ListBucketResult {
        name: "bucket".to_string(),
        prefix: Some("dir/".to_string()),
        delimiter: None,
        key_count: 2,
        is_truncated: true,
        continuation_token: None,
        next_continuation_token: Some("next".to_string()),
        start_after: None,
        contents: Some(vec![content("dir/a", 10), content("dir/b & <c>", -1)]),
    }
}

#[test]
fn listing_is_read_from_a_backend_answer() {
    let body = "<?xml version=\"1.0\" encoding=\"UTF-8\"?>\n\
        <ListBucketResult xmlns=\"http://s3.amazonaws.com/doc/2006-03-01/\">\n\
          <Name>bucket</Name>\n\
          <Prefix></Prefix>\n\
          <KeyCount>2</KeyCount>\n\
          <MaxKeys>1000</MaxKeys>\n\
          <IsTruncated>false</IsTruncated>\n\
          <Contents>\n\
            <Key>a.txt</Key>\n\
            <LastModified>2024-01-01T00:00:00.000Z</LastModified>\n\
            <ETag>&quot;abc&quot;</ETag>\n\
            <Size>12</Size>\n\
            <Owner><ID>me</ID><DisplayName>me</DisplayName></Owner>\n\
            <StorageClass>STANDARD</StorageClass>\n\
          </Contents>\n\
          <Contents>\n\
            <Key>b &amp; c</Key>\n\
            <LastModified>2024-01-02T00:00:00.000Z</LastModified>\n\
            <ETag>&quot;def&quot;</ETag>\n\
            <Size>34</Size>\n\
            <StorageClass>GLACIER</StorageClass>\n\
          </Contents>\n\
          <CommonPrefixes><Prefix>skipped/</Prefix></CommonPrefixes>\n\
        </ListBucketResult>\n";
    let l = ListBucketResult::from_str(body).unwrap();
    assert_eq!(l.name, "bucket");
    assert_eq!(l.prefix, Some(String::new()));
    assert_eq!(l.delimiter, None);
    assert_eq!(l.key_count, 2);
    assert!(!l.is_truncated);
    assert_eq!(l.continuation_token, None);
    assert_eq!(l.next_continuation_token, None);
    assert_eq!(l.start_after, None);
    assert_eq!(
        l.contents,
        Some(vec![
            Content {
                key: "a.txt".to_string(),
                last_modified: "2024-01-01T00:00:00.000Z".to_string(),
                e_tag: "\"abc\"".to_string(),
                size: 12,
                storage_class: "STANDARD".to_string(),
            },
            Content {
                key: "b & c".to_string(),
                last_modified: "2024-01-02T00:00:00.000Z".to_string(),
                e_tag: "\"def\"".to_string(),
                size: 34,
                storage_class: "GLACIER".to_string(),
            },
        ])
    );
}

#[test]
fn listing_without_objects_has_no_contents() {
    let l = ListBucketResult::from_str(
        "<R><Name>b</Name><KeyCount>0</KeyCount><IsTruncated>0</IsTruncated></R>",
    )
    .unwrap();
    assert_eq!(l.contents, None);
    assert_eq!(l.key_count, 0);
    assert!(!l.is_truncated);
}

#[test]
fn listing_is_written_in_the_order_of_the_schema() {
    assert_eq!(
        listing().to_xml(),
        "<ListBucketResult><Name>bucket</Name><Prefix>dir/</Prefix><KeyCount>2</KeyCount>\
         <IsTruncated>true</IsTruncated><NextContinuationToken>next</NextContinuationToken>\
         <Contents><Key>dir/a</Key><LastModified>2024-01-01T00:00:00.000Z</LastModified>\
         <ETag>&quot;etag&quot;</ETag><Size>10</Size><StorageClass>STANDARD</StorageClass></Contents>\
         <Contents><Key>dir/b &amp; &lt;c&gt;</Key><LastModified>2024-01-01T00:00:00.000Z</LastModified>\
         <ETag>&quot;etag&quot;</ETag><Size>-1</Size><StorageClass>STANDARD</StorageClass></Contents>\
         </ListBucketResult>"
    );
}

#[test]
fn absent_continuation_token_is_left_out_and_read_back_absent() {
    let mut l = listing();
    l.continuation_token = None;
    let document = l.to_xml();
    assert!(!document.contains("<ContinuationToken"));
    assert!(document.contains("<NextContinuationToken>"));
    let back = ListBucketResult::from_str(&document).unwrap();
    assert_eq!(back.continuation_token, None);
    assert_eq!(back, l);
}

#[test]
fn empty_continuation_token_is_read_back_empty() {
    let mut l = listing();
    l.continuation_token = Some(String::new());
    let document = l.to_xml();
    assert!(document.contains("<ContinuationToken></ContinuationToken>"));
    let back = ListBucketResult::from_str(&document).unwrap();
    assert_eq!(back.continuation_token, Some(String::new()));
    assert_eq!(back, l);
}

#[test]
fn listings_are_read_back_from_what_they_are_written_as() {
    let mut full = listing();
    full.delimiter = Some("/".to_string());
    full.continuation_token = Some("tok<en>".to_string());
    full.start_after = Some(" spaced '\" ".to_string());
    full.key_count = i32::MIN;
    full.is_truncated = false;
    let mut bare = listing();
    bare.prefix = None;
    bare.next_continuation_token = None;
    bare.contents = None;
    bare.name = String::new();
    for l in [listing(), full, bare] {
        assert_eq!(ListBucketResult::from_str(&l.to_xml()), Ok(l.clone()));
        assert_eq!(ListBucketResult::from_tokens(&l.to_tokens()), Ok(l));
    }
}

#[test]
fn empty_contents_are_read_back_as_none() {
    let mut l = listing();
    l.contents = Some(Vec::new());
    let back = ListBucketResult::from_str(&l.to_xml()).unwrap();
    assert_eq!(back.contents, None);
}

#[test]
fn tokens_of_a_listing_are_its_elements() {
    let l = ListBucketResult {
        name: "b".to_string(),
        prefix: None,
        delimiter: None,
        key_count: 0,
        is_truncated: false,
        continuation_token: None,
        next_continuation_token: None,
        start_after: Some(String::new()),
        contents: None,
    };
    let open = |n: &str| XmlToken::Open(n.to_string());
    let close = |n: &str| XmlToken::Close(n.to_string());
    let text = |t: &str| XmlToken::Text(t.to_string());
    assert_eq!(
        l.to_tokens(),
        vec![
            open("ListBucketResult"),
            open("Name"),
            text("b"),
            close("Name"),
            open("KeyCount"),
            text("0"),
            close("KeyCount"),
            open("IsTruncated"),
            text("false"),
            close("IsTruncated"),
            open("StartAfter"),
            close("StartAfter"),
            close("ListBucketResult"),
        ]
    );
}

#[test]
fn documents_that_are_no_listing_are_refused() {
    let parse = |s: &str| ListBucketResult::from_str(s).unwrap_err();
    assert_eq!(parse(""), XmlError::NotWellFormed);
    assert_eq!(parse("just text"), XmlError::NotWellFormed);
    assert_eq!(parse("<R><Name>b</Name>"), XmlError::NotWellFormed);
    assert_eq!(parse("<R><Name>b</Wrong></R>"), XmlError::NotWellFormed);
    assert_eq!(parse("<R></R><S></S>"), XmlError::NotWellFormed);
    assert_eq!(
        parse("<R><KeyCount>1</KeyCount><IsTruncated>true</IsTruncated></R>"),
        XmlError::MissingField
    );
    assert_eq!(parse("<R><Name>b</Name><IsTruncated>true</IsTruncated></R>"), XmlError::MissingField);
    assert_eq!(parse("<R><Name>b</Name><KeyCount>1</KeyCount></R>"), XmlError::MissingField);
    assert_eq!(
        parse("<R><Name>b</Name><Name>c</Name><KeyCount>1</KeyCount><IsTruncated>true</IsTruncated></R>"),
        XmlError::DuplicateField
    );
    assert_eq!(
        parse("<R><Name>b</Name><KeyCount>many</KeyCount><IsTruncated>true</IsTruncated></R>"),
        XmlError::InvalidValue
    );
    assert_eq!(
        parse("<R><Name>b</Name><KeyCount>1</KeyCount><IsTruncated>maybe</IsTruncated></R>"),
        XmlError::InvalidValue
    );
    assert_eq!(
        parse("<R><Name><b/></Name><KeyCount>1</KeyCount><IsTruncated>true</IsTruncated></R>"),
        XmlError::UnexpectedElement
    );
    let head = "<R><Name>b</Name><KeyCount>1</KeyCount><IsTruncated>true</IsTruncated>";
    assert_eq!(
        parse(&format!("{}<Contents><Key>k</Key></Contents></R>", head)),
        XmlError::MissingField
    );
    assert_eq!(
        parse(&format!(
            "{}<Contents><Key>k</Key><LastModified>t</LastModified><ETag>e</ETag>\
             <Size>big</Size><StorageClass>S</StorageClass></Contents></R>",
            head
        )),
        XmlError::InvalidValue
    );
    assert_eq!(
        parse(&format!("{}<Contents><Key>k</Key><Key>k</Key></Contents></R>", head)),
        XmlError::DuplicateField
    );
}

#[test]
fn text_is_written_with_entities() {
    let tokens = vec![
        XmlToken::Open("a".to_string()),
        XmlToken::Text("1 < 2 & \"x\" > 'y'".to_string()),
        XmlToken::Other,
        XmlToken::Close("a".to_string()),
    ];
    let document = write_tokens(&tokens);
    assert_eq!(document, "<a>1 &lt; 2 &amp; &quot;x&quot; &gt; &apos;y&apos;</a>");
    assert_eq!(
        read_tokens(&document),
        vec![
            XmlToken::Open("a".to_string()),
            XmlToken::Text("1 < 2 & \"x\" > 'y'".to_string()),
            XmlToken::Close("a".to_string()),
        ]
    );
}

#[test]
fn truth_is_read_in_all_its_spellings() {
    let read = |text: &str| {
        ListBucketResult::from_str(&format!(
            "<R><Name>b</Name><KeyCount>0</KeyCount><IsTruncated>{}</IsTruncated></R>",
            text
        ))
        .map(|l| l.is_truncated)
    };
    for text in ["true", "1", "True", "TRUE", "t", "Yes", "YES", "yes", "y"] {
        assert_eq!(read(text), Ok(true));
    }
    for text in ["false", "0", "False", "FALSE", "f", "No", "NO", "no", "n"] {
        assert_eq!(read(text), Ok(false));
    }
    for text in ["", "T", "F", "tRUE", "yEs", "Y", "N", "2", " true", "true "] {
        assert_eq!(read(text), Err(XmlError::InvalidValue));
    }
}
