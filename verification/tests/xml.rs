use s3proxy::xml::{read_tokens, XmlToken};

fn open(name: &str) -> XmlToken {
    XmlToken::Open(name.to_string())
}

fn close(name: &str) -> XmlToken {
    XmlToken::Close(name.to_string())
}

fn text(t: &str) -> XmlToken {
    XmlToken::Text(t.to_string())
}

#[test]
fn reads_elements_and_text() {
    let tokens = read_tokens("<a><b>x &amp; y</b><c/></a>");
    assert_eq!(
        tokens,
        vec![open("a"), open("b"), text("x & y"), close("b"), open("c"), close("c"), close("a")]
    );
}

#[test]
fn reads_declaration_comment_and_cdata() {
    let tokens = read_tokens("<?xml version=\"1.0\"?><!-- c --><a xmlns=\"urn:x\"><![CDATA[<raw>]]></a>");
    assert_eq!(tokens, vec![XmlToken::Other, XmlToken::Other, open("a"), text("<raw>"), close("a")]);
}

#[test]
fn strips_the_prefix_of_a_name() {
    let tokens = read_tokens("<s:a></s:a>");
    assert_eq!(tokens, vec![open("a"), close("a")]);
}

#[test]
fn stops_at_what_is_not_well_formed() {
    let tokens = read_tokens("<a><b></a>");
    assert_eq!(tokens, vec![open("a"), open("b"), XmlToken::Invalid]);
    let tokens = read_tokens("<a>&nosuch;</a><b/>");
    assert_eq!(tokens, vec![open("a"), XmlToken::Invalid]);
    let tokens = read_tokens("<a");
    assert_eq!(tokens.last(), Some(&XmlToken::Invalid));
}

#[test]
fn reads_nothing_from_an_empty_document() {
    assert_eq!(read_tokens(""), Vec::<XmlToken>::new());
    assert_eq!(read_tokens("  \n"), vec![text("  \n")]);
}
