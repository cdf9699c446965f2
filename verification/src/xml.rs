//! XML as a run of tokens: what `quick_xml` reads from a document, and the
//! text that a run of tokens is written as.

use vstd::prelude::*;
use crate::text::{chars_of, option_view};
use quick_xml::events::Event;
use quick_xml::Reader;

verus! {

/// One piece of an XML document.
#[derive(Clone, Debug, PartialEq, Eq)]
pub enum XmlToken {
    /// The start of an element, with its name without prefix. An element
    /// written as an empty tag gives `Open`, then `Close`.
    Open(String),
    /// The end of an element, with its name without prefix.
    Close(String),
    /// Character data, with its escapes resolved.
    Text(String),
    /// A comment, a declaration, a processing instruction or a document
    /// type.
    Other,
    /// Something that is not well-formed, after which nothing is read.
    Invalid,
}

/// `XmlToken` with its texts as sequences of characters.
pub enum XmlTokenView {
    Open(Seq<char>),
    Close(Seq<char>),
    Text(Seq<char>),
    Other,
    Invalid,
}

impl View for XmlToken {
    type V = XmlTokenView;

    open spec fn view(&self) -> XmlTokenView {
        match self {
            XmlToken::Open(n) => XmlTokenView::Open(n@),
            XmlToken::Close(n) => XmlTokenView::Close(n@),
            XmlToken::Text(t) => XmlTokenView::Text(t@),
            XmlToken::Other => XmlTokenView::Other,
            XmlToken::Invalid => XmlTokenView::Invalid,
        }
    }
}

/// Why a document does not spell what it is read for.
#[derive(Clone, Copy, Debug, PartialEq, Eq, Structural)]
pub enum XmlError {
    /// The document is not well-formed, has no root element or has more
    /// than one.
    NotWellFormed,
    /// An element stands inside a field that holds text.
    UnexpectedElement,
    /// A field is given twice.
    DuplicateField,
    /// A field that must be there is not.
    MissingField,
    /// The text of a field is not what the field holds.
    InvalidValue,
}

/// The reader of the crate `quick_xml`.
#[verifier::external_type_specification]
#[verifier::external_body]
#[verifier::reject_recursive_types(R)]
pub struct ExReader<R>(Reader<R>);

/// The tokens that `quick_xml` reads from a document, up to its end or up
/// to the first thing that is not well-formed, which comes as a last token
/// `Invalid`.
pub uninterp spec fn xml_tokens(document: Seq<char>) -> Seq<XmlTokenView>;

/// The tokens that a reader has yet to give, up to the end of its document
/// or up to a last token `Invalid`.
pub uninterp spec fn pending_tokens(reader: Reader<&[u8]>) -> Seq<XmlTokenView>;

/// Makes a reader with `Reader::from_str` and switches
/// `expand_empty_elements` on, so that an empty tag is read as a start and
/// an end. The reader has yet to give all the tokens of the document.
#[verifier::external_body]
fn open_reader(document: &str) -> (reader: Reader<&[u8]>)
    ensures
        pending_tokens(reader) == xml_tokens(document@),
{
    let mut reader = Reader::from_str(document);
    reader.expand_empty_elements(true);
    reader
}

/// Calls `Reader::read_event` once and hands the event on as a token: the
/// local name of a start or end tag, the unescaped content of a text, the
/// content of a CDATA section. At the end of the document it gives `None`;
/// an error of the crate, or an escape that cannot be resolved, gives
/// `Invalid`.
#[verifier::external_body]
fn next_token(reader: &mut Reader<&[u8]>) -> (token: Option<XmlToken>)
    ensures
        match token {
            None => pending_tokens(*old(reader)).len() == 0,
            Some(XmlToken::Invalid) => pending_tokens(*old(reader)) == seq![XmlTokenView::Invalid],
            Some(t) => pending_tokens(*old(reader)) == seq![t@] + pending_tokens(*final(reader)),
        },
{
    match reader.read_event() {
        Ok(Event::Start(e)) => Some(XmlToken::Open(String::from_utf8_lossy(e.local_name().as_ref()).into())),
        Ok(Event::End(e)) => Some(XmlToken::Close(String::from_utf8_lossy(e.local_name().as_ref()).into())),
        Ok(Event::Text(e)) => Some(e.unescape().map_or(XmlToken::Invalid, |t| XmlToken::Text(t.into()))),
        Ok(Event::CData(e)) => Some(XmlToken::Text(String::from_utf8_lossy(&e).into())),
        Ok(Event::Eof) => None,
        Ok(_) => Some(XmlToken::Other),
        Err(_) => Some(XmlToken::Invalid),
    }
}

/// Reads a document into its tokens.
pub fn read_tokens(document: &str) -> (tokens: Vec<XmlToken>)
    ensures
        tokens_view(tokens@) == xml_tokens(document@),
{
    let mut reader = open_reader(document);
    let mut tokens: Vec<XmlToken> = Vec::new();
    loop
        invariant_except_break
            xml_tokens(document@) == tokens_view(tokens@) + pending_tokens(reader),
        ensures
            tokens_view(tokens@) == xml_tokens(document@),
        decreases pending_tokens(reader).len(),
    {
        let ghost before = tokens_view(tokens@);
        match next_token(&mut reader) {
            None => {
                break ;
            },
            Some(XmlToken::Invalid) => {
                tokens.push(XmlToken::Invalid);
                break ;
            },
            Some(token) => {
                let ghost t = token@;
                tokens.push(token);
                assert(before + (seq![t] + pending_tokens(reader)) == before.push(t)
                    + pending_tokens(reader));
            },
        }
    }
    tokens
}

/// Tokens with their texts as sequences of characters.
pub open spec fn tokens_view(tokens: Seq<XmlToken>) -> Seq<XmlTokenView> {
    Seq::new(tokens.len(), |i: int| tokens[i]@)
}

/// Texts that may be missing, as sequences of characters.
pub open spec fn texts_view(texts: Seq<Option<String>>) -> Seq<Option<Seq<char>>> {
    Seq::new(texts.len(), |i: int| option_view(texts[i]))
}

/// Fields none of which has been read.
pub open spec fn no_fields(n: nat) -> Seq<Option<Seq<char>>> {
    Seq::new(n, |i: int| None)
}

/// `n` texts, all missing.
pub fn missing_texts(n: usize) -> (texts: Vec<Option<String>>)
    ensures
        texts.len() == n,
        texts_view(texts@) == no_fields(n as nat),
{
    let mut texts: Vec<Option<String>> = Vec::new();
    let mut i: usize = 0;
    while i < n
        invariant
            i <= n,
            texts.len() == i,
            forall|j: int| 0 <= j < i ==> texts@[j] is None,
        decreases n - i,
    {
        texts.push(None);
        i += 1;
    }
    texts
}

/// What a character of text is written as: the five characters that XML
/// sets apart are written as entities.
pub open spec fn escaped_char(c: char) -> Seq<char> {
    if c == '&' {
        "&amp;"@
    } else if c == '<' {
        "&lt;"@
    } else if c == '>' {
        "&gt;"@
    } else if c == '"' {
        "&quot;"@
    } else if c == '\'' {
        "&apos;"@
    } else {
        seq![c]
    }
}

/// What a text is written as.
pub open spec fn escaped(text: Seq<char>) -> Seq<char>
    decreases text.len(),
{
    if text.len() == 0 {
        Seq::empty()
    } else {
        escaped(text.drop_last()) + escaped_char(text.last())
    }
}

/// What a token is written as. Only elements and text are written.
pub open spec fn written_token(token: XmlTokenView) -> Seq<char> {
    match token {
        XmlTokenView::Open(name) => seq!['<'] + name + seq!['>'],
        XmlTokenView::Close(name) => seq!['<', '/'] + name + seq!['>'],
        XmlTokenView::Text(text) => escaped(text),
        XmlTokenView::Other => Seq::empty(),
        XmlTokenView::Invalid => Seq::empty(),
    }
}

/// What a run of tokens is written as.
pub open spec fn written(tokens: Seq<XmlTokenView>) -> Seq<char>
    decreases tokens.len(),
{
    if tokens.len() == 0 {
        Seq::empty()
    } else {
        written(tokens.drop_last()) + written_token(tokens.last())
    }
}

/// Appends a text with its special characters as entities.
fn write_escaped(out: &mut String, text: &str)
    ensures
        final(out)@ == old(out)@ + escaped(text@),
{
    let v = chars_of(text);
    let ghost start = out@;
    let mut i: usize = 0;
    while i < v.len()
        invariant
            i <= v.len(),
            v@ == text@,
            out@ == start + escaped(v@.take(i as int)),
        decreases v.len() - i,
    {
        let c = v[i];
        proof {
            assert(v@.take(i + 1).drop_last() == v@.take(i as int));
        }
        if c == '&' {
            out.append("&amp;");
        } else if c == '<' {
            out.append("&lt;");
        } else if c == '>' {
            out.append("&gt;");
        } else if c == '"' {
            out.append("&quot;");
        } else if c == '\'' {
            out.append("&apos;");
        } else {
            out.push(c);
        }
        assert(start + escaped(v@.take(i as int)) + escaped_char(c) == start + (escaped(
            v@.take(i as int),
        ) + escaped_char(c)));
        i += 1;
    }
    assert(v@.take(v.len() as int) == v@);
}

/// Writes a run of tokens as XML.
pub fn write_tokens(tokens: &Vec<XmlToken>) -> (out: String)
    ensures
        out@ == written(tokens_view(tokens@)),
{
    let ghost all = tokens_view(tokens@);
    let mut out = String::new();
    let mut i: usize = 0;
    while i < tokens.len()
        invariant
            i <= tokens.len(),
            all == tokens_view(tokens@),
            out@ == written(all.take(i as int)),
        decreases tokens.len() - i,
    {
        proof {
            assert(all.take(i + 1).drop_last() == all.take(i as int));
        }
        match &tokens[i] {
            XmlToken::Open(name) => {
                out.push('<');
                out.append(name.as_str());
                out.push('>');
            },
            XmlToken::Close(name) => {
                out.push('<');
                out.push('/');
                out.append(name.as_str());
                out.push('>');
            },
            XmlToken::Text(text) => {
                write_escaped(&mut out, text.as_str());
            },
            XmlToken::Other => {},
            XmlToken::Invalid => {},
        }
        i += 1;
    }
    assert(all.take(tokens.len() as int) == all);
    out
}

} // verus!
