//! Laws of the listing as XML: a listing is read back from the tokens that
//! spell it, and a field that is not there is left out of them.

use vstd::prelude::*;
use crate::decimal::{lemma_numeral_round_trip, numeral};
use crate::xml::{no_fields, XmlError, XmlTokenView};
use crate::xml_writer::{
    content_of, content_tokens, contents_of, contents_tokens, draft_after, draft_step, element,
    empty_draft, entry_field, field_tokens, list_field, listing_of, listing_tokens,
    optional_element, truth_text, truth_value, ContentView, DraftView, ListBucketResultView, Place,
};

verus! {

/// Reading one run of tokens after another is reading the two as one.
proof fn lemma_draft_after_concat(d: DraftView, a: Seq<XmlTokenView>, b: Seq<XmlTokenView>)
    ensures
        draft_after(d, a + b) == draft_after(draft_after(d, a), b),
    decreases b.len(),
{
    if b.len() == 0 {
        assert(a + b == a);
    } else {
        lemma_draft_after_concat(d, a, b.drop_last());
        assert((a + b).drop_last() == a + b.drop_last());
        assert((a + b).last() == b.last());
    }
}

/// Reading one token is one step.
proof fn lemma_draft_after_one(d: DraftView, t: XmlTokenView)
    ensures
        draft_after(d, seq![t]) == draft_step(d, t),
{
    assert(seq![t].drop_last().len() == 0);
    assert(draft_after(d, seq![t].drop_last()) == d);
}

/// Reading an element that holds text is two or three steps.
proof fn lemma_draft_after_element(d: DraftView, name: Seq<char>, text: Seq<char>)
    ensures
        draft_after(d, element(name, text)) == if text.len() == 0 {
            draft_step(draft_step(d, XmlTokenView::Open(name)), XmlTokenView::Close(name))
        } else {
            draft_step(
                draft_step(draft_step(d, XmlTokenView::Open(name)), XmlTokenView::Text(text)),
                XmlTokenView::Close(name),
            )
        },
{
    let open = XmlTokenView::Open(name);
    let close = XmlTokenView::Close(name);
    lemma_draft_after_one(d, open);
    if text.len() == 0 {
        let e = seq![open, close];
        assert(e == element(name, text));
        assert(e.drop_last() == seq![open]);
        assert(e.last() == close);
        assert(draft_after(d, e) == draft_step(draft_after(d, e.drop_last()), e.last()));
    } else {
        let t = XmlTokenView::Text(text);
        let e = seq![open, t, close];
        assert(e == element(name, text));
        let f = seq![open, t];
        assert(e.drop_last() == f);
        assert(e.last() == close);
        assert(f.drop_last() == seq![open]);
        assert(f.last() == t);
        assert(draft_after(d, f) == draft_step(draft_after(d, f.drop_last()), f.last()));
        assert(draft_after(d, e) == draft_step(draft_after(d, e.drop_last()), e.last()));
    }
}

/// The names of the elements of a listing are all different.
proof fn lemma_names_differ()
    ensures
        list_field("Name"@) == Some(0u8),
        list_field("Prefix"@) == Some(1u8),
        list_field("Delimiter"@) == Some(2u8),
        list_field("KeyCount"@) == Some(3u8),
        list_field("IsTruncated"@) == Some(4u8),
        list_field("ContinuationToken"@) == Some(5u8),
        list_field("NextContinuationToken"@) == Some(6u8),
        list_field("StartAfter"@) == Some(7u8),
        list_field("Contents"@) is None,
        entry_field("Key"@) == Some(0u8),
        entry_field("LastModified"@) == Some(1u8),
        entry_field("ETag"@) == Some(2u8),
        entry_field("Size"@) == Some(3u8),
        entry_field("StorageClass"@) == Some(4u8),
        truth_value("true"@) == Some(true),
        truth_value("false"@) == Some(false),
        "true"@.len() > 0,
        "false"@.len() > 0,
{
    reveal_strlit("Name");
    reveal_strlit("Prefix");
    reveal_strlit("Delimiter");
    reveal_strlit("KeyCount");
    reveal_strlit("IsTruncated");
    reveal_strlit("ContinuationToken");
    reveal_strlit("NextContinuationToken");
    reveal_strlit("StartAfter");
    reveal_strlit("Contents");
    reveal_strlit("Key");
    reveal_strlit("LastModified");
    reveal_strlit("ETag");
    reveal_strlit("Size");
    reveal_strlit("StorageClass");
    reveal_strlit("true");
    reveal_strlit("false");
    reveal_strlit("1");
    reveal_strlit("True");
    reveal_strlit("TRUE");
    reveal_strlit("t");
    reveal_strlit("Yes");
    reveal_strlit("YES");
    reveal_strlit("yes");
    reveal_strlit("y");
    assert("Name"@.len() == 4);
    assert("Prefix"@.len() == 6);
    assert("Delimiter"@.len() == 9);
    assert("KeyCount"@.len() == 8);
    assert("IsTruncated"@.len() == 11);
    assert("ContinuationToken"@.len() == 17);
    assert("NextContinuationToken"@.len() == 21);
    assert("StartAfter"@.len() == 10);
    assert("Contents"@.len() == 8);
    assert("Key"@.len() == 3);
    assert("LastModified"@.len() == 12);
    assert("ETag"@.len() == 4);
    assert("Size"@.len() == 4);
    assert("StorageClass"@.len() == 12);
    assert("true"@.len() == 4);
    assert("false"@.len() == 5);
    assert("1"@.len() == 1);
    assert("True"@.len() == 4);
    assert("TRUE"@.len() == 4);
    assert("t"@.len() == 1);
    assert("Yes"@.len() == 3);
    assert("YES"@.len() == 3);
    assert("yes"@.len() == 3);
    assert("y"@.len() == 1);
    assert("KeyCount"@[0] != "Contents"@[0]);
    assert("ETag"@[0] != "Size"@[0]);
    assert("LastModified"@[0] != "StorageClass"@[0]);
}

/// Reading a field of the listing that has not been read before sets it.
proof fn lemma_read_field(d: DraftView, name: Seq<char>, k: u8, text: Seq<char>)
    requires
        d.place == Place::Root,
        d.fields.len() == 8,
        name != "Contents"@,
        list_field(name) == Some(k),
        k < 8,
        d.fields[k as int] is None,
    ensures
        draft_after(d, element(name, text)) == (DraftView {
            text: Seq::empty(),
            fields: d.fields.update(k as int, Some(text)),
            ..d
        }),
{
    lemma_draft_after_element(d, name, text);
    let opened = draft_step(d, XmlTokenView::Open(name));
    assert(opened == DraftView { place: Place::Field(k), text: Seq::empty(), ..d });
    assert(Seq::<char>::empty() + text == text);
}

/// Reading a field of the listing that may be left out sets it if it is
/// there.
proof fn lemma_read_optional(d: DraftView, name: Seq<char>, k: u8, text: Option<Seq<char>>)
    requires
        d.place == Place::Root,
        d.text.len() == 0,
        d.fields.len() == 8,
        name != "Contents"@,
        list_field(name) == Some(k),
        k < 8,
        d.fields[k as int] is None,
    ensures
        draft_after(d, optional_element(name, text)) == (DraftView {
            fields: d.fields.update(k as int, text),
            ..d
        }),
{
    match text {
        Some(t) => {
            lemma_read_field(d, name, k, t);
            assert(d.text == Seq::<char>::empty());
        },
        None => {
            assert(d.fields.update(k as int, text) == d.fields);
        },
    }
}

/// Reading a field of an object that has not been read before sets it.
proof fn lemma_read_entry_field(d: DraftView, name: Seq<char>, k: u8, text: Seq<char>)
    requires
        d.place == Place::Entry,
        d.entry.len() == 5,
        entry_field(name) == Some(k),
        k < 5,
        d.entry[k as int] is None,
    ensures
        draft_after(d, element(name, text)) == (DraftView {
            text: Seq::empty(),
            entry: d.entry.update(k as int, Some(text)),
            ..d
        }),
{
    lemma_draft_after_element(d, name, text);
    let opened = draft_step(d, XmlTokenView::Open(name));
    assert(opened == DraftView { place: Place::EntryField(k), text: Seq::empty(), ..d });
    assert(Seq::<char>::empty() + text == text);
}

/// The texts of the five fields of an object.
pub open spec fn content_texts(c: ContentView) -> Seq<Option<Seq<char>>> {
    seq![
        Some(c.key),
        Some(c.last_modified),
        Some(c.e_tag),
        Some(numeral(c.size as int)),
        Some(c.storage_class),
    ]
}

/// Reading the tokens of an object adds the texts of its fields to the
/// entries.
proof fn lemma_read_content(d: DraftView, c: ContentView)
    requires
        d.place == Place::Root,
    ensures
        draft_after(d, content_tokens(c)) == (DraftView {
            text: Seq::empty(),
            entry: content_texts(c),
            entries: d.entries.push(content_texts(c)),
            ..d
        }),
{
    lemma_names_differ();
    let open = seq![XmlTokenView::Open("Contents"@)];
    let close = seq![XmlTokenView::Close("Contents"@)];
    let e0 = element("Key"@, c.key);
    let e1 = element("LastModified"@, c.last_modified);
    let e2 = element("ETag"@, c.e_tag);
    let e3 = element("Size"@, numeral(c.size as int));
    let e4 = element("StorageClass"@, c.storage_class);
    let d0 = draft_after(d, open);
    lemma_draft_after_one(d, XmlTokenView::Open("Contents"@));
    assert(d0 == DraftView { place: Place::Entry, entry: no_fields(5), ..d });
    lemma_draft_after_concat(d, open, e0);
    lemma_read_entry_field(d0, "Key"@, 0, c.key);
    let d1 = draft_after(d0, e0);
    lemma_draft_after_concat(d, open + e0, e1);
    lemma_read_entry_field(d1, "LastModified"@, 1, c.last_modified);
    let d2 = draft_after(d1, e1);
    lemma_draft_after_concat(d, open + e0 + e1, e2);
    lemma_read_entry_field(d2, "ETag"@, 2, c.e_tag);
    let d3 = draft_after(d2, e2);
    lemma_draft_after_concat(d, open + e0 + e1 + e2, e3);
    lemma_read_entry_field(d3, "Size"@, 3, numeral(c.size as int));
    let d4 = draft_after(d3, e3);
    lemma_draft_after_concat(d, open + e0 + e1 + e2 + e3, e4);
    lemma_read_entry_field(d4, "StorageClass"@, 4, c.storage_class);
    let d5 = draft_after(d4, e4);
    assert(d5.entry =~= content_texts(c));
    lemma_draft_after_concat(d, open + e0 + e1 + e2 + e3 + e4, close);
    lemma_draft_after_one(d5, XmlTokenView::Close("Contents"@));
}

/// The texts of the fields of a run of objects.
pub open spec fn contents_texts(contents: Seq<ContentView>) -> Seq<Seq<Option<Seq<char>>>> {
    Seq::new(contents.len(), |i: int| content_texts(contents[i]))
}

/// Reading the tokens of a run of objects adds the texts of their fields
/// to the entries, in order.
proof fn lemma_read_contents(d: DraftView, contents: Seq<ContentView>)
    requires
        d.place == Place::Root,
        d.text.len() == 0,
    ensures
        ({
            let after = draft_after(d, contents_tokens(contents));
            &&& after.place == Place::Root
            &&& after.text.len() == 0
            &&& after.fields == d.fields
            &&& after.entries == d.entries + contents_texts(contents)
        }),
    decreases contents.len(),
{
    if contents.len() == 0 {
        assert(d.entries + contents_texts(contents) == d.entries);
    } else {
        let front = contents.drop_last();
        lemma_read_contents(d, front);
        lemma_draft_after_concat(d, contents_tokens(front), content_tokens(contents.last()));
        let middle = draft_after(d, contents_tokens(front));
        lemma_read_content(middle, contents.last());
        assert(contents_texts(front).push(content_texts(contents.last())) == contents_texts(
            contents,
        ));
        assert((d.entries + contents_texts(front)).push(content_texts(contents.last()))
            == d.entries + contents_texts(contents));
    }
}

/// The texts of the fields of an object spell the object.
proof fn lemma_content_of_texts(c: ContentView)
    ensures
        content_of(content_texts(c)) == Ok::<_, XmlError>(c),
{
    lemma_numeral_round_trip(c.size as int);
}

/// The texts of the fields of a run of objects spell the objects.
proof fn lemma_contents_of_texts(contents: Seq<ContentView>)
    ensures
        contents_of(contents_texts(contents)) == Ok::<_, XmlError>(contents),
    decreases contents.len(),
{
    if contents.len() == 0 {
        assert(contents == Seq::<ContentView>::empty());
    } else {
        lemma_contents_of_texts(contents.drop_last());
        lemma_content_of_texts(contents.last());
        assert(contents_texts(contents).drop_last() == contents_texts(contents.drop_last()));
        assert(contents_texts(contents).last() == content_texts(contents.last()));
        assert(contents.drop_last().push(contents.last()) == contents);
    }
}

/// The draft after the fields of a listing have been read into a draft
/// that stands in the root element and holds no field yet.
proof fn lemma_read_fields(d: DraftView, l: ListBucketResultView)
    requires
        d.place == Place::Root,
        d.text.len() == 0,
        d.fields == no_fields(8),
    ensures
        draft_after(d, field_tokens(l)) == (DraftView {
            fields: seq![
                Some(l.name),
                l.prefix,
                l.delimiter,
                Some(numeral(l.key_count as int)),
                Some(truth_text(l.is_truncated)),
                l.continuation_token,
                l.next_continuation_token,
                l.start_after,
            ],
            ..d
        }),
{
    lemma_names_differ();
    reveal_strlit("Contents");
    reveal_strlit("Name");
    reveal_strlit("Prefix");
    reveal_strlit("Delimiter");
    reveal_strlit("KeyCount");
    reveal_strlit("IsTruncated");
    reveal_strlit("ContinuationToken");
    reveal_strlit("NextContinuationToken");
    reveal_strlit("StartAfter");
    assert("KeyCount"@[0] != "Contents"@[0]);
    let e0 = element("Name"@, l.name);
    let e1 = optional_element("Prefix"@, l.prefix);
    let e2 = optional_element("Delimiter"@, l.delimiter);
    let e3 = element("KeyCount"@, numeral(l.key_count as int));
    let e4 = element("IsTruncated"@, truth_text(l.is_truncated));
    let e5 = optional_element("ContinuationToken"@, l.continuation_token);
    let e6 = optional_element("NextContinuationToken"@, l.next_continuation_token);
    let e7 = optional_element("StartAfter"@, l.start_after);
    assert(d.text == Seq::<char>::empty());
    lemma_read_field(d, "Name"@, 0, l.name);
    let d1 = draft_after(d, e0);
    lemma_draft_after_concat(d, e0, e1);
    lemma_read_optional(d1, "Prefix"@, 1, l.prefix);
    let d2 = draft_after(d1, e1);
    lemma_draft_after_concat(d, e0 + e1, e2);
    lemma_read_optional(d2, "Delimiter"@, 2, l.delimiter);
    let d3 = draft_after(d2, e2);
    lemma_draft_after_concat(d, e0 + e1 + e2, e3);
    lemma_read_field(d3, "KeyCount"@, 3, numeral(l.key_count as int));
    let d4 = draft_after(d3, e3);
    lemma_draft_after_concat(d, e0 + e1 + e2 + e3, e4);
    lemma_read_field(d4, "IsTruncated"@, 4, truth_text(l.is_truncated));
    let d5 = draft_after(d4, e4);
    lemma_draft_after_concat(d, e0 + e1 + e2 + e3 + e4, e5);
    lemma_read_optional(d5, "ContinuationToken"@, 5, l.continuation_token);
    let d6 = draft_after(d5, e5);
    lemma_draft_after_concat(d, e0 + e1 + e2 + e3 + e4 + e5, e6);
    lemma_read_optional(d6, "NextContinuationToken"@, 6, l.next_continuation_token);
    let d7 = draft_after(d6, e6);
    lemma_draft_after_concat(d, e0 + e1 + e2 + e3 + e4 + e5 + e6, e7);
    lemma_read_optional(d7, "StartAfter"@, 7, l.start_after);
    let d8 = draft_after(d7, e7);
    assert(d8.fields =~= seq![
        Some(l.name),
        l.prefix,
        l.delimiter,
        Some(numeral(l.key_count as int)),
        Some(truth_text(l.is_truncated)),
        l.continuation_token,
        l.next_continuation_token,
        l.start_after,
    ]);
}

/// A listing is read back from the tokens that spell it: the same fields,
/// and a field that is left out comes back as left out, not as an empty
/// text. Only a listing whose contents are there but empty is read back
/// otherwise, as one without contents.
pub proof fn lemma_listing_round_trip(l: ListBucketResultView)
    requires
        !(l.contents matches Some(c) && c.len() == 0),
    ensures
        listing_of(listing_tokens(l)) == Ok::<_, XmlError>(l),
{
    lemma_names_differ();
    let open = seq![XmlTokenView::Open("ListBucketResult"@)];
    let close = seq![XmlTokenView::Close("ListBucketResult"@)];
    let contents = match l.contents {
        Some(c) => c,
        None => Seq::empty(),
    };
    let objects = match l.contents {
        Some(c) => contents_tokens(c),
        None => Seq::empty(),
    };
    assert(objects == contents_tokens(contents));
    let d0 = empty_draft();
    lemma_draft_after_one(d0, XmlTokenView::Open("ListBucketResult"@));
    let d1 = draft_after(d0, open);
    assert(d1 == DraftView { place: Place::Root, ..d0 });
    lemma_draft_after_concat(d0, open, field_tokens(l));
    lemma_read_fields(d1, l);
    let d2 = draft_after(d1, field_tokens(l));
    lemma_draft_after_concat(d0, open + field_tokens(l), objects);
    lemma_read_contents(d2, contents);
    let d3 = draft_after(d2, objects);
    assert(d3.entries == contents_texts(contents)) by {
        assert(d2.entries + contents_texts(contents) == contents_texts(contents));
    }
    lemma_draft_after_concat(d0, open + field_tokens(l) + objects, close);
    lemma_draft_after_one(d3, XmlTokenView::Close("ListBucketResult"@));
    let d4 = draft_after(d3, close);
    assert(d4 == draft_after(d0, listing_tokens(l)));
    assert(d4.place == Place::Epilog);
    lemma_numeral_round_trip(l.key_count as int);
    lemma_contents_of_texts(contents);
}

/// Whether a run of tokens holds the start of an element with this name.
pub open spec fn has_element(tokens: Seq<XmlTokenView>, name: Seq<char>) -> bool {
    exists|i: int| 0 <= i < tokens.len() && #[trigger] tokens[i] == XmlTokenView::Open(name)
}

/// Two runs of tokens as one hold an element if one of them does.
proof fn lemma_has_element_concat(a: Seq<XmlTokenView>, b: Seq<XmlTokenView>, name: Seq<char>)
    ensures
        has_element(a + b, name) <==> has_element(a, name) || has_element(b, name),
{
    let open = XmlTokenView::Open(name);
    if has_element(a + b, name) {
        let i = choose|i: int| 0 <= i < (a + b).len() && #[trigger] (a + b)[i] == open;
        if i < a.len() {
            assert(a[i] == open);
        } else {
            assert(b[i - a.len()] == open);
        }
    }
    if has_element(a, name) {
        let i = choose|i: int| 0 <= i < a.len() && #[trigger] a[i] == open;
        assert((a + b)[i] == open);
    }
    if has_element(b, name) {
        let i = choose|i: int| 0 <= i < b.len() && #[trigger] b[i] == open;
        assert((a + b)[i + a.len()] == open);
    }
}

/// An element holds no element of another name.
proof fn lemma_has_element_of_element(element_name: Seq<char>, text: Seq<char>, name: Seq<char>)
    requires
        element_name != name,
    ensures
        !has_element(element(element_name, text), name),
        !has_element(optional_element(element_name, Some(text)), name),
        !has_element(optional_element(element_name, None), name),
{
}

/// The tokens of objects hold no `ContinuationToken` element.
proof fn lemma_contents_have_no_token(contents: Seq<ContentView>)
    ensures
        !has_element(contents_tokens(contents), "ContinuationToken"@),
    decreases contents.len(),
{
    let name = "ContinuationToken"@;
    reveal_strlit("ContinuationToken");
    reveal_strlit("Contents");
    reveal_strlit("Key");
    reveal_strlit("LastModified");
    reveal_strlit("ETag");
    reveal_strlit("Size");
    reveal_strlit("StorageClass");
    assert(name.len() == 17);
    assert("Contents"@.len() == 8);
    assert("Key"@.len() == 3);
    assert("LastModified"@.len() == 12);
    assert("ETag"@.len() == 4);
    assert("Size"@.len() == 4);
    assert("StorageClass"@.len() == 12);
    if contents.len() > 0 {
        lemma_contents_have_no_token(contents.drop_last());
        let c = contents.last();
        let open = seq![XmlTokenView::Open("Contents"@)];
        let close = seq![XmlTokenView::Close("Contents"@)];
        let e0 = element("Key"@, c.key);
        let e1 = element("LastModified"@, c.last_modified);
        let e2 = element("ETag"@, c.e_tag);
        let e3 = element("Size"@, numeral(c.size as int));
        let e4 = element("StorageClass"@, c.storage_class);
        lemma_has_element_of_element("Key"@, c.key, name);
        lemma_has_element_of_element("LastModified"@, c.last_modified, name);
        lemma_has_element_of_element("ETag"@, c.e_tag, name);
        lemma_has_element_of_element("Size"@, numeral(c.size as int), name);
        lemma_has_element_of_element("StorageClass"@, c.storage_class, name);
        lemma_has_element_concat(open, e0, name);
        lemma_has_element_concat(open + e0, e1, name);
        lemma_has_element_concat(open + e0 + e1, e2, name);
        lemma_has_element_concat(open + e0 + e1 + e2, e3, name);
        lemma_has_element_concat(open + e0 + e1 + e2 + e3, e4, name);
        lemma_has_element_concat(open + e0 + e1 + e2 + e3 + e4, close, name);
        lemma_has_element_concat(contents_tokens(contents.drop_last()), content_tokens(c), name);
    }
}

/// A listing without continuation token is spelled without a
/// `ContinuationToken` element: the element is left out, not written empty.
pub proof fn lemma_absent_token_is_left_out(l: ListBucketResultView)
    requires
        l.continuation_token is None,
    ensures
        !has_element(listing_tokens(l), "ContinuationToken"@),
{
    let name = "ContinuationToken"@;
    reveal_strlit("ContinuationToken");
    reveal_strlit("ListBucketResult");
    reveal_strlit("Name");
    reveal_strlit("Prefix");
    reveal_strlit("Delimiter");
    reveal_strlit("KeyCount");
    reveal_strlit("IsTruncated");
    reveal_strlit("NextContinuationToken");
    reveal_strlit("StartAfter");
    assert(name.len() == 17);
    assert("ListBucketResult"@.len() == 16);
    assert("Name"@.len() == 4);
    assert("Prefix"@.len() == 6);
    assert("Delimiter"@.len() == 9);
    assert("KeyCount"@.len() == 8);
    assert("IsTruncated"@.len() == 11);
    assert("NextContinuationToken"@.len() == 21);
    assert("StartAfter"@.len() == 10);
    let open = seq![XmlTokenView::Open("ListBucketResult"@)];
    let close = seq![XmlTokenView::Close("ListBucketResult"@)];
    let e0 = element("Name"@, l.name);
    let e1 = optional_element("Prefix"@, l.prefix);
    let e2 = optional_element("Delimiter"@, l.delimiter);
    let e3 = element("KeyCount"@, numeral(l.key_count as int));
    let e4 = element("IsTruncated"@, truth_text(l.is_truncated));
    let e5 = optional_element("ContinuationToken"@, l.continuation_token);
    let e6 = optional_element("NextContinuationToken"@, l.next_continuation_token);
    let e7 = optional_element("StartAfter"@, l.start_after);
    let objects = match l.contents {
        Some(c) => contents_tokens(c),
        None => Seq::empty(),
    };
    match l.contents {
        Some(c) => lemma_contents_have_no_token(c),
        None => {},
    }
    lemma_has_element_of_element("Name"@, l.name, name);
    lemma_has_element_of_element("Prefix"@, Seq::empty(), name);
    lemma_has_element_of_element("Delimiter"@, Seq::empty(), name);
    if l.prefix is Some {
        lemma_has_element_of_element("Prefix"@, l.prefix->0, name);
    }
    if l.delimiter is Some {
        lemma_has_element_of_element("Delimiter"@, l.delimiter->0, name);
    }
    lemma_has_element_of_element("KeyCount"@, numeral(l.key_count as int), name);
    lemma_has_element_of_element("IsTruncated"@, truth_text(l.is_truncated), name);
    lemma_has_element_of_element("NextContinuationToken"@, Seq::empty(), name);
    lemma_has_element_of_element("StartAfter"@, Seq::empty(), name);
    if l.next_continuation_token is Some {
        lemma_has_element_of_element("NextContinuationToken"@, l.next_continuation_token->0, name);
    }
    if l.start_after is Some {
        lemma_has_element_of_element("StartAfter"@, l.start_after->0, name);
    }
    assert(!has_element(e5, name));
    lemma_has_element_concat(e0, e1, name);
    lemma_has_element_concat(e0 + e1, e2, name);
    lemma_has_element_concat(e0 + e1 + e2, e3, name);
    lemma_has_element_concat(e0 + e1 + e2 + e3, e4, name);
    lemma_has_element_concat(e0 + e1 + e2 + e3 + e4, e5, name);
    lemma_has_element_concat(e0 + e1 + e2 + e3 + e4 + e5, e6, name);
    lemma_has_element_concat(e0 + e1 + e2 + e3 + e4 + e5 + e6, e7, name);
    lemma_has_element_concat(open, field_tokens(l), name);
    lemma_has_element_concat(open + field_tokens(l), objects, name);
    lemma_has_element_concat(open + field_tokens(l) + objects, close, name);
}

} // verus!
