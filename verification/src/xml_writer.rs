//! The listing that the backend answers a LIST with: its fields, the XML
//! tokens that spell it, and how it is read from tokens.

use vstd::prelude::*;
use crate::decimal::{numeral, numeral_in_range, parse_i32, parse_i64, render_i64};
use crate::text::{option_view, result_view, same_text};
use crate::xml::{
    missing_texts, no_fields, read_tokens, texts_view, tokens_view, write_tokens, written,
    xml_tokens, XmlError, XmlToken, XmlTokenView,
};

verus! {

/// One object of a listing.
#[derive(Clone, Debug, PartialEq, Eq)]
pub struct Content {
    pub key: String,
    pub last_modified: String,
    pub e_tag: String,
    pub size: i64,
    pub storage_class: String,
}

/// `Content` with its texts as sequences of characters.
pub struct ContentView {
    pub key: Seq<char>,
    pub last_modified: Seq<char>,
    pub e_tag: Seq<char>,
    pub size: i64,
    pub storage_class: Seq<char>,
}

impl View for Content {
    type V = ContentView;

    open spec fn view(&self) -> ContentView {
        ContentView {
            key: self.key@,
            last_modified: self.last_modified@,
            e_tag: self.e_tag@,
            size: self.size,
            storage_class: self.storage_class@,
        }
    }
}

/// The answer to a LIST.
#[derive(Clone, Debug, PartialEq, Eq)]
pub struct ListBucketResult {
    pub name: String,
    pub prefix: Option<String>,
    pub delimiter: Option<String>,
    pub key_count: i32,
    pub is_truncated: bool,
    pub continuation_token: Option<String>,
    pub next_continuation_token: Option<String>,
    pub start_after: Option<String>,
    pub contents: Option<Vec<Content>>,
}

/// `ListBucketResult` with its texts as sequences of characters.
pub struct ListBucketResultView {
    pub name: Seq<char>,
    pub prefix: Option<Seq<char>>,
    pub delimiter: Option<Seq<char>>,
    pub key_count: i32,
    pub is_truncated: bool,
    pub continuation_token: Option<Seq<char>>,
    pub next_continuation_token: Option<Seq<char>>,
    pub start_after: Option<Seq<char>>,
    pub contents: Option<Seq<ContentView>>,
}

/// Objects with their texts as sequences of characters.
pub open spec fn contents_view(contents: Seq<Content>) -> Seq<ContentView> {
    Seq::new(contents.len(), |i: int| contents[i]@)
}

impl View for ListBucketResult {
    type V = ListBucketResultView;

    open spec fn view(&self) -> ListBucketResultView {
        ListBucketResultView {
            name: self.name@,
            prefix: option_view(self.prefix),
            delimiter: option_view(self.delimiter),
            key_count: self.key_count,
            is_truncated: self.is_truncated,
            continuation_token: option_view(self.continuation_token),
            next_continuation_token: option_view(self.next_continuation_token),
            start_after: option_view(self.start_after),
            contents: match self.contents {
                Some(c) => Some(contents_view(c@)),
                None => None,
            },
        }
    }
}

/// Where in a document a reader stands.
pub enum Place {
    /// Before the root element.
    Prolog,
    /// In the root element, between its children.
    Root,
    /// In the field of the listing with this number.
    Field(u8),
    /// In a `Contents` element, between its children.
    Entry,
    /// In the field of an object with this number.
    EntryField(u8),
    /// In an element that is no field, `depth` elements deep, inside an
    /// object or not.
    Skip { depth: nat, in_entry: bool },
    /// After the root element.
    Epilog,
    /// The document is refused.
    Failed(XmlError),
}

/// The number of the field of a listing that an element name stands for:
/// the fields are `Name`, `Prefix`, `Delimiter`, `KeyCount`, `IsTruncated`,
/// `ContinuationToken`, `NextContinuationToken` and `StartAfter`.
pub open spec fn list_field(name: Seq<char>) -> Option<u8> {
    if name == "Name"@ {
        Some(0u8)
    } else if name == "Prefix"@ {
        Some(1u8)
    } else if name == "Delimiter"@ {
        Some(2u8)
    } else if name == "KeyCount"@ {
        Some(3u8)
    } else if name == "IsTruncated"@ {
        Some(4u8)
    } else if name == "ContinuationToken"@ {
        Some(5u8)
    } else if name == "NextContinuationToken"@ {
        Some(6u8)
    } else if name == "StartAfter"@ {
        Some(7u8)
    } else {
        None
    }
}

/// The number of the field of an object that an element name stands for:
/// the fields are `Key`, `LastModified`, `ETag`, `Size` and `StorageClass`.
pub open spec fn entry_field(name: Seq<char>) -> Option<u8> {
    if name == "Key"@ {
        Some(0u8)
    } else if name == "LastModified"@ {
        Some(1u8)
    } else if name == "ETag"@ {
        Some(2u8)
    } else if name == "Size"@ {
        Some(3u8)
    } else if name == "StorageClass"@ {
        Some(4u8)
    } else {
        None
    }
}

/// What has been read of a listing so far: the place, the text of the
/// field that is being read, the texts of the fields of the listing and of
/// the object that is being read, by their numbers, and the objects that
/// have been read.
pub struct DraftView {
    pub place: Place,
    pub text: Seq<char>,
    pub fields: Seq<Option<Seq<char>>>,
    pub entry: Seq<Option<Seq<char>>>,
    pub entries: Seq<Seq<Option<Seq<char>>>>,
}

/// The draft before anything is read.
pub open spec fn empty_draft() -> DraftView {
    DraftView {
        place: Place::Prolog,
        text: Seq::empty(),
        fields: no_fields(8),
        entry: no_fields(5),
        entries: Seq::empty(),
    }
}

/// The draft after one more token. Comments and the like are passed over,
/// and so is text between elements. Any name will do for the root. A child
/// of the root or of `Contents` that is no field is skipped with all that
/// is in it.
pub open spec fn draft_step(draft: DraftView, token: XmlTokenView) -> DraftView {
    match draft.place {
        Place::Failed(_) => draft,
        _ => match token {
            XmlTokenView::Other => draft,
            XmlTokenView::Invalid => DraftView {
                place: Place::Failed(XmlError::NotWellFormed),
                ..draft
            },
            XmlTokenView::Text(t) => match draft.place {
                Place::Field(_) | Place::EntryField(_) => DraftView { text: draft.text + t, ..draft },
                _ => draft,
            },
            XmlTokenView::Open(name) => match draft.place {
                Place::Prolog => DraftView { place: Place::Root, ..draft },
                Place::Root => if name == "Contents"@ {
                    DraftView { place: Place::Entry, entry: no_fields(5), ..draft }
                } else {
                    match list_field(name) {
                        Some(k) => if draft.fields[k as int] is Some {
                            DraftView { place: Place::Failed(XmlError::DuplicateField), ..draft }
                        } else {
                            DraftView { place: Place::Field(k), text: Seq::empty(), ..draft }
                        },
                        None => DraftView {
                            place: Place::Skip { depth: 1, in_entry: false },
                            ..draft
                        },
                    }
                },
                Place::Entry => match entry_field(name) {
                    Some(k) => if draft.entry[k as int] is Some {
                        DraftView { place: Place::Failed(XmlError::DuplicateField), ..draft }
                    } else {
                        DraftView { place: Place::EntryField(k), text: Seq::empty(), ..draft }
                    },
                    None => DraftView { place: Place::Skip { depth: 1, in_entry: true }, ..draft },
                },
                Place::Field(_) | Place::EntryField(_) => DraftView {
                    place: Place::Failed(XmlError::UnexpectedElement),
                    ..draft
                },
                Place::Skip { depth, in_entry } => DraftView {
                    place: Place::Skip { depth: depth + 1, in_entry },
                    ..draft
                },
                _ => DraftView { place: Place::Failed(XmlError::NotWellFormed), ..draft },
            },
            XmlTokenView::Close(_) => match draft.place {
                Place::Root => DraftView { place: Place::Epilog, ..draft },
                Place::Field(k) => DraftView {
                    place: Place::Root,
                    text: Seq::empty(),
                    fields: draft.fields.update(k as int, Some(draft.text)),
                    ..draft
                },
                Place::Entry => DraftView {
                    place: Place::Root,
                    entries: draft.entries.push(draft.entry),
                    ..draft
                },
                Place::EntryField(k) => DraftView {
                    place: Place::Entry,
                    text: Seq::empty(),
                    entry: draft.entry.update(k as int, Some(draft.text)),
                    ..draft
                },
                Place::Skip { depth, in_entry } => if depth > 1 {
                    DraftView {
                        place: Place::Skip { depth: (depth - 1) as nat, in_entry },
                        ..draft
                    }
                } else if in_entry {
                    DraftView { place: Place::Entry, ..draft }
                } else {
                    DraftView { place: Place::Root, ..draft }
                },
                _ => DraftView { place: Place::Failed(XmlError::NotWellFormed), ..draft },
            },
        },
    }
}

/// The draft after a run of tokens.
pub open spec fn draft_after(draft: DraftView, tokens: Seq<XmlTokenView>) -> DraftView
    decreases tokens.len(),
{
    if tokens.len() == 0 {
        draft
    } else {
        draft_step(draft_after(draft, tokens.drop_last()), tokens.last())
    }
}

/// Whether a text is one of the spellings of "true": `true`, `1`, `True`,
/// `TRUE`, `t`, `Yes`, `YES`, `yes` or `y`.
pub open spec fn spells_true(text: Seq<char>) -> bool {
    text == "true"@ || text == "1"@ || text == "True"@ || text == "TRUE"@ || text == "t"@ || text
        == "Yes"@ || text == "YES"@ || text == "yes"@ || text == "y"@
}

/// Whether a text is one of the spellings of "false": `false`, `0`,
/// `False`, `FALSE`, `f`, `No`, `NO`, `no` or `n`.
pub open spec fn spells_false(text: Seq<char>) -> bool {
    text == "false"@ || text == "0"@ || text == "False"@ || text == "FALSE"@ || text == "f"@
        || text == "No"@ || text == "NO"@ || text == "no"@ || text == "n"@
}

/// The truth value that a text spells.
pub open spec fn truth_value(text: Seq<char>) -> Option<bool> {
    if spells_true(text) {
        Some(true)
    } else if spells_false(text) {
        Some(false)
    } else {
        None
    }
}

/// The object that the texts of its five fields spell.
pub open spec fn content_of(entry: Seq<Option<Seq<char>>>) -> Result<ContentView, XmlError> {
    if entry[0] is None || entry[1] is None || entry[2] is None || entry[3] is None || entry[4]
        is None {
        Err(XmlError::MissingField)
    } else {
        match numeral_in_range(entry[3]->0, true, i64::MIN as int, i64::MAX as int) {
            None => Err(XmlError::InvalidValue),
            Some(size) => Ok(
                ContentView {
                    key: entry[0]->0,
                    last_modified: entry[1]->0,
                    e_tag: entry[2]->0,
                    size: size as i64,
                    storage_class: entry[4]->0,
                },
            ),
        }
    }
}

/// The objects that a run of entries spells; the first entry that spells
/// none decides the error.
pub open spec fn contents_of(entries: Seq<Seq<Option<Seq<char>>>>) -> Result<
    Seq<ContentView>,
    XmlError,
>
    decreases entries.len(),
{
    if entries.len() == 0 {
        Ok(Seq::empty())
    } else {
        match contents_of(entries.drop_last()) {
            Err(e) => Err(e),
            Ok(front) => match content_of(entries.last()) {
                Err(e) => Err(e),
                Ok(c) => Ok(front.push(c)),
            },
        }
    }
}

/// The listing that a finished draft spells. The document must have ended
/// after its root element; `Name`, `KeyCount` and `IsTruncated` must be
/// there; a listing without `Contents` elements has no contents.
pub open spec fn listing_of_draft(draft: DraftView) -> Result<ListBucketResultView, XmlError> {
    match draft.place {
        Place::Failed(e) => Err(e),
        Place::Epilog => if draft.fields[0] is None || draft.fields[3] is None || draft.fields[4]
            is None {
            Err(XmlError::MissingField)
        } else {
            match (
                numeral_in_range(draft.fields[3]->0, true, i32::MIN as int, i32::MAX as int),
                truth_value(draft.fields[4]->0),
                contents_of(draft.entries),
            ) {
                (Some(count), Some(truncated), Ok(contents)) => Ok(
                    ListBucketResultView {
                        name: draft.fields[0]->0,
                        prefix: draft.fields[1],
                        delimiter: draft.fields[2],
                        key_count: count as i32,
                        is_truncated: truncated,
                        continuation_token: draft.fields[5],
                        next_continuation_token: draft.fields[6],
                        start_after: draft.fields[7],
                        contents: if draft.entries.len() == 0 {
                            None
                        } else {
                            Some(contents)
                        },
                    },
                ),
                (None, _, _) => Err(XmlError::InvalidValue),
                (_, None, _) => Err(XmlError::InvalidValue),
                (_, _, Err(e)) => Err(e),
            }
        },
        _ => Err(XmlError::NotWellFormed),
    }
}

/// The listing that a run of tokens spells.
pub open spec fn listing_of(tokens: Seq<XmlTokenView>) -> Result<ListBucketResultView, XmlError> {
    listing_of_draft(draft_after(empty_draft(), tokens))
}

/// Runs of texts that may be missing, as sequences of characters.
pub open spec fn entries_view(entries: Seq<Vec<Option<String>>>) -> Seq<Seq<Option<Seq<char>>>> {
    Seq::new(entries.len(), |i: int| texts_view(entries[i]@))
}

/// How deep in elements that are skipped a place is.
pub open spec fn skip_depth(place: Place) -> nat {
    match place {
        Place::Skip { depth, .. } => depth,
        _ => 0,
    }
}

/// Where in a document a reader stands, with the depth as a machine
/// number.
#[derive(Clone, Copy)]
enum Cursor {
    Prolog,
    Root,
    Field(u8),
    Entry,
    EntryField(u8),
    Skip { depth: usize, in_entry: bool },
    Epilog,
    Failed(XmlError),
}

impl View for Cursor {
    type V = Place;

    closed spec fn view(&self) -> Place {
        match self {
            Cursor::Prolog => Place::Prolog,
            Cursor::Root => Place::Root,
            Cursor::Field(k) => Place::Field(*k),
            Cursor::Entry => Place::Entry,
            Cursor::EntryField(k) => Place::EntryField(*k),
            Cursor::Skip { depth, in_entry } => Place::Skip {
                depth: *depth as nat,
                in_entry: *in_entry,
            },
            Cursor::Epilog => Place::Epilog,
            Cursor::Failed(e) => Place::Failed(*e),
        }
    }
}

/// What has been read of a listing so far.
struct Draft {
    place: Cursor,
    text: String,
    fields: Vec<Option<String>>,
    entry: Vec<Option<String>>,
    entries: Vec<Vec<Option<String>>>,
}

impl View for Draft {
    type V = DraftView;

    closed spec fn view(&self) -> DraftView {
        DraftView {
            place: self.place@,
            text: self.text@,
            fields: texts_view(self.fields@),
            entry: texts_view(self.entry@),
            entries: entries_view(self.entries@),
        }
    }
}

/// The number of the field of a listing that an element name stands for.
fn field_number(name: &str) -> (k: Option<u8>)
    ensures
        k == list_field(name@),
        k matches Some(n) ==> n < 8,
{
    if same_text(name, "Name") {
        Some(0)
    } else if same_text(name, "Prefix") {
        Some(1)
    } else if same_text(name, "Delimiter") {
        Some(2)
    } else if same_text(name, "KeyCount") {
        Some(3)
    } else if same_text(name, "IsTruncated") {
        Some(4)
    } else if same_text(name, "ContinuationToken") {
        Some(5)
    } else if same_text(name, "NextContinuationToken") {
        Some(6)
    } else if same_text(name, "StartAfter") {
        Some(7)
    } else {
        None
    }
}

/// The number of the field of an object that an element name stands for.
fn entry_field_number(name: &str) -> (k: Option<u8>)
    ensures
        k == entry_field(name@),
        k matches Some(n) ==> n < 5,
{
    if same_text(name, "Key") {
        Some(0)
    } else if same_text(name, "LastModified") {
        Some(1)
    } else if same_text(name, "ETag") {
        Some(2)
    } else if same_text(name, "Size") {
        Some(3)
    } else if same_text(name, "StorageClass") {
        Some(4)
    } else {
        None
    }
}

impl Draft {
    /// Whether the draft has places for the eight fields of a listing and
    /// the five fields of an object, and is in the place of no other field.
    closed spec fn well_formed(&self) -> bool {
        &&& self.fields.len() == 8
        &&& self.entry.len() == 5
        &&& forall|i: int| 0 <= i < self.entries.len() ==> (#[trigger] self.entries[i]).len() == 5
        &&& self.place matches Cursor::Field(k) ==> k < 8
        &&& self.place matches Cursor::EntryField(k) ==> k < 5
    }

    /// The draft before anything is read.
    fn new() -> (draft: Draft)
        ensures
            draft.well_formed(),
            draft@ == empty_draft(),
    {
        let draft = Draft {
            place: Cursor::Prolog,
            text: String::new(),
            fields: missing_texts(8),
            entry: missing_texts(5),
            entries: Vec::new(),
        };
        assert(entries_view(draft.entries@) =~= Seq::<Seq<Option<Seq<char>>>>::empty());
        draft
    }

    /// Takes the text of the field that has been read out of the draft.
    fn take_text(&mut self) -> (text: String)
        ensures
            text@ == old(self).text@,
            final(self).text@ == Seq::<char>::empty(),
            final(self).place == old(self).place,
            final(self).fields == old(self).fields,
            final(self).entry == old(self).entry,
            final(self).entries == old(self).entries,
    {
        let mut text = String::new();
        std::mem::swap(&mut text, &mut self.text);
        text
    }

    /// Takes one more token in.
    fn feed(&mut self, token: &XmlToken)
        requires
            old(self).well_formed(),
            skip_depth(old(self)@.place) < usize::MAX,
        ensures
            final(self).well_formed(),
            final(self)@ == draft_step(old(self)@, token@),
    {
        if let Cursor::Failed(_) = self.place {
            return ;
        }
        match token {
            XmlToken::Other => {},
            XmlToken::Invalid => {
                self.place = Cursor::Failed(XmlError::NotWellFormed);
            },
            XmlToken::Text(t) => match self.place {
                Cursor::Field(_) | Cursor::EntryField(_) => {
                    self.text.append(t.as_str());
                },
                _ => {},
            },
            XmlToken::Open(name) => match self.place {
                Cursor::Prolog => {
                    self.place = Cursor::Root;
                },
                Cursor::Root => {
                    if same_text(name.as_str(), "Contents") {
                        self.place = Cursor::Entry;
                        self.entry = missing_texts(5);
                    } else {
                        match field_number(name.as_str()) {
                            Some(k) => {
                                if self.fields[k as usize].is_some() {
                                    self.place = Cursor::Failed(XmlError::DuplicateField);
                                } else {
                                    self.place = Cursor::Field(k);
                                    self.text = String::new();
                                }
                            },
                            None => {
                                self.place = Cursor::Skip { depth: 1, in_entry: false };
                            },
                        }
                    }
                },
                Cursor::Entry => match entry_field_number(name.as_str()) {
                    Some(k) => {
                        if self.entry[k as usize].is_some() {
                            self.place = Cursor::Failed(XmlError::DuplicateField);
                        } else {
                            self.place = Cursor::EntryField(k);
                            self.text = String::new();
                        }
                    },
                    None => {
                        self.place = Cursor::Skip { depth: 1, in_entry: true };
                    },
                },
                Cursor::Field(_) | Cursor::EntryField(_) => {
                    self.place = Cursor::Failed(XmlError::UnexpectedElement);
                },
                Cursor::Skip { depth, in_entry } => {
                    self.place = Cursor::Skip { depth: depth + 1, in_entry };
                },
                _ => {
                    self.place = Cursor::Failed(XmlError::NotWellFormed);
                },
            },
            XmlToken::Close(_) => match self.place {
                Cursor::Root => {
                    self.place = Cursor::Epilog;
                },
                Cursor::Field(k) => {
                    let text = self.take_text();
                    let ghost before = self.fields@;
                    self.fields.set(k as usize, Some(text));
                    self.place = Cursor::Root;
                    assert(texts_view(self.fields@) =~= texts_view(before).update(
                        k as int,
                        Some(text@),
                    ));
                },
                Cursor::Entry => {
                    let entry = copy_texts(&self.entry);
                    let ghost before = self.entries@;
                    self.entries.push(entry);
                    self.place = Cursor::Root;
                    assert(entries_view(self.entries@) =~= entries_view(before).push(
                        texts_view(self.entry@),
                    ));
                },
                Cursor::EntryField(k) => {
                    let text = self.take_text();
                    let ghost before = self.entry@;
                    self.entry.set(k as usize, Some(text));
                    self.place = Cursor::Entry;
                    assert(texts_view(self.entry@) =~= texts_view(before).update(
                        k as int,
                        Some(text@),
                    ));
                },
                Cursor::Skip { depth, in_entry } => {
                    if depth > 1 {
                        self.place = Cursor::Skip { depth: depth - 1, in_entry };
                    } else if in_entry {
                        self.place = Cursor::Entry;
                    } else {
                        self.place = Cursor::Root;
                    }
                },
                _ => {
                    self.place = Cursor::Failed(XmlError::NotWellFormed);
                },
            },
        }
    }
}

/// The truth value that a text spells.
fn parse_truth(text: &str) -> (r: Option<bool>)
    ensures
        r == truth_value(text@),
{
    if same_text(text, "true") || same_text(text, "1") || same_text(text, "True") || same_text(
        text,
        "TRUE",
    ) || same_text(text, "t") || same_text(text, "Yes") || same_text(text, "YES") || same_text(
        text,
        "yes",
    ) || same_text(text, "y") {
        Some(true)
    } else if same_text(text, "false") || same_text(text, "0") || same_text(text, "False")
        || same_text(text, "FALSE") || same_text(text, "f") || same_text(text, "No") || same_text(
        text,
        "NO",
    ) || same_text(text, "no") || same_text(text, "n") {
        Some(false)
    } else {
        None
    }
}

/// The object that the texts of its five fields spell.
fn read_content(entry: &Vec<Option<String>>) -> (r: Result<Content, XmlError>)
    requires
        entry.len() == 5,
    ensures
        result_view(r) == content_of(texts_view(entry@)),
{
    match (&entry[0], &entry[1], &entry[2], &entry[3], &entry[4]) {
        (Some(key), Some(last_modified), Some(e_tag), Some(size), Some(storage_class)) => {
            match parse_i64(size.as_str()) {
                None => Err(XmlError::InvalidValue),
                Some(size) => Ok(
                    Content {
                        key: key.clone(),
                        last_modified: last_modified.clone(),
                        e_tag: e_tag.clone(),
                        size,
                        storage_class: storage_class.clone(),
                    },
                ),
            }
        },
        _ => Err(XmlError::MissingField),
    }
}

/// A list of objects or an error, with the objects as views.
pub open spec fn contents_result_view(r: Result<Vec<Content>, XmlError>) -> Result<
    Seq<ContentView>,
    XmlError,
> {
    match r {
        Ok(c) => Ok(contents_view(c@)),
        Err(e) => Err(e),
    }
}

/// The objects that a run of entries spells.
fn read_contents(entries: &Vec<Vec<Option<String>>>) -> (r: Result<Vec<Content>, XmlError>)
    requires
        forall|i: int| 0 <= i < entries.len() ==> (#[trigger] entries[i]).len() == 5,
    ensures
        contents_result_view(r) == contents_of(entries_view(entries@)),
{
    let ghost all = entries_view(entries@);
    let mut contents: Vec<Content> = Vec::new();
    let mut i: usize = 0;
    assert(contents_view(contents@) =~= Seq::<ContentView>::empty());
    while i < entries.len()
        invariant
            i <= entries.len(),
            all == entries_view(entries@),
            forall|i: int| 0 <= i < entries.len() ==> (#[trigger] entries[i]).len() == 5,
            contents_of(all.take(i as int)) == Ok::<_, XmlError>(contents_view(contents@)),
        decreases entries.len() - i,
    {
        proof {
            assert(all.take(i + 1).drop_last() == all.take(i as int));
        }
        match read_content(&entries[i]) {
            Err(e) => {
                proof {
                    lemma_contents_error_stays(all, i + 1, e);
                }
                return Err(e);
            },
            Ok(c) => {
                let ghost before = contents_view(contents@);
                let ghost v = c@;
                contents.push(c);
                assert(contents_view(contents@) =~= before.push(v));
            },
        }
        i += 1;
    }
    assert(all.take(entries.len() as int) == all);
    Ok(contents)
}

/// Once a run of entries is refused, every longer run is refused with the
/// same error.
proof fn lemma_contents_error_stays(entries: Seq<Seq<Option<Seq<char>>>>, n: int, e: XmlError)
    requires
        0 <= n <= entries.len(),
        contents_of(entries.take(n)) == Err::<Seq<ContentView>, _>(e),
    ensures
        contents_of(entries) == Err::<Seq<ContentView>, _>(e),
    decreases entries.len() - n,
{
    if n < entries.len() {
        assert(entries.take(n + 1).drop_last() == entries.take(n));
        lemma_contents_error_stays(entries, n + 1, e);
    } else {
        assert(entries.take(n) == entries);
    }
}

/// A copy of a text that may be missing.
fn copy_text(text: &Option<String>) -> (copy: Option<String>)
    ensures
        option_view(copy) == option_view(*text),
{
    match text {
        Some(t) => Some(t.clone()),
        None => None,
    }
}

impl Draft {
    /// The listing that the draft spells, once the document has ended.
    fn finish(&self) -> (r: Result<ListBucketResult, XmlError>)
        requires
            self.well_formed(),
        ensures
            result_view(r) == listing_of_draft(self@),
    {
        match self.place {
            Cursor::Failed(e) => Err(e),
            Cursor::Epilog => {
                match (&self.fields[0], &self.fields[3], &self.fields[4]) {
                    (Some(name), Some(count), Some(truncated)) => {
                        let key_count = match parse_i32(count.as_str()) {
                            None => {
                                return Err(XmlError::InvalidValue);
                            },
                            Some(n) => n,
                        };
                        let is_truncated = match parse_truth(truncated.as_str()) {
                            None => {
                                return Err(XmlError::InvalidValue);
                            },
                            Some(b) => b,
                        };
                        let contents = match read_contents(&self.entries) {
                            Err(e) => {
                                return Err(e);
                            },
                            Ok(c) => c,
                        };
                        Ok(
                            ListBucketResult {
                                name: name.clone(),
                                prefix: copy_text(&self.fields[1]),
                                delimiter: copy_text(&self.fields[2]),
                                key_count,
                                is_truncated,
                                continuation_token: copy_text(&self.fields[5]),
                                next_continuation_token: copy_text(&self.fields[6]),
                                start_after: copy_text(&self.fields[7]),
                                contents: if self.entries.len() == 0 {
                                    None
                                } else {
                                    Some(contents)
                                },
                            },
                        )
                    },
                    _ => Err(XmlError::MissingField),
                }
            },
            _ => Err(XmlError::NotWellFormed),
        }
    }
}

impl ListBucketResult {
    /// Reads a listing from the tokens of a document.
    pub fn from_tokens(tokens: &Vec<XmlToken>) -> (r: Result<ListBucketResult, XmlError>)
        ensures
            result_view(r) == listing_of(tokens_view(tokens@)),
    {
        let ghost all = tokens_view(tokens@);
        let mut draft = Draft::new();
        let mut i: usize = 0;
        while i < tokens.len()
            invariant
                i <= tokens.len(),
                all == tokens_view(tokens@),
                draft.well_formed(),
                draft@ == draft_after(empty_draft(), all.take(i as int)),
                skip_depth(draft@.place) <= i,
            decreases tokens.len() - i,
        {
            proof {
                assert(all.take(i + 1).drop_last() == all.take(i as int));
            }
            draft.feed(&tokens[i]);
            i += 1;
        }
        assert(all.take(tokens.len() as int) == all);
        draft.finish()
    }

    /// Reads a listing from an XML document.
    pub fn from_str(s: &str) -> (r: Result<ListBucketResult, XmlError>)
        ensures
            result_view(r) == listing_of(xml_tokens(s@)),
    {
        let tokens = read_tokens(s);
        ListBucketResult::from_tokens(&tokens)
    }
}

/// The tokens of an element that holds `text` and nothing else.
pub open spec fn element(name: Seq<char>, text: Seq<char>) -> Seq<XmlTokenView> {
    if text.len() == 0 {
        seq![XmlTokenView::Open(name), XmlTokenView::Close(name)]
    } else {
        seq![XmlTokenView::Open(name), XmlTokenView::Text(text), XmlTokenView::Close(name)]
    }
}

/// The tokens of an element that is written only where `text` is there.
pub open spec fn optional_element(name: Seq<char>, text: Option<Seq<char>>) -> Seq<XmlTokenView> {
    match text {
        Some(t) => element(name, t),
        None => Seq::empty(),
    }
}

/// The text that spells a truth value.
pub open spec fn truth_text(b: bool) -> Seq<char> {
    if b {
        "true"@
    } else {
        "false"@
    }
}

/// The tokens of one object: a `Contents` element with its five fields.
pub open spec fn content_tokens(c: ContentView) -> Seq<XmlTokenView> {
    seq![XmlTokenView::Open("Contents"@)] + element("Key"@, c.key) + element(
        "LastModified"@,
        c.last_modified,
    ) + element("ETag"@, c.e_tag) + element("Size"@, numeral(c.size as int)) + element(
        "StorageClass"@,
        c.storage_class,
    ) + seq![XmlTokenView::Close("Contents"@)]
}

/// The tokens of a run of objects.
pub open spec fn contents_tokens(contents: Seq<ContentView>) -> Seq<XmlTokenView>
    decreases contents.len(),
{
    if contents.len() == 0 {
        Seq::empty()
    } else {
        contents_tokens(contents.drop_last()) + content_tokens(contents.last())
    }
}

/// The tokens of the fields of a listing that hold text, in the order of
/// the schema. A field that is not there is left out.
pub open spec fn field_tokens(l: ListBucketResultView) -> Seq<XmlTokenView> {
    element("Name"@, l.name) + optional_element("Prefix"@, l.prefix) + optional_element(
        "Delimiter"@,
        l.delimiter,
    ) + element("KeyCount"@, numeral(l.key_count as int)) + element(
        "IsTruncated"@,
        truth_text(l.is_truncated),
    ) + optional_element("ContinuationToken"@, l.continuation_token) + optional_element(
        "NextContinuationToken"@,
        l.next_continuation_token,
    ) + optional_element("StartAfter"@, l.start_after)
}

/// The tokens that spell a listing: a `ListBucketResult` element with the
/// fields and then the objects.
pub open spec fn listing_tokens(l: ListBucketResultView) -> Seq<XmlTokenView> {
    seq![XmlTokenView::Open("ListBucketResult"@)] + field_tokens(l) + (match l.contents {
        Some(c) => contents_tokens(c),
        None => Seq::empty(),
    }) + seq![XmlTokenView::Close("ListBucketResult"@)]
}

/// Appends the tokens of an element that holds `text`.
fn push_element(tokens: &mut Vec<XmlToken>, name: &str, text: &str)
    ensures
        tokens_view(final(tokens)@) == tokens_view(old(tokens)@) + element(name@, text@),
{
    tokens.push(XmlToken::Open(String::from_str(name)));
    if text.unicode_len() > 0 {
        tokens.push(XmlToken::Text(String::from_str(text)));
    }
    tokens.push(XmlToken::Close(String::from_str(name)));
}

/// Appends the tokens of an element that is written only where `text` is
/// there.
fn push_optional(tokens: &mut Vec<XmlToken>, name: &str, text: &Option<String>)
    ensures
        tokens_view(final(tokens)@) == tokens_view(old(tokens)@) + optional_element(
            name@,
            option_view(*text),
        ),
{
    match text {
        Some(t) => push_element(tokens, name, t.as_str()),
        None => {},
    }
}

/// Appends one token.
fn push_token(tokens: &mut Vec<XmlToken>, token: XmlToken)
    ensures
        tokens_view(final(tokens)@) == tokens_view(old(tokens)@) + seq![token@],
{
    tokens.push(token);
}

impl Content {
    /// Appends the tokens of the object.
    fn push_tokens(&self, tokens: &mut Vec<XmlToken>)
        ensures
            tokens_view(final(tokens)@) == tokens_view(old(tokens)@) + content_tokens(self@),
    {
        push_token(tokens, XmlToken::Open(String::from_str("Contents")));
        push_element(tokens, "Key", self.key.as_str());
        push_element(tokens, "LastModified", self.last_modified.as_str());
        push_element(tokens, "ETag", self.e_tag.as_str());
        let size = render_i64(self.size);
        push_element(tokens, "Size", size.as_str());
        push_element(tokens, "StorageClass", self.storage_class.as_str());
        push_token(tokens, XmlToken::Close(String::from_str("Contents")));
    }
}

impl ListBucketResult {
    /// The listing as an XML document.
    pub fn to_xml(&self) -> (document: String)
        ensures
            document@ == written(listing_tokens(self@)),
    {
        let tokens = self.to_tokens();
        write_tokens(&tokens)
    }

    /// The tokens that spell the listing.
    pub fn to_tokens(&self) -> (tokens: Vec<XmlToken>)
        ensures
            tokens_view(tokens@) == listing_tokens(self@),
    {
        let mut tokens: Vec<XmlToken> = Vec::new();
        push_token(&mut tokens, XmlToken::Open(String::from_str("ListBucketResult")));
        push_element(&mut tokens, "Name", self.name.as_str());
        push_optional(&mut tokens, "Prefix", &self.prefix);
        push_optional(&mut tokens, "Delimiter", &self.delimiter);
        let count = render_i64(self.key_count as i64);
        push_element(&mut tokens, "KeyCount", count.as_str());
        push_element(
            &mut tokens,
            "IsTruncated",
            if self.is_truncated {
                "true"
            } else {
                "false"
            },
        );
        push_optional(&mut tokens, "ContinuationToken", &self.continuation_token);
        push_optional(&mut tokens, "NextContinuationToken", &self.next_continuation_token);
        push_optional(&mut tokens, "StartAfter", &self.start_after);
        assert(tokens_view(tokens@) =~= seq![XmlTokenView::Open("ListBucketResult"@)] + field_tokens(
            self@,
        ));
        let ghost head = tokens_view(tokens@);
        match &self.contents {
            None => {},
            Some(contents) => {
                let ghost all = contents_view(contents@);
                let mut i: usize = 0;
                while i < contents.len()
                    invariant
                        i <= contents.len(),
                        all == contents_view(contents@),
                        tokens_view(tokens@) == head + contents_tokens(all.take(i as int)),
                    decreases contents.len() - i,
                {
                    proof {
                        assert(all.take(i + 1).drop_last() == all.take(i as int));
                    }
                    contents[i].push_tokens(&mut tokens);
                    i += 1;
                }
                assert(all.take(contents.len() as int) == all);
            },
        }
        push_token(&mut tokens, XmlToken::Close(String::from_str("ListBucketResult")));
        tokens
    }
}

/// A copy of a run of texts.
fn copy_texts(texts: &Vec<Option<String>>) -> (copy: Vec<Option<String>>)
    ensures
        copy.len() == texts.len(),
        texts_view(copy@) == texts_view(texts@),
{
    let mut copy: Vec<Option<String>> = Vec::new();
    let mut i: usize = 0;
    while i < texts.len()
        invariant
            i <= texts.len(),
            copy.len() == i,
            forall|j: int| 0 <= j < i ==> option_view(copy@[j]) == option_view(texts@[j]),
        decreases texts.len() - i,
    {
        let item = match &texts[i] {
            Some(t) => Some(t.clone()),
            None => None,
        };
        copy.push(item);
        i += 1;
    }
    copy
}

} // verus!
