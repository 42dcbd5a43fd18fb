//! Extraction of XML elements through `quick_xml`.
//!
//! The reader is driven by verified loops; each call into `quick_xml` goes
//! through a trusted item below whose contract says what the crate's source
//! shows of it.

use vstd::prelude::*;
use vstd::utf8::{encode_utf8, valid_utf8};
use vstd::string::StringSliceAdditionalSpecFns;
use quick_xml::events::{BytesEnd, BytesStart, Event};
use quick_xml::name::QName;
use quick_xml::reader::Reader;
use quick_xml::writer::Writer;

verus! {

#[verifier::external_type_specification]
#[verifier::external_body]
#[verifier::reject_recursive_types(R)]
pub struct ExReader<R>(Reader<R>);

#[verifier::external_type_specification]
#[verifier::external_body]
pub struct ExBytesStart<'a>(BytesStart<'a>);

#[verifier::external_type_specification]
#[verifier::external_body]
pub struct ExXmlError(quick_xml::Error);

/// A `quick_xml` reader over a string, together with that string, the
/// number of its bytes that the reader has not consumed yet (the reader
/// always holds a final part of the string's bytes), and the operations made
/// on the reader since it was opened (ghost bookkeeping, kept by the items
/// that make them).
pub struct XmlCursor<'a> {
    reader: Reader<&'a [u8]>,
    input: &'a str,
    remaining: usize,
    calls: Ghost<Seq<ReadCall>>,
}

/// One operation made on a reader after it was opened. What a `quick_xml`
/// reader over a string yields is a function of the string and of the
/// operations made on it so far.
pub enum ReadCall {
    TrimText(bool),
    CheckEndNames(bool),
    ReadEvent,
    ReadText(Seq<u8>),
}

/// The kind of what one `read_event` yields: a start tag (`Event::Start`),
/// the end of the input (`Event::Eof`), any other event, an ill-formed-markup
/// error (`Error::IllFormed`), or any other error.
pub enum EventKind {
    Start,
    Eof,
    Other,
    IllFormed,
    Failed,
}

/// A start tag read from a reader, with the input and the operations made
/// on the reader before the read that gave it.
pub struct StartTag<'a> {
    tag: BytesStart<'a>,
    input: Ghost<Seq<char>>,
    calls: Ghost<Seq<ReadCall>>,
}

/// What the extraction loop needs to know of one event of the reader.
pub enum XmlEvent<'a> {
    Start(StartTag<'a>),
    Eof,
    Other,
}

/// The kind of what `quick_xml::reader::Reader::read_event` yields on a
/// reader opened on `input` after the operations `calls`.
pub uninterp spec fn read_event_kind(input: Seq<char>, calls: Seq<ReadCall>) -> EventKind;

/// `quick_xml::reader::Reader::read_text` with the end name `name`, on a
/// reader opened on `input` after the operations `calls`: the text, or
/// `None` for an error.
pub uninterp spec fn read_text_at(input: Seq<char>, calls: Seq<ReadCall>, name: Seq<u8>) -> Option<Seq<char>>;

/// `quick_xml::events::BytesStart::name` of the start tag that `read_event`
/// yields on a reader opened on `input` after the operations `calls`.
pub uninterp spec fn start_tag_name_at(input: Seq<char>, calls: Seq<ReadCall>) -> Seq<u8>;

/// `quick_xml::events::BytesStart::attributes` of that start tag, each as
/// its raw key and raw value; `None` where an attribute is malformed.
pub uninterp spec fn start_tag_attributes_at(input: Seq<char>, calls: Seq<ReadCall>) -> Option<Seq<(Seq<u8>, Seq<u8>)>>;

/// The message (`Display`) of the `quick_xml::Error` that `read_event`
/// yields on a reader opened on `input` after the operations `calls`, where
/// it yields one.
pub uninterp spec fn read_event_error_at(input: Seq<char>, calls: Seq<ReadCall>) -> Seq<char>;

/// The message (`Display`) of the `quick_xml::Error` of `read_text` with the
/// end name `name` on a reader opened on `input` after the operations
/// `calls`, where it fails.
pub uninterp spec fn read_text_error_at(input: Seq<char>, calls: Seq<ReadCall>, name: Seq<u8>) -> Seq<char>;

/// The first `quick_xml::events::attributes::AttrError` of the attributes of
/// the start tag that `read_event` yields on a reader opened on `input`
/// after the operations `calls`, as `unwrap` shows it (its `Debug` form),
/// where an attribute is malformed.
pub uninterp spec fn start_tag_attributes_error_at(input: Seq<char>, calls: Seq<ReadCall>) -> Seq<char>;

/// The kind of the result of `next_event`.
pub open spec fn event_kind(r: Result<XmlEvent, ReadFailure>) -> EventKind {
    match r {
        Ok(XmlEvent::Start(_)) => EventKind::Start,
        Ok(XmlEvent::Eof) => EventKind::Eof,
        Ok(XmlEvent::Other) => EventKind::Other,
        Err(f) => if f.recoverable { EventKind::IllFormed } else { EventKind::Failed },
    }
}

/// A failed read, with the error's message. `recoverable` is set for the
/// errors after which the reader goes on with the rest of the input
/// (ill-formed markup); after any other error the reader only reports the
/// end of the input.
pub struct ReadFailure {
    pub recoverable: bool,
    pub message: String,
}


/// A name and a value of an attribute, as raw bytes of the document.
pub struct XmlAttribute {
    pub key: Vec<u8>,
    pub value: Vec<u8>,
}

/// One copied element: the attributes of its start tag and the raw text
/// between its start tag and its matching end tag.
pub struct NodeCopy {
    pub attributes: Vec<XmlAttribute>,
    pub text: String,
}

/// What one copied element holds, as plain values.
pub struct CopyView {
    pub attributes: Seq<(Seq<u8>, Seq<u8>)>,
    pub text: Seq<char>,
}

/// The raw keys and values of attributes.
pub open spec fn attributes_view(attrs: Seq<XmlAttribute>) -> Seq<(Seq<u8>, Seq<u8>)> {
    attrs.map_values(|a: XmlAttribute| (a.key@, a.value@))
}

/// Every key and every value is valid UTF-8.
pub open spec fn attributes_utf8(attrs: Seq<(Seq<u8>, Seq<u8>)>) -> bool {
    forall|i: int| 0 <= i < attrs.len() ==> valid_utf8(#[trigger] attrs[i].0) && valid_utf8(attrs[i].1)
}

/// `piece` stands somewhere in `doc`.
pub open spec fn occurs_in(doc: Seq<u8>, piece: Seq<u8>) -> bool {
    exists|p: int| 0 <= p && p + piece.len() <= doc.len() && #[trigger] doc.subrange(p, p + piece.len()) == piece
}

/// Every key and every value stands somewhere in `doc`.
pub open spec fn attributes_from(doc: Seq<u8>, attrs: Seq<(Seq<u8>, Seq<u8>)>) -> bool {
    forall|i: int| 0 <= i < attrs.len() ==> occurs_in(doc, #[trigger] attrs[i].0) && occurs_in(doc, attrs[i].1)
}

/// Every attribute of every copy stands somewhere in `doc`.
pub open spec fn copies_attributes_from(doc: Seq<u8>, copies: Seq<CopyView>) -> bool {
    forall|i: int| 0 <= i < copies.len() ==> attributes_from(doc, #[trigger] copies[i].attributes)
}

/// Every attribute of every copy is valid UTF-8.
pub open spec fn copies_attributes_utf8(copies: Seq<CopyView>) -> bool {
    forall|i: int| 0 <= i < copies.len() ==> attributes_utf8(#[trigger] copies[i].attributes)
}

/// What a copied element holds.
pub open spec fn copy_view(copy: NodeCopy) -> CopyView {
    CopyView { attributes: attributes_view(copy.attributes@), text: copy.text@ }
}

/// What copied elements hold, in order.
pub open spec fn copies_view(copies: Seq<NodeCopy>) -> Seq<CopyView> {
    copies.map_values(|c: NodeCopy| copy_view(c))
}

/// Errors of the XML functions, with the message of the underlying error.
pub enum XmlError {
    Read(String),
    Attribute(String),
    Utf8(String),
}

impl XmlError {
    /// The message that the error carries.
    pub fn message(&self) -> (m: String)
        ensures
            m@ == match self {
                XmlError::Read(t) => t@,
                XmlError::Attribute(t) => t@,
                XmlError::Utf8(t) => t@,
            },
    {
        match self {
            XmlError::Read(t) => t.clone(),
            XmlError::Attribute(t) => t.clone(),
            XmlError::Utf8(t) => t.clone(),
        }
    }
}

/// `quick_xml::reader::Reader::from_str`: a reader at the start of `text`,
/// which holds all of the text's bytes (`from_str` reads `text.as_bytes()`).
#[verifier::external_body]
fn open_reader<'a>(text: &'a str) -> (cursor: XmlCursor<'a>)
    ensures
        cursor.input == text,
        cursor.remaining == text.spec_bytes().len(),
        cursor.calls@ == Seq::<ReadCall>::empty(),
{
    let reader = Reader::from_str(text);
    let remaining = reader.get_ref().len();
    XmlCursor { reader, input: text, remaining, calls: Ghost(Seq::empty()) }
}

/// `quick_xml::reader::Config::trim_text`, reached through `config_mut`:
/// changes the configuration only, and consumes no input.
#[verifier::external_body]
fn set_trim_text(cursor: &mut XmlCursor, trim: bool)
    ensures
        final(cursor).input == old(cursor).input,
        final(cursor).remaining == old(cursor).remaining,
        final(cursor).calls@ == old(cursor).calls@.push(ReadCall::TrimText(trim)),
{
    cursor.calls = Ghost(cursor.calls@.push(ReadCall::TrimText(trim)));
    cursor.reader.config_mut().trim_text(trim);
}

/// The field `check_end_names` of `quick_xml::reader::Config`, reached
/// through `config_mut`: changes the configuration only.
#[verifier::external_body]
fn set_check_end_names(cursor: &mut XmlCursor, check: bool)
    ensures
        final(cursor).input == old(cursor).input,
        final(cursor).remaining == old(cursor).remaining,
        final(cursor).calls@ == old(cursor).calls@.push(ReadCall::CheckEndNames(check)),
{
    cursor.calls = Ghost(cursor.calls@.push(ReadCall::CheckEndNames(check)));
    cursor.reader.config_mut().check_end_names = check;
}

/// `quick_xml::reader::Reader::read_event` on a byte slice. The reader only
/// ever shortens the slice that it has left. An event other than `Eof`
/// consumes input, and so does an ill-formed-markup error (the only errors
/// after which the reader continues). Its kind, and the message of an error,
/// are named as functions of the input and of the operations made before; a
/// start tag carries them. The error is handed out as its message.
#[verifier::external_body]
fn next_event<'a>(cursor: &mut XmlCursor<'a>) -> (r: Result<XmlEvent<'a>, ReadFailure>)
    ensures
        final(cursor).input == old(cursor).input,
        final(cursor).calls@ == old(cursor).calls@.push(ReadCall::ReadEvent),
        event_kind(r) == read_event_kind(old(cursor).input@, old(cursor).calls@),
        r matches Ok(XmlEvent::Start(tag)) ==> tag.input@ == old(cursor).input@ && tag.calls@ == old(cursor).calls@,
        r matches Err(f) ==> f.message@ == read_event_error_at(old(cursor).input@, old(cursor).calls@),
        final(cursor).remaining <= old(cursor).remaining,
        match r {
            Ok(XmlEvent::Eof) => true,
            Ok(_) => final(cursor).remaining < old(cursor).remaining,
            Err(f) => f.recoverable ==> final(cursor).remaining < old(cursor).remaining,
        },
{
    let (input, calls) = (Ghost(cursor.input@), Ghost(cursor.calls@));
    cursor.calls = Ghost(cursor.calls@.push(ReadCall::ReadEvent));
    let r = cursor.reader.read_event();
    cursor.remaining = cursor.reader.get_ref().len();
    match r {
        Ok(Event::Start(e)) => Ok(XmlEvent::Start(StartTag { tag: e, input, calls })),
        Ok(Event::Eof) => Ok(XmlEvent::Eof),
        Ok(_) => Ok(XmlEvent::Other),
        Err(e @ quick_xml::Error::IllFormed(_)) => Err(ReadFailure { recoverable: true, message: e.to_string() }),
        Err(e) => Err(ReadFailure { recoverable: false, message: e.to_string() }),
    }
}

/// `quick_xml::reader::Reader::read_text` with the end name `name`: the raw
/// text up to the matching end tag. It never gives input back to the reader.
/// By the source the text is `buffer[0..len]`, where `buffer` is the part of
/// the input that the reader held when called, decoded as UTF-8 without
/// change (the `encoding` feature is off); the reader then consumes past the
/// end tag `</...>` that follows it, so at least two more bytes than the
/// text. The text is named as a function of the input and of the operations
/// made before, and so is the message (`Display`) of an error, which is
/// handed out in its place.
#[verifier::external_body]
fn read_text_until(cursor: &mut XmlCursor, name: &str) -> (r: Result<String, String>)
    requires
        old(cursor).remaining <= old(cursor).input.spec_bytes().len(),
    ensures
        final(cursor).input == old(cursor).input,
        final(cursor).remaining <= old(cursor).remaining,
        final(cursor).calls@ == old(cursor).calls@.push(ReadCall::ReadText(name.spec_bytes())),
        match r {
            Ok(t) => read_text_at(old(cursor).input@, old(cursor).calls@, name.spec_bytes()) == Some(t@),
            Err(m) => read_text_at(old(cursor).input@, old(cursor).calls@, name.spec_bytes()) is None
                && m@ == read_text_error_at(old(cursor).input@, old(cursor).calls@, name.spec_bytes()),
        },
        r matches Ok(t) ==> {
            let start = old(cursor).input.spec_bytes().len() - old(cursor).remaining;
            &&& encode_utf8(t@).len() + 2 <= old(cursor).remaining - final(cursor).remaining
            &&& encode_utf8(t@) == old(cursor).input.spec_bytes().subrange(start, start + encode_utf8(t@).len())
        },
{
    cursor.calls = Ghost(cursor.calls@.push(ReadCall::ReadText(name.spec_bytes())));
    let r = cursor.reader.read_text(QName(name.as_bytes()));
    cursor.remaining = cursor.reader.get_ref().len();
    r.map(|t| t.into_owned()).map_err(|e| e.to_string())
}

/// `quick_xml::events::BytesStart::name`: the raw name of a start tag.
#[verifier::external_body]
fn start_tag_name(tag: &StartTag) -> (name: Vec<u8>)
    ensures
        name@ == start_tag_name_at(tag.input@, tag.calls@),
{
    tag.tag.name().as_ref().to_vec()
}

/// `quick_xml::events::BytesStart::attributes`, each attribute handed out as
/// its raw key and raw value; the first malformed attribute is the error,
/// handed out as `unwrap` shows it (its `Debug` form).
/// A start tag read from a string borrows its content from the string, and
/// each key and each value is a part of it, so a part of the string's bytes,
/// that begins and ends next to an ASCII delimiter (white space, `=`, a
/// quote), so on character boundaries: each is valid UTF-8.
#[verifier::external_body]
fn start_tag_attributes(tag: &StartTag) -> (r: Result<Vec<XmlAttribute>, String>)
    ensures
        match r {
            Ok(attrs) => start_tag_attributes_at(tag.input@, tag.calls@) == Some(attributes_view(attrs@)),
            Err(m) => start_tag_attributes_at(tag.input@, tag.calls@) is None
                && m@ == start_tag_attributes_error_at(tag.input@, tag.calls@),
        },
        r matches Ok(attrs) ==> attributes_utf8(attributes_view(attrs@)),
        r matches Ok(attrs) ==> attributes_from(encode_utf8(tag.input@), attributes_view(attrs@)),
{
    let r: Result<Vec<XmlAttribute>, _> = tag.tag.attributes()
        .map(|a| a.map(|a| XmlAttribute { key: a.key.as_ref().to_vec(), value: a.value.to_vec() }))
        .collect();
    r.map_err(|e| format!("{:?}", e))
}


/// `quick_xml::writer::Writer::write_event` with an `Event::Start`, writing
/// into `out`. The event is `BytesStart::new(name)` with each attribute added
/// by `push_attribute` from its raw key and value. By the source this writes
/// `<`, the name, ` key="value"` for each attribute in order, and `>`; an
/// error could only come from the underlying writer, and appending to a
/// `Vec<u8>` does not fail.
#[verifier::external_body]
fn write_start_tag(out: &mut Vec<u8>, name: &str, attributes: &Vec<XmlAttribute>) -> (r: Result<(), quick_xml::Error>)
    ensures
        r is Ok,
        final(out)@ == old(out)@ + start_tag_bytes(name.spec_bytes(), attributes_view(attributes@)),
{
    let mut tag = BytesStart::new(name);
    tag.extend_attributes(attributes.iter().map(|a| (a.key.as_slice(), a.value.as_slice())));
    Writer::new(out).write_event(Event::Start(tag))
}

/// `quick_xml::writer::Writer::write_event` with an `Event::End` made by
/// `BytesEnd::new(name)`, writing into `out`: by the source it writes `</`,
/// the name and `>`; an error could only come from the underlying writer,
/// and appending to a `Vec<u8>` does not fail.
#[verifier::external_body]
fn write_end_tag(out: &mut Vec<u8>, name: &str) -> (r: Result<(), quick_xml::Error>)
    ensures
        r is Ok,
        final(out)@ == old(out)@ + end_tag_bytes(name.spec_bytes()),
{
    Writer::new(out).write_event(Event::End(BytesEnd::new(name)))
}

/// The bytes of one attribute inside a start tag: ` key="value"`.
pub open spec fn attribute_bytes(a: (Seq<u8>, Seq<u8>)) -> Seq<u8> {
    seq![32u8] + a.0 + seq![61u8, 34u8] + a.1 + seq![34u8]
}

/// The attributes of a start tag, one after another.
pub open spec fn attributes_bytes(attrs: Seq<(Seq<u8>, Seq<u8>)>) -> Seq<u8>
    decreases attrs.len(),
{
    if attrs.len() == 0 {
        Seq::empty()
    } else {
        attributes_bytes(attrs.drop_last()) + attribute_bytes(attrs.last())
    }
}

/// A start tag: `<name key="value" ...>`.
pub open spec fn start_tag_bytes(name: Seq<u8>, attrs: Seq<(Seq<u8>, Seq<u8>)>) -> Seq<u8> {
    seq![60u8] + name + attributes_bytes(attrs) + seq![62u8]
}

/// An end tag: `</name>`.
pub open spec fn end_tag_bytes(name: Seq<u8>) -> Seq<u8> {
    seq![60u8, 47u8] + name + seq![62u8]
}

/// One copied element: its start tag, its text (UTF-8), its end tag.
pub open spec fn node_copy_bytes(name: Seq<u8>, copy: CopyView) -> Seq<u8> {
    start_tag_bytes(name, copy.attributes) + encode_utf8(copy.text) + end_tag_bytes(name)
}

/// All copied elements, in order.
pub open spec fn nodes_bytes(name: Seq<u8>, copies: Seq<CopyView>) -> Seq<u8>
    decreases copies.len(),
{
    if copies.len() == 0 {
        Seq::empty()
    } else {
        nodes_bytes(name, copies.drop_last()) + node_copy_bytes(name, copies.last())
    }
}

/// Rendering two lists of copies one after the other gives the rendering
/// of the joined list: the output of several extractions can be put
/// together piece by piece.
pub proof fn lemma_nodes_bytes_concat(name: Seq<u8>, a: Seq<CopyView>, b: Seq<CopyView>)
    ensures
        nodes_bytes(name, a + b) == nodes_bytes(name, a) + nodes_bytes(name, b),
    decreases b.len(),
{
    if b.len() == 0 {
        assert(a + b =~= a);
    } else {
        lemma_nodes_bytes_concat(name, a, b.drop_last());
        assert((a + b).drop_last() =~= a + b.drop_last());
        assert((a + b).last() == b.last());
    }
}

/// Bytes below 0x80 (ASCII characters) are valid UTF-8.
proof fn lemma_ascii_valid_utf8(bytes: Seq<u8>)
    requires
        forall|i: int| 0 <= i < bytes.len() ==> #[trigger] bytes[i] < 0x80,
    ensures
        valid_utf8(bytes),
{
    assert(bytes.subrange(0, 0) =~= Seq::<u8>::empty());
    assert forall|i: int| 0 <= 0 <= i < bytes.len() <= bytes.len()
        implies #[trigger] vstd::utf8::is_leading_byte_width_1(bytes[i]) by {}
    vstd::utf8::partial_valid_utf8_extend_ascii_block(bytes, 0, bytes.len() as int);
    assert(bytes.subrange(0, bytes.len() as int) =~= bytes);
}

/// The attributes of a start tag are valid UTF-8 when each key and each
/// value is.
proof fn lemma_attributes_bytes_utf8(attrs: Seq<(Seq<u8>, Seq<u8>)>)
    requires
        attributes_utf8(attrs),
    ensures
        valid_utf8(attributes_bytes(attrs)),
    decreases attrs.len(),
{
    broadcast use vstd::utf8::valid_utf8_concat;
    if attrs.len() == 0 {
        lemma_ascii_valid_utf8(Seq::<u8>::empty());
    } else {
        let rest = attrs.drop_last();
        assert forall|i: int| 0 <= i < rest.len() implies valid_utf8(#[trigger] rest[i].0) && valid_utf8(rest[i].1) by {
            assert(rest[i] == attrs[i]);
        }
        lemma_attributes_bytes_utf8(rest);
        let a = attrs.last();
        assert(valid_utf8(attrs[attrs.len() - 1].0));
        lemma_ascii_valid_utf8(seq![32u8]);
        lemma_ascii_valid_utf8(seq![61u8, 34u8]);
        lemma_ascii_valid_utf8(seq![34u8]);
        assert(valid_utf8(seq![32u8] + a.0));
        assert(valid_utf8(seq![32u8] + a.0 + seq![61u8, 34u8]));
        assert(valid_utf8(seq![32u8] + a.0 + seq![61u8, 34u8] + a.1));
        assert(valid_utf8(attribute_bytes(a)));
    }
}

/// One rendered element is valid UTF-8 when its name and its attributes are,
/// and takes at least `2 * name.len() + 5` bytes: `<name>` and `</name>`.
proof fn lemma_node_copy_bytes_shape(name: Seq<u8>, copy: CopyView)
    ensures
        node_copy_bytes(name, copy).len() >= 2 * name.len() + 5,
        valid_utf8(name) && attributes_utf8(copy.attributes) ==> valid_utf8(node_copy_bytes(name, copy)),
{
    broadcast use vstd::utf8::valid_utf8_concat;
    if valid_utf8(name) && attributes_utf8(copy.attributes) {
        lemma_attributes_bytes_utf8(copy.attributes);
        lemma_ascii_valid_utf8(seq![60u8]);
        lemma_ascii_valid_utf8(seq![62u8]);
        lemma_ascii_valid_utf8(seq![60u8, 47u8]);
        vstd::utf8::encode_utf8_valid_utf8(copy.text);
        assert(valid_utf8(seq![60u8] + name));
        assert(valid_utf8(seq![60u8] + name + attributes_bytes(copy.attributes)));
        assert(valid_utf8(start_tag_bytes(name, copy.attributes)));
        assert(valid_utf8(seq![60u8, 47u8] + name));
        assert(valid_utf8(end_tag_bytes(name)));
        assert(valid_utf8(start_tag_bytes(name, copy.attributes) + encode_utf8(copy.text)));
    }
}

/// What an extraction writes is valid UTF-8 when the name and every
/// attribute are; each element takes at least `2 * name.len() + 5` bytes
/// (`<name>` and `</name>`), so nothing is written exactly when no element
/// was copied.
pub proof fn lemma_nodes_bytes_shape(name: Seq<u8>, copies: Seq<CopyView>)
    ensures
        nodes_bytes(name, copies).len() >= copies.len() * (2 * name.len() + 5),
        (nodes_bytes(name, copies).len() == 0) == (copies.len() == 0),
        valid_utf8(name) && copies_attributes_utf8(copies) ==> valid_utf8(nodes_bytes(name, copies)),
    decreases copies.len(),
{
    broadcast use vstd::utf8::valid_utf8_concat;
    if copies.len() == 0 {
        lemma_ascii_valid_utf8(Seq::<u8>::empty());
    } else {
        let rest = copies.drop_last();
        lemma_nodes_bytes_shape(name, rest);
        lemma_node_copy_bytes_shape(name, copies.last());
        let m = 2 * name.len() + 5;
        let k = copies.len();
        assert((k - 1) * m + m == k * m) by (nonlinear_arith);
        if valid_utf8(name) && copies_attributes_utf8(copies) {
            assert forall|i: int| 0 <= i < rest.len() implies attributes_utf8(#[trigger] rest[i].attributes) by {
                assert(rest[i] == copies[i]);
            }
            assert(attributes_utf8(copies[k - 1].attributes));
        }
    }
}

/// Whether two byte strings are equal.
fn bytes_equal(a: &[u8], b: &[u8]) -> (r: bool)
    ensures
        r == (a@ == b@),
{
    if a.len() != b.len() {
        return false;
    }
    let mut i: usize = 0;
    while i < a.len()
        invariant
            a@.len() == b@.len(),
            0 <= i <= a@.len(),
            forall|j: int| 0 <= j < i ==> a@[j] == b@[j],
        decreases a@.len() - i,
    {
        if a[i] != b[i] {
            return false;
        }
        i = i + 1;
    }
    assert(a@ =~= b@);
    true
}

/// Writes the elements in `copies` as `<name attrs>text</name>`, one after
/// another, and counts them. Each element takes at least
/// `2 * name.len() + 5` bytes; the output is valid UTF-8 when every
/// attribute is.
pub fn render_nodes(name: &str, copies: &Vec<NodeCopy>) -> (r: (Vec<u8>, usize))
    ensures
        r.0@ == nodes_bytes(name.spec_bytes(), copies_view(copies@)),
        r.1 == copies@.len(),
        r.0@.len() >= r.1 * (2 * name.spec_bytes().len() + 5),
        (r.1 == 0) == (r.0@.len() == 0),
        copies_attributes_utf8(copies_view(copies@)) ==> valid_utf8(r.0@),
{
    let mut out: Vec<u8> = Vec::new();
    let mut i: usize = 0;
    while i < copies.len()
        invariant
            0 <= i <= copies@.len(),
            out@ == nodes_bytes(name.spec_bytes(), copies_view(copies@.subrange(0, i as int))),
        decreases copies@.len() - i,
    {
        let copy = &copies[i];
        let ghost before = out@;
        let _ = write_start_tag(&mut out, name, &copy.attributes);
        out.extend_from_slice(copy.text.as_str().as_bytes());
        let _ = write_end_tag(&mut out, name);
        proof {
            let prefix = copies_view(copies@.subrange(0, i + 1));
            assert(prefix.drop_last() =~= copies_view(copies@.subrange(0, i as int)));
            assert(prefix.last() == copy_view(copies@[i as int]));
            assert(out@ =~= before + node_copy_bytes(name.spec_bytes(), copy_view(copies@[i as int])));
        }
        i = i + 1;
    }
    assert(copies@.subrange(0, copies@.len() as int) =~= copies@);
    proof {
        vstd::utf8::encode_utf8_valid_utf8(name@);
        lemma_nodes_bytes_shape(name.spec_bytes(), copies_view(copies@));
    }
    (out, copies.len())
}


/// The UTF-8 bytes of a copy's text.
pub open spec fn text_bytes(copy: CopyView) -> Seq<u8> {
    encode_utf8(copy.text)
}

/// The texts of `copies` stand in `doc` at the positions `at`, in order:
/// each is the part of `doc` that starts at its position, and at least two
/// bytes (those of an end tag) separate it from the next one and from the
/// end of `doc`.
pub open spec fn texts_placed(doc: Seq<u8>, copies: Seq<CopyView>, at: Seq<int>) -> bool {
    &&& at.len() == copies.len()
    &&& forall|i: int| 0 <= i < copies.len() ==> {
        &&& 0 <= #[trigger] at[i]
        &&& at[i] + text_bytes(copies[i]).len() + 2 <= doc.len()
        &&& text_bytes(copies[i]) == doc.subrange(at[i], at[i] + text_bytes(copies[i]).len())
    }
    &&& forall|i: int, j: int| #![trigger at[i], at[j]] 0 <= i < j < copies.len() ==>
        at[i] + text_bytes(copies[i]).len() + 2 <= at[j]
}

/// The texts of `copies` are pieces of `doc`, one after another.
pub open spec fn texts_found_in(doc: Seq<u8>, copies: Seq<CopyView>) -> bool {
    exists|at: Seq<int>| texts_placed(doc, copies, at)
}

/// Why an extraction fails, with the message of the underlying error.
pub enum ExtractError {
    Attribute(Seq<char>),
    Read(Seq<char>),
}

/// The operations that an extraction makes before its first read: text
/// trimmed, end names unchecked.
pub open spec fn extraction_setup() -> Seq<ReadCall> {
    seq![ReadCall::TrimText(true), ReadCall::CheckEndNames(false)]
}

/// `copies` put before the elements that a later part of an extraction
/// gives; failures and unfinished runs stay as they are.
pub open spec fn prepend_copies(
    copies: Seq<CopyView>,
    rest: Option<Result<Seq<CopyView>, ExtractError>>,
) -> Option<Result<Seq<CopyView>, ExtractError>> {
    match rest {
        Some(Ok(r)) => Some(Ok(copies + r)),
        _ => rest,
    }
}

/// The extraction of the elements named `node` from a reader on `input`
/// after the operations `calls`, followed for at most `fuel` reads of an
/// event (`None` when that is not enough). Each read event decides: the end
/// of the input, or an error after which the reader only reports that end,
/// finishes; a start tag named `node` is copied with its attributes and the
/// text up to its matching end tag, where a malformed attribute or a failed
/// text read fails the extraction with that error's message; any other
/// event, and ill-formed markup, is passed over.
pub open spec fn extraction_run(
    input: Seq<char>,
    node: Seq<u8>,
    calls: Seq<ReadCall>,
    fuel: nat,
) -> Option<Result<Seq<CopyView>, ExtractError>>
    decreases fuel,
{
    if fuel == 0 {
        None
    } else {
        let after = calls.push(ReadCall::ReadEvent);
        match read_event_kind(input, calls) {
            EventKind::Eof => Some(Ok(Seq::empty())),
            EventKind::Failed => Some(Ok(Seq::empty())),
            EventKind::Start => {
                if start_tag_name_at(input, calls) == node {
                    match start_tag_attributes_at(input, calls) {
                        None => Some(Err(ExtractError::Attribute(start_tag_attributes_error_at(input, calls)))),
                        Some(attributes) => match read_text_at(input, after, node) {
                            None => Some(Err(ExtractError::Read(read_text_error_at(input, after, node)))),
                            Some(text) => prepend_copies(
                                seq![CopyView { attributes, text }],
                                extraction_run(input, node, after.push(ReadCall::ReadText(node)), (fuel - 1) as nat),
                            ),
                        },
                    }
                } else {
                    extraction_run(input, node, after, (fuel - 1) as nat)
                }
            },
            _ => extraction_run(input, node, after, (fuel - 1) as nat),
        }
    }
}

/// Every start tag named `node` whose attributes and text can be read is
/// copied: from that read on, the extraction gives the copy followed by the
/// extraction of the rest of the input, however many reads came before.
pub proof fn lemma_extraction_copies_every_match(input: Seq<char>, node: Seq<u8>, calls: Seq<ReadCall>, fuel: nat)
    requires
        read_event_kind(input, calls) is Start,
        start_tag_name_at(input, calls) == node,
        start_tag_attributes_at(input, calls) is Some,
        read_text_at(input, calls.push(ReadCall::ReadEvent), node) is Some,
    ensures
        ({
            let after = calls.push(ReadCall::ReadEvent);
            let copy = CopyView {
                attributes: start_tag_attributes_at(input, calls)->0,
                text: read_text_at(input, after, node)->0,
            };
            extraction_run(input, node, calls, fuel + 1)
                == prepend_copies(seq![copy], extraction_run(input, node, after.push(ReadCall::ReadText(node)), fuel))
        }),
{
}

/// Any other event, and ill-formed markup, is passed over: the extraction
/// goes on with the next read, however many reads came before.
pub proof fn lemma_extraction_passes_over(input: Seq<char>, node: Seq<u8>, calls: Seq<ReadCall>, fuel: nat)
    requires
        read_event_kind(input, calls) is Other || read_event_kind(input, calls) is IllFormed
            || (read_event_kind(input, calls) is Start && start_tag_name_at(input, calls) != node),
    ensures
        extraction_run(input, node, calls, fuel + 1)
            == extraction_run(input, node, calls.push(ReadCall::ReadEvent), fuel),
{
}

/// Only the end of the input, or an error after which the reader reports
/// only that end, finishes an extraction, and it adds nothing more.
pub proof fn lemma_extraction_ends_at_eof(input: Seq<char>, node: Seq<u8>, calls: Seq<ReadCall>, fuel: nat)
    ensures
        (read_event_kind(input, calls) is Eof || read_event_kind(input, calls) is Failed)
            ==> extraction_run(input, node, calls, fuel + 1) == Some(Ok::<Seq<CopyView>, ExtractError>(Seq::empty())),
        (read_event_kind(input, calls) is Start && start_tag_name_at(input, calls) == node
            && start_tag_attributes_at(input, calls) is Some
            && read_text_at(input, calls.push(ReadCall::ReadEvent), node) is Some)
            ==> extraction_run(input, node, calls, fuel + 1) != Some(Ok::<Seq<CopyView>, ExtractError>(Seq::empty())),
{
}

/// The extraction of the elements named `node` from `input` ends with
/// `outcome`.
pub open spec fn extracts(input: Seq<char>, node: Seq<u8>, outcome: Result<Seq<CopyView>, ExtractError>) -> bool {
    exists|fuel: nat| #[trigger] extraction_run(input, node, extraction_setup(), fuel) == Some(outcome)
}

/// More fuel does not change a finished run.
pub proof fn lemma_extraction_run_fuel(input: Seq<char>, node: Seq<u8>, calls: Seq<ReadCall>, fuel: nat, more: nat)
    requires
        extraction_run(input, node, calls, fuel) is Some,
        fuel <= more,
    ensures
        extraction_run(input, node, calls, more) == extraction_run(input, node, calls, fuel),
    decreases fuel,
{
    let after = calls.push(ReadCall::ReadEvent);
    let text_after = after.push(ReadCall::ReadText(node));
    if fuel > 0 {
        match read_event_kind(input, calls) {
            EventKind::Eof => {},
            EventKind::Failed => {},
            EventKind::Start => {
                if start_tag_name_at(input, calls) == node {
                    if let Some(_) = start_tag_attributes_at(input, calls) {
                        if let Some(_) = read_text_at(input, after, node) {
                            lemma_extraction_run_fuel(input, node, text_after, (fuel - 1) as nat, (more - 1) as nat);
                        }
                    }
                } else {
                    lemma_extraction_run_fuel(input, node, after, (fuel - 1) as nat, (more - 1) as nat);
                }
            },
            _ => {
                lemma_extraction_run_fuel(input, node, after, (fuel - 1) as nat, (more - 1) as nat);
            },
        }
    }
}

/// An extraction has one outcome: the reader is a function of its input and
/// of the operations made on it.
pub proof fn lemma_extracts_unique(
    input: Seq<char>,
    node: Seq<u8>,
    a: Result<Seq<CopyView>, ExtractError>,
    b: Result<Seq<CopyView>, ExtractError>,
)
    requires
        extracts(input, node, a),
        extracts(input, node, b),
    ensures
        a == b,
{
    let fa = choose|fuel: nat| #[trigger] extraction_run(input, node, extraction_setup(), fuel) == Some(a);
    let fb = choose|fuel: nat| #[trigger] extraction_run(input, node, extraction_setup(), fuel) == Some(b);
    if fa <= fb {
        lemma_extraction_run_fuel(input, node, extraction_setup(), fa, fb);
    } else {
        lemma_extraction_run_fuel(input, node, extraction_setup(), fb, fa);
    }
}

/// Putting two lists of copies before a result, one after the other, is
/// putting their joined list before it.
proof fn lemma_prepend_twice(a: Seq<CopyView>, b: Seq<CopyView>, rest: Option<Result<Seq<CopyView>, ExtractError>>)
    ensures
        prepend_copies(a, prepend_copies(b, rest)) == prepend_copies(a + b, rest),
{
    if let Some(Ok(r)) = rest {
        assert(a + (b + r) =~= (a + b) + r);
    }
}

/// A read of an event that copies nothing: the run from the start, `steps`
/// reads in, goes on as the run after that read, with the same copies before.
proof fn lemma_extraction_skip(
    input: Seq<char>,
    node: Seq<u8>,
    calls: Seq<ReadCall>,
    next: Seq<ReadCall>,
    steps: nat,
    before: Seq<CopyView>,
)
    requires
        forall|f: nat| #[trigger] extraction_run(input, node, extraction_setup(), f + steps)
            == prepend_copies(before, extraction_run(input, node, calls, f)),
        forall|f: nat| #[trigger] extraction_run(input, node, calls, f + 1) == extraction_run(input, node, next, f),
    ensures
        forall|f: nat| #[trigger] extraction_run(input, node, extraction_setup(), f + (steps + 1))
            == prepend_copies(before, extraction_run(input, node, next, f)),
{
    assert forall|f: nat| #[trigger] extraction_run(input, node, extraction_setup(), f + (steps + 1))
        == prepend_copies(before, extraction_run(input, node, next, f)) by {
        assert(f + (steps + 1) == (f + 1) + steps);
        assert(extraction_run(input, node, calls, f + 1) == extraction_run(input, node, next, f));
    }
}

/// A read of an event that copies one element: the run from the start,
/// `steps` reads in, goes on as the run after that element, with the element
/// added to the copies before.
proof fn lemma_extraction_copy(
    input: Seq<char>,
    node: Seq<u8>,
    calls: Seq<ReadCall>,
    next: Seq<ReadCall>,
    steps: nat,
    before: Seq<CopyView>,
    copy: CopyView,
)
    requires
        forall|f: nat| #[trigger] extraction_run(input, node, extraction_setup(), f + steps)
            == prepend_copies(before, extraction_run(input, node, calls, f)),
        forall|f: nat| #[trigger] extraction_run(input, node, calls, f + 1)
            == prepend_copies(seq![copy], extraction_run(input, node, next, f)),
    ensures
        forall|f: nat| #[trigger] extraction_run(input, node, extraction_setup(), f + (steps + 1))
            == prepend_copies(before.push(copy), extraction_run(input, node, next, f)),
{
    assert forall|f: nat| #[trigger] extraction_run(input, node, extraction_setup(), f + (steps + 1))
        == prepend_copies(before.push(copy), extraction_run(input, node, next, f)) by {
        assert(f + (steps + 1) == (f + 1) + steps);
        assert(extraction_run(input, node, calls, f + 1)
            == prepend_copies(seq![copy], extraction_run(input, node, next, f)));
        lemma_prepend_twice(before, seq![copy], extraction_run(input, node, next, f));
        assert(before + seq![copy] =~= before.push(copy));
    }
}

/// A run whose next read finishes it ends with the copies made so far.
proof fn lemma_collection_finished(input: Seq<char>, node: Seq<u8>, calls: Seq<ReadCall>, steps: nat, copies: Seq<CopyView>)
    requires
        read_event_kind(input, calls) is Eof || read_event_kind(input, calls) is Failed,
        extraction_run(input, node, extraction_setup(), 1 + steps)
            == prepend_copies(copies, extraction_run(input, node, calls, 1)),
    ensures
        extracts(input, node, Ok(copies)),
{
    assert(copies + Seq::<CopyView>::empty() =~= copies);
    assert(extraction_run(input, node, extraction_setup(), 1 + steps) == Some(Ok::<Seq<CopyView>, ExtractError>(copies)));
}

/// Hands out the copies of a finished collection.
fn finish_collection(xml: &str, node: &str, copies: Vec<NodeCopy>, at: Ghost<Seq<int>>) -> (r: Result<Vec<NodeCopy>, XmlError>)
    requires
        extracts(xml@, node.spec_bytes(), Ok(copies_view(copies@))),
        xml@.len() == 0 ==> copies@.len() == 0,
        texts_placed(xml.spec_bytes(), copies_view(copies@), at@),
        copies_attributes_utf8(copies_view(copies@)),
        copies_attributes_from(xml.spec_bytes(), copies_view(copies@)),
    ensures
        r matches Ok(c) && c@ == copies@,
        texts_found_in(xml.spec_bytes(), copies_view(copies@)),
        copies_attributes_utf8(copies_view(copies@)),
        copies_attributes_from(xml.spec_bytes(), copies_view(copies@)),
{
    assert(texts_placed(xml.spec_bytes(), copies_view(copies@), at@));
    Ok(copies)
}

/// Whether `r` is what a collection of elements gives for `outcome`.
pub open spec fn collection_matches(r: Result<Vec<NodeCopy>, XmlError>, outcome: Result<Seq<CopyView>, ExtractError>) -> bool {
    match outcome {
        Ok(cs) => r matches Ok(copies) && copies_view(copies@) == cs,
        Err(ExtractError::Attribute(m)) => r matches Err(XmlError::Attribute(t)) && t@ == m,
        Err(ExtractError::Read(m)) => r matches Err(XmlError::Read(t)) && t@ == m,
    }
}

/// Reads `xml` with `quick_xml` (text trimmed, end names unchecked) and
/// copies out every element whose name is `node`: the attributes of its start
/// tag and the raw text up to its matching end tag. Ill-formed markup is
/// skipped; reading stops at the end of the input or at the first error
/// after which `quick_xml` reports only the end of the input. A malformed
/// attribute of a copied element, or a failure to read its text, is an error.
/// An empty input has no elements; the copied texts are pieces of the input,
/// in the order in which they stand there, and each attribute key and value
/// is a piece of it too, valid UTF-8.
pub fn collect_nodes(xml: &str, node: &str) -> (r: Result<Vec<NodeCopy>, XmlError>)
    ensures
        exists|outcome| #[trigger] extracts(xml@, node.spec_bytes(), outcome) && collection_matches(r, outcome),
        xml@.len() == 0 ==> (r matches Ok(copies) && copies@.len() == 0),
        r matches Ok(copies) ==> texts_found_in(xml.spec_bytes(), copies_view(copies@)),
        r matches Ok(copies) ==> copies_attributes_utf8(copies_view(copies@)),
        r matches Ok(copies) ==> copies_attributes_from(xml.spec_bytes(), copies_view(copies@)),
{
    let mut cursor = open_reader(xml);
    set_trim_text(&mut cursor, true);
    set_check_end_names(&mut cursor, false);
    let node_bytes = node.as_bytes();
    let mut copies: Vec<NodeCopy> = Vec::new();
    let ghost doc = xml.spec_bytes();
    let ghost total = doc.len();
    let ghost nb = node.spec_bytes();
    let ghost mut at: Seq<int> = Seq::empty();
    let ghost mut steps: nat = 0;
    proof {
        crate::digest::lemma_encode_utf8_empty(xml@);
        assert(cursor.calls@ =~= extraction_setup());
        assert forall|f: nat| #[trigger] extraction_run(xml@, nb, extraction_setup(), f + steps)
            == prepend_copies(copies_view(copies@), extraction_run(xml@, nb, cursor.calls@, f)) by {
            assert(copies_view(copies@) =~= Seq::<CopyView>::empty());
            if let Some(Ok(r)) = extraction_run(xml@, nb, cursor.calls@, f) {
                assert(Seq::<CopyView>::empty() + r =~= r);
            }
        }
    }
    loop
        invariant
            cursor.input == xml,
            doc == xml.spec_bytes(),
            nb == node.spec_bytes(),
            node_bytes@ == nb,
            total == doc.len(),
            cursor.remaining <= total,
            at.len() == copies@.len(),
            forall|i: int| 0 <= i < copies@.len() ==> {
                &&& 0 <= #[trigger] at[i]
                &&& at[i] + text_bytes(copies_view(copies@)[i]).len() + 2 <= total - cursor.remaining
                &&& text_bytes(copies_view(copies@)[i]) == doc.subrange(at[i], at[i] + text_bytes(copies_view(copies@)[i]).len())
            },
            forall|i: int, j: int| #![trigger at[i], at[j]] 0 <= i < j < copies@.len() ==>
                at[i] + text_bytes(copies_view(copies@)[i]).len() + 2 <= at[j],
            total == 0 ==> copies@.len() == 0,
            copies_attributes_utf8(copies_view(copies@)),
            copies_attributes_from(doc, copies_view(copies@)),
            forall|f: nat| #[trigger] extraction_run(xml@, nb, extraction_setup(), f + steps)
                == prepend_copies(copies_view(copies@), extraction_run(xml@, nb, cursor.calls@, f)),
        decreases cursor.remaining,
    {
        let ghost before = cursor.remaining;
        let ghost calls = cursor.calls@;
        let ghost after = calls.push(ReadCall::ReadEvent);
        let ghost old_copies = copies@;
        proof {
            // One read of an event is one step of the run.
            assert(extraction_run(xml@, nb, extraction_setup(), 1 + steps)
                == prepend_copies(copies_view(copies@), extraction_run(xml@, nb, calls, 1)));
        }
        match next_event(&mut cursor) {
            Ok(XmlEvent::Start(tag)) => {
                let name = start_tag_name(&tag);
                if bytes_equal(name.as_slice(), node_bytes) {
                    let attributes = match start_tag_attributes(&tag) {
                        Ok(a) => a,
                        Err(m) => {
                            proof {
                                let e = ExtractError::Attribute(m@);
                                assert(extraction_run(xml@, nb, extraction_setup(), 1 + steps)
                                    == Some(Err::<Seq<CopyView>, ExtractError>(e)));
                                assert(extracts(xml@, nb, Err(e)));
                            }
                            return Err(XmlError::Attribute(m));
                        },
                    };
                    let ghost start = total - cursor.remaining;
                    let text = match read_text_until(&mut cursor, node) {
                        Ok(t) => t,
                        Err(m) => {
                            proof {
                                let e = ExtractError::Read(m@);
                                assert(extraction_run(xml@, nb, extraction_setup(), 1 + steps)
                                    == Some(Err::<Seq<CopyView>, ExtractError>(e)));
                                assert(extracts(xml@, nb, Err(e)));
                            }
                            return Err(XmlError::Read(m));
                        },
                    };
                    let ghost copy = CopyView { attributes: attributes_view(attributes@), text: text@ };
                    copies.push(NodeCopy { attributes, text });
                    proof {
                        at = at.push(start);
                        assert(copies_view(copies@) =~= copies_view(old_copies).push(copy));
                        assert forall|i: int| 0 <= i < copies@.len() implies
                            attributes_utf8(#[trigger] copies_view(copies@)[i].attributes)
                            && attributes_from(doc, copies_view(copies@)[i].attributes) by {
                            if i < old_copies.len() {
                                assert(copies_view(copies@)[i] == copies_view(old_copies)[i]);
                            }
                        }
                        assert forall|i: int| 0 <= i < copies@.len() implies {
                            &&& 0 <= #[trigger] at[i]
                            &&& at[i] + text_bytes(copies_view(copies@)[i]).len() + 2 <= total - cursor.remaining
                            &&& text_bytes(copies_view(copies@)[i]) == doc.subrange(at[i], at[i] + text_bytes(copies_view(copies@)[i]).len())
                        } by {
                            if i < old_copies.len() {
                                assert(copies_view(copies@)[i] == copies_view(old_copies)[i]);
                            }
                        }
                        assert forall|i: int, j: int| #![trigger at[i], at[j]] 0 <= i < j < copies@.len() implies
                            at[i] + text_bytes(copies_view(copies@)[i]).len() + 2 <= at[j] by {
                            assert(copies_view(copies@)[i] == copies_view(old_copies)[i]);
                        }
                        lemma_extraction_copy(xml@, nb, calls, cursor.calls@, steps, copies_view(old_copies), copy);
                        steps = steps + 1;
                    }
                } else {
                    proof {
                        lemma_extraction_skip(xml@, nb, calls, cursor.calls@, steps, copies_view(copies@));
                        steps = steps + 1;
                    }
                }
            },
            Ok(XmlEvent::Eof) => {
                proof {
                    lemma_collection_finished(xml@, nb, calls, steps, copies_view(copies@));
                }
                return finish_collection(xml, node, copies, Ghost(at));
            },
            Ok(XmlEvent::Other) => {
                proof {
                    lemma_extraction_skip(xml@, nb, calls, cursor.calls@, steps, copies_view(copies@));
                    steps = steps + 1;
                }
            },
            Err(failure) => {
                if !failure.recoverable {
                    // quick_xml has moved to its final state: every further
                    // read would report the end of the input.
                    proof {
                        lemma_collection_finished(xml@, nb, calls, steps, copies_view(copies@));
                    }
                    return finish_collection(xml, node, copies, Ghost(at));
                }
                proof {
                    lemma_extraction_skip(xml@, nb, calls, cursor.calls@, steps, copies_view(copies@));
                    steps = steps + 1;
                }
            },
        }
        assert(cursor.remaining < before);
    }
}

/// Whether `r` is what an extraction writes out for `outcome`.
pub open spec fn extraction_output_matches(
    r: Result<(Vec<u8>, usize), XmlError>,
    node: Seq<u8>,
    outcome: Result<Seq<CopyView>, ExtractError>,
) -> bool {
    match outcome {
        Ok(cs) => r matches Ok((bytes, count)) && bytes@ == nodes_bytes(node, cs) && count == cs.len(),
        Err(ExtractError::Attribute(m)) => r matches Err(XmlError::Attribute(t)) && t@ == m,
        Err(ExtractError::Read(m)) => r matches Err(XmlError::Read(t)) && t@ == m,
    }
}

/// Copies out every element named `node` of `xml` (see `collect_nodes`) as
/// `<node attrs>text</node>`, one after another, and counts them. An empty
/// input gives nothing and a count of zero. What is written is valid UTF-8,
/// and each element takes at least `2 * node.len() + 5` bytes of it, so it
/// is empty exactly when no element was found.
pub fn extract_nodes_from_xml(xml: &str, node: &str) -> (r: Result<(Vec<u8>, usize), XmlError>)
    ensures
        exists|outcome| #[trigger] extracts(xml@, node.spec_bytes(), outcome)
            && extraction_output_matches(r, node.spec_bytes(), outcome),
        xml@.len() == 0 ==> (r matches Ok((bytes, count)) && bytes@.len() == 0 && count == 0),
        r matches Ok((bytes, count)) ==> exists|copies: Seq<CopyView>|
            copies.len() == count && bytes@ == #[trigger] nodes_bytes(node.spec_bytes(), copies)
            && texts_found_in(xml.spec_bytes(), copies)
            && copies_attributes_from(xml.spec_bytes(), copies),
        r matches Ok((bytes, count)) ==> {
            &&& valid_utf8(bytes@)
            &&& bytes@.len() >= count * (2 * node.spec_bytes().len() + 5)
            &&& (count == 0) == (bytes@.len() == 0)
        },
{
    let r = collect_nodes(xml, node);
    let ghost outcome = choose|outcome| #[trigger] extracts(xml@, node.spec_bytes(), outcome) && collection_matches(r, outcome);
    let copies = match r {
        Ok(c) => c,
        Err(e) => {
            assert(extraction_output_matches(Err(e), node.spec_bytes(), outcome));
            return Err(e);
        },
    };
    let (bytes, count) = render_nodes(node, &copies);
    assert(bytes@ == nodes_bytes(node.spec_bytes(), copies_view(copies@)));
    let out: Result<(Vec<u8>, usize), XmlError> = Ok((bytes, count));
    assert(extraction_output_matches(out, node.spec_bytes(), outcome));
    out
}

/// `piece` stands in `doc` at `start`, and at least two more bytes follow it.
pub open spec fn piece_at(doc: Seq<u8>, piece: Seq<u8>, start: int) -> bool {
    &&& 0 <= start
    &&& start + piece.len() + 2 <= doc.len()
    &&& piece == doc.subrange(start, start + piece.len())
}

/// Reads the first event of `xml` (text trimmed), then the raw text up to
/// the end tag named `node` (end names unchecked). An error of either read
/// is the result; an empty input has no such end tag and is an error. The
/// text is a piece of the input, followed there by at least two more bytes.
pub fn read_text_in_node(xml: &str, node: &str) -> (r: Result<String, XmlError>)
    ensures
        ({
            let setup = seq![ReadCall::TrimText(true)];
            match read_event_kind(xml@, setup) {
                EventKind::IllFormed | EventKind::Failed =>
                    r matches Err(XmlError::Read(m)) && m@ == read_event_error_at(xml@, setup),
                _ => {
                    let calls = setup.push(ReadCall::ReadEvent).push(ReadCall::CheckEndNames(false));
                    match read_text_at(xml@, calls, node.spec_bytes()) {
                        Some(text) => r matches Ok(t) && t@ == text,
                        None => r matches Err(XmlError::Read(m))
                            && m@ == read_text_error_at(xml@, calls, node.spec_bytes()),
                    }
                },
            }
        }),
        xml@.len() == 0 ==> r is Err,
        r matches Ok(text) ==> exists|start: int| #[trigger] piece_at(xml.spec_bytes(), encode_utf8(text@), start),
{
    let mut cursor = open_reader(xml);
    proof {
        crate::digest::lemma_encode_utf8_empty(xml@);
    }
    set_trim_text(&mut cursor, true);
    assert(cursor.calls@ =~= seq![ReadCall::TrimText(true)]);
    if let Err(failure) = next_event(&mut cursor) {
        return Err(XmlError::Read(failure.message));
    }
    set_check_end_names(&mut cursor, false);
    assert(cursor.calls@ =~= seq![ReadCall::TrimText(true)].push(ReadCall::ReadEvent).push(ReadCall::CheckEndNames(false)));
    assert(cursor.remaining <= xml.spec_bytes().len());
    let ghost start = xml.spec_bytes().len() - cursor.remaining;
    let text = match read_text_until(&mut cursor, node) {
        Ok(t) => t,
        Err(m) => return Err(XmlError::Read(m)),
    };
    set_check_end_names(&mut cursor, true);
    assert(0 <= start);
    assert(start + encode_utf8(text@).len() + 2 <= xml.spec_bytes().len());
    assert(piece_at(xml.spec_bytes(), encode_utf8(text@), start));
    let ghost text_chars = text@;
    let r: Result<String, XmlError> = Ok(text);
    assert(r->Ok_0@ == text_chars);
    r
}

} // verus!
