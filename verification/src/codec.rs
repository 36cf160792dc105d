//! Bytes to events and events to bytes, through the `quick-xml` reader and
//! writer.
//!
//! The parsers and serializers of this library work on [`XmlEvent`]s. This
//! module turns a document's bytes into those events with `quick_xml::Reader`,
//! and turns events back into bytes with `quick_xml::Writer`.

use vstd::prelude::*;
use vstd::utf8::{decode_utf8, encode_utf8, valid_utf8};

use quick_xml::events::attributes::{Attribute, Attributes};
use quick_xml::events::{BytesCData, BytesDecl, BytesEnd, BytesRef, BytesStart, BytesText, Event};
use quick_xml::{Reader, Writer};

use crate::error::{Error, ErrorView, XmlError};
use crate::feed::WriteConfig;
use crate::xml::{attributes_view, events_view, AttributeEventView, EventView, XmlAttribute, XmlEvent};

verus! {

// ---------------------------------------------------------------------------
// The quick-xml types that pass through this module
// ---------------------------------------------------------------------------

/// `quick_xml::Reader`, held opaque: the reader of a document.
#[verifier::external_type_specification]
#[verifier::external_body]
#[verifier::reject_recursive_types(R)]
pub struct ExReader<R>(quick_xml::Reader<R>);

/// `quick_xml::Writer`, held opaque: the writer of a document.
#[verifier::external_type_specification]
#[verifier::external_body]
#[verifier::reject_recursive_types(W)]
pub struct ExWriter<W>(quick_xml::Writer<W>);

/// `quick_xml::events::BytesStart`, held opaque: a start tag.
#[verifier::external_type_specification]
#[verifier::external_body]
pub struct ExBytesStart<'a>(quick_xml::events::BytesStart<'a>);

/// `quick_xml::events::attributes::Attributes`, held opaque: the attributes of a start tag.
#[verifier::external_type_specification]
#[verifier::external_body]
pub struct ExAttributes<'a>(quick_xml::events::attributes::Attributes<'a>);

/// `quick_xml::events::attributes::Attribute`, held opaque: one attribute.
#[verifier::external_type_specification]
#[verifier::external_body]
pub struct ExAttribute<'a>(quick_xml::events::attributes::Attribute<'a>);

/// `quick_xml::events::attributes::AttrError`, held opaque: what `Attributes` yields for a
/// malformed attribute.
#[verifier::external_type_specification]
#[verifier::external_body]
pub struct ExAttrError(quick_xml::events::attributes::AttrError);

/// One event of the reader, by kind: a start tag still in quick-xml's form,
/// as its attributes are read from it; of the others, the raw bytes.
enum RawEvent<'a> {
    Start(BytesStart<'a>),
    End(Vec<u8>),
    Text(Vec<u8>),
    CData(Vec<u8>),
    Reference(Vec<u8>),
    Other,
    Eof,
}

/// An event of the reader as plain values: the bytes of a start tag between
/// `<` and `>` (its name, then its attributes), the name of an end tag, the
/// raw content of character data, of a CDATA section and of a general
/// reference `&content;`.
pub enum RawEventView {
    Start(Seq<u8>),
    End(Seq<u8>),
    Text(Seq<u8>),
    CData(Seq<u8>),
    Reference(Seq<u8>),
    Other,
    Eof,
}

// ---------------------------------------------------------------------------
// Reading: the calls into the reader
// ---------------------------------------------------------------------------

/// What the `k`-th call (from 0) of `Reader::read_event` gives on a reader
/// over `bytes` made by [`open_reader`]: the event, or the message of the
/// reader's error.
pub uninterp spec fn reader_event(bytes: Seq<u8>, k: nat) -> Result<RawEventView, Seq<char>>;

/// The input of a reader over a byte slice.
pub uninterp spec fn reader_input(reader: Reader<&[u8]>) -> Seq<u8>;

/// How many times `read_event` has been called on a reader over a byte slice.
pub uninterp spec fn events_read(reader: Reader<&[u8]>) -> nat;

/// The bytes that a start tag holds, as they are written between `<` and
/// `>`: its name, then its attributes (for a tag read as `<a/>`, without the
/// `/`).
pub uninterp spec fn start_tag_bytes(tag: BytesStart) -> Seq<u8>;

/// What `BytesStart::name` gives for a start tag: the raw bytes of its name.
pub uninterp spec fn start_tag_name_bytes(tag: BytesStart) -> Seq<u8>;

/// What `BytesStart::attributes`, with `with_checks(false)`, yields for a
/// start tag, one item after the other: each attribute's raw key and raw
/// value, or the message of a malformed attribute.
pub uninterp spec fn start_tag_attribute_items(tag: BytesStart) -> Seq<Result<(Seq<u8>, Seq<u8>), Seq<char>>>;

/// What `Attributes` (with `with_checks(false)`) yields, one item after the
/// other, over the bytes `tag` of a start tag that the reader made, whose
/// name the reader ends at the first XML whitespace: each attribute's raw key
/// and raw value, or the message of a malformed attribute.
pub uninterp spec fn tag_attributes(tag: Seq<u8>) -> Seq<Result<(Seq<u8>, Seq<u8>), Seq<char>>>;

/// What an attribute iterator still yields.
pub uninterp spec fn attributes_left(attributes: Attributes) -> Seq<Result<(Seq<u8>, Seq<u8>), Seq<char>>>;

/// What `Attribute::decode_and_unescape_value` gives for the raw value
/// `value` with a UTF-8 decoder: the text with its references resolved, or the
/// message of the error.
pub uninterp spec fn unescaped_value(value: Seq<u8>) -> Result<Seq<char>, Seq<char>>;

/// What `BytesRef::resolve_char_ref` gives for a reference named `name`: the
/// character of `#…`, `None` for a name without `#`, or the message of the
/// error for a malformed number.
pub uninterp spec fn char_reference(name: Seq<char>) -> Result<Option<char>, Seq<char>>;

/// The message of the error of `Decoder::decode` on bytes that are not
/// UTF-8.
pub uninterp spec fn utf8_error_message(bytes: Seq<u8>) -> Seq<char>;

/// Whether the name and the attributes of the start tag `t` are read from
/// its bytes as the reader makes a start tag: the name up to the first XML
/// whitespace, the attributes after it.
spec fn reader_made(t: BytesStart) -> bool {
    &&& start_tag_name_bytes(t) == tag_name(start_tag_bytes(t))
    &&& start_tag_attribute_items(t) == tag_attributes(start_tag_bytes(t))
}

/// The view of a reader event.
spec fn raw_view(raw: RawEvent) -> RawEventView {
    match raw {
        RawEvent::Start(t) => RawEventView::Start(start_tag_bytes(t)),
        RawEvent::End(b) => RawEventView::End(b@),
        RawEvent::Text(b) => RawEventView::Text(b@),
        RawEvent::CData(b) => RawEventView::CData(b@),
        RawEvent::Reference(b) => RawEventView::Reference(b@),
        RawEvent::Other => RawEventView::Other,
        RawEvent::Eof => RawEventView::Eof,
    }
}

/// Whether `b` is XML whitespace: space, tab, carriage return or line feed.
pub open spec fn xml_whitespace(b: u8) -> bool {
    b == 0x20 || b == 0x09 || b == 0x0d || b == 0x0a
}

/// The name of a start tag whose bytes are `tag`: the bytes up to the first
/// XML whitespace.
pub open spec fn tag_name(tag: Seq<u8>) -> Seq<u8>
    decreases tag.len(),
{
    if tag.len() == 0 || xml_whitespace(tag[0]) {
        seq![]
    } else {
        seq![tag[0]] + tag_name(tag.drop_first())
    }
}

/// What decoding `bytes` as UTF-8 gives: the text, or the error's message.
pub open spec fn decoded(bytes: Seq<u8>) -> Result<Seq<char>, Seq<char>> {
    if valid_utf8(bytes) {
        Ok(decode_utf8(bytes))
    } else {
        Err(utf8_error_message(bytes))
    }
}

/// The text that a predefined XML entity (`lt`, `gt`, `amp`, `apos`, `quot`)
/// stands for.
pub open spec fn predefined_entity(name: Seq<char>) -> Option<Seq<char>> {
    if name == seq!['l', 't'] {
        Some(seq!['<'])
    } else if name == seq!['g', 't'] {
        Some(seq!['>'])
    } else if name == seq!['a', 'm', 'p'] {
        Some(seq!['&'])
    } else if name == seq!['a', 'p', 'o', 's'] {
        Some(seq!['\''])
    } else if name == seq!['q', 'u', 'o', 't'] {
        Some(seq!['"'])
    } else {
        None
    }
}

/// `Reader::from_reader` over a document's bytes, configured with
/// `expand_empty_elements`, so that `<a/>` is read as a start tag and an end
/// tag.
#[verifier::external_body]
fn open_reader<'a>(bytes: &'a [u8]) -> (r: Reader<&'a [u8]>)
    ensures
        reader_input(r) == bytes@,
        events_read(r) == 0,
{
    let mut reader = Reader::from_reader(bytes);
    reader.config_mut().expand_empty_elements = true;
    reader
}

/// `Reader::read_event`: the next event of the document, told apart by kind
/// (comments, declarations, processing instructions and doctypes are
/// `Other`; the reader reports no empty element, as it expands them), with
/// the raw bytes of all but a start tag; a failure is reported with the
/// reader's message. The reader ends the name of a start tag it makes at the
/// first XML whitespace of the tag's bytes, and reads its attributes after
/// that name.
#[verifier::external_body]
fn next_event<'a>(reader: &mut Reader<&'a [u8]>) -> (r: Result<RawEvent<'a>, XmlError>)
    ensures
        r matches Ok(RawEvent::Start(t)) ==> start_tag_name_bytes(t) == tag_name(start_tag_bytes(t))
            && start_tag_attribute_items(t) == tag_attributes(start_tag_bytes(t)),
        reader_input(*final(reader)) == reader_input(*old(reader)),
        events_read(*final(reader)) == events_read(*old(reader)) + 1,
        match reader_event(reader_input(*old(reader)), events_read(*old(reader))) {
            Ok(e) => r matches Ok(x) && raw_view(x) == e,
            Err(m) => r matches Err(x) && x@ == ErrorView::Syntax(m),
        },
{
    let event = match reader.read_event() {
        Ok(event) => event,
        Err(e) => return Err(XmlError::Syntax(e.to_string())),
    };
    Ok(match event {
        Event::Start(e) => RawEvent::Start(e),
        Event::End(e) => RawEvent::End(e.name().as_ref().to_vec()),
        Event::Text(e) => RawEvent::Text(e.to_vec()),
        Event::CData(e) => RawEvent::CData(e.to_vec()),
        Event::GeneralRef(e) => RawEvent::Reference(e.to_vec()),
        Event::Eof => RawEvent::Eof,
        Event::Empty(_) | Event::Comment(_) | Event::Decl(_) | Event::PI(_) | Event::DocType(_) => RawEvent::Other,
    })
}

/// `Decoder::decode` of the reader. Without quick-xml's `encoding` feature
/// this is `std::str::from_utf8`: the UTF-8 decoding of `bytes`, or an error
/// when they are not UTF-8.
#[verifier::external_body]
fn decode(reader: &Reader<&[u8]>, bytes: &[u8]) -> (r: Result<String, XmlError>)
    ensures
        match r {
            Ok(s) => valid_utf8(bytes@) && s@ == decode_utf8(bytes@),
            Err(e) => !valid_utf8(bytes@) && e@ == ErrorView::Syntax(utf8_error_message(bytes@)),
        },
{
    match reader.decoder().decode(bytes) {
        Ok(s) => Ok(s.into_owned()),
        Err(e) => Err(XmlError::Syntax(e.to_string())),
    }
}

/// `BytesStart::name`: the raw bytes of a start tag's name.
#[verifier::external_body]
fn start_tag_name(e: &BytesStart) -> (r: Vec<u8>)
    ensures
        r@ == start_tag_name_bytes(*e),
{
    e.name().as_ref().to_vec()
}

/// `BytesStart::attributes`, read with `Attributes::with_checks(false)`:
/// duplicate attribute names are not reported by the reader.
#[verifier::external_body]
fn start_tag_attributes<'b>(e: &'b BytesStart) -> (r: Attributes<'b>)
    ensures
        attributes_left(r) == start_tag_attribute_items(*e),
{
    let mut attributes = e.attributes();
    attributes.with_checks(false);
    attributes
}

/// `Attributes::next`: the next attribute of a start tag with its raw key and
/// raw value, `None` after the last one; a malformed attribute is reported
/// with the reader's message.
#[verifier::external_body]
fn next_attribute(attributes: &mut Attributes) -> (r: Option<Result<(Vec<u8>, Vec<u8>), XmlError>>)
    ensures
        attributes_left(*old(attributes)).len() == 0 ==> r is None && attributes_left(*final(attributes))
            == attributes_left(*old(attributes)),
        attributes_left(*old(attributes)).len() > 0 ==> attributes_left(*final(attributes))
            == attributes_left(*old(attributes)).drop_first() && match attributes_left(*old(attributes))[0] {
            Ok((k, v)) => r matches Some(Ok((x, y))) && x@ == k && y@ == v,
            Err(m) => r matches Some(Err(x)) && x@ == ErrorView::Syntax(m),
        },
{
    match attributes.next() {
        Some(Ok(a)) => Some(Ok((a.key.as_ref().to_vec(), a.value.to_vec()))),
        Some(Err(e)) => Some(Err(XmlError::Syntax(e.to_string()))),
        None => None,
    }
}

/// `Attribute::decode_and_unescape_value` with the reader's decoder, on an
/// attribute with the raw value `value`: the value decoded, with its entity
/// and character references resolved.
#[verifier::external_body]
fn attribute_value(reader: &Reader<&[u8]>, key: &[u8], value: &[u8]) -> (r: Result<String, XmlError>)
    ensures
        match unescaped_value(value@) {
            Ok(t) => r matches Ok(s) && s@ == t,
            Err(m) => r matches Err(x) && x@ == ErrorView::Syntax(m),
        },
{
    match Attribute::from((key, value)).decode_and_unescape_value(reader.decoder()) {
        Ok(v) => Ok(v.into_owned()),
        Err(e) => Err(XmlError::Syntax(e.to_string())),
    }
}

/// `BytesRef::resolve_char_ref` on the reference `&name;`: the character of
/// a character reference `&#…;`, `None` for any other reference, an error for
/// a malformed one.
#[verifier::external_body]
fn resolve_char_ref(name: &str) -> (r: Result<Option<char>, XmlError>)
    ensures
        match char_reference(name@) {
            Ok(c) => r == Ok::<Option<char>, XmlError>(c),
            Err(m) => r matches Err(x) && x@ == ErrorView::Syntax(m),
        },
{
    match BytesRef::new(name).resolve_char_ref() {
        Ok(c) => Ok(c),
        Err(e) => Err(XmlError::Syntax(e.to_string())),
    }
}

/// `quick_xml::escape::resolve_predefined_entity` (without the `escape-html`
/// feature): the text of the five predefined XML entities, `None` for any
/// other name.
#[verifier::external_body]
fn resolve_predefined_entity(name: &str) -> (r: Option<String>)
    ensures
        match predefined_entity(name@) {
            Some(t) => r matches Some(s) && s@ == t,
            None => r is None,
        },
{
    quick_xml::escape::resolve_predefined_entity(name).map(String::from)
}

/// `char::to_string`.
#[verifier::external_body]
fn char_string(c: char) -> (r: String)
    ensures
        r@ == seq![c],
{
    c.to_string()
}

// ---------------------------------------------------------------------------
// Reading: from bytes to events
// ---------------------------------------------------------------------------

/// The number of elements left open after the events `ev`: a start tag opens
/// one, an end tag closes the innermost open one.
pub open spec fn open_elements(ev: Seq<EventView>) -> nat
    decreases ev.len(),
{
    if ev.len() == 0 {
        0
    } else {
        let d = open_elements(ev.drop_last());
        match ev.last() {
            EventView::Start { .. } => d + 1,
            EventView::End { .. } => if d > 0 {
                (d - 1) as nat
            } else {
                0
            },
            _ => d,
        }
    }
}

/// The last of the events `ev` is the end tag of the document's top-level
/// element.
pub open spec fn closes_document(ev: Seq<EventView>) -> bool {
    ev.len() > 0 && ev.last() is End && open_elements(ev.drop_last()) == 1
}

proof fn lemma_open_elements_push(ev: Seq<EventView>, e: EventView)
    ensures
        ev.push(e).drop_last() == ev,
        ev.push(e).last() == e,
{
    assert(ev.push(e).drop_last() =~= ev);
}

/// The attributes read from a start tag: from the items `items` that its
/// attribute iterator still yields, at most `budget` more, appended to `acc`,
/// each key decoded and each value decoded and unescaped; or the first error.
pub open spec fn start_attributes(
    items: Seq<Result<(Seq<u8>, Seq<u8>), Seq<char>>>,
    budget: nat,
    acc: Seq<AttributeEventView>,
) -> Result<Seq<AttributeEventView>, Seq<char>>
    decreases budget,
{
    if budget == 0 || items.len() == 0 {
        Ok(acc)
    } else {
        match items[0] {
            Err(m) => Err(m),
            Ok((k, v)) => match decoded(k) {
                Err(m) => Err(m),
                Ok(key) => match unescaped_value(v) {
                    Err(m) => Err(m),
                    Ok(value) => start_attributes(items.drop_first(), (budget - 1) as nat, acc.push((key, value))),
                },
            },
        }
    }
}

/// The event that a reader event converts to, with at most `limit`
/// attributes read from a start tag; or the message of the first error.
pub open spec fn converted_event(raw: RawEventView, limit: nat) -> Result<EventView, Seq<char>> {
    match raw {
        RawEventView::Start(tag) => match decoded(tag_name(tag)) {
            Err(m) => Err(m),
            Ok(name) => match start_attributes(tag_attributes(tag), limit, seq![]) {
                Err(m) => Err(m),
                Ok(attributes) => Ok(EventView::Start { name, attributes }),
            },
        },
        RawEventView::End(b) => match decoded(b) {
            Err(m) => Err(m),
            Ok(name) => Ok(EventView::End { name }),
        },
        RawEventView::Text(b) => match decoded(b) {
            Err(m) => Err(m),
            Ok(t) => Ok(EventView::Text(t)),
        },
        RawEventView::CData(b) => match decoded(b) {
            Err(m) => Err(m),
            Ok(t) => Ok(EventView::CData(t)),
        },
        RawEventView::Reference(b) => match decoded(b) {
            Err(m) => Err(m),
            Ok(name) => match predefined_entity(name) {
                Some(t) => Ok(EventView::Reference { name, resolved: Some(t) }),
                None => match char_reference(name) {
                    Err(m) => Err(m),
                    Ok(Some(c)) => Ok(EventView::Reference { name, resolved: Some(seq![c]) }),
                    Ok(None) => Ok(EventView::Reference { name, resolved: None }),
                },
            },
        },
        _ => Ok(EventView::Other),
    }
}

/// The events read from `bytes` from the `k`-th call of the reader on, after
/// the events `acc`, with at most `budget` more calls: each converted, up to
/// and including the end tag of the top-level element, the end of input, or
/// the first failure, whose message comes second.
pub open spec fn events_from(bytes: Seq<u8>, k: nat, acc: Seq<EventView>, budget: nat) -> (
    Seq<EventView>,
    Option<Seq<char>>,
)
    decreases budget,
{
    if budget == 0 {
        (acc, None)
    } else {
        match reader_event(bytes, k) {
            Err(m) => (acc, Some(m)),
            Ok(RawEventView::Eof) => (acc, None),
            Ok(raw) => match converted_event(raw, bytes.len()) {
                Err(m) => (acc, Some(m)),
                Ok(e) => if closes_document(acc.push(e)) {
                    (acc.push(e), None)
                } else {
                    events_from(bytes, k + 1, acc.push(e), (budget - 1) as nat)
                },
            },
        }
    }
}

/// The events of the document `bytes` as the reader gives them, and the
/// message of the failure that stopped it, if one did. At most one event
/// per byte is read: every event spans at least one byte, but for the end
/// tag that the reader adds after an empty element `<a/>`, whose four bytes
/// give two events.
pub open spec fn document_events(bytes: Seq<u8>) -> (Seq<EventView>, Option<Seq<char>>) {
    events_from(bytes, 0, seq![], bytes.len())
}

/// The failure of a reader with the message `m`, if any.
pub open spec fn failure_view(m: Option<Seq<char>>) -> Option<ErrorView> {
    match m {
        Some(m) => Some(ErrorView::Syntax(m)),
        None => None,
    }
}

/// Reads a start tag: its decoded name, and its attributes in order, each
/// with its decoded name and its decoded and unescaped value. `limit` bounds
/// the number of attributes read; a tag of the document holds fewer
/// attributes than the document has bytes.
fn read_start(reader: &Reader<&[u8]>, start: &BytesStart, limit: usize) -> (r: Result<XmlEvent, XmlError>)
    requires
        reader_made(*start),
    ensures
        match converted_event(RawEventView::Start(start_tag_bytes(*start)), limit as nat) {
            Ok(e) => r matches Ok(x) && x@ == e,
            Err(m) => r matches Err(x) && x@ == ErrorView::Syntax(m),
        },
{
    let ghost tag = start_tag_bytes(*start);
    let raw_name = start_tag_name(start);
    let name = match decode(reader, raw_name.as_slice()) {
        Ok(n) => n,
        Err(e) => {
            return Err(e);
        },
    };
    let mut raw_attributes = start_tag_attributes(start);
    let mut attributes: Vec<XmlAttribute> = Vec::new();
    let mut budget: usize = limit;
    assert(attributes_view(attributes@) =~= Seq::<AttributeEventView>::empty());
    while budget > 0
        invariant
            tag == start_tag_bytes(*start),
            decoded(tag_name(tag)) == Ok::<Seq<char>, Seq<char>>(name@),
            start_attributes(tag_attributes(tag), limit as nat, seq![]) == start_attributes(
                attributes_left(raw_attributes),
                budget as nat,
                attributes_view(attributes@),
            ),
        ensures
            budget == 0 || attributes_left(raw_attributes).len() == 0,
        decreases budget,
    {
        let ghost left = attributes_left(raw_attributes);
        let ghost acc = attributes_view(attributes@);
        let ghost b = budget as nat;
        budget = budget - 1;
        let (raw_key, raw_value) = match next_attribute(&mut raw_attributes) {
            None => {
                assert(start_attributes(left, b, acc) == Ok::<Seq<AttributeEventView>, Seq<char>>(acc));
                assert(start_attributes(left, budget as nat, acc) == Ok::<Seq<AttributeEventView>, Seq<char>>(
                    acc,
                ));
                break;
            },
            Some(Err(e)) => {
                assert(start_attributes(left, b, acc) == Err::<Seq<AttributeEventView>, Seq<char>>(
                    left[0]->Err_0,
                ));
                return Err(e);
            },
            Some(Ok(a)) => a,
        };
        let key = match decode(reader, raw_key.as_slice()) {
            Ok(k) => k,
            Err(e) => {
                return Err(e);
            },
        };
        let value = match attribute_value(reader, raw_key.as_slice(), raw_value.as_slice()) {
            Ok(v) => v,
            Err(e) => {
                return Err(e);
            },
        };
        let ghost pair = (key@, value@);
        attributes.push(XmlAttribute { key, value });
        assert(attributes_view(attributes@) =~= acc.push(pair));
    }
    assert(start_attributes(attributes_left(raw_attributes), budget as nat, attributes_view(attributes@)) == Ok::<
        Seq<AttributeEventView>,
        Seq<char>,
    >(attributes_view(attributes@)));
    Ok(XmlEvent::Start { name, attributes })
}

/// Reads a general reference: its name, and the text it stands for when it
/// is a predefined entity (tried first) or a character reference.
fn read_reference(reader: &Reader<&[u8]>, content: &Vec<u8>) -> (r: Result<XmlEvent, XmlError>)
    ensures
        match converted_event(RawEventView::Reference(content@), 0) {
            Ok(e) => r matches Ok(x) && x@ == e,
            Err(m) => r matches Err(x) && x@ == ErrorView::Syntax(m),
        },
{
    let name = match decode(reader, content.as_slice()) {
        Ok(n) => n,
        Err(e) => {
            return Err(e);
        },
    };
    let resolved = match resolve_predefined_entity(name.as_str()) {
        Some(t) => Some(t),
        None => match resolve_char_ref(name.as_str()) {
            Ok(Some(c)) => Some(char_string(c)),
            Ok(None) => None,
            Err(e) => {
                return Err(e);
            },
        },
    };
    Ok(XmlEvent::Reference { name, resolved })
}

/// Converts the raw bytes of an end tag's name, character data or a CDATA
/// section into its event.
fn read_plain(reader: &Reader<&[u8]>, raw: &RawEvent) -> (r: Result<XmlEvent, XmlError>)
    requires
        raw is End || raw is Text || raw is CData,
    ensures
        match converted_event(raw_view(*raw), 0) {
            Ok(e) => r matches Ok(x) && x@ == e,
            Err(m) => r matches Err(x) && x@ == ErrorView::Syntax(m),
        },
{
    match raw {
        RawEvent::End(b) => match decode(reader, b.as_slice()) {
            Ok(name) => Ok(XmlEvent::End { name }),
            Err(e) => Err(e),
        },
        RawEvent::Text(b) => match decode(reader, b.as_slice()) {
            Ok(text) => Ok(XmlEvent::Text(text)),
            Err(e) => Err(e),
        },
        RawEvent::CData(b) => match decode(reader, b.as_slice()) {
            Ok(text) => Ok(XmlEvent::CData(text)),
            Err(e) => Err(e),
        },
        _ => Ok(XmlEvent::Other),
    }
}

/// Converts one event of the reader that is not the end of input.
fn convert_event(reader: &Reader<&[u8]>, raw: &RawEvent, limit: usize) -> (r: Result<XmlEvent, XmlError>)
    requires
        !(raw is Eof),
        raw matches RawEvent::Start(t) ==> reader_made(*t),
    ensures
        match converted_event(raw_view(*raw), limit as nat) {
            Ok(e) => r matches Ok(x) && x@ == e,
            Err(m) => r matches Err(x) && x@ == ErrorView::Syntax(m),
        },
{
    match raw {
        RawEvent::Start(s) => read_start(reader, s, limit),
        RawEvent::Reference(b) => read_reference(reader, b),
        RawEvent::Other => Ok(XmlEvent::Other),
        RawEvent::Eof => Ok(XmlEvent::Other),
        _ => read_plain(reader, raw),
    }
}

/// Reads a document's events with the quick-xml reader, up to and including
/// the end tag of its top-level element, or up to the end of input.
///
/// Returns the events read and, when the reader failed, its error: the
/// events are then those before the failure. Reading stops there, as a
/// parser that pulls events one by one would never see what follows. At most
/// `bytes.len()` events are read ([`document_events`]).
pub fn read_document(bytes: &[u8]) -> (r: (Vec<XmlEvent>, Option<XmlError>))
    ensures
        events_view(r.0@) == document_events(bytes@).0,
        match document_events(bytes@).1 {
            None => r.1 is None,
            Some(m) => r.1 matches Some(x) && x@ == ErrorView::Syntax(m),
        },
{
    let mut reader = open_reader(bytes);
    let mut events: Vec<XmlEvent> = Vec::new();
    let mut depth: usize = 0;
    let mut budget: usize = bytes.len();
    assert(events_view(events@) =~= Seq::<EventView>::empty());
    loop
        invariant
            reader_input(reader) == bytes@,
            events@.len() + budget <= bytes@.len(),
            depth == open_elements(events_view(events@)),
            depth <= events@.len(),
            document_events(bytes@) == events_from(bytes@, events_read(reader), events_view(events@), budget as nat),
        decreases budget,
    {
        if budget == 0 {
            return (events, None);
        }
        let ghost k = events_read(reader);
        let ghost acc = events_view(events@);
        budget = budget - 1;
        let raw = match next_event(&mut reader) {
            Ok(RawEvent::Eof) => {
                return (events, None);
            },
            Ok(e) => e,
            Err(e) => {
                return (events, Some(e));
            },
        };
        let event = match convert_event(&reader, &raw, bytes.len()) {
            Ok(e) => e,
            Err(e) => {
                return (events, Some(e));
            },
        };
        let is_start = matches!(event, XmlEvent::Start { .. });
        let is_end = matches!(event, XmlEvent::End { .. });
        let ghost e = event@;
        events.push(event);
        let ghost after = events_view(events@);
        proof {
            assert(after =~= acc.push(e));
            lemma_open_elements_push(acc, e);
        }
        if is_start {
            depth = depth + 1;
        } else if is_end {
            if depth == 1 {
                return (events, None);
            }
            if depth > 0 {
                depth = depth - 1;
            }
        }
    }
}

/// The outcome of parsing the events of a document whose reader stopped with
/// `stopped`: where the parse ran out of events, it met that failure.
pub open spec fn document_outcome<T>(parsed: Result<T, ErrorView>, stopped: Option<ErrorView>) -> Result<
    T,
    ErrorView,
> {
    match stopped {
        Some(e) => match parsed {
            Err(ErrorView::Eof) => Err(e),
            _ => parsed,
        },
        None => parsed,
    }
}

/// The view of the reader's failure, if any.
pub open spec fn stopped_view(stopped: Option<XmlError>) -> Option<ErrorView> {
    match stopped {
        Some(e) => Some(e@),
        None => None,
    }
}

/// Replaces running out of events by the failure that stopped the reader.
pub fn finish_document<T>(parsed: Result<T, Error>, stopped: Option<XmlError>) -> (r: Result<T, Error>)
    ensures
        match stopped {
            Some(e) => match parsed {
                Err(Error::Eof) => r matches Err(x) && x == Error::Xml(e),
                _ => r == parsed,
            },
            None => r == parsed,
        },
{
    match stopped {
        Some(e) => match parsed {
            Err(Error::Eof) => Err(Error::Xml(e)),
            _ => parsed,
        },
        None => parsed,
    }
}

// ---------------------------------------------------------------------------
// Writing: the calls into the writer
// ---------------------------------------------------------------------------

/// What a writer into a byte buffer holds: the bytes of that buffer.
pub uninterp spec fn written_bytes(writer: Writer<Vec<u8>>) -> Seq<u8>;

/// How a writer into a byte buffer indents: `None` when it does not; else
/// the spaces per level, the spaces of the current level, and whether the
/// next tag starts on a new line.
pub uninterp spec fn writer_indentation(writer: Writer<Vec<u8>>) -> Option<(nat, nat, bool)>;

/// The text `s` with each of `<`, `>`, `&`, `'` and `"` replaced by its
/// predefined entity reference, as quick-xml's `escape` does.
pub open spec fn xml_escape(s: Seq<char>) -> Seq<char>
    decreases s.len(),
{
    if s.len() == 0 {
        seq![]
    } else {
        escaped_char(s[0]) + xml_escape(s.drop_first())
    }
}

/// One character as quick-xml's `escape` writes it.
pub open spec fn escaped_char(c: char) -> Seq<char> {
    if c == '<' {
        "&lt;"@
    } else if c == '>' {
        "&gt;"@
    } else if c == '&' {
        "&amp;"@
    } else if c == '\'' {
        "&apos;"@
    } else if c == '"' {
        "&quot;"@
    } else {
        seq![c]
    }
}

/// How one attribute is written inside a start tag: a space, the key, `="`,
/// the escaped value and `"`.
pub open spec fn attribute_text(key: Seq<char>, value: Seq<char>) -> Seq<char> {
    " "@ + key + "=\""@ + xml_escape(value) + "\""@
}

/// What an indenting writer writes before a tag: a line break and the
/// current level's spaces, when the tag starts on a new line.
pub open spec fn line_start(indentation: Option<(nat, nat, bool)>) -> Seq<char> {
    match indentation {
        Some((_, level, true)) => "\n"@ + Seq::new(level, |_i: int| ' '),
        _ => seq![],
    }
}

/// The indentation one level deeper.
pub open spec fn grown(indentation: Option<(nat, nat, bool)>) -> Option<(nat, nat, bool)> {
    match indentation {
        Some((size, level, brk)) => Some((size, level + size, brk)),
        None => None,
    }
}

/// The indentation one level shallower, but never below no spaces.
pub open spec fn shrunk(indentation: Option<(nat, nat, bool)>) -> Option<(nat, nat, bool)> {
    match indentation {
        Some((size, level, brk)) => Some((size, if level >= size { (level - size) as nat } else { 0 }, brk)),
        None => None,
    }
}

/// The indentation with the next tag starting on a new line or not.
pub open spec fn with_line_break(indentation: Option<(nat, nat, bool)>, brk: bool) -> Option<(nat, nat, bool)> {
    match indentation {
        Some((size, level, _)) => Some((size, level, brk)),
        None => None,
    }
}

/// `Writer::new`: a writer that appends to `out`, with no indentation.
#[verifier::external_body]
fn new_writer(out: Vec<u8>) -> (r: Writer<Vec<u8>>)
    ensures
        written_bytes(r) == out@,
        writer_indentation(r) is None,
{
    Writer::new(out)
}

/// `Writer::new_with_indent` with spaces: a writer that appends to `out`
/// and indents nested tags by `indent_size` spaces per level, at level zero
/// and with no line break pending.
#[verifier::external_body]
fn new_indenting_writer(out: Vec<u8>, indent_size: usize) -> (r: Writer<Vec<u8>>)
    ensures
        written_bytes(r) == out@,
        writer_indentation(r) == Some((indent_size as nat, 0nat, false)),
{
    Writer::new_with_indent(out, b' ', indent_size)
}

/// `Writer::into_inner`: the output buffer.
#[verifier::external_body]
fn writer_output(writer: Writer<Vec<u8>>) -> (r: Vec<u8>)
    ensures
        r@ == written_bytes(writer),
{
    writer.into_inner()
}

/// `BytesStart::new`: a start tag with no attribute.
#[verifier::external_body]
fn new_start_tag(name: &str) -> (r: BytesStart<'static>)
    ensures
        start_tag_bytes(r) == encode_utf8(name@),
{
    BytesStart::new(name.to_string())
}

/// `BytesStart::push_attribute` with a `(key, value)` pair: appends a
/// space, the key as it is, `="`, the value escaped by `escape`, and `"`.
#[verifier::external_body]
fn push_attribute(tag: &mut BytesStart<'static>, key: &str, value: &str)
    ensures
        start_tag_bytes(*final(tag)) == start_tag_bytes(*old(tag)) + encode_utf8(attribute_text(key@, value@)),
{
    tag.push_attribute((key, value));
}

/// `Writer::write_event` with a start tag: writes `<`, the tag and `>`,
/// after a line break and the current level's spaces where one is pending;
/// then goes one level deeper, with a line break pending. Writing into a
/// `Vec<u8>` does not fail, and nothing else in `write_event` does; the
/// deeper level's spaces are kept in a buffer, which cannot grow beyond
/// `isize::MAX` bytes.
#[verifier::external_body]
fn write_start(writer: &mut Writer<Vec<u8>>, tag: BytesStart<'static>) -> (r: Result<(), XmlError>)
    requires
        writer_indentation(*old(writer)) matches Some((size, level, _)) ==> level + size <= isize::MAX,
    ensures
        r is Ok,
        written_bytes(*final(writer)) == written_bytes(*old(writer)) + encode_utf8(
            line_start(writer_indentation(*old(writer))),
        ) + encode_utf8("<"@) + start_tag_bytes(tag) + encode_utf8(">"@),
        writer_indentation(*final(writer)) == with_line_break(grown(writer_indentation(*old(writer))), true),
{
    writer.write_event(Event::Start(tag)).map_err(|e| XmlError::Syntax(e.to_string()))
}

/// `Writer::write_event` with the end tag `</name>` (`BytesEnd::new`): goes
/// one level shallower, then writes the tag after a line break and that
/// level's spaces where one is pending; a line break is then pending. It
/// does not fail on a `Vec<u8>`.
#[verifier::external_body]
fn write_end(writer: &mut Writer<Vec<u8>>, name: &str) -> (r: Result<(), XmlError>)
    ensures
        r is Ok,
        written_bytes(*final(writer)) == written_bytes(*old(writer)) + encode_utf8(
            line_start(shrunk(writer_indentation(*old(writer)))) + ("</"@ + name@ + ">"@),
        ),
        writer_indentation(*final(writer)) == with_line_break(shrunk(writer_indentation(*old(writer))), true),
{
    writer.write_event(Event::End(BytesEnd::new(name))).map_err(|e| XmlError::Syntax(e.to_string()))
}

/// `Writer::write_event` with character data, escaped by `escape`
/// (`BytesText::new`); no line break is then pending. It does not fail on a
/// `Vec<u8>`.
#[verifier::external_body]
fn write_text(writer: &mut Writer<Vec<u8>>, text: &str) -> (r: Result<(), XmlError>)
    ensures
        r is Ok,
        written_bytes(*final(writer)) == written_bytes(*old(writer)) + encode_utf8(xml_escape(text@)),
        writer_indentation(*final(writer)) == with_line_break(writer_indentation(*old(writer)), false),
{
    writer.write_event(Event::Text(BytesText::new(text))).map_err(|e| XmlError::Syntax(e.to_string()))
}

/// `Writer::write_event` with character data written as it is
/// (`BytesText::from_escaped`); no line break is then pending. It does not
/// fail on a `Vec<u8>`.
#[verifier::external_body]
fn write_escaped_text(writer: &mut Writer<Vec<u8>>, text: &str) -> (r: Result<(), XmlError>)
    ensures
        r is Ok,
        written_bytes(*final(writer)) == written_bytes(*old(writer)) + encode_utf8(text@),
        writer_indentation(*final(writer)) == with_line_break(writer_indentation(*old(writer)), false),
{
    let event = Event::Text(BytesText::from_escaped(text));
    writer.write_event(event).map_err(|e| XmlError::Syntax(e.to_string()))
}

/// `Writer::write_event` with a CDATA section (`BytesCData::new`):
/// `<![CDATA[`, the text as it is, `]]>`; no line break is then pending. It
/// does not fail on a `Vec<u8>`.
#[verifier::external_body]
fn write_cdata(writer: &mut Writer<Vec<u8>>, text: &str) -> (r: Result<(), XmlError>)
    ensures
        r is Ok,
        written_bytes(*final(writer)) == written_bytes(*old(writer)) + encode_utf8("<![CDATA["@ + text@ + "]]>"@),
        writer_indentation(*final(writer)) == with_line_break(writer_indentation(*old(writer)), false),
{
    writer.write_event(Event::CData(BytesCData::new(text))).map_err(|e| XmlError::Syntax(e.to_string()))
}

/// `Writer::write_event` with the general reference `&name;`
/// (`BytesRef::new`), after a line break and the current level's spaces
/// where one is pending; a line break is then pending. It does not fail on a
/// `Vec<u8>`.
#[verifier::external_body]
fn write_reference(writer: &mut Writer<Vec<u8>>, name: &str) -> (r: Result<(), XmlError>)
    ensures
        r is Ok,
        written_bytes(*final(writer)) == written_bytes(*old(writer)) + encode_utf8(
            line_start(writer_indentation(*old(writer))) + ("&"@ + name@ + ";"@),
        ),
        writer_indentation(*final(writer)) == with_line_break(writer_indentation(*old(writer)), true),
{
    let event = Event::GeneralRef(BytesRef::new(name));
    writer.write_event(event).map_err(|e| XmlError::Syntax(e.to_string()))
}

/// `Writer::write_event` with the declaration `<?xml version="1.0"?>`
/// (`BytesDecl::new("1.0", None, None)`), after a line break and the
/// current level's spaces where one is pending; a line break is then
/// pending. It does not fail on a `Vec<u8>`.
#[verifier::external_body]
fn write_declaration(writer: &mut Writer<Vec<u8>>) -> (r: Result<(), XmlError>)
    ensures
        r is Ok,
        written_bytes(*final(writer)) == written_bytes(*old(writer)) + encode_utf8(
            line_start(writer_indentation(*old(writer))) + xml_declaration(),
        ),
        writer_indentation(*final(writer)) == with_line_break(writer_indentation(*old(writer)), true),
{
    let event = Event::Decl(BytesDecl::new("1.0", None, None));
    writer.write_event(event).map_err(|e| XmlError::Syntax(e.to_string()))
}

/// `String::from_utf8`: the bytes as a string, whose bytes they then are;
/// `None` when they are not UTF-8.
#[verifier::external_body]
pub(crate) fn utf8_string(bytes: Vec<u8>) -> (r: Option<String>)
    ensures
        r is Some <==> valid_utf8(bytes@),
        r matches Some(s) ==> encode_utf8(s@) == bytes@,
{
    match String::from_utf8(bytes) {
        Ok(s) => Some(s),
        Err(_) => None,
    }
}

// ---------------------------------------------------------------------------
// Writing: from events to bytes
// ---------------------------------------------------------------------------

/// The declaration `<?xml version="1.0"?>`.
pub open spec fn xml_declaration() -> Seq<char> {
    "<?xml version=\"1.0\"?>"@
}

/// The attributes of a start tag as they are written inside it, in order.
pub open spec fn attributes_text(a: Seq<AttributeEventView>) -> Seq<char>
    decreases a.len(),
{
    if a.len() == 0 {
        seq![]
    } else {
        attributes_text(a.drop_last()) + attribute_text(a.last().0, a.last().1)
    }
}

/// The text of one event: tags with their names, attributes with escaped
/// values, escaped character data, CDATA sections and references as they
/// are; nothing for `Other`.
pub open spec fn event_text(e: EventView) -> Seq<char> {
    match e {
        EventView::Start { name, attributes } => "<"@ + (name + attributes_text(attributes)) + ">"@,
        EventView::End { name } => "</"@ + name + ">"@,
        EventView::Text(t) => xml_escape(t),
        EventView::CData(t) => "<![CDATA["@ + t + "]]>"@,
        EventView::Reference { name, .. } => "&"@ + name + ";"@,
        EventView::Other => seq![],
    }
}

/// What the writer writes for one event with the indentation `indentation`,
/// and its indentation afterwards: tags and references start on a new line
/// where one is pending, and leave one pending; character data leaves none;
/// a start tag goes one level deeper, an end tag one level shallower first.
pub open spec fn event_step(indentation: Option<(nat, nat, bool)>, e: EventView) -> (Seq<char>, Option<
    (nat, nat, bool),
>) {
    match e {
        EventView::Start { .. } => (line_start(indentation) + event_text(e), with_line_break(grown(indentation), true)),
        EventView::End { .. } => (
            line_start(shrunk(indentation)) + event_text(e),
            with_line_break(shrunk(indentation), true),
        ),
        EventView::Text(_) => (event_text(e), with_line_break(indentation, false)),
        EventView::CData(_) => (event_text(e), with_line_break(indentation, false)),
        EventView::Reference { .. } => (line_start(indentation) + event_text(e), with_line_break(indentation, true)),
        EventView::Other => (seq![], indentation),
    }
}

/// What the writer writes for the events `ev`, one after another, from the
/// indentation `indentation`, and its indentation afterwards.
pub open spec fn events_written(ev: Seq<EventView>, indentation: Option<(nat, nat, bool)>) -> (Seq<char>, Option<
    (nat, nat, bool),
>)
    decreases ev.len(),
{
    if ev.len() == 0 {
        (seq![], indentation)
    } else {
        let before = events_written(ev.drop_last(), indentation);
        let step = event_step(before.1, ev.last());
        (before.0 + step.0, step.1)
    }
}

/// The indentation of a new writer: none, or `size` spaces per level at
/// level zero with no line break pending.
pub open spec fn initial_indentation(indent_size: Option<usize>) -> Option<(nat, nat, bool)> {
    match indent_size {
        Some(size) => Some((size as nat, 0nat, false)),
        None => None,
    }
}

/// The text of a document: the declaration and a line break when
/// `declaration` asks for them, then the events, indented by `indent_size`
/// spaces per level when it is set.
pub open spec fn document_text(ev: Seq<EventView>, declaration: bool, indent_size: Option<usize>) -> Seq<char> {
    let body = events_written(ev, initial_indentation(indent_size)).0;
    if declaration {
        xml_declaration() + "\n"@ + body
    } else {
        body
    }
}

/// Whether indenting the events `ev` by `indent_size` spaces per level keeps
/// the spaces of every level that a start tag opens within `isize::MAX`.
pub open spec fn indentation_fits(ev: Seq<EventView>, indent_size: Option<usize>) -> bool {
    indent_size matches Some(size) ==> forall|k: int|
        0 <= k < ev.len() && #[trigger] ev[k] is Start ==> size * (open_elements(ev.take(k)) + 1) <= isize::MAX
}

/// The UTF-8 encoding of two texts one after the other is the encoding of
/// the first followed by that of the second.
pub proof fn lemma_encode_utf8_concat(a: Seq<char>, b: Seq<char>)
    ensures
        encode_utf8(a + b) == encode_utf8(a) + encode_utf8(b),
    decreases a.len(),
{
    if a.len() == 0 {
        assert(a + b =~= b);
        assert(encode_utf8(a) + encode_utf8(b) =~= encode_utf8(b));
    } else {
        assert((a + b).drop_first() =~= a.drop_first() + b);
        lemma_encode_utf8_concat(a.drop_first(), b);
        assert(encode_utf8(a + b) =~= encode_utf8(a) + encode_utf8(b));
    }
}

/// A text encoded as UTF-8 is valid UTF-8 and decodes back to that text.
pub proof fn lemma_document_bytes(t: Seq<char>)
    ensures
        valid_utf8(encode_utf8(t)),
        decode_utf8(encode_utf8(t)) == t,
{
    vstd::utf8::encode_utf8_valid_utf8(t);
    vstd::utf8::encode_utf8_decode_utf8(t);
}

/// After the events `ev`, an indenting writer is at `size` spaces per open
/// element.
proof fn lemma_indentation_level(ev: Seq<EventView>, size: nat)
    ensures
        events_written(ev, Some((size, 0nat, false))).1 is Some,
        events_written(ev, Some((size, 0nat, false))).1->Some_0.0 == size,
        events_written(ev, Some((size, 0nat, false))).1->Some_0.1 == size * open_elements(ev),
    decreases ev.len(),
{
    if ev.len() == 0 {
        assert(size * 0 == 0);
    } else {
        lemma_indentation_level(ev.drop_last(), size);
        let d = open_elements(ev.drop_last());
        let prev = events_written(ev.drop_last(), Some((size, 0nat, false)));
        let level = prev.1->Some_0.1;
        assert(level == size * d);
        assert(size * (d + 1) == size * d + size) by (nonlinear_arith);
        if d == 0 {
            assert(size * d == 0) by (nonlinear_arith)
                requires
                    d == 0,
            ;
        } else {
            assert(size * d >= size) by (nonlinear_arith)
                requires
                    d > 0,
            ;
            assert(size * ((d - 1) as nat) == size * d - size) by (nonlinear_arith)
                requires
                    d > 0,
            ;
        }
        let step = event_step(prev.1, ev.last());
        assert(events_written(ev, Some((size, 0nat, false))) == (prev.0 + step.0, step.1));
    }
}

/// A writer that does not indent never comes to indent.
proof fn lemma_no_indentation(ev: Seq<EventView>)
    ensures
        events_written(ev, None).1 is None,
    decreases ev.len(),
{
    if ev.len() > 0 {
        lemma_no_indentation(ev.drop_last());
    }
}

/// The prefix of `ev` one event longer.
proof fn lemma_take_one_more(ev: Seq<EventView>, i: int)
    requires
        0 <= i < ev.len(),
    ensures
        ev.take(i + 1).drop_last() == ev.take(i),
        ev.take(i + 1).last() == ev[i],
{
    assert(ev.take(i + 1).drop_last() =~= ev.take(i));
}

/// Whether indenting the events by `indent_size` spaces per level keeps the
/// spaces of every level that a start tag opens within `isize::MAX`.
pub fn indentation_fits_events(events: &Vec<XmlEvent>, indent_size: Option<usize>) -> (r: bool)
    ensures
        r == indentation_fits(events_view(events@), indent_size),
{
    let ghost ev = events_view(events@);
    let size = match indent_size {
        None => {
            return true;
        },
        Some(size) => size,
    };
    let n = events.len();
    let mut depth: usize = 0;
    let mut i: usize = 0;
    while i < n
        invariant
            i <= n,
            n == events@.len(),
            ev == events_view(events@),
            depth == open_elements(ev.take(i as int)),
            depth <= i,
            indent_size == Some(size),
            forall|k: int|
                0 <= k < i && #[trigger] ev[k] is Start ==> size * (open_elements(ev.take(k)) + 1) <= isize::MAX,
        decreases n - i,
    {
        proof {
            lemma_take_one_more(ev, i as int);
        }
        assert(ev[i as int] == events@[i as int]@);
        match &events[i] {
            XmlEvent::Start { .. } => {
                let next = depth + 1;
                match size.checked_mul(next) {
                    Some(spaces) => {
                        if spaces > isize::MAX as usize {
                            assert(ev[i as int] is Start);
                            assert(size * (depth + 1) > isize::MAX);
                            return false;
                        }
                    },
                    None => {
                        assert(ev[i as int] is Start);
                        return false;
                    },
                }
                depth = next;
            },
            XmlEvent::End { .. } => {
                if depth > 0 {
                    depth = depth - 1;
                }
            },
            _ => {},
        }
        i = i + 1;
    }
    true
}

/// Writes one start tag with its attributes in order: `<`, the name, each
/// attribute, `>`, after a line break and the current level's spaces where
/// one is pending; then goes one level deeper, with a line break pending.
fn write_start_tag(writer: &mut Writer<Vec<u8>>, name: &String, attributes: &Vec<XmlAttribute>) -> (r: Result<
    (),
    XmlError,
>)
    requires
        writer_indentation(*old(writer)) matches Some((size, level, _)) ==> level + size <= isize::MAX,
    ensures
        r is Ok,
        ({
            let e = EventView::Start { name: name@, attributes: attributes_view(attributes@) };
            &&& written_bytes(*final(writer)) == written_bytes(*old(writer)) + encode_utf8(
                event_step(writer_indentation(*old(writer)), e).0,
            )
            &&& writer_indentation(*final(writer)) == event_step(writer_indentation(*old(writer)), e).1
        }),
{
    let mut tag = new_start_tag(name.as_str());
    let n = attributes.len();
    let mut i: usize = 0;
    while i < n
        invariant
            i <= n,
            n == attributes@.len(),
            start_tag_bytes(tag) == encode_utf8(name@ + attributes_text(attributes_view(attributes@.take(i as int)))),
        decreases n - i,
    {
        let ghost before = attributes_text(attributes_view(attributes@.take(i as int)));
        let ghost added = attribute_text(attributes@[i as int].key@, attributes@[i as int].value@);
        push_attribute(&mut tag, attributes[i].key.as_str(), attributes[i].value.as_str());
        proof {
            let a = attributes_view(attributes@.take(i + 1));
            assert(a.drop_last() =~= attributes_view(attributes@.take(i as int)));
            assert(a.last() == attributes@[i as int]@);
            lemma_encode_utf8_concat(name@ + before, added);
            assert(name@ + attributes_text(a) =~= (name@ + before) + added);
        }
        i = i + 1;
    }
    proof {
        assert(attributes@.take(n as int) =~= attributes@);
        let t = name@ + attributes_text(attributes_view(attributes@));
        let ls = line_start(writer_indentation(*writer));
        lemma_encode_utf8_concat("<"@, t);
        lemma_encode_utf8_concat("<"@ + t, ">"@);
        lemma_encode_utf8_concat(ls, "<"@ + t + ">"@);
    }
    let ghost w0 = written_bytes(*writer);
    let r = write_start(writer, tag);
    proof {
        let ls = line_start(writer_indentation(*old(writer)));
        let t = name@ + attributes_text(attributes_view(attributes@));
        assert(written_bytes(*writer) =~= w0 + encode_utf8(ls + ("<"@ + t + ">"@)));
    }
    r
}

/// Writes events with the quick-xml writer into `out`: first, when
/// `config` asks for it, the declaration `<?xml version="1.0"?>` and a line
/// break; then each event in order (text and attribute values escaped, a
/// reference written as `&name;`, nested tags indented by
/// `config.indent_size` spaces when it is set). An `Other` event carries
/// nothing to write. Returns the output buffer: `out` followed by the UTF-8
/// encoding of [`document_text`]. Writing into a buffer does not fail.
pub fn write_events(events: &Vec<XmlEvent>, out: Vec<u8>, config: WriteConfig) -> (r: Result<
    Vec<u8>,
    XmlError,
>)
    requires
        indentation_fits(events_view(events@), config.indent_size),
    ensures
        r matches Ok(b) && b@ == out@ + encode_utf8(
            document_text(events_view(events@), config.write_document_declaration, config.indent_size),
        ),
{
    let ghost ev = events_view(events@);
    let ghost start = out@;
    let ghost ind0 = initial_indentation(config.indent_size);
    let mut writer = match config.indent_size {
        Some(size) => new_indenting_writer(out, size),
        None => new_writer(out),
    };
    let ghost head: Seq<char> = seq![];
    if config.write_document_declaration {
        match write_declaration(&mut writer) {
            Ok(()) => {},
            Err(e) => {
                return Err(e);
            },
        }
        match write_escaped_text(&mut writer, "\n") {
            Ok(()) => {},
            Err(e) => {
                return Err(e);
            },
        }
        proof {
            head = xml_declaration() + "\n"@;
            assert(line_start(ind0) =~= seq![]);
            assert(seq![] + xml_declaration() =~= xml_declaration());
            lemma_encode_utf8_concat(xml_declaration(), "\n"@);
            assert(written_bytes(writer) =~= start + encode_utf8(head));
        }
    } else {
        assert(written_bytes(writer) =~= start + encode_utf8(head));
    }
    let n = events.len();
    let mut i: usize = 0;
    while i < n
        invariant
            i <= n,
            n == events@.len(),
            ev == events_view(events@),
            ind0 == initial_indentation(config.indent_size),
            indentation_fits(ev, config.indent_size),
            head == (if config.write_document_declaration { xml_declaration() + "\n"@ } else { seq![] }),
            writer_indentation(writer) == events_written(ev.take(i as int), ind0).1,
            written_bytes(writer) == start + encode_utf8(head + events_written(ev.take(i as int), ind0).0),
        decreases n - i,
    {
        let ghost before = written_bytes(writer);
        let ghost e = events@[i as int]@;
        proof {
            lemma_take_one_more(ev, i as int);
            assert(ev[i as int] == e);
            assert(e is Start ==> (writer_indentation(writer) matches Some((s, level, _)) ==> level + s
                <= isize::MAX)) by {
                lemma_no_indentation(ev.take(i as int));
                if let Some(size) = config.indent_size {
                    lemma_indentation_level(ev.take(i as int), size as nat);
                    let d = open_elements(ev.take(i as int));
                    assert(size * (d + 1) == size * d + size) by (nonlinear_arith);
                    if e is Start {
                        assert(size * (d + 1) <= isize::MAX);
                    }
                }
            }
        }
        let written = match &events[i] {
            XmlEvent::Start { name, attributes } => write_start_tag(&mut writer, name, attributes),
            XmlEvent::End { name } => write_end(&mut writer, name.as_str()),
            XmlEvent::Text(text) => write_text(&mut writer, text.as_str()),
            XmlEvent::CData(text) => write_cdata(&mut writer, text.as_str()),
            XmlEvent::Reference { name, .. } => write_reference(&mut writer, name.as_str()),
            XmlEvent::Other => Ok(()),
        };
        match written {
            Ok(()) => {},
            Err(e) => {
                return Err(e);
            },
        }
        proof {
            let prev = events_written(ev.take(i as int), ind0);
            let step = event_step(prev.1, e);
            assert(ev[i as int] == e);
            assert(written_bytes(writer) =~= before + encode_utf8(step.0));
            lemma_encode_utf8_concat(head + prev.0, step.0);
            assert(head + events_written(ev.take(i + 1), ind0).0 =~= (head + prev.0) + step.0);
        }
        i = i + 1;
    }
    proof {
        assert(ev.take(n as int) =~= ev);
    }
    let bytes = writer_output(writer);
    Ok(bytes)
}

} // verus!
