//! The XML events that programme guides are read from, and the reader that
//! produces them.

use vstd::prelude::*;
use vstd::utf8::{decode_utf8, valid_utf8};
use quick_xml::events::Event;

verus! {

/// An attribute of a start tag: its name and its raw (still escaped) value.
pub struct XmlAttribute {
    pub key: Vec<u8>,
    pub value: Vec<u8>,
}

/// One event of an XML document, as far as programme guides need it.
pub enum XmlEvent {
    /// `<name ...>`, with its attributes in document order (`None` for one
    /// that could not be read).
    Start { name: Vec<u8>, attributes: Vec<Option<XmlAttribute>> },
    /// `</name>`.
    End { name: Vec<u8> },
    /// Character data, unescaped (`None` when unescaping failed).
    Text { text: Option<String> },
    /// End of the document.
    Eof,
    /// The reader could not go on.
    Error,
    /// Any other event (empty elements, comments, CDATA, declarations, ...).
    Other,
}

/// An `XmlEvent` as plain values.
pub enum XmlEventView {
    Start(Seq<u8>, Seq<Option<(Seq<u8>, Seq<u8>)>>),
    End(Seq<u8>),
    Text(Option<Seq<char>>),
    Eof,
    Error,
    Other,
}

pub open spec fn attribute_view(a: Option<XmlAttribute>) -> Option<(Seq<u8>, Seq<u8>)> {
    match a {
        Some(x) => Some((x.key@, x.value@)),
        None => None,
    }
}

impl View for XmlEvent {
    type V = XmlEventView;

    open spec fn view(&self) -> XmlEventView {
        match self {
            XmlEvent::Start { name, attributes } => XmlEventView::Start(
                name@,
                attributes@.map_values(|a: Option<XmlAttribute>| attribute_view(a)),
            ),
            XmlEvent::End { name } => XmlEventView::End(name@),
            XmlEvent::Text { text } => XmlEventView::Text(
                match text {
                    Some(t) => Some(t@),
                    None => None,
                },
            ),
            XmlEvent::Eof => XmlEventView::Eof,
            XmlEvent::Error => XmlEventView::Error,
            XmlEvent::Other => XmlEventView::Other,
        }
    }
}

/// `quick_xml::Reader`, an opaque pull parser over an XML document.
#[verifier::external_type_specification]
#[verifier::external_body]
#[verifier::reject_recursive_types(R)]
pub struct ExXmlReader<R>(quick_xml::Reader<R>);

/// `quick_xml::Reader::from_reader` over a byte slice: a reader positioned
/// at the start of `data`. The reader is opaque here; nothing is claimed of
/// it.
#[verifier::external_body]
fn xml_reader(data: &[u8]) -> quick_xml::Reader<&[u8]> {
    quick_xml::Reader::from_reader(data)
}

/// `Reader::config_mut`, then sets `trim_text_start` and `trim_text_end`:
/// text events come without leading and trailing whitespace, and
/// whitespace-only text produces no event. Nothing is claimed of the reader.
#[verifier::external_body]
fn trim_text_events(reader: &mut quick_xml::Reader<&[u8]>) {
    let config = reader.config_mut();
    config.trim_text_start = true;
    config.trim_text_end = true;
}

/// The event that quick-xml gives for the document `data` on call number
/// `index + 1` of `Reader::read_event_into`, on a reader made by
/// `Reader::from_reader(data)` with `trim_text_start` and `trim_text_end`
/// set: names and attribute values copied, text unescaped with
/// `BytesText::unescape`. It depends on the bytes and the count alone.
pub uninterp spec fn xml_event_at(data: Seq<u8>, index: nat) -> XmlEventView;

/// The first `n` events quick-xml gives for `data`.
pub open spec fn xml_events(data: Seq<u8>, n: nat) -> Seq<XmlEventView> {
    Seq::new(n, |i: int| xml_event_at(data, i as nat))
}

/// The events of an XML document, read one after the other: a quick-xml
/// reader over `data` with text trimmed, made by `XmlEvents::open` only,
/// and the number of events it has given.
pub struct XmlEvents<'a> {
    reader: quick_xml::Reader<&'a [u8]>,
    data: &'a [u8],
    read: u128,
    buf: Vec<u8>,
}

impl<'a> XmlEvents<'a> {
    /// The document being read.
    pub closed spec fn source(&self) -> Seq<u8> {
        self.data@
    }

    /// How many events were given so far.
    pub closed spec fn given(&self) -> nat {
        self.read as nat
    }

    /// The events of `data`, none read yet.
    pub fn open(data: &'a [u8]) -> (r: XmlEvents<'a>)
        ensures
            r.source() == data@,
            r.given() == 0,
    {
        let mut reader = xml_reader(data);
        trim_text_events(&mut reader);
        XmlEvents { reader, data, read: 0, buf: Vec::new() }
    }

    /// The next event of the document.
    pub fn next(&mut self) -> (r: XmlEvent)
        requires
            old(self).given() < u128::MAX,
        ensures
            r@ == xml_event_at(old(self).source(), old(self).given()),
            final(self).source() == old(self).source(),
            final(self).given() == old(self).given() + 1,
    {
        self.buf.clear();
        let r = next_xml_event(self);
        self.read = self.read + 1;
        r
    }
}

/// `Reader::read_event_into` on the reader of `s`, with the event converted
/// to an `XmlEvent` (names and attribute values copied, text unescaped with
/// `BytesText::unescape`). The reader was made over `s.data` with text
/// trimmed and has given `s.read` events, so the event is number `s.read`
/// of the document, as `xml_event_at` names it; the document and the count
/// stay as they are.
#[verifier::external_body]
fn next_xml_event(s: &mut XmlEvents) -> (r: XmlEvent)
    ensures
        r@ == xml_event_at(old(s).data@, old(s).read as nat),
        final(s).data == old(s).data,
        final(s).read == old(s).read,
{
    match s.reader.read_event_into(&mut s.buf) {
        Ok(Event::Start(e)) => XmlEvent::Start {
            name: e.name().0.to_vec(),
            attributes: e.attributes().map(|a| a.ok().map(|a| XmlAttribute {
                key: a.key.0.to_vec(),
                value: a.value.into_owned(),
            })).collect(),
        },
        Ok(Event::End(e)) => XmlEvent::End { name: e.name().0.to_vec() },
        Ok(Event::Text(e)) => XmlEvent::Text { text: e.unescape().ok().map(|t| t.into_owned()) },
        Ok(Event::Eof) => XmlEvent::Eof,
        Err(_) => XmlEvent::Error,
        Ok(_) => XmlEvent::Other,
    }
}

/// What `String::from_utf8_lossy` makes of `bytes`: their UTF-8 decoding,
/// each invalid sequence replaced by U+FFFD.
pub uninterp spec fn lossy_utf8(bytes: Seq<u8>) -> Seq<char>;

/// `String::from_utf8_lossy(bytes).into_owned()`. Its documentation states
/// that valid UTF-8 comes back unchanged; the rest is named by `lossy_utf8`.
#[verifier::external_body]
pub(crate) fn utf8_lossy(bytes: &[u8]) -> (r: String)
    ensures
        r@ == lossy_utf8(bytes@),
        valid_utf8(bytes@) ==> r@ == decode_utf8(bytes@),
{
    String::from_utf8_lossy(bytes).into_owned()
}

} // verus!
