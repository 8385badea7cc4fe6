//! The markup events that a document is read as.
//!
//! The markup reader is the `xml` crate's. This module turns each of its
//! events into a value of the library and collects the events of a whole
//! document; every decoder works on that sequence.

use vstd::prelude::*;

verus! {

/// One attribute of an element: its local name and its text.
#[derive(Debug, Clone, PartialEq, Eq)]
pub struct Attribute {
    pub name: String,
    pub value: String,
}

impl Attribute {
    /// An attribute of the given name and text.
    pub fn new(name: String, value: String) -> (attribute: Attribute)
        ensures
            attribute.name == name,
            attribute.value == value,
    {
        Attribute { name, value }
    }
}

/// One step of reading a document.
#[derive(Debug, Clone, PartialEq, Eq)]
pub enum XmlEvent {
    /// An element opens.
    StartElement { name: String, attributes: Vec<Attribute> },
    /// An element closes.
    EndElement { name: String },
    /// Text between tags.
    Characters(String),
    /// The document is complete.
    EndDocument,
    /// Anything else: a comment, white space, a declaration.
    Other,
    /// The markup is invalid from here on; the text says why.
    Malformed(String),
}

impl XmlEvent {
    /// Whether nothing follows this event: the document is complete or broken.
    pub open spec fn is_last(&self) -> bool {
        self is EndDocument || self is Malformed
    }

    /// Executable form of [`XmlEvent::is_last`].
    pub fn ends_stream(&self) -> (ends: bool)
        ensures
            ends == self.is_last(),
    {
        match self {
            XmlEvent::EndDocument => true,
            XmlEvent::Malformed(_) => true,
            _ => false,
        }
    }
}

/// Whether the events are those of one document: there is at least one, the
/// final one is [`XmlEvent::EndDocument`] or [`XmlEvent::Malformed`], and no
/// earlier one is.
pub open spec fn is_event_stream(events: Seq<XmlEvent>) -> bool {
    &&& events.len() > 0
    &&& events.last().is_last()
    &&& forall|i: int| 0 <= i < events.len() - 1 ==> !(#[trigger] events[i]).is_last()
}

/// A markup reader over bytes held in memory. The `xml` crate's
/// `EventReader` is kept inside; nothing of it is visible to proofs but the
/// events that it has yet to give, [`pending_events`].
#[verifier::external_body]
pub struct EventSource<'a> {
    reader: xml::EventReader<&'a [u8]>,
}

/// The events that a reader has yet to give, up to and with the first
/// [`XmlEvent::EndDocument`] or [`XmlEvent::Malformed`].
pub uninterp spec fn pending_events(source: EventSource) -> Seq<XmlEvent>;

/// The events that the `xml` crate reads from a document, up to and with the
/// first [`XmlEvent::EndDocument`] or [`XmlEvent::Malformed`].
pub uninterp spec fn document_events(bytes: Seq<u8>) -> Seq<XmlEvent>;

/// Calls `xml::EventReader::new` on the bytes. The contract names the events
/// of the new reader [`document_events`] of the bytes, and claims that they
/// form one document's stream: reading a finite input ends, after finitely
/// many events, with the end of the document or with an error.
#[verifier::external_body]
fn open_source<'a>(bytes: &'a [u8]) -> (source: EventSource<'a>)
    ensures
        pending_events(source) == document_events(bytes@),
        is_event_stream(pending_events(source)),
{
    EventSource { reader: xml::EventReader::new(bytes) }
}

/// Calls `xml::EventReader::next` and turns its result into an event of the
/// library: element names and attribute names are reduced to their local
/// name, an error to its message. The contract claims that the reader gives
/// its pending events in order, and that after the end of the document or an
/// error it stays where it is, as the crate documents.
#[verifier::external_body]
fn next_event(source: &mut EventSource) -> (event: XmlEvent)
    requires
        is_event_stream(pending_events(*old(source))),
    ensures
        event == pending_events(*old(source)).first(),
        pending_events(*final(source)) == if event.is_last() {
            pending_events(*old(source))
        } else {
            pending_events(*old(source)).skip(1)
        },
{
    match source.reader.next() {
        Ok(xml::reader::XmlEvent::StartElement { name, attributes, .. }) => XmlEvent::StartElement {
            name: name.local_name,
            attributes: attributes.into_iter().map(|a| Attribute::new(a.name.local_name, a.value)).collect(),
        },
        Ok(xml::reader::XmlEvent::EndElement { name }) => XmlEvent::EndElement { name: name.local_name },
        Ok(xml::reader::XmlEvent::Characters(text)) => XmlEvent::Characters(text),
        Ok(xml::reader::XmlEvent::EndDocument) => XmlEvent::EndDocument,
        Ok(_) => XmlEvent::Other,
        Err(e) => XmlEvent::Malformed(e.to_string()),
    }
}

/// Reads a whole document into its events. The result always ends with
/// [`XmlEvent::EndDocument`] or [`XmlEvent::Malformed`].
pub fn read_events(bytes: &[u8]) -> (events: Vec<XmlEvent>)
    ensures
        events@ == document_events(bytes@),
        is_event_stream(events@),
{
    let mut source = open_source(bytes);
    let mut events: Vec<XmlEvent> = Vec::new();
    loop
        invariant
            is_event_stream(pending_events(source)),
            events@ + pending_events(source) == document_events(bytes@),
            forall|i: int| 0 <= i < events.len() ==> !(#[trigger] events@[i]).is_last(),
        decreases pending_events(source).len(),
    {
        let ghost before = pending_events(source);
        let ghost seen = events@;
        let event = next_event(&mut source);
        let done = event.ends_stream();
        events.push(event);
        if done {
            assert(before.len() == 1) by {
                if before.len() > 1 {
                    assert(!before[0].is_last());
                }
            }
            assert(events@ =~= seen + before);
            return events;
        }
        assert(before.len() > 1);
        assert(is_event_stream(before.skip(1))) by {
            assert forall|i: int| 0 <= i < before.skip(1).len() - 1 implies !(
            #[trigger] before.skip(1)[i]).is_last() by {
                assert(!before[i + 1].is_last());
            }
        }
        assert(events@ + before.skip(1) =~= seen + before);
    }
}

} // verus!
