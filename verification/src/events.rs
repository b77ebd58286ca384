//! Feed events: the pull-based view of one XML feed document.
//!
//! The XML tokenizing itself is done by the `xml` crate and taken on
//! trust; each of its events is converted to a plain [`FeedEvent`] value
//! the moment it is pulled, and everything the parser then does with the
//! events is verified.

use vstd::prelude::*;

verus! {

/// Mathematical value of an [`Attr`].
#[verifier::ext_equal]
pub ghost struct AttrView {
    pub name: Seq<char>,
    pub value: Seq<char>,
}

/// One attribute of a start tag: its local name and its value.
#[derive(Clone, Debug)]
pub struct Attr {
    pub name: String,
    pub value: String,
}

impl View for Attr {
    type V = AttrView;

    open spec fn view(&self) -> AttrView {
        AttrView { name: self.name@, value: self.value@ }
    }
}

impl DeepView for Attr {
    type V = AttrView;

    open spec fn deep_view(&self) -> AttrView {
        self.view()
    }
}

/// Mathematical value of a [`FeedEvent`].
#[verifier::ext_equal]
pub ghost enum FeedEventView {
    Start { name: Seq<char>, attrs: Seq<AttrView> },
    End { name: Seq<char> },
    Text { text: Seq<char> },
    DocEnd,
    Other,
    Bad { message: Seq<char> },
}

/// One event of a feed document, reduced to plain values.
///
/// `Start` carries an element's local name and its attributes, `End` an
/// element's local name, `Text` one run of character data. `DocEnd` marks
/// the end of the document stream, `Other` every event the parser ignores,
/// and `Bad` an XML well-formedness or input error, with its message.
#[derive(Clone, Debug)]
pub enum FeedEvent {
    Start { name: String, attrs: Vec<Attr> },
    End { name: String },
    Text { text: String },
    DocEnd,
    Other,
    Bad { message: String },
}

impl View for FeedEvent {
    type V = FeedEventView;

    open spec fn view(&self) -> FeedEventView {
        match self {
            FeedEvent::Start { name, attrs } => FeedEventView::Start {
                name: name@,
                attrs: attrs.deep_view(),
            },
            FeedEvent::End { name } => FeedEventView::End { name: name@ },
            FeedEvent::Text { text } => FeedEventView::Text { text: text@ },
            FeedEvent::DocEnd => FeedEventView::DocEnd,
            FeedEvent::Other => FeedEventView::Other,
            FeedEvent::Bad { message } => FeedEventView::Bad { message: message@ },
        }
    }
}

impl DeepView for FeedEvent {
    type V = FeedEventView;

    open spec fn deep_view(&self) -> FeedEventView {
        self.view()
    }
}

/// A pull source of feed events over an in-memory document. The held
/// `xml::reader::EventReader` is opaque here: every event it hands out is
/// converted to a [`FeedEvent`] by [`next_feed_event`], and contracts
/// speak of the reader through [`reader_pending`].
#[verifier::external_body]
pub struct FeedReader<'a> {
    inner: xml::reader::EventReader<&'a [u8]>,
}

/// The events the `xml` crate's reader yields over a document, in order
/// and converted to [`FeedEvent`] values, up to and including the first
/// end-of-document or error event — the event from which the reader only
/// repeats itself. The stream depends on the document text alone: the
/// reader is a pull parser over the given bytes, with no clock,
/// environment or randomness in it.
pub uninterp spec fn feed_events(body: Seq<char>) -> Seq<FeedEventView>;

/// The events a reader has yet to yield, the event from which it repeats
/// itself held as the last.
pub uninterp spec fn reader_pending(r: FeedReader<'_>) -> Seq<FeedEventView>;

/// Whether an event ends a reader's stream: the end of the document or an
/// error, which the reader returns again on every later call.
pub open spec fn terminal_event(ev: FeedEventView) -> bool {
    ev is DocEnd || ev is Bad
}

/// Relies on `xml::reader::EventReader::from_str`: a fresh reader over the
/// given document, whose pending events are the document's whole stream.
/// That the stream is finite and ends in an end-of-document or error event
/// holds because the document is finite and the reader, by its own
/// documentation, returns such an event again on every call after first
/// yielding it.
#[verifier::external_body]
pub fn open_feed<'a>(body: &'a str) -> (r: FeedReader<'a>)
    ensures
        reader_pending(r) == feed_events(body@),
        reader_pending(r).len() >= 1,
        terminal_event(reader_pending(r).last()),
{
    FeedReader { inner: xml::reader::EventReader::from_str(body) }
}

/// Relies on `xml::reader::EventReader::next`: the next pending event of
/// the stream. A yielded end-of-document or error event stays pending,
/// since the reader returns it again on every later call.
#[verifier::external_body]
pub fn next_feed_event(reader: &mut FeedReader<'_>) -> (ev: FeedEvent)
    ensures
        reader_pending(*old(reader)).len() > 1 ==> (ev@ == reader_pending(*old(reader))[0]
            && reader_pending(*final(reader)) == reader_pending(*old(reader)).skip(1)),
        reader_pending(*old(reader)).len() == 1 ==> (ev@ == reader_pending(*old(reader))[0]
            && reader_pending(*final(reader)) == reader_pending(*old(reader))),
{
    match reader.inner.next() {
        Ok(xml::reader::XmlEvent::StartElement { name, attributes, .. }) => FeedEvent::Start {
            name: name.local_name,
            attrs: attributes
                .into_iter()
                .map(|a| Attr { name: a.name.local_name, value: a.value })
                .collect(),
        },
        Ok(xml::reader::XmlEvent::EndElement { name }) => FeedEvent::End { name: name.local_name },
        Ok(xml::reader::XmlEvent::Characters(text)) => FeedEvent::Text { text },
        Ok(xml::reader::XmlEvent::EndDocument) => FeedEvent::DocEnd,
        Ok(_) => FeedEvent::Other,
        Err(e) => FeedEvent::Bad { message: format!("{}", e) },
    }
}

} // verus!
