//! XML events read with `quick_xml`, as plain values.

use vstd::prelude::*;
use vstd::utf8::encode_utf8;

verus! {

/// One event of an XML reader.
#[derive(Debug)]
pub enum XmlEvent {
    /// A start tag, with its qualified name.
    Start(String),
    /// An end tag, with its qualified name.
    End(String),
    /// Character data with entities unescaped (empty when unescaping failed).
    Text(String),
    /// The end of the document.
    Eof,
    /// A malformed document; reading stops here.
    Error,
    /// Any other event (empty tags, comments, declarations, CDATA, ...).
    Other,
}

/// The mathematical form of an [`XmlEvent`].
pub enum XmlEventView {
    Start(Seq<char>),
    End(Seq<char>),
    Text(Seq<char>),
    Eof,
    Error,
    Other,
}

impl XmlEvent {
    pub open spec fn view(&self) -> XmlEventView {
        match self {
            XmlEvent::Start(n) => XmlEventView::Start(n@),
            XmlEvent::End(n) => XmlEventView::End(n@),
            XmlEvent::Text(t) => XmlEventView::Text(t@),
            XmlEvent::Eof => XmlEventView::Eof,
            XmlEvent::Error => XmlEventView::Error,
            XmlEvent::Other => XmlEventView::Other,
        }
    }

    /// Whether reading stops after this event.
    pub fn is_last(&self) -> (r: bool)
        ensures
            r == (self@ is Eof || self@ is Error),
    {
        match self {
            XmlEvent::Eof | XmlEvent::Error => true,
            _ => false,
        }
    }
}

pub open spec fn events_view(v: Seq<XmlEvent>) -> Seq<XmlEventView> {
    v.map_values(|e: XmlEvent| e@)
}

/// The `k`-th event (counting from zero) that a `quick_xml::Reader` built by `Reader::from_str`
/// on `xml`, with text trimming on, yields from `read_event`.
pub uninterp spec fn spec_xml_event(xml: Seq<char>, k: nat) -> XmlEventView;

/// Whether reading stops after this event.
pub open spec fn is_last_event(e: XmlEventView) -> bool {
    e is Eof || e is Error
}

/// The events from the `k`-th on, up to and including the first end-of-document or error,
/// and at most `fuel` of them.
pub open spec fn xml_events_from(xml: Seq<char>, k: nat, fuel: nat) -> Seq<XmlEventView>
    decreases fuel,
{
    if fuel == 0 {
        Seq::empty()
    } else if is_last_event(spec_xml_event(xml, k)) {
        seq![spec_xml_event(xml, k)]
    } else {
        seq![spec_xml_event(xml, k)] + xml_events_from(xml, k + 1, (fuel - 1) as nat)
    }
}

/// The events that reading `xml` yields, up to and including the first end-of-document or
/// error. Every event but the last consumes at least one byte of the document, so no more than
/// one event per byte and the final one are read.
pub open spec fn spec_xml_events(xml: Seq<char>) -> Seq<XmlEventView> {
    xml_events_from(xml, 0, encode_utf8(xml).len() + 1)
}

/// `quick_xml::Reader`, a pull parser over a source of bytes.
#[verifier::external_type_specification]
#[verifier::external_body]
#[verifier::reject_recursive_types(R)]
pub struct ExXmlReader<R>(quick_xml::Reader<R>);

/// A reader over one document, with the document and the number of events read so far.
pub struct XmlCursor<'a> {
    reader: quick_xml::Reader<&'a [u8]>,
    text: Ghost<Seq<char>>,
    read: Ghost<nat>,
}

impl<'a> XmlCursor<'a> {
    /// The document being read.
    pub closed spec fn text(&self) -> Seq<char> {
        self.text@
    }

    /// How many events have been read.
    pub closed spec fn read(&self) -> nat {
        self.read@
    }
}

/// Builds a reader with `quick_xml::Reader::from_str` and `trim_text(true)`. Claimed: no event
/// has been read yet.
#[verifier::external_body]
fn open_xml<'a>(xml: &'a str) -> (c: XmlCursor<'a>)
    ensures
        c.text() == xml@,
        c.read() == 0,
{
    let mut reader = quick_xml::Reader::from_str(xml);
    reader.trim_text(true);
    XmlCursor { reader, text: Ghost(xml@), read: Ghost(0) }
}

/// Reads the next event with `quick_xml::Reader::read_event`, decoding tag names lossily and
/// unescaping text (empty where unescaping fails). Claimed: the event is the next one of the
/// document, which is a function of the document and the number of events read before.
#[verifier::external_body]
fn read_xml_event(c: &mut XmlCursor) -> (e: XmlEvent)
    ensures
        e@ == spec_xml_event(old(c).text(), old(c).read()),
        final(c).text() == old(c).text(),
        final(c).read() == old(c).read() + 1,
{
    match c.reader.read_event() {
        Ok(quick_xml::events::Event::Start(e)) => XmlEvent::Start(String::from_utf8_lossy(e.name().as_ref()).into_owned()),
        Ok(quick_xml::events::Event::End(e)) => XmlEvent::End(String::from_utf8_lossy(e.name().as_ref()).into_owned()),
        Ok(quick_xml::events::Event::Text(e)) => XmlEvent::Text(e.unescape().unwrap_or_default().into_owned()),
        Ok(quick_xml::events::Event::Eof) => XmlEvent::Eof,
        Err(_) => XmlEvent::Error,
        Ok(_) => XmlEvent::Other,
    }
}

/// Reads the events of `xml` up to and including the end of the document or the first error.
pub fn xml_events(xml: &str) -> (r: Vec<XmlEvent>)
    ensures
        events_view(r@) == spec_xml_events(xml@),
{
    let mut c = open_xml(xml);
    let mut out: Vec<XmlEvent> = Vec::new();
    let bytes = xml.as_bytes();
    let mut fuel: usize = bytes.len();
    let ghost total: nat = encode_utf8(xml@).len() + 1;
    loop
        invariant
            c.text() == xml@,
            total == encode_utf8(xml@).len() + 1,
            c.read() + fuel + 1 == total,
            events_view(out@) + xml_events_from(xml@, c.read(), (fuel + 1) as nat)
                == spec_xml_events(xml@),
        decreases fuel,
    {
        let ghost k = c.read();
        let ev = read_xml_event(&mut c);
        let last = ev.is_last();
        proof {
            assert(events_view(out@.push(ev)) =~= events_view(out@).push(ev@));
        }
        out.push(ev);
        if last || fuel == 0 {
            proof {
                if !last {
                    assert(xml_events_from(xml@, k + 1, 0) =~= Seq::<XmlEventView>::empty());
                }
                assert(xml_events_from(xml@, k, (fuel + 1) as nat) =~= seq![ev@]);
            }
            return out;
        }
        proof {
            assert(seq![ev@] + xml_events_from(xml@, k + 1, fuel as nat)
                =~= xml_events_from(xml@, k, (fuel + 1) as nat));
        }
        fuel = fuel - 1;
    }
}

} // verus!
