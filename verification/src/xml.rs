//! The XML events that stanza parsing reads, and the calls into the
//! `quick_xml` reader that produce them.

use vstd::prelude::*;
use quick_xml::events::{BytesStart, Event};
use quick_xml::Reader;

verus! {

/// A start or empty-element tag: its name and its attributes, in document
/// order, with raw (still escaped) values.
#[derive(Debug)]
pub struct XmlTag {
    pub name: String,
    pub attrs: Vec<(String, String)>,
}

/// One event of the XML reader, reduced to what stanza parsing reads.
#[derive(Debug)]
pub enum XmlEvent {
    Start(XmlTag),
    Empty(XmlTag),
    /// Character data, with entities resolved.
    Text(String),
    End,
    Eof,
    /// A syntax error, with the reader's message.
    Error(String),
    /// Any other event: comments, CDATA, declarations, processing instructions, DOCTYPE.
    Other,
}

#[verifier::external_type_specification]
#[verifier::external_body]
#[verifier::reject_recursive_types(R)]
pub struct ExXmlReader<R>(Reader<R>);

#[verifier::external_type_specification]
#[verifier::external_body]
pub struct ExBytesStart<'a>(BytesStart<'a>);

/// A tag as the reader reports it: its name, and each of its attributes
/// in order, `None` where the reader reports a malformed one.
pub struct RawTag {
    pub name: String,
    pub attrs: Vec<Option<(String, String)>>,
}

/// An event as the reader reports it.
pub enum RawEvent {
    Start(RawTag),
    Empty(RawTag),
    Text(String),
    End,
    Eof,
    Error(String),
    Other,
}

/// The attributes of a reported tag, as character sequences.
pub open spec fn raw_attrs_view(a: Seq<Option<(String, String)>>) -> Seq<Option<(Seq<char>, Seq<char>)>> {
    a.map_values(
        |o: Option<(String, String)>|
            match o {
                Some(p) => Some((p.0@, p.1@)),
                None => None,
            },
    )
}

/// An event as the reader reports it, as character sequences.
pub enum RawEventView {
    Start(Seq<char>, Seq<Option<(Seq<char>, Seq<char>)>>),
    Empty(Seq<char>, Seq<Option<(Seq<char>, Seq<char>)>>),
    Text(Seq<char>),
    End,
    Eof,
    Error(Seq<char>),
    Other,
}

pub open spec fn raw_view(e: RawEvent) -> RawEventView {
    match e {
        RawEvent::Start(t) => RawEventView::Start(t.name@, raw_attrs_view(t.attrs@)),
        RawEvent::Empty(t) => RawEventView::Empty(t.name@, raw_attrs_view(t.attrs@)),
        RawEvent::Text(t) => RawEventView::Text(t@),
        RawEvent::End => RawEventView::End,
        RawEvent::Eof => RawEventView::Eof,
        RawEvent::Error(m) => RawEventView::Error(m@),
        RawEvent::Other => RawEventView::Other,
    }
}

/// The event that the `k`-th call of `read_event_into` reports (counting
/// from 0) on a `quick_xml` reader made by `Reader::from_str` over `text`,
/// with `trim_text` set or not before the first call.
pub uninterp spec fn xml_event_at(text: Seq<char>, trim: bool, k: nat) -> RawEventView;

/// The well-formed attributes, in order.
pub open spec fn well_formed_attrs(a: Seq<Option<(Seq<char>, Seq<char>)>>) -> Seq<(Seq<char>, Seq<char>)>
    decreases a.len(),
{
    if a.len() == 0 {
        seq![]
    } else {
        match a.last() {
            Some(p) => well_formed_attrs(a.drop_last()).push(p),
            None => well_formed_attrs(a.drop_last()),
        }
    }
}

/// The pairs of strings as character sequences.
pub open spec fn attr_pairs(a: Seq<(String, String)>) -> Seq<(Seq<char>, Seq<char>)> {
    a.map_values(|p: (String, String)| (p.0@, p.1@))
}

/// An event as stanza parsing reads it, as character sequences.
pub enum XmlEventView {
    Start(Seq<char>, Seq<(Seq<char>, Seq<char>)>),
    Empty(Seq<char>, Seq<(Seq<char>, Seq<char>)>),
    Text(Seq<char>),
    End,
    Eof,
    Error(Seq<char>),
    Other,
}

pub open spec fn event_view(e: XmlEvent) -> XmlEventView {
    match e {
        XmlEvent::Start(t) => XmlEventView::Start(t.name@, attr_pairs(t.attrs@)),
        XmlEvent::Empty(t) => XmlEventView::Empty(t.name@, attr_pairs(t.attrs@)),
        XmlEvent::Text(t) => XmlEventView::Text(t@),
        XmlEvent::End => XmlEventView::End,
        XmlEvent::Eof => XmlEventView::Eof,
        XmlEvent::Error(m) => XmlEventView::Error(m@),
        XmlEvent::Other => XmlEventView::Other,
    }
}

/// A reported event with the malformed attributes of its tag left out.
pub open spec fn cooked(e: RawEventView) -> XmlEventView {
    match e {
        RawEventView::Start(n, a) => XmlEventView::Start(n, well_formed_attrs(a)),
        RawEventView::Empty(n, a) => XmlEventView::Empty(n, well_formed_attrs(a)),
        RawEventView::Text(t) => XmlEventView::Text(t),
        RawEventView::End => XmlEventView::End,
        RawEventView::Eof => XmlEventView::Eof,
        RawEventView::Error(m) => XmlEventView::Error(m),
        RawEventView::Other => XmlEventView::Other,
    }
}

/// The first `n` events, as stanza parsing reads them, of a reader over
/// `text` with `trim_text` set or not.
pub open spec fn reader_events(text: Seq<char>, trim: bool, n: nat) -> Seq<XmlEventView> {
    Seq::new(n, |i: int| cooked(xml_event_at(text, trim, i as nat)))
}

/// The views of a sequence of events.
pub open spec fn event_views(evs: Seq<XmlEvent>) -> Seq<XmlEventView> {
    evs.map_values(|e: XmlEvent| event_view(e))
}

/// Converts a `quick_xml` start tag with `BytesStart::name` and
/// `BytesStart::attributes`: the name, and each attribute's key and raw
/// value read as UTF-8 with replacement characters (or `None` for an
/// attribute the reader reports as malformed), in order.
#[verifier::external_body]
fn raw_tag_of(e: &BytesStart) -> RawTag {
    let mut attrs = Vec::new();
    for a in e.attributes() {
        attrs.push(match a {
            Ok(a) => Some((String::from_utf8_lossy(a.key.as_ref()).to_string(), String::from_utf8_lossy(&a.value).to_string())),
            Err(_) => None,
        });
    }
    RawTag { name: String::from_utf8_lossy(e.name().as_ref()).to_string(), attrs }
}

/// A `quick_xml` reader over a text, with the text, whether `trim_text` is
/// set, and how many events were read so far.
pub struct EventReader<'a> {
    reader: Reader<&'a [u8]>,
    text: Ghost<Seq<char>>,
    trim: Ghost<bool>,
    count: Ghost<nat>,
}

impl<'a> EventReader<'a> {
    pub closed spec fn text(&self) -> Seq<char> {
        self.text@
    }

    pub closed spec fn trims(&self) -> bool {
        self.trim@
    }

    pub closed spec fn count(&self) -> nat {
        self.count@
    }

    /// A reader at the start of `s`, with `trim_text` not set.
    pub(crate) fn new(s: &'a str) -> (r: EventReader<'a>)
        ensures
            r.text() == s@,
            !r.trims(),
            r.count() == 0,
    {
        EventReader { reader: reader_from_str(s), text: Ghost(s@), trim: Ghost(false), count: Ghost(0) }
    }

    /// Calls `quick_xml::Reader::config_mut` and sets `trim_text(true)`
    /// before any event is read, so that the reader drops white space
    /// around text.
    #[verifier::external_body]
    pub(crate) fn set_trim_text(&mut self)
        requires
            old(self).count() == 0,
        ensures
            final(self).text() == old(self).text(),
            final(self).trims(),
            final(self).count() == 0,
    {
        self.reader.config_mut().trim_text(true);
    }

    /// Calls `quick_xml::Reader::read_event_into` once and converts the
    /// event: text unescaped with `BytesText::unescape` (empty when that
    /// fails), an error as its `Display` text. The reader is deterministic,
    /// so the event is the one `xml_event_at` names for this reader's text,
    /// setting and count.
    #[verifier::external_body]
    fn next_raw(&mut self) -> (e: RawEvent)
        ensures
            raw_view(e) == xml_event_at(old(self).text(), old(self).trims(), old(self).count()),
            final(self).text() == old(self).text(),
            final(self).trims() == old(self).trims(),
            final(self).count() == old(self).count() + 1,
    {
        let mut buf: Vec<u8> = Vec::new();
        match self.reader.read_event_into(&mut buf) {
            Ok(Event::Start(e)) => RawEvent::Start(raw_tag_of(&e)),
            Ok(Event::Empty(e)) => RawEvent::Empty(raw_tag_of(&e)),
            Ok(Event::Text(e)) => RawEvent::Text(e.unescape().unwrap_or_default().to_string()),
            Ok(Event::End(_)) => RawEvent::End,
            Ok(Event::Eof) => RawEvent::Eof,
            Ok(_) => RawEvent::Other,
            Err(e) => RawEvent::Error(e.to_string()),
        }
    }

    /// Reads the next event, leaving out the malformed attributes of a tag.
    pub(crate) fn read_event(&mut self) -> (e: XmlEvent)
        ensures
            event_view(e) == cooked(xml_event_at(old(self).text(), old(self).trims(), old(self).count())),
            final(self).text() == old(self).text(),
            final(self).trims() == old(self).trims(),
            final(self).count() == old(self).count() + 1,
    {
        let raw = self.next_raw();
        match raw {
            RawEvent::Start(t) => XmlEvent::Start(tag_of(t)),
            RawEvent::Empty(t) => XmlEvent::Empty(tag_of(t)),
            RawEvent::Text(t) => XmlEvent::Text(t),
            RawEvent::End => XmlEvent::End,
            RawEvent::Eof => XmlEvent::Eof,
            RawEvent::Error(m) => XmlEvent::Error(m),
            RawEvent::Other => XmlEvent::Other,
        }
    }
}

/// Calls `quick_xml::Reader::from_str`, which makes a reader positioned at
/// the start of `s`.
#[verifier::external_body]
fn reader_from_str<'a>(s: &'a str) -> Reader<&'a [u8]> {
    Reader::from_str(s)
}

/// The tag with its malformed attributes left out.
pub fn tag_of(raw: RawTag) -> (t: XmlTag)
    ensures
        t.name@ == raw.name@,
        attr_pairs(t.attrs@) == well_formed_attrs(raw_attrs_view(raw.attrs@)),
{
    let ghost rv = raw_attrs_view(raw.attrs@);
    let mut attrs: Vec<(String, String)> = Vec::new();
    let mut i: usize = 0;
    while i < raw.attrs.len()
        invariant
            i <= raw.attrs.len(),
            rv == raw_attrs_view(raw.attrs@),
            attr_pairs(attrs@) == well_formed_attrs(rv.subrange(0, i as int)),
        decreases raw.attrs.len() - i,
    {
        assert(rv.subrange(0, i + 1).drop_last() =~= rv.subrange(0, i as int));
        assert(rv.subrange(0, i + 1).last() == rv[i as int]);
        match &raw.attrs[i] {
            Some(p) => {
                let ghost before = attr_pairs(attrs@);
                attrs.push((crate::text::copy_str(p.0.as_str()), crate::text::copy_str(p.1.as_str())));
                assert(attr_pairs(attrs@) =~= before.push((p.0@, p.1@)));
            },
            None => {},
        }
        i = i + 1;
    }
    assert(rv.subrange(0, raw.attrs.len() as int) =~= rv);
    XmlTag { name: raw.name, attrs }
}

} // verus!
