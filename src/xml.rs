//! Markup events as the library reads them, and element names.
use quick_xml::events::attributes::Attributes;
use quick_xml::events::Event::{Empty, End, Eof, Start, Text};
use std::borrow::Cow;
use quick_xml::Reader;
use vstd::prelude::*;

verus! {

/// One attribute of an element, its key with any namespace prefix.
#[derive(Clone, Debug)]
pub struct Attribute {
    pub key: String,
    pub value: String,
}

/// An element's tag: its qualified name and its attributes in order.
#[derive(Clone, Debug)]
pub struct Element {
    pub name: String,
    pub attributes: Vec<Attribute>,
}

/// A markup event of the body, in document order.
#[derive(Clone, Debug)]
pub enum XmlEvent {
    /// An opening tag `<tag attr="value">`.
    Start(Element),
    /// A self-closing tag `<tag attr="value"/>`.
    Empty(Element),
    /// A closing tag `</tag>`, by its qualified name.
    End(String),
    /// Character data, unescaped.
    Text(String),
    /// Anything else: declarations, comments, processing instructions.
    Other,
}

pub struct ElementView {
    pub name: Seq<char>,
    pub attributes: Seq<(Seq<char>, Seq<char>)>,
}

pub enum XmlEventView {
    Start(ElementView),
    Empty(ElementView),
    End(Seq<char>),
    Text(Seq<char>),
    Other,
}

pub open spec fn attributes_view(s: Seq<Attribute>) -> Seq<(Seq<char>, Seq<char>)> {
    s.map_values(|a: Attribute| (a.key@, a.value@))
}

impl View for Element {
    type V = ElementView;

    open spec fn view(&self) -> ElementView {
        ElementView { name: self.name@, attributes: attributes_view(self.attributes@) }
    }
}

impl View for XmlEvent {
    type V = XmlEventView;

    open spec fn view(&self) -> XmlEventView {
        match self {
            XmlEvent::Start(e) => XmlEventView::Start(e@),
            XmlEvent::Empty(e) => XmlEventView::Empty(e@),
            XmlEvent::End(n) => XmlEventView::End(n@),
            XmlEvent::Text(t) => XmlEventView::Text(t@),
            XmlEvent::Other => XmlEventView::Other,
        }
    }
}

pub open spec fn events_view(s: Seq<XmlEvent>) -> Seq<XmlEventView> {
    s.map_values(|e: XmlEvent| e@)
}

/// The name without its namespace prefix: what follows the first ':', or the
/// whole name where there is none.
pub open spec fn local_name_of(name: Seq<char>) -> Seq<char> {
    if exists|i: int| 0 <= i < name.len() && name[i] == ':' {
        let i = choose|i: int|
            0 <= i < name.len() && name[i] == ':' && forall|k: int| 0 <= k < i ==> name[k] != ':';
        name.skip(i + 1)
    } else {
        name
    }
}

proof fn lemma_first_colon(name: Seq<char>, i: int)
    requires
        0 <= i < name.len(),
        name[i] == ':',
        forall|k: int| 0 <= k < i ==> name[k] != ':',
    ensures
        local_name_of(name) == name.skip(i + 1),
{
    let j = choose|j: int|
        0 <= j < name.len() && name[j] == ':' && forall|k: int| 0 <= k < j ==> name[k] != ':';
    if j < i {
        assert(name[j] != ':');
    }
    if i < j {
        assert(name[i] != ':');
    }
}

/// Extract local name from a potentially namespace-prefixed element name
/// e.g. "w:comment" → "comment", "comment" → "comment"
pub fn local_name(name: &str) -> (r: &str)
    ensures
        r@ == local_name_of(name@),
{
    let n = name.unicode_len();
    let mut i: usize = 0;
    while i < n
        invariant
            n == name@.len(),
            i <= n,
            forall|k: int| 0 <= k < i ==> name@[k] != ':',
        decreases n - i,
    {
        if name.get_char(i) == ':' {
            proof {
                lemma_first_colon(name@, i as int);
            }
            return name.substring_char(i + 1, n);
        }
        i += 1;
    }
    assert(name@.subrange(0, n as int) =~= name@);
    name.substring_char(0, n)
}

/// Whether the local part of `name` is `word`.
pub fn has_local_name(name: &str, word: &str) -> (r: bool)
    ensures
        r == (local_name_of(name@) == word@),
{
    local_name(name).to_owned() == word.to_owned()
}

/// The value of the last attribute whose local key is `key`.
pub open spec fn attr_last(attrs: Seq<(Seq<char>, Seq<char>)>, key: Seq<char>) -> Option<Seq<char>>
    decreases attrs.len(),
{
    if attrs.len() == 0 {
        None
    } else if local_name_of(attrs.last().0) == key {
        Some(attrs.last().1)
    } else {
        attr_last(attrs.drop_last(), key)
    }
}

/// The values of all attributes whose local key is `key`, in order.
pub open spec fn attr_all(attrs: Seq<(Seq<char>, Seq<char>)>, key: Seq<char>) -> Seq<Seq<char>>
    decreases attrs.len(),
{
    if attrs.len() == 0 {
        Seq::empty()
    } else if local_name_of(attrs.last().0) == key {
        attr_all(attrs.drop_last(), key).push(attrs.last().1)
    } else {
        attr_all(attrs.drop_last(), key)
    }
}

pub proof fn lemma_attr_step(attrs: Seq<(Seq<char>, Seq<char>)>, i: int, key: Seq<char>)
    requires
        0 <= i < attrs.len(),
    ensures
        attr_last(attrs.take(i + 1), key) == if local_name_of(attrs[i].0) == key {
            Some(attrs[i].1)
        } else {
            attr_last(attrs.take(i), key)
        },
        attr_all(attrs.take(i + 1), key) == if local_name_of(attrs[i].0) == key {
            attr_all(attrs.take(i), key).push(attrs[i].1)
        } else {
            attr_all(attrs.take(i), key)
        },
{
    assert(attrs.take(i + 1).drop_last() =~= attrs.take(i));
}

/// The value of the last attribute whose local key is `key`.
pub fn attribute_value(attributes: &Vec<Attribute>, key: &str) -> (r: Option<String>)
    ensures
        crate::types::opt_text(r) == attr_last(attributes_view(attributes@), key@),
{
    let ghost av = attributes_view(attributes@);
    let mut found: Option<String> = None;
    let mut i: usize = 0;
    while i < attributes.len()
        invariant
            av == attributes_view(attributes@),
            i <= attributes@.len(),
            crate::types::opt_text(found) == attr_last(av.take(i as int), key@),
        decreases attributes@.len() - i,
    {
        proof {
            lemma_attr_step(av, i as int, key@);
        }
        if has_local_name(attributes[i].key.as_str(), key) {
            found = Some(attributes[i].value.clone());
        }
        i += 1;
    }
    assert(av.take(attributes@.len() as int) =~= av);
    found
}

/// A markup event as the reader hands it over: a tag's attributes still as
/// their raw text.
pub enum RawEvent {
    Start(Vec<u8>, Vec<u8>),
    Empty(Vec<u8>, Vec<u8>),
    End(Vec<u8>),
    Text(Option<String>),
    Other,
}

pub enum RawEventView {
    Start(Seq<u8>, Seq<u8>),
    Empty(Seq<u8>, Seq<u8>),
    End(Seq<u8>),
    Text(Option<Seq<char>>),
    Other,
}

impl View for RawEvent {
    type V = RawEventView;

    open spec fn view(&self) -> RawEventView {
        match self {
            RawEvent::Start(n, a) => RawEventView::Start(n@, a@),
            RawEvent::Empty(n, a) => RawEventView::Empty(n@, a@),
            RawEvent::End(n) => RawEventView::End(n@),
            RawEvent::Text(t) => RawEventView::Text(crate::types::opt_text(*t)),
            RawEvent::Other => RawEventView::Other,
        }
    }
}

/// The text that std's lossy UTF-8 decoding gives for some bytes.
pub uninterp spec fn utf8_lossy_of(b: Seq<u8>) -> Seq<char>;

/// Relies on std's `String::from_utf8_lossy`: the bytes decoded as UTF-8, each
/// invalid sequence replaced by U+FFFD.
#[verifier::external_body]
fn utf8_lossy(b: &[u8]) -> (r: String)
    ensures
        r@ == utf8_lossy_of(b@),
{
    String::from_utf8_lossy(b).into_owned()
}

/// The events that quick_xml's reader yields for a text, with surrounding
/// whitespace of character data trimmed, up to the end of input or the first
/// malformed markup. They depend on the text alone.
pub uninterp spec fn raw_events_of(xml: Seq<char>) -> Seq<RawEventView>;

/// The attributes that quick_xml reads from a tag's attribute text, as
/// (key, raw value), malformed ones left out. They depend on the text alone.
pub uninterp spec fn attributes_of(raw: Seq<char>) -> Seq<(Seq<char>, Seq<char>)>;

/// Relies on quick_xml's `Reader::read_event` (from `Reader::from_str`, text
/// trimmed): each event up to `Eof` or the first error, one for one: a tag's
/// qualified name and raw attribute text, character data unescaped (None where
/// it fails to unescape).
#[verifier::external_body]
fn raw_events(xml: &str) -> (r: Vec<RawEvent>)
    ensures
        r@.map_values(|e: RawEvent| e@) == raw_events_of(xml@),
{
    let mut reader = Reader::from_str(xml);
    reader.config_mut().trim_text(true);
    let mut events = Vec::new();
    loop {
        events.push(match reader.read_event() {
            Ok(Start(e)) => RawEvent::Start(e.name().0.to_vec(), e.attributes_raw().to_vec()),
            Ok(Empty(e)) => RawEvent::Empty(e.name().0.to_vec(), e.attributes_raw().to_vec()),
            Ok(End(e)) => RawEvent::End(e.name().0.to_vec()),
            Ok(Text(e)) => RawEvent::Text(e.unescape().ok().map(Cow::into_owned)),
            Ok(Eof) | Err(_) => return events,
            Ok(_) => RawEvent::Other,
        });
    }
}

/// Relies on quick_xml's `Attributes::new` over a tag's attribute text (what
/// `BytesStart::attributes` iterates): the well-formed attributes in order,
/// keys and raw values as UTF-8 (lossy).
#[verifier::external_body]
fn parse_attributes(raw: &str) -> (r: Vec<Attribute>)
    ensures
        attributes_view(r@) == attributes_of(raw@),
{
    let lossy = |b: &[u8]| String::from_utf8_lossy(b).into_owned();
    Attributes::new(raw, 0).flatten().map(|a| Attribute { key: lossy(a.key.0), value: lossy(&a.value) }).collect()
}

pub open spec fn element_of(name: Seq<u8>, raw: Seq<u8>) -> ElementView {
    ElementView { name: utf8_lossy_of(name), attributes: attributes_of(utf8_lossy_of(raw)) }
}

/// The library's event for a raw one: names as UTF-8 (lossy), attributes read,
/// and text that could not be unescaped as `Other`.
pub open spec fn event_of(e: RawEventView) -> XmlEventView {
    match e {
        RawEventView::Start(n, a) => XmlEventView::Start(element_of(n, a)),
        RawEventView::Empty(n, a) => XmlEventView::Empty(element_of(n, a)),
        RawEventView::End(n) => XmlEventView::End(utf8_lossy_of(n)),
        RawEventView::Text(Some(t)) => XmlEventView::Text(t),
        RawEventView::Text(None) => XmlEventView::Other,
        RawEventView::Other => XmlEventView::Other,
    }
}

/// The markup events of a text, each tag with its attributes read.
pub open spec fn xml_events_of(xml: Seq<char>) -> Seq<XmlEventView> {
    raw_events_of(xml).map_values(|e: RawEventView| event_of(e))
}

/// The markup events of a text, in document order, up to its end or the first
/// malformed markup.
pub fn read_events(xml: &str) -> (r: Vec<XmlEvent>)
    ensures
        events_view(r@) == xml_events_of(xml@),
{
    let raw = raw_events(xml);
    let ghost rv = raw@.map_values(|e: RawEvent| e@);
    let mut events: Vec<XmlEvent> = Vec::new();
    let mut i: usize = 0;
    while i < raw.len()
        invariant
            rv == raw@.map_values(|e: RawEvent| e@),
            rv == raw_events_of(xml@),
            i <= raw@.len(),
            events@.len() == i,
            forall|k: int| 0 <= k < i ==> (#[trigger] events@[k])@ == event_of(rv[k]),
        decreases raw@.len() - i,
    {
        let ev = match &raw[i] {
            RawEvent::Start(name, attrs) => XmlEvent::Start(
                Element {
                    name: utf8_lossy(name.as_slice()),
                    attributes: parse_attributes(utf8_lossy(attrs.as_slice()).as_str()),
                },
            ),
            RawEvent::Empty(name, attrs) => XmlEvent::Empty(
                Element {
                    name: utf8_lossy(name.as_slice()),
                    attributes: parse_attributes(utf8_lossy(attrs.as_slice()).as_str()),
                },
            ),
            RawEvent::End(name) => XmlEvent::End(utf8_lossy(name.as_slice())),
            RawEvent::Text(Some(t)) => XmlEvent::Text(t.clone()),
            RawEvent::Text(None) => XmlEvent::Other,
            RawEvent::Other => XmlEvent::Other,
        };
        assert(ev@ == event_of(raw@[i as int]@));
        events.push(ev);
        assert(rv[i as int] == raw@[i as int]@);
        i += 1;
    }
    assert(events_view(events@) =~= xml_events_of(xml@));
    events
}

} // verus!
