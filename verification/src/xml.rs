//! XML events and their serialisation through `quick_xml`.
use vstd::prelude::*;
use quick_xml::events::{BytesDecl, BytesEnd, BytesStart, BytesText, Event};
use quick_xml::Writer;

verus! {

/// The declared `quick_xml` writer type.
#[verifier::external_type_specification]
#[verifier::external_body]
#[verifier::reject_recursive_types(W)]
pub struct ExWriter<W>(Writer<W>);

/// The declared I/O error type that writing may report.
#[verifier::external_type_specification]
#[verifier::external_body]
pub struct ExIoError(std::io::Error);

/// One XML event: the declaration, a start tag, an empty-element tag, an end tag or text.
#[derive(Debug)]
pub enum XmlEvent {
    Decl,
    Start(String, Vec<(String, String)>),
    Empty(String, Vec<(String, String)>),
    End(String),
    Text(String),
}

/// An XML event over mathematical strings.
pub enum EventModel {
    Decl,
    Start(Seq<char>, Seq<(Seq<char>, Seq<char>)>),
    Empty(Seq<char>, Seq<(Seq<char>, Seq<char>)>),
    End(Seq<char>),
    Text(Seq<char>),
}

pub open spec fn attrs_view(a: Seq<(String, String)>) -> Seq<(Seq<char>, Seq<char>)> {
    a.map_values(|p: (String, String)| (p.0@, p.1@))
}

impl View for XmlEvent {
    type V = EventModel;

    open spec fn view(&self) -> EventModel {
        match self {
            XmlEvent::Decl => EventModel::Decl,
            XmlEvent::Start(n, a) => EventModel::Start(n@, attrs_view(a@)),
            XmlEvent::Empty(n, a) => EventModel::Empty(n@, attrs_view(a@)),
            XmlEvent::End(n) => EventModel::End(n@),
            XmlEvent::Text(t) => EventModel::Text(t@),
        }
    }
}

pub open spec fn events_view(s: Seq<XmlEvent>) -> Seq<EventModel> {
    s.map_values(|e: XmlEvent| e@)
}

/// How a character of text content is written.
pub open spec fn escape_text_char(c: char) -> Seq<char> {
    if c == '<' {
        "&lt;"@
    } else if c == '>' {
        "&gt;"@
    } else if c == '&' {
        "&amp;"@
    } else if c == '\'' {
        "&apos;"@
    } else if c == '"' {
        "&quot;"@
    } else if c == '\r' {
        "&#13;"@
    } else {
        seq![c]
    }
}

/// How a character of an attribute value is written.
pub open spec fn escape_attr_char(c: char) -> Seq<char> {
    if c == '\n' {
        "&#10;"@
    } else if c == '\t' {
        "&#9;"@
    } else {
        escape_text_char(c)
    }
}

/// `s` escaped as text content, or as an attribute value when `attr`.
pub open spec fn escaped(s: Seq<char>, attr: bool) -> Seq<char>
    decreases s.len(),
{
    if s.len() == 0 {
        Seq::empty()
    } else {
        escaped(s.drop_last(), attr) + if attr {
            escape_attr_char(s.last())
        } else {
            escape_text_char(s.last())
        }
    }
}

/// The attributes of a tag as written after its name.
pub open spec fn attrs_text(a: Seq<(Seq<char>, Seq<char>)>) -> Seq<char>
    decreases a.len(),
{
    if a.len() == 0 {
        Seq::empty()
    } else {
        attrs_text(a.drop_last()) + seq![' '] + a.last().0 + "=\""@ + escaped(a.last().1, true)
            + "\""@
    }
}

/// The text of one event.
pub open spec fn event_text(e: EventModel) -> Seq<char> {
    match e {
        EventModel::Decl => "<?xml version=\"1.0\" encoding=\"UTF-8\" standalone=\"yes\"?>"@,
        EventModel::Start(n, a) => seq!['<'] + n + attrs_text(a) + seq!['>'],
        EventModel::Empty(n, a) => seq!['<'] + n + attrs_text(a) + "/>"@,
        EventModel::End(n) => "</"@ + n + seq!['>'],
        EventModel::Text(t) => escaped(t, false),
    }
}

/// The text of a sequence of events.
pub open spec fn events_text(es: Seq<EventModel>) -> Seq<char>
    decreases es.len(),
{
    if es.len() == 0 {
        Seq::empty()
    } else {
        events_text(es.drop_last()) + event_text(es.last())
    }
}

/// UTF-8 encoding of one character.
pub open spec fn utf8_char(c: char) -> Seq<u8> {
    let v = c as u32;
    if v < 0x80 {
        seq![v as u8]
    } else if v < 0x800 {
        seq![(0xC0 + v / 64) as u8, (0x80 + v % 64) as u8]
    } else if v < 0x10000 {
        seq![(0xE0 + v / 4096) as u8, (0x80 + (v / 64) % 64) as u8, (0x80 + v % 64) as u8]
    } else {
        seq![
            (0xF0 + v / 262144) as u8,
            (0x80 + (v / 4096) % 64) as u8,
            (0x80 + (v / 64) % 64) as u8,
            (0x80 + v % 64) as u8,
        ]
    }
}

/// UTF-8 encoding of a string.
pub open spec fn utf8(s: Seq<char>) -> Seq<u8>
    decreases s.len(),
{
    if s.len() == 0 {
        Seq::empty()
    } else {
        utf8(s.drop_last()) + utf8_char(s.last())
    }
}

/// The bytes a `quick_xml` writer over a `Vec<u8>` holds so far.
pub uninterp spec fn written(w: Writer<Vec<u8>>) -> Seq<u8>;

// The writers below never fail: `Writer::write_event` returns only the errors of the inner
// writer's `write_all`, and writing to a `Vec<u8>` appends to it, growing it as needed.

/// `Writer::new` over an empty `Vec<u8>`: a writer without indentation that holds nothing.
#[verifier::external_body]
fn xml_writer() -> (w: Writer<Vec<u8>>)
    ensures
        written(w) == Seq::<u8>::empty(),
{
    Writer::new(Vec::new())
}

/// `Writer::into_inner`: the bytes written.
#[verifier::external_body]
fn xml_bytes(w: Writer<Vec<u8>>) -> (r: Vec<u8>)
    ensures
        r@ == written(w),
{
    w.into_inner()
}

/// `Writer::write_event` with `BytesDecl::new("1.0", Some("UTF-8"), Some("yes"))`: the
/// declaration `<?xml version="1.0" encoding="UTF-8" standalone="yes"?>` was
/// appended.
#[verifier::external_body]
fn put_decl(w: &mut Writer<Vec<u8>>) -> (r: Result<(), std::io::Error>)
    ensures
        r is Ok,
        written(*final(w)) == written(*old(w)) + utf8(event_text(EventModel::Decl)),
{
    w.write_event(Event::Decl(BytesDecl::new("1.0", Some("UTF-8"), Some("yes"))))
}

/// `Writer::write_event` with a `BytesStart` named `name` carrying `attrs` in order: on
/// success `<`, the name, each attribute as ` key="value"` with the value escaped (`<`, `>`,
/// `&`, `'`, `"`, CR, LF and TAB as character references) and `>` were appended, UTF-8 encoded.
#[verifier::external_body]
fn put_start(w: &mut Writer<Vec<u8>>, name: &str, attrs: &[(String, String)]) -> (r: Result<
    (),
    std::io::Error,
>)
    ensures
        r is Ok,
        written(*final(w)) == written(*old(w)) + utf8(
            event_text(EventModel::Start(name@, attrs_view(attrs@))),
        ),
{
    w.write_event(
        Event::Start(
            BytesStart::new(name).with_attributes(attrs.iter().map(|a| (a.0.as_str(), a.1.as_str()))),
        ),
    )
}

/// As `put_start`, for an empty-element tag closed by `/>`.
#[verifier::external_body]
fn put_empty(w: &mut Writer<Vec<u8>>, name: &str, attrs: &[(String, String)]) -> (r: Result<
    (),
    std::io::Error,
>)
    ensures
        r is Ok,
        written(*final(w)) == written(*old(w)) + utf8(
            event_text(EventModel::Empty(name@, attrs_view(attrs@))),
        ),
{
    w.write_event(
        Event::Empty(
            BytesStart::new(name).with_attributes(attrs.iter().map(|a| (a.0.as_str(), a.1.as_str()))),
        ),
    )
}

/// `Writer::write_event` with `BytesEnd::new(name)`: `</name>` was appended.
#[verifier::external_body]
fn put_end(w: &mut Writer<Vec<u8>>, name: &str) -> (r: Result<(), std::io::Error>)
    ensures
        r is Ok,
        written(*final(w)) == written(*old(w)) + utf8(event_text(EventModel::End(name@))),
{
    w.write_event(Event::End(BytesEnd::new(name)))
}

/// `Writer::write_event` with `BytesText::new(text)`: the text was appended with
/// `<`, `>`, `&`, `'`, `"` and CR written as references.
#[verifier::external_body]
fn put_text(w: &mut Writer<Vec<u8>>, text: &str) -> (r: Result<(), std::io::Error>)
    ensures
        r is Ok,
        written(*final(w)) == written(*old(w)) + utf8(event_text(EventModel::Text(text@))),
{
    w.write_event(Event::Text(BytesText::new(text)))
}

proof fn lemma_utf8_append(a: Seq<char>, b: Seq<char>)
    ensures
        utf8(a + b) == utf8(a) + utf8(b),
    decreases b.len(),
{
    if b.len() == 0 {
        assert(a + b =~= a);
        assert(utf8(a) + utf8(b) =~= utf8(a));
    } else {
        lemma_utf8_append(a, b.drop_last());
        assert((a + b).drop_last() =~= a + b.drop_last());
        assert(utf8(a) + utf8(b) =~= utf8(a) + utf8(b.drop_last()) + utf8_char(b.last()));
    }
}

fn put_event(w: &mut Writer<Vec<u8>>, e: &XmlEvent) -> (r: Result<(), std::io::Error>)
    ensures
        r is Ok,
        written(*final(w)) == written(*old(w)) + utf8(event_text(e@)),
{
    match e {
        XmlEvent::Decl => put_decl(w),
        XmlEvent::Start(n, a) => put_start(w, n.as_str(), a.as_slice()),
        XmlEvent::Empty(n, a) => put_empty(w, n.as_str(), a.as_slice()),
        XmlEvent::End(n) => put_end(w, n.as_str()),
        XmlEvent::Text(t) => put_text(w, t.as_str()),
    }
}

/// Serialises `events` with `quick_xml`: the UTF-8 text of the events.
pub fn render(events: &Vec<XmlEvent>) -> (r: Result<Vec<u8>, std::io::Error>)
    ensures
        r matches Ok(bytes) && bytes@ == utf8(events_text(events_view(events@))),
{
    let mut w = xml_writer();
    let mut k: usize = 0;
    while k < events.len()
        invariant
            k <= events@.len(),
            written(w) == utf8(events_text(events_view(events@).take(k as int))),
        decreases events@.len() - k,
    {
        let ghost before = events_text(events_view(events@).take(k as int));
        match put_event(&mut w, &events[k]) {
            Ok(()) => {},
            Err(e) => {
                return Err(e);
            },
        }
        proof {
            assert(events_view(events@).take(k + 1).drop_last() =~= events_view(events@).take(
                k as int,
            ));
            lemma_utf8_append(before, event_text(events@[k as int]@));
        }
        k = k + 1;
    }
    assert(events_view(events@).take(events@.len() as int) =~= events_view(events@));
    Ok(xml_bytes(w))
}

} // verus!
