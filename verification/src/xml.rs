use vstd::prelude::*;
use quick_xml::events::{BytesDecl, BytesEnd, BytesStart, BytesText, Event};

pub use crate::types::Entry;

verus! {

#[verifier::external_type_specification]
#[verifier::external_body]
#[verifier::reject_recursive_types(W)]
pub struct ExXmlWriter<W>(quick_xml::Writer<W>);

/// An event of an XML document, as the feeds write them: the declaration
/// (`<?xml version="1.0" encoding="UTF-8"?>`), a start tag with its attributes,
/// an end tag, text (escaped when written), an empty element with its attributes.
#[derive(Clone, Debug)]
pub enum XmlEvent {
    Decl,
    Start(String, Vec<(String, String)>),
    End(String),
    Text(String),
    Empty(String, Vec<(String, String)>),
}

/// The value of an XML event, with strings as character sequences.
pub enum XmlModel {
    Decl,
    Start(Seq<char>, Seq<(Seq<char>, Seq<char>)>),
    End(Seq<char>),
    Text(Seq<char>),
    Empty(Seq<char>, Seq<(Seq<char>, Seq<char>)>),
}

/// The characters of each attribute.
pub open spec fn xml_attrs_view(attrs: Seq<(String, String)>) -> Seq<(Seq<char>, Seq<char>)> {
    attrs.map_values(|a: (String, String)| (a.0@, a.1@))
}

impl View for XmlEvent {
    type V = XmlModel;

    open spec fn view(&self) -> XmlModel {
        match self {
            XmlEvent::Decl => XmlModel::Decl,
            XmlEvent::Start(name, attrs) => XmlModel::Start(name@, xml_attrs_view(attrs@)),
            XmlEvent::End(name) => XmlModel::End(name@),
            XmlEvent::Text(text) => XmlModel::Text(text@),
            XmlEvent::Empty(name, attrs) => XmlModel::Empty(name@, xml_attrs_view(attrs@)),
        }
    }
}

/// The models of a list of XML events.
pub open spec fn xml_view(v: Seq<XmlEvent>) -> Seq<XmlModel> {
    v.map_values(|e: XmlEvent| e@)
}

/// An element holding only text: its start tag, the text, its end tag.
pub open spec fn text_element(name: Seq<char>, text: Seq<char>) -> Seq<XmlModel> {
    seq![XmlModel::Start(name, Seq::empty()), XmlModel::Text(text), XmlModel::End(name)]
}

/// Appends an event to a document under construction.
pub fn push_event(events: &mut Vec<XmlEvent>, e: XmlEvent)
    ensures
        xml_view(final(events)@) == xml_view(old(events)@).push(e@),
{
    let ghost before = events@;
    events.push(e);
    proof {
        assert(xml_view(events@) =~= xml_view(before).push(e@));
    }
}

/// Appends an element holding only text.
pub fn push_text_element(events: &mut Vec<XmlEvent>, name: &str, text: &str)
    ensures
        xml_view(final(events)@) == xml_view(old(events)@) + text_element(name@, text@),
{
    let ghost before = xml_view(events@);
    push_event(events, XmlEvent::Start(name.to_owned(), Vec::new()));
    push_event(events, XmlEvent::Text(text.to_owned()));
    push_event(events, XmlEvent::End(name.to_owned()));
    proof {
        assert(xml_attrs_view(Seq::<(String, String)>::empty()) =~= Seq::<(Seq<char>, Seq<char>)>::empty());
        assert(xml_view(events@) =~= before + text_element(name@, text@));
    }
}

/// Appends a start tag without attributes.
pub fn push_start(events: &mut Vec<XmlEvent>, name: &str)
    ensures
        xml_view(final(events)@) == xml_view(old(events)@).push(XmlModel::Start(name@, Seq::empty())),
{
    push_event(events, XmlEvent::Start(name.to_owned(), Vec::new()));
    proof {
        assert(xml_attrs_view(Seq::<(String, String)>::empty()) =~= Seq::<(Seq<char>, Seq<char>)>::empty());
    }
}

/// Appends an end tag.
pub fn push_end(events: &mut Vec<XmlEvent>, name: &str)
    ensures
        xml_view(final(events)@) == xml_view(old(events)@).push(XmlModel::End(name@)),
{
    push_event(events, XmlEvent::End(name.to_owned()));
}

/// A list of one attribute.
pub fn one_attr(name: &str, value: &str) -> (r: Vec<(String, String)>)
    ensures
        xml_attrs_view(r@) == seq![(name@, value@)],
{
    let mut v: Vec<(String, String)> = Vec::new();
    v.push((name.to_owned(), value.to_owned()));
    proof {
        assert(xml_attrs_view(v@) =~= seq![(name@, value@)]);
    }
    v
}

/// quick-xml's escape of one character: `escape` for text (`<`, `>`, `&`, `'`,
/// `"` and carriage return), `escape_attribute` for attribute values (newline
/// and tab as well).
pub open spec fn xml_escape_char(c: char, attr: bool) -> Seq<char> {
    if c == '<' {
        "&lt;"@
    } else if c == '>' {
        "&gt;"@
    } else if c == '&' {
        "&amp;"@
    } else if c == '\'' {
        "&apos;"@
    } else if c == '"' {
        "&quot;"@
    } else if c == '\r' {
        "&#13;"@
    } else if attr && c == '\n' {
        "&#10;"@
    } else if attr && c == '\t' {
        "&#9;"@
    } else {
        seq![c]
    }
}

/// quick-xml's escape of a text (`attr`: of an attribute value), character by character.
pub open spec fn xml_escape(s: Seq<char>, attr: bool) -> Seq<char>
    decreases s.len(),
{
    if s.len() == 0 {
        Seq::empty()
    } else {
        xml_escape(s.drop_last(), attr) + xml_escape_char(s.last(), attr)
    }
}

/// The attributes of a tag as written: ` key="value"` each, values escaped.
pub open spec fn attrs_text(attrs: Seq<(Seq<char>, Seq<char>)>) -> Seq<char>
    decreases attrs.len(),
{
    if attrs.len() == 0 {
        Seq::empty()
    } else {
        attrs_text(attrs.drop_last()) + " "@ + attrs.last().0 + "=\""@ + xml_escape(attrs.last().1, true) + "\""@
    }
}

/// The markup of one event: the declaration, a start tag, an empty-element tag,
/// an end tag, or escaped text.
pub open spec fn event_text(e: XmlModel) -> Seq<char> {
    match e {
        XmlModel::Decl => "<?xml version=\"1.0\" encoding=\"UTF-8\"?>"@,
        XmlModel::Start(name, attrs) => "<"@ + name + attrs_text(attrs) + ">"@,
        XmlModel::Empty(name, attrs) => "<"@ + name + attrs_text(attrs) + "/>"@,
        XmlModel::End(name) => "</"@ + name + ">"@,
        XmlModel::Text(text) => xml_escape(text, false),
    }
}

/// What an indenting writer may put before a tag: nothing, or a line break and
/// spaces.
pub open spec fn is_layout(s: Seq<char>) -> bool {
    s.len() == 0 || (s[0] == '\n' && forall|i: int| 1 <= i < s.len() ==> s[i] == ' ')
}

/// `layout` gives what stands before each event: layout whitespace, none before text.
pub open spec fn laid_out(events: Seq<XmlModel>, layout: Seq<Seq<char>>) -> bool {
    &&& layout.len() == events.len()
    &&& forall|i: int| 0 <= i < layout.len() ==> is_layout(#[trigger] layout[i])
    &&& forall|i: int| 0 <= i < events.len() && (#[trigger] events[i] is Text) ==> layout[i].len() == 0
}

/// The UTF-8 bytes of a document: each event's markup after its layout.
pub open spec fn xml_document(events: Seq<XmlModel>, layout: Seq<Seq<char>>) -> Seq<u8>
    decreases events.len(),
{
    if events.len() == 0 {
        Seq::empty()
    } else {
        xml_document(events.drop_last(), layout.drop_last())
            + vstd::utf8::encode_utf8(layout.last() + event_text(events.last()))
    }
}

/// `after` is `before` followed by the markup of the event, after layout
/// whitespace (none before text).
pub open spec fn tag_appended(before: Seq<u8>, after: Seq<u8>, e: XmlModel) -> bool {
    exists|lead: Seq<char>| {
        &&& is_layout(lead)
        &&& (e is Text ==> lead.len() == 0)
        &&& after == before + vstd::utf8::encode_utf8(lead + event_text(e))
    }
}

/// What the `Vec<u8>` inside a `quick_xml::Writer` holds (`Writer::get_ref`).
pub uninterp spec fn xml_buffer(w: quick_xml::Writer<Vec<u8>>) -> Seq<u8>;

/// `quick_xml::Writer::new_with_indent` over an empty `Vec<u8>`, indenting with
/// two spaces: nothing written yet.
#[verifier::external_body]
fn xml_writer() -> (r: quick_xml::Writer<Vec<u8>>)
    ensures
        xml_buffer(r) == Seq::<u8>::empty(),
{
    quick_xml::Writer::new_with_indent(Vec::new(), b' ', 2)
}

// For each write below: `write_event` writes, through `write_all`, into the
// `Vec<u8>`, which std documents as appending to the vector (growing it as
// needed), so it succeeds. A tag goes after a line break and the indentation of
// its level, or directly after what came before (after text, and for the first
// event); which of the two is left open. Text is written as escaped, with nothing
// before it.

/// `quick_xml::Writer::write_event` with the declaration
/// `<?xml version="1.0" encoding="UTF-8"?>` (`BytesDecl::new`).
#[verifier::external_body]
fn xml_write_decl(writer: &mut quick_xml::Writer<Vec<u8>>) -> (r: Result<(), std::io::Error>)
    ensures
        r is Ok,
        tag_appended(xml_buffer(*old(writer)), xml_buffer(*final(writer)), XmlModel::Decl),
{
    writer.write_event(Event::Decl(BytesDecl::new("1.0", Some("UTF-8"), None)))
}

/// `quick_xml::Writer::write_event` with a start tag of the name and attributes
/// (`BytesStart::new`, `with_attributes`, which escapes the values).
#[verifier::external_body]
fn xml_write_start(writer: &mut quick_xml::Writer<Vec<u8>>, name: &str, attrs: &Vec<(String, String)>) -> (r: Result<(), std::io::Error>)
    ensures
        r is Ok,
        tag_appended(xml_buffer(*old(writer)), xml_buffer(*final(writer)), XmlModel::Start(name@, xml_attrs_view(attrs@))),
{
    writer.write_event(Event::Start(BytesStart::new(name).with_attributes(attrs.iter().map(|(k, v)| (k.as_str(), v.as_str())))))
}

/// `quick_xml::Writer::write_event` with an empty-element tag of the name and
/// attributes (`BytesStart::new`, `with_attributes`, which escapes the values).
#[verifier::external_body]
fn xml_write_empty(writer: &mut quick_xml::Writer<Vec<u8>>, name: &str, attrs: &Vec<(String, String)>) -> (r: Result<(), std::io::Error>)
    ensures
        r is Ok,
        tag_appended(xml_buffer(*old(writer)), xml_buffer(*final(writer)), XmlModel::Empty(name@, xml_attrs_view(attrs@))),
{
    writer.write_event(Event::Empty(BytesStart::new(name).with_attributes(attrs.iter().map(|(k, v)| (k.as_str(), v.as_str())))))
}

/// `quick_xml::Writer::write_event` with an end tag of the name (`BytesEnd::new`).
#[verifier::external_body]
fn xml_write_end(writer: &mut quick_xml::Writer<Vec<u8>>, name: &str) -> (r: Result<(), std::io::Error>)
    ensures
        r is Ok,
        tag_appended(xml_buffer(*old(writer)), xml_buffer(*final(writer)), XmlModel::End(name@)),
{
    writer.write_event(Event::End(BytesEnd::new(name)))
}

/// `quick_xml::Writer::write_event` with the text, escaped by `BytesText::new`.
#[verifier::external_body]
fn xml_write_text(writer: &mut quick_xml::Writer<Vec<u8>>, text: &str) -> (r: Result<(), std::io::Error>)
    ensures
        r is Ok,
        xml_buffer(*final(writer)) == xml_buffer(*old(writer)) + vstd::utf8::encode_utf8(event_text(XmlModel::Text(text@))),
{
    writer.write_event(Event::Text(BytesText::new(text)))
}

/// Writes one event with the writer: its markup, after layout whitespace unless
/// it is text.
fn xml_write(writer: &mut quick_xml::Writer<Vec<u8>>, e: &XmlEvent) -> (r: Result<(), std::io::Error>)
    ensures
        r is Ok,
        tag_appended(xml_buffer(*old(writer)), xml_buffer(*final(writer)), e@),
{
    match e {
        XmlEvent::Decl => xml_write_decl(writer),
        XmlEvent::Start(name, attrs) => xml_write_start(writer, name.as_str(), attrs),
        XmlEvent::End(name) => xml_write_end(writer, name.as_str()),
        XmlEvent::Text(text) => {
            let ghost before = xml_buffer(*writer);
            let r = xml_write_text(writer, text.as_str());
            assert(Seq::<char>::empty() + event_text(e@) == event_text(e@));
            assert(is_layout(Seq::<char>::empty()));
            assert(xml_buffer(*writer) == before + vstd::utf8::encode_utf8(Seq::<char>::empty() + event_text(e@)));
            r
        },
        XmlEvent::Empty(name, attrs) => xml_write_empty(writer, name.as_str(), attrs),
    }
}

/// `quick_xml::Writer::into_inner`: the bytes written.
#[verifier::external_body]
fn xml_bytes(writer: quick_xml::Writer<Vec<u8>>) -> (r: Vec<u8>)
    ensures
        r@ == xml_buffer(writer),
{
    writer.into_inner()
}

/// Writes the events, in order, as an indented XML document: the UTF-8 bytes of
/// each event's markup, tags on lines of their own as the writer lays them out.
pub fn write_xml(events: &Vec<XmlEvent>) -> (r: Result<Vec<u8>, std::io::Error>)
    ensures
        match r {
            Ok(bytes) => exists|layout: Seq<Seq<char>>| laid_out(xml_view(events@), layout)
                && bytes@ == xml_document(xml_view(events@), layout),
            Err(_) => false,
        },
{
    let mut writer = xml_writer();
    let ghost mut layout: Seq<Seq<char>> = Seq::empty();
    let mut i: usize = 0;
    proof {
        assert(xml_view(events@).take(0) =~= Seq::<XmlModel>::empty());
    }
    while i < events.len()
        invariant
            i <= events@.len(),
            laid_out(xml_view(events@).take(i as int), layout),
            xml_buffer(writer) == xml_document(xml_view(events@).take(i as int), layout),
        decreases events@.len() - i,
    {
        let ghost before = xml_buffer(writer);
        let ghost evs = xml_view(events@).take(i as int);
        xml_write(&mut writer, &events[i])?;
        proof {
            let e = events@[i as int]@;
            let lead = choose|lead: Seq<char>| {
                &&& is_layout(lead)
                &&& (e is Text ==> lead.len() == 0)
                &&& xml_buffer(writer) == before + vstd::utf8::encode_utf8(lead + event_text(e))
            };
            let next = xml_view(events@).take(i + 1);
            let layout2 = layout.push(lead);
            assert(next.drop_last() =~= evs);
            assert(next.last() == e);
            assert(layout2.drop_last() =~= layout);
            assert forall|j: int| 0 <= j < layout2.len() implies is_layout(#[trigger] layout2[j]) by {
                if j < layout.len() {
                    assert(layout2[j] == layout[j]);
                }
            }
            assert forall|j: int| 0 <= j < next.len() && (#[trigger] next[j] is Text) implies layout2[j].len() == 0 by {
                if j < layout.len() {
                    assert(next[j] == evs[j]);
                    assert(layout2[j] == layout[j]);
                }
            }
            layout = layout2;
        }
        i = i + 1;
    }
    proof {
        assert(xml_view(events@).take(events@.len() as int) =~= xml_view(events@));
    }
    Ok(xml_bytes(writer))
}

} // verus!
