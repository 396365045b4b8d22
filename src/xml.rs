use vstd::prelude::*;
use vstd::string::*;

use quick_xml::events::attributes::{Attribute, Attributes};
use quick_xml::events::{BytesText, Event};
use quick_xml::Reader;

verus! {

/// A quick-xml reader over a document held in memory.
#[verifier::external_body]
pub struct XmlReader<'a> {
    reader: Reader<&'a [u8]>,
}

#[verifier::external_type_specification]
#[verifier::external_body]
pub struct ExXmlError(quick_xml::Error);

/// One event of the markup reader, in plain values.
pub enum XmlEvent {
    /// An opening tag: its name, the length of the name in bytes, and the whole tag
    /// content (name followed by the attributes).
    Start { name: String, name_len: usize, tag: Vec<u8> },
    /// A closing tag.
    End { name: String },
    /// Character data, still escaped.
    Text { raw: Vec<u8> },
    /// The content of a CDATA section, in quick-xml's escaped form.
    CData { raw: Vec<u8> },
    /// The end of the document.
    Eof,
    /// Anything else: comments, declarations, processing instructions, document types,
    /// self-closing tags that are not expanded.
    Other,
}

/// The value of an event; `Malformed` stands for a reader error.
pub enum XmlItem {
    Start(Seq<char>, nat, Seq<u8>),
    End(Seq<char>),
    Text(Seq<u8>),
    CData(Seq<u8>),
    Eof,
    Other,
    Malformed,
}

impl View for XmlEvent {
    type V = XmlItem;

    open spec fn view(&self) -> XmlItem {
        match self {
            XmlEvent::Start { name, name_len, tag } => XmlItem::Start(name@, *name_len as nat, tag@),
            XmlEvent::End { name } => XmlItem::End(name@),
            XmlEvent::Text { raw } => XmlItem::Text(raw@),
            XmlEvent::CData { raw } => XmlItem::CData(raw@),
            XmlEvent::Eof => XmlItem::Eof,
            XmlEvent::Other => XmlItem::Other,
        }
    }
}

/// The events that quick-xml reads from a document, with text trimmed and, when
/// `expand_empty` holds, each self-closing tag read as a start and an end. The
/// sequence stops after the end of the document or after the first error.
pub uninterp spec fn document_items(doc: Seq<char>, expand_empty: bool) -> Seq<XmlItem>;

/// The events that a reader has yet to deliver.
pub uninterp spec fn reader_items(r: XmlReader) -> Seq<XmlItem>;

/// Character data (or the escaped form of a CDATA section) unescaped and decoded as
/// UTF-8, if both succeed.
pub uninterp spec fn unescaped_text(raw: Seq<u8>) -> Option<Seq<char>>;

/// An attribute value unescaped and decoded as UTF-8, if both succeed.
pub uninterp spec fn unescaped_value(raw: Seq<u8>) -> Option<Seq<char>>;

/// The attributes of a tag as (key, raw value) pairs; `None` stands for a malformed one.
pub uninterp spec fn tag_attributes(tag: Seq<u8>, name_len: nat) -> Seq<Option<(Seq<char>, Seq<u8>)>>;

/// The next event of a sequence; an exhausted reader reports the end of the document.
pub open spec fn first_item(s: Seq<XmlItem>) -> XmlItem {
    if s.len() == 0 {
        XmlItem::Eof
    } else {
        s[0]
    }
}

/// The text of an element, from after its start tag: the decoded contents of its text
/// and CDATA sections, nested elements included, up to its closing tag, and how many
/// events that took. Nothing when a text does not decode, the reader fails, the
/// document ends first, or nesting goes beyond what a `usize` counts.
pub open spec fn gather(s: Seq<XmlItem>, depth: nat, acc: Seq<char>) -> (Option<Seq<char>>, nat)
    decreases s.len(),
{
    if s.len() == 0 {
        (None, 0)
    } else {
        let rest = s.drop_first();
        match s[0] {
            XmlItem::End(_) => {
                if depth == 0 {
                    (Some(acc), 1)
                } else {
                    let r = gather(rest, (depth - 1) as nat, acc);
                    (r.0, r.1 + 1)
                }
            },
            XmlItem::Start(_, _, _) => {
                if depth + 1 > usize::MAX {
                    (None, 1)
                } else {
                    let r = gather(rest, depth + 1, acc);
                    (r.0, r.1 + 1)
                }
            },
            XmlItem::Text(raw) => match unescaped_text(raw) {
                Some(t) => {
                    let r = gather(rest, depth, acc + t);
                    (r.0, r.1 + 1)
                },
                None => (None, 1),
            },
            XmlItem::CData(raw) => match unescaped_text(raw) {
                Some(t) => {
                    let r = gather(rest, depth, acc + t);
                    (r.0, r.1 + 1)
                },
                None => (None, 1),
            },
            XmlItem::Other => {
                let r = gather(rest, depth, acc);
                (r.0, r.1 + 1)
            },
            XmlItem::Eof => (None, 1),
            XmlItem::Malformed => (None, 1),
        }
    }
}

/// The text of an element whose start tag was just read.
pub open spec fn element_text(s: Seq<XmlItem>) -> (Option<Seq<char>>, nat) {
    gather(s, 0, Seq::empty())
}

pub proof fn lemma_gather_bounded(s: Seq<XmlItem>, depth: nat, acc: Seq<char>)
    ensures
        gather(s, depth, acc).1 <= s.len(),
        s.len() > 0 ==> gather(s, depth, acc).1 > 0,
    decreases s.len(),
{
    if s.len() > 0 {
        let rest = s.drop_first();
        match s[0] {
            XmlItem::End(_) => {
                if depth > 0 {
                    lemma_gather_bounded(rest, (depth - 1) as nat, acc);
                }
            },
            XmlItem::Start(_, _, _) => {
                lemma_gather_bounded(rest, depth + 1, acc);
            },
            XmlItem::Text(raw) => {
                if unescaped_text(raw) is Some {
                    lemma_gather_bounded(rest, depth, acc + unescaped_text(raw)->Some_0);
                }
            },
            XmlItem::CData(raw) => {
                if unescaped_text(raw) is Some {
                    lemma_gather_bounded(rest, depth, acc + unescaped_text(raw)->Some_0);
                }
            },
            XmlItem::Other => {
                lemma_gather_bounded(rest, depth, acc);
            },
            _ => {},
        }
    }
}

/// Relies on quick_xml's `Reader::from_str`, `trim_text` and `expand_empty_elements`:
/// a reader over the document that trims text and expands self-closing tags as asked.
#[verifier::external_body]
pub fn open_reader<'a>(xml: &'a str, expand_empty: bool) -> (r: XmlReader<'a>)
    ensures
        reader_items(r) == document_items(xml@, expand_empty),
{
    let mut reader = Reader::from_str(xml);
    reader.trim_text(true).expand_empty_elements(expand_empty);
    XmlReader { reader }
}

/// Relies on quick_xml's `Reader::read_event`: it delivers the next event, or an error,
/// and reports the end of the document for ever once it has stopped.
#[verifier::external_body]
pub fn next_event(reader: &mut XmlReader) -> (r: Result<XmlEvent, quick_xml::Error>)
    ensures
        match r {
            Ok(e) => e@ == first_item(reader_items(*old(reader))) && !(e@ is Malformed),
            Err(_) => first_item(reader_items(*old(reader))) is Malformed,
        },
        reader_items(*old(reader)).len() == 0 ==> reader_items(*final(reader)).len() == 0,
        reader_items(*old(reader)).len() > 0 ==> reader_items(*final(reader))
            == reader_items(*old(reader)).drop_first(),
{
    let mut buf = Vec::new();
    match reader.reader.read_event(&mut buf)? {
        Event::Start(e) => Ok(XmlEvent::Start {
            name: String::from_utf8_lossy(e.name()).into_owned(),
            name_len: e.name().len(),
            tag: e.to_vec(),
        }),
        Event::End(e) => Ok(XmlEvent::End { name: String::from_utf8_lossy(e.name()).into_owned() }),
        Event::Text(e) => Ok(XmlEvent::Text { raw: e.escaped().to_vec() }),
        Event::CData(e) => Ok(XmlEvent::CData { raw: e.escaped().to_vec() }),
        Event::Eof => Ok(XmlEvent::Eof),
        _ => Ok(XmlEvent::Other),
    }
}

/// Relies on quick_xml's `BytesText::unescape_and_decode`: the text unescaped and
/// decoded as UTF-8 with the reader's decoder, which without the `encoding` feature
/// depends on the bytes alone.
#[verifier::external_body]
pub fn decode_text(raw: &[u8], reader: &XmlReader) -> (r: Result<String, quick_xml::Error>)
    ensures
        r is Ok <==> unescaped_text(raw@) is Some,
        r is Ok ==> r->Ok_0@ == unescaped_text(raw@)->Some_0,
{
    BytesText::from_escaped(raw).unescape_and_decode(&reader.reader)
}

/// Reads the text of an element whose start tag was just read, up to and including its
/// closing tag.
pub fn gather_text(reader: &mut XmlReader) -> (r: Option<String>)
    ensures
        r is Some <==> element_text(reader_items(*old(reader))).0 is Some,
        r is Some ==> r->Some_0@ == element_text(reader_items(*old(reader))).0->Some_0,
        reader_items(*final(reader)) == reader_items(*old(reader)).skip(
            element_text(reader_items(*old(reader))).1 as int,
        ),
{
    let ghost s0 = reader_items(*reader);
    let ghost mut used: nat = 0;
    let mut text = String::new();
    let mut depth: usize = 0;
    loop
        invariant
            s0 == reader_items(*old(reader)),
            used <= s0.len(),
            reader_items(*reader) == s0.skip(used as int),
            element_text(s0).0 == gather(reader_items(*reader), depth as nat, text@).0,
            element_text(s0).1 == used + gather(reader_items(*reader), depth as nat, text@).1,
        decreases reader_items(*reader).len(),
    {
        let ghost cur = reader_items(*reader);
        let event = next_event(reader);
        proof {
            if cur.len() > 0 {
                assert(s0.skip(used as int).drop_first() =~= s0.skip(used + 1int));
                used = used + 1;
            }
        }
        match event {
            Ok(XmlEvent::End { .. }) => {
                if depth == 0 {
                    return Some(text);
                }
                depth = depth - 1;
            },
            Ok(XmlEvent::Start { .. }) => {
                if depth == usize::MAX {
                    return None;
                }
                depth = depth + 1;
            },
            Ok(XmlEvent::Text { raw }) => {
                match decode_text(raw.as_slice(), reader) {
                    Ok(t) => {
                        text.append(t.as_str());
                    },
                    Err(_) => {
                        return None;
                    },
                }
            },
            Ok(XmlEvent::CData { raw }) => {
                match decode_text(raw.as_slice(), reader) {
                    Ok(t) => {
                        text.append(t.as_str());
                    },
                    Err(_) => {
                        return None;
                    },
                }
            },
            Ok(XmlEvent::Other) => {},
            Ok(XmlEvent::Eof) => {
                return None;
            },
            Err(_) => {
                return None;
            },
        }
    }
}

/// Relies on quick_xml's `Reader::buffer_position`: the byte offset reached.
#[verifier::external_body]
pub fn reader_position(reader: &XmlReader) -> usize {
    reader.reader.buffer_position()
}

pub open spec fn attribute_view(a: Option<(String, Vec<u8>)>) -> Option<(Seq<char>, Seq<u8>)> {
    match a {
        Some((k, v)) => Some((k@, v@)),
        None => None,
    }
}

/// Relies on quick_xml's `Attributes` iterator over a tag: each attribute's key and
/// raw value, in order.
#[verifier::external_body]
pub fn attributes_of(tag: &[u8], name_len: usize) -> (r: Vec<Option<(String, Vec<u8>)>>)
    ensures
        r@.len() == tag_attributes(tag@, name_len as nat).len(),
        forall|i: int| 0 <= i < r@.len() ==>
            attribute_view(#[trigger] r@[i]) == tag_attributes(tag@, name_len as nat)[i],
{
    Attributes::new(tag, name_len)
        .map(|a| a.ok().map(|a| (String::from_utf8_lossy(a.key).into_owned(), a.value.into_owned())))
        .collect()
}

/// Relies on quick_xml's `Attribute::unescape_and_decode_value`: the value unescaped and
/// decoded as UTF-8.
#[verifier::external_body]
pub fn decode_value(raw: &[u8], reader: &XmlReader) -> (r: Result<String, quick_xml::Error>)
    ensures
        r is Ok <==> unescaped_value(raw@) is Some,
        r is Ok ==> r->Ok_0@ == unescaped_value(raw@)->Some_0,
{
    let attribute = Attribute { key: &[], value: std::borrow::Cow::Borrowed(raw) };
    attribute.unescape_and_decode_value(&reader.reader)
}

} // verus!
