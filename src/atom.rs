use vstd::prelude::*;
use vstd::string::*;

use crate::common::{outcome, Failure, GoodMorningError};
use crate::seqs::{lemma_skip_drop_first, lemma_skip_skip};
use crate::text::str_equals;
use crate::xml::{
    attribute_view, attributes_of, decode_value, document_items, element_text, gather_text,
    lemma_gather_bounded, next_event, open_reader, reader_items, reader_position, tag_attributes,
    unescaped_value, XmlEvent, XmlItem, XmlReader,
};

verus! {

/// An Atom document.
#[derive(Debug)]
pub struct Feed {
    pub title: String,
    pub link: String,
    pub updated: String,
    pub entries: Vec<Entry>,
}

/// One Atom entry; its `guid` is the text of its `id` element.
#[derive(Debug)]
pub struct Entry {
    pub title: String,
    pub link: String,
    pub guid: String,
    pub updated: String,
}

pub struct EntryView {
    pub title: Seq<char>,
    pub link: Seq<char>,
    pub guid: Seq<char>,
    pub updated: Seq<char>,
}

pub struct FeedView {
    pub title: Seq<char>,
    pub link: Seq<char>,
    pub updated: Seq<char>,
    pub entries: Seq<EntryView>,
}

impl View for Entry {
    type V = EntryView;

    open spec fn view(&self) -> EntryView {
        EntryView { title: self.title@, link: self.link@, guid: self.guid@, updated: self.updated@ }
    }
}

impl View for Feed {
    type V = FeedView;

    open spec fn view(&self) -> FeedView {
        FeedView {
            title: self.title@,
            link: self.link@,
            updated: self.updated@,
            entries: self.entries@.map_values(|e: Entry| e@),
        }
    }
}

/// Looking up the attribute named `key` among the attributes of a tag: its decoded
/// value; a malformed attribute met first, or a value that does not decode, is a markup
/// failure; no such attribute is missing information.
pub open spec fn attr_lookup(attrs: Seq<Option<(Seq<char>, Seq<u8>)>>, key: Seq<char>) -> Result<Seq<char>, Failure>
    decreases attrs.len(),
{
    if attrs.len() == 0 {
        Err(Failure::MissingFeedInfo)
    } else {
        match attrs[0] {
            None => Err(Failure::XmlParse),
            Some(a) => {
                if a.0 == key {
                    match unescaped_value(a.1) {
                        Some(t) => Ok(t),
                        None => Err(Failure::XmlParse),
                    }
                } else {
                    attr_lookup(attrs.drop_first(), key)
                }
            },
        }
    }
}

/// The value of the attribute named `key` of a start tag.
fn extract_attr(key: &str, tag: &Vec<u8>, name_len: usize, reader: &XmlReader) -> (r: Result<String, GoodMorningError>)
    ensures
        outcome(r) == attr_lookup(tag_attributes(tag@, name_len as nat), key@),
{
    let attrs = attributes_of(tag.as_slice(), name_len);
    let ghost all = tag_attributes(tag@, name_len as nat);
    let mut i: usize = 0;
    assert(all.skip(0) =~= all);
    while i < attrs.len()
        invariant
            attrs@.len() == all.len(),
            forall|j: int| 0 <= j < attrs@.len() ==> attribute_view(#[trigger] attrs@[j]) == all[j],
            all == tag_attributes(tag@, name_len as nat),
            i <= attrs.len(),
            attr_lookup(all, key@) == attr_lookup(all.skip(i as int), key@),
        decreases attrs.len() - i,
    {
        assert(all.skip(i as int).drop_first() =~= all.skip(i + 1));
        match &attrs[i] {
            None => {
                return Err(GoodMorningError::XmlParse(reader_position(reader)));
            },
            Some((k, v)) => {
                if str_equals(k.as_str(), key) {
                    return match decode_value(v.as_slice(), reader) {
                        Ok(t) => Ok(t),
                        Err(_) => Err(GoodMorningError::XmlParse(reader_position(reader))),
                    };
                }
            },
        }
        i = i + 1;
    }
    Err(GoodMorningError::MissingFeedInfo)
}

pub open spec fn empty_entry() -> EntryView {
    EntryView { title: Seq::empty(), link: Seq::empty(), guid: Seq::empty(), updated: Seq::empty() }
}

/// The entry after the element named `n` gave the text `v`.
pub open spec fn with_entry_text(acc: EntryView, n: Seq<char>, v: Seq<char>) -> EntryView {
    if n == "title"@ {
        EntryView { title: v, ..acc }
    } else if n == "id"@ {
        EntryView { guid: v, ..acc }
    } else if n == "updated"@ {
        EntryView { updated: v, ..acc }
    } else {
        acc
    }
}

/// Whether an element of this name inside an entry gives a field by its text.
pub open spec fn is_entry_text(n: Seq<char>) -> bool {
    n == "title"@ || n == "id"@ || n == "updated"@
}

/// Reading the events of an entry, after its start tag, into `acc`, `depth` elements
/// deep inside it: the entry (or the failure) and how many events it took. Only direct
/// children give fields: `title`, `id` and `updated` by their text, `link` by its `href`.
pub open spec fn entry_steps(s: Seq<XmlItem>, acc: EntryView, depth: nat) -> (Result<EntryView, Failure>, nat)
    decreases s.len(),
{
    if s.len() == 0 {
        (Ok(acc), 0)
    } else {
        let rest = s.drop_first();
        match s[0] {
            XmlItem::Start(n, nl, tag) => {
                if depth == 0 && is_entry_text(n) {
                    let t = element_text(rest);
                    if t.0 is None {
                        (Err(Failure::XmlParse), t.1 + 1)
                    } else if t.1 <= rest.len() {
                        let r = entry_steps(rest.skip(t.1 as int), with_entry_text(acc, n, t.0->Some_0), 0);
                        (r.0, r.1 + t.1 + 1)
                    } else {
                        (Err(Failure::XmlParse), 0)
                    }
                } else if depth == 0 && n == "link"@ {
                    match attr_lookup(tag_attributes(tag, nl), "href"@) {
                        Ok(v) => {
                            let r = entry_steps(rest, EntryView { link: v, ..acc }, 1);
                            (r.0, r.1 + 1)
                        },
                        Err(e) => (Err(e), 1),
                    }
                } else if depth + 1 > usize::MAX {
                    (Err(Failure::XmlParse), 1)
                } else {
                    let r = entry_steps(rest, acc, depth + 1);
                    (r.0, r.1 + 1)
                }
            },
            XmlItem::End(_) => {
                if depth == 0 {
                    (Ok(acc), 1)
                } else {
                    let r = entry_steps(rest, acc, (depth - 1) as nat);
                    (r.0, r.1 + 1)
                }
            },
            XmlItem::Eof => (Ok(acc), 1),
            XmlItem::Malformed => (Err(Failure::XmlParse), 1),
            _ => {
                let r = entry_steps(rest, acc, depth);
                (r.0, r.1 + 1)
            },
        }
    }
}

/// An entry read in full: one with an empty or missing title, link, id or update
/// date is missing information.
pub open spec fn entry_read(s: Seq<XmlItem>) -> (Result<EntryView, Failure>, nat) {
    let r = entry_steps(s, empty_entry(), 0);
    match r.0 {
        Ok(e) => {
            if e.title.len() == 0 || e.link.len() == 0 || e.updated.len() == 0 || e.guid.len() == 0 {
                (Err(Failure::MissingFeedInfo), r.1)
            } else {
                (Ok(e), r.1)
            }
        },
        Err(e) => (Err(e), r.1),
    }
}

pub proof fn lemma_entry_steps_bounded(s: Seq<XmlItem>, acc: EntryView, depth: nat)
    ensures
        entry_steps(s, acc, depth).1 <= s.len(),
    decreases s.len(),
{
    if s.len() > 0 {
        let rest = s.drop_first();
        match s[0] {
            XmlItem::Start(n, nl, tag) => {
                if depth == 0 && is_entry_text(n) {
                    lemma_gather_bounded(rest, 0, Seq::empty());
                    let t = element_text(rest);
                    if t.0 is Some {
                        lemma_entry_steps_bounded(rest.skip(t.1 as int), with_entry_text(acc, n, t.0->Some_0), 0);
                    }
                } else if depth == 0 && n == "link"@ {
                    match attr_lookup(tag_attributes(tag, nl), "href"@) {
                        Ok(v) => lemma_entry_steps_bounded(rest, EntryView { link: v, ..acc }, 1),
                        Err(_) => {},
                    }
                } else {
                    lemma_entry_steps_bounded(rest, acc, depth + 1);
                }
            },
            XmlItem::End(_) => {
                if depth > 0 {
                    lemma_entry_steps_bounded(rest, acc, (depth - 1) as nat);
                }
            },
            _ => {
                lemma_entry_steps_bounded(rest, acc, depth);
            },
        }
    }
}

fn is_entry_text_name(n: &str) -> (r: bool)
    ensures
        r == is_entry_text(n@),
{
    str_equals(n, "title") || str_equals(n, "id") || str_equals(n, "updated")
}

fn set_entry_text(entry: &mut Entry, n: &str, v: String)
    ensures
        final(entry)@ == with_entry_text(old(entry)@, n@, v@),
{
    if str_equals(n, "title") {
        entry.title = v;
    } else if str_equals(n, "id") {
        entry.guid = v;
    } else if str_equals(n, "updated") {
        entry.updated = v;
    }
}

fn parse_entry(reader: &mut XmlReader) -> (r: Result<Entry, GoodMorningError>)
    ensures
        outcome(r) == entry_read(reader_items(*old(reader))).0,
        reader_items(*final(reader)) == reader_items(*old(reader)).skip(
            entry_read(reader_items(*old(reader))).1 as int,
        ),
{
    let ghost s0 = reader_items(*reader);
    let ghost mut used: nat = 0;
    let mut entry = Entry { title: String::new(), link: String::new(), guid: String::new(), updated: String::new() };
    let mut depth: usize = 0;
    loop
        invariant_except_break
            entry_steps(s0, empty_entry(), 0).0 == entry_steps(reader_items(*reader), entry@, depth as nat).0,
            entry_steps(s0, empty_entry(), 0).1 == used + entry_steps(reader_items(*reader), entry@, depth as nat).1,
        invariant
            s0 == reader_items(*old(reader)),
            used <= s0.len(),
            reader_items(*reader) == s0.skip(used as int),
        ensures
            entry_steps(s0, empty_entry(), 0).0 == Ok::<EntryView, Failure>(entry@),
            entry_steps(s0, empty_entry(), 0).1 == used,
            reader_items(*reader) == s0.skip(used as int),
        decreases reader_items(*reader).len(),
    {
        let ghost cur = reader_items(*reader);
        let event = next_event(reader);
        proof {
            if cur.len() > 0 {
                lemma_skip_drop_first(s0, used as int);
                used = used + 1;
            }
        }
        match event {
            Ok(XmlEvent::Start { name, name_len, tag }) => {
                if depth == 0 && is_entry_text_name(name.as_str()) {
                    let ghost rest = reader_items(*reader);
                    let text = gather_text(reader);
                    proof {
                        lemma_gather_bounded(rest, 0, Seq::empty());
                        lemma_skip_skip(s0, used as int, element_text(rest).1 as int);
                        used = used + element_text(rest).1;
                    }
                    match text {
                        Some(v) => {
                            set_entry_text(&mut entry, name.as_str(), v);
                        },
                        None => {
                            return Err(GoodMorningError::XmlParse(reader_position(reader)));
                        },
                    }
                } else if depth == 0 && str_equals(name.as_str(), "link") {
                    entry.link = extract_attr("href", &tag, name_len, reader)?;
                    depth = 1;
                } else if depth == usize::MAX {
                    return Err(GoodMorningError::XmlParse(reader_position(reader)));
                } else {
                    depth = depth + 1;
                }
            },
            Ok(XmlEvent::End { .. }) => {
                if depth == 0 {
                    break ;
                }
                depth = depth - 1;
            },
            Ok(XmlEvent::Eof) => {
                break ;
            },
            Ok(_) => {},
            Err(_) => {
                return Err(GoodMorningError::XmlParse(reader_position(reader)));
            },
        }
    }
    if entry.title.as_str().is_empty() || entry.link.as_str().is_empty() || entry.updated.as_str().is_empty()
        || entry.guid.as_str().is_empty() {
        return Err(GoodMorningError::MissingFeedInfo);
    }
    Ok(entry)
}

pub open spec fn empty_feed() -> FeedView {
    FeedView { title: Seq::empty(), link: Seq::empty(), updated: Seq::empty(), entries: Seq::empty() }
}

/// The feed after a feed-level element named `n` gave the text `v`.
pub open spec fn with_feed_text(acc: FeedView, n: Seq<char>, v: Seq<char>) -> FeedView {
    if n == "title"@ {
        FeedView { title: v, ..acc }
    } else if n == "updated"@ {
        FeedView { updated: v, ..acc }
    } else {
        acc
    }
}

/// Whether a feed-level element of this name gives a field by its text.
pub open spec fn is_feed_text(n: Seq<char>) -> bool {
    n == "title"@ || n == "updated"@
}

/// Reading the events of an Atom document into `acc`, `depth` elements deep, up to its
/// end. Only children of the root element give fields: `title` and `updated` by their
/// text, `link` by its `href`, and each `entry` an entry; a failure in an entry is the
/// failure of the whole document.
pub open spec fn atom_steps(s: Seq<XmlItem>, acc: FeedView, depth: nat) -> Result<FeedView, Failure>
    decreases s.len(),
{
    if s.len() == 0 {
        Ok(acc)
    } else {
        let rest = s.drop_first();
        match s[0] {
            XmlItem::Start(n, nl, tag) => {
                if depth == 1 && is_feed_text(n) {
                    let t = element_text(rest);
                    if t.0 is None {
                        Err(Failure::XmlParse)
                    } else if t.1 <= rest.len() {
                        atom_steps(rest.skip(t.1 as int), with_feed_text(acc, n, t.0->Some_0), 1)
                    } else {
                        Err(Failure::XmlParse)
                    }
                } else if depth == 1 && n == "link"@ {
                    match attr_lookup(tag_attributes(tag, nl), "href"@) {
                        Ok(v) => atom_steps(rest, FeedView { link: v, ..acc }, 2),
                        Err(e) => Err(e),
                    }
                } else if depth == 1 && n == "entry"@ {
                    let e = entry_read(rest);
                    match e.0 {
                        Ok(en) => {
                            if e.1 <= rest.len() {
                                atom_steps(rest.skip(e.1 as int), FeedView { entries: acc.entries.push(en), ..acc }, 1)
                            } else {
                                Err(Failure::XmlParse)
                            }
                        },
                        Err(f) => Err(f),
                    }
                } else if depth + 1 > usize::MAX {
                    Err(Failure::XmlParse)
                } else {
                    atom_steps(rest, acc, depth + 1)
                }
            },
            XmlItem::End(_) => atom_steps(rest, acc, if depth > 0 { (depth - 1) as nat } else { 0 }),
            XmlItem::Eof => Ok(acc),
            XmlItem::Malformed => Err(Failure::XmlParse),
            _ => atom_steps(rest, acc, depth),
        }
    }
}

/// What an Atom document reads as: an empty document is `Empty`; a feed with an empty
/// or missing title, link or update date, or without entries, is missing information.
pub open spec fn atom_document(doc: Seq<char>) -> Result<FeedView, Failure> {
    if doc.len() == 0 {
        Err(Failure::Empty)
    } else {
        match atom_steps(document_items(doc, true), empty_feed(), 0) {
            Ok(f) => {
                if f.title.len() == 0 || f.link.len() == 0 || f.updated.len() == 0 || f.entries.len() == 0 {
                    Err(Failure::MissingFeedInfo)
                } else {
                    Ok(f)
                }
            },
            Err(e) => Err(e),
        }
    }
}

fn is_feed_text_name(n: &str) -> (r: bool)
    ensures
        r == is_feed_text(n@),
{
    str_equals(n, "title") || str_equals(n, "updated")
}

fn set_feed_text(feed: &mut Feed, n: &str, v: String)
    ensures
        final(feed)@ == with_feed_text(old(feed)@, n@, v@),
{
    if str_equals(n, "title") {
        feed.title = v;
    } else if str_equals(n, "updated") {
        feed.updated = v;
    }
}

/// Parses an Atom document.
pub fn parse_atom_feed(xml: &str) -> (r: Result<Feed, GoodMorningError>)
    ensures
        outcome(r) == atom_document(xml@),
{
    if xml.is_empty() {
        return Err(GoodMorningError::Empty);
    }
    let mut reader = open_reader(xml, true);
    let ghost s0 = reader_items(reader);
    let ghost mut used: nat = 0;
    let mut feed = Feed { title: String::new(), link: String::new(), updated: String::new(), entries: Vec::new() };
    proof {
        assert(feed@.entries =~= Seq::<EntryView>::empty());
        assert(feed@ == empty_feed());
    }
    let mut depth: usize = 0;
    loop
        invariant_except_break
            atom_steps(s0, empty_feed(), 0) == atom_steps(reader_items(reader), feed@, depth as nat),
        invariant
            xml@.len() > 0,
            s0 == document_items(xml@, true),
            used <= s0.len(),
            reader_items(reader) == s0.skip(used as int),
        ensures
            atom_steps(s0, empty_feed(), 0) == Ok::<FeedView, Failure>(feed@),
        decreases reader_items(reader).len(),
    {
        let ghost cur = reader_items(reader);
        let event = next_event(&mut reader);
        proof {
            if cur.len() > 0 {
                lemma_skip_drop_first(s0, used as int);
                used = used + 1;
            }
        }
        match event {
            Ok(XmlEvent::Start { name, name_len, tag }) => {
                let ghost rest = reader_items(reader);
                if depth == 1 && is_feed_text_name(name.as_str()) {
                    let text = gather_text(&mut reader);
                    proof {
                        lemma_gather_bounded(rest, 0, Seq::empty());
                        lemma_skip_skip(s0, used as int, element_text(rest).1 as int);
                        used = used + element_text(rest).1;
                    }
                    match text {
                        Some(v) => {
                            set_feed_text(&mut feed, name.as_str(), v);
                        },
                        None => {
                            return Err(GoodMorningError::XmlParse(reader_position(&reader)));
                        },
                    }
                } else if depth == 1 && str_equals(name.as_str(), "link") {
                    feed.link = extract_attr("href", &tag, name_len, &reader)?;
                    depth = 2;
                } else if depth == 1 && str_equals(name.as_str(), "entry") {
                    let entry = parse_entry(&mut reader)?;
                    proof {
                        lemma_entry_steps_bounded(rest, empty_entry(), 0);
                        lemma_skip_skip(s0, used as int, entry_read(rest).1 as int);
                        used = used + entry_read(rest).1;
                    }
                    let ghost before = feed@;
                    feed.entries.push(entry);
                    proof {
                        assert(feed@.entries =~= before.entries.push(entry@));
                    }
                } else if depth == usize::MAX {
                    return Err(GoodMorningError::XmlParse(reader_position(&reader)));
                } else {
                    depth = depth + 1;
                }
            },
            Ok(XmlEvent::End { .. }) => {
                if depth > 0 {
                    depth = depth - 1;
                }
            },
            Ok(XmlEvent::Eof) => {
                break ;
            },
            Ok(_) => {},
            Err(_) => {
                return Err(GoodMorningError::XmlParse(reader_position(&reader)));
            },
        }
    }
    if feed.title.as_str().is_empty() || feed.link.as_str().is_empty() || feed.updated.as_str().is_empty()
        || feed.entries.len() == 0 {
        return Err(GoodMorningError::MissingFeedInfo);
    }
    Ok(feed)
}

} // verus!
