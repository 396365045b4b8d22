use vstd::prelude::*;
use vstd::string::*;

use crate::common::{outcome, Failure, GoodMorningError};
use crate::seqs::{lemma_skip_drop_first, lemma_skip_skip};
use crate::text::{opt_view, str_equals};
use crate::xml::{
    document_items, element_text, gather_text, lemma_gather_bounded, next_event, open_reader, reader_items,
    reader_position, XmlEvent, XmlItem, XmlReader,
};

verus! {

/// An RSS document: its well-formed channels, in document order.
#[derive(Debug)]
pub struct Feed {
    pub channels: Vec<Channel>,
}

/// One RSS channel.
#[derive(Debug)]
pub struct Channel {
    pub title: String,
    pub link: String,
    pub last_build_date: Option<String>,
    pub items: Vec<Item>,
}

/// One RSS item; each of its fields may be missing.
#[derive(Debug)]
pub struct Item {
    pub title: Option<String>,
    pub pub_date: Option<String>,
    pub guid: Option<String>,
    pub link: Option<String>,
}

pub struct ItemView {
    pub title: Option<Seq<char>>,
    pub pub_date: Option<Seq<char>>,
    pub guid: Option<Seq<char>>,
    pub link: Option<Seq<char>>,
}

pub struct ChannelView {
    pub title: Seq<char>,
    pub link: Seq<char>,
    pub last_build_date: Option<Seq<char>>,
    pub items: Seq<ItemView>,
}

pub struct FeedView {
    pub channels: Seq<ChannelView>,
}

impl View for Item {
    type V = ItemView;

    open spec fn view(&self) -> ItemView {
        ItemView {
            title: opt_view(self.title),
            pub_date: opt_view(self.pub_date),
            guid: opt_view(self.guid),
            link: opt_view(self.link),
        }
    }
}

impl View for Channel {
    type V = ChannelView;

    open spec fn view(&self) -> ChannelView {
        ChannelView {
            title: self.title@,
            link: self.link@,
            last_build_date: opt_view(self.last_build_date),
            items: self.items@.map_values(|i: Item| i@),
        }
    }
}

impl View for Feed {
    type V = FeedView;

    open spec fn view(&self) -> FeedView {
        FeedView { channels: self.channels@.map_values(|c: Channel| c@) }
    }
}

pub open spec fn empty_item() -> ItemView {
    ItemView { title: None, pub_date: None, guid: None, link: None }
}

/// Whether an element of this name inside an item gives one of its fields.
pub open spec fn is_item_field(n: Seq<char>) -> bool {
    n == "title"@ || n == "pubDate"@ || n == "guid"@ || n == "link"@
}

/// The item after the element named `n` gave the text `v`.
pub open spec fn with_item_field(acc: ItemView, n: Seq<char>, v: Seq<char>) -> ItemView {
    if n == "title"@ {
        ItemView { title: Some(v), ..acc }
    } else if n == "pubDate"@ {
        ItemView { pub_date: Some(v), ..acc }
    } else if n == "guid"@ {
        ItemView { guid: Some(v), ..acc }
    } else if n == "link"@ {
        ItemView { link: Some(v), ..acc }
    } else {
        acc
    }
}

/// Reading the events of an item, after its start tag, into `acc`, `depth` elements
/// deep inside it: the item (or the failure) and how many events it took. A direct
/// child named after a field gives that field its text; deeper elements are passed
/// over. The item ends at its closing tag or at the end of the document.
pub open spec fn item_steps(s: Seq<XmlItem>, acc: ItemView, depth: nat) -> (Result<ItemView, Failure>, nat)
    decreases s.len(),
{
    if s.len() == 0 {
        (Ok(acc), 0)
    } else {
        let rest = s.drop_first();
        match s[0] {
            XmlItem::Start(n, _, _) => {
                if depth == 0 && is_item_field(n) {
                    let t = element_text(rest);
                    if t.0 is None {
                        (Err(Failure::XmlParse), t.1 + 1)
                    } else if t.1 <= rest.len() {
                        let r = item_steps(rest.skip(t.1 as int), with_item_field(acc, n, t.0->Some_0), 0);
                        (r.0, r.1 + t.1 + 1)
                    } else {
                        (Err(Failure::XmlParse), 0)
                    }
                } else if depth + 1 > usize::MAX {
                    (Err(Failure::XmlParse), 1)
                } else {
                    let r = item_steps(rest, acc, depth + 1);
                    (r.0, r.1 + 1)
                }
            },
            XmlItem::End(_) => {
                if depth == 0 {
                    (Ok(acc), 1)
                } else {
                    let r = item_steps(rest, acc, (depth - 1) as nat);
                    (r.0, r.1 + 1)
                }
            },
            XmlItem::Eof => (Ok(acc), 1),
            XmlItem::Malformed => (Err(Failure::XmlParse), 1),
            _ => {
                let r = item_steps(rest, acc, depth);
                (r.0, r.1 + 1)
            },
        }
    }
}

fn is_item_field_name(n: &str) -> (r: bool)
    ensures
        r == is_item_field(n@),
{
    str_equals(n, "title") || str_equals(n, "pubDate") || str_equals(n, "guid") || str_equals(n, "link")
}

fn set_item_field(item: &mut Item, n: &str, v: String)
    ensures
        final(item)@ == with_item_field(old(item)@, n@, v@),
{
    if str_equals(n, "title") {
        item.title = Some(v);
    } else if str_equals(n, "pubDate") {
        item.pub_date = Some(v);
    } else if str_equals(n, "guid") {
        item.guid = Some(v);
    } else if str_equals(n, "link") {
        item.link = Some(v);
    }
}

fn parse_item(reader: &mut XmlReader) -> (r: Result<Item, GoodMorningError>)
    ensures
        outcome(r) == item_steps(reader_items(*old(reader)), empty_item(), 0).0,
        reader_items(*final(reader)) == reader_items(*old(reader)).skip(
            item_steps(reader_items(*old(reader)), empty_item(), 0).1 as int,
        ),
{
    let ghost s0 = reader_items(*reader);
    let ghost mut used: nat = 0;
    let mut item = Item { title: None, pub_date: None, guid: None, link: None };
    let mut depth: usize = 0;
    loop
        invariant_except_break
            item_steps(s0, empty_item(), 0).0 == item_steps(reader_items(*reader), item@, depth as nat).0,
            item_steps(s0, empty_item(), 0).1 == used + item_steps(reader_items(*reader), item@, depth as nat).1,
        invariant
            s0 == reader_items(*old(reader)),
            used <= s0.len(),
            reader_items(*reader) == s0.skip(used as int),
        ensures
            item_steps(s0, empty_item(), 0).0 == Ok::<ItemView, Failure>(item@),
            item_steps(s0, empty_item(), 0).1 == used,
            reader_items(*reader) == s0.skip(used as int),
        decreases reader_items(*reader).len(),
    {
        let ghost cur = reader_items(*reader);
        let event = next_event(reader);
        proof {
            if cur.len() > 0 {
                lemma_skip_drop_first(s0, used as int);
                used = used + 1;
            }
        }
        match event {
            Ok(XmlEvent::Start { name, .. }) => {
                if depth == 0 && is_item_field_name(name.as_str()) {
                    let ghost rest = reader_items(*reader);
                    let text = gather_text(reader);
                    proof {
                        lemma_gather_bounded(rest, 0, Seq::empty());
                        lemma_skip_skip(s0, used as int, element_text(rest).1 as int);
                        used = used + element_text(rest).1;
                    }
                    match text {
                        Some(v) => {
                            set_item_field(&mut item, name.as_str(), v);
                        },
                        None => {
                            return Err(GoodMorningError::XmlParse(reader_position(reader)));
                        },
                    }
                } else if depth == usize::MAX {
                    return Err(GoodMorningError::XmlParse(reader_position(reader)));
                } else {
                    depth = depth + 1;
                }
            },
            Ok(XmlEvent::End { .. }) => {
                if depth == 0 {
                    break ;
                }
                depth = depth - 1;
            },
            Ok(XmlEvent::Eof) => {
                break ;
            },
            Ok(_) => {},
            Err(_) => {
                return Err(GoodMorningError::XmlParse(reader_position(reader)));
            },
        }
    }
    Ok(item)
}

pub proof fn lemma_item_steps_bounded(s: Seq<XmlItem>, acc: ItemView, depth: nat)
    ensures
        item_steps(s, acc, depth).1 <= s.len(),
    decreases s.len(),
{
    if s.len() > 0 {
        let rest = s.drop_first();
        match s[0] {
            XmlItem::Start(n, _, _) => {
                if depth == 0 && is_item_field(n) {
                    lemma_gather_bounded(rest, 0, Seq::empty());
                    let t = element_text(rest);
                    if t.0 is Some {
                        lemma_item_steps_bounded(rest.skip(t.1 as int), with_item_field(acc, n, t.0->Some_0), 0);
                    }
                } else {
                    lemma_item_steps_bounded(rest, acc, depth + 1);
                }
            },
            XmlItem::End(_) => {
                if depth > 0 {
                    lemma_item_steps_bounded(rest, acc, (depth - 1) as nat);
                }
            },
            _ => {
                lemma_item_steps_bounded(rest, acc, depth);
            },
        }
    }
}

pub open spec fn empty_channel() -> ChannelView {
    ChannelView { title: Seq::empty(), link: Seq::empty(), last_build_date: None, items: Seq::empty() }
}

/// Whether an element of this name inside a channel gives one of its fields.
pub open spec fn is_channel_field(n: Seq<char>) -> bool {
    n == "title"@ || n == "lastBuildDate"@ || n == "link"@
}

/// The channel after the element named `n` gave the text `v`.
pub open spec fn with_channel_field(acc: ChannelView, n: Seq<char>, v: Seq<char>) -> ChannelView {
    if n == "title"@ {
        ChannelView { title: v, ..acc }
    } else if n == "lastBuildDate"@ {
        ChannelView { last_build_date: Some(v), ..acc }
    } else if n == "link"@ {
        ChannelView { link: v, ..acc }
    } else {
        acc
    }
}

/// The channel after an item was read.
pub open spec fn with_item(acc: ChannelView, i: ItemView) -> ChannelView {
    ChannelView { items: acc.items.push(i), ..acc }
}

/// Reading the events of a channel, after its start tag, into `acc`, `depth` elements
/// deep inside it: the channel (or the failure) and how many events it took. A direct
/// child named after a field gives that field its text, and a direct `item` child adds
/// an item; deeper elements (an `image` and its own title) are passed over.
pub open spec fn channel_steps(s: Seq<XmlItem>, acc: ChannelView, depth: nat) -> (Result<ChannelView, Failure>, nat)
    decreases s.len(),
{
    if s.len() == 0 {
        (Ok(acc), 0)
    } else {
        let rest = s.drop_first();
        match s[0] {
            XmlItem::Start(n, _, _) => {
                if depth == 0 && is_channel_field(n) {
                    let t = element_text(rest);
                    if t.0 is None {
                        (Err(Failure::XmlParse), t.1 + 1)
                    } else if t.1 <= rest.len() {
                        let r = channel_steps(rest.skip(t.1 as int), with_channel_field(acc, n, t.0->Some_0), 0);
                        (r.0, r.1 + t.1 + 1)
                    } else {
                        (Err(Failure::XmlParse), 0)
                    }
                } else if depth == 0 && n == "item"@ {
                    let i = item_steps(rest, empty_item(), 0);
                    match i.0 {
                        Err(e) => (Err(e), i.1 + 1),
                        Ok(it) => {
                            if i.1 <= rest.len() {
                                let r = channel_steps(rest.skip(i.1 as int), with_item(acc, it), 0);
                                (r.0, r.1 + i.1 + 1)
                            } else {
                                (Err(Failure::XmlParse), 0)
                            }
                        },
                    }
                } else if depth + 1 > usize::MAX {
                    (Err(Failure::XmlParse), 1)
                } else {
                    let r = channel_steps(rest, acc, depth + 1);
                    (r.0, r.1 + 1)
                }
            },
            XmlItem::End(_) => {
                if depth == 0 {
                    (Ok(acc), 1)
                } else {
                    let r = channel_steps(rest, acc, (depth - 1) as nat);
                    (r.0, r.1 + 1)
                }
            },
            XmlItem::Eof => (Ok(acc), 1),
            XmlItem::Malformed => (Err(Failure::XmlParse), 1),
            _ => {
                let r = channel_steps(rest, acc, depth);
                (r.0, r.1 + 1)
            },
        }
    }
}

/// A channel read in full: one without a title, a link or any item is missing information.
pub open spec fn channel_read(s: Seq<XmlItem>) -> (Result<ChannelView, Failure>, nat) {
    let r = channel_steps(s, empty_channel(), 0);
    match r.0 {
        Ok(c) => {
            if c.title.len() == 0 || c.link.len() == 0 || c.items.len() == 0 {
                (Err(Failure::MissingFeedInfo), r.1)
            } else {
                (Ok(c), r.1)
            }
        },
        Err(e) => (Err(e), r.1),
    }
}

pub proof fn lemma_channel_steps_bounded(s: Seq<XmlItem>, acc: ChannelView, depth: nat)
    ensures
        channel_steps(s, acc, depth).1 <= s.len(),
    decreases s.len(),
{
    if s.len() > 0 {
        let rest = s.drop_first();
        match s[0] {
            XmlItem::Start(n, _, _) => {
                if depth == 0 && is_channel_field(n) {
                    lemma_gather_bounded(rest, 0, Seq::empty());
                    let t = element_text(rest);
                    if t.0 is Some {
                        lemma_channel_steps_bounded(rest.skip(t.1 as int), with_channel_field(acc, n, t.0->Some_0), 0);
                    }
                } else if depth == 0 && n == "item"@ {
                    lemma_item_steps_bounded(rest, empty_item(), 0);
                    let i = item_steps(rest, empty_item(), 0);
                    if i.0 is Ok {
                        lemma_channel_steps_bounded(rest.skip(i.1 as int), with_item(acc, i.0->Ok_0), 0);
                    }
                } else {
                    lemma_channel_steps_bounded(rest, acc, depth + 1);
                }
            },
            XmlItem::End(_) => {
                if depth > 0 {
                    lemma_channel_steps_bounded(rest, acc, (depth - 1) as nat);
                }
            },
            _ => {
                lemma_channel_steps_bounded(rest, acc, depth);
            },
        }
    }
}

fn is_channel_field_name(n: &str) -> (r: bool)
    ensures
        r == is_channel_field(n@),
{
    str_equals(n, "title") || str_equals(n, "lastBuildDate") || str_equals(n, "link")
}

fn set_channel_field(channel: &mut Channel, n: &str, v: String)
    ensures
        final(channel)@ == with_channel_field(old(channel)@, n@, v@),
{
    if str_equals(n, "title") {
        channel.title = v;
    } else if str_equals(n, "lastBuildDate") {
        channel.last_build_date = Some(v);
    } else if str_equals(n, "link") {
        channel.link = v;
    }
}

fn add_item(channel: &mut Channel, item: Item)
    ensures
        final(channel)@ == with_item(old(channel)@, item@),
{
    channel.items.push(item);
    assert(channel.items@.map_values(|i: Item| i@) =~= old(channel).items@.map_values(|i: Item| i@).push(item@));
}

fn parse_channel(reader: &mut XmlReader) -> (r: Result<Channel, GoodMorningError>)
    ensures
        outcome(r) == channel_read(reader_items(*old(reader))).0,
        reader_items(*final(reader)) == reader_items(*old(reader)).skip(
            channel_read(reader_items(*old(reader))).1 as int,
        ),
{
    let ghost s0 = reader_items(*reader);
    let ghost mut used: nat = 0;
    let mut channel = Channel { title: String::new(), link: String::new(), last_build_date: None, items: Vec::new() };
    proof {
        assert(channel@.items =~= Seq::<ItemView>::empty());
        assert(channel@ == empty_channel());
    }
    let mut depth: usize = 0;
    loop
        invariant_except_break
            channel_steps(s0, empty_channel(), 0).0 == channel_steps(reader_items(*reader), channel@, depth as nat).0,
            channel_steps(s0, empty_channel(), 0).1 == used + channel_steps(reader_items(*reader), channel@, depth as nat).1,
        invariant
            s0 == reader_items(*old(reader)),
            used <= s0.len(),
            reader_items(*reader) == s0.skip(used as int),
        ensures
            channel_steps(s0, empty_channel(), 0).0 == Ok::<ChannelView, Failure>(channel@),
            channel_steps(s0, empty_channel(), 0).1 == used,
            reader_items(*reader) == s0.skip(used as int),
        decreases reader_items(*reader).len(),
    {
        let ghost cur = reader_items(*reader);
        let event = next_event(reader);
        proof {
            if cur.len() > 0 {
                lemma_skip_drop_first(s0, used as int);
                used = used + 1;
            }
        }
        match event {
            Ok(XmlEvent::Start { name, .. }) => {
                let ghost rest = reader_items(*reader);
                if depth == 0 && is_channel_field_name(name.as_str()) {
                    let text = gather_text(reader);
                    proof {
                        lemma_gather_bounded(rest, 0, Seq::empty());
                        lemma_skip_skip(s0, used as int, element_text(rest).1 as int);
                        used = used + element_text(rest).1;
                    }
                    match text {
                        Some(v) => {
                            set_channel_field(&mut channel, name.as_str(), v);
                        },
                        None => {
                            return Err(GoodMorningError::XmlParse(reader_position(reader)));
                        },
                    }
                } else if depth == 0 && str_equals(name.as_str(), "item") {
                    let item = parse_item(reader);
                    proof {
                        lemma_item_steps_bounded(rest, empty_item(), 0);
                        lemma_skip_skip(s0, used as int, item_steps(rest, empty_item(), 0).1 as int);
                        used = used + item_steps(rest, empty_item(), 0).1;
                    }
                    match item {
                        Ok(i) => {
                            add_item(&mut channel, i);
                        },
                        Err(e) => {
                            return Err(e);
                        },
                    }
                } else if depth == usize::MAX {
                    return Err(GoodMorningError::XmlParse(reader_position(reader)));
                } else {
                    depth = depth + 1;
                }
            },
            Ok(XmlEvent::End { .. }) => {
                if depth == 0 {
                    break ;
                }
                depth = depth - 1;
            },
            Ok(XmlEvent::Eof) => {
                break ;
            },
            Ok(_) => {},
            Err(_) => {
                return Err(GoodMorningError::XmlParse(reader_position(reader)));
            },
        }
    }
    if channel.title.as_str().is_empty() || channel.link.as_str().is_empty() || channel.items.len() == 0 {
        return Err(GoodMorningError::MissingFeedInfo);
    }
    Ok(channel)
}

/// The channels read from the events of a document, after those in `chans`: each
/// channel that reads in full is kept, one that misses information is passed over, and
/// a markup failure is the failure of the whole document.
pub open spec fn feed_steps(s: Seq<XmlItem>, chans: Seq<ChannelView>) -> Result<Seq<ChannelView>, Failure>
    decreases s.len(),
{
    if s.len() == 0 {
        Ok(chans)
    } else {
        let rest = s.drop_first();
        match s[0] {
            XmlItem::Start(n, _, _) => {
                if n == "channel"@ {
                    let c = channel_read(rest);
                    if c.1 > rest.len() {
                        Err(Failure::XmlParse)
                    } else {
                        match c.0 {
                            Ok(ch) => feed_steps(rest.skip(c.1 as int), chans.push(ch)),
                            Err(Failure::MissingFeedInfo) => feed_steps(rest.skip(c.1 as int), chans),
                            Err(e) => Err(e),
                        }
                    }
                } else {
                    feed_steps(rest, chans)
                }
            },
            XmlItem::Eof => Ok(chans),
            XmlItem::Malformed => Err(Failure::XmlParse),
            _ => feed_steps(rest, chans),
        }
    }
}

/// What an RSS document reads as: an empty document is `Empty`; one with no channel
/// that reads in full is missing information.
pub open spec fn rss_document(doc: Seq<char>) -> Result<FeedView, Failure> {
    if doc.len() == 0 {
        Err(Failure::Empty)
    } else {
        match feed_steps(document_items(doc, false), Seq::empty()) {
            Ok(chans) => {
                if chans.len() == 0 {
                    Err(Failure::MissingFeedInfo)
                } else {
                    Ok(FeedView { channels: chans })
                }
            },
            Err(e) => Err(e),
        }
    }
}

/// Parses an RSS document into its channels.
pub fn parse_rss_feed(xml: &str) -> (r: Result<Feed, GoodMorningError>)
    ensures
        outcome(r) == rss_document(xml@),
{
    if xml.is_empty() {
        return Err(GoodMorningError::Empty);
    }
    let mut reader = open_reader(xml, false);
    let ghost s0 = reader_items(reader);
    let ghost mut used: nat = 0;
    let mut channels: Vec<Channel> = Vec::new();
    proof {
        assert(channels@.map_values(|c: Channel| c@) =~= Seq::<ChannelView>::empty());
    }
    loop
        invariant_except_break
            feed_steps(s0, Seq::empty()) == feed_steps(reader_items(reader), channels@.map_values(|c: Channel| c@)),
        invariant
            xml@.len() > 0,
            s0 == document_items(xml@, false),
            used <= s0.len(),
            reader_items(reader) == s0.skip(used as int),
        ensures
            feed_steps(s0, Seq::empty()) == Ok::<Seq<ChannelView>, Failure>(channels@.map_values(|c: Channel| c@)),
        decreases reader_items(reader).len(),
    {
        let ghost cur = reader_items(reader);
        let event = next_event(&mut reader);
        proof {
            if cur.len() > 0 {
                lemma_skip_drop_first(s0, used as int);
                used = used + 1;
            }
        }
        match event {
            Ok(XmlEvent::Start { name, .. }) => {
                if str_equals(name.as_str(), "channel") {
                    let ghost rest = reader_items(reader);
                    let channel = parse_channel(&mut reader);
                    proof {
                        lemma_channel_steps_bounded(rest, empty_channel(), 0);
                        lemma_skip_skip(s0, used as int, channel_read(rest).1 as int);
                        used = used + channel_read(rest).1;
                    }
                    match channel {
                        Ok(c) => {
                            let ghost before = channels@;
                            channels.push(c);
                            proof {
                                assert(channels@.map_values(|c: Channel| c@) =~= before.map_values(|c: Channel| c@).push(c@));
                            }
                        },
                        Err(GoodMorningError::MissingFeedInfo) => {},
                        Err(e) => {
                            return Err(e);
                        },
                    }
                }
            },
            Ok(XmlEvent::Eof) => {
                break ;
            },
            Ok(_) => {},
            Err(_) => {
                return Err(GoodMorningError::XmlParse(reader_position(&reader)));
            },
        }
    }
    if channels.len() == 0 {
        return Err(GoodMorningError::MissingFeedInfo);
    }
    Ok(Feed { channels })
}

} // verus!
