use vstd::prelude::*;

use crate::common::Failure;
use crate::rss::{
    channel_read, channel_steps, empty_channel, empty_item, feed_steps, is_channel_field, is_item_field,
    item_steps, rss_document, with_channel_field, with_item, with_item_field, ChannelView, ItemView,
};
use crate::xml::{document_items, element_text, gather, unescaped_text, XmlItem};

verus! {

/// Walking markup inside an element, `depth` elements below it: the depth at the end,
/// provided no closing tag leaves the element, nesting stays well within what a `usize`
/// counts, the reader neither fails nor ends, and every text decodes.
pub open spec fn inner_depth(c: Seq<XmlItem>, depth: nat) -> Option<nat>
    decreases c.len(),
{
    if c.len() == 0 {
        Some(depth)
    } else {
        let rest = c.drop_first();
        match c[0] {
            XmlItem::End(_) => if depth == 0 { None } else { inner_depth(rest, (depth - 1) as nat) },
            XmlItem::Start(_, _, _) => if depth + 3 > usize::MAX { None } else { inner_depth(rest, depth + 1) },
            XmlItem::Text(raw) => if unescaped_text(raw) is Some { inner_depth(rest, depth) } else { None },
            XmlItem::CData(raw) => if unescaped_text(raw) is Some { inner_depth(rest, depth) } else { None },
            XmlItem::Other => inner_depth(rest, depth),
            XmlItem::Eof => None,
            XmlItem::Malformed => None,
        }
    }
}

/// Well-formed content of an element: it closes every element it opens.
pub open spec fn is_content(c: Seq<XmlItem>) -> bool {
    inner_depth(c, 0) == Some(0nat)
}

/// The decoded text of markup: its text and CDATA sections, in order.
pub open spec fn texts(c: Seq<XmlItem>) -> Seq<char>
    decreases c.len(),
{
    if c.len() == 0 {
        Seq::empty()
    } else {
        let head = match c[0] {
            XmlItem::Text(raw) => unescaped_text(raw)->Some_0,
            XmlItem::CData(raw) => unescaped_text(raw)->Some_0,
            _ => Seq::empty(),
        };
        head + texts(c.drop_first())
    }
}

/// An element: its name, the length of the name in bytes, its whole start tag, and the
/// events of its content.
pub struct Element {
    pub name: Seq<char>,
    pub name_len: nat,
    pub tag: Seq<u8>,
    pub content: Seq<XmlItem>,
}

pub open spec fn element_events(e: Element) -> Seq<XmlItem> {
    seq![XmlItem::Start(e.name, e.name_len, e.tag)] + e.content + seq![XmlItem::End(e.name)]
}

pub open spec fn elements_events(es: Seq<Element>) -> Seq<XmlItem>
    decreases es.len(),
{
    if es.len() == 0 {
        Seq::empty()
    } else {
        element_events(es[0]) + elements_events(es.drop_first())
    }
}

/// An `item` element: its start tag and its child elements.
pub struct ItemElement {
    pub name_len: nat,
    pub tag: Seq<u8>,
    pub children: Seq<Element>,
}

/// A `channel` element: its start tag, its `title` and `link` elements, other child
/// elements, then its items.
pub struct ChannelElement {
    pub name_len: nat,
    pub tag: Seq<u8>,
    pub title: Element,
    pub link: Element,
    pub others: Seq<Element>,
    pub items: Seq<ItemElement>,
}

pub open spec fn item_events(b: ItemElement) -> Seq<XmlItem> {
    seq![XmlItem::Start("item"@, b.name_len, b.tag)] + elements_events(b.children) + seq![XmlItem::End("item"@)]
}

pub open spec fn items_events(bs: Seq<ItemElement>) -> Seq<XmlItem>
    decreases bs.len(),
{
    if bs.len() == 0 {
        Seq::empty()
    } else {
        item_events(bs[0]) + items_events(bs.drop_first())
    }
}

/// The events of a channel element.
pub open spec fn channel_events(c: ChannelElement) -> Seq<XmlItem> {
    seq![XmlItem::Start("channel"@, c.name_len, c.tag)] + element_events(c.title) + element_events(c.link)
        + elements_events(c.others) + items_events(c.items) + seq![XmlItem::End("channel"@)]
}

/// The item that child elements describe, after `acc`: each field takes the text of
/// the last child of its name.
pub open spec fn children_view(es: Seq<Element>, acc: ItemView) -> ItemView
    decreases es.len(),
{
    if es.len() == 0 {
        acc
    } else {
        children_view(es.drop_first(), with_item_field(acc, es[0].name, texts(es[0].content)))
    }
}

/// The item an item element describes.
pub open spec fn item_of(b: ItemElement) -> ItemView {
    children_view(b.children, empty_item())
}

pub open spec fn items_view(bs: Seq<ItemElement>) -> Seq<ItemView> {
    bs.map_values(|b: ItemElement| item_of(b))
}

/// The channel that other child elements describe, after `acc`.
pub open spec fn others_view(es: Seq<Element>, acc: ChannelView) -> ChannelView
    decreases es.len(),
{
    if es.len() == 0 {
        acc
    } else {
        others_view(es.drop_first(), with_channel_field(acc, es[0].name, texts(es[0].content)))
    }
}

/// The channel a channel element describes.
pub open spec fn channel_of(c: ChannelElement) -> ChannelView {
    let named = ChannelView { title: texts(c.title.content), link: texts(c.link.content), last_build_date: None, items: Seq::empty() };
    ChannelView { items: items_view(c.items), ..others_view(c.others, named) }
}

/// Elements whose content is well formed.
pub open spec fn all_content(es: Seq<Element>) -> bool {
    forall|i: int| 0 <= i < es.len() ==> is_content(#[trigger] es[i].content)
}

/// A channel element with a non-empty title and link text, at least one item, other
/// children that are not items and do not rename the channel, and well-formed content
/// everywhere.
pub open spec fn channel_fits(c: ChannelElement) -> bool {
    &&& c.title.name == "title"@
    &&& c.link.name == "link"@
    &&& is_content(c.title.content) && texts(c.title.content).len() > 0
    &&& is_content(c.link.content) && texts(c.link.content).len() > 0
    &&& all_content(c.others)
    &&& forall|i: int| 0 <= i < c.others.len() ==> (#[trigger] c.others[i]).name != "item"@ && c.others[i].name != "title"@
        && c.others[i].name != "link"@
    &&& c.items.len() > 0
    &&& forall|i: int| 0 <= i < c.items.len() ==> all_content(#[trigger] c.items[i].children)
}

/// Events among which no channel starts and the document neither ends nor fails.
pub open spec fn inert(s: Seq<XmlItem>) -> bool {
    forall|i: int|
        0 <= i < s.len() ==> !(#[trigger] s[i] is Malformed) && !(s[i] is Eof) && !(s[i] matches XmlItem::Start(n, _, _)
            && n == "channel"@)
}

/// Events among which no channel starts and the reader reports no error.
pub open spec fn quiet(s: Seq<XmlItem>) -> bool {
    forall|i: int|
        0 <= i < s.len() ==> !(#[trigger] s[i] is Malformed) && !(s[i] matches XmlItem::Start(n, _, _) && n == "channel"@)
}

pub proof fn lemma_gather_content(c: Seq<XmlItem>, d: nat, acc: Seq<char>, r: Seq<XmlItem>)
    requires
        inner_depth(c, d) is Some,
    ensures
        gather(c + r, d, acc) == ({
            let g = gather(r, inner_depth(c, d)->Some_0, acc + texts(c));
            (g.0, g.1 + c.len())
        }),
    decreases c.len(),
{
    if c.len() == 0 {
        assert(c + r =~= r);
        assert(acc + texts(c) =~= acc);
    } else {
        let rest = c.drop_first();
        assert((c + r).drop_first() =~= rest + r);
        assert((c + r)[0] == c[0]);
        match c[0] {
            XmlItem::End(_) => lemma_gather_content(rest, (d - 1) as nat, acc, r),
            XmlItem::Start(_, _, _) => lemma_gather_content(rest, d + 1, acc, r),
            XmlItem::Text(raw) => {
                let t = unescaped_text(raw)->Some_0;
                lemma_gather_content(rest, d, acc + t, r);
                assert(acc + t + texts(rest) =~= acc + texts(c));
            },
            XmlItem::CData(raw) => {
                let t = unescaped_text(raw)->Some_0;
                lemma_gather_content(rest, d, acc + t, r);
                assert(acc + t + texts(rest) =~= acc + texts(c));
            },
            XmlItem::Other => {
                lemma_gather_content(rest, d, acc, r);
                assert(acc + texts(rest) =~= acc + texts(c));
            },
            _ => {},
        }
    }
}

pub proof fn lemma_element_text(e: Element, r: Seq<XmlItem>)
    requires
        is_content(e.content),
    ensures
        element_text(e.content + seq![XmlItem::End(e.name)] + r) == (Some(texts(e.content)), e.content.len() + 1),
{
    let tail = seq![XmlItem::End(e.name)] + r;
    assert(e.content + seq![XmlItem::End(e.name)] + r =~= e.content + tail);
    lemma_gather_content(e.content, 0, Seq::empty(), tail);
    assert(Seq::<char>::empty() + texts(e.content) =~= texts(e.content));
}

proof fn lemma_item_skips_content(c: Seq<XmlItem>, d: nat, acc: ItemView, r: Seq<XmlItem>)
    requires
        inner_depth(c, d) is Some,
    ensures
        item_steps(c + r, acc, d + 1) == ({
            let g = item_steps(r, acc, inner_depth(c, d)->Some_0 + 1);
            (g.0, g.1 + c.len())
        }),
    decreases c.len(),
{
    if c.len() == 0 {
        assert(c + r =~= r);
    } else {
        let rest = c.drop_first();
        assert((c + r).drop_first() =~= rest + r);
        assert((c + r)[0] == c[0]);
        match c[0] {
            XmlItem::End(_) => lemma_item_skips_content(rest, (d - 1) as nat, acc, r),
            XmlItem::Start(_, _, _) => lemma_item_skips_content(rest, d + 1, acc, r),
            XmlItem::Eof => {},
            XmlItem::Malformed => {},
            _ => lemma_item_skips_content(rest, d, acc, r),
        }
    }
}

proof fn lemma_channel_skips_content(c: Seq<XmlItem>, d: nat, acc: ChannelView, r: Seq<XmlItem>)
    requires
        inner_depth(c, d) is Some,
    ensures
        channel_steps(c + r, acc, d + 1) == ({
            let g = channel_steps(r, acc, inner_depth(c, d)->Some_0 + 1);
            (g.0, g.1 + c.len())
        }),
    decreases c.len(),
{
    if c.len() == 0 {
        assert(c + r =~= r);
    } else {
        let rest = c.drop_first();
        assert((c + r).drop_first() =~= rest + r);
        assert((c + r)[0] == c[0]);
        match c[0] {
            XmlItem::End(_) => lemma_channel_skips_content(rest, (d - 1) as nat, acc, r),
            XmlItem::Start(_, _, _) => lemma_channel_skips_content(rest, d + 1, acc, r),
            XmlItem::Eof => {},
            XmlItem::Malformed => {},
            _ => lemma_channel_skips_content(rest, d, acc, r),
        }
    }
}

/// A child element of an item gives its field the text of its content, or is passed over.
proof fn lemma_item_child(e: Element, acc: ItemView, r: Seq<XmlItem>)
    requires
        is_content(e.content),
    ensures
        item_steps(element_events(e) + r, acc, 0) == ({
            let g = item_steps(r, with_item_field(acc, e.name, texts(e.content)), 0);
            (g.0, g.1 + element_events(e).len())
        }),
{
    let s = element_events(e) + r;
    let rest = s.drop_first();
    assert(rest =~= e.content + seq![XmlItem::End(e.name)] + r);
    if is_item_field(e.name) {
        lemma_element_text(e, r);
        assert(rest.skip(e.content.len() + 1int) =~= r);
    } else {
        assert(e.content + seq![XmlItem::End(e.name)] + r =~= e.content + (seq![XmlItem::End(e.name)] + r));
        lemma_item_skips_content(e.content, 0, acc, seq![XmlItem::End(e.name)] + r);
        let tail = seq![XmlItem::End(e.name)] + r;
        assert(tail.drop_first() =~= r);
        assert(item_steps(tail, acc, 1) == (item_steps(r, acc, 0).0, item_steps(r, acc, 0).1 + 1));
    }
}

proof fn lemma_item_children(es: Seq<Element>, acc: ItemView, r: Seq<XmlItem>)
    requires
        all_content(es),
    ensures
        item_steps(elements_events(es) + seq![XmlItem::End("item"@)] + r, acc, 0) == (
            Ok::<ItemView, Failure>(children_view(es, acc)),
            elements_events(es).len() + 1,
        ),
    decreases es.len(),
{
    let s = elements_events(es) + seq![XmlItem::End("item"@)] + r;
    if es.len() == 0 {
        assert(elements_events(es) =~= Seq::<XmlItem>::empty());
        assert(s[0] == XmlItem::End("item"@));
    } else {
        let e = es[0];
        let tail = elements_events(es.drop_first()) + seq![XmlItem::End("item"@)] + r;
        assert(s =~= element_events(e) + tail);
        assert(is_content(e.content));
        assert(all_content(es.drop_first())) by {
            assert forall|i: int| 0 <= i < es.drop_first().len() implies is_content(#[trigger] es.drop_first()[i].content) by {
                assert(es.drop_first()[i] == es[i + 1]);
            }
        }
        lemma_item_child(e, acc, tail);
        lemma_item_children(es.drop_first(), with_item_field(acc, e.name, texts(e.content)), r);
    }
}

proof fn lemma_items(bs: Seq<ItemElement>, acc: ChannelView, r: Seq<XmlItem>)
    requires
        forall|i: int| 0 <= i < bs.len() ==> all_content(#[trigger] bs[i].children),
    ensures
        channel_steps(items_events(bs) + seq![XmlItem::End("channel"@)] + r, acc, 0) == (
            Ok::<ChannelView, Failure>(ChannelView { items: acc.items + items_view(bs), ..acc }),
            items_events(bs).len() + 1,
        ),
    decreases bs.len(),
{
    let s = items_events(bs) + seq![XmlItem::End("channel"@)] + r;
    if bs.len() == 0 {
        assert(items_events(bs) =~= Seq::<XmlItem>::empty());
        assert(s[0] == XmlItem::End("channel"@));
        assert(acc.items + items_view(bs) =~= acc.items);
    } else {
        let b = bs[0];
        let tail = items_events(bs.drop_first()) + seq![XmlItem::End("channel"@)] + r;
        assert(s =~= item_events(b) + tail);
        let rest = s.drop_first();
        assert(rest =~= elements_events(b.children) + seq![XmlItem::End("item"@)] + tail);
        assert(all_content(b.children));
        lemma_item_children(b.children, empty_item(), tail);
        assert(!is_channel_field("item"@)) by {
            reveal_strlit("item");
            reveal_strlit("title");
            reveal_strlit("link");
            reveal_strlit("lastBuildDate");
            assert("item"@[0] != "link"@[0]);
        }
        let k = elements_events(b.children).len() + 1;
        assert(rest.skip(k as int) =~= tail);
        let next = with_item(acc, item_of(b));
        assert forall|i: int| 0 <= i < bs.drop_first().len() implies all_content(#[trigger] bs.drop_first()[i].children) by {
            assert(bs.drop_first()[i] == bs[i + 1]);
        }
        lemma_items(bs.drop_first(), next, r);
        assert(next.items + items_view(bs.drop_first()) =~= acc.items + items_view(bs));
    }
}

/// A child element of a channel that is not an item gives its field the text of its
/// content, or is passed over.
proof fn lemma_channel_child(e: Element, acc: ChannelView, r: Seq<XmlItem>)
    requires
        is_content(e.content),
        e.name != "item"@,
    ensures
        channel_steps(element_events(e) + r, acc, 0) == ({
            let g = channel_steps(r, with_channel_field(acc, e.name, texts(e.content)), 0);
            (g.0, g.1 + element_events(e).len())
        }),
{
    let s = element_events(e) + r;
    let rest = s.drop_first();
    assert(rest =~= e.content + seq![XmlItem::End(e.name)] + r);
    if is_channel_field(e.name) {
        lemma_element_text(e, r);
        assert(rest.skip(e.content.len() + 1int) =~= r);
    } else {
        assert(e.content + seq![XmlItem::End(e.name)] + r =~= e.content + (seq![XmlItem::End(e.name)] + r));
        lemma_channel_skips_content(e.content, 0, acc, seq![XmlItem::End(e.name)] + r);
        let tail = seq![XmlItem::End(e.name)] + r;
        assert(tail.drop_first() =~= r);
        assert(channel_steps(tail, acc, 1) == (channel_steps(r, acc, 0).0, channel_steps(r, acc, 0).1 + 1));
    }
}

proof fn lemma_others(es: Seq<Element>, acc: ChannelView, r: Seq<XmlItem>)
    requires
        all_content(es),
        forall|i: int| 0 <= i < es.len() ==> (#[trigger] es[i]).name != "item"@ && es[i].name != "title"@ && es[i].name
            != "link"@,
    ensures
        channel_steps(elements_events(es) + r, acc, 0) == ({
            let g = channel_steps(r, others_view(es, acc), 0);
            (g.0, g.1 + elements_events(es).len())
        }),
        others_view(es, acc).title == acc.title,
        others_view(es, acc).link == acc.link,
        others_view(es, acc).items == acc.items,
    decreases es.len(),
{
    reveal_strlit("title");
    reveal_strlit("link");
    reveal_strlit("lastBuildDate");
    if es.len() == 0 {
        assert(elements_events(es) + r =~= r);
    } else {
        let e = es[0];
        let tail = elements_events(es.drop_first()) + r;
        assert(elements_events(es) + r =~= element_events(e) + tail);
        assert(is_content(e.content) && e.name != "item"@ && e.name != "title"@ && e.name != "link"@);
        assert(all_content(es.drop_first())) by {
            assert forall|i: int| 0 <= i < es.drop_first().len() implies is_content(#[trigger] es.drop_first()[i].content) by {
                assert(es.drop_first()[i] == es[i + 1]);
            }
        }
        assert forall|i: int| 0 <= i < es.drop_first().len() implies (#[trigger] es.drop_first()[i]).name != "item"@
            && es.drop_first()[i].name != "title"@ && es.drop_first()[i].name != "link"@ by {
            assert(es.drop_first()[i] == es[i + 1]);
        }
        lemma_channel_child(e, acc, tail);
        lemma_others(es.drop_first(), with_channel_field(acc, e.name, texts(e.content)), r);
    }
}

proof fn lemma_channel(c: ChannelElement, r: Seq<XmlItem>)
    requires
        channel_fits(c),
    ensures
        channel_read(channel_events(c).drop_first() + r) == (
            Ok::<ChannelView, Failure>(channel_of(c)),
            (channel_events(c).len() - 1) as nat,
        ),
{
    reveal_strlit("title");
    reveal_strlit("link");
    reveal_strlit("lastBuildDate");
    reveal_strlit("item");
    assert("link"@.len() == 4 && "title"@.len() == 5 && "lastBuildDate"@.len() == 13);
    assert("link"@ != "title"@ && "link"@ != "lastBuildDate"@ && "item"@[0] != "link"@[0]);
    let t = element_events(c.title);
    let l = element_events(c.link);
    let o = elements_events(c.others);
    let ie = items_events(c.items) + seq![XmlItem::End("channel"@)];
    let body = channel_events(c).drop_first() + r;
    assert(channel_events(c).drop_first() =~= t + l + o + ie);
    assert(body =~= t + (l + (o + (ie + r))));
    let acc1 = with_channel_field(empty_channel(), "title"@, texts(c.title.content));
    let acc2 = with_channel_field(acc1, "link"@, texts(c.link.content));
    lemma_channel_child(c.title, empty_channel(), l + (o + (ie + r)));
    lemma_channel_child(c.link, acc1, o + (ie + r));
    lemma_others(c.others, acc2, ie + r);
    let acc3 = others_view(c.others, acc2);
    assert(items_events(c.items) + seq![XmlItem::End("channel"@)] + r =~= ie + r);
    lemma_items(c.items, acc3, r);
    assert(acc3.items + items_view(c.items) =~= items_view(c.items));
    assert(items_view(c.items).len() > 0);
    assert(acc2 == ChannelView {
        title: texts(c.title.content),
        link: texts(c.link.content),
        last_build_date: None,
        items: Seq::empty(),
    });
}

proof fn lemma_inert(p: Seq<XmlItem>, r: Seq<XmlItem>, chans: Seq<ChannelView>)
    requires
        inert(p),
    ensures
        feed_steps(p + r, chans) == feed_steps(r, chans),
    decreases p.len(),
{
    if p.len() > 0 {
        assert((p + r).drop_first() =~= p.drop_first() + r);
        assert((p + r)[0] == p[0]);
        assert(inert(p.drop_first())) by {
            assert forall|i: int| 0 <= i < p.drop_first().len() implies !(#[trigger] p.drop_first()[i] is Malformed)
                && !(p.drop_first()[i] is Eof) && !(p.drop_first()[i] matches XmlItem::Start(n, _, _) && n == "channel"@) by {
                assert(p.drop_first()[i] == p[i + 1]);
            }
        }
        lemma_inert(p.drop_first(), r, chans);
    }
}

proof fn lemma_quiet(s: Seq<XmlItem>, chans: Seq<ChannelView>)
    requires
        quiet(s),
    ensures
        feed_steps(s, chans) == Ok::<Seq<ChannelView>, Failure>(chans),
    decreases s.len(),
{
    if s.len() > 0 {
        assert(quiet(s.drop_first())) by {
            assert forall|i: int| 0 <= i < s.drop_first().len() implies !(#[trigger] s.drop_first()[i] is Malformed)
                && !(s.drop_first()[i] matches XmlItem::Start(n, _, _) && n == "channel"@) by {
                assert(s.drop_first()[i] == s[i + 1]);
            }
        }
        assert(!(s[0] is Malformed));
        lemma_quiet(s.drop_first(), chans);
    }
}

/// An RSS document whose channel has a non-empty title and link and at least one item,
/// all of well-formed content, parses into that channel with one item per item element;
/// each item's fields are the decoded texts (text and CDATA, nested markup included) of
/// its child elements of those names.
pub proof fn rss_channel_items_are_read(
    doc: Seq<char>,
    prefix: Seq<XmlItem>,
    channel: ChannelElement,
    suffix: Seq<XmlItem>,
)
    requires
        doc.len() > 0,
        document_items(doc, false) == prefix + channel_events(channel) + suffix,
        inert(prefix),
        quiet(suffix),
        channel_fits(channel),
    ensures
        rss_document(doc) matches Ok(f) && f.channels.len() == 1 && f.channels[0] == channel_of(channel)
            && f.channels[0].items.len() == channel.items.len() && f.channels[0].items[0] == item_of(
            channel.items[0],
        ),
{
    let events = channel_events(channel);
    lemma_inert(prefix, events + suffix, Seq::empty());
    assert(prefix + events + suffix =~= prefix + (events + suffix));
    let s = events + suffix;
    assert(s[0] == XmlItem::Start("channel"@, channel.name_len, channel.tag));
    assert(s.drop_first() =~= events.drop_first() + suffix);
    lemma_channel(channel, suffix);
    assert(s.drop_first().skip((events.len() - 1) as int) =~= suffix);
    lemma_quiet(suffix, seq![channel_of(channel)]);
}

} // verus!
