use vstd::prelude::*;

use crate::atom::{
    atom_document, atom_steps, attr_lookup, empty_entry, empty_feed, entry_read, entry_steps, is_entry_text,
    is_feed_text, with_entry_text, with_feed_text, EntryView, FeedView,
};
use crate::common::Failure;
use crate::rss_laws::{
    all_content, element_events, elements_events, inner_depth, is_content, lemma_element_text, texts, Element,
};
use crate::xml::{document_items, tag_attributes, unescaped_value, XmlItem};

verus! {

/// Attributes that are all well formed, with an `href` value that decodes.
pub open spec fn attributes_fit(a: Seq<Option<(Seq<char>, Seq<u8>)>>) -> bool {
    forall|i: int|
        0 <= i < a.len() ==> (#[trigger] a[i]) is Some && (a[i]->Some_0.0 == "href"@ ==> unescaped_value(
            a[i]->Some_0.1,
        ) is Some)
}

/// Elements whose content is well formed, and whose `link` tags have well-formed attributes.
pub open spec fn elements_fit(es: Seq<Element>) -> bool {
    &&& all_content(es)
    &&& forall|i: int| 0 <= i < es.len() && (#[trigger] es[i]).name == "link"@ ==> attributes_fit(
        tag_attributes(es[i].tag, es[i].name_len),
    )
}

/// A child of the root element: an element, and for an `entry` the child elements that
/// make up its content.
pub struct FeedChild {
    pub element: Element,
    pub entry_children: Seq<Element>,
}

/// Children of the root that are well formed: content that closes what it opens, `link`
/// tags with well-formed attributes, and entries made of such child elements.
pub open spec fn children_fit(cs: Seq<FeedChild>) -> bool {
    &&& elements_fit(cs.map_values(|c: FeedChild| c.element))
    &&& forall|i: int| 0 <= i < cs.len() && (#[trigger] cs[i]).element.name == "entry"@ ==> cs[i].element.content
        == elements_events(cs[i].entry_children) && elements_fit(cs[i].entry_children)
}

/// The events of the root element of an Atom document with these children.
pub open spec fn root_events(name: Seq<char>, name_len: nat, tag: Seq<u8>, cs: Seq<FeedChild>) -> Seq<XmlItem> {
    seq![XmlItem::Start(name, name_len, tag)] + elements_events(cs.map_values(|c: FeedChild| c.element))
        + seq![XmlItem::End(name)]
}

/// Events around the root element: declarations, comments and the end of the document.
pub open spec fn around_root(s: Seq<XmlItem>) -> bool {
    forall|i: int| 0 <= i < s.len() ==> (#[trigger] s[i] is Other || s[i] is Eof)
}

proof fn lemma_attr_lookup_fits(a: Seq<Option<(Seq<char>, Seq<u8>)>>)
    requires
        attributes_fit(a),
    ensures
        attr_lookup(a, "href"@) is Ok || attr_lookup(a, "href"@) == Err::<Seq<char>, Failure>(Failure::MissingFeedInfo),
    decreases a.len(),
{
    if a.len() > 0 {
        assert(attributes_fit(a.drop_first())) by {
            assert forall|i: int| 0 <= i < a.drop_first().len() implies (#[trigger] a.drop_first()[i]) is Some && (
            a.drop_first()[i]->Some_0.0 == "href"@ ==> unescaped_value(a.drop_first()[i]->Some_0.1) is Some) by {
                assert(a.drop_first()[i] == a[i + 1]);
            }
        }
        assert(a[0] is Some);
        lemma_attr_lookup_fits(a.drop_first());
    }
}

proof fn lemma_entry_skips_content(c: Seq<XmlItem>, d: nat, acc: EntryView, r: Seq<XmlItem>)
    requires
        inner_depth(c, d) is Some,
    ensures
        entry_steps(c + r, acc, d + 1) == ({
            let g = entry_steps(r, acc, inner_depth(c, d)->Some_0 + 1);
            (g.0, g.1 + c.len())
        }),
    decreases c.len(),
{
    if c.len() == 0 {
        assert(c + r =~= r);
    } else {
        let rest = c.drop_first();
        assert((c + r).drop_first() =~= rest + r);
        assert((c + r)[0] == c[0]);
        match c[0] {
            XmlItem::End(_) => lemma_entry_skips_content(rest, (d - 1) as nat, acc, r),
            XmlItem::Start(_, _, _) => lemma_entry_skips_content(rest, d + 1, acc, r),
            XmlItem::Eof => {},
            XmlItem::Malformed => {},
            _ => lemma_entry_skips_content(rest, d, acc, r),
        }
    }
}

proof fn lemma_feed_skips_content(c: Seq<XmlItem>, d: nat, acc: FeedView, r: Seq<XmlItem>)
    requires
        inner_depth(c, d) is Some,
    ensures
        atom_steps(c + r, acc, d + 2) == atom_steps(r, acc, inner_depth(c, d)->Some_0 + 2),
    decreases c.len(),
{
    if c.len() == 0 {
        assert(c + r =~= r);
    } else {
        let rest = c.drop_first();
        assert((c + r).drop_first() =~= rest + r);
        assert((c + r)[0] == c[0]);
        match c[0] {
            XmlItem::End(_) => lemma_feed_skips_content(rest, (d - 1) as nat, acc, r),
            XmlItem::Start(_, _, _) => lemma_feed_skips_content(rest, d + 1, acc, r),
            XmlItem::Eof => {},
            XmlItem::Malformed => {},
            _ => lemma_feed_skips_content(rest, d, acc, r),
        }
    }
}

/// The child elements of an entry read either into an entry, up to its closing tag, or
/// into missing information; never into a markup failure.
proof fn lemma_entry_children(es: Seq<Element>, acc: EntryView, r: Seq<XmlItem>)
    requires
        elements_fit(es),
    ensures
        ({
            let g = entry_steps(elements_events(es) + seq![XmlItem::End("entry"@)] + r, acc, 0);
            ||| g.0 is Ok && g.1 == elements_events(es).len() + 1
            ||| g.0 == Err::<EntryView, Failure>(Failure::MissingFeedInfo)
        }),
    decreases es.len(),
{
    let s = elements_events(es) + seq![XmlItem::End("entry"@)] + r;
    if es.len() == 0 {
        assert(elements_events(es) =~= Seq::<XmlItem>::empty());
        assert(s[0] == XmlItem::End("entry"@));
    } else {
        let e = es[0];
        let tail = elements_events(es.drop_first()) + seq![XmlItem::End("entry"@)] + r;
        assert(s =~= element_events(e) + tail);
        assert(is_content(e.content));
        assert(e.name == "link"@ ==> attributes_fit(tag_attributes(e.tag, e.name_len)));
        assert(elements_fit(es.drop_first())) by {
            assert forall|i: int| 0 <= i < es.drop_first().len() implies is_content(#[trigger] es.drop_first()[i].content) by {
                assert(es.drop_first()[i] == es[i + 1]);
            }
            assert forall|i: int| 0 <= i < es.drop_first().len() && (#[trigger] es.drop_first()[i]).name == "link"@ implies attributes_fit(
                tag_attributes(es.drop_first()[i].tag, es.drop_first()[i].name_len),
            ) by {
                assert(es.drop_first()[i] == es[i + 1]);
            }
        }
        let rest = s.drop_first();
        assert(rest =~= e.content + seq![XmlItem::End(e.name)] + tail);
        let after = seq![XmlItem::End(e.name)] + tail;
        assert(e.content + seq![XmlItem::End(e.name)] + tail =~= e.content + after);
        assert(after.drop_first() =~= tail);
        if is_entry_text(e.name) {
            lemma_element_text(e, tail);
            assert(rest.skip(e.content.len() + 1int) =~= tail);
            lemma_entry_children(es.drop_first(), with_entry_text(acc, e.name, texts(e.content)), r);
        } else if e.name == "link"@ {
            lemma_attr_lookup_fits(tag_attributes(e.tag, e.name_len));
            match attr_lookup(tag_attributes(e.tag, e.name_len), "href"@) {
                Ok(v) => {
                    let next = EntryView { link: v, ..acc };
                    lemma_entry_skips_content(e.content, 0, next, after);
                    assert(entry_steps(after, next, 1) == (entry_steps(tail, next, 0).0, entry_steps(tail, next, 0).1 + 1));
                    lemma_entry_children(es.drop_first(), next, r);
                },
                Err(_) => {},
            }
        } else {
            lemma_entry_skips_content(e.content, 0, acc, after);
            assert(entry_steps(after, acc, 1) == (entry_steps(tail, acc, 0).0, entry_steps(tail, acc, 0).1 + 1));
            lemma_entry_children(es.drop_first(), acc, r);
        }
    }
}

/// Reading the children of a root without an `updated` child keeps the update date,
/// and fails only with missing information.
proof fn lemma_root_children(cs: Seq<FeedChild>, acc: FeedView, r: Seq<XmlItem>)
    requires
        children_fit(cs),
        forall|i: int| 0 <= i < cs.len() ==> (#[trigger] cs[i]).element.name != "updated"@,
        around_root(r),
    ensures
        ({
            let g = atom_steps(elements_events(cs.map_values(|c: FeedChild| c.element)) + seq![XmlItem::End("feed"@)] + r, acc, 1);
            ||| g matches Ok(f) && f.updated == acc.updated
            ||| g == Err::<FeedView, Failure>(Failure::MissingFeedInfo)
        }),
    decreases cs.len(),
{
    let es = cs.map_values(|c: FeedChild| c.element);
    let s = elements_events(es) + seq![XmlItem::End("feed"@)] + r;
    if cs.len() == 0 {
        assert(elements_events(es) =~= Seq::<XmlItem>::empty());
        assert(s =~= seq![XmlItem::End("feed"@)] + r);
        lemma_around_root(r, acc);
    } else {
        let child = cs[0];
        let e = child.element;
        assert(es[0] == e);
        let rest_cs = cs.drop_first();
        assert(rest_cs.map_values(|c: FeedChild| c.element) =~= es.drop_first());
        let tail = elements_events(es.drop_first()) + seq![XmlItem::End("feed"@)] + r;
        assert(s =~= element_events(e) + tail);
        assert(is_content(e.content));
        assert(e.name == "link"@ ==> attributes_fit(tag_attributes(e.tag, e.name_len)));
        assert(e.name != "updated"@);
        assert(children_fit(rest_cs)) by {
            assert forall|i: int| 0 <= i < es.drop_first().len() implies is_content(#[trigger] es.drop_first()[i].content) by {
                assert(es.drop_first()[i] == es[i + 1]);
            }
            assert forall|i: int| 0 <= i < es.drop_first().len() && (#[trigger] es.drop_first()[i]).name == "link"@ implies attributes_fit(
                tag_attributes(es.drop_first()[i].tag, es.drop_first()[i].name_len),
            ) by {
                assert(es.drop_first()[i] == es[i + 1]);
            }
            assert forall|i: int| 0 <= i < rest_cs.len() && (#[trigger] rest_cs[i]).element.name == "entry"@ implies rest_cs[i].element.content
                == elements_events(rest_cs[i].entry_children) && elements_fit(rest_cs[i].entry_children) by {
                assert(rest_cs[i] == cs[i + 1]);
            }
        }
        assert forall|i: int| 0 <= i < rest_cs.len() implies (#[trigger] rest_cs[i]).element.name != "updated"@ by {
            assert(rest_cs[i] == cs[i + 1]);
        }
        let rest = s.drop_first();
        assert(rest =~= e.content + seq![XmlItem::End(e.name)] + tail);
        let after = seq![XmlItem::End(e.name)] + tail;
        assert(e.content + seq![XmlItem::End(e.name)] + tail =~= e.content + after);
        assert(after.drop_first() =~= tail);
        if is_feed_text(e.name) {
            lemma_element_text(e, tail);
            assert(rest.skip(e.content.len() + 1int) =~= tail);
            let next = with_feed_text(acc, e.name, texts(e.content));
            assert(next.updated == acc.updated);
            lemma_root_children(rest_cs, next, r);
        } else if e.name == "link"@ {
            lemma_attr_lookup_fits(tag_attributes(e.tag, e.name_len));
            match attr_lookup(tag_attributes(e.tag, e.name_len), "href"@) {
                Ok(v) => {
                    let next = FeedView { link: v, ..acc };
                    lemma_feed_skips_content(e.content, 0, next, after);
                    assert(atom_steps(after, next, 2) == atom_steps(tail, next, 1));
                    lemma_root_children(rest_cs, next, r);
                },
                Err(_) => {},
            }
        } else if e.name == "entry"@ {
            assert(cs[0].element.name == "entry"@);
            let kids = child.entry_children;
            assert(e.content == elements_events(kids) && elements_fit(kids));
            lemma_entry_children(kids, empty_entry(), tail);
            assert(rest =~= elements_events(kids) + seq![XmlItem::End("entry"@)] + tail);
            let g = entry_steps(rest, empty_entry(), 0);
            if g.0 is Ok {
                assert(rest.skip(g.1 as int) =~= tail);
                let en = entry_read(rest).0;
                if en is Ok {
                    lemma_root_children(rest_cs, FeedView { entries: acc.entries.push(en->Ok_0), ..acc }, r);
                }
            }
        } else {
            lemma_feed_skips_content(e.content, 0, acc, after);
            assert(atom_steps(after, acc, 2) == atom_steps(tail, acc, 1));
            lemma_root_children(rest_cs, acc, r);
        }
    }
}

proof fn lemma_around_root(r: Seq<XmlItem>, acc: FeedView)
    requires
        around_root(r),
    ensures
        atom_steps(seq![XmlItem::End("feed"@)] + r, acc, 1) == Ok::<FeedView, Failure>(acc),
{
    let s = seq![XmlItem::End("feed"@)] + r;
    assert(s.drop_first() =~= r);
    lemma_around(r, acc, 0);
}

proof fn lemma_around(r: Seq<XmlItem>, acc: FeedView, d: nat)
    requires
        around_root(r),
    ensures
        atom_steps(r, acc, d) == Ok::<FeedView, Failure>(acc),
    decreases r.len(),
{
    if r.len() > 0 {
        assert(r[0] is Other || r[0] is Eof);
        assert(around_root(r.drop_first())) by {
            assert forall|i: int| 0 <= i < r.drop_first().len() implies (#[trigger] r.drop_first()[i] is Other || r.drop_first()[i] is Eof) by {
                assert(r.drop_first()[i] == r[i + 1]);
            }
        }
        lemma_around(r.drop_first(), acc, d);
    }
}

proof fn lemma_prefix(p: Seq<XmlItem>, r: Seq<XmlItem>, acc: FeedView)
    requires
        forall|i: int| 0 <= i < p.len() ==> #[trigger] p[i] is Other,
    ensures
        atom_steps(p + r, acc, 0) == atom_steps(r, acc, 0),
    decreases p.len(),
{
    if p.len() > 0 {
        assert((p + r).drop_first() =~= p.drop_first() + r);
        assert((p + r)[0] == p[0]);
        assert(p[0] is Other);
        assert forall|i: int| 0 <= i < p.drop_first().len() implies #[trigger] p.drop_first()[i] is Other by {
            assert(p.drop_first()[i] == p[i + 1]);
        }
        lemma_prefix(p.drop_first(), r, acc);
    }
}

/// A well-formed Atom document whose root element has no `updated` child is missing
/// information, whatever its other children hold (an `updated` inside `author` or an
/// entry included).
pub proof fn atom_without_root_updated_is_missing_info(
    doc: Seq<char>,
    prefix: Seq<XmlItem>,
    name_len: nat,
    tag: Seq<u8>,
    children: Seq<FeedChild>,
    suffix: Seq<XmlItem>,
)
    requires
        doc.len() > 0,
        document_items(doc, true) == prefix + root_events("feed"@, name_len, tag, children) + suffix,
        forall|i: int| 0 <= i < prefix.len() ==> #[trigger] prefix[i] is Other,
        around_root(suffix),
        children_fit(children),
        forall|i: int| 0 <= i < children.len() ==> (#[trigger] children[i]).element.name != "updated"@,
    ensures
        atom_document(doc) == Err::<FeedView, Failure>(Failure::MissingFeedInfo),
{
    reveal_strlit("feed");
    reveal_strlit("title");
    reveal_strlit("updated");
    reveal_strlit("link");
    reveal_strlit("entry");
    let es = children.map_values(|c: FeedChild| c.element);
    let root = root_events("feed"@, name_len, tag, children);
    lemma_prefix(prefix, root + suffix, empty_feed());
    assert(prefix + root + suffix =~= prefix + (root + suffix));
    let s = root + suffix;
    assert(s[0] == XmlItem::Start("feed"@, name_len, tag));
    assert(!is_feed_text("feed"@) && "feed"@ != "link"@ && "feed"@ != "entry"@) by {
        assert("feed"@[0] != "title"@[0] && "feed"@[0] != "updated"@[0] && "feed"@[0] != "link"@[0]);
        assert("feed"@[0] != "entry"@[0]);
    }
    assert(s.drop_first() =~= elements_events(es) + seq![XmlItem::End("feed"@)] + suffix);
    lemma_root_children(children, empty_feed(), suffix);
}

} // verus!
