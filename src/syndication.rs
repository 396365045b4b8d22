use vstd::prelude::*;
use vstd::string::*;

use crate::atom::{self, atom_document, parse_atom_feed};
use crate::common::{CheckView, FeedCheckResult, FeedType, MonitoredFeed};
use crate::rss::{self, parse_rss_feed, rss_document};
use crate::text::{copy_opt, opt_view};

verus! {

/// Relies on chrono's `Utc::now` and `DateTime::to_rfc3339`: the current time as an
/// RFC 3339 date, which is never empty. Nothing more is known of its value.
#[verifier::external_body]
fn now_rfc3339() -> (r: String)
    ensures
        r@.len() > 0,
{
    chrono::Utc::now().to_rfc3339()
}

/// The placeholder kept in an observation where a content digest will go.
pub open spec fn hash_placeholder() -> Option<Seq<char>> {
    Some("None"@)
}

/// The observation of an RSS feed: its first channel and that channel's first item.
pub open spec fn rss_observation(f: rss::FeedView, date: Seq<char>) -> CheckView {
    let ch = f.channels[0];
    let first = ch.items.len() > 0;
    CheckView {
        check_date: date,
        title: ch.title,
        pub_date: ch.last_build_date,
        last_article_title: if first { ch.items[0].title } else { None },
        last_article_guid: if first { ch.items[0].guid } else { None },
        last_article_pub_date: if first { ch.items[0].pub_date } else { None },
        last_article_hash: hash_placeholder(),
    }
}

/// The observation of an Atom feed: the feed and its first entry.
pub open spec fn atom_observation(f: atom::FeedView, date: Seq<char>) -> CheckView {
    let first = f.entries.len() > 0;
    CheckView {
        check_date: date,
        title: f.title,
        pub_date: Some(f.updated),
        last_article_title: if first { Some(f.entries[0].title) } else { None },
        last_article_guid: if first { Some(f.entries[0].guid) } else { None },
        last_article_pub_date: if first { Some(f.entries[0].updated) } else { None },
        last_article_hash: hash_placeholder(),
    }
}

/// What checking a document of the given kind observes at `date`: nothing when the
/// document does not parse.
pub open spec fn observation(kind: FeedType, doc: Seq<char>, date: Seq<char>) -> Option<CheckView> {
    match kind {
        FeedType::Rss => match rss_document(doc) {
            Ok(f) => Some(rss_observation(f, date)),
            Err(_) => None,
        },
        FeedType::Atom => match atom_document(doc) {
            Ok(f) => Some(atom_observation(f, date)),
            Err(_) => None,
        },
    }
}

fn placeholder() -> (r: Option<String>)
    ensures
        opt_view(r) == hash_placeholder(),
{
    Some("None".to_owned())
}

/// Observes an RSS document at `check_date`; nothing when it does not parse.
pub fn check_rss(body: &str, check_date: String) -> (r: Option<FeedCheckResult>)
    ensures
        match r {
            Some(c) => observation(FeedType::Rss, body@, check_date@) == Some(c@),
            None => observation(FeedType::Rss, body@, check_date@) is None,
        },
{
    let feed = match parse_rss_feed(body) {
        Ok(f) => f,
        Err(_) => return None,
    };
    assert(feed@.channels.len() > 0);
    let channel = &feed.channels[0];
    assert(feed@.channels[0] == channel@);
    let has_item = channel.items.len() > 0;
    let (title, guid, pub_date) = if has_item {
        let item = &channel.items[0];
        assert(channel@.items[0] == item@);
        (copy_opt(&item.title), copy_opt(&item.guid), copy_opt(&item.pub_date))
    } else {
        (None, None, None)
    };
    Some(
        FeedCheckResult {
            check_date,
            title: channel.title.clone(),
            pub_date: copy_opt(&channel.last_build_date),
            last_article_title: title,
            last_article_guid: guid,
            last_article_pub_date: pub_date,
            last_article_hash: placeholder(),
        },
    )
}

/// Observes an Atom document at `check_date`; nothing when it does not parse.
pub fn check_atom(body: &str, check_date: String) -> (r: Option<FeedCheckResult>)
    ensures
        match r {
            Some(c) => observation(FeedType::Atom, body@, check_date@) == Some(c@),
            None => observation(FeedType::Atom, body@, check_date@) is None,
        },
{
    let feed = match parse_atom_feed(body) {
        Ok(f) => f,
        Err(_) => return None,
    };
    let has_entry = feed.entries.len() > 0;
    let (title, guid, updated) = if has_entry {
        let entry = &feed.entries[0];
        assert(feed@.entries[0] == entry@);
        (Some(entry.title.clone()), Some(entry.guid.clone()), Some(entry.updated.clone()))
    } else {
        (None, None, None)
    };
    Some(
        FeedCheckResult {
            check_date,
            title: feed.title.clone(),
            pub_date: Some(feed.updated.clone()),
            last_article_title: title,
            last_article_guid: guid,
            last_article_pub_date: updated,
            last_article_hash: placeholder(),
        },
    )
}

/// Checks a fetched document with the parser of the feed's kind, dating the
/// observation with the current time.
pub fn check_feed(feed: &MonitoredFeed, body: &str) -> (r: Option<FeedCheckResult>)
    ensures
        match r {
            Some(c) => observation(feed.kind, body@, c.check_date@) == Some(c@) && c.check_date@.len() > 0,
            None => forall|date: Seq<char>| observation(feed.kind, body@, date) is None,
        },
{
    let date = now_rfc3339();
    match feed.kind {
        FeedType::Rss => check_rss(body, date),
        FeedType::Atom => check_atom(body, date),
    }
}

} // verus!
