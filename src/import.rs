use vstd::prelude::*;
use vstd::string::*;

use crate::common::{kind_named, FeedType, MonitoredFeed, MonitoredView};
use crate::text::str_equals;

verus! {

/// The number of commas in a text.
pub open spec fn comma_count(s: Seq<char>) -> nat
    decreases s.len(),
{
    if s.len() == 0 {
        0
    } else {
        comma_count(s.drop_last()) + if s.last() == ',' { 1nat } else { 0nat }
    }
}

/// The position of the first comma in a text, if any.
pub open spec fn first_comma(s: Seq<char>) -> Option<nat>
    decreases s.len(),
{
    if s.len() == 0 {
        None
    } else {
        match first_comma(s.drop_last()) {
            Some(p) => Some(p),
            None => if s.last() == ',' { Some((s.len() - 1) as nat) } else { None },
        }
    }
}

pub proof fn lemma_first_comma_bounded(s: Seq<char>)
    ensures
        first_comma(s) matches Some(p) ==> p < s.len(),
    decreases s.len(),
{
    if s.len() > 0 {
        lemma_first_comma_bounded(s.drop_last());
    }
}

pub proof fn lemma_comma_found(s: Seq<char>)
    ensures
        comma_count(s) > 0 ==> first_comma(s) is Some,
    decreases s.len(),
{
    if s.len() > 0 {
        lemma_comma_found(s.drop_last());
    }
}

/// The subscription a line of a subscription list names: `url,kind`, with exactly two
/// columns and a known kind.
pub open spec fn csv_entry(line: Seq<char>) -> Option<(Seq<char>, FeedType)> {
    if comma_count(line) == 1 {
        let p = first_comma(line)->Some_0;
        match kind_named(line.subrange(p + 1int, line.len() as int)) {
            Some(k) => Some((line.subrange(0, p as int), k)),
            None => None,
        }
    } else {
        None
    }
}

/// Reads one line of a subscription list.
pub fn read_csv_line(line: &str) -> (r: Option<(String, FeedType)>)
    ensures
        match r {
            Some((url, kind)) => csv_entry(line@) == Some((url@, kind)),
            None => csv_entry(line@) is None,
        },
{
    let n = line.unicode_len();
    let mut commas: usize = 0;
    let mut first: Option<usize> = None;
    let mut i: usize = 0;
    while i < n
        invariant
            n == line@.len(),
            i <= n,
            commas == comma_count(line@.take(i as int)),
            commas <= i,
            first matches Some(p) ==> first_comma(line@.take(i as int)) == Some(p as nat),
            first is None ==> first_comma(line@.take(i as int)) is None,
        decreases n - i,
    {
        proof {
            assert(line@.take(i + 1).drop_last() =~= line@.take(i as int));
        }
        if line.get_char(i) == ',' {
            commas = commas + 1;
            if first.is_none() {
                first = Some(i);
            }
        }
        i = i + 1;
    }
    assert(line@.take(n as int) =~= line@);
    if commas != 1 {
        return None;
    }
    proof {
        lemma_comma_found(line@);
        lemma_first_comma_bounded(line@);
    }
    let p = match first {
        Some(p) => p,
        None => return None,
    };
    let url = line.substring_char(0, p);
    let kind_text = line.substring_char(p + 1, n);
    match FeedType::from_name(kind_text) {
        Some(kind) => Some((url.to_owned(), kind)),
        None => None,
    }
}

/// The plain values of a list of subscriptions.
pub open spec fn subs_view(s: Seq<(String, FeedType)>) -> Seq<(Seq<char>, FeedType)> {
    s.map_values(|e: (String, FeedType)| (e.0@, e.1))
}

/// The subscriptions of a list's lines, the first line being a header: each line that
/// names one, once, in order of first appearance.
pub open spec fn csv_subscriptions(lines: Seq<Seq<char>>) -> Seq<(Seq<char>, FeedType)>
    decreases lines.len(),
{
    if lines.len() <= 1 {
        Seq::empty()
    } else {
        let before = csv_subscriptions(lines.drop_last());
        match csv_entry(lines.last()) {
            Some(e) => if before.contains(e) { before } else { before.push(e) },
            None => before,
        }
    }
}

fn contains_sub(subs: &Vec<(String, FeedType)>, url: &String, kind: FeedType) -> (r: bool)
    ensures
        r == subs_view(subs@).contains((url@, kind)),
{
    let mut i: usize = 0;
    while i < subs.len()
        invariant
            i <= subs@.len(),
            forall|j: int| 0 <= j < i ==> subs_view(subs@)[j] != (url@, kind),
        decreases subs@.len() - i,
    {
        let (u, k) = &subs[i];
        if *u == *url && *k == kind {
            assert(subs_view(subs@)[i as int] == (url@, kind));
            return true;
        }
        i = i + 1;
    }
    false
}

/// Reads the subscriptions of a list given as its lines; the first line is a header.
/// Lines that do not name a subscription are passed over.
pub fn read_csv(lines: &Vec<String>) -> (r: Vec<(String, FeedType)>)
    ensures
        subs_view(r@) == csv_subscriptions(lines@.map_values(|l: String| l@)),
{
    let ghost all = lines@.map_values(|l: String| l@);
    let mut result: Vec<(String, FeedType)> = Vec::new();
    if lines.len() == 0 {
        assert(subs_view(result@) =~= Seq::<(Seq<char>, FeedType)>::empty());
        return result;
    }
    let mut i: usize = 1;
    proof {
        assert(subs_view(result@) =~= Seq::<(Seq<char>, FeedType)>::empty());
    }
    while i < lines.len()
        invariant
            1 <= i <= lines@.len(),
            all == lines@.map_values(|l: String| l@),
            subs_view(result@) == csv_subscriptions(all.take(i as int)),
        decreases lines@.len() - i,
    {
        proof {
            assert(all.take(i + 1).drop_last() =~= all.take(i as int));
            assert(all.take(i + 1).last() == lines@[i as int]@);
        }
        match read_csv_line(lines[i].as_str()) {
            Some((url, kind)) => {
                if !contains_sub(&result, &url, kind) {
                    let ghost before = result@;
                    let ghost e = (url@, kind);
                    result.push((url, kind));
                    assert(subs_view(result@) =~= subs_view(before).push(e));
                }
            },
            None => {},
        }
        i = i + 1;
    }
    assert(all.take(lines@.len() as int) =~= all);
    result
}

/// Whether a subscription is among the monitored feeds, by url and kind.
pub open spec fn is_monitored(existing: Seq<MonitoredView>, e: (Seq<char>, FeedType)) -> bool {
    exists|i: int| 0 <= i < existing.len() && existing[i].url == e.0 && existing[i].kind == e.1
}

/// The subscriptions of a list that are not monitored yet, in order.
pub open spec fn new_subscriptions(subs: Seq<(Seq<char>, FeedType)>, existing: Seq<MonitoredView>) -> Seq<(Seq<char>, FeedType)>
    decreases subs.len(),
{
    if subs.len() == 0 {
        Seq::empty()
    } else {
        let before = new_subscriptions(subs.drop_last(), existing);
        if is_monitored(existing, subs.last()) {
            before
        } else {
            before.push(subs.last())
        }
    }
}

pub open spec fn feeds_view(f: Seq<MonitoredFeed>) -> Seq<MonitoredView> {
    f.map_values(|m: MonitoredFeed| m@)
}

fn monitored(existing: &Vec<MonitoredFeed>, url: &String, kind: FeedType) -> (r: bool)
    ensures
        r == is_monitored(feeds_view(existing@), (url@, kind)),
{
    let ghost ev = feeds_view(existing@);
    let mut i: usize = 0;
    while i < existing.len()
        invariant
            i <= existing@.len(),
            ev == feeds_view(existing@),
            forall|j: int| 0 <= j < i ==> !(ev[j].url == url@ && ev[j].kind == kind),
        decreases existing@.len() - i,
    {
        if existing[i].url == *url && existing[i].kind == kind {
            assert(ev[i as int].url == url@ && ev[i as int].kind == kind);
            return true;
        }
        i = i + 1;
    }
    false
}

/// The subscriptions of a list that no monitored feed has, by url and kind, in the
/// list's order: those to subscribe to when importing the list.
pub fn import_subscriptions(existing: &Vec<MonitoredFeed>, subs: &Vec<(String, FeedType)>) -> (r: Vec<(String, FeedType)>)
    ensures
        subs_view(r@) == new_subscriptions(subs_view(subs@), feeds_view(existing@)),
{
    let ghost sv = subs_view(subs@);
    let mut result: Vec<(String, FeedType)> = Vec::new();
    let mut i: usize = 0;
    proof {
        assert(subs_view(result@) =~= Seq::<(Seq<char>, FeedType)>::empty());
        assert(sv.take(0) =~= Seq::<(Seq<char>, FeedType)>::empty());
    }
    while i < subs.len()
        invariant
            i <= subs@.len(),
            sv == subs_view(subs@),
            subs_view(result@) == new_subscriptions(sv.take(i as int), feeds_view(existing@)),
        decreases subs@.len() - i,
    {
        let (url, kind) = &subs[i];
        proof {
            assert(sv.take(i + 1).drop_last() =~= sv.take(i as int));
            assert(sv.take(i + 1).last() == (url@, *kind));
        }
        if !monitored(existing, url, *kind) {
            let ghost before = result@;
            result.push((url.clone(), *kind));
            assert(subs_view(result@) =~= subs_view(before).push((url@, *kind)));
        }
        i = i + 1;
    }
    assert(sv.take(subs@.len() as int) =~= sv);
    result
}

/// The listing line of a subscription: its url and the date of its last check.
pub open spec fn subscription_text(f: MonitoredView) -> Seq<char> {
    f.url + " (last update: "@ + match f.last_check {
        Some(c) => c.check_date,
        None => "Never seen"@,
    } + ")"@
}

/// The listing line of a subscription.
pub fn subscription_line(feed: &MonitoredFeed) -> (r: String)
    ensures
        r@ == subscription_text(feed@),
{
    let mut line = feed.url.clone();
    line.append(" (last update: ");
    match &feed.last_check {
        Some(c) => line.append(c.check_date.as_str()),
        None => line.append("Never seen"),
    }
    line.append(")");
    assert(line@ =~= subscription_text(feed@));
    line
}

/// The listing of a sequence of feeds, line by line.
pub open spec fn listing(feeds: Seq<MonitoredView>) -> Seq<Seq<char>> {
    feeds.map_values(|f: MonitoredView| subscription_text(f))
}

/// The listing lines of monitored feeds, in order.
pub fn list_subscription(feeds: &Vec<MonitoredFeed>) -> (r: Vec<String>)
    ensures
        r@.map_values(|l: String| l@) == listing(feeds_view(feeds@)),
{
    let mut lines: Vec<String> = Vec::new();
    let mut i: usize = 0;
    while i < feeds.len()
        invariant
            i <= feeds@.len(),
            lines@.len() == i,
            forall|j: int| 0 <= j < i ==> #[trigger] lines@[j]@ == subscription_text(feeds@[j]@),
        decreases feeds@.len() - i,
    {
        lines.push(subscription_line(&feeds[i]));
        i = i + 1;
    }
    assert(listing(feeds_view(feeds@)) =~= lines@.map_values(|l: String| l@));
    lines
}

} // verus!
