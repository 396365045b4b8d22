use vstd::prelude::*;
use vstd::string::*;

use crate::common::{
    opt_check_view, CheckView, Config, FeedCheckResult, FeedUpdateKind, MonitoredFeed,
    MonitoredView, ReportType,
};
use crate::text::opt_equals;

verus! {

/// The reason `current` differs from `previous`, by fixed precedence: no previous
/// observation, then the title, then the latest article's guid, then its date.
/// Texts compare exactly; an absent value differs from a present one.
pub open spec fn classify_spec(previous: Option<CheckView>, current: CheckView) -> Option<FeedUpdateKind> {
    match previous {
        None => Some(FeedUpdateKind::FirstCheck),
        Some(p) => {
            if p.title != current.title {
                Some(FeedUpdateKind::Title)
            } else if p.last_article_guid != current.last_article_guid {
                Some(FeedUpdateKind::NewArticle)
            } else if p.last_article_pub_date != current.last_article_pub_date {
                Some(FeedUpdateKind::LastArticle)
            } else {
                None
            }
        },
    }
}

/// Classification depends on its two observations alone: equal inputs give equal results.
pub proof fn classify_is_deterministic(p1: Option<CheckView>, c1: CheckView, p2: Option<CheckView>, c2: CheckView)
    requires
        p1 == p2,
        c1 == c2,
    ensures
        classify_spec(p1, c1) == classify_spec(p2, c2),
{
}

/// A changed title is reported as `Title`, whatever else changed with it.
pub proof fn title_change_takes_precedence(previous: CheckView, current: CheckView)
    requires
        previous.title != current.title,
    ensures
        classify_spec(Some(previous), current) == Some(FeedUpdateKind::Title),
{
}

/// Without a previous observation, any observation is a first check.
pub proof fn first_check_without_history(current: CheckView)
    ensures
        classify_spec(None, current) == Some(FeedUpdateKind::FirstCheck),
{
}

/// Classifies an observation against the one recorded before it, if any.
pub fn classify(previous: &Option<FeedCheckResult>, current: &FeedCheckResult) -> (r: Option<FeedUpdateKind>)
    ensures
        r == classify_spec(opt_check_view(*previous), current@),
{
    match previous {
        None => Some(FeedUpdateKind::FirstCheck),
        Some(p) => {
            if p.title != current.title {
                Some(FeedUpdateKind::Title)
            } else if !opt_equals(&p.last_article_guid, &current.last_article_guid) {
                Some(FeedUpdateKind::NewArticle)
            } else if !opt_equals(&p.last_article_pub_date, &current.last_article_pub_date) {
                Some(FeedUpdateKind::LastArticle)
            } else {
                None
            }
        },
    }
}

/// Classifies an observation of a feed against the feed's last recorded one.
pub fn get_update_kind(feed: &MonitoredFeed, check_result: &FeedCheckResult) -> (r: Option<FeedUpdateKind>)
    ensures
        r == classify_spec(feed@.last_check, check_result@),
{
    classify(&feed.last_check, check_result)
}

/// What the aggregation point makes of one feed's result: nothing when the check
/// failed, else the classification.
pub open spec fn process_spec(feed: MonitoredView, check: Option<CheckView>) -> Option<FeedUpdateKind> {
    match check {
        None => None,
        Some(c) => classify_spec(feed.last_check, c),
    }
}

/// What the aggregation point makes of one feed's result, as plain values: the
/// update and the observation to record, exactly when the check succeeded and
/// classifies as an update.
pub open spec fn process_outcome(feed: MonitoredView, check: Option<CheckView>) -> Option<(FeedUpdateKind, CheckView)> {
    match process_spec(feed, check) {
        Some(k) => Some((k, check->Some_0)),
        None => None,
    }
}

/// Handles one feed's result: classifies it and gives the observation to record, which
/// comes exactly with an update. A failed check (`None`) and an unchanged feed give
/// nothing, so nothing is recorded for them.
pub fn process_feed(feed: &MonitoredFeed, check_result: Option<FeedCheckResult>) -> (r: Option<(FeedUpdateKind, FeedCheckResult)>)
    ensures
        match r {
            Some((k, c)) => process_outcome(feed@, opt_check_view(check_result)) == Some((k, c@)),
            None => process_outcome(feed@, opt_check_view(check_result)) is None,
        },
{
    let check = match check_result {
        None => return None,
        Some(c) => c,
    };
    match get_update_kind(feed, &check) {
        Some(k) => Some((k, check)),
        None => None,
    }
}

/// The plain values of a list of updates.
pub open spec fn updates_view(u: Seq<(MonitoredFeed, FeedUpdateKind)>) -> Seq<(MonitoredView, FeedUpdateKind)> {
    u.map_values(|p: (MonitoredFeed, FeedUpdateKind)| (p.0@, p.1))
}

/// The single aggregation point of a run: it takes each feed's result as it arrives
/// and keeps, in that order, the feeds whose result classified as an update.
pub struct Aggregator {
    updates: Vec<(MonitoredFeed, FeedUpdateKind)>,
}

impl View for Aggregator {
    type V = Seq<(MonitoredView, FeedUpdateKind)>;

    closed spec fn view(&self) -> Seq<(MonitoredView, FeedUpdateKind)> {
        updates_view(self.updates@)
    }
}

/// The updates kept after a sequence of results, each a feed and what its check observed.
pub open spec fn run_updates(results: Seq<(MonitoredView, Option<CheckView>)>) -> Seq<(MonitoredView, FeedUpdateKind)>
    decreases results.len(),
{
    if results.len() == 0 {
        Seq::empty()
    } else {
        let before = run_updates(results.drop_last());
        let last = results.last();
        match process_spec(last.0, last.1) {
            Some(k) => before.push((last.0, k)),
            None => before,
        }
    }
}

/// Whether a result classifies as an update.
pub open spec fn is_update(r: (MonitoredView, Option<CheckView>)) -> bool {
    process_spec(r.0, r.1) is Some
}

/// A result that classifies as an update, as the update it gives.
pub open spec fn as_update(r: (MonitoredView, Option<CheckView>)) -> (MonitoredView, FeedUpdateKind) {
    (r.0, process_spec(r.0, r.1)->Some_0)
}

/// The updates of a run are exactly its results that classify as an update, in the
/// order they arrived: a failed or unchanged feed gives none, whatever the order.
pub proof fn run_updates_are_classified_results(results: Seq<(MonitoredView, Option<CheckView>)>)
    ensures
        run_updates(results) == results.filter(|r: (MonitoredView, Option<CheckView>)| is_update(r)).map_values(
            |r: (MonitoredView, Option<CheckView>)| as_update(r),
        ),
    decreases results.len(),
{
    let f = |r: (MonitoredView, Option<CheckView>)| is_update(r);
    let m = |r: (MonitoredView, Option<CheckView>)| as_update(r);
    if results.len() == 0 {
        assert(results.filter(f) =~= Seq::empty());
        assert(results.filter(f).map_values(m) =~= Seq::empty());
    } else {
        run_updates_are_classified_results(results.drop_last());
        reveal_with_fuel(Seq::filter, 1);
        let sub = results.drop_last().filter(f);
        if f(results.last()) {
            assert(results.filter(f) == sub.push(results.last()));
            assert(sub.push(results.last()).map_values(m) =~= sub.map_values(m).push(m(results.last())));
        } else {
            assert(results.filter(f) == sub);
        }
    }
}

impl Aggregator {
    /// An aggregator that has received nothing.
    pub fn new() -> (r: Aggregator)
        ensures
            r@ == Seq::<(MonitoredView, FeedUpdateKind)>::empty(),
    {
        let r = Aggregator { updates: Vec::new() };
        assert(r@ =~= Seq::<(MonitoredView, FeedUpdateKind)>::empty());
        r
    }

    /// Takes one feed's result: keeps the feed when the result classifies as an update,
    /// and then gives the feed with the observation to record. A failed or unchanged
    /// feed is neither kept nor recorded.
    pub fn receive(&mut self, feed: MonitoredFeed, check_result: Option<FeedCheckResult>) -> (r: Option<
        (MonitoredFeed, FeedCheckResult),
    >)
        ensures
            r is Some <==> process_spec(feed@, opt_check_view(check_result)) is Some,
            r matches Some((f, c)) ==> f@ == feed@ && opt_check_view(check_result) == Some(c@),
            final(self)@ == match process_spec(feed@, opt_check_view(check_result)) {
                Some(k) => old(self)@.push((feed@, k)),
                None => old(self)@,
            },
    {
        match process_feed(&feed, check_result) {
            Some((k, check)) => {
                let record = feed.copy();
                let ghost before = self.updates@;
                let ghost f = feed@;
                self.updates.push((feed, k));
                assert(updates_view(self.updates@) =~= updates_view(before).push((f, k)));
                Some((record, check))
            },
            None => None,
        }
    }

    /// The updates kept, in the order their results arrived.
    pub fn into_updates(self) -> (r: Vec<(MonitoredFeed, FeedUpdateKind)>)
        ensures
            updates_view(r@) == self@,
    {
        self.updates
    }
}

/// The report line of one update.
pub open spec fn update_line(url: Seq<char>, kind: FeedUpdateKind) -> Seq<char> {
    match kind {
        FeedUpdateKind::NewArticle => "NewArticle at "@ + url + "\n"@,
        FeedUpdateKind::FirstCheck => "FirstCheck for "@ + url + "\n"@,
        FeedUpdateKind::LastArticle => "LastArticle updated for "@ + url + "\n"@,
        FeedUpdateKind::Title => "Title updated for "@ + url + "\n"@,
    }
}

/// The report of a run: one line per update, in order.
pub open spec fn report_text(updates: Seq<(MonitoredView, FeedUpdateKind)>) -> Seq<char>
    decreases updates.len(),
{
    if updates.len() == 0 {
        Seq::empty()
    } else {
        report_text(updates.drop_last()) + update_line(updates.last().0.url, updates.last().1)
    }
}

/// A report to deliver.
pub enum Notification {
    /// A mail sent through the mail service with `token`.
    Email { token: String, to: String, from: String, subject: String, content: String },
    /// Text printed on the standard output.
    Stdout { content: String },
}

/// The sender of report mails.
pub open spec fn report_sender() -> Seq<char> {
    "good-morning@chartios.com"@
}

/// The subject of report mails.
pub open spec fn report_subject() -> Seq<char> {
    "New blog posts"@
}

/// The notification of a run's report under `config`, if the report has any line.
pub open spec fn notification_for(config: Config, text: Seq<char>, n: Notification) -> bool {
    match n {
        Notification::Email { token, to, from, subject, content } => {
            &&& config.report_type == ReportType::Email
            &&& token@ == config.sendgrid_token@
            &&& to@ == config.mail_to@
            &&& from@ == report_sender()
            &&& subject@ == report_subject()
            &&& content@ == text
        },
        Notification::Stdout { content } => config.report_type == ReportType::Stdout && content@ == text,
    }
}

fn append_line(content: &mut String, url: &String, kind: FeedUpdateKind)
    ensures
        final(content)@ == old(content)@ + update_line(url@, kind),
{
    match kind {
        FeedUpdateKind::NewArticle => content.append("NewArticle at "),
        FeedUpdateKind::FirstCheck => content.append("FirstCheck for "),
        FeedUpdateKind::LastArticle => content.append("LastArticle updated for "),
        FeedUpdateKind::Title => content.append("Title updated for "),
    }
    content.append(url.as_str());
    content.append("\n");
    assert(final(content)@ =~= old(content)@ + update_line(url@, kind));
}

/// Builds the report of a run. A run calls this once, with all its updates, even when
/// there are none; there is nothing to deliver when the report has no line.
pub fn notify_updates(config: &Config, updates: Vec<(MonitoredFeed, FeedUpdateKind)>) -> (r: Option<Notification>)
    ensures
        report_text(updates_view(updates@)).len() == 0 <==> r is None,
        r matches Some(n) ==> notification_for(*config, report_text(updates_view(updates@)), n),
{
    let mut content = String::new();
    let mut i: usize = 0;
    while i < updates.len()
        invariant
            i <= updates@.len(),
            content@ == report_text(updates_view(updates@.take(i as int))),
        decreases updates@.len() - i,
    {
        let (feed, kind) = &updates[i];
        proof {
            assert(updates@.take(i + 1).drop_last() =~= updates@.take(i as int));
            assert(updates_view(updates@.take(i + 1)).drop_last() =~= updates_view(updates@.take(i as int)));
        }
        append_line(&mut content, &feed.url, *kind);
        i = i + 1;
    }
    assert(updates@.take(updates@.len() as int) =~= updates@);
    if content.as_str().is_empty() {
        return None;
    }
    match config.report_type {
        ReportType::Email => Some(
            Notification::Email {
                token: config.sendgrid_token.clone(),
                to: config.mail_to.clone(),
                from: "good-morning@chartios.com".to_owned(),
                subject: "New blog posts".to_owned(),
                content,
            },
        ),
        ReportType::Stdout => Some(Notification::Stdout { content }),
    }
}

} // verus!
