use std::cell::RefCell;
use std::str::FromStr;

use good_morning::common::{
    Config, FeedCheckResult, FeedType, FeedUpdateKind, MonitoredFeed, ReportType,
    SubscriptionRepository,
};
use good_morning::pipeline::{classify, get_update_kind, notify_updates, process_feed, Aggregator, Notification};
use good_morning::syndication::{check_atom, check_feed, check_rss};

fn observation(title: &str, guid: Option<&str>, date: Option<&str>) -> FeedCheckResult {
    FeedCheckResult {
        check_date: "2024-01-01T00:00:00+00:00".to_string(),
        title: title.to_string(),
        pub_date: None,
        last_article_title: None,
        last_article_guid: guid.map(|g| g.to_string()),
        last_article_pub_date: date.map(|d| d.to_string()),
        last_article_hash: Some("None".to_string()),
    }
}

fn monitored(id: u32, url: &str, last: Option<FeedCheckResult>) -> MonitoredFeed {
    MonitoredFeed { id, url: url.to_string(), kind: FeedType::Rss, last_check: last }
}

struct MemoryRepository {
    feeds: Vec<MonitoredFeed>,
    checks: RefCell<Vec<(u32, FeedCheckResult)>>,
    subs: RefCell<Vec<(String, FeedType)>>,
}

impl MemoryRepository {
    fn new(feeds: Vec<MonitoredFeed>) -> MemoryRepository {
        MemoryRepository { feeds, checks: RefCell::new(Vec::new()), subs: RefCell::new(Vec::new()) }
    }
}

impl SubscriptionRepository for MemoryRepository {
    fn init(&self) {}

    fn get_monitored_feeds(&self) -> Vec<MonitoredFeed> {
        self.feeds.clone()
    }

    fn add_sub(&self, url: &str, kind: FeedType) {
        self.subs.borrow_mut().push((url.to_string(), kind));
    }

    fn add_check(&self, feed: &MonitoredFeed, check: &FeedCheckResult) {
        self.checks.borrow_mut().push((feed.id, check.clone()));
    }
}

#[test]
fn title_change_wins_over_new_guid() {
    let previous = observation("A", Some("g1"), Some("d1"));
    let current = observation("B", Some("g2"), Some("d2"));
    assert_eq!(classify(&Some(previous.clone()), &current), Some(FeedUpdateKind::Title));
    assert_eq!(
        classify(&Some(previous.clone()), &current),
        classify(&Some(previous), &current)
    );
}

#[test]
fn no_history_is_first_check() {
    let current = observation("A", None, None);
    assert_eq!(classify(&None, &current), Some(FeedUpdateKind::FirstCheck));
    let feed = monitored(1, "http://a/", None);
    assert_eq!(get_update_kind(&feed, &current), Some(FeedUpdateKind::FirstCheck));
}

#[test]
fn guid_then_date_precedence() {
    let previous = observation("A", Some("g1"), Some("d1"));
    assert_eq!(
        classify(&Some(previous.clone()), &observation("A", Some("g2"), Some("d2"))),
        Some(FeedUpdateKind::NewArticle)
    );
    assert_eq!(
        classify(&Some(previous.clone()), &observation("A", Some("g1"), Some("d2"))),
        Some(FeedUpdateKind::LastArticle)
    );
    assert_eq!(classify(&Some(previous.clone()), &observation("A", Some("g1"), Some("d1"))), None);
    assert_eq!(
        classify(&Some(previous), &observation("A", None, Some("d1"))),
        Some(FeedUpdateKind::NewArticle)
    );
}

#[test]
fn comparison_is_case_sensitive() {
    let previous = observation("News", Some("g1"), None);
    assert_eq!(
        classify(&Some(previous), &observation("news", Some("g1"), None)),
        Some(FeedUpdateKind::Title)
    );
}

#[test]
fn three_feeds_one_new_article() {
    let unchanged_prev = observation("U", Some("same"), Some("d"));
    let changed_prev = observation("C", Some("old"), Some("d"));
    let failing = monitored(1, "http://failing/", Some(observation("F", Some("f"), None)));
    let unchanged = monitored(2, "http://unchanged/", Some(unchanged_prev));
    let changed = monitored(3, "http://changed/", Some(changed_prev));
    let repo = MemoryRepository::new(vec![]);

    let mut aggregator = Aggregator::new();
    let results = vec![
        (failing, None),
        (unchanged, Some(observation("U", Some("same"), Some("d")))),
        (changed, Some(observation("C", Some("new"), Some("d")))),
    ];
    for (feed, check) in results {
        if let Some((recorded, c)) = aggregator.receive(feed, check) {
            repo.add_check(&recorded, &c);
        }
    }
    let updates = aggregator.into_updates();
    assert_eq!(updates.len(), 1);
    assert_eq!(updates[0].0.id, 3);
    assert_eq!(updates[0].1, FeedUpdateKind::NewArticle);

    let checks = repo.checks.borrow();
    assert_eq!(checks.len(), 1);
    assert_eq!(checks[0].0, 3);
    assert_eq!(checks[0].1.last_article_guid.as_deref(), Some("new"));
}

#[test]
fn three_feeds_in_another_order() {
    let mut aggregator = Aggregator::new();
    let changed = monitored(3, "http://changed/", Some(observation("C", Some("old"), None)));
    let unchanged = monitored(2, "http://unchanged/", Some(observation("U", Some("same"), None)));
    let failing = monitored(1, "http://failing/", None);
    assert!(aggregator.receive(changed, Some(observation("C", Some("new"), None))).is_some());
    assert!(aggregator.receive(failing, None).is_none());
    assert!(aggregator.receive(unchanged, Some(observation("U", Some("same"), None))).is_none());
    let updates = aggregator.into_updates();
    assert_eq!(updates.len(), 1);
    assert_eq!((updates[0].0.id, updates[0].1), (3, FeedUpdateKind::NewArticle));
}

#[test]
fn process_feed_records_only_updates() {
    let feed = monitored(7, "http://a/", None);
    assert!(process_feed(&feed, None).is_none());
    match process_feed(&feed, Some(observation("A", None, None))) {
        Some((kind, check)) => {
            assert_eq!(kind, FeedUpdateKind::FirstCheck);
            assert_eq!(check.title, "A");
        }
        None => panic!("a first check is recorded"),
    }
    let seen = monitored(8, "http://b/", Some(observation("B", Some("g"), None)));
    assert!(process_feed(&seen, Some(observation("B", Some("g"), None))).is_none());
}

fn config(report_type: ReportType) -> Config {
    Config {
        sendgrid_token: "SECRET-REDACTED".to_string(),
        mail_to: "me@example.com".to_string(),
        report_type,
    }
}

#[test]
fn zero_feeds_give_an_empty_report() {
    let repo = MemoryRepository::new(vec![]);
    let mut aggregator = Aggregator::new();
    for feed in repo.get_monitored_feeds() {
        if let Some((recorded, c)) = aggregator.receive(feed, None) {
            repo.add_check(&recorded, &c);
        }
    }
    let updates = aggregator.into_updates();
    assert!(updates.is_empty());
    assert!(notify_updates(&config(ReportType::Email), updates).is_none());
    assert_eq!(repo.checks.borrow().len(), 0);
}

#[test]
fn report_lines_for_each_kind() {
    let updates = vec![
        (monitored(1, "http://a/", None), FeedUpdateKind::NewArticle),
        (monitored(2, "http://b/", None), FeedUpdateKind::FirstCheck),
        (monitored(3, "http://c/", None), FeedUpdateKind::LastArticle),
        (monitored(4, "http://d/", None), FeedUpdateKind::Title),
    ];
    match notify_updates(&config(ReportType::Stdout), updates) {
        Some(Notification::Stdout { content }) => assert_eq!(
            content,
            "NewArticle at http://a/\nFirstCheck for http://b/\nLastArticle updated for http://c/\nTitle updated for http://d/\n"
        ),
        _ => panic!("expected a report on the standard output"),
    }
}

#[test]
fn report_by_mail() {
    let updates = vec![(monitored(1, "http://a/", None), FeedUpdateKind::NewArticle)];
    match notify_updates(&config(ReportType::Email), updates) {
        Some(Notification::Email { token, to, from, subject, content }) => {
            assert_eq!(token, "SECRET-REDACTED");
            assert_eq!(to, "me@example.com");
            assert_eq!(from, "good-morning@chartios.com");
            assert_eq!(subject, "New blog posts");
            assert_eq!(content, "NewArticle at http://a/\n");
        }
        _ => panic!("expected a mail"),
    }
}

const RSS_DOC: &str = "<rss><channel><title>Chan</title><link>http://c/</link>\
    <lastBuildDate>b1</lastBuildDate><item><title>I1</title><guid>g1</guid><pubDate>p1</pubDate></item>\
    <item><title>I2</title></item></channel></rss>";

#[test]
fn rss_observation_takes_first_item() {
    let c = check_rss(RSS_DOC, "now".to_string()).unwrap();
    assert_eq!(c.check_date, "now");
    assert_eq!(c.title, "Chan");
    assert_eq!(c.pub_date.as_deref(), Some("b1"));
    assert_eq!(c.last_article_title.as_deref(), Some("I1"));
    assert_eq!(c.last_article_guid.as_deref(), Some("g1"));
    assert_eq!(c.last_article_pub_date.as_deref(), Some("p1"));
    assert_eq!(c.last_article_hash.as_deref(), Some("None"));
    assert!(check_rss("<rss></rss>", "now".to_string()).is_none());
}

#[test]
fn atom_observation_takes_first_entry() {
    let doc = r#"<feed><title>F</title><link href="http://f/"/><updated>u1</updated>
        <entry><title>E1</title><link href="http://e/1"/><id>id1</id><updated>t1</updated></entry>
        <entry><title>E2</title><link href="http://e/2"/><id>id2</id><updated>t2</updated></entry></feed>"#;
    let c = check_atom(doc, "now".to_string()).unwrap();
    assert_eq!(c.title, "F");
    assert_eq!(c.pub_date.as_deref(), Some("u1"));
    assert_eq!(c.last_article_title.as_deref(), Some("E1"));
    assert_eq!(c.last_article_guid.as_deref(), Some("id1"));
    assert_eq!(c.last_article_pub_date.as_deref(), Some("t1"));
}

#[test]
fn check_feed_dispatches_on_kind_and_dates() {
    let feed = monitored(1, "http://c/", None);
    let c = check_feed(&feed, RSS_DOC).unwrap();
    assert_eq!(c.title, "Chan");
    assert!(!c.check_date.is_empty());
    let atom = MonitoredFeed { kind: FeedType::Atom, ..feed };
    assert!(check_feed(&atom, RSS_DOC).is_none());
}

#[test]
fn feed_type_names() {
    assert_eq!(FeedType::from_str("rss"), Ok(FeedType::Rss));
    assert_eq!(FeedType::from_str("atom"), Ok(FeedType::Atom));
    assert_eq!(FeedType::from_str("RSS"), Err("Unknown FeedType RSS".to_string()));
    assert_eq!(FeedType::Rss.to_string(), "rss");
    assert_eq!(FeedType::Atom.to_string(), "atom");
    assert_eq!(FeedType::from_name("atom"), Some(FeedType::Atom));
}
