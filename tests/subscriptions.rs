use good_morning::common::{FeedCheckResult, FeedType, MonitoredFeed};
use good_morning::import::{import_subscriptions, list_subscription, read_csv, read_csv_line, subscription_line};

fn lines(text: &[&str]) -> Vec<String> {
    text.iter().map(|l| l.to_string()).collect()
}

#[test]
fn csv_lines_are_read_after_header() {
    let subs = read_csv(&lines(&[
        "url,kind",
        "http://a/,rss",
        "http://b/,atom",
        "http://c/,json",
        "http://d/,rss,extra",
        "no comma",
        "http://a/,rss",
    ]));
    assert_eq!(
        subs,
        vec![("http://a/".to_string(), FeedType::Rss), ("http://b/".to_string(), FeedType::Atom)]
    );
    assert!(read_csv(&lines(&["http://a/,rss"])).is_empty());
    assert!(read_csv(&Vec::new()).is_empty());
}

#[test]
fn csv_line_needs_two_columns() {
    assert_eq!(read_csv_line("http://x/,atom"), Some(("http://x/".to_string(), FeedType::Atom)));
    assert_eq!(read_csv_line(",rss"), Some((String::new(), FeedType::Rss)));
    assert_eq!(read_csv_line("http://x/,"), None);
    assert_eq!(read_csv_line("a,b,c"), None);
}

#[test]
fn only_new_subscriptions_are_added() {
    let existing = vec![MonitoredFeed {
        id: 1,
        url: "http://a/".to_string(),
        kind: FeedType::Rss,
        last_check: None,
    }];
    let subs = vec![
        ("http://a/".to_string(), FeedType::Rss),
        ("http://a/".to_string(), FeedType::Atom),
        ("http://b/".to_string(), FeedType::Rss),
    ];
    assert_eq!(
        import_subscriptions(&existing, &subs),
        vec![("http://a/".to_string(), FeedType::Atom), ("http://b/".to_string(), FeedType::Rss)]
    );
}

#[test]
fn listing_lines() {
    let mut feed = MonitoredFeed { id: 1, url: "http://a/".to_string(), kind: FeedType::Rss, last_check: None };
    assert_eq!(subscription_line(&feed), "http://a/ (last update: Never seen)");
    feed.last_check = Some(FeedCheckResult {
        check_date: "2024-05-01".to_string(),
        title: "T".to_string(),
        pub_date: None,
        last_article_title: None,
        last_article_guid: None,
        last_article_pub_date: None,
        last_article_hash: None,
    });
    assert_eq!(subscription_line(&feed), "http://a/ (last update: 2024-05-01)");
}

#[test]
fn listing_of_feeds() {
    let feeds = vec![
        MonitoredFeed { id: 1, url: "http://a/".to_string(), kind: FeedType::Rss, last_check: None },
        MonitoredFeed { id: 2, url: "http://b/".to_string(), kind: FeedType::Atom, last_check: None },
    ];
    assert_eq!(
        list_subscription(&feeds),
        vec!["http://a/ (last update: Never seen)".to_string(), "http://b/ (last update: Never seen)".to_string()]
    );
    assert!(list_subscription(&Vec::new()).is_empty());
}
