use good_morning::common::GoodMorningError;
use good_morning::rss::parse_rss_feed;

const RSS_SAMPLE: &str = r#"
        <?xml version="1.0"?>
        <rss version="2.0">
            <channel>
                <title>Liftoff News</title>
                <link>http://liftoff.msfc.nasa.gov/</link>
                <description>Liftoff to Space Exploration.</description>
                <language>en-us</language>
                <pubDate>Tue, 10 Jun 2003 04:00:00 GMT</pubDate>
                <lastBuildDate>Tue, 10 Jun 2003 09:41:01 GMT</lastBuildDate>
                <docs>http://blogs.law.harvard.edu/tech/rss</docs>
                <generator>Weblog Editor 2.0</generator>
                <managingEditor>editor@example.com</managingEditor>
                <webMaster>webmaster@example.com</webMaster>
                <item>
                    <title>The Engine That Does More</title>
                    <link>http://liftoff.msfc.nasa.gov/news/2003/news-VASIMR.asp</link>
                    <description>Before man travels to Mars, N...would do that.</description>
                    <pubDate>Tue, 27 May 2003 08:37:32 GMT</pubDate>
                    <guid>http://liftoff.msfc.nasa.gov/2003/05/27.html#item571</guid>
                </item>
                <item>
                    <title>Astronauts' Dirty Laundry</title>
                    <link>http://liftoff.msfc.nasa.gov/news/2003/news-laundry.asp</link>
                    <description>Compared to earlier spacecraf...ther options.</description>
                    <pubDate>Tue, 20 May 2003 08:56:02 GMT</pubDate>
                    <guid>http://liftoff.msfc.nasa.gov/2003/05/20.html#item570</guid>
                </item>
            </channel>
        </rss>
    "#;

#[test]
fn rss_should_parse_rss_sample_properly() {
    let feed = parse_rss_feed(RSS_SAMPLE).unwrap();
    let channel = feed.channels.first().unwrap();

    assert_eq!(channel.title, "Liftoff News");
    assert_eq!(channel.link, "http://liftoff.msfc.nasa.gov/");
    assert_eq!(
        channel.last_build_date,
        Some("Tue, 10 Jun 2003 09:41:01 GMT".to_string())
    );

    let item = &channel.items[0];

    assert_eq!(item.title, Some("The Engine That Does More".to_string()));
    assert_eq!(
        item.link,
        Some("http://liftoff.msfc.nasa.gov/news/2003/news-VASIMR.asp".to_string())
    );
    assert_eq!(
        item.guid,
        Some("http://liftoff.msfc.nasa.gov/2003/05/27.html#item571".to_string())
    );
    assert_eq!(
        item.pub_date,
        Some("Tue, 27 May 2003 08:37:32 GMT".to_string())
    );

    let item = &channel.items[1];

    assert_eq!(item.title, Some("Astronauts' Dirty Laundry".to_string()));
    assert_eq!(
        item.link,
        Some("http://liftoff.msfc.nasa.gov/news/2003/news-laundry.asp".to_string())
    );
    assert_eq!(
        item.guid,
        Some("http://liftoff.msfc.nasa.gov/2003/05/20.html#item570".to_string())
    );
    assert_eq!(
        item.pub_date,
        Some("Tue, 20 May 2003 08:56:02 GMT".to_string())
    );
}

#[test]
fn rss_should_fail_on_invalid_xml() {
    let rss_sample = r#"
        <?xml version="1.0"?>
        <rss version="2.0">
            <channel>
                <title>Liftoff News</title>
                <link>http://liftoff.msfc.nasa.gov/</link
                <pubDate>Tue, 10 Jun 2003 04:00:00 GMT</pubDate>
                <lastBuildDate>Tue, 10 Jun 2003 09:41:01 GMT</lastBuildDate>
               
                <item>
                    <title>Astronauts' Dirty Laundry</title>
                    <link>http://liftoff.msfc.nasa.gov/news/2003/news-laundry.asp</link>
                    <pubDate>Tue, 20 May 2003 08:56:02 GMT</pubDate>
                    <guid>http://liftoff.msfc.nasa.gov/2003/05/20.html#item570</guid>
                </item>
            </channel>
        </rss>
    "#;

    assert!(parse_rss_feed(rss_sample).is_err());
}

#[test]
fn rss_should_fail_on_empty_xml() {
    let rss_sample = r#"  "#;

    assert!(parse_rss_feed(rss_sample).is_err());
}

#[test]
fn should_fail_on_empty_items() {
    let rss_sample = r#"
        <?xml version="1.0"?>
        <rss version="2.0">
            <channel>
                <title>Liftoff News</title>
                <link>http://liftoff.msfc.nasa.gov/</link>
                <pubDate>Tue, 10 Jun 2003 04:00:00 GMT</pubDate>
                <lastBuildDate>Tue, 10 Jun 2003 09:41:01 GMT</lastBuildDate>
               
            </channel>
        </rss>
    "#;

    assert!(parse_rss_feed(rss_sample).is_err());
}

#[test]
fn rss_should_fail_on_missing_fields() {
    let rss_sample = r#"
        <?xml version="1.0"?>
        <rss version="2.0">
            <channel>
                <link>http://liftoff.msfc.nasa.gov/</link
                <pubDate>Tue, 10 Jun 2003 04:00:00 GMT</pubDate>
                <lastBuildDate>Tue, 10 Jun 2003 09:41:01 GMT</lastBuildDate>
               
                <item>
                    <title>Astronauts' Dirty Laundry</title>
                    <link>http://liftoff.msfc.nasa.gov/news/2003/news-laundry.asp</link>
                    <pubDate>Tue, 20 May 2003 08:56:02 GMT</pubDate>
                    <guid>http://liftoff.msfc.nasa.gov/2003/05/20.html#item570</guid>
                </item>
            </channel>
        </rss>
    "#;

    assert!(parse_rss_feed(rss_sample).is_err());
}

#[test]
fn rss_empty_document_is_empty() {
    assert!(matches!(parse_rss_feed(""), Err(GoodMorningError::Empty)));
}

#[test]
fn rss_item_count_and_first_item() {
    let feed = parse_rss_feed(RSS_SAMPLE).unwrap();
    assert_eq!(feed.channels.len(), 1);
    assert_eq!(feed.channels[0].items.len(), 2);
    assert_eq!(feed.channels[0].items[0].title.as_deref(), Some("The Engine That Does More"));
}

#[test]
fn rss_whitespace_document_misses_info() {
    assert!(matches!(parse_rss_feed("  "), Err(GoodMorningError::MissingFeedInfo)));
}

#[test]
fn rss_mismatched_tag_is_markup_error() {
    let doc = "<rss><channel><title>T</titel></channel></rss>";
    assert!(matches!(parse_rss_feed(doc), Err(GoodMorningError::XmlParse(_))));
}

#[test]
fn rss_text_is_unescaped() {
    let doc = "<rss><channel><title>Tom &amp; Jerry</title><link>http://a/</link>\
               <item><title>a &lt; b</title><guid>g1</guid></item></channel></rss>";
    let feed = parse_rss_feed(doc).unwrap();
    assert_eq!(feed.channels[0].title, "Tom & Jerry");
    assert_eq!(feed.channels[0].items[0].title.as_deref(), Some("a < b"));
    assert_eq!(feed.channels[0].items[0].guid.as_deref(), Some("g1"));
    assert_eq!(feed.channels[0].items[0].link, None);
}

#[test]
fn rss_only_well_formed_channels_are_kept() {
    let doc = "<rss><channel><title>No items</title><link>http://a/</link></channel>\
               <channel><title>Second</title><link>http://b/</link><item><title>x</title></item></channel></rss>";
    let feed = parse_rss_feed(doc).unwrap();
    assert_eq!(feed.channels.len(), 1);
    assert_eq!(feed.channels[0].title, "Second");
}

#[test]
fn rss_cdata_and_comments_are_part_of_the_text() {
    let doc = "<rss><channel><title><![CDATA[T]]></title><link>http://a/</link>\
               <item><title><![CDATA[x & y]]></title><guid>g<!--c-->0</guid></item>\
               <item><title>A<!--c-->B</title></item></channel></rss>";
    let feed = parse_rss_feed(doc).unwrap();
    assert_eq!(feed.channels[0].title, "T");
    assert_eq!(feed.channels[0].items.len(), 2);
    assert_eq!(feed.channels[0].items[0].title.as_deref(), Some("x & y"));
    assert_eq!(feed.channels[0].items[0].guid.as_deref(), Some("g0"));
    assert_eq!(feed.channels[0].items[1].title.as_deref(), Some("AB"));
}

#[test]
fn rss_only_direct_children_give_fields() {
    let doc = "<rss><channel><title>Chan</title><link>http://a/</link>\
               <image><title>Logo</title><link>http://a/logo.png</link></image>\
               <item><title>I</title><source><title>Elsewhere</title></source></item></channel></rss>";
    let feed = parse_rss_feed(doc).unwrap();
    assert_eq!(feed.channels[0].title, "Chan");
    assert_eq!(feed.channels[0].link, "http://a/");
    assert_eq!(feed.channels[0].items[0].title.as_deref(), Some("I"));
}

#[test]
fn rss_nested_markup_in_a_field_is_read_as_text() {
    let doc = "<rss><channel><title>T</title><link>http://a/</link>\
               <item><title>x<b>y</b>z</title></item></channel></rss>";
    let feed = parse_rss_feed(doc).unwrap();
    assert_eq!(feed.channels[0].items[0].title.as_deref(), Some("xyz"));
}
