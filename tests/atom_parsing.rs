use good_morning::atom::parse_atom_feed;
use good_morning::common::GoodMorningError;

#[test]
fn should_parse_atom_sample_properly() {
    let atom_sample = r#"
        <?xml version="1.0" encoding="utf-8"?>
        <feed xmlns="http://www.w3.org/2005/Atom">

            <title>Example Feed</title>
            <link href="http://example.org/"/>
            <updated>2003-12-13T18:30:02Z</updated>
            <author>
            <name>John Doe</name>
            </author>
            <id>urn:uuid:60a76c80-d399-11d9-b93C-0003939e0af6</id>

            <entry>
                <title>Atom-Powered Robots Run Amok</title>
                <link href="http://example.org/2003/12/13/atom03"/>
                <id>urn:uuid:1225c695-cfb8-4ebb-aaaa-80da344efa6a</id>
                <updated>2003-12-13T18:30:02Z</updated>
                <summary>Some text.</summary>
            </entry>
        </feed>    
    "#;
    let feed = parse_atom_feed(atom_sample).unwrap();

    assert_eq!(feed.title, "Example Feed");
    assert_eq!(feed.link, "http://example.org/");
    assert_eq!(feed.updated, "2003-12-13T18:30:02Z");

    let entry = feed.entries.first().unwrap();

    assert_eq!(entry.title, "Atom-Powered Robots Run Amok");
    assert_eq!(entry.link, "http://example.org/2003/12/13/atom03");
    assert_eq!(entry.guid, "urn:uuid:1225c695-cfb8-4ebb-aaaa-80da344efa6a");
    assert_eq!(entry.updated, "2003-12-13T18:30:02Z");
}

#[test]
fn atom_should_fail_on_invalid_xml() {
    let atom_sample = r#"
        <?xml version="1.0" encoding="utf-8"?>
        <feed xmlns="http://www.w3.org/2005/Atom">

            <title>Example Feed</title>
            <link href="http://example.org/"/>
            <updated>2003-12-13T18:30:02Z</updated>
            <author>
            <name>John Doe
            </author>
            <id>urn:uuid:60a76c80-d399-11d9-b93C-0003939e0af6</id>

            <entry>
                <title>Atom-Powered Robots Run Amok</title>
                <link href="http://example.org/2003/12/13/atom03"/>
                <id>urn:uuid:1225c695-cfb8-4ebb-aaaa-80da344efa6a</id>
                <updated>2003-12-13T18:30:02Z</updated>
                <summary>Some text.</summary>
            </entry>
        </feed>    
    "#;

    assert!(parse_atom_feed(atom_sample).is_err());
}

#[test]
fn atom_should_fail_on_empty_xml() {
    let atom_sample = r#"  "#;

    assert!(parse_atom_feed(atom_sample).is_err());
}

#[test]
fn should_fail_on_empty_entries() {
    let atom_sample = r#"
        <?xml version="1.0" encoding="utf-8"?>
        <feed xmlns="http://www.w3.org/2005/Atom">

            <title>Example Feed</title>
            <link href="http://example.org/"/>
            <updated>2003-12-13T18:30:02Z</updated>
            <author>
            <name>John Doe
            </author>
            <id>urn:uuid:60a76c80-d399-11d9-b93C-0003939e0af6</id>

        </feed>    
    "#;

    assert!(parse_atom_feed(atom_sample).is_err());
}

#[test]
fn atom_should_fail_on_missing_fields() {
    let atom_sample = r#"
        <?xml version="1.0" encoding="utf-8"?>
        <feed xmlns="http://www.w3.org/2005/Atom">
            <title>Example Feed</title>
            <link href="http://example.org/"/>
            <updated>2003-12-13T18:30:02Z</updated>
            <id>urn:uuid:60a76c80-d399-11d9-b93C-0003939e0af6</id>
            <entry>
                <title>Atom-Powered Robots Run Amok</title>
                <link href="http://example.org/2003/12/13/atom03"/>
                <id>urn:uuid:1225c695-cfb8-4ebb-aaaa-80da344efa6a</id>
                <updated></updated>
            </entry>
        </feed>    
    "#;

    assert!(parse_atom_feed(atom_sample).is_err());

    let atom_sample = r#"
        <?xml version="1.0" encoding="utf-8"?>
        <feed xmlns="http://www.w3.org/2005/Atom">
            <title>Example Feed</title>
            <link href=""/>
            <updated>2003-12-13T18:30:02Z</updated>
            <id>urn:uuid:60a76c80-d399-11d9-b93C-0003939e0af6</id>
            <entry>
                <title>Atom-Powered Robots Run Amok</title>
                <link href="http://example.org/2003/12/13/atom03"/>
                <id>urn:uuid:1225c695-cfb8-4ebb-aaaa-80da344efa6a</id>
                <updated>2003-12-13T18:30:02Z</updated>
            </entry>
        </feed>    
    "#;

    assert!(parse_atom_feed(atom_sample).is_err());
}

#[test]
fn atom_empty_document_is_empty() {
    assert!(matches!(parse_atom_feed(""), Err(GoodMorningError::Empty)));
}

#[test]
fn atom_without_updated_misses_info() {
    let doc = r#"<feed><title>F</title><link href="http://f/"/>
        <entry><title>E</title><link href="http://e/"/><id>e1</id><updated>2003-12-13T18:30:02Z</updated></entry>
        </feed>"#;
    assert!(matches!(parse_atom_feed(doc), Err(GoodMorningError::MissingFeedInfo)));
}

#[test]
fn atom_link_without_href_misses_info() {
    let doc = r#"<feed><title>F</title><link rel="self"/><updated>u</updated></feed>"#;
    assert!(matches!(parse_atom_feed(doc), Err(GoodMorningError::MissingFeedInfo)));
}

#[test]
fn atom_href_is_unescaped() {
    let doc = r#"<feed><title>F</title><link rel="alternate" href="http://f/?a=1&amp;b=2"/><updated>u</updated>
        <entry><title>E</title><link href="http://e/"/><id>e1</id><updated>d</updated></entry></feed>"#;
    let feed = parse_atom_feed(doc).unwrap();
    assert_eq!(feed.link, "http://f/?a=1&b=2");
    assert_eq!(feed.entries.len(), 1);
    assert_eq!(feed.entries[0].guid, "e1");
}

#[test]
fn atom_malformed_attribute_is_markup_error() {
    let doc = r#"<feed><title>F</title><link href=http://f/ /><updated>u</updated></feed>"#;
    assert!(matches!(parse_atom_feed(doc), Err(GoodMorningError::XmlParse(_))));
}

#[test]
fn atom_updated_under_author_is_not_the_feed_date() {
    let doc = r#"<feed><title>F</title><link href="http://f/"/><author><updated>u</updated></author>
        <entry><title>E</title><link href="http://e/"/><id>e1</id><updated>d</updated></entry></feed>"#;
    assert!(matches!(parse_atom_feed(doc), Err(GoodMorningError::MissingFeedInfo)));
}

#[test]
fn atom_cdata_title_is_read() {
    let doc = r#"<feed><title>F</title><link href="http://f/"/><updated>u</updated>
        <entry><title><![CDATA[E <1>]]></title><link href="http://e/"/><id>e1</id><updated>d</updated></entry></feed>"#;
    let feed = parse_atom_feed(doc).unwrap();
    assert_eq!(feed.entries[0].title, "E <1>");
}

#[test]
fn atom_source_inside_entry_keeps_entry_fields() {
    let doc = r#"<feed><title>F</title><link href="http://f/"/><updated>u</updated>
        <entry><title>E</title><link href="http://e/"/><id>e1</id><updated>d</updated>
        <source><title>S</title><id>s1</id><link href="http://s/"/><updated>x</updated></source></entry></feed>"#;
    let feed = parse_atom_feed(doc).unwrap();
    assert_eq!(feed.entries[0].title, "E");
    assert_eq!(feed.entries[0].guid, "e1");
    assert_eq!(feed.entries[0].link, "http://e/");
    assert_eq!(feed.entries[0].updated, "d");
}
