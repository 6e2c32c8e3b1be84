use dpn_reader::feed::{
    atom_feed_items, choose_epoch, choose_format, feed_format, json_feed_items,
    parse_datetime_epoch, rss_feed_items, xml_feed_items, AtomEntry, FeedFormat, JsonFeed,
    JsonFeedItem, RssEntry,
};
use dpn_reader::newsboat::parse_newsboat_urls;
use dpn_reader::opml::{opml_rows, parse_opml, OpmlError, XmlAttribute, XmlEvent};

fn some(s: &str) -> Option<String> {
    Some(s.to_string())
}

fn row(url: &str, title: &str, category: &str) -> (String, String, String) {
    (url.to_string(), title.to_string(), category.to_string())
}

#[test]
fn dates_of_both_kinds() {
    assert_eq!(parse_datetime_epoch("Tue, 1 Jul 2003 10:52:37 +0200"), 1057049557);
    assert_eq!(parse_datetime_epoch("1996-12-19T16:39:57-08:00"), 851042397);
    assert_eq!(parse_datetime_epoch("1969-12-31T23:59:59Z"), -1);
    assert_eq!(parse_datetime_epoch("yesterday"), 0);
    assert_eq!(parse_datetime_epoch("  "), 0);
    assert_eq!(choose_epoch(Some(1), Some(2)), 1);
    assert_eq!(choose_epoch(None, Some(2)), 2);
    assert_eq!(choose_epoch(None, None), 0);
}

#[test]
fn format_of_a_feed() {
    assert_eq!(feed_format("Application/Feed+JSON; charset=utf-8", "http://x"), FeedFormat::Json);
    assert_eq!(feed_format("text/xml", "http://x/feed.json"), FeedFormat::Json);
    assert_eq!(feed_format("text/xml", "http://x/feed.json?a"), FeedFormat::Xml);
    assert_eq!(feed_format("", "http://x/feed.JSON"), FeedFormat::Xml);
    assert_eq!(choose_format("JSON", "http://x"), FeedFormat::Xml);
}

fn entry() -> JsonFeedItem {
    JsonFeedItem {
        title: None,
        url: None,
        external_url: None,
        date_published: None,
        date_modified: None,
        summary: None,
        content_html: None,
        content_text: None,
    }
}

#[test]
fn json_entries() {
    let feed = JsonFeed {
        items: Some(vec![
            JsonFeedItem {
                title: some("T"),
                url: some("http://a"),
                external_url: some("http://ignored"),
                date_published: some("1996-12-19T16:39:57-08:00"),
                date_modified: some("ignored"),
                summary: some("<b>S</b>"),
                content_html: some("<i>C</i>"),
                content_text: some("ignored"),
            },
            entry(),
            JsonFeedItem { url: some(""), external_url: some("http://c"), ..entry() },
            JsonFeedItem {
                external_url: some("http://b"),
                date_modified: some("never"),
                summary: some("&lt;u&gt;"),
                ..entry()
            },
            JsonFeedItem { url: some("http://d"), content_text: some("text"), ..entry() },
        ]),
    };
    let items = json_feed_items(&feed);
    assert_eq!(items.len(), 3);
    assert_eq!(items[0].title, "T");
    assert_eq!(items[0].url, "http://a");
    assert_eq!(items[0].published_at, "1996-12-19T16:39:57-08:00");
    assert_eq!(items[0].published_ts, 851042397);
    assert_eq!(items[0].summary, "S");
    assert_eq!(items[0].content, "C");
    assert_eq!(items[1].title, "Untitled");
    assert_eq!(items[1].url, "http://b");
    assert_eq!(items[1].published_at, "never");
    assert_eq!(items[1].published_ts, 0);
    assert_eq!(items[1].summary, "<u>");
    assert_eq!(items[1].content, "");
    assert_eq!(items[2].content, "text");
    assert!(json_feed_items(&JsonFeed { items: None }).is_empty());
}

#[test]
fn rss_feed() {
    let rss = "<?xml version=\"1.0\"?><rss version=\"2.0\" \
        xmlns:content=\"http://purl.org/rss/1.0/modules/content/\"><channel><title>T</title>\
        <link>http://x</link><description>d</description>\
        <item><title>One</title><link>http://x/1</link>\
        <pubDate>Tue, 1 Jul 2003 10:52:37 +0200</pubDate>\
        <description>&lt;b&gt;Hi&lt;/b&gt;</description></item>\
        <item><title>No address</title></item>\
        <item><link>http://x/2</link><description>S</description>\
        <content:encoded>&lt;p&gt;C&lt;/p&gt;</content:encoded></item>\
        </channel></rss>";
    let items = xml_feed_items(rss.as_bytes(), "http://x").unwrap();
    assert_eq!(items.len(), 2);
    assert_eq!(items[0].title, "One");
    assert_eq!(items[0].url, "http://x/1");
    assert_eq!(items[0].published_ts, 1057049557);
    assert_eq!(items[0].summary, "Hi");
    assert_eq!(items[0].content, "Hi");
    assert_eq!(items[1].title, "Untitled");
    assert_eq!(items[1].published_at, "");
    assert_eq!(items[1].summary, "S");
    assert_eq!(items[1].content, "C");
}

#[test]
fn atom_feed() {
    let atom = "<?xml version=\"1.0\"?><feed xmlns=\"http://www.w3.org/2005/Atom\">\
        <title>T</title><id>urn:1</id><updated>2003-12-13T18:30:02Z</updated>\
        <entry><title>One</title><id>urn:2</id><updated>2003-12-13T18:30:02Z</updated>\
        <link rel=\"self\" href=\"http://x/self\"/><link href=\"http://x/1\"/>\
        <summary>S</summary></entry>\
        <entry><title>Two</title><id>urn:3</id><updated>2003-12-13T18:30:02+01:00</updated>\
        <link rel=\"self\" href=\"http://x/2\"/>\
        <content type=\"html\">&lt;p&gt;C&lt;/p&gt;</content></entry>\
        <entry><title>Three</title><id>urn:4</id><updated>2003-12-13T18:30:02Z</updated></entry>\
        </feed>";
    let items = xml_feed_items(atom.as_bytes(), "http://x").unwrap();
    assert_eq!(items.len(), 2);
    assert_eq!(items[0].title, "One");
    assert_eq!(items[0].url, "http://x/1");
    assert_eq!(items[0].published_at, "2003-12-13T18:30:02+00:00");
    assert_eq!(items[0].published_ts, 1071340202);
    assert_eq!(items[0].summary, "S");
    assert_eq!(items[0].content, "S");
    assert_eq!(items[1].url, "http://x/2");
    assert_eq!(items[1].published_ts, 1071336602);
    assert_eq!(items[1].summary, "");
    assert_eq!(items[1].content, "C");
}

#[test]
fn neither_rss_nor_atom() {
    let error = xml_feed_items(b"<html></html>", "http://x/feed").unwrap_err();
    assert_eq!(error.message(), "parse RSS/Atom failed for http://x/feed");
    assert!(xml_feed_items(b"", "http://x").is_err());
}

#[test]
fn entries_without_an_address_are_left_out() {
    let rss = vec![
        RssEntry { title: some("a"), link: some(""), pub_date: None, description: None, content: None },
        RssEntry { title: None, link: some("l"), pub_date: some("p"), description: some("d"), content: None },
    ];
    let items = rss_feed_items(&rss);
    assert_eq!(items.len(), 1);
    assert_eq!(items[0].title, "Untitled");
    assert_eq!(items[0].published_at, "p");
    assert_eq!(items[0].content, "d");
    let atom = vec![
        AtomEntry {
            title: "t".to_string(),
            links: vec![],
            updated: "u".to_string(),
            summary: None,
            content: None,
        },
        AtomEntry {
            title: "t".to_string(),
            links: vec![
                ("self".to_string(), "s".to_string()),
                ("alternate".to_string(), "a".to_string()),
            ],
            updated: "u".to_string(),
            summary: some("<b>x</b>"),
            content: None,
        },
    ];
    let items = atom_feed_items(&atom);
    assert_eq!(items.len(), 1);
    assert_eq!(items[0].url, "a");
    assert_eq!(items[0].content, "x");
}

#[test]
fn newsboat_list() {
    let list = "http://first.org/rss\n## Tech ##\r\n\nhttp://a.com/feed \"~My Feed\" tag\n\
                not an address\nftp://x\n  https://b.org/x  extra \"\"\n# \nhttps://c.org \" ~ c \"\n";
    assert_eq!(
        parse_newsboat_urls(Some(list)),
        vec![
            row("http://first.org/rss", "http://first.org/rss", ""),
            row("http://a.com/feed", "My Feed", "Tech ##"),
            row("https://b.org/x", "https://b.org/x", "Tech ##"),
            row("https://c.org", "~ c", ""),
        ]
    );
    assert!(parse_newsboat_urls(None).is_empty());
    assert!(parse_newsboat_urls(Some("")).is_empty());
}

#[test]
fn opml_list() {
    let list = "<?xml version=\"1.0\"?><opml><head><title>x</title></head><body>\
        <outline title=\"Sec &amp; tion\">\
        <outline text=\"A\" title=\"ignored\" xmlUrl=\"http://a/feed\"></outline>\
        <outline title=\"B\" xmlurl=\"http://b/feed?x=1&amp;y=2\"></outline>\
        </outline>\
        <outline text=\"Two\"><outline xmlUrl=\"http://c\"></outline></outline>\
        <outline text=\"Empty\" xmlUrl=\"http://d\"/>\
        </body></opml>";
    assert_eq!(
        parse_opml(Some(list)).unwrap(),
        vec![
            row("http://a/feed", "A", "Sec & tion"),
            row("http://b/feed?x=1&y=2", "B", ""),
            row("http://c", "http://c", "Two"),
        ]
    );
    assert!(parse_opml(None).unwrap().is_empty());
    assert!(parse_opml(Some("")).unwrap().is_empty());
}

#[test]
fn opml_that_is_no_xml() {
    let error = parse_opml(Some("<opml><a></b></opml>")).unwrap_err();
    assert!(matches!(error, OpmlError::Xml(_)));
    assert!(error.message().starts_with("OPML parse error: "));
    let error = parse_opml(Some("<outline text=\"&bad;\" xmlUrl=\"x\"></outline>")).unwrap_err();
    assert!(matches!(error, OpmlError::Attribute(_)));
    assert!(!error.message().starts_with("OPML parse error: "));
    assert!(error.message().contains("bad"));
}

fn outline(attributes: &[(&str, &str)]) -> XmlEvent {
    XmlEvent::Start(
        "outline".to_string(),
        attributes
            .iter()
            .map(|(k, v)| XmlAttribute::Pair(k.to_string(), Ok(v.to_string())))
            .collect(),
    )
}

fn end() -> XmlEvent {
    XmlEvent::End("outline".to_string())
}

#[test]
fn events_of_an_opml_list() {
    let events = vec![
        end(),
        XmlEvent::Empty,
        outline(&[("text", "S")]),
        outline(&[("text", "old"), ("text", "T"), ("xmlUrl", "u")]),
        XmlEvent::Eof,
        outline(&[("xmlUrl", "after the end")]),
    ];
    assert_eq!(opml_rows(&events).unwrap(), vec![row("u", "T", "S")]);
    let broken = vec![
        XmlEvent::Start(
            "outline".to_string(),
            vec![XmlAttribute::Broken, XmlAttribute::Pair("xmlUrl".to_string(), Ok("u".to_string()))],
        ),
        XmlEvent::Other,
        XmlEvent::Fault("why".to_string()),
    ];
    assert_eq!(opml_rows(&broken).unwrap_err().message(), "OPML parse error: why");
    let unreadable = vec![
        XmlEvent::Start(
            "outline".to_string(),
            vec![XmlAttribute::Pair("x".to_string(), Err("why".to_string()))],
        ),
        XmlEvent::Fault("later".to_string()),
    ];
    assert_eq!(opml_rows(&unreadable).unwrap_err().message(), "why");
    let closed = vec![outline(&[("text", "S")]), end(), outline(&[("xmlUrl", "u")]), XmlEvent::Eof];
    assert_eq!(opml_rows(&closed).unwrap(), vec![row("u", "u", "")]);
}
