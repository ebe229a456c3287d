use podinator::date::Date;
use podinator::errors::FeedError;
use podinator::feed::parse;
use podinator::feed::parse_events;
use podinator::pod::Podcast;
use podinator::xml::{XmlAttr, XmlEvent};

const FEED: &str = "\
<rss><channel>\
<title>My Show</title>\
<item>\
<title>One</title>\
<pubDate>Thu, 02 Jan 2020 03:04:00 +0000</pubDate>\
<enclosure url=\"https://example.com/audio/one.mp3\" length=\"1\" type=\"audio/mpeg\" />\
</item>\
<item>\
<title>Two</title>\
<pubDate>Fri, 03 Jan 2020 10:30:09 +0200</pubDate>\
<enclosure url=\"https://example.com/audio/two.mp3\" />\
</item>\
</channel></rss>";

#[test]
fn parse_yields_every_item_in_order_with_exact_fields() {
    let feed = parse(FEED).unwrap();
    assert_eq!(feed.title, "My Show");
    assert_eq!(feed.episodes.len(), 2);
    assert_eq!(feed.episodes[0].title(), "One");
    assert_eq!(feed.episodes[0].url(), "https://example.com/audio/one.mp3");
    assert_eq!(
        feed.episodes[0].pub_date(),
        Date { year: 2020, month: 1, day: 2, hour: 3, minute: 4, second: 0 }
    );
    assert_eq!(feed.episodes[0].downloaded(), None);
    assert_eq!(feed.episodes[0].local_file_name(), None);
    assert_eq!(feed.episodes[0].listened(), None);
    assert_eq!(feed.episodes[1].title(), "Two");
    assert_eq!(feed.episodes[1].url(), "https://example.com/audio/two.mp3");
    // 10:30:09 at +02:00 is 08:30:09 in UTC.
    assert_eq!(
        feed.episodes[1].pub_date(),
        Date { year: 2020, month: 1, day: 3, hour: 8, minute: 30, second: 9 }
    );
}

#[test]
fn tag_names_are_compared_case_insensitively() {
    let doc = "<RSS><CHANNEL><TITLE>Loud</TITLE><ITEM><Title>A</Title>\
<PUBDATE>Thu, 02 Jan 2020 03:04:00 +0000</PUBDATE>\
<Enclosure url=\"https://example.com/a.mp3\"/></ITEM></CHANNEL></RSS>";
    let feed = parse(doc).unwrap();
    assert_eq!(feed.title, "Loud");
    assert_eq!(feed.episodes.len(), 1);
    assert_eq!(feed.episodes[0].title(), "A");
}

#[test]
fn enclosure_without_url_fails_the_parse() {
    let doc = "<rss><channel><title>T</title><item><title>A</title>\
<pubDate>Thu, 02 Jan 2020 03:04:00 +0000</pubDate>\
<enclosure length=\"1\"/></item></channel></rss>";
    assert_eq!(parse(doc), Err(FeedError::MissingEnclosureUrl));
}

#[test]
fn unreadable_pub_date_fails_the_parse() {
    let doc = "<rss><channel><title>T</title><item><title>A</title>\
<pubDate>soon</pubDate>\
<enclosure url=\"https://example.com/a.mp3\"/></item></channel></rss>";
    assert_eq!(parse(doc), Err(FeedError::BadPubDate(String::from("soon"))));
}

#[test]
fn item_without_title_fails_the_parse() {
    let doc = "<rss><channel><title>T</title><item>\
<pubDate>Thu, 02 Jan 2020 03:04:00 +0000</pubDate>\
<enclosure url=\"https://example.com/a.mp3\"/></item></channel></rss>";
    assert_eq!(parse(doc), Err(FeedError::MissingTitle));
}

#[test]
fn item_without_pub_date_fails_the_parse() {
    let doc = "<rss><channel><title>T</title><item><title>A</title>\
<enclosure url=\"https://example.com/a.mp3\"/></item></channel></rss>";
    assert_eq!(parse(doc), Err(FeedError::MissingPubDate));
}

#[test]
fn entity_references_resolve_into_text() {
    let doc = "<rss><channel><title>A&amp;B&#67;&#x44;&lt;&gt;&apos;&quot;</title></channel></rss>";
    let feed = parse(doc).unwrap();
    assert_eq!(feed.title, "A&BCD<>'\"");
    assert_eq!(feed.episodes.len(), 0);
}

#[test]
fn unknown_tags_and_text_are_ignored() {
    let doc = "<rss><channel><title>T</title><language>en</language>\
<item><title>A</title><guid>xyz</guid>\
<pubDate>Thu, 02 Jan 2020 03:04:00 +0000</pubDate>\
<enclosure url=\"https://example.com/a.mp3\"/><category>news</category>\
</item></channel></rss>";
    let feed = parse(doc).unwrap();
    assert_eq!(feed.title, "T");
    assert_eq!(feed.episodes.len(), 1);
    assert_eq!(feed.episodes[0].title(), "A");
}

#[test]
fn surrounding_whitespace_is_trimmed() {
    let doc = "<rss><channel>\n  <title>\n    Spaced\n  </title>\n</channel></rss>";
    let feed = parse(doc).unwrap();
    assert_eq!(feed.title, "Spaced");
}

#[test]
fn parse_events_runs_the_same_reducer() {
    let events = vec![
        XmlEvent::Start(b"title".to_vec()),
        XmlEvent::Text(String::from("From events")),
        XmlEvent::End(b"title".to_vec()),
        XmlEvent::Start(b"item".to_vec()),
        XmlEvent::Start(b"title".to_vec()),
        XmlEvent::Text(String::from("E")),
        XmlEvent::End(b"title".to_vec()),
        XmlEvent::Start(b"pubdate".to_vec()),
        XmlEvent::Text(String::from("Thu, 02 Jan 2020 03:04:00 +0000")),
        XmlEvent::End(b"pubdate".to_vec()),
        XmlEvent::Empty(
            b"enclosure".to_vec(),
            vec![XmlAttr { key: b"url".to_vec(), value: String::from("https://x/e.mp3") }],
        ),
        XmlEvent::End(b"item".to_vec()),
    ];
    let feed = parse_events(&events).unwrap();
    assert_eq!(feed.title, "From events");
    assert_eq!(feed.episodes.len(), 1);
    assert_eq!(feed.episodes[0].url(), "https://x/e.mp3");
}

#[test]
fn parse_events_stops_at_the_first_end_of_document() {
    let events = vec![
        XmlEvent::Start(b"title".to_vec()),
        XmlEvent::Text(String::from("Before")),
        XmlEvent::End(b"title".to_vec()),
        XmlEvent::Eof,
        XmlEvent::Start(b"title".to_vec()),
        XmlEvent::Text(String::from("After")),
        XmlEvent::End(b"title".to_vec()),
    ];
    let feed = parse_events(&events).unwrap();
    assert_eq!(feed.title, "Before");
}

#[test]
fn refresh_replaces_title_and_appends_episodes() {
    let mut p = Podcast::new(" ", "https://example.com/feed.xml");
    p.apply_rss(FEED).unwrap();
    assert_eq!(p.title(), "My Show");
    assert_eq!(p.episodes().len(), 2);
    assert_eq!(p.url(), "https://example.com/feed.xml");
    // A second refresh of the same document appends duplicates: nothing
    // dedups parsed episodes against existing entries.
    p.apply_rss(FEED).unwrap();
    assert_eq!(p.episodes().len(), 4);
    assert_eq!(p.episodes()[0].title(), "One");
    assert_eq!(p.episodes()[2].title(), "One");
}

#[test]
fn failed_refresh_leaves_the_podcast_untouched() {
    let mut p = Podcast::new(" ", "https://example.com/feed.xml");
    p.apply_rss(FEED).unwrap();
    let bad = "<rss><channel><title>New name</title><item><title>A</title>\
<pubDate>nope</pubDate><enclosure url=\"https://x/a.mp3\"/></item></channel></rss>";
    assert!(p.apply_rss(bad).is_err());
    assert_eq!(p.title(), "My Show");
    assert_eq!(p.episodes().len(), 2);
}
