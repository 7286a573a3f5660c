//! Feeds and identities that other readers of the same feeds agree on.

use feedlizard::{
    identity,
    parser::{self, FeedFormat},
};

const RSS: &str = r#"<?xml version="1.0" encoding="UTF-8"?>
<rss version="2.0" xmlns:dc="http://purl.org/dc/elements/1.1/">
  <channel>
    <title>Example &amp; News</title>
    <link>https://example.com/</link>
    <description>News by example</description>
    <item>
      <guid>story-1</guid>
      <title>First</title>
      <link>https://example.com/story-1</link>
      <dc:creator>Ada Lovelace</dc:creator>
      <pubDate>Tue, 25 Aug 2026 12:00:00 +0000</pubDate>
      <description>One</description>
    </item>
    <item>
      <guid>story-2</guid>
      <link>https://example.com/story-2</link>
      <description>No title here</description>
    </item>
  </channel>
</rss>
"#;

const ATOM: &str = r#"<?xml version="1.0" encoding="UTF-8"?>
<feed xmlns="http://www.w3.org/2005/Atom">
  <title>Example Atom</title>
  <link rel="alternate" href="https://example.net/"/>
  <id>urn:uuid:feed</id>
  <updated>2026-08-25T12:00:00Z</updated>
  <entry>
    <id>urn:uuid:story-2</id>
    <title>Second</title>
    <link rel="alternate" href="https://example.net/story-2"/>
    <author><name>Grace Hopper</name></author>
    <published>2026-08-25T12:00:00Z</published>
    <updated>2026-08-25T13:00:00Z</updated>
    <summary>Two</summary>
  </entry>
</feed>
"#;

const IDENTITIES: &str = "# kind\tinput\toutput
url\tHTTPS://Example.COM:443/feed/#section\thttps://example.com/feed
feed\thttps://example.com/feed/\tfeed:v1:92236c4e4c1108e7c39ad52278919a1a54d079a9b76133b0ede5c7a2467e4a26
article\tstory-1\tarticle:v1:435f0adddf32410ad458fd108dbfcca0d5a3d3ad5fcf1db1927351e522ad3af4
feed\thttps://www.bleepingcomputer.com/feed/\tfeed:v1:c550f13a25b17b26fcdce9c39c9490ac5d66953e75b94abbea0413637e3ac4ff
";

#[test]
fn parses_rss_contract() {
    let feed = parser::parse(RSS).unwrap();
    assert_eq!(feed.format, FeedFormat::Rss);
    assert_eq!(feed.title, "Example & News");
    assert_eq!(feed.site_url.as_deref(), Some("https://example.com/"));
    assert_eq!(feed.articles.len(), 2);
    assert_eq!(feed.articles[0].stable_id, "story-1");
    assert_eq!(feed.articles[0].author.as_deref(), Some("Ada Lovelace"));
    assert_eq!(feed.articles[1].title, "Untitled Article");
}

#[test]
fn the_date_of_an_rss_item_is_its_pub_date() {
    let feed = parser::parse(RSS).unwrap();
    assert_eq!(feed.articles[0].published_at, Some(1_787_659_200));
    assert_eq!(feed.articles[1].published_at, None);
}

#[test]
fn parses_atom_contract() {
    let feed = parser::parse(ATOM).unwrap();
    assert_eq!(feed.format, FeedFormat::Atom);
    assert_eq!(feed.title, "Example Atom");
    assert_eq!(feed.site_url.as_deref(), Some("https://example.net/"));
    assert_eq!(feed.articles[0].stable_id, "urn:uuid:story-2");
    assert_eq!(feed.articles[0].author.as_deref(), Some("Grace Hopper"));
}

#[test]
fn an_atom_entry_has_its_own_times_and_address() {
    let feed = parser::parse(ATOM).unwrap();
    assert_eq!(feed.articles[0].published_at, Some(1_787_659_200));
    assert_eq!(feed.articles[0].updated_at, Some(1_787_662_800));
    assert_eq!(
        feed.articles[0].url.as_deref(),
        Some("https://example.net/story-2")
    );
}

#[test]
fn normalizes_urls_like_feedlizard_v1() {
    assert_eq!(
        identity::normalize_url("HTTPS://Example.COM:443/feed/#section"),
        "https://example.com/feed"
    );
    assert_eq!(
        identity::normalize_url("http://Example.COM:80"),
        "http://example.com/"
    );
    assert_eq!(
        identity::normalize_url("https://Example.COM/feed/?page=1#x"),
        "https://example.com/feed?page=1"
    );
}

#[test]
fn identity_precedence_is_guid_then_url_then_fallback() {
    let feed = identity::feed_id("https://example.com/feed/");
    let guid = identity::article_id(
        &feed,
        Some("story-1"),
        Some("https://example.com/ignored"),
        Some("Ignored"),
        Some(1),
    );
    let url = identity::article_id(
        &feed,
        Some("null"),
        Some("HTTPS://EXAMPLE.COM/story/"),
        Some("Ignored"),
        Some(1),
    );
    let fallback = identity::article_id(
        &feed,
        None,
        None,
        Some("  A   Story  "),
        Some(1_700_000_000),
    );
    assert!(guid.starts_with("article:v1:"));
    assert_ne!(guid, url);
    assert_ne!(url, fallback);
    assert_eq!(guid.len(), 75);
}

#[test]
fn what_decides_an_identity_decides_it_alone() {
    let feed = identity::feed_id("https://example.com/feed/");
    assert_eq!(
        identity::article_id(&feed, Some("a"), Some("https://example.com/1"), Some("x"), Some(1)),
        identity::article_id(&feed, Some(" a "), None, None, None)
    );
    assert_eq!(
        identity::article_id(&feed, None, Some("https://example.com/1/"), Some("x"), Some(1)),
        identity::article_id(&feed, Some("NULL"), Some("HTTPS://example.com/1"), None, None)
    );
}

#[test]
fn matches_cross_platform_identity_vectors() {
    let vectors: Vec<Vec<&str>> = IDENTITIES
        .lines()
        .filter(|line| !line.is_empty() && !line.starts_with('#'))
        .map(|line| line.split('\t').collect())
        .collect();
    assert_eq!(identity::normalize_url(vectors[0][1]), vectors[0][2]);
    let feed = identity::feed_id(vectors[1][1]);
    assert_eq!(feed, vectors[1][2]);
    assert_eq!(
        identity::article_id(&feed, Some(vectors[2][1]), None, None, None),
        vectors[2][2]
    );
    assert_eq!(identity::feed_id(vectors[3][1]), vectors[3][2]);
}

#[test]
fn bleeping_computer_identity_is_apple_compatible() {
    assert_eq!(
        identity::normalize_url("https://www.bleepingcomputer.com/feed/"),
        "https://www.bleepingcomputer.com/feed"
    );
    assert_eq!(
        identity::feed_id("https://www.bleepingcomputer.com/feed/"),
        "feed:v1:c550f13a25b17b26fcdce9c39c9490ac5d66953e75b94abbea0413637e3ac4ff"
    );
}

#[test]
fn bleepingcomputer_identity_is_unchanged() {
    assert_eq!(
        identity::feed_id("https://www.bleepingcomputer.com/feed/"),
        "feed:v1:c550f13a25b17b26fcdce9c39c9490ac5d66953e75b94abbea0413637e3ac4ff"
    );
}

#[test]
fn a_text_that_is_no_address_is_kept_trimmed() {
    assert_eq!(identity::normalize_url("  not an address "), "not an address");
}
