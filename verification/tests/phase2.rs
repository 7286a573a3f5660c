//! Reading feeds and subscription lists, and what follows from reading them.

use feedlizard::discovery::{rank_candidates, DiscoveryFormat, DiscoveryLink};
use feedlizard::domain::{mark_all_as_read, should_expire, ArticleState, RETENTION_SECONDS};
use feedlizard::error::CoreError;
use feedlizard::parser::{self, FeedFormat, ImageSource};
use feedlizard::{identity, ingestion, opml};

const RDF: &str = r#"<?xml version="1.0"?>
<rdf:RDF xmlns:rdf="http://www.w3.org/1999/02/22-rdf-syntax-ns#"
         xmlns="http://purl.org/rss/1.0/"
         xmlns:dc="http://purl.org/dc/elements/1.1/">
  <channel rdf:about="https://rdf.example/">
    <title>RDF News</title>
    <link>https://rdf.example/</link>
    <description>News in RDF</description>
  </channel>
  <item rdf:about="https://rdf.example/one">
    <title>One</title>
    <link>https://rdf.example/one</link>
    <dc:creator>Editor</dc:creator>
    <dc:date>2026-08-25T12:00:00Z</dc:date>
  </item>
</rdf:RDF>
"#;

const JSON: &str = r#"{
  "version": "https://jsonfeed.org/version/1.1",
  "title": "JSON Café",
  "home_page_url": "https://json.example/",
  "icon": "/icon.png",
  "items": [
    {
      "id": "json-1",
      "url": "/story",
      "title": "JSON Story",
      "content_html": "<p>Hello</p>",
      "image": "/hero.jpg",
      "date_published": "2026-08-25T12:00:00Z",
      "authors": [{"name": "One"}, {"name": "Two"}]
    },
    {"id": 7, "title": ["not", "a", "title"]}
  ]
}"#;

const IMPERFECT: &str = r#"<?xml version="1.0"?>
<rss version="2.0" xmlns:content="http://purl.org/rss/1.0/modules/content/"
     xmlns:media="http://search.yahoo.com/mrss/">
  <channel>
    <title>Imperfect</title>
    <item>
      <guid>one</guid>
      <title>First</title>
      <pubDate>sometime last week</pubDate>
      <description>Summary</description>
      <content:encoded><![CDATA[<p>Full</p><img src="/inline.jpg" width="900" height="500">]]></content:encoded>
      <media:content url="/hero.jpg" medium="image"/>
    </item>
    <item>
      <guid>one</guid>
      <title>First again</title>
    </item>
    <item>
      <link>/relative</link>
      <description>No title and no guid</description>
    </item>
  </channel>
</rss>
"#;

const OPML: &str = r#"<?xml version="1.0" encoding="UTF-8"?>
<opml version="2.0">
  <head><title>Subscriptions</title></head>
  <body>
    <outline text="News &amp; Analysis">
      <outline text="Technology">
        <outline type="rss" text="Example" xmlUrl="https://example.com/feed" htmlUrl="https://example.com/"/>
      </outline>
      <outline type="atom" text="Atom &quot;quoted&quot;" xmlUrl="https://example.net/atom.xml"/>
    </outline>
    <outline type="json" text="Unfiled" xmlUrl="https://json.example/feed.json"/>
  </body>
</opml>
"#;

#[test]
fn parses_rdf_and_json_feed_metadata() {
    let rdf = parser::parse_with_source(RDF, "https://rdf.example/feed").unwrap();
    assert_eq!(rdf.format, FeedFormat::Rss);
    assert_eq!(rdf.title, "RDF News");
    assert_eq!(rdf.articles[0].author.as_deref(), Some("Editor"));
    assert_eq!(rdf.articles[0].updated_at, Some(1_787_659_200));

    let json = parser::parse_with_source(JSON, "https://json.example/feed.json").unwrap();
    assert_eq!(json.format, FeedFormat::Json);
    assert_eq!(json.articles.len(), 1); // malformed neighboring item is isolated
    assert_eq!(json.articles[0].author.as_deref(), Some("One, Two"));
    assert_eq!(
        json.articles[0].image.as_ref().unwrap().source,
        ImageSource::JsonImage
    );
    assert_eq!(json.icon_candidates, ["https://json.example/icon.png"]);
}

#[test]
fn malformed_optional_fields_do_not_discard_usable_articles() {
    let feed = parser::parse_with_source(IMPERFECT, "https://example.test/feed").unwrap();
    assert_eq!(feed.articles.len(), 2); // duplicate GUID suppressed
    assert_eq!(feed.articles[0].title, "First");
    assert_eq!(feed.articles[0].published_at, None);
    assert_eq!(feed.articles[0].summary.as_deref(), Some("Summary"));
    assert_eq!(
        feed.articles[0].content.as_deref(),
        Some("<p>Full</p><img src=\"/inline.jpg\" width=\"900\" height=\"500\">")
    );
    assert_eq!(
        feed.articles[0].image.as_ref().unwrap().url,
        "https://example.test/hero.jpg"
    );
    assert_eq!(feed.articles[1].title, "Untitled Article");
    assert_eq!(
        feed.articles[1].url.as_deref(),
        Some("https://example.test/relative")
    );
}

#[test]
fn parses_dates_deterministically() {
    let cases = [
        ("Tue, 25 Aug 2026 12:00:00 +0000", 1_787_659_200),
        ("2026-08-25T12:00:00Z", 1_787_659_200),
        ("2026-08-25T14:00:00+02:00", 1_787_659_200),
        ("2026-08-25T12:00:00.123Z", 1_787_659_200),
        ("2026-08-25", 1_787_616_000), // Apple-defined date-only behavior: UTC midnight
    ];
    for (value, expected) in cases {
        assert_eq!(parser::parse_date(value), Some(expected), "{value}");
    }
    assert_eq!(parser::parse_date("not a date"), None);
    assert_eq!(parser::parse_date("2026-08-25 12:00:00"), None);
}

#[test]
fn url_and_article_identity_edges_are_stable() {
    assert_eq!(
        identity::normalize_url("HTTPS://BÜCHER.example:443/feed/#x"),
        "https://xn--bcher-kva.example/feed"
    );
    assert_eq!(
        identity::normalize_url("https://example.com/feed/?a=1#x"),
        "https://example.com/feed?a=1"
    );
    assert_ne!(
        identity::feed_id("http://example.com/feed"),
        identity::feed_id("https://example.com/feed")
    );
    let feed = identity::feed_id("https://example.com/feed");
    assert_eq!(
        identity::article_id(&feed, Some("e\u{301}"), None, None, None),
        identity::article_id(&feed, Some("é"), None, None, None)
    );
    assert_eq!(
        identity::article_id(&feed, None, None, Some(" A   TITLE "), Some(10)),
        identity::article_id(&feed, None, None, Some("a title"), Some(10))
    );
}

#[test]
fn opml_round_trip_preserves_logical_library() {
    let first = opml::import(OPML).unwrap();
    assert_eq!(first.feeds.len(), 3);
    assert_eq!(first.feeds[0].folders, ["News & Analysis", "Technology"]);
    let xml = opml::export(&first, "Thu, 01 Jan 1970 00:00:00 +0000");
    let second = opml::import(&xml).unwrap();
    let logical = |library: &opml::OpmlLibrary| {
        let mut rows: Vec<_> = library
            .feeds
            .iter()
            .map(|f| {
                (
                    f.feed_url.clone(),
                    f.site_url.clone(),
                    f.title.clone(),
                    f.folders.clone(),
                    f.format,
                )
            })
            .collect();
        rows.sort_by(|a, b| a.0.cmp(&b.0));
        rows
    };
    assert_eq!(logical(&first), logical(&second));
}

#[test]
fn retention_and_local_state_transitions_match_policy() {
    let now = 2_000_000_000;
    assert!(!should_expire(
        false,
        Some(now - RETENTION_SECONDS),
        now,
        now
    ));
    assert!(should_expire(
        false,
        Some(now - RETENTION_SECONDS - 1),
        now,
        now
    ));
    assert!(!should_expire(true, Some(0), 0, now));
    assert!(should_expire(false, None, now - RETENTION_SECONDS - 1, now));
    let mut states = [
        ArticleState::default(),
        ArticleState {
            is_read: false,
            is_starred: true,
        },
    ];
    states[0].star();
    states[0].unstar();
    states[0].mark_unread();
    mark_all_as_read(&mut states);
    assert!(states.iter().all(|state| state.is_read));
    assert!(states[1].is_starred);
}

#[test]
fn ranks_offline_discovery_candidates_and_rejects_bad_schemes() {
    let links = vec![
        DiscoveryLink {
            href: "/rss".into(),
            mime_type: "application/rss+xml; charset=utf-8".into(),
            title: None,
        },
        DiscoveryLink {
            href: "/atom".into(),
            mime_type: "application/atom+xml".into(),
            title: Some("Atom".into()),
        },
        DiscoveryLink {
            href: "/rss".into(),
            mime_type: "application/rss+xml".into(),
            title: None,
        },
        DiscoveryLink {
            href: "javascript:bad".into(),
            mime_type: "application/feed+json".into(),
            title: None,
        },
    ];
    let result = rank_candidates("https://example.com/page", &links);
    assert_eq!(result.len(), 2);
    assert_eq!(result[0].format, DiscoveryFormat::Rss);
    assert_eq!(result[1].format, DiscoveryFormat::Atom);
}

#[test]
fn ingestion_rekeys_articles_and_reports_existing_identity() {
    let feed = parser::parse_with_source(JSON, "https://json.example/feed.json").unwrap();
    let first = ingestion::prepare(
        feed.clone(),
        "https://json.example/feed.json",
        &Vec::new(),
        100,
    );
    let existing = vec![first.articles[0].stable_id.clone()];
    let second = ingestion::prepare(feed, "https://json.example/feed.json", &existing, 200);
    assert_eq!(first.articles[0].stable_id, second.articles[0].stable_id);
    assert!(second.articles[0].is_existing);
}

#[test]
fn rejects_malformed_and_oversized_inputs() {
    assert_eq!(
        parser::parse("<rss><channel>"),
        Err(CoreError::MalformedXml)
    );
    assert_eq!(parser::parse("<html />"), Err(CoreError::UnsupportedFeed));
    let oversized = "x".repeat(parser::MAX_DOCUMENT_BYTES + 1);
    assert_eq!(
        parser::parse(&oversized),
        Err(CoreError::InputLimitExceeded("document bytes"))
    );
    assert!(opml::import("<rss />").is_err());
}

#[test]
fn parses_large_synthetic_feed_without_quadratic_state() {
    let items: String = (0..2_000)
        .map(|i| format!("<item><guid>{i}</guid><title>Story {i}</title></item>"))
        .collect();
    let xml = format!("<rss><channel><title>Large</title>{items}</channel></rss>");
    let feed = parser::parse(&xml).unwrap();
    assert_eq!(feed.articles.len(), 2_000);
}

#[test]
fn reading_an_article_leaves_its_star() {
    let mut state = ArticleState { is_read: false, is_starred: true };
    state.mark_read();
    assert_eq!(state, ArticleState { is_read: true, is_starred: true });
    state.mark_unread();
    assert_eq!(state, ArticleState { is_read: false, is_starred: true });
}

fn subscription(title: &str, url: &str, folders: &[&str], custom: Option<&str>) -> opml::OpmlFeed {
    opml::OpmlFeed {
        title: title.into(),
        feed_url: url.into(),
        site_url: Some("https://site.example/?a=1&b=2".into()),
        folders: folders.iter().map(|name| (*name).to_owned()).collect(),
        format: FeedFormat::Atom,
        custom_title: custom.map(str::to_owned),
    }
}

fn two_subscriptions() -> Vec<opml::OpmlFeed> {
    vec![
        subscription("\"B\" <&> 'é'", "https://b.example/feed?x=1&y=2", &["A & B", "C"], Some("<own>")),
        subscription("A", "https://a.example/feed", &[], None),
    ]
}

#[test]
fn a_list_is_written_to_the_letter() {
    let library = opml::OpmlLibrary { feeds: two_subscriptions(), failures: vec![] };
    let text = opml::export(&library, "today & now");
    let expected = concat_lines(&[
        r#"<?xml version="1.0" encoding="UTF-8"?>"#,
        r#"<opml version="2.0" xmlns:feedlizard="https://feedlizard.app/opml/1"><head><title>FeedLizard Subscriptions</title><dateCreated>today &amp; now</dateCreated></head><body>"#,
        r#"  <outline text="A" title="A" type="atom" xmlUrl="https://a.example/feed" htmlUrl="https://site.example/?a=1&amp;b=2" />"#,
        r#"  <outline text="A &amp; B" title="A &amp; B">"#,
        r#"    <outline text="C" title="C">"#,
        r#"      <outline text="&quot;B&quot; &lt;&amp;&gt; &apos;é&apos;" title="&quot;B&quot; &lt;&amp;&gt; &apos;é&apos;" type="atom" xmlUrl="https://b.example/feed?x=1&amp;y=2" htmlUrl="https://site.example/?a=1&amp;b=2" feedlizard:customTitle="&lt;own&gt;" />"#,
        r#"    </outline>"#,
        r#"  </outline>"#,
        r#"</body></opml>"#,
    ]);
    assert_eq!(text, expected);
    let read = opml::import(&text).unwrap();
    assert!(read.failures.is_empty());
    let mut feeds = two_subscriptions();
    feeds.reverse();
    assert_eq!(read.feeds, feeds);
}

fn concat_lines(lines: &[&str]) -> String {
    lines.iter().map(|line| format!("{line}\n")).collect()
}

#[test]
fn the_order_of_a_list_does_not_show_in_writing() {
    let first = opml::OpmlLibrary { feeds: two_subscriptions(), failures: vec![] };
    let mut feeds = two_subscriptions();
    feeds.reverse();
    let second = opml::OpmlLibrary { feeds, failures: vec!["left out".into()] };
    assert_eq!(opml::export(&first, "now"), opml::export(&second, "now"));
}

#[test]
fn a_feed_member_that_stands_twice_is_malformed() {
    let feed = |extra: &str| {
        let text = format!(
            r#"{{ "version":"https://jsonfeed.org/version/1.1", "title":"A", {extra}"items":[{{"id":"1","title":"x","title":"y"}}]}}"#
        );
        parser::parse(&text)
    };
    assert_eq!(feed("").unwrap().articles[0].title, "y");
    assert_eq!(feed(r#""unknown":1,"unknown":[{"a":2}],"#).unwrap().title, "A");
    assert_eq!(feed(r#""title" : null,"#), Err(CoreError::MalformedJsonFeed));
    assert_eq!(feed(r#""\u0074itle":"B","#), Err(CoreError::MalformedJsonFeed));
}

#[test]
fn items_are_read_up_to_a_depth() {
    let feed = |arrays: usize| {
        let text = format!(
            r#"{{"version":"https://jsonfeed.org/version/1.1","title":"A","items":[{{"id":"1","x":{}{}}}]}}"#,
            "[".repeat(arrays),
            "]".repeat(arrays)
        );
        parser::parse(&text).map(|feed| feed.articles.len())
    };
    assert_eq!(feed(124), Ok(1));
    assert_eq!(feed(125), Err(CoreError::MalformedJsonFeed));
}

#[test]
fn either_spelling_of_the_publication_date_is_read() {
    let published = |dates: &str| {
        let text = format!(
            "<rss version=\"2.0\"><channel><title>T</title><item><guid>1</guid><title>x</title>{dates}</item></channel></rss>"
        );
        parser::parse(&text).unwrap().articles[0].published_at
    };
    let first = "<pubDate>Thu, 01 Jan 1970 00:00:10 +0000</pubDate>";
    let second = "<pubdate>Thu, 01 Jan 1970 00:00:20 +0000</pubdate>";
    assert_eq!(published(first), Some(10));
    assert_eq!(published(second), Some(20));
    assert_eq!(published(&format!("{first}{second}")), Some(20));
    assert_eq!(published(&format!("<pubDate>soon</pubDate>{second}")), Some(20));
    assert_eq!(published(&format!("{first}<pubdate>soon</pubdate>")), Some(10));
}

#[test]
fn addresses_of_a_list_are_kept_as_far_as_they_count() {
    let text = r#"<opml version="2.0"><body><outline text="A" xmlUrl=" HTTPS://A.example/feed/?x=1#top " htmlUrl="https://a.example/site/#top"/></body></opml>"#;
    let read = opml::import(text).unwrap();
    assert_eq!(read.feeds[0].feed_url, "https://a.example/feed/?x=1");
    assert_eq!(read.feeds[0].site_url.as_deref(), Some("https://a.example/site"));
}
