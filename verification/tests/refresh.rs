//! Refreshing: what is kept of an answer, and what is told of it.

use feedlizard::identity::feed_id;
use feedlizard::library::Library;
use feedlizard::network::{FetchOutcome, FetchResponse, NetworkError, NetworkErrorKind};
use feedlizard::page_discovery::discover;
use feedlizard::parser::FeedFormat;
use feedlizard::refresh::{
    add_fetched, cancelled_refresh, check_addable, gather, host_key, persist_result,
    validators_of, AddStep, FetchTaskResult, RefreshConfig, RefreshError, RefreshFailure,
    RefreshState,
};

fn rss(title: &str, count: usize) -> String {
    let items = (0..count)
        .map(|index| format!("<item><guid>{title}-{index}</guid><title>Item {index}</title></item>"))
        .collect::<String>();
    format!(
        "<?xml version=\"1.0\"?><rss version=\"2.0\"><channel><title>{title}</title><link>https://example.test</link>{items}</channel></rss>"
    )
}

fn answer(url: &str, status: u16, content_type: &str, body: &str) -> FetchResponse {
    FetchResponse {
        body: body.to_owned(),
        final_url: url.to_owned(),
        status,
        content_type: Some(content_type.to_owned()),
        etag: None,
        last_modified: None,
        bytes_received: body.len(),
    }
}

fn fetched(url: &str, body: &str) -> FetchTaskResult {
    FetchTaskResult::Fetched(
        FetchOutcome::Modified(answer(url, 200, "application/rss+xml", body)),
        5,
    )
}

fn failed(kind: NetworkErrorKind, status: u16) -> FetchTaskResult {
    FetchTaskResult::Error(NetworkError::status(kind, status, None), 5)
}

fn subscribe(library: &mut Library, url: &str, name: &str) -> String {
    library.add_subscription(url, name, FeedFormat::Rss, None, 1).unwrap()
}

#[test]
fn a_refresh_keeps_validators_and_articles() {
    let url = "https://example.test/feed";
    let mut library = Library::new();
    let id = subscribe(&mut library, url, "Pending");
    let mut response = answer(url, 200, "application/rss+xml", &rss("Conditional", 3));
    response.etag = Some("\"one\"".to_owned());
    response.last_modified = Some("Wed, 21 Oct 2015 07:28:00 GMT".to_owned());
    let feed = library.feed(&id).unwrap();
    let first = persist_result(
        &mut library,
        &feed,
        &FetchTaskResult::Fetched(FetchOutcome::Modified(response), 5),
        10,
    );
    assert_eq!((first.state, first.inserted), (RefreshState::Updated, 3));
    let feed = library.feed(&id).unwrap();
    let validators = validators_of(&feed);
    assert_eq!(validators.etag.as_deref(), Some("\"one\""));
    assert_eq!(validators.last_modified.as_deref(), Some("Wed, 21 Oct 2015 07:28:00 GMT"));
    let mut unchanged = answer(url, 304, "application/rss+xml", "");
    unchanged.etag = Some("\"one\"".to_owned());
    let second = persist_result(
        &mut library,
        &feed,
        &FetchTaskResult::Fetched(FetchOutcome::NotModified(unchanged), 5),
        20,
    );
    assert_eq!(second.state, RefreshState::Unchanged);
    let feed = library.feed(&id).unwrap();
    assert_eq!(
        (feed.etag.as_deref(), feed.last_http_status, feed.consecutive_failures),
        (Some("\"one\""), Some(304), 0)
    );
    assert_eq!(library.stats().articles, 3);
}

#[test]
fn each_format_is_taken_in() {
    let mut library = Library::new();
    let atom = r#"<?xml version="1.0"?><feed xmlns="http://www.w3.org/2005/Atom"><title>Atom</title><id>urn:atom</id><entry><title>Entry</title><id>urn:entry</id><updated>2026-01-01T00:00:00Z</updated></entry></feed>"#;
    let json = r#"{"version":"https://jsonfeed.org/version/1.1","title":"JSON","items":[{"id":"json-one","title":"JSON Entry"}]}"#;
    let documents = [
        ("https://example.test/atom", atom.to_owned()),
        ("https://example.test/json", json.to_owned()),
        ("https://example.test/rss", rss("Modified", 1)),
    ];
    let mut results = Vec::new();
    for (url, body) in &documents {
        let id = subscribe(&mut library, url, url);
        let feed = library.feed(&id).unwrap();
        results.push(persist_result(&mut library, &feed, &fetched(url, body), 10));
    }
    let all = gather(results);
    assert_eq!((all.summary.successful, library.stats().articles), (3, 3));
}

#[test]
fn one_failure_leaves_the_others_alone() {
    let mut library = Library::new();
    let mut results = Vec::new();
    for index in 0..8 {
        let url = format!("https://example.test/feed-{index}");
        let id = subscribe(&mut library, &url, &format!("Feed {index}"));
        let feed = library.feed(&id).unwrap();
        let body = rss(&format!("feed-{index}"), 2);
        results.push(persist_result(&mut library, &feed, &fetched(&url, &body), 10));
    }
    let id = subscribe(&mut library, "https://example.test/broken", "Broken");
    let feed = library.feed(&id).unwrap();
    results.push(persist_result(
        &mut library,
        &feed,
        &fetched("https://example.test/broken", "<rss><broken>"),
        10,
    ));
    let id = subscribe(&mut library, "https://example.test/missing", "Missing");
    let feed = library.feed(&id).unwrap();
    results.push(persist_result(
        &mut library,
        &feed,
        &failed(NetworkErrorKind::NotFound, 404),
        10,
    ));
    let result = gather(results);
    assert_eq!(
        (result.summary.total, result.summary.successful, result.summary.failed),
        (10, 8, 2)
    );
    assert_eq!(library.stats().articles, 16);
    assert!(result.feeds.iter().any(|value| value.failure == Some(RefreshFailure::Parse)));
    assert!(result.feeds.iter().any(|value| {
        value.failure == Some(RefreshFailure::Network(NetworkErrorKind::NotFound))
    }));
    assert!(result.feeds.windows(2).all(|pair| pair[0].feed_id <= pair[1].feed_id));
}

#[test]
fn giving_up_and_failing_keep_what_is_there() {
    let mut library = Library::new();
    let id = subscribe(&mut library, "https://example.test/slow", "Slow");
    let feed = library.feed(&id).unwrap();
    let cancelled = persist_result(&mut library, &feed, &cancelled_refresh(7), 10);
    assert_eq!(cancelled.state, RefreshState::Cancelled);
    assert_eq!(library.stats().articles, 0);
    let id = subscribe(&mut library, "http://127.0.0.1:1/offline", "Offline");
    let feed = library.feed(&id).unwrap();
    let offline = NetworkError::new(NetworkErrorKind::Connectivity, "refused");
    let task = FetchTaskResult::Error(offline, 7);
    let first = persist_result(&mut library, &feed, &task, 10);
    assert_eq!(first.state, RefreshState::Failed);
    persist_result(&mut library, &feed, &task, 20);
    assert_eq!(library.feed(&id).unwrap().consecutive_failures, 2);
    assert_eq!(library.stats().articles, 0);
}

#[test]
fn an_address_is_added_or_searched() {
    let mut library = Library::new();
    let url = "https://example.test/feed";
    let response = answer(url, 200, "application/rss+xml", &rss("Added", 4));
    let added =
        add_fetched(&mut library, url, Ok(FetchOutcome::Modified(response)), 1_800_000_000);
    let AddStep::Added { feed_id: id, ingest } = added.unwrap() else { panic!() };
    assert_eq!((id, ingest.inserted), (feed_id(url), 4));
    assert_eq!(library.stats().articles, 4);

    let dated = "<?xml version=\"1.0\"?><rss version=\"2.0\"><channel><title>Dated</title><link>https://example.test</link><item><guid>old</guid><title>Old</title><pubDate>Wed, 21 Oct 2015 07:28:00 GMT</pubDate></item><item><guid>current</guid><title>Current</title></item></channel></rss>";
    let url = "https://example.test/dated";
    let response = answer(url, 200, "application/rss+xml", dated);
    let added =
        add_fetched(&mut library, url, Ok(FetchOutcome::Modified(response)), 1_800_000_000);
    let AddStep::Added { ingest, .. } = added.unwrap() else { panic!() };
    assert_eq!(ingest.inserted, 1);
    assert_eq!(library.stats().articles, 5);

    let url = "https://example.test/page";
    let unsupported = NetworkError::new(NetworkErrorKind::UnsupportedContent, "a page");
    let step = add_fetched(&mut library, url, Err(unsupported), 1_800_000_000);
    assert!(matches!(step, Ok(AddStep::Discover)));
    let html = r#"<!doctype html><html><head><link rel="alternate" type="application/rss+xml" href="/feed" title="Main"></head></html>"#;
    let found = discover(url, html).unwrap();
    assert_eq!(found.candidates[0].url, "https://example.test/feed");

    let gone = NetworkError::status(NetworkErrorKind::Gone, 410, None);
    assert!(matches!(
        add_fetched(&mut library, url, Err(gone), 1_800_000_000),
        Err(RefreshError::Network(_))
    ));
    assert_eq!(library.stats().feeds, 2);
}

#[test]
fn only_web_addresses_are_added() {
    assert!(check_addable("https://example.test/feed").is_ok());
    let refused = check_addable("file:///tmp/feed");
    assert!(matches!(refused, Err(RefreshError::InvalidUrl)));
    assert!(!refused.unwrap_err().message().is_empty());
}

#[test]
fn work_is_bounded() {
    assert_eq!(RefreshConfig::default().limits(), (6, 2));
    let wide = RefreshConfig { global_concurrency: 100, per_host_concurrency: 100 };
    assert_eq!(wide.limits(), (32, 32));
    let narrow = RefreshConfig { global_concurrency: 0, per_host_concurrency: 0 };
    assert_eq!(narrow.limits(), (1, 1));
    assert_eq!(host_key("https://Example.test/feed"), "example.test");
}
