//! Fetching: which addresses, which answers, and how often.

use feedlizard::network::{
    accept_body, article_page, cancelled_error, judge_head, parse_retry_after, refuse_redirect,
    take_chunk, transport_error, validate_url, AfterFailure, FetchKind, FetchOutcome, FetchPolicy,
    FetchResponse, Fetching, Head, NetworkErrorKind, Verdict, MAX_HEADER_BYTES, MAX_REDIRECTS,
    SECOND,
};
use feedlizard::page_discovery::{
    article_image, discover, discover_outcome, icon_outcome, image_outcome, site_icon,
};

const RSS: &str = r#"<?xml version="1.0"?><rss version="2.0"><channel><title>Test</title><link>https://example.test</link><item><guid>one</guid><title>One</title></item></channel></rss>"#;

fn head(status: u16, length: Option<u64>) -> Head<'static> {
    Head {
        final_url: "https://example.test/feed",
        status,
        retry_after: None,
        content_length: length,
        header_bytes: 100,
    }
}

fn refused(head: &Head, policy: &FetchPolicy) -> NetworkErrorKind {
    match judge_head(head, FetchKind::Feed, policy, 0) {
        Verdict::Refuse(error) => error.kind,
        other => panic!("{other:?}"),
    }
}

#[test]
fn schemes_are_restricted_but_localhost_is_allowed() {
    let policy = FetchPolicy { max_attempts: 1, ..FetchPolicy::default() };
    for url in ["file:///etc/passwd", "javascript:alert(1)", "data:text/plain,x"] {
        assert_eq!(
            Fetching::start(url, &policy).unwrap_err().kind,
            NetworkErrorKind::UnsupportedScheme
        );
    }
    assert!(Fetching::start("http://localhost:8080/feed", &policy).is_ok());
    assert!(validate_url("http://127.0.0.1/feed").is_ok());
    assert!(validate_url("no address").is_err());
}

#[test]
fn each_status_has_its_verdict() {
    let policy = FetchPolicy::default();
    assert_eq!(
        judge_head(&head(200, None), FetchKind::Feed, &policy, 0),
        Verdict::Read(policy.max_feed_bytes)
    );
    assert_eq!(
        judge_head(&head(200, None), FetchKind::DiscoveryPage, &policy, 0),
        Verdict::Read(policy.max_html_bytes)
    );
    assert_eq!(judge_head(&head(304, None), FetchKind::Feed, &policy, 0), Verdict::NotModified);
    assert_eq!(refused(&head(401, None), &policy), NetworkErrorKind::Unauthorized);
    assert_eq!(refused(&head(403, None), &policy), NetworkErrorKind::Forbidden);
    assert_eq!(refused(&head(404, None), &policy), NetworkErrorKind::NotFound);
    assert_eq!(refused(&head(410, None), &policy), NetworkErrorKind::Gone);
    assert_eq!(refused(&head(429, None), &policy), NetworkErrorKind::RateLimited);
    assert_eq!(refused(&head(503, None), &policy), NetworkErrorKind::Server);
    assert_eq!(refused(&head(418, None), &policy), NetworkErrorKind::InvalidResponse);
}

#[test]
fn long_answers_are_refused_before_and_while_they_are_read() {
    let policy = FetchPolicy { max_feed_bytes: 1024, ..FetchPolicy::default() };
    assert_eq!(refused(&head(200, Some(2048)), &policy), NetworkErrorKind::OversizedResponse);
    let mut many = head(200, None);
    many.header_bytes = MAX_HEADER_BYTES + 1;
    assert_eq!(refused(&many, &policy), NetworkErrorKind::InvalidResponse);
    let mut bytes = Vec::new();
    take_chunk(&mut bytes, &[b'x'; 512], 1024).unwrap();
    take_chunk(&mut bytes, &[b'x'; 512], 1024).unwrap();
    assert_eq!(bytes.len(), 1024);
    assert_eq!(
        take_chunk(&mut bytes, b"x", 1024).unwrap_err().kind,
        NetworkErrorKind::OversizedResponse
    );
    assert_eq!(bytes.len(), 1024);
}

#[test]
fn a_body_has_to_be_text_of_its_kind() {
    let body = accept_body(FetchKind::Feed, Some("text/plain"), RSS.as_bytes().to_vec());
    assert_eq!(body.unwrap(), RSS);
    assert_eq!(
        accept_body(FetchKind::Feed, Some("application/rss+xml"), vec![0xff, 0xfe]).unwrap_err().kind,
        NetworkErrorKind::InvalidResponse
    );
    assert_eq!(
        accept_body(FetchKind::Feed, Some("image/png"), b"nothing".to_vec()).unwrap_err().kind,
        NetworkErrorKind::UnsupportedContent
    );
    assert_eq!(
        accept_body(FetchKind::DiscoveryPage, Some("image/png"), b"nothing".to_vec())
            .unwrap_err()
            .kind,
        NetworkErrorKind::UnsupportedContent
    );
}

#[test]
fn redirects_are_few_and_never_lead_back_from_https() {
    assert_eq!(refuse_redirect(0, Some("https"), "https"), None);
    assert_eq!(refuse_redirect(0, Some("http"), "https"), None);
    assert!(refuse_redirect(0, Some("https"), "http").is_some());
    assert!(refuse_redirect(0, Some("https"), "ftp").is_some());
    assert_eq!(refuse_redirect(MAX_REDIRECTS - 1, None, "http"), None);
    assert_eq!(refuse_redirect(MAX_REDIRECTS, None, "http"), Some("redirect limit exceeded"));
}

#[test]
fn passing_failures_are_tried_again() {
    let policy = FetchPolicy { max_attempts: 2, ..FetchPolicy::default() };
    let first = Fetching::start("https://example.test/feed", &policy).unwrap();
    let server = match judge_head(&head(503, None), FetchKind::Feed, &policy, 0) {
        Verdict::Refuse(error) => error,
        other => panic!("{other:?}"),
    };
    let AfterFailure::TryAgain { delay, next } = first.after_failure(server.clone(), &policy)
    else {
        panic!()
    };
    assert_eq!(delay, 150_000_000);
    assert!(matches!(next.after_failure(server, &policy), AfterFailure::GiveUp(_)));
    let gone = match judge_head(&head(410, None), FetchKind::Feed, &policy, 0) {
        Verdict::Refuse(error) => error,
        other => panic!("{other:?}"),
    };
    assert!(matches!(first.after_failure(gone, &policy), AfterFailure::GiveUp(_)));
}

#[test]
fn a_server_says_when_to_come_back() {
    let now = 1_445_412_470 * SECOND;
    assert_eq!(parse_retry_after("120", now), Some(120 * SECOND));
    assert_eq!(parse_retry_after("Wed, 21 Oct 2015 07:28:00 GMT", now), Some(10 * SECOND));
    assert_eq!(parse_retry_after("soon", now), None);
    let policy = FetchPolicy { max_retry_after: 5 * SECOND, ..FetchPolicy::default() };
    let mut later = head(429, None);
    later.retry_after = Some("120");
    let Verdict::Refuse(error) = judge_head(&later, FetchKind::Feed, &policy, now) else {
        panic!()
    };
    assert_eq!(error.retry_after, Some(120 * SECOND));
    let first = Fetching::start("https://example.test/feed", &policy).unwrap();
    let AfterFailure::TryAgain { delay, .. } = first.after_failure(error, &policy) else {
        panic!()
    };
    assert_eq!(delay, 5 * SECOND);
}

#[test]
fn failures_on_the_way_have_their_kinds() {
    assert_eq!(transport_error("x", true, false, false).kind, NetworkErrorKind::Timeout);
    assert_eq!(transport_error("x", false, true, false).kind, NetworkErrorKind::Redirect);
    assert_eq!(transport_error("refused", false, false, true).kind, NetworkErrorKind::Connectivity);
    assert_eq!(
        transport_error("certificate expired", false, false, true).kind,
        NetworkErrorKind::Tls
    );
    assert_eq!(transport_error("x", false, false, false).kind, NetworkErrorKind::InvalidResponse);
    assert_eq!(cancelled_error().kind, NetworkErrorKind::Cancelled);
}

#[test]
fn discovers_safe_open_graph_image_and_resolves_relative_urls() {
    assert_eq!(
        article_image(
            "https://example.com/news/story",
            r#"<meta property="og:image" content="/images/hero.jpg">"#,
        ),
        Some("https://example.com/images/hero.jpg".into())
    );
    assert_eq!(
        article_image(
            "https://example.com/news/story",
            r#"<meta property="og:image" content="javascript:alert(1)">"#,
        ),
        None
    );
}

#[test]
fn prefers_large_raster_site_icons_and_resolves_relative_urls() {
    let html = r#"
            <link rel="icon" type="image/svg+xml" href="/icon.svg">
            <link rel="icon" type="image/png" sizes="32x32" href="/small.png">
            <link rel="apple-touch-icon" sizes="180x180" href="assets/touch.png">
        "#;
    assert_eq!(
        site_icon("https://example.com/news/", html),
        Some("https://example.com/news/assets/touch.png".into())
    );
}

fn page(body: &str) -> FetchResponse {
    FetchResponse {
        body: body.to_owned(),
        final_url: "https://example.com/news/".to_owned(),
        status: 200,
        content_type: Some("text/html".to_owned()),
        etag: None,
        last_modified: None,
        bytes_received: body.len(),
    }
}

#[test]
fn pages_announce_their_feeds_once_each() {
    let html = r#"<!doctype html><html><head><link rel="alternate" type="application/rss+xml" href="/rss" title="RSS"><link rel="alternate" type="application/atom+xml" href="/atom"><link rel="alternate" type="application/rss+xml" href="/rss"></head></html>"#;
    let found = discover("https://example.com/news/", html).unwrap();
    assert_eq!(found.candidates.len(), 2);
    assert_eq!(found.candidates[0].url, "https://example.com/rss");
    assert_eq!(found.candidates[0].title_hint.as_deref(), Some("RSS"));
    let again = discover_outcome(FetchOutcome::Modified(page(html))).unwrap();
    assert_eq!(again.candidates.len(), 2);
    assert!(discover_outcome(FetchOutcome::NotModified(page(""))).is_err());
}

#[test]
fn fetched_pages_name_pictures_and_icons() {
    let html = r#"<meta property="og:image" content="/hero.jpg"><link rel="icon" type="image/png" href="/icon.png">"#;
    let fetched = FetchOutcome::Modified(page(html));
    assert_eq!(image_outcome(&fetched).as_deref(), Some("https://example.com/hero.jpg"));
    assert_eq!(icon_outcome(&fetched).as_deref(), Some("https://example.com/icon.png"));
    let unchanged = FetchOutcome::NotModified(page(html));
    assert_eq!((image_outcome(&unchanged), icon_outcome(&unchanged)), (None, None));
}

#[test]
fn an_unchanged_page_is_no_article() {
    assert!(article_page(FetchOutcome::Modified(page("<p>Text</p>"))).is_ok());
    assert!(article_page(FetchOutcome::NotModified(page(""))).is_err());
}
