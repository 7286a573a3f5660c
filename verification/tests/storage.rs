//! What a library keeps: folders, subscriptions, articles and their state.

use feedlizard::articles::{format_string, image_source_string, parse_format, safe_fts_query};
use feedlizard::domain::RETENTION_SECONDS;
use feedlizard::identity::feed_id;
use feedlizard::library::{Library, SCHEMA_VERSION};
use feedlizard::opml;
use feedlizard::parser::{FeedFormat, ImageSource};
use feedlizard::records::{
    ArticleListItem, ArticleRow, ArticleScope, FeedRecord, FeedRow, FolderRecord, FolderRow, RefreshMetadata,
    StorageError,
};
use feedlizard::schema::next_migration;
use feedlizard::search_index::search_limit;

const JSON: &str = r#"{"version":"https://jsonfeed.org/version/1.1","title":"JSON Feed","home_page_url":"https://json.example/","items":[{"id":"json-1","url":"/story","title":"JSON Story","content_html":"<p>Hello</p>","date_published":"2026-08-25T12:00:00Z"}]}"#;

const OPML: &str = r#"<?xml version="1.0" encoding="UTF-8"?>
<opml version="2.0">
  <head><title>Subscriptions</title></head>
  <body>
    <outline text="News">
      <outline text="Technology">
        <outline type="rss" text="Example" xmlUrl="https://example.com/feed" htmlUrl="https://example.com/"/>
      </outline>
      <outline type="atom" text="Atom &quot;quoted&quot;" xmlUrl="https://example.net/atom.xml"/>
    </outline>
    <outline type="rss" text="Loose" xmlUrl="https://loose.example/feed"/>
  </body>
</opml>
"#;

fn synthetic(library: &mut Library, total: usize) {
    let items = (0..total)
        .map(|id| {
            format!(
                r#"{{"id":"item-{id}","url":"https://scale.invalid/{id}","title":"Scale article {id}","summary":"Searchable café {id}","content_text":"Offline body {id}"}}"#
            )
        })
        .collect::<Vec<_>>()
        .join(",");
    let document = format!(
        r#"{{"version":"https://jsonfeed.org/version/1.1","title":"Scale feed 0","items":[{items}]}}"#
    );
    library.ingest_document("https://scale.invalid/feed/0", &document, 1_000_000).unwrap();
}

/// The articles that a database finds with the index of the library.
fn search(library: &Library, query: &str, limit: usize) -> rusqlite::Result<Vec<ArticleListItem>> {
    let Some(expression) = safe_fts_query(query) else {
        return Ok(Vec::new());
    };
    let connection = rusqlite::Connection::open_in_memory()?;
    connection.execute_batch(
        "CREATE VIRTUAL TABLE article_fts USING fts5(article_id UNINDEXED, title, summary, content, feed_name, tokenize = 'unicode61 remove_diacritics 2')",
    )?;
    for row in library.index_rows() {
        connection.execute(
            "INSERT INTO article_fts(article_id,title,summary,content,feed_name) VALUES(?1,?2,?3,?4,?5)",
            (row.article_id, row.title, row.summary, row.content, row.feed_name),
        )?;
    }
    let mut statement = connection.prepare(
        "SELECT article_id FROM article_fts WHERE article_fts MATCH ?1 ORDER BY bm25(article_fts) LIMIT ?2",
    )?;
    let found = statement
        .query_map((expression, search_limit(limit) as i64), |row| row.get(0))?
        .collect::<rusqlite::Result<Vec<String>>>()?;
    Ok(library.items_for(&found))
}

#[test]
fn future_schema_is_rejected_safely() {
    assert_eq!(next_migration(99), Err(StorageError::UnsupportedSchema(99)));
}

#[test]
fn every_version_leads_to_the_present_one() {
    let mut version = 0;
    let mut steps = 0;
    while let Some(next) = next_migration(version).unwrap() {
        assert_eq!(next, version + 1);
        version = next;
        steps += 1;
    }
    assert_eq!((version, steps), (SCHEMA_VERSION, 3));
    assert_eq!(Library::new().schema_version(), SCHEMA_VERSION);
}

#[test]
fn ingestion_is_transactional_idempotent_and_updates_existing_articles() {
    let mut library = Library::new();
    let first = library.ingest_document("https://json.example/feed.json", JSON, 100).unwrap();
    assert_eq!((first.inserted, first.updated), (1, 0));
    let second = library.ingest_document("https://json.example/feed.json", JSON, 200).unwrap();
    assert_eq!((second.inserted, second.updated), (0, 1));
    let updated = JSON.replace(
        "]}",
        r#",{"id":"json-2","url":"/two","title":"Second story","content_text":"Needle body"}]}"#,
    );
    let third = library.ingest_document("https://json.example/feed.json", &updated, 300).unwrap();
    assert_eq!((third.inserted, third.updated), (1, 1));
    assert_eq!(library.stats().articles, 2);
    let bad = format!(
        r#"{{"version":"https://jsonfeed.org/version/1.1","title":"Rollback Feed","items":[{{"id":"bad","title":"{}"}}]}}"#,
        "x".repeat(5_000)
    );
    assert!(library.ingest_document("https://rollback.example/feed", &bad, 400).is_err());
    assert_eq!(library.stats().feeds, 1);
}

#[test]
fn reading_state_outlasts_another_intake() {
    let mut library = Library::new();
    library.ingest_document("https://json.example/feed.json", JSON, 100).unwrap();
    let id = library.article_page(ArticleScope::Library, 1, None).items[0].stable_id.clone();
    library.mark_article_read(&id, true, 101).unwrap();
    library.set_article_starred(&id, true, 102).unwrap();
    library.ingest_document("https://json.example/feed.json", JSON, 200).unwrap();
    let article = library.full_article(&id).unwrap();
    assert!(article.is_read && article.is_starred);
}

#[test]
fn bleeping_identity_and_duplicate_subscription_are_constrained() {
    let mut library = Library::new();
    let id = library
        .add_subscription(
            "https://www.bleepingcomputer.com/feed/",
            "BleepingComputer",
            FeedFormat::Rss,
            None,
            1,
        )
        .unwrap();
    assert_eq!(
        id,
        "feed:v1:c550f13a25b17b26fcdce9c39c9490ac5d66953e75b94abbea0413637e3ac4ff"
    );
    assert!(library
        .add_subscription(
            "https://www.bleepingcomputer.com/feed",
            "Duplicate",
            FeedFormat::Rss,
            None,
            2
        )
        .is_err());
}

#[test]
fn folder_operations_preserve_and_unfile_feeds() {
    let mut library = Library::new();
    let parent = library.create_folder("Technology", None, 1).unwrap();
    let child = library.create_folder("Security", Some(parent.id), 2).unwrap();
    library.rename_folder(child.id, "Infosec", 3).unwrap();
    let feed = library
        .add_subscription("https://example.com/feed", "Example", FeedFormat::Rss, None, 4)
        .unwrap();
    library.move_feed(&feed, Some(child.id), 5).unwrap();
    assert_eq!(library.list_feeds()[0].folder_id, Some(child.id));
    library.delete_folder(child.id).unwrap();
    assert_eq!(library.list_feeds()[0].folder_id, None);
    assert_eq!(library.list_folders().len(), 1);
}

#[test]
fn folders_have_names_of_their_own() {
    let mut library = Library::new();
    let folder = library.create_folder("  News ", None, 1).unwrap();
    assert_eq!(folder.name, "News");
    assert_eq!(library.create_folder("News", None, 2).unwrap(), folder);
    assert!(matches!(library.create_folder("   ", None, 3), Err(StorageError::InvalidInput(_))));
    let inner = library.create_folder("News", Some(folder.id), 4).unwrap();
    let other = library.create_folder("Other", Some(folder.id), 4).unwrap();
    assert_ne!(inner.id, folder.id);
    assert!(matches!(
        library.rename_folder(other.id, "NEWS", 5),
        Err(StorageError::Constraint(_))
    ));
    assert!(matches!(library.rename_folder(999, "Other", 5), Err(StorageError::NotFound(_))));
    assert!(matches!(library.delete_folder(999), Err(StorageError::NotFound(_))));
    assert_eq!(library.list_folders().len(), 3);
}

#[test]
fn subscriptions_go_with_their_articles() {
    let mut library = Library::new();
    library.ingest_document("https://json.example/feed.json", JSON, 100).unwrap();
    let feed = library.list_feeds().remove(0);
    assert_eq!(feed.display_name, "JSON Feed");
    assert_eq!(library.feed(&feed.stable_id).unwrap(), feed);
    library.remove_subscription(&feed.stable_id).unwrap();
    assert_eq!((library.stats().feeds, library.stats().articles), (0, 0));
    assert!(matches!(library.feed(&feed.stable_id), Err(StorageError::NotFound(_))));
    assert!(matches!(
        library.remove_subscription(&feed.stable_id),
        Err(StorageError::NotFound(_))
    ));
}

#[test]
fn a_name_of_ones_own_comes_and_goes() {
    let mut library = Library::new();
    let feed = library
        .add_subscription("https://example.com/feed", "Example", FeedFormat::Rss, None, 4)
        .unwrap();
    library.set_feed_custom_name(&feed, Some("Renamed Café"), 101).unwrap();
    assert_eq!(library.feed(&feed).unwrap().display_name, "Renamed Café");
    library.set_feed_custom_name(&feed, None, 102).unwrap();
    assert_eq!(library.feed(&feed).unwrap().display_name, "Example");
    assert!(library.set_feed_custom_name("feed:v1:none", Some("Name"), 103).is_err());
}

#[test]
fn only_web_addresses_are_subscribed() {
    let mut library = Library::new();
    assert!(matches!(
        library.add_subscription("file:///tmp/feed", "Local", FeedFormat::Rss, None, 1),
        Err(StorageError::InvalidInput(_))
    ));
    assert_eq!(library.stats().feeds, 0);
}

#[test]
fn refreshes_are_recorded() {
    let mut library = Library::new();
    let feed = library
        .add_subscription("https://example.com/feed", "Example", FeedFormat::Rss, None, 4)
        .unwrap();
    let failure = RefreshMetadata {
        etag: None,
        last_modified: None,
        attempted_at: 10,
        succeeded_at: None,
        http_status: Some(500),
        failure_category: Some("server".to_owned()),
        final_fetch_url: None,
    };
    library.record_refresh(&feed, &failure).unwrap();
    library.record_refresh(&feed, &failure).unwrap();
    let row = library.feed(&feed).unwrap();
    assert_eq!((row.consecutive_failures, row.last_http_status), (2, Some(500)));
    let success = RefreshMetadata {
        etag: Some("\"one\"".to_owned()),
        last_modified: None,
        attempted_at: 20,
        succeeded_at: Some(20),
        http_status: Some(200),
        failure_category: None,
        final_fetch_url: None,
    };
    library.record_refresh(&feed, &success).unwrap();
    let row = library.feed(&feed).unwrap();
    assert_eq!((row.consecutive_failures, row.etag.as_deref()), (0, Some("\"one\"")));
    assert!(matches!(
        library.record_refresh("feed:v1:none", &success),
        Err(StorageError::NotFound(_))
    ));
}

#[test]
fn read_and_star_are_independent_and_mark_all_is_set_based() {
    let mut library = Library::new();
    library.ingest_document("https://json.example/feed.json", JSON, 100).unwrap();
    let article = library.article_page(ArticleScope::Library, 10, None).items.remove(0);
    library.set_article_starred(&article.stable_id, true, 101).unwrap();
    library.mark_article_read(&article.stable_id, true, 102).unwrap();
    library.mark_article_read(&article.stable_id, false, 103).unwrap();
    let full = library.full_article(&article.stable_id).unwrap();
    assert!(!full.is_read && full.is_starred);
    assert_eq!(library.mark_all_read(ArticleScope::Library, 104), 1);
    assert_eq!(library.unread_count(ArticleScope::Library), 0);
    assert!(library.full_article(&article.stable_id).unwrap().is_starred);
    assert_eq!(library.unstar_all(105), 1);
    assert!(!library.full_article(&article.stable_id).unwrap().is_starred);
    assert_eq!(library.unstar_all(106), 0);
}

#[test]
fn what_is_not_there_cannot_be_marked() {
    let mut library = Library::new();
    assert!(matches!(library.mark_article_read("none", true, 1), Err(StorageError::NotFound(_))));
    assert!(matches!(library.set_article_starred("none", true, 1), Err(StorageError::NotFound(_))));
    assert!(matches!(library.full_article("none"), Err(StorageError::NotFound(_))));
}

#[test]
fn article_order_uses_updated_time_and_paginates_undated_items_last() {
    let mut library = Library::new();
    let document = r#"{
        "version":"https://jsonfeed.org/version/1.1",
        "title":"Dates",
        "items":[
          {"id":"published","title":"Published","date_published":"2026-07-01T00:00:00Z"},
          {"id":"updated","title":"Updated","date_modified":"2026-08-01T00:00:00Z"},
          {"id":"undated","title":"Undated"}
        ]
    }"#;
    library
        .ingest_document("https://dates.example/feed.json", document, 2_000_000_000)
        .unwrap();

    let first = library.article_page(ArticleScope::Library, 1, None);
    assert_eq!(first.items[0].title, "Updated");
    let second = library.article_page(ArticleScope::Library, 1, first.next.as_ref());
    assert_eq!(second.items[0].title, "Published");
    let third = library.article_page(ArticleScope::Library, 1, second.next.as_ref());
    assert_eq!(third.items[0].title, "Undated");
}

#[test]
fn retention_honors_boundary_fallback_star_and_fts_deletion() {
    let mut library = Library::new();
    let base = 2_000_000_000;
    let document = r#"{"version":"https://jsonfeed.org/version/1.1","title":"Retention","items":[{"id":"old","title":"Old searchable","date_published":"2000-01-01T00:00:00Z"},{"id":"boundary","title":"Boundary"},{"id":"new","title":"New"}]}"#;
    library
        .ingest_document("https://retention.example/feed", document, base - RETENTION_SECONDS)
        .unwrap();
    let items = library.article_page(ArticleScope::Library, 10, None).items;
    let old = items.iter().find(|v| v.title == "Old searchable").unwrap();
    library.set_article_starred(&old.stable_id, true, base).unwrap();
    assert_eq!(library.cleanup_retention(base - RETENTION_SECONDS, 100), 0);
    library.set_article_starred(&old.stable_id, false, base).unwrap();
    assert_eq!(library.cleanup_retention(base - RETENTION_SECONDS, 100), 1);
    assert!(search(&library, "Old searchable", 10).unwrap().is_empty());
    assert!(library.items_for(&vec![old.stable_id.clone()]).is_empty());
    assert_eq!(library.stats().articles, 2);
}

#[test]
fn search_is_safe_unicode_and_tracks_feed_rename() {
    let mut library = Library::new();
    library.ingest_document("https://json.example/feed.json", JSON, 100).unwrap();
    let feed = feed_id("https://json.example/feed.json");
    assert_eq!(search(&library, "café", 10).unwrap().len(), 0);
    assert_eq!(search(&library, "JSON Story", 10).unwrap().len(), 1);
    assert!(search(&library, "\" OR NOT *", 10).is_ok());
    assert!(search(&library, "", 10).unwrap().is_empty());
    library.set_feed_custom_name(&feed, Some("Renamed Café"), 101).unwrap();
    assert_eq!(search(&library, "Renamed Café", 10).unwrap().len(), 1);
    library.set_feed_custom_name(&feed, None, 102).unwrap();
    assert!(search(&library, "Renamed Café", 10).unwrap().is_empty());
}

#[test]
fn search_expressions_are_safe() {
    assert_eq!(safe_fts_query(""), None);
    assert_eq!(safe_fts_query("  \" "), Some("\"\"\"\"*".to_owned()));
    assert_eq!(safe_fts_query("JSON Story"), Some("\"JSON\"* AND \"Story\"*".to_owned()));
    let hostile = safe_fts_query("\" OR NOT *").unwrap();
    assert_eq!(hostile, "\"\"\"\"* AND \"OR\"* AND \"NOT\"* AND \"*\"*");
}

#[test]
fn projections_paginate_without_loading_full_content() {
    let mut library = Library::new();
    synthetic(&mut library, 25);
    let first = library.article_page(ArticleScope::Library, 10, None);
    assert_eq!(first.items.len(), 10);
    let second = library.article_page(ArticleScope::Library, 10, first.next.as_ref());
    assert_eq!(second.items.len(), 10);
    assert!(first.items.iter().all(|item| {
        !second.items.iter().any(|other| other.stable_id == item.stable_id)
    }));
    let full = library.full_article(&first.items[0].stable_id).unwrap();
    assert!(full.content.unwrap().contains("Offline body"));
}

#[test]
fn pages_cover_every_article_once() {
    let mut library = Library::new();
    synthetic(&mut library, 25);
    let mut seen: Vec<String> = Vec::new();
    let mut cursor = None;
    loop {
        let page = library.article_page(ArticleScope::Library, 7, cursor.as_ref());
        seen.extend(page.items.into_iter().map(|item| item.stable_id));
        match page.next {
            Some(next) => cursor = Some(next),
            None => break,
        }
    }
    assert_eq!(seen.len(), 25);
    seen.sort();
    seen.dedup();
    assert_eq!(seen.len(), 25);
}

#[test]
fn opml_import_export_and_repeat_are_transactional_and_equivalent() {
    let mut library = Library::new();
    let first = library.import_opml(OPML, 100).unwrap();
    assert_eq!((first.feeds_added, first.folders_created), (3, 2));
    let second = library.import_opml(OPML, 200).unwrap();
    assert_eq!((second.feeds_added, second.duplicates), (0, 3));
    let exported = library.export_opml("Thu, 01 Jan 1970 00:00:00 +0000").unwrap();
    let restored = opml::import(&exported).unwrap();
    assert_eq!(restored.feeds.len(), 3);
    assert_eq!(library.stats().feeds, 3);
    let before = library.stats();
    assert!(library
        .import_opml("<opml><body><outline type='rss' text='bad'/></body></opml>", 300)
        .is_ok());
    assert_eq!(library.stats(), before);
}

#[test]
fn an_import_keeps_what_is_there() {
    let mut library = Library::new();
    library.ingest_document("https://json.example/feed.json", JSON, 100).unwrap();
    let before = library.list_feeds().remove(0);
    library.import_opml(OPML, 200).unwrap();
    assert_eq!(library.feed(&before.stable_id).unwrap(), before);
    assert_eq!((library.stats().feeds, library.stats().articles), (4, 1));
    assert!(matches!(library.import_opml("<opml", 300), Err(StorageError::ImportExport(_))));
    assert_eq!(library.stats().feeds, 4);
}

#[test]
fn deterministic_thousand_article_library_stays_consistent() {
    let mut library = Library::new();
    synthetic(&mut library, 1_000);
    assert_eq!(library.stats().articles, 1_000);
    assert_eq!(library.article_page(ArticleScope::Library, 50, None).items.len(), 50);
    assert_eq!(library.unread_count(ArticleScope::Library), 1_000);
    assert_eq!(library.mark_all_read(ArticleScope::Library, 10), 1_000);
}

fn feed_row(id: &str, etag: &str, date: &str) -> FeedRow {
    FeedRow {
        feed: FeedRecord {
            stable_id: id.to_owned(),
            normalized_url: format!("https://{id}.example/feed"),
            fetch_url: format!("https://{id}.example/feed"),
            effective_fetch_url: None,
            site_url: None,
            display_name: id.to_owned(),
            publisher_name: id.to_owned(),
            custom_name: None,
            format: FeedFormat::Rss,
            folder_id: None,
            favicon_url: None,
            feed_image_url: None,
            etag: Some(etag.to_owned()),
            last_modified: Some(date.to_owned()),
            last_refresh_attempt_at: None,
            last_refresh_at: None,
            last_http_status: None,
            consecutive_failures: 0,
            last_refresh_status: None,
        },
        description: None,
        icon_candidates: None,
        last_refresh_error: None,
        created_at: 1,
        modified_at: 1,
    }
}

fn article_row(id: &str, feed: &str, published_at: Option<i64>) -> ArticleRow {
    ArticleRow {
        stable_id: id.to_owned(),
        feed_stable_id: feed.to_owned(),
        provider_id: None,
        url: None,
        title: id.to_owned(),
        author: None,
        summary: None,
        content: None,
        published_at,
        updated_at: None,
        inserted_at: 10,
        image_url: None,
        image_source: None,
        enclosure_url: None,
        enclosure_type: None,
        is_read: false,
        is_starred: false,
        retention_at: 10,
        modified_at: 10,
    }
}

#[test]
fn version_three_refetches_only_feeds_with_undated_articles() {
    let mut library = Library::assemble(
        vec![],
        vec![feed_row("undated", "etag-a", "date-a"), feed_row("dated", "etag-b", "date-b")],
        vec![article_row("article-a", "undated", None), article_row("article-b", "dated", Some(9))],
    )
    .unwrap();
    library.refetch_undated();
    let undated = library.feed("undated").unwrap();
    let dated = library.feed("dated").unwrap();
    assert_eq!((undated.etag, undated.last_modified), (None, None));
    assert_eq!(
        (dated.etag.as_deref(), dated.last_modified.as_deref()),
        (Some("etag-b"), Some("date-b"))
    );
}

#[test]
fn rows_that_do_not_fit_together_are_refused() {
    let stray = Library::assemble(
        vec![],
        vec![feed_row("known", "a", "b")],
        vec![article_row("article", "unknown", None)],
    );
    assert!(stray.is_err());
    let twice = Library::assemble(
        vec![],
        vec![feed_row("same", "a", "b"), feed_row("same", "a", "b")],
        vec![],
    );
    assert!(twice.is_err());
    let folder = FolderRow {
        folder: FolderRecord {
            id: 1,
            stable_id: "folder-1".to_owned(),
            name: "Folder".to_owned(),
            parent_id: None,
            sort_order: 0,
        },
        created_at: 1,
        modified_at: 1,
    };
    assert!(Library::assemble(vec![folder], vec![], vec![]).is_ok());
}

#[test]
fn names_of_formats_and_picture_sources_are_read_back() {
    for format in [FeedFormat::Rss, FeedFormat::Atom, FeedFormat::Json] {
        assert_eq!(parse_format(format_string(format)), Some(format));
    }
    assert_eq!(parse_format("other"), None);
    assert_eq!(image_source_string(ImageSource::InlineHtml), "inline");
}

#[test]
fn storage_errors_have_their_words() {
    assert_eq!(
        StorageError::UnsupportedSchema(99).message(),
        "unsupported database schema version 99"
    );
    assert_eq!(StorageError::NotFound("feed").message(), "feed was not found");
}

#[test]
fn the_same_document_later_finds_the_same_articles() {
    let mut library = Library::new();
    let url = "https://json.example/feed.json";
    let document = JSON.replace("]}", r#",{"id":"json-2","title":"Undated"}]}"#);
    let first = library.ingest_document(url, &document, 100).unwrap();
    assert_eq!((first.inserted, first.updated), (2, 0));
    let before = library.article_page(ArticleScope::Library, 10, None).items;
    library.mark_article_read(&before[0].stable_id, true, 101).unwrap();
    let second = library.ingest_document(url, &document, 900).unwrap();
    assert_eq!((second.inserted, second.updated), (0, first.inserted + first.updated));
    let after = library.article_page(ArticleScope::Library, 10, None).items;
    let ids = |items: &[ArticleListItem]| -> Vec<String> {
        items.iter().map(|item| item.stable_id.clone()).collect()
    };
    assert_eq!(ids(&before), ids(&after));
    assert!(!after[0].is_unread && after[1].is_unread);
}

#[test]
fn a_known_feed_under_too_long_an_address_is_refused() {
    let mut library = Library::new();
    let url = "https://json.example/feed.json";
    library.ingest_document(url, JSON, 100).unwrap();
    let long = format!("{url}#{}", "x".repeat(5_000));
    assert!(matches!(
        library.ingest_document(&long, JSON, 200),
        Err(StorageError::Constraint(_))
    ));
    assert_eq!(library.stats().feeds, 1);
}

fn refusal<T: std::fmt::Debug>(result: Result<T, StorageError>) -> String {
    match result {
        Err(StorageError::Constraint(text)) => text,
        other => panic!("{other:?}"),
    }
}

#[test]
fn refusals_have_the_words_of_the_database() {
    let mut library = Library::new();
    let long = format!("https://example.com/{}", "x".repeat(5_000));
    let mut add = |url: &str| library.add_subscription(url, "A", FeedFormat::Rss, None, 1);
    let id = add("https://example.com/feed").unwrap();
    assert_eq!(
        refusal(add("https://example.com/feed/")),
        "UNIQUE constraint failed: feeds.normalized_url"
    );
    assert_eq!(
        refusal(add(&long)),
        "CHECK constraint failed: length(normalized_url) BETWEEN 1 AND 4096"
    );
    assert_eq!(
        refusal(add(&format!("https://example.com/feed#{}", "x".repeat(5_000)))),
        "CHECK constraint failed: length(fetch_url) BETWEEN 1 AND 4096"
    );
    assert_eq!(
        refusal(library.move_feed(&id, Some(9), 1)),
        "FOREIGN KEY constraint failed"
    );
    assert_eq!(
        refusal(library.create_folder(&"y".repeat(600), Some(9), 1)),
        "CHECK constraint failed: length(name) BETWEEN 1 AND 500"
    );
    assert_eq!(
        refusal(library.create_folder("Inner", Some(9), 1)),
        "FOREIGN KEY constraint failed"
    );
    let outer = library.create_folder("Outer", None, 1).unwrap().id;
    library.create_folder("One", Some(outer), 1).unwrap();
    let two = library.create_folder("Two", Some(outer), 1).unwrap().id;
    assert_eq!(
        refusal(library.rename_folder(two, "ONE", 1)),
        "UNIQUE constraint failed: folders.parent_id, folders.name"
    );
    let untitled = format!(
        r#"<opml version="2.0"><body><outline text="{}" xmlUrl="https://other.example/feed"/></body></opml>"#,
        "z".repeat(1_200)
    );
    assert_eq!(
        refusal(library.import_opml(&untitled, 1)),
        "CHECK constraint failed: length(display_name) BETWEEN 1 AND 1000"
    );
    let article = format!(
        r#"{{"version":"https://jsonfeed.org/version/1.1","title":"T","items":[{{"id":"1","title":"{}"}}]}}"#,
        "t".repeat(5_000)
    );
    assert_eq!(
        refusal(library.ingest_document("https://third.example/feed", &article, 1)),
        "CHECK constraint failed: length(title) BETWEEN 1 AND 4000"
    );
}
