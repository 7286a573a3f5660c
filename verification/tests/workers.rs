//! Wishes and what comes of them: in the library, on the network, on the
//! desktop and in the window.

use feedlizard::desk::{
    backup_notice, move_selection, network_follow_up, network_notice, scope_of_tag, scope_title,
    signal_rows, sync_status, Desk, FollowUp, RowAction, SidebarAction, MAX_PICTURE_REQUESTS,
};
use feedlizard::integration::{
    read_state, IntegrationError, IntegrationState, UnreadFolder, SUMMARY_LIMIT,
};
use feedlizard::library::Library;
use feedlizard::network::{FetchResponse, NetworkError, NetworkErrorKind};
use feedlizard::network_worker::{
    added_event, all_refreshed_event, extracted_event, icon_candidates, keep_icons, keep_images, offer,
    refreshed_event, Additions, Event as NetworkEvent,
};
use feedlizard::nostr_worker::Event as NostrEvent;
use feedlizard::page_discovery::discover;
use feedlizard::parser::FeedFormat;
use feedlizard::records::{ArticleScope, IngestStats, PageCursor};
use feedlizard::refresh::{AddFeedResult, RefreshError, RefreshSummary};
use feedlizard::worker::{
    change_made, change_wished, handle, list_written, search_results, take_in_text, Change,
    Command, Event, OwnedScope, Step,
};

const JSON: &str = r#"{"version":"https://jsonfeed.org/version/1.1","title":"JSON Feed","items":[{"id":"json-1","url":"https://json.example/story","title":"JSON Story","content_html":"<p>Hello</p>"},{"id":"json-2","url":"https://json.example/other","title":"Other"}]}"#;

fn library() -> Library {
    let mut library = Library::new();
    library.ingest_document("https://json.example/feed.json", JSON, 100).unwrap();
    library
}

fn reply(library: &mut Library, command: Command) -> Result<Event, String> {
    match handle(library, command, 200) {
        Step::Reply(result) => result,
        other => panic!("{other:?}"),
    }
}

#[test]
fn the_library_is_shown() {
    let mut library = library();
    let Ok(Event::Navigation { feeds, folders, stats }) =
        reply(&mut library, Command::LoadNavigation)
    else {
        panic!()
    };
    assert_eq!((feeds.len(), folders.len(), stats.unread), (1, 0, 2));
    let Ok(Event::Articles { items, next, append, .. }) =
        reply(&mut library, Command::LoadArticles(OwnedScope::Unread))
    else {
        panic!()
    };
    assert_eq!((items.len(), next.is_some(), append), (2, false, false));
    let id = items[0].stable_id.clone();
    let Ok(Event::Article(article)) = reply(&mut library, Command::OpenArticle(id.clone())) else {
        panic!()
    };
    assert_eq!(article.stable_id, id);
    assert!(reply(&mut library, Command::OpenArticle("none".into())).is_err());
}

#[test]
fn wishes_change_the_library() {
    let mut library = library();
    let id = library.article_page(ArticleScope::Library, 1, None).items[0].stable_id.clone();
    let feed = library.list_feeds()[0].stable_id.clone();
    for command in [
        Command::SetRead { id: id.clone(), read: true },
        Command::SetStarred { id: id.clone(), starred: true },
        Command::CreateFolder("News".into()),
        Command::RenameFeed { id: feed.clone(), name: Some("Mine".into()) },
    ] {
        assert!(reply(&mut library, command).is_ok());
    }
    let folder = library.list_folders()[0].id;
    assert!(reply(
        &mut library,
        Command::MoveFeed { id: feed.clone(), folder_id: Some(folder) }
    )
    .is_ok());
    assert!(reply(&mut library, Command::RenameFolder { id: folder, name: "Other".into() }).is_ok());
    let stats = library.stats();
    assert_eq!((stats.unread, stats.starred, stats.folders), (1, 1, 1));
    assert_eq!(library.list_feeds()[0].display_name, "Mine");
    assert_eq!(library.list_feeds()[0].folder_id, Some(folder));
    assert!(reply(&mut library, Command::MarkAllRead(OwnedScope::Library)).is_ok());
    assert!(reply(&mut library, Command::UnstarAll).is_ok());
    assert_eq!((library.stats().unread, library.stats().starred), (0, 0));
    assert!(reply(&mut library, Command::DeleteFolder(folder)).is_ok());
    assert!(reply(&mut library, Command::RemoveFeed(feed)).is_ok());
    assert_eq!(library.stats().feeds, 0);
}

#[test]
fn refused_wishes_change_nothing() {
    let mut library = library();
    let before = library.stats();
    assert!(reply(&mut library, Command::CreateFolder("  ".into())).is_err());
    assert!(reply(&mut library, Command::SetRead { id: "none".into(), read: true }).is_err());
    assert!(reply(&mut library, Command::RemoveFeed("none".into())).is_err());
    assert_eq!(library.stats(), before);
}

#[test]
fn lists_go_through_files() {
    let mut library = library();
    assert!(matches!(
        handle(&mut library, Command::ImportOpml("/tmp/a.opml".into()), 200),
        Step::ReadList { path } if path == "/tmp/a.opml"
    ));
    let Step::WriteList { path, text } =
        handle(&mut library, Command::ExportOpml("/tmp/b.opml".into()), 200)
    else {
        panic!()
    };
    assert_eq!(path, "/tmp/b.opml");
    let mut other = Library::new();
    let Ok(Event::Notice(notice)) = take_in_text(&mut other, &text, 300) else { panic!() };
    assert_eq!(notice, "Imported 1 feed and 0 folders");
    assert_eq!(other.stats().feeds, 1);
    assert!(take_in_text(&mut other, "no list", 300).is_err());
    assert!(matches!(list_written(), Event::Notice(text) if text == "OPML export complete"));
}

#[test]
fn searches_use_the_index() {
    let mut library = library();
    let Step::Find { query, expression } =
        handle(&mut library, Command::Search("JSON Story".into()), 200)
    else {
        panic!()
    };
    assert_eq!(expression.as_deref(), Some("\"JSON\"* AND \"Story\"*"));
    let ids = library
        .article_page(ArticleScope::Library, 10, None)
        .items
        .into_iter()
        .map(|item| item.stable_id)
        .rev()
        .collect::<Vec<_>>();
    let Event::SearchResults { query, items } = search_results(&library, query, &ids) else {
        panic!()
    };
    assert_eq!(query, "JSON Story");
    assert_eq!(items.into_iter().map(|item| item.stable_id).collect::<Vec<_>>(), ids);
}

#[test]
fn state_is_bounded_and_contains_no_private_data() {
    let mut library = Library::new();
    for index in 0..8 {
        let folder = library.create_folder(&format!("Folder {index}"), None, index).unwrap();
        let url = format!("https://private-{index}.example/feed");
        let id = library.add_subscription(&url, "Private", FeedFormat::Rss, None, index).unwrap();
        library.move_feed(&id, Some(folder.id), index).unwrap();
        let items = (0..=index)
            .map(|article| {
                format!(
                    "<item><title>Article {article}</title><guid>{index}-{article}</guid></item>"
                )
            })
            .collect::<String>();
        let document = format!(
            "<rss version=\"2.0\"><channel><title>Private</title><link>https://private-{index}.example</link>{items}</channel></rss>"
        );
        library.ingest_document(&url, &document, 100).unwrap();
    }

    let state = read_state(&library);
    assert_eq!(state.total_unread, 36);
    assert_eq!(state.folders.len(), SUMMARY_LIMIT);
    assert_eq!(state.folders[0].name, "Folder 7");
    let told = format!("{state:?}");
    assert!(!told.contains("private-"));
    assert!(!told.contains("sqlite"));
    assert!(!told.contains("nsec"));
}

#[test]
fn empty_library_reports_zero() {
    assert_eq!(read_state(&Library::new()).total_unread, 0);
}

#[test]
fn what_the_desktop_is_told_is_plain() {
    let state = IntegrationState {
        protocol_version: 1,
        total_unread: 1_000_000,
        folders: vec![UnreadFolder { id: 1, name: "News".into(), unread: 1_000_000 }],
    };
    assert_eq!(state.clone(), state);
    assert_eq!(read_state(&Library::new()).protocol_version, 1);
    assert!(!IntegrationError::Service("gone".into()).message().is_empty());
}

#[test]
fn pictures_and_icons_are_kept_where_they_belong() {
    let mut library = library();
    let id = library.article_page(ArticleScope::Library, 1, None).items[0].stable_id.clone();
    let feed = library.list_feeds()[0].stable_id.clone();
    keep_images(
        &mut library,
        &vec![
            (id.clone(), "https://json.example/hero.jpg".into()),
            ("none".into(), "https://json.example/other.jpg".into()),
        ],
    );
    let item = library.items_for(&vec![id]).remove(0);
    assert_eq!(item.thumbnail_url.as_deref(), Some("https://json.example/hero.jpg"));
    keep_icons(
        &mut library,
        &vec![
            (feed.clone(), "https://json.example/icon.png".into()),
            ("none".into(), "https://json.example/icon.png".into()),
        ],
        300,
    );
    assert_eq!(
        library.feed(&feed).unwrap().favicon_url.as_deref(),
        Some("https://json.example/icon.png")
    );
}

#[test]
fn work_on_the_network_is_told() {
    let stats = IngestStats { inserted: 4, updated: 0, duplicates_in_document: 0 };
    let added = added_event(Ok(AddFeedResult::Added { feed_id: "feed".into(), ingest: stats }));
    assert!(matches!(&added, NetworkEvent::FeedAdded { articles: 4, .. }));
    assert_eq!(network_notice(&added, None).unwrap(), "Feed added with 4 articles");
    assert_eq!(network_follow_up(&added), FollowUp::ReloadFeed);
    let failed = added_event(Err(RefreshError::InvalidUrl));
    assert!(matches!(failed, NetworkEvent::Error(_)));
    assert!(matches!(
        refreshed_event(Err(RefreshError::Network(NetworkError::new(
            NetworkErrorKind::Timeout,
            "late"
        )))),
        NetworkEvent::Error(_)
    ));
    assert!(matches!(
        all_refreshed_event(Err(RefreshError::InvalidUrl)),
        NetworkEvent::Error(_)
    ));
    let html = r#"<link rel="alternate" type="application/rss+xml" href="/rss" title="RSS">"#;
    let found = discover("https://example.com/", html).unwrap();
    assert_eq!(
        offer(&found.candidates),
        vec![("https://example.com/rss".to_owned(), Some("RSS".to_owned()))]
    );
}

#[test]
fn several_feeds_are_added_together() {
    let stats = IngestStats { inserted: 3, updated: 0, duplicates_in_document: 0 };
    let mut additions = Additions::start();
    additions.count(
        "One".into(),
        &Ok(AddFeedResult::Added { feed_id: "one".into(), ingest: stats }),
    );
    additions.count("Two".into(), &Err(RefreshError::InvalidUrl));
    let event = additions.event();
    assert_eq!(
        network_notice(&event, None).unwrap(),
        "Added 1 feed with 3 articles; couldn’t add Two"
    );
    assert_eq!(network_follow_up(&event), FollowUp::ReloadAll);
}

#[test]
fn notices_are_in_words() {
    let refreshed = |inserted, failed| NetworkEvent::FeedRefreshed { inserted, failed };
    assert_eq!(network_notice(&refreshed(0, false), None).unwrap(), "Feed is unchanged");
    assert_eq!(network_notice(&refreshed(1, false), None).unwrap(), "Added 1 new article");
    assert_eq!(
        network_notice(&refreshed(0, true), None).unwrap(),
        "Feed refresh failed; existing articles were preserved"
    );
    let none = NetworkEvent::DiscoveryCandidates(vec![]);
    assert_eq!(network_notice(&none, None).unwrap(), "No feeds were discovered");
    let summary = RefreshSummary {
        total: 6,
        completed: 6,
        successful: 3,
        unchanged: 2,
        failed: 1,
        cancelled: 0,
    };
    assert_eq!(
        network_notice(&NetworkEvent::RefreshComplete(summary), None).unwrap(),
        "Refresh complete: 3 updated, 2 unchanged, 1 failed"
    );
    let status = sync_status(&summary);
    assert_eq!(
        (status.value.as_str(), status.detail.as_str(), status.status.as_str()),
        ("DEGRADED", "1 FAILED", "SYNC DEGRADED  //  6 COMPLETE  //  1 FAILED")
    );
    let unread = NetworkEvent::ArticleExtractionFailed { article_id: "a".into(), error: "e".into() };
    assert_eq!(network_notice(&unread, Some("a")).as_deref(), Some("e"));
    assert_eq!(network_notice(&unread, Some("b")), None);
    assert_eq!(
        backup_notice(&NostrEvent::BackupComplete { successful: 2, failed: 1 }).unwrap(),
        "Encrypted backup accepted by 2 relays; 1 failed"
    );
    assert_eq!(
        backup_notice(&NostrEvent::RestoreComplete { added: 1, duplicates: 2 }).unwrap(),
        "Restore complete: 1 added, 2 already present"
    );
    assert_eq!(backup_notice(&NostrEvent::Status(None)), None);
}

#[test]
fn pages_are_read_for_their_articles() {
    let response = FetchResponse {
        body: "<p>Full text</p>".into(),
        final_url: "https://example.com/story".into(),
        status: 200,
        content_type: None,
        etag: None,
        last_modified: None,
        bytes_received: 16,
    };
    let event = extracted_event("article".into(), Ok(response));
    assert!(matches!(event, NetworkEvent::ArticleExtracted { article_id, .. } if article_id == "article"));
    let late = NetworkError::new(NetworkErrorKind::Timeout, "late");
    let event = extracted_event("article".into(), Err(late));
    assert!(matches!(event, NetworkEvent::ArticleExtractionFailed { .. }));
}

#[test]
fn sidebar_tags_name_their_articles() {
    assert_eq!(scope_of_tag("scope:unread"), Some(OwnedScope::Unread));
    assert_eq!(scope_of_tag("scope:starred"), Some(OwnedScope::Starred));
    assert_eq!(scope_of_tag("feed:feed:v1:abc"), Some(OwnedScope::Feed("feed:v1:abc".into())));
    assert_eq!(scope_of_tag("folder:12"), Some(OwnedScope::Folder(12)));
    assert_eq!(scope_of_tag("folder:-9223372036854775808"), Some(OwnedScope::Folder(i64::MIN)));
    assert_eq!(scope_of_tag("folder:x"), Some(OwnedScope::Library));
    assert_eq!(scope_of_tag("other"), None);
    assert_eq!(scope_title(&OwnedScope::Starred), "Starred");
    let mut desk = Desk::new();
    let SidebarAction::Show { scope, manage, recount } = desk.activate_tag("folder:3") else {
        panic!()
    };
    assert_eq!((scope, manage, recount), (OwnedScope::Folder(3), true, true));
    assert_eq!(desk.scope(), OwnedScope::Folder(3));
    assert!(matches!(desk.activate_tag("settings"), SidebarAction::Settings));
    assert!(matches!(desk.activate_tag("other"), SidebarAction::Nothing));
}

#[test]
fn rows_open_and_load_more_once() {
    let library = library();
    let items = library.article_page(ArticleScope::Library, 10, None).items;
    let first = items[0].stable_id.clone();
    let mut desk = Desk::new();
    let next = PageCursor { before_timestamp: 1, before_id: "x".into(), undated: false };
    desk.show_articles(OwnedScope::Library, items.clone(), Some(next), false);
    assert!(matches!(desk.activate_row(0), RowAction::Open(id) if id == first));
    assert!(matches!(desk.activate_row(2), RowAction::LoadMore(OwnedScope::Library, _)));
    assert!(matches!(desk.activate_row(2), RowAction::Nothing));
    desk.show_articles(OwnedScope::Library, items, None, true);
    assert_eq!(desk.items().len(), 4);
    desk.show_picture(&first, "https://json.example/hero.jpg");
    assert_eq!(
        desk.items()[0].thumbnail_url.as_deref(),
        Some("https://json.example/hero.jpg")
    );
}

#[test]
fn pictures_icons_and_pages_are_asked_for_once() {
    let library = library();
    let items = library.article_page(ArticleScope::Library, 10, None).items;
    let mut desk = Desk::new();
    assert_eq!(desk.wanted_pictures(&items).len(), 2);
    assert!(desk.wanted_pictures(&items).is_empty());
    let feeds = library.list_feeds();
    assert_eq!(desk.wanted_icons(&feeds).len(), 1);
    assert!(desk.wanted_icons(&feeds).is_empty());
    assert!(desk.wants_page("a", true, false));
    assert!(!desk.wants_page("a", true, false));
    desk.page_failed("a");
    assert!(desk.wants_page("a", true, false));
    assert!(!desk.wants_page("b", false, false));
    assert!(!desk.wants_page("b", true, true));
    let many = (0..60)
        .map(|index| {
            let mut item = items[0].clone();
            item.stable_id = format!("article-{index}");
            item
        })
        .collect::<Vec<_>>();
    assert_eq!(Desk::new().wanted_pictures(&many).len(), MAX_PICTURE_REQUESTS);
    assert_eq!(signal_rows(many).len(), 40);
}

#[test]
fn selections_stay_in_the_list() {
    assert_eq!(move_selection(None, 1, 5), Some(0));
    assert_eq!(move_selection(None, -1, 5), Some(4));
    assert_eq!(move_selection(Some(4), 1, 5), Some(4));
    assert_eq!(move_selection(Some(0), -1, 5), Some(0));
    assert_eq!(move_selection(Some(2), 1, 5), Some(3));
    assert_eq!(move_selection(Some(2), 1, 0), None);
}

#[test]
fn granted_changes_are_told_as_such() {
    let mut library = library();
    let feed = library.list_feeds()[0].stable_id.clone();
    let id = library.article_page(ArticleScope::Library, 1, None).items[0].stable_id.clone();
    let wished = change_wished(&Command::SetRead { id: id.clone(), read: true });
    let answer = reply(&mut library, Command::SetRead { id: id.clone(), read: true }).unwrap();
    assert_eq!(change_made(wished, &answer), Some(Change::Read { id: id.clone(), read: true }));
    let wished = change_wished(&Command::SetStarred { id: id.clone(), starred: true });
    assert_eq!(wished, Some(Change::Starred { id, starred: true }));
    assert_eq!(change_made(wished, &Event::Error("refused".into())), None);
    let wished = change_wished(&Command::RemoveFeed(feed.clone()));
    let answer = reply(&mut library, Command::RemoveFeed(feed)).unwrap();
    assert_eq!(change_made(wished, &answer), Some(Change::FeedRemoved));
    assert_eq!(change_wished(&Command::LoadNavigation), None);
}

#[test]
fn icons_are_looked_for_a_hundred_at_a_time() {
    let wished: Vec<(String, String)> =
        (0..120).map(|n| (n.to_string(), "https://example.com/".to_owned())).collect();
    assert_eq!(icon_candidates(wished.clone()), wished[..100]);
    assert_eq!(icon_candidates(wished[..7].to_vec()), wished[..7]);
}

#[test]
fn folders_hold_no_more_than_all() {
    let mut library = library();
    let folder = library.create_folder("Inside", None, 1).unwrap().id;
    let feed = library.list_feeds()[0].stable_id.clone();
    library.move_feed(&feed, Some(folder), 2).unwrap();
    library.ingest_document("https://other.example/feed.json", JSON, 100).unwrap();
    let state = read_state(&library);
    assert_eq!(state.total_unread, 4);
    assert_eq!(state.folders.iter().map(|folder| folder.unread).sum::<i64>(), 2);
}
