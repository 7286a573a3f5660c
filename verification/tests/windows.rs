//! The windows, the dialogs, the command line and the index of words.

use feedlizard::cli::{
    article_line, candidate_line, feed_line, import_line, ingest_line, read_task, refresh_line,
    stats_line, Task,
};
use feedlizard::desk::{
    feed_tag, folder_tag, library_follow_up, library_notice, scope_of_tag, Desk, FollowUp,
};
use feedlizard::dialogs::{
    add_label, article_source, back_step, can_turn_on, candidate_label, chosen_folder,
    entries_about, folder_choice, is_feed_id, list_line, may_be_key, page_document, reader_line,
    restore_question, row_line, shown_links, snapshot_line, spread_of, strip_html, summary_line,
    typed_name, BackStep,
};
use feedlizard::directory::CATEGORIES;
use feedlizard::library::Library;
use feedlizard::page_discovery::discover;
use feedlizard::parser::FeedFormat;
use feedlizard::reader::{Block, Document, Link};
use feedlizard::records::{
    ArticleScope, FullArticle, ImportStats, IngestStats, LibraryStats, StorageError,
};
use feedlizard::refresh::RefreshSummary;
use feedlizard::search_index::{judge_integrity, search_limit};
use feedlizard::signals::{
    failure_line, notice_line, preview_line, Key, KeyAction, Shown, Signals,
};
use feedlizard::worker::{Command, Event, OwnedScope};

const JSON: &str = r#"{"version":"https://jsonfeed.org/version/1.1","title":"JSON Feed","items":[{"id":"json-1","url":"https://json.example/story","title":"JSON Story","summary":"<p>Some  words</p>","date_published":"2026-08-25T12:00:00Z"},{"id":"json-2","title":"Other"}]}"#;

fn library() -> Library {
    let mut library = Library::new();
    library.ingest_document("https://json.example/feed.json", JSON, 100).unwrap();
    library
}

fn article(library: &Library, row: usize) -> FullArticle {
    let page = library.article_page(ArticleScope::Library, 10, None);
    library.full_article(&page.items[row].stable_id).unwrap()
}

#[test]
fn rows_stand_for_their_articles() {
    assert_eq!(scope_of_tag(&feed_tag("feed:v1:abc")), Some(OwnedScope::Feed("feed:v1:abc".into())));
    for id in [0, 7, 1234567890, -5, i64::MAX, i64::MIN] {
        assert_eq!(scope_of_tag(&folder_tag(id)), Some(OwnedScope::Folder(id)));
    }
}

#[test]
fn a_read_article_stays_among_the_unread_ones() {
    let library = library();
    let items = library.article_page(ArticleScope::Unread, 10, None).items;
    let mut desk = Desk::new();
    assert!(desk.articles_arrived(OwnedScope::Unread, items.clone(), None, false));
    desk.read_changed(&items[0].stable_id, true);
    desk.starred_changed(&items[0].stable_id, true);
    assert!(!desk.items()[0].is_unread && desk.items()[0].is_starred);
    assert!(!desk.articles_arrived(OwnedScope::Unread, vec![], None, false));
    assert_eq!(desk.items().len(), 2);
    desk.activate_tag("scope:library");
    desk.activate_tag("scope:unread");
    assert!(desk.articles_arrived(OwnedScope::Unread, vec![], None, false));
    assert!(desk.items().is_empty());
}

#[test]
fn a_search_for_nothing_shows_the_articles_again() {
    let mut desk = Desk::new();
    assert!(matches!(desk.search_wish("  "), Command::LoadArticles(OwnedScope::Unread)));
    assert!(matches!(desk.search_wish(" lizard "), Command::Search(query) if query == "lizard"));
    desk.search_arrived(library().article_page(ArticleScope::Library, 10, None).items);
    assert_eq!((desk.items().len(), desk.scope()), (2, OwnedScope::Unread));
}

#[test]
fn answers_of_the_library_are_followed_up() {
    assert_eq!(library_follow_up(&Event::MutationComplete), FollowUp::ReloadAll);
    assert_eq!(library_follow_up(&Event::Error("no".into())), FollowUp::Nothing);
    assert_eq!(library_notice(&Event::Notice("done".into())).as_deref(), Some("done"));
    assert_eq!(library_notice(&Event::MutationComplete), None);
}

#[test]
fn keys_of_the_compact_window() {
    let library = library();
    let items = library.article_page(ArticleScope::Unread, 10, None).items;
    let mut window = Signals::new();
    assert_eq!(window.press(Key::Down, None), KeyAction::Nothing);
    assert_eq!(window.press(Key::Back, None), KeyAction::Close);
    window.articles_arrived(items.clone());
    assert_eq!(window.shown(), Shown::Articles);
    assert_eq!(window.press(Key::Down, None), KeyAction::Select(0));
    assert_eq!(window.press(Key::Up, None), KeyAction::Select(0));
    assert_eq!(window.press(Key::Down, Some(0)), KeyAction::Select(1));
    assert_eq!(window.press(Key::Down, Some(1)), KeyAction::Select(1));
    let id = items[0].stable_id.clone();
    assert_eq!(
        window.press(Key::Enter, Some(0)),
        KeyAction::Preview { id: id.clone(), unread: true }
    );
    assert_eq!(
        window.press(Key::Read, Some(0)),
        KeyAction::SetRead { id: id.clone(), read: true }
    );
    assert_eq!(
        window.press(Key::Star, Some(0)),
        KeyAction::SetStarred { id: id.clone(), starred: true }
    );
    assert_eq!(window.read_changed(&id, true), (Some(0), "ARTICLE MARKED READ"));
    assert_eq!(window.starred_changed(&id, true), (Some(0), "ARTICLE STARRED"));
    assert_eq!(
        window.press(Key::Read, Some(0)),
        KeyAction::SetRead { id: id.clone(), read: false }
    );
    assert_eq!(window.read_changed("none", false), (None, "ARTICLE MARKED UNREAD"));
    window.preview_arrived(&article(&library, 0));
    assert_eq!(window.press(Key::Down, Some(0)), KeyAction::Nothing);
    assert_eq!(
        window.press(Key::Original, None),
        KeyAction::OpenOriginal("https://json.example/story".into())
    );
    assert_eq!(window.press(Key::Help, None), KeyAction::ShowHelp(true));
    assert_eq!(window.press(Key::Back, None), KeyAction::ShowHelp(false));
    assert_eq!(window.press(Key::Back, None), KeyAction::ShowArticles);
    assert_eq!(window.press(Key::Back, None), KeyAction::Close);
    assert_eq!(window.press(Key::Refresh, None), KeyAction::Refresh);
    assert_eq!(window.press(Key::Other, None), KeyAction::PassOn);
}

#[test]
fn lines_of_the_compact_window() {
    assert_eq!(failure_line("ERROR", "short", 58), "ERROR // short");
    assert_eq!(failure_line("ERROR", "too long", 3), "ERROR // too…");
    assert_eq!(notice_line("imported 1 straße"), "IMPORTED 1 STRASSE");
    let library = library();
    let undated = article(&library, 1);
    assert_eq!(preview_line(&undated, 100 + 7_200), "JSON FEED  //  2h");
}

#[test]
fn choices_in_dialogs() {
    let mut library = library();
    assert_eq!(typed_name("  News "), Some("News".to_owned()));
    assert_eq!(typed_name("   "), None);
    let first = library.create_folder("First", None, 1).unwrap().id;
    let second = library.create_folder("Second", None, 1).unwrap().id;
    let folders = library.list_folders();
    assert_eq!(folder_choice(&folders, None), 0);
    assert_eq!(folder_choice(&folders, Some(999)), 0);
    for id in [first, second] {
        assert_eq!(chosen_folder(&folders, folder_choice(&folders, Some(id))), Some(id));
    }
    assert_eq!(chosen_folder(&folders, 0), None);
    assert_eq!(chosen_folder(&folders, 3), None);
    assert_eq!(add_label(1), "Add 1 Feed");
    assert_eq!(add_label(2), "Add 2 Feeds");
    let all = CATEGORIES.iter().map(|category| entries_about(category).len()).sum::<usize>();
    assert_eq!(all, 21);
    assert!(entries_about("Cooking").is_empty());
    assert_eq!(candidate_label("https://a.example", Some("A")), "A");
    assert_eq!(candidate_label("https://a.example", None), "https://a.example");
    assert!(is_feed_id("feed:v1:abc") && !is_feed_id("folder:1"));
    assert!(may_be_key("nsec1abc") && !may_be_key("npub1abc"));
}

#[test]
fn going_back_closes_one_thing() {
    assert_eq!(back_step(true, true, true, true, true), BackStep::Reader);
    assert_eq!(back_step(true, false, true, true, true), BackStep::Articles);
    assert_eq!(back_step(false, true, false, true, true), BackStep::Search);
    assert_eq!(back_step(false, true, false, true, false), BackStep::Nothing);
}

#[test]
fn backups_are_described() {
    assert_eq!(snapshot_line(3, 1), "3 feeds · 1 folders");
    let question = restore_question("April 23, 2026 at 11:06 PM", 3, 1, 2, 1);
    assert!(question.starts_with(
        "April 23, 2026 at 11:06 PM\n3 subscriptions · 1 folders\n2 feeds to add · 1 already present\n\nRestore merges"
    ));
}

#[test]
fn articles_are_described() {
    let library = library();
    let mut shown = article(&library, 0);
    assert_eq!(reader_line(&shown, "Today"), "JSON Feed · Today");
    shown.author = Some("Ada".into());
    assert_eq!(reader_line(&shown, "Today"), "JSON Feed · Ada · Today");
    assert_eq!(row_line("Feed", "Today"), "Feed  ·  Today");
    assert_eq!(article_source(&shown), "<p>Some  words</p>");
    shown.content = Some("Full".into());
    assert_eq!(article_source(&shown), "Full");
    shown.content = None;
    shown.summary = None;
    assert_eq!(article_source(&shown), "");
    assert_eq!(strip_html("<p>Some  <b>words</b></p>"), "Some words");
    assert_eq!(summary_line(&Some("<br>".into())), None);
    assert_eq!(summary_line(&Some("<i>x</i>".into())), Some("x".to_owned()));
    assert_eq!(summary_line(&None), None);
    assert_eq!(list_line("One"), "•  One");
}

#[test]
fn pages_begin_with_the_title() {
    let document = page_document("Title", Document { blocks: vec![Block::Quote("Words".into())] });
    assert_eq!(
        document.blocks,
        vec![
            Block::Heading { level: 1, text: "Title".into() },
            Block::Quote("Words".into()),
        ]
    );
    let link = Link { text: "a".into(), url: "https://a.example/".into() };
    assert_eq!(shown_links(&vec![link.clone(); 20]), 8);
    assert_eq!(shown_links(&vec![link; 2]), 2);
    assert_eq!((spread_of(0), spread_of(1), spread_of(2)), (0, 0, 1));
    assert!(can_turn_on(0, 3, true) && !can_turn_on(1, 3, true));
    assert!(can_turn_on(1, 3, false) && !can_turn_on(2, 3, false));
}

fn task(arguments: &[&str]) -> Option<Task> {
    read_task(&arguments.iter().map(|value| (*value).to_owned()).collect())
}

#[test]
fn arguments_name_tasks() {
    assert_eq!(task(&[]), None);
    assert_eq!(task(&["init"]), None);
    assert_eq!(task(&["init", "db"]), Some(Task::Init("db".into())));
    assert_eq!(
        task(&["search", "db", "two", "words"]),
        Some(Task::Search { library: "db".into(), query: "two words".into() })
    );
    assert_eq!(task(&["search", "db"]), None);
    assert_eq!(
        task(&["import-feed-fixture", "db", "file", "https://a.example/"]),
        Some(Task::ImportFeed {
            library: "db".into(),
            file: "file".into(),
            url: "https://a.example/".into()
        })
    );
    assert_eq!(
        task(&["refresh", "db", "feed"]),
        Some(Task::Refresh { library: "db".into(), feed: "feed".into() })
    );
    assert_eq!(task(&["refresh-all", "db"]), Some(Task::RefreshAll("db".into())));
    assert_eq!(task(&["unknown", "db"]), None);
}

#[test]
fn tasks_tell_what_they_did() {
    let stats = IngestStats { inserted: 1, updated: 2, duplicates_in_document: 3 };
    assert_eq!(ingest_line(&stats), "inserted=1 updated=2 duplicate_items=3");
    let stats = LibraryStats { feeds: 1, folders: 2, articles: 3, unread: 4, starred: 5 };
    assert_eq!(stats_line(&stats), "feeds=1 folders=2 articles=3 unread=4 starred=5");
    let stats = ImportStats { feeds_added: 1, duplicates: 2, folders_created: 3, failed_entries: 4 };
    assert_eq!(import_line(&stats), "feeds_added=1 duplicates=2 folders_created=3 failures=4");
    let summary = RefreshSummary {
        total: 6,
        completed: 5,
        successful: 4,
        unchanged: 3,
        failed: 2,
        cancelled: 1,
    };
    assert_eq!(
        refresh_line(&summary),
        "total=6 completed=5 successful=4 unchanged=3 failed=2 cancelled=1"
    );
    let mut library = Library::new();
    library
        .add_subscription("https://a.example/feed", "A", FeedFormat::Rss, None, 1)
        .unwrap();
    let feed = library.list_feeds().remove(0);
    assert_eq!(feed_line(&feed), format!("{}\tA\thttps://a.example/feed", feed.stable_id));
    let library = self::library();
    let item = library.article_page(ArticleScope::Library, 1, None).items.remove(0);
    assert_eq!(article_line(&item), format!("{}\tunread\t-\tJSON Story", item.stable_id));
    let html = r#"<link rel="alternate" type="application/rss+xml" href="/rss">"#;
    let found = discover("https://example.com/", html).unwrap().candidates.remove(0);
    assert!(candidate_line(&found).ends_with("\thttps://example.com/rss"));
}

#[test]
fn the_index_fits_the_library() {
    let mut library = library();
    let rows = library.index_rows();
    assert_eq!(rows.len(), 2);
    assert_eq!((rows[0].title.as_str(), rows[0].feed_name.as_str()), ("JSON Story", "JSON Feed"));
    let feed = library.list_feeds()[0].stable_id.clone();
    library.set_feed_custom_name(&feed, Some("Renamed Café"), 101).unwrap();
    assert!(library.index_rows().iter().all(|row| row.feed_name == "Renamed Café"));
    library.set_feed_custom_name(&feed, None, 102).unwrap();
    assert!(library.index_rows().iter().all(|row| row.feed_name == "JSON Feed"));
    assert_eq!((search_limit(0), search_limit(50), search_limit(1_000)), (1, 50, 200));
}

#[test]
fn a_database_is_judged() {
    assert!(judge_integrity("ok", 0, 0, 0).is_ok());
    assert_eq!(
        judge_integrity("malformed", 0, 0, 0),
        Err(StorageError::Corruption("malformed".into()))
    );
    assert_eq!(
        judge_integrity("ok", 1, 2, 3),
        Err(StorageError::Corruption("foreign=1 fts_missing=2 fts_excess=3".into()))
    );
}
