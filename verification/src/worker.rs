//! The desk at which the reader's wishes are answered: each wish is turned into
//! a change of the library and an answer, or into a step that has to be taken
//! outside first.

use crate::articles::{
    all_read, full_view, known_items, none_starred, page_of, read_article, safe_fts_query,
    search_for, starred_article, with_articles,
};
use crate::library::{
    article_at, feed_at, folder_at, has_folder, listed_feeds, listed_folders, moved_feed, name_in,
    name_taken, named_feed, renamed, starred_among, unread_among, with_folder, with_row,
    without_feed, without_folder, Library, LibraryView, MAX_FOLDER_NAME,
};
use crate::parser::lent;
use crate::records::{
    feed_record_views, folder_views, list_item_views, ArticleListItem, ArticleScope, CursorView,
    FeedRecord, FeedRecordView, FolderRecord, FolderView, FullArticle, FullArticleView,
    LibraryStats, ListItemView, PageCursor, ScopeView, StorageError, StorageErrorView,
};
use crate::subscriptions::{list_of, list_taken_in};
use crate::text::{decimal, decimal_text, view_of, views};
use vstd::prelude::*;

verus! {

/// How many articles are shown at once.
pub const PAGE_LENGTH: usize = 100;

/// The date in an exported list.
pub const EXPORT_DATE: &'static str = "Thu, 01 Jan 1970 00:00:00 +0000";

/// Which articles are meant.
#[derive(Debug, PartialEq, Eq)]
pub enum OwnedScope {
    Library,
    Unread,
    Starred,
    Feed(String),
    Folder(i64),
}

impl View for OwnedScope {
    type V = ScopeView;

    open spec fn view(&self) -> ScopeView {
        match self {
            OwnedScope::Library => ScopeView::Library,
            OwnedScope::Unread => ScopeView::Unread,
            OwnedScope::Starred => ScopeView::Starred,
            OwnedScope::Feed(id) => ScopeView::Feed(id@),
            OwnedScope::Folder(id) => ScopeView::Folder(*id),
        }
    }
}

impl Clone for OwnedScope {
    fn clone(&self) -> (r: Self)
        ensures
            r@ == self@,
    {
        match self {
            OwnedScope::Library => OwnedScope::Library,
            OwnedScope::Unread => OwnedScope::Unread,
            OwnedScope::Starred => OwnedScope::Starred,
            OwnedScope::Feed(id) => OwnedScope::Feed(id.clone()),
            OwnedScope::Folder(id) => OwnedScope::Folder(*id),
        }
    }
}

impl OwnedScope {
    /// The same articles, lent.
    pub fn borrowed(&self) -> (r: ArticleScope<'_>)
        ensures
            r@ == self@,
    {
        match self {
            OwnedScope::Library => ArticleScope::Library,
            OwnedScope::Unread => ArticleScope::Unread,
            OwnedScope::Starred => ArticleScope::Starred,
            OwnedScope::Feed(id) => ArticleScope::Feed(id.as_str()),
            OwnedScope::Folder(id) => ArticleScope::Folder(*id),
        }
    }
}

/// A wish. Files are named by their paths.
#[derive(Debug)]
pub enum Command {
    LoadNavigation,
    LoadArticles(OwnedScope),
    LoadMore(OwnedScope, PageCursor),
    Search(String),
    OpenArticle(String),
    SetRead { id: String, read: bool },
    SetStarred { id: String, starred: bool },
    MarkAllRead(OwnedScope),
    UnstarAll,
    ImportOpml(String),
    ExportOpml(String),
    CreateFolder(String),
    RenameFolder { id: i64, name: String },
    DeleteFolder(i64),
    RenameFeed { id: String, name: Option<String> },
    RemoveFeed(String),
    MoveFeed { id: String, folder_id: Option<i64> },
}

/// What a [`Command`] holds.
pub enum CommandView {
    LoadNavigation,
    LoadArticles(ScopeView),
    LoadMore(ScopeView, CursorView),
    Search(Seq<char>),
    OpenArticle(Seq<char>),
    SetRead { id: Seq<char>, read: bool },
    SetStarred { id: Seq<char>, starred: bool },
    MarkAllRead(ScopeView),
    UnstarAll,
    ImportOpml(Seq<char>),
    ExportOpml(Seq<char>),
    CreateFolder(Seq<char>),
    RenameFolder { id: i64, name: Seq<char> },
    DeleteFolder(i64),
    RenameFeed { id: Seq<char>, name: Option<Seq<char>> },
    RemoveFeed(Seq<char>),
    MoveFeed { id: Seq<char>, folder_id: Option<i64> },
}

impl View for Command {
    type V = CommandView;

    open spec fn view(&self) -> CommandView {
        match self {
            Command::LoadNavigation => CommandView::LoadNavigation,
            Command::LoadArticles(scope) => CommandView::LoadArticles(scope@),
            Command::LoadMore(scope, cursor) => CommandView::LoadMore(scope@, cursor@),
            Command::Search(query) => CommandView::Search(query@),
            Command::OpenArticle(id) => CommandView::OpenArticle(id@),
            Command::SetRead { id, read } => CommandView::SetRead { id: id@, read: *read },
            Command::SetStarred { id, starred } => CommandView::SetStarred {
                id: id@,
                starred: *starred,
            },
            Command::MarkAllRead(scope) => CommandView::MarkAllRead(scope@),
            Command::UnstarAll => CommandView::UnstarAll,
            Command::ImportOpml(path) => CommandView::ImportOpml(path@),
            Command::ExportOpml(path) => CommandView::ExportOpml(path@),
            Command::CreateFolder(name) => CommandView::CreateFolder(name@),
            Command::RenameFolder { id, name } => CommandView::RenameFolder { id: *id, name: name@ },
            Command::DeleteFolder(id) => CommandView::DeleteFolder(*id),
            Command::RenameFeed { id, name } => CommandView::RenameFeed {
                id: id@,
                name: view_of(*name),
            },
            Command::RemoveFeed(id) => CommandView::RemoveFeed(id@),
            Command::MoveFeed { id, folder_id } => CommandView::MoveFeed {
                id: id@,
                folder_id: *folder_id,
            },
        }
    }
}

/// An answer.
#[derive(Debug)]
pub enum Event {
    Navigation { feeds: Vec<FeedRecord>, folders: Vec<FolderRecord>, stats: LibraryStats },
    Articles {
        scope: OwnedScope,
        items: Vec<ArticleListItem>,
        next: Option<PageCursor>,
        append: bool,
    },
    SearchResults { query: String, items: Vec<ArticleListItem> },
    Article(FullArticle),
    MutationComplete,
    Notice(String),
    Error(String),
}

/// What an [`Event`] holds.
pub enum EventView {
    Navigation { feeds: Seq<FeedRecordView>, folders: Seq<FolderView>, stats: LibraryStats },
    Articles {
        scope: ScopeView,
        items: Seq<ListItemView>,
        next: Option<CursorView>,
        append: bool,
    },
    SearchResults { query: Seq<char>, items: Seq<ListItemView> },
    Article(FullArticleView),
    MutationComplete,
    Notice(Seq<char>),
    Error(Seq<char>),
}

impl View for Event {
    type V = EventView;

    open spec fn view(&self) -> EventView {
        match self {
            Event::Navigation { feeds, folders, stats } => EventView::Navigation {
                feeds: feed_record_views(feeds@),
                folders: folder_views(folders@),
                stats: *stats,
            },
            Event::Articles { scope, items, next, append } => EventView::Articles {
                scope: scope@,
                items: list_item_views(items@),
                next: match next {
                    Some(cursor) => Some(cursor@),
                    None => None,
                },
                append: *append,
            },
            Event::SearchResults { query, items } => EventView::SearchResults {
                query: query@,
                items: list_item_views(items@),
            },
            Event::Article(article) => EventView::Article(article@),
            Event::MutationComplete => EventView::MutationComplete,
            Event::Notice(text) => EventView::Notice(text@),
            Event::Error(text) => EventView::Error(text@),
        }
    }
}

/// What comes of a wish: an answer, or a step outside of the library. A list is
/// read from a file or written to one; articles are looked for with the index
/// of their words, where there is something to look for.
#[derive(Debug)]
pub enum Step {
    Reply(Result<Event, String>),
    ReadList { path: String },
    WriteList { path: String, text: String },
    Find { query: String, expression: Option<String> },
}

/// What a [`Step`] holds.
pub enum StepView {
    Reply(Result<EventView, Seq<char>>),
    ReadList { path: Seq<char> },
    WriteList { path: Seq<char>, text: Seq<char> },
    Find { query: Seq<char>, expression: Option<Seq<char>> },
}

/// What an answer holds.
pub open spec fn reply_view(reply: Result<Event, String>) -> Result<EventView, Seq<char>> {
    match reply {
        Ok(event) => Ok(event@),
        Err(text) => Err(text@),
    }
}

impl View for Step {
    type V = StepView;

    open spec fn view(&self) -> StepView {
        match self {
            Step::Reply(reply) => StepView::Reply(reply_view(*reply)),
            Step::ReadList { path } => StepView::ReadList { path: path@ },
            Step::WriteList { path, text } => StepView::WriteList { path: path@, text: text@ },
            Step::Find { query, expression } => StepView::Find {
                query: query@,
                expression: view_of(*expression),
            },
        }
    }
}

/// How much a library holds.
pub open spec fn stats_of(library: LibraryView) -> LibraryStats {
    LibraryStats {
        feeds: library.feeds.len() as i64,
        folders: library.folders.len() as i64,
        articles: library.articles.len() as i64,
        unread: unread_among(library.articles) as i64,
        starred: starred_among(library.articles) as i64,
    }
}

/// A page of articles as an answer.
pub open spec fn page_event(
    library: LibraryView,
    scope: ScopeView,
    cursor: Option<CursorView>,
) -> EventView {
    let page = page_of(library, scope, PAGE_LENGTH, cursor);
    EventView::Articles { scope, items: page.items, next: page.next, append: cursor is Some }
}

/// The library with an article changed, where it has the article.
pub open spec fn with_article(
    library: LibraryView,
    id: Seq<char>,
    change: spec_fn(crate::records::ArticleRowView) -> crate::records::ArticleRowView,
) -> Result<LibraryView, StorageErrorView> {
    match article_at(library.articles, id, 0) {
        Some(i) => Ok(
            with_articles(library, library.articles.update(i, change(library.articles[i]))),
        ),
        None => Err(StorageErrorView::NotFound("article"@)),
    }
}

/// The library with a folder that was wished for.
pub open spec fn folder_made(library: LibraryView, name: Seq<char>, now: i64) -> Result<
    LibraryView,
    StorageErrorView,
> {
    match name_in(name) {
        None => Err(StorageErrorView::InvalidInput("folder name"@)),
        Some(bare) => match with_folder(library.folders, bare, None, now) {
            Ok((folders, _)) => Ok(LibraryView { folders, ..library }),
            Err(error) => Err(error),
        },
    }
}

/// The library with a folder under another name.
pub open spec fn folder_renamed(library: LibraryView, id: i64, name: Seq<char>, now: i64) -> Result<
    LibraryView,
    StorageErrorView,
> {
    match (name_in(name), folder_at(library.folders, id, 0)) {
        (None, _) => Err(StorageErrorView::InvalidInput("folder name"@)),
        (Some(_), None) => Err(StorageErrorView::NotFound("folder"@)),
        (Some(bare), Some(i)) => if bare.len() > MAX_FOLDER_NAME {
            Err(StorageErrorView::Constraint("CHECK constraint failed: length(name) BETWEEN 1 AND 500"@))
        } else if name_taken(library.folders, i, bare) {
            Err(StorageErrorView::Constraint("UNIQUE constraint failed: folders.parent_id, folders.name"@))
        } else {
            Ok(
                LibraryView {
                    folders: library.folders.update(i, renamed(library.folders[i], bare, now)),
                    ..library
                },
            )
        },
    }
}

/// The library without a folder.
pub open spec fn folder_deleted(library: LibraryView, id: i64) -> Result<
    LibraryView,
    StorageErrorView,
> {
    match folder_at(library.folders, id, 0) {
        Some(i) => Ok(without_folder(library, i)),
        None => Err(StorageErrorView::NotFound("folder"@)),
    }
}

/// The library with a feed under another name, or under the publisher's again.
pub open spec fn feed_renamed(
    library: LibraryView,
    id: Seq<char>,
    name: Option<Seq<char>>,
    now: i64,
) -> Result<LibraryView, StorageErrorView> {
    let bare = match name {
        Some(text) => name_in(text),
        None => None,
    };
    if name is Some && bare is None {
        Err(StorageErrorView::InvalidInput("custom feed name"@))
    } else {
        match feed_at(library.feeds, id, 0) {
            Some(i) => Ok(with_row(library, i, named_feed(library.feeds[i], bare, now))),
            None => Err(StorageErrorView::NotFound("feed"@)),
        }
    }
}

/// The library without a subscription.
pub open spec fn feed_removed(library: LibraryView, id: Seq<char>) -> Result<
    LibraryView,
    StorageErrorView,
> {
    match feed_at(library.feeds, id, 0) {
        Some(i) => Ok(without_feed(library, i)),
        None => Err(StorageErrorView::NotFound("feed"@)),
    }
}

/// The library with a feed in another folder.
pub open spec fn feed_moved(
    library: LibraryView,
    id: Seq<char>,
    folder: Option<i64>,
    now: i64,
) -> Result<LibraryView, StorageErrorView> {
    match feed_at(library.feeds, id, 0) {
        Some(i) => if folder is Some && !has_folder(library.folders, folder->0) {
            Err(StorageErrorView::Constraint("FOREIGN KEY constraint failed"@))
        } else {
            Ok(with_row(library, i, moved_feed(library.feeds[i], folder, now)))
        },
        None => Err(StorageErrorView::NotFound("feed"@)),
    }
}

/// What is told of a change: the answer where it was made, else what was wrong.
pub open spec fn told(
    library: LibraryView,
    change: Result<LibraryView, StorageErrorView>,
    answer: EventView,
) -> (LibraryView, StepView) {
    match change {
        Ok(after) => (after, StepView::Reply(Ok(answer))),
        Err(error) => (library, StepView::Reply(Err(error.message()))),
    }
}

/// What comes of a wish.
pub open spec fn answered(library: LibraryView, command: CommandView, now: i64) -> (
    LibraryView,
    StepView,
) {
    match command {
        CommandView::LoadNavigation => (
            library,
            StepView::Reply(
                Ok(
                    EventView::Navigation {
                        feeds: listed_feeds(library.feeds),
                        folders: listed_folders(library.folders),
                        stats: stats_of(library),
                    },
                ),
            ),
        ),
        CommandView::LoadArticles(scope) => (
            library,
            StepView::Reply(Ok(page_event(library, scope, None))),
        ),
        CommandView::LoadMore(scope, cursor) => (
            library,
            StepView::Reply(Ok(page_event(library, scope, Some(cursor)))),
        ),
        CommandView::Search(query) => (
            library,
            StepView::Find { query, expression: search_for(query) },
        ),
        CommandView::OpenArticle(id) => (
            library,
            StepView::Reply(
                match article_at(library.articles, id, 0) {
                    Some(i) => Ok(EventView::Article(full_view(library, library.articles[i]))),
                    None => Err(StorageErrorView::NotFound("article"@).message()),
                },
            ),
        ),
        CommandView::SetRead { id, read } => told(
            library,
            with_article(library, id, |row| read_article(row, read, now)),
            EventView::MutationComplete,
        ),
        CommandView::SetStarred { id, starred } => told(
            library,
            with_article(library, id, |row| starred_article(row, starred, now)),
            EventView::MutationComplete,
        ),
        CommandView::MarkAllRead(scope) => (
            with_articles(library, all_read(library, scope, now)),
            StepView::Reply(Ok(EventView::MutationComplete)),
        ),
        CommandView::UnstarAll => (
            with_articles(library, none_starred(library.articles, now)),
            StepView::Reply(Ok(EventView::MutationComplete)),
        ),
        CommandView::ImportOpml(path) => (library, StepView::ReadList { path }),
        CommandView::ExportOpml(path) => (
            library,
            match list_of(library) {
                Ok(list) => StepView::WriteList {
                    path,
                    text: crate::opml::exported(list, EXPORT_DATE@),
                },
                Err(error) => StepView::Reply(Err(error.message())),
            },
        ),
        CommandView::CreateFolder(name) => told(
            library,
            folder_made(library, name, now),
            EventView::Notice("Folder created"@),
        ),
        CommandView::RenameFolder { id, name } => told(
            library,
            folder_renamed(library, id, name, now),
            EventView::Notice("Folder renamed"@),
        ),
        CommandView::DeleteFolder(id) => told(
            library,
            folder_deleted(library, id),
            EventView::Notice("Folder removed; its feeds were preserved"@),
        ),
        CommandView::RenameFeed { id, name } => told(
            library,
            feed_renamed(library, id, name, now),
            EventView::Notice("Feed name updated"@),
        ),
        CommandView::RemoveFeed(id) => told(
            library,
            feed_removed(library, id),
            EventView::Notice("Feed removed"@),
        ),
        CommandView::MoveFeed { id, folder_id } => told(
            library,
            feed_moved(library, id, folder_id, now),
            EventView::Notice("Feed moved"@),
        ),
    }
}

fn reply(r: Result<(), StorageError>, answer: Event) -> (step: Step)
    ensures
        step@ == StepView::Reply(
            match r {
                Ok(()) => Ok(answer@),
                Err(error) => Err(error@.message()),
            },
        ),
{
    match r {
        Ok(()) => Step::Reply(Ok(answer)),
        Err(error) => Step::Reply(Err(error.message())),
    }
}

fn show_page(library: &Library, scope: OwnedScope, cursor: Option<&PageCursor>) -> (r: Event)
    ensures
        r@ == page_event(
            library@,
            scope@,
            match cursor {
                Some(c) => Some(c@),
                None => None,
            },
        ),
{
    let page = library.article_page(scope.borrowed(), PAGE_LENGTH, cursor);
    Event::Articles { scope, items: page.items, next: page.next, append: cursor.is_some() }
}

/// Answers the wish `command`, made at the time `now`.
pub fn handle(library: &mut Library, command: Command, now: i64) -> (r: Step)
    requires
        old(library)@.wf(),
        old(library)@.folders.len() <= i64::MAX,
        old(library)@.feeds.len() <= i64::MAX,
        old(library)@.articles.len() <= i64::MAX,
    ensures
        final(library)@.wf(),
        final(library)@ == answered(old(library)@, command@, now).0,
        r@ == answered(old(library)@, command@, now).1,
{
    let ghost before = library@;
    match command {
        Command::LoadNavigation => {
            let stats = library.stats();
            assert(stats == stats_of(before));
            Step::Reply(
                Ok(
                    Event::Navigation {
                        feeds: library.list_feeds(),
                        folders: library.list_folders(),
                        stats,
                    },
                ),
            )
        },
        Command::LoadArticles(scope) => Step::Reply(Ok(show_page(library, scope, None))),
        Command::LoadMore(scope, cursor) => Step::Reply(
            Ok(show_page(library, scope, Some(&cursor))),
        ),
        Command::Search(query) => {
            let expression = safe_fts_query(query.as_str());
            Step::Find { query, expression }
        },
        Command::OpenArticle(id) => match library.full_article(id.as_str()) {
            Ok(article) => Step::Reply(Ok(Event::Article(article))),
            Err(error) => Step::Reply(Err(error.message())),
        },
        Command::SetRead { id, read } => {
            let r = library.mark_article_read(id.as_str(), read, now);
            reply(r, Event::MutationComplete)
        },
        Command::SetStarred { id, starred } => {
            let r = library.set_article_starred(id.as_str(), starred, now);
            reply(r, Event::MutationComplete)
        },
        Command::MarkAllRead(scope) => {
            let _ = library.mark_all_read(scope.borrowed(), now);
            Step::Reply(Ok(Event::MutationComplete))
        },
        Command::UnstarAll => {
            let _ = library.unstar_all(now);
            Step::Reply(Ok(Event::MutationComplete))
        },
        Command::ImportOpml(path) => Step::ReadList { path },
        Command::ExportOpml(path) => match library.export_opml(EXPORT_DATE) {
            Ok(text) => Step::WriteList { path, text },
            Err(error) => Step::Reply(Err(error.message())),
        },
        Command::CreateFolder(name) => match library.create_folder(name.as_str(), None, now) {
            Ok(_) => Step::Reply(Ok(Event::Notice("Folder created".to_owned()))),
            Err(error) => Step::Reply(Err(error.message())),
        },
        Command::RenameFolder { id, name } => {
            let r = library.rename_folder(id, name.as_str(), now);
            reply(r, Event::Notice("Folder renamed".to_owned()))
        },
        Command::DeleteFolder(id) => {
            let r = library.delete_folder(id);
            reply(r, Event::Notice("Folder removed; its feeds were preserved".to_owned()))
        },
        Command::RenameFeed { id, name } => {
            let r = library.set_feed_custom_name(id.as_str(), lent(&name), now);
            reply(r, Event::Notice("Feed name updated".to_owned()))
        },
        Command::RemoveFeed(id) => {
            let r = library.remove_subscription(id.as_str());
            reply(r, Event::Notice("Feed removed".to_owned()))
        },
        Command::MoveFeed { id, folder_id } => {
            let r = library.move_feed(id.as_str(), folder_id, now);
            reply(r, Event::Notice("Feed moved".to_owned()))
        },
    }
}

/// The ending of a noun behind a number.
pub open spec fn plural(count: nat) -> Seq<char> {
    if count == 1 {
        ""@
    } else {
        "s"@
    }
}

/// The ending of a noun behind the number `count`.
pub fn plural_ending(count: usize) -> (r: &'static str)
    ensures
        r@ == plural(count as nat),
{
    if count == 1 {
        ""
    } else {
        "s"
    }
}

/// What is told of a list that was taken in.
pub open spec fn import_notice(feeds: nat, folders: nat) -> Seq<char> {
    "Imported "@ + decimal(feeds) + " feed"@ + plural(feeds) + " and "@ + decimal(folders)
        + " folder"@ + plural(folders)
}

/// Takes in the subscription list `text`, read from a file.
pub fn take_in_text(library: &mut Library, text: &str, now: i64) -> (r: Result<Event, String>)
    requires
        old(library)@.wf(),
    ensures
        final(library)@.wf(),
        match list_taken_in(old(library)@, text@, now) {
            Ok((state, _)) => final(library)@ == state.library && reply_view(r) == Ok::<
                EventView,
                Seq<char>,
            >(EventView::Notice(import_notice(state.added, state.folders_made))),
            Err(error) => final(library)@ == old(library)@ && reply_view(r) == Err::<
                EventView,
                Seq<char>,
            >(error.message()),
        },
{
    match library.import_opml(text, now) {
        Ok(stats) => {
            let mut out = "Imported ".to_owned();
            let feeds = decimal_text(stats.feeds_added as u64);
            out.append(feeds.as_str());
            out.append(" feed");
            out.append(plural_ending(stats.feeds_added));
            out.append(" and ");
            let folders = decimal_text(stats.folders_created as u64);
            out.append(folders.as_str());
            out.append(" folder");
            out.append(plural_ending(stats.folders_created));
            Ok(Event::Notice(out))
        },
        Err(error) => Err(error.message()),
    }
}

/// What is told of a list that was written to a file.
pub fn list_written() -> (r: Event)
    ensures
        r@ == EventView::Notice("OPML export complete"@),
{
    Event::Notice("OPML export complete".to_owned())
}

/// What is told of a search that found the articles with the ids `found`, the
/// best first.
pub fn search_results(library: &Library, query: String, found: &Vec<String>) -> (r: Event)
    ensures
        r@ == (EventView::SearchResults {
            query: query@,
            items: known_items(library@, views(found@)),
        }),
{
    let items = library.items_for(found);
    Event::SearchResults { query, items }
}

/// A wish that only asks changes nothing.
pub proof fn law_questions_change_nothing(library: LibraryView, command: CommandView, now: i64)
    requires
        matches!(
            command,
            CommandView::LoadNavigation | CommandView::LoadArticles(_) | CommandView::LoadMore(_, _)
            | CommandView::Search(_) | CommandView::OpenArticle(_) | CommandView::ImportOpml(_)
            | CommandView::ExportOpml(_)
        ),
    ensures
        answered(library, command, now).0 == library,
{
}

/// A wish that is refused changes nothing.
pub proof fn law_refused_wishes_change_nothing(
    library: LibraryView,
    command: CommandView,
    now: i64,
)
    requires
        answered(library, command, now).1 matches StepView::Reply(Err(_)),
    ensures
        answered(library, command, now).0 == library,
{
}

/// What a wish that was granted changed of one article or feed.
#[derive(Debug, PartialEq, Eq)]
pub enum Change {
    Read { id: String, read: bool },
    Starred { id: String, starred: bool },
    FeedRemoved,
}

/// What a [`Change`] holds.
pub enum ChangeView {
    Read { id: Seq<char>, read: bool },
    Starred { id: Seq<char>, starred: bool },
    FeedRemoved,
}

impl View for Change {
    type V = ChangeView;

    open spec fn view(&self) -> ChangeView {
        match self {
            Change::Read { id, read } => ChangeView::Read { id: id@, read: *read },
            Change::Starred { id, starred } => ChangeView::Starred { id: id@, starred: *starred },
            Change::FeedRemoved => ChangeView::FeedRemoved,
        }
    }
}

/// What an optional change holds.
pub open spec fn change_view(value: Option<Change>) -> Option<ChangeView> {
    match value {
        Some(change) => Some(change@),
        None => None,
    }
}

/// What a wish changes of one article or feed, once it is granted.
pub open spec fn wished_change(command: CommandView) -> Option<ChangeView> {
    match command {
        CommandView::SetRead { id, read } => Some(ChangeView::Read { id, read }),
        CommandView::SetStarred { id, starred } => Some(ChangeView::Starred { id, starred }),
        CommandView::RemoveFeed(_) => Some(ChangeView::FeedRemoved),
        _ => None,
    }
}

/// What `command` changes of one article or feed, once it is granted.
pub fn change_wished(command: &Command) -> (r: Option<Change>)
    ensures
        change_view(r) == wished_change(command@),
{
    match command {
        Command::SetRead { id, read } => Some(Change::Read { id: id.clone(), read: *read }),
        Command::SetStarred { id, starred } => Some(
            Change::Starred { id: id.clone(), starred: *starred },
        ),
        Command::RemoveFeed(_) => Some(Change::FeedRemoved),
        _ => None,
    }
}

/// The answer says that a change was made.
pub open spec fn is_granted(answer: EventView) -> bool {
    answer is MutationComplete || answer is Notice
}

/// What the windows are told in place of `answer`: the change that was wished,
/// where it was made.
pub fn change_made(wished: Option<Change>, answer: &Event) -> (r: Option<Change>)
    ensures
        change_view(r) == if is_granted(answer@) {
            change_view(wished)
        } else {
            None
        },
{
    match answer {
        Event::MutationComplete => wished,
        Event::Notice(_) => wished,
        _ => None,
    }
}

/// A wish that changes one article or feed is answered at once, and where the
/// library does not refuse it the answer says that the change was made.
pub proof fn law_granted_changes_are_told(
    library: LibraryView,
    command: CommandView,
    now: i64,
)
    requires
        wished_change(command) is Some,
    ensures
        match answered(library, command, now).1 {
            StepView::Reply(Ok(answer)) => is_granted(answer),
            StepView::Reply(Err(_)) => true,
            _ => false,
        },
{
}

} // verus!
