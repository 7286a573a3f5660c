//! What a library keeps: folders, feeds and articles, and what is shown of them.

use crate::parser::{copied, FeedFormat};
use crate::text::view_of;
use vstd::prelude::*;

verus! {

/// A folder.
#[derive(Debug, PartialEq, Eq)]
pub struct FolderRecord {
    pub id: i64,
    pub stable_id: String,
    pub name: String,
    pub parent_id: Option<i64>,
    pub sort_order: i64,
}

/// What a [`FolderRecord`] holds.
pub struct FolderView {
    pub id: i64,
    pub stable_id: Seq<char>,
    pub name: Seq<char>,
    pub parent_id: Option<i64>,
    pub sort_order: i64,
}

impl View for FolderRecord {
    type V = FolderView;

    open spec fn view(&self) -> FolderView {
        FolderView {
            id: self.id,
            stable_id: self.stable_id@,
            name: self.name@,
            parent_id: self.parent_id,
            sort_order: self.sort_order,
        }
    }
}

impl Clone for FolderRecord {
    fn clone(&self) -> (r: Self)
        ensures
            r@ == self@,
    {
        FolderRecord {
            id: self.id,
            stable_id: self.stable_id.clone(),
            name: self.name.clone(),
            parent_id: self.parent_id,
            sort_order: self.sort_order,
        }
    }
}

/// A folder as it is kept.
#[derive(Debug, PartialEq, Eq)]
pub struct FolderRow {
    pub folder: FolderRecord,
    pub created_at: i64,
    pub modified_at: i64,
}

/// What a [`FolderRow`] holds.
pub struct FolderRowView {
    pub folder: FolderView,
    pub created_at: i64,
    pub modified_at: i64,
}

impl View for FolderRow {
    type V = FolderRowView;

    open spec fn view(&self) -> FolderRowView {
        FolderRowView {
            folder: self.folder@,
            created_at: self.created_at,
            modified_at: self.modified_at,
        }
    }
}

impl Clone for FolderRow {
    fn clone(&self) -> (r: Self)
        ensures
            r@ == self@,
    {
        FolderRow {
            folder: self.folder.clone(),
            created_at: self.created_at,
            modified_at: self.modified_at,
        }
    }
}

/// What the folders of a list hold.
pub open spec fn folder_rows(list: Seq<FolderRow>) -> Seq<FolderRowView> {
    Seq::new(list.len(), |i: int| list[i]@)
}

/// What the folders of a list hold.
pub open spec fn folder_views(list: Seq<FolderRecord>) -> Seq<FolderView> {
    Seq::new(list.len(), |i: int| list[i]@)
}

/// A subscription.
#[derive(Debug, PartialEq, Eq)]
pub struct FeedRecord {
    pub stable_id: String,
    pub normalized_url: String,
    pub fetch_url: String,
    pub effective_fetch_url: Option<String>,
    pub site_url: Option<String>,
    pub display_name: String,
    pub publisher_name: String,
    pub custom_name: Option<String>,
    pub format: FeedFormat,
    pub folder_id: Option<i64>,
    pub favicon_url: Option<String>,
    pub feed_image_url: Option<String>,
    pub etag: Option<String>,
    pub last_modified: Option<String>,
    pub last_refresh_attempt_at: Option<i64>,
    pub last_refresh_at: Option<i64>,
    pub last_http_status: Option<u16>,
    pub consecutive_failures: u32,
    pub last_refresh_status: Option<String>,
}

/// What a [`FeedRecord`] holds.
pub struct FeedRecordView {
    pub stable_id: Seq<char>,
    pub normalized_url: Seq<char>,
    pub fetch_url: Seq<char>,
    pub effective_fetch_url: Option<Seq<char>>,
    pub site_url: Option<Seq<char>>,
    pub display_name: Seq<char>,
    pub publisher_name: Seq<char>,
    pub custom_name: Option<Seq<char>>,
    pub format: FeedFormat,
    pub folder_id: Option<i64>,
    pub favicon_url: Option<Seq<char>>,
    pub feed_image_url: Option<Seq<char>>,
    pub etag: Option<Seq<char>>,
    pub last_modified: Option<Seq<char>>,
    pub last_refresh_attempt_at: Option<i64>,
    pub last_refresh_at: Option<i64>,
    pub last_http_status: Option<u16>,
    pub consecutive_failures: u32,
    pub last_refresh_status: Option<Seq<char>>,
}

impl View for FeedRecord {
    type V = FeedRecordView;

    open spec fn view(&self) -> FeedRecordView {
        FeedRecordView {
            stable_id: self.stable_id@,
            normalized_url: self.normalized_url@,
            fetch_url: self.fetch_url@,
            effective_fetch_url: view_of(self.effective_fetch_url),
            site_url: view_of(self.site_url),
            display_name: self.display_name@,
            publisher_name: self.publisher_name@,
            custom_name: view_of(self.custom_name),
            format: self.format,
            folder_id: self.folder_id,
            favicon_url: view_of(self.favicon_url),
            feed_image_url: view_of(self.feed_image_url),
            etag: view_of(self.etag),
            last_modified: view_of(self.last_modified),
            last_refresh_attempt_at: self.last_refresh_attempt_at,
            last_refresh_at: self.last_refresh_at,
            last_http_status: self.last_http_status,
            consecutive_failures: self.consecutive_failures,
            last_refresh_status: view_of(self.last_refresh_status),
        }
    }
}

impl Clone for FeedRecord {
    fn clone(&self) -> (r: Self)
        ensures
            r@ == self@,
    {
        FeedRecord {
            stable_id: self.stable_id.clone(),
            normalized_url: self.normalized_url.clone(),
            fetch_url: self.fetch_url.clone(),
            effective_fetch_url: copied(&self.effective_fetch_url),
            site_url: copied(&self.site_url),
            display_name: self.display_name.clone(),
            publisher_name: self.publisher_name.clone(),
            custom_name: copied(&self.custom_name),
            format: self.format,
            folder_id: self.folder_id,
            favicon_url: copied(&self.favicon_url),
            feed_image_url: copied(&self.feed_image_url),
            etag: copied(&self.etag),
            last_modified: copied(&self.last_modified),
            last_refresh_attempt_at: self.last_refresh_attempt_at,
            last_refresh_at: self.last_refresh_at,
            last_http_status: self.last_http_status,
            consecutive_failures: self.consecutive_failures,
            last_refresh_status: copied(&self.last_refresh_status),
        }
    }
}

/// A subscription as it is kept.
#[derive(Debug, PartialEq, Eq)]
pub struct FeedRow {
    pub feed: FeedRecord,
    pub description: Option<String>,
    /// The addresses of icons, one to a line.
    pub icon_candidates: Option<String>,
    pub last_refresh_error: Option<String>,
    pub created_at: i64,
    pub modified_at: i64,
}

/// What a [`FeedRow`] holds.
pub struct FeedRowView {
    pub feed: FeedRecordView,
    pub description: Option<Seq<char>>,
    pub icon_candidates: Option<Seq<char>>,
    pub last_refresh_error: Option<Seq<char>>,
    pub created_at: i64,
    pub modified_at: i64,
}

impl View for FeedRow {
    type V = FeedRowView;

    open spec fn view(&self) -> FeedRowView {
        FeedRowView {
            feed: self.feed@,
            description: view_of(self.description),
            icon_candidates: view_of(self.icon_candidates),
            last_refresh_error: view_of(self.last_refresh_error),
            created_at: self.created_at,
            modified_at: self.modified_at,
        }
    }
}

impl Clone for FeedRow {
    fn clone(&self) -> (r: Self)
        ensures
            r@ == self@,
    {
        FeedRow {
            feed: self.feed.clone(),
            description: copied(&self.description),
            icon_candidates: copied(&self.icon_candidates),
            last_refresh_error: copied(&self.last_refresh_error),
            created_at: self.created_at,
            modified_at: self.modified_at,
        }
    }
}

/// What the subscriptions of a list hold.
pub open spec fn feed_rows(list: Seq<FeedRow>) -> Seq<FeedRowView> {
    Seq::new(list.len(), |i: int| list[i]@)
}

/// What the subscriptions of a list hold.
pub open spec fn feed_record_views(list: Seq<FeedRecord>) -> Seq<FeedRecordView> {
    Seq::new(list.len(), |i: int| list[i]@)
}

/// An article as it is kept.
#[derive(Debug, PartialEq, Eq)]
pub struct ArticleRow {
    pub stable_id: String,
    pub feed_stable_id: String,
    pub provider_id: Option<String>,
    pub url: Option<String>,
    pub title: String,
    pub author: Option<String>,
    pub summary: Option<String>,
    pub content: Option<String>,
    pub published_at: Option<i64>,
    pub updated_at: Option<i64>,
    pub inserted_at: i64,
    pub image_url: Option<String>,
    pub image_source: Option<String>,
    pub enclosure_url: Option<String>,
    pub enclosure_type: Option<String>,
    pub is_read: bool,
    pub is_starred: bool,
    /// The time from which the age of the article counts.
    pub retention_at: i64,
    pub modified_at: i64,
}

/// What a [`ArticleRow`] holds.
pub struct ArticleRowView {
    pub stable_id: Seq<char>,
    pub feed_stable_id: Seq<char>,
    pub provider_id: Option<Seq<char>>,
    pub url: Option<Seq<char>>,
    pub title: Seq<char>,
    pub author: Option<Seq<char>>,
    pub summary: Option<Seq<char>>,
    pub content: Option<Seq<char>>,
    pub published_at: Option<i64>,
    pub updated_at: Option<i64>,
    pub inserted_at: i64,
    pub image_url: Option<Seq<char>>,
    pub image_source: Option<Seq<char>>,
    pub enclosure_url: Option<Seq<char>>,
    pub enclosure_type: Option<Seq<char>>,
    pub is_read: bool,
    pub is_starred: bool,
    pub retention_at: i64,
    pub modified_at: i64,
}

impl View for ArticleRow {
    type V = ArticleRowView;

    open spec fn view(&self) -> ArticleRowView {
        ArticleRowView {
            stable_id: self.stable_id@,
            feed_stable_id: self.feed_stable_id@,
            provider_id: view_of(self.provider_id),
            url: view_of(self.url),
            title: self.title@,
            author: view_of(self.author),
            summary: view_of(self.summary),
            content: view_of(self.content),
            published_at: self.published_at,
            updated_at: self.updated_at,
            inserted_at: self.inserted_at,
            image_url: view_of(self.image_url),
            image_source: view_of(self.image_source),
            enclosure_url: view_of(self.enclosure_url),
            enclosure_type: view_of(self.enclosure_type),
            is_read: self.is_read,
            is_starred: self.is_starred,
            retention_at: self.retention_at,
            modified_at: self.modified_at,
        }
    }
}

impl Clone for ArticleRow {
    fn clone(&self) -> (r: Self)
        ensures
            r@ == self@,
    {
        ArticleRow {
            stable_id: self.stable_id.clone(),
            feed_stable_id: self.feed_stable_id.clone(),
            provider_id: copied(&self.provider_id),
            url: copied(&self.url),
            title: self.title.clone(),
            author: copied(&self.author),
            summary: copied(&self.summary),
            content: copied(&self.content),
            published_at: self.published_at,
            updated_at: self.updated_at,
            inserted_at: self.inserted_at,
            image_url: copied(&self.image_url),
            image_source: copied(&self.image_source),
            enclosure_url: copied(&self.enclosure_url),
            enclosure_type: copied(&self.enclosure_type),
            is_read: self.is_read,
            is_starred: self.is_starred,
            retention_at: self.retention_at,
            modified_at: self.modified_at,
        }
    }
}

/// What the articles of a list hold.
pub open spec fn article_rows(list: Seq<ArticleRow>) -> Seq<ArticleRowView> {
    Seq::new(list.len(), |i: int| list[i]@)
}

/// What is noted of a refresh.
#[derive(Debug, PartialEq, Eq)]
pub struct RefreshMetadata {
    pub etag: Option<String>,
    pub last_modified: Option<String>,
    pub attempted_at: i64,
    pub succeeded_at: Option<i64>,
    pub http_status: Option<u16>,
    pub failure_category: Option<String>,
    pub final_fetch_url: Option<String>,
}

/// What a [`RefreshMetadata`] holds.
pub struct RefreshView {
    pub etag: Option<Seq<char>>,
    pub last_modified: Option<Seq<char>>,
    pub attempted_at: i64,
    pub succeeded_at: Option<i64>,
    pub http_status: Option<u16>,
    pub failure_category: Option<Seq<char>>,
    pub final_fetch_url: Option<Seq<char>>,
}

impl View for RefreshMetadata {
    type V = RefreshView;

    open spec fn view(&self) -> RefreshView {
        RefreshView {
            etag: view_of(self.etag),
            last_modified: view_of(self.last_modified),
            attempted_at: self.attempted_at,
            succeeded_at: self.succeeded_at,
            http_status: self.http_status,
            failure_category: view_of(self.failure_category),
            final_fetch_url: view_of(self.final_fetch_url),
        }
    }
}

impl Clone for RefreshMetadata {
    fn clone(&self) -> (r: Self)
        ensures
            r@ == self@,
    {
        RefreshMetadata {
            etag: copied(&self.etag),
            last_modified: copied(&self.last_modified),
            attempted_at: self.attempted_at,
            succeeded_at: self.succeeded_at,
            http_status: self.http_status,
            failure_category: copied(&self.failure_category),
            final_fetch_url: copied(&self.final_fetch_url),
        }
    }
}

/// An article in a list.
#[derive(Debug, PartialEq, Eq)]
pub struct ArticleListItem {
    pub stable_id: String,
    pub feed_stable_id: String,
    pub feed_name: String,
    pub article_url: Option<String>,
    pub title: String,
    pub summary: Option<String>,
    pub published_at: Option<i64>,
    pub updated_at: Option<i64>,
    pub thumbnail_url: Option<String>,
    pub is_unread: bool,
    pub is_starred: bool,
    pub sort_timestamp: i64,
}

/// What a [`ArticleListItem`] holds.
pub struct ListItemView {
    pub stable_id: Seq<char>,
    pub feed_stable_id: Seq<char>,
    pub feed_name: Seq<char>,
    pub article_url: Option<Seq<char>>,
    pub title: Seq<char>,
    pub summary: Option<Seq<char>>,
    pub published_at: Option<i64>,
    pub updated_at: Option<i64>,
    pub thumbnail_url: Option<Seq<char>>,
    pub is_unread: bool,
    pub is_starred: bool,
    pub sort_timestamp: i64,
}

impl View for ArticleListItem {
    type V = ListItemView;

    open spec fn view(&self) -> ListItemView {
        ListItemView {
            stable_id: self.stable_id@,
            feed_stable_id: self.feed_stable_id@,
            feed_name: self.feed_name@,
            article_url: view_of(self.article_url),
            title: self.title@,
            summary: view_of(self.summary),
            published_at: self.published_at,
            updated_at: self.updated_at,
            thumbnail_url: view_of(self.thumbnail_url),
            is_unread: self.is_unread,
            is_starred: self.is_starred,
            sort_timestamp: self.sort_timestamp,
        }
    }
}

impl Clone for ArticleListItem {
    fn clone(&self) -> (r: Self)
        ensures
            r@ == self@,
    {
        ArticleListItem {
            stable_id: self.stable_id.clone(),
            feed_stable_id: self.feed_stable_id.clone(),
            feed_name: self.feed_name.clone(),
            article_url: copied(&self.article_url),
            title: self.title.clone(),
            summary: copied(&self.summary),
            published_at: self.published_at,
            updated_at: self.updated_at,
            thumbnail_url: copied(&self.thumbnail_url),
            is_unread: self.is_unread,
            is_starred: self.is_starred,
            sort_timestamp: self.sort_timestamp,
        }
    }
}

/// What the articles of a list hold.
pub open spec fn list_item_views(list: Seq<ArticleListItem>) -> Seq<ListItemView> {
    Seq::new(list.len(), |i: int| list[i]@)
}

/// An article in full.
#[derive(Debug, PartialEq, Eq)]
pub struct FullArticle {
    pub stable_id: String,
    pub feed_stable_id: String,
    pub feed_name: String,
    pub provider_id: Option<String>,
    pub url: Option<String>,
    pub title: String,
    pub author: Option<String>,
    pub summary: Option<String>,
    pub content: Option<String>,
    pub published_at: Option<i64>,
    pub inserted_at: i64,
    pub updated_at: Option<i64>,
    pub image_url: Option<String>,
    pub image_source: Option<String>,
    pub enclosure_url: Option<String>,
    pub enclosure_type: Option<String>,
    pub is_read: bool,
    pub is_starred: bool,
}

/// What a [`FullArticle`] holds.
pub struct FullArticleView {
    pub stable_id: Seq<char>,
    pub feed_stable_id: Seq<char>,
    pub feed_name: Seq<char>,
    pub provider_id: Option<Seq<char>>,
    pub url: Option<Seq<char>>,
    pub title: Seq<char>,
    pub author: Option<Seq<char>>,
    pub summary: Option<Seq<char>>,
    pub content: Option<Seq<char>>,
    pub published_at: Option<i64>,
    pub inserted_at: i64,
    pub updated_at: Option<i64>,
    pub image_url: Option<Seq<char>>,
    pub image_source: Option<Seq<char>>,
    pub enclosure_url: Option<Seq<char>>,
    pub enclosure_type: Option<Seq<char>>,
    pub is_read: bool,
    pub is_starred: bool,
}

impl View for FullArticle {
    type V = FullArticleView;

    open spec fn view(&self) -> FullArticleView {
        FullArticleView {
            stable_id: self.stable_id@,
            feed_stable_id: self.feed_stable_id@,
            feed_name: self.feed_name@,
            provider_id: view_of(self.provider_id),
            url: view_of(self.url),
            title: self.title@,
            author: view_of(self.author),
            summary: view_of(self.summary),
            content: view_of(self.content),
            published_at: self.published_at,
            inserted_at: self.inserted_at,
            updated_at: self.updated_at,
            image_url: view_of(self.image_url),
            image_source: view_of(self.image_source),
            enclosure_url: view_of(self.enclosure_url),
            enclosure_type: view_of(self.enclosure_type),
            is_read: self.is_read,
            is_starred: self.is_starred,
        }
    }
}

impl Clone for FullArticle {
    fn clone(&self) -> (r: Self)
        ensures
            r@ == self@,
    {
        FullArticle {
            stable_id: self.stable_id.clone(),
            feed_stable_id: self.feed_stable_id.clone(),
            feed_name: self.feed_name.clone(),
            provider_id: copied(&self.provider_id),
            url: copied(&self.url),
            title: self.title.clone(),
            author: copied(&self.author),
            summary: copied(&self.summary),
            content: copied(&self.content),
            published_at: self.published_at,
            inserted_at: self.inserted_at,
            updated_at: self.updated_at,
            image_url: copied(&self.image_url),
            image_source: copied(&self.image_source),
            enclosure_url: copied(&self.enclosure_url),
            enclosure_type: copied(&self.enclosure_type),
            is_read: self.is_read,
            is_starred: self.is_starred,
        }
    }
}

/// Where a page ended.
#[derive(Debug, PartialEq, Eq)]
pub struct PageCursor {
    pub before_timestamp: i64,
    pub before_id: String,
    /// The page ended among the articles without a date, which come last.
    pub undated: bool,
}

/// What a [`PageCursor`] holds.
pub struct CursorView {
    pub before_timestamp: i64,
    pub before_id: Seq<char>,
    pub undated: bool,
}

impl View for PageCursor {
    type V = CursorView;

    open spec fn view(&self) -> CursorView {
        CursorView {
            before_timestamp: self.before_timestamp,
            before_id: self.before_id@,
            undated: self.undated,
        }
    }
}

impl Clone for PageCursor {
    fn clone(&self) -> (r: Self)
        ensures
            r@ == self@,
    {
        PageCursor {
            before_timestamp: self.before_timestamp,
            before_id: self.before_id.clone(),
            undated: self.undated,
        }
    }
}

/// A folder with unread articles.
#[derive(Debug, PartialEq, Eq)]
pub struct UnreadSummaryItem {
    pub folder_id: i64,
    pub folder_name: String,
    pub unread: i64,
}

/// What a [`UnreadSummaryItem`] holds.
pub struct UnreadView {
    pub folder_id: i64,
    pub folder_name: Seq<char>,
    pub unread: i64,
}

impl View for UnreadSummaryItem {
    type V = UnreadView;

    open spec fn view(&self) -> UnreadView {
        UnreadView {
            folder_id: self.folder_id,
            folder_name: self.folder_name@,
            unread: self.unread,
        }
    }
}

impl Clone for UnreadSummaryItem {
    fn clone(&self) -> (r: Self)
        ensures
            r@ == self@,
    {
        UnreadSummaryItem {
            folder_id: self.folder_id,
            folder_name: self.folder_name.clone(),
            unread: self.unread,
        }
    }
}

/// What the folders of a list hold.
pub open spec fn unread_views(list: Seq<UnreadSummaryItem>) -> Seq<UnreadView> {
    Seq::new(list.len(), |i: int| list[i]@)
}

/// Which articles are meant.
#[derive(Debug, Clone, Copy, PartialEq, Eq)]
pub enum ArticleScope<'a> {
    Library,
    Unread,
    Starred,
    Feed(&'a str),
    Folder(i64),
}

/// What an [`ArticleScope`] holds.
pub enum ScopeView {
    Library,
    Unread,
    Starred,
    Feed(Seq<char>),
    Folder(i64),
}

impl<'a> View for ArticleScope<'a> {
    type V = ScopeView;

    open spec fn view(&self) -> ScopeView {
        match self {
            ArticleScope::Library => ScopeView::Library,
            ArticleScope::Unread => ScopeView::Unread,
            ArticleScope::Starred => ScopeView::Starred,
            ArticleScope::Feed(id) => ScopeView::Feed(id@),
            ArticleScope::Folder(id) => ScopeView::Folder(*id),
        }
    }
}

/// Some articles of a list, and where the next ones begin.
#[derive(Debug, Clone, PartialEq, Eq)]
pub struct ArticlePage {
    pub items: Vec<ArticleListItem>,
    pub next: Option<PageCursor>,
}

/// What an [`ArticlePage`] holds.
pub struct PageView {
    pub items: Seq<ListItemView>,
    pub next: Option<CursorView>,
}

impl View for ArticlePage {
    type V = PageView;

    open spec fn view(&self) -> PageView {
        PageView {
            items: list_item_views(self.items@),
            next: match self.next {
                Some(cursor) => Some(cursor@),
                None => None,
            },
        }
    }
}

/// What taking in a document did.
#[derive(Debug, Clone, Copy, PartialEq, Eq)]
pub struct IngestStats {
    pub inserted: usize,
    pub updated: usize,
    pub duplicates_in_document: usize,
}

impl Default for IngestStats {
    fn default() -> (r: Self)
        ensures
            r.inserted == 0,
            r.updated == 0,
            r.duplicates_in_document == 0,
    {
        IngestStats { inserted: 0, updated: 0, duplicates_in_document: 0 }
    }
}

/// What taking in a subscription list did.
#[derive(Debug, Clone, Copy, PartialEq, Eq)]
pub struct ImportStats {
    pub feeds_added: usize,
    pub duplicates: usize,
    pub folders_created: usize,
    pub failed_entries: usize,
}

impl Default for ImportStats {
    fn default() -> (r: Self)
        ensures
            r.feeds_added == 0,
            r.duplicates == 0,
            r.folders_created == 0,
            r.failed_entries == 0,
    {
        ImportStats { feeds_added: 0, duplicates: 0, folders_created: 0, failed_entries: 0 }
    }
}

/// How much a library holds.
#[derive(Debug, Clone, Copy, PartialEq, Eq)]
pub struct LibraryStats {
    pub feeds: i64,
    pub folders: i64,
    pub articles: i64,
    pub unread: i64,
    pub starred: i64,
}

impl Default for LibraryStats {
    fn default() -> (r: Self)
        ensures
            r.feeds == 0,
            r.folders == 0,
            r.articles == 0,
            r.unread == 0,
            r.starred == 0,
    {
        LibraryStats { feeds: 0, folders: 0, articles: 0, unread: 0, starred: 0 }
    }
}

/// Why a library refuses something.
#[derive(Debug, Clone, PartialEq, Eq)]
pub enum StorageError {
    Open(String),
    Migration(String),
    Constraint(String),
    Transaction(String),
    Corruption(String),
    UnsupportedSchema(i64),
    Search(String),
    ImportExport(String),
    NotFound(&'static str),
    InvalidInput(&'static str),
}

/// What a [`StorageError`] holds.
pub enum StorageErrorView {
    Open(Seq<char>),
    Migration(Seq<char>),
    Constraint(Seq<char>),
    Transaction(Seq<char>),
    Corruption(Seq<char>),
    UnsupportedSchema(i64),
    Search(Seq<char>),
    ImportExport(Seq<char>),
    NotFound(Seq<char>),
    InvalidInput(Seq<char>),
}

impl View for StorageError {
    type V = StorageErrorView;

    open spec fn view(&self) -> StorageErrorView {
        match self {
            StorageError::Open(text) => StorageErrorView::Open(text@),
            StorageError::Migration(text) => StorageErrorView::Migration(text@),
            StorageError::Constraint(text) => StorageErrorView::Constraint(text@),
            StorageError::Transaction(text) => StorageErrorView::Transaction(text@),
            StorageError::Corruption(text) => StorageErrorView::Corruption(text@),
            StorageError::UnsupportedSchema(version) => StorageErrorView::UnsupportedSchema(
                *version,
            ),
            StorageError::Search(text) => StorageErrorView::Search(text@),
            StorageError::ImportExport(text) => StorageErrorView::ImportExport(text@),
            StorageError::NotFound(kind) => StorageErrorView::NotFound(kind@),
            StorageError::InvalidInput(kind) => StorageErrorView::InvalidInput(kind@),
        }
    }
}

impl StorageErrorView {
    /// The message for a reader.
    pub open spec fn message(self) -> Seq<char> {
        match self {
            StorageErrorView::Open(text) => "database open failed: "@ + text,
            StorageErrorView::Migration(text) => "database migration failed: "@ + text,
            StorageErrorView::Constraint(text) => "database constraint failed: "@ + text,
            StorageErrorView::Transaction(text) => "database transaction failed: "@ + text,
            StorageErrorView::Corruption(text) => "database integrity failed: "@ + text,
            StorageErrorView::UnsupportedSchema(version) => "unsupported database schema version "@
                + crate::text::decimal_int(version as int),
            StorageErrorView::Search(text) => "search failed: "@ + text,
            StorageErrorView::ImportExport(text) => "import/export failed: "@ + text,
            StorageErrorView::NotFound(kind) => kind + " was not found"@,
            StorageErrorView::InvalidInput(kind) => "invalid "@ + kind,
        }
    }
}

fn with_text(opening: &str, text: &str) -> (r: String)
    ensures
        r@ == opening@ + text@,
{
    let mut out = opening.to_owned();
    out.append(text);
    out
}

impl StorageError {
    /// The message for a reader.
    pub fn message(&self) -> (r: String)
        ensures
            r@ == self@.message(),
    {
        match self {
            StorageError::Open(text) => with_text("database open failed: ", text.as_str()),
            StorageError::Migration(text) => with_text(
                "database migration failed: ",
                text.as_str(),
            ),
            StorageError::Constraint(text) => with_text(
                "database constraint failed: ",
                text.as_str(),
            ),
            StorageError::Transaction(text) => with_text(
                "database transaction failed: ",
                text.as_str(),
            ),
            StorageError::Corruption(text) => with_text(
                "database integrity failed: ",
                text.as_str(),
            ),
            StorageError::UnsupportedSchema(version) => {
                let number = crate::text::signed_text(*version);
                with_text("unsupported database schema version ", number.as_str())
            },
            StorageError::Search(text) => with_text("search failed: ", text.as_str()),
            StorageError::ImportExport(text) => with_text("import/export failed: ", text.as_str()),
            StorageError::NotFound(kind) => with_text(kind, " was not found"),
            StorageError::InvalidInput(kind) => with_text("invalid ", kind),
        }
    }
}

/// What a failure holds; nothing where there is none.
pub open spec fn storage_failure<T>(r: Result<T, StorageError>) -> Option<StorageErrorView> {
    match r {
        Ok(_) => None,
        Err(error) => Some(error@),
    }
}

} // verus!
