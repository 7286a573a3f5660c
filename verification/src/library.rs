//! The library: folders, subscriptions and articles, and what can be done with
//! folders and subscriptions.

use crate::identity::{feed_id, feed_identity, hex_digit, normal_url, normalize_url};
use crate::parser::{copied, FeedFormat};
use crate::records::{
    article_rows, feed_record_views, feed_rows, folder_rows, folder_views, storage_failure,
    ArticleRow, ArticleRowView, FeedRecord, FeedRecordView, FeedRow, FeedRowView, FolderRecord,
    FolderRow, FolderRowView, FolderView, LibraryStats, RefreshMetadata, RefreshView,
    StorageError, StorageErrorView,
};
use crate::sorting::{in_key_order, key_views, place_list, sort_by_keys, KeyView, SortKey};
use crate::text::{
    begins, byte_len, lower, lowered, same, same_ignoring_case, starts_with, trim, trimmed, view_of,
};
use vstd::prelude::*;

verus! {

/// The version of the tables that a library is kept in.
pub const SCHEMA_VERSION: i64 = 3;

/// The longest name of a folder, in characters.
pub const MAX_FOLDER_NAME: usize = 500;

/// The longest name of a feed, in characters.
pub const MAX_FEED_NAME: usize = 1000;

/// The longest address of a feed, in characters.
pub const MAX_FEED_URL: usize = 4096;

/// The longest title of an article, in characters.
pub const MAX_ARTICLE_TITLE: usize = 4000;

/// Folders, subscriptions and articles.
#[derive(Debug)]
pub struct Library {
    pub folders: Vec<FolderRow>,
    pub feeds: Vec<FeedRow>,
    pub articles: Vec<ArticleRow>,
}

/// What a [`Library`] holds.
pub struct LibraryView {
    pub folders: Seq<FolderRowView>,
    pub feeds: Seq<FeedRowView>,
    pub articles: Seq<ArticleRowView>,
}

impl View for Library {
    type V = LibraryView;

    open spec fn view(&self) -> LibraryView {
        LibraryView {
            folders: folder_rows(self.folders@),
            feeds: feed_rows(self.feeds@),
            articles: article_rows(self.articles@),
        }
    }
}

/// The place of the folder with an id, from `i` on.
pub open spec fn folder_at(folders: Seq<FolderRowView>, id: i64, i: int) -> Option<int>
    decreases folders.len() - i,
{
    if i < 0 || i >= folders.len() {
        None
    } else if folders[i].folder.id == id {
        Some(i)
    } else {
        folder_at(folders, id, i + 1)
    }
}

/// The place of the feed with an id, from `i` on.
pub open spec fn feed_at(feeds: Seq<FeedRowView>, id: Seq<char>, i: int) -> Option<int>
    decreases feeds.len() - i,
{
    if i < 0 || i >= feeds.len() {
        None
    } else if feeds[i].feed.stable_id == id {
        Some(i)
    } else {
        feed_at(feeds, id, i + 1)
    }
}

/// The place of the article with an id, from `i` on.
pub open spec fn article_at(articles: Seq<ArticleRowView>, id: Seq<char>, i: int) -> Option<int>
    decreases articles.len() - i,
{
    if i < 0 || i >= articles.len() {
        None
    } else if articles[i].stable_id == id {
        Some(i)
    } else {
        article_at(articles, id, i + 1)
    }
}

/// What a search by id finds has that id; where it finds nothing, nothing has.
pub proof fn lemma_folder_at(folders: Seq<FolderRowView>, id: i64, i: int)
    requires
        0 <= i,
    ensures
        match folder_at(folders, id, i) {
            Some(k) => i <= k < folders.len() && folders[k].folder.id == id,
            None => forall|k: int| i <= k < folders.len() ==> (#[trigger] folders[k]).folder.id != id,
        },
    decreases folders.len() - i,
{
    if i < folders.len() && folders[i].folder.id != id {
        lemma_folder_at(folders, id, i + 1);
    }
}

/// What a search by id finds has that id; where it finds nothing, nothing has.
pub proof fn lemma_feed_at(feeds: Seq<FeedRowView>, id: Seq<char>, i: int)
    requires
        0 <= i,
    ensures
        match feed_at(feeds, id, i) {
            Some(k) => i <= k < feeds.len() && feeds[k].feed.stable_id == id,
            None => forall|k: int|
                i <= k < feeds.len() ==> (#[trigger] feeds[k]).feed.stable_id != id,
        },
    decreases feeds.len() - i,
{
    if i < feeds.len() && feeds[i].feed.stable_id != id {
        lemma_feed_at(feeds, id, i + 1);
    }
}

/// What a search by id finds has that id; where it finds nothing, nothing has.
pub proof fn lemma_article_at(articles: Seq<ArticleRowView>, id: Seq<char>, i: int)
    requires
        0 <= i,
    ensures
        match article_at(articles, id, i) {
            Some(k) => i <= k < articles.len() && articles[k].stable_id == id,
            None => forall|k: int|
                i <= k < articles.len() ==> (#[trigger] articles[k]).stable_id != id,
        },
    decreases articles.len() - i,
{
    if i < articles.len() && articles[i].stable_id != id {
        lemma_article_at(articles, id, i + 1);
    }
}

/// There is a folder with this id.
pub open spec fn has_folder(folders: Seq<FolderRowView>, id: i64) -> bool {
    exists|i: int| 0 <= i < folders.len() && (#[trigger] folders[i]).folder.id == id
}

/// There is a feed with this id.
pub open spec fn has_feed(feeds: Seq<FeedRowView>, id: Seq<char>) -> bool {
    exists|i: int| 0 <= i < feeds.len() && (#[trigger] feeds[i]).feed.stable_id == id
}

/// A folder by itself is in order: a positive id and a name of a permitted
/// length.
pub open spec fn is_sound_folder(row: FolderRowView) -> bool {
    row.folder.id >= 1 && 1 <= row.folder.name.len() <= MAX_FOLDER_NAME
}

/// A feed by itself is in order: names and addresses of permitted lengths.
pub open spec fn is_sound_feed(row: FeedRowView) -> bool {
    &&& 1 <= row.feed.normalized_url.len() <= MAX_FEED_URL
    &&& 1 <= row.feed.fetch_url.len() <= MAX_FEED_URL
    &&& 1 <= row.feed.display_name.len() <= MAX_FEED_NAME
    &&& 1 <= row.feed.publisher_name.len() <= MAX_FEED_NAME
}

/// Why a feed by itself is refused; nothing where it is in order.
pub open spec fn feed_fault(row: FeedRowView) -> Option<StorageErrorView> {
    if !(1 <= row.feed.normalized_url.len() <= MAX_FEED_URL) {
        Some(
            StorageErrorView::Constraint(
                "CHECK constraint failed: length(normalized_url) BETWEEN 1 AND 4096"@,
            ),
        )
    } else if !(1 <= row.feed.fetch_url.len() <= MAX_FEED_URL) {
        Some(
            StorageErrorView::Constraint(
                "CHECK constraint failed: length(fetch_url) BETWEEN 1 AND 4096"@,
            ),
        )
    } else if !(1 <= row.feed.display_name.len() <= MAX_FEED_NAME) {
        Some(
            StorageErrorView::Constraint(
                "CHECK constraint failed: length(display_name) BETWEEN 1 AND 1000"@,
            ),
        )
    } else if !(1 <= row.feed.publisher_name.len() <= MAX_FEED_NAME) {
        Some(
            StorageErrorView::Constraint(
                "CHECK constraint failed: length(publisher_name) BETWEEN 1 AND 1000"@,
            ),
        )
    } else {
        None
    }
}

/// Why `row` by itself is refused.
pub(crate) fn fault_of_feed(row: &FeedRow) -> (r: Option<StorageError>)
    ensures
        match r {
            Some(error) => feed_fault(row@) == Some(error@),
            None => feed_fault(row@) is None,
        },
{
    if !fits(row.feed.normalized_url.as_str(), MAX_FEED_URL) {
        return Some(
            StorageError::Constraint(
                "CHECK constraint failed: length(normalized_url) BETWEEN 1 AND 4096".to_owned(),
            ),
        );
    }
    if !fits(row.feed.fetch_url.as_str(), MAX_FEED_URL) {
        return Some(
            StorageError::Constraint(
                "CHECK constraint failed: length(fetch_url) BETWEEN 1 AND 4096".to_owned(),
            ),
        );
    }
    if !fits(row.feed.display_name.as_str(), MAX_FEED_NAME) {
        return Some(
            StorageError::Constraint(
                "CHECK constraint failed: length(display_name) BETWEEN 1 AND 1000".to_owned(),
            ),
        );
    }
    if !fits(row.feed.publisher_name.as_str(), MAX_FEED_NAME) {
        return Some(
            StorageError::Constraint(
                "CHECK constraint failed: length(publisher_name) BETWEEN 1 AND 1000".to_owned(),
            ),
        );
    }
    None
}

/// An article by itself is in order: a title of a permitted length.
pub open spec fn is_sound_article(row: ArticleRowView) -> bool {
    1 <= row.title.len() <= MAX_ARTICLE_TITLE
}

/// Two folders cannot lie side by side: inside one folder, with one name but
/// for the case of ASCII letters.
pub open spec fn clash(a: FolderRowView, b: FolderRowView) -> bool {
    a.folder.parent_id is Some && a.folder.parent_id == b.folder.parent_id && lower(a.folder.name)
        == lower(b.folder.name)
}

/// The folders of a library are in order: each by itself, ids are unique, a
/// folder lies in an older one, and names inside a folder are unique.
pub open spec fn folders_wf(folders: Seq<FolderRowView>) -> bool {
    &&& forall|i: int| 0 <= i < folders.len() ==> is_sound_folder(#[trigger] folders[i])
    &&& forall|i: int, j: int|
        0 <= i < j < folders.len() ==> (#[trigger] folders[i]).folder.id != (
        #[trigger] folders[j]).folder.id && !clash(folders[i], folders[j])
    &&& forall|i: int|
        0 <= i < folders.len() && (#[trigger] folders[i]).folder.parent_id is Some ==> has_folder(
            folders,
            folders[i].folder.parent_id->0,
        ) && folders[i].folder.parent_id->0 < folders[i].folder.id
}

/// The feeds of a library are in order: each by itself, ids and addresses are
/// unique, and a feed lies in a folder that is there.
pub open spec fn feeds_wf(feeds: Seq<FeedRowView>, folders: Seq<FolderRowView>) -> bool {
    &&& forall|i: int| 0 <= i < feeds.len() ==> is_sound_feed(#[trigger] feeds[i])
    &&& forall|i: int, j: int|
        0 <= i < j < feeds.len() ==> (#[trigger] feeds[i]).feed.stable_id != (
        #[trigger] feeds[j]).feed.stable_id && feeds[i].feed.normalized_url
            != feeds[j].feed.normalized_url
    &&& forall|i: int|
        0 <= i < feeds.len() && (#[trigger] feeds[i]).feed.folder_id is Some ==> has_folder(
            folders,
            feeds[i].feed.folder_id->0,
        )
}

/// The articles of a library are in order: each by itself, ids are unique, and
/// an article belongs to a feed that is there.
pub open spec fn articles_wf(articles: Seq<ArticleRowView>, feeds: Seq<FeedRowView>) -> bool {
    &&& forall|i: int| 0 <= i < articles.len() ==> is_sound_article(#[trigger] articles[i])
    &&& forall|i: int, j: int|
        0 <= i < j < articles.len() ==> (#[trigger] articles[i]).stable_id != (
        #[trigger] articles[j]).stable_id
    &&& forall|i: int|
        0 <= i < articles.len() ==> has_feed(feeds, (#[trigger] articles[i]).feed_stable_id)
}

impl LibraryView {
    /// Everything is in order.
    pub open spec fn wf(self) -> bool {
        &&& folders_wf(self.folders)
        &&& feeds_wf(self.feeds, self.folders)
        &&& articles_wf(self.articles, self.feeds)
    }
}

/// A name without white space round it, where it has a permitted length.
pub open spec fn name_in(value: Seq<char>) -> Option<Seq<char>> {
    if trim(value).len() > 0 && byte_len(trim(value)) <= 1000 {
        Some(trim(value))
    } else {
        None
    }
}

/// `value` without white space round it, where that leaves a name of a
/// permitted length.
pub fn checked_name(value: &str, kind: &'static str) -> (r: Result<String, StorageError>)
    ensures
        match r {
            Ok(name) => name_in(value@) == Some(name@),
            Err(error) => name_in(value@) is None && error@ == StorageErrorView::InvalidInput(
                kind@,
            ),
        },
{
    let name = trimmed(value);
    if name.as_str().is_empty() || name.as_str().as_bytes().len() > 1000 {
        Err(StorageError::InvalidInput(kind))
    } else {
        Ok(name)
    }
}

/// A text begins as an HTTP or HTTPS address does.
pub open spec fn begins_like_web(value: Seq<char>) -> bool {
    starts_with(value, "http://"@) || starts_with(value, "https://"@)
}

/// Whether `value` begins as an HTTP or HTTPS address does.
pub fn validate_web_url(value: &str) -> (r: Result<(), StorageError>)
    ensures
        storage_failure(r) == if begins_like_web(value@) {
            None
        } else {
            Some(StorageErrorView::InvalidInput("feed URL"@))
        },
{
    if begins(value, "http://") || begins(value, "https://") {
        Ok(())
    } else {
        Err(StorageError::InvalidInput("feed URL"))
    }
}

/// The length of `value` lies between one and `most` characters.
pub fn fits(value: &str, most: usize) -> (r: bool)
    ensures
        r == (1 <= value@.len() <= most),
{
    let chars = crate::text::chars_of(value);
    1 <= chars.len() && chars.len() <= most
}

/// `n` in hexadecimal, with `width` digits.
pub open spec fn hex_padded(n: nat, width: nat) -> Seq<char>
    decreases width,
{
    if width == 0 {
        Seq::empty()
    } else {
        hex_padded(n / 16, (width - 1) as nat).push(hex_digit((n % 16) as int))
    }
}

fn hex_of(n: u64, width: usize) -> (r: String)
    ensures
        r@ == hex_padded(n as nat, width as nat),
    decreases width,
{
    if width == 0 {
        String::new()
    } else {
        let mut out = hex_of(n / 16, width - 1);
        let d: u8 = (n % 16) as u8;
        out.push(
            if d < 10 {
                (d + 48) as char
            } else {
                (d + 87) as char
            },
        );
        out
    }
}

/// The identity of a folder.
pub open spec fn folder_identity(id: i64) -> Seq<char> {
    "folder:v1:"@ + hex_padded(id as nat, 16)
}

/// The largest id of a folder; 0 where there is none.
pub open spec fn largest_id(folders: Seq<FolderRowView>) -> i64
    decreases folders.len(),
{
    if folders.len() == 0 {
        0
    } else if folders.last().folder.id > largest_id(folders.drop_last()) {
        folders.last().folder.id
    } else {
        largest_id(folders.drop_last())
    }
}

pub proof fn lemma_largest_id(folders: Seq<FolderRowView>)
    ensures
        largest_id(folders) >= 0,
        forall|i: int| 0 <= i < folders.len() ==> (#[trigger] folders[i]).folder.id <= largest_id(
            folders,
        ),
    decreases folders.len(),
{
    if folders.len() > 0 {
        let shorter = folders.drop_last();
        lemma_largest_id(shorter);
        assert forall|i: int| 0 <= i < folders.len() implies (#[trigger] folders[i]).folder.id
            <= largest_id(folders) by {
            if i < shorter.len() {
                assert(folders[i] == shorter[i]);
            }
        }
    }
}

/// The place of the folder inside `parent` with this name, but for the case of
/// ASCII letters, from `i` on.
pub open spec fn sibling(
    folders: Seq<FolderRowView>,
    parent: Option<i64>,
    name: Seq<char>,
    i: int,
) -> Option<int>
    decreases folders.len() - i,
{
    if i < 0 || i >= folders.len() {
        None
    } else if folders[i].folder.parent_id == parent && lower(folders[i].folder.name) == lower(
        name,
    ) {
        Some(i)
    } else {
        sibling(folders, parent, name, i + 1)
    }
}

pub proof fn lemma_sibling(folders: Seq<FolderRowView>, parent: Option<i64>, name: Seq<char>, i: int)
    requires
        0 <= i,
    ensures
        match sibling(folders, parent, name, i) {
            Some(k) => i <= k < folders.len() && folders[k].folder.parent_id == parent && lower(
                folders[k].folder.name,
            ) == lower(name),
            None => forall|k: int|
                i <= k < folders.len() ==> !((#[trigger] folders[k]).folder.parent_id == parent
                    && lower(folders[k].folder.name) == lower(name)),
        },
    decreases folders.len() - i,
{
    if i < folders.len() {
        lemma_sibling(folders, parent, name, i + 1);
    }
}

/// A new folder.
pub open spec fn new_folder(id: i64, name: Seq<char>, parent: Option<i64>, now: i64) -> FolderRowView {
    FolderRowView {
        folder: FolderView {
            id,
            stable_id: folder_identity(id),
            name,
            parent_id: parent,
            sort_order: 0,
        },
        created_at: now,
        modified_at: now,
    }
}

/// The folders with one of this name inside `parent`, and its place: the one
/// that is there, else a new one.
pub open spec fn with_folder(
    folders: Seq<FolderRowView>,
    name: Seq<char>,
    parent: Option<i64>,
    now: i64,
) -> Result<(Seq<FolderRowView>, int), StorageErrorView> {
    match sibling(folders, parent, name, 0) {
        Some(i) => Ok((folders, i)),
        None => if largest_id(folders) == i64::MAX {
            Err(
                StorageErrorView::Transaction(
                    "Invalid column type Real at index: 0, name: COALESCE(max(id),0)+1"@,
                ),
            )
        } else if !(1 <= name.len() <= MAX_FOLDER_NAME) {
            Err(
                StorageErrorView::Constraint(
                    "CHECK constraint failed: length(name) BETWEEN 1 AND 500"@,
                ),
            )
        } else if parent is Some && !has_folder(folders, parent->0) {
            Err(StorageErrorView::Constraint("FOREIGN KEY constraint failed"@))
        } else {
            Ok(
                (
                    folders.push(
                        new_folder((largest_id(folders) + 1) as i64, name, parent, now),
                    ),
                    folders.len() as int,
                ),
            )
        },
    }
}

/// Taking in a folder keeps the folders in order, and those that were there.
pub proof fn lemma_with_folder(
    folders: Seq<FolderRowView>,
    name: Seq<char>,
    parent: Option<i64>,
    now: i64,
)
    requires
        folders_wf(folders),
    ensures
        match with_folder(folders, name, parent, now) {
            Ok((after, place)) => {
                &&& folders_wf(after)
                &&& 0 <= place < after.len()
                &&& folders.len() <= after.len()
                &&& after.take(folders.len() as int) == folders
                &&& after[place].folder.parent_id == parent
                &&& lower(after[place].folder.name) == lower(name)
            },
            Err(_) => true,
        },
{
    lemma_sibling(folders, parent, name, 0);
    match with_folder(folders, name, parent, now) {
        Ok((after, place)) => {
            if sibling(folders, parent, name, 0) is None {
                lemma_largest_id(folders);
                let row = new_folder((largest_id(folders) + 1) as i64, name, parent, now);
                assert(after == folders.push(row));
                assert forall|i: int|
                    0 <= i < after.len() && (#[trigger] after[i]).folder.parent_id is Some implies
                    has_folder(after, after[i].folder.parent_id->0)
                    && after[i].folder.parent_id->0 < after[i].folder.id by {
                    let wanted = after[i].folder.parent_id->0;
                    assert(has_folder(folders, wanted)) by {
                        if i < folders.len() {
                            assert(folders[i] == after[i]);
                        }
                    }
                    let k = choose|k: int|
                        0 <= k < folders.len() && (#[trigger] folders[k]).folder.id == wanted;
                    assert(after[k].folder.id == wanted);
                }
                assert(after.take(folders.len() as int) == folders);
            } else {
                assert(after.take(folders.len() as int) == folders);
            }
        },
        Err(_) => {},
    }
}

/// More folders leave what is in a folder where it is.
pub proof fn lemma_more_folders(
    feeds: Seq<FeedRowView>,
    before: Seq<FolderRowView>,
    after: Seq<FolderRowView>,
)
    requires
        feeds_wf(feeds, before),
        before.len() <= after.len(),
        after.take(before.len() as int) == before,
    ensures
        feeds_wf(feeds, after),
{
    assert forall|i: int|
        0 <= i < feeds.len() && (#[trigger] feeds[i]).feed.folder_id is Some implies has_folder(
        after,
        feeds[i].feed.folder_id->0,
    ) by {
        let wanted = feeds[i].feed.folder_id->0;
        let k = choose|k: int| 0 <= k < before.len() && (#[trigger] before[k]).folder.id == wanted;
        assert(after.take(before.len() as int)[k] == after[k]);
        assert(after[k].folder.id == wanted);
    }
}

impl Library {
    /// A library with nothing in it.
    pub fn new() -> (r: Library)
        ensures
            r@.wf(),
            r@.folders.len() == 0,
            r@.feeds.len() == 0,
            r@.articles.len() == 0,
    {
        Library { folders: Vec::new(), feeds: Vec::new(), articles: Vec::new() }
    }

    /// The version of the tables.
    pub fn schema_version(&self) -> (r: i64)
        ensures
            r == SCHEMA_VERSION,
    {
        SCHEMA_VERSION
    }

    pub(crate) fn find_folder(&self, id: i64) -> (r: Option<usize>)
        ensures
            match r {
                Some(i) => folder_at(self@.folders, id, 0) == Some(i as int) && i
                    < self.folders@.len(),
                None => folder_at(self@.folders, id, 0) is None,
            },
    {
        let mut i: usize = 0;
        while i < self.folders.len()
            invariant
                i <= self.folders@.len(),
                folder_at(self@.folders, id, 0) == folder_at(self@.folders, id, i as int),
            decreases self.folders@.len() - i,
        {
            assert(self@.folders[i as int] == self.folders@[i as int]@);
            if self.folders[i].folder.id == id {
                return Some(i);
            }
            i += 1;
        }
        None
    }

    pub(crate) fn find_feed(&self, id: &str) -> (r: Option<usize>)
        ensures
            match r {
                Some(i) => feed_at(self@.feeds, id@, 0) == Some(i as int) && i < self.feeds@.len(),
                None => feed_at(self@.feeds, id@, 0) is None,
            },
    {
        let mut i: usize = 0;
        while i < self.feeds.len()
            invariant
                i <= self.feeds@.len(),
                feed_at(self@.feeds, id@, 0) == feed_at(self@.feeds, id@, i as int),
            decreases self.feeds@.len() - i,
        {
            assert(self@.feeds[i as int] == self.feeds@[i as int]@);
            if same(self.feeds[i].feed.stable_id.as_str(), id) {
                return Some(i);
            }
            i += 1;
        }
        None
    }

    pub(crate) fn find_article(&self, id: &str) -> (r: Option<usize>)
        ensures
            match r {
                Some(i) => article_at(self@.articles, id@, 0) == Some(i as int) && i
                    < self.articles@.len(),
                None => article_at(self@.articles, id@, 0) is None,
            },
    {
        let mut i: usize = 0;
        while i < self.articles.len()
            invariant
                i <= self.articles@.len(),
                article_at(self@.articles, id@, 0) == article_at(self@.articles, id@, i as int),
            decreases self.articles@.len() - i,
        {
            assert(self@.articles[i as int] == self.articles@[i as int]@);
            if same(self.articles[i].stable_id.as_str(), id) {
                return Some(i);
            }
            i += 1;
        }
        None
    }

    pub(crate) fn find_sibling(&self, parent: Option<i64>, name: &str) -> (r: Option<usize>)
        ensures
            match r {
                Some(i) => sibling(self@.folders, parent, name@, 0) == Some(i as int) && i
                    < self.folders@.len(),
                None => sibling(self@.folders, parent, name@, 0) is None,
            },
    {
        let mut i: usize = 0;
        while i < self.folders.len()
            invariant
                i <= self.folders@.len(),
                sibling(self@.folders, parent, name@, 0) == sibling(
                    self@.folders,
                    parent,
                    name@,
                    i as int,
                ),
            decreases self.folders@.len() - i,
        {
            assert(self@.folders[i as int] == self.folders@[i as int]@);
            let inside = match (self.folders[i].folder.parent_id, parent) {
                (None, None) => true,
                (Some(a), Some(b)) => a == b,
                _ => false,
            };
            if inside && same_ignoring_case(self.folders[i].folder.name.as_str(), name) {
                return Some(i);
            }
            i += 1;
        }
        None
    }

    fn last_id(&self) -> (r: i64)
        ensures
            r == largest_id(self@.folders),
    {
        let ghost all = self@.folders;
        let mut largest: i64 = 0;
        let mut i: usize = 0;
        while i < self.folders.len()
            invariant
                i <= self.folders@.len(),
                all == self@.folders,
                largest == largest_id(all.take(i as int)),
            decreases self.folders@.len() - i,
        {
            assert(all.take(i + 1).drop_last() == all.take(i as int));
            assert(all.take(i + 1).last() == self.folders@[i as int]@);
            if self.folders[i].folder.id > largest {
                largest = self.folders[i].folder.id;
            }
            i += 1;
        }
        assert(all.take(i as int) == all);
        largest
    }

    /// Takes in a folder with this name inside `parent`, unless there is one.
    pub(crate) fn ensure_folder(&mut self, name: &str, parent: Option<i64>, now: i64) -> (r: Result<
        FolderRecord,
        StorageError,
    >)
        requires
            old(self)@.wf(),
        ensures
            final(self)@.wf(),
            final(self)@.feeds == old(self)@.feeds,
            final(self)@.articles == old(self)@.articles,
            match with_folder(old(self)@.folders, name@, parent, now) {
                Ok((after, place)) => r is Ok && r->Ok_0@ == after[place].folder
                    && final(self)@.folders == after,
                Err(error) => storage_failure(r) == Some(error) && final(self)@.folders == old(
                    self,
                )@.folders,
            },
    {
        let ghost before = self@;
        proof {
            lemma_with_folder(before.folders, name@, parent, now);
        }
        if let Some(i) = self.find_sibling(parent, name) {
            assert(before.folders[i as int] == self.folders@[i as int]@);
            return Ok(self.folders[i].folder.clone());
        }
        let last = self.last_id();
        if last == i64::MAX {
            return Err(
                StorageError::Transaction(
                    "Invalid column type Real at index: 0, name: COALESCE(max(id),0)+1".to_owned(),
                ),
            );
        }
        if !fits(name, MAX_FOLDER_NAME) {
            return Err(
                StorageError::Constraint(
                    "CHECK constraint failed: length(name) BETWEEN 1 AND 500".to_owned(),
                ),
            );
        }
        if let Some(id) = parent {
            proof {
                lemma_folder_at(before.folders, id, 0);
            }
            if self.find_folder(id).is_none() {
                return Err(StorageError::Constraint("FOREIGN KEY constraint failed".to_owned()));
            }
            assert(has_folder(before.folders, id));
        }
        proof {
            lemma_largest_id(before.folders);
        }
        let id: i64 = last + 1;
        let digits = hex_of(id as u64, 16);
        let mut stable_id = "folder:v1:".to_owned();
        stable_id.append(digits.as_str());
        let folder = FolderRecord {
            id,
            stable_id,
            name: name.to_owned(),
            parent_id: parent,
            sort_order: 0,
        };
        let made = folder.clone();
        let row = FolderRow { folder, created_at: now, modified_at: now };
        self.folders.push(row);
        assert(self@.folders == before.folders.push(row@));
        assert(row@ == new_folder(id, name@, parent, now));
        proof {
            lemma_more_folders(before.feeds, before.folders, self@.folders);
        }
        Ok(made)
    }

    /// Makes a folder, or gives the one of this name that is there.
    pub fn create_folder(&mut self, name: &str, parent_id: Option<i64>, now: i64) -> (r: Result<
        FolderRecord,
        StorageError,
    >)
        requires
            old(self)@.wf(),
        ensures
            final(self)@.wf(),
            final(self)@.feeds == old(self)@.feeds,
            final(self)@.articles == old(self)@.articles,
            match name_in(name@) {
                Some(bare) => match with_folder(old(self)@.folders, bare, parent_id, now) {
                    Ok((after, place)) => r is Ok && r->Ok_0@ == after[place].folder
                        && final(self)@.folders == after,
                    Err(error) => storage_failure(r) == Some(error) && final(self)@ == old(self)@,
                },
                None => storage_failure(r) == Some(
                    StorageErrorView::InvalidInput("folder name"@),
                ) && final(self)@ == old(self)@,
            },
    {
        let bare = match checked_name(name, "folder name") {
            Ok(bare) => bare,
            Err(error) => {
                return Err(error);
            },
        };
        self.ensure_folder(bare.as_str(), parent_id, now)
    }
}

/// The folder at a place under another name.
pub open spec fn renamed(row: FolderRowView, name: Seq<char>, now: i64) -> FolderRowView {
    FolderRowView {
        folder: FolderView { name, ..row.folder },
        modified_at: now,
        ..row
    }
}

/// Some other folder clashes with the one at `place` under the name `name`.
pub open spec fn name_taken(folders: Seq<FolderRowView>, place: int, name: Seq<char>) -> bool {
    exists|i: int|
        0 <= i < folders.len() && i != place && folders[place].folder.parent_id is Some && (
        #[trigger] folders[i]).folder.parent_id == folders[place].folder.parent_id && lower(
            folders[i].folder.name,
        ) == lower(name)
}

/// A folder out of another one.
pub open spec fn freed_folder(row: FolderRowView, id: i64) -> FolderRowView {
    if row.folder.parent_id == Some(id) {
        FolderRowView { folder: FolderView { parent_id: None, ..row.folder }, ..row }
    } else {
        row
    }
}

/// A feed out of a folder.
pub open spec fn freed_feed(row: FeedRowView, id: i64) -> FeedRowView {
    if row.feed.folder_id == Some(id) {
        FeedRowView { feed: FeedRecordView { folder_id: None, ..row.feed }, ..row }
    } else {
        row
    }
}

/// The library without the folder at a place: what lay directly in it lies at
/// the top.
pub open spec fn without_folder(library: LibraryView, place: int) -> LibraryView {
    let id = library.folders[place].folder.id;
    LibraryView {
        folders: library.folders.remove(place).map_values(
            |row: FolderRowView| freed_folder(row, id),
        ),
        feeds: library.feeds.map_values(|row: FeedRowView| freed_feed(row, id)),
        articles: library.articles,
    }
}

proof fn lemma_without_folder(library: LibraryView, place: int)
    requires
        library.wf(),
        0 <= place < library.folders.len(),
    ensures
        without_folder(library, place).wf(),
{
    let id = library.folders[place].folder.id;
    let shorter = library.folders.remove(place);
    let folders = without_folder(library, place).folders;
    let feeds = without_folder(library, place).feeds;
    assert forall|i: int| 0 <= i < shorter.len() implies #[trigger] shorter[i] == library.folders[(
    if i < place {
        i
    } else {
        i + 1
    })] by {}
    assert(forall|i: int| 0 <= i < folders.len() ==> #[trigger] folders[i] == freed_folder(
        shorter[i],
        id,
    ));
    assert forall|i: int|
        0 <= i < folders.len() && (#[trigger] folders[i]).folder.parent_id is Some implies has_folder(
        folders,
        folders[i].folder.parent_id->0,
    ) && folders[i].folder.parent_id->0 < folders[i].folder.id by {
        let wanted = folders[i].folder.parent_id->0;
        assert(shorter[i].folder.parent_id == Some(wanted));
        let from = if i < place {
            i
        } else {
            i + 1
        };
        assert(library.folders[from].folder.parent_id is Some);
        let k = choose|k: int|
            0 <= k < library.folders.len() && (#[trigger] library.folders[k]).folder.id == wanted;
        let to = if k < place {
            k
        } else {
            k - 1
        };
        assert(k != place);
        assert(shorter[to] == library.folders[k]);
        assert(folders[to].folder.id == wanted);
    }
    assert forall|i: int, j: int| 0 <= i < j < folders.len() implies (#[trigger] folders[i]).folder.id
        != (#[trigger] folders[j]).folder.id && !clash(folders[i], folders[j]) by {
        let x = if i < place {
            i
        } else {
            i + 1
        };
        let y = if j < place {
            j
        } else {
            j + 1
        };
        assert(shorter[i] == library.folders[x] && shorter[j] == library.folders[y]);
        assert(!clash(library.folders[x], library.folders[y]));
    }
    assert(forall|i: int| 0 <= i < feeds.len() ==> #[trigger] feeds[i] == freed_feed(
        library.feeds[i],
        id,
    ));
    assert forall|i: int|
        0 <= i < feeds.len() && (#[trigger] feeds[i]).feed.folder_id is Some implies has_folder(
        folders,
        feeds[i].feed.folder_id->0,
    ) by {
        let wanted = feeds[i].feed.folder_id->0;
        assert(library.feeds[i].feed.folder_id == Some(wanted));
        let k = choose|k: int|
            0 <= k < library.folders.len() && (#[trigger] library.folders[k]).folder.id == wanted;
        let to = if k < place {
            k
        } else {
            k - 1
        };
        assert(k != place);
        assert(shorter[to] == library.folders[k]);
        assert(folders[to].folder.id == wanted);
    }
    lemma_feeds_named_alike(library.articles, library.feeds, feeds);
}

/// Articles stay where they are as long as their feeds keep their ids.
pub proof fn lemma_feeds_named_alike(
    articles: Seq<ArticleRowView>,
    before: Seq<FeedRowView>,
    after: Seq<FeedRowView>,
)
    requires
        articles_wf(articles, before),
        before.len() <= after.len(),
        forall|i: int|
            0 <= i < before.len() ==> (#[trigger] after[i]).feed.stable_id
                == before[i].feed.stable_id,
    ensures
        articles_wf(articles, after),
{
    assert forall|i: int| 0 <= i < articles.len() implies has_feed(
        after,
        (#[trigger] articles[i]).feed_stable_id,
    ) by {
        let wanted = articles[i].feed_stable_id;
        assert(has_feed(before, wanted));
        let k = choose|k: int| 0 <= k < before.len() && (#[trigger] before[k]).feed.stable_id
            == wanted;
        assert(after[k].feed.stable_id == wanted);
    }
}

/// What a folder is ordered by: the folder round it, its rank, its name without
/// regard to the case of ASCII letters, its id.
pub open spec fn folder_key(row: FolderRowView) -> KeyView {
    KeyView {
        group: row.folder.parent_id,
        rank: row.folder.sort_order,
        name: lower(row.folder.name),
        id: row.folder.id,
        text_id: ""@,
    }
}

/// The folders in order.
pub open spec fn listed_folders(folders: Seq<FolderRowView>) -> Seq<FolderView> {
    let keys = Seq::new(folders.len(), |i: int| folder_key(folders[i]));
    in_key_order(keys).map_values(|i: int| folders[i].folder)
}

/// What a feed is ordered by: its name without regard to the case of ASCII
/// letters, its id.
pub open spec fn feed_key(row: FeedRowView) -> KeyView {
    KeyView {
        group: None,
        rank: 0,
        name: lower(row.feed.display_name),
        id: 0,
        text_id: row.feed.stable_id,
    }
}

/// The feeds in order.
pub open spec fn listed_feeds(feeds: Seq<FeedRowView>) -> Seq<FeedRecordView> {
    let keys = Seq::new(feeds.len(), |i: int| feed_key(feeds[i]));
    in_key_order(keys).map_values(|i: int| feeds[i].feed)
}

/// A new subscription.
pub open spec fn new_feed(
    id: Seq<char>,
    normalized_url: Seq<char>,
    fetch_url: Seq<char>,
    site_url: Option<Seq<char>>,
    name: Seq<char>,
    format: FeedFormat,
    now: i64,
) -> FeedRowView {
    FeedRowView {
        feed: FeedRecordView {
            stable_id: id,
            normalized_url,
            fetch_url,
            effective_fetch_url: None,
            site_url,
            display_name: name,
            publisher_name: name,
            custom_name: None,
            format,
            folder_id: None,
            favicon_url: None,
            feed_image_url: None,
            etag: None,
            last_modified: None,
            last_refresh_attempt_at: None,
            last_refresh_at: None,
            last_http_status: None,
            consecutive_failures: 0,
            last_refresh_status: None,
        },
        description: None,
        icon_candidates: None,
        last_refresh_error: None,
        created_at: now,
        modified_at: now,
    }
}

/// Some feed has this address in normal form.
pub open spec fn has_address(feeds: Seq<FeedRowView>, url: Seq<char>) -> bool {
    exists|i: int| 0 <= i < feeds.len() && (#[trigger] feeds[i]).feed.normalized_url == url
}

/// Why a feed cannot be taken in; nothing where it can.
pub open spec fn feed_error(library: LibraryView, row: FeedRowView) -> Option<StorageErrorView> {
    if feed_fault(row) is Some {
        feed_fault(row)
    } else if has_address(library.feeds, row.feed.normalized_url) {
        Some(StorageErrorView::Constraint("UNIQUE constraint failed: feeds.normalized_url"@))
    } else if has_feed(library.feeds, row.feed.stable_id) {
        Some(StorageErrorView::Constraint("UNIQUE constraint failed: feeds.stable_id"@))
    } else if row.feed.folder_id is Some && !has_folder(
        library.folders,
        row.feed.folder_id->0,
    ) {
        Some(StorageErrorView::Constraint("FOREIGN KEY constraint failed"@))
    } else {
        None
    }
}

/// The library with one more feed.
pub open spec fn with_feed(library: LibraryView, row: FeedRowView) -> LibraryView {
    LibraryView { feeds: library.feeds.push(row), ..library }
}

/// Taking in a feed that can be taken in keeps everything in order.
pub proof fn lemma_with_feed(library: LibraryView, row: FeedRowView)
    requires
        library.wf(),
        feed_error(library, row) is None,
    ensures
        with_feed(library, row).wf(),
{
    let feeds = library.feeds.push(row);
    assert forall|i: int, j: int| 0 <= i < j < feeds.len() implies (
    #[trigger] feeds[i]).feed.stable_id != (#[trigger] feeds[j]).feed.stable_id
        && feeds[i].feed.normalized_url != feeds[j].feed.normalized_url by {
        assert(feeds[i] == library.feeds[i]);
        if j == library.feeds.len() {
            assert(feeds[j] == row);
        } else {
            assert(feeds[j] == library.feeds[j]);
        }
    }
    lemma_feeds_named_alike(library.articles, library.feeds, feeds);
}

/// The articles that do not belong to a feed.
pub open spec fn articles_without(articles: Seq<ArticleRowView>, feed: Seq<char>) -> Seq<
    ArticleRowView,
>
    decreases articles.len(),
{
    if articles.len() == 0 {
        Seq::empty()
    } else if articles.last().feed_stable_id == feed {
        articles_without(articles.drop_last(), feed)
    } else {
        articles_without(articles.drop_last(), feed).push(articles.last())
    }
}

/// The library without the feed at a place and without its articles.
pub open spec fn without_feed(library: LibraryView, place: int) -> LibraryView {
    LibraryView {
        feeds: library.feeds.remove(place),
        articles: articles_without(library.articles, library.feeds[place].feed.stable_id),
        folders: library.folders,
    }
}

proof fn lemma_articles_without(articles: Seq<ArticleRowView>, feed: Seq<char>)
    ensures
        forall|i: int|
            0 <= i < articles_without(articles, feed).len() ==> (#[trigger] articles_without(
                articles,
                feed,
            )[i]).feed_stable_id != feed && articles.contains(articles_without(articles, feed)[i]),
    decreases articles.len(),
{
    if articles.len() > 0 {
        let shorter = articles.drop_last();
        lemma_articles_without(shorter, feed);
        let before = articles_without(shorter, feed);
        let all = articles_without(articles, feed);
        assert forall|i: int| 0 <= i < all.len() implies (#[trigger] all[i]).feed_stable_id != feed
            && articles.contains(all[i]) by {
            if i < before.len() {
                assert(all[i] == before[i]);
                let k = choose|k: int| 0 <= k < shorter.len() && shorter[k] == before[i];
                assert(articles[k] == all[i]);
            } else {
                assert(articles[articles.len() - 1] == all[i]);
            }
        }
    }
}

/// Leaving out articles of a feed keeps the rest in order.
proof fn lemma_articles_without_wf(
    articles: Seq<ArticleRowView>,
    feeds: Seq<FeedRowView>,
    feed: Seq<char>,
)
    requires
        articles_wf(articles, feeds),
    ensures
        articles_wf(articles_without(articles, feed), feeds),
    decreases articles.len(),
{
    if articles.len() > 0 {
        let shorter = articles.drop_last();
        assert(articles_wf(shorter, feeds)) by {
            assert forall|i: int| 0 <= i < shorter.len() implies #[trigger] shorter[i]
                == articles[i] by {}
        }
        lemma_articles_without_wf(shorter, feeds, feed);
        lemma_articles_without(shorter, feed);
        let before = articles_without(shorter, feed);
        let all = articles_without(articles, feed);
        let last = articles[articles.len() - 1];
        if last.feed_stable_id != feed {
            assert(all == before.push(last));
            assert forall|i: int, j: int| 0 <= i < j < all.len() implies (
            #[trigger] all[i]).stable_id != (#[trigger] all[j]).stable_id by {
                assert(all[i] == before[i]);
                if j == before.len() {
                    let k = choose|k: int| 0 <= k < shorter.len() && shorter[k] == before[i];
                    assert(articles[k] == before[i]);
                    assert(articles[k].stable_id != articles[articles.len() - 1].stable_id);
                } else {
                    assert(all[j] == before[j]);
                }
            }
        }
    }
}

proof fn lemma_without_feed(library: LibraryView, place: int)
    requires
        library.wf(),
        0 <= place < library.feeds.len(),
    ensures
        without_feed(library, place).wf(),
{
    let id = library.feeds[place].feed.stable_id;
    let feeds = library.feeds.remove(place);
    let articles = articles_without(library.articles, id);
    lemma_articles_without_wf(library.articles, library.feeds, id);
    lemma_articles_without(library.articles, id);
    assert forall|i: int| 0 <= i < feeds.len() implies #[trigger] feeds[i] == library.feeds[(if i
        < place {
        i
    } else {
        i + 1
    })] by {}
    assert forall|i: int| 0 <= i < articles.len() implies has_feed(
        feeds,
        (#[trigger] articles[i]).feed_stable_id,
    ) by {
        let wanted = articles[i].feed_stable_id;
        assert(has_feed(library.feeds, wanted));
        let k = choose|k: int|
            0 <= k < library.feeds.len() && (#[trigger] library.feeds[k]).feed.stable_id == wanted;
        let to = if k < place {
            k
        } else {
            k - 1
        };
        assert(k != place);
        assert(feeds[to].feed.stable_id == wanted);
    }
}

/// The first of two texts that is there.
pub open spec fn first_some(a: Option<Seq<char>>, b: Option<Seq<char>>) -> Option<Seq<char>> {
    match a {
        Some(text) => Some(text),
        None => b,
    }
}

/// The first of two texts that is there.
pub fn first_there(a: &Option<String>, b: &Option<String>) -> (r: Option<String>)
    ensures
        view_of(r) == first_some(view_of(*a), view_of(*b)),
{
    match a {
        Some(text) => Some(text.clone()),
        None => copied(b),
    }
}

/// A feed under a name of the reader's own, or under its publisher's.
pub open spec fn named_feed(row: FeedRowView, name: Option<Seq<char>>, now: i64) -> FeedRowView {
    FeedRowView {
        feed: FeedRecordView {
            custom_name: name,
            display_name: match name {
                Some(text) => text,
                None => row.feed.publisher_name,
            },
            ..row.feed
        },
        modified_at: now,
        ..row
    }
}

/// A feed in another folder.
pub open spec fn moved_feed(row: FeedRowView, folder: Option<i64>, now: i64) -> FeedRowView {
    FeedRowView {
        feed: FeedRecordView { folder_id: folder, ..row.feed },
        modified_at: now,
        ..row
    }
}

/// A feed with another icon.
pub open spec fn iconed_feed(row: FeedRowView, url: Seq<char>, now: i64) -> FeedRowView {
    FeedRowView {
        feed: FeedRecordView { favicon_url: Some(url), ..row.feed },
        modified_at: now,
        ..row
    }
}

/// One more failure, as far as a 32-bit number holds it.
pub open spec fn one_more(n: u32) -> u32 {
    if n == u32::MAX {
        u32::MAX
    } else {
        (n + 1) as u32
    }
}

/// A feed after a refresh. What the server gave to tell changes is kept where
/// it gives nothing new; failures in a row are counted.
pub open spec fn refreshed_feed(row: FeedRowView, note: RefreshView) -> FeedRowView {
    let success = note.failure_category is None;
    FeedRowView {
        feed: FeedRecordView {
            etag: first_some(note.etag, row.feed.etag),
            last_modified: first_some(note.last_modified, row.feed.last_modified),
            last_refresh_attempt_at: Some(note.attempted_at),
            last_refresh_at: if success {
                match note.succeeded_at {
                    Some(time) => Some(time),
                    None => Some(note.attempted_at),
                }
            } else {
                row.feed.last_refresh_at
            },
            last_http_status: note.http_status,
            consecutive_failures: if success {
                0
            } else {
                one_more(row.feed.consecutive_failures)
            },
            last_refresh_status: Some(
                if success {
                    "success"@
                } else {
                    "failure"@
                },
            ),
            effective_fetch_url: first_some(note.final_fetch_url, row.feed.effective_fetch_url),
            ..row.feed
        },
        last_refresh_error: note.failure_category,
        modified_at: note.attempted_at,
        ..row
    }
}

/// The library with another row for the feed at a place.
pub open spec fn with_row(library: LibraryView, place: int, row: FeedRowView) -> LibraryView {
    LibraryView { feeds: library.feeds.update(place, row), ..library }
}

/// Another row for a feed, under its id and address and in a folder that is
/// there, keeps everything in order.
pub proof fn lemma_with_row(library: LibraryView, place: int, row: FeedRowView)
    requires
        library.wf(),
        0 <= place < library.feeds.len(),
        is_sound_feed(row),
        row.feed.stable_id == library.feeds[place].feed.stable_id,
        row.feed.normalized_url == library.feeds[place].feed.normalized_url,
        row.feed.folder_id is Some ==> has_folder(library.folders, row.feed.folder_id->0),
    ensures
        with_row(library, place, row).wf(),
{
    let feeds = library.feeds.update(place, row);
    lemma_feeds_named_alike(library.articles, library.feeds, feeds);
}

impl Library {
    fn name_in_use(&self, place: usize, name: &str) -> (r: bool)
        requires
            place < self.folders@.len(),
        ensures
            r == name_taken(self@.folders, place as int, name@),
    {
        let ghost all = self@.folders;
        assert(all[place as int] == self.folders@[place as int]@);
        let outer = match self.folders[place].folder.parent_id {
            Some(outer) => outer,
            None => {
                return false;
            },
        };
        let mut k: usize = 0;
        while k < self.folders.len()
            invariant
                k <= self.folders@.len(),
                place < self.folders@.len(),
                all == self@.folders,
                all[place as int].folder.parent_id == Some(outer),
                forall|j: int|
                    0 <= j < k && j != place ==> !((#[trigger] all[j]).folder.parent_id == Some(
                        outer,
                    ) && lower(all[j].folder.name) == lower(name@)),
            decreases self.folders@.len() - k,
        {
            assert(all[k as int] == self.folders@[k as int]@);
            let beside = match self.folders[k].folder.parent_id {
                Some(other) => other == outer,
                None => false,
            };
            if k != place && beside && same_ignoring_case(
                self.folders[k].folder.name.as_str(),
                name,
            ) {
                return true;
            }
            k += 1;
        }
        false
    }

    /// Gives a folder another name.
    pub fn rename_folder(&mut self, id: i64, name: &str, now: i64) -> (r: Result<(), StorageError>)
        requires
            old(self)@.wf(),
        ensures
            final(self)@.wf(),
            match (name_in(name@), folder_at(old(self)@.folders, id, 0)) {
                (None, _) => storage_failure(r) == Some(
                    StorageErrorView::InvalidInput("folder name"@),
                ) && final(self)@ == old(self)@,
                (Some(_), None) => storage_failure(r) == Some(
                    StorageErrorView::NotFound("folder"@),
                ) && final(self)@ == old(self)@,
                (Some(bare), Some(i)) => if bare.len() > MAX_FOLDER_NAME {
                    storage_failure(r) == Some(
                        StorageErrorView::Constraint("CHECK constraint failed: length(name) BETWEEN 1 AND 500"@),
                    ) && final(self)@ == old(self)@
                } else if name_taken(old(self)@.folders, i, bare) {
                    storage_failure(r) == Some(
                        StorageErrorView::Constraint("UNIQUE constraint failed: folders.parent_id, folders.name"@),
                    ) && final(self)@ == old(self)@
                } else {
                    r is Ok && final(self)@ == (LibraryView {
                        folders: old(self)@.folders.update(
                            i,
                            renamed(old(self)@.folders[i], bare, now),
                        ),
                        ..old(self)@
                    })
                },
            },
    {
        let ghost before = self@;
        let bare = match checked_name(name, "folder name") {
            Ok(bare) => bare,
            Err(error) => {
                return Err(error);
            },
        };
        let i = match self.find_folder(id) {
            Some(i) => i,
            None => {
                return Err(StorageError::NotFound("folder"));
            },
        };
        if !fits(bare.as_str(), MAX_FOLDER_NAME) {
            return Err(StorageError::Constraint("CHECK constraint failed: length(name) BETWEEN 1 AND 500".to_owned()));
        }
        assert(before.folders[i as int] == self.folders@[i as int]@);
        if self.name_in_use(i, bare.as_str()) {
            return Err(StorageError::Constraint("UNIQUE constraint failed: folders.parent_id, folders.name".to_owned()));
        }
        let mut row = self.folders[i].clone();
        row.folder.name = bare;
        row.modified_at = now;
        self.folders.set(i, row);
        assert(row@ == renamed(before.folders[i as int], bare@, now));
        assert(self@.folders == before.folders.update(i as int, row@));
        proof {
            let folders = self@.folders;
            assert forall|a: int|
                0 <= a < folders.len() && (#[trigger] folders[a]).folder.parent_id is Some implies
                has_folder(folders, folders[a].folder.parent_id->0)
                && folders[a].folder.parent_id->0 < folders[a].folder.id by {
                let wanted = before.folders[a].folder.parent_id->0;
                assert(before.folders[a].folder.parent_id is Some);
                let c = choose|c: int|
                    0 <= c < before.folders.len() && (#[trigger] before.folders[c]).folder.id
                        == wanted;
                assert(folders[c].folder.id == wanted);
            }
            assert forall|a: int, c: int| 0 <= a < c < folders.len() implies (
            #[trigger] folders[a]).folder.id != (#[trigger] folders[c]).folder.id && !clash(
                folders[a],
                folders[c],
            ) by {
                assert(!clash(before.folders[a], before.folders[c]));
                assert(before.folders[a].folder.id != before.folders[c].folder.id);
            }
            assert forall|a: int|
                0 <= a < before.feeds.len() && (#[trigger] before.feeds[a]).feed.folder_id is Some
                implies has_folder(folders, before.feeds[a].feed.folder_id->0) by {
                let wanted = before.feeds[a].feed.folder_id->0;
                let c = choose|c: int|
                    0 <= c < before.folders.len() && (#[trigger] before.folders[c]).folder.id
                        == wanted;
                assert(folders[c].folder.id == wanted);
            }
        }
        Ok(())
    }

    /// Removes a folder. What lay directly in it is kept, at the top.
    pub fn delete_folder(&mut self, id: i64) -> (r: Result<(), StorageError>)
        requires
            old(self)@.wf(),
        ensures
            final(self)@.wf(),
            match folder_at(old(self)@.folders, id, 0) {
                Some(i) => r is Ok && final(self)@ == without_folder(old(self)@, i),
                None => storage_failure(r) == Some(StorageErrorView::NotFound("folder"@))
                    && final(self)@ == old(self)@,
            },
    {
        let ghost before = self@;
        let place = match self.find_folder(id) {
            Some(i) => i,
            None => {
                return Err(StorageError::NotFound("folder"));
            },
        };
        proof {
            lemma_folder_at(before.folders, id, 0);
            lemma_without_folder(before, place as int);
        }
        let mut folders: Vec<FolderRow> = Vec::new();
        let mut i: usize = 0;
        let ghost shorter = before.folders.remove(place as int);
        while i < self.folders.len()
            invariant
                i <= self.folders@.len(),
                place < self.folders@.len(),
                self@ == before,
                shorter == before.folders.remove(place as int),
                folders@.len() == if i <= place {
                    i as int
                } else {
                    i - 1
                },
                forall|j: int|
                    0 <= j < folders@.len() ==> #[trigger] folders@[j]@ == freed_folder(
                        shorter[j],
                        id,
                    ),
            decreases self.folders@.len() - i,
        {
            assert(before.folders[i as int] == self.folders@[i as int]@);
            if i != place {
                let mut row = self.folders[i].clone();
                let inside = match row.folder.parent_id {
                    Some(outer) => outer == id,
                    None => false,
                };
                if inside {
                    row.folder.parent_id = None;
                }
                assert(row@ == freed_folder(before.folders[i as int], id));
                folders.push(row);
            }
            i += 1;
        }
        let mut feeds: Vec<FeedRow> = Vec::new();
        let mut k: usize = 0;
        while k < self.feeds.len()
            invariant
                k <= self.feeds@.len(),
                self@ == before,
                feeds@.len() == k,
                forall|j: int|
                    0 <= j < k ==> #[trigger] feeds@[j]@ == freed_feed(before.feeds[j], id),
            decreases self.feeds@.len() - k,
        {
            assert(before.feeds[k as int] == self.feeds@[k as int]@);
            let mut row = self.feeds[k].clone();
            let inside = match row.feed.folder_id {
                Some(outer) => outer == id,
                None => false,
            };
            if inside {
                row.feed.folder_id = None;
            }
            assert(row@ == freed_feed(before.feeds[k as int], id));
            feeds.push(row);
            k += 1;
        }
        self.folders = folders;
        self.feeds = feeds;
        assert(self@.folders == without_folder(before, place as int).folders);
        assert(self@.feeds == without_folder(before, place as int).feeds);
        Ok(())
    }

    /// All folders: those at the top first, then folder by folder, in the order
    /// of their names.
    pub fn list_folders(&self) -> (r: Vec<FolderRecord>)
        ensures
            folder_views(r@) == listed_folders(self@.folders),
    {
        let ghost rows = self@.folders;
        let ghost wanted = Seq::new(rows.len(), |i: int| folder_key(rows[i]));
        let mut keys: Vec<SortKey> = Vec::new();
        let mut i: usize = 0;
        while i < self.folders.len()
            invariant
                i <= self.folders@.len(),
                rows == self@.folders,
                wanted == Seq::new(rows.len(), |i: int| folder_key(rows[i])),
                keys@.len() == i,
                forall|j: int| 0 <= j < i ==> #[trigger] keys@[j]@ == wanted[j],
            decreases self.folders@.len() - i,
        {
            assert(rows[i as int] == self.folders@[i as int]@);
            let key = SortKey {
                group: self.folders[i].folder.parent_id,
                rank: self.folders[i].folder.sort_order,
                name: lowered(self.folders[i].folder.name.as_str()),
                id: self.folders[i].folder.id,
                text_id: "".to_owned(),
            };
            assert(key@ == wanted[i as int]);
            keys.push(key);
            i += 1;
        }
        assert(key_views(keys@) == wanted);
        let order = sort_by_keys(&keys);
        let mut out: Vec<FolderRecord> = Vec::new();
        let mut k: usize = 0;
        while k < order.len()
            invariant
                k <= order@.len(),
                rows == self@.folders,
                forall|j: int|
                    0 <= j < order@.len() ==> #[trigger] order@[j] < self.folders@.len(),
                out@.len() == k,
                forall|j: int|
                    0 <= j < k ==> #[trigger] out@[j]@ == rows[place_list(order@)[j]].folder,
            decreases order@.len() - k,
        {
            let at = order[k];
            assert(rows[at as int] == self.folders@[at as int]@);
            out.push(self.folders[at].folder.clone());
            k += 1;
        }
        assert(folder_views(out@) == listed_folders(rows));
        out
    }

    /// All subscriptions, in the order of their names.
    pub fn list_feeds(&self) -> (r: Vec<FeedRecord>)
        ensures
            feed_record_views(r@) == listed_feeds(self@.feeds),
    {
        let ghost rows = self@.feeds;
        let ghost wanted = Seq::new(rows.len(), |i: int| feed_key(rows[i]));
        let mut keys: Vec<SortKey> = Vec::new();
        let mut i: usize = 0;
        while i < self.feeds.len()
            invariant
                i <= self.feeds@.len(),
                rows == self@.feeds,
                wanted == Seq::new(rows.len(), |i: int| feed_key(rows[i])),
                keys@.len() == i,
                forall|j: int| 0 <= j < i ==> #[trigger] keys@[j]@ == wanted[j],
            decreases self.feeds@.len() - i,
        {
            assert(rows[i as int] == self.feeds@[i as int]@);
            let key = SortKey {
                group: None,
                rank: 0,
                name: lowered(self.feeds[i].feed.display_name.as_str()),
                id: 0,
                text_id: self.feeds[i].feed.stable_id.clone(),
            };
            assert(key@ == wanted[i as int]);
            keys.push(key);
            i += 1;
        }
        assert(key_views(keys@) == wanted);
        let order = sort_by_keys(&keys);
        let mut out: Vec<FeedRecord> = Vec::new();
        let mut k: usize = 0;
        while k < order.len()
            invariant
                k <= order@.len(),
                rows == self@.feeds,
                forall|j: int|
                    0 <= j < order@.len() ==> #[trigger] order@[j] < self.feeds@.len(),
                out@.len() == k,
                forall|j: int|
                    0 <= j < k ==> #[trigger] out@[j]@ == rows[place_list(order@)[j]].feed,
            decreases order@.len() - k,
        {
            let at = order[k];
            assert(rows[at as int] == self.feeds@[at as int]@);
            out.push(self.feeds[at].feed.clone());
            k += 1;
        }
        assert(feed_record_views(out@) == listed_feeds(rows));
        out
    }

    /// The subscription with an id.
    pub fn feed(&self, stable_id: &str) -> (r: Result<FeedRecord, StorageError>)
        ensures
            match feed_at(self@.feeds, stable_id@, 0) {
                Some(i) => r is Ok && r->Ok_0@ == self@.feeds[i].feed,
                None => storage_failure(r) == Some(StorageErrorView::NotFound("feed"@)),
            },
    {
        match self.find_feed(stable_id) {
            Some(i) => {
                assert(self@.feeds[i as int] == self.feeds@[i as int]@);
                Ok(self.feeds[i].feed.clone())
            },
            None => Err(StorageError::NotFound("feed")),
        }
    }

    fn address_known(&self, url: &str) -> (r: bool)
        ensures
            r == has_address(self@.feeds, url@),
    {
        let mut i: usize = 0;
        while i < self.feeds.len()
            invariant
                i <= self.feeds@.len(),
                forall|j: int|
                    0 <= j < i ==> (#[trigger] self@.feeds[j]).feed.normalized_url != url@,
            decreases self.feeds@.len() - i,
        {
            assert(self@.feeds[i as int] == self.feeds@[i as int]@);
            if same(self.feeds[i].feed.normalized_url.as_str(), url) {
                return true;
            }
            i += 1;
        }
        false
    }

    /// Takes in a feed, unless it is there already, is too long in some part,
    /// or lies in a folder that is not there.
    pub(crate) fn insert_feed(&mut self, row: FeedRow) -> (r: Result<(), StorageError>)
        requires
            old(self)@.wf(),
        ensures
            final(self)@.wf(),
            storage_failure(r) == feed_error(old(self)@, row@),
            final(self)@ == if r is Ok {
                with_feed(old(self)@, row@)
            } else {
                old(self)@
            },
    {
        let ghost before = self@;
        proof {
            lemma_feed_at(before.feeds, row.feed.stable_id@, 0);
        }
        if let Some(error) = fault_of_feed(&row) {
            return Err(error);
        }
        if self.address_known(row.feed.normalized_url.as_str()) {
            return Err(
                StorageError::Constraint(
                    "UNIQUE constraint failed: feeds.normalized_url".to_owned(),
                ),
            );
        }
        if self.find_feed(row.feed.stable_id.as_str()).is_some() {
            return Err(
                StorageError::Constraint("UNIQUE constraint failed: feeds.stable_id".to_owned()),
            );
        }
        if let Some(id) = row.feed.folder_id {
            proof {
                lemma_folder_at(before.folders, id, 0);
            }
            if self.find_folder(id).is_none() {
                return Err(StorageError::Constraint("FOREIGN KEY constraint failed".to_owned()));
            }
            assert(has_folder(before.folders, id));
        }
        let ghost added = row@;
        proof {
            lemma_with_feed(before, added);
        }
        self.feeds.push(row);
        assert(self@.feeds == before.feeds.push(added));
        Ok(())
    }

    /// Subscribes to the feed at `feed_url` and gives its identity.
    pub fn add_subscription(
        &mut self,
        feed_url: &str,
        title: &str,
        format: FeedFormat,
        site_url: Option<&str>,
        now: i64,
    ) -> (r: Result<String, StorageError>)
        requires
            old(self)@.wf(),
        ensures
            final(self)@.wf(),
            ({
                let normal = normal_url(feed_url@);
                if !begins_like_web(normal) {
                    storage_failure(r) == Some(StorageErrorView::InvalidInput("feed URL"@))
                        && final(self)@ == old(self)@
                } else if name_in(title@) is None {
                    storage_failure(r) == Some(StorageErrorView::InvalidInput("feed title"@))
                        && final(self)@ == old(self)@
                } else {
                    let row = new_feed(
                        feed_identity(normal),
                        normal,
                        feed_url@,
                        crate::identity::borrowed(site_url),
                        name_in(title@)->0,
                        format,
                        now,
                    );
                    storage_failure(r) == feed_error(old(self)@, row) && if r is Ok {
                        r->Ok_0@ == feed_identity(normal) && final(self)@ == with_feed(
                            old(self)@,
                            row,
                        )
                    } else {
                        final(self)@ == old(self)@
                    }
                }
            }),
    {
        let normalized = normalize_url(feed_url);
        match validate_web_url(normalized.as_str()) {
            Ok(()) => {},
            Err(error) => {
                return Err(error);
            },
        }
        let stable_id = feed_id(normalized.as_str());
        let name = match checked_name(title, "feed title") {
            Ok(name) => name,
            Err(error) => {
                return Err(error);
            },
        };
        let site = match site_url {
            Some(text) => Some(text.to_owned()),
            None => None,
        };
        let row = make_feed(
            stable_id.clone(),
            normalized,
            feed_url.to_owned(),
            site,
            name,
            format,
            now,
        );
        match self.insert_feed(row) {
            Ok(()) => Ok(stable_id),
            Err(error) => Err(error),
        }
    }

    /// Ends a subscription. Its articles go with it.
    pub fn remove_subscription(&mut self, stable_id: &str) -> (r: Result<(), StorageError>)
        requires
            old(self)@.wf(),
        ensures
            final(self)@.wf(),
            match feed_at(old(self)@.feeds, stable_id@, 0) {
                Some(i) => r is Ok && final(self)@ == without_feed(old(self)@, i),
                None => storage_failure(r) == Some(StorageErrorView::NotFound("feed"@))
                    && final(self)@ == old(self)@,
            },
    {
        let ghost before = self@;
        let place = match self.find_feed(stable_id) {
            Some(i) => i,
            None => {
                return Err(StorageError::NotFound("feed"));
            },
        };
        proof {
            lemma_feed_at(before.feeds, stable_id@, 0);
            lemma_without_feed(before, place as int);
        }
        let ghost all = before.articles;
        let mut kept: Vec<ArticleRow> = Vec::new();
        let mut i: usize = 0;
        assert(article_rows(kept@) == Seq::<ArticleRowView>::empty());
        while i < self.articles.len()
            invariant
                i <= self.articles@.len(),
                all == self@.articles,
                article_rows(kept@) == articles_without(all.take(i as int), stable_id@),
            decreases self.articles@.len() - i,
        {
            assert(all.take(i + 1).drop_last() == all.take(i as int));
            assert(all.take(i + 1).last() == self.articles@[i as int]@);
            let ghost sofar = article_rows(kept@);
            if !same(self.articles[i].feed_stable_id.as_str(), stable_id) {
                let row = self.articles[i].clone();
                kept.push(row);
                assert(article_rows(kept@) == sofar.push(row@));
            }
            i += 1;
        }
        assert(all.take(i as int) == all);
        self.articles = kept;
        self.feeds.remove(place);
        assert(self@.feeds == before.feeds.remove(place as int));
        Ok(())
    }

    /// Gives a feed a name of the reader's own, or takes it back.
    pub fn set_feed_custom_name(
        &mut self,
        stable_id: &str,
        custom_name: Option<&str>,
        now: i64,
    ) -> (r: Result<(), StorageError>)
        requires
            old(self)@.wf(),
        ensures
            final(self)@.wf(),
            ({
                let name = match custom_name {
                    Some(text) => name_in(text@),
                    None => None,
                };
                if custom_name is Some && name is None {
                    storage_failure(r) == Some(StorageErrorView::InvalidInput("custom feed name"@))
                        && final(self)@ == old(self)@
                } else {
                    match feed_at(old(self)@.feeds, stable_id@, 0) {
                        Some(i) => r is Ok && final(self)@ == with_row(
                            old(self)@,
                            i,
                            named_feed(old(self)@.feeds[i], name, now),
                        ),
                        None => storage_failure(r) == Some(StorageErrorView::NotFound("feed"@))
                            && final(self)@ == old(self)@,
                    }
                }
            }),
    {
        let ghost before = self@;
        let name = match custom_name {
            Some(text) => match checked_name(text, "custom feed name") {
                Ok(name) => Some(name),
                Err(error) => {
                    return Err(error);
                },
            },
            None => None,
        };
        let i = match self.find_feed(stable_id) {
            Some(i) => i,
            None => {
                return Err(StorageError::NotFound("feed"));
            },
        };
        assert(before.feeds[i as int] == self.feeds@[i as int]@);
        let mut row = self.feeds[i].clone();
        row.feed.display_name = match &name {
            Some(text) => text.clone(),
            None => row.feed.publisher_name.clone(),
        };
        let ghost given = view_of(name);
        row.feed.custom_name = name;
        row.modified_at = now;
        assert(row@ == named_feed(before.feeds[i as int], given, now));
        proof {
            if given is Some {
                lemma_short_name(given->0);
            }
            lemma_with_row(before, i as int, row@);
        }
        self.feeds.set(i, row);
        assert(self@.feeds == before.feeds.update(i as int, row@));
        Ok(())
    }

    /// Moves a feed into a folder, or to the top.
    pub fn move_feed(&mut self, stable_id: &str, folder_id: Option<i64>, now: i64) -> (r: Result<
        (),
        StorageError,
    >)
        requires
            old(self)@.wf(),
        ensures
            final(self)@.wf(),
            match feed_at(old(self)@.feeds, stable_id@, 0) {
                Some(i) => if folder_id is Some && !has_folder(old(self)@.folders, folder_id->0) {
                    storage_failure(r) == Some(StorageErrorView::Constraint("FOREIGN KEY constraint failed"@))
                        && final(self)@ == old(self)@
                } else {
                    r is Ok && final(self)@ == with_row(
                        old(self)@,
                        i,
                        moved_feed(old(self)@.feeds[i], folder_id, now),
                    )
                },
                None => storage_failure(r) == Some(StorageErrorView::NotFound("feed"@))
                    && final(self)@ == old(self)@,
            },
    {
        let ghost before = self@;
        let i = match self.find_feed(stable_id) {
            Some(i) => i,
            None => {
                return Err(StorageError::NotFound("feed"));
            },
        };
        if let Some(id) = folder_id {
            proof {
                lemma_folder_at(before.folders, id, 0);
            }
            if self.find_folder(id).is_none() {
                return Err(StorageError::Constraint("FOREIGN KEY constraint failed".to_owned()));
            }
            assert(has_folder(before.folders, id));
        }
        assert(before.feeds[i as int] == self.feeds@[i as int]@);
        let mut row = self.feeds[i].clone();
        row.feed.folder_id = folder_id;
        row.modified_at = now;
        assert(row@ == moved_feed(before.feeds[i as int], folder_id, now));
        proof {
            lemma_with_row(before, i as int, row@);
        }
        self.feeds.set(i, row);
        assert(self@.feeds == before.feeds.update(i as int, row@));
        Ok(())
    }

    /// Gives a feed an icon.
    pub fn set_feed_favicon(&mut self, stable_id: &str, favicon_url: &str, now: i64) -> (r: Result<
        (),
        StorageError,
    >)
        requires
            old(self)@.wf(),
        ensures
            final(self)@.wf(),
            match feed_at(old(self)@.feeds, stable_id@, 0) {
                Some(i) => r is Ok && final(self)@ == with_row(
                    old(self)@,
                    i,
                    iconed_feed(old(self)@.feeds[i], favicon_url@, now),
                ),
                None => storage_failure(r) == Some(
                    StorageErrorView::Constraint("feed does not exist"@),
                ) && final(self)@ == old(self)@,
            },
    {
        let ghost before = self@;
        let i = match self.find_feed(stable_id) {
            Some(i) => i,
            None => {
                return Err(StorageError::Constraint("feed does not exist".to_owned()));
            },
        };
        assert(before.feeds[i as int] == self.feeds@[i as int]@);
        let mut row = self.feeds[i].clone();
        row.feed.favicon_url = Some(favicon_url.to_owned());
        row.modified_at = now;
        assert(row@ == iconed_feed(before.feeds[i as int], favicon_url@, now));
        proof {
            lemma_with_row(before, i as int, row@);
        }
        self.feeds.set(i, row);
        assert(self@.feeds == before.feeds.update(i as int, row@));
        Ok(())
    }

    /// Notes how a refresh of a feed went.
    pub fn record_refresh(&mut self, stable_id: &str, metadata: &RefreshMetadata) -> (r: Result<
        (),
        StorageError,
    >)
        requires
            old(self)@.wf(),
        ensures
            final(self)@.wf(),
            match feed_at(old(self)@.feeds, stable_id@, 0) {
                Some(i) => r is Ok && final(self)@ == with_row(
                    old(self)@,
                    i,
                    refreshed_feed(old(self)@.feeds[i], metadata@),
                ),
                None => storage_failure(r) == Some(StorageErrorView::NotFound("feed"@))
                    && final(self)@ == old(self)@,
            },
    {
        let ghost before = self@;
        let i = match self.find_feed(stable_id) {
            Some(i) => i,
            None => {
                return Err(StorageError::NotFound("feed"));
            },
        };
        assert(before.feeds[i as int] == self.feeds@[i as int]@);
        let row = refresh_row(&self.feeds[i], metadata);
        proof {
            lemma_with_row(before, i as int, row@);
        }
        self.feeds.set(i, row);
        assert(self@.feeds == before.feeds.update(i as int, row@));
        Ok(())
    }

    /// How much the library holds.
    pub fn stats(&self) -> (r: LibraryStats)
        requires
            self@.folders.len() <= i64::MAX,
            self@.feeds.len() <= i64::MAX,
            self@.articles.len() <= i64::MAX,
        ensures
            r.feeds == self@.feeds.len(),
            r.folders == self@.folders.len(),
            r.articles == self@.articles.len(),
            r.unread == unread_among(self@.articles),
            r.starred == starred_among(self@.articles),
    {
        let ghost all = self@.articles;
        let mut unread: i64 = 0;
        let mut starred: i64 = 0;
        let mut i: usize = 0;
        while i < self.articles.len()
            invariant
                i <= self.articles@.len() <= i64::MAX,
                all == self@.articles,
                unread == unread_among(all.take(i as int)) <= i,
                starred == starred_among(all.take(i as int)) <= i,
            decreases self.articles@.len() - i,
        {
            assert(all.take(i + 1).drop_last() == all.take(i as int));
            assert(all.take(i + 1).last() == self.articles@[i as int]@);
            if !self.articles[i].is_read {
                unread = unread + 1;
            }
            if self.articles[i].is_starred {
                starred = starred + 1;
            }
            i += 1;
        }
        assert(all.take(i as int) == all);
        LibraryStats {
            feeds: self.feeds.len() as i64,
            folders: self.folders.len() as i64,
            articles: self.articles.len() as i64,
            unread,
            starred,
        }
    }
}

/// How many articles of a list are unread.
pub open spec fn unread_among(articles: Seq<ArticleRowView>) -> nat
    decreases articles.len(),
{
    if articles.len() == 0 {
        0
    } else {
        unread_among(articles.drop_last()) + if articles.last().is_read {
            0nat
        } else {
            1nat
        }
    }
}

/// How many articles of a list are starred.
pub open spec fn starred_among(articles: Seq<ArticleRowView>) -> nat
    decreases articles.len(),
{
    if articles.len() == 0 {
        0
    } else {
        starred_among(articles.drop_last()) + if articles.last().is_starred {
            1nat
        } else {
            0nat
        }
    }
}

/// A text has no more characters than bytes, so that a checked name fits.
pub proof fn lemma_short_name(name: Seq<char>)
    requires
        name.len() > 0,
        byte_len(name) <= 1000,
    ensures
        1 <= name.len() <= MAX_FEED_NAME,
{
    lemma_bytes_at_least(name);
}

proof fn lemma_bytes_at_least(s: Seq<char>)
    ensures
        s.len() <= byte_len(s),
    decreases s.len(),
{
    if s.len() > 0 {
        vstd::utf8::encode_utf8_first_scalar(s);
        lemma_bytes_at_least(s.drop_first());
    }
}

pub(crate) fn make_feed(
    stable_id: String,
    normalized_url: String,
    fetch_url: String,
    site_url: Option<String>,
    name: String,
    format: FeedFormat,
    now: i64,
) -> (r: FeedRow)
    ensures
        r@ == new_feed(
            stable_id@,
            normalized_url@,
            fetch_url@,
            view_of(site_url),
            name@,
            format,
            now,
        ),
{
    FeedRow {
        feed: FeedRecord {
            stable_id,
            normalized_url,
            fetch_url,
            effective_fetch_url: None,
            site_url,
            display_name: name.clone(),
            publisher_name: name,
            custom_name: None,
            format,
            folder_id: None,
            favicon_url: None,
            feed_image_url: None,
            etag: None,
            last_modified: None,
            last_refresh_attempt_at: None,
            last_refresh_at: None,
            last_http_status: None,
            consecutive_failures: 0,
            last_refresh_status: None,
        },
        description: None,
        icon_candidates: None,
        last_refresh_error: None,
        created_at: now,
        modified_at: now,
    }
}

fn refresh_row(row: &FeedRow, note: &RefreshMetadata) -> (r: FeedRow)
    ensures
        r@ == refreshed_feed(row@, note@),
{
    let success = note.failure_category.is_none();
    let mut out = row.clone();
    out.feed.etag = first_there(&note.etag, &row.feed.etag);
    out.feed.last_modified = first_there(&note.last_modified, &row.feed.last_modified);
    out.feed.last_refresh_attempt_at = Some(note.attempted_at);
    if success {
        out.feed.last_refresh_at = match note.succeeded_at {
            Some(time) => Some(time),
            None => Some(note.attempted_at),
        };
        out.feed.consecutive_failures = 0;
        out.feed.last_refresh_status = Some("success".to_owned());
    } else {
        out.feed.consecutive_failures = row.feed.consecutive_failures.saturating_add(1);
        out.feed.last_refresh_status = Some("failure".to_owned());
    }
    out.feed.last_http_status = note.http_status;
    out.feed.effective_fetch_url = first_there(
        &note.final_fetch_url,
        &row.feed.effective_fetch_url,
    );
    out.last_refresh_error = copied(&note.failure_category);
    out.modified_at = note.attempted_at;
    out
}

} // verus!
