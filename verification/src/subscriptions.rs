//! Subscription lists into a library, and out of it.

use crate::identity::{feed_id, feed_identity, normal_url, normalize_url};
use crate::library::{
    feed_at, feed_error, first_some, first_there, fits, folder_at, folders_wf, has_feed, has_folder,
    lemma_feed_at, lemma_more_folders, lemma_with_feed, lemma_with_folder, lemma_with_row,
    listed_feeds, make_feed, new_feed, sibling, with_feed, with_folder, with_row, Library,
    LibraryView, MAX_FEED_URL,
};
use crate::opml::{
    export, exported, feed_views, import, imported, OpmlFeed, OpmlFeedView, OpmlLibrary,
    OpmlLibraryView,
};
use crate::parser::copied;
use crate::records::{
    feed_record_views, feed_rows, folder_rows, storage_failure, FeedRecordView, FeedRowView,
    FolderRow, FolderRowView, ImportStats, StorageError, StorageErrorView,
};
use crate::text::{same, views};
use vstd::prelude::*;

verus! {

/// Folders with a way through them.
pub struct Way {
    pub folders: Seq<FolderRowView>,
    /// The innermost folder of the way.
    pub inner: Option<i64>,
    /// How many folders were made for it.
    pub made: nat,
}

/// The folders with a way of folders with these names, from the top.
pub open spec fn with_way(folders: Seq<FolderRowView>, names: Seq<Seq<char>>, now: i64) -> Result<
    Way,
    StorageErrorView,
>
    decreases names.len(),
{
    if names.len() == 0 {
        Ok(Way { folders, inner: None, made: 0 })
    } else {
        match with_way(folders, names.drop_last(), now) {
            Err(error) => Err(error),
            Ok(way) => match with_folder(way.folders, names.last(), way.inner, now) {
                Err(error) => Err(error),
                Ok((after, place)) => Ok(
                    Way {
                        folders: after,
                        inner: Some(after[place].folder.id),
                        made: way.made + if sibling(
                            way.folders,
                            way.inner,
                            names.last(),
                            0,
                        ) is None {
                            1nat
                        } else {
                            0nat
                        },
                    },
                ),
            },
        }
    }
}

/// A subscription of a list as it is kept.
pub open spec fn listed_feed(feed: OpmlFeedView, folder: Option<i64>, now: i64) -> FeedRowView {
    let row = new_feed(
        feed_identity(feed.feed_url),
        normal_url(feed.feed_url),
        feed.feed_url,
        feed.site_url,
        feed.title,
        feed.format,
        now,
    );
    FeedRowView {
        feed: FeedRecordView {
            display_name: match feed.custom_title {
                Some(own) => own,
                None => feed.title,
            },
            custom_name: feed.custom_title,
            folder_id: folder,
            ..row.feed
        },
        ..row
    }
}

/// A subscription that a list names again.
pub open spec fn relisted_feed(
    row: FeedRowView,
    feed: OpmlFeedView,
    folder: Option<i64>,
    now: i64,
) -> FeedRowView {
    FeedRowView {
        feed: FeedRecordView {
            folder_id: match folder {
                Some(id) => Some(id),
                None => row.feed.folder_id,
            },
            site_url: first_some(feed.site_url, row.feed.site_url),
            fetch_url: feed.feed_url,
            ..row.feed
        },
        modified_at: now,
        ..row
    }
}

/// A library while a list is taken in, and what was done so far.
pub struct Intake {
    pub library: LibraryView,
    pub added: nat,
    pub known: nat,
    pub folders_made: nat,
}

/// One more subscription of a list taken in.
pub open spec fn with_listed(state: Intake, feed: OpmlFeedView, now: i64) -> Result<
    Intake,
    StorageErrorView,
> {
    match with_way(state.library.folders, feed.folders, now) {
        Err(error) => Err(error),
        Ok(way) => {
            let library = LibraryView { folders: way.folders, ..state.library };
            let made = state.folders_made + way.made;
            match feed_at(library.feeds, feed_identity(feed.feed_url), 0) {
                Some(i) => if !(1 <= feed.feed_url.len() <= MAX_FEED_URL) {
                    Err(StorageErrorView::Constraint("CHECK constraint failed: length(fetch_url) BETWEEN 1 AND 4096"@))
                } else {
                    Ok(
                        Intake {
                            library: with_row(
                                library,
                                i,
                                relisted_feed(library.feeds[i], feed, way.inner, now),
                            ),
                            added: state.added,
                            known: state.known + 1,
                            folders_made: made,
                        },
                    )
                },
                None => match feed_error(library, listed_feed(feed, way.inner, now)) {
                    Some(error) => Err(error),
                    None => Ok(
                        Intake {
                            library: with_feed(library, listed_feed(feed, way.inner, now)),
                            added: state.added + 1,
                            known: state.known,
                            folders_made: made,
                        },
                    ),
                },
            }
        },
    }
}

/// The subscriptions of a list taken in, one after the other.
pub open spec fn with_list(library: LibraryView, feeds: Seq<OpmlFeedView>, now: i64) -> Result<
    Intake,
    StorageErrorView,
>
    decreases feeds.len(),
{
    if feeds.len() == 0 {
        Ok(Intake { library, added: 0, known: 0, folders_made: 0 })
    } else {
        match with_list(library, feeds.drop_last(), now) {
            Err(error) => Err(error),
            Ok(state) => with_listed(state, feeds.last(), now),
        }
    }
}

/// What taking in a subscription list makes of a library; or why it is refused.
pub open spec fn list_taken_in(library: LibraryView, input: Seq<char>, now: i64) -> Result<
    (Intake, nat),
    StorageErrorView,
> {
    match imported(input) {
        Err(error) => Err(StorageErrorView::ImportExport(error.message())),
        Ok(list) => match with_list(library, list.feeds, now) {
            Err(error) => Err(error),
            Ok(state) => Ok((state, list.failures.len())),
        },
    }
}

pub proof fn lemma_with_way(folders: Seq<FolderRowView>, names: Seq<Seq<char>>, now: i64)
    requires
        folders_wf(folders),
    ensures
        match with_way(folders, names, now) {
            Ok(way) => {
                &&& folders_wf(way.folders)
                &&& folders.len() <= way.folders.len()
                &&& way.folders.take(folders.len() as int) == folders
                &&& way.inner is Some ==> has_folder(way.folders, way.inner->0)
                &&& way.made <= names.len()
            },
            Err(_) => true,
        },
    decreases names.len(),
{
    if names.len() == 0 {
        assert(folders.take(folders.len() as int) == folders);
    } else {
        lemma_with_way(folders, names.drop_last(), now);
        match with_way(folders, names.drop_last(), now) {
            Ok(way) => {
                lemma_with_folder(way.folders, names.last(), way.inner, now);
                match with_folder(way.folders, names.last(), way.inner, now) {
                    Ok((after, place)) => {
                        assert(after.take(folders.len() as int) == after.take(
                            way.folders.len() as int,
                        ).take(folders.len() as int));
                        assert(after[place].folder.id == after[place].folder.id);
                    },
                    Err(_) => {},
                }
            },
            Err(_) => {},
        }
    }
}

pub proof fn lemma_with_listed(state: Intake, feed: OpmlFeedView, now: i64)
    requires
        state.library.wf(),
    ensures
        match with_listed(state, feed, now) {
            Ok(after) => {
                &&& after.library.wf()
                &&& after.library.articles == state.library.articles
                &&& state.library.folders.len() <= after.library.folders.len()
                &&& after.library.folders.take(state.library.folders.len() as int)
                    == state.library.folders
                &&& has_feed(after.library.feeds, feed_identity(feed.feed_url))
                &&& state.library.feeds.len() <= after.library.feeds.len()
                &&& forall|i: int|
                    0 <= i < state.library.feeds.len() ==> (
                    #[trigger] after.library.feeds[i]).feed.stable_id
                        == state.library.feeds[i].feed.stable_id
            },
            Err(_) => true,
        },
{
    lemma_with_way(state.library.folders, feed.folders, now);
    match with_way(state.library.folders, feed.folders, now) {
        Ok(way) => {
            let library = LibraryView { folders: way.folders, ..state.library };
            lemma_more_folders(library.feeds, state.library.folders, way.folders);
            assert(library.wf());
            let id = feed_identity(feed.feed_url);
            lemma_feed_at(library.feeds, id, 0);
            match feed_at(library.feeds, id, 0) {
                Some(i) => {
                    if 1 <= feed.feed_url.len() <= MAX_FEED_URL {
                        let row = relisted_feed(library.feeds[i], feed, way.inner, now);
                        lemma_with_row(library, i, row);
                        assert(with_row(library, i, row).feeds[i].feed.stable_id == id);
                    }
                },
                None => {
                    let row = listed_feed(feed, way.inner, now);
                    if feed_error(library, row) is None {
                        lemma_with_feed(library, row);
                        assert(with_feed(library, row).feeds[library.feeds.len() as int]
                            .feed.stable_id == id);
                    }
                },
            }
        },
        Err(_) => {},
    }
}

impl Library {
    fn ensure_way(&mut self, names: &Vec<String>, now: i64) -> (r: Result<
        (Option<i64>, usize),
        StorageError,
    >)
        requires
            old(self)@.wf(),
        ensures
            final(self)@.wf(),
            final(self)@.feeds == old(self)@.feeds,
            final(self)@.articles == old(self)@.articles,
            match with_way(old(self)@.folders, views(names@), now) {
                Ok(way) => r is Ok && final(self)@.folders == way.folders && (r->Ok_0).0
                    == way.inner && (r->Ok_0).1 == way.made,
                Err(error) => storage_failure(r) == Some(error),
            },
    {
        let ghost before = self@;
        let ghost all = views(names@);
        let mut inner: Option<i64> = None;
        let mut made: usize = 0;
        let mut i: usize = 0;
        while i < names.len()
            invariant
                i <= names@.len(),
                all == views(names@),
                before == old(self)@,
                self@.wf(),
                self@.feeds == before.feeds,
                self@.articles == before.articles,
                made <= i,
                with_way(before.folders, all.take(i as int), now) == Ok::<_, StorageErrorView>(
                    Way { folders: self@.folders, inner, made: made as nat },
                ),
            decreases names@.len() - i,
        {
            assert(all.take(i + 1).drop_last() == all.take(i as int));
            assert(all.take(i + 1).last() == names@[i as int]@);
            let ghost sofar = self@.folders;
            let known = self.knows_sibling(inner, names[i].as_str());
            match self.ensure_folder(names[i].as_str(), inner, now) {
                Ok(folder) => {
                    if !known {
                        made += 1;
                    }
                    inner = Some(folder.id);
                },
                Err(error) => {
                    proof {
                        lemma_way_fails(before.folders, all, i + 1, now);
                    }
                    return Err(error);
                },
            }
            i += 1;
        }
        assert(all.take(i as int) == all);
        Ok((inner, made))
    }

    fn knows_sibling(&self, parent: Option<i64>, name: &str) -> (r: bool)
        ensures
            r == (sibling(self@.folders, parent, name@, 0) is Some),
    {
        self.find_sibling(parent, name).is_some()
    }

    fn keep_folders(&self) -> (r: Vec<FolderRow>)
        ensures
            folder_rows(r@) == self@.folders,
    {
        let mut out: Vec<FolderRow> = Vec::new();
        let mut i: usize = 0;
        while i < self.folders.len()
            invariant
                i <= self.folders@.len(),
                out@.len() == i,
                forall|j: int| 0 <= j < i ==> #[trigger] out@[j]@ == self.folders@[j]@,
            decreases self.folders@.len() - i,
        {
            out.push(self.folders[i].clone());
            i += 1;
        }
        assert(folder_rows(out@) == self@.folders);
        out
    }

    fn take_in_listed(&mut self, feed: &OpmlFeed, now: i64) -> (r: Result<
        (bool, usize),
        StorageError,
    >)
        requires
            old(self)@.wf(),
        ensures
            r is Ok ==> final(self)@.wf(),
            final(self)@.articles == old(self)@.articles,
            match with_listed(
                (Intake { library: old(self)@, added: 0, known: 0, folders_made: 0 }),
                feed@,
                now,
            ) {
                Ok(after) => r is Ok && final(self)@ == after.library && after.added
                    + after.known == 1 && (r->Ok_0).0 == (after.added == 1) && (r->Ok_0).1
                    == after.folders_made && after.folders_made <= feed@.folders.len(),
                Err(error) => storage_failure(r) == Some(error),
            },
    {
        let ghost start = self@;
        proof {
            lemma_with_listed(
                Intake { library: start, added: 0, known: 0, folders_made: 0 },
                feed@,
                now,
            );
            lemma_with_way(start.folders, feed@.folders, now);
        }
        let (inner, made) = match self.ensure_way(&feed.folders, now) {
            Ok(found) => found,
            Err(error) => {
                return Err(error);
            },
        };
        let ghost before = self@;
        let id = feed_id(feed.feed_url.as_str());
        match self.find_feed(id.as_str()) {
            Some(i) => {
                if !fits(feed.feed_url.as_str(), MAX_FEED_URL) {
                    return Err(
                        StorageError::Constraint("CHECK constraint failed: length(fetch_url) BETWEEN 1 AND 4096".to_owned()),
                    );
                }
                assert(before.feeds[i as int] == self.feeds@[i as int]@);
                let mut row = self.feeds[i].clone();
                if inner.is_some() {
                    row.feed.folder_id = inner;
                }
                row.feed.site_url = first_there(&feed.site_url, &self.feeds[i].feed.site_url);
                row.feed.fetch_url = feed.feed_url.clone();
                row.modified_at = now;
                assert(row@ == relisted_feed(before.feeds[i as int], feed@, inner, now));
                self.feeds.set(i, row);
                assert(self@.feeds == before.feeds.update(i as int, row@));
                Ok((false, made))
            },
            None => {
                let mut row = make_feed(
                    id,
                    normalize_url(feed.feed_url.as_str()),
                    feed.feed_url.clone(),
                    copied(&feed.site_url),
                    feed.title.clone(),
                    feed.format,
                    now,
                );
                row.feed.display_name = match &feed.custom_title {
                    Some(own) => own.clone(),
                    None => feed.title.clone(),
                };
                row.feed.custom_name = copied(&feed.custom_title);
                row.feed.folder_id = inner;
                assert(row@ == listed_feed(feed@, inner, now));
                match self.insert_feed(row) {
                    Ok(()) => Ok((true, made)),
                    Err(error) => Err(error),
                }
            },
        }
    }

    /// Takes in the subscriptions of a list. Where one of them is refused
    /// nothing changes. The number of folders named in the list is a machine
    /// number.
    pub fn take_in_list(&mut self, list: &OpmlLibrary, now: i64) -> (r: Result<
        ImportStats,
        StorageError,
    >)
        requires
            old(self)@.wf(),
            folder_total(list@.feeds) <= usize::MAX,
        ensures
            final(self)@.wf(),
            match with_list(old(self)@, list@.feeds, now) {
                Ok(state) => r is Ok && final(self)@ == state.library && r->Ok_0.feeds_added
                    == state.added && r->Ok_0.duplicates == state.known
                    && r->Ok_0.folders_created == state.folders_made && r->Ok_0.failed_entries
                    == list@.failures.len(),
                Err(error) => storage_failure(r) == Some(error) && final(self)@ == old(self)@,
            },
    {
        let ghost before = self@;
        let ghost all = list@.feeds;
        let folders = self.keep_folders();
        let feeds = self.keep_feeds();
        let mut added: usize = 0;
        let mut known: usize = 0;
        let mut made: usize = 0;
        let mut i: usize = 0;
        while i < list.feeds.len()
            invariant
                i <= list.feeds@.len(),
                all == feed_views(list.feeds@),
                folder_total(all) <= usize::MAX,
                before == old(self)@,
                before.wf(),
                folder_rows(folders@) == before.folders,
                feed_rows(feeds@) == before.feeds,
                self@.wf(),
                self@.articles == before.articles,
                added + known == i,
                made <= folder_total(all.take(i as int)),
                with_list(before, all.take(i as int), now) == Ok::<_, StorageErrorView>(
                    Intake {
                        library: self@,
                        added: added as nat,
                        known: known as nat,
                        folders_made: made as nat,
                    },
                ),
            decreases list.feeds@.len() - i,
        {
            assert(all.take(i + 1).drop_last() == all.take(i as int));
            assert(all.take(i + 1).last() == list.feeds@[i as int]@);
            proof {
                lemma_folder_total(all, i + 1);
            }
            match self.take_in_listed(&list.feeds[i], now) {
                Ok((new, count)) => {
                    if new {
                        added += 1;
                    } else {
                        known += 1;
                    }
                    made += count;
                },
                Err(error) => {
                    self.folders = folders;
                    self.feeds = feeds;
                    proof {
                        lemma_list_fails(before, all, i + 1, now);
                    }
                    return Err(error);
                },
            }
            i += 1;
        }
        assert(all.take(i as int) == all);
        assert(views(list.failures@).len() == list.failures@.len());
        Ok(
            ImportStats {
                feeds_added: added,
                duplicates: known,
                folders_created: made,
                failed_entries: list.failures.len(),
            },
        )
    }
}

/// How many folders the subscriptions of a list name, one by one.
pub open spec fn folder_total(feeds: Seq<OpmlFeedView>) -> nat
    decreases feeds.len(),
{
    if feeds.len() == 0 {
        0
    } else {
        folder_total(feeds.drop_last()) + feeds.last().folders.len()
    }
}

proof fn lemma_folder_total(feeds: Seq<OpmlFeedView>, i: int)
    requires
        0 <= i <= feeds.len(),
    ensures
        folder_total(feeds.take(i)) <= folder_total(feeds),
    decreases feeds.len() - i,
{
    if i < feeds.len() {
        assert(feeds.take(i + 1).drop_last() == feeds.take(i));
        lemma_folder_total(feeds, i + 1);
    } else {
        assert(feeds.take(i) == feeds);
    }
}

/// A way whose beginning is refused is refused.
proof fn lemma_way_fails(folders: Seq<FolderRowView>, names: Seq<Seq<char>>, i: int, now: i64)
    requires
        0 <= i <= names.len(),
        with_way(folders, names.take(i), now) is Err,
    ensures
        with_way(folders, names, now) == with_way(folders, names.take(i), now),
    decreases names.len() - i,
{
    if i < names.len() {
        assert(names.take(i + 1).drop_last() == names.take(i));
        lemma_way_fails(folders, names, i + 1, now);
    } else {
        assert(names.take(i) == names);
    }
}

/// A list whose beginning is refused is refused.
proof fn lemma_list_fails(library: LibraryView, feeds: Seq<OpmlFeedView>, i: int, now: i64)
    requires
        0 <= i <= feeds.len(),
        with_list(library, feeds.take(i), now) is Err,
    ensures
        with_list(library, feeds, now) == with_list(library, feeds.take(i), now),
    decreases feeds.len() - i,
{
    if i < feeds.len() {
        assert(feeds.take(i + 1).drop_last() == feeds.take(i));
        lemma_list_fails(library, feeds, i + 1, now);
    } else {
        assert(feeds.take(i) == feeds);
    }
}

proof fn lemma_total_within(feeds: Seq<OpmlFeedView>)
    requires
        forall|i: int|
            0 <= i < feeds.len() ==> (#[trigger] feeds[i]).folders.len()
                <= crate::opml::MAX_FOLDER_DEPTH,
    ensures
        folder_total(feeds) <= 32 * feeds.len(),
    decreases feeds.len(),
{
    if feeds.len() > 0 {
        let shorter = feeds.drop_last();
        assert forall|i: int| 0 <= i < shorter.len() implies (#[trigger] shorter[i]).folders.len()
            <= crate::opml::MAX_FOLDER_DEPTH by {
            assert(shorter[i] == feeds[i]);
        }
        lemma_total_within(shorter);
        assert(feeds[feeds.len() - 1].folders.len() <= 32);
    }
}

/// The names of the folders round something in the folder `inner`, from the
/// top; at most `left` of them.
pub open spec fn way_to(folders: Seq<FolderRowView>, inner: Option<i64>, left: nat) -> Result<
    Seq<Seq<char>>,
    StorageErrorView,
>
    decreases left,
{
    match inner {
        None => Ok(Seq::empty()),
        Some(id) => if left == 0 {
            Err(StorageErrorView::Corruption("folder cycle"@))
        } else {
            match folder_at(folders, id, 0) {
                None => Err(StorageErrorView::Corruption("orphan folder"@)),
                Some(i) => match way_to(
                    folders,
                    folders[i].folder.parent_id,
                    (left - 1) as nat,
                ) {
                    Ok(outer) => Ok(outer.push(folders[i].folder.name)),
                    Err(error) => Err(error),
                },
            }
        },
    }
}

/// A subscription as it stands in a list.
pub open spec fn listing(feed: FeedRecordView, folders: Seq<Seq<char>>) -> OpmlFeedView {
    OpmlFeedView {
        title: feed.display_name,
        feed_url: feed.fetch_url,
        site_url: feed.site_url,
        folders,
        format: feed.format,
        custom_title: feed.custom_name,
    }
}

/// The subscriptions of a list with the ways to them.
pub open spec fn listings(folders: Seq<FolderRowView>, feeds: Seq<FeedRecordView>) -> Result<
    Seq<OpmlFeedView>,
    StorageErrorView,
>
    decreases feeds.len(),
{
    if feeds.len() == 0 {
        Ok(Seq::empty())
    } else {
        match listings(folders, feeds.drop_last()) {
            Err(error) => Err(error),
            Ok(before) => match way_to(folders, feeds.last().folder_id, 32) {
                Err(error) => Err(error),
                Ok(way) => Ok(before.push(listing(feeds.last(), way))),
            },
        }
    }
}

/// The subscription list of a library.
pub open spec fn list_of(library: LibraryView) -> Result<OpmlLibraryView, StorageErrorView> {
    match listings(library.folders, listed_feeds(library.feeds)) {
        Ok(feeds) => Ok(OpmlLibraryView { feeds, failures: Seq::empty() }),
        Err(error) => Err(error),
    }
}

proof fn lemma_listings_fail(folders: Seq<FolderRowView>, feeds: Seq<FeedRecordView>, i: int)
    requires
        0 <= i <= feeds.len(),
        listings(folders, feeds.take(i)) is Err,
    ensures
        listings(folders, feeds) == listings(folders, feeds.take(i)),
    decreases feeds.len() - i,
{
    if i < feeds.len() {
        assert(feeds.take(i + 1).drop_last() == feeds.take(i));
        lemma_listings_fail(folders, feeds, i + 1);
    } else {
        assert(feeds.take(i) == feeds);
    }
}

impl Library {
    fn find_way(&self, inner: Option<i64>, left: usize) -> (r: Result<Vec<String>, StorageError>)
        ensures
            match way_to(self@.folders, inner, left as nat) {
                Ok(way) => r is Ok && views(r->Ok_0@) == way,
                Err(error) => storage_failure(r) == Some(error),
            },
        decreases left,
    {
        match inner {
            None => {
                let none: Vec<String> = Vec::new();
                assert(views(none@) == Seq::<Seq<char>>::empty());
                Ok(none)
            },
            Some(id) => {
                if left == 0 {
                    return Err(StorageError::Corruption("folder cycle".to_owned()));
                }
                match self.find_folder(id) {
                    None => Err(StorageError::Corruption("orphan folder".to_owned())),
                    Some(i) => {
                        assert(self@.folders[i as int] == self.folders@[i as int]@);
                        match self.find_way(self.folders[i].folder.parent_id, left - 1) {
                            Ok(mut way) => {
                                let ghost outer = views(way@);
                                way.push(self.folders[i].folder.name.clone());
                                assert(views(way@) == outer.push(
                                    self@.folders[i as int].folder.name,
                                ));
                                Ok(way)
                            },
                            Err(error) => Err(error),
                        }
                    },
                }
            },
        }
    }

    /// The subscription list of the library.
    pub fn subscription_list(&self) -> (r: Result<OpmlLibrary, StorageError>)
        ensures
            match list_of(self@) {
                Ok(list) => r is Ok && r->Ok_0@ == list,
                Err(error) => storage_failure(r) == Some(error),
            },
    {
        let records = self.list_feeds();
        let ghost all = feed_record_views(records@);
        let mut feeds: Vec<OpmlFeed> = Vec::new();
        let mut i: usize = 0;
        assert(feed_views(feeds@) == Seq::<OpmlFeedView>::empty());
        while i < records.len()
            invariant
                i <= records@.len(),
                all == feed_record_views(records@),
                all == listed_feeds(self@.feeds),
                listings(self@.folders, all.take(i as int)) == Ok::<_, StorageErrorView>(
                    feed_views(feeds@),
                ),
            decreases records@.len() - i,
        {
            assert(all.take(i + 1).drop_last() == all.take(i as int));
            assert(all.take(i + 1).last() == records@[i as int]@);
            let ghost sofar = feed_views(feeds@);
            match self.find_way(records[i].folder_id, 32) {
                Ok(way) => {
                    let record = &records[i];
                    let feed = OpmlFeed {
                        title: record.display_name.clone(),
                        feed_url: record.fetch_url.clone(),
                        site_url: copied(&record.site_url),
                        folders: way,
                        format: record.format,
                        custom_title: copied(&record.custom_name),
                    };
                    feeds.push(feed);
                    assert(feed_views(feeds@) == sofar.push(feed@));
                },
                Err(error) => {
                    proof {
                        lemma_listings_fail(self@.folders, all, i + 1);
                    }
                    return Err(error);
                },
            }
            i += 1;
        }
        assert(all.take(i as int) == all);
        let failures: Vec<String> = Vec::new();
        assert(views(failures@) == Seq::<Seq<char>>::empty());
        Ok(OpmlLibrary { feeds, failures })
    }

    /// The subscription list of the library in writing, dated
    /// `created_rfc2822`.
    pub fn export_opml(&self, created_rfc2822: &str) -> (r: Result<String, StorageError>)
        ensures
            match list_of(self@) {
                Ok(list) => r is Ok && r->Ok_0@ == exported(list, created_rfc2822@),
                Err(error) => storage_failure(r) == Some(error),
            },
    {
        match self.subscription_list() {
            Ok(list) => Ok(export(&list, created_rfc2822)),
            Err(error) => Err(error),
        }
    }

    /// Takes in the subscription list `input`. Where something in it is refused
    /// nothing changes.
    pub fn import_opml(&mut self, input: &str, now: i64) -> (r: Result<ImportStats, StorageError>)
        requires
            old(self)@.wf(),
        ensures
            final(self)@.wf(),
            match list_taken_in(old(self)@, input@, now) {
                Ok((state, failed)) => r is Ok && final(self)@ == state.library
                    && r->Ok_0.feeds_added == state.added && r->Ok_0.duplicates == state.known
                    && r->Ok_0.folders_created == state.folders_made && r->Ok_0.failed_entries
                    == failed,
                Err(error) => storage_failure(r) == Some(error) && final(self)@ == old(self)@,
            },
    {
        let list = match import(input) {
            Ok(list) => list,
            Err(error) => {
                return Err(StorageError::ImportExport(error.message()));
            },
        };
        proof {
            crate::opml::law_import_respects_limits(
                crate::xml::rows_of(crate::xml::parsed_xml(input@)->0),
            );
            lemma_total_within(list@.feeds);
        }
        self.take_in_list(&list, now)
    }
}

/// Folders that are there already are found at the same place among more.
proof fn lemma_sibling_stays(
    before: Seq<FolderRowView>,
    after: Seq<FolderRowView>,
    parent: Option<i64>,
    name: Seq<char>,
    i: int,
)
    requires
        0 <= i,
        before.len() <= after.len(),
        after.take(before.len() as int) == before,
        sibling(before, parent, name, i) is Some,
    ensures
        sibling(after, parent, name, i) == sibling(before, parent, name, i),
    decreases before.len() - i,
{
    assert(i < before.len());
    assert(after.take(before.len() as int)[i] == after[i]);
    if !(before[i].folder.parent_id == parent && crate::text::lower(before[i].folder.name)
        == crate::text::lower(name)) {
        lemma_sibling_stays(before, after, parent, name, i + 1);
    }
}

/// The folder that was taken in last is found behind all that do not fit.
proof fn lemma_sibling_new(
    folders: Seq<FolderRowView>,
    row: FolderRowView,
    parent: Option<i64>,
    name: Seq<char>,
    i: int,
)
    requires
        0 <= i <= folders.len(),
        sibling(folders, parent, name, i) is None,
        row.folder.parent_id == parent,
        row.folder.name == name,
    ensures
        sibling(folders.push(row), parent, name, i) == Some(folders.len() as int),
    decreases folders.len() - i,
{
    let after = folders.push(row);
    if i < folders.len() {
        assert(after[i] == folders[i]);
        lemma_sibling_new(folders, row, parent, name, i + 1);
    } else {
        assert(after[i] == row);
    }
}

/// A way that was made is found again, among more folders too, and nothing is
/// made for it.
proof fn lemma_way_again(
    folders: Seq<FolderRowView>,
    names: Seq<Seq<char>>,
    now: i64,
    later: Seq<FolderRowView>,
    then: i64,
)
    requires
        with_way(folders, names, now) is Ok,
        with_way(folders, names, now)->Ok_0.folders.len() <= later.len(),
        later.take(with_way(folders, names, now)->Ok_0.folders.len() as int) == with_way(
            folders,
            names,
            now,
        )->Ok_0.folders,
        folders_wf(folders),
    ensures
        with_way(later, names, then) == Ok::<_, StorageErrorView>(
            (Way { folders: later, inner: with_way(folders, names, now)->Ok_0.inner, made: 0 }),
        ),
    decreases names.len(),
{
    if names.len() > 0 {
        let way = with_way(folders, names.drop_last(), now)->Ok_0;
        let name = names.last();
        lemma_with_way(folders, names.drop_last(), now);
        lemma_with_folder(way.folders, name, way.inner, now);
        let (after, place) = with_folder(way.folders, name, way.inner, now)->Ok_0;
        assert(with_way(folders, names, now)->Ok_0.folders == after);
        assert(later.take(way.folders.len() as int) == way.folders) by {
            assert(later.take(after.len() as int).take(way.folders.len() as int) == later.take(
                way.folders.len() as int,
            ));
        }
        lemma_way_again(folders, names.drop_last(), now, later, then);
        if sibling(way.folders, way.inner, name, 0) is Some {
            lemma_sibling_stays(way.folders, later, way.inner, name, 0);
            assert(later.take(way.folders.len() as int)[place] == later[place]);
        } else {
            let row = after[way.folders.len() as int];
            lemma_sibling_new(way.folders, row, way.inner, name, 0);
            lemma_sibling_stays(after, later, way.inner, name, 0);
            assert(later.take(after.len() as int)[place] == later[place]);
        }
    }
}

/// What taking in a list leaves: its folders grow, and its feeds keep their
/// ids.
pub proof fn lemma_with_list(library: LibraryView, feeds: Seq<OpmlFeedView>, now: i64)
    requires
        library.wf(),
    ensures
        match with_list(library, feeds, now) {
            Ok(state) => {
                &&& state.library.wf()
                &&& library.folders.len() <= state.library.folders.len()
                &&& state.library.folders.take(library.folders.len() as int) == library.folders
                &&& library.feeds.len() <= state.library.feeds.len()
                &&& forall|i: int|
                    0 <= i < library.feeds.len() ==> (
                    #[trigger] state.library.feeds[i]).feed.stable_id
                        == library.feeds[i].feed.stable_id
            },
            Err(_) => true,
        },
    decreases feeds.len(),
{
    if feeds.len() == 0 {
        assert(library.folders.take(library.folders.len() as int) == library.folders);
    } else {
        lemma_with_list(library, feeds.drop_last(), now);
        match with_list(library, feeds.drop_last(), now) {
            Ok(state) => {
                lemma_with_listed(state, feeds.last(), now);
                match with_listed(state, feeds.last(), now) {
                    Ok(after) => {
                        assert(after.library.folders.take(library.folders.len() as int)
                            == after.library.folders.take(
                            state.library.folders.len() as int,
                        ).take(library.folders.len() as int));
                        assert forall|i: int| 0 <= i < library.feeds.len() implies (
                        #[trigger] after.library.feeds[i]).feed.stable_id
                            == library.feeds[i].feed.stable_id by {
                            assert(state.library.feeds[i].feed.stable_id
                                == library.feeds[i].feed.stable_id);
                        }
                    },
                    Err(_) => {},
                }
            },
            Err(_) => {},
        }
    }
}

/// `later` holds the folders of `library` first, and its feeds under their ids.
pub open spec fn extends(later: LibraryView, library: LibraryView) -> bool {
    &&& library.folders.len() <= later.folders.len()
    &&& later.folders.take(library.folders.len() as int) == library.folders
    &&& library.feeds.len() <= later.feeds.len()
    &&& forall|i: int|
        0 <= i < library.feeds.len() ==> (#[trigger] later.feeds[i]).feed.stable_id
            == library.feeds[i].feed.stable_id
}

/// Taken in once more, each subscription of a list is known and no folder is
/// made.
proof fn lemma_list_again(
    library: LibraryView,
    feeds: Seq<OpmlFeedView>,
    now: i64,
    later: LibraryView,
    then: i64,
)
    requires
        library.wf(),
        later.wf(),
        with_list(library, feeds, now) is Ok,
        extends(later, with_list(library, feeds, now)->Ok_0.library),
    ensures
        match with_list(later, feeds, then) {
            Ok(state) => state.added == 0 && state.known == feeds.len() && state.folders_made == 0
                && state.library.folders == later.folders && extends(state.library, later)
                && state.library.feeds.len() == later.feeds.len() && state.library.wf(),
            Err(_) => false,
        },
    decreases feeds.len(),
{
    if feeds.len() == 0 {
        assert(later.folders.take(later.folders.len() as int) == later.folders);
    } else {
        let feed = feeds.last();
        let shorter = feeds.drop_last();
        let before = with_list(library, shorter, now)->Ok_0;
        let done = with_list(library, feeds, now)->Ok_0;
        lemma_with_list(library, shorter, now);
        lemma_with_listed(before, feed, now);
        lemma_with_way(before.library.folders, feed.folders, now);
        let way = with_way(before.library.folders, feed.folders, now)->Ok_0;
        assert(done.library.folders == way.folders);
        assert(extends(later, before.library)) by {
            assert(later.folders.take(before.library.folders.len() as int) == later.folders.take(
                done.library.folders.len() as int,
            ).take(before.library.folders.len() as int));
            assert forall|i: int| 0 <= i < before.library.feeds.len() implies (
            #[trigger] later.feeds[i]).feed.stable_id == before.library.feeds[i].feed.stable_id by {
                assert(done.library.feeds[i].feed.stable_id
                    == before.library.feeds[i].feed.stable_id);
            }
        }
        lemma_list_again(library, shorter, now, later, then);
        let state = with_list(later, shorter, then)->Ok_0;
        lemma_way_again(before.library.folders, feed.folders, now, state.library.folders, then);
        let id = feed_identity(feed.feed_url);
        assert(has_feed(state.library.feeds, id)) by {
            let k = choose|k: int|
                0 <= k < done.library.feeds.len() && (
                #[trigger] done.library.feeds[k]).feed.stable_id == id;
            assert(later.feeds[k].feed.stable_id == id);
            assert(state.library.feeds[k].feed.stable_id == id);
        }
        lemma_feed_at(state.library.feeds, id, 0);
        assert(feed_at(state.library.feeds, id, 0) is Some);
        assert(1 <= feed.feed_url.len() <= MAX_FEED_URL);
        lemma_with_listed(state, feed, then);
    }
}

/// Taking in the same list twice adds nothing the second time: every
/// subscription of it is known, and no folder is made.
pub proof fn law_repeated_import_adds_nothing(
    library: LibraryView,
    feeds: Seq<OpmlFeedView>,
    now: i64,
    then: i64,
)
    requires
        library.wf(),
        with_list(library, feeds, now) is Ok,
    ensures
        match with_list(with_list(library, feeds, now)->Ok_0.library, feeds, then) {
            Ok(state) => {
                &&& state.added == 0
                &&& state.known == feeds.len()
                &&& state.folders_made == 0
                &&& state.library.folders == with_list(library, feeds, now)->Ok_0.library.folders
                &&& state.library.feeds.len() == with_list(
                    library,
                    feeds,
                    now,
                )->Ok_0.library.feeds.len()
            },
            Err(_) => false,
        },
{
    let later = with_list(library, feeds, now)->Ok_0.library;
    lemma_with_list(library, feeds, now);
    assert(later.folders.take(later.folders.len() as int) == later.folders);
    lemma_list_again(library, feeds, now, later, then);
}

/// Taking in a list adds and keeps, and takes nothing away: folders and articles
/// stay, feeds that the list does not name stay as they are, every subscription
/// of the list is there afterwards, and each is counted once.
pub proof fn law_import_keeps_what_is_there(
    library: LibraryView,
    feeds: Seq<OpmlFeedView>,
    now: i64,
)
    requires
        library.wf(),
        with_list(library, feeds, now) is Ok,
    ensures
        ({
            let state = with_list(library, feeds, now)->Ok_0;
            &&& state.library.wf()
            &&& state.library.articles == library.articles
            &&& extends(state.library, library)
            &&& forall|i: int|
                0 <= i < library.feeds.len() && (forall|k: int|
                    0 <= k < feeds.len() ==> feed_identity((#[trigger] feeds[k]).feed_url)
                        != library.feeds[i].feed.stable_id) ==> #[trigger] state.library.feeds[i]
                    == library.feeds[i]
            &&& forall|k: int|
                0 <= k < feeds.len() ==> has_feed(
                    state.library.feeds,
                    feed_identity((#[trigger] feeds[k]).feed_url),
                )
            &&& state.added + state.known == feeds.len()
            &&& state.library.feeds.len() == library.feeds.len() + state.added
        }),
    decreases feeds.len(),
{
    lemma_with_list(library, feeds, now);
    if feeds.len() > 0 {
        let shorter = feeds.drop_last();
        let feed = feeds.last();
        law_import_keeps_what_is_there(library, shorter, now);
        let before = with_list(library, shorter, now)->Ok_0;
        let state = with_list(library, feeds, now)->Ok_0;
        lemma_with_listed(before, feed, now);
        let id = feed_identity(feed.feed_url);
        lemma_feed_at(before.library.feeds, id, 0);
        assert forall|i: int|
            0 <= i < library.feeds.len() && (forall|k: int|
                0 <= k < feeds.len() ==> feed_identity((#[trigger] feeds[k]).feed_url)
                    != library.feeds[i].feed.stable_id) implies #[trigger] state.library.feeds[i]
            == library.feeds[i] by {
            assert forall|k: int| 0 <= k < shorter.len() implies feed_identity(
                (#[trigger] shorter[k]).feed_url,
            ) != library.feeds[i].feed.stable_id by {
                assert(shorter[k] == feeds[k]);
            }
            assert(before.library.feeds[i] == library.feeds[i]);
            assert(feeds[feeds.len() - 1] == feed);
        }
        assert forall|k: int| 0 <= k < feeds.len() implies has_feed(
            state.library.feeds,
            feed_identity((#[trigger] feeds[k]).feed_url),
        ) by {
            if k < shorter.len() {
                assert(feeds[k] == shorter[k]);
                let own = feed_identity(shorter[k].feed_url);
                let place = choose|place: int|
                    0 <= place < before.library.feeds.len() && (
                    #[trigger] before.library.feeds[place]).feed.stable_id == own;
                assert(state.library.feeds[place].feed.stable_id == own);
            }
        }
    }
}

} // verus!
