//! Taking a library out of its tables, and bringing the tables up to date.

use crate::library::{
    articles_wf, clash, feeds_wf, fits, folders_wf, has_feed, has_folder, is_sound_article,
    is_sound_feed, is_sound_folder, lemma_folder_at, Library, LibraryView, MAX_ARTICLE_TITLE,
    MAX_FEED_NAME, MAX_FEED_URL, MAX_FOLDER_NAME, SCHEMA_VERSION,
};
use crate::records::{
    article_rows, feed_rows, folder_rows, storage_failure, ArticleRow, ArticleRowView,
    FeedRecordView, FeedRow, FeedRowView, FolderRow, StorageError, StorageErrorView,
};
use crate::text::{same, same_ignoring_case, views};
use crate::unique::{is_first, mark_firsts};
use vstd::hash_set::StringHashSet;
use vstd::prelude::*;

verus! {

/// The step that tables of a version need next, named by the version that it
/// leads to.
pub open spec fn next_step(version: i64) -> Option<i64> {
    if 0 <= version < SCHEMA_VERSION {
        Some((version + 1) as i64)
    } else {
        None
    }
}

/// The step that tables of `version` need next; none where they are up to date.
/// Tables of a later version are refused.
pub fn next_migration(version: i64) -> (r: Result<Option<i64>, StorageError>)
    ensures
        if version > SCHEMA_VERSION {
            storage_failure(r) == Some(StorageErrorView::UnsupportedSchema(version))
        } else {
            r is Ok && r->Ok_0 == next_step(version)
        },
{
    if version > SCHEMA_VERSION {
        Err(StorageError::UnsupportedSchema(version))
    } else if 0 <= version && version < SCHEMA_VERSION {
        Ok(Some(version + 1))
    } else {
        Ok(None)
    }
}

/// The version that tables have after all steps that they need, `count` at
/// most.
pub open spec fn brought_up(version: i64, count: nat) -> i64
    decreases count,
{
    match next_step(version) {
        Some(next) if count > 0 => brought_up(next, (count - 1) as nat),
        _ => version,
    }
}

/// Tables of every version up to the present one, new ones among them, are
/// brought up to date in three steps at most.
pub proof fn law_migrations_reach_the_present(version: i64)
    requires
        0 <= version <= SCHEMA_VERSION,
    ensures
        brought_up(version, 3) == SCHEMA_VERSION,
        next_step(SCHEMA_VERSION) is None,
{
    reveal_with_fuel(brought_up, 4);
}

/// The article has no date of its own.
pub open spec fn is_undated(article: ArticleRowView) -> bool {
    article.published_at is None && article.updated_at is None
}

/// Some article of the feed has no date.
pub open spec fn has_undated(articles: Seq<ArticleRowView>, feed: Seq<char>) -> bool {
    exists|i: int|
        0 <= i < articles.len() && (#[trigger] articles[i]).feed_stable_id == feed && is_undated(
            articles[i],
        )
}

/// A feed that the server is asked for as if for the first time.
pub open spec fn without_validators(row: FeedRowView) -> FeedRowView {
    FeedRowView { feed: FeedRecordView { etag: None, last_modified: None, ..row.feed }, ..row }
}

/// The feeds, those with undated articles to be fetched anew.
pub open spec fn refetching(feeds: Seq<FeedRowView>, articles: Seq<ArticleRowView>) -> Seq<
    FeedRowView,
> {
    Seq::new(
        feeds.len(),
        |i: int|
            if has_undated(articles, feeds[i].feed.stable_id) {
                without_validators(feeds[i])
            } else {
                feeds[i]
            },
    )
}

fn undated_in(articles: &Vec<ArticleRow>, feed: &str) -> (r: bool)
    ensures
        r == has_undated(article_rows(articles@), feed@),
{
    let ghost all = article_rows(articles@);
    let mut i: usize = 0;
    while i < articles.len()
        invariant
            i <= articles@.len(),
            all == article_rows(articles@),
            forall|j: int|
                0 <= j < i ==> !((#[trigger] all[j]).feed_stable_id == feed@ && is_undated(all[j])),
        decreases articles@.len() - i,
    {
        assert(all[i as int] == articles@[i as int]@);
        if articles[i].published_at.is_none() && articles[i].updated_at.is_none() && same(
            articles[i].feed_stable_id.as_str(),
            feed,
        ) {
            return true;
        }
        i += 1;
    }
    false
}

impl Library {
    /// Forgets what tells the server which document is known, for each feed
    /// with an undated article, so that its document is read anew. Nothing else
    /// changes.
    pub fn refetch_undated(&mut self)
        requires
            old(self)@.wf(),
        ensures
            final(self)@.wf(),
            final(self)@ == (LibraryView {
                feeds: refetching(old(self)@.feeds, old(self)@.articles),
                ..old(self)@
            }),
    {
        let ghost before = self@;
        let count: usize = self.feeds.len();
        let mut i: usize = 0;
        while i < count
            invariant
                i <= count == self.feeds@.len(),
                count == before.feeds.len(),
                self@.folders == before.folders,
                self@.articles == before.articles,
                forall|j: int|
                    0 <= j < i ==> #[trigger] self@.feeds[j] == refetching(
                        before.feeds,
                        before.articles,
                    )[j],
                forall|j: int| i <= j < count ==> #[trigger] self@.feeds[j] == before.feeds[j],
            decreases count - i,
        {
            assert(self@.feeds[i as int] == self.feeds@[i as int]@);
            assert(self@.feeds[i as int] == before.feeds[i as int]);
            if undated_in(&self.articles, self.feeds[i].feed.stable_id.as_str()) {
                let ghost was = self@.feeds;
                let mut row = self.feeds[i].clone();
                row.feed.etag = None;
                row.feed.last_modified = None;
                self.feeds.set(i, row);
                assert(self@.feeds == was.update(i as int, row@));
                assert(row@ == without_validators(before.feeds[i as int]));
            }
            i += 1;
        }
        assert(self@.feeds == refetching(before.feeds, before.articles));
        proof {
            lemma_refetching(before);
        }
    }
}

proof fn lemma_refetching(library: LibraryView)
    requires
        library.wf(),
    ensures
        (LibraryView {
            feeds: refetching(library.feeds, library.articles),
            ..library
        }).wf(),
{
    let after = refetching(library.feeds, library.articles);
    assert forall|i: int| 0 <= i < after.len() implies is_sound_feed(#[trigger] after[i]) by {
        assert(is_sound_feed(library.feeds[i]));
    }
    assert forall|i: int, j: int| 0 <= i < j < after.len() implies (
    #[trigger] after[i]).feed.stable_id != (#[trigger] after[j]).feed.stable_id
        && after[i].feed.normalized_url != after[j].feed.normalized_url by {
        assert(library.feeds[i].feed.stable_id != library.feeds[j].feed.stable_id);
    }
    assert forall|i: int|
        0 <= i < after.len() && (#[trigger] after[i]).feed.folder_id is Some implies has_folder(
        library.folders,
        after[i].feed.folder_id->0,
    ) by {
        assert(library.feeds[i].feed.folder_id is Some);
    }
    assert forall|i: int| 0 <= i < library.articles.len() implies has_feed(
        after,
        (#[trigger] library.articles[i]).feed_stable_id,
    ) by {
        let id = library.articles[i].feed_stable_id;
        assert(has_feed(library.feeds, id));
        let k = choose|k: int|
            0 <= k < library.feeds.len() && (#[trigger] library.feeds[k]).feed.stable_id == id;
        assert(after[k].feed.stable_id == id);
    }
}

fn folders_are_sound(library: &Library) -> (r: bool)
    ensures
        r == folders_wf(library@.folders),
{
    let ghost all = library@.folders;
    let count: usize = library.folders.len();
    let mut i: usize = 0;
    while i < count
        invariant
            i <= count == library.folders@.len(),
            all == library@.folders,
            forall|k: int| 0 <= k < i ==> is_sound_folder(#[trigger] all[k]),
            forall|k: int, m: int|
                0 <= k < m < i ==> (#[trigger] all[k]).folder.id != (#[trigger] all[m]).folder.id
                    && !clash(all[k], all[m]),
            forall|k: int|
                0 <= k < i && (#[trigger] all[k]).folder.parent_id is Some ==> has_folder(
                    all,
                    all[k].folder.parent_id->0,
                ) && all[k].folder.parent_id->0 < all[k].folder.id,
        decreases count - i,
    {
        let row = &library.folders[i];
        assert(all[i as int] == row@);
        if row.folder.id < 1 || !fits(row.folder.name.as_str(), MAX_FOLDER_NAME) {
            assert(!is_sound_folder(all[i as int]));
            return false;
        }
        if let Some(parent) = row.folder.parent_id {
            proof {
                lemma_folder_at(all, parent, 0);
            }
            match library.find_folder(parent) {
                Some(at) => {
                    assert(all[at as int].folder.id == parent);
                },
                None => {
                    return false;
                },
            }
            if parent >= row.folder.id {
                return false;
            }
        }
        let mut j: usize = 0;
        while j < i
            invariant
                j <= i < count == library.folders@.len(),
                all == library@.folders,
                row@ == all[i as int],
                forall|k: int|
                    0 <= k < j ==> (#[trigger] all[k]).folder.id != all[i as int].folder.id
                        && !clash(all[k], all[i as int]),
            decreases i - j,
        {
            let other = &library.folders[j];
            assert(all[j as int] == other@);
            let beside = match (other.folder.parent_id, row.folder.parent_id) {
                (Some(a), Some(b)) => a == b,
                _ => false,
            };
            if other.folder.id == row.folder.id || (beside && same_ignoring_case(
                other.folder.name.as_str(),
                row.folder.name.as_str(),
            )) {
                assert(!(all[j as int].folder.id != all[i as int].folder.id && !clash(
                    all[j as int],
                    all[i as int],
                )));
                return false;
            }
            j += 1;
        }
        i += 1;
    }
    true
}

fn all_firsts(texts: &Vec<String>) -> (r: bool)
    ensures
        r == (forall|i: int, j: int|
            0 <= i < j < texts@.len() ==> #[trigger] views(texts@)[i] != #[trigger] views(
                texts@,
            )[j]),
{
    let ghost all = views(texts@);
    let marks = mark_firsts(texts);
    let mut i: usize = 0;
    while i < marks.len()
        invariant
            i <= marks@.len() == texts@.len(),
            all == views(texts@),
            forall|j: int| 0 <= j < marks@.len() ==> #[trigger] marks@[j] == is_first(all, j),
            forall|j: int| 0 <= j < i ==> is_first(all, j),
        decreases marks@.len() - i,
    {
        if !marks[i] {
            assert(!is_first(all, i as int));
            let ghost j = choose|j: int| 0 <= j < i && #[trigger] all[j] == all[i as int];
            assert(all[j] == all[i as int]);
            return false;
        }
        i += 1;
    }
    assert forall|i: int, j: int| 0 <= i < j < texts@.len() implies #[trigger] all[i]
        != #[trigger] all[j] by {
        assert(is_first(all, j));
    }
    true
}

fn feeds_are_sound(library: &Library) -> (r: bool)
    ensures
        r == feeds_wf(library@.feeds, library@.folders),
{
    let ghost all = library@.feeds;
    let ghost folders = library@.folders;
    let mut ids: Vec<String> = Vec::new();
    let mut addresses: Vec<String> = Vec::new();
    let mut i: usize = 0;
    while i < library.feeds.len()
        invariant
            i <= library.feeds@.len(),
            all == library@.feeds,
            folders == library@.folders,
            ids@.len() == i,
            addresses@.len() == i,
            forall|k: int| 0 <= k < i ==> #[trigger] ids@[k]@ == all[k].feed.stable_id,
            forall|k: int| 0 <= k < i ==> #[trigger] addresses@[k]@ == all[k].feed.normalized_url,
            forall|k: int| 0 <= k < i ==> is_sound_feed(#[trigger] all[k]),
            forall|k: int|
                0 <= k < i && (#[trigger] all[k]).feed.folder_id is Some ==> has_folder(
                    folders,
                    all[k].feed.folder_id->0,
                ),
        decreases library.feeds@.len() - i,
    {
        let row = &library.feeds[i];
        assert(all[i as int] == row@);
        if !fits(row.feed.normalized_url.as_str(), MAX_FEED_URL) || !fits(
            row.feed.fetch_url.as_str(),
            MAX_FEED_URL,
        ) || !fits(row.feed.display_name.as_str(), MAX_FEED_NAME) || !fits(
            row.feed.publisher_name.as_str(),
            MAX_FEED_NAME,
        ) {
            assert(!is_sound_feed(all[i as int]));
            return false;
        }
        if let Some(folder) = row.feed.folder_id {
            proof {
                lemma_folder_at(folders, folder, 0);
            }
            match library.find_folder(folder) {
                Some(at) => {
                    assert(folders[at as int].folder.id == folder);
                },
                None => {
                    return false;
                },
            }
        }
        ids.push(row.feed.stable_id.clone());
        addresses.push(row.feed.normalized_url.clone());
        i += 1;
    }
    let unique_ids = all_firsts(&ids);
    let unique_addresses = all_firsts(&addresses);
    assert(forall|k: int| 0 <= k < all.len() ==> #[trigger] views(ids@)[k] == all[k].feed.stable_id);
    assert(forall|k: int|
        0 <= k < all.len() ==> #[trigger] views(addresses@)[k] == all[k].feed.normalized_url);
    proof {
        if feeds_wf(all, folders) {
            assert forall|i: int, j: int| 0 <= i < j < ids@.len() implies #[trigger] views(
                ids@,
            )[i] != #[trigger] views(ids@)[j] by {
                assert(all[i].feed.stable_id != all[j].feed.stable_id);
            }
            assert forall|i: int, j: int| 0 <= i < j < addresses@.len() implies #[trigger] views(
                addresses@,
            )[i] != #[trigger] views(addresses@)[j] by {
                assert(all[i].feed.normalized_url != all[j].feed.normalized_url);
            }
        }
        if unique_ids && unique_addresses {
            assert forall|i: int, j: int| 0 <= i < j < all.len() implies (
            #[trigger] all[i]).feed.stable_id != (#[trigger] all[j]).feed.stable_id
                && all[i].feed.normalized_url != all[j].feed.normalized_url by {
                assert(views(ids@)[i] != views(ids@)[j]);
                assert(views(addresses@)[i] != views(addresses@)[j]);
            }
        }
    }
    unique_ids && unique_addresses
}

fn articles_are_sound(library: &Library) -> (r: bool)
    ensures
        r == articles_wf(library@.articles, library@.feeds),
{
    let ghost all = library@.articles;
    let ghost feeds = library@.feeds;
    let mut known = StringHashSet::new();
    let mut k: usize = 0;
    while k < library.feeds.len()
        invariant
            k <= library.feeds@.len(),
            feeds == library@.feeds,
            forall|id: Seq<char>| #[trigger]
                known@.contains(id) ==> has_feed(feeds, id),
            forall|j: int| 0 <= j < k ==> known@.contains((#[trigger] feeds[j]).feed.stable_id),
        decreases library.feeds@.len() - k,
    {
        assert(feeds[k as int] == library.feeds@[k as int]@);
        known.insert(library.feeds[k].feed.stable_id.clone());
        assert(has_feed(feeds, feeds[k as int].feed.stable_id));
        k += 1;
    }
    let mut ids: Vec<String> = Vec::new();
    let mut i: usize = 0;
    while i < library.articles.len()
        invariant
            i <= library.articles@.len(),
            all == library@.articles,
            feeds == library@.feeds,
            forall|id: Seq<char>| #[trigger]
                known@.contains(id) ==> has_feed(feeds, id),
            forall|j: int|
                0 <= j < feeds.len() ==> known@.contains((#[trigger] feeds[j]).feed.stable_id),
            ids@.len() == i,
            forall|j: int| 0 <= j < i ==> #[trigger] ids@[j]@ == all[j].stable_id,
            forall|j: int| 0 <= j < i ==> is_sound_article(#[trigger] all[j]),
            forall|j: int| 0 <= j < i ==> has_feed(feeds, (#[trigger] all[j]).feed_stable_id),
        decreases library.articles@.len() - i,
    {
        let row = &library.articles[i];
        assert(all[i as int] == row@);
        if !fits(row.title.as_str(), MAX_ARTICLE_TITLE) {
            assert(!is_sound_article(all[i as int]));
            return false;
        }
        if !known.contains(row.feed_stable_id.as_str()) {
            proof {
                if has_feed(feeds, all[i as int].feed_stable_id) {
                    let j = choose|j: int|
                        0 <= j < feeds.len() && (#[trigger] feeds[j]).feed.stable_id
                            == all[i as int].feed_stable_id;
                    assert(known@.contains(feeds[j].feed.stable_id));
                }
                assert(!has_feed(feeds, all[i as int].feed_stable_id));
            }
            return false;
        }
        ids.push(row.stable_id.clone());
        i += 1;
    }
    let unique = all_firsts(&ids);
    assert(forall|j: int| 0 <= j < all.len() ==> #[trigger] views(ids@)[j] == all[j].stable_id);
    proof {
        if articles_wf(all, feeds) {
            assert forall|i: int, j: int| 0 <= i < j < ids@.len() implies #[trigger] views(
                ids@,
            )[i] != #[trigger] views(ids@)[j] by {
                assert(all[i].stable_id != all[j].stable_id);
            }
        }
        if unique {
            assert forall|i: int, j: int| 0 <= i < j < all.len() implies (
            #[trigger] all[i]).stable_id != (#[trigger] all[j]).stable_id by {
                assert(views(ids@)[i] != views(ids@)[j]);
            }
        }
    }
    unique
}

impl Library {
    /// The library that the rows of the tables make up, if they fit together.
    pub fn assemble(
        folders: Vec<FolderRow>,
        feeds: Vec<FeedRow>,
        articles: Vec<ArticleRow>,
    ) -> (r: Result<Library, StorageError>)
        ensures
            ({
                let given = LibraryView {
                    folders: folder_rows(folders@),
                    feeds: feed_rows(feeds@),
                    articles: article_rows(articles@),
                };
                if given.wf() {
                    r is Ok && r->Ok_0@ == given
                } else {
                    storage_failure(r) == Some(
                        StorageErrorView::Corruption("rows do not fit together"@),
                    )
                }
            }),
    {
        let library = Library { folders, feeds, articles };
        if folders_are_sound(&library) && feeds_are_sound(&library) && articles_are_sound(
            &library,
        ) {
            Ok(library)
        } else {
            Err(StorageError::Corruption("rows do not fit together".to_owned()))
        }
    }
}

} // verus!
