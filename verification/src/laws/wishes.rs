//! What comes of the wishes of a reader.

use crate::articles::page_of;
use crate::laws::shelves::{
    law_feed_is_taken_away, law_folder_is_made_once, law_folder_is_taken_away, has_sibling,
};
use crate::library::{
    article_at, feed_at, folder_at, has_feed, has_folder, lemma_article_at, lemma_feed_at,
    lemma_folder_at, LibraryView,
};
use crate::records::{
    ArticleRowView, CursorView, FeedRecordView, FeedRowView, FolderRowView, FolderView, ScopeView,
};
use crate::text::{byte_len, lower, trim};
use crate::worker::{answered, CommandView, EventView, StepView};
use vstd::prelude::*;

verus! {

/// The wish was granted.
pub open spec fn is_done(step: StepView) -> bool {
    step matches StepView::Reply(Ok(_))
}

/// The wish was refused.
pub open spec fn is_refused(step: StepView) -> bool {
    step matches StepView::Reply(Err(_))
}

/// The place of an article with an id is where it is found.
proof fn lemma_article_found(library: LibraryView, i: int)
    requires
        library.wf(),
        0 <= i < library.articles.len(),
    ensures
        article_at(library.articles, library.articles[i].stable_id, 0) == Some(i),
{
    let id = library.articles[i].stable_id;
    lemma_article_at(library.articles, id, 0);
    let k = article_at(library.articles, id, 0)->0;
    if k < i {
        assert(library.articles[k].stable_id != library.articles[i].stable_id);
    } else if i < k {
        assert(library.articles[i].stable_id != library.articles[k].stable_id);
    }
}

proof fn lemma_feed_found(library: LibraryView, f: int)
    requires
        library.wf(),
        0 <= f < library.feeds.len(),
    ensures
        feed_at(library.feeds, library.feeds[f].feed.stable_id, 0) == Some(f),
{
    let id = library.feeds[f].feed.stable_id;
    lemma_feed_at(library.feeds, id, 0);
    let k = feed_at(library.feeds, id, 0)->0;
    if k < f {
        assert(library.feeds[k].feed.stable_id != library.feeds[f].feed.stable_id);
    } else if f < k {
        assert(library.feeds[f].feed.stable_id != library.feeds[k].feed.stable_id);
    }
}

proof fn lemma_folder_found(library: LibraryView, i: int)
    requires
        library.wf(),
        0 <= i < library.folders.len(),
    ensures
        folder_at(library.folders, library.folders[i].folder.id, 0) == Some(i),
{
    let id = library.folders[i].folder.id;
    lemma_folder_at(library.folders, id, 0);
    let k = folder_at(library.folders, id, 0)->0;
    if k < i {
        assert(library.folders[k].folder.id != library.folders[i].folder.id);
    } else if i < k {
        assert(library.folders[i].folder.id != library.folders[k].folder.id);
    }
}

/// Marking an article as read or unread, and giving or taking its star, does
/// that to the article with the id and to nothing else; where there is no such
/// article it is refused.
pub proof fn law_article_is_marked(
    library: LibraryView,
    id: Seq<char>,
    flag: bool,
    now: i64,
    i: int,
)
    requires
        library.wf(),
    ensures
        ({
            let (read, read_step) = answered(library, CommandView::SetRead { id, read: flag }, now);
            let (starred, starred_step) = answered(
                library,
                CommandView::SetStarred { id, starred: flag },
                now,
            );
            let there = 0 <= i < library.articles.len() && library.articles[i].stable_id == id;
            &&& there ==> {
                &&& is_done(read_step) && is_done(starred_step)
                &&& read.feeds == library.feeds && read.folders == library.folders
                &&& starred.feeds == library.feeds && starred.folders == library.folders
                &&& read.articles == library.articles.update(
                    i,
                    ArticleRowView { is_read: flag, modified_at: now, ..library.articles[i] },
                )
                &&& starred.articles == library.articles.update(
                    i,
                    ArticleRowView { is_starred: flag, modified_at: now, ..library.articles[i] },
                )
            }
            &&& (forall|k: int|
                0 <= k < library.articles.len() ==> (#[trigger] library.articles[k]).stable_id
                    != id) ==> is_refused(read_step) && is_refused(starred_step) && read == library
                && starred == library
        }),
{
    lemma_article_at(library.articles, id, 0);
    if 0 <= i < library.articles.len() && library.articles[i].stable_id == id {
        lemma_article_found(library, i);
    }
}

/// An article that is opened shows what the library holds of it.
pub proof fn law_opened_article_is_shown(library: LibraryView, now: i64, i: int, f: int)
    requires
        library.wf(),
        0 <= i < library.articles.len(),
        0 <= f < library.feeds.len(),
        library.feeds[f].feed.stable_id == library.articles[i].feed_stable_id,
    ensures
        ({
            let row = library.articles[i];
            let step = answered(library, CommandView::OpenArticle(row.stable_id), now).1;
            step matches StepView::Reply(Ok(EventView::Article(shown))) && {
                &&& shown.stable_id == row.stable_id
                &&& shown.feed_stable_id == row.feed_stable_id
                &&& shown.feed_name == library.feeds[f].feed.display_name
                &&& shown.title == row.title
                &&& shown.url == row.url
                &&& shown.author == row.author
                &&& shown.summary == row.summary
                &&& shown.content == row.content
                &&& shown.published_at == row.published_at
                &&& shown.updated_at == row.updated_at
                &&& shown.inserted_at == row.inserted_at
                &&& shown.image_url == row.image_url
                &&& shown.enclosure_url == row.enclosure_url
                &&& shown.enclosure_type == row.enclosure_type
                &&& shown.is_read == row.is_read
                &&& shown.is_starred == row.is_starred
            }
        }),
{
    lemma_article_found(library, i);
    lemma_feed_found(library, f);
}

/// A list that is asked for is a page of a hundred articles from the top, and what
/// comes after it is to stand behind what is there.
pub proof fn law_lists_are_paged(
    library: LibraryView,
    scope: ScopeView,
    cursor: CursorView,
    now: i64,
)
    ensures
        ({
            let first = page_of(library, scope, 100, None);
            let more = page_of(library, scope, 100, Some(cursor));
            &&& answered(library, CommandView::LoadArticles(scope), now).1 == StepView::Reply(
                Ok(
                    EventView::Articles {
                        scope,
                        items: first.items,
                        next: first.next,
                        append: false,
                    },
                ),
            )
            &&& answered(library, CommandView::LoadMore(scope, cursor), now).1 == StepView::Reply(
                Ok(
                    EventView::Articles {
                        scope,
                        items: more.items,
                        next: more.next,
                        append: true,
                    },
                ),
            )
        }),
{
}

/// Moving a feed puts it into the folder, if there is such a folder, or into
/// none; nothing else changes.
pub proof fn law_feed_is_moved(
    library: LibraryView,
    folder: Option<i64>,
    now: i64,
    f: int,
)
    requires
        library.wf(),
        0 <= f < library.feeds.len(),
    ensures
        ({
            let id = library.feeds[f].feed.stable_id;
            let (after, step) = answered(
                library,
                CommandView::MoveFeed { id, folder_id: folder },
                now,
            );
            let row = library.feeds[f];
            &&& folder is None || has_folder(library.folders, folder->0) ==> is_done(step)
                && after.feeds == library.feeds.update(
                f,
                FeedRowView {
                    feed: FeedRecordView { folder_id: folder, ..row.feed },
                    modified_at: now,
                    ..row
                },
            ) && after.articles == library.articles && after.folders == library.folders
            &&& folder is Some && !has_folder(library.folders, folder->0) ==> is_refused(step)
                && after == library
        }),
{
    lemma_feed_found(library, f);
}

/// Naming a feed shows it under that name without the white space round it,
/// where that leaves something; taking the name back shows it under its
/// publisher's. A blank name is refused.
pub proof fn law_feed_is_named(library: LibraryView, name: Seq<char>, now: i64, f: int)
    requires
        library.wf(),
        0 <= f < library.feeds.len(),
    ensures
        ({
            let id = library.feeds[f].feed.stable_id;
            let row = library.feeds[f];
            let (named, named_step) = answered(
                library,
                CommandView::RenameFeed { id, name: Some(name) },
                now,
            );
            let (bare, bare_step) = answered(
                library,
                CommandView::RenameFeed { id, name: None },
                now,
            );
            let good = trim(name).len() > 0 && byte_len(trim(name)) <= 1000;
            &&& good ==> is_done(named_step) && named.feeds == library.feeds.update(
                f,
                FeedRowView {
                    feed: FeedRecordView {
                        custom_name: Some(trim(name)),
                        display_name: trim(name),
                        ..row.feed
                    },
                    modified_at: now,
                    ..row
                },
            ) && named.articles == library.articles && named.folders == library.folders
            &&& !good ==> is_refused(named_step) && named == library
            &&& is_done(bare_step)
            &&& bare.feeds == library.feeds.update(
                f,
                FeedRowView {
                    feed: FeedRecordView {
                        custom_name: None,
                        display_name: row.feed.publisher_name,
                        ..row.feed
                    },
                    modified_at: now,
                    ..row
                },
            )
        }),
{
    lemma_feed_found(library, f);
}

/// A feed that is removed is gone, and so is every article of it.
pub proof fn law_feed_is_removed(library: LibraryView, now: i64, f: int)
    requires
        library.wf(),
        0 <= f < library.feeds.len(),
    ensures
        ({
            let id = library.feeds[f].feed.stable_id;
            let (after, step) = answered(library, CommandView::RemoveFeed(id), now);
            &&& is_done(step)
            &&& !has_feed(after.feeds, id)
            &&& after.feeds.len() == library.feeds.len() - 1
            &&& forall|i: int|
                0 <= i < after.articles.len() ==> (#[trigger] after.articles[i]).feed_stable_id
                    != id && library.articles.contains(after.articles[i])
            &&& forall|i: int|
                0 <= i < library.articles.len() && (#[trigger] library.articles[i]).feed_stable_id
                    != id ==> after.articles.contains(library.articles[i])
            &&& after.folders == library.folders
        }),
{
    let id = library.feeds[f].feed.stable_id;
    lemma_feed_found(library, f);
    law_feed_is_taken_away(library, f);
    let after = answered(library, CommandView::RemoveFeed(id), now).0;
    assert forall|k: int| 0 <= k < after.feeds.len() implies (
    #[trigger] after.feeds[k]).feed.stable_id != id by {
        if k < f {
            assert(after.feeds[k] == library.feeds[k]);
            assert(library.feeds[k].feed.stable_id != library.feeds[f].feed.stable_id);
        } else {
            assert(after.feeds[k + 1 - 1] == library.feeds[k + 1]);
            assert(library.feeds[f].feed.stable_id != library.feeds[k + 1].feed.stable_id);
        }
    }
    let wanted = crate::laws::shelves::is_of_another(library.articles, id);
    let at = choose|at: Seq<int>|
        #[trigger] crate::laws::places::are_the_places(
            at,
            library.articles.len() as int,
            wanted,
        ) && after.articles == at.map_values(|i: int| library.articles[i]);
    assert forall|i: int| 0 <= i < after.articles.len() implies (
    #[trigger] after.articles[i]).feed_stable_id != id && library.articles.contains(
        after.articles[i],
    ) by {
        assert(wanted(at[i]));
        assert(library.articles[at[i]] == after.articles[i]);
    }
    assert forall|i: int|
        0 <= i < library.articles.len() && (#[trigger] library.articles[i]).feed_stable_id
            != id implies after.articles.contains(library.articles[i]) by {
        assert(wanted(i));
        let k = choose|k: int| 0 <= k < at.len() && at[k] == i;
        assert(after.articles[k] == library.articles[i]);
    }
}

/// A folder that is removed is gone; its feeds stay, in no folder, and so do all
/// articles.
pub proof fn law_folder_is_removed(library: LibraryView, now: i64, i: int)
    requires
        library.wf(),
        0 <= i < library.folders.len(),
    ensures
        ({
            let id = library.folders[i].folder.id;
            let (after, step) = answered(library, CommandView::DeleteFolder(id), now);
            &&& is_done(step)
            &&& !has_folder(after.folders, id)
            &&& after.articles == library.articles
            &&& after.feeds.len() == library.feeds.len()
            &&& forall|f: int|
                0 <= f < library.feeds.len() ==> {
                    let before = (#[trigger] library.feeds[f]).feed;
                    let feed = after.feeds[f].feed;
                    &&& feed.stable_id == before.stable_id
                    &&& feed.display_name == before.display_name
                    &&& before.folder_id == Some(id) ==> feed.folder_id is None
                    &&& before.folder_id != Some(id) ==> feed.folder_id == before.folder_id
                }
        }),
{
    lemma_folder_found(library, i);
    law_folder_is_taken_away(library, i);
}

/// A folder that is renamed has the name, without the white space round it, if
/// it is not too long and no folder beside it has it; else nothing changes.
pub proof fn law_folder_is_renamed(library: LibraryView, name: Seq<char>, now: i64, i: int)
    requires
        library.wf(),
        0 <= i < library.folders.len(),
    ensures
        ({
            let id = library.folders[i].folder.id;
            let row = library.folders[i];
            let bare = trim(name);
            let (after, step) = answered(library, CommandView::RenameFolder { id, name }, now);
            let good = bare.len() > 0 && byte_len(bare) <= 1000 && bare.len() <= 500;
            let taken = row.folder.parent_id is Some && exists|k: int|
                0 <= k < library.folders.len() && k != i && (
                #[trigger] library.folders[k]).folder.parent_id == row.folder.parent_id && lower(
                    library.folders[k].folder.name,
                ) == lower(bare);
            &&& good && !taken ==> is_done(step) && after == (LibraryView {
                folders: library.folders.update(
                    i,
                    FolderRowView {
                        folder: FolderView { name: bare, ..row.folder },
                        modified_at: now,
                        ..row
                    },
                ),
                ..library
            })
            &&& !good || taken ==> is_refused(step) && after == library
        }),
{
    lemma_folder_found(library, i);
}

/// A folder that is created lies at the top under the name without the white
/// space round it, unless one of that name is there; nothing else changes.
pub proof fn law_folder_is_created(library: LibraryView, name: Seq<char>, now: i64)
    requires
        library.wf(),
        forall|i: int|
            0 <= i < library.folders.len() ==> (#[trigger] library.folders[i]).folder.id
                < i64::MAX,
    ensures
        ({
            let bare = trim(name);
            let (after, step) = answered(library, CommandView::CreateFolder(name), now);
            let good = bare.len() > 0 && byte_len(bare) <= 1000;
            let there = exists|i: int| #[trigger] has_sibling(library.folders, i, None, bare);
            &&& after.feeds == library.feeds && after.articles == library.articles
            &&& good && there ==> is_done(step) && after.folders == library.folders
            &&& good && !there && bare.len() <= 500 ==> is_done(step) && after.folders.len()
                == library.folders.len() + 1 && after.folders.take(library.folders.len() as int)
                == library.folders && after.folders.last().folder.name == bare
                && after.folders.last().folder.parent_id is None
            &&& !good ==> is_refused(step) && after == library
        }),
{
    let bare = trim(name);
    law_folder_is_made_once(library.folders, bare, None, now);
    let after = answered(library, CommandView::CreateFolder(name), now).0;
    let made = crate::library::with_folder(library.folders, bare, None, now);
    if made is Ok && made->Ok_0.0 != library.folders {
        assert(made->Ok_0.0.take(library.folders.len() as int) =~= library.folders);
    }
    if made is Ok {
        let row = made->Ok_0.0[library.folders.len() as int];
        assert(library.folders.push(row).take(library.folders.len() as int) =~= library.folders);
    }
}

/// What is shown for finding one's way: the feeds and the folders in order, and
/// how many there are of everything.
pub proof fn law_navigation_shows_the_library(library: LibraryView, now: i64)
    requires
        library.feeds.len() <= i64::MAX,
        library.folders.len() <= i64::MAX,
        library.articles.len() <= i64::MAX,
    ensures
        answered(library, CommandView::LoadNavigation, now).1 matches StepView::Reply(
            Ok(EventView::Navigation { feeds, folders, stats }),
        ) && {
            &&& feeds == crate::library::listed_feeds(library.feeds)
            &&& folders == crate::library::listed_folders(library.folders)
            &&& stats.feeds == library.feeds.len()
            &&& stats.folders == library.folders.len()
            &&& stats.articles == library.articles.len()
        },
{
}

/// A wish to search, to take in a list or to write one names what it was asked
/// with; the list that is written is that of the library.
pub proof fn law_wishes_keep_their_words(
    library: LibraryView,
    text: Seq<char>,
    now: i64,
)
    ensures
        answered(library, CommandView::Search(text), now).1 matches StepView::Find {
            query,
            expression,
        } && query == text && expression == crate::articles::search_for(text),
        answered(library, CommandView::ImportOpml(text), now).1 == (StepView::ReadList {
            path: text,
        }),
        crate::subscriptions::list_of(library) is Ok ==> answered(
            library,
            CommandView::ExportOpml(text),
            now,
        ).1 == (StepView::WriteList {
            path: text,
            text: crate::opml::exported(
                crate::subscriptions::list_of(library)->Ok_0,
                "Thu, 01 Jan 1970 00:00:00 +0000"@,
            ),
        }),
        crate::subscriptions::list_of(library) is Err ==> is_refused(
            answered(library, CommandView::ExportOpml(text), now).1,
        ),
{
}

} // verus!
