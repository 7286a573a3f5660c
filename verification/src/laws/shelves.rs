//! What becomes of the folders and feeds of a library.

use crate::laws::places::{are_the_places, lemma_one_wanted};
use crate::library::{
    articles_without, feed_key, folder_key, has_folder, iconed_feed, lemma_largest_id,
    lemma_sibling, listed_feeds, listed_folders, moved_feed, name_in, named_feed, new_feed, renamed,
    sibling, unread_among, with_folder, without_feed, without_folder, LibraryView,
};
use crate::order::text_before;
use crate::parser::FeedFormat;
use crate::records::{ArticleRowView, FeedRecordView, FeedRowView, FolderRowView, FolderView};
use crate::sorting::{in_key_order, key_before, law_ordered_is_complete, law_ordered_is_sorted};
use crate::text::{byte_len, lower, trim};
use vstd::prelude::*;

verus! {

/// A folder that was taken away is gone; the folders that lay in it lie at the
/// top and the feeds that lay in it lie in no folder. Nothing else changes.
pub proof fn law_folder_is_taken_away(library: LibraryView, place: int)
    requires
        library.wf(),
        0 <= place < library.folders.len(),
    ensures
        ({
            let id = library.folders[place].folder.id;
            let after = without_folder(library, place);
            &&& after.articles == library.articles
            &&& after.folders.len() == library.folders.len() - 1
            &&& !has_folder(after.folders, id)
            &&& forall|i: int|
                0 <= i < library.folders.len() && i != place ==> {
                    let before = #[trigger] library.folders[i];
                    let row = after.folders[if i < place {
                        i
                    } else {
                        i - 1
                    }];
                    &&& before.folder.parent_id == Some(id) ==> row == (FolderRowView {
                        folder: FolderView { parent_id: None, ..before.folder },
                        ..before
                    })
                    &&& before.folder.parent_id != Some(id) ==> row == before
                }
            &&& after.feeds.len() == library.feeds.len()
            &&& forall|f: int|
                0 <= f < library.feeds.len() ==> {
                    let before = #[trigger] library.feeds[f];
                    let row = after.feeds[f];
                    &&& before.feed.folder_id == Some(id) ==> row == (FeedRowView {
                        feed: FeedRecordView { folder_id: None, ..before.feed },
                        ..before
                    })
                    &&& before.feed.folder_id != Some(id) ==> row == before
                }
        }),
{
    let id = library.folders[place].folder.id;
    let after = without_folder(library, place);
    let rest = library.folders.remove(place);
    assert forall|k: int| 0 <= k < after.folders.len() implies (
    #[trigger] after.folders[k]).folder.id != id by {
        let i = if k < place {
            k
        } else {
            k + 1
        };
        assert(rest[k] == library.folders[i]);
        if i < place {
            assert(library.folders[i].folder.id != library.folders[place].folder.id);
        } else {
            assert(library.folders[place].folder.id != library.folders[i].folder.id);
        }
    }
    assert forall|i: int| 0 <= i < library.folders.len() && i != place implies ({
        let before = #[trigger] library.folders[i];
        let row = after.folders[if i < place {
            i
        } else {
            i - 1
        }];
        &&& before.folder.parent_id == Some(id) ==> row == (FolderRowView {
            folder: FolderView { parent_id: None, ..before.folder },
            ..before
        })
        &&& before.folder.parent_id != Some(id) ==> row == before
    }) by {
        let k = if i < place {
            i
        } else {
            i - 1
        };
        assert(rest[k] == library.folders[i]);
    }
}

/// An article of another feed.
pub open spec fn is_of_another(articles: Seq<ArticleRowView>, feed: Seq<char>) -> spec_fn(
    int,
) -> bool {
    |i: int| articles[i].feed_stable_id != feed
}

proof fn lemma_others(articles: Seq<ArticleRowView>, feed: Seq<char>, n: nat) -> (at: Seq<int>)
    requires
        n <= articles.len(),
    ensures
        are_the_places(at, n as int, is_of_another(articles, feed)),
        articles_without(articles.take(n as int), feed) == at.map_values(|i: int| articles[i]),
    decreases n,
{
    let wanted = is_of_another(articles, feed);
    if n == 0 {
        let at = Seq::<int>::empty();
        assert(articles_without(articles.take(0), feed) =~= at.map_values(
            |i: int| articles[i],
        ));
        at
    } else {
        let shorter = lemma_others(articles, feed, (n - 1) as nat);
        lemma_one_wanted(shorter, n - 1, wanted);
        assert(articles.take(n as int).drop_last() == articles.take(n - 1));
        assert(articles.take(n as int).last() == articles[n - 1]);
        if wanted(n - 1) {
            let at = shorter.push(n - 1);
            assert(articles_without(articles.take(n as int), feed) =~= at.map_values(
                |i: int| articles[i],
            ));
            at
        } else {
            shorter
        }
    }
}

/// A feed that was taken away is gone, and its articles with it, starred ones
/// too; the articles of other feeds stay in their order, and so do other feeds
/// and all folders.
pub proof fn law_feed_is_taken_away(library: LibraryView, place: int)
    requires
        library.wf(),
        0 <= place < library.feeds.len(),
    ensures
        ({
            let id = library.feeds[place].feed.stable_id;
            let after = without_feed(library, place);
            &&& after.folders == library.folders
            &&& after.feeds.len() == library.feeds.len() - 1
            &&& forall|f: int| 0 <= f < place ==> after.feeds[f] == #[trigger] library.feeds[f]
            &&& forall|f: int|
                place < f < library.feeds.len() ==> after.feeds[f - 1]
                    == #[trigger] library.feeds[f]
            &&& exists|at: Seq<int>|
                #[trigger] are_the_places(
                    at,
                    library.articles.len() as int,
                    is_of_another(library.articles, id),
                ) && after.articles == at.map_values(|i: int| library.articles[i])
        }),
{
    let id = library.feeds[place].feed.stable_id;
    let n = library.articles.len();
    let at = lemma_others(library.articles, id, n);
    assert(library.articles.take(n as int) == library.articles);
    assert(are_the_places(at, n as int, is_of_another(library.articles, id)));
}

/// A feed under a name of the reader's own is shown under it, and under its
/// publisher's once that is taken back; only its name changes.
pub proof fn law_own_name_is_shown(
    row: FeedRowView,
    name: Seq<char>,
    now: i64,
    later: i64,
)
    ensures
        ({
            let named = named_feed(row, Some(name), now);
            let unnamed = named_feed(named, None, later);
            &&& named.feed.custom_name == Some(name)
            &&& named.feed.display_name == name
            &&& named.modified_at == now
            &&& unnamed.feed.custom_name is None
            &&& unnamed.feed.display_name == row.feed.publisher_name
            &&& unnamed == (FeedRowView {
                feed: FeedRecordView {
                    custom_name: None,
                    display_name: row.feed.publisher_name,
                    ..row.feed
                },
                modified_at: later,
                ..row
            })
        }),
{
}

/// A feed that is moved lies in the folder that it is moved to, and nothing else
/// of it changes; moved back, it lies where it lay.
pub proof fn law_moved_feed_lies_there(
    row: FeedRowView,
    folder: Option<i64>,
    now: i64,
    later: i64,
)
    ensures
        moved_feed(row, folder, now).feed.folder_id == folder,
        moved_feed(moved_feed(row, folder, now), row.feed.folder_id, later) == (FeedRowView {
            modified_at: later,
            ..row
        }),
        moved_feed(row, folder, now).modified_at == now,
{
}

/// A feed that gets another icon has it, and nothing else of it changes.
pub proof fn law_icon_is_kept(row: FeedRowView, url: Seq<char>, now: i64)
    ensures
        iconed_feed(row, url, now).feed.favicon_url == Some(url),
        iconed_feed(row, url, now).feed == (FeedRecordView {
            favicon_url: iconed_feed(row, url, now).feed.favicon_url,
            ..row.feed
        }),
        iconed_feed(row, url, now).description == row.description,
        iconed_feed(row, url, now).icon_candidates == row.icon_candidates,
        iconed_feed(row, url, now).created_at == row.created_at,
{
}

/// A folder under another name has that name, and lies where it lay under its
/// id.
pub proof fn law_renamed_folder_has_the_name(row: FolderRowView, name: Seq<char>, now: i64)
    ensures
        renamed(row, name, now).folder.name == name,
        renamed(row, name, now).folder.id == row.folder.id,
        renamed(row, name, now).folder.stable_id == row.folder.stable_id,
        renamed(row, name, now).folder.parent_id == row.folder.parent_id,
        renamed(row, name, now).folder.sort_order == row.folder.sort_order,
        renamed(row, name, now).created_at == row.created_at,
        renamed(row, name, now).modified_at == now,
{
}

/// A folder inside `parent` has a name, but for the case of ASCII letters.
pub open spec fn has_sibling(
    folders: Seq<FolderRowView>,
    i: int,
    parent: Option<i64>,
    name: Seq<char>,
) -> bool {
    0 <= i < folders.len() && folders[i].folder.parent_id == parent && lower(
        folders[i].folder.name,
    ) == lower(name)
}

/// A folder that is there under its name is taken, and nothing changes. One that
/// is not there is added behind the others, with the name as it is given, where
/// it is asked for, and under an id that is larger than any other; it is added
/// wherever its name is neither empty nor too long, the folder round it is
/// there, and an id is left.
pub proof fn law_folder_is_made_once(
    folders: Seq<FolderRowView>,
    name: Seq<char>,
    parent: Option<i64>,
    now: i64,
)
    ensures
        ({
            let made = with_folder(folders, name, parent, now);
            let there = exists|i: int| #[trigger] has_sibling(folders, i, parent, name);
            &&& there ==> made is Ok && made->Ok_0.0 == folders && has_sibling(
                folders,
                made->Ok_0.1,
                parent,
                name,
            )
            &&& !there && made is Ok ==> {
                let row = made->Ok_0.0[folders.len() as int];
                &&& made->Ok_0.1 == folders.len()
                &&& made->Ok_0.0 == folders.push(row)
                &&& row.folder.name == name
                &&& row.folder.parent_id == parent
                &&& row.folder.sort_order == 0
                &&& row.created_at == now
                &&& row.modified_at == now
                &&& row.folder.id >= 1
                &&& forall|i: int|
                    0 <= i < folders.len() ==> (#[trigger] folders[i]).folder.id < row.folder.id
            }
            &&& !there && 1 <= name.len() <= 500 && (parent is Some ==> has_folder(
                folders,
                parent->0,
            )) && (forall|i: int|
                0 <= i < folders.len() ==> (#[trigger] folders[i]).folder.id < i64::MAX)
                ==> made is Ok
            &&& !there && (name.len() == 0 || name.len() > 500 || (parent is Some && !has_folder(
                folders,
                parent->0,
            ))) ==> made is Err
        }),
{
    lemma_sibling(folders, parent, name, 0);
    lemma_largest_id(folders);
    let made = with_folder(folders, name, parent, now);
    if sibling(folders, parent, name, 0) is Some {
        assert(has_sibling(folders, sibling(folders, parent, name, 0)->0, parent, name));
    } else {
        assert forall|i: int| !#[trigger] has_sibling(folders, i, parent, name) by {
            if 0 <= i < folders.len() {
                assert(!(folders[i].folder.parent_id == parent && lower(folders[i].folder.name)
                    == lower(name)));
            }
        }
        lemma_largest_is_one(folders);
    }
}

proof fn lemma_largest_is_one(folders: Seq<FolderRowView>)
    ensures
        crate::library::largest_id(folders) == 0 || exists|i: int|
            0 <= i < folders.len() && (#[trigger] folders[i]).folder.id
                == crate::library::largest_id(folders),
    decreases folders.len(),
{
    if folders.len() > 0 {
        let shorter = folders.drop_last();
        lemma_largest_is_one(shorter);
        let n = folders.len() - 1;
        if folders.last().folder.id > crate::library::largest_id(shorter) {
            assert(folders[n].folder.id == crate::library::largest_id(folders));
        } else if crate::library::largest_id(shorter) != 0 {
            let i = choose|i: int|
                0 <= i < shorter.len() && (#[trigger] shorter[i]).folder.id
                    == crate::library::largest_id(shorter);
            assert(folders[i] == shorter[i]);
        }
    }
}

/// A name is taken without the white space round it, where that leaves
/// something of no more than a thousand bytes.
pub proof fn law_names_are_trimmed(value: Seq<char>)
    ensures
        name_in(value) is Some ==> name_in(value) == Some(trim(value)),
        name_in(value) is Some <==> trim(value).len() > 0 && byte_len(trim(value)) <= 1000,
{
}

/// A new subscription holds what it is given: it is in no folder, has no name of
/// its own, and was never refreshed.
pub proof fn law_new_feed_is_bare(
    id: Seq<char>,
    normalized_url: Seq<char>,
    fetch_url: Seq<char>,
    site_url: Option<Seq<char>>,
    name: Seq<char>,
    format: FeedFormat,
    now: i64,
)
    ensures
        ({
            let row = new_feed(id, normalized_url, fetch_url, site_url, name, format, now);
            &&& row.feed.stable_id == id
            &&& row.feed.normalized_url == normalized_url
            &&& row.feed.fetch_url == fetch_url
            &&& row.feed.site_url == site_url
            &&& row.feed.publisher_name == name
            &&& row.feed.display_name == name
            &&& row.feed.custom_name is None
            &&& row.feed.format == format
            &&& row.feed.folder_id is None
            &&& row.feed.etag is None
            &&& row.feed.last_modified is None
            &&& row.feed.effective_fetch_url is None
            &&& row.feed.last_refresh_at is None
            &&& row.feed.last_refresh_attempt_at is None
            &&& row.feed.last_refresh_status is None
            &&& row.feed.last_http_status is None
            &&& row.feed.consecutive_failures == 0
            &&& row.last_refresh_error is None
            &&& row.created_at == now
            &&& row.modified_at == now
        }),
{
}

/// The feeds of a library are listed each once, by name without regard to the
/// case of ASCII letters.
pub proof fn law_feeds_are_listed_by_name(feeds: Seq<FeedRowView>)
    ensures
        ({
            let list = listed_feeds(feeds);
            &&& list.len() == feeds.len()
            &&& exists|at: Seq<int>|
                {
                    &&& at.len() == feeds.len()
                    &&& #[trigger] at.no_duplicates()
                    &&& forall|k: int|
                        0 <= k < at.len() ==> 0 <= #[trigger] at[k] < feeds.len() && list[k]
                            == feeds[at[k]].feed
                }
            &&& forall|k: int, m: int|
                0 <= k < m < list.len() ==> !text_before(
                    lower((#[trigger] list[m]).display_name),
                    lower((#[trigger] list[k]).display_name),
                )
        }),
{
    let keys = Seq::new(feeds.len(), |i: int| feed_key(feeds[i]));
    let at = in_key_order(keys);
    law_ordered_is_complete(keys, keys.len());
    law_ordered_is_sorted(keys, keys.len());
    let list = listed_feeds(feeds);
    assert(at.no_duplicates());
    assert forall|k: int, m: int| 0 <= k < m < list.len() implies !text_before(
        lower((#[trigger] list[m]).display_name),
        lower((#[trigger] list[k]).display_name),
    ) by {
        assert(!key_before(keys[at[m]], keys[at[k]]));
        crate::order::lemma_order(
            vstd::utf8::encode_utf8(keys[at[k]].name),
            vstd::utf8::encode_utf8(keys[at[m]].name),
        );
    }
}

/// Of two folders the first is to be listed before the second: those at the top
/// first, then those inside one folder together; inside it by rank, then by
/// name without regard to the case of ASCII letters.
pub open spec fn is_listed_before(a: FolderView, b: FolderView) -> bool {
    &&& b.parent_id is None ==> a.parent_id is None
    &&& a.parent_id is Some && b.parent_id is Some ==> a.parent_id->0 <= b.parent_id->0
    &&& a.parent_id == b.parent_id ==> a.sort_order <= b.sort_order
    &&& a.parent_id == b.parent_id && a.sort_order == b.sort_order ==> !text_before(
        lower(b.name),
        lower(a.name),
    )
}

/// The folders of a library are listed each once, and in order.
pub proof fn law_folders_are_listed_in_order(folders: Seq<FolderRowView>)
    ensures
        ({
            let list = listed_folders(folders);
            &&& list.len() == folders.len()
            &&& exists|at: Seq<int>|
                {
                    &&& at.len() == folders.len()
                    &&& #[trigger] at.no_duplicates()
                    &&& forall|k: int|
                        0 <= k < at.len() ==> 0 <= #[trigger] at[k] < folders.len() && list[k]
                            == folders[at[k]].folder
                }
            &&& forall|k: int, m: int|
                0 <= k < m < list.len() ==> is_listed_before(
                    #[trigger] list[k],
                    #[trigger] list[m],
                )
        }),
{
    let keys = Seq::new(folders.len(), |i: int| folder_key(folders[i]));
    let at = in_key_order(keys);
    law_ordered_is_complete(keys, keys.len());
    law_ordered_is_sorted(keys, keys.len());
    let list = listed_folders(folders);
    assert(at.no_duplicates());
    assert forall|k: int, m: int| 0 <= k < m < list.len() implies is_listed_before(
        #[trigger] list[k],
        #[trigger] list[m],
    ) by {
        assert(!key_before(keys[at[m]], keys[at[k]]));
        crate::order::lemma_order(
            vstd::utf8::encode_utf8(keys[at[k]].name),
            vstd::utf8::encode_utf8(keys[at[m]].name),
        );
    }
}

/// An unread article.
pub open spec fn is_unread(articles: Seq<ArticleRowView>) -> spec_fn(int) -> bool {
    |i: int| !articles[i].is_read
}

/// As many articles are told as unread as are not read.
pub proof fn law_unread_are_told(articles: Seq<ArticleRowView>)
    ensures
        exists|at: Seq<int>|
            #[trigger] are_the_places(
                at,
                articles.len() as int,
                is_unread(articles),
            ) && unread_among(articles) == at.len(),
{
    let at = lemma_unread(articles, articles.len());
}

proof fn lemma_unread(articles: Seq<ArticleRowView>, n: nat) -> (at: Seq<int>)
    requires
        n <= articles.len(),
    ensures
        are_the_places(at, n as int, is_unread(articles)),
        unread_among(articles.take(n as int)) == at.len(),
        n == articles.len() ==> unread_among(articles) == at.len(),
    decreases n,
{
    let wanted = is_unread(articles);
    if n == articles.len() {
        assert(articles.take(n as int) == articles);
    }
    if n == 0 {
        Seq::empty()
    } else {
        let shorter = lemma_unread(articles, (n - 1) as nat);
        lemma_one_wanted(shorter, n - 1, wanted);
        assert(articles.take(n as int).drop_last() == articles.take(n - 1));
        assert(articles.take(n as int).last() == articles[n - 1]);
        if wanted(n - 1) {
            shorter.push(n - 1)
        } else {
            shorter
        }
    }
}

} // verus!
