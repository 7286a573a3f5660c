//! What the library holds once a subscription list was taken in, and what is
//! listed of it.

use crate::identity::{feed_identity, normal_url};
use crate::laws::intake::is_taken_over;
use crate::library::{
    feed_at, feed_key, folder_at, folders_wf, has_feed, lemma_feed_at, lemma_folder_at,
    lemma_with_folder, listed_feeds, with_folder, LibraryView,
};
use crate::opml::OpmlFeedView;
use crate::records::{FeedRecordView, FeedRowView, FolderRowView, StorageErrorView};
use crate::order::text_before;
use crate::sorting::{
    in_key_order, key_before, law_ordered_is_complete, law_ordered_is_sorted, KeyView,
};
use crate::subscriptions::{
    law_import_keeps_what_is_there, lemma_with_list, lemma_with_listed, lemma_with_way,
    list_of, listings, way_to, with_list, with_way,
};
use crate::text::lower;
use vstd::prelude::*;

verus! {

/// The names of the folders from the top down to the folder `inner` are
/// `names`, but for the case of ASCII letters; nothing lies in a folder where
/// there are no names.
pub open spec fn is_way(
    folders: Seq<FolderRowView>,
    inner: Option<i64>,
    names: Seq<Seq<char>>,
) -> bool
    decreases names.len(),
{
    if names.len() == 0 {
        inner is None
    } else {
        inner is Some && exists|i: int|
            {
                &&& 0 <= i < folders.len()
                &&& (#[trigger] folders[i]).folder.id == inner->0
                &&& lower(folders[i].folder.name) == lower(names.last())
                &&& is_way(folders, folders[i].folder.parent_id, names.drop_last())
            }
    }
}

/// A way stays where folders are added.
proof fn lemma_way_stays(
    before: Seq<FolderRowView>,
    after: Seq<FolderRowView>,
    inner: Option<i64>,
    names: Seq<Seq<char>>,
)
    requires
        before.len() <= after.len(),
        after.take(before.len() as int) == before,
        is_way(before, inner, names),
    ensures
        is_way(after, inner, names),
    decreases names.len(),
{
    if names.len() > 0 {
        let i = choose|i: int|
            {
                &&& 0 <= i < before.len()
                &&& (#[trigger] before[i]).folder.id == inner->0
                &&& lower(before[i].folder.name) == lower(names.last())
                &&& is_way(before, before[i].folder.parent_id, names.drop_last())
            };
        assert(after.take(before.len() as int)[i] == after[i]);
        lemma_way_stays(before, after, before[i].folder.parent_id, names.drop_last());
        assert(after[i].folder.id == inner->0);
    }
}

/// The way that is made is the one that is asked for.
proof fn lemma_way_is_made(folders: Seq<FolderRowView>, names: Seq<Seq<char>>, now: i64)
    requires
        folders_wf(folders),
        with_way(folders, names, now) is Ok,
    ensures
        is_way(
            with_way(folders, names, now)->Ok_0.folders,
            with_way(folders, names, now)->Ok_0.inner,
            names,
        ),
    decreases names.len(),
{
    if names.len() > 0 {
        let outer = names.drop_last();
        let way = with_way(folders, outer, now)->Ok_0;
        lemma_way_is_made(folders, outer, now);
        lemma_with_way(folders, outer, now);
        lemma_with_folder(way.folders, names.last(), way.inner, now);
        let (after, place) = with_folder(way.folders, names.last(), way.inner, now)->Ok_0;
        lemma_way_stays(way.folders, after, way.inner, outer);
        assert(after[place].folder.id == with_way(folders, names, now)->Ok_0.inner->0);
    }
}

/// The subscription at `k` of a list is the feed with this id.
pub open spec fn names_feed(feeds: Seq<OpmlFeedView>, k: int, id: Seq<char>) -> bool {
    0 <= k < feeds.len() && feed_identity(feeds[k].feed_url) == id
}

/// The list last names folders for the feed at `k`.
pub open spec fn last_places(feeds: Seq<OpmlFeedView>, k: int, id: Seq<char>) -> bool {
    &&& names_feed(feeds, k, id)
    &&& feeds[k].folders.len() > 0
    &&& forall|m: int| k < m && #[trigger] names_feed(feeds, m, id) ==> feeds[m].folders.len() == 0
}

/// The list last names a site for the feed at `k`.
pub open spec fn last_sites(feeds: Seq<OpmlFeedView>, k: int, id: Seq<char>) -> bool {
    &&& names_feed(feeds, k, id)
    &&& feeds[k].site_url is Some
    &&& forall|m: int| k < m && #[trigger] names_feed(feeds, m, id) ==> feeds[m].site_url is None
}

/// The list last names the feed at `k`.
pub open spec fn last_names(feeds: Seq<OpmlFeedView>, k: int, id: Seq<char>) -> bool {
    names_feed(feeds, k, id) && forall|m: int| k < m ==> !#[trigger] names_feed(feeds, m, id)
}

/// The list first names the feed at `k`.
pub open spec fn first_names(feeds: Seq<OpmlFeedView>, k: int, id: Seq<char>) -> bool {
    names_feed(feeds, k, id) && forall|m: int| m < k ==> !#[trigger] names_feed(feeds, m, id)
}

/// A feed that was made for a subscription of a list.
pub open spec fn is_made_for(row: FeedRowView, feed: OpmlFeedView, now: i64) -> bool {
    &&& row.feed.stable_id == feed_identity(feed.feed_url)
    &&& row.feed.normalized_url == normal_url(feed.feed_url)
    &&& row.feed.publisher_name == feed.title
    &&& row.feed.custom_name == feed.custom_title
    &&& feed.custom_title is Some ==> row.feed.display_name == feed.custom_title->0
    &&& feed.custom_title is None ==> row.feed.display_name == feed.title
    &&& row.feed.format == feed.format
    &&& row.created_at == now
    &&& row.feed.last_refresh_at is None
    &&& row.feed.consecutive_failures == 0
    &&& row.feed.etag is None
    &&& row.feed.last_modified is None
}

/// A feed that was there, as a list leaves it: only its folder, its site and
/// where it is fetched from may be other ones.
pub open spec fn is_kept_feed(before: FeedRowView, row: FeedRowView) -> bool {
    row == (FeedRowView {
        feed: FeedRecordView {
            folder_id: row.feed.folder_id,
            site_url: row.feed.site_url,
            fetch_url: row.feed.fetch_url,
            ..before.feed
        },
        modified_at: row.modified_at,
        ..before
    })
}

/// A feed of the library that a list was taken into. It lies where the list says
/// last: the names of the folders from the top down to it are those of the
/// list; where the list names none, in the folder where it was, and a new one
/// in no folder. Its site is the one that the list gives last, else the one
/// that it had, and it is fetched from the address that the list gives last. A
/// feed that was there is otherwise as it was, and as it was in all where the
/// list does not name it; a new one has the title, the name of its own and the
/// format that the list gives it first.
pub open spec fn is_listed_right(
    library: LibraryView,
    feeds: Seq<OpmlFeedView>,
    now: i64,
    after: LibraryView,
    f: int,
) -> bool {
    let row = after.feeds[f];
    let id = row.feed.stable_id;
    let was = f < library.feeds.len();
    let old_folder = if was {
        library.feeds[f].feed.folder_id
    } else {
        None
    };
    let old_site = if was {
        library.feeds[f].feed.site_url
    } else {
        None
    };
    &&& forall|k: int| #[trigger]
        last_places(feeds, k, id) ==> is_way(after.folders, row.feed.folder_id, feeds[k].folders)
    &&& (forall|k: int| #[trigger] names_feed(feeds, k, id) ==> feeds[k].folders.len() == 0)
        ==> row.feed.folder_id == old_folder
    &&& forall|k: int| #[trigger]
        last_sites(feeds, k, id) ==> row.feed.site_url == feeds[k].site_url
    &&& (forall|k: int| #[trigger] names_feed(feeds, k, id) ==> feeds[k].site_url is None)
        ==> row.feed.site_url == old_site
    &&& forall|k: int| #[trigger]
        last_names(feeds, k, id) ==> row.feed.fetch_url == feeds[k].feed_url
    &&& was ==> is_kept_feed(library.feeds[f], row)
    &&& was && (forall|k: int| !#[trigger] names_feed(feeds, k, id)) ==> row == library.feeds[f]
    &&& !was ==> exists|k: int| #[trigger] names_feed(feeds, k, id)
    &&& !was ==> forall|k: int| #[trigger]
        first_names(feeds, k, id) ==> is_made_for(row, feeds[k], now)
}

proof fn lemma_listed_right(library: LibraryView, feeds: Seq<OpmlFeedView>, now: i64, f: int)
    requires
        library.wf(),
        with_list(library, feeds, now) is Ok,
        0 <= f < with_list(library, feeds, now)->Ok_0.library.feeds.len(),
    ensures
        is_listed_right(library, feeds, now, with_list(library, feeds, now)->Ok_0.library, f),
    decreases feeds.len(),
{
    let after = with_list(library, feeds, now)->Ok_0.library;
    let row = after.feeds[f];
    let id = row.feed.stable_id;
    if feeds.len() > 0 {
        let n = feeds.len() - 1;
        let shorter = feeds.drop_last();
        let last = feeds[n];
        let state = with_list(library, shorter, now)->Ok_0;
        let before = state.library;
        lemma_with_list(library, shorter, now);
        lemma_with_list(library, feeds, now);
        lemma_with_listed(state, last, now);
        law_import_keeps_what_is_there(library, shorter, now);
        lemma_with_way(before.folders, last.folders, now);
        lemma_way_is_made(before.folders, last.folders, now);
        let way = with_way(before.folders, last.folders, now)->Ok_0;
        let last_id = feed_identity(last.feed_url);
        lemma_feed_at(before.feeds, last_id, 0);
        assert forall|k: int, any: Seq<char>| 0 <= k < n implies #[trigger] names_feed(
            shorter,
            k,
            any,
        ) == names_feed(feeds, k, any) by {
            assert(shorter[k] == feeds[k]);
        }
        if f < before.feeds.len() {
            lemma_listed_right(library, shorter, now, f);
            let old_row = before.feeds[f];
            assert(old_row.feed.stable_id == id) by {
                if last_id != old_row.feed.stable_id {
                    assert(after.feeds[f] == old_row);
                }
            }
            if last_id == id {
                assert(names_feed(feeds, n, id));
                let at = feed_at(before.feeds, id, 0)->0;
                assert(at == f) by {
                    if at < f {
                        assert(before.feeds[at].feed.stable_id != before.feeds[f].feed.stable_id);
                    } else if f < at {
                        assert(before.feeds[f].feed.stable_id != before.feeds[at].feed.stable_id);
                    }
                }
            } else {
                assert(row == old_row);
            }
            assert(after.folders == way.folders);
            lemma_step(library, feeds, now, before, after, f);
        } else {
            assert(last_id == id);
            assert(f == before.feeds.len());
            assert(names_feed(feeds, n, id));
            assert forall|k: int| #[trigger] names_feed(feeds, k, id) implies k == n by {
                if 0 <= k < n {
                    assert(shorter[k] == feeds[k]);
                    assert(has_feed(before.feeds, feed_identity(shorter[k].feed_url)));
                }
            }
        }
    } else {
        assert(after == library);
    }
}

/// One subscription more, for a feed that is there.
proof fn lemma_step(
    library: LibraryView,
    feeds: Seq<OpmlFeedView>,
    now: i64,
    before: LibraryView,
    after: LibraryView,
    f: int,
)
    requires
        feeds.len() > 0,
        0 <= f < before.feeds.len(),
        f < after.feeds.len(),
        is_listed_right(library, feeds.drop_last(), now, before, f),
        after.feeds[f].feed.stable_id == before.feeds[f].feed.stable_id,
        before.folders.len() <= after.folders.len(),
        after.folders.take(before.folders.len() as int) == before.folders,
        feed_identity(feeds.last().feed_url) != before.feeds[f].feed.stable_id ==> after.feeds[f]
            == before.feeds[f],
        feed_identity(feeds.last().feed_url) == before.feeds[f].feed.stable_id ==> {
            let row = after.feeds[f];
            let old_row = before.feeds[f];
            let last = feeds.last();
            &&& is_kept_feed(old_row, row)
            &&& row.feed.fetch_url == last.feed_url
            &&& is_taken_over(last.site_url, old_row.feed.site_url, row.feed.site_url)
            &&& last.folders.len() > 0 ==> is_way(
                after.folders,
                row.feed.folder_id,
                last.folders,
            )
            &&& last.folders.len() == 0 ==> row.feed.folder_id == old_row.feed.folder_id
        },
    ensures
        is_listed_right(library, feeds, now, after, f),
{
    let n = feeds.len() - 1;
    let shorter = feeds.drop_last();
    let last = feeds[n];
    let row = after.feeds[f];
    let old_row = before.feeds[f];
    let id = row.feed.stable_id;
    assert forall|k: int| 0 <= k < n implies #[trigger] names_feed(shorter, k, id) == names_feed(
        feeds,
        k,
        id,
    ) by {
        assert(shorter[k] == feeds[k]);
    }
    assert forall|k: int| names_feed(shorter, k, id) implies #[trigger] names_feed(feeds, k, id) by {
        assert(shorter[k] == feeds[k]);
    }
    let named = feed_identity(last.feed_url) == id;
    assert(names_feed(feeds, n, id) == named);
    assert forall|k: int| #[trigger] last_places(feeds, k, id) implies is_way(
        after.folders,
        row.feed.folder_id,
        feeds[k].folders,
    ) by {
        if k < n {
            assert(shorter[k] == feeds[k]);
            assert(last_places(shorter, k, id)) by {
                assert(names_feed(shorter, k, id));
                assert forall|m: int| k < m && #[trigger] names_feed(
                    shorter,
                    m,
                    id,
                ) implies shorter[m].folders.len() == 0 by {
                    assert(names_feed(feeds, m, id));
                    assert(shorter[m] == feeds[m]);
                }
            }
            lemma_way_stays(
                before.folders,
                after.folders,
                old_row.feed.folder_id,
                shorter[k].folders,
            );
        }
    }
    assert forall|k: int| #[trigger] last_sites(feeds, k, id) implies row.feed.site_url
        == feeds[k].site_url by {
        if k < n {
            assert(shorter[k] == feeds[k]);
            assert(last_sites(shorter, k, id)) by {
                assert(names_feed(shorter, k, id));
                assert forall|m: int| k < m && #[trigger] names_feed(
                    shorter,
                    m,
                    id,
                ) implies shorter[m].site_url is None by {
                    assert(names_feed(feeds, m, id));
                    assert(shorter[m] == feeds[m]);
                }
            }
        }
    }
    if forall|k: int| #[trigger] names_feed(feeds, k, id) ==> feeds[k].folders.len() == 0 {
        assert forall|k: int| #[trigger] names_feed(shorter, k, id) implies shorter[k].folders.len()
            == 0 by {
            assert(names_feed(feeds, k, id));
            assert(shorter[k] == feeds[k]);
        }
    }
    if forall|k: int| #[trigger] names_feed(feeds, k, id) ==> feeds[k].site_url is None {
        assert forall|k: int| #[trigger] names_feed(
            shorter,
            k,
            id,
        ) implies shorter[k].site_url is None by {
            assert(names_feed(feeds, k, id));
            assert(shorter[k] == feeds[k]);
        }
    }
    assert forall|k: int| #[trigger] last_names(feeds, k, id) implies row.feed.fetch_url
        == feeds[k].feed_url by {
        if k < n {
            assert(shorter[k] == feeds[k]);
            assert(last_names(shorter, k, id)) by {
                assert(names_feed(shorter, k, id));
                assert forall|m: int| k < m implies !#[trigger] names_feed(shorter, m, id) by {
                    if names_feed(shorter, m, id) {
                        assert(names_feed(feeds, m, id));
                    }
                }
            }
        }
    }
    if f >= library.feeds.len() {
        let j = choose|k: int| #[trigger] names_feed(shorter, k, id);
        assert(names_feed(feeds, j, id));
        assert forall|k: int| #[trigger] first_names(feeds, k, id) implies is_made_for(
            row,
            feeds[k],
            now,
        ) by {
            assert(k <= j);
            assert(shorter[k] == feeds[k]);
            assert(first_names(shorter, k, id)) by {
                assert(names_feed(shorter, k, id));
                assert forall|m: int| m < k implies !#[trigger] names_feed(shorter, m, id) by {
                    if names_feed(shorter, m, id) {
                        assert(names_feed(feeds, m, id));
                    }
                }
            }
        }
    } else if forall|k: int| !#[trigger] names_feed(feeds, k, id) {
        assert forall|k: int| !#[trigger] names_feed(shorter, k, id) by {
            if names_feed(shorter, k, id) {
                assert(names_feed(feeds, k, id));
            }
        }
    }
}

/// Every feed of a library that a list was taken into is what the list makes of
/// it: the one that was there, and the new one.
pub proof fn law_listed_feeds_are_as_listed(
    library: LibraryView,
    feeds: Seq<OpmlFeedView>,
    now: i64,
    f: int,
)
    requires
        library.wf(),
        with_list(library, feeds, now) is Ok,
        0 <= f < with_list(library, feeds, now)->Ok_0.library.feeds.len(),
    ensures
        is_listed_right(library, feeds, now, with_list(library, feeds, now)->Ok_0.library, f),
{
    lemma_listed_right(library, feeds, now, f);
}

/// A subscription of a list that was not there before and that the list names
/// once lies in the folder that its folder names lead to, in no folder where it
/// has none, with the addresses, the title, the name of its own and the format
/// of the list.
pub proof fn law_new_feed_lies_in_its_folder(
    library: LibraryView,
    feeds: Seq<OpmlFeedView>,
    now: i64,
    k: int,
)
    requires
        library.wf(),
        with_list(library, feeds, now) is Ok,
        0 <= k < feeds.len(),
        !has_feed(library.feeds, feed_identity(feeds[k].feed_url)),
        forall|m: int|
            0 <= m < feeds.len() && m != k ==> feed_identity((#[trigger] feeds[m]).feed_url)
                != feed_identity(feeds[k].feed_url),
    ensures
        ({
            let after = with_list(library, feeds, now)->Ok_0.library;
            exists|f: int|
                {
                    &&& library.feeds.len() <= f < after.feeds.len()
                    &&& is_made_for(#[trigger] after.feeds[f], feeds[k], now)
                    &&& is_way(after.folders, after.feeds[f].feed.folder_id, feeds[k].folders)
                    &&& after.feeds[f].feed.fetch_url == feeds[k].feed_url
                    &&& after.feeds[f].feed.site_url == feeds[k].site_url
                }
        }),
{
    let after = with_list(library, feeds, now)->Ok_0.library;
    let id = feed_identity(feeds[k].feed_url);
    law_import_keeps_what_is_there(library, feeds, now);
    let f = choose|f: int|
        0 <= f < after.feeds.len() && (#[trigger] after.feeds[f]).feed.stable_id == id;
    if f < library.feeds.len() {
        assert(library.feeds[f].feed.stable_id == id);
    }
    lemma_listed_right(library, feeds, now, f);
    assert(names_feed(feeds, k, id));
    assert forall|m: int| #[trigger] names_feed(feeds, m, id) implies m == k by {
        assert(feed_identity(feeds[m].feed_url) == id);
    }
    assert(first_names(feeds, k, id));
    assert(last_names(feeds, k, id));
    if feeds[k].folders.len() > 0 {
        assert(last_places(feeds, k, id));
    }
    if feeds[k].site_url is Some {
        assert(last_sites(feeds, k, id));
    }
}

/// The names of the folders from the top down to the folder `inner` are
/// exactly `names`.
pub open spec fn is_exact_way(
    folders: Seq<FolderRowView>,
    inner: Option<i64>,
    names: Seq<Seq<char>>,
) -> bool
    decreases names.len(),
{
    if names.len() == 0 {
        inner is None
    } else {
        inner is Some && exists|i: int|
            {
                &&& 0 <= i < folders.len()
                &&& (#[trigger] folders[i]).folder.id == inner->0
                &&& folders[i].folder.name == names.last()
                &&& is_exact_way(folders, folders[i].folder.parent_id, names.drop_last())
            }
    }
}

/// What is listed of a feed: its name, its addresses, its format, the name of
/// its own, and the names of the folders from the top down to it.
pub open spec fn is_listed_as(
    folders: Seq<FolderRowView>,
    feed: FeedRecordView,
    listed: OpmlFeedView,
) -> bool {
    &&& listed.title == feed.display_name
    &&& listed.feed_url == feed.fetch_url
    &&& listed.site_url == feed.site_url
    &&& listed.format == feed.format
    &&& listed.custom_title == feed.custom_name
    &&& is_exact_way(folders, feed.folder_id, listed.folders)
}

/// The way to a folder is found, where it is not too long.
proof fn lemma_way_found(
    folders: Seq<FolderRowView>,
    inner: Option<i64>,
    names: Seq<Seq<char>>,
    left: nat,
)
    requires
        folders_wf(folders),
        is_exact_way(folders, inner, names),
        names.len() <= left,
    ensures
        way_to(folders, inner, left) == Ok::<Seq<Seq<char>>, StorageErrorView>(names),
    decreases names.len(),
{
    if names.len() > 0 {
        let i = choose|i: int|
            {
                &&& 0 <= i < folders.len()
                &&& (#[trigger] folders[i]).folder.id == inner->0
                &&& folders[i].folder.name == names.last()
                &&& is_exact_way(folders, folders[i].folder.parent_id, names.drop_last())
            };
        lemma_folder_at(folders, inner->0, 0);
        let k = folder_at(folders, inner->0, 0)->0;
        if k < i {
            assert(folders[k].folder.id != folders[i].folder.id);
        } else if i < k {
            assert(folders[i].folder.id != folders[k].folder.id);
        }
        lemma_way_found(
            folders,
            folders[i].folder.parent_id,
            names.drop_last(),
            (left - 1) as nat,
        );
        assert(names.drop_last().push(names.last()) =~= names);
    } else {
        assert(names =~= Seq::<Seq<char>>::empty());
    }
}

/// What is found is the way.
proof fn lemma_found_is_way(folders: Seq<FolderRowView>, inner: Option<i64>, left: nat)
    requires
        way_to(folders, inner, left) is Ok,
    ensures
        is_exact_way(folders, inner, way_to(folders, inner, left)->Ok_0),
        way_to(folders, inner, left)->Ok_0.len() <= left,
    decreases left,
{
    if inner is Some {
        lemma_folder_at(folders, inner->0, 0);
        let i = folder_at(folders, inner->0, 0)->0;
        let parent = folders[i].folder.parent_id;
        lemma_found_is_way(folders, parent, (left - 1) as nat);
        let outer = way_to(folders, parent, (left - 1) as nat)->Ok_0;
        let names = outer.push(folders[i].folder.name);
        assert(names.drop_last() =~= outer);
        assert(folders[i].folder.id == inner->0);
        assert(is_exact_way(folders, inner, names));
    }
}

proof fn lemma_listings(folders: Seq<FolderRowView>, feeds: Seq<FeedRecordView>)
    requires
        folders_wf(folders),
    ensures
        match listings(folders, feeds) {
            Ok(list) => {
                &&& list.len() == feeds.len()
                &&& forall|j: int|
                    0 <= j < feeds.len() ==> is_listed_as(folders, feeds[j], #[trigger] list[j])
                        && list[j].folders.len() <= 32
            },
            Err(_) => exists|j: int|
                0 <= j < feeds.len() && way_to(
                    folders,
                    (#[trigger] feeds[j]).folder_id,
                    32,
                ) is Err,
        },
    decreases feeds.len(),
{
    if feeds.len() > 0 {
        let shorter = feeds.drop_last();
        lemma_listings(folders, shorter);
        let n = feeds.len() - 1;
        match listings(folders, shorter) {
            Ok(before) => {
                if way_to(folders, feeds[n].folder_id, 32) is Ok {
                    lemma_found_is_way(folders, feeds[n].folder_id, 32);
                    let list = listings(folders, feeds)->Ok_0;
                    assert forall|j: int| 0 <= j < feeds.len() implies is_listed_as(
                        folders,
                        feeds[j],
                        #[trigger] list[j],
                    ) && list[j].folders.len() <= 32 by {
                        if j < n {
                            assert(list[j] == before[j]);
                            assert(shorter[j] == feeds[j]);
                        }
                    }
                }
            },
            Err(_) => {
                let j = choose|j: int|
                    0 <= j < shorter.len() && way_to(
                        folders,
                        (#[trigger] shorter[j]).folder_id,
                        32,
                    ) is Err;
                assert(way_to(folders, feeds[j].folder_id, 32) is Err);
            },
        }
    }
}

/// The list of a library has every feed of it once and nothing else, each with
/// its name, its addresses, its format, the name of its own and its folders,
/// ordered by name without regard to the case of ASCII letters. There is a list
/// where no feed lies in more than thirty-two folders.
pub proof fn law_export_lists_every_feed(library: LibraryView)
    requires
        library.wf(),
    ensures
        (forall|f: int|
            0 <= f < library.feeds.len() ==> exists|names: Seq<Seq<char>>|
                names.len() <= 32 && is_exact_way(
                    library.folders,
                    (#[trigger] library.feeds[f]).feed.folder_id,
                    names,
                )) ==> list_of(library) is Ok,
        match list_of(library) {
            Ok(list) => {
                &&& list.failures.len() == 0
                &&& list.feeds.len() == library.feeds.len()
                &&& exists|at: Seq<int>|
                    {
                        &&& at.len() == library.feeds.len()
                        &&& at.no_duplicates()
                        &&& forall|f: int|
                            0 <= f < library.feeds.len() ==> #[trigger] at.contains(f)
                        &&& forall|j: int|
                            0 <= j < at.len() ==> 0 <= #[trigger] at[j] < library.feeds.len()
                                && is_listed_as(
                                library.folders,
                                library.feeds[at[j]].feed,
                                list.feeds[j],
                            )
                    }
                &&& forall|i: int, j: int|
                    0 <= i < j < list.feeds.len() ==> !text_before(
                        lower((#[trigger] list.feeds[j]).title),
                        lower((#[trigger] list.feeds[i]).title),
                    )
            },
            Err(_) => true,
        },
{
    let feeds = library.feeds;
    let keys = Seq::new(feeds.len(), |i: int| feed_key(feeds[i]));
    let at = in_key_order(keys);
    law_ordered_is_complete(keys, keys.len());
    law_ordered_is_sorted(keys, keys.len());
    let listed = listed_feeds(feeds);
    lemma_listings(library.folders, listed);
    if forall|f: int|
        0 <= f < library.feeds.len() ==> exists|names: Seq<Seq<char>>|
            names.len() <= 32 && is_exact_way(
                library.folders,
                (#[trigger] library.feeds[f]).feed.folder_id,
                names,
            ) {
        if list_of(library) is Err {
            let j = choose|j: int|
                0 <= j < listed.len() && way_to(
                    library.folders,
                    (#[trigger] listed[j]).folder_id,
                    32,
                ) is Err;
            let f = at[j];
            assert(listed[j] == feeds[f].feed);
            let names = choose|names: Seq<Seq<char>>|
                names.len() <= 32 && is_exact_way(
                    library.folders,
                    feeds[f].feed.folder_id,
                    names,
                );
            lemma_way_found(library.folders, feeds[f].feed.folder_id, names, 32);
        }
    }
    if list_of(library) is Ok {
        let list = list_of(library)->Ok_0;
        assert forall|j: int| 0 <= j < at.len() implies 0 <= #[trigger] at[j] < feeds.len()
            && is_listed_as(library.folders, feeds[at[j]].feed, list.feeds[j]) by {
            assert(listed[j] == feeds[at[j]].feed);
        }
        assert forall|i: int, j: int| 0 <= i < j < list.feeds.len() implies !text_before(
            lower((#[trigger] list.feeds[j]).title),
            lower((#[trigger] list.feeds[i]).title),
        ) by {
            assert(listed[i] == feeds[at[i]].feed);
            assert(listed[j] == feeds[at[j]].feed);
            assert(is_listed_as(library.folders, feeds[at[i]].feed, list.feeds[i]));
            assert(is_listed_as(library.folders, feeds[at[j]].feed, list.feeds[j]));
            assert(!key_before(keys[at[j]], keys[at[i]]));
            lemma_names_in_order(keys[at[i]], keys[at[j]]);
        }
    }
}

proof fn lemma_names_in_order(a: KeyView, b: KeyView)
    requires
        !key_before(b, a),
        a.group == b.group,
        a.rank == b.rank,
    ensures
        !text_before(b.name, a.name),
{
    crate::order::lemma_order(vstd::utf8::encode_utf8(a.name), vstd::utf8::encode_utf8(b.name));
}

/// A folder name of a list.
pub open spec fn is_folder_name(feeds: Seq<OpmlFeedView>, name: Seq<char>) -> bool {
    exists|k: int|
        0 <= k < feeds.len() && (#[trigger] feeds[k]).folders.contains(name)
}

proof fn lemma_way_names(
    folders: Seq<FolderRowView>,
    names: Seq<Seq<char>>,
    now: i64,
    i: int,
)
    requires
        with_way(folders, names, now) is Ok,
        folders_wf(folders),
        folders.len() <= i < with_way(folders, names, now)->Ok_0.folders.len(),
    ensures
        names.contains(with_way(folders, names, now)->Ok_0.folders[i].folder.name),
    decreases names.len(),
{
    if names.len() > 0 {
        let outer = names.drop_last();
        let way = with_way(folders, outer, now)->Ok_0;
        lemma_with_way(folders, outer, now);
        let (after, place) = with_folder(way.folders, names.last(), way.inner, now)->Ok_0;
        if i < way.folders.len() {
            lemma_way_names(folders, outer, now, i);
            let j = choose|j: int| 0 <= j < outer.len() && outer[j] == way.folders[i].folder.name;
            assert(names[j] == outer[j]);
            assert(after[i] == way.folders[i]);
        } else {
            assert(names[names.len() - 1] == after[i].folder.name);
        }
    }
}

proof fn lemma_list_names(library: LibraryView, feeds: Seq<OpmlFeedView>, now: i64, i: int)
    requires
        library.wf(),
        with_list(library, feeds, now) is Ok,
        library.folders.len() <= i < with_list(library, feeds, now)->Ok_0.library.folders.len(),
    ensures
        is_folder_name(
            feeds,
            with_list(library, feeds, now)->Ok_0.library.folders[i].folder.name,
        ),
    decreases feeds.len(),
{
    if feeds.len() > 0 {
        let n = feeds.len() - 1;
        let shorter = feeds.drop_last();
        let before = with_list(library, shorter, now)->Ok_0.library;
        let after = with_list(library, feeds, now)->Ok_0.library;
        lemma_with_list(library, shorter, now);
        lemma_with_way(before.folders, feeds[n].folders, now);
        let way = with_way(before.folders, feeds[n].folders, now)->Ok_0;
        assert(after.folders == way.folders);
        if i < before.folders.len() {
            lemma_list_names(library, shorter, now, i);
            assert(way.folders.take(before.folders.len() as int)[i] == way.folders[i]);
            let k = choose|k: int|
                0 <= k < shorter.len() && (#[trigger] shorter[k]).folders.contains(
                    before.folders[i].folder.name,
                );
            assert(feeds[k] == shorter[k]);
        } else {
            lemma_way_names(before.folders, feeds[n].folders, now, i);
        }
    }
}

/// One spelling for each name of a folder.
pub open spec fn spells_alike(feeds: Seq<OpmlFeedView>) -> bool {
    forall|a: Seq<char>, b: Seq<char>|
        #[trigger] is_folder_name(feeds, a) && #[trigger] is_folder_name(feeds, b) && lower(a)
            == lower(b) ==> a == b
}

proof fn lemma_way_is_exact(
    folders: Seq<FolderRowView>,
    feeds: Seq<OpmlFeedView>,
    inner: Option<i64>,
    names: Seq<Seq<char>>,
)
    requires
        is_way(folders, inner, names),
        spells_alike(feeds),
        forall|i: int|
            0 <= i < folders.len() ==> is_folder_name(feeds, (#[trigger] folders[i]).folder.name),
        forall|j: int| 0 <= j < names.len() ==> is_folder_name(feeds, #[trigger] names[j]),
    ensures
        is_exact_way(folders, inner, names),
    decreases names.len(),
{
    if names.len() > 0 {
        let i = choose|i: int|
            {
                &&& 0 <= i < folders.len()
                &&& (#[trigger] folders[i]).folder.id == inner->0
                &&& lower(folders[i].folder.name) == lower(names.last())
                &&& is_way(folders, folders[i].folder.parent_id, names.drop_last())
            };
        let outer = names.drop_last();
        assert forall|j: int| 0 <= j < outer.len() implies is_folder_name(
            feeds,
            #[trigger] outer[j],
        ) by {
            assert(outer[j] == names[j]);
        }
        lemma_way_is_exact(folders, feeds, folders[i].folder.parent_id, outer);
        assert(is_folder_name(feeds, names[names.len() - 1]));
        assert(folders[i].folder.name == names.last());
    }
}

/// A subscription is listed as another list had it: under the name of its own,
/// where it has one, with the same addresses, format and folders.
pub open spec fn is_given_back(had: OpmlFeedView, listed: OpmlFeedView) -> bool {
    &&& had.custom_title is Some ==> listed.title == had.custom_title->0
    &&& had.custom_title is None ==> listed.title == had.title
    &&& listed.feed_url == had.feed_url
    &&& listed.site_url == had.site_url
    &&& listed.folders == had.folders
    &&& listed.format == had.format
    &&& listed.custom_title == had.custom_title
}

/// A list that is taken into an empty library is given back by its list: with
/// all subscriptions and no other, each with its addresses, its names and its
/// folders. The list names each feed once, spells a folder in one way, and
/// nests folders no deeper than thirty-two.
pub proof fn law_list_is_given_back(
    library: LibraryView,
    feeds: Seq<OpmlFeedView>,
    now: i64,
)
    requires
        library.wf(),
        library.folders.len() == 0,
        library.feeds.len() == 0,
        with_list(library, feeds, now) is Ok,
        spells_alike(feeds),
        forall|k: int| 0 <= k < feeds.len() ==> (#[trigger] feeds[k]).folders.len() <= 32,
        forall|k: int, m: int|
            0 <= k < m < feeds.len() ==> feed_identity((#[trigger] feeds[k]).feed_url)
                != feed_identity((#[trigger] feeds[m]).feed_url),
    ensures
        ({
            let after = with_list(library, feeds, now)->Ok_0.library;
            &&& list_of(after) is Ok
            &&& list_of(after)->Ok_0.feeds.len() == feeds.len()
            &&& forall|k: int|
                0 <= k < feeds.len() ==> exists|j: int|
                    0 <= j < feeds.len() && is_given_back(
                        #[trigger] feeds[k],
                        #[trigger] list_of(after)->Ok_0.feeds[j],
                    )
            &&& forall|j: int|
                0 <= j < feeds.len() ==> exists|k: int|
                    0 <= k < feeds.len() && is_given_back(
                        #[trigger] feeds[k],
                        #[trigger] list_of(after)->Ok_0.feeds[j],
                    )
        }),
{
    let after = with_list(library, feeds, now)->Ok_0.library;
    lemma_with_list(library, feeds, now);
    lemma_rows(library, feeds, now);
    law_import_keeps_what_is_there(library, feeds, now);
    lemma_all_given_back(after, feeds);
    lemma_as_many(library, feeds, now);
    law_export_lists_every_feed(after);
}

proof fn lemma_rows(library: LibraryView, feeds: Seq<OpmlFeedView>, now: i64)
    requires
        library.wf(),
        library.folders.len() == 0,
        library.feeds.len() == 0,
        with_list(library, feeds, now) is Ok,
        spells_alike(feeds),
        forall|k: int, m: int|
            0 <= k < m < feeds.len() ==> feed_identity((#[trigger] feeds[k]).feed_url)
                != feed_identity((#[trigger] feeds[m]).feed_url),
    ensures
        ({
            let after = with_list(library, feeds, now)->Ok_0.library;
            forall|f: int|
                0 <= f < after.feeds.len() ==> has_row_of(after, #[trigger] after.feeds[f], feeds)
        }),
{
    let after = with_list(library, feeds, now)->Ok_0.library;
    lemma_with_list(library, feeds, now);
    assert forall|i: int| 0 <= i < after.folders.len() implies is_folder_name(
        feeds,
        (#[trigger] after.folders[i]).folder.name,
    ) by {
        lemma_list_names(library, feeds, now, i);
    }
    assert forall|f: int| 0 <= f < after.feeds.len() implies has_row_of(
        after,
        #[trigger] after.feeds[f],
        feeds,
    ) by {
        lemma_listed_right(library, feeds, now, f);
        let id = after.feeds[f].feed.stable_id;
        let k = choose|k: int| #[trigger] names_feed(feeds, k, id);
        lemma_row_of_only(library, feeds, now, f, k);
        assert forall|j: int| 0 <= j < feeds[k].folders.len() implies is_folder_name(
            feeds,
            #[trigger] feeds[k].folders[j],
        ) by {
            assert(feeds[k].folders.contains(feeds[k].folders[j]));
        }
        lemma_way_is_exact(
            after.folders,
            feeds,
            after.feeds[f].feed.folder_id,
            feeds[k].folders,
        );
        assert(is_row_of(after.folders, after.feeds[f], feeds[k]));
    }
}

/// A feed is one that a list names.
spec fn has_row_of(library: LibraryView, row: FeedRowView, feeds: Seq<OpmlFeedView>) -> bool {
    exists|k: int|
        0 <= k < feeds.len() && is_row_of(library.folders, row, #[trigger] feeds[k])
}

proof fn lemma_all_given_back(after: LibraryView, feeds: Seq<OpmlFeedView>)
    requires
        after.wf(),
        forall|k: int| 0 <= k < feeds.len() ==> (#[trigger] feeds[k]).folders.len() <= 32,
        forall|k: int, m: int|
            0 <= k < m < feeds.len() ==> feed_identity((#[trigger] feeds[k]).feed_url)
                != feed_identity((#[trigger] feeds[m]).feed_url),
        forall|f: int|
            0 <= f < after.feeds.len() ==> has_row_of(after, #[trigger] after.feeds[f], feeds),
        forall|k: int|
            0 <= k < feeds.len() ==> has_feed(
                after.feeds,
                feed_identity((#[trigger] feeds[k]).feed_url),
            ),
    ensures
        list_of(after) is Ok,
        ({
            let list = list_of(after)->Ok_0;
            &&& forall|k: int|
                0 <= k < feeds.len() ==> exists|j: int|
                    0 <= j < list.feeds.len() && is_given_back(
                        #[trigger] feeds[k],
                        #[trigger] list.feeds[j],
                    )
            &&& forall|j: int|
                0 <= j < list.feeds.len() ==> exists|k: int|
                    0 <= k < feeds.len() && is_given_back(
                        #[trigger] feeds[k],
                        #[trigger] list.feeds[j],
                    )
        }),
{
    assert forall|f: int| 0 <= f < after.feeds.len() implies exists|names: Seq<Seq<char>>|
        names.len() <= 32 && is_exact_way(
            after.folders,
            (#[trigger] after.feeds[f]).feed.folder_id,
            names,
        ) by {
        assert(has_row_of(after, after.feeds[f], feeds));
        let k = choose|k: int|
            0 <= k < feeds.len() && is_row_of(
                after.folders,
                after.feeds[f],
                #[trigger] feeds[k],
            );
        assert(feeds[k].folders.len() <= 32);
    }
    law_export_lists_every_feed(after);
    let list = list_of(after)->Ok_0;
    let at = choose|at: Seq<int>|
        {
            &&& at.len() == after.feeds.len()
            &&& at.no_duplicates()
            &&& forall|f: int| 0 <= f < after.feeds.len() ==> #[trigger] at.contains(f)
            &&& forall|j: int|
                0 <= j < at.len() ==> 0 <= #[trigger] at[j] < after.feeds.len() && is_listed_as(
                    after.folders,
                    after.feeds[at[j]].feed,
                    list.feeds[j],
                )
        };
    assert forall|j: int| 0 <= j < list.feeds.len() implies exists|k: int|
        0 <= k < feeds.len() && is_given_back(#[trigger] feeds[k], #[trigger] list.feeds[j]) by {
        let f = at[j];
        assert(has_row_of(after, after.feeds[f], feeds));
        let k = choose|k: int|
            0 <= k < feeds.len() && is_row_of(
                after.folders,
                after.feeds[f],
                #[trigger] feeds[k],
            );
        lemma_given_back(after.folders, after.feeds[f], feeds[k], list.feeds[j]);
    }
    assert forall|k: int| 0 <= k < feeds.len() implies exists|j: int|
        0 <= j < list.feeds.len() && is_given_back(
            #[trigger] feeds[k],
            #[trigger] list.feeds[j],
        ) by {
        let id = feed_identity(feeds[k].feed_url);
        assert(has_feed(after.feeds, id));
        let f = choose|f: int|
            0 <= f < after.feeds.len() && (#[trigger] after.feeds[f]).feed.stable_id == id;
        assert(has_row_of(after, after.feeds[f], feeds));
        let m = choose|m: int|
            0 <= m < feeds.len() && is_row_of(
                after.folders,
                after.feeds[f],
                #[trigger] feeds[m],
            );
        if m < k {
            assert(feed_identity(feeds[m].feed_url) != feed_identity(feeds[k].feed_url));
        } else if k < m {
            assert(feed_identity(feeds[k].feed_url) != feed_identity(feeds[m].feed_url));
        }
        assert(at.contains(f));
        let j = choose|j: int| 0 <= j < at.len() && at[j] == f;
        assert(at[j] == f);
        lemma_given_back(after.folders, after.feeds[f], feeds[k], list.feeds[j]);
    }
}

/// A feed is the one that a subscription names, and lies in its folders.
spec fn is_row_of(folders: Seq<FolderRowView>, row: FeedRowView, feed: OpmlFeedView) -> bool {
    &&& row.feed.stable_id == feed_identity(feed.feed_url)
    &&& row.feed.custom_name == feed.custom_title
    &&& feed.custom_title is Some ==> row.feed.display_name == feed.custom_title->0
    &&& feed.custom_title is None ==> row.feed.display_name == feed.title
    &&& row.feed.fetch_url == feed.feed_url
    &&& row.feed.site_url == feed.site_url
    &&& row.feed.format == feed.format
    &&& is_exact_way(folders, row.feed.folder_id, feed.folders)
}

proof fn lemma_exact_ways_agree(
    folders: Seq<FolderRowView>,
    inner: Option<i64>,
    a: Seq<Seq<char>>,
    b: Seq<Seq<char>>,
)
    requires
        folders_wf(folders),
        is_exact_way(folders, inner, a),
        is_exact_way(folders, inner, b),
    ensures
        a == b,
{
    let left = if a.len() < b.len() {
        b.len()
    } else {
        a.len()
    };
    lemma_way_found(folders, inner, a, left);
    lemma_way_found(folders, inner, b, left);
}

proof fn lemma_given_back(
    folders: Seq<FolderRowView>,
    row: FeedRowView,
    had: OpmlFeedView,
    listed: OpmlFeedView,
)
    requires
        folders_wf(folders),
        is_row_of(folders, row, had),
        is_listed_as(folders, row.feed, listed),
    ensures
        is_given_back(had, listed),
{
    lemma_exact_ways_agree(folders, row.feed.folder_id, had.folders, listed.folders);
}

proof fn lemma_row_of_only(
    library: LibraryView,
    feeds: Seq<OpmlFeedView>,
    now: i64,
    f: int,
    k: int,
)
    requires
        library.wf(),
        library.feeds.len() == 0,
        with_list(library, feeds, now) is Ok,
        0 <= f < with_list(library, feeds, now)->Ok_0.library.feeds.len(),
        names_feed(feeds, k, with_list(library, feeds, now)->Ok_0.library.feeds[f].feed.stable_id),
        forall|i: int, m: int|
            0 <= i < m < feeds.len() ==> feed_identity((#[trigger] feeds[i]).feed_url)
                != feed_identity((#[trigger] feeds[m]).feed_url),
    ensures
        ({
            let after = with_list(library, feeds, now)->Ok_0.library;
            let row = after.feeds[f];
            &&& is_made_for(row, feeds[k], now)
            &&& is_way(after.folders, row.feed.folder_id, feeds[k].folders)
            &&& row.feed.fetch_url == feeds[k].feed_url
            &&& row.feed.site_url == feeds[k].site_url
        }),
{
    let after = with_list(library, feeds, now)->Ok_0.library;
    let id = after.feeds[f].feed.stable_id;
    lemma_listed_right(library, feeds, now, f);
    assert forall|m: int| #[trigger] names_feed(feeds, m, id) implies m == k by {
        if m < k {
            assert(feed_identity(feeds[m].feed_url) != feed_identity(feeds[k].feed_url));
        } else if k < m {
            assert(feed_identity(feeds[k].feed_url) != feed_identity(feeds[m].feed_url));
        }
    }
    assert(first_names(feeds, k, id));
    assert(last_names(feeds, k, id));
    if feeds[k].folders.len() > 0 {
        assert(last_places(feeds, k, id));
    }
    if feeds[k].site_url is Some {
        assert(last_sites(feeds, k, id));
    }
}

/// A list of different feeds makes as many.
proof fn lemma_as_many(library: LibraryView, feeds: Seq<OpmlFeedView>, now: i64)
    requires
        library.wf(),
        library.feeds.len() == 0,
        with_list(library, feeds, now) is Ok,
        forall|k: int, m: int|
            0 <= k < m < feeds.len() ==> feed_identity((#[trigger] feeds[k]).feed_url)
                != feed_identity((#[trigger] feeds[m]).feed_url),
    ensures
        with_list(library, feeds, now)->Ok_0.library.feeds.len() == feeds.len(),
    decreases feeds.len(),
{
    if feeds.len() > 0 {
        let n = feeds.len() - 1;
        let shorter = feeds.drop_last();
        assert forall|k: int, m: int| 0 <= k < m < shorter.len() implies feed_identity(
            (#[trigger] shorter[k]).feed_url,
        ) != feed_identity((#[trigger] shorter[m]).feed_url) by {
            assert(shorter[k] == feeds[k] && shorter[m] == feeds[m]);
        }
        lemma_as_many(library, shorter, now);
        lemma_with_list(library, shorter, now);
        let before = with_list(library, shorter, now)->Ok_0.library;
        let id = feed_identity(feeds[n].feed_url);
        lemma_feed_at(before.feeds, id, 0);
        if feed_at(before.feeds, id, 0) is Some {
            let f = feed_at(before.feeds, id, 0)->0;
            lemma_listed_right(library, shorter, now, f);
            let k = choose|k: int| #[trigger] names_feed(shorter, k, id);
            assert(shorter[k] == feeds[k]);
            assert(feed_identity(feeds[k].feed_url) != feed_identity(feeds[n].feed_url));
        }
    }
}

/// As many folders are told as made as the library has more afterwards, and as
/// many feeds as added.
pub proof fn law_import_counts_what_it_adds(
    library: LibraryView,
    feeds: Seq<OpmlFeedView>,
    now: i64,
)
    requires
        library.wf(),
        with_list(library, feeds, now) is Ok,
    ensures
        ({
            let state = with_list(library, feeds, now)->Ok_0;
            &&& state.library.folders.len() == library.folders.len() + state.folders_made
            &&& state.library.feeds.len() == library.feeds.len() + state.added
            &&& state.added + state.known == feeds.len()
        }),
    decreases feeds.len(),
{
    law_import_keeps_what_is_there(library, feeds, now);
    if feeds.len() > 0 {
        let shorter = feeds.drop_last();
        law_import_counts_what_it_adds(library, shorter, now);
        let before = with_list(library, shorter, now)->Ok_0;
        lemma_with_list(library, shorter, now);
        lemma_way_counts(before.library.folders, feeds.last().folders, now);
    }
}

proof fn lemma_way_counts(folders: Seq<FolderRowView>, names: Seq<Seq<char>>, now: i64)
    requires
        folders_wf(folders),
        with_way(folders, names, now) is Ok,
    ensures
        with_way(folders, names, now)->Ok_0.folders.len() == folders.len() + with_way(
            folders,
            names,
            now,
        )->Ok_0.made,
    decreases names.len(),
{
    if names.len() > 0 {
        lemma_way_counts(folders, names.drop_last(), now);
    }
}

} // verus!
