//! What the desktop is told: how much is unread, and in which folders.

use crate::articles::{folder_of, unread_meant};
use crate::library::{Library, LibraryView};
use crate::records::{unread_views, ArticleScope, ScopeView, UnreadView};
use crate::retention::{unread_folders, unread_key, unread_summary};
use crate::sorting::{in_key_order, law_ordered_is_complete, law_ordered_is_sorted};
use vstd::prelude::*;

verus! {

/// The name under which the desktop finds the reader.
pub const SERVICE_NAME: &'static str = "io.github.feedlizard.FeedLizard.Integration";

/// Where the desktop finds the reader's object.
pub const OBJECT_PATH: &'static str = "/io/github/feedlizard/FeedLizard/Integration";

/// What the object can do.
pub const INTERFACE_NAME: &'static str = "io.github.feedlizard.FeedLizard.Integration1";

/// How many folders are told at most.
pub const SUMMARY_LIMIT: usize = 5;

/// A folder, and how much in it is unread.
#[derive(Debug, Clone, PartialEq, Eq)]
pub struct UnreadFolder {
    pub id: i64,
    pub name: String,
    pub unread: i64,
}

impl View for UnreadFolder {
    type V = UnreadView;

    open spec fn view(&self) -> UnreadView {
        UnreadView { folder_id: self.id, folder_name: self.name@, unread: self.unread }
    }
}

/// What the folders of a list hold.
pub open spec fn told_folders(list: Seq<UnreadFolder>) -> Seq<UnreadView> {
    Seq::new(list.len(), |i: int| list[i]@)
}

/// What the desktop is told.
#[derive(Debug, Clone, PartialEq, Eq)]
pub struct IntegrationState {
    pub protocol_version: u16,
    pub total_unread: i64,
    pub folders: Vec<UnreadFolder>,
}

/// What the desktop asks for.
#[derive(Debug, Clone, Copy, PartialEq, Eq, Structural)]
pub enum IntegrationAction {
    OpenFeedLizard,
    OpenUnread,
    Refresh,
}

/// Why the desktop is told nothing.
#[derive(Debug, Clone, PartialEq, Eq)]
pub enum IntegrationError {
    Storage(String),
    Service(String),
}

impl IntegrationError {
    /// The message for a reader.
    pub fn message(&self) -> (r: String)
        ensures
            r@ == match self {
                IntegrationError::Storage(text) => "integration storage failed: "@ + text@,
                IntegrationError::Service(text) => "integration service failed: "@ + text@,
            },
    {
        match self {
            IntegrationError::Storage(text) => {
                let mut out = "integration storage failed: ".to_owned();
                out.append(text.as_str());
                out
            },
            IntegrationError::Service(text) => {
                let mut out = "integration service failed: ".to_owned();
                out.append(text.as_str());
                out
            },
        }
    }
}

/// What the desktop is told of `library`: the number of unread articles, and
/// the folders with the most of them. Addresses, titles and texts of feeds and
/// articles are no part of it.
pub fn read_state(library: &Library) -> (r: IntegrationState)
    requires
        library@.articles.len() <= i64::MAX,
    ensures
        r.protocol_version == 1,
        r.total_unread == unread_meant(library@, ScopeView::Unread, library@.articles.len()),
        told_folders(r.folders@) == unread_summary(library@, SUMMARY_LIMIT),
{
    let total: usize = library.unread_count(ArticleScope::Unread);
    proof {
        lemma_unread_meant(library@, ScopeView::Unread, library@.articles.len());
    }
    let items = library.unread_folder_summary(SUMMARY_LIMIT);
    let mut folders: Vec<UnreadFolder> = Vec::new();
    let mut i: usize = 0;
    while i < items.len()
        invariant
            i <= items@.len(),
            folders@.len() == i,
            forall|j: int| 0 <= j < i ==> #[trigger] folders@[j]@ == items@[j]@,
        decreases items@.len() - i,
    {
        folders.push(
            UnreadFolder {
                id: items[i].folder_id,
                name: items[i].folder_name.clone(),
                unread: items[i].unread,
            },
        );
        i += 1;
    }
    assert(told_folders(folders@) == unread_views(items@));
    IntegrationState { protocol_version: 1, total_unread: total as i64, folders }
}

proof fn lemma_unread_meant(library: LibraryView, scope: ScopeView, count: nat)
    ensures
        unread_meant(library, scope, count) <= count,
    decreases count,
{
    if count > 0 {
        lemma_unread_meant(library, scope, (count - 1) as nat);
    }
}

proof fn lemma_unread_folders(library: LibraryView, count: nat)
    requires
        library.articles.len() <= i64::MAX,
    ensures
        forall|i: int|
            0 <= i < unread_folders(library, count).len() ==> (
            #[trigger] unread_folders(library, count)[i]).unread > 0,
    decreases count,
{
    if count > 0 {
        lemma_unread_folders(library, (count - 1) as nat);
        lemma_unread_meant(
            library,
            ScopeView::Folder(library.folders[count - 1].folder.id),
            library.articles.len(),
        );
        let before = unread_folders(library, (count - 1) as nat);
        let all = unread_folders(library, count);
        assert forall|i: int| 0 <= i < all.len() implies (#[trigger] all[i]).unread > 0 by {
            if i < before.len() {
                assert(all[i] == before[i]);
            }
        }
    }
}

/// The desktop is told of five folders at most, each with something unread, and
/// those with more come first.
pub proof fn law_summary_is_bounded_and_ordered(library: LibraryView)
    requires
        library.articles.len() <= i64::MAX,
    ensures
        unread_summary(library, SUMMARY_LIMIT).len() <= SUMMARY_LIMIT,
        forall|i: int|
            0 <= i < unread_summary(library, SUMMARY_LIMIT).len() ==> (
            #[trigger] unread_summary(library, SUMMARY_LIMIT)[i]).unread > 0,
        forall|i: int, j: int|
            0 <= i < j < unread_summary(library, SUMMARY_LIMIT).len() ==> (
            #[trigger] unread_summary(library, SUMMARY_LIMIT)[i]).unread >= (
            #[trigger] unread_summary(library, SUMMARY_LIMIT)[j]).unread,
{
    let all = unread_folders(library, library.folders.len());
    let keys = Seq::new(all.len(), |i: int| unread_key(all[i]));
    let order = in_key_order(keys);
    let told = unread_summary(library, SUMMARY_LIMIT);
    law_ordered_is_complete(keys, keys.len());
    law_ordered_is_sorted(keys, keys.len());
    lemma_unread_folders(library, library.folders.len());
    assert forall|i: int| 0 <= i < told.len() implies (#[trigger] told[i]).unread > 0 by {
        assert(0 <= order[i] < keys.len());
        assert(told[i] == all[order[i]]);
    }
    assert forall|i: int, j: int| 0 <= i < j < told.len() implies (#[trigger] told[i]).unread >= (
    #[trigger] told[j]).unread by {
        assert(!crate::sorting::key_before(keys[order[j]], keys[order[i]]));
        assert(told[i] == all[order[i]] && told[j] == all[order[j]]);
        assert(told[i].unread > 0 && told[j].unread > 0);
    }
}

/// What the folders of a list hold together.
pub open spec fn told_unread(list: Seq<UnreadView>) -> int
    decreases list.len(),
{
    if list.len() == 0 {
        0
    } else {
        told_unread(list.drop_last()) + list.last().unread
    }
}

/// How many of the first `count` articles are unread and in one of some folders.
spec fn unread_in_folders(library: LibraryView, ids: Seq<i64>, count: nat) -> int
    decreases ids.len(),
{
    if ids.len() == 0 {
        0
    } else {
        unread_in_folders(library, ids.drop_last(), count) + unread_meant(
            library,
            ScopeView::Folder(ids.last()),
            count,
        )
    }
}

/// One article more is in one of the folders at most.
proof fn lemma_one_more_article(library: LibraryView, ids: Seq<i64>, count: nat)
    requires
        0 < count <= library.articles.len(),
        ids.no_duplicates(),
    ensures
        ({
            let row = library.articles[count - 1];
            let before = unread_in_folders(library, ids, (count - 1) as nat);
            let after = unread_in_folders(library, ids, count);
            &&& after <= before + (if row.is_read {
                0int
            } else {
                1int
            })
            &&& (forall|i: int|
                0 <= i < ids.len() ==> folder_of(library, row.feed_stable_id) != Some(
                    #[trigger] ids[i],
                )) ==> after == before
        }),
    decreases ids.len(),
{
    if ids.len() > 0 {
        let row = library.articles[count - 1];
        let shorter = ids.drop_last();
        let last = ids[ids.len() - 1];
        assert(last == ids.last());
        lemma_one_more_article(library, shorter, count);
        assert forall|i: int| 0 <= i < shorter.len() implies #[trigger] shorter[i] != last by {
            assert(shorter[i] == ids[i]);
        }
        if forall|i: int|
            0 <= i < ids.len() ==> folder_of(library, row.feed_stable_id) != Some(
                #[trigger] ids[i],
            ) {
            assert forall|i: int| 0 <= i < shorter.len() implies folder_of(
                library,
                row.feed_stable_id,
            ) != Some(#[trigger] shorter[i]) by {
                assert(shorter[i] == ids[i]);
            }
        }
    }
}

proof fn lemma_unread_in_folders(library: LibraryView, ids: Seq<i64>, count: nat)
    requires
        count <= library.articles.len(),
        ids.no_duplicates(),
    ensures
        unread_in_folders(library, ids, count) <= unread_meant(library, ScopeView::Unread, count),
    decreases count,
{
    if count == 0 {
        lemma_nothing_unread(library, ids);
    } else {
        lemma_unread_in_folders(library, ids, (count - 1) as nat);
        lemma_one_more_article(library, ids, count);
    }
}

proof fn lemma_nothing_unread(library: LibraryView, ids: Seq<i64>)
    ensures
        unread_in_folders(library, ids, 0) == 0,
    decreases ids.len(),
{
    if ids.len() > 0 {
        lemma_nothing_unread(library, ids.drop_last());
    }
}

/// The folders with something unread are folders of the library, each once, with
/// what is unread in them.
proof fn lemma_unread_ids(library: LibraryView, count: nat)
    requires
        library.articles.len() <= i64::MAX,
        library.wf(),
        count <= library.folders.len(),
    ensures
        forall|i: int|
            0 <= i < unread_folders(library, count).len() ==> (
            #[trigger] unread_folders(library, count)[i]).unread == unread_meant(
                library,
                ScopeView::Folder(unread_folders(library, count)[i].folder_id),
                library.articles.len(),
            ),
        forall|i: int|
            0 <= i < unread_folders(library, count).len() ==> exists|k: int|
                0 <= k < count && (#[trigger] library.folders[k]).folder.id == (
                #[trigger] unread_folders(library, count)[i]).folder_id,
        forall|i: int, j: int|
            0 <= i < j < unread_folders(library, count).len() ==> (
            #[trigger] unread_folders(library, count)[i]).folder_id != (
            #[trigger] unread_folders(library, count)[j]).folder_id,
    decreases count,
{
    if count > 0 {
        let before = unread_folders(library, (count - 1) as nat);
        let all = unread_folders(library, count);
        let folder = library.folders[count - 1].folder;
        lemma_unread_ids(library, (count - 1) as nat);
        lemma_unread_meant(library, ScopeView::Folder(folder.id), library.articles.len());
        assert forall|i: int| 0 <= i < all.len() implies exists|k: int|
            0 <= k < count && (#[trigger] library.folders[k]).folder.id == (
            #[trigger] all[i]).folder_id by {
            if i < before.len() {
                assert(all[i] == before[i]);
                let k = choose|k: int|
                    0 <= k < count - 1 && (#[trigger] library.folders[k]).folder.id
                        == before[i].folder_id;
                assert(library.folders[k].folder.id == all[i].folder_id);
            } else {
                assert(library.folders[count - 1].folder.id == all[i].folder_id);
            }
        }
        assert forall|i: int| 0 <= i < all.len() implies (#[trigger] all[i]).unread
            == unread_meant(
            library,
            ScopeView::Folder(all[i].folder_id),
            library.articles.len(),
        ) by {
            if i < before.len() {
                assert(all[i] == before[i]);
            }
        }
        assert forall|i: int, j: int| 0 <= i < j < all.len() implies (
        #[trigger] all[i]).folder_id != (#[trigger] all[j]).folder_id by {
            assert(all[i] == before[i]);
            if j < before.len() {
                assert(all[j] == before[j]);
            } else {
                let k = choose|k: int|
                    0 <= k < count - 1 && (#[trigger] library.folders[k]).folder.id
                        == before[i].folder_id;
                assert(library.folders[k].folder.id != library.folders[count - 1].folder.id);
            }
        }
    }
}

/// What the folders of a list hold together is what is unread in them.
proof fn lemma_told(library: LibraryView, list: Seq<UnreadView>, ids: Seq<i64>)
    requires
        list.len() == ids.len(),
        forall|i: int|
            0 <= i < list.len() ==> (#[trigger] list[i]).folder_id == ids[i] && list[i].unread
                == unread_meant(library, ScopeView::Folder(ids[i]), library.articles.len()),
    ensures
        told_unread(list) == unread_in_folders(library, ids, library.articles.len()),
    decreases list.len(),
{
    if list.len() > 0 {
        let shorter = list.drop_last();
        let fewer = ids.drop_last();
        assert forall|i: int| 0 <= i < shorter.len() implies (#[trigger] shorter[i]).folder_id
            == fewer[i] && shorter[i].unread == unread_meant(
            library,
            ScopeView::Folder(fewer[i]),
            library.articles.len(),
        ) by {
            assert(shorter[i] == list[i]);
        }
        lemma_told(library, shorter, fewer);
        assert(list[list.len() - 1].folder_id == ids[ids.len() - 1]);
    }
}

/// The folders that the desktop is told of hold together no more unread articles
/// than there are.
pub proof fn law_folders_hold_no_more_than_all(library: LibraryView)
    requires
        library.wf(),
        library.articles.len() <= i64::MAX,
    ensures
        told_unread(unread_summary(library, SUMMARY_LIMIT)) <= unread_meant(
            library,
            ScopeView::Unread,
            library.articles.len(),
        ),
{
    let all = unread_folders(library, library.folders.len());
    let keys = Seq::new(all.len(), |i: int| unread_key(all[i]));
    let order = in_key_order(keys);
    let told = unread_summary(library, SUMMARY_LIMIT);
    let ids = Seq::new(told.len(), |i: int| told[i].folder_id);
    law_ordered_is_complete(keys, keys.len());
    lemma_unread_ids(library, library.folders.len());
    assert forall|i: int| 0 <= i < told.len() implies (#[trigger] told[i]).folder_id == ids[i]
        && told[i].unread == unread_meant(
        library,
        ScopeView::Folder(ids[i]),
        library.articles.len(),
    ) by {
        assert(0 <= order[i] < keys.len());
        assert(told[i] == all[order[i]]);
    }
    assert forall|i: int, j: int| 0 <= i < ids.len() && 0 <= j < ids.len() && i != j implies ids[i]
        != ids[j] by {
        let a = order[i];
        let b = order[j];
        assert(0 <= a < keys.len() && 0 <= b < keys.len());
        assert(a != b);
        assert(told[i] == all[a] && told[j] == all[b]);
        if a < b {
            assert(all[a].folder_id != all[b].folder_id);
        } else {
            assert(all[b].folder_id != all[a].folder_id);
        }
    }
    lemma_told(library, told, ids);
    lemma_unread_in_folders(library, ids, library.articles.len());
}

} // verus!
