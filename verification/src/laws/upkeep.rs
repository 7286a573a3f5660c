//! What is cleared away, what is counted, and what is noted of a refresh.

use crate::laws::intake::is_taken_over;
use crate::laws::paging::is_unread_in;
use crate::laws::places::{are_the_places, lemma_one_wanted};
use crate::library::{refreshed_feed, LibraryView};
use crate::records::{ArticleRowView, FeedRecordView, FeedRowView, RefreshView, ScopeView, UnreadView};
use crate::retention::{
    batch_length, cleaned_up, doomed, kept_rows, marks_at, past_key, past_keys, past_of_feed,
    past_places, struck_count, unread_folders, unread_key, unread_summary,
};
use crate::sorting::{
    in_key_order, key_before, law_ordered_is_complete, law_ordered_is_sorted,
};
use vstd::prelude::*;

verus! {

/// An article may be cleared away: it has no star, and its time lies before the
/// cut.
pub open spec fn may_go(row: ArticleRowView, cutoff: i64) -> bool {
    !row.is_starred && row.retention_at < cutoff
}

/// Those of a list that are not struck out.
pub open spec fn is_not_struck(struck: Seq<bool>) -> spec_fn(int) -> bool {
    |i: int| !struck[i]
}

proof fn lemma_kept(articles: Seq<ArticleRowView>, struck: Seq<bool>, n: nat) -> (at: Seq<int>)
    requires
        articles.len() == struck.len(),
        n <= articles.len(),
    ensures
        are_the_places(at, n as int, is_not_struck(struck)),
        kept_rows(articles.take(n as int), struck.take(n as int)) == at.map_values(
            |i: int| articles[i],
        ),
        at.len() + struck_count(struck.take(n as int)) == n,
    decreases n,
{
    let wanted = is_not_struck(struck);
    if n == 0 {
        let at = Seq::<int>::empty();
        assert(kept_rows(articles.take(0), struck.take(0)) =~= at.map_values(
            |i: int| articles[i],
        ));
        at
    } else {
        let shorter = lemma_kept(articles, struck, (n - 1) as nat);
        lemma_one_wanted(shorter, n - 1, wanted);
        assert(articles.take(n as int).drop_last() == articles.take(n - 1));
        assert(struck.take(n as int).drop_last() == struck.take(n - 1));
        assert(articles.take(n as int).last() == articles[n - 1]);
        assert(struck.take(n as int).last() == struck[n - 1]);
        if wanted(n - 1) {
            let at = shorter.push(n - 1);
            assert(kept_rows(articles.take(n as int), struck.take(n as int)) =~= at.map_values(
                |i: int| articles[i],
            ));
            at
        } else {
            shorter
        }
    }
}

/// An article of a feed that may not be cleared away, or one of another feed.
pub open spec fn stays_in(
    articles: Seq<ArticleRowView>,
    feed: Seq<char>,
    cutoff: i64,
) -> spec_fn(int) -> bool {
    |i: int| articles[i].feed_stable_id != feed || articles[i].is_starred || articles[i].retention_at
        >= cutoff
}

/// Clearing a feed takes away those of its articles that have no star and whose
/// time lies before the cut, and leaves all others in their order.
pub proof fn law_feed_is_cleared(articles: Seq<ArticleRowView>, feed: Seq<char>, cutoff: i64)
    ensures
        exists|at: Seq<int>|
            {
                &&& #[trigger] are_the_places(
                    at,
                    articles.len() as int,
                    stays_in(articles, feed, cutoff),
                )
                &&& kept_rows(articles, past_of_feed(articles, feed, cutoff)) == at.map_values(
                    |i: int| articles[i],
                )
                &&& struck_count(past_of_feed(articles, feed, cutoff)) == articles.len() - at.len()
            },
{
    let struck = past_of_feed(articles, feed, cutoff);
    let n = articles.len();
    let at = lemma_kept(articles, struck, n);
    assert(articles.take(n as int) == articles);
    assert(struck.take(n as int) == struck);
    crate::laws::places::lemma_wanted_alike(
        at,
        n as int,
        is_not_struck(struck),
        stays_in(articles, feed, cutoff),
    );
}

/// Not one of the places that go.
pub open spec fn is_not_among(gone: Seq<int>) -> spec_fn(int) -> bool {
    |i: int| !gone.contains(i)
}

/// An article that may go, of the first so many.
pub open spec fn goes(articles: Seq<ArticleRowView>, cutoff: i64) -> spec_fn(int) -> bool {
    |i: int| may_go(articles[i], cutoff)
}

proof fn lemma_past(articles: Seq<ArticleRowView>, cutoff: i64, n: nat)
    requires
        n <= articles.len(),
    ensures
        are_the_places(past_places(articles, cutoff, n), n as int, goes(articles, cutoff)),
    decreases n,
{
    if n > 0 {
        lemma_past(articles, cutoff, (n - 1) as nat);
        lemma_one_wanted(
            past_places(articles, cutoff, (n - 1) as nat),
            n - 1,
            goes(articles, cutoff),
        );
    }
}

/// Clearing up takes away articles without a star whose time lies before the
/// cut, the oldest first and no more than so many at a time; whatever else
/// there is stays, in its order. It takes so many where there are so many, and
/// all where there are fewer.
pub proof fn law_oldest_are_cleared_away(
    articles: Seq<ArticleRowView>,
    cutoff: i64,
    most: nat,
)
    ensures
        exists|gone: Seq<int>, at: Seq<int>|
            {
                &&& #[trigger] are_the_places(at, articles.len() as int, is_not_among(gone))
                &&& cleaned_up(articles, cutoff, most) == at.map_values(|i: int| articles[i])
                &&& doomed(articles, cutoff, most) == gone
                &&& gone.no_duplicates()
                &&& gone.len() <= most
                &&& forall|k: int|
                    0 <= k < gone.len() ==> 0 <= #[trigger] gone[k] < articles.len() && may_go(
                        articles[gone[k]],
                        cutoff,
                    )
                &&& forall|i: int|
                    0 <= i < articles.len() && may_go(#[trigger] articles[i], cutoff)
                        && !gone.contains(i) ==> gone.len() == most && forall|k: int|
                        0 <= k < gone.len() ==> articles[#[trigger] gone[k]].retention_at
                            <= articles[i].retention_at
            },
{
    let n = articles.len();
    let places = past_places(articles, cutoff, n);
    lemma_past(articles, cutoff, n);
    let keys = past_keys(articles, places);
    law_ordered_is_complete(keys, keys.len());
    law_ordered_is_sorted(keys, keys.len());
    let order = in_key_order(keys);
    let gone = doomed(articles, cutoff, most);
    let struck = marks_at(n, gone);
    let at = lemma_kept(articles, struck, n);
    assert(articles.take(n as int) == articles);
    assert(struck.take(n as int) == struck);
    crate::laws::places::lemma_wanted_alike(
        at,
        n as int,
        is_not_struck(struck),
        is_not_among(gone),
    );
    let wanted = goes(articles, cutoff);
    assert forall|k: int| 0 <= k < gone.len() implies 0 <= #[trigger] gone[k] < articles.len()
        && may_go(articles[gone[k]], cutoff) by {
        assert(0 <= order[k] < places.len());
        assert(wanted(places[order[k]]));
    }
    assert forall|k: int, m: int| 0 <= k < gone.len() && 0 <= m < gone.len() && k
        != m implies gone[k] != gone[m] by {
        assert(order[k] != order[m]);
        if order[k] < order[m] {
            assert(places[order[k]] < places[order[m]]);
        } else {
            assert(places[order[m]] < places[order[k]]);
        }
    }
    assert forall|i: int|
        0 <= i < articles.len() && may_go(#[trigger] articles[i], cutoff) && !gone.contains(
            i,
        ) implies gone.len() == most && forall|k: int|
        0 <= k < gone.len() ==> articles[#[trigger] gone[k]].retention_at
            <= articles[i].retention_at by {
        assert(wanted(i));
        let p = choose|p: int| 0 <= p < places.len() && places[p] == i;
        assert(order.contains(p));
        let q = choose|q: int| 0 <= q < order.len() && order[q] == p;
        if q < gone.len() {
            assert(gone[q] == i);
        }
        assert forall|k: int| 0 <= k < gone.len() implies articles[#[trigger] gone[k]].retention_at
            <= articles[i].retention_at by {
            assert(!key_before(keys[order[q]], keys[order[k]]));
            assert(keys[order[q]] == past_key(articles[i]));
            assert(keys[order[k]] == past_key(articles[gone[k]]));
        }
    }
    assert(gone.no_duplicates());
    assert(are_the_places(at, n as int, is_not_among(gone)));
}

/// A batch has one article at least and ten thousand at most, and within these
/// bounds what is asked for.
pub proof fn law_batches_are_bounded(batch: usize)
    ensures
        1 <= batch_length(batch) <= 10_000,
        1 <= batch <= 10_000 ==> batch_length(batch) == batch,
        batch > 10_000 ==> batch_length(batch) == 10_000,
{
}

/// What is noted of a refresh. After a success there are no failures in a row,
/// the time of the success is kept, and the reason of the last failure is gone;
/// after a failure there is one more in a row, its reason is kept, and the time
/// of the last success stays. What the server gave to tell changes is kept
/// where it gives nothing new. Nothing else of the feed changes.
pub proof fn law_refresh_is_noted(row: FeedRowView, note: RefreshView)
    ensures
        ({
            let after = refreshed_feed(row, note);
            let failed = note.failure_category is Some;
            &&& is_taken_over(note.etag, row.feed.etag, after.feed.etag)
            &&& is_taken_over(note.last_modified, row.feed.last_modified, after.feed.last_modified)
            &&& is_taken_over(
                note.final_fetch_url,
                row.feed.effective_fetch_url,
                after.feed.effective_fetch_url,
            )
            &&& after.feed.last_refresh_attempt_at == Some(note.attempted_at)
            &&& after.feed.last_http_status == note.http_status
            &&& after.last_refresh_error == note.failure_category
            &&& after.modified_at == note.attempted_at
            &&& !failed ==> {
                &&& after.feed.consecutive_failures == 0
                &&& after.feed.last_refresh_status == Some("success"@)
                &&& is_taken_over(
                    note.succeeded_at,
                    Some(note.attempted_at),
                    after.feed.last_refresh_at,
                )
            }
            &&& failed ==> {
                &&& row.feed.consecutive_failures < u32::MAX ==> after.feed.consecutive_failures
                    == row.feed.consecutive_failures + 1
                &&& row.feed.consecutive_failures == u32::MAX ==> after.feed.consecutive_failures
                    == u32::MAX
                &&& after.feed.last_refresh_status == Some("failure"@)
                &&& after.feed.last_refresh_at == row.feed.last_refresh_at
            }
            &&& after == (FeedRowView {
                feed: FeedRecordView {
                    etag: after.feed.etag,
                    last_modified: after.feed.last_modified,
                    effective_fetch_url: after.feed.effective_fetch_url,
                    last_refresh_attempt_at: after.feed.last_refresh_attempt_at,
                    last_refresh_at: after.feed.last_refresh_at,
                    last_http_status: after.feed.last_http_status,
                    consecutive_failures: after.feed.consecutive_failures,
                    last_refresh_status: after.feed.last_refresh_status,
                    ..row.feed
                },
                last_refresh_error: after.last_refresh_error,
                modified_at: after.modified_at,
                ..row
            })
        }),
{
}

/// A folder with unread articles.
pub open spec fn is_waiting(library: LibraryView) -> spec_fn(int) -> bool {
    |i: int|
        exists|k: int|
            0 <= k < library.articles.len() && #[trigger] is_unread_in(
                library,
                ScopeView::Folder(library.folders[i].folder.id),
            )(k)
}

/// An entry tells of a folder how many unread articles lie in it.
pub open spec fn tells_unread(library: LibraryView, i: int, item: UnreadView) -> bool {
    &&& item.folder_id == library.folders[i].folder.id
    &&& item.folder_name == library.folders[i].folder.name
    &&& exists|at: Seq<int>|
        #[trigger] are_the_places(
            at,
            library.articles.len() as int,
            is_unread_in(library, ScopeView::Folder(library.folders[i].folder.id)),
        ) && item.unread == at.len()
}

proof fn lemma_waiting(library: LibraryView, n: nat) -> (at: Seq<int>)
    requires
        library.wf(),
        n <= library.folders.len(),
        library.articles.len() <= i64::MAX,
    ensures
        are_the_places(at, n as int, is_waiting(library)),
        unread_folders(library, n).len() == at.len(),
        forall|k: int|
            0 <= k < at.len() ==> tells_unread(
                library,
                at[k],
                #[trigger] unread_folders(library, n)[k],
            ),
    decreases n,
{
    if n == 0 {
        Seq::empty()
    } else {
        let shorter = lemma_waiting(library, (n - 1) as nat);
        let wanted = is_waiting(library);
        lemma_one_wanted(shorter, n - 1, wanted);
        let scope = ScopeView::Folder(library.folders[n - 1].folder.id);
        crate::laws::paging::law_unread_are_counted(library, scope);
        let found = choose|at: Seq<int>|
            #[trigger] are_the_places(
                at,
                library.articles.len() as int,
                is_unread_in(library, scope),
            ) && crate::articles::unread_meant(library, scope, library.articles.len())
                == at.len();
        crate::laws::upkeep::lemma_few(found, library.articles.len() as int, is_unread_in(
            library,
            scope,
        ));
        if found.len() > 0 {
            assert(is_unread_in(library, scope)(found[0]));
            assert(wanted(n - 1));
            let at = shorter.push(n - 1);
            let before = unread_folders(library, (n - 1) as nat);
            let all = unread_folders(library, n);
            assert forall|k: int| 0 <= k < at.len() implies tells_unread(
                library,
                at[k],
                #[trigger] all[k],
            ) by {
                if k < shorter.len() {
                    assert(all[k] == before[k]);
                }
            }
            at
        } else {
            if wanted(n - 1) {
                let k = choose|k: int|
                    0 <= k < library.articles.len() && #[trigger] is_unread_in(library, scope)(k);
                assert(found.contains(k));
            }
            shorter
        }
    }
}

/// Places below `n` are no more than `n`.
pub proof fn lemma_few(at: Seq<int>, n: int, wanted: spec_fn(int) -> bool)
    requires
        are_the_places(at, n, wanted),
        n >= 0,
    ensures
        at.len() <= n,
{
    if at.len() > 0 {
        lemma_far(at, n, wanted, at.len() - 1);
    }
}

proof fn lemma_far(at: Seq<int>, n: int, wanted: spec_fn(int) -> bool, k: int)
    requires
        are_the_places(at, n, wanted),
        0 <= k < at.len(),
    ensures
        at[k] >= k,
    decreases k,
{
    if k > 0 {
        lemma_far(at, n, wanted, k - 1);
        assert(at[k - 1] < at[k]);
    }
}

/// The summary of what is unread has an entry for each folder with unread
/// articles in it, up to so many: it tells how many there are, and folders with
/// more come first. One entry at least and ten at most are asked for.
pub proof fn law_fullest_folders_come_first(library: LibraryView, limit: usize)
    requires
        library.wf(),
        library.articles.len() <= i64::MAX,
    ensures
        ({
            let list = unread_summary(library, limit);
            &&& list.len() <= 10
            &&& limit >= 1 ==> list.len() <= limit
            &&& limit == 0 ==> list.len() <= 1
            &&& forall|k: int|
                0 <= k < list.len() ==> (#[trigger] list[k]).unread > 0 && exists|i: int|
                    0 <= i < library.folders.len() && #[trigger] tells_unread(library, i, list[k])
            &&& forall|k: int, m: int|
                0 <= k < m < list.len() ==> (#[trigger] list[k]).unread >= (
                #[trigger] list[m]).unread && list[k].folder_id != list[m].folder_id
            &&& forall|i: int|
                0 <= i < library.folders.len() && #[trigger] is_waiting(library)(i) ==> (exists|
                    k: int,
                |
                    0 <= k < list.len() && tells_unread(library, i, #[trigger] list[k]))
                    || list.len() == 10 || list.len() == limit || (limit == 0 && list.len() == 1)
        }),
{
    let all = unread_folders(library, library.folders.len());
    let at = lemma_waiting(library, library.folders.len());
    let keys = Seq::new(all.len(), |i: int| unread_key(all[i]));
    let order = in_key_order(keys);
    law_ordered_is_complete(keys, keys.len());
    law_ordered_is_sorted(keys, keys.len());
    let list = unread_summary(library, limit);
    let wanted = is_waiting(library);
    lemma_positive(library, library.folders.len());
    assert forall|k: int| 0 <= k < list.len() implies (#[trigger] list[k]).unread > 0 && exists|
        i: int,
    |
        0 <= i < library.folders.len() && #[trigger] tells_unread(library, i, list[k]) by {
        assert(list[k] == all[order[k]]);
        assert(tells_unread(library, at[order[k]], all[order[k]]));
        assert(0 <= at[order[k]] < library.folders.len());
    }
    assert forall|k: int, m: int| 0 <= k < m < list.len() implies (#[trigger] list[k]).unread >= (
    #[trigger] list[m]).unread && list[k].folder_id != list[m].folder_id by {
        assert(!key_before(keys[order[m]], keys[order[k]]));
        assert(list[k] == all[order[k]] && list[m] == all[order[m]]);
        let a = order[k];
        let b = order[m];
        assert(a != b);
        assert(tells_unread(library, at[a], all[a]));
        assert(tells_unread(library, at[b], all[b]));
        if a < b {
            assert(at[a] < at[b]);
            assert(library.folders[at[a]].folder.id != library.folders[at[b]].folder.id);
        } else {
            assert(at[b] < at[a]);
            assert(library.folders[at[b]].folder.id != library.folders[at[a]].folder.id);
        }
    }
    assert forall|i: int|
        0 <= i < library.folders.len() && #[trigger] is_waiting(library)(i) implies (exists|
            k: int,
        |
            0 <= k < list.len() && tells_unread(library, i, #[trigger] list[k])) || list.len() == 10
        || list.len() == limit || (limit == 0 && list.len() == 1) by {
        assert(wanted(i));
        let p = choose|p: int| 0 <= p < at.len() && at[p] == i;
        assert(order.contains(p));
        let q = choose|q: int| 0 <= q < order.len() && order[q] == p;
        if q < list.len() {
            assert(list[q] == all[p]);
            assert(tells_unread(library, i, list[q]));
        }
    }
}

proof fn lemma_positive(library: LibraryView, n: nat)
    requires
        n <= library.folders.len(),
        library.articles.len() <= i64::MAX,
        library.wf(),
    ensures
        forall|k: int|
            0 <= k < unread_folders(library, n).len() ==> (#[trigger] unread_folders(
                library,
                n,
            )[k]).unread > 0,
    decreases n,
{
    if n > 0 {
        lemma_positive(library, (n - 1) as nat);
        let before = unread_folders(library, (n - 1) as nat);
        let all = unread_folders(library, n);
        let scope = ScopeView::Folder(library.folders[n - 1].folder.id);
        crate::laws::paging::law_unread_are_counted(library, scope);
        let found = choose|at: Seq<int>|
            #[trigger] are_the_places(
                at,
                library.articles.len() as int,
                is_unread_in(library, scope),
            ) && crate::articles::unread_meant(library, scope, library.articles.len())
                == at.len();
        lemma_few(found, library.articles.len() as int, is_unread_in(library, scope));
        assert forall|k: int| 0 <= k < all.len() implies (#[trigger] all[k]).unread > 0 by {
            if k < before.len() {
                assert(all[k] == before[k]);
            }
        }
    }
}

} // verus!
