//! What the desk of a reader shows and asks for.

use crate::desk::{
    arriving, choosing, icons_wanted, item_at, pictures_wanted, reading, row_after, DeskView,
};
use crate::presentation::icon_page;
use crate::records::{CursorView, FeedRecordView, ListItemView, ScopeView};
use vstd::prelude::*;

verus! {

/// The selection moves by so many rows and stays in the list: beyond an end it
/// stops there. Without a selection it starts before the first row, or behind
/// the last where it moves up.
pub proof fn law_selection_moves_by_rows(current: int, delta: int, count: int)
    requires
        0 <= current < count,
    ensures
        row_after(Some(current), delta, count) is Some,
        0 <= row_after(Some(current), delta, count)->0 < count,
        0 <= current + delta < count ==> row_after(Some(current), delta, count) == Some(
            current + delta,
        ),
        current + delta < 0 ==> row_after(Some(current), delta, count) == Some(0int),
        current + delta >= count ==> row_after(Some(current), delta, count) == Some(count - 1),
        row_after(None, 1, count) == Some(0int),
        row_after(None, -1, count) == Some(count - 1),
        row_after(None, delta, 0) is None,
{
}

/// Articles that arrive to stand behind what is there stand behind it; others
/// take its place.
pub proof fn law_arrivals_are_shown(
    desk: DeskView,
    scope: ScopeView,
    items: Seq<ListItemView>,
    next: Option<CursorView>,
)
    ensures
        arriving(desk, scope, items, next, true).items == desk.items + items,
        arriving(desk, scope, items, next, true).next == next,
        arriving(desk, scope, items, next, true).scope == scope,
        !(desk.scope is Unread && scope is Unread && desk.stale) ==> arriving(
            desk,
            scope,
            items,
            next,
            false,
        ).items == items && arriving(desk, scope, items, next, false).next == next && arriving(
            desk,
            scope,
            items,
            next,
            false,
        ).scope == scope,
{
}

proof fn lemma_item_at(items: Seq<ListItemView>, id: Seq<char>, i: int)
    requires
        0 <= i <= items.len(),
    ensures
        match item_at(items, id, i) {
            Some(k) => i <= k < items.len() && items[k].stable_id == id && forall|m: int|
                i <= m < k ==> (#[trigger] items[m]).stable_id != id,
            None => forall|m: int| i <= m < items.len() ==> (#[trigger] items[m]).stable_id != id,
        },
    decreases items.len() - i,
{
    if i < items.len() && items[i].stable_id != id {
        lemma_item_at(items, id, i + 1);
    }
}

/// A line whose article was marked as read shows it, and no other line changes;
/// the line stays in the list.
pub proof fn law_marked_line_shows_it(desk: DeskView, id: Seq<char>, read: bool, i: int)
    requires
        0 <= i < desk.items.len(),
        forall|k: int, m: int|
            0 <= k < m < desk.items.len() ==> (#[trigger] desk.items[k]).stable_id != (
            #[trigger] desk.items[m]).stable_id,
    ensures
        ({
            let after = reading(desk, id, read);
            &&& after.items.len() == desk.items.len()
            &&& desk.items[i].stable_id == id ==> after.items[i] == (ListItemView {
                is_unread: !read,
                ..desk.items[i]
            })
            &&& desk.items[i].stable_id != id ==> after.items[i] == desk.items[i]
            &&& after.scope == desk.scope
            &&& after.next == desk.next
        }),
{
    lemma_item_at(desk.items, id, 0);
    let found = item_at(desk.items, id, 0);
    if desk.items[i].stable_id == id {
        let k = found->0;
        if k < i {
            assert(desk.items[k].stable_id != desk.items[i].stable_id);
        }
    }
}

/// Another scope that is chosen is the one that is shown, and the lines stay
/// until others arrive.
pub proof fn law_chosen_scope_is_shown(desk: DeskView, wanted: ScopeView)
    ensures
        choosing(desk, wanted).scope == wanted,
        choosing(desk, wanted).items == desk.items,
        choosing(desk, wanted).next == desk.next,
        !desk.stale ==> !choosing(desk, wanted).stale,
{
}

/// A line is one whose picture is to be looked for on the page of its article:
/// it has none, and it has a page.
pub open spec fn lacks_picture(item: ListItemView) -> bool {
    item.thumbnail_url is None && item.article_url is Some
}

/// A page is asked for a picture only for a line without one, at the address of
/// its article.
pub proof fn law_only_missing_pictures_are_asked_for(
    asked: Set<Seq<char>>,
    items: Seq<ListItemView>,
    k: int,
)
    requires
        0 <= k < pictures_wanted(asked, items).found.len(),
    ensures
        exists|i: int|
            {
                let found = pictures_wanted(asked, items).found[k];
                &&& 0 <= i < items.len()
                &&& lacks_picture(#[trigger] items[i])
                &&& found.0 == items[i].stable_id
                &&& Some(found.1) == items[i].article_url
            },
    decreases items.len(),
{
    let shorter = items.drop_last();
    let n = items.len() - 1;
    let before = pictures_wanted(asked, shorter);
    let all = pictures_wanted(asked, items);
    if k < before.found.len() {
        law_only_missing_pictures_are_asked_for(asked, shorter, k);
        assert(all.found[k] == before.found[k]);
        let i = choose|i: int|
            {
                let found = before.found[k];
                &&& 0 <= i < shorter.len()
                &&& lacks_picture(#[trigger] shorter[i])
                &&& found.0 == shorter[i].stable_id
                &&& Some(found.1) == shorter[i].article_url
            };
        assert(items[i] == shorter[i]);
    } else {
        assert(lacks_picture(items[n]));
    }
}

/// A line without a picture that was not asked for before is asked for, while
/// fewer than twenty-four are.
pub proof fn law_missing_pictures_are_asked_for(
    asked: Set<Seq<char>>,
    items: Seq<ListItemView>,
    i: int,
)
    requires
        0 <= i < items.len(),
        lacks_picture(items[i]),
        !asked.contains(items[i].stable_id),
        forall|k: int, m: int|
            0 <= k < m < items.len() ==> (#[trigger] items[k]).stable_id != (
            #[trigger] items[m]).stable_id,
    ensures
        pictures_wanted(asked, items).found.contains(
            (items[i].stable_id, items[i].article_url->0),
        ) || pictures_wanted(asked, items).found.len() >= 24,
    decreases items.len(),
{
    let shorter = items.drop_last();
    let n = items.len() - 1;
    let before = pictures_wanted(asked, shorter);
    let all = pictures_wanted(asked, items);
    let pair = (items[i].stable_id, items[i].article_url->0);
    assert forall|k: int, m: int| 0 <= k < m < shorter.len() implies (
    #[trigger] shorter[k]).stable_id != (#[trigger] shorter[m]).stable_id by {
        assert(shorter[k] == items[k] && shorter[m] == items[m]);
    }
    if i < n {
        assert(shorter[i] == items[i]);
        law_missing_pictures_are_asked_for(asked, shorter, i);
        if before.found.contains(pair) {
            let k = choose|k: int| 0 <= k < before.found.len() && before.found[k] == pair;
            assert(all.found[k] == pair);
        }
    } else {
        lemma_asked_ids(asked, shorter, items[n].stable_id);
        if before.asked.contains(items[n].stable_id) {
            let k = choose|k: int|
                0 <= k < shorter.len() && (#[trigger] shorter[k]).stable_id == items[n].stable_id;
            assert(items[k].stable_id != items[n].stable_id);
        }
        if before.found.len() < 24 {
            assert(all.found[before.found.len() as int] == pair);
        }
    }
}

proof fn lemma_asked_ids(asked: Set<Seq<char>>, items: Seq<ListItemView>, id: Seq<char>)
    ensures
        pictures_wanted(asked, items).asked.contains(id) ==> asked.contains(id) || exists|k: int|
            0 <= k < items.len() && (#[trigger] items[k]).stable_id == id,
    decreases items.len(),
{
    if items.len() > 0 {
        let shorter = items.drop_last();
        lemma_asked_ids(asked, shorter, id);
        let n = items.len() - 1;
        if pictures_wanted(asked, items).asked.contains(id) && !asked.contains(id) {
            if pictures_wanted(asked, shorter).asked.contains(id) {
                let k = choose|k: int|
                    0 <= k < shorter.len() && (#[trigger] shorter[k]).stable_id == id;
                assert(items[k] == shorter[k]);
            } else {
                assert(items[n].stable_id == id);
            }
        }
    }
}

/// Every feed with a page to look at that was not asked for before is asked for
/// an icon, and no other.
pub proof fn law_icons_are_asked_for(
    asked: Set<Seq<char>>,
    feeds: Seq<FeedRecordView>,
    i: int,
)
    requires
        forall|k: int, m: int|
            0 <= k < m < feeds.len() ==> (#[trigger] feeds[k]).stable_id != (
            #[trigger] feeds[m]).stable_id,
    ensures
        0 <= i < feeds.len() && !asked.contains(feeds[i].stable_id) && icon_page(feeds[i]) is Some
            ==> icons_wanted(asked, feeds).found.contains(
            (feeds[i].stable_id, icon_page(feeds[i])->0),
        ),
        0 <= i < icons_wanted(asked, feeds).found.len() ==> exists|k: int|
            0 <= k < feeds.len() && (#[trigger] feeds[k]).stable_id == icons_wanted(
                asked,
                feeds,
            ).found[i].0 && icon_page(feeds[k]) == Some(icons_wanted(asked, feeds).found[i].1)
                && !asked.contains(feeds[k].stable_id),
        forall|id: Seq<char>| #[trigger]
            icons_wanted(asked, feeds).asked.contains(id) ==> asked.contains(id) || exists|k: int|
                0 <= k < feeds.len() && (#[trigger] feeds[k]).stable_id == id,
        asked.subset_of(icons_wanted(asked, feeds).asked),
    decreases feeds.len(),
{
    if feeds.len() > 0 {
        let shorter = feeds.drop_last();
        let n = feeds.len() - 1;
        assert forall|k: int, m: int| 0 <= k < m < shorter.len() implies (
        #[trigger] shorter[k]).stable_id != (#[trigger] shorter[m]).stable_id by {
            assert(shorter[k] == feeds[k] && shorter[m] == feeds[m]);
        }
        law_icons_are_asked_for(asked, shorter, i);
        let before = icons_wanted(asked, shorter);
        let all = icons_wanted(asked, feeds);
        assert(before.asked.contains(feeds[n].stable_id) ==> asked.contains(feeds[n].stable_id))
            by {
            if before.asked.contains(feeds[n].stable_id) && !asked.contains(feeds[n].stable_id) {
                let k = choose|k: int|
                    0 <= k < shorter.len() && (#[trigger] shorter[k]).stable_id
                        == feeds[n].stable_id;
                assert(feeds[k].stable_id != feeds[n].stable_id);
            }
        }
        if 0 <= i < feeds.len() && !asked.contains(feeds[i].stable_id) && icon_page(
            feeds[i],
        ) is Some {
            let pair = (feeds[i].stable_id, icon_page(feeds[i])->0);
            if i < n {
                assert(shorter[i] == feeds[i]);
                let k = choose|k: int| 0 <= k < before.found.len() && before.found[k] == pair;
                assert(all.found[k] == pair);
            } else {
                assert(all.found[before.found.len() as int] == pair);
            }
        }
        if 0 <= i < all.found.len() {
            if i < before.found.len() {
                assert(all.found[i] == before.found[i]);
                let k = choose|k: int|
                    0 <= k < shorter.len() && (#[trigger] shorter[k]).stable_id
                        == before.found[i].0 && icon_page(shorter[k]) == Some(before.found[i].1)
                        && !asked.contains(shorter[k].stable_id);
                assert(feeds[k] == shorter[k]);
            } else {
                assert(!asked.contains(feeds[n].stable_id));
                assert(feeds[n].stable_id == all.found[i].0);
            }
        }
        assert forall|id: Seq<char>| #[trigger] all.asked.contains(id) implies asked.contains(id)
            || exists|k: int| 0 <= k < feeds.len() && (#[trigger] feeds[k]).stable_id == id by {
            if before.asked.contains(id) {
                if !asked.contains(id) {
                    let k = choose|k: int|
                        0 <= k < shorter.len() && (#[trigger] shorter[k]).stable_id == id;
                    assert(feeds[k] == shorter[k]);
                }
            } else {
                assert(feeds[n].stable_id == id);
            }
        }
    }
}

} // verus!
