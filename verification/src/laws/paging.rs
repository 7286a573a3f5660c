//! Which articles the lists show, count and mark, said of the articles
//! themselves.

use crate::articles::{
    all_read, cursor_order, in_scope, is_next, law_pages_are_in_order, law_pages_join,
    law_short_pages_are_complete, lemma_next_place, lemma_shown_chain, lemma_shown_order,
    list_item, next_place, none_starred, order_of, page_length, page_of, page_places, shown_before,
    unread_meant, OrderView,
};
use crate::laws::places::{are_the_places, lemma_one_wanted};
use crate::library::{feed_at, lemma_feed_at, starred_among, LibraryView};
use crate::records::{ArticleRowView, CursorView, ListItemView, PageView, ScopeView};
use vstd::prelude::*;

verus! {

/// The feed of this id lies in a folder.
pub open spec fn lies_in(library: LibraryView, feed: Seq<char>, folder: i64) -> bool {
    exists|f: int|
        0 <= f < library.feeds.len() && (#[trigger] library.feeds[f]).feed.stable_id == feed
            && library.feeds[f].feed.folder_id == Some(folder)
}

/// An article belongs to a scope: to the unread ones while it is unread, to the
/// starred ones while it has a star, to its feed, and to the folder of its feed.
pub open spec fn belongs(library: LibraryView, row: ArticleRowView, scope: ScopeView) -> bool {
    &&& scope == ScopeView::Unread ==> !row.is_read
    &&& scope == ScopeView::Starred ==> row.is_starred
    &&& scope is Feed ==> row.feed_stable_id == scope->Feed_0
    &&& scope is Folder ==> lies_in(library, row.feed_stable_id, scope->Folder_0)
}

/// What is meant by a scope.
pub proof fn lemma_belongs(library: LibraryView, row: ArticleRowView, scope: ScopeView)
    requires
        library.wf(),
    ensures
        in_scope(library, row, scope) == belongs(library, row, scope),
{
    lemma_feed_at(library.feeds, row.feed_stable_id, 0);
    match scope {
        ScopeView::Library => {},
        ScopeView::Unread => {},
        ScopeView::Starred => {},
        ScopeView::Feed(_) => {},
        ScopeView::Folder(id) => {
            if lies_in(library, row.feed_stable_id, id) {
                let f = choose|f: int|
                    0 <= f < library.feeds.len() && (#[trigger] library.feeds[f]).feed.stable_id
                        == row.feed_stable_id && library.feeds[f].feed.folder_id == Some(id);
                let k = feed_at(library.feeds, row.feed_stable_id, 0)->0;
                if k < f {
                    assert(library.feeds[k].feed.stable_id != library.feeds[f].feed.stable_id);
                } else if f < k {
                    assert(library.feeds[f].feed.stable_id != library.feeds[k].feed.stable_id);
                }
            }
        },
    }
}

/// A line of a list tells of an article what the library holds of it.
pub open spec fn tells_of(library: LibraryView, item: ListItemView, row: ArticleRowView) -> bool {
    &&& item.stable_id == row.stable_id
    &&& item.feed_stable_id == row.feed_stable_id
    &&& item.article_url == row.url
    &&& item.title == row.title
    &&& item.summary == row.summary
    &&& item.published_at == row.published_at
    &&& item.updated_at == row.updated_at
    &&& item.thumbnail_url == row.image_url
    &&& item.is_unread == !row.is_read
    &&& item.is_starred == row.is_starred
    &&& row.published_at is Some ==> item.sort_timestamp == row.published_at->0
    &&& row.published_at is None && row.updated_at is Some ==> item.sort_timestamp
        == row.updated_at->0
    &&& row.published_at is None && row.updated_at is None ==> item.sort_timestamp
        == row.inserted_at
    &&& forall|f: int|
        0 <= f < library.feeds.len() && (#[trigger] library.feeds[f]).feed.stable_id
            == row.feed_stable_id ==> item.feed_name == library.feeds[f].feed.display_name
}

/// An article is one of the library's.
pub open spec fn is_in(library: LibraryView, row: ArticleRowView) -> bool {
    library.articles.contains(row)
}

/// Of two lines of a list the first is to stand above the second: dated ones
/// above undated ones, and of those the later one.
pub open spec fn stands_above(a: ListItemView, b: ListItemView) -> bool {
    let a_undated = a.published_at is None && a.updated_at is None;
    let b_undated = b.published_at is None && b.updated_at is None;
    &&& a_undated ==> b_undated
    &&& a_undated == b_undated ==> a.sort_timestamp >= b.sort_timestamp
}

/// Every line of a page tells of an article of the library that belongs to the
/// scope: with a star where the starred ones are asked for, unread where the
/// unread ones are, of the feed that is asked for, or of a feed in the folder
/// that is. A page holds no more lines than asked for, one at least and two
/// hundred at most being asked for, and the later one stands above.
pub proof fn law_pages_show_what_is_asked_for(
    library: LibraryView,
    scope: ScopeView,
    limit: usize,
    cursor: Option<CursorView>,
)
    requires
        library.wf(),
    ensures
        ({
            let page = page_of(library, scope, limit, cursor);
            &&& limit >= 1 ==> page.items.len() <= limit
            &&& page.items.len() <= 200
            &&& limit == 0 ==> page.items.len() <= 1
            &&& forall|i: int|
                0 <= i < page.items.len() ==> {
                    let item = #[trigger] page.items[i];
                    &&& scope == ScopeView::Starred ==> item.is_starred
                    &&& scope == ScopeView::Unread ==> item.is_unread
                    &&& scope is Feed ==> item.feed_stable_id == scope->Feed_0
                    &&& scope is Folder ==> lies_in(library, item.feed_stable_id, scope->Folder_0)
                    &&& exists|row: ArticleRowView| #[trigger]
                        is_in(library, row) && belongs(library, row, scope) && tells_of(
                            library,
                            item,
                            row,
                        )
                }
            &&& forall|i: int, j: int|
                0 <= i < j < page.items.len() ==> stands_above(
                    #[trigger] page.items[i],
                    #[trigger] page.items[j],
                ) && page.items[i].stable_id != page.items[j].stable_id
        }),
{
    let after = match cursor {
        Some(c) => Some(cursor_order(c)),
        None => None,
    };
    let places = page_places(library, scope, after, page_length(limit));
    let page = page_of(library, scope, limit, cursor);
    law_pages_are_in_order(library, scope, after, page_length(limit));
    assert forall|i: int| 0 <= i < page.items.len() implies ({
        let item = #[trigger] page.items[i];
        &&& scope == ScopeView::Starred ==> item.is_starred
        &&& scope == ScopeView::Unread ==> item.is_unread
        &&& scope is Feed ==> item.feed_stable_id == scope->Feed_0
        &&& scope is Folder ==> lies_in(library, item.feed_stable_id, scope->Folder_0)
        &&& exists|row: ArticleRowView| #[trigger]
            is_in(library, row) && belongs(library, row, scope) && tells_of(library, item, row)
    }) by {
        let row = library.articles[places[i]];
        lemma_belongs(library, row, scope);
        lemma_item_tells(library, row);
        assert(is_in(library, row));
    }
    assert forall|i: int, j: int| 0 <= i < j < page.items.len() implies stands_above(
        #[trigger] page.items[i],
        #[trigger] page.items[j],
    ) && page.items[i].stable_id != page.items[j].stable_id by {
        let a = library.articles[places[i]];
        let b = library.articles[places[j]];
        lemma_shown_order(order_of(a), order_of(b));
        assert(places[i] != places[j]);
        if places[i] < places[j] {
            assert(a.stable_id != b.stable_id);
        } else {
            assert(b.stable_id != a.stable_id);
        }
    }
}

/// What a line of a list holds.
pub proof fn lemma_item_tells(library: LibraryView, row: ArticleRowView)
    requires
        library.wf(),
    ensures
        tells_of(library, list_item(library, row), row),
{
    let item = list_item(library, row);
    lemma_feed_at(library.feeds, row.feed_stable_id, 0);
    assert forall|f: int|
        0 <= f < library.feeds.len() && (#[trigger] library.feeds[f]).feed.stable_id
            == row.feed_stable_id implies item.feed_name == library.feeds[f].feed.display_name by {
        let k = feed_at(library.feeds, row.feed_stable_id, 0)->0;
        if k < f {
            assert(library.feeds[k].feed.stable_id != library.feeds[f].feed.stable_id);
        } else if f < k {
            assert(library.feeds[f].feed.stable_id != library.feeds[k].feed.stable_id);
        }
    }
}

/// Pages that follow each other: each starts at the cursor of the one before,
/// the first one at the top, and the last one has no cursor.
pub open spec fn is_walk(
    library: LibraryView,
    scope: ScopeView,
    limit: usize,
    pages: Seq<PageView>,
) -> bool {
    &&& pages.len() > 0
    &&& pages[0] == page_of(library, scope, limit, None)
    &&& pages.last().next is None
    &&& forall|i: int|
        0 <= i < pages.len() - 1 ==> (#[trigger] pages[i]).next is Some && pages[i + 1] == page_of(
            library,
            scope,
            limit,
            pages[i].next,
        )
}

/// A page has a line on the article with an id.
pub open spec fn shows(page: PageView, id: Seq<char>) -> bool {
    exists|i: int| 0 <= i < page.items.len() && (#[trigger] page.items[i]).stable_id == id
}

/// Following the cursors from the first page to the last, every article of the
/// library that belongs to the scope is shown, and on one page only.
pub proof fn law_walk_shows_everything(
    library: LibraryView,
    scope: ScopeView,
    limit: usize,
    pages: Seq<PageView>,
    k: int,
)
    requires
        library.wf(),
        is_walk(library, scope, limit, pages),
        0 <= k < library.articles.len(),
        belongs(library, library.articles[k], scope),
    ensures
        exists|i: int|
            {
                &&& 0 <= i < pages.len()
                &&& shows(#[trigger] pages[i], library.articles[k].stable_id)
                &&& forall|j: int|
                    0 <= j < pages.len() && j != i ==> !shows(
                        #[trigger] pages[j],
                        library.articles[k].stable_id,
                    )
            },
{
    let row = library.articles[k];
    lemma_belongs(library, row, scope);
    let n = pages.len() as int;
    lemma_walk(library, scope, limit, pages, k, n - 1);
    let i = choose|i: int| 0 <= i < n && shows(#[trigger] pages[i], row.stable_id);
    assert forall|j: int| 0 <= j < n && j != i implies !shows(#[trigger] pages[j], row.stable_id) by {
        if shows(pages[j], row.stable_id) {
            if i < j {
                lemma_once(library, scope, limit, pages, k, i, j);
            } else {
                lemma_once(library, scope, limit, pages, k, j, i);
            }
        }
    }
}

/// A page with a cursor is full, its cursor stands at its last line, and the
/// page that it leads to has a line at least.
pub proof fn law_cursor_leads_on(
    library: LibraryView,
    scope: ScopeView,
    limit: usize,
    cursor: Option<CursorView>,
)
    requires
        library.wf(),
    ensures
        ({
            let page = page_of(library, scope, limit, cursor);
            page.next is Some ==> {
                let next = page_of(library, scope, limit, page.next);
                &&& page.items.len() > 0
                &&& next.items.len() > 0
                &&& (limit >= 1 && limit <= 200 ==> page.items.len() == limit)
                &&& page.next->0.before_id == page.items.last().stable_id
            }
        }),
{
    let after = start_of(cursor);
    let length = page_length(limit);
    let page = page_of(library, scope, limit, cursor);
    law_pages_join(library, scope, after, length, 1);
    law_pages_are_in_order(library, scope, after, length);
    let places = page_places(library, scope, after, length);
    if page.next is Some {
        let last = order_of(library.articles[places.last()]);
        assert(cursor_order(page.next->0) == last);
        let more = page_places(library, scope, Some(last), 1);
        assert(more.len() > 0);
        let whole = page_places(library, scope, Some(last), length);
        assert(next_place(library, scope, Some(last), library.articles.len()) is Some);
        assert(whole.len() > 0);
    }
}

spec fn start_of(cursor: Option<CursorView>) -> Option<OrderView> {
    match cursor {
        Some(c) => Some(cursor_order(c)),
        None => None,
    }
}

/// What can be shown is on the page or behind it.
proof fn lemma_on_or_behind(
    library: LibraryView,
    scope: ScopeView,
    after: Option<OrderView>,
    n: nat,
    k: int,
)
    requires
        library.wf(),
        n > 0,
        0 <= k < library.articles.len(),
        is_next(library, scope, after, library.articles[k]),
    ensures
        ({
            let places = page_places(library, scope, after, n);
            places.contains(k) || (places.len() == n && is_next(
                library,
                scope,
                Some(order_of(library.articles[places.last()])),
                library.articles[k],
            ))
        }),
    decreases n,
{
    lemma_next_place(library, scope, after, library.articles.len());
    let i = next_place(library, scope, after, library.articles.len())->0;
    let first = order_of(library.articles[i]);
    let rest = page_places(library, scope, Some(first), (n - 1) as nat);
    let places = page_places(library, scope, after, n);
    assert(places == seq![i] + rest);
    if i == k {
        assert(places[0] == k);
    } else {
        if i < k {
            assert(library.articles[i].stable_id != library.articles[k].stable_id);
        } else {
            assert(library.articles[k].stable_id != library.articles[i].stable_id);
        }
        lemma_shown_order(first, order_of(library.articles[k]));
        assert(is_next(library, scope, Some(first), library.articles[k]));
        if n == 1 {
            assert(places.last() == i);
        } else {
            lemma_on_or_behind(library, scope, Some(first), (n - 1) as nat, k);
            if rest.contains(k) {
                let at = choose|at: int| 0 <= at < rest.len() && rest[at] == k;
                assert(places[at + 1] == k);
            } else {
                assert(places.last() == rest.last());
            }
        }
    }
}

proof fn lemma_page(
    library: LibraryView,
    scope: ScopeView,
    limit: usize,
    cursor: Option<CursorView>,
    k: int,
)
    requires
        library.wf(),
        0 <= k < library.articles.len(),
        is_next(library, scope, start_of(cursor), library.articles[k]),
    ensures
        ({
            let page = page_of(library, scope, limit, cursor);
            shows(page, library.articles[k].stable_id) || (page.next is Some && is_next(
                library,
                scope,
                start_of(page.next),
                library.articles[k],
            ))
        }),
{
    let after = start_of(cursor);
    let length = page_length(limit);
    let page = page_of(library, scope, limit, cursor);
    let places = page_places(library, scope, after, length);
    lemma_on_or_behind(library, scope, after, length, k);
    law_pages_join(library, scope, after, length, 1);
    let longer = page_places(library, scope, after, length + 1);
    if places.contains(k) {
        let at = choose|at: int| 0 <= at < places.len() && places[at] == k;
        assert(page.items[at].stable_id == library.articles[k].stable_id);
    } else {
        if longer.len() <= length {
            law_short_pages_are_complete(library, scope, after, length + 1, k);
            assert(longer =~= places);
        }
        assert(start_of(page.next) == Some(order_of(library.articles[places.last()])));
    }
}

proof fn lemma_walk(
    library: LibraryView,
    scope: ScopeView,
    limit: usize,
    pages: Seq<PageView>,
    k: int,
    m: int,
)
    requires
        library.wf(),
        is_walk(library, scope, limit, pages),
        0 <= k < library.articles.len(),
        in_scope(library, library.articles[k], scope),
        0 <= m < pages.len(),
    ensures
        (exists|i: int|
            0 <= i <= m && shows(#[trigger] pages[i], library.articles[k].stable_id)) || (
        pages[m].next is Some && is_next(
            library,
            scope,
            start_of(pages[m].next),
            library.articles[k],
        )),
    decreases m,
{
    let id = library.articles[k].stable_id;
    if m == 0 {
        lemma_page(library, scope, limit, None, k);
        if shows(pages[0], id) {
            assert(shows(pages[m], id));
        }
    } else {
        lemma_walk(library, scope, limit, pages, k, m - 1);
        if !(exists|i: int| 0 <= i <= m - 1 && shows(#[trigger] pages[i], id)) {
            lemma_page(library, scope, limit, pages[m - 1].next, k);
            assert(pages[m - 1 + 1] == pages[m]);
        }
    }
}

/// Whatever a later page shows lies behind the cursor of an earlier one.
proof fn lemma_once(
    library: LibraryView,
    scope: ScopeView,
    limit: usize,
    pages: Seq<PageView>,
    k: int,
    i: int,
    j: int,
)
    requires
        library.wf(),
        is_walk(library, scope, limit, pages),
        0 <= k < library.articles.len(),
        0 <= i < j < pages.len(),
        shows(pages[i], library.articles[k].stable_id),
    ensures
        !shows(pages[j], library.articles[k].stable_id),
{
    if shows(pages[j], library.articles[k].stable_id) {
        let row = library.articles[k];
        lemma_start(library, scope, limit, pages, i, j);
        let start = start_of(pages[i].next)->0;
        let here = if i == 0 {
            None
        } else {
            pages[i - 1].next
        };
        assert(pages[i] == page_of(library, scope, limit, here)) by {
            if i > 0 {
                assert(pages[i - 1 + 1] == pages[i]);
            }
        }
        let places = page_places(library, scope, start_of(here), page_length(limit));
        law_pages_are_in_order(library, scope, start_of(here), page_length(limit));
        let a = choose|a: int|
            0 <= a < pages[i].items.len() && (#[trigger] pages[i].items[a]).stable_id == row.stable_id;
        lemma_same_row(library, places[a], k);
        law_pages_join(library, scope, start_of(here), page_length(limit), 1);
        assert(start == order_of(library.articles[places.last()]));
        let there = pages[j - 1].next;
        assert(pages[j - 1 + 1] == pages[j]);
        let later = page_places(library, scope, start_of(there), page_length(limit));
        law_pages_are_in_order(library, scope, start_of(there), page_length(limit));
        let b = choose|b: int|
            0 <= b < pages[j].items.len() && (#[trigger] pages[j].items[b]).stable_id == row.stable_id;
        lemma_same_row(library, later[b], k);
        let from = start_of(there)->0;
        assert(shown_before(from, order_of(row)));
        if from != start {
            lemma_shown_chain(start, from, order_of(row));
        }
        if a < places.len() - 1 {
            assert(shown_before(
                order_of(library.articles[places[a]]),
                order_of(library.articles[places[places.len() - 1]]),
            ));
            lemma_shown_chain(order_of(row), start, order_of(row));
        }
        lemma_shown_order(order_of(row), order_of(row));
    }
}

proof fn lemma_same_row(library: LibraryView, a: int, b: int)
    requires
        library.wf(),
        0 <= a < library.articles.len(),
        0 <= b < library.articles.len(),
        library.articles[a].stable_id == library.articles[b].stable_id,
    ensures
        a == b,
{
    if a < b {
        assert(library.articles[a].stable_id != library.articles[b].stable_id);
    } else if b < a {
        assert(library.articles[b].stable_id != library.articles[a].stable_id);
    }
}

/// The cursors move on.
proof fn lemma_start(
    library: LibraryView,
    scope: ScopeView,
    limit: usize,
    pages: Seq<PageView>,
    i: int,
    j: int,
)
    requires
        library.wf(),
        is_walk(library, scope, limit, pages),
        0 <= i < j < pages.len(),
    ensures
        pages[i].next is Some,
        pages[j - 1].next is Some,
        start_of(pages[j - 1].next) == start_of(pages[i].next) || shown_before(
            start_of(pages[i].next)->0,
            start_of(pages[j - 1].next)->0,
        ),
    decreases j - i,
{
    assert(pages[i].next is Some);
    assert(pages[j - 1].next is Some);
    if i < j - 1 {
        lemma_start(library, scope, limit, pages, i, j - 1);
        let before = pages[j - 2].next;
        assert(pages[j - 2 + 1] == page_of(library, scope, limit, before));
        assert(pages[j - 1] == page_of(library, scope, limit, before));
        let length = page_length(limit);
        let places = page_places(library, scope, start_of(before), length);
        law_pages_are_in_order(library, scope, start_of(before), length);
        law_pages_join(library, scope, start_of(before), length, 1);
        assert(start_of(pages[j - 1].next) == Some(
            order_of(library.articles[places[places.len() - 1]]),
        ));
        assert(shown_before(start_of(before)->0, start_of(pages[j - 1].next)->0));
        if start_of(before) != start_of(pages[i].next) {
            lemma_shown_chain(
                start_of(pages[i].next)->0,
                start_of(before)->0,
                start_of(pages[j - 1].next)->0,
            );
        }
    }
}

spec fn count_behind(
    library: LibraryView,
    scope: ScopeView,
    after: Option<OrderView>,
    n: nat,
) -> nat
    decreases n,
{
    if n == 0 {
        0
    } else {
        count_behind(library, scope, after, (n - 1) as nat) + if is_next(
            library,
            scope,
            after,
            library.articles[n - 1],
        ) {
            1nat
        } else {
            0nat
        }
    }
}

proof fn lemma_fewer_behind(
    library: LibraryView,
    scope: ScopeView,
    after: Option<OrderView>,
    later: OrderView,
    n: nat,
    k: int,
)
    requires
        n <= library.articles.len(),
        after is Some ==> shown_before(after->0, later),
        is_next(library, scope, after, library.articles[k]),
        !is_next(library, scope, Some(later), library.articles[k]),
    ensures
        count_behind(library, scope, Some(later), n) <= count_behind(library, scope, after, n),
        0 <= k < n ==> count_behind(library, scope, Some(later), n) < count_behind(
            library,
            scope,
            after,
            n,
        ),
    decreases n,
{
    if n > 0 {
        lemma_fewer_behind(library, scope, after, later, (n - 1) as nat, k);
        let row = library.articles[n - 1];
        if is_next(library, scope, Some(later), row) && after is Some {
            lemma_shown_chain(after->0, later, order_of(row));
        }
    }
}

/// The pages from a cursor on.
spec fn is_walk_from(
    library: LibraryView,
    scope: ScopeView,
    limit: usize,
    cursor: Option<CursorView>,
    pages: Seq<PageView>,
) -> bool {
    &&& pages.len() > 0
    &&& pages[0] == page_of(library, scope, limit, cursor)
    &&& pages.last().next is None
    &&& forall|i: int|
        0 <= i < pages.len() - 1 ==> (#[trigger] pages[i]).next is Some && pages[i + 1] == page_of(
            library,
            scope,
            limit,
            pages[i].next,
        )
}

proof fn lemma_walk_from(
    library: LibraryView,
    scope: ScopeView,
    limit: usize,
    cursor: Option<CursorView>,
) -> (pages: Seq<PageView>)
    requires
        library.wf(),
    ensures
        is_walk_from(library, scope, limit, cursor, pages),
    decreases count_behind(library, scope, start_of(cursor), library.articles.len()),
{
    let page = page_of(library, scope, limit, cursor);
    if page.next is None {
        seq![page]
    } else {
        let after = start_of(cursor);
        let length = page_length(limit);
        let places = page_places(library, scope, after, length);
        law_pages_are_in_order(library, scope, after, length);
        law_pages_join(library, scope, after, length, 1);
        let k = places[places.len() - 1];
        let later = order_of(library.articles[k]);
        assert(start_of(page.next) == Some(later));
        lemma_shown_order(later, later);
        lemma_fewer_behind(library, scope, after, later, library.articles.len(), k);
        let rest = lemma_walk_from(library, scope, limit, page.next);
        let pages = seq![page] + rest;
        assert(pages.last() == rest.last());
        assert forall|i: int| 0 <= i < pages.len() - 1 implies (#[trigger] pages[i]).next is Some
            && pages[i + 1] == page_of(library, scope, limit, pages[i].next) by {
            if i > 0 {
                assert(pages[i] == rest[i - 1]);
                assert(pages[i + 1] == rest[i - 1 + 1]);
            } else {
                assert(pages[1] == rest[0]);
            }
        }
        pages
    }
}

/// Whatever the length of the pages, following the cursors comes to an end.
pub proof fn law_walk_ends(library: LibraryView, scope: ScopeView, limit: usize)
    requires
        library.wf(),
    ensures
        exists|pages: Seq<PageView>| #[trigger] is_walk(library, scope, limit, pages),
{
    let pages = lemma_walk_from(library, scope, limit, None);
    assert(is_walk(library, scope, limit, pages));
}

/// An unread article that belongs to a scope.
pub open spec fn is_unread_in(library: LibraryView, scope: ScopeView) -> spec_fn(int) -> bool {
    |i: int| !library.articles[i].is_read && belongs(library, library.articles[i], scope)
}

/// Marking everything in a scope as read marks the unread articles that belong
/// to it and leaves all others as they are.
pub proof fn law_mark_all_marks_what_is_meant(
    library: LibraryView,
    scope: ScopeView,
    now: i64,
    i: int,
)
    requires
        library.wf(),
        0 <= i < library.articles.len(),
    ensures
        all_read(library, scope, now).len() == library.articles.len(),
        ({
            let before = library.articles[i];
            let after = all_read(library, scope, now)[i];
            &&& !before.is_read && belongs(library, before, scope) ==> after == (ArticleRowView {
                is_read: true,
                modified_at: now,
                ..before
            })
            &&& before.is_read || !belongs(library, before, scope) ==> after == before
        }),
{
    lemma_belongs(library, library.articles[i], scope);
}

/// As many articles are counted as unread in a scope as are unread and belong
/// to it.
pub proof fn law_unread_are_counted(library: LibraryView, scope: ScopeView)
    requires
        library.wf(),
    ensures
        exists|at: Seq<int>|
            #[trigger] are_the_places(
                at,
                library.articles.len() as int,
                is_unread_in(library, scope),
            ) && unread_meant(library, scope, library.articles.len()) == at.len(),
{
    let at = lemma_counted(library, scope, library.articles.len());
}

proof fn lemma_counted(library: LibraryView, scope: ScopeView, n: nat) -> (at: Seq<int>)
    requires
        library.wf(),
        n <= library.articles.len(),
    ensures
        are_the_places(at, n as int, is_unread_in(library, scope)),
        unread_meant(library, scope, n) == at.len(),
    decreases n,
{
    if n == 0 {
        Seq::empty()
    } else {
        let shorter = lemma_counted(library, scope, (n - 1) as nat);
        let wanted = is_unread_in(library, scope);
        lemma_one_wanted(shorter, n - 1, wanted);
        lemma_belongs(library, library.articles[n - 1], scope);
        if wanted(n - 1) {
            shorter.push(n - 1)
        } else {
            shorter
        }
    }
}

/// Taking back all stars takes back every star, changes nothing else, and
/// counts those that there were.
pub proof fn law_no_star_is_left(articles: Seq<ArticleRowView>, now: i64)
    ensures
        none_starred(articles, now).len() == articles.len(),
        forall|i: int|
            0 <= i < articles.len() ==> {
                let after = #[trigger] none_starred(articles, now)[i];
                &&& articles[i].is_starred ==> after == (ArticleRowView {
                    is_starred: false,
                    modified_at: now,
                    ..articles[i]
                })
                &&& !articles[i].is_starred ==> after == articles[i]
            },
        exists|at: Seq<int>|
            #[trigger] are_the_places(
                at,
                articles.len() as int,
                has_star(articles),
            ) && starred_among(articles) == at.len(),
{
    let at = lemma_stars(articles, articles.len());
}

/// An article with a star.
pub open spec fn has_star(articles: Seq<ArticleRowView>) -> spec_fn(int) -> bool {
    |i: int| articles[i].is_starred
}

proof fn lemma_stars(articles: Seq<ArticleRowView>, n: nat) -> (at: Seq<int>)
    requires
        n <= articles.len(),
    ensures
        are_the_places(at, n as int, has_star(articles)),
        starred_among(articles.take(n as int)) == at.len(),
        n == articles.len() ==> starred_among(articles) == at.len(),
    decreases n,
{
    let wanted = has_star(articles);
    if n == articles.len() {
        assert(articles.take(n as int) == articles);
    }
    if n == 0 {
        Seq::empty()
    } else {
        let shorter = lemma_stars(articles, (n - 1) as nat);
        lemma_one_wanted(shorter, n - 1, wanted);
        assert(articles.take(n as int).drop_last() == articles.take(n - 1));
        assert(articles.take(n as int).last() == articles[n - 1]);
        if wanted(n - 1) {
            shorter.push(n - 1)
        } else {
            shorter
        }
    }
}

} // verus!
