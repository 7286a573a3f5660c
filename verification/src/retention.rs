//! Articles that have had their time, and folders with something unread.

use crate::articles::{folder_of, unread_meant, with_articles};
use crate::library::{articles_wf, Library, LibraryView};
use crate::records::{
    article_rows, unread_views, ArticleRow, ArticleRowView, ScopeView, UnreadSummaryItem,
    UnreadView,
};
use crate::sorting::{
    in_key_order, key_views, law_ordered_is_complete, place_list, sort_by_keys, KeyView, SortKey,
};
use crate::text::{lower, lowered, same};
use vstd::prelude::*;

verus! {

/// The articles that are not struck out.
pub open spec fn kept_rows(articles: Seq<ArticleRowView>, struck: Seq<bool>) -> Seq<ArticleRowView>
    decreases articles.len(),
{
    if articles.len() == 0 {
        Seq::empty()
    } else {
        let before = kept_rows(articles.drop_last(), struck.drop_last());
        if struck.last() {
            before
        } else {
            before.push(articles.last())
        }
    }
}

/// How many are struck out.
pub open spec fn struck_count(struck: Seq<bool>) -> nat
    decreases struck.len(),
{
    if struck.len() == 0 {
        0
    } else {
        struck_count(struck.drop_last()) + if struck.last() {
            1nat
        } else {
            0nat
        }
    }
}

proof fn lemma_kept_members(articles: Seq<ArticleRowView>, struck: Seq<bool>)
    requires
        articles.len() == struck.len(),
    ensures
        forall|i: int|
            0 <= i < kept_rows(articles, struck).len() ==> exists|k: int|
                0 <= k < articles.len() && !struck[k] && #[trigger] articles[k]
                    == #[trigger] kept_rows(articles, struck)[i],
    decreases articles.len(),
{
    if articles.len() > 0 {
        let a = articles.drop_last();
        let s = struck.drop_last();
        lemma_kept_members(a, s);
        let before = kept_rows(a, s);
        let all = kept_rows(articles, struck);
        assert forall|i: int| 0 <= i < all.len() implies exists|k: int|
            0 <= k < articles.len() && !struck[k] && #[trigger] articles[k] == #[trigger] all[i] by {
            if i < before.len() {
                assert(all[i] == before[i]);
                let k = choose|k: int|
                    0 <= k < a.len() && !s[k] && #[trigger] a[k] == before[i];
                assert(articles[k] == all[i] && !struck[k]);
            } else {
                assert(articles[articles.len() - 1] == all[i]);
            }
        }
    }
}

/// Striking out articles keeps the rest in order.
pub proof fn lemma_kept_wf(
    articles: Seq<ArticleRowView>,
    struck: Seq<bool>,
    library: LibraryView,
)
    requires
        articles_wf(articles, library.feeds),
        articles.len() == struck.len(),
    ensures
        articles_wf(kept_rows(articles, struck), library.feeds),
    decreases articles.len(),
{
    if articles.len() > 0 {
        let a = articles.drop_last();
        let s = struck.drop_last();
        assert(articles_wf(a, library.feeds)) by {
            assert forall|i: int| 0 <= i < a.len() implies #[trigger] a[i] == articles[i] by {}
        }
        lemma_kept_wf(a, s, library);
        lemma_kept_members(a, s);
        let before = kept_rows(a, s);
        let all = kept_rows(articles, struck);
        let last = articles[articles.len() - 1];
        if !struck.last() {
            assert(all == before.push(last));
            assert forall|i: int, j: int| 0 <= i < j < all.len() implies (
            #[trigger] all[i]).stable_id != (#[trigger] all[j]).stable_id by {
                assert(all[i] == before[i]);
                if j == before.len() {
                    let k = choose|k: int|
                        0 <= k < a.len() && !s[k] && #[trigger] a[k] == before[i];
                    assert(articles[k] == before[i]);
                    assert(articles[k].stable_id != articles[articles.len() - 1].stable_id);
                } else {
                    assert(all[j] == before[j]);
                }
            }
        }
    }
}

/// An article has had its time: it has no star, and its time lies before the
/// cutoff.
pub open spec fn is_past(row: ArticleRowView, cutoff: i64) -> bool {
    !row.is_starred && row.retention_at < cutoff
}

/// The places of the first `count` articles that have had their time.
pub open spec fn past_places(articles: Seq<ArticleRowView>, cutoff: i64, count: nat) -> Seq<int>
    decreases count,
{
    if count == 0 {
        Seq::empty()
    } else {
        let before = past_places(articles, cutoff, (count - 1) as nat);
        if is_past(articles[count - 1], cutoff) {
            before.push(count - 1)
        } else {
            before
        }
    }
}

/// What an article is cleaned up by: its time, then its id.
pub open spec fn past_key(row: ArticleRowView) -> KeyView {
    KeyView {
        group: None,
        rank: row.retention_at,
        name: ""@,
        id: 0,
        text_id: row.stable_id,
    }
}

/// The keys of the articles at some places.
pub open spec fn past_keys(articles: Seq<ArticleRowView>, places: Seq<int>) -> Seq<KeyView> {
    Seq::new(places.len(), |i: int| past_key(articles[places[i]]))
}

/// The permitted number of articles to clean up at once that is nearest to
/// `batch`.
pub open spec fn batch_length(batch: usize) -> nat {
    if batch < 1 {
        1
    } else if batch > 10_000 {
        10_000
    } else {
        batch as nat
    }
}

/// The places of the articles that are cleaned up: of those that have had
/// their time the oldest ones, as many as are cleaned up at once.
pub open spec fn doomed(articles: Seq<ArticleRowView>, cutoff: i64, most: nat) -> Seq<int> {
    let places = past_places(articles, cutoff, articles.len());
    let order = in_key_order(past_keys(articles, places));
    let count = if order.len() > most {
        most
    } else {
        order.len()
    };
    Seq::new(count, |i: int| places[order[i]])
}

/// Which articles stand at some places.
pub open spec fn marks_at(length: nat, places: Seq<int>) -> Seq<bool> {
    Seq::new(length, |i: int| places.contains(i))
}

/// The articles after a clean-up.
pub open spec fn cleaned_up(articles: Seq<ArticleRowView>, cutoff: i64, most: nat) -> Seq<
    ArticleRowView,
> {
    kept_rows(articles, marks_at(articles.len(), doomed(articles, cutoff, most)))
}

/// Which articles of a feed have had their time.
pub open spec fn past_of_feed(articles: Seq<ArticleRowView>, feed: Seq<char>, cutoff: i64) -> Seq<
    bool,
> {
    Seq::new(
        articles.len(),
        |i: int| articles[i].feed_stable_id == feed && is_past(articles[i], cutoff),
    )
}

proof fn lemma_struck_len(articles: Seq<ArticleRowView>, struck: Seq<bool>)
    requires
        articles.len() == struck.len(),
    ensures
        kept_rows(articles, struck).len() + struck_count(struck) == articles.len(),
    decreases articles.len(),
{
    if articles.len() > 0 {
        lemma_struck_len(articles.drop_last(), struck.drop_last());
    }
}

impl Library {
    /// Strikes out the articles that are marked, and tells how many those are.
    fn strike(&mut self, struck: &Vec<bool>) -> (r: usize)
        requires
            old(self)@.wf(),
            struck@.len() == old(self)@.articles.len(),
        ensures
            final(self)@.wf(),
            final(self)@ == with_articles(
                old(self)@,
                kept_rows(old(self)@.articles, struck@),
            ),
            r == struck_count(struck@),
    {
        let ghost before = self@;
        let ghost all = before.articles;
        proof {
            lemma_kept_wf(all, struck@, before);
            lemma_struck_len(all, struck@);
        }
        let mut kept: Vec<ArticleRow> = Vec::new();
        let mut count: usize = 0;
        let mut i: usize = 0;
        assert(article_rows(kept@) == Seq::<ArticleRowView>::empty());
        while i < self.articles.len()
            invariant
                i <= self.articles@.len() == struck@.len(),
                self@ == before,
                all == before.articles,
                count <= i,
                count == struck_count(struck@.take(i as int)),
                article_rows(kept@) == kept_rows(all.take(i as int), struck@.take(i as int)),
            decreases self.articles@.len() - i,
        {
            assert(all.take(i + 1).drop_last() == all.take(i as int));
            assert(struck@.take(i + 1).drop_last() == struck@.take(i as int));
            assert(all.take(i + 1).last() == self.articles@[i as int]@);
            let ghost sofar = article_rows(kept@);
            if struck[i] {
                count += 1;
            } else {
                let row = self.articles[i].clone();
                kept.push(row);
                assert(article_rows(kept@) == sofar.push(row@));
            }
            i += 1;
        }
        assert(all.take(i as int) == all);
        assert(struck@.take(i as int) == struck@);
        self.articles = kept;
        count
    }

    /// Removes articles that have had their time, the oldest first, and tells
    /// how many it were. Starred articles stay.
    pub fn cleanup_retention(&mut self, cutoff: i64, batch_size: usize) -> (r: usize)
        requires
            old(self)@.wf(),
        ensures
            final(self)@.wf(),
            final(self)@ == with_articles(
                old(self)@,
                cleaned_up(old(self)@.articles, cutoff, batch_length(batch_size)),
            ),
            r == struck_count(
                marks_at(
                    old(self)@.articles.len(),
                    doomed(old(self)@.articles, cutoff, batch_length(batch_size)),
                ),
            ),
    {
        let ghost before = self@;
        let ghost all = before.articles;
        let most: usize = if batch_size < 1 {
            1
        } else if batch_size > 10_000 {
            10_000
        } else {
            batch_size
        };
        let mut places: Vec<usize> = Vec::new();
        let mut keys: Vec<SortKey> = Vec::new();
        let mut i: usize = 0;
        assert(place_list(places@) == Seq::<int>::empty());
        while i < self.articles.len()
            invariant
                i <= self.articles@.len(),
                self@ == before,
                all == before.articles,
                place_list(places@) == past_places(all, cutoff, i as nat),
                keys@.len() == places@.len(),
                forall|j: int|
                    0 <= j < places@.len() ==> #[trigger] places@[j] < self.articles@.len(),
                forall|j: int|
                    0 <= j < keys@.len() ==> #[trigger] keys@[j]@ == past_key(
                        all[places@[j] as int],
                    ),
            decreases self.articles@.len() - i,
        {
            assert(all[i as int] == self.articles@[i as int]@);
            let ghost sofar = place_list(places@);
            if !self.articles[i].is_starred && self.articles[i].retention_at < cutoff {
                let key = SortKey {
                    group: None,
                    rank: self.articles[i].retention_at,
                    name: "".to_owned(),
                    id: 0,
                    text_id: self.articles[i].stable_id.clone(),
                };
                places.push(i);
                keys.push(key);
                assert(place_list(places@) == sofar.push(i as int));
            }
            i += 1;
        }
        let ghost listed = place_list(places@);
        assert(key_views(keys@) == past_keys(all, listed));
        let order = sort_by_keys(&keys);
        let mut struck: Vec<bool> = Vec::new();
        let mut k: usize = 0;
        while k < self.articles.len()
            invariant
                k <= self.articles@.len(),
                struck@.len() == k,
                forall|j: int| 0 <= j < k ==> !#[trigger] struck@[j],
            decreases self.articles@.len() - k,
        {
            struck.push(false);
            k += 1;
        }
        let count: usize = if order.len() > most {
            most
        } else {
            order.len()
        };
        let ghost gone = doomed(all, cutoff, most as nat);
        assert(place_list(order@).len() == order@.len());
        assert(gone.len() == count);
        let mut m: usize = 0;
        assert forall|j: int| 0 <= j < struck@.len() implies #[trigger] struck@[j] == gone.take(
            0,
        ).contains(j) by {}
        while m < count
            invariant
                m <= count <= order@.len(),
                gone.len() == count,
                struck@.len() == all.len(),
                listed == place_list(places@),
                forall|j: int| 0 <= j < order@.len() ==> #[trigger] order@[j] < places@.len(),
                forall|j: int| 0 <= j < places@.len() ==> #[trigger] places@[j] < all.len(),
                forall|j: int|
                    0 <= j < count ==> #[trigger] gone[j] == places@[order@[j] as int] as int,
                forall|j: int|
                    0 <= j < struck@.len() ==> #[trigger] struck@[j] == gone.take(
                        m as int,
                    ).contains(j),
            decreases count - m,
        {
            let at = places[order[m]];
            let ghost sofar = gone.take(m as int);
            let ghost longer = gone.take(m + 1);
            let ghost old_marks = struck@;
            assert(longer == sofar.push(at as int));
            struck.set(at, true);
            assert forall|j: int| 0 <= j < struck@.len() implies #[trigger] struck@[j]
                == longer.contains(j) by {
                if j == at {
                    assert(longer[m as int] == j);
                } else {
                    assert(old_marks[j] == sofar.contains(j));
                    if sofar.contains(j) {
                        let x = choose|x: int| 0 <= x < sofar.len() && sofar[x] == j;
                        assert(longer[x] == j);
                    }
                    if longer.contains(j) {
                        let x = choose|x: int| 0 <= x < longer.len() && longer[x] == j;
                        assert(sofar[x] == j);
                    }
                }
            }
            m += 1;
        }
        assert(gone.take(m as int) == gone);
        assert(struck@ == marks_at(all.len(), gone));
        self.strike(&struck)
    }

    /// Removes the articles of a feed that have had their time, and tells how
    /// many it were. Starred articles stay.
    pub fn cleanup_feed_retention(&mut self, feed_id: &str, cutoff: i64) -> (r: usize)
        requires
            old(self)@.wf(),
        ensures
            final(self)@.wf(),
            final(self)@ == with_articles(
                old(self)@,
                kept_rows(
                    old(self)@.articles,
                    past_of_feed(old(self)@.articles, feed_id@, cutoff),
                ),
            ),
            r == struck_count(past_of_feed(old(self)@.articles, feed_id@, cutoff)),
    {
        let ghost all = self@.articles;
        let ghost wanted = past_of_feed(all, feed_id@, cutoff);
        let mut struck: Vec<bool> = Vec::new();
        let mut i: usize = 0;
        while i < self.articles.len()
            invariant
                i <= self.articles@.len(),
                all == self@.articles,
                wanted == past_of_feed(all, feed_id@, cutoff),
                struck@.len() == i,
                forall|j: int| 0 <= j < i ==> #[trigger] struck@[j] == wanted[j],
            decreases self.articles@.len() - i,
        {
            assert(all[i as int] == self.articles@[i as int]@);
            let gone = !self.articles[i].is_starred && self.articles[i].retention_at < cutoff
                && same(self.articles[i].feed_stable_id.as_str(), feed_id);
            struck.push(gone);
            i += 1;
        }
        assert(struck@ == wanted);
        self.strike(&struck)
    }
}

proof fn lemma_past_places(articles: Seq<ArticleRowView>, cutoff: i64, count: nat)
    requires
        count <= articles.len(),
    ensures
        forall|j: int|
            0 <= j < past_places(articles, cutoff, count).len() ==> 0 <= #[trigger] past_places(
                articles,
                cutoff,
                count,
            )[j] < count && is_past(articles[past_places(articles, cutoff, count)[j]], cutoff),
    decreases count,
{
    if count > 0 {
        lemma_past_places(articles, cutoff, (count - 1) as nat);
        let before = past_places(articles, cutoff, (count - 1) as nat);
        let all = past_places(articles, cutoff, count);
        assert forall|j: int| 0 <= j < all.len() implies 0 <= #[trigger] all[j] < count && is_past(
            articles[all[j]],
            cutoff,
        ) by {
            if j < before.len() {
                assert(all[j] == before[j]);
            }
        }
    }
}

/// A clean-up removes nothing but articles that have had their time: starred
/// articles stay, and so do those whose time is not before the cutoff.
pub proof fn law_cleanup_spares(
    articles: Seq<ArticleRowView>,
    cutoff: i64,
    most: nat,
    feed: Seq<char>,
    i: int,
)
    requires
        0 <= i < articles.len(),
        !is_past(articles[i], cutoff),
    ensures
        cleaned_up(articles, cutoff, most).contains(articles[i]),
        kept_rows(articles, past_of_feed(articles, feed, cutoff)).contains(articles[i]),
{
    let places = past_places(articles, cutoff, articles.len());
    let keys = past_keys(articles, places);
    let gone = doomed(articles, cutoff, most);
    lemma_past_places(articles, cutoff, articles.len());
    law_ordered_is_complete(keys, keys.len());
    assert(!gone.contains(i)) by {
        if gone.contains(i) {
            let k = choose|k: int| 0 <= k < gone.len() && gone[k] == i;
            let at = in_key_order(keys)[k];
            assert(0 <= at < places.len());
            assert(is_past(articles[places[at]], cutoff));
        }
    }
    lemma_not_struck_stays(articles, marks_at(articles.len(), gone), i);
    lemma_not_struck_stays(articles, past_of_feed(articles, feed, cutoff), i);
}

proof fn lemma_not_struck_stays(articles: Seq<ArticleRowView>, struck: Seq<bool>, i: int)
    requires
        articles.len() == struck.len(),
        0 <= i < articles.len(),
        !struck[i],
    ensures
        kept_rows(articles, struck).contains(articles[i]),
    decreases articles.len(),
{
    let a = articles.drop_last();
    let s = struck.drop_last();
    let before = kept_rows(a, s);
    let all = kept_rows(articles, struck);
    if i < a.len() {
        lemma_not_struck_stays(a, s, i);
        let k = choose|k: int| 0 <= k < before.len() && before[k] == a[i];
        assert(all[k] == articles[i]);
    } else {
        assert(all[all.len() - 1] == articles[i]);
    }
}

/// What is left of a feed after its clean-up has no star-less article from
/// before the cutoff.
pub proof fn law_feed_cleanup_is_thorough(
    articles: Seq<ArticleRowView>,
    feed: Seq<char>,
    cutoff: i64,
    i: int,
)
    requires
        0 <= i < kept_rows(articles, past_of_feed(articles, feed, cutoff)).len(),
        kept_rows(articles, past_of_feed(articles, feed, cutoff))[i].feed_stable_id == feed,
    ensures
        !is_past(kept_rows(articles, past_of_feed(articles, feed, cutoff))[i], cutoff),
{
    let struck = past_of_feed(articles, feed, cutoff);
    lemma_kept_members(articles, struck);
    let k = choose|k: int|
        0 <= k < articles.len() && !struck[k] && #[trigger] articles[k] == kept_rows(
            articles,
            struck,
        )[i];
    assert(struck[k] == (articles[k].feed_stable_id == feed && is_past(articles[k], cutoff)));
}

/// The folders of the first `count` with something unread, and how much.
pub open spec fn unread_folders(library: LibraryView, count: nat) -> Seq<UnreadView>
    decreases count,
{
    if count == 0 {
        Seq::empty()
    } else {
        let before = unread_folders(library, (count - 1) as nat);
        let folder = library.folders[count - 1].folder;
        let unread = unread_meant(library, ScopeView::Folder(folder.id), library.articles.len());
        if unread > 0 {
            before.push(
                UnreadView {
                    folder_id: folder.id,
                    folder_name: folder.name,
                    unread: unread as i64,
                },
            )
        } else {
            before
        }
    }
}

/// What a folder with something unread is ordered by: the most unread first,
/// then its name without regard to the case of ASCII letters, then its id.
pub open spec fn unread_key(item: UnreadView) -> KeyView {
    KeyView {
        group: None,
        rank: (-item.unread) as i64,
        name: lower(item.folder_name),
        id: item.folder_id,
        text_id: ""@,
    }
}

/// The folders with the most unread articles, one to ten of them.
pub open spec fn unread_summary(library: LibraryView, limit: usize) -> Seq<UnreadView> {
    let all = unread_folders(library, library.folders.len());
    let order = in_key_order(Seq::new(all.len(), |i: int| unread_key(all[i])));
    let most: nat = if limit < 1 {
        1
    } else if limit > 10 {
        10
    } else {
        limit as nat
    };
    Seq::new(
        if order.len() > most {
            most
        } else {
            order.len()
        },
        |i: int| all[order[i]],
    )
}

impl Library {
    fn folder_unread(&self, folder: i64, homes: &Vec<Option<i64>>) -> (r: usize)
        requires
            homes@.len() == self.articles@.len(),
            forall|j: int|
                0 <= j < homes@.len() ==> #[trigger] homes@[j] == folder_of(
                    self@,
                    self@.articles[j].feed_stable_id,
                ),
        ensures
            r == unread_meant(self@, ScopeView::Folder(folder), self@.articles.len()),
    {
        let mut count: usize = 0;
        let mut i: usize = 0;
        while i < self.articles.len()
            invariant
                i <= self.articles@.len() == homes@.len(),
                forall|j: int|
                    0 <= j < homes@.len() ==> #[trigger] homes@[j] == folder_of(
                        self@,
                        self@.articles[j].feed_stable_id,
                    ),
                count <= i,
                count == unread_meant(self@, ScopeView::Folder(folder), i as nat),
            decreases self.articles@.len() - i,
        {
            assert(self@.articles[i as int] == self.articles@[i as int]@);
            let here = match homes[i] {
                Some(id) => id == folder,
                None => false,
            };
            assert(here == (homes@[i as int] == Some(folder)));
            if here && !self.articles[i].is_read {
                count += 1;
            }
            i += 1;
        }
        count
    }

    /// The folders with the most unread articles, one to ten of them.
    pub fn unread_folder_summary(&self, limit: usize) -> (r: Vec<UnreadSummaryItem>)
        requires
            self@.articles.len() <= i64::MAX,
        ensures
            unread_views(r@) == unread_summary(self@, limit),
    {
        let mut homes: Vec<Option<i64>> = Vec::new();
        let mut i: usize = 0;
        while i < self.articles.len()
            invariant
                i <= self.articles@.len(),
                homes@.len() == i,
                forall|j: int|
                    0 <= j < i ==> #[trigger] homes@[j] == folder_of(
                        self@,
                        self@.articles[j].feed_stable_id,
                    ),
            decreases self.articles@.len() - i,
        {
            assert(self@.articles[i as int] == self.articles@[i as int]@);
            homes.push(self.folder_of_feed(self.articles[i].feed_stable_id.as_str()));
            i += 1;
        }
        let mut all: Vec<UnreadSummaryItem> = Vec::new();
        let mut keys: Vec<SortKey> = Vec::new();
        let mut k: usize = 0;
        assert(unread_views(all@) == Seq::<UnreadView>::empty());
        while k < self.folders.len()
            invariant
                k <= self.folders@.len(),
                self.articles@.len() <= i64::MAX,
                homes@.len() == self.articles@.len(),
                forall|j: int|
                    0 <= j < homes@.len() ==> #[trigger] homes@[j] == folder_of(
                        self@,
                        self@.articles[j].feed_stable_id,
                    ),
                unread_views(all@) == unread_folders(self@, k as nat),
                keys@.len() == all@.len(),
                forall|j: int|
                    0 <= j < keys@.len() ==> #[trigger] keys@[j]@ == unread_key(all@[j]@),
            decreases self.folders@.len() - k,
        {
            assert(self@.folders[k as int] == self.folders@[k as int]@);
            let ghost sofar = unread_views(all@);
            let count = self.folder_unread(self.folders[k].folder.id, &homes);
            proof {
                lemma_unread_bound(
                    self@,
                    ScopeView::Folder(self.folders@[k as int].folder.id),
                    self@.articles.len(),
                );
            }
            if count > 0 {
                let unread: i64 = count as i64;
                let item = UnreadSummaryItem {
                    folder_id: self.folders[k].folder.id,
                    folder_name: self.folders[k].folder.name.clone(),
                    unread,
                };
                let key = SortKey {
                    group: None,
                    rank: -unread,
                    name: lowered(self.folders[k].folder.name.as_str()),
                    id: self.folders[k].folder.id,
                    text_id: "".to_owned(),
                };
                assert(key@ == unread_key(item@));
                all.push(item);
                keys.push(key);
                assert(unread_views(all@) == sofar.push(item@));
            }
            k += 1;
        }
        let ghost found = unread_views(all@);
        assert(key_views(keys@) == Seq::new(found.len(), |i: int| unread_key(found[i])));
        let order = sort_by_keys(&keys);
        assert(place_list(order@).len() == order@.len());
        let most: usize = if limit < 1 {
            1
        } else if limit > 10 {
            10
        } else {
            limit
        };
        let count: usize = if order.len() > most {
            most
        } else {
            order.len()
        };
        let ghost wanted = unread_summary(self@, limit);
        let mut out: Vec<UnreadSummaryItem> = Vec::new();
        let mut m: usize = 0;
        while m < count
            invariant
                m <= count <= order@.len(),
                out@.len() == m,
                wanted.len() == count,
                forall|j: int| 0 <= j < order@.len() ==> #[trigger] order@[j] < all@.len(),
                forall|j: int|
                    0 <= j < count ==> #[trigger] wanted[j] == all@[order@[j] as int]@,
                forall|j: int| 0 <= j < m ==> #[trigger] out@[j]@ == wanted[j],
            decreases count - m,
        {
            let item = all[order[m]].clone();
            assert(item@ == wanted[m as int]);
            out.push(item);
            m += 1;
        }
        assert(unread_views(out@) == wanted);
        out
    }
}

proof fn lemma_unread_bound(library: LibraryView, scope: ScopeView, count: nat)
    ensures
        unread_meant(library, scope, count) <= count,
    decreases count,
{
    if count > 0 {
        lemma_unread_bound(library, scope, (count - 1) as nat);
    }
}

} // verus!
