//! The articles of a library: reading state, retention, and what is shown.

use crate::images::ImageSource;
use crate::library::{article_at, articles_wf, feed_at, has_feed, Library, LibraryView};
use crate::order::{comes_before, text_before};
use crate::parser::{copied, FeedFormat};
use crate::records::{
    list_item_views, storage_failure, ArticleListItem, ArticlePage, ArticleRow, ArticleRowView,
    ArticleScope, CursorView, FullArticle, FullArticleView, ListItemView, PageCursor, PageView,
    ScopeView, StorageError, StorageErrorView,
};
use crate::sorting::place_list;
use crate::text::{join, joined, replace, replaced, same, split_words, view_of, views, words};
use vstd::prelude::*;

verus! {

/// The name under which a format is kept.
pub open spec fn format_kept(format: FeedFormat) -> Seq<char> {
    match format {
        FeedFormat::Rss => "rss"@,
        FeedFormat::Atom => "atom"@,
        FeedFormat::Json => "json"@,
    }
}

/// The name under which a format is kept.
pub fn format_string(value: FeedFormat) -> (r: &'static str)
    ensures
        r@ == format_kept(value),
{
    match value {
        FeedFormat::Rss => "rss",
        FeedFormat::Atom => "atom",
        FeedFormat::Json => "json",
    }
}

/// The format that is kept under a name.
pub fn parse_format(value: &str) -> (r: Option<FeedFormat>)
    ensures
        r == if value@ == "rss"@ {
            Some(FeedFormat::Rss)
        } else if value@ == "atom"@ {
            Some(FeedFormat::Atom)
        } else if value@ == "json"@ {
            Some(FeedFormat::Json)
        } else {
            None
        },
{
    if same(value, "rss") {
        Some(FeedFormat::Rss)
    } else if same(value, "atom") {
        Some(FeedFormat::Atom)
    } else if same(value, "json") {
        Some(FeedFormat::Json)
    } else {
        None
    }
}

/// A format is read as it was kept.
pub proof fn law_formats_are_kept(a: FeedFormat, b: FeedFormat)
    requires
        format_kept(a) == format_kept(b),
    ensures
        a == b,
{
    reveal_strlit("rss");
    reveal_strlit("atom");
    reveal_strlit("json");
    assert("rss"@.len() == 3 && "atom"@.len() == 4 && "json"@.len() == 4);
    assert("atom"@[0] == 'a' && "json"@[0] == 'j');
}

/// The name under which the source of a picture is kept.
pub open spec fn source_kept(source: ImageSource) -> Seq<char> {
    match source {
        ImageSource::InlineHtml => "inline"@,
        ImageSource::MediaThumbnail => "media-thumbnail"@,
        ImageSource::MediaContent => "media-content"@,
        ImageSource::Enclosure => "enclosure"@,
        ImageSource::JsonImage => "json-image"@,
    }
}

/// The name under which the source of a picture is kept.
pub fn image_source_string(value: ImageSource) -> (r: &'static str)
    ensures
        r@ == source_kept(value),
{
    match value {
        ImageSource::InlineHtml => "inline",
        ImageSource::MediaThumbnail => "media-thumbnail",
        ImageSource::MediaContent => "media-content",
        ImageSource::Enclosure => "enclosure",
        ImageSource::JsonImage => "json-image",
    }
}

/// A word of a query as a prefix to look for, quoted.
pub open spec fn query_term(word: Seq<char>) -> Seq<char> {
    "\""@ + replace(word, "\""@, "\"\""@) + "\"*"@
}

/// The first words of a query as terms.
pub open spec fn query_terms(list: Seq<Seq<char>>) -> Seq<Seq<char>> {
    Seq::new(
        if list.len() > 20 {
            20
        } else {
            list.len()
        },
        |i: int| query_term(list[i]),
    )
}

/// What to look for, so that all words of a query are found and none is taken
/// for an operator; nothing where the query has no words.
pub open spec fn search_for(query: Seq<char>) -> Option<Seq<char>> {
    if words(query).len() == 0 {
        None
    } else {
        Some(join(query_terms(words(query)), " AND "@))
    }
}

/// What to look for where a reader asks for `value`.
pub fn safe_fts_query(value: &str) -> (r: Option<String>)
    ensures
        view_of(r) == search_for(value@),
{
    let list = split_words(value);
    let ghost all = words(value@);
    assert(all.len() == list@.len());
    if list.len() == 0 {
        return None;
    }
    let count: usize = if list.len() > 20 {
        20
    } else {
        list.len()
    };
    let mut terms: Vec<String> = Vec::new();
    let mut i: usize = 0;
    while i < count
        invariant
            i <= count <= list@.len(),
            views(list@) == all,
            terms@.len() == i,
            count == query_terms(all).len(),
            forall|j: int| 0 <= j < i ==> #[trigger] terms@[j]@ == query_terms(all)[j],
        decreases count - i,
    {
        assert(all[i as int] == list@[i as int]@);
        let inner = replaced(list[i].as_str(), "\"", "\"\"");
        let mut term = "\"".to_owned();
        term.append(inner.as_str());
        term.append("\"*");
        assert(term@ == query_terms(all)[i as int]);
        terms.push(term);
        i += 1;
    }
    assert(views(terms@) == query_terms(all));
    Some(joined(&terms, " AND "))
}

/// The folder of the feed with an id.
pub open spec fn folder_of(library: LibraryView, feed: Seq<char>) -> Option<i64> {
    match feed_at(library.feeds, feed, 0) {
        Some(k) => library.feeds[k].feed.folder_id,
        None => None,
    }
}

/// An article is among those that are meant.
pub open spec fn in_scope(library: LibraryView, row: ArticleRowView, scope: ScopeView) -> bool {
    match scope {
        ScopeView::Library => true,
        ScopeView::Unread => !row.is_read,
        ScopeView::Starred => row.is_starred,
        ScopeView::Feed(id) => row.feed_stable_id == id,
        ScopeView::Folder(id) => folder_of(library, row.feed_stable_id) == Some(id),
    }
}

/// An article that is unread and among those that are meant.
pub open spec fn unread_in(library: LibraryView, row: ArticleRowView, scope: ScopeView) -> bool {
    !row.is_read && in_scope(library, row, scope)
}

/// An article marked as read or unread.
pub open spec fn read_article(row: ArticleRowView, read: bool, now: i64) -> ArticleRowView {
    ArticleRowView { is_read: read, modified_at: now, ..row }
}

/// An article with or without a star.
pub open spec fn starred_article(row: ArticleRowView, starred: bool, now: i64) -> ArticleRowView {
    ArticleRowView { is_starred: starred, modified_at: now, ..row }
}

/// The library with other articles.
pub open spec fn with_articles(library: LibraryView, articles: Seq<ArticleRowView>) -> LibraryView {
    LibraryView { articles, ..library }
}

/// The articles after all unread ones that are meant were marked as read.
pub open spec fn all_read(library: LibraryView, scope: ScopeView, now: i64) -> Seq<ArticleRowView> {
    library.articles.map_values(
        |row: ArticleRowView|
            if unread_in(library, row, scope) {
                read_article(row, true, now)
            } else {
                row
            },
    )
}

/// How many of the first `count` articles are unread and meant.
pub open spec fn unread_meant(library: LibraryView, scope: ScopeView, count: nat) -> nat
    decreases count,
{
    if count == 0 {
        0
    } else {
        unread_meant(library, scope, (count - 1) as nat) + if unread_in(
            library,
            library.articles[count - 1],
            scope,
        ) {
            1nat
        } else {
            0nat
        }
    }
}

/// The articles after all stars were taken back.
pub open spec fn none_starred(articles: Seq<ArticleRowView>, now: i64) -> Seq<ArticleRowView> {
    articles.map_values(
        |row: ArticleRowView|
            if row.is_starred {
                starred_article(row, false, now)
            } else {
                row
            },
    )
}

/// Rows that keep ids, titles and feeds stay in order.
pub proof fn lemma_same_articles(
    before: Seq<ArticleRowView>,
    after: Seq<ArticleRowView>,
    library: LibraryView,
)
    requires
        articles_wf(before, library.feeds),
        before.len() == after.len(),
        forall|i: int|
            0 <= i < before.len() ==> (#[trigger] after[i]).stable_id == before[i].stable_id
                && after[i].title == before[i].title && after[i].feed_stable_id
                == before[i].feed_stable_id,
    ensures
        articles_wf(after, library.feeds),
{
    assert forall|i: int| 0 <= i < after.len() implies has_feed(
        library.feeds,
        (#[trigger] after[i]).feed_stable_id,
    ) by {
        assert(has_feed(library.feeds, before[i].feed_stable_id));
    }
    assert forall|i: int, j: int| 0 <= i < j < after.len() implies (#[trigger] after[i]).stable_id
        != (#[trigger] after[j]).stable_id by {
        assert(before[i].stable_id != before[j].stable_id);
    }
}

impl Library {
    pub(crate) fn folder_of_feed(&self, feed: &str) -> (r: Option<i64>)
        ensures
            r == folder_of(self@, feed@),
    {
        match self.find_feed(feed) {
            Some(k) => {
                assert(self@.feeds[k as int] == self.feeds@[k as int]@);
                self.feeds[k].feed.folder_id
            },
            None => None,
        }
    }

    fn meant(&self, i: usize, scope: ArticleScope) -> (r: bool)
        requires
            i < self.articles@.len(),
        ensures
            r == in_scope(self@, self@.articles[i as int], scope@),
    {
        assert(self@.articles[i as int] == self.articles@[i as int]@);
        match scope {
            ArticleScope::Library => true,
            ArticleScope::Unread => !self.articles[i].is_read,
            ArticleScope::Starred => self.articles[i].is_starred,
            ArticleScope::Feed(id) => same(self.articles[i].feed_stable_id.as_str(), id),
            ArticleScope::Folder(id) => match self.folder_of_feed(
                self.articles[i].feed_stable_id.as_str(),
            ) {
                Some(folder) => folder == id,
                None => false,
            },
        }
    }

    /// Marks an article as read or unread. Its star stays as it is.
    pub fn mark_article_read(&mut self, stable_id: &str, read: bool, now: i64) -> (r: Result<
        (),
        StorageError,
    >)
        requires
            old(self)@.wf(),
        ensures
            final(self)@.wf(),
            match article_at(old(self)@.articles, stable_id@, 0) {
                Some(i) => r is Ok && final(self)@ == with_articles(
                    old(self)@,
                    old(self)@.articles.update(
                        i,
                        read_article(old(self)@.articles[i], read, now),
                    ),
                ),
                None => storage_failure(r) == Some(StorageErrorView::NotFound("article"@))
                    && final(self)@ == old(self)@,
            },
    {
        let ghost before = self@;
        let i = match self.find_article(stable_id) {
            Some(i) => i,
            None => {
                return Err(StorageError::NotFound("article"));
            },
        };
        assert(before.articles[i as int] == self.articles@[i as int]@);
        self.articles[i].is_read = read;
        self.articles[i].modified_at = now;
        assert(self@.articles == before.articles.update(
            i as int,
            read_article(before.articles[i as int], read, now),
        ));
        proof {
            lemma_same_articles(before.articles, self@.articles, before);
        }
        Ok(())
    }

    /// Gives an article a star, or takes it back. Whether it was read stays as
    /// it is.
    pub fn set_article_starred(&mut self, stable_id: &str, starred: bool, now: i64) -> (r: Result<
        (),
        StorageError,
    >)
        requires
            old(self)@.wf(),
        ensures
            final(self)@.wf(),
            match article_at(old(self)@.articles, stable_id@, 0) {
                Some(i) => r is Ok && final(self)@ == with_articles(
                    old(self)@,
                    old(self)@.articles.update(
                        i,
                        starred_article(old(self)@.articles[i], starred, now),
                    ),
                ),
                None => storage_failure(r) == Some(StorageErrorView::NotFound("article"@))
                    && final(self)@ == old(self)@,
            },
    {
        let ghost before = self@;
        let i = match self.find_article(stable_id) {
            Some(i) => i,
            None => {
                return Err(StorageError::NotFound("article"));
            },
        };
        assert(before.articles[i as int] == self.articles@[i as int]@);
        self.articles[i].is_starred = starred;
        self.articles[i].modified_at = now;
        assert(self@.articles == before.articles.update(
            i as int,
            starred_article(before.articles[i as int], starred, now),
        ));
        proof {
            lemma_same_articles(before.articles, self@.articles, before);
        }
        Ok(())
    }

    /// Takes back all stars, and tells how many there were.
    pub fn unstar_all(&mut self, now: i64) -> (r: usize)
        requires
            old(self)@.wf(),
        ensures
            final(self)@.wf(),
            r == crate::library::starred_among(old(self)@.articles),
            final(self)@ == with_articles(
                old(self)@,
                none_starred(old(self)@.articles, now),
            ),
    {
        let ghost before = self@;
        let ghost all = before.articles;
        let ghost wanted = none_starred(all, now);
        let mut changed: usize = 0;
        let mut i: usize = 0;
        while i < self.articles.len()
            invariant
                i <= self.articles@.len() == all.len(),
                wanted == none_starred(all, now),
                self@.folders == before.folders,
                self@.feeds == before.feeds,
                changed <= i,
                changed == crate::library::starred_among(all.take(i as int)),
                forall|j: int| 0 <= j < i ==> #[trigger] self.articles@[j]@ == wanted[j],
                forall|j: int|
                    i <= j < self.articles@.len() ==> #[trigger] self.articles@[j]@ == all[j],
            decreases self.articles@.len() - i,
        {
            assert(all.take(i + 1).drop_last() == all.take(i as int));
            assert(all.take(i + 1).last() == self.articles@[i as int]@);
            if self.articles[i].is_starred {
                self.articles[i].is_starred = false;
                self.articles[i].modified_at = now;
                changed += 1;
            }
            i += 1;
        }
        assert(all.take(i as int) == all);
        assert(self@.articles == wanted);
        proof {
            lemma_same_articles(all, self@.articles, before);
        }
        changed
    }

    /// Marks all unread articles that are meant as read, and tells how many
    /// there were.
    pub fn mark_all_read(&mut self, scope: ArticleScope, now: i64) -> (r: usize)
        requires
            old(self)@.wf(),
        ensures
            final(self)@.wf(),
            r == unread_meant(old(self)@, scope@, old(self)@.articles.len()),
            final(self)@ == with_articles(old(self)@, all_read(old(self)@, scope@, now)),
    {
        let ghost before = self@;
        let ghost all = before.articles;
        let ghost wanted = all_read(before, scope@, now);
        let mut marks: Vec<bool> = Vec::new();
        let mut changed: usize = 0;
        let mut i: usize = 0;
        while i < self.articles.len()
            invariant
                i <= self.articles@.len(),
                self@ == before,
                all == before.articles,
                marks@.len() == i,
                changed <= i,
                changed == unread_meant(before, scope@, i as nat),
                forall|j: int|
                    0 <= j < i ==> #[trigger] marks@[j] == unread_in(before, all[j], scope@),
            decreases self.articles@.len() - i,
        {
            assert(all[i as int] == self.articles@[i as int]@);
            let mark = !self.articles[i].is_read && self.meant(i, scope);
            if mark {
                changed += 1;
            }
            marks.push(mark);
            i += 1;
        }
        let mut k: usize = 0;
        assert(forall|j: int|
            0 <= j < self.articles@.len() ==> #[trigger] self.articles@[j]@ == all[j]);
        while k < self.articles.len()
            invariant
                k <= self.articles@.len() == all.len(),
                marks@.len() == all.len(),
                self@.folders == before.folders,
                self@.feeds == before.feeds,
                wanted == all_read(before, scope@, now),
                all == before.articles,
                forall|j: int|
                    0 <= j < all.len() ==> #[trigger] marks@[j] == unread_in(
                        before,
                        all[j],
                        scope@,
                    ),
                forall|j: int| 0 <= j < k ==> #[trigger] self.articles@[j]@ == wanted[j],
                forall|j: int|
                    k <= j < self.articles@.len() ==> #[trigger] self.articles@[j]@ == all[j],
            decreases self.articles@.len() - k,
        {
            assert(self.articles@[k as int]@ == all[k as int]);
            assert(wanted[k as int] == if marks@[k as int] {
                read_article(all[k as int], true, now)
            } else {
                all[k as int]
            });
            if marks[k] {
                self.articles[k].is_read = true;
                self.articles[k].modified_at = now;
            }
            k += 1;
        }
        assert(self@.articles == wanted);
        proof {
            lemma_same_articles(all, self@.articles, before);
        }
        changed
    }

    /// How many of the articles that are meant are unread.
    pub fn unread_count(&self, scope: ArticleScope) -> (r: usize)
        ensures
            r == unread_meant(self@, scope@, self@.articles.len()),
    {
        let mut count: usize = 0;
        let mut i: usize = 0;
        while i < self.articles.len()
            invariant
                i <= self.articles@.len(),
                count <= i,
                count == unread_meant(self@, scope@, i as nat),
            decreases self.articles@.len() - i,
        {
            assert(self@.articles[i as int] == self.articles@[i as int]@);
            if !self.articles[i].is_read && self.meant(i, scope) {
                count += 1;
            }
            i += 1;
        }
        count
    }

    /// Gives an article a picture found on its page, unless it has one.
    pub fn set_article_image(&mut self, stable_id: &str, image_url: &str)
        requires
            old(self)@.wf(),
        ensures
            final(self)@.wf(),
            match article_at(old(self)@.articles, stable_id@, 0) {
                Some(i) => if old(self)@.articles[i].image_url is None {
                    final(self)@ == with_articles(
                        old(self)@,
                        old(self)@.articles.update(
                            i,
                            (ArticleRowView {
                                image_url: Some(image_url@),
                                image_source: Some("open-graph"@),
                                ..old(self)@.articles[i]
                            }),
                        ),
                    )
                } else {
                    final(self)@ == old(self)@
                },
                None => final(self)@ == old(self)@,
            },
    {
        let ghost before = self@;
        let i = match self.find_article(stable_id) {
            Some(i) => i,
            None => {
                return ;
            },
        };
        assert(before.articles[i as int] == self.articles@[i as int]@);
        if self.articles[i].image_url.is_some() {
            return ;
        }
        self.articles[i].image_url = Some(image_url.to_owned());
        self.articles[i].image_source = Some("open-graph".to_owned());
        assert(self@.articles == before.articles.update(
            i as int,
            ArticleRowView {
                image_url: Some(image_url@),
                image_source: Some("open-graph"@),
                ..before.articles[i as int]
            },
        ));
        proof {
            lemma_same_articles(before.articles, self@.articles, before);
        }
    }
}

/// Reading and starring do not touch each other: whatever is marked as read or
/// unread keeps its star, and whatever is starred or not stays read or unread.
pub proof fn law_read_and_star_are_independent(
    library: LibraryView,
    row: ArticleRowView,
    scope: ScopeView,
    flag: bool,
    now: i64,
)
    ensures
        read_article(row, flag, now).is_starred == row.is_starred,
        starred_article(row, flag, now).is_read == row.is_read,
        forall|i: int|
            0 <= i < library.articles.len() ==> (#[trigger] all_read(
                library,
                scope,
                now,
            )[i]).is_starred == library.articles[i].is_starred,
        forall|i: int|
            0 <= i < library.articles.len() ==> (#[trigger] none_starred(
                library.articles,
                now,
            )[i]).is_read == library.articles[i].is_read,
{
}

/// After all articles that are meant were marked as read, none of them is
/// unread.
pub proof fn law_nothing_unread_after_mark_all(library: LibraryView, scope: ScopeView, now: i64)
    ensures
        unread_meant(
            with_articles(library, all_read(library, scope, now)),
            scope,
            library.articles.len(),
        ) == 0,
{
    lemma_none_left(library, scope, now, library.articles.len());
}

proof fn lemma_none_left(library: LibraryView, scope: ScopeView, now: i64, count: nat)
    requires
        count <= library.articles.len(),
    ensures
        unread_meant(with_articles(library, all_read(library, scope, now)), scope, count) == 0,
    decreases count,
{
    if count > 0 {
        lemma_none_left(library, scope, now, (count - 1) as nat);
        let row = library.articles[count - 1];
        let after = with_articles(library, all_read(library, scope, now));
        assert(after.articles[count - 1] == if unread_in(library, row, scope) {
            read_article(row, true, now)
        } else {
            row
        });
    }
}

/// What an article is shown by: those without a date come last; else the newer
/// one first, and at one time the one with the later id.
pub struct OrderView {
    pub undated: bool,
    pub time: i64,
    pub id: Seq<char>,
}

/// The time at which an article is shown.
pub open spec fn shown_time(row: ArticleRowView) -> i64 {
    match (row.published_at, row.updated_at) {
        (Some(time), _) => time,
        (None, Some(time)) => time,
        (None, None) => row.inserted_at,
    }
}

/// What an article is shown by.
pub open spec fn order_of(row: ArticleRowView) -> OrderView {
    OrderView {
        undated: row.published_at is None && row.updated_at is None,
        time: shown_time(row),
        id: row.stable_id,
    }
}

/// `a` is shown before `b`.
pub open spec fn shown_before(a: OrderView, b: OrderView) -> bool {
    if a.undated != b.undated {
        b.undated
    } else if a.time != b.time {
        a.time > b.time
    } else {
        text_before(b.id, a.id)
    }
}

/// An article can be shown after a place in the order.
pub open spec fn is_next(
    library: LibraryView,
    scope: ScopeView,
    after: Option<OrderView>,
    row: ArticleRowView,
) -> bool {
    in_scope(library, row, scope) && match after {
        Some(place) => shown_before(place, order_of(row)),
        None => true,
    }
}

/// The place of the article that is shown next after a place in the order, of
/// the first `count`.
pub open spec fn next_place(
    library: LibraryView,
    scope: ScopeView,
    after: Option<OrderView>,
    count: nat,
) -> Option<int>
    decreases count,
{
    if count == 0 {
        None
    } else {
        let best = next_place(library, scope, after, (count - 1) as nat);
        let row = library.articles[count - 1];
        if !is_next(library, scope, after, row) {
            best
        } else {
            match best {
                Some(i) => if shown_before(order_of(row), order_of(library.articles[i])) {
                    Some(count - 1)
                } else {
                    Some(i)
                },
                None => Some(count - 1),
            }
        }
    }
}

/// The places of up to `n` articles in the order in which they are shown after
/// a place in the order.
pub open spec fn page_places(
    library: LibraryView,
    scope: ScopeView,
    after: Option<OrderView>,
    n: nat,
) -> Seq<int>
    decreases n,
{
    if n == 0 {
        Seq::empty()
    } else {
        match next_place(library, scope, after, library.articles.len()) {
            Some(i) => seq![i] + page_places(
                library,
                scope,
                Some(order_of(library.articles[i])),
                (n - 1) as nat,
            ),
            None => Seq::empty(),
        }
    }
}

/// The name of the feed with an id.
pub open spec fn feed_name(library: LibraryView, feed: Seq<char>) -> Seq<char> {
    match feed_at(library.feeds, feed, 0) {
        Some(k) => library.feeds[k].feed.display_name,
        None => ""@,
    }
}

/// An article in a list.
pub open spec fn list_item(library: LibraryView, row: ArticleRowView) -> ListItemView {
    ListItemView {
        stable_id: row.stable_id,
        feed_stable_id: row.feed_stable_id,
        feed_name: feed_name(library, row.feed_stable_id),
        article_url: row.url,
        title: row.title,
        summary: row.summary,
        published_at: row.published_at,
        updated_at: row.updated_at,
        thumbnail_url: row.image_url,
        is_unread: !row.is_read,
        is_starred: row.is_starred,
        sort_timestamp: shown_time(row),
    }
}

/// The articles at some places in a list.
pub open spec fn items_at(library: LibraryView, places: Seq<int>) -> Seq<ListItemView> {
    Seq::new(places.len(), |i: int| list_item(library, library.articles[places[i]]))
}

/// The permitted number of articles on a page that is nearest to `limit`.
pub open spec fn page_length(limit: usize) -> nat {
    if limit < 1 {
        1
    } else if limit > 200 {
        200
    } else {
        limit as nat
    }
}

/// The cursor behind an article.
pub open spec fn cursor_behind(row: ArticleRowView) -> CursorView {
    CursorView {
        before_timestamp: shown_time(row),
        before_id: row.stable_id,
        undated: row.published_at is None && row.updated_at is None,
    }
}

/// The place in the order that a cursor names.
pub open spec fn cursor_order(cursor: CursorView) -> OrderView {
    OrderView { undated: cursor.undated, time: cursor.before_timestamp, id: cursor.before_id }
}

/// A page of the articles that are meant, behind a cursor: as many as are
/// asked for, and a cursor where there are more.
pub open spec fn page_of(
    library: LibraryView,
    scope: ScopeView,
    limit: usize,
    cursor: Option<CursorView>,
) -> PageView {
    let after = match cursor {
        Some(c) => Some(cursor_order(c)),
        None => None,
    };
    let length = page_length(limit);
    let places = page_places(library, scope, after, length);
    let more = page_places(library, scope, after, length + 1).len() > length;
    PageView {
        items: items_at(library, places),
        next: if more {
            Some(cursor_behind(library.articles[places.last()]))
        } else {
            None
        },
    }
}

/// An article in full.
pub open spec fn full_view(library: LibraryView, row: ArticleRowView) -> FullArticleView {
    FullArticleView {
        stable_id: row.stable_id,
        feed_stable_id: row.feed_stable_id,
        feed_name: feed_name(library, row.feed_stable_id),
        provider_id: row.provider_id,
        url: row.url,
        title: row.title,
        author: row.author,
        summary: row.summary,
        content: row.content,
        published_at: row.published_at,
        inserted_at: row.inserted_at,
        updated_at: row.updated_at,
        image_url: row.image_url,
        image_source: row.image_source,
        enclosure_url: row.enclosure_url,
        enclosure_type: row.enclosure_type,
        is_read: row.is_read,
        is_starred: row.is_starred,
    }
}

/// What an article is shown by.
struct Shown {
    undated: bool,
    time: i64,
    id: String,
}

impl View for Shown {
    type V = OrderView;

    closed spec fn view(&self) -> OrderView {
        OrderView { undated: self.undated, time: self.time, id: self.id@ }
    }
}

fn shown_at(row: &ArticleRow) -> (r: i64)
    ensures
        r == shown_time(row@),
{
    match (row.published_at, row.updated_at) {
        (Some(time), _) => time,
        (None, Some(time)) => time,
        (None, None) => row.inserted_at,
    }
}

fn shown_of(row: &ArticleRow) -> (r: Shown)
    ensures
        r@ == order_of(row@),
{
    Shown {
        undated: row.published_at.is_none() && row.updated_at.is_none(),
        time: shown_at(row),
        id: row.stable_id.clone(),
    }
}

fn goes_before(a: &Shown, b: &ArticleRow) -> (r: bool)
    ensures
        r == shown_before(a@, order_of(b@)),
{
    let undated = b.published_at.is_none() && b.updated_at.is_none();
    let time = shown_at(b);
    if a.undated != undated {
        undated
    } else if a.time != time {
        a.time > time
    } else {
        comes_before(b.stable_id.as_str(), a.id.as_str())
    }
}

fn row_before(a: &ArticleRow, b: &ArticleRow) -> (r: bool)
    ensures
        r == shown_before(order_of(a@), order_of(b@)),
{
    let undated_a = a.published_at.is_none() && a.updated_at.is_none();
    let undated_b = b.published_at.is_none() && b.updated_at.is_none();
    let time_a = shown_at(a);
    let time_b = shown_at(b);
    if undated_a != undated_b {
        undated_b
    } else if time_a != time_b {
        time_a > time_b
    } else {
        comes_before(b.stable_id.as_str(), a.stable_id.as_str())
    }
}

spec fn shown_view(value: Option<Shown>) -> Option<OrderView> {
    match value {
        Some(place) => Some(place@),
        None => None,
    }
}

impl Library {
    fn find_next(&self, scope: ArticleScope, after: &Option<Shown>) -> (r: Option<usize>)
        ensures
            match r {
                Some(i) => next_place(
                    self@,
                    scope@,
                    shown_view(*after),
                    self@.articles.len(),
                ) == Some(i as int) && i < self.articles@.len(),
                None => next_place(
                    self@,
                    scope@,
                    shown_view(*after),
                    self@.articles.len(),
                ) is None,
            },
    {
        let mut best: Option<usize> = None;
        let mut i: usize = 0;
        while i < self.articles.len()
            invariant
                i <= self.articles@.len(),
                match best {
                    Some(k) => k < i && next_place(
                        self@,
                        scope@,
                        shown_view(*after),
                        i as nat,
                    ) == Some(k as int),
                    None => next_place(self@, scope@, shown_view(*after), i as nat) is None,
                },
            decreases self.articles@.len() - i,
        {
            assert(self@.articles[i as int] == self.articles@[i as int]@);
            let behind = match after {
                Some(place) => goes_before(place, &self.articles[i]),
                None => true,
            };
            if behind && self.meant(i, scope) {
                let better = match best {
                    Some(k) => {
                        assert(self@.articles[k as int] == self.articles@[k as int]@);
                        row_before(&self.articles[i], &self.articles[k])
                    },
                    None => true,
                };
                if better {
                    best = Some(i);
                }
            }
            i += 1;
        }
        best
    }

    pub(crate) fn name_of_feed(&self, feed: &str) -> (r: String)
        ensures
            r@ == feed_name(self@, feed@),
    {
        match self.find_feed(feed) {
            Some(k) => {
                assert(self@.feeds[k as int] == self.feeds@[k as int]@);
                self.feeds[k].feed.display_name.clone()
            },
            None => "".to_owned(),
        }
    }

    fn item_at(&self, i: usize) -> (r: ArticleListItem)
        requires
            i < self.articles@.len(),
        ensures
            r@ == list_item(self@, self@.articles[i as int]),
    {
        assert(self@.articles[i as int] == self.articles@[i as int]@);
        let row = &self.articles[i];
        ArticleListItem {
            stable_id: row.stable_id.clone(),
            feed_stable_id: row.feed_stable_id.clone(),
            feed_name: self.name_of_feed(row.feed_stable_id.as_str()),
            article_url: copied(&row.url),
            title: row.title.clone(),
            summary: copied(&row.summary),
            published_at: row.published_at,
            updated_at: row.updated_at,
            thumbnail_url: copied(&row.image_url),
            is_unread: !row.is_read,
            is_starred: row.is_starred,
            sort_timestamp: shown_at(row),
        }
    }

    /// A page of the articles that are meant, the newest first, behind
    /// `cursor`.
    pub fn article_page(&self, scope: ArticleScope, limit: usize, cursor: Option<&PageCursor>) -> (r:
        ArticlePage)
        ensures
            r@ == page_of(
                self@,
                scope@,
                limit,
                match cursor {
                    Some(c) => Some(c@),
                    None => None,
                },
            ),
    {
        let length: usize = if limit < 1 {
            1
        } else if limit > 200 {
            200
        } else {
            limit
        };
        let mut after: Option<Shown> = match cursor {
            Some(c) => Some(
                Shown { undated: c.undated, time: c.before_timestamp, id: c.before_id.clone() },
            ),
            None => None,
        };
        let ghost start = shown_view(after);
        let ghost all = page_places(self@, scope@, start, length as nat);
        let mut places: Vec<usize> = Vec::new();
        let mut items: Vec<ArticleListItem> = Vec::new();
        let ghost mut left: nat = length as nat;
        assert(place_list(places@) + all == all);
        assert(list_item_views(items@) == items_at(self@, place_list(places@)));
        let mut ended = false;
        while places.len() < length && !ended
            invariant
                places@.len() <= length,
                left == length - places@.len(),
                all == page_places(self@, scope@, start, length as nat),
                all == place_list(places@) + (if ended {
                    Seq::<int>::empty()
                } else {
                    page_places(self@, scope@, shown_view(after), left)
                }),
                forall|j: int|
                    0 <= j < places@.len() ==> #[trigger] places@[j] < self.articles@.len(),
                list_item_views(items@) == items_at(self@, place_list(places@)),
                shown_view(after) == if places@.len() == 0 {
                    start
                } else {
                    Some(order_of(self@.articles[places@[places@.len() - 1] as int]))
                },
                ended ==> next_place(
                    self@,
                    scope@,
                    shown_view(after),
                    self@.articles.len(),
                ) is None,
            decreases
                    length - places@.len(),
                    if ended {
                        0int
                    } else {
                        1int
                    },
        {
            let ghost sofar = place_list(places@);
            let ghost shown = list_item_views(items@);
            match self.find_next(scope, &after) {
                Some(i) => {
                    let ghost rest = page_places(
                        self@,
                        scope@,
                        Some(order_of(self@.articles[i as int])),
                        (left - 1) as nat,
                    );
                    places.push(i);
                    assert(place_list(places@) == sofar.push(i as int));
                    assert(sofar + (seq![i as int] + rest) == sofar.push(i as int) + rest);
                    let item = self.item_at(i);
                    items.push(item);
                    assert(list_item_views(items@) == shown.push(item@));
                    assert(items_at(self@, sofar.push(i as int)) == items_at(self@, sofar).push(
                        item@,
                    ));
                    assert(self@.articles[i as int] == self.articles@[i as int]@);
                    after = Some(shown_of(&self.articles[i]));
                    proof {
                        left = (left - 1) as nat;
                    }
                },
                None => {
                    ended = true;
                    assert(sofar + Seq::<int>::empty() == sofar);
                },
            }
        }
        assert(all == place_list(places@)) by {
            assert(place_list(places@) + Seq::<int>::empty() == place_list(places@));
        }
        proof {
            lemma_one_more_place(self@, scope@, start, length as nat);
        }
        if places.len() < length {
            return ArticlePage { items, next: None };
        }
        let last = places[places.len() - 1];
        assert(place_list(places@).last() == last as int);
        let next = match self.find_next(scope, &after) {
            Some(_) => {
                assert(self@.articles[last as int] == self.articles@[last as int]@);
                let row = &self.articles[last];
                Some(
                    PageCursor {
                        before_timestamp: shown_at(row),
                        before_id: row.stable_id.clone(),
                        undated: row.published_at.is_none() && row.updated_at.is_none(),
                    },
                )
            },
            None => None,
        };
        ArticlePage { items, next }
    }

    /// The article with an id, in full.
    pub fn full_article(&self, stable_id: &str) -> (r: Result<FullArticle, StorageError>)
        ensures
            match article_at(self@.articles, stable_id@, 0) {
                Some(i) => r is Ok && r->Ok_0@ == full_view(self@, self@.articles[i]),
                None => storage_failure(r) == Some(StorageErrorView::NotFound("article"@)),
            },
    {
        let i = match self.find_article(stable_id) {
            Some(i) => i,
            None => {
                return Err(StorageError::NotFound("article"));
            },
        };
        assert(self@.articles[i as int] == self.articles@[i as int]@);
        let row = &self.articles[i];
        Ok(
            FullArticle {
                stable_id: row.stable_id.clone(),
                feed_stable_id: row.feed_stable_id.clone(),
                feed_name: self.name_of_feed(row.feed_stable_id.as_str()),
                provider_id: copied(&row.provider_id),
                url: copied(&row.url),
                title: row.title.clone(),
                author: copied(&row.author),
                summary: copied(&row.summary),
                content: copied(&row.content),
                published_at: row.published_at,
                inserted_at: row.inserted_at,
                updated_at: row.updated_at,
                image_url: copied(&row.image_url),
                image_source: copied(&row.image_source),
                enclosure_url: copied(&row.enclosure_url),
                enclosure_type: copied(&row.enclosure_type),
                is_read: row.is_read,
                is_starred: row.is_starred,
            },
        )
    }

    /// The articles with the ids `ids`, in a list; ids that are not there are
    /// passed over.
    pub fn items_for(&self, ids: &Vec<String>) -> (r: Vec<ArticleListItem>)
        ensures
            list_item_views(r@) == known_items(self@, views(ids@)),
    {
        let ghost all = views(ids@);
        let mut out: Vec<ArticleListItem> = Vec::new();
        let mut i: usize = 0;
        assert(list_item_views(out@) == Seq::<ListItemView>::empty());
        while i < ids.len()
            invariant
                i <= ids@.len(),
                all == views(ids@),
                list_item_views(out@) == known_items(self@, all.take(i as int)),
            decreases ids@.len() - i,
        {
            assert(all.take(i + 1).drop_last() == all.take(i as int));
            assert(all.take(i + 1).last() == ids@[i as int]@);
            let ghost sofar = list_item_views(out@);
            if let Some(k) = self.find_article(ids[i].as_str()) {
                let item = self.item_at(k);
                out.push(item);
                assert(list_item_views(out@) == sofar.push(item@));
            }
            i += 1;
        }
        assert(all.take(i as int) == all);
        out
    }
}

/// The articles with some ids, in a list; ids that are not there are passed
/// over.
pub open spec fn known_items(library: LibraryView, ids: Seq<Seq<char>>) -> Seq<ListItemView>
    decreases ids.len(),
{
    if ids.len() == 0 {
        Seq::empty()
    } else {
        let before = known_items(library, ids.drop_last());
        match article_at(library.articles, ids.last(), 0) {
            Some(i) => before.push(list_item(library, library.articles[i])),
            None => before,
        }
    }
}

/// Where `n` articles are shown, there is one more if and only if there is a
/// next one behind the last of them.
proof fn lemma_one_more_place(
    library: LibraryView,
    scope: ScopeView,
    after: Option<OrderView>,
    n: nat,
)
    requires
        n >= 1,
    ensures
        ({
            let places = page_places(library, scope, after, n);
            let more = page_places(library, scope, after, n + 1);
            &&& places.len() <= n
            &&& places.len() < n ==> more.len() <= n
            &&& places.len() == n ==> ((more.len() > n) == (next_place(
                library,
                scope,
                Some(order_of(library.articles[places.last()])),
                library.articles.len(),
            ) is Some))
        }),
    decreases n,
{
    let places = page_places(library, scope, after, n);
    let more = page_places(library, scope, after, n + 1);
    match next_place(library, scope, after, library.articles.len()) {
        Some(i) => {
            let behind = Some(order_of(library.articles[i]));
            let rest = page_places(library, scope, behind, (n - 1) as nat);
            let rest_more = page_places(library, scope, behind, n);
            assert(places == seq![i] + rest);
            assert(more == seq![i] + rest_more);
            if n > 1 {
                lemma_one_more_place(library, scope, behind, (n - 1) as nat);
                if rest.len() > 0 {
                    assert(places.last() == rest.last());
                }
            } else {
                assert(rest.len() == 0);
                assert(places.last() == i);
                match next_place(library, scope, behind, library.articles.len()) {
                    Some(k) => {
                        assert(rest_more.len() >= 1);
                    },
                    None => {
                        assert(rest_more.len() == 0);
                    },
                }
            }
        },
        None => {},
    }
}

/// Pages fit together: what is shown on one page and then on the next is what
/// would be shown on one page as long as both.
pub proof fn law_pages_join(
    library: LibraryView,
    scope: ScopeView,
    after: Option<OrderView>,
    n: nat,
    m: nat,
)
    ensures
        ({
            let first = page_places(library, scope, after, n);
            page_places(library, scope, after, n + m) == if first.len() < n {
                first
            } else {
                first + page_places(
                    library,
                    scope,
                    if n == 0 {
                        after
                    } else {
                        Some(order_of(library.articles[first.last()]))
                    },
                    m,
                )
            }
        }),
    decreases n,
{
    let first = page_places(library, scope, after, n);
    if n == 0 {
        assert(first + page_places(library, scope, after, m) == page_places(
            library,
            scope,
            after,
            m,
        ));
    } else {
        match next_place(library, scope, after, library.articles.len()) {
            Some(i) => {
                let behind = Some(order_of(library.articles[i]));
                let rest = page_places(library, scope, behind, (n - 1) as nat);
                law_pages_join(library, scope, behind, (n - 1) as nat, m);
                assert(first == seq![i] + rest);
                if n > 1 && rest.len() == n - 1 {
                    assert(first.last() == rest.last());
                    let tail = page_places(
                        library,
                        scope,
                        Some(order_of(library.articles[rest.last()])),
                        m,
                    );
                    assert(seq![i] + (rest + tail) == first + tail);
                } else if n == 1 {
                    assert(rest == Seq::<int>::empty());
                    assert(first.last() == i);
                    let tail = page_places(library, scope, behind, m);
                    assert(seq![i] + tail == first + tail);
                }
            },
            None => {},
        }
    }
}

/// What comes next is the first of all that can come.
pub proof fn lemma_next_place(
    library: LibraryView,
    scope: ScopeView,
    after: Option<OrderView>,
    count: nat,
)
    requires
        count <= library.articles.len(),
    ensures
        match next_place(library, scope, after, count) {
            Some(i) => {
                &&& 0 <= i < count
                &&& is_next(library, scope, after, library.articles[i])
                &&& forall|k: int|
                    0 <= k < count && is_next(library, scope, after, #[trigger] library.articles[k])
                        ==> !shown_before(
                        order_of(library.articles[k]),
                        order_of(library.articles[i]),
                    )
            },
            None => forall|k: int|
                0 <= k < count ==> !is_next(
                    library,
                    scope,
                    after,
                    #[trigger] library.articles[k],
                ),
        },
    decreases count,
{
    if count > 0 {
        lemma_next_place(library, scope, after, (count - 1) as nat);
        let row = library.articles[count - 1];
        let best = next_place(library, scope, after, (count - 1) as nat);
        lemma_shown_order(order_of(row), order_of(row));
        if best is Some && is_next(library, scope, after, row) {
            let old_row = library.articles[best->0];
            lemma_shown_order(order_of(row), order_of(old_row));
            if shown_before(order_of(row), order_of(old_row)) {
                assert forall|k: int|
                    0 <= k < count && is_next(
                        library,
                        scope,
                        after,
                        #[trigger] library.articles[k],
                    ) implies !shown_before(order_of(library.articles[k]), order_of(row)) by {
                    if k < count - 1 && shown_before(order_of(library.articles[k]), order_of(row)) {
                        lemma_shown_chain(
                            order_of(library.articles[k]),
                            order_of(row),
                            order_of(old_row),
                        );
                    }
                }
            }
        }
    }
}

/// Nothing is shown before itself, and of two articles with different ids one
/// is shown before the other.
pub proof fn lemma_shown_order(a: OrderView, b: OrderView)
    ensures
        !shown_before(a, a),
        !(shown_before(a, b) && shown_before(b, a)),
        a.id != b.id ==> shown_before(a, b) || shown_before(b, a),
{
    crate::order::lemma_order(vstd::utf8::encode_utf8(a.id), vstd::utf8::encode_utf8(b.id));
    vstd::utf8::encode_utf8_decode_utf8(a.id);
    vstd::utf8::encode_utf8_decode_utf8(b.id);
}

pub proof fn lemma_shown_chain(a: OrderView, b: OrderView, c: OrderView)
    requires
        shown_before(a, b),
        shown_before(b, c),
    ensures
        shown_before(a, c),
{
    if a.undated == b.undated && b.undated == c.undated && a.time == b.time && b.time == c.time {
        crate::order::lemma_order_chain(
            vstd::utf8::encode_utf8(c.id),
            vstd::utf8::encode_utf8(b.id),
            vstd::utf8::encode_utf8(a.id),
        );
    }
}

/// A page shows only articles that are meant and come behind its start, each
/// one before those that follow it, so that none is shown twice.
pub proof fn law_pages_are_in_order(
    library: LibraryView,
    scope: ScopeView,
    after: Option<OrderView>,
    n: nat,
)
    ensures
        ({
            let places = page_places(library, scope, after, n);
            &&& places.len() <= n
            &&& forall|i: int|
                0 <= i < places.len() ==> 0 <= #[trigger] places[i] < library.articles.len()
                    && is_next(library, scope, after, library.articles[places[i]])
            &&& forall|i: int, j: int|
                0 <= i < j < places.len() ==> shown_before(
                    order_of(library.articles[#[trigger] places[i]]),
                    order_of(library.articles[#[trigger] places[j]]),
                )
        }),
    decreases n,
{
    if n > 0 {
        lemma_next_place(library, scope, after, library.articles.len());
        match next_place(library, scope, after, library.articles.len()) {
            Some(i) => {
                let first = order_of(library.articles[i]);
                let rest = page_places(library, scope, Some(first), (n - 1) as nat);
                let places = page_places(library, scope, after, n);
                law_pages_are_in_order(library, scope, Some(first), (n - 1) as nat);
                assert(places == seq![i] + rest);
                assert forall|k: int| 0 <= k < places.len() implies 0 <= #[trigger] places[k]
                    < library.articles.len() && is_next(
                    library,
                    scope,
                    after,
                    library.articles[places[k]],
                ) by {
                    if k > 0 {
                        assert(places[k] == rest[k - 1]);
                        if after is Some {
                            lemma_shown_chain(
                                after->0,
                                first,
                                order_of(library.articles[places[k]]),
                            );
                        }
                    }
                }
                assert forall|a: int, b: int| 0 <= a < b < places.len() implies shown_before(
                    order_of(library.articles[#[trigger] places[a]]),
                    order_of(library.articles[#[trigger] places[b]]),
                ) by {
                    assert(places[b] == rest[b - 1]);
                    if a > 0 {
                        assert(places[a] == rest[a - 1]);
                    }
                }
            },
            None => {},
        }
    }
}

/// A page that is not full shows every article that is meant and comes behind
/// its start.
pub proof fn law_short_pages_are_complete(
    library: LibraryView,
    scope: ScopeView,
    after: Option<OrderView>,
    n: nat,
    k: int,
)
    requires
        library.wf(),
        0 <= k < library.articles.len(),
        is_next(library, scope, after, library.articles[k]),
        page_places(library, scope, after, n).len() < n,
    ensures
        page_places(library, scope, after, n).contains(k),
    decreases n,
{
    lemma_next_place(library, scope, after, library.articles.len());
    let i = next_place(library, scope, after, library.articles.len())->0;
    let first = order_of(library.articles[i]);
    let rest = page_places(library, scope, Some(first), (n - 1) as nat);
    let places = page_places(library, scope, after, n);
    assert(places == seq![i] + rest);
    if i == k {
        assert(places[0] == k);
    } else {
        assert(library.articles[i].stable_id != library.articles[k].stable_id);
        lemma_shown_order(first, order_of(library.articles[k]));
        law_short_pages_are_complete(library, scope, Some(first), (n - 1) as nat, k);
        let at = choose|at: int| 0 <= at < rest.len() && rest[at] == k;
        assert(places[at + 1] == k);
    }
}

} // verus!
