//! Taking documents into a library: articles of feeds, and subscription lists.

use crate::articles::{image_source_string, source_kept, with_articles};
use crate::identity::{feed_id, feed_identity, normal_url, normalize_url};
use crate::ingestion::{
    ingest_views, prepare, prepared, IngestArticle, IngestView, IngestionResult, IngestionView,
};
use crate::library::{
    article_at, articles_wf, begins_like_web, checked_name, fault_of_feed, feed_at, feed_error,
    feed_fault, first_some, first_there, fits, has_feed, has_folder, is_sound_feed,
    lemma_article_at, lemma_feed_at, lemma_feeds_named_alike, lemma_with_feed, make_feed, name_in,
    new_feed, refreshed_feed, validate_web_url, with_feed, with_row, Library, LibraryView,
    MAX_ARTICLE_TITLE, MAX_FEED_URL,
};
use crate::parser::{copied, parse_with_source, parsed_feed, ArticleView, FeedView};
use crate::records::{
    feed_rows, storage_failure, ArticleRow, ArticleRowView, FeedRecordView, FeedRow, FeedRowView,
    IngestStats, RefreshMetadata, RefreshView, StorageError, StorageErrorView,
};
use crate::text::{join, joined, same, view_of, views};
use vstd::prelude::*;

verus! {

/// The address of the picture of an article, and where it was named.
pub open spec fn picture_of(article: ArticleView) -> (Option<Seq<char>>, Option<Seq<char>>) {
    match article.image {
        Some(image) => (Some(image.url), Some(source_kept(image.source))),
        None => (None, None),
    }
}

/// A new article as it is kept.
pub open spec fn new_article(incoming: IngestView, feed: Seq<char>, now: i64) -> ArticleRowView {
    ArticleRowView {
        stable_id: incoming.stable_id,
        feed_stable_id: feed,
        provider_id: Some(incoming.provider_id),
        url: incoming.article.url,
        title: incoming.article.title,
        author: incoming.article.author,
        summary: incoming.article.summary,
        content: incoming.article.content,
        published_at: incoming.article.published_at,
        updated_at: incoming.article.updated_at,
        inserted_at: now,
        image_url: picture_of(incoming.article).0,
        image_source: picture_of(incoming.article).1,
        enclosure_url: incoming.article.enclosure_url,
        enclosure_type: incoming.article.enclosure_type,
        is_read: false,
        is_starred: false,
        retention_at: incoming.retention_timestamp,
        modified_at: now,
    }
}

/// The first of two times that is there.
pub open spec fn first_time(a: Option<i64>, b: Option<i64>) -> Option<i64> {
    match a {
        Some(time) => Some(time),
        None => b,
    }
}

/// An article that came again. What it says now is taken over, what it no
/// longer says is kept, and so is whether it was read or starred.
pub open spec fn renewed_article(row: ArticleRowView, incoming: IngestView, now: i64) -> ArticleRowView {
    ArticleRowView {
        url: first_some(incoming.article.url, row.url),
        title: incoming.article.title,
        author: first_some(incoming.article.author, row.author),
        summary: first_some(incoming.article.summary, row.summary),
        content: first_some(incoming.article.content, row.content),
        published_at: first_time(incoming.article.published_at, row.published_at),
        updated_at: first_time(incoming.article.updated_at, row.updated_at),
        image_url: first_some(picture_of(incoming.article).0, row.image_url),
        image_source: first_some(picture_of(incoming.article).1, row.image_source),
        enclosure_url: first_some(incoming.article.enclosure_url, row.enclosure_url),
        enclosure_type: first_some(incoming.article.enclosure_type, row.enclosure_type),
        retention_at: match incoming.article.published_at {
            Some(time) => time,
            None => row.retention_at,
        },
        modified_at: now,
        ..row
    }
}

/// The articles with one that came.
pub open spec fn with_incoming(
    articles: Seq<ArticleRowView>,
    incoming: IngestView,
    feed: Seq<char>,
    now: i64,
) -> Seq<ArticleRowView> {
    match article_at(articles, incoming.stable_id, 0) {
        Some(i) => articles.update(i, renewed_article(articles[i], incoming, now)),
        None => articles.push(new_article(incoming, feed, now)),
    }
}

/// The articles with those that came.
pub open spec fn with_all_incoming(
    articles: Seq<ArticleRowView>,
    list: Seq<IngestView>,
    feed: Seq<char>,
    now: i64,
) -> Seq<ArticleRowView>
    decreases list.len(),
{
    if list.len() == 0 {
        articles
    } else {
        with_incoming(
            with_all_incoming(articles, list.drop_last(), feed, now),
            list.last(),
            feed,
            now,
        )
    }
}

/// How many of those that came were new.
pub open spec fn new_among(
    articles: Seq<ArticleRowView>,
    list: Seq<IngestView>,
    feed: Seq<char>,
    now: i64,
) -> nat
    decreases list.len(),
{
    if list.len() == 0 {
        0
    } else {
        new_among(articles, list.drop_last(), feed, now) + if article_at(
            with_all_incoming(articles, list.drop_last(), feed, now),
            list.last().stable_id,
            0,
        ) is None {
            1nat
        } else {
            0nat
        }
    }
}

/// Every title has a permitted length.
pub open spec fn titles_fit(list: Seq<IngestView>) -> bool {
    forall|i: int|
        0 <= i < list.len() ==> 1 <= (#[trigger] list[i]).article.title.len() <= MAX_ARTICLE_TITLE
}

proof fn lemma_with_incoming(
    articles: Seq<ArticleRowView>,
    incoming: IngestView,
    feed: Seq<char>,
    now: i64,
    feeds: Seq<FeedRowView>,
)
    requires
        articles_wf(articles, feeds),
        has_feed(feeds, feed),
        1 <= incoming.article.title.len() <= MAX_ARTICLE_TITLE,
    ensures
        articles_wf(with_incoming(articles, incoming, feed, now), feeds),
{
    lemma_article_at(articles, incoming.stable_id, 0);
    let after = with_incoming(articles, incoming, feed, now);
    match article_at(articles, incoming.stable_id, 0) {
        Some(k) => {
            assert forall|i: int, j: int| 0 <= i < j < after.len() implies (
            #[trigger] after[i]).stable_id != (#[trigger] after[j]).stable_id by {
                assert(articles[i].stable_id != articles[j].stable_id);
            }
            assert forall|i: int| 0 <= i < after.len() implies has_feed(
                feeds,
                (#[trigger] after[i]).feed_stable_id,
            ) by {
                assert(has_feed(feeds, articles[i].feed_stable_id));
            }
        },
        None => {
            assert forall|i: int, j: int| 0 <= i < j < after.len() implies (
            #[trigger] after[i]).stable_id != (#[trigger] after[j]).stable_id by {
                assert(after[i] == articles[i]);
                if j < articles.len() {
                    assert(after[j] == articles[j]);
                }
            }
            assert forall|i: int| 0 <= i < after.len() implies has_feed(
                feeds,
                (#[trigger] after[i]).feed_stable_id,
            ) by {
                if i < articles.len() {
                    assert(after[i] == articles[i]);
                    assert(has_feed(feeds, articles[i].feed_stable_id));
                }
            }
        },
    }
}

/// The addresses of icons, one to a line.
pub open spec fn icon_lines(icons: Seq<Seq<char>>) -> Option<Seq<char>> {
    if icons.len() > 0 {
        Some(join(icons, "\n"@))
    } else {
        None
    }
}

/// The first icon.
pub open spec fn first_icon(icons: Seq<Seq<char>>) -> Option<Seq<char>> {
    if icons.len() > 0 {
        Some(icons[0])
    } else {
        None
    }
}

/// A feed that comes for the first time.
pub open spec fn arrived_feed(
    id: Seq<char>,
    source: Seq<char>,
    feed: FeedView,
    name: Seq<char>,
    now: i64,
) -> FeedRowView {
    let row = new_feed(id, normal_url(source), source, feed.site_url, name, feed.format, now);
    FeedRowView {
        feed: FeedRecordView {
            favicon_url: first_icon(feed.icon_candidates),
            feed_image_url: feed.feed_image,
            ..row.feed
        },
        description: feed.description,
        icon_candidates: icon_lines(feed.icon_candidates),
        ..row
    }
}

/// A feed that comes again. What it says now is taken over, what it no longer
/// says is kept, and so is a name of the reader's own.
pub open spec fn renewed_feed(
    row: FeedRowView,
    source: Seq<char>,
    feed: FeedView,
    name: Seq<char>,
    now: i64,
) -> FeedRowView {
    FeedRowView {
        feed: FeedRecordView {
            normalized_url: normal_url(source),
            site_url: first_some(feed.site_url, row.feed.site_url),
            publisher_name: name,
            display_name: match row.feed.custom_name {
                Some(own) => own,
                None => name,
            },
            format: feed.format,
            favicon_url: first_some(first_icon(feed.icon_candidates), row.feed.favicon_url),
            feed_image_url: first_some(feed.feed_image, row.feed.feed_image_url),
            ..row.feed
        },
        description: first_some(feed.description, row.description),
        icon_candidates: first_some(icon_lines(feed.icon_candidates), row.icon_candidates),
        modified_at: now,
        ..row
    }
}

/// Some other feed than the one at `place` has this address.
pub open spec fn address_elsewhere(feeds: Seq<FeedRowView>, place: int, url: Seq<char>) -> bool {
    exists|i: int|
        0 <= i < feeds.len() && i != place && (#[trigger] feeds[i]).feed.normalized_url == url
}

/// The library with a feed that comes, for the first time or again.
pub open spec fn with_parsed_feed(
    library: LibraryView,
    id: Seq<char>,
    source: Seq<char>,
    feed: FeedView,
    now: i64,
) -> Result<LibraryView, StorageErrorView> {
    if name_in(feed.title) is None {
        Err(StorageErrorView::InvalidInput("feed title"@))
    } else if !begins_like_web(normal_url(source)) {
        Err(StorageErrorView::InvalidInput("feed URL"@))
    } else {
        let name = name_in(feed.title)->0;
        match feed_at(library.feeds, id, 0) {
            Some(i) => {
                let row = renewed_feed(library.feeds[i], source, feed, name, now);
                let arrived = arrived_feed(id, source, feed, name, now);
                if feed_fault(arrived) is Some {
                    Err(feed_fault(arrived)->0)
                } else if feed_fault(row) is Some {
                    Err(feed_fault(row)->0)
                } else if address_elsewhere(library.feeds, i, row.feed.normalized_url) {
                    Err(
                        StorageErrorView::Constraint(
                            "UNIQUE constraint failed: feeds.normalized_url"@,
                        ),
                    )
                } else {
                    Ok(with_row(library, i, row))
                }
            },
            None => {
                let row = arrived_feed(id, source, feed, name, now);
                match feed_error(library, row) {
                    Some(error) => Err(error),
                    None => Ok(with_feed(library, row)),
                }
            },
        }
    }
}

/// A feed after its document was taken in.
pub open spec fn noted_feed(row: FeedRowView, note: Option<RefreshView>, now: i64) -> FeedRowView {
    match note {
        Some(refresh) => refreshed_feed(
            row,
            RefreshView { failure_category: None, ..refresh },
        ),
        None => FeedRowView {
            feed: FeedRecordView {
                last_refresh_at: Some(now),
                last_refresh_status: Some("success"@),
                ..row.feed
            },
            modified_at: now,
            ..row
        },
    }
}

/// The library with the note on the feed with an id.
pub open spec fn with_note(
    library: LibraryView,
    id: Seq<char>,
    note: Option<RefreshView>,
    now: i64,
) -> LibraryView {
    match feed_at(library.feeds, id, 0) {
        Some(i) => with_row(library, i, noted_feed(library.feeds[i], note, now)),
        None => library,
    }
}

/// What taking in a prepared document makes of a library, and how many
/// articles were new; or why it is refused.
pub open spec fn taken_in(
    library: LibraryView,
    source: Seq<char>,
    ready: IngestionView,
    note: Option<RefreshView>,
    now: i64,
) -> Result<(LibraryView, nat), StorageErrorView> {
    match with_parsed_feed(library, ready.stable_feed_id, source, ready.feed, now) {
        Err(error) => Err(error),
        Ok(after) => if !titles_fit(ready.articles) {
            Err(StorageErrorView::Constraint("CHECK constraint failed: length(title) BETWEEN 1 AND 4000"@))
        } else {
            let articles = with_all_incoming(
                after.articles,
                ready.articles,
                ready.stable_feed_id,
                now,
            );
            Ok(
                (
                    with_note(
                        with_articles(after, articles),
                        ready.stable_feed_id,
                        note,
                        now,
                    ),
                    new_among(after.articles, ready.articles, ready.stable_feed_id, now),
                ),
            )
        },
    }
}

/// The ids of the articles of a feed.
pub open spec fn ids_of_feed(articles: Seq<ArticleRowView>, feed: Seq<char>) -> Seq<Seq<char>>
    decreases articles.len(),
{
    if articles.len() == 0 {
        Seq::empty()
    } else if articles.last().feed_stable_id == feed {
        ids_of_feed(articles.drop_last(), feed).push(articles.last().stable_id)
    } else {
        ids_of_feed(articles.drop_last(), feed)
    }
}

/// What taking in a document makes of a library: the library, the number of
/// new articles, and what was made ready; or why it is refused.
pub open spec fn ingested(
    library: LibraryView,
    subscription_url: Seq<char>,
    base_url: Seq<char>,
    document: Seq<char>,
    now: i64,
    note: Option<RefreshView>,
) -> Result<(LibraryView, nat, IngestionView), StorageErrorView> {
    match parsed_feed(document, base_url) {
        Err(error) => Err(StorageErrorView::ImportExport(error.message())),
        Ok(feed) => {
            let ready = prepared(
                feed,
                subscription_url,
                ids_of_feed(library.articles, feed_identity(subscription_url)),
                now,
            );
            match taken_in(library, subscription_url, ready, note, now) {
                Err(error) => Err(error),
                Ok((after, fresh)) => Ok((after, fresh, ready)),
            }
        },
    }
}

fn make_article(incoming: &IngestArticle, feed: &str, now: i64) -> (r: ArticleRow)
    ensures
        r@ == new_article(incoming@, feed@, now),
{
    let (image_url, image_source) = picture_in(incoming);
    ArticleRow {
        stable_id: incoming.stable_id.clone(),
        feed_stable_id: feed.to_owned(),
        provider_id: Some(incoming.provider_id.clone()),
        url: copied(&incoming.article.url),
        title: incoming.article.title.clone(),
        author: copied(&incoming.article.author),
        summary: copied(&incoming.article.summary),
        content: copied(&incoming.article.content),
        published_at: incoming.article.published_at,
        updated_at: incoming.article.updated_at,
        inserted_at: now,
        image_url,
        image_source,
        enclosure_url: copied(&incoming.article.enclosure_url),
        enclosure_type: copied(&incoming.article.enclosure_type),
        is_read: false,
        is_starred: false,
        retention_at: incoming.retention_timestamp,
        modified_at: now,
    }
}

fn picture_in(incoming: &IngestArticle) -> (r: (Option<String>, Option<String>))
    ensures
        (view_of(r.0), view_of(r.1)) == picture_of(incoming@.article),
{
    match &incoming.article.image {
        Some(image) => (
            Some(image.url.clone()),
            Some(image_source_string(image.source).to_owned()),
        ),
        None => (None, None),
    }
}

fn earlier_of(a: Option<i64>, b: Option<i64>) -> (r: Option<i64>)
    ensures
        r == first_time(a, b),
{
    match a {
        Some(time) => Some(time),
        None => b,
    }
}

fn renew_article(row: &ArticleRow, incoming: &IngestArticle, now: i64) -> (r: ArticleRow)
    ensures
        r@ == renewed_article(row@, incoming@, now),
{
    let (image_url, image_source) = picture_in(incoming);
    ArticleRow {
        stable_id: row.stable_id.clone(),
        feed_stable_id: row.feed_stable_id.clone(),
        provider_id: copied(&row.provider_id),
        url: first_there(&incoming.article.url, &row.url),
        title: incoming.article.title.clone(),
        author: first_there(&incoming.article.author, &row.author),
        summary: first_there(&incoming.article.summary, &row.summary),
        content: first_there(&incoming.article.content, &row.content),
        published_at: earlier_of(incoming.article.published_at, row.published_at),
        updated_at: earlier_of(incoming.article.updated_at, row.updated_at),
        inserted_at: row.inserted_at,
        image_url: first_there(&image_url, &row.image_url),
        image_source: first_there(&image_source, &row.image_source),
        enclosure_url: first_there(&incoming.article.enclosure_url, &row.enclosure_url),
        enclosure_type: first_there(&incoming.article.enclosure_type, &row.enclosure_type),
        is_read: row.is_read,
        is_starred: row.is_starred,
        retention_at: match incoming.article.published_at {
            Some(time) => time,
            None => row.retention_at,
        },
        modified_at: now,
    }
}

fn lines_of(icons: &Vec<String>) -> (r: Option<String>)
    ensures
        view_of(r) == icon_lines(views(icons@)),
{
    assert(views(icons@).len() == icons@.len());
    if icons.len() > 0 {
        Some(joined(icons, "\n"))
    } else {
        None
    }
}

fn icon_of(icons: &Vec<String>) -> (r: Option<String>)
    ensures
        view_of(r) == first_icon(views(icons@)),
{
    assert(views(icons@).len() == icons@.len());
    if icons.len() > 0 {
        assert(views(icons@)[0] == icons@[0]@);
        Some(icons[0].clone())
    } else {
        None
    }
}

proof fn lemma_with_parsed_feed(
    library: LibraryView,
    id: Seq<char>,
    source: Seq<char>,
    feed: FeedView,
    now: i64,
)
    requires
        library.wf(),
    ensures
        match with_parsed_feed(library, id, source, feed, now) {
            Ok(after) => {
                &&& after.wf()
                &&& has_feed(after.feeds, id)
                &&& after.articles == library.articles
                &&& after.folders == library.folders
            },
            Err(_) => true,
        },
{
    lemma_feed_at(library.feeds, id, 0);
    match with_parsed_feed(library, id, source, feed, now) {
        Ok(after) => match feed_at(library.feeds, id, 0) {
            Some(i) => {
                let row = renewed_feed(library.feeds[i], source, feed, name_in(feed.title)->0, now);
                lemma_readdressed(library, i, row);
                assert(after.feeds[i].feed.stable_id == id);
            },
            None => {
                let row = arrived_feed(id, source, feed, name_in(feed.title)->0, now);
                lemma_with_feed(library, row);
                assert(after.feeds[library.feeds.len() as int].feed.stable_id == id);
            },
        },
        Err(_) => {},
    }
}

/// Another row for a feed, under its id and in its folder, and at an address
/// that no other feed has, keeps everything in order.
proof fn lemma_readdressed(library: LibraryView, place: int, row: FeedRowView)
    requires
        library.wf(),
        0 <= place < library.feeds.len(),
        is_sound_feed(row),
        row.feed.stable_id == library.feeds[place].feed.stable_id,
        !address_elsewhere(library.feeds, place, row.feed.normalized_url),
        row.feed.folder_id is Some ==> has_folder(library.folders, row.feed.folder_id->0),
    ensures
        with_row(library, place, row).wf(),
{
    let feeds = library.feeds.update(place, row);
    assert forall|i: int, j: int| 0 <= i < j < feeds.len() implies (
    #[trigger] feeds[i]).feed.stable_id != (#[trigger] feeds[j]).feed.stable_id
        && feeds[i].feed.normalized_url != feeds[j].feed.normalized_url by {
        assert(library.feeds[i].feed.stable_id != library.feeds[j].feed.stable_id);
        if i == place {
            assert(library.feeds[j].feed.normalized_url != row.feed.normalized_url);
        } else if j == place {
            assert(library.feeds[i].feed.normalized_url != row.feed.normalized_url);
        }
    }
    lemma_feeds_named_alike(library.articles, library.feeds, feeds);
}

proof fn lemma_with_note(library: LibraryView, id: Seq<char>, note: Option<RefreshView>, now: i64)
    requires
        library.wf(),
    ensures
        with_note(library, id, note, now).wf(),
{
    lemma_feed_at(library.feeds, id, 0);
    match feed_at(library.feeds, id, 0) {
        Some(i) => {
            crate::library::lemma_with_row(
                library,
                i,
                noted_feed(library.feeds[i], note, now),
            );
        },
        None => {},
    }
}

impl Library {
    fn address_elsewhere(&self, place: usize, url: &str) -> (r: bool)
        ensures
            r == address_elsewhere(self@.feeds, place as int, url@),
    {
        let mut i: usize = 0;
        while i < self.feeds.len()
            invariant
                i <= self.feeds@.len(),
                forall|j: int|
                    0 <= j < i && j != place ==> (#[trigger] self@.feeds[j]).feed.normalized_url
                        != url@,
            decreases self.feeds@.len() - i,
        {
            assert(self@.feeds[i as int] == self.feeds@[i as int]@);
            if i != place && same(self.feeds[i].feed.normalized_url.as_str(), url) {
                return true;
            }
            i += 1;
        }
        false
    }

    fn upsert_parsed_feed(&mut self, source: &str, ready: &IngestionResult, now: i64) -> (r: Result<
        (),
        StorageError,
    >)
        requires
            old(self)@.wf(),
        ensures
            final(self)@.wf(),
            match with_parsed_feed(
                old(self)@,
                ready@.stable_feed_id,
                source@,
                ready@.feed,
                now,
            ) {
                Ok(after) => r is Ok && final(self)@ == after,
                Err(error) => storage_failure(r) == Some(error) && final(self)@ == old(self)@,
            },
    {
        let ghost before = self@;
        proof {
            lemma_with_parsed_feed(before, ready@.stable_feed_id, source@, ready@.feed, now);
        }
        let name = match checked_name(ready.feed.title.as_str(), "feed title") {
            Ok(name) => name,
            Err(error) => {
                return Err(error);
            },
        };
        let normalized = normalize_url(source);
        match validate_web_url(normalized.as_str()) {
            Ok(()) => {},
            Err(error) => {
                return Err(error);
            },
        }
        let mut arrived = make_feed(
            ready.stable_feed_id.clone(),
            normalized.clone(),
            source.to_owned(),
            copied(&ready.feed.site_url),
            name.clone(),
            ready.feed.format,
            now,
        );
        arrived.feed.favicon_url = icon_of(&ready.feed.icon_candidates);
        arrived.feed.feed_image_url = copied(&ready.feed.feed_image);
        arrived.description = copied(&ready.feed.description);
        arrived.icon_candidates = lines_of(&ready.feed.icon_candidates);
        assert(arrived@ == arrived_feed(
            ready@.stable_feed_id,
            source@,
            ready@.feed,
            name_in(ready@.feed.title)->0,
            now,
        ));
        match self.find_feed(ready.stable_feed_id.as_str()) {
            Some(i) => {
                assert(before.feeds[i as int] == self.feeds@[i as int]@);
                let mut row = self.feeds[i].clone();
                row.feed.normalized_url = normalized;
                row.feed.site_url = first_there(&ready.feed.site_url, &self.feeds[i].feed.site_url);
                row.feed.display_name = match &self.feeds[i].feed.custom_name {
                    Some(own) => own.clone(),
                    None => name.clone(),
                };
                row.feed.publisher_name = name;
                row.feed.format = ready.feed.format;
                let icon = icon_of(&ready.feed.icon_candidates);
                row.feed.favicon_url = first_there(&icon, &self.feeds[i].feed.favicon_url);
                row.feed.feed_image_url = first_there(
                    &ready.feed.feed_image,
                    &self.feeds[i].feed.feed_image_url,
                );
                row.description = first_there(
                    &ready.feed.description,
                    &self.feeds[i].description,
                );
                let lines = lines_of(&ready.feed.icon_candidates);
                row.icon_candidates = first_there(&lines, &self.feeds[i].icon_candidates);
                row.modified_at = now;
                assert(row@ == renewed_feed(
                    before.feeds[i as int],
                    source@,
                    ready@.feed,
                    name_in(ready@.feed.title)->0,
                    now,
                ));
                if let Some(error) = fault_of_feed(&arrived) {
                    return Err(error);
                }
                if let Some(error) = fault_of_feed(&row) {
                    return Err(error);
                }
                if self.address_elsewhere(i, row.feed.normalized_url.as_str()) {
                    return Err(
                        StorageError::Constraint(
                            "UNIQUE constraint failed: feeds.normalized_url".to_owned(),
                        ),
                    );
                }
                self.feeds.set(i, row);
                assert(self@.feeds == before.feeds.update(i as int, row@));
                Ok(())
            },
            None => self.insert_feed(arrived),
        }
    }

    fn upsert_articles(&mut self, list: &Vec<IngestArticle>, feed: &str, now: i64) -> (r: usize)
        requires
            old(self)@.wf(),
            has_feed(old(self)@.feeds, feed@),
            titles_fit(ingest_views(list@)),
        ensures
            final(self)@.wf(),
            final(self)@ == with_articles(
                old(self)@,
                with_all_incoming(old(self)@.articles, ingest_views(list@), feed@, now),
            ),
            r == new_among(old(self)@.articles, ingest_views(list@), feed@, now),
            r <= list@.len(),
    {
        let ghost before = self@;
        let ghost all = ingest_views(list@);
        let mut fresh: usize = 0;
        let mut i: usize = 0;
        while i < list.len()
            invariant
                i <= list@.len(),
                all == ingest_views(list@),
                titles_fit(all),
                before.wf(),
                has_feed(before.feeds, feed@),
                self@.feeds == before.feeds,
                self@.folders == before.folders,
                articles_wf(self@.articles, before.feeds),
                self@.articles == with_all_incoming(
                    before.articles,
                    all.take(i as int),
                    feed@,
                    now,
                ),
                fresh <= i,
                fresh == new_among(before.articles, all.take(i as int), feed@, now),
            decreases list@.len() - i,
        {
            assert(all.take(i + 1).drop_last() == all.take(i as int));
            assert(all.take(i + 1).last() == list@[i as int]@);
            assert(all[i as int] == list@[i as int]@);
            let ghost sofar = self@.articles;
            proof {
                lemma_with_incoming(sofar, all[i as int], feed@, now, before.feeds);
            }
            match self.find_article(list[i].stable_id.as_str()) {
                Some(k) => {
                    assert(sofar[k as int] == self.articles@[k as int]@);
                    let row = renew_article(&self.articles[k], &list[i], now);
                    self.articles.set(k, row);
                    assert(self@.articles == sofar.update(k as int, row@));
                },
                None => {
                    let row = make_article(&list[i], feed, now);
                    self.articles.push(row);
                    fresh += 1;
                    assert(self@.articles == sofar.push(row@));
                },
            }
            i += 1;
        }
        assert(all.take(i as int) == all);
        fresh
    }

    fn note_feed(&mut self, id: &str, note: Option<&RefreshMetadata>, now: i64)
        requires
            old(self)@.wf(),
        ensures
            final(self)@.wf(),
            final(self)@ == with_note(
                old(self)@,
                id@,
                match note {
                    Some(n) => Some(n@),
                    None => None,
                },
                now,
            ),
    {
        let ghost before = self@;
        proof {
            lemma_with_note(
                before,
                id@,
                match note {
                    Some(n) => Some(n@),
                    None => None,
                },
                now,
            );
        }
        match note {
            Some(refresh) => {
                let mut success = refresh.clone();
                success.failure_category = None;
                let _ = self.record_refresh(id, &success);
            },
            None => {
                if let Some(i) = self.find_feed(id) {
                    assert(before.feeds[i as int] == self.feeds@[i as int]@);
                    let mut row = self.feeds[i].clone();
                    row.feed.last_refresh_at = Some(now);
                    row.feed.last_refresh_status = Some("success".to_owned());
                    row.modified_at = now;
                    self.feeds.set(i, row);
                    assert(self@.feeds == before.feeds.update(i as int, row@));
                }
            },
        }
    }

    /// Takes in what was made ready of a document of the feed at
    /// `subscription_url`. Where something in it is refused nothing changes.
    pub fn take_in(
        &mut self,
        subscription_url: &str,
        ready: &IngestionResult,
        now: i64,
        refresh: Option<&RefreshMetadata>,
    ) -> (r: Result<IngestStats, StorageError>)
        requires
            old(self)@.wf(),
        ensures
            final(self)@.wf(),
            match taken_in(
                old(self)@,
                subscription_url@,
                ready@,
                match refresh {
                    Some(n) => Some(n@),
                    None => None,
                },
                now,
            ) {
                Ok((after, fresh)) => r is Ok && final(self)@ == after && r->Ok_0.inserted == fresh
                    && r->Ok_0.updated == ready@.articles.len() - fresh
                    && r->Ok_0.duplicates_in_document == ready.duplicates_suppressed,
                Err(error) => storage_failure(r) == Some(error) && final(self)@ == old(self)@,
            },
    {
        let ghost before = self@;
        let ghost list = ready@.articles;
        proof {
            lemma_with_parsed_feed(
                before,
                ready@.stable_feed_id,
                subscription_url@,
                ready@.feed,
                now,
            );
        }
        let mut i: usize = 0;
        let mut fit = true;
        while i < ready.articles.len() && fit
            invariant
                i <= ready.articles@.len(),
                list == ingest_views(ready.articles@),
                fit ==> forall|j: int|
                    0 <= j < i ==> 1 <= (#[trigger] list[j]).article.title.len()
                        <= MAX_ARTICLE_TITLE,
                !fit ==> !titles_fit(list),
            decreases
                    ready.articles@.len() - i,
                    if fit {
                        1int
                    } else {
                        0int
                    },
        {
            assert(list[i as int] == ready.articles@[i as int]@);
            if fits(ready.articles[i].article.title.as_str(), MAX_ARTICLE_TITLE) {
                i += 1;
            } else {
                fit = false;
                assert(!(1 <= list[i as int].article.title.len() <= MAX_ARTICLE_TITLE));
            }
        }
        assert(fit == titles_fit(list));
        let rows = self.keep_feeds();
        match self.upsert_parsed_feed(subscription_url, ready, now) {
            Ok(()) => {},
            Err(error) => {
                return Err(error);
            },
        }
        if !fit {
            self.feeds = rows;
            return Err(StorageError::Constraint("CHECK constraint failed: length(title) BETWEEN 1 AND 4000".to_owned()));
        }
        let inserted = self.upsert_articles(
            &ready.articles,
            ready.stable_feed_id.as_str(),
            now,
        );
        self.note_feed(ready.stable_feed_id.as_str(), refresh, now);
        assert(list.len() == ready.articles@.len());
        Ok(
            IngestStats {
                inserted,
                updated: ready.articles.len() - inserted,
                duplicates_in_document: ready.duplicates_suppressed,
            },
        )
    }

    pub(crate) fn keep_feeds(&self) -> (r: Vec<FeedRow>)
        ensures
            feed_rows(r@) == self@.feeds,
    {
        let mut out: Vec<FeedRow> = Vec::new();
        let mut i: usize = 0;
        while i < self.feeds.len()
            invariant
                i <= self.feeds@.len(),
                out@.len() == i,
                forall|j: int| 0 <= j < i ==> #[trigger] out@[j]@ == self.feeds@[j]@,
            decreases self.feeds@.len() - i,
        {
            out.push(self.feeds[i].clone());
            i += 1;
        }
        assert(feed_rows(out@) == self@.feeds);
        out
    }

    fn known_articles(&self, feed: &str) -> (r: Vec<String>)
        ensures
            views(r@) == ids_of_feed(self@.articles, feed@),
    {
        let ghost all = self@.articles;
        let mut out: Vec<String> = Vec::new();
        let mut i: usize = 0;
        assert(views(out@) == Seq::<Seq<char>>::empty());
        while i < self.articles.len()
            invariant
                i <= self.articles@.len(),
                all == self@.articles,
                views(out@) == ids_of_feed(all.take(i as int), feed@),
            decreases self.articles@.len() - i,
        {
            assert(all.take(i + 1).drop_last() == all.take(i as int));
            assert(all.take(i + 1).last() == self.articles@[i as int]@);
            let ghost sofar = views(out@);
            if same(self.articles[i].feed_stable_id.as_str(), feed) {
                out.push(self.articles[i].stable_id.clone());
                assert(views(out@) == sofar.push(all[i as int].stable_id));
            }
            i += 1;
        }
        assert(all.take(i as int) == all);
        out
    }

    /// Takes in the document of the feed at `subscription_url`, fetched from
    /// `content_base_url`. Where something in it is refused nothing changes.
    pub fn ingest_fetched_document(
        &mut self,
        subscription_url: &str,
        content_base_url: &str,
        document: &str,
        now: i64,
        refresh: Option<&RefreshMetadata>,
    ) -> (r: Result<IngestStats, StorageError>)
        requires
            old(self)@.wf(),
        ensures
            final(self)@.wf(),
            match ingested(
                old(self)@,
                subscription_url@,
                content_base_url@,
                document@,
                now,
                match refresh {
                    Some(n) => Some(n@),
                    None => None,
                },
            ) {
                Ok((after, fresh, ready)) => r is Ok && final(self)@ == after && r->Ok_0.inserted
                    == fresh && r->Ok_0.updated == ready.articles.len() - fresh
                    && r->Ok_0.duplicates_in_document == ready.duplicates_suppressed,
                Err(error) => storage_failure(r) == Some(error) && final(self)@ == old(self)@,
            },
    {
        let parsed = match parse_with_source(document, content_base_url) {
            Ok(feed) => feed,
            Err(error) => {
                return Err(StorageError::ImportExport(error.message()));
            },
        };
        let id = feed_id(subscription_url);
        let existing = self.known_articles(id.as_str());
        let ready = prepare(parsed, subscription_url, &existing, now);
        self.take_in(subscription_url, &ready, now, refresh)
    }

    /// Takes in a document of the feed at `source_url`.
    pub fn ingest_document(&mut self, source_url: &str, document: &str, now: i64) -> (r: Result<
        IngestStats,
        StorageError,
    >)
        requires
            old(self)@.wf(),
        ensures
            final(self)@.wf(),
            match ingested(old(self)@, source_url@, source_url@, document@, now, None) {
                Ok((after, fresh, ready)) => r is Ok && final(self)@ == after && r->Ok_0.inserted
                    == fresh && r->Ok_0.updated == ready.articles.len() - fresh
                    && r->Ok_0.duplicates_in_document == ready.duplicates_suppressed,
                Err(error) => storage_failure(r) == Some(error) && final(self)@ == old(self)@,
            },
    {
        self.ingest_fetched_document(source_url, source_url, document, now, None)
    }
}

/// Taking in articles keeps those that are there: at their places, under their
/// ids, read or unread and starred or not as they were.
pub proof fn law_intake_keeps_reading_state(
    articles: Seq<ArticleRowView>,
    list: Seq<IngestView>,
    feed: Seq<char>,
    now: i64,
)
    ensures
        articles.len() <= with_all_incoming(articles, list, feed, now).len(),
        forall|i: int|
            0 <= i < articles.len() ==> {
                let row = #[trigger] with_all_incoming(articles, list, feed, now)[i];
                row.stable_id == articles[i].stable_id && row.is_read == articles[i].is_read
                    && row.is_starred == articles[i].is_starred && row.inserted_at
                    == articles[i].inserted_at
            },
    decreases list.len(),
{
    if list.len() > 0 {
        law_intake_keeps_reading_state(articles, list.drop_last(), feed, now);
        let before = with_all_incoming(articles, list.drop_last(), feed, now);
        lemma_article_at(before, list.last().stable_id, 0);
        let after = with_all_incoming(articles, list, feed, now);
        assert forall|i: int| 0 <= i < articles.len() implies ({
            let row = #[trigger] after[i];
            row.stable_id == articles[i].stable_id && row.is_read == articles[i].is_read
                && row.is_starred == articles[i].is_starred && row.inserted_at
                == articles[i].inserted_at
        }) by {
            assert(before[i].stable_id == articles[i].stable_id);
        }
    }
}

/// What came is there.
proof fn lemma_incoming_is_there(
    articles: Seq<ArticleRowView>,
    list: Seq<IngestView>,
    feed: Seq<char>,
    now: i64,
    k: int,
)
    requires
        0 <= k < list.len(),
    ensures
        article_at(with_all_incoming(articles, list, feed, now), list[k].stable_id, 0) is Some,
    decreases list.len(),
{
    let before = with_all_incoming(articles, list.drop_last(), feed, now);
    let after = with_all_incoming(articles, list, feed, now);
    let id = list[k].stable_id;
    lemma_article_at(before, list.last().stable_id, 0);
    lemma_article_at(after, id, 0);
    if k < list.len() - 1 {
        lemma_incoming_is_there(articles, list.drop_last(), feed, now, k);
        lemma_article_at(before, id, 0);
        let at = article_at(before, id, 0)->0;
        assert(after[at].stable_id == id);
    } else {
        match article_at(before, id, 0) {
            Some(at) => {
                assert(after[at].stable_id == id);
            },
            None => {
                assert(after[before.len() as int].stable_id == id);
            },
        }
    }
}

proof fn lemma_none_new(
    articles: Seq<ArticleRowView>,
    list: Seq<IngestView>,
    feed: Seq<char>,
    now: i64,
)
    requires
        forall|k: int|
            0 <= k < list.len() ==> article_at(
                articles,
                (#[trigger] list[k]).stable_id,
                0,
            ) is Some,
    ensures
        new_among(articles, list, feed, now) == 0,
        with_all_incoming(articles, list, feed, now).len() == articles.len(),
    decreases list.len(),
{
    if list.len() > 0 {
        let shorter = list.drop_last();
        assert forall|k: int| 0 <= k < shorter.len() implies article_at(
            articles,
            (#[trigger] shorter[k]).stable_id,
            0,
        ) is Some by {
            assert(shorter[k] == list[k]);
        }
        lemma_none_new(articles, shorter, feed, now);
        law_intake_keeps_reading_state(articles, shorter, feed, now);
        let before = with_all_incoming(articles, shorter, feed, now);
        let id = list[list.len() - 1].stable_id;
        lemma_article_at(articles, id, 0);
        lemma_article_at(before, id, 0);
        let at = article_at(articles, id, 0)->0;
        assert(before[at].stable_id == id);
        assert(article_at(before, id, 0) is Some);
    }
}

/// Taking in the same articles twice adds nothing the second time.
pub proof fn law_repeated_intake_adds_nothing(
    articles: Seq<ArticleRowView>,
    list: Seq<IngestView>,
    feed: Seq<char>,
    now: i64,
    then: i64,
)
    ensures
        new_among(with_all_incoming(articles, list, feed, now), list, feed, then) == 0,
        with_all_incoming(
            with_all_incoming(articles, list, feed, now),
            list,
            feed,
            then,
        ).len() == with_all_incoming(articles, list, feed, now).len(),
{
    let after = with_all_incoming(articles, list, feed, now);
    assert forall|k: int| 0 <= k < list.len() implies article_at(
        after,
        (#[trigger] list[k]).stable_id,
        0,
    ) is Some by {
        lemma_incoming_is_there(articles, list, feed, now, k);
    }
    lemma_none_new(after, list, feed, then);
}

/// A library that differs from another one at most in which articles are read
/// or starred.
pub open spec fn reread(before: LibraryView, after: LibraryView) -> bool {
    &&& after.folders == before.folders
    &&& after.feeds == before.feeds
    &&& after.articles.len() == before.articles.len()
    &&& forall|i: int|
        0 <= i < after.articles.len() ==> #[trigger] after.articles[i] == (ArticleRowView {
            is_read: after.articles[i].is_read,
            is_starred: after.articles[i].is_starred,
            modified_at: after.articles[i].modified_at,
            ..before.articles[i]
        })
}

/// A feed that was taken in can be taken in again.
proof fn lemma_feed_comes_again(
    library: LibraryView,
    id: Seq<char>,
    source: Seq<char>,
    feed: FeedView,
    note: Option<RefreshView>,
    now: i64,
    between: LibraryView,
    then: i64,
)
    requires
        library.wf(),
        between.wf(),
        with_parsed_feed(library, id, source, feed, now) is Ok,
        between.feeds == with_note(
            with_parsed_feed(library, id, source, feed, now)->Ok_0,
            id,
            note,
            now,
        ).feeds,
    ensures
        with_parsed_feed(between, id, source, feed, then) is Ok,
        with_parsed_feed(between, id, source, feed, then)->Ok_0.articles == between.articles,
{
    let name = name_in(feed.title)->0;
    let middle = with_parsed_feed(library, id, source, feed, now)->Ok_0;
    lemma_with_parsed_feed(library, id, source, feed, now);
    lemma_feed_at(library.feeds, id, 0);
    lemma_feed_at(middle.feeds, id, 0);
    lemma_feed_at(between.feeds, id, 0);
    let at = feed_at(middle.feeds, id, 0)->0;
    let row = middle.feeds[at];
    assert(row.feed.normalized_url == normal_url(source) && row.feed.publisher_name == name
        && row.feed.display_name == (match row.feed.custom_name {
        Some(own) => own,
        None => name,
    }) && 1 <= source.len() <= MAX_FEED_URL) by {
        match feed_at(library.feeds, id, 0) {
            Some(i) => {
                assert(middle.feeds[i].feed.stable_id == id);
                assert(at == i);
            },
            None => {
                assert(at == library.feeds.len());
            },
        }
    }
    let noted = noted_feed(row, note, now);
    assert(between.feeds == middle.feeds.update(at, noted));
    assert(between.feeds[at].feed.stable_id == id);
    let place = feed_at(between.feeds, id, 0)->0;
    assert(place == at);
    let again = renewed_feed(noted, source, feed, name, then);
    assert(is_sound_feed(row));
    assert(is_sound_feed(again));
    assert(!address_elsewhere(between.feeds, at, again.feed.normalized_url)) by {
        assert(between.feeds[at].feed.normalized_url == normal_url(source));
    }
}

/// Taking in the document of a feed a second time, at whatever time and with
/// whatever note, succeeds. It finds the same articles, none of which is new,
/// and leaves every article under its id, read or unread and starred or not as
/// it is by then, and with the time at which it first came. In between, articles
/// may be read and starred.
pub proof fn law_second_document_adds_nothing(
    library: LibraryView,
    subscription_url: Seq<char>,
    base_url: Seq<char>,
    document: Seq<char>,
    now: i64,
    note: Option<RefreshView>,
    between: LibraryView,
    then: i64,
    later_note: Option<RefreshView>,
)
    requires
        library.wf(),
        between.wf(),
        ingested(library, subscription_url, base_url, document, now, note) is Ok,
        reread(
            ingested(library, subscription_url, base_url, document, now, note)->Ok_0.0,
            between,
        ),
    ensures
        match ingested(between, subscription_url, base_url, document, then, later_note) {
            Ok((after, fresh, ready)) => {
                let first = ingested(
                    library,
                    subscription_url,
                    base_url,
                    document,
                    now,
                    note,
                )->Ok_0.2;
                &&& fresh == 0
                &&& ready.articles.len() == first.articles.len()
                &&& ready.duplicates_suppressed == first.duplicates_suppressed
                &&& after.articles.len() == between.articles.len()
                &&& forall|i: int|
                    0 <= i < after.articles.len() ==> {
                        let row = #[trigger] after.articles[i];
                        row.stable_id == between.articles[i].stable_id && row.is_read
                            == between.articles[i].is_read && row.is_starred
                            == between.articles[i].is_starred && row.inserted_at
                            == between.articles[i].inserted_at
                    }
            },
            Err(_) => false,
        },
{
    let id = feed_identity(subscription_url);
    let feed = parsed_feed(document, base_url)->Ok_0;
    let known = ids_of_feed(library.articles, id);
    let later = ids_of_feed(between.articles, id);
    let first = prepared(feed, subscription_url, known, now);
    let second = prepared(feed, subscription_url, later, then);
    crate::ingestion::lemma_prepared_alike(feed, subscription_url, known, now, later, then);
    let middle = with_parsed_feed(library, id, subscription_url, first.feed, now)->Ok_0;
    lemma_with_parsed_feed(library, id, subscription_url, first.feed, now);
    let articles = with_all_incoming(middle.articles, first.articles, id, now);
    lemma_feed_at(middle.feeds, id, 0);
    lemma_feed_comes_again(
        library,
        id,
        subscription_url,
        first.feed,
        note,
        now,
        between,
        then,
    );
    assert(titles_fit(second.articles)) by {
        assert forall|i: int| 0 <= i < second.articles.len() implies 1 <= (
        #[trigger] second.articles[i]).article.title.len() <= MAX_ARTICLE_TITLE by {
            assert(second.articles[i].article == first.articles[i].article);
        }
    }
    assert forall|k: int| 0 <= k < second.articles.len() implies article_at(
        between.articles,
        (#[trigger] second.articles[k]).stable_id,
        0,
    ) is Some by {
        assert(second.articles[k].stable_id == first.articles[k].stable_id);
        lemma_incoming_is_there(middle.articles, first.articles, id, now, k);
        lemma_article_at(articles, first.articles[k].stable_id, 0);
        let at = article_at(articles, first.articles[k].stable_id, 0)->0;
        lemma_article_at(between.articles, first.articles[k].stable_id, 0);
        assert(between.articles[at].stable_id == articles[at].stable_id);
    }
    lemma_none_new(between.articles, second.articles, id, then);
    law_intake_keeps_reading_state(between.articles, second.articles, id, then);
}

} // verus!
