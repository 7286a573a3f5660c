//! What the library holds once a document was taken in.

use crate::articles::{source_kept, with_articles};
use crate::ingestion::{
    identities_in, identity_in, law_identities_are_unique, prepared, prepared_articles, IngestView,
    IngestionView,
};
use crate::identity::{feed_identity, normal_url};
use crate::intake::{
    ids_of_feed, ingested, new_among, new_article, renewed_article, taken_in, with_all_incoming, with_note, with_parsed_feed,
};
use crate::library::{
    article_at, feed_at, lemma_article_at, lemma_feed_at, LibraryView,
};
use crate::laws::places::{are_the_places, comes_first, law_first_of_each_is_kept};
use crate::parser::{parsed_feed, ArticleView, FeedView};
use crate::records::{ArticleRowView, FeedRowView, RefreshView};
use crate::text::{join, lower, trim};
use crate::unique::firsts;
use vstd::prelude::*;

verus! {

/// What is said now is kept; where nothing is said, what was said before.
pub open spec fn is_taken_over<T>(said: Option<T>, before: Option<T>, kept: Option<T>) -> bool {
    &&& said is Some ==> kept == said
    &&& said is None ==> kept == before
}

/// A kept article holds what the article of a document says, and of what that
/// leaves out what was kept before. What the reader made of it stays.
pub open spec fn holds_what_came(
    before: ArticleRowView,
    came: ArticleView,
    now: i64,
    kept: ArticleRowView,
) -> bool {
    &&& kept.title == came.title
    &&& is_taken_over(came.url, before.url, kept.url)
    &&& is_taken_over(came.author, before.author, kept.author)
    &&& is_taken_over(came.summary, before.summary, kept.summary)
    &&& is_taken_over(came.content, before.content, kept.content)
    &&& is_taken_over(came.published_at, before.published_at, kept.published_at)
    &&& is_taken_over(came.updated_at, before.updated_at, kept.updated_at)
    &&& is_taken_over(came.enclosure_url, before.enclosure_url, kept.enclosure_url)
    &&& is_taken_over(came.enclosure_type, before.enclosure_type, kept.enclosure_type)
    &&& came.image is Some ==> kept.image_url == Some(came.image->0.url) && kept.image_source
        == Some(source_kept(came.image->0.source))
    &&& came.image is None ==> kept.image_url == before.image_url && kept.image_source
        == before.image_source
    &&& came.published_at is Some ==> kept.retention_at == came.published_at->0
    &&& came.published_at is None ==> kept.retention_at == before.retention_at
    &&& kept.modified_at == now
    &&& kept.stable_id == before.stable_id
    &&& kept.feed_stable_id == before.feed_stable_id
    &&& kept.provider_id == before.provider_id
    &&& kept.inserted_at == before.inserted_at
    &&& kept.is_read == before.is_read
    &&& kept.is_starred == before.is_starred
}

/// A kept article is new: unread and without a star, and it holds what the
/// article of a document says and nothing else.
pub open spec fn is_newly_kept(
    id: Seq<char>,
    feed: Seq<char>,
    provider: Seq<char>,
    came: ArticleView,
    now: i64,
    kept: ArticleRowView,
) -> bool {
    &&& kept.stable_id == id
    &&& kept.feed_stable_id == feed
    &&& kept.provider_id == Some(provider)
    &&& kept.title == came.title
    &&& kept.url == came.url
    &&& kept.author == came.author
    &&& kept.summary == came.summary
    &&& kept.content == came.content
    &&& kept.published_at == came.published_at
    &&& kept.updated_at == came.updated_at
    &&& kept.enclosure_url == came.enclosure_url
    &&& kept.enclosure_type == came.enclosure_type
    &&& came.image is Some ==> kept.image_url == Some(came.image->0.url) && kept.image_source
        == Some(source_kept(came.image->0.source))
    &&& came.image is None ==> kept.image_url is None && kept.image_source is None
    &&& !kept.is_read
    &&& !kept.is_starred
    &&& kept.inserted_at == now
    &&& kept.modified_at == now
}

/// An article that is there takes over what comes.
proof fn lemma_renewed(row: ArticleRowView, incoming: IngestView, now: i64)
    ensures
        holds_what_came(row, incoming.article, now, renewed_article(row, incoming, now)),
{
}

/// An article that is not there is made of what comes.
proof fn lemma_made(incoming: IngestView, feed: Seq<char>, now: i64)
    ensures
        is_newly_kept(
            incoming.stable_id,
            feed,
            incoming.provider_id,
            incoming.article,
            now,
            new_article(incoming, feed, now),
        ),
        new_article(incoming, feed, now).retention_at == incoming.retention_timestamp,
{
}

proof fn lemma_rows_hold_what_came(
    articles: Seq<ArticleRowView>,
    list: Seq<IngestView>,
    feed: Seq<char>,
    now: i64,
)
    requires
        forall|i: int, j: int|
            0 <= i < j < articles.len() ==> (#[trigger] articles[i]).stable_id != (
            #[trigger] articles[j]).stable_id,
        forall|i: int, j: int|
            0 <= i < j < list.len() ==> (#[trigger] list[i]).stable_id != (
            #[trigger] list[j]).stable_id,
    ensures
        ({
            let after = with_all_incoming(articles, list, feed, now);
            &&& after.len() == articles.len() + new_among(articles, list, feed, now)
            &&& forall|i: int, j: int|
                0 <= i < j < after.len() ==> (#[trigger] after[i]).stable_id != (
                #[trigger] after[j]).stable_id
            &&& forall|i: int|
                #![trigger articles[i]]
                #![trigger after[i]]
                0 <= i < articles.len() && (forall|k: int|
                    0 <= k < list.len() ==> (#[trigger] list[k]).stable_id
                        != articles[i].stable_id) ==> after[i] == articles[i]
            &&& forall|i: int, k: int|
                #![trigger articles[i], list[k]]
                #![trigger after[i], list[k]]
                0 <= i < articles.len() && 0 <= k < list.len() && list[k].stable_id
                    == articles[i].stable_id ==> holds_what_came(
                    articles[i],
                    list[k].article,
                    now,
                    after[i],
                )
            &&& forall|i: int|
                articles.len() <= i < after.len() ==> exists|k: int|
                    0 <= k < list.len() && is_newly_kept(
                        (#[trigger] list[k]).stable_id,
                        feed,
                        list[k].provider_id,
                        list[k].article,
                        now,
                        #[trigger] after[i],
                    ) && after[i].retention_at == list[k].retention_timestamp
            &&& forall|k: int|
                0 <= k < list.len() ==> exists|i: int|
                    0 <= i < after.len() && (#[trigger] after[i]).stable_id == (
                    #[trigger] list[k]).stable_id
        }),
    decreases list.len(),
{
    let after = with_all_incoming(articles, list, feed, now);
    if list.len() > 0 {
        let shorter = list.drop_last();
        assert forall|i: int, j: int| 0 <= i < j < shorter.len() implies (
        #[trigger] shorter[i]).stable_id != (#[trigger] shorter[j]).stable_id by {
            assert(shorter[i] == list[i] && shorter[j] == list[j]);
        }
        lemma_rows_hold_what_came(articles, shorter, feed, now);
        let before = with_all_incoming(articles, shorter, feed, now);
        let last = list[list.len() - 1];
        lemma_article_at(before, last.stable_id, 0);
        let at = article_at(before, last.stable_id, 0);
        lemma_made(last, feed, now);
        if at is Some {
            lemma_renewed(before[at->0], last, now);
        }
        if at is Some && at->0 >= articles.len() {
            let k = choose|k: int|
                0 <= k < shorter.len() && is_newly_kept(
                    (#[trigger] shorter[k]).stable_id,
                    feed,
                    shorter[k].provider_id,
                    shorter[k].article,
                    now,
                    before[at->0],
                );
            assert(shorter[k] == list[k]);
            assert(list[k].stable_id == last.stable_id);
            assert(false);
        }
        assert forall|i: int|
            #![trigger articles[i]]
            0 <= i < articles.len() && (forall|k: int|
                0 <= k < list.len() ==> (#[trigger] list[k]).stable_id
                    != articles[i].stable_id) implies after[i] == articles[i] by {
            assert forall|k: int| 0 <= k < shorter.len() implies (#[trigger] shorter[k]).stable_id
                != articles[i].stable_id by {
                assert(shorter[k] == list[k]);
            }
            assert(before[i] == articles[i]);
        }
        assert forall|i: int, k: int|
            #![trigger articles[i], list[k]]
            0 <= i < articles.len() && 0 <= k < list.len() && list[k].stable_id
                == articles[i].stable_id implies holds_what_came(
            articles[i],
            list[k].article,
            now,
            after[i],
        ) by {
            if k < shorter.len() {
                assert(shorter[k] == list[k]);
                assert(holds_what_came(articles[i], shorter[k].article, now, before[i]));
                assert(after[i] == before[i]);
            } else {
                assert forall|m: int| 0 <= m < shorter.len() implies (
                #[trigger] shorter[m]).stable_id != articles[i].stable_id by {
                    assert(shorter[m] == list[m]);
                }
                assert(before[i] == articles[i]);
                assert(at is Some);
                assert(at->0 == i);
            }
        }
        assert forall|i: int| articles.len() <= i < after.len() implies exists|k: int|
            0 <= k < list.len() && is_newly_kept(
                (#[trigger] list[k]).stable_id,
                feed,
                list[k].provider_id,
                list[k].article,
                now,
                #[trigger] after[i],
            ) && after[i].retention_at == list[k].retention_timestamp by {
            if i < before.len() {
                assert(after[i] == before[i]);
                let k = choose|k: int|
                    0 <= k < shorter.len() && is_newly_kept(
                        (#[trigger] shorter[k]).stable_id,
                        feed,
                        shorter[k].provider_id,
                        shorter[k].article,
                        now,
                        before[i],
                    ) && before[i].retention_at == shorter[k].retention_timestamp;
                assert(shorter[k] == list[k]);
            } else {
                assert(is_newly_kept(
                    last.stable_id,
                    feed,
                    last.provider_id,
                    last.article,
                    now,
                    after[i],
                ));
            }
        }
        assert forall|k: int| 0 <= k < list.len() implies exists|i: int|
            0 <= i < after.len() && (#[trigger] after[i]).stable_id == (
            #[trigger] list[k]).stable_id by {
            if k < shorter.len() {
                assert(shorter[k] == list[k]);
                let i = choose|i: int|
                    0 <= i < before.len() && (#[trigger] before[i]).stable_id
                        == shorter[k].stable_id;
                assert(after[i].stable_id == before[i].stable_id);
            } else if at is Some {
                assert(after[at->0].stable_id == last.stable_id);
            } else {
                assert(after[before.len() as int].stable_id == last.stable_id);
            }
        }
    }
}

/// The kept feed holds what its document says, and of what that leaves out what
/// was kept before. A name of the reader's own, its folder and where it is
/// fetched from stay.
pub open spec fn feed_holds_what_came(
    before: FeedRowView,
    source: Seq<char>,
    came: FeedView,
    kept: FeedRowView,
) -> bool {
    &&& kept.feed.stable_id == before.feed.stable_id
    &&& kept.feed.normalized_url == normal_url(source)
    &&& kept.feed.fetch_url == before.feed.fetch_url
    &&& kept.feed.publisher_name == trim(came.title)
    &&& kept.feed.custom_name == before.feed.custom_name
    &&& before.feed.custom_name is Some ==> kept.feed.display_name == before.feed.custom_name->0
    &&& before.feed.custom_name is None ==> kept.feed.display_name == trim(came.title)
    &&& kept.feed.format == came.format
    &&& kept.feed.folder_id == before.feed.folder_id
    &&& is_taken_over(came.site_url, before.feed.site_url, kept.feed.site_url)
    &&& is_taken_over(came.feed_image, before.feed.feed_image_url, kept.feed.feed_image_url)
    &&& is_taken_over(came.description, before.description, kept.description)
    &&& came.icon_candidates.len() > 0 ==> kept.feed.favicon_url == Some(came.icon_candidates[0])
        && kept.icon_candidates == Some(join(came.icon_candidates, "\n"@))
    &&& came.icon_candidates.len() == 0 ==> kept.feed.favicon_url == before.feed.favicon_url
        && kept.icon_candidates == before.icon_candidates
    &&& kept.created_at == before.created_at
}

/// The kept feed is new: in no folder, without a name of the reader's own, and
/// it holds what its document says and nothing else.
pub open spec fn feed_is_newly_kept(
    source: Seq<char>,
    came: FeedView,
    now: i64,
    kept: FeedRowView,
) -> bool {
    &&& kept.feed.normalized_url == normal_url(source)
    &&& kept.feed.fetch_url == source
    &&& kept.feed.publisher_name == trim(came.title)
    &&& kept.feed.custom_name is None
    &&& kept.feed.display_name == trim(came.title)
    &&& kept.feed.format == came.format
    &&& kept.feed.folder_id is None
    &&& kept.feed.site_url == came.site_url
    &&& kept.feed.feed_image_url == came.feed_image
    &&& kept.description == came.description
    &&& came.icon_candidates.len() > 0 ==> kept.feed.favicon_url == Some(came.icon_candidates[0])
        && kept.icon_candidates == Some(join(came.icon_candidates, "\n"@))
    &&& came.icon_candidates.len() == 0 ==> kept.feed.favicon_url is None
        && kept.icon_candidates is None
    &&& kept.created_at == now
}

/// The kept feed tells how it was last refreshed: well, at the time and with
/// what the note says, where there is one.
pub open spec fn tells_of_success(
    before: Option<FeedRowView>,
    note: Option<RefreshView>,
    now: i64,
    kept: FeedRowView,
) -> bool {
    let old = before->0.feed;
    let was = before is Some;
    &&& kept.feed.last_refresh_status == Some("success"@)
    &&& note is None ==> {
        &&& kept.feed.last_refresh_at == Some(now)
        &&& was ==> kept.feed.etag == old.etag && kept.feed.last_modified == old.last_modified
            && kept.feed.effective_fetch_url == old.effective_fetch_url
    }
    &&& note is Some ==> {
        &&& kept.feed.consecutive_failures == 0
        &&& kept.feed.last_http_status == note->0.http_status
        &&& kept.feed.last_refresh_attempt_at == Some(note->0.attempted_at)
        &&& kept.last_refresh_error is None
        &&& note->0.succeeded_at is Some ==> kept.feed.last_refresh_at == note->0.succeeded_at
        &&& note->0.succeeded_at is None ==> kept.feed.last_refresh_at == Some(
            note->0.attempted_at,
        )
        &&& is_taken_over(
            note->0.etag,
            if was {
                old.etag
            } else {
                None
            },
            kept.feed.etag,
        )
        &&& is_taken_over(
            note->0.last_modified,
            if was {
                old.last_modified
            } else {
                None
            },
            kept.feed.last_modified,
        )
        &&& is_taken_over(
            note->0.final_fetch_url,
            if was {
                old.effective_fetch_url
            } else {
                None
            },
            kept.feed.effective_fetch_url,
        )
    }
}

/// An article that the library holds under an id.
pub open spec fn is_kept(library: LibraryView, i: int, id: Seq<char>) -> bool {
    0 <= i < library.articles.len() && library.articles[i].stable_id == id
}

/// A library with the articles of a document taken in: one that was there holds
/// what the document now says of it, and what the document leaves out as it
/// was; the first of those that are the same article to the library counts.
/// One that was not there is there, as the document says. Each is there once.
pub proof fn law_document_is_kept(
    library: LibraryView,
    url: Seq<char>,
    base: Seq<char>,
    document: Seq<char>,
    now: i64,
    note: Option<RefreshView>,
    j: int,
)
    requires
        library.wf(),
        parsed_feed(document, base) is Ok,
        ingested(library, url, base, document, now, note) is Ok,
        0 <= j < parsed_feed(document, base)->Ok_0.articles.len(),
        forall|h: int|
            0 <= h < j ==> identity_in(
                feed_identity(url),
                #[trigger] parsed_feed(document, base)->Ok_0.articles[h],
            ) != identity_in(feed_identity(url), parsed_feed(document, base)->Ok_0.articles[j]),
    ensures
        ({
            let came = parsed_feed(document, base)->Ok_0.articles[j];
            let id = identity_in(feed_identity(url), came);
            let after = ingested(library, url, base, document, now, note)->Ok_0.0;
            exists|i: int|
                {
                    &&& #[trigger] is_kept(after, i, id)
                    &&& i < library.articles.len() ==> library.articles[i].stable_id == id
                        && holds_what_came(library.articles[i], came, now, after.articles[i])
                    &&& i >= library.articles.len() ==> {
                        &&& forall|m: int| !#[trigger] is_kept(library, m, id)
                        &&& is_newly_kept(
                            id,
                            feed_identity(url),
                            came.stable_id,
                            came,
                            now,
                            after.articles[i],
                        )
                        &&& came.published_at is Some ==> after.articles[i].retention_at
                            == came.published_at->0
                        &&& came.published_at is None ==> after.articles[i].retention_at == now
                    }
                    &&& forall|m: int| #[trigger] is_kept(after, m, id) ==> m == i
                }
        }),
{
    let feed = parsed_feed(document, base)->Ok_0;
    let came = feed.articles[j];
    let feed_id = feed_identity(url);
    let id = identity_in(feed_id, came);
    let known = ids_of_feed(library.articles, feed_id);
    let ready = prepared(feed, url, known, now);
    let after = ingested(library, url, base, document, now, note)->Ok_0.0;
    let k = lemma_made_ready(feed, url, known, now, j);
    law_identities_are_unique(feed, url, known, now);
    lemma_taken_in(library, url, ready, note, now);
    let rows = after.articles;
    lemma_rows_hold_what_came(library.articles, ready.articles, feed_id, now);
    let i = choose|i: int|
        0 <= i < rows.len() && (#[trigger] rows[i]).stable_id == ready.articles[k].stable_id;
    assert(is_kept(after, i, id));
    assert forall|m: int| #[trigger] is_kept(after, m, id) implies m == i by {
        if m < i {
            assert(rows[m].stable_id != rows[i].stable_id);
        } else if i < m {
            assert(rows[i].stable_id != rows[m].stable_id);
        }
    }
    if i < library.articles.len() {
        let told = exists|q: int|
            0 <= q < ready.articles.len() && (#[trigger] ready.articles[q]).stable_id
                == library.articles[i].stable_id;
        if told {
            let q = choose|q: int|
                0 <= q < ready.articles.len() && (#[trigger] ready.articles[q]).stable_id
                    == library.articles[i].stable_id;
            assert(holds_what_came(library.articles[i], ready.articles[q].article, now, rows[i]));
        }
        assert(library.articles[i].stable_id == id);
        assert(holds_what_came(library.articles[i], ready.articles[k].article, now, rows[i]));
    } else {
        let q = choose|q: int|
            0 <= q < ready.articles.len() && is_newly_kept(
                (#[trigger] ready.articles[q]).stable_id,
                feed_id,
                ready.articles[q].provider_id,
                ready.articles[q].article,
                now,
                rows[i],
            ) && rows[i].retention_at == ready.articles[q].retention_timestamp;
        assert(ready.articles[q].stable_id == ready.articles[k].stable_id);
        if q < k {
            assert(ready.articles[q].stable_id != ready.articles[k].stable_id);
        } else if k < q {
            assert(ready.articles[k].stable_id != ready.articles[q].stable_id);
        }
        assert forall|m: int| !#[trigger] is_kept(library, m, id) by {
            if is_kept(library, m, id) {
                assert(library.articles[m].stable_id == ready.articles[k].stable_id);
                assert(holds_what_came(
                    library.articles[m],
                    ready.articles[k].article,
                    now,
                    rows[m],
                ));
                assert(rows[m].stable_id != rows[i].stable_id);
            }
        }
    }
}

/// Taking in a document leaves alone what it does not speak of: the folders,
/// the other feeds, and every article whose id is that of none of its own. It
/// removes nothing, and as many articles are added as it reports.
pub proof fn law_intake_leaves_the_rest(
    library: LibraryView,
    url: Seq<char>,
    base: Seq<char>,
    document: Seq<char>,
    now: i64,
    note: Option<RefreshView>,
)
    requires
        library.wf(),
        parsed_feed(document, base) is Ok,
        ingested(library, url, base, document, now, note) is Ok,
    ensures
        ({
            let feed = parsed_feed(document, base)->Ok_0;
            let id = feed_identity(url);
            let (after, fresh, _ready) = ingested(library, url, base, document, now, note)->Ok_0;
            &&& after.folders == library.folders
            &&& after.articles.len() == library.articles.len() + fresh
            &&& forall|i: int|
                0 <= i < library.articles.len() && (forall|j: int|
                    0 <= j < feed.articles.len() ==> identity_in(
                        id,
                        #[trigger] feed.articles[j],
                    ) != library.articles[i].stable_id) ==> after.articles[i]
                    == #[trigger] library.articles[i]
            &&& forall|i: int|
                library.articles.len() <= i < after.articles.len() ==> exists|j: int|
                    0 <= j < feed.articles.len() && identity_in(id, #[trigger] feed.articles[j])
                        == (#[trigger] after.articles[i]).stable_id
            &&& forall|f: int|
                0 <= f < library.feeds.len() && library.feeds[f].feed.stable_id != id
                    ==> after.feeds[f] == #[trigger] library.feeds[f]
        }),
{
    let feed = parsed_feed(document, base)->Ok_0;
    let id = feed_identity(url);
    let known = ids_of_feed(library.articles, id);
    let ready = prepared(feed, url, known, now);
    let after = ingested(library, url, base, document, now, note)->Ok_0.0;
    law_identities_are_unique(feed, url, known, now);
    lemma_taken_in(library, url, ready, note, now);
    lemma_rows_hold_what_came(library.articles, ready.articles, id, now);
    let all = prepared_articles(id, feed.articles, known, now);
    let ids = identities_in(id, feed.articles);
    law_first_of_each_is_kept(all, ids);
    let at = choose|at: Seq<int>|
        {
            &&& #[trigger] are_the_places(at, all.len() as int, comes_first(ids))
            &&& firsts(all, ids) == at.map_values(|i: int| all[i])
        };
    assert forall|k: int| 0 <= k < ready.articles.len() implies ids[at[k]] == (
    #[trigger] ready.articles[k]).stable_id && 0 <= at[k] < feed.articles.len() by {
        assert(ready.articles[k] == all[at[k]]);
        assert(comes_first(ids)(at[k]));
    }
    assert forall|i: int|
        0 <= i < library.articles.len() && (forall|j: int|
            0 <= j < feed.articles.len() ==> identity_in(id, #[trigger] feed.articles[j])
                != library.articles[i].stable_id) implies after.articles[i]
        == #[trigger] library.articles[i] by {
        assert forall|k: int| 0 <= k < ready.articles.len() implies (
        #[trigger] ready.articles[k]).stable_id != library.articles[i].stable_id by {
            assert(ids[at[k]] == identity_in(id, feed.articles[at[k]]));
        }
    }
    assert forall|i: int| library.articles.len() <= i < after.articles.len() implies exists|j: int|
        0 <= j < feed.articles.len() && identity_in(id, #[trigger] feed.articles[j]) == (
        #[trigger] after.articles[i]).stable_id by {
        let rows = after.articles;
        let q = choose|q: int|
            0 <= q < ready.articles.len() && is_newly_kept(
                (#[trigger] ready.articles[q]).stable_id,
                id,
                ready.articles[q].provider_id,
                ready.articles[q].article,
                now,
                rows[i],
            ) && rows[i].retention_at == ready.articles[q].retention_timestamp;
        assert(ids[at[q]] == identity_in(id, feed.articles[at[q]]));
    }
}

/// Once a document was taken in, the library has one feed under the identity of
/// the address, and that one holds what the document says of it.
pub proof fn law_feed_is_kept(
    library: LibraryView,
    url: Seq<char>,
    base: Seq<char>,
    document: Seq<char>,
    now: i64,
    note: Option<RefreshView>,
)
    requires
        library.wf(),
        parsed_feed(document, base) is Ok,
        ingested(library, url, base, document, now, note) is Ok,
    ensures
        ({
            let feed = parsed_feed(document, base)->Ok_0;
            let id = feed_identity(url);
            let after = ingested(library, url, base, document, now, note)->Ok_0.0;
            exists|f: int|
                {
                    &&& 0 <= f < after.feeds.len()
                    &&& (#[trigger] after.feeds[f]).feed.stable_id == id
                    &&& f < library.feeds.len() ==> feed_holds_what_came(
                        library.feeds[f],
                        url,
                        feed,
                        after.feeds[f],
                    ) && tells_of_success(Some(library.feeds[f]), note, now, after.feeds[f])
                    &&& f >= library.feeds.len() ==> feed_is_newly_kept(
                        url,
                        feed,
                        now,
                        after.feeds[f],
                    ) && tells_of_success(None, note, now, after.feeds[f]) && f
                        == library.feeds.len() && after.feeds.len() == library.feeds.len() + 1
                }
        }),
{
    let feed = parsed_feed(document, base)->Ok_0;
    let id = feed_identity(url);
    let known = ids_of_feed(library.articles, id);
    let ready = prepared(feed, url, known, now);
    let after = ingested(library, url, base, document, now, note)->Ok_0.0;
    lemma_feed_at(library.feeds, id, 0);
    let middle = with_parsed_feed(library, id, url, ready.feed, now)->Ok_0;
    lemma_feed_at(middle.feeds, id, 0);
    match feed_at(library.feeds, id, 0) {
        Some(f) => {
            assert(middle.feeds[f].feed.stable_id == id);
            assert(feed_at(middle.feeds, id, 0) == Some(f)) by {
                let g = feed_at(middle.feeds, id, 0)->0;
                if g < f {
                    assert(middle.feeds[g] == library.feeds[g]);
                }
            }
            assert(after.feeds[f].feed.stable_id == id);
        },
        None => {
            let f = library.feeds.len() as int;
            assert(middle.feeds[f].feed.stable_id == id);
            assert(feed_at(middle.feeds, id, 0) == Some(f)) by {
                let g = feed_at(middle.feeds, id, 0)->0;
                if g < f {
                    assert(middle.feeds[g] == library.feeds[g]);
                }
            }
            assert(after.feeds[f].feed.stable_id == id);
        },
    }
}

/// Where the articles of the document end up.
proof fn lemma_taken_in(
    library: LibraryView,
    url: Seq<char>,
    ready: IngestionView,
    note: Option<RefreshView>,
    now: i64,
)
    requires
        taken_in(library, url, ready, note, now) is Ok,
    ensures
        ({
            let (after, fresh) = taken_in(library, url, ready, note, now)->Ok_0;
            let id = ready.stable_feed_id;
            &&& after.folders == library.folders
            &&& after.articles == with_all_incoming(library.articles, ready.articles, id, now)
            &&& fresh == new_among(library.articles, ready.articles, id, now)
            &&& forall|f: int|
                0 <= f < library.feeds.len() && library.feeds[f].feed.stable_id != id
                    ==> after.feeds[f] == #[trigger] library.feeds[f]
        }),
{
    let id = ready.stable_feed_id;
    lemma_feed_at(library.feeds, id, 0);
    let middle = with_parsed_feed(library, id, url, ready.feed, now)->Ok_0;
    let rows = with_all_incoming(middle.articles, ready.articles, id, now);
    let filled = with_articles(middle, rows);
    lemma_feed_at(filled.feeds, id, 0);
    assert(middle.articles == library.articles);
    assert forall|f: int|
        0 <= f < library.feeds.len() && library.feeds[f].feed.stable_id
            != id implies with_note(filled, id, note, now).feeds[f] == #[trigger] library.feeds[f] by {
        assert(middle.feeds[f] == library.feeds[f]);
    }
}

/// The place among the articles that are made ready of one that counts.
proof fn lemma_made_ready(
    feed: FeedView,
    url: Seq<char>,
    known: Seq<Seq<char>>,
    now: i64,
    j: int,
) -> (k: int)
    requires
        0 <= j < feed.articles.len(),
        forall|h: int|
            0 <= h < j ==> identity_in(feed_identity(url), #[trigger] feed.articles[h])
                != identity_in(feed_identity(url), feed.articles[j]),
    ensures
        0 <= k < prepared(feed, url, known, now).articles.len(),
        ({
            let made = prepared(feed, url, known, now).articles[k];
            let came = feed.articles[j];
            &&& made.stable_id == identity_in(feed_identity(url), came)
            &&& made.provider_id == came.stable_id
            &&& made.article == (ArticleView { stable_id: made.stable_id, ..came })
            &&& came.published_at is Some ==> made.retention_timestamp == came.published_at->0
            &&& came.published_at is None ==> made.retention_timestamp == now
        }),
{
    let id = feed_identity(url);
    let all = prepared_articles(id, feed.articles, known, now);
    let ids = identities_in(id, feed.articles);
    law_first_of_each_is_kept(all, ids);
    let at = choose|at: Seq<int>|
        {
            &&& #[trigger] are_the_places(at, all.len() as int, comes_first(ids))
            &&& firsts(all, ids) == at.map_values(|i: int| all[i])
        };
    assert forall|h: int| 0 <= h < j implies #[trigger] ids[h] != ids[j] by {
        assert(ids[h] == identity_in(id, feed.articles[h]));
    }
    assert(comes_first(ids)(j));
    let k = choose|k: int| 0 <= k < at.len() && at[k] == j;
    assert(prepared(feed, url, known, now).articles[k] == all[j]);
    k
}

/// An article of a document is known to the library by the identifier that its
/// publisher gives it, whatever else the document says of it.
pub proof fn law_articles_are_known_by_their_identifier(
    feed: Seq<char>,
    article: ArticleView,
    other: ArticleView,
)
    requires
        trim(article.stable_id).len() > 0,
        lower(trim(article.stable_id)) != "null"@,
        trim(other.stable_id) == trim(article.stable_id),
    ensures
        identity_in(feed, article) == identity_in(feed, other),
        identity_in(feed, article) == "article:v1:"@ + crate::identity::digest_of(
            feed + "|"@ + ("guid:"@ + crate::identity::composed(trim(article.stable_id))),
        ),
{
}

proof fn lemma_ids_of_feed(articles: Seq<ArticleRowView>, feed: Seq<char>, id: Seq<char>)
    ensures
        ids_of_feed(articles, feed).contains(id) <==> exists|i: int|
            0 <= i < articles.len() && (#[trigger] articles[i]).stable_id == id
                && articles[i].feed_stable_id == feed,
    decreases articles.len(),
{
    if articles.len() > 0 {
        let shorter = articles.drop_last();
        let n = articles.len() - 1;
        lemma_ids_of_feed(shorter, feed, id);
        let before = ids_of_feed(shorter, feed);
        let all = ids_of_feed(articles, feed);
        if all.contains(id) {
            let k = choose|k: int| 0 <= k < all.len() && all[k] == id;
            if k < before.len() {
                assert(before[k] == id);
                let i = choose|i: int|
                    0 <= i < shorter.len() && (#[trigger] shorter[i]).stable_id == id
                        && shorter[i].feed_stable_id == feed;
                assert(articles[i] == shorter[i]);
            } else {
                assert(articles[n].stable_id == id);
            }
        }
        if exists|i: int|
            0 <= i < articles.len() && (#[trigger] articles[i]).stable_id == id
                && articles[i].feed_stable_id == feed {
            let i = choose|i: int|
                0 <= i < articles.len() && (#[trigger] articles[i]).stable_id == id
                    && articles[i].feed_stable_id == feed;
            if i < n {
                assert(shorter[i] == articles[i]);
                let k = choose|k: int| 0 <= k < before.len() && before[k] == id;
                assert(all[k] == id);
            } else {
                assert(all[before.len() as int] == id);
            }
        }
    }
}

/// What is made ready tells of each article whether its feed has it already, and
/// of the whole how many were left out because they are the same article to the
/// library as an earlier one.
pub proof fn law_ready_articles_tell_what_is_known(
    articles: Seq<ArticleRowView>,
    feed: FeedView,
    url: Seq<char>,
    now: i64,
    k: int,
)
    requires
        0 <= k < prepared(feed, url, ids_of_feed(articles, feed_identity(url)), now).articles.len(),
    ensures
        ({
            let id = feed_identity(url);
            let ready = prepared(feed, url, ids_of_feed(articles, id), now);
            let made = ready.articles[k];
            &&& ready.stable_feed_id == id
            &&& made.is_existing <==> exists|i: int|
                0 <= i < articles.len() && (#[trigger] articles[i]).stable_id == made.stable_id
                    && articles[i].feed_stable_id == id
            &&& ready.duplicates_suppressed + ready.articles.len() == feed.articles.len()
        }),
{
    let id = feed_identity(url);
    let known = ids_of_feed(articles, id);
    let ready = prepared(feed, url, known, now);
    let all = prepared_articles(id, feed.articles, known, now);
    let ids = identities_in(id, feed.articles);
    law_first_of_each_is_kept(all, ids);
    let at = choose|at: Seq<int>|
        {
            &&& #[trigger] are_the_places(at, all.len() as int, comes_first(ids))
            &&& firsts(all, ids) == at.map_values(|i: int| all[i])
        };
    crate::laws::upkeep::lemma_few(at, all.len() as int, comes_first(ids));
    assert(ready.articles[k] == all[at[k]]);
    lemma_ids_of_feed(articles, id, ready.articles[k].stable_id);
}

} // verus!
