//! Articles of a document made ready for a library: identities across feeds,
//! and what is new.

use crate::identity::{article_id, article_identity, feed_id, feed_identity};
use crate::parser::{
    article_views, lent, ArticleView, FeedView, ParsedArticle, ParsedFeed,
};
use crate::text::views;
use crate::unique::{firsts, is_first, lemma_firsts_step, mark_firsts};
use vstd::hash_set::StringHashSet;
use vstd::prelude::*;

verus! {

/// An article made ready for a library.
#[derive(Debug, PartialEq, Eq)]
pub struct IngestArticle {
    pub stable_id: String,
    /// The identifier that the article had in its document.
    pub provider_id: String,
    pub article: ParsedArticle,
    pub is_existing: bool,
    /// The time from which the article's age counts.
    pub retention_timestamp: i64,
}

/// What an [`IngestArticle`] holds.
pub struct IngestView {
    pub stable_id: Seq<char>,
    pub provider_id: Seq<char>,
    pub article: ArticleView,
    pub is_existing: bool,
    pub retention_timestamp: i64,
}

impl View for IngestArticle {
    type V = IngestView;

    open spec fn view(&self) -> IngestView {
        IngestView {
            stable_id: self.stable_id@,
            provider_id: self.provider_id@,
            article: self.article@,
            is_existing: self.is_existing,
            retention_timestamp: self.retention_timestamp,
        }
    }
}

impl Clone for IngestArticle {
    fn clone(&self) -> (r: Self)
        ensures
            r@ == self@,
    {
        IngestArticle {
            stable_id: self.stable_id.clone(),
            provider_id: self.provider_id.clone(),
            article: self.article.clone(),
            is_existing: self.is_existing,
            retention_timestamp: self.retention_timestamp,
        }
    }
}

/// What the articles of a list hold.
pub open spec fn ingest_views(list: Seq<IngestArticle>) -> Seq<IngestView> {
    Seq::new(list.len(), |i: int| list[i]@)
}

/// A feed made ready for a library.
#[derive(Debug, PartialEq, Eq)]
pub struct IngestionResult {
    pub stable_feed_id: String,
    pub feed: ParsedFeed,
    pub articles: Vec<IngestArticle>,
    pub duplicates_suppressed: usize,
}

/// What an [`IngestionResult`] holds.
pub struct IngestionView {
    pub stable_feed_id: Seq<char>,
    pub feed: FeedView,
    pub articles: Seq<IngestView>,
    pub duplicates_suppressed: nat,
}

impl View for IngestionResult {
    type V = IngestionView;

    open spec fn view(&self) -> IngestionView {
        IngestionView {
            stable_feed_id: self.stable_feed_id@,
            feed: self.feed@,
            articles: ingest_views(self.articles@),
            duplicates_suppressed: self.duplicates_suppressed as nat,
        }
    }
}

/// The identity of an article of a feed, taken from what its document says of
/// it.
pub open spec fn identity_in(feed: Seq<char>, article: ArticleView) -> Seq<char> {
    article_identity(
        feed,
        Some(article.stable_id),
        article.url,
        Some(article.title),
        article.published_at,
    )
}

/// The identities of the articles of a list.
pub open spec fn identities_in(feed: Seq<char>, list: Seq<ArticleView>) -> Seq<Seq<char>> {
    Seq::new(list.len(), |i: int| identity_in(feed, list[i]))
}

/// An article under its identity, with what is known of it.
pub open spec fn prepared_article(
    feed: Seq<char>,
    article: ArticleView,
    existing: Seq<Seq<char>>,
    inserted_at: i64,
) -> IngestView {
    let id = identity_in(feed, article);
    IngestView {
        stable_id: id,
        provider_id: article.stable_id,
        article: ArticleView { stable_id: id, ..article },
        is_existing: existing.contains(id),
        retention_timestamp: match article.published_at {
            Some(time) => time,
            None => inserted_at,
        },
    }
}

/// The articles of a list, each under its identity.
pub open spec fn prepared_articles(
    feed: Seq<char>,
    list: Seq<ArticleView>,
    existing: Seq<Seq<char>>,
    inserted_at: i64,
) -> Seq<IngestView> {
    Seq::new(list.len(), |i: int| prepared_article(feed, list[i], existing, inserted_at))
}

/// The articles inside a list of prepared ones.
pub open spec fn inner_articles(list: Seq<IngestView>) -> Seq<ArticleView> {
    Seq::new(list.len(), |i: int| list[i].article)
}

/// A feed made ready for a library: its articles under their identities, each
/// identity once.
pub open spec fn prepared(
    feed: FeedView,
    subscription_url: Seq<char>,
    existing: Seq<Seq<char>>,
    inserted_at: i64,
) -> IngestionView {
    let id = feed_identity(subscription_url);
    let articles = firsts(
        prepared_articles(id, feed.articles, existing, inserted_at),
        identities_in(id, feed.articles),
    );
    IngestionView {
        stable_feed_id: id,
        feed: FeedView { articles: inner_articles(articles), ..feed },
        articles,
        duplicates_suppressed: (feed.articles.len() - articles.len()) as nat,
    }
}

fn known_ids(existing: &Vec<String>) -> (r: StringHashSet)
    ensures
        forall|id: Seq<char>| #[trigger] r@.contains(id) == views(existing@).contains(id),
{
    let ghost all = views(existing@);
    let mut out = StringHashSet::new();
    let mut i: usize = 0;
    while i < existing.len()
        invariant
            i <= existing@.len(),
            all == views(existing@),
            forall|id: Seq<char>| #[trigger] out@.contains(id) == all.take(i as int).contains(id),
        decreases existing@.len() - i,
    {
        let ghost before = out@;
        let ghost shorter = all.take(i as int);
        let ghost longer = all.take(i + 1);
        assert(longer == shorter.push(all[i as int]));
        assert(all[i as int] == existing@[i as int]@);
        out.insert(existing[i].clone());
        assert forall|id: Seq<char>| #[trigger] out@.contains(id) == longer.contains(id) by {
            assert(before.contains(id) == shorter.contains(id));
            if shorter.contains(id) {
                let k = choose|k: int| 0 <= k < shorter.len() && shorter[k] == id;
                assert(longer[k] == id);
            } else if id == all[i as int] {
                assert(longer[i as int] == id);
            } else if longer.contains(id) {
                let k = choose|k: int| 0 <= k < longer.len() && longer[k] == id;
                assert(shorter[k] == id);
            }
        }
        i += 1;
    }
    assert(all.take(i as int) == all);
    out
}

/// The feed `feed`, subscribed to at `subscription_url`, made ready for a
/// library that holds the articles `existing`.
pub fn prepare(
    feed: ParsedFeed,
    subscription_url: &str,
    existing: &Vec<String>,
    inserted_at: i64,
) -> (r: IngestionResult)
    ensures
        r@ == prepared(feed@, subscription_url@, views(existing@), inserted_at),
{
    let ghost was = feed@;
    let stable_feed_id = feed_id(subscription_url);
    let ghost id = stable_feed_id@;
    let ghost list = was.articles;
    let ghost ids = identities_in(id, list);
    let ghost wanted = prepared_articles(id, list, views(existing@), inserted_at);
    let known = known_ids(existing);
    let mut keys: Vec<String> = Vec::new();
    let mut i: usize = 0;
    while i < feed.articles.len()
        invariant
            i <= feed.articles@.len(),
            list == article_views(feed.articles@),
            id == stable_feed_id@,
            ids == identities_in(id, list),
            views(keys@) == ids.take(i as int),
        decreases feed.articles@.len() - i,
    {
        assert(list[i as int] == feed.articles@[i as int]@);
        let ghost before = keys@;
        let key = article_id(
            stable_feed_id.as_str(),
            Some(feed.articles[i].stable_id.as_str()),
            lent(&feed.articles[i].url),
            Some(feed.articles[i].title.as_str()),
            feed.articles[i].published_at,
        );
        keys.push(key);
        assert(views(keys@) == views(before).push(ids[i as int]));
        assert(ids.take(i + 1) == ids.take(i as int).push(ids[i as int]));
        i += 1;
    }
    assert(ids.take(i as int) == ids);
    assert(views(keys@).len() == keys@.len());
    let marks = mark_firsts(&keys);
    let count: usize = marks.len();
    let mut articles: Vec<IngestArticle> = Vec::new();
    let mut inner: Vec<ParsedArticle> = Vec::new();
    let mut k: usize = 0;
    let ParsedFeed {
        format,
        title,
        description,
        site_url,
        subscription_url: own_url,
        language,
        icon_candidates,
        feed_image,
        articles: given,
    } = feed;
    assert(ingest_views(articles@) == firsts(wanted.take(0), ids.take(0)));
    assert(article_views(inner@) == inner_articles(ingest_views(articles@)));
    for article in iter: given
        invariant
            iter.seq() == given@,
            k == iter.index(),
            count == marks@.len() == keys@.len() == list.len(),
            list == article_views(given@),
            ids == identities_in(id, list),
            views(keys@) == ids,
            wanted == prepared_articles(id, list, views(existing@), inserted_at),
            forall|key: Seq<char>|
                #[trigger] known@.contains(key) == views(existing@).contains(key),
            forall|j: int| 0 <= j < marks@.len() ==> #[trigger] marks@[j] == is_first(ids, j),
            ingest_views(articles@) == firsts(wanted.take(k as int), ids.take(k as int)),
            article_views(inner@) == inner_articles(ingest_views(articles@)),
            articles@.len() <= k,
    {
        proof {
            lemma_firsts_step(wanted, ids, k as int);
        }
        assert(list[k as int] == article@);
        assert(ids[k as int] == keys@[k as int]@);
        let ghost before = ingest_views(articles@);
        let ghost before_inner = article_views(inner@);
        if marks[k] {
            let key = keys[k].clone();
            let provider_id = article.stable_id;
            let retention_timestamp = match article.published_at {
                Some(time) => time,
                None => inserted_at,
            };
            let rekeyed = ParsedArticle {
                stable_id: keys[k].clone(),
                title: article.title,
                url: article.url,
                author: article.author,
                published_at: article.published_at,
                updated_at: article.updated_at,
                summary: article.summary,
                content: article.content,
                image: article.image,
                image_candidates: article.image_candidates,
                enclosure_url: article.enclosure_url,
                enclosure_type: article.enclosure_type,
                categories: article.categories,
            };
            inner.push(rekeyed.clone());
            let is_existing = known.contains(key.as_str());
            let made = IngestArticle {
                stable_id: key,
                provider_id,
                article: rekeyed,
                is_existing,
                retention_timestamp,
            };
            assert(made@ == wanted[k as int]);
            articles.push(made);
            assert(ingest_views(articles@) == before.push(made@));
            assert(article_views(inner@) == before_inner.push(made@.article));
            assert(inner_articles(before.push(made@)) == inner_articles(before).push(
                made@.article,
            ));
        }
        k += 1;
    }
    assert(wanted.take(list.len() as int) == wanted);
    assert(ids.take(list.len() as int) == ids);
    assert(ingest_views(articles@).len() == articles@.len());
    let duplicates_suppressed: usize = count - articles.len();
    let ready = ParsedFeed {
        format,
        title,
        description,
        site_url,
        subscription_url: own_url,
        language,
        icon_candidates,
        feed_image,
        articles: inner,
    };
    IngestionResult { stable_feed_id, feed: ready, articles, duplicates_suppressed }
}

/// The identities of the articles that are made ready are pairwise different.
pub proof fn law_identities_are_unique(
    feed: FeedView,
    subscription_url: Seq<char>,
    existing: Seq<Seq<char>>,
    inserted_at: i64,
)
    ensures
        forall|i: int, j: int|
            0 <= i < j < prepared(feed, subscription_url, existing, inserted_at).articles.len()
                ==> (#[trigger] prepared(
                feed,
                subscription_url,
                existing,
                inserted_at,
            ).articles[i]).stable_id != (#[trigger] prepared(
                feed,
                subscription_url,
                existing,
                inserted_at,
            ).articles[j]).stable_id,
{
    let id = feed_identity(subscription_url);
    let all = prepared_articles(id, feed.articles, existing, inserted_at);
    let ids = identities_in(id, feed.articles);
    crate::unique::law_firsts_are_unique(ids);
    lemma_ids_of_firsts(all, ids);
    let kept = firsts(all, ids);
    assert forall|i: int, j: int| 0 <= i < j < kept.len() implies (#[trigger] kept[i]).stable_id != (
    #[trigger] kept[j]).stable_id by {
        assert(firsts(ids, ids)[i] == kept[i].stable_id);
        assert(firsts(ids, ids)[j] == kept[j].stable_id);
    }
}

proof fn lemma_ids_of_firsts(list: Seq<IngestView>, ids: Seq<Seq<char>>)
    requires
        list.len() == ids.len(),
        forall|i: int| 0 <= i < list.len() ==> (#[trigger] list[i]).stable_id == ids[i],
    ensures
        firsts(list, ids).len() == firsts(ids, ids).len(),
        forall|i: int|
            0 <= i < firsts(list, ids).len() ==> (#[trigger] firsts(list, ids)[i]).stable_id
                == firsts(ids, ids)[i],
    decreases list.len(),
{
    if list.len() > 0 {
        let a = list.drop_last();
        let b = ids.drop_last();
        assert forall|i: int| 0 <= i < a.len() implies (#[trigger] a[i]).stable_id == b[i] by {
            assert(a[i] == list[i]);
        }
        lemma_ids_of_firsts(a, b);
        assert(list[list.len() - 1].stable_id == ids[list.len() - 1]);
    }
}

/// Made ready a second time, once the library holds its articles, a feed has
/// the same identities, and none of them is new.
pub proof fn law_second_time_all_exist(
    feed: FeedView,
    subscription_url: Seq<char>,
    existing: Seq<Seq<char>>,
    inserted_at: i64,
    later: Seq<Seq<char>>,
    later_at: i64,
)
    requires
        forall|i: int|
            0 <= i < prepared(feed, subscription_url, existing, inserted_at).articles.len()
                ==> later.contains(
                (#[trigger] prepared(
                    feed,
                    subscription_url,
                    existing,
                    inserted_at,
                ).articles[i]).stable_id,
            ),
    ensures
        prepared(feed, subscription_url, existing, inserted_at).articles.len() == prepared(
            feed,
            subscription_url,
            later,
            later_at,
        ).articles.len(),
        forall|i: int|
            0 <= i < prepared(feed, subscription_url, later, later_at).articles.len() ==> (
            #[trigger] prepared(feed, subscription_url, later, later_at).articles[i]).is_existing
                && prepared(feed, subscription_url, later, later_at).articles[i].stable_id
                == prepared(
                feed,
                subscription_url,
                existing,
                inserted_at,
            ).articles[i].stable_id,
{
    let id = feed_identity(subscription_url);
    let ids = identities_in(id, feed.articles);
    let first = prepared_articles(id, feed.articles, existing, inserted_at);
    let second = prepared_articles(id, feed.articles, later, later_at);
    lemma_ids_of_firsts(first, ids);
    lemma_ids_of_firsts(second, ids);
    lemma_firsts_members(second, ids);
    assert forall|i: int| 0 <= i < firsts(second, ids).len() implies (#[trigger] firsts(
        second,
        ids,
    )[i]).is_existing && firsts(second, ids)[i].stable_id == firsts(first, ids)[i].stable_id by {
        assert(firsts(first, ids)[i].stable_id == firsts(ids, ids)[i]);
        let k = choose|k: int| 0 <= k < second.len() && #[trigger] second[k] == firsts(second, ids)[i];
        assert(second[k].is_existing == later.contains(second[k].stable_id));
    }
}

proof fn lemma_firsts_members(list: Seq<IngestView>, ids: Seq<Seq<char>>)
    requires
        list.len() == ids.len(),
    ensures
        forall|i: int|
            0 <= i < firsts(list, ids).len() ==> exists|k: int|
                0 <= k < list.len() && #[trigger] list[k] == #[trigger] firsts(list, ids)[i],
    decreases list.len(),
{
    if list.len() > 0 {
        let a = list.drop_last();
        let b = ids.drop_last();
        lemma_firsts_members(a, b);
        let before = firsts(a, b);
        let all = firsts(list, ids);
        assert forall|i: int| 0 <= i < all.len() implies exists|k: int|
            0 <= k < list.len() && #[trigger] list[k] == #[trigger] all[i] by {
            if i < before.len() {
                assert(all[i] == before[i]);
                let k = choose|k: int| 0 <= k < a.len() && #[trigger] a[k] == before[i];
                assert(list[k] == all[i]);
            } else {
                assert(list[list.len() - 1] == all[i]);
            }
        }
    }
}

/// What values hold beside the time and what was known does not change which of
/// them are first.
proof fn lemma_firsts_alike(a: Seq<IngestView>, b: Seq<IngestView>, ids: Seq<Seq<char>>)
    requires
        a.len() == b.len() == ids.len(),
        forall|i: int|
            0 <= i < a.len() ==> (#[trigger] a[i]).stable_id == b[i].stable_id && a[i].article
                == b[i].article,
    ensures
        firsts(a, ids).len() == firsts(b, ids).len(),
        forall|i: int|
            0 <= i < firsts(a, ids).len() ==> (#[trigger] firsts(a, ids)[i]).stable_id == firsts(
                b,
                ids,
            )[i].stable_id && firsts(a, ids)[i].article == firsts(b, ids)[i].article,
    decreases a.len(),
{
    if a.len() > 0 {
        let x = a.drop_last();
        let y = b.drop_last();
        assert forall|i: int| 0 <= i < x.len() implies (#[trigger] x[i]).stable_id == y[i].stable_id
            && x[i].article == y[i].article by {
            assert(x[i] == a[i]);
        }
        lemma_firsts_alike(x, y, ids.drop_last());
        assert(a[a.len() - 1].article == b[a.len() - 1].article);
    }
}

/// A feed that is made ready twice holds the same articles both times, whatever
/// was known and whenever it was.
pub proof fn lemma_prepared_alike(
    feed: FeedView,
    subscription_url: Seq<char>,
    existing: Seq<Seq<char>>,
    inserted_at: i64,
    later: Seq<Seq<char>>,
    later_at: i64,
)
    ensures
        ({
            let first = prepared(feed, subscription_url, existing, inserted_at);
            let second = prepared(feed, subscription_url, later, later_at);
            &&& first.feed == second.feed
            &&& first.duplicates_suppressed == second.duplicates_suppressed
            &&& first.articles.len() == second.articles.len()
            &&& forall|i: int|
                0 <= i < first.articles.len() ==> (#[trigger] first.articles[i]).stable_id
                    == second.articles[i].stable_id
            &&& forall|i: int|
                0 <= i < second.articles.len() ==> (#[trigger] second.articles[i]).article
                    == first.articles[i].article
        }),
{
    let id = feed_identity(subscription_url);
    let ids = identities_in(id, feed.articles);
    let a = prepared_articles(id, feed.articles, existing, inserted_at);
    let b = prepared_articles(id, feed.articles, later, later_at);
    lemma_firsts_alike(a, b, ids);
    lemma_firsts_alike(b, a, ids);
    assert(inner_articles(firsts(a, ids)) == inner_articles(firsts(b, ids)));
}

} // verus!
