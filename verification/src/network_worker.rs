//! What is told of the work with the network, and what of it is kept.

use crate::articles::with_articles;
use crate::library::{article_at, feed_at, iconed_feed, with_row, Library, LibraryView};
use crate::network::{FetchResponse, NetworkError};
use crate::page_discovery::{discovered_views, DiscoveredFeed, DiscoveredView};
use crate::parser::copied;
use crate::reader::{block_views, parse_feed_html, read_html, BlockView, Document, ReaderError};
use crate::records::ArticleRowView;
use crate::refresh::{
    AddFeedResult, RefreshAllResult, RefreshError, RefreshResult, RefreshState, RefreshSummary,
};
use crate::text::view_of;
use vstd::prelude::*;

verus! {

/// How many sites are asked for their icons at once.
pub const MAX_ICON_CANDIDATES: usize = 100;

/// A piece of work.
#[derive(Debug)]
pub enum Command {
    AddFeed(String),
    AddDiscoveredFeeds(Vec<(String, String)>),
    RefreshFeed(String),
    RefreshAll,
    DiscoverArticleImages(Vec<(String, String)>),
    DiscoverFavicons(Vec<(String, String)>),
    ExtractArticle { article_id: String, url: String },
}

/// What is told of it.
#[derive(Debug)]
pub enum Event {
    FeedAdded { feed_id: String, articles: usize },
    DiscoveryCandidates(Vec<(String, Option<String>)>),
    DiscoveredFeedsAdded { added: usize, articles: usize, failures: Vec<String> },
    FeedRefreshed { inserted: usize, failed: bool },
    RefreshComplete(RefreshSummary),
    ArticleImagesDiscovered(Vec<(String, String)>),
    FaviconsDiscovered(Vec<(String, String)>),
    ArticleExtracted { article_id: String, document: Document },
    ArticleExtractionFailed { article_id: String, error: String },
    Error(String),
}

/// What a list of addresses with titles holds.
pub open spec fn titled_views(list: Seq<(String, Option<String>)>) -> Seq<
    (Seq<char>, Option<Seq<char>>),
> {
    Seq::new(list.len(), |i: int| (list[i].0@, view_of(list[i].1)))
}

/// The addresses of announced feeds, with their titles.
pub open spec fn offered(list: Seq<DiscoveredView>) -> Seq<(Seq<char>, Option<Seq<char>>)> {
    Seq::new(list.len(), |i: int| (list[i].url, list[i].title_hint))
}

/// The addresses of the feeds in `list`, with their titles.
pub fn offer(list: &Vec<DiscoveredFeed>) -> (r: Vec<(String, Option<String>)>)
    ensures
        titled_views(r@) == offered(discovered_views(list@)),
{
    let mut out: Vec<(String, Option<String>)> = Vec::new();
    let mut i: usize = 0;
    while i < list.len()
        invariant
            i <= list@.len(),
            out@.len() == i,
            forall|j: int|
                0 <= j < i ==> (#[trigger] out@[j]).0@ == list@[j]@.url && view_of(out@[j].1)
                    == list@[j]@.title_hint,
        decreases list@.len() - i,
    {
        out.push((list[i].url.clone(), copied(&list[i].title_hint)));
        i += 1;
    }
    assert(titled_views(out@) == offered(discovered_views(list@)));
    out
}

/// What is told of an address that was to be added.
pub fn added_event(outcome: Result<AddFeedResult, RefreshError>) -> (r: Event)
    ensures
        match outcome {
            Ok(AddFeedResult::Added { feed_id, ingest }) => match r {
                Event::FeedAdded { feed_id: id, articles } => id@ == feed_id@ && articles
                    == ingest.inserted,
                _ => false,
            },
            Ok(AddFeedResult::Candidates(found)) => match r {
                Event::DiscoveryCandidates(list) => titled_views(list@) == offered(
                    found@.candidates,
                ),
                _ => false,
            },
            Err(error) => match r {
                Event::Error(text) => text@ == error@.message(),
                _ => false,
            },
        },
{
    match outcome {
        Ok(AddFeedResult::Added { feed_id, ingest }) => Event::FeedAdded {
            feed_id,
            articles: ingest.inserted,
        },
        Ok(AddFeedResult::Candidates(found)) => Event::DiscoveryCandidates(
            offer(&found.candidates),
        ),
        Err(error) => Event::Error(error.message()),
    }
}

/// What is told of a feed that was to be refreshed.
pub fn refreshed_event(outcome: Result<RefreshResult, RefreshError>) -> (r: Event)
    ensures
        match outcome {
            Ok(result) => match r {
                Event::FeedRefreshed { inserted, failed } => inserted == result.inserted && failed
                    == (result.state == RefreshState::Failed),
                _ => false,
            },
            Err(error) => match r {
                Event::Error(text) => text@ == error@.message(),
                _ => false,
            },
        },
{
    match outcome {
        Ok(result) => {
            let failed = match result.state {
                RefreshState::Failed => true,
                _ => false,
            };
            Event::FeedRefreshed { inserted: result.inserted, failed }
        },
        Err(error) => Event::Error(error.message()),
    }
}

/// What is told of a refresh of all feeds.
pub fn all_refreshed_event(outcome: Result<RefreshAllResult, RefreshError>) -> (r: Event)
    ensures
        match outcome {
            Ok(all) => match r {
                Event::RefreshComplete(summary) => summary == all.summary,
                _ => false,
            },
            Err(error) => match r {
                Event::Error(text) => text@ == error@.message(),
                _ => false,
            },
        },
{
    match outcome {
        Ok(all) => Event::RefreshComplete(all.summary),
        Err(error) => Event::Error(error.message()),
    }
}

/// How adding several feeds went so far.
#[derive(Debug)]
pub struct Additions {
    pub added: usize,
    pub articles: usize,
    pub failures: Vec<String>,
}

impl Additions {
    /// Nothing was added yet.
    pub fn start() -> (r: Additions)
        ensures
            r.added == 0,
            r.articles == 0,
            r.failures@.len() == 0,
    {
        Additions { added: 0, articles: 0, failures: Vec::new() }
    }

    /// Counts what came of the feed called `name`: added with its articles, or
    /// a failure that goes by its name.
    pub fn count(&mut self, name: String, outcome: &Result<AddFeedResult, RefreshError>)
        ensures
            match outcome {
                Ok(AddFeedResult::Added { feed_id: _, ingest }) => final(self).added == (if old(
                    self,
                ).added == usize::MAX {
                    usize::MAX as int
                } else {
                    old(self).added + 1
                }) && final(self).articles == (if old(self).articles + ingest.inserted
                    > usize::MAX {
                    usize::MAX as int
                } else {
                    old(self).articles + ingest.inserted
                }) && final(self).failures@ == old(self).failures@,
                _ => final(self).added == old(self).added && final(self).articles == old(
                    self,
                ).articles && final(self).failures@ == old(self).failures@.push(name),
            },
    {
        match outcome {
            Ok(AddFeedResult::Added { feed_id: _, ingest }) => {
                self.added = self.added.saturating_add(1);
                self.articles = self.articles.saturating_add(ingest.inserted);
            },
            _ => {
                self.failures.push(name);
            },
        }
    }

    /// What is told at the end.
    pub fn event(self) -> (r: Event)
        ensures
            match r {
                Event::DiscoveredFeedsAdded { added, articles, failures } => added == self.added
                    && articles == self.articles && failures@ == self.failures@,
                _ => false,
            },
    {
        Event::DiscoveredFeedsAdded {
            added: self.added,
            articles: self.articles,
            failures: self.failures,
        }
    }
}

/// What a list of pairs of texts holds.
pub open spec fn pair_views(list: Seq<(String, String)>) -> Seq<(Seq<char>, Seq<char>)> {
    Seq::new(list.len(), |i: int| (list[i].0@, list[i].1@))
}

/// The library after a picture was found for an article that had none.
pub open spec fn pictured(library: LibraryView, id: Seq<char>, url: Seq<char>) -> LibraryView {
    match article_at(library.articles, id, 0) {
        Some(i) => if library.articles[i].image_url is None {
            with_articles(
                library,
                library.articles.update(
                    i,
                    ArticleRowView {
                        image_url: Some(url),
                        image_source: Some("open-graph"@),
                        ..library.articles[i]
                    },
                ),
            )
        } else {
            library
        },
        None => library,
    }
}

/// The library after pictures were found.
pub open spec fn all_pictured(library: LibraryView, found: Seq<(Seq<char>, Seq<char>)>) -> LibraryView
    decreases found.len(),
{
    if found.len() == 0 {
        library
    } else {
        pictured(all_pictured(library, found.drop_last()), found.last().0, found.last().1)
    }
}

/// Keeps the pictures that were found for articles, each by the id of its
/// article.
pub fn keep_images(library: &mut Library, found: &Vec<(String, String)>)
    requires
        old(library)@.wf(),
    ensures
        final(library)@.wf(),
        final(library)@ == all_pictured(old(library)@, pair_views(found@)),
{
    let ghost before = library@;
    let ghost all = pair_views(found@);
    let mut i: usize = 0;
    while i < found.len()
        invariant
            i <= found@.len(),
            all == pair_views(found@),
            library@.wf(),
            library@ == all_pictured(before, all.take(i as int)),
        decreases found@.len() - i,
    {
        assert(all.take(i + 1).drop_last() == all.take(i as int));
        assert(all.take(i + 1).last() == (found@[i as int].0@, found@[i as int].1@));
        library.set_article_image(found[i].0.as_str(), found[i].1.as_str());
        i += 1;
    }
    assert(all.take(i as int) == all);
}

/// The library after an icon was found for a feed.
pub open spec fn iconed(library: LibraryView, id: Seq<char>, url: Seq<char>, now: i64) -> LibraryView {
    match feed_at(library.feeds, id, 0) {
        Some(i) => with_row(library, i, iconed_feed(library.feeds[i], url, now)),
        None => library,
    }
}

/// The library after icons were found.
pub open spec fn all_iconed(
    library: LibraryView,
    found: Seq<(Seq<char>, Seq<char>)>,
    now: i64,
) -> LibraryView
    decreases found.len(),
{
    if found.len() == 0 {
        library
    } else {
        iconed(all_iconed(library, found.drop_last(), now), found.last().0, found.last().1, now)
    }
}

/// Keeps the icons that were found for feeds, each by the id of its feed.
pub fn keep_icons(library: &mut Library, found: &Vec<(String, String)>, now: i64)
    requires
        old(library)@.wf(),
    ensures
        final(library)@.wf(),
        final(library)@ == all_iconed(old(library)@, pair_views(found@), now),
{
    let ghost before = library@;
    let ghost all = pair_views(found@);
    let mut i: usize = 0;
    while i < found.len()
        invariant
            i <= found@.len(),
            all == pair_views(found@),
            library@.wf(),
            library@ == all_iconed(before, all.take(i as int), now),
        decreases found@.len() - i,
    {
        assert(all.take(i + 1).drop_last() == all.take(i as int));
        assert(all.take(i + 1).last() == (found@[i as int].0@, found@[i as int].1@));
        let _ = library.set_feed_favicon(found[i].0.as_str(), found[i].1.as_str(), now);
        i += 1;
    }
    assert(all.take(i as int) == all);
}

/// What is told of an article whose page was read.
pub open spec fn read_page_event(
    r: Event,
    article_id: Seq<char>,
    blocks: Result<Seq<BlockView>, ReaderError>,
) -> bool {
    match blocks {
        Ok(list) => if list.len() > 0 {
            match r {
                Event::ArticleExtracted { article_id: id, document } => id@ == article_id
                    && block_views(document.blocks@) == list,
                _ => false,
            }
        } else {
            match r {
                Event::ArticleExtractionFailed { article_id: id, error } => id@ == article_id
                    && error@ == "The full article did not contain readable content"@,
                _ => false,
            }
        },
        Err(reason) => match r {
            Event::ArticleExtractionFailed { article_id: id, error } => id@ == article_id
                && error@ == "Could not extract full article: "@ + reason.text(),
            _ => false,
        },
    }
}

/// What is told of the article `article_id`, where `fetched` is what came of
/// asking for its page.
pub fn extracted_event(article_id: String, fetched: Result<FetchResponse, NetworkError>) -> (r:
    Event)
    ensures
        match fetched {
            Ok(response) => read_page_event(
                r,
                article_id@,
                read_html(response.body@, Some(response.final_url@)),
            ),
            Err(reason) => match r {
                Event::ArticleExtractionFailed { article_id: id, error } => id@ == article_id@
                    && error@ == "Could not load full article: "@ + reason@.message(),
                _ => false,
            },
        },
{
    match fetched {
        Ok(response) => match parse_feed_html(
            response.body.as_str(),
            Some(response.final_url.as_str()),
        ) {
            Ok(document) => {
                assert(block_views(document.blocks@).len() == document.blocks@.len());
                if document.blocks.len() > 0 {
                    Event::ArticleExtracted { article_id, document }
                } else {
                    Event::ArticleExtractionFailed {
                        article_id,
                        error: "The full article did not contain readable content".to_owned(),
                    }
                }
            },
            Err(reason) => {
                let mut error = "Could not extract full article: ".to_owned();
                let text = reason.message();
                error.append(text.as_str());
                Event::ArticleExtractionFailed { article_id, error }
            },
        },
        Err(reason) => {
            let mut error = "Could not load full article: ".to_owned();
            let text = reason.message();
            error.append(text.as_str());
            Event::ArticleExtractionFailed { article_id, error }
        },
    }
}

/// Finding pictures and icons changes neither which feeds and articles there
/// are nor what was read or starred.
pub proof fn law_found_pictures_keep_reading_state(
    library: LibraryView,
    found: Seq<(Seq<char>, Seq<char>)>,
)
    ensures
        all_pictured(library, found).feeds == library.feeds,
        all_pictured(library, found).folders == library.folders,
        all_pictured(library, found).articles.len() == library.articles.len(),
        forall|i: int|
            0 <= i < library.articles.len() ==> {
                let row = #[trigger] all_pictured(library, found).articles[i];
                row.stable_id == library.articles[i].stable_id && row.is_read
                    == library.articles[i].is_read && row.is_starred
                    == library.articles[i].is_starred && row.title == library.articles[i].title
            },
    decreases found.len(),
{
    if found.len() > 0 {
        law_found_pictures_keep_reading_state(library, found.drop_last());
        let before = all_pictured(library, found.drop_last());
        crate::library::lemma_article_at(before.articles, found.last().0, 0);
        let after = all_pictured(library, found);
        assert forall|i: int| 0 <= i < library.articles.len() implies ({
            let row = #[trigger] after.articles[i];
            row.stable_id == library.articles[i].stable_id && row.is_read
                == library.articles[i].is_read && row.is_starred == library.articles[i].is_starred
                && row.title == library.articles[i].title
        }) by {
            assert(before.articles[i].stable_id == library.articles[i].stable_id);
        }
    }
}

/// The feeds, with their pages, for which an icon is looked for of those that
/// are wished for: the first hundred.
pub fn icon_candidates(candidates: Vec<(String, String)>) -> (r: Vec<(String, String)>)
    ensures
        r@ == if candidates@.len() > MAX_ICON_CANDIDATES {
            candidates@.take(MAX_ICON_CANDIDATES as int)
        } else {
            candidates@
        },
{
    let mut few = candidates;
    if few.len() > MAX_ICON_CANDIDATES {
        few.truncate(MAX_ICON_CANDIDATES);
        assert(few@ == candidates@.take(MAX_ICON_CANDIDATES as int));
    }
    few
}

} // verus!
