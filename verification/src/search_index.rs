//! The index of words that searches use: what it holds of each article, and
//! whether it fits the library.

use crate::articles::feed_name;
use crate::library::{feed_at, has_feed, lemma_feed_at, Library, LibraryView};
use crate::parser::copied;
use crate::records::{
    article_rows, storage_failure, ArticleRowView, StorageError, StorageErrorView,
};
use crate::text::{decimal_int, same, signed_text, view_of};
use vstd::prelude::*;

verus! {

/// The most articles that a search gives.
pub const MAX_FOUND: usize = 200;

/// What the index holds of an article.
#[derive(Debug, PartialEq, Eq)]
pub struct IndexRow {
    pub article_id: String,
    pub title: String,
    pub summary: Option<String>,
    pub content: Option<String>,
    pub feed_name: String,
}

/// What an [`IndexRow`] holds.
pub struct IndexView {
    pub article_id: Seq<char>,
    pub title: Seq<char>,
    pub summary: Option<Seq<char>>,
    pub content: Option<Seq<char>>,
    pub feed_name: Seq<char>,
}

impl View for IndexRow {
    type V = IndexView;

    open spec fn view(&self) -> IndexView {
        IndexView {
            article_id: self.article_id@,
            title: self.title@,
            summary: view_of(self.summary),
            content: view_of(self.content),
            feed_name: self.feed_name@,
        }
    }
}

/// What the rows of an index hold.
pub open spec fn index_views(list: Seq<IndexRow>) -> Seq<IndexView> {
    Seq::new(list.len(), |i: int| list[i]@)
}

/// What the index holds of an article of a library.
pub open spec fn indexed(library: LibraryView, row: ArticleRowView) -> IndexView {
    IndexView {
        article_id: row.stable_id,
        title: row.title,
        summary: row.summary,
        content: row.content,
        feed_name: feed_name(library, row.feed_stable_id),
    }
}

/// The index of a library.
pub open spec fn index_of(library: LibraryView) -> Seq<IndexView> {
    Seq::new(library.articles.len(), |i: int| indexed(library, library.articles[i]))
}

impl Library {
    /// The index of this library: one row to an article, under the name by which
    /// its feed is shown.
    pub fn index_rows(&self) -> (r: Vec<IndexRow>)
        ensures
            index_views(r@) == index_of(self@),
    {
        let mut out: Vec<IndexRow> = Vec::new();
        let mut i: usize = 0;
        while i < self.articles.len()
            invariant
                i <= self.articles@.len(),
                out@.len() == i,
                self@.articles == article_rows(self.articles@),
                forall|j: int| 0 <= j < i ==> #[trigger] out@[j]@ == index_of(self@)[j],
            decreases self.articles@.len() - i,
        {
            let row = &self.articles[i];
            assert(self@.articles[i as int] == row@);
            out.push(
                IndexRow {
                    article_id: row.stable_id.clone(),
                    title: row.title.clone(),
                    summary: copied(&row.summary),
                    content: copied(&row.content),
                    feed_name: self.name_of_feed(row.feed_stable_id.as_str()),
                },
            );
            i += 1;
        }
        assert(index_views(out@) == index_of(self@));
        out
    }
}

/// The index fits its library: each article has one row, under its own id and
/// the name by which its feed is shown.
pub proof fn law_index_fits_the_library(library: LibraryView)
    requires
        library.wf(),
    ensures
        index_of(library).len() == library.articles.len(),
        forall|i: int|
            0 <= i < library.articles.len() ==> (#[trigger] index_of(library)[i]).article_id
                == library.articles[i].stable_id && exists|k: int|
                0 <= k < library.feeds.len() && (#[trigger] library.feeds[k]).feed.stable_id
                    == library.articles[i].feed_stable_id && index_of(library)[i].feed_name
                    == library.feeds[k].feed.display_name,
        forall|i: int, j: int|
            0 <= i < j < library.articles.len() ==> (#[trigger] index_of(library)[i]).article_id
                != (#[trigger] index_of(library)[j]).article_id,
{
    assert forall|i: int| 0 <= i < library.articles.len() implies (
    #[trigger] index_of(library)[i]).article_id == library.articles[i].stable_id && exists|k: int|
        0 <= k < library.feeds.len() && (#[trigger] library.feeds[k]).feed.stable_id
            == library.articles[i].feed_stable_id && index_of(library)[i].feed_name
            == library.feeds[k].feed.display_name by {
        let feed = library.articles[i].feed_stable_id;
        assert(has_feed(library.feeds, feed));
        lemma_feed_at(library.feeds, feed, 0);
        let k = feed_at(library.feeds, feed, 0)->0;
        assert(library.feeds[k].feed.stable_id == feed);
    }
    assert forall|i: int, j: int| 0 <= i < j < library.articles.len() implies (
    #[trigger] index_of(library)[i]).article_id != (
    #[trigger] index_of(library)[j]).article_id by {
        assert(library.articles[i].stable_id != library.articles[j].stable_id);
    }
}

/// How many articles a search gives where `limit` are asked for.
pub fn search_limit(limit: usize) -> (r: usize)
    ensures
        r == if limit < 1 {
            1int
        } else if limit > MAX_FOUND {
            MAX_FOUND as int
        } else {
            limit as int
        },
{
    if limit < 1 {
        1
    } else if limit > MAX_FOUND {
        MAX_FOUND
    } else {
        limit
    }
}

/// What is wrong with a database, if anything: what it says of itself, or rows
/// that point nowhere, articles that the index lacks and rows of the index
/// without an article.
pub open spec fn fault_in(result: Seq<char>, foreign: int, missing: int, excess: int) -> Option<
    StorageErrorView,
> {
    if result != "ok"@ {
        Some(StorageErrorView::Corruption(result))
    } else if foreign + missing + excess != 0 {
        Some(
            StorageErrorView::Corruption(
                "foreign="@ + decimal_int(foreign) + " fts_missing="@ + decimal_int(missing)
                    + " fts_excess="@ + decimal_int(excess),
            ),
        )
    } else {
        None
    }
}

/// Whether a database is sound that says `result` of itself and has as many
/// rows at fault.
pub fn judge_integrity(result: &str, foreign: i64, missing: i64, excess: i64) -> (r: Result<
    (),
    StorageError,
>)
    ensures
        storage_failure(r) == fault_in(result@, foreign as int, missing as int, excess as int),
{
    if !same(result, "ok") {
        return Err(StorageError::Corruption(result.to_owned()));
    }
    let faults: i128 = foreign as i128 + missing as i128 + excess as i128;
    if faults != 0 {
        let mut out = "foreign=".to_owned();
        let number = signed_text(foreign);
        out.append(number.as_str());
        out.append(" fts_missing=");
        let number = signed_text(missing);
        out.append(number.as_str());
        out.append(" fts_excess=");
        let number = signed_text(excess);
        out.append(number.as_str());
        return Err(StorageError::Corruption(out));
    }
    Ok(())
}

} // verus!
