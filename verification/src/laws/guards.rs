//! What the library refuses, and what is added to it later.

use crate::articles::known_items;
use crate::domain::outlived;
use crate::identity::normal_url;
use crate::intake::{titles_fit, with_parsed_feed};
use crate::ingestion::IngestView;
use crate::laws::places::{are_the_places, lemma_one_wanted};
use crate::library::{
    article_at, feed_at, feed_error, has_feed, has_folder, lemma_article_at, lemma_feed_at,
    LibraryView,
};
use crate::network_worker::all_pictured;
use crate::parser::FeedView;
use crate::records::{ArticleRowView, FeedRowView};
use crate::text::{byte_len, starts_with, trim};
use vstd::prelude::*;

verus! {

/// The texts of a feed have lengths that can be kept.
pub open spec fn has_fair_lengths(row: FeedRowView) -> bool {
    &&& 1 <= row.feed.normalized_url.len() <= 4096
    &&& 1 <= row.feed.fetch_url.len() <= 4096
    &&& 1 <= row.feed.display_name.len() <= 1000
    &&& 1 <= row.feed.publisher_name.len() <= 1000
}

/// Another feed of the library has an address.
pub open spec fn is_address_taken(library: LibraryView, url: Seq<char>, place: int) -> bool {
    exists|f: int|
        0 <= f < library.feeds.len() && f != place && (
        #[trigger] library.feeds[f]).feed.normalized_url == url
}

/// A feed is taken in if and only if its texts have fair lengths, no feed has its
/// address or its id, and its folder is there.
pub proof fn law_feeds_are_taken_in(library: LibraryView, row: FeedRowView)
    ensures
        feed_error(library, row) is None <==> has_fair_lengths(row) && !is_address_taken(
            library,
            row.feed.normalized_url,
            -1,
        ) && !has_feed(library.feeds, row.feed.stable_id) && (row.feed.folder_id is Some
            ==> has_folder(library.folders, row.feed.folder_id->0)),
{
    let url = row.feed.normalized_url;
    if crate::library::has_address(library.feeds, url) {
        let f = choose|f: int|
            0 <= f < library.feeds.len() && (#[trigger] library.feeds[f]).feed.normalized_url
                == url;
        assert(is_address_taken(library, url, -1));
    }
}

/// The title of a document can be the name of a feed, and its address is HTTP or
/// HTTPS in normal form.
pub open spec fn can_be_kept(source: Seq<char>, feed: FeedView) -> bool {
    let name = trim(feed.title);
    let url = normal_url(source);
    &&& name.len() > 0
    &&& byte_len(name) <= 1000
    &&& starts_with(url, "http://"@) || starts_with(url, "https://"@)
}

/// A document is refused where its feed cannot be kept. It is taken in where the
/// feed can be kept, the lengths of its name and addresses are fair, and no other
/// feed has its address.
pub proof fn law_documents_are_taken_in(
    library: LibraryView,
    id: Seq<char>,
    source: Seq<char>,
    feed: FeedView,
    now: i64,
    f: int,
)
    requires
        library.wf(),
    ensures
        ({
            let made = with_parsed_feed(library, id, source, feed, now);
            let fair = can_be_kept(source, feed) && normal_url(source).len() <= 4096 && 1
                <= source.len() <= 4096 && trim(feed.title).len() <= 1000;
            &&& !can_be_kept(source, feed) ==> made is Err
            &&& fair && !has_feed(library.feeds, id) && !is_address_taken(
                library,
                normal_url(source),
                -1,
            ) ==> made is Ok
            &&& fair && 0 <= f < library.feeds.len() && library.feeds[f].feed.stable_id == id
                && (library.feeds[f].feed.custom_name is Some ==> 1
                <= library.feeds[f].feed.custom_name->0.len() <= 1000) && !is_address_taken(library, normal_url(source), f) ==> made is Ok
            &&& !has_feed(library.feeds, id) && is_address_taken(
                library,
                normal_url(source),
                -1,
            ) ==> made is Err
        }),
{
    lemma_feed_at(library.feeds, id, 0);
    let url = normal_url(source);
    reveal_strlit("http://");
    reveal_strlit("https://");
    if starts_with(url, "http://"@) || starts_with(url, "https://"@) {
        assert(url.len() >= 7);
    }
    if 0 <= f < library.feeds.len() && library.feeds[f].feed.stable_id == id {
        let k = feed_at(library.feeds, id, 0)->0;
        if k < f {
            assert(library.feeds[k].feed.stable_id != library.feeds[f].feed.stable_id);
        } else if f < k {
            assert(library.feeds[f].feed.stable_id != library.feeds[k].feed.stable_id);
        }
        let old_row = library.feeds[f];
        assert(crate::library::is_sound_feed(old_row));
        if crate::intake::address_elsewhere(library.feeds, f, url) {
            let g = choose|g: int|
                0 <= g < library.feeds.len() && g != f && (
                #[trigger] library.feeds[g]).feed.normalized_url == url;
            assert(is_address_taken(library, url, f));
        }
    }
    if crate::library::has_address(library.feeds, url) {
        let g = choose|g: int|
            0 <= g < library.feeds.len() && (#[trigger] library.feeds[g]).feed.normalized_url
                == url;
        assert(is_address_taken(library, url, -1));
    }
    if is_address_taken(library, url, -1) {
        let g = choose|g: int|
            0 <= g < library.feeds.len() && g != -1 && (
            #[trigger] library.feeds[g]).feed.normalized_url == url;
        assert(crate::library::has_address(library.feeds, url));
    }
}

/// The titles of a document fit where each has one character at least and four
/// thousand at most.
pub proof fn law_titles_have_fair_lengths(list: Seq<IngestView>)
    ensures
        titles_fit(list) <==> forall|i: int|
            0 <= i < list.len() ==> 1 <= (#[trigger] list[i]).article.title.len() <= 4000,
{
}

/// An article has outlived its time if it has no star and its date, else the
/// time when it came in, lies more than thirty days back.
pub proof fn law_articles_live_thirty_days(
    starred: bool,
    published: Option<i64>,
    inserted: i64,
    now: i64,
)
    requires
        now >= i64::MIN + 2_592_000,
    ensures
        starred ==> !outlived(starred, published, inserted, now),
        !starred && published is Some ==> (outlived(starred, published, inserted, now)
            <==> now - published->0 > 2_592_000),
        !starred && published is None ==> (outlived(starred, published, inserted, now)
            <==> now - inserted > 2_592_000),
{
}

/// A picture was found for an article.
pub open spec fn is_found_for(found: Seq<(Seq<char>, Seq<char>)>, k: int, id: Seq<char>) -> bool {
    0 <= k < found.len() && found[k].0 == id
}

/// An article without a picture gets the first that was found for it; one with a
/// picture keeps it, and nothing else of an article changes.
pub proof fn law_found_pictures_are_kept(
    library: LibraryView,
    found: Seq<(Seq<char>, Seq<char>)>,
    i: int,
    k: int,
)
    requires
        library.wf(),
        0 <= i < library.articles.len(),
    ensures
        ({
            let before = library.articles[i];
            let after = all_pictured(library, found).articles[i];
            let id = before.stable_id;
            let first = is_found_for(found, k, id) && forall|m: int|
                m < k ==> !#[trigger] is_found_for(found, m, id);
            &&& all_pictured(library, found).articles.len() == library.articles.len()
            &&& before.image_url is Some ==> after == before
            &&& (forall|m: int| !#[trigger] is_found_for(found, m, id)) ==> after == before
            &&& before.image_url is None && first ==> after == (ArticleRowView {
                image_url: Some(found[k].1),
                image_source: Some("open-graph"@),
                ..before
            })
        }),
    decreases found.len(),
{
    let before = library.articles[i];
    let id = before.stable_id;
    if found.len() > 0 {
        let shorter = found.drop_last();
        let n = found.len() - 1;
        law_found_pictures_are_kept(library, shorter, i, k);
        let middle = all_pictured(library, shorter);
        let after = all_pictured(library, found);
        crate::network_worker::law_found_pictures_keep_reading_state(library, shorter);
        let last_id = found[n].0;
        lemma_article_at(middle.articles, last_id, 0);
        assert forall|m: int| #[trigger] is_found_for(shorter, m, id) implies is_found_for(
            found,
            m,
            id,
        ) by {
            assert(shorter[m] == found[m]);
        }
        assert forall|m: int| m < n && #[trigger] is_found_for(found, m, id) implies is_found_for(
            shorter,
            m,
            id,
        ) by {
            assert(shorter[m] == found[m]);
        }
        let here = article_at(middle.articles, last_id, 0);
        if here is Some && here->0 != i {
            assert(middle.articles[here->0].stable_id == last_id);
            let other = library.articles[here->0];
            assert(other.stable_id == last_id);
            if here->0 < i {
                assert(library.articles[here->0].stable_id != library.articles[i].stable_id);
            } else {
                assert(library.articles[i].stable_id != library.articles[here->0].stable_id);
            }
            assert(last_id != id);
        }
        assert(middle.articles[i].stable_id == id);
        if last_id == id {
            assert(is_found_for(found, n, id));
            assert(here is Some);
        }
        if is_found_for(found, k, id) && forall|m: int| m < k ==> !#[trigger] is_found_for(found, m, id) {
            if k < n {
                assert(is_found_for(shorter, k, id));
                assert forall|m: int| m < k implies !#[trigger] is_found_for(shorter, m, id) by {
                    if is_found_for(shorter, m, id) {
                        assert(is_found_for(found, m, id));
                    }
                }
                assert(shorter[k] == found[k]);
            } else {
                assert(k == n);
                assert forall|m: int| !#[trigger] is_found_for(shorter, m, id) by {
                    if is_found_for(shorter, m, id) {
                        assert(is_found_for(found, m, id));
                    }
                }
            }
        }
        if forall|m: int| !#[trigger] is_found_for(found, m, id) {
            assert forall|m: int| !#[trigger] is_found_for(shorter, m, id) by {
                if is_found_for(shorter, m, id) {
                    assert(is_found_for(found, m, id));
                }
            }
            assert(!is_found_for(found, n, id));
        }
    }
}

/// A line in a list of known articles is asked for.
pub open spec fn is_known(library: LibraryView, ids: Seq<Seq<char>>) -> spec_fn(int) -> bool {
    |k: int|
        exists|i: int|
            0 <= i < library.articles.len() && (#[trigger] library.articles[i]).stable_id == ids[k]
}

/// A list of ids gives a line for each id that the library has, in the order of
/// the list; others are passed over.
pub proof fn law_known_articles_are_listed(library: LibraryView, ids: Seq<Seq<char>>)
    requires
        library.wf(),
    ensures
        exists|at: Seq<int>|
            {
                let list = known_items(library, ids);
                &&& #[trigger] are_the_places(at, ids.len() as int, is_known(library, ids))
                &&& list.len() == at.len()
                &&& forall|k: int|
                    0 <= k < at.len() ==> (#[trigger] list[k]).stable_id == ids[at[k]]
            },
{
    assert(ids.take(ids.len() as int) == ids);
    let at = lemma_known(library, ids, ids.len());
}

proof fn lemma_known(library: LibraryView, ids: Seq<Seq<char>>, n: nat) -> (at: Seq<int>)
    requires
        library.wf(),
        n <= ids.len(),
    ensures
        are_the_places(at, n as int, is_known(library, ids)),
        known_items(library, ids.take(n as int)).len() == at.len(),
        forall|k: int|
            0 <= k < at.len() ==> (#[trigger] known_items(library, ids.take(n as int))[k]).stable_id
                == ids[at[k]],
    decreases n,
{
    let wanted = is_known(library, ids);
    if n == 0 {
        Seq::empty()
    } else {
        let shorter = lemma_known(library, ids, (n - 1) as nat);
        lemma_one_wanted(shorter, n - 1, wanted);
        assert(ids.take(n as int).drop_last() == ids.take(n - 1));
        assert(ids.take(n as int).last() == ids[n - 1]);
        lemma_article_at(library.articles, ids[n - 1], 0);
        let before = known_items(library, ids.take(n - 1));
        let all = known_items(library, ids.take(n as int));
        match article_at(library.articles, ids[n - 1], 0) {
            Some(i) => {
                assert(library.articles[i].stable_id == ids[n - 1]);
                assert(wanted(n - 1));
                let at = shorter.push(n - 1);
                assert forall|k: int| 0 <= k < at.len() implies (#[trigger] all[k]).stable_id
                    == ids[at[k]] by {
                    if k < shorter.len() {
                        assert(all[k] == before[k]);
                    }
                }
                at
            },
            None => {
                assert(!wanted(n - 1));
                shorter
            },
        }
    }
}

} // verus!
