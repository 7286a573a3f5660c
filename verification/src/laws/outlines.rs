//! What is read from the outlines of a subscription list.

use crate::identity::normal_url;
use crate::laws::places::are_the_places;
use crate::opml::{
    called, feed_address, imported_rows, inner_folders, is_feed_kind, row_address, row_feed,
    row_kind, row_title, with_outline, with_outlines, OpmlFeedView, OpmlLibraryView,
};
use crate::parser::FeedFormat;
use crate::text::{lower, trim};
use crate::web::{host_name, marked, parsed_url};
use crate::xml::{attribute_from, RowView};
use vstd::prelude::*;

verus! {

/// The elements of a document in order: one is at most one step deeper than the
/// one before it.
pub open spec fn is_row_tree(rows: Seq<RowView>) -> bool {
    forall|i: int| 0 < i < rows.len() ==> (#[trigger] rows[i]).depth <= rows[i - 1].depth + 1
}

/// The element `q` lies inside the element `a`.
pub open spec fn is_within(rows: Seq<RowView>, a: int, q: int) -> bool {
    &&& 0 <= a < q < rows.len()
    &&& forall|k: int| a < k <= q ==> (#[trigger] rows[k]).depth > rows[a].depth
}

/// The text of the first attribute with this name, but for the case of ASCII
/// letters.
pub open spec fn attribute_in(row: RowView, key: Seq<char>) -> Option<Seq<char>> {
    attribute_from(row.attributes, 0, key)
}

/// The title of an outline: its title, else its text, without the white space
/// round it.
pub open spec fn title_in(row: RowView) -> Seq<char> {
    if attribute_in(row, "title"@) is Some {
        trim(attribute_in(row, "title"@)->0)
    } else if attribute_in(row, "text"@) is Some {
        trim(attribute_in(row, "text"@)->0)
    } else {
        trim(""@)
    }
}

/// An outline names an address, however it is written.
pub open spec fn names_address(row: RowView) -> bool {
    attribute_in(row, "xmlurl"@) is Some && trim(attribute_in(row, "xmlurl"@)->0).len() > 0
}

/// An outline says that it is a feed, by its type in whatever case.
pub open spec fn claims_feed(row: RowView) -> bool {
    attribute_in(row, "type"@) is Some && {
        let kind = lower(attribute_in(row, "type"@)->0);
        kind == "rss"@ || kind == "atom"@ || kind == "feed"@ || kind == "xml"@ || kind == "json"@
    }
}

/// An outline is a folder round others: it names no address and does not say
/// that it is a feed.
pub open spec fn is_folder(row: RowView) -> bool {
    lower(row.name) == lower("outline"@) && !names_address(row) && !claims_feed(row)
}

/// An outline of the list: one whose surroundings, up to the body, are folders.
pub open spec fn is_outline(rows: Seq<RowView>, body: int, q: int) -> bool {
    &&& is_within(rows, body, q)
    &&& lower(rows[q].name) == lower("outline"@)
    &&& forall|a: int|
        body < a && #[trigger] is_within(rows, a, q) ==> is_folder(rows[a])
}

/// The address of an outline can be subscribed to: HTTP or HTTPS.
pub open spec fn has_web_address(row: RowView) -> bool {
    &&& names_address(row)
    &&& parsed_url(trim(attribute_in(row, "xmlurl"@)->0)) is Some
    &&& parsed_url(trim(attribute_in(row, "xmlurl"@)->0))->0.scheme == "http"@ || parsed_url(
        trim(attribute_in(row, "xmlurl"@)->0),
    )->0.scheme == "https"@
}

/// An outline gives a subscription.
pub open spec fn gives_feed(rows: Seq<RowView>, body: int) -> spec_fn(int) -> bool {
    |q: int| is_outline(rows, body, q) && has_web_address(rows[q])
}

/// An outline is to be told as a failure: its address cannot be subscribed to,
/// or it says that it is a feed and names none.
pub open spec fn gives_failure(rows: Seq<RowView>, body: int) -> spec_fn(int) -> bool {
    |q: int|
        is_outline(rows, body, q) && !has_web_address(rows[q]) && (names_address(rows[q])
            || claims_feed(rows[q]))
}

/// A folder with a title round an outline.
pub open spec fn is_titled_round(rows: Seq<RowView>, body: int, q: int) -> spec_fn(int) -> bool {
    |a: int| body < a && is_within(rows, a, q) && title_in(rows[a]).len() > 0
}

/// The titles of the folders round an outline, from the top down; those without
/// a title do not count.
pub open spec fn are_folders_of(
    rows: Seq<RowView>,
    body: int,
    q: int,
    folders: Seq<Seq<char>>,
) -> bool {
    exists|at: Seq<int>|
        #[trigger] are_the_places(at, q, is_titled_round(rows, body, q)) && folders
            == at.map_values(|a: int| title_in(rows[a]))
}

/// A subscription is what its outline says: its title, else the host of its
/// address; its address without a fragment; its format by its type; and the name
/// that the reader gave it.
pub open spec fn is_feed_of(row: RowView, feed: OpmlFeedView) -> bool {
    let address = parsed_url(trim(attribute_in(row, "xmlurl"@)->0))->0;
    let kind = if attribute_in(row, "type"@) is Some {
        lower(attribute_in(row, "type"@)->0)
    } else {
        lower(""@)
    };
    &&& feed.feed_url == address.head + address.path + marked('?', address.query)
    &&& title_in(row).len() > 0 ==> feed.title == title_in(row)
    &&& title_in(row).len() == 0 && host_name(feed.feed_url) is Some ==> feed.title == host_name(
        feed.feed_url,
    )->0
    &&& title_in(row).len() == 0 && host_name(feed.feed_url) is None ==> feed.title
        == feed.feed_url
    &&& feed.custom_title == attribute_in(row, "customtitle"@)
    &&& attribute_in(row, "htmlurl"@) is None ==> feed.site_url is None
    &&& attribute_in(row, "htmlurl"@) is Some ==> {
        let site = parsed_url(trim(attribute_in(row, "htmlurl"@)->0));
        let web = site is Some && (site->0.scheme == "http"@ || site->0.scheme == "https"@);
        &&& web ==> feed.site_url == Some(normal_url(site->0.href))
        &&& !web ==> feed.site_url is None
    }
    &&& feed.format == FeedFormat::Atom <==> kind == "atom"@
    &&& feed.format == FeedFormat::Json <==> (kind == "json"@ || kind == "jsonfeed"@) && kind
        != "atom"@
}

proof fn lemma_trim_twice(text: Seq<char>)
    ensures
        trim(trim(text)) == trim(text),
{
    crate::laws::texts::law_bare_text_stays(text);
}

proof fn lemma_row(row: RowView, folders: Seq<Seq<char>>)
    ensures
        row_title(row) == title_in(row),
        row_address(row) is Some <==> names_address(row),
        is_feed_kind(row_kind(row)) <==> claims_feed(row),
        called(row, "outline"@) <==> lower(row.name) == lower("outline"@),
        row_address(row) is Some ==> (feed_address(row_address(row)->0) is Some
            <==> has_web_address(row)),
        has_web_address(row) ==> is_feed_of(
            row,
            row_feed(row, feed_address(row_address(row)->0)->0, folders),
        ) && row_feed(row, feed_address(row_address(row)->0)->0, folders).folders == folders,
{
    if attribute_in(row, "xmlurl"@) is Some {
        lemma_trim_twice(attribute_in(row, "xmlurl"@)->0);
    }
    reveal_strlit("");
    reveal_strlit("rss");
    reveal_strlit("atom");
    reveal_strlit("feed");
    reveal_strlit("xml");
    reveal_strlit("json");
    reveal_strlit("jsonfeed");
    assert(lower(""@).len() == 0);
    assert("atom"@[0] == 'a' && "json"@[0] == 'j' && "jsonfeed"@.len() == 8);
}

spec fn end_of(rows: Seq<RowView>, d: int, i: int) -> int
    decreases rows.len() - i,
{
    if i >= rows.len() || rows[i].depth <= d {
        i
    } else {
        end_of(rows, d, i + 1)
    }
}

proof fn lemma_end(rows: Seq<RowView>, d: int, i: int)
    requires
        0 <= i <= rows.len(),
    ensures
        i <= end_of(rows, d, i) <= rows.len(),
        forall|k: int| i <= k < end_of(rows, d, i) ==> (#[trigger] rows[k]).depth > d,
        end_of(rows, d, i) < rows.len() ==> rows[end_of(rows, d, i)].depth <= d,
    decreases rows.len() - i,
{
    if i < rows.len() && rows[i].depth > d {
        lemma_end(rows, d, i + 1);
    }
}

/// The places from `lo` on and below `hi` that are wanted.
spec fn wanted_in(wanted: spec_fn(int) -> bool, lo: int, hi: int) -> Seq<int>
    decreases hi - lo,
{
    if lo >= hi {
        Seq::empty()
    } else if wanted(lo) {
        seq![lo] + wanted_in(wanted, lo + 1, hi)
    } else {
        wanted_in(wanted, lo + 1, hi)
    }
}

proof fn lemma_wanted_join(wanted: spec_fn(int) -> bool, lo: int, mid: int, hi: int)
    requires
        lo <= mid <= hi,
    ensures
        wanted_in(wanted, lo, hi) == wanted_in(wanted, lo, mid) + wanted_in(wanted, mid, hi),
    decreases mid - lo,
{
    if lo < mid {
        lemma_wanted_join(wanted, lo + 1, mid, hi);
        assert(seq![lo] + (wanted_in(wanted, lo + 1, mid) + wanted_in(wanted, mid, hi)) =~= (
        seq![lo] + wanted_in(wanted, lo + 1, mid)) + wanted_in(wanted, mid, hi));
    } else {
        assert(wanted_in(wanted, lo, mid) + wanted_in(wanted, mid, hi) =~= wanted_in(
            wanted,
            mid,
            hi,
        ));
    }
}

proof fn lemma_none_wanted(wanted: spec_fn(int) -> bool, lo: int, hi: int)
    requires
        forall|q: int| lo <= q < hi ==> !#[trigger] wanted(q),
    ensures
        wanted_in(wanted, lo, hi) == Seq::<int>::empty(),
    decreases hi - lo,
{
    if lo < hi {
        lemma_none_wanted(wanted, lo + 1, hi);
    }
}

proof fn lemma_wanted_places(wanted: spec_fn(int) -> bool, lo: int, hi: int)
    requires
        0 <= lo <= hi,
    ensures
        ({
            let at = wanted_in(wanted, lo, hi);
            &&& forall|k: int|
                0 <= k < at.len() ==> lo <= #[trigger] at[k] < hi && wanted(at[k])
            &&& forall|k: int, m: int|
                0 <= k < m < at.len() ==> #[trigger] at[k] < #[trigger] at[m]
            &&& forall|q: int| lo <= q < hi && #[trigger] wanted(q) ==> at.contains(q)
        }),
    decreases hi - lo,
{
    if lo < hi {
        lemma_wanted_places(wanted, lo + 1, hi);
        let at = wanted_in(wanted, lo, hi);
        let rest = wanted_in(wanted, lo + 1, hi);
        if wanted(lo) {
            assert(at == seq![lo] + rest);
            assert forall|k: int| 0 <= k < at.len() implies lo <= #[trigger] at[k] < hi && wanted(
                at[k],
            ) by {
                if k > 0 {
                    assert(at[k] == rest[k - 1]);
                }
            }
            assert forall|k: int, m: int| 0 <= k < m < at.len() implies #[trigger] at[k]
                < #[trigger] at[m] by {
                assert(at[m] == rest[m - 1]);
                if k > 0 {
                    assert(at[k] == rest[k - 1]);
                }
            }
            assert forall|q: int| lo <= q < hi && #[trigger] wanted(q) implies at.contains(q) by {
                if q == lo {
                    assert(at[0] == q);
                } else {
                    let k = choose|k: int| 0 <= k < rest.len() && rest[k] == q;
                    assert(at[k + 1] == q);
                }
            }
        }
    }
}

/// What a subscription list holds after outlines were read.
spec fn are_added(
    rows: Seq<RowView>,
    body: int,
    lo: int,
    hi: int,
    before: OpmlLibraryView,
    after: OpmlLibraryView,
) -> bool {
    let feeds = wanted_in(gives_feed(rows, body), lo, hi);
    let failures = wanted_in(gives_failure(rows, body), lo, hi);
    &&& after.feeds.len() == before.feeds.len() + feeds.len()
    &&& after.feeds.take(before.feeds.len() as int) == before.feeds
    &&& forall|k: int|
        0 <= k < feeds.len() ==> {
            let feed = after.feeds[before.feeds.len() + k];
            is_feed_of(rows[#[trigger] feeds[k]], feed) && are_folders_of(
                rows,
                body,
                feeds[k],
                feed.folders,
            )
        }
    &&& after.failures.len() == before.failures.len() + failures.len()
}

proof fn lemma_added_join(
    rows: Seq<RowView>,
    body: int,
    lo: int,
    mid: int,
    hi: int,
    a: OpmlLibraryView,
    b: OpmlLibraryView,
    c: OpmlLibraryView,
)
    requires
        lo <= mid <= hi,
        are_added(rows, body, lo, mid, a, b),
        are_added(rows, body, mid, hi, b, c),
    ensures
        are_added(rows, body, lo, hi, a, c),
{
    let wanted = gives_feed(rows, body);
    lemma_wanted_join(wanted, lo, mid, hi);
    lemma_wanted_join(gives_failure(rows, body), lo, mid, hi);
    let x = wanted_in(wanted, lo, mid);
    let y = wanted_in(wanted, mid, hi);
    let all = wanted_in(wanted, lo, hi);
    assert(c.feeds.take(b.feeds.len() as int).take(a.feeds.len() as int) =~= c.feeds.take(
        a.feeds.len() as int,
    ));
    assert forall|k: int| 0 <= k < all.len() implies ({
        let feed = c.feeds[a.feeds.len() + k];
        is_feed_of(rows[#[trigger] all[k]], feed) && are_folders_of(
            rows,
            body,
            all[k],
            feed.folders,
        )
    }) by {
        if k < x.len() {
            assert(all[k] == x[k]);
            assert(c.feeds.take(b.feeds.len() as int)[a.feeds.len() + k] == c.feeds[a.feeds.len()
                + k]);
        } else {
            assert(all[k] == y[k - x.len()]);
            assert(a.feeds.len() + k == b.feeds.len() + (k - x.len()));
        }
    }
}

proof fn lemma_inner(
    rows: Seq<RowView>,
    body: int,
    p: int,
    i: int,
    folders: Seq<Seq<char>>,
)
    requires
        0 <= body <= p < i < rows.len(),
        is_within(rows, p, i),
        rows[i].depth == rows[p].depth + 1,
        p == body ==> folders.len() == 0,
        p > body ==> is_outline(rows, body, p) && is_folder(rows[p]) && are_folders_of(
            rows,
            body,
            p,
            folders,
        ),
    ensures
        lower(rows[i].name) == lower("outline"@) ==> is_outline(rows, body, i),
        are_folders_of(
            rows,
            body,
            i,
            if p == body {
                folders
            } else {
                inner_folders(rows[p], folders)
            },
        ),
{
    let wanted = is_titled_round(rows, body, i);
    assert forall|a: int| body < a && #[trigger] is_within(rows, a, i) implies a == p || (a < p
        && is_within(rows, a, p)) by {
        if a > p {
            assert(rows[a].depth > rows[p].depth);
            assert(rows[i].depth > rows[a].depth);
        } else if a < p {
            assert forall|k: int| a < k <= p implies (#[trigger] rows[k]).depth > rows[a].depth by {}
        }
    }
    assert(is_within(rows, body, i)) by {
        if p > body {
            assert forall|k: int| body < k <= i implies (#[trigger] rows[k]).depth
                > rows[body].depth by {
                if k > p {
                    assert(rows[k].depth > rows[p].depth);
                    assert(rows[p].depth > rows[body].depth);
                }
            }
        }
    }
    if p == body {
        assert forall|a: int| !#[trigger] wanted(a) by {}
        let at = Seq::<int>::empty();
        assert(are_the_places(at, i, wanted));
        assert(folders =~= at.map_values(|a: int| title_in(rows[a])));
    } else {
        let old_wanted = is_titled_round(rows, body, p);
        let at = choose|at: Seq<int>|
            #[trigger] are_the_places(at, p, old_wanted) && folders == at.map_values(
                |a: int| title_in(rows[a]),
            );
        assert forall|a: int| 0 <= a < p implies #[trigger] wanted(a) == old_wanted(a) by {
            if old_wanted(a) {
                assert(is_within(rows, a, i)) by {
                    assert forall|k: int| a < k <= i implies (#[trigger] rows[k]).depth
                        > rows[a].depth by {
                        if k > p {
                            assert(rows[k].depth > rows[p].depth);
                            assert(rows[p].depth > rows[a].depth);
                        }
                    }
                }
            }
            if wanted(a) {
                assert(is_within(rows, a, i));
            }
        }
        lemma_row(rows[p], folders);
        let titled = title_in(rows[p]).len() > 0;
        assert(wanted(p) == titled);
        let more = if titled {
            at.push(p)
        } else {
            at
        };
        assert(are_the_places(more, i, wanted)) by {
            assert forall|k: int| 0 <= k < more.len() implies 0 <= #[trigger] more[k] < i
                && wanted(more[k]) by {
                if k < at.len() {
                    assert(more[k] == at[k]);
                    assert(old_wanted(at[k]));
                }
            }
            assert forall|k: int, m: int| 0 <= k < m < more.len() implies #[trigger] more[k]
                < #[trigger] more[m] by {
                assert(more[k] == at[k]);
            }
            assert forall|a: int| 0 <= a < i && #[trigger] wanted(a) implies more.contains(a) by {
                assert(is_within(rows, a, i));
                if a < p {
                    assert(old_wanted(a));
                    let k = choose|k: int| 0 <= k < at.len() && at[k] == a;
                    assert(more[k] == a);
                } else {
                    assert(a == p);
                    assert(more[at.len() as int] == a);
                }
            }
        }
        assert(inner_folders(rows[p], folders) =~= more.map_values(|a: int| title_in(rows[a])));
    }
}

proof fn lemma_outline(
    rows: Seq<RowView>,
    body: int,
    p: int,
    folders: Seq<Seq<char>>,
    library: OpmlLibraryView,
)
    requires
        is_row_tree(rows),
        0 <= body < p < rows.len(),
        is_outline(rows, body, p),
        are_folders_of(rows, body, p, folders),
    ensures
        match with_outline(rows, p, folders, library) {
            Ok(next) => are_added(
                rows,
                body,
                p,
                end_of(rows, rows[p].depth as int, p + 1),
                library,
                next,
            ),
            Err(_) => true,
        },
    decreases rows.len() - p, 0int,
{
    let d = rows[p].depth as int;
    let end = end_of(rows, d, p + 1);
    lemma_end(rows, d, p + 1);
    lemma_row(rows[p], folders);
    let feeds = gives_feed(rows, body);
    let failures = gives_failure(rows, body);
    if with_outline(rows, p, folders, library) is Ok {
        let next = with_outline(rows, p, folders, library)->Ok_0;
        if is_folder(rows[p]) {
            lemma_outlines(rows, body, p, p + 1, folders, library);
            assert(end_of(rows, d + 1, p + 1) == p + 1) by {
                if p + 1 < rows.len() {
                    assert(rows[p + 1].depth <= rows[p + 1 - 1].depth + 1);
                }
            }
            assert(!feeds(p) && !failures(p));
            assert(wanted_in(feeds, p, end) == wanted_in(feeds, p + 1, end));
            assert(wanted_in(failures, p, end) == wanted_in(failures, p + 1, end));
            assert(are_added(rows, body, p, end, library, next));
        } else {
            assert forall|q: int| p + 1 <= q < end implies !#[trigger] feeds(q) by {
                assert(is_within(rows, p, q));
            }
            assert forall|q: int| p + 1 <= q < end implies !#[trigger] failures(q) by {
                assert(is_within(rows, p, q));
            }
            lemma_none_wanted(feeds, p + 1, end);
            lemma_none_wanted(failures, p + 1, end);
            assert(seq![p] + Seq::<int>::empty() =~= seq![p]);
            assert(wanted_in(feeds, p, end) == if feeds(p) {
                seq![p]
            } else {
                Seq::empty()
            });
            assert(wanted_in(failures, p, end) == if failures(p) {
                seq![p]
            } else {
                Seq::empty()
            });
            assert(next.feeds.take(library.feeds.len() as int) =~= library.feeds);
        }
    }
}

proof fn lemma_outlines(
    rows: Seq<RowView>,
    body: int,
    p: int,
    i: int,
    folders: Seq<Seq<char>>,
    library: OpmlLibraryView,
)
    requires
        is_row_tree(rows),
        0 <= body <= p < i <= rows.len(),
        p == body ==> folders.len() == 0,
        p > body ==> is_outline(rows, body, p) && is_folder(rows[p]) && are_folders_of(
            rows,
            body,
            p,
            folders,
        ),
        forall|k: int| p < k < i ==> (#[trigger] rows[k]).depth > rows[p].depth,
    ensures
        match with_outlines(
            rows,
            p,
            i,
            if p == body {
                folders
            } else {
                inner_folders(rows[p], folders)
            },
            library,
        ) {
            Ok(next) => are_added(
                rows,
                body,
                end_of(rows, (rows[p].depth + 1) as int, i),
                end_of(rows, rows[p].depth as int, i),
                library,
                next,
            ),
            Err(_) => true,
        },
    decreases rows.len() - i, 1int,
{
    let d = rows[p].depth as int;
    let inner = if p == body {
        folders
    } else {
        inner_folders(rows[p], folders)
    };
    let end = end_of(rows, d, i);
    let feeds = gives_feed(rows, body);
    let failures = gives_failure(rows, body);
    lemma_end(rows, d, i);
    lemma_end(rows, d + 1, i);
    if i >= rows.len() || rows[i].depth <= d {
        assert(library.feeds.take(library.feeds.len() as int) =~= library.feeds);
    } else if with_outlines(rows, p, i, inner, library) is Ok {
        assert(end == end_of(rows, d, i + 1));
        if rows[i].depth == d + 1 {
            assert(is_within(rows, p, i));
            lemma_inner(rows, body, p, i, folders);
            let mid = end_of(rows, d + 1, i + 1);
            lemma_end(rows, d + 1, i + 1);
            lemma_end(rows, d, i + 1);
            assert(mid <= end) by {
                if mid > end {
                    assert(rows[end].depth > d + 1);
                }
            }
            assert(end_of(rows, d + 1, i) == i);
            if called(rows[i], "outline"@) {
                lemma_outline(rows, body, i, inner, library);
                let next = with_outline(rows, i, inner, library)->Ok_0;
                lemma_outlines(rows, body, p, i + 1, folders, next);
                lemma_added_join(
                    rows,
                    body,
                    i,
                    mid,
                    end,
                    library,
                    next,
                    with_outlines(rows, p, i, inner, library)->Ok_0,
                );
            } else {
                lemma_outlines(rows, body, p, i + 1, folders, library);
                assert forall|q: int| i <= q < mid implies !#[trigger] feeds(q) by {
                    if q > i {
                        assert(is_within(rows, i, q));
                    }
                }
                assert forall|q: int| i <= q < mid implies !#[trigger] failures(q) by {
                    if q > i {
                        assert(is_within(rows, i, q));
                    }
                }
                lemma_none_wanted(feeds, i, mid);
                lemma_none_wanted(failures, i, mid);
                assert(library.feeds.take(library.feeds.len() as int) =~= library.feeds);
                assert(are_added(rows, body, i, mid, library, library));
                lemma_added_join(
                    rows,
                    body,
                    i,
                    mid,
                    end,
                    library,
                    library,
                    with_outlines(rows, p, i, inner, library)->Ok_0,
                );
            }
        } else {
            lemma_outlines(rows, body, p, i + 1, folders, library);
        }
    }
}

/// The body of a list: the first element of that name.
pub open spec fn is_body(rows: Seq<RowView>, body: int) -> bool {
    &&& 0 <= body < rows.len()
    &&& lower(rows[body].name) == lower("body"@)
    &&& forall|k: int| 0 <= k < body ==> lower((#[trigger] rows[k]).name) != lower("body"@)
}

proof fn lemma_body(rows: Seq<RowView>, i: int, body: int)
    requires
        is_body(rows, body),
        0 <= i <= body,
    ensures
        crate::opml::first_called(rows, i, "body"@) == Some(body),
    decreases body - i,
{
    if i < body {
        assert(lower(rows[i].name) != lower("body"@));
        lemma_body(rows, i + 1, body);
    }
}

/// A list that is read holds a subscription for every outline of its body with
/// an HTTP or HTTPS address, at whatever depth, in the order of the document and
/// in the folders whose outlines stand round it. It holds no other, and as many
/// failures as there are outlines that cannot be subscribed to.
pub proof fn law_outlines_are_subscriptions(rows: Seq<RowView>, body: int)
    requires
        is_row_tree(rows),
        is_body(rows, body),
        imported_rows(rows) is Ok,
    ensures
        ({
            let list = imported_rows(rows)->Ok_0;
            &&& exists|at: Seq<int>|
                {
                    &&& #[trigger] are_the_places(at, rows.len() as int, gives_feed(rows, body))
                    &&& at.len() == list.feeds.len()
                    &&& forall|k: int|
                        0 <= k < at.len() ==> is_feed_of(rows[at[k]], #[trigger] list.feeds[k])
                            && are_folders_of(rows, body, at[k], list.feeds[k].folders)
                }
            &&& exists|at: Seq<int>|
                #[trigger] are_the_places(
                    at,
                    rows.len() as int,
                    gives_failure(rows, body),
                ) && at.len() == list.failures.len()
        }),
{
    let n = rows.len() as int;
    let d = rows[body].depth as int;
    lemma_body(rows, 0, body);
    let none = OpmlLibraryView::empty();
    let list = imported_rows(rows)->Ok_0;
    lemma_outlines(rows, body, body, body + 1, Seq::empty(), none);
    lemma_end(rows, d, body + 1);
    let end = end_of(rows, d, body + 1);
    let start = end_of(rows, d + 1, body + 1);
    if body + 1 < n {
        assert(rows[body + 1].depth <= rows[body + 1 - 1].depth + 1);
    }
    assert(start == body + 1);
    let feeds = gives_feed(rows, body);
    let failures = gives_failure(rows, body);
    lemma_wanted_places(feeds, body + 1, end);
    lemma_wanted_places(failures, body + 1, end);
    let at = wanted_in(feeds, body + 1, end);
    let bad = wanted_in(failures, body + 1, end);
    assert forall|q: int| #[trigger] is_outline(rows, body, q) implies body < q < end by {
        if q >= end {
            assert(rows[end].depth > d);
        }
    }
    assert(are_the_places(at, n, feeds)) by {
        assert forall|q: int| 0 <= q < n && #[trigger] feeds(q) implies at.contains(q) by {
            assert(is_outline(rows, body, q));
        }
    }
    assert(are_the_places(bad, n, failures)) by {
        assert forall|q: int| 0 <= q < n && #[trigger] failures(q) implies bad.contains(q) by {
            assert(is_outline(rows, body, q));
        }
    }
    assert(are_added(rows, body, body + 1, end, none, list));
    assert forall|k: int| 0 <= k < at.len() implies is_feed_of(rows[at[k]], #[trigger] list.feeds[k])
        && are_folders_of(rows, body, at[k], list.feeds[k].folders) by {
        assert(list.feeds[none.feeds.len() + k] == list.feeds[k]);
        assert(0 <= at[k]);
    }
}

proof fn lemma_outline_read(
    rows: Seq<RowView>,
    body: int,
    p: int,
    folders: Seq<Seq<char>>,
    library: OpmlLibraryView,
)
    requires
        is_row_tree(rows),
        rows.len() < 10_000,
        0 <= body < p < rows.len(),
        forall|k: int|
            0 <= k < rows.len() ==> (#[trigger] rows[k]).depth <= rows[body].depth + 32,
        folders.len() + 1 <= rows[p].depth - rows[body].depth,
        library.feeds.len() <= p,
    ensures
        with_outline(rows, p, folders, library) is Ok,
        with_outline(rows, p, folders, library)->Ok_0.feeds.len() <= end_of(
            rows,
            rows[p].depth as int,
            p + 1,
        ),
    decreases rows.len() - p, 0int,
{
    let d = rows[p].depth as int;
    lemma_end(rows, d, p + 1);
    assert(rows[p].depth <= rows[body].depth + 32);
    if row_address(rows[p]) is None && !is_feed_kind(row_kind(rows[p])) {
        lemma_end(rows, d + 1, p + 1);
        lemma_outlines_read(rows, body, p, p + 1, inner_folders(rows[p], folders), library);
    }
}

proof fn lemma_outlines_read(
    rows: Seq<RowView>,
    body: int,
    p: int,
    i: int,
    inner: Seq<Seq<char>>,
    library: OpmlLibraryView,
)
    requires
        is_row_tree(rows),
        rows.len() < 10_000,
        0 <= body <= p < i <= rows.len(),
        forall|k: int|
            0 <= k < rows.len() ==> (#[trigger] rows[k]).depth <= rows[body].depth + 32,
        inner.len() <= rows[p].depth - rows[body].depth,
        library.feeds.len() <= end_of(rows, (rows[p].depth + 1) as int, i),
        forall|k: int| p < k < i ==> (#[trigger] rows[k]).depth > rows[p].depth,
    ensures
        with_outlines(rows, p, i, inner, library) is Ok,
        with_outlines(rows, p, i, inner, library)->Ok_0.feeds.len() <= end_of(
            rows,
            rows[p].depth as int,
            i,
        ),
    decreases rows.len() - i, 1int,
{
    let d = rows[p].depth as int;
    lemma_end(rows, d, i);
    lemma_end(rows, d + 1, i);
    if i < rows.len() && rows[i].depth > d {
        if rows[i].depth == d + 1 {
            let mid = end_of(rows, d + 1, i + 1);
            lemma_end(rows, d + 1, i + 1);
            if called(rows[i], "outline"@) {
                lemma_outline_read(rows, body, i, inner, library);
                let next = with_outline(rows, i, inner, library)->Ok_0;
                lemma_outlines_read(rows, body, p, i + 1, inner, next);
            } else {
                lemma_outlines_read(rows, body, p, i + 1, inner, library);
            }
        } else {
            lemma_outlines_read(rows, body, p, i + 1, inner, library);
        }
    }
}

/// A list is read where its root is named OPML, it has a body with something to
/// subscribe to, or a failure to, and it is neither long nor deep: with fewer
/// than ten thousand elements, none more than thirty-two deeper than the body.
pub proof fn law_modest_lists_are_read(rows: Seq<RowView>, body: int, q: int)
    requires
        is_row_tree(rows),
        rows.len() < 10_000,
        is_body(rows, body),
        lower(rows[0].name) == lower("opml"@),
        forall|k: int|
            0 <= k < rows.len() ==> (#[trigger] rows[k]).depth <= rows[body].depth + 32,
        gives_feed(rows, body)(q) || gives_failure(rows, body)(q),
    ensures
        imported_rows(rows) is Ok,
{
    lemma_body(rows, 0, body);
    let none = OpmlLibraryView::empty();
    let d = rows[body].depth as int;
    lemma_end(rows, d + 1, body + 1);
    lemma_outlines_read(rows, body, body, body + 1, Seq::empty(), none);
    lemma_outlines(rows, body, body, body + 1, Seq::empty(), none);
    lemma_end(rows, d, body + 1);
    let end = end_of(rows, d, body + 1);
    if body + 1 < rows.len() {
        assert(rows[body + 1].depth <= rows[body + 1 - 1].depth + 1);
    }
    assert(end_of(rows, d + 1, body + 1) == body + 1);
    assert(is_outline(rows, body, q));
    if q >= end {
        assert(rows[end].depth > d);
    }
    lemma_wanted_places(gives_feed(rows, body), body + 1, end);
    lemma_wanted_places(gives_failure(rows, body), body + 1, end);
}

/// What is no list is refused: a document whose root has another name, and one
/// without a body.
pub proof fn law_other_documents_are_refused(rows: Seq<RowView>)
    ensures
        rows.len() == 0 || lower(rows[0].name) != lower("opml"@) ==> imported_rows(rows) is Err,
        (forall|k: int| 0 <= k < rows.len() ==> lower((#[trigger] rows[k]).name) != lower("body"@))
            ==> imported_rows(rows) is Err,
{
    lemma_no_body(rows, 0);
}

proof fn lemma_no_body(rows: Seq<RowView>, i: int)
    requires
        0 <= i <= rows.len(),
    ensures
        (forall|k: int| 0 <= k < rows.len() ==> lower((#[trigger] rows[k]).name) != lower("body"@))
            ==> crate::opml::first_called(rows, i, "body"@) is None,
    decreases rows.len() - i,
{
    if i < rows.len() {
        lemma_no_body(rows, i + 1);
    }
}

} // verus!
