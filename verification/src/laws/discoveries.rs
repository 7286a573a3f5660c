//! Which feeds, pictures and icons a page announces.

use crate::discovery::{
    candidate_urls, linked_feed, linked_feeds, of_format, ranked, CandidateView, DiscoveryFormat,
    LinkView,
};
use crate::laws::documents::lemma_first_such;
use crate::laws::places::{are_the_places, comes_first, law_first_of_each_is_kept};
use crate::page_discovery::{
    announced, best_icon, element_links, hunt, icon_of, image_selectors, law_best_icon_is_best,
    names_icon, page_image, Hunt,
};
use crate::html::{picked, PickedView};
use crate::text::{before_char, lower, trim, words};
use crate::unique::firsts;
use crate::web::{joined_url, resolved};
use vstd::prelude::*;

verus! {

/// A link announces a feed of a format, by its type without its parameters.
pub open spec fn announces(link: LinkView, format: DiscoveryFormat) -> bool {
    let kind = lower(trim(before_char(link.mime_type, ';')));
    match format {
        DiscoveryFormat::Rss => kind == "application/rss+xml"@ || kind == "application/rdf+xml"@,
        DiscoveryFormat::Atom => kind == "application/atom+xml"@,
        DiscoveryFormat::Json => kind == "application/feed+json"@ || kind == "application/json"@,
    }
}

/// A candidate is what a link announces: a feed of its format at its address,
/// seen from the page, under its title.
pub open spec fn is_candidate_of(
    source: Seq<char>,
    link: LinkView,
    candidate: CandidateView,
) -> bool {
    &&& announces(link, candidate.format)
    &&& resolved(source, link.href) == Some(candidate.url)
    &&& candidate.title == link.title
}

proof fn lemma_announced(source: Seq<char>, link: LinkView)
    ensures
        linked_feed(source, link) is Some ==> is_candidate_of(
            source,
            link,
            linked_feed(source, link)->0,
        ),
        forall|format: DiscoveryFormat|
            #![trigger announces(link, format)]
            announces(link, format) && resolved(source, link.href) is Some ==> linked_feed(
                source,
                link,
            ) is Some && linked_feed(source, link)->0.url == resolved(source, link.href)->0,
{
    reveal_strlit("application/rss+xml");
    reveal_strlit("application/rdf+xml");
    reveal_strlit("application/atom+xml");
    reveal_strlit("application/feed+json");
    reveal_strlit("application/json");
    assert("application/rss+xml"@.len() == 19);
    assert("application/rdf+xml"@.len() == 19);
    assert("application/atom+xml"@.len() == 20);
    assert("application/feed+json"@.len() == 21);
    assert("application/json"@.len() == 16);
}

proof fn lemma_linked(source: Seq<char>, links: Seq<LinkView>)
    ensures
        forall|k: int|
            0 <= k < linked_feeds(source, links).len() ==> exists|i: int|
                0 <= i < links.len() && is_candidate_of(
                    source,
                    #[trigger] links[i],
                    #[trigger] linked_feeds(source, links)[k],
                ),
        forall|i: int|
            0 <= i < links.len() && linked_feed(source, #[trigger] links[i]) is Some
                ==> linked_feeds(source, links).contains(linked_feed(source, links[i])->0),
    decreases links.len(),
{
    if links.len() > 0 {
        let shorter = links.drop_last();
        let n = links.len() - 1;
        lemma_linked(source, shorter);
        lemma_announced(source, links[n]);
        let before = linked_feeds(source, shorter);
        let all = linked_feeds(source, links);
        assert forall|k: int| 0 <= k < all.len() implies exists|i: int|
            0 <= i < links.len() && is_candidate_of(
                source,
                #[trigger] links[i],
                #[trigger] all[k],
            ) by {
            if k < before.len() {
                assert(all[k] == before[k]);
                let i = choose|i: int|
                    0 <= i < shorter.len() && is_candidate_of(
                        source,
                        #[trigger] shorter[i],
                        before[k],
                    );
                assert(links[i] == shorter[i]);
            } else {
                assert(is_candidate_of(source, links[n], all[k]));
            }
        }
        assert forall|i: int|
            0 <= i < links.len() && linked_feed(source, #[trigger] links[i]) is Some implies
            all.contains(linked_feed(source, links[i])->0) by {
            let feed = linked_feed(source, links[i])->0;
            if i < n {
                assert(shorter[i] == links[i]);
                let k = choose|k: int| 0 <= k < before.len() && before[k] == feed;
                assert(all[k] == feed);
            } else {
                assert(all[before.len() as int] == feed);
            }
        }
    }
}

proof fn lemma_of_format(list: Seq<CandidateView>, format: DiscoveryFormat)
    ensures
        forall|k: int|
            0 <= k < of_format(list, format).len() ==> (#[trigger] of_format(
                list,
                format,
            )[k]).format == format && list.contains(of_format(list, format)[k]),
        forall|i: int|
            0 <= i < list.len() && (#[trigger] list[i]).format == format ==> of_format(
                list,
                format,
            ).contains(list[i]),
        (forall|i: int, j: int|
            0 <= i < j < list.len() ==> (#[trigger] list[i]).url != (#[trigger] list[j]).url)
            ==> forall|i: int, j: int|
            0 <= i < j < of_format(list, format).len() ==> (#[trigger] of_format(
                list,
                format,
            )[i]).url != (#[trigger] of_format(list, format)[j]).url,
    decreases list.len(),
{
    if list.len() > 0 {
        let shorter = list.drop_last();
        let n = list.len() - 1;
        lemma_of_format(shorter, format);
        let before = of_format(shorter, format);
        let all = of_format(list, format);
        assert forall|k: int| 0 <= k < all.len() implies (#[trigger] all[k]).format == format
            && list.contains(all[k]) by {
            if k < before.len() {
                assert(all[k] == before[k]);
                let i = choose|i: int| 0 <= i < shorter.len() && shorter[i] == before[k];
                assert(list[i] == before[k]);
            } else {
                assert(list[n] == all[k]);
            }
        }
        assert forall|i: int| 0 <= i < list.len() && (#[trigger] list[i]).format
            == format implies all.contains(list[i]) by {
            if i < n {
                assert(shorter[i] == list[i]);
                let k = choose|k: int| 0 <= k < before.len() && before[k] == list[i];
                assert(all[k] == list[i]);
            } else {
                assert(all[before.len() as int] == list[i]);
            }
        }
        if forall|i: int, j: int|
            0 <= i < j < list.len() ==> (#[trigger] list[i]).url != (#[trigger] list[j]).url {
            assert forall|i: int, j: int| 0 <= i < j < shorter.len() implies (
            #[trigger] shorter[i]).url != (#[trigger] shorter[j]).url by {
                assert(shorter[i] == list[i] && shorter[j] == list[j]);
            }
            assert forall|i: int, j: int| 0 <= i < j < all.len() implies (#[trigger] all[i]).url
                != (#[trigger] all[j]).url by {
                assert(all[i] == before[i]);
                if j < before.len() {
                    assert(all[j] == before[j]);
                } else {
                    let k = choose|k: int| 0 <= k < shorter.len() && shorter[k] == before[i];
                    assert(list[k] == before[i]);
                    assert(list[k].url != list[n].url);
                }
            }
        }
    }
}

/// The place of a format in the order in which feeds are offered.
pub open spec fn rank_of(format: DiscoveryFormat) -> int {
    match format {
        DiscoveryFormat::Rss => 0,
        DiscoveryFormat::Atom => 1,
        DiscoveryFormat::Json => 2,
    }
}

/// The feeds that the links of a page announce are offered, each address once
/// and nothing else: RSS above Atom, and Atom above JSON.
pub proof fn law_announced_feeds_are_offered(source: Seq<char>, links: Seq<LinkView>)
    ensures
        ({
            let list = ranked(source, links);
            &&& forall|k: int|
                0 <= k < list.len() ==> exists|i: int|
                    0 <= i < links.len() && is_candidate_of(
                        source,
                        #[trigger] links[i],
                        #[trigger] list[k],
                    )
            &&& forall|i: int, format: DiscoveryFormat|
                #![trigger announces(links[i], format)]
                0 <= i < links.len() && announces(links[i], format) && resolved(
                    source,
                    links[i].href,
                ) is Some ==> exists|k: int|
                    0 <= k < list.len() && (#[trigger] list[k]).url == resolved(
                        source,
                        links[i].href,
                    )->0
            &&& forall|i: int, j: int|
                0 <= i < j < list.len() ==> (#[trigger] list[i]).url != (#[trigger] list[j]).url
                    && rank_of(list[i].format) <= rank_of(list[j].format)
        }),
{
    let all = linked_feeds(source, links);
    let urls = candidate_urls(all);
    let distinct = firsts(all, urls);
    lemma_linked(source, links);
    law_first_of_each_is_kept(all, urls);
    let at = choose|at: Seq<int>|
        {
            &&& #[trigger] are_the_places(at, all.len() as int, comes_first(urls))
            &&& firsts(all, urls) == at.map_values(|i: int| all[i])
        };
    assert forall|i: int, j: int| 0 <= i < j < distinct.len() implies (#[trigger] distinct[i]).url
        != (#[trigger] distinct[j]).url by {
        assert(comes_first(urls)(at[j]));
        assert(at[i] < at[j]);
        assert(urls[at[i]] != urls[at[j]]);
    }
    lemma_of_format(distinct, DiscoveryFormat::Rss);
    lemma_of_format(distinct, DiscoveryFormat::Atom);
    lemma_of_format(distinct, DiscoveryFormat::Json);
    let a = of_format(distinct, DiscoveryFormat::Rss);
    let b = of_format(distinct, DiscoveryFormat::Atom);
    let c = of_format(distinct, DiscoveryFormat::Json);
    let list = ranked(source, links);
    assert(list == a + b + c);
    assert forall|k: int| 0 <= k < list.len() implies distinct.contains(#[trigger] list[k]) by {
        if k < a.len() {
            assert(list[k] == a[k]);
        } else if k < a.len() + b.len() {
            assert(list[k] == b[k - a.len()]);
        } else {
            assert(list[k] == c[k - a.len() - b.len()]);
        }
    }
    assert forall|k: int| 0 <= k < list.len() implies exists|i: int|
        0 <= i < links.len() && is_candidate_of(
            source,
            #[trigger] links[i],
            #[trigger] list[k],
        ) by {
        assert(distinct.contains(list[k]));
        let m = choose|m: int| 0 <= m < distinct.len() && distinct[m] == list[k];
        assert(distinct[m] == all[at[m]]);
        assert(0 <= at[m] < all.len());
    }
    assert forall|i: int, format: DiscoveryFormat|
        #![trigger announces(links[i], format)]
        0 <= i < links.len() && announces(links[i], format) && resolved(
            source,
            links[i].href,
        ) is Some implies exists|k: int|
        0 <= k < list.len() && (#[trigger] list[k]).url == resolved(source, links[i].href)->0 by {
        lemma_announced(source, links[i]);
        let feed = linked_feed(source, links[i])->0;
        let m = choose|m: int| 0 <= m < all.len() && all[m] == feed;
        let f = lemma_first_such(urls, m);
        assert(comes_first(urls)(f));
        let d = choose|d: int| 0 <= d < at.len() && at[d] == f;
        assert(distinct[d] == all[f]);
        assert(urls[f] == urls[m]);
        assert(distinct[d].url == feed.url);
        match distinct[d].format {
            DiscoveryFormat::Rss => {
                let k = choose|k: int| 0 <= k < a.len() && a[k] == distinct[d];
                assert(list[k] == a[k]);
            },
            DiscoveryFormat::Atom => {
                let k = choose|k: int| 0 <= k < b.len() && b[k] == distinct[d];
                assert(list[a.len() + k] == b[k]);
            },
            DiscoveryFormat::Json => {
                let k = choose|k: int| 0 <= k < c.len() && c[k] == distinct[d];
                assert(list[a.len() + b.len() + k] == c[k]);
            },
        }
    }
    assert forall|i: int, j: int| 0 <= i < j < list.len() implies (#[trigger] list[i]).url != (
    #[trigger] list[j]).url && rank_of(list[i].format) <= rank_of(list[j].format) by {
        lemma_ranked_pair(distinct, a, b, c, i, j);
    }
}

proof fn lemma_ranked_pair(
    distinct: Seq<CandidateView>,
    a: Seq<CandidateView>,
    b: Seq<CandidateView>,
    c: Seq<CandidateView>,
    i: int,
    j: int,
)
    requires
        a == of_format(distinct, DiscoveryFormat::Rss),
        b == of_format(distinct, DiscoveryFormat::Atom),
        c == of_format(distinct, DiscoveryFormat::Json),
        forall|i: int, j: int|
            0 <= i < j < distinct.len() ==> (#[trigger] distinct[i]).url != (
            #[trigger] distinct[j]).url,
        0 <= i < j < (a + b + c).len(),
    ensures
        (a + b + c)[i].url != (a + b + c)[j].url,
        rank_of((a + b + c)[i].format) <= rank_of((a + b + c)[j].format),
{
    lemma_of_format(distinct, DiscoveryFormat::Rss);
    lemma_of_format(distinct, DiscoveryFormat::Atom);
    lemma_of_format(distinct, DiscoveryFormat::Json);
    let list = a + b + c;
    let x = a.len() as int;
    let y = x + b.len();
    if j < x {
        assert(list[i] == a[i] && list[j] == a[j]);
    } else if j < y {
        assert(list[j] == b[j - x]);
        if i < x {
            assert(list[i] == a[i]);
            lemma_other_format(distinct, a[i], b[j - x]);
        } else {
            assert(list[i] == b[i - x]);
        }
    } else {
        assert(list[j] == c[j - y]);
        if i < x {
            assert(list[i] == a[i]);
            lemma_other_format(distinct, a[i], c[j - y]);
        } else if i < y {
            assert(list[i] == b[i - x]);
            lemma_other_format(distinct, b[i - x], c[j - y]);
        } else {
            assert(list[i] == c[i - y]);
        }
    }
}

proof fn lemma_other_format(
    distinct: Seq<CandidateView>,
    one: CandidateView,
    other: CandidateView,
)
    requires
        distinct.contains(one),
        distinct.contains(other),
        one.format != other.format,
        forall|i: int, j: int|
            0 <= i < j < distinct.len() ==> (#[trigger] distinct[i]).url != (
            #[trigger] distinct[j]).url,
    ensures
        one.url != other.url,
{
    let i = choose|i: int| 0 <= i < distinct.len() && distinct[i] == one;
    let j = choose|j: int| 0 <= j < distinct.len() && distinct[j] == other;
    if i < j {
        assert(distinct[i].url != distinct[j].url);
    } else {
        assert(distinct[j].url != distinct[i].url);
    }
}

/// What is offered to a reader is numbered from the top, tells the page that it
/// stands on, and names the format.
pub proof fn law_offers_are_numbered(source: Seq<char>, elements: Seq<PickedView>, k: int)
    requires
        0 <= k < announced(source, elements).candidates.len(),
    ensures
        ({
            let found = announced(source, elements);
            let offer = found.candidates[k];
            let candidate = ranked(source, element_links(elements))[k];
            &&& found.source_page == source
            &&& offer.source_page == source
            &&& offer.rank == k
            &&& offer.url == candidate.url
            &&& offer.title_hint == candidate.title
            &&& candidate.format == DiscoveryFormat::Rss ==> offer.format_hint == "rss"@
            &&& candidate.format == DiscoveryFormat::Atom ==> offer.format_hint == "atom"@
            &&& candidate.format == DiscoveryFormat::Json ==> offer.format_hint == "json"@
        }),
{
}

/// A link element says what its attributes say.
pub proof fn law_link_says_what_its_element_says(elements: Seq<PickedView>, i: int)
    requires
        0 <= i < elements.len(),
    ensures
        ({
            let link = element_links(elements)[i];
            &&& element_links(elements).len() == elements.len()
            &&& elements[i].href is Some ==> link.href == elements[i].href->0
            &&& elements[i].kind is Some ==> link.mime_type == elements[i].kind->0
            &&& link.title == elements[i].title
        }),
{
}

/// An element of a page names a picture that can be shown.
pub open spec fn names_web_picture(source: Seq<char>, element: PickedView, url: Seq<char>) -> bool {
    let reference = if element.content is Some {
        element.content
    } else {
        element.href
    };
    &&& reference is Some
    &&& joined_url(source, reference->0) is Some
    &&& joined_url(source, reference->0)->0.scheme == "http"@ || joined_url(
        source,
        reference->0,
    )->0.scheme == "https"@
    &&& joined_url(source, reference->0)->0.href == url
}

/// The picture of a page is one that an element of it names, at an HTTP or HTTPS
/// address; where the first element that is asked for names one, it is that.
pub proof fn law_page_picture_is_named(
    source: Seq<char>,
    html: Seq<char>,
    elements: Seq<PickedView>,
    url: Seq<char>,
)
    ensures
        page_image(source, html, image_selectors()) == Some(url) ==> exists|
            k: int,
            list: Seq<PickedView>,
            i: int,
        |
            0 <= k < 5 && #[trigger] picked(html, image_selectors()[k]) == Some(list) && 0 <= i
                < list.len() && names_web_picture(source, #[trigger] list[i], url),
        picked(html, "meta[property='og:image'][content]"@) == Some(elements) && elements.len()
            > 0 && names_web_picture(source, elements[0], url) ==> page_image(
            source,
            html,
            image_selectors(),
        ) == Some(url),
{
    let all = image_selectors();
    assert(all.skip(0) =~= all);
    lemma_page_image(source, html, 0, url);
    if picked(html, all[0]) == Some(elements) && elements.len() > 0 && names_web_picture(
        source,
        elements[0],
        url,
    ) {
        assert(hunt(source, elements, 0) == Hunt::Found(url));
    }
}

proof fn lemma_hunt(source: Seq<char>, elements: Seq<PickedView>, i: int, url: Seq<char>)
    requires
        0 <= i,
    ensures
        hunt(source, elements, i) == Hunt::Found(url) ==> exists|k: int|
            i <= k < elements.len() && names_web_picture(source, #[trigger] elements[k], url),
    decreases elements.len() - i,
{
    if i < elements.len() {
        lemma_hunt(source, elements, i + 1, url);
        if hunt(source, elements, i) == Hunt::Found(url) && hunt(source, elements, i + 1)
            != Hunt::Found(url) {
            assert(names_web_picture(source, elements[i], url));
        }
    }
}

proof fn lemma_page_image(source: Seq<char>, html: Seq<char>, n: int, url: Seq<char>)
    requires
        0 <= n <= 5,
    ensures
        page_image(source, html, image_selectors().skip(n)) == Some(url) ==> exists|
            k: int,
            list: Seq<PickedView>,
            i: int,
        |
            n <= k < 5 && #[trigger] picked(html, image_selectors()[k]) == Some(list) && 0 <= i
                < list.len() && names_web_picture(source, #[trigger] list[i], url),
    decreases 5 - n,
{
    let all = image_selectors();
    assert(all.len() == 5);
    if n < 5 {
        let rest = all.skip(n);
        assert(rest[0] == all[n]);
        assert(rest.skip(1) =~= all.skip(n + 1));
        lemma_page_image(source, html, n + 1, url);
        if page_image(source, html, rest) == Some(url) {
            let list = picked(html, all[n])->0;
            lemma_hunt(source, list, 0, url);
            if hunt(source, list, 0) == Hunt::Found(url) {
                let i = choose|i: int|
                    0 <= i < list.len() && names_web_picture(source, #[trigger] list[i], url);
                assert(picked(html, all[n]) == Some(list));
            }
        }
    }
}

/// An element of a page names an icon: by a relation among whose words, in
/// whatever case, is one for icons, and at an HTTP or HTTPS address.
pub open spec fn is_icon_element(source: Seq<char>, element: PickedView) -> bool {
    &&& element.rel is Some
    &&& element.href is Some
    &&& words(lower(element.rel->0)).contains("icon"@) || words(
        lower(element.rel->0),
    ).contains("shortcut"@) || words(lower(element.rel->0)).contains("apple-touch-icon"@)
        || words(lower(element.rel->0)).contains("mask-icon"@)
    &&& joined_url(source, element.href->0) is Some
    &&& joined_url(source, element.href->0)->0.scheme == "http"@ || joined_url(
        source,
        element.href->0,
    )->0.scheme == "https"@
}

proof fn lemma_icon(source: Seq<char>, element: PickedView)
    ensures
        icon_of(source, element) is Some <==> is_icon_element(source, element),
        icon_of(source, element) is Some ==> icon_of(source, element)->0.url == joined_url(
            source,
            element.href->0,
        )->0.href,
{
    if element.rel is Some {
        let list = words(lower(element.rel->0));
        if names_icon(lower(element.rel->0)) {
            let i = choose|i: int|
                0 <= i < list.len() && crate::page_discovery::is_icon_word(#[trigger] list[i]);
            assert(list.contains(list[i]));
        }
        if list.contains("icon"@) {
            let i = choose|i: int| 0 <= i < list.len() && list[i] == "icon"@;
            assert(crate::page_discovery::is_icon_word(list[i]));
        }
        if list.contains("shortcut"@) {
            let i = choose|i: int| 0 <= i < list.len() && list[i] == "shortcut"@;
            assert(crate::page_discovery::is_icon_word(list[i]));
        }
        if list.contains("apple-touch-icon"@) {
            let i = choose|i: int| 0 <= i < list.len() && list[i] == "apple-touch-icon"@;
            assert(crate::page_discovery::is_icon_word(list[i]));
        }
        if list.contains("mask-icon"@) {
            let i = choose|i: int| 0 <= i < list.len() && list[i] == "mask-icon"@;
            assert(crate::page_discovery::is_icon_word(list[i]));
        }
    }
}

/// A page that names icons has one: it is one of those that it names. A drawing
/// is taken only where all are drawings, and of those that are none the largest
/// by what they say.
pub proof fn law_best_icon_is_taken(source: Seq<char>, elements: Seq<PickedView>)
    ensures
        match best_icon(source, elements) {
            Some(best) => {
                &&& exists|i: int|
                    0 <= i < elements.len() && is_icon_element(source, #[trigger] elements[i])
                        && best.url == joined_url(source, elements[i].href->0)->0.href
                &&& forall|i: int|
                    0 <= i < elements.len() && is_icon_element(source, #[trigger] elements[i])
                        ==> {
                        let icon = icon_of(source, elements[i])->0;
                        &&& best.is_svg ==> icon.is_svg
                        &&& icon.is_svg == best.is_svg ==> icon.size <= best.size
                        &&& icon.is_svg == best.is_svg && icon.size == best.size && best.is_mask
                            ==> icon.is_mask
                    }
            },
            None => forall|i: int|
                0 <= i < elements.len() ==> !is_icon_element(source, #[trigger] elements[i]),
        },
{
    law_best_icon_is_best(source, elements);
    match best_icon(source, elements) {
        Some(best) => {
            let i = choose|i: int|
                0 <= i < elements.len() && icon_of(source, #[trigger] elements[i]) == Some(best);
            lemma_icon(source, elements[i]);
            assert forall|i: int|
                0 <= i < elements.len() && is_icon_element(source, #[trigger] elements[i]) implies ({
                let icon = icon_of(source, elements[i])->0;
                &&& best.is_svg ==> icon.is_svg
                &&& icon.is_svg == best.is_svg ==> icon.size <= best.size
                &&& icon.is_svg == best.is_svg && icon.size == best.size && best.is_mask
                    ==> icon.is_mask
            }) by {
                lemma_icon(source, elements[i]);
            }
        },
        None => {
            assert forall|i: int| 0 <= i < elements.len() implies !is_icon_element(
                source,
                #[trigger] elements[i],
            ) by {
                lemma_icon(source, elements[i]);
            }
        },
    }
}

} // verus!
