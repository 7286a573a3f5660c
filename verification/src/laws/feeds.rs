//! What the feeds read from XML documents hold, said of the elements of the
//! documents.

use crate::error::CoreErrorView;
use crate::laws::documents::{
    has_attribute, is_below, is_child, is_descendant, is_first_link, is_silent, lacks_attribute,
    lacks_link, leads_to, lemma_address, lemma_attribute, lemma_child_text, lemma_children,
    lemma_link, lemma_matching, says,
};
use crate::laws::places::{are_the_places, comes_first, law_first_of_each_is_kept};
use crate::markup::plain;
use crate::parser::{
    article_ids, atom_feed, atom_result, channel_of, distinct_articles, rss_feed, rss_items,
    rss_result, xml_article, xml_articles, xml_feed, FeedFormat, FeedView,
};
use crate::text::lower;
use crate::unique::firsts;
use crate::web::{host_name, resolved};
use crate::xml::{children, descendants, first_element, matching, XmlView};
use vstd::prelude::*;

verus! {

/// The root of a document: its first element.
pub open spec fn is_root(nodes: Seq<XmlView>, root: int) -> bool {
    &&& 0 <= root < nodes.len()
    &&& nodes[root].is_element
    &&& forall|k: int| 0 <= k < root ==> !(#[trigger] nodes[k]).is_element
}

/// The node `c` is an element named `key`, and it is `p` or lies inside it.
pub open spec fn is_at_or_below(nodes: Seq<XmlView>, p: int, key: Seq<char>) -> spec_fn(
    int,
) -> bool {
    |c: int|
        (c == p && 0 <= p < nodes.len() && nodes[p].is_element && nodes[p].name == key)
            || is_descendant(nodes, p, c, key)
}

/// The first element named `key` that is `p` or lies inside it.
pub open spec fn is_first_at(nodes: Seq<XmlView>, p: int, c: int, key: Seq<char>) -> bool {
    is_at_or_below(nodes, p, key)(c) && forall|d: int|
        d < c ==> !#[trigger] is_at_or_below(nodes, p, key)(d)
}

/// No element named `key` is `p` or lies inside it.
pub open spec fn has_none_at(nodes: Seq<XmlView>, p: int, key: Seq<char>) -> bool {
    forall|d: int| !#[trigger] is_at_or_below(nodes, p, key)(d)
}

/// The channel of an RSS document: the first element of that name, else the
/// root.
pub open spec fn is_channel(nodes: Seq<XmlView>, root: int, c: int) -> bool {
    is_first_at(nodes, root, c, "channel"@) || (has_none_at(nodes, root, "channel"@) && c == root)
}

proof fn lemma_descendants(nodes: Seq<XmlView>, p: int, key: Seq<char>)
    requires
        0 <= p < nodes.len(),
    ensures
        are_the_places(
            descendants(nodes, p, key),
            nodes.len() as int,
            is_at_or_below(nodes, p, key),
        ),
{
    lemma_matching(nodes, p, p + 1, key, false);
    let below = matching(nodes, p, p + 1, key, false);
    let list = descendants(nodes, p, key);
    let inner = is_below(nodes, p, key, false);
    let wanted = is_at_or_below(nodes, p, key);
    assert forall|c: int| #[trigger] wanted(c) && c != p implies inner(c) by {}
    if crate::xml::is_named(nodes[p], key) {
        assert(list == seq![p] + below);
        assert forall|k: int| 0 <= k < list.len() implies 0 <= #[trigger] list[k] < nodes.len()
            && wanted(list[k]) by {
            if k > 0 {
                assert(list[k] == below[k - 1]);
                assert(inner(below[k - 1]));
            }
        }
        assert forall|k: int, m: int| 0 <= k < m < list.len() implies #[trigger] list[k]
            < #[trigger] list[m] by {
            assert(list[m] == below[m - 1]);
            if k > 0 {
                assert(list[k] == below[k - 1]);
            }
        }
        assert forall|c: int| 0 <= c < nodes.len() && #[trigger] wanted(c) implies list.contains(
            c,
        ) by {
            if c == p {
                assert(list[0] == c);
            } else {
                assert(inner(c));
                let k = choose|k: int| 0 <= k < below.len() && below[k] == c;
                assert(list[k + 1] == c);
            }
        }
    } else {
        assert(list == below);
        assert forall|k: int| 0 <= k < list.len() implies 0 <= #[trigger] list[k] < nodes.len()
            && wanted(list[k]) by {
            assert(inner(below[k]));
        }
        assert forall|c: int| 0 <= c < nodes.len() && #[trigger] wanted(c) implies list.contains(
            c,
        ) by {
            assert(inner(c));
        }
    }
}

proof fn lemma_first_descendant(nodes: Seq<XmlView>, p: int, key: Seq<char>)
    requires
        0 <= p < nodes.len(),
    ensures
        ({
            let list = descendants(nodes, p, key);
            &&& list.len() > 0 ==> is_first_at(nodes, p, list[0], key) && 0 <= list[0]
                < nodes.len()
            &&& list.len() == 0 ==> has_none_at(nodes, p, key)
            &&& forall|c: int| #[trigger]
                is_first_at(nodes, p, c, key) ==> list.len() > 0 && list[0] == c
            &&& has_none_at(nodes, p, key) ==> list.len() == 0
        }),
{
    lemma_descendants(nodes, p, key);
    let list = descendants(nodes, p, key);
    let wanted = is_at_or_below(nodes, p, key);
    assert forall|d: int| #[trigger] wanted(d) implies list.contains(d) && list.len() > 0
        && list[0] <= d by {
        let k = choose|k: int| 0 <= k < list.len() && list[k] == d;
        assert(k > 0 ==> list[0] < list[k]);
    }
    if list.len() > 0 {
        assert(wanted(list[0]));
        assert forall|c: int| #[trigger] is_first_at(nodes, p, c, key) implies list[0] == c by {
            assert(wanted(c));
        }
    } else {
        assert forall|c: int| !#[trigger] is_first_at(nodes, p, c, key) by {
            if is_first_at(nodes, p, c, key) {
                assert(wanted(c));
            }
        }
    }
}

proof fn lemma_channel(nodes: Seq<XmlView>, root: int)
    requires
        0 <= root < nodes.len(),
    ensures
        is_channel(nodes, root, channel_of(nodes, root)),
        0 <= channel_of(nodes, root) < nodes.len(),
        forall|c: int| #[trigger] is_channel(nodes, root, c) ==> c == channel_of(nodes, root),
{
    lemma_first_descendant(nodes, root, "channel"@);
    assert forall|c: int| #[trigger] is_channel(nodes, root, c) implies c == channel_of(
        nodes,
        root,
    ) by {
        if is_first_at(nodes, root, c, "channel"@) {
        }
    }
}

/// The title of a feed is made of the plain words that `p` gives as its title;
/// where there are none, it is the host of the address.
pub open spec fn has_title(
    nodes: Seq<XmlView>,
    p: int,
    source: Seq<char>,
    title: Seq<char>,
) -> bool {
    &&& forall|t: Seq<char>| #[trigger]
        says(nodes, p, "title"@, t) && plain(t).len() > 0 ==> title == plain(t)
    &&& (forall|t: Seq<char>| #[trigger] says(nodes, p, "title"@, t) ==> plain(t).len() == 0) ==> (
    host_name(source) is Some ==> title == host_name(source)->0) && (host_name(source) is None
        ==> title == "Untitled Feed"@)
}

/// A value is what the first child of `p` named `key` says, and none where that
/// says nothing.
pub open spec fn is_said(
    nodes: Seq<XmlView>,
    p: int,
    key: Seq<char>,
    value: Option<Seq<char>>,
) -> bool {
    &&& forall|t: Seq<char>| #[trigger] says(nodes, p, key, t) ==> value == Some(t)
    &&& is_silent(nodes, p, key) ==> value is None
}

/// A value is the address that the first child of `p` named `key` says, seen
/// from the address of the document, and none where that says nothing.
pub open spec fn is_said_address(
    nodes: Seq<XmlView>,
    p: int,
    source: Seq<char>,
    key: Seq<char>,
    value: Option<Seq<char>>,
) -> bool {
    &&& forall|t: Seq<char>| #[trigger] says(nodes, p, key, t) ==> value == resolved(source, t)
    &&& is_silent(nodes, p, key) ==> value is None
}

/// What an RSS document says of its feed is said in its channel: the title, the
/// description, the language, the address of the site, its own address in the
/// first link to itself, and in the first image the picture.
pub proof fn law_rss_feed_is_what_the_channel_says(
    nodes: Seq<XmlView>,
    root: int,
    source: Seq<char>,
    channel: int,
    i: int,
)
    requires
        0 <= root < nodes.len(),
        is_channel(nodes, root, channel),
    ensures
        ({
            let feed = rss_feed(nodes, root, source);
            &&& feed.format == FeedFormat::Rss
            &&& has_title(nodes, channel, source, feed.title)
            &&& is_said(nodes, channel, "description"@, feed.description)
            &&& is_said(nodes, channel, "language"@, feed.language)
            &&& is_said_address(nodes, channel, source, "link"@, feed.site_url)
            &&& is_first_link(nodes, channel, i, "self"@, None) ==> leads_to(
                nodes[i],
                source,
                feed.subscription_url,
            )
            &&& lacks_link(nodes, channel, "self"@, None) ==> feed.subscription_url is None
            &&& is_first_at(nodes, channel, i, "image"@) ==> is_said_address(
                nodes,
                i,
                source,
                "url"@,
                feed.feed_image,
            )
            &&& has_none_at(nodes, channel, "image"@) ==> feed.feed_image is None
            &&& feed.feed_image is Some ==> feed.icon_candidates == seq![feed.feed_image->0]
            &&& feed.feed_image is None ==> feed.icon_candidates.len() == 0
        }),
{
    lemma_channel(nodes, root);
    assert(channel == channel_of(nodes, root));
    lemma_child_text(nodes, channel, "title"@);
    lemma_child_text(nodes, channel, "description"@);
    lemma_child_text(nodes, channel, "language"@);
    lemma_child_text(nodes, channel, "link"@);
    lemma_link(nodes, channel, "self"@, None);
    lemma_attribute(nodes[i], "href"@);
    lemma_first_descendant(nodes, channel, "image"@);
    if is_first_at(nodes, channel, i, "image"@) {
        lemma_child_text(nodes, i, "url"@);
    }
    let links = children(nodes, channel, "link"@);
    let found = crate::parser::first_link(nodes, links, "self"@, None);
    if is_first_link(nodes, channel, i, "self"@, None) {
        assert(crate::laws::documents::is_typed_link(nodes, channel, i, "self"@, None));
        assert(crate::laws::documents::is_typed_link(nodes, channel, found->0, "self"@, None));
        assert(found->0 == i);
    }
    if lacks_link(nodes, channel, "self"@, None) && found is Some {
        assert(crate::laws::documents::is_typed_link(nodes, channel, found->0, "self"@, None));
    }
}

/// What an Atom document says of its feed is said in its root: the title, the
/// subtitle, its language, the address of the site in its first alternate link,
/// one of HTML above others, its own address in the first link to itself, and
/// the icon and the logo.
pub proof fn law_atom_feed_is_what_the_root_says(
    nodes: Seq<XmlView>,
    root: int,
    source: Seq<char>,
    i: int,
    v: Seq<char>,
)
    requires
        0 <= root < nodes.len(),
    ensures
        ({
            let feed = atom_feed(nodes, root, source);
            let html = Some("text/html"@);
            &&& feed.format == FeedFormat::Atom
            &&& has_title(nodes, root, source, feed.title)
            &&& is_said(nodes, root, "subtitle"@, feed.description)
            &&& has_attribute(nodes[root], "lang"@, v) ==> feed.language == Some(v)
            &&& lacks_attribute(nodes[root], "lang"@) ==> feed.language is None
            &&& is_first_link(nodes, root, i, "alternate"@, html) ==> leads_to(
                nodes[i],
                source,
                feed.site_url,
            )
            &&& lacks_link(nodes, root, "alternate"@, html) && is_first_link(
                nodes,
                root,
                i,
                "alternate"@,
                None,
            ) ==> leads_to(nodes[i], source, feed.site_url)
            &&& lacks_link(nodes, root, "alternate"@, None) ==> feed.site_url is None
            &&& is_first_link(nodes, root, i, "self"@, None) ==> leads_to(
                nodes[i],
                source,
                feed.subscription_url,
            )
            &&& lacks_link(nodes, root, "self"@, None) ==> feed.subscription_url is None
            &&& feed.icon_candidates.len() > 0 ==> feed.feed_image == Some(feed.icon_candidates[0])
            &&& feed.icon_candidates.len() == 0 ==> feed.feed_image is None
        }),
{
    lemma_child_text(nodes, root, "title"@);
    lemma_child_text(nodes, root, "subtitle"@);
    lemma_attribute(nodes[root], "lang"@);
    lemma_address(nodes, root, source, "alternate"@, Some("text/html"@), i);
    lemma_address(nodes, root, source, "self"@, None, i);
}

/// The icon of an Atom feed comes first among its pictures, then its logo; each
/// as an address seen from that of the document, and one that is the same as
/// the first is not repeated.
pub proof fn law_atom_pictures_are_icon_and_logo(
    nodes: Seq<XmlView>,
    root: int,
    source: Seq<char>,
    icon: Option<Seq<char>>,
    logo: Option<Seq<char>>,
)
    requires
        0 <= root < nodes.len(),
        is_said_address(nodes, root, source, "icon"@, icon),
        is_said_address(nodes, root, source, "logo"@, logo),
    ensures
        ({
            let list = atom_feed(nodes, root, source).icon_candidates;
            &&& icon is Some && logo is Some && icon != logo ==> list == seq![icon->0, logo->0]
            &&& icon is Some && (logo is None || logo == icon) ==> list == seq![icon->0]
            &&& icon is None && logo is Some ==> list == seq![logo->0]
            &&& icon is None && logo is None ==> list.len() == 0
        }),
{
    lemma_child_text(nodes, root, "icon"@);
    lemma_child_text(nodes, root, "logo"@);
}

/// An element that holds an article of the document and is the first one to do
/// so under its identifier.
pub open spec fn counts(
    nodes: Seq<XmlView>,
    source: Seq<char>,
    atom: bool,
    is_item: spec_fn(int) -> bool,
) -> spec_fn(int) -> bool {
    |p: int|
        is_item(p) && forall|q: int|
            0 <= q < p && #[trigger] is_item(q) ==> xml_article(nodes, q, source, atom).stable_id
                != xml_article(nodes, p, source, atom).stable_id
}

proof fn lemma_counted(
    nodes: Seq<XmlView>,
    list: Seq<int>,
    source: Seq<char>,
    atom: bool,
    is_item: spec_fn(int) -> bool,
) -> (at: Seq<int>)
    requires
        are_the_places(list, nodes.len() as int, is_item),
    ensures
        are_the_places(at, nodes.len() as int, counts(nodes, source, atom, is_item)),
        distinct_articles(xml_articles(nodes, list, source, atom)) == at.map_values(
            |p: int| xml_article(nodes, p, source, atom),
        ),
{
    let all = xml_articles(nodes, list, source, atom);
    let ids = article_ids(all);
    law_first_of_each_is_kept(all, ids);
    let firsts_at = choose|at: Seq<int>|
        {
            &&& #[trigger] are_the_places(at, all.len() as int, comes_first(ids))
            &&& firsts(all, ids) == at.map_values(|i: int| all[i])
        };
    let at = firsts_at.map_values(|i: int| list[i]);
    let wanted = counts(nodes, source, atom, is_item);
    let n = nodes.len() as int;
    assert forall|k: int| 0 <= k < at.len() implies 0 <= #[trigger] at[k] < n && wanted(at[k]) by {
        let i = firsts_at[k];
        assert(comes_first(ids)(i));
        assert(is_item(list[i]));
        assert forall|q: int| 0 <= q < list[i] && #[trigger] is_item(q) implies xml_article(
            nodes,
            q,
            source,
            atom,
        ).stable_id != xml_article(nodes, list[i], source, atom).stable_id by {
            let j = choose|j: int| 0 <= j < list.len() && list[j] == q;
            if j > i {
                assert(list[i] < list[j]);
            }
            assert(ids[j] != ids[i]);
        }
    }
    assert forall|k: int, m: int| 0 <= k < m < at.len() implies #[trigger] at[k]
        < #[trigger] at[m] by {
        assert(firsts_at[k] < firsts_at[m]);
    }
    assert forall|p: int| 0 <= p < n && #[trigger] wanted(p) implies at.contains(p) by {
        let i = choose|i: int| 0 <= i < list.len() && list[i] == p;
        assert forall|j: int| 0 <= j < i implies #[trigger] ids[j] != ids[i] by {
            assert(list[j] < list[i]);
            assert(is_item(list[j]));
        }
        assert(comes_first(ids)(i));
        let k = choose|k: int| 0 <= k < firsts_at.len() && firsts_at[k] == i;
        assert(at[k] == p);
    }
    assert(distinct_articles(all) =~= at.map_values(
        |p: int| xml_article(nodes, p, source, atom),
    ));
    at
}

/// The articles of an Atom document are those in the entries directly inside
/// its root, in their order, and of those with one identifier the first.
pub proof fn law_atom_articles_are_its_entries(nodes: Seq<XmlView>, root: int, source: Seq<char>)
    requires
        0 <= root < nodes.len(),
    ensures
        exists|at: Seq<int>|
            {
                &&& #[trigger] are_the_places(
                    at,
                    nodes.len() as int,
                    counts(nodes, source, true, is_entry(nodes, root)),
                )
                &&& atom_feed(nodes, root, source).articles == at.map_values(
                    |p: int| xml_article(nodes, p, source, true),
                )
            },
{
    let list = children(nodes, root, "entry"@);
    lemma_children(nodes, root, "entry"@);
    crate::laws::places::lemma_wanted_alike(
        list,
        nodes.len() as int,
        is_below(nodes, root, "entry"@, true),
        is_entry(nodes, root),
    );
    let at = lemma_counted(nodes, list, source, true, is_entry(nodes, root));
    assert(are_the_places(
        at,
        nodes.len() as int,
        counts(nodes, source, true, is_entry(nodes, root)),
    ));
}

/// An entry of an Atom document.
pub open spec fn is_entry(nodes: Seq<XmlView>, root: int) -> spec_fn(int) -> bool {
    |c: int| is_child(nodes, root, c, "entry"@)
}

/// The articles of an RSS document are those in the items inside its channel,
/// at whatever depth, and where the root is named RDF in those inside the root;
/// in their order, and of those with one identifier the first.
pub proof fn law_rss_articles_are_its_items(
    nodes: Seq<XmlView>,
    root: int,
    source: Seq<char>,
    top: int,
)
    requires
        0 <= root < nodes.len(),
        lower(nodes[root].name) == lower("rdf"@) ==> top == root,
        lower(nodes[root].name) != lower("rdf"@) ==> is_channel(nodes, root, top),
    ensures
        exists|at: Seq<int>|
            {
                &&& #[trigger] are_the_places(
                    at,
                    nodes.len() as int,
                    counts(nodes, source, false, is_at_or_below(nodes, top, "item"@)),
                )
                &&& rss_feed(nodes, root, source).articles == at.map_values(
                    |p: int| xml_article(nodes, p, source, false),
                )
            },
{
    lemma_channel(nodes, root);
    let list = rss_items(nodes, root);
    lemma_descendants(nodes, top, "item"@);
    let at = lemma_counted(nodes, list, source, false, is_at_or_below(nodes, top, "item"@));
    assert(are_the_places(
        at,
        nodes.len() as int,
        counts(nodes, source, false, is_at_or_below(nodes, top, "item"@)),
    ));
}

/// An element lies deeper than sixty-four.
pub open spec fn is_too_deep(nodes: Seq<XmlView>) -> bool {
    exists|i: int| 0 <= i < nodes.len() && (#[trigger] nodes[i]).is_element && nodes[i].depth > 64
}

proof fn lemma_root(nodes: Seq<XmlView>, i: int)
    requires
        0 <= i <= nodes.len(),
        forall|k: int| 0 <= k < i ==> !(#[trigger] nodes[k]).is_element,
    ensures
        match first_element(nodes, i) {
            Some(root) => is_root(nodes, root),
            None => forall|k: int| 0 <= k < nodes.len() ==> !(#[trigger] nodes[k]).is_element,
        },
    decreases nodes.len() - i,
{
    if i < nodes.len() && !nodes[i].is_element {
        lemma_root(nodes, i + 1);
    }
}

/// What a document is, its root says: a root named `rss` or `RDF`, in letters
/// of whatever case, makes it RSS, one named `feed` makes it Atom, and any
/// other makes it none. A document of either kind is read unless it nests
/// elements deeper than sixty-four or has more than ten thousand items.
pub proof fn law_root_tells_the_format(nodes: Seq<XmlView>, source: Seq<char>, root: int)
    requires
        is_root(nodes, root),
    ensures
        ({
            let name = lower(nodes[root].name);
            let rss = name == "rss"@ || name == "rdf"@;
            let atom = name == "feed"@;
            &&& is_too_deep(nodes) ==> xml_feed(nodes, source)
                == Err::<FeedView, CoreErrorView>(
                CoreErrorView::InputLimitExceeded("XML nesting"@),
            )
            &&& !is_too_deep(nodes) && !rss && !atom ==> xml_feed(nodes, source)
                == Err::<FeedView, CoreErrorView>(CoreErrorView::UnsupportedFeed)
            &&& !is_too_deep(nodes) && rss && rss_items(nodes, root).len() <= 10_000 ==> xml_feed(
                nodes,
                source,
            ) == Ok::<FeedView, CoreErrorView>(rss_feed(nodes, root, source))
            &&& !is_too_deep(nodes) && !rss && atom && children(nodes, root, "entry"@).len()
                <= 10_000 ==> xml_feed(nodes, source) == Ok::<FeedView, CoreErrorView>(
                atom_feed(nodes, root, source),
            )
            &&& !is_too_deep(nodes) && rss && rss_items(nodes, root).len() > 10_000 ==> xml_feed(
                nodes,
                source,
            ) == Err::<FeedView, CoreErrorView>(CoreErrorView::InputLimitExceeded("article count"@))
            &&& !is_too_deep(nodes) && !rss && atom && children(nodes, root, "entry"@).len()
                > 10_000 ==> xml_feed(nodes, source) == Err::<FeedView, CoreErrorView>(
                CoreErrorView::InputLimitExceeded("article count"@),
            )
        }),
{
    lemma_root(nodes, 0);
    let found = first_element(nodes, 0);
    assert(found is Some) by {
        assert(nodes[root].is_element);
    }
    if found->0 < root {
        assert(nodes[found->0].is_element);
    } else if root < found->0 {
        assert(nodes[root].is_element);
    }
    reveal(rss_result);
    reveal(atom_result);
    if crate::xml::deeper_than(nodes, 64) {
        let i = choose|i: int|
            0 <= i < nodes.len() && #[trigger] nodes[i].is_element && nodes[i].depth > 64;
        assert(is_too_deep(nodes));
    }
}

} // verus!
