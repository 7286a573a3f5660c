//! What the articles and feeds read from XML documents hold, said of the
//! elements of the documents.

use crate::laws::texts::law_bare_text_stays;
use crate::dates::{either, time_in};
use crate::identity::{normal_url, small_letters};
use crate::markup::plain;
use crate::laws::places::{are_the_places, comes_first, law_first_of_each_is_kept};
use crate::parser::{
    category_texts, child_text, dated, first_link, link_address, node_text, xml_article,
};
use crate::unique::{distinct_texts, firsts, spoken};
use crate::text::{byte_len, decimal_int, lower, trim};
use crate::web::resolved;
use crate::xml::{attribute, attribute_from, child, children, matching, XmlView};
use vstd::prelude::*;

verus! {

/// The node `c` lies inside the node `p`.
pub open spec fn is_inside(nodes: Seq<XmlView>, p: int, c: int) -> bool {
    &&& 0 <= p < c < nodes.len()
    &&& forall|k: int| p < k <= c ==> (#[trigger] nodes[k]).depth > nodes[p].depth
}

/// The node `c` is an element named `key` directly inside `p`.
pub open spec fn is_child(nodes: Seq<XmlView>, p: int, c: int, key: Seq<char>) -> bool {
    &&& is_inside(nodes, p, c)
    &&& nodes[c].is_element
    &&& nodes[c].name == key
    &&& nodes[c].depth == nodes[p].depth + 1
}

/// The first child of `p` named `key` is `c`.
pub open spec fn is_first_child(nodes: Seq<XmlView>, p: int, c: int, key: Seq<char>) -> bool {
    &&& is_child(nodes, p, c, key)
    &&& forall|k: int| p < k < c ==> !#[trigger] is_child(nodes, p, k, key)
}

/// The text of a node without the white space round it is `t`, and that is
/// neither empty nor too long to be kept.
pub open spec fn node_says(node: XmlView, t: Seq<char>) -> bool {
    node.text is Some && t == trim(node.text->0) && t.len() > 0 && byte_len(t) <= 524_288
}

/// The first child of `p` named `key` says `t`.
pub open spec fn says(nodes: Seq<XmlView>, p: int, key: Seq<char>, t: Seq<char>) -> bool {
    exists|c: int| #[trigger] is_first_child(nodes, p, c, key) && node_says(nodes[c], t)
}

/// The first child of `p` named `key` says nothing, or there is none.
pub open spec fn is_silent(nodes: Seq<XmlView>, p: int, key: Seq<char>) -> bool {
    forall|t: Seq<char>| !#[trigger] says(nodes, p, key, t)
}

/// The node `c` is an element named `key` inside `p`, at whatever depth.
pub open spec fn is_descendant(nodes: Seq<XmlView>, p: int, c: int, key: Seq<char>) -> bool {
    is_inside(nodes, p, c) && nodes[c].is_element && nodes[c].name == key
}

/// An element named `key` inside `p`, directly or at whatever depth.
pub open spec fn is_below(
    nodes: Seq<XmlView>,
    p: int,
    key: Seq<char>,
    direct: bool,
) -> spec_fn(int) -> bool {
    |c: int| is_descendant(nodes, p, c, key) && (direct ==> nodes[c].depth == nodes[p].depth + 1)
}

/// The elements that are found are those that lie inside.
pub proof fn lemma_matching(nodes: Seq<XmlView>, p: int, i: int, key: Seq<char>, direct: bool)
    requires
        0 <= p < i <= nodes.len(),
        forall|k: int| p < k < i ==> (#[trigger] nodes[k]).depth > nodes[p].depth,
    ensures
        ({
            let list = matching(nodes, p, i, key, direct);
            let wanted = is_below(nodes, p, key, direct);
            &&& forall|k: int|
                0 <= k < list.len() ==> i <= #[trigger] list[k] < nodes.len() && wanted(list[k])
            &&& forall|k: int, m: int|
                0 <= k < m < list.len() ==> #[trigger] list[k] < #[trigger] list[m]
            &&& forall|c: int| i <= c && #[trigger] wanted(c) ==> list.contains(c)
        }),
    decreases nodes.len() - i,
{
    let list = matching(nodes, p, i, key, direct);
    let wanted = is_below(nodes, p, key, direct);
    if i < nodes.len() && nodes[i].depth > nodes[p].depth {
        lemma_matching(nodes, p, i + 1, key, direct);
        let rest = matching(nodes, p, i + 1, key, direct);
        if wanted(i) {
            assert(list == seq![i] + rest);
            assert forall|k: int| 0 <= k < list.len() implies i <= #[trigger] list[k]
                < nodes.len() && wanted(list[k]) by {
                if k > 0 {
                    assert(list[k] == rest[k - 1]);
                }
            }
            assert forall|k: int, m: int| 0 <= k < m < list.len() implies #[trigger] list[k]
                < #[trigger] list[m] by {
                assert(list[m] == rest[m - 1]);
                if k > 0 {
                    assert(list[k] == rest[k - 1]);
                }
            }
            assert forall|c: int| i <= c && #[trigger] wanted(c) implies list.contains(c) by {
                if c == i {
                    assert(list[0] == c);
                } else {
                    let k = choose|k: int| 0 <= k < rest.len() && rest[k] == c;
                    assert(list[k + 1] == c);
                }
            }
        } else {
            assert(list == rest);
        }
    } else {
        assert forall|c: int| i <= c implies !#[trigger] wanted(c) by {
            if wanted(c) {
                assert(nodes[i].depth > nodes[p].depth);
            }
        }
    }
}

/// The children of `p` named `key` are what is found of them: all of them, in
/// order.
pub proof fn lemma_children(nodes: Seq<XmlView>, p: int, key: Seq<char>)
    requires
        0 <= p < nodes.len(),
    ensures
        are_the_places(
            children(nodes, p, key),
            nodes.len() as int,
            is_below(nodes, p, key, true),
        ),
        forall|c: int| #[trigger] is_below(nodes, p, key, true)(c) == is_child(nodes, p, c, key),
{
    lemma_matching(nodes, p, p + 1, key, true);
}

/// What a child says is what is read of it.
pub proof fn lemma_child_text(nodes: Seq<XmlView>, p: int, key: Seq<char>)
    requires
        0 <= p < nodes.len(),
    ensures
        match child_text(nodes, p, key) {
            Some(t) => says(nodes, p, key, t) && trim(t) == t && t.len() > 0 && byte_len(t)
                <= 524_288,
            None => is_silent(nodes, p, key),
        },
        forall|t: Seq<char>|
            says(nodes, p, key, t) ==> child_text(nodes, p, key) == Some(t),
{
    lemma_children(nodes, p, key);
    let list = children(nodes, p, key);
    let wanted = is_below(nodes, p, key, true);
    if list.len() > 0 {
        let c = list[0];
        assert(wanted(c));
        assert forall|k: int| p < k < c implies !#[trigger] is_child(nodes, p, k, key) by {
            if is_child(nodes, p, k, key) {
                assert(wanted(k));
                let m = choose|m: int| 0 <= m < list.len() && list[m] == k;
                assert(m > 0 ==> list[0] < list[m]);
            }
        }
        assert(is_first_child(nodes, p, c, key));
        if nodes[c].text is Some {
            law_bare_text_stays(nodes[c].text->0);
        }
        assert forall|t: Seq<char>| says(nodes, p, key, t) implies child_text(nodes, p, key)
            == Some(t) by {
            let d = choose|d: int|
                #[trigger] is_first_child(nodes, p, d, key) && node_says(nodes[d], t);
            if d < c {
                assert(is_child(nodes, p, d, key));
            } else if c < d {
                assert(is_child(nodes, p, c, key));
            }
        }
    } else {
        assert forall|t: Seq<char>| !says(nodes, p, key, t) by {
            if says(nodes, p, key, t) {
                let d = choose|d: int|
                    #[trigger] is_first_child(nodes, p, d, key) && node_says(nodes[d], t);
                assert(wanted(d));
            }
        }
    }
}

/// The text of an article is what its first child named `encoded` says; where
/// that says nothing, what its first child named `content` says; and nothing
/// where that says nothing either.
pub proof fn law_content_is_what_the_item_says(
    nodes: Seq<XmlView>,
    p: int,
    source: Seq<char>,
    atom: bool,
    t: Seq<char>,
)
    requires
        0 <= p < nodes.len(),
    ensures
        says(nodes, p, "encoded"@, t) ==> xml_article(nodes, p, source, atom).content == Some(t),
        is_silent(nodes, p, "encoded"@) && says(nodes, p, "content"@, t) ==> xml_article(
            nodes,
            p,
            source,
            atom,
        ).content == Some(t),
        is_silent(nodes, p, "encoded"@) && is_silent(nodes, p, "content"@) ==> xml_article(
            nodes,
            p,
            source,
            atom,
        ).content is None,
{
    lemma_child_text(nodes, p, "encoded"@);
    lemma_child_text(nodes, p, "content"@);
}


/// The first attribute of a node whose name is `key`, but for the case of ASCII
/// letters, has the value `v`.
pub open spec fn has_attribute(node: XmlView, key: Seq<char>, v: Seq<char>) -> bool {
    exists|i: int|
        {
            &&& 0 <= i < node.attributes.len()
            &&& lower((#[trigger] node.attributes[i]).0) == lower(key)
            &&& node.attributes[i].1 == v
            &&& forall|j: int|
                0 <= j < i ==> lower((#[trigger] node.attributes[j]).0) != lower(key)
        }
}

/// No attribute of a node is named `key`.
pub open spec fn lacks_attribute(node: XmlView, key: Seq<char>) -> bool {
    forall|i: int|
        0 <= i < node.attributes.len() ==> lower((#[trigger] node.attributes[i]).0) != lower(key)
}

proof fn lemma_attribute_from(attributes: Seq<(Seq<char>, Seq<char>)>, i: int, key: Seq<char>)
    requires
        0 <= i <= attributes.len(),
    ensures
        match attribute_from(attributes, i, key) {
            Some(v) => exists|k: int|
                {
                    &&& i <= k < attributes.len()
                    &&& lower((#[trigger] attributes[k]).0) == lower(key)
                    &&& attributes[k].1 == v
                    &&& forall|j: int|
                        i <= j < k ==> lower((#[trigger] attributes[j]).0) != lower(key)
                },
            None => forall|k: int|
                i <= k < attributes.len() ==> lower((#[trigger] attributes[k]).0) != lower(key),
        },
    decreases attributes.len() - i,
{
    if i < attributes.len() && lower(attributes[i].0) != lower(key) {
        lemma_attribute_from(attributes, i + 1, key);
    }
}

/// What an attribute says is what is read of it.
pub proof fn lemma_attribute(node: XmlView, key: Seq<char>)
    ensures
        match attribute(node, key) {
            Some(v) => has_attribute(node, key, v),
            None => lacks_attribute(node, key),
        },
        forall|v: Seq<char>|
            #[trigger] has_attribute(node, key, v) ==> attribute(node, key) == Some(v),
        lacks_attribute(node, key) ==> attribute(node, key) is None,
{
    lemma_attribute_from(node.attributes, 0, key);
    assert forall|v: Seq<char>| #[trigger] has_attribute(node, key, v) implies attribute(node, key)
        == Some(v) by {
        let list = node.attributes;
        let i = choose|i: int|
            {
                &&& 0 <= i < list.len()
                &&& lower((#[trigger] list[i]).0) == lower(key)
                &&& list[i].1 == v
                &&& forall|j: int| 0 <= j < i ==> lower((#[trigger] list[j]).0) != lower(key)
            };
        assert(attribute(node, key) is Some);
        let k = choose|k: int|
            {
                &&& 0 <= k < list.len()
                &&& lower((#[trigger] list[k]).0) == lower(key)
                &&& Some(list[k].1) == attribute(node, key)
                &&& forall|j: int| 0 <= j < k ==> lower((#[trigger] list[j]).0) != lower(key)
            };
        assert(i == k);
    }
}

/// The title of an article is made of the plain words of its first child named
/// `title`; an article without any is untitled.
pub proof fn law_title_is_what_the_item_says(
    nodes: Seq<XmlView>,
    p: int,
    source: Seq<char>,
    atom: bool,
    t: Seq<char>,
)
    requires
        0 <= p < nodes.len(),
    ensures
        says(nodes, p, "title"@, t) && plain(t).len() > 0 ==> xml_article(
            nodes,
            p,
            source,
            atom,
        ).title == plain(t),
        says(nodes, p, "title"@, t) && plain(t).len() == 0 ==> xml_article(
            nodes,
            p,
            source,
            atom,
        ).title == "Untitled Article"@,
        is_silent(nodes, p, "title"@) ==> xml_article(nodes, p, source, atom).title
            == "Untitled Article"@,
{
    lemma_child_text(nodes, p, "title"@);
}

/// A short text of plain words, where there are any and not too many.
pub open spec fn is_short_text(summary: Option<Seq<char>>, words: Seq<char>) -> bool {
    &&& trim(words).len() > 0 && byte_len(trim(words)) <= 524_288 ==> summary == Some(trim(words))
    &&& trim(words).len() == 0 || byte_len(trim(words)) > 524_288 ==> summary is None
}

/// The short text of an article is made of the plain words of its first child
/// named `description` (`summary` in Atom); where that says nothing, of those
/// of its text.
pub proof fn law_summary_is_what_the_item_says(
    nodes: Seq<XmlView>,
    p: int,
    source: Seq<char>,
    atom: bool,
    t: Seq<char>,
)
    requires
        0 <= p < nodes.len(),
    ensures
        ({
            let article = xml_article(nodes, p, source, atom);
            let key = if atom {
                "summary"@
            } else {
                "description"@
            };
            &&& says(nodes, p, key, t) ==> is_short_text(article.summary, plain(t))
            &&& is_silent(nodes, p, key) && article.content == Some(t) ==> is_short_text(
                article.summary,
                plain(t),
            )
            &&& is_silent(nodes, p, key) && article.content is None ==> article.summary is None
        }),
{
    lemma_child_text(nodes, p, "summary"@);
    lemma_child_text(nodes, p, "description"@);
}

/// The address of an item of RSS is what its first child named `link` says,
/// seen from the address of the document.
pub proof fn law_item_address_is_its_link(
    nodes: Seq<XmlView>,
    p: int,
    source: Seq<char>,
    t: Seq<char>,
)
    requires
        0 <= p < nodes.len(),
    ensures
        says(nodes, p, "link"@, t) ==> xml_article(nodes, p, source, false).url == resolved(
            source,
            t,
        ),
        is_silent(nodes, p, "link"@) ==> xml_article(nodes, p, source, false).url is None,
{
    lemma_child_text(nodes, p, "link"@);
}

/// A child of `p` is a link with a relation; one that names none is an
/// alternate.
pub open spec fn is_link(nodes: Seq<XmlView>, p: int, c: int, relation: Seq<char>) -> bool {
    &&& is_child(nodes, p, c, "link"@)
    &&& (exists|v: Seq<char>| #[trigger]
        has_attribute(nodes[c], "rel"@, v) && lower(v) == lower(relation)) || (lacks_attribute(
        nodes[c],
        "rel"@,
    ) && lower(relation) == lower("alternate"@))
}

/// Where a link leads, seen from the address of the document.
pub open spec fn leads_to(node: XmlView, source: Seq<char>, url: Option<Seq<char>>) -> bool {
    &&& forall|v: Seq<char>|
        #[trigger] has_attribute(node, "href"@, v) ==> url == resolved(source, v)
    &&& lacks_attribute(node, "href"@) ==> url is None
}

/// A link with a relation and, where `kind` is given, of that type.
pub open spec fn is_typed_link(
    nodes: Seq<XmlView>,
    p: int,
    c: int,
    relation: Seq<char>,
    kind: Option<Seq<char>>,
) -> bool {
    is_link(nodes, p, c, relation) && (kind is Some ==> has_attribute(
        nodes[c],
        "type"@,
        kind->0,
    ))
}

proof fn lemma_first_link(
    nodes: Seq<XmlView>,
    p: int,
    list: Seq<int>,
    relation: Seq<char>,
    kind: Option<Seq<char>>,
)
    requires
        forall|k: int|
            0 <= k < list.len() ==> is_child(nodes, p, #[trigger] list[k], "link"@),
        forall|k: int, m: int| 0 <= k < m < list.len() ==> #[trigger] list[k] < #[trigger] list[m],
    ensures
        match first_link(nodes, list, relation, kind) {
            Some(c) => list.contains(c) && is_typed_link(nodes, p, c, relation, kind) && forall|
                d: int,
            |
                d < c && #[trigger] list.contains(d) ==> !is_typed_link(
                    nodes,
                    p,
                    d,
                    relation,
                    kind,
                ),
            None => forall|d: int| #[trigger]
                list.contains(d) ==> !is_typed_link(nodes, p, d, relation, kind),
        },
    decreases list.len(),
{
    if list.len() > 0 {
        let c = list[0];
        let rest = list.skip(1);
        lemma_attribute(nodes[c], "rel"@);
        lemma_attribute(nodes[c], "type"@);
        assert forall|k: int| 0 <= k < rest.len() implies is_child(
            nodes,
            p,
            #[trigger] rest[k],
            "link"@,
        ) by {
            assert(rest[k] == list[k + 1]);
        }
        lemma_first_link(nodes, p, rest, relation, kind);
        assert forall|d: int| #[trigger] list.contains(d) && d != c implies rest.contains(d) && d
            > c by {
            let k = choose|k: int| 0 <= k < list.len() && list[k] == d;
            assert(rest[k - 1] == d);
            assert(list[0] < list[k]);
        }
        assert forall|d: int| #[trigger] rest.contains(d) implies list.contains(d) by {
            let k = choose|k: int| 0 <= k < rest.len() && rest[k] == d;
            assert(list[k + 1] == d);
        }
        assert(is_child(nodes, p, c, "link"@));
        let found = crate::parser::has_relation(nodes[c], relation) && (kind is None || attribute(
            nodes[c],
            "type"@,
        ) == kind);
        if found {
            assert(list.contains(c));
            assert(is_link(nodes, p, c, relation)) by {
                match attribute(nodes[c], "rel"@) {
                    Some(v) => {
                        assert(has_attribute(nodes[c], "rel"@, v));
                    },
                    None => {},
                }
            }
            assert(first_link(nodes, list, relation, kind) == Some(c));
        } else {
            assert(!is_typed_link(nodes, p, c, relation, kind));
            assert(first_link(nodes, list, relation, kind) == first_link(
                nodes,
                rest,
                relation,
                kind,
            ));
        }
    }
}

/// The first link with a relation and, where `kind` is given, of that type.
pub open spec fn is_first_link(
    nodes: Seq<XmlView>,
    p: int,
    c: int,
    relation: Seq<char>,
    kind: Option<Seq<char>>,
) -> bool {
    &&& is_typed_link(nodes, p, c, relation, kind)
    &&& forall|d: int| d < c ==> !#[trigger] is_typed_link(nodes, p, d, relation, kind)
}

/// There is no link with a relation and, where `kind` is given, of that type.
pub open spec fn lacks_link(
    nodes: Seq<XmlView>,
    p: int,
    relation: Seq<char>,
    kind: Option<Seq<char>>,
) -> bool {
    forall|d: int| !#[trigger] is_typed_link(nodes, p, d, relation, kind)
}

/// The first link is what is found.
pub proof fn lemma_link(
    nodes: Seq<XmlView>,
    p: int,
    relation: Seq<char>,
    kind: Option<Seq<char>>,
)
    requires
        0 <= p < nodes.len(),
    ensures
        match first_link(nodes, children(nodes, p, "link"@), relation, kind) {
            Some(c) => is_first_link(nodes, p, c, relation, kind),
            None => lacks_link(nodes, p, relation, kind),
        },
{
    let list = children(nodes, p, "link"@);
    lemma_children(nodes, p, "link"@);
    let wanted = is_below(nodes, p, "link"@, true);
    assert forall|k: int| 0 <= k < list.len() implies is_child(
        nodes,
        p,
        #[trigger] list[k],
        "link"@,
    ) by {
        assert(wanted(list[k]));
    }
    lemma_first_link(nodes, p, list, relation, kind);
    assert forall|d: int| #[trigger] is_typed_link(
        nodes,
        p,
        d,
        relation,
        kind,
    ) implies list.contains(d) by {
        assert(wanted(d));
    }
}

/// The address of an entry of Atom is where its first alternate link of HTML
/// leads; where it has none, its first alternate link.
pub proof fn law_entry_address_is_its_link(
    nodes: Seq<XmlView>,
    p: int,
    source: Seq<char>,
    c: int,
)
    requires
        0 <= p < nodes.len(),
    ensures
        ({
            let url = xml_article(nodes, p, source, true).url;
            let html = Some("text/html"@);
            &&& is_first_link(nodes, p, c, "alternate"@, html) ==> leads_to(nodes[c], source, url)
            &&& lacks_link(nodes, p, "alternate"@, html) && is_first_link(
                nodes,
                p,
                c,
                "alternate"@,
                None,
            ) ==> leads_to(nodes[c], source, url)
            &&& lacks_link(nodes, p, "alternate"@, None) ==> url is None
        }),
{
    lemma_address(nodes, p, source, "alternate"@, Some("text/html"@), c);
}

/// The address of the first link is what is found.
pub proof fn lemma_address(
    nodes: Seq<XmlView>,
    p: int,
    source: Seq<char>,
    relation: Seq<char>,
    kind: Option<Seq<char>>,
    c: int,
)
    requires
        0 <= p < nodes.len(),
    ensures
        ({
            let url = link_address(nodes, p, source, relation, kind);
            &&& kind is Some && is_first_link(nodes, p, c, relation, kind) ==> leads_to(
                nodes[c],
                source,
                url,
            )
            &&& (kind is None || lacks_link(nodes, p, relation, kind)) && is_first_link(
                nodes,
                p,
                c,
                relation,
                None,
            ) ==> leads_to(nodes[c], source, url)
            &&& lacks_link(nodes, p, relation, None) ==> url is None
        }),
{
    lemma_link(nodes, p, relation, kind);
    lemma_link(nodes, p, relation, None);
    lemma_attribute(nodes[c], "href"@);
    let list = children(nodes, p, "link"@);
    let typed = first_link(nodes, list, relation, kind);
    let any = first_link(nodes, list, relation, None);
    if is_first_link(nodes, p, c, relation, kind) && kind is Some {
        assert(is_typed_link(nodes, p, c, relation, kind));
        let d = typed->0;
        assert(is_typed_link(nodes, p, d, relation, kind));
        assert(d == c);
    }
    if is_first_link(nodes, p, c, relation, None) {
        assert(is_typed_link(nodes, p, c, relation, None));
        let d = any->0;
        assert(is_typed_link(nodes, p, d, relation, None));
        assert(d == c);
        if typed is Some {
            assert(is_typed_link(nodes, p, typed->0, relation, kind));
        }
    }
    if lacks_link(nodes, p, relation, None) {
        if any is Some {
            assert(is_typed_link(nodes, p, any->0, relation, None));
        }
        if typed is Some {
            assert(is_typed_link(nodes, p, typed->0, relation, kind));
            assert(is_typed_link(nodes, p, typed->0, relation, None));
        }
    }
}

/// The first child of `p` named `key` gives a time.
pub open spec fn gives_time(nodes: Seq<XmlView>, p: int, key: Seq<char>, time: i64) -> bool {
    exists|t: Seq<char>| #[trigger] says(nodes, p, key, t) && time_in(t) == Some(time)
}

/// The first child of `p` named `key` gives no time.
pub open spec fn gives_no_time(nodes: Seq<XmlView>, p: int, key: Seq<char>) -> bool {
    forall|time: i64| !#[trigger] gives_time(nodes, p, key, time)
}

proof fn lemma_time(nodes: Seq<XmlView>, p: int, key: Seq<char>)
    requires
        0 <= p < nodes.len(),
    ensures
        match dated(child_text(nodes, p, key)) {
            Some(time) => gives_time(nodes, p, key, time),
            None => gives_no_time(nodes, p, key),
        },
        forall|time: i64| #[trigger]
            gives_time(nodes, p, key, time) ==> dated(child_text(nodes, p, key)) == Some(time),
{
    lemma_child_text(nodes, p, key);
}

/// An entry of Atom was published when its child named `published` says, else
/// when it was last changed, and that is what its child named `updated` says.
pub proof fn law_entry_times_are_what_it_says(
    nodes: Seq<XmlView>,
    p: int,
    source: Seq<char>,
    time: i64,
)
    requires
        0 <= p < nodes.len(),
    ensures
        ({
            let article = xml_article(nodes, p, source, true);
            &&& gives_time(nodes, p, "updated"@, time) ==> article.updated_at == Some(time)
            &&& gives_no_time(nodes, p, "updated"@) ==> article.updated_at is None
            &&& gives_time(nodes, p, "published"@, time) ==> article.published_at == Some(time)
            &&& gives_no_time(nodes, p, "published"@) ==> article.published_at
                == article.updated_at
        }),
{
    lemma_time(nodes, p, "updated"@);
    lemma_time(nodes, p, "published"@);
}

/// An item of RSS was published when its child named `pubdate` says, else when
/// that named `pubDate` says, else when it was last changed, and that is what
/// its child named `date` says.
pub proof fn law_item_times_are_what_it_says(
    nodes: Seq<XmlView>,
    p: int,
    source: Seq<char>,
    time: i64,
)
    requires
        0 <= p < nodes.len(),
    ensures
        ({
            let article = xml_article(nodes, p, source, false);
            &&& gives_time(nodes, p, "date"@, time) ==> article.updated_at == Some(time)
            &&& gives_no_time(nodes, p, "date"@) ==> article.updated_at is None
            &&& gives_time(nodes, p, "pubdate"@, time) ==> article.published_at == Some(time)
            &&& gives_no_time(nodes, p, "pubdate"@) && gives_time(nodes, p, "pubDate"@, time)
                ==> article.published_at == Some(time)
            &&& gives_no_time(nodes, p, "pubdate"@) && gives_no_time(nodes, p, "pubDate"@)
                ==> article.published_at == article.updated_at
        }),
{
    lemma_time(nodes, p, "date"@);
    lemma_time(nodes, p, "pubdate"@);
    lemma_time(nodes, p, "pubDate"@);
}

/// The author of an item of RSS is its creator, else its author; that of an
/// entry of Atom is the name in its first author.
pub proof fn law_author_is_what_the_item_says(
    nodes: Seq<XmlView>,
    p: int,
    source: Seq<char>,
    a: int,
    t: Seq<char>,
)
    requires
        0 <= p < nodes.len(),
    ensures
        ({
            let author = xml_article(nodes, p, source, false).author;
            &&& says(nodes, p, "creator"@, t) ==> author == Some(plain(t))
            &&& is_silent(nodes, p, "creator"@) && says(nodes, p, "author"@, t) ==> author == Some(
                plain(t),
            )
            &&& is_silent(nodes, p, "creator"@) && is_silent(nodes, p, "author"@)
                ==> author is None
        }),
        ({
            let author = xml_article(nodes, p, source, true).author;
            &&& is_first_child(nodes, p, a, "author"@) && says(nodes, a, "name"@, t) ==> author
                == Some(plain(t))
            &&& is_first_child(nodes, p, a, "author"@) && is_silent(nodes, a, "name"@)
                ==> author is None
            &&& (forall|c: int| !#[trigger] is_child(nodes, p, c, "author"@)) ==> author is None
        }),
{
    lemma_child_text(nodes, p, "creator"@);
    lemma_child_text(nodes, p, "author"@);
    lemma_child(nodes, p, "author"@);
    if is_first_child(nodes, p, a, "author"@) {
        lemma_child_text(nodes, a, "name"@);
    }
}

/// The first child is what is found.
pub proof fn lemma_child(nodes: Seq<XmlView>, p: int, key: Seq<char>)
    requires
        0 <= p < nodes.len(),
    ensures
        match child(nodes, p, key) {
            Some(c) => is_first_child(nodes, p, c, key),
            None => forall|c: int| !#[trigger] is_child(nodes, p, c, key),
        },
        forall|c: int| #[trigger]
            is_first_child(nodes, p, c, key) ==> child(nodes, p, key) == Some(c),
{
    lemma_children(nodes, p, key);
    let list = children(nodes, p, key);
    let wanted = is_below(nodes, p, key, true);
    if list.len() > 0 {
        let c = list[0];
        assert(wanted(c));
        assert forall|k: int| p < k < c implies !#[trigger] is_child(nodes, p, k, key) by {
            if is_child(nodes, p, k, key) {
                assert(wanted(k));
                let m = choose|m: int| 0 <= m < list.len() && list[m] == k;
                assert(m > 0 ==> list[0] < list[m]);
            }
        }
        assert forall|d: int| #[trigger] is_first_child(nodes, p, d, key) implies d == c by {
            if d < c {
                assert(is_child(nodes, p, d, key));
            } else if c < d {
                assert(is_child(nodes, p, c, key));
            }
        }
    } else {
        assert forall|c: int| !#[trigger] is_child(nodes, p, c, key) by {
            if is_child(nodes, p, c, key) {
                assert(wanted(c));
            }
        }
    }
}

/// What tells an article from the others of its document is what its first
/// child named `guid` (`id` in Atom) says; where that says nothing, its address
/// in normal form; without an address its title, its time and its author, in
/// small letters.
pub proof fn law_identifier_is_what_the_item_says(
    nodes: Seq<XmlView>,
    p: int,
    source: Seq<char>,
    atom: bool,
    t: Seq<char>,
)
    requires
        0 <= p < nodes.len(),
    ensures
        ({
            let article = xml_article(nodes, p, source, atom);
            let key = if atom {
                "id"@
            } else {
                "guid"@
            };
            &&& says(nodes, p, key, t) ==> article.stable_id == t
            &&& is_silent(nodes, p, key) && article.url is Some ==> article.stable_id == "url:"@
                + normal_url(article.url->0)
            &&& is_silent(nodes, p, key) && article.url is None && article.author is Some
                && article.published_at is Some ==> article.stable_id == "fallback:"@
                + small_letters(article.title) + "|"@ + decimal_int(
                article.published_at->0 as int,
            ) + "|"@ + small_letters(trim(article.author->0))
            &&& is_silent(nodes, p, key) && article.url is None && article.author is Some
                && article.published_at is None ==> article.stable_id == "fallback:"@
                + small_letters(article.title) + "|"@ + "undated"@ + "|"@ + small_letters(
                trim(article.author->0),
            )
            &&& is_silent(nodes, p, key) && article.url is None && article.author is None
                && article.published_at is Some ==> article.stable_id == "fallback:"@
                + small_letters(article.title) + "|"@ + decimal_int(
                article.published_at->0 as int,
            ) + "|"@ + small_letters(trim(""@))
            &&& is_silent(nodes, p, key) && article.url is None && article.author is None
                && article.published_at is None ==> article.stable_id == "fallback:"@
                + small_letters(article.title) + "|"@ + "undated"@ + "|"@ + small_letters(
                trim(""@),
            )
        }),
{
    lemma_child_text(nodes, p, "id"@);
    lemma_child_text(nodes, p, "guid"@);
}

/// The enclosure of an article is what its first child named `enclosure` names:
/// its address, under `url` (`href` in Atom) and seen from the address of the
/// document, and its type.
pub proof fn law_enclosure_is_what_the_item_names(
    nodes: Seq<XmlView>,
    p: int,
    source: Seq<char>,
    atom: bool,
    e: int,
    v: Seq<char>,
)
    requires
        0 <= p < nodes.len(),
    ensures
        ({
            let article = xml_article(nodes, p, source, atom);
            let key = if atom {
                "href"@
            } else {
                "url"@
            };
            let is = is_first_child(nodes, p, e, "enclosure"@);
            &&& is && has_attribute(nodes[e], key, v) ==> article.enclosure_url == resolved(
                source,
                v,
            )
            &&& is && lacks_attribute(nodes[e], key) ==> article.enclosure_url is None
            &&& is && has_attribute(nodes[e], "type"@, v) ==> article.enclosure_type == Some(v)
            &&& is && lacks_attribute(nodes[e], "type"@) ==> article.enclosure_type is None
            &&& (forall|c: int| !#[trigger] is_child(nodes, p, c, "enclosure"@))
                ==> article.enclosure_url is None && article.enclosure_type is None
        }),
{
    lemma_child(nodes, p, "enclosure"@);
    lemma_attribute(nodes[e], "href"@);
    lemma_attribute(nodes[e], "url"@);
    lemma_attribute(nodes[e], "type"@);
}

/// A child of `p` named `category` names a category: by its term, else by its
/// text.
pub open spec fn names_category(nodes: Seq<XmlView>, p: int, c: int, name: Seq<char>) -> bool {
    &&& is_child(nodes, p, c, "category"@)
    &&& has_attribute(nodes[c], "term"@, name) || (lacks_attribute(nodes[c], "term"@) && node_says(
        nodes[c],
        name,
    ))
}

proof fn lemma_categories(nodes: Seq<XmlView>, list: Seq<int>, name: Seq<char>)
    ensures
        category_texts(nodes, list).contains(name) <==> exists|k: int|
            0 <= k < list.len() && either(
                attribute(nodes[#[trigger] list[k]], "term"@),
                node_text(nodes[list[k]]),
            ) == Some(name),
    decreases list.len(),
{
    if list.len() > 0 {
        let n = list.len() - 1;
        let shorter = list.drop_last();
        lemma_categories(nodes, shorter, name);
        let before = category_texts(nodes, shorter);
        let all = category_texts(nodes, list);
        let own = either(attribute(nodes[list[n]], "term"@), node_text(nodes[list[n]]));
        if all.contains(name) {
            let j = choose|j: int| 0 <= j < all.len() && all[j] == name;
            if j < before.len() {
                assert(before[j] == name);
                let k = choose|k: int|
                    0 <= k < shorter.len() && either(
                        attribute(nodes[#[trigger] shorter[k]], "term"@),
                        node_text(nodes[shorter[k]]),
                    ) == Some(name);
                assert(list[k] == shorter[k]);
            } else {
                assert(own == Some(name));
                assert(list[n] == list.last());
            }
        }
        if exists|k: int|
            0 <= k < list.len() && either(
                attribute(nodes[#[trigger] list[k]], "term"@),
                node_text(nodes[list[k]]),
            ) == Some(name) {
            let k = choose|k: int|
                0 <= k < list.len() && either(
                    attribute(nodes[#[trigger] list[k]], "term"@),
                    node_text(nodes[list[k]]),
                ) == Some(name);
            if k < n {
                assert(shorter[k] == list[k]);
                let j = choose|j: int| 0 <= j < before.len() && before[j] == name;
                assert(all[j] == name);
            } else {
                assert(all[before.len() as int] == name);
            }
        }
    }
}

/// The categories of an article are those that its children named `category`
/// name and that are not blank, each once.
pub proof fn law_categories_are_what_the_item_names(
    nodes: Seq<XmlView>,
    p: int,
    source: Seq<char>,
    atom: bool,
    name: Seq<char>,
)
    requires
        0 <= p < nodes.len(),
    ensures
        ({
            let categories = xml_article(nodes, p, source, atom).categories;
            &&& categories.contains(name) <==> trim(name).len() > 0 && exists|c: int| #[trigger]
                names_category(nodes, p, c, name)
            &&& categories.no_duplicates()
        }),
{
    let list = children(nodes, p, "category"@);
    lemma_children(nodes, p, "category"@);
    let wanted = is_below(nodes, p, "category"@, true);
    let texts = category_texts(nodes, list);
    lemma_categories(nodes, list, name);
    lemma_distinct_texts(texts, name);
    if texts.contains(name) {
        let k = choose|k: int|
            0 <= k < list.len() && either(
                attribute(nodes[#[trigger] list[k]], "term"@),
                node_text(nodes[list[k]]),
            ) == Some(name);
        lemma_attribute(nodes[list[k]], "term"@);
        assert(wanted(list[k]));
        assert(names_category(nodes, p, list[k], name));
    }
    if exists|c: int| #[trigger] names_category(nodes, p, c, name) {
        let c = choose|c: int| #[trigger] names_category(nodes, p, c, name);
        assert(wanted(c));
        let k = choose|k: int| 0 <= k < list.len() && list[k] == c;
        lemma_attribute(nodes[list[k]], "term"@);
        assert(either(attribute(nodes[list[k]], "term"@), node_text(nodes[list[k]])) == Some(name));
    }
}

proof fn lemma_spoken(values: Seq<Seq<char>>, name: Seq<char>)
    ensures
        spoken(values).contains(name) <==> values.contains(name) && trim(name).len() > 0,
    decreases values.len(),
{
    if values.len() > 0 {
        let n = values.len() - 1;
        let shorter = values.drop_last();
        let before = spoken(shorter);
        let all = spoken(values);
        lemma_spoken(shorter, name);
        if all.contains(name) {
            let j = choose|j: int| 0 <= j < all.len() && all[j] == name;
            if j < before.len() {
                assert(before[j] == name);
                let k = choose|k: int| 0 <= k < shorter.len() && shorter[k] == name;
                assert(values[k] == name);
            } else {
                assert(values[n] == name);
            }
        }
        if values.contains(name) && trim(name).len() > 0 {
            let k = choose|k: int| 0 <= k < values.len() && values[k] == name;
            if k < n {
                assert(shorter[k] == name);
                let j = choose|j: int| 0 <= j < before.len() && before[j] == name;
                assert(all[j] == name);
            } else {
                assert(all[before.len() as int] == name);
            }
        }
    }
}

/// Of texts those that are not blank are kept, each once.
pub proof fn lemma_distinct_texts(values: Seq<Seq<char>>, name: Seq<char>)
    ensures
        distinct_texts(values).contains(name) <==> values.contains(name) && trim(name).len() > 0,
        distinct_texts(values).no_duplicates(),
{
    let list = spoken(values);
    lemma_spoken(values, name);
    law_first_of_each_is_kept(list, list);
    let at = choose|at: Seq<int>|
        {
            &&& #[trigger] are_the_places(at, list.len() as int, comes_first(list))
            &&& firsts(list, list) == at.map_values(|i: int| list[i])
        };
    let kept = distinct_texts(values);
    assert(kept == firsts(list, list));
    assert forall|i: int, j: int| 0 <= i < kept.len() && 0 <= j < kept.len() && i
        != j implies kept[i] != kept[j] by {
        if i < j {
            assert(comes_first(list)(at[j]));
            assert(at[i] < at[j]);
            assert(list[at[i]] != list[at[j]]);
        } else {
            assert(comes_first(list)(at[i]));
            assert(at[j] < at[i]);
            assert(list[at[j]] != list[at[i]]);
        }
    }
    if list.contains(name) {
        let k = choose|k: int| 0 <= k < list.len() && list[k] == name;
        let f = lemma_first_such(list, k);
        assert(comes_first(list)(f));
        let m = choose|m: int| 0 <= m < at.len() && at[m] == f;
        assert(kept[m] == name);
    }
    if kept.contains(name) {
        let m = choose|m: int| 0 <= m < kept.len() && kept[m] == name;
        assert(comes_first(list)(at[m]));
        assert(list[at[m]] == name);
    }
}

/// The first place of a text in a list.
pub proof fn lemma_first_such(list: Seq<Seq<char>>, k: int) -> (f: int)
    requires
        0 <= k < list.len(),
    ensures
        0 <= f <= k,
        list[f] == list[k],
        forall|j: int| 0 <= j < f ==> #[trigger] list[j] != list[f],
    decreases k,
{
    if exists|j: int| 0 <= j < k && #[trigger] list[j] == list[k] {
        let j = choose|j: int| 0 <= j < k && #[trigger] list[j] == list[k];
        lemma_first_such(list, j)
    } else {
        k
    }
}

} // verus!
