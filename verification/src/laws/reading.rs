//! Which blocks an article for reading has, said of the elements of its HTML.

use crate::html::{parsed_fragment, HtmlView};
use crate::laws::places::are_the_places;
use crate::reader::{
    block_at, fragment_blocks, is_shut, link_at, links_from, read_html, safe_address, texts_from,
    with_node, with_nodes, words_at, BlockView, ReaderError,
};
use crate::text::{byte_len, collapse, join};
use crate::web::{joined_url, parsed_url, AddressView};
use vstd::prelude::*;

verus! {

/// The nodes of a fragment in document order: the first holds all others, and
/// a node is at most one step deeper than the one before it.
pub open spec fn is_tree(nodes: Seq<HtmlView>) -> bool {
    &&& nodes.len() > 0
    &&& forall|i: int|
        0 < i < nodes.len() ==> nodes[0].depth < (#[trigger] nodes[i]).depth <= nodes[i - 1].depth
            + 1
}

/// The node `q` lies inside the node `a`.
pub open spec fn lies_inside(nodes: Seq<HtmlView>, a: int, q: int) -> bool {
    &&& 0 <= a < q < nodes.len()
    &&& forall|k: int| a < k <= q ==> (#[trigger] nodes[k]).depth > nodes[a].depth
}

/// The element is one whose inside is not for reading.
pub open spec fn is_kept_out(name: Seq<char>) -> bool {
    name == "script"@ || name == "style"@ || name == "noscript"@ || name == "iframe"@ || name
        == "object"@ || name == "embed"@
}

/// The element is a heading of a level.
pub open spec fn is_heading(name: Seq<char>, level: int) -> bool {
    ||| name == "h1"@ && level == 1
    ||| name == "h2"@ && level == 2
    ||| name == "h3"@ && level == 3
    ||| name == "h4"@ && level == 4
    ||| name == "h5"@ && level == 5
    ||| name == "h6"@ && level == 6
}

/// The element is shown as one block of text.
pub open spec fn is_text_block(name: Seq<char>) -> bool {
    name == "h1"@ || name == "h2"@ || name == "h3"@ || name == "h4"@ || name == "h5"@ || name
        == "h6"@ || name == "p"@ || name == "blockquote"@ || name == "pre"@ || name == "li"@
}

/// Nothing inside the node makes a block of its own: it is no element, or its
/// inside is not for reading, or it is shown as one block.
pub open spec fn is_closed(node: HtmlView) -> bool {
    node.name is None || is_kept_out(node.name->0) || is_text_block(node.name->0) || node.name->0
        == "img"@
}

/// No node round `q` is closed, but for the one that holds all.
pub open spec fn is_open_way(nodes: Seq<HtmlView>, q: int) -> bool {
    forall|a: int| 0 < a && #[trigger] lies_inside(nodes, a, q) ==> !is_closed(nodes[a])
}

/// A node makes a block: it is reached, and it is an element of text with some
/// words or a picture with an address that may be shown.
pub open spec fn makes_block(nodes: Seq<HtmlView>, base: Option<Seq<char>>) -> spec_fn(
    int,
) -> bool {
    |q: int|
        {
            &&& 0 < q < nodes.len()
            &&& is_open_way(nodes, q)
            &&& nodes[q].name is Some
            &&& (is_text_block(nodes[q].name->0) && words_at(nodes, q).len() > 0) || (
            nodes[q].name->0 == "img"@ && nodes[q].src is Some && safe_address(
                nodes[q].src->0,
                base,
            ) is Some)
        }
}

/// A block shows the node `q`.
pub open spec fn shows_node(
    nodes: Seq<HtmlView>,
    q: int,
    base: Option<Seq<char>>,
    block: BlockView,
) -> bool {
    let name = nodes[q].name->0;
    match block {
        BlockView::Heading { level, text } => is_heading(name, level as int) && text == words_at(
            nodes,
            q,
        ),
        BlockView::Paragraph { text, links } => name == "p"@ && text == words_at(nodes, q) && links
            == links_from(nodes, q, q, base),
        BlockView::Quote(text) => name == "blockquote"@ && text == words_at(nodes, q),
        BlockView::Code(text) => name == "pre"@ && text == words_at(nodes, q),
        BlockView::ListItem(text) => name == "li"@ && text == words_at(nodes, q),
        BlockView::Image { url, alt } => {
            &&& name == "img"@
            &&& Some(url) == safe_address(nodes[q].src->0, base)
            &&& nodes[q].alt is Some ==> alt == collapse(nodes[q].alt->0)
            &&& nodes[q].alt is None ==> alt == collapse("Article image"@)
        },
    }
}

/// The first place at `i` or behind it that is no deeper than `d`.
spec fn end_of(nodes: Seq<HtmlView>, d: int, i: int) -> int
    decreases nodes.len() - i,
{
    if i >= nodes.len() || nodes[i].depth <= d {
        i
    } else {
        end_of(nodes, d, i + 1)
    }
}

/// The places from `lo` on and below `hi` that make a block.
spec fn made_in(nodes: Seq<HtmlView>, base: Option<Seq<char>>, lo: int, hi: int) -> Seq<int>
    decreases hi - lo,
{
    if lo >= hi {
        Seq::empty()
    } else {
        let rest = made_in(nodes, base, lo + 1, hi);
        if makes_block(nodes, base)(lo) {
            seq![lo] + rest
        } else {
            rest
        }
    }
}

spec fn blocks_of(nodes: Seq<HtmlView>, base: Option<Seq<char>>, at: Seq<int>) -> Seq<BlockView> {
    at.map_values(|q: int| block_at(nodes, q, base)->0->0)
}

proof fn lemma_names()
    ensures
        "script"@ == seq!['s', 'c', 'r', 'i', 'p', 't'],
        "style"@ == seq!['s', 't', 'y', 'l', 'e'],
        "noscript"@ == seq!['n', 'o', 's', 'c', 'r', 'i', 'p', 't'],
        "iframe"@ == seq!['i', 'f', 'r', 'a', 'm', 'e'],
        "object"@ == seq!['o', 'b', 'j', 'e', 'c', 't'],
        "embed"@ == seq!['e', 'm', 'b', 'e', 'd'],
        "h1"@ == seq!['h', '1'],
        "h2"@ == seq!['h', '2'],
        "h3"@ == seq!['h', '3'],
        "h4"@ == seq!['h', '4'],
        "h5"@ == seq!['h', '5'],
        "h6"@ == seq!['h', '6'],
        "p"@ == seq!['p'],
        "blockquote"@ == seq!['b', 'l', 'o', 'c', 'k', 'q', 'u', 'o', 't', 'e'],
        "pre"@ == seq!['p', 'r', 'e'],
        "li"@ == seq!['l', 'i'],
        "img"@ == seq!['i', 'm', 'g'],
{
    reveal_strlit("script");
    reveal_strlit("style");
    reveal_strlit("noscript");
    reveal_strlit("iframe");
    reveal_strlit("object");
    reveal_strlit("embed");
    reveal_strlit("h1");
    reveal_strlit("h2");
    reveal_strlit("h3");
    reveal_strlit("h4");
    reveal_strlit("h5");
    reveal_strlit("h6");
    reveal_strlit("p");
    reveal_strlit("blockquote");
    reveal_strlit("pre");
    reveal_strlit("li");
    reveal_strlit("img");
    assert("script"@ =~= seq!['s', 'c', 'r', 'i', 'p', 't']);
    assert("style"@ =~= seq!['s', 't', 'y', 'l', 'e']);
    assert("noscript"@ =~= seq!['n', 'o', 's', 'c', 'r', 'i', 'p', 't']);
    assert("iframe"@ =~= seq!['i', 'f', 'r', 'a', 'm', 'e']);
    assert("object"@ =~= seq!['o', 'b', 'j', 'e', 'c', 't']);
    assert("embed"@ =~= seq!['e', 'm', 'b', 'e', 'd']);
    assert("h1"@ =~= seq!['h', '1']);
    assert("h2"@ =~= seq!['h', '2']);
    assert("h3"@ =~= seq!['h', '3']);
    assert("h4"@ =~= seq!['h', '4']);
    assert("h5"@ =~= seq!['h', '5']);
    assert("h6"@ =~= seq!['h', '6']);
    assert("p"@ =~= seq!['p']);
    assert("blockquote"@ =~= seq!['b', 'l', 'o', 'c', 'k', 'q', 'u', 'o', 't', 'e']);
    assert("pre"@ =~= seq!['p', 'r', 'e']);
    assert("li"@ =~= seq!['l', 'i']);
    assert("img"@ =~= seq!['i', 'm', 'g']);
}

/// What a node by itself adds.
proof fn lemma_one_node(nodes: Seq<HtmlView>, q: int, base: Option<Seq<char>>)
    requires
        0 < q < nodes.len(),
        is_open_way(nodes, q),
    ensures
        ({
            let node = nodes[q];
            let made = makes_block(nodes, base)(q);
            &&& is_closed(node) <==> (node.name is None || is_shut(node.name->0) || block_at(
                nodes,
                q,
                base,
            ) is Some)
            &&& made ==> node.name is Some && !is_shut(node.name->0) && block_at(
                nodes,
                q,
                base,
            ) is Some && block_at(nodes, q, base)->0 is Some && shows_node(
                nodes,
                q,
                base,
                block_at(nodes, q, base)->0->0,
            )
            &&& !made && node.name is Some && !is_shut(node.name->0) && block_at(
                nodes,
                q,
                base,
            ) is Some ==> block_at(nodes, q, base)->0 is None
        }),
{
    lemma_names();
}

proof fn lemma_end(nodes: Seq<HtmlView>, d: int, i: int)
    requires
        0 <= i <= nodes.len(),
    ensures
        i <= end_of(nodes, d, i) <= nodes.len(),
        forall|k: int| i <= k < end_of(nodes, d, i) ==> (#[trigger] nodes[k]).depth > d,
        end_of(nodes, d, i) < nodes.len() ==> nodes[end_of(nodes, d, i)].depth <= d,
    decreases nodes.len() - i,
{
    if i < nodes.len() && nodes[i].depth > d {
        lemma_end(nodes, d, i + 1);
    }
}

proof fn lemma_made_join(
    nodes: Seq<HtmlView>,
    base: Option<Seq<char>>,
    lo: int,
    mid: int,
    hi: int,
)
    requires
        lo <= mid <= hi,
    ensures
        made_in(nodes, base, lo, hi) == made_in(nodes, base, lo, mid) + made_in(
            nodes,
            base,
            mid,
            hi,
        ),
    decreases mid - lo,
{
    if lo < mid {
        lemma_made_join(nodes, base, lo + 1, mid, hi);
        let rest = made_in(nodes, base, lo + 1, mid);
        let tail = made_in(nodes, base, mid, hi);
        if makes_block(nodes, base)(lo) {
            assert(seq![lo] + (rest + tail) =~= (seq![lo] + rest) + tail);
        }
    } else {
        assert(made_in(nodes, base, lo, mid) + made_in(nodes, base, mid, hi) =~= made_in(
            nodes,
            base,
            mid,
            hi,
        ));
    }
}

proof fn lemma_none_made(nodes: Seq<HtmlView>, base: Option<Seq<char>>, lo: int, hi: int)
    requires
        forall|q: int| lo <= q < hi ==> !#[trigger] makes_block(nodes, base)(q),
    ensures
        made_in(nodes, base, lo, hi) == Seq::<int>::empty(),
    decreases hi - lo,
{
    if lo < hi {
        lemma_none_made(nodes, base, lo + 1, hi);
    }
}

proof fn lemma_blocks_join(
    nodes: Seq<HtmlView>,
    base: Option<Seq<char>>,
    a: Seq<int>,
    b: Seq<int>,
)
    ensures
        blocks_of(nodes, base, a + b) == blocks_of(nodes, base, a) + blocks_of(nodes, base, b),
{
    assert(blocks_of(nodes, base, a + b) =~= blocks_of(nodes, base, a) + blocks_of(
        nodes,
        base,
        b,
    ));
}

/// The blocks that a node and what lies inside it add.
proof fn lemma_node(
    nodes: Seq<HtmlView>,
    p: int,
    base: Option<Seq<char>>,
    blocks: Seq<BlockView>,
)
    requires
        is_tree(nodes),
        0 < p < nodes.len(),
        is_open_way(nodes, p),
    ensures
        ({
            let at = made_in(nodes, base, p, end_of(nodes, nodes[p].depth as int, p + 1));
            let all = blocks + blocks_of(nodes, base, at);
            match with_node(nodes, p, base, blocks) {
                Ok(next) => next == all,
                Err(error) => error == ReaderError::TooManyBlocks && all.len() >= 10_000,
            }
        }),
    decreases nodes.len() - p, 0int,
{
    let d = nodes[p].depth as int;
    let end = end_of(nodes, d, p + 1);
    lemma_end(nodes, d, p + 1);
    lemma_one_node(nodes, p, base);
    lemma_made_join(nodes, base, p, p + 1, end);
    let below = made_in(nodes, base, p + 1, end);
    assert(made_in(nodes, base, p + 1, p + 1) == Seq::<int>::empty());
    let own = made_in(nodes, base, p, p + 1);
    if makes_block(nodes, base)(p) {
        assert(own =~= seq![p]);
    } else {
        assert(own =~= Seq::<int>::empty());
    }
    lemma_blocks_join(nodes, base, own, below);
    if is_closed(nodes[p]) {
        assert forall|q: int| p + 1 <= q < end implies !#[trigger] makes_block(nodes, base)(q) by {
            assert(lies_inside(nodes, p, q));
        }
        lemma_none_made(nodes, base, p + 1, end);
        assert(own + below =~= own);
        if makes_block(nodes, base)(p) {
            let block = block_at(nodes, p, base)->0->0;
            assert(blocks_of(nodes, base, own) =~= seq![block]);
            assert(blocks + seq![block] =~= blocks.push(block));
        } else {
            assert(blocks + blocks_of(nodes, base, own) =~= blocks);
        }
    } else {
        assert(own + below =~= below);
        lemma_nodes(nodes, p, p + 1, base, blocks);
        assert(end_of(nodes, d + 1, p + 1) == p + 1) by {
            if p + 1 < nodes.len() {
                assert(nodes[p + 1].depth <= nodes[p + 1 - 1].depth + 1);
            }
        }
    }
}

/// The blocks that the nodes directly inside `p`, from `i` on, and what lies
/// inside them add.
proof fn lemma_nodes(
    nodes: Seq<HtmlView>,
    p: int,
    i: int,
    base: Option<Seq<char>>,
    blocks: Seq<BlockView>,
)
    requires
        is_tree(nodes),
        0 <= p < i <= nodes.len(),
        p > 0 ==> is_open_way(nodes, p) && !is_closed(nodes[p]),
        forall|k: int| p < k < i ==> (#[trigger] nodes[k]).depth > nodes[p].depth,
    ensures
        ({
            let d = nodes[p].depth as int;
            let at = made_in(nodes, base, end_of(nodes, d + 1, i), end_of(nodes, d, i));
            let all = blocks + blocks_of(nodes, base, at);
            match with_nodes(nodes, p, i, base, blocks) {
                Ok(next) => next == all,
                Err(error) => error == ReaderError::TooManyBlocks && all.len() >= 10_000,
            }
        }),
    decreases nodes.len() - i, 1int,
{
    let d = nodes[p].depth as int;
    let end = end_of(nodes, d, i);
    lemma_end(nodes, d, i);
    lemma_end(nodes, d + 1, i);
    if i >= nodes.len() || nodes[i].depth <= d {
        assert(blocks + blocks_of(nodes, base, Seq::empty()) =~= blocks);
    } else {
        assert(end == end_of(nodes, d, i + 1));
        assert(lies_inside(nodes, p, i));
        if nodes[i].depth == d + 1 {
            assert(is_open_way(nodes, i)) by {
                assert forall|a: int| 0 < a && #[trigger] lies_inside(
                    nodes,
                    a,
                    i,
                ) implies !is_closed(nodes[a]) by {
                    if a < p {
                        assert forall|k: int| a < k <= p implies (#[trigger] nodes[k]).depth
                            > nodes[a].depth by {}
                        assert(lies_inside(nodes, a, p));
                    } else if a > p {
                        assert(nodes[a].depth > d);
                        assert(nodes[i].depth > nodes[a].depth);
                        assert(false);
                    }
                }
            }
            lemma_node(nodes, i, base, blocks);
            let mid = end_of(nodes, d + 1, i + 1);
            lemma_end(nodes, d + 1, i + 1);
            let first = made_in(nodes, base, i, mid);
            let rest = made_in(nodes, base, mid, end);
            lemma_end(nodes, d, i + 1);
            assert(mid <= end) by {
                if mid > end {
                    assert(nodes[end].depth > d + 1);
                }
            }
            lemma_made_join(nodes, base, i, mid, end);
            lemma_blocks_join(nodes, base, first, rest);
            assert(end_of(nodes, d + 1, i) == i);
            let whole = blocks + blocks_of(nodes, base, first + rest);
            match with_node(nodes, i, base, blocks) {
                Ok(next) => {
                    lemma_nodes(nodes, p, i + 1, base, next);
                    assert(next + blocks_of(nodes, base, rest) =~= whole);
                },
                Err(_) => {
                    assert(whole.len() >= (blocks + blocks_of(nodes, base, first)).len());
                },
            }
        } else {
            lemma_nodes(nodes, p, i + 1, base, blocks);
        }
    }
}

proof fn lemma_made_places(nodes: Seq<HtmlView>, base: Option<Seq<char>>, lo: int, hi: int)
    requires
        0 <= lo <= hi,
    ensures
        ({
            let at = made_in(nodes, base, lo, hi);
            let wanted = makes_block(nodes, base);
            &&& forall|k: int|
                0 <= k < at.len() ==> lo <= #[trigger] at[k] < hi && wanted(at[k])
            &&& forall|k: int, m: int|
                0 <= k < m < at.len() ==> #[trigger] at[k] < #[trigger] at[m]
            &&& forall|q: int| lo <= q < hi && #[trigger] wanted(q) ==> at.contains(q)
        }),
    decreases hi - lo,
{
    if lo < hi {
        lemma_made_places(nodes, base, lo + 1, hi);
        let at = made_in(nodes, base, lo, hi);
        let rest = made_in(nodes, base, lo + 1, hi);
        let wanted = makes_block(nodes, base);
        if wanted(lo) {
            assert(at == seq![lo] + rest);
            assert forall|k: int| 0 <= k < at.len() implies lo <= #[trigger] at[k] < hi && wanted(
                at[k],
            ) by {
                if k > 0 {
                    assert(at[k] == rest[k - 1]);
                }
            }
            assert forall|k: int, m: int| 0 <= k < m < at.len() implies #[trigger] at[k]
                < #[trigger] at[m] by {
                assert(at[m] == rest[m - 1]);
                if k > 0 {
                    assert(at[k] == rest[k - 1]);
                }
            }
            assert forall|q: int| lo <= q < hi && #[trigger] wanted(q) implies at.contains(q) by {
                if q == lo {
                    assert(at[0] == q);
                } else {
                    let k = choose|k: int| 0 <= k < rest.len() && rest[k] == q;
                    assert(at[k + 1] == q);
                }
            }
        }
    }
}

/// An article for reading shows its HTML: it has a block for every heading,
/// paragraph, quote, piece of code and list item with some words, and for
/// every picture with an address that may be shown, at whatever depth, unless
/// an element round it is shown as one block itself or is a script, a style, a
/// frame or the like. It has no other blocks, and they stand in the order of
/// the HTML. Only an article with ten thousand blocks or more may be refused.
pub proof fn law_blocks_show_the_html(nodes: Seq<HtmlView>, base: Option<Seq<char>>)
    requires
        is_tree(nodes),
    ensures
        exists|at: Seq<int>|
            {
                &&& #[trigger] are_the_places(at, nodes.len() as int, makes_block(nodes, base))
                &&& at.len() < 10_000 ==> fragment_blocks(nodes, base) is Ok
                &&& match fragment_blocks(nodes, base) {
                    Ok(blocks) => blocks.len() == at.len() && forall|k: int|
                        0 <= k < at.len() ==> shows_node(
                            nodes,
                            at[k],
                            base,
                            #[trigger] blocks[k],
                        ),
                    Err(error) => error == ReaderError::TooManyBlocks,
                }
            },
{
    let n = nodes.len() as int;
    let d = nodes[0].depth as int;
    lemma_nodes(nodes, 0, 1, base, Seq::empty());
    lemma_end(nodes, d, 1);
    lemma_end(nodes, d + 1, 1);
    let end = end_of(nodes, d, 1);
    if end < n {
        assert(nodes[end].depth > d);
    }
    let start = end_of(nodes, d + 1, 1);
    if 1 < n {
        assert(nodes[1].depth <= nodes[1 - 1].depth + 1);
    }
    assert(start == 1);
    let at = made_in(nodes, base, 1, n);
    lemma_made_places(nodes, base, 1, n);
    let wanted = makes_block(nodes, base);
    assert(are_the_places(at, n, wanted)) by {
        assert forall|q: int| 0 <= q < n && #[trigger] wanted(q) implies at.contains(q) by {
            assert(q >= 1);
        }
    }
    let all = Seq::<BlockView>::empty() + blocks_of(nodes, base, at);
    assert(all =~= blocks_of(nodes, base, at));
    match fragment_blocks(nodes, base) {
        Ok(blocks) => {
            assert forall|k: int| 0 <= k < at.len() implies shows_node(
                nodes,
                at[k],
                base,
                #[trigger] blocks[k],
            ) by {
                assert(wanted(at[k]));
                lemma_one_node(nodes, at[k], base);
            }
        },
        Err(_) => {},
    }
}

/// A node at `p` or inside it that has a text.
pub open spec fn has_text(nodes: Seq<HtmlView>, p: int) -> spec_fn(int) -> bool {
    |i: int| (i == p || lies_inside(nodes, p, i)) && nodes[i].text is Some
}

/// The words of an element are the words of all texts in it, at whatever depth,
/// in their order.
pub proof fn law_words_are_those_of_all_texts(nodes: Seq<HtmlView>, p: int)
    requires
        0 <= p < nodes.len(),
    ensures
        exists|at: Seq<int>|
            {
                &&& #[trigger] are_the_places(at, nodes.len() as int, has_text(nodes, p))
                &&& words_at(nodes, p) == collapse(
                    join(at.map_values(|i: int| nodes[i].text->0), " "@),
                )
            },
{
    let at = lemma_texts(nodes, p, p);
    assert(are_the_places(at, nodes.len() as int, has_text(nodes, p)));
}

proof fn lemma_texts(nodes: Seq<HtmlView>, p: int, i: int) -> (at: Seq<int>)
    requires
        0 <= p <= i <= nodes.len(),
        p < nodes.len(),
        forall|k: int| p < k < i ==> (#[trigger] nodes[k]).depth > nodes[p].depth,
    ensures
        forall|k: int|
            0 <= k < at.len() ==> i <= #[trigger] at[k] < nodes.len() && has_text(nodes, p)(at[k]),
        forall|k: int, m: int| 0 <= k < m < at.len() ==> #[trigger] at[k] < #[trigger] at[m],
        forall|q: int| i <= q && #[trigger] has_text(nodes, p)(q) ==> at.contains(q),
        texts_from(nodes, p, i) == at.map_values(|j: int| nodes[j].text->0),
    decreases nodes.len() - i,
{
    let wanted = has_text(nodes, p);
    if i >= nodes.len() || (i > p && nodes[i].depth <= nodes[p].depth) {
        assert forall|q: int| i <= q implies !#[trigger] wanted(q) by {
            if lies_inside(nodes, p, q) {
                assert(nodes[i].depth > nodes[p].depth);
            }
        }
        let at = Seq::<int>::empty();
        assert(texts_from(nodes, p, i) =~= at.map_values(|j: int| nodes[j].text->0));
        at
    } else {
        let rest = lemma_texts(nodes, p, i + 1);
        if nodes[i].text is Some {
            assert(i > p ==> lies_inside(nodes, p, i));
            let at = seq![i] + rest;
            assert forall|k: int| 0 <= k < at.len() implies i <= #[trigger] at[k] < nodes.len()
                && wanted(at[k]) by {
                if k > 0 {
                    assert(at[k] == rest[k - 1]);
                }
            }
            assert forall|k: int, m: int| 0 <= k < m < at.len() implies #[trigger] at[k]
                < #[trigger] at[m] by {
                assert(at[m] == rest[m - 1]);
                if k > 0 {
                    assert(at[k] == rest[k - 1]);
                }
            }
            assert forall|q: int| i <= q && #[trigger] wanted(q) implies at.contains(q) by {
                if q == i {
                    assert(at[0] == q);
                } else {
                    let k = choose|k: int| 0 <= k < rest.len() && rest[k] == q;
                    assert(at[k + 1] == q);
                }
            }
            assert(texts_from(nodes, p, i) =~= at.map_values(|j: int| nodes[j].text->0));
            at
        } else {
            rest
        }
    }
}

/// An anchor at `p` or inside it, with some words and an address that may be
/// shown.
pub open spec fn is_anchor(nodes: Seq<HtmlView>, p: int, base: Option<Seq<char>>) -> spec_fn(
    int,
) -> bool {
    |i: int|
        {
            &&& i == p || lies_inside(nodes, p, i)
            &&& nodes[i].name == Some("a"@)
            &&& nodes[i].href is Some
            &&& safe_address(nodes[i].href->0, base) is Some
            &&& words_at(nodes, i).len() > 0
        }
}

/// The links of a paragraph are those of its anchors that have some words and
/// an address that may be shown: all of them, in their order, each with its
/// own words and its own address.
pub proof fn law_links_are_those_of_all_anchors(
    nodes: Seq<HtmlView>,
    p: int,
    base: Option<Seq<char>>,
)
    requires
        0 <= p < nodes.len(),
    ensures
        exists|at: Seq<int>|
            {
                let links = links_from(nodes, p, p, base);
                &&& #[trigger] are_the_places(at, nodes.len() as int, is_anchor(nodes, p, base))
                &&& links.len() == at.len()
                &&& forall|k: int|
                    0 <= k < at.len() ==> (#[trigger] links[k]).text == words_at(nodes, at[k])
                        && Some(links[k].url) == safe_address(nodes[at[k]].href->0, base)
            },
{
    let at = lemma_anchors(nodes, p, p, base);
    assert(are_the_places(at, nodes.len() as int, is_anchor(nodes, p, base)));
}

proof fn lemma_anchors(nodes: Seq<HtmlView>, p: int, i: int, base: Option<Seq<char>>) -> (at: Seq<
    int,
>)
    requires
        0 <= p <= i <= nodes.len(),
        p < nodes.len(),
        forall|k: int| p < k < i ==> (#[trigger] nodes[k]).depth > nodes[p].depth,
    ensures
        forall|k: int|
            0 <= k < at.len() ==> i <= #[trigger] at[k] < nodes.len() && is_anchor(nodes, p, base)(
                at[k],
            ),
        forall|k: int, m: int| 0 <= k < m < at.len() ==> #[trigger] at[k] < #[trigger] at[m],
        forall|q: int| i <= q && #[trigger] is_anchor(nodes, p, base)(q) ==> at.contains(q),
        links_from(nodes, p, i, base).len() == at.len(),
        forall|k: int|
            0 <= k < at.len() ==> (#[trigger] links_from(nodes, p, i, base)[k]).text == words_at(
                nodes,
                at[k],
            ) && Some(links_from(nodes, p, i, base)[k].url) == safe_address(
                nodes[at[k]].href->0,
                base,
            ),
    decreases nodes.len() - i,
{
    let wanted = is_anchor(nodes, p, base);
    if i >= nodes.len() || (i > p && nodes[i].depth <= nodes[p].depth) {
        assert forall|q: int| i <= q implies !#[trigger] wanted(q) by {
            if lies_inside(nodes, p, q) {
                assert(nodes[i].depth > nodes[p].depth);
            }
        }
        Seq::empty()
    } else {
        let rest = lemma_anchors(nodes, p, i + 1, base);
        let others = links_from(nodes, p, i + 1, base);
        let links = links_from(nodes, p, i, base);
        assert(i > p ==> lies_inside(nodes, p, i));
        if link_at(nodes, i, base) is Some {
            let at = seq![i] + rest;
            assert(links == seq![link_at(nodes, i, base)->0] + others);
            assert forall|k: int| 0 <= k < at.len() implies i <= #[trigger] at[k] < nodes.len()
                && wanted(at[k]) by {
                if k > 0 {
                    assert(at[k] == rest[k - 1]);
                }
            }
            assert forall|k: int, m: int| 0 <= k < m < at.len() implies #[trigger] at[k]
                < #[trigger] at[m] by {
                assert(at[m] == rest[m - 1]);
                if k > 0 {
                    assert(at[k] == rest[k - 1]);
                }
            }
            assert forall|q: int| i <= q && #[trigger] wanted(q) implies at.contains(q) by {
                if q == i {
                    assert(at[0] == q);
                } else {
                    let k = choose|k: int| 0 <= k < rest.len() && rest[k] == q;
                    assert(at[k + 1] == q);
                }
            }
            assert forall|k: int| 0 <= k < at.len() implies (#[trigger] links[k]).text == words_at(
                nodes,
                at[k],
            ) && Some(links[k].url) == safe_address(nodes[at[k]].href->0, base) by {
                if k > 0 {
                    assert(links[k] == others[k - 1]);
                    assert(at[k] == rest[k - 1]);
                }
            }
            at
        } else {
            assert(links == others);
            rest
        }
    }
}

/// An address that is one by itself is taken as it is, wherever the article
/// comes from, if it is HTTP or HTTPS, and not at all if it is another; what is
/// none by itself is seen from the page that the article comes from, and is
/// none where there is no such page.
pub proof fn law_addresses_are_seen_from_the_page(
    value: Seq<char>,
    base: Seq<char>,
    address: AddressView,
)
    ensures
        parsed_url(value) == Some(address) && (address.scheme == "http"@ || address.scheme
            == "https"@) ==> safe_address(value, None) == Some(address.href) && safe_address(
            value,
            Some(base),
        ) == Some(address.href),
        parsed_url(value) == Some(address) && address.scheme != "http"@ && address.scheme
            != "https"@ ==> safe_address(value, None) is None && safe_address(
            value,
            Some(base),
        ) is None,
        parsed_url(value) is None ==> safe_address(value, None) is None,
        parsed_url(value) is None && joined_url(base, value) == Some(address) && (address.scheme
            == "http"@ || address.scheme == "https"@) ==> safe_address(value, Some(base)) == Some(
            address.href,
        ),
        parsed_url(value) is None && joined_url(base, value) == Some(address) && address.scheme
            != "http"@ && address.scheme != "https"@ ==> safe_address(value, Some(base)) is None,
        parsed_url(value) is None && joined_url(base, value) is None ==> safe_address(
            value,
            Some(base),
        ) is None,
{
}

/// A piece of HTML is refused where it is longer than two mebibytes or the page
/// that it comes from has no address, and for no other reason before its blocks
/// are counted.
pub proof fn law_html_is_read(input: Seq<char>, base: Option<Seq<char>>)
    ensures
        byte_len(input) > 2_097_152 ==> read_html(input, base) == Err::<
            Seq<BlockView>,
            ReaderError,
        >(ReaderError::InputTooLarge),
        byte_len(input) <= 2_097_152 && base is Some && parsed_url(base->0) is None ==> read_html(
            input,
            base,
        ) == Err::<Seq<BlockView>, ReaderError>(ReaderError::InvalidBaseUrl),
        byte_len(input) <= 2_097_152 && (base is None || parsed_url(base->0) is Some) ==> read_html(
            input,
            base,
        ) == fragment_blocks(parsed_fragment(input), base),
{
}

} // verus!
