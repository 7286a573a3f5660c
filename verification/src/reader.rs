//! Articles for reading: the blocks of a piece of HTML.

use crate::html::{html_views, parse_fragment, parsed_fragment, HtmlNode, HtmlView};
use crate::identity::borrowed;
use crate::text::{byte_len, collapse, collapsed, join, joined, same, view_of, views};
use crate::web::{join_address, joined_url, parse_address, parsed_url, web_href, web_text};
use vstd::prelude::*;


verus! {

/// The longest piece of HTML that is read, in bytes.
pub const MAX_HTML_BYTES: usize = 2_097_152;

/// The most blocks that an article may have.
pub const MAX_BLOCKS: usize = 10_000;

/// An article for reading.
#[derive(Debug, Clone, PartialEq, Eq)]
pub struct Document {
    pub blocks: Vec<Block>,
}

/// A block of an article.
#[derive(Debug, Clone, PartialEq, Eq)]
pub enum Block {
    Heading { level: u8, text: String },
    Paragraph { text: String, links: Vec<Link> },
    Quote(String),
    Code(String),
    ListItem(String),
    Image { url: String, alt: String },
}

/// A link inside a paragraph.
#[derive(Debug, Clone, PartialEq, Eq)]
pub struct Link {
    pub text: String,
    pub url: String,
}

/// What a [`Link`] holds.
pub struct LinkView {
    pub text: Seq<char>,
    pub url: Seq<char>,
}

impl View for Link {
    type V = LinkView;

    open spec fn view(&self) -> LinkView {
        LinkView { text: self.text@, url: self.url@ }
    }
}

/// What the links of a list hold.
pub open spec fn link_views(list: Seq<Link>) -> Seq<LinkView> {
    Seq::new(list.len(), |i: int| list[i]@)
}

/// What a [`Block`] holds.
pub enum BlockView {
    Heading { level: u8, text: Seq<char> },
    Paragraph { text: Seq<char>, links: Seq<LinkView> },
    Quote(Seq<char>),
    Code(Seq<char>),
    ListItem(Seq<char>),
    Image { url: Seq<char>, alt: Seq<char> },
}

impl View for Block {
    type V = BlockView;

    open spec fn view(&self) -> BlockView {
        match self {
            Block::Heading { level, text } => BlockView::Heading { level: *level, text: text@ },
            Block::Paragraph { text, links } => BlockView::Paragraph {
                text: text@,
                links: link_views(links@),
            },
            Block::Quote(text) => BlockView::Quote(text@),
            Block::Code(text) => BlockView::Code(text@),
            Block::ListItem(text) => BlockView::ListItem(text@),
            Block::Image { url, alt } => BlockView::Image { url: url@, alt: alt@ },
        }
    }
}

/// What the blocks of a list hold.
pub open spec fn block_views(list: Seq<Block>) -> Seq<BlockView> {
    Seq::new(list.len(), |i: int| list[i]@)
}

/// Why a piece of HTML is refused.
#[derive(Debug, Clone, Copy, PartialEq, Eq, Structural)]
pub enum ReaderError {
    InputTooLarge,
    TooManyBlocks,
    InvalidBaseUrl,
}

impl ReaderError {
    /// What the error says.
    pub open spec fn text(self) -> Seq<char> {
        match self {
            ReaderError::InputTooLarge => "article HTML exceeds the reader limit"@,
            ReaderError::TooManyBlocks => "article contains too many blocks"@,
            ReaderError::InvalidBaseUrl => "article base URL is invalid"@,
        }
    }

    /// The message for a reader.
    pub fn message(&self) -> (r: String)
        ensures
            r@ == self.text(),
    {
        match self {
            ReaderError::InputTooLarge => "article HTML exceeds the reader limit".to_owned(),
            ReaderError::TooManyBlocks => "article contains too many blocks".to_owned(),
            ReaderError::InvalidBaseUrl => "article base URL is invalid".to_owned(),
        }
    }
}

/// The address that a text names, by itself or seen from a base: HTTP or HTTPS,
/// or nothing.
pub open spec fn safe_address(value: Seq<char>, base: Option<Seq<char>>) -> Option<Seq<char>> {
    match parsed_url(value) {
        Some(address) => web_text(Some(address)),
        None => match base {
            Some(b) => web_text(joined_url(b, value)),
            None => None,
        },
    }
}

fn safe_url(value: &str, base: Option<&str>) -> (r: Option<String>)
    ensures
        view_of(r) == safe_address(value@, borrowed(base)),
{
    match parse_address(value) {
        Some(address) => web_href(Some(address)),
        None => match base {
            Some(b) => web_href(join_address(b, value)),
            None => None,
        },
    }
}

/// The texts at `p` and below it, from `i` on.
pub open spec fn texts_from(nodes: Seq<HtmlView>, p: int, i: int) -> Seq<Seq<char>>
    decreases nodes.len() - i,
{
    if i >= nodes.len() || (i > p && nodes[i].depth <= nodes[p].depth) {
        Seq::empty()
    } else {
        let rest = texts_from(nodes, p, i + 1);
        match nodes[i].text {
            Some(text) => seq![text] + rest,
            None => rest,
        }
    }
}

/// The words at `p` and below it.
pub open spec fn words_at(nodes: Seq<HtmlView>, p: int) -> Seq<char> {
    collapse(join(texts_from(nodes, p, p), " "@))
}

fn text_of(nodes: &Vec<HtmlNode>, p: usize) -> (r: String)
    requires
        p < nodes@.len(),
    ensures
        r@ == words_at(html_views(nodes@), p as int),
{
    let ghost all = html_views(nodes@);
    let ghost whole = texts_from(all, p as int, p as int);
    let mut texts: Vec<String> = Vec::new();
    let mut i: usize = p;
    assert(views(texts@) + whole == whole);
    while i < nodes.len() && (i == p || nodes[i].depth > nodes[p].depth)
        invariant
            p <= i <= nodes@.len(),
            p < nodes@.len(),
            all == html_views(nodes@),
            whole == views(texts@) + texts_from(all, p as int, i as int),
        decreases nodes@.len() - i,
    {
        assert(all[i as int] == nodes@[i as int]@);
        assert(all[p as int] == nodes@[p as int]@);
        let ghost sofar = views(texts@);
        let ghost rest = texts_from(all, p as int, i + 1);
        if let Some(text) = &nodes[i].text {
            texts.push(text.clone());
            assert(views(texts@) == sofar.push(text@));
            assert(sofar + (seq![text@] + rest) == sofar.push(text@) + rest);
        }
        i += 1;
    }
    assert(i < nodes@.len() ==> all[i as int] == nodes@[i as int]@);
    assert(all[p as int] == nodes@[p as int]@);
    assert(views(texts@) + texts_from(all, p as int, i as int) == views(texts@));
    let line = joined(&texts, " ");
    collapsed(line.as_str())
}

/// The link that the node at `i` makes: an anchor with a safe address and some
/// words.
pub open spec fn link_at(nodes: Seq<HtmlView>, i: int, base: Option<Seq<char>>) -> Option<
    LinkView,
> {
    let node = nodes[i];
    if node.name == Some("a"@) && node.href is Some && words_at(nodes, i).len() > 0 {
        match safe_address(node.href->0, base) {
            Some(url) => Some(LinkView { text: words_at(nodes, i), url }),
            None => None,
        }
    } else {
        None
    }
}

fn read_link(nodes: &Vec<HtmlNode>, i: usize, base: Option<&str>) -> (r: Option<Link>)
    requires
        i < nodes@.len(),
    ensures
        match r {
            Some(link) => link_at(html_views(nodes@), i as int, borrowed(base)) == Some(link@),
            None => link_at(html_views(nodes@), i as int, borrowed(base)) is None,
        },
{
    assert(html_views(nodes@)[i as int] == nodes@[i as int]@);
    match &nodes[i].name {
        Some(name) => {
            if !same(name.as_str(), "a") {
                return None;
            }
        },
        None => {
            return None;
        },
    }
    match &nodes[i].href {
        Some(href) => {
            let text = text_of(nodes, i);
            if text.as_str().is_empty() {
                return None;
            }
            match safe_url(href.as_str(), base) {
                Some(url) => Some(Link { text, url }),
                None => None,
            }
        },
        None => None,
    }
}

/// The links at `p` and below it, from `i` on.
pub open spec fn links_from(
    nodes: Seq<HtmlView>,
    p: int,
    i: int,
    base: Option<Seq<char>>,
) -> Seq<LinkView>
    decreases nodes.len() - i,
{
    if i >= nodes.len() || (i > p && nodes[i].depth <= nodes[p].depth) {
        Seq::empty()
    } else {
        let rest = links_from(nodes, p, i + 1, base);
        match link_at(nodes, i, base) {
            Some(link) => seq![link] + rest,
            None => rest,
        }
    }
}

fn collect_links(nodes: &Vec<HtmlNode>, p: usize, base: Option<&str>) -> (r: Vec<Link>)
    requires
        p < nodes@.len(),
    ensures
        link_views(r@) == links_from(html_views(nodes@), p as int, p as int, borrowed(base)),
{
    let ghost all = html_views(nodes@);
    let ghost whole = links_from(all, p as int, p as int, borrowed(base));
    let mut out: Vec<Link> = Vec::new();
    let mut i: usize = p;
    assert(link_views(out@) + whole == whole);
    while i < nodes.len() && (i == p || nodes[i].depth > nodes[p].depth)
        invariant
            p <= i <= nodes@.len(),
            p < nodes@.len(),
            all == html_views(nodes@),
            whole == link_views(out@) + links_from(all, p as int, i as int, borrowed(base)),
        decreases nodes@.len() - i,
    {
        assert(all[i as int] == nodes@[i as int]@);
        assert(all[p as int] == nodes@[p as int]@);
        let ghost sofar = link_views(out@);
        let ghost rest = links_from(all, p as int, i + 1, borrowed(base));
        if let Some(link) = read_link(nodes, i, base) {
            out.push(link);
            assert(link_views(out@) == sofar.push(link@));
            assert(sofar + (seq![link@] + rest) == sofar.push(link@) + rest);
        }
        i += 1;
    }
    assert(i < nodes@.len() ==> all[i as int] == nodes@[i as int]@);
    assert(all[p as int] == nodes@[p as int]@);
    assert(link_views(out@) + links_from(all, p as int, i as int, borrowed(base)) == link_views(
        out@,
    ));
    out
}

/// What lies inside an element with this name is not for reading.
pub open spec fn is_shut(name: Seq<char>) -> bool {
    name == "script"@ || name == "style"@ || name == "noscript"@ || name == "iframe"@ || name
        == "object"@ || name == "embed"@
}

fn shut(name: &str) -> (r: bool)
    ensures
        r == is_shut(name@),
{
    same(name, "script") || same(name, "style") || same(name, "noscript") || same(name, "iframe")
        || same(name, "object") || same(name, "embed")
}

/// The level of a heading, by the name of its element.
pub open spec fn heading_level(name: Seq<char>) -> Option<u8> {
    if name == "h1"@ {
        Some(1)
    } else if name == "h2"@ {
        Some(2)
    } else if name == "h3"@ {
        Some(3)
    } else if name == "h4"@ {
        Some(4)
    } else if name == "h5"@ {
        Some(5)
    } else if name == "h6"@ {
        Some(6)
    } else {
        None
    }
}

fn level_of(name: &str) -> (r: Option<u8>)
    ensures
        r == heading_level(name@),
{
    if same(name, "h1") {
        Some(1)
    } else if same(name, "h2") {
        Some(2)
    } else if same(name, "h3") {
        Some(3)
    } else if same(name, "h4") {
        Some(4)
    } else if same(name, "h5") {
        Some(5)
    } else if same(name, "h6") {
        Some(6)
    } else {
        None
    }
}

/// An element that makes a block by itself, or none where it has nothing to
/// show; an element that is only a frame for others makes nothing at all.
pub open spec fn block_at(nodes: Seq<HtmlView>, p: int, base: Option<Seq<char>>) -> Option<
    Option<BlockView>,
> {
    let node = nodes[p];
    let name = node.name->0;
    let words = words_at(nodes, p);
    if heading_level(name) is Some || name == "p"@ || name == "blockquote"@ || name == "pre"@
        || name == "li"@ {
        Some(
            if words.len() == 0 {
                None
            } else if heading_level(name) is Some {
                Some(BlockView::Heading { level: heading_level(name)->0, text: words })
            } else if name == "p"@ {
                Some(BlockView::Paragraph { text: words, links: links_from(nodes, p, p, base) })
            } else if name == "blockquote"@ {
                Some(BlockView::Quote(words))
            } else if name == "pre"@ {
                Some(BlockView::Code(words))
            } else {
                Some(BlockView::ListItem(words))
            },
        )
    } else if name == "img"@ {
        Some(
            match node.src {
                Some(src) => match safe_address(src, base) {
                    Some(url) => Some(
                        BlockView::Image {
                            url,
                            alt: collapse(
                                match node.alt {
                                    Some(alt) => alt,
                                    None => "Article image"@,
                                },
                            ),
                        },
                    ),
                    None => None,
                },
                None => None,
            },
        )
    } else {
        None
    }
}

fn read_image(node: &HtmlNode, base: Option<&str>) -> (r: Option<Block>)
    ensures
        match r {
            Some(block) => node@.src is Some && safe_address(node@.src->0, borrowed(base)) is Some
                && block@ == (BlockView::Image {
                url: safe_address(node@.src->0, borrowed(base))->0,
                alt: collapse(
                    match node@.alt {
                        Some(alt) => alt,
                        None => "Article image"@,
                    },
                ),
            }),
            None => node@.src is None || safe_address(node@.src->0, borrowed(base)) is None,
        },
{
    match &node.src {
        Some(src) => match safe_url(src.as_str(), base) {
            Some(url) => {
                let alt = match &node.alt {
                    Some(alt) => collapsed(alt.as_str()),
                    None => collapsed("Article image"),
                };
                Some(Block::Image { url, alt })
            },
            None => None,
        },
        None => None,
    }
}

fn read_block(nodes: &Vec<HtmlNode>, p: usize, name: &str, base: Option<&str>) -> (r: Option<
    Option<Block>,
>)
    requires
        p < nodes@.len(),
        nodes@[p as int]@.name == Some(name@),
    ensures
        match r {
            Some(made) => block_at(html_views(nodes@), p as int, borrowed(base)) == Some(
                match made {
                    Some(block) => Some(block@),
                    None => None,
                },
            ),
            None => block_at(html_views(nodes@), p as int, borrowed(base)) is None,
        },
{
    assert(html_views(nodes@)[p as int] == nodes@[p as int]@);
    let level = level_of(name);
    let paragraph = same(name, "p");
    let quote = same(name, "blockquote");
    let code = same(name, "pre");
    if level.is_some() || paragraph || quote || code || same(name, "li") {
        let text = text_of(nodes, p);
        if text.as_str().is_empty() {
            return Some(None);
        }
        match level {
            Some(level) => Some(Some(Block::Heading { level, text })),
            None => if paragraph {
                let links = collect_links(nodes, p, base);
                Some(Some(Block::Paragraph { text, links }))
            } else if quote {
                Some(Some(Block::Quote(text)))
            } else if code {
                Some(Some(Block::Code(text)))
            } else {
                Some(Some(Block::ListItem(text)))
            },
        }
    } else if same(name, "img") {
        Some(read_image(&nodes[p], base))
    } else {
        None
    }
}

/// `blocks` and what the node at `p` adds to them.
pub open spec fn with_node(
    nodes: Seq<HtmlView>,
    p: int,
    base: Option<Seq<char>>,
    blocks: Seq<BlockView>,
) -> Result<Seq<BlockView>, ReaderError>
    decreases nodes.len() - p, 0int,
{
    let node = nodes[p];
    if blocks.len() >= MAX_BLOCKS {
        Err(ReaderError::TooManyBlocks)
    } else if node.name is None || is_shut(node.name->0) {
        Ok(blocks)
    } else {
        match block_at(nodes, p, base) {
            Some(made) => match made {
                Some(block) => Ok(blocks.push(block)),
                None => Ok(blocks),
            },
            None => if 0 <= p < nodes.len() {
                with_nodes(nodes, p, p + 1, base, blocks)
            } else {
                Ok(blocks)
            },
        }
    }
}

/// `blocks` and what the nodes directly below `p`, from `i` on, add to them.
pub open spec fn with_nodes(
    nodes: Seq<HtmlView>,
    p: int,
    i: int,
    base: Option<Seq<char>>,
    blocks: Seq<BlockView>,
) -> Result<Seq<BlockView>, ReaderError>
    decreases nodes.len() - i, 1int,
{
    if i >= nodes.len() || nodes[i].depth <= nodes[p].depth {
        Ok(blocks)
    } else if nodes[i].depth == nodes[p].depth + 1 {
        match with_node(nodes, i, base, blocks) {
            Ok(next) => with_nodes(nodes, p, i + 1, base, next),
            Err(error) => Err(error),
        }
    } else {
        with_nodes(nodes, p, i + 1, base, blocks)
    }
}

fn collect_blocks(nodes: &Vec<HtmlNode>, p: usize, base: Option<&str>, blocks: &mut Vec<Block>) -> (r:
    Result<(), ReaderError>)
    requires
        p < nodes@.len(),
    ensures
        match with_node(html_views(nodes@), p as int, borrowed(base), block_views(old(blocks)@)) {
            Ok(next) => r is Ok && block_views(final(blocks)@) == next,
            Err(error) => r == Err::<(), ReaderError>(error),
        },
    decreases nodes@.len() - p, 0int,
{
    let ghost before = block_views(blocks@);
    assert(html_views(nodes@)[p as int] == nodes@[p as int]@);
    if blocks.len() >= MAX_BLOCKS {
        return Err(ReaderError::TooManyBlocks);
    }
    let count: usize = nodes.len();
    match &nodes[p].name {
        Some(name) => {
            if shut(name.as_str()) {
                return Ok(());
            }
            match read_block(nodes, p, name.as_str(), base) {
                Some(made) => {
                    if let Some(block) = made {
                        blocks.push(block);
                        assert(block_views(blocks@) == before.push(block@));
                    }
                    Ok(())
                },
                None => collect_children(nodes, p, p + 1, base, blocks),
            }
        },
        None => Ok(()),
    }
}

fn collect_children(
    nodes: &Vec<HtmlNode>,
    p: usize,
    from: usize,
    base: Option<&str>,
    blocks: &mut Vec<Block>,
) -> (r: Result<(), ReaderError>)
    requires
        p < from <= nodes@.len(),
    ensures
        match with_nodes(
            html_views(nodes@),
            p as int,
            from as int,
            borrowed(base),
            block_views(old(blocks)@),
        ) {
            Ok(next) => r is Ok && block_views(final(blocks)@) == next,
            Err(error) => r == Err::<(), ReaderError>(error),
        },
    decreases nodes@.len() - from, 1int,
{
    let ghost all = html_views(nodes@);
    let ghost wanted = with_nodes(
        all,
        p as int,
        from as int,
        borrowed(base),
        block_views(old(blocks)@),
    );
    let mut i: usize = from;
    while i < nodes.len() && nodes[i].depth > nodes[p].depth
        invariant
            p < from <= i <= nodes@.len(),
            all == html_views(nodes@),
            wanted == with_nodes(
                all,
                p as int,
                from as int,
                borrowed(base),
                block_views(old(blocks)@),
            ),
            wanted == with_nodes(all, p as int, i as int, borrowed(base), block_views(blocks@)),
        decreases nodes@.len() - i,
    {
        assert(all[i as int] == nodes@[i as int]@);
        assert(all[p as int] == nodes@[p as int]@);
        if nodes[i].depth - nodes[p].depth == 1 {
            match collect_blocks(nodes, i, base, blocks) {
                Ok(()) => {},
                Err(error) => {
                    return Err(error);
                },
            }
        }
        i += 1;
    }
    assert(i < nodes@.len() ==> all[i as int] == nodes@[i as int]@);
    assert(all[p as int] == nodes@[p as int]@);
    Ok(())
}

/// The blocks of a fragment.
pub open spec fn fragment_blocks(nodes: Seq<HtmlView>, base: Option<Seq<char>>) -> Result<
    Seq<BlockView>,
    ReaderError,
> {
    if nodes.len() == 0 {
        Ok(Seq::empty())
    } else {
        with_nodes(nodes, 0, 1, base, Seq::empty())
    }
}

/// What comes of reading a piece of HTML.
pub open spec fn document_result(r: Result<Document, ReaderError>) -> Result<
    Seq<BlockView>,
    ReaderError,
> {
    match r {
        Ok(document) => Ok(block_views(document.blocks@)),
        Err(error) => Err(error),
    }
}

/// The article in the nodes of a fragment, with links seen from `base`.
pub fn document_of_nodes(nodes: &Vec<HtmlNode>, base: Option<&str>) -> (r: Result<
    Document,
    ReaderError,
>)
    ensures
        document_result(r) == fragment_blocks(html_views(nodes@), borrowed(base)),
{
    let mut blocks: Vec<Block> = Vec::new();
    assert(block_views(blocks@) == Seq::<BlockView>::empty());
    if nodes.len() == 0 {
        return Ok(Document { blocks });
    }
    match collect_children(nodes, 0, 1, base, &mut blocks) {
        Ok(()) => Ok(Document { blocks }),
        Err(error) => Err(error),
    }
}

/// What comes of a text: refusal of an overlong one or of a base that is no
/// URL, else the blocks of the fragment.
pub open spec fn read_html(input: Seq<char>, base: Option<Seq<char>>) -> Result<
    Seq<BlockView>,
    ReaderError,
> {
    if byte_len(input) > MAX_HTML_BYTES {
        Err(ReaderError::InputTooLarge)
    } else if base is Some && parsed_url(base->0) is None {
        Err(ReaderError::InvalidBaseUrl)
    } else {
        fragment_blocks(parsed_fragment(input), base)
    }
}

/// The article in `input`, a piece of HTML from the page at `base_url`.
pub fn parse_feed_html(input: &str, base_url: Option<&str>) -> (r: Result<Document, ReaderError>)
    ensures
        document_result(r) == read_html(input@, borrowed(base_url)),
{
    if input.as_bytes().len() > MAX_HTML_BYTES {
        return Err(ReaderError::InputTooLarge);
    }
    if let Some(base) = base_url {
        if parse_address(base).is_none() {
            return Err(ReaderError::InvalidBaseUrl);
        }
    }
    let nodes = parse_fragment(input);
    document_of_nodes(&nodes, base_url)
}

/// A link with some words and an HTTP or HTTPS address.
pub open spec fn is_sound_link(link: LinkView) -> bool {
    link.text.len() > 0 && crate::web::is_web_address(link.url)
}

/// A block with something to show, whose addresses are HTTP or HTTPS.
pub open spec fn is_sound_block(block: BlockView) -> bool {
    match block {
        BlockView::Heading { level, text } => 1 <= level <= 6 && text.len() > 0,
        BlockView::Paragraph { text, links } => text.len() > 0 && forall|i: int|
            0 <= i < links.len() ==> is_sound_link(#[trigger] links[i]),
        BlockView::Quote(text) => text.len() > 0,
        BlockView::Code(text) => text.len() > 0,
        BlockView::ListItem(text) => text.len() > 0,
        BlockView::Image { url, alt } => crate::web::is_web_address(url),
    }
}

/// Every block of a list is sound, and they are not too many.
pub open spec fn all_sound(blocks: Seq<BlockView>) -> bool {
    blocks.len() <= MAX_BLOCKS && forall|i: int|
        0 <= i < blocks.len() ==> is_sound_block(#[trigger] blocks[i])
}

proof fn lemma_links_sound(nodes: Seq<HtmlView>, p: int, i: int, base: Option<Seq<char>>)
    ensures
        forall|j: int|
            0 <= j < links_from(nodes, p, i, base).len() ==> is_sound_link(
                #[trigger] links_from(nodes, p, i, base)[j],
            ),
    decreases nodes.len() - i,
{
    if !(i >= nodes.len() || (i > p && nodes[i].depth <= nodes[p].depth)) {
        lemma_links_sound(nodes, p, i + 1, base);
        let rest = links_from(nodes, p, i + 1, base);
        let all = links_from(nodes, p, i, base);
        assert forall|j: int| 0 <= j < all.len() implies is_sound_link(#[trigger] all[j]) by {
            if link_at(nodes, i, base) is Some {
                if j > 0 {
                    assert(all[j] == rest[j - 1]);
                }
            } else {
                assert(all[j] == rest[j]);
            }
        }
    }
}

proof fn lemma_node_sound(
    nodes: Seq<HtmlView>,
    p: int,
    base: Option<Seq<char>>,
    blocks: Seq<BlockView>,
)
    requires
        all_sound(blocks),
    ensures
        with_node(nodes, p, base, blocks) is Ok ==> all_sound(
            with_node(nodes, p, base, blocks)->Ok_0,
        ),
    decreases nodes.len() - p, 0int,
{
    if blocks.len() < MAX_BLOCKS && nodes[p].name is Some && !is_shut(nodes[p].name->0) {
        match block_at(nodes, p, base) {
            Some(made) => {
                lemma_links_sound(nodes, p, p, base);
                if made is Some {
                    assert(is_sound_block(made->0));
                }
            },
            None => if 0 <= p < nodes.len() {
                lemma_nodes_sound(nodes, p, p + 1, base, blocks);
            },
        }
    }
}

proof fn lemma_nodes_sound(
    nodes: Seq<HtmlView>,
    p: int,
    i: int,
    base: Option<Seq<char>>,
    blocks: Seq<BlockView>,
)
    requires
        all_sound(blocks),
    ensures
        with_nodes(nodes, p, i, base, blocks) is Ok ==> all_sound(
            with_nodes(nodes, p, i, base, blocks)->Ok_0,
        ),
    decreases nodes.len() - i, 1int,
{
    if i < nodes.len() && nodes[i].depth > nodes[p].depth {
        if nodes[i].depth == nodes[p].depth + 1 {
            lemma_node_sound(nodes, i, base, blocks);
            if with_node(nodes, i, base, blocks) is Ok {
                lemma_nodes_sound(nodes, p, i + 1, base, with_node(nodes, i, base, blocks)->Ok_0);
            }
        } else {
            lemma_nodes_sound(nodes, p, i + 1, base, blocks);
        }
    }
}

/// Whatever the HTML, an article for reading has at most the permitted number
/// of blocks, none of its texts is empty, and every address in it, of a link
/// or of a picture, is HTTP or HTTPS.
pub proof fn law_articles_are_safe(nodes: Seq<HtmlView>, base: Option<Seq<char>>)
    ensures
        fragment_blocks(nodes, base) is Ok ==> all_sound(fragment_blocks(nodes, base)->Ok_0),
{
    if nodes.len() > 0 {
        lemma_nodes_sound(nodes, 0, 1, base, Seq::empty());
    }
}

} // verus!
