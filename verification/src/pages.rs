//! Articles cut into pages.

use crate::reader::{block_views, Block, BlockView, Document};
use crate::text::{join, joined, split_words, views, words};
use vstd::prelude::*;

verus! {

/// How a piece of text is set.
#[derive(Debug, Clone, Copy, PartialEq, Eq, Structural)]
pub enum PageStyle {
    Heading(u8),
    Body,
    Quote,
    Code,
    ListItem,
}

/// A piece of a page.
#[derive(Debug, Clone, PartialEq, Eq)]
pub enum PageChunk {
    Text { style: PageStyle, text: String },
    Image { url: String, alt: String },
}

/// What a [`PageChunk`] holds.
pub enum ChunkView {
    Text { style: PageStyle, text: Seq<char> },
    Image { url: Seq<char>, alt: Seq<char> },
}

impl View for PageChunk {
    type V = ChunkView;

    open spec fn view(&self) -> ChunkView {
        match self {
            PageChunk::Text { style, text } => ChunkView::Text { style: *style, text: text@ },
            PageChunk::Image { url, alt } => ChunkView::Image { url: url@, alt: alt@ },
        }
    }
}

/// What the pieces of a list hold.
pub open spec fn chunk_views(list: Seq<PageChunk>) -> Seq<ChunkView> {
    Seq::new(list.len(), |i: int| list[i]@)
}

/// A page.
#[derive(Debug, Clone, PartialEq, Eq)]
pub struct Page {
    pub chunks: Vec<PageChunk>,
}

impl View for Page {
    type V = Seq<ChunkView>;

    open spec fn view(&self) -> Seq<ChunkView> {
        chunk_views(self.chunks@)
    }
}

/// What the pages of a list hold.
pub open spec fn page_views(list: Seq<Page>) -> Seq<Seq<ChunkView>> {
    Seq::new(list.len(), |i: int| list[i]@)
}

/// The heights of texts, by what they say and how they are set.
pub type Heights = spec_fn(Seq<char>, PageStyle) -> u32;

/// `measure` may say that a text is `height` high.
pub open spec fn says<F: Fn(&str, PageStyle) -> u32>(
    measure: F,
    text: Seq<char>,
    style: PageStyle,
    height: u32,
) -> bool {
    exists|t: &str| t@ == text && #[trigger] call_ensures(measure, (t, style), height)
}

/// The height that `measure` gives a text.
pub open spec fn measured<F: Fn(&str, PageStyle) -> u32>(
    measure: F,
    text: Seq<char>,
    style: PageStyle,
) -> u32 {
    choose|height: u32| says(measure, text, style, height)
}

/// The heights that `measure` gives.
pub open spec fn heights<F: Fn(&str, PageStyle) -> u32>(measure: F) -> Heights {
    |text: Seq<char>, style: PageStyle| measured(measure, text, style)
}

/// `measure` always gives a text set in one style one height.
pub open spec fn is_steady<F: Fn(&str, PageStyle) -> u32>(measure: F) -> bool {
    forall|t: &str, style: PageStyle, height: u32| #[trigger]
        call_ensures(measure, (t, style), height) ==> height == measured(measure, t@, style)
}

/// The sum of two heights, as far as a 32-bit number holds it.
pub open spec fn plus(a: u32, b: u32) -> u32 {
    if a + b > u32::MAX {
        u32::MAX
    } else {
        (a + b) as u32
    }
}

/// What is left of `a` when `b` is taken.
pub open spec fn less(a: u32, b: u32) -> u32 {
    if a < b {
        0
    } else {
        (a - b) as u32
    }
}

/// The smaller height.
pub open spec fn lower_of(a: u32, b: u32) -> u32 {
    if a < b {
        a
    } else {
        b
    }
}

/// The words from `start` to `end` in one line.
pub open spec fn line(all: Seq<Seq<char>>, start: int, end: int) -> Seq<char> {
    join(all.subrange(start, end), " "@)
}

/// The end of the longest run of words from `start` on that a search by halves
/// between `low` and `high` finds to be at most `room` high; `best` where it
/// finds none.
pub open spec fn search(
    all: Seq<Seq<char>>,
    start: int,
    style: PageStyle,
    room: u32,
    h: Heights,
    low: int,
    high: int,
    best: Option<int>,
) -> Option<int>
    decreases high - low + 1,
{
    if low > high {
        best
    } else {
        let middle = low + (high - low) / 2;
        if h(line(all, start, middle), style) <= room {
            search(all, start, style, room, h, middle + 1, high, Some(middle))
        } else {
            search(all, start, style, room, h, low, middle - 1, best)
        }
    }
}

/// Where the run of words that begins at `start` ends: one word at least.
pub open spec fn cut(all: Seq<Seq<char>>, start: int, style: PageStyle, room: u32, h: Heights) -> int {
    match search(all, start, style, room, h, start + 1, all.len() as int, None) {
        Some(end) => end,
        None => start + 1,
    }
}

/// Pages that are being filled: the pages so far, and how much of the last one
/// is used.
pub struct Filling {
    pub pages: Seq<Seq<ChunkView>>,
    pub used: u32,
}

impl Filling {
    /// One more page.
    pub open spec fn turned(self) -> Filling {
        Filling { pages: self.pages.push(Seq::empty()), used: 0 }
    }

    /// One more piece on the last page.
    pub open spec fn with(self, chunk: ChunkView, height: u32) -> Filling {
        Filling {
            pages: self.pages.drop_last().push(self.pages.last().push(chunk)),
            used: plus(self.used, height),
        }
    }
}

/// The room that is left for text.
pub open spec fn room_left(page: u32, gap: u32, used: u32) -> u32 {
    let room = less(less(page, used), gap);
    if room > 0 {
        room
    } else {
        1
    }
}

/// The pages with the words from `start` on: as many as fit go on the page that
/// is being filled, and a new page begins where none do or more are to come.
pub open spec fn with_words(
    all: Seq<Seq<char>>,
    start: int,
    style: PageStyle,
    page: u32,
    gap: u32,
    h: Heights,
    filling: Filling,
) -> Filling
    decreases
            all.len() - start,
            if filling.used > 0 {
                1int
            } else {
                0int
            },
{
    if start < 0 || start >= all.len() {
        filling
    } else {
        let end = cut(all, start, style, room_left(page, gap, filling.used), h);
        let text = line(all, start, end);
        let height = lower_of(h(text, style), page);
        if filling.used > 0 && plus(height, gap) > less(page, filling.used) {
            with_words(all, start, style, page, gap, h, filling.turned())
        } else if start < end <= all.len() {
            let next = filling.with(ChunkView::Text { style, text }, plus(height, gap));
            with_words(
                all,
                end,
                style,
                page,
                gap,
                h,
                if end < all.len() {
                    next.turned()
                } else {
                    next
                },
            )
        } else {
            filling
        }
    }
}

/// The text of a block and how it is set.
pub open spec fn block_text(block: BlockView) -> Option<(Seq<char>, PageStyle)> {
    match block {
        BlockView::Heading { level, text } => Some((text, PageStyle::Heading(level))),
        BlockView::Paragraph { text, links } => Some((text, PageStyle::Body)),
        BlockView::Quote(text) => Some((text, PageStyle::Quote)),
        BlockView::Code(text) => Some((text, PageStyle::Code)),
        BlockView::ListItem(text) => Some((text, PageStyle::ListItem)),
        BlockView::Image { url, alt } => None,
    }
}

/// The pages with one more block.
pub open spec fn with_block(
    block: BlockView,
    page: u32,
    gap: u32,
    image: u32,
    h: Heights,
    filling: Filling,
) -> Filling {
    match block {
        BlockView::Image { url, alt } => {
            let ready = if filling.used > 0 && plus(filling.used, plus(image, gap)) > page {
                filling.turned()
            } else {
                filling
            };
            ready.with(ChunkView::Image { url, alt }, plus(lower_of(image, page), gap))
        },
        _ => {
            let (text, style) = block_text(block)->0;
            with_words(words(text), 0, style, page, gap, h, filling)
        },
    }
}

/// The pages with the blocks of a list.
pub open spec fn filled(
    blocks: Seq<BlockView>,
    page: u32,
    gap: u32,
    image: u32,
    h: Heights,
) -> Filling
    decreases blocks.len(),
{
    if blocks.len() == 0 {
        Filling { pages: seq![Seq::empty()], used: 0 }
    } else {
        with_block(
            blocks.last(),
            page,
            gap,
            image,
            h,
            filled(blocks.drop_last(), page, gap, image, h),
        )
    }
}

/// The pages that hold something.
pub open spec fn taken(pages: Seq<Seq<ChunkView>>) -> Seq<Seq<ChunkView>>
    decreases pages.len(),
{
    if pages.len() == 0 {
        Seq::empty()
    } else if pages.last().len() > 0 {
        taken(pages.drop_last()).push(pages.last())
    } else {
        taken(pages.drop_last())
    }
}

/// The height of a page: at least one.
pub open spec fn page_size(height: u32) -> u32 {
    if height > 0 {
        height
    } else {
        1
    }
}

/// The pages of an article; an article with nothing in it has one empty page.
pub open spec fn paginated(
    blocks: Seq<BlockView>,
    page_height: u32,
    gap: u32,
    image: u32,
    h: Heights,
) -> Seq<Seq<ChunkView>> {
    let pages = taken(filled(blocks, page_size(page_height), gap, image, h).pages);
    if pages.len() == 0 {
        seq![Seq::empty()]
    } else {
        pages
    }
}

/// The pieces on the pages of a list, one after the other.
pub open spec fn chunks_of(pages: Seq<Seq<ChunkView>>) -> Seq<ChunkView>
    decreases pages.len(),
{
    if pages.len() == 0 {
        Seq::empty()
    } else {
        chunks_of(pages.drop_last()) + pages.last()
    }
}

/// The pieces are runs of words in one line each, set in one style, that make
/// up a text one after the other.
pub open spec fn are_runs(
    chunks: Seq<ChunkView>,
    all: Seq<Seq<char>>,
    style: PageStyle,
) -> bool
    decreases chunks.len(),
{
    if chunks.len() == 0 {
        all.len() == 0
    } else {
        exists|start: int|
            0 <= start < all.len() && chunks.last() == (ChunkView::Text {
                style,
                text: #[trigger] line(all, start, all.len() as int),
            }) && are_runs(chunks.drop_last(), all.take(start), style)
    }
}

/// The pieces show a block, and nothing else.
pub open spec fn show_block(chunks: Seq<ChunkView>, block: BlockView) -> bool {
    match block {
        BlockView::Image { url, alt } => chunks == seq![ChunkView::Image { url, alt }],
        _ => are_runs(chunks, words((block_text(block)->0).0), (block_text(block)->0).1),
    }
}

/// The pieces show the blocks of a list one after the other, and nothing else.
pub open spec fn show_blocks(chunks: Seq<ChunkView>, blocks: Seq<BlockView>) -> bool
    decreases blocks.len(),
{
    if blocks.len() == 0 {
        chunks.len() == 0
    } else {
        exists|at: int|
            0 <= at <= chunks.len() && show_block(#[trigger] chunks.skip(at), blocks.last())
                && show_blocks(chunks.take(at), blocks.drop_last())
    }
}

/// One more empty page holds no more pieces.
proof fn lemma_chunks_turned(pages: Seq<Seq<ChunkView>>)
    ensures
        chunks_of(pages.push(Seq::empty())) == chunks_of(pages),
{
    let more = pages.push(Seq::<ChunkView>::empty());
    assert(more.drop_last() == pages);
    assert(more.last() == Seq::<ChunkView>::empty());
}

/// One more piece on the last page is one more piece.
proof fn lemma_chunks_with(pages: Seq<Seq<ChunkView>>, chunk: ChunkView)
    requires
        pages.len() > 0,
    ensures
        chunks_of(pages.drop_last().push(pages.last().push(chunk))) == chunks_of(pages).push(chunk),
{
    let more = pages.drop_last().push(pages.last().push(chunk));
    assert(more.drop_last() == pages.drop_last());
    assert(more.last() == pages.last().push(chunk));
}

/// One more run behind runs.
proof fn lemma_one_more_run(
    chunks: Seq<ChunkView>,
    all: Seq<Seq<char>>,
    start: int,
    end: int,
    style: PageStyle,
)
    requires
        0 <= start < end <= all.len(),
        are_runs(chunks, all.take(start), style),
    ensures
        are_runs(
            chunks.push(ChunkView::Text { style, text: line(all, start, end) }),
            all.take(end),
            style,
        ),
{
    let more = chunks.push(ChunkView::Text { style, text: line(all, start, end) });
    let now = all.take(end);
    assert(more.drop_last() == chunks);
    assert(now.take(start) == all.take(start));
    assert(now.subrange(start, now.len() as int) == all.subrange(start, end));
    assert(line(now, start, now.len() as int) == line(all, start, end));
}

/// One more block behind blocks.
proof fn lemma_one_more_block(
    chunks: Seq<ChunkView>,
    more: Seq<ChunkView>,
    blocks: Seq<BlockView>,
    block: BlockView,
)
    requires
        show_blocks(chunks, blocks),
        chunks.len() <= more.len(),
        more.take(chunks.len() as int) == chunks,
        show_block(more.skip(chunks.len() as int), block),
    ensures
        show_blocks(more, blocks.push(block)),
{
    assert(blocks.push(block).drop_last() == blocks);
    assert(blocks.push(block).last() == block);
}

fn line_of(all: &Vec<String>, start: usize, end: usize) -> (r: String)
    requires
        start <= end <= all@.len(),
    ensures
        r@ == line(views(all@), start as int, end as int),
{
    let mut part: Vec<String> = Vec::new();
    let mut i: usize = start;
    while i < end
        invariant
            start <= i <= end <= all@.len(),
            views(part@) == views(all@).subrange(start as int, i as int),
        decreases end - i,
    {
        let ghost before = part@;
        part.push(all[i].clone());
        assert(views(part@) == views(before).push(all@[i as int]@));
        assert(views(all@).subrange(start as int, i + 1) == views(all@).subrange(
            start as int,
            i as int,
        ).push(all@[i as int]@));
        i += 1;
    }
    joined(&part, " ")
}

fn find_cut<F: Fn(&str, PageStyle) -> u32>(
    all: &Vec<String>,
    start: usize,
    style: PageStyle,
    room: u32,
    measure: &F,
) -> (r: usize)
    requires
        start < all@.len(),
        forall|t: &str, s: PageStyle| #[trigger] call_requires(*measure, (t, s)),
    ensures
        start < r <= all@.len(),
        is_steady(*measure) ==> r == cut(views(all@), start as int, style, room, heights(*measure)),
{
    let ghost texts = views(all@);
    let ghost h = heights(*measure);
    let count: usize = all.len();
    let mut low: usize = start + 1;
    let mut high: usize = count;
    let mut best: Option<usize> = None;
    while low <= high
        invariant
            start < low <= count + 1,
            start <= high <= count == all@.len(),
            texts == views(all@),
            h == heights(*measure),
            forall|t: &str, s: PageStyle| #[trigger] call_requires(*measure, (t, s)),
            best is Some ==> start < best->0 <= count,
            is_steady(*measure) ==> search(
                texts,
                start as int,
                style,
                room,
                h,
                start + 1,
                count as int,
                None,
            ) == search(
                texts,
                start as int,
                style,
                room,
                h,
                low as int,
                high as int,
                match best {
                    Some(end) => Some(end as int),
                    None => None,
                },
            ),
        decreases high + 1 - low,
    {
        let middle: usize = low + (high - low) / 2;
        let candidate = line_of(all, start, middle);
        let height = measure(candidate.as_str(), style);
        assert(is_steady(*measure) ==> height == h(line(texts, start as int, middle as int), style));
        if height <= room {
            best = Some(middle);
            if middle == count {
                assert(is_steady(*measure) ==> search(
                    texts,
                    start as int,
                    style,
                    room,
                    h,
                    middle + 1,
                    high as int,
                    Some(middle as int),
                ) == Some(middle as int));
                return middle;
            }
            low = middle + 1;
        } else {
            high = middle - 1;
        }
    }
    match best {
        Some(end) => end,
        None => start + 1,
    }
}

fn push_chunk(pages: &mut Vec<Page>, chunk: PageChunk)
    requires
        old(pages)@.len() > 0,
    ensures
        final(pages)@.len() == old(pages)@.len(),
        page_views(final(pages)@) == page_views(old(pages)@).drop_last().push(
            page_views(old(pages)@).last().push(chunk@),
        ),
{
    let ghost before = page_views(pages@);
    let mut page = pages.pop().unwrap();
    let ghost old_page = page@;
    assert(old_page == before.last());
    page.chunks.push(chunk);
    assert(page@ == old_page.push(chunk@));
    assert(page_views(pages@) == before.drop_last());
    pages.push(page);
    assert(page_views(pages@) == before.drop_last().push(page@));
}

fn push_page(pages: &mut Vec<Page>)
    ensures
        page_views(final(pages)@) == page_views(old(pages)@).push(Seq::empty()),
        final(pages)@.len() == old(pages)@.len() + 1,
{
    let ghost before = page_views(pages@);
    let page = Page { chunks: Vec::new() };
    assert(page@ == Seq::<ChunkView>::empty());
    pages.push(page);
    assert(page_views(pages@) == before.push(page@));
}

fn append_paginated_text<F: Fn(&str, PageStyle) -> u32>(
    text: &str,
    style: PageStyle,
    page_height: u32,
    gap: u32,
    measure: &F,
    pages: &mut Vec<Page>,
    used: u32,
) -> (r: u32)
    requires
        old(pages)@.len() > 0,
        forall|t: &str, s: PageStyle| #[trigger] call_requires(*measure, (t, s)),
    ensures
        final(pages)@.len() > 0,
        is_steady(*measure) ==> with_words(
            words(text@),
            0,
            style,
            page_height,
            gap,
            heights(*measure),
            (Filling { pages: page_views(old(pages)@), used }),
        ) == (Filling { pages: page_views(final(pages)@), used: r }),
        ({
            let before = chunks_of(page_views(old(pages)@));
            let after = chunks_of(page_views(final(pages)@));
            &&& before.len() <= after.len()
            &&& after.take(before.len() as int) == before
            &&& are_runs(after.skip(before.len() as int), words(text@), style)
        }),
{
    let all = split_words(text);
    let ghost texts = views(all@);
    let ghost first = chunks_of(page_views(pages@));
    assert(first.take(first.len() as int) == first);
    assert(first.skip(first.len() as int) == Seq::<ChunkView>::empty());
    assert(texts.take(0) == Seq::<Seq<char>>::empty());
    let ghost h = heights(*measure);
    let ghost steady = is_steady(*measure);
    let ghost wanted = with_words(
        texts,
        0,
        style,
        page_height,
        gap,
        h,
        Filling { pages: page_views(pages@), used },
    );
    let count: usize = all.len();
    let mut start: usize = 0;
    let mut used: u32 = used;
    while start < count
        invariant
            start <= count == all@.len(),
            texts == views(all@),
            h == heights(*measure),
            steady == is_steady(*measure),
            forall|t: &str, s: PageStyle| #[trigger] call_requires(*measure, (t, s)),
            pages@.len() > 0,
            first.len() <= chunks_of(page_views(pages@)).len(),
            chunks_of(page_views(pages@)).take(first.len() as int) == first,
            are_runs(
                chunks_of(page_views(pages@)).skip(first.len() as int),
                texts.take(start as int),
                style,
            ),
            steady ==> wanted == with_words(
                texts,
                start as int,
                style,
                page_height,
                gap,
                h,
                (Filling { pages: page_views(pages@), used }),
            ),
        decreases
                count - start,
                if used > 0 {
                    1int
                } else {
                    0int
                },
    {
        let left = page_height.saturating_sub(used).saturating_sub(gap);
        let room = if left > 0 {
            left
        } else {
            1
        };
        assert(room == room_left(page_height, gap, used));
        let end = find_cut(&all, start, style, room, measure);
        let chunk = line_of(&all, start, end);
        let measured_height = measure(chunk.as_str(), style);
        assert(steady ==> measured_height == h(line(texts, start as int, end as int), style));
        let height = if measured_height < page_height {
            measured_height
        } else {
            page_height
        };
        let ghost now = Filling { pages: page_views(pages@), used };
        let ghost held = chunks_of(page_views(pages@));
        if used > 0 && height.saturating_add(gap) > page_height.saturating_sub(used) {
            proof {
                lemma_chunks_turned(page_views(pages@));
            }
            push_page(pages);
            used = 0;
            assert((Filling { pages: page_views(pages@), used }) == now.turned());
        } else {
            let piece = PageChunk::Text { style, text: chunk };
            proof {
                lemma_chunks_with(page_views(pages@), piece@);
                lemma_one_more_run(
                    held.skip(first.len() as int),
                    texts,
                    start as int,
                    end as int,
                    style,
                );
                assert(held.push(piece@).take(first.len() as int) == held.take(first.len() as int));
                assert(held.push(piece@).skip(first.len() as int) == held.skip(
                    first.len() as int,
                ).push(piece@));
            }
            push_chunk(pages, piece);
            used = used.saturating_add(height.saturating_add(gap));
            let ghost next = now.with(piece@, plus(height, gap));
            assert((Filling { pages: page_views(pages@), used }) == next);
            start = end;
            if start < count {
                proof {
                    lemma_chunks_turned(page_views(pages@));
                }
                push_page(pages);
                used = 0;
                assert((Filling { pages: page_views(pages@), used }) == next.turned());
            }
        }
    }
    assert(texts.take(start as int) == texts);
    used
}

/// The pages of `document`, as high as `page_height`. Each block is followed by
/// a gap of `block_gap`, a picture takes `image_height`, and `measure` says how
/// high a text is. Whatever it says, the pages show the blocks one after the
/// other, all their words and pictures, each once and in order, and no page is
/// empty unless it is the only one. Where `measure` always says the same of the
/// same text, the pages are those of [`paginated`].
pub fn paginate<F: Fn(&str, PageStyle) -> u32>(
    document: &Document,
    page_height: u32,
    block_gap: u32,
    image_height: u32,
    measure: F,
) -> (r: Vec<Page>)
    requires
        forall|t: &str, s: PageStyle| #[trigger] call_requires(measure, (t, s)),
    ensures
        r@.len() > 0,
        r@.len() > 1 ==> forall|i: int| 0 <= i < r@.len() ==> (#[trigger] r@[i]).chunks@.len() > 0,
        show_blocks(chunks_of(page_views(r@)), block_views(document.blocks@)),
        tokens(page_views(r@)) == document_tokens(block_views(document.blocks@)),
        is_steady(measure) ==> page_views(r@) == paginated(
            block_views(document.blocks@),
            page_height,
            block_gap,
            image_height,
            heights(measure),
        ),
{
    let size = if page_height > 0 {
        page_height
    } else {
        1
    };
    let ghost blocks = block_views(document.blocks@);
    let ghost h = heights(measure);
    let ghost steady = is_steady(measure);
    let mut pages: Vec<Page> = Vec::new();
    push_page(&mut pages);
    let mut used: u32 = 0;
    assert(page_views(pages@) == seq![Seq::<ChunkView>::empty()]);
    assert(chunks_of(page_views(pages@)) == Seq::<ChunkView>::empty()) by {
        lemma_chunks_turned(Seq::empty());
        assert(Seq::<Seq<ChunkView>>::empty().push(Seq::empty()) == page_views(pages@));
    }
    let mut i: usize = 0;
    while i < document.blocks.len()
        invariant
            i <= document.blocks@.len(),
            blocks == block_views(document.blocks@),
            h == heights(measure),
            steady == is_steady(measure),
            size == page_size(page_height),
            pages@.len() > 0,
            forall|t: &str, s: PageStyle| #[trigger] call_requires(measure, (t, s)),
            show_blocks(chunks_of(page_views(pages@)), blocks.take(i as int)),
            steady ==> filled(blocks.take(i as int), size, block_gap, image_height, h) == (
            Filling { pages: page_views(pages@), used }),
        decreases document.blocks@.len() - i,
    {
        assert(blocks.take(i + 1).drop_last() == blocks.take(i as int));
        assert(blocks.take(i + 1).last() == document.blocks@[i as int]@);
        assert(blocks.take(i + 1) == blocks.take(i as int).push(document.blocks@[i as int]@));
        let ghost now = Filling { pages: page_views(pages@), used };
        let ghost held = chunks_of(page_views(pages@));
        match &document.blocks[i] {
            Block::Image { url, alt } => {
                if used > 0 && used.saturating_add(image_height.saturating_add(block_gap)) > size {
                    proof {
                        lemma_chunks_turned(page_views(pages@));
                    }
                    push_page(&mut pages);
                    used = 0;
                    assert((Filling { pages: page_views(pages@), used }) == now.turned());
                }
                let ghost ready = Filling { pages: page_views(pages@), used };
                let taken_height = if image_height < size {
                    image_height
                } else {
                    size
                };
                let piece = PageChunk::Image { url: url.clone(), alt: alt.clone() };
                proof {
                    lemma_chunks_with(page_views(pages@), piece@);
                    assert(held.push(piece@).take(held.len() as int) == held);
                    assert(held.push(piece@).skip(held.len() as int) == seq![piece@]);
                }
                push_chunk(&mut pages, piece);
                used = used.saturating_add(taken_height.saturating_add(block_gap));
                assert((Filling { pages: page_views(pages@), used }) == ready.with(
                    piece@,
                    plus(lower_of(image_height, size), block_gap),
                ));
            },
            Block::Heading { level, text } => {
                used = append_paginated_text(
                    text.as_str(),
                    PageStyle::Heading(*level),
                    size,
                    block_gap,
                    &measure,
                    &mut pages,
                    used,
                );
            },
            Block::Paragraph { text, links } => {
                used = append_paginated_text(
                    text.as_str(),
                    PageStyle::Body,
                    size,
                    block_gap,
                    &measure,
                    &mut pages,
                    used,
                );
            },
            Block::Quote(text) => {
                used = append_paginated_text(
                    text.as_str(),
                    PageStyle::Quote,
                    size,
                    block_gap,
                    &measure,
                    &mut pages,
                    used,
                );
            },
            Block::Code(text) => {
                used = append_paginated_text(
                    text.as_str(),
                    PageStyle::Code,
                    size,
                    block_gap,
                    &measure,
                    &mut pages,
                    used,
                );
            },
            Block::ListItem(text) => {
                used = append_paginated_text(
                    text.as_str(),
                    PageStyle::ListItem,
                    size,
                    block_gap,
                    &measure,
                    &mut pages,
                    used,
                );
            },
        }
        proof {
            lemma_one_more_block(
                held,
                chunks_of(page_views(pages@)),
                blocks.take(i as int),
                document.blocks@[i as int]@,
            );
        }
        i += 1;
    }
    assert(blocks.take(i as int) == blocks);
    let ghost all = page_views(pages@);
    let mut kept: Vec<Page> = Vec::new();
    assert(page_views(kept@) == taken(all.take(0)));
    let ghost mut k: int = 0;
    for page in iter: pages
        invariant
            iter.seq() == pages@,
            all == page_views(pages@),
            k == iter.index(),
            forall|j: int| 0 <= j < kept@.len() ==> (#[trigger] kept@[j]).chunks@.len() > 0,
            page_views(kept@) == taken(all.take(k)),
    {
        assert(all.take(k + 1).drop_last() == all.take(k));
        assert(all.take(k + 1).last() == page@);
        assert(page@.len() == page.chunks@.len());
        let ghost before = page_views(kept@);
        if page.chunks.len() > 0 {
            kept.push(page);
            assert(page_views(kept@) == before.push(page@));
        }
        proof {
            k = k + 1;
        }
    }
    assert(all.take(k) == all);
    assert(page_views(kept@).len() == kept@.len());
    proof {
        lemma_chunks_taken(all);
        lemma_chunks_turned(page_views(kept@));
    }
    if kept.len() == 0 {
        push_page(&mut kept);
        assert(page_views(kept@) == seq![Seq::<ChunkView>::empty()]);
    }
    proof {
        lemma_tokens_of_chunks(page_views(kept@));
        lemma_blocks_tokens(chunks_of(page_views(kept@)), blocks);
    }
    kept
}

/// What a reader sees one after the other: words in their styles, and pictures.
pub enum Token {
    Word { style: PageStyle, word: Seq<char> },
    Picture { url: Seq<char>, alt: Seq<char> },
}

/// The words of a list, set in a style, as tokens.
pub open spec fn word_tokens(list: Seq<Seq<char>>, style: PageStyle) -> Seq<Token> {
    Seq::new(list.len(), |i: int| Token::Word { style, word: list[i] })
}

/// What a piece of a page shows.
pub open spec fn chunk_tokens(chunk: ChunkView) -> Seq<Token> {
    match chunk {
        ChunkView::Text { style, text } => word_tokens(words(text), style),
        ChunkView::Image { url, alt } => seq![Token::Picture { url, alt }],
    }
}

/// What a page shows.
pub open spec fn page_tokens(page: Seq<ChunkView>) -> Seq<Token>
    decreases page.len(),
{
    if page.len() == 0 {
        Seq::empty()
    } else {
        page_tokens(page.drop_last()) + chunk_tokens(page.last())
    }
}

/// What the pages of a list show.
pub open spec fn tokens(pages: Seq<Seq<ChunkView>>) -> Seq<Token>
    decreases pages.len(),
{
    if pages.len() == 0 {
        Seq::empty()
    } else {
        tokens(pages.drop_last()) + page_tokens(pages.last())
    }
}

/// What a block shows.
pub open spec fn block_tokens(block: BlockView) -> Seq<Token> {
    match block {
        BlockView::Image { url, alt } => seq![Token::Picture { url, alt }],
        _ => word_tokens(words((block_text(block)->0).0), (block_text(block)->0).1),
    }
}

/// What the blocks of a list show.
pub open spec fn document_tokens(blocks: Seq<BlockView>) -> Seq<Token>
    decreases blocks.len(),
{
    if blocks.len() == 0 {
        Seq::empty()
    } else {
        document_tokens(blocks.drop_last()) + block_tokens(blocks.last())
    }
}

/// Leaving out empty pages leaves out no piece.
proof fn lemma_chunks_taken(pages: Seq<Seq<ChunkView>>)
    ensures
        chunks_of(taken(pages)) == chunks_of(pages),
    decreases pages.len(),
{
    if pages.len() > 0 {
        let before = taken(pages.drop_last());
        lemma_chunks_taken(pages.drop_last());
        if pages.last().len() > 0 {
            assert(before.push(pages.last()).drop_last() == before);
        } else {
            assert(chunks_of(pages.drop_last()) + pages.last() == chunks_of(pages.drop_last()));
        }
    }
}

proof fn lemma_page_tokens_join(a: Seq<ChunkView>, b: Seq<ChunkView>)
    ensures
        page_tokens(a + b) == page_tokens(a) + page_tokens(b),
    decreases b.len(),
{
    if b.len() == 0 {
        assert(a + b == a);
        assert(page_tokens(a) + page_tokens(b) == page_tokens(a));
    } else {
        lemma_page_tokens_join(a, b.drop_last());
        assert((a + b).drop_last() == a + b.drop_last());
        assert((a + b).last() == b.last());
        assert((page_tokens(a) + page_tokens(b.drop_last())) + chunk_tokens(b.last())
            == page_tokens(a) + (page_tokens(b.drop_last()) + chunk_tokens(b.last())));
    }
}

/// Pages show what the pieces on them show.
proof fn lemma_tokens_of_chunks(pages: Seq<Seq<ChunkView>>)
    ensures
        tokens(pages) == page_tokens(chunks_of(pages)),
    decreases pages.len(),
{
    if pages.len() > 0 {
        lemma_tokens_of_chunks(pages.drop_last());
        lemma_page_tokens_join(chunks_of(pages.drop_last()), pages.last());
    }
}

/// The runs of a text show its words.
proof fn lemma_runs_tokens(chunks: Seq<ChunkView>, all: Seq<Seq<char>>, style: PageStyle)
    requires
        are_runs(chunks, all, style),
        forall|i: int| 0 <= i < all.len() ==> crate::text::is_word(#[trigger] all[i]),
    ensures
        page_tokens(chunks) == word_tokens(all, style),
    decreases chunks.len(),
{
    if chunks.len() == 0 {
        assert(word_tokens(all, style) == Seq::<Token>::empty());
    } else {
        let start = choose|start: int|
            0 <= start < all.len() && chunks.last() == (ChunkView::Text {
                style,
                text: #[trigger] line(all, start, all.len() as int),
            }) && are_runs(chunks.drop_last(), all.take(start), style);
        let before = all.take(start);
        let part = all.subrange(start, all.len() as int);
        assert forall|i: int| 0 <= i < before.len() implies crate::text::is_word(
            #[trigger] before[i],
        ) by {
            assert(before[i] == all[i]);
        }
        assert forall|i: int| 0 <= i < part.len() implies crate::text::is_word(
            #[trigger] part[i],
        ) by {
            assert(part[i] == all[start + i]);
        }
        lemma_runs_tokens(chunks.drop_last(), before, style);
        crate::text::law_words_of_line(part);
        reveal_strlit(" ");
        assert(" "@ == seq![' ']);
        assert(words(line(all, start, all.len() as int)) == part);
        assert(word_tokens(before, style) + word_tokens(part, style) == word_tokens(all, style));
    }
}

/// Pieces that show blocks show what the blocks show.
proof fn lemma_blocks_tokens(chunks: Seq<ChunkView>, blocks: Seq<BlockView>)
    requires
        show_blocks(chunks, blocks),
    ensures
        page_tokens(chunks) == document_tokens(blocks),
    decreases blocks.len(),
{
    if blocks.len() > 0 {
        let at = choose|at: int|
            0 <= at <= chunks.len() && show_block(#[trigger] chunks.skip(at), blocks.last())
                && show_blocks(chunks.take(at), blocks.drop_last());
        let own = chunks.skip(at);
        let block = blocks.last();
        lemma_blocks_tokens(chunks.take(at), blocks.drop_last());
        lemma_page_tokens_join(chunks.take(at), own);
        assert(chunks.take(at) + own == chunks);
        match block {
            BlockView::Image { url, alt } => {
                assert(own.drop_last() == Seq::<ChunkView>::empty());
                assert(page_tokens(own.drop_last()) == Seq::<Token>::empty());
                assert(page_tokens(own) == chunk_tokens(own.last()));
            },
            _ => {
                let (text, style) = block_text(block)->0;
                crate::text::law_words_are_words(text);
                lemma_runs_tokens(own, words(text), style);
            },
        }
    }
}

proof fn lemma_search(
    all: Seq<Seq<char>>,
    start: int,
    style: PageStyle,
    room: u32,
    h: Heights,
    low: int,
    high: int,
    best: Option<int>,
)
    ensures
        ({
            let r = search(all, start, style, room, h, low, high, best);
            r == best || (r is Some && low <= r->0 <= high)
        }),
    decreases high - low + 1,
{
    if low <= high {
        let middle = low + (high - low) / 2;
        if h(line(all, start, middle), style) <= room {
            lemma_search(all, start, style, room, h, middle + 1, high, Some(middle));
        } else {
            lemma_search(all, start, style, room, h, low, middle - 1, best);
        }
    }
}

/// A run of words is cut behind its first word and before the end of the text.
proof fn lemma_cut(all: Seq<Seq<char>>, start: int, style: PageStyle, room: u32, h: Heights)
    requires
        0 <= start < all.len(),
    ensures
        start < cut(all, start, style, room, h) <= all.len(),
{
    lemma_search(all, start, style, room, h, start + 1, all.len() as int, None);
}

proof fn lemma_tokens_turned(filling: Filling)
    ensures
        tokens(filling.turned().pages) == tokens(filling.pages),
{
    let pages = filling.pages.push(Seq::empty());
    assert(pages.drop_last() == filling.pages);
    assert(pages.last() == Seq::<ChunkView>::empty());
    assert(tokens(filling.pages) + Seq::<Token>::empty() == tokens(filling.pages));
}

proof fn lemma_tokens_with(filling: Filling, chunk: ChunkView, height: u32)
    requires
        filling.pages.len() > 0,
    ensures
        tokens(filling.with(chunk, height).pages) == tokens(filling.pages) + chunk_tokens(chunk),
{
    let before = filling.pages.drop_last();
    let page = filling.pages.last();
    let pages = before.push(page.push(chunk));
    assert(pages.drop_last() == before);
    assert(pages.last() == page.push(chunk));
    assert(page.push(chunk).drop_last() == page);
    assert(page.push(chunk).last() == chunk);
    assert(tokens(before) + (page_tokens(page) + chunk_tokens(chunk)) == (tokens(before)
        + page_tokens(page)) + chunk_tokens(chunk));
}

proof fn lemma_with_words(
    all: Seq<Seq<char>>,
    start: int,
    style: PageStyle,
    page: u32,
    gap: u32,
    h: Heights,
    filling: Filling,
)
    requires
        0 <= start <= all.len(),
        forall|i: int| 0 <= i < all.len() ==> crate::text::is_word(#[trigger] all[i]),
        filling.pages.len() > 0,
    ensures
        tokens(with_words(all, start, style, page, gap, h, filling).pages) == tokens(filling.pages)
            + word_tokens(all.skip(start), style),
        with_words(all, start, style, page, gap, h, filling).pages.len() > 0,
    decreases
            all.len() - start,
            if filling.used > 0 {
                1int
            } else {
                0int
            },
{
    if start >= all.len() {
        assert(word_tokens(all.skip(start), style) == Seq::<Token>::empty());
        assert(tokens(filling.pages) + Seq::<Token>::empty() == tokens(filling.pages));
    } else {
        let room = room_left(page, gap, filling.used);
        let end = cut(all, start, style, room, h);
        lemma_cut(all, start, style, room, h);
        let text = line(all, start, end);
        let height = lower_of(h(text, style), page);
        if filling.used > 0 && plus(height, gap) > less(page, filling.used) {
            lemma_tokens_turned(filling);
            lemma_with_words(all, start, style, page, gap, h, filling.turned());
        } else {
            let chunk = ChunkView::Text { style, text };
            let next = filling.with(chunk, plus(height, gap));
            let part = all.subrange(start, end);
            lemma_tokens_with(filling, chunk, plus(height, gap));
            assert forall|i: int| 0 <= i < part.len() implies crate::text::is_word(
                #[trigger] part[i],
            ) by {
                assert(part[i] == all[start + i]);
            }
            crate::text::law_words_of_line(part);
            reveal_strlit(" ");
            assert(" "@ == seq![' ']);
            assert(words(text) == part);
            let after = if end < all.len() {
                next.turned()
            } else {
                next
            };
            lemma_tokens_turned(next);
            lemma_with_words(all, end, style, page, gap, h, after);
            assert(word_tokens(part, style) + word_tokens(all.skip(end), style) == word_tokens(all.skip(start), style));
            assert((tokens(filling.pages) + word_tokens(part, style)) + word_tokens(all.skip(end), style)
                == tokens(filling.pages) + (word_tokens(part, style) + word_tokens(all.skip(end), style)));
        }
    }
}

/// An empty page shows nothing.
proof fn lemma_empty_page()
    ensures
        tokens(seq![Seq::<ChunkView>::empty()]) == Seq::<Token>::empty(),
{
    let only = seq![Seq::<ChunkView>::empty()];
    assert(only.drop_last() == Seq::<Seq<ChunkView>>::empty());
    assert(only.last() == Seq::<ChunkView>::empty());
    assert(tokens(only.drop_last()) == Seq::<Token>::empty());
    assert(page_tokens(only.last()) == Seq::<Token>::empty());
    assert(tokens(only) == tokens(only.drop_last()) + page_tokens(only.last()));
    assert(tokens(only) == Seq::<Token>::empty());
}

proof fn lemma_filled(blocks: Seq<BlockView>, page: u32, gap: u32, image: u32, h: Heights)
    ensures
        filled(blocks, page, gap, image, h).pages.len() > 0,
        tokens(filled(blocks, page, gap, image, h).pages) == document_tokens(blocks),
    decreases blocks.len(),
{
    if blocks.len() == 0 {
        lemma_empty_page();
    } else {
        let block = blocks.last();
        let before = filled(blocks.drop_last(), page, gap, image, h);
        lemma_filled(blocks.drop_last(), page, gap, image, h);
        match block {
            BlockView::Image { url, alt } => {
                let chunk = ChunkView::Image { url, alt };
                let taken_height = plus(lower_of(image, page), gap);
                lemma_tokens_turned(before);
                lemma_tokens_with(before, chunk, taken_height);
                lemma_tokens_with(before.turned(), chunk, taken_height);
            },
            _ => {
                let (text, style) = block_text(block)->0;
                crate::text::law_words_are_words(text);
                lemma_with_words(words(text), 0, style, page, gap, h, before);
                assert(words(text).skip(0) == words(text));
            },
        }
    }
}

proof fn lemma_taken(pages: Seq<Seq<ChunkView>>)
    ensures
        tokens(taken(pages)) == tokens(pages),
        forall|i: int| 0 <= i < taken(pages).len() ==> (#[trigger] taken(pages)[i]).len() > 0,
    decreases pages.len(),
{
    if pages.len() > 0 {
        let before = taken(pages.drop_last());
        lemma_taken(pages.drop_last());
        if pages.last().len() > 0 {
            assert(before.push(pages.last()).drop_last() == before);
        } else {
            assert(tokens(pages.drop_last()) + Seq::<Token>::empty() == tokens(pages.drop_last()));
        }
    }
}

/// The pages of an article show all its words and pictures, each once and in
/// order, whatever the heights; and no page is empty unless it is the only
/// one.
pub proof fn law_pages_show_everything(
    blocks: Seq<BlockView>,
    page_height: u32,
    gap: u32,
    image: u32,
    h: Heights,
)
    ensures
        tokens(paginated(blocks, page_height, gap, image, h)) == document_tokens(blocks),
        paginated(blocks, page_height, gap, image, h).len() > 1 ==> forall|i: int|
            0 <= i < paginated(blocks, page_height, gap, image, h).len() ==> (#[trigger] paginated(
                blocks,
                page_height,
                gap,
                image,
                h,
            )[i]).len() > 0,
{
    let pages = filled(blocks, page_size(page_height), gap, image, h).pages;
    lemma_filled(blocks, page_size(page_height), gap, image, h);
    lemma_taken(pages);
    if taken(pages).len() == 0 {
        lemma_empty_page();
    }
}

/// Longer runs of words are not lower.
pub open spec fn grows(all: Seq<Seq<char>>, start: int, style: PageStyle, h: Heights) -> bool {
    forall|a: int, b: int|
        start < a <= b <= all.len() ==> #[trigger] h(line(all, start, a), style) <= #[trigger] h(
            line(all, start, b),
            style,
        )
}

proof fn lemma_search_longest(
    all: Seq<Seq<char>>,
    start: int,
    style: PageStyle,
    room: u32,
    h: Heights,
    low: int,
    high: int,
    best: Option<int>,
)
    requires
        0 <= start < low,
        high <= all.len(),
        low <= all.len() + 1,
        grows(all, start, style, h),
        forall|e: int| high < e <= all.len() ==> #[trigger] h(line(all, start, e), style) > room,
        match best {
            Some(end) => end == low - 1 && start < end && h(line(all, start, end), style) <= room,
            None => low == start + 1,
        },
    ensures
        match search(all, start, style, room, h, low, high, best) {
            Some(end) => start < end <= all.len() && h(line(all, start, end), style) <= room
                && forall|e: int|
                end < e <= all.len() ==> #[trigger] h(line(all, start, e), style) > room,
            None => forall|e: int|
                start < e <= all.len() ==> #[trigger] h(line(all, start, e), style) > room,
        },
    decreases high - low + 1,
{
    if low <= high {
        let middle = low + (high - low) / 2;
        if h(line(all, start, middle), style) <= room {
            lemma_search_longest(all, start, style, room, h, middle + 1, high, Some(middle));
        } else {
            lemma_search_longest(all, start, style, room, h, low, middle - 1, best);
        }
    }
}

/// Where longer runs of words are not lower, a run is cut as late as possible:
/// it fits, and one word more would not; or not even one word fits, and the run
/// is that word.
pub proof fn law_runs_are_longest(
    all: Seq<Seq<char>>,
    start: int,
    style: PageStyle,
    room: u32,
    h: Heights,
)
    requires
        0 <= start < all.len(),
        grows(all, start, style, h),
    ensures
        ({
            let end = cut(all, start, style, room, h);
            &&& start < end <= all.len()
            &&& h(line(all, start, end), style) <= room || end == start + 1
            &&& forall|e: int|
                end < e <= all.len() ==> #[trigger] h(line(all, start, e), style) > room
        }),
{
    lemma_search_longest(all, start, style, room, h, start + 1, all.len() as int, None);
}

} // verus!
