//! How an article is laid out on the pages of a book.

use crate::pages::{
    block_text, cut, filled, less, line, lower_of, page_size, paginated, plus, room_left, taken,
    with_words, ChunkView, Filling, Heights, PageStyle,
};
use crate::reader::BlockView;
use crate::text::words;
use vstd::prelude::*;

verus! {

/// A text keeps its style on the page: a heading its level, and a paragraph, a
/// quote, a piece of code and a list item each its own.
pub proof fn law_texts_keep_their_style(block: BlockView)
    ensures
        match block {
            BlockView::Heading { level, text } => block_text(block) == Some(
                (text, PageStyle::Heading(level)),
            ),
            BlockView::Paragraph { text, links } => block_text(block) == Some(
                (text, PageStyle::Body),
            ),
            BlockView::Quote(text) => block_text(block) == Some((text, PageStyle::Quote)),
            BlockView::Code(text) => block_text(block) == Some((text, PageStyle::Code)),
            BlockView::ListItem(text) => block_text(block) == Some((text, PageStyle::ListItem)),
            BlockView::Image { url, alt } => block_text(block) is None,
        },
{
}

/// The height that a piece takes on a page: its own, no more than the page, and
/// the gap behind it.
pub open spec fn height_of(
    chunk: ChunkView,
    page: u32,
    gap: u32,
    image: u32,
    h: Heights,
) -> int {
    let own = match chunk {
        ChunkView::Text { style, text } => h(text, style),
        ChunkView::Image { url, alt } => image,
    };
    (if own < page {
        own as int
    } else {
        page as int
    }) + gap
}

/// The height that pieces take together.
pub open spec fn height_of_all(
    chunks: Seq<ChunkView>,
    page: u32,
    gap: u32,
    image: u32,
    h: Heights,
) -> int
    decreases chunks.len(),
{
    if chunks.len() == 0 {
        0
    } else {
        height_of_all(chunks.drop_last(), page, gap, image, h) + height_of(
            chunks.last(),
            page,
            gap,
            image,
            h,
        )
    }
}

/// Every piece on a page fits under those above it.
pub open spec fn fits(
    chunks: Seq<ChunkView>,
    page: u32,
    gap: u32,
    image: u32,
    h: Heights,
) -> bool {
    forall|j: int|
        0 <= j < chunks.len() && height_of(#[trigger] chunks[j], page, gap, image, h) > 0
            && height_of_all(chunks.take(j), page, gap, image, h) > 0 ==> height_of_all(
            chunks.take(j + 1),
            page,
            gap,
            image,
            h,
        ) <= page
}

spec fn is_filled_right(filling: Filling, page: u32, gap: u32, image: u32, h: Heights) -> bool {
    let sum = height_of_all(filling.pages.last(), page, gap, image, h);
    &&& filling.pages.len() > 0
    &&& forall|i: int|
        0 <= i < filling.pages.len() ==> fits(#[trigger] filling.pages[i], page, gap, image, h)
    &&& sum >= 0
    &&& sum <= u32::MAX ==> filling.used == sum
    &&& sum > u32::MAX ==> filling.used == u32::MAX
}

proof fn lemma_turned(filling: Filling, page: u32, gap: u32, image: u32, h: Heights)
    requires
        is_filled_right(filling, page, gap, image, h),
    ensures
        is_filled_right(filling.turned(), page, gap, image, h),
{
    let after = filling.turned();
    assert(after.pages.last() == Seq::<ChunkView>::empty());
    assert forall|i: int| 0 <= i < after.pages.len() implies fits(
        #[trigger] after.pages[i],
        page,
        gap,
        image,
        h,
    ) by {
        if i < filling.pages.len() {
            assert(after.pages[i] == filling.pages[i]);
        }
    }
}

proof fn lemma_with(
    filling: Filling,
    chunk: ChunkView,
    height: u32,
    page: u32,
    gap: u32,
    image: u32,
    h: Heights,
)
    requires
        is_filled_right(filling, page, gap, image, h),
        ({
            let own = height_of(chunk, page, gap, image, h);
            &&& own <= u32::MAX ==> height == own
            &&& own > u32::MAX ==> height == u32::MAX
            &&& filling.used > 0 && own > 0 ==> filling.used + own <= page
        }),
    ensures
        is_filled_right(filling.with(chunk, height), page, gap, image, h),
{
    let after = filling.with(chunk, height);
    let old_page = filling.pages.last();
    let new_page = old_page.push(chunk);
    let own = height_of(chunk, page, gap, image, h);
    let sum = height_of_all(old_page, page, gap, image, h);
    assert(after.pages.last() == new_page);
    assert(new_page.drop_last() =~= old_page);
    assert(new_page.last() == chunk);
    assert(height_of_all(new_page, page, gap, image, h) == sum + own);
    assert(fits(old_page, page, gap, image, h)) by {
        assert(filling.pages[filling.pages.len() - 1] == old_page);
    }
    assert(fits(new_page, page, gap, image, h)) by {
        assert forall|j: int|
            0 <= j < new_page.len() && height_of(#[trigger] new_page[j], page, gap, image, h) > 0
                && height_of_all(new_page.take(j), page, gap, image, h) > 0 implies height_of_all(
            new_page.take(j + 1),
            page,
            gap,
            image,
            h,
        ) <= page by {
            if j < old_page.len() {
                assert(new_page[j] == old_page[j]);
                assert(new_page.take(j) =~= old_page.take(j));
                assert(new_page.take(j + 1) =~= old_page.take(j + 1));
            } else {
                assert(new_page.take(j) =~= old_page);
                assert(new_page.take(j + 1) =~= new_page);
            }
        }
    }
    assert forall|i: int| 0 <= i < after.pages.len() implies fits(
        #[trigger] after.pages[i],
        page,
        gap,
        image,
        h,
    ) by {
        if i < filling.pages.len() - 1 {
            assert(after.pages[i] == filling.pages[i]);
        }
    }
}

proof fn lemma_words_fit(
    all: Seq<Seq<char>>,
    start: int,
    style: PageStyle,
    page: u32,
    gap: u32,
    image: u32,
    h: Heights,
    filling: Filling,
)
    requires
        is_filled_right(filling, page, gap, image, h),
    ensures
        is_filled_right(
            with_words(all, start, style, page, gap, h, filling),
            page,
            gap,
            image,
            h,
        ),
    decreases
            all.len() - start,
            if filling.used > 0 {
                1int
            } else {
                0int
            },
{
    if 0 <= start < all.len() {
        let end = cut(all, start, style, room_left(page, gap, filling.used), h);
        let text = line(all, start, end);
        let height = lower_of(h(text, style), page);
        if filling.used > 0 && plus(height, gap) > less(page, filling.used) {
            lemma_turned(filling, page, gap, image, h);
            lemma_words_fit(all, start, style, page, gap, image, h, filling.turned());
        } else if start < end <= all.len() {
            let chunk = ChunkView::Text { style, text };
            lemma_with(filling, chunk, plus(height, gap), page, gap, image, h);
            let next = filling.with(chunk, plus(height, gap));
            lemma_turned(next, page, gap, image, h);
            lemma_words_fit(
                all,
                end,
                style,
                page,
                gap,
                image,
                h,
                if end < all.len() {
                    next.turned()
                } else {
                    next
                },
            );
        }
    }
}

proof fn lemma_blocks_fit(
    blocks: Seq<BlockView>,
    page: u32,
    gap: u32,
    image: u32,
    h: Heights,
)
    requires
        page < u32::MAX,
    ensures
        is_filled_right(filled(blocks, page, gap, image, h), page, gap, image, h),
    decreases blocks.len(),
{
    if blocks.len() > 0 {
        let before = filled(blocks.drop_last(), page, gap, image, h);
        lemma_blocks_fit(blocks.drop_last(), page, gap, image, h);
        match blocks.last() {
            BlockView::Image { url, alt } => {
                lemma_turned(before, page, gap, image, h);
                let ready = if before.used > 0 && plus(before.used, plus(image, gap)) > page {
                    before.turned()
                } else {
                    before
                };
                let chunk = ChunkView::Image { url, alt };
                lemma_with(ready, chunk, plus(lower_of(image, page), gap), page, gap, image, h);
            },
            _ => {
                let (text, style) = block_text(blocks.last())->0;
                lemma_words_fit(words(text), 0, style, page, gap, image, h, before);
            },
        }
    }
}

proof fn lemma_taken(pages: Seq<Seq<ChunkView>>, k: int)
    requires
        0 <= k < taken(pages).len(),
    ensures
        pages.contains(taken(pages)[k]),
    decreases pages.len(),
{
    let shorter = pages.drop_last();
    let before = taken(shorter);
    if k < before.len() {
        lemma_taken(shorter, k);
        let i = choose|i: int| 0 <= i < shorter.len() && shorter[i] == before[k];
        assert(pages[i] == before[k]);
    } else {
        assert(pages[pages.len() - 1] == taken(pages)[k]);
    }
}

/// Whatever stands on a page below something else fits there: the pieces of a
/// page up to it, with the gaps behind them, are no higher than the page. The
/// highest page that there is a number for is left out, as sums of heights are
/// held to that number.
pub proof fn law_pages_are_not_overfull(
    blocks: Seq<BlockView>,
    page_height: u32,
    gap: u32,
    image: u32,
    h: Heights,
    k: int,
)
    requires
        0 < page_height < u32::MAX,
        0 <= k < paginated(blocks, page_height, gap, image, h).len(),
    ensures
        fits(
            paginated(blocks, page_height, gap, image, h)[k],
            page_height,
            gap,
            image,
            h,
        ),
{
    assert(page_size(page_height) == page_height);
    let filling = filled(blocks, page_height, gap, image, h);
    lemma_blocks_fit(blocks, page_height, gap, image, h);
    let pages = taken(filling.pages);
    if pages.len() > 0 {
        lemma_taken(filling.pages, k);
        let i = choose|i: int| 0 <= i < filling.pages.len() && filling.pages[i] == pages[k];
        assert(fits(filling.pages[i], page_height, gap, image, h));
    }
}

} // verus!
