//! Articles for reading: their blocks and pages.

use feedlizard::pages::{paginate, PageChunk, PageStyle};
use feedlizard::reader::{parse_feed_html, Block, Document, ReaderError, MAX_HTML_BYTES};

#[test]
fn preserves_semantics_and_resolves_safe_links() {
    let document = parse_feed_html("<h2>Heading</h2><p>Hello <a href='/story'>world</a>.</p><blockquote>Worth reading</blockquote>", Some("https://example.com/news/")).unwrap();
    assert_eq!(document.blocks.len(), 3);
    assert!(matches!(&document.blocks[0], Block::Heading { level: 2, text } if text == "Heading"));
    assert!(
        matches!(&document.blocks[1], Block::Paragraph { links, .. } if links[0].url == "https://example.com/story")
    );
}

#[test]
fn drops_executable_content_and_dangerous_schemes() {
    let document = parse_feed_html("<script>alert(1)</script><p>Safe <a href='javascript:bad()'>link</a></p><img src='data:text/plain,no'>", None).unwrap();
    assert_eq!(
        document.blocks,
        vec![Block::Paragraph { text: "Safe link".into(), links: vec![] }]
    );
}

#[test]
fn rejects_oversized_input() {
    assert_eq!(
        parse_feed_html(&"x".repeat(MAX_HTML_BYTES + 1), None),
        Err(ReaderError::InputTooLarge)
    );
}

#[test]
fn a_base_has_to_be_an_address() {
    assert_eq!(parse_feed_html("<p>Text</p>", Some("nowhere")), Err(ReaderError::InvalidBaseUrl));
    assert_eq!(ReaderError::TooManyBlocks.message(), "article contains too many blocks");
}

#[test]
fn very_long_articles_are_refused() {
    let html = "<p>x</p>".repeat(10_001);
    assert_eq!(parse_feed_html(&html, None), Err(ReaderError::TooManyBlocks));
}

#[test]
fn lists_code_and_pictures_are_kept() {
    let document = parse_feed_html(
        "<ul><li>One</li><li>Two</li></ul><pre>let x = 1;</pre><img src='/a.png' alt='A'>",
        Some("https://example.com/"),
    )
    .unwrap();
    assert_eq!(
        document.blocks,
        vec![
            Block::ListItem("One".into()),
            Block::ListItem("Two".into()),
            Block::Code("let x = 1;".into()),
            Block::Image { url: "https://example.com/a.png".into(), alt: "A".into() },
        ]
    );
}

#[test]
fn pagination_is_deterministic_and_splits_oversized_paragraphs() {
    let document = Document {
        blocks: vec![Block::Paragraph {
            text: "one two three four five six seven eight".into(),
            links: vec![],
        }],
    };
    let measure = |text: &str, _: PageStyle| text.len() as u32;
    let first = paginate(&document, 12, 1, 8, measure);
    let second = paginate(&document, 12, 1, 8, measure);
    assert_eq!(first, second);
    assert!(first.len() >= 3);
    assert!(first.iter().all(|page| !page.chunks.is_empty()));
}

#[test]
fn a_short_article_has_one_page() {
    let document = Document {
        blocks: vec![
            Block::Heading { level: 1, text: "Title".into() },
            Block::Image { url: "https://example.com/a.png".into(), alt: "A".into() },
        ],
    };
    let measure = |text: &str, _: PageStyle| text.len() as u32;
    let pages = paginate(&document, 100, 1, 8, measure);
    assert_eq!(pages.len(), 1);
    assert_eq!(pages[0].chunks.len(), 2);
    let empty = paginate(&Document { blocks: vec![] }, 100, 1, 8, measure);
    assert_eq!(empty.len(), 1);
    assert!(empty[0].chunks.is_empty());
}

#[test]
fn pages_show_everything_whatever_the_measure_says() {
    let document = Document {
        blocks: vec![
            Block::Heading { level: 2, text: "A  title".into() },
            Block::Paragraph { text: "one two three four five six".into(), links: vec![] },
            Block::Image { url: "https://example.com/a.png".into(), alt: "A".into() },
            Block::Quote(" ".into()),
            Block::Quote("seven eight".into()),
        ],
    };
    let calls = std::cell::Cell::new(0u32);
    let measure = |text: &str, _: PageStyle| {
        calls.set(calls.get() * 7 % 31 + 3);
        calls.get() + text.len() as u32 % 5
    };
    let pages = paginate(&document, 20, 2, 8, measure);
    let mut shown: Vec<(Option<PageStyle>, String)> = Vec::new();
    for chunk in pages.iter().flat_map(|page| &page.chunks) {
        match chunk {
            PageChunk::Text { style, text } => {
                shown.extend(text.split(' ').map(|word| (Some(*style), word.to_owned())));
            }
            PageChunk::Image { url, .. } => shown.push((None, url.clone())),
        }
    }
    let mut expected = Vec::new();
    for (style, text) in [
        (Some(PageStyle::Heading(2)), "A title"),
        (Some(PageStyle::Body), "one two three four five six"),
        (None, "https://example.com/a.png"),
        (Some(PageStyle::Quote), "seven eight"),
    ] {
        expected.extend(text.split(' ').map(|word| (style, word.to_owned())));
    }
    assert_eq!(shown, expected);
}
