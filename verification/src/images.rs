//! Pictures that a feed names for its articles, and the choice among them.

use crate::identity::{normal_url, normalize_url};
use crate::markup::{html_attr, tag_attribute};
use crate::text::{
    chars_of, contains, find, find_from, has, lemma_find, lower, lowered, parse_small_number,
    parsed_number, string_of, view_of, views,
};
use crate::unique::{firsts, is_first, lemma_firsts_step, mark_firsts};
use crate::web::{resolve, resolved};
use vstd::prelude::*;

verus! {

/// Where a picture was named; later ones are trusted more.
#[derive(Debug, Clone, Copy, PartialEq, Eq, PartialOrd, Ord, Structural)]
pub enum ImageSource {
    InlineHtml,
    MediaThumbnail,
    MediaContent,
    Enclosure,
    JsonImage,
}

/// A picture that a feed names.
#[derive(Debug, PartialEq, Eq)]
pub struct ImageCandidate {
    pub url: String,
    pub source: ImageSource,
    pub width: Option<u32>,
    pub height: Option<u32>,
    pub mime_type: Option<String>,
    pub alt_text: Option<String>,
}

/// What an [`ImageCandidate`] holds.
pub struct ImageView {
    pub url: Seq<char>,
    pub source: ImageSource,
    pub width: Option<u32>,
    pub height: Option<u32>,
    pub mime_type: Option<Seq<char>>,
    pub alt_text: Option<Seq<char>>,
}

impl View for ImageCandidate {
    type V = ImageView;

    open spec fn view(&self) -> ImageView {
        ImageView {
            url: self.url@,
            source: self.source,
            width: self.width,
            height: self.height,
            mime_type: view_of(self.mime_type),
            alt_text: view_of(self.alt_text),
        }
    }
}

impl Clone for ImageCandidate {
    fn clone(&self) -> (r: Self)
        ensures
            r@ == self@,
    {
        ImageCandidate {
            url: self.url.clone(),
            source: self.source,
            width: self.width,
            height: self.height,
            mime_type: match &self.mime_type {
                Some(text) => Some(text.clone()),
                None => None,
            },
            alt_text: match &self.alt_text {
                Some(text) => Some(text.clone()),
                None => None,
            },
        }
    }
}

/// What the pictures of a list hold.
pub open spec fn image_views(list: Seq<ImageCandidate>) -> Seq<ImageView> {
    Seq::new(list.len(), |i: int| list[i]@)
}

/// How much a source is trusted.
pub open spec fn trust(source: ImageSource) -> int {
    match source {
        ImageSource::InlineHtml => 0,
        ImageSource::MediaThumbnail => 1,
        ImageSource::MediaContent => 2,
        ImageSource::Enclosure => 3,
        ImageSource::JsonImage => 4,
    }
}

fn trust_of(source: ImageSource) -> (r: u8)
    ensures
        r == trust(source),
{
    match source {
        ImageSource::InlineHtml => 0,
        ImageSource::MediaThumbnail => 1,
        ImageSource::MediaContent => 2,
        ImageSource::Enclosure => 3,
        ImageSource::JsonImage => 4,
    }
}

/// The area of a picture, as far as a 32-bit number holds it; 0 where a side
/// is not known.
pub open spec fn area(image: ImageView) -> int {
    match (image.width, image.height) {
        (Some(w), Some(h)) => if w * h > u32::MAX {
            u32::MAX as int
        } else {
            w * h
        },
        _ => 0,
    }
}

fn area_of(image: &ImageCandidate) -> (r: u32)
    ensures
        r == area(image@),
{
    match (image.width, image.height) {
        (Some(w), Some(h)) => match w.checked_mul(h) {
            Some(product) => product,
            None => u32::MAX,
        },
        _ => 0,
    }
}

/// The picture `a` is to be preferred to `b`, or as good.
pub open spec fn at_least_as_good(a: ImageView, b: ImageView) -> bool {
    trust(a.source) > trust(b.source) || (trust(a.source) == trust(b.source) && area(a) >= area(b))
}

/// A word that gives away a picture that is no illustration.
pub open spec fn is_telltale(word: Seq<char>) -> bool {
    word == "pixel"@ || word == "tracker"@ || word == "spacer"@ || word == "clear.gif"@ || word
        == "1x1"@ || word == "avatar"@ || word == "gravatar"@ || word == "favicon"@ || word
        == "logo"@
}

/// Some telltale word stands in a text.
pub open spec fn has_telltale(text: Seq<char>) -> bool {
    exists|word: Seq<char>| is_telltale(word) && #[trigger] contains(text, word)
}

/// Sides that an illustration can have: not small, and not more than five times
/// as long as wide.
pub open spec fn fair_sides(w: u32, h: u32) -> bool {
    w >= 80 && h >= 60 && (if w >= h {
        w as int / h as int
    } else {
        h as int / w as int
    }) <= 5
}

/// The picture can be an illustration.
pub open spec fn plausible(image: ImageView) -> bool {
    &&& !has_telltale(lower(image.url))
    &&& match (image.width, image.height) {
        (Some(w), Some(h)) => fair_sides(w, h),
        _ => true,
    }
}

fn tells(text: &str) -> (r: bool)
    ensures
        r == has_telltale(text@),
{
    let found = has(text, "pixel") || has(text, "tracker") || has(text, "spacer") || has(
        text,
        "clear.gif",
    ) || has(text, "1x1") || has(text, "avatar") || has(text, "gravatar") || has(text, "favicon")
        || has(text, "logo");
    assert(found == (contains(text@, "pixel"@) || contains(text@, "tracker"@) || contains(
        text@,
        "spacer"@,
    ) || contains(text@, "clear.gif"@) || contains(text@, "1x1"@) || contains(text@, "avatar"@)
        || contains(text@, "gravatar"@) || contains(text@, "favicon"@) || contains(
        text@,
        "logo"@,
    )));
    found
}

/// Whether a picture can be an illustration: no telltale word in its address,
/// and sides, where known, that an illustration can have.
pub fn plausible_image(c: &ImageCandidate) -> (r: bool)
    ensures
        r == plausible(c@),
{
    let small = lowered(c.url.as_str());
    if tells(small.as_str()) {
        return false;
    }
    match (c.width, c.height) {
        (Some(w), Some(h)) => {
            if w < 80 || h < 60 {
                false
            } else if w >= h {
                w / h <= 5
            } else {
                h / w <= 5
            }
        },
        _ => true,
    }
}

/// The best plausible picture of a list; the last one among equals.
pub open spec fn selected(list: Seq<ImageView>) -> Option<ImageView>
    decreases list.len(),
{
    if list.len() == 0 {
        None
    } else {
        let before = selected(list.drop_last());
        let last = list.last();
        if !plausible(last) {
            before
        } else {
            match before {
                Some(best) => if at_least_as_good(last, best) {
                    Some(last)
                } else {
                    Some(best)
                },
                None => Some(last),
            }
        }
    }
}

/// The best plausible picture among `candidates`.
pub fn select_image(candidates: &Vec<ImageCandidate>) -> (r: Option<ImageCandidate>)
    ensures
        match r {
            Some(best) => selected(image_views(candidates@)) == Some(best@),
            None => selected(image_views(candidates@)) is None,
        },
{
    let ghost all = image_views(candidates@);
    let mut best: Option<usize> = None;
    let mut i: usize = 0;
    while i < candidates.len()
        invariant
            i <= candidates@.len(),
            all == image_views(candidates@),
            match best {
                Some(k) => k < candidates@.len() && selected(all.take(i as int)) == Some(
                    candidates@[k as int]@,
                ),
                None => selected(all.take(i as int)) is None,
            },
        decreases candidates@.len() - i,
    {
        assert(all.take(i + 1).drop_last() == all.take(i as int));
        assert(all.take(i + 1).last() == candidates@[i as int]@);
        if plausible_image(&candidates[i]) {
            let better = match best {
                Some(k) => {
                    let new_trust = trust_of(candidates[i].source);
                    let old_trust = trust_of(candidates[k].source);
                    new_trust > old_trust || (new_trust == old_trust && area_of(&candidates[i])
                        >= area_of(&candidates[k]))
                },
                None => true,
            };
            if better {
                best = Some(i);
            }
        }
        i += 1;
    }
    assert(all.take(i as int) == all);
    match best {
        Some(k) => Some(candidates[k].clone()),
        None => None,
    }
}

/// The picture that is chosen is one of the list, is plausible, and no
/// plausible picture of the list is better. One is chosen wherever the list
/// holds a plausible picture.
pub proof fn law_selected_is_best(list: Seq<ImageView>)
    ensures
        match selected(list) {
            Some(best) => {
                &&& list.contains(best)
                &&& plausible(best)
                &&& forall|i: int|
                    0 <= i < list.len() && plausible(#[trigger] list[i]) ==> at_least_as_good(
                        best,
                        list[i],
                    )
            },
            None => forall|i: int| 0 <= i < list.len() ==> !plausible(#[trigger] list[i]),
        },
    decreases list.len(),
{
    if list.len() > 0 {
        let shorter = list.drop_last();
        law_selected_is_best(shorter);
        assert(list[list.len() - 1] == list.last());
        assert(forall|i: int| 0 <= i < shorter.len() ==> #[trigger] list[i] == shorter[i]);
        match selected(shorter) {
            Some(best) => {
                let at = choose|at: int| 0 <= at < shorter.len() && shorter[at] == best;
                assert(list[at] == best);
            },
            None => {},
        }
    }
}

/// The addresses, in normal form, of the pictures of a list.
pub open spec fn image_keys(list: Seq<ImageView>) -> Seq<Seq<char>> {
    Seq::new(list.len(), |i: int| normal_url(list[i].url))
}

/// The pictures of a list, each address once.
pub open spec fn distinct_images(list: Seq<ImageView>) -> Seq<ImageView> {
    firsts(list, image_keys(list))
}

/// The pictures of `values`, of those with one address only the first.
pub fn unique_candidates(values: &Vec<ImageCandidate>) -> (r: Vec<ImageCandidate>)
    ensures
        image_views(r@) == distinct_images(image_views(values@)),
{
    let ghost all = image_views(values@);
    let mut keys: Vec<String> = Vec::new();
    let mut i: usize = 0;
    while i < values.len()
        invariant
            i <= values@.len(),
            all == image_views(values@),
            views(keys@) == image_keys(all).take(i as int),
        decreases values@.len() - i,
    {
        assert(all[i as int] == values@[i as int]@);
        let ghost before = keys@;
        keys.push(normalize_url(values[i].url.as_str()));
        assert(views(keys@) == views(before).push(image_keys(all)[i as int]));
        assert(image_keys(all).take(i + 1) == image_keys(all).take(i as int).push(
            image_keys(all)[i as int],
        ));
        i += 1;
    }
    let ghost names = image_keys(all);
    assert(names.take(i as int) == names);
    assert(views(keys@).len() == keys@.len());
    let marks = mark_firsts(&keys);
    let mut out: Vec<ImageCandidate> = Vec::new();
    let mut k: usize = 0;
    assert(image_views(out@) == firsts(all.take(0), names.take(0)));
    while k < values.len()
        invariant
            k <= values@.len() == marks@.len(),
            all == image_views(values@),
            names == image_keys(all),
            forall|j: int| 0 <= j < marks@.len() ==> #[trigger] marks@[j] == is_first(names, j),
            image_views(out@) == firsts(all.take(k as int), names.take(k as int)),
        decreases values@.len() - k,
    {
        proof {
            lemma_firsts_step(all, names, k as int);
        }
        assert(all[k as int] == values@[k as int]@);
        let ghost before = out@;
        if marks[k] {
            out.push(values[k].clone());
            assert(image_views(out@) == image_views(before).push(all[k as int]));
        }
        k += 1;
    }
    assert(all.take(k as int) == all);
    assert(names.take(k as int) == names);
    out
}

/// A whole number below 2^32, where the text is one.
pub open spec fn side(text: Option<Seq<char>>) -> Option<u32> {
    match text {
        Some(t) => match parsed_number(t) {
            Some(n) => if n <= u32::MAX {
                Some(n as u32)
            } else {
                None
            },
            None => None,
        },
        None => None,
    }
}

/// The number in `text`.
pub fn side_in(text: Option<String>) -> (r: Option<u32>)
    ensures
        r == side(view_of(text)),
{
    match text {
        Some(t) => parse_small_number(t.as_str()),
        None => None,
    }
}

/// The picture that an `img` tag names, by the text of the tag.
pub open spec fn tag_image(tag: Seq<char>, base: Seq<char>) -> Option<ImageView> {
    match tag_attribute(tag, "src"@) {
        Some(src) => match resolved(base, src) {
            Some(url) => Some(
                ImageView {
                    url,
                    source: ImageSource::InlineHtml,
                    width: side(tag_attribute(tag, "width"@)),
                    height: side(tag_attribute(tag, "height"@)),
                    mime_type: None,
                    alt_text: tag_attribute(tag, "alt"@),
                },
            ),
            None => None,
        },
        None => None,
    }
}

fn read_tag(tag: &str, base: &str) -> (r: Option<ImageCandidate>)
    ensures
        match r {
            Some(image) => tag_image(tag@, base@) == Some(image@),
            None => tag_image(tag@, base@) is None,
        },
{
    let src = match html_attr(tag, "src") {
        Some(text) => text,
        None => {
            return None;
        },
    };
    match resolve(base, src.as_str()) {
        Some(url) => Some(
            ImageCandidate {
                url,
                source: ImageSource::InlineHtml,
                width: side_in(html_attr(tag, "width")),
                height: side_in(html_attr(tag, "height")),
                mime_type: None,
                alt_text: html_attr(tag, "alt"),
            },
        ),
        None => None,
    }
}

/// The place of the first `>` from `from` on.
pub open spec fn tag_end(html: Seq<char>, from: int) -> Option<int> {
    find(html, seq!['>'], from)
}

/// The pictures that the `img` tags of `html` name, from `from` on.
pub open spec fn html_images(html: Seq<char>, from: int, base: Seq<char>) -> Seq<ImageView>
    decreases html.len() - from,
{
    match find(lower(html), "<img"@, from) {
        None => Seq::empty(),
        Some(at) => match tag_end(html, at + 4) {
            None => Seq::empty(),
            Some(end) => if from <= at && at + 4 <= end < html.len() {
                let rest = html_images(html, end + 1, base);
                match tag_image(html.subrange(at + 4, end), base) {
                    Some(image) => seq![image] + rest,
                    None => rest,
                }
            } else {
                Seq::empty()
            },
        },
    }
}

/// The pictures inside a text of markup.
pub open spec fn pictures_in(html: Option<Seq<char>>, base: Seq<char>) -> Seq<ImageView> {
    match html {
        Some(text) => html_images(text, 0, base),
        None => Seq::empty(),
    }
}

/// The pictures that the `img` tags of `html` name. Their addresses are
/// resolved against that of the article, else against that of the feed.
pub fn inline_images(html: Option<&str>, feed_url: &str, article_url: Option<&str>) -> (r: Vec<
    ImageCandidate,
>)
    ensures
        image_views(r@) == pictures_in(
            crate::identity::borrowed(html),
            match article_url {
                Some(url) => url@,
                None => feed_url@,
            },
        ),
{
    let mut out: Vec<ImageCandidate> = Vec::new();
    let text = match html {
        Some(text) => text,
        None => {
            assert(image_views(out@) == Seq::<ImageView>::empty());
            return out;
        },
    };
    let base = match article_url {
        Some(url) => url,
        None => feed_url,
    };
    let chars = chars_of(text);
    let small = lowered(text);
    let small_chars = chars_of(small.as_str());
    let opening = chars_of("<img");
    let mut closing: Vec<char> = Vec::new();
    closing.push('>');
    assert(closing@ == seq!['>']);
    proof {
        reveal_strlit("<img");
    }
    let ghost all = html_images(text@, 0, base@);
    let mut from: usize = 0;
    assert(image_views(out@) + all == all);
    let count: usize = chars.len();
    loop
        invariant
            from <= count == chars@.len(),
            chars@ == text@,
            small_chars@ == lower(text@),
            small_chars@.len() == count,
            opening@ == "<img"@,
            opening@.len() == 4,
            closing@ == seq!['>'],
            all == html_images(text@, 0, base@),
            all == image_views(out@) + html_images(text@, from as int, base@),
        ensures
            all == image_views(out@),
        decreases count - from,
    {
        let ghost sofar = image_views(out@);
        assert(sofar + Seq::<ImageView>::empty() == sofar);
        proof {
            lemma_find(small_chars@, opening@, from as int);
        }
        let at = match find_from(&small_chars, &opening, from) {
            Some(at) => at,
            None => {
                break;
            },
        };
        proof {
            lemma_find(chars@, closing@, at + 4);
        }
        let end = match find_from(&chars, &closing, at + 4) {
            Some(end) => end,
            None => {
                break;
            },
        };
        let tag = string_of(&chars, at + 4, end);
        let ghost rest = html_images(text@, end + 1, base@);
        if let Some(image) = read_tag(tag.as_str(), base) {
            out.push(image);
            assert(image_views(out@) == sofar.push(image@));
            assert(sofar + (seq![image@] + rest) == sofar.push(image@) + rest);
        }
        from = end + 1;
    }
    out
}

} // verus!
