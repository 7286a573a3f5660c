//! What a page says of itself: feeds, the picture of an article, the icon of
//! the site.

use crate::dates::either;
use crate::discovery::{
    candidate_views, link_views, rank_candidates, ranked, CandidateView, DiscoveryFormat,
    DiscoveryLink, LinkView,
};
use crate::html::{pick, picked, picked_views, Picked, PickedView};
use crate::images::side;
use crate::network::{FetchOutcome, NetworkError, NetworkErrorKind, NetworkErrorView};
use crate::parser::copied;
use crate::text::{
    before, before_char, contains, ends, ends_with, has, lower, lowered, parse_small_number, same,
    same_ignoring_case, split_words, view_of, views, words,
};
use crate::web::{join_address, joined_url};
use vstd::prelude::*;

verus! {

/// A feed that a page announces.
#[derive(Debug, Clone, PartialEq, Eq)]
pub struct DiscoveredFeed {
    pub url: String,
    pub format_hint: String,
    pub title_hint: Option<String>,
    pub source_page: String,
    pub rank: usize,
}

/// What a [`DiscoveredFeed`] holds.
pub struct DiscoveredView {
    pub url: Seq<char>,
    pub format_hint: Seq<char>,
    pub title_hint: Option<Seq<char>>,
    pub source_page: Seq<char>,
    pub rank: nat,
}

impl View for DiscoveredFeed {
    type V = DiscoveredView;

    open spec fn view(&self) -> DiscoveredView {
        DiscoveredView {
            url: self.url@,
            format_hint: self.format_hint@,
            title_hint: view_of(self.title_hint),
            source_page: self.source_page@,
            rank: self.rank as nat,
        }
    }
}

/// What the feeds of a list hold.
pub open spec fn discovered_views(list: Seq<DiscoveredFeed>) -> Seq<DiscoveredView> {
    Seq::new(list.len(), |i: int| list[i]@)
}

/// The feeds that a page announces, the best first.
#[derive(Debug, Clone, PartialEq, Eq)]
pub struct DiscoveryResult {
    pub source_page: String,
    pub candidates: Vec<DiscoveredFeed>,
}

/// What a [`DiscoveryResult`] holds.
pub struct DiscoveryView {
    pub source_page: Seq<char>,
    pub candidates: Seq<DiscoveredView>,
}

impl View for DiscoveryResult {
    type V = DiscoveryView;

    open spec fn view(&self) -> DiscoveryView {
        DiscoveryView {
            source_page: self.source_page@,
            candidates: discovered_views(self.candidates@),
        }
    }
}

/// The name of a format.
pub open spec fn format_name(format: DiscoveryFormat) -> Seq<char> {
    match format {
        DiscoveryFormat::Rss => "rss"@,
        DiscoveryFormat::Atom => "atom"@,
        DiscoveryFormat::Json => "json"@,
    }
}

fn name_of(format: DiscoveryFormat) -> (r: String)
    ensures
        r@ == format_name(format),
{
    match format {
        DiscoveryFormat::Rss => "rss".to_owned(),
        DiscoveryFormat::Atom => "atom".to_owned(),
        DiscoveryFormat::Json => "json".to_owned(),
    }
}

/// The link that a picked element makes.
pub open spec fn element_link(element: PickedView) -> LinkView {
    LinkView {
        href: match element.href {
            Some(text) => text,
            None => ""@,
        },
        mime_type: match element.kind {
            Some(text) => text,
            None => ""@,
        },
        title: element.title,
    }
}

/// The links that picked elements make.
pub open spec fn element_links(list: Seq<PickedView>) -> Seq<LinkView> {
    Seq::new(list.len(), |i: int| element_link(list[i]))
}

fn or_empty(value: &Option<String>) -> (r: String)
    ensures
        r@ == match view_of(*value) {
            Some(text) => text,
            None => ""@,
        },
{
    match value {
        Some(text) => text.clone(),
        None => "".to_owned(),
    }
}

fn links_of(list: &Vec<Picked>) -> (r: Vec<DiscoveryLink>)
    ensures
        link_views(r@) == element_links(picked_views(list@)),
{
    let ghost all = picked_views(list@);
    let ghost wanted = element_links(all);
    let mut out: Vec<DiscoveryLink> = Vec::new();
    let mut i: usize = 0;
    while i < list.len()
        invariant
            i <= list@.len(),
            all == picked_views(list@),
            wanted == element_links(all),
            out@.len() == i,
            forall|j: int| 0 <= j < i ==> #[trigger] out@[j]@ == wanted[j],
        decreases list@.len() - i,
    {
        assert(all[i as int] == list@[i as int]@);
        let link = DiscoveryLink {
            href: or_empty(&list[i].href),
            mime_type: or_empty(&list[i].kind),
            title: copied(&list[i].title),
        };
        assert(link@ == wanted[i as int]);
        out.push(link);
        i += 1;
    }
    assert(link_views(out@) == wanted);
    out
}

/// The feeds of a ranked list, with their ranks.
pub open spec fn numbered(source: Seq<char>, list: Seq<CandidateView>) -> Seq<DiscoveredView> {
    Seq::new(
        list.len(),
        |i: int|
            DiscoveredView {
                url: list[i].url,
                format_hint: format_name(list[i].format),
                title_hint: list[i].title,
                source_page: source,
                rank: i as nat,
            },
    )
}

/// The selector for the links by which a page announces its feeds.
pub open spec fn feed_selector() -> Seq<char> {
    "link[rel~='alternate'][href][type]"@
}

/// The feeds that the picked elements of a page announce.
pub open spec fn announced(source: Seq<char>, elements: Seq<PickedView>) -> DiscoveryView {
    DiscoveryView {
        source_page: source,
        candidates: numbered(source, ranked(source, element_links(elements))),
    }
}

/// The feeds that `elements`, picked from the page at `source_page`, announce.
pub fn announce(source_page: &str, elements: &Vec<Picked>) -> (r: DiscoveryResult)
    ensures
        r@ == announced(source_page@, picked_views(elements@)),
{
    let links = links_of(elements);
    let found = rank_candidates(source_page, &links);
    let ghost all = candidate_views(found@);
    let ghost wanted = numbered(source_page@, all);
    let mut candidates: Vec<DiscoveredFeed> = Vec::new();
    let mut i: usize = 0;
    while i < found.len()
        invariant
            i <= found@.len(),
            all == candidate_views(found@),
            wanted == numbered(source_page@, all),
            candidates@.len() == i,
            forall|j: int| 0 <= j < i ==> #[trigger] candidates@[j]@ == wanted[j],
        decreases found@.len() - i,
    {
        assert(all[i as int] == found@[i as int]@);
        let feed = DiscoveredFeed {
            url: found[i].url.clone(),
            format_hint: name_of(found[i].format),
            title_hint: copied(&found[i].title),
            source_page: source_page.to_owned(),
            rank: i,
        };
        assert(feed@ == wanted[i as int]);
        candidates.push(feed);
        i += 1;
    }
    assert(discovered_views(candidates@) == wanted);
    DiscoveryResult { source_page: source_page.to_owned(), candidates }
}

/// What comes of looking for feeds.
pub open spec fn discovery_view(r: Result<DiscoveryResult, NetworkError>) -> Result<
    DiscoveryView,
    NetworkErrorView,
> {
    match r {
        Ok(found) => Ok(found@),
        Err(error) => Err(error@),
    }
}

/// The feeds that a page announces.
pub open spec fn discovered(source: Seq<char>, html: Seq<char>) -> Result<
    DiscoveryView,
    NetworkErrorView,
> {
    match picked(html, feed_selector()) {
        Some(elements) => Ok(announced(source, elements)),
        None => Err(
            NetworkErrorView::plain(
                NetworkErrorKind::InvalidResponse,
                "invalid discovery selector"@,
            ),
        ),
    }
}

/// The feeds that the page `html` at `source_page` announces.
pub fn discover(source_page: &str, html: &str) -> (r: Result<DiscoveryResult, NetworkError>)
    ensures
        discovery_view(r) == discovered(source_page@, html@),
{
    match pick(html, "link[rel~='alternate'][href][type]") {
        Some(elements) => Ok(announce(source_page, &elements)),
        None => Err(
            NetworkError::new(
                NetworkErrorKind::InvalidResponse,
                "invalid discovery selector",
            ),
        ),
    }
}

/// How a search through elements stands.
pub enum Hunt {
    /// This is it.
    Found(Seq<char>),
    /// There is nothing to be found.
    Over,
    /// Nothing yet.
    Open,
}

/// A search through the elements from `i` on for the address of a picture: the
/// first HTTP or HTTPS one. An element without an address, or with one that is
/// none seen from the page, ends the search.
pub open spec fn hunt(source: Seq<char>, elements: Seq<PickedView>, i: int) -> Hunt
    decreases elements.len() - i,
{
    if i < 0 || i >= elements.len() {
        Hunt::Open
    } else {
        match either(elements[i].content, elements[i].href) {
            Some(reference) => match joined_url(source, reference) {
                Some(address) => if address.is_web() {
                    Hunt::Found(address.href)
                } else {
                    hunt(source, elements, i + 1)
                },
                None => Hunt::Over,
            },
            None => Hunt::Over,
        }
    }
}

/// What comes of searching through the elements: an address, the end of the
/// search, or leave to go on.
pub fn hunt_through(source_page: &str, elements: &Vec<Picked>) -> (r: Result<Option<String>, ()>)
    ensures
        match hunt(source_page@, picked_views(elements@), 0) {
            Hunt::Found(url) => r is Ok && view_of(r->Ok_0) == Some(url),
            Hunt::Over => r is Err,
            Hunt::Open => r is Ok && r->Ok_0 is None,
        },
{
    let ghost all = picked_views(elements@);
    let mut i: usize = 0;
    while i < elements.len()
        invariant
            i <= elements@.len(),
            all == picked_views(elements@),
            hunt(source_page@, all, 0) == hunt(source_page@, all, i as int),
        decreases elements@.len() - i,
    {
        assert(all[i as int] == elements@[i as int]@);
        let reference = match &elements[i].content {
            Some(text) => text.as_str(),
            None => match &elements[i].href {
                Some(text) => text.as_str(),
                None => {
                    return Err(());
                },
            },
        };
        match join_address(source_page, reference) {
            Some(address) => {
                if address.web() {
                    return Ok(Some(address.href));
                }
            },
            None => {
                return Err(());
            },
        }
        i += 1;
    }
    Ok(None)
}

/// The selectors for the elements that name the picture of an article, in the
/// order in which they are tried.
pub open spec fn image_selectors() -> Seq<Seq<char>> {
    seq![
        "meta[property='og:image'][content]"@,
        "meta[property='og:image:secure_url'][content]"@,
        "meta[name='twitter:image'][content]"@,
        "meta[name='twitter:image:src'][content]"@,
        "link[rel='image_src'][href]"@,
    ]
}

/// The picture that a page names under the first of the selectors that leads
/// to one.
pub open spec fn page_image(source: Seq<char>, html: Seq<char>, selectors: Seq<Seq<char>>) -> Option<
    Seq<char>,
>
    decreases selectors.len(),
{
    if selectors.len() == 0 {
        None
    } else {
        match picked(html, selectors[0]) {
            Some(elements) => match hunt(source, elements, 0) {
                Hunt::Found(url) => Some(url),
                Hunt::Over => None,
                Hunt::Open => page_image(source, html, selectors.skip(1)),
            },
            None => None,
        }
    }
}

/// The picture of the article on the page `html` at `source_page`.
pub fn article_image(source_page: &str, html: &str) -> (r: Option<String>)
    ensures
        view_of(r) == page_image(source_page@, html@, image_selectors()),
{
    let ghost all = image_selectors();
    let mut selectors: Vec<&str> = Vec::new();
    selectors.push("meta[property='og:image'][content]");
    selectors.push("meta[property='og:image:secure_url'][content]");
    selectors.push("meta[name='twitter:image'][content]");
    selectors.push("meta[name='twitter:image:src'][content]");
    selectors.push("link[rel='image_src'][href]");
    let mut i: usize = 0;
    assert(all.skip(0) == all);
    while i < selectors.len()
        invariant
            i <= selectors@.len() == all.len(),
            forall|j: int| 0 <= j < all.len() ==> all[j] == #[trigger] selectors@[j]@,
            page_image(source_page@, html@, all) == page_image(
                source_page@,
                html@,
                all.skip(i as int),
            ),
            all == image_selectors(),
        decreases selectors@.len() - i,
    {
        assert(all.skip(i as int)[0] == selectors@[i as int]@);
        assert(all.skip(i as int).skip(1) == all.skip(i + 1));
        match pick(html, selectors[i]) {
            Some(elements) => match hunt_through(source_page, &elements) {
                Ok(Some(url)) => {
                    return Some(url);
                },
                Ok(None) => {},
                Err(()) => {
                    return None;
                },
            },
            None => {
                return None;
            },
        }
        i += 1;
    }
    None
}

/// A relation that names an icon.
pub open spec fn is_icon_word(word: Seq<char>) -> bool {
    word == "icon"@ || word == "shortcut"@ || word == "apple-touch-icon"@ || word == "mask-icon"@
}

/// One of the words of a relation names an icon.
pub open spec fn names_icon(rel: Seq<char>) -> bool {
    exists|i: int| 0 <= i < words(rel).len() && is_icon_word(#[trigger] words(rel)[i])
}

fn icon_named(rel: &str) -> (r: bool)
    ensures
        r == names_icon(rel@),
{
    let list = split_words(rel);
    let mut i: usize = 0;
    while i < list.len()
        invariant
            i <= list@.len(),
            views(list@) == words(rel@),
            forall|j: int| 0 <= j < i ==> !is_icon_word(#[trigger] words(rel@)[j]),
        decreases list@.len() - i,
    {
        assert(words(rel@)[i as int] == list@[i as int]@);
        if same(list[i].as_str(), "icon") || same(list[i].as_str(), "shortcut") || same(
            list[i].as_str(),
            "apple-touch-icon",
        ) || same(list[i].as_str(), "mask-icon") {
            return true;
        }
        i += 1;
    }
    assert(words(rel@).len() == list@.len());
    false
}

/// An icon: a drawing or a picture, how large it is, and whether it is only a
/// mask.
pub struct IconView {
    pub url: Seq<char>,
    pub is_svg: bool,
    pub size: u32,
    pub is_mask: bool,
}

/// The icon that an element names.
pub open spec fn icon_of(source: Seq<char>, element: PickedView) -> Option<IconView> {
    if element.rel is Some && element.href is Some && names_icon(lower(element.rel->0)) {
        match joined_url(source, element.href->0) {
            Some(address) => if address.is_web() {
                Some(
                    IconView {
                        url: address.href,
                        is_svg: lower(
                            match element.kind {
                                Some(kind) => kind,
                                None => ""@,
                            },
                        ) == lower("image/svg+xml"@) || ends_with(lower(address.path), ".svg"@),
                        size: match element.sizes {
                            Some(text) => match side(Some(before_char(text, 'x'))) {
                                Some(n) => n,
                                None => 0,
                            },
                            None => 0,
                        },
                        is_mask: contains(lower(element.rel->0), "mask-icon"@),
                    },
                )
            } else {
                None
            },
            None => None,
        }
    } else {
        None
    }
}

/// The icon `a` is to be preferred to `b`: pictures to drawings, the larger one
/// to the smaller, and then what is no mask.
pub open spec fn is_better_icon(a: IconView, b: IconView) -> bool {
    if a.is_svg != b.is_svg {
        b.is_svg
    } else if a.size != b.size {
        a.size > b.size
    } else {
        !a.is_mask && b.is_mask
    }
}

/// The best icon that the elements of a list name; the first one among equals.
pub open spec fn best_icon(source: Seq<char>, elements: Seq<PickedView>) -> Option<IconView>
    decreases elements.len(),
{
    if elements.len() == 0 {
        None
    } else {
        let before = best_icon(source, elements.drop_last());
        match (before, icon_of(source, elements.last())) {
            (Some(best), Some(icon)) => if is_better_icon(icon, best) {
                Some(icon)
            } else {
                Some(best)
            },
            (None, icon) => icon,
            (best, None) => best,
        }
    }
}

struct Icon {
    url: String,
    is_svg: bool,
    size: u32,
    is_mask: bool,
}

impl View for Icon {
    type V = IconView;

    closed spec fn view(&self) -> IconView {
        IconView {
            url: self.url@,
            is_svg: self.is_svg,
            size: self.size,
            is_mask: self.is_mask,
        }
    }
}

fn read_icon(source: &str, element: &Picked) -> (r: Option<Icon>)
    ensures
        match r {
            Some(icon) => icon_of(source@, element@) == Some(icon@),
            None => icon_of(source@, element@) is None,
        },
{
    let rel = match &element.rel {
        Some(text) => lowered(text.as_str()),
        None => {
            return None;
        },
    };
    if !icon_named(rel.as_str()) {
        return None;
    }
    let href = match &element.href {
        Some(text) => text.as_str(),
        None => {
            return None;
        },
    };
    let address = match join_address(source, href) {
        Some(address) => address,
        None => {
            return None;
        },
    };
    if !address.web() {
        return None;
    }
    let kind = match &element.kind {
        Some(text) => text.as_str(),
        None => "",
    };
    let path = lowered(address.path.as_str());
    let is_svg = same_ignoring_case(kind, "image/svg+xml") || ends(path.as_str(), ".svg");
    let size: u32 = match &element.sizes {
        Some(text) => match parse_small_number(before(text.as_str(), 'x').as_str()) {
            Some(n) => n,
            None => 0,
        },
        None => 0,
    };
    let is_mask = has(rel.as_str(), "mask-icon");
    Some(Icon { url: address.href, is_svg, size, is_mask })
}

/// The address of the best icon that `elements` name.
pub fn choose_icon(source_page: &str, elements: &Vec<Picked>) -> (r: Option<String>)
    ensures
        view_of(r) == match best_icon(source_page@, picked_views(elements@)) {
            Some(icon) => Some(icon.url),
            None => None,
        },
{
    let ghost all = picked_views(elements@);
    let mut best: Option<Icon> = None;
    let mut i: usize = 0;
    while i < elements.len()
        invariant
            i <= elements@.len(),
            all == picked_views(elements@),
            match best {
                Some(icon) => best_icon(source_page@, all.take(i as int)) == Some(icon@),
                None => best_icon(source_page@, all.take(i as int)) is None,
            },
        decreases elements@.len() - i,
    {
        assert(all.take(i + 1).drop_last() == all.take(i as int));
        assert(all.take(i + 1).last() == elements@[i as int]@);
        if let Some(icon) = read_icon(source_page, &elements[i]) {
            let better = match &best {
                Some(old) => {
                    if icon.is_svg != old.is_svg {
                        old.is_svg
                    } else if icon.size != old.size {
                        icon.size > old.size
                    } else {
                        !icon.is_mask && old.is_mask
                    }
                },
                None => true,
            };
            if better {
                best = Some(icon);
            }
        }
        i += 1;
    }
    assert(all.take(i as int) == all);
    match best {
        Some(icon) => Some(icon.url),
        None => None,
    }
}

/// The icon that a page names for its site.
pub open spec fn page_icon(source: Seq<char>, html: Seq<char>) -> Option<Seq<char>> {
    match picked(html, "link[href][rel]"@) {
        Some(elements) => match best_icon(source, elements) {
            Some(icon) => Some(icon.url),
            None => None,
        },
        None => None,
    }
}

/// The icon of the site that the page `html` at `source_page` belongs to.
pub fn site_icon(source_page: &str, html: &str) -> (r: Option<String>)
    ensures
        view_of(r) == page_icon(source_page@, html@),
{
    match pick(html, "link[href][rel]") {
        Some(elements) => choose_icon(source_page, &elements),
        None => None,
    }
}

/// The best icon of a list is one that an element names, and no element names
/// a better one.
pub proof fn law_best_icon_is_best(source: Seq<char>, elements: Seq<PickedView>)
    ensures
        match best_icon(source, elements) {
            Some(best) => {
                &&& exists|i: int|
                    0 <= i < elements.len() && icon_of(source, #[trigger] elements[i]) == Some(best)
                &&& forall|i: int|
                    0 <= i < elements.len() && icon_of(source, #[trigger] elements[i]) is Some
                        ==> !is_better_icon(icon_of(source, elements[i])->0, best)
            },
            None => forall|i: int|
                0 <= i < elements.len() ==> icon_of(source, #[trigger] elements[i]) is None,
        },
    decreases elements.len(),
{
    if elements.len() > 0 {
        let shorter = elements.drop_last();
        law_best_icon_is_best(source, shorter);
        assert(forall|i: int| 0 <= i < shorter.len() ==> #[trigger] elements[i] == shorter[i]);
        assert(elements[elements.len() - 1] == elements.last());
        if best_icon(source, shorter) is Some {
            let best = best_icon(source, shorter)->0;
            let k = choose|k: int|
                0 <= k < shorter.len() && icon_of(source, #[trigger] shorter[k]) == Some(best);
            assert(icon_of(source, elements[k]) == Some(best));
        }
    }
}

/// The feeds that a page, fetched, announces; the word that it did not change
/// announces none.
pub fn discover_outcome(outcome: FetchOutcome) -> (r: Result<DiscoveryResult, NetworkError>)
    ensures
        discovery_view(r) == match outcome {
            FetchOutcome::Modified(response) => discovered(response.final_url@, response.body@),
            FetchOutcome::NotModified(_) => Err(
                NetworkErrorView::plain(
                    NetworkErrorKind::InvalidResponse,
                    "unexpected 304 discovery response"@,
                ),
            ),
        },
{
    match outcome {
        FetchOutcome::Modified(response) => discover(
            response.final_url.as_str(),
            response.body.as_str(),
        ),
        FetchOutcome::NotModified(_) => Err(
            NetworkError::new(
                NetworkErrorKind::InvalidResponse,
                "unexpected 304 discovery response",
            ),
        ),
    }
}

/// The picture of an article that its page, fetched, names; the word that the
/// page did not change names none.
pub fn image_outcome(outcome: &FetchOutcome) -> (r: Option<String>)
    ensures
        view_of(r) == match outcome {
            FetchOutcome::Modified(response) => page_image(
                response.final_url@,
                response.body@,
                image_selectors(),
            ),
            FetchOutcome::NotModified(_) => None,
        },
{
    match outcome {
        FetchOutcome::Modified(response) => article_image(
            response.final_url.as_str(),
            response.body.as_str(),
        ),
        FetchOutcome::NotModified(_) => None,
    }
}

/// The icon of a site that its page, fetched, names; the word that the page did
/// not change names none.
pub fn icon_outcome(outcome: &FetchOutcome) -> (r: Option<String>)
    ensures
        view_of(r) == match outcome {
            FetchOutcome::Modified(response) => page_icon(response.final_url@, response.body@),
            FetchOutcome::NotModified(_) => None,
        },
{
    match outcome {
        FetchOutcome::Modified(response) => site_icon(
            response.final_url.as_str(),
            response.body.as_str(),
        ),
        FetchOutcome::NotModified(_) => None,
    }
}

} // verus!
