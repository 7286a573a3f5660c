//! Feeds in their three formats, read into one shape.

use crate::dates::{either, time_in};
use crate::error::{CoreError, CoreErrorView};
use crate::identity::{
    borrowed, normal_url, normalize_url, small_letters, to_small_letters,
};
use crate::images::{
    distinct_images, image_views, pictures_in, inline_images, select_image, selected, side, side_in,
    unique_candidates, ImageView,
};
use crate::markup::{plain, plain_text};
use crate::text::{
    byte_len, decimal_int, lower, lowered, same, same_ignoring_case, signed_text, starts_with, trim,
    trim_start, trimmed, view_of, views,
};
use crate::unique::{
    distinct_texts, firsts, is_first, lemma_firsts_step, mark_firsts, unique_strings,
};
use crate::web::{host_name, host_of, resolve, resolved};
use crate::xml::{
    attribute, child, child_of, children, children_of, deeper_than, descendants, descendants_of,
    exceeds_depth, first_element, node_views, parsed_xml, places, root_element, XmlNode, XmlView,
};
use vstd::prelude::*;

pub use crate::dates::parse_date;
pub use crate::images::{ImageCandidate, ImageSource};

verus! {

/// The longest document that is read, in bytes.
pub const MAX_DOCUMENT_BYTES: usize = 4_194_304;

/// The most articles that a document may hold.
pub const MAX_ARTICLES: usize = 10_000;

/// The longest text of an element that is kept, in bytes.
pub const MAX_STRING_BYTES: usize = 524_288;

/// The deepest nesting of elements that is read.
pub const MAX_XML_DEPTH: usize = 64;

/// The format of a feed.
#[derive(Debug, Clone, Copy, PartialEq, Eq, Structural)]
pub enum FeedFormat {
    Rss,
    Atom,
    Json,
}

/// An article of a feed.
#[derive(Debug, PartialEq, Eq)]
pub struct ParsedArticle {
    pub stable_id: String,
    pub title: String,
    pub url: Option<String>,
    pub author: Option<String>,
    pub published_at: Option<i64>,
    pub updated_at: Option<i64>,
    pub summary: Option<String>,
    pub content: Option<String>,
    pub image: Option<ImageCandidate>,
    pub image_candidates: Vec<ImageCandidate>,
    pub enclosure_url: Option<String>,
    pub enclosure_type: Option<String>,
    pub categories: Vec<String>,
}

/// What a [`ParsedArticle`] holds.
pub struct ArticleView {
    pub stable_id: Seq<char>,
    pub title: Seq<char>,
    pub url: Option<Seq<char>>,
    pub author: Option<Seq<char>>,
    pub published_at: Option<i64>,
    pub updated_at: Option<i64>,
    pub summary: Option<Seq<char>>,
    pub content: Option<Seq<char>>,
    pub image: Option<ImageView>,
    pub image_candidates: Seq<ImageView>,
    pub enclosure_url: Option<Seq<char>>,
    pub enclosure_type: Option<Seq<char>>,
    pub categories: Seq<Seq<char>>,
}

/// What an optional picture holds.
pub open spec fn image_view(image: Option<ImageCandidate>) -> Option<ImageView> {
    match image {
        Some(candidate) => Some(candidate@),
        None => None,
    }
}

impl View for ParsedArticle {
    type V = ArticleView;

    open spec fn view(&self) -> ArticleView {
        ArticleView {
            stable_id: self.stable_id@,
            title: self.title@,
            url: view_of(self.url),
            author: view_of(self.author),
            published_at: self.published_at,
            updated_at: self.updated_at,
            summary: view_of(self.summary),
            content: view_of(self.content),
            image: image_view(self.image),
            image_candidates: image_views(self.image_candidates@),
            enclosure_url: view_of(self.enclosure_url),
            enclosure_type: view_of(self.enclosure_type),
            categories: views(self.categories@),
        }
    }
}

/// What the articles of a list hold.
pub open spec fn article_views(list: Seq<ParsedArticle>) -> Seq<ArticleView> {
    Seq::new(list.len(), |i: int| list[i]@)
}

/// A copy of an optional text.
pub fn copied(value: &Option<String>) -> (r: Option<String>)
    ensures
        r == *value,
{
    match value {
        Some(text) => Some(text.clone()),
        None => None,
    }
}

/// A copy of a list of texts.
pub fn copied_list(values: &Vec<String>) -> (r: Vec<String>)
    ensures
        views(r@) == views(values@),
{
    let mut out: Vec<String> = Vec::new();
    let mut i: usize = 0;
    while i < values.len()
        invariant
            i <= values@.len(),
            out@.len() == i,
            forall|j: int| 0 <= j < i ==> #[trigger] out@[j]@ == values@[j]@,
        decreases values@.len() - i,
    {
        out.push(values[i].clone());
        i += 1;
    }
    assert(views(out@) == views(values@));
    out
}

fn copied_images(values: &Vec<ImageCandidate>) -> (r: Vec<ImageCandidate>)
    ensures
        image_views(r@) == image_views(values@),
{
    let mut out: Vec<ImageCandidate> = Vec::new();
    let mut i: usize = 0;
    while i < values.len()
        invariant
            i <= values@.len(),
            out@.len() == i,
            forall|j: int| 0 <= j < i ==> #[trigger] out@[j]@ == values@[j]@,
        decreases values@.len() - i,
    {
        out.push(values[i].clone());
        i += 1;
    }
    assert(image_views(out@) == image_views(values@));
    out
}

impl Clone for ParsedArticle {
    fn clone(&self) -> (r: Self)
        ensures
            r@ == self@,
    {
        ParsedArticle {
            stable_id: self.stable_id.clone(),
            title: self.title.clone(),
            url: copied(&self.url),
            author: copied(&self.author),
            published_at: self.published_at,
            updated_at: self.updated_at,
            summary: copied(&self.summary),
            content: copied(&self.content),
            image: match &self.image {
                Some(image) => Some(image.clone()),
                None => None,
            },
            image_candidates: copied_images(&self.image_candidates),
            enclosure_url: copied(&self.enclosure_url),
            enclosure_type: copied(&self.enclosure_type),
            categories: copied_list(&self.categories),
        }
    }
}

/// A feed with its articles.
#[derive(Debug, PartialEq, Eq)]
pub struct ParsedFeed {
    pub format: FeedFormat,
    pub title: String,
    pub description: Option<String>,
    pub site_url: Option<String>,
    pub subscription_url: Option<String>,
    pub language: Option<String>,
    pub icon_candidates: Vec<String>,
    pub feed_image: Option<String>,
    pub articles: Vec<ParsedArticle>,
}

/// What a [`ParsedFeed`] holds.
pub struct FeedView {
    pub format: FeedFormat,
    pub title: Seq<char>,
    pub description: Option<Seq<char>>,
    pub site_url: Option<Seq<char>>,
    pub subscription_url: Option<Seq<char>>,
    pub language: Option<Seq<char>>,
    pub icon_candidates: Seq<Seq<char>>,
    pub feed_image: Option<Seq<char>>,
    pub articles: Seq<ArticleView>,
}

impl View for ParsedFeed {
    type V = FeedView;

    open spec fn view(&self) -> FeedView {
        FeedView {
            format: self.format,
            title: self.title@,
            description: view_of(self.description),
            site_url: view_of(self.site_url),
            subscription_url: view_of(self.subscription_url),
            language: view_of(self.language),
            icon_candidates: views(self.icon_candidates@),
            feed_image: view_of(self.feed_image),
            articles: article_views(self.articles@),
        }
    }
}

impl Clone for ParsedFeed {
    fn clone(&self) -> (r: Self)
        ensures
            r@ == self@,
    {
        let mut articles: Vec<ParsedArticle> = Vec::new();
        let mut i: usize = 0;
        while i < self.articles.len()
            invariant
                i <= self.articles@.len(),
                articles@.len() == i,
                forall|j: int| 0 <= j < i ==> #[trigger] articles@[j]@ == self.articles@[j]@,
            decreases self.articles@.len() - i,
        {
            articles.push(self.articles[i].clone());
            i += 1;
        }
        assert(article_views(articles@) == article_views(self.articles@));
        ParsedFeed {
            format: self.format,
            title: self.title.clone(),
            description: copied(&self.description),
            site_url: copied(&self.site_url),
            subscription_url: copied(&self.subscription_url),
            language: copied(&self.language),
            icon_candidates: copied_list(&self.icon_candidates),
            feed_image: copied(&self.feed_image),
            articles,
        }
    }
}

/// What comes of reading a document.
pub open spec fn feed_result(r: Result<ParsedFeed, CoreError>) -> Result<
    FeedView,
    CoreErrorView,
> {
    match r {
        Ok(feed) => Ok(feed@),
        Err(error) => Err(error@),
    }
}

/// A text without white space round it, where that leaves something of a
/// permitted length.
pub open spec fn cleaned(text: Seq<char>) -> Option<Seq<char>> {
    if trim(text).len() > 0 && byte_len(trim(text)) <= MAX_STRING_BYTES {
        Some(trim(text))
    } else {
        None
    }
}

/// An optional text, cleaned.
pub open spec fn cleaned_text(text: Option<Seq<char>>) -> Option<Seq<char>> {
    match text {
        Some(t) => cleaned(t),
        None => None,
    }
}

/// `value` without white space round it, where that leaves something of a
/// permitted length.
pub fn clean_optional(value: &str) -> (r: Option<String>)
    ensures
        view_of(r) == cleaned(value@),
{
    let bare = trimmed(value);
    if !bare.as_str().is_empty() && bare.as_str().as_bytes().len() <= MAX_STRING_BYTES {
        Some(bare)
    } else {
        None
    }
}

fn clean_text(value: Option<String>) -> (r: Option<String>)
    ensures
        view_of(r) == cleaned_text(view_of(value)),
{
    match value {
        Some(text) => clean_optional(text.as_str()),
        None => None,
    }
}

/// The plain words of an optional text.
pub open spec fn plain_of(text: Option<Seq<char>>) -> Option<Seq<char>> {
    match text {
        Some(t) => Some(plain(t)),
        None => None,
    }
}

fn plain_option(value: Option<String>) -> (r: Option<String>)
    ensures
        view_of(r) == plain_of(view_of(value)),
{
    match value {
        Some(text) => Some(plain_text(text.as_str())),
        None => None,
    }
}

/// The plain words of a title, where it has any.
pub open spec fn worded(title: Option<Seq<char>>) -> Option<Seq<char>> {
    match title {
        Some(text) => if plain(text).len() > 0 {
            Some(plain(text))
        } else {
            None
        },
        None => None,
    }
}

fn words_of_title(title: Option<String>) -> (r: Option<String>)
    ensures
        view_of(r) == worded(view_of(title)),
{
    match title {
        Some(text) => {
            let words = plain_text(text.as_str());
            if words.as_str().is_empty() {
                None
            } else {
                Some(words)
            }
        },
        None => None,
    }
}

/// The title of an article.
pub open spec fn article_title(title: Option<Seq<char>>) -> Seq<char> {
    match worded(title) {
        Some(words) => words,
        None => "Untitled Article"@,
    }
}

pub(crate) fn title_of_article(title: Option<String>) -> (r: String)
    ensures
        r@ == article_title(view_of(title)),
{
    match words_of_title(title) {
        Some(words) => words,
        None => "Untitled Article".to_owned(),
    }
}

/// The title of a feed: its own, else the host that it comes from.
pub open spec fn feed_title(title: Option<Seq<char>>, source: Seq<char>) -> Seq<char> {
    match either(worded(title), host_name(source)) {
        Some(words) => words,
        None => "Untitled Feed"@,
    }
}

/// The title of a feed: the plain words of `value`, else the host of `source`.
pub fn clean_title(value: Option<String>, source: &str) -> (r: String)
    ensures
        r@ == feed_title(view_of(value), source@),
{
    match words_of_title(value) {
        Some(words) => words,
        None => match host_of(source) {
            Some(host) => host,
            None => "Untitled Feed".to_owned(),
        },
    }
}

/// An optional reference resolved against `base`.
pub open spec fn resolved_text(base: Seq<char>, value: Option<Seq<char>>) -> Option<Seq<char>> {
    match value {
        Some(text) => resolved(base, text),
        None => None,
    }
}

pub(crate) fn resolve_text(base: &str, value: Option<String>) -> (r: Option<String>)
    ensures
        view_of(r) == resolved_text(base@, view_of(value)),
{
    match value {
        Some(text) => resolve(base, text.as_str()),
        None => None,
    }
}

/// The time in an optional text.
pub open spec fn dated(text: Option<Seq<char>>) -> Option<i64> {
    match text {
        Some(t) => time_in(t),
        None => None,
    }
}

pub(crate) fn read_date(text: Option<String>) -> (r: Option<i64>)
    ensures
        r == dated(view_of(text)),
{
    match text {
        Some(t) => parse_date(t.as_str()),
        None => None,
    }
}

/// The text of an optional string, borrowed.
pub fn lent(value: &Option<String>) -> (r: Option<&str>)
    ensures
        borrowed(r) == view_of(*value),
{
    match value {
        Some(text) => Some(text.as_str()),
        None => None,
    }
}

/// What tells an article from the others of its document: the publisher's own
/// identifier, else the address in normal form, else title, date and author in
/// small letters.
pub open spec fn stable_id(
    explicit: Option<Seq<char>>,
    url: Option<Seq<char>>,
    title: Seq<char>,
    published: Option<i64>,
    author: Option<Seq<char>>,
) -> Seq<char> {
    if explicit is Some && trim(explicit->0).len() > 0 {
        trim(explicit->0)
    } else if url is Some {
        "url:"@ + normal_url(url->0)
    } else {
        "fallback:"@ + small_letters(title) + "|"@ + (match published {
            Some(seconds) => decimal_int(seconds as int),
            None => "undated"@,
        }) + "|"@ + small_letters(
            trim(
                match author {
                    Some(name) => name,
                    None => ""@,
                },
            ),
        )
    }
}

/// What tells an article from the others of its document.
pub fn parser_stable_id(
    explicit: Option<&str>,
    url: Option<&str>,
    title: &str,
    published: Option<i64>,
    author: Option<&str>,
) -> (r: String)
    ensures
        r@ == stable_id(borrowed(explicit), borrowed(url), title@, published, borrowed(author)),
{
    if let Some(value) = explicit {
        let bare = trimmed(value);
        if !bare.as_str().is_empty() {
            return bare;
        }
    }
    if let Some(value) = url {
        let normal = normalize_url(value);
        let mut out = "url:".to_owned();
        out.append(normal.as_str());
        return out;
    }
    let small_title = to_small_letters(title);
    let date = match published {
        Some(seconds) => signed_text(seconds),
        None => "undated".to_owned(),
    };
    let name = match author {
        Some(name) => name,
        None => "",
    };
    let bare_name = trimmed(name);
    let small_name = to_small_letters(bare_name.as_str());
    let mut out = "fallback:".to_owned();
    out.append(small_title.as_str());
    out.append("|");
    out.append(date.as_str());
    out.append("|");
    out.append(small_name.as_str());
    out
}

/// The identifiers of the articles of a list.
pub open spec fn article_ids(list: Seq<ArticleView>) -> Seq<Seq<char>> {
    Seq::new(list.len(), |i: int| list[i].stable_id)
}

/// The articles of a list, each identifier once.
pub open spec fn distinct_articles(list: Seq<ArticleView>) -> Seq<ArticleView> {
    firsts(list, article_ids(list))
}

/// The articles of `values`, of those with one identifier only the first.
pub fn deduplicate(values: Vec<ParsedArticle>) -> (r: Vec<ParsedArticle>)
    ensures
        article_views(r@) == distinct_articles(article_views(values@)),
{
    let ghost all = article_views(values@);
    let ghost names = article_ids(all);
    let mut keys: Vec<String> = Vec::new();
    let mut i: usize = 0;
    while i < values.len()
        invariant
            i <= values@.len(),
            all == article_views(values@),
            names == article_ids(all),
            views(keys@) == names.take(i as int),
        decreases values@.len() - i,
    {
        assert(all[i as int] == values@[i as int]@);
        let ghost before = keys@;
        keys.push(values[i].stable_id.clone());
        assert(views(keys@) == views(before).push(names[i as int]));
        assert(names.take(i + 1) == names.take(i as int).push(names[i as int]));
        i += 1;
    }
    assert(names.take(i as int) == names);
    assert(views(keys@).len() == keys@.len());
    let marks = mark_firsts(&keys);
    let mut out: Vec<ParsedArticle> = Vec::new();
    assert(article_views(out@) == firsts(all.take(0), names.take(0)));
    let count: usize = marks.len();
    let mut k: usize = 0;
    for value in iter: values
        invariant
            iter.seq() == values@,
            count == marks@.len(),
            k == iter.index(),
            all == article_views(values@),
            names == article_ids(all),
            all.len() == marks@.len(),
            forall|j: int| 0 <= j < marks@.len() ==> #[trigger] marks@[j] == is_first(names, j),
            article_views(out@) == firsts(all.take(k as int), names.take(k as int)),
    {
        proof {
            lemma_firsts_step(all, names, k as int);
        }
        assert(all[k as int] == value@);
        let ghost before = out@;
        if marks[k] {
            out.push(value);
            assert(article_views(out@) == article_views(before).push(all[k as int]));
        }
        k += 1;
    }
    assert(all.take(all.len() as int) == all);
    assert(names.take(all.len() as int) == names);
    out
}

/// The text of a node, cleaned.
pub open spec fn node_text(node: XmlView) -> Option<Seq<char>> {
    cleaned_text(node.text)
}

fn text_at(nodes: &Vec<XmlNode>, i: usize) -> (r: Option<String>)
    requires
        i < nodes@.len(),
    ensures
        view_of(r) == node_text(nodes@[i as int]@),
{
    match &nodes[i].text {
        Some(text) => clean_optional(text.as_str()),
        None => None,
    }
}

/// The text of the first child of `p` named `key`.
pub open spec fn child_text(nodes: Seq<XmlView>, p: int, key: Seq<char>) -> Option<Seq<char>> {
    match child(nodes, p, key) {
        Some(i) => node_text(nodes[i]),
        None => None,
    }
}

fn text_of_child(nodes: &Vec<XmlNode>, p: usize, key: &str) -> (r: Option<String>)
    requires
        p < nodes@.len(),
    ensures
        view_of(r) == child_text(node_views(nodes@), p as int, key@),
{
    match child_of(nodes, p, key) {
        Some(i) => text_at(nodes, i),
        None => None,
    }
}

/// A link with the relation `relation`; a link that names none is an
/// alternate.
pub open spec fn has_relation(node: XmlView, relation: Seq<char>) -> bool {
    lower(
        match attribute(node, "rel"@) {
            Some(rel) => rel,
            None => "alternate"@,
        },
    ) == lower(relation)
}

fn related(node: &XmlNode, relation: &str) -> (r: bool)
    ensures
        r == has_relation(node@, relation@),
{
    match node.attribute("rel") {
        Some(rel) => same_ignoring_case(rel.as_str(), relation),
        None => same_ignoring_case("alternate", relation),
    }
}

/// The first of the nodes at `list` with the relation `relation` and, where
/// `kind` is given, that very type.
pub open spec fn first_link(
    nodes: Seq<XmlView>,
    list: Seq<int>,
    relation: Seq<char>,
    kind: Option<Seq<char>>,
) -> Option<int>
    decreases list.len(),
{
    if list.len() == 0 {
        None
    } else if has_relation(nodes[list[0]], relation) && (kind is None || attribute(
        nodes[list[0]],
        "type"@,
    ) == kind) {
        Some(list[0])
    } else {
        first_link(nodes, list.skip(1), relation, kind)
    }
}

fn find_link(
    nodes: &Vec<XmlNode>,
    list: &Vec<usize>,
    relation: &str,
    kind: Option<&str>,
) -> (r: Option<usize>)
    requires
        forall|j: int| 0 <= j < list@.len() ==> #[trigger] list@[j] < nodes@.len(),
    ensures
        match r {
            Some(i) => first_link(
                node_views(nodes@),
                places(list@),
                relation@,
                borrowed(kind),
            ) == Some(i as int) && i < nodes@.len(),
            None => first_link(node_views(nodes@), places(list@), relation@, borrowed(kind)) is None,
        },
{
    let ghost all = node_views(nodes@);
    let ghost at = places(list@);
    let mut i: usize = 0;
    assert(at.skip(0) == at);
    while i < list.len()
        invariant
            i <= list@.len(),
            all == node_views(nodes@),
            at == places(list@),
            forall|j: int| 0 <= j < list@.len() ==> #[trigger] list@[j] < nodes@.len(),
            first_link(all, at, relation@, borrowed(kind)) == first_link(
                all,
                at.skip(i as int),
                relation@,
                borrowed(kind),
            ),
        decreases list@.len() - i,
    {
        let k = list[i];
        assert(at[i as int] == k as int);
        assert(all[k as int] == nodes@[k as int]@);
        assert(at.skip(i as int)[0] == k as int);
        assert(at.skip(i as int).skip(1) == at.skip(i + 1));
        if related(&nodes[k], relation) {
            let fits = match kind {
                Some(wanted) => match nodes[k].attribute("type") {
                    Some(given) => same(given.as_str(), wanted),
                    None => false,
                },
                None => true,
            };
            if fits {
                return Some(k);
            }
        }
        i += 1;
    }
    None
}

/// The address of the link of `p` with the relation `relation`: the first one
/// of the type `preferred`, where one is given, else the first one.
pub open spec fn link_address(
    nodes: Seq<XmlView>,
    p: int,
    source: Seq<char>,
    relation: Seq<char>,
    preferred: Option<Seq<char>>,
) -> Option<Seq<char>> {
    let links = children(nodes, p, "link"@);
    let typed = if preferred is Some {
        first_link(nodes, links, relation, preferred)
    } else {
        None
    };
    match either(typed, first_link(nodes, links, relation, None)) {
        Some(i) => resolved_text(source, attribute(nodes[i], "href"@)),
        None => None,
    }
}

fn atom_link(
    nodes: &Vec<XmlNode>,
    p: usize,
    source: &str,
    relation: &str,
    preferred: Option<&str>,
) -> (r: Option<String>)
    requires
        p < nodes@.len(),
    ensures
        view_of(r) == link_address(
            node_views(nodes@),
            p as int,
            source@,
            relation@,
            borrowed(preferred),
        ),
{
    let links = children_of(nodes, p, "link");
    let typed = match preferred {
        Some(_) => find_link(nodes, &links, relation, preferred),
        None => None,
    };
    let chosen = match typed {
        Some(i) => Some(i),
        None => find_link(nodes, &links, relation, None),
    };
    match chosen {
        Some(i) => resolve_text(source, nodes[i].attribute("href")),
        None => None,
    }
}

/// The source of a picture that an element names, and its address as written:
/// a thumbnail, a piece of content with an address, or an enclosure whose type
/// is that of a picture.
pub open spec fn media_reference(node: XmlView) -> Option<(ImageSource, Seq<char>)> {
    let url = attribute(node, "url"@);
    if !node.is_element {
        None
    } else if node.name == "thumbnail"@ {
        match url {
            Some(text) => Some((ImageSource::MediaThumbnail, text)),
            None => None,
        }
    } else if node.name == "content"@ {
        match url {
            Some(text) => Some((ImageSource::MediaContent, text)),
            None => None,
        }
    } else if node.name == "enclosure"@ && is_image_type(attribute(node, "type"@)) {
        match either(url, attribute(node, "href"@)) {
            Some(text) => Some((ImageSource::Enclosure, text)),
            None => None,
        }
    } else {
        None
    }
}

/// A media type that is given and is that of a picture.
pub open spec fn is_image_type(kind: Option<Seq<char>>) -> bool {
    match kind {
        Some(text) => starts_with(text, "image/"@),
        None => false,
    }
}

pub(crate) fn image_type(kind: &Option<String>) -> (r: bool)
    ensures
        r == is_image_type(view_of(*kind)),
{
    match kind {
        Some(text) => crate::text::begins(text.as_str(), "image/"),
        None => false,
    }
}

/// The element says of itself that it is no picture.
pub open spec fn denies_image(node: XmlView) -> bool {
    let medium = attribute(node, "medium"@);
    let kind = attribute(node, "type"@);
    (medium is Some && lower(medium->0) != lower("image"@)) || (kind is Some && !is_image_type(kind))
}

/// The picture that an element names.
pub open spec fn media_image(node: XmlView, source: Seq<char>) -> Option<ImageView> {
    match media_reference(node) {
        Some((origin, reference)) => if denies_image(node) {
            None
        } else {
            match resolved(source, reference) {
                Some(url) => Some(
                    ImageView {
                        url,
                        source: origin,
                        width: side(attribute(node, "width"@)),
                        height: side(attribute(node, "height"@)),
                        mime_type: attribute(node, "type"@),
                        alt_text: None,
                    },
                ),
                None => None,
            }
        },
        None => None,
    }
}

fn reference_in(node: &XmlNode) -> (r: Option<(ImageSource, String)>)
    ensures
        match r {
            Some((origin, text)) => media_reference(node@) == Some((origin, text@)),
            None => media_reference(node@) is None,
        },
{
    if !node.is_element {
        return None;
    }
    let url = node.attribute("url");
    if same(node.name.as_str(), "thumbnail") {
        match url {
            Some(text) => Some((ImageSource::MediaThumbnail, text)),
            None => None,
        }
    } else if same(node.name.as_str(), "content") {
        match url {
            Some(text) => Some((ImageSource::MediaContent, text)),
            None => None,
        }
    } else if same(node.name.as_str(), "enclosure") && image_type(&node.attribute("type")) {
        match url {
            Some(text) => Some((ImageSource::Enclosure, text)),
            None => match node.attribute("href") {
                Some(text) => Some((ImageSource::Enclosure, text)),
                None => None,
            },
        }
    } else {
        None
    }
}

fn denied(node: &XmlNode) -> (r: bool)
    ensures
        r == denies_image(node@),
{
    if let Some(medium) = node.attribute("medium") {
        if !same_ignoring_case(medium.as_str(), "image") {
            return true;
        }
    }
    let kind = node.attribute("type");
    kind.is_some() && !image_type(&kind)
}

fn read_media(node: &XmlNode, source: &str) -> (r: Option<ImageCandidate>)
    ensures
        match r {
            Some(image) => media_image(node@, source@) == Some(image@),
            None => media_image(node@, source@) is None,
        },
{
    match reference_in(node) {
        Some((origin, reference)) => {
            if denied(node) {
                return None;
            }
            match resolve(source, reference.as_str()) {
                Some(url) => Some(
                    ImageCandidate {
                        url,
                        source: origin,
                        width: side_in(node.attribute("width")),
                        height: side_in(node.attribute("height")),
                        mime_type: node.attribute("type"),
                        alt_text: None,
                    },
                ),
                None => None,
            }
        },
        None => None,
    }
}

/// The pictures that elements of the subtree of `p` name, from `i` on.
pub open spec fn media_from(nodes: Seq<XmlView>, p: int, i: int, source: Seq<char>) -> Seq<
    ImageView,
>
    decreases nodes.len() - i,
{
    if i >= nodes.len() || (i > p && nodes[i].depth <= nodes[p].depth) {
        Seq::empty()
    } else {
        let rest = media_from(nodes, p, i + 1, source);
        match media_image(nodes[i], source) {
            Some(image) => seq![image] + rest,
            None => rest,
        }
    }
}

/// The pictures that `p` and the elements below it name.
pub open spec fn media(nodes: Seq<XmlView>, p: int, source: Seq<char>) -> Seq<ImageView> {
    media_from(nodes, p, p, source)
}

fn media_candidates(nodes: &Vec<XmlNode>, p: usize, source: &str) -> (r: Vec<ImageCandidate>)
    requires
        p < nodes@.len(),
    ensures
        image_views(r@) == media(node_views(nodes@), p as int, source@),
{
    let ghost all = node_views(nodes@);
    let ghost whole = media(all, p as int, source@);
    let mut out: Vec<ImageCandidate> = Vec::new();
    let mut i: usize = p;
    assert(image_views(out@) + whole == whole);
    while i < nodes.len() && (i == p || nodes[i].depth > nodes[p].depth)
        invariant
            p <= i <= nodes@.len(),
            p < nodes@.len(),
            all == node_views(nodes@),
            whole == image_views(out@) + media_from(all, p as int, i as int, source@),
        decreases nodes@.len() - i,
    {
        assert(all[i as int] == nodes@[i as int]@);
        assert(all[p as int] == nodes@[p as int]@);
        let ghost sofar = image_views(out@);
        let ghost rest = media_from(all, p as int, i + 1, source@);
        if let Some(image) = read_media(&nodes[i], source) {
            out.push(image);
            assert(image_views(out@) == sofar.push(image@));
            assert(sofar + (seq![image@] + rest) == sofar.push(image@) + rest);
        }
        i += 1;
    }
    assert(i < nodes@.len() ==> all[i as int] == nodes@[i as int]@);
    assert(all[p as int] == nodes@[p as int]@);
    assert(image_views(out@) + media_from(all, p as int, i as int, source@) == image_views(out@));
    out
}

/// The categories that the nodes at `list` name: by their term, else by their
/// text.
pub open spec fn category_texts(nodes: Seq<XmlView>, list: Seq<int>) -> Seq<Seq<char>>
    decreases list.len(),
{
    if list.len() == 0 {
        Seq::empty()
    } else {
        let before = category_texts(nodes, list.drop_last());
        match either(attribute(nodes[list.last()], "term"@), node_text(nodes[list.last()])) {
            Some(text) => before.push(text),
            None => before,
        }
    }
}

fn read_categories(nodes: &Vec<XmlNode>, p: usize) -> (r: Vec<String>)
    requires
        p < nodes@.len(),
    ensures
        views(r@) == distinct_texts(
            category_texts(
                node_views(nodes@),
                children(node_views(nodes@), p as int, "category"@),
            ),
        ),
{
    let ghost all = node_views(nodes@);
    let list = children_of(nodes, p, "category");
    let ghost at = places(list@);
    let mut texts: Vec<String> = Vec::new();
    let mut i: usize = 0;
    while i < list.len()
        invariant
            i <= list@.len(),
            all == node_views(nodes@),
            at == places(list@),
            forall|j: int| 0 <= j < list@.len() ==> #[trigger] list@[j] < nodes@.len(),
            views(texts@) == category_texts(all, at.take(i as int)),
        decreases list@.len() - i,
    {
        let k = list[i];
        assert(at[i as int] == k as int);
        assert(all[k as int] == nodes@[k as int]@);
        assert(at.take(i + 1).drop_last() == at.take(i as int));
        assert(at.take(i + 1).last() == k as int);
        let ghost before = texts@;
        let named = match nodes[k].attribute("term") {
            Some(term) => Some(term),
            None => text_at(nodes, k),
        };
        if let Some(text) = named {
            texts.push(text);
            assert(views(texts@) == views(before).push(text@));
        }
        i += 1;
    }
    assert(at.take(i as int) == at);
    unique_strings(&texts)
}

/// The author of an article: in Atom the name of its author, else its creator
/// or author.
pub open spec fn xml_author(nodes: Seq<XmlView>, p: int, atom: bool) -> Option<Seq<char>> {
    plain_of(
        cleaned_text(
            if atom {
                match child(nodes, p, "author"@) {
                    Some(a) => child_text(nodes, a, "name"@),
                    None => None,
                }
            } else {
                either(child_text(nodes, p, "creator"@), child_text(nodes, p, "author"@))
            },
        ),
    )
}

fn read_author(nodes: &Vec<XmlNode>, p: usize, atom: bool) -> (r: Option<String>)
    requires
        p < nodes@.len(),
    ensures
        view_of(r) == xml_author(node_views(nodes@), p as int, atom),
{
    let raw = if atom {
        match child_of(nodes, p, "author") {
            Some(a) => text_of_child(nodes, a, "name"),
            None => None,
        }
    } else {
        match text_of_child(nodes, p, "creator") {
            Some(name) => Some(name),
            None => text_of_child(nodes, p, "author"),
        }
    };
    plain_option(clean_text(raw))
}

/// The address of an article.
pub open spec fn xml_url(nodes: Seq<XmlView>, p: int, source: Seq<char>, atom: bool) -> Option<
    Seq<char>,
> {
    if atom {
        link_address(nodes, p, source, "alternate"@, Some("text/html"@))
    } else {
        resolved_text(source, child_text(nodes, p, "link"@))
    }
}

/// When an article was last changed.
pub open spec fn xml_updated(nodes: Seq<XmlView>, p: int, atom: bool) -> Option<i64> {
    dated(
        child_text(
            nodes,
            p,
            if atom {
                "updated"@
            } else {
                "date"@
            },
        ),
    )
}

/// When an article was published: on the day that it names for that, else when
/// it was last changed.
pub open spec fn xml_published(nodes: Seq<XmlView>, p: int, atom: bool) -> Option<i64> {
    either(
        if atom {
            dated(child_text(nodes, p, "published"@))
        } else {
            either(
                dated(child_text(nodes, p, "pubdate"@)),
                dated(child_text(nodes, p, "pubDate"@)),
            )
        },
        xml_updated(nodes, p, atom),
    )
}

/// The short text of an article as written.
pub open spec fn xml_summary(nodes: Seq<XmlView>, p: int, atom: bool) -> Option<Seq<char>> {
    child_text(
        nodes,
        p,
        if atom {
            "summary"@
        } else {
            "description"@
        },
    )
}

/// The full text of an article.
pub open spec fn xml_content(nodes: Seq<XmlView>, p: int) -> Option<Seq<char>> {
    cleaned_text(either(child_text(nodes, p, "encoded"@), child_text(nodes, p, "content"@)))
}

/// The article that the element `p` holds.
pub open spec fn xml_article(
    nodes: Seq<XmlView>,
    p: int,
    source: Seq<char>,
    atom: bool,
) -> ArticleView {
    let title = article_title(child_text(nodes, p, "title"@));
    let url = xml_url(nodes, p, source, atom);
    let author = xml_author(nodes, p, atom);
    let published = xml_published(nodes, p, atom);
    let summary = xml_summary(nodes, p, atom);
    let content = xml_content(nodes, p);
    let images = distinct_images(
        media(nodes, p, source) + pictures_in(
            either(content, summary),
            match url {
                Some(address) => address,
                None => source,
            },
        ),
    );
    let enclosure = child(nodes, p, "enclosure"@);
    ArticleView {
        stable_id: stable_id(
            child_text(
                nodes,
                p,
                if atom {
                    "id"@
                } else {
                    "guid"@
                },
            ),
            url,
            title,
            published,
            author,
        ),
        title,
        url,
        author,
        published_at: published,
        updated_at: xml_updated(nodes, p, atom),
        summary: cleaned_text(plain_of(either(summary, content))),
        content,
        image: selected(images),
        image_candidates: images,
        enclosure_url: match enclosure {
            Some(e) => resolved_text(
                source,
                attribute(
                    nodes[e],
                    if atom {
                        "href"@
                    } else {
                        "url"@
                    },
                ),
            ),
            None => None,
        },
        enclosure_type: match enclosure {
            Some(e) => attribute(nodes[e], "type"@),
            None => None,
        },
        categories: distinct_texts(category_texts(nodes, children(nodes, p, "category"@))),
    }
}

fn read_images(
    nodes: &Vec<XmlNode>,
    p: usize,
    source: &str,
    markup: Option<&str>,
    url: Option<&str>,
) -> (r: Vec<ImageCandidate>)
    requires
        p < nodes@.len(),
    ensures
        image_views(r@) == distinct_images(
            media(node_views(nodes@), p as int, source@) + pictures_in(
                borrowed(markup),
                match borrowed(url) {
                    Some(address) => address,
                    None => source@,
                },
            ),
        ),
{
    let mut found = media_candidates(nodes, p, source);
    let mut inside = inline_images(markup, source, url);
    let ghost first = found@;
    let ghost second = inside@;
    found.append(&mut inside);
    assert(image_views(found@) == image_views(first) + image_views(second));
    unique_candidates(&found)
}

fn parse_xml_article(nodes: &Vec<XmlNode>, p: usize, source: &str, atom: bool) -> (r: ParsedArticle)
    requires
        p < nodes@.len(),
    ensures
        r@ == xml_article(node_views(nodes@), p as int, source@, atom),
{
    let title = title_of_article(text_of_child(nodes, p, "title"));
    let explicit_id = text_of_child(
        nodes,
        p,
        if atom {
            "id"
        } else {
            "guid"
        },
    );
    let url = if atom {
        atom_link(nodes, p, source, "alternate", Some("text/html"))
    } else {
        resolve_text(source, text_of_child(nodes, p, "link"))
    };
    let author = read_author(nodes, p, atom);
    let updated_at = read_date(
        text_of_child(
            nodes,
            p,
            if atom {
                "updated"
            } else {
                "date"
            },
        ),
    );
    let publication = if atom {
        read_date(text_of_child(nodes, p, "published"))
    } else {
        match read_date(text_of_child(nodes, p, "pubdate")) {
            Some(time) => Some(time),
            None => read_date(text_of_child(nodes, p, "pubDate")),
        }
    };
    let published_at = match publication {
        Some(time) => Some(time),
        None => updated_at,
    };
    let summary_raw = text_of_child(
        nodes,
        p,
        if atom {
            "summary"
        } else {
            "description"
        },
    );
    let content = clean_text(
        match text_of_child(nodes, p, "encoded") {
            Some(text) => Some(text),
            None => text_of_child(nodes, p, "content"),
        },
    );
    let summary = match &summary_raw {
        Some(text) => clean_optional(plain_text(text.as_str()).as_str()),
        None => match &content {
            Some(text) => clean_optional(plain_text(text.as_str()).as_str()),
            None => None,
        },
    };
    let markup = match &content {
        Some(text) => Some(text.as_str()),
        None => lent(&summary_raw),
    };
    let image_candidates = read_images(nodes, p, source, markup, lent(&url));
    let image = select_image(&image_candidates);
    let enclosure = child_of(nodes, p, "enclosure");
    let enclosure_url = match enclosure {
        Some(e) => resolve_text(
            source,
            nodes[e].attribute(
                if atom {
                    "href"
                } else {
                    "url"
                },
            ),
        ),
        None => None,
    };
    let enclosure_type = match enclosure {
        Some(e) => nodes[e].attribute("type"),
        None => None,
    };
    let categories = read_categories(nodes, p);
    let stable_id = parser_stable_id(
        lent(&explicit_id),
        lent(&url),
        title.as_str(),
        published_at,
        lent(&author),
    );
    ParsedArticle {
        stable_id,
        title,
        url,
        author,
        published_at,
        updated_at,
        summary,
        content,
        image,
        image_candidates,
        enclosure_url,
        enclosure_type,
        categories,
    }
}

/// The articles that the elements at `list` hold.
pub open spec fn xml_articles(
    nodes: Seq<XmlView>,
    list: Seq<int>,
    source: Seq<char>,
    atom: bool,
) -> Seq<ArticleView> {
    Seq::new(list.len(), |i: int| xml_article(nodes, list[i], source, atom))
}

fn read_articles(nodes: &Vec<XmlNode>, list: &Vec<usize>, source: &str, atom: bool) -> (r: Vec<
    ParsedArticle,
>)
    requires
        forall|j: int| 0 <= j < list@.len() ==> #[trigger] list@[j] < nodes@.len(),
    ensures
        article_views(r@) == distinct_articles(
            xml_articles(node_views(nodes@), places(list@), source@, atom),
        ),
{
    let ghost wanted = xml_articles(node_views(nodes@), places(list@), source@, atom);
    let mut articles: Vec<ParsedArticle> = Vec::new();
    let mut i: usize = 0;
    while i < list.len()
        invariant
            i <= list@.len(),
            articles@.len() == i,
            wanted == xml_articles(node_views(nodes@), places(list@), source@, atom),
            forall|j: int| 0 <= j < list@.len() ==> #[trigger] list@[j] < nodes@.len(),
            forall|j: int| 0 <= j < i ==> #[trigger] articles@[j]@ == wanted[j],
        decreases list@.len() - i,
    {
        assert(places(list@)[i as int] == list@[i as int] as int);
        let article = parse_xml_article(nodes, list[i], source, atom);
        assert(article@ == wanted[i as int]);
        articles.push(article);
        i += 1;
    }
    assert(article_views(articles@) == wanted);
    deduplicate(articles)
}

/// The place of the channel of an RSS document.
pub open spec fn channel_of(nodes: Seq<XmlView>, root: int) -> int {
    let channels = descendants(nodes, root, "channel"@);
    if channels.len() > 0 {
        channels[0]
    } else {
        root
    }
}

/// The picture of an RSS channel.
pub open spec fn channel_image(nodes: Seq<XmlView>, channel: int, source: Seq<char>) -> Option<
    Seq<char>,
> {
    let images = descendants(nodes, channel, "image"@);
    if images.len() > 0 {
        resolved_text(source, child_text(nodes, images[0], "url"@))
    } else {
        None
    }
}

/// The address that an RSS channel gives as its own.
pub open spec fn channel_self(nodes: Seq<XmlView>, channel: int, source: Seq<char>) -> Option<
    Seq<char>,
> {
    match first_link(nodes, children(nodes, channel, "link"@), "self"@, None) {
        Some(i) => resolved_text(source, attribute(nodes[i], "href"@)),
        None => None,
    }
}

/// The elements of an RSS document that hold its articles: those below the
/// channel, and in the older format those below the root.
pub open spec fn rss_items(nodes: Seq<XmlView>, root: int) -> Seq<int> {
    descendants(
        nodes,
        if lower(nodes[root].name) == lower("rdf"@) {
            root
        } else {
            channel_of(nodes, root)
        },
        "item"@,
    )
}

/// The feed that an RSS document holds.
pub open spec fn rss_feed(nodes: Seq<XmlView>, root: int, source: Seq<char>) -> FeedView {
    let channel = channel_of(nodes, root);
    let image = channel_image(nodes, channel, source);
    FeedView {
        format: FeedFormat::Rss,
        title: feed_title(child_text(nodes, channel, "title"@), source),
        description: cleaned_text(child_text(nodes, channel, "description"@)),
        site_url: resolved_text(source, child_text(nodes, channel, "link"@)),
        subscription_url: channel_self(nodes, channel, source),
        language: cleaned_text(child_text(nodes, channel, "language"@)),
        icon_candidates: match image {
            Some(url) => seq![url],
            None => Seq::empty(),
        },
        feed_image: image,
        articles: distinct_articles(xml_articles(nodes, rss_items(nodes, root), source, false)),
    }
}

/// What comes of an RSS document.
#[verifier::opaque]
pub open spec fn rss_result(nodes: Seq<XmlView>, root: int, source: Seq<char>) -> Result<
    FeedView,
    CoreErrorView,
> {
    if rss_items(nodes, root).len() > MAX_ARTICLES {
        Err(CoreErrorView::InputLimitExceeded("article count"@))
    } else {
        Ok(rss_feed(nodes, root, source))
    }
}

fn parse_rss(nodes: &Vec<XmlNode>, root: usize, source: &str) -> (r: Result<ParsedFeed, CoreError>)
    requires
        root < nodes@.len(),
    ensures
        feed_result(r) == rss_result(node_views(nodes@), root as int, source@),
{
    reveal(rss_result);
    let ghost all = node_views(nodes@);
    let channels = descendants_of(nodes, root, "channel");
    let channel = if channels.len() > 0 {
        assert(places(channels@)[0] == channels@[0] as int);
        channels[0]
    } else {
        root
    };
    let links = children_of(nodes, channel, "link");
    let subscription_url = match find_link(nodes, &links, "self", None) {
        Some(i) => resolve_text(source, nodes[i].attribute("href")),
        None => None,
    };
    let images = descendants_of(nodes, channel, "image");
    let feed_image = if images.len() > 0 {
        assert(places(images@)[0] == images@[0] as int);
        resolve_text(source, text_of_child(nodes, images[0], "url"))
    } else {
        None
    };
    let mut icon_candidates: Vec<String> = Vec::new();
    if let Some(url) = &feed_image {
        icon_candidates.push(url.clone());
    }
    assert(views(icon_candidates@) == match channel_image(all, channel as int, source@) {
        Some(url) => seq![url],
        None => Seq::<Seq<char>>::empty(),
    });
    assert(all[root as int] == nodes@[root as int]@);
    let item_root = if same_ignoring_case(nodes[root].name.as_str(), "rdf") {
        root
    } else {
        channel
    };
    let items = descendants_of(nodes, item_root, "item");
    assert(places(items@).len() == items@.len());
    if items.len() > MAX_ARTICLES {
        return Err(CoreError::InputLimitExceeded("article count"));
    }
    Ok(
        ParsedFeed {
            format: FeedFormat::Rss,
            title: clean_title(text_of_child(nodes, channel, "title"), source),
            description: clean_text(text_of_child(nodes, channel, "description")),
            site_url: resolve_text(source, text_of_child(nodes, channel, "link")),
            subscription_url,
            language: clean_text(text_of_child(nodes, channel, "language")),
            icon_candidates,
            feed_image,
            articles: read_articles(nodes, &items, source, false),
        },
    )
}

/// The addresses that resolve, each once.
pub open spec fn icons_of(
    source: Seq<char>,
    first: Option<Seq<char>>,
    second: Option<Seq<char>>,
) -> Seq<Seq<char>> {
    match (resolved_text(source, first), resolved_text(source, second)) {
        (Some(a), Some(b)) => if a == b {
            seq![a]
        } else {
            seq![a, b]
        },
        (Some(a), None) => seq![a],
        (None, Some(b)) => seq![b],
        (None, None) => Seq::empty(),
    }
}

/// The first of a list of addresses.
pub open spec fn first_text(list: Seq<Seq<char>>) -> Option<Seq<char>> {
    if list.len() > 0 {
        Some(list[0])
    } else {
        None
    }
}

pub(crate) fn collect_icons(source: &str, first: Option<String>, second: Option<String>) -> (r: Vec<String>)
    ensures
        views(r@) == icons_of(source@, view_of(first), view_of(second)),
{
    let mut out: Vec<String> = Vec::new();
    let ghost wanted = icons_of(source@, view_of(first), view_of(second));
    match (resolve_text(source, first), resolve_text(source, second)) {
        (Some(a), Some(b)) => {
            if same(a.as_str(), b.as_str()) {
                out.push(a);
            } else {
                out.push(a);
                out.push(b);
            }
        },
        (Some(a), None) => {
            out.push(a);
        },
        (None, Some(b)) => {
            out.push(b);
        },
        (None, None) => {},
    }
    assert(views(out@) == wanted);
    out
}

pub(crate) fn first_of(list: &Vec<String>) -> (r: Option<String>)
    ensures
        view_of(r) == first_text(views(list@)),
{
    assert(views(list@).len() == list@.len());
    if list.len() > 0 {
        assert(views(list@)[0] == list@[0]@);
        Some(list[0].clone())
    } else {
        None
    }
}

/// The feed that an Atom document holds.
pub open spec fn atom_feed(nodes: Seq<XmlView>, root: int, source: Seq<char>) -> FeedView {
    let icons = icons_of(
        source,
        child_text(nodes, root, "icon"@),
        child_text(nodes, root, "logo"@),
    );
    FeedView {
        format: FeedFormat::Atom,
        title: feed_title(child_text(nodes, root, "title"@), source),
        description: cleaned_text(child_text(nodes, root, "subtitle"@)),
        site_url: link_address(nodes, root, source, "alternate"@, Some("text/html"@)),
        subscription_url: link_address(nodes, root, source, "self"@, None),
        language: attribute(nodes[root], "lang"@),
        icon_candidates: icons,
        feed_image: first_text(icons),
        articles: distinct_articles(
            xml_articles(nodes, children(nodes, root, "entry"@), source, true),
        ),
    }
}

/// What comes of an Atom document.
#[verifier::opaque]
pub open spec fn atom_result(nodes: Seq<XmlView>, root: int, source: Seq<char>) -> Result<
    FeedView,
    CoreErrorView,
> {
    if children(nodes, root, "entry"@).len() > MAX_ARTICLES {
        Err(CoreErrorView::InputLimitExceeded("article count"@))
    } else {
        Ok(atom_feed(nodes, root, source))
    }
}

fn parse_atom(nodes: &Vec<XmlNode>, root: usize, source: &str) -> (r: Result<ParsedFeed, CoreError>)
    requires
        root < nodes@.len(),
    ensures
        feed_result(r) == atom_result(node_views(nodes@), root as int, source@),
{
    reveal(atom_result);
    let icon_candidates = collect_icons(
        source,
        text_of_child(nodes, root, "icon"),
        text_of_child(nodes, root, "logo"),
    );
    let entries = children_of(nodes, root, "entry");
    assert(places(entries@).len() == entries@.len());
    if entries.len() > MAX_ARTICLES {
        return Err(CoreError::InputLimitExceeded("article count"));
    }
    assert(node_views(nodes@)[root as int] == nodes@[root as int]@);
    let feed_image = first_of(&icon_candidates);
    Ok(
        ParsedFeed {
            format: FeedFormat::Atom,
            title: clean_title(text_of_child(nodes, root, "title"), source),
            description: clean_text(text_of_child(nodes, root, "subtitle")),
            site_url: atom_link(nodes, root, source, "alternate", Some("text/html")),
            subscription_url: atom_link(nodes, root, source, "self", None),
            language: nodes[root].attribute("lang"),
            icon_candidates,
            feed_image,
            articles: read_articles(nodes, &entries, source, true),
        },
    )
}

/// What comes of the nodes of an XML document: an RSS or an Atom feed by the
/// name of its root, or a refusal.
pub open spec fn xml_feed(nodes: Seq<XmlView>, source: Seq<char>) -> Result<
    FeedView,
    CoreErrorView,
> {
    if deeper_than(nodes, MAX_XML_DEPTH as nat) {
        Err(CoreErrorView::InputLimitExceeded("XML nesting"@))
    } else {
        match first_element(nodes, 0) {
            Some(root) => {
                let name = lower(nodes[root].name);
                if name == "rss"@ || name == "rdf"@ {
                    rss_result(nodes, root, source)
                } else if name == "feed"@ {
                    atom_result(nodes, root, source)
                } else {
                    Err(CoreErrorView::UnsupportedFeed)
                }
            },
            None => Err(CoreErrorView::UnsupportedFeed),
        }
    }
}

/// The feed in the nodes of an XML document.
pub fn feed_of_nodes(nodes: &Vec<XmlNode>, source: &str) -> (r: Result<ParsedFeed, CoreError>)
    ensures
        feed_result(r) == xml_feed(node_views(nodes@), source@),
{
    if exceeds_depth(nodes, MAX_XML_DEPTH) {
        return Err(CoreError::InputLimitExceeded("XML nesting"));
    }
    match root_element(nodes) {
        Some(root) => {
            assert(node_views(nodes@)[root as int] == nodes@[root as int]@);
            let name = lowered(nodes[root].name.as_str());
            if same(name.as_str(), "rss") || same(name.as_str(), "rdf") {
                parse_rss(nodes, root, source)
            } else if same(name.as_str(), "feed") {
                parse_atom(nodes, root, source)
            } else {
                Err(CoreError::UnsupportedFeed)
            }
        },
        None => Err(CoreError::UnsupportedFeed),
    }
}

fn parse_xml(input: &str, source: &str) -> (r: Result<ParsedFeed, CoreError>)
    ensures
        feed_result(r) == (match parsed_xml(input@) {
            Some(nodes) => xml_feed(nodes, source@),
            None => Err(CoreErrorView::MalformedXml),
        }),
{
    match crate::xml::parse_xml(input) {
        Some(nodes) => feed_of_nodes(&nodes, source),
        None => Err(CoreError::MalformedXml),
    }
}

/// A text without byte order marks at its start.
pub open spec fn unmarked(s: Seq<char>) -> Seq<char>
    decreases s.len(),
{
    if s.len() > 0 && s[0] == '\u{feff}' {
        unmarked(s.skip(1))
    } else {
        s
    }
}

/// The first character of a text that is neither a byte order mark at its
/// start nor white space after those is an opening brace.
pub open spec fn looks_like_json(s: Seq<char>) -> bool {
    let rest = trim_start(unmarked(s));
    rest.len() > 0 && rest[0] == '{'
}

fn json_like(input: &str) -> (r: bool)
    ensures
        r == looks_like_json(input@),
{
    let chars = crate::text::chars_of(input);
    let mut i: usize = 0;
    assert(chars@.skip(0) == chars@);
    while i < chars.len() && chars[i] == '\u{feff}'
        invariant
            i <= chars@.len(),
            unmarked(chars@) == unmarked(chars@.skip(i as int)),
        decreases chars@.len() - i,
    {
        assert(chars@.skip(i as int).skip(1) == chars@.skip(i + 1));
        i += 1;
    }
    let ghost rest = chars@.skip(i as int);
    assert(unmarked(chars@) == rest);
    while i < chars.len() && crate::text::space(chars[i])
        invariant
            i <= chars@.len(),
            trim_start(rest) == trim_start(chars@.skip(i as int)),
        decreases chars@.len() - i,
    {
        assert(chars@.skip(i as int).skip(1) == chars@.skip(i + 1));
        i += 1;
    }
    assert(trim_start(rest) == chars@.skip(i as int));
    i < chars.len() && chars[i] == '{'
}

/// What comes of a document: refusal of an empty or an overlong one, else the
/// feed that it holds, as JSON or as XML.
pub open spec fn parsed_feed(input: Seq<char>, source: Seq<char>) -> Result<
    FeedView,
    CoreErrorView,
> {
    if input.len() == 0 {
        Err(CoreErrorView::UnusableFeed)
    } else if byte_len(input) > MAX_DOCUMENT_BYTES {
        Err(CoreErrorView::InputLimitExceeded("document bytes"@))
    } else if looks_like_json(input) {
        match crate::json_feed::json_document(input) {
            Some(feed) => crate::json_feed::document_result(feed, source),
            None => Err(CoreErrorView::MalformedJsonFeed),
        }
    } else {
        match parsed_xml(input) {
            Some(nodes) => xml_feed(nodes, source),
            None => Err(CoreErrorView::MalformedXml),
        }
    }
}

/// The feed in `input`, the document at `source_url`.
pub fn parse_with_source(input: &str, source_url: &str) -> (r: Result<ParsedFeed, CoreError>)
    ensures
        feed_result(r) == parsed_feed(input@, source_url@),
{
    if input.is_empty() {
        return Err(CoreError::UnusableFeed);
    }
    if input.as_bytes().len() > MAX_DOCUMENT_BYTES {
        return Err(CoreError::InputLimitExceeded("document bytes"));
    }
    if json_like(input) {
        crate::json_feed::parse_json(input, source_url)
    } else {
        parse_xml(input, source_url)
    }
}

/// The feed in `input`, a document from nowhere in particular.
pub fn parse(input: &str) -> (r: Result<ParsedFeed, CoreError>)
    ensures
        feed_result(r) == parsed_feed(input@, "https://invalid.example/feed"@),
{
    parse_with_source(input, "https://invalid.example/feed")
}

} // verus!
