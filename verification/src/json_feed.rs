//! JSON feeds: the document, its items, and the feed that they make up.

use crate::dates::either;
use crate::error::{CoreError, CoreErrorView};
use crate::identity::borrowed;
use crate::images::{
    distinct_images, image_views, inline_images, pictures_in, select_image, selected,
    unique_candidates, ImageCandidate, ImageSource, ImageView,
};
use crate::json::{
    elements_field, inner_elements, json_string, list_view, name_views, object_members, once_each,
    optional_elements, optional_string, read_inner_elements, read_object, read_record, record,
    required_field, required_string, string_field, RecordView,
};
use crate::parser::{
    article_title, article_views, cleaned_text, clean_optional, clean_title, collect_icons, copied,
    copied_list, dated, deduplicate, distinct_articles, feed_result, feed_title, first_of,
    first_text, icons_of, is_image_type, image_type, lent, parser_stable_id, plain_of, read_date,
    resolve_text, resolved_text, stable_id, title_of_article, ArticleView, FeedFormat, FeedView,
    ParsedArticle, ParsedFeed, MAX_ARTICLES,
};
use crate::markup::plain_text;
use crate::text::{contains, has, join, joined, lower, lowered, view_of, views};
use vstd::prelude::*;

verus! {

/// A file that belongs to an item.
pub struct Attachment {
    pub url: String,
    pub mime_type: Option<String>,
}

/// What an [`Attachment`] holds.
pub struct AttachmentView {
    pub url: Seq<char>,
    pub mime_type: Option<Seq<char>>,
}

impl View for Attachment {
    type V = AttachmentView;

    open spec fn view(&self) -> AttachmentView {
        AttachmentView { url: self.url@, mime_type: view_of(self.mime_type) }
    }
}

/// What a list of files holds.
pub open spec fn attachment_views(list: Seq<Attachment>) -> Seq<AttachmentView> {
    Seq::new(list.len(), |i: int| list[i]@)
}

/// An item of a JSON feed.
pub struct JsonItem {
    pub id: String,
    pub url: Option<String>,
    pub external_url: Option<String>,
    pub title: Option<String>,
    pub content_html: Option<String>,
    pub content_text: Option<String>,
    pub summary: Option<String>,
    pub image: Option<String>,
    pub banner_image: Option<String>,
    pub date_published: Option<String>,
    pub date_modified: Option<String>,
    /// The names of the authors that have one.
    pub authors: Vec<String>,
    pub author: Option<String>,
    pub tags: Vec<String>,
    pub attachments: Vec<Attachment>,
}

/// What a [`JsonItem`] holds.
pub struct JsonItemView {
    pub id: Seq<char>,
    pub url: Option<Seq<char>>,
    pub external_url: Option<Seq<char>>,
    pub title: Option<Seq<char>>,
    pub content_html: Option<Seq<char>>,
    pub content_text: Option<Seq<char>>,
    pub summary: Option<Seq<char>>,
    pub image: Option<Seq<char>>,
    pub banner_image: Option<Seq<char>>,
    pub date_published: Option<Seq<char>>,
    pub date_modified: Option<Seq<char>>,
    pub authors: Seq<Seq<char>>,
    pub author: Option<Seq<char>>,
    pub tags: Seq<Seq<char>>,
    pub attachments: Seq<AttachmentView>,
}

impl View for JsonItem {
    type V = JsonItemView;

    open spec fn view(&self) -> JsonItemView {
        JsonItemView {
            id: self.id@,
            url: view_of(self.url),
            external_url: view_of(self.external_url),
            title: view_of(self.title),
            content_html: view_of(self.content_html),
            content_text: view_of(self.content_text),
            summary: view_of(self.summary),
            image: view_of(self.image),
            banner_image: view_of(self.banner_image),
            date_published: view_of(self.date_published),
            date_modified: view_of(self.date_modified),
            authors: views(self.authors@),
            author: view_of(self.author),
            tags: views(self.tags@),
            attachments: attachment_views(self.attachments@),
        }
    }
}

/// The name of the author in a text; nothing at all where the text is no
/// author.
pub open spec fn author_name(text: Seq<char>) -> Option<Option<Seq<char>>> {
    match record(text, seq!["name"@]) {
        Some(fields) => optional_string(fields.field("name"@, 0)),
        None => None,
    }
}

fn read_author(text: &str) -> (r: Option<Option<String>>)
    ensures
        match r {
            Some(name) => author_name(text@) == Some(view_of(name)),
            None => author_name(text@) is None,
        },
{
    let names = vec!["name"];
    assert(name_views(names@) == seq!["name"@]);
    match read_record(text, &names) {
        Some(fields) => string_field(fields.field("name", 0)),
        None => None,
    }
}

/// The names of the authors in a list of texts; nothing where one of them is no
/// author.
pub open spec fn author_names(list: Seq<Seq<char>>) -> Option<Seq<Seq<char>>>
    decreases list.len(),
{
    if list.len() == 0 {
        Some(Seq::empty())
    } else {
        match (author_names(list.drop_last()), author_name(list.last())) {
            (Some(before), Some(name)) => match name {
                Some(text) => Some(before.push(text)),
                None => Some(before),
            },
            _ => None,
        }
    }
}

/// The strings in a list of texts; nothing where one of them is no string.
pub open spec fn strings(list: Seq<Seq<char>>) -> Option<Seq<Seq<char>>>
    decreases list.len(),
{
    if list.len() == 0 {
        Some(Seq::empty())
    } else {
        match (strings(list.drop_last()), required_string(Some(list.last()))) {
            (Some(before), Some(text)) => Some(before.push(text)),
            _ => None,
        }
    }
}

/// The file that a text describes.
pub open spec fn attachment(text: Seq<char>) -> Option<AttachmentView> {
    match record(text, seq!["url"@, "mime_type"@]) {
        Some(fields) => match (
            required_string(fields.field("url"@, 0)),
            optional_string(fields.field("mime_type"@, 1)),
        ) {
            (Some(url), Some(mime_type)) => Some(AttachmentView { url, mime_type }),
            _ => None,
        },
        None => None,
    }
}

fn read_attachment(text: &str) -> (r: Option<Attachment>)
    ensures
        match r {
            Some(file) => attachment(text@) == Some(file@),
            None => attachment(text@) is None,
        },
{
    let names = vec!["url", "mime_type"];
    assert(name_views(names@) == seq!["url"@, "mime_type"@]);
    match read_record(text, &names) {
        Some(fields) => match (
            required_field(fields.field("url", 0)),
            string_field(fields.field("mime_type", 1)),
        ) {
            (Some(url), Some(mime_type)) => Some(Attachment { url, mime_type }),
            _ => None,
        },
        None => None,
    }
}

/// The files that a list of texts describes; nothing where one of them
/// describes none.
pub open spec fn attachments(list: Seq<Seq<char>>) -> Option<Seq<AttachmentView>>
    decreases list.len(),
{
    if list.len() == 0 {
        Some(Seq::empty())
    } else {
        match (attachments(list.drop_last()), attachment(list.last())) {
            (Some(before), Some(file)) => Some(before.push(file)),
            _ => None,
        }
    }
}

/// A list that is read only as a whole fails where a part of it fails.
proof fn lemma_parts_fail(list: Seq<Seq<char>>, i: int)
    requires
        0 <= i <= list.len(),
    ensures
        author_names(list.take(i)) is None ==> author_names(list) is None,
        strings(list.take(i)) is None ==> strings(list) is None,
        attachments(list.take(i)) is None ==> attachments(list) is None,
    decreases list.len() - i,
{
    if i < list.len() {
        assert(list.take(i + 1).drop_last() == list.take(i));
        lemma_parts_fail(list, i + 1);
    } else {
        assert(list.take(i) == list);
    }
}

fn read_authors(list: &Vec<String>) -> (r: Option<Vec<String>>)
    ensures
        list_view(r) == author_names(views(list@)),
{
    let ghost all = views(list@);
    let mut out: Vec<String> = Vec::new();
    let mut i: usize = 0;
    assert(views(out@) == Seq::<Seq<char>>::empty());
    while i < list.len()
        invariant
            i <= list@.len(),
            all == views(list@),
            author_names(all.take(i as int)) == Some(views(out@)),
        decreases list@.len() - i,
    {
        assert(all.take(i + 1).drop_last() == all.take(i as int));
        assert(all.take(i + 1).last() == list@[i as int]@);
        let ghost before = out@;
        match read_author(list[i].as_str()) {
            Some(name) => if let Some(text) = name {
                out.push(text);
                assert(views(out@) == views(before).push(text@));
            },
            None => {
                proof {
                    lemma_parts_fail(all, i + 1);
                }
                return None;
            },
        }
        i += 1;
    }
    assert(all.take(i as int) == all);
    Some(out)
}

fn read_strings(list: &Vec<String>) -> (r: Option<Vec<String>>)
    ensures
        list_view(r) == strings(views(list@)),
{
    let ghost all = views(list@);
    let mut out: Vec<String> = Vec::new();
    let mut i: usize = 0;
    assert(views(out@) == Seq::<Seq<char>>::empty());
    while i < list.len()
        invariant
            i <= list@.len(),
            all == views(list@),
            strings(all.take(i as int)) == Some(views(out@)),
        decreases list@.len() - i,
    {
        assert(all.take(i + 1).drop_last() == all.take(i as int));
        assert(all.take(i + 1).last() == list@[i as int]@);
        let ghost before = out@;
        match required_field(Some(list[i].as_str())) {
            Some(text) => {
                out.push(text);
                assert(views(out@) == views(before).push(text@));
            },
            None => {
                proof {
                    lemma_parts_fail(all, i + 1);
                }
                return None;
            },
        }
        i += 1;
    }
    assert(all.take(i as int) == all);
    Some(out)
}

fn read_attachments(list: &Vec<String>) -> (r: Option<Vec<Attachment>>)
    ensures
        match r {
            Some(files) => attachments(views(list@)) == Some(attachment_views(files@)),
            None => attachments(views(list@)) is None,
        },
{
    let ghost all = views(list@);
    let mut out: Vec<Attachment> = Vec::new();
    let mut i: usize = 0;
    assert(attachment_views(out@) == Seq::<AttachmentView>::empty());
    while i < list.len()
        invariant
            i <= list@.len(),
            all == views(list@),
            attachments(all.take(i as int)) == Some(attachment_views(out@)),
        decreases list@.len() - i,
    {
        assert(all.take(i + 1).drop_last() == all.take(i as int));
        assert(all.take(i + 1).last() == list@[i as int]@);
        let ghost before = out@;
        match read_attachment(list[i].as_str()) {
            Some(file) => {
                out.push(file);
                assert(attachment_views(out@) == attachment_views(before).push(file@));
            },
            None => {
                proof {
                    lemma_parts_fail(all, i + 1);
                }
                return None;
            },
        }
        i += 1;
    }
    assert(all.take(i as int) == all);
    Some(out)
}

/// The names in a field that may hold a list of authors.
pub open spec fn authors_field(field: Option<Seq<char>>) -> Option<Seq<Seq<char>>> {
    match optional_elements(field) {
        Some(Some(list)) => author_names(list),
        Some(None) => Some(Seq::empty()),
        None => None,
    }
}

/// The strings in a field that may hold a list of them.
pub open spec fn strings_field(field: Option<Seq<char>>) -> Option<Seq<Seq<char>>> {
    match optional_elements(field) {
        Some(Some(list)) => strings(list),
        Some(None) => Some(Seq::empty()),
        None => None,
    }
}

/// The files in a field that may hold a list of them.
pub open spec fn attachments_field(field: Option<Seq<char>>) -> Option<Seq<AttachmentView>> {
    match optional_elements(field) {
        Some(Some(list)) => attachments(list),
        Some(None) => Some(Seq::empty()),
        None => None,
    }
}

/// The name in a field that may hold an author.
pub open spec fn author_field(field: Option<Seq<char>>) -> Option<Option<Seq<char>>> {
    match field {
        Some(text) => if json_string(text) == Some(None::<Seq<char>>) {
            Some(None)
        } else {
            author_name(text)
        },
        None => Some(None),
    }
}

fn read_authors_field(field: Option<&str>) -> (r: Option<Vec<String>>)
    ensures
        list_view(r) == authors_field(borrowed(field)),
{
    match elements_field(field) {
        Some(Some(list)) => read_authors(&list),
        Some(None) => {
            let none: Vec<String> = Vec::new();
            assert(views(none@) == Seq::<Seq<char>>::empty());
            Some(none)
        },
        None => None,
    }
}

fn read_strings_field(field: Option<&str>) -> (r: Option<Vec<String>>)
    ensures
        list_view(r) == strings_field(borrowed(field)),
{
    match elements_field(field) {
        Some(Some(list)) => read_strings(&list),
        Some(None) => {
            let none: Vec<String> = Vec::new();
            assert(views(none@) == Seq::<Seq<char>>::empty());
            Some(none)
        },
        None => None,
    }
}

fn read_attachments_field(field: Option<&str>) -> (r: Option<Vec<Attachment>>)
    ensures
        match r {
            Some(files) => attachments_field(borrowed(field)) == Some(attachment_views(files@)),
            None => attachments_field(borrowed(field)) is None,
        },
{
    match elements_field(field) {
        Some(Some(list)) => read_attachments(&list),
        Some(None) => {
            let none: Vec<Attachment> = Vec::new();
            assert(attachment_views(none@) == Seq::<AttachmentView>::empty());
            Some(none)
        },
        None => None,
    }
}

fn read_author_field(field: Option<&str>) -> (r: Option<Option<String>>)
    ensures
        match r {
            Some(name) => author_field(borrowed(field)) == Some(view_of(name)),
            None => author_field(borrowed(field)) is None,
        },
{
    match field {
        Some(text) => {
            if let Some(value) = string_field(Some(text)) {
                if value.is_none() {
                    return Some(None);
                }
            }
            read_author(text)
        },
        None => Some(None),
    }
}

/// The fields of an item.
pub open spec fn item_names() -> Seq<Seq<char>> {
    seq![
        "id"@,
        "url"@,
        "external_url"@,
        "title"@,
        "content_html"@,
        "content_text"@,
        "summary"@,
        "image"@,
        "banner_image"@,
        "date_published"@,
        "date_modified"@,
        "authors"@,
        "author"@,
        "tags"@,
        "attachments"@,
    ]
}

/// The item that a text describes: every field has its type, and there is an
/// identifier.
pub open spec fn json_item(text: Seq<char>) -> Option<JsonItemView> {
    match record(text, item_names()) {
        Some(fields) => match (
            (
                required_string(fields.field("id"@, 0)),
                optional_string(fields.field("url"@, 1)),
                optional_string(fields.field("external_url"@, 2)),
                optional_string(fields.field("title"@, 3)),
                optional_string(fields.field("content_html"@, 4)),
            ),
            (
                optional_string(fields.field("content_text"@, 5)),
                optional_string(fields.field("summary"@, 6)),
                optional_string(fields.field("image"@, 7)),
                optional_string(fields.field("banner_image"@, 8)),
                optional_string(fields.field("date_published"@, 9)),
            ),
            (
                optional_string(fields.field("date_modified"@, 10)),
                authors_field(fields.field("authors"@, 11)),
                author_field(fields.field("author"@, 12)),
                strings_field(fields.field("tags"@, 13)),
                attachments_field(fields.field("attachments"@, 14)),
            ),
        ) {
            (
                (Some(id), Some(url), Some(external_url), Some(title), Some(content_html)),
                (
                    Some(content_text),
                    Some(summary),
                    Some(image),
                    Some(banner_image),
                    Some(date_published),
                ),
                (Some(date_modified), Some(authors), Some(author), Some(tags), Some(attachments)),
            ) => Some(
                JsonItemView {
                    id,
                    url,
                    external_url,
                    title,
                    content_html,
                    content_text,
                    summary,
                    image,
                    banner_image,
                    date_published,
                    date_modified,
                    authors,
                    author,
                    tags,
                    attachments,
                },
            ),
            _ => None,
        },
        None => None,
    }
}

fn read_item(text: &str) -> (r: Option<JsonItem>)
    ensures
        match r {
            Some(item) => json_item(text@) == Some(item@),
            None => json_item(text@) is None,
        },
{
    let names = vec![
        "id",
        "url",
        "external_url",
        "title",
        "content_html",
        "content_text",
        "summary",
        "image",
        "banner_image",
        "date_published",
        "date_modified",
        "authors",
        "author",
        "tags",
        "attachments",
    ];
    assert(name_views(names@) == item_names());
    match read_record(text, &names) {
        Some(fields) => match (
            (
                required_field(fields.field("id", 0)),
                string_field(fields.field("url", 1)),
                string_field(fields.field("external_url", 2)),
                string_field(fields.field("title", 3)),
                string_field(fields.field("content_html", 4)),
            ),
            (
                string_field(fields.field("content_text", 5)),
                string_field(fields.field("summary", 6)),
                string_field(fields.field("image", 7)),
                string_field(fields.field("banner_image", 8)),
                string_field(fields.field("date_published", 9)),
            ),
            (
                string_field(fields.field("date_modified", 10)),
                read_authors_field(fields.field("authors", 11)),
                read_author_field(fields.field("author", 12)),
                read_strings_field(fields.field("tags", 13)),
                read_attachments_field(fields.field("attachments", 14)),
            ),
        ) {
            (
                (Some(id), Some(url), Some(external_url), Some(title), Some(content_html)),
                (
                    Some(content_text),
                    Some(summary),
                    Some(image),
                    Some(banner_image),
                    Some(date_published),
                ),
                (Some(date_modified), Some(authors), Some(author), Some(tags), Some(attachments)),
            ) => Some(
                JsonItem {
                    id,
                    url,
                    external_url,
                    title,
                    content_html,
                    content_text,
                    summary,
                    image,
                    banner_image,
                    date_published,
                    date_modified,
                    authors,
                    author,
                    tags,
                    attachments,
                },
            ),
            _ => None,
        },
        None => None,
    }
}

/// The picture at an address, where it resolves.
pub open spec fn named_image(
    source: Seq<char>,
    reference: Option<Seq<char>>,
    origin: ImageSource,
    mime_type: Option<Seq<char>>,
) -> Seq<ImageView> {
    match resolved_text(source, reference) {
        Some(url) => seq![
            ImageView {
                url,
                source: origin,
                width: None,
                height: None,
                mime_type,
                alt_text: None,
            },
        ],
        None => Seq::empty(),
    }
}

/// The pictures among the files of an item.
pub open spec fn attached_images(source: Seq<char>, list: Seq<AttachmentView>) -> Seq<ImageView>
    decreases list.len(),
{
    if list.len() == 0 {
        Seq::empty()
    } else {
        let before = attached_images(source, list.drop_last());
        let file = list.last();
        if is_image_type(file.mime_type) {
            before + named_image(source, Some(file.url), ImageSource::Enclosure, file.mime_type)
        } else {
            before
        }
    }
}

fn push_image(
    out: &mut Vec<ImageCandidate>,
    source: &str,
    reference: Option<String>,
    origin: ImageSource,
    mime_type: Option<String>,
)
    ensures
        image_views(final(out)@) == image_views(old(out)@) + named_image(
            source@,
            view_of(reference),
            origin,
            view_of(mime_type),
        ),
{
    let ghost before = image_views(out@);
    match resolve_text(source, reference) {
        Some(url) => {
            let image = ImageCandidate {
                url,
                source: origin,
                width: None,
                height: None,
                mime_type,
                alt_text: None,
            };
            out.push(image);
            assert(image_views(out@) == before.push(image@));
            assert(before.push(image@) == before + seq![image@]);
        },
        None => {
            assert(before + Seq::<ImageView>::empty() == before);
        },
    }
}

fn push_attached(out: &mut Vec<ImageCandidate>, source: &str, files: &Vec<Attachment>)
    ensures
        image_views(final(out)@) == image_views(old(out)@) + attached_images(
            source@,
            attachment_views(files@),
        ),
{
    let ghost all = attachment_views(files@);
    let ghost start = image_views(out@);
    let mut i: usize = 0;
    assert(start + Seq::<ImageView>::empty() == start);
    while i < files.len()
        invariant
            i <= files@.len(),
            all == attachment_views(files@),
            image_views(out@) == start + attached_images(source@, all.take(i as int)),
        decreases files@.len() - i,
    {
        assert(all.take(i + 1).drop_last() == all.take(i as int));
        assert(all.take(i + 1).last() == files@[i as int]@);
        let ghost before = attached_images(source@, all.take(i as int));
        if image_type(&files[i].mime_type) {
            push_image(
                out,
                source,
                Some(files[i].url.clone()),
                ImageSource::Enclosure,
                copied(&files[i].mime_type),
            );
            assert(forall|more: Seq<ImageView>|
                #![trigger before + more]
                (start + before) + more == start + (before + more));
        }
        i += 1;
    }
    assert(all.take(i as int) == all);
}

/// The author of an item: the names of its authors, else that of its author.
pub open spec fn item_author(item: JsonItemView) -> Option<Seq<char>> {
    if item.authors.len() > 0 {
        Some(join(item.authors, ", "@))
    } else {
        item.author
    }
}

/// The pictures of an item.
pub open spec fn item_images(
    item: JsonItemView,
    source: Seq<char>,
    content: Option<Seq<char>>,
    url: Option<Seq<char>>,
) -> Seq<ImageView> {
    distinct_images(
        named_image(source, item.image, ImageSource::JsonImage, None) + named_image(
            source,
            item.banner_image,
            ImageSource::JsonImage,
            None,
        ) + attached_images(source, item.attachments) + pictures_in(
            content,
            match url {
                Some(address) => address,
                None => source,
            },
        ),
    )
}

/// The article that an item makes up.
pub open spec fn item_article(item: JsonItemView, source: Seq<char>) -> ArticleView {
    let url = resolved_text(source, either(item.url, item.external_url));
    let title = article_title(item.title);
    let published = dated(item.date_published);
    let content = cleaned_text(either(item.content_html, item.content_text));
    let author = item_author(item);
    let images = item_images(item, source, content, url);
    ArticleView {
        stable_id: stable_id(Some(item.id), url, title, published, author),
        title,
        url,
        author,
        published_at: published,
        updated_at: dated(item.date_modified),
        summary: either(cleaned_text(item.summary), cleaned_text(plain_of(content))),
        content,
        image: selected(images),
        image_candidates: images,
        enclosure_url: if item.attachments.len() > 0 {
            resolved_text(source, Some(item.attachments[0].url))
        } else {
            None
        },
        enclosure_type: if item.attachments.len() > 0 {
            item.attachments[0].mime_type
        } else {
            None
        },
        categories: item.tags,
    }
}

fn collect_images(item: &JsonItem, source: &str, content: Option<&str>, url: Option<&str>) -> (r: Vec<
    ImageCandidate,
>)
    ensures
        image_views(r@) == item_images(item@, source@, borrowed(content), borrowed(url)),
{
    let mut found: Vec<ImageCandidate> = Vec::new();
    let ghost none = image_views(found@);
    push_image(&mut found, source, copied(&item.image), ImageSource::JsonImage, None);
    let ghost first = named_image(source@, item@.image, ImageSource::JsonImage, None);
    assert(none + first == first);
    push_image(&mut found, source, copied(&item.banner_image), ImageSource::JsonImage, None);
    push_attached(&mut found, source, &item.attachments);
    let mut inside = inline_images(content, source, url);
    let ghost before = found@;
    let ghost more = inside@;
    found.append(&mut inside);
    assert(image_views(found@) == image_views(before) + image_views(more));
    unique_candidates(&found)
}

/// The article that `item` makes up, its addresses resolved against `source`.
pub fn article_of_item(item: &JsonItem, source: &str) -> (r: ParsedArticle)
    ensures
        r@ == item_article(item@, source@),
{
    let url = resolve_text(
        source,
        match &item.url {
            Some(text) => Some(text.clone()),
            None => copied(&item.external_url),
        },
    );
    let title = title_of_article(copied(&item.title));
    let published_at = read_date(copied(&item.date_published));
    let updated_at = read_date(copied(&item.date_modified));
    let content = match &item.content_html {
        Some(text) => clean_optional(text.as_str()),
        None => match &item.content_text {
            Some(text) => clean_optional(text.as_str()),
            None => None,
        },
    };
    let own_summary = match &item.summary {
        Some(text) => clean_optional(text.as_str()),
        None => None,
    };
    let summary = match own_summary {
        Some(text) => Some(text),
        None => match &content {
            Some(text) => clean_optional(plain_text(text.as_str()).as_str()),
            None => None,
        },
    };
    assert(views(item.authors@).len() == item.authors@.len());
    let author = if item.authors.len() > 0 {
        Some(joined(&item.authors, ", "))
    } else {
        copied(&item.author)
    };
    let image_candidates = collect_images(item, source, lent(&content), lent(&url));
    let image = select_image(&image_candidates);
    assert(attachment_views(item.attachments@).len() == item.attachments@.len());
    let enclosure_url = if item.attachments.len() > 0 {
        assert(item@.attachments[0] == item.attachments@[0]@);
        resolve_text(source, Some(item.attachments[0].url.clone()))
    } else {
        None
    };
    let enclosure_type = if item.attachments.len() > 0 {
        assert(item@.attachments[0] == item.attachments@[0]@);
        copied(&item.attachments[0].mime_type)
    } else {
        None
    };
    let stable_id = parser_stable_id(
        Some(item.id.as_str()),
        lent(&url),
        title.as_str(),
        published_at,
        lent(&author),
    );
    ParsedArticle {
        stable_id,
        title,
        url,
        author,
        published_at,
        updated_at,
        summary,
        content,
        image,
        image_candidates,
        enclosure_url,
        enclosure_type,
        categories: copied_list(&item.tags),
    }
}

/// A JSON feed: its own fields, and the texts of its items.
pub struct JsonFeed {
    pub version: String,
    pub title: Option<String>,
    pub home_page_url: Option<String>,
    pub feed_url: Option<String>,
    pub description: Option<String>,
    pub icon: Option<String>,
    pub favicon: Option<String>,
    pub language: Option<String>,
    pub items: Vec<String>,
}

/// What a [`JsonFeed`] holds.
pub struct JsonFeedView {
    pub version: Seq<char>,
    pub title: Option<Seq<char>>,
    pub home_page_url: Option<Seq<char>>,
    pub feed_url: Option<Seq<char>>,
    pub description: Option<Seq<char>>,
    pub icon: Option<Seq<char>>,
    pub favicon: Option<Seq<char>>,
    pub language: Option<Seq<char>>,
    pub items: Seq<Seq<char>>,
}

impl View for JsonFeed {
    type V = JsonFeedView;

    open spec fn view(&self) -> JsonFeedView {
        JsonFeedView {
            version: self.version@,
            title: view_of(self.title),
            home_page_url: view_of(self.home_page_url),
            feed_url: view_of(self.feed_url),
            description: view_of(self.description),
            icon: view_of(self.icon),
            favicon: view_of(self.favicon),
            language: view_of(self.language),
            items: views(self.items@),
        }
    }
}

/// The texts of the items in a field; a feed without the field has none.
pub open spec fn items_field(field: Option<Seq<char>>) -> Option<Seq<Seq<char>>> {
    match field {
        Some(text) => inner_elements(text),
        None => Some(Seq::empty()),
    }
}

fn read_items_field(field: Option<&str>) -> (r: Option<Vec<String>>)
    ensures
        list_view(r) == items_field(borrowed(field)),
{
    match field {
        Some(text) => read_inner_elements(text),
        None => {
            let none: Vec<String> = Vec::new();
            assert(views(none@) == Seq::<Seq<char>>::empty());
            Some(none)
        },
    }
}

/// The fields of a feed.
pub open spec fn feed_names() -> Seq<Seq<char>> {
    seq![
        "version"@,
        "title"@,
        "home_page_url"@,
        "feed_url"@,
        "description"@,
        "icon"@,
        "favicon"@,
        "language"@,
        "items"@,
    ]
}

/// The JSON feed that a text holds: an object with a version, whose other
/// fields have their types where they are there, and none of whose fields
/// stands twice.
pub open spec fn json_document(text: Seq<char>) -> Option<JsonFeedView> {
    match object_members(text) {
        Some(members) => if !once_each(members, feed_names()) {
            None
        } else {
            let fields = RecordView::Named(members);
            match (
                (
                    required_string(fields.field("version"@, 0)),
                    optional_string(fields.field("title"@, 1)),
                    optional_string(fields.field("home_page_url"@, 2)),
                    optional_string(fields.field("feed_url"@, 3)),
                    optional_string(fields.field("description"@, 4)),
                ),
                (
                    optional_string(fields.field("icon"@, 5)),
                    optional_string(fields.field("favicon"@, 6)),
                    optional_string(fields.field("language"@, 7)),
                    items_field(fields.field("items"@, 8)),
                ),
            ) {
                (
                    (
                        Some(version),
                        Some(title),
                        Some(home_page_url),
                        Some(feed_url),
                        Some(description),
                    ),
                    (Some(icon), Some(favicon), Some(language), Some(items)),
                ) => Some(
                    JsonFeedView {
                        version,
                        title,
                        home_page_url,
                        feed_url,
                        description,
                        icon,
                        favicon,
                        language,
                        items,
                    },
                ),
                _ => None,
            }
        },
        None => None,
    }
}

fn read_document(text: &str) -> (r: Option<JsonFeed>)
    ensures
        match r {
            Some(feed) => json_document(text@) == Some(feed@),
            None => json_document(text@) is None,
        },
{
    let names = vec![
        "version",
        "title",
        "home_page_url",
        "feed_url",
        "description",
        "icon",
        "favicon",
        "language",
        "items",
    ];
    assert(name_views(names@) == feed_names());
    match read_object(text, &names) {
        Some(fields) => match (
            (
                required_field(fields.field("version", 0)),
                string_field(fields.field("title", 1)),
                string_field(fields.field("home_page_url", 2)),
                string_field(fields.field("feed_url", 3)),
                string_field(fields.field("description", 4)),
            ),
            (
                string_field(fields.field("icon", 5)),
                string_field(fields.field("favicon", 6)),
                string_field(fields.field("language", 7)),
                read_items_field(fields.field("items", 8)),
            ),
        ) {
            (
                (
                    Some(version),
                    Some(title),
                    Some(home_page_url),
                    Some(feed_url),
                    Some(description),
                ),
                (Some(icon), Some(favicon), Some(language), Some(items)),
            ) => Some(
                JsonFeed {
                    version,
                    title,
                    home_page_url,
                    feed_url,
                    description,
                    icon,
                    favicon,
                    language,
                    items,
                },
            ),
            _ => None,
        },
        None => None,
    }
}

/// The articles that the items of a list make up; an item that cannot be read
/// is passed over.
pub open spec fn item_articles(items: Seq<Seq<char>>, source: Seq<char>) -> Seq<ArticleView>
    decreases items.len(),
{
    if items.len() == 0 {
        Seq::empty()
    } else {
        let before = item_articles(items.drop_last(), source);
        match json_item(items.last()) {
            Some(item) => before.push(item_article(item, source)),
            None => before,
        }
    }
}

fn read_articles(items: &Vec<String>, source: &str) -> (r: Vec<ParsedArticle>)
    ensures
        article_views(r@) == item_articles(views(items@), source@),
{
    let ghost all = views(items@);
    let mut out: Vec<ParsedArticle> = Vec::new();
    let mut i: usize = 0;
    assert(article_views(out@) == Seq::<ArticleView>::empty());
    while i < items.len()
        invariant
            i <= items@.len(),
            all == views(items@),
            article_views(out@) == item_articles(all.take(i as int), source@),
        decreases items@.len() - i,
    {
        assert(all.take(i + 1).drop_last() == all.take(i as int));
        assert(all.take(i + 1).last() == items@[i as int]@);
        let ghost before = out@;
        if let Some(item) = read_item(items[i].as_str()) {
            let article = article_of_item(&item, source);
            out.push(article);
            assert(article_views(out@) == article_views(before).push(article@));
        }
        i += 1;
    }
    assert(all.take(i as int) == all);
    out
}

/// The feed that a JSON document makes up.
pub open spec fn document_feed(feed: JsonFeedView, source: Seq<char>) -> FeedView {
    let icons = icons_of(source, feed.icon, feed.favicon);
    FeedView {
        format: FeedFormat::Json,
        title: feed_title(feed.title, source),
        description: cleaned_text(feed.description),
        site_url: resolved_text(source, feed.home_page_url),
        subscription_url: resolved_text(source, feed.feed_url),
        language: feed.language,
        icon_candidates: icons,
        feed_image: first_text(icons),
        articles: distinct_articles(item_articles(feed.items, source)),
    }
}

/// What comes of a JSON document.
#[verifier::opaque]
pub open spec fn document_result(feed: JsonFeedView, source: Seq<char>) -> Result<
    FeedView,
    CoreErrorView,
> {
    if !contains(lower(feed.version), "jsonfeed.org/version"@) {
        Err(CoreErrorView::UnsupportedFeed)
    } else if feed.items.len() > MAX_ARTICLES {
        Err(CoreErrorView::InputLimitExceeded("article count"@))
    } else {
        Ok(document_feed(feed, source))
    }
}

/// The feed in a JSON document.
pub fn feed_of_document(feed: &JsonFeed, source: &str) -> (r: Result<ParsedFeed, CoreError>)
    ensures
        feed_result(r) == document_result(feed@, source@),
{
    reveal(document_result);
    let version = lowered(feed.version.as_str());
    let known = has(version.as_str(), "jsonfeed.org/version");
    if !known {
        return Err(CoreError::UnsupportedFeed);
    }
    assert(views(feed.items@).len() == feed.items@.len());
    if feed.items.len() > MAX_ARTICLES {
        return Err(CoreError::InputLimitExceeded("article count"));
    }
    let icon_candidates = collect_icons(source, copied(&feed.icon), copied(&feed.favicon));
    let feed_image = first_of(&icon_candidates);
    let description = match &feed.description {
        Some(text) => clean_optional(text.as_str()),
        None => None,
    };
    Ok(
        ParsedFeed {
            format: FeedFormat::Json,
            title: clean_title(copied(&feed.title), source),
            description,
            site_url: resolve_text(source, copied(&feed.home_page_url)),
            subscription_url: resolve_text(source, copied(&feed.feed_url)),
            language: copied(&feed.language),
            icon_candidates,
            feed_image,
            articles: deduplicate(read_articles(&feed.items, source)),
        },
    )
}

/// The feed in a JSON text.
pub fn parse_json(input: &str, source: &str) -> (r: Result<ParsedFeed, CoreError>)
    ensures
        feed_result(r) == (match json_document(input@) {
            Some(feed) => document_result(feed, source@),
            None => Err(CoreErrorView::MalformedJsonFeed),
        }),
{
    match read_document(input) {
        Some(feed) => feed_of_document(&feed, source),
        None => Err(CoreError::MalformedJsonFeed),
    }
}

} // verus!
