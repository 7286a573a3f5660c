//! What the articles and feeds read from JSON documents hold, said of the
//! members of their objects.

use crate::dates::time_in;
use crate::error::CoreErrorView;
use crate::identity::normal_url;
use crate::images::{
    distinct_images, html_images, pictures_in, selected, ImageSource, ImageView,
};
use crate::json::{
    json_elements, json_string, member_from, object_members, once_each, stands_twice, RecordView,
};
use crate::json_feed::{
    attached_images, attachment, attachments, author_name, author_names, document_feed,
    document_result, item_article, item_articles, item_names, json_document, json_item,
    named_image, strings, JsonFeedView, JsonItemView,
};
use crate::laws::documents::is_short_text;
use crate::laws::illustrations::{
    has_picture_at, is_fit, law_best_picture_is_shown, law_pictures_are_kept_once,
};
use crate::laws::places::{
    are_the_places, comes_first, law_first_of_each_is_kept, lemma_one_wanted,
};
use crate::markup::plain;
use crate::parser::{article_ids, ArticleView, FeedFormat, FeedView};
use crate::text::{byte_len, contains, join, lower, starts_with, trim};
use crate::unique::firsts;
use crate::web::{host_name, resolved};
use vstd::prelude::*;

verus! {

/// A value is what a text says without the white space round it, where that is
/// neither empty nor too long.
pub open spec fn is_clean_text(value: Option<Seq<char>>, text: Seq<char>) -> bool {
    &&& trim(text).len() > 0 && byte_len(trim(text)) <= 524_288 ==> value == Some(trim(text))
    &&& trim(text).len() == 0 || byte_len(trim(text)) > 524_288 ==> value is None
}

/// An article of a JSON feed is what its item says: its address, else its
/// address elsewhere; its title in plain words; its HTML, else its text; its
/// summary, else the plain words of its text; its authors, else its author; its
/// times; its tags; and its first file as an enclosure. Its identifier tells it
/// from the others.
pub proof fn law_json_article_is_what_the_item_says(item: JsonItemView, source: Seq<char>)
    ensures
        ({
            let article = item_article(item, source);
            &&& item.url is Some ==> article.url == resolved(source, item.url->0)
            &&& item.url is None && item.external_url is Some ==> article.url == resolved(
                source,
                item.external_url->0,
            )
            &&& item.url is None && item.external_url is None ==> article.url is None
            &&& item.title is Some && plain(item.title->0).len() > 0 ==> article.title == plain(
                item.title->0,
            )
            &&& item.title is None || plain(item.title->0).len() == 0 ==> article.title
                == "Untitled Article"@
            &&& item.content_html is Some ==> is_clean_text(article.content, item.content_html->0)
            &&& item.content_html is None && item.content_text is Some ==> is_clean_text(
                article.content,
                item.content_text->0,
            )
            &&& item.content_html is None && item.content_text is None ==> article.content is None
            &&& item.summary is Some && trim(item.summary->0).len() > 0 && byte_len(
                trim(item.summary->0),
            ) <= 524_288 ==> article.summary == Some(trim(item.summary->0))
            &&& item.summary is None || trim(item.summary->0).len() == 0 || byte_len(
                trim(item.summary->0),
            ) > 524_288 ==> (article.content is Some ==> is_short_text(
                article.summary,
                plain(article.content->0),
            )) && (article.content is None ==> article.summary is None)
            &&& item.authors.len() > 0 ==> article.author == Some(join(item.authors, ", "@))
            &&& item.authors.len() == 0 ==> article.author == item.author
            &&& item.date_published is Some ==> article.published_at == time_in(
                item.date_published->0,
            )
            &&& item.date_published is None ==> article.published_at is None
            &&& item.date_modified is Some ==> article.updated_at == time_in(item.date_modified->0)
            &&& item.date_modified is None ==> article.updated_at is None
            &&& article.categories == item.tags
            &&& item.attachments.len() > 0 ==> article.enclosure_url == resolved(
                source,
                item.attachments[0].url,
            ) && article.enclosure_type == item.attachments[0].mime_type
            &&& item.attachments.len() == 0 ==> article.enclosure_url is None
                && article.enclosure_type is None
            &&& trim(item.id).len() > 0 ==> article.stable_id == trim(item.id)
            &&& trim(item.id).len() == 0 && article.url is Some ==> article.stable_id == "url:"@
                + normal_url(article.url->0)
        }),
{
}

/// Pictures from four places, kept once.
proof fn lemma_four_places(
    a: Seq<ImageView>,
    b: Seq<ImageView>,
    c: Seq<ImageView>,
    d: Seq<ImageView>,
)
    ensures
        ({
            let list = distinct_images(a + b + c + d);
            &&& a.len() > 0 ==> list.len() > 0 && list[0] == a[0]
            &&& forall|k: int| 0 <= k < b.len() ==> has_picture_at(list, (#[trigger] b[k]).url)
            &&& forall|k: int| 0 <= k < c.len() ==> has_picture_at(list, (#[trigger] c[k]).url)
            &&& forall|k: int| 0 <= k < d.len() ==> has_picture_at(list, (#[trigger] d[k]).url)
        }),
{
    let all = a + b + c + d;
    let list = distinct_images(all);
    law_pictures_are_kept_once(all);
    if a.len() > 0 {
        assert(all[0] == a[0]);
    }
    assert forall|k: int| 0 <= k < b.len() implies has_picture_at(list, (#[trigger] b[k]).url) by {
        assert(all[a.len() + k] == b[k]);
    }
    assert forall|k: int| 0 <= k < c.len() implies has_picture_at(list, (#[trigger] c[k]).url) by {
        assert(all[a.len() + b.len() + k] == c[k]);
    }
    assert forall|k: int| 0 <= k < d.len() implies has_picture_at(list, (#[trigger] d[k]).url) by {
        assert(all[a.len() + b.len() + c.len() + k] == d[k]);
    }
}

/// Where a picture of an item is seen from: its address, else the document's.
pub open spec fn seen_from(article: ArticleView, source: Seq<char>) -> Seq<char> {
    if article.url is Some {
        article.url->0
    } else {
        source
    }
}

proof fn lemma_item_pictures(item: JsonItemView, source: Seq<char>)
    ensures
        ({
            let article = item_article(item, source);
            let list = article.image_candidates;
            let a = named_image(source, item.image, ImageSource::JsonImage, None);
            let b = named_image(source, item.banner_image, ImageSource::JsonImage, None);
            let c = attached_images(source, item.attachments);
            let d = pictures_in(article.content, seen_from(article, source));
            &&& list == distinct_images(a + b + c + d)
            &&& article.image == selected(list)
        }),
{
}

/// The picture that an item of a JSON feed names comes first among those of its
/// article, and its banner and its files that are pictures are among them, each
/// where its address can be resolved.
pub proof fn law_json_named_pictures_are_found(
    item: JsonItemView,
    source: Seq<char>,
    url: Seq<char>,
    k: int,
)
    ensures
        ({
            let list = item_article(item, source).image_candidates;
            &&& item.image is Some && resolved(source, item.image->0) == Some(url) ==> list.len()
                > 0 && list[0].url == url && list[0].source == ImageSource::JsonImage
            &&& item.banner_image is Some && resolved(source, item.banner_image->0) == Some(url)
                ==> has_picture_at(list, url)
            &&& 0 <= k < item.attachments.len() && item.attachments[k].mime_type is Some
                && starts_with(item.attachments[k].mime_type->0, "image/"@) && resolved(
                source,
                item.attachments[k].url,
            ) == Some(url) ==> has_picture_at(list, url)
        }),
{
    let article = item_article(item, source);
    let a = named_image(source, item.image, ImageSource::JsonImage, None);
    let b = named_image(source, item.banner_image, ImageSource::JsonImage, None);
    let c = attached_images(source, item.attachments);
    let d = pictures_in(article.content, seen_from(article, source));
    lemma_item_pictures(item, source);
    lemma_four_places(a, b, c, d);
    if item.banner_image is Some && resolved(source, item.banner_image->0) == Some(url) {
        assert(b[0].url == url);
    }
    if 0 <= k < item.attachments.len() && item.attachments[k].mime_type is Some && starts_with(
        item.attachments[k].mime_type->0,
        "image/"@,
    ) && resolved(source, item.attachments[k].url) == Some(url) {
        lemma_attached(source, item.attachments, k);
        let m = choose|m: int| 0 <= m < c.len() && (#[trigger] c[m]).url == url;
        assert(c[m].url == url);
    }
}

/// The pictures in the text of an item of a JSON feed are among those of its
/// article, and the one that is shown is one of all these.
pub proof fn law_json_pictures_in_the_text_are_found(
    item: JsonItemView,
    source: Seq<char>,
    k: int,
)
    ensures
        ({
            let article = item_article(item, source);
            let list = article.image_candidates;
            let inside = html_images(article.content->0, 0, seen_from(article, source));
            &&& article.content is Some && 0 <= k < inside.len() ==> has_picture_at(
                list,
                inside[k].url,
            )
            &&& article.image is Some ==> list.contains(article.image->0) && is_fit(
                article.image->0,
            )
            &&& article.image is None ==> forall|j: int|
                0 <= j < list.len() ==> !is_fit(#[trigger] list[j])
        }),
{
    let article = item_article(item, source);
    let a = named_image(source, item.image, ImageSource::JsonImage, None);
    let b = named_image(source, item.banner_image, ImageSource::JsonImage, None);
    let c = attached_images(source, item.attachments);
    let d = pictures_in(article.content, seen_from(article, source));
    lemma_item_pictures(item, source);
    lemma_four_places(a, b, c, d);
    law_best_picture_is_shown(article.image_candidates);
}

proof fn lemma_attached(
    source: Seq<char>,
    list: Seq<crate::json_feed::AttachmentView>,
    k: int,
)
    requires
        0 <= k < list.len(),
        list[k].mime_type is Some,
        starts_with(list[k].mime_type->0, "image/"@),
        resolved(source, list[k].url) is Some,
    ensures
        exists|m: int|
            0 <= m < attached_images(source, list).len() && (#[trigger] attached_images(
                source,
                list,
            )[m]).url == resolved(source, list[k].url)->0,
    decreases list.len(),
{
    let shorter = list.drop_last();
    let before = attached_images(source, shorter);
    let all = attached_images(source, list);
    let url = resolved(source, list[k].url)->0;
    if k < shorter.len() {
        lemma_attached(source, shorter, k);
        let m = choose|m: int| 0 <= m < before.len() && (#[trigger] before[m]).url == url;
        assert(all[m] == before[m]);
    } else {
        assert(all[before.len() as int].url == url);
    }
}

/// A value is the string that the member named `key` holds; none where that is
/// null or there is no such member.
pub open spec fn is_string_of(
    members: Seq<(Seq<char>, Seq<char>)>,
    key: Seq<char>,
    value: Option<Seq<char>>,
) -> bool {
    &&& forall|i: int|
        0 <= i < members.len() && (#[trigger] members[i]).0 == key ==> json_string(members[i].1)
            == Some(value)
    &&& (forall|i: int| 0 <= i < members.len() ==> (#[trigger] members[i]).0 != key)
        ==> value is None
}

proof fn lemma_member(members: Seq<(Seq<char>, Seq<char>)>, i: int, key: Seq<char>)
    requires
        0 <= i <= members.len(),
        !stands_twice(members, key),
    ensures
        match member_from(members, i, key) {
            Some(text) => (exists|k: int|
                i <= k < members.len() && (#[trigger] members[k]).0 == key && members[k].1 == text)
                && forall|k: int|
                i <= k < members.len() && (#[trigger] members[k]).0 == key ==> members[k].1 == text,
            None => forall|k: int| i <= k < members.len() ==> (#[trigger] members[k]).0 != key,
        },
    decreases members.len() - i,
{
    if i < members.len() {
        if members[i].0 == key {
            assert forall|k: int| i <= k < members.len() && (#[trigger] members[k]).0
                == key implies members[k].1 == members[i].1 by {
                if i < k {
                    assert(members[i].0 == key && members[k].0 == key);
                }
            }
        } else {
            lemma_member(members, i + 1, key);
        }
    }
}

proof fn lemma_item_member(members: Seq<(Seq<char>, Seq<char>)>, j: int)
    requires
        once_each(members, item_names()),
        0 <= j < 15,
    ensures
        ({
            let key = item_names()[j];
            match member_from(members, 0, key) {
                Some(text) => (exists|k: int|
                    0 <= k < members.len() && (#[trigger] members[k]).0 == key && members[k].1
                        == text) && forall|k: int|
                    0 <= k < members.len() && (#[trigger] members[k]).0 == key ==> members[k].1
                        == text,
                None => forall|k: int| 0 <= k < members.len() ==> (#[trigger] members[k]).0 != key,
            }
        }),
{
    assert(!stands_twice(members, item_names()[j]));
    lemma_member(members, 0, item_names()[j]);
}

/// An item of a JSON feed holds in each of its fields what the member of that
/// name holds.
pub proof fn law_json_item_is_what_its_members_say(
    text: Seq<char>,
    members: Seq<(Seq<char>, Seq<char>)>,
)
    requires
        object_members(text) == Some(members),
        json_item(text) is Some,
    ensures
        ({
            let item = json_item(text)->0;
            &&& is_string_of(members, "id"@, Some(item.id))
            &&& is_string_of(members, "url"@, item.url)
            &&& is_string_of(members, "external_url"@, item.external_url)
            &&& is_string_of(members, "title"@, item.title)
            &&& is_string_of(members, "content_html"@, item.content_html)
            &&& is_string_of(members, "content_text"@, item.content_text)
            &&& is_string_of(members, "summary"@, item.summary)
            &&& is_string_of(members, "image"@, item.image)
            &&& is_string_of(members, "banner_image"@, item.banner_image)
            &&& is_string_of(members, "date_published"@, item.date_published)
            &&& is_string_of(members, "date_modified"@, item.date_modified)
            &&& forall|i: int|
                0 <= i < members.len() && (#[trigger] members[i]).0 == "author"@ && json_string(
                    members[i].1,
                ) != Some(None::<Seq<char>>) ==> author_name(members[i].1) == Some(item.author)
            &&& forall|i: int|
                0 <= i < members.len() && (#[trigger] members[i]).0 == "tags"@ && json_string(
                    members[i].1,
                ) != Some(None::<Seq<char>>) ==> json_elements(members[i].1) is Some && strings(
                    json_elements(members[i].1)->0,
                ) == Some(item.tags)
            &&& forall|i: int|
                0 <= i < members.len() && (#[trigger] members[i]).0 == "authors"@ && json_string(
                    members[i].1,
                ) != Some(None::<Seq<char>>) ==> json_elements(members[i].1) is Some
                    && author_names(json_elements(members[i].1)->0) == Some(item.authors)
            &&& forall|i: int|
                0 <= i < members.len() && (#[trigger] members[i]).0 == "attachments"@
                    && json_string(members[i].1) != Some(None::<Seq<char>>) ==> json_elements(
                    members[i].1,
                ) is Some && attachments(json_elements(members[i].1)->0) == Some(item.attachments)
        }),
{
    let names = item_names();
    assert(names.len() == 15);
    lemma_item_member(members, 0);
    lemma_item_member(members, 1);
    lemma_item_member(members, 2);
    lemma_item_member(members, 3);
    lemma_item_member(members, 4);
    lemma_item_member(members, 5);
    lemma_item_member(members, 6);
    lemma_item_member(members, 7);
    lemma_item_member(members, 8);
    lemma_item_member(members, 9);
    lemma_item_member(members, 10);
    lemma_item_member(members, 11);
    lemma_item_member(members, 12);
    lemma_item_member(members, 13);
    lemma_item_member(members, 14);
}

/// The names under which an item holds a string.
pub open spec fn holds_string(key: Seq<char>) -> bool {
    key == "url"@ || key == "external_url"@ || key == "title"@ || key == "content_html"@ || key
        == "content_text"@ || key == "summary"@ || key == "image"@ || key == "banner_image"@ || key
        == "date_published"@ || key == "date_modified"@
}

/// The names under which an item holds more than a string.
pub open spec fn holds_more(key: Seq<char>) -> bool {
    key == "authors"@ || key == "author"@ || key == "tags"@ || key == "attachments"@
}

/// An item is read where it has an identifier, the members that are to hold
/// strings hold strings or null, and nothing stands twice; whatever else it has
/// or lacks.
pub proof fn law_json_items_are_read(
    text: Seq<char>,
    members: Seq<(Seq<char>, Seq<char>)>,
    at: int,
    id: Seq<char>,
)
    requires
        object_members(text) == Some(members),
        0 <= at < members.len(),
        members[at].0 == "id"@,
        json_string(members[at].1) == Some(Some(id)),
        forall|i: int, j: int|
            0 <= i < j < members.len() ==> (#[trigger] members[i]).0 != (#[trigger] members[j]).0,
        forall|i: int|
            0 <= i < members.len() && holds_string((#[trigger] members[i]).0) ==> json_string(
                members[i].1,
            ) is Some,
        forall|i: int| 0 <= i < members.len() ==> !holds_more((#[trigger] members[i]).0),
    ensures
        json_item(text) is Some,
        json_item(text)->0.id == id,
        json_item(text)->0.authors.len() == 0,
        json_item(text)->0.author is None,
        json_item(text)->0.tags.len() == 0,
        json_item(text)->0.attachments.len() == 0,
{
    let names = item_names();
    assert(names.len() == 15);
    assert(once_each(members, names));
    lemma_item_member(members, 0);
    lemma_item_member(members, 1);
    lemma_item_member(members, 2);
    lemma_item_member(members, 3);
    lemma_item_member(members, 4);
    lemma_item_member(members, 5);
    lemma_item_member(members, 6);
    lemma_item_member(members, 7);
    lemma_item_member(members, 8);
    lemma_item_member(members, 9);
    lemma_item_member(members, 10);
    lemma_item_member(members, 11);
    lemma_item_member(members, 12);
    lemma_item_member(members, 13);
    lemma_item_member(members, 14);
    lemma_absent(members, "authors"@);
    lemma_absent(members, "author"@);
    lemma_absent(members, "tags"@);
    lemma_absent(members, "attachments"@);
    assert(crate::json::record(text, names) == Some(RecordView::Named(members)));
}

proof fn lemma_absent(members: Seq<(Seq<char>, Seq<char>)>, key: Seq<char>)
    requires
        holds_more(key),
        forall|i: int| 0 <= i < members.len() ==> !holds_more((#[trigger] members[i]).0),
    ensures
        member_from(members, 0, key) is None,
{
    lemma_absent_from(members, 0, key);
}

proof fn lemma_absent_from(members: Seq<(Seq<char>, Seq<char>)>, i: int, key: Seq<char>)
    requires
        holds_more(key),
        forall|k: int| 0 <= k < members.len() ==> !holds_more((#[trigger] members[k]).0),
        0 <= i <= members.len(),
    ensures
        member_from(members, i, key) is None,
    decreases members.len() - i,
{
    if i < members.len() {
        assert(!holds_more(members[i].0));
        lemma_absent_from(members, i + 1, key);
    }
}

/// A list of strings is read as it stands: each of its elements is a string,
/// and they keep their order.
pub proof fn law_strings_are_read_in_order(list: Seq<Seq<char>>)
    ensures
        (forall|i: int|
            0 <= i < list.len() ==> json_string(#[trigger] list[i]) is Some && json_string(
                list[i],
            )->0 is Some) ==> strings(list) is Some,
        strings(list) is Some ==> strings(list)->0.len() == list.len() && forall|i: int|
            0 <= i < list.len() ==> json_string(list[i]) == Some(
                Some(#[trigger] strings(list)->0[i]),
            ),
    decreases list.len(),
{
    if list.len() > 0 {
        let shorter = list.drop_last();
        law_strings_are_read_in_order(shorter);
        let n = list.len() - 1;
        if forall|i: int|
            0 <= i < list.len() ==> json_string(#[trigger] list[i]) is Some && json_string(
                list[i],
            )->0 is Some {
            assert forall|i: int| 0 <= i < shorter.len() implies json_string(
                #[trigger] shorter[i],
            ) is Some && json_string(shorter[i])->0 is Some by {
                assert(shorter[i] == list[i]);
            }
            assert(json_string(list[n]) is Some);
        }
        if strings(list) is Some {
            let all = strings(list)->0;
            let before = strings(shorter)->0;
            assert forall|i: int| 0 <= i < list.len() implies json_string(list[i]) == Some(
                Some(#[trigger] all[i]),
            ) by {
                if i < n {
                    assert(all[i] == before[i]);
                    assert(shorter[i] == list[i]);
                }
            }
        }
    }
}

/// The files of an item are read one by one, in their order.
pub proof fn law_attachments_are_read_in_order(list: Seq<Seq<char>>)
    ensures
        attachments(list) is Some ==> attachments(list)->0.len() == list.len() && forall|i: int|
            0 <= i < list.len() ==> attachment(list[i]) == Some(#[trigger] attachments(list)->0[i]),
    decreases list.len(),
{
    if list.len() > 0 {
        let shorter = list.drop_last();
        law_attachments_are_read_in_order(shorter);
        let n = list.len() - 1;
        if attachments(list) is Some {
            let all = attachments(list)->0;
            let before = attachments(shorter)->0;
            assert forall|i: int| 0 <= i < list.len() implies attachment(list[i]) == Some(
                #[trigger] all[i],
            ) by {
                if i < n {
                    assert(all[i] == before[i]);
                    assert(shorter[i] == list[i]);
                }
            }
        }
    }
}

/// A file of an item has the address and the type that its members give.
pub proof fn law_attachment_is_what_its_members_say(
    text: Seq<char>,
    members: Seq<(Seq<char>, Seq<char>)>,
)
    requires
        object_members(text) == Some(members),
        attachment(text) is Some,
    ensures
        is_string_of(members, "url"@, Some(attachment(text)->0.url)),
        is_string_of(members, "mime_type"@, attachment(text)->0.mime_type),
{
    let names = seq!["url"@, "mime_type"@];
    assert(!stands_twice(members, names[0]));
    assert(!stands_twice(members, names[1]));
    lemma_member(members, 0, "url"@);
    lemma_member(members, 0, "mime_type"@);
}

/// The name of an author is what its member says.
pub proof fn law_author_is_what_its_members_say(
    text: Seq<char>,
    members: Seq<(Seq<char>, Seq<char>)>,
)
    requires
        object_members(text) == Some(members),
        author_name(text) is Some,
    ensures
        is_string_of(members, "name"@, author_name(text)->0),
{
    let names = seq!["name"@];
    assert(!stands_twice(members, names[0]));
    lemma_member(members, 0, "name"@);
}

/// An author in a list has a name.
pub open spec fn has_name(list: Seq<Seq<char>>) -> spec_fn(int) -> bool {
    |i: int| author_name(list[i]) is Some && author_name(list[i])->0 is Some
}

/// The names of the authors in a list are read in their order; one without a
/// name is passed over.
pub proof fn law_authors_are_read_in_order(list: Seq<Seq<char>>)
    requires
        author_names(list) is Some,
    ensures
        exists|at: Seq<int>|
            #[trigger] are_the_places(at, list.len() as int, has_name(list))
                && author_names(list)->0 == at.map_values(|i: int| author_name(list[i])->0->0),
{
    assert(list.take(list.len() as int) == list);
    let at = lemma_names_read(list, list.len());
}

proof fn lemma_names_read(list: Seq<Seq<char>>, n: nat) -> (at: Seq<int>)
    requires
        n <= list.len(),
        author_names(list.take(n as int)) is Some,
    ensures
        are_the_places(at, n as int, has_name(list)),
        author_names(list.take(n as int))->0 == at.map_values(|i: int| author_name(list[i])->0->0),
    decreases n,
{
    let wanted = has_name(list);
    if n == 0 {
        let at = Seq::<int>::empty();
        assert(author_names(list.take(0))->0 =~= at.map_values(
            |i: int| author_name(list[i])->0->0,
        ));
        at
    } else {
        assert(list.take(n as int).drop_last() == list.take(n - 1));
        assert(list.take(n as int).last() == list[n - 1]);
        let shorter = lemma_names_read(list, (n - 1) as nat);
        lemma_one_wanted(shorter, n - 1, wanted);
        if wanted(n - 1) {
            let at = shorter.push(n - 1);
            assert(author_names(list.take(n as int))->0 =~= at.map_values(
                |i: int| author_name(list[i])->0->0,
            ));
            at
        } else {
            shorter
        }
    }
}

/// A JSON feed is what its document says: its title in plain words, else the
/// host that it comes from; its description; its addresses, seen from that of
/// the document; its language; and its icon above its favicon.
pub proof fn law_json_feed_is_what_the_document_says(document: JsonFeedView, source: Seq<char>)
    ensures
        ({
            let feed = document_feed(document, source);
            let icon = if document.icon is Some {
                resolved(source, document.icon->0)
            } else {
                None
            };
            let favicon = if document.favicon is Some {
                resolved(source, document.favicon->0)
            } else {
                None
            };
            let untitled = document.title is None || plain(document.title->0).len() == 0;
            &&& feed.format == FeedFormat::Json
            &&& !untitled ==> feed.title == plain(document.title->0)
            &&& untitled && host_name(source) is Some ==> feed.title == host_name(source)->0
            &&& untitled && host_name(source) is None ==> feed.title == "Untitled Feed"@
            &&& document.description is Some ==> is_clean_text(
                feed.description,
                document.description->0,
            )
            &&& document.description is None ==> feed.description is None
            &&& document.home_page_url is Some ==> feed.site_url == resolved(
                source,
                document.home_page_url->0,
            )
            &&& document.home_page_url is None ==> feed.site_url is None
            &&& document.feed_url is Some ==> feed.subscription_url == resolved(
                source,
                document.feed_url->0,
            )
            &&& document.feed_url is None ==> feed.subscription_url is None
            &&& feed.language == document.language
            &&& icon is Some ==> feed.feed_image == icon && feed.icon_candidates.len() > 0
                && feed.icon_candidates[0] == icon->0
            &&& icon is None ==> feed.feed_image == favicon
            &&& favicon is Some ==> feed.icon_candidates.contains(favicon->0)
            &&& icon is None && favicon is None ==> feed.icon_candidates.len() == 0
            &&& feed.icon_candidates.len() <= 2
        }),
{
    let feed = document_feed(document, source);
    let list = feed.icon_candidates;
    if list.len() > 0 {
        assert(list.contains(list[0]));
    }
    if list.len() > 1 {
        assert(list.contains(list[1]));
    }
}

/// A JSON document is read as a feed if it gives the version of the format, in
/// letters of whatever case, and has no more than ten thousand items.
pub proof fn law_json_version_is_asked_for(document: JsonFeedView, source: Seq<char>)
    ensures
        !contains(lower(document.version), "jsonfeed.org/version"@) ==> document_result(
            document,
            source,
        ) == Err::<FeedView, CoreErrorView>(CoreErrorView::UnsupportedFeed),
        contains(lower(document.version), "jsonfeed.org/version"@) && document.items.len()
            <= 10_000 ==> document_result(document, source) == Ok::<FeedView, CoreErrorView>(
            document_feed(document, source),
        ),
        contains(lower(document.version), "jsonfeed.org/version"@) && document.items.len()
            > 10_000 ==> document_result(document, source) == Err::<FeedView, CoreErrorView>(
            CoreErrorView::InputLimitExceeded("article count"@),
        ),
{
    reveal(document_result);
}

/// An item that can be read and is the first one under its identifier.
pub open spec fn counts_in(items: Seq<Seq<char>>, source: Seq<char>) -> spec_fn(int) -> bool {
    |p: int|
        json_item(items[p]) is Some && forall|q: int|
            0 <= q < p && json_item(#[trigger] items[q]) is Some ==> item_article(
                json_item(items[q])->0,
                source,
            ).stable_id != item_article(json_item(items[p])->0, source).stable_id
}

/// An item that can be read.
pub open spec fn can_be_read(items: Seq<Seq<char>>) -> spec_fn(int) -> bool {
    |p: int| json_item(items[p]) is Some
}

proof fn lemma_items_read(items: Seq<Seq<char>>, source: Seq<char>, n: nat) -> (at: Seq<int>)
    requires
        n <= items.len(),
    ensures
        are_the_places(at, n as int, can_be_read(items)),
        item_articles(items.take(n as int), source) == at.map_values(
            |p: int| item_article(json_item(items[p])->0, source),
        ),
    decreases n,
{
    let wanted = can_be_read(items);
    if n == 0 {
        let at = Seq::<int>::empty();
        assert(item_articles(items.take(0), source) =~= at.map_values(
            |p: int| item_article(json_item(items[p])->0, source),
        ));
        at
    } else {
        assert(items.take(n as int).drop_last() == items.take(n - 1));
        assert(items.take(n as int).last() == items[n - 1]);
        let shorter = lemma_items_read(items, source, (n - 1) as nat);
        lemma_one_wanted(shorter, n - 1, wanted);
        if wanted(n - 1) {
            let at = shorter.push(n - 1);
            assert(item_articles(items.take(n as int), source) =~= at.map_values(
                |p: int| item_article(json_item(items[p])->0, source),
            ));
            at
        } else {
            shorter
        }
    }
}

/// The articles of a JSON feed are those of its items that can be read, in their
/// order, and of those with one identifier the first.
pub proof fn law_json_articles_are_its_items(document: JsonFeedView, source: Seq<char>)
    ensures
        exists|at: Seq<int>|
            {
                &&& #[trigger] are_the_places(
                    at,
                    document.items.len() as int,
                    counts_in(document.items, source),
                )
                &&& document_feed(document, source).articles == at.map_values(
                    |p: int| item_article(json_item(document.items[p])->0, source),
                )
            },
{
    let items = document.items;
    let n = items.len() as int;
    let list = lemma_items_read(items, source, items.len());
    assert(items.take(n) == items);
    let all = item_articles(items, source);
    let ids = article_ids(all);
    law_first_of_each_is_kept(all, ids);
    let firsts_at = choose|at: Seq<int>|
        {
            &&& #[trigger] are_the_places(at, all.len() as int, comes_first(ids))
            &&& firsts(all, ids) == at.map_values(|i: int| all[i])
        };
    let at = firsts_at.map_values(|i: int| list[i]);
    let wanted = counts_in(items, source);
    let is_item = can_be_read(items);
    assert forall|k: int| 0 <= k < at.len() implies 0 <= #[trigger] at[k] < n && wanted(at[k]) by {
        let i = firsts_at[k];
        assert(comes_first(ids)(i));
        assert(is_item(list[i]));
        assert forall|q: int|
            0 <= q < list[i] && json_item(#[trigger] items[q]) is Some implies item_article(
            json_item(items[q])->0,
            source,
        ).stable_id != item_article(json_item(items[list[i]])->0, source).stable_id by {
            assert(is_item(q));
            let j = choose|j: int| 0 <= j < list.len() && list[j] == q;
            if j > i {
                assert(list[i] < list[j]);
            }
            assert(ids[j] != ids[i]);
        }
    }
    assert forall|k: int, m: int| 0 <= k < m < at.len() implies #[trigger] at[k]
        < #[trigger] at[m] by {
        assert(firsts_at[k] < firsts_at[m]);
    }
    assert forall|p: int| 0 <= p < n && #[trigger] wanted(p) implies at.contains(p) by {
        assert(is_item(p));
        let i = choose|i: int| 0 <= i < list.len() && list[i] == p;
        assert forall|j: int| 0 <= j < i implies #[trigger] ids[j] != ids[i] by {
            assert(list[j] < list[i]);
            assert(is_item(list[j]));
            assert(json_item(items[list[j]]) is Some);
        }
        assert(comes_first(ids)(i));
        let k = choose|k: int| 0 <= k < firsts_at.len() && firsts_at[k] == i;
        assert(at[k] == p);
    }
    assert(document_feed(document, source).articles =~= at.map_values(
        |p: int| item_article(json_item(items[p])->0, source),
    ));
    assert(are_the_places(at, n, wanted));
}

/// A JSON document holds in each of its fields what the member of that name
/// holds.
pub proof fn law_json_document_is_what_its_members_say(
    text: Seq<char>,
    members: Seq<(Seq<char>, Seq<char>)>,
)
    requires
        object_members(text) == Some(members),
        json_document(text) is Some,
    ensures
        ({
            let document = json_document(text)->0;
            &&& is_string_of(members, "version"@, Some(document.version))
            &&& is_string_of(members, "title"@, document.title)
            &&& is_string_of(members, "home_page_url"@, document.home_page_url)
            &&& is_string_of(members, "feed_url"@, document.feed_url)
            &&& is_string_of(members, "description"@, document.description)
            &&& is_string_of(members, "icon"@, document.icon)
            &&& is_string_of(members, "favicon"@, document.favicon)
            &&& is_string_of(members, "language"@, document.language)
            &&& forall|i: int|
                0 <= i < members.len() && (#[trigger] members[i]).0 == "items"@
                    ==> crate::json::inner_elements(members[i].1) == Some(document.items)
            &&& (forall|i: int| 0 <= i < members.len() ==> (#[trigger] members[i]).0 != "items"@)
                ==> document.items.len() == 0
        }),
{
    let names = crate::json_feed::feed_names();
    assert(names.len() == 9);
    assert(!stands_twice(members, names[0]));
    assert(!stands_twice(members, names[1]));
    assert(!stands_twice(members, names[2]));
    assert(!stands_twice(members, names[3]));
    assert(!stands_twice(members, names[4]));
    assert(!stands_twice(members, names[5]));
    assert(!stands_twice(members, names[6]));
    assert(!stands_twice(members, names[7]));
    assert(!stands_twice(members, names[8]));
    lemma_member(members, 0, names[0]);
    lemma_member(members, 0, names[1]);
    lemma_member(members, 0, names[2]);
    lemma_member(members, 0, names[3]);
    lemma_member(members, 0, names[4]);
    lemma_member(members, 0, names[5]);
    lemma_member(members, 0, names[6]);
    lemma_member(members, 0, names[7]);
    lemma_member(members, 0, names[8]);
}

/// Whatever picture an article of a JSON feed has is one that its item names, as
/// its picture, as its banner or as a file that is a picture, or one in its text.
pub proof fn law_json_pictures_are_named(item: JsonItemView, source: Seq<char>, j: int)
    requires
        0 <= j < item_article(item, source).image_candidates.len(),
    ensures
        ({
            let article = item_article(item, source);
            let image = article.image_candidates[j];
            ||| item.image is Some && resolved(source, item.image->0) == Some(image.url)
            ||| item.banner_image is Some && resolved(source, item.banner_image->0) == Some(
                image.url,
            )
            ||| exists|k: int|
                0 <= k < item.attachments.len() && (
                #[trigger] item.attachments[k]).mime_type is Some && starts_with(
                    item.attachments[k].mime_type->0,
                    "image/"@,
                ) && resolved(source, item.attachments[k].url) == Some(image.url)
            ||| article.content is Some && html_images(
                article.content->0,
                0,
                seen_from(article, source),
            ).contains(image)
        }),
{
    let article = item_article(item, source);
    let image = article.image_candidates[j];
    let a = named_image(source, item.image, ImageSource::JsonImage, None);
    let b = named_image(source, item.banner_image, ImageSource::JsonImage, None);
    let c = attached_images(source, item.attachments);
    let d = pictures_in(article.content, seen_from(article, source));
    lemma_item_pictures(item, source);
    let all = a + b + c + d;
    law_pictures_are_kept_once(all);
    assert(all.contains(image));
    let m = choose|m: int| 0 <= m < all.len() && all[m] == image;
    let x = a.len() as int;
    let y = x + b.len();
    let z = y + c.len();
    if m < x {
        assert(a[m] == image);
    } else if m < y {
        assert(b[m - x] == image);
    } else if m < z {
        assert(c[m - y] == image);
        lemma_attached_named(source, item.attachments, m - y);
    } else {
        assert(d[m - z] == image);
    }
}

proof fn lemma_attached_named(
    source: Seq<char>,
    list: Seq<crate::json_feed::AttachmentView>,
    m: int,
)
    requires
        0 <= m < attached_images(source, list).len(),
    ensures
        exists|k: int|
            0 <= k < list.len() && (#[trigger] list[k]).mime_type is Some && starts_with(
                list[k].mime_type->0,
                "image/"@,
            ) && resolved(source, list[k].url) == Some(attached_images(source, list)[m].url),
    decreases list.len(),
{
    let shorter = list.drop_last();
    let n = list.len() - 1;
    let before = attached_images(source, shorter);
    let all = attached_images(source, list);
    if m < before.len() {
        lemma_attached_named(source, shorter, m);
        assert(all[m] == before[m]);
        let k = choose|k: int|
            0 <= k < shorter.len() && (#[trigger] shorter[k]).mime_type is Some && starts_with(
                shorter[k].mime_type->0,
                "image/"@,
            ) && resolved(source, shorter[k].url) == Some(before[m].url);
        assert(list[k] == shorter[k]);
    } else {
        assert(list[n].mime_type is Some);
    }
}

} // verus!
