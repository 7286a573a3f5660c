//! Which pictures an article has, and which of them is shown with it.

use crate::identity::normal_url;
use crate::images::{
    at_least_as_good, distinct_images, has_telltale, image_keys, is_telltale, law_selected_is_best,
    plausible, selected, side, trust, ImageSource, ImageView,
};
use crate::laws::documents::{
    has_attribute, is_inside, lacks_attribute, lemma_attribute, lemma_first_such,
};
use crate::laws::places::{are_the_places, comes_first, law_first_of_each_is_kept};
use crate::parser::{media, media_from, media_image, xml_article};
use crate::text::{contains, lower, starts_with};
use crate::unique::firsts;
use crate::web::resolved;
use crate::xml::XmlView;
use vstd::prelude::*;

verus! {

/// A picture of a list is at the same address, in normal form.
pub open spec fn has_picture_at(list: Seq<ImageView>, url: Seq<char>) -> bool {
    exists|i: int| 0 <= i < list.len() && normal_url((#[trigger] list[i]).url) == normal_url(url)
}

/// Of the pictures that are found the first at each address is kept, and no
/// other.
pub proof fn law_pictures_are_kept_once(list: Seq<ImageView>)
    ensures
        ({
            let kept = distinct_images(list);
            &&& forall|i: int| 0 <= i < list.len() ==> has_picture_at(kept, (#[trigger] list[i]).url)
            &&& forall|k: int| 0 <= k < kept.len() ==> list.contains(#[trigger] kept[k])
            &&& forall|k: int, m: int|
                0 <= k < m < kept.len() ==> normal_url((#[trigger] kept[k]).url) != normal_url(
                    (#[trigger] kept[m]).url,
                )
            &&& list.len() > 0 ==> kept.len() > 0 && kept[0] == list[0]
        }),
{
    let keys = image_keys(list);
    let kept = distinct_images(list);
    law_first_of_each_is_kept(list, keys);
    let at = choose|at: Seq<int>|
        {
            &&& #[trigger] are_the_places(at, list.len() as int, comes_first(keys))
            &&& firsts(list, keys) == at.map_values(|i: int| list[i])
        };
    assert forall|i: int| 0 <= i < list.len() implies has_picture_at(
        kept,
        (#[trigger] list[i]).url,
    ) by {
        let f = lemma_first_such(keys, i);
        assert(comes_first(keys)(f));
        let k = choose|k: int| 0 <= k < at.len() && at[k] == f;
        assert(kept[k] == list[f]);
        assert(keys[f] == normal_url(list[f].url));
        assert(keys[i] == normal_url(list[i].url));
    }
    assert forall|k: int| 0 <= k < kept.len() implies list.contains(#[trigger] kept[k]) by {
        assert(kept[k] == list[at[k]]);
        assert(0 <= at[k] < list.len());
    }
    assert forall|k: int, m: int| 0 <= k < m < kept.len() implies normal_url(
        (#[trigger] kept[k]).url,
    ) != normal_url((#[trigger] kept[m]).url) by {
        assert(comes_first(keys)(at[m]));
        assert(at[k] < at[m]);
        assert(keys[at[k]] != keys[at[m]]);
    }
    if list.len() > 0 {
        assert(comes_first(keys)(0));
        let k = choose|k: int| 0 <= k < at.len() && at[k] == 0;
        if k > 0 {
            assert(at[0] < at[k]);
        }
    }
}

/// A picture can be shown with an article: its address holds none of the words
/// that give away a counter, a spacer or a badge, and where its sides are known
/// it is neither small nor much longer than wide.
pub open spec fn is_fit(image: ImageView) -> bool {
    let url = lower(image.url);
    &&& !contains(url, "pixel"@) && !contains(url, "tracker"@) && !contains(url, "spacer"@)
    &&& !contains(url, "clear.gif"@) && !contains(url, "1x1"@) && !contains(url, "avatar"@)
    &&& !contains(url, "gravatar"@) && !contains(url, "favicon"@) && !contains(url, "logo"@)
    &&& image.width is Some && image.height is Some ==> {
        let w = image.width->0 as int;
        let h = image.height->0 as int;
        w >= 80 && h >= 60 && w < 6 * h && h < 6 * w
    }
}

/// Pictures from the one source are preferred to those from the other.
pub open spec fn ranks_above(a: ImageSource, b: ImageSource) -> bool {
    match b {
        ImageSource::JsonImage => false,
        ImageSource::Enclosure => a == ImageSource::JsonImage,
        ImageSource::MediaContent => a == ImageSource::JsonImage || a == ImageSource::Enclosure,
        ImageSource::MediaThumbnail => a != ImageSource::MediaThumbnail && a
            != ImageSource::InlineHtml,
        ImageSource::InlineHtml => a != ImageSource::InlineHtml,
    }
}

proof fn lemma_fit(image: ImageView)
    ensures
        plausible(image) == is_fit(image),
{
    let url = lower(image.url);
    assert(is_telltale("pixel"@) && is_telltale("tracker"@) && is_telltale("spacer"@));
    assert(is_telltale("clear.gif"@) && is_telltale("1x1"@) && is_telltale("avatar"@));
    assert(is_telltale("gravatar"@) && is_telltale("favicon"@) && is_telltale("logo"@));
    if has_telltale(url) {
        let word = choose|word: Seq<char>| is_telltale(word) && #[trigger] contains(url, word);
        assert(!is_fit(image));
    }
    if image.width is Some && image.height is Some {
        let w = image.width->0 as int;
        let h = image.height->0 as int;
        if w >= 80 && h >= 60 {
            assert(w >= h ==> (w / h <= 5 <==> w < 6 * h)) by (nonlinear_arith)
                requires
                    w >= 80,
                    h >= 60,
            ;
            assert(h > w ==> (h / w <= 5 <==> h < 6 * w)) by (nonlinear_arith)
                requires
                    w >= 80,
                    h >= 60,
            ;
        }
    }
}

/// The picture that is shown with an article is one of those it has and fit to
/// be shown; none that is fit comes from a source that is preferred, and none
/// from the same source is larger, as far as a size is known. Where any is fit,
/// one is shown.
pub proof fn law_best_picture_is_shown(list: Seq<ImageView>)
    ensures
        match selected(list) {
            Some(best) => {
                &&& list.contains(best)
                &&& is_fit(best)
                &&& forall|i: int|
                    0 <= i < list.len() && is_fit(#[trigger] list[i]) ==> {
                        let other = list[i];
                        &&& !ranks_above(other.source, best.source)
                        &&& other.source == best.source && other.width is Some
                            && other.height is Some && other.width->0 * other.height->0
                            <= 0xffff_ffff && other.width->0 * other.height->0 > 0
                            ==> best.width is Some && best.height is Some && best.width->0
                            * best.height->0 >= other.width->0 * other.height->0
                    }
            },
            None => forall|i: int| 0 <= i < list.len() ==> !is_fit(#[trigger] list[i]),
        },
{
    law_selected_is_best(list);
    match selected(list) {
        Some(best) => {
            lemma_fit(best);
            assert forall|i: int| 0 <= i < list.len() && is_fit(#[trigger] list[i]) implies ({
                let other = list[i];
                &&& !ranks_above(other.source, best.source)
                &&& other.source == best.source && other.width is Some && other.height is Some
                    && other.width->0 * other.height->0 <= 0xffff_ffff && other.width->0
                    * other.height->0 > 0 ==> best.width is Some && best.height is Some
                    && best.width->0 * best.height->0 >= other.width->0 * other.height->0
            }) by {
                lemma_fit(list[i]);
                assert(at_least_as_good(best, list[i]));
                assert(ranks_above(list[i].source, best.source) ==> trust(list[i].source) > trust(
                    best.source,
                ));
            }
        },
        None => {
            assert forall|i: int| 0 <= i < list.len() implies !is_fit(#[trigger] list[i]) by {
                lemma_fit(list[i]);
            }
        },
    }
}

/// An element says of itself that it is no picture: by a medium that is another
/// one, or by a type that is none of a picture.
pub open spec fn is_no_picture(node: XmlView) -> bool {
    ||| exists|v: Seq<char>| #[trigger]
        has_attribute(node, "medium"@, v) && lower(v) != lower("image"@)
    ||| exists|v: Seq<char>| #[trigger]
        has_attribute(node, "type"@, v) && !starts_with(v, "image/"@)
}

/// An element names a picture at an address as written: a thumbnail or a piece
/// of content under `url`, an enclosure of a picture under `url`, else `href`.
pub open spec fn names_picture(
    node: XmlView,
    source: ImageSource,
    reference: Seq<char>,
) -> bool {
    &&& node.is_element
    &&& !is_no_picture(node)
    &&& match source {
        ImageSource::MediaThumbnail => node.name == "thumbnail"@ && has_attribute(
            node,
            "url"@,
            reference,
        ),
        ImageSource::MediaContent => node.name == "content"@ && has_attribute(
            node,
            "url"@,
            reference,
        ),
        ImageSource::Enclosure => node.name == "enclosure"@ && !lacks_attribute(node, "type"@) && (
        has_attribute(node, "url"@, reference) || (lacks_attribute(node, "url"@) && has_attribute(
            node,
            "href"@,
            reference,
        ))),
        _ => false,
    }
}

/// The picture that an element names is found, at its address seen from that of
/// the document and with its size and type, wherever it stands in the item.
pub proof fn law_named_pictures_are_found(
    nodes: Seq<XmlView>,
    p: int,
    source: Seq<char>,
    atom: bool,
    i: int,
    origin: ImageSource,
    reference: Seq<char>,
    url: Seq<char>,
)
    requires
        0 <= p < nodes.len(),
        i == p || is_inside(nodes, p, i),
        names_picture(nodes[i], origin, reference),
        resolved(source, reference) == Some(url),
    ensures
        has_picture_at(xml_article(nodes, p, source, atom).image_candidates, url),
        exists|image: ImageView| #[trigger]
            media(nodes, p, source).contains(image) && image.url == url && image.source == origin
                && forall|v: Seq<char>|
                (#[trigger] has_attribute(nodes[i], "width"@, v) ==> image.width == side(Some(v)))
                    && (has_attribute(nodes[i], "height"@, v) ==> image.height == side(Some(v)))
                    && (has_attribute(nodes[i], "type"@, v) ==> image.mime_type == Some(v)),
{
    let node = nodes[i];
    lemma_attribute(node, "url"@);
    lemma_attribute(node, "href"@);
    lemma_attribute(node, "type"@);
    lemma_attribute(node, "medium"@);
    lemma_attribute(node, "width"@);
    lemma_attribute(node, "height"@);
    reveal_strlit("thumbnail");
    reveal_strlit("content");
    reveal_strlit("enclosure");
    assert("thumbnail"@.len() == 9 && "content"@.len() == 7 && "enclosure"@.len() == 9);
    assert("thumbnail"@[0] == 't' && "enclosure"@[0] == 'e');
    let found = media_image(node, source);
    if crate::parser::denies_image(node) {
        let medium = crate::xml::attribute(node, "medium"@);
        let kind = crate::xml::attribute(node, "type"@);
        if medium is Some && lower(medium->0) != lower("image"@) {
            assert(has_attribute(node, "medium"@, medium->0));
        } else {
            assert(has_attribute(node, "type"@, kind->0));
        }
        assert(is_no_picture(node));
    }
    if origin == ImageSource::Enclosure {
        let kind = crate::xml::attribute(node, "type"@);
        assert(has_attribute(node, "type"@, kind->0));
        if !starts_with(kind->0, "image/"@) {
            assert(is_no_picture(node));
        }
    }
    assert(found is Some);
    let image = found->0;
    lemma_media(nodes, p, p, source, i);
    assert(media(nodes, p, source).contains(image));
    let article = xml_article(nodes, p, source, atom);
    let inline = crate::images::pictures_in(
        crate::dates::either(
            crate::parser::xml_content(nodes, p),
            crate::parser::xml_summary(nodes, p, atom),
        ),
        match article.url {
            Some(address) => address,
            None => source,
        },
    );
    let first = media(nodes, p, source);
    let all = first + inline;
    law_pictures_are_kept_once(all);
    let k = choose|k: int| 0 <= k < first.len() && first[k] == image;
    assert(all[k] == image);
}

proof fn lemma_media(nodes: Seq<XmlView>, p: int, i: int, source: Seq<char>, at: int)
    requires
        0 <= p <= i <= at < nodes.len(),
        at == p || is_inside(nodes, p, at),
        media_image(nodes[at], source) is Some,
    ensures
        media_from(nodes, p, i, source).contains(media_image(nodes[at], source)->0),
    decreases at - i,
{
    let all = media_from(nodes, p, i, source);
    let image = media_image(nodes[at], source)->0;
    if i > p {
        assert(nodes[i].depth > nodes[p].depth);
    }
    if i == at {
        assert(all[0] == image);
    } else {
        lemma_media(nodes, p, i + 1, source, at);
        let rest = media_from(nodes, p, i + 1, source);
        let k = choose|k: int| 0 <= k < rest.len() && rest[k] == image;
        if media_image(nodes[i], source) is Some {
            assert(all[k + 1] == image);
        } else {
            assert(all[k] == image);
        }
    }
}

/// The pictures in the text of an article are found too, seen from its address,
/// and from that of the document where it has none; and whatever picture it has
/// was found in one of the two ways. The one that is shown is one of them.
pub proof fn law_pictures_in_the_text_are_found(
    nodes: Seq<XmlView>,
    p: int,
    source: Seq<char>,
    atom: bool,
    k: int,
)
    requires
        0 <= p < nodes.len(),
    ensures
        ({
            let article = xml_article(nodes, p, source, atom);
            let from = if article.url is Some {
                article.url->0
            } else {
                source
            };
            &&& article.content is Some && 0 <= k < crate::images::html_images(
                article.content->0,
                0,
                from,
            ).len() ==> has_picture_at(
                article.image_candidates,
                crate::images::html_images(article.content->0, 0, from)[k].url,
            )
            &&& article.content is Some ==> forall|j: int|
                0 <= j < article.image_candidates.len() ==> media(nodes, p, source).contains(
                    #[trigger] article.image_candidates[j],
                ) || crate::images::html_images(article.content->0, 0, from).contains(
                    article.image_candidates[j],
                )
            &&& article.image is Some ==> article.image_candidates.contains(article.image->0)
                && is_fit(article.image->0)
            &&& article.image is None ==> forall|j: int|
                0 <= j < article.image_candidates.len() ==> !is_fit(
                    #[trigger] article.image_candidates[j],
                )
        }),
{
    let article = xml_article(nodes, p, source, atom);
    let from = if article.url is Some {
        article.url->0
    } else {
        source
    };
    let first = media(nodes, p, source);
    let inline = crate::images::pictures_in(
        crate::dates::either(
            crate::parser::xml_content(nodes, p),
            crate::parser::xml_summary(nodes, p, atom),
        ),
        from,
    );
    let all = first + inline;
    law_pictures_are_kept_once(all);
    law_best_picture_is_shown(article.image_candidates);
    if 0 <= k < inline.len() {
        assert(all[first.len() + k] == inline[k]);
    }
    assert forall|j: int| 0 <= j < article.image_candidates.len() implies first.contains(
        #[trigger] article.image_candidates[j],
    ) || inline.contains(article.image_candidates[j]) by {
        let m = choose|m: int| 0 <= m < all.len() && all[m] == article.image_candidates[j];
        if m < first.len() {
            assert(first[m] == all[m]);
        } else {
            assert(inline[m - first.len()] == all[m]);
        }
    }
}

/// Whatever picture is found in the elements of an item is named by one of them,
/// at its address seen from that of the document: an element that says of itself
/// that it is no picture names none, nor does any other element.
pub proof fn law_found_pictures_are_named(
    nodes: Seq<XmlView>,
    p: int,
    source: Seq<char>,
    k: int,
)
    requires
        0 <= p < nodes.len(),
        0 <= k < media(nodes, p, source).len(),
    ensures
        exists|i: int, reference: Seq<char>|
            {
                &&& i == p || is_inside(nodes, p, i)
                &&& #[trigger] names_picture(
                    nodes[i],
                    media(nodes, p, source)[k].source,
                    reference,
                )
                &&& resolved(source, reference) == Some(media(nodes, p, source)[k].url)
            },
{
    let i = lemma_media_from(nodes, p, p, source, k);
    lemma_named(nodes[i], source);
    let image = media(nodes, p, source)[k];
    let reference = choose|reference: Seq<char>|
        names_picture(nodes[i], image.source, reference) && #[trigger] resolved(
            source,
            reference,
        ) == Some(image.url);
    assert(names_picture(nodes[i], image.source, reference));
}

proof fn lemma_named(node: XmlView, source: Seq<char>)
    requires
        media_image(node, source) is Some,
    ensures
        exists|reference: Seq<char>|
            names_picture(node, media_image(node, source)->0.source, reference)
                && #[trigger] resolved(source, reference) == Some(
                media_image(node, source)->0.url,
            ),
{
    lemma_attribute(node, "url"@);
    lemma_attribute(node, "href"@);
    lemma_attribute(node, "type"@);
    lemma_attribute(node, "medium"@);
    let (origin, reference) = crate::parser::media_reference(node)->0;
    if is_no_picture(node) {
        if exists|v: Seq<char>| #[trigger]
            has_attribute(node, "medium"@, v) && lower(v) != lower("image"@) {
            let v = choose|v: Seq<char>| #[trigger]
                has_attribute(node, "medium"@, v) && lower(v) != lower("image"@);
            assert(crate::xml::attribute(node, "medium"@) == Some(v));
        } else {
            let v = choose|v: Seq<char>| #[trigger]
                has_attribute(node, "type"@, v) && !starts_with(v, "image/"@);
            assert(crate::xml::attribute(node, "type"@) == Some(v));
        }
        assert(crate::parser::denies_image(node));
    }
    if origin == ImageSource::Enclosure {
        let kind = crate::xml::attribute(node, "type"@)->0;
        assert(has_attribute(node, "type"@, kind));
        assert(!lacks_attribute(node, "type"@)) by {
            if lacks_attribute(node, "type"@) {
                assert(crate::xml::attribute(node, "type"@) is None);
            }
        }
    }
    assert(names_picture(node, origin, reference));
    assert(resolved(source, reference) == Some(media_image(node, source)->0.url));
}

proof fn lemma_media_from(nodes: Seq<XmlView>, p: int, i: int, source: Seq<char>, k: int) -> (at:
    int)
    requires
        0 <= p <= i <= nodes.len(),
        p < nodes.len(),
        forall|m: int| p < m < i ==> (#[trigger] nodes[m]).depth > nodes[p].depth,
        0 <= k < media_from(nodes, p, i, source).len(),
    ensures
        at == p || is_inside(nodes, p, at),
        media_image(nodes[at], source) == Some(media_from(nodes, p, i, source)[k]),
    decreases nodes.len() - i,
{
    let all = media_from(nodes, p, i, source);
    let rest = media_from(nodes, p, i + 1, source);
    if media_image(nodes[i], source) is Some {
        if k == 0 {
            i
        } else {
            assert(all[k] == rest[k - 1]);
            lemma_media_from(nodes, p, i + 1, source, k - 1)
        }
    } else {
        lemma_media_from(nodes, p, i + 1, source, k)
    }
}

} // verus!
