//! What is found in a text of markup, and what a document is taken for.

use crate::error::CoreErrorView;
use crate::images::{html_images, tag_image, ImageSource, ImageView};
use crate::markup::tag_attribute;
use crate::network::{content_error, FetchKind, NetworkErrorKind};
use crate::parser::{looks_like_json, parsed_feed, unmarked, xml_feed, FeedView};
use crate::text::{
    before_char, byte_len, contains, find, is_space, lower, occurs_at, starts_with, trim,
    trim_start,
};
use crate::web::resolved;
use crate::xml::parsed_xml;
use vstd::prelude::*;

verus! {

proof fn lemma_find_shift(x: Seq<char>, y: Seq<char>, pat: Seq<char>, k: int)
    requires
        0 <= k,
    ensures
        find(x + y, pat, x.len() + k) == match find(y, pat, k) {
            Some(i) => Some(x.len() + i),
            None => None,
        },
    decreases y.len() - k + 1,
{
    let s = x + y;
    if k + pat.len() <= y.len() {
        assert(s.subrange(x.len() + k, x.len() + k + pat.len()) =~= y.subrange(
            k,
            k + pat.len(),
        ));
        assert(occurs_at(s, pat, x.len() + k) == occurs_at(y, pat, k));
        if !occurs_at(y, pat, k) {
            lemma_find_shift(x, y, pat, k + 1);
        }
    }
}

proof fn lemma_lower_join(x: Seq<char>, y: Seq<char>)
    ensures
        lower(x + y) == lower(x) + lower(y),
{
    assert(lower(x + y) =~= lower(x) + lower(y));
}

proof fn lemma_find_range(s: Seq<char>, pat: Seq<char>, from: int)
    ensures
        find(s, pat, from) is Some ==> from <= find(s, pat, from)->0 && find(s, pat, from)->0
            + pat.len() <= s.len() && 0 <= from,
    decreases s.len() - from + 1,
{
    if 0 <= from && from + pat.len() <= s.len() && !occurs_at(s, pat, from) {
        lemma_find_range(s, pat, from + 1);
    }
}

proof fn lemma_images_shift(x: Seq<char>, y: Seq<char>, k: int, base: Seq<char>)
    requires
        0 <= k <= y.len(),
    ensures
        html_images(x + y, x.len() + k, base) == html_images(y, k, base),
    decreases y.len() - k,
{
    let s = x + y;
    lemma_lower_join(x, y);
    lemma_find_shift(lower(x), lower(y), "<img"@, k);
    lemma_find_range(lower(y), "<img"@, k);
    match find(lower(y), "<img"@, k) {
        None => {},
        Some(at) => {
            lemma_find_shift(x, y, seq!['>'], at + 4);
            lemma_find_range(y, seq!['>'], at + 4);
            match find(y, seq!['>'], at + 4) {
                None => {},
                Some(end) => {
                    lemma_images_shift(x, y, end + 1, base);
                    assert(s.subrange(x.len() + at + 4, x.len() + end) =~= y.subrange(
                        at + 4,
                        end,
                    ));
                },
            }
        },
    }
}

proof fn lemma_find_first(s: Seq<char>, pat: Seq<char>, from: int, n: int)
    requires
        0 <= from <= n,
        pat.len() > 0,
        occurs_at(s, pat, n),
        forall|i: int| from <= i < n ==> #[trigger] s[i] != pat[0],
    ensures
        find(s, pat, from) == Some(n),
    decreases n - from,
{
    if from < n {
        if occurs_at(s, pat, from) {
            assert(s.subrange(from, from + pat.len())[0] == s[from]);
        }
        lemma_find_first(s, pat, from + 1, n);
    }
}

proof fn lemma_find_none(s: Seq<char>, pat: Seq<char>, from: int)
    requires
        0 <= from,
        pat.len() > 0,
        forall|i: int| from <= i < s.len() ==> #[trigger] s[i] != pat[0],
    ensures
        find(s, pat, from) is None,
    decreases s.len() - from + 1,
{
    if from + pat.len() <= s.len() {
        if occurs_at(s, pat, from) {
            assert(s.subrange(from, from + pat.len())[0] == s[from]);
        }
        lemma_find_none(s, pat, from + 1);
    }
}

/// No tag begins in a text.
pub open spec fn begins_no_tag(s: Seq<char>) -> bool {
    forall|i: int| 0 <= i < s.len() ==> #[trigger] s[i] != '<'
}

/// No tag ends in a text.
pub open spec fn ends_no_tag(s: Seq<char>) -> bool {
    forall|i: int| 0 <= i < s.len() ==> #[trigger] s[i] != '>'
}

/// Every `img` tag of a text is looked at, one after the other: what it names
/// comes first, then what the text behind it names. A text without tags names
/// nothing.
pub proof fn law_img_tags_are_found(
    before: Seq<char>,
    tag: Seq<char>,
    behind: Seq<char>,
    base: Seq<char>,
)
    requires
        begins_no_tag(before),
        ends_no_tag(tag),
    ensures
        html_images(before, 0, base).len() == 0,
        html_images(before + "<img"@ + tag + seq!['>'] + behind, 0, base) == (match tag_image(
            tag,
            base,
        ) {
            Some(image) => seq![image],
            None => Seq::empty(),
        }) + html_images(behind, 0, base),
{
    reveal_strlit("<img");
    let mark = "<img"@;
    let n = before.len() as int;
    let s = before + mark + tag + seq!['>'] + behind;
    let small = lower(s);
    assert forall|i: int| 0 <= i < before.len() implies #[trigger] lower(before)[i] != '<' by {
        assert(before[i] != '<');
    }
    lemma_find_none(lower(before), mark, 0);
    assert forall|i: int| 0 <= i < n implies #[trigger] small[i] != mark[0] by {
        assert(s[i] == before[i]);
    }
    assert(small.subrange(n, n + 4) =~= mark) by {
        assert(s[n] == '<' && s[n + 1] == 'i' && s[n + 2] == 'm' && s[n + 3] == 'g');
    }
    assert(occurs_at(small, mark, n));
    lemma_find_first(small, mark, 0, n);
    let end = n + 4 + tag.len();
    let close = seq!['>'];
    assert(s[end] == '>');
    assert(s.subrange(end, end + 1) =~= close);
    assert forall|i: int| n + 4 <= i < end implies #[trigger] s[i] != close[0] by {
        assert(s[i] == tag[i - n - 4]);
    }
    assert(occurs_at(s, close, end));
    lemma_find_first(s, close, n + 4, end);
    assert(s.subrange(n + 4, end) =~= tag);
    let first = before + mark + tag + close;
    assert(first + behind =~= s);
    assert(first.len() == end + 1);
    lemma_images_shift(first, behind, 0, base);
    let rest = html_images(behind, 0, base);
    assert(Seq::<ImageView>::empty() + rest =~= rest);
}

/// The picture of an `img` tag is at its source, seen from the page, with its
/// sides and its text; a tag without a source that can be resolved names none.
pub proof fn law_img_tag_names_its_source(tag: Seq<char>, base: Seq<char>, src: Seq<char>)
    ensures
        tag_attribute(tag, "src"@) == Some(src) && resolved(base, src) is Some ==> tag_image(
            tag,
            base,
        ) is Some && tag_image(tag, base)->0.url == resolved(base, src)->0 && tag_image(
            tag,
            base,
        )->0.source == ImageSource::InlineHtml && tag_image(tag, base)->0.alt_text
            == tag_attribute(tag, "alt"@) && tag_image(tag, base)->0.width == crate::images::side(
            tag_attribute(tag, "width"@),
        ) && tag_image(tag, base)->0.height == crate::images::side(tag_attribute(tag, "height"@)),
        tag_attribute(tag, "src"@) == Some(src) && resolved(base, src) is None ==> tag_image(
            tag,
            base,
        ) is None,
        tag_attribute(tag, "src"@) is None ==> tag_image(tag, base) is None,
{
}

/// The value of an attribute in a tag is what stands between the quotes behind
/// its name, of one kind or the other.
pub proof fn law_quoted_values_are_read(
    tag: Seq<char>,
    key: Seq<char>,
    n: int,
    quote: char,
    value: Seq<char>,
    rest: Seq<char>,
)
    requires
        find(lower(tag), key + "="@, 0) == Some(n),
        0 <= n,
        n + key.len() + 1 <= tag.len(),
        quote == '"' || quote == '\'',
        tag.skip(n + key.len() + 1) == seq![quote] + value + seq![quote] + rest,
        forall|i: int| 0 <= i < value.len() ==> #[trigger] value[i] != quote,
    ensures
        tag_attribute(tag, key) == Some(value),
{
    let tail = seq![quote] + value + seq![quote] + rest;
    assert(tail[0] == quote);
    assert(!is_space(quote));
    assert(trim_start(tail) == tail);
    assert(tail.skip(1) =~= value + (seq![quote] + rest));
    lemma_before(value, quote, rest);
}

proof fn lemma_before(value: Seq<char>, quote: char, rest: Seq<char>)
    requires
        forall|i: int| 0 <= i < value.len() ==> #[trigger] value[i] != quote,
    ensures
        before_char(value + (seq![quote] + rest), quote) == value,
    decreases value.len(),
{
    let s = value + (seq![quote] + rest);
    if value.len() > 0 {
        assert(s[0] == value[0]);
        assert(value[0] != quote);
        let less = value.skip(1);
        assert forall|i: int| 0 <= i < less.len() implies #[trigger] less[i] != quote by {
            assert(less[i] == value[i + 1]);
        }
        lemma_before(less, quote, rest);
        assert(s.skip(1) =~= less + (seq![quote] + rest));
        assert(seq![value[0]] + less =~= value);
    } else {
        assert(s[0] == quote);
        assert(value =~= Seq::<char>::empty());
    }
}

/// The type that an answer gives, without its parameters and in small letters.
pub open spec fn type_given(content_type: Option<Seq<char>>) -> Seq<char> {
    if content_type is Some {
        lower(trim(before_char(content_type->0, ';')))
    } else {
        lower(trim(before_char(""@, ';')))
    }
}

/// A byte order mark.
pub open spec fn is_mark(c: char) -> bool {
    c == '\u{feff}'
}

/// Byte order marks at the start of a text are taken away, and nothing else.
pub proof fn law_marks_are_taken_away(s: Seq<char>)
    ensures
        unmarked(s).len() > 0 ==> !is_mark(unmarked(s)[0]),
        exists|n: int|
            0 <= n <= s.len() && unmarked(s) == #[trigger] s.skip(n) && forall|i: int|
                0 <= i < n ==> is_mark(#[trigger] s[i]),
    decreases s.len(),
{
    if s.len() > 0 && is_mark(s[0]) {
        law_marks_are_taken_away(s.skip(1));
        let rest = s.skip(1);
        let n = choose|n: int|
            0 <= n <= rest.len() && unmarked(rest) == #[trigger] rest.skip(n) && forall|i: int|
                0 <= i < n ==> is_mark(#[trigger] rest[i]);
        assert(rest.skip(n) =~= s.skip(n + 1));
        assert forall|i: int| 0 <= i < n + 1 implies is_mark(#[trigger] s[i]) by {
            if i > 0 {
                assert(rest[i - 1] == s[i]);
            }
        }
    } else {
        assert(s.skip(0) =~= s);
    }
}

/// An answer is taken for a feed if it begins like JSON, has the root of a feed
/// near its start, or is given as a feed, as JSON or as XML; and for a page if it
/// is given as HTML or begins like it. Any other is refused for what it holds.
pub proof fn law_answers_are_taken_for_what_they_hold(
    content_type: Option<Seq<char>>,
    body: Seq<char>,
)
    ensures
        ({
            let kind = type_given(content_type);
            let bare = trim_start(unmarked(body));
            let start = lower(
                if bare.len() > 512 {
                    bare.take(512)
                } else {
                    bare
                },
            );
            &&& content_error(FetchKind::Feed, content_type, body) is None <==> (starts_with(
                start,
                "{"@,
            ) || contains(start, "<rss"@) || contains(start, "<feed"@) || contains(
                start,
                "<rdf:rdf"@,
            ) || kind == "application/rss+xml"@ || kind == "application/atom+xml"@ || kind
                == "application/feed+json"@ || kind == "application/json"@ || kind
                == "application/xml"@ || kind == "text/xml"@)
            &&& content_error(FetchKind::DiscoveryPage, content_type, body) is None <==> (kind
                == "text/html"@ || kind == "application/xhtml+xml"@ || starts_with(
                bare,
                "<!doctype html"@,
            ) || starts_with(bare, "<html"@))
            &&& content_error(FetchKind::Feed, content_type, body) is Some ==> content_error(
                FetchKind::Feed,
                content_type,
                body,
            )->0.kind == NetworkErrorKind::UnsupportedContent
        }),
{
}

/// A document is read as JSON if its first character that is neither a byte
/// order mark nor white space is an opening brace, and as XML otherwise. One that
/// is empty or longer than four mebibytes is not read.
pub proof fn law_first_character_tells(input: Seq<char>, source: Seq<char>, n: int)
    requires
        0 <= n < input.len(),
        forall|i: int| 0 <= i < n ==> is_space(#[trigger] input[i]),
        !is_space(input[n]),
        !is_mark(input[n]),
        byte_len(input) <= 4_194_304,
    ensures
        looks_like_json(input) <==> input[n] == '{',
        input[n] != '{' && parsed_xml(input) is Some ==> parsed_feed(input, source) == xml_feed(
            parsed_xml(input)->0,
            source,
        ),
        input[n] != '{' && parsed_xml(input) is None ==> parsed_feed(input, source) == Err::<
            FeedView,
            CoreErrorView,
        >(CoreErrorView::MalformedXml),
{
    assert(unmarked(input) == input) by {
        if n > 0 {
            assert(is_space(input[0]));
        }
    }
    lemma_trim_start_at(input, n);
}

proof fn lemma_trim_start_at(s: Seq<char>, n: int)
    requires
        0 <= n < s.len(),
        forall|i: int| 0 <= i < n ==> is_space(#[trigger] s[i]),
        !is_space(s[n]),
    ensures
        trim_start(s) == s.skip(n),
    decreases n,
{
    if n > 0 {
        assert(is_space(s[0]));
        let rest = s.skip(1);
        assert forall|i: int| 0 <= i < n - 1 implies is_space(#[trigger] rest[i]) by {
            assert(rest[i] == s[i + 1]);
        }
        lemma_trim_start_at(rest, n - 1);
        assert(rest.skip(n - 1) =~= s.skip(n));
    } else {
        assert(s.skip(0) =~= s);
    }
}

/// Documents that are empty or too long are refused, each with its reason.
pub proof fn law_oversized_documents_are_refused(input: Seq<char>, source: Seq<char>)
    ensures
        input.len() == 0 ==> parsed_feed(input, source) == Err::<FeedView, CoreErrorView>(
            CoreErrorView::UnusableFeed,
        ),
        input.len() > 0 && byte_len(input) > 4_194_304 ==> parsed_feed(input, source) == Err::<
            FeedView,
            CoreErrorView,
        >(CoreErrorView::InputLimitExceeded("document bytes"@)),
{
}

} // verus!
