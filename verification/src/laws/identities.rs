//! What tells addresses, feeds, articles and times from each other.

use crate::dates::{
    day_time, either, first_format, formatted_time, rfc2822_time, rfc3339_time, time_in,
};
use crate::identity::{
    article_identity, bare_path, composed, feed_identity, hex, hex_digit, normal_url, sha256,
    small_letters,
};
use crate::laws::texts::law_bare_text_stays;
use crate::text::{collapse, decimal_int, lower, trim};
use crate::order::bytes_before;
use crate::web::{host_name, joined_url, parsed_url, resolved, site_page, AddressView};
use vstd::prelude::*;
use vstd::utf8::encode_utf8;

verus! {

/// Nothing but slashes.
pub open spec fn is_slashes(s: Seq<char>) -> bool {
    forall|i: int| 0 <= i < s.len() ==> #[trigger] s[i] == '/'
}

proof fn lemma_bare_path(path: Seq<char>) -> (cut: Seq<char>)
    ensures
        is_slashes(cut),
        path == bare_path(path) + cut,
        path.len() > 0 ==> bare_path(path).len() > 0,
        bare_path(path).len() > 1 ==> bare_path(path).last() != '/',
    decreases path.len(),
{
    if path.len() > 1 && path.last() == '/' {
        let rest = lemma_bare_path(path.drop_last());
        let cut = rest.push('/');
        assert(path =~= path.drop_last().push('/'));
        assert(bare_path(path) + cut =~= (bare_path(path) + rest).push('/'));
        cut
    } else {
        assert(path =~= path + Seq::<char>::empty());
        Seq::empty()
    }
}

/// An address in normal form is its scheme and host, its path without the
/// slashes at its end, and its query where it has one. What is no address is
/// left as it is but for the white space round it.
pub proof fn law_normal_form_drops_slashes_and_fragment(text: Seq<char>)
    ensures
        parsed_url(text) is None ==> normal_url(text) == trim(text),
        parsed_url(text) is Some ==> exists|path: Seq<char>, cut: Seq<char>|
            {
                let a = parsed_url(text)->0;
                &&& #[trigger] is_slashes(cut)
                &&& a.path == #[trigger] (path + cut)
                &&& a.path.len() > 0 ==> path.len() > 0
                &&& path.len() > 1 ==> path.last() != '/'
                &&& a.query is None ==> normal_url(text) == a.head + path
                &&& a.query is Some ==> normal_url(text) == a.head + path + (seq!['?']
                    + a.query->0)
            },
{
    if parsed_url(text) is Some {
        let a = parsed_url(text)->0;
        let cut = lemma_bare_path(a.path);
        let path = bare_path(a.path);
        assert(a.path == path + cut);
        assert(a.head + path + Seq::<char>::empty() =~= a.head + path);
    }
}

/// Two addresses that agree in scheme, host, path and query are one feed and
/// have one normal form, whatever their fragments are.
pub proof fn law_fragment_does_not_tell(a: Seq<char>, b: Seq<char>)
    requires
        parsed_url(a) is Some,
        parsed_url(b) is Some,
        parsed_url(a)->0.head == parsed_url(b)->0.head,
        parsed_url(a)->0.path == parsed_url(b)->0.path,
        parsed_url(a)->0.query == parsed_url(b)->0.query,
    ensures
        normal_url(a) == normal_url(b),
        feed_identity(a) == feed_identity(b),
{
}

/// What a publisher gives as an identifier counts without the white space round
/// it, unless it is blank or the word `null`; only then do the address and, where
/// there is none, the title and the time count.
pub proof fn law_identifier_counts_first(
    feed: Seq<char>,
    guid: Seq<char>,
    url: Option<Seq<char>>,
    other: Option<Seq<char>>,
    title: Option<Seq<char>>,
    time: Option<i64>,
)
    ensures
        trim(guid).len() > 0 && lower(trim(guid)) != "null"@ ==> article_identity(
            feed,
            Some(guid),
            url,
            title,
            time,
        ) == article_identity(feed, Some(trim(guid)), other, None, None),
        trim(guid).len() == 0 || lower(trim(guid)) == "null"@ ==> article_identity(
            feed,
            Some(guid),
            url,
            title,
            time,
        ) == article_identity(feed, None, url, title, time),
        url is Some && trim(url->0).len() > 0 ==> article_identity(feed, None, url, title, time)
            == article_identity(feed, None, Some(trim(url->0)), None, None),
        url is Some && trim(url->0).len() == 0 ==> article_identity(feed, None, url, title, time)
            == article_identity(feed, None, None, title, time),
{
    law_bare_text_stays(guid);
    if url is Some {
        law_bare_text_stays(url->0);
    }
}

/// An identity is a digest in hexadecimal digits: of a feed's address in normal
/// form, and of an article's feed with its identifier, else its address in
/// normal form, else its title in one line and small letters with its time.
pub proof fn law_identities_are_digests(
    feed: Seq<char>,
    guid: Seq<char>,
    url: Seq<char>,
    title: Seq<char>,
    time: i64,
)
    ensures
        feed_identity(url) == "feed:v1:"@ + hex(sha256(encode_utf8(normal_url(url)))),
        trim(guid).len() > 0 && lower(trim(guid)) != "null"@ ==> article_identity(
            feed,
            Some(guid),
            Some(url),
            Some(title),
            Some(time),
        ) == "article:v1:"@ + hex(
            sha256(encode_utf8(feed + "|"@ + ("guid:"@ + composed(trim(guid))))),
        ),
        trim(url).len() > 0 ==> article_identity(feed, None, Some(url), Some(title), Some(time))
            == "article:v1:"@ + hex(
            sha256(encode_utf8(feed + "|"@ + ("url:"@ + normal_url(trim(url))))),
        ),
        article_identity(feed, None, None, Some(title), Some(time)) == "article:v1:"@ + hex(
            sha256(
                encode_utf8(
                    feed + "|"@ + ("fallback:"@ + small_letters(composed(collapse(title))) + "|"@
                        + decimal_int(time as int)),
                ),
            ),
        ),
        article_identity(feed, None, None, Some(title), None) == "article:v1:"@ + hex(
            sha256(
                encode_utf8(
                    feed + "|"@ + ("fallback:"@ + small_letters(composed(collapse(title))) + "|"@
                        + "undated"@),
                ),
            ),
        ),
{
}

/// Two digits for each byte, the high half first.
pub proof fn law_hex_writes_each_byte(data: Seq<u8>, i: int)
    requires
        0 <= i < data.len(),
    ensures
        hex(data).len() == 2 * data.len(),
        hex(data)[2 * i] == hex_digit((data[i] / 16) as int),
        hex(data)[2 * i + 1] == hex_digit((data[i] % 16) as int),
    decreases data.len(),
{
    let shorter = data.drop_last();
    if i < shorter.len() {
        law_hex_writes_each_byte(shorter, i);
        assert(hex(data)[2 * i] == hex(shorter)[2 * i]);
        assert(hex(data)[2 * i + 1] == hex(shorter)[2 * i + 1]);
    } else {
        crate::identity::lemma_hex_len(shorter);
    }
}

/// A time is read in the first form that it is written in: that of RFC 3339,
/// that of RFC 2822, one of the looser forms, or a mere day. The white space
/// round it does not count, and what is in none of these forms is no time.
pub proof fn law_times_are_read_in_the_first_form(text: Seq<char>, time: i64)
    ensures
        ({
            let bare = trim(text);
            let strict = rfc3339_time(bare) is Some || rfc2822_time(bare) is Some;
            let a = formatted_time(bare, "%a, %d %b %Y %H:%M:%S %z"@);
            let b = formatted_time(bare, "%a, %e %b %Y %H:%M:%S %z"@);
            let c = formatted_time(bare, "%a, %d %b %Y %H:%M %z"@);
            let d = formatted_time(bare, "%d %b %Y %H:%M:%S %z"@);
            let e = formatted_time(bare, "%Y-%m-%d %H:%M:%S %z"@);
            let day = day_time(bare, "%Y-%m-%d"@);
            &&& time_in(text) == time_in(bare)
            &&& rfc3339_time(bare) == Some(time) ==> time_in(text) == Some(time)
            &&& rfc3339_time(bare) is None && rfc2822_time(bare) == Some(time) ==> time_in(text)
                == Some(time)
            &&& !strict && a == Some(time) ==> time_in(text) == Some(time)
            &&& !strict && a is None && b == Some(time) ==> time_in(text) == Some(time)
            &&& !strict && a is None && b is None && c == Some(time) ==> time_in(text) == Some(
                time,
            )
            &&& !strict && a is None && b is None && c is None && d == Some(time) ==> time_in(text)
                == Some(time)
            &&& !strict && a is None && b is None && c is None && d is None && e == Some(time)
                ==> time_in(text) == Some(time)
            &&& !strict && a is None && b is None && c is None && d is None && e is None
                ==> time_in(text) == day
        }),
{
    law_bare_text_stays(text);
    let bare = trim(text);
    let all = crate::dates::loose_formats();
    assert(all.len() == 5);
    assert(all.skip(1)[0] == all[1]);
    assert(all.skip(1).skip(1) =~= all.skip(2));
    assert(all.skip(2)[0] == all[2]);
    assert(all.skip(2).skip(1) =~= all.skip(3));
    assert(all.skip(3)[0] == all[3]);
    assert(all.skip(3).skip(1) =~= all.skip(4));
    assert(all.skip(4)[0] == all[4]);
    assert(all.skip(4).skip(1).len() == 0);
    assert(first_format(bare, all.skip(4).skip(1)) is None);
    assert(first_format(bare, all.skip(4)) == formatted_time(bare, all[4]));
    assert(first_format(bare, all.skip(3)) == either(
        formatted_time(bare, all[3]),
        first_format(bare, all.skip(4)),
    ));
    assert(first_format(bare, all.skip(2)) == either(
        formatted_time(bare, all[2]),
        first_format(bare, all.skip(3)),
    ));
    assert(first_format(bare, all.skip(1)) == either(
        formatted_time(bare, all[1]),
        first_format(bare, all.skip(2)),
    ));
    assert(first_format(bare, all) == either(
        formatted_time(bare, all[0]),
        first_format(bare, all.skip(1)),
    ));
}

/// A reference is seen from a base without the white space round it, and leads
/// to what it joins to there if that is HTTP or HTTPS, and nowhere otherwise. A
/// page of a site lies at its scheme and host.
pub proof fn law_references_lead_to_the_web(
    base: Seq<char>,
    value: Seq<char>,
    path: Seq<char>,
    address: AddressView,
)
    ensures
        ({
            let web = address.scheme == "http"@ || address.scheme == "https"@;
            let joined = joined_url(base, trim(value));
            &&& joined == Some(address) && web ==> resolved(base, value) == Some(address.href)
            &&& joined == Some(address) && !web ==> resolved(base, value) is None
            &&& joined is None ==> resolved(base, value) is None
            &&& resolved(base, trim(value)) == resolved(base, value)
            &&& parsed_url(base) == Some(address) && web ==> site_page(base, path) == Some(
                address.head + path,
            )
            &&& parsed_url(base) == Some(address) && !web ==> site_page(base, path) is None
            &&& parsed_url(base) == Some(address) ==> host_name(base) == address.host
            &&& parsed_url(base) is None ==> site_page(base, path) is None && host_name(
                base,
            ) is None
        }),
{
    law_bare_text_stays(value);
}

/// Texts are ordered by the first byte in which they differ; of two of which one
/// begins with the other, the shorter comes first.
pub proof fn law_first_difference_decides(a: Seq<u8>, b: Seq<u8>, n: int)
    requires
        0 <= n <= a.len(),
        n <= b.len(),
        forall|i: int| 0 <= i < n ==> #[trigger] a[i] == b[i],
    ensures
        n < a.len() && n < b.len() && a[n] < b[n] ==> bytes_before(a, b),
        n < a.len() && n < b.len() && a[n] > b[n] ==> !bytes_before(a, b),
        n == a.len() && n < b.len() ==> bytes_before(a, b),
        n == b.len() ==> !bytes_before(a, b),
    decreases n,
{
    if n > 0 {
        assert(a[0] == b[0]);
        let x = a.skip(1);
        let y = b.skip(1);
        assert forall|i: int| 0 <= i < n - 1 implies #[trigger] x[i] == y[i] by {
            assert(x[i] == a[i + 1] && y[i] == b[i + 1]);
        }
        law_first_difference_decides(x, y, n - 1);
    }
}

} // verus!
