//! Stable identities: addresses in a normal form, and digests of them.

use crate::text::{
    chars_of, collapse, collapsed, decimal_int, lower, lowered, same, signed_text, string_of, trim,
    trimmed,
};
use crate::web::{marked, parse_address, parsed_url};
use sha2::Digest;
use unicode_normalization::UnicodeNormalization;
use vstd::prelude::*;
use vstd::utf8::encode_utf8;

verus! {

/// What SHA-256 makes of some bytes.
pub uninterp spec fn sha256(data: Seq<u8>) -> Seq<u8>;

/// What `unicode_normalization`'s `nfc` makes of a text.
pub uninterp spec fn composed(text: Seq<char>) -> Seq<char>;

/// What `str::to_lowercase` makes of a text.
pub uninterp spec fn small_letters(text: Seq<char>) -> Seq<char>;

/// `sha2::Sha256::digest`: the 32 bytes of the SHA-256 digest, which depend on
/// the data alone.
#[verifier::external_body]
pub(crate) fn sha256_digest(data: &[u8]) -> (r: Vec<u8>)
    ensures
        r@ == sha256(data@),
        r@.len() == 32,
{
    sha2::Sha256::digest(data).to_vec()
}

/// `unicode_normalization::UnicodeNormalization::nfc`: the text in normal form
/// C, which depends on the text alone.
#[verifier::external_body]
fn compose(text: &str) -> (r: String)
    ensures
        r@ == composed(text@),
{
    text.nfc().collect()
}

/// `str::to_lowercase`: the text in small letters, by Unicode's rules, which
/// depends on the text alone.
#[verifier::external_body]
pub(crate) fn to_small_letters(text: &str) -> (r: String)
    ensures
        r@ == small_letters(text@),
{
    text.to_lowercase()
}

/// The hexadecimal digit with value `d`.
pub open spec fn hex_digit(d: int) -> char {
    if d < 10 {
        (d + 48) as char
    } else {
        (d + 87) as char
    }
}

/// `data` in hexadecimal, two small digits to a byte.
pub open spec fn hex(data: Seq<u8>) -> Seq<char>
    decreases data.len(),
{
    if data.len() == 0 {
        Seq::empty()
    } else {
        hex(data.drop_last()).push(hex_digit((data.last() / 16) as int)).push(
            hex_digit((data.last() % 16) as int),
        )
    }
}

fn hex_char(d: u8) -> (r: char)
    requires
        d < 16,
    ensures
        r == hex_digit(d as int),
{
    if d < 10 {
        (d + 48) as char
    } else {
        (d + 87) as char
    }
}

/// `data` in hexadecimal.
pub fn hex_text(data: &Vec<u8>) -> (r: String)
    ensures
        r@ == hex(data@),
{
    let mut out = String::new();
    let mut i: usize = 0;
    while i < data.len()
        invariant
            i <= data@.len(),
            out@ == hex(data@.take(i as int)),
        decreases data@.len() - i,
    {
        let ghost next = data@.take(i + 1);
        assert(next.drop_last() == data@.take(i as int));
        out.push(hex_char(data[i] / 16));
        out.push(hex_char(data[i] % 16));
        i += 1;
    }
    assert(data@.take(i as int) == data@);
    out
}

/// Hexadecimal takes two digits to a byte.
pub proof fn lemma_hex_len(data: Seq<u8>)
    ensures
        hex(data).len() == 2 * data.len(),
    decreases data.len(),
{
    if data.len() > 0 {
        lemma_hex_len(data.drop_last());
    }
}

/// A path without slashes at its end, but for the slash that is all of it.
pub open spec fn bare_path(path: Seq<char>) -> Seq<char>
    decreases path.len(),
{
    if path.len() > 1 && path.last() == '/' {
        bare_path(path.drop_last())
    } else {
        path
    }
}

/// A URL in normal form: what the URL parser makes of it, without slashes at
/// the end of the path and without a fragment. What is no URL stays as it is
/// but for white space round it.
pub open spec fn normal_url(text: Seq<char>) -> Seq<char> {
    match parsed_url(text) {
        Some(a) => a.head + bare_path(a.path) + marked('?', a.query),
        None => trim(text),
    }
}

/// `value` in normal form, by which addresses are compared.
pub fn normalize_url(value: &str) -> (r: String)
    ensures
        r@ == normal_url(value@),
{
    let address = match parse_address(value) {
        Some(a) => a,
        None => {
            return trimmed(value);
        },
    };
    let path = chars_of(address.path.as_str());
    let mut end: usize = path.len();
    assert(path@.take(end as int) == path@);
    while end > 1 && path[end - 1] == '/'
        invariant
            end <= path@.len(),
            bare_path(path@) == bare_path(path@.take(end as int)),
        decreases end,
    {
        assert(path@.take(end as int).drop_last() == path@.take(end - 1));
        end -= 1;
    }
    assert(path@.take(end as int) == path@.subrange(0, end as int));
    let mut out = address.head;
    let bare = string_of(&path, 0, end);
    out.append(bare.as_str());
    match address.query {
        Some(query) => {
            out.push('?');
            out.append(query.as_str());
            assert(out@ == address.head@ + bare@ + marked('?', Some(query@)));
        },
        None => {
            assert(out@ == out@ + marked('?', None));
        },
    }
    out
}

/// The digest of a text, in hexadecimal.
pub open spec fn digest_of(text: Seq<char>) -> Seq<char> {
    hex(sha256(encode_utf8(text)))
}

fn digest_text(text: &str) -> (r: String)
    ensures
        r@ == digest_of(text@),
        r@.len() == 64,
{
    let digest = sha256_digest(text.as_bytes());
    proof {
        lemma_hex_len(digest@);
    }
    hex_text(&digest)
}

/// The identity of the feed at a URL.
pub open spec fn feed_identity(url: Seq<char>) -> Seq<char> {
    "feed:v1:"@ + digest_of(normal_url(url))
}

/// The identity of the feed at `url`: the digest of the URL in normal form.
pub fn feed_id(url: &str) -> (r: String)
    ensures
        r@ == feed_identity(url@),
        r@.len() == 72,
{
    let normal = normalize_url(url);
    let digest = digest_text(normal.as_str());
    proof {
        reveal_strlit("feed:v1:");
    }
    let mut out = "feed:v1:".to_owned();
    out.append(digest.as_str());
    out
}

/// The publisher's own identifier in the form in which it counts, where it
/// names anything.
pub open spec fn given_id(guid: Option<Seq<char>>) -> Option<Seq<char>> {
    match guid {
        Some(text) => if trim(text).len() == 0 || lower(trim(text)) == "null"@ {
            None
        } else {
            Some(composed(trim(text)))
        },
        None => None,
    }
}

/// What tells an article from the others of its feed: the publisher's own
/// identifier, else its URL, else its title and date.
pub open spec fn article_key(
    guid: Option<Seq<char>>,
    url: Option<Seq<char>>,
    title: Option<Seq<char>>,
    published_at: Option<i64>,
) -> Seq<char> {
    match given_id(guid) {
        Some(id) => "guid:"@ + id,
        None => match url {
            Some(address) if trim(address).len() > 0 => "url:"@ + normal_url(trim(address)),
            _ => "fallback:"@ + small_letters(
                composed(
                    collapse(
                        match title {
                            Some(text) => text,
                            None => Seq::empty(),
                        },
                    ),
                ),
            ) + "|"@ + match published_at {
                Some(seconds) => decimal_int(seconds as int),
                None => "undated"@,
            },
        },
    }
}

/// The identity of an article of the feed with identity `feed`.
pub open spec fn article_identity(
    feed: Seq<char>,
    guid: Option<Seq<char>>,
    url: Option<Seq<char>>,
    title: Option<Seq<char>>,
    published_at: Option<i64>,
) -> Seq<char> {
    "article:v1:"@ + digest_of(feed + "|"@ + article_key(guid, url, title, published_at))
}

/// The view of an optional borrowed text.
pub open spec fn borrowed(value: Option<&str>) -> Option<Seq<char>> {
    match value {
        Some(text) => Some(text@),
        None => None,
    }
}

fn given(guid: Option<&str>) -> (r: Option<String>)
    ensures
        crate::text::view_of(r) == given_id(borrowed(guid)),
{
    match guid {
        Some(text) => {
            let bare = trimmed(text);
            if bare.as_str().is_empty() || same(lowered(bare.as_str()).as_str(), "null") {
                None
            } else {
                Some(compose(bare.as_str()))
            }
        },
        None => None,
    }
}

fn key(
    guid: Option<&str>,
    url: Option<&str>,
    title: Option<&str>,
    published_at: Option<i64>,
) -> (r: String)
    ensures
        r@ == article_key(borrowed(guid), borrowed(url), borrowed(title), published_at),
{
    if let Some(id) = given(guid) {
        let mut out = "guid:".to_owned();
        out.append(id.as_str());
        return out;
    }
    if let Some(address) = url {
        let bare = trimmed(address);
        if !bare.as_str().is_empty() {
            let normal = normalize_url(bare.as_str());
            let mut out = "url:".to_owned();
            out.append(normal.as_str());
            return out;
        }
    }
    let words = match title {
        Some(text) => collapsed(text),
        None => {
            let empty = String::new();
            collapsed(empty.as_str())
        },
    };
    let composed_title = compose(words.as_str());
    let small = to_small_letters(composed_title.as_str());
    let date = match published_at {
        Some(seconds) => signed_text(seconds),
        None => "undated".to_owned(),
    };
    let mut out = "fallback:".to_owned();
    out.append(small.as_str());
    out.append("|");
    out.append(date.as_str());
    out
}

/// The identity of an article: the publisher's own identifier decides, else
/// the URL, else title and date.
pub fn article_id(
    feed: &str,
    guid: Option<&str>,
    url: Option<&str>,
    title: Option<&str>,
    published_at: Option<i64>,
) -> (r: String)
    ensures
        r@ == article_identity(
            feed@,
            borrowed(guid),
            borrowed(url),
            borrowed(title),
            published_at,
        ),
        r@.len() == 75,
{
    let mut source = feed.to_owned();
    source.append("|");
    let own = key(guid, url, title, published_at);
    source.append(own.as_str());
    let digest = digest_text(source.as_str());
    proof {
        reveal_strlit("article:v1:");
    }
    let mut out = "article:v1:".to_owned();
    out.append(digest.as_str());
    out
}

/// Two URLs with one normal form are one feed.
pub proof fn law_feed_identity_follows_normal_form(a: Seq<char>, b: Seq<char>)
    requires
        normal_url(a) == normal_url(b),
    ensures
        feed_identity(a) == feed_identity(b),
{
}

/// A publisher's own identifier decides alone: URL, title and date do not
/// change the identity of an article that has one.
pub proof fn law_own_identifier_decides(
    feed: Seq<char>,
    guid: Option<Seq<char>>,
    url: Option<Seq<char>>,
    title: Option<Seq<char>>,
    published_at: Option<i64>,
    other_url: Option<Seq<char>>,
    other_title: Option<Seq<char>>,
    other_published_at: Option<i64>,
)
    requires
        given_id(guid) is Some,
    ensures
        article_identity(feed, guid, url, title, published_at) == article_identity(
            feed,
            guid,
            other_url,
            other_title,
            other_published_at,
        ),
{
}

/// Where the publisher gives no identifier but a URL, title and date do not
/// change the identity.
pub proof fn law_url_decides_next(
    feed: Seq<char>,
    guid: Option<Seq<char>>,
    url: Seq<char>,
    title: Option<Seq<char>>,
    published_at: Option<i64>,
    other_title: Option<Seq<char>>,
    other_published_at: Option<i64>,
)
    requires
        given_id(guid) is None,
        trim(url).len() > 0,
    ensures
        article_identity(feed, guid, Some(url), title, published_at) == article_identity(
            feed,
            guid,
            Some(url),
            other_title,
            other_published_at,
        ),
{
}

} // verus!
