//! Web addresses: the parts of a URL that the library reads, and the
//! restriction to HTTP and HTTPS.

use crate::text::{same, trim, trimmed};
use crate::identity::bare_path;
use vstd::prelude::*;

verus! {

/// A parsed URL, cut into the parts of its text.
#[derive(Debug, Clone, PartialEq, Eq)]
pub struct Address {
    /// The whole text.
    pub href: String,
    pub scheme: String,
    pub host: Option<String>,
    /// Everything before the path.
    pub head: String,
    pub path: String,
    pub query: Option<String>,
    pub fragment: Option<String>,
}

/// What an [`Address`] holds.
pub struct AddressView {
    pub href: Seq<char>,
    pub scheme: Seq<char>,
    pub host: Option<Seq<char>>,
    pub head: Seq<char>,
    pub path: Seq<char>,
    pub query: Option<Seq<char>>,
    pub fragment: Option<Seq<char>>,
}

impl View for Address {
    type V = AddressView;

    open spec fn view(&self) -> AddressView {
        AddressView {
            href: self.href@,
            scheme: self.scheme@,
            host: crate::text::view_of(self.host),
            head: self.head@,
            path: self.path@,
            query: crate::text::view_of(self.query),
            fragment: crate::text::view_of(self.fragment),
        }
    }
}

/// `mark` and `part` where there is a part, else nothing.
pub open spec fn marked(mark: char, part: Option<Seq<char>>) -> Seq<char> {
    match part {
        Some(text) => seq![mark] + text,
        None => Seq::empty(),
    }
}

impl AddressView {
    /// The parts in order make up the whole text.
    pub open spec fn is_cut(self) -> bool {
        self.href == self.head + self.path + marked('?', self.query) + marked('#', self.fragment)
    }

    /// The scheme is HTTP or HTTPS.
    pub open spec fn is_web(self) -> bool {
        self.scheme == "http"@ || self.scheme == "https"@
    }
}

/// What `url::Url::parse` makes of a text.
pub uninterp spec fn parsed_url(text: Seq<char>) -> Option<AddressView>;

/// What `url::Url::join` makes of a reference, seen from a base.
pub uninterp spec fn joined_url(base: Seq<char>, reference: Seq<char>) -> Option<AddressView>;

/// A text that is already the web address that is read in it, without slashes at
/// the end of its path and without a fragment, is written as it stands.
pub open spec fn keeps_normal_form(text: Seq<char>, address: AddressView) -> bool {
    address.is_web() && text == address.head + bare_path(address.path) + marked(
        '?',
        address.query,
    ) ==> address.href == text
}

/// `url::Url::parse` on `text`. The result is a function of the text alone, and
/// the parts that the URL hands out, put together again, are its whole text. A
/// web address in normal form comes out as it went in.
#[verifier::external_body]
pub(crate) fn parse_address(text: &str) -> (r: Option<Address>)
    ensures
        match r {
            Some(address) => parsed_url(text@) == Some(address@) && address@.is_cut()
                && keeps_normal_form(text@, address@),
            None => parsed_url(text@) is None,
        },
{
    url::Url::parse(text).ok().map(|url| Address {
        href: url.as_str().to_owned(),
        scheme: url.scheme().to_owned(),
        host: url.host_str().map(str::to_owned),
        head: url[..url::Position::BeforePath].to_owned(),
        path: url.path().to_owned(),
        query: url.query().map(str::to_owned),
        fragment: url.fragment().map(str::to_owned),
    })
}

/// `url::Url::join` of `reference` onto the URL that `url::Url::parse` makes of
/// `base`; nothing where either fails. The result is a function of the two
/// texts alone, and its parts, put together again, are its whole text.
#[verifier::external_body]
pub(crate) fn join_address(base: &str, reference: &str) -> (r: Option<Address>)
    ensures
        match r {
            Some(address) => joined_url(base@, reference@) == Some(address@) && address@.is_cut()
                && parsed_url(base@) is Some,
            None => joined_url(base@, reference@) is None,
        },
{
    url::Url::parse(base).ok()?.join(reference).ok().map(|url| Address {
        href: url.as_str().to_owned(),
        scheme: url.scheme().to_owned(),
        host: url.host_str().map(str::to_owned),
        head: url[..url::Position::BeforePath].to_owned(),
        path: url.path().to_owned(),
        query: url.query().map(str::to_owned),
        fragment: url.fragment().map(str::to_owned),
    })
}

impl Address {
    /// Whether the scheme is HTTP or HTTPS.
    pub fn web(&self) -> (r: bool)
        ensures
            r == self@.is_web(),
    {
        same(self.scheme.as_str(), "http") || same(self.scheme.as_str(), "https")
    }
}

/// The text of an address with an HTTP or HTTPS scheme.
pub open spec fn web_text(address: Option<AddressView>) -> Option<Seq<char>> {
    match address {
        Some(a) => if a.is_web() {
            Some(a.href)
        } else {
            None
        },
        None => None,
    }
}

/// The text of `address`, where its scheme is HTTP or HTTPS.
pub fn web_href(address: Option<Address>) -> (r: Option<String>)
    ensures
        crate::text::view_of(r) == web_text(
            match address {
                Some(a) => Some(a@),
                None => None,
            },
        ),
{
    match address {
        Some(a) => if a.web() {
            Some(a.href)
        } else {
            None
        },
        None => None,
    }
}

/// `value` resolved against `base`: an HTTP or HTTPS address, or nothing.
pub open spec fn resolved(base: Seq<char>, value: Seq<char>) -> Option<Seq<char>> {
    web_text(joined_url(base, trim(value)))
}

/// Resolves `value` against `base`. Only HTTP and HTTPS addresses come out.
pub fn resolve(base: &str, value: &str) -> (r: Option<String>)
    ensures
        crate::text::view_of(r) == resolved(base@, value@),
{
    let reference = trimmed(value);
    web_href(join_address(base, reference.as_str()))
}

/// The host in `text`, where it is a URL that has one.
pub open spec fn host_name(text: Seq<char>) -> Option<Seq<char>> {
    match parsed_url(text) {
        Some(a) => a.host,
        None => None,
    }
}

/// The host of the URL `text`.
pub fn host_of(text: &str) -> (r: Option<String>)
    ensures
        crate::text::view_of(r) == host_name(text@),
{
    match parse_address(text) {
        Some(a) => a.host,
        None => None,
    }
}

/// The address of the page at `path` on the site of `site`, an HTTP or HTTPS
/// URL.
pub open spec fn site_page(site: Seq<char>, path: Seq<char>) -> Option<Seq<char>> {
    match parsed_url(site) {
        Some(a) => if a.is_web() {
            Some(a.head + path)
        } else {
            None
        },
        None => None,
    }
}

fn page_on(site: &str, path: &str) -> (r: Option<String>)
    ensures
        crate::text::view_of(r) == site_page(site@, path@),
{
    match parse_address(site) {
        Some(a) => if a.web() {
            let mut text = a.head;
            text.append(path);
            Some(text)
        } else {
            None
        },
        None => None,
    }
}

/// The conventional icon address of a site, taken from its origin alone.
pub fn site_favicon_url(site_url: Option<&str>) -> (r: Option<String>)
    ensures
        crate::text::view_of(r) == match site_url {
            Some(site) => site_page(site@, "/favicon.ico"@),
            None => None,
        },
{
    match site_url {
        Some(site) => page_on(site, "/favicon.ico"),
        None => None,
    }
}

/// The first page of the site that `url` belongs to.
pub fn site_root(url: &str) -> (r: Option<String>)
    ensures
        crate::text::view_of(r) == site_page(url@, "/"@),
{
    page_on(url, "/")
}

/// `url` is how the URL parser writes some HTTP or HTTPS address.
pub open spec fn is_web_address(url: Seq<char>) -> bool {
    ||| exists|text: Seq<char>| web_text(#[trigger] parsed_url(text)) == Some(url)
    ||| exists|base: Seq<char>, text: Seq<char>|
        web_text(#[trigger] joined_url(base, text)) == Some(url)
}

/// What a reference resolves to is always an HTTP or HTTPS address.
pub proof fn law_resolved_is_web(base: Seq<char>, value: Seq<char>)
    ensures
        resolved(base, value) is Some ==> is_web_address(resolved(base, value)->0),
{
}

} // verus!
