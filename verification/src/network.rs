//! Fetching over HTTP: what is asked for, what is accepted, and when to try
//! again. Times are in nanoseconds.

use crate::identity::borrowed;
use crate::parser::{unmarked};
use crate::text::{
    before, before_char, begins, chars_of, contains, decimal, decimal_text, has, lower, lowered,
    parse_number, parsed_number, same, starts_with, string_of, trim, trim_start, trimmed,
};
use crate::web::{parse_address, parsed_url};
use vstd::prelude::*;
use vstd::utf8::{decode_utf8, valid_utf8};

verus! {

/// The longest feed that is accepted, in bytes.
pub const DEFAULT_MAX_FEED_BYTES: usize = 4_194_304;

/// The longest page that is accepted, in bytes.
pub const DEFAULT_MAX_HTML_BYTES: usize = 1_048_576;

/// The longest headers that are accepted, in bytes.
pub const MAX_HEADER_BYTES: usize = 65_536;

/// The most redirects that are followed.
pub const MAX_REDIRECTS: usize = 8;

/// A second.
pub const SECOND: u128 = 1_000_000_000;

/// What kind of thing went wrong.
#[derive(Debug, Clone, Copy, PartialEq, Eq, Structural)]
pub enum NetworkErrorKind {
    Cancelled,
    Timeout,
    Connectivity,
    Tls,
    Redirect,
    Unauthorized,
    Forbidden,
    NotFound,
    Gone,
    RateLimited,
    Server,
    InvalidResponse,
    OversizedResponse,
    UnsupportedContent,
    UnsupportedScheme,
}

impl NetworkErrorKind {
    /// The name of the kind.
    pub open spec fn spelled(self) -> Seq<char> {
        match self {
            NetworkErrorKind::Cancelled => "Cancelled"@,
            NetworkErrorKind::Timeout => "Timeout"@,
            NetworkErrorKind::Connectivity => "Connectivity"@,
            NetworkErrorKind::Tls => "Tls"@,
            NetworkErrorKind::Redirect => "Redirect"@,
            NetworkErrorKind::Unauthorized => "Unauthorized"@,
            NetworkErrorKind::Forbidden => "Forbidden"@,
            NetworkErrorKind::NotFound => "NotFound"@,
            NetworkErrorKind::Gone => "Gone"@,
            NetworkErrorKind::RateLimited => "RateLimited"@,
            NetworkErrorKind::Server => "Server"@,
            NetworkErrorKind::InvalidResponse => "InvalidResponse"@,
            NetworkErrorKind::OversizedResponse => "OversizedResponse"@,
            NetworkErrorKind::UnsupportedContent => "UnsupportedContent"@,
            NetworkErrorKind::UnsupportedScheme => "UnsupportedScheme"@,
        }
    }

    /// The name of the kind.
    pub fn name(&self) -> (r: &'static str)
        ensures
            r@ == self.spelled(),
    {
        match self {
            NetworkErrorKind::Cancelled => "Cancelled",
            NetworkErrorKind::Timeout => "Timeout",
            NetworkErrorKind::Connectivity => "Connectivity",
            NetworkErrorKind::Tls => "Tls",
            NetworkErrorKind::Redirect => "Redirect",
            NetworkErrorKind::Unauthorized => "Unauthorized",
            NetworkErrorKind::Forbidden => "Forbidden",
            NetworkErrorKind::NotFound => "NotFound",
            NetworkErrorKind::Gone => "Gone",
            NetworkErrorKind::RateLimited => "RateLimited",
            NetworkErrorKind::Server => "Server",
            NetworkErrorKind::InvalidResponse => "InvalidResponse",
            NetworkErrorKind::OversizedResponse => "OversizedResponse",
            NetworkErrorKind::UnsupportedContent => "UnsupportedContent",
            NetworkErrorKind::UnsupportedScheme => "UnsupportedScheme",
        }
    }
}

/// What went wrong with a request.
#[derive(Debug, PartialEq, Eq)]
pub struct NetworkError {
    pub kind: NetworkErrorKind,
    pub status: Option<u16>,
    /// How long the server asks to wait.
    pub retry_after: Option<u128>,
    pub detail: String,
}

/// What a [`NetworkError`] holds.
pub struct NetworkErrorView {
    pub kind: NetworkErrorKind,
    pub status: Option<u16>,
    pub retry_after: Option<u128>,
    pub detail: Seq<char>,
}

impl View for NetworkError {
    type V = NetworkErrorView;

    open spec fn view(&self) -> NetworkErrorView {
        NetworkErrorView {
            kind: self.kind,
            status: self.status,
            retry_after: self.retry_after,
            detail: self.detail@,
        }
    }
}

impl Clone for NetworkError {
    fn clone(&self) -> (r: Self)
        ensures
            r@ == self@,
    {
        NetworkError {
            kind: self.kind,
            status: self.status,
            retry_after: self.retry_after,
            detail: self.detail.clone(),
        }
    }
}

impl NetworkErrorView {
    /// An error without a status.
    pub open spec fn plain(kind: NetworkErrorKind, detail: Seq<char>) -> Self {
        NetworkErrorView { kind, status: None, retry_after: None, detail }
    }

    /// The error is likely to pass.
    pub open spec fn passes(self) -> bool {
        self.kind == NetworkErrorKind::Timeout || self.kind == NetworkErrorKind::Connectivity
            || self.kind == NetworkErrorKind::RateLimited || self.kind == NetworkErrorKind::Server
    }

    /// The message for a reader.
    pub open spec fn message(self) -> Seq<char> {
        self.kind.spelled() + ": "@ + self.detail
    }
}

impl NetworkError {
    /// An error without a status.
    pub fn new(kind: NetworkErrorKind, detail: &str) -> (r: Self)
        ensures
            r@ == NetworkErrorView::plain(kind, detail@),
    {
        NetworkError { kind, status: None, retry_after: None, detail: detail.to_owned() }
    }

    /// An error of a refresh, without a status.
    pub fn new_for_refresh(kind: NetworkErrorKind, detail: &str) -> (r: Self)
        ensures
            r@ == NetworkErrorView::plain(kind, detail@),
    {
        NetworkError::new(kind, detail)
    }

    /// An error that a status tells.
    pub fn status(kind: NetworkErrorKind, status: u16, retry_after: Option<u128>) -> (r: Self)
        ensures
            r@ == (NetworkErrorView {
                kind,
                status: Some(status),
                retry_after,
                detail: "HTTP "@ + decimal(status as nat),
            }),
    {
        let mut detail = "HTTP ".to_owned();
        let number = decimal_text(status as u64);
        detail.append(number.as_str());
        NetworkError { kind, status: Some(status), retry_after, detail }
    }

    /// Whether the error is likely to pass: a timeout, a lost connection, a
    /// rate limit, or a failing server.
    pub fn is_transient(&self) -> (r: bool)
        ensures
            r == self@.passes(),
    {
        match self.kind {
            NetworkErrorKind::Timeout => true,
            NetworkErrorKind::Connectivity => true,
            NetworkErrorKind::RateLimited => true,
            NetworkErrorKind::Server => true,
            _ => false,
        }
    }

    /// The message for a reader.
    pub fn message(&self) -> (r: String)
        ensures
            r@ == self@.message(),
    {
        let mut out = self.kind.name().to_owned();
        out.append(": ");
        out.append(self.detail.as_str());
        out
    }
}

/// What a server gave to tell whether a document changed.
#[derive(Debug, PartialEq, Eq)]
pub struct CacheValidators {
    pub etag: Option<String>,
    pub last_modified: Option<String>,
}

impl Default for CacheValidators {
    fn default() -> (r: Self)
        ensures
            r.etag is None,
            r.last_modified is None,
    {
        CacheValidators { etag: None, last_modified: None }
    }
}

impl Clone for CacheValidators {
    fn clone(&self) -> (r: Self)
        ensures
            r == *self,
    {
        CacheValidators {
            etag: crate::parser::copied(&self.etag),
            last_modified: crate::parser::copied(&self.last_modified),
        }
    }
}

/// What is fetched.
#[derive(Debug, Clone, Copy, PartialEq, Eq, Structural)]
pub enum FetchKind {
    Feed,
    DiscoveryPage,
}

/// The limits of a request.
#[derive(Debug, Clone, Copy, PartialEq, Eq)]
pub struct FetchPolicy {
    pub request_timeout: u128,
    pub max_feed_bytes: usize,
    pub max_html_bytes: usize,
    pub max_attempts: usize,
    pub max_retry_after: u128,
}

impl Default for FetchPolicy {
    fn default() -> (r: Self)
        ensures
            r.request_timeout == 20 * SECOND,
            r.max_feed_bytes == DEFAULT_MAX_FEED_BYTES,
            r.max_html_bytes == DEFAULT_MAX_HTML_BYTES,
            r.max_attempts == 2,
            r.max_retry_after == 30 * SECOND,
    {
        FetchPolicy {
            request_timeout: 20_000_000_000,
            max_feed_bytes: DEFAULT_MAX_FEED_BYTES,
            max_html_bytes: DEFAULT_MAX_HTML_BYTES,
            max_attempts: 2,
            max_retry_after: 30_000_000_000,
        }
    }
}

impl FetchPolicy {
    /// The longest body that is accepted, in bytes.
    pub open spec fn body_limit(self, kind: FetchKind) -> usize {
        match kind {
            FetchKind::Feed => self.max_feed_bytes,
            FetchKind::DiscoveryPage => self.max_html_bytes,
        }
    }

    /// The longest body that is accepted, in bytes.
    pub fn limit(&self, kind: FetchKind) -> (r: usize)
        ensures
            r == self.body_limit(kind),
    {
        match kind {
            FetchKind::Feed => self.max_feed_bytes,
            FetchKind::DiscoveryPage => self.max_html_bytes,
        }
    }

    /// How often a request is tried at most: once at least, three times at
    /// most.
    pub open spec fn tries(self) -> usize {
        if self.max_attempts < 1 {
            1
        } else if self.max_attempts > 3 {
            3
        } else {
            self.max_attempts
        }
    }
}

/// An answer to a request.
#[derive(Debug, Clone, PartialEq, Eq)]
pub struct FetchResponse {
    pub body: String,
    pub final_url: String,
    pub status: u16,
    pub content_type: Option<String>,
    pub etag: Option<String>,
    pub last_modified: Option<String>,
    pub bytes_received: usize,
}

/// A document that changed, or the word that it did not.
#[derive(Debug, Clone, PartialEq, Eq)]
pub enum FetchOutcome {
    Modified(FetchResponse),
    NotModified(FetchResponse),
}

/// The error that a text that is not a URL to fetch from gives; none where it
/// is one.
pub open spec fn url_error(value: Seq<char>) -> Option<NetworkErrorView> {
    match parsed_url(value) {
        None => Some(
            NetworkErrorView::plain(NetworkErrorKind::UnsupportedScheme, "invalid URL"@),
        ),
        Some(a) => if !a.is_web() {
            Some(
                NetworkErrorView::plain(
                    NetworkErrorKind::UnsupportedScheme,
                    "only HTTP and HTTPS are supported"@,
                ),
            )
        } else if a.host is None {
            Some(NetworkErrorView::plain(NetworkErrorKind::UnsupportedScheme, "URL has no host"@))
        } else {
            None
        },
    }
}

/// What a failure holds; nothing where there is none.
pub open spec fn failure_view<T>(r: Result<T, NetworkError>) -> Option<NetworkErrorView> {
    match r {
        Ok(_) => None,
        Err(e) => Some(e@),
    }
}

/// Whether `value` is a URL to fetch from: HTTP or HTTPS, with a host.
pub fn validate_url(value: &str) -> (r: Result<(), NetworkError>)
    ensures
        failure_view(r) == url_error(value@),
{
    match parse_address(value) {
        None => Err(NetworkError::new(NetworkErrorKind::UnsupportedScheme, "invalid URL")),
        Some(a) => {
            if !a.web() {
                return Err(
                    NetworkError::new(
                        NetworkErrorKind::UnsupportedScheme,
                        "only HTTP and HTTPS are supported",
                    ),
                );
            }
            if a.host.is_none() {
                return Err(
                    NetworkError::new(NetworkErrorKind::UnsupportedScheme, "URL has no host"),
                );
            }
            Ok(())
        },
    }
}

/// What is asked of a server for a kind of document.
pub open spec fn accepted_types(kind: FetchKind) -> Seq<char> {
    match kind {
        FetchKind::Feed => "application/rss+xml, application/atom+xml, application/feed+json, application/json;q=0.9, application/xml;q=0.8, text/xml;q=0.8, */*;q=0.1"@,
        FetchKind::DiscoveryPage => "text/html, application/xhtml+xml;q=0.9"@,
    }
}

/// The value of the header that says what is accepted.
pub fn accept_header(kind: FetchKind) -> (r: &'static str)
    ensures
        r@ == accepted_types(kind),
{
    match kind {
        FetchKind::Feed => "application/rss+xml, application/atom+xml, application/feed+json, application/json;q=0.9, application/xml;q=0.8, text/xml;q=0.8, */*;q=0.1",
        FetchKind::DiscoveryPage => "text/html, application/xhtml+xml;q=0.9",
    }
}

/// Why a redirect is not followed; nothing where it is.
pub open spec fn redirect_error(
    previous: nat,
    first_scheme: Option<Seq<char>>,
    next_scheme: Seq<char>,
) -> Option<Seq<char>> {
    if previous >= MAX_REDIRECTS {
        Some("redirect limit exceeded"@)
    } else if next_scheme != "http"@ && next_scheme != "https"@ {
        Some("redirect target scheme is not HTTP/HTTPS"@)
    } else if first_scheme == Some("https"@) && next_scheme == "http"@ {
        Some("HTTPS downgrade redirect rejected"@)
    } else {
        None
    }
}

/// Why a redirect is not followed: too many before it, a target that is not
/// HTTP or HTTPS, or a way back from HTTPS to HTTP.
pub fn refuse_redirect(previous: usize, first_scheme: Option<&str>, next_scheme: &str) -> (r: Option<
    &'static str,
>)
    ensures
        borrowed(r) == redirect_error(previous as nat, borrowed(first_scheme), next_scheme@),
{
    if previous >= MAX_REDIRECTS {
        return Some("redirect limit exceeded");
    }
    let plain = same(next_scheme, "http");
    if !plain && !same(next_scheme, "https") {
        return Some("redirect target scheme is not HTTP/HTTPS");
    }
    if let Some(first) = first_scheme {
        if plain && same(first, "https") {
            return Some("HTTPS downgrade redirect rejected");
        }
    }
    None
}

/// The media type in the value of a header, without its parameters.
pub open spec fn media_type(content_type: Option<Seq<char>>) -> Seq<char> {
    lower(
        trim(
            before_char(
                match content_type {
                    Some(text) => text,
                    None => ""@,
                },
                ';',
            ),
        ),
    )
}

fn read_media_type(content_type: Option<&str>) -> (r: String)
    ensures
        r@ == media_type(borrowed(content_type)),
{
    let text = match content_type {
        Some(text) => text,
        None => "",
    };
    let head = before(text, ';');
    let bare = trimmed(head.as_str());
    lowered(bare.as_str())
}

/// A body from its first character that is neither a byte order mark nor white
/// space.
pub open spec fn bare_body(body: Seq<char>) -> Seq<char> {
    trim_start(unmarked(body))
}

/// The first characters of a text, in small letters.
pub open spec fn body_start(body: Seq<char>) -> Seq<char> {
    let bare = bare_body(body);
    lower(
        if bare.len() > 512 {
            bare.take(512)
        } else {
            bare
        },
    )
}

/// A page looks like HTML, by its media type or by how it begins.
pub open spec fn looks_like_html(kind: Seq<char>, body: Seq<char>) -> bool {
    kind == "text/html"@ || kind == "application/xhtml+xml"@ || starts_with(
        bare_body(body),
        "<!doctype html"@,
    ) || starts_with(bare_body(body), "<html"@)
}

/// A document looks like a feed, by how it begins or by its media type.
pub open spec fn looks_like_feed(kind: Seq<char>, body: Seq<char>) -> bool {
    let start = body_start(body);
    starts_with(start, "{"@) || contains(start, "<rss"@) || contains(start, "<feed"@) || contains(
        start,
        "<rdf:rdf"@,
    ) || kind == "application/rss+xml"@ || kind == "application/atom+xml"@ || kind
        == "application/feed+json"@ || kind == "application/json"@ || kind == "application/xml"@
        || kind == "text/xml"@
}

/// Why a body is not accepted; nothing where it is.
pub open spec fn content_error(
    kind: FetchKind,
    content_type: Option<Seq<char>>,
    body: Seq<char>,
) -> Option<NetworkErrorView> {
    match kind {
        FetchKind::DiscoveryPage => if looks_like_html(media_type(content_type), body) {
            None
        } else {
            Some(
                NetworkErrorView::plain(
                    NetworkErrorKind::UnsupportedContent,
                    "response is not HTML"@,
                ),
            )
        },
        FetchKind::Feed => if looks_like_feed(media_type(content_type), body) {
            None
        } else {
            Some(
                NetworkErrorView::plain(
                    NetworkErrorKind::UnsupportedContent,
                    "response does not look like a feed"@,
                ),
            )
        },
    }
}

fn strip_body(body: &str) -> (r: String)
    ensures
        r@ == bare_body(body@),
{
    let chars = chars_of(body);
    let mut i: usize = 0;
    assert(chars@.skip(0) == chars@);
    while i < chars.len() && chars[i] == '\u{feff}'
        invariant
            i <= chars@.len(),
            unmarked(chars@) == unmarked(chars@.skip(i as int)),
        decreases chars@.len() - i,
    {
        assert(chars@.skip(i as int).skip(1) == chars@.skip(i + 1));
        i += 1;
    }
    assert(unmarked(chars@) == chars@.skip(i as int));
    let rest = string_of(&chars, i, chars.len());
    assert(rest@ == chars@.skip(i as int));
    crate::text::trimmed_start(rest.as_str())
}

fn start_of(bare: &str) -> (r: String)
    ensures
        r@ == lower(
            if bare@.len() > 512 {
                bare@.take(512)
            } else {
                bare@
            },
        ),
{
    let chars = chars_of(bare);
    let end: usize = if chars.len() > 512 {
        512
    } else {
        chars.len()
    };
    let first = string_of(&chars, 0, end);
    assert(first@ == if bare@.len() > 512 {
        bare@.take(512)
    } else {
        bare@
    });
    lowered(first.as_str())
}

/// Whether `body` is what was asked for: a feed or a page.
pub fn validate_content(kind: FetchKind, content_type: Option<&str>, body: &str) -> (r: Result<
    (),
    NetworkError,
>)
    ensures
        failure_view(r) == content_error(kind, borrowed(content_type), body@),
{
    let mime = read_media_type(content_type);
    let bare = strip_body(body);
    match kind {
        FetchKind::DiscoveryPage => {
            if same(mime.as_str(), "text/html") || same(mime.as_str(), "application/xhtml+xml")
                || begins(bare.as_str(), "<!doctype html") || begins(bare.as_str(), "<html") {
                Ok(())
            } else {
                Err(
                    NetworkError::new(
                        NetworkErrorKind::UnsupportedContent,
                        "response is not HTML",
                    ),
                )
            }
        },
        FetchKind::Feed => {
            let start = start_of(bare.as_str());
            if begins(start.as_str(), "{") || has(start.as_str(), "<rss") || has(
                start.as_str(),
                "<feed",
            ) || has(start.as_str(), "<rdf:rdf") || same(mime.as_str(), "application/rss+xml")
                || same(mime.as_str(), "application/atom+xml") || same(
                mime.as_str(),
                "application/feed+json",
            ) || same(mime.as_str(), "application/json") || same(mime.as_str(), "application/xml")
                || same(mime.as_str(), "text/xml") {
                Ok(())
            } else {
                Err(
                    NetworkError::new(
                        NetworkErrorKind::UnsupportedContent,
                        "response does not look like a feed",
                    ),
                )
            }
        },
    }
}

/// The time that `httpdate::parse_http_date` reads in a text, in nanoseconds
/// since the start of 1970.
pub uninterp spec fn http_time(text: Seq<char>) -> Option<u128>;

/// `httpdate::parse_http_date`: the time that the text names, which depends on
/// the text alone.
#[verifier::external_body]
fn read_http_time(text: &str) -> (r: Option<u128>)
    ensures
        r == http_time(text@),
{
    let time = httpdate::parse_http_date(text).ok()?;
    time.duration_since(std::time::SystemTime::UNIX_EPOCH).ok().map(|since| since.as_nanos())
}

/// How long a header asks to wait, seen at the time `now`: a number of
/// seconds, or until a date that is not past.
pub open spec fn wait_asked(value: Seq<char>, now: u128) -> Option<u128> {
    match parsed_number(trim(value)) {
        Some(seconds) if seconds <= u64::MAX => Some((seconds * SECOND) as u128),
        _ => match http_time(value) {
            Some(time) => if time >= now {
                Some((time - now) as u128)
            } else {
                None
            },
            None => None,
        },
    }
}

/// How long `value` asks to wait, seen at the time `now`.
pub fn parse_retry_after(value: &str, now: u128) -> (r: Option<u128>)
    ensures
        r == wait_asked(value@, now),
{
    let bare = trimmed(value);
    if let Some(seconds) = parse_number(bare.as_str()) {
        let wait: u128 = seconds as u128 * SECOND;
        return Some(wait);
    }
    match read_http_time(value) {
        Some(time) => if time >= now {
            Some(time - now)
        } else {
            None
        },
        None => None,
    }
}

/// The kind of error that a status tells.
pub open spec fn status_kind(status: u16) -> NetworkErrorKind {
    if status == 401 {
        NetworkErrorKind::Unauthorized
    } else if status == 403 {
        NetworkErrorKind::Forbidden
    } else if status == 404 {
        NetworkErrorKind::NotFound
    } else if status == 410 {
        NetworkErrorKind::Gone
    } else if status == 429 {
        NetworkErrorKind::RateLimited
    } else if 500 <= status <= 599 {
        NetworkErrorKind::Server
    } else {
        NetworkErrorKind::InvalidResponse
    }
}

/// The error that a status tells, with what the server asks to wait.
pub open spec fn status_failure(
    status: u16,
    retry_after: Option<Seq<char>>,
    now: u128,
) -> NetworkErrorView {
    NetworkErrorView {
        kind: status_kind(status),
        status: Some(status),
        retry_after: match retry_after {
            Some(text) => wait_asked(text, now),
            None => None,
        },
        detail: "HTTP "@ + decimal(status as nat),
    }
}

/// The error that `status` tells, with what the header `retry_after` asks to
/// wait.
pub fn status_error(status: u16, retry_after: Option<&str>, now: u128) -> (r: NetworkError)
    ensures
        r@ == status_failure(status, borrowed(retry_after), now),
{
    let wait = match retry_after {
        Some(text) => parse_retry_after(text, now),
        None => None,
    };
    let kind = if status == 401 {
        NetworkErrorKind::Unauthorized
    } else if status == 403 {
        NetworkErrorKind::Forbidden
    } else if status == 404 {
        NetworkErrorKind::NotFound
    } else if status == 410 {
        NetworkErrorKind::Gone
    } else if status == 429 {
        NetworkErrorKind::RateLimited
    } else if 500 <= status && status <= 599 {
        NetworkErrorKind::Server
    } else {
        NetworkErrorKind::InvalidResponse
    };
    NetworkError::status(kind, status, wait)
}

/// The kind of error that the transport reports.
pub open spec fn transport_kind(
    text: Seq<char>,
    is_timeout: bool,
    is_redirect: bool,
    is_connect: bool,
) -> NetworkErrorKind {
    if is_timeout {
        NetworkErrorKind::Timeout
    } else if is_redirect {
        NetworkErrorKind::Redirect
    } else if contains(lower(text), "certificate"@) || contains(lower(text), "tls"@) {
        NetworkErrorKind::Tls
    } else if is_connect {
        NetworkErrorKind::Connectivity
    } else {
        NetworkErrorKind::InvalidResponse
    }
}

/// The error that the transport reports in the words `text`.
pub fn transport_error(text: &str, is_timeout: bool, is_redirect: bool, is_connect: bool) -> (r:
    NetworkError)
    ensures
        r@ == NetworkErrorView::plain(
            transport_kind(text@, is_timeout, is_redirect, is_connect),
            text@,
        ),
{
    let small = lowered(text);
    let kind = if is_timeout {
        NetworkErrorKind::Timeout
    } else if is_redirect {
        NetworkErrorKind::Redirect
    } else if has(small.as_str(), "certificate") || has(small.as_str(), "tls") {
        NetworkErrorKind::Tls
    } else if is_connect {
        NetworkErrorKind::Connectivity
    } else {
        NetworkErrorKind::InvalidResponse
    };
    NetworkError::new(kind, text)
}

/// What an answer says before its body.
pub struct Head<'a> {
    pub final_url: &'a str,
    pub status: u16,
    pub retry_after: Option<&'a str>,
    pub content_length: Option<u64>,
    /// The length of all names and values of headers, in bytes.
    pub header_bytes: usize,
}

/// What to do with an answer.
#[derive(Debug, PartialEq, Eq)]
pub enum Verdict {
    /// The document did not change.
    NotModified,
    /// The body is to be read, up to this many bytes.
    Read(usize),
    Refuse(NetworkError),
}

/// What a [`Verdict`] holds.
pub enum VerdictView {
    NotModified,
    Read(usize),
    Refuse(NetworkErrorView),
}

impl View for Verdict {
    type V = VerdictView;

    open spec fn view(&self) -> VerdictView {
        match self {
            Verdict::NotModified => VerdictView::NotModified,
            Verdict::Read(limit) => VerdictView::Read(*limit),
            Verdict::Refuse(error) => VerdictView::Refuse(error@),
        }
    }
}

/// What to do with an answer: refuse one from an address that is not to be
/// fetched from, with an error status, or one that is too long; read any other
/// that is not the word that nothing changed.
pub open spec fn verdict(
    final_url: Seq<char>,
    status: u16,
    retry_after: Option<Seq<char>>,
    content_length: Option<u64>,
    header_bytes: usize,
    limit: usize,
    now: u128,
) -> VerdictView {
    if url_error(final_url) is Some {
        VerdictView::Refuse(url_error(final_url)->0)
    } else if status == 304 {
        VerdictView::NotModified
    } else if !(200 <= status <= 299) {
        VerdictView::Refuse(status_failure(status, retry_after, now))
    } else if content_length is Some && content_length->0 > limit {
        VerdictView::Refuse(
            NetworkErrorView::plain(
                NetworkErrorKind::OversizedResponse,
                "Content-Length exceeds response limit"@,
            ),
        )
    } else if header_bytes > MAX_HEADER_BYTES {
        VerdictView::Refuse(
            NetworkErrorView::plain(
                NetworkErrorKind::InvalidResponse,
                "response headers exceed limit"@,
            ),
        )
    } else {
        VerdictView::Read(limit)
    }
}

/// What to do with an answer whose head is `head`, seen at the time `now`.
pub fn judge_head(head: &Head, kind: FetchKind, policy: &FetchPolicy, now: u128) -> (r: Verdict)
    ensures
        r@ == verdict(
            head.final_url@,
            head.status,
            borrowed(head.retry_after),
            head.content_length,
            head.header_bytes,
            policy.body_limit(kind),
            now,
        ),
{
    match validate_url(head.final_url) {
        Ok(()) => {},
        Err(error) => {
            return Verdict::Refuse(error);
        },
    }
    if head.status == 304 {
        return Verdict::NotModified;
    }
    if !(200 <= head.status && head.status <= 299) {
        return Verdict::Refuse(status_error(head.status, head.retry_after, now));
    }
    let limit = policy.limit(kind);
    if let Some(length) = head.content_length {
        if length > limit as u64 {
            return Verdict::Refuse(
                NetworkError::new(
                    NetworkErrorKind::OversizedResponse,
                    "Content-Length exceeds response limit",
                ),
            );
        }
    }
    if head.header_bytes > MAX_HEADER_BYTES {
        return Verdict::Refuse(
            NetworkError::new(NetworkErrorKind::InvalidResponse, "response headers exceed limit"),
        );
    }
    Verdict::Read(limit)
}

/// Takes one more piece of a body, unless it makes the body longer than
/// `limit`.
pub fn take_chunk(bytes: &mut Vec<u8>, chunk: &[u8], limit: usize) -> (r: Result<(), NetworkError>)
    ensures
        match r {
            Ok(()) => old(bytes)@.len() + chunk@.len() <= limit && final(bytes)@ == old(bytes)@
                + chunk@,
            Err(error) => old(bytes)@.len() + chunk@.len() > limit && final(bytes)@ == old(bytes)@
                && error@ == NetworkErrorView::plain(
                NetworkErrorKind::OversizedResponse,
                "decoded response exceeds limit"@,
            ),
        },
{
    let have: usize = bytes.len();
    let more: usize = chunk.len();
    if have > limit || more > limit - have {
        return Err(
            NetworkError::new(
                NetworkErrorKind::OversizedResponse,
                "decoded response exceeds limit",
            ),
        );
    }
    let ghost before = bytes@;
    let mut i: usize = 0;
    assert(before + chunk@.take(0) == before);
    while i < chunk.len()
        invariant
            i <= chunk@.len(),
            bytes@ == before + chunk@.take(i as int),
        decreases chunk@.len() - i,
    {
        bytes.push(chunk[i]);
        assert(chunk@.take(i + 1) == chunk@.take(i as int).push(chunk@[i as int]));
        assert((before + chunk@.take(i as int)).push(chunk@[i as int]) == before + chunk@.take(
            i + 1,
        ));
        i += 1;
    }
    assert(chunk@.take(i as int) == chunk@);
    Ok(())
}

/// `String::from_utf8`: the text that the bytes encode, where they are UTF-8.
#[verifier::external_body]
pub(crate) fn decode_text(bytes: Vec<u8>) -> (r: Option<String>)
    ensures
        match r {
            Some(text) => valid_utf8(bytes@) && text@ == decode_utf8(bytes@),
            None => !valid_utf8(bytes@),
        },
{
    String::from_utf8(bytes).ok()
}

/// Why the bytes of a body are not accepted; nothing where they are.
pub open spec fn body_error(
    kind: FetchKind,
    content_type: Option<Seq<char>>,
    bytes: Seq<u8>,
) -> Option<NetworkErrorView> {
    if !valid_utf8(bytes) {
        Some(
            NetworkErrorView::plain(
                NetworkErrorKind::InvalidResponse,
                "response is not UTF-8"@,
            ),
        )
    } else {
        content_error(kind, content_type, decode_utf8(bytes))
    }
}

/// The text of a body that was received in full.
pub fn accept_body(kind: FetchKind, content_type: Option<&str>, bytes: Vec<u8>) -> (r: Result<
    String,
    NetworkError,
>)
    ensures
        failure_view(r) == body_error(kind, borrowed(content_type), bytes@),
        r is Ok ==> r->Ok_0@ == decode_utf8(bytes@),
{
    match decode_text(bytes) {
        Some(body) => match validate_content(kind, content_type, body.as_str()) {
            Ok(()) => Ok(body),
            Err(error) => Err(error),
        },
        None => Err(NetworkError::new(NetworkErrorKind::InvalidResponse, "response is not UTF-8")),
    }
}

/// A request that is under way: which try this is, and how many there are.
#[derive(Debug, Clone, Copy, PartialEq, Eq)]
pub struct Fetching {
    attempt: usize,
    attempts: usize,
}

impl Fetching {
    /// The number of tries before this one.
    pub closed spec fn tried(self) -> nat {
        self.attempt as nat
    }

    /// The number of tries in all.
    pub closed spec fn allowed(self) -> nat {
        self.attempts as nat
    }

    /// This try is one of those that are allowed, and those are one to three.
    pub open spec fn wf(self) -> bool {
        self.tried() < self.allowed() <= 3
    }

    /// A request for `url`, before its first try.
    pub fn start(url: &str, policy: &FetchPolicy) -> (r: Result<Fetching, NetworkError>)
        ensures
            failure_view(r) == url_error(url@),
            r is Ok ==> r->Ok_0.wf() && r->Ok_0.tried() == 0 && r->Ok_0.allowed()
                == policy.tries(),
    {
        match validate_url(url) {
            Ok(()) => {},
            Err(error) => {
                return Err(error);
            },
        }
        let attempts: usize = if policy.max_attempts < 1 {
            1
        } else if policy.max_attempts > 3 {
            3
        } else {
            policy.max_attempts
        };
        Ok(Fetching { attempt: 0, attempts })
    }

    /// What to do after a try that failed with `error`: wait and try again, or
    /// give up.
    pub fn after_failure(self, error: NetworkError, policy: &FetchPolicy) -> (r: AfterFailure)
        requires
            self.wf(),
        ensures
            if error@.passes() && self.tried() + 1 < self.allowed() {
                r matches AfterFailure::TryAgain { delay, next } && delay == retry_delay(
                    error@.retry_after,
                    self.tried(),
                    policy.max_retry_after,
                ) && next.wf() && next.tried() == self.tried() + 1 && next.allowed()
                    == self.allowed()
            } else {
                r matches AfterFailure::GiveUp(reported) && reported@ == error@
            },
    {
        if error.is_transient() && self.attempt + 1 < self.attempts {
            let wanted: u128 = match error.retry_after {
                Some(wait) => wait,
                None => 150_000_000 * (self.attempt as u128 + 1),
            };
            let delay: u128 = if wanted < policy.max_retry_after {
                wanted
            } else {
                policy.max_retry_after
            };
            AfterFailure::TryAgain {
                delay,
                next: Fetching { attempt: self.attempt + 1, attempts: self.attempts },
            }
        } else {
            AfterFailure::GiveUp(error)
        }
    }
}

/// How long to wait before the next try: what the server asks, else 150
/// milliseconds for each try so far, but never longer than `longest`.
pub open spec fn retry_delay(asked: Option<u128>, tried: nat, longest: u128) -> int {
    let wanted = match asked {
        Some(wait) => wait as int,
        None => 150_000_000int * (tried + 1),
    };
    if wanted < longest {
        wanted
    } else {
        longest as int
    }
}

/// What to do after a try that failed.
#[derive(Debug, PartialEq, Eq)]
pub enum AfterFailure {
    /// Wait, then try again.
    TryAgain { delay: u128, next: Fetching },
    GiveUp(NetworkError),
}

/// The error of a request that was called off.
pub fn cancelled_error() -> (r: NetworkError)
    ensures
        r@ == NetworkErrorView::plain(NetworkErrorKind::Cancelled, "request cancelled"@),
{
    NetworkError::new(NetworkErrorKind::Cancelled, "request cancelled")
}

/// The page of an article; the word that it did not change is no page.
pub fn article_page(outcome: FetchOutcome) -> (r: Result<FetchResponse, NetworkError>)
    ensures
        match outcome {
            FetchOutcome::Modified(response) => r == Ok::<_, NetworkError>(response),
            FetchOutcome::NotModified(_) => failure_view(r) == Some(
                NetworkErrorView::plain(
                    NetworkErrorKind::InvalidResponse,
                    "unexpected 304 article response"@,
                ),
            ),
        },
{
    match outcome {
        FetchOutcome::Modified(response) => Ok(response),
        FetchOutcome::NotModified(_) => Err(
            NetworkError::new(
                NetworkErrorKind::InvalidResponse,
                "unexpected 304 article response",
            ),
        ),
    }
}

} // verus!
