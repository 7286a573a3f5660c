//! What is fetched, what is refused, and what a refresh makes of the library.

use crate::identity::feed_identity;
use crate::intake::ingested;
use crate::library::{feed_at, lemma_feed_at, LibraryView};
use crate::network::{
    body_error, content_error, redirect_error, retry_delay, status_failure, status_kind,
    transport_kind, url_error, verdict, wait_asked, FetchKind, FetchOutcome, FetchResponse,
    NetworkError, NetworkErrorKind, NetworkErrorView, VerdictView,
};
use crate::parser::parsed_feed;
use crate::records::{FeedRecordView, FeedRowView, RefreshView};
use crate::refresh::{
    add_outcome, added, can_be_added, persisted, AddView, FetchTaskResult, RefreshErrorView,
    RefreshFailure, RefreshState,
};
use crate::retention::{kept_rows, past_of_feed};
use crate::text::{contains, lower, parsed_number, trim, view_of};
use crate::web::parsed_url;
use vstd::prelude::*;
use vstd::utf8::{decode_utf8, valid_utf8};

verus! {

/// An address is fetched if and only if it is HTTP or HTTPS and has a host.
pub proof fn law_only_web_addresses_are_fetched(value: Seq<char>)
    ensures
        url_error(value) is None <==> parsed_url(value) is Some && (parsed_url(value)->0.scheme
            == "http"@ || parsed_url(value)->0.scheme == "https"@) && parsed_url(
            value,
        )->0.host is Some,
        url_error(value) is Some ==> url_error(value)->0.kind
            == NetworkErrorKind::UnsupportedScheme,
        can_be_added(value) <==> parsed_url(value) is Some && (parsed_url(value)->0.scheme
            == "http"@ || parsed_url(value)->0.scheme == "https"@),
{
}

/// A redirect is followed if and only if fewer than eight went before it, it
/// leads to HTTP or HTTPS, and not from HTTPS to HTTP.
pub proof fn law_redirects_are_followed(
    previous: nat,
    first: Option<Seq<char>>,
    next: Seq<char>,
)
    ensures
        redirect_error(previous, first, next) is None <==> previous < 8 && (next == "http"@ || next
            == "https"@) && (first == Some("https"@) ==> next != "http"@),
{
}

/// A status of success is read, that of an unchanged document ends the matter,
/// and any other is refused with its kind.
pub proof fn law_status_decides(
    url: Seq<char>,
    status: u16,
    retry_after: Option<Seq<char>>,
    length: Option<u64>,
    header_bytes: usize,
    limit: usize,
    now: u128,
)
    requires
        url_error(url) is None,
    ensures
        ({
            let told = verdict(url, status, retry_after, length, header_bytes, limit, now);
            let fits = (length is Some ==> length->0 <= limit) && header_bytes <= 65_536;
            &&& told == VerdictView::NotModified <==> status == 304
            &&& told == VerdictView::Read(limit) <==> 200 <= status <= 299 && fits
            &&& told is Refuse <==> status != 304 && !(200 <= status <= 299 && fits)
            &&& status != 304 && !(200 <= status <= 299) ==> told is Refuse
                && told->Refuse_0.status == Some(status) && told->Refuse_0.kind == status_kind(
                status,
            )
            &&& 200 <= status <= 299 && length is Some && length->0 > limit ==> told is Refuse
                && told->Refuse_0.kind == NetworkErrorKind::OversizedResponse
        }),
{
}

/// Each refused status has its kind: those that ask for a login, that forbid,
/// that find nothing, that found something once, that ask to wait, and those of
/// a server that fails; any other is no valid answer. Only those that ask to
/// wait and those of a failing server are likely to pass.
pub proof fn law_statuses_have_kinds(status: u16, retry_after: Option<Seq<char>>, now: u128)
    ensures
        ({
            let kind = status_kind(status);
            let error = status_failure(status, retry_after, now);
            &&& kind == NetworkErrorKind::Unauthorized <==> status == 401
            &&& kind == NetworkErrorKind::Forbidden <==> status == 403
            &&& kind == NetworkErrorKind::NotFound <==> status == 404
            &&& kind == NetworkErrorKind::Gone <==> status == 410
            &&& kind == NetworkErrorKind::RateLimited <==> status == 429
            &&& kind == NetworkErrorKind::Server <==> 500 <= status <= 599
            &&& kind != NetworkErrorKind::InvalidResponse <==> (status == 401 || status == 403
                || status == 404 || status == 410 || status == 429 || 500 <= status <= 599)
            &&& error.passes() <==> status == 429 || 500 <= status <= 599
            &&& error.kind == kind
            &&& error.status == Some(status)
            &&& retry_after is None ==> error.retry_after is None
            &&& retry_after is Some ==> error.retry_after == wait_asked(retry_after->0, now)
        }),
{
}

/// What a server asks to wait is so many seconds, or up to a time: nothing where
/// that is over.
pub proof fn law_asked_waits_are_kept(value: Seq<char>, now: u128, seconds: nat, time: u128)
    ensures
        parsed_number(trim(value)) == Some(seconds) && seconds <= u64::MAX ==> wait_asked(
            value,
            now,
        ) is Some && wait_asked(value, now)->0 == seconds * 1_000_000_000,
        parsed_number(trim(value)) is None && crate::network::http_time(value) == Some(time)
            && time >= now ==> wait_asked(value, now) is Some && now + wait_asked(value, now)->0
            == time,
        parsed_number(trim(value)) is None && crate::network::http_time(value) == Some(time)
            && time < now ==> wait_asked(value, now) is None,
        parsed_number(trim(value)) is None && crate::network::http_time(value) is None
            ==> wait_asked(value, now) is None,
{
    if parsed_number(trim(value)) == Some(seconds) && seconds <= u64::MAX {
        assert(seconds * 1_000_000_000 <= u128::MAX) by (nonlinear_arith)
            requires
                seconds <= 0xffff_ffff_ffff_ffff,
        ;
    }
}

/// A second try waits as long as the server asks, else longer with each try, and
/// never longer than the longest wait.
pub proof fn law_tries_wait_longer(asked: Option<u128>, tried: nat, longest: u128)
    ensures
        retry_delay(asked, tried, longest) <= longest,
        asked is Some && asked->0 <= longest ==> retry_delay(asked, tried, longest) == asked->0,
        asked is Some && asked->0 > longest ==> retry_delay(asked, tried, longest) == longest,
        retry_delay(None, tried, longest) <= retry_delay(None, tried + 1, longest),
        retry_delay(None, 0, longest) == longest || retry_delay(None, 0, longest) == 150_000_000,
        retry_delay(None, tried + 1, longest) < longest ==> retry_delay(None, tried + 1, longest)
            == retry_delay(None, tried, longest) + 150_000_000,
{
    assert(150_000_000int * (tried + 2) == 150_000_000int * (tried + 1) + 150_000_000int)
        by (nonlinear_arith);
}

/// Why a transfer broke off: a wait that was too long above all, then a redirect,
/// then what the text says of certificates, then a connection that failed.
pub proof fn law_broken_transfers_have_kinds(
    text: Seq<char>,
    timeout: bool,
    redirect: bool,
    connect: bool,
)
    ensures
        ({
            let kind = transport_kind(text, timeout, redirect, connect);
            let tls = contains(lower(text), "certificate"@) || contains(lower(text), "tls"@);
            &&& kind == NetworkErrorKind::Timeout <==> timeout
            &&& kind == NetworkErrorKind::Redirect <==> !timeout && redirect
            &&& kind == NetworkErrorKind::Tls <==> !timeout && !redirect && tls
            &&& kind == NetworkErrorKind::Connectivity <==> !timeout && !redirect && !tls && connect
            &&& kind == NetworkErrorKind::InvalidResponse <==> !timeout && !redirect && !tls
                && !connect
        }),
{
}

/// Only what passes is tried again: a wait that was too long, a connection that
/// failed, a server that asks to wait or fails.
pub proof fn law_passing_errors(error: NetworkErrorView)
    ensures
        error.passes() <==> (error.kind == NetworkErrorKind::Timeout || error.kind
            == NetworkErrorKind::Connectivity || error.kind == NetworkErrorKind::RateLimited
            || error.kind == NetworkErrorKind::Server),
{
}

/// What is no UTF-8 is refused; what is, as a feed or as a page by what it holds.
pub proof fn law_bodies_are_text(
    kind: FetchKind,
    content_type: Option<Seq<char>>,
    bytes: Seq<u8>,
)
    ensures
        !valid_utf8(bytes) ==> body_error(kind, content_type, bytes) is Some,
        valid_utf8(bytes) ==> body_error(kind, content_type, bytes) == content_error(
            kind,
            content_type,
            decode_utf8(bytes),
        ),
{
}

/// A feed of the library is noted as refreshed, well or not.
pub open spec fn is_noted(
    before: FeedRowView,
    after: FeedRowView,
    now: i64,
    status: Option<u16>,
    failure: Option<Seq<char>>,
) -> bool {
    &&& after.feed.stable_id == before.feed.stable_id
    &&& after.feed.display_name == before.feed.display_name
    &&& after.feed.folder_id == before.feed.folder_id
    &&& after.feed.last_refresh_attempt_at == Some(now)
    &&& after.feed.last_http_status == status
    &&& after.last_refresh_error == failure
    &&& failure is None ==> after.feed.last_refresh_at == Some(now)
        && after.feed.consecutive_failures == 0
    &&& failure is Some ==> after.feed.last_refresh_at == before.feed.last_refresh_at
        && after.feed.etag == before.feed.etag && after.feed.last_modified
        == before.feed.last_modified && (before.feed.consecutive_failures < u32::MAX
        ==> after.feed.consecutive_failures == before.feed.consecutive_failures + 1)
}

/// A document that has not changed since changes no article; the feed is noted
/// as refreshed well, with what the server gives to tell changes.
pub proof fn law_unchanged_document_is_noted(
    library: LibraryView,
    feed: FeedRecordView,
    response: FetchResponse,
    duration: u128,
    now: i64,
    f: int,
)
    requires
        library.wf(),
        0 <= f < library.feeds.len(),
        library.feeds[f].feed.stable_id == feed.stable_id,
    ensures
        ({
            let fetched = FetchTaskResult::Fetched(FetchOutcome::NotModified(response), duration);
            let (after, told) = persisted(library, feed, fetched, now);
            &&& after.articles == library.articles
            &&& after.folders == library.folders
            &&& after.feeds.len() == library.feeds.len()
            &&& is_noted(library.feeds[f], after.feeds[f], now, Some(response.status), None)
            &&& response.etag is Some ==> after.feeds[f].feed.etag == view_of(response.etag)
            &&& response.etag is None ==> after.feeds[f].feed.etag == library.feeds[f].feed.etag
            &&& response.last_modified is Some ==> after.feeds[f].feed.last_modified == view_of(
                response.last_modified,
            )
            &&& response.last_modified is None ==> after.feeds[f].feed.last_modified
                == library.feeds[f].feed.last_modified
            &&& after.feeds[f].feed.effective_fetch_url == Some(response.final_url@)
            &&& forall|i: int|
                0 <= i < library.feeds.len() && i != f ==> after.feeds[i]
                    == #[trigger] library.feeds[i]
            &&& told.feed_id == feed.stable_id
            &&& told.state == RefreshState::Unchanged
            &&& told.inserted == 0 && told.updated == 0
            &&& told.failure is None
            &&& told.status == Some(response.status)
            &&& told.fetch_duration == duration
        }),
{
    lemma_found(library, f);
}

/// A fetch that failed changes no article; the feed is noted as refreshed badly,
/// with the kind of the failure, and told as given up only where that is what
/// happened.
pub proof fn law_failed_fetch_is_noted(
    library: LibraryView,
    feed: FeedRecordView,
    error: NetworkError,
    duration: u128,
    now: i64,
    f: int,
)
    requires
        library.wf(),
        0 <= f < library.feeds.len(),
        library.feeds[f].feed.stable_id == feed.stable_id,
    ensures
        ({
            let (after, told) = persisted(
                library,
                feed,
                FetchTaskResult::Error(error, duration),
                now,
            );
            &&& after.articles == library.articles
            &&& after.folders == library.folders
            &&& after.feeds.len() == library.feeds.len()
            &&& is_noted(
                library.feeds[f],
                after.feeds[f],
                now,
                error.status,
                after.feeds[f].last_refresh_error,
            )
            &&& after.feeds[f].last_refresh_error == Some(lower(error.kind.spelled()))
            &&& forall|i: int|
                0 <= i < library.feeds.len() && i != f ==> after.feeds[i]
                    == #[trigger] library.feeds[i]
            &&& told.feed_id == feed.stable_id
            &&& told.state == RefreshState::Cancelled <==> error.kind
                == NetworkErrorKind::Cancelled
            &&& told.state == RefreshState::Failed <==> error.kind != NetworkErrorKind::Cancelled
            &&& told.inserted == 0 && told.updated == 0
            &&& told.failure == Some(RefreshFailure::Network(error.kind))
            &&& told.status == error.status
        }),
{
    lemma_found(library, f);
    lemma_short_names(error.kind);
}

proof fn lemma_short_names(kind: NetworkErrorKind)
    ensures
        kind.spelled().len() <= 64,
        lower(kind.spelled()).len() <= 64,
{
    reveal_strlit("Cancelled");
    reveal_strlit("Timeout");
    reveal_strlit("Connectivity");
    reveal_strlit("Tls");
    reveal_strlit("Redirect");
    reveal_strlit("Unauthorized");
    reveal_strlit("Forbidden");
    reveal_strlit("NotFound");
    reveal_strlit("Gone");
    reveal_strlit("RateLimited");
    reveal_strlit("Server");
    reveal_strlit("InvalidResponse");
    reveal_strlit("OversizedResponse");
    reveal_strlit("UnsupportedContent");
    reveal_strlit("UnsupportedScheme");
}

proof fn lemma_found(library: LibraryView, f: int)
    requires
        library.wf(),
        0 <= f < library.feeds.len(),
    ensures
        feed_at(library.feeds, library.feeds[f].feed.stable_id, 0) == Some(f),
{
    let id = library.feeds[f].feed.stable_id;
    lemma_feed_at(library.feeds, id, 0);
    let k = feed_at(library.feeds, id, 0)->0;
    if k < f {
        assert(library.feeds[k].feed.stable_id != library.feeds[f].feed.stable_id);
    } else if f < k {
        assert(library.feeds[f].feed.stable_id != library.feeds[k].feed.stable_id);
    }
}

/// A document that cannot be read changes no article, and is noted as a failure
/// to read it.
pub proof fn law_unreadable_document_is_noted(
    library: LibraryView,
    feed: FeedRecordView,
    response: FetchResponse,
    duration: u128,
    now: i64,
    f: int,
)
    requires
        library.wf(),
        0 <= f < library.feeds.len(),
        library.feeds[f].feed.stable_id == feed.stable_id,
        parsed_feed(response.body@, response.final_url@) is Err,
    ensures
        ({
            let fetched = FetchTaskResult::Fetched(FetchOutcome::Modified(response), duration);
            let (after, told) = persisted(library, feed, fetched, now);
            &&& after.articles == library.articles
            &&& after.folders == library.folders
            &&& is_noted(
                library.feeds[f],
                after.feeds[f],
                now,
                Some(response.status),
                Some("parse"@),
            )
            &&& told.state == RefreshState::Failed
            &&& told.failure == Some(RefreshFailure::Parse)
            &&& told.inserted == 0 && told.updated == 0
            &&& told.bytes_received == response.bytes_received
        }),
{
    lemma_found(library, f);
    reveal_strlit("parse");
}

/// A document that can be read is taken in under the address of its feed, with
/// what was noted of the fetch; the articles that are new and those that were
/// known are told. Where the library refuses it, nothing changes.
pub proof fn law_new_document_is_taken_in(
    library: LibraryView,
    feed: FeedRecordView,
    response: FetchResponse,
    duration: u128,
    now: i64,
    note: RefreshView,
)
    requires
        parsed_feed(response.body@, response.final_url@) is Ok,
        note.etag == view_of(response.etag),
        note.last_modified == view_of(response.last_modified),
        note.attempted_at == now,
        note.succeeded_at == Some(now),
        note.http_status == Some(response.status),
        note.failure_category is None,
        note.final_fetch_url == Some(response.final_url@),
    ensures
        ({
            let fetched = FetchTaskResult::Fetched(FetchOutcome::Modified(response), duration);
            let (after, told) = persisted(library, feed, fetched, now);
            match ingested(
                library,
                feed.normalized_url,
                response.final_url@,
                response.body@,
                now,
                Some(note),
            ) {
                Ok((taken, fresh, ready)) => {
                    &&& after == taken
                    &&& told.state == RefreshState::Updated
                    &&& told.inserted == fresh
                    &&& told.failure is None
                    &&& fresh <= ready.articles.len() ==> told.inserted + told.updated
                        == ready.articles.len()
                },
                Err(_) => {
                    &&& after == library
                    &&& told.state == RefreshState::Failed
                    &&& told.inserted == 0 && told.updated == 0
                    &&& told.failure == Some(RefreshFailure::Storage)
                },
            }
        }),
{
    assert(note == crate::refresh::success_note(response, now));
}

/// A feed that is added holds the articles of its document but for those that
/// have had their time: thirty days, unless they have a star. What else the
/// library holds stays.
pub proof fn law_added_feed_is_cleared(
    library: LibraryView,
    url: Seq<char>,
    response: FetchResponse,
    now: i64,
)
    requires
        now >= 0,
        added(library, url, response, now) is Ok,
    ensures
        added(library, url, response, now)->Ok_0 is Added,
        ({
            let told = added(library, url, response, now)->Ok_0;
            let taken = ingested(
                library,
                url,
                response.final_url@,
                response.body@,
                now,
                Some(crate::refresh::success_note(response, now)),
            )->Ok_0.0;
            let kept = told->Added_library;
            &&& told->Added_feed_id == feed_identity(url)
            &&& kept.feeds == taken.feeds
            &&& kept.folders == taken.folders
            &&& kept.articles == kept_rows(
                taken.articles,
                past_of_feed(taken.articles, feed_identity(url), (now - 2_592_000) as i64),
            )
        }),
{
}

/// An answer to a wish to add a feed: a document is taken in, a page that is no
/// feed is searched for feeds, and anything else is an error.
pub proof fn law_add_answers_are_told_apart(
    library: LibraryView,
    url: Seq<char>,
    response: FetchResponse,
    error: NetworkError,
    now: i64,
)
    ensures
        add_outcome(library, url, Ok(FetchOutcome::Modified(response)), now) == added(
            library,
            url,
            response,
            now,
        ),
        add_outcome(library, url, Ok(FetchOutcome::NotModified(response)), now) is Err,
        error.kind == NetworkErrorKind::UnsupportedContent ==> add_outcome(
            library,
            url,
            Err(error),
            now,
        ) == Ok::<AddView, RefreshErrorView>(AddView::Discover),
        error.kind != NetworkErrorKind::UnsupportedContent ==> add_outcome(
            library,
            url,
            Err(error),
            now,
        ) == Err::<AddView, RefreshErrorView>(RefreshErrorView::Network(error@)),
{
}

} // verus!
