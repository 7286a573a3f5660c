//! Refreshing subscriptions: what a fetched document does to the library, and
//! what is told of it. Durations are in nanoseconds.

use crate::domain::RETENTION_SECONDS;
use crate::identity::{feed_id, feed_identity};
use crate::intake::ingested;
use crate::library::{feed_at, refreshed_feed, with_row, Library, LibraryView};
use crate::network::{
    CacheValidators, FetchOutcome, FetchResponse, NetworkError, NetworkErrorKind, NetworkErrorView,
};
use crate::page_discovery::DiscoveryResult;
use crate::parser::{copied, parse_with_source, parsed_feed};
use crate::records::{
    FeedRecord, FeedRecordView, IngestStats, RefreshMetadata, RefreshView, StorageError,
    StorageErrorView,
};
use crate::retention::{kept_rows, past_of_feed, struck_count};
use crate::sorting::{
    in_key_order, key_views, law_ordered_is_complete, place_list, sort_by_keys, KeyView, SortKey,
};
use crate::text::{chars_of, lower, lowered, string_of, view_of};
use crate::web::{parse_address, parsed_url};
use vstd::prelude::*;

verus! {

/// How many feeds are fetched side by side.
#[derive(Debug, Clone, Copy, PartialEq, Eq, Structural)]
pub struct RefreshConfig {
    pub global_concurrency: usize,
    pub per_host_concurrency: usize,
}

impl Default for RefreshConfig {
    fn default() -> (r: Self)
        ensures
            r.global_concurrency == 6,
            r.per_host_concurrency == 2,
    {
        RefreshConfig { global_concurrency: 6, per_host_concurrency: 2 }
    }
}

/// A number held between two bounds.
pub open spec fn held(value: usize, least: usize, most: usize) -> usize {
    if value < least {
        least
    } else if value > most {
        most
    } else {
        value
    }
}

impl RefreshConfig {
    /// How many feeds are fetched side by side in all, between 1 and 32, and
    /// from one host, at least 1 and no more than in all.
    pub fn limits(&self) -> (r: (usize, usize))
        ensures
            r.0 == held(self.global_concurrency, 1, 32),
            r.1 == held(self.per_host_concurrency, 1, r.0),
    {
        let global: usize = if self.global_concurrency < 1 {
            1
        } else if self.global_concurrency > 32 {
            32
        } else {
            self.global_concurrency
        };
        let host: usize = if self.per_host_concurrency < 1 {
            1
        } else if self.per_host_concurrency > global {
            global
        } else {
            self.per_host_concurrency
        };
        (global, host)
    }
}

/// How a refresh ended.
#[derive(Debug, Clone, Copy, PartialEq, Eq, Structural)]
pub enum RefreshState {
    Updated,
    Unchanged,
    Failed,
    Cancelled,
}

/// Where a refresh failed.
#[derive(Debug, Clone, Copy, PartialEq, Eq, Structural)]
pub enum RefreshFailure {
    Network(NetworkErrorKind),
    Parse,
    Storage,
}

/// What came of the refresh of a feed.
#[derive(Debug, PartialEq, Eq)]
pub struct RefreshResult {
    pub feed_id: String,
    pub state: RefreshState,
    pub status: Option<u16>,
    pub inserted: usize,
    pub updated: usize,
    pub bytes_received: usize,
    pub fetch_duration: u128,
    pub parse_ingest_duration: u128,
    pub failure: Option<RefreshFailure>,
}

/// What a [`RefreshResult`] holds.
pub struct ResultView {
    pub feed_id: Seq<char>,
    pub state: RefreshState,
    pub status: Option<u16>,
    pub inserted: nat,
    pub updated: nat,
    pub bytes_received: usize,
    pub fetch_duration: u128,
    pub parse_ingest_duration: u128,
    pub failure: Option<RefreshFailure>,
}

impl View for RefreshResult {
    type V = ResultView;

    open spec fn view(&self) -> ResultView {
        ResultView {
            feed_id: self.feed_id@,
            state: self.state,
            status: self.status,
            inserted: self.inserted as nat,
            updated: self.updated as nat,
            bytes_received: self.bytes_received,
            fetch_duration: self.fetch_duration,
            parse_ingest_duration: self.parse_ingest_duration,
            failure: self.failure,
        }
    }
}

impl Clone for RefreshResult {
    fn clone(&self) -> (r: Self)
        ensures
            r@ == self@,
    {
        RefreshResult {
            feed_id: self.feed_id.clone(),
            state: self.state,
            status: self.status,
            inserted: self.inserted,
            updated: self.updated,
            bytes_received: self.bytes_received,
            fetch_duration: self.fetch_duration,
            parse_ingest_duration: self.parse_ingest_duration,
            failure: self.failure,
        }
    }
}

/// How many refreshes ended how.
#[derive(Debug, Clone, Copy, PartialEq, Eq, Structural)]
pub struct RefreshSummary {
    pub total: usize,
    pub completed: usize,
    pub successful: usize,
    pub unchanged: usize,
    pub failed: usize,
    pub cancelled: usize,
}

impl Default for RefreshSummary {
    fn default() -> (r: Self)
        ensures
            r == (RefreshSummary {
                total: 0,
                completed: 0,
                successful: 0,
                unchanged: 0,
                failed: 0,
                cancelled: 0,
            }),
    {
        RefreshSummary {
            total: 0,
            completed: 0,
            successful: 0,
            unchanged: 0,
            failed: 0,
            cancelled: 0,
        }
    }
}

/// What came of the refresh of all feeds.
#[derive(Debug, PartialEq, Eq)]
pub struct RefreshAllResult {
    pub summary: RefreshSummary,
    pub feeds: Vec<RefreshResult>,
}

/// What came of adding an address: a subscription, or the feeds that the page
/// there announces.
#[derive(Debug)]
pub enum AddFeedResult {
    Added { feed_id: String, ingest: IngestStats },
    Candidates(DiscoveryResult),
}

/// Why an address is not added or a feed not refreshed.
#[derive(Debug)]
pub enum RefreshError {
    Network(NetworkError),
    Storage(StorageError),
    Parse(String),
    InvalidUrl,
}

/// What a [`RefreshError`] holds.
pub enum RefreshErrorView {
    Network(NetworkErrorView),
    Storage(StorageErrorView),
    Parse(Seq<char>),
    InvalidUrl,
}

impl View for RefreshError {
    type V = RefreshErrorView;

    open spec fn view(&self) -> RefreshErrorView {
        match self {
            RefreshError::Network(error) => RefreshErrorView::Network(error@),
            RefreshError::Storage(error) => RefreshErrorView::Storage(error@),
            RefreshError::Parse(text) => RefreshErrorView::Parse(text@),
            RefreshError::InvalidUrl => RefreshErrorView::InvalidUrl,
        }
    }
}

impl RefreshErrorView {
    /// The message for a reader.
    pub open spec fn message(self) -> Seq<char> {
        match self {
            RefreshErrorView::Network(error) => error.message(),
            RefreshErrorView::Storage(error) => error.message(),
            RefreshErrorView::Parse(text) => "feed parse failed: "@ + text,
            RefreshErrorView::InvalidUrl => "invalid HTTP/HTTPS URL"@,
        }
    }
}

impl RefreshError {
    /// The message for a reader.
    pub fn message(&self) -> (r: String)
        ensures
            r@ == self@.message(),
    {
        match self {
            RefreshError::Network(error) => error.message(),
            RefreshError::Storage(error) => error.message(),
            RefreshError::Parse(text) => {
                let mut out = "feed parse failed: ".to_owned();
                out.append(text.as_str());
                out
            },
            RefreshError::InvalidUrl => "invalid HTTP/HTTPS URL".to_owned(),
        }
    }
}

/// What a failure holds; nothing where there is none.
pub open spec fn refresh_failure<T>(r: Result<T, RefreshError>) -> Option<RefreshErrorView> {
    match r {
        Ok(_) => None,
        Err(error) => Some(error@),
    }
}

/// What fetching a subscription gave, and how long it took.
#[derive(Debug, Clone)]
pub enum FetchTaskResult {
    Fetched(FetchOutcome, u128),
    Error(NetworkError, u128),
}

/// The error of a refresh that was given up.
pub open spec fn given_up() -> NetworkErrorView {
    NetworkErrorView::plain(NetworkErrorKind::Cancelled, "refresh cancelled"@)
}

/// A refresh that was given up after `duration`.
pub fn cancelled_refresh(duration: u128) -> (r: FetchTaskResult)
    ensures
        match r {
            FetchTaskResult::Error(error, d) => error@ == given_up() && d == duration,
            _ => false,
        },
{
    FetchTaskResult::Error(
        NetworkError::new_for_refresh(NetworkErrorKind::Cancelled, "refresh cancelled"),
        duration,
    )
}

/// What a server is told that is asked for a feed again.
pub fn validators_of(feed: &FeedRecord) -> (r: CacheValidators)
    ensures
        view_of(r.etag) == feed@.etag,
        view_of(r.last_modified) == feed@.last_modified,
{
    CacheValidators { etag: copied(&feed.etag), last_modified: copied(&feed.last_modified) }
}

/// The host that a feed is fetched from, in small letters; empty where its
/// address has none.
pub open spec fn host_of_feed(url: Seq<char>) -> Seq<char> {
    match parsed_url(url) {
        Some(address) => match address.host {
            Some(host) => lower(host),
            None => Seq::empty(),
        },
        None => Seq::empty(),
    }
}

/// The name under which the requests to the host of `fetch_url` are counted.
pub fn host_key(fetch_url: &str) -> (r: String)
    ensures
        r@ == host_of_feed(fetch_url@),
{
    match parse_address(fetch_url) {
        Some(address) => match address.host {
            Some(host) => lowered(host.as_str()),
            None => String::new(),
        },
        None => String::new(),
    }
}

/// The note of a refresh that went well.
pub open spec fn success_note(response: FetchResponse, now: i64) -> RefreshView {
    RefreshView {
        etag: view_of(response.etag),
        last_modified: view_of(response.last_modified),
        attempted_at: now,
        succeeded_at: Some(now),
        http_status: Some(response.status),
        failure_category: None,
        final_fetch_url: Some(response.final_url@),
    }
}

/// The note of a refresh that went well.
pub fn success_metadata(response: &FetchResponse, now: i64) -> (r: RefreshMetadata)
    ensures
        r@ == success_note(*response, now),
{
    RefreshMetadata {
        etag: copied(&response.etag),
        last_modified: copied(&response.last_modified),
        attempted_at: now,
        succeeded_at: Some(now),
        http_status: Some(response.status),
        failure_category: None,
        final_fetch_url: Some(response.final_url.clone()),
    }
}

/// The first characters of a text, at most `count`.
pub open spec fn first_chars(text: Seq<char>, count: nat) -> Seq<char> {
    if text.len() <= count {
        text
    } else {
        text.take(count as int)
    }
}

/// The note of a refresh that failed.
pub open spec fn failure_note(now: i64, status: Option<u16>, category: Seq<char>) -> RefreshView {
    RefreshView {
        etag: None,
        last_modified: None,
        attempted_at: now,
        succeeded_at: None,
        http_status: status,
        failure_category: Some(first_chars(category, 64)),
        final_fetch_url: None,
    }
}

/// The note of a refresh that failed, with what kind of failure it was, in 64
/// characters at most.
pub fn failure_metadata(now: i64, status: Option<u16>, category: &str) -> (r: RefreshMetadata)
    ensures
        r@ == failure_note(now, status, category@),
{
    let chars = chars_of(category);
    let end: usize = if chars.len() <= 64 {
        chars.len()
    } else {
        64
    };
    let text = string_of(&chars, 0, end);
    assert(text@ == first_chars(category@, 64));
    RefreshMetadata {
        etag: None,
        last_modified: None,
        attempted_at: now,
        succeeded_at: None,
        http_status: status,
        failure_category: Some(text),
        final_fetch_url: None,
    }
}

/// The library with a note on a feed; the same where it has no such feed.
pub open spec fn noted(library: LibraryView, id: Seq<char>, note: RefreshView) -> LibraryView {
    match feed_at(library.feeds, id, 0) {
        Some(i) => with_row(library, i, refreshed_feed(library.feeds[i], note)),
        None => library,
    }
}

/// What is told of the refresh of a feed that took in nothing.
pub open spec fn bare_result(
    id: Seq<char>,
    state: RefreshState,
    status: Option<u16>,
    bytes_received: usize,
    fetch_duration: u128,
    failure: Option<RefreshFailure>,
) -> ResultView {
    ResultView {
        feed_id: id,
        state,
        status,
        inserted: 0,
        updated: 0,
        bytes_received,
        fetch_duration,
        parse_ingest_duration: 0,
        failure,
    }
}

/// The library after a refresh of a feed, and what is told of it.
pub open spec fn persisted(
    library: LibraryView,
    feed: FeedRecordView,
    fetched: FetchTaskResult,
    now: i64,
) -> (LibraryView, ResultView) {
    let id = feed.stable_id;
    match fetched {
        FetchTaskResult::Fetched(FetchOutcome::NotModified(response), duration) => {
            let after = noted(library, id, success_note(response, now));
            if feed_at(library.feeds, id, 0) is Some {
                (
                    after,
                    bare_result(
                        id,
                        RefreshState::Unchanged,
                        Some(response.status),
                        0,
                        duration,
                        None,
                    ),
                )
            } else {
                (
                    after,
                    bare_result(
                        id,
                        RefreshState::Failed,
                        Some(response.status),
                        0,
                        duration,
                        Some(RefreshFailure::Storage),
                    ),
                )
            }
        },
        FetchTaskResult::Fetched(FetchOutcome::Modified(response), duration) => if parsed_feed(
            response.body@,
            response.final_url@,
        ) is Err {
            (
                noted(library, id, failure_note(now, Some(response.status), "parse"@)),
                bare_result(
                    id,
                    RefreshState::Failed,
                    Some(response.status),
                    response.bytes_received,
                    duration,
                    Some(RefreshFailure::Parse),
                ),
            )
        } else {
            match ingested(
                library,
                feed.normalized_url,
                response.final_url@,
                response.body@,
                now,
                Some(success_note(response, now)),
            ) {
                Ok((after, fresh, ready)) => (
                    after,
                    ResultView {
                        inserted: fresh,
                        updated: (ready.articles.len() - fresh) as nat,
                        ..bare_result(
                            id,
                            RefreshState::Updated,
                            Some(response.status),
                            response.bytes_received,
                            duration,
                            None,
                        )
                    },
                ),
                Err(_) => (
                    library,
                    bare_result(
                        id,
                        RefreshState::Failed,
                        Some(response.status),
                        response.bytes_received,
                        duration,
                        Some(RefreshFailure::Storage),
                    ),
                ),
            }
        },
        FetchTaskResult::Error(error, duration) => (
            noted(library, id, failure_note(now, error.status, lower(error.kind.spelled()))),
            bare_result(
                id,
                if error.kind == NetworkErrorKind::Cancelled {
                    RefreshState::Cancelled
                } else {
                    RefreshState::Failed
                },
                error.status,
                0,
                duration,
                Some(RefreshFailure::Network(error.kind)),
            ),
        ),
    }
}

fn bare(
    id: &str,
    state: RefreshState,
    status: Option<u16>,
    bytes_received: usize,
    fetch_duration: u128,
    failure: Option<RefreshFailure>,
) -> (r: RefreshResult)
    ensures
        r@ == bare_result(id@, state, status, bytes_received, fetch_duration, failure),
{
    RefreshResult {
        feed_id: id.to_owned(),
        state,
        status,
        inserted: 0,
        updated: 0,
        bytes_received,
        fetch_duration,
        parse_ingest_duration: 0,
        failure,
    }
}

/// Keeps what was fetched for `feed`, and tells what came of it. The time for
/// reading the document is left open.
pub fn persist_result(
    library: &mut Library,
    feed: &FeedRecord,
    fetched: &FetchTaskResult,
    attempted_at: i64,
) -> (r: RefreshResult)
    requires
        old(library)@.wf(),
    ensures
        final(library)@.wf(),
        final(library)@ == persisted(old(library)@, feed@, *fetched, attempted_at).0,
        r@ == persisted(old(library)@, feed@, *fetched, attempted_at).1,
{
    let id = feed.stable_id.as_str();
    match fetched {
        FetchTaskResult::Fetched(FetchOutcome::NotModified(response), duration) => {
            let metadata = success_metadata(response, attempted_at);
            match library.record_refresh(id, &metadata) {
                Ok(()) => bare(
                    id,
                    RefreshState::Unchanged,
                    Some(response.status),
                    0,
                    *duration,
                    None,
                ),
                Err(_) => bare(
                    id,
                    RefreshState::Failed,
                    Some(response.status),
                    0,
                    *duration,
                    Some(RefreshFailure::Storage),
                ),
            }
        },
        FetchTaskResult::Fetched(FetchOutcome::Modified(response), duration) => {
            if parse_with_source(response.body.as_str(), response.final_url.as_str()).is_err() {
                let metadata = failure_metadata(attempted_at, Some(response.status), "parse");
                let _ = library.record_refresh(id, &metadata);
                return bare(
                    id,
                    RefreshState::Failed,
                    Some(response.status),
                    response.bytes_received,
                    *duration,
                    Some(RefreshFailure::Parse),
                );
            }
            let metadata = success_metadata(response, attempted_at);
            match library.ingest_fetched_document(
                feed.normalized_url.as_str(),
                response.final_url.as_str(),
                response.body.as_str(),
                attempted_at,
                Some(&metadata),
            ) {
                Ok(stats) => {
                    let mut r = bare(
                        id,
                        RefreshState::Updated,
                        Some(response.status),
                        response.bytes_received,
                        *duration,
                        None,
                    );
                    r.inserted = stats.inserted;
                    r.updated = stats.updated;
                    r
                },
                Err(_) => bare(
                    id,
                    RefreshState::Failed,
                    Some(response.status),
                    response.bytes_received,
                    *duration,
                    Some(RefreshFailure::Storage),
                ),
            }
        },
        FetchTaskResult::Error(error, duration) => {
            let category = lowered(error.kind.name());
            let metadata = failure_metadata(attempted_at, error.status, category.as_str());
            let _ = library.record_refresh(id, &metadata);
            let state = if error.kind == NetworkErrorKind::Cancelled {
                RefreshState::Cancelled
            } else {
                RefreshState::Failed
            };
            bare(id, state, error.status, 0, *duration, Some(RefreshFailure::Network(error.kind)))
        },
    }
}

/// What the results of a list hold.
pub open spec fn result_views(list: Seq<RefreshResult>) -> Seq<ResultView> {
    Seq::new(list.len(), |i: int| list[i]@)
}

/// What a result is ordered by.
pub open spec fn result_key(result: ResultView) -> KeyView {
    KeyView { group: None, rank: 0, name: Seq::empty(), id: 0, text_id: result.feed_id }
}

/// What the results of a list are ordered by.
pub open spec fn result_keys(list: Seq<ResultView>) -> Seq<KeyView> {
    Seq::new(list.len(), |i: int| result_key(list[i]))
}

/// Results in the order of the ids of their feeds.
pub open spec fn results_in_order(list: Seq<ResultView>) -> Seq<ResultView> {
    in_key_order(result_keys(list)).map_values(|at: int| list[at])
}

/// How many of the results ended in a state.
pub open spec fn ended(list: Seq<ResultView>, state: RefreshState) -> nat
    decreases list.len(),
{
    if list.len() == 0 {
        0
    } else if list.last().state == state {
        ended(list.drop_last(), state) + 1
    } else {
        ended(list.drop_last(), state)
    }
}

proof fn lemma_ended_sum(list: Seq<ResultView>)
    ensures
        ended(list, RefreshState::Updated) + ended(list, RefreshState::Unchanged) + ended(
            list,
            RefreshState::Failed,
        ) + ended(list, RefreshState::Cancelled) == list.len(),
    decreases list.len(),
{
    if list.len() > 0 {
        lemma_ended_sum(list.drop_last());
    }
}

/// Puts the results of a refresh of all feeds in the order of the feeds' ids
/// and counts how they ended.
pub fn gather(results: Vec<RefreshResult>) -> (r: RefreshAllResult)
    ensures
        result_views(r.feeds@) == results_in_order(result_views(results@)),
        r.summary.total == results@.len(),
        r.summary.completed == results@.len(),
        r.summary.successful == ended(result_views(results@), RefreshState::Updated),
        r.summary.unchanged == ended(result_views(results@), RefreshState::Unchanged),
        r.summary.failed == ended(result_views(results@), RefreshState::Failed),
        r.summary.cancelled == ended(result_views(results@), RefreshState::Cancelled),
{
    let ghost all = result_views(results@);
    let count: usize = results.len();
    let mut keys: Vec<SortKey> = Vec::new();
    let mut summary = RefreshSummary::default();
    summary.total = count;
    summary.completed = count;
    let mut i: usize = 0;
    assert(key_views(keys@) == result_keys(all.take(0)));
    while i < count
        invariant
            i <= count,
            count == results@.len(),
            all == result_views(results@),
            key_views(keys@) == result_keys(all.take(i as int)),
            summary.total == count,
            summary.completed == count,
            summary.successful == ended(all.take(i as int), RefreshState::Updated),
            summary.unchanged == ended(all.take(i as int), RefreshState::Unchanged),
            summary.failed == ended(all.take(i as int), RefreshState::Failed),
            summary.cancelled == ended(all.take(i as int), RefreshState::Cancelled),
            summary.successful + summary.unchanged + summary.failed + summary.cancelled == i,
        decreases count - i,
    {
        let ghost sofar = key_views(keys@);
        assert(all[i as int] == results@[i as int]@);
        assert(all.take(i + 1).drop_last() == all.take(i as int));
        assert(all.take(i + 1).last() == all[i as int]);
        let key = SortKey {
            group: None,
            rank: 0,
            name: String::new(),
            id: 0,
            text_id: results[i].feed_id.clone(),
        };
        assert(key@ == result_key(all[i as int]));
        keys.push(key);
        assert(key_views(keys@) == sofar.push(key@));
        assert(key_views(keys@) == result_keys(all.take(i + 1)));
        match results[i].state {
            RefreshState::Updated => {
                summary.successful = summary.successful + 1;
            },
            RefreshState::Unchanged => {
                summary.unchanged = summary.unchanged + 1;
            },
            RefreshState::Failed => {
                summary.failed = summary.failed + 1;
            },
            RefreshState::Cancelled => {
                summary.cancelled = summary.cancelled + 1;
            },
        }
        i += 1;
    }
    assert(all.take(count as int) == all);
    let order = sort_by_keys(&keys);
    let mut feeds: Vec<RefreshResult> = Vec::new();
    let mut k: usize = 0;
    while k < order.len()
        invariant
            k <= order@.len(),
            all == result_views(results@),
            forall|j: int| 0 <= j < order@.len() ==> #[trigger] order@[j] < results@.len(),
            feeds@.len() == k,
            forall|j: int| 0 <= j < k ==> #[trigger] feeds@[j]@ == all[place_list(order@)[j]],
        decreases order@.len() - k,
    {
        let at = order[k];
        assert(all[at as int] == results@[at as int]@);
        feeds.push(results[at].clone());
        k += 1;
    }
    assert(result_views(feeds@) == results_in_order(all));
    RefreshAllResult { summary, feeds }
}

/// Every refresh is counted once: those that went well, those without news,
/// those that failed and those given up are all of them.
pub proof fn law_summary_is_complete(list: Seq<ResultView>)
    ensures
        ended(list, RefreshState::Updated) + ended(list, RefreshState::Unchanged) + ended(
            list,
            RefreshState::Failed,
        ) + ended(list, RefreshState::Cancelled) == list.len(),
{
    lemma_ended_sum(list);
}

/// What is told of the refresh of all feeds is told of each, in the order of
/// their ids.
pub proof fn law_results_are_in_order(list: Seq<ResultView>)
    ensures
        results_in_order(list).len() == list.len(),
        forall|i: int| 0 <= i < list.len() ==> results_in_order(list).contains(#[trigger] list[i]),
        forall|i: int, j: int|
            0 <= i < j < list.len() ==> !crate::order::text_before(
                (#[trigger] results_in_order(list)[j]).feed_id,
                (#[trigger] results_in_order(list)[i]).feed_id,
            ),
{
    let keys = result_keys(list);
    let order = in_key_order(keys);
    law_ordered_is_complete(keys, keys.len());
    crate::sorting::law_ordered_is_sorted(keys, keys.len());
    assert forall|i: int| 0 <= i < list.len() implies results_in_order(list).contains(
        #[trigger] list[i],
    ) by {
        assert(order.contains(i));
        let k = choose|k: int| 0 <= k < order.len() && order[k] == i;
        assert(results_in_order(list)[k] == list[i]);
    }
    assert forall|i: int, j: int| 0 <= i < j < list.len() implies !crate::order::text_before(
        (#[trigger] results_in_order(list)[j]).feed_id,
        (#[trigger] results_in_order(list)[i]).feed_id,
    ) by {
        assert(!crate::sorting::key_before(keys[order[j]], keys[order[i]]));
        assert(results_in_order(list)[j] == list[order[j]]);
        assert(results_in_order(list)[i] == list[order[i]]);
    }
}

/// The address can be added: it is one, of HTTP or HTTPS.
pub open spec fn can_be_added(url: Seq<char>) -> bool {
    parsed_url(url) is Some && parsed_url(url)->0.is_web()
}

/// Whether the address `url` can be added.
pub fn check_addable(url: &str) -> (r: Result<(), RefreshError>)
    ensures
        match r {
            Ok(()) => can_be_added(url@),
            Err(error) => !can_be_added(url@) && error@ == RefreshErrorView::InvalidUrl,
        },
{
    match parse_address(url) {
        Some(address) => {
            if address.web() {
                Ok(())
            } else {
                Err(RefreshError::InvalidUrl)
            }
        },
        None => Err(RefreshError::InvalidUrl),
    }
}

/// What is to be done with an address after a first look.
#[derive(Debug)]
pub enum AddStep {
    /// The feed there was added.
    Added { feed_id: String, ingest: IngestStats },
    /// There is a page, which is to be searched for feeds.
    Discover,
}

/// What adding an address does to the library, and what is told of it: how many
/// articles came and stayed, how many were known and how many stood twice in
/// the document.
pub enum AddView {
    Added { library: LibraryView, feed_id: Seq<char>, inserted: nat, updated: nat, repeated: nat },
    Discover,
}

/// A number less another, but not below zero.
pub open spec fn less(a: nat, b: nat) -> nat {
    if a < b {
        0
    } else {
        (a - b) as nat
    }
}

/// What adding the document that was fetched at an address does: it is taken
/// in, and what has had its time already goes again.
pub open spec fn added(
    library: LibraryView,
    url: Seq<char>,
    response: FetchResponse,
    now: i64,
) -> Result<AddView, RefreshErrorView> {
    match parsed_feed(response.body@, response.final_url@) {
        Err(error) => Err(RefreshErrorView::Parse(error.message())),
        Ok(_) => match ingested(
            library,
            url,
            response.final_url@,
            response.body@,
            now,
            Some(success_note(response, now)),
        ) {
            Err(error) => Err(RefreshErrorView::Storage(error)),
            Ok((after, fresh, ready)) => {
                let id = feed_identity(url);
                let past = past_of_feed(
                    after.articles,
                    id,
                    crate::domain::held_difference(now, RETENTION_SECONDS) as i64,
                );
                Ok(
                    AddView::Added {
                        library: LibraryView { articles: kept_rows(after.articles, past), ..after },
                        feed_id: id,
                        inserted: less(fresh, struck_count(past)),
                        updated: (ready.articles.len() - fresh) as nat,
                        repeated: ready.duplicates_suppressed,
                    },
                )
            },
        },
    }
}

/// What adding an address comes to, after what was fetched there.
pub open spec fn add_outcome(
    library: LibraryView,
    url: Seq<char>,
    fetched: Result<FetchOutcome, NetworkError>,
    now: i64,
) -> Result<AddView, RefreshErrorView> {
    match fetched {
        Ok(FetchOutcome::Modified(response)) => added(library, url, response, now),
        Ok(FetchOutcome::NotModified(_)) => Err(
            RefreshErrorView::Parse("unexpected 304 for new subscription"@),
        ),
        Err(error) => if error.kind == NetworkErrorKind::UnsupportedContent {
            Ok(AddView::Discover)
        } else {
            Err(RefreshErrorView::Network(error@))
        },
    }
}

/// Adds the address `url`, where `fetched` is what was fetched there: a feed is
/// taken in, and its articles that have had their time go at once; a page is to
/// be searched.
pub fn add_fetched(
    library: &mut Library,
    url: &str,
    fetched: Result<FetchOutcome, NetworkError>,
    now: i64,
) -> (r: Result<AddStep, RefreshError>)
    requires
        old(library)@.wf(),
    ensures
        final(library)@.wf(),
        match add_outcome(old(library)@, url@, fetched, now) {
            Ok(AddView::Added { library: after, feed_id, inserted, updated, repeated }) => {
                &&& final(library)@ == after
                &&& match r {
                    Ok(AddStep::Added { feed_id: id, ingest }) => id@ == feed_id
                        && ingest.inserted == inserted && ingest.updated == updated
                        && ingest.duplicates_in_document == repeated,
                    _ => false,
                }
            },
            Ok(AddView::Discover) => r matches Ok(AddStep::Discover) && final(library)@ == old(
                library,
            )@,
            Err(error) => refresh_failure(r) == Some(error) && final(library)@ == old(library)@,
        },
{
    match fetched {
        Ok(FetchOutcome::Modified(response)) => {
            match parse_with_source(response.body.as_str(), response.final_url.as_str()) {
                Ok(_) => {},
                Err(error) => {
                    return Err(RefreshError::Parse(error.message()));
                },
            }
            let metadata = success_metadata(&response, now);
            let mut ingest = match library.ingest_fetched_document(
                url,
                response.final_url.as_str(),
                response.body.as_str(),
                now,
                Some(&metadata),
            ) {
                Ok(stats) => stats,
                Err(error) => {
                    return Err(RefreshError::Storage(error));
                },
            };
            let id = feed_id(url);
            let cutoff = crate::domain::held_sub(now, RETENTION_SECONDS);
            let gone = library.cleanup_feed_retention(id.as_str(), cutoff);
            ingest.inserted = ingest.inserted.saturating_sub(gone);
            Ok(AddStep::Added { feed_id: id, ingest })
        },
        Ok(FetchOutcome::NotModified(_)) => Err(
            RefreshError::Parse("unexpected 304 for new subscription".to_owned()),
        ),
        Err(error) => {
            if error.kind == NetworkErrorKind::UnsupportedContent {
                Ok(AddStep::Discover)
            } else {
                Err(RefreshError::Network(error))
            }
        },
    }
}

/// What was fetched brings no readable document: an error, the word that
/// nothing changed, or a text that is no feed.
pub open spec fn brings_nothing(fetched: FetchTaskResult) -> bool {
    match fetched {
        FetchTaskResult::Fetched(FetchOutcome::Modified(response), _) => parsed_feed(
            response.body@,
            response.final_url@,
        ) is Err,
        _ => true,
    }
}

/// A refresh that brings nothing, be it offline, given up or broken, keeps what
/// is there: all articles, all folders, and of each feed its identity, address,
/// name and folder. Where it failed, what tells the server which document is
/// known stays too.
pub proof fn law_refresh_without_news_keeps_the_library(
    library: LibraryView,
    feed: FeedRecordView,
    fetched: FetchTaskResult,
    now: i64,
)
    requires
        brings_nothing(fetched),
    ensures
        ({
            let after = persisted(library, feed, fetched, now).0;
            &&& after.articles == library.articles
            &&& after.folders == library.folders
            &&& after.feeds.len() == library.feeds.len()
            &&& forall|i: int|
                0 <= i < library.feeds.len() ==> {
                    let now_row = (#[trigger] after.feeds[i]).feed;
                    let row = library.feeds[i].feed;
                    &&& now_row.stable_id == row.stable_id
                    &&& now_row.fetch_url == row.fetch_url
                    &&& now_row.display_name == row.display_name
                    &&& now_row.folder_id == row.folder_id
                    &&& (fetched matches FetchTaskResult::Error(..) ==> now_row.etag == row.etag
                        && now_row.last_modified == row.last_modified)
                }
        }),
{
    crate::library::lemma_feed_at(library.feeds, feed.stable_id, 0);
}

/// A feed that was asked for with success counts no failures; each failure in a
/// row counts one more.
pub proof fn law_failures_in_a_row_are_counted(
    library: LibraryView,
    id: Seq<char>,
    note: RefreshView,
)
    requires
        feed_at(library.feeds, id, 0) is Some,
        library.feeds[feed_at(library.feeds, id, 0)->0].feed.consecutive_failures < u32::MAX,
    ensures
        ({
            let i = feed_at(library.feeds, id, 0)->0;
            let before = library.feeds[i].feed.consecutive_failures;
            noted(library, id, note).feeds[i].feed.consecutive_failures == (
            if note.failure_category is None {
                0
            } else {
                before + 1
            })
        }),
{
    crate::library::lemma_feed_at(library.feeds, id, 0);
}

} // verus!
