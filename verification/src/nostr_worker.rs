//! Restoring backups: what was found, what is looked at, and what is merged.

use crate::backup::KeyIdentity;
use crate::history::{snapshot_views, BackupSnapshot, SnapshotView};
use crate::identity::{feed_id, feed_identity};
use crate::library::{has_feed, lemma_feed_at, Library, LibraryView};
use crate::opml::{feed_views, import, imported, OpmlFeed, OpmlFeedView};
use crate::subscriptions::list_taken_in;
use crate::text::{same, view_of};
use vstd::prelude::*;

verus! {

/// The relays that are used where none are named.
pub const DEFAULT_RELAYS: [&'static str; 3] = [
    "wss://relay.damus.io",
    "wss://nos.lol",
    "wss://relay.primal.net",
];

/// How a list in a backup is dated.
pub const BACKUP_DATE: &'static str = "FeedLizard Nostr backup";

/// The relays that are used where none are named.
pub fn default_relays() -> (r: Vec<String>)
    ensures
        r@.len() == 3,
        forall|i: int| 0 <= i < 3 ==> #[trigger] r@[i]@ == DEFAULT_RELAYS@[i]@,
{
    let relays = DEFAULT_RELAYS;
    let mut out: Vec<String> = Vec::new();
    let mut i: usize = 0;
    while i < 3
        invariant
            i <= 3,
            relays == DEFAULT_RELAYS,
            out@.len() == i,
            forall|j: int| 0 <= j < i ==> #[trigger] out@[j]@ == DEFAULT_RELAYS@[j]@,
        decreases 3 - i,
    {
        out.push(relays[i].to_owned());
        i += 1;
    }
    out
}

/// A wish.
#[derive(Debug)]
pub enum Command {
    Status,
    Generate,
    StoreGenerated(String),
    UseExisting(String),
    BackUpNow,
    FindRestore,
    PreviewRestore(String),
    ConfirmRestore,
    RemoveKey,
}

/// An answer.
#[derive(Debug)]
pub enum Event {
    Status(Option<KeyIdentity>),
    Generated { nsec: String, identity: KeyIdentity },
    Configured(KeyIdentity),
    BackupComplete { successful: usize, failed: usize },
    RestoreHistory(Vec<SnapshotSummary>),
    RestorePreview {
        created_at: i64,
        subscriptions: usize,
        folders: usize,
        feeds_to_add: usize,
        feeds_already_present: usize,
    },
    RestoreComplete { added: usize, duplicates: usize },
    KeyRemoved,
    Error(String),
}

/// A backup in a list.
#[derive(Debug, Clone, PartialEq, Eq)]
pub struct SnapshotSummary {
    pub event_id: String,
    pub created_at: i64,
    pub subscriptions: usize,
    pub folders: usize,
}

/// What a [`SnapshotSummary`] holds.
pub struct SummaryView {
    pub event_id: Seq<char>,
    pub created_at: i64,
    pub subscriptions: nat,
    pub folders: nat,
}

impl View for SnapshotSummary {
    type V = SummaryView;

    open spec fn view(&self) -> SummaryView {
        SummaryView {
            event_id: self.event_id@,
            created_at: self.created_at,
            subscriptions: self.subscriptions as nat,
            folders: self.folders as nat,
        }
    }
}

/// What the backups of a list hold.
pub open spec fn summary_views(list: Seq<SnapshotSummary>) -> Seq<SummaryView> {
    Seq::new(list.len(), |i: int| list[i]@)
}

/// Backups in short.
pub open spec fn summaries(history: Seq<SnapshotView>) -> Seq<SummaryView> {
    Seq::new(
        history.len(),
        |i: int|
            SummaryView {
                event_id: history[i].event_id,
                created_at: history[i].created_at,
                subscriptions: history[i].feed_count,
                folders: history[i].folder_count,
            },
    )
}

/// The desk at which a backup is chosen: the backups that were found, and the
/// list of the one that was looked at and may be merged.
#[derive(Debug)]
pub struct RestoreDesk {
    history: Vec<BackupSnapshot>,
    pending: Option<String>,
}

/// What a [`RestoreDesk`] holds.
pub struct DeskView {
    pub history: Seq<SnapshotView>,
    pub pending: Option<Seq<char>>,
}

impl View for RestoreDesk {
    type V = DeskView;

    closed spec fn view(&self) -> DeskView {
        DeskView { history: snapshot_views(self.history@), pending: view_of(self.pending) }
    }
}

/// The backup with an id, the last of a history that has it.
pub open spec fn chosen_backup(history: Seq<SnapshotView>, id: Seq<char>) -> Option<SnapshotView>
    decreases history.len(),
{
    if history.len() == 0 {
        None
    } else if history.last().event_id == id {
        Some(history.last())
    } else {
        chosen_backup(history.drop_last(), id)
    }
}

/// How many feeds of a list a library does not have.
pub open spec fn missing(library: LibraryView, feeds: Seq<OpmlFeedView>) -> nat
    decreases feeds.len(),
{
    if feeds.len() == 0 {
        0
    } else if has_feed(library.feeds, feed_identity(feeds.last().feed_url)) {
        missing(library, feeds.drop_last())
    } else {
        missing(library, feeds.drop_last()) + 1
    }
}

fn count_missing(library: &Library, feeds: &Vec<OpmlFeed>) -> (r: usize)
    ensures
        r == missing(library@, feed_views(feeds@)),
        r <= feeds@.len(),
{
    let ghost all = feed_views(feeds@);
    let mut count: usize = 0;
    let mut i: usize = 0;
    while i < feeds.len()
        invariant
            i <= feeds@.len(),
            all == feed_views(feeds@),
            count <= i,
            count == missing(library@, all.take(i as int)),
        decreases feeds@.len() - i,
    {
        assert(all.take(i + 1).drop_last() == all.take(i as int));
        assert(all.take(i + 1).last() == feeds@[i as int]@);
        let id = feed_id(feeds[i].feed_url.as_str());
        proof {
            lemma_feed_at(library@.feeds, id@, 0);
        }
        match library.find_feed(id.as_str()) {
            Some(at) => {
                assert(library@.feeds[at as int].feed.stable_id == id@);
            },
            None => {
                count += 1;
            },
        }
        i += 1;
    }
    assert(all.take(i as int) == all);
    count
}

/// What looking at a backup tells, and what it leaves to be merged.
pub open spec fn looked_at(desk: DeskView, library: LibraryView, id: Seq<char>) -> Result<
    (SnapshotView, nat, nat),
    Seq<char>,
> {
    match chosen_backup(desk.history, id) {
        None => Err("The selected backup is no longer available"@),
        Some(backup) => match imported(backup.opml) {
            Err(error) => Err(error.message()),
            Ok(list) => Ok(
                (
                    backup,
                    missing(library, list.feeds),
                    (list.feeds.len() - missing(library, list.feeds)) as nat,
                ),
            ),
        },
    }
}

impl RestoreDesk {
    /// A desk with nothing on it.
    pub fn new() -> (r: RestoreDesk)
        ensures
            r@.history.len() == 0,
            r@.pending is None,
    {
        RestoreDesk { history: Vec::new(), pending: None }
    }

    fn find(&self, id: &str) -> (r: Option<usize>)
        ensures
            match r {
                Some(i) => i < self.history@.len() && chosen_backup(self@.history, id@) == Some(
                    self.history@[i as int]@,
                ),
                None => chosen_backup(self@.history, id@) is None,
            },
    {
        let ghost all = self@.history;
        let mut k: usize = self.history.len();
        assert(all.take(k as int) == all);
        while k > 0
            invariant
                k <= self.history@.len(),
                all == self@.history,
                chosen_backup(all, id@) == chosen_backup(all.take(k as int), id@),
            decreases k,
        {
            assert(all.take(k as int).last() == self.history@[k - 1]@);
            assert(all.take(k as int).drop_last() == all.take(k - 1));
            if same(self.history[k - 1].event_id.as_str(), id) {
                return Some(k - 1);
            }
            k -= 1;
        }
        None
    }

    /// Puts the backups that were found on the desk, and tells of them. What was
    /// looked at before may no longer be merged.
    pub fn lay_out(&mut self, history: Vec<BackupSnapshot>) -> (r: Vec<SnapshotSummary>)
        ensures
            final(self)@.history == snapshot_views(history@),
            final(self)@.pending is None,
            summary_views(r@) == summaries(snapshot_views(history@)),
    {
        let mut out: Vec<SnapshotSummary> = Vec::new();
        let mut i: usize = 0;
        while i < history.len()
            invariant
                i <= history@.len(),
                out@.len() == i,
                forall|j: int|
                    0 <= j < i ==> #[trigger] out@[j]@ == summaries(snapshot_views(history@))[j],
            decreases history@.len() - i,
        {
            out.push(
                SnapshotSummary {
                    event_id: history[i].event_id.clone(),
                    created_at: history[i].created_at,
                    subscriptions: history[i].feed_count,
                    folders: history[i].folder_count,
                },
            );
            i += 1;
        }
        assert(summary_views(out@) == summaries(snapshot_views(history@)));
        self.history = history;
        self.pending = None;
        out
    }

    /// Looks at the backup `event_id`: tells what merging it into `library`
    /// would add. The library is not changed.
    pub fn preview(&mut self, event_id: &str, library: &Library) -> (r: Result<Event, String>)
        ensures
            final(self)@.history == old(self)@.history,
            match looked_at(old(self)@, library@, event_id@) {
                Ok((backup, new_feeds, known_feeds)) => {
                    &&& final(self)@.pending == Some(backup.opml)
                    &&& match r {
                        Ok(
                            Event::RestorePreview {
                                created_at,
                                subscriptions,
                                folders,
                                feeds_to_add,
                                feeds_already_present,
                            },
                        ) => created_at == backup.created_at && subscriptions
                            == backup.feed_count && folders == backup.folder_count && feeds_to_add
                            == new_feeds && feeds_already_present == known_feeds,
                        _ => false,
                    }
                },
                Err(text) => final(self)@.pending == old(self)@.pending && match r {
                    Err(error) => error@ == text,
                    Ok(_) => false,
                },
            },
    {
        let at = match self.find(event_id) {
            Some(at) => at,
            None => {
                return Err("The selected backup is no longer available".to_owned());
            },
        };
        match import(self.history[at].opml.as_str()) {
            Ok(list) => {
                let feeds_to_add = count_missing(library, &list.feeds);
                let feeds_already_present: usize = list.feeds.len() - feeds_to_add;
                let created_at = self.history[at].created_at;
                let subscriptions = self.history[at].feed_count;
                let folders = self.history[at].folder_count;
                self.pending = Some(self.history[at].opml.clone());
                Ok(
                    Event::RestorePreview {
                        created_at,
                        subscriptions,
                        folders,
                        feeds_to_add,
                        feeds_already_present,
                    },
                )
            },
            Err(error) => Err(error.message()),
        }
    }

    /// Merges the backup that was looked at into `library`. It can be merged
    /// once.
    pub fn confirm(&mut self, library: &mut Library, now: i64) -> (r: Result<Event, String>)
        requires
            old(library)@.wf(),
        ensures
            final(library)@.wf(),
            final(self)@.history == old(self)@.history,
            final(self)@.pending is None,
            match old(self)@.pending {
                None => final(library)@ == old(library)@ && match r {
                    Err(error) => error@ == "No validated restore is pending"@,
                    Ok(_) => false,
                },
                Some(opml) => match list_taken_in(old(library)@, opml, now) {
                    Ok((state, _)) => final(library)@ == state.library && match r {
                        Ok(Event::RestoreComplete { added, duplicates }) => added == state.added
                            && duplicates == state.known,
                        _ => false,
                    },
                    Err(error) => final(library)@ == old(library)@ && match r {
                        Err(text) => text@ == error.message(),
                        Ok(_) => false,
                    },
                },
            },
    {
        let opml = match &self.pending {
            Some(opml) => opml.clone(),
            None => {
                return Err("No validated restore is pending".to_owned());
            },
        };
        self.pending = None;
        match library.import_opml(opml.as_str(), now) {
            Ok(stats) => Ok(
                Event::RestoreComplete { added: stats.feeds_added, duplicates: stats.duplicates },
            ),
            Err(error) => Err(error.message()),
        }
    }

    /// Clears the desk.
    pub fn clear(&mut self)
        ensures
            final(self)@.history.len() == 0,
            final(self)@.pending is None,
    {
        self.history = Vec::new();
        self.pending = None;
    }
}

/// Looking at a backup counts each of its feeds once: as new, or as known.
pub proof fn law_preview_counts_every_feed(library: LibraryView, feeds: Seq<OpmlFeedView>)
    ensures
        missing(library, feeds) <= feeds.len(),
    decreases feeds.len(),
{
    if feeds.len() > 0 {
        law_preview_counts_every_feed(library, feeds.drop_last());
    }
}

} // verus!
