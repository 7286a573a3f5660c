//! The backups that relays hold, and the relays that are asked.

use crate::backup::{
    backup_failure, decrypt_backup_event, previewed, BackupError, BackupErrorView, BackupPreview,
    PreviewView, MAX_CONFIGURED_RELAYS, MAX_HISTORY_CANDIDATES, MAX_RELAY_EVENTS,
};
use crate::nostr::{authentic, verify_event, EventView, SignedEvent};
use crate::order::{comes_before, text_before};
use crate::parser::copied_list;
use crate::sorting::{
    in_key_order, key_before, key_views, law_ordered_is_complete, law_ordered_is_sorted, place_list,
    sort_by_keys, KeyView, SortKey,
};
use crate::text::{begins, lower, lowered, same, starts_with, trim, trimmed, views};
use crate::unique::{firsts, is_first, lemma_firsts_step, mark_firsts};
use vstd::prelude::*;

verus! {

/// An event, and the relay that it came from.
#[derive(Debug, PartialEq, Eq)]
pub struct RelayEvent {
    pub relay: String,
    pub event: SignedEvent,
}

/// What a [`RelayEvent`] holds.
pub struct RelayView {
    pub relay: Seq<char>,
    pub event: EventView,
}

impl View for RelayEvent {
    type V = RelayView;

    open spec fn view(&self) -> RelayView {
        RelayView { relay: self.relay@, event: self.event@ }
    }
}

impl Clone for RelayEvent {
    fn clone(&self) -> (r: Self)
        ensures
            r@ == self@,
    {
        RelayEvent { relay: self.relay.clone(), event: self.event.clone() }
    }
}

/// What the events of a list hold.
pub open spec fn relay_views(list: Seq<RelayEvent>) -> Seq<RelayView> {
    Seq::new(list.len(), |i: int| list[i]@)
}

/// A backup that was found: which event it is, when it was made, the list in it
/// and its size, and the relays that hold it.
#[derive(Debug, PartialEq, Eq)]
pub struct BackupSnapshot {
    pub event_id: String,
    pub created_at: i64,
    pub opml: String,
    pub feed_count: usize,
    pub folder_count: usize,
    pub source_relays: Vec<String>,
}

/// What a [`BackupSnapshot`] holds.
pub struct SnapshotView {
    pub event_id: Seq<char>,
    pub created_at: i64,
    pub opml: Seq<char>,
    pub feed_count: nat,
    pub folder_count: nat,
    pub source_relays: Seq<Seq<char>>,
}

impl View for BackupSnapshot {
    type V = SnapshotView;

    open spec fn view(&self) -> SnapshotView {
        SnapshotView {
            event_id: self.event_id@,
            created_at: self.created_at,
            opml: self.opml@,
            feed_count: self.feed_count as nat,
            folder_count: self.folder_count as nat,
            source_relays: views(self.source_relays@),
        }
    }
}

impl Clone for BackupSnapshot {
    fn clone(&self) -> (r: Self)
        ensures
            r@ == self@,
    {
        BackupSnapshot {
            event_id: self.event_id.clone(),
            created_at: self.created_at,
            opml: self.opml.clone(),
            feed_count: self.feed_count,
            folder_count: self.folder_count,
            source_relays: copied_list(&self.source_relays),
        }
    }
}

/// What the snapshots of a list hold.
pub open spec fn snapshot_views(list: Seq<BackupSnapshot>) -> Seq<SnapshotView> {
    Seq::new(list.len(), |i: int| list[i]@)
}

/// What came of publishing a backup.
#[derive(Debug, Clone, PartialEq, Eq)]
pub struct PublishResult {
    pub event_id: String,
    pub successful_relays: usize,
    pub failed_relays: usize,
}

/// Some of the snapshots, and whether there are older ones.
#[derive(Debug, PartialEq, Eq)]
pub struct HistoryPage {
    pub snapshots: Vec<BackupSnapshot>,
    pub has_older: bool,
}

/// What is told of publishing a backup that `successful` relays took and
/// `failed` did not: at least one has to take it.
pub fn published(event_id: String, successful: usize, failed: usize) -> (r: Result<
    PublishResult,
    BackupError,
>)
    ensures
        if successful == 0 {
            backup_failure(r) == Some(BackupErrorView::PublishFailed)
        } else {
            r is Ok && r->Ok_0.event_id == event_id && r->Ok_0.successful_relays == successful
                && r->Ok_0.failed_relays == failed
        },
{
    if successful == 0 {
        Err(BackupError::PublishFailed)
    } else {
        Ok(PublishResult { event_id, successful_relays: successful, failed_relays: failed })
    }
}

/// How many snapshots a page shows where `limit` are wanted: one at least,
/// twenty at most.
pub open spec fn page_size(limit: usize) -> int {
    if limit < 1 {
        1
    } else if limit > 20 {
        20
    } else {
        limit as int
    }
}

/// Where a page ends that starts at `offset`.
pub open spec fn page_end(count: nat, offset: usize, limit: usize) -> int {
    if offset + page_size(limit) < count {
        offset + page_size(limit)
    } else {
        count as int
    }
}

/// The snapshots of a page that starts at `offset`.
pub open spec fn page_of(history: Seq<SnapshotView>, offset: usize, limit: usize) -> Seq<
    SnapshotView,
> {
    if offset >= history.len() {
        Seq::empty()
    } else {
        history.subrange(offset as int, page_end(history.len(), offset, limit))
    }
}

/// The page of `history` that starts at `offset`, with at most `limit`
/// snapshots.
pub fn history_page(history: &Vec<BackupSnapshot>, offset: usize, limit: usize) -> (r: HistoryPage)
    ensures
        snapshot_views(r.snapshots@) == page_of(snapshot_views(history@), offset, limit),
        r.has_older == (offset + r.snapshots@.len() < history@.len()),
{
    let ghost all = snapshot_views(history@);
    let size: usize = if limit < 1 {
        1
    } else if limit > 20 {
        20
    } else {
        limit
    };
    let count: usize = history.len();
    let mut snapshots: Vec<BackupSnapshot> = Vec::new();
    if offset >= count {
        assert(snapshot_views(snapshots@) == Seq::<SnapshotView>::empty());
        return HistoryPage { snapshots, has_older: false };
    }
    let end: usize = if count - offset > size {
        offset + size
    } else {
        count
    };
    let mut i: usize = offset;
    while i < end
        invariant
            offset <= i <= end <= history@.len(),
            all == snapshot_views(history@),
            snapshots@.len() == i - offset,
            forall|j: int| 0 <= j < i - offset ==> #[trigger] snapshots@[j]@ == all[offset + j],
        decreases end - i,
    {
        snapshots.push(history[i].clone());
        i += 1;
    }
    assert(snapshot_views(snapshots@) == all.subrange(offset as int, end as int));
    HistoryPage { has_older: end < count, snapshots }
}

/// Pages that follow one another show every snapshot once, in order.
pub proof fn law_history_pages_join(history: Seq<SnapshotView>, offset: usize, limit: usize)
    requires
        offset + page_size(limit) <= usize::MAX,
    ensures
        offset < history.len() ==> page_of(history, offset, limit) + history.skip(
            page_end(history.len(), offset, limit),
        ) == history.skip(offset as int),
        page_of(history, offset, limit).len() <= page_size(limit),
{
}

/// Where a text goes among texts in order: behind all that do not come after
/// it.
pub open spec fn text_place(sorted: Seq<Seq<char>>, text: Seq<char>) -> int
    decreases sorted.len(),
{
    if sorted.len() == 0 {
        0
    } else if text_before(text, sorted.last()) {
        text_place(sorted.drop_last(), text)
    } else {
        sorted.len() as int
    }
}

/// Texts in order with one more, if it is not there.
pub open spec fn with_text(sorted: Seq<Seq<char>>, text: Seq<char>) -> Seq<Seq<char>> {
    if sorted.contains(text) {
        sorted
    } else {
        sorted.insert(text_place(sorted, text), text)
    }
}

/// The relays that hold the event with an id, in order, each once.
pub open spec fn relays_of(list: Seq<RelayView>, id: Seq<char>) -> Seq<Seq<char>>
    decreases list.len(),
{
    if list.len() == 0 {
        Seq::empty()
    } else if lower(list.last().event.id) == id {
        with_text(relays_of(list.drop_last(), id), list.last().relay)
    } else {
        relays_of(list.drop_last(), id)
    }
}

fn add_text(sorted: &mut Vec<String>, text: &str)
    ensures
        views(final(sorted)@) == with_text(views(old(sorted)@), text@),
{
    let ghost before = views(sorted@);
    let count: usize = sorted.len();
    let mut i: usize = 0;
    while i < count
        invariant
            i <= count == sorted@.len(),
            before == views(sorted@),
            before == views(old(sorted)@),
            forall|j: int| 0 <= j < i ==> #[trigger] before[j] != text@,
        decreases count - i,
    {
        assert(before[i as int] == sorted@[i as int]@);
        if same(sorted[i].as_str(), text) {
            return;
        }
        i += 1;
    }
    assert(!before.contains(text@));
    let mut k: usize = count;
    assert(before.take(k as int) == before);
    while k > 0 && comes_before(text, sorted[k - 1].as_str())
        invariant
            k <= count == sorted@.len(),
            before == views(sorted@),
            text_place(before, text@) == text_place(before.take(k as int), text@),
        decreases k,
    {
        assert(before.take(k as int).last() == sorted@[k - 1]@);
        assert(before.take(k as int).drop_last() == before.take(k - 1));
        k -= 1;
    }
    assert(k > 0 ==> before.take(k as int).last() == sorted@[k - 1]@);
    sorted.insert(k, text.to_owned());
    assert(views(sorted@) == before.insert(k as int, text@));
}

/// The ids of events, in small letters.
pub open spec fn event_ids(list: Seq<RelayView>) -> Seq<Seq<char>> {
    Seq::new(list.len(), |i: int| lower(list[i].event.id))
}

/// The first numbers.
pub open spec fn numbers(count: nat) -> Seq<int> {
    Seq::new(count, |i: int| i)
}

/// The places at which an id first stands.
pub open spec fn first_places(list: Seq<RelayView>) -> Seq<int> {
    firsts(numbers(list.len()), event_ids(list))
}

/// What an event is ordered by: the newest comes first, and of events of one
/// time the one with the smaller id.
pub open spec fn event_key(event: EventView) -> KeyView {
    KeyView {
        group: None,
        rank: (i64::MAX - event.created_at) as i64,
        name: Seq::empty(),
        id: 0,
        text_id: lower(event.id),
    }
}

/// What the events at places are ordered by.
pub open spec fn event_keys(list: Seq<RelayView>, places: Seq<int>) -> Seq<KeyView> {
    Seq::new(places.len(), |i: int| event_key(list[places[i]].event))
}

/// The places of the events that are looked into: each once, the newest first,
/// a hundred at most.
pub open spec fn chosen(list: Seq<RelayView>) -> Seq<int> {
    let places = first_places(list);
    let order = in_key_order(event_keys(list, places));
    let shown = if order.len() > MAX_HISTORY_CANDIDATES {
        order.take(MAX_HISTORY_CANDIDATES as int)
    } else {
        order
    };
    Seq::new(shown.len(), |i: int| places[shown[i]])
}

/// The snapshot in an event of a list, if it is a backup.
pub open spec fn snapshot_in(nsec: Seq<char>, list: Seq<RelayView>, place: int) -> Option<
    SnapshotView,
> {
    let event = list[place].event;
    match previewed(nsec, event) {
        Ok(preview) => Some(
            SnapshotView {
                event_id: lower(event.id),
                created_at: preview.created_at,
                opml: preview.opml,
                feed_count: preview.feed_count,
                folder_count: preview.folder_count,
                source_relays: relays_of(list, lower(event.id)),
            },
        ),
        Err(_) => None,
    }
}

/// The snapshots in the events at places.
pub open spec fn snapshots_in(nsec: Seq<char>, list: Seq<RelayView>, places: Seq<int>) -> Seq<
    SnapshotView,
>
    decreases places.len(),
{
    if places.len() == 0 {
        Seq::empty()
    } else {
        let before = snapshots_in(nsec, list, places.drop_last());
        match snapshot_in(nsec, list, places.last()) {
            Some(snapshot) => before.push(snapshot),
            None => before,
        }
    }
}

/// The events of a list that are considered.
pub open spec fn considered(list: Seq<RelayView>) -> Seq<RelayView> {
    if list.len() > MAX_RELAY_EVENTS {
        list.take(MAX_RELAY_EVENTS as int)
    } else {
        list
    }
}

/// The events of a list that are backups of the owner of a secret key.
pub open spec fn readable(nsec: Seq<char>, list: Seq<RelayView>) -> Seq<RelayView>
    decreases list.len(),
{
    if list.len() == 0 {
        Seq::empty()
    } else {
        let before = readable(nsec, list.drop_last());
        if previewed(nsec, list.last().event) is Ok {
            before.push(list.last())
        } else {
            before
        }
    }
}

/// The events of a list whose ids and signatures are right, or those of which
/// that does not hold.
pub open spec fn vouched(list: Seq<RelayView>, right: bool) -> Seq<RelayView>
    decreases list.len(),
{
    if list.len() == 0 {
        Seq::empty()
    } else {
        let before = vouched(list.drop_last(), right);
        if authentic(list.last().event) == right {
            before.push(list.last())
        } else {
            before
        }
    }
}

/// The ids of the events of a list that are looked into, a hundred at most: those
/// of the newest events. Of events with one id the first one counts whose id and
/// signature are right, if there is one.
pub open spec fn candidate_ids(list: Seq<RelayView>) -> Seq<Seq<char>> {
    let all = vouched(list, true) + vouched(list, false);
    let places = chosen(all);
    Seq::new(places.len(), |i: int| lower(all[places[i]].event.id))
}

/// The events of a list that have one of some ids.
pub open spec fn having(list: Seq<RelayView>, ids: Seq<Seq<char>>) -> Seq<RelayView>
    decreases list.len(),
{
    if list.len() == 0 {
        Seq::empty()
    } else {
        let before = having(list.drop_last(), ids);
        if ids.contains(lower(list.last().event.id)) {
            before.push(list.last())
        } else {
            before
        }
    }
}

/// The events that are decrypted: those considered that have one of the ids that
/// are looked into.
pub open spec fn candidates(list: Seq<RelayView>) -> Seq<RelayView> {
    having(considered(list), candidate_ids(considered(list)))
}

/// The backups of the owner of a secret key among events. Each event is judged
/// on its own.
pub open spec fn history_of(nsec: Seq<char>, list: Seq<RelayView>) -> Seq<SnapshotView> {
    let found = readable(nsec, candidates(list));
    snapshots_in(nsec, found, chosen(found))
}

/// The first `count` events, those first whose ids and signatures are right.
fn vouched_first(events: &Vec<RelayEvent>, count: usize) -> (r: Vec<RelayEvent>)
    requires
        count <= events@.len(),
    ensures
        ({
            let list = relay_views(events@).take(count as int);
            relay_views(r@) == vouched(list, true) + vouched(list, false)
        }),
{
    let ghost all = relay_views(events@);
    let mut right: Vec<RelayEvent> = Vec::new();
    let mut wrong: Vec<RelayEvent> = Vec::new();
    let mut i: usize = 0;
    assert(relay_views(right@) == Seq::<RelayView>::empty());
    assert(relay_views(wrong@) == Seq::<RelayView>::empty());
    while i < count
        invariant
            i <= count <= events@.len(),
            all == relay_views(events@),
            relay_views(right@) == vouched(all.take(i as int), true),
            relay_views(wrong@) == vouched(all.take(i as int), false),
        decreases count - i,
    {
        assert(all.take(i + 1).drop_last() == all.take(i as int));
        assert(all.take(i + 1).last() == events@[i as int]@);
        let ghost before = relay_views(right@);
        let ghost others = relay_views(wrong@);
        if verify_event(&events[i].event).is_some() {
            right.push(events[i].clone());
            assert(relay_views(right@) == before.push(events@[i as int]@));
        } else {
            wrong.push(events[i].clone());
            assert(relay_views(wrong@) == others.push(events@[i as int]@));
        }
        i += 1;
    }
    let ghost first = relay_views(right@);
    let ghost rest = relay_views(wrong@);
    right.append(&mut wrong);
    assert(relay_views(right@) == first + rest);
    right
}

fn has_text(list: &Vec<String>, text: &str) -> (r: bool)
    ensures
        r == views(list@).contains(text@),
{
    let ghost all = views(list@);
    let mut i: usize = 0;
    while i < list.len()
        invariant
            i <= list@.len(),
            all == views(list@),
            forall|j: int| 0 <= j < i ==> #[trigger] all[j] != text@,
        decreases list@.len() - i,
    {
        assert(all[i as int] == list@[i as int]@);
        if same(list[i].as_str(), text) {
            return true;
        }
        i += 1;
    }
    false
}

/// The events among the first `count` that are decrypted.
fn find_candidates(events: &Vec<RelayEvent>, count: usize) -> (r: Vec<RelayEvent>)
    requires
        count <= events@.len(),
    ensures
        ({
            let list = relay_views(events@).take(count as int);
            relay_views(r@) == having(list, candidate_ids(list))
        }),
{
    let ghost list = relay_views(events@).take(count as int);
    let ordered = vouched_first(events, count);
    let ghost all = relay_views(ordered@);
    assert(all.take(all.len() as int) == all);
    let places = newest_first(&ordered, ordered.len());
    let mut ids: Vec<String> = Vec::new();
    let mut k: usize = 0;
    while k < places.len()
        invariant
            k <= places@.len(),
            all == relay_views(ordered@),
            forall|j: int| 0 <= j < places@.len() ==> #[trigger] places@[j] < ordered@.len(),
            ids@.len() == k,
            forall|j: int|
                0 <= j < k ==> #[trigger] ids@[j]@ == lower(all[places@[j] as int].event.id),
        decreases places@.len() - k,
    {
        assert(all[places@[k as int] as int] == ordered@[places@[k as int] as int]@);
        ids.push(lowered(ordered[places[k]].event.id.as_str()));
        k += 1;
    }
    let ghost wanted = candidate_ids(list);
    assert(views(ids@) == wanted) by {
        assert forall|j: int| 0 <= j < wanted.len() implies views(ids@)[j] == #[trigger] wanted[j] by {
            assert(chosen(all)[j] == places@[j] as int);
        }
    }
    let mut out: Vec<RelayEvent> = Vec::new();
    let mut i: usize = 0;
    assert(relay_views(out@) == Seq::<RelayView>::empty());
    while i < count
        invariant
            i <= count <= events@.len(),
            list == relay_views(events@).take(count as int),
            views(ids@) == wanted,
            relay_views(out@) == having(list.take(i as int), wanted),
        decreases count - i,
    {
        assert(list.take(i + 1).drop_last() == list.take(i as int));
        assert(list.take(i + 1).last() == events@[i as int]@);
        let ghost before = relay_views(out@);
        let id = lowered(events[i].event.id.as_str());
        if has_text(&ids, id.as_str()) {
            out.push(events[i].clone());
            assert(relay_views(out@) == before.push(events@[i as int]@));
        }
        i += 1;
    }
    assert(list.take(count as int) == list);
    out
}

/// The events among the first `count` that are backups, and what each of them
/// holds.
fn read_events(nsec: &str, events: &Vec<RelayEvent>, count: usize) -> (r: (
    Vec<RelayEvent>,
    Vec<BackupPreview>,
))
    requires
        count <= events@.len(),
    ensures
        relay_views(r.0@) == readable(nsec@, relay_views(events@).take(count as int)),
        r.1@.len() == r.0@.len(),
        forall|j: int|
            0 <= j < r.1@.len() ==> previewed(nsec@, r.0@[j]@.event) == Ok::<
                PreviewView,
                BackupErrorView,
            >((#[trigger] r.1@[j])@),
{
    let ghost all = relay_views(events@);
    let mut found: Vec<RelayEvent> = Vec::new();
    let mut previews: Vec<BackupPreview> = Vec::new();
    let mut i: usize = 0;
    assert(relay_views(found@) == Seq::<RelayView>::empty());
    while i < count
        invariant
            i <= count <= events@.len(),
            all == relay_views(events@),
            relay_views(found@) == readable(nsec@, all.take(i as int)),
            previews@.len() == found@.len(),
            forall|j: int|
                0 <= j < previews@.len() ==> previewed(nsec@, found@[j]@.event) == Ok::<
                    PreviewView,
                    BackupErrorView,
                >((#[trigger] previews@[j])@),
        decreases count - i,
    {
        assert(all.take(i + 1).drop_last() == all.take(i as int));
        assert(all.take(i + 1).last() == events@[i as int]@);
        let ghost before = relay_views(found@);
        if let Ok(preview) = decrypt_backup_event(nsec, &events[i].event) {
            found.push(events[i].clone());
            previews.push(preview);
            assert(relay_views(found@) == before.push(events@[i as int]@));
        }
        i += 1;
    }
    (found, previews)
}

fn holders(events: &Vec<RelayEvent>, count: usize, id: &str) -> (r: Vec<String>)
    requires
        count <= events@.len(),
    ensures
        views(r@) == relays_of(relay_views(events@).take(count as int), id@),
{
    let ghost all = relay_views(events@);
    let mut out: Vec<String> = Vec::new();
    let mut i: usize = 0;
    assert(views(out@) == Seq::<Seq<char>>::empty());
    while i < count
        invariant
            i <= count <= events@.len(),
            all == relay_views(events@),
            views(out@) == relays_of(all.take(i as int), id@),
        decreases count - i,
    {
        assert(all.take(i + 1).drop_last() == all.take(i as int));
        assert(all.take(i + 1).last() == events@[i as int]@);
        let own = lowered(events[i].event.id.as_str());
        if same(own.as_str(), id) {
            add_text(&mut out, events[i].relay.as_str());
        }
        i += 1;
    }
    out
}

fn newest_first(events: &Vec<RelayEvent>, count: usize) -> (r: Vec<usize>)
    requires
        count <= events@.len(),
    ensures
        r@.len() <= MAX_HISTORY_CANDIDATES,
        place_list(r@) == chosen(relay_views(events@).take(count as int)),
        forall|j: int| 0 <= j < r@.len() ==> #[trigger] r@[j] < count,
{
    let ghost list = relay_views(events@).take(count as int);
    let mut ids: Vec<String> = Vec::new();
    let mut i: usize = 0;
    while i < count
        invariant
            i <= count <= events@.len(),
            list == relay_views(events@).take(count as int),
            ids@.len() == i,
            forall|j: int| 0 <= j < i ==> #[trigger] ids@[j]@ == lower(list[j].event.id),
        decreases count - i,
    {
        assert(list[i as int] == events@[i as int]@);
        ids.push(lowered(events[i].event.id.as_str()));
        i += 1;
    }
    let ghost keys_of = event_ids(list);
    assert(views(ids@) == keys_of);
    let marks = mark_firsts(&ids);
    let ghost all_numbers = numbers(count as nat);
    let mut places: Vec<usize> = Vec::new();
    let mut keys: Vec<SortKey> = Vec::new();
    let mut k: usize = 0;
    assert(place_list(places@) == firsts(all_numbers.take(0), keys_of.take(0)));
    while k < count
        invariant
            k <= count == marks@.len(),
            count <= events@.len(),
            list == relay_views(events@).take(count as int),
            keys_of == event_ids(list),
            all_numbers == numbers(count as nat),
            views(ids@) == keys_of,
            forall|j: int| 0 <= j < marks@.len() ==> #[trigger] marks@[j] == is_first(keys_of, j),
            place_list(places@) == firsts(all_numbers.take(k as int), keys_of.take(k as int)),
            forall|j: int| 0 <= j < places@.len() ==> #[trigger] places@[j] < count,
            keys@.len() == places@.len(),
            forall|j: int|
                0 <= j < keys@.len() ==> #[trigger] keys@[j]@ == event_key(
                    list[places@[j] as int].event,
                ),
        decreases count - k,
    {
        proof {
            lemma_firsts_step(all_numbers, keys_of, k as int);
        }
        let ghost before = place_list(places@);
        if marks[k] {
            assert(list[k as int] == events@[k as int]@);
            let created_at = events[k].event.created_at;
            let key = SortKey {
                group: None,
                rank: (i64::MAX as i128 - created_at as i128) as i64,
                name: String::new(),
                id: 0,
                text_id: lowered(events[k].event.id.as_str()),
            };
            assert(key@ == event_key(list[k as int].event));
            places.push(k);
            keys.push(key);
            assert(place_list(places@) == before.push(k as int));
        }
        k += 1;
    }
    assert(all_numbers.take(count as int) == all_numbers);
    assert(keys_of.take(count as int) == keys_of);
    assert(key_views(keys@) == event_keys(list, first_places(list)));
    let order = sort_by_keys(&keys);
    let ghost wanted = in_key_order(event_keys(list, first_places(list)));
    let end: usize = if order.len() > MAX_HISTORY_CANDIDATES {
        MAX_HISTORY_CANDIDATES
    } else {
        order.len()
    };
    let mut out: Vec<usize> = Vec::new();
    let mut m: usize = 0;
    while m < end
        invariant
            m <= end <= order@.len(),
            end <= MAX_HISTORY_CANDIDATES,
            places@.len() == keys@.len(),
            place_list(order@) == wanted,
            place_list(places@) == first_places(list),
            forall|j: int| 0 <= j < order@.len() ==> #[trigger] order@[j] < keys@.len(),
            forall|j: int| 0 <= j < places@.len() ==> #[trigger] places@[j] < count,
            out@.len() == m,
            forall|j: int|
                0 <= j < m ==> #[trigger] out@[j] as int == first_places(list)[wanted[j]],
            forall|j: int| 0 <= j < m ==> #[trigger] out@[j] < count,
        decreases end - m,
    {
        let at = order[m];
        assert(wanted[m as int] == at as int);
        assert(first_places(list)[at as int] == places@[at as int] as int);
        out.push(places[at]);
        m += 1;
    }
    assert(place_list(out@) == chosen(list));
    out
}

/// The backups of the owner of the secret key `nsec` among the events that
/// relays gave: the newest first, each once, with all relays that hold it. What
/// is no backup is passed over, and hides none that has its id. Events with the
/// newest hundred ids are looked into.
pub fn validated_history(nsec: &str, relay_events: &Vec<RelayEvent>) -> (r: Result<
    Vec<BackupSnapshot>,
    BackupError,
>)
    ensures
        ({
            let history = history_of(nsec@, relay_views(relay_events@));
            if history.len() == 0 {
                backup_failure(r) == Some(BackupErrorView::NotFound)
            } else {
                r is Ok && snapshot_views(r->Ok_0@) == history
            }
        }),
{
    let count: usize = if relay_events.len() > MAX_RELAY_EVENTS {
        MAX_RELAY_EVENTS
    } else {
        relay_events.len()
    };
    assert(relay_views(relay_events@).take(count as int) == considered(relay_views(relay_events@)));
    let few = find_candidates(relay_events, count);
    assert(relay_views(few@).take(few@.len() as int) == relay_views(few@));
    let (found, previews) = read_events(nsec, &few, few.len());
    let ghost list = relay_views(found@);
    assert(list.take(list.len() as int) == list);
    let places = newest_first(&found, found.len());
    let ghost wanted = place_list(places@);
    let mut history: Vec<BackupSnapshot> = Vec::new();
    let mut i: usize = 0;
    assert(snapshot_views(history@) == Seq::<SnapshotView>::empty());
    while i < places.len()
        invariant
            i <= places@.len(),
            list == relay_views(found@),
            previews@.len() == found@.len(),
            forall|j: int|
                0 <= j < previews@.len() ==> previewed(nsec@, found@[j]@.event) == Ok::<
                    PreviewView,
                    BackupErrorView,
                >((#[trigger] previews@[j])@),
            wanted == place_list(places@),
            forall|j: int| 0 <= j < places@.len() ==> #[trigger] places@[j] < found@.len(),
            snapshot_views(history@) == snapshots_in(nsec@, list, wanted.take(i as int)),
        decreases places@.len() - i,
    {
        assert(wanted.take(i + 1).drop_last() == wanted.take(i as int));
        assert(wanted.take(i + 1).last() == places@[i as int] as int);
        let place = places[i];
        let ghost before = snapshot_views(history@);
        assert(list[place as int] == found@[place as int]@);
        assert(list.take(list.len() as int) == list);
        let preview = &previews[place];
        assert(preview@ == previews@[place as int]@);
        let event_id = lowered(found[place].event.id.as_str());
        let source_relays = holders(&found, found.len(), event_id.as_str());
        let snapshot = BackupSnapshot {
            event_id,
            created_at: preview.created_at,
            opml: preview.opml.clone(),
            feed_count: preview.feed_count,
            folder_count: preview.folder_count,
            source_relays,
        };
        history.push(snapshot);
        assert(snapshot_views(history@) == before.push(snapshot@));
        i += 1;
    }
    assert(wanted.take(i as int) == wanted);
    if history.len() == 0 {
        Err(BackupError::NotFound)
    } else {
        Ok(history)
    }
}

/// Every snapshot comes from one of the places.
proof fn lemma_snapshot_source(nsec: Seq<char>, list: Seq<RelayView>, places: Seq<int>, i: int)
    requires
        0 <= i < snapshots_in(nsec, list, places).len(),
    ensures
        exists|k: int|
            0 <= k < places.len() && snapshot_in(nsec, list, #[trigger] places[k]) == Some(
                snapshots_in(nsec, list, places)[i],
            ),
    decreases places.len(),
{
    let shorter = places.drop_last();
    let before = snapshots_in(nsec, list, shorter);
    if i < before.len() {
        lemma_snapshot_source(nsec, list, shorter, i);
        let k = choose|k: int|
            0 <= k < shorter.len() && snapshot_in(nsec, list, #[trigger] shorter[k]) == Some(
                before[i],
            );
        assert(places[k] == shorter[k]);
    } else {
        assert(places[places.len() - 1] == places.last());
    }
}

/// An event comes before another one, with another id.
spec fn comes_earlier(a: EventView, b: EventView) -> bool {
    key_before(event_key(a), event_key(b)) && lower(a.id) != lower(b.id)
}

/// The events at places stand in order: each comes before all behind it.
spec fn stand_in_order(list: Seq<RelayView>, places: Seq<int>) -> bool {
    forall|i: int, j: int|
        0 <= i < j < places.len() ==> comes_earlier(
            list[#[trigger] places[i]].event,
            list[#[trigger] places[j]].event,
        )
}

/// A snapshot comes before another one, with another id: it is newer, or of the
/// same time with a smaller id.
pub open spec fn shown_before(a: SnapshotView, b: SnapshotView) -> bool {
    a.event_id != b.event_id && (a.created_at > b.created_at || (a.created_at == b.created_at
        && text_before(a.event_id, b.event_id)))
}

proof fn lemma_snapshots_in_order(nsec: Seq<char>, list: Seq<RelayView>, places: Seq<int>)
    requires
        stand_in_order(list, places),
    ensures
        forall|i: int, j: int|
            0 <= i < j < snapshots_in(nsec, list, places).len() ==> shown_before(
                #[trigger] snapshots_in(nsec, list, places)[i],
                #[trigger] snapshots_in(nsec, list, places)[j],
            ),
    decreases places.len(),
{
    if places.len() > 0 {
        let shorter = places.drop_last();
        let before = snapshots_in(nsec, list, shorter);
        let all = snapshots_in(nsec, list, places);
        assert(stand_in_order(list, shorter)) by {
            assert forall|i: int, j: int| 0 <= i < j < shorter.len() implies comes_earlier(
                list[#[trigger] shorter[i]].event,
                list[#[trigger] shorter[j]].event,
            ) by {
                assert(shorter[i] == places[i] && shorter[j] == places[j]);
            }
        }
        lemma_snapshots_in_order(nsec, list, shorter);
        assert forall|i: int, j: int| 0 <= i < j < all.len() implies shown_before(
            #[trigger] all[i],
            #[trigger] all[j],
        ) by {
            if j < before.len() {
                assert(all[i] == before[i] && all[j] == before[j]);
            } else {
                assert(all[i] == before[i]);
                lemma_snapshot_source(nsec, list, shorter, i);
                let k = choose|k: int|
                    0 <= k < shorter.len() && snapshot_in(nsec, list, #[trigger] shorter[k])
                        == Some(before[i]);
                assert(places[k] == shorter[k]);
                let last = places.len() - 1;
                let a = list[places[k]].event;
                let b = list[places[last]].event;
                assert(comes_earlier(a, b));
                assert(i64::MIN <= i64::MAX - a.created_at <= i64::MAX);
                assert(i64::MIN <= i64::MAX - b.created_at <= i64::MAX);
            }
        }
    }
}

/// The events that are looked into stand in order.
proof fn lemma_chosen_in_order(list: Seq<RelayView>)
    ensures
        stand_in_order(list, chosen(list)),
        chosen(list).len() <= MAX_HISTORY_CANDIDATES,
{
    let places = first_places(list);
    let keys = event_keys(list, places);
    let order = in_key_order(keys);
    let ids = event_ids(list);
    law_ordered_is_complete(keys, keys.len());
    law_ordered_is_sorted(keys, keys.len());
    lemma_first_places(list, list.len() as int);
    assert(numbers(list.len()).take(list.len() as int) == numbers(list.len()));
    assert(ids.take(list.len() as int) == ids);
    let all = chosen(list);
    assert forall|i: int, j: int| 0 <= i < j < all.len() implies comes_earlier(
        list[#[trigger] all[i]].event,
        list[#[trigger] all[j]].event,
    ) by {
        let a = order[i];
        let b = order[j];
        assert(all[i] == places[a] && all[j] == places[b]);
        assert(!key_before(keys[b], keys[a]));
        assert(a != b);
        assert(ids[places[a]] != ids[places[b]]);
        assert(keys[a].text_id != keys[b].text_id);
        crate::sorting::lemma_key_order(keys[a], keys[b]);
    }
}

/// The places at which an id first stands are places of the list, and their
/// ids differ.
proof fn lemma_first_places(list: Seq<RelayView>, n: int)
    requires
        0 <= n <= list.len(),
    ensures
        ({
            let places = firsts(numbers(list.len()).take(n), event_ids(list).take(n));
            &&& forall|a: int| 0 <= a < places.len() ==> 0 <= #[trigger] places[a] < n
            &&& forall|a: int, b: int|
                0 <= a < places.len() && 0 <= b < places.len() && a != b ==> event_ids(
                    list,
                )[#[trigger] places[a]] != event_ids(list)[#[trigger] places[b]]
        }),
    decreases n,
{
    if n > 0 {
        lemma_first_places(list, n - 1);
        lemma_firsts_step(numbers(list.len()), event_ids(list), n - 1);
        let ids = event_ids(list);
        let before = firsts(numbers(list.len()).take(n - 1), ids.take(n - 1));
        let places = firsts(numbers(list.len()).take(n), ids.take(n));
        if is_first(ids, n - 1) {
            assert(places == before.push(n - 1));
            assert forall|a: int, b: int|
                0 <= a < places.len() && 0 <= b < places.len() && a != b implies ids[
                #[trigger] places[a]] != ids[#[trigger] places[b]] by {
                if a < before.len() {
                    assert(places[a] == before[a]);
                }
                if b < before.len() {
                    assert(places[b] == before[b]);
                }
                if a < before.len() && b < before.len() {
                    assert(ids[before[a]] != ids[before[b]]);
                } else if a < before.len() {
                    assert(ids[places[a]] != ids[n - 1]);
                } else {
                    assert(ids[places[b]] != ids[n - 1]);
                }
            }
        } else {
            assert(places == before);
        }
    }
}

/// The history shows the newest backup first, and of backups of one time the
/// one with the smaller id. No event stands in it twice, and not more than a
/// hundred do.
pub proof fn law_history_is_newest_first(nsec: Seq<char>, list: Seq<RelayView>)
    ensures
        history_of(nsec, list).len() <= MAX_HISTORY_CANDIDATES,
        forall|i: int, j: int|
            0 <= i < j < history_of(nsec, list).len() ==> shown_before(
                #[trigger] history_of(nsec, list)[i],
                #[trigger] history_of(nsec, list)[j],
            ),
{
    let few = readable(nsec, candidates(list));
    lemma_chosen_in_order(few);
    lemma_snapshots_in_order(nsec, few, chosen(few));
    lemma_snapshot_count(nsec, few, chosen(few));
}

proof fn lemma_snapshot_count(nsec: Seq<char>, list: Seq<RelayView>, places: Seq<int>)
    ensures
        snapshots_in(nsec, list, places).len() <= places.len(),
    decreases places.len(),
{
    if places.len() > 0 {
        lemma_snapshot_count(nsec, list, places.drop_last());
    }
}

/// Nothing is shown but what is a backup of the owner of the key: each snapshot
/// holds what reading one of the events gives.
pub proof fn law_history_holds_only_backups(nsec: Seq<char>, list: Seq<RelayView>, i: int)
    requires
        0 <= i < history_of(nsec, list).len(),
    ensures
        exists|k: int|
            0 <= k < list.len() && previewed(nsec, (#[trigger] list[k]).event) is Ok && lower(
                list[k].event.id,
            ) == history_of(nsec, list)[i].event_id && previewed(nsec, list[k].event)->Ok_0.opml
                == history_of(nsec, list)[i].opml,
{
    let few = readable(nsec, candidates(list));
    let places = chosen(few);
    lemma_snapshot_source(nsec, few, places, i);
    let k = choose|k: int|
        0 <= k < places.len() && snapshot_in(nsec, few, #[trigger] places[k]) == Some(
            history_of(nsec, list)[i],
        );
    lemma_chosen_places(few);
    lemma_readable(nsec, candidates(list));
    assert(0 <= places[k] < few.len());
    let m = choose|m: int|
        0 <= m < candidates(list).len() && #[trigger] candidates(list)[m] == few[places[k]];
    lemma_having(considered(list), candidate_ids(considered(list)));
    let n = choose|n: int|
        0 <= n < considered(list).len() && #[trigger] considered(list)[n] == candidates(list)[m];
    assert(list[n] == considered(list)[n]);
}

/// The events that have one of some ids are of the list, and those of the list
/// that have one are there.
proof fn lemma_having(list: Seq<RelayView>, ids: Seq<Seq<char>>)
    ensures
        forall|j: int|
            0 <= j < having(list, ids).len() ==> exists|m: int|
                0 <= m < list.len() && #[trigger] list[m] == #[trigger] having(list, ids)[j],
        forall|m: int|
            0 <= m < list.len() && ids.contains(lower((#[trigger] list[m]).event.id)) ==> having(
                list,
                ids,
            ).contains(list[m]),
    decreases list.len(),
{
    if list.len() > 0 {
        let shorter = list.drop_last();
        let before = having(shorter, ids);
        let all = having(list, ids);
        lemma_having(shorter, ids);
        assert forall|j: int| 0 <= j < all.len() implies exists|m: int|
            0 <= m < list.len() && #[trigger] list[m] == #[trigger] all[j] by {
            if j < before.len() {
                assert(all[j] == before[j]);
                let m = choose|m: int|
                    0 <= m < shorter.len() && #[trigger] shorter[m] == before[j];
                assert(list[m] == all[j]);
            } else {
                assert(list[list.len() - 1] == all[j]);
            }
        }
        assert forall|m: int|
            0 <= m < list.len() && ids.contains(lower((#[trigger] list[m]).event.id)) implies
            all.contains(list[m]) by {
            if m < shorter.len() {
                assert(shorter[m] == list[m]);
                let j = choose|j: int| 0 <= j < before.len() && before[j] == list[m];
                assert(all[j] == list[m]);
            } else {
                assert(all[all.len() - 1] == list[m]);
            }
        }
    }
}

/// Every event of a list is vouched for or not.
proof fn lemma_vouched(list: Seq<RelayView>, m: int)
    requires
        0 <= m < list.len(),
    ensures
        vouched(list, authentic(list[m].event)).contains(list[m]),
    decreases list.len(),
{
    let right = authentic(list[m].event);
    let shorter = list.drop_last();
    let before = vouched(shorter, right);
    let all = vouched(list, right);
    if m < shorter.len() {
        assert(shorter[m] == list[m]);
        lemma_vouched(shorter, m);
        let j = choose|j: int| 0 <= j < before.len() && before[j] == list[m];
        assert(all[j] == list[m]);
    } else {
        assert(all[all.len() - 1] == list[m]);
    }
}

/// What is readable is in the list, and what is readable of the list is there.
proof fn lemma_readable(nsec: Seq<char>, list: Seq<RelayView>)
    ensures
        forall|j: int|
            0 <= j < readable(nsec, list).len() ==> exists|m: int|
                0 <= m < list.len() && #[trigger] list[m] == #[trigger] readable(nsec, list)[j],
        forall|j: int|
            0 <= j < readable(nsec, list).len() ==> previewed(
                nsec,
                (#[trigger] readable(nsec, list)[j]).event,
            ) is Ok,
        forall|m: int|
            0 <= m < list.len() && previewed(nsec, (#[trigger] list[m]).event) is Ok ==> readable(
                nsec,
                list,
            ).contains(list[m]),
    decreases list.len(),
{
    if list.len() > 0 {
        let shorter = list.drop_last();
        let before = readable(nsec, shorter);
        let all = readable(nsec, list);
        lemma_readable(nsec, shorter);
        assert forall|j: int| 0 <= j < all.len() implies exists|m: int|
            0 <= m < list.len() && #[trigger] list[m] == #[trigger] all[j] by {
            if j < before.len() {
                assert(all[j] == before[j]);
                let m = choose|m: int|
                    0 <= m < shorter.len() && #[trigger] shorter[m] == before[j];
                assert(list[m] == all[j]);
            } else {
                assert(list[list.len() - 1] == all[j]);
            }
        }
        assert forall|j: int| 0 <= j < all.len() implies previewed(
            nsec,
            (#[trigger] all[j]).event,
        ) is Ok by {
            if j < before.len() {
                assert(all[j] == before[j]);
            }
        }
        assert forall|m: int|
            0 <= m < list.len() && previewed(nsec, (#[trigger] list[m]).event) is Ok implies
            all.contains(list[m]) by {
            if m < shorter.len() {
                assert(shorter[m] == list[m]);
                let j = choose|j: int| 0 <= j < before.len() && before[j] == list[m];
                assert(all[j] == list[m]);
            } else {
                assert(all[all.len() - 1] == list[m]);
            }
        }
    }
}

/// The events that are looked into are events of the list.
proof fn lemma_chosen_places(list: Seq<RelayView>)
    ensures
        forall|k: int| 0 <= k < chosen(list).len() ==> 0 <= #[trigger] chosen(list)[k] < list.len(),
{
    let places = first_places(list);
    let keys = event_keys(list, places);
    law_ordered_is_complete(keys, keys.len());
    lemma_first_places(list, list.len() as int);
    assert(numbers(list.len()).take(list.len() as int) == numbers(list.len()));
    assert(event_ids(list).take(list.len() as int) == event_ids(list));
    let order = in_key_order(keys);
    assert forall|k: int| 0 <= k < chosen(list).len() implies 0 <= #[trigger] chosen(list)[k]
        < list.len() by {
        assert(chosen(list)[k] == places[order[k]]);
    }
}

/// Every id of a list stands at one of its first places.
proof fn lemma_first_place_of(list: Seq<RelayView>, n: int, at: int)
    requires
        0 <= at < n <= list.len(),
    ensures
        ({
            let places = firsts(numbers(list.len()).take(n), event_ids(list).take(n));
            exists|a: int|
                0 <= a < places.len() && event_ids(list)[#[trigger] places[a]] == event_ids(
                    list,
                )[at]
        }),
    decreases n,
{
    let ids = event_ids(list);
    lemma_firsts_step(numbers(list.len()), ids, n - 1);
    let before = firsts(numbers(list.len()).take(n - 1), ids.take(n - 1));
    let places = firsts(numbers(list.len()).take(n), ids.take(n));
    if at < n - 1 {
        lemma_first_place_of(list, n - 1, at);
        let a = choose|a: int|
            0 <= a < before.len() && ids[#[trigger] before[a]] == ids[at];
        assert(places[a] == before[a]);
    } else if is_first(ids, n - 1) {
        assert(places[places.len() - 1] == n - 1);
    } else {
        let j = choose|j: int| 0 <= j < n - 1 && #[trigger] ids[j] == ids[n - 1];
        lemma_first_place_of(list, n - 1, j);
        let a = choose|a: int| 0 <= a < before.len() && ids[#[trigger] before[a]] == ids[j];
        assert(places[a] == before[a]);
    }
}

/// The snapshot in an event that is looked into is among the snapshots.
proof fn lemma_snapshot_there(nsec: Seq<char>, list: Seq<RelayView>, places: Seq<int>, k: int)
    requires
        0 <= k < places.len(),
        snapshot_in(nsec, list, places[k]) is Some,
    ensures
        snapshots_in(nsec, list, places).contains(snapshot_in(nsec, list, places[k])->0),
    decreases places.len(),
{
    let shorter = places.drop_last();
    let before = snapshots_in(nsec, list, shorter);
    let all = snapshots_in(nsec, list, places);
    let wanted = snapshot_in(nsec, list, places[k])->0;
    if k < shorter.len() {
        assert(shorter[k] == places[k]);
        lemma_snapshot_there(nsec, list, shorter, k);
        let j = choose|j: int| 0 <= j < before.len() && before[j] == wanted;
        assert(all[j] == wanted);
    } else {
        assert(all[all.len() - 1] == wanted);
    }
}

/// Where a list has at most a hundred ids, every one of them is at a place that
/// is chosen.
proof fn lemma_chosen_id(list: Seq<RelayView>, at: int)
    requires
        0 <= at < list.len(),
        first_places(list).len() <= MAX_HISTORY_CANDIDATES,
    ensures
        exists|m: int|
            0 <= m < chosen(list).len() && 0 <= #[trigger] chosen(list)[m] < list.len() && lower(
                list[chosen(list)[m]].event.id,
            ) == lower(list[at].event.id),
{
    let ids = event_ids(list);
    let places = first_places(list);
    lemma_first_place_of(list, list.len() as int, at);
    lemma_first_places(list, list.len() as int);
    assert(numbers(list.len()).take(list.len() as int) == numbers(list.len()));
    assert(ids.take(list.len() as int) == ids);
    let a = choose|a: int| 0 <= a < places.len() && ids[#[trigger] places[a]] == ids[at];
    let keys = event_keys(list, places);
    law_ordered_is_complete(keys, keys.len());
    let order = in_key_order(keys);
    assert(order.contains(a));
    let m = choose|m: int| 0 <= m < order.len() && order[m] == a;
    assert(chosen(list)[m] == places[a]);
}

/// The number of ids among some events is not larger than among more.
proof fn lemma_fewer_ids(some: Seq<RelayView>, more: Seq<RelayView>)
    requires
        forall|j: int|
            0 <= j < some.len() ==> exists|m: int|
                0 <= m < more.len() && lower((#[trigger] more[m]).event.id) == lower(
                    (#[trigger] some[j]).event.id,
                ),
    ensures
        first_places(some).len() <= first_places(more).len(),
{
    let ids = event_ids(some);
    let others = event_ids(more);
    lemma_first_places(some, some.len() as int);
    assert(numbers(some.len()).take(some.len() as int) == numbers(some.len()));
    assert(ids.take(some.len() as int) == ids);
    lemma_first_places(more, more.len() as int);
    assert(numbers(more.len()).take(more.len() as int) == numbers(more.len()));
    assert(others.take(more.len() as int) == others);
    let p = first_places(some);
    let q = first_places(more);
    let x = Seq::new(p.len(), |i: int| ids[p[i]]);
    let y = Seq::new(q.len(), |i: int| others[q[i]]);
    assert(x.no_duplicates()) by {
        assert forall|i: int, j: int| 0 <= i < x.len() && 0 <= j < x.len() && i != j implies x[i]
            != x[j] by {
            assert(ids[p[i]] != ids[p[j]]);
        }
    }
    assert(y.no_duplicates()) by {
        assert forall|i: int, j: int| 0 <= i < y.len() && 0 <= j < y.len() && i != j implies y[i]
            != y[j] by {
            assert(others[q[i]] != others[q[j]]);
        }
    }
    assert forall|id: Seq<char>| x.to_set().contains(id) implies y.to_set().contains(id) by {
        let i = choose|i: int| 0 <= i < x.len() && x[i] == id;
        let m = choose|m: int|
            0 <= m < more.len() && lower((#[trigger] more[m]).event.id) == lower(
                some[p[i]].event.id,
            );
        lemma_first_place_of(more, more.len() as int, m);
        let a = choose|a: int| 0 <= a < q.len() && others[#[trigger] q[a]] == others[m];
        assert(y[a] == id);
    }
    x.unique_seq_to_set();
    y.unique_seq_to_set();
    vstd::set_lib::lemma_len_subset(x.to_set(), y.to_set());
}

/// A backup that one relay gives is in the history, whatever else relays give:
/// nothing that is no backup hides it. It speaks of the events that are
/// considered, with at most a hundred ids among them.
pub proof fn law_valid_backups_are_shown(nsec: Seq<char>, list: Seq<RelayView>, k: int)
    requires
        0 <= k < considered(list).len(),
        previewed(nsec, list[k].event) is Ok,
        first_places(considered(list)).len() <= MAX_HISTORY_CANDIDATES,
    ensures
        exists|i: int|
            0 <= i < history_of(nsec, list).len() && (#[trigger] history_of(nsec, list)[i]).event_id
                == lower(list[k].event.id) && history_of(nsec, list)[i].source_relays.contains(
                list[k].relay,
            ),
{
    let all = considered(list);
    let ordered = vouched(all, true) + vouched(all, false);
    assert(all[k] == list[k]);
    lemma_vouched_members(all, true);
    lemma_vouched_members(all, false);
    assert forall|j: int| 0 <= j < ordered.len() implies exists|m: int|
        0 <= m < all.len() && lower((#[trigger] all[m]).event.id) == lower(
            (#[trigger] ordered[j]).event.id,
        ) by {
        if j < vouched(all, true).len() {
            assert(ordered[j] == vouched(all, true)[j]);
        } else {
            assert(ordered[j] == vouched(all, false)[j - vouched(all, true).len()]);
        }
    }
    lemma_fewer_ids(ordered, all);
    lemma_vouched(all, k);
    assert(ordered.contains(list[k])) by {
        let right = authentic(list[k].event);
        let j = choose|j: int|
            0 <= j < vouched(all, right).len() && vouched(all, right)[j] == list[k];
        if right {
            assert(ordered[j] == list[k]);
        } else {
            assert(ordered[vouched(all, true).len() + j] == list[k]);
        }
    }
    let there = choose|j: int| 0 <= j < ordered.len() && ordered[j] == list[k];
    lemma_chosen_id(ordered, there);
    let c = choose|m: int|
        0 <= m < chosen(ordered).len() && 0 <= #[trigger] chosen(ordered)[m] < ordered.len()
            && lower(ordered[chosen(ordered)[m]].event.id) == lower(ordered[there].event.id);
    let ids = candidate_ids(all);
    assert(ids[c] == lower(list[k].event.id));
    assert(ids.contains(lower(all[k].event.id)));
    lemma_having(all, ids);
    let few = readable(nsec, candidates(list));
    lemma_readable(nsec, candidates(list));
    let n = choose|n: int| 0 <= n < candidates(list).len() && candidates(list)[n] == list[k];
    assert(previewed(nsec, candidates(list)[n].event) is Ok);
    let at = choose|at: int| 0 <= at < few.len() && few[at] == list[k];
    assert forall|j: int| 0 <= j < few.len() implies exists|m: int|
        0 <= m < all.len() && lower((#[trigger] all[m]).event.id) == lower(
            (#[trigger] few[j]).event.id,
        ) by {
        let x = choose|x: int|
            0 <= x < candidates(list).len() && #[trigger] candidates(list)[x] == few[j];
        let y = choose|y: int|
            0 <= y < all.len() && #[trigger] all[y] == candidates(list)[x];
        assert(all[y] == few[j]);
    }
    lemma_fewer_ids(few, all);
    lemma_chosen_id(few, at);
    let m = choose|m: int|
        0 <= m < chosen(few).len() && 0 <= #[trigger] chosen(few)[m] < few.len() && lower(
            few[chosen(few)[m]].event.id,
        ) == lower(few[at].event.id);
    assert(previewed(nsec, few[chosen(few)[m]].event) is Ok);
    lemma_snapshot_there(nsec, few, chosen(few), m);
    let wanted = snapshot_in(nsec, few, chosen(few)[m])->0;
    let i = choose|i: int|
        0 <= i < history_of(nsec, list).len() && history_of(nsec, list)[i] == wanted;
    lemma_relay_named(few, at);
    assert(history_of(nsec, list)[i].event_id == lower(list[k].event.id));
}

/// The events that are vouched for or not are events of the list.
proof fn lemma_vouched_members(list: Seq<RelayView>, right: bool)
    ensures
        forall|j: int|
            0 <= j < vouched(list, right).len() ==> exists|m: int|
                0 <= m < list.len() && #[trigger] list[m] == #[trigger] vouched(list, right)[j],
    decreases list.len(),
{
    if list.len() > 0 {
        let shorter = list.drop_last();
        let before = vouched(shorter, right);
        let all = vouched(list, right);
        lemma_vouched_members(shorter, right);
        assert forall|j: int| 0 <= j < all.len() implies exists|m: int|
            0 <= m < list.len() && #[trigger] list[m] == #[trigger] all[j] by {
            if j < before.len() {
                assert(all[j] == before[j]);
                let m = choose|m: int|
                    0 <= m < shorter.len() && #[trigger] shorter[m] == before[j];
                assert(list[m] == all[j]);
            } else {
                assert(list[list.len() - 1] == all[j]);
            }
        }
    }
}

/// The relay that an event came from is among those that hold its id.
proof fn lemma_relay_named(list: Seq<RelayView>, at: int)
    requires
        0 <= at < list.len(),
    ensures
        relays_of(list, lower(list[at].event.id)).contains(list[at].relay),
    decreases list.len(),
{
    let id = lower(list[at].event.id);
    let shorter = list.drop_last();
    let before = relays_of(shorter, id);
    let text = list.last().relay;
    let place = text_place(before, text);
    lemma_text_place(before, text);
    if at < shorter.len() {
        assert(shorter[at] == list[at]);
        lemma_relay_named(shorter, at);
        if lower(list.last().event.id) == id && !before.contains(text) {
            let j = choose|j: int| 0 <= j < before.len() && before[j] == list[at].relay;
            let more = before.insert(place, text);
            assert(more[if j < place { j } else { j + 1 }] == list[at].relay);
        }
    } else if !before.contains(text) {
        assert(before.insert(place, text)[place] == text);
    }
}

proof fn lemma_text_place(sorted: Seq<Seq<char>>, text: Seq<char>)
    ensures
        0 <= text_place(sorted, text) <= sorted.len(),
    decreases sorted.len(),
{
    if sorted.len() > 0 {
        lemma_text_place(sorted.drop_last(), text);
    }
}

/// The relays that are named with an encrypted address, without white space
/// around it.
pub open spec fn secure_relays(relays: Seq<Seq<char>>) -> Seq<Seq<char>>
    decreases relays.len(),
{
    if relays.len() == 0 {
        Seq::empty()
    } else if starts_with(trim(relays.last()), "wss://"@) {
        secure_relays(relays.drop_last()).push(trim(relays.last()))
    } else {
        secure_relays(relays.drop_last())
    }
}

/// The relays that are used: each once, eight at most.
pub open spec fn used_relays(relays: Seq<Seq<char>>) -> Seq<Seq<char>> {
    let each = firsts(secure_relays(relays), secure_relays(relays));
    if each.len() > MAX_CONFIGURED_RELAYS {
        each.take(MAX_CONFIGURED_RELAYS as int)
    } else {
        each
    }
}

/// The relays that backups are sent to and asked from.
#[derive(Debug)]
pub struct RelayClient {
    relays: Vec<String>,
}

impl View for RelayClient {
    type V = Seq<Seq<char>>;

    closed spec fn view(&self) -> Seq<Seq<char>> {
        views(self.relays@)
    }
}

impl RelayClient {
    /// The relays among `relays` that can be used: those with an encrypted
    /// address, each once, eight at most. There has to be one.
    pub fn new(relays: Vec<String>) -> (r: Result<Self, BackupError>)
        ensures
            ({
                let used = used_relays(views(relays@));
                if used.len() == 0 {
                    backup_failure(r) == Some(
                        BackupErrorView::Nostr("at least one secure wss:// relay is required"@),
                    )
                } else {
                    r is Ok && r->Ok_0@ == used
                }
            }),
    {
        let ghost all = views(relays@);
        let mut secure: Vec<String> = Vec::new();
        let mut i: usize = 0;
        assert(views(secure@) == Seq::<Seq<char>>::empty());
        while i < relays.len()
            invariant
                i <= relays@.len(),
                all == views(relays@),
                views(secure@) == secure_relays(all.take(i as int)),
            decreases relays@.len() - i,
        {
            assert(all.take(i + 1).drop_last() == all.take(i as int));
            assert(all.take(i + 1).last() == relays@[i as int]@);
            let bare = trimmed(relays[i].as_str());
            let ghost before = views(secure@);
            if begins(bare.as_str(), "wss://") {
                let ghost text = bare@;
                secure.push(bare);
                assert(views(secure@) == before.push(text));
            }
            i += 1;
        }
        assert(all.take(i as int) == all);
        let marks = mark_firsts(&secure);
        let ghost texts = views(secure@);
        let ghost wanted = used_relays(all);
        let mut out: Vec<String> = Vec::new();
        let mut k: usize = 0;
        assert(views(out@) == firsts(texts.take(0), texts.take(0)));
        while k < secure.len() && out.len() < MAX_CONFIGURED_RELAYS
            invariant
                k <= secure@.len() == marks@.len(),
                texts == views(secure@),
                out@.len() <= MAX_CONFIGURED_RELAYS,
                forall|j: int| 0 <= j < marks@.len() ==> #[trigger] marks@[j] == is_first(texts, j),
                views(out@) == firsts(texts.take(k as int), texts.take(k as int)),
            decreases secure@.len() - k,
        {
            proof {
                lemma_firsts_step(texts, texts, k as int);
            }
            assert(texts[k as int] == secure@[k as int]@);
            let ghost before = views(out@);
            if marks[k] {
                out.push(secure[k].clone());
                assert(views(out@) == before.push(texts[k as int]));
            }
            k += 1;
        }
        proof {
            lemma_firsts_grow(texts, k as int);
            assert(views(out@) == wanted) by {
                if k == texts.len() {
                    assert(texts.take(k as int) == texts);
                }
            }
        }
        if out.len() == 0 {
            Err(BackupError::Nostr("at least one secure wss:// relay is required".to_owned()))
        } else {
            Ok(RelayClient { relays: out })
        }
    }

    /// The addresses of the relays.
    pub fn relays(&self) -> (r: &Vec<String>)
        ensures
            views(r@) == self@,
    {
        &self.relays
    }
}

/// The first ones of more texts begin with the first ones of fewer.
proof fn lemma_firsts_grow(texts: Seq<Seq<char>>, k: int)
    requires
        0 <= k <= texts.len(),
    ensures
        firsts(texts.take(k), texts.take(k)).len() <= firsts(texts, texts).len(),
        firsts(texts, texts).take(firsts(texts.take(k), texts.take(k)).len() as int) == firsts(
            texts.take(k),
            texts.take(k),
        ),
    decreases texts.len() - k,
{
    if k < texts.len() {
        lemma_firsts_grow(texts, k + 1);
        lemma_firsts_step(texts, texts, k);
        let now = firsts(texts.take(k), texts.take(k));
        let next = firsts(texts.take(k + 1), texts.take(k + 1));
        assert(next.take(now.len() as int) == now);
        assert(firsts(texts, texts).take(next.len() as int).take(now.len() as int) == firsts(
            texts,
            texts,
        ).take(now.len() as int));
    } else {
        assert(texts.take(k) == texts);
    }
}

/// Only relays with an encrypted address are used, and not more than eight.
pub proof fn law_relays_are_secure(relays: Seq<Seq<char>>)
    ensures
        used_relays(relays).len() <= MAX_CONFIGURED_RELAYS,
        forall|i: int|
            0 <= i < used_relays(relays).len() ==> starts_with(
                #[trigger] used_relays(relays)[i],
                "wss://"@,
            ),
{
    let secure = secure_relays(relays);
    crate::unique::law_firsts_are_unique(secure);
    let each = firsts(secure, secure);
    assert forall|i: int| 0 <= i < used_relays(relays).len() implies starts_with(
        #[trigger] used_relays(relays)[i],
        "wss://"@,
    ) by {
        assert(each[i] == used_relays(relays)[i]);
        assert(each.contains(each[i]));
        assert(secure.contains(each[i]));
        let k = choose|k: int| 0 <= k < secure.len() && secure[k] == each[i];
        lemma_secure(relays, k);
    }
}

proof fn lemma_secure(relays: Seq<Seq<char>>, k: int)
    requires
        0 <= k < secure_relays(relays).len(),
    ensures
        starts_with(secure_relays(relays)[k], "wss://"@),
    decreases relays.len(),
{
    if k < secure_relays(relays.drop_last()).len() {
        lemma_secure(relays.drop_last(), k);
    }
}

} // verus!
