//! Backups: which are shown, what they hold, and what restoring one adds.

use crate::backup::{decoded, folder_paths, opened, previewed, EnvelopeView};
use crate::history::{
    candidates, chosen, history_of, page_of, readable, relays_of, secure_relays, snapshot_in,
    snapshots_in, used_relays, RelayView, SnapshotView,
};
use crate::identity::feed_identity;
use crate::laws::documents::lemma_first_such;
use crate::laws::places::{
    are_the_places, comes_first, law_first_of_each_is_kept, lemma_one_wanted,
};
use crate::library::{has_feed, LibraryView};
use crate::nostr::{authentic, decrypted, parsed_keys, EventView};
use crate::nostr_worker::{chosen_backup, missing, summaries};
use crate::opml::{imported, OpmlFeedView};
use crate::packing::{base64_bytes, gunzipped};
use crate::text::{byte_len, lower, starts_with, trim};
use crate::unique::firsts;
use vstd::prelude::*;
use vstd::utf8::{decode_utf8, valid_utf8};

verus! {

/// A page of the history is a run of it from the place that is asked for: as
/// many as are asked for, one at least and twenty at most, or all that are left.
pub proof fn law_history_page_is_a_run(history: Seq<SnapshotView>, offset: usize, limit: usize)
    ensures
        ({
            let page = page_of(history, offset, limit);
            let most = if limit < 1 {
                1int
            } else if limit > 20 {
                20int
            } else {
                limit as int
            };
            &&& offset >= history.len() ==> page.len() == 0
            &&& offset < history.len() && history.len() - offset >= most ==> page.len() == most
            &&& offset < history.len() && history.len() - offset < most ==> page.len()
                == history.len() - offset
            &&& forall|i: int|
                0 <= i < page.len() ==> #[trigger] page[i] == history[offset + i]
        }),
{
}

/// A subscription that the library does not have.
pub open spec fn is_missing(library: LibraryView, feeds: Seq<OpmlFeedView>) -> spec_fn(
    int,
) -> bool {
    |i: int|
        forall|f: int|
            0 <= f < library.feeds.len() ==> (#[trigger] library.feeds[f]).feed.stable_id
                != feed_identity(feeds[i].feed_url)
}

/// As many subscriptions of a backup are told as missing as the library does not
/// have.
pub proof fn law_missing_feeds_are_counted(library: LibraryView, feeds: Seq<OpmlFeedView>)
    ensures
        exists|at: Seq<int>|
            #[trigger] are_the_places(
                at,
                feeds.len() as int,
                is_missing(library, feeds),
            ) && missing(library, feeds) == at.len(),
{
    assert(feeds.take(feeds.len() as int) == feeds);
    let at = lemma_missing(library, feeds, feeds.len());
}

proof fn lemma_missing(library: LibraryView, feeds: Seq<OpmlFeedView>, n: nat) -> (at: Seq<int>)
    requires
        n <= feeds.len(),
    ensures
        are_the_places(at, n as int, is_missing(library, feeds)),
        missing(library, feeds.take(n as int)) == at.len(),
    decreases n,
{
    let wanted = is_missing(library, feeds);
    if n == 0 {
        Seq::empty()
    } else {
        let shorter = lemma_missing(library, feeds, (n - 1) as nat);
        lemma_one_wanted(shorter, n - 1, wanted);
        assert(feeds.take(n as int).drop_last() == feeds.take(n - 1));
        assert(feeds.take(n as int).last() == feeds[n - 1]);
        let id = feed_identity(feeds[n - 1].feed_url);
        if has_feed(library.feeds, id) {
            let f = choose|f: int|
                0 <= f < library.feeds.len() && (#[trigger] library.feeds[f]).feed.stable_id == id;
            assert(!wanted(n - 1));
            shorter
        } else {
            assert(wanted(n - 1));
            shorter.push(n - 1)
        }
    }
}

/// The backup that is chosen is one of the history with its id, and there is one
/// where the history has one.
pub proof fn law_chosen_backup_has_the_id(history: Seq<SnapshotView>, id: Seq<char>)
    ensures
        match chosen_backup(history, id) {
            Some(backup) => backup.event_id == id && history.contains(backup),
            None => forall|i: int|
                0 <= i < history.len() ==> (#[trigger] history[i]).event_id != id,
        },
    decreases history.len(),
{
    if history.len() > 0 {
        let shorter = history.drop_last();
        let n = history.len() - 1;
        law_chosen_backup_has_the_id(shorter, id);
        if history[n].event_id == id {
            assert(history.contains(history[n]));
        } else {
            match chosen_backup(shorter, id) {
                Some(backup) => {
                    let i = choose|i: int| 0 <= i < shorter.len() && shorter[i] == backup;
                    assert(history[i] == backup);
                },
                None => {
                    assert forall|i: int| 0 <= i < history.len() implies (
                    #[trigger] history[i]).event_id != id by {
                        if i < n {
                            assert(shorter[i] == history[i]);
                        }
                    }
                },
            }
        }
    }
}

/// What is told of a backup in the history is what it holds.
pub proof fn law_summaries_tell_of_backups(history: Seq<SnapshotView>, i: int)
    requires
        0 <= i < history.len(),
    ensures
        summaries(history).len() == history.len(),
        summaries(history)[i].event_id == history[i].event_id,
        summaries(history)[i].created_at == history[i].created_at,
        summaries(history)[i].subscriptions == history[i].feed_count,
        summaries(history)[i].folders == history[i].folder_count,
{
}

/// An event is a backup of the owner of a key: signed, from that key, of the kind
/// and under the name of backups, and not too long.
pub open spec fn is_own_event(event: EventView, public: Seq<char>) -> bool {
    &&& byte_len(event.content) <= 131_072
    &&& authentic(event)
    &&& lower(event.pubkey) == lower(public)
    &&& event.kind == 78
    &&& event.tags == seq![seq!["d"@, "feedlizard-subscriptions-v1"@]]
}

/// A backup that is one's own, that can be decrypted and that bears the time of
/// its event is read, and gives what its envelope holds.
pub proof fn law_own_backup_is_read(nsec: Seq<char>, event: EventView, text: Seq<char>)
    requires
        parsed_keys(trim(nsec)) is Some,
        is_own_event(event, parsed_keys(trim(nsec))->0.public),
        decrypted(parsed_keys(trim(nsec))->0.secret, event.content) == Some(text),
    ensures
        decoded(text) is Ok && decoded(text)->Ok_0.created_at == event.created_at ==> previewed(
            nsec,
            event,
        ) == decoded(text),
        decoded(text) is Ok && decoded(text)->Ok_0.created_at != event.created_at ==> previewed(
            nsec,
            event,
        ) is Err,
        decoded(text) is Err ==> previewed(nsec, event) is Err,
{
}

/// An envelope of the right format gives the list that is packed in it, with the
/// time that it bears, and with the numbers of its feeds and of its folders.
pub proof fn law_envelope_gives_its_list(
    text: Seq<char>,
    said: EnvelopeView,
    packed: Seq<u8>,
    bytes: Seq<u8>,
)
    requires
        byte_len(text) <= 61_440,
        opened(text) == Some(said),
        base64_bytes(said.opml) == Some(packed),
        packed.len() <= 49_152,
        gunzipped(packed, 4_194_305) == Some(bytes),
    ensures
        said.format != "feedlizard-subscriptions-v1"@ || said.encoding != "gzip+base64"@
            ==> decoded(text) is Err,
        said.format == "feedlizard-subscriptions-v1"@ && said.encoding == "gzip+base64"@
            && bytes.len() <= 4_194_304 && valid_utf8(bytes) && imported(
            decode_utf8(bytes),
        ) is Ok ==> {
            let list = imported(decode_utf8(bytes))->Ok_0;
            &&& decoded(text) is Ok
            &&& decoded(text)->Ok_0.created_at == said.created_at
            &&& decoded(text)->Ok_0.opml == decode_utf8(bytes)
            &&& decoded(text)->Ok_0.feed_count == list.feeds.len()
            &&& decoded(text)->Ok_0.folder_count == folder_paths(list.feeds).len()
        },
        bytes.len() > 4_194_304 || !valid_utf8(bytes) || imported(decode_utf8(bytes)) is Err
            ==> decoded(text) is Err,
{
}

/// A backup in the history tells what its event holds: its time, its list and
/// its numbers.
pub proof fn law_history_tells_what_events_hold(
    nsec: Seq<char>,
    list: Seq<RelayView>,
    i: int,
)
    requires
        0 <= i < history_of(nsec, list).len(),
    ensures
        ({
            let found = readable(nsec, candidates(list));
            let shown = history_of(nsec, list)[i];
            exists|place: int|
                {
                    &&& chosen(found).contains(place)
                    &&& previewed(nsec, (#[trigger] found[place]).event) is Ok
                    &&& shown.event_id == lower(found[place].event.id)
                    &&& shown.created_at == previewed(nsec, found[place].event)->Ok_0.created_at
                    &&& shown.opml == previewed(nsec, found[place].event)->Ok_0.opml
                    &&& shown.feed_count == previewed(nsec, found[place].event)->Ok_0.feed_count
                    &&& shown.folder_count == previewed(
                        nsec,
                        found[place].event,
                    )->Ok_0.folder_count
                }
        }),
{
    let found = readable(nsec, candidates(list));
    lemma_snapshots(nsec, found, chosen(found), i);
}

proof fn lemma_snapshots(nsec: Seq<char>, list: Seq<RelayView>, places: Seq<int>, i: int)
    requires
        0 <= i < snapshots_in(nsec, list, places).len(),
    ensures
        exists|place: int|
            {
                let shown = snapshots_in(nsec, list, places)[i];
                &&& places.contains(place)
                &&& previewed(nsec, (#[trigger] list[place]).event) is Ok
                &&& snapshot_in(nsec, list, place) == Some(shown)
                &&& shown.event_id == lower(list[place].event.id)
                &&& shown.created_at == previewed(nsec, list[place].event)->Ok_0.created_at
                &&& shown.opml == previewed(nsec, list[place].event)->Ok_0.opml
                &&& shown.feed_count == previewed(nsec, list[place].event)->Ok_0.feed_count
                &&& shown.folder_count == previewed(nsec, list[place].event)->Ok_0.folder_count
            },
    decreases places.len(),
{
    let shorter = places.drop_last();
    let before = snapshots_in(nsec, list, shorter);
    let all = snapshots_in(nsec, list, places);
    let n = places.len() - 1;
    if i < before.len() {
        lemma_snapshots(nsec, list, shorter, i);
        assert(all[i] == before[i]);
        let place = choose|place: int|
            {
                let shown = before[i];
                &&& shorter.contains(place)
                &&& previewed(nsec, (#[trigger] list[place]).event) is Ok
                &&& snapshot_in(nsec, list, place) == Some(shown)
                &&& shown.event_id == lower(list[place].event.id)
                &&& shown.created_at == previewed(nsec, list[place].event)->Ok_0.created_at
                &&& shown.opml == previewed(nsec, list[place].event)->Ok_0.opml
                &&& shown.feed_count == previewed(nsec, list[place].event)->Ok_0.feed_count
                &&& shown.folder_count == previewed(nsec, list[place].event)->Ok_0.folder_count
            };
        let k = choose|k: int| 0 <= k < shorter.len() && shorter[k] == place;
        assert(places[k] == place);
    } else {
        assert(places[n] == places.last());
        assert(places.contains(places[n]));
        assert(previewed(nsec, list[places[n]].event) is Ok);
    }
}

/// The relays that gave a backup are those that gave an event with its id, each
/// once.
pub proof fn law_source_relays_gave_the_backup(
    list: Seq<RelayView>,
    id: Seq<char>,
    relay: Seq<char>,
)
    ensures
        relays_of(list, id).contains(relay) <==> exists|k: int|
            0 <= k < list.len() && lower((#[trigger] list[k]).event.id) == id && list[k].relay
                == relay,
    decreases list.len(),
{
    if list.len() > 0 {
        let shorter = list.drop_last();
        let n = list.len() - 1;
        law_source_relays_gave_the_backup(shorter, id, relay);
        let before = relays_of(shorter, id);
        let all = relays_of(list, id);
        if lower(list[n].event.id) == id {
            lemma_with_text(before, list[n].relay, relay);
        }
        if all.contains(relay) && before.contains(relay) {
            let k = choose|k: int|
                0 <= k < shorter.len() && lower((#[trigger] shorter[k]).event.id) == id
                    && shorter[k].relay == relay;
            assert(list[k] == shorter[k]);
        }
        if exists|k: int|
            0 <= k < list.len() && lower((#[trigger] list[k]).event.id) == id && list[k].relay
                == relay {
            let k = choose|k: int|
                0 <= k < list.len() && lower((#[trigger] list[k]).event.id) == id && list[k].relay
                    == relay;
            if k < n {
                assert(shorter[k] == list[k]);
            }
        }
    }
}

proof fn lemma_with_text(sorted: Seq<Seq<char>>, text: Seq<char>, other: Seq<char>)
    ensures
        crate::history::with_text(sorted, text).contains(other) <==> sorted.contains(other)
            || other == text,
{
    let after = crate::history::with_text(sorted, text);
    if !sorted.contains(text) {
        lemma_text_place(sorted, text);
        let at = crate::history::text_place(sorted, text);
        assert(after[at] == text);
        if sorted.contains(other) {
            let k = choose|k: int| 0 <= k < sorted.len() && sorted[k] == other;
            assert(after[if k < at {
                k
            } else {
                k + 1
            }] == other);
        }
        if after.contains(other) && other != text {
            let k = choose|k: int| 0 <= k < after.len() && after[k] == other;
            assert(sorted[if k < at {
                k
            } else {
                k - 1
            }] == other);
        }
    }
}

proof fn lemma_text_place(sorted: Seq<Seq<char>>, text: Seq<char>)
    ensures
        0 <= crate::history::text_place(sorted, text) <= sorted.len(),
    decreases sorted.len(),
{
    if sorted.len() > 0 {
        lemma_text_place(sorted.drop_last(), text);
    }
}

proof fn lemma_secure(relays: Seq<Seq<char>>, i: int)
    requires
        0 <= i < relays.len(),
        starts_with(trim(relays[i]), "wss://"@),
    ensures
        secure_relays(relays).contains(trim(relays[i])),
    decreases relays.len(),
{
    let shorter = relays.drop_last();
    let before = secure_relays(shorter);
    let all = secure_relays(relays);
    if i < shorter.len() {
        lemma_secure(shorter, i);
        assert(shorter[i] == relays[i]);
        let k = choose|k: int| 0 <= k < before.len() && before[k] == trim(relays[i]);
        assert(all[k] == trim(relays[i]));
    } else {
        assert(all[before.len() as int] == trim(relays[i]));
    }
}

/// Every secure relay that is configured is used, without the white space round
/// it, where there are no more than eight; and no relay is used twice.
pub proof fn law_secure_relays_are_used(relays: Seq<Seq<char>>, i: int)
    requires
        0 <= i < relays.len(),
        starts_with(trim(relays[i]), "wss://"@),
    ensures
        used_relays(relays).contains(trim(relays[i])) || used_relays(relays).len() == 8,
        used_relays(relays).no_duplicates(),
{
    let list = secure_relays(relays);
    lemma_secure(relays, i);
    law_first_of_each_is_kept(list, list);
    let at = choose|at: Seq<int>|
        {
            &&& #[trigger] are_the_places(at, list.len() as int, comes_first(list))
            &&& firsts(list, list) == at.map_values(|i: int| list[i])
        };
    let each = firsts(list, list);
    let used = used_relays(relays);
    let m = choose|m: int| 0 <= m < list.len() && list[m] == trim(relays[i]);
    let f = lemma_first_such(list, m);
    assert(comes_first(list)(f));
    let k = choose|k: int| 0 <= k < at.len() && at[k] == f;
    assert(each[k] == trim(relays[i]));
    if each.len() <= 8 {
        assert(used[k] == trim(relays[i]));
    }
    assert forall|a: int, b: int| 0 <= a < used.len() && 0 <= b < used.len() && a
        != b implies used[a] != used[b] by {
        assert(used[a] == each[a] && used[b] == each[b]);
        if a < b {
            assert(comes_first(list)(at[b]));
            assert(at[a] < at[b]);
            assert(list[at[a]] != list[at[b]]);
        } else {
            assert(comes_first(list)(at[a]));
            assert(at[b] < at[a]);
            assert(list[at[b]] != list[at[a]]);
        }
    }
}

} // verus!
