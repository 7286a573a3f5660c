//! Smaller things: how the program is started, what its dialogs offer, and what
//! is kept under which word.

use crate::articles::source_kept;
use crate::dialogs::{chosen_in, source_of, summary_shown, typed_in};
use crate::identity::hex_digit;
use crate::images::ImageSource;
use crate::laws::places::{are_the_places, lemma_one_wanted};
use crate::launch::{passed_on, wanted_mode, RuntimeMode};
use crate::library::{feed_at, folder_identity, hex_padded, lemma_feed_at, LibraryView};
use crate::markup::without_tags;
use crate::network_worker::all_iconed;
use crate::nostr_worker::{looked_at, missing, DeskView};
use crate::opml::imported;
use crate::presentation::{activity_level, activity_place, two_digits};
use crate::records::{ArticleRowView, FeedRecordView, FeedRowView, FolderView, FullArticleView};
use crate::refresh::{held, host_of_feed};
use crate::schema::refetching;
use crate::text::{collapse, decimal, lower, trim};
use crate::web::parsed_url;
use vstd::prelude::*;

verus! {

/// A word on the command line that is passed on.
pub open spec fn is_passed_on(args: Seq<Seq<char>>) -> spec_fn(int) -> bool {
    |i: int| args[i] != "--omarchy"@
}

/// Of the words on the command line all are passed on but the one for the mode,
/// in their order; the mode is asked for by that word or by the environment.
pub proof fn law_words_are_passed_on(args: Seq<Seq<char>>, environment: Option<Seq<char>>)
    ensures
        exists|at: Seq<int>|
            #[trigger] are_the_places(at, args.len() as int, is_passed_on(args)) && passed_on(args)
                == at.map_values(|i: int| args[i]),
        wanted_mode(args, environment) == RuntimeMode::Omarchy <==> (exists|i: int|
            0 <= i < args.len() && #[trigger] args[i] == "--omarchy"@) || environment == Some(
            "1"@,
        ),
{
    assert(args.take(args.len() as int) == args);
    let at = lemma_passed_on(args, args.len());
    assert(are_the_places(at, args.len() as int, is_passed_on(args)));
}

proof fn lemma_passed_on(args: Seq<Seq<char>>, n: nat) -> (at: Seq<int>)
    requires
        n <= args.len(),
    ensures
        are_the_places(at, n as int, is_passed_on(args)),
        passed_on(args.take(n as int)) == at.map_values(|i: int| args[i]),
    decreases n,
{
    let wanted = is_passed_on(args);
    if n == 0 {
        let at = Seq::<int>::empty();
        assert(passed_on(args.take(0)) =~= at.map_values(|i: int| args[i]));
        at
    } else {
        let shorter = lemma_passed_on(args, (n - 1) as nat);
        lemma_one_wanted(shorter, n - 1, wanted);
        assert(args.take(n as int).drop_last() == args.take(n - 1));
        assert(args.take(n as int).last() == args[n - 1]);
        if wanted(n - 1) {
            let at = shorter.push(n - 1);
            assert(passed_on(args.take(n as int)) =~= at.map_values(|i: int| args[i]));
            at
        } else {
            shorter
        }
    }
}

/// Where pictures come from is kept under a word, and under another word for
/// each source.
pub proof fn law_picture_sources_are_told_apart(a: ImageSource, b: ImageSource)
    ensures
        a != b ==> source_kept(a) != source_kept(b),
{
    reveal_strlit("inline");
    reveal_strlit("media-thumbnail");
    reveal_strlit("media-content");
    reveal_strlit("enclosure");
    reveal_strlit("json-image");
    assert("inline"@.len() == 6);
    assert("media-thumbnail"@.len() == 15);
    assert("media-content"@.len() == 13);
    assert("enclosure"@.len() == 9);
    assert("json-image"@.len() == 10);
}

proof fn lemma_hex_apart(a: nat, b: nat, width: nat)
    requires
        hex_padded(a, width) == hex_padded(b, width),
        a < power16(width),
        b < power16(width),
    ensures
        a == b,
    decreases width,
{
    if width > 0 {
        let shorter = (width - 1) as nat;
        let x = hex_padded(a / 16, shorter);
        let y = hex_padded(b / 16, shorter);
        let p = hex_padded(a, width);
        assert(p == x.push(hex_digit((a % 16) as int)));
        assert(p == y.push(hex_digit((b % 16) as int)));
        assert(p.drop_last() =~= x);
        assert(p.drop_last() =~= y);
        assert(p.last() == hex_digit((a % 16) as int));
        assert(p.last() == hex_digit((b % 16) as int));
        lemma_hex_apart(a / 16, b / 16, shorter);
        assert(a % 16 == b % 16);
    }
}

spec fn power16(width: nat) -> int
    decreases width,
{
    if width == 0 {
        1
    } else {
        16 * power16((width - 1) as nat)
    }
}

/// Two folders have two identities.
pub proof fn law_folder_identities_differ(a: i64, b: i64)
    requires
        0 <= a,
        0 <= b,
        a != b,
    ensures
        folder_identity(a) != folder_identity(b),
{
    reveal_strlit("folder:v1:");
    let start = "folder:v1:"@;
    if folder_identity(a) == folder_identity(b) {
        let x = hex_padded(a as nat, 16);
        let y = hex_padded(b as nat, 16);
        assert((start + x).skip(start.len() as int) =~= x);
        assert((start + y).skip(start.len() as int) =~= y);
        lemma_sixteen();
        lemma_hex_apart(a as nat, b as nat, 16);
    }
}

proof fn lemma_sixteen()
    ensures
        power16(16) == 0x1_0000_0000_0000_0000,
{
    reveal_with_fuel(power16, 17);
}

/// An icon that was found for a feed is kept as its icon, the last one where more
/// were found; no other feed changes.
pub proof fn law_found_icons_are_kept(
    library: LibraryView,
    found: Seq<(Seq<char>, Seq<char>)>,
    now: i64,
    f: int,
)
    requires
        library.wf(),
        0 <= f < library.feeds.len(),
    ensures
        ({
            let before = library.feeds[f];
            let all = all_iconed(library, found, now);
            let after = all.feeds[f];
            let id = before.feed.stable_id;
            &&& all.feeds.len() == library.feeds.len()
            &&& all.articles == library.articles
            &&& all.folders == library.folders
            &&& after == (FeedRowView {
                feed: FeedRecordView { favicon_url: after.feed.favicon_url, ..before.feed },
                modified_at: after.modified_at,
                ..before
            })
            &&& found.len() > 0 && found.last().0 == id ==> after.feed.favicon_url == Some(
                found.last().1,
            )
            &&& (forall|k: int| 0 <= k < found.len() ==> (#[trigger] found[k]).0 != id) ==> after
                == before
        }),
    decreases found.len(),
{
    if found.len() > 0 {
        let shorter = found.drop_last();
        law_found_icons_are_kept(library, shorter, now, f);
        let middle = all_iconed(library, shorter, now);
        let id = library.feeds[f].feed.stable_id;
        let last_id = found.last().0;
        lemma_feed_at(middle.feeds, last_id, 0);
        let here = feed_at(middle.feeds, last_id, 0);
        if here is Some {
            law_found_icons_are_kept(library, shorter, now, here->0);
            if here->0 < f {
                assert(library.feeds[here->0].feed.stable_id != library.feeds[f].feed.stable_id);
            } else if f < here->0 {
                assert(library.feeds[f].feed.stable_id != library.feeds[here->0].feed.stable_id);
            }
        }
        if forall|k: int| 0 <= k < found.len() ==> (#[trigger] found[k]).0 != id {
            assert forall|k: int| 0 <= k < shorter.len() implies (#[trigger] shorter[k]).0 != id by {
                assert(shorter[k] == found[k]);
            }
            assert(found[found.len() - 1].0 != id);
        }
    }
}

/// A backup that is looked at is one of the history with the id that is asked
/// for, and each of its feeds is told as new or as present.
pub proof fn law_looked_at_backup_is_counted(
    desk: DeskView,
    library: LibraryView,
    id: Seq<char>,
)
    requires
        looked_at(desk, library, id) is Ok,
    ensures
        ({
            let (backup, fresh, present) = looked_at(desk, library, id)->Ok_0;
            &&& desk.history.contains(backup)
            &&& backup.event_id == id
            &&& imported(backup.opml) is Ok
            &&& fresh == missing(library, imported(backup.opml)->Ok_0.feeds)
            &&& fresh + present == imported(backup.opml)->Ok_0.feeds.len()
        }),
{
    crate::laws::backups::law_chosen_backup_has_the_id(desk.history, id);
    let backup = looked_at(desk, library, id)->Ok_0.0;
    crate::nostr_worker::law_preview_counts_every_feed(
        library,
        imported(backup.opml)->Ok_0.feeds,
    );
}

/// A number is held between its bounds, and left as it is within them.
pub proof fn law_numbers_are_held(value: usize, least: usize, most: usize)
    requires
        least <= most,
    ensures
        least <= held(value, least, most) <= most,
        least <= value <= most ==> held(value, least, most) == value,
        value < least ==> held(value, least, most) == least,
        value > most ==> held(value, least, most) == most,
{
}

/// Feeds are of one host where their addresses have it, in letters of whatever
/// case.
pub proof fn law_hosts_are_told_in_small_letters(url: Seq<char>)
    ensures
        parsed_url(url) is Some && parsed_url(url)->0.host is Some ==> host_of_feed(url) == lower(
            parsed_url(url)->0.host->0,
        ),
        parsed_url(url) is None || parsed_url(url)->0.host is None ==> host_of_feed(url).len()
            == 0,
{
}

/// A time that falls at a place.
pub open spec fn falls_at(timestamps: Seq<i64>, now: i64, count: nat, place: int) -> spec_fn(
    int,
) -> bool {
    |i: int| activity_place(timestamps[i], now, count) == place
}

/// Each article raises the level at its place by twenty-two, up to a hundred.
pub proof fn law_levels_rise_with_articles(
    timestamps: Seq<i64>,
    now: i64,
    count: nat,
    place: int,
)
    ensures
        exists|at: Seq<int>|
            {
                let level = activity_level(timestamps, now, count, place);
                &&& #[trigger] are_the_places(
                    at,
                    timestamps.len() as int,
                    falls_at(timestamps, now, count, place),
                )
                &&& at.len() * 22 <= 100 ==> level == at.len() * 22
                &&& at.len() * 22 > 100 ==> level == 100
            },
{
    assert(timestamps.take(timestamps.len() as int) == timestamps);
    let at = lemma_levels(timestamps, now, count, place, timestamps.len());
    assert(are_the_places(
        at,
        timestamps.len() as int,
        falls_at(timestamps, now, count, place),
    ));
}

proof fn lemma_levels(timestamps: Seq<i64>, now: i64, count: nat, place: int, n: nat) -> (at: Seq<
    int,
>)
    requires
        n <= timestamps.len(),
    ensures
        are_the_places(at, n as int, falls_at(timestamps, now, count, place)),
        ({
            let level = activity_level(timestamps.take(n as int), now, count, place);
            &&& at.len() * 22 <= 100 ==> level == at.len() * 22
            &&& at.len() * 22 > 100 ==> level == 100
        }),
    decreases n,
{
    let wanted = falls_at(timestamps, now, count, place);
    if n == 0 {
        Seq::empty()
    } else {
        let shorter = lemma_levels(timestamps, now, count, place, (n - 1) as nat);
        lemma_one_wanted(shorter, n - 1, wanted);
        assert(timestamps.take(n as int).drop_last() == timestamps.take(n - 1));
        assert(timestamps.take(n as int).last() == timestamps[n - 1]);
        if wanted(n - 1) {
            shorter.push(n - 1)
        } else {
            shorter
        }
    }
}

/// Minutes below a hundred are written with two digits.
pub proof fn law_minutes_have_two_digits(n: nat)
    requires
        n < 100,
    ensures
        two_digits(n).len() == 2,
        n >= 10 ==> two_digits(n) == decimal(n),
{
    reveal_strlit("0");
    reveal_with_fuel(decimal, 3);
    assert(n / 10 < 10);
}

/// What is typed in counts without the white space round it, and not at all where
/// nothing else was typed; the first choice of a folder is none, and each other
/// one is the folder at its place.
pub proof fn law_inputs_are_taken(text: Seq<char>, folders: Seq<FolderView>, choice: int)
    ensures
        trim(text).len() == 0 ==> typed_in(text) is None,
        trim(text).len() > 0 ==> typed_in(text) == Some(trim(text)),
        chosen_in(folders, 0) is None,
        1 <= choice <= folders.len() ==> chosen_in(folders, choice) == Some(folders[choice - 1].id),
        choice > folders.len() ==> chosen_in(folders, choice) is None,
{
}

/// An article is read from its text, else from its summary; a summary is shown
/// without its tags and in one line, where that leaves something.
pub proof fn law_article_is_read_from_its_text(article: FullArticleView, summary: Seq<char>)
    ensures
        article.content is Some ==> source_of(article) == article.content->0,
        article.content is None && article.summary is Some ==> source_of(article)
            == article.summary->0,
        article.content is None && article.summary is None ==> source_of(article).len() == 0,
        summary_shown(None) is None,
        collapse(without_tags(summary, false)).len() > 0 ==> summary_shown(Some(summary)) == Some(
            collapse(without_tags(summary, false)),
        ),
        collapse(without_tags(summary, false)).len() == 0 ==> summary_shown(Some(summary)) is None,
{
}

/// Feeds with an article without any date are to be fetched again in full: what
/// their servers gave to tell changes is forgotten. All others keep it.
pub proof fn law_undated_feeds_are_fetched_again(
    feeds: Seq<FeedRowView>,
    articles: Seq<ArticleRowView>,
    f: int,
    i: int,
)
    requires
        0 <= f < feeds.len(),
    ensures
        ({
            let after = refetching(feeds, articles)[f];
            &&& refetching(feeds, articles).len() == feeds.len()
            &&& 0 <= i < articles.len() && articles[i].feed_stable_id == feeds[f].feed.stable_id
                && articles[i].published_at is None && articles[i].updated_at is None
                ==> after.feed.etag is None && after.feed.last_modified is None
            &&& (forall|k: int|
                0 <= k < articles.len() && (#[trigger] articles[k]).feed_stable_id
                    == feeds[f].feed.stable_id ==> articles[k].published_at is Some
                    || articles[k].updated_at is Some) ==> after == feeds[f]
            &&& after == (FeedRowView {
                feed: FeedRecordView {
                    etag: after.feed.etag,
                    last_modified: after.feed.last_modified,
                    ..feeds[f].feed
                },
                ..feeds[f]
            })
        }),
{
    let id = feeds[f].feed.stable_id;
    if 0 <= i < articles.len() && articles[i].feed_stable_id == id && articles[i].published_at is None
        && articles[i].updated_at is None {
        assert(crate::schema::has_undated(articles, id));
    }
}

} // verus!
