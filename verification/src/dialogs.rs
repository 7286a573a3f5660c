//! What the dialogs and the reading view say, and what is chosen in them.

use crate::directory::{entries, entry_of, Entry, ENTRIES};
use crate::markup::{untagged, without_tags};
use crate::parser::lent;
use crate::reader::{block_views, Block, BlockView, Document, Link};
use crate::records::{folder_views, FolderRecord, FolderView, FullArticle, FullArticleView};
use crate::text::{
    begins, collapse, collapsed, decimal, decimal_text, same, starts_with, trim, trimmed, view_of,
};
use vstd::prelude::*;

verus! {

/// How many links of a paragraph are offered below it.
pub const MAX_SHOWN_LINKS: usize = 8;

/// What is said before a key is chosen.
pub const KEY_CHOICE: &'static str =
    "Use an existing Nostr key, or generate a dedicated key for better separation from your public identity. Backup contents are encrypted, but relays can still observe the key, timing, and event size.";

/// What is said where a key is typed in.
pub const KEY_CUSTODY: &'static str =
    "The key is validated locally and stored only through Linux Secret Service. It is never sent to a relay. Using a public identity may make backup activity linkable to it.";

/// What is said of a new key.
pub const KEY_WARNING: &'static str =
    "This key is required to restore your Nostr backup on another computer. FeedLizard cannot recover it if you lose it.";

/// What is asked before a key is removed.
pub const KEY_REMOVAL: &'static str =
    "This disables backup and restore on this computer. It does not remove encrypted events already held by relays.";

/// What is said below the list of backups.
pub const RELAYS_DIFFER: &'static str =
    "Relays are independent and may retain different subsets of your backup history.";

/// What is said of the companion where it can be installed.
pub const COMPANION_READY: &'static str =
    "Copy the supported install command, then run it on the host. Omarchy will show its normal security warning and ask you to approve the plugin. FeedLizard never bypasses that confirmation or writes to your Omarchy configuration directly.";

/// What is said of the companion where it cannot be installed yet.
pub const COMPANION_AWAITED: &'static str =
    "The compact FeedLizard Omarchy companion is ready, but its standalone plugin repository has not been published yet. Once available, installation will use Omarchy’s normal confirmed plugin workflow.";

/// What is asked before all stars go.
pub const UNSTAR_WARNING: &'static str =
    "This removes every star from your library. Articles and read status are not changed.";

/// What is asked before a feed goes.
pub const UNSUBSCRIBE_WARNING: &'static str =
    "The feed and its locally stored articles will be removed. This cannot be undone.";

/// What is said above the directory of feeds.
pub const DIRECTORY_INTRODUCTION: &'static str =
    "Choose any feeds you’d like to follow. You can add or remove feeds anytime.";

/// What is said where an address is typed in.
pub const ADDRESS_KINDS: &'static str =
    "Enter an RSS, Atom, JSON Feed, or website address.";

/// What is said of backups in the settings.
pub const BACKUP_NATURE: &'static str =
    "Optional, manual, encrypted subscription backup. Local SQLite remains authoritative.";

/// What is said of old articles in the settings.
pub const RETENTION_RULE: &'static str =
    "Unstarred articles are retained for 30 days. Starred articles are kept.";

/// The keys for reading.
pub const READING_KEYS: &'static str =
    "J / K  Previous or next · Enter  Open · M  Read/unread · S  Star";

/// The other keys.
pub const OTHER_KEYS: &'static str =
    "/  Search · R  Refresh · Esc  Back · ← / →  Turn page";

/// A name as a reader typed it, if it is one.
pub open spec fn typed_in(text: Seq<char>) -> Option<Seq<char>> {
    if trim(text).len() == 0 {
        None
    } else {
        Some(trim(text))
    }
}

/// The name that a reader typed, if it is one.
pub fn typed_name(text: &str) -> (r: Option<String>)
    ensures
        view_of(r) == typed_in(text@),
{
    let name = trimmed(text);
    if name.as_str().is_empty() {
        None
    } else {
        Some(name)
    }
}

/// The place of a folder in a list of choices, of which the first is that a feed
/// has none.
pub open spec fn choice_of(folders: Seq<FolderView>, id: Option<i64>, i: int) -> int
    decreases folders.len() - i,
{
    match id {
        None => 0,
        Some(wanted) => if i < 0 || i >= folders.len() {
            0
        } else if folders[i].id == wanted {
            i + 1
        } else {
            choice_of(folders, id, i + 1)
        },
    }
}

/// The place of the folder `id` among the choices.
pub fn folder_choice(folders: &Vec<FolderRecord>, id: Option<i64>) -> (r: usize)
    ensures
        r == choice_of(folder_views(folders@), id, 0),
        r <= folders@.len(),
{
    let wanted: i64 = match id {
        None => {
            return 0;
        },
        Some(wanted) => wanted,
    };
    let ghost all = folder_views(folders@);
    let mut i: usize = 0;
    while i < folders.len()
        invariant
            i <= folders@.len(),
            all == folder_views(folders@),
            id == Some(wanted),
            choice_of(all, id, 0) == choice_of(all, id, i as int),
        decreases folders@.len() - i,
    {
        assert(all[i as int] == folders@[i as int]@);
        if folders[i].id == wanted {
            return i + 1;
        }
        i += 1;
    }
    0
}

/// The folder that a choice stands for.
pub open spec fn chosen_in(folders: Seq<FolderView>, choice: int) -> Option<i64> {
    if 1 <= choice <= folders.len() {
        Some(folders[choice - 1].id)
    } else {
        None
    }
}

/// The folder that the choice `choice` stands for.
pub fn chosen_folder(folders: &Vec<FolderRecord>, choice: usize) -> (r: Option<i64>)
    ensures
        r == chosen_in(folder_views(folders@), choice as int),
{
    if choice >= 1 && choice <= folders.len() {
        assert(folder_views(folders@)[choice - 1] == folders@[choice - 1]@);
        Some(folders[choice - 1].id)
    } else {
        None
    }
}

/// The folder of a feed is among the choices, and choosing it again keeps it.
pub proof fn law_choices_name_their_folders(folders: Seq<FolderView>, id: Option<i64>, i: int)
    requires
        0 <= i <= folders.len(),
        id is Some ==> exists|k: int| i <= k < folders.len() && #[trigger] folders[k].id == id->0,
    ensures
        chosen_in(folders, choice_of(folders, id, i)) == id,
    decreases folders.len() - i,
{
    if let Some(wanted) = id {
        let k = choose|k: int| i <= k < folders.len() && #[trigger] folders[k].id == wanted;
        if folders[i].id != wanted {
            assert(i + 1 <= k);
            law_choices_name_their_folders(folders, id, i + 1);
        }
    }
}

/// What the button says that adds some feeds of the directory.
pub fn add_label(count: usize) -> (r: String)
    ensures
        r@ == "Add "@ + decimal(count as nat) + (if count == 1 {
            " Feed"@
        } else {
            " Feeds"@
        }),
{
    let mut out = "Add ".to_owned();
    let number = decimal_text(count as u64);
    out.append(number.as_str());
    out.append(
        if count == 1 {
            " Feed"
        } else {
            " Feeds"
        },
    );
    out
}

/// The feeds of the directory about something, among the first `n`.
pub open spec fn about(category: Seq<char>, n: nat) -> Seq<Entry>
    decreases n,
{
    if n == 0 {
        Seq::empty()
    } else {
        let before = about(category, (n - 1) as nat);
        let entry = entry_of(ENTRIES@[n - 1]);
        if entry.category@ == category {
            before.push(entry)
        } else {
            before
        }
    }
}

/// The feeds of the directory about `category`.
pub fn entries_about(category: &str) -> (r: Vec<Entry>)
    ensures
        r@ == about(category@, 21),
{
    let all = entries();
    let mut out: Vec<Entry> = Vec::new();
    let mut i: usize = 0;
    while i < 21
        invariant
            i <= 21,
            all@.len() == 21,
            forall|j: int| 0 <= j < 21 ==> #[trigger] all@[j] == entry_of(ENTRIES@[j]),
            out@ == about(category@, i as nat),
        decreases 21 - i,
    {
        let entry = all[i];
        assert(entry == entry_of(ENTRIES@[i as int]));
        if same(entry.category, category) {
            out.push(entry);
        }
        i += 1;
    }
    out
}

/// What an announced feed is called: its title, else its address.
pub fn candidate_label(url: &str, title: Option<&str>) -> (r: String)
    ensures
        r@ == match title {
            Some(text) => text@,
            None => url@,
        },
{
    match title {
        Some(text) => text.to_owned(),
        None => url.to_owned(),
    }
}

/// What is said of a backup in a list.
pub open spec fn snapshot_text(feeds: nat, folders: nat) -> Seq<char> {
    decimal(feeds) + " feeds · "@ + decimal(folders) + " folders"@
}

/// What is said of a backup in a list.
pub fn snapshot_line(feeds: usize, folders: usize) -> (r: String)
    ensures
        r@ == snapshot_text(feeds as nat, folders as nat),
{
    let mut out = decimal_text(feeds as u64);
    out.append(" feeds · ");
    let number = decimal_text(folders as u64);
    out.append(number.as_str());
    out.append(" folders");
    out
}

/// What is asked before a backup is restored.
pub open spec fn restore_text(
    time: Seq<char>,
    subscriptions: nat,
    folders: nat,
    to_add: nat,
    present: nat,
) -> Seq<char> {
    time + "\n"@ + decimal(subscriptions) + " subscriptions · "@ + decimal(folders) + " folders\n"@
        + decimal(to_add) + " feeds to add · "@ + decimal(present) + " already present\n\n"@
        + "Restore merges subscriptions, folders, and custom names transactionally. Local-only subscriptions are preserved."@
}

/// What is asked before a backup is restored that was made at `time`.
pub fn restore_question(
    time: &str,
    subscriptions: usize,
    folders: usize,
    to_add: usize,
    present: usize,
) -> (r: String)
    ensures
        r@ == restore_text(
            time@,
            subscriptions as nat,
            folders as nat,
            to_add as nat,
            present as nat,
        ),
{
    let mut out = time.to_owned();
    out.append("\n");
    let number = decimal_text(subscriptions as u64);
    out.append(number.as_str());
    out.append(" subscriptions · ");
    let number = decimal_text(folders as u64);
    out.append(number.as_str());
    out.append(" folders\n");
    let number = decimal_text(to_add as u64);
    out.append(number.as_str());
    out.append(" feeds to add · ");
    let number = decimal_text(present as u64);
    out.append(number.as_str());
    out.append(" already present\n\n");
    out.append(
        "Restore merges subscriptions, folders, and custom names transactionally. Local-only subscriptions are preserved.",
    );
    out
}

/// Whether `text`, which was dropped on a folder, is the id of a feed.
pub fn is_feed_id(text: &str) -> (r: bool)
    ensures
        r == starts_with(text@, "feed:v1:"@),
{
    begins(text, "feed:v1:")
}

/// Whether `text` may be a key, before it is looked at.
pub fn may_be_key(text: &str) -> (r: bool)
    ensures
        r == starts_with(text@, "nsec1"@),
{
    begins(text, "nsec1")
}

/// What the key for going back closes.
#[derive(Debug, Clone, Copy, PartialEq, Eq, Structural)]
pub enum BackStep {
    Reader,
    Articles,
    Search,
    Nothing,
}

/// What the key for going back closes: the reader where it hides the articles,
/// else the articles where they hide the sidebar, else the search.
pub fn back_step(
    reader_alone: bool,
    reader_shown: bool,
    articles_alone: bool,
    articles_shown: bool,
    searching: bool,
) -> (r: BackStep)
    ensures
        r == if reader_alone && reader_shown {
            BackStep::Reader
        } else if articles_alone && articles_shown {
            BackStep::Articles
        } else if searching {
            BackStep::Search
        } else {
            BackStep::Nothing
        },
{
    if reader_alone && reader_shown {
        BackStep::Reader
    } else if articles_alone && articles_shown {
        BackStep::Articles
    } else if searching {
        BackStep::Search
    } else {
        BackStep::Nothing
    }
}

/// What of an article is read: its content, else its summary.
pub open spec fn source_of(article: FullArticleView) -> Seq<char> {
    match article.content {
        Some(text) => text,
        None => match article.summary {
            Some(text) => text,
            None => Seq::empty(),
        },
    }
}

/// What of `article` is read.
pub fn article_source(article: &FullArticle) -> (r: String)
    ensures
        r@ == source_of(article@),
{
    match &article.content {
        Some(text) => text.clone(),
        None => match &article.summary {
            Some(text) => text.clone(),
            None => String::new(),
        },
    }
}

/// What is said of an article above its text.
pub open spec fn byline(article: FullArticleView, time: Seq<char>) -> Seq<char> {
    article.feed_name + (match article.author {
        Some(name) => " · "@ + name,
        None => Seq::empty(),
    }) + " · "@ + time
}

/// What is said of `article`, which appeared at `time`, above its text.
pub fn reader_line(article: &FullArticle, time: &str) -> (r: String)
    ensures
        r@ == byline(article@, time@),
{
    let mut out = article.feed_name.clone();
    let ghost start = out@;
    if let Some(name) = &article.author {
        out.append(" · ");
        out.append(name.as_str());
        assert(out@ == start + (" · "@ + name@));
    } else {
        assert(out@ == start + Seq::<char>::empty());
    }
    out.append(" · ");
    out.append(time);
    out
}

/// What is said of an article of the feed `feed` above its title in a list.
pub fn row_line(feed: &str, time: &str) -> (r: String)
    ensures
        r@ == feed@ + "  ·  "@ + time@,
{
    let mut out = feed.to_owned();
    out.append("  ·  ");
    out.append(time);
    out
}

/// What is shown of a summary below a title: its words without markup, if there
/// are any.
pub open spec fn summary_shown(summary: Option<Seq<char>>) -> Option<Seq<char>> {
    match summary {
        Some(text) => if collapse(without_tags(text, false)).len() == 0 {
            None
        } else {
            Some(collapse(without_tags(text, false)))
        },
        None => None,
    }
}

/// The words of `input` without markup.
pub fn strip_html(input: &str) -> (r: String)
    ensures
        r@ == collapse(without_tags(input@, false)),
{
    let bare = untagged(input);
    collapsed(bare.as_str())
}

/// What is shown of `summary` below a title.
pub fn summary_line(summary: &Option<String>) -> (r: Option<String>)
    ensures
        view_of(r) == summary_shown(view_of(*summary)),
{
    match lent(summary) {
        Some(text) => {
            let words = strip_html(text);
            if words.as_str().is_empty() {
                None
            } else {
                Some(words)
            }
        },
        None => None,
    }
}

/// An item of a list as it is shown.
pub fn list_line(text: &str) -> (r: String)
    ensures
        r@ == "•  "@ + text@,
{
    let mut out = "•  ".to_owned();
    out.append(text);
    out
}

/// What is laid out on pages: the title, then the blocks of the article.
pub fn page_document(title: &str, document: Document) -> (r: Document)
    ensures
        block_views(r.blocks@) == seq![BlockView::Heading { level: 1, text: title@ }] + block_views(
            document.blocks@,
        ),
{
    let ghost all = block_views(document.blocks@);
    let mut blocks = document.blocks;
    blocks.insert(0, Block::Heading { level: 1, text: title.to_owned() });
    assert(block_views(blocks@) == seq![BlockView::Heading { level: 1, text: title@ }] + all);
    Document { blocks }
}

/// How many of `links` are offered below their paragraph.
pub fn shown_links(links: &Vec<Link>) -> (r: usize)
    ensures
        r == if links@.len() > MAX_SHOWN_LINKS {
            MAX_SHOWN_LINKS as int
        } else {
            links@.len() as int
        },
{
    if links.len() > MAX_SHOWN_LINKS {
        MAX_SHOWN_LINKS
    } else {
        links.len()
    }
}

/// Which pair of facing pages the page `page` belongs to.
pub fn spread_of(page: usize) -> (r: usize)
    ensures
        r == page / 2,
{
    page / 2
}

/// Whether there are pages behind the one, or the two, that are open.
pub fn can_turn_on(page: usize, count: usize, wide: bool) -> (r: bool)
    ensures
        r == (page + (if wide {
            2int
        } else {
            1int
        }) < count),
{
    let step: u128 = if wide {
        2
    } else {
        1
    };
    page as u128 + step < count as u128
}

} // verus!
