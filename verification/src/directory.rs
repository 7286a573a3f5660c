//! Feeds to start with.

use crate::identity::{feed_id, feed_identity};
use crate::records::FeedRecord;
use vstd::hash_set::StringHashSet;
use vstd::prelude::*;

verus! {

/// A feed to start with.
#[derive(Debug, Clone, Copy, PartialEq, Eq)]
pub struct Entry {
    pub id: &'static str,
    pub name: &'static str,
    pub feed_url: &'static str,
    pub website_url: &'static str,
    pub category: &'static str,
}

/// What the feeds are about.
pub const CATEGORIES: [&'static str; 6] = [
    "Technology",
    "Apple",
    "Linux & Open Source",
    "Security",
    "Science",
    "General News",
];

/// Feeds to start with, each by its id, its name, its address, the address of its
/// site and what it is about. Looking at them asks no publisher for anything.
pub const ENTRIES: [[&'static str; 5]; 21] = [
    [
        "ars-technica",
        "Ars Technica",
        "https://feeds.arstechnica.com/arstechnica/index",
        "https://arstechnica.com",
        "Technology",
    ],
    [
        "the-verge",
        "The Verge",
        "https://www.theverge.com/rss/index.xml",
        "https://www.theverge.com",
        "Technology",
    ],
    [
        "techcrunch",
        "TechCrunch",
        "https://techcrunch.com/feed/",
        "https://techcrunch.com",
        "Technology",
    ],
    [
        "wired",
        "WIRED",
        "https://www.wired.com/feed/rss",
        "https://www.wired.com",
        "Technology",
    ],
    [
        "nerds-xyz",
        "NERDS.xyz",
        "https://nerds.xyz/feed/",
        "https://nerds.xyz",
        "Technology",
    ],
    [
        "joanna-stern-new-things",
        "Joanna Stern: The New Things",
        "https://rss.beehiiv.com/feeds/1vJYynypCP.xml",
        "https://thenewthings.com",
        "Technology",
    ],
    [
        "macrumors",
        "MacRumors",
        "https://feeds.macrumors.com/MacRumors-All",
        "https://www.macrumors.com",
        "Apple",
    ],
    [
        "9to5mac",
        "9to5Mac",
        "https://9to5mac.com/feed/",
        "https://9to5mac.com",
        "Apple",
    ],
    [
        "apple-newsroom",
        "Apple Newsroom",
        "https://www.apple.com/newsroom/rss-feed.rss",
        "https://www.apple.com/newsroom/",
        "Apple",
    ],
    [
        "phoronix",
        "Phoronix",
        "https://www.phoronix.com/rss.php",
        "https://www.phoronix.com",
        "Linux & Open Source",
    ],
    [
        "fedora-magazine",
        "Fedora Magazine",
        "https://fedoramagazine.org/feed/",
        "https://fedoramagazine.org",
        "Linux & Open Source",
    ],
    [
        "omg-ubuntu",
        "OMG! Ubuntu",
        "https://www.omgubuntu.co.uk/feed",
        "https://www.omgubuntu.co.uk",
        "Linux & Open Source",
    ],
    [
        "ubuntu-blog",
        "Ubuntu Blog",
        "https://ubuntu.com/blog/feed",
        "https://ubuntu.com/blog",
        "Linux & Open Source",
    ],
    [
        "krebs-security",
        "Krebs on Security",
        "https://krebsonsecurity.com/feed/",
        "https://krebsonsecurity.com",
        "Security",
    ],
    [
        "bleeping-computer",
        "BleepingComputer",
        "https://www.bleepingcomputer.com/feed/",
        "https://www.bleepingcomputer.com",
        "Security",
    ],
    [
        "cisa-advisories",
        "CISA Cybersecurity Advisories",
        "https://www.cisa.gov/cybersecurity-advisories/all.xml",
        "https://www.cisa.gov/news-events/cybersecurity-advisories",
        "Security",
    ],
    [
        "nasa",
        "NASA",
        "https://www.nasa.gov/feed/",
        "https://www.nasa.gov",
        "Science",
    ],
    [
        "science-daily",
        "ScienceDaily",
        "https://www.sciencedaily.com/rss/all.xml",
        "https://www.sciencedaily.com",
        "Science",
    ],
    [
        "nature",
        "Nature",
        "https://www.nature.com/nature.rss",
        "https://www.nature.com",
        "Science",
    ],
    [
        "bbc-news",
        "BBC News",
        "https://feeds.bbci.co.uk/news/rss.xml",
        "https://www.bbc.com/news",
        "General News",
    ],
    [
        "npr-news",
        "NPR News",
        "https://feeds.npr.org/1001/rss.xml",
        "https://www.npr.org",
        "General News",
    ],
];

/// The feed to start with that a row describes.
pub open spec fn entry_of(row: [&'static str; 5]) -> Entry {
    Entry {
        id: row@[0],
        name: row@[1],
        feed_url: row@[2],
        website_url: row@[3],
        category: row@[4],
    }
}

/// The feeds to start with.
pub fn entries() -> (r: Vec<Entry>)
    ensures
        r@.len() == 21,
        forall|i: int| 0 <= i < 21 ==> #[trigger] r@[i] == entry_of(ENTRIES@[i]),
{
    let rows = ENTRIES;
    let mut out: Vec<Entry> = Vec::new();
    let mut i: usize = 0;
    while i < 21
        invariant
            i <= 21,
            rows == ENTRIES,
            out@.len() == i,
            forall|j: int| 0 <= j < i ==> #[trigger] out@[j] == entry_of(ENTRIES@[j]),
        decreases 21 - i,
    {
        let row = rows[i];
        out.push(
            Entry {
                id: row[0],
                name: row[1],
                feed_url: row[2],
                website_url: row[3],
                category: row[4],
            },
        );
        i += 1;
    }
    out
}

/// The ids of the feeds in `feeds`.
pub fn subscribed_ids(feeds: &Vec<FeedRecord>) -> (r: StringHashSet)
    ensures
        forall|id: Seq<char>| #[trigger]
            r@.contains(id) == exists|i: int|
                0 <= i < feeds@.len() && (#[trigger] feeds@[i])@.stable_id == id,
{
    let mut ids = StringHashSet::new();
    let mut i: usize = 0;
    while i < feeds.len()
        invariant
            i <= feeds@.len(),
            forall|id: Seq<char>| #[trigger]
                ids@.contains(id) == exists|k: int|
                    0 <= k < i && (#[trigger] feeds@[k])@.stable_id == id,
        decreases feeds@.len() - i,
    {
        let ghost before = ids@;
        ids.insert(feeds[i].stable_id.clone());
        assert forall|id: Seq<char>| #[trigger]
            ids@.contains(id) == exists|k: int|
                0 <= k < i + 1 && (#[trigger] feeds@[k])@.stable_id == id by {
            if before.contains(id) {
                let k = choose|k: int| 0 <= k < i && (#[trigger] feeds@[k])@.stable_id == id;
                assert(feeds@[k]@.stable_id == id);
            }
            if ids@.contains(id) && !before.contains(id) {
                assert(feeds@[i as int]@.stable_id == id);
            }
            if exists|k: int| 0 <= k < i + 1 && (#[trigger] feeds@[k])@.stable_id == id {
                let k = choose|k: int| 0 <= k < i + 1 && (#[trigger] feeds@[k])@.stable_id == id;
                if k < i {
                    assert(before.contains(id));
                }
            }
        }
        i += 1;
    }
    ids
}

/// Whether the feed of `entry` is among the ids `subscribed`.
pub fn is_subscribed(entry: &Entry, subscribed: &StringHashSet) -> (r: bool)
    ensures
        r == subscribed@.contains(feed_identity(entry.feed_url@)),
{
    let id = feed_id(entry.feed_url);
    subscribed.contains(id.as_str())
}

} // verus!
