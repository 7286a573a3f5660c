//! Feeds that a page announces, ranked.

use crate::parser::copied;
use crate::text::{before, before_char, lower, lowered, same, trim, trimmed, view_of, views};
use crate::unique::{firsts, is_first, lemma_firsts_step, mark_firsts};
use crate::web::{resolve, resolved};
use vstd::prelude::*;

verus! {

/// The format that a page announces for a feed.
#[derive(Debug, Clone, Copy, PartialEq, Eq, PartialOrd, Ord, Structural)]
pub enum DiscoveryFormat {
    Rss,
    Atom,
    Json,
}

/// A link that a page announces.
#[derive(Debug, Clone, PartialEq, Eq)]
pub struct DiscoveryLink {
    pub href: String,
    pub mime_type: String,
    pub title: Option<String>,
}

/// What a [`DiscoveryLink`] holds.
pub struct LinkView {
    pub href: Seq<char>,
    pub mime_type: Seq<char>,
    pub title: Option<Seq<char>>,
}

impl View for DiscoveryLink {
    type V = LinkView;

    open spec fn view(&self) -> LinkView {
        LinkView { href: self.href@, mime_type: self.mime_type@, title: view_of(self.title) }
    }
}

/// What the links of a list hold.
pub open spec fn link_views(list: Seq<DiscoveryLink>) -> Seq<LinkView> {
    Seq::new(list.len(), |i: int| list[i]@)
}

/// A feed that can be subscribed to.
#[derive(Debug, PartialEq, Eq)]
pub struct FeedCandidate {
    pub url: String,
    pub format: DiscoveryFormat,
    pub title: Option<String>,
}

/// What a [`FeedCandidate`] holds.
pub struct CandidateView {
    pub url: Seq<char>,
    pub format: DiscoveryFormat,
    pub title: Option<Seq<char>>,
}

impl View for FeedCandidate {
    type V = CandidateView;

    open spec fn view(&self) -> CandidateView {
        CandidateView { url: self.url@, format: self.format, title: view_of(self.title) }
    }
}

impl Clone for FeedCandidate {
    fn clone(&self) -> (r: Self)
        ensures
            r@ == self@,
    {
        FeedCandidate {
            url: self.url.clone(),
            format: self.format,
            title: copied(&self.title),
        }
    }
}

/// What the feeds of a list hold.
pub open spec fn candidate_views(list: Seq<FeedCandidate>) -> Seq<CandidateView> {
    Seq::new(list.len(), |i: int| list[i]@)
}

/// The format that a media type names, its parameters left aside.
pub open spec fn announced_format(mime_type: Seq<char>) -> Option<DiscoveryFormat> {
    let kind = lower(trim(before_char(mime_type, ';')));
    if kind == "application/rss+xml"@ || kind == "application/rdf+xml"@ {
        Some(DiscoveryFormat::Rss)
    } else if kind == "application/atom+xml"@ {
        Some(DiscoveryFormat::Atom)
    } else if kind == "application/feed+json"@ || kind == "application/json"@ {
        Some(DiscoveryFormat::Json)
    } else {
        None
    }
}

fn format_in(mime_type: &str) -> (r: Option<DiscoveryFormat>)
    ensures
        r == announced_format(mime_type@),
{
    let head = before(mime_type, ';');
    let bare = trimmed(head.as_str());
    let kind = lowered(bare.as_str());
    if same(kind.as_str(), "application/rss+xml") || same(kind.as_str(), "application/rdf+xml") {
        Some(DiscoveryFormat::Rss)
    } else if same(kind.as_str(), "application/atom+xml") {
        Some(DiscoveryFormat::Atom)
    } else if same(kind.as_str(), "application/feed+json") || same(
        kind.as_str(),
        "application/json",
    ) {
        Some(DiscoveryFormat::Json)
    } else {
        None
    }
}

/// The feed that a link leads to.
pub open spec fn linked_feed(base: Seq<char>, link: LinkView) -> Option<CandidateView> {
    match (announced_format(link.mime_type), resolved(base, link.href)) {
        (Some(format), Some(url)) => Some(CandidateView { url, format, title: link.title }),
        _ => None,
    }
}

/// The feeds that the links of a list lead to.
pub open spec fn linked_feeds(base: Seq<char>, links: Seq<LinkView>) -> Seq<CandidateView>
    decreases links.len(),
{
    if links.len() == 0 {
        Seq::empty()
    } else {
        let before = linked_feeds(base, links.drop_last());
        match linked_feed(base, links.last()) {
            Some(feed) => before.push(feed),
            None => before,
        }
    }
}

/// The addresses of the feeds of a list.
pub open spec fn candidate_urls(list: Seq<CandidateView>) -> Seq<Seq<char>> {
    Seq::new(list.len(), |i: int| list[i].url)
}

/// The feeds of a list that have a format.
pub open spec fn of_format(list: Seq<CandidateView>, format: DiscoveryFormat) -> Seq<CandidateView>
    decreases list.len(),
{
    if list.len() == 0 {
        Seq::empty()
    } else if list.last().format == format {
        of_format(list.drop_last(), format).push(list.last())
    } else {
        of_format(list.drop_last(), format)
    }
}

/// The feeds that a page announces, each address once: RSS, then Atom, then
/// JSON, and among those of one format as on the page.
pub open spec fn ranked(base: Seq<char>, links: Seq<LinkView>) -> Seq<CandidateView> {
    let all = linked_feeds(base, links);
    let distinct = firsts(all, candidate_urls(all));
    of_format(distinct, DiscoveryFormat::Rss) + of_format(distinct, DiscoveryFormat::Atom)
        + of_format(distinct, DiscoveryFormat::Json)
}

fn follow(base: &str, links: &Vec<DiscoveryLink>) -> (r: Vec<FeedCandidate>)
    ensures
        candidate_views(r@) == linked_feeds(base@, link_views(links@)),
{
    let ghost all = link_views(links@);
    let mut out: Vec<FeedCandidate> = Vec::new();
    let mut i: usize = 0;
    assert(candidate_views(out@) == Seq::<CandidateView>::empty());
    while i < links.len()
        invariant
            i <= links@.len(),
            all == link_views(links@),
            candidate_views(out@) == linked_feeds(base@, all.take(i as int)),
        decreases links@.len() - i,
    {
        assert(all.take(i + 1).drop_last() == all.take(i as int));
        assert(all.take(i + 1).last() == links@[i as int]@);
        let ghost before = candidate_views(out@);
        if let Some(format) = format_in(links[i].mime_type.as_str()) {
            if let Some(url) = resolve(base, links[i].href.as_str()) {
                let feed = FeedCandidate { url, format, title: copied(&links[i].title) };
                out.push(feed);
                assert(candidate_views(out@) == before.push(feed@));
            }
        }
        i += 1;
    }
    assert(all.take(i as int) == all);
    out
}

fn push_format(out: &mut Vec<FeedCandidate>, list: &Vec<FeedCandidate>, format: DiscoveryFormat)
    ensures
        candidate_views(final(out)@) == candidate_views(old(out)@) + of_format(
            candidate_views(list@),
            format,
        ),
{
    let ghost all = candidate_views(list@);
    let ghost start = candidate_views(out@);
    let mut i: usize = 0;
    assert(start + of_format(all.take(0), format) == start);
    while i < list.len()
        invariant
            i <= list@.len(),
            all == candidate_views(list@),
            candidate_views(out@) == start + of_format(all.take(i as int), format),
        decreases list@.len() - i,
    {
        assert(all.take(i + 1).drop_last() == all.take(i as int));
        assert(all.take(i + 1).last() == list@[i as int]@);
        let ghost before = candidate_views(out@);
        let ghost sofar = of_format(all.take(i as int), format);
        if list[i].format == format {
            let feed = list[i].clone();
            out.push(feed);
            assert(candidate_views(out@) == before.push(feed@));
            assert((start + sofar).push(feed@) == start + sofar.push(feed@));
        }
        i += 1;
    }
    assert(all.take(i as int) == all);
}

/// The feeds that `links`, found on the page at `base_url`, lead to.
pub fn rank_candidates(base_url: &str, links: &Vec<DiscoveryLink>) -> (r: Vec<FeedCandidate>)
    ensures
        candidate_views(r@) == ranked(base_url@, link_views(links@)),
{
    let found = follow(base_url, links);
    let ghost all = candidate_views(found@);
    let ghost urls = candidate_urls(all);
    let mut keys: Vec<String> = Vec::new();
    let mut i: usize = 0;
    while i < found.len()
        invariant
            i <= found@.len(),
            all == candidate_views(found@),
            urls == candidate_urls(all),
            views(keys@) == urls.take(i as int),
        decreases found@.len() - i,
    {
        assert(all[i as int] == found@[i as int]@);
        let ghost before = keys@;
        keys.push(found[i].url.clone());
        assert(views(keys@) == views(before).push(urls[i as int]));
        assert(urls.take(i + 1) == urls.take(i as int).push(urls[i as int]));
        i += 1;
    }
    assert(urls.take(i as int) == urls);
    assert(views(keys@).len() == keys@.len());
    let marks = mark_firsts(&keys);
    let mut distinct: Vec<FeedCandidate> = Vec::new();
    let mut k: usize = 0;
    assert(candidate_views(distinct@) == firsts(all.take(0), urls.take(0)));
    while k < found.len()
        invariant
            k <= found@.len() == marks@.len(),
            all == candidate_views(found@),
            urls == candidate_urls(all),
            forall|j: int| 0 <= j < marks@.len() ==> #[trigger] marks@[j] == is_first(urls, j),
            candidate_views(distinct@) == firsts(all.take(k as int), urls.take(k as int)),
        decreases found@.len() - k,
    {
        proof {
            lemma_firsts_step(all, urls, k as int);
        }
        assert(all[k as int] == found@[k as int]@);
        let ghost before = candidate_views(distinct@);
        if marks[k] {
            let feed = found[k].clone();
            distinct.push(feed);
            assert(candidate_views(distinct@) == before.push(feed@));
        }
        k += 1;
    }
    assert(all.take(k as int) == all);
    assert(urls.take(k as int) == urls);
    let mut out: Vec<FeedCandidate> = Vec::new();
    let ghost none = candidate_views(out@);
    push_format(&mut out, &distinct, DiscoveryFormat::Rss);
    assert(none + of_format(candidate_views(distinct@), DiscoveryFormat::Rss) == of_format(
        candidate_views(distinct@),
        DiscoveryFormat::Rss,
    ));
    push_format(&mut out, &distinct, DiscoveryFormat::Atom);
    push_format(&mut out, &distinct, DiscoveryFormat::Json);
    out
}

} // verus!
