//! The command line: which task the arguments name, and the lines that tell of
//! what was done.

use crate::page_discovery::{DiscoveredFeed, DiscoveredView};
use crate::records::{
    ArticleListItem, FeedRecord, FeedRecordView, ImportStats, IngestStats, LibraryStats,
    ListItemView,
};
use crate::refresh::RefreshSummary;
use crate::text::{decimal, decimal_int, decimal_text, join, joined, same, signed_text, views};
use vstd::prelude::*;

verus! {

/// How many articles a task lists.
pub const LISTED: usize = 50;

/// How many articles go at once where old ones are removed.
pub const CLEANED: usize = 10_000;

/// What is said where the arguments name no task.
pub const USAGE: &'static str =
    "usage: feedlizard-dev-cli <init|import-feed-fixture|list-feeds|list-unread|stats|search|mark-all-read|cleanup|opml-import|opml-export|benchmark|fetch|discover|add|refresh|refresh-all> ...";

/// A task. Libraries and files are named by their paths.
#[derive(Debug, PartialEq, Eq)]
pub enum Task {
    Init(String),
    ImportFeed { library: String, file: String, url: String },
    ListFeeds(String),
    ListUnread(String),
    Stats(String),
    Search { library: String, query: String },
    MarkAllRead(String),
    Cleanup(String),
    ImportList { library: String, file: String },
    ExportList { library: String, file: String },
    Benchmark { library: String, total: String },
    Fetch(String),
    Discover(String),
    Add { library: String, url: String },
    Refresh { library: String, feed: String },
    RefreshAll(String),
}

/// What a [`Task`] holds.
pub enum TaskView {
    Init(Seq<char>),
    ImportFeed { library: Seq<char>, file: Seq<char>, url: Seq<char> },
    ListFeeds(Seq<char>),
    ListUnread(Seq<char>),
    Stats(Seq<char>),
    Search { library: Seq<char>, query: Seq<char> },
    MarkAllRead(Seq<char>),
    Cleanup(Seq<char>),
    ImportList { library: Seq<char>, file: Seq<char> },
    ExportList { library: Seq<char>, file: Seq<char> },
    Benchmark { library: Seq<char>, total: Seq<char> },
    Fetch(Seq<char>),
    Discover(Seq<char>),
    Add { library: Seq<char>, url: Seq<char> },
    Refresh { library: Seq<char>, feed: Seq<char> },
    RefreshAll(Seq<char>),
}

impl View for Task {
    type V = TaskView;

    open spec fn view(&self) -> TaskView {
        match self {
            Task::Init(library) => TaskView::Init(library@),
            Task::ImportFeed { library, file, url } => TaskView::ImportFeed {
                library: library@,
                file: file@,
                url: url@,
            },
            Task::ListFeeds(library) => TaskView::ListFeeds(library@),
            Task::ListUnread(library) => TaskView::ListUnread(library@),
            Task::Stats(library) => TaskView::Stats(library@),
            Task::Search { library, query } => TaskView::Search {
                library: library@,
                query: query@,
            },
            Task::MarkAllRead(library) => TaskView::MarkAllRead(library@),
            Task::Cleanup(library) => TaskView::Cleanup(library@),
            Task::ImportList { library, file } => TaskView::ImportList {
                library: library@,
                file: file@,
            },
            Task::ExportList { library, file } => TaskView::ExportList {
                library: library@,
                file: file@,
            },
            Task::Benchmark { library, total } => TaskView::Benchmark {
                library: library@,
                total: total@,
            },
            Task::Fetch(url) => TaskView::Fetch(url@),
            Task::Discover(url) => TaskView::Discover(url@),
            Task::Add { library, url } => TaskView::Add { library: library@, url: url@ },
            Task::Refresh { library, feed } => TaskView::Refresh {
                library: library@,
                feed: feed@,
            },
            Task::RefreshAll(library) => TaskView::RefreshAll(library@),
        }
    }
}

/// The task that arguments name: the first one says which, and there have to be
/// as many as it takes.
pub open spec fn task_in(args: Seq<Seq<char>>) -> Option<TaskView> {
    if args.len() == 0 {
        None
    } else if args[0] == "init"@ && args.len() == 2 {
        Some(TaskView::Init(args[1]))
    } else if args[0] == "import-feed-fixture"@ && args.len() == 4 {
        Some(TaskView::ImportFeed { library: args[1], file: args[2], url: args[3] })
    } else if args[0] == "list-feeds"@ && args.len() == 2 {
        Some(TaskView::ListFeeds(args[1]))
    } else if args[0] == "list-unread"@ && args.len() == 2 {
        Some(TaskView::ListUnread(args[1]))
    } else if args[0] == "stats"@ && args.len() == 2 {
        Some(TaskView::Stats(args[1]))
    } else if args[0] == "search"@ && args.len() >= 3 {
        Some(TaskView::Search { library: args[1], query: join(args.skip(2), " "@) })
    } else if args[0] == "mark-all-read"@ && args.len() == 2 {
        Some(TaskView::MarkAllRead(args[1]))
    } else if args[0] == "cleanup"@ && args.len() == 2 {
        Some(TaskView::Cleanup(args[1]))
    } else if args[0] == "opml-import"@ && args.len() == 3 {
        Some(TaskView::ImportList { library: args[1], file: args[2] })
    } else if args[0] == "opml-export"@ && args.len() == 3 {
        Some(TaskView::ExportList { library: args[1], file: args[2] })
    } else if args[0] == "benchmark"@ && args.len() == 3 {
        Some(TaskView::Benchmark { library: args[1], total: args[2] })
    } else if args[0] == "fetch"@ && args.len() == 2 {
        Some(TaskView::Fetch(args[1]))
    } else if args[0] == "discover"@ && args.len() == 2 {
        Some(TaskView::Discover(args[1]))
    } else if args[0] == "add"@ && args.len() == 3 {
        Some(TaskView::Add { library: args[1], url: args[2] })
    } else if args[0] == "refresh"@ && args.len() == 3 {
        Some(TaskView::Refresh { library: args[1], feed: args[2] })
    } else if args[0] == "refresh-all"@ && args.len() == 2 {
        Some(TaskView::RefreshAll(args[1]))
    } else {
        None
    }
}

/// What an optional task holds.
pub open spec fn task_view(task: Option<Task>) -> Option<TaskView> {
    match task {
        Some(known) => Some(known@),
        None => None,
    }
}

fn rest(args: &Vec<String>) -> (r: String)
    requires
        args@.len() >= 2,
    ensures
        r@ == join(views(args@).skip(2), " "@),
{
    let mut parts: Vec<String> = Vec::new();
    let mut i: usize = 2;
    assert(views(parts@) == views(args@).subrange(2, 2));
    while i < args.len()
        invariant
            2 <= i <= args@.len(),
            views(parts@) == views(args@).subrange(2, i as int),
        decreases args@.len() - i,
    {
        let ghost before = views(parts@);
        parts.push(args[i].clone());
        assert(views(parts@) == before.push(args@[i as int]@));
        assert(views(args@).subrange(2, i + 1) == before.push(views(args@)[i as int]));
        i += 1;
    }
    assert(views(args@).subrange(2, i as int) == views(args@).skip(2));
    joined(&parts, " ")
}

/// The task that the arguments `args` name, behind the name of the program.
pub fn read_task(args: &Vec<String>) -> (r: Option<Task>)
    ensures
        task_view(r) == task_in(views(args@)),
{
    let count: usize = args.len();
    assert(views(args@).len() == count);
    if count == 0 {
        return None;
    }
    let name = args[0].as_str();
    assert(forall|i: int| 0 <= i < count ==> #[trigger] views(args@)[i] == args@[i]@);
    if count == 2 {
        let one = args[1].clone();
        if same(name, "init") {
            return Some(Task::Init(one));
        }
        if same(name, "list-feeds") {
            return Some(Task::ListFeeds(one));
        }
        if same(name, "list-unread") {
            return Some(Task::ListUnread(one));
        }
        if same(name, "stats") {
            return Some(Task::Stats(one));
        }
        if same(name, "mark-all-read") {
            return Some(Task::MarkAllRead(one));
        }
        if same(name, "cleanup") {
            return Some(Task::Cleanup(one));
        }
        if same(name, "fetch") {
            return Some(Task::Fetch(one));
        }
        if same(name, "discover") {
            return Some(Task::Discover(one));
        }
        if same(name, "refresh-all") {
            return Some(Task::RefreshAll(one));
        }
        return None;
    }
    if count >= 3 && same(name, "search") {
        proof {
            reveal_strlit("search");
            reveal_strlit("import-feed-fixture");
            assert("search"@.len() == 6 && "import-feed-fixture"@.len() == 19);
        }
        return Some(Task::Search { library: args[1].clone(), query: rest(args) });
    }
    if count == 3 {
        let library = args[1].clone();
        let two = args[2].clone();
        if same(name, "opml-import") {
            return Some(Task::ImportList { library, file: two });
        }
        if same(name, "opml-export") {
            return Some(Task::ExportList { library, file: two });
        }
        if same(name, "benchmark") {
            return Some(Task::Benchmark { library, total: two });
        }
        if same(name, "add") {
            return Some(Task::Add { library, url: two });
        }
        if same(name, "refresh") {
            return Some(Task::Refresh { library, feed: two });
        }
        return None;
    }
    if count == 4 && same(name, "import-feed-fixture") {
        return Some(
            Task::ImportFeed {
                library: args[1].clone(),
                file: args[2].clone(),
                url: args[3].clone(),
            },
        );
    }
    None
}

fn write_count(out: &mut String, name: &str, count: usize)
    ensures
        final(out)@ == old(out)@ + (name@ + decimal(count as nat)),
{
    let ghost before = out@;
    out.append(name);
    let number = decimal_text(count as u64);
    out.append(number.as_str());
    assert(out@ == before + (name@ + decimal(count as nat)));
}

fn write_size(out: &mut String, name: &str, size: i64)
    ensures
        final(out)@ == old(out)@ + (name@ + decimal_int(size as int)),
{
    let ghost before = out@;
    out.append(name);
    let number = signed_text(size);
    out.append(number.as_str());
    assert(out@ == before + (name@ + decimal_int(size as int)));
}

/// The line that tells what taking in a document did.
pub fn ingest_line(stats: &IngestStats) -> (r: String)
    ensures
        r@ == ("inserted="@ + decimal(stats.inserted as nat)) + (" updated="@ + decimal(
            stats.updated as nat,
        )) + (" duplicate_items="@ + decimal(stats.duplicates_in_document as nat)),
{
    let mut out = String::new();
    write_count(&mut out, "inserted=", stats.inserted);
    assert(out@ == "inserted="@ + decimal(stats.inserted as nat));
    write_count(&mut out, " updated=", stats.updated);
    write_count(&mut out, " duplicate_items=", stats.duplicates_in_document);
    out
}

/// The line that tells how much a library holds.
pub fn stats_line(stats: &LibraryStats) -> (r: String)
    ensures
        r@ == ("feeds="@ + decimal_int(stats.feeds as int)) + (" folders="@ + decimal_int(
            stats.folders as int,
        )) + (" articles="@ + decimal_int(stats.articles as int)) + (" unread="@ + decimal_int(
            stats.unread as int,
        )) + (" starred="@ + decimal_int(stats.starred as int)),
{
    let mut out = String::new();
    write_size(&mut out, "feeds=", stats.feeds);
    assert(out@ == "feeds="@ + decimal_int(stats.feeds as int));
    write_size(&mut out, " folders=", stats.folders);
    write_size(&mut out, " articles=", stats.articles);
    write_size(&mut out, " unread=", stats.unread);
    write_size(&mut out, " starred=", stats.starred);
    out
}

/// The line that tells what taking in a subscription list did.
pub fn import_line(stats: &ImportStats) -> (r: String)
    ensures
        r@ == ("feeds_added="@ + decimal(stats.feeds_added as nat)) + (" duplicates="@ + decimal(
            stats.duplicates as nat,
        )) + (" folders_created="@ + decimal(stats.folders_created as nat)) + (" failures="@
            + decimal(stats.failed_entries as nat)),
{
    let mut out = String::new();
    write_count(&mut out, "feeds_added=", stats.feeds_added);
    assert(out@ == "feeds_added="@ + decimal(stats.feeds_added as nat));
    write_count(&mut out, " duplicates=", stats.duplicates);
    write_count(&mut out, " folders_created=", stats.folders_created);
    write_count(&mut out, " failures=", stats.failed_entries);
    out
}

/// The line that tells of the refresh of all feeds.
pub fn refresh_line(summary: &RefreshSummary) -> (r: String)
    ensures
        r@ == ("total="@ + decimal(summary.total as nat)) + (" completed="@ + decimal(
            summary.completed as nat,
        )) + (" successful="@ + decimal(summary.successful as nat)) + (" unchanged="@ + decimal(
            summary.unchanged as nat,
        )) + (" failed="@ + decimal(summary.failed as nat)) + (" cancelled="@ + decimal(
            summary.cancelled as nat,
        )),
{
    let mut out = String::new();
    write_count(&mut out, "total=", summary.total);
    assert(out@ == "total="@ + decimal(summary.total as nat));
    write_count(&mut out, " completed=", summary.completed);
    write_count(&mut out, " successful=", summary.successful);
    write_count(&mut out, " unchanged=", summary.unchanged);
    write_count(&mut out, " failed=", summary.failed);
    write_count(&mut out, " cancelled=", summary.cancelled);
    out
}

/// The line of a subscription.
pub open spec fn feed_text(feed: FeedRecordView) -> Seq<char> {
    feed.stable_id + "\t"@ + feed.display_name + "\t"@ + feed.fetch_url
}

/// The line of the subscription `feed`.
pub fn feed_line(feed: &FeedRecord) -> (r: String)
    ensures
        r@ == feed_text(feed@),
{
    let mut out = feed.stable_id.clone();
    out.append("\t");
    out.append(feed.display_name.as_str());
    out.append("\t");
    out.append(feed.fetch_url.as_str());
    out
}

/// The line of an article.
pub open spec fn article_text(item: ListItemView) -> Seq<char> {
    item.stable_id + "\t"@ + (if item.is_unread {
        "unread"@
    } else {
        "read"@
    }) + "\t"@ + (if item.is_starred {
        "starred"@
    } else {
        "-"@
    }) + "\t"@ + item.title
}

/// The line of the article `item`.
pub fn article_line(item: &ArticleListItem) -> (r: String)
    ensures
        r@ == article_text(item@),
{
    let mut out = item.stable_id.clone();
    out.append("\t");
    out.append(
        if item.is_unread {
            "unread"
        } else {
            "read"
        },
    );
    out.append("\t");
    out.append(
        if item.is_starred {
            "starred"
        } else {
            "-"
        },
    );
    out.append("\t");
    out.append(item.title.as_str());
    out
}

/// The line of an announced feed.
pub open spec fn candidate_text(feed: DiscoveredView) -> Seq<char> {
    decimal(feed.rank) + "\t"@ + feed.format_hint + "\t"@ + feed.url
}

/// The line of the announced feed `feed`.
pub fn candidate_line(feed: &DiscoveredFeed) -> (r: String)
    ensures
        r@ == candidate_text(feed@),
{
    let mut out = decimal_text(feed.rank as u64);
    out.append("\t");
    out.append(feed.format_hint.as_str());
    out.append("\t");
    out.append(feed.url.as_str());
    out
}

} // verus!
