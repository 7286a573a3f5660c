//! How times, places in a book, versions and activity are shown.

use crate::domain::{held_difference, held_sub};
use crate::reader::{block_views, Block, BlockView, Document};
use crate::records::{FeedRecord, FeedRecordView};
use crate::text::{
    chars_of, decimal, decimal_text, find, find_from, join, joined, string_of, view_of, views,
};
use crate::parser::{copied, lent};
use crate::web::{site_favicon_url, site_page, site_root};
use vstd::prelude::*;

verus! {

/// A time on the reader's own clock.
#[derive(Debug, Clone, Copy, PartialEq, Eq, Structural)]
pub struct LocalTime {
    pub year: i32,
    /// From 1 to 12.
    pub month: u32,
    /// From 1 on.
    pub day: u32,
    /// From 0 to 23.
    pub hour: u32,
    /// From 0 to 59.
    pub minute: u32,
}

/// The short name of a month.
pub open spec fn month_abbreviation(month: u32) -> Seq<char> {
    match month {
        1 => "Jan"@,
        2 => "Feb"@,
        3 => "Mar"@,
        4 => "Apr"@,
        5 => "May"@,
        6 => "Jun"@,
        7 => "Jul"@,
        8 => "Aug"@,
        9 => "Sep"@,
        10 => "Oct"@,
        11 => "Nov"@,
        _ => "Dec"@,
    }
}

fn short_month(month: u32) -> (r: &'static str)
    ensures
        r@ == month_abbreviation(month),
{
    match month {
        1 => "Jan",
        2 => "Feb",
        3 => "Mar",
        4 => "Apr",
        5 => "May",
        6 => "Jun",
        7 => "Jul",
        8 => "Aug",
        9 => "Sep",
        10 => "Oct",
        11 => "Nov",
        _ => "Dec",
    }
}

/// The name of a month.
pub open spec fn month_name(month: u32) -> Seq<char> {
    match month {
        1 => "January"@,
        2 => "February"@,
        3 => "March"@,
        4 => "April"@,
        5 => "May"@,
        6 => "June"@,
        7 => "July"@,
        8 => "August"@,
        9 => "September"@,
        10 => "October"@,
        11 => "November"@,
        _ => "December"@,
    }
}

fn long_month(month: u32) -> (r: &'static str)
    ensures
        r@ == month_name(month),
{
    match month {
        1 => "January",
        2 => "February",
        3 => "March",
        4 => "April",
        5 => "May",
        6 => "June",
        7 => "July",
        8 => "August",
        9 => "September",
        10 => "October",
        11 => "November",
        _ => "December",
    }
}

/// The year has a 29th of February.
pub open spec fn is_leap(year: int) -> bool {
    year % 4 == 0 && (year % 100 != 0 || year % 400 == 0)
}

/// How many days a month has.
pub open spec fn month_days(year: int, month: int) -> int {
    if month == 2 {
        if is_leap(year) {
            29
        } else {
            28
        }
    } else if month == 4 || month == 6 || month == 9 || month == 11 {
        30
    } else {
        31
    }
}

/// The day before a day, as year, month and day.
pub open spec fn day_before(year: int, month: int, day: int) -> (int, int, int) {
    if day > 1 {
        (year, month, day - 1)
    } else if month > 1 {
        (year, month - 1, month_days(year, month - 1))
    } else {
        (year - 1, 12, 31)
    }
}

/// The day of `time` is the one before that of `now`.
pub open spec fn is_yesterday(time: LocalTime, now: LocalTime) -> bool {
    (time.year as int, time.month as int, time.day as int) == day_before(
        now.year as int,
        now.month as int,
        now.day as int,
    )
}

fn leap(year: i32) -> (r: bool)
    ensures
        r == is_leap(year as int),
{
    let wide: i64 = year as i64 + 4_000_000_000;
    assert(wide % 4 == year as int % 4 && wide % 100 == year as int % 100 && wide % 400
        == year as int % 400);
    wide % 4 == 0 && (wide % 100 != 0 || wide % 400 == 0)
}

fn yesterday(time: LocalTime, now: LocalTime) -> (r: bool)
    ensures
        r == is_yesterday(time, now),
{
    if now.day > 1 {
        time.year == now.year && time.month == now.month && time.day == now.day - 1
    } else if now.month > 1 {
        let days: u32 = if now.month == 3 {
            if leap(now.year) {
                29
            } else {
                28
            }
        } else if now.month == 5 || now.month == 7 || now.month == 10 || now.month == 12 {
            30
        } else {
            31
        };
        time.year == now.year && time.month == now.month - 1 && time.day == days
    } else {
        now.year > i32::MIN && time.year == now.year - 1 && time.month == 12 && time.day == 31
    }
}

/// A number with at least two digits.
pub open spec fn two_digits(n: nat) -> Seq<char> {
    if n < 10 {
        "0"@ + decimal(n)
    } else {
        decimal(n)
    }
}

/// A year with at least four digits, and a sign where it has more or lies
/// before the year 0.
pub open spec fn year_text(year: int) -> Seq<char> {
    let size = if year < 0 {
        -year
    } else {
        year
    };
    let sign = if year < 0 {
        "-"@
    } else if year > 9999 {
        "+"@
    } else {
        ""@
    };
    let zeros = if size < 10 {
        "000"@
    } else if size < 100 {
        "00"@
    } else if size < 1000 {
        "0"@
    } else {
        ""@
    };
    sign + zeros + decimal(size as nat)
}

fn write_year(out: &mut String, year: i32)
    ensures
        final(out)@ == old(out)@ + year_text(year as int),
{
    let ghost before = out@;
    let size: u64 = if year < 0 {
        (-(year as i64)) as u64
    } else {
        year as u64
    };
    let sign = if year < 0 {
        "-"
    } else if year > 9999 {
        "+"
    } else {
        ""
    };
    let zeros = if size < 10 {
        "000"
    } else if size < 100 {
        "00"
    } else if size < 1000 {
        "0"
    } else {
        ""
    };
    out.append(sign);
    out.append(zeros);
    let digits = decimal_text(size);
    out.append(digits.as_str());
    assert(out@ == before + year_text(year as int));
}

/// An hour of the day on a clock with twelve of them.
pub open spec fn clock_hour(hour: u32) -> nat {
    if hour % 12 == 0 {
        12
    } else {
        (hour % 12) as nat
    }
}

/// Whether an hour lies before noon or after.
pub open spec fn day_half(hour: u32) -> Seq<char> {
    if hour < 12 {
        "AM"@
    } else {
        "PM"@
    }
}

/// The time of the day.
pub open spec fn clock_text(time: LocalTime) -> Seq<char> {
    decimal(clock_hour(time.hour)) + ":"@ + two_digits(time.minute as nat) + " "@ + day_half(
        time.hour,
    )
}

fn write_clock(out: &mut String, time: LocalTime)
    ensures
        final(out)@ == old(out)@ + clock_text(time),
{
    let ghost before = out@;
    let hour: u32 = if time.hour % 12 == 0 {
        12
    } else {
        time.hour % 12
    };
    let shown_hour = decimal_text(hour as u64);
    out.append(shown_hour.as_str());
    out.append(":");
    if time.minute < 10 {
        out.append("0");
    }
    let shown_minute = decimal_text(time.minute as u64);
    out.append(shown_minute.as_str());
    out.append(" ");
    out.append(
        if time.hour < 12 {
            "AM"
        } else {
            "PM"
        },
    );
    assert(out@ == before + clock_text(time));
}

/// The day of an article, seen from another day.
pub open spec fn day_text(time: LocalTime, now: LocalTime) -> Seq<char> {
    if (time.year, time.month, time.day) == (now.year, now.month, now.day) {
        "Today"@
    } else if is_yesterday(time, now) {
        "Yesterday"@
    } else if time.year == now.year {
        month_abbreviation(time.month) + " "@ + decimal(time.day as nat)
    } else {
        month_abbreviation(time.month) + " "@ + decimal(time.day as nat) + ", "@ + year_text(
            time.year as int,
        )
    }
}

/// When an article appeared, as it is shown at the time `now`.
pub fn format_article_datetime(time: LocalTime, now: LocalTime) -> (r: String)
    ensures
        r@ == day_text(time, now) + " · "@ + clock_text(time),
{
    let mut out = if time.year == now.year && time.month == now.month && time.day == now.day {
        "Today".to_owned()
    } else if yesterday(time, now) {
        "Yesterday".to_owned()
    } else {
        let mut date = short_month(time.month).to_owned();
        date.append(" ");
        let day = decimal_text(time.day as u64);
        date.append(day.as_str());
        if time.year != now.year {
            date.append(", ");
            write_year(&mut date, time.year);
        }
        date
    };
    assert(out@ == day_text(time, now));
    out.append(" · ");
    write_clock(&mut out, time);
    assert(out@ == day_text(time, now) + " · "@ + clock_text(time));
    out
}

/// When a backup was made, as it is shown.
pub fn format_snapshot_datetime(time: LocalTime) -> (r: String)
    ensures
        r@ == month_name(time.month) + " "@ + decimal(time.day as nat) + ", "@ + year_text(
            time.year as int,
        ) + " at "@ + clock_text(time),
{
    let mut out = long_month(time.month).to_owned();
    out.append(" ");
    let day = decimal_text(time.day as u64);
    out.append(day.as_str());
    out.append(", ");
    write_year(&mut out, time.year);
    out.append(" at ");
    write_clock(&mut out, time);
    assert(out@ == month_name(time.month) + " "@ + decimal(time.day as nat) + ", "@ + year_text(
        time.year as int,
    ) + " at "@ + clock_text(time));
    out
}

/// When a backup was made, as it is shown; the clock may not know it.
pub fn snapshot_time(time: Option<LocalTime>) -> (r: String)
    ensures
        time is None ==> r@ == "Unknown backup time"@,
        time is Some ==> r@ == month_name(time->0.month) + " "@ + decimal(time->0.day as nat)
            + ", "@ + year_text(time->0.year as int) + " at "@ + clock_text(time->0),
{
    match time {
        Some(known) => format_snapshot_datetime(known),
        None => "Unknown backup time".to_owned(),
    }
}

/// Which time of an article is shown: its own, else when it came in.
pub fn shown_timestamp(published_at: Option<i64>, inserted_at: i64) -> (r: i64)
    ensures
        r == match published_at {
            Some(own) => own,
            None => inserted_at,
        },
{
    match published_at {
        Some(own) => own,
        None => inserted_at,
    }
}

/// When an article appeared, as it is shown at the time `now`: `time` is that of
/// the article on the reader's clock, `own` tells whether the publisher gave it.
pub fn article_time(own: bool, time: Option<LocalTime>, now: LocalTime) -> (r: String)
    ensures
        r@ == match time {
            None => "Unknown time"@,
            Some(known) => if own {
                day_text(known, now) + " · "@ + clock_text(known)
            } else {
                "Added "@ + (day_text(known, now) + " · "@ + clock_text(known))
            },
        },
{
    match time {
        None => "Unknown time".to_owned(),
        Some(known) => {
            let text = format_article_datetime(known, now);
            if own {
                text
            } else {
                let mut out = "Added ".to_owned();
                out.append(text.as_str());
                out
            }
        },
    }
}

/// How many seconds lie between two times, none where the first is later.
pub open spec fn seconds_since(timestamp: i64, now: i64) -> int {
    if held_difference(now, timestamp) < 0 {
        0
    } else {
        held_difference(now, timestamp)
    }
}

/// How long ago something was.
pub open spec fn age_text(seconds: int) -> Seq<char> {
    if seconds < 60 {
        "NOW"@
    } else if seconds < 3600 {
        decimal((seconds / 60) as nat) + "m"@
    } else if seconds < 86_400 {
        decimal((seconds / 3600) as nat) + "h"@
    } else {
        decimal((seconds / 86_400) as nat) + "d"@
    }
}

/// How long before `now` the time `timestamp` was, in short.
pub fn relative_time(timestamp: i64, now: i64) -> (r: String)
    ensures
        r@ == age_text(seconds_since(timestamp, now)),
{
    let difference = held_sub(now, timestamp);
    let seconds: u64 = if difference < 0 {
        0
    } else {
        difference as u64
    };
    if seconds < 60 {
        return "NOW".to_owned();
    }
    let (number, unit) = if seconds < 3600 {
        (seconds / 60, "m")
    } else if seconds < 86_400 {
        (seconds / 3600, "h")
    } else {
        (seconds / 86_400, "d")
    };
    let mut out = decimal_text(number);
    out.append(unit);
    out
}

/// A text cut off behind `limit` characters, with a mark where something is
/// missing.
pub open spec fn cut_off(text: Seq<char>, limit: nat) -> Seq<char> {
    if text.len() > limit {
        text.take(limit as int) + "…"@
    } else {
        text
    }
}

/// `value`, cut off behind `limit` characters.
pub fn concise(value: &str, limit: usize) -> (r: String)
    ensures
        r@ == cut_off(value@, limit as nat),
{
    let chars = chars_of(value);
    if chars.len() > limit {
        let mut out = string_of(&chars, 0, limit);
        assert(chars@.subrange(0, limit as int) == chars@.take(limit as int));
        out.append("…");
        out
    } else {
        value.to_owned()
    }
}

/// A number held between zero and the last page.
pub open spec fn page_within(page: int, count: int) -> int {
    if count == 0 || page < 0 {
        0
    } else if page >= count {
        count - 1
    } else {
        page
    }
}

/// The page that turning leads to from `current`, in a book of `count` pages:
/// by two where two lie side by side, and never beyond the ends.
pub fn book_navigation_target(current: usize, direction: i32, wide: bool, count: usize) -> (r:
    usize)
    ensures
        r == page_within(
            current + direction * (if wide {
                2int
            } else {
                1int
            }),
            count as int,
        ),
{
    if count == 0 {
        return 0;
    }
    let step: i128 = if wide {
        2
    } else {
        1
    };
    let target: i128 = current as i128 + direction as i128 * step;
    if target < 0 {
        0
    } else if target >= count as i128 {
        count - 1
    } else {
        target as usize
    }
}

/// Turning never leaves the book.
pub proof fn law_turning_stays_in_the_book(page: int, count: int)
    requires
        count > 0,
    ensures
        0 <= page_within(page, count) < count,
{
}

/// Where in a book the reader is.
pub open spec fn progress_text(page: int, count: nat, wide: bool) -> Seq<char> {
    let at = page_within(page, count as int);
    if wide && at + 1 < count {
        "Pages "@ + decimal((at + 1) as nat) + "–"@ + decimal((at + 2) as nat) + " of "@ + decimal(
            count,
        )
    } else {
        "Page "@ + decimal((at + 1) as nat) + " of "@ + decimal(count)
    }
}

/// Where in a book of `count` pages the reader is at `page`.
pub fn book_progress_label(page: usize, count: usize, wide: bool) -> (r: String)
    ensures
        r@ == progress_text(page as int, count as nat, wide),
{
    let at: u128 = if count == 0 {
        0
    } else if page >= count {
        (count - 1) as u128
    } else {
        page as u128
    };
    let total = decimal_text(count as u64);
    if wide && at + 1 < count as u128 {
        let mut out = "Pages ".to_owned();
        let first = decimal_text((at + 1) as u64);
        out.append(first.as_str());
        out.append("–");
        let second = decimal_text((at + 2) as u64);
        out.append(second.as_str());
        out.append(" of ");
        out.append(total.as_str());
        out
    } else {
        let mut out = "Page ".to_owned();
        let only = decimal_text((at + 1) as u64);
        out.append(only.as_str());
        out.append(" of ");
        out.append(total.as_str());
        out
    }
}

/// A page that is shown: which one, what is said of it, and whether it can be
/// turned back and on.
#[derive(Debug, PartialEq, Eq)]
pub struct ShownPage {
    pub index: usize,
    pub label: String,
    pub previous: bool,
    pub next: bool,
}

/// Shows the page `requested` of `count`, or the last one; none where there are
/// no pages.
pub fn show_page(requested: usize, count: usize) -> (r: Option<ShownPage>)
    ensures
        match r {
            None => count == 0,
            Some(shown) => count > 0 && shown.index == page_within(
                requested as int,
                count as int,
            ) && shown.label@ == progress_text(requested as int, count as nat, false)
                && shown.previous == (shown.index > 0) && shown.next == (shown.index + 1 < count),
        },
{
    if count == 0 {
        return None;
    }
    let index: usize = if requested >= count {
        count - 1
    } else {
        requested
    };
    let label = book_progress_label(requested, count, false);
    Some(ShownPage { index, label, previous: index > 0, next: index < count - 1 })
}

/// A text cut in two at a mark, if it has the mark.
pub open spec fn parted(text: Seq<char>, mark: Seq<char>) -> Option<(Seq<char>, Seq<char>)> {
    match find(text, mark, 0) {
        Some(at) => Some((text.take(at), text.skip(at + mark.len()))),
        None => None,
    }
}

fn part(text: &str, mark: &str) -> (r: Option<(String, String)>)
    ensures
        match r {
            Some((a, b)) => parted(text@, mark@) == Some((a@, b@)),
            None => parted(text@, mark@) is None,
        },
{
    let chars = chars_of(text);
    let pattern = chars_of(mark);
    let count: usize = chars.len();
    match find_from(&chars, &pattern, 0) {
        Some(at) => {
            proof {
                lemma_found_fits(chars@, pattern@, 0);
            }
            let a = string_of(&chars, 0, at);
            let b = string_of(&chars, at + pattern.len(), count);
            assert(chars@.subrange(0, at as int) == chars@.take(at as int));
            assert(chars@.subrange(at + pattern@.len(), chars@.len() as int) == chars@.skip(
                at + pattern@.len(),
            ));
            Some((a, b))
        },
        None => None,
    }
}

proof fn lemma_found_fits(text: Seq<char>, mark: Seq<char>, from: int)
    requires
        find(text, mark, from) is Some,
        0 <= from,
    ensures
        from <= find(text, mark, from)->0,
        find(text, mark, from)->0 + mark.len() <= text.len(),
    decreases text.len() - from + 1,
{
    if !crate::text::occurs_at(text, mark, from) {
        lemma_found_fits(text, mark, from + 1);
    }
}

/// A version as it is shown: test versions are named as such.
pub open spec fn version_text(version: Seq<char>) -> Seq<char> {
    match parted(version, "-beta."@) {
        Some((base, number)) => base + " Beta "@ + number,
        None => match parted(version, "-rc."@) {
            Some((base, number)) => base + " RC "@ + number,
            None => version,
        },
    }
}

/// The version `version` as it is shown.
pub fn format_display_version(version: &str) -> (r: String)
    ensures
        r@ == version_text(version@),
{
    match part(version, "-beta.") {
        Some((base, number)) => {
            let mut out = base;
            out.append(" Beta ");
            out.append(number.as_str());
            out
        },
        None => match part(version, "-rc.") {
            Some((base, number)) => {
                let mut out = base;
                out.append(" RC ");
                out.append(number.as_str());
                out
            },
            None => version.to_owned(),
        },
    }
}

/// Where the icon of a feed is looked for: the one that was found, else the
/// picture of the feed, else the usual place on its site.
pub open spec fn icon_address(feed: FeedRecordView) -> Option<Seq<char>> {
    match feed.favicon_url {
        Some(url) => Some(url),
        None => match feed.feed_image_url {
            Some(url) => Some(url),
            None => match feed.site_url {
                Some(site) => site_page(site, "/favicon.ico"@),
                None => None,
            },
        },
    }
}

/// Where the icon of `feed` is looked for.
pub fn feed_icon_url(feed: &FeedRecord) -> (r: Option<String>)
    ensures
        view_of(r) == icon_address(feed@),
{
    if feed.favicon_url.is_some() {
        copied(&feed.favicon_url)
    } else if feed.feed_image_url.is_some() {
        copied(&feed.feed_image_url)
    } else {
        site_favicon_url(lent(&feed.site_url))
    }
}

/// The page on which the icon of a feed may be announced: its site, else the
/// root of the place that it comes from.
pub open spec fn icon_page(feed: FeedRecordView) -> Option<Seq<char>> {
    match feed.site_url {
        Some(site) => Some(site),
        None => site_page(feed.normalized_url, "/"@),
    }
}

/// The page on which the icon of `feed` may be announced.
pub fn feed_icon_discovery_page(feed: &FeedRecord) -> (r: Option<String>)
    ensures
        view_of(r) == icon_page(feed@),
{
    match &feed.site_url {
        Some(site) => Some(site.clone()),
        None => site_root(feed.normalized_url.as_str()),
    }
}

/// How long activity is shown: a day.
pub const ACTIVITY_WINDOW: i64 = 86_400;

/// The place of something that happened at `timestamp` among `count` places from
/// a day ago to `now`.
pub open spec fn activity_place(timestamp: i64, now: i64, count: nat) -> int {
    let past = seconds_since(timestamp, now);
    let age = if past > ACTIVITY_WINDOW {
        ACTIVITY_WINDOW as int
    } else {
        past
    };
    ((ACTIVITY_WINDOW - age) * (count - 1)) / (ACTIVITY_WINDOW as int)
}

/// How much happened at a place, in hundredths of the most that is shown: each
/// event counts twenty-two.
pub open spec fn activity_level(timestamps: Seq<i64>, now: i64, count: nat, place: int) -> int
    decreases timestamps.len(),
{
    if timestamps.len() == 0 {
        0
    } else {
        let before = activity_level(timestamps.drop_last(), now, count, place);
        if activity_place(timestamps.last(), now, count) != place {
            before
        } else if before + 22 > 100 {
            100
        } else {
            before + 22
        }
    }
}

/// How much happened in the last day, at each of `bucket_count` places, in
/// hundredths of the most that is shown. The newest is at the right.
pub fn signal_levels_from_timestamps(timestamps: &Vec<i64>, now: i64, bucket_count: usize) -> (r:
    Vec<u32>)
    ensures
        r@.len() == bucket_count,
        forall|place: int|
            0 <= place < bucket_count ==> #[trigger] r@[place] == activity_level(
                timestamps@,
                now,
                bucket_count as nat,
                place,
            ) && r@[place] <= 100,
{
    let mut levels: Vec<u32> = Vec::new();
    let mut k: usize = 0;
    while k < bucket_count
        invariant
            k <= bucket_count,
            levels@.len() == k,
            forall|place: int| 0 <= place < k ==> #[trigger] levels@[place] == 0,
        decreases bucket_count - k,
    {
        levels.push(0);
        k += 1;
    }
    if bucket_count == 0 {
        return levels;
    }
    let ghost all = timestamps@;
    let mut i: usize = 0;
    while i < timestamps.len()
        invariant
            i <= timestamps@.len(),
            all == timestamps@,
            0 < bucket_count,
            levels@.len() == bucket_count,
            forall|place: int|
                0 <= place < bucket_count ==> #[trigger] levels@[place] == activity_level(
                    all.take(i as int),
                    now,
                    bucket_count as nat,
                    place,
                ) && levels@[place] <= 100,
        decreases timestamps@.len() - i,
    {
        assert(all.take(i + 1).drop_last() == all.take(i as int));
        assert(all.take(i + 1).last() == timestamps@[i as int]);
        let past = held_sub(now, timestamps[i]);
        let age: i64 = if past < 0 {
            0
        } else if past > ACTIVITY_WINDOW {
            ACTIVITY_WINDOW
        } else {
            past
        };
        let recency: u128 = (ACTIVITY_WINDOW - age) as u128;
        proof {
            lemma_place(recency as int, bucket_count as int);
        }
        let place: usize = ((recency * (bucket_count - 1) as u128) / 86_400) as usize;
        let ghost before = levels@;
        let level: u32 = if levels[place] + 22 > 100 {
            100
        } else {
            levels[place] + 22
        };
        levels.set(place, level);
        assert forall|p: int| 0 <= p < bucket_count implies #[trigger] levels@[p] == activity_level(
            all.take(i + 1),
            now,
            bucket_count as nat,
            p,
        ) && levels@[p] <= 100 by {
            assert(before[p] <= 100);
        }
        i += 1;
    }
    assert(all.take(i as int) == all);
    levels
}

proof fn lemma_place(recency: int, count: int)
    requires
        0 <= recency <= 86_400,
        0 < count,
    ensures
        0 <= recency * (count - 1) <= 86_400 * (count - 1),
        0 <= (recency * (count - 1)) / 86_400 < count,
{
    assert(0 <= recency * (count - 1) <= 86_400 * (count - 1)) by (nonlinear_arith)
        requires
            0 <= recency <= 86_400,
            0 < count,
    ;
}

/// The newest is shown at the right edge and what is a day old or older at the
/// left one.
pub proof fn law_activity_runs_from_left_to_right(now: i64, timestamp: i64, count: nat)
    requires
        0 < count,
    ensures
        0 <= activity_place(timestamp, now, count) < count,
        timestamp >= now ==> activity_place(timestamp, now, count) == count - 1,
        held_difference(now, timestamp) >= ACTIVITY_WINDOW ==> activity_place(
            timestamp,
            now,
            count,
        ) == 0,
{
    let past = seconds_since(timestamp, now);
    let age = if past > ACTIVITY_WINDOW {
        ACTIVITY_WINDOW as int
    } else {
        past
    };
    lemma_place(ACTIVITY_WINDOW - age, count as int);
    if timestamp >= now {
        assert(86_400 * (count - 1) / 86_400 == count - 1);
    }
    if held_difference(now, timestamp) >= ACTIVITY_WINDOW {
        assert(0 * (count - 1) == 0) by (nonlinear_arith);
    }
}

/// What a block says, if it says anything.
pub open spec fn block_says(block: BlockView) -> Option<Seq<char>> {
    let text = match block {
        BlockView::Heading { text, .. } => text,
        BlockView::Paragraph { text, .. } => text,
        BlockView::Quote(text) => text,
        BlockView::Code(text) => text,
        BlockView::ListItem(text) => text,
        BlockView::Image { .. } => Seq::empty(),
    };
    if text.len() > 0 {
        Some(text)
    } else {
        None
    }
}

/// What the first blocks say, fourteen texts at most.
pub open spec fn said(blocks: Seq<BlockView>) -> Seq<Seq<char>>
    decreases blocks.len(),
{
    if blocks.len() == 0 {
        Seq::empty()
    } else {
        let before = said(blocks.drop_last());
        match block_says(blocks.last()) {
            Some(text) if before.len() < 14 => before.push(text),
            _ => before,
        }
    }
}

fn words_of(block: &Block) -> (r: &str)
    ensures
        match block_says(block@) {
            Some(text) => r@ == text,
            None => r@.len() == 0,
        },
{
    proof {
        reveal_strlit("");
    }
    match block {
        Block::Heading { level: _, text } => text.as_str(),
        Block::Paragraph { text, links: _ } => text.as_str(),
        Block::Quote(text) => text.as_str(),
        Block::Code(text) => text.as_str(),
        Block::ListItem(text) => text.as_str(),
        Block::Image { .. } => "",
    }
}

/// A first look at an article: what its first blocks say, or that it says
/// nothing.
pub open spec fn first_look(blocks: Option<Seq<BlockView>>) -> Seq<char> {
    match blocks {
        Some(list) => if join(said(list), "\n\n"@).len() > 0 {
            join(said(list), "\n\n"@)
        } else {
            "No readable feed preview. Open FeedLizard or the original article to continue."@
        },
        None => "No readable feed preview. Open FeedLizard or the original article to continue."@,
    }
}

/// A first look at the article in `document`, if it could be read.
pub fn preview_text(document: Option<&Document>) -> (r: String)
    ensures
        r@ == first_look(
            match document {
                Some(known) => Some(block_views(known.blocks@)),
                None => None,
            },
        ),
{
    if let Some(known) = document {
        let ghost all = block_views(known.blocks@);
        let mut texts: Vec<String> = Vec::new();
        let mut i: usize = 0;
        assert(views(texts@) == Seq::<Seq<char>>::empty());
        while i < known.blocks.len()
            invariant
                i <= known.blocks@.len(),
                all == block_views(known.blocks@),
                views(texts@) == said(all.take(i as int)),
            decreases known.blocks@.len() - i,
        {
            assert(all.take(i + 1).drop_last() == all.take(i as int));
            assert(all.take(i + 1).last() == known.blocks@[i as int]@);
            let text = words_of(&known.blocks[i]);
            let ghost before = views(texts@);
            assert(before.len() == texts@.len());
            if texts.len() < 14 && !text.is_empty() {
                texts.push(text.to_owned());
                assert(views(texts@) == before.push(text@));
            }
            i += 1;
        }
        assert(all.take(i as int) == all);
        let text = joined(&texts, "\n\n");
        if !text.as_str().is_empty() {
            return text;
        }
    }
    "No readable feed preview. Open FeedLizard or the original article to continue.".to_owned()
}

/// Which colours the reader shows.
#[derive(Debug, Clone, Copy, PartialEq, Eq, Structural)]
pub enum Appearance {
    System,
    Light,
    Dark,
}

impl Appearance {
    /// The place of the choice in a list.
    pub open spec fn place(self) -> u32 {
        match self {
            Appearance::System => 0,
            Appearance::Light => 1,
            Appearance::Dark => 2,
        }
    }

    /// The name of the choice in the settings.
    pub open spec fn spelled(self) -> Seq<char> {
        match self {
            Appearance::System => "system"@,
            Appearance::Light => "light"@,
            Appearance::Dark => "dark"@,
        }
    }

    /// The place of the choice in a list.
    pub fn index(self) -> (r: u32)
        ensures
            r == self.place(),
    {
        match self {
            Appearance::System => 0,
            Appearance::Light => 1,
            Appearance::Dark => 2,
        }
    }

    /// The choice at a place of a list; what is not in the list leaves it to the
    /// system.
    pub fn from_index(index: u32) -> (r: Self)
        ensures
            r == (if index == 1 {
                Appearance::Light
            } else if index == 2 {
                Appearance::Dark
            } else {
                Appearance::System
            }),
    {
        match index {
            1 => Appearance::Light,
            2 => Appearance::Dark,
            _ => Appearance::System,
        }
    }

    /// The name of the choice in the settings.
    pub fn name(self) -> (r: &'static str)
        ensures
            r@ == self.spelled(),
    {
        match self {
            Appearance::System => "system",
            Appearance::Light => "light",
            Appearance::Dark => "dark",
        }
    }

    /// The choice that the settings name; anything else leaves it to the system.
    pub fn from_name(text: &str) -> (r: Self)
        ensures
            r == (if crate::text::trim(text@) == "light"@ {
                Appearance::Light
            } else if crate::text::trim(text@) == "dark"@ {
                Appearance::Dark
            } else {
                Appearance::System
            }),
    {
        let bare = crate::text::trimmed(text);
        if crate::text::same(bare.as_str(), "light") {
            Appearance::Light
        } else if crate::text::same(bare.as_str(), "dark") {
            Appearance::Dark
        } else {
            Appearance::System
        }
    }
}

/// A choice that is kept by its place in the list is found again.
pub proof fn law_appearance_is_found_again(choice: Appearance)
    ensures
        (if choice.place() == 1 {
            Appearance::Light
        } else if choice.place() == 2 {
            Appearance::Dark
        } else {
            Appearance::System
        }) == choice,
{
}

/// The side of a window: the one that was asked for, held between 360 and 3840,
/// else the usual one.
pub fn window_dimension(asked: Option<i32>, usual: i32) -> (r: i32)
    ensures
        r == match asked {
            Some(side) => if side < 360 {
                360
            } else if side > 3840 {
                3840
            } else {
                side as int
            },
            None => usual as int,
        },
{
    match asked {
        Some(side) => if side < 360 {
            360
        } else if side > 3840 {
            3840
        } else {
            side
        },
        None => usual,
    }
}

} // verus!
