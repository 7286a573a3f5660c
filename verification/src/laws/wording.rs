//! What dates, ages and pages are called.

use crate::presentation::{
    age_text, clock_hour, cut_off, day_before, day_half, day_text, icon_address, icon_page, is_leap,
    is_yesterday, month_abbreviation, month_days, month_name, page_within, said, seconds_since,
    LocalTime,
};
use crate::reader::BlockView;
use crate::records::FeedRecordView;
use crate::text::{decimal, starts_with};
use vstd::prelude::*;

verus! {

/// The leap years up to a year.
pub open spec fn leap_days(year: int) -> int {
    year / 4 - year / 100 + year / 400
}

/// The days of a year before a month.
pub open spec fn days_before_month(year: int, month: int) -> int {
    let leap = if year % 400 == 0 || (year % 4 == 0 && year % 100 != 0) {
        1int
    } else {
        0int
    };
    if month == 1 {
        0
    } else if month == 2 {
        31
    } else if month == 3 {
        59 + leap
    } else if month == 4 {
        90 + leap
    } else if month == 5 {
        120 + leap
    } else if month == 6 {
        151 + leap
    } else if month == 7 {
        181 + leap
    } else if month == 8 {
        212 + leap
    } else if month == 9 {
        243 + leap
    } else if month == 10 {
        273 + leap
    } else if month == 11 {
        304 + leap
    } else {
        334 + leap
    }
}

/// The number of a day, counted through the years.
pub open spec fn day_number(year: int, month: int, day: int) -> int {
    365 * year + leap_days(year - 1) + days_before_month(year, month) + day
}

/// The day before a day is one day earlier by the calendar, and a day of its
/// month.
pub proof fn law_yesterday_is_one_day_earlier(year: int, month: int, day: int)
    requires
        1 <= month <= 12,
        day >= 1,
    ensures
        ({
            let (y, m, d) = day_before(year, month, day);
            &&& day_number(y, m, d) == day_number(year, month, day) - 1
            &&& 1 <= m <= 12
            &&& d >= 1
            &&& day > 1 ==> y == year && m == month
        }),
{
    if day == 1 && month == 1 {
        lemma_year(year - 1);
    } else if day == 1 {
        lemma_month_length(year, month - 1);
    }
}

proof fn lemma_month_length(year: int, month: int)
    requires
        1 <= month <= 11,
    ensures
        days_before_month(year, month) + month_days(year, month) == days_before_month(
            year,
            month + 1,
        ),
        month_days(year, month) >= 28,
{
    lemma_leap_rule(year);
}

proof fn lemma_leap_rule(year: int)
    ensures
        is_leap(year) == (year % 400 == 0 || (year % 4 == 0 && year % 100 != 0)),
{
    assert(year % 400 == 0 ==> year % 4 == 0);
}

proof fn lemma_steps(year: int)
    ensures
        year / 4 - (year - 1) / 4 == (if year % 4 == 0 {
            1int
        } else {
            0int
        }),
        year / 100 - (year - 1) / 100 == (if year % 100 == 0 {
            1int
        } else {
            0int
        }),
        year / 400 - (year - 1) / 400 == (if year % 400 == 0 {
            1int
        } else {
            0int
        }),
{
}

/// A year has the days of its months.
proof fn lemma_year(year: int)
    ensures
        365 * (year + 1) + leap_days(year) == 365 * year + leap_days(year - 1) + days_before_month(
            year,
            12,
        ) + 31,
{
    lemma_steps(year);
    assert(year % 400 == 0 ==> year % 100 == 0);
    assert(year % 100 == 0 ==> year % 4 == 0);
}

/// A day is called today or yesterday if and only if it is that, and otherwise
/// by its month and day, with the year where that is another one.
pub proof fn law_days_are_called_by_their_distance(time: LocalTime, now: LocalTime)
    requires
        1 <= now.month <= 12,
        1 <= now.day,
    ensures
        ({
            let same = time.year == now.year && time.month == now.month && time.day == now.day;
            let before = is_yesterday(time, now);
            &&& same ==> day_text(time, now) == "Today"@
            &&& !same && before ==> day_text(time, now) == "Yesterday"@
            &&& !same && !before && time.year == now.year ==> day_text(time, now)
                == month_abbreviation(time.month) + " "@ + decimal(time.day as nat)
            &&& before ==> day_number(time.year as int, time.month as int, time.day as int)
                == day_number(now.year as int, now.month as int, now.day as int) - 1
        }),
{
    law_yesterday_is_one_day_earlier(now.year as int, now.month as int, now.day as int);
}

/// The short name of a month is the start of its name, and two months have two
/// names.
pub proof fn law_months_have_names(a: u32, b: u32)
    requires
        1 <= a <= 12,
        1 <= b <= 12,
    ensures
        month_abbreviation(a).len() == 3,
        starts_with(month_name(a), month_abbreviation(a)),
        a != b ==> month_abbreviation(a) != month_abbreviation(b),
{
    lemma_month(a);
    lemma_month(b);
}

/// The second and third letter of the short name of a month.
spec fn month_letters(month: u32) -> (char, char, char) {
    match month {
        1 => ('J', 'a', 'n'),
        2 => ('F', 'e', 'b'),
        3 => ('M', 'a', 'r'),
        4 => ('A', 'p', 'r'),
        5 => ('M', 'a', 'y'),
        6 => ('J', 'u', 'n'),
        7 => ('J', 'u', 'l'),
        8 => ('A', 'u', 'g'),
        9 => ('S', 'e', 'p'),
        10 => ('O', 'c', 't'),
        11 => ('N', 'o', 'v'),
        _ => ('D', 'e', 'c'),
    }
}

proof fn lemma_month(month: u32)
    requires
        1 <= month <= 12,
    ensures
        month_abbreviation(month).len() == 3,
        month_abbreviation(month)[0] == month_letters(month).0,
        month_abbreviation(month)[1] == month_letters(month).1,
        month_abbreviation(month)[2] == month_letters(month).2,
        starts_with(month_name(month), month_abbreviation(month)),
{
    reveal_strlit("Jan");
    reveal_strlit("Feb");
    reveal_strlit("Mar");
    reveal_strlit("Apr");
    reveal_strlit("May");
    reveal_strlit("Jun");
    reveal_strlit("Jul");
    reveal_strlit("Aug");
    reveal_strlit("Sep");
    reveal_strlit("Oct");
    reveal_strlit("Nov");
    reveal_strlit("Dec");
    reveal_strlit("January");
    reveal_strlit("February");
    reveal_strlit("March");
    reveal_strlit("April");
    reveal_strlit("June");
    reveal_strlit("July");
    reveal_strlit("August");
    reveal_strlit("September");
    reveal_strlit("October");
    reveal_strlit("November");
    reveal_strlit("December");
    let short = month_abbreviation(month);
    let long = month_name(month);
    assert(short.len() == 3);
    assert(long.len() >= 3);
    assert(long.subrange(0, 3) =~= short);
}

/// An hour is told by one of twelve and by the half of the day, so that it can
/// be told from all others.
pub proof fn law_hours_are_told_apart(hour: u32)
    requires
        hour < 24,
    ensures
        1 <= clock_hour(hour) <= 12,
        day_half(hour) == "AM"@ ==> hour == clock_hour(hour) % 12,
        day_half(hour) == "PM"@ ==> hour == clock_hour(hour) % 12 + 12,
        day_half(hour) == "AM"@ || day_half(hour) == "PM"@,
{
    reveal_strlit("AM");
    reveal_strlit("PM");
    assert("AM"@[0] != "PM"@[0]);
}

/// An age is told in the largest of minutes, hours and days that it has one of,
/// and below a minute as now; a time to come is now.
pub proof fn law_ages_are_told_in_full_units(seconds: int, n: int)
    requires
        n >= 1,
    ensures
        0 <= seconds < 60 ==> age_text(seconds) == "NOW"@,
        n < 60 && n * 60 <= seconds < n * 60 + 60 ==> age_text(seconds) == decimal(n as nat) + "m"@,
        n < 24 && n * 3600 <= seconds < n * 3600 + 3600 ==> age_text(seconds) == decimal(n as nat)
            + "h"@,
        n * 86_400 <= seconds < n * 86_400 + 86_400 ==> age_text(seconds) == decimal(n as nat)
            + "d"@,
{
}

/// The seconds since a time, and none since one to come.
pub proof fn law_times_to_come_are_now(timestamp: i64, now: i64)
    ensures
        timestamp >= now ==> seconds_since(timestamp, now) == 0,
        timestamp < now && now - timestamp <= i64::MAX ==> seconds_since(timestamp, now) == now
            - timestamp,
{
}

/// A text that is not too long is left as it is; of a longer one the start stays,
/// with a mark behind it.
pub proof fn law_long_texts_are_cut(text: Seq<char>, limit: nat)
    ensures
        text.len() <= limit ==> cut_off(text, limit) == text,
        text.len() > limit ==> cut_off(text, limit) == text.take(limit as int) + "…"@,
{
}

/// Turning to a page of a book turns to that page, and beyond an end of the book
/// to the last page there.
pub proof fn law_pages_are_turned_to(page: int, count: int)
    ensures
        0 <= page < count ==> page_within(page, count) == page,
        count > 0 && page >= count ==> page_within(page, count) == count - 1,
        page < 0 ==> page_within(page, count) == 0,
{
}

/// The icon of a feed is its own, else its picture; a page to look for one is
/// its site.
pub proof fn law_icons_come_in_order(feed: FeedRecordView)
    ensures
        feed.favicon_url is Some ==> icon_address(feed) == feed.favicon_url,
        feed.favicon_url is None && feed.feed_image_url is Some ==> icon_address(feed)
            == feed.feed_image_url,
        feed.favicon_url is None && feed.feed_image_url is None && feed.site_url is None
            ==> icon_address(feed) is None,
        feed.site_url is Some ==> icon_page(feed) == feed.site_url,
{
}

/// A block of text with some words in it.
pub open spec fn has_words(block: BlockView, words: Seq<char>) -> bool {
    words.len() > 0 && match block {
        BlockView::Heading { level, text } => text == words,
        BlockView::Paragraph { text, links } => text == words,
        BlockView::Quote(text) => text == words,
        BlockView::Code(text) => text == words,
        BlockView::ListItem(text) => text == words,
        BlockView::Image { url, alt } => false,
    }
}

/// A first look at an article shows no more than fourteen of its texts, and each
/// of them is the text of one of its blocks. A shorter article is shown with all
/// of its texts.
pub proof fn law_first_look_shows_the_start(blocks: Seq<BlockView>, i: int)
    ensures
        said(blocks).len() <= 14,
        0 <= i < said(blocks).len() ==> exists|k: int|
            0 <= k < blocks.len() && has_words(#[trigger] blocks[k], said(blocks)[i]),
        0 <= i < blocks.len() && said(blocks).len() < 14 ==> forall|words: Seq<char>| #[trigger]
            has_words(blocks[i], words) ==> said(blocks).contains(words),
    decreases blocks.len(),
{
    if blocks.len() > 0 {
        let shorter = blocks.drop_last();
        let n = blocks.len() - 1;
        law_first_look_shows_the_start(shorter, i);
        let before = said(shorter);
        let all = said(blocks);
        if 0 <= i < all.len() {
            if i < before.len() {
                assert(all[i] == before[i]);
                let k = choose|k: int|
                    0 <= k < shorter.len() && has_words(#[trigger] shorter[k], before[i]);
                assert(blocks[k] == shorter[k]);
            } else {
                assert(has_words(blocks[n], all[i]));
            }
        }
        if 0 <= i < blocks.len() && all.len() < 14 {
            assert forall|words: Seq<char>| #[trigger] has_words(
                blocks[i],
                words,
            ) implies all.contains(words) by {
                if i < n {
                    assert(shorter[i] == blocks[i]);
                    assert(before.contains(words));
                    let k = choose|k: int| 0 <= k < before.len() && before[k] == words;
                    assert(all[k] == words);
                } else {
                    assert(all[before.len() as int] == words);
                }
            }
        }
    }
}

} // verus!
