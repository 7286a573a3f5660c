//! Dates as feeds write them, in seconds since the start of 1970.

use crate::text::{trim, trimmed};
use vstd::prelude::*;

verus! {

/// What `chrono::DateTime::parse_from_rfc3339` makes of a text, in seconds
/// since the start of 1970.
pub uninterp spec fn rfc3339_time(text: Seq<char>) -> Option<i64>;

/// What `chrono::DateTime::parse_from_rfc2822` makes of a text, in seconds
/// since the start of 1970.
pub uninterp spec fn rfc2822_time(text: Seq<char>) -> Option<i64>;

/// What `chrono::DateTime::parse_from_str` makes of a text under a format, in
/// seconds since the start of 1970.
pub uninterp spec fn formatted_time(text: Seq<char>, format: Seq<char>) -> Option<i64>;

/// What `chrono::NaiveDate::parse_from_str` makes of a text under a format: the
/// start of that day in UTC, in seconds since the start of 1970.
pub uninterp spec fn day_time(text: Seq<char>, format: Seq<char>) -> Option<i64>;

/// `chrono::DateTime::parse_from_rfc3339`: the time that the text names, which
/// depends on the text alone.
#[verifier::external_body]
fn read_rfc3339(text: &str) -> (r: Option<i64>)
    ensures
        r == rfc3339_time(text@),
{
    chrono::DateTime::parse_from_rfc3339(text).ok().map(|time| time.timestamp())
}

/// `chrono::DateTime::parse_from_rfc2822`: the time that the text names, which
/// depends on the text alone.
#[verifier::external_body]
fn read_rfc2822(text: &str) -> (r: Option<i64>)
    ensures
        r == rfc2822_time(text@),
{
    chrono::DateTime::parse_from_rfc2822(text).ok().map(|time| time.timestamp())
}

/// `chrono::DateTime::parse_from_str`: the time that the text names under the
/// format, which depends on the two alone.
#[verifier::external_body]
fn read_formatted(text: &str, format: &str) -> (r: Option<i64>)
    ensures
        r == formatted_time(text@, format@),
{
    chrono::DateTime::parse_from_str(text, format).ok().map(|time| time.timestamp())
}

/// `chrono::NaiveDate::parse_from_str`: the start, in UTC, of the day that the
/// text names under the format, which depends on the two alone.
#[verifier::external_body]
fn read_day(text: &str, format: &str) -> (r: Option<i64>)
    ensures
        r == day_time(text@, format@),
{
    let day = chrono::NaiveDate::parse_from_str(text, format).ok()?;
    Some(chrono::NaiveDateTime::from(day).and_utc().timestamp())
}

/// The first value that is there.
pub open spec fn either<T>(first: Option<T>, second: Option<T>) -> Option<T> {
    match first {
        Some(value) => Some(value),
        None => second,
    }
}

/// The time under the first of the formats from `i` on that fits.
pub open spec fn first_format(text: Seq<char>, formats: Seq<Seq<char>>) -> Option<i64>
    decreases formats.len(),
{
    if formats.len() == 0 {
        None
    } else {
        either(formatted_time(text, formats[0]), first_format(text, formats.skip(1)))
    }
}

/// The looser forms of a date with a time, in the order in which they are tried.
pub open spec fn loose_formats() -> Seq<Seq<char>> {
    seq![
        "%a, %d %b %Y %H:%M:%S %z"@,
        "%a, %e %b %Y %H:%M:%S %z"@,
        "%a, %d %b %Y %H:%M %z"@,
        "%d %b %Y %H:%M:%S %z"@,
        "%Y-%m-%d %H:%M:%S %z"@,
    ]
}

/// The time that a text names, whatever form it is written in: RFC 3339, RFC
/// 2822, one of the looser forms, or a bare day.
pub open spec fn time_in(text: Seq<char>) -> Option<i64> {
    let bare = trim(text);
    either(
        rfc3339_time(bare),
        either(
            rfc2822_time(bare),
            either(first_format(bare, loose_formats()), day_time(bare, "%Y-%m-%d"@)),
        ),
    )
}

fn try_formats(text: &str) -> (r: Option<i64>)
    ensures
        r == first_format(text@, loose_formats()),
{
    let ghost all = loose_formats();
    assert(all.skip(1).skip(1) == all.skip(2));
    assert(all.skip(2).skip(1) == all.skip(3));
    assert(all.skip(3).skip(1) == all.skip(4));
    assert(all.skip(4).skip(1).len() == 0);
    proof {
        reveal_with_fuel(first_format, 6);
    }
    if let Some(time) = read_formatted(text, "%a, %d %b %Y %H:%M:%S %z") {
        return Some(time);
    }
    if let Some(time) = read_formatted(text, "%a, %e %b %Y %H:%M:%S %z") {
        return Some(time);
    }
    if let Some(time) = read_formatted(text, "%a, %d %b %Y %H:%M %z") {
        return Some(time);
    }
    if let Some(time) = read_formatted(text, "%d %b %Y %H:%M:%S %z") {
        return Some(time);
    }
    read_formatted(text, "%Y-%m-%d %H:%M:%S %z")
}

/// The time that `value` names.
pub fn parse_date(value: &str) -> (r: Option<i64>)
    ensures
        r == time_in(value@),
{
    let bare = trimmed(value);
    if let Some(time) = read_rfc3339(bare.as_str()) {
        return Some(time);
    }
    if let Some(time) = read_rfc2822(bare.as_str()) {
        return Some(time);
    }
    if let Some(time) = try_formats(bare.as_str()) {
        return Some(time);
    }
    read_day(bare.as_str(), "%Y-%m-%d")
}

} // verus!
