//! Dates and durations, as they are shown.

use crate::modes::{Ticks, SECOND};
use crate::text::{decimal, padded, push_decimal, push_padded};
use vstd::prelude::*;

verus! {

/// Whether a year has a leap day.
pub open spec fn leap(y: int) -> bool {
    y % 4 == 0 && (y % 100 != 0 || y % 400 == 0)
}

/// How many days a month has.
pub open spec fn days_in_month(y: int, m: int) -> int {
    if m == 2 {
        if leap(y) {
            29
        } else {
            28
        }
    } else if m == 4 || m == 6 || m == 9 || m == 11 {
        30
    } else {
        31
    }
}

/// How many days of a year are over when a month begins.
pub open spec fn days_before_month(y: int, m: int) -> int
    decreases m,
{
    if m <= 1 {
        0
    } else {
        days_before_month(y, m - 1) + days_in_month(y, m - 1)
    }
}

/// How many days lie between the start of 1970 and the start of a year.
pub open spec fn days_before_year(y: int) -> int {
    365 * (y - 1970) + (y - 1) / 4 - (y - 1) / 100 + (y - 1) / 400 - 477
}

/// Whether there is such a day.
pub open spec fn is_date(y: int, m: int, d: int) -> bool {
    1 <= m <= 12 && 1 <= d <= days_in_month(y, m)
}

/// How many days lie between 1 January 1970 and a date.
pub open spec fn day_number(y: int, m: int, d: int) -> int {
    days_before_year(y) + days_before_month(y, m) + d - 1
}

/// Every year has 365 days, and a leap year one more.
pub proof fn years_follow_each_other(y: int)
    ensures
        days_before_year(y + 1) == days_before_year(y) + if leap(y) { 366int } else { 365 },
        days_before_year(1970) == 0,
        days_before_month(y, 13) == if leap(y) { 366int } else { 365 },
{
    reveal_with_fuel(days_before_month, 14);
}

/// The first day of each month.
pub(crate) proof fn months_of_a_year(y: int)
    ensures
        days_before_month(y, 1) == 0,
        days_before_month(y, 2) == 31,
        ({
            let l = if leap(y) { 1int } else { 0 };
            &&& days_before_month(y, 3) == 59 + l
            &&& days_before_month(y, 4) == 90 + l
            &&& days_before_month(y, 5) == 120 + l
            &&& days_before_month(y, 6) == 151 + l
            &&& days_before_month(y, 7) == 181 + l
            &&& days_before_month(y, 8) == 212 + l
            &&& days_before_month(y, 9) == 243 + l
            &&& days_before_month(y, 10) == 273 + l
            &&& days_before_month(y, 11) == 304 + l
            &&& days_before_month(y, 12) == 334 + l
        }),
{
    reveal_with_fuel(days_before_month, 13);
}

/// The year of an era that a day of it falls in, the years beginning in March.
proof fn year_of_era(doe: int, yoe: int)
    requires
        0 <= doe <= 146_096,
        yoe == (doe - doe / 1460 + doe / 36524 - doe / 146_096) / 365,
    ensures
        0 <= yoe <= 399,
        365 * yoe + yoe / 4 - yoe / 100 <= doe,
        yoe < 399 ==> doe < 365 * (yoe + 1) + (yoe + 1) / 4 - (yoe + 1) / 100,
        doe <= 365 * yoe + yoe / 4 - yoe / 100 + 365,
{
    let c = if doe == 146_096 { 3int } else { doe / 36524 };
    let r = doe - 36524 * c;
    let q = if r / 1461 > 24 { 24int } else { r / 1461 };
    let t = r - 1461 * q;
    assert(0 <= c <= 3);
    assert(0 <= q <= 24);
    assert(0 <= t <= 1460);
    let e = if 24 * c + q + t >= 1460 { 1int } else { 0 };
    assert(doe == 1460 * (25 * c + q) + (24 * c + q + t));
    assert(doe / 1460 == 25 * c + q + e);
    let y = if t == 1460 { 3int } else { t / 365 };
    assert(yoe == 100 * c + 4 * q + y);
    assert(yoe / 4 == 25 * c + q);
    assert(yoe / 100 == c);
    assert(0 <= y <= 3);
    assert(365 * y <= t);
    assert(y < 3 ==> t < 365 * (y + 1));
    if y == 3 {
        assert((yoe + 1) / 4 == 25 * c + q + 1);
        if q < 24 {
            assert((yoe + 1) / 100 == c);
        } else {
            assert((yoe + 1) / 100 == c + 1);
        }
    } else {
        assert((yoe + 1) / 4 == 25 * c + q);
        assert((yoe + 1) / 100 == c);
    }
}

/// Counting a year from March, the days before it are those before it from
/// January, and the months that are then over.
proof fn march_years(y: int)
    ensures
        365 * y + y / 4 - y / 100 + y / 400 - 719_468 == days_before_year(y) + days_before_month(y, 3),
        365 * y + y / 4 - y / 100 + y / 400 - 719_468 + 306 == days_before_year(y + 1),
{
    months_of_a_year(y);
    years_follow_each_other(y);
}

/// Whether a year that begins in March has a leap day at its end.
proof fn leap_day(era: int, yoe: int, doe: int)
    requires
        0 <= yoe <= 399,
        yoe < 399 ==> doe < 365 * (yoe + 1) + (yoe + 1) / 4 - (yoe + 1) / 100,
        doe == 365 * yoe + yoe / 4 - yoe / 100 + 365,
    ensures
        leap(yoe + era * 400 + 1),
{
    let y = yoe + 1;
    if yoe == 399 {
        assert((400 + era * 400) % 400 == 0);
        assert((400 + era * 400) % 4 == 0);
    } else {
        assert(y % 4 == 0 && y % 100 != 0);
        assert((y + era * 400) % 4 == y % 4);
        assert((y + era * 400) % 100 == y % 100);
    }
}

/// The day of an era, counted from 1970.
proof fn era_days(era: int, yoe: int)
    requires
        0 <= yoe <= 399,
    ensures
        ({
            let y = yoe + era * 400;
            365 * y + y / 4 - y / 100 + y / 400 == era * 146_097 + 365 * yoe + yoe / 4 - yoe / 100
        }),
{
    let y = yoe + era * 400;
    assert(y / 4 == yoe / 4 + era * 100);
    assert(y / 100 == yoe / 100 + era * 4);
    assert(y / 400 == era);
}

/// The date of a day, from its place in its era.
proof fn date_of_day(z: int, era: int, doe: int, yoe: int, doy: int, mp: int, d: int)
    requires
        z == era * 146_097 + doe,
        0 <= yoe <= 399,
        yoe < 399 ==> doe < 365 * (yoe + 1) + (yoe + 1) / 4 - (yoe + 1) / 100,
        doy == doe - (365 * yoe + yoe / 4 - yoe / 100),
        0 <= doy <= 365,
        mp == (5 * doy + 2) / 153,
        d == doy - (153 * mp + 2) / 5 + 1,
    ensures
        0 <= mp <= 11,
        ({
            let y = yoe + era * 400;
            let m = if mp < 10 { mp + 3 } else { mp - 9 };
            let year = if m <= 2 { y + 1 } else { y };
            is_date(year, m, d) && day_number(year, m, d) == z - 719_468
        }),
{
    let y = yoe + era * 400;
    if doy == 365 {
        leap_day(era, yoe, doe);
    }
    era_days(era, yoe);
    march_years(y);
    months_of_the_march_year(y, doy, mp, d);
}

/// Civil date from a count of days since 1970-01-01.
///
/// The years are taken to begin in March, so that the leap day falls at the end
/// of one.
pub fn civil_from_days(days: i64) -> (date: (i64, i64, i64))
    requires
        days <= i64::MAX - 719_468,
    ensures
        is_date(date.0 as int, date.1 as int, date.2 as int),
        day_number(date.0 as int, date.1 as int, date.2 as int) == days,
{
    let z: i64 = days + 719_468;
    let (era, doe): (i64, i64) = if z >= 0 {
        (z / 146_097, z % 146_097)
    } else {
        // Division rounds towards zero, so a day before the first era is counted
        // from the end of the one before.
        let back: i64 = -(z + 1);
        (-(back / 146_097) - 1, 146_096 - back % 146_097)
    };
    assert(z == era * 146_097 + doe);
    let yoe: i64 = (doe - doe / 1460 + doe / 36524 - doe / 146_096) / 365;
    proof {
        year_of_era(doe as int, yoe as int);
    }
    let doy: i64 = doe - (365 * yoe + yoe / 4 - yoe / 100);
    assert(0 <= doy <= 365);
    let mp: i64 = (5 * doy + 2) / 153;
    let d: i64 = doy - (153 * mp + 2) / 5 + 1;
    let m: i64 = if mp < 10 {
        mp + 3
    } else {
        mp - 9
    };
    let base: i64 = yoe + era * 400;
    proof {
        date_of_day(z as int, era as int, doe as int, yoe as int, doy as int, mp as int, d as int);
    }
    (if m <= 2 { base + 1 } else { base }, m, d)
}

/// The month of a year that begins in March that a day of it falls in.
proof fn months_of_the_march_year(y: int, doy: int, mp: int, d: int)
    requires
        0 <= doy <= 365,
        doy == 365 ==> leap(y + 1),
        mp == (5 * doy + 2) / 153,
        d == doy - (153 * mp + 2) / 5 + 1,
    ensures
        0 <= mp <= 11,
        mp < 10 ==> is_date(y, mp + 3, d) && days_before_month(y, mp + 3) + d - 1 == days_before_month(y, 3) + doy,
        mp >= 10 ==> is_date(y + 1, mp - 9, d) && 306 + days_before_month(y + 1, mp - 9) + d - 1 == doy,
{
    months_of_a_year(y);
    months_of_a_year(y + 1);
    assert(0 <= mp <= 11);
    assert(mp == 0 || mp == 1 || mp == 2 || mp == 3 || mp == 4 || mp == 5 || mp == 6 || mp == 7 || mp == 8 || mp == 9
        || mp == 10 || mp == 11);
}

/// Years begin in order.
pub(crate) proof fn years_are_in_order(a: int, b: int)
    requires
        a < b,
    ensures
        days_before_year(a) + 365 <= days_before_year(b),
        days_before_year(a + 1) <= days_before_year(b),
    decreases b - a,
{
    years_follow_each_other(a);
    if a + 1 < b {
        years_are_in_order(a + 1, b);
    }
}

/// A date lies within its year.
pub(crate) proof fn dates_lie_in_their_year(y: int, m: int, d: int)
    requires
        is_date(y, m, d),
    ensures
        days_before_year(y) <= day_number(y, m, d) < days_before_year(y + 1),
{
    months_of_a_year(y);
    years_follow_each_other(y);
    assert(m == 1 || m == 2 || m == 3 || m == 4 || m == 5 || m == 6 || m == 7 || m == 8 || m == 9 || m == 10 || m
        == 11 || m == 12);
}

/// No two dates are the same day.
pub proof fn a_day_has_one_date(y: int, m: int, d: int, y2: int, m2: int, d2: int)
    requires
        is_date(y, m, d),
        is_date(y2, m2, d2),
        day_number(y, m, d) == day_number(y2, m2, d2),
    ensures
        y == y2 && m == m2 && d == d2,
{
    dates_lie_in_their_year(y, m, d);
    dates_lie_in_their_year(y2, m2, d2);
    if y < y2 {
        years_are_in_order(y, y2);
    } else if y2 < y {
        years_are_in_order(y2, y);
    }
    assert(y == y2);
    months_of_a_year(y);
    assert(m == 1 || m == 2 || m == 3 || m == 4 || m == 5 || m == 6 || m == 7 || m == 8 || m == 9 || m == 10 || m
        == 11 || m == 12);
    assert(m2 == 1 || m2 == 2 || m2 == 3 || m2 == 4 || m2 == 5 || m2 == 6 || m2 == 7 || m2 == 8 || m2 == 9 || m2
        == 10 || m2 == 11 || m2 == 12);
}

/// A year in at least four places, the sign among them.
pub open spec fn year_text(y: int) -> Seq<char> {
    if y >= 0 {
        padded(y as nat, 4)
    } else {
        seq!['-'] + padded((-y) as nat, 3)
    }
}

/// An instant as `YYYY-MM-DD hh:mm:ssZ`, given its date.
pub open spec fn stamp(y: int, m: int, d: int, tod: int) -> Seq<char> {
    year_text(y) + "-"@ + padded(m as nat, 2) + "-"@ + padded(d as nat, 2) + " "@ + padded((tod / 3600) as nat, 2)
        + ":"@ + padded((tod / 60 % 60) as nat, 2) + ":"@ + padded((tod % 60) as nat, 2) + "Z"@
}

/// Whether a text is an instant, in seconds since 1970, as
/// `YYYY-MM-DD hh:mm:ssZ`.
pub open spec fn stamped(secs: i64, s: Seq<char>) -> bool {
    exists|y: int, m: int, d: int|
        {
            &&& is_date(y, m, d)
            &&& #[trigger] day_number(y, m, d) == secs as int / 86_400
            &&& s == stamp(y, m, d, secs as int % 86_400)
        }
}

/// An instant, in seconds since 1970, as `YYYY-MM-DD hh:mm:ssZ`.
///
/// UTC, because that is what a contact is logged in.
pub fn utc_stamp(secs: i64) -> (s: String)
    ensures
        stamped(secs, s@),
{
    let (days, tod): (i64, i64) = if secs >= 0 {
        (secs / 86_400, secs % 86_400)
    } else {
        let back: i64 = -(secs + 1);
        (-(back / 86_400) - 1, 86_399 - back % 86_400)
    };
    assert(days == secs as int / 86_400 && tod == secs as int % 86_400);
    let (y, m, d): (i64, i64, i64) = civil_from_days(days);
    proof {
        year_is_near(y as int, m as int, d as int, days as int);
    }
    let mut out = String::new();
    if y < 0 {
        out.push('-');
        push_padded(&mut out, (-y) as u64, 3);
        assert(out@ == year_text(y as int));
    } else {
        push_padded(&mut out, y as u64, 4);
        assert(out@ == year_text(y as int));
    }
    out.append("-");
    push_padded(&mut out, m as u64, 2);
    out.append("-");
    push_padded(&mut out, d as u64, 2);
    out.append(" ");
    push_padded(&mut out, (tod / 3600) as u64, 2);
    out.append(":");
    push_padded(&mut out, (tod / 60 % 60) as u64, 2);
    out.append(":");
    push_padded(&mut out, (tod % 60) as u64, 2);
    out.append("Z");
    assert(out@ == stamp(y as int, m as int, d as int, tod as int));
    assert(day_number(y as int, m as int, d as int) == days);
    out
}

/// The year of a day that an instant can fall on can be counted.
proof fn year_is_near(y: int, m: int, d: int, days: int)
    requires
        is_date(y, m, d),
        day_number(y, m, d) == days,
        -200_000_000_000_000 < days < 200_000_000_000_000,
    ensures
        -1_000_000_000_000_000 < y < 1_000_000_000_000_000,
{
    dates_lie_in_their_year(y, m, d);
}

/// A length of time in whole seconds, with nothing below zero.
pub open spec fn seconds_in(t: Ticks) -> nat {
    if t < 0 {
        0
    } else {
        (t as int / SECOND as int) as nat
    }
}

/// A length of time in whole seconds, with nothing below zero.
fn to_whole_seconds(t: Ticks) -> (s: u64)
    ensures
        s == seconds_in(t),
{
    if t < 0 {
        0
    } else {
        (t / SECOND) as u64
    }
}

/// A duration as `h:mm:ss`.
pub open spec fn hms_text(t: Ticks) -> Seq<char> {
    decimal(seconds_in(t) / 3600) + ":"@ + padded(seconds_in(t) / 60 % 60, 2) + ":"@ + padded(seconds_in(t) % 60, 2)
}

/// A duration as `h:mm:ss`, for a recording that may well run all night.
pub fn hms(t: Ticks) -> (s: String)
    ensures
        s@ == hms_text(t),
{
    let s: u64 = to_whole_seconds(t);
    let mut out = String::new();
    push_decimal(&mut out, s / 3600);
    out.append(":");
    push_padded(&mut out, s / 60 % 60, 2);
    out.append(":");
    push_padded(&mut out, s % 60, 2);
    out
}

/// A time of the audio as `m:ss`.
pub open spec fn clock_text(t: Ticks) -> Seq<char> {
    decimal(seconds_in(t) / 60) + ":"@ + padded(seconds_in(t) % 60, 2)
}

/// A time of the audio as `m:ss`. Minutes are not wrapped at an hour.
pub fn clock(t: Ticks) -> (s: String)
    ensures
        s@ == clock_text(t),
{
    let s: u64 = to_whole_seconds(t);
    let mut out = String::new();
    push_decimal(&mut out, s / 60);
    out.append(":");
    push_padded(&mut out, s % 60, 2);
    out
}

} // verus!
