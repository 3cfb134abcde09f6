//! What holds of every stamp: its shape, and its order.

use crate::calendar::{
    clock_text, dates_lie_in_their_year, day_number, days_before_year, hms_text, is_date, months_of_a_year, seconds_in,
    stamp, stamped, year_text, years_are_in_order,
};
use crate::channel::digit;
use crate::modes::Ticks;
use crate::text::{decimal, digit_char, padded};
use crate::text_laws::{a_number_in_columns_reads_back, a_number_reads_back, reads_as};
use vstd::prelude::*;

verus! {

/// Whether an instant falls in the years that are written with four digits.
pub open spec fn in_four_digit_years(secs: i64) -> bool {
    days_before_year(0) * 86_400 <= secs < days_before_year(10_000) * 86_400
}

/// The number that the two characters from `at` on spell.
pub open spec fn two_digits(s: Seq<char>, at: int) -> int {
    10 * (s[at] as int - 48) + (s[at + 1] as int - 48)
}

/// Whether a text has the shape `dddd-dd-dd dd:dd:ddZ` of a stamp, and a time of
/// day in it.
pub open spec fn stamp_shaped(s: Seq<char>) -> bool {
    &&& s.len() == 20
    &&& digit(s[0]) && digit(s[1]) && digit(s[2]) && digit(s[3])
    &&& s[4] == '-'
    &&& digit(s[5]) && digit(s[6])
    &&& s[7] == '-'
    &&& digit(s[8]) && digit(s[9])
    &&& s[10] == ' '
    &&& digit(s[11]) && digit(s[12])
    &&& s[13] == ':'
    &&& digit(s[14]) && digit(s[15])
    &&& s[16] == ':'
    &&& digit(s[17]) && digit(s[18])
    &&& s[19] == 'Z'
    &&& 1 <= two_digits(s, 5) <= 12
    &&& 1 <= two_digits(s, 8) <= 31
    &&& 0 <= two_digits(s, 11) <= 23
    &&& 0 <= two_digits(s, 14) <= 59
    &&& 0 <= two_digits(s, 17) <= 59
}

/// Whether two texts first differ at `k`, where the first has the smaller
/// character.
pub open spec fn smaller_from(a: Seq<char>, b: Seq<char>, k: int) -> bool {
    &&& 0 <= k < a.len()
    &&& k < b.len()
    &&& a[k] < b[k]
    &&& forall|j: int| 0 <= j < k ==> #[trigger] a[j] == b[j]
}

/// Whether `a` comes no later than `b` in the order of texts.
pub open spec fn no_later(a: Seq<char>, b: Seq<char>) -> bool {
    a.is_prefix_of(b) || exists|k: int| smaller_from(a, b, k)
}

proof fn digits_are_in_order(a: int, b: int)
    requires
        0 <= a <= 9,
        0 <= b <= 9,
    ensures
        digit(digit_char(a)),
        digit_char(a) as int == 48 + a,
        a < b ==> digit_char(a) < digit_char(b),
{
}

proof fn two_places(n: nat)
    requires
        n < 100,
    ensures
        padded(n, 2) == seq![digit_char((n / 10) as int), digit_char((n % 10) as int)],
{
    reveal_with_fuel(decimal, 3);
}

proof fn four_places(n: nat)
    requires
        n < 10_000,
    ensures
        padded(n, 4) == seq![
            digit_char((n / 1000) as int),
            digit_char((n / 100 % 10) as int),
            digit_char((n / 10 % 10) as int),
            digit_char((n % 10) as int),
        ],
{
    reveal_with_fuel(decimal, 5);
    assert(n / 10 / 10 == n / 100);
    assert(n / 10 / 10 / 10 == n / 1000);
}

/// The character at place `i` of a stamp.
pub open spec fn glyph(y: int, m: int, d: int, tod: int, i: int) -> char {
    if i == 0 {
        digit_char(y / 1000)
    } else if i == 1 {
        digit_char(y / 100 % 10)
    } else if i == 2 {
        digit_char(y / 10 % 10)
    } else if i == 3 {
        digit_char(y % 10)
    } else if i == 4 || i == 7 {
        '-'
    } else if i == 5 {
        digit_char(m / 10)
    } else if i == 6 {
        digit_char(m % 10)
    } else if i == 8 {
        digit_char(d / 10)
    } else if i == 9 {
        digit_char(d % 10)
    } else if i == 10 {
        ' '
    } else if i == 11 {
        digit_char(tod / 3600 / 10)
    } else if i == 12 {
        digit_char(tod / 3600 % 10)
    } else if i == 13 || i == 16 {
        ':'
    } else if i == 14 {
        digit_char(tod / 60 % 60 / 10)
    } else if i == 15 {
        digit_char(tod / 60 % 60 % 10)
    } else if i == 17 {
        digit_char(tod % 60 / 10)
    } else if i == 18 {
        digit_char(tod % 60 % 10)
    } else {
        'Z'
    }
}

/// A stamp, character by character.
pub open spec fn spelt_out(y: int, m: int, d: int, tod: int) -> Seq<char> {
    Seq::new(20, |i: int| glyph(y, m, d, tod, i))
}

/// A stamp of a year with four digits, character by character.
pub proof fn a_stamp_spelt_out(y: int, m: int, d: int, tod: int)
    requires
        0 <= y <= 9_999,
        is_date(y, m, d),
        0 <= tod < 86_400,
    ensures
        stamp(y, m, d, tod) == spelt_out(y, m, d, tod),
{
    reveal_strlit("-");
    reveal_strlit(" ");
    reveal_strlit(":");
    reveal_strlit("Z");
    four_places(y as nat);
    two_places(m as nat);
    two_places(d as nat);
    two_places((tod / 3600) as nat);
    two_places((tod / 60 % 60) as nat);
    two_places((tod % 60) as nat);
    assert(year_text(y) == padded(y as nat, 4));
    assert(stamp(y, m, d, tod) =~= spelt_out(y, m, d, tod));
}

/// The date and the time of day behind a stamp of the years with four digits.
proof fn behind_a_stamp(secs: i64, s: Seq<char>) -> (date: (int, int, int))
    requires
        in_four_digit_years(secs),
        stamped(secs, s),
    ensures
        is_date(date.0, date.1, date.2),
        0 <= date.0 <= 9_999,
        day_number(date.0, date.1, date.2) == secs as int / 86_400,
        s == spelt_out(date.0, date.1, date.2, secs as int % 86_400),
{
    let (y, m, d) = choose|y: int, m: int, d: int|
        {
            &&& is_date(y, m, d)
            &&& #[trigger] day_number(y, m, d) == secs as int / 86_400
            &&& s == stamp(y, m, d, secs as int % 86_400)
        };
    dates_lie_in_their_year(y, m, d);
    let day = secs as int / 86_400;
    assert(days_before_year(0) <= day < days_before_year(10_000));
    if y < 0 {
        if y + 1 < 0 {
            years_are_in_order(y + 1, 0);
        }
    } else if y >= 10_000 {
        if y > 10_000 {
            years_are_in_order(10_000, y);
        }
    }
    a_stamp_spelt_out(y, m, d, secs as int % 86_400);
    (y, m, d)
}

/// In the years 0 to 9999 every stamp has twenty characters, in the shape
/// `dddd-dd-dd dd:dd:ddZ`, and gives a time of day.
pub proof fn stamps_have_one_shape(secs: i64, s: Seq<char>)
    requires
        in_four_digit_years(secs),
        stamped(secs, s),
    ensures
        stamp_shaped(s),
{
    let (y, m, d) = behind_a_stamp(secs, s);
    let tod = secs as int % 86_400;
    let (h, min, sec) = (tod / 3600, tod / 60 % 60, tod % 60);
    digits_are_in_order(y / 1000, y / 100 % 10);
    digits_are_in_order(y / 100 % 10, 0);
    digits_are_in_order(y / 10 % 10, 0);
    digits_are_in_order(y % 10, 0);
    digits_are_in_order(m / 10, 0);
    digits_are_in_order(m % 10, 0);
    digits_are_in_order(d / 10, 0);
    digits_are_in_order(d % 10, 0);
    digits_are_in_order(h / 10, 0);
    digits_are_in_order(h % 10, 0);
    digits_are_in_order(min / 10, 0);
    digits_are_in_order(min % 10, 0);
    digits_are_in_order(sec / 10, 0);
    digits_are_in_order(sec % 10, 0);
}

/// Dates come in the order of their days.
pub proof fn dates_come_in_order(y: int, m: int, d: int, y2: int, m2: int, d2: int)
    requires
        is_date(y, m, d),
        is_date(y2, m2, d2),
        day_number(y, m, d) <= day_number(y2, m2, d2),
    ensures
        y <= y2,
        y == y2 ==> m <= m2,
        y == y2 && m == m2 ==> d <= d2,
{
    dates_lie_in_their_year(y, m, d);
    dates_lie_in_their_year(y2, m2, d2);
    if y2 < y {
        years_are_in_order(y2, y);
    }
    months_of_a_year(y);
    assert(m == 1 || m == 2 || m == 3 || m == 4 || m == 5 || m == 6 || m == 7 || m == 8 || m == 9 || m == 10 || m
        == 11 || m == 12);
    assert(m2 == 1 || m2 == 2 || m2 == 3 || m2 == 4 || m2 == 5 || m2 == 6 || m2 == 7 || m2 == 8 || m2 == 9 || m2
        == 10 || m2 == 11 || m2 == 12);
}

/// A number of two digits that is smaller makes the text smaller where it stands.
proof fn smaller_pair(a: Seq<char>, b: Seq<char>, at: int, n: int, n2: int)
    requires
        0 <= n < n2 < 100,
        0 <= at,
        at + 1 < a.len(),
        at + 1 < b.len(),
        a[at] == digit_char(n / 10),
        a[at + 1] == digit_char(n % 10),
        b[at] == digit_char(n2 / 10),
        b[at + 1] == digit_char(n2 % 10),
        forall|j: int| 0 <= j < at ==> #[trigger] a[j] == b[j],
    ensures
        no_later(a, b),
{
    digits_are_in_order(n / 10, n2 / 10);
    digits_are_in_order(n % 10, n2 % 10);
    if n / 10 < n2 / 10 {
        assert(smaller_from(a, b, at));
    } else {
        assert(smaller_from(a, b, at + 1));
    }
}

/// A number of four digits that is smaller makes the text smaller where it stands.
proof fn smaller_year(a: Seq<char>, b: Seq<char>, y: int, y2: int)
    requires
        0 <= y < y2 <= 9_999,
        a.len() >= 4,
        b.len() >= 4,
        a[0] == digit_char(y / 1000),
        a[1] == digit_char(y / 100 % 10),
        a[2] == digit_char(y / 10 % 10),
        a[3] == digit_char(y % 10),
        b[0] == digit_char(y2 / 1000),
        b[1] == digit_char(y2 / 100 % 10),
        b[2] == digit_char(y2 / 10 % 10),
        b[3] == digit_char(y2 % 10),
    ensures
        no_later(a, b),
{
    four_figures(y);
    four_figures(y2);
    smaller_figures(
        a,
        b,
        (y / 1000, y / 100 % 10, y / 10 % 10, y % 10),
        (y2 / 1000, y2 / 100 % 10, y2 / 10 % 10, y2 % 10),
    );
}

/// A number of four digits, by its digits.
proof fn four_figures(y: int)
    requires
        0 <= y <= 9_999,
    ensures
        0 <= y / 1000 <= 9,
        0 <= y / 100 % 10 <= 9,
        0 <= y / 10 % 10 <= 9,
        0 <= y % 10 <= 9,
        y == 1000 * (y / 1000) + 100 * (y / 100 % 10) + 10 * (y / 10 % 10) + y % 10,
{
}

/// Of two numbers of four digits, the smaller makes the text smaller.
proof fn smaller_figures(a: Seq<char>, b: Seq<char>, n: (int, int, int, int), m: (int, int, int, int))
    requires
        0 <= n.0 <= 9 && 0 <= n.1 <= 9 && 0 <= n.2 <= 9 && 0 <= n.3 <= 9,
        0 <= m.0 <= 9 && 0 <= m.1 <= 9 && 0 <= m.2 <= 9 && 0 <= m.3 <= 9,
        1000 * n.0 + 100 * n.1 + 10 * n.2 + n.3 < 1000 * m.0 + 100 * m.1 + 10 * m.2 + m.3,
        a.len() >= 4,
        b.len() >= 4,
        a[0] == digit_char(n.0) && a[1] == digit_char(n.1) && a[2] == digit_char(n.2) && a[3] == digit_char(n.3),
        b[0] == digit_char(m.0) && b[1] == digit_char(m.1) && b[2] == digit_char(m.2) && b[3] == digit_char(m.3),
    ensures
        no_later(a, b),
{
    digits_are_in_order(n.0, m.0);
    digits_are_in_order(n.1, m.1);
    digits_are_in_order(n.2, m.2);
    digits_are_in_order(n.3, m.3);
    if n.0 < m.0 {
        assert(smaller_from(a, b, 0));
    } else if n.1 < m.1 {
        assert(smaller_from(a, b, 1));
    } else if n.2 < m.2 {
        assert(smaller_from(a, b, 2));
    } else {
        assert(smaller_from(a, b, 3));
    }
}

/// Of two stamps of one day, the one that is later in the day is no smaller.
proof fn later_in_the_day(y: int, m: int, d: int, tod: int, tod2: int)
    requires
        0 <= tod <= tod2 < 86_400,
    ensures
        no_later(spelt_out(y, m, d, tod), spelt_out(y, m, d, tod2)),
{
    let (a, b) = (spelt_out(y, m, d, tod), spelt_out(y, m, d, tod2));
    let (h, min, s) = (tod / 3600, tod / 60 % 60, tod % 60);
    let (h2, min2, s2) = (tod2 / 3600, tod2 / 60 % 60, tod2 % 60);
    assert(tod == 3600 * h + 60 * min + s);
    assert(tod2 == 3600 * h2 + 60 * min2 + s2);
    if h < h2 {
        smaller_pair(a, b, 11, h, h2);
    } else if min < min2 {
        smaller_pair(a, b, 14, min, min2);
    } else if s < s2 {
        smaller_pair(a, b, 17, s, s2);
    } else {
        assert(a == b);
    }
}

/// Of two stamps, the one with the later date is no smaller.
proof fn later_dates(y: int, m: int, d: int, tod: int, y2: int, m2: int, d2: int, tod2: int)
    requires
        0 <= y <= y2 <= 9_999,
        1 <= m <= 12,
        1 <= m2 <= 12,
        1 <= d <= 31,
        1 <= d2 <= 31,
        y == y2 ==> m <= m2,
        y == y2 && m == m2 ==> d <= d2,
        y == y2 && m == m2 && d == d2 ==> tod <= tod2,
        0 <= tod,
        tod2 < 86_400,
    ensures
        no_later(spelt_out(y, m, d, tod), spelt_out(y2, m2, d2, tod2)),
{
    let (a, b) = (spelt_out(y, m, d, tod), spelt_out(y2, m2, d2, tod2));
    if y < y2 {
        smaller_year(a, b, y, y2);
    } else if m < m2 {
        smaller_pair(a, b, 5, m, m2);
    } else if d < d2 {
        smaller_pair(a, b, 8, d, d2);
    } else {
        later_in_the_day(y, m, d, tod, tod2);
    }
}

/// In the years 0 to 9999 stamps sort as the instants they stand for: a later
/// instant has no smaller stamp.
pub proof fn later_instants_have_no_smaller_stamps(t1: i64, s1: Seq<char>, t2: i64, s2: Seq<char>)
    requires
        in_four_digit_years(t1),
        in_four_digit_years(t2),
        stamped(t1, s1),
        stamped(t2, s2),
        t1 <= t2,
    ensures
        no_later(s1, s2),
{
    let (y, m, d) = behind_a_stamp(t1, s1);
    let (y2, m2, d2) = behind_a_stamp(t2, s2);
    let (tod, tod2) = (t1 as int % 86_400, t2 as int % 86_400);
    dates_come_in_order(y, m, d, y2, m2, d2);
    assert(1 <= d <= 31 && 1 <= d2 <= 31);
    later_dates(y, m, d, tod, y2, m2, d2, tod2);
}

/// An instant has one stamp.
pub proof fn an_instant_has_one_stamp(secs: i64, s: Seq<char>, again: Seq<char>)
    requires
        stamped(secs, s),
        stamped(secs, again),
    ensures
        s == again,
{
    let (y, m, d) = choose|y: int, m: int, d: int|
        {
            &&& is_date(y, m, d)
            &&& #[trigger] day_number(y, m, d) == secs as int / 86_400
            &&& s == stamp(y, m, d, secs as int % 86_400)
        };
    let (y2, m2, d2) = choose|y: int, m: int, d: int|
        {
            &&& is_date(y, m, d)
            &&& #[trigger] day_number(y, m, d) == secs as int / 86_400
            &&& again == stamp(y, m, d, secs as int % 86_400)
        };
    crate::calendar::a_day_has_one_date(y, m, d, y2, m2, d2);
}

/// A duration reads back as the whole seconds of it: hours, then minutes and
/// seconds in two places each and below sixty. One below zero reads as none.
pub proof fn a_duration_reads_back(t: Ticks)
    ensures
        ({
            let s = hms_text(t);
            let n = s.len() as int;
            let (h, m, sec) = (
                reads_as(s.take(n - 6)),
                reads_as(s.subrange(n - 5, n - 3)),
                reads_as(s.skip(n - 2)),
            );
            &&& n >= 7 && s[n - 6] == ':' && s[n - 3] == ':'
            &&& 0 <= m < 60 && 0 <= sec < 60 && 0 <= h
            &&& t >= 0 ==> 12_000_000 * (3600 * h + 60 * m + sec) <= t < 12_000_000 * (3600 * h + 60 * m + sec + 1)
            &&& t < 0 ==> h == 0 && m == 0 && sec == 0
        }),
{
    let k = seconds_in(t);
    reveal_strlit(":");
    a_number_reads_back(k / 3600);
    a_number_in_columns_reads_back(k / 60 % 60, 2);
    a_number_in_columns_reads_back(k % 60, 2);
    two_places(k / 60 % 60);
    two_places(k % 60);
    let s = hms_text(t);
    let n = s.len() as int;
    assert(s.take(n - 6) == decimal(k / 3600));
    assert(s.subrange(n - 5, n - 3) == padded(k / 60 % 60, 2));
    assert(s.skip(n - 2) == padded(k % 60, 2));
    assert(3600 * (k / 3600) + 60 * (k / 60 % 60) + k % 60 == k);
}

/// A time of the audio reads back as the whole seconds of it: minutes, however
/// many, and seconds in two places and below sixty.
pub proof fn a_clock_time_reads_back(t: Ticks)
    ensures
        ({
            let s = clock_text(t);
            let n = s.len() as int;
            let (m, sec) = (reads_as(s.take(n - 3)), reads_as(s.skip(n - 2)));
            &&& n >= 4 && s[n - 3] == ':'
            &&& 0 <= sec < 60 && 0 <= m
            &&& t >= 0 ==> 12_000_000 * (60 * m + sec) <= t < 12_000_000 * (60 * m + sec + 1)
            &&& t < 0 ==> m == 0 && sec == 0
        }),
{
    let k = seconds_in(t);
    reveal_strlit(":");
    a_number_reads_back(k / 60);
    a_number_in_columns_reads_back(k % 60, 2);
    two_places(k % 60);
    let s = clock_text(t);
    let n = s.len() as int;
    assert(s.take(n - 3) == decimal(k / 60));
    assert(s.skip(n - 2) == padded(k % 60, 2));
    assert(60 * (k / 60) + k % 60 == k);
}

} // verus!
