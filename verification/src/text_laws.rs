//! What holds of figures written out: they read back as what was written, to the
//! nearest of what they were rounded to.

use crate::text::{
    decimal, digit_char, find_from, find_from_is_first, hundredths_text, padded, rounded, tenths_text, trim, trim_end,
    trim_start, white_space, whole_text,
};
use vstd::prelude::*;

verus! {

/// What a run of digits reads as.
pub open spec fn reads_as(s: Seq<char>) -> int
    decreases s.len(),
{
    if s.len() == 0 {
        0
    } else {
        10 * reads_as(s.drop_last()) + (s.last() as int - '0' as int)
    }
}

/// Whether there is nothing but digits in `s`.
pub open spec fn figures(s: Seq<char>) -> bool {
    forall|i: int| 0 <= i < s.len() ==> '0' <= #[trigger] s[i] <= '9'
}

/// A number written out reads back as itself, in digits alone, with no more of
/// them than it takes.
pub proof fn a_number_reads_back(n: nat)
    ensures
        reads_as(decimal(n)) == n,
        figures(decimal(n)),
        decimal(n).len() >= 1,
        n > 0 ==> decimal(n)[0] != '0',
        n < 10 <==> decimal(n).len() == 1,
    decreases n,
{
    if n < 10 {
        let s = decimal(n);
        assert(s.drop_last().len() == 0 && reads_as(s.drop_last()) == 0);
        assert(reads_as(s) == n);
    } else {
        a_number_reads_back(n / 10);
        let s = decimal(n);
        assert(s.drop_last() == decimal(n / 10));
        assert(s.last() == digit_char((n % 10) as int));
        assert forall|i: int| 0 <= i < s.len() implies '0' <= #[trigger] s[i] <= '9' by {
            if i < decimal(n / 10).len() {
                assert(s[i] == decimal(n / 10)[i]);
            }
        }
        assert(s[0] == decimal(n / 10)[0]);
    }
}

proof fn zeros_read_as_nothing(k: nat, d: Seq<char>)
    ensures
        reads_as(Seq::new(k, |i: int| '0') + d) == reads_as(d),
    decreases d.len(), k,
{
    let s = Seq::new(k, |i: int| '0') + d;
    if d.len() > 0 {
        assert(s.drop_last() == Seq::new(k, |i: int| '0') + d.drop_last());
        assert(s.last() == d.last());
        zeros_read_as_nothing(k, d.drop_last());
    } else if k > 0 {
        let less = (k - 1) as nat;
        assert(s.drop_last() == Seq::new(less, |i: int| '0') + d);
        zeros_read_as_nothing(less, d);
    } else {
        assert(s == d);
    }
}

/// A number written in columns reads back as itself, fills the columns, and takes
/// more only where it has to.
pub proof fn a_number_in_columns_reads_back(n: nat, width: nat)
    ensures
        reads_as(padded(n, width)) == n,
        figures(padded(n, width)),
        padded(n, width).len() >= width,
        padded(n, width).len() == width || padded(n, width) == decimal(n),
{
    a_number_reads_back(n);
    let d = decimal(n);
    if d.len() < width {
        let k = (width - d.len()) as nat;
        zeros_read_as_nothing(k, d);
        let s = padded(n, width);
        assert forall|i: int| 0 <= i < s.len() implies '0' <= #[trigger] s[i] <= '9' by {
            if i >= k {
                assert(s[i] == d[i - k]);
            }
        }
    }
}

/// Rounding goes to the nearest: what is left over is never more than half a unit,
/// and where it is just half the result is even.
pub proof fn rounding_goes_to_the_nearest(n: nat, unit: nat)
    requires
        unit > 0,
    ensures
        2 * (n - rounded(n, unit) * unit) <= unit,
        2 * (rounded(n, unit) * unit - n) <= unit,
        2 * (n - rounded(n, unit) * unit) == unit || 2 * (rounded(n, unit) * unit - n) == unit ==> rounded(n, unit) % 2
            == 0,
{
    let (q, r) = ((n / unit) as int, (n % unit) as int);
    vstd::arithmetic::div_mod::lemma_fundamental_div_mod(n as int, unit as int);
    assert(n == q * unit + r) by (nonlinear_arith)
        requires
            n == unit * q + r,
    ;
    assert((q + 1) * unit == q * unit + unit) by (nonlinear_arith);
    assert(0 <= r < unit);
}

/// Whether `s` is a sign, where `v` is negative, and then a number of `unit`s as
/// near to the size of `v` as there is.
pub open spec fn says_whole(s: Seq<char>, v: int, unit: nat) -> bool {
    let figs = if v < 0 { s.skip(1) } else { s };
    let size = if v < 0 { -v } else { v };
    &&& v < 0 ==> s.len() > 0 && s[0] == '-'
    &&& figures(figs)
    &&& -(unit as int) <= 2 * (size - reads_as(figs) * unit) <= unit
}

/// A whole number of units is the nearest to what was to be written.
pub proof fn whole_units_are_the_nearest(v: int, unit: nat)
    requires
        unit > 0,
    ensures
        says_whole(whole_text(v, unit), v, unit),
{
    let size: nat = if v < 0 {
        (-v) as nat
    } else {
        v as nat
    };
    let figs = decimal(rounded(size, unit));
    rounding_goes_to_the_nearest(size, unit);
    a_number_reads_back(rounded(size, unit));
    if v < 0 {
        assert(whole_text(v, unit).skip(1) == figs);
        assert(whole_text(v, unit)[0] == '-');
    } else {
        assert(whole_text(v, unit) == figs);
    }
    assert(figures(figs));
}

/// A number in tenths is the nearest to what was to be written: a sign where it is
/// negative, the whole units, a point, and one figure of tenths.
pub proof fn tenths_are_the_nearest(v: int, tenth: nat)
    requires
        tenth > 0,
    ensures
        ({
            let s = tenths_text(v, tenth);
            let sign = if v < 0 { 1int } else { 0 };
            let size = if v < 0 { -v } else { v };
            let point = s.len() - 2;
            let tenths = 10 * reads_as(s.subrange(sign, point)) + reads_as(s.skip(point + 1));
            &&& v < 0 ==> s[0] == '-'
            &&& sign < point && s[point] == '.'
            &&& figures(s.subrange(sign, point)) && figures(s.skip(point + 1))
            &&& -(tenth as int) <= 2 * (size - tenths * tenth) <= tenth
        }),
{
    let size: nat = if v < 0 {
        (-v) as nat
    } else {
        v as nat
    };
    let t = rounded(size, tenth);
    rounding_goes_to_the_nearest(size, tenth);
    a_number_reads_back(t / 10);
    a_number_reads_back(t % 10);
    reveal_strlit(".");
    let s = tenths_text(v, tenth);
    let sign = if v < 0 {
        1int
    } else {
        0
    };
    let point = s.len() - 2;
    assert(s.subrange(sign, point) == decimal(t / 10));
    assert(s.skip(point + 1) == decimal(t % 10));
    assert(10 * (t / 10) + t % 10 == t);
}

/// A number in hundredths is the nearest to what was to be written, with two
/// figures behind the point.
pub proof fn hundredths_are_the_nearest(v: int, hundredth: nat)
    requires
        hundredth > 0,
    ensures
        ({
            let s = hundredths_text(v, hundredth);
            let sign = if v < 0 { 1int } else { 0 };
            let size = if v < 0 { -v } else { v };
            let point = s.len() - 3;
            let parts = 100 * reads_as(s.subrange(sign, point)) + reads_as(s.skip(point + 1));
            &&& v < 0 ==> s[0] == '-'
            &&& sign < point && s[point] == '.'
            &&& figures(s.subrange(sign, point)) && figures(s.skip(point + 1))
            &&& -(hundredth as int) <= 2 * (size - parts * hundredth) <= hundredth
        }),
{
    let size: nat = if v < 0 {
        (-v) as nat
    } else {
        v as nat
    };
    let h = rounded(size, hundredth);
    rounding_goes_to_the_nearest(size, hundredth);
    a_number_reads_back(h / 100);
    a_number_in_columns_reads_back(h % 100, 2);
    a_number_reads_back(h % 100);
    assert(padded(h % 100, 2).len() == 2) by {
        if h % 100 >= 10 {
            a_number_reads_back((h % 100) / 10);
            assert(decimal(h % 100).len() == 2);
        }
    }
    reveal_strlit(".");
    let s = hundredths_text(v, hundredth);
    let sign = if v < 0 {
        1int
    } else {
        0
    };
    let point = s.len() - 3;
    assert(s.subrange(sign, point) == decimal(h / 100));
    assert(s.skip(point + 1) == padded(h % 100, 2));
    assert(100 * (h / 100) + h % 100 == h);
}

proof fn an_end_is_trimmed(s: Seq<char>, p: spec_fn(char) -> bool)
    ensures
        trim_end(s, p).len() <= s.len(),
        trim_end(s, p) == s.take(trim_end(s, p).len() as int),
        forall|i: int| trim_end(s, p).len() <= i < s.len() ==> p(#[trigger] s[i]),
        trim_end(s, p).len() > 0 ==> !p(trim_end(s, p).last()),
    decreases s.len(),
{
    if s.len() > 0 && p(s.last()) {
        an_end_is_trimmed(s.drop_last(), p);
        let t = trim_end(s, p);
        assert(t == s.drop_last().take(t.len() as int));
        assert(s.drop_last().take(t.len() as int) == s.take(t.len() as int));
        assert forall|i: int| t.len() <= i < s.len() implies p(#[trigger] s[i]) by {
            if i < s.len() - 1 {
                assert(p(s.drop_last()[i]));
            }
        }
    } else {
        assert(s.take(s.len() as int) == s);
    }
}

/// Trimming takes the blanks off both ends and nothing else: what is left stands
/// in the text with blanks alone around it, and neither begins nor ends with one.
pub proof fn trimming_takes_blanks_off_the_ends(s: Seq<char>)
    ensures
        exists|from: int, to: int|
            #![trigger s.subrange(from, to)]
            0 <= from <= to <= s.len() && trim(s) == s.subrange(from, to) && (forall|i: int|
                0 <= i < from || to <= i < s.len() ==> white_space(#[trigger] s[i])),
        trim(s).len() > 0 ==> !white_space(trim(s)[0]) && !white_space(trim(s).last()),
{
    let solid = |c: char| !white_space(c);
    let blank = |c: char| white_space(c);
    find_from_is_first(s, 0, solid);
    let from = find_from(s, 0, solid);
    let rest = trim_start(s);
    an_end_is_trimmed(rest, blank);
    let to = from + trim(s).len();
    assert(trim(s) == s.subrange(from, to));
    assert forall|i: int| 0 <= i < from || to <= i < s.len() implies white_space(#[trigger] s[i]) by {
        if i < from {
            assert(!solid(s[i]));
        } else {
            assert(blank(rest[i - from]));
        }
    }
    if trim(s).len() > 0 {
        assert(trim(s)[0] == s[from]);
    }
}

} // verus!
