//! What holds of the dial: how far a turn of the wheel goes, where a signal is on
//! the band, and that the reading is the frequency.

use crate::dial::{countable, dial_reading, digit_set, sideband_sign, steps, whole_hertz, zeros_in_front, DialHz};
use crate::text::padded;
use crate::text_laws::{a_number_in_columns_reads_back, figures, reads_as};
use vstd::prelude::*;

verus! {

/// A turn of the wheel is worth as many steps as there are notches in it, to the
/// nearest, but never none, and goes the way the wheel went.
pub proof fn a_turn_is_worth_its_notches(scroll: int)
    ensures
        steps(scroll) != 0,
        scroll >= 0 ==> steps(scroll) > 0,
        scroll < 0 ==> steps(scroll) < 0,
        scroll >= 50_000 || scroll <= -50_000 ==> -25_000 <= 50_000 * steps(scroll) - scroll <= 25_000,
        -50_000 < scroll < 50_000 ==> -1 <= steps(scroll) <= 1,
{
}

/// A turn one way undoes the same turn the other way.
pub proof fn turns_are_even_handed(scroll: int)
    requires
        scroll != 0,
    ensures
        steps(-scroll) == -steps(scroll),
{
}

/// Turning further never goes less far.
pub proof fn a_longer_turn_goes_no_less_far(a: int, b: int)
    requires
        0 <= a <= b,
    ensures
        steps(a) <= steps(b),
{
}

/// The sidebands by their names: in three modes audio adds to the dial, in three it
/// takes away from it, and in every other it says nothing of where a signal is.
pub proof fn sidebands_by_name(mode: Seq<char>)
    ensures
        sideband_sign(mode) == Some(1int) <==> {
            ||| mode == seq!['U', 'S', 'B']
            ||| mode == seq!['P', 'K', 'T', 'U', 'S', 'B']
            ||| mode == seq!['D', 'A', 'T', 'A']
        },
        sideband_sign(mode) == Some(-1int) <==> {
            ||| mode == seq!['L', 'S', 'B']
            ||| mode == seq!['P', 'K', 'T', 'L', 'S', 'B']
            ||| mode == seq!['D', 'A', 'T', 'A', '-', 'R', 'E', 'V']
        },
        sideband_sign(mode) is None || sideband_sign(mode) == Some(1int) || sideband_sign(mode) == Some(-1int),
{
    reveal_strlit("USB");
    reveal_strlit("PKTUSB");
    reveal_strlit("DATA");
    reveal_strlit("LSB");
    reveal_strlit("PKTLSB");
    reveal_strlit("DATA-REV");
    assert("USB"@ == seq!['U', 'S', 'B']);
    assert("PKTUSB"@ == seq!['P', 'K', 'T', 'U', 'S', 'B']);
    assert("DATA"@ == seq!['D', 'A', 'T', 'A']);
    assert("LSB"@ == seq!['L', 'S', 'B']);
    assert("PKTLSB"@ == seq!['P', 'K', 'T', 'L', 'S', 'B']);
    assert("DATA-REV"@ == seq!['D', 'A', 'T', 'A', '-', 'R', 'E', 'V']);
    assert("LSB"@[0] == 'L' && "PKTLSB"@[3] == 'L' && "USB"@[0] == 'U' && "PKTUSB"@[3] == 'U');
}

/// A frequency in whole hertz is the nearest to it, or none where it is below zero.
pub proof fn whole_hertz_are_the_nearest(hz: DialHz)
    ensures
        hz >= 0 ==> -500 < 1_000 * whole_hertz(hz) - hz <= 500,
        hz < 0 ==> whole_hertz(hz) == 0,
{
}

/// What can be counted stays as it is, and what cannot goes to the nearest that
/// can.
pub proof fn what_can_be_counted_is(hz: int)
    ensures
        0 <= hz <= i64::MAX ==> countable(hz) == hz,
        hz < 0 ==> countable(hz) == 0,
        hz > i64::MAX ==> countable(hz) == i64::MAX,
{
}

/// A dial reads as the frequency it stands at: its three groups of figures are the
/// megahertz, the kilohertz and the hertz of it.
pub proof fn a_dial_reads_as_its_frequency(hz: DialHz)
    requires
        0 <= hz < 999_999_999_500,
    ensures
        ({
            let s = dial_reading(hz);
            let n = 1_000_000 * reads_as(s.take(3)) + 1_000 * reads_as(s.subrange(4, 7)) + reads_as(s.skip(8));
            &&& s.len() == 11 && s[3] == '.' && s[7] == '.'
            &&& figures(s.take(3)) && figures(s.subrange(4, 7)) && figures(s.skip(8))
            &&& -500 < 1_000 * n - hz <= 500
        }),
{
    crate::dial::decades_keep_their_places(hz);
    let n = whole_hertz(hz);
    reveal_strlit(".");
    a_number_in_columns_reads_back(n / 1_000_000, 3);
    a_number_in_columns_reads_back(n % 1_000_000 / 1000, 3);
    a_number_in_columns_reads_back(n % 1000, 3);
    let (a, b, c) = (padded(n / 1_000_000, 3), padded(n % 1_000_000 / 1000, 3), padded(n % 1000, 3));
    let s = dial_reading(hz);
    assert(s == a + "."@ + b + "."@ + c);
    assert(a.len() + b.len() + c.len() == 9);
    assert(s.take(3) == a);
    assert(s.subrange(4, 7) == b);
    assert(s.skip(8) == c);
}

/// The zeros in front of a reading are all of the zeros there, up to the first
/// character that is none.
pub proof fn zeros_in_front_are_all_of_them(s: Seq<char>)
    ensures
        zeros_in_front(s) <= s.len(),
        forall|i: int| 0 <= i < zeros_in_front(s) ==> #[trigger] s[i] == '0',
        zeros_in_front(s) < s.len() ==> s[zeros_in_front(s) as int] != '0',
    decreases s.len(),
{
    if s.len() > 0 && s[0] == '0' {
        let rest = s.drop_first();
        zeros_in_front_are_all_of_them(rest);
        assert forall|i: int| 0 <= i < zeros_in_front(s) implies #[trigger] s[i] == '0' by {
            if i > 0 {
                assert(rest[i - 1] == '0');
            }
        }
    }
}

/// Setting a column to the figure it has changes nothing, and to one more moves the
/// frequency by what the column is worth.
pub proof fn a_column_is_worth_its_place(value: int, place: int, digit: int)
    requires
        value >= 0,
        place > 0,
        0 <= digit < 9,
    ensures
        digit_set(value, place, value / place % 10) == value,
        digit_set(value, place, digit + 1) - digit_set(value, place, digit) == place,
{
    assert((digit + 1) * place == digit * place + place) by (nonlinear_arith);
}

} // verus!
