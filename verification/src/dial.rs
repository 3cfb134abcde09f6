//! The rig's dial: how it reads, and how a hand turns it.
//!
//! What the dial shows is what the rig reports, except while a hand is on it. A
//! step of the wheel or an arrow is a whole intent and goes out as it is made. A
//! typed number is not: entered a digit at a time it passes through other
//! frequencies on the way, so it waits for Enter.

use crate::modes::{MilliHz, Ticks};
use crate::text::{decimal, padded, push_decimal, push_padded, same_text, to_chars};
use vstd::prelude::*;

verus! {

/// A frequency on the band, in thousandths of a hertz.
pub type DialHz = i64;

/// How long after the last touch the rig's own reading takes over again.
pub const TUNING_SETTLES_S: Ticks = 18_000_000;

/// One wheel click, in thousandths of a scroll unit.
pub const SCROLL_NOTCH: i64 = 50_000;

/// Where a rig's filter sits in the audio: the convention for data operating.
pub const FILTER_CENTRE_HZ: DialHz = 1_500_000;

/// What a notch of the wheel is worth off the digits.
pub const SWEEP_HZ: DialHz = 100_000;

/// What to bound transmit power by when the rig has not said, in thousandths of
/// a watt. Not a claim about any radio.
pub const ANY_POWER_W: (i64, i64) = (0, 10_000_000);

/// What to bound the bandwidth by when the rig has not said, in thousandths of a
/// kilohertz.
pub const ANY_BANDWIDTH_KHZ: (i64, i64) = (1, 1_000_000);

/// How many steps a turn of the wheel is worth: to the nearest whole notch, and
/// less than a notch is one step in whichever direction it went.
pub open spec fn steps(scroll: int) -> int {
    if -SCROLL_NOTCH < scroll < SCROLL_NOTCH {
        if scroll < 0 {
            -1
        } else {
            1
        }
    } else if scroll < 0 {
        -((-scroll + SCROLL_NOTCH / 2) / SCROLL_NOTCH as int)
    } else {
        (scroll + SCROLL_NOTCH / 2) / SCROLL_NOTCH as int
    }
}

/// How many steps a turn of the wheel is worth.
///
/// The magnitude matters: with the sign alone a flick would move one step
/// however hard the wheel was spun.
pub fn notches(scroll: i64) -> (n: i64)
    ensures
        n == steps(scroll as int),
{
    if -SCROLL_NOTCH < scroll && scroll < SCROLL_NOTCH {
        if scroll < 0 {
            -1
        } else {
            1
        }
    } else if scroll < 0 {
        let turned: i128 = -(scroll as i128) + 25_000;
        -((turned / 50_000) as i64)
    } else {
        ((scroll as i128 + 25_000) / 50_000) as i64
    }
}

/// A frequency cut to what can be counted, with nothing below zero.
pub open spec fn countable(hz: int) -> DialHz {
    if hz < 0 {
        0
    } else if hz > i64::MAX {
        i64::MAX
    } else {
        hz as i64
    }
}

/// A frequency cut to what can be counted, with nothing below zero.
fn to_countable(hz: i128) -> (r: DialHz)
    ensures
        r == countable(hz as int),
{
    if hz < 0 {
        0
    } else if hz > i64::MAX as i128 {
        i64::MAX
    } else {
        hz as i64
    }
}

/// `value` with the digit in the `place` column set to `digit`.
pub open spec fn digit_set(value: int, place: int, digit: int) -> int {
    value - value / place % 10 * place + digit * place
}

/// `value` with the digit in the `place` column set to `digit`.
///
/// The column, not the number: every other digit stays where it was.
pub fn with_digit(value: DialHz, place: DialHz, digit: u32) -> (r: DialHz)
    requires
        place > 0,
        digit < 10,
    ensures
        r == countable(digit_set(if value < 0 { 0 } else { value as int }, place as int, digit as int)),
        r >= 0,
{
    let v: i128 = if value < 0 { 0 } else { value as i128 };
    let p: i128 = place as i128;
    let had: i128 = v / p % 10;
    assert(0 <= had * p <= 10 * p) by (nonlinear_arith)
        requires
            0 <= had < 10,
            p > 0,
    ;
    assert(0 <= digit * p <= 10 * p) by (nonlinear_arith)
        requires
            0 <= digit < 10,
            p > 0,
    ;
    to_countable(v - had * p + digit as i128 * p)
}

/// Setting a column sets that column and no other.
pub proof fn a_digit_stays_in_its_column(value: int, place: int, digit: int)
    requires
        value >= 0,
        place > 0,
        0 <= digit < 10,
    ensures
        digit_set(value, place, digit) / place % 10 == digit,
        digit_set(value, place, digit) % place == value % place,
        digit_set(value, place, digit) / (10 * place) == value / (10 * place),
        digit_set(value, place, digit) >= 0,
{
    let q = value / place;
    let low = value % place;
    let had = q % 10;
    let high = q / 10;
    vstd::arithmetic::div_mod::lemma_fundamental_div_mod(value, place);
    let r = digit_set(value, place, digit);
    let q2 = high * 10 + digit;
    assert(q == high * 10 + had);
    assert(r == q2 * place + low) by (nonlinear_arith)
        requires
            value == place * q + low,
            q == high * 10 + had,
            q2 == high * 10 + digit,
            r == value - had * place + digit * place,
    ;
    vstd::arithmetic::div_mod::lemma_fundamental_div_mod_converse(r, place, q2, low);
    assert(q2 % 10 == digit);
    assert(r >= 0) by (nonlinear_arith)
        requires
            r == q2 * place + low,
            q2 >= 0,
            place > 0,
            low >= 0,
    ;
    vstd::arithmetic::div_mod::lemma_div_denominator(r, place, 10);
    vstd::arithmetic::div_mod::lemma_div_denominator(value, place, 10);
    assert(place * 10 == 10 * place);
    assert(q2 / 10 == high);
}

/// The stretches of the audio that fall outside the rig's filter.
///
/// None when the width is unknown or the mode is not one where an audio
/// passband means anything: nothing is dimmed on a guess.
pub fn outside_the_filter(width_hz: Option<DialHz>, sideband: bool) -> (out: Vec<(DialHz, DialHz)>)
    ensures
        out@ == if sideband && width_hz is Some && width_hz->0 > 0 {
            seq![
                (i64::MIN, (FILTER_CENTRE_HZ - width_hz->0 / 2) as i64),
                (
                    (if FILTER_CENTRE_HZ + width_hz->0 / 2 > i64::MAX {
                        i64::MAX as int
                    } else {
                        FILTER_CENTRE_HZ + width_hz->0 / 2
                    }) as i64,
                    i64::MAX,
                ),
            ]
        } else {
            Seq::empty()
        },
        out@.len() == 2 && out@[1].0 < i64::MAX ==> {
            &&& out@[0].1 + out@[1].0 == 3_000_000
            &&& width_hz->0 - 1 <= out@[1].0 - out@[0].1 <= width_hz->0
        },
{
    let mut out: Vec<(DialHz, DialHz)> = Vec::new();
    if let Some(width) = width_hz {
        if width > 0 && sideband {
            let half: i64 = width / 2;
            let high: i64 = if half > i64::MAX - FILTER_CENTRE_HZ {
                i64::MAX
            } else {
                FILTER_CENTRE_HZ + half
            };
            out.push((i64::MIN, FILTER_CENTRE_HZ - half));
            out.push((high, i64::MAX));
        }
    }
    out
}

/// Whether audio above the dial is above it on the band, or below it; nothing
/// for a mode in which an offset is no displacement.
pub open spec fn sideband_sign(mode: Seq<char>) -> Option<int> {
    if mode == "USB"@ || mode == "PKTUSB"@ || mode == "DATA"@ {
        Some(1)
    } else if mode == "LSB"@ || mode == "PKTLSB"@ || mode == "DATA-REV"@ {
        Some(-1)
    } else {
        None
    }
}

/// Whether audio above the dial is above it on the band.
fn is_upper(mode: &str) -> (up: Option<bool>)
    ensures
        up == match sideband_sign(mode@) {
            Some(s) => Some(s == 1),
            None => None,
        },
{
    if same_text(mode, "USB") || same_text(mode, "PKTUSB") || same_text(mode, "DATA") {
        Some(true)
    } else if same_text(mode, "LSB") || same_text(mode, "PKTLSB") || same_text(mode, "DATA-REV") {
        Some(false)
    } else {
        None
    }
}

/// Where a signal actually is on the band: the dial, plus or minus the audio
/// offset it is heard at, by the sideband.
///
/// Nothing when the dial is unknown or the mode is not one in which that means
/// anything.
pub fn on_the_band(dial: Option<DialHz>, mode: Option<&str>, audio_hz: MilliHz) -> (hz: Option<DialHz>)
    requires
        dial is Some ==> i64::MIN <= dial->0 + audio_hz <= i64::MAX && i64::MIN <= dial->0 - audio_hz <= i64::MAX,
    ensures
        hz == match (dial, mode) {
            (Some(d), Some(m)) => match sideband_sign(m@) {
                Some(s) => Some((d + s * audio_hz) as i64),
                None => None,
            },
            _ => None,
        },
{
    match (dial, mode) {
        (Some(d), Some(m)) => match is_upper(m) {
            Some(true) => Some(d + audio_hz as i64),
            Some(false) => Some(d - audio_hz as i64),
            None => None,
        },
        _ => None,
    }
}

/// Whether the rig is in a mode where an audio passband means anything: the same
/// that make an audio offset a frequency.
pub fn rig_passband_mode(mode: Option<&str>) -> (r: bool)
    ensures
        r == (mode is Some && sideband_sign(mode->0@) is Some),
{
    match mode {
        Some(m) => is_upper(m).is_some(),
        None => false,
    }
}

/// A frequency in whole hertz, to the nearest, with nothing below zero.
pub open spec fn whole_hertz(hz: DialHz) -> nat {
    if hz < 0 {
        0
    } else {
        ((hz + 500) / 1000) as nat
    }
}

/// A frequency in whole hertz, to the nearest, with nothing below zero.
fn to_hertz(hz: DialHz) -> (n: u64)
    ensures
        n == whole_hertz(hz),
{
    if hz < 0 {
        0
    } else {
        (hz as u64 + 500) / 1000
    }
}

/// A frequency in the fixed places a dial has: three digits of megahertz, three
/// of kilohertz and three of hertz.
pub open spec fn dial_reading(hz: DialHz) -> Seq<char> {
    let n = whole_hertz(hz);
    padded(n / 1_000_000, 3) + "."@ + padded(n % 1_000_000 / 1000, 3) + "."@ + padded(n % 1000, 3)
}

/// A frequency in the fixed places a dial has.
///
/// Every decade keeps its column whatever the frequency, because on this dial a
/// digit is a control.
pub fn dial_digits(hz: DialHz) -> (s: String)
    ensures
        s@ == dial_reading(hz),
{
    let n: u64 = to_hertz(hz);
    let mut out = String::new();
    push_padded(&mut out, n / 1_000_000, 3);
    out.append(".");
    push_padded(&mut out, n % 1_000_000 / 1000, 3);
    out.append(".");
    push_padded(&mut out, n % 1000, 3);
    out
}

/// The columns of a dial are fixed up to a gigahertz.
pub proof fn decades_keep_their_places(hz: DialHz)
    requires
        hz < 999_999_999_500,
    ensures
        dial_reading(hz).len() == 11,
        dial_reading(hz)[3] == '.',
        dial_reading(hz)[7] == '.',
{
    reveal_strlit(".");
    let n = whole_hertz(hz);
    three_places(n / 1_000_000);
    three_places(n % 1_000_000 / 1000);
    three_places(n % 1000);
}

proof fn three_places(n: nat)
    requires
        n < 1000,
    ensures
        padded(n, 3).len() == 3,
{
    reveal_with_fuel(decimal, 4);
}

/// How many of the first characters of a reading are zeros.
pub open spec fn zeros_in_front(s: Seq<char>) -> nat
    decreases s.len(),
{
    if s.len() > 0 && s[0] == '0' {
        1 + zeros_in_front(s.drop_first())
    } else {
        0
    }
}

/// How many leading zeros of a dial reading are blanks rather than digits: two
/// at most, so that a dial never reads as empty.
pub fn leading_blanks(reading: &str) -> (n: usize)
    ensures
        n == if zeros_in_front(reading@) < 2 { zeros_in_front(reading@) } else { 2 },
{
    let chars = to_chars(reading);
    proof {
        reveal_with_fuel(zeros_in_front, 3);
    }
    if chars.len() > 0 && chars[0] == '0' {
        if chars.len() > 1 && chars[1] == '0' {
            assert(reading@.drop_first()[0] == '0');
            2
        } else {
            1
        }
    } else {
        0
    }
}

/// A frequency the way a rig shows it, in groups a reader can say out loud.
pub fn megahertz(hz: DialHz) -> (s: String)
    ensures
        s@ == decimal(whole_hertz(hz) / 1_000_000) + "."@ + padded(whole_hertz(hz) % 1_000_000 / 1000, 3) + "."@
            + padded(whole_hertz(hz) % 1000, 3),
{
    let n: u64 = to_hertz(hz);
    let mut out = String::new();
    push_decimal(&mut out, n / 1_000_000);
    out.append(".");
    push_padded(&mut out, n % 1_000_000 / 1000, 3);
    out.append(".");
    push_padded(&mut out, n % 1000, 3);
    out
}

/// The bounds of a setting: what the rig has said it will take, or else a guard
/// against a drag running away.
pub fn bounds(known: Option<(i64, i64)>, any: (i64, i64)) -> (b: (i64, i64))
    ensures
        b == match known {
            Some(k) => k,
            None => any,
        },
{
    match known {
        Some(k) => k,
        None => any,
    }
}

/// Why a setting has no slider.
pub open spec fn no_slider() -> Seq<char> {
    "\n\nThis rig does not report the range it will accept, so there is no track to drag. Type the figure, or drag the figure itself."@
}

/// A setting's tooltip, with a word about the missing slider when one is.
pub fn hint(about: &str, ranged: bool) -> (s: String)
    ensures
        s@ == if ranged { about@ } else { about@ + no_slider() },
{
    let mut out = about.to_owned();
    if !ranged {
        out.append("\n\nThis rig does not report the range it will accept, so there is no track to drag. Type the figure, or drag the figure itself.");
    }
    out
}

} // verus!
