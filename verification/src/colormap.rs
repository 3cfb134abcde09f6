//! A small perceptual colormap for waterfall magnitudes.
//!
//! A magnitude is a fraction, a numerator over a denominator, with zero the
//! empty band and one a saturated signal.

use vstd::prelude::*;

verus! {

/// Entries in the sampled colormap: enough that it is nowhere more than one
/// value away from the ramp.
pub const LEVELS: usize = 1024;

/// A leg of the ramp: where it starts and ends, in hundredths, and the value of
/// one channel there.
#[derive(Clone, Copy, Debug, PartialEq, Eq, Structural)]
pub struct Leg {
    pub t0: u32,
    pub t1: u32,
    pub c0: u8,
    pub c1: u8,
}

/// The leg of channel `ch` (red, green, blue) that a magnitude falls on.
pub open spec fn leg(num: int, den: int, ch: int) -> Leg {
    if 100 * num <= 15 * den {
        let (a, b) = if ch == 0 { (0u8, 40u8) } else if ch == 1 { (0u8, 11u8) } else { (4u8, 84u8) };
        Leg { t0: 0, t1: 15, c0: a, c1: b }
    } else if 100 * num <= 35 * den {
        let (a, b) = if ch == 0 { (40u8, 101u8) } else if ch == 1 { (11u8, 21u8) } else { (84u8, 110u8) };
        Leg { t0: 15, t1: 35, c0: a, c1: b }
    } else if 100 * num <= 50 * den {
        let (a, b) = if ch == 0 { (101u8, 159u8) } else if ch == 1 { (21u8, 42u8) } else { (110u8, 99u8) };
        Leg { t0: 35, t1: 50, c0: a, c1: b }
    } else if 100 * num <= 65 * den {
        let (a, b) = if ch == 0 { (159u8, 212u8) } else if ch == 1 { (42u8, 72u8) } else { (99u8, 66u8) };
        Leg { t0: 50, t1: 65, c0: a, c1: b }
    } else if 100 * num <= 80 * den {
        let (a, b) = if ch == 0 { (212u8, 245u8) } else if ch == 1 { (72u8, 125u8) } else { (66u8, 21u8) };
        Leg { t0: 65, t1: 80, c0: a, c1: b }
    } else if 100 * num <= 90 * den {
        let (a, b) = if ch == 0 { (245u8, 250u8) } else if ch == 1 { (125u8, 193u8) } else { (21u8, 39u8) };
        Leg { t0: 80, t1: 90, c0: a, c1: b }
    } else {
        let (a, b) = if ch == 0 { (250u8, 252u8) } else if ch == 1 { (193u8, 255u8) } else { (39u8, 164u8) };
        Leg { t0: 90, t1: 100, c0: a, c1: b }
    }
}

/// The height of a leg at a magnitude, over `60 * den`: the straight line from
/// one end of the leg to the other.
pub open spec fn height(l: Leg, num: int, den: int) -> int {
    60 * den * l.c0 + 60int / ((l.t1 - l.t0) as int) * (l.c1 - l.c0) * (100 * num - l.t0 * den)
}

/// A magnitude cut to what the ramp covers.
pub open spec fn clamped(num: int, den: int) -> int {
    if num > den {
        den
    } else {
        num
    }
}

/// The value of channel `ch` at a magnitude: the ramp, to the nearest whole
/// value.
pub open spec fn ramp(num: int, den: int, ch: int) -> int {
    let n = clamped(num, den);
    (2 * height(leg(n, den, ch), n, den) + 60 * den) / (120 * den)
}

/// The height of the ramp as a multiple of the denominator and one of the
/// numerator.
spec fn line(num: int, den: int, ch: int) -> (int, int) {
    if 100 * num <= 15 * den {
        if ch == 0 {
            (0, 16000)
        } else if ch == 1 {
            (0, 4400)
        } else {
            (240, 32000)
        }
    } else if 100 * num <= 35 * den {
        if ch == 0 {
            (-345, 18300)
        } else if ch == 1 {
            (210, 3000)
        } else {
            (3870, 7800)
        }
    } else if 100 * num <= 50 * den {
        if ch == 0 {
            (-2060, 23200)
        } else if ch == 1 {
            (-1680, 8400)
        } else {
            (8140, -4400)
        }
    } else if 100 * num <= 65 * den {
        if ch == 0 {
            (-1060, 21200)
        } else if ch == 1 {
            (-3480, 12000)
        } else {
            (12540, -13200)
        }
    } else if 100 * num <= 80 * den {
        if ch == 0 {
            (4140, 13200)
        } else if ch == 1 {
            (-9460, 21200)
        } else {
            (15660, -18000)
        }
    } else if 100 * num <= 90 * den {
        if ch == 0 {
            (12300, 3000)
        } else if ch == 1 {
            (-25140, 40800)
        } else {
            (-7380, 10800)
        }
    } else {
        if ch == 0 {
            (13920, 1200)
        } else if ch == 1 {
            (-21900, 37200)
        } else {
            (-65160, 75000)
        }
    }
}

/// The height of the ramp, leg by leg.
spec fn drawn(num: int, den: int, ch: int) -> int {
    if 100 * num <= 15 * den {
        if ch == 0 {
            0 + 16000 * num
        } else if ch == 1 {
            0 + 4400 * num
        } else {
            240 * den + 32000 * num
        }
    } else if 100 * num <= 35 * den {
        if ch == 0 {
            -345 * den + 18300 * num
        } else if ch == 1 {
            210 * den + 3000 * num
        } else {
            3870 * den + 7800 * num
        }
    } else if 100 * num <= 50 * den {
        if ch == 0 {
            -2060 * den + 23200 * num
        } else if ch == 1 {
            -1680 * den + 8400 * num
        } else {
            8140 * den - 4400 * num
        }
    } else if 100 * num <= 65 * den {
        if ch == 0 {
            -1060 * den + 21200 * num
        } else if ch == 1 {
            -3480 * den + 12000 * num
        } else {
            12540 * den - 13200 * num
        }
    } else if 100 * num <= 80 * den {
        if ch == 0 {
            4140 * den + 13200 * num
        } else if ch == 1 {
            -9460 * den + 21200 * num
        } else {
            15660 * den - 18000 * num
        }
    } else if 100 * num <= 90 * den {
        if ch == 0 {
            12300 * den + 3000 * num
        } else if ch == 1 {
            -25140 * den + 40800 * num
        } else {
            -7380 * den + 10800 * num
        }
    } else {
        if ch == 0 {
            13920 * den + 1200 * num
        } else if ch == 1 {
            -21900 * den + 37200 * num
        } else {
            -65160 * den + 75000 * num
        }
    }
}

/// A leg is a straight line: its height is so many denominators and so many
/// numerators.
proof fn leg_is_straight(l: Leg, w: int, rise: int, a: int, b: int, num: int, den: int)
    requires
        l.t1 - l.t0 > 0,
        w * (l.t1 - l.t0) == 60,
        rise == w * (l.c1 - l.c0),
        a == 60 * l.c0 - rise * l.t0,
        b == 100 * rise,
    ensures
        height(l, num, den) == a * den + b * num,
        60int / ((l.t1 - l.t0) as int) == w,
{
    vstd::arithmetic::div_mod::lemma_fundamental_div_mod_converse(60, l.t1 - l.t0, w, 0);
    assert(60 * den * l.c0 + rise * (100 * num - l.t0 * den) == a * den + b * num) by (nonlinear_arith)
        requires
            a == 60 * l.c0 - rise * l.t0,
            b == 100 * rise,
    ;
}

/// The ramp is made of straight lines, and lies between the darkest and the
/// brightest value.
proof fn ramp_is_straight(num: int, den: int, ch: int)
    requires
        0 <= num <= den,
        den > 0,
        0 <= ch < 3,
    ensures
        height(leg(num, den, ch), num, den) == line(num, den, ch).0 * den + line(num, den, ch).1 * num,
        height(leg(num, den, ch), num, den) == drawn(num, den, ch),
        0 <= height(leg(num, den, ch), num, den) <= 60 * den * 255,
{
    if 100 * num <= 15 * den {
        leg_is_straight(Leg { t0: 0, t1: 15, c0: 0, c1: 40 }, 4, 160, 0, 16000, num, den);
        leg_is_straight(Leg { t0: 0, t1: 15, c0: 0, c1: 11 }, 4, 44, 0, 4400, num, den);
        leg_is_straight(Leg { t0: 0, t1: 15, c0: 4, c1: 84 }, 4, 320, 240, 32000, num, den);
    } else if 100 * num <= 35 * den {
        leg_is_straight(Leg { t0: 15, t1: 35, c0: 40, c1: 101 }, 3, 183, -345, 18300, num, den);
        leg_is_straight(Leg { t0: 15, t1: 35, c0: 11, c1: 21 }, 3, 30, 210, 3000, num, den);
        leg_is_straight(Leg { t0: 15, t1: 35, c0: 84, c1: 110 }, 3, 78, 3870, 7800, num, den);
    } else if 100 * num <= 50 * den {
        leg_is_straight(Leg { t0: 35, t1: 50, c0: 101, c1: 159 }, 4, 232, -2060, 23200, num, den);
        leg_is_straight(Leg { t0: 35, t1: 50, c0: 21, c1: 42 }, 4, 84, -1680, 8400, num, den);
        leg_is_straight(Leg { t0: 35, t1: 50, c0: 110, c1: 99 }, 4, -44, 8140, -4400, num, den);
    } else if 100 * num <= 65 * den {
        leg_is_straight(Leg { t0: 50, t1: 65, c0: 159, c1: 212 }, 4, 212, -1060, 21200, num, den);
        leg_is_straight(Leg { t0: 50, t1: 65, c0: 42, c1: 72 }, 4, 120, -3480, 12000, num, den);
        leg_is_straight(Leg { t0: 50, t1: 65, c0: 99, c1: 66 }, 4, -132, 12540, -13200, num, den);
    } else if 100 * num <= 80 * den {
        leg_is_straight(Leg { t0: 65, t1: 80, c0: 212, c1: 245 }, 4, 132, 4140, 13200, num, den);
        leg_is_straight(Leg { t0: 65, t1: 80, c0: 72, c1: 125 }, 4, 212, -9460, 21200, num, den);
        leg_is_straight(Leg { t0: 65, t1: 80, c0: 66, c1: 21 }, 4, -180, 15660, -18000, num, den);
    } else if 100 * num <= 90 * den {
        leg_is_straight(Leg { t0: 80, t1: 90, c0: 245, c1: 250 }, 6, 30, 12300, 3000, num, den);
        leg_is_straight(Leg { t0: 80, t1: 90, c0: 125, c1: 193 }, 6, 408, -25140, 40800, num, den);
        leg_is_straight(Leg { t0: 80, t1: 90, c0: 21, c1: 39 }, 6, 108, -7380, 10800, num, den);
    } else {
        leg_is_straight(Leg { t0: 90, t1: 100, c0: 250, c1: 252 }, 6, 12, 13920, 1200, num, den);
        leg_is_straight(Leg { t0: 90, t1: 100, c0: 193, c1: 255 }, 6, 372, -21900, 37200, num, den);
        leg_is_straight(Leg { t0: 90, t1: 100, c0: 39, c1: 164 }, 6, 750, -65160, 75000, num, den);
    }
    let (a, b) = line(num, den, ch);
    assert(height(leg(num, den, ch), num, den) == a * den + b * num);
}

/// The ramp is nowhere steeper than its last leg is in blue.
proof fn ramp_is_gentle(x: int, y: int, den: int, ch: int)
    requires
        0 <= x <= y <= den,
        den > 0,
        0 <= ch < 3,
    ensures
        -75000 * (y - x) <= height(leg(y, den, ch), y, den) - height(leg(x, den, ch), x, den) <= 75000 * (y - x),
{
    ramp_is_straight(x, den, ch);
    ramp_is_straight(y, den, ch);
}

/// A magnitude falls on the same leg over a larger denominator.
proof fn same_side(num: int, den: int, k: int, t: int)
    requires
        k > 0,
    ensures
        100 * num <= t * den <==> 100 * (num * k) <= t * (den * k),
{
    assert(100 * num <= t * den <==> 100 * (num * k) <= t * (den * k)) by (nonlinear_arith)
        requires
            k > 0,
    ;
}

/// A magnitude means the same over a larger denominator.
proof fn scaling_changes_nothing(num: int, den: int, k: int, ch: int)
    requires
        0 <= num <= den,
        den > 0,
        k > 0,
        0 <= ch < 3,
    ensures
        ramp(num * k, den * k, ch) == ramp(num, den, ch),
{
    let x = num * k;
    let d = den * k;
    assert(0 <= x <= d && d > 0) by (nonlinear_arith)
        requires
            0 <= num <= den,
            den > 0,
            k > 0,
            x == num * k,
            d == den * k,
    ;
    ramp_is_straight(num, den, ch);
    ramp_is_straight(x, d, ch);
    same_side(num, den, k, 15);
    same_side(num, den, k, 35);
    same_side(num, den, k, 50);
    same_side(num, den, k, 65);
    same_side(num, den, k, 80);
    same_side(num, den, k, 90);
    let (a, b) = line(num, den, ch);
    assert(line(x, d, ch) == (a, b));
    let h = height(leg(num, den, ch), num, den);
    let hk = height(leg(x, d, ch), x, d);
    assert(hk == k * h) by (nonlinear_arith)
        requires
            h == a * den + b * num,
            hk == a * d + b * x,
            x == num * k,
            d == den * k,
    ;
    assert(2 * hk + 60 * d == k * (2 * h + 60 * den)) by (nonlinear_arith)
        requires
            hk == k * h,
            d == den * k,
    ;
    assert(120 * d == k * (120 * den)) by (nonlinear_arith)
        requires
            d == den * k,
    ;
    vstd::arithmetic::div_mod::lemma_div_multiples_vanish_quotient(k, 2 * h + 60 * den, 120 * den);
}

/// The entry of the table that stands for a magnitude: the nearest.
pub open spec fn entry(num: int, den: int) -> int {
    (2 * 1023 * clamped(num, den) + den) / (2 * den)
}

/// The table is the ramp, to within one value.
pub proof fn the_table_matches_the_ramp(num: int, den: int, ch: int)
    requires
        0 <= num,
        den > 0,
        0 <= ch < 3,
    ensures
        0 <= entry(num, den) < LEVELS,
        -1 <= ramp(num, den, ch) - ramp(entry(num, den), 1023, ch) <= 1,
{
    let n = clamped(num, den);
    let e = entry(num, den);
    vstd::arithmetic::div_mod::lemma_fundamental_div_mod(2046 * n + den, 2 * den);
    let r = (2046 * n + den) % (2 * den);
    assert(2046 * n + den == 2 * den * e + r);
    assert(0 <= r < 2 * den);
    assert(0 <= e <= 1023) by (nonlinear_arith)
        requires
            2046 * n + den == 2 * den * e + r,
            0 <= r < 2 * den,
            0 <= n <= den,
            den > 0,
    ;
    let x = n * 1023;
    let y = e * den;
    let d = 1023 * den;
    assert(y == e * den);
    assert(2 * den * e == 2 * y) by (nonlinear_arith)
        requires
            y == e * den,
    ;
    assert(-den <= 2 * (x - y) <= den);
    assert(0 <= y <= d) by (nonlinear_arith)
        requires
            0 <= e <= 1023,
            y == e * den,
            d == 1023 * den,
            den > 0,
    ;
    scaling_changes_nothing(n, den, 1023, ch);
    scaling_changes_nothing(e, 1023, den, ch);
    if x <= y {
        ramp_is_gentle(x, y, d, ch);
    } else {
        ramp_is_gentle(y, x, d, ch);
    }
    let hx = height(leg(x, d, ch), x, d);
    let hy = height(leg(y, d, ch), y, d);
    assert(-60 * d < hx - hy < 60 * d);
    close_values_round_close(hx, hy, d);
}

/// Values less than one apart are no more than one apart once they are rounded.
proof fn close_values_round_close(a: int, b: int, d: int)
    requires
        d > 0,
        -60 * d < a - b < 60 * d,
    ensures
        -1 <= (2 * a + 60 * d) / (120 * d) - (2 * b + 60 * d) / (120 * d) <= 1,
{
    let m = 120 * d;
    let p = (2 * a + 60 * d) / m;
    let q = (2 * b + 60 * d) / m;
    vstd::arithmetic::div_mod::lemma_fundamental_div_mod(2 * a + 60 * d, m);
    vstd::arithmetic::div_mod::lemma_fundamental_div_mod(2 * b + 60 * d, m);
    let rp = (2 * a + 60 * d) % m;
    let rq = (2 * b + 60 * d) % m;
    assert(-1 <= p - q <= 1) by (nonlinear_arith)
        requires
            2 * a + 60 * d == m * p + rp,
            2 * b + 60 * d == m * q + rq,
            0 <= rp < m,
            0 <= rq < m,
            -60 * d < a - b < 60 * d,
            m == 120 * d,
            d > 0,
    ;
}

/// Both ends of the ramp are exact: an empty band and a saturated signal.
pub proof fn the_ends_are_exact(den: int)
    requires
        den > 0,
    ensures
        ramp(0, den, 0) == 0 && ramp(0, den, 1) == 0 && ramp(0, den, 2) == 4,
        ramp(den, den, 0) == 252 && ramp(den, den, 1) == 255 && ramp(den, den, 2) == 164,
{
    end_of_ramp(0, den, 0, 0);
    end_of_ramp(0, den, 1, 0);
    end_of_ramp(0, den, 2, 4);
    end_of_ramp(den, den, 0, 252);
    end_of_ramp(den, den, 1, 255);
    end_of_ramp(den, den, 2, 164);
}

proof fn end_of_ramp(num: int, den: int, ch: int, c: int)
    requires
        den > 0,
        0 <= ch < 3,
        num == 0 && c == (if ch == 0 { 0int } else if ch == 1 { 0 } else { 4 }) || num == den && c == (if ch == 0 {
            252int
        } else if ch == 1 {
            255
        } else {
            164
        }),
    ensures
        ramp(num, den, ch) == c,
{
    ramp_is_straight(num, den, ch);
    let h = height(leg(num, den, ch), num, den);
    let m = 120 * den;
    assert(60 * den * c == 60 * c * den) by (nonlinear_arith);
    assert(2 * h + 60 * den == c * m + 60 * den) by (nonlinear_arith)
        requires
            h == 60 * den * c,
            m == 120 * den,
    ;
    vstd::arithmetic::div_mod::lemma_fundamental_div_mod_converse(2 * h + 60 * den, m, c, 60 * den);
}

/// The leg of channel `ch` that a magnitude falls on.
fn leg_at(num: u64, den: u64, ch: usize) -> (l: Leg)
    requires
        num <= den,
        0 < den <= 0xffff_ffff,
        ch < 3,
    ensures
        l == leg(num as int, den as int, ch as int),
{
    let n: u64 = 100 * num;
    if n <= 15 * den {
        let (a, b): (u8, u8) = if ch == 0 { (0, 40) } else if ch == 1 { (0, 11) } else { (4, 84) };
        Leg { t0: 0, t1: 15, c0: a, c1: b }
    } else if n <= 35 * den {
        let (a, b): (u8, u8) = if ch == 0 { (40, 101) } else if ch == 1 { (11, 21) } else { (84, 110) };
        Leg { t0: 15, t1: 35, c0: a, c1: b }
    } else if n <= 50 * den {
        let (a, b): (u8, u8) = if ch == 0 { (101, 159) } else if ch == 1 { (21, 42) } else { (110, 99) };
        Leg { t0: 35, t1: 50, c0: a, c1: b }
    } else if n <= 65 * den {
        let (a, b): (u8, u8) = if ch == 0 { (159, 212) } else if ch == 1 { (42, 72) } else { (99, 66) };
        Leg { t0: 50, t1: 65, c0: a, c1: b }
    } else if n <= 80 * den {
        let (a, b): (u8, u8) = if ch == 0 { (212, 245) } else if ch == 1 { (72, 125) } else { (66, 21) };
        Leg { t0: 65, t1: 80, c0: a, c1: b }
    } else if n <= 90 * den {
        let (a, b): (u8, u8) = if ch == 0 { (245, 250) } else if ch == 1 { (125, 193) } else { (21, 39) };
        Leg { t0: 80, t1: 90, c0: a, c1: b }
    } else {
        let (a, b): (u8, u8) = if ch == 0 { (250, 252) } else if ch == 1 { (193, 255) } else { (39, 164) };
        Leg { t0: 90, t1: 100, c0: a, c1: b }
    }
}

/// The value of a leg at a magnitude, to the nearest whole value.
fn lerp(l: Leg, num: u64, den: u64, ch: usize) -> (v: u8)
    requires
        num <= den,
        0 < den <= 0xffff_ffff,
        ch < 3,
        l == leg(num as int, den as int, ch as int),
    ensures
        v == ramp(num as int, den as int, ch as int),
{
    proof {
        ramp_is_straight(num as int, den as int, ch as int);
    }
    let ghost h = height(l, num as int, den as int);
    let len: u32 = l.t1 - l.t0;
    let w: i64 = if len == 15 { 4 } else if len == 20 { 3 } else { 6 };
    assert(60int / 15 == 4 && 60int / 20 == 3 && 60int / 10 == 6);
    let rise: i64 = l.c1 as i64 - l.c0 as i64;
    assert(-1530 <= w * rise <= 1530) by (nonlinear_arith)
        requires
            3 <= w <= 6,
            -255 <= rise <= 255,
    ;
    let k: i64 = w * rise;
    let d: i64 = den as i64;
    let from: i64 = 100 * num as i64 - l.t0 as i64 * d;
    assert(-153_000 * d <= k * from <= 153_000 * d) by (nonlinear_arith)
        requires
            -1530 <= k <= 1530,
            0 <= from <= 100 * d,
    ;
    assert(0 <= 60 * d * l.c0 <= 15300 * d) by (nonlinear_arith)
        requires
            0 <= l.c0 <= 255,
            d > 0,
    ;
    let high: i64 = 60 * d * l.c0 as i64 + k * from;
    assert(high == h);
    let v: i64 = (2 * high + 60 * d) / (120 * d);
    assert(0 <= v <= 255) by (nonlinear_arith)
        requires
            v == (2 * h + 60 * d) / (120 * d),
            0 <= h <= 60 * d * 255,
            d > 0,
    ;
    v as u8
}

/// The color of a magnitude.
pub fn magma(num: u32, den: u32) -> (c: [u8; 3])
    requires
        den > 0,
    ensures
        c[0] == ramp(num as int, den as int, 0),
        c[1] == ramp(num as int, den as int, 1),
        c[2] == ramp(num as int, den as int, 2),
{
    let d: u64 = den as u64;
    let n: u64 = if num > den { d } else { num as u64 };
    [lerp(leg_at(n, d, 0), n, d, 0), lerp(leg_at(n, d, 1), n, d, 1), lerp(leg_at(n, d, 2), n, d, 2)]
}

/// The colormap sampled at [`LEVELS`] points.
pub fn lut() -> (t: Vec<[u8; 3]>)
    ensures
        t@.len() == LEVELS,
        forall|i: int|
            0 <= i < LEVELS ==> {
                &&& (#[trigger] t@[i])[0] == ramp(i, 1023, 0)
                &&& t@[i][1] == ramp(i, 1023, 1)
                &&& t@[i][2] == ramp(i, 1023, 2)
            },
{
    let mut t: Vec<[u8; 3]> = Vec::new();
    let mut i: u32 = 0;
    while i < 1024
        invariant
            0 <= i <= 1024,
            t@.len() == i,
            forall|j: int|
                0 <= j < i ==> {
                    &&& (#[trigger] t@[j])[0] == ramp(j, 1023, 0)
                    &&& t@[j][1] == ramp(j, 1023, 1)
                    &&& t@[j][2] == ramp(j, 1023, 2)
                },
        decreases 1024 - i,
    {
        t.push(magma(i, 1023));
        i += 1;
    }
    t
}

/// What a channel is worth at a magnitude of `t` hundredths, where the ramp is given.
pub open spec fn knot(t: int, ch: int) -> Option<int> {
    let (r, g, b) = if t == 0 {
        (0int, 0int, 4int)
    } else if t == 15 {
        (40, 11, 84)
    } else if t == 35 {
        (101, 21, 110)
    } else if t == 50 {
        (159, 42, 99)
    } else if t == 65 {
        (212, 72, 66)
    } else if t == 80 {
        (245, 125, 21)
    } else if t == 90 {
        (250, 193, 39)
    } else if t == 100 {
        (252, 255, 164)
    } else {
        (-1, -1, -1)
    };
    let c = if ch == 0 { r } else if ch == 1 { g } else { b };
    if c < 0 {
        None
    } else {
        Some(c)
    }
}

proof fn sides_of_a_mark(t: int, mark: int, den: int)
    requires
        den > 0,
    ensures
        t * den <= mark * den <==> t <= mark,
{
    assert(t * den <= mark * den <==> t <= mark) by (nonlinear_arith)
        requires
            den > 0,
    ;
}

/// The ramp goes through the colours it is given by, over whatever denominator.
pub proof fn the_ramp_goes_through_its_colours(num: int, den: int, t: int, ch: int)
    requires
        0 <= num <= den,
        den > 0,
        0 <= ch < 3,
        100 * num == t * den,
        knot(t, ch) is Some,
    ensures
        ramp(num, den, ch) == knot(t, ch)->0,
{
    ramp_is_straight(num, den, ch);
    let h = height(leg(num, den, ch), num, den);
    let c = knot(t, ch)->0;
    let m = 120 * den;
    let l = leg(num, den, ch);
    sides_of_a_mark(t, 15, den);
    sides_of_a_mark(t, 35, den);
    sides_of_a_mark(t, 50, den);
    sides_of_a_mark(t, 65, den);
    sides_of_a_mark(t, 80, den);
    sides_of_a_mark(t, 90, den);
    if t == 0 {
        assert(l.t0 == t && l.c0 == c);
        assert(h == 60 * den * c) by (nonlinear_arith)
            requires
                h == 60 * den * l.c0 + 60int / ((l.t1 - l.t0) as int) * (l.c1 - l.c0) * (100 * num - l.t0 * den),
                100 * num - l.t0 * den == 0,
                l.c0 == c,
        ;
    } else {
        assert(l.t1 == t && l.c1 == c);
        let w = 60int / ((l.t1 - l.t0) as int);
        let wide = (l.t1 - l.t0) as int;
        assert(wide == 10 || wide == 15 || wide == 20);
        assert(60int / wide * wide == 60) by (nonlinear_arith)
            requires
                wide == 10 || wide == 15 || wide == 20,
        ;
        assert(w * (l.t1 - l.t0) == 60);
        assert(h == 60 * den * c) by (nonlinear_arith)
            requires
                h == 60 * den * l.c0 + w * (l.c1 - l.c0) * (100 * num - l.t0 * den),
                100 * num == l.t1 * den,
                w * (l.t1 - l.t0) == 60,
                l.c1 == c,
        ;
    }
    assert(2 * h + 60 * den == c * m + 60 * den) by (nonlinear_arith)
        requires
            h == 60 * den * c,
            m == 120 * den,
    ;
    vstd::arithmetic::div_mod::lemma_fundamental_div_mod_converse(2 * h + 60 * den, m, c, 60 * den);
}

/// A stronger signal is never drawn with less red or less green: of two magnitudes
/// the larger has no less of either.
pub proof fn stronger_is_never_darker(x: int, y: int, den: int, ch: int)
    requires
        0 <= x <= y <= den,
        den > 0,
        0 <= ch < 2,
    ensures
        ramp(x, den, ch) <= ramp(y, den, ch),
{
    ramp_is_straight(x, den, ch);
    ramp_is_straight(y, den, ch);
    assert(drawn(x, den, ch) <= drawn(y, den, ch));
    vstd::arithmetic::div_mod::lemma_div_is_ordered(
        2 * height(leg(x, den, ch), x, den) + 60 * den,
        2 * height(leg(y, den, ch), y, den) + 60 * den,
        120 * den,
    );
}

/// Anything stronger than a saturated signal is drawn as one.
pub proof fn saturated_is_saturated(num: int, den: int, ch: int)
    requires
        num >= den > 0,
        0 <= ch < 3,
    ensures
        ramp(num, den, ch) == ramp(den, den, ch),
        entry(num, den) == 1023,
{
    assert((2 * 1023 * den + den) / (2 * den) == 1023) by (nonlinear_arith)
        requires
            den > 0,
    ;
}

} // verus!
