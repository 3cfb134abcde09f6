//! What holds of the waterfall's picture: it is only ever kept or moved where a
//! fresh one would be the same, and every column comes into it once.

use crate::modes::MilliHz;
use crate::waterfall::{complete_cols, norm_moved, pooled, sixteenths, Key, Norm, Picture, Redraw};
use vstd::arithmetic::div_mod::lemma_fundamental_div_mod;
use vstd::prelude::*;

verus! {

/// A pixel pools as many columns as its share of the span comes to, to the nearest,
/// but never none.
pub proof fn a_pixel_pools_its_share(span_cols: nat, px_w: nat)
    requires
        px_w > 0,
    ensures
        pooled(span_cols, px_w) >= 1,
        2 * span_cols >= px_w ==> -(px_w as int) <= 2 * (pooled(span_cols, px_w) * px_w - span_cols) <= px_w,
        2 * span_cols < px_w ==> pooled(span_cols, px_w) == 1,
{
    let w = px_w as int;
    let n = (2 * span_cols + w) / (2 * w);
    lemma_fundamental_div_mod(2 * span_cols + w, 2 * w);
    assert((2 * w) * n == 2 * (n * w)) by (nonlinear_arith);
    let r = (2 * span_cols + w) % (2 * w);
    assert(0 <= r < 2 * w);
    assert(2 * (n * w) + r == 2 * span_cols + w);
    assert(n >= 0) by {
        if n < 0 {
            assert(n * w < 0) by (nonlinear_arith)
                requires
                    n < 0,
                    w > 0,
            ;
        }
    }
    if n == 0 {
        assert(n * w == 0) by (nonlinear_arith)
            requires
                n == 0,
        ;
    }
    if 2 * span_cols < px_w && n >= 1 {
        assert(n * w >= w) by (nonlinear_arith)
            requires
                n >= 1,
                w > 0,
        ;
    }
}

/// Frequencies are told apart by the sixteenth of a hertz, counted towards zero from
/// either side.
pub proof fn sixteenths_count_towards_zero(hz: MilliHz)
    ensures
        hz >= 0 ==> 1_000 * sixteenths(hz) <= 16 * hz < 1_000 * (sixteenths(hz) + 1),
        hz <= 0 ==> 1_000 * (sixteenths(hz) - 1) < 16 * hz <= 1_000 * sixteenths(hz),
{
}

/// A picture that is on the right scale stays: contrast that has not moved has not,
/// and one that moved by more than a fiftieth of its range at either end has.
pub proof fn contrast_moves_by_a_fiftieth(was: Norm, now: Norm)
    requires
        was.lo <= was.hi,
    ensures
        !norm_moved(was, was),
        50 * (now.lo - was.lo) > was.hi - was.lo ==> norm_moved(was, now),
        50 * (was.lo - now.lo) > was.hi - was.lo ==> norm_moved(was, now),
        50 * (now.hi - was.hi) > was.hi - was.lo ==> norm_moved(was, now),
        50 * (was.hi - now.hi) > was.hi - was.lo ==> norm_moved(was, now),
        norm_moved(was, now) ==> {
            ||| 50 * (now.lo - was.lo) > was.hi - was.lo
            ||| 50 * (was.lo - now.lo) > was.hi - was.lo
            ||| 50 * (now.hi - was.hi) > was.hi - was.lo
            ||| 50 * (was.hi - now.hi) > was.hi - was.lo
        },
{
}

/// Whatever a pixel depends on, a change of it draws the picture afresh; so does a
/// contrast that has moved, and a picture that is not there.
pub proof fn a_change_draws_afresh(p: Picture, key: Key, norm: Norm, col: i64)
    requires
        !p.drawn || p.key != key || norm_moved(p.norm, norm),
    ensures
        p.needs(key, norm, col) == Redraw::Render,
{
}

/// A picture is moved by as many pixels as came in columns, whole ones, and only
/// where some of what it shows stays in it.
pub proof fn a_scroll_is_by_what_came(p: Picture, key: Key, norm: Norm, col: i64)
    requires
        key.per_px > 0,
        i64::MIN < col - p.col < i64::MAX,
    ensures
        p.needs(key, norm, col) matches Redraw::Scroll(n) ==> {
            &&& p.drawn && p.key == key && !norm_moved(p.norm, norm)
            &&& n * key.per_px == col - p.col
            &&& 0 < n < key.tex_w
        },
{
    if let Redraw::Scroll(n) = p.needs(key, norm, col) {
        let d = key.per_px as int;
        let a = col - p.col;
        lemma_fundamental_div_mod(a, d);
        let q = a / d;
        assert(a == d * q);
        assert(q * d == d * q) by (nonlinear_arith);
        assert(q > 0) by {
            if q <= 0 {
                assert(d * q <= 0) by (nonlinear_arith)
                    requires
                        q <= 0,
                        d > 0,
                ;
            }
        }
        assert(n == q);
    }
}

/// A picture is kept just where nothing it depends on has changed and what came is
/// no whole number of pixels, or nothing.
pub proof fn a_picture_is_kept_short_of_a_pixel(p: Picture, key: Key, norm: Norm, col: i64)
    requires
        key.per_px > 0,
        i64::MIN < col - p.col < i64::MAX,
    ensures
        p.needs(key, norm, col) == Redraw::Keep <==> {
            &&& p.drawn && p.key == key && !norm_moved(p.norm, norm)
            &&& col == p.col || (col - p.col) % key.per_px as int != 0
        },
{
}

/// A picture that goes back in time is drawn afresh, and so is one of which nothing
/// stays in sight.
pub proof fn a_jump_draws_afresh(p: Picture, key: Key, norm: Norm, col: i64, n: int)
    requires
        key.per_px > 0,
        i64::MIN < col - p.col < i64::MAX,
        col - p.col == n * key.per_px,
        n < 0 || n >= key.tex_w,
        n != 0,
    ensures
        p.needs(key, norm, col) == Redraw::Render,
{
    let d = key.per_px as int;
    vstd::arithmetic::div_mod::lemma_div_multiples_vanish(n, d);
    vstd::arithmetic::div_mod::lemma_mod_multiples_basic(n, d);
    assert(d * n == n * d) by (nonlinear_arith);
    assert(n * d != 0) by (nonlinear_arith)
        requires
            n != 0,
            d > 0,
    ;
    if n < 0 {
        assert(n * d < 0) by (nonlinear_arith)
            requires
                n < 0,
                d > 0,
        ;
    }
}

/// A column is complete just where all of its window is in: counting from the first,
/// each comes a hop after the one before, and none that is in is left out.
pub proof fn a_column_is_complete_once_its_window_is_in(first: int, hop: int, window: int, len: int, k: int)
    requires
        hop > 0,
        k >= 0,
    ensures
        k < complete_cols(first, hop, window, len) <==> (first + k) * hop + window <= len,
{
    assert((first + k) * hop == first * hop + k * hop) by (nonlinear_arith);
    let left = len - window - first * hop;
    if left < 0 {
        assert(k * hop >= 0) by (nonlinear_arith)
            requires
                k >= 0,
                hop > 0,
        ;
    } else {
        lemma_fundamental_div_mod(left, hop);
        let q = left / hop;
        assert(hop * q == q * hop) by (nonlinear_arith);
        if k <= q {
            assert(k * hop <= q * hop) by (nonlinear_arith)
                requires
                    k <= q,
                    hop > 0,
            ;
        } else {
            assert(k * hop >= (q + 1) * hop) by (nonlinear_arith)
                requires
                    k >= q + 1,
                    hop > 0,
            ;
            assert((q + 1) * hop == q * hop + hop) by (nonlinear_arith);
        }
    }
}

} // verus!
