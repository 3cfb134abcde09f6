//! What holds of the view of the band and of a hand on it: no view leaves the band,
//! what is asked for is what is shown as far as it fits, and a height is a
//! frequency in proportion.

use crate::pane::{panned, Grip, Hand, Pane, Wheel};
use crate::tuning::Spot;
use crate::view::Panorama;
use vstd::arithmetic::div_mod::lemma_fundamental_div_mod;
use vstd::prelude::*;

verus! {

/// A view is put where it is asked for where that lies in the band, and otherwise
/// against the edge it would hang over; it keeps its width and the band.
pub proof fn a_view_goes_where_it_is_put(p: Panorama, lo: int, span: int)
    requires
        p.full() > 0,
        0 <= span <= p.full(),
    ensures
        ({
            let q = p.placed(lo, span);
            &&& q.span() == span
            &&& q.band_lo == p.band_lo && q.band_hi == p.band_hi
            &&& p.band_lo <= q.f_lo && q.f_hi <= p.band_hi
            &&& p.band_lo <= lo && lo + span <= p.band_hi ==> q.f_lo == lo
            &&& lo < p.band_lo ==> q.f_lo == p.band_lo
            &&& lo + span > p.band_hi ==> q.f_hi == p.band_hi
        }),
{
}

/// A view that is asked for and fits is the view that is shown: one in the band and
/// no narrower than fifty hertz.
pub proof fn a_view_that_fits_is_shown(p: Panorama, lo: i32, hi: i32)
    requires
        p.full() > 0,
        p.band_lo <= lo,
        hi <= p.band_hi,
        hi - lo >= 50_000,
    ensures
        p.fitted(Some((lo, hi))) == (Panorama { f_lo: lo, f_hi: hi, ..p }),
{
}

/// What is no view shows the whole band, and so does one that is wider than it.
pub proof fn what_is_no_view_shows_the_band(p: Panorama, lo: i32, hi: i32)
    requires
        p.full() > 0,
        hi <= lo || hi - lo >= p.full(),
    ensures
        p.fitted(Some((lo, hi))) == (Panorama { f_lo: p.band_lo, f_hi: p.band_hi, ..p }),
        p.fitted(None) == (Panorama { f_lo: p.band_lo, f_hi: p.band_hi, ..p }),
{
}

/// A view narrower than fifty hertz is shown fifty hertz wide.
pub proof fn a_narrow_view_is_widened(p: Panorama, lo: i32, hi: i32)
    requires
        p.full() >= 50_000,
        lo < hi,
        hi - lo <= 50_000,
    ensures
        p.fitted(Some((lo, hi))).span() == 50_000,
{
}

/// A zoom widens or narrows the view by its factor, as far as fifty hertz on one
/// side and the band on the other.
pub proof fn a_zoom_goes_by_its_factor(p: Panorama, factor: int)
    requires
        p.wf(),
        p.full() >= 50_000,
        factor >= 0,
    ensures
        50_000 <= p.zoomed_span(factor) <= p.full(),
        p.zoomed_span(factor) == 50_000 || p.zoomed_span(factor) * 1_000_000 <= p.span() * factor,
        p.zoomed_span(factor) == p.full() || (p.zoomed_span(factor) + 1) * 1_000_000 > p.span() * factor,
        factor == 1_000_000 ==> p.zoomed_span(factor) == p.span(),
{
    assert(p.span() * 1_000_000 / 1_000_000 == p.span());
}

/// What a zoom is aimed at keeps its place on the window: its share of the new view
/// is its share of the old one, to within what a frequency can be told to.
pub proof fn a_zoom_keeps_its_focus_in_place(p: Panorama, focus: int, span: int)
    requires
        p.wf(),
        p.span() > 0,
    ensures
        ({
            let lo = p.zoomed_lo(focus, span);
            0 <= (focus - p.f_lo) * span - (focus - lo) * p.span() < p.span()
        }),
{
    let n = (focus - p.f_lo) * span;
    let q = n / p.span();
    lemma_fundamental_div_mod(n, p.span());
    assert((focus - p.zoomed_lo(focus, span)) == q);
    assert(q * p.span() == p.span() * q) by (nonlinear_arith);
}

/// Heights and frequencies go in proportion: the top of the waterfall is the upper
/// edge of the view and its foot the lower, and in between each is as far down as
/// its share.
pub proof fn a_height_is_a_frequency_in_proportion(pane: Pane, view: Panorama, y: int)
    requires
        pane.height >= 1_000,
        view.wf(),
    ensures
        pane.hz_at(view, 0) == view.f_hi,
        pane.hz_at(view, pane.height as int) == view.f_lo,
        ({
            let below = view.f_hi - pane.hz_at(view, y);
            0 <= y * view.span() - below * pane.height < pane.height
        }),
{
    let h = pane.height as int;
    assert(0 * view.span() / h == 0) by (nonlinear_arith)
        requires
            h > 0,
    ;
    vstd::arithmetic::div_mod::lemma_div_multiples_vanish(view.span(), h);
    lemma_fundamental_div_mod(y * view.span(), h);
    let q = y * view.span() / h;
    assert(h * q == q * h) by (nonlinear_arith);
    assert(h * view.span() == view.span() * h) by (nonlinear_arith);
}

/// The band bar shows the whole band whatever the view is: its top is the upper
/// edge of the band and its foot the lower, and beyond either it is that edge.
pub proof fn the_bar_shows_the_whole_band(pane: Pane, view: Panorama, y: int)
    requires
        pane.height >= 1_000,
        view.wf(),
    ensures
        y <= 0 ==> pane.band_hz_at(view, y) == view.band_hi,
        y >= pane.height ==> pane.band_hz_at(view, y) == view.band_lo,
        0 <= y <= pane.height ==> {
            let below = view.band_hi - pane.band_hz_at(view, y);
            0 <= y * view.full() - below * pane.height < pane.height
        },
{
    let h = pane.height as int;
    assert(0 * view.full() / h == 0) by (nonlinear_arith)
        requires
            h > 0,
    ;
    vstd::arithmetic::div_mod::lemma_div_multiples_vanish(view.full(), h);
    lemma_fundamental_div_mod(y * view.full(), h);
    let q = y * view.full() / h;
    assert(h * q == q * h) by (nonlinear_arith);
    assert(h * view.full() == view.full() * h) by (nonlinear_arith);
}

/// The panorama is carried along by a drag: a movement down by a share of the
/// height raises the view by that share of its width.
pub proof fn a_drag_carries_the_band_along(pane: Pane, view: Panorama, dy: int)
    requires
        pane.height > 0,
    ensures
        0 <= dy * view.span() - panned(pane, view, dy) * pane.height < pane.height,
        dy == 0 ==> panned(pane, view, dy) == 0,
        dy == pane.height ==> panned(pane, view, dy) == view.span(),
{
    let h = pane.height as int;
    lemma_fundamental_div_mod(dy * view.span(), h);
    let q = dy * view.span() / h;
    assert(h * q == q * h) by (nonlinear_arith);
    vstd::arithmetic::div_mod::lemma_div_multiples_vanish(view.span(), h);
    assert(h * view.span() == view.span() * h) by (nonlinear_arith);
    assert(0 * view.span() / h == 0) by (nonlinear_arith)
        requires
            h > 0,
    ;
}

/// The band bar is the rightmost fourteen points, and the strip can be grabbed up to
/// three points to either side of it.
pub proof fn what_can_be_grabbed(pane: Pane, p: Spot)
    ensures
        pane.on_bar(p) <==> pane.width - p.x <= 14_000,
        pane.on_split(p) <==> {
            &&& p.x >= pane.width - pane.waterfall_w - pane.strip_w - 3_000
            &&& p.x <= pane.width - pane.waterfall_w + 3_000
        },
{
}

/// The waterfall is as wide as was asked where that leaves both panels usable; it is
/// never narrower than eighty points, and leaves the text a hundred and sixty
/// wherever the window has room for both.
pub proof fn both_panels_stay_usable(pane: Pane, want: int)
    requires
        pane.wf(),
    ensures
        ({
            let q = pane.with_waterfall(want);
            let text = pane.width - pane.strip_w - q.waterfall_w;
            &&& q.waterfall_w >= 80_000
            &&& pane.width - pane.strip_w >= 240_000 ==> text >= 160_000
            &&& want >= 80_000 && pane.width - pane.strip_w - want >= 160_000 ==> q.waterfall_w == want
            &&& q.width == pane.width && q.height == pane.height && q.strip_w == pane.strip_w
        }),
{
}

/// A drag keeps hold of what it started on: the band bar is held from a start on it
/// until the drag ends, and by no drag that started elsewhere.
pub proof fn a_drag_keeps_hold_of_the_bar(grip: Grip, pane: Pane, view: Panorama, hand: Hand)
    ensures
        !hand.dragged ==> !grip.after_bar(pane, view, hand).bar_drag,
        hand.dragged && !hand.drag_started ==> grip.after_bar(pane, view, hand).bar_drag == grip.bar_drag,
        hand.drag_started && !(hand.pointer is Some && pane.on_bar(hand.pointer->0)) ==> !grip.after_bar(
            pane,
            view,
            hand,
        ).bar_drag,
        !hand.drag_started ==> grip.after_bar(pane, view, hand).bar_grab_hz == grip.bar_grab_hz,
        grip.after_bar(pane, view, hand).split_drag == grip.split_drag,
{
}

/// The same of the strip, which a drag that has the band bar never takes.
pub proof fn a_drag_keeps_hold_of_the_strip(grip: Grip, pane: Pane, hand: Hand)
    ensures
        !hand.dragged ==> !grip.after_split(pane, hand).split_drag,
        hand.dragged && !hand.drag_started ==> grip.after_split(pane, hand).split_drag == grip.split_drag,
        hand.drag_started && hand.dragged && !grip.bar_drag ==> (grip.after_split(pane, hand).split_drag
            <==> hand.pointer is Some && pane.on_split(hand.pointer->0)),
        grip.bar_drag && !grip.split_drag ==> !grip.after_split(pane, hand).split_drag,
        grip.after_split(pane, hand).bar_drag == grip.bar_drag,
{
}

/// A drag of the bar moves the view by as much of the band as the hand moved over,
/// and a click jumps to where it was.
pub proof fn the_view_follows_the_hand_on_the_bar(grip: Grip, pane: Pane, view: Panorama, a: Spot, b: Spot, hand: Hand)
    requires
        grip.bar_drag,
    ensures
        ({
            let here = grip.bar_target(pane, view, Hand { pointer: Some(a), ..hand });
            let there = grip.bar_target(pane, view, Hand { pointer: Some(b), ..hand });
            &&& here is Some && there is Some
            &&& there->0 - here->0 == pane.band_hz_at(view, b.y as int) - pane.band_hz_at(view, a.y as int)
        }),
{
}

/// A click on the bar that holds nothing jumps to where it was, and nothing else
/// moves the view.
pub proof fn a_click_on_the_bar_jumps(grip: Grip, pane: Pane, view: Panorama, hand: Hand)
    requires
        !grip.bar_drag,
    ensures
        grip.bar_target(pane, view, hand) is Some <==> hand.clicked && hand.pointer is Some && pane.on_bar(
            hand.pointer->0,
        ),
        grip.bar_target(pane, view, hand) matches Some(hz) ==> hz == pane.band_hz_at(view, hand.pointer->0.y as int),
{
}

/// A pinch of no more than a hundredth of a percent is none.
pub proof fn a_still_hand_does_not_zoom(w: Wheel)
    ensures
        w.zooms() <==> !(1_000_000 - 100 <= w.zoom <= 1_000_000 + 100),
{
}

/// A panorama shorter than a point is measured as if it were a point tall, so that a
/// height is still a frequency on it.
pub proof fn a_short_panorama_is_a_point_tall(pane: Pane, view: Panorama, y: int)
    requires
        pane.height <= 1_000,
        view.wf(),
    ensures
        ({
            let below = view.f_hi - pane.hz_at(view, y);
            0 <= y * view.span() - below * 1_000 < 1_000
        }),
{
    lemma_fundamental_div_mod(y * view.span(), 1_000);
}

/// The panorama is everything from its top left corner to its bottom right one, its
/// edges included.
pub proof fn the_panorama_holds_its_edges(pane: Pane, p: Spot)
    ensures
        pane.holds(p) <==> p.x >= 0 && p.y >= 0 && p.x <= pane.width && p.y <= pane.height,
{
}

/// What was grabbed, and where, is remembered for the whole of a drag, and a drag
/// that starts elsewhere leaves it alone.
pub proof fn where_it_was_grabbed_is_remembered(grip: Grip, pane: Pane, view: Panorama, hand: Hand)
    ensures
        !(hand.pointer is Some && pane.on_bar(hand.pointer->0)) ==> grip.after_bar(pane, view, hand).bar_grab_hz
            == grip.bar_grab_hz,
        !(hand.pointer is Some && pane.on_split(hand.pointer->0)) ==> grip.after_split(pane, hand).split_grab_dx
            == grip.split_grab_dx,
        !hand.drag_started ==> grip.after_split(pane, hand).split_grab_dx == grip.split_grab_dx,
        hand.drag_started && !grip.bar_drag && hand.pointer is Some && pane.on_split(hand.pointer->0) && -0x7000_0000
            <= hand.pointer->0.x - pane.strip_x0() <= 0x7000_0000 ==> grip.after_split(pane, hand).split_grab_dx
            == hand.pointer->0.x - (pane.width - pane.waterfall_w - pane.strip_w),
{
}

} // verus!
