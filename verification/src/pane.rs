//! The panorama's layout, and what a hand on it does.
//!
//! From left to right there is the text, the strip that joins the text to the
//! band, and the waterfall, whose right-hand edge carries the band bar. Lengths
//! are in thousandths of a point and positions are from the top left corner.

use crate::modes::MilliHz;
use crate::tuning::Spot;
use crate::view::{
    clamp_waterfall_w, floor_div, within, Panorama, MIN_SPAN_HZ, MIN_TEXT_W, MIN_WATERFALL_W,
};
use vstd::prelude::*;

verus! {

/// Width of the band bar.
pub const BAND_BAR_W: i32 = 14_000;

/// Shortest that the band bar's thumb may get.
pub const MIN_THUMB_H: i64 = 10_000;

/// How far to either side of the strip still counts as grabbing it.
pub const SPLIT_GRAB: i64 = 3_000;

/// How the panorama is laid out.
#[derive(Clone, Copy, Debug, PartialEq, Eq, Structural)]
pub struct Pane {
    pub width: i32,
    pub height: i32,
    pub waterfall_w: i64,
    pub strip_w: i32,
}

impl Pane {
    /// The sizes are sizes.
    pub open spec fn wf(self) -> bool {
        &&& self.width >= 0
        &&& self.height >= 0
        &&& 0 <= self.waterfall_w <= 0xffff_ffff_ffff
        &&& self.strip_w >= 0
    }

    /// Where the strip ends and the waterfall begins.
    pub open spec fn strip_x1(self) -> int {
        self.width - self.waterfall_w
    }

    /// Where the text ends and the strip begins.
    pub open spec fn strip_x0(self) -> int {
        self.strip_x1() - self.strip_w
    }

    /// The height that positions are measured against: at least a point.
    pub open spec fn tall(self) -> int {
        if self.height > 1_000 {
            self.height as int
        } else {
            1_000
        }
    }

    /// The frequency at a height of the waterfall.
    pub open spec fn hz_at(self, view: Panorama, y: int) -> int {
        view.f_hi - y * view.span() / self.tall()
    }

    /// The frequency at a height of the band bar, which shows the whole band
    /// whatever the view is zoomed to.
    pub open spec fn band_hz_at(self, view: Panorama, y: int) -> int {
        view.band_hi - within(y, 0, self.tall()) * view.full() / self.tall()
    }

    /// Whether a position is on the panorama.
    pub open spec fn holds(self, p: Spot) -> bool {
        0 <= p.x <= self.width && 0 <= p.y <= self.height
    }

    /// Whether a position is on the band bar.
    pub open spec fn on_bar(self, p: Spot) -> bool {
        p.x >= self.width - BAND_BAR_W
    }

    /// Whether a position is near enough to the strip to grab it.
    pub open spec fn on_split(self, p: Spot) -> bool {
        self.strip_x0() - SPLIT_GRAB <= p.x <= self.strip_x1() + SPLIT_GRAB
    }

    /// The height that positions are measured against.
    fn height_or_a_point(&self) -> (h: i128)
        ensures
            h == self.tall(),
    {
        if self.height > 1_000 {
            self.height as i128
        } else {
            1_000
        }
    }

    /// The frequency at a height of the waterfall.
    pub fn y_to_hz(&self, view: &Panorama, y: i32) -> (hz: MilliHz)
        requires
            self.wf(),
            view.wf(),
            0 <= y <= self.height,
        ensures
            hz == self.hz_at(*view, y as int),
            view.f_lo <= hz <= view.f_hi,
    {
        let h: i128 = self.height_or_a_point();
        let span: i128 = view.f_hi as i128 - view.f_lo as i128;
        proof {
            share_of(y as int, span as int, h as int);
        }
        assert(0 <= y * span <= 0x8000_0000 * 0x1_0000_0000) by (nonlinear_arith)
            requires
                0 <= y <= 0x8000_0000,
                0 <= span <= 0x1_0000_0000,
        ;
        (view.f_hi as i128 - y as i128 * span / h) as i32
    }

    /// The frequency at a height of the band bar.
    pub fn y_to_band_hz(&self, view: &Panorama, y: i32) -> (hz: MilliHz)
        requires
            self.wf(),
            view.wf(),
        ensures
            hz == self.band_hz_at(*view, y as int),
            view.band_lo <= hz <= view.band_hi,
    {
        let h: i128 = self.height_or_a_point();
        let full: i128 = view.band_hi as i128 - view.band_lo as i128;
        let at: i128 = if y < 0 {
            0
        } else if y as i128 > h {
            h
        } else {
            y as i128
        };
        proof {
            share_of(at as int, full as int, h as int);
        }
        assert(0 <= at * full <= 0x8000_0000 * 0x1_0000_0000) by (nonlinear_arith)
            requires
                0 <= at <= 0x8000_0000,
                0 <= full <= 0x1_0000_0000,
        ;
        (view.band_hi as i128 - at * full / h) as i32
    }

    /// Whether a position is on the band bar.
    pub fn is_on_bar(&self, p: &Spot) -> (r: bool)
        requires
            self.wf(),
        ensures
            r == self.on_bar(*p),
    {
        p.x >= self.width - BAND_BAR_W
    }

    /// Whether a position is near enough to the strip to grab it.
    pub fn is_on_split(&self, p: &Spot) -> (r: bool)
        requires
            self.wf(),
        ensures
            r == self.on_split(*p),
    {
        let x1: i64 = self.width as i64 - self.waterfall_w;
        let x0: i64 = x1 - self.strip_w as i64;
        x0 - SPLIT_GRAB <= p.x as i64 && p.x as i64 <= x1 + SPLIT_GRAB
    }

    /// What the pointer is pointing at, in frequency.
    ///
    /// Only over the waterfall and the band bar, because they are where a height
    /// is a frequency. To their left the rows have been nudged apart to fit.
    pub fn cursor_hz(&self, view: &Panorama, pointer: Option<Spot>) -> (hz: Option<MilliHz>)
        requires
            self.wf(),
            view.wf(),
        ensures
            match pointer {
                Some(p) => if !self.holds(p) {
                    hz is None
                } else if self.on_bar(p) {
                    hz is Some && hz->0 == self.band_hz_at(*view, p.y as int)
                } else if p.x >= self.strip_x1() {
                    hz is Some && hz->0 == self.hz_at(*view, p.y as int)
                } else {
                    hz is None
                },
                None => hz is None,
            },
    {
        match pointer {
            Some(p) => {
                if p.x < 0 || p.x > self.width || p.y < 0 || p.y > self.height {
                    None
                } else if self.is_on_bar(&p) {
                    Some(self.y_to_band_hz(view, p.y))
                } else if p.x as i64 >= self.width as i64 - self.waterfall_w {
                    Some(self.y_to_hz(view, p.y))
                } else {
                    None
                }
            },
            None => None,
        }
    }

    /// Where the band bar's thumb is: as much of the bar as the view is of the
    /// band, and no shorter than can be grabbed.
    pub fn thumb(&self, view: &Panorama) -> (ends: (i64, i64))
        requires
            self.wf(),
            view.wf(),
        ensures
            ({
                let top = (view.band_hi - view.f_hi) * self.height / view.full();
                let bottom = (view.band_hi - view.f_lo) * self.height / view.full();
                let short = MIN_THUMB_H - (bottom - top);
                let grow = if short > 0 { short / 2 } else { 0 };
                ends.0 == top - grow && ends.1 == bottom + grow
            }),
            ends.1 - ends.0 >= MIN_THUMB_H - 1,
            ends.1 - ends.0 >= 9_999,
    {
        let full: i128 = view.band_hi as i128 - view.band_lo as i128;
        let above: i128 = view.band_hi as i128 - view.f_hi as i128;
        let below: i128 = view.band_hi as i128 - view.f_lo as i128;
        let h: i128 = self.height as i128;
        proof {
            share_of(above as int, h as int, full as int);
            share_of(below as int, h as int, full as int);
        }
        assert(0 <= above * h <= 0x1_0000_0000 * 0x8000_0000) by (nonlinear_arith)
            requires
                0 <= above <= 0x1_0000_0000,
                0 <= h <= 0x8000_0000,
        ;
        assert(0 <= below * h <= 0x1_0000_0000 * 0x8000_0000) by (nonlinear_arith)
            requires
                0 <= below <= 0x1_0000_0000,
                0 <= h <= 0x8000_0000,
        ;
        let top: i64 = (above * h / full) as i64;
        let bottom: i64 = (below * h / full) as i64;
        let short: i64 = MIN_THUMB_H - (bottom - top);
        let grow: i64 = if short > 0 {
            short / 2
        } else {
            0
        };
        (top - grow, bottom + grow)
    }

    /// Take the waterfall's width to what it may be in a window this wide.
    pub fn refit(&mut self)
        requires
            old(self).wf(),
        ensures
            *final(self) == old(self).with_waterfall(old(self).waterfall_w as int),
            final(self).wf(),
    {
        self.waterfall_w = clamp_waterfall_w(self.width as i64, self.strip_w as i64, self.waterfall_w);
    }

    /// The layout with the waterfall as near to `want` wide as it may be.
    pub open spec fn with_waterfall(self, want: int) -> Pane {
        let room = self.width - self.strip_w - MIN_TEXT_W;
        Pane {
            waterfall_w: within(
                want,
                MIN_WATERFALL_W as int,
                if room > MIN_WATERFALL_W {
                    room
                } else {
                    MIN_WATERFALL_W as int
                },
            ) as i64,
            ..self
        }
    }
}

/// A share of something is no more than all of it.
proof fn share_of(part: int, all: int, whole: int)
    requires
        0 <= part <= whole,
        whole > 0,
        all >= 0,
    ensures
        0 <= part * all / whole <= all,
{
    assert(0 <= part * all <= whole * all) by (nonlinear_arith)
        requires
            0 <= part <= whole,
            all >= 0,
    ;
    vstd::arithmetic::div_mod::lemma_div_is_ordered(0, part * all, whole);
    vstd::arithmetic::div_mod::lemma_div_is_ordered(part * all, whole * all, whole);
    vstd::arithmetic::div_mod::lemma_div_multiples_vanish(all, whole);
}

/// What the pointer did in a frame.
#[derive(Clone, Copy, Debug, PartialEq, Eq, Structural)]
pub struct Hand {
    pub pointer: Option<Spot>,
    pub drag_started: bool,
    pub dragged: bool,
    pub clicked: bool,
}

/// What a drag has hold of.
#[derive(Clone, Copy, Debug, PartialEq, Eq, Structural)]
pub struct Grip {
    /// Whether it is the band bar, and how far from the middle of the view.
    pub bar_drag: bool,
    pub bar_grab_hz: i64,
    /// Whether it is the strip, and how far from its left edge.
    pub split_drag: bool,
    pub split_grab_dx: i64,
}

impl Grip {
    /// A hand that has hold of nothing.
    pub fn nothing() -> (g: Grip)
        ensures
            g == (Grip { bar_drag: false, bar_grab_hz: 0, split_drag: false, split_grab_dx: 0 }),
            g.wf(),
    {
        Grip { bar_drag: false, bar_grab_hz: 0, split_drag: false, split_grab_dx: 0 }
    }

    /// What was grabbed was somewhere.
    pub open spec fn wf(self) -> bool {
        &&& -0x1_0000_0000 <= self.bar_grab_hz <= 0x1_0000_0000
        &&& -0x1_0000_0000_0000 <= self.split_grab_dx <= 0x1_0000_0000_0000
    }

    /// The grip after the band bar has been looked at: a drag that starts on the
    /// bar takes hold of it where it was grabbed, and lasts as long as the drag.
    pub open spec fn after_bar(self, pane: Pane, view: Panorama, hand: Hand) -> Grip {
        let at_bar = hand.pointer is Some && pane.on_bar(hand.pointer->0);
        let taken = if hand.drag_started { at_bar } else { self.bar_drag };
        Grip {
            bar_drag: taken && hand.dragged,
            bar_grab_hz: if hand.drag_started && at_bar {
                (pane.band_hz_at(view, hand.pointer->0.y as int) - (view.f_lo + view.f_hi) / 2) as i64
            } else {
                self.bar_grab_hz
            },
            ..self
        }
    }

    /// Where the view is to be centred, if anywhere: a drag of the bar carries
    /// the place that was grabbed along, and a click jumps to where it was.
    pub open spec fn bar_target(self, pane: Pane, view: Panorama, hand: Hand) -> Option<int> {
        match hand.pointer {
            Some(p) => if self.bar_drag {
                Some(pane.band_hz_at(view, p.y as int) - self.bar_grab_hz)
            } else if hand.clicked && pane.on_bar(p) {
                Some(pane.band_hz_at(view, p.y as int))
            } else {
                None
            },
            None => None,
        }
    }

    /// Drag or click the band bar.
    pub fn bar(&mut self, pane: &Pane, view: &mut Panorama, hand: &Hand)
        requires
            old(self).wf(),
            pane.wf(),
            old(view).wf(),
        ensures
            *final(self) == old(self).after_bar(*pane, *old(view), *hand),
            final(self).wf(),
            *final(view) == match final(self).bar_target(*pane, *old(view), *hand) {
                Some(hz) => old(view).placed(hz - old(view).span() / 2, old(view).span()),
                None => *old(view),
            },
            final(view).wf(),
    {
        if hand.drag_started {
            self.bar_drag = false;
            if let Some(p) = hand.pointer {
                if pane.is_on_bar(&p) {
                    let center: i64 = floor_div(view.f_lo as i128 + view.f_hi as i128, 2) as i64;
                    self.bar_drag = true;
                    self.bar_grab_hz = pane.y_to_band_hz(view, p.y) as i64 - center;
                }
            }
        }
        if !hand.dragged {
            self.bar_drag = false;
        }
        if let Some(p) = hand.pointer {
            if self.bar_drag {
                let hz: i64 = pane.y_to_band_hz(view, p.y) as i64 - self.bar_grab_hz;
                view.center_on(hz);
            } else if hand.clicked && pane.is_on_bar(&p) {
                let hz: i64 = pane.y_to_band_hz(view, p.y) as i64;
                view.center_on(hz);
            }
        }
    }

    /// The grip after the strip has been looked at: a drag that starts on it,
    /// and not on the band bar, takes hold of it.
    pub open spec fn after_split(self, pane: Pane, hand: Hand) -> Grip {
        let at_split = hand.pointer is Some && pane.on_split(hand.pointer->0);
        let starts = hand.drag_started && !self.bar_drag;
        let taken = if starts { at_split } else { self.split_drag };
        Grip {
            split_drag: taken && hand.dragged,
            split_grab_dx: if starts && at_split {
                (hand.pointer->0.x - pane.strip_x0()) as i64
            } else {
                self.split_grab_dx
            },
            ..self
        }
    }

    /// Drag the strip, which doubles as the splitter between the two panels.
    /// Whether it is to be lit.
    pub fn split(&mut self, pane: &mut Pane, hand: &Hand) -> (hot: bool)
        requires
            old(self).wf(),
            old(pane).wf(),
        ensures
            *final(self) == old(self).after_split(*old(pane), *hand),
            final(self).wf(),
            *final(pane) == if final(self).split_drag && hand.pointer is Some {
                old(pane).with_waterfall(
                    old(pane).width - (hand.pointer->0.x - final(self).split_grab_dx) - old(pane).strip_w,
                )
            } else {
                *old(pane)
            },
            final(pane).wf(),
            hot <==> final(self).split_drag || (!final(self).bar_drag && hand.pointer is Some && old(pane).on_split(
                hand.pointer->0,
            )),
    {
        let near = match hand.pointer {
            Some(p) => pane.is_on_split(&p),
            None => false,
        };
        if hand.drag_started && !self.bar_drag {
            self.split_drag = near;
            if let Some(p) = hand.pointer {
                if near {
                    let x0: i64 = pane.width as i64 - pane.waterfall_w - pane.strip_w as i64;
                    self.split_grab_dx = p.x as i64 - x0;
                }
            }
        }
        if !hand.dragged {
            self.split_drag = false;
        }
        if self.split_drag {
            if let Some(p) = hand.pointer {
                let strip_x0: i64 = p.x as i64 - self.split_grab_dx;
                let want: i64 = pane.width as i64 - strip_x0 - pane.strip_w as i64;
                pane.waterfall_w = clamp_waterfall_w(pane.width as i64, pane.strip_w as i64, want);
            }
        }
        self.split_drag || (!self.bar_drag && near)
    }

    /// Drag the panorama itself, which pans it, unless the drag has hold of
    /// something else.
    pub fn pan(&self, pane: &Pane, view: &mut Panorama, hand: &Hand, dy: i32)
        requires
            pane.wf(),
            pane.height > 0,
            old(view).wf(),
        ensures
            *final(view) == if hand.dragged && !self.bar_drag && !self.split_drag {
                old(view).placed(old(view).f_lo + panned(*pane, *old(view), dy as int), old(view).span())
            } else {
                *old(view)
            },
            final(view).wf(),
    {
        if hand.dragged && !self.bar_drag && !self.split_drag {
            pan_by(pane, view, dy);
        }
    }
}

/// What a movement of `dy` is worth in frequency.
pub open spec fn panned(pane: Pane, view: Panorama, dy: int) -> int {
    dy * view.span() / pane.height as int
}

/// Pan by a movement of `dy`.
fn pan_by(pane: &Pane, view: &mut Panorama, dy: i32)
    requires
        pane.wf(),
        pane.height > 0,
        old(view).wf(),
    ensures
        *final(view) == old(view).placed(old(view).f_lo + panned(*pane, *old(view), dy as int), old(view).span()),
        final(view).wf(),
{
    let span: i128 = view.f_hi as i128 - view.f_lo as i128;
    assert(-0x8000_0000 * 0xffff_ffff <= dy * span <= 0x7fff_ffff * 0xffff_ffff) by (nonlinear_arith)
        requires
            -0x8000_0000 <= dy <= 0x7fff_ffff,
            0 <= span <= 0xffff_ffff,
    ;
    let dhz: i128 = floor_div(dy as i128 * span, pane.height as i128);
    proof {
        let x = dy * span;
        let h = pane.height as int;
        vstd::arithmetic::div_mod::lemma_fundamental_div_mod(x, h);
        assert(-0x8000_0000_0000_0000 <= dhz < 0x8000_0000_0000_0000) by (nonlinear_arith)
            requires
                -0x8000_0000 * 0xffff_ffff <= x <= 0x7fff_ffff * 0xffff_ffff,
                h >= 1,
                dhz == x / h,
        ;
    }
    view.pan_hz(dhz as i64);
}

/// What the wheel did in a frame.
#[derive(Clone, Copy, Debug, PartialEq, Eq, Structural)]
pub struct Wheel {
    pub hovered: bool,
    /// How much larger the pinch or the wheel makes things, out of a million.
    pub zoom: u32,
    pub dx: i32,
    pub dy: i32,
    pub shift: bool,
    /// Where the pointer is, if anywhere.
    pub pointer: Option<Spot>,
}

/// What the wheel asks for.
#[derive(Clone, Copy, Debug, PartialEq, Eq, Structural)]
pub enum Turn {
    Nothing,
    /// Zoom about a frequency, by a factor out of a million.
    Zoom(MilliHz, u32),
    /// Make the text larger by so many thousandths of a point.
    Text(i32),
    /// Move the view by so many thousandths of a point.
    Pan(i32),
}

impl Wheel {
    /// Whether the zoom is enough to act on.
    pub open spec fn zooms(self) -> bool {
        self.zoom > 1_000_100 || self.zoom < 999_900
    }

    /// What the wheel asks for. A pinch zooms about the pointer, or about the
    /// middle; otherwise turning sizes the text with shift held, and pans
    /// without. Some platforms turn sideways with shift held.
    pub fn turn(&self, pane: &Pane, view: &Panorama) -> (t: Turn)
        requires
            pane.wf(),
            view.wf(),
            self.zoom > 0,
            self.pointer matches Some(p) ==> 0 <= p.y <= pane.height,
        ensures
            t == if !self.hovered {
                Turn::Nothing
            } else if self.zooms() {
                Turn::Zoom(
                    match self.pointer {
                        Some(p) => pane.hz_at(*view, p.y as int),
                        None => (view.f_lo + view.f_hi) / 2,
                    } as i32,
                    within(1_000_000_000_000int / self.zoom as int, 0, u32::MAX as int) as u32,
                )
            } else if self.shift && (self.dx != 0 || self.dy != 0) {
                Turn::Text(if self.dy != 0 { self.dy } else { self.dx })
            } else if !self.shift && self.dy != 0 {
                Turn::Pan(self.dy)
            } else {
                Turn::Nothing
            },
    {
        if !self.hovered {
            return Turn::Nothing;
        }
        if self.zoom > 1_000_100 || self.zoom < 999_900 {
            let focus: MilliHz = match self.pointer {
                Some(p) => pane.y_to_hz(view, p.y),
                None => floor_div(view.f_lo as i128 + view.f_hi as i128, 2) as i32,
            };
            let factor: u64 = 1_000_000_000_000 / self.zoom as u64;
            let held: u32 = if factor > u32::MAX as u64 {
                u32::MAX
            } else {
                factor as u32
            };
            return Turn::Zoom(focus, held);
        }
        if self.shift {
            if self.dy != 0 {
                return Turn::Text(self.dy);
            }
            if self.dx != 0 {
                return Turn::Text(self.dx);
            }
            return Turn::Nothing;
        }
        if self.dy != 0 {
            Turn::Pan(self.dy)
        } else {
            Turn::Nothing
        }
    }
}

/// The size of the text after the wheel has turned by `s`: a fiftieth of it
/// more, within what can be read.
pub fn sized_by(text_px: i64, s: i32) -> (px: i64)
    requires
        8_000 <= text_px <= 22_000,
    ensures
        px == within(text_px + s as int / 50, 8_000, 22_000),
{
    let grown: i64 = text_px + floor_div(s as i128, 50) as i64;
    if grown < 8_000 {
        8_000
    } else if grown > 22_000 {
        22_000
    } else {
        grown
    }
}

/// Do what the wheel asks for.
pub fn turned(turn: &Turn, pane: &Pane, view: &mut Panorama, text_px: &mut i64)
    requires
        pane.wf(),
        pane.height > 0,
        old(view).wf(),
        old(view).full() >= MIN_SPAN_HZ,
        8_000 <= *old(text_px) <= 22_000,
    ensures
        *final(view) == match *turn {
            Turn::Zoom(focus, factor) => {
                let span = old(view).zoomed_span(factor as int);
                old(view).placed(old(view).zoomed_lo(focus as int, span), span)
            },
            Turn::Pan(dy) => old(view).placed(
                old(view).f_lo + panned(*pane, *old(view), dy as int),
                old(view).span(),
            ),
            _ => *old(view),
        },
        final(view).wf(),
        *final(text_px) == match *turn {
            Turn::Text(s) => within(*old(text_px) + s as int / 50, 8_000, 22_000),
            _ => *old(text_px) as int,
        },
{
    match *turn {
        Turn::Nothing => {},
        Turn::Zoom(focus, factor) => {
            view.zoom(focus, factor);
        },
        Turn::Text(s) => {
            *text_px = sized_by(*text_px, s);
        },
        Turn::Pan(dy) => {
            pan_by(pane, view, dy);
        },
    }
}

/// The first multiple of `step` that is no less than `lo`.
pub open spec fn first_tick(lo: int, step: int) -> int {
    (lo + step - 1) / step * step
}

/// The frequencies that are labelled: each multiple of the step that is in view,
/// upwards.
pub fn tick_labels(view: &Panorama, step: MilliHz) -> (ticks: Vec<MilliHz>)
    requires
        view.wf(),
        step > 0,
    ensures
        forall|i: int|
            0 <= i < ticks@.len() ==> #[trigger] ticks@[i] == first_tick(view.f_lo as int, step as int) + i * step,
        forall|i: int| 0 <= i < ticks@.len() ==> view.f_lo <= #[trigger] ticks@[i] <= view.f_hi,
        first_tick(view.f_lo as int, step as int) + ticks@.len() * step > view.f_hi,
{
    let mut ticks: Vec<MilliHz> = Vec::new();
    let wide: i128 = step as i128;
    proof {
        first_tick_is_next(view.f_lo as int, step as int);
    }
    let first: i128 = floor_div(view.f_lo as i128 + wide - 1, wide) * wide;
    let mut hz: i128 = first;
    assert(0 * wide == 0) by (nonlinear_arith);
    while hz <= view.f_hi as i128
        invariant
            first == first_tick(view.f_lo as int, step as int),
            wide == step,
            step > 0,
            view.f_lo <= first,
            hz == first + ticks@.len() * wide,
            first <= hz <= view.f_hi + step,
            forall|i: int| 0 <= i < ticks@.len() ==> #[trigger] ticks@[i] == first + i * step,
            forall|i: int| 0 <= i < ticks@.len() ==> view.f_lo <= #[trigger] ticks@[i] <= view.f_hi,
        decreases view.f_hi + step - hz,
    {
        let ghost n = ticks@.len();
        ticks.push(hz as i32);
        assert(n * wide + wide == (n + 1) * wide) by (nonlinear_arith);
        hz = hz + wide;
    }
    ticks
}

proof fn first_tick_is_next(lo: int, step: int)
    requires
        step > 0,
    ensures
        lo <= first_tick(lo, step) < lo + step,
        first_tick(lo, step) % step == 0,
{
    let q = (lo + step - 1) / step;
    vstd::arithmetic::div_mod::lemma_fundamental_div_mod(lo + step - 1, step);
    assert(q * step == step * q) by (nonlinear_arith);
    vstd::arithmetic::div_mod::lemma_fundamental_div_mod_converse(q * step, step, q, 0);
}

/// Every multiple of the step that is in view is labelled.
pub proof fn no_tick_is_missed(lo: int, hi: int, step: int, count: int, hz: int) -> (i: int)
    requires
        step > 0,
        count >= 0,
        first_tick(lo, step) + count * step > hi,
        lo <= hz <= hi,
        hz % step == 0,
    ensures
        0 <= i < count,
        hz == first_tick(lo, step) + i * step,
{
    let first = first_tick(lo, step);
    let k = hz / step;
    let q = (lo + step - 1) / step;
    first_tick_is_next(lo, step);
    vstd::arithmetic::div_mod::lemma_fundamental_div_mod(hz, step);
    let i = k - q;
    assert(i * step == step * k - q * step) by (nonlinear_arith)
        requires
            i == k - q,
    ;
    assert(i >= 0) by (nonlinear_arith)
        requires
            hz == first + i * step,
            hz > first - step,
            step > 0,
    ;
    assert(i < count) by (nonlinear_arith)
        requires
            first + i * step < first + count * step,
            step > 0,
    ;
    i
}

/// Frequencies run down the waterfall: what is higher up is no lower.
pub proof fn the_top_is_the_high_end(pane: Pane, view: Panorama, above: int, below: int)
    requires
        view.wf(),
        above <= below,
    ensures
        pane.hz_at(view, above) >= pane.hz_at(view, below),
        pane.band_hz_at(view, above) >= pane.band_hz_at(view, below),
{
    let h = pane.tall();
    let (a, b) = (within(above, 0, h), within(below, 0, h));
    assert(above * view.span() <= below * view.span()) by (nonlinear_arith)
        requires
            above <= below,
            view.span() >= 0,
    ;
    assert(a * view.full() <= b * view.full()) by (nonlinear_arith)
        requires
            a <= b,
            view.full() >= 0,
    ;
    vstd::arithmetic::div_mod::lemma_div_is_ordered(above * view.span(), below * view.span(), h);
    vstd::arithmetic::div_mod::lemma_div_is_ordered(a * view.full(), b * view.full(), h);
}

/// Taking hold of the band bar moves nothing: the view goes where the hand takes
/// it from there.
pub proof fn grabbing_the_bar_moves_nothing(grip: Grip, pane: Pane, view: Panorama, hand: Hand)
    requires
        view.wf(),
        hand.drag_started,
        hand.dragged,
        hand.pointer is Some,
        pane.on_bar(hand.pointer->0),
    ensures
        ({
            let held = grip.after_bar(pane, view, hand);
            &&& held.bar_drag
            &&& held.bar_target(pane, view, hand) is Some
            &&& view.placed(held.bar_target(pane, view, hand)->0 - view.span() / 2, view.span()) == view
        }),
{
    let y = hand.pointer->0.y as int;
    let h = pane.tall();
    let at = within(y, 0, h);
    share_of(at, view.full(), h);
    let held = grip.after_bar(pane, view, hand);
    assert(held.bar_target(pane, view, hand) == Some((view.f_lo + view.f_hi) / 2));
}

} // verus!
