//! Which part of the band is on show, and how the window is divided.

use crate::modes::MilliHz;
use vstd::prelude::*;

verus! {

/// Narrowest slice of band the waterfall will zoom into.
pub const MIN_SPAN_HZ: MilliHz = 50_000;

/// Neither panel may be dragged smaller than this, in thousandths of a point.
pub const MIN_WATERFALL_W: i64 = 80_000;

pub const MIN_TEXT_W: i64 = 160_000;

/// What a zoom factor is a fraction of.
pub const ONE: u32 = 1_000_000;

/// A view of the band.
#[derive(Clone, Copy, Debug, PartialEq, Eq, Structural)]
pub struct Panorama {
    /// The whole band.
    pub band_lo: MilliHz,
    pub band_hi: MilliHz,
    /// What is on show.
    pub f_lo: MilliHz,
    pub f_hi: MilliHz,
}

/// `x`, cut to `lo..=hi`.
pub open spec fn within(x: int, lo: int, hi: int) -> int {
    if x < lo {
        lo
    } else if x > hi {
        hi
    } else {
        x
    }
}

/// `x`, cut to `lo..=hi`.
fn cut(x: i64, lo: i64, hi: i64) -> (r: i64)
    ensures
        r == within(x as int, lo as int, hi as int),
{
    if x < lo {
        lo
    } else if x > hi {
        hi
    } else {
        x
    }
}

impl Panorama {
    /// How wide the band is.
    pub open spec fn full(self) -> int {
        self.band_hi - self.band_lo
    }

    /// How wide the view is.
    pub open spec fn span(self) -> int {
        self.f_hi - self.f_lo
    }

    /// A view that can be navigated out of: nothing wider than the band, nothing
    /// narrower than the zoom limit, nothing hanging off either end.
    pub open spec fn wf(self) -> bool {
        &&& self.full() > 0
        &&& self.band_lo <= self.f_lo
        &&& self.f_hi <= self.band_hi
        &&& self.span() >= (if MIN_SPAN_HZ < self.full() { MIN_SPAN_HZ as int } else { self.full() })
    }

    /// The view that begins at `lo` and is `span` wide, moved into the band.
    pub open spec fn placed(self, lo: int, span: int) -> Panorama {
        let at = within(lo, self.band_lo as int, self.band_hi - span);
        Panorama { f_lo: at as i32, f_hi: (at + span) as i32, ..self }
    }

    /// The whole band.
    pub open spec fn whole(self) -> Panorama {
        Panorama { f_lo: self.band_lo, f_hi: self.band_hi, ..self }
    }

    /// The view that is asked for, fitted to the band; the whole band where what
    /// is asked for is no view.
    pub open spec fn fitted(self, want: Option<(MilliHz, MilliHz)>) -> Panorama {
        match want {
            Some((lo, hi)) if hi > lo => {
                let least = if MIN_SPAN_HZ < self.full() { MIN_SPAN_HZ as int } else { self.full() };
                self.placed(lo as int, within(hi - lo, least, self.full()))
            },
            _ => self.whole(),
        }
    }

    /// Take the view that begins at `lo` and is `span` wide, moved into the
    /// band.
    fn place(&mut self, lo: i64, span: i64)
        requires
            0 <= span <= old(self).full(),
        ensures
            *final(self) == old(self).placed(lo as int, span as int),
    {
        let at: i64 = cut(lo, self.band_lo as i64, self.band_hi as i64 - span);
        self.f_lo = at as i32;
        self.f_hi = (at + span) as i32;
    }

    /// A view of the whole of a band.
    pub fn of_band(lo: MilliHz, hi: MilliHz) -> (p: Panorama)
        requires
            lo < hi,
        ensures
            p.wf(),
            p == (Panorama { band_lo: lo, band_hi: hi, f_lo: lo, f_hi: hi }),
    {
        Panorama { band_lo: lo, band_hi: hi, f_lo: lo, f_hi: hi }
    }

    /// Point the view at `want`, fitted to the band.
    ///
    /// Every restored view goes through here, so that no settings file can
    /// reopen the window somewhere it cannot be navigated out of.
    pub fn set_view(&mut self, want: Option<(MilliHz, MilliHz)>)
        requires
            old(self).full() > 0,
        ensures
            *final(self) == old(self).fitted(want),
            final(self).wf(),
    {
        let full: i64 = self.band_hi as i64 - self.band_lo as i64;
        if let Some((lo, hi)) = want {
            if hi > lo {
                let least: i64 = if (MIN_SPAN_HZ as i64) < full {
                    MIN_SPAN_HZ as i64
                } else {
                    full
                };
                let span: i64 = cut(hi as i64 - lo as i64, least, full);
                self.place(lo as i64, span);
                return;
            }
        }
        self.f_lo = self.band_lo;
        self.f_hi = self.band_hi;
    }

    /// How wide the view is after a zoom by `factor` out of [`ONE`].
    pub open spec fn zoomed_span(self, factor: int) -> int {
        within(self.span() * factor / ONE as int, MIN_SPAN_HZ as int, self.full())
    }

    /// Where the view begins after a zoom, before it is moved into the band: the
    /// focus keeps its place on the window.
    pub open spec fn zoomed_lo(self, focus: int, span: int) -> int {
        focus - (focus - self.f_lo) * span / self.span()
    }

    /// Zoom about `focus` by `factor` out of [`ONE`].
    pub fn zoom(&mut self, focus: MilliHz, factor: u32)
        requires
            old(self).wf(),
            old(self).full() >= MIN_SPAN_HZ,
        ensures
            ({
                let span = old(self).zoomed_span(factor as int);
                *final(self) == old(self).placed(old(self).zoomed_lo(focus as int, span), span)
            }),
            final(self).wf(),
    {
        let now: i64 = self.f_hi as i64 - self.f_lo as i64;
        let full: i64 = self.band_hi as i64 - self.band_lo as i64;
        assert(0 <= now * factor <= 0x1_0000_0000 * 0xffff_ffff) by (nonlinear_arith)
            requires
                0 <= now <= 0x1_0000_0000,
                0 <= factor <= 0xffff_ffff,
        ;
        let wide: i128 = now as i128 * factor as i128 / 1_000_000;
        let span: i64 = cut(wide as i64, MIN_SPAN_HZ as i64, full);
        let from: i64 = focus as i64 - self.f_lo as i64;
        assert(-0x1_0000_0000 * 0x1_0000_0000 <= from * span <= 0x1_0000_0000 * 0x1_0000_0000) by (nonlinear_arith)
            requires
                -0x1_0000_0000 <= from <= 0x1_0000_0000,
                0 <= span <= 0x1_0000_0000,
        ;
        let moved: i128 = crate::view::floor_div(from as i128 * span as i128, now as i128);
        proof {
            let x = from * span;
            vstd::arithmetic::div_mod::lemma_fundamental_div_mod(x, now as int);
            assert(-0x2_0000_0000_0000_0000 <= moved <= 0x2_0000_0000_0000_0000) by (nonlinear_arith)
                requires
                    -0x1_0000_0000 * 0x1_0000_0000 <= x <= 0x1_0000_0000 * 0x1_0000_0000,
                    now >= 1,
                    moved == x / now as int,
            ;
        }
        self.place_near(focus as i128 - moved, span);
    }

    /// Move the view by `dhz`, as far as the band goes.
    pub fn pan_hz(&mut self, dhz: i64)
        requires
            old(self).wf(),
        ensures
            *final(self) == old(self).placed(old(self).f_lo + dhz, old(self).span()),
            final(self).wf(),
            final(self).span() == old(self).span(),
    {
        let span: i64 = self.f_hi as i64 - self.f_lo as i64;
        self.place_near(self.f_lo as i128 + dhz as i128, span);
    }

    /// Center the view on `hz`, as far as the band goes, keeping the zoom.
    pub fn center_on(&mut self, hz: i64)
        requires
            old(self).wf(),
        ensures
            *final(self) == old(self).placed(hz - old(self).span() / 2, old(self).span()),
            final(self).wf(),
            final(self).span() == old(self).span(),
    {
        let span: i64 = self.f_hi as i64 - self.f_lo as i64;
        self.place_near(hz as i128 - span as i128 / 2, span);
    }

    /// Take the view that begins as near to `lo` as the band goes and is `span`
    /// wide. Far outside of the band is as good as just outside of it.
    fn place_near(&mut self, lo: i128, span: i64)
        requires
            0 <= span <= old(self).full(),
        ensures
            *final(self) == old(self).placed(lo as int, span as int),
    {
        let near: i64 = if lo < self.band_lo as i128 {
            self.band_lo as i64
        } else if lo > self.band_hi as i128 - span as i128 {
            self.band_hi as i64 - span
        } else {
            lo as i64
        };
        self.place(near, span);
    }
}

/// Division that rounds down.
pub(crate) fn floor_div(a: i128, d: i128) -> (q: i128)
    requires
        d > 0,
        -0x1_0000_0000_0000_0000_0000_0000 <= a <= 0x1_0000_0000_0000_0000_0000_0000,
    ensures
        q == a as int / d as int,
{
    if a >= 0 {
        a / d
    } else {
        let back: i128 = -(a + 1);
        proof {
            let n = back as int;
            let m = d as int;
            vstd::arithmetic::div_mod::lemma_fundamental_div_mod(n, m);
            let qn = n / m;
            let r = n % m;
            assert(a == (-qn - 1) * m + (m - 1 - r)) by (nonlinear_arith)
                requires
                    a == -n - 1,
                    n == m * qn + r,
            ;
            vstd::arithmetic::div_mod::lemma_fundamental_div_mod_converse(a as int, m, -qn - 1, m - 1 - r);
        }
        -(back / d) - 1
    }
}

/// A zoom keeps what it is aimed at in view.
pub proof fn a_zoom_keeps_its_focus_in_view(p: Panorama, focus: int, factor: int)
    requires
        p.wf(),
        p.full() >= MIN_SPAN_HZ,
        p.f_lo <= focus <= p.f_hi,
        factor >= 0,
    ensures
        ({
            let span = p.zoomed_span(factor);
            let q = p.placed(p.zoomed_lo(focus, span), span);
            q.f_lo <= focus <= q.f_hi
        }),
{
    let span = p.zoomed_span(factor);
    let now = p.span();
    let x = (focus - p.f_lo) * span;
    assert(0 <= x / now <= span) by (nonlinear_arith)
        requires
            x == (focus - p.f_lo) * span,
            0 <= focus - p.f_lo <= now,
            now > 0,
            span >= 0,
    ;
}

/// Clamp a wanted waterfall width so that both panels stay usable in a window
/// this wide.
///
/// The minimums cannot always both be honoured, so the waterfall's wins and the
/// text panel takes what is left.
pub fn clamp_waterfall_w(window_w: i64, strip_w: i64, want: i64) -> (w: i64)
    requires
        0 <= window_w <= 0xffff_ffff_ffff,
        0 <= strip_w <= 0xffff_ffff_ffff,
    ensures
        ({
            let room = window_w - strip_w - MIN_TEXT_W;
            w == within(
                want as int,
                MIN_WATERFALL_W as int,
                if room > MIN_WATERFALL_W { room } else { MIN_WATERFALL_W as int },
            )
        }),
{
    let room: i64 = window_w - strip_w - MIN_TEXT_W;
    let most: i64 = if room > MIN_WATERFALL_W {
        room
    } else {
        MIN_WATERFALL_W
    };
    cut(want, MIN_WATERFALL_W, most)
}

/// The round tick spacings there are.
pub const STEPS: [MilliHz; 9] = [
    5_000,
    10_000,
    20_000,
    50_000,
    100_000,
    200_000,
    500_000,
    1_000_000,
    2_000_000,
];

/// A round tick spacing for a view so wide, aiming for roughly six labels: the
/// smallest that needs no more than six, or the largest there is.
pub fn tick_step(span: MilliHz) -> (step: MilliHz)
    ensures
        exists|i: int| 0 <= i < 9 && step == #[trigger] STEPS[i],
        6 * step >= span || step == 2_000_000,
        forall|i: int| 0 <= i < 9 && #[trigger] STEPS[i] < step ==> 6 * STEPS[i] < span,
{
    let mut i: usize = 0;
    while i < 8 && (STEPS[i] as i64) * 6 < span as i64
        invariant
            0 <= i <= 8,
            forall|j: int| 0 <= j < i ==> 6 * #[trigger] STEPS[j] < span,
        decreases 8 - i,
    {
        i += 1;
    }
    assert forall|j: int| 0 <= j < 9 && #[trigger] STEPS[j] < STEPS[i as int] implies 6 * STEPS[j] < span by {
        assert(j < i) by {
            assert(j == 0 || j == 1 || j == 2 || j == 3 || j == 4 || j == 5 || j == 6 || j == 7 || j == 8);
            assert(i == 0 || i == 1 || i == 2 || i == 3 || i == 4 || i == 5 || i == 6 || i == 7 || i == 8);
        }
    }
    STEPS[i]
}

impl Panorama {
    /// Whether a frequency is in view, the edges included.
    pub fn shows(&self, hz: MilliHz) -> (r: bool)
        ensures
            r == (self.f_lo <= hz <= self.f_hi),
    {
        self.f_lo <= hz && hz <= self.f_hi
    }
}

} // verus!
