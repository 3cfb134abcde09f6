//! When the waterfall gains columns and when its picture has to be drawn again.

use crate::modes::{MilliHz, Ticks, SAMPLE};
use vstd::prelude::*;

verus! {

/// Most columns that the rolling spectrogram holds.
pub const MAX_COLS: usize = 12_000;

/// Columns after which the contrast is estimated again.
pub const NORM_COLS: usize = 25;

/// How many spectrogram columns each pixel pools: as many as fit the panel, to
/// the nearest, and at least one.
pub open spec fn pooled(span_cols: nat, px_w: nat) -> nat {
    let w = if px_w == 0 { 1 } else { px_w };
    let n = (2 * span_cols + w) / (2 * w);
    if n == 0 {
        1
    } else {
        n
    }
}

/// The texture's width: the whole pixels in the span, and at least one.
pub open spec fn texture_width(span_cols: nat, px_w: nat) -> nat {
    let n = span_cols / pooled(span_cols, px_w);
    if n == 0 {
        1
    } else {
        n
    }
}

/// How many spectrogram columns each pixel of the waterfall texture pools, and
/// the texture's width, for a panel `px_w` pixels wide showing `span_cols` of
/// history.
///
/// The columns per pixel is an integer on purpose: a scrolled image is only
/// identical to a redrawn one when a new column of data is a whole pixel of
/// travel.
pub fn texture_geometry(span_cols: usize, px_w: usize) -> (g: (usize, usize))
    ensures
        g.0 == pooled(span_cols as nat, px_w as nat),
        g.1 == texture_width(span_cols as nat, px_w as nat),
        g.0 > 0,
        g.1 > 0,
{
    let w: u128 = if px_w == 0 { 1 } else { px_w as u128 };
    let n: u128 = (2 * span_cols as u128 + w) / (2 * w);
    assert(n <= span_cols + 1) by (nonlinear_arith)
        requires
            n == (2 * span_cols + w) / (2 * w),
            w >= 1,
            span_cols >= 0,
    ;
    assert(n <= usize::MAX) by {
        if span_cols == usize::MAX {
            assert(n <= usize::MAX) by (nonlinear_arith)
                requires
                    n == (2 * usize::MAX + w) / (2 * w),
                    w >= 1,
                    usize::MAX >= 1,
            ;
        }
    }
    let per_px: usize = if n == 0 { 1 } else { n as usize };
    let whole: usize = span_cols / per_px;
    (per_px, if whole == 0 { 1 } else { whole })
}

/// The texture divides its span exactly, and what it leaves over of the span is
/// less than a pixel.
pub proof fn the_texture_divides_its_span(span_cols: nat, px_w: nat)
    requires
        span_cols >= 1,
    ensures
        texture_width(span_cols, px_w) * pooled(span_cols, px_w) <= span_cols,
        span_cols < (texture_width(span_cols, px_w) + 1) * pooled(span_cols, px_w),
{
    let p = pooled(span_cols, px_w) as int;
    let n = span_cols as int;
    let w = if px_w == 0 { 1int } else { px_w as int };
    assert((2 * n + w) / (2 * w) <= n) by (nonlinear_arith)
        requires
            n >= 1,
            w >= 1,
    ;
    vstd::arithmetic::div_mod::lemma_fundamental_div_mod(n, p);
    let q = n / p;
    let r = n % p;
    assert(q >= 1) by (nonlinear_arith)
        requires
            n == p * q + r,
            0 <= r < p,
            n >= p,
            p > 0,
    ;
    assert(q * p <= n && n < (q + 1) * p) by (nonlinear_arith)
        requires
            n == p * q + r,
            0 <= r < p,
    ;
}

/// Everything that a pixel of the waterfall depends on but the data and the
/// contrast.
#[derive(Clone, Copy, Debug, PartialEq, Eq, Structural)]
pub struct Key {
    pub tex_w: usize,
    pub px_h: usize,
    /// The edges of the view, in sixteenths of a hertz.
    pub lo_16ths: i64,
    pub hi_16ths: i64,
    pub per_px: usize,
}

/// Whole sixteenths of a hertz in a frequency, towards zero.
pub open spec fn sixteenths(hz: MilliHz) -> int {
    if hz >= 0 {
        hz * 16 / 1000
    } else {
        -((-hz) * 16 / 1000)
    }
}

/// Whole sixteenths of a hertz in a frequency, towards zero.
fn sixteenths_of(hz: MilliHz) -> (n: i64)
    ensures
        n == sixteenths(hz),
{
    let wide: i64 = hz as i64;
    if wide >= 0 {
        wide * 16 / 1000
    } else {
        -((-wide) * 16 / 1000)
    }
}

impl Key {
    /// What the picture of a view `lo..hi` depends on, in a panel of `px_w` by
    /// `px_h` pixels showing `span_cols` of history.
    pub fn new(span_cols: usize, px_w: usize, px_h: usize, lo: MilliHz, hi: MilliHz) -> (k: Key)
        ensures
            k.tex_w == texture_width(span_cols as nat, px_w as nat),
            k.per_px == pooled(span_cols as nat, px_w as nat),
            k.px_h == px_h,
            k.lo_16ths == sixteenths(lo),
            k.hi_16ths == sixteenths(hi),
            k.per_px > 0,
    {
        let (per_px, tex_w) = texture_geometry(span_cols, px_w);
        Key { tex_w, px_h, lo_16ths: sixteenths_of(lo), hi_16ths: sixteenths_of(hi), per_px }
    }
}

/// The contrast bounds.
#[derive(Clone, Copy, Debug, PartialEq, Eq, Structural)]
pub struct Norm {
    pub lo: i32,
    pub hi: i32,
}

/// The picture as it was last drawn.
#[derive(Clone, Copy, Debug, PartialEq, Eq, Structural)]
pub struct Picture {
    /// Whether there is one.
    pub drawn: bool,
    pub key: Key,
    pub norm: Norm,
    /// The column it was drawn up to, counted from the first ever.
    pub col: i64,
}

/// What has to be done to bring the picture up to date.
#[derive(Clone, Copy, Debug, PartialEq, Eq, Structural)]
pub enum Redraw {
    /// Nothing: it is what a redraw would produce.
    Keep,
    /// Scroll it by so many pixels and draw only the new ones.
    Scroll(usize),
    /// Draw it afresh.
    Render,
}

/// The distance between two numbers.
pub open spec fn gap(a: int, b: int) -> int {
    if a >= b {
        a - b
    } else {
        b - a
    }
}

/// Whether the contrast has moved so far that everything already drawn is on the
/// wrong scale: by more than a fiftieth of itself.
pub open spec fn norm_moved(was: Norm, now: Norm) -> bool {
    let scale = gap(was.hi as int, was.lo as int);
    50 * gap(now.lo as int, was.lo as int) > scale || 50 * gap(now.hi as int, was.hi as int) > scale
}

/// The distance between two numbers.
fn gap_of(a: i32, b: i32) -> (d: i64)
    ensures
        d == gap(a as int, b as int),
        0 <= d <= 0xffff_ffff,
{
    if a >= b {
        a as i64 - b as i64
    } else {
        b as i64 - a as i64
    }
}

/// A number of columns, kept to what a counter of them can hold.
pub open spec fn short_of_the_ends(n: int) -> int {
    if n > i64::MAX {
        i64::MAX as int
    } else if n < i64::MIN {
        i64::MIN as int
    } else {
        n
    }
}

impl Picture {
    /// Whether the picture can be gone on from.
    pub open spec fn reusable(self, key: Key, norm: Norm) -> bool {
        self.drawn && self.key == key && !norm_moved(self.norm, norm)
    }

    /// What has to be done to bring the picture up to column `col`.
    pub open spec fn needs(self, key: Key, norm: Norm, col: i64) -> Redraw {
        let advanced = short_of_the_ends(col - self.col);
        if !self.reusable(key, norm) {
            Redraw::Render
        } else if advanced % key.per_px as int != 0 || advanced == 0 {
            Redraw::Keep
        } else if advanced > 0 && (advanced / key.per_px as int) < key.tex_w {
            Redraw::Scroll((advanced / key.per_px as int) as usize)
        } else {
            Redraw::Render
        }
    }

    /// No picture yet: one of no size, up to the floor of what a column can be.
    /// Whatever is asked of it is drawn afresh.
    pub fn nothing() -> (p: Picture)
        ensures
            !p.drawn,
            p.key == (Key { tex_w: 0, px_h: 0, lo_16ths: 0, hi_16ths: 0, per_px: 0 }),
            p.norm == (Norm { lo: 0, hi: 1_000 }),
            p.col == i64::MIN,
            forall|key: Key, norm: Norm, col: i64| #[trigger] p.needs(key, norm, col) == Redraw::Render,
    {
        Picture {
            drawn: false,
            key: Key { tex_w: 0, px_h: 0, lo_16ths: 0, hi_16ths: 0, per_px: 0 },
            norm: Norm { lo: 0, hi: 1_000 },
            col: i64::MIN,
        }
    }

    /// What has to be done to bring the picture up to column `col`.
    ///
    /// The picture is the same picture, moved: it is scrolled by whole pixels as
    /// long as nothing else that a pixel depends on has changed. Not yet a whole
    /// pixel of new data is nothing to draw.
    pub fn plan(&self, key: &Key, norm: &Norm, col: i64) -> (r: Redraw)
        requires
            key.per_px > 0,
        ensures
            r == self.needs(*key, *norm, col),
    {
        let scale: i64 = gap_of(self.norm.hi, self.norm.lo);
        let moved = 50 * gap_of(norm.lo, self.norm.lo) > scale || 50 * gap_of(norm.hi, self.norm.hi) > scale;
        if !self.drawn || self.key != *key || moved {
            return Redraw::Render;
        }
        let per: i128 = key.per_px as i128;
        let exact: i128 = col as i128 - self.col as i128;
        let advanced: i128 = if exact > i64::MAX as i128 {
            i64::MAX as i128
        } else if exact < i64::MIN as i128 {
            i64::MIN as i128
        } else {
            exact
        };
        if advanced == 0 {
            return Redraw::Keep;
        }
        if advanced < 0 {
            let back: i128 = -advanced;
            proof {
                negated_remainder(back as int, per as int);
            }
            return if back % per != 0 { Redraw::Keep } else { Redraw::Render };
        }
        if advanced % per != 0 {
            return Redraw::Keep;
        }
        let shift: i128 = advanced / per;
        if shift < key.tex_w as i128 {
            Redraw::Scroll(shift as usize)
        } else {
            Redraw::Render
        }
    }

    /// Note that the picture has been brought up to column `col`.
    pub fn settle(&mut self, key: Key, norm: Norm, col: i64)
        ensures
            *final(self) == (Picture { drawn: true, key, norm, col }),
    {
        self.drawn = true;
        self.key = key;
        self.norm = norm;
        self.col = col;
    }
}

/// A number is a multiple just where its negative is.
proof fn negated_remainder(n: int, d: int)
    requires
        n > 0,
        d > 0,
    ensures
        (-n) % d != 0 <==> n % d != 0,
{
    vstd::arithmetic::div_mod::lemma_fundamental_div_mod(n, d);
    vstd::arithmetic::div_mod::lemma_fundamental_div_mod(-n, d);
    let a = n / d;
    let b = (-n) / d;
    if n % d == 0 {
        assert(-n == (-a) * d) by (nonlinear_arith)
            requires
                n == d * a,
        ;
        vstd::arithmetic::div_mod::lemma_fundamental_div_mod_converse(-n, d, -a, 0);
    }
    if (-n) % d == 0 {
        assert(n == (-b) * d) by (nonlinear_arith)
            requires
                -n == d * b,
        ;
        vstd::arithmetic::div_mod::lemma_fundamental_div_mod_converse(n, d, -b, 0);
    }
}

/// Columns are not lost while they make up less than a pixel: the picture is
/// kept as it is and not taken for brought up to date, so that they add up to
/// the next pixel, which then scrolls into it.
pub proof fn columns_keep_accumulating(p: Picture, key: Key, norm: Norm, col: i64)
    requires
        p.reusable(key, norm),
        0 <= col - p.col <= key.per_px,
        0 < key.per_px <= i64::MAX,
        key.tex_w > 1,
    ensures
        col - p.col < key.per_px ==> p.needs(key, norm, col) == Redraw::Keep,
        col - p.col == key.per_px ==> p.needs(key, norm, col) == Redraw::Scroll(1),
{
    let per = key.per_px as int;
    if col - p.col == per {
        vstd::arithmetic::div_mod::lemma_fundamental_div_mod_converse(per, per, 1, 0);
    } else {
        vstd::arithmetic::div_mod::lemma_small_mod((col - p.col) as nat, key.per_px as nat);
    }
}

/// The columns of the rolling spectrogram.
#[derive(Clone, Copy, Debug, PartialEq, Eq, Structural)]
pub struct Columns {
    /// The next column to be computed, counted from the first ever.
    pub next_col: u64,
    /// Columns ever computed, including those since dropped. The spectrogram is
    /// capped, so anything tracking progress by its length would freeze.
    pub total: u64,
    /// Columns held.
    pub held: usize,
    /// Columns since the contrast was last estimated.
    pub since_norm: usize,
}

/// What to do to the spectrogram.
#[derive(Clone, Copy, Debug, PartialEq, Eq, Structural)]
pub struct Advance {
    /// The first column to compute.
    pub first: u64,
    /// How many.
    pub count: usize,
    /// How many to drop off the front afterwards.
    pub drop: usize,
    /// Whether to estimate the contrast again.
    pub renorm: bool,
}

/// Where to go on from in a capture whose oldest sample is `start`: where it was
/// left, unless that has been trimmed away.
pub open spec fn resume_at(next_col: int, hop: int, start: int) -> int {
    if next_col * hop < start {
        start / hop + 1
    } else {
        next_col
    }
}

/// How many columns from `first` on are all in by sample `len`.
pub open spec fn complete_cols(first: int, hop: int, window: int, len: int) -> int {
    if first * hop + window > len {
        0
    } else {
        (len - window - first * hop) / hop + 1
    }
}

/// No column is computed twice: where to go on from is never before where it was
/// left, and what has to be passed over has been trimmed away.
pub proof fn columns_go_forward(next_col: int, hop: int, start: int)
    requires
        next_col >= 0,
        hop > 0,
        start >= 0,
    ensures
        resume_at(next_col, hop, start) >= next_col,
        resume_at(next_col, hop, start) * hop >= start,
        resume_at(next_col, hop, start) > next_col ==> next_col * hop < start,
{
    if next_col * hop < start {
        let q = start / hop;
        vstd::arithmetic::div_mod::lemma_fundamental_div_mod(start, hop);
        let r = start % hop;
        assert((q + 1) * hop >= start) by (nonlinear_arith)
            requires
                start == hop * q + r,
                0 <= r < hop,
        ;
        assert(q + 1 >= next_col) by (nonlinear_arith)
            requires
                next_col * hop < start,
                (q + 1) * hop >= start,
                hop > 0,
        ;
    }
}

impl Columns {
    /// No more columns are held than may be, and the contrast is up to date.
    pub open spec fn wf(self) -> bool {
        self.held <= MAX_COLS && self.since_norm < NORM_COLS
    }

    /// Nothing computed yet.
    pub fn new() -> (c: Columns)
        ensures
            c == (Columns { next_col: 0, total: 0, held: 0, since_norm: 0 }),
            c.wf(),
    {
        Columns { next_col: 0, total: 0, held: 0, since_norm: 0 }
    }

    /// Take on the columns that a capture holding samples `start..len` has
    /// completed: each `hop` samples on from the one before, over `window`
    /// samples.
    pub fn tick(&mut self, hop: u64, window: u64, start: u64, len: u64) -> (a: Advance)
        requires
            0 < hop <= 0xffff_ffff,
            0 < window <= 0xffff_ffff,
            start <= len <= 0xffff_ffff_ffff_ff,
            old(self).next_col <= 0xffff_ffff_ffff_ff,
            old(self).total <= 0xffff_ffff_ffff_ff,
            old(self).wf(),
        ensures
            ({
                let first = resume_at(old(self).next_col as int, hop as int, start as int);
                let ripe = complete_cols(first, hop as int, window as int, len as int);
                &&& a.first == first
                &&& a.count == if ripe > MAX_COLS { MAX_COLS + 1 } else { ripe }
            }),
            a.drop == if old(self).held + a.count > MAX_COLS { old(self).held + a.count - MAX_COLS } else { 0 },
            a.renorm <==> old(self).since_norm + a.count >= NORM_COLS,
            final(self).next_col == a.first + a.count,
            final(self).total == old(self).total + a.count,
            final(self).held == old(self).held + a.count - a.drop,
            final(self).since_norm == if a.renorm { 0 } else { old(self).since_norm + a.count },
            final(self).held <= 12_000,
            a.drop > 0 ==> final(self).held == 12_000,
            a.renorm <==> old(self).since_norm + a.count >= 25,
            final(self).wf(),
    {
        assert(0 <= self.next_col * hop <= 0xffff_ffff_ffff_ff * 0xffff_ffff) by (nonlinear_arith)
            requires
                0 <= self.next_col <= 0xffff_ffff_ffff_ff,
                0 < hop <= 0xffff_ffff,
        ;
        let at: u128 = self.next_col as u128 * hop as u128;
        let first: u64 = if at < start as u128 {
            start / hop + 1
        } else {
            self.next_col
        };
        assert(first * hop <= 0xffff_ffff_ffff_ff * 0xffff_ffff * 2) by (nonlinear_arith)
            requires
                0 <= first <= 0xffff_ffff_ffff_ff + 1,
                0 < hop <= 0xffff_ffff,
        ;
        let from: u128 = first as u128 * hop as u128 + window as u128;
        let ripe: u128 = if from > len as u128 {
            0
        } else {
            (len as u128 - from) / hop as u128 + 1
        };
        let count: usize = if ripe > MAX_COLS as u128 {
            MAX_COLS + 1
        } else {
            ripe as usize
        };
        let held: usize = self.held + count;
        let drop: usize = if held > MAX_COLS {
            held - MAX_COLS
        } else {
            0
        };
        let since: usize = self.since_norm + count;
        let renorm = since >= NORM_COLS;
        self.next_col = first + count as u64;
        self.total = self.total + count as u64;
        self.held = held - drop;
        self.since_norm = if renorm { 0 } else { since };
        Advance { first, count, drop, renorm }
    }
}

/// `n` over `d` to the nearest whole number, and of two as near the one further
/// from zero.
pub open spec fn nearest_whole(n: int, d: int) -> int {
    if n >= 0 {
        (2 * n + d) / (2 * d)
    } else {
        -((d - 2 * n) / (2 * d))
    }
}

/// Which pixel of a slider's track shows a time, for a track `track`
/// thousandths of a physical pixel long that stands for `span`: the nearest.
///
/// A thumb that slides through fractional positions appears to change shape as
/// it goes; on the grid it only ever moves. A track or a span too short to have
/// a grid has none, and the time is shown where it is.
pub fn snap_to_pixels(t: Ticks, span: Ticks, track: u32) -> (at: Option<i128>)
    ensures
        at is None <==> span <= 0 || track < 1000,
        at matches Some(k) ==> k == nearest_whole(t * track, 1000 * span),
{
    if span <= 0 || track < 1000 {
        return None;
    }
    let ahead: bool = t >= 0;
    let size: i128 = if ahead {
        t as i128
    } else {
        -(t as i128)
    };
    assert(0 <= size * track <= 0x8000_0000_0000_0000 * 0xffff_ffff) by (nonlinear_arith)
        requires
            0 <= size <= 0x8000_0000_0000_0000,
            0 <= track <= 0xffff_ffff,
    ;
    let each: i128 = 1000 * span as i128;
    let k: i128 = (2 * (size * track as i128) + each) / (2 * each);
    assert(0 <= k <= 2 * (size * track) + each) by (nonlinear_arith)
        requires
            k == (2 * (size * track) + each) / (2 * each),
            size * track >= 0,
            each >= 1000,
    ;
    assert(!ahead ==> t * track == -(size * track) < 0) by (nonlinear_arith)
        requires
            !ahead ==> size == -t && t < 0,
            track >= 1000,
    ;
    if ahead {
        Some(k)
    } else {
        Some(-k)
    }
}

/// A thumb on the grid is no more than half a pixel from where it belongs.
pub proof fn the_nearest_pixel_is_near(t: Ticks, span: Ticks, track: u32)
    requires
        span > 0,
    ensures
        ({
            let k = nearest_whole(t * track, 1000 * span);
            -1000 * span <= 2 * (1000 * (k * span) - t * track) <= 1000 * span
        }),
{
    let n = t * track;
    let k = nearest_whole(n, 1000 * span);
    let d = 2000 * span;
    if n >= 0 {
        vstd::arithmetic::div_mod::lemma_fundamental_div_mod(2 * n + 1000 * span, d);
        assert(d * k == 2000 * (k * span)) by (nonlinear_arith)
            requires
                d == 2000 * span,
        ;
    } else {
        vstd::arithmetic::div_mod::lemma_fundamental_div_mod(1000 * span - 2 * n, d);
        assert(d * -k == -(2000 * (k * span))) by (nonlinear_arith)
            requires
                d == 2000 * span,
        ;
    }
}

/// How many columns, `hop` samples apart, a length of time comes to, to the
/// nearest.
pub fn columns_in(t: Ticks, hop: u32) -> (n: i64)
    requires
        t >= 0,
        hop > 0,
    ensures
        n == (2 * t + SAMPLE * hop) / (2 * (SAMPLE * hop)),
{
    assert(1000 <= SAMPLE * hop <= 1000 * 0xffff_ffff) by (nonlinear_arith)
        requires
            SAMPLE == 1000,
            1 <= hop <= 0xffff_ffff,
    ;
    let each: i128 = SAMPLE as i128 * hop as i128;
    let n: i128 = (2 * t as i128 + each) / (2 * each);
    assert(0 <= n <= t + 1) by (nonlinear_arith)
        requires
            n == (2 * t + each) / (2 * each),
            t >= 0,
            each >= 1000,
    ;
    assert(n <= 0x7fff_ffff_ffff_ffff) by {
        if t == i64::MAX {
            assert(n <= t) by (nonlinear_arith)
                requires
                    n == (2 * t + each) / (2 * each),
                    t >= 2,
                    each >= 1000,
            ;
        }
    }
    n as i64
}

/// Which column the picture ends at, and how far it has travelled. Playing a
/// file, that is where the clock is; live it is the newest column, and the
/// travel counts all there ever were, for the spectrogram is capped and its
/// length stops changing once it is full.
pub fn newest_column(live: bool, held: i64, total: i64, t_now: Ticks, hop: u32) -> (c: (i64, i64))
    requires
        t_now >= 0,
        hop > 0,
    ensures
        c == if live {
            (held, total)
        } else {
            let n = (2 * t_now + SAMPLE * hop) / (2 * (SAMPLE * hop));
            (n as i64, n as i64)
        },
{
    if live {
        (held, total)
    } else {
        let n: i64 = columns_in(t_now, hop);
        (n, n)
    }
}

} // verus!
