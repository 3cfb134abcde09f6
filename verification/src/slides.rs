//! How rows slide as text arrives.
//!
//! A row is right-aligned on its newest character, so every character that
//! arrives pushes everything before it to the left. Drawing the row shifted right
//! by what it still owes turns that push into a glide: nothing moves at the
//! instant new text lands, and the row then slides left as the debt is paid off.
//!
//! Distances are whole thousandths of a pixel.

use crate::find::{first_where, first_where_is};
use vstd::prelude::*;

verus! {

/// Most text one arrival may slide in, in characters: more than that is not an
/// arrival but a catch-up, and filled-in history should simply be there.
pub const SLIDE_MAX_CHARS: u32 = 16;

/// What a decay is a fraction of.
pub const WHOLE: u32 = 1_000_000;

/// Below this a row is at rest.
pub const AT_REST: i64 = 500;

/// How far one row still has to travel.
#[derive(Clone, Copy, Debug, PartialEq, Eq, Structural)]
pub struct Slide {
    /// Characters the channel had said when it was last drawn.
    pub chars: usize,
    /// How far the row is still shifted right.
    pub px: i64,
}

/// A channel on show.
#[derive(Clone, Copy, Debug, PartialEq, Eq, Structural)]
pub struct Showing {
    pub id: u64,
    /// Characters it has said in all.
    pub chars: usize,
    /// Characters of its newest decode.
    pub last_chunk: usize,
}

/// The frame that rows are drawn in.
#[derive(Clone, Copy, Debug, PartialEq, Eq, Structural)]
pub struct SlideFrame {
    /// How wide a character is.
    pub char_w: u32,
    /// How wide the panel is.
    pub panel_w: u32,
    /// What is left of a debt after the time since the last frame, out of
    /// [`WHOLE`].
    pub decay: u32,
}

/// What a row owes before any of it is paid off: a character's width for each
/// that it has taken on. A row seen for the first time owes only its newest
/// decode; one with less text than it had has been cleared, which is not
/// something to animate.
pub open spec fn owed(was: Option<Slide>, now: Showing, char_w: int) -> int {
    match was {
        None => now.last_chunk * char_w,
        Some(w) => if now.chars > w.chars {
            w.px + (now.chars - w.chars) * char_w
        } else if now.chars < w.chars {
            0
        } else {
            w.px as int
        },
    }
}

/// The smaller of two.
pub open spec fn less(a: int, b: int) -> int {
    if a <= b {
        a
    } else {
        b
    }
}

/// A row one frame on: what it owes, paid off by the decay, never more than one
/// arrival may slide in and never further right than the panel is wide.
pub open spec fn slid(was: Option<Slide>, now: Showing, f: SlideFrame) -> Slide {
    let paid = owed(was, now, f.char_w as int) * f.decay / WHOLE as int;
    let px = less(less(paid, SLIDE_MAX_CHARS * f.char_w), f.panel_w as int);
    Slide { chars: now.chars, px: (if px < AT_REST { 0 } else { px }) as i64 }
}

/// The rows' slides, one for each channel on show.
pub struct Slides {
    pub rows: Vec<(u64, Slide)>,
}

/// Whether a row is a channel's.
pub open spec fn row_of(id: u64) -> spec_fn((u64, Slide)) -> bool {
    |r: (u64, Slide)| r.0 == id
}

/// The slide that a list holds for a channel.
pub open spec fn slide_for(rows: Seq<(u64, Slide)>, id: u64) -> Option<Slide> {
    let i = first_where(rows, row_of(id));
    if i < rows.len() {
        Some(rows[i].1)
    } else {
        None
    }
}

impl Slides {
    /// No rows.
    pub fn new() -> (s: Slides)
        ensures
            s.rows@.len() == 0,
    {
        Slides { rows: Vec::new() }
    }

    /// The slide of a channel, if it is on show.
    pub fn get(&self, id: u64) -> (s: Option<Slide>)
        ensures
            s == slide_for(self.rows@, id),
    {
        let ghost p = row_of(id);
        let mut i: usize = 0;
        while i < self.rows.len() && self.rows[i].0 != id
            invariant
                0 <= i <= self.rows@.len(),
                p == row_of(id),
                forall|j: int| 0 <= j < i ==> !p(#[trigger] self.rows@[j]),
            decreases self.rows.len() - i,
        {
            i += 1;
        }
        proof {
            first_where_is(self.rows@, p, i as int);
        }
        if i < self.rows.len() {
            Some(self.rows[i].1)
        } else {
            None
        }
    }

    /// Move every row on towards where its newest character belongs. The list is
    /// rebuilt from the channels on show.
    pub fn slide_rows(&mut self, showing: &Vec<Showing>, f: &SlideFrame)
        requires
            f.decay <= WHOLE,
        ensures
            final(self).rows@.len() == showing@.len(),
            forall|i: int|
                0 <= i < showing@.len() ==> #[trigger] final(self).rows@[i] == (
                    showing@[i].id,
                    slid(slide_for(old(self).rows@, showing@[i].id), showing@[i], *f),
                ),
    {
        let mut next: Vec<(u64, Slide)> = Vec::new();
        let mut i: usize = 0;
        while i < showing.len()
            invariant
                0 <= i <= showing@.len(),
                f.decay <= WHOLE,
                self.rows@ == old(self).rows@,
                next@.len() == i,
                forall|j: int|
                    0 <= j < i ==> #[trigger] next@[j] == (
                        showing@[j].id,
                        slid(slide_for(old(self).rows@, showing@[j].id), showing@[j], *f),
                    ),
            decreases showing.len() - i,
        {
            let now = showing[i];
            let was = self.get(now.id);
            next.push((now.id, slide_one(was, now, f)));
            i += 1;
        }
        self.rows = next;
    }
}

/// One row one frame on.
fn slide_one(was: Option<Slide>, now: Showing, f: &SlideFrame) -> (s: Slide)
    requires
        f.decay <= WHOLE,
    ensures
        s == slid(was, now, *f),
{
    let w: i128 = f.char_w as i128;
    let fresh: i128 = match was {
        None => now.last_chunk as i128,
        Some(s) => if now.chars > s.chars {
            (now.chars - s.chars) as i128
        } else {
            0
        },
    };
    let before: i128 = match was {
        None => 0,
        Some(s) => if now.chars < s.chars {
            0
        } else {
            s.px as i128
        },
    };
    assert(0 <= fresh * w <= 0x1_0000_0000_0000_0000_0000_0000) by (nonlinear_arith)
        requires
            0 <= fresh <= 0xffff_ffff_ffff_ffff,
            0 <= w <= 0xffff_ffff,
    ;
    let debt: i128 = before + fresh * w;
    assert(debt == owed(was, now, f.char_w as int)) by {
        assert(0 * w == 0) by (nonlinear_arith);
    }
    assert(-0x1000_0000_0000_0000_0000_0000_0000_0000 < debt * f.decay < 0x1000_0000_0000_0000_0000_0000_0000_0000)
        by (nonlinear_arith)
        requires
            -0x8000_0000_0000_0000 <= debt <= 0x2_0000_0000_0000_0000_0000_0000,
            0 <= f.decay <= 1_000_000,
    ;
    let scaled: i128 = debt * f.decay as i128;
    let paid: i128 = if scaled >= 0 {
        scaled / 1_000_000
    } else {
        // Division rounds towards zero; the sign only matters, since anything
        // below zero is at rest.
        -1
    };
    let most: i128 = (SLIDE_MAX_CHARS as u64 * f.char_w as u64) as i128;
    let mut px: i128 = if paid <= most { paid } else { most };
    if px > f.panel_w as i128 {
        px = f.panel_w as i128;
    }
    if px < AT_REST as i128 {
        px = 0;
    }
    Slide { chars: now.chars, px: px as i64 }
}

/// A row only ever moves left: a character that was on it is drawn no further
/// right than it was, however many have arrived behind it.
pub proof fn a_row_only_moves_left(was: Slide, now: Showing, f: SlideFrame)
    requires
        f.decay <= WHOLE,
        was.px >= 0,
        now.chars >= was.chars,
    ensures
        slid(Some(was), now, f).px - (now.chars - was.chars) * f.char_w <= was.px,
        slid(Some(was), now, f).px >= 0,
{
    let debt = owed(Some(was), now, f.char_w as int);
    assert((now.chars - was.chars) * f.char_w >= 0) by (nonlinear_arith)
        requires
            now.chars >= was.chars,
            f.char_w >= 0,
    ;
    paying_off(debt, f.decay as int);
}

/// Paying off leaves no more than was owed, and nothing below zero.
proof fn paying_off(debt: int, decay: int)
    requires
        debt >= 0,
        0 <= decay <= WHOLE,
    ensures
        0 <= debt * decay / WHOLE as int <= debt,
{
    assert(0 <= debt * decay <= debt * 1_000_000) by (nonlinear_arith)
        requires
            debt >= 0,
            0 <= decay <= 1_000_000,
    ;
}

/// However much arrives at once, a row is never shifted by more than one
/// arrival's worth, nor off its panel.
pub proof fn a_catch_up_stays_on_its_panel(was: Option<Slide>, now: Showing, f: SlideFrame)
    ensures
        0 <= slid(was, now, f).px <= SLIDE_MAX_CHARS * f.char_w || slid(was, now, f).px == 0,
        0 <= slid(was, now, f).px <= f.panel_w || slid(was, now, f).px == 0,
{
}

} // verus!
