//! What holds of the rows as they are drawn: how they slide, when one is remarked
//! on, and what their colours tell.

use crate::channel::ChannelView;
use crate::drawing::tail_from;
use crate::find::{first_where, first_where_found, first_where_is, sifted_is_kept, sifted_was_there};
use crate::modes::{ModeId, Protocol, Ticks};
use crate::slides::{slid, slide_for, row_of, Showing, Slide, SlideFrame};
use crate::theme::{color_of, darkened, legible_on, olivia_color, Rgb};
use crate::text::tenths_text;
use crate::watch::{
    fresh_enough, instant, may_speak, note_of, noted, noted_up_to, on_show, remark, remembered,
    said_up_to, speaks, was_once, Remark, RowNow,
    RowSeen, Seen,
};
use vstd::prelude::*;

verus! {

/// Nothing moves at the instant text lands: before any time has gone by, a row that
/// takes on up to sixteen characters is shifted right by just their width, so that
/// what was on it stays where it was.
pub proof fn nothing_moves_as_text_lands(was: Slide, now: Showing, f: SlideFrame)
    requires
        f.decay == 1_000_000,
        was.px >= 0,
        now.chars >= was.chars,
        was.px + (now.chars - was.chars) * f.char_w <= 16 * f.char_w,
        was.px + (now.chars - was.chars) * f.char_w <= f.panel_w,
        was.px + (now.chars - was.chars) * f.char_w >= 500,
    ensures
        slid(Some(was), now, f).px == was.px + (now.chars - was.chars) * f.char_w,
        slid(Some(was), now, f).chars == now.chars,
{
    let debt = was.px + (now.chars - was.chars) * f.char_w;
    if now.chars == was.chars {
        assert((now.chars - was.chars) * f.char_w == 0) by (nonlinear_arith)
            requires
                now.chars == was.chars,
        ;
    }
    assert(debt * 1_000_000 / 1_000_000 == debt);
}

/// A row seen for the first time slides in with its newest decode and no more: what
/// it said before is simply there.
pub proof fn a_new_row_slides_in_its_newest(now: Showing, f: SlideFrame)
    requires
        f.decay == 1_000_000,
        now.last_chunk <= 16,
        now.last_chunk * f.char_w <= f.panel_w,
        now.last_chunk * f.char_w >= 500,
    ensures
        slid(None, now, f).px == now.last_chunk * f.char_w,
{
    let debt = now.last_chunk * f.char_w;
    assert(debt * 1_000_000 / 1_000_000 == debt);
    assert(debt <= 16 * f.char_w) by (nonlinear_arith)
        requires
            debt == now.last_chunk * f.char_w,
            now.last_chunk <= 16,
            f.char_w >= 0,
    ;
}

/// A row that has less text than it had has been cleared, and does not slide.
pub proof fn a_cleared_row_does_not_slide(was: Slide, now: Showing, f: SlideFrame)
    requires
        now.chars < was.chars,
    ensures
        slid(Some(was), now, f).px == 0,
{
    assert(0 * f.decay / 1_000_000 == 0);
}

/// What is owed goes off in the share that time leaves of it, until less than half a
/// pixel is left: then the row is at rest, and a row at rest stays there.
pub proof fn a_slide_dies_away(was: Slide, now: Showing, f: SlideFrame)
    requires
        now.chars == was.chars,
        0 <= was.px <= 16 * f.char_w,
        was.px <= f.panel_w,
        f.decay <= 1_000_000,
    ensures
        ({
            let px = slid(Some(was), now, f).px;
            &&& px == 0 || 500 <= px <= was.px
            &&& px != 0 ==> 1_000_000 * px <= was.px * f.decay < 1_000_000 * (px + 1)
            &&& was.px * f.decay < 500 * 1_000_000 ==> px == 0
            &&& was.px * f.decay >= 500 * 1_000_000 ==> px != 0
        }),
        was.px == 0 ==> slid(Some(was), now, f).px == 0,
{
    let paid = was.px * f.decay / 1_000_000;
    assert(0 <= was.px * f.decay <= was.px * 1_000_000) by (nonlinear_arith)
        requires
            was.px >= 0,
            0 <= f.decay <= 1_000_000,
    ;
    assert(0 <= paid <= was.px);
}

/// A row is followed by its channel: what is held for one is what stands under its
/// id, wherever in the list it stands.
pub proof fn a_slide_is_its_channels(rows: Seq<(u64, Slide)>, i: int)
    requires
        0 <= i < rows.len(),
        forall|j: int, k: int| 0 <= j < k < rows.len() ==> (#[trigger] rows[j]).0 != (#[trigger] rows[k]).0,
    ensures
        slide_for(rows, rows[i].0) == Some(rows[i].1),
{
    let p = row_of(rows[i].0);
    assert forall|j: int| 0 <= j < i implies !p(#[trigger] rows[j]) by {
        assert(rows[j].0 != rows[i].0);
    }
    first_where_is(rows, p, i);
}

/// A row that drew eight characters or more and now draws half of them or fewer has
/// lost text, however long it was away; one that lost less has not.
pub proof fn losing_half_is_losing_text(seen: Seen, rows: Seq<RowNow>, r: RowNow, w: RowSeen, wall: Ticks)
    requires
        remembered(seen, r.id) == Some(w),
    ensures
        remark(seen, rows, r, wall) is Some && remark(seen, rows, r, wall)->0 is LostText <==> w.drawn >= 8 && 2
            * r.drawn <= w.drawn,
        remark(seen, rows, r, wall) matches Some(Remark::LostText { row, drew, had }) ==> row == r && drew == w.drawn
            && had == w.held,
{
}

/// A row that lost nothing is back where it was away for more than half a second,
/// and else there is nothing to say of it.
pub proof fn a_gap_that_shows_is_remarked_on(seen: Seen, rows: Seq<RowNow>, r: RowNow, w: RowSeen, wall: Ticks)
    requires
        remembered(seen, r.id) == Some(w),
        w.drawn < 8 || 2 * r.drawn > w.drawn,
    ensures
        remark(seen, rows, r, wall) is Some <==> wall - w.at > 6_000_000,
        remark(seen, rows, r, wall) matches Some(x) ==> x is Back,
        i64::MIN <= wall - w.at <= i64::MAX ==> (remark(seen, rows, r, wall) matches Some(
            Remark::Back { row, away, drew, had },
        ) ==> away == wall - w.at && row == r && drew == w.drawn && had == w.held),
{
}

/// A row that is not remembered is a station come back just where something is
/// remembered of one of its protocol, no further from it than its mode allows, that
/// is not on show.
pub proof fn a_station_comes_back_under_another_channel(seen: Seen, rows: Seq<RowNow>, r: RowNow, wall: Ticks)
    requires
        remembered(seen, r.id) is None,
    ensures
        remark(seen, rows, r, wall) is Some <==> exists|i: int|
            0 <= i < seen.len() && {
                let n = (#[trigger] seen[i]).1;
                &&& n.mode.protocol == r.mode.protocol
                &&& n.hz - r.hz <= r.mode.assoc_tol && r.hz - n.hz <= r.mode.assoc_tol
                &&& forall|j: int| 0 <= j < rows.len() ==> (#[trigger] rows[j]).id != seen[i].0
            },
        remark(seen, rows, r, wall) matches Some(x) ==> x is Reborn,
{
    let p = was_once(rows, r);
    first_where_found(seen, p);
    let k = first_where(seen, p);
    if k < seen.len() {
        assert(p(seen[k]));
        assert forall|j: int| 0 <= j < rows.len() implies (#[trigger] rows[j]).id != seen[k].0 by {
            if rows[j].id == seen[k].0 {
                assert(on_show(rows, seen[k].0));
            }
        }
    }
    if exists|i: int|
        0 <= i < seen.len() && {
            let n = (#[trigger] seen[i]).1;
            &&& n.mode.protocol == r.mode.protocol
            &&& n.hz - r.hz <= r.mode.assoc_tol && r.hz - n.hz <= r.mode.assoc_tol
            &&& forall|j: int| 0 <= j < rows.len() ==> (#[trigger] rows[j]).id != seen[i].0
        } {
        let i = choose|i: int|
            0 <= i < seen.len() && {
                let n = (#[trigger] seen[i]).1;
                &&& n.mode.protocol == r.mode.protocol
                &&& n.hz - r.hz <= r.mode.assoc_tol && r.hz - n.hz <= r.mode.assoc_tol
                &&& forall|j: int| 0 <= j < rows.len() ==> (#[trigger] rows[j]).id != seen[i].0
            };
        assert(!on_show(rows, seen[i].0));
        assert(p(seen[i]));
        if k > i {
            assert(!p(seen[i]));
        }
    }
}

/// A row is remarked on no more than once a second, and for the first time at once.
pub proof fn a_row_is_given_a_second(w: RowSeen, wall: Ticks)
    ensures
        may_speak(None, wall),
        w.said_at is None ==> may_speak(Some(w), wall),
        w.said_at matches Some(t) ==> (may_speak(Some(w), wall) <==> wall - t >= 12_000_000),
{
}

/// What is remembered of a row is how it was last drawn, and looking at one row
/// changes what is remembered of no other.
pub proof fn a_row_is_remembered_as_it_was_drawn(seen: Seen, rows: Seq<RowNow>, r: RowNow, wall: Ticks, other: u64)
    requires
        other != r.id,
    ensures
        ({
            let now = remembered(noted(seen, rows, r, wall), r.id);
            &&& now is Some
            &&& now->0.hz == r.hz && now->0.mode == r.mode
            &&& now->0.drawn == r.drawn && now->0.held == r.held
            &&& now->0.at == wall
            &&& now->0.said_at == Some(wall) || remembered(seen, r.id) is Some && now->0.said_at == remembered(
                seen,
                r.id,
            )->0.said_at || now->0.said_at is None
            &&& speaks(seen, rows, r, wall) ==> now->0.said_at == Some(wall)
        }),
        remembered(noted(seen, rows, r, wall), other) == remembered(seen, other),
{
    let after = noted(seen, rows, r, wall);
    let p = note_of(r.id);
    let q = note_of(other);
    first_where_found(seen, p);
    let i = first_where(seen, p);
    assert forall|j: int| 0 <= j < i implies !p(#[trigger] after[j]) by {
        assert(after[j] == seen[j]);
    }
    first_where_is(after, p, i);
    first_where_found(seen, q);
    let k = first_where(seen, q);
    if k < seen.len() {
        assert forall|j: int| 0 <= j < k implies !q(#[trigger] after[j]) by {
            if j != i {
                assert(after[j] == seen[j]);
            }
        }
        assert(after[k] == seen[k]);
        first_where_is(after, q, k);
    } else {
        assert forall|j: int| 0 <= j < after.len() implies !q(#[trigger] after[j]) by {
            if j != i {
                assert(after[j] == seen[j]);
            }
        }
        first_where_is(after, q, after.len() as int);
    }
}

/// A row is remembered for two minutes after it was last drawn and no longer.
pub proof fn a_row_is_remembered_for_two_minutes(seen: Seen, wall: Ticks, n: (u64, RowSeen))
    ensures
        seen.filter(fresh_enough(wall)).contains(n) <==> seen.contains(n) && wall - n.1.at <= 1_440_000_000,
{
    let p = fresh_enough(wall);
    if seen.contains(n) && p(n) {
        sifted_is_kept(seen, p, n);
    }
    if seen.filter(p).contains(n) {
        let i = choose|i: int| 0 <= i < seen.filter(p).len() && seen.filter(p)[i] == n;
        sifted_was_there(seen, p, i);
    }
}

/// A row's colour tells its protocol.
pub proof fn a_colour_tells_the_protocol(a: ModeId, b: ModeId)
    requires
        color_of(a) == color_of(b),
    ensures
        a.protocol == b.protocol,
{
}

/// A colour of JS8 tells the length of its cycles, of the three that it has a colour
/// of their own for.
pub proof fn a_colour_tells_the_cycle(a: ModeId, b: ModeId)
    requires
        a.protocol == Protocol::Js8,
        color_of(a) == color_of(b),
        a.period_s == Some(30u32) || a.period_s == Some(15u32) || a.period_s == Some(10u32),
    ensures
        b.period_s == a.period_s,
{
}

/// Colours stay as they were picked on a dark panel, and on a light one each part of
/// them keeps forty-five hundredths of its strength.
pub proof fn a_light_panel_takes_its_share(c: Rgb)
    ensures
        legible_on(true, c) == c,
        100 * legible_on(false, c).r <= 45 * c.r < 100 * (legible_on(false, c).r + 1),
        100 * legible_on(false, c).g <= 45 * c.g < 100 * (legible_on(false, c).g + 1),
        100 * legible_on(false, c).b <= 45 * c.b < 100 * (legible_on(false, c).b + 1),
{
    assert(darkened(c.r) <= 255 && darkened(c.g) <= 255 && darkened(c.b) <= 255);
}

/// A colour of Olivia tells how many tones a mode has and how wide it is, of the six
/// that have a colour of their own.
pub proof fn a_colour_tells_the_tones(tones: int, hz: int, other: int, wide: int)
    requires
        ({
            ||| tones == 4 && hz == 125
            ||| tones == 8 && hz == 250
            ||| tones == 8 && hz == 500
            ||| tones == 16 && hz == 500
            ||| tones == 16 && hz == 1000
            ||| tones == 32 && hz == 1000
        }),
        olivia_color(tones, hz) == olivia_color(other, wide),
    ensures
        tones == other && hz == wide,
{
}

/// A row draws the last of its text: as many characters as fit, or all it has.
pub proof fn a_row_draws_the_last_of_its_text(c: ChannelView, n: usize)
    ensures
        ({
            let drawn = c.next_index() - tail_from(c, n);
            &&& drawn <= n && drawn <= c.text.len()
            &&& drawn == n || drawn == c.text.len()
            &&& tail_from(c, n) >= c.text_dropped
        }),
{
}

/// An instant is written in tenths of a second, and where there is none the word for
/// that is.
pub proof fn an_instant_is_in_tenths_of_a_second(t: Ticks, otherwise: Seq<char>)
    ensures
        instant(Some(t), otherwise) == tenths_text(t as int, 1_200_000) + seq!['s'],
        instant(None, otherwise) == otherwise,
{
    reveal_strlit("s");
    assert("s"@ == seq!['s']);
}

/// A row that lost half of its text or more is remarked on the first time it is drawn
/// so.
pub proof fn a_loss_is_said(seen: Seen, r: RowNow, w: RowSeen, wall: Ticks)
    requires
        remembered(seen, r.id) == Some(w),
        w.drawn >= 8,
        2 * r.drawn <= w.drawn,
        w.said_at is None || wall - w.said_at->0 >= 12_000_000,
    ensures
        said_up_to(seen, seq![r], 1, wall) == seq![Remark::LostText { row: r, drew: w.drawn, had: w.held }],
{
    reveal_with_fuel(said_up_to, 2);
    reveal_with_fuel(noted_up_to, 2);
    assert(noted_up_to(seen, seq![r], 0, wall) == seen);
    assert(said_up_to(seen, seq![r], 0, wall) == Seq::<Remark>::empty());
    assert(seq![r][0] == r);
}

/// A row that gives no cause for it is not remarked on.
pub proof fn a_steady_row_is_not_spoken_of(seen: Seen, r: RowNow, w: RowSeen, wall: Ticks)
    requires
        remembered(seen, r.id) == Some(w),
        w.drawn < 8 || 2 * r.drawn > w.drawn,
        wall - w.at <= 6_000_000,
    ensures
        said_up_to(seen, seq![r], 1, wall).len() == 0,
{
    reveal_with_fuel(said_up_to, 2);
    reveal_with_fuel(noted_up_to, 2);
    assert(noted_up_to(seen, seq![r], 0, wall) == seen);
    assert(seq![r][0] == r);
}

} // verus!
