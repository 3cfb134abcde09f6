//! What holds of playing a recording.

use crate::channel::extended_keeps;
use crate::channel_laws::protocols_never_share;
use crate::channels::{a_batch_can_be_counted, total_chars, total_chars_grows, SetView};
use crate::modes::{Decode, Ticks};
use crate::find::{sifted_is_kept, sifted_was_there};
use crate::joining_laws::{a_decode_joins_the_nearest_it_could_be, could_be};
use crate::order::{
    in_sequence, no_ties, order_is_settled_by_ties, sorted, sorted_is_stable, sorted_keeps, sorted_was_there, ties,
    ties_add,
};
use crate::playback::{
    by_reveal, chars_in, decodes, framed, heard_by, in_order_has_a_front, no_later, revealed,
    reveal_order_is_an_order, sent_by, shown_at, Frame, CHANNEL_TOL_HZ,
};
use vstd::prelude::*;

verus! {

/// What has been revealed grows by appending as the clock goes forward.
pub proof fn what_is_revealed_only_grows(frames: Seq<Frame>, t: Ticks, later: Ticks)
    requires
        in_sequence(frames, no_later()),
        t <= later,
    ensures
        revealed(frames, t).len() <= revealed(frames, later).len(),
        revealed(frames, t) == revealed(frames, later).take(revealed(frames, t).len() as int),
{
    let n = in_order_has_a_front(frames, t);
    let m = in_order_has_a_front(frames, later);
    if n > m {
        assert(frames[m].reveal_s > later);
        assert(frames[m].reveal_s <= t);
    }
    assert(frames.take(m).take(n) == frames.take(n));
}

/// Taking decodes on in two goes is taking them on in one.
proof fn added_in_turn(s: SetView, a: Seq<Decode>, b: Seq<Decode>)
    ensures
        s.added_all(a + b) == s.added_all(a).added_all(b),
    decreases b.len(),
{
    if b.len() == 0 {
        assert(a + b == a);
    } else {
        added_in_turn(s, a, b.drop_last());
        assert((a + b).drop_last() == a + b.drop_last());
        assert((a + b).last() == b.last());
    }
}

/// A channel keeps its place, its id and its protocol as a set takes a decode
/// on, and has said no less than before.
proof fn a_row_only_grows(s: SetView, d: Decode, i: int)
    requires
        s.wf(),
        s.has_room(d),
        0 <= i < s.channels.len(),
    ensures
        i < s.added(d).channels.len(),
        s.added(d).channels[i].id == s.channels[i].id,
        s.added(d).channels[i].mode.protocol == s.channels[i].mode.protocol,
        s.added(d).channels[i].next_index() >= s.channels[i].next_index(),
{
    protocols_never_share(s, d, i);
    if exists|k: int| s.nearest(k, d) {
        let k = choose|k: int| s.nearest(k, d);
        assert(s.joins(k, d));
        extended_keeps(s.channels[k], d);
    }
}

/// Playing forward only ever adds to a row: a channel on screen keeps its place,
/// its id and its protocol, and has said no less later than before.
pub proof fn playing_forward_only_adds_to_a_row(frames: Seq<Frame>, t: Ticks, later: Ticks, i: int)
    requires
        in_sequence(frames, no_later()),
        frames.len() <= usize::MAX,
        chars_in(frames) <= usize::MAX,
        t <= later,
        0 <= i < heard_by(frames, t).channels.len(),
    ensures
        i < heard_by(frames, later).channels.len(),
        heard_by(frames, later).channels[i].id == heard_by(frames, t).channels[i].id,
        heard_by(frames, later).channels[i].mode.protocol == heard_by(frames, t).channels[i].mode.protocol,
        heard_by(frames, later).channels[i].next_index() >= heard_by(frames, t).channels[i].next_index(),
{
    let n = in_order_has_a_front(frames, t);
    let m = in_order_has_a_front(frames, later);
    if n > m {
        assert(frames[m].reveal_s > later);
    }
    let ds = decodes(frames);
    assert(decodes(frames.take(n)) == ds.take(n));
    assert(decodes(frames.take(m)) == ds.take(m));
    rows_grow(ds, n, m, i);
}

proof fn rows_grow(ds: Seq<Decode>, n: int, m: int, i: int)
    requires
        0 <= n <= m <= ds.len() <= usize::MAX,
        total_chars(ds) <= usize::MAX,
        0 <= i < SetView::empty(CHANNEL_TOL_HZ).added_all(ds.take(n)).channels.len(),
    ensures
        ({
            let a = SetView::empty(CHANNEL_TOL_HZ).added_all(ds.take(n));
            let b = SetView::empty(CHANNEL_TOL_HZ).added_all(ds.take(m));
            &&& i < b.channels.len()
            &&& b.channels[i].id == a.channels[i].id
            &&& b.channels[i].mode.protocol == a.channels[i].mode.protocol
            &&& b.channels[i].next_index() >= a.channels[i].next_index()
        }),
    decreases m - n,
{
    if n < m {
        rows_grow(ds, n, m - 1, i);
        let s = SetView::empty(CHANNEL_TOL_HZ).added_all(ds.take(m - 1));
        total_chars_grows(ds, m);
        assert(ds.take(m).drop_last() == ds.take(m - 1));
        a_batch_can_be_counted(CHANNEL_TOL_HZ, ds.take(m - 1));
        assert(s.has_room(ds[m - 1]));
        a_row_only_grows(s, ds[m - 1], i);
    }
}

/// The clock put forward in two steps shows what it shows put forward in one:
/// the newly revealed decodes are taken on after all the others.
pub proof fn the_newly_revealed_come_last(frames: Seq<Frame>, t: Ticks, later: Ticks)
    requires
        in_sequence(frames, no_later()),
        t <= later,
    ensures
        heard_by(frames, later) == heard_by(frames, t).added_all(
            decodes(revealed(frames, later).skip(revealed(frames, t).len() as int)),
        ),
{
    what_is_revealed_only_grows(frames, t, later);
    let a = revealed(frames, t);
    let b = revealed(frames, later);
    let rest = b.skip(a.len() as int);
    assert(decodes(b) == decodes(a) + decodes(rest));
    added_in_turn(SetView::empty(CHANNEL_TOL_HZ), decodes(a), decodes(rest));
}

/// The scans of two modes may land in either order: the frames come out the
/// same, and so do the channels.
pub proof fn scans_may_land_in_any_order(before: Seq<Frame>, a: Seq<Frame>, b: Seq<Frame>)
    requires
        forall|i: int, j: int|
            0 <= i < a.len() && 0 <= j < b.len() ==> (#[trigger] a[i]).decode.mode.rank != (
            #[trigger] b[j]).decode.mode.rank,
    ensures
        by_reveal(by_reveal(before + a) + b) == by_reveal(by_reveal(before + b) + a),
{
    let le = no_later();
    reveal_order_is_an_order();
    let x = by_reveal(before + a) + b;
    let y = by_reveal(before + b) + a;
    sorted_is_stable(before + a, le);
    sorted_is_stable(before + b, le);
    sorted_is_stable(x, le);
    sorted_is_stable(y, le);
    assert forall|t: Frame| #[trigger] ties(sorted(x, le), t, le) == ties(sorted(y, le), t, le) by {
        ties_add(by_reveal(before + a), b, t, le);
        ties_add(by_reveal(before + b), a, t, le);
        ties_add(before, a, t, le);
        ties_add(before, b, t, le);
        assert(ties(by_reveal(before + a), t, le) == ties(before + a, t, le));
        assert(ties(by_reveal(before + b), t, le) == ties(before + b, t, le));
        assert(ties(sorted(x, le), t, le) == ties(x, t, le));
        assert(ties(sorted(y, le), t, le) == ties(y, t, le));
        if forall|i: int| 0 <= i < a.len() ==> !(le(#[trigger] a[i], t) && le(t, a[i])) {
            no_ties(a, t, le);
            assert(ties(a, t, le) == Seq::<Frame>::empty());
        } else {
            let i = choose|i: int| 0 <= i < a.len() && le(#[trigger] a[i], t) && le(t, a[i]);
            assert forall|j: int| 0 <= j < b.len() implies !(le(#[trigger] b[j], t) && le(t, b[j])) by {
                assert(a[i].decode.mode.rank != b[j].decode.mode.rank);
            }
            no_ties(b, t, le);
            assert(ties(b, t, le) == Seq::<Frame>::empty());
        }
        assert(ties(before, t, le) + ties(a, t, le) + ties(b, t, le) == ties(before, t, le) + ties(b, t, le)
            + ties(a, t, le));
    }
    order_is_settled_by_ties(sorted(x, le), sorted(y, le), le);
}

/// A decode shows from the moment the last of it has been sent, and not before:
/// its time and the air time that one decode of its mode covers.
pub proof fn a_decode_shows_once_it_has_been_sent(d: Decode, f: Frame, frames: Seq<Frame>, t: Ticks)
    requires
        f.decode == d,
        f.reveal_s == sent_by(d),
        frames.contains(f),
    ensures
        revealed(frames, t).contains(f) <==> d.time_s + d.mode.chunk <= t,
{
    if f.reveal_s <= t {
        sifted_is_kept(frames, shown_at(t), f);
    }
    if revealed(frames, t).contains(f) {
        let i = choose|i: int| 0 <= i < revealed(frames, t).len() && revealed(frames, t)[i] == f;
        sifted_was_there(frames, shown_at(t), i);
    }
}

/// Nothing shows that was not decoded.
pub proof fn only_what_was_decoded_shows(frames: Seq<Frame>, t: Ticks, i: int)
    requires
        0 <= i < revealed(frames, t).len(),
    ensures
        frames.contains(revealed(frames, t)[i]),
        revealed(frames, t)[i].reveal_s <= t,
{
    sifted_was_there(frames, shown_at(t), i);
}

/// Frames are put in the order in which they finished, those that finished
/// together in the order in which they began, and those that did both together by
/// carrier from the bottom up. None is lost and none is made.
pub proof fn frames_are_in_the_order_they_finished(frames: Seq<Frame>, f: Frame, i: int, j: int)
    requires
        0 <= i < j < by_reveal(frames).len(),
    ensures
        ({
            let (a, b) = (by_reveal(frames)[i], by_reveal(frames)[j]);
            &&& a.reveal_s <= b.reveal_s
            &&& a.reveal_s == b.reveal_s ==> a.decode.time_s <= b.decode.time_s
            &&& a.reveal_s == b.reveal_s && a.decode.time_s == b.decode.time_s ==> a.decode.hz <= b.decode.hz
            &&& a.reveal_s == b.reveal_s && a.decode.time_s == b.decode.time_s && a.decode.hz == b.decode.hz
                ==> a.decode.mode.rank <= b.decode.mode.rank
        }),
        by_reveal(frames).len() == frames.len(),
        by_reveal(frames).contains(f) <==> frames.contains(f),
{
    reveal_order_is_an_order();
    sorted_is_stable(frames, no_later());
    assert(no_later()(by_reveal(frames)[i], by_reveal(frames)[j]));
    if frames.contains(f) {
        sorted_keeps(frames, no_later(), f);
    }
    if by_reveal(frames).contains(f) {
        let k = choose|k: int| 0 <= k < by_reveal(frames).len() && by_reveal(frames)[k] == f;
        sorted_was_there(frames, no_later(), k);
    }
}

/// Decodes become frames one for one, each to be shown once it has been sent.
pub proof fn each_decode_becomes_a_frame(ds: Seq<Decode>, i: int)
    requires
        0 <= i < ds.len(),
        ds[i].time_s + ds[i].mode.chunk <= i64::MAX,
    ensures
        framed(ds).len() == ds.len(),
        framed(ds)[i].decode == ds[i],
        framed(ds)[i].reveal_s == ds[i].time_s + ds[i].mode.chunk,
        decodes(framed(ds)) == ds,
{
}

/// Played back, a station that drifts no more than fifteen hertz between two
/// decodes stays on one row: where the channels shown hold one of its protocol so
/// near, the next decode opens no other.
pub proof fn a_drifting_station_stays_on_its_row(frames: Seq<Frame>, t: Ticks, d: Decode, i: int)
    requires
        0 <= i < heard_by(frames, t).channels.len(),
        heard_by(frames, t).channels[i].mode.protocol == d.mode.protocol,
        -15_000 <= heard_by(frames, t).channels[i].hz - d.hz <= 15_000,
    ensures
        heard_by(frames, t).added(d).channels.len() == heard_by(frames, t).channels.len(),
{
    let s = heard_by(frames, t);
    added_keeps_tolerance(SetView::empty(CHANNEL_TOL_HZ), decodes(revealed(frames, t)));
    assert(could_be(s, i, d));
    a_decode_joins_the_nearest_it_could_be(s, d, i);
}

proof fn added_keeps_tolerance(s: SetView, ds: Seq<Decode>)
    ensures
        s.added_all(ds).tol_hz == s.tol_hz,
    decreases ds.len(),
{
    if ds.len() > 0 {
        added_keeps_tolerance(s, ds.drop_last());
    }
}

/// What has not been sent yet shows nowhere: a frame that is still to come changes
/// nothing of the channels, and where all are still to come there are none.
pub proof fn what_is_still_to_come_does_not_show(frames: Seq<Frame>, f: Frame, t: Ticks)
    requires
        f.reveal_s > t,
    ensures
        heard_by(frames.push(f), t) == heard_by(frames, t),
        (forall|i: int| 0 <= i < frames.len() ==> (#[trigger] frames[i]).reveal_s > t) ==> heard_by(
            frames,
            t,
        ).channels.len() == 0,
{
    reveal(Seq::filter);
    assert(frames.push(f).drop_last() == frames);
    assert(!shown_at(t)(f));
    assert(revealed(frames.push(f), t) == revealed(frames, t));
    if forall|i: int| 0 <= i < frames.len() ==> (#[trigger] frames[i]).reveal_s > t {
        if revealed(frames, t).len() > 0 {
            sifted_was_there(frames, shown_at(t), 0);
        }
        assert(decodes(revealed(frames, t)) == Seq::<Decode>::empty());
    }
}

/// What has just been sent shows: a frame that comes last and is due is taken on last.
pub proof fn what_has_been_sent_shows(frames: Seq<Frame>, f: Frame, t: Ticks)
    requires
        f.reveal_s <= t,
    ensures
        heard_by(frames.push(f), t) == heard_by(frames, t).added(f.decode),
{
    reveal(Seq::filter);
    assert(frames.push(f).drop_last() == frames);
    assert(shown_at(t)(f));
    let ds = decodes(revealed(frames, t));
    assert(decodes(revealed(frames.push(f), t)) == ds.push(f.decode));
    assert(ds.push(f.decode).drop_last() == ds);
}

} // verus!
