//! What holds of the channels between them: which one a decode joins, when a new
//! one is opened, and which are left when text is forgotten.

use crate::channel::ChannelView;
use crate::channels::{by_time, earlier, forgotten, SetView};
use crate::modes::{hz_apart, Decode, Ticks};
use crate::order::{sorted_is_stable, sorted_keeps, sorted_was_there};
use vstd::prelude::*;

verus! {

/// How far a decode lies from the carrier of a channel.
pub open spec fn off_by(c: ChannelView, d: Decode) -> int {
    if c.hz < d.hz {
        d.hz - c.hz
    } else {
        c.hz - d.hz
    }
}

/// Whether a decode may be of the station that channel `i` follows: one of the
/// same protocol, no further off than the set allows or than the mode does.
pub open spec fn could_be(s: SetView, i: int, d: Decode) -> bool {
    &&& 0 <= i < s.channels.len()
    &&& s.channels[i].mode.protocol == d.mode.protocol
    &&& off_by(s.channels[i], d) <= s.tol_hz || off_by(s.channels[i], d) <= d.mode.assoc_tol
}

proof fn could_be_is_joining(s: SetView, i: int, d: Decode)
    ensures
        could_be(s, i, d) <==> s.joins(i, d),
{
}

proof fn a_nearest_exists(s: SetView, d: Decode, i: int)
    requires
        s.joins(i, d),
    ensures
        exists|k: int| s.nearest(k, d),
    decreases hz_apart(s.channels[i].hz, d.hz), i,
{
    if !s.nearest(i, d) {
        let j = choose|j: int| #[trigger]
            s.joins(j, d) && (hz_apart(s.channels[i].hz, d.hz) > hz_apart(s.channels[j].hz, d.hz) || (j < i && hz_apart(
                s.channels[i].hz,
                d.hz,
            ) >= hz_apart(s.channels[j].hz, d.hz)));
        a_nearest_exists(s, d, j);
    }
}

/// A decode that could be of a station that is being followed opens no new
/// channel: it goes to the nearest it could be of, the first heard of those that
/// are as near, and the rest stay as they are.
pub proof fn a_decode_joins_the_nearest_it_could_be(s: SetView, d: Decode, i: int)
    requires
        could_be(s, i, d),
    ensures
        s.added(d).channels.len() == s.channels.len(),
        s.added(d).next_id == s.next_id,
        exists|k: int| #[trigger]
            could_be(s, k, d) && {
                &&& s.added(d).channels == s.channels.update(k, s.channels[k].extended(d))
                &&& forall|j: int| #[trigger]
                    could_be(s, j, d) ==> off_by(s.channels[k], d) <= off_by(s.channels[j], d)
                &&& forall|j: int|
                    #[trigger] could_be(s, j, d) && off_by(s.channels[k], d) == off_by(s.channels[j], d) ==> k <= j
            },
{
    could_be_is_joining(s, i, d);
    a_nearest_exists(s, d, i);
    let k = choose|k: int| s.nearest(k, d);
    could_be_is_joining(s, k, d);
    assert forall|j: int| #[trigger] could_be(s, j, d) implies off_by(s.channels[k], d) <= off_by(s.channels[j], d) && (
    off_by(s.channels[k], d) == off_by(s.channels[j], d) ==> k <= j) by {
        could_be_is_joining(s, j, d);
    }
    assert(could_be(s, k, d));
}

/// A decode that is too far from every channel of its protocol opens a channel of
/// its own behind them all, under an id that has not been used, and leaves the
/// others as they are.
pub proof fn a_decode_of_no_station_opens_a_channel(s: SetView, d: Decode)
    requires
        forall|i: int| !#[trigger] could_be(s, i, d),
    ensures
        s.added(d).channels == s.channels.push(ChannelView::fresh(s.next_id, d)),
        s.next_id < u64::MAX ==> s.added(d).next_id == s.next_id + 1,
{
    assert forall|i: int| !s.nearest(i, d) by {
        could_be_is_joining(s, i, d);
    }
}

/// Two stations of one protocol that are further apart than the set and the mode
/// allow are followed apart: what one says never shows on the other's channel.
pub proof fn stations_apart_are_followed_apart(s: SetView, d: Decode, i: int)
    requires
        0 <= i < s.channels.len(),
        off_by(s.channels[i], d) > s.tol_hz,
        off_by(s.channels[i], d) > d.mode.assoc_tol,
    ensures
        s.added(d).channels.len() >= s.channels.len(),
        s.added(d).channels[i] == s.channels[i],
{
    if exists|k: int| s.nearest(k, d) {
        let k = choose|k: int| s.nearest(k, d);
        could_be_is_joining(s, k, d);
    }
}

/// A batch is taken on in the order of time: nothing of it before what began
/// earlier, and everything of it.
pub proof fn a_batch_is_taken_on_in_time(ds: Seq<Decode>, d: Decode)
    ensures
        forall|i: int, j: int|
            0 <= i < j < by_time(ds).len() ==> (#[trigger] by_time(ds)[i]).time_s <= (#[trigger] by_time(ds)[j]).time_s,
        by_time(ds).len() == ds.len(),
        by_time(ds).contains(d) <==> ds.contains(d),
{
    sorted_is_stable(ds, earlier());
    assert forall|i: int, j: int| 0 <= i < j < by_time(ds).len() implies (#[trigger] by_time(ds)[i]).time_s <= (
    #[trigger] by_time(ds)[j]).time_s by {
        assert(earlier()(by_time(ds)[i], by_time(ds)[j]));
    }
    if ds.contains(d) {
        sorted_keeps(ds, earlier(), d);
    }
    if by_time(ds).contains(d) {
        let i = choose|i: int| 0 <= i < by_time(ds).len() && by_time(ds)[i] == d;
        sorted_was_there(ds, earlier(), i);
    }
}

/// Each channel is cut at its own instant: without one it stays as it was, and
/// with one it stays, without what is older, for as long as that leaves it
/// anything to show.
pub proof fn each_channel_is_cut_at_its_own_instant(channels: Seq<ChannelView>, cuts: Seq<Option<Ticks>>, i: int)
    requires
        cuts.len() == channels.len(),
        0 <= i < channels.len(),
    ensures
        cuts[i] is None ==> forgotten(channels, cuts).contains(channels[i]),
        cuts[i] is Some && channels[i].forget_before(cuts[i]->0).text.len() > 0 ==> forgotten(channels, cuts).contains(
            channels[i].forget_before(cuts[i]->0),
        ),
    decreases channels.len(),
{
    let all = forgotten(channels, cuts);
    let front = forgotten(channels.drop_last(), cuts.drop_last());
    if i < channels.len() - 1 {
        each_channel_is_cut_at_its_own_instant(channels.drop_last(), cuts.drop_last(), i);
        let x = if cuts[i] is None { channels[i] } else { channels[i].forget_before(cuts[i]->0) };
        if front.contains(x) {
            let k = choose|k: int| 0 <= k < front.len() && front[k] == x;
            assert(all[k] == x);
        }
    } else {
        assert(all.len() == front.len() + 1 ==> all[front.len() as int] == all.last());
    }
}

/// What is left when text is forgotten was there before: each channel that is
/// left is one of those there were, whole or without what is older than its cut.
pub proof fn forgetting_makes_no_channels(channels: Seq<ChannelView>, cuts: Seq<Option<Ticks>>, k: int)
    requires
        cuts.len() == channels.len(),
        0 <= k < forgotten(channels, cuts).len(),
    ensures
        exists|i: int|
            0 <= i < channels.len() && forgotten(channels, cuts)[k] == match #[trigger] cuts[i] {
                None => channels[i],
                Some(at) => channels[i].forget_before(at),
            },
    decreases channels.len(),
{
    let front = forgotten(channels.drop_last(), cuts.drop_last());
    if k < front.len() {
        forgetting_makes_no_channels(channels.drop_last(), cuts.drop_last(), k);
        let i = choose|i: int|
            0 <= i < channels.len() - 1 && front[k] == match #[trigger] cuts.drop_last()[i] {
                None => channels.drop_last()[i],
                Some(at) => channels.drop_last()[i].forget_before(at),
            };
        assert(cuts[i] == cuts.drop_last()[i]);
    } else {
        assert(cuts[channels.len() - 1] == cuts.last());
    }
}

} // verus!
