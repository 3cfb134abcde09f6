//! What holds of the PSK stations that are tracked: each that a scan heard has one
//! receiver, on its own carrier and from where it began, and each that no scan
//! hears any more is let go of.

use crate::continuous::{
    aged, feedable, feeds, fed_up_to, group_of, grouped, needed_from, needs, openings, sample_at, scan_applied,
    start_of, step_for, tracked_as, with_groups, Continuous, Group, Heard, Station,
};
use crate::find::{first_where_found, sifted_is_kept, sifted_was_there};
use crate::modes::{Decode, MilliHz, ModeId, Protocol};
use crate::reporting_laws::on_the_carrier;
use vstd::prelude::*;

verus! {

/// Whether two carriers of a mode lie less than half its symbol rate apart.
pub open spec fn one_carrier(mode: ModeId, a: MilliHz, b: MilliHz) -> bool {
    2 * (a - b) < mode.baud && 2 * (b - a) < mode.baud
}

/// No two groups are of one mode and one carrier.
pub open spec fn groups_apart(groups: Seq<Group>) -> bool {
    forall|i: int, j: int|
        0 <= i < j < groups.len() && (#[trigger] groups[i]).mode == (#[trigger] groups[j]).mode ==> !one_carrier(
            groups[i].mode,
            groups[i].hz,
            groups[j].hz,
        )
}

/// The stations that a scan tells apart are apart: of one mode, no two of them lie
/// within half its symbol rate of each other.
pub proof fn stations_told_apart_are_apart(found: Seq<Decode>)
    ensures
        groups_apart(grouped(found)),
    decreases found.len(),
{
    if found.len() > 0 {
        stations_told_apart_are_apart(found.drop_last());
        let front = grouped(found.drop_last());
        let d = found.last();
        let p = |g: Group| crate::continuous::same_carrier(g.mode, g.hz, d.mode, d.hz);
        first_where_found(front, p);
        let all = grouped(found);
        assert forall|i: int, j: int|
            0 <= i < j < all.len() && (#[trigger] all[i]).mode == (#[trigger] all[j]).mode implies !one_carrier(
            all[i].mode,
            all[i].hz,
            all[j].hz,
        ) by {
            if j == front.len() {
                assert(!p(front[i]));
            } else {
                assert(front[i].mode == front[j].mode && all[i].hz == front[i].hz && all[j].hz == front[j].hz);
            }
        }
    }
}

/// Whether `g` stands for the station that `d` is of: on its carrier, no later
/// than it and no worse.
pub open spec fn stands_for(g: Group, d: Decode) -> bool {
    &&& g.mode == d.mode
    &&& one_carrier(d.mode, g.hz, d.hz)
    &&& g.first_t <= d.time_s
    &&& g.quality >= d.quality
}

/// Every PSK character of a scan is of one of the stations that the scan tells
/// apart, and that one is taken to have begun no later and to be heard no worse.
pub proof fn every_character_is_of_a_station(found: Seq<Decode>, k: int) -> (i: int)
    requires
        0 <= k < found.len(),
        found[k].mode.protocol == Protocol::Psk,
        found[k].mode.baud > 0,
    ensures
        0 <= i < grouped(found).len(),
        stands_for(grouped(found)[i], found[k]),
    decreases found.len(),
{
    let front = grouped(found.drop_last());
    let d = found.last();
    let p = |g: Group| crate::continuous::same_carrier(g.mode, g.hz, d.mode, d.hz);
    first_where_found(front, p);
    if k == found.len() - 1 {
        let i = group_of(front, d);
        assert(stands_for(grouped(found)[i], d));
        i
    } else {
        let i = every_character_is_of_a_station(found.drop_last(), k);
        assert(stands_for(grouped(found)[i], found[k]));
        i
    }
}

/// Whether `g` was made of nothing but what was found: its carrier, its beginning
/// and its quality are each those of a PSK character of it, the last two on the
/// same carrier.
pub open spec fn was_found(g: Group, found: Seq<Decode>) -> bool {
    &&& exists|j: int|
        0 <= j < found.len() && (#[trigger] found[j]).mode == g.mode && found[j].hz == g.hz && g.mode.protocol
            == Protocol::Psk
    &&& exists|j: int|
        0 <= j < found.len() && (#[trigger] found[j]).mode == g.mode && found[j].time_s == g.first_t && (found[j].hz
            == g.hz || one_carrier(g.mode, g.hz, found[j].hz))
    &&& exists|j: int|
        0 <= j < found.len() && (#[trigger] found[j]).mode == g.mode && found[j].quality == g.quality && (found[j].hz
            == g.hz || one_carrier(g.mode, g.hz, found[j].hz))
}

/// A scan makes up no station: each has the carrier of a character that was found,
/// began with one, and is as good as one.
pub proof fn no_station_is_made_up(found: Seq<Decode>, i: int)
    requires
        0 <= i < grouped(found).len(),
    ensures
        was_found(grouped(found)[i], found),
    decreases found.len(),
{
    let less = found.drop_last();
    let front = grouped(less);
    let d = found.last();
    let p = |g: Group| crate::continuous::same_carrier(g.mode, g.hz, d.mode, d.hz);
    first_where_found(front, p);
    assert(found[found.len() - 1] == d);
    let g = grouped(found)[i];
    if i < front.len() {
        no_station_is_made_up(less, i);
        let f = front[i];
        let a = choose|j: int|
            0 <= j < less.len() && (#[trigger] less[j]).mode == f.mode && less[j].hz == f.hz && f.mode.protocol
                == Protocol::Psk;
        let b = choose|j: int|
            0 <= j < less.len() && (#[trigger] less[j]).mode == f.mode && less[j].time_s == f.first_t && (less[j].hz
                == f.hz || one_carrier(f.mode, f.hz, less[j].hz));
        let c = choose|j: int|
            0 <= j < less.len() && (#[trigger] less[j]).mode == f.mode && less[j].quality == f.quality && (less[j].hz
                == f.hz || one_carrier(f.mode, f.hz, less[j].hz));
        assert(found[a] == less[a] && found[b] == less[b] && found[c] == less[c]);
        if g.first_t != f.first_t {
            assert(found[found.len() - 1].time_s == g.first_t);
        }
        if g.quality != f.quality {
            assert(found[found.len() - 1].quality == g.quality);
        }
    }
}

/// Whether a station is tracked for `g`: on its carrier, as good, and confirmed.
pub open spec fn tracked_for(s: Station, g: Group) -> bool {
    s.mode == g.mode && s.hz == g.hz && s.quality == g.quality && s.missed == 0
}

proof fn each_group_has_its_station(stations: Seq<Station>, groups: Seq<Group>, next: int, at: int, live: int, j: int)
    requires
        groups_apart(groups),
        0 <= j < groups.len(),
    ensures
        exists|i: int|
            0 <= i < with_groups(stations, groups, next, at, live).len() && tracked_for(
                #[trigger] with_groups(stations, groups, next, at, live)[i],
                groups[j],
            ),
    decreases groups.len(),
{
    let less = groups.drop_last();
    let before = with_groups(stations, less, next, at, live);
    let g = groups.last();
    let p = |s: Station| crate::continuous::same_carrier(s.mode, s.hz, g.mode, g.hz);
    first_where_found(before, p);
    let k = tracked_as(before, g);
    let after = with_groups(stations, groups, next, at, live);
    if j == groups.len() - 1 {
        assert(tracked_for(after[k], groups[j]));
    } else {
        assert(groups_apart(less)) by {
            assert forall|a: int, b: int|
                0 <= a < b < less.len() && (#[trigger] less[a]).mode == (#[trigger] less[b]).mode implies !one_carrier(
                less[a].mode,
                less[a].hz,
                less[b].hz,
            ) by {
                assert(groups[a] == less[a] && groups[b] == less[b]);
            }
        }
        each_group_has_its_station(stations, less, next, at, live, j);
        let i = choose|i: int| 0 <= i < before.len() && tracked_for(#[trigger] before[i], less[j]);
        assert(less[j] == groups[j]);
        if i == k {
            assert(groups[j].mode == groups[groups.len() - 1].mode);
        }
        assert(tracked_for(after[i], groups[j]));
    }
}

/// Every PSK character that a scan found is of a station that is tracked once the
/// scan has been taken in: one of its mode, less than half its symbol rate off,
/// that counts as confirmed and is heard no worse than the character.
pub proof fn every_station_heard_is_tracked<S>(before: Continuous<S>, after: Continuous<S>, found: Seq<Decode>, k: int)
    requires
        after.stations@ == with_groups(
            aged(before.stations@),
            grouped(found),
            before.next_station as int,
            before.at as int,
            before.live(),
        ),
        0 <= k < found.len(),
        found[k].mode.protocol == Protocol::Psk,
        found[k].mode.baud > 0,
    ensures
        exists|i: int|
            0 <= i < after.stations@.len() && on_the_carrier(#[trigger] after.stations@[i], found[k])
                && after.stations@[i].missed == 0 && after.stations@[i].quality >= found[k].quality,
{
    let j = every_character_is_of_a_station(found, k);
    stations_told_apart_are_apart(found);
    each_group_has_its_station(
        aged(before.stations@),
        grouped(found),
        before.next_station as int,
        before.at as int,
        before.live(),
        j,
    );
    let i = choose|i: int|
        0 <= i < after.stations@.len() && tracked_for(#[trigger] after.stations@[i], grouped(found)[j]);
    assert(on_the_carrier(after.stations@[i], found[k]));
}

/// Stations apart are tracked apart: two PSK characters whose carriers lie a symbol
/// rate apart or more, or whose modes differ, are never of one station, so that
/// what was heard of each is tracked under an id of its own.
pub proof fn stations_apart_are_tracked_apart<S>(
    before: Continuous<S>,
    after: Continuous<S>,
    found: Seq<Decode>,
    k: int,
    m: int,
)
    requires
        after.wf(),
        after.stations@ == with_groups(
            aged(before.stations@),
            grouped(found),
            before.next_station as int,
            before.at as int,
            before.live(),
        ),
        0 <= k < found.len(),
        0 <= m < found.len(),
        found[k].mode.protocol == Protocol::Psk,
        found[m].mode.protocol == Protocol::Psk,
        found[k].mode.baud > 0,
        found[m].mode.baud > 0,
        found[k].mode != found[m].mode || found[k].hz - found[m].hz >= found[k].mode.baud,
    ensures
        exists|i: int, j: int|
            0 <= i < after.stations@.len() && 0 <= j < after.stations@.len() && on_the_carrier(
                #[trigger] after.stations@[i],
                found[k],
            ) && on_the_carrier(#[trigger] after.stations@[j], found[m]) && after.stations@[i].id
                != after.stations@[j].id,
        forall|i: int|
            0 <= i < after.stations@.len() && on_the_carrier(#[trigger] after.stations@[i], found[k])
                ==> !on_the_carrier(after.stations@[i], found[m]),
{
    every_station_heard_is_tracked(before, after, found, k);
    every_station_heard_is_tracked(before, after, found, m);
    let i = choose|i: int|
        0 <= i < after.stations@.len() && on_the_carrier(#[trigger] after.stations@[i], found[k])
            && after.stations@[i].missed == 0 && after.stations@[i].quality >= found[k].quality;
    let j = choose|j: int|
        0 <= j < after.stations@.len() && on_the_carrier(#[trigger] after.stations@[j], found[m])
            && after.stations@[j].missed == 0 && after.stations@[j].quality >= found[m].quality;
    assert(i != j);
    if i < j {
        assert(after.stations@[i].id < after.stations@[j].id);
    } else {
        assert(after.stations@[j].id < after.stations@[i].id);
    }
}

proof fn a_station_no_group_is_on_stays(
    stations: Seq<Station>,
    groups: Seq<Group>,
    next: int,
    at: int,
    live: int,
    i: int,
)
    requires
        0 <= i < stations.len(),
        forall|j: int|
            0 <= j < groups.len() ==> (#[trigger] groups[j]).mode != stations[i].mode || !one_carrier(
                groups[j].mode,
                stations[i].hz,
                groups[j].hz,
            ),
    ensures
        with_groups(stations, groups, next, at, live).len() >= stations.len(),
        with_groups(stations, groups, next, at, live)[i] == stations[i],
    decreases groups.len(),
{
    if groups.len() > 0 {
        let less = groups.drop_last();
        assert forall|j: int| 0 <= j < less.len() implies (#[trigger] less[j]).mode != stations[i].mode
            || !one_carrier(less[j].mode, stations[i].hz, less[j].hz) by {
            assert(groups[j] == less[j]);
        }
        a_station_no_group_is_on_stays(stations, less, next, at, live, i);
        let before = with_groups(stations, less, next, at, live);
        let g = groups.last();
        let p = |s: Station| crate::continuous::same_carrier(s.mode, s.hz, g.mode, g.hz);
        first_where_found(before, p);
        assert(groups[groups.len() - 1] == g);
        assert(!p(before[i]));
    }
}

/// A station that a scan heard nothing of has been missed once more, and is
/// otherwise as it was.
pub proof fn a_station_not_heard_is_missed<S>(before: Continuous<S>, after: Continuous<S>, found: Seq<Decode>, i: int)
    requires
        before.wf(),
        before.settled(),
        after.stations@ == with_groups(
            aged(before.stations@),
            grouped(found),
            before.next_station as int,
            before.at as int,
            before.live(),
        ),
        0 <= i < before.stations@.len(),
        forall|k: int|
            0 <= k < found.len() && (#[trigger] found[k]).mode.protocol == Protocol::Psk ==> !on_the_carrier(
                before.stations@[i],
                found[k],
            ),
    ensures
        after.stations@.len() >= before.stations@.len(),
        after.stations@[i].missed == before.stations@[i].missed + 1,
        after.stations@[i] == (Station { missed: after.stations@[i].missed, ..before.stations@[i] }),
{
    let groups = grouped(found);
    let was = aged(before.stations@);
    assert(before.stations@[i].missed <= 2);
    assert forall|j: int| 0 <= j < groups.len() implies (#[trigger] groups[j]).mode != was[i].mode || !one_carrier(
        groups[j].mode,
        was[i].hz,
        groups[j].hz,
    ) by {
        no_station_is_made_up(found, j);
        let k = choose|k: int|
            0 <= k < found.len() && (#[trigger] found[k]).mode == groups[j].mode && found[k].hz == groups[j].hz
                && groups[j].mode.protocol == Protocol::Psk;
        assert(!on_the_carrier(before.stations@[i], found[k]));
    }
    a_station_no_group_is_on_stays(
        was,
        groups,
        before.next_station as int,
        before.at as int,
        before.live(),
        i,
    );
}

proof fn openings_are_the_new_stations(
    stations: Seq<Station>,
    groups: Seq<Group>,
    next: int,
    at: int,
    live: int,
    k: int,
)
    requires
        0 <= k < openings(stations, groups, next, at, live).len(),
        0 <= at <= live,
        forall|j: int| 0 <= j < groups.len() ==> live + (#[trigger] groups[j]).mode.lock_samples <= usize::MAX,
        0 <= next,
        next + groups.len() <= u64::MAX,
    ensures
        ({
            let all = with_groups(stations, groups, next, at, live);
            let o = openings(stations, groups, next, at, live)[k];
            &&& all.len() == stations.len() + openings(stations, groups, next, at, live).len()
            &&& openings(stations, groups, next, at, live).len() <= groups.len()
            &&& all[stations.len() + k].id == next + k
            &&& o.station == next + k
            &&& o.mode == all[stations.len() + k].mode
            &&& at <= o.start <= live
            &&& all[stations.len() + k].covered_from == o.start + o.mode.lock_samples
            &&& all[stations.len() + k].fed_to == live
            &&& exists|j: int|
                0 <= j < groups.len() && (#[trigger] groups[j]).mode == o.mode && groups[j].hz == o.hz && (o.start
                    == at || o.start * 1_000 <= groups[j].first_t) && (o.start == live || (o.start + 1) * 1_000
                    > groups[j].first_t)
        }),
    decreases groups.len(),
{
    let less = groups.drop_last();
    let before = with_groups(stations, less, next, at, live);
    let front = openings(stations, less, next, at, live);
    let g = groups.last();
    let p = |s: Station| crate::continuous::same_carrier(s.mode, s.hz, g.mode, g.hz);
    first_where_found(before, p);
    assert forall|j: int| 0 <= j < less.len() implies live + (#[trigger] less[j]).mode.lock_samples <= usize::MAX by {
        assert(groups[j] == less[j]);
    }
    counts_agree(stations, less, next, at, live);
    assert(groups[groups.len() - 1] == g);
    if k < front.len() {
        openings_are_the_new_stations(stations, less, next, at, live, k);
        let o = front[k];
        let j = choose|j: int|
            0 <= j < less.len() && (#[trigger] less[j]).mode == o.mode && less[j].hz == o.hz && (o.start == at
                || o.start * 1_000 <= less[j].first_t) && (o.start == live || (o.start + 1) * 1_000
                > less[j].first_t);
        assert(groups[j] == less[j]);
        assert(openings(stations, groups, next, at, live)[k] == o);
    } else {
        let o = openings(stations, groups, next, at, live)[k];
        let t = sample_at(g.first_t);
        assert(o.start == start_of(g, at, live));
        assert(groups[groups.len() - 1].hz == o.hz);
    }
}

proof fn counts_agree(stations: Seq<Station>, groups: Seq<Group>, next: int, at: int, live: int)
    ensures
        with_groups(stations, groups, next, at, live).len() == stations.len() + openings(
            stations,
            groups,
            next,
            at,
            live,
        ).len(),
        openings(stations, groups, next, at, live).len() <= groups.len(),
    decreases groups.len(),
{
    if groups.len() > 0 {
        counts_agree(stations, groups.drop_last(), next, at, live);
        let before = with_groups(stations, groups.drop_last(), next, at, live);
        let g = groups.last();
        let p = |s: Station| crate::continuous::same_carrier(s.mode, s.hz, g.mode, g.hz);
        first_where_found(before, p);
    }
}

/// A receiver is opened for each station that a scan heard and that was not
/// tracked: under an id of its own, on the audio from where the station was first
/// heard as far as that is held, with the say from where it has a carrier, and
/// with everything held to be fed to it.
pub proof fn a_receiver_opens_where_its_station_began<S>(before: Continuous<S>, found: Seq<Decode>, k: int)
    requires
        before.next_station + grouped(found).len() <= u64::MAX,
        forall|i: int|
            0 <= i < found.len() ==> before.live() + (#[trigger] found[i]).mode.lock_samples <= usize::MAX,
        0 <= k < openings(
            aged(before.stations@),
            grouped(found),
            before.next_station as int,
            before.at as int,
            before.live(),
        ).len(),
    ensures
        ({
            let n = before.stations@.len();
            let was = aged(before.stations@);
            let o = openings(was, grouped(found), before.next_station as int, before.at as int, before.live())[k];
            let s = with_groups(was, grouped(found), before.next_station as int, before.at as int, before.live())[n
                + k];
            &&& s.id == before.next_station + k
            &&& o.station == s.id
            &&& o.mode == s.mode
            &&& before.at <= o.start <= before.live()
            &&& s.covered_from == o.start + o.mode.lock_samples
            &&& s.fed_to == before.live()
            &&& exists|j: int|
                0 <= j < found.len() && (#[trigger] found[j]).mode == o.mode && (found[j].hz == o.hz || one_carrier(
                    o.mode,
                    o.hz,
                    found[j].hz,
                )) && (o.start == before.at || o.start * 1_000 <= found[j].time_s) && (o.start == before.live() || (
                o.start + 1) * 1_000 > found[j].time_s)
        }),
{
    let was = aged(before.stations@);
    let groups = grouped(found);
    assert forall|j: int| 0 <= j < groups.len() implies before.live() + (#[trigger] groups[j]).mode.lock_samples
        <= usize::MAX by {
        no_station_is_made_up(found, j);
        let i = choose|i: int|
            0 <= i < found.len() && (#[trigger] found[i]).mode == groups[j].mode && found[i].hz == groups[j].hz
                && groups[j].mode.protocol == Protocol::Psk;
        assert(before.live() + found[i].mode.lock_samples <= usize::MAX);
    }
    openings_are_the_new_stations(was, groups, before.next_station as int, before.at as int, before.live(), k);
    let o = openings(was, groups, before.next_station as int, before.at as int, before.live())[k];
    let j = choose|j: int|
        0 <= j < groups.len() && (#[trigger] groups[j]).mode == o.mode && groups[j].hz == o.hz && (o.start
            == before.at || o.start * 1_000 <= groups[j].first_t) && (o.start == before.live() || (o.start + 1) * 1_000
            > groups[j].first_t);
    no_station_is_made_up(found, j);
    let i = choose|i: int|
        0 <= i < found.len() && (#[trigger] found[i]).mode == groups[j].mode && found[i].time_s == groups[j].first_t
            && (found[i].hz == groups[j].hz || one_carrier(groups[j].mode, groups[j].hz, found[i].hz));
    assert(found[i].mode == o.mode);
}

/// A station is let go of at its third miss in a row and not before: folding a
/// scan in keeps those missed no more than twice, and none besides.
pub proof fn a_third_miss_closes_a_station<S>(
    before: Continuous<S>,
    after: Continuous<S>,
    found: Seq<Decode>,
    caught: Seq<Heard>,
    report: Seq<Decode>,
    s: Station,
)
    requires
        scan_applied(before, after, found, caught, report),
    ensures
        after.stations@.contains(s) <==> before.stations@.contains(s) && s.missed < 3,
{
    let p = |s: Station| s.missed <= crate::continuous::MISSES_BEFORE_CLOSE;
    if before.stations@.contains(s) && p(s) {
        sifted_is_kept(before.stations@, p, s);
    }
    if after.stations@.contains(s) {
        let i = choose|i: int| 0 <= i < after.stations@.len() && after.stations@[i] == s;
        sifted_was_there(before.stations@, p, i);
    }
}

/// A station's receiver is fed where it lacks audio that is still held, from where
/// it stopped; one that lacks audio that has gone is let go of, and no other is.
pub proof fn receivers_are_fed_from_where_they_stopped(stations: Seq<Station>, at: int, end: usize, s: Station)
    requires
        stations.contains(s),
    ensures
        s.fed_to < at ==> !feedable(stations, at).contains(s),
        s.fed_to >= at ==> feedable(stations, at).contains(s),
        at <= s.fed_to < end ==> feeds(feedable(stations, at), end).contains((s.id, s.fed_to)),
{
    let held = |s: Station| s.fed_to >= at;
    let short = |s: Station| s.fed_to < end;
    let kept = stations.filter(held);
    if held(s) {
        sifted_is_kept(stations, held, s);
        if short(s) {
            sifted_is_kept(kept, short, s);
            let i = choose|i: int| 0 <= i < kept.filter(short).len() && kept.filter(short)[i] == s;
            assert(feeds(kept, end)[i] == (s.id, s.fed_to));
        }
    } else if kept.contains(s) {
        let i = choose|i: int| 0 <= i < kept.len() && kept[i] == s;
        sifted_was_there(stations, held, i);
    }
}

/// Taking audio in feeds every receiver that is kept right up to the live edge,
/// and changes nothing else of its station.
pub proof fn every_receiver_is_fed_to_the_edge(stations: Seq<Station>, end: usize, i: int)
    requires
        0 <= i < stations.len(),
        stations[i].fed_to <= end,
    ensures
        fed_up_to(stations, end).len() == stations.len(),
        fed_up_to(stations, end)[i].fed_to == end,
        fed_up_to(stations, end)[i] == (Station { fed_to: end, ..stations[i] }),
{
}

/// What a scan needs in front of it: a mode that is read by the block needs twenty
/// four seconds, and PSK one block of its own.
pub proof fn what_a_mode_needs(m: ModeId)
    ensures
        m.protocol != Protocol::Psk ==> needs(m) == 24 * 12_000,
        m.protocol == Protocol::Psk ==> needs(m) == m.block_samples,
{
}

/// Scans overlap and keep moving: a window never slides by more than half of
/// itself, nor by more than four seconds, and by no less than either allows.
pub proof fn windows_overlap(window: nat)
    ensures
        1 <= step_for(window) <= 4 * 12_000,
        window >= 2 ==> 2 * step_for(window) <= window,
        step_for(window) == 4 * 12_000 || 2 * (step_for(window) + 1) > window,
{
}

/// No more audio is kept than is in use: what is kept starts at the window that a
/// scan due next would look at, at the one that is out, or two windows back.
pub proof fn no_more_audio_is_kept_than_is_in_use(live: int, window: int, next_acq: int, pending: Option<usize>)
    requires
        0 <= window,
        0 <= live,
        0 <= next_acq,
    ensures
        ({
            let from = needed_from(live, window, next_acq, pending);
            &&& from >= 0
            &&& from >= live - 2 * window
            &&& from <= live
            &&& from == 0 || from == live - 2 * window || from == live - window || from == next_acq - window || pending
                == Some(from as usize)
            &&& from > live - 2 * window ==> from <= live - window || from == 0
        }),
{
}

/// The window of a scan ends at its slot and reaches back by the length of a
/// window, or as far as audio is held.
pub proof fn a_scan_looks_back_one_window<S>(c: Continuous<S>)
    requires
        c.wf(),
    ensures
        c.window_start() >= c.at,
        c.slot() - c.window_start() <= c.window,
        c.window_start() == c.at || c.slot() - c.window_start() == c.window,
{
}

/// No receiver is fed what it has had, nor one whose audio has gone: whatever is fed is
/// fed to a station that is kept, from where it stopped, and short of the live edge.
pub proof fn no_receiver_is_fed_twice(stations: Seq<Station>, at: int, end: usize, k: int)
    requires
        0 <= k < feeds(feedable(stations, at), end).len(),
    ensures
        exists|i: int|
            0 <= i < stations.len() && (#[trigger] stations[i]).id == feeds(feedable(stations, at), end)[k].0
                && stations[i].fed_to == feeds(feedable(stations, at), end)[k].1 && at <= stations[i].fed_to < end,
{
    let held = |s: Station| s.fed_to >= at;
    let short = |s: Station| s.fed_to < end;
    let kept = stations.filter(held);
    sifted_was_there(kept, short, k);
    let s = kept.filter(short)[k];
    let j = choose|j: int| 0 <= j < kept.len() && kept[j] == s;
    sifted_was_there(stations, held, j);
    let i = choose|i: int| 0 <= i < stations.len() && stations[i] == s;
    assert(stations[i].id == feeds(feedable(stations, at), end)[k].0);
}

/// Taking audio in and asking for a scan change nothing of what was reported, of what
/// is listened for, or of the ids that stations get.
pub proof fn audio_changes_nothing_reported<S>(now: Continuous<S>, was: Continuous<S>)
    requires
        now.same_but_audio(&was),
    ensures
        now.modes@ == was.modes@ && now.band == was.band,
        now.window == was.window && now.least == was.least && now.step == was.step,
        now.next_station == was.next_station,
        now.seen@ == was.seen@ && now.high_water@ == was.high_water@,
{
}

/// Reporting changes nothing of the audio, of when scans are due, or of the stations.
pub proof fn reports_change_nothing_else<S>(now: Continuous<S>, was: Continuous<S>)
    requires
        now.same_but_reports(&was),
    ensures
        now.modes@ == was.modes@ && now.band == was.band,
        now.buf@ == was.buf@ && now.at == was.at,
        now.next_acq == was.next_acq && now.pending == was.pending,
        now.window == was.window && now.least == was.least && now.step == was.step,
        now.stations@ == was.stations@ && now.next_station == was.next_station,
{
}

/// No slot is passed over while it can still be scanned: the next scan falls in the
/// slot that is due, or, where the audio for that has gone, in the first for which
/// there is enough.
pub proof fn no_slot_is_passed_over<S>(c: Continuous<S>)
    requires
        c.wf(),
    ensures
        c.next_acq >= c.at + c.least ==> c.slot() == c.next_acq,
        c.next_acq < c.at + c.least ==> c.at + c.least <= c.slot() < c.at + c.least + c.step,
        (c.slot() - c.next_acq) % c.step as int == 0,
{
    crate::continuous::grid_from_is_first(c.next_acq as int, c.step as int, c.at + c.least, c.least as int);
    assert((c.next_acq - c.next_acq) % c.step as int == 0) by (nonlinear_arith)
        requires
            c.step > 0,
    ;
    crate::continuous::grid_from_is_first(c.next_acq as int, c.step as int, c.at + c.least, c.next_acq as int);
}

/// A station that is tracked keeps its receiver whatever a scan finds: its id, its mode,
/// where its receiver took over, and how far that has been fed.
pub proof fn a_station_keeps_its_receiver(
    stations: Seq<Station>,
    groups: Seq<Group>,
    next: int,
    at: int,
    live: int,
    i: int,
)
    requires
        0 <= i < stations.len(),
    ensures
        ({
            let after = with_groups(stations, groups, next, at, live);
            &&& after.len() >= stations.len()
            &&& after[i].id == stations[i].id
            &&& after[i].mode == stations[i].mode
            &&& after[i].covered_from == stations[i].covered_from
            &&& after[i].fed_to == stations[i].fed_to
        }),
    decreases groups.len(),
{
    if groups.len() > 0 {
        a_station_keeps_its_receiver(stations, groups.drop_last(), next, at, live, i);
        let before = with_groups(stations, groups.drop_last(), next, at, live);
        let g = groups.last();
        first_where_found(before, |s: Station| crate::continuous::same_carrier(s.mode, s.hz, g.mode, g.hz));
    }
}

} // verus!
