//! What holds of the continuous-mode decoder whatever it is fed.

use crate::continuous::{
    already_said, believed, covered, grid_from, grid_from_is_first, in_order, needed_from, raised, raised_all,
    repeats, said_all, same_carrier, sample_at, stale, station_at, tracked_as, under, unsaid, with_groups,
    Continuous, Group, Heard, Said, Station, Water, CARRIER_THRESHOLD,
};
use crate::find::{first_where, first_where_found, first_where_is};
use crate::modes::{Decode, SAMPLE};
use vstd::prelude::*;

verus! {

/// What a channel has been told never gets older.
pub proof fn waters_never_sink(high: Seq<Water>, ds: Seq<Decode>, i: int)
    requires
        0 <= i < high.len(),
    ensures
        raised_all(high, ds).len() >= high.len(),
        raised_all(high, ds)[i].2 >= high[i].2,
        raised_all(high, ds)[i].0 == high[i].0,
    decreases ds.len(),
{
    if ds.len() > 0 {
        waters_never_sink(high, ds.drop_last(), i);
        first_where_found(raised_all(high, ds.drop_last()), under(ds.last()));
    }
}

/// A channel is never told about its own past: what is passed on is no older
/// than what its channel was last told, and is then what it was last told.
pub proof fn a_channel_is_never_told_about_its_own_past(high: Seq<Water>, d: Decode)
    requires
        !stale(high, d),
    ensures
        ({
            let i = first_where(high, under(d));
            let j = first_where(raised(high, d), under(d));
            &&& i < high.len() ==> high[i].2 <= d.time_s
            &&& j < raised(high, d).len()
            &&& raised(high, d)[j] == (d.mode, d.hz, d.time_s)
        }),
{
    let p = under(d);
    let i = first_where(high, p);
    first_where_found(high, p);
    let after = raised(high, d);
    if i < high.len() {
        assert(high[i].0 == d.mode);
        assert forall|j: int| 0 <= j < i implies !p(#[trigger] after[j]) by {
            assert(!p(high[j]));
        }
    } else {
        assert forall|j: int| 0 <= j < i implies !p(#[trigger] after[j]) by {
            assert(!p(high[j]));
        }
    }
    assert(p(after[i]));
    first_where_is(after, p, i);
}

/// What is passed on of a batch is what was not stale when its turn came, in
/// the order it came.
pub proof fn what_is_passed_on_was_offered(high: Seq<Water>, ds: Seq<Decode>, i: int)
    requires
        0 <= i < in_order(high, ds).len(),
    ensures
        exists|k: int|
            0 <= k < ds.len() && in_order(high, ds)[i] == #[trigger] ds[k] && !stale(
                raised_all(high, ds.take(k)),
                ds[k],
            ),
    decreases ds.len(),
{
    let front = ds.drop_last();
    if i < in_order(high, front).len() {
        what_is_passed_on_was_offered(high, front, i);
        let k = choose|k: int|
            0 <= k < front.len() && in_order(high, front)[i] == #[trigger] front[k] && !stale(
                raised_all(high, front.take(k)),
                front[k],
            );
        assert(ds.take(k) == front.take(k));
        assert(ds[k] == front[k]);
        assert(in_order(high, ds)[i] == in_order(high, front)[i]);
    } else {
        let k = ds.len() - 1;
        assert(ds.take(k) == front);
        assert(in_order(high, ds)[i] == ds[k]);
    }
}

/// Nothing is reported twice: once a decode has been reported, anything that
/// repeats it is known.
pub proof fn nothing_is_reported_twice(seen: Seq<Said>, ds: Seq<Decode>, d: Decode, again: Decode)
    requires
        !already_said(said_all(seen, ds), d),
        repeats((d.mode, d.hz, d.time_s), again),
    ensures
        already_said(said_all(seen, ds.push(d)), again),
        unsaid(seen, ds.push(d)) == unsaid(seen, ds).push(d),
{
    assert(ds.push(d).drop_last() == ds);
    let said = said_all(seen, ds.push(d));
    assert(said == said_all(seen, ds).push((d.mode, d.hz, d.time_s)));
    assert(said[said.len() - 1] == (d.mode, d.hz, d.time_s));
}

/// A decode repeats itself, in any mode with a width and a tolerance.
pub proof fn a_decode_repeats_itself(d: Decode)
    requires
        d.mode.bandwidth > 0,
        d.mode.dup_tol > 0,
    ensures
        repeats((d.mode, d.hz, d.time_s), d),
{
}

/// Scans fall on a grid that starts where the first can find anything and moves
/// by the step, whatever sizes the audio comes in.
pub proof fn scans_fall_on_a_grid<S>(c: Continuous<S>)
    requires
        c.wf(),
    ensures
        (c.slot() - c.least) % c.step as int == 0,
        c.slot() >= c.at + c.least,
        c.slot() >= c.next_acq,
        c.slot() - c.window_start() >= c.least,
{
    crate::continuous::needs_are_bounded(c.modes@);
    grid_from_is_first(c.next_acq as int, c.step as int, c.at + c.least, c.least as int);
}

/// The size of the pieces that audio comes in moves no scan: two decoders of the
/// same modes that are due the same scan, and have each been asked for it before
/// the one after it, scan the same stretch and are due the same scan next.
pub proof fn the_size_of_a_piece_moves_no_scan<S>(a: Continuous<S>, b: Continuous<S>)
    requires
        a.wf(),
        b.wf(),
        a.modes@ == b.modes@,
        a.next_acq == b.next_acq,
        a.next_acq <= a.live() < a.next_acq + a.step,
        b.next_acq <= b.live() < b.next_acq + b.step,
        a.at == 0 || a.at <= a.next_acq - a.window,
        b.at == 0 || b.at <= b.next_acq - b.window,
    ensures
        a.slot() == b.slot() == a.next_acq,
        a.window_start() == b.window_start(),
        grid_from(a.slot() + a.step, a.step as int, a.live() + 1) == a.next_acq + a.step,
        grid_from(b.slot() + b.step, b.step as int, b.live() + 1) == a.next_acq + a.step,
{
    crate::continuous::needs_are_bounded(a.modes@);
}

/// However long a scan was out, what is owed when it comes back is one scan:
/// once a window has been handed out for the audio there is, no other comes due
/// until there is more.
pub proof fn scans_do_not_queue<S>(before: Continuous<S>, after: Continuous<S>)
    requires
        before.wf(),
        after.wf(),
        after.at == before.at,
        after.live() == before.live(),
        after.step == before.step,
        after.next_acq == grid_from(before.slot() + before.step, before.step as int, before.live() + 1),
    ensures
        after.slot() > after.live(),
{
    grid_from_is_first(after.next_acq as int, after.step as int, after.at + after.least, after.least as int);
    vstd::arithmetic::div_mod::lemma_mod_add_multiples_vanish(before.slot() - before.least, before.step as int);
    grid_from_is_first(before.next_acq as int, before.step as int, before.at + before.least, before.least as int);
    grid_from_is_first(
        before.slot() + before.step,
        before.step as int,
        before.live() + 1,
        before.least as int,
    );
}

/// The audio that a scan is out for is kept until it is two windows old, and so
/// is the window of the scan due next.
pub proof fn audio_in_use_is_kept(live: int, window: int, next_acq: int, pending: Option<usize>)
    requires
        0 <= window,
        0 <= live,
    ensures
        live - needed_from(live, window, next_acq, pending) <= 2 * window,
        pending is Some ==> needed_from(live, window, next_acq, pending) <= pending->0 || needed_from(
            live,
            window,
            next_acq,
            pending,
        ) == live - 2 * window,
        next_acq >= window ==> needed_from(live, window, next_acq, pending) <= next_acq - window || needed_from(
            live,
            window,
            next_acq,
            pending,
        ) == live - 2 * window,
{
}

/// A station as a scan that vouched for it leaves it.
pub open spec fn confirmed_by(s: Station, g: Group) -> bool {
    s.mode == g.mode && s.hz == g.hz && s.quality == g.quality && s.missed == 0
}

/// Every station that a scan vouched for is tracked and confirmed.
pub proof fn a_group_is_tracked(stations: Seq<Station>, groups: Seq<Group>, g: Group, next: int, at: int, live: int)
    ensures
        exists|i: int|
            0 <= i < with_groups(stations, groups.push(g), next, at, live).len() && confirmed_by(
                #[trigger] with_groups(stations, groups.push(g), next, at, live)[i],
                g,
            ),
{
    assert(groups.push(g).drop_last() == groups);
    let before = with_groups(stations, groups, next, at, live);
    let i = tracked_as(before, g);
    first_where_found(before, |s: Station| same_carrier(s.mode, s.hz, g.mode, g.hz));
    let all = with_groups(stations, groups.push(g), next, at, live);
    assert(confirmed_by(all[i], g));
}

/// The block scan and a receiver meet without a gap or a repeat: of one
/// character at one sample, just one of them is believed.
pub proof fn the_handover_is_exact(stations: Seq<Station>, c: Heard, d: Decode)
    requires
        station_at(stations, c.station) < stations.len(),
        first_where(stations, |s: Station| same_carrier(s.mode, s.hz, d.mode, d.hz)) == station_at(
            stations,
            c.station,
        ),
        d.time_s == c.offset * SAMPLE,
        c.carrier >= CARRIER_THRESHOLD,
    ensures
        believed(stations, c, true) <==> covered(stations, d),
{
    assert(sample_at(d.time_s) == c.offset) by (nonlinear_arith)
        requires
            d.time_s == c.offset * 1000,
            sample_at(d.time_s) == if d.time_s < 0 { 0 } else { d.time_s as int / 1000 },
    ;
}

} // verus!
