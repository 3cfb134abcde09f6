//! What holds of the reports of scans that follow each other.

use crate::channels::{by_time, earlier};
use crate::continuous::{
    all_believed, already_said, are_streamed, block_decodes, grid_from, grid_from_is_first, in_order, offered, psk_decodes, raised_all, repeats,
    said_all, scan_applied, stale, still_said, uncovered, unsaid, Continuous, Heard, Said, Station,
    MISSES_BEFORE_CLOSE,
};
use crate::continuous_laws::{a_decode_repeats_itself, scans_do_not_queue, what_is_passed_on_was_offered};
use crate::find::sifted_is_kept;
use crate::modes::{Decode, Protocol, SAMPLE};
use crate::order::{in_sequence, orders, sorted_is_stable, sorted_was_there};
use vstd::prelude::*;

verus! {

/// What was reported stays reported as more is offered.
proof fn said_stays_said(seen: Seq<Said>, ds: Seq<Decode>, s: Said)
    requires
        ds.len() > 0,
        said_all(seen, ds.drop_last()).contains(s),
    ensures
        said_all(seen, ds).contains(s),
{
    let before = said_all(seen, ds.drop_last());
    let k = choose|k: int| 0 <= k < before.len() && before[k] == s;
    assert(said_all(seen, ds)[k] == s);
}

/// Whatever has been offered is known: something that repeats it was reported.
proof fn what_was_offered_is_known(seen: Seq<Said>, ds: Seq<Decode>, k: int)
    requires
        0 <= k < ds.len(),
        ds[k].mode.bandwidth > 0,
        ds[k].mode.dup_tol > 0,
    ensures
        exists|s: Said| said_all(seen, ds).contains(s) && #[trigger] repeats(s, ds[k]),
    decreases ds.len(),
{
    let front = ds.drop_last();
    let before = said_all(seen, front);
    let said = said_all(seen, ds);
    if k < front.len() {
        assert(front[k] == ds[k]);
        what_was_offered_is_known(seen, front, k);
        let s = choose|s: Said| before.contains(s) && #[trigger] repeats(s, ds[k]);
        said_stays_said(seen, ds, s);
    } else if already_said(before, ds[k]) {
        let i = choose|i: int| 0 <= i < before.len() && repeats(#[trigger] before[i], ds[k]);
        assert(before.contains(before[i]));
        said_stays_said(seen, ds, before[i]);
    } else {
        a_decode_repeats_itself(ds[k]);
        let s = (ds[k].mode, ds[k].hz, ds[k].time_s);
        assert(said[said.len() - 1] == s);
        assert(said.contains(s) && repeats(s, ds[k]));
    }
}

/// Of decodes that are all known nothing is left to report.
proof fn nothing_is_left_of_what_is_known(seen: Seq<Said>, ds: Seq<Decode>)
    requires
        forall|i: int| 0 <= i < ds.len() ==> already_said(seen, #[trigger] ds[i]),
    ensures
        said_all(seen, ds) == seen,
        unsaid(seen, ds) == Seq::<Decode>::empty(),
    decreases ds.len(),
{
    if ds.len() > 0 {
        let front = ds.drop_last();
        assert forall|i: int| 0 <= i < front.len() implies already_said(seen, #[trigger] front[i]) by {
            assert(already_said(seen, ds[i]));
        }
        nothing_is_left_of_what_is_known(seen, front);
        assert(already_said(seen, ds[ds.len() - 1]));
    }
}

/// What is left to report was offered.
proof fn what_is_unsaid_was_offered(seen: Seq<Said>, ds: Seq<Decode>, i: int)
    requires
        0 <= i < unsaid(seen, ds).len(),
    ensures
        ds.contains(unsaid(seen, ds)[i]),
    decreases ds.len(),
{
    let front = ds.drop_last();
    let all = unsaid(seen, ds);
    if i < unsaid(seen, front).len() {
        what_is_unsaid_was_offered(seen, front, i);
        let k = choose|k: int| 0 <= k < front.len() && front[k] == all[i];
        assert(ds[k] == all[i]);
    } else {
        assert(ds[ds.len() - 1] == all[i]);
    }
}

/// What is passed on stays in the order it came in.
pub(crate) proof fn passing_on_keeps_order(high: Seq<crate::continuous::Water>, ds: Seq<Decode>)
    requires
        in_sequence(ds, earlier()),
    ensures
        in_sequence(in_order(high, ds), earlier()),
    decreases ds.len(),
{
    if ds.len() > 0 {
        let front = ds.drop_last();
        assert(in_sequence(front, earlier())) by {
            assert forall|i: int, j: int| 0 <= i < j < front.len() implies earlier()(
                #[trigger] front[i],
                #[trigger] front[j],
            ) by {
                assert(earlier()(ds[i], ds[j]));
            }
        }
        passing_on_keeps_order(high, front);
        let kept = in_order(high, front);
        let all = in_order(high, ds);
        assert forall|i: int, j: int| 0 <= i < j < all.len() implies earlier()(
            #[trigger] all[i],
            #[trigger] all[j],
        ) by {
            if j < kept.len() {
                assert(earlier()(kept[i], kept[j]));
            } else {
                what_is_passed_on_was_offered(high, front, i);
                let k = choose|k: int|
                    0 <= k < front.len() && in_order(high, front)[i] == #[trigger] front[k] && !stale(
                        raised_all(high, front.take(k)),
                        front[k],
                    );
                assert(earlier()(ds[k], ds[ds.len() - 1]));
            }
        }
    }
}

/// What a scan reports is in order of time, and all of it was put up for report.
pub proof fn a_report_is_in_order_of_time(
    seen: Seq<Said>,
    high: Seq<crate::continuous::Water>,
    emit: Seq<Decode>,
)
    ensures
        ({
            let report = in_order(high, by_time(unsaid(seen, emit)));
            &&& in_sequence(report, earlier())
            &&& forall|i: int| 0 <= i < report.len() ==> emit.contains(#[trigger] report[i])
        }),
{
    let fresh = unsaid(seen, emit);
    assert(orders(earlier()));
    sorted_is_stable(fresh, earlier());
    passing_on_keeps_order(high, by_time(fresh));
    let report = in_order(high, by_time(fresh));
    assert forall|i: int| 0 <= i < report.len() implies emit.contains(#[trigger] report[i]) by {
        what_is_passed_on_was_offered(high, by_time(fresh), i);
        let k = choose|k: int|
            0 <= k < by_time(fresh).len() && report[i] == #[trigger] by_time(fresh)[k] && !stale(
                raised_all(high, by_time(fresh).take(k)),
                by_time(fresh)[k],
            );
        sorted_was_there(fresh, earlier(), k);
        let m = choose|m: int| 0 <= m < fresh.len() && fresh[m] == report[i];
        what_is_unsaid_was_offered(seen, emit, m);
    }
}

/// A scan of none but block-decoded modes puts up what it found.
proof fn blocks_are_put_up(found: Seq<Decode>, stations: Seq<Station>)
    requires
        forall|i: int| 0 <= i < found.len() ==> (#[trigger] found[i]).mode.protocol != Protocol::Psk,
    ensures
        block_decodes(found) == found,
        uncovered(found, stations) == Seq::<Decode>::empty(),
    decreases found.len(),
{
    reveal(Seq::filter);
    if found.len() > 0 {
        let front = found.drop_last();
        assert forall|i: int| 0 <= i < front.len() implies (#[trigger] front[i]).mode.protocol != Protocol::Psk by {
            assert(found[i].mode.protocol != Protocol::Psk);
        }
        blocks_are_put_up(front, stations);
        assert(found[found.len() - 1].mode.protocol != Protocol::Psk);
        assert(psk_decodes(found) == psk_decodes(front));
        assert(front.push(found.last()) == found);
    }
}

/// Whether `d` is a block-decoded mode's, and late enough for whatever it could
/// repeat to be remembered. Anything in the audio that `c` holds is, where the
/// tolerance is no longer than the window.
pub open spec fn block_in_the_window<S>(c: Continuous<S>, d: Decode) -> bool {
    &&& d.mode.protocol != Protocol::Psk
    &&& d.mode.bandwidth > 0
    &&& d.mode.dup_tol > 0
    &&& d.time_s - d.mode.dup_tol >= (c.at - c.window) * SAMPLE
}

/// What a scan of block-decoded modes reports is in order of time and made only
/// of what it found, where no receiver had anything to add.
pub proof fn a_scan_reports_what_it_found<S>(
    before: Continuous<S>,
    after: Continuous<S>,
    found: Seq<Decode>,
    report: Seq<Decode>,
)
    requires
        scan_applied(before, after, found, Seq::empty(), report),
        forall|i: int| 0 <= i < found.len() ==> (#[trigger] found[i]).mode.protocol != Protocol::Psk,
    ensures
        in_sequence(report, earlier()),
        forall|i: int| 0 <= i < report.len() ==> found.contains(#[trigger] report[i]),
{
    let stations = before.stations@;
    let raw = choose|raw: Seq<Decode>|
        {
            let emit = offered(found, raw, stations);
            &&& #[trigger] are_streamed(raw, stations, all_believed(stations, Seq::empty(), true))
            &&& after.seen@ == still_said(said_all(before.seen@, emit), before.at as int, before.window as int)
            &&& report == in_order(before.high_water@, by_time(unsaid(before.seen@, emit)))
            &&& after.high_water@ == raised_all(before.high_water@, by_time(unsaid(before.seen@, emit)))
        };
    nobody_heard_is_nothing_read(raw, stations);
    blocks_are_put_up(found, stations);
    assert(offered(found, raw, stations) == found);
    a_report_is_in_order_of_time(before.seen@, before.high_water@, found);
}

proof fn nobody_heard_is_nothing_read(raw: Seq<Decode>, stations: Seq<Station>)
    requires
        are_streamed(raw, stations, all_believed(stations, Seq::empty(), true)),
    ensures
        raw == Seq::<Decode>::empty(),
{
    reveal(Seq::filter);
}

/// Overlapping scans report nothing twice: when the next scan finds again what one
/// before it found of the block-decoded modes, it reports nothing, and tells no
/// channel anything. Whatever is done between the two leaves what was reported as
/// it was. Of the stations, only those gone unconfirmed too long are let go of.
pub proof fn the_same_found_again_is_not_reported_again<S>(
    first: Continuous<S>,
    after: Continuous<S>,
    found: Seq<Decode>,
    caught: Seq<Heard>,
    report: Seq<Decode>,
    next: Continuous<S>,
    end: Continuous<S>,
    again: Seq<Decode>,
)
    requires
        scan_applied(first, after, found, caught, report),
        next.seen@ == after.seen@,
        scan_applied(next, end, found, Seq::empty(), again),
        forall|i: int| 0 <= i < found.len() ==> block_in_the_window(first, #[trigger] found[i]),
    ensures
        again == Seq::<Decode>::empty(),
        end.high_water@ == next.high_water@,
        end.seen@ == still_said(next.seen@, next.at as int, next.window as int),
        end.stations@ == next.stations@.filter(|s: Station| s.missed <= MISSES_BEFORE_CLOSE),
{
    let stations = first.stations@;
    let raw = choose|raw: Seq<Decode>|
        {
            let emit = offered(found, raw, stations);
            &&& #[trigger] are_streamed(raw, stations, all_believed(stations, caught, true))
            &&& after.seen@ == still_said(said_all(first.seen@, emit), first.at as int, first.window as int)
            &&& report == in_order(first.high_water@, by_time(unsaid(first.seen@, emit)))
            &&& after.high_water@ == raised_all(first.high_water@, by_time(unsaid(first.seen@, emit)))
        };
    assert forall|i: int| 0 <= i < found.len() implies (#[trigger] found[i]).mode.protocol != Protocol::Psk by {
        assert(block_in_the_window(first, found[i]));
    }
    blocks_are_put_up(found, stations);
    blocks_are_put_up(found, next.stations@);
    let emit = offered(found, raw, stations);
    assert(emit == found + raw);
    let said = said_all(first.seen@, emit);
    let p = |s: Said| s.2 >= (first.at - first.window) * SAMPLE;
    assert forall|i: int| 0 <= i < found.len() implies already_said(next.seen@, #[trigger] found[i]) by {
        assert(block_in_the_window(first, found[i]));
        assert(emit[i] == found[i]);
        what_was_offered_is_known(first.seen@, emit, i);
        let s = choose|s: Said| said.contains(s) && #[trigger] repeats(s, emit[i]);
        assert(p(s));
        sifted_is_kept(said, p, s);
        let k = choose|k: int| 0 <= k < next.seen@.len() && next.seen@[k] == s;
        assert(repeats(next.seen@[k], found[i]));
    }
    nothing_is_left_of_what_is_known(next.seen@, found);
    let raw2 = choose|raw: Seq<Decode>|
        {
            let emit = offered(found, raw, next.stations@);
            &&& #[trigger] are_streamed(raw, next.stations@, all_believed(next.stations@, Seq::empty(), true))
            &&& end.seen@ == still_said(said_all(next.seen@, emit), next.at as int, next.window as int)
            &&& again == in_order(next.high_water@, by_time(unsaid(next.seen@, emit)))
            &&& end.high_water@ == raised_all(next.high_water@, by_time(unsaid(next.seen@, emit)))
        };
    nobody_heard_is_nothing_read(raw2, next.stations@);
    assert(offered(found, raw2, next.stations@) == found);
    assert(by_time(Seq::<Decode>::empty()) == Seq::<Decode>::empty());
}

/// Whether a decoder that is asked for a scan hands one out.
pub open spec fn hands_out<S>(c: Continuous<S>) -> bool {
    c.pending is None && c.slot() <= c.live()
}

/// Whether asking `before` for a scan leaves `after`.
pub open spec fn asked<S>(before: Continuous<S>, after: Continuous<S>) -> bool {
    &&& after.at == before.at
    &&& after.live() == before.live()
    &&& after.modes@ == before.modes@
    &&& if hands_out(before) {
        &&& after.pending is Some
        &&& after.next_acq == grid_from(before.slot() + before.step, before.step as int, before.live() + 1)
    } else {
        &&& after.pending == before.pending
        &&& after.next_acq == before.slot()
    }
}

/// Whether taking a scan back, or giving it up, turns `before` into `after`.
pub open spec fn taken_back<S>(before: Continuous<S>, after: Continuous<S>) -> bool {
    &&& after.at == before.at
    &&& after.live() == before.live()
    &&& after.modes@ == before.modes@
    &&& after.next_acq == before.next_acq
    &&& after.pending is None
}

/// Scans do not double up: while one is out, and whatever audio is taken in
/// meanwhile, no other is handed out. Taking in audio, reading it, and asking for a
/// scan in vain all leave the one that is out where it is.
pub proof fn scans_do_not_double_up<S>(states: Seq<Continuous<S>>, n: int)
    requires
        0 <= n < states.len(),
        states[0].pending is Some,
        forall|i: int| 0 <= i < states.len() - 1 ==> (#[trigger] states[i + 1]).pending == states[i].pending,
    ensures
        states[n].pending == states[0].pending,
        !hands_out(states[n]),
    decreases n,
{
    if n > 0 {
        scans_do_not_double_up(states, n - 1);
        assert(states[n - 1 + 1].pending == states[n - 1].pending);
    }
}

/// Once a scan has been handed out for the audio there is, none is due.
proof fn none_is_due_again<S>(states: Seq<Continuous<S>>, from: int, n: int)
    requires
        forall|i: int| 0 <= i < states.len() ==> (#[trigger] states[i]).wf(),
        forall|i: int|
            0 <= i < states.len() - 1 ==> asked(states[i], #[trigger] states[i + 1]) || taken_back(
                states[i],
                states[i + 1],
            ),
        0 <= from < n < states.len(),
        hands_out(states[from]),
        asked(states[from], states[from + 1]),
    ensures
        states[n].slot() > states[n].live(),
    decreases n,
{
    if n == from + 1 {
        scans_do_not_queue(states[from], states[n]);
    } else {
        none_is_due_again(states, from, n - 1);
        let (a, b) = (states[n - 1], states[n - 1 + 1]);
        assert(asked(a, b) || taken_back(a, b));
        if b.next_acq == a.slot() {
            grid_from_is_first(a.next_acq as int, a.step as int, a.at + a.least, a.least as int);
        }
        assert(b.slot() == a.slot());
    }
}

/// Scans do not queue: with no more audio, asking and taking back in turn hands out
/// one scan at most, however many came due while one was out.
pub proof fn one_scan_is_owed<S>(states: Seq<Continuous<S>>, i: int, j: int)
    requires
        forall|k: int| 0 <= k < states.len() ==> (#[trigger] states[k]).wf(),
        forall|k: int|
            0 <= k < states.len() - 1 ==> asked(states[k], #[trigger] states[k + 1]) || taken_back(
                states[k],
                states[k + 1],
            ),
        0 <= i < j < states.len(),
        hands_out(states[i]),
        asked(states[i], states[i + 1]),
    ensures
        !hands_out(states[j]),
{
    none_is_due_again(states, i, j);
}

} // verus!
