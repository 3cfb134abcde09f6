//! What holds of what the continuous decoder reports: nothing that is new on its
//! channel is held back, nothing that was said is said again, and the scan and
//! the receivers each have the say where they should.

use crate::channels::{by_time, earlier};
use crate::continuous::{
    all_believed, already_said, are_streamed, believed, covered, in_order, offered, raised_all, repeats,
    said_all, sample_at, scan_applied, stale, station_at, still_said, under, unsaid, Continuous, Heard, Said, Station,
    Water,
};
use crate::find::{first_where, first_where_found, sifted_is_kept, sifted_was_there};
use crate::modes::{Decode, MilliHz, Protocol};
use crate::order::{sorted_keeps, sorted_was_there};
use vstd::prelude::*;

verus! {

/// Whether two carriers lie no more than `tol` apart.
pub open spec fn within(a: MilliHz, b: MilliHz, tol: int) -> bool {
    a - b <= tol && b - a <= tol
}

/// Whether `w` is what a channel that `d` could be on was last told.
pub open spec fn on_channel(w: Water, d: Decode) -> bool {
    w.0 == d.mode && within(w.1, d.hz, d.mode.assoc_tol as int)
}

/// Whether `s` is so near to `d`, in carrier and in time, that the two are one
/// thing heard twice: less than half the signal's width and less than the mode's
/// tolerance apart.
pub open spec fn heard_twice(s: Said, d: Decode) -> bool {
    &&& s.0 == d.mode
    &&& 2 * (s.1 - d.hz) < d.mode.bandwidth
    &&& 2 * (d.hz - s.1) < d.mode.bandwidth
    &&& s.2 - d.time_s < d.mode.dup_tol
    &&& d.time_s - s.2 < d.mode.dup_tol
}

/// What is noted of a decode that is reported.
pub open spec fn note(d: Decode) -> (crate::modes::ModeId, MilliHz, crate::modes::Ticks) {
    (d.mode, d.hz, d.time_s)
}

/// A decode whose carrier is further than its mode allows from that of every
/// channel of its mode is never held back, however old it is: it is passed on,
/// and is the first thing that a channel of its own has been told. What the other
/// channels were told stays as it was.
pub proof fn a_channel_apart_is_told(high: Seq<Water>, d: Decode)
    requires
        forall|i: int|
            0 <= i < high.len() && (#[trigger] high[i]).0 == d.mode ==> (high[i].1 - d.hz > d.mode.assoc_tol || d.hz
                - high[i].1 > d.mode.assoc_tol),
    ensures
        in_order(high, seq![d]) == seq![d],
        raised_all(high, seq![d]) == high.push((d.mode, d.hz, d.time_s)),
{
    assert(seq![d].drop_last() == Seq::<Decode>::empty());
    assert(in_order(high, Seq::empty()) == Seq::<Decode>::empty());
    assert(raised_all(high, Seq::empty()) == high);
    first_where_found(high, under(d));
    assert(in_order(high, seq![d]) == Seq::<Decode>::empty().push(d));
}

/// Only a decode's own channel can hold it back: where no channel that it could
/// be on has been told of anything later, it is passed on, and its channel has
/// then been told of it.
pub proof fn only_its_own_channel_holds_a_decode_back(high: Seq<Water>, d: Decode)
    requires
        forall|i: int| 0 <= i < high.len() && on_channel(#[trigger] high[i], d) ==> high[i].2 <= d.time_s,
    ensures
        in_order(high, seq![d]) == seq![d],
        raised_all(high, seq![d]).contains(note(d)),
        forall|i: int|
            0 <= i < high.len() && !on_channel(#[trigger] high[i], d) ==> raised_all(high, seq![d])[i] == high[i],
{
    assert(seq![d].drop_last() == Seq::<Decode>::empty());
    assert(in_order(high, Seq::empty()) == Seq::<Decode>::empty());
    assert(raised_all(high, Seq::empty()) == high);
    first_where_found(high, under(d));
    let i = first_where(high, under(d));
    if i < high.len() {
        assert(on_channel(high[i], d));
    }
    assert(raised_all(high, seq![d])[i] == note(d));
    assert(in_order(high, seq![d]) == Seq::<Decode>::empty().push(d));
}

/// A decode from before what its channel was last told is not passed on, and
/// changes nothing of what any channel was told.
pub proof fn a_channels_own_past_is_held_back(high: Seq<Water>, d: Decode, k: int)
    requires
        0 <= k < high.len(),
        on_channel(high[k], d),
        forall|i: int| 0 <= i < high.len() && on_channel(#[trigger] high[i], d) ==> high[i].2 > d.time_s,
    ensures
        in_order(high, seq![d]) == Seq::<Decode>::empty(),
        raised_all(high, seq![d]) == high,
{
    assert(seq![d].drop_last() == Seq::<Decode>::empty());
    assert(in_order(high, Seq::empty()) == Seq::<Decode>::empty());
    assert(raised_all(high, Seq::empty()) == high);
    first_where_found(high, under(d));
    let i = first_where(high, under(d));
    if i > k {
        assert(!under(d)(high[k]));
    }
    assert(on_channel(high[i], d));
}

/// What channels have been told was there before or is out of the batch.
proof fn waters_come_from_somewhere(high: Seq<Water>, ds: Seq<Decode>, w: Water)
    requires
        raised_all(high, ds).contains(w),
    ensures
        high.contains(w) || exists|j: int| 0 <= j < ds.len() && w == note(#[trigger] ds[j]),
    decreases ds.len(),
{
    if ds.len() > 0 {
        let front = ds.drop_last();
        let was = raised_all(high, front);
        let d = ds.last();
        first_where_found(was, under(d));
        let i = choose|i: int| 0 <= i < raised_all(high, ds).len() && raised_all(high, ds)[i] == w;
        if w == note(d) {
            assert(ds[ds.len() - 1] == d);
        } else {
            assert(was[i] == w);
            waters_come_from_somewhere(high, front, w);
            if !high.contains(w) {
                let j = choose|j: int| 0 <= j < front.len() && w == note(#[trigger] front[j]);
                assert(ds[j] == front[j]);
            }
        }
    }
}

proof fn passed_on_where_not_stale(high: Seq<Water>, ds: Seq<Decode>, k: int)
    requires
        0 <= k < ds.len(),
        !stale(raised_all(high, ds.take(k)), ds[k]),
    ensures
        in_order(high, ds).contains(ds[k]),
    decreases ds.len(),
{
    let front = ds.drop_last();
    let all = in_order(high, ds);
    if k == ds.len() - 1 {
        assert(ds.take(k) == front);
        assert(all[all.len() - 1] == ds[k]);
    } else {
        assert(front.take(k) == ds.take(k));
        passed_on_where_not_stale(high, front, k);
        let i = choose|i: int| 0 <= i < in_order(high, front).len() && in_order(high, front)[i] == front[k];
        assert(all[i] == ds[k]);
    }
}

/// The first place that something stands at.
proof fn first_place(ds: Seq<Decode>, d: Decode) -> (k: int)
    requires
        ds.contains(d),
    ensures
        0 <= k < ds.len(),
        ds[k] == d,
        forall|j: int| 0 <= j < k ==> #[trigger] ds[j] != d,
{
    let is_d = |x: Decode| x == d;
    first_where_found(ds, is_d);
    let k = choose|k: int| 0 <= k < ds.len() && ds[k] == d;
    if first_where(ds, is_d) > k {
        assert(!is_d(ds[k]));
    }
    assert forall|j: int| 0 <= j < first_where(ds, is_d) implies #[trigger] ds[j] != d by {
        assert(!is_d(ds[j]));
    }
    first_where(ds, is_d)
}

/// Channels do not hold each other back: a decode of a batch that is further than
/// its mode allows from every channel of its mode, and from everything else of its
/// mode in the batch, is passed on, whatever comes with it and in whatever order.
pub proof fn channels_do_not_hold_each_other_back(high: Seq<Water>, ds: Seq<Decode>, d: Decode)
    requires
        ds.contains(d),
        forall|i: int| 0 <= i < high.len() ==> !on_channel(#[trigger] high[i], d),
        forall|j: int| 0 <= j < ds.len() && #[trigger] ds[j] != d ==> !on_channel(note(ds[j]), d),
    ensures
        in_order(high, ds).contains(d),
{
    let k = first_place(ds, d);
    let was = raised_all(high, ds.take(k));
    first_where_found(was, under(d));
    let i = first_where(was, under(d));
    if i < was.len() {
        let w = was[i];
        assert(on_channel(w, d));
        assert(was.contains(w));
        waters_come_from_somewhere(high, ds.take(k), w);
        if high.contains(w) {
            let h = choose|h: int| 0 <= h < high.len() && high[h] == w;
            assert(!on_channel(high[h], d));
        } else {
            let j = choose|j: int| 0 <= j < ds.take(k).len() && w == note(#[trigger] ds.take(k)[j]);
            assert(ds[j] == ds.take(k)[j]);
        }
    }
    passed_on_where_not_stale(high, ds, k);
}

proof fn heard_twice_is_a_repeat(s: Said, d: Decode)
    ensures
        heard_twice(s, d) <==> repeats(s, d),
{
}

proof fn what_is_said_comes_from_somewhere(seen: Seq<Said>, ds: Seq<Decode>, s: Said)
    requires
        said_all(seen, ds).contains(s),
    ensures
        seen.contains(s) || exists|j: int| 0 <= j < ds.len() && s == note(#[trigger] ds[j]),
    decreases ds.len(),
{
    if ds.len() > 0 {
        let front = ds.drop_last();
        let was = said_all(seen, front);
        let i = choose|i: int| 0 <= i < said_all(seen, ds).len() && said_all(seen, ds)[i] == s;
        if s == note(ds.last()) {
            assert(ds[ds.len() - 1] == ds.last());
        } else {
            assert(was[i] == s);
            what_is_said_comes_from_somewhere(seen, front, s);
            if !seen.contains(s) {
                let j = choose|j: int| 0 <= j < front.len() && s == note(#[trigger] front[j]);
                assert(ds[j] == front[j]);
            }
        }
    }
}

proof fn what_was_seen_stays_said(seen: Seq<Said>, ds: Seq<Decode>, i: int)
    requires
        0 <= i < seen.len(),
    ensures
        i < said_all(seen, ds).len(),
        said_all(seen, ds)[i] == seen[i],
    decreases ds.len(),
{
    if ds.len() > 0 {
        what_was_seen_stays_said(seen, ds.drop_last(), i);
    }
}

proof fn unsaid_where_not_known(seen: Seq<Said>, ds: Seq<Decode>, k: int)
    requires
        0 <= k < ds.len(),
        !already_said(said_all(seen, ds.take(k)), ds[k]),
    ensures
        unsaid(seen, ds).contains(ds[k]),
    decreases ds.len(),
{
    let front = ds.drop_last();
    let all = unsaid(seen, ds);
    if k == ds.len() - 1 {
        assert(ds.take(k) == front);
        assert(all[all.len() - 1] == ds[k]);
    } else {
        assert(front.take(k) == ds.take(k));
        unsaid_where_not_known(seen, front, k);
        let i = choose|i: int| 0 <= i < unsaid(seen, front).len() && unsaid(seen, front)[i] == front[k];
        assert(all[i] == ds[k]);
    }
}

/// What has not been heard before is news: a decode that neither anything reported
/// nor anything else that is offered with it could be the same thing as is left to
/// report.
pub proof fn what_is_new_is_news(seen: Seq<Said>, ds: Seq<Decode>, d: Decode)
    requires
        ds.contains(d),
        forall|i: int| 0 <= i < seen.len() ==> !heard_twice(#[trigger] seen[i], d),
        forall|j: int| 0 <= j < ds.len() && #[trigger] ds[j] != d ==> !heard_twice(note(ds[j]), d),
    ensures
        unsaid(seen, ds).contains(d),
{
    let k = first_place(ds, d);
    let was = said_all(seen, ds.take(k));
    if already_said(was, d) {
        let i = choose|i: int| 0 <= i < was.len() && repeats(#[trigger] was[i], d);
        heard_twice_is_a_repeat(was[i], d);
        assert(was.contains(was[i]));
        what_is_said_comes_from_somewhere(seen, ds.take(k), was[i]);
        if seen.contains(was[i]) {
            let h = choose|h: int| 0 <= h < seen.len() && seen[h] == was[i];
            assert(!heard_twice(seen[h], d));
        } else {
            let j = choose|j: int| 0 <= j < ds.take(k).len() && was[i] == note(#[trigger] ds.take(k)[j]);
            assert(ds[j] == ds.take(k)[j]);
        }
    }
    unsaid_where_not_known(seen, ds, k);
}

/// What has been heard before is no news: a decode that could be the same thing as
/// something reported is not left to report, whatever is offered ahead of it.
pub proof fn what_was_heard_is_no_news(seen: Seq<Said>, ds: Seq<Decode>, d: Decode, i: int)
    requires
        0 <= i < seen.len(),
        heard_twice(seen[i], d),
    ensures
        unsaid(seen, ds.push(d)) == unsaid(seen, ds),
        said_all(seen, ds.push(d)) == said_all(seen, ds),
{
    assert(ds.push(d).drop_last() == ds);
    what_was_seen_stays_said(seen, ds, i);
    heard_twice_is_a_repeat(seen[i], d);
    assert(repeats(said_all(seen, ds)[i], d));
}

/// Whether a decode is on the carrier of a station: of its mode, and less than
/// half its symbol rate off.
pub open spec fn on_the_carrier(s: Station, d: Decode) -> bool {
    &&& s.mode == d.mode
    &&& 2 * (s.hz - d.hz) < d.mode.baud
    &&& 2 * (d.hz - s.hz) < d.mode.baud
}

/// The scan has the say on what was sent before the receiver took over, and on
/// stations that have none.
pub proof fn the_scan_speaks_until_the_receiver_does(stations: Seq<Station>, d: Decode)
    requires
        forall|i: int|
            0 <= i < stations.len() && on_the_carrier(#[trigger] stations[i], d) ==> stations[i].covered_from > 0
                && d.time_s < stations[i].covered_from * 1_000,
    ensures
        !covered(stations, d),
{
    first_where_found(
        stations,
        |s: Station| crate::continuous::same_carrier(s.mode, s.hz, d.mode, d.hz),
    );
    let i = first_where(stations, |s: Station| crate::continuous::same_carrier(s.mode, s.hz, d.mode, d.hz));
    if i < stations.len() {
        assert(on_the_carrier(stations[i], d));
        assert(sample_at(d.time_s) < stations[i].covered_from);
    }
}

/// The receiver has the say from where it took over on.
pub proof fn the_receiver_speaks_once_it_can(stations: Seq<Station>, d: Decode, k: int)
    requires
        0 <= k < stations.len(),
        on_the_carrier(stations[k], d),
        forall|i: int|
            0 <= i < stations.len() && on_the_carrier(#[trigger] stations[i], d) ==> d.time_s
                >= stations[i].covered_from * 1_000,
    ensures
        covered(stations, d),
{
    let p = |s: Station| crate::continuous::same_carrier(s.mode, s.hz, d.mode, d.hz);
    first_where_found(stations, p);
    let i = first_where(stations, p);
    if i > k {
        assert(!p(stations[k]));
    }
    assert(on_the_carrier(stations[i], d));
    assert(sample_at(d.time_s) >= stations[i].covered_from);
}

/// A character is believed just where a station goes by its number, it comes with
/// as much of a carrier as is asked for, and, where that is asked, it lies where
/// the receiver has the say.
pub proof fn a_character_needs_a_station_and_a_carrier(stations: Seq<Station>, c: Heard, asked: bool)
    requires
        forall|i: int, j: int|
            0 <= i < j < stations.len() ==> (#[trigger] stations[i]).id < (#[trigger] stations[j]).id,
    ensures
        believed(stations, c, asked) <==> c.carrier >= 1_000 && exists|i: int|
            0 <= i < stations.len() && (#[trigger] stations[i]).id == c.station && (asked ==> c.offset
                >= stations[i].covered_from),
{
    let p = |s: Station| s.id == c.station;
    first_where_found(stations, p);
    let k = station_at(stations, c.station);
    if exists|i: int|
        0 <= i < stations.len() && (#[trigger] stations[i]).id == c.station && (asked ==> c.offset
            >= stations[i].covered_from) {
        let i = choose|i: int|
            0 <= i < stations.len() && (#[trigger] stations[i]).id == c.station && (asked ==> c.offset
                >= stations[i].covered_from);
        if k > i {
            assert(!p(stations[i]));
        }
        assert(stations[k].id == c.station);
        assert(k == i);
    }
}

/// What is put up of a scan: everything of the modes that only a scan reads, and
/// of PSK what the receivers do not have the say on; and everything the receivers
/// read.
pub proof fn what_a_scan_puts_up(found: Seq<Decode>, raw: Seq<Decode>, stations: Seq<Station>, d: Decode)
    ensures
        offered(found, raw, stations).contains(d) <==> raw.contains(d) || found.contains(d) && (d.mode.protocol
            != Protocol::Psk || !covered(stations, d)),
{
    let block = |d: Decode| d.mode.protocol != Protocol::Psk;
    let psk = |d: Decode| d.mode.protocol == Protocol::Psk;
    let free = |d: Decode| !covered(stations, d);
    let (a, b, c) = (found.filter(block), raw, found.filter(psk).filter(free));
    let all = a + b + c;
    assert(all == offered(found, raw, stations));
    if found.contains(d) {
        if block(d) {
            sifted_is_kept(found, block, d);
            let i = choose|i: int| 0 <= i < a.len() && a[i] == d;
            assert(all[i] == d);
        } else if free(d) {
            sifted_is_kept(found, psk, d);
            sifted_is_kept(found.filter(psk), free, d);
            let i = choose|i: int| 0 <= i < c.len() && c[i] == d;
            assert(all[a.len() + b.len() + i] == d);
        }
    }
    if raw.contains(d) {
        let i = choose|i: int| 0 <= i < b.len() && b[i] == d;
        assert(all[a.len() + i] == d);
    }
    if all.contains(d) {
        let i = choose|i: int| 0 <= i < all.len() && all[i] == d;
        if i < a.len() {
            sifted_was_there(found, block, i);
        } else if i < a.len() + b.len() {
            assert(b[i - a.len()] == d);
        } else {
            let j = i - a.len() - b.len();
            sifted_was_there(found.filter(psk), free, j);
            let k = choose|k: int| 0 <= k < found.filter(psk).len() && found.filter(psk)[k] == c[j];
            sifted_was_there(found, psk, k);
        }
    }
}

/// What has been reported is remembered for as long as a scan could come upon it
/// again, a window before the audio held, and no longer.
pub proof fn reports_are_remembered_for_a_window(seen: Seq<Said>, at: int, window: int, s: Said)
    ensures
        still_said(seen, at, window).contains(s) <==> seen.contains(s) && s.2 >= (at - window) * 1_000,
{
    let p = |s: Said| s.2 >= (at - window) * crate::modes::SAMPLE;
    if seen.contains(s) && p(s) {
        sifted_is_kept(seen, p, s);
    }
    if still_said(seen, at, window).contains(s) {
        let i = choose|i: int| 0 <= i < seen.filter(p).len() && seen.filter(p)[i] == s;
        sifted_was_there(seen, p, i);
    }
}

/// What a scan finds is reported, unless something stands against it: a decode
/// that no receiver has the say on, that is the same thing as nothing reported
/// before, and that is on no channel that has been told of anything, comes out of
/// the scan that found it, whatever else that found on other carriers.
pub proof fn what_a_scan_finds_is_reported<S>(
    before: Continuous<S>,
    after: Continuous<S>,
    found: Seq<Decode>,
    report: Seq<Decode>,
    d: Decode,
)
    requires
        scan_applied(before, after, found, Seq::empty(), report),
        found.contains(d),
        d.mode.protocol == Protocol::Psk ==> forall|i: int|
            0 <= i < before.stations@.len() && on_the_carrier(#[trigger] before.stations@[i], d)
                ==> before.stations@[i].covered_from > 0 && d.time_s < before.stations@[i].covered_from * 1_000,
        forall|i: int| 0 <= i < before.seen@.len() ==> !heard_twice(#[trigger] before.seen@[i], d),
        forall|i: int| 0 <= i < before.high_water@.len() ==> !on_channel(#[trigger] before.high_water@[i], d),
        forall|j: int|
            0 <= j < found.len() && #[trigger] found[j] != d ==> !heard_twice(note(found[j]), d) && !on_channel(
                note(found[j]),
                d,
            ),
    ensures
        report.contains(d),
{
    let raw = choose|raw: Seq<Decode>|
        {
            let emit = offered(found, raw, before.stations@);
            &&& #[trigger] are_streamed(raw, before.stations@, all_believed(before.stations@, Seq::empty(), true))
            &&& report == in_order(before.high_water@, by_time(unsaid(before.seen@, emit)))
        };
    reveal(Seq::filter);
    assert(all_believed(before.stations@, Seq::empty(), true) == Seq::<Heard>::empty());
    assert(raw.len() == 0);
    let emit = offered(found, raw, before.stations@);
    what_a_scan_puts_up(found, raw, before.stations@, d);
    if d.mode.protocol == Protocol::Psk {
        the_scan_speaks_until_the_receiver_does(before.stations@, d);
    }
    assert forall|j: int| 0 <= j < emit.len() && #[trigger] emit[j] != d implies !heard_twice(note(emit[j]), d)
        && !on_channel(note(emit[j]), d) by {
        assert(emit.contains(emit[j]));
        what_a_scan_puts_up(found, raw, before.stations@, emit[j]);
        let k = choose|k: int| 0 <= k < found.len() && found[k] == emit[j];
        assert(found[k] != d);
    }
    what_is_new_is_news(before.seen@, emit, d);
    let news = unsaid(before.seen@, emit);
    sorted_keeps(news, earlier(), d);
    let ds = by_time(news);
    assert forall|j: int| 0 <= j < ds.len() && #[trigger] ds[j] != d implies !on_channel(note(ds[j]), d) by {
        sorted_was_there(news, earlier(), j);
        let k = choose|k: int| 0 <= k < news.len() && news[k] == ds[j];
        news_was_offered(before.seen@, emit, k);
        let m = choose|m: int| 0 <= m < emit.len() && emit[m] == news[k];
        assert(emit[m] != d);
    }
    channels_do_not_hold_each_other_back(before.high_water@, ds, d);
}

proof fn news_was_offered(seen: Seq<Said>, ds: Seq<Decode>, i: int)
    requires
        0 <= i < unsaid(seen, ds).len(),
    ensures
        ds.contains(unsaid(seen, ds)[i]),
    decreases ds.len(),
{
    let front = ds.drop_last();
    if i < unsaid(seen, front).len() {
        news_was_offered(seen, front, i);
        let k = choose|k: int| 0 <= k < front.len() && front[k] == unsaid(seen, front)[i];
        assert(ds[k] == front[k]);
    } else {
        assert(ds[ds.len() - 1] == ds.last());
    }
}

/// A character off a receiver is reported as its station's: on the station's
/// carrier, in its mode and of its quality, at the sample where it was complete,
/// and as itself alone.
pub proof fn a_character_is_reported_as_its_stations(
    ds: Seq<Decode>,
    stations: Seq<Station>,
    heard: Seq<Heard>,
    asked: bool,
    i: int,
)
    requires
        are_streamed(ds, stations, all_believed(stations, heard, asked)),
        0 <= i < ds.len(),
    ensures
        exists|c: Heard, k: int|
            #![trigger heard.contains(c), stations[k]]
            heard.contains(c) && 0 <= k < stations.len() && stations[k].id == c.station && c.carrier >= 1_000 && {
                &&& ds[i].time_s == c.offset * 1_000
                &&& ds[i].text@ == seq![c.ch]
                &&& ds[i].mode == stations[k].mode
                &&& ds[i].hz == stations[k].hz
                &&& ds[i].quality == stations[k].quality
                &&& ds[i].snr_db is None
                &&& !ds[i].ends_over
                &&& asked ==> c.offset >= stations[k].covered_from
            },
{
    let p = |c: Heard| believed(stations, c, asked);
    let kept = all_believed(stations, heard, asked);
    sifted_was_there(heard, p, i);
    let c = kept[i];
    assert(heard.contains(c) && p(c));
    first_where_found(stations, |s: Station| s.id == c.station);
    let k = station_at(stations, c.station);
    assert(stations[k].id == c.station);
    assert(crate::continuous::is_streamed(ds[i], stations[k], c));
}

/// Every character that is to be believed is reported, in the order it was read.
pub proof fn every_believed_character_is_reported(
    ds: Seq<Decode>,
    stations: Seq<Station>,
    heard: Seq<Heard>,
    asked: bool,
    c: Heard,
)
    requires
        are_streamed(ds, stations, all_believed(stations, heard, asked)),
        heard.contains(c),
        believed(stations, c, asked),
    ensures
        exists|i: int| 0 <= i < ds.len() && (#[trigger] ds[i]).text@ == seq![c.ch] && ds[i].time_s == c.offset * 1_000,
{
    let p = |c: Heard| believed(stations, c, asked);
    sifted_is_kept(heard, p, c);
    let kept = all_believed(stations, heard, asked);
    let i = choose|i: int| 0 <= i < kept.len() && kept[i] == c;
    assert(crate::continuous::is_streamed(ds[i], stations[station_at(stations, c.station)], c));
}

/// Whether `d` is a character that one of the receivers read with a carrier, reported as
/// its station's; where that is asked, one from where the receiver has the say.
pub open spec fn read_off(d: Decode, stations: Seq<Station>, heard: Seq<Heard>, asked: bool) -> bool {
    exists|c: Heard, k: int|
        #![trigger heard.contains(c), stations[k]]
        heard.contains(c) && 0 <= k < stations.len() && stations[k].id == c.station && c.carrier >= 1_000 && {
            &&& d.time_s == c.offset * 1_000
            &&& d.text@ == seq![c.ch]
            &&& d.mode == stations[k].mode
            &&& d.hz == stations[k].hz
            &&& d.quality == stations[k].quality
            &&& asked ==> c.offset >= stations[k].covered_from
        }
}

/// What the receivers read comes out in order of time, and nothing comes out that none
/// of them read with a carrier.
pub proof fn receivers_report_what_they_read(
    high: Seq<Water>,
    raw: Seq<Decode>,
    stations: Seq<Station>,
    heard: Seq<Heard>,
)
    requires
        are_streamed(raw, stations, all_believed(stations, heard, false)),
    ensures
        ({
            let report = in_order(high, by_time(raw));
            &&& forall|i: int| 0 <= i < report.len() ==> read_off(#[trigger] report[i], stations, heard, false)
            &&& forall|i: int, j: int|
                0 <= i < j < report.len() ==> (#[trigger] report[i]).time_s <= (#[trigger] report[j]).time_s
        }),
{
    let ds = by_time(raw);
    let report = in_order(high, ds);
    assert forall|i: int| 0 <= i < report.len() implies read_off(#[trigger] report[i], stations, heard, false) by {
        crate::continuous_laws::what_is_passed_on_was_offered(high, ds, i);
        let k = choose|k: int| 0 <= k < ds.len() && report[i] == #[trigger] ds[k];
        sorted_was_there(raw, earlier(), k);
        let m = choose|m: int| 0 <= m < raw.len() && raw[m] == ds[k];
        a_character_is_reported_as_its_stations(raw, stations, heard, false, m);
    }
    reports_stay_in_order(high, ds, raw);
}

proof fn reports_stay_in_order(high: Seq<Water>, ds: Seq<Decode>, raw: Seq<Decode>)
    requires
        ds == by_time(raw),
    ensures
        forall|i: int, j: int|
            0 <= i < j < in_order(high, ds).len() ==> (#[trigger] in_order(high, ds)[i]).time_s <= (
            #[trigger] in_order(high, ds)[j]).time_s,
{
    crate::order::sorted_is_stable(raw, earlier());
    crate::scan_laws::passing_on_keeps_order(high, ds);
    let report = in_order(high, ds);
    assert forall|i: int, j: int| 0 <= i < j < report.len() implies (#[trigger] report[i]).time_s <= (
    #[trigger] report[j]).time_s by {
        assert(earlier()(report[i], report[j]));
    }
}

/// What comes out of a scan was found by it, where no receiver has the say, or was read
/// by a receiver from where it has.
pub proof fn a_report_is_of_what_was_heard<S>(
    before: Continuous<S>,
    after: Continuous<S>,
    found: Seq<Decode>,
    caught: Seq<Heard>,
    report: Seq<Decode>,
    i: int,
)
    requires
        scan_applied(before, after, found, caught, report),
        0 <= i < report.len(),
    ensures
        ({
            ||| read_off(report[i], before.stations@, caught, true)
            ||| found.contains(report[i]) && (report[i].mode.protocol != Protocol::Psk || !covered(
                before.stations@,
                report[i],
            ))
        }),
{
    let raw = choose|raw: Seq<Decode>|
        {
            let emit = offered(found, raw, before.stations@);
            &&& #[trigger] are_streamed(raw, before.stations@, all_believed(before.stations@, caught, true))
            &&& report == in_order(before.high_water@, by_time(unsaid(before.seen@, emit)))
        };
    let emit = offered(found, raw, before.stations@);
    let news = unsaid(before.seen@, emit);
    let ds = by_time(news);
    crate::continuous_laws::what_is_passed_on_was_offered(before.high_water@, ds, i);
    let k = choose|k: int| 0 <= k < ds.len() && report[i] == #[trigger] ds[k];
    sorted_was_there(news, earlier(), k);
    let m = choose|m: int| 0 <= m < news.len() && news[m] == ds[k];
    news_was_offered(before.seen@, emit, m);
    what_a_scan_puts_up(found, raw, before.stations@, report[i]);
    if raw.contains(report[i]) {
        let j = choose|j: int| 0 <= j < raw.len() && raw[j] == report[i];
        a_character_is_reported_as_its_stations(raw, before.stations@, caught, true, j);
    }
}

} // verus!
