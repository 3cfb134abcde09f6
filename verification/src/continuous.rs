//! Live decoding of the modes that run continuously, with PSK read as it
//! arrives rather than a block at a time.
//!
//! Two things are split here. Acquisition scans the last window of the band
//! every so often; it finds stations, and is the only thing entitled to an
//! opinion about whether a PSK station is really there. Tracking gives each PSK
//! station that a scan vouched for a receiver of its own, which reads every
//! character as it completes.
//!
//! The scan and the receivers run outside of this module, which decides what
//! they are given and what becomes of what they report:
//!
//! * [`Continuous::take_in`] says which receivers are to be fed, and from where;
//!   [`Continuous::feed`] takes what they read.
//! * [`Continuous::due`] hands out a window to scan, one at a time;
//!   [`Continuous::confirm`] says which receivers are to be opened for what the
//!   scan found, and [`Continuous::apply`] folds all of it back in.

use crate::channel::better;
use crate::channels::{by_time, place_by_time};
use crate::find::{copied, filter_ends, filter_one_more, first_where, first_where_found, first_where_is};
use crate::modes::{apart, hz_apart, since, Decode, MilliHz, ModeId, Protocol, Ticks, SAMPLE};
use crate::reporting_laws::{read_off, receivers_report_what_they_read};
use vstd::prelude::*;

verus! {

/// Audio an acquisition looks at for a block-scanned mode.
pub const ACQ_WINDOW_S: Ticks = 288_000_000;

/// How often acquisition runs, at most.
pub const ACQ_STEP_S: Ticks = 48_000_000;

/// [`ACQ_WINDOW_S`] in samples.
pub const ACQ_WINDOW: usize = 288_000;

/// [`ACQ_STEP_S`] in samples.
pub const ACQ_STEP: usize = 48_000;

/// Acquisitions a PSK station may go unconfirmed before its receiver is closed:
/// two, so that an over that pauses for a few seconds keeps its receiver.
pub const MISSES_BEFORE_CLOSE: usize = 2;

/// The carrier that a character must come with to be believed, as
/// [`Heard::carrier`] counts it.
pub const CARRIER_THRESHOLD: i32 = 1_000;

/// Audio a mode needs in front of it before a scan can find it at all.
pub open spec fn needs(m: ModeId) -> nat {
    if m.protocol == Protocol::Psk {
        m.block_samples as nat
    } else {
        ACQ_WINDOW as nat
    }
}

/// Audio a mode needs in front of it before a scan can find it at all: one
/// analysis block for PSK, and the whole window for everything else.
fn acq_samples(m: &ModeId) -> (n: usize)
    ensures
        n == needs(*m),
{
    if m.protocol == Protocol::Psk {
        m.block_samples as usize
    } else {
        ACQ_WINDOW
    }
}

/// One character off a receiver.
#[derive(Clone, Copy, Debug, PartialEq, Eq, Structural)]
pub struct Heard {
    /// The station whose receiver read it.
    pub station: u64,
    /// The sample at which it was complete, from the first ever fed.
    pub offset: usize,
    pub ch: char,
    /// How good a carrier it came with, in thousandths of the least that is to
    /// be believed.
    pub carrier: i32,
}

/// A PSK station being tracked between acquisitions.
#[derive(Clone, Copy, Debug, PartialEq, Eq, Structural)]
pub struct Station {
    /// What its receiver goes by.
    pub id: u64,
    pub mode: ModeId,
    pub hz: MilliHz,
    /// Carried from the acquisition that confirmed it.
    pub quality: i32,
    /// The sample from which its receiver, rather than the block scan, is the
    /// authority on what it said.
    pub covered_from: usize,
    /// The sample its receiver has been fed up to.
    pub fed_to: usize,
    /// Consecutive acquisitions that have not confirmed it.
    pub missed: usize,
}

/// The newest time reported on a channel.
pub type Water = (ModeId, MilliHz, Ticks);

/// One decode that has been reported.
pub type Said = (ModeId, MilliHz, Ticks);

/// One window of audio, waiting to be scanned.
pub struct Acquisition<S> {
    pub samples: Vec<S>,
    /// Where `samples` begins, from the first sample ever fed.
    pub at: usize,
    pub band: (MilliHz, MilliHz),
    pub modes: Vec<ModeId>,
}

/// What one scan found, on its way back to the decoder that asked for it.
pub struct Acquired {
    pub found: Vec<Decode>,
}

/// The continuous-mode decoder for one live capture.
pub struct Continuous<S> {
    pub modes: Vec<ModeId>,
    pub band: (MilliHz, MilliHz),
    /// The audio that a scan may still look at.
    pub buf: Vec<S>,
    /// Where `buf` begins, from the first sample ever fed.
    pub at: usize,
    /// Where the next acquisition is due.
    pub next_acq: usize,
    /// Where the window of the acquisition that is out began, if one is out.
    pub pending: Option<usize>,
    /// Audio one acquisition looks at: what the most demanding mode needs.
    pub window: usize,
    /// What the least demanding one needs.
    pub least: usize,
    /// How far the window slides between acquisitions.
    pub step: usize,
    pub stations: Vec<Station>,
    /// The id the next station gets.
    pub next_station: u64,
    /// Decodes already reported, so that overlapping windows do not report the
    /// same thing twice.
    pub seen: Vec<Said>,
    /// The newest time reported on each channel.
    pub high_water: Vec<Water>,
}

/// The most that any of `modes` needs, or the whole window where there are
/// none.
pub open spec fn most_needed(modes: Seq<ModeId>) -> nat
    decreases modes.len(),
{
    if modes.len() == 0 {
        ACQ_WINDOW as nat
    } else if modes.len() == 1 || needs(modes.last()) > most_needed(modes.drop_last()) {
        needs(modes.last())
    } else {
        most_needed(modes.drop_last())
    }
}

/// The least that any of `modes` needs, or the whole window where there are
/// none.
pub open spec fn least_needed(modes: Seq<ModeId>) -> nat
    decreases modes.len(),
{
    if modes.len() == 0 {
        ACQ_WINDOW as nat
    } else if modes.len() == 1 || needs(modes.last()) < least_needed(modes.drop_last()) {
        needs(modes.last())
    } else {
        least_needed(modes.drop_last())
    }
}

/// How far a window of this length slides: never by more than half of itself,
/// so that consecutive scans overlap.
pub open spec fn step_for(window: nat) -> nat {
    let half = window / 2;
    if half == 0 {
        1
    } else if half < ACQ_STEP {
        half
    } else {
        ACQ_STEP as nat
    }
}

/// The most and the least needed bound what each mode needs, and are needed by
/// one of them.
pub proof fn needs_are_bounded(modes: Seq<ModeId>)
    ensures
        least_needed(modes) <= most_needed(modes),
        forall|i: int|
            0 <= i < modes.len() ==> least_needed(modes) <= needs(#[trigger] modes[i]) <= most_needed(modes),
        modes.len() > 0 ==> exists|i: int| 0 <= i < modes.len() && needs(#[trigger] modes[i]) == least_needed(modes),
        modes.len() > 0 ==> exists|i: int| 0 <= i < modes.len() && needs(#[trigger] modes[i]) == most_needed(modes),
    decreases modes.len(),
{
    if modes.len() > 1 {
        let front = modes.drop_last();
        needs_are_bounded(front);
        assert forall|i: int| 0 <= i < modes.len() implies least_needed(modes) <= needs(#[trigger] modes[i])
            <= most_needed(modes) by {
            if i < front.len() {
                assert(needs(front[i]) == needs(modes[i]));
            }
        }
        let lo = choose|i: int| 0 <= i < front.len() && needs(#[trigger] front[i]) == least_needed(front);
        let hi = choose|i: int| 0 <= i < front.len() && needs(#[trigger] front[i]) == most_needed(front);
        assert(modes[lo] == front[lo]);
        assert(modes[hi] == front[hi]);
        assert(needs(modes[modes.len() - 1]) == needs(modes.last()));
    } else if modes.len() == 1 {
        assert(needs(modes[0]) == needs(modes.last()));
    }
}

impl<S> Continuous<S> {
    /// Where the audio taken in so far ends.
    pub open spec fn live(&self) -> int {
        self.at + self.buf@.len()
    }

    /// What every decoder keeps to.
    pub open spec fn wf(&self) -> bool {
        &&& self.window == most_needed(self.modes@)
        &&& self.least == least_needed(self.modes@)
        &&& self.step == step_for(self.window as nat)
        &&& self.live() + self.window + self.step <= usize::MAX
        &&& self.live() * SAMPLE <= i64::MAX
        &&& self.next_acq <= self.live() + self.window + self.step
        &&& self.next_acq >= self.least
        &&& (self.next_acq - self.least) % self.step as int == 0
        &&& forall|i: int|
            0 <= i < self.stations@.len() ==> {
                &&& (#[trigger] self.stations@[i]).fed_to <= self.live()
                &&& self.stations@[i].missed <= MISSES_BEFORE_CLOSE + 1
                &&& self.stations@[i].id < self.next_station
            }
        &&& forall|i: int, j: int|
            0 <= i < j < self.stations@.len() ==> (#[trigger] self.stations@[i]).id < (
            #[trigger] self.stations@[j]).id
    }

    /// Every station that has gone unconfirmed too often is closed.
    pub open spec fn settled(&self) -> bool {
        forall|i: int|
            0 <= i < self.stations@.len() ==> (#[trigger] self.stations@[i]).missed <= MISSES_BEFORE_CLOSE
    }

    /// Whether `n` samples more can still be counted.
    pub open spec fn has_room(&self, n: nat) -> bool {
        &&& self.live() + n + self.window + self.step <= usize::MAX
        &&& (self.live() + n) * SAMPLE <= i64::MAX
    }
}

impl<S: Copy> Continuous<S> {
    /// A decoder that has taken in nothing.
    ///
    /// The window is what the most demanding mode needs; the first scan is due
    /// as soon as one can find anything, not when the window has filled.
    pub fn new(modes: Vec<ModeId>, band: (MilliHz, MilliHz)) -> (c: Continuous<S>)
        requires
            most_needed(modes@) + step_for(most_needed(modes@)) <= usize::MAX,
        ensures
            c.wf(),
            c.settled(),
            c.modes@ == modes@,
            c.band == band,
            c.at == 0,
            c.buf@.len() == 0,
            c.next_acq == c.least,
            c.pending is None,
            c.stations@.len() == 0,
            c.seen@.len() == 0,
            c.high_water@.len() == 0,
    {
        let mut window: usize = ACQ_WINDOW;
        let mut least: usize = ACQ_WINDOW;
        let mut i: usize = 0;
        assert(modes@.take(0).len() == 0);
        while i < modes.len()
            invariant
                0 <= i <= modes@.len(),
                window == most_needed(modes@.take(i as int)),
                least == least_needed(modes@.take(i as int)),
            decreases modes.len() - i,
        {
            let n: usize = acq_samples(&modes[i]);
            assert(modes@.take(i + 1).drop_last() == modes@.take(i as int));
            assert(modes@.take(i + 1).last() == modes@[i as int]);
            if i == 0 || n > window {
                window = n;
            }
            if i == 0 || n < least {
                least = n;
            }
            i += 1;
        }
        proof {
            assert(modes@.take(modes@.len() as int) == modes@);
            needs_are_bounded(modes@);
        }
        let half: usize = window / 2;
        let step: usize = if half == 0 {
            1
        } else if half < ACQ_STEP {
            half
        } else {
            ACQ_STEP
        };
        assert(0int % step as int == 0) by (nonlinear_arith)
            requires
                step > 0,
        ;
        Continuous {
            modes,
            band,
            buf: Vec::new(),
            at: 0,
            next_acq: least,
            pending: None,
            window,
            least,
            step,
            stations: Vec::new(),
            next_station: 0,
            seen: Vec::new(),
            high_water: Vec::new(),
        }
    }

    /// PSK stations currently being tracked, as mode and carrier.
    pub fn tracking(&self) -> (all: Vec<(ModeId, MilliHz)>)
        ensures
            all@ == self.stations@.map_values(|s: Station| (s.mode, s.hz)),
    {
        let mut out: Vec<(ModeId, MilliHz)> = Vec::new();
        let mut i: usize = 0;
        while i < self.stations.len()
            invariant
                0 <= i <= self.stations@.len(),
                out@ == self.stations@.take(i as int).map_values(|s: Station| (s.mode, s.hz)),
            decreases self.stations.len() - i,
        {
            let s = self.stations[i];
            out.push((s.mode, s.hz));
            i += 1;
        }
        assert(self.stations@.take(i as int) == self.stations@);
        out
    }
}

/// The first point at or after `x` of the grid that `next` is on.
pub open spec fn grid_from(next: int, step: int, x: int) -> int {
    if next >= x {
        next
    } else {
        next + (x - next + step - 1) / step * step
    }
}

/// [`grid_from`] stays on the grid, is no earlier than `x`, and is the first
/// point that is so unless it was there already.
pub proof fn grid_from_is_first(next: int, step: int, x: int, origin: int)
    requires
        step > 0,
        (next - origin) % step == 0,
    ensures
        grid_from(next, step, x) >= x,
        grid_from(next, step, x) >= next,
        next < x ==> grid_from(next, step, x) < x + step,
        (grid_from(next, step, x) - origin) % step == 0,
{
    if next < x {
        let d = x - next + step - 1;
        let q = d / step;
        vstd::arithmetic::div_mod::lemma_fundamental_div_mod(d, step);
        assert(d == step * q + d % step);
        assert(0 <= d % step < step);
        assert(q * step == step * q) by (nonlinear_arith);
        vstd::arithmetic::div_mod::lemma_mod_multiples_vanish(q, next - origin, step);
        assert(step * q + (next - origin) == grid_from(next, step, x) - origin);
    }
}

/// Where audio is no longer needed before: the start of the window that the
/// scan due next will look at, or of the one that is out, and in any case no
/// more than two windows back.
pub open spec fn needed_from(live: int, window: int, next_acq: int, pending: Option<usize>) -> int {
    let back = |a: int, b: int| if a >= b { a - b } else { 0 };
    let low = |a: int, b: int| if a <= b { a } else { b };
    let high = |a: int, b: int| if a >= b { a } else { b };
    let scan = low(back(live, window), back(next_acq, window));
    let kept = match pending {
        Some(pinned) => low(scan, pinned as int),
        None => scan,
    };
    high(kept, back(live, 2 * window))
}

/// The stations whose receivers can still be fed.
pub open spec fn feedable(stations: Seq<Station>, at: int) -> Seq<Station> {
    stations.filter(|s: Station| s.fed_to >= at)
}

/// Stations with their receivers fed up to `end`.
pub open spec fn fed_up_to(stations: Seq<Station>, end: usize) -> Seq<Station> {
    stations.map_values(
        |s: Station| if s.fed_to < end { Station { fed_to: end, ..s } } else { s },
    )
}

/// What is still to be fed, and to whom: the id of each station short of `end`,
/// and the sample it is to be fed from.
pub open spec fn feeds(stations: Seq<Station>, end: usize) -> Seq<(u64, usize)> {
    stations.filter(|s: Station| s.fed_to < end).map_values(|s: Station| (s.id, s.fed_to))
}

impl<S> Continuous<S> {
    /// The slot that the next acquisition falls in: one whose audio has been
    /// trimmed away cannot be scanned.
    pub open spec fn slot(&self) -> int {
        grid_from(self.next_acq as int, self.step as int, self.at + self.least)
    }

    /// Where the window of that acquisition begins.
    pub open spec fn window_start(&self) -> int {
        let from = self.slot() - self.window;
        if from >= self.at {
            from
        } else {
            self.at as int
        }
    }

    /// Everything but the audio, the cadence and the stations is as it was.
    pub open spec fn same_but_audio(&self, was: &Self) -> bool {
        &&& self.modes@ == was.modes@
        &&& self.band == was.band
        &&& self.window == was.window
        &&& self.least == was.least
        &&& self.step == was.step
        &&& self.next_station == was.next_station
        &&& self.seen@ == was.seen@
        &&& self.high_water@ == was.high_water@
    }
}

impl<S: Copy> Continuous<S> {
    /// Take in contiguous audio; get back which receivers are to be fed, each by
    /// the id of its station and the sample from which it has not had the
    /// audio.
    ///
    /// A receiver whose audio has gone cannot be carried across the gap, so its
    /// station is dropped and re-acquired.
    pub fn take_in(&mut self, samples: &[S]) -> (to_feed: Vec<(u64, usize)>)
        requires
            old(self).wf(),
            old(self).has_room(samples@.len()),
        ensures
            final(self).wf(),
            old(self).settled() ==> final(self).settled(),
            final(self).same_but_audio(old(self)),
            final(self).buf@ == old(self).buf@ + samples@,
            final(self).at == old(self).at,
            final(self).next_acq == old(self).next_acq,
            final(self).pending == old(self).pending,
            final(self).stations@ == fed_up_to(
                feedable(old(self).stations@, old(self).at as int),
                final(self).live() as usize,
            ),
            to_feed@ == feeds(
                feedable(old(self).stations@, old(self).at as int),
                final(self).live() as usize,
            ),
    {
        let ghost was = self.stations@;
        let ghost first = self.buf@;
        let at: usize = self.at;
        let mut i: usize = 0;
        assert(samples@.take(0) == Seq::<S>::empty());
        while i < samples.len()
            invariant
                0 <= i <= samples@.len(),
                self.buf@ == first + samples@.take(i as int),
                first == old(self).buf@,
                self.modes@ == old(self).modes@,
                self.band == old(self).band,
                self.window == old(self).window,
                self.least == old(self).least,
                self.step == old(self).step,
                self.at == old(self).at,
                self.next_acq == old(self).next_acq,
                self.pending == old(self).pending,
                self.stations@ == old(self).stations@,
                self.next_station == old(self).next_station,
                self.seen@ == old(self).seen@,
                self.high_water@ == old(self).high_water@,
            decreases samples.len() - i,
        {
            self.buf.push(samples[i]);
            assert(first + samples@.take(i + 1) == (first + samples@.take(i as int)).push(samples@[i as int]));
            i += 1;
        }
        assert(samples@.take(samples@.len() as int) == samples@);
        let end: usize = self.at + self.buf.len();
        let mut kept: Vec<Station> = Vec::new();
        let mut to_feed: Vec<(u64, usize)> = Vec::new();
        let mut k: usize = 0;
        let ghost can = |s: Station| s.fed_to >= at;
        let ghost short = |s: Station| s.fed_to < end;
        let ghost fed = |s: Station| if s.fed_to < end { Station { fed_to: end, ..s } } else { s };
        let ghost name = |s: Station| (s.id, s.fed_to);
        proof {
            filter_ends(was, can);
            reveal(Seq::filter);
        }
        while k < self.stations.len()
            invariant
                0 <= k <= self.stations@.len(),
                self.stations@ == was,
                can == (|s: Station| s.fed_to >= at),
                short == (|s: Station| s.fed_to < end),
                fed == (|s: Station| if s.fed_to < end { Station { fed_to: end, ..s } } else { s }),
                name == (|s: Station| (s.id, s.fed_to)),
                kept@ == was.take(k as int).filter(can).map_values(fed),
                to_feed@ == was.take(k as int).filter(can).filter(short).map_values(name),
            decreases self.stations.len() - k,
        {
            let s = self.stations[k];
            let ghost before = was.take(k as int).filter(can);
            proof {
                filter_one_more(was, can, k as int);
            }
            if s.fed_to >= at {
                let ghost more = before.push(s);
                proof {
                    reveal(Seq::filter);
                    assert(more.drop_last() == before);
                    assert(more.map_values(fed) == before.map_values(fed).push(fed(s)));
                }
                if s.fed_to < end {
                    to_feed.push((s.id, s.fed_to));
                    proof {
                        assert(more.filter(short) == before.filter(short).push(s));
                        assert(before.filter(short).push(s).map_values(name) == before.filter(short).map_values(
                            name,
                        ).push(name(s)));
                    }
                    kept.push(Station { fed_to: end, ..s });
                } else {
                    kept.push(s);
                }
            }
            k += 1;
        }
        proof {
            filter_ends(was, can);
            kept_in_order(was, at as int, end, self.next_station, (MISSES_BEFORE_CLOSE + 1) as int);
            if old(self).settled() {
                kept_in_order(was, at as int, end, self.next_station, MISSES_BEFORE_CLOSE as int);
            }
        }
        self.stations = kept;
        to_feed
    }

    /// The audio from a sample on to the live edge.
    pub fn audio_from(&self, from: usize) -> (samples: Vec<S>)
        requires
            self.wf(),
            self.at <= from <= self.live(),
        ensures
            samples@ == self.buf@.skip(from - self.at),
    {
        let out = copied(&self.buf, from - self.at, self.buf.len());
        assert(self.buf@.subrange(from - self.at, self.buf@.len() as int) == self.buf@.skip(from - self.at));
        out
    }

    /// Drop audio no scan can look at any more.
    fn trim(&mut self)
        requires
            old(self).wf(),
        ensures
            final(self).wf(),
            final(self).same_but_audio(old(self)),
            final(self).live() == old(self).live(),
            final(self).next_acq == old(self).next_acq,
            final(self).pending == old(self).pending,
            final(self).stations@ == old(self).stations@,
            ({
                let from = needed_from(
                    old(self).live(),
                    old(self).window as int,
                    old(self).next_acq as int,
                    old(self).pending,
                );
                if from > old(self).at {
                    final(self).at == from && final(self).buf@ == old(self).buf@.skip(from - old(self).at)
                } else {
                    final(self).at == old(self).at && final(self).buf@ == old(self).buf@
                }
            }),
    {
        let live: usize = self.at + self.buf.len();
        let w: usize = self.window;
        let mut from: usize = if live >= w { live - w } else { 0 };
        let scan: usize = if self.next_acq >= w { self.next_acq - w } else { 0 };
        if scan < from {
            from = scan;
        }
        if let Some(pinned) = self.pending {
            if pinned < from {
                from = pinned;
            }
        }
        let cap: usize = if live >= w && live - w >= w { live - w - w } else { 0 };
        if cap > from {
            from = cap;
        }
        if from > self.at {
            let ghost all = self.buf@;
            self.buf = self.buf.split_off(from - self.at);
            assert(self.buf@ == all.skip(from - self.at));
            self.at = from;
        }
    }

    /// The window due to be scanned, if one is due and none is already out.
    ///
    /// The window ends where the scan came due, not at the live edge, so it is
    /// the same stretch of audio however the stream is cut up. The slots that
    /// went by while a scan was out are gone, not owed.
    pub fn due(&mut self) -> (job: Option<Acquisition<S>>)
        requires
            old(self).wf(),
        ensures
            final(self).wf(),
            final(self).same_but_audio(old(self)),
            final(self).at == old(self).at,
            final(self).buf@ == old(self).buf@,
            final(self).stations@ == old(self).stations@,
            job is Some <==> old(self).pending is None && old(self).slot() <= old(self).live(),
            match job {
                None => final(self).next_acq == old(self).slot() && final(self).pending == old(self).pending,
                Some(a) => {
                    &&& a.at == old(self).window_start()
                    &&& a.samples@ == old(self).buf@.subrange(
                        old(self).window_start() - old(self).at,
                        old(self).slot() - old(self).at,
                    )
                    &&& a.samples@.len() >= old(self).least
                    &&& a.band == old(self).band
                    &&& a.modes@ == old(self).modes@
                    &&& final(self).pending == Some(a.at)
                    &&& final(self).next_acq == grid_from(
                        old(self).slot() + old(self).step,
                        old(self).step as int,
                        old(self).live() + 1,
                    )
                    &&& final(self).next_acq > final(self).live()
                },
            },
    {
        let live: usize = self.at + self.buf.len();
        proof {
            needs_are_bounded(self.modes@);
            grid_from_is_first(self.next_acq as int, self.step as int, self.at + self.least, self.least as int);
        }
        let need: usize = self.at + self.least;
        if self.next_acq < need {
            let behind: usize = need - self.next_acq;
            let steps: usize = (behind - 1) / self.step + 1;
            proof {
                let st = self.step as int;
                vstd::arithmetic::div_mod::lemma_div_plus_one(behind - 1, st);
                assert((behind - 1) / st + 1 == (behind + st - 1) / st);
                assert(self.next_acq + steps * st == self.slot());
            }
            self.next_acq = self.next_acq + steps * self.step;
        }
        if self.pending.is_some() || live < self.next_acq {
            return None;
        }
        let end: usize = self.next_acq;
        let start: usize = if end >= self.window && end - self.window >= self.at {
            end - self.window
        } else {
            self.at
        };
        self.pending = Some(start);
        let ghost next = end + self.step;
        proof {
            vstd::arithmetic::div_mod::lemma_mod_add_multiples_vanish(end - self.least, self.step as int);
            grid_from_is_first(next, self.step as int, live + 1, self.least as int);
        }
        self.next_acq = end + self.step;
        if self.next_acq <= live {
            let steps: usize = (live - self.next_acq) / self.step + 1;
            proof {
                let st = self.step as int;
                vstd::arithmetic::div_mod::lemma_div_plus_one(live - next, st);
                assert((live - next) / st + 1 == (live + 1 - next + st - 1) / st);
                assert(self.next_acq + steps * st == grid_from(next, st, live + 1));
            }
            self.next_acq = self.next_acq + steps * self.step;
        }
        Some(
            Acquisition {
                samples: copied(&self.buf, start - self.at, end - self.at),
                at: start,
                band: self.band,
                modes: copied(&self.modes, 0, self.modes.len()),
            },
        )
    }

    /// Give up on the scan that is out, so that another can be started.
    pub fn abandon(&mut self)
        requires
            old(self).wf(),
        ensures
            final(self).wf(),
            final(self).pending is None,
            final(self).same_but_audio(old(self)),
            final(self).at == old(self).at,
            final(self).buf@ == old(self).buf@,
            final(self).next_acq == old(self).next_acq,
            final(self).stations@ == old(self).stations@,
    {
        self.pending = None;
    }
}

/// Stations keep their order and their ids as they are fed.
proof fn kept_in_order(was: Seq<Station>, at: int, end: usize, next: u64, misses: int)
    requires
        forall|i: int|
            0 <= i < was.len() ==> (#[trigger] was[i]).fed_to <= end && was[i].missed <= misses
                && was[i].id < next,
        forall|i: int, j: int| 0 <= i < j < was.len() ==> (#[trigger] was[i]).id < (#[trigger] was[j]).id,
    ensures
        forall|i: int|
            0 <= i < fed_up_to(feedable(was, at), end).len() ==> {
                &&& (#[trigger] fed_up_to(feedable(was, at), end)[i]).fed_to <= end
                &&& fed_up_to(feedable(was, at), end)[i].missed <= misses
                &&& fed_up_to(feedable(was, at), end)[i].id < next
            },
        forall|i: int, j: int|
            0 <= i < j < fed_up_to(feedable(was, at), end).len() ==> (#[trigger] fed_up_to(
                feedable(was, at),
                end,
            )[i]).id < (#[trigger] fed_up_to(feedable(was, at), end)[j]).id,
{
    sifted_in_order(was, |s: Station| s.fed_to >= at, end, next);
}

/// Sifting stations keeps their order and their ids.
proof fn sifted_in_order(was: Seq<Station>, p: spec_fn(Station) -> bool, end: usize, next: u64)
    requires
        forall|i: int|
            0 <= i < was.len() ==> (#[trigger] was[i]).fed_to <= end && was[i].id < next,
        forall|i: int, j: int| 0 <= i < j < was.len() ==> (#[trigger] was[i]).id < (#[trigger] was[j]).id,
    ensures
        forall|i: int| 0 <= i < was.filter(p).len() ==> was.contains(#[trigger] was.filter(p)[i]) && p(was.filter(p)[i]),
        forall|i: int, j: int|
            0 <= i < j < was.filter(p).len() ==> (#[trigger] was.filter(p)[i]).id < (#[trigger] was.filter(p)[j]).id,
    decreases was.len(),
{
    reveal(Seq::filter);
    if was.len() > 0 {
        let front = was.drop_last();
        assert forall|i: int, j: int| 0 <= i < j < front.len() implies (#[trigger] front[i]).id < (
        #[trigger] front[j]).id by {
            assert(was[i].id < was[j].id);
        }
        sifted_in_order(front, p, end, next);
        let f = front.filter(p);
        let all = was.filter(p);
        assert forall|i: int| 0 <= i < all.len() implies was.contains(#[trigger] all[i]) && p(all[i]) by {
            if i < f.len() {
                assert(all[i] == f[i]);
                let k = choose|k: int| 0 <= k < front.len() && front[k] == f[i];
                assert(was[k] == all[i]);
            } else {
                assert(was[was.len() - 1] == all[i]);
            }
        }
        assert forall|i: int, j: int| 0 <= i < j < all.len() implies (#[trigger] all[i]).id < (
        #[trigger] all[j]).id by {
            assert(all[i] == f[i]);
            if j < f.len() {
                assert(all[j] == f[j]);
            } else {
                let k = choose|k: int| 0 <= k < front.len() && front[k] == f[i];
                assert(was[k].id < was[was.len() - 1].id);
            }
        }
    }
}

/// Whether a channel's high water is the one that `d` belongs under.
pub open spec fn under(d: Decode) -> spec_fn(Water) -> bool {
    |w: Water| w.0 == d.mode && hz_apart(w.1, d.hz) <= d.mode.assoc_tol
}

/// Whether `d` is older than what its channel has already been told.
pub open spec fn stale(high: Seq<Water>, d: Decode) -> bool {
    let i = first_where(high, under(d));
    i < high.len() && d.time_s < high[i].2
}

/// The high waters with `d` reported.
pub open spec fn raised(high: Seq<Water>, d: Decode) -> Seq<Water> {
    let i = first_where(high, under(d));
    if stale(high, d) {
        high
    } else if i < high.len() {
        high.update(i, (high[i].0, d.hz, d.time_s))
    } else {
        high.push((d.mode, d.hz, d.time_s))
    }
}

/// The high waters with each of `ds` offered in turn.
pub open spec fn raised_all(high: Seq<Water>, ds: Seq<Decode>) -> Seq<Water>
    decreases ds.len(),
{
    if ds.len() == 0 {
        high
    } else {
        raised(raised_all(high, ds.drop_last()), ds.last())
    }
}

/// Those of `ds` that are not older than what their channels have already been
/// told by the time they are offered.
pub open spec fn in_order(high: Seq<Water>, ds: Seq<Decode>) -> Seq<Decode>
    decreases ds.len(),
{
    if ds.len() == 0 {
        Seq::empty()
    } else {
        let front = in_order(high, ds.drop_last());
        if stale(raised_all(high, ds.drop_last()), ds.last()) {
            front
        } else {
            front.push(ds.last())
        }
    }
}

/// Whether `s` and `d` are one thing reported twice.
pub open spec fn repeats(s: Said, d: Decode) -> bool {
    &&& s.0 == d.mode
    &&& 2 * hz_apart(s.1, d.hz) < d.mode.bandwidth
    &&& -(d.mode.dup_tol as int) < s.2 - d.time_s < d.mode.dup_tol
}

/// Whether `d` has already been reported.
pub open spec fn already_said(seen: Seq<Said>, d: Decode) -> bool {
    exists|i: int| 0 <= i < seen.len() && repeats(#[trigger] seen[i], d)
}

/// What has been reported once each of `ds` has been offered in turn.
pub open spec fn said_all(seen: Seq<Said>, ds: Seq<Decode>) -> Seq<Said>
    decreases ds.len(),
{
    if ds.len() == 0 {
        seen
    } else {
        let before = said_all(seen, ds.drop_last());
        if already_said(before, ds.last()) {
            before
        } else {
            before.push((ds.last().mode, ds.last().hz, ds.last().time_s))
        }
    }
}

/// Those of `ds` that have not been reported by the time they are offered.
pub open spec fn unsaid(seen: Seq<Said>, ds: Seq<Decode>) -> Seq<Decode>
    decreases ds.len(),
{
    if ds.len() == 0 {
        Seq::empty()
    } else {
        let front = unsaid(seen, ds.drop_last());
        if already_said(said_all(seen, ds.drop_last()), ds.last()) {
            front
        } else {
            front.push(ds.last())
        }
    }
}

/// The station that goes by `id`.
pub open spec fn station_at(stations: Seq<Station>, id: u64) -> int {
    first_where(stations, |s: Station| s.id == id)
}

/// Whether a character is to be believed: its station is known, its carrier
/// good enough, and it lies where the receiver has the say, if `covered` asks
/// for that.
pub open spec fn believed(stations: Seq<Station>, c: Heard, covered: bool) -> bool {
    let i = station_at(stations, c.station);
    &&& i < stations.len()
    &&& c.carrier >= CARRIER_THRESHOLD
    &&& covered ==> c.offset >= stations[i].covered_from
}

/// Whether `d` is the decode that character `c` off a receiver makes: the
/// quality is the one its station was found with, and the signal to noise is
/// left unmeasured.
pub open spec fn is_streamed(d: Decode, s: Station, c: Heard) -> bool {
    &&& d.mode == s.mode
    &&& d.hz == s.hz
    &&& d.time_s == c.offset * SAMPLE
    &&& d.quality == s.quality
    &&& d.snr_db is None
    &&& d.text@ == seq![c.ch]
    &&& !d.ends_over
}

/// Whether `ds` are the decodes that the characters `cs` make.
pub open spec fn are_streamed(ds: Seq<Decode>, stations: Seq<Station>, cs: Seq<Heard>) -> bool {
    &&& ds.len() == cs.len()
    &&& forall|i: int|
        0 <= i < ds.len() ==> is_streamed(
            #[trigger] ds[i],
            stations[station_at(stations, cs[i].station)],
            cs[i],
        )
}

/// The believed among characters.
pub open spec fn all_believed(stations: Seq<Station>, cs: Seq<Heard>, covered: bool) -> Seq<Heard> {
    cs.filter(|c: Heard| believed(stations, c, covered))
}

/// One character off a receiver, as a decode.
fn streamed(s: &Station, c: &Heard) -> (d: Decode)
    requires
        c.offset * SAMPLE <= i64::MAX,
    ensures
        is_streamed(d, *s, *c),
{
    let mut text = String::new();
    text.push(c.ch);
    assert(text@ == seq![c.ch]);
    Decode {
        hz: s.hz,
        time_s: c.offset as i64 * SAMPLE,
        text,
        mode: s.mode,
        ends_over: false,
        quality: s.quality,
        snr_db: None,
    }
}

/// Which station goes by `id`: its place, or how many there are if none does.
fn find_station(stations: &Vec<Station>, id: u64) -> (i: usize)
    ensures
        i == station_at(stations@, id),
        i <= stations@.len(),
{
    let ghost p = |s: Station| s.id == id;
    let mut i: usize = 0;
    while i < stations.len() && stations[i].id != id
        invariant
            0 <= i <= stations@.len(),
            p == (|s: Station| s.id == id),
            forall|j: int| 0 <= j < i ==> !p(#[trigger] stations@[j]),
        decreases stations.len() - i,
    {
        i += 1;
    }
    proof {
        first_where_is(stations@, p, i as int);
    }
    i
}

/// The decodes that the believed among characters make.
fn stream_all(stations: &Vec<Station>, cs: &Vec<Heard>, covered: bool) -> (ds: Vec<Decode>)
    requires
        forall|i: int| 0 <= i < cs@.len() ==> (#[trigger] cs@[i]).offset * SAMPLE <= i64::MAX,
    ensures
        are_streamed(ds@, stations@, all_believed(stations@, cs@, covered)),
{
    let ghost p = |c: Heard| believed(stations@, c, covered);
    let mut out: Vec<Decode> = Vec::new();
    let mut i: usize = 0;
    proof {
        filter_ends(cs@, p);
    }
    while i < cs.len()
        invariant
            0 <= i <= cs@.len(),
            p == (|c: Heard| believed(stations@, c, covered)),
            forall|j: int| 0 <= j < cs@.len() ==> (#[trigger] cs@[j]).offset * SAMPLE <= i64::MAX,
            are_streamed(out@, stations@, cs@.take(i as int).filter(p)),
        decreases cs.len() - i,
    {
        let c = cs[i];
        proof {
            filter_one_more(cs@, p, i as int);
        }
        let k: usize = find_station(stations, c.station);
        if k < stations.len() && c.carrier >= CARRIER_THRESHOLD && (!covered || c.offset
            >= stations[k].covered_from) {
            out.push(streamed(&stations[k], &c));
        }
        i += 1;
    }
    proof {
        filter_ends(cs@, p);
    }
    out
}

/// Put decodes in order of time.
fn sort_by_time(ds: Vec<Decode>) -> (sorted: Vec<Decode>)
    ensures
        sorted@ == by_time(ds@),
{
    let ghost all = ds@;
    let mut sorted: Vec<Decode> = Vec::new();
    for d in it: ds
        invariant
            it.seq() == all,
            sorted@ == by_time(all.take(it.index())),
    {
        proof {
            assert(all.take(it.index() + 1).drop_last() == all.take(it.index()));
        }
        place_by_time(&mut sorted, d);
    }
    assert(all.take(all.len() as int) == all);
    sorted
}

impl<S> Continuous<S> {
    /// Everything but what has been reported is as it was.
    pub open spec fn same_but_reports(&self, was: &Self) -> bool {
        &&& self.modes@ == was.modes@
        &&& self.band == was.band
        &&& self.buf@ == was.buf@
        &&& self.at == was.at
        &&& self.next_acq == was.next_acq
        &&& self.pending == was.pending
        &&& self.window == was.window
        &&& self.least == was.least
        &&& self.step == was.step
        &&& self.stations@ == was.stations@
        &&& self.next_station == was.next_station
    }
}

impl<S: Copy> Continuous<S> {
    /// Drop anything older than what a channel has already been told.
    ///
    /// A receiver reports a character the moment it finishes, while a scan
    /// reports a whole window at once. Left alone those interleave, and a
    /// channel would be told of its own past.
    fn in_order(&mut self, decodes: Vec<Decode>) -> (kept: Vec<Decode>)
        requires
            old(self).wf(),
        ensures
            final(self).wf(),
            final(self).same_but_reports(old(self)),
            final(self).seen@ == old(self).seen@,
            final(self).high_water@ == raised_all(old(self).high_water@, decodes@),
            kept@ == in_order(old(self).high_water@, decodes@),
    {
        let ghost all = decodes@;
        let ghost high = self.high_water@;
        let mut kept: Vec<Decode> = Vec::new();
        let mut waters: Vec<Water> = copied(&self.high_water, 0, self.high_water.len());
        assert(high.subrange(0, high.len() as int) == high);
        for d in it: decodes
            invariant
                it.seq() == all,
                waters@ == raised_all(high, all.take(it.index())),
                kept@ == in_order(high, all.take(it.index())),
        {
            proof {
                assert(all.take(it.index() + 1).drop_last() == all.take(it.index()));
            }
            let ghost p = under(d);
            let mut i: usize = 0;
            while i < waters.len() && !(waters[i].0 == d.mode && apart(waters[i].1, d.hz)
                <= d.mode.assoc_tol as i64)
                invariant
                    0 <= i <= waters@.len(),
                    p == under(d),
                    forall|j: int| 0 <= j < i ==> !p(#[trigger] waters@[j]),
                decreases waters.len() - i,
            {
                i += 1;
            }
            proof {
                first_where_is(waters@, p, i as int);
            }
            if i < waters.len() {
                let w = waters[i];
                if d.time_s >= w.2 {
                    waters.set(i, (w.0, d.hz, d.time_s));
                    kept.push(d);
                }
            } else {
                waters.push((d.mode, d.hz, d.time_s));
                kept.push(d);
            }
        }
        assert(all.take(all.len() as int) == all);
        self.high_water = waters;
        kept
    }

    /// Take what the tracked receivers read in the audio last taken in; get back
    /// the decodes, in order of time.
    ///
    /// A receiver goes on demodulating after an over ends, and what it makes of
    /// the noise prints as words, so a character must come with a carrier.
    pub fn feed(&mut self, chars: Vec<Heard>) -> (decodes: Vec<Decode>)
        requires
            old(self).wf(),
            forall|i: int| 0 <= i < chars@.len() ==> (#[trigger] chars@[i]).offset <= old(self).live(),
        ensures
            final(self).wf(),
            final(self).live() == old(self).live(),
            ({
                let from = needed_from(
                    old(self).live(),
                    old(self).window as int,
                    old(self).next_acq as int,
                    old(self).pending,
                );
                if from > old(self).at {
                    final(self).at == from && final(self).buf@ == old(self).buf@.skip(from - old(self).at)
                } else {
                    final(self).at == old(self).at && final(self).buf@ == old(self).buf@
                }
            }),
            final(self).buf@.len() <= 2 * final(self).window,
            final(self).modes@ == old(self).modes@,
            final(self).band == old(self).band,
            final(self).next_acq == old(self).next_acq,
            final(self).pending == old(self).pending,
            final(self).stations@ == old(self).stations@,
            final(self).next_station == old(self).next_station,
            final(self).seen@ == old(self).seen@,
            exists|raw: Seq<Decode>|
                {
                    &&& #[trigger] are_streamed(
                        raw,
                        old(self).stations@,
                        all_believed(old(self).stations@, chars@, false),
                    )
                    &&& decodes@ == in_order(old(self).high_water@, by_time(raw))
                    &&& final(self).high_water@ == raised_all(old(self).high_water@, by_time(raw))
                },
            forall|i: int|
                0 <= i < decodes@.len() ==> read_off(#[trigger] decodes@[i], old(self).stations@, chars@, false),
            forall|i: int, j: int|
                0 <= i < j < decodes@.len() ==> (#[trigger] decodes@[i]).time_s <= (#[trigger] decodes@[j]).time_s,
    {
        assert forall|i: int| 0 <= i < chars@.len() implies (#[trigger] chars@[i]).offset * SAMPLE <= i64::MAX by {
            assert(chars@[i].offset <= self.live());
        }
        let raw = stream_all(&self.stations, &chars, false);
        proof {
            receivers_report_what_they_read(self.high_water@, raw@, self.stations@, chars@);
        }
        self.trim();
        let sorted = sort_by_time(raw);
        self.in_order(sorted)
    }

    /// Whether this decode has already been reported.
    ///
    /// Windows overlap by design and a PSK station is read by two things at its
    /// handover, so the same character arrives more than once.
    fn already_said(seen: &Vec<Said>, d: &Decode) -> (r: bool)
        ensures
            r == already_said(seen@, *d),
    {
        let mut i: usize = 0;
        while i < seen.len()
            invariant
                0 <= i <= seen@.len(),
                forall|j: int| 0 <= j < i ==> !repeats(#[trigger] seen@[j], *d),
            decreases seen.len() - i,
        {
            let s = seen[i];
            let gap: i128 = since(s.2, d.time_s);
            let tol: i128 = d.mode.dup_tol as i128;
            if s.0 == d.mode && 2 * apart(s.1, d.hz) < d.mode.bandwidth as i64 && gap < tol && gap > -tol {
                assert(repeats(seen@[i as int], *d));
                return true;
            }
            i += 1;
        }
        false
    }
}

/// The sample that a time falls in, with none before the first.
pub open spec fn sample_at(t: Ticks) -> int {
    if t < 0 {
        0
    } else {
        t as int / SAMPLE as int
    }
}

/// Whether two carriers of a mode are near enough to be one station.
pub open spec fn same_carrier(m: ModeId, hz: MilliHz, mode: ModeId, at: MilliHz) -> bool {
    m == mode && 2 * hz_apart(hz, at) < mode.baud
}

/// Whether two carriers of a mode are near enough to be one station.
fn on_carrier(m: &ModeId, hz: MilliHz, mode: &ModeId, at: MilliHz) -> (r: bool)
    ensures
        r == same_carrier(*m, hz, *mode, at),
{
    *m == *mode && 2 * apart(hz, at) < mode.baud as i64
}

/// What one scan made out of one PSK station: where it was first heard in the
/// window, and the best it was heard.
#[derive(Clone, Copy, Debug, PartialEq, Eq, Structural)]
pub struct Group {
    pub mode: ModeId,
    pub hz: MilliHz,
    pub first_t: Ticks,
    pub quality: i32,
}

/// The group that `d` belongs to, or how many there are if it is none of them.
pub open spec fn group_of(groups: Seq<Group>, d: Decode) -> int {
    first_where(groups, |g: Group| same_carrier(g.mode, g.hz, d.mode, d.hz))
}

/// The PSK characters of a scan, by station.
pub open spec fn grouped(found: Seq<Decode>) -> Seq<Group>
    decreases found.len(),
{
    if found.len() == 0 {
        Seq::empty()
    } else {
        let front = grouped(found.drop_last());
        let d = found.last();
        let i = group_of(front, d);
        if d.mode.protocol != Protocol::Psk {
            front
        } else if i < front.len() {
            let g = front[i];
            front.update(
                i,
                Group {
                    first_t: if d.time_s < g.first_t { d.time_s } else { g.first_t },
                    quality: better(g.quality, d.quality),
                    ..g
                },
            )
        } else {
            front.push(Group { mode: d.mode, hz: d.hz, first_t: d.time_s, quality: d.quality })
        }
    }
}

/// A receiver to be opened: for which station, and on the audio from which
/// sample.
#[derive(Clone, Copy, Debug, PartialEq, Eq, Structural)]
pub struct Opening {
    pub station: u64,
    pub mode: ModeId,
    pub hz: MilliHz,
    pub start: usize,
}

/// The station that a group is, or how many there are if it is none of them.
pub open spec fn tracked_as(stations: Seq<Station>, g: Group) -> int {
    first_where(stations, |s: Station| same_carrier(s.mode, s.hz, g.mode, g.hz))
}

/// Where a receiver for `g` is opened: where the station was transmitting, as
/// far as that audio is still held.
pub open spec fn start_of(g: Group, at: int, live: int) -> int {
    let t = sample_at(g.first_t);
    if t < at {
        at
    } else if t > live {
        live
    } else {
        t
    }
}

/// The station that is opened for `g`. The block scan keeps the say until the
/// receiver has had enough signal to place its clock.
pub open spec fn opened(g: Group, id: u64, at: int, live: int) -> Station {
    Station {
        id,
        mode: g.mode,
        hz: g.hz,
        quality: g.quality,
        covered_from: (start_of(g, at, live) + g.mode.lock_samples) as usize,
        fed_to: live as usize,
        missed: 0,
    }
}

/// The stations once each group has confirmed the station it is or opened a
/// new one.
pub open spec fn with_groups(stations: Seq<Station>, groups: Seq<Group>, next: int, at: int, live: int) -> Seq<
    Station,
>
    decreases groups.len(),
{
    if groups.len() == 0 {
        stations
    } else {
        let before = with_groups(stations, groups.drop_last(), next, at, live);
        let g = groups.last();
        let i = tracked_as(before, g);
        if i < before.len() {
            before.update(i, Station { missed: 0, hz: g.hz, quality: g.quality, ..before[i] })
        } else {
            let id = next + before.len() - stations.len();
            before.push(opened(g, id as u64, at, live))
        }
    }
}

/// The receivers that are to be opened for the groups.
pub open spec fn openings(stations: Seq<Station>, groups: Seq<Group>, next: int, at: int, live: int) -> Seq<
    Opening,
>
    decreases groups.len(),
{
    if groups.len() == 0 {
        Seq::empty()
    } else {
        let front = openings(stations, groups.drop_last(), next, at, live);
        let before = with_groups(stations, groups.drop_last(), next, at, live);
        let g = groups.last();
        if tracked_as(before, g) < before.len() {
            front
        } else {
            front.push(
                Opening {
                    station: (next + before.len() - stations.len()) as u64,
                    mode: g.mode,
                    hz: g.hz,
                    start: start_of(g, at, live) as usize,
                },
            )
        }
    }
}

/// Stations that one more acquisition has not confirmed yet.
pub open spec fn aged(stations: Seq<Station>) -> Seq<Station> {
    stations.map_values(|s: Station| Station { missed: (s.missed + 1) as usize, ..s })
}

/// Whether the receiver of the station that `d` is has the say on it.
pub open spec fn covered(stations: Seq<Station>, d: Decode) -> bool {
    let i = first_where(stations, |s: Station| same_carrier(s.mode, s.hz, d.mode, d.hz));
    i < stations.len() && sample_at(d.time_s) >= stations[i].covered_from
}

/// What a scan found of modes that only a scan reads.
pub open spec fn block_decodes(found: Seq<Decode>) -> Seq<Decode> {
    found.filter(|d: Decode| d.mode.protocol != Protocol::Psk)
}

/// What a scan found of PSK.
pub open spec fn psk_decodes(found: Seq<Decode>) -> Seq<Decode> {
    found.filter(|d: Decode| d.mode.protocol == Protocol::Psk)
}

/// What a scan found of PSK stations ahead of where their receivers take over.
pub open spec fn uncovered(found: Seq<Decode>, stations: Seq<Station>) -> Seq<Decode> {
    psk_decodes(found).filter(|d: Decode| !covered(stations, d))
}

/// What has been reported no longer ago than a window before the audio held.
pub open spec fn still_said(seen: Seq<Said>, at: int, window: int) -> Seq<Said> {
    seen.filter(|s: Said| s.2 >= (at - window) * SAMPLE)
}

/// What a scan puts up for report: what only a scan reads, what the receivers
/// opened for it read, and what it found ahead of where they take over.
pub open spec fn offered(found: Seq<Decode>, raw: Seq<Decode>, stations: Seq<Station>) -> Seq<Decode> {
    block_decodes(found) + raw + uncovered(found, stations)
}

/// Whether folding in a scan that found `found`, with what the receivers opened
/// for it read, takes the decoder `before` to `after` and reports `decodes`: of
/// what is put up, what was not reported before, in order of time and with
/// nothing of a channel's past in it. Stations that have gone unconfirmed too
/// often are closed.
pub open spec fn scan_applied<S>(
    before: Continuous<S>,
    after: Continuous<S>,
    found: Seq<Decode>,
    caught: Seq<Heard>,
    decodes: Seq<Decode>,
) -> bool {
    &&& after.stations@ == before.stations@.filter(|s: Station| s.missed <= MISSES_BEFORE_CLOSE)
    &&& exists|raw: Seq<Decode>|
        {
            let emit = offered(found, raw, before.stations@);
            &&& #[trigger] are_streamed(raw, before.stations@, all_believed(before.stations@, caught, true))
            &&& after.seen@ == still_said(said_all(before.seen@, emit), before.at as int, before.window as int)
            &&& decodes == in_order(before.high_water@, by_time(unsaid(before.seen@, emit)))
            &&& after.high_water@ == raised_all(before.high_water@, by_time(unsaid(before.seen@, emit)))
        }
}

/// Which group `d` belongs to.
fn find_group(groups: &Vec<Group>, d: &Decode) -> (i: usize)
    ensures
        i == group_of(groups@, *d),
        i <= groups@.len(),
{
    let ghost p = |g: Group| same_carrier(g.mode, g.hz, d.mode, d.hz);
    let mut i: usize = 0;
    while i < groups.len() && !on_carrier(&groups[i].mode, groups[i].hz, &d.mode, d.hz)
        invariant
            0 <= i <= groups@.len(),
            p == (|g: Group| same_carrier(g.mode, g.hz, d.mode, d.hz)),
            forall|j: int| 0 <= j < i ==> !p(#[trigger] groups@[j]),
        decreases groups.len() - i,
    {
        i += 1;
    }
    proof {
        first_where_is(groups@, p, i as int);
    }
    i
}

/// Group the PSK characters of a scan by station.
fn group(found: &Vec<Decode>) -> (groups: Vec<Group>)
    ensures
        groups@ == grouped(found@),
        groups@.len() <= found@.len(),
{
    let mut groups: Vec<Group> = Vec::new();
    let mut i: usize = 0;
    assert(found@.take(0).len() == 0);
    while i < found.len()
        invariant
            0 <= i <= found@.len(),
            groups@ == grouped(found@.take(i as int)),
            groups@.len() <= i,
        decreases found.len() - i,
    {
        let d = &found[i];
        assert(found@.take(i + 1).drop_last() == found@.take(i as int));
        assert(found@.take(i + 1).last() == found@[i as int]);
        if d.mode.protocol == Protocol::Psk {
            let k: usize = find_group(&groups, d);
            if k < groups.len() {
                let g = groups[k];
                groups.set(
                    k,
                    Group {
                        first_t: if d.time_s < g.first_t {
                            d.time_s
                        } else {
                            g.first_t
                        },
                        quality: if g.quality >= d.quality {
                            g.quality
                        } else {
                            d.quality
                        },
                        ..g
                    },
                );
            } else {
                groups.push(Group { mode: d.mode, hz: d.hz, first_t: d.time_s, quality: d.quality });
            }
        }
        i += 1;
    }
    assert(found@.take(found@.len() as int) == found@);
    groups
}

/// Which station is on a carrier.
fn find_carrier(stations: &Vec<Station>, mode: &ModeId, hz: MilliHz) -> (i: usize)
    ensures
        i == first_where(stations@, |s: Station| same_carrier(s.mode, s.hz, *mode, hz)),
        i <= stations@.len(),
{
    let ghost p = |s: Station| same_carrier(s.mode, s.hz, *mode, hz);
    let mut i: usize = 0;
    while i < stations.len() && !on_carrier(&stations[i].mode, stations[i].hz, mode, hz)
        invariant
            0 <= i <= stations@.len(),
            p == (|s: Station| same_carrier(s.mode, s.hz, *mode, hz)),
            forall|j: int| 0 <= j < i ==> !p(#[trigger] stations@[j]),
        decreases stations.len() - i,
    {
        i += 1;
    }
    proof {
        first_where_is(stations@, p, i as int);
    }
    i
}

impl<S: Copy> Continuous<S> {
    /// Confirm or open a station for everything PSK that a scan found; get back
    /// the receivers to be opened.
    ///
    /// A receiver is opened where the station is transmitting, not at the start
    /// of the window: one started on the silence before a station locks to that
    /// silence. It is then to be fed everything held since, so that it is
    /// current before any new audio reaches it.
    pub fn confirm(&mut self, found: &Vec<Decode>) -> (to_open: Vec<Opening>)
        requires
            old(self).wf(),
            old(self).settled(),
            old(self).next_station + found@.len() <= u64::MAX,
            forall|i: int|
                0 <= i < found@.len() ==> old(self).live() + (#[trigger] found@[i]).mode.lock_samples <= usize::MAX,
        ensures
            final(self).wf(),
            final(self).modes@ == old(self).modes@,
            final(self).band == old(self).band,
            final(self).buf@ == old(self).buf@,
            final(self).at == old(self).at,
            final(self).next_acq == old(self).next_acq,
            final(self).pending == old(self).pending,
            final(self).seen@ == old(self).seen@,
            final(self).high_water@ == old(self).high_water@,
            final(self).stations@ == with_groups(
                aged(old(self).stations@),
                grouped(found@),
                old(self).next_station as int,
                old(self).at as int,
                old(self).live(),
            ),
            final(self).next_station == old(self).next_station + to_open@.len(),
            to_open@ == openings(
                aged(old(self).stations@),
                grouped(found@),
                old(self).next_station as int,
                old(self).at as int,
                old(self).live(),
            ),
    {
        let live: usize = self.at + self.buf.len();
        let groups = group(found);
        proof {
            groups_have_modes(found@);
        }
        let ghost next = self.next_station as int;
        let ghost was = self.stations@;
        let mut stations: Vec<Station> = Vec::new();
        let mut k: usize = 0;
        while k < self.stations.len()
            invariant
                0 <= k <= self.stations@.len(),
                self.stations@ == was,
                forall|i: int| 0 <= i < was.len() ==> (#[trigger] was[i]).missed <= MISSES_BEFORE_CLOSE,
                stations@ == aged(was.take(k as int)),
            decreases self.stations.len() - k,
        {
            let s = self.stations[k];
            assert(s == was[k as int]);
            stations.push(Station { missed: s.missed + 1, ..s });
            k += 1;
        }
        assert(was.take(k as int) == was);
        let ghost older = stations@;
        let mut to_open: Vec<Opening> = Vec::new();
        let mut i: usize = 0;
        assert(groups@.take(0).len() == 0);
        while i < groups.len()
            invariant
                0 <= i <= groups@.len(),
                groups@.len() <= found@.len(),
                self.wf(),
                self.at == old(self).at,
                live == self.live(),
                next == self.next_station,
                next + found@.len() <= u64::MAX,
                forall|j: int| 0 <= j < groups@.len() ==> live + (#[trigger] groups@[j]).mode.lock_samples <= usize::MAX,
                stations@ == with_groups(older, groups@.take(i as int), next, self.at as int, live as int),
                to_open@ == openings(older, groups@.take(i as int), next, self.at as int, live as int),
                to_open@.len() == stations@.len() - older.len(),
                to_open@.len() <= i,
                forall|j: int|
                    0 <= j < stations@.len() ==> {
                        &&& (#[trigger] stations@[j]).fed_to <= live
                        &&& stations@[j].missed <= MISSES_BEFORE_CLOSE + 1
                        &&& stations@[j].id < next + to_open@.len()
                    },
                forall|a: int, b: int|
                    0 <= a < b < stations@.len() ==> (#[trigger] stations@[a]).id < (#[trigger] stations@[b]).id,
            decreases groups.len() - i,
        {
            let g = groups[i];
            assert(groups@.take(i + 1).drop_last() == groups@.take(i as int));
            assert(groups@.take(i + 1).last() == g);
            let j: usize = find_carrier(&stations, &g.mode, g.hz);
            if j < stations.len() {
                let s = stations[j];
                stations.set(j, Station { missed: 0, hz: g.hz, quality: g.quality, ..s });
            } else {
                let first: u64 = if g.first_t < 0 {
                    0
                } else {
                    (g.first_t / SAMPLE) as u64
                };
                let start: usize = if first < self.at as u64 {
                    self.at
                } else if first > live as u64 {
                    live
                } else {
                    first as usize
                };
                assert(live + groups@[i as int].mode.lock_samples <= usize::MAX);
                let id: u64 = self.next_station + to_open.len() as u64;
                stations.push(
                    Station {
                        id,
                        mode: g.mode,
                        hz: g.hz,
                        quality: g.quality,
                        covered_from: start + g.mode.lock_samples as usize,
                        fed_to: live,
                        missed: 0,
                    },
                );
                to_open.push(Opening { station: id, mode: g.mode, hz: g.hz, start });
            }
            i += 1;
        }
        assert(groups@.take(groups@.len() as int) == groups@);
        self.next_station = self.next_station + to_open.len() as u64;
        self.stations = stations;
        to_open
    }

    /// Fold a finished scan back in, with what the receivers opened for it read
    /// as they were caught up: what the block-decoded modes found, and the text
    /// of each PSK station from the block up to where its receiver takes over
    /// and from the receiver after that, none of it twice.
    pub fn apply(&mut self, done: Acquired, caught: Vec<Heard>) -> (decodes: Vec<Decode>)
        requires
            old(self).wf(),
            forall|i: int| 0 <= i < caught@.len() ==> (#[trigger] caught@[i]).offset <= old(self).live(),
        ensures
            final(self).wf(),
            final(self).settled(),
            final(self).modes@ == old(self).modes@,
            final(self).band == old(self).band,
            final(self).buf@ == old(self).buf@,
            final(self).at == old(self).at,
            final(self).next_acq == old(self).next_acq,
            final(self).pending is None,
            final(self).next_station == old(self).next_station,
            scan_applied(*old(self), *final(self), done.found@, caught@, decodes@),
    {
        self.pending = None;
        let ghost found = done.found@;
        let ghost is_block = |d: Decode| d.mode.protocol != Protocol::Psk;
        let ghost is_psk = |d: Decode| d.mode.protocol == Protocol::Psk;
        let mut emit: Vec<Decode> = Vec::new();
        let mut psk: Vec<Decode> = Vec::new();
        proof {
            filter_ends(found, is_block);
            filter_ends(found, is_psk);
        }
        for d in it: done.found
            invariant
                it.seq() == found,
                is_block == (|d: Decode| d.mode.protocol != Protocol::Psk),
                is_psk == (|d: Decode| d.mode.protocol == Protocol::Psk),
                emit@ == found.take(it.index()).filter(is_block),
                psk@ == found.take(it.index()).filter(is_psk),
        {
            proof {
                filter_one_more(found, is_block, it.index());
                filter_one_more(found, is_psk, it.index());
            }
            if d.mode.protocol == Protocol::Psk {
                psk.push(d);
            } else {
                emit.push(d);
            }
        }
        assert(emit@ == block_decodes(found));
        assert(psk@ == psk_decodes(found));
        assert forall|i: int| 0 <= i < caught@.len() implies (#[trigger] caught@[i]).offset * SAMPLE <= i64::MAX by {
            assert(caught@[i].offset <= self.live());
        }
        let mut read = stream_all(&self.stations, &caught, true);
        let ghost raw = read@;
        emit.append(&mut read);
        let ghost stations = self.stations@;
        let ghost ours = psk@;
        let ghost open = |d: Decode| !covered(stations, d);
        let ghost head = emit@;
        proof {
            filter_ends(ours, open);
        }
        for d in it: psk
            invariant
                it.seq() == ours,
                self.stations@ == stations,
                open == (|d: Decode| !covered(stations, d)),
                emit@ == head + ours.take(it.index()).filter(open),
        {
            proof {
                filter_one_more(ours, open, it.index());
            }
            let k: usize = find_carrier(&self.stations, &d.mode, d.hz);
            let is_covered = k < self.stations.len() && (if d.time_s < 0 {
                0
            } else {
                (d.time_s / SAMPLE) as u64
            }) >= self.stations[k].covered_from as u64;
            if !is_covered {
                emit.push(d);
            }
        }
        let ghost all = emit@;
        assert(all == offered(found, raw, stations));
        let ghost before = self.seen@;
        let mut seen: Vec<Said> = copied(&self.seen, 0, self.seen.len());
        assert(before.subrange(0, before.len() as int) == before);
        let mut fresh: Vec<Decode> = Vec::new();
        for d in it: emit
            invariant
                it.seq() == all,
                seen@ == said_all(before, all.take(it.index())),
                fresh@ == unsaid(before, all.take(it.index())),
        {
            proof {
                assert(all.take(it.index() + 1).drop_last() == all.take(it.index()));
            }
            if !Self::already_said(&seen, &d) {
                seen.push((d.mode, d.hz, d.time_s));
                fresh.push(d);
            }
        }
        assert(all.take(all.len() as int) == all);
        self.forget_said(seen);
        self.close_missed();
        let sorted = sort_by_time(fresh);
        self.in_order(sorted)
    }

    /// Keep of what has been reported only what a scan could still report again.
    fn forget_said(&mut self, seen: Vec<Said>)
        requires
            old(self).wf(),
        ensures
            final(self).wf(),
            final(self).same_but_reports(old(self)),
            final(self).high_water@ == old(self).high_water@,
            final(self).seen@ == still_said(seen@, old(self).at as int, old(self).window as int),
    {
        let cutoff: i128 = (self.at as i128 - self.window as i128) * SAMPLE as i128;
        let ghost p = |s: Said| s.2 >= (self.at - self.window) * SAMPLE;
        let mut kept: Vec<Said> = Vec::new();
        let mut i: usize = 0;
        proof {
            filter_ends(seen@, p);
        }
        while i < seen.len()
            invariant
                0 <= i <= seen@.len(),
                cutoff == (self.at - self.window) * SAMPLE,
                p == (|s: Said| s.2 >= (self.at - self.window) * SAMPLE),
                kept@ == seen@.take(i as int).filter(p),
            decreases seen.len() - i,
        {
            proof {
                filter_one_more(seen@, p, i as int);
            }
            if seen[i].2 as i128 >= cutoff {
                kept.push(seen[i]);
            }
            i += 1;
        }
        proof {
            filter_ends(seen@, p);
        }
        self.seen = kept;
    }

    /// Close the stations that have gone unconfirmed too often.
    fn close_missed(&mut self)
        requires
            old(self).wf(),
        ensures
            final(self).wf(),
            final(self).settled(),
            final(self).modes@ == old(self).modes@,
            final(self).band == old(self).band,
            final(self).buf@ == old(self).buf@,
            final(self).at == old(self).at,
            final(self).next_acq == old(self).next_acq,
            final(self).pending == old(self).pending,
            final(self).next_station == old(self).next_station,
            final(self).seen@ == old(self).seen@,
            final(self).high_water@ == old(self).high_water@,
            final(self).window == old(self).window,
            final(self).stations@ == old(self).stations@.filter(
                |s: Station| s.missed <= MISSES_BEFORE_CLOSE,
            ),
    {
        let ghost was = self.stations@;
        let ghost p = |s: Station| s.missed <= MISSES_BEFORE_CLOSE;
        let mut kept: Vec<Station> = Vec::new();
        let mut i: usize = 0;
        proof {
            filter_ends(was, p);
        }
        while i < self.stations.len()
            invariant
                0 <= i <= self.stations@.len(),
                self.stations@ == was,
                p == (|s: Station| s.missed <= MISSES_BEFORE_CLOSE),
                kept@ == was.take(i as int).filter(p),
            decreases self.stations.len() - i,
        {
            proof {
                filter_one_more(was, p, i as int);
            }
            if self.stations[i].missed <= MISSES_BEFORE_CLOSE {
                kept.push(self.stations[i]);
            }
            i += 1;
        }
        proof {
            filter_ends(was, p);
            sifted_in_order(was, p, self.live() as usize, self.next_station);
        }
        self.stations = kept;
        assert forall|k: int| 0 <= k < self.stations@.len() implies {
            &&& (#[trigger] self.stations@[k]).fed_to <= self.live()
            &&& self.stations@[k].id < self.next_station
            &&& self.stations@[k].missed <= MISSES_BEFORE_CLOSE
        } by {
            let j = choose|j: int| 0 <= j < was.len() && was[j] == was.filter(p)[k];
            assert(was[j].fed_to <= self.live());
        }
    }
}

/// A group has the mode of one of the decodes it was made of.
proof fn groups_have_modes(found: Seq<Decode>)
    ensures
        forall|i: int|
            0 <= i < grouped(found).len() ==> exists|j: int|
                0 <= j < found.len() && (#[trigger] found[j]).mode == (#[trigger] grouped(found)[i]).mode,
    decreases found.len(),
{
    if found.len() > 0 {
        let front = found.drop_last();
        groups_have_modes(front);
        let d = found.last();
        first_where_found(grouped(front), |g: Group| same_carrier(g.mode, g.hz, d.mode, d.hz));
        assert forall|i: int| 0 <= i < grouped(found).len() implies exists|j: int|
            0 <= j < found.len() && (#[trigger] found[j]).mode == (#[trigger] grouped(found)[i]).mode by {
            if i < grouped(front).len() {
                assert(grouped(found)[i].mode == grouped(front)[i].mode);
                let j = choose|j: int|
                    0 <= j < front.len() && (#[trigger] front[j]).mode == grouped(front)[i].mode;
                assert(found[j].mode == grouped(found)[i].mode);
            } else {
                assert(found[found.len() - 1].mode == grouped(found)[i].mode);
            }
        }
    }
}

impl<S: Copy> Acquisition<S> {
    /// The block scan's result with its times on the decoder's clock rather than
    /// the window's.
    pub fn run(self, decoded: Vec<Decode>) -> (done: Acquired)
        requires
            forall|i: int|
                0 <= i < decoded@.len() ==> (#[trigger] decoded@[i]).time_s + self.at * SAMPLE <= i64::MAX,
        ensures
            done.found@.len() == decoded@.len(),
            forall|i: int|
                0 <= i < decoded@.len() ==> (#[trigger] done.found@[i]) == (Decode {
                    time_s: (decoded@[i].time_s + self.at * SAMPLE) as i64,
                    ..decoded@[i]
                }),
    {
        let ghost all = decoded@;
        let at: usize = self.at;
        let mut found: Vec<Decode> = Vec::new();
        for d in it: decoded
            invariant
                it.seq() == all,
                at == self.at,
                forall|i: int|
                    0 <= i < all.len() ==> (#[trigger] all[i]).time_s + at * SAMPLE <= i64::MAX,
                found@.len() == it.index(),
                forall|i: int|
                    0 <= i < it.index() ==> (#[trigger] found@[i]) == (Decode {
                        time_s: (all[i].time_s + at * SAMPLE) as i64,
                        ..all[i]
                    }),
        {
            let shifted: i128 = d.time_s as i128 + at as i128 * SAMPLE as i128;
            assert(all[it.index()].time_s + at * SAMPLE <= i64::MAX);
            found.push(Decode { time_s: shifted as i64, ..d });
        }
        Acquired { found }
    }
}

} // verus!
