//! The audio that a live capture holds, and how it is dated.

use crate::find::copied;
use crate::modes::{Decode, ModeId, Ticks, SAMPLE};
use vstd::prelude::*;

verus! {

/// How far past its capacity the audio buffer is allowed to run before it is
/// cut back: half a minute, so that the audio held is moved twice a minute
/// rather than with every block.
pub const TRIM_BLOCK: usize = 360_000;

/// Wall clock unaccounted for by arriving audio before the capture is taken to
/// have stalled and the anchor is moved.
pub const STALL_GAP_S: Ticks = 6_000_000;

/// How far past the cycle and the frame a search for late frames looks.
pub const SEARCH_SPAN_S: Ticks = 24_000_000;

/// A rolling buffer of samples with absolute indexing and a wall-clock anchor,
/// so that any time maps to a range of samples.
pub struct AudioBuf<S> {
    pub samples: Vec<S>,
    /// Index of the first sample held, from the first ever captured.
    pub global_start: u64,
    /// Wall-clock time of the first sample ever captured.
    pub start_unix: Ticks,
    /// Samples held once the buffer is cut back.
    pub cap: usize,
    pub started: bool,
    /// When the last block of samples arrived.
    pub last_append: Ticks,
    /// Wall clock that the capture has lost to stalls.
    pub slipped_s: Ticks,
    /// How much of that is yet to be reported.
    pub unreported_slip_s: Ticks,
}

/// The wall clock that a block does not account for: the time since the one
/// before, less the audio that it brings.
pub open spec fn gap_before(now: Ticks, last: Ticks, samples: nat) -> int {
    now - last - samples * SAMPLE
}

impl<S> AudioBuf<S> {
    /// How many samples were ever captured.
    pub open spec fn captured(&self) -> int {
        self.global_start + self.samples@.len()
    }

    /// What every buffer keeps to.
    pub open spec fn wf(&self) -> bool {
        &&& self.cap + TRIM_BLOCK <= usize::MAX
        &&& self.samples@.len() <= self.cap + TRIM_BLOCK
        &&& self.captured() * SAMPLE <= i64::MAX
    }

    /// Whether a block that arrives at `now` follows a stall.
    pub open spec fn stalled(&self, now: Ticks, samples: nat) -> bool {
        self.started && gap_before(now, self.last_append, samples) > STALL_GAP_S
    }

    /// Whether a block that arrives at `now` can still be counted.
    pub open spec fn has_room(&self, now: Ticks, samples: nat) -> bool {
        let gap = gap_before(now, self.last_append, samples);
        &&& self.samples@.len() + samples <= usize::MAX
        &&& (self.captured() + samples) * SAMPLE <= i64::MAX
        &&& self.stalled(now, samples) ==> {
            &&& self.start_unix + gap <= i64::MAX
            &&& self.slipped_s + gap <= i64::MAX
            &&& self.unreported_slip_s + gap <= i64::MAX
        }
    }

    /// Whether this is what the buffer `before` comes to hold when it takes the
    /// block `s`: all of it behind what it held, and only its newest `cap` samples
    /// where that would be more than a block past them.
    pub open spec fn rolled_on(&self, before: AudioBuf<S>, s: Seq<S>) -> bool {
        let all = before.samples@ + s;
        &&& self.cap == before.cap
        &&& if all.len() > before.cap + TRIM_BLOCK {
            &&& self.samples@ == all.skip(all.len() - before.cap)
            &&& self.global_start == before.global_start + all.len() - before.cap
        } else {
            &&& self.samples@ == all
            &&& self.global_start == before.global_start
        }
    }

    /// Whether the buffer holds the end of `stream`, from its first sample held
    /// on, and `stream` is all that was ever captured.
    pub open spec fn carries(&self, stream: Seq<S>) -> bool {
        &&& self.captured() == stream.len()
        &&& self.samples@ == stream.skip(self.global_start as int)
    }

    /// The sample with global index `g`.
    pub open spec fn sample(&self, g: int) -> S {
        self.samples@[g - self.global_start]
    }

    /// Whether the sample with global index `g` is held.
    pub open spec fn holds(&self, g: int) -> bool {
        self.global_start <= g < self.captured()
    }

    /// The samples held of a range of global indices.
    pub open spec fn range(&self, g0: int, g1: int) -> Seq<S> {
        let lo = if g0 > self.global_start { g0 } else { self.global_start as int };
        let hi = if g1 < self.captured() { g1 } else { self.captured() };
        if hi <= lo {
            Seq::empty()
        } else {
            self.samples@.subrange(lo - self.global_start, hi - self.global_start)
        }
    }

    /// The global index of the sample at a wall-clock time.
    pub open spec fn index_at(&self, t: Ticks) -> int {
        if t <= self.start_unix {
            0
        } else {
            (t - self.start_unix) / SAMPLE as int
        }
    }

    /// Where the newest `span` of audio begins, as far as it is held.
    pub open spec fn newest_from(&self, span: int) -> int {
        let g = self.captured() - span / SAMPLE as int;
        if g > self.global_start {
            g
        } else {
            self.global_start as int
        }
    }
}

impl<S: Copy> AudioBuf<S> {
    /// A buffer that has captured nothing.
    pub fn new(cap: usize) -> (b: AudioBuf<S>)
        requires
            cap + TRIM_BLOCK <= usize::MAX,
        ensures
            b.wf(),
            b.samples@.len() == 0,
            b.global_start == 0,
            b.start_unix == 0,
            b.cap == cap,
            !b.started,
            b.last_append == 0,
            b.slipped_s == 0,
            b.unreported_slip_s == 0,
            b.carries(Seq::empty()),
    {
        let b: AudioBuf<S> = AudioBuf {
            samples: Vec::new(),
            global_start: 0,
            start_unix: 0,
            cap,
            started: false,
            last_append: 0,
            slipped_s: 0,
            unreported_slip_s: 0,
        };
        assert(b.samples@ == Seq::<S>::empty().skip(0));
        b
    }

    /// Take a block of captured samples that arrived at `now`, and keep the
    /// wall-clock anchor honest.
    ///
    /// The samples that a stall cost are never made up, so a stall moves the
    /// anchor by what it cost. A block that is merely late brings its audio with
    /// it and moves nothing.
    pub fn append(&mut self, s: &[S], now: Ticks)
        requires
            old(self).wf(),
            old(self).has_room(now, s@.len()),
        ensures
            final(self).wf(),
            final(self).cap == old(self).cap,
            final(self).started,
            final(self).last_append == now,
            ({
                let gap = gap_before(now, old(self).last_append, s@.len());
                if !old(self).started {
                    &&& final(self).start_unix == now
                    &&& final(self).slipped_s == old(self).slipped_s
                    &&& final(self).unreported_slip_s == old(self).unreported_slip_s
                } else if old(self).stalled(now, s@.len()) {
                    &&& final(self).start_unix == old(self).start_unix + gap
                    &&& final(self).slipped_s == old(self).slipped_s + gap
                    &&& final(self).unreported_slip_s == old(self).unreported_slip_s + gap
                } else {
                    &&& final(self).start_unix == old(self).start_unix
                    &&& final(self).slipped_s == old(self).slipped_s
                    &&& final(self).unreported_slip_s == old(self).unreported_slip_s
                }
            }),
            old(self).started ==> {
                let gap = now - old(self).last_append - s@.len() * 1_000;
                let behind = old(self).last_append - (old(self).start_unix + old(self).captured() * 1_000);
                &&& now - (final(self).start_unix + final(self).captured() * 1_000) == if gap > 6_000_000 {
                    behind
                } else {
                    behind + gap
                }
                &&& final(self).slipped_s - old(self).slipped_s == final(self).start_unix - old(self).start_unix
                &&& final(self).unreported_slip_s - old(self).unreported_slip_s == final(self).start_unix - old(
                    self,
                ).start_unix
            },
            final(self).rolled_on(*old(self), s@),
            final(self).captured() == old(self).captured() + s@.len(),
            final(self).samples@.len() <= final(self).cap + TRIM_BLOCK,
            forall|stream: Seq<S>| #[trigger]
                old(self).carries(stream) ==> final(self).carries(stream + s@),
    {
        let ghost was = *self;
        if !self.started {
            self.start_unix = now;
            self.started = true;
        } else {
            let gap: i128 = now as i128 - self.last_append as i128 - s.len() as i128 * SAMPLE as i128;
            if gap > STALL_GAP_S as i128 {
                self.start_unix = (self.start_unix as i128 + gap) as i64;
                self.slipped_s = (self.slipped_s as i128 + gap) as i64;
                self.unreported_slip_s = (self.unreported_slip_s as i128 + gap) as i64;
            }
        }
        self.last_append = now;
        let ghost dated = *self;
        let mut i: usize = 0;
        assert(self.samples@ == was.samples@ + s@.take(0));
        while i < s.len()
            invariant
                0 <= i <= s@.len(),
                *self == (AudioBuf { samples: self.samples, ..dated }),
                self.samples@ == was.samples@ + s@.take(i as int),
            decreases s.len() - i,
        {
            self.samples.push(s[i]);
            assert(was.samples@ + s@.take(i + 1) == (was.samples@ + s@.take(i as int)).push(s@[i as int]));
            i += 1;
        }
        assert(s@.take(s@.len() as int) == s@);
        let ghost all = self.samples@;
        if self.samples.len() > self.cap + TRIM_BLOCK {
            let drop: usize = self.samples.len() - self.cap;
            self.samples = self.samples.split_off(drop);
            assert(self.samples@ == all.skip(drop as int));
            self.global_start = self.global_start + drop as u64;
        }
        proof {
            assert forall|stream: Seq<S>| #[trigger] was.carries(stream) implies self.carries(stream + s@) by {
                rolling_keeps_the_end(was, *self, stream, s@);
            }
        }
    }

    /// Whether a block of `samples` that arrives at `now` can still be counted.
    pub fn can_take(&self, now: Ticks, samples: usize) -> (r: bool)
        requires
            self.wf(),
        ensures
            r == self.has_room(now, samples as nat),
    {
        let held: i128 = self.samples.len() as i128;
        let top: i128 = i64::MAX as i128;
        let gap: i128 = now as i128 - self.last_append as i128 - samples as i128 * SAMPLE as i128;
        let all: i128 = self.global_start as i128 + held + samples as i128;
        if held + samples as i128 > usize::MAX as i128 || all * SAMPLE as i128 > top {
            return false;
        }
        !(self.started && gap > STALL_GAP_S as i128) || (self.start_unix as i128 + gap <= top
            && self.slipped_s as i128 + gap <= top && self.unreported_slip_s as i128 + gap <= top)
    }

    /// Global index one past the newest sample: how many were ever captured.
    pub fn global_len(&self) -> (n: u64)
        requires
            self.wf(),
        ensures
            n == self.captured(),
    {
        self.global_start + self.samples.len() as u64
    }

    /// Global index of the oldest sample held.
    pub fn global_start(&self) -> (g: u64)
        ensures
            g == self.global_start,
    {
        self.global_start
    }

    /// Wall-clock time of the first sample ever captured.
    pub fn start_unix(&self) -> (t: Ticks)
        ensures
            t == self.start_unix,
    {
        self.start_unix
    }

    /// Whether anything has been captured.
    pub fn started(&self) -> (r: bool)
        ensures
            r == self.started,
    {
        self.started
    }

    /// How far the captured audio has fallen behind the wall clock.
    ///
    /// The number to look at first when decoding has stopped but the waterfall
    /// has not: the waterfall walks the buffer by index, while a decoder asks
    /// for a window by the clock.
    pub fn lag_s(&self, now: Ticks) -> (lag: i128)
        requires
            self.wf(),
        ensures
            lag == if self.started {
                now - (self.start_unix + self.captured() * SAMPLE)
            } else {
                0
            },
    {
        if !self.started {
            return 0;
        }
        now as i128 - (self.start_unix as i128 + self.global_len() as i128 * SAMPLE as i128)
    }

    /// Wall clock lost to stalls in total, and how much of it is new since this
    /// was last asked.
    pub fn take_slip(&mut self) -> (slip: (Ticks, Ticks))
        ensures
            slip == (old(self).slipped_s, old(self).unreported_slip_s),
            *final(self) == (AudioBuf { unreported_slip_s: 0, ..*old(self) }),
    {
        let fresh: Ticks = self.unreported_slip_s;
        self.unreported_slip_s = 0;
        (self.slipped_s, fresh)
    }

    /// Copy samples for a range of global indices, as far as they are held.
    pub fn slice_global(&self, g0: u64, g1: u64) -> (out: Vec<S>)
        requires
            self.wf(),
        ensures
            out@ == self.range(g0 as int, g1 as int),
    {
        let lo: u64 = if g0 > self.global_start {
            g0
        } else {
            self.global_start
        };
        let end: u64 = self.global_len();
        let hi: u64 = if g1 < end {
            g1
        } else {
            end
        };
        if hi <= lo {
            return Vec::new();
        }
        copied(&self.samples, (lo - self.global_start) as usize, (hi - self.global_start) as usize)
    }

    /// The `n` samples from global index `g0` on, or nothing if they are not all
    /// held.
    pub fn window_at(&self, g0: u64, n: usize) -> (out: Option<Vec<S>>)
        requires
            self.wf(),
        ensures
            match out {
                Some(w) => {
                    &&& self.global_start <= g0 && g0 + n <= self.captured()
                    &&& w@ == self.range(g0 as int, g0 + n)
                    &&& w@.len() == n
                },
                None => g0 < self.global_start || g0 + n > self.captured(),
            },
    {
        let end: u64 = self.global_len();
        if g0 < self.global_start || g0 > end || n as u64 > end - g0 {
            return None;
        }
        Some(self.slice_global(g0, g0 + n as u64))
    }

    /// `secs` of audio from wall-clock time `from` on, and the time of the first
    /// sample of it from the start of the capture.
    pub fn slice_around(&self, from: Ticks, secs: Ticks) -> (out: (Vec<S>, Ticks))
        requires
            self.wf(),
            0 <= secs,
            from - self.start_unix + secs <= i64::MAX,
        ensures
            !self.started ==> out.0@.len() == 0 && out.1 == 0,
            self.started ==> {
                let g0 = self.index_at(from);
                let first = if g0 > self.global_start { g0 } else { self.global_start as int };
                &&& out.0@ == self.range(g0, g0 + secs as int / SAMPLE as int)
                &&& out.1 == first * SAMPLE
            },
    {
        if !self.started {
            return (Vec::new(), 0);
        }
        let g0: u64 = if from <= self.start_unix {
            0
        } else {
            ((from as i128 - self.start_unix as i128) as i64 / SAMPLE) as u64
        };
        let g1: u64 = g0 + (secs / SAMPLE) as u64;
        let first: u64 = if g0 > self.global_start {
            g0
        } else {
            self.global_start
        };
        (self.slice_global(g0, g1), first as i64 * SAMPLE)
    }

    /// The newest audio, long enough to hold a whole frame of `mode` wherever in
    /// its cycle that begins, and the time of its first sample from the start of
    /// the capture; nothing if there is not so much as a frame of it.
    ///
    /// Addressed by index rather than by the clock: the anchor being wrong is
    /// half of what a search is there to recover from.
    pub fn search_window(&self, mode: &ModeId, period: Ticks) -> (out: Option<(Vec<S>, Ticks)>)
        requires
            self.wf(),
            0 <= period,
            period + mode.chunk + SEARCH_SPAN_S <= i64::MAX,
        ensures
            match out {
                Some((samples, start)) => {
                    let g0 = self.newest_from(period + mode.chunk + SEARCH_SPAN_S);
                    &&& self.started
                    &&& samples@ == self.range(g0, self.captured())
                    &&& samples@.len() * SAMPLE >= mode.chunk
                    &&& start == g0 * SAMPLE
                    &&& g0 == self.newest_from(period + mode.chunk + 24_000_000)
                },
                None => !self.started || self.range(
                    self.newest_from(period + mode.chunk + SEARCH_SPAN_S),
                    self.captured(),
                ).len() * SAMPLE < mode.chunk,
            },
    {
        if !self.started {
            return None;
        }
        let span: i64 = period + mode.chunk as i64 + SEARCH_SPAN_S;
        let g1: u64 = self.global_len();
        let back: u64 = (span / SAMPLE) as u64;
        let g0: u64 = if g1 > back && g1 - back > self.global_start {
            g1 - back
        } else {
            self.global_start
        };
        let samples = self.slice_global(g0, g1);
        if is_short(samples.len(), mode) {
            return None;
        }
        Some((samples, g0 as i64 * SAMPLE))
    }
}

/// Whether so many samples are less than one frame of `mode`.
pub fn is_short(samples: usize, mode: &ModeId) -> (r: bool)
    ensures
        r == (samples * SAMPLE < mode.chunk),
{
    (samples as i128) * (SAMPLE as i128) < mode.chunk as i128
}

/// The latest of the times of decodes.
pub open spec fn newest(ds: Seq<Decode>) -> Option<Ticks>
    decreases ds.len(),
{
    if ds.len() == 0 {
        None
    } else {
        match newest(ds.drop_last()) {
            Some(t) if t >= ds.last().time_s => Some(t),
            _ => Some(ds.last().time_s),
        }
    }
}

/// Where a mode's frames are actually arriving, as a phase within the cycle:
/// that of the newest frame found, in a window that began at `win_start` of a
/// capture that began at `start_unix`. Nothing found is nothing learned.
pub fn measure_offset(found: &Vec<Decode>, start_unix: Ticks, win_start: Ticks, period: Ticks) -> (phase: Option<
    Ticks,
>)
    requires
        period > 0,
    ensures
        match newest(found@) {
            None => phase is None,
            Some(t) => phase is Some && phase->0 == (start_unix + win_start + t) % (period as int),
        },
{
    let mut last: Option<Ticks> = None;
    let mut i: usize = 0;
    assert(found@.take(0).len() == 0);
    while i < found.len()
        invariant
            0 <= i <= found@.len(),
            last == newest(found@.take(i as int)),
        decreases found.len() - i,
    {
        assert(found@.take(i + 1).drop_last() == found@.take(i as int));
        let t: Ticks = found[i].time_s;
        last = match last {
            Some(l) => Some(if l >= t { l } else { t }),
            None => Some(t),
        };
        i += 1;
    }
    assert(found@.take(found@.len() as int) == found@);
    match last {
        None => None,
        Some(t) => {
            let at: i128 = start_unix as i128 + win_start as i128 + t as i128;
            Some(rem_euclid(at, period as i128) as i64)
        },
    }
}

/// The remainder that is never negative.
pub(crate) fn rem_euclid(a: i128, m: i128) -> (r: i128)
    requires
        m > 0,
        -0x4000_0000_0000_0000_0000_0000 < a < 0x4000_0000_0000_0000_0000_0000,
    ensures
        r == a as int % m as int,
        0 <= r < m,
{
    if a >= 0 {
        a % m
    } else {
        let r: i128 = (-a) % m;
        proof {
            vstd::arithmetic::div_mod::lemma_fundamental_div_mod(-a as int, m as int);
            let q = (-a) as int / m as int;
            if r == 0 {
                assert(a == (-q) * m) by (nonlinear_arith)
                    requires
                        -a == m * q,
                ;
                vstd::arithmetic::div_mod::lemma_fundamental_div_mod_converse(a as int, m as int, -q, 0);
            } else {
                assert(a == (-q - 1) * m + (m - r)) by (nonlinear_arith)
                    requires
                        -a == m * q + r,
                ;
                vstd::arithmetic::div_mod::lemma_fundamental_div_mod_converse(
                    a as int,
                    m as int,
                    -q - 1,
                    m - r,
                );
            }
        }
        if r == 0 {
            0
        } else {
            m - r
        }
    }
}

/// Rebase decode times from the window's to the capture's.
pub fn shift_times(decodes: Vec<Decode>, win_start: Ticks) -> (out: Vec<Decode>)
    requires
        forall|i: int|
            0 <= i < decodes@.len() ==> i64::MIN <= (#[trigger] decodes@[i]).time_s + win_start <= i64::MAX,
    ensures
        out@ == decodes@.map_values(
            |d: Decode| Decode { time_s: (d.time_s + win_start) as i64, ..d },
        ),
{
    let ghost all = decodes@;
    let ghost f = |d: Decode| Decode { time_s: (d.time_s + win_start) as i64, ..d };
    let mut out: Vec<Decode> = Vec::new();
    for d in it: decodes
        invariant
            it.seq() == all,
            f == (|d: Decode| Decode { time_s: (d.time_s + win_start) as i64, ..d }),
            forall|i: int|
                0 <= i < all.len() ==> i64::MIN <= (#[trigger] all[i]).time_s + win_start <= i64::MAX,
            out@ == all.take(it.index()).map_values(f),
    {
        assert(i64::MIN <= all[it.index()].time_s + win_start <= i64::MAX);
        let ghost before = out@;
        out.push(Decode { time_s: d.time_s + win_start, ..d });
        assert(all.take(it.index() + 1).map_values(f) == before.push(f(all[it.index()])));
    }
    assert(all.take(all.len() as int) == all);
    out
}

proof fn rolling_keeps_the_end<S>(before: AudioBuf<S>, after: AudioBuf<S>, stream: Seq<S>, s: Seq<S>)
    requires
        after.rolled_on(before, s),
        before.carries(stream),
    ensures
        after.carries(stream + s),
{
    let from = before.global_start as int;
    assert((stream + s).skip(from) == stream.skip(from) + s);
    let all = before.samples@ + s;
    if all.len() > before.cap + TRIM_BLOCK {
        let drop = all.len() - before.cap;
        assert((stream + s).skip(from + drop) == (stream + s).skip(from).skip(drop));
    }
}

/// Blocks of audio, one behind the other.
pub open spec fn stream_of<S>(blocks: Seq<Seq<S>>) -> Seq<S>
    decreases blocks.len(),
{
    if blocks.len() == 0 {
        Seq::empty()
    } else {
        stream_of(blocks.drop_last()) + blocks.last()
    }
}

/// Whether `states` are those that a new buffer goes through as it takes `blocks`.
pub open spec fn takes_in<S>(states: Seq<AudioBuf<S>>, blocks: Seq<Seq<S>>) -> bool {
    &&& states.len() == blocks.len() + 1
    &&& states[0].samples@.len() == 0
    &&& states[0].global_start == 0
    &&& forall|i: int| 0 <= i < blocks.len() ==> (#[trigger] states[i + 1]).rolled_on(states[i], blocks[i])
}

/// Whatever blocks a buffer has taken, it has counted every sample of the stream
/// they make, and what it holds is that stream from its first sample held on,
/// with no more than a block past its capacity.
pub proof fn a_buffer_holds_the_end_of_its_stream<S>(states: Seq<AudioBuf<S>>, blocks: Seq<Seq<S>>)
    requires
        takes_in(states, blocks),
    ensures
        states.last().carries(stream_of(blocks)),
        states.last().cap == states[0].cap,
        states.last().samples@.len() <= states[0].cap + TRIM_BLOCK,
        forall|to: int| to >= stream_of(blocks).len() ==> #[trigger] states.last().range(0, to)
            == stream_of(blocks).skip(states.last().global_start as int),
    decreases blocks.len(),
{
    let b = states.last();
    if blocks.len() > 0 {
        let n = blocks.len() - 1;
        let earlier = states.drop_last();
        assert forall|i: int| 0 <= i < blocks.drop_last().len() implies (#[trigger] earlier[i + 1]).rolled_on(
            earlier[i],
            blocks.drop_last()[i],
        ) by {
            assert(states[i + 1].rolled_on(states[i], blocks[i]));
        }
        a_buffer_holds_the_end_of_its_stream(earlier, blocks.drop_last());
        assert(states[n + 1].rolled_on(states[n], blocks[n]));
        rolling_keeps_the_end(states[n], b, stream_of(blocks.drop_last()), blocks.last());
    } else {
        assert(b.samples@ == stream_of(blocks).skip(0));
    }
    assert forall|to: int| to >= stream_of(blocks).len() implies #[trigger] b.range(0, to) == stream_of(
        blocks,
    ).skip(b.global_start as int) by {
        assert(b.range(0, to) == b.samples@);
    }
}

/// What is held is cut back only by a block that would take it past what may be
/// held, and then to the capacity.
pub proof fn a_cut_is_to_capacity<S>(before: AudioBuf<S>, after: AudioBuf<S>, s: Seq<S>)
    requires
        after.rolled_on(before, s),
    ensures
        after.global_start != before.global_start ==> before.samples@.len() + s.len() > before.cap + TRIM_BLOCK,
        before.samples@.len() + s.len() > before.cap + TRIM_BLOCK ==> after.samples@.len() == before.cap,
{
}

/// What is held of the audio never changes as more arrives.
pub proof fn captured_audio_stays_put<S>(before: AudioBuf<S>, after: AudioBuf<S>, s: Seq<S>, g: int)
    requires
        after.rolled_on(before, s),
        after.holds(g),
    ensures
        before.holds(g) ==> after.sample(g) == before.sample(g),
        !before.holds(g) ==> after.sample(g) == s[g - before.captured()],
{
}

/// A stall leaves the capture as close to the clock as it was before the stall:
/// the anchor moves by exactly what was lost.
pub proof fn a_stall_moves_the_anchor<S>(before: AudioBuf<S>, after: AudioBuf<S>, now: Ticks, n: nat)
    requires
        before.started,
        before.stalled(now, n),
        after.start_unix == before.start_unix + gap_before(now, before.last_append, n),
        after.captured() == before.captured() + n,
    ensures
        now - (after.start_unix + after.captured() * SAMPLE) == before.last_append - (before.start_unix
            + before.captured() * SAMPLE),
{
}

} // verus!
