//! How the decode threads of a capture are doing.

use crate::modes::Ticks;
use crate::text::{
    decimal, hundredths_text, push_decimal, push_hundredths, push_tenths, push_whole, round_even, rounded,
    tenths_text, whole_text,
};
use vstd::prelude::*;

verus! {

/// How often the health of the capture is reported.
pub const HEARTBEAT_S: Ticks = 360_000_000;

/// Longest the cycle-aligned thread may go between passes before it counts as
/// stuck.
pub const JS8_STALL_S: Ticks = 1_080_000_000;

/// Longest the continuous thread may.
pub const CONT_STALL_S: Ticks = 720_000_000;

/// Lag past which the capture's timeline is far enough from the wall clock to
/// be moving decode windows off the signal.
pub const LAG_WARN_S: Ticks = 24_000_000;

/// The counters of one decode thread, as read at one instant.
#[derive(Clone, Copy, Debug, PartialEq, Eq, Structural)]
pub struct ThreadHealth {
    pub passes: u64,
    pub decodes: u64,
    pub short: u64,
    pub searches: u64,
    pub skipped: u64,
    /// What the last pass cost, in milliseconds.
    pub last_ms: u64,
    /// Whether the thread is running.
    pub running: bool,
    /// Whether the thread was asked for.
    pub wanted: bool,
    /// How long ago it last began a pass, in [`Ticks`], if it ever did.
    pub since_pass: Option<u64>,
}

/// The counters of a capture, as read at one instant.
#[derive(Clone, Copy, Debug, PartialEq, Eq, Structural)]
pub struct Health {
    pub ui_columns: u64,
    pub ui_frames: u64,
    pub js8: ThreadHealth,
    pub continuous: ThreadHealth,
}

/// One thread's counters over one heartbeat.
#[derive(Clone, Copy, Debug, PartialEq, Eq, Structural)]
pub struct ThreadDelta {
    pub passes: u64,
    pub decodes: u64,
    pub short: u64,
    pub searches: u64,
    pub skipped: u64,
}

/// Counter readings at one instant, so that rates can be reported rather than
/// totals.
#[derive(Clone, Copy, Debug, PartialEq, Eq, Structural)]
pub struct Snapshot {
    pub ui_columns: u64,
    pub ui_frames: u64,
    pub js8: ThreadDelta,
    pub cont: ThreadDelta,
}

impl ThreadDelta {
    /// Whether no counter stands lower than it did.
    pub open spec fn grown_from(&self, then: ThreadDelta) -> bool {
        &&& self.passes >= then.passes
        &&& self.decodes >= then.decodes
        &&& self.short >= then.short
        &&& self.searches >= then.searches
        &&& self.skipped >= then.skipped
    }

    /// The counters of a thread.
    pub fn of(h: &ThreadHealth) -> (d: ThreadDelta)
        ensures
            d.passes == h.passes,
            d.decodes == h.decodes,
            d.short == h.short,
            d.searches == h.searches,
            d.skipped == h.skipped,
    {
        ThreadDelta {
            passes: h.passes,
            decodes: h.decodes,
            short: h.short,
            searches: h.searches,
            skipped: h.skipped,
        }
    }

    /// How far each counter has moved since `then`.
    pub fn since(&self, then: &ThreadDelta) -> (d: ThreadDelta)
        requires
            self.grown_from(*then),
        ensures
            d.passes == self.passes - then.passes,
            d.decodes == self.decodes - then.decodes,
            d.short == self.short - then.short,
            d.searches == self.searches - then.searches,
            d.skipped == self.skipped - then.skipped,
    {
        ThreadDelta {
            passes: self.passes - then.passes,
            decodes: self.decodes - then.decodes,
            short: self.short - then.short,
            searches: self.searches - then.searches,
            skipped: self.skipped - then.skipped,
        }
    }
}

impl Snapshot {
    /// The counters of a capture.
    pub fn of(h: &Health) -> (s: Snapshot)
        ensures
            s.ui_columns == h.ui_columns,
            s.ui_frames == h.ui_frames,
            s.js8 == (ThreadDelta {
                passes: h.js8.passes,
                decodes: h.js8.decodes,
                short: h.js8.short,
                searches: h.js8.searches,
                skipped: h.js8.skipped,
            }),
            s.cont == (ThreadDelta {
                passes: h.continuous.passes,
                decodes: h.continuous.decodes,
                short: h.continuous.short,
                searches: h.continuous.searches,
                skipped: h.continuous.skipped,
            }),
    {
        Snapshot {
            ui_columns: h.ui_columns,
            ui_frames: h.ui_frames,
            js8: ThreadDelta::of(&h.js8),
            cont: ThreadDelta::of(&h.continuous),
        }
    }

    /// How far each counter has moved since `then`.
    pub fn since(&self, then: &Snapshot) -> (s: Snapshot)
        requires
            self.ui_columns >= then.ui_columns,
            self.ui_frames >= then.ui_frames,
            self.js8.grown_from(then.js8),
            self.cont.grown_from(then.cont),
        ensures
            s.ui_columns == self.ui_columns - then.ui_columns,
            s.ui_frames == self.ui_frames - then.ui_frames,
            s.js8.passes == self.js8.passes - then.js8.passes,
            s.js8.decodes == self.js8.decodes - then.js8.decodes,
            s.js8.short == self.js8.short - then.js8.short,
            s.js8.searches == self.js8.searches - then.js8.searches,
            s.js8.skipped == self.js8.skipped - then.js8.skipped,
            s.cont.passes == self.cont.passes - then.cont.passes,
            s.cont.decodes == self.cont.decodes - then.cont.decodes,
            s.cont.short == self.cont.short - then.cont.short,
            s.cont.searches == self.cont.searches - then.cont.searches,
            s.cont.skipped == self.cont.skipped - then.cont.skipped,
    {
        Snapshot {
            ui_columns: self.ui_columns - then.ui_columns,
            ui_frames: self.ui_frames - then.ui_frames,
            js8: self.js8.since(&then.js8),
            cont: self.cont.since(&then.cont),
        }
    }
}

/// Whole seconds, to the nearest.
pub open spec fn whole_seconds(t: nat) -> nat {
    rounded(t, 12_000_000)
}

/// Whole seconds, to the nearest.
pub fn to_seconds(t: u64) -> (s: u64)
    ensures
        s == whole_seconds(t as nat),
{
    round_even(t, 12_000_000)
}

/// When a thread last began a pass, in words.
pub open spec fn last_pass(since: Option<u64>) -> Seq<char> {
    match since {
        Some(t) => decimal(whole_seconds(t as nat)) + "s ago"@,
        None => "never"@,
    }
}

/// One thread's part of the health line.
///
/// Searching and skipping are the cycle-aligned thread's alone: searches are
/// left off a thread that never made one, and skipped cycles off one that never
/// skipped any.
pub open spec fn summary(h: ThreadHealth, d: ThreadDelta) -> Seq<char> {
    "passes=+"@ + decimal(d.passes as nat) + " decodes=+"@ + decimal(d.decodes as nat) + " short=+"@ + decimal(
        d.short as nat,
    ) + (if d.searches > 0 || h.searches > 0 {
        " searches=+"@ + decimal(d.searches as nat)
    } else {
        Seq::empty()
    }) + (if h.skipped > 0 {
        " skipped=+"@ + decimal(d.skipped as nat)
    } else {
        Seq::empty()
    }) + " last="@ + last_pass(h.since_pass) + " cost="@ + decimal(h.last_ms as nat) + "ms run="@ + (if h.running {
        "1"@
    } else {
        "0"@
    })
}

/// One thread's part of the health line.
pub fn thread_summary(h: &ThreadHealth, d: ThreadDelta) -> (line: String)
    ensures
        line@ == summary(*h, d),
{
    let mut out = String::new();
    out.append("passes=+");
    push_decimal(&mut out, d.passes);
    out.append(" decodes=+");
    push_decimal(&mut out, d.decodes);
    out.append(" short=+");
    push_decimal(&mut out, d.short);
    let ghost s0 = out@;
    assert(s0 == "passes=+"@ + decimal(d.passes as nat) + " decodes=+"@ + decimal(d.decodes as nat) + " short=+"@
        + decimal(d.short as nat));
    if d.searches > 0 || h.searches > 0 {
        out.append(" searches=+");
        push_decimal(&mut out, d.searches);
        assert(out@ == s0 + (" searches=+"@ + decimal(d.searches as nat)));
    } else {
        assert(out@ == s0 + Seq::<char>::empty());
    }
    let ghost s1 = out@;
    if h.skipped > 0 {
        out.append(" skipped=+");
        push_decimal(&mut out, d.skipped);
        assert(out@ == s1 + (" skipped=+"@ + decimal(d.skipped as nat)));
    } else {
        assert(out@ == s1 + Seq::<char>::empty());
    }
    out.append(" last=");
    let ghost s2 = out@;
    match h.since_pass {
        Some(t) => {
            push_decimal(&mut out, to_seconds(t));
            out.append("s ago");
        },
        None => {
            out.append("never");
        },
    }
    assert(out@ == s2 + last_pass(h.since_pass));
    out.append(" cost=");
    push_decimal(&mut out, h.last_ms);
    out.append("ms run=");
    if h.running {
        out.append("1");
    } else {
        out.append("0");
    }
    out
}

/// What is wrong with a decode thread.
#[derive(Clone, Copy, Debug, PartialEq, Eq, Structural)]
pub enum Fault {
    /// It is no longer running.
    Stopped,
    /// It has not begun a pass for this long.
    Quiet(u64),
}

/// What is wrong with a decode thread that may go `limit` between passes, if
/// anything is. A thread nobody asked for is not a fault.
pub fn check_stall(h: &ThreadHealth, limit: u64) -> (fault: Option<Fault>)
    ensures
        fault == fault_of(*h, limit),
{
    if !h.wanted {
        return None;
    }
    if !h.running {
        return Some(Fault::Stopped);
    }
    match h.since_pass {
        Some(t) if t > limit => Some(Fault::Quiet(t)),
        _ => None,
    }
}

/// Whether captured audio is so far off the wall clock that it needs saying.
pub fn lag_is_off(lag: i128) -> (r: bool)
    ensures
        r == (lag > LAG_WARN_S || -lag > LAG_WARN_S),
        r <==> !(-24_000_000 <= lag <= 24_000_000),
{
    lag > LAG_WARN_S as i128 || lag < -(LAG_WARN_S as i128)
}

/// What the capture says of itself at a heartbeat.
#[derive(Clone, Copy, Debug, PartialEq, Eq, Structural)]
pub struct Beat {
    /// How far the captured audio is off the wall clock.
    pub lag: Ticks,
    /// How much audio has been lost to stalls, in all and since the last beat.
    pub slipped: Ticks,
    pub fresh_slip: Ticks,
    /// How much audio is held.
    pub held: Ticks,
    /// Whether anything has been captured yet.
    pub started: bool,
    pub stream_errors: u64,
    pub record_dropped: u64,
}

/// One heartbeat's line of the log, and what is wrong.
#[derive(Debug)]
pub struct Report {
    pub line: String,
    /// The counters, for the next heartbeat to be measured from.
    pub now: Snapshot,
    /// Whether the capture stalled.
    pub stalled: bool,
    /// Whether decode windows are being cut from the wrong place.
    pub lag_off: bool,
    pub js8: Option<Fault>,
    pub cont: Option<Fault>,
}

/// Whether no counter stands lower than it did.
pub open spec fn counted_on(h: Health, last: Snapshot) -> bool {
    &&& h.ui_columns >= last.ui_columns
    &&& h.ui_frames >= last.ui_frames
    &&& counters(h.js8).grown_from(last.js8)
    &&& counters(h.continuous).grown_from(last.cont)
}

/// The counters of a thread.
pub open spec fn counters(h: ThreadHealth) -> ThreadDelta {
    ThreadDelta {
        passes: h.passes,
        decodes: h.decodes,
        short: h.short,
        searches: h.searches,
        skipped: h.skipped,
    }
}

/// What was counted between two readings of a thread.
pub open spec fn between(now: ThreadDelta, then: ThreadDelta) -> ThreadDelta {
    ThreadDelta {
        passes: (now.passes - then.passes) as u64,
        decodes: (now.decodes - then.decodes) as u64,
        short: (now.short - then.short) as u64,
        searches: (now.searches - then.searches) as u64,
        skipped: (now.skipped - then.skipped) as u64,
    }
}

/// What is wrong with a decode thread, if anything is.
pub open spec fn fault_of(h: ThreadHealth, limit: u64) -> Option<Fault> {
    if !h.wanted {
        None
    } else if !h.running {
        Some(Fault::Stopped)
    } else {
        match h.since_pass {
            Some(t) if t > limit => Some(Fault::Quiet(t)),
            _ => None,
        }
    }
}

/// One heartbeat's line of the log: both pulses, the window's and the decode
/// threads', so that they can be told apart after the fact.
pub open spec fn health_line(b: Beat, h: Health, last: Snapshot) -> Seq<char> {
    "lag="@ + (if b.lag < 0 { Seq::empty() } else { "+"@ }) + hundredths_text(b.lag as int, 120_000) + "s slipped="@
        + tenths_text(b.slipped as int, 1_200_000) + "s held="@ + whole_text(b.held as int, 12_000_000) + "s cols=+"@
        + decimal((h.ui_columns - last.ui_columns) as nat) + " frames=+"@ + decimal(
        (h.ui_frames - last.ui_frames) as nat,
    ) + " | js8 "@ + summary(h.js8, between(counters(h.js8), last.js8)) + " | cont "@ + summary(
        h.continuous,
        between(counters(h.continuous), last.cont),
    ) + " | stream_err="@ + decimal(b.stream_errors as nat) + " rec_drop="@ + decimal(b.record_dropped as nat)
}

/// A heartbeat: the line of the log and the same facts as judgements. None
/// before anything has been captured.
pub fn heartbeat(b: &Beat, h: &Health, last: &Snapshot) -> (r: Option<Report>)
    requires
        counted_on(*h, *last),
    ensures
        r is Some <==> b.started,
        r matches Some(x) ==> {
            &&& x.line@ == health_line(*b, *h, *last)
            &&& x.now == (Snapshot {
                ui_columns: h.ui_columns,
                ui_frames: h.ui_frames,
                js8: counters(h.js8),
                cont: counters(h.continuous),
            })
            &&& x.stalled <==> b.fresh_slip > 0
            &&& x.lag_off <==> b.lag > LAG_WARN_S || -b.lag > LAG_WARN_S
            &&& x.js8 == fault_of(h.js8, JS8_STALL_S as u64)
            &&& x.cont == fault_of(h.continuous, CONT_STALL_S as u64)
            &&& x.js8 == fault_of(h.js8, 1_080_000_000)
            &&& x.cont == fault_of(h.continuous, 720_000_000)
            &&& x.lag_off <==> !(-24_000_000 <= b.lag <= 24_000_000)
        },
{
    if !b.started {
        return None;
    }
    let now = Snapshot::of(h);
    let d = now.since(last);
    let mut line = "lag=".to_owned();
    if b.lag >= 0 {
        line.append("+");
    }
    push_hundredths(&mut line, b.lag, 120_000);
    line.append("s slipped=");
    push_tenths(&mut line, b.slipped, 1_200_000);
    line.append("s held=");
    push_whole(&mut line, b.held, 12_000_000);
    line.append("s cols=+");
    push_decimal(&mut line, d.ui_columns);
    line.append(" frames=+");
    push_decimal(&mut line, d.ui_frames);
    line.append(" | js8 ");
    line.append(thread_summary(&h.js8, d.js8).as_str());
    line.append(" | cont ");
    line.append(thread_summary(&h.continuous, d.cont).as_str());
    line.append(" | stream_err=");
    push_decimal(&mut line, b.stream_errors);
    line.append(" rec_drop=");
    push_decimal(&mut line, b.record_dropped);
    let js8 = check_stall(&h.js8, JS8_STALL_S as u64);
    let cont = check_stall(&h.continuous, CONT_STALL_S as u64);
    assert(d.js8 == between(counters(h.js8), last.js8));
    assert(d.cont == between(counters(h.continuous), last.cont));
    Some(
        Report {
            line,
            now,
            stalled: b.fresh_slip > 0,
            lag_off: lag_is_off(b.lag as i128),
            js8,
            cont,
        },
    )
}

/// A thread that nobody asked for is never at fault, however it is doing.
pub proof fn an_unwanted_thread_is_no_fault(h: ThreadHealth, limit: u64)
    requires
        !h.wanted,
    ensures
        fault_of(h, limit) is None,
{
}

/// A thread that was asked for and has stopped is at fault, however lately it began
/// a pass.
pub proof fn a_stopped_thread_is_a_fault(h: ThreadHealth, limit: u64)
    requires
        h.wanted,
        !h.running,
    ensures
        fault_of(h, limit) == Some(Fault::Stopped),
{
}

/// A thread that runs is at fault just where it began its last pass longer ago than
/// it may; one that has not come to its first yet is not.
pub proof fn a_running_thread_is_at_fault_when_quiet(h: ThreadHealth, limit: u64)
    requires
        h.wanted,
        h.running,
    ensures
        fault_of(h, limit) is Some <==> h.since_pass is Some && h.since_pass->0 > limit,
        fault_of(h, limit) is Some ==> fault_of(h, limit) == Some(Fault::Quiet(h.since_pass->0)),
{
}

/// What was counted between two readings, and what stood at the first, is what
/// stands at the second.
pub proof fn counts_add_up(now: ThreadDelta, then: ThreadDelta)
    requires
        now.grown_from(then),
    ensures
        then.passes + between(now, then).passes == now.passes,
        then.decodes + between(now, then).decodes == now.decodes,
        then.short + between(now, then).short == now.short,
        then.searches + between(now, then).searches == now.searches,
        then.skipped + between(now, then).skipped == now.skipped,
{
}

/// Whole seconds are the nearest to a length of time.
pub proof fn seconds_are_the_nearest(t: nat)
    ensures
        -6_000_000 <= 12_000_000 * whole_seconds(t) - t <= 6_000_000,
{
    crate::text_laws::rounding_goes_to_the_nearest(t, 12_000_000);
}

/// Counters have grown just where each stands no lower than it did; those that stand
/// still have.
pub proof fn counters_grow_or_stand_still(now: ThreadDelta, then: ThreadDelta)
    ensures
        now.grown_from(now),
        now.grown_from(then) && then.grown_from(now) ==> now == then,
        now.grown_from(then) <==> now.passes >= then.passes && now.decodes >= then.decodes && now.short >= then.short
            && now.searches >= then.searches && now.skipped >= then.skipped,
{
}

} // verus!
