//! The working of the cycle-aligned decoder, one decision at a time.
//!
//! The decoder looks at the clock ([`Schedule::look`]) and is given a pass to
//! make or, where nothing is ripe, a time to wait ([`Schedule::wait`]). It
//! reports what the pass found ([`Schedule::passed`]), which may ask for a
//! search, and what the search found ([`Schedule::located`]).

use crate::capture::rem_euclid;
use crate::cycles::{
    advanced, done_at, done_first, grids, period, period_of, ripe, ripe_count, ripe_cycles, ripe_up_to, sort_by_done,
    window_len_s, window_ready_s, Cycle, DEAD_CYCLES, FAR, MAX_BACKLOG_S, MAX_WAIT_S, MIN_WAIT_S, SEARCH_INTERVAL_S,
    SKEW_S,
};
use crate::find::{filter_ends, filter_one_more, sifted_was_there};
use crate::modes::{since, ModeId, Ticks, SECOND};
use crate::order::{sorted, sorted_was_there};
use crate::schedule_laws::{all_in, the_wait_is_for_the_first_cycle};
use vstd::prelude::*;

verus! {

/// One pass of the decoder: which mode, over which audio.
#[derive(Clone, Copy, Debug, PartialEq, Eq, Structural)]
pub struct Pass {
    /// Which of the modes.
    pub mode: usize,
    /// When the cycle started.
    pub cycle: Ticks,
    /// Where the audio to be read begins: half a second before the cycle, later
    /// by as much as the mode's frames are.
    pub from: Ticks,
    /// How much audio is to be read.
    pub len: Ticks,
}

/// The cycle-aligned decoder's queue and what it has learned.
pub struct Schedule {
    pub modes: Vec<ModeId>,
    /// Next cycle to be queued, for each mode.
    pub next: Vec<Ticks>,
    /// How late each mode's frames arrive, learned from the audio. None is the
    /// grid, which is right for a radio and is where every mode starts.
    pub offset: Vec<Ticks>,
    /// Consecutive cycles of each mode that came back empty.
    pub dead: Vec<usize>,
    pub last_search: Ticks,
    /// Cycles whose audio is complete and which have not been decoded yet.
    pub queue: Vec<Cycle>,
}

impl Schedule {
    /// How long past the start of a cycle its audio is all in, for each mode.
    pub open spec fn afters(&self) -> Seq<Ticks> {
        Seq::new(
            self.modes@.len(),
            |i: int| (self.offset@[i] + period(self.modes@[i]) + SECOND - SKEW_S) as i64,
        )
    }

    /// The length of each mode's cycle.
    pub open spec fn periods(&self) -> Seq<Ticks> {
        Seq::new(self.modes@.len(), |i: int| period(self.modes@[i]) as i64)
    }

    /// What every schedule keeps to.
    pub open spec fn wf(&self) -> bool {
        &&& self.next@.len() == self.modes@.len()
        &&& self.offset@.len() == self.modes@.len()
        &&& self.dead@.len() == self.modes@.len()
        &&& forall|i: int| 0 <= i < self.modes@.len() ==> period(#[trigger] self.modes@[i]) > 0
        &&& forall|i: int| 0 <= i < self.next@.len() ==> -2 * FAR <= #[trigger] self.next@[i] <= 2 * FAR
        &&& forall|i: int| 0 <= i < self.offset@.len() ==> 0 <= #[trigger] self.offset@[i] <= FAR / 16
        &&& forall|i: int|
            0 <= i < self.queue@.len() ==> (#[trigger] self.queue@[i]).0 < self.modes@.len() && -2 * FAR
                <= self.queue@[i].1 <= 2 * FAR
    }

    /// Everything that is ripe and undecoded at `now`, in the order it came.
    pub open spec fn waiting(&self, now: Ticks) -> Seq<Cycle> {
        self.queue@ + ripe(self.next@, self.periods(), self.afters(), now as int)
    }

    /// What of that is still worth decoding, in the order of completion: a cycle
    /// is only worth it while the capture holds its audio.
    pub open spec fn worthwhile(&self, now: Ticks) -> Seq<Cycle> {
        self.waiting(now).filter(|c: Cycle| now - done_at(c, self.afters()) < MAX_BACKLOG_S)
    }

    /// The queue that is worked through at `now`.
    pub open spec fn agenda(&self, now: Ticks) -> Seq<Cycle> {
        sorted(self.worthwhile(now), done_first(self.afters()))
    }

    /// The pass over cycle `c`.
    pub open spec fn pass_over(&self, c: Cycle) -> Pass {
        Pass {
            mode: c.0,
            cycle: c.1,
            from: (c.1 + self.offset@[c.0 as int] - SKEW_S) as i64,
            len: (period(self.modes@[c.0 as int]) + SECOND) as i64,
        }
    }

    /// When the first cycle of the first `n` modes that is not queued yet will
    /// be ripe.
    pub open spec fn soonest(&self, n: nat) -> Option<int>
        decreases n,
    {
        if n == 0 {
            None
        } else {
            let t = self.next@[n - 1] + self.afters()[n - 1];
            match self.soonest((n - 1) as nat) {
                Some(u) if u <= t => Some(u),
                _ => Some(t),
            }
        }
    }

    /// A schedule that starts with the cycles under way at `now`.
    pub fn new(modes: Vec<ModeId>, now: Ticks) -> (s: Schedule)
        requires
            -FAR <= now <= FAR,
            forall|i: int| 0 <= i < modes@.len() ==> period(#[trigger] modes@[i]) > 0,
        ensures
            s.wf(),
            s.modes@ == modes@,
            s.queue@.len() == 0,
            s.last_search == now,
            forall|i: int|
                0 <= i < modes@.len() ==> {
                    &&& #[trigger] s.next@[i] == now as int / period(modes@[i]) * period(modes@[i])
                    &&& s.offset@[i] == 0
                    &&& s.dead@[i] == 0
                },
    {
        let mut next: Vec<Ticks> = Vec::new();
        let mut offset: Vec<Ticks> = Vec::new();
        let mut dead: Vec<usize> = Vec::new();
        let mut i: usize = 0;
        while i < modes.len()
            invariant
                0 <= i <= modes@.len(),
                -FAR <= now <= FAR,
                forall|j: int| 0 <= j < modes@.len() ==> period(#[trigger] modes@[j]) > 0,
                next@.len() == i,
                offset@.len() == i,
                dead@.len() == i,
                forall|j: int|
                    0 <= j < i ==> {
                        &&& #[trigger] next@[j] == now as int / period(modes@[j]) * period(modes@[j])
                        &&& -2 * FAR <= next@[j] <= 2 * FAR
                    },
                forall|j: int| 0 <= j < i ==> #[trigger] offset@[j] == 0,
                forall|j: int| 0 <= j < i ==> #[trigger] dead@[j] == 0,
            decreases modes.len() - i,
        {
            assert(period(modes@[i as int]) > 0);
            let p: Ticks = period_of(&modes[i]);
            let into: i128 = rem_euclid(now as i128, p as i128);
            proof {
                vstd::arithmetic::div_mod::lemma_fundamental_div_mod(now as int, p as int);
                assert(p as int * (now as int / p as int) == now as int / p as int * p as int) by (nonlinear_arith);
            }
            next.push((now as i128 - into) as i64);
            offset.push(0);
            dead.push(0);
            i += 1;
        }
        Schedule { modes, next, offset, dead, last_search: now, queue: Vec::new() }
    }

    /// How long past the start of a cycle its audio is all in, for each mode.
    fn completions(&self) -> (after: Vec<Ticks>)
        requires
            self.wf(),
        ensures
            after@ == self.afters(),
            forall|i: int| 0 <= i < after@.len() ==> 0 <= #[trigger] after@[i] <= FAR / 4,
    {
        let mut out: Vec<Ticks> = Vec::new();
        let mut i: usize = 0;
        while i < self.modes.len()
            invariant
                self.wf(),
                0 <= i <= self.modes@.len(),
                out@.len() == i,
                forall|j: int|
                    0 <= j < i ==> #[trigger] out@[j] == self.afters()[j] && 0 <= out@[j] <= FAR / 4,
            decreases self.modes.len() - i,
        {
            assert(0 <= self.offset@[i as int] <= FAR / 16);
            let ready: Ticks = window_ready_s(&self.modes[i]);
            out.push(self.offset[i] + ready);
            i += 1;
        }
        assert(out@ =~= self.afters());
        out
    }

    /// The length of each mode's cycle.
    fn lengths(&self) -> (out: Vec<Ticks>)
        requires
            self.wf(),
        ensures
            out@ == self.periods(),
            forall|i: int| 0 <= i < out@.len() ==> 0 < #[trigger] out@[i] < FAR / 16,
    {
        let mut out: Vec<Ticks> = Vec::new();
        let mut i: usize = 0;
        while i < self.modes.len()
            invariant
                self.wf(),
                0 <= i <= self.modes@.len(),
                out@.len() == i,
                forall|j: int|
                    0 <= j < i ==> #[trigger] out@[j] == self.periods()[j] && 0 < out@[j] < FAR / 16,
            decreases self.modes.len() - i,
        {
            assert(period(self.modes@[i as int]) > 0);
            out.push(period_of(&self.modes[i]));
            i += 1;
        }
        assert(out@ =~= self.periods());
        out
    }

    /// Look at the clock: queue every cycle that has ripened since the last
    /// look, give up on those whose audio is too old, and take the one that
    /// completed first. Also says how many were given up on.
    pub fn look(&mut self, now: Ticks) -> (out: (Option<Pass>, usize))
        requires
            old(self).wf(),
            -FAR <= now <= FAR,
        ensures
            final(self).wf(),
            final(self).modes@ == old(self).modes@,
            final(self).offset@ == old(self).offset@,
            final(self).dead@ == old(self).dead@,
            final(self).last_search == old(self).last_search,
            final(self).next@ == advanced(old(self).next@, old(self).periods(), old(self).afters(), now as int),
            out.1 == old(self).waiting(now).len() - old(self).worthwhile(now).len(),
            ({
                let agenda = old(self).agenda(now);
                if agenda.len() == 0 {
                    out.0 is None && final(self).queue@.len() == 0
                } else {
                    &&& out.0 == Some(old(self).pass_over(agenda[0]))
                    &&& final(self).queue@ == agenda.drop_first()
                }
            }),
    {
        let ghost was = *self;
        let after = self.completions();
        let lengths = self.lengths();
        proof {
            assert(grids(self.next@, lengths@, after@, now as int)) by {
                assert forall|i: int| 0 <= i < self.next@.len() implies (#[trigger] lengths@[i]) > 0 && now - after@[i]
                    + lengths@[i] <= i64::MAX by {
                    assert(0 <= after@[i] <= FAR / 4);
                }
            }
            assert forall|i: int| 0 <= i < self.next@.len() implies -2 * FAR <= #[trigger] advanced(
                self.next@,
                lengths@,
                after@,
                now as int,
            )[i] <= 2 * FAR by {
                advanced_stays_near(self.next@, lengths@, after@, now as int, i);
            }
            assert forall|i: int| 0 <= i < ripe(self.next@, lengths@, after@, now as int).len() implies -2 * FAR
                <= (#[trigger] ripe(self.next@, lengths@, after@, now as int)[i]).1 <= 2 * FAR by {
                ripe_stays_near(self.next@, lengths@, after@, now as int, i);
            }
        }
        let mut fresh = ripe_cycles(&mut self.next, &lengths, &after, now);
        self.queue.append(&mut fresh);
        let ghost all = self.queue@;
        let ghost p = |c: Cycle| now - done_at(c, after@) < MAX_BACKLOG_S;
        let mut kept: Vec<Cycle> = Vec::new();
        let mut i: usize = 0;
        proof {
            filter_ends(all, p);
        }
        while i < self.queue.len()
            invariant
                0 <= i <= self.queue@.len(),
                self.queue@ == all,
                forall|j: int| 0 <= j < all.len() ==> (#[trigger] all[j]).0 < after@.len(),
                p == (|c: Cycle| now - done_at(c, after@) < MAX_BACKLOG_S),
                kept@ == all.take(i as int).filter(p),
                kept@.len() <= i,
            decreases self.queue.len() - i,
        {
            proof {
                filter_one_more(all, p, i as int);
            }
            let c = self.queue[i];
            assert(all[i as int].0 < after@.len());
            if now as i128 - (c.1 as i128 + after[c.0] as i128) < MAX_BACKLOG_S as i128 {
                kept.push(c);
            }
            i += 1;
        }
        proof {
            filter_ends(all, p);
            assert forall|j: int| 0 <= j < kept@.len() implies (#[trigger] kept@[j]).0 < after@.len() && -2 * FAR
                <= kept@[j].1 <= 2 * FAR by {
                sifted_was_there(all, p, j);
                let k = choose|k: int| 0 <= k < all.len() && all[k] == kept@[j];
                assert(all[k].0 < after@.len());
            }
        }
        let skipped: usize = self.queue.len() - kept.len();
        let mut agenda = sort_by_done(&kept, &after);
        assert(agenda@ == was.agenda(now));
        proof {
            assert forall|j: int| 0 <= j < agenda@.len() implies -2 * FAR <= (#[trigger] agenda@[j]).1 <= 2 * FAR by {
                sorted_was_there(kept@, done_first(after@), j);
                let k = choose|k: int| 0 <= k < kept@.len() && kept@[k] == agenda@[j];
                assert(kept@[k].0 < after@.len());
            }
        }
        if agenda.len() == 0 {
            self.queue = agenda;
            return (None, skipped);
        }
        let ghost full = agenda@;
        let c = agenda.remove(0);
        assert(agenda@ =~= full.drop_first());
        assert(full[0] == c);
        assert(0 <= self.offset@[c.0 as int] <= FAR / 16);
        self.queue = agenda;
        let pass = Pass {
            mode: c.0,
            cycle: c.1,
            from: c.1 + self.offset[c.0] - SKEW_S,
            len: window_len_s(&self.modes[c.0]),
        };
        (Some(pass), skipped)
    }

    /// How long to wait when nothing is ripe: until the first cycle will be, but
    /// not for nothing and not for longer than half a minute.
    pub fn wait(&self, now: Ticks) -> (t: Ticks)
        requires
            self.wf(),
        ensures
            t == match self.soonest(self.modes@.len()) {
                None => MAX_WAIT_S as int,
                Some(at) => if at - now < MIN_WAIT_S {
                    MIN_WAIT_S as int
                } else if at - now > MAX_WAIT_S {
                    MAX_WAIT_S as int
                } else {
                    at - now
                },
            },
            120_000 <= t <= 360_000_000,
            forall|i: int|
                0 <= i < self.modes@.len() ==> t == 120_000 || now + t <= #[trigger] all_in(
                    *self,
                    i,
                    self.next@[i] as int,
                ),
            120_000 < t < 360_000_000 ==> exists|i: int|
                0 <= i < self.modes@.len() && now + t == #[trigger] all_in(*self, i, self.next@[i] as int),
    {
        proof {
            the_wait_is_for_the_first_cycle(*self);
        }
        let after = self.completions();
        let mut least: Option<i128> = None;
        let mut i: usize = 0;
        while i < self.modes.len()
            invariant
                self.wf(),
                after@ == self.afters(),
                0 <= i <= self.modes@.len(),
                match least {
                    None => self.soonest(i as nat) is None,
                    Some(t) => self.soonest(i as nat) == Some(t as int) && 2 * i64::MIN <= t <= 2 * i64::MAX,
                },
            decreases self.modes.len() - i,
        {
            let t: i128 = self.next[i] as i128 + after[i] as i128;
            least = match least {
                Some(u) => Some(if u <= t { u } else { t }),
                None => Some(t),
            };
            i += 1;
        }
        match least {
            None => MAX_WAIT_S,
            Some(at) => {
                let left: i128 = at - now as i128;
                if left < MIN_WAIT_S as i128 {
                    MIN_WAIT_S
                } else if left > MAX_WAIT_S as i128 {
                    MAX_WAIT_S
                } else {
                    left as i64
                }
            },
        }
    }

    /// Report what a pass of mode `best` found. Says whether to search for where
    /// the mode's frames are: after several dead cycles, and at most once a
    /// minute across every mode.
    pub fn passed(&mut self, best: usize, found: usize, now: Ticks) -> (search: bool)
        requires
            old(self).wf(),
            best < old(self).modes@.len(),
            old(self).dead@[best as int] < usize::MAX,
        ensures
            final(self).wf(),
            final(self).modes@ == old(self).modes@,
            final(self).next@ == old(self).next@,
            final(self).offset@ == old(self).offset@,
            final(self).queue@ == old(self).queue@,
            ({
                let dead = if found == 0 { old(self).dead@[best as int] + 1 } else { 0 };
                &&& final(self).dead@ == old(self).dead@.update(best as int, dead as usize)
                &&& search <==> dead >= DEAD_CYCLES && now - old(self).last_search >= SEARCH_INTERVAL_S
                &&& final(self).last_search == if search { now } else { old(self).last_search }
            }),
            search <==> found == 0 && old(self).dead@[best as int] >= 2 && now - old(self).last_search >= 720_000_000,
            forall|i: int|
                0 <= i < old(self).dead@.len() && i != best ==> final(self).dead@[i] == #[trigger] old(self).dead@[i],
    {
        let dead: usize = if found == 0 { self.dead[best] + 1 } else { 0 };
        self.dead.set(best, dead);
        let search = dead >= DEAD_CYCLES && since(now, self.last_search) >= SEARCH_INTERVAL_S as i128;
        if search {
            self.last_search = now;
        }
        search
    }

    /// Report where a search found the frames of mode `best`, if it found any.
    /// Says whether the offset moved: only by more than half a second, since
    /// frames arrive a few tens of milliseconds apart from pass to pass.
    pub fn located(&mut self, best: usize, found: Option<Ticks>) -> (moved: bool)
        requires
            old(self).wf(),
            best < old(self).modes@.len(),
            found is Some ==> 0 <= found->0 <= FAR / 16,
        ensures
            final(self).wf(),
            final(self).modes@ == old(self).modes@,
            final(self).next@ == old(self).next@,
            final(self).queue@ == old(self).queue@,
            final(self).last_search == old(self).last_search,
            moved <==> found is Some && !(-SKEW_S <= found->0 - old(self).offset@[best as int] <= SKEW_S),
            moved <==> found is Some && (found->0 - old(self).offset@[best as int] > 6_000_000 || old(
                self,
            ).offset@[best as int] - found->0 > 6_000_000),
            moved ==> final(self).offset@ == old(self).offset@.update(best as int, found->0),
            moved ==> final(self).dead@ == old(self).dead@.update(best as int, 0),
            !moved ==> final(self).offset@ == old(self).offset@ && final(self).dead@ == old(self).dead@,
    {
        if let Some(at) = found {
            assert(0 <= self.offset@[best as int] <= FAR / 16);
            let by: i64 = at - self.offset[best];
            if by > SKEW_S || by < -SKEW_S {
                self.offset.set(best, at);
                self.dead.set(best, 0);
                return true;
            }
        }
        false
    }

    /// Whether the decoder is keeping up: with cycles waiting it should not
    /// yield.
    pub fn keeping_up(&self) -> (r: bool)
        ensures
            r == (self.queue@.len() == 0),
    {
        self.queue.len() == 0
    }
}

/// A grid is advanced to no more than a cycle past `now`.
proof fn advanced_stays_near(next: Seq<Ticks>, period: Seq<Ticks>, after: Seq<Ticks>, now: int, i: int)
    requires
        grids(next, period, after, now),
        0 <= i < next.len(),
        -2 * FAR <= next[i] <= 2 * FAR,
        now <= FAR,
        after[i] >= 0,
        period[i] < FAR / 16,
    ensures
        -2 * FAR <= advanced(next, period, after, now)[i] <= 2 * FAR,
{
    assert(period[i] > 0);
    let c = ripe_count(next[i] as int, period[i] as int, after[i] as int, now) as int;
    if c > 0 {
        crate::cycles::one_more_ripe(next[i] as int, period[i] as int, after[i] as int, now, c - 1);
        assert(c * period[i] == (c - 1) * period[i] + period[i]) by (nonlinear_arith);
        assert((c - 1) * period[i] >= 0) by (nonlinear_arith)
            requires
                c >= 1,
                period[i] > 0,
        ;
    } else {
        assert(0 * period[i] == 0) by (nonlinear_arith);
    }
}

/// Ripe cycles lie between where the grids stood and `now`.
proof fn ripe_stays_near(next: Seq<Ticks>, period: Seq<Ticks>, after: Seq<Ticks>, now: int, j: int)
    requires
        grids(next, period, after, now),
        next.len() <= usize::MAX,
        0 <= j < ripe(next, period, after, now).len(),
        now <= FAR,
        forall|i: int| 0 <= i < next.len() ==> -2 * FAR <= #[trigger] next[i] <= 2 * FAR,
        forall|i: int| 0 <= i < after.len() ==> 0 <= #[trigger] after[i],
    ensures
        -2 * FAR <= ripe(next, period, after, now)[j].1 <= 2 * FAR,
{
    let all = ripe_up_to(next.len(), next, period, after, now);
    sorted_was_there(all, done_first(after), j);
    let k = choose|k: int| 0 <= k < all.len() && all[k] == ripe(next, period, after, now)[j];
    ripe_up_to_stays_near(next.len(), next, period, after, now, k);
}

proof fn ripe_up_to_stays_near(n: nat, next: Seq<Ticks>, period: Seq<Ticks>, after: Seq<Ticks>, now: int, k: int)
    requires
        grids(next, period, after, now),
        n <= next.len() <= usize::MAX,
        0 <= k < ripe_up_to(n, next, period, after, now).len(),
        now <= FAR,
        forall|i: int| 0 <= i < next.len() ==> -2 * FAR <= #[trigger] next[i] <= 2 * FAR,
        forall|i: int| 0 <= i < after.len() ==> 0 <= #[trigger] after[i],
    ensures
        -2 * FAR <= ripe_up_to(n, next, period, after, now)[k].1 <= 2 * FAR,
    decreases n,
{
    let front = ripe_up_to((n - 1) as nat, next, period, after, now);
    if k < front.len() {
        ripe_up_to_stays_near((n - 1) as nat, next, period, after, now, k);
    } else {
        let i = n - 1;
        assert(period[i] > 0 && after[i] >= 0 && -2 * FAR <= next[i]);
        crate::cycles::no_cycle_is_lost(i, next[i] as int, period[i] as int, after[i] as int, now, k - front.len());
        assert((k - front.len()) * period[i] >= 0) by (nonlinear_arith)
            requires
                k - front.len() >= 0,
                period[i] > 0,
        ;
    }
}

/// A pass never asks for audio that has not been captured yet: by the time a
/// cycle is ripe, the window that the pass over it reads has ended.
pub proof fn a_pass_waits_for_the_window_it_reads(s: Schedule, c: Cycle, now: Ticks)
    requires
        s.wf(),
        c.0 < s.modes@.len(),
        -2 * FAR <= c.1 <= 2 * FAR,
        done_at(c, s.afters()) <= now,
    ensures
        s.pass_over(c).from + s.pass_over(c).len <= now,
{
    assert(0 <= s.offset@[c.0 as int] <= FAR / 16);
    assert(period(s.modes@[c.0 as int]) > 0);
    assert(period(s.modes@[c.0 as int]) < FAR / 16);
}

/// Which of the modes keep to a schedule, and which run continuously.
pub fn split_modes(modes: &Vec<ModeId>) -> (out: (Vec<ModeId>, Vec<ModeId>))
    ensures
        out.0@ == modes@.filter(|m: ModeId| m.period_s is Some),
        out.1@ == modes@.filter(|m: ModeId| m.period_s is None),
{
    let ghost p = |m: ModeId| m.period_s is Some;
    let ghost q = |m: ModeId| m.period_s is None;
    let mut scheduled: Vec<ModeId> = Vec::new();
    let mut continuous: Vec<ModeId> = Vec::new();
    let mut i: usize = 0;
    proof {
        filter_ends(modes@, p);
        filter_ends(modes@, q);
    }
    while i < modes.len()
        invariant
            0 <= i <= modes@.len(),
            p == (|m: ModeId| m.period_s is Some),
            q == (|m: ModeId| m.period_s is None),
            scheduled@ == modes@.take(i as int).filter(p),
            continuous@ == modes@.take(i as int).filter(q),
        decreases modes.len() - i,
    {
        proof {
            filter_one_more(modes@, p, i as int);
            filter_one_more(modes@, q, i as int);
        }
        if modes[i].period_s.is_some() {
            scheduled.push(modes[i]);
        } else {
            continuous.push(modes[i]);
        }
        i += 1;
    }
    proof {
        filter_ends(modes@, p);
        filter_ends(modes@, q);
    }
    (scheduled, continuous)
}

/// How often the continuous decoder collects new audio.
pub const FEED_STEP_S: Ticks = 3_000_000;

/// Where the continuous decoder has read the capture to.
pub struct Reader {
    /// Global index of the next sample to read.
    pub next_g: Option<u64>,
    /// The time of the sample that the decoder counts from.
    pub origin_s: Ticks,
}

/// What the continuous decoder is to read.
#[derive(Clone, Copy, Debug, PartialEq, Eq, Structural)]
pub struct Read {
    /// The range of global indices.
    pub from: u64,
    pub to: u64,
    /// Whether its receivers have to be started anew: they cannot be carried
    /// across a hole in the stream.
    pub restart: bool,
    /// Whether that is because the buffer overran it.
    pub overran: bool,
}

impl Reader {
    /// What to read of a capture that holds samples `start..end`.
    pub fn take(&mut self, start: u64, end: u64) -> (r: Read)
        requires
            start * crate::modes::SAMPLE <= i64::MAX,
        ensures
            r.to == end,
            final(self).next_g == Some(end),
            r.restart <==> old(self).next_g is None || old(self).next_g->0 < start,
            r.from == if r.restart { start } else { old(self).next_g->0 },
            r.overran <==> r.restart && old(self).origin_s != 0,
            final(self).origin_s == if r.restart { start * crate::modes::SAMPLE } else { old(self).origin_s as int },
    {
        let restart = match self.next_g {
            None => true,
            Some(g) => g < start,
        };
        let from: u64 = match self.next_g {
            Some(g) if !restart => g,
            _ => start,
        };
        self.next_g = Some(end);
        let overran = restart && self.origin_s != 0;
        if restart {
            self.origin_s = start as i64 * crate::modes::SAMPLE;
        }
        Read { from, to: end, restart, overran }
    }
}

/// How long to yield after a pass of the continuous decoder: as long as it
/// overran, so that decoding is held to half the wall clock.
pub fn owed_after(elapsed: Ticks) -> (owed: Option<Ticks>)
    ensures
        owed == if elapsed > FEED_STEP_S {
            Some((elapsed - FEED_STEP_S) as i64)
        } else {
            None
        },
        owed is Some <==> elapsed > 3_000_000,
        owed matches Some(t) ==> elapsed - t == 3_000_000,
{
    if elapsed > FEED_STEP_S {
        Some(elapsed - FEED_STEP_S)
    } else {
        None
    }
}

} // verus!
