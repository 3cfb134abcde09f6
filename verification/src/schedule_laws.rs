//! What holds of the cycle-aligned decoder as a whole: it wakes for the first
//! cycle that will be complete, works through the oldest first, and gives up on
//! none that can still be read.

use crate::cycles::{
    advanced, done_at, done_first, grids, one_more_ripe, period, ripe, ripe_count, ripe_of, ripe_up_to, Cycle, FAR,
};
use crate::find::{sifted_is_kept, sifted_was_there};
use crate::modes::{ModeId, Ticks};
use crate::order::{sorted_is_stable, sorted_keeps, sorted_was_there};
use crate::schedule::Schedule;
use vstd::prelude::*;

verus! {

/// How long a cycle of a mode lasts, a quarter of a minute where the mode does
/// not say.
pub open spec fn cycle_of(m: ModeId) -> int {
    match m.period_s {
        Some(p) => p * 12_000_000,
        None => 180_000_000,
    }
}

/// When the audio of the cycle of mode `i` that starts at `t` is all in: half a
/// second past the end of the cycle, as late as the mode's frames arrive.
pub open spec fn all_in(s: Schedule, i: int, t: int) -> int {
    t + s.offset@[i] + cycle_of(s.modes@[i]) + 6_000_000
}

proof fn completion_is_all_in(s: Schedule, c: Cycle)
    requires
        s.wf(),
        c.0 < s.modes@.len(),
    ensures
        done_at(c, s.afters()) == all_in(s, c.0 as int, c.1 as int),
        s.periods()[c.0 as int] == cycle_of(s.modes@[c.0 as int]),
        0 < cycle_of(s.modes@[c.0 as int]) < FAR / 16,
{
    let i = c.0 as int;
    assert(0 <= s.offset@[i] <= FAR / 16);
    assert(period(s.modes@[i]) > 0);
    assert(period(s.modes@[i]) == cycle_of(s.modes@[i]));
}

proof fn soonest_is_first(s: Schedule, n: nat)
    requires
        s.wf(),
        n <= s.modes@.len(),
    ensures
        n == 0 <==> s.soonest(n) is None,
        forall|i: int| 0 <= i < n ==> s.soonest(n)->0 <= #[trigger] all_in(s, i, s.next@[i] as int),
        n > 0 ==> exists|i: int| 0 <= i < n && s.soonest(n)->0 == #[trigger] all_in(s, i, s.next@[i] as int),
    decreases n,
{
    if n > 0 {
        soonest_is_first(s, (n - 1) as nat);
        completion_is_all_in(s, ((n - 1) as usize, s.next@[n - 1]));
        let t = all_in(s, n - 1, s.next@[n - 1] as int);
        assert(t == s.next@[n - 1] + s.afters()[n - 1]);
        if n > 1 && s.soonest((n - 1) as nat)->0 <= t {
            let i = choose|i: int|
                0 <= i < n - 1 && s.soonest((n - 1) as nat)->0 == #[trigger] all_in(s, i, s.next@[i] as int);
            assert(s.soonest(n)->0 == all_in(s, i, s.next@[i] as int));
        } else {
            assert(s.soonest(n)->0 == all_in(s, n - 1, s.next@[n - 1] as int));
        }
    }
}

/// What is waited for is the first cycle to be complete of any mode: no mode's
/// next cycle is complete before it, and it is the next cycle of one of them.
/// Only where there are no modes is there nothing to wait for.
pub proof fn the_wait_is_for_the_first_cycle(s: Schedule)
    requires
        s.wf(),
    ensures
        s.modes@.len() == 0 <==> s.soonest(s.modes@.len()) is None,
        forall|i: int|
            0 <= i < s.modes@.len() ==> s.soonest(s.modes@.len())->0 <= #[trigger] all_in(s, i, s.next@[i] as int),
        s.modes@.len() > 0 ==> exists|i: int|
            0 <= i < s.modes@.len() && s.soonest(s.modes@.len())->0 == #[trigger] all_in(s, i, s.next@[i] as int),
{
    soonest_is_first(s, s.modes@.len());
}

/// A pass reads the cycle, moved by as much as the mode's frames are late, with
/// half a second either side of it; the audio is all in exactly when that window
/// ends.
pub proof fn a_pass_reads_its_cycle_with_slack(s: Schedule, c: Cycle)
    requires
        s.wf(),
        c.0 < s.modes@.len(),
        -2 * FAR <= c.1 <= 2 * FAR,
    ensures
        ({
            let p = s.pass_over(c);
            let late = s.offset@[c.0 as int];
            &&& p.mode == c.0
            &&& p.cycle == c.1
            &&& p.from + 6_000_000 == c.1 + late
            &&& p.from + p.len == c.1 + late + cycle_of(s.modes@[c.0 as int]) + 6_000_000
            &&& p.from + p.len == all_in(s, c.0 as int, c.1 as int)
        }),
{
    completion_is_all_in(s, c);
    assert(0 <= s.offset@[c.0 as int] <= FAR / 16);
}

/// Of everything that waits to be decoded, what was complete less than two
/// minutes ago is worked through and what is older is given up.
pub proof fn only_what_is_too_old_is_given_up(s: Schedule, now: Ticks, c: Cycle)
    requires
        s.wf(),
        c.0 < s.modes@.len(),
    ensures
        s.agenda(now).contains(c) <==> s.waiting(now).contains(c) && now - all_in(s, c.0 as int, c.1 as int)
            < 1_440_000_000,
{
    completion_is_all_in(s, c);
    let keep = |c: Cycle| now - done_at(c, s.afters()) < crate::cycles::MAX_BACKLOG_S;
    if s.agenda(now).contains(c) {
        let j = choose|j: int| 0 <= j < s.agenda(now).len() && s.agenda(now)[j] == c;
        sorted_was_there(s.worthwhile(now), done_first(s.afters()), j);
        let k = choose|k: int| 0 <= k < s.worthwhile(now).len() && s.worthwhile(now)[k] == c;
        sifted_was_there(s.waiting(now), keep, k);
    }
    if s.waiting(now).contains(c) && keep(c) {
        sifted_is_kept(s.waiting(now), keep, c);
        sorted_keeps(s.worthwhile(now), done_first(s.afters()), c);
    }
}

/// The cycle worked on is the one that was complete first: everything left in
/// the queue was complete no earlier, in the order of the queue.
pub proof fn the_oldest_is_worked_on_first(s: Schedule, now: Ticks, i: int, j: int)
    requires
        s.wf(),
        0 <= i < j < s.agenda(now).len(),
        s.agenda(now)[i].0 < s.modes@.len(),
        s.agenda(now)[j].0 < s.modes@.len(),
    ensures
        ({
            let (a, b) = (s.agenda(now)[i], s.agenda(now)[j]);
            all_in(s, a.0 as int, a.1 as int) <= all_in(s, b.0 as int, b.1 as int)
        }),
{
    sorted_is_stable(s.worthwhile(now), done_first(s.afters()));
    completion_is_all_in(s, s.agenda(now)[i]);
    completion_is_all_in(s, s.agenda(now)[j]);
    assert(done_first(s.afters())(s.agenda(now)[i], s.agenda(now)[j]));
}

proof fn ripe_up_to_holds(n: nat, next: Seq<Ticks>, p: Seq<Ticks>, after: Seq<Ticks>, now: int, i: int, k: int)
    requires
        grids(next, p, after, now),
        n <= next.len() <= usize::MAX,
        0 <= i < n,
        0 <= k < ripe_count(next[i] as int, p[i] as int, after[i] as int, now),
    ensures
        ripe_up_to(n, next, p, after, now).contains((i as usize, (next[i] + k * p[i]) as i64)),
    decreases n,
{
    let front = ripe_up_to((n - 1) as nat, next, p, after, now);
    let back = ripe_of(n - 1, next[n - 1] as int, p[n - 1] as int, after[n - 1] as int, now);
    let c = (i as usize, (next[i] + k * p[i]) as i64);
    if i == n - 1 {
        assert((front + back)[front.len() + k] == c);
    } else {
        ripe_up_to_holds((n - 1) as nat, next, p, after, now, i, k);
        let j = choose|j: int| 0 <= j < front.len() && front[j] == c;
        assert((front + back)[j] == c);
    }
}

/// Every cycle on a mode's grid waits to be decoded from the moment its audio is
/// all in: looking finds each of those between the last look and now.
pub proof fn every_complete_cycle_waits(s: Schedule, now: Ticks, i: int, k: int)
    requires
        s.wf(),
        -FAR <= now <= FAR,
        0 <= i < s.modes@.len(),
        k >= 0,
        all_in(s, i, s.next@[i] + k * cycle_of(s.modes@[i])) <= now,
    ensures
        s.next@[i] + k * cycle_of(s.modes@[i]) <= i64::MAX,
        s.waiting(now).contains((i as usize, (s.next@[i] + k * cycle_of(s.modes@[i])) as i64)),
{
    let p = s.periods();
    let after = s.afters();
    assert(s.modes.len() == s.modes@.len());
    assert forall|j: int| 0 <= j < s.next@.len() implies (#[trigger] p[j]) > 0 && now - after[j] + p[j] <= i64::MAX by {
        completion_is_all_in(s, (j as usize, 0));
    }
    completion_is_all_in(s, (i as usize, 0));
    assert(0 <= s.offset@[i]);
    one_more_ripe(s.next@[i] as int, p[i] as int, after[i] as int, now as int, k);
    ripe_up_to_holds(s.modes@.len(), s.next@, p, after, now as int, i, k);
    let c = (i as usize, (s.next@[i] + k * p[i]) as i64);
    sorted_keeps(ripe_up_to(s.modes@.len(), s.next@, p, after, now as int), done_first(after), c);
    let new = ripe(s.next@, p, after, now as int);
    let j = choose|j: int| 0 <= j < new.len() && new[j] == c;
    assert((s.queue@ + new)[s.queue@.len() + j] == c);
}

/// A look leaves each grid at its first cycle that is not complete yet: on the
/// grid, not complete, and with every cycle it went past complete.
pub proof fn a_look_stops_at_the_first_incomplete_cycle(s: Schedule, now: Ticks, i: int)
    requires
        s.wf(),
        -FAR <= now <= FAR,
        0 <= i < s.modes@.len(),
    ensures
        ({
            let on = advanced(s.next@, s.periods(), s.afters(), now as int)[i] as int;
            &&& all_in(s, i, on) > now
            &&& on >= s.next@[i]
            &&& on == s.next@[i] || all_in(s, i, on - cycle_of(s.modes@[i])) <= now
            &&& (on - s.next@[i]) % cycle_of(s.modes@[i]) == 0
        }),
{
    let p = s.periods();
    let after = s.afters();
    assert(s.modes.len() == s.modes@.len());
    assert forall|j: int| 0 <= j < s.next@.len() implies (#[trigger] p[j]) > 0 && now - after[j] + p[j] <= i64::MAX by {
        completion_is_all_in(s, (j as usize, 0));
    }
    completion_is_all_in(s, (i as usize, 0));
    crate::cycles::nothing_ripe_is_left(s.next@, p, after, now as int, i);
    let (n, q, a) = (s.next@[i] as int, p[i] as int, after[i] as int);
    let k = ripe_count(n, q, a, now as int) as int;
    one_more_ripe(n, q, a, now as int, k);
    if k > 0 {
        one_more_ripe(n, q, a, now as int, k - 1);
        assert(k * q == (k - 1) * q + q) by (nonlinear_arith);
        assert(k * q >= 0) by (nonlinear_arith)
            requires
                k >= 0,
                q > 0,
        ;
        assert(n + (k - 1) * q + a <= now);
        assert(now - a + q <= i64::MAX);
    } else {
        assert(k * q == 0) by (nonlinear_arith)
            requires
                k == 0,
        ;
    }
    vstd::arithmetic::div_mod::lemma_mod_multiples_basic(k, q);
    let on = advanced(s.next@, p, after, now as int)[i] as int;
    assert(n <= n + k * q <= i64::MAX);
    assert(on == n + k * q);
}

} // verus!
