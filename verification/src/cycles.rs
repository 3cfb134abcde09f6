//! When the cycle-aligned modes are decoded.
//!
//! Each submode has its own grid of cycles, and a cycle is decoded once all of
//! its audio is in. The grid is the truth for audio off a radio; audio piped in
//! from somewhere is seconds late, so each mode also carries an offset, learned
//! from the audio when several cycles in a row come back empty.
//!
//! Cycles are queued as their audio completes and worked through oldest first.

use crate::modes::{ModeId, Ticks, SECOND};
use crate::order::{
    in_sequence, no_ties, order_is_settled_by_ties, placed, placed_inserts, sorted, sorted_is_stable,
    sorted_was_there, ties, ties_add,
};
use vstd::prelude::*;

verus! {

/// How far behind the decoder may fall before it gives up on the oldest cycles
/// rather than working through them. Well inside what the capture holds.
pub const MAX_BACKLOG_S: Ticks = 1_440_000_000;

/// Consecutive dead cycles before a mode goes looking for where its frames
/// actually are.
pub const DEAD_CYCLES: usize = 3;

/// Shortest interval between those searches, across all modes.
pub const SEARCH_INTERVAL_S: Ticks = 720_000_000;

/// Half a second: the slack either side of a cycle, and the least that an
/// offset is moved by.
pub const SKEW_S: Ticks = 6_000_000;

/// Shortest and longest sleep while nothing is ripe.
pub const MIN_WAIT_S: Ticks = 120_000;

pub const MAX_WAIT_S: Ticks = 360_000_000;

/// Times are kept within some three thousand years of the epoch, so that sums of
/// a few of them can be counted.
pub const FAR: Ticks = 0x1000_0000_0000_0000;

/// A cycle: which mode's, and when it started.
pub type Cycle = (usize, Ticks);

/// The length of a mode's cycle.
pub open spec fn period(m: ModeId) -> int {
    match m.period_s {
        Some(p) => p * SECOND,
        None => 15 * SECOND,
    }
}

/// The length of a mode's cycle.
pub fn period_of(m: &ModeId) -> (p: Ticks)
    ensures
        p == period(*m),
        0 <= p < FAR / 16,
{
    match m.period_s {
        Some(p) => p as i64 * SECOND,
        None => 15 * SECOND,
    }
}

/// The audio one cycle-aligned pass reads: the cycle, and half a second either
/// side of it for clock skew.
pub fn window_len_s(m: &ModeId) -> (len: Ticks)
    ensures
        len == period(*m) + SECOND,
        0 < len <= FAR / 16 + SECOND,
{
    period_of(m) + SECOND
}

/// How long after a cycle starts that whole window has been captured. Derived
/// from the window rather than from the frame, so that a pass never asks for
/// audio that has not arrived yet.
pub fn window_ready_s(m: &ModeId) -> (ready: Ticks)
    ensures
        ready == period(*m) + SECOND - SKEW_S,
        0 < ready <= FAR / 16 + SECOND,
{
    window_len_s(m) - SKEW_S
}

/// How many cycles from `next` on have their audio complete by `now`.
pub open spec fn ripe_count(next: int, period: int, after: int, now: int) -> nat {
    if next + after > now {
        0
    } else {
        ((now - after - next) / period + 1) as nat
    }
}

/// The cycles of mode `i` from `next` on that have their audio complete by
/// `now`: every one of them, on the grid.
pub open spec fn ripe_of(i: int, next: int, period: int, after: int, now: int) -> Seq<Cycle> {
    Seq::new(
        ripe_count(next, period, after, now),
        |k: int| (i as usize, (next + k * period) as i64),
    )
}

/// The ripe cycles of the first `n` modes, one mode after another.
pub open spec fn ripe_up_to(n: nat, next: Seq<Ticks>, period: Seq<Ticks>, after: Seq<Ticks>, now: int) -> Seq<
    Cycle,
>
    decreases n,
{
    if n == 0 {
        Seq::empty()
    } else {
        ripe_up_to((n - 1) as nat, next, period, after, now) + ripe_of(
            n - 1,
            next[n - 1] as int,
            period[n - 1] as int,
            after[n - 1] as int,
            now,
        )
    }
}

/// When a cycle's audio is complete.
pub open spec fn done_at(c: Cycle, after: Seq<Ticks>) -> int {
    c.1 + after[c.0 as int]
}

/// Whether one cycle's audio is complete no later than another's.
pub open spec fn done_first(after: Seq<Ticks>) -> spec_fn(Cycle, Cycle) -> bool {
    |a: Cycle, b: Cycle| done_at(a, after) <= done_at(b, after)
}

/// The cycles that are ripe by `now`, in the order in which they completed.
pub open spec fn ripe(next: Seq<Ticks>, period: Seq<Ticks>, after: Seq<Ticks>, now: int) -> Seq<Cycle> {
    sorted(ripe_up_to(next.len(), next, period, after, now), done_first(after))
}

/// The grids with the cycles ripe by `now` behind them.
pub open spec fn advanced(next: Seq<Ticks>, period: Seq<Ticks>, after: Seq<Ticks>, now: int) -> Seq<Ticks> {
    Seq::new(
        next.len(),
        |i: int|
            (next[i] + ripe_count(next[i] as int, period[i] as int, after[i] as int, now) * period[i]) as i64,
    )
}

/// Grids that can be looked at at `now`: every cycle takes time, and the first
/// past `now` can still be counted.
pub open spec fn grids(next: Seq<Ticks>, period: Seq<Ticks>, after: Seq<Ticks>, now: int) -> bool {
    &&& period.len() == next.len()
    &&& after.len() == next.len()
    &&& forall|i: int| 0 <= i < next.len() ==> (#[trigger] period[i]) > 0 && now - after[i] + period[i] <= i64::MAX
}

/// One more ripe cycle.
pub proof fn one_more_ripe(next: int, period: int, after: int, now: int, k: int)
    requires
        period > 0,
        k >= 0,
    ensures
        next + k * period + after <= now <==> k < ripe_count(next, period, after, now),
{
    if next + after <= now {
        let d = now - after - next;
        vstd::arithmetic::div_mod::lemma_fundamental_div_mod(d, period);
        let q = d / period;
        assert(d == period * q + d % period);
        if k <= q {
            assert(k * period <= period * q) by (nonlinear_arith)
                requires
                    k <= q,
                    period > 0,
            ;
        } else {
            assert(k * period >= period * q + period) by (nonlinear_arith)
                requires
                    k >= q + 1,
                    period > 0,
            ;
        }
    } else {
        assert(k * period >= 0) by (nonlinear_arith)
            requires
                k >= 0,
                period > 0,
        ;
    }
}

/// Put a cycle where it belongs among cycles in the order of completion.
fn place(queue: &mut Vec<Cycle>, c: Cycle, after: &Vec<Ticks>)
    requires
        c.0 < after@.len(),
        forall|i: int| 0 <= i < old(queue)@.len() ==> (#[trigger] old(queue)@[i]).0 < after@.len(),
    ensures
        final(queue)@ == placed(old(queue)@, c, done_first(after@)),
        forall|i: int| 0 <= i < final(queue)@.len() ==> (#[trigger] final(queue)@[i]).0 < after@.len(),
{
    let ghost all = queue@;
    let mut p: usize = queue.len();
    while p > 0 && queue[p - 1].1 as i128 + after[queue[p - 1].0] as i128 > c.1 as i128 + after[c.0] as i128
        invariant
            queue@ == all,
            0 <= p <= all.len(),
            c.0 < after@.len(),
            forall|i: int| 0 <= i < all.len() ==> (#[trigger] all[i]).0 < after@.len(),
            forall|j: int| p <= j < all.len() ==> done_at(#[trigger] all[j], after@) > done_at(c, after@),
        decreases p,
    {
        p -= 1;
    }
    proof {
        placed_inserts(all, c, done_first(after@), p as int);
    }
    queue.insert(p, c);
    assert forall|i: int| 0 <= i < queue@.len() implies (#[trigger] queue@[i]).0 < after@.len() by {
        if i < p {
            assert(queue@[i] == all[i]);
        } else if i > p {
            assert(queue@[i] == all[i - 1]);
        }
    }
}

/// Cycles in the order of completion.
pub(crate) fn sort_by_done(cycles: &Vec<Cycle>, after: &Vec<Ticks>) -> (out: Vec<Cycle>)
    requires
        forall|i: int| 0 <= i < cycles@.len() ==> (#[trigger] cycles@[i]).0 < after@.len(),
    ensures
        out@ == sorted(cycles@, done_first(after@)),
        forall|i: int| 0 <= i < out@.len() ==> (#[trigger] out@[i]).0 < after@.len(),
{
    let mut out: Vec<Cycle> = Vec::new();
    let mut i: usize = 0;
    assert(cycles@.take(0) == Seq::<Cycle>::empty());
    while i < cycles.len()
        invariant
            0 <= i <= cycles@.len(),
            forall|j: int| 0 <= j < cycles@.len() ==> (#[trigger] cycles@[j]).0 < after@.len(),
            forall|j: int| 0 <= j < out@.len() ==> (#[trigger] out@[j]).0 < after@.len(),
            out@ == sorted(cycles@.take(i as int), done_first(after@)),
        decreases cycles.len() - i,
    {
        assert(cycles@.take(i + 1).drop_last() == cycles@.take(i as int));
        assert(cycles@.take(i + 1).last() == cycles@[i as int]);
        place(&mut out, cycles[i], after);
        i += 1;
    }
    assert(cycles@.take(cycles@.len() as int) == cycles@);
    out
}

/// Every cycle whose audio was complete at or before `now` and which has not
/// been handed out yet, in the order the cycles completed. `next` is advanced
/// past them, so no cycle is ever returned twice.
///
/// `complete_after` is how long past a cycle's start its audio is all in.
pub fn ripe_cycles(next: &mut Vec<Ticks>, period: &Vec<Ticks>, complete_after: &Vec<Ticks>, now: Ticks) -> (out: Vec<
    Cycle,
>)
    requires
        grids(old(next)@, period@, complete_after@, now as int),
    ensures
        out@ == ripe(old(next)@, period@, complete_after@, now as int),
        final(next)@ == advanced(old(next)@, period@, complete_after@, now as int),
        forall|i: int| 0 <= i < out@.len() ==> (#[trigger] out@[i]).0 < old(next)@.len(),
{
    let ghost start = next@;
    let mut found: Vec<Cycle> = Vec::new();
    let mut i: usize = 0;
    while i < next.len()
        invariant
            0 <= i <= next@.len(),
            next@.len() == start.len(),
            grids(start, period@, complete_after@, now as int),
            found@ == ripe_up_to(i as nat, start, period@, complete_after@, now as int),
            forall|j: int| 0 <= j < found@.len() ==> (#[trigger] found@[j]).0 < i,
            forall|j: int|
                0 <= j < i ==> #[trigger] next@[j] == advanced(start, period@, complete_after@, now as int)[j],
            forall|j: int| i <= j < start.len() ==> #[trigger] next@[j] == start[j],
        decreases next.len() - i,
    {
        let ghost before = found@;
        let ghost n = start[i as int] as int;
        let p: Ticks = period[i];
        let a: Ticks = complete_after[i];
        let mut at: Ticks = next[i];
        let ghost mut k: int = 0;
        let ghost all = ripe_of(i as int, n, p as int, a as int, now as int);
        assert(n + 0 * p == n) by (nonlinear_arith);
        assert(found@ == before + all.take(0));
        while at as i128 + a as i128 <= now as i128
            invariant
                p > 0,
                now - a + p <= i64::MAX,
                k >= 0,
                at == n + k * p,
                all == ripe_of(i as int, n, p as int, a as int, now as int),
                k <= all.len(),
                found@ == before + all.take(k),
            decreases now - a - at + p,
        {
            proof {
                one_more_ripe(n, p as int, a as int, now as int, k);
                assert((k + 1) * p == k * p + p) by (nonlinear_arith);
                assert(all.take(k + 1) == all.take(k).push(all[k]));
                assert(before + all.take(k + 1) == (before + all.take(k)).push(all[k]));
            }
            found.push((i, at));
            at = at + p;
            proof {
                k = k + 1;
            }
        }
        proof {
            one_more_ripe(n, p as int, a as int, now as int, k);
            assert(all.take(k) == all);
            assert(k == ripe_count(n, p as int, a as int, now as int));
        }
        next.set(i, at);
        assert forall|j: int| 0 <= j < found@.len() implies (#[trigger] found@[j]).0 < i + 1 by {
            if j < before.len() {
                assert(found@[j] == before[j]);
            } else {
                assert(found@[j] == all[j - before.len()]);
            }
        }
        i += 1;
    }
    assert(next@ =~= advanced(start, period@, complete_after@, now as int));
    sort_by_done(&found, complete_after)
}

/// A mode is handed the same cycles whether it is looked at once or twice.
pub proof fn looking_twice_hands_out_the_same(i: int, next: int, period: int, after: int, then: int, now: int)
    requires
        period > 0,
        then <= now,
    ensures
        ripe_of(i, next, period, after, now) == ripe_of(i, next, period, after, then) + ripe_of(
            i,
            next + ripe_count(next, period, after, then) * period,
            period,
            after,
            now,
        ),
        ripe_count(next, period, after, now) == ripe_count(next, period, after, then) + ripe_count(
            next + ripe_count(next, period, after, then) * period,
            period,
            after,
            now,
        ),
{
    let k = ripe_count(next, period, after, then) as int;
    let all = ripe_count(next, period, after, now) as int;
    let later = next + k * period;
    let rest = ripe_count(later, period, after, now) as int;
    if k > 0 {
        one_more_ripe(next, period, after, then, k - 1);
        one_more_ripe(next, period, after, now, k - 1);
    }
    assert(k <= all);
    if all > k {
        one_more_ripe(later, period, after, now, all - k - 1);
        one_more_ripe(next, period, after, now, all - 1);
        assert(later + (all - k - 1) * period == next + (all - 1) * period) by (nonlinear_arith)
            requires
                later == next + k * period,
        ;
    }
    if rest > 0 {
        one_more_ripe(later, period, after, now, rest - 1);
        one_more_ripe(next, period, after, now, k + rest - 1);
        assert(later + (rest - 1) * period == next + (k + rest - 1) * period) by (nonlinear_arith)
            requires
                later == next + k * period,
        ;
    }
    assert(all == k + rest);
    let whole = ripe_of(i, next, period, after, now);
    let parts = ripe_of(i, next, period, after, then) + ripe_of(i, later, period, after, now);
    assert forall|j: int| 0 <= j < all implies whole[j] == parts[j] by {
        if j >= k {
            assert(later + (j - k) * period == next + j * period) by (nonlinear_arith)
                requires
                    later == next + k * period,
            ;
        }
    }
    assert(whole =~= parts);
}

/// Every cycle that is handed out is ripe, and on its grid; none is handed out
/// twice, and none that is ripe is left out.
pub proof fn no_cycle_is_lost(i: int, next: int, period: int, after: int, now: int, k: int)
    requires
        period > 0,
        k >= 0,
        0 <= i <= usize::MAX,
        i64::MIN <= next,
        now - after <= i64::MAX,
    ensures
        next + k * period + after <= now <==> k < ripe_of(i, next, period, after, now).len(),
        k < ripe_of(i, next, period, after, now).len() ==> {
            &&& ripe_of(i, next, period, after, now)[k].0 == i
            &&& ripe_of(i, next, period, after, now)[k].1 == next + k * period
        },
{
    one_more_ripe(next, period, after, now, k);
    assert(k * period >= 0) by (nonlinear_arith)
        requires
            k >= 0,
            period > 0,
    ;
}

/// Cycles are handed over in the order in which their audio completed.
pub proof fn a_backlog_is_handed_over_in_order(next: Seq<Ticks>, period: Seq<Ticks>, after: Seq<Ticks>, now: int)
    ensures
        in_sequence(ripe(next, period, after, now), done_first(after)),
        ripe(next, period, after, now).len() == ripe_up_to(next.len(), next, period, after, now).len(),
{
    sorted_is_stable(ripe_up_to(next.len(), next, period, after, now), done_first(after));
}

/// The cycles of the first modes that are ripe by `now` are in time.
proof fn ripe_in_time(n: nat, next: Seq<Ticks>, period: Seq<Ticks>, after: Seq<Ticks>, now: int, j: int)
    requires
        grids(next, period, after, now),
        n <= next.len() <= usize::MAX,
        0 <= j < ripe_up_to(n, next, period, after, now).len(),
    ensures
        done_at(ripe_up_to(n, next, period, after, now)[j], after) <= now,
    decreases n,
{
    let front = ripe_up_to((n - 1) as nat, next, period, after, now);
    if j < front.len() {
        ripe_in_time((n - 1) as nat, next, period, after, now, j);
    } else {
        let i = n - 1;
        assert(period[i] > 0);
        no_cycle_is_lost(i, next[i] as int, period[i] as int, after[i] as int, now, j - front.len());
    }
}

/// The cycles of the first modes that are left after a look at `then` come
/// after it.
proof fn rest_comes_after(n: nat, next: Seq<Ticks>, period: Seq<Ticks>, after: Seq<Ticks>, then: int, now: int, j: int)
    requires
        grids(next, period, after, now),
        then <= now,
        n <= next.len() <= usize::MAX,
        0 <= j < ripe_up_to(n, advanced(next, period, after, then), period, after, now).len(),
    ensures
        done_at(
            ripe_up_to(n, advanced(next, period, after, then), period, after, now)[j],
            after,
        ) > then,
    decreases n,
{
    let later = advanced(next, period, after, then);
    let front = ripe_up_to((n - 1) as nat, later, period, after, now);
    if j < front.len() {
        rest_comes_after((n - 1) as nat, next, period, after, then, now, j);
    } else {
        let i = n - 1;
        let k = j - front.len();
        let c = ripe_count(next[i] as int, period[i] as int, after[i] as int, then) as int;
        assert(period[i] > 0 && now - after[i] + period[i] <= i64::MAX);
        advanced_fits(next, period, after, then, i);
        one_more_ripe(next[i] as int, period[i] as int, after[i] as int, then, c);
        no_cycle_is_lost(i, later[i] as int, period[i] as int, after[i] as int, now, k);
        assert(k * period[i] >= 0) by (nonlinear_arith)
            requires
                k >= 0,
                period[i] > 0,
        ;
    }
}

/// A grid advanced is still counted exactly.
proof fn advanced_fits(next: Seq<Ticks>, period: Seq<Ticks>, after: Seq<Ticks>, now: int, i: int)
    requires
        0 <= i < next.len(),
        period[i] > 0,
        now - after[i] + period[i] <= i64::MAX,
    ensures
        advanced(next, period, after, now)[i] == next[i] + ripe_count(
            next[i] as int,
            period[i] as int,
            after[i] as int,
            now,
        ) * period[i],
{
    let c = ripe_count(next[i] as int, period[i] as int, after[i] as int, now) as int;
    if c > 0 {
        one_more_ripe(next[i] as int, period[i] as int, after[i] as int, now, c - 1);
        assert(c * period[i] == (c - 1) * period[i] + period[i]) by (nonlinear_arith);
        assert((c - 1) * period[i] >= 0) by (nonlinear_arith)
            requires
                c >= 1,
                period[i] > 0,
        ;
    } else {
        assert(0 * period[i] == 0) by (nonlinear_arith);
    }
}

/// What ties among the cycles of the first modes is what ties among those of a
/// look at `then`, and after them among those that were left.
proof fn ties_of_two_looks(
    n: nat,
    next: Seq<Ticks>,
    period: Seq<Ticks>,
    after: Seq<Ticks>,
    then: int,
    now: int,
    t: Cycle,
)
    requires
        grids(next, period, after, now),
        then <= now,
        n <= next.len() <= usize::MAX,
    ensures
        ties(ripe_up_to(n, next, period, after, now), t, done_first(after)) == ties(
            ripe_up_to(n, next, period, after, then),
            t,
            done_first(after),
        ) + ties(
            ripe_up_to(n, advanced(next, period, after, then), period, after, now),
            t,
            done_first(after),
        ),
    decreases n,
{
    let le = done_first(after);
    let later = advanced(next, period, after, then);
    reveal(Seq::filter);
    if n > 0 {
        let i = n - 1;
        let m = (n - 1) as nat;
        ties_of_two_looks(m, next, period, after, then, now, t);
        assert(period[i] > 0 && now - after[i] + period[i] <= i64::MAX);
        advanced_fits(next, period, after, then, i);
        looking_twice_hands_out_the_same(i, next[i] as int, period[i] as int, after[i] as int, then, now);
        let a0 = ripe_up_to(m, next, period, after, then);
        let b0 = ripe_up_to(m, later, period, after, now);
        let a1 = ripe_of(i, next[i] as int, period[i] as int, after[i] as int, then);
        let b1 = ripe_of(i, later[i] as int, period[i] as int, after[i] as int, now);
        ties_add(ripe_up_to(m, next, period, after, now), a1 + b1, t, le);
        ties_add(a1, b1, t, le);
        ties_add(a0, a1, t, le);
        ties_add(b0, b1, t, le);
        if done_at(t, after) <= then {
            assert forall|j: int| 0 <= j < b0.len() implies !(le(#[trigger] b0[j], t) && le(t, b0[j])) by {
                rest_comes_after(m, next, period, after, then, now, j);
            }
            no_ties(b0, t, le);
            assert(ties(b0, t, le) =~= Seq::<Cycle>::empty());
        } else {
            assert forall|j: int| 0 <= j < a1.len() implies !(le(#[trigger] a1[j], t) && le(t, a1[j])) by {
                no_cycle_is_lost(i, next[i] as int, period[i] as int, after[i] as int, then, j);
            }
            no_ties(a1, t, le);
            assert(ties(a1, t, le) =~= Seq::<Cycle>::empty());
        }
        assert(ties(ripe_up_to(n, next, period, after, now), t, le) =~= (ties(a0, t, le) + ties(b0, t, le)) + (ties(
            a1,
            t,
            le,
        ) + ties(b1, t, le)));
        assert((ties(a0, t, le) + ties(b0, t, le)) + (ties(a1, t, le) + ties(b1, t, le)) =~= (ties(a0, t, le) + ties(
            a1,
            t,
            le,
        )) + (ties(b0, t, le) + ties(b1, t, le)));
    }
}

/// How often the decoder looks does not change which cycles it gets, nor in
/// which order.
pub proof fn how_often_it_looks_does_not_matter(
    next: Seq<Ticks>,
    period: Seq<Ticks>,
    after: Seq<Ticks>,
    then: int,
    now: int,
)
    requires
        grids(next, period, after, now),
        then <= now,
        next.len() <= usize::MAX,
    ensures
        ripe(next, period, after, now) == ripe(next, period, after, then) + ripe(
            advanced(next, period, after, then),
            period,
            after,
            now,
        ),
        advanced(next, period, after, now) == advanced(
            advanced(next, period, after, then),
            period,
            after,
            now,
        ),
{
    let le = done_first(after);
    let later = advanced(next, period, after, then);
    let n = next.len();
    let whole = ripe(next, period, after, now);
    let a = ripe(next, period, after, then);
    let b = ripe(later, period, after, now);
    let ua = ripe_up_to(n, next, period, after, then);
    let ub = ripe_up_to(n, later, period, after, now);
    sorted_is_stable(ripe_up_to(n, next, period, after, now), le);
    sorted_is_stable(ua, le);
    sorted_is_stable(ub, le);
    assert forall|t: Cycle| #[trigger] ties(whole, t, le) == ties(a + b, t, le) by {
        ties_of_two_looks(n, next, period, after, then, now, t);
        ties_add(a, b, t, le);
        assert(ties(a, t, le) == ties(ua, t, le));
        assert(ties(b, t, le) == ties(ub, t, le));
    }
    assert forall|i: int, j: int| 0 <= i < j < (a + b).len() implies le(#[trigger] (a + b)[i], #[trigger] (a + b)[j]) by {
        if j < a.len() {
            assert(le(a[i], a[j]));
        } else if i >= a.len() {
            assert(le(b[i - a.len()], b[j - a.len()]));
        } else {
            sorted_was_there(ua, le, i);
            sorted_was_there(ub, le, j - a.len());
            let x = choose|x: int| 0 <= x < ua.len() && ua[x] == a[i];
            let y = choose|y: int| 0 <= y < ub.len() && ub[y] == b[j - a.len()];
            assert(grids(next, period, after, then)) by {
                assert forall|m: int| 0 <= m < next.len() implies (#[trigger] period[m]) > 0 && then - after[m]
                    + period[m] <= i64::MAX by {
                    assert(now - after[m] + period[m] <= i64::MAX);
                }
            }
            ripe_in_time(n, next, period, after, then, x);
            rest_comes_after(n, next, period, after, then, now, y);
        }
    }
    order_is_settled_by_ties(whole, a + b, le);
    assert forall|i: int| 0 <= i < n implies advanced(next, period, after, now)[i] == advanced(
        later,
        period,
        after,
        now,
    )[i] by {
        assert(period[i] > 0 && now - after[i] + period[i] <= i64::MAX);
        advanced_fits(next, period, after, then, i);
        advanced_fits(next, period, after, now, i);
        advanced_fits(later, period, after, now, i);
        looking_twice_hands_out_the_same(i, next[i] as int, period[i] as int, after[i] as int, then, now);
        let k = ripe_count(next[i] as int, period[i] as int, after[i] as int, then) as int;
        let r = ripe_count(later[i] as int, period[i] as int, after[i] as int, now) as int;
        assert((k + r) * period[i] == k * period[i] + r * period[i]) by (nonlinear_arith);
    }
    assert(advanced(next, period, after, now) =~= advanced(later, period, after, now));
}

/// Once the ripe cycles have been handed over, the next of each mode is not ripe.
pub proof fn nothing_ripe_is_left(next: Seq<Ticks>, period: Seq<Ticks>, after: Seq<Ticks>, now: int, i: int)
    requires
        grids(next, period, after, now),
        0 <= i < next.len(),
    ensures
        advanced(next, period, after, now)[i] + after[i] > now,
{
    let (n, p, a) = (next[i] as int, period[i] as int, after[i] as int);
    let k = ripe_count(n, p, a, now) as int;
    assert(p > 0 && now - a + p <= i64::MAX);
    one_more_ripe(n, p, a, now, k);
    if k > 0 {
        one_more_ripe(n, p, a, now, k - 1);
        assert(k * p == (k - 1) * p + p) by (nonlinear_arith);
        assert(k * p >= 0) by (nonlinear_arith)
            requires
                k > 0,
                p > 0,
        ;
    }
}

} // verus!
