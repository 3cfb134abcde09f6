//! What holds of the rows as a whole: what was cleared stays cleared, and what
//! has had its time goes.

use crate::modes::Ticks;
use crate::rows::{solid, ClearsView};
use vstd::prelude::*;

verus! {

/// What was cleared by hand is not shown, with or without a timeout, whether it
/// was cleared by itself or with everything: the cut never lies before either
/// clear.
pub proof fn what_was_cleared_stays_cleared(c: ClearsView, id: u64, now: Ticks, keep: Option<Ticks>, fade: Ticks)
    ensures
        c.cleared.dom().contains(id) ==> c.cut(id, now, keep, fade) is Some && c.cut(id, now, keep, fade)->0
            >= c.cleared[id],
        c.all_at is Some ==> c.cut(id, now, keep, fade) is Some && c.cut(id, now, keep, fade)->0 >= c.all_at->0,
{
}

/// A timeout takes text off the row once it has been kept and has faded, however
/// little was cleared by hand: the cut never lies before that edge.
pub proof fn a_timeout_takes_text_off(c: ClearsView, id: u64, now: Ticks, keep: Ticks, fade: Ticks)
    requires
        i64::MIN <= now - keep - fade <= i64::MAX,
    ensures
        c.cut(id, now, Some(keep), fade) is Some,
        c.cut(id, now, Some(keep), fade)->0 >= now - keep - fade,
{
}

/// Nothing is taken off a row without a reason: the cut is one of the clears or
/// the edge of the timeout, and where there is none of these there is no cut.
pub proof fn nothing_else_takes_text_off(c: ClearsView, id: u64, now: Ticks, keep: Option<Ticks>, fade: Ticks)
    requires
        keep is Some ==> i64::MIN <= now - keep->0 - fade <= i64::MAX,
    ensures
        c.cut(id, now, keep, fade) matches Some(t) ==> {
            ||| c.cleared.dom().contains(id) && t == c.cleared[id]
            ||| c.all_at == Some(t)
            ||| keep is Some && t == now - keep->0 - fade
        },
        !c.cleared.dom().contains(id) && c.all_at is None && keep is None ==> c.cut(id, now, keep, fade) is None,
{
}

/// With a timeout the cut only ever moves on as time goes by, and moves no
/// faster than the clock.
pub proof fn a_cut_moves_with_the_clock(
    c: ClearsView,
    id: u64,
    then: Ticks,
    now: Ticks,
    keep: Option<Ticks>,
    fade: Ticks,
)
    requires
        then <= now,
        keep is Some ==> i64::MIN <= then - keep->0 - fade && now - keep->0 - fade <= i64::MAX,
        c.cut(id, then, keep, fade) is Some,
    ensures
        c.cut(id, now, keep, fade) is Some,
        c.cut(id, then, keep, fade)->0 <= c.cut(id, now, keep, fade)->0,
        c.cut(id, now, keep, fade)->0 - c.cut(id, then, keep, fade)->0 <= now - then,
{
}

/// A clear that lies ahead of the clock is dropped, of one channel and of all,
/// and one that does not is kept as it was.
pub proof fn only_clears_ahead_of_the_clock_are_dropped(c: ClearsView, id: u64, now: Ticks)
    ensures
        c.without_stale(now).cleared.dom().contains(id) <==> c.cleared.dom().contains(id) && c.cleared[id] <= now,
        c.without_stale(now).cleared.dom().contains(id) ==> c.without_stale(now).cleared[id] == c.cleared[id],
        c.without_stale(now).all_at == match c.all_at {
            Some(t) if t <= now => Some(t),
            _ => None,
        },
{
}

/// Text is whole for as long as it is kept, gone once it has been fading for as
/// long as that takes, and in between loses its solidity evenly: what is left is
/// to the whole as the time left is to the whole fade.
pub proof fn text_fades_evenly(now: Ticks, at: Ticks, keep: Ticks, fade: Ticks)
    requires
        fade > 0,
    ensures
        ({
            let s = solid(now, Some(at), Some(keep), fade);
            let left = at + keep + fade - now;
            &&& s.den > 0
            &&& now <= at + keep ==> s.num == s.den
            &&& now >= at + keep + fade ==> s.num == 0
            &&& at + keep <= now <= at + keep + fade ==> s.num * fade == left * s.den
        }),
{
    let s = solid(now, Some(at), Some(keep), fade);
    let left = at + keep + fade - now;
    if at + keep < now < at + keep + fade {
        assert(s.num == left && s.den == fade);
    } else if now == at + keep {
        assert(left == fade && s.num == 1 && s.den == 1);
    } else if now == at + keep + fade {
        assert(left == 0 && s.num == 0);
    }
}

/// Text stays whole for good where nothing is forgotten, and text older than
/// anything that has a time is gone where something is.
pub proof fn text_without_a_timeout_stays(now: Ticks, at: Option<Ticks>, keep: Ticks, fade: Ticks)
    ensures
        solid(now, at, None, fade).num == solid(now, at, None, fade).den,
        solid(now, at, None, fade).den > 0,
        solid(now, None, Some(keep), fade).num == 0,
{
}

} // verus!
