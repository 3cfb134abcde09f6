//! What holds of the captured audio: any range gives what is held of it and
//! nothing else, times and samples map to each other, and only a real stall moves
//! the clock.

use crate::capture::{newest, AudioBuf};
use crate::modes::{Decode, Ticks};
use vstd::prelude::*;

verus! {

/// A range gives every sample of it that is held, in order, and no other: its
/// first is the first that is held of it, and each of the rest follows the one
/// before.
pub proof fn a_range_gives_what_is_held_of_it<S>(b: AudioBuf<S>, from: int, to: int, g: int)
    requires
        from <= g < to,
        b.holds(g),
    ensures
        ({
            let first = if b.holds(from) { from } else { b.global_start as int };
            let past = if to <= b.captured() { to } else { b.captured() };
            &&& b.range(from, to).len() == past - first
            &&& first <= g < past
            &&& b.range(from, to)[g - first] == b.sample(g)
        }),
{
}

/// A range of which nothing is held gives nothing.
pub proof fn a_range_that_is_not_held_gives_nothing<S>(b: AudioBuf<S>, from: int, to: int)
    requires
        forall|g: int| from <= g < to ==> !#[trigger] b.holds(g),
    ensures
        b.range(from, to).len() == 0,
{
    let lo = if from > b.global_start { from } else { b.global_start as int };
    if lo < to && lo < b.captured() {
        assert(b.holds(lo));
    }
}

/// A time falls in the sample that is sounding then: sample `k` of a capture sounds
/// from `k` samples after its start until the next one does. Before the start
/// there is none but the first.
pub proof fn a_time_falls_in_the_sample_that_sounds<S>(b: AudioBuf<S>, t: Ticks)
    ensures
        t <= b.start_unix ==> b.index_at(t) == 0,
        t > b.start_unix ==> b.start_unix + b.index_at(t) * 1_000 <= t < b.start_unix + (b.index_at(t) + 1) * 1_000,
        b.index_at(t) >= 0,
{
}

/// The newest audio asked for ends at the newest sample and is as long as was
/// asked, to within a sample, or is all that is held.
pub proof fn the_newest_audio_is_as_long_as_asked<S>(b: AudioBuf<S>, span: int)
    requires
        span >= 0,
    ensures
        b.newest_from(span) >= b.global_start,
        (b.captured() - b.newest_from(span)) * 1_000 <= span,
        b.newest_from(span) == b.global_start || (b.captured() - b.newest_from(span) + 1) * 1_000 > span,
        b.newest_from(span) <= b.captured(),
{
}

/// The newest of decodes is one of them and none is later.
pub proof fn the_newest_is_no_earlier_than_any(ds: Seq<Decode>)
    ensures
        ds.len() == 0 <==> newest(ds) is None,
        forall|i: int| 0 <= i < ds.len() ==> (#[trigger] ds[i]).time_s <= newest(ds)->0,
        ds.len() > 0 ==> exists|i: int| 0 <= i < ds.len() && (#[trigger] ds[i]).time_s == newest(ds)->0,
    decreases ds.len(),
{
    if ds.len() > 0 {
        let front = ds.drop_last();
        the_newest_is_no_earlier_than_any(front);
        assert forall|i: int| 0 <= i < ds.len() implies (#[trigger] ds[i]).time_s <= newest(ds)->0 by {
            if i < front.len() {
                assert(front[i].time_s <= newest(front)->0);
            }
        }
        if front.len() > 0 && newest(front)->0 >= ds.last().time_s {
            let i = choose|i: int| 0 <= i < front.len() && (#[trigger] front[i]).time_s == newest(front)->0;
            assert(ds[i].time_s == newest(ds)->0);
        } else {
            assert(ds[ds.len() - 1].time_s == newest(ds)->0);
        }
    }
}

/// A block that is merely late is no stall: it takes more than half a second of
/// clock that no audio accounts for, and a capture that has begun.
pub proof fn only_a_real_gap_is_a_stall<S>(b: AudioBuf<S>, now: Ticks, samples: nat)
    ensures
        b.stalled(now, samples) <==> b.started && now - b.last_append > samples * 1_000 + 6_000_000,
{
}

} // verus!
