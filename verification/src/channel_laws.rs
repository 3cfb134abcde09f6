//! What holds of channels whatever is heard on them.

use crate::channel::{
    drop_front_keeps, extended_keeps, forget_before_keeps, marks_before, marks_before_splits,
    marks_from, marks_from_is_the_end, marks_up_to, marks_up_to_splits, push_text_keeps,
    ChannelView, ARRIVAL_QUANTUM_S, MAX_TEXT_CHARS,
};
use crate::channels::{forgotten, SetView};
use crate::modes::{Decode, Ticks};
use vstd::prelude::*;

verus! {

/// How many characters runs cover between them.
pub open spec fn covered(runs: Seq<(usize, Option<Ticks>)>) -> nat
    decreases runs.len(),
{
    if runs.len() == 0 {
        0
    } else {
        runs[0].0 as nat + covered(runs.drop_first())
    }
}

/// The age of each character that runs cover, one after another.
pub open spec fn spread(runs: Seq<(usize, Option<Ticks>)>) -> Seq<Option<Ticks>>
    decreases runs.len(),
{
    if runs.len() == 0 {
        Seq::empty()
    } else {
        Seq::new(runs[0].0 as nat, |i: int| runs[0].1) + spread(runs.drop_first())
    }
}

/// Every character on record has an age.
pub proof fn every_character_has_an_age(c: ChannelView, i: int)
    requires
        c.wf(),
        c.text_dropped <= i < c.next_index(),
    ensures
        c.age_at(i) is Some,
{
    marks_up_to_splits(c.arrivals, i);
    if marks_up_to(c.arrivals, i) == 0 {
        assert(c.arrivals[0].0 > i);
    }
}

/// The tail divides by age without gaps: the runs cover each character of it
/// once, in order, and give each the age that is on record for it.
pub proof fn the_tail_divides_without_gaps(c: ChannelView, i: int)
    requires
        c.wf(),
        c.text_dropped <= i <= c.next_index(),
    ensures
        covered(c.ages_from(i)) == c.next_index() - i,
        spread(c.ages_from(i)) == Seq::new(
            (c.next_index() - i) as nat,
            |j: int| c.age_at(i + j),
        ),
        forall|k: int| 0 <= k < c.ages_from(i).len() ==> (#[trigger] c.ages_from(i)[k]).0 > 0 && c.ages_from(i)[k].1 is Some,
    decreases c.next_index() - i,
{
    let end = c.stretch_end(i);
    marks_up_to_splits(c.arrivals, i);
    if i < c.next_index() {
        assert(i < end <= c.next_index());
        let first = ((end - i) as usize, c.age_at(i));
        let rest = c.ages_from(end);
        assert(c.ages_from(i) == seq![first] + rest);
        assert(c.ages_from(i).drop_first() == rest);
        the_tail_divides_without_gaps(c, end);
        every_character_has_an_age(c, i);
        assert forall|j: int| i <= j < end implies c.age_at(j) == c.age_at(i) by {
            marks_up_to_splits(c.arrivals, j);
            let k = marks_up_to(c.arrivals, i);
            let m = marks_up_to(c.arrivals, j);
            if m < k {
                assert(c.arrivals[m as int].0 <= i);
            } else if m > k {
                assert(c.arrivals[k as int].0 <= j);
            }
        }
        assert forall|k: int| 0 <= k < c.ages_from(i).len() implies (#[trigger] c.ages_from(i)[k]).0 > 0
            && c.ages_from(i)[k].1 is Some by {
            if k > 0 {
                assert(c.ages_from(i)[k] == rest[k - 1]);
            }
        }
        assert(spread(c.ages_from(i)) =~= Seq::new((c.next_index() - i) as nat, |j: int| c.age_at(i + j)));
    }
}

/// Dropping text off the front changes the age of no character that is left.
pub proof fn dropping_keeps_ages(c: ChannelView, n: nat, i: int)
    requires
        c.ordered(),
        c.drop_front(n).text_dropped <= i < c.next_index(),
    ensures
        c.drop_front(n).age_at(i) == c.age_at(i),
{
    let after = c.drop_front(n);
    let dropped = after.text_dropped as int;
    drop_front_keeps(c, n);
    marks_up_to_splits(c.arrivals, dropped);
    marks_up_to_splits(c.arrivals, i);
    marks_up_to_splits(after.arrivals, i);
    marks_from_is_the_end(c.arrivals, dropped + 1);
    let k = marks_up_to(c.arrivals, dropped) as int;
    let m = marks_up_to(c.arrivals, i) as int;
    let m2 = marks_up_to(after.arrivals, i) as int;
    let rest = c.arrivals.skip(k);
    assert(marks_from(c.arrivals, dropped + 1) == rest);
    if k == 0 {
        assert(c.text.len() > 0);
        assert(c.arrivals[0].0 > dropped);
        assert(false);
    }
    assert(after.arrivals == seq![(dropped as usize, c.arrivals[k - 1].1)] + rest);
    if m < k {
        assert(c.arrivals[m].0 <= dropped);
    }
    assert(m >= k);
    if m2 < m - k + 1 {
        assert(after.arrivals[m2].0 > i);
        if m2 > 0 {
            assert(after.arrivals[m2] == c.arrivals[k + m2 - 1]);
            assert(c.arrivals[k + m2 - 1].0 <= i);
        }
    } else if m2 > m - k + 1 {
        assert(after.arrivals[m - k + 1].0 <= i);
        assert(after.arrivals[m - k + 1] == c.arrivals[m]);
    }
    if m2 > 1 {
        assert(after.arrivals[m2 - 1] == c.arrivals[m - 1]);
    }
}

/// Forgetting what arrived before an instant forgets exactly that: what is left
/// is the end of the text, at the place in the conversation it always had, and
/// a character is left just where its age is no less than the instant.
pub proof fn forgetting_is_by_age(c: ChannelView, at: Ticks, i: int)
    requires
        c.wf(),
        c.text_dropped <= i < c.next_index(),
    ensures
        c.forget_before(at).text_dropped <= i <==> c.age_at(i)->0 >= at,
        c.forget_before(at).text_dropped <= i ==> c.forget_before(at).age_at(i) == c.age_at(i),
        c.forget_before(at).next_index() == c.next_index(),
        c.forget_before(at).text == c.text.skip(c.forget_before(at).text_dropped - c.text_dropped),
{
    let k = marks_before(c.arrivals, at) as int;
    marks_before_splits(c.arrivals, at);
    marks_up_to_splits(c.arrivals, i);
    every_character_has_an_age(c, i);
    forget_before_keeps(c, at);
    let after = c.forget_before(at);
    let m = marks_up_to(c.arrivals, i) as int;
    let cut = if k < c.arrivals.len() { c.arrivals[k].0 as int } else { c.next_index() as int };
    assert(cut >= c.text_dropped);
    assert(after.text_dropped == cut) by {
        assert(cut <= c.next_index());
    }
    assert(c.text.skip(0) == c.text);
    assert(c.age_at(i)->0 == c.arrivals[m - 1].1);
    if cut <= i {
        assert(m > k) by {
            if m <= k {
                assert(c.arrivals[k].0 > i);
            }
        }
        assert(c.arrivals[m - 1].1 >= at);
        if cut > c.text_dropped {
            dropping_keeps_ages(c, (cut - c.text_dropped) as nat, i);
        }
    } else {
        if m - 1 >= k {
            assert(c.arrivals[k].0 <= c.arrivals[m - 1].0 <= i);
        }
        assert(c.arrivals[m - 1].1 < at);
    }
}

/// Text never takes its age from further back than [`ARRIVAL_QUANTUM_S`] ahead
/// of its own decode, so what a station says after a silence is never aged with
/// what it said before.
pub proof fn a_silence_gets_its_own_mark(c: ChannelView, d: Decode, i: int)
    requires
        c.wf(),
        c.has_room(d),
        c.next_index() <= i < c.next_index() + d.text@.len(),
        c.extended(d).text_dropped <= i,
    ensures
        c.extended(d).age_at(i) is Some,
        d.time_s - c.extended(d).age_at(i)->0 < ARRIVAL_QUANTUM_S,
        c.needs_mark(d) ==> c.extended(d).age_at(i) == Some(d.time_s),
{
    let m = c.marked(d);
    let longer = ChannelView { text: m.text + d.text@, ..m };
    extended_keeps(c, d);
    push_text_keeps(m, d.text@);
    marks_up_to_splits(longer.arrivals, i);
    let k = marks_up_to(longer.arrivals, i);
    if k < longer.arrivals.len() {
        assert(longer.arrivals[k as int].0 <= c.next_index());
    }
    assert(longer.age_at(i) == Some(m.arrivals.last().1));
    if longer.text.len() > MAX_TEXT_CHARS {
        dropping_keeps_ages(longer, (longer.text.len() - MAX_TEXT_CHARS) as nat, i);
    }
    assert(c.extended(d).age_at(i) == longer.age_at(i));
}

/// A channel keeps the carrier and the time it was first heard at, and its best
/// figures are never worse than its latest.
pub proof fn beginnings_are_kept(c: ChannelView, d: Decode)
    requires
        c.wf(),
        c.has_room(d),
    ensures
        c.extended(d).first_hz == c.first_hz,
        c.extended(d).first_heard_s == c.first_heard_s,
        c.extended(d).hz == d.hz,
        c.extended(d).best_quality >= d.quality,
        c.extended(d).best_quality >= c.best_quality,
        d.snr_db is Some ==> c.extended(d).best_snr_db is Some && c.extended(d).best_snr_db->0 >= d.snr_db->0,
{
}

/// A decode that says it is the last of an over puts the break where the text
/// of the next one starts, whatever the clock says.
pub proof fn an_ended_over_breaks_at_the_next_decode(c: ChannelView, last: Decode, next: Decode)
    requires
        c.wf(),
        c.has_room(last),
        c.extended(last).has_room(next),
        last.ends_over,
    ensures
        c.extended(last).starts_over(next),
        c.extended(last).marked(next).breaks.last() == (
            (c.next_index() + last.text@.len()) as usize,
            next.time_s,
        ),
{
    extended_keeps(c, last);
}

/// Protocols never share a channel: whatever a set takes on, no channel of it
/// changes protocol, and none but one of the decode's own changes at all.
pub proof fn protocols_never_share(s: SetView, d: Decode, i: int)
    requires
        0 <= i < s.channels.len(),
    ensures
        s.added(d).channels.len() >= s.channels.len(),
        s.added(d).channels[i].mode.protocol == s.channels[i].mode.protocol,
        s.channels[i].mode.protocol != d.mode.protocol ==> s.added(d).channels[i] == s.channels[i],
{
    if exists|k: int| s.nearest(k, d) {
        let k = choose|k: int| s.nearest(k, d);
        assert(s.joins(k, d));
    }
}

/// Without a cut nothing is forgotten, not even a channel that has never said
/// anything.
pub proof fn no_cut_is_no_change(channels: Seq<ChannelView>, cuts: Seq<Option<Ticks>>)
    requires
        cuts.len() == channels.len(),
        forall|i: int| 0 <= i < cuts.len() ==> (#[trigger] cuts[i]) is None,
    ensures
        forgotten(channels, cuts) == channels,
    decreases channels.len(),
{
    if channels.len() > 0 {
        no_cut_is_no_change(channels.drop_last(), cuts.drop_last());
        assert(cuts[cuts.len() - 1] is None);
        assert(channels.drop_last().push(channels.last()) == channels);
    }
}

/// After a cut on every channel, each that is left has something to show.
pub proof fn an_empty_channel_goes(channels: Seq<ChannelView>, cuts: Seq<Option<Ticks>>, i: int)
    requires
        cuts.len() == channels.len(),
        forall|k: int| 0 <= k < cuts.len() ==> (#[trigger] cuts[k]) is Some,
        0 <= i < forgotten(channels, cuts).len(),
    ensures
        forgotten(channels, cuts)[i].text.len() > 0,
    decreases channels.len(),
{
    let front = forgotten(channels.drop_last(), cuts.drop_last());
    assert(cuts[cuts.len() - 1] is Some);
    if i < front.len() {
        assert forall|k: int| 0 <= k < cuts.drop_last().len() implies (#[trigger] cuts.drop_last()[k]) is Some by {
            assert(cuts[k] is Some);
        }
        an_empty_channel_goes(channels.drop_last(), cuts.drop_last(), i);
    }
}

/// An id names at most one channel.
pub proof fn ids_are_unique(s: SetView, i: int, j: int)
    requires
        s.wf(),
        0 <= i < s.channels.len(),
        0 <= j < s.channels.len(),
        s.channels[i].id == s.channels[j].id,
    ensures
        i == j,
{
}

/// Where in a set a decode lands: on the channel nearest to it, or on a new one
/// behind them all.
pub open spec fn lands_on(s: SetView, d: Decode) -> int {
    if exists|i: int| s.nearest(i, d) {
        choose|i: int| s.nearest(i, d)
    } else {
        s.channels.len() as int
    }
}

/// The text that channel `k` of a set holds, and how many characters it dropped in
/// front of it. One that is not there yet holds nothing and dropped nothing.
pub open spec fn text_of(s: SetView, k: int) -> (Seq<char>, nat) {
    if 0 <= k < s.channels.len() {
        (s.channels[k].text, s.channels[k].text_dropped)
    } else {
        (Seq::empty(), 0)
    }
}

/// A channel's text stops growing: it takes each decode on at its end, counts every
/// character, and once it is full drops as many off its front as come, and not
/// before. The text of the other channels stays as it is.
pub proof fn a_channels_text_stops_growing(s: SetView, d: Decode)
    requires
        s.wf(),
        s.has_room(d),
    ensures
        ({
            let k = lands_on(s, d);
            let (was, dropped) = text_of(s, k);
            let (text, gone) = text_of(s.added(d), k);
            &&& text.len() <= MAX_TEXT_CHARS
            &&& gone + text.len() == dropped + was.len() + d.text@.len()
            &&& gone >= dropped
            &&& text == (was + d.text@).skip(gone - dropped)
            &&& gone > dropped <==> was.len() + d.text@.len() > MAX_TEXT_CHARS
            &&& gone > dropped ==> text.len() == MAX_TEXT_CHARS
            &&& forall|i: int| 0 <= i < s.channels.len() && i != k ==> #[trigger] s.added(d).channels[i] == s.channels[i]
        }),
{
    let k = lands_on(s, d);
    if exists|i: int| s.nearest(i, d) {
        assert(s.joins(k, d));
        let c = s.channels[k];
        assert(c.wf());
        assert(c.marked(d).text == c.text && c.marked(d).text_dropped == c.text_dropped);
        assert(s.added(d).channels[k] == c.extended(d));
        assert((c.text + d.text@).skip(0) == c.text + d.text@);
    } else {
        let c = ChannelView::fresh(s.next_id, d);
        assert(s.added(d).channels[k] == c);
        assert(Seq::<char>::empty() + d.text@ == d.text@);
        assert(d.text@.skip(0) == d.text@);
    }
}

} // verus!
