//! What holds of one station's conversation: where an over ends and the next one
//! starts, who is taken to be speaking, and what is remembered of each decode.

use crate::channel::{call_shaped, drop_front_keeps, named_sender, ChannelView, Mark};
use crate::find::{sifted_is_kept, sifted_was_there};
use crate::modes::Decode;
use crate::text::{find_from, find_from_is_first, find_from_reaches, white_space};
use vstd::prelude::*;

verus! {

/// A silence starts a new over, whatever the mode: one of more than one and a
/// half cycles where the mode has cycles, and otherwise one of more than five
/// seconds and more than four decodes.
pub proof fn a_silence_starts_an_over(c: ChannelView, d: Decode)
    requires
        match d.mode.period_s {
            Some(p) => d.time_s - c.last_heard_s > p * 18_000_000,
            None => d.time_s - c.last_heard_s > 60_000_000 && d.time_s - c.last_heard_s > 4 * d.mode.chunk,
        },
    ensures
        c.marked(d).breaks == c.breaks.push((c.next_index() as usize, d.time_s)),
{
}

/// A frame that names somebody else than the one who is speaking starts a new
/// over, however soon it comes.
pub proof fn another_speaker_starts_an_over(c: ChannelView, d: Decode)
    requires
        c.over_sender is Some,
        named_sender(d.text@) is Some,
        named_sender(d.text@) != c.over_sender,
    ensures
        c.marked(d).breaks == c.breaks.push((c.next_index() as usize, d.time_s)),
{
}

/// Nothing else starts one: while the station has not said it is done, has not
/// been quiet for long and nobody else is named, the over goes on.
pub proof fn an_over_goes_on(c: ChannelView, d: Decode)
    requires
        !c.over_ended,
        c.over_sender is None || named_sender(d.text@) is None || named_sender(d.text@) == c.over_sender,
        match d.mode.period_s {
            Some(p) => d.time_s - c.last_heard_s <= p * 18_000_000,
            None => d.time_s - c.last_heard_s <= 60_000_000 || d.time_s - c.last_heard_s <= 4 * d.mode.chunk,
        },
    ensures
        c.marked(d).breaks == c.breaks,
{
}

/// What a station says after it said it was done is a new over, however soon it
/// comes and whoever it names.
pub proof fn an_over_that_was_ended_is_over(c: ChannelView, d: Decode)
    requires
        c.over_ended,
    ensures
        c.marked(d).breaks == c.breaks.push((c.next_index() as usize, d.time_s)),
{
}

/// Who was named last is speaking: a frame that names somebody settles it, and
/// one that names nobody leaves it open in a new over and as it was in the same.
pub proof fn who_is_named_is_speaking(c: ChannelView, d: Decode)
    ensures
        named_sender(d.text@) is Some ==> c.extended(d).over_sender == named_sender(d.text@),
        named_sender(d.text@) is None && c.marked(d).breaks.len() == c.breaks.len() ==> c.extended(d).over_sender
            == c.over_sender,
        named_sender(d.text@) is None && c.marked(d).breaks.len() > c.breaks.len() ==> c.extended(d).over_sender
            is None,
        c.extended(d).over_ended == d.ends_over,
{
}

/// Every frame of a mode that keeps to a schedule is marked where its text
/// starts, and no other decode is.
pub proof fn frames_are_marked(c: ChannelView, d: Decode)
    ensures
        d.mode.period_s is Some ==> c.marked(d).frames == c.frames.push((c.next_index() as usize, d.time_s)),
        d.mode.period_s is None ==> c.marked(d).frames == c.frames,
{
}

/// Text is timed to the second: a decode is given a time of its own where the
/// last one given lies a second or more back, or where there is none, and else
/// shares it.
pub proof fn text_is_timed_to_the_second(c: ChannelView, d: Decode)
    ensures
        c.arrivals.len() == 0 || d.time_s - c.arrivals.last().1 >= 12_000_000 ==> c.marked(d).arrivals
            == c.arrivals.push((c.next_index() as usize, d.time_s)),
        c.arrivals.len() > 0 && d.time_s - c.arrivals.last().1 < 12_000_000 ==> c.marked(d).arrivals == c.arrivals,
{
}

/// Marks stay for as long as the text they point at, and no longer.
pub proof fn marks_go_with_their_text(c: ChannelView, d: Decode, m: Mark)
    ensures
        c.extended(d).breaks.contains(m) <==> c.marked(d).breaks.contains(m) && m.0 >= c.extended(d).text_dropped || (
        c.extended(d).text_dropped == c.text_dropped && c.marked(d).breaks.contains(m)),
        c.extended(d).frames.contains(m) <==> c.marked(d).frames.contains(m) && m.0 >= c.extended(d).text_dropped || (
        c.extended(d).text_dropped == c.text_dropped && c.marked(d).frames.contains(m)),
{
    let was = c.marked(d);
    let longer = ChannelView { text: was.text + d.text@, ..was };
    let now = c.extended(d);
    let keep = |m: Mark| m.0 >= now.text_dropped;
    if longer.text.len() > 4096 {
        assert(now.breaks == was.breaks.filter(keep));
        assert(now.frames == was.frames.filter(keep));
        sifting_decides(was.breaks, keep, m);
        sifting_decides(was.frames, keep, m);
    }
}

proof fn sifting_decides(s: Seq<Mark>, p: spec_fn(Mark) -> bool, m: Mark)
    ensures
        s.filter(p).contains(m) <==> s.contains(m) && p(m),
{
    if s.filter(p).contains(m) {
        let i = choose|i: int| 0 <= i < s.filter(p).len() && s.filter(p)[i] == m;
        sifted_was_there(s, p, i);
    }
    if s.contains(m) && p(m) {
        sifted_is_kept(s, p, m);
    }
}

/// A channel holds the last four thousand and ninety-six characters that were
/// heard on it, and drops nothing before it has to.
pub proof fn the_newest_text_is_held(c: ChannelView, d: Decode)
    requires
        c.text.len() <= 4096,
    ensures
        ({
            let all = c.text + d.text@;
            &&& all.len() <= 4096 ==> c.extended(d).text == all && c.extended(d).text_dropped == c.text_dropped
            &&& all.len() > 4096 ==> c.extended(d).text == all.skip(all.len() - 4096) && c.extended(d).text_dropped
                == c.text_dropped + all.len() - 4096
        }),
{
}

/// The figures of a channel are those of the latest decode, its best are the
/// best of any, and one that could not be measured changes neither.
pub proof fn figures_follow_the_latest_decode(c: ChannelView, d: Decode)
    ensures
        c.extended(d).hz == d.hz,
        c.extended(d).mode == d.mode,
        c.extended(d).quality == d.quality,
        c.extended(d).last_heard_s == d.time_s,
        c.extended(d).last_chunk_chars == d.text@.len(),
        c.extended(d).chunks == c.chunks + 1,
        c.extended(d).best_quality >= c.best_quality && c.extended(d).best_quality >= d.quality,
        c.extended(d).best_quality == c.best_quality || c.extended(d).best_quality == d.quality,
        d.snr_db is None ==> c.extended(d).snr_db == c.snr_db && c.extended(d).best_snr_db == c.best_snr_db
            && c.extended(d).snr_history == c.snr_history,
        d.snr_db is Some ==> {
            let best = c.extended(d).best_snr_db;
            &&& c.extended(d).snr_db == d.snr_db
            &&& best is Some && best->0 >= d.snr_db->0
            &&& c.best_snr_db is Some ==> best->0 >= c.best_snr_db->0
            &&& best == d.snr_db || best == c.best_snr_db
        },
{
}

/// The histories hold the latest two hundred and fifty-six samples, in the order
/// they were taken.
pub proof fn histories_hold_the_latest(c: ChannelView, d: Decode)
    requires
        c.hz_history.len() <= 256,
        c.snr_history.len() <= 256,
    ensures
        ({
            let all = c.hz_history.push((d.time_s, d.hz));
            let kept = c.extended(d).hz_history;
            &&& kept == all.skip(all.len() - kept.len())
            &&& kept.len() == if all.len() <= 256 { all.len() } else { 256 }
        }),
        d.snr_db is Some ==> {
            let all = c.snr_history.push((d.time_s, d.snr_db->0));
            let kept = c.extended(d).snr_history;
            &&& kept == all.skip(all.len() - kept.len())
            &&& kept.len() == if all.len() <= 256 { all.len() } else { 256 }
        },
{
    let all = c.hz_history.push((d.time_s, d.hz));
    assert(all.skip(0) == all);
    assert(all.skip(1) == all.drop_first());
    if d.snr_db is Some {
        let all = c.snr_history.push((d.time_s, d.snr_db->0));
        assert(all.skip(0) == all);
        assert(all.skip(1) == all.drop_first());
    }
}

/// A channel begins with what it was first heard with: no break, the one carrier
/// and time, and the newest of the text.
pub proof fn a_channel_begins_with_its_first_decode(id: u64, d: Decode)
    ensures
        ({
            let c = ChannelView::fresh(id, d);
            let n = d.text@.len();
            &&& c.id == id && c.hz == d.hz && c.first_hz == d.hz && c.mode == d.mode
            &&& c.first_heard_s == d.time_s && c.last_heard_s == d.time_s
            &&& c.quality == d.quality && c.best_quality == d.quality
            &&& c.snr_db == d.snr_db && c.best_snr_db == d.snr_db
            &&& c.chunks == 1 && c.over_ended == d.ends_over && c.over_sender == named_sender(d.text@)
            &&& n <= 4096 ==> c.text == d.text@ && c.text_dropped == 0 && c.breaks.len() == 0
            &&& n <= 4096 ==> c.arrivals == seq![(0usize, d.time_s)]
            &&& n <= 4096 && d.mode.period_s is Some ==> c.frames == seq![(0usize, d.time_s)]
            &&& d.mode.period_s is None ==> c.frames.len() == 0
            &&& c.hz_history == seq![(d.time_s, d.hz)]
            &&& d.snr_db is Some ==> c.snr_history == seq![(d.time_s, d.snr_db->0)]
            &&& d.snr_db is None ==> c.snr_history.len() == 0
            &&& n > 4096 ==> c.text == d.text@.skip(n - 4096) && c.text_dropped == n - 4096
        }),
{
    assert(Seq::<char>::empty() + d.text@ == d.text@);
    if d.text@.len() > 4096 {
        reveal(Seq::filter);
    }
}

/// A callsign, by its characters: three to eleven letters, digits and slashes,
/// with a letter and a digit among them.
pub open spec fn spells_a_call(call: Seq<char>) -> bool {
    &&& 3 <= call.len() <= 11
    &&& forall|i: int|
        0 <= i < call.len() ==> ('A' <= #[trigger] call[i] <= 'Z' || 'a' <= call[i] <= 'z' || '0' <= call[i] <= '9'
            || call[i] == '/')
    &&& exists|i: int| 0 <= i < call.len() && '0' <= #[trigger] call[i] <= '9'
    &&& exists|i: int| 0 <= i < call.len() && ('A' <= #[trigger] call[i] <= 'Z' || 'a' <= call[i] <= 'z')
}

proof fn spelling_is_shape(call: Seq<char>)
    ensures
        spells_a_call(call) <==> call_shaped(call),
{
    if spells_a_call(call) {
        let i = choose|i: int| 0 <= i < call.len() && '0' <= #[trigger] call[i] <= '9';
        let j = choose|i: int| 0 <= i < call.len() && ('A' <= #[trigger] call[i] <= 'Z' || 'a' <= call[i] <= 'z');
        assert(crate::channel::digit(call[i]));
        assert(crate::channel::letter(call[j]));
        assert forall|k: int| 0 <= k < call.len() implies crate::channel::letter(#[trigger] call[k])
            || crate::channel::digit(call[k]) || call[k] == '/' by {
            assert('A' <= call[k] <= 'Z' || 'a' <= call[k] <= 'z' || '0' <= call[k] <= '9' || call[k] == '/');
        }
    }
    if call_shaped(call) {
        let i = choose|i: int| 0 <= i < call.len() && crate::channel::digit(#[trigger] call[i]);
        let j = choose|i: int| 0 <= i < call.len() && crate::channel::letter(#[trigger] call[i]);
        assert('0' <= call[i] <= '9');
        assert('A' <= call[j] <= 'Z' || 'a' <= call[j] <= 'z');
        assert forall|k: int| 0 <= k < call.len() implies ('A' <= #[trigger] call[k] <= 'Z' || 'a' <= call[k] <= 'z'
            || '0' <= call[k] <= '9' || call[k] == '/') by {
            assert(crate::channel::letter(call[k]) || crate::channel::digit(call[k]) || call[k] == '/');
        }
    }
}

/// A directed frame names its sender first: behind the opening bracket, up to a
/// space or the closing bracket, whatever comes after.
pub proof fn a_directed_frame_names_its_sender(call: Seq<char>, end: char, rest: Seq<char>)
    requires
        spells_a_call(call),
        end == ' ' || end == ']',
    ensures
        named_sender(seq!['['] + call + seq![end] + rest) == Some(call),
{
    let s = seq!['['] + call + seq![end] + rest;
    let p = |c: char| c == ' ' || c == ']';
    let to = 1 + call.len();
    assert forall|j: int| 1 <= j < to implies !p(#[trigger] s[j]) by {
        assert(s[j] == call[j - 1]);
    }
    assert(s[to as int] == end);
    find_from_reaches(s, 1, p, to as int);
    assert(s.subrange(1, to as int) == call);
    spelling_is_shape(call);
}

/// A heartbeat or a call to all names its sender first: the first word, where a
/// colon ends it, whatever comes after.
pub proof fn a_heartbeat_names_its_sender(call: Seq<char>, rest: Seq<char>)
    requires
        spells_a_call(call),
    ensures
        named_sender(call + seq![':', ' '] + rest) == Some(call),
        named_sender(call + seq![' '] + rest) is None,
{
    spelling_is_shape(call);
    let s = call + seq![':', ' '] + rest;
    let solid = |c: char| !white_space(c);
    let blank = |c: char| white_space(c);
    assert(s[0] == call[0]);
    find_from_reaches(s, 0, solid, 0);
    let n = call.len() as int;
    assert forall|j: int| 0 <= j < n + 1 implies !blank(#[trigger] s[j]) by {
        if j < n {
            assert(s[j] == call[j]);
        }
    }
    assert(s[n] == ':' && s[n + 1] == ' ');
    find_from_reaches(s, 0, blank, n + 1);
    assert(s.subrange(0, n) == call);
    let t = call + seq![' '] + rest;
    assert(t[0] == call[0]);
    find_from_reaches(t, 0, solid, 0);
    assert forall|j: int| 0 <= j < n implies !blank(#[trigger] t[j]) by {
        assert(t[j] == call[j]);
    }
    assert(t[n] == ' ');
    find_from_reaches(t, 0, blank, n);
    assert(t[n - 1] == call[n - 1]);
}

/// What a frame names as its sender is a callsign, and stands in the frame: at
/// its start behind a bracket, or as its first word with a colon behind it.
pub proof fn a_sender_is_a_call_in_the_frame(s: Seq<char>)
    requires
        named_sender(s) is Some,
    ensures
        spells_a_call(named_sender(s)->0),
        exists|from: int, to: int|
            #![trigger s.subrange(from, to)]
            0 <= from <= to <= s.len() && s.subrange(from, to) == named_sender(s)->0 && {
                ||| from == 1 && s[0] == '[' && (to == s.len() || s[to] == ' ' || s[to] == ']')
                ||| to < s.len() && s[to] == ':' && (forall|j: int| 0 <= j < from ==> white_space(#[trigger] s[j]))
            },
{
    spelling_is_shape(named_sender(s)->0);
    if s.len() > 0 && s[0] == '[' {
        let p = |c: char| c == ' ' || c == ']';
        find_from_is_first(s, 1, p);
        let to = find_from(s, 1, p);
        assert(s.subrange(1, to) == named_sender(s)->0);
    } else {
        let solid = |c: char| !white_space(c);
        let blank = |c: char| white_space(c);
        find_from_is_first(s, 0, solid);
        let from = find_from(s, 0, solid);
        find_from_is_first(s, from, blank);
        let to = find_from(s, from, blank);
        assert forall|j: int| 0 <= j < from implies white_space(#[trigger] s[j]) by {
            assert(!solid(s[j]));
        }
        assert(s.subrange(from, to - 1) == named_sender(s)->0);
    }
}

/// Text that goes takes its times with it: a channel with nothing left of its text has
/// no time on record, and one with something left has one for the first of it.
pub proof fn times_go_with_their_text(c: ChannelView, n: nat)
    requires
        c.ordered(),
    ensures
        c.drop_front(n).text.len() == 0 ==> c.drop_front(n).arrivals.len() == 0,
        c.drop_front(n).text.len() > 0 ==> c.drop_front(n).arrivals.len() > 0 && c.drop_front(n).arrivals[0].0
            == c.drop_front(n).text_dropped,
        c.drop_front(n).text == c.text.skip(c.drop_front(n).text_dropped - c.text_dropped),
        c.drop_front(n).text_dropped - c.text_dropped == if n <= c.text.len() { n } else { c.text.len() },
{
    drop_front_keeps(c, n);
    let after = c.drop_front(n);
    if after.text.len() == 0 {
        let dropped = after.text_dropped as int;
        let late = |m: Mark| m.0 >= dropped + 1;
        if after.arrivals.len() > 0 {
            sifted_was_there(c.arrivals, late, 0);
        }
    }
}

} // verus!
