//! What holds of transmissions: what can be taken back is all that has not begun,
//! everything that was stopped goes back where it came from, and the key is held
//! for what is still to go out and no longer.

use crate::find::{sifted_is_kept, sifted_was_there};
use crate::modes::Ticks;
use crate::text::{trim, white_space};
use crate::text_laws::trimming_takes_blanks_off_the_ends;
use crate::transmit::{
    all_keys, names, not_newline, piece_at, refused, slot_of, still_owed, stopped_of, takeable, tellable, waiting_at,
    Burst, Outgoing,
};
use vstd::prelude::*;

verus! {

/// What can be taken back is what has not begun: everything of it, and nothing that
/// is on the air or has been.
pub proof fn what_has_not_begun_can_be_taken_back(outs: Seq<Outgoing>, now: Ticks, id: u64)
    ensures
        takeable(outs, now).contains(id) <==> exists|i: int|
            0 <= i < outs.len() && (#[trigger] outs[i]).burst == id && outs[i].start_unix > now,
{
    let p = waiting_at(now);
    let kept = outs.filter(p);
    if takeable(outs, now).contains(id) {
        let k = choose|k: int| 0 <= k < takeable(outs, now).len() && takeable(outs, now)[k] == id;
        assert(names(kept)[k] == kept[k].burst);
        sifted_was_there(outs, p, k);
        let i = choose|i: int| 0 <= i < outs.len() && outs[i] == kept[k];
        assert(outs[i].burst == id);
    }
    if exists|i: int| 0 <= i < outs.len() && (#[trigger] outs[i]).burst == id && outs[i].start_unix > now {
        let i = choose|i: int| 0 <= i < outs.len() && (#[trigger] outs[i]).burst == id && outs[i].start_unix > now;
        assert(p(outs[i]));
        sifted_is_kept(outs, p, outs[i]);
        let k = choose|k: int| 0 <= k < kept.len() && kept[k] == outs[i];
        assert(takeable(outs, now)[k] == id);
    }
}

/// Everything that was stopped goes back: of what never began all of it, and of
/// what was on the air all but what was delivered.
pub proof fn everything_stopped_goes_back(
    outs: Seq<Outgoing>,
    never_began: Seq<u64>,
    in_flight: Option<(u64, usize)>,
    i: int,
    delivered: usize,
)
    requires
        0 <= i < outs.len(),
    ensures
        never_began.contains(outs[i].burst) ==> stopped_of(outs, never_began, in_flight).contains(
            (outs[i].burst, 0usize),
        ),
        !never_began.contains(outs[i].burst) && in_flight == Some((outs[i].burst, delivered)) ==> stopped_of(
            outs,
            never_began,
            in_flight,
        ).contains((outs[i].burst, delivered)),
    decreases outs.len(),
{
    let all = stopped_of(outs, never_began, in_flight);
    let front = stopped_of(outs.drop_last(), never_began, in_flight);
    let o = outs[i];
    let back = if never_began.contains(o.burst) {
        (o.burst, 0usize)
    } else {
        (o.burst, delivered)
    };
    if i < outs.len() - 1 {
        everything_stopped_goes_back(outs.drop_last(), never_began, in_flight, i, delivered);
        assert(outs.drop_last()[i] == o);
        if front.contains(back) {
            let k = choose|k: int| 0 <= k < front.len() && front[k] == back;
            assert(all[k] == back);
        }
    } else if all.len() > front.len() {
        assert(all[front.len() as int] == all.last());
    }
}

/// Only what is in the conversation's queue goes back to it.
pub proof fn only_its_own_goes_back(
    outs: Seq<Outgoing>,
    never_began: Seq<u64>,
    in_flight: Option<(u64, usize)>,
    k: int,
)
    requires
        0 <= k < stopped_of(outs, never_began, in_flight).len(),
    ensures
        exists|i: int|
            0 <= i < outs.len() && (#[trigger] outs[i]).burst == stopped_of(outs, never_began, in_flight)[k].0,
    decreases outs.len(),
{
    let front = stopped_of(outs.drop_last(), never_began, in_flight);
    if k < front.len() {
        only_its_own_goes_back(outs.drop_last(), never_began, in_flight, k);
        let i = choose|i: int|
            0 <= i < outs.len() - 1 && (#[trigger] outs.drop_last()[i]).burst == front[k].0;
        assert(outs[i] == outs.drop_last()[i]);
    } else {
        assert(outs[outs.len() - 1] == outs.last());
    }
}

proof fn every_span_is_among_all(outs: Seq<Outgoing>, i: int, span: (Ticks, Ticks))
    requires
        0 <= i < outs.len(),
        outs[i].keys@.contains(span),
    ensures
        all_keys(outs).contains(span),
    decreases outs.len(),
{
    let front = all_keys(outs.drop_last());
    let back = outs.last().keys@;
    if i < outs.len() - 1 {
        assert(outs.drop_last()[i] == outs[i]);
        every_span_is_among_all(outs.drop_last(), i, span);
        let k = choose|k: int| 0 <= k < front.len() && front[k] == span;
        assert((front + back)[k] == span);
    } else {
        let k = choose|k: int| 0 <= k < back.len() && back[k] == span;
        assert((front + back)[front.len() + k] == span);
    }
}

proof fn a_span_is_of_some_transmission(outs: Seq<Outgoing>, span: (Ticks, Ticks))
    requires
        all_keys(outs).contains(span),
    ensures
        exists|i: int| 0 <= i < outs.len() && (#[trigger] outs[i]).keys@.contains(span),
    decreases outs.len(),
{
    if outs.len() > 0 {
        let front = all_keys(outs.drop_last());
        let back = outs.last().keys@;
        let k = choose|k: int| 0 <= k < (front + back).len() && (front + back)[k] == span;
        if k < front.len() {
            assert(front[k] == span);
            a_span_is_of_some_transmission(outs.drop_last(), span);
            let i = choose|i: int| 0 <= i < outs.len() - 1 && (#[trigger] outs.drop_last()[i]).keys@.contains(span);
            assert(outs[i] == outs.drop_last()[i]);
        } else {
            assert(back[k - front.len()] == span);
            assert(outs[outs.len() - 1].keys@.contains(span));
        }
    }
}

/// The key is down again for just those spans that are not over: every one of every
/// transmission that is still queued, and none that has ended.
pub proof fn the_key_is_owed_what_is_not_over(outs: Seq<Outgoing>, now: Ticks, span: (Ticks, Ticks))
    ensures
        all_keys(outs).filter(still_owed(now)).contains(span) <==> span.1 > now && exists|i: int|
            0 <= i < outs.len() && (#[trigger] outs[i]).keys@.contains(span),
{
    let p = still_owed(now);
    let spans = all_keys(outs).filter(p);
    if spans.contains(span) {
        let k = choose|k: int| 0 <= k < spans.len() && spans[k] == span;
        sifted_was_there(all_keys(outs), p, k);
        a_span_is_of_some_transmission(outs, span);
    }
    if span.1 > now && exists|i: int| 0 <= i < outs.len() && (#[trigger] outs[i]).keys@.contains(span) {
        let i = choose|i: int| 0 <= i < outs.len() && (#[trigger] outs[i]).keys@.contains(span);
        every_span_is_among_all(outs, i, span);
        sifted_is_kept(all_keys(outs), p, span);
    }
}

/// A burst goes out where the message has it, with the key down `lead` ahead of it
/// and up `tail` behind it.
pub proof fn the_key_leads_and_trails_each_burst(bursts: Seq<Burst>, i: int, at: Ticks, lead: Ticks, tail: Ticks)
    requires
        tellable(bursts, at, lead, tail),
        0 <= i < bursts.len(),
    ensures
        ({
            let slot = slot_of(bursts, i, at, lead, tail);
            &&& slot.begins - at == bursts[i].at_s
            &&& slot.begins - slot.on == lead
            &&& slot.off - slot.begins == bursts[i].secs + tail
        }),
{
}

/// A draft is sent as it was typed but for its newlines: none of those is left, and
/// every other character is.
pub proof fn only_newlines_go(draft: Seq<char>, c: char)
    ensures
        !draft.filter(not_newline()).contains('\n'),
        c != '\n' ==> (draft.filter(not_newline()).contains(c) <==> draft.contains(c)),
        !draft.contains('\n') ==> draft.filter(not_newline()) == draft,
    decreases draft.len(),
{
    let p = not_newline();
    let out = draft.filter(p);
    if out.contains('\n') {
        let i = choose|i: int| 0 <= i < out.len() && out[i] == '\n';
        sifted_was_there(draft, p, i);
    }
    if c != '\n' {
        if draft.contains(c) {
            sifted_is_kept(draft, p, c);
        }
        if out.contains(c) {
            let i = choose|i: int| 0 <= i < out.len() && out[i] == c;
            sifted_was_there(draft, p, i);
        }
    }
    if !draft.contains('\n') {
        reveal(Seq::filter);
        if draft.len() > 0 {
            let less = draft.drop_last();
            assert(!less.contains('\n')) by {
                if less.contains('\n') {
                    let i = choose|i: int| 0 <= i < less.len() && less[i] == '\n';
                    assert(draft[i] == '\n');
                }
            }
            only_newlines_go(less, c);
            assert(draft[draft.len() - 1] == draft.last());
            assert(p(draft.last()));
            assert(less.push(draft.last()) == draft);
        }
    }
}

/// There is something to send just where there is something besides blanks.
pub proof fn blanks_alone_are_nothing_to_send(draft: Seq<char>)
    ensures
        trim(draft).len() > 0 <==> exists|i: int| 0 <= i < draft.len() && !white_space(#[trigger] draft[i]),
{
    trimming_takes_blanks_off_the_ends(draft);
    let (from, to) = choose|from: int, to: int|
        #![trigger draft.subrange(from, to)]
        0 <= from <= to <= draft.len() && trim(draft) == draft.subrange(from, to) && (forall|i: int|
            0 <= i < from || to <= i < draft.len() ==> white_space(#[trigger] draft[i]));
    if trim(draft).len() > 0 {
        assert(draft[from] == trim(draft)[0]);
    } else {
        assert(from == to);
        assert forall|i: int| 0 <= i < draft.len() implies white_space(#[trigger] draft[i]) by {}
    }
}

/// A log entry is cut where its packets were joined: each piece runs from one mark to
/// the next, the first from the start and the last to the end.
pub proof fn pieces_run_from_mark_to_mark(text: Seq<char>, marks: Seq<usize>, i: int)
    requires
        0 <= i <= marks.len(),
        forall|j: int| 0 <= j < marks.len() ==> #[trigger] marks[j] <= text.len(),
        forall|j: int, k: int| 0 <= j < k < marks.len() ==> marks[j] <= marks[k],
    ensures
        ({
            let from = if i == 0 { 0 } else { marks[i - 1] as int };
            let to = if i == marks.len() { text.len() as int } else { marks[i] as int };
            piece_at(text, marks, i) == text.subrange(from, to)
        }),
{
}

/// A rig is refused where it does not answer and has said why: one that answers is
/// not, nor one that has not been tried.
pub proof fn only_a_rig_that_failed_is_refused(linked: bool, fault: Option<String>)
    ensures
        linked ==> !refused(linked, fault),
        fault is None ==> !refused(linked, fault),
        !linked && fault is Some ==> refused(linked, fault),
{
}

} // verus!
