//! Putting text on the air, and taking it back.
//!
//! There is one rig and one queue behind every conversation. A message goes out
//! as one burst or several, each of which can be taken off the queue on its own
//! and knows which characters it carries.

use crate::modes::{ModeId, Ticks};
use crate::text::{from_chars, to_chars, trim, trimmed};
use vstd::prelude::*;

verus! {

/// A burst that has been made but not queued.
#[derive(Debug)]
pub struct Burst {
    /// When it begins, from the start of the message.
    pub at_s: Ticks,
    /// How long it lasts.
    pub secs: Ticks,
    /// What it carries.
    pub text: String,
}

/// Where a burst of a message goes.
#[derive(Clone, Copy, Debug, PartialEq, Eq, Structural)]
pub struct Slot {
    /// When it begins.
    pub begins: Ticks,
    /// When the key goes down for it, and when it comes up.
    pub on: Ticks,
    pub off: Ticks,
    /// Which character of the message is its first.
    pub starts_at: usize,
}

/// A transmission that has been queued and has not all gone out.
#[derive(Debug)]
pub struct Outgoing {
    pub start_unix: Ticks,
    pub end_unix: Ticks,
    /// What the queue knows it by.
    pub burst: u64,
    pub mode: ModeId,
    /// When the key is down for it.
    pub keys: Vec<(Ticks, Ticks)>,
    pub text: String,
}

/// Why nothing is sent to a rig: it is not answering, and has said why.
pub open spec fn refused(linked: bool, fault: Option<String>) -> bool {
    !linked && fault is Some
}

/// What stands in the way of transmitting, for a rig that keys: audio into a rig
/// that did not key is silence at best. Nothing, where it is linked, or has not
/// been tried.
pub fn fault_in_the_way(linked: bool, fault: &Option<String>) -> (why: Option<String>)
    ensures
        why is Some <==> refused(linked, *fault),
        why matches Some(w) ==> w@ == "not transmitting: "@ + fault->0@,
{
    if linked {
        return None;
    }
    match fault {
        Some(f) => {
            let mut w = "not transmitting: ".to_owned();
            w.append(f.as_str());
            Some(w)
        },
        None => None,
    }
}

/// Whether there is anything in a draft to send. Only one with nothing but
/// blanks in it is refused; what is sent is sent as typed.
pub fn sendable(draft: &str) -> (r: bool)
    ensures
        r <==> trim(draft@).len() > 0,
{
    let chars = to_chars(draft);
    let rest = trimmed(&chars);
    rest.len() > 0
}

/// Whether a character can be sent. No protocol carries a newline.
pub open spec fn not_newline() -> spec_fn(char) -> bool {
    |c: char| c != '\n'
}

/// A draft without its newlines.
pub fn without_newlines(draft: &str) -> (out: String)
    ensures
        out@ == draft@.filter(not_newline()),
{
    let mut out = String::new();
    proof {
        crate::find::filter_ends(draft@, not_newline());
    }
    for c in it: draft.chars()
        invariant
            it.seq() == draft@,
            out@ == draft@.take(it.index()).filter(not_newline()),
    {
        proof {
            crate::find::filter_one_more(draft@, not_newline(), it.index());
        }
        if c != '\n' {
            out.push(c);
        }
    }
    proof {
        assert(draft@.take(draft@.len() as int) == draft@);
    }
    out
}

/// How many characters bursts carry between them.
pub open spec fn carried(bursts: Seq<Burst>) -> nat
    decreases bursts.len(),
{
    if bursts.len() == 0 {
        0
    } else {
        carried(bursts.drop_last()) + bursts.last().text@.len()
    }
}

/// Whether bursts, sent from `at`, fall on times that can be told, the key's
/// included.
pub open spec fn tellable(bursts: Seq<Burst>, at: Ticks, lead: Ticks, tail: Ticks) -> bool {
    &&& carried(bursts) <= usize::MAX
    &&& forall|i: int|
        0 <= i < bursts.len() ==> {
            &&& i64::MIN <= at + (#[trigger] bursts[i]).at_s <= i64::MAX
            &&& i64::MIN <= at + bursts[i].at_s - lead <= i64::MAX
            &&& i64::MIN <= at + bursts[i].at_s + bursts[i].secs <= i64::MAX
            &&& i64::MIN <= at + bursts[i].at_s + bursts[i].secs + tail <= i64::MAX
        }
}

/// Whether bursts, sent from `at`, fall on times that can be told, the key's
/// included.
pub fn is_tellable(bursts: &Vec<Burst>, at: Ticks, lead: Ticks, tail: Ticks) -> (r: bool)
    ensures
        r == tellable(bursts@, at, lead, tail),
{
    let (lo, hi): (i128, i128) = (i64::MIN as i128, i64::MAX as i128);
    let mut chars: usize = 0;
    let mut i: usize = 0;
    assert(bursts@.take(0).len() == 0);
    while i < bursts.len()
        invariant
            0 <= i <= bursts@.len(),
            lo == i64::MIN,
            hi == i64::MAX,
            chars == carried(bursts@.take(i as int)),
            tellable(bursts@.take(i as int), at, lead, tail),
        decreases bursts.len() - i,
    {
        let b = &bursts[i];
        let begins: i128 = at as i128 + b.at_s as i128;
        let on: i128 = begins - lead as i128;
        let ends: i128 = begins + b.secs as i128;
        let off: i128 = ends + tail as i128;
        let n: usize = b.text.as_str().unicode_len();
        let in_time = lo <= begins && begins <= hi && lo <= on && on <= hi && lo <= ends && ends <= hi && lo <= off
            && off <= hi;
        proof {
            assert(bursts@.take(i + 1).drop_last() == bursts@.take(i as int));
            assert(bursts@.take(i + 1).last() == bursts@[i as int]);
            carried_grows(bursts@, i + 1);
        }
        if !in_time || n > usize::MAX - chars {
            return false;
        }
        chars += n;
        assert forall|j: int| 0 <= j < i + 1 implies {
            &&& i64::MIN <= at + (#[trigger] bursts@.take(i + 1)[j]).at_s <= i64::MAX
            &&& i64::MIN <= at + bursts@.take(i + 1)[j].at_s - lead <= i64::MAX
            &&& i64::MIN <= at + bursts@.take(i + 1)[j].at_s + bursts@.take(i + 1)[j].secs <= i64::MAX
            &&& i64::MIN <= at + bursts@.take(i + 1)[j].at_s + bursts@.take(i + 1)[j].secs + tail <= i64::MAX
        } by {
            if j < i {
                assert(bursts@.take(i as int)[j] == bursts@[j]);
            }
        }
        i += 1;
    }
    assert(bursts@.take(bursts@.len() as int) == bursts@);
    true
}

/// Where burst `i` of a message goes, with the message sent from `at`.
pub open spec fn slot_of(bursts: Seq<Burst>, i: int, at: Ticks, lead: Ticks, tail: Ticks) -> Slot {
    let begins = at + bursts[i].at_s;
    Slot {
        begins: begins as i64,
        on: (begins - lead) as i64,
        off: (begins + bursts[i].secs + tail) as i64,
        starts_at: carried(bursts.take(i)) as usize,
    }
}

/// Lay a message out in time: one key-down per burst, never one across the whole
/// message, for the silence between bursts is long and a key held across it is a
/// bare carrier.
///
/// The key goes down `lead` before a burst and comes up `tail` after it.
pub fn lay_out_over(bursts: &Vec<Burst>, at: Ticks, lead: Ticks, tail: Ticks) -> (slots: Vec<Slot>)
    requires
        tellable(bursts@, at, lead, tail),
    ensures
        slots@.len() == bursts@.len(),
        forall|i: int|
            0 <= i < bursts@.len() ==> #[trigger] slots@[i] == slot_of(bursts@, i, at, lead, tail),
{
    let mut slots: Vec<Slot> = Vec::new();
    let mut from: usize = 0;
    let n: usize = bursts.len();
    let mut i: usize = 0;
    while i < n
        invariant
            n == bursts@.len(),
            0 <= i <= n,
            tellable(bursts@, at, lead, tail),
            from == carried(bursts@.take(i as int)),
            slots@.len() == i,
            forall|j: int| 0 <= j < i ==> #[trigger] slots@[j] == slot_of(bursts@, j, at, lead, tail),
        decreases n - i,
    {
        let b = &bursts[i];
        proof {
            assert(bursts@[i as int].at_s == b.at_s);
            assert(bursts@.take(i + 1).drop_last() == bursts@.take(i as int));
            carried_grows(bursts@, i + 1);
        }
        let begins: i64 = at + b.at_s;
        slots.push(Slot { begins, on: begins - lead, off: begins + b.secs + tail, starts_at: from });
        from = from + b.text.as_str().unicode_len();
        i += 1;
    }
    slots
}

proof fn carried_grows(bursts: Seq<Burst>, n: int)
    requires
        0 <= n <= bursts.len(),
    ensures
        carried(bursts.take(n)) <= carried(bursts),
    decreases bursts.len() - n,
{
    if n < bursts.len() {
        carried_grows(bursts, n + 1);
        assert(bursts.take(n + 1).drop_last() == bursts.take(n));
    } else {
        assert(bursts.take(n) == bursts);
    }
}

/// The key is up between two bursts that are further apart than it takes to let
/// go of it and press it again, and down for the whole of each.
pub proof fn the_key_is_up_between_bursts(
    bursts: Seq<Burst>,
    i: int,
    at: Ticks,
    lead: Ticks,
    tail: Ticks,
)
    requires
        tellable(bursts, at, lead, tail),
        0 <= i < bursts.len() - 1,
        lead >= 0,
        tail >= 0,
        bursts[i].at_s + bursts[i].secs + tail + lead < bursts[i + 1].at_s,
    ensures
        slot_of(bursts, i, at, lead, tail).off < slot_of(bursts, i + 1, at, lead, tail).on,
        slot_of(bursts, i, at, lead, tail).on <= at + bursts[i].at_s,
        slot_of(bursts, i, at, lead, tail).off >= at + bursts[i].at_s + bursts[i].secs,
{
    assert(i64::MIN <= at + bursts[i].at_s <= i64::MAX);
    assert(i64::MIN <= at + bursts[i + 1].at_s <= i64::MAX);
}

/// The bursts of a message divide it without gaps: each begins at the character
/// after the last one of the burst before.
pub proof fn bursts_divide_the_message(bursts: Seq<Burst>, i: int, at: Ticks, lead: Ticks, tail: Ticks)
    requires
        tellable(bursts, at, lead, tail),
        0 <= i < bursts.len(),
    ensures
        i == 0 ==> slot_of(bursts, i, at, lead, tail).starts_at == 0,
        i + 1 < bursts.len() ==> slot_of(bursts, i + 1, at, lead, tail).starts_at == slot_of(
            bursts,
            i,
            at,
            lead,
            tail,
        ).starts_at + bursts[i].text@.len(),
        i + 1 == bursts.len() ==> carried(bursts) == slot_of(bursts, i, at, lead, tail).starts_at
            + bursts[i].text@.len(),
{
    carried_grows(bursts, i);
    carried_grows(bursts, i + 1);
    assert(bursts.take(i + 1).drop_last() == bursts.take(i));
    if i + 1 == bursts.len() {
        assert(bursts.take(i + 1) == bursts);
    }
}

/// What the abort button does.
#[derive(Debug)]
pub enum Abort {
    /// Take these back: they have not begun.
    TakeBack(Vec<u64>),
    /// There is nothing to take back, so stop transmitting, now.
    Stop,
}

/// Whether a transmission has not begun.
pub open spec fn waiting_at(now: Ticks) -> spec_fn(Outgoing) -> bool {
    |o: Outgoing| o.start_unix > now
}

/// What transmissions are known by.
pub open spec fn names(outs: Seq<Outgoing>) -> Seq<u64> {
    outs.map_values(|o: Outgoing| o.burst)
}

/// What of a conversation's queue can still be taken back.
pub open spec fn takeable(outs: Seq<Outgoing>, now: Ticks) -> Seq<u64> {
    names(outs.filter(waiting_at(now)))
}

/// Take back what has not gone out, or stop what has: while there is text still
/// waiting, to abort means to give it back, and only when there is nothing left
/// to take back does it mean to stop.
pub fn abort_active(outgoing: &Vec<Outgoing>, now: Ticks) -> (a: Abort)
    ensures
        match a {
            Abort::TakeBack(ids) => ids@ == takeable(outgoing@, now) && ids@.len() > 0,
            Abort::Stop => takeable(outgoing@, now).len() == 0,
        },
{
    let mut ids: Vec<u64> = Vec::new();
    let n: usize = outgoing.len();
    let mut i: usize = 0;
    proof {
        crate::find::filter_ends(outgoing@, waiting_at(now));
        assert(names(outgoing@.take(0).filter(waiting_at(now))) == Seq::<u64>::empty());
    }
    while i < n
        invariant
            n == outgoing@.len(),
            0 <= i <= n,
            ids@ == names(outgoing@.take(i as int).filter(waiting_at(now))),
        decreases n - i,
    {
        proof {
            crate::find::filter_one_more(outgoing@, waiting_at(now), i as int);
        }
        let ghost front = outgoing@.take(i as int).filter(waiting_at(now));
        if outgoing[i].start_unix > now {
            ids.push(outgoing[i].burst);
            assert(names(front.push(outgoing@[i as int])) == names(front).push(outgoing@[i as int].burst));
        }
        i += 1;
    }
    proof {
        assert(outgoing@.take(n as int) == outgoing@);
    }
    if ids.len() == 0 {
        Abort::Stop
    } else {
        Abort::TakeBack(ids)
    }
}

/// Whether a transmission is none of those taken back.
pub open spec fn not_among(ids: Seq<u64>) -> spec_fn(Outgoing) -> bool {
    |o: Outgoing| !ids.contains(o.burst)
}

/// Pressed again, once what was waiting has been taken back, the button stops
/// what is on the air.
pub proof fn a_second_press_stops(outs: Seq<Outgoing>, now: Ticks)
    ensures
        takeable(outs.filter(not_among(takeable(outs, now))), now).len() == 0,
{
    let gone = takeable(outs, now);
    let left = outs.filter(not_among(gone));
    if takeable(left, now).len() > 0 {
        let still = left.filter(waiting_at(now));
        assert(still.len() > 0);
        crate::find::sifted_was_there(left, waiting_at(now), 0);
        let o = still[0];
        let j = choose|j: int| 0 <= j < left.len() && left[j] == o;
        crate::find::sifted_was_there(outs, not_among(gone), j);
        let k = choose|k: int| 0 <= k < outs.len() && outs[k] == o;
        waiting_is_takeable(outs, now, k);
    }
}

proof fn waiting_is_takeable(outs: Seq<Outgoing>, now: Ticks, k: int)
    requires
        0 <= k < outs.len(),
        outs[k].start_unix > now,
    ensures
        takeable(outs, now).contains(outs[k].burst),
    decreases outs.len(),
{
    reveal(Seq::filter);
    let front = outs.drop_last();
    if k < outs.len() - 1 {
        waiting_is_takeable(front, now, k);
        let i = choose|i: int| 0 <= i < takeable(front, now).len() && takeable(front, now)[i] == outs[k].burst;
        assert(takeable(outs, now)[i] == outs[k].burst);
    } else {
        let w = outs.filter(waiting_at(now));
        assert(w.last() == outs[k]);
        assert(takeable(outs, now)[w.len() - 1] == outs[k].burst);
    }
}

/// What the queue gave up when it was stopped.
#[derive(Debug)]
pub struct Caught {
    /// What never began.
    pub never_began: Vec<u64>,
    /// What was on the air, and how many of its characters a receiving station
    /// can have copied.
    pub in_flight: Option<(u64, usize)>,
}

/// What is kept of transmission `o`: nothing of one that never began, and of the
/// one on the air what was delivered. One that has finished is not taken back.
pub open spec fn kept_of(o: Outgoing, never_began: Seq<u64>, in_flight: Option<(u64, usize)>) -> Option<(u64, usize)> {
    if never_began.contains(o.burst) {
        Some((o.burst, 0usize))
    } else {
        match in_flight {
            Some((id, delivered)) if id == o.burst => Some((o.burst, delivered)),
            _ => None,
        }
    }
}

/// What is taken back of a conversation's transmissions when all is stopped,
/// each with how many of its characters are kept.
pub open spec fn stopped_of(
    outs: Seq<Outgoing>,
    never_began: Seq<u64>,
    in_flight: Option<(u64, usize)>,
) -> Seq<(u64, usize)>
    decreases outs.len(),
{
    if outs.len() == 0 {
        Seq::empty()
    } else {
        let front = stopped_of(outs.drop_last(), never_began, in_flight);
        match kept_of(outs.last(), never_began, in_flight) {
            Some(s) => front.push(s),
            None => front,
        }
    }
}

/// Whether a number is among others.
fn holds(ids: &Vec<u64>, id: u64) -> (r: bool)
    ensures
        r == ids@.contains(id),
{
    let mut i: usize = 0;
    while i < ids.len()
        invariant
            0 <= i <= ids@.len(),
            forall|j: int| 0 <= j < i ==> #[trigger] ids@[j] != id,
        decreases ids@.len() - i,
    {
        if ids[i] == id {
            return true;
        }
        i += 1;
    }
    false
}

/// Stop the lot: what of one conversation's transmissions goes back to the box
/// it was written in.
///
/// Nothing is dropped silently, and nothing is claimed that did not happen.
pub fn stop_transmitting(outgoing: &Vec<Outgoing>, caught: &Caught) -> (back: Vec<(u64, usize)>)
    ensures
        back@ == stopped_of(outgoing@, caught.never_began@, caught.in_flight),
{
    let mut back: Vec<(u64, usize)> = Vec::new();
    let n: usize = outgoing.len();
    let mut i: usize = 0;
    while i < n
        invariant
            n == outgoing@.len(),
            0 <= i <= n,
            back@ == stopped_of(outgoing@.take(i as int), caught.never_began@, caught.in_flight),
        decreases n - i,
    {
        proof {
            assert(outgoing@.take(i + 1).drop_last() == outgoing@.take(i as int));
        }
        let id: u64 = outgoing[i].burst;
        if holds(&caught.never_began, id) {
            back.push((id, 0));
        } else {
            match caught.in_flight {
                Some((on_air, delivered)) => {
                    if on_air == id {
                        back.push((id, delivered));
                    }
                },
                None => {},
            }
        }
        i += 1;
    }
    proof {
        assert(outgoing@.take(n as int) == outgoing@);
    }
    back
}

/// Of everything stopped, only what was on the air keeps anything, and whatever
/// neither waited nor was on the air is left alone.
pub proof fn only_the_burst_on_the_air_is_divided(
    outs: Seq<Outgoing>,
    never_began: Seq<u64>,
    in_flight: Option<(u64, usize)>,
    i: int,
)
    requires
        0 <= i < stopped_of(outs, never_began, in_flight).len(),
    ensures
        ({
            let (id, kept) = stopped_of(outs, never_began, in_flight)[i];
            ||| never_began.contains(id) && kept == 0
            ||| in_flight == Some((id, kept)) && !never_began.contains(id)
        }),
    decreases outs.len(),
{
    let front = stopped_of(outs.drop_last(), never_began, in_flight);
    if i < front.len() {
        only_the_burst_on_the_air_is_divided(outs.drop_last(), never_began, in_flight, i);
    }
}

/// Whether the key is still owed a span.
pub open spec fn still_owed(now: Ticks) -> spec_fn((Ticks, Ticks)) -> bool {
    |k: (Ticks, Ticks)| k.1 > now
}

/// Every span of every transmission, in order.
pub open spec fn all_keys(outs: Seq<Outgoing>) -> Seq<(Ticks, Ticks)>
    decreases outs.len(),
{
    if outs.len() == 0 {
        Seq::empty()
    } else {
        all_keys(outs.drop_last()) + outs.last().keys@
    }
}

/// The key's schedule put back in step with what is still going out: the spans
/// that are not over, of one conversation's transmissions.
///
/// A rig cancels all of its schedule or none of it, so dropping one
/// transmission's spans means dropping all and scheduling these again.
pub fn rekey(outgoing: &Vec<Outgoing>, now: Ticks) -> (spans: Vec<(Ticks, Ticks)>)
    ensures
        spans@ == all_keys(outgoing@).filter(still_owed(now)),
{
    let mut spans: Vec<(Ticks, Ticks)> = Vec::new();
    let n: usize = outgoing.len();
    let mut i: usize = 0;
    proof {
        reveal(Seq::filter);
        assert(all_keys(outgoing@.take(0)).filter(still_owed(now)) == Seq::<(Ticks, Ticks)>::empty());
    }
    while i < n
        invariant
            n == outgoing@.len(),
            0 <= i <= n,
            spans@ == all_keys(outgoing@.take(i as int)).filter(still_owed(now)),
        decreases n - i,
    {
        let keys = &outgoing[i].keys;
        let ghost before = all_keys(outgoing@.take(i as int));
        let m: usize = keys.len();
        let mut k: usize = 0;
        proof {
            assert(before + keys@.take(0) == before);
        }
        while k < m
            invariant
                m == keys@.len(),
                0 <= k <= m,
                spans@ == (before + keys@.take(k as int)).filter(still_owed(now)),
            decreases m - k,
        {
            proof {
                reveal(Seq::filter);
                let grown = before + keys@.take(k + 1);
                assert(grown.drop_last() == before + keys@.take(k as int));
                assert(grown.last() == keys@[k as int]);
            }
            let span = keys[k];
            if span.1 > now {
                spans.push(span);
            }
            k += 1;
        }
        proof {
            assert(keys@.take(m as int) == keys@);
            assert(outgoing@.take(i + 1).drop_last() == outgoing@.take(i as int));
        }
        i += 1;
    }
    proof {
        assert(outgoing@.take(n as int) == outgoing@);
    }
    spans
}

/// What of a text has gone out, and what is still to go.
pub fn split_sent(text: &str, sent: usize) -> (parts: (String, String))
    ensures
        sent <= text@.len() ==> parts.0@ == text@.take(sent as int) && parts.1@ == text@.skip(sent as int),
        sent > text@.len() ==> parts.0@ == text@ && parts.1@.len() == 0,
        parts.0@ + parts.1@ == text@,
{
    let chars = to_chars(text);
    let n: usize = chars.len();
    let at: usize = if sent <= n { sent } else { n };
    let gone = from_chars(&chars, 0, at);
    let left = from_chars(&chars, at, n);
    proof {
        assert(text@.subrange(0, at as int) == text@.take(at as int));
        assert(text@.subrange(at as int, n as int) == text@.skip(at as int));
        assert(text@.take(at as int) + text@.skip(at as int) == text@);
        if sent > n {
            assert(text@.take(n as int) == text@);
        }
    }
    (gone, left)
}

/// Where a mark cuts a text: at its character, or at the end.
pub open spec fn cut_at(text: Seq<char>, at: usize) -> int {
    if at <= text.len() {
        at as int
    } else {
        text.len() as int
    }
}

/// The piece of a text between two cuts: none where the second comes first.
pub open spec fn piece(text: Seq<char>, from: int, to: int) -> Seq<char> {
    if from <= to {
        text.subrange(from, to)
    } else {
        Seq::empty()
    }
}

/// The start of piece `i` of a text cut at marks.
pub open spec fn piece_start(text: Seq<char>, marks: Seq<usize>, i: int) -> int {
    if i == 0 {
        0
    } else {
        cut_at(text, marks[i - 1])
    }
}

/// Piece `i` of a text cut at marks.
pub open spec fn piece_at(text: Seq<char>, marks: Seq<usize>, i: int) -> Seq<char> {
    piece(
        text,
        piece_start(text, marks, i),
        if i < marks.len() {
            cut_at(text, marks[i])
        } else {
            text.len() as int
        },
    )
}

/// A log entry's text in the pieces between which its packets were joined.
pub fn at_the_seams(text: &str, marks: &Vec<usize>) -> (pieces: Vec<String>)
    ensures
        pieces@.len() == marks@.len() + 1,
        forall|i: int|
            0 <= i < pieces@.len() ==> (#[trigger] pieces@[i])@ == piece_at(text@, marks@, i),
{
    let chars = to_chars(text);
    let n: usize = chars.len();
    let mut pieces: Vec<String> = Vec::new();
    let mut from: usize = 0;
    let mut i: usize = 0;
    while i < marks.len()
        invariant
            chars@ == text@,
            n == chars@.len(),
            0 <= i <= marks@.len(),
            pieces@.len() == i,
            from == piece_start(text@, marks@, i as int),
            0 <= from <= n,
            forall|j: int| 0 <= j < i ==> (#[trigger] pieces@[j])@ == piece_at(text@, marks@, j),
        decreases marks@.len() - i,
    {
        let cut: usize = if marks[i] <= n { marks[i] } else { n };
        if from <= cut {
            pieces.push(from_chars(&chars, from, cut));
        } else {
            pieces.push(String::new());
        }
        assert(pieces@[i as int]@ =~= piece_at(text@, marks@, i as int));
        from = cut;
        i += 1;
    }
    pieces.push(from_chars(&chars, from, n));
    pieces
}

/// Pieces put back together.
pub open spec fn joined(pieces: Seq<Seq<char>>) -> Seq<char>
    decreases pieces.len(),
{
    if pieces.len() == 0 {
        Seq::empty()
    } else {
        joined(pieces.drop_last()) + pieces.last()
    }
}

/// Cutting a text at marks that are in order loses none of it.
pub proof fn seams_lose_nothing(text: Seq<char>, marks: Seq<usize>)
    requires
        forall|i: int, j: int| 0 <= i < j < marks.len() ==> marks[i] <= marks[j],
    ensures
        joined(Seq::new(marks.len() + 1, |i: int| piece_at(text, marks, i))) == text,
{
    let all = Seq::new(marks.len() + 1, |i: int| piece_at(text, marks, i));
    let n = marks.len() as int;
    cut_pieces(text, marks, n);
    assert(all.drop_last() == Seq::new(marks.len() as nat, |i: int| piece_at(text, marks, i)));
    assert(all.last() == text.skip(piece_start(text, marks, n)));
    assert(text.take(piece_start(text, marks, n)) + text.skip(piece_start(text, marks, n)) == text);
}

proof fn cut_pieces(text: Seq<char>, marks: Seq<usize>, n: int)
    requires
        0 <= n <= marks.len(),
        forall|i: int, j: int| 0 <= i < j < marks.len() ==> marks[i] <= marks[j],
    ensures
        joined(Seq::new(n as nat, |i: int| piece_at(text, marks, i))) == text.take(piece_start(text, marks, n)),
    decreases n,
{
    let some = Seq::new(n as nat, |i: int| piece_at(text, marks, i));
    if n == 0 {
        assert(text.take(0) == Seq::<char>::empty());
    } else {
        cut_pieces(text, marks, n - 1);
        assert(some.drop_last() == Seq::new((n - 1) as nat, |i: int| piece_at(text, marks, i)));
        if n > 1 {
            assert(marks[n - 2] <= marks[n - 1]);
        }
        let a = piece_start(text, marks, n - 1);
        let b = piece_start(text, marks, n);
        assert(text.take(a) + text.subrange(a, b) == text.take(b));
    }
}

} // verus!
