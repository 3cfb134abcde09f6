//! One channel: the text of a station or conversation, and what is known of
//! when it arrived.
//!
//! This is the only place where each decode still has its own time, so this is
//! where a station going quiet is noticed and written down.

use crate::find::copied;
use crate::modes::{since, Decode, Ticks, MilliHz, ModeId, SECOND};
use crate::text::{find_from, find_from_reaches, is_whitespace, same_text, to_chars, white_space};
use vstd::prelude::*;

verus! {

/// How much decoded text a channel keeps.
pub const MAX_TEXT_CHARS: usize = 4096;

/// How many (time, frequency) and (time, SNR) samples a channel keeps.
pub const MAX_HISTORY: usize = 256;

/// How finely a channel times the text it took on: a new mark is written only
/// once this much has passed since the last one.
pub const ARRIVAL_QUANTUM_S: Ticks = 12_000_000;

/// Shortest silence that ends an over, however fast the mode is.
pub const MIN_OVER_GAP_S: Ticks = 60_000_000;

/// A place in a conversation, counted in characters from its start, and a time.
pub type Mark = (usize, Ticks);

/// An ASCII letter.
pub open spec fn letter(c: char) -> bool {
    'a' <= c <= 'z' || 'A' <= c <= 'Z'
}

/// An ASCII digit.
pub open spec fn digit(c: char) -> bool {
    '0' <= c <= '9'
}

/// Something with the shape of a callsign: three to eleven letters, digits and
/// slashes, with at least one letter and one digit among them.
pub open spec fn call_shaped(s: Seq<char>) -> bool {
    &&& 3 <= s.len() <= 11
    &&& forall|i: int| 0 <= i < s.len() ==> letter(#[trigger] s[i]) || digit(s[i]) || s[i] == '/'
    &&& exists|i: int| 0 <= i < s.len() && digit(#[trigger] s[i])
    &&& exists|i: int| 0 <= i < s.len() && letter(#[trigger] s[i])
}

/// Where the part of a frame that could name its sender lies: behind a leading
/// bracket and up to a space or the closing one, or else the first word without
/// the colon it must end in.
pub open spec fn sender_token(s: Seq<char>) -> Option<(int, int)> {
    if s.len() > 0 && s[0] == '[' {
        Some((1, find_from(s, 1, |c: char| c == ' ' || c == ']')))
    } else {
        let from = find_from(s, 0, |c: char| !white_space(c));
        let to = find_from(s, from, |c: char| white_space(c));
        if from < to && s[to - 1] == ':' {
            Some((from, to - 1))
        } else {
            None
        }
    }
}

/// The callsign that a frame names as its sender, if it names one.
pub open spec fn named_sender(s: Seq<char>) -> Option<Seq<char>> {
    match sender_token(s) {
        Some((from, to)) => if call_shaped(s.subrange(from, to)) {
            Some(s.subrange(from, to))
        } else {
            None
        },
        None => None,
    }
}

/// Whether characters `from..to` have the shape of a callsign.
fn is_call_shaped(chars: &Vec<char>, from: usize, to: usize) -> (r: bool)
    requires
        from <= to <= chars@.len(),
    ensures
        r == call_shaped(chars@.subrange(from as int, to as int)),
{
    let ghost s = chars@.subrange(from as int, to as int);
    if to - from < 3 || to - from > 11 {
        return false;
    }
    let mut letters = false;
    let mut digits = false;
    let mut i: usize = from;
    while i < to
        invariant
            from <= i <= to <= chars@.len(),
            s == chars@.subrange(from as int, to as int),
            forall|j: int| 0 <= j < i - from ==> letter(#[trigger] s[j]) || digit(s[j]) || s[j] == '/',
            letters == exists|j: int| 0 <= j < i - from && letter(#[trigger] s[j]),
            digits == exists|j: int| 0 <= j < i - from && digit(#[trigger] s[j]),
        decreases to - i,
    {
        let c = chars[i];
        assert(s[i - from] == c);
        if ('a' <= c && c <= 'z') || ('A' <= c && c <= 'Z') {
            letters = true;
            assert(letter(s[i - from]));
        } else if '0' <= c && c <= '9' {
            digits = true;
            assert(digit(s[i - from]));
        } else if c != '/' {
            assert(!(letter(s[i - from]) || digit(s[i - from]) || s[i - from] == '/'));
            return false;
        }
        i += 1;
    }
    letters && digits
}

/// The callsign a JS8 frame names as its sender, if it names one.
///
/// A heartbeat or CQ renders as `KN4CRD: CQ CQ CQ EM73` and a directed message
/// as `[KN4CRD JY1 SNR -12]`. Free text and dense frames carry no callsign at
/// all, so nothing may conclude from `None` that the speaker changed.
pub fn sender_in(text: &str) -> (call: Option<&str>)
    ensures
        match call {
            Some(c) => named_sender(text@) == Some(c@),
            None => named_sender(text@) is None,
        },
{
    let chars = to_chars(text);
    let n: usize = chars.len();
    let mut from: usize = 0;
    let mut to: usize;
    if n > 0 && chars[0] == '[' {
        let ghost p = |c: char| c == ' ' || c == ']';
        from = 1;
        to = 1;
        while to < n && chars[to] != ' ' && chars[to] != ']'
            invariant
                n == chars@.len(),
                1 <= to <= n,
                p == (|c: char| c == ' ' || c == ']'),
                forall|j: int| 1 <= j < to ==> !p(#[trigger] chars@[j]),
            decreases n - to,
        {
            to += 1;
        }
        proof {
            find_from_reaches(chars@, 1, p, to as int);
        }
    } else {
        let ghost solid = |c: char| !white_space(c);
        let ghost blank = |c: char| white_space(c);
        while from < n && is_whitespace(chars[from])
            invariant
                n == chars@.len(),
                0 <= from <= n,
                solid == (|c: char| !white_space(c)),
                forall|j: int| 0 <= j < from ==> !solid(#[trigger] chars@[j]),
            decreases n - from,
        {
            from += 1;
        }
        proof {
            find_from_reaches(chars@, 0, solid, from as int);
        }
        to = from;
        while to < n && !is_whitespace(chars[to])
            invariant
                n == chars@.len(),
                from <= to <= n,
                blank == (|c: char| white_space(c)),
                forall|j: int| from <= j < to ==> !blank(#[trigger] chars@[j]),
            decreases n - to,
        {
            to += 1;
        }
        proof {
            find_from_reaches(chars@, from as int, blank, to as int);
        }
        if from == to || chars[to - 1] != ':' {
            return None;
        }
        to = to - 1;
    }
    if is_call_shaped(&chars, from, to) {
        Some(text.substring_char(from, to))
    } else {
        None
    }
}

/// A tracked signal accumulating text across transmissions.
#[derive(Debug)]
pub struct Channel {
    pub id: u64,
    /// Latest carrier frequency.
    pub hz: MilliHz,
    /// Carrier when the channel was first heard, which drift is measured
    /// against.
    pub first_hz: MilliHz,
    /// Recent (time, carrier) samples, no more than [`MAX_HISTORY`].
    pub hz_history: Vec<(Ticks, MilliHz)>,
    /// Decoded text, oldest first, no more than [`MAX_TEXT_CHARS`] of it.
    pub text: String,
    /// Characters dropped off the front of `text` to keep it bounded.
    pub text_dropped: usize,
    /// Mode of the most recent decode.
    pub mode: ModeId,
    /// Where this station stopped and started again, and when it resumed.
    pub breaks: Vec<Mark>,
    /// Where each frame of a cycle-aligned mode begins, and when it did.
    pub frames: Vec<Mark>,
    /// When each stretch of the text arrived.
    pub arrivals: Vec<Mark>,
    /// Character count of the most recently appended decode.
    pub last_chunk_chars: usize,
    /// Time of the most recent decode.
    pub last_heard_s: Ticks,
    /// Time of the first decode.
    pub first_heard_s: Ticks,
    /// Confidence of the most recent decode.
    pub quality: i32,
    /// Best confidence seen on this channel.
    pub best_quality: i32,
    /// Signal to noise of the most recent decode that could be measured.
    pub snr_db: Option<i32>,
    /// Best signal to noise seen on this channel.
    pub best_snr_db: Option<i32>,
    /// Recent (time, signal to noise) samples, no more than [`MAX_HISTORY`].
    pub snr_history: Vec<(Ticks, i32)>,
    /// Number of decodes accumulated.
    pub chunks: usize,
    /// Whether the last decode said it finished what the station was saying.
    pub over_ended: bool,
    /// Who is talking, if a frame in this over said so.
    pub over_sender: Option<String>,
}

/// What a channel holds.
#[verifier::ext_equal]
pub struct ChannelView {
    pub id: u64,
    pub hz: MilliHz,
    pub first_hz: MilliHz,
    pub hz_history: Seq<(Ticks, MilliHz)>,
    pub text: Seq<char>,
    pub text_dropped: nat,
    pub mode: ModeId,
    pub breaks: Seq<Mark>,
    pub frames: Seq<Mark>,
    pub arrivals: Seq<Mark>,
    pub last_chunk_chars: nat,
    pub last_heard_s: Ticks,
    pub first_heard_s: Ticks,
    pub quality: i32,
    pub best_quality: i32,
    pub snr_db: Option<i32>,
    pub best_snr_db: Option<i32>,
    pub snr_history: Seq<(Ticks, i32)>,
    pub chunks: nat,
    pub over_ended: bool,
    pub over_sender: Option<Seq<char>>,
}

/// The characters of a string that may not be there.
pub open spec fn maybe_text(s: Option<String>) -> Option<Seq<char>> {
    match s {
        Some(s) => Some(s@),
        None => None,
    }
}

impl View for Channel {
    type V = ChannelView;

    open spec fn view(&self) -> ChannelView {
        ChannelView {
            id: self.id,
            hz: self.hz,
            first_hz: self.first_hz,
            hz_history: self.hz_history@,
            text: self.text@,
            text_dropped: self.text_dropped as nat,
            mode: self.mode,
            breaks: self.breaks@,
            frames: self.frames@,
            arrivals: self.arrivals@,
            last_chunk_chars: self.last_chunk_chars as nat,
            last_heard_s: self.last_heard_s,
            first_heard_s: self.first_heard_s,
            quality: self.quality,
            best_quality: self.best_quality,
            snr_db: self.snr_db,
            best_snr_db: self.best_snr_db,
            snr_history: self.snr_history@,
            chunks: self.chunks as nat,
            over_ended: self.over_ended,
            over_sender: maybe_text(self.over_sender),
        }
    }
}

impl Clone for Channel {
    fn clone(&self) -> (c: Channel)
        ensures
            c@ == self@,
    {
        let c = Channel {
            id: self.id,
            hz: self.hz,
            first_hz: self.first_hz,
            hz_history: copied(&self.hz_history, 0, self.hz_history.len()),
            text: self.text.clone(),
            text_dropped: self.text_dropped,
            mode: self.mode,
            breaks: copied(&self.breaks, 0, self.breaks.len()),
            frames: copied(&self.frames, 0, self.frames.len()),
            arrivals: copied(&self.arrivals, 0, self.arrivals.len()),
            last_chunk_chars: self.last_chunk_chars,
            last_heard_s: self.last_heard_s,
            first_heard_s: self.first_heard_s,
            quality: self.quality,
            best_quality: self.best_quality,
            snr_db: self.snr_db,
            best_snr_db: self.best_snr_db,
            snr_history: copied(&self.snr_history, 0, self.snr_history.len()),
            chunks: self.chunks,
            over_ended: self.over_ended,
            over_sender: match &self.over_sender {
                Some(who) => Some(who.clone()),
                None => None,
            },
        };
        assert(c@ =~= self@);
        c
    }
}

/// One more than the place of the last mark at or before character `i`, or zero
/// where there is none.
pub open spec fn marks_up_to(marks: Seq<Mark>, i: int) -> nat
    decreases marks.len(),
{
    if marks.len() == 0 {
        0
    } else if marks.last().0 <= i {
        marks.len()
    } else {
        marks_up_to(marks.drop_last(), i)
    }
}

/// One more than the place of the last mark older than `at`, or zero where
/// there is none.
pub open spec fn marks_before(marks: Seq<Mark>, at: Ticks) -> nat
    decreases marks.len(),
{
    if marks.len() == 0 {
        0
    } else if marks.last().1 < at {
        marks.len()
    } else {
        marks_before(marks.drop_last(), at)
    }
}

/// Marks in the order of the text, none outside `from..=to`.
pub open spec fn marks_within(marks: Seq<Mark>, from: int, to: int) -> bool {
    &&& forall|i: int| 0 <= i < marks.len() ==> from <= (#[trigger] marks[i]).0 <= to
    &&& forall|i: int, j: int| 0 <= i <= j < marks.len() ==> (#[trigger] marks[i]).0 <= (#[trigger] marks[j]).0
}

/// Marks no closer together in time than [`ARRIVAL_QUANTUM_S`].
pub open spec fn marks_spaced(marks: Seq<Mark>) -> bool {
    forall|i: int, j: int|
        0 <= i < j < marks.len() ==> (#[trigger] marks[j]).1 - (#[trigger] marks[i]).1
            >= ARRIVAL_QUANTUM_S
}

/// Marks at character `from` and after it.
pub open spec fn marks_from(marks: Seq<Mark>, from: int) -> Seq<Mark> {
    marks.filter(|m: Mark| m.0 >= from)
}

/// The last [`MAX_HISTORY`] samples.
pub open spec fn recent<T>(samples: Seq<T>) -> Seq<T> {
    if samples.len() > MAX_HISTORY {
        samples.drop_first()
    } else {
        samples
    }
}

impl ChannelView {
    /// Absolute index of the next character this channel will take.
    pub open spec fn next_index(self) -> nat {
        self.text_dropped + self.text.len()
    }

    /// What every channel keeps to.
    pub open spec fn wf(self) -> bool {
        &&& self.text.len() <= MAX_TEXT_CHARS
        &&& self.ordered()
    }

    /// What every channel keeps to, however much text it holds.
    pub open spec fn ordered(self) -> bool {
        &&& self.next_index() <= usize::MAX
        &&& marks_within(self.breaks, self.text_dropped as int, self.next_index() as int)
        &&& marks_within(self.frames, self.text_dropped as int, self.next_index() as int)
        &&& marks_within(self.arrivals, self.text_dropped as int, self.next_index() as int)
        &&& marks_spaced(self.arrivals)
        &&& self.arrivals.len() > 0 ==> self.arrivals[0].0 == self.text_dropped
        &&& self.text.len() > 0 ==> self.arrivals.len() > 0
        &&& 0 < self.hz_history.len() <= MAX_HISTORY
        &&& self.snr_history.len() <= MAX_HISTORY
    }

    /// Whether one more decode can still be counted.
    pub open spec fn has_room(self, d: Decode) -> bool {
        &&& self.next_index() + d.text@.len() <= usize::MAX
        &&& self.chunks < usize::MAX
    }

    /// The channel without the first `n` characters of its text, or without any
    /// where it holds no more than that.
    ///
    /// Breaks and frames go with the characters they point at. The arrival that
    /// covers the new front is carried up to it.
    pub open spec fn drop_front(self, n: nat) -> ChannelView {
        let gone = if n < self.text.len() { n } else { self.text.len() };
        let dropped = self.text_dropped + gone;
        let text = self.text.skip(gone as int);
        let k = marks_up_to(self.arrivals, dropped as int);
        let rest = marks_from(self.arrivals, dropped as int + 1);
        ChannelView {
            text,
            text_dropped: dropped,
            breaks: marks_from(self.breaks, dropped as int),
            frames: marks_from(self.frames, dropped as int),
            arrivals: if k > 0 && text.len() > 0 {
                seq![(dropped as usize, self.arrivals[k - 1].1)] + rest
            } else {
                rest
            },
            ..self
        }
    }

    /// The channel with `chunk` on the end of its text, and as much off the
    /// front as that costs.
    pub open spec fn push_text(self, chunk: Seq<char>) -> ChannelView {
        let longer = ChannelView { text: self.text + chunk, ..self };
        if longer.text.len() > MAX_TEXT_CHARS {
            longer.drop_front((longer.text.len() - MAX_TEXT_CHARS) as nat)
        } else {
            longer
        }
    }

    /// The channel without the text that arrived before `at`.
    pub open spec fn forget_before(self, at: Ticks) -> ChannelView {
        let k = marks_before(self.arrivals, at);
        let cut = if k < self.arrivals.len() {
            self.arrivals[k as int].0 as int
        } else {
            self.next_index() as int
        };
        if cut > self.text_dropped {
            self.drop_front((cut - self.text_dropped) as nat)
        } else {
            self
        }
    }

    /// When the character at absolute index `i` arrived, as far as is on
    /// record.
    pub open spec fn age_at(self, i: int) -> Option<Ticks> {
        let k = marks_up_to(self.arrivals, i);
        if k > 0 {
            Some(self.arrivals[k - 1].1)
        } else {
            None
        }
    }

    /// Where the stretch that covers character `i` ends.
    pub open spec fn stretch_end(self, i: int) -> int {
        let k = marks_up_to(self.arrivals, i);
        if k < self.arrivals.len() && self.arrivals[k as int].0 < self.next_index() {
            self.arrivals[k as int].0 as int
        } else {
            self.next_index() as int
        }
    }

    /// How the text from character `i` on divides by age.
    pub open spec fn ages_from(self, i: int) -> Seq<(usize, Option<Ticks>)>
        decreases self.next_index() - i,
    {
        let end = self.stretch_end(i);
        if i < end <= self.next_index() {
            seq![((end - i) as usize, self.age_at(i))] + self.ages_from(end)
        } else {
            Seq::empty()
        }
    }
}

/// [`marks_up_to`] splits marks that are in order.
pub proof fn marks_up_to_splits(marks: Seq<Mark>, i: int)
    requires
        forall|a: int, b: int| 0 <= a <= b < marks.len() ==> (#[trigger] marks[a]).0 <= (#[trigger] marks[b]).0,
    ensures
        marks_up_to(marks, i) <= marks.len(),
        forall|j: int| 0 <= j < marks_up_to(marks, i) ==> (#[trigger] marks[j]).0 <= i,
        forall|j: int| marks_up_to(marks, i) <= j < marks.len() ==> (#[trigger] marks[j]).0 > i,
    decreases marks.len(),
{
    if marks.len() > 0 && marks.last().0 > i {
        marks_up_to_splits(marks.drop_last(), i);
        assert forall|j: int| 0 <= j < marks_up_to(marks, i) implies (#[trigger] marks[j]).0 <= i by {
            assert(marks.drop_last()[j].0 <= i);
        }
        assert forall|j: int| marks_up_to(marks, i) <= j < marks.len() implies (#[trigger] marks[j]).0 > i by {
            if j < marks.len() - 1 {
                assert(marks.drop_last()[j].0 > i);
            }
        }
    }
}

/// [`marks_before`] splits marks whose times are in order.
pub proof fn marks_before_splits(marks: Seq<Mark>, at: Ticks)
    requires
        marks_spaced(marks),
    ensures
        marks_before(marks, at) <= marks.len(),
        forall|j: int| 0 <= j < marks_before(marks, at) ==> (#[trigger] marks[j]).1 < at,
        forall|j: int| marks_before(marks, at) <= j < marks.len() ==> (#[trigger] marks[j]).1 >= at,
    decreases marks.len(),
{
    if marks.len() > 0 && marks.last().1 >= at {
        marks_before_splits(marks.drop_last(), at);
        assert forall|j: int| 0 <= j < marks_before(marks, at) implies (#[trigger] marks[j]).1 < at by {
            assert(marks.drop_last()[j].1 < at);
        }
        assert forall|j: int| marks_before(marks, at) <= j < marks.len() implies (#[trigger] marks[j]).1 >= at by {
            if j < marks.len() - 1 {
                assert(marks.drop_last()[j].1 >= at);
            }
        }
    }
}

/// Where marks are in order, those from a character on are the last of them.
pub proof fn marks_from_is_the_end(marks: Seq<Mark>, from: int)
    requires
        forall|a: int, b: int| 0 <= a <= b < marks.len() ==> (#[trigger] marks[a]).0 <= (#[trigger] marks[b]).0,
    ensures
        marks_from(marks, from) == marks.skip(marks_up_to(marks, from - 1) as int),
        marks_up_to(marks, from - 1) <= marks.len(),
    decreases marks.len(),
{
    let p = |m: Mark| m.0 >= from;
    reveal(Seq::filter);
    marks_up_to_splits(marks, from - 1);
    let k = marks_up_to(marks, from - 1);
    if marks.len() > 0 {
        let front = marks.drop_last();
        if p(marks.last()) {
            marks_from_is_the_end(front, from);
            assert(marks_up_to(front, from - 1) == k);
            assert(marks.skip(k as int) == front.skip(k as int).push(marks.last()));
        } else {
            assert forall|a: int, b: int| 0 <= a <= b < front.len() implies (#[trigger] front[a]).0 <= (
            #[trigger] front[b]).0 by {
                assert(marks[a].0 <= marks[b].0);
            }
            marks_from_is_the_end(front, from);
            marks_up_to_splits(front, from - 1);
            if marks_up_to(front, from - 1) < front.len() {
                let j = marks_up_to(front, from - 1) as int;
                assert(front[j].0 > from - 1);
                assert(marks[j].0 <= marks[marks.len() - 1].0);
            }
            assert(marks.skip(k as int) == front.skip(front.len() as int));
        }
    } else {
        assert(marks.skip(0) == marks);
    }
}

/// Dropping text off the front keeps a channel in order, and shifts nothing
/// that is indexed into what is left.
pub proof fn drop_front_keeps(c: ChannelView, n: nat)
    requires
        c.ordered(),
    ensures
        c.drop_front(n).ordered(),
        c.drop_front(n).next_index() == c.next_index(),
{
    let gone = if n < c.text.len() { n } else { c.text.len() };
    let dropped = c.text_dropped + gone;
    let k = marks_up_to(c.arrivals, dropped as int);
    marks_up_to_splits(c.arrivals, dropped as int);
    marks_from_is_the_end(c.arrivals, dropped as int + 1);
    marks_up_to_splits(c.breaks, dropped as int - 1);
    marks_from_is_the_end(c.breaks, dropped as int);
    marks_up_to_splits(c.frames, dropped as int - 1);
    marks_from_is_the_end(c.frames, dropped as int);
    let rest = marks_from(c.arrivals, dropped as int + 1);
    assert(rest == c.arrivals.skip(k as int));
    let after = c.drop_front(n);
    if k > 0 && after.text.len() > 0 {
        assert(after.arrivals == seq![(dropped as usize, c.arrivals[k - 1].1)] + rest);
        assert forall|i: int, j: int| 0 <= i < j < after.arrivals.len() implies (#[trigger] after.arrivals[j]).1
            - (#[trigger] after.arrivals[i]).1 >= ARRIVAL_QUANTUM_S by {
            assert(after.arrivals[j] == c.arrivals[k + j - 1]);
            assert(after.arrivals[i].1 == c.arrivals[k + i - 1].1);
        }
    }
}

/// Taking on text keeps a channel within its bounds.
pub proof fn push_text_keeps(c: ChannelView, chunk: Seq<char>)
    requires
        c.wf(),
        c.next_index() + chunk.len() <= usize::MAX,
        chunk.len() > 0 ==> c.arrivals.len() > 0,
    ensures
        c.push_text(chunk).wf(),
        c.push_text(chunk).next_index() == c.next_index() + chunk.len(),
{
    let longer = ChannelView { text: c.text + chunk, ..c };
    if longer.text.len() > MAX_TEXT_CHARS {
        drop_front_keeps(longer, (longer.text.len() - MAX_TEXT_CHARS) as nat);
    }
}

/// The marks at character `from` and after it, or those after it alone.
fn keep_marks(marks: &Vec<Mark>, from: usize, past: bool) -> (out: Vec<Mark>)
    ensures
        out@ == marks_from(marks@, if past { from + 1 } else { from as int }),
{
    let ghost p = |m: Mark| m.0 >= (if past { from + 1 } else { from as int });
    let mut out: Vec<Mark> = Vec::new();
    let mut i: usize = 0;
    assert(marks@.take(0) == Seq::<Mark>::empty());
    reveal(Seq::filter);
    while i < marks.len()
        invariant
            0 <= i <= marks@.len(),
            p == (|m: Mark| m.0 >= (if past { from + 1 } else { from as int })),
            out@ == marks@.take(i as int).filter(p),
        decreases marks.len() - i,
    {
        let m = marks[i];
        reveal(Seq::filter);
        assert(marks@.take(i + 1).drop_last() == marks@.take(i as int));
        assert(marks@.take(i + 1).last() == m);
        if m.0 > from || (m.0 == from && !past) {
            out.push(m);
        }
        i += 1;
    }
    assert(marks@.take(marks@.len() as int) == marks@);
    out
}

/// How many marks lie at or before character `i`.
fn count_up_to(marks: &Vec<Mark>, i: usize) -> (k: usize)
    requires
        forall|a: int, b: int| 0 <= a <= b < marks@.len() ==> (#[trigger] marks@[a]).0 <= (#[trigger] marks@[b]).0,
    ensures
        k == marks_up_to(marks@, i as int),
{
    let mut lo: usize = 0;
    let mut hi: usize = marks.len();
    while lo < hi
        invariant
            0 <= lo <= hi <= marks@.len(),
            forall|a: int, b: int| 0 <= a <= b < marks@.len() ==> (#[trigger] marks@[a]).0 <= (#[trigger] marks@[b]).0,
            forall|j: int| 0 <= j < lo ==> (#[trigger] marks@[j]).0 <= i,
            forall|j: int| hi <= j < marks@.len() ==> (#[trigger] marks@[j]).0 > i,
        decreases hi - lo,
    {
        let mid: usize = lo + (hi - lo) / 2;
        if marks[mid].0 <= i {
            lo = mid + 1;
        } else {
            hi = mid;
        }
    }
    proof {
        marks_up_to_splits(marks@, i as int);
        let k = marks_up_to(marks@, i as int);
        if k < lo {
            assert(marks@[k as int].0 <= i);
        } else if k > lo {
            assert(marks@[lo as int].0 > i);
        }
    }
    lo
}

/// How many marks are older than `at`.
fn count_before(marks: &Vec<Mark>, at: Ticks) -> (k: usize)
    requires
        marks_spaced(marks@),
    ensures
        k == marks_before(marks@, at),
{
    let mut lo: usize = 0;
    let mut hi: usize = marks.len();
    while lo < hi
        invariant
            0 <= lo <= hi <= marks@.len(),
            marks_spaced(marks@),
            forall|j: int| 0 <= j < lo ==> (#[trigger] marks@[j]).1 < at,
            forall|j: int| hi <= j < marks@.len() ==> (#[trigger] marks@[j]).1 >= at,
        decreases hi - lo,
    {
        let mid: usize = lo + (hi - lo) / 2;
        if marks[mid].1 < at {
            lo = mid + 1;
        } else {
            hi = mid;
        }
    }
    proof {
        marks_before_splits(marks@, at);
        let k = marks_before(marks@, at);
        if k < lo {
            assert(marks@[k as int].1 < at);
        } else if k > lo {
            assert(marks@[lo as int].1 >= at);
        }
    }
    lo
}

impl Channel {
    /// How far the carrier has moved since the channel was first heard.
    pub fn drift_hz(&self) -> (d: i64)
        ensures
            d == self@.hz - self@.first_hz,
    {
        self.hz as i64 - self.first_hz as i64
    }

    /// Drop `n` characters off the front of the text, and with them everything
    /// indexed into what has gone.
    fn drop_front(&mut self, n: usize)
        requires
            old(self)@.ordered(),
        ensures
            final(self)@ == old(self)@.drop_front(n as nat),
            final(self)@.ordered(),
            final(self)@.next_index() == old(self)@.next_index(),
    {
        proof {
            drop_front_keeps(self@, n as nat);
        }
        let held: usize = self.text.as_str().unicode_len();
        let n: usize = if n < held { n } else { held };
        self.text = self.text.as_str().substring_char(n, held).to_owned();
        self.text_dropped = self.text_dropped + n;
        self.breaks = keep_marks(&self.breaks, self.text_dropped, false);
        self.frames = keep_marks(&self.frames, self.text_dropped, false);
        // The cut mostly lands inside the stretch that the oldest surviving mark
        // covers, so that mark is carried up to the new front.
        let k: usize = count_up_to(&self.arrivals, self.text_dropped);
        proof {
            marks_up_to_splits(self.arrivals@, self.text_dropped as int);
        }
        let mut rest = keep_marks(&self.arrivals, self.text_dropped, true);
        if k > 0 && n < held {
            let mark: Mark = (self.text_dropped, self.arrivals[k - 1].1);
            let ghost kept = rest@;
            rest.insert(0, mark);
            assert(rest@ == seq![mark] + kept);
        }
        self.arrivals = rest;
    }

    /// Take the newest text on, and drop as much off the front as that costs
    /// once the channel is at its limit.
    fn push_text(&mut self, chunk: &str)
        requires
            old(self)@.wf(),
            old(self)@.next_index() + chunk@.len() <= usize::MAX,
            old(self)@.arrivals.len() > 0,
        ensures
            final(self)@ == old(self)@.push_text(chunk@),
            final(self)@.wf(),
            final(self)@.next_index() == old(self)@.next_index() + chunk@.len(),
    {
        proof {
            push_text_keeps(self@, chunk@);
        }
        self.text.append(chunk);
        let len: usize = self.text.as_str().unicode_len();
        if len > MAX_TEXT_CHARS {
            self.drop_front(len - MAX_TEXT_CHARS);
        }
    }

    /// Absolute index of the next character this channel will take.
    pub fn next_index(&self) -> (i: usize)
        requires
            self@.next_index() <= usize::MAX,
        ensures
            i == self@.next_index(),
    {
        self.text_dropped + self.text.as_str().unicode_len()
    }

    /// How the tail of the text divides by age: how many characters, and when
    /// they arrived, oldest first, covering the last `n` characters or all of
    /// them if the channel holds fewer.
    pub fn tail_ages(&self, n: usize) -> (runs: Vec<(usize, Option<Ticks>)>)
        requires
            self@.wf(),
        ensures
            runs@ == self@.ages_from(
                self@.next_index() - (if n < self@.text.len() { n as int } else { self@.text.len() as int }),
            ),
    {
        let have: usize = self.next_index();
        let held: usize = self.text.as_str().unicode_len();
        let mut out: Vec<(usize, Option<Ticks>)> = Vec::new();
        let mut i: usize = have - (if held < n { held } else { n });
        let ghost all = self@.ages_from(i as int);
        while i < have
            invariant
                self@.wf(),
                have == self@.next_index(),
                i <= have,
                all == out@ + self@.ages_from(i as int),
            decreases have - i,
        {
            let k: usize = count_up_to(&self.arrivals, i);
            proof {
                marks_up_to_splits(self.arrivals@, i as int);
            }
            let at: Option<Ticks> = if k > 0 {
                Some(self.arrivals[k - 1].1)
            } else {
                None
            };
            let end: usize = if k < self.arrivals.len() && self.arrivals[k].0 < have {
                self.arrivals[k].0
            } else {
                have
            };
            assert(self@.ages_from(i as int) == seq![((end - i) as usize, at)] + self@.ages_from(end as int));
            let ghost before = out@;
            out.push((end - i, at));
            assert(all == out@ + self@.ages_from(end as int));
            i = end;
        }
        assert(self@.ages_from(i as int) == Seq::<(usize, Option<Ticks>)>::empty());
        assert(all == out@);
        out
    }

    /// Forget text that arrived before `at`.
    ///
    /// Whole marks at a time, so up to [`ARRIVAL_QUANTUM_S`] of text either side
    /// of the cut goes with the stretch it was recorded in.
    pub fn forget_before(&mut self, at: Ticks)
        requires
            old(self)@.wf(),
        ensures
            final(self)@ == old(self)@.forget_before(at),
            final(self)@.wf(),
            final(self)@.next_index() == old(self)@.next_index(),
    {
        let k: usize = count_before(&self.arrivals, at);
        let cut: usize = if k < self.arrivals.len() {
            self.arrivals[k].0
        } else {
            self.next_index()
        };
        if cut > self.text_dropped {
            self.drop_front(cut - self.text_dropped);
        }
    }
}

/// How long a station must go quiet before what it sends next is a new over:
/// one and a half cycles where the mode has cycles, and otherwise four decodes,
/// but never less than [`MIN_OVER_GAP_S`].
pub open spec fn over_gap(mode: ModeId) -> int {
    match mode.period_s {
        Some(p) => p * SECOND * 3 / 2,
        None => if 4 * mode.chunk > MIN_OVER_GAP_S {
            4 * mode.chunk
        } else {
            MIN_OVER_GAP_S as int
        },
    }
}

/// How long a station must go quiet before what it sends next is a new over.
///
/// Fast modes are held to [`MIN_OVER_GAP_S`] as a floor: PSK63's own timing
/// would end an over well inside a slow typist's reach for a key. A
/// cycle-aligned mode is measured against its period, with half a cycle of
/// slack, so that a frame that failed to decode is not continued speech.
pub fn over_gap_s(mode: ModeId) -> (gap: Ticks)
    ensures
        gap == over_gap(mode),
{
    match mode.period_s {
        Some(p) => p as i64 * SECOND * 3 / 2,
        None => {
            let own: i64 = 4 * mode.chunk as i64;
            if own > MIN_OVER_GAP_S {
                own
            } else {
                MIN_OVER_GAP_S
            }
        },
    }
}

/// Whether a frame that names `now` is somebody else's, in an over whose
/// speaker is `was`. A frame that names nobody is nobody new.
pub open spec fn changes_hands(was: Option<Seq<char>>, now: Option<Seq<char>>) -> bool {
    was is Some && now is Some && was->0 != now->0
}

/// The better of two figures.
pub open spec fn better(a: i32, b: i32) -> i32 {
    if a >= b {
        a
    } else {
        b
    }
}

impl ChannelView {
    /// Whether `d` starts a new over on this channel.
    pub open spec fn starts_over(self, d: Decode) -> bool {
        ||| self.over_ended
        ||| changes_hands(self.over_sender, named_sender(d.text@))
        ||| d.time_s - self.last_heard_s > over_gap(d.mode)
    }

    /// Whether the text of `d` needs a time of its own.
    pub open spec fn needs_mark(self, d: Decode) -> bool {
        self.arrivals.len() == 0 || d.time_s - self.arrivals.last().1 >= ARRIVAL_QUANTUM_S
    }

    /// The marks that `d` leaves, before its text goes on: each points at where
    /// that text will start.
    pub open spec fn marked(self, d: Decode) -> ChannelView {
        let here: Mark = (self.next_index() as usize, d.time_s);
        let new_over = self.starts_over(d);
        ChannelView {
            breaks: if new_over { self.breaks.push(here) } else { self.breaks },
            over_sender: if new_over || self.over_sender is None {
                named_sender(d.text@)
            } else {
                self.over_sender
            },
            frames: if d.mode.period_s is Some { self.frames.push(here) } else { self.frames },
            arrivals: if self.needs_mark(d) { self.arrivals.push(here) } else { self.arrivals },
            over_ended: d.ends_over,
            ..self
        }
    }

    /// The figures of the channel brought up to date with `d`.
    pub open spec fn measured(self, d: Decode) -> ChannelView {
        ChannelView {
            hz: d.hz,
            mode: d.mode,
            hz_history: recent(self.hz_history.push((d.time_s, d.hz))),
            last_chunk_chars: d.text@.len(),
            last_heard_s: d.time_s,
            quality: d.quality,
            best_quality: better(self.best_quality, d.quality),
            snr_db: if d.snr_db is Some { d.snr_db } else { self.snr_db },
            best_snr_db: match (self.best_snr_db, d.snr_db) {
                (Some(was), Some(now)) => Some(better(was, now)),
                (None, now) => now,
                (was, None) => was,
            },
            snr_history: match d.snr_db {
                Some(snr) => recent(self.snr_history.push((d.time_s, snr))),
                None => self.snr_history,
            },
            chunks: self.chunks + 1,
            ..self
        }
    }

    /// The channel with `d` taken on.
    pub open spec fn extended(self, d: Decode) -> ChannelView {
        self.marked(d).push_text(d.text@).measured(d)
    }

    /// A channel first heard with `d`, before the text of it goes on.
    pub open spec fn unread(id: u64, d: Decode) -> ChannelView {
        ChannelView {
            id,
            hz: d.hz,
            first_hz: d.hz,
            hz_history: seq![(d.time_s, d.hz)],
            text: Seq::empty(),
            text_dropped: 0,
            mode: d.mode,
            breaks: Seq::empty(),
            frames: if d.mode.period_s is Some { seq![(0usize, d.time_s)] } else { Seq::empty() },
            arrivals: seq![(0usize, d.time_s)],
            last_chunk_chars: d.text@.len(),
            last_heard_s: d.time_s,
            first_heard_s: d.time_s,
            quality: d.quality,
            best_quality: d.quality,
            snr_db: d.snr_db,
            best_snr_db: d.snr_db,
            snr_history: match d.snr_db {
                Some(snr) => seq![(d.time_s, snr)],
                None => Seq::empty(),
            },
            chunks: 1,
            over_ended: d.ends_over,
            over_sender: named_sender(d.text@),
        }
    }

    /// A channel first heard with `d`.
    pub open spec fn fresh(id: u64, d: Decode) -> ChannelView {
        Self::unread(id, d).push_text(d.text@)
    }
}

/// A name on its own, out of the text it was found in.
fn owned_sender(text: &str) -> (call: Option<String>)
    ensures
        maybe_text(call) == named_sender(text@),
{
    match sender_in(text) {
        Some(c) => Some(c.to_owned()),
        None => None,
    }
}

impl Channel {
    /// A channel first heard with `d`.
    pub(crate) fn first(id: u64, d: &Decode) -> (ch: Channel)
        requires
            d.text@.len() <= usize::MAX,
        ensures
            ch@ == ChannelView::fresh(id, *d),
            ch@.wf(),
            ch@.next_index() == d.text@.len(),
    {
        let mut hz_history: Vec<(Ticks, MilliHz)> = Vec::new();
        hz_history.push((d.time_s, d.hz));
        let mut frames: Vec<Mark> = Vec::new();
        if d.mode.period_s.is_some() {
            frames.push((0, d.time_s));
        }
        let mut arrivals: Vec<Mark> = Vec::new();
        arrivals.push((0, d.time_s));
        let mut snr_history: Vec<(Ticks, i32)> = Vec::new();
        if let Some(snr) = d.snr_db {
            snr_history.push((d.time_s, snr));
        }
        let mut ch = Channel {
            id,
            hz: d.hz,
            first_hz: d.hz,
            hz_history,
            text: String::new(),
            text_dropped: 0,
            mode: d.mode,
            breaks: Vec::new(),
            frames,
            arrivals,
            last_chunk_chars: d.text.as_str().unicode_len(),
            last_heard_s: d.time_s,
            first_heard_s: d.time_s,
            quality: d.quality,
            best_quality: d.quality,
            snr_db: d.snr_db,
            best_snr_db: d.snr_db,
            snr_history,
            chunks: 1,
            over_ended: d.ends_over,
            over_sender: owned_sender(d.text.as_str()),
        };
        assert(ch@ =~= ChannelView::unread(id, *d));
        // Through `push_text`, so that one outsized decode cannot put a new
        // channel over the limit either.
        ch.push_text(d.text.as_str());
        ch
    }

    /// Write down where the text of `d` starts, ahead of the text itself.
    fn mark(&mut self, d: &Decode)
        requires
            old(self)@.wf(),
        ensures
            final(self)@ == old(self)@.marked(*d),
            final(self)@.wf(),
            final(self)@.next_index() == old(self)@.next_index(),
            final(self)@.arrivals.len() > 0,
    {
        let here: Mark = (self.next_index(), d.time_s);
        let sender = owned_sender(d.text.as_str());
        let changed_hands = match (&self.over_sender, &sender) {
            (Some(was), Some(now)) => !same_text(was.as_str(), now.as_str()),
            _ => false,
        };
        let quiet = since(d.time_s, self.last_heard_s) > over_gap_s(d.mode) as i128;
        if self.over_ended || changed_hands || quiet {
            self.breaks.push(here);
            self.over_sender = sender;
        } else if self.over_sender.is_none() {
            // An over that began without a name can still acquire one.
            self.over_sender = sender;
        }
        if d.mode.period_s.is_some() {
            self.frames.push(here);
        }
        let n: usize = self.arrivals.len();
        if n == 0 || since(d.time_s, self.arrivals[n - 1].1) >= ARRIVAL_QUANTUM_S as i128 {
            self.arrivals.push(here);
        }
        self.over_ended = d.ends_over;
    }

    /// Bring the figures of the channel up to date with `d`.
    fn measure(&mut self, d: &Decode)
        requires
            old(self)@.wf(),
            old(self)@.chunks < usize::MAX,
        ensures
            final(self)@ == old(self)@.measured(*d),
            final(self)@.wf(),
    {
        self.hz = d.hz;
        self.mode = d.mode;
        self.hz_history.push((d.time_s, d.hz));
        if self.hz_history.len() > MAX_HISTORY {
            let ghost long = self.hz_history@;
            self.hz_history.remove(0);
            assert(self.hz_history@ == long.drop_first());
        }
        self.last_chunk_chars = d.text.as_str().unicode_len();
        self.last_heard_s = d.time_s;
        self.quality = d.quality;
        if d.quality > self.best_quality {
            self.best_quality = d.quality;
        }
        if let Some(snr) = d.snr_db {
            self.snr_db = Some(snr);
            self.best_snr_db = match self.best_snr_db {
                Some(was) => Some(if was >= snr { was } else { snr }),
                None => Some(snr),
            };
            self.snr_history.push((d.time_s, snr));
            if self.snr_history.len() > MAX_HISTORY {
                let ghost long = self.snr_history@;
                self.snr_history.remove(0);
                assert(self.snr_history@ == long.drop_first());
            }
        }
        self.chunks = self.chunks + 1;
    }

    /// Take `d` on.
    pub(crate) fn extend(&mut self, d: &Decode)
        requires
            old(self)@.wf(),
            old(self)@.has_room(*d),
        ensures
            final(self)@ == old(self)@.extended(*d),
            final(self)@.wf(),
            final(self)@.next_index() == old(self)@.next_index() + d.text@.len(),
    {
        self.mark(d);
        self.push_text(d.text.as_str());
        self.measure(d);
    }
}

/// Everything a channel decoded is either still held or counted as dropped, the
/// newest of it is what is held, and there is never more than
/// [`MAX_TEXT_CHARS`] of it.
pub proof fn extended_keeps(c: ChannelView, d: Decode)
    requires
        c.wf(),
        c.has_room(d),
    ensures
        c.extended(d).wf(),
        c.extended(d).next_index() == c.next_index() + d.text@.len(),
        c.extended(d).text == (c.text + d.text@).skip(
            c.extended(d).text_dropped - c.text_dropped,
        ),
        c.extended(d).id == c.id,
        c.extended(d).chunks == c.chunks + 1,
{
    push_text_keeps(c.marked(d), d.text@);
    assert((c.text + d.text@).skip(0) == c.text + d.text@);
}

/// A channel starts in order, whatever it was first heard with.
pub proof fn fresh_keeps(id: u64, d: Decode)
    requires
        d.text@.len() <= usize::MAX,
    ensures
        ChannelView::fresh(id, d).wf(),
        ChannelView::fresh(id, d).next_index() == d.text@.len(),
        ChannelView::fresh(id, d).id == id,
        ChannelView::fresh(id, d).chunks == 1,
{
    push_text_keeps(ChannelView::unread(id, d), d.text@);
}

/// Forgetting old text keeps a channel in order.
pub proof fn forget_before_keeps(c: ChannelView, at: Ticks)
    requires
        c.wf(),
    ensures
        c.forget_before(at).wf(),
        c.forget_before(at).id == c.id,
        c.forget_before(at).next_index() == c.next_index(),
{
    let k = marks_before(c.arrivals, at);
    marks_before_splits(c.arrivals, at);
    let cut = if k < c.arrivals.len() {
        c.arrivals[k as int].0 as int
    } else {
        c.next_index() as int
    };
    if cut > c.text_dropped {
        drop_front_keeps(c, (cut - c.text_dropped) as nat);
    }
}

} // verus!
