//! Playing a recording: the order in which decodes are revealed, and the channels
//! as they stand at the clock.
//!
//! A channel set is a function of the order it is fed: stations are matched to
//! the nearest channel as they arrive, and ids are handed out as channels are
//! made. So decodes are fed in the order in which they are revealed, the only
//! one in which what has been revealed grows by appending.

use crate::channels::{a_batch_can_be_counted, total_chars, total_chars_grows, ChannelSet, SetView};
use crate::modes::{Decode, MilliHz, Ticks};
use crate::order::{in_sequence, orders, placed, placed_inserts, sorted, sorted_is_stable};
use vstd::prelude::*;

verus! {

/// How far a decode may lie from a channel and still join it.
pub const CHANNEL_TOL_HZ: MilliHz = 15_000;

/// A decode, and when the clock may show it.
#[derive(Debug)]
pub struct Frame {
    /// When the last of it had been sent.
    pub reveal_s: Ticks,
    pub decode: Decode,
}

/// When a decode has all been sent.
pub open spec fn sent_by(d: Decode) -> int {
    d.time_s + d.mode.chunk
}

impl Frame {
    /// A decode, to be shown once all of it has been sent.
    pub fn of(decode: Decode) -> (f: Frame)
        requires
            sent_by(decode) <= i64::MAX,
        ensures
            f.reveal_s == sent_by(decode),
            f.decode == decode,
    {
        Frame { reveal_s: decode.time_s + decode.mode.chunk as i64, decode }
    }
}

/// Whether one frame is to be revealed no later than another; frames revealed
/// at one time go by when they began, then by carrier, then by the mode's name.
pub open spec fn no_later() -> spec_fn(Frame, Frame) -> bool {
    |a: Frame, b: Frame|
        {
            ||| a.reveal_s < b.reveal_s
            ||| {
                &&& a.reveal_s == b.reveal_s
                &&& {
                    ||| a.decode.time_s < b.decode.time_s
                    ||| {
                        &&& a.decode.time_s == b.decode.time_s
                        &&& {
                            ||| a.decode.hz < b.decode.hz
                            ||| a.decode.hz == b.decode.hz && a.decode.mode.rank <= b.decode.mode.rank
                        }
                    }
                }
            }
        }
}

/// Frames in the order in which they are revealed.
pub open spec fn by_reveal(frames: Seq<Frame>) -> Seq<Frame> {
    sorted(frames, no_later())
}

/// Whether a frame has been revealed at `t`.
pub open spec fn shown_at(t: Ticks) -> spec_fn(Frame) -> bool {
    |f: Frame| f.reveal_s <= t
}

/// The frames that have been revealed at `t`.
pub open spec fn revealed(frames: Seq<Frame>, t: Ticks) -> Seq<Frame> {
    frames.filter(shown_at(t))
}

/// What frames hold.
pub open spec fn decodes(frames: Seq<Frame>) -> Seq<Decode> {
    frames.map_values(|f: Frame| f.decode)
}

/// The channels as they stand at `t`: every decode revealed by then, taken on in
/// the order of their revealing.
pub open spec fn heard_by(frames: Seq<Frame>, t: Ticks) -> SetView {
    SetView::empty(CHANNEL_TOL_HZ).added_all(decodes(revealed(frames, t)))
}

/// Whether one frame is to be revealed no later than another.
fn goes_before(a: &Frame, b: &Frame) -> (r: bool)
    ensures
        r == no_later()(*a, *b),
{
    if a.reveal_s != b.reveal_s {
        a.reveal_s < b.reveal_s
    } else if a.decode.time_s != b.decode.time_s {
        a.decode.time_s < b.decode.time_s
    } else if a.decode.hz != b.decode.hz {
        a.decode.hz < b.decode.hz
    } else {
        a.decode.mode.rank <= b.decode.mode.rank
    }
}

/// In order of revealing, what has been revealed comes before what has not.
proof fn revealed_is_the_front(frames: Seq<Frame>, t: Ticks, n: int)
    requires
        0 <= n <= frames.len(),
        forall|i: int| 0 <= i < n ==> (#[trigger] frames[i]).reveal_s <= t,
        forall|i: int| n <= i < frames.len() ==> (#[trigger] frames[i]).reveal_s > t,
    ensures
        revealed(frames, t) == frames.take(n),
    decreases frames.len(),
{
    reveal(Seq::filter);
    let p = shown_at(t);
    if frames.len() == 0 {
        assert(frames.take(n) == frames);
    } else {
        let front = frames.drop_last();
        assert forall|i: int| 0 <= i < front.len() implies #[trigger] front[i] == frames[i] by {}
        if n == frames.len() {
            assert(frames[frames.len() - 1].reveal_s <= t);
            revealed_is_the_front(front, t, n - 1);
            assert(front.take(n - 1).push(frames.last()) == frames.take(n));
        } else {
            assert(frames[frames.len() - 1].reveal_s > t);
            revealed_is_the_front(front, t, n);
            assert(front.take(n) == frames.take(n));
        }
    }
}

/// How many of frames in order have been revealed.
pub proof fn in_order_has_a_front(frames: Seq<Frame>, t: Ticks) -> (n: int)
    requires
        in_sequence(frames, no_later()),
    ensures
        0 <= n <= frames.len(),
        revealed(frames, t) == frames.take(n),
        forall|i: int| 0 <= i < n ==> (#[trigger] frames[i]).reveal_s <= t,
        forall|i: int| n <= i < frames.len() ==> (#[trigger] frames[i]).reveal_s > t,
    decreases frames.len(),
{
    if frames.len() == 0 {
        revealed_is_the_front(frames, t, 0);
        0
    } else if frames.last().reveal_s <= t {
        let n = frames.len() as int;
        assert forall|i: int| 0 <= i < n implies (#[trigger] frames[i]).reveal_s <= t by {
            if i < n - 1 {
                assert(no_later()(frames[i], frames[n - 1]));
            }
        }
        revealed_is_the_front(frames, t, n);
        n
    } else {
        let front = frames.drop_last();
        assert forall|i: int, j: int| 0 <= i < j < front.len() implies no_later()(
            #[trigger] front[i],
            #[trigger] front[j],
        ) by {
            assert(no_later()(frames[i], frames[j]));
        }
        let n = in_order_has_a_front(front, t);
        assert forall|i: int| 0 <= i < n implies (#[trigger] frames[i]).reveal_s <= t by {
            assert(front[i].reveal_s <= t);
        }
        assert forall|i: int| n <= i < frames.len() implies (#[trigger] frames[i]).reveal_s > t by {
            if i < front.len() {
                assert(front[i].reveal_s > t);
            }
        }
        revealed_is_the_front(frames, t, n);
        n
    }
}

/// The order of revealing orders all frames.
pub proof fn reveal_order_is_an_order()
    ensures
        orders(no_later()),
{
}

/// How many characters frames hold between them.
pub open spec fn chars_in(frames: Seq<Frame>) -> nat {
    total_chars(decodes(frames))
}

proof fn one_more_frame(frames: Seq<Frame>, f: Frame)
    ensures
        chars_in(frames.push(f)) == chars_in(frames) + f.decode.text@.len(),
{
    assert(decodes(frames.push(f)).drop_last() == decodes(frames));
}

proof fn placed_keeps_chars(frames: Seq<Frame>, f: Frame)
    ensures
        chars_in(placed(frames, f, no_later())) == chars_in(frames) + f.decode.text@.len(),
    decreases frames.len(),
{
    if frames.len() == 0 || no_later()(frames.last(), f) {
        one_more_frame(frames, f);
    } else {
        let front = placed(frames.drop_last(), f, no_later());
        placed_keeps_chars(frames.drop_last(), f);
        one_more_frame(front, frames.last());
        one_more_frame(frames.drop_last(), frames.last());
        assert(frames.drop_last().push(frames.last()) == frames);
    }
}

proof fn by_reveal_keeps_chars(frames: Seq<Frame>)
    ensures
        chars_in(by_reveal(frames)) == chars_in(frames),
    decreases frames.len(),
{
    if frames.len() > 0 {
        by_reveal_keeps_chars(frames.drop_last());
        placed_keeps_chars(by_reveal(frames.drop_last()), frames.last());
        one_more_frame(frames.drop_last(), frames.last());
        assert(frames.drop_last().push(frames.last()) == frames);
    }
}

/// Put `f` where it belongs among frames in order.
fn place(frames: &mut Vec<Frame>, f: Frame)
    ensures
        final(frames)@ == placed(old(frames)@, f, no_later()),
{
    let ghost all = frames@;
    let mut p: usize = frames.len();
    while p > 0 && !goes_before(&frames[p - 1], &f)
        invariant
            frames@ == all,
            0 <= p <= all.len(),
            forall|j: int| p <= j < all.len() ==> !no_later()(#[trigger] all[j], f),
        decreases p,
    {
        p -= 1;
    }
    proof {
        placed_inserts(all, f, no_later(), p as int);
    }
    frames.insert(p, f);
}

/// What has been decoded of a recording, and the channels fed from it.
#[derive(Debug)]
pub struct Playback {
    frames: Vec<Frame>,
    /// How many of the frames the channels have been fed.
    fed: usize,
    /// Whether the frames have changed under the channels.
    dirty: bool,
    set: ChannelSet,
    /// Scans that have not reported yet.
    pending: usize,
}

impl Playback {
    /// The frames found so far.
    pub closed spec fn frames(&self) -> Seq<Frame> {
        self.frames@
    }

    /// How many scans have not reported yet.
    pub closed spec fn pending(&self) -> nat {
        self.pending as nat
    }

    /// The frames are in order, and the channels are those of the frames that
    /// they have been fed.
    pub closed spec fn wf(&self) -> bool {
        &&& in_sequence(self.frames@, no_later())
        &&& chars_in(self.frames@) <= usize::MAX
        &&& !self.dirty ==> {
            &&& self.fed <= self.frames@.len()
            &&& self.set@ == SetView::empty(CHANNEL_TOL_HZ).added_all(decodes(self.frames@.take(self.fed as int)))
        }
    }

    /// Nothing loaded.
    pub fn new() -> (p: Playback)
        ensures
            p.wf(),
            p.frames() == Seq::<Frame>::empty(),
            p.pending() == 0,
    {
        let p = Playback {
            frames: Vec::new(),
            fed: 0,
            dirty: false,
            set: ChannelSet::new(CHANNEL_TOL_HZ),
            pending: 0,
        };
        assert(decodes(p.frames@) == Seq::<Decode>::empty());
        assert(p.frames@.take(0) == p.frames@);
        p
    }

    /// How many scans have not reported yet.
    pub fn pending_scans(&self) -> (n: usize)
        ensures
            n == self.pending(),
    {
        self.pending
    }

    /// Begin again with one scan a mode, or with none where there is nothing
    /// loaded to scan.
    pub fn rescan(&mut self, loaded: bool, modes: usize)
        ensures
            final(self).wf(),
            final(self).frames() == Seq::<Frame>::empty(),
            final(self).pending() == if loaded { modes as nat } else { 0 },
    {
        self.frames = Vec::new();
        self.dirty = true;
        self.pending = if loaded { modes } else { 0 };
        assert(decodes(self.frames@) == Seq::<Decode>::empty());
    }

    /// Take frames from a scan that has landed, and put all of them back in the
    /// order in which they are revealed.
    ///
    /// Scans land one mode at a time, in whatever order they finish.
    pub fn frames_landed(&mut self, more: Vec<Frame>)
        requires
            old(self).wf(),
            chars_in(old(self).frames() + more@) <= usize::MAX,
        ensures
            final(self).wf(),
            final(self).frames() == by_reveal(old(self).frames() + more@),
            final(self).pending() == old(self).pending(),
    {
        let ghost before = self.frames@;
        let ghost extra = more@;
        proof {
            in_order_stays(before);
            assert(before + extra.take(0) == before);
        }
        for f in it: more
            invariant
                it.seq() == extra,
                self.frames@ == by_reveal(before + extra.take(it.index())),
                self.pending == old(self).pending,
        {
            proof {
                let k = it.index();
                assert((before + extra.take(k + 1)).drop_last() == before + extra.take(k));
            }
            place(&mut self.frames, f);
        }
        self.dirty = true;
        proof {
            assert(extra.take(extra.len() as int) == extra);
            reveal_order_is_an_order();
            sorted_is_stable(before + extra, no_later());
            by_reveal_keeps_chars(before + extra);
        }
    }

    /// Count a scan as done. Whether it was the last.
    pub fn scan_done(&mut self) -> (last: bool)
        requires
            old(self).wf(),
        ensures
            final(self).wf(),
            final(self).frames() == old(self).frames(),
            final(self).pending() == if old(self).pending() == 0 { 0 } else { (old(self).pending() - 1) as nat },
            last <==> final(self).pending() == 0,
    {
        if self.pending > 0 {
            self.pending -= 1;
        }
        self.pending == 0
    }

    /// What the scans have found between them.
    pub fn found(&self) -> (ds: Vec<Decode>)
        ensures
            ds@ == decodes(self.frames()),
    {
        let mut ds: Vec<Decode> = Vec::new();
        let n: usize = self.frames.len();
        let mut i: usize = 0;
        while i < n
            invariant
                n == self.frames@.len(),
                0 <= i <= n,
                ds@ == decodes(self.frames@).take(i as int),
            decreases n - i,
        {
            ds.push(self.frames[i].decode.clone());
            i += 1;
            assert(decodes(self.frames@).take(i as int) == decodes(self.frames@).take(i - 1).push(
                decodes(self.frames@)[i - 1],
            ));
        }
        assert(decodes(self.frames@).take(n as int) == decodes(self.frames@));
        ds
    }

    /// Settle what the scans found between them, given those of it that are
    /// kept. Where nothing was dropped, nothing changes.
    pub fn arbitrate_scans(&mut self, kept: Vec<Decode>)
        requires
            old(self).wf(),
            total_chars(kept@) <= usize::MAX,
            forall|i: int| 0 <= i < kept@.len() ==> sent_by(#[trigger] kept@[i]) <= i64::MAX,
        ensures
            final(self).wf(),
            final(self).pending() == old(self).pending(),
            kept@.len() == old(self).frames().len() ==> final(self).frames() == old(self).frames(),
            kept@.len() != old(self).frames().len() ==> final(self).frames() == by_reveal(framed(kept@)),
    {
        if kept.len() == self.frames.len() {
            return;
        }
        let ghost all = kept@;
        self.frames = Vec::new();
        assert(framed(all.take(0)) == self.frames@);
        for d in it: kept
            invariant
                it.seq() == all,
                self.frames@ == by_reveal(framed(all.take(it.index()))),
                self.pending == old(self).pending,
                forall|i: int| 0 <= i < all.len() ==> sent_by(#[trigger] all[i]) <= i64::MAX,
        {
            proof {
                let k = it.index();
                assert(sent_by(all[k]) <= i64::MAX);
                assert(framed(all.take(k + 1)).drop_last() == framed(all.take(k)));
            }
            let f = Frame::of(d);
            place(&mut self.frames, f);
        }
        self.dirty = true;
        proof {
            assert(all.take(all.len() as int) == all);
            assert(decodes(framed(all)) == all);
            reveal_order_is_an_order();
            sorted_is_stable(framed(all), no_later());
            by_reveal_keeps_chars(framed(all));
        }
    }

    /// The channels as they stand at `t`, accumulated rather than rebuilt.
    ///
    /// They are built afresh only when the past changes rather than the present:
    /// the clock going backwards, and a scan landing.
    pub fn channels_now(&mut self, t: Ticks) -> (set: ChannelSet)
        requires
            old(self).wf(),
        ensures
            set@ == heard_by(old(self).frames(), t),
            set@.wf(),
            final(self).wf(),
            final(self).frames() == old(self).frames(),
            final(self).pending() == old(self).pending(),
    {
        let n: usize = self.frames.len();
        let ghost all = self.frames@;
        let ghost front = in_order_has_a_front(all, t);
        let mut shown: usize = 0;
        while shown < n && self.frames[shown].reveal_s <= t
            invariant
                self.frames@ == all,
                n == all.len(),
                0 <= front <= n,
                0 <= shown <= front,
                forall|i: int| 0 <= i < front ==> (#[trigger] all[i]).reveal_s <= t,
                forall|i: int| front <= i < n ==> (#[trigger] all[i]).reveal_s > t,
                *self == *old(self),
            decreases n - shown,
        {
            shown += 1;
        }
        assert(shown == front);
        if self.dirty || shown < self.fed {
            self.set = ChannelSet::new(CHANNEL_TOL_HZ);
            self.fed = 0;
            self.dirty = false;
            assert(decodes(all.take(0)) == Seq::<Decode>::empty());
        }
        let ghost ds = decodes(all);
        assert(decodes(all.take(self.fed as int)) == ds.take(self.fed as int));
        proof {
            total_chars_grows(ds, self.fed as int);
            a_batch_can_be_counted(CHANNEL_TOL_HZ, ds.take(self.fed as int));
        }
        let ghost fed = self.fed;
        let mut i: usize = self.fed;
        while i < shown
            invariant
                self.frames@ == all,
                ds == decodes(all),
                fed <= i <= shown <= n,
                n == all.len(),
                chars_in(all) <= usize::MAX,
                self.set@ == SetView::empty(CHANNEL_TOL_HZ).added_all(ds.take(i as int)),
                self.set@.wf(),
                self.pending == old(self).pending,
                !self.dirty,
            decreases shown - i,
        {
            proof {
                assert(ds.take(i + 1).drop_last() == ds.take(i as int));
                total_chars_grows(ds, i + 1);
                a_batch_can_be_counted(CHANNEL_TOL_HZ, ds.take(i as int));
                assert(self.set@.has_room(ds[i as int]));
            }
            self.set.add(self.frames[i].decode.clone());
            i += 1;
        }
        self.fed = shown;
        assert(decodes(all.take(shown as int)) == ds.take(shown as int));
        self.set.clone()
    }
}

/// Decodes as frames.
pub open spec fn framed(ds: Seq<Decode>) -> Seq<Frame> {
    ds.map_values(|d: Decode| Frame { reveal_s: sent_by(d) as i64, decode: d })
}

/// Frames in order stay as they are when put in order.
proof fn in_order_stays(frames: Seq<Frame>)
    requires
        in_sequence(frames, no_later()),
    ensures
        by_reveal(frames) == frames,
    decreases frames.len(),
{
    if frames.len() > 0 {
        let front = frames.drop_last();
        assert forall|i: int, j: int| 0 <= i < j < front.len() implies no_later()(
            #[trigger] front[i],
            #[trigger] front[j],
        ) by {
            assert(no_later()(frames[i], frames[j]));
        }
        in_order_stays(front);
        if front.len() > 0 {
            assert(no_later()(frames[frames.len() - 2], frames[frames.len() - 1]));
        }
        assert(front.push(frames.last()) == frames);
    }
}

} // verus!
