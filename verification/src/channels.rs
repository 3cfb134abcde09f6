//! Channel tracking: decodes are gathered into persistent channels, one per
//! station or conversation, by carrier frequency and with room for drift.
//!
//! A decode is one JS8 frame, one Olivia block or a single PSK character; the
//! tracker does not care which, only where it landed and when.

use crate::channel::{extended_keeps, forget_before_keeps, fresh_keeps, Channel, ChannelView};
use crate::order::{
    in_sequence, no_ties, order_is_settled_by_ties, orders, placed, placed_inserts, sorted, sorted_is_stable, ties,
};
use crate::modes::{apart, hz_apart, Decode, Ticks, MilliHz};
use vstd::prelude::*;

verus! {

/// Tracks channels as decodes arrive.
#[derive(Debug)]
pub struct ChannelSet {
    channels: Vec<Channel>,
    next_id: u64,
    /// How far a decode may lie from a channel and still join it. Modes that
    /// need more than this get it.
    pub tol_hz: MilliHz,
}

/// What a set of channels holds.
#[verifier::ext_equal]
pub struct SetView {
    pub channels: Seq<ChannelView>,
    pub next_id: u64,
    pub tol_hz: MilliHz,
}

impl View for ChannelSet {
    type V = SetView;

    closed spec fn view(&self) -> SetView {
        SetView {
            channels: self.channels@.map_values(|c: Channel| c@),
            next_id: self.next_id,
            tol_hz: self.tol_hz,
        }
    }
}

impl Clone for ChannelSet {
    fn clone(&self) -> (set: ChannelSet)
        ensures
            set@ == self@,
    {
        let mut channels: Vec<Channel> = Vec::new();
        let n: usize = self.channels.len();
        let mut i: usize = 0;
        while i < n
            invariant
                n == self.channels@.len(),
                0 <= i <= n,
                channels@.len() == i,
                forall|j: int| 0 <= j < i ==> (#[trigger] channels@[j])@ == self.channels@[j]@,
            decreases n - i,
        {
            channels.push(self.channels[i].clone());
            i += 1;
        }
        let set = ChannelSet { channels, next_id: self.next_id, tol_hz: self.tol_hz };
        assert(set@ =~= self@);
        set
    }
}

impl SetView {
    /// A set that has heard nothing.
    pub open spec fn empty(tol_hz: MilliHz) -> SetView {
        SetView { channels: Seq::empty(), next_id: 0, tol_hz }
    }

    /// What every set keeps to: each channel does, and ids are handed out in
    /// order and once each.
    pub open spec fn wf(self) -> bool {
        &&& forall|i: int| 0 <= i < self.channels.len() ==> (#[trigger] self.channels[i]).wf()
        &&& forall|i: int|
            0 <= i < self.channels.len() ==> (#[trigger] self.channels[i]).id < self.next_id
        &&& forall|i: int, j: int|
            0 <= i < j < self.channels.len() ==> (#[trigger] self.channels[i]).id < (
            #[trigger] self.channels[j]).id
    }

    /// Whether one more decode can still be counted.
    pub open spec fn has_room(self, d: Decode) -> bool {
        &&& self.next_id < u64::MAX
        &&& forall|i: int|
            0 <= i < self.channels.len() ==> (#[trigger] self.channels[i]).has_room(d)
    }

    /// Whether `d` may join channel `i`: the protocol is the same, and the
    /// carrier within the wider of the set's tolerance and the mode's.
    pub open spec fn joins(self, i: int, d: Decode) -> bool {
        let tol = if self.tol_hz >= d.mode.assoc_tol { self.tol_hz as int } else { d.mode.assoc_tol as int };
        &&& 0 <= i < self.channels.len()
        &&& self.channels[i].mode.protocol == d.mode.protocol
        &&& hz_apart(self.channels[i].hz, d.hz) <= tol
    }

    /// Whether channel `i` is the one that `d` goes to: none that it may join
    /// is nearer, and none as near comes before it.
    pub open spec fn nearest(self, i: int, d: Decode) -> bool {
        &&& self.joins(i, d)
        &&& forall|j: int| #[trigger]
            self.joins(j, d) ==> hz_apart(self.channels[i].hz, d.hz) <= hz_apart(
                self.channels[j].hz,
                d.hz,
            )
        &&& forall|j: int|
            j < i && #[trigger] self.joins(j, d) ==> hz_apart(self.channels[i].hz, d.hz) < hz_apart(
                self.channels[j].hz,
                d.hz,
            )
    }

    /// The set with `d` taken on: by the nearest channel it may join, else by a
    /// new one.
    pub open spec fn added(self, d: Decode) -> SetView {
        if exists|i: int| self.nearest(i, d) {
            let i = choose|i: int| self.nearest(i, d);
            SetView { channels: self.channels.update(i, self.channels[i].extended(d)), ..self }
        } else {
            SetView {
                channels: self.channels.push(ChannelView::fresh(self.next_id, d)),
                next_id: (self.next_id + 1) as u64,
                ..self
            }
        }
    }

    /// The set with each of `ds` taken on in turn.
    pub open spec fn added_all(self, ds: Seq<Decode>) -> SetView
        decreases ds.len(),
    {
        if ds.len() == 0 {
            self
        } else {
            self.added_all(ds.drop_last()).added(ds.last())
        }
    }
}

/// No two channels are both the nearest to one decode.
pub proof fn nearest_is_one(s: SetView, d: Decode, i: int, j: int)
    requires
        s.nearest(i, d),
        s.nearest(j, d),
    ensures
        i == j,
{
    assert(s.joins(i, d) && s.joins(j, d));
}

/// A set in order stays in order as it takes decodes on.
pub proof fn added_keeps(s: SetView, d: Decode)
    requires
        s.wf(),
        s.has_room(d),
        d.text@.len() <= usize::MAX,
    ensures
        s.added(d).wf(),
{
    let t = s.added(d);
    if exists|i: int| s.nearest(i, d) {
        let i = choose|i: int| s.nearest(i, d);
        assert(s.joins(i, d));
        extended_keeps(s.channels[i], d);
        assert forall|k: int| 0 <= k < t.channels.len() implies (#[trigger] t.channels[k]).wf() by {
            if k != i {
                assert(t.channels[k] == s.channels[k]);
            }
        }
        assert forall|k: int| 0 <= k < t.channels.len() implies (#[trigger] t.channels[k]).id < t.next_id by {
            assert(s.channels[k].id < s.next_id);
        }
        assert forall|a: int, b: int| 0 <= a < b < t.channels.len() implies (#[trigger] t.channels[a]).id < (
        #[trigger] t.channels[b]).id by {
            assert(s.channels[a].id < s.channels[b].id);
        }
    } else {
        fresh_keeps(s.next_id, d);
        assert forall|k: int| 0 <= k < t.channels.len() implies (#[trigger] t.channels[k]).wf() by {
            if k < s.channels.len() {
                assert(t.channels[k] == s.channels[k]);
            }
        }
        assert forall|k: int| 0 <= k < t.channels.len() implies (#[trigger] t.channels[k]).id < t.next_id by {
            if k < s.channels.len() {
                assert(s.channels[k].id < s.next_id);
            }
        }
        assert forall|a: int, b: int| 0 <= a < b < t.channels.len() implies (#[trigger] t.channels[a]).id < (
        #[trigger] t.channels[b]).id by {
            if b < s.channels.len() {
                assert(s.channels[a].id < s.channels[b].id);
            } else {
                assert(s.channels[a].id < s.next_id);
            }
        }
    }
}

/// What is left of channels when each forgets what arrived before the cut named
/// for it: without a cut a channel stays as it is, and one with nothing left to
/// show goes.
pub open spec fn forgotten(channels: Seq<ChannelView>, cuts: Seq<Option<Ticks>>) -> Seq<ChannelView>
    decreases channels.len(),
{
    if channels.len() == 0 {
        Seq::empty()
    } else {
        let front = forgotten(channels.drop_last(), cuts.drop_last());
        match cuts.last() {
            None => front.push(channels.last()),
            Some(at) => {
                let c = channels.last().forget_before(at);
                if c.text.len() > 0 {
                    front.push(c)
                } else {
                    front
                }
            },
        }
    }
}

/// Forgetting keeps a set in order, and what is left of a channel is one of the
/// channels that were there.
pub proof fn forgotten_keeps(s: SetView, cuts: Seq<Option<Ticks>>)
    requires
        s.wf(),
        cuts.len() == s.channels.len(),
    ensures
        (SetView { channels: forgotten(s.channels, cuts), ..s }).wf(),
        forgotten(s.channels, cuts).len() > 0 ==> s.channels.len() > 0 && forgotten(
            s.channels,
            cuts,
        ).last().id <= s.channels.last().id,
    decreases s.channels.len(),
{
    if s.channels.len() > 0 {
        let front = SetView { channels: s.channels.drop_last(), ..s };
        assert forall|i: int, j: int| 0 <= i < j < front.channels.len() implies (#[trigger] front.channels[i]).id
            < (#[trigger] front.channels[j]).id by {
            assert(s.channels[i].id < s.channels[j].id);
        }
        assert forall|i: int| 0 <= i < front.channels.len() implies (#[trigger] front.channels[i]).wf()
            && front.channels[i].id < front.next_id by {
            assert(s.channels[i].wf() && s.channels[i].id < s.next_id);
        }
        forgotten_keeps(front, cuts.drop_last());
        let kept = forgotten(front.channels, cuts.drop_last());
        let last = s.channels.last();
        assert(last.wf() && last.id < s.next_id);
        forget_before_keeps(last, 0);
        if cuts.last() is Some {
            forget_before_keeps(last, cuts.last()->0);
        }
        let all = forgotten(s.channels, cuts);
        if all.len() > kept.len() {
            assert(all == kept.push(all.last()));
            assert(all.last().wf());
            if kept.len() > 0 {
                assert(front.channels.last() == s.channels[s.channels.len() - 2]);
                assert(kept.last().id < last.id);
            }
            assert forall|i: int, j: int| 0 <= i < j < all.len() implies (#[trigger] all[i]).id < (
            #[trigger] all[j]).id by {
                if j < kept.len() {
                    assert(kept[i].id < kept[j].id);
                } else if i < kept.len() - 1 {
                    assert(kept[i].id < kept[kept.len() - 1].id);
                }
            }
            assert forall|i: int| 0 <= i < all.len() implies (#[trigger] all[i]).wf() && all[i].id < s.next_id by {
                if i < kept.len() {
                    assert(kept[i].wf() && kept[i].id < s.next_id);
                }
            }
        } else {
            assert(all == kept);
            if kept.len() > 0 {
                assert(front.channels.last() == s.channels[s.channels.len() - 2]);
            }
        }
    }
}

impl ChannelSet {
    /// The channels, in the order they were first heard.
    pub closed spec fn list(&self) -> Seq<Channel> {
        self.channels@
    }

    /// A set that has heard nothing.
    pub fn new(tol_hz: MilliHz) -> (set: ChannelSet)
        ensures
            set@ == SetView::empty(tol_hz),
            set@.wf(),
    {
        let set = ChannelSet { channels: Vec::new(), next_id: 0, tol_hz };
        assert(set@ =~= SetView::empty(tol_hz));
        set
    }

    /// The channel that `d` goes to, if there is one that it may join.
    fn find_nearest(&self, d: &Decode) -> (best: Option<usize>)
        ensures
            match best {
                Some(i) => self@.nearest(i as int, *d),
                None => forall|i: int| !self@.nearest(i, *d),
            },
    {
        // Wide-spaced modes ask for more than the set's own tolerance, so that
        // an estimate a bin over still tracks as one channel.
        let tol: i64 = if self.tol_hz as i64 >= d.mode.assoc_tol as i64 {
            self.tol_hz as i64
        } else {
            d.mode.assoc_tol as i64
        };
        let mut best: Option<usize> = None;
        let mut least: i64 = 0;
        let mut i: usize = 0;
        while i < self.channels.len()
            invariant
                0 <= i <= self.channels@.len(),
                tol == (if self@.tol_hz >= d.mode.assoc_tol { self@.tol_hz as int } else { d.mode.assoc_tol as int }),
                match best {
                    Some(b) => {
                        &&& b < i
                        &&& self@.joins(b as int, *d)
                        &&& least == hz_apart(self@.channels[b as int].hz, d.hz)
                        &&& forall|j: int|
                            j < i && #[trigger] self@.joins(j, *d) ==> least <= hz_apart(
                                self@.channels[j].hz,
                                d.hz,
                            )
                        &&& forall|j: int|
                            j < b && #[trigger] self@.joins(j, *d) ==> least < hz_apart(
                                self@.channels[j].hz,
                                d.hz,
                            )
                    },
                    None => forall|j: int| j < i ==> !#[trigger] self@.joins(j, *d),
                },
            decreases self.channels.len() - i,
        {
            assert(self@.channels[i as int] == self.channels@[i as int]@);
            if self.channels[i].mode.protocol == d.mode.protocol {
                let gap: i64 = apart(self.channels[i].hz, d.hz);
                if gap <= tol && (best.is_none() || gap < least) {
                    assert(self@.joins(i as int, *d));
                    best = Some(i);
                    least = gap;
                }
            }
            i += 1;
        }
        best
    }

    /// Whether one more decode can still be counted.
    pub fn can_add(&self, d: &Decode) -> (r: bool)
        requires
            self@.wf(),
        ensures
            r == self@.has_room(*d),
    {
        let more: usize = d.text.as_str().unicode_len();
        if self.next_id == u64::MAX {
            return false;
        }
        let mut i: usize = 0;
        while i < self.channels.len()
            invariant
                0 <= i <= self.channels@.len(),
                more == d.text@.len(),
                self@.wf(),
                forall|j: int| 0 <= j < i ==> (#[trigger] self@.channels[j]).has_room(*d),
            decreases self.channels.len() - i,
        {
            assert(self@.channels[i as int] == self.channels@[i as int]@);
            assert(self@.channels[i as int].wf());
            let ch = &self.channels[i];
            if ch.next_index() > usize::MAX - more || ch.chunks == usize::MAX {
                assert(!self@.channels[i as int].has_room(*d));
                return false;
            }
            i += 1;
        }
        true
    }

    /// Take a decode on: append it to the nearest channel within tolerance, else
    /// start a new channel. A decode only ever joins a channel of its own
    /// protocol, so a wide signal cannot swallow a station sitting inside it.
    pub fn add(&mut self, d: Decode)
        requires
            old(self)@.wf(),
            old(self)@.has_room(d),
        ensures
            final(self)@ == old(self)@.added(d),
            final(self)@.wf(),
    {
        let ghost before = self@;
        let len: usize = d.text.as_str().unicode_len();
        assert(d.text@.len() == len);
        match self.find_nearest(&d) {
            Some(i) => {
                proof {
                    let k = choose|k: int| self@.nearest(k, d);
                    nearest_is_one(self@, d, i as int, k);
                }
                assert(before.channels[i as int] == self.channels@[i as int]@);
                assert(before.channels[i as int].wf());
                assert(before.channels[i as int].has_room(d));
                self.channels[i].extend(&d);
                assert(self@ =~= before.added(d));
            },
            None => {
                let ch = Channel::first(self.next_id, &d);
                self.channels.push(ch);
                self.next_id = self.next_id + 1;
                assert(self@.channels =~= before.channels.push(ChannelView::fresh(before.next_id, d)));
                assert(self@ =~= before.added(d));
            },
        }
        proof {
            added_keeps(before, d);
        }
    }

    /// The channels, in the order they were first heard.
    pub fn channels(&self) -> (all: &[Channel])
        ensures
            all@ == self.list(),
            all@.map_values(|c: Channel| c@) == self@.channels,
    {
        self.channels.as_slice()
    }

    /// The channel with this id, if it is still in the set.
    pub fn by_id(&self, id: u64) -> (found: Option<&Channel>)
        ensures
            match found {
                Some(c) => c@.id == id && self@.channels.contains(c@),
                None => forall|i: int| 0 <= i < self@.channels.len() ==> (#[trigger] self@.channels[i]).id != id,
            },
    {
        let mut i: usize = 0;
        while i < self.channels.len()
            invariant
                0 <= i <= self.channels@.len(),
                forall|j: int| 0 <= j < i ==> (#[trigger] self@.channels[j]).id != id,
            decreases self.channels.len() - i,
        {
            assert(self@.channels[i as int] == self.channels@[i as int]@);
            if self.channels[i].id == id {
                return Some(&self.channels[i]);
            }
            i += 1;
        }
        None
    }

    /// Forget text that arrived before the instant `cut` names for the channel
    /// it is asked about, and with it any channel left with nothing to show.
    /// Where it names none, everything is kept: that is the only way a channel
    /// that has never said anything survives this.
    pub fn forget<F: Fn(&Channel) -> Option<Ticks>>(&mut self, cut: F)
        requires
            old(self)@.wf(),
            forall|c: &Channel| call_requires(cut, (c,)),
        ensures
            exists|cuts: Seq<Option<Ticks>>|
                {
                    &&& cuts.len() == old(self).list().len()
                    &&& forall|i: int|
                        0 <= i < cuts.len() ==> call_ensures(
                            cut,
                            (&old(self).list()[i],),
                            #[trigger] cuts[i],
                        )
                    &&& final(self)@ == (SetView {
                        channels: #[trigger] forgotten(old(self)@.channels, cuts),
                        ..old(self)@
                    })
                },
            final(self)@.wf(),
    {
        let ghost was = self@;
        let ghost olds = self.channels@;
        let ghost mut cuts: Seq<Option<Ticks>> = Seq::empty();
        let ghost n = olds.len();
        let mut i: usize = 0;
        assert(self@.channels == forgotten(was.channels.take(0), cuts) + was.channels.skip(0));
        while i < self.channels.len()
            invariant
                was.wf(),
                was.channels == olds.map_values(|c: Channel| c@),
                n == olds.len(),
                forall|c: &Channel| call_requires(cut, (c,)),
                0 <= i <= self.channels@.len(),
                cuts.len() + self.channels@.len() - i == n,
                self.channels@.skip(i as int) == olds.skip(cuts.len() as int),
                self.channels@.take(i as int).map_values(|c: Channel| c@) == forgotten(
                    was.channels.take(cuts.len() as int),
                    cuts,
                ),
                forall|j: int| 0 <= j < cuts.len() ==> call_ensures(cut, (&olds[j],), #[trigger] cuts[j]),
                self.next_id == was.next_id,
                self.tol_hz == was.tol_hz,
            decreases self.channels@.len() - i,
        {
            let ghost k = cuts.len() as int;
            let ghost cur = self.channels@;
            assert(cur[i as int] == cur.skip(i as int)[0]);
            assert(olds[k] == olds.skip(k)[0]);
            assert(was.channels[k] == olds[k]@);
            assert(was.channels[k].wf());
            let at = cut(&self.channels[i]);
            let mut keep = true;
            if let Some(at) = at {
                self.channels[i].forget_before(at);
                keep = !self.channels[i].text.as_str().is_empty();
            }
            proof {
                let more = cuts.push(at);
                assert(more.drop_last() == cuts);
                assert(was.channels.take(k + 1).drop_last() == was.channels.take(k));
                assert(was.channels.take(k + 1).last() == was.channels[k]);
                assert(olds.skip(k).skip(1) == olds.skip(k + 1));
                assert(cur.skip(i as int).skip(1) == cur.skip(i + 1));
                assert(self.channels@.skip(i + 1) == cur.skip(i + 1));
                assert(self.channels@.take(i as int) == cur.take(i as int));
                cuts = more;
            }
            if keep {
                assert(self.channels@.take(i + 1).map_values(|c: Channel| c@) == self.channels@.take(
                    i as int,
                ).map_values(|c: Channel| c@).push(self.channels@[i as int]@));
                i += 1;
            } else {
                let ghost long = self.channels@;
                self.channels.remove(i);
                assert(self.channels@.take(i as int) == long.take(i as int));
                assert(self.channels@.skip(i as int) == long.skip(i + 1));
            }
        }
        proof {
            assert(self.channels@.take(i as int) == self.channels@);
            assert(was.channels.take(n as int) == was.channels);
            forgotten_keeps(was, cuts);
            assert(self@ =~= (SetView { channels: forgotten(was.channels, cuts), ..was }));
        }
    }

    /// Build a channel set from a batch of decodes, in the order of their times.
    pub fn from_decodes(decodes: Vec<Decode>, tol_hz: MilliHz) -> (set: ChannelSet)
        requires
            total_chars(decodes@) <= usize::MAX,
        ensures
            set@ == SetView::empty(tol_hz).added_all(by_time(decodes@)),
            set@.wf(),
    {
        let ghost all = decodes@;
        let n: usize = decodes.len();
        let mut sorted: Vec<Decode> = Vec::new();
        for d in it: decodes
            invariant
                it.seq() == all,
                sorted@ == by_time(all.take(it.index())),
        {
            proof {
                assert(all.take(it.index() + 1).drop_last() == all.take(it.index()));
            }
            place_by_time(&mut sorted, d);
        }
        proof {
            assert(all.take(all.len() as int) == all);
            by_time_keeps_chars(all);
        }
        let mut set = ChannelSet::new(tol_hz);
        let ghost ds = sorted@;
        for d in it: sorted
            invariant
                it.seq() == ds,
                ds.len() == n,
                set@ == SetView::empty(tol_hz).added_all(ds.take(it.index())),
                set@.wf(),
                total_chars(ds) <= usize::MAX,
        {
            proof {
                let k = it.index();
                assert(ds.take(k + 1).drop_last() == ds.take(k));
                total_chars_grows(ds, k + 1);
                a_batch_can_be_counted(tol_hz, ds.take(k));
                assert(set@.has_room(d));
            }
            set.add(d);
        }
        assert(ds.take(ds.len() as int) == ds);
        set
    }
}

/// Whether one decode began no later than another.
pub open spec fn earlier() -> spec_fn(Decode, Decode) -> bool {
    |a: Decode, b: Decode| a.time_s <= b.time_s
}

/// Decodes in order of time, those of one time in the order they came.
pub open spec fn by_time(ds: Seq<Decode>) -> Seq<Decode> {
    sorted(ds, earlier())
}

/// How many characters decodes hold between them.
pub open spec fn total_chars(ds: Seq<Decode>) -> nat
    decreases ds.len(),
{
    if ds.len() == 0 {
        0
    } else {
        total_chars(ds.drop_last()) + ds.last().text@.len()
    }
}

proof fn placed_keeps_chars(ds: Seq<Decode>, d: Decode)
    ensures
        total_chars(placed(ds, d, earlier())) == total_chars(ds) + d.text@.len(),
        placed(ds, d, earlier()).len() == ds.len() + 1,
    decreases ds.len(),
{
    if ds.len() == 0 || ds.last().time_s <= d.time_s {
        assert(ds.push(d).drop_last() == ds);
    } else {
        placed_keeps_chars(ds.drop_last(), d);
        let front = placed(ds.drop_last(), d, earlier());
        assert(front.push(ds.last()).drop_last() == front);
    }
}

proof fn by_time_keeps_chars(ds: Seq<Decode>)
    ensures
        total_chars(by_time(ds)) == total_chars(ds),
        by_time(ds).len() == ds.len(),
    decreases ds.len(),
{
    if ds.len() > 0 {
        by_time_keeps_chars(ds.drop_last());
        placed_keeps_chars(by_time(ds.drop_last()), ds.last());
    }
}

pub(crate) proof fn total_chars_grows(ds: Seq<Decode>, n: int)
    requires
        0 <= n <= ds.len(),
    ensures
        total_chars(ds.take(n)) <= total_chars(ds),
    decreases ds.len() - n,
{
    if n < ds.len() {
        total_chars_grows(ds, n + 1);
        assert(ds.take(n + 1).drop_last() == ds.take(n));
    } else {
        assert(ds.take(n) == ds);
    }
}

/// What a set counts grows by no more than the decode it takes on.
proof fn added_counts(s: SetView, d: Decode, chars: nat, chunks: nat)
    requires
        s.wf(),
        s.has_room(d),
        d.text@.len() <= usize::MAX,
        forall|i: int|
            0 <= i < s.channels.len() ==> (#[trigger] s.channels[i]).next_index() <= chars
                && s.channels[i].chunks <= chunks,
    ensures
        s.added(d).next_id <= s.next_id + 1,
        forall|i: int|
            0 <= i < s.added(d).channels.len() ==> (#[trigger] s.added(d).channels[i]).next_index() <= chars
                + d.text@.len() && s.added(d).channels[i].chunks <= chunks + 1,
{
    let t = s.added(d);
    if exists|i: int| s.nearest(i, d) {
        let k = choose|i: int| s.nearest(i, d);
        assert(s.joins(k, d));
        assert(s.channels[k].wf() && s.channels[k].has_room(d));
        extended_keeps(s.channels[k], d);
        assert forall|i: int| 0 <= i < t.channels.len() implies (#[trigger] t.channels[i]).next_index() <= chars
            + d.text@.len() && t.channels[i].chunks <= chunks + 1 by {
            assert(s.channels[i].next_index() <= chars);
        }
    } else {
        fresh_keeps(s.next_id, d);
        assert forall|i: int| 0 <= i < t.channels.len() implies (#[trigger] t.channels[i]).next_index() <= chars
            + d.text@.len() && t.channels[i].chunks <= chunks + 1 by {
            if i < s.channels.len() {
                assert(s.channels[i].next_index() <= chars);
            }
        }
    }
}

/// What a set counts of a batch is no more than the batch holds, so one that can
/// be counted can be taken on.
pub proof fn a_batch_can_be_counted(tol_hz: MilliHz, ds: Seq<Decode>)
    requires
        ds.len() <= usize::MAX,
        total_chars(ds) <= usize::MAX,
    ensures
        ({
            let s = SetView::empty(tol_hz).added_all(ds);
            &&& s.wf()
            &&& s.next_id <= ds.len()
            &&& forall|i: int|
                0 <= i < s.channels.len() ==> {
                    &&& (#[trigger] s.channels[i]).next_index() <= total_chars(ds)
                    &&& s.channels[i].chunks <= ds.len()
                }
        }),
    decreases ds.len(),
{
    if ds.len() > 0 {
        let front = SetView::empty(tol_hz).added_all(ds.drop_last());
        a_batch_can_be_counted(tol_hz, ds.drop_last());
        assert(front.has_room(ds.last()));
        added_keeps(front, ds.last());
        added_counts(front, ds.last(), total_chars(ds.drop_last()), ds.drop_last().len());
    }
}

/// Put `d` where it belongs among decodes in order of time.
pub(crate) fn place_by_time(ds: &mut Vec<Decode>, d: Decode)
    ensures
        final(ds)@ == placed(old(ds)@, d, earlier()),
{
    let ghost all = ds@;
    let mut p: usize = ds.len();
    while p > 0 && ds[p - 1].time_s > d.time_s
        invariant
            ds@ == all,
            0 <= p <= all.len(),
            forall|j: int| p <= j < all.len() ==> (#[trigger] all[j]).time_s > d.time_s,
        decreases p,
    {
        p -= 1;
    }
    proof {
        placed_inserts(all, d, earlier(), p as int);
    }
    ds.insert(p, d);
}

/// A batch put in order of time is in order, and holds what it held before,
/// decodes of one time in the order they came.
pub proof fn a_batch_is_put_in_order(ds: Seq<Decode>)
    ensures
        in_sequence(by_time(ds), earlier()),
        by_time(ds).len() == ds.len(),
        forall|d: Decode| #[trigger] ties(by_time(ds), d, earlier()) == ties(ds, d, earlier()),
{
    sorted_is_stable(ds, earlier());
}

/// Whether no two decodes began at one time.
pub open spec fn times_differ(ds: Seq<Decode>) -> bool {
    forall|i: int, j: int| 0 <= i < j < ds.len() ==> (#[trigger] ds[i]).time_s != (#[trigger] ds[j]).time_s
}

/// Where times differ, a decode ties with none but the one of its own time.
proof fn one_of_a_time(ds: Seq<Decode>, t: Decode, i: int)
    requires
        times_differ(ds),
        0 <= i < ds.len(),
        ds[i].time_s == t.time_s,
    ensures
        ties(ds, t, earlier()) == seq![ds[i]],
    decreases ds.len(),
{
    reveal(Seq::filter);
    let front = ds.drop_last();
    assert forall|a: int, b: int| 0 <= a < b < front.len() implies (#[trigger] front[a]).time_s != (
    #[trigger] front[b]).time_s by {
        assert(ds[a].time_s != ds[b].time_s);
    }
    if i < front.len() {
        assert(front[i] == ds[i]);
        one_of_a_time(front, t, i);
        assert(ds[i].time_s != ds[ds.len() - 1].time_s);
        assert(ties(ds, t, earlier()) == ties(front, t, earlier()));
    } else {
        assert forall|j: int| 0 <= j < front.len() implies !(earlier()(#[trigger] front[j], t) && earlier()(
            t,
            front[j],
        )) by {
            assert(ds[j].time_s != ds[i].time_s);
        }
        no_ties(front, t, earlier());
        assert(ties(ds, t, earlier()) == ties(front, t, earlier()).push(ds[i]));
    }
}

/// Times that differ in one order differ in any.
proof fn times_differ_in_any_order(ds: Seq<Decode>, es: Seq<Decode>)
    requires
        ds.to_multiset() == es.to_multiset(),
        times_differ(ds),
    ensures
        times_differ(es),
        forall|d: Decode| ds.contains(d) <==> #[trigger] es.contains(d),
{
    broadcast use vstd::seq_lib::group_to_multiset_ensures;

    assert(ds.no_duplicates()) by {
        assert forall|i: int, j: int| 0 <= i < ds.len() && 0 <= j < ds.len() && i != j implies ds[i] != ds[j] by {
            if i < j {
                assert(ds[i].time_s != ds[j].time_s);
            } else {
                assert(ds[j].time_s != ds[i].time_s);
            }
        }
    }
    ds.lemma_multiset_has_no_duplicates();
    es.lemma_multiset_has_no_duplicates_conv();
    assert forall|d: Decode| ds.contains(d) <==> #[trigger] es.contains(d) by {
        assert(ds.contains(d) <==> ds.to_multiset().count(d) > 0);
        assert(es.contains(d) <==> es.to_multiset().count(d) > 0);
    }
    assert forall|a: int, b: int| 0 <= a < b < es.len() implies (#[trigger] es[a]).time_s != (
    #[trigger] es[b]).time_s by {
        assert(es.contains(es[a]) && es.contains(es[b]));
        assert(es[a] != es[b]);
        let i = choose|i: int| 0 <= i < ds.len() && ds[i] == es[a];
        let j = choose|j: int| 0 <= j < ds.len() && ds[j] == es[b];
        if i < j {
            assert(ds[i].time_s != ds[j].time_s);
        } else {
            assert(ds[j].time_s != ds[i].time_s);
        }
    }
}

/// A batch may come in any order: decodes that began at different times make one
/// set of channels, ids included, however they are mixed.
pub proof fn a_batch_may_come_in_any_order(ds: Seq<Decode>, es: Seq<Decode>)
    requires
        ds.to_multiset() == es.to_multiset(),
        forall|i: int, j: int| 0 <= i < j < ds.len() ==> (#[trigger] ds[i]).time_s != (#[trigger] ds[j]).time_s,
    ensures
        by_time(ds) == by_time(es),
        forall|tol_hz: MilliHz| #[trigger]
            SetView::empty(tol_hz).added_all(by_time(ds)) == SetView::empty(tol_hz).added_all(by_time(es)),
{
    let le = earlier();
    assert(orders(le));
    assert(times_differ(ds));
    times_differ_in_any_order(ds, es);
    sorted_is_stable(ds, le);
    sorted_is_stable(es, le);
    assert forall|t: Decode| #[trigger] ties(by_time(ds), t, le) == ties(by_time(es), t, le) by {
        assert(ties(by_time(ds), t, le) == ties(ds, t, le));
        assert(ties(by_time(es), t, le) == ties(es, t, le));
        if exists|i: int| 0 <= i < ds.len() && (#[trigger] ds[i]).time_s == t.time_s {
            let i = choose|i: int| 0 <= i < ds.len() && (#[trigger] ds[i]).time_s == t.time_s;
            assert(ds.contains(ds[i]));
            assert(es.contains(ds[i]));
            let j = choose|j: int| 0 <= j < es.len() && es[j] == ds[i];
            one_of_a_time(ds, t, i);
            one_of_a_time(es, t, j);
        } else {
            assert forall|j: int| 0 <= j < es.len() implies !(le(#[trigger] es[j], t) && le(t, es[j])) by {
                assert(es.contains(es[j]));
                assert(ds.contains(es[j]));
                let i = choose|i: int| 0 <= i < ds.len() && ds[i] == es[j];
                assert(ds[i].time_s != t.time_s);
            }
            assert forall|i: int| 0 <= i < ds.len() implies !(le(#[trigger] ds[i], t) && le(t, ds[i])) by {
                assert(ds[i].time_s != t.time_s);
            }
            no_ties(ds, t, le);
            no_ties(es, t, le);
            assert(ties(ds, t, le) == ties(es, t, le));
        }
    }
    order_is_settled_by_ties(by_time(ds), by_time(es), le);
}

} // verus!
