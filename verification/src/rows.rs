//! What stays on a station's row, how solidly it is drawn and how it slides.

use crate::find::{filter_ends, filter_one_more, first_where, first_where_found, first_where_is};
use crate::modes::{since, Ticks};
use vstd::prelude::*;

verus! {

/// Longest a station's text can be asked to stay on its row, in thousandths of a
/// minute.
pub const MAX_FORGET_MIN: u32 = 120_000;

/// Longest text can be asked to take going.
pub const MAX_FADE_S: Ticks = 720_000_000;

/// The later of two instants, where nothing is before everything.
pub open spec fn later(a: Option<Ticks>, b: Option<Ticks>) -> Option<Ticks> {
    match (a, b) {
        (Some(x), Some(y)) => if x >= y {
            a
        } else {
            b
        },
        (None, _) => b,
        (_, None) => a,
    }
}

/// The later of two instants, where nothing is before everything.
fn later_of(a: Option<Ticks>, b: Option<Ticks>) -> (r: Option<Ticks>)
    ensures
        r == later(a, b),
{
    match (a, b) {
        (Some(x), Some(y)) => Some(if x >= y { x } else { y }),
        (None, _) => b,
        (_, None) => a,
    }
}

/// How long text stays on a row before it starts to go, where a setting is given
/// in thousandths of a minute. A zero means that nothing is forgotten.
pub fn forget_secs(forget_min: u32) -> (keep: Option<Ticks>)
    ensures
        keep == if forget_min > 0 { Some((forget_min * 720_000) as i64) } else { None },
{
    if forget_min > 0 {
        Some(forget_min as i64 * 720_000)
    } else {
        None
    }
}

/// The clears that the operator has made: of one channel each, and of all.
pub struct Clears {
    cleared: Vec<(u64, Ticks)>,
    all_at: Option<Ticks>,
}

/// What has been cleared.
#[verifier::ext_equal]
pub struct ClearsView {
    /// When each channel was last cleared by itself.
    pub cleared: Map<u64, Ticks>,
    /// When everything was.
    pub all_at: Option<Ticks>,
}

/// A list of pairs as a map: the first pair for a key counts.
pub open spec fn as_map(s: Seq<(u64, Ticks)>) -> Map<u64, Ticks>
    decreases s.len(),
{
    if s.len() == 0 {
        Map::empty()
    } else {
        as_map(s.drop_first()).insert(s[0].0, s[0].1)
    }
}

/// What a list of pairs gives for a key is the first of them.
proof fn as_map_finds(s: Seq<(u64, Ticks)>, id: u64)
    ensures
        ({
            let i = first_where(s, |p: (u64, Ticks)| p.0 == id);
            &&& as_map(s).dom().contains(id) <==> i < s.len()
            &&& i < s.len() ==> as_map(s)[id] == s[i].1
        }),
    decreases s.len(),
{
    if s.len() > 0 {
        as_map_finds(s.drop_first(), id);
        first_where_found(s, |p: (u64, Ticks)| p.0 == id);
    }
}

/// Sifting a list in which no key occurs twice sifts the map.
proof fn as_map_sifts(s: Seq<(u64, Ticks)>, now: Ticks)
    requires
        unique(s),
    ensures
        as_map(s.filter(|p: (u64, Ticks)| p.1 <= now)) =~= Map::new(
            |id: u64| as_map(s).dom().contains(id) && as_map(s)[id] <= now,
            |id: u64| as_map(s)[id],
        ),
        unique(s.filter(|p: (u64, Ticks)| p.1 <= now)),
    decreases s.len(),
{
    let f = |p: (u64, Ticks)| p.1 <= now;
    reveal(Seq::filter);
    if s.len() > 0 {
        let front = s.drop_last();
        let last = s.last();
        assert(unique(front)) by {
            assert forall|i: int, j: int| 0 <= i < j < front.len() implies (#[trigger] front[i]).0 != (
            #[trigger] front[j]).0 by {
                assert(s[i].0 != s[j].0);
            }
        }
        as_map_sifts(front, now);
        as_map_pushes(front, last);
        assert(s == front.push(last));
        let kept = front.filter(f);
        assert forall|i: int| 0 <= i < kept.len() implies (#[trigger] kept[i]).0 != last.0 by {
            crate::find::sifted_was_there(front, f, i);
            let k = choose|k: int| 0 <= k < front.len() && front[k] == kept[i];
            assert(s[k].0 != s[s.len() - 1].0);
        }
        assert forall|i: int| 0 <= i < front.len() implies (#[trigger] front[i]).0 != last.0 by {
            assert(s[i].0 != s[s.len() - 1].0);
        }
        key_is_absent(front, last.0);
        key_is_absent(kept, last.0);
        if f(last) {
            as_map_pushes(kept, last);
            assert(s.filter(f) == kept.push(last));
        } else {
            assert(s.filter(f) == kept);
        }
    }
}

/// A key that no pair has is not in the map.
proof fn key_is_absent(s: Seq<(u64, Ticks)>, id: u64)
    requires
        forall|i: int| 0 <= i < s.len() ==> (#[trigger] s[i]).0 != id,
    ensures
        !as_map(s).dom().contains(id),
{
    as_map_finds(s, id);
    first_where_found(s, |p: (u64, Ticks)| p.0 == id);
}

/// A pair with a new key adds to the map.
proof fn as_map_pushes(s: Seq<(u64, Ticks)>, p: (u64, Ticks))
    ensures
        as_map(s.push(p)) =~= if as_map(s).dom().contains(p.0) { as_map(s) } else { as_map(s).insert(p.0, p.1) },
    decreases s.len(),
{
    if s.len() > 0 {
        let rest = as_map(s.drop_first());
        as_map_pushes(s.drop_first(), p);
        assert(s.push(p).drop_first() == s.drop_first().push(p));
        assert(s.push(p)[0] == s[0]);
        if !rest.dom().contains(p.0) {
            if p.0 == s[0].0 {
                assert(rest.insert(p.0, p.1).insert(s[0].0, s[0].1) =~= rest.insert(s[0].0, s[0].1));
            } else {
                assert(rest.insert(p.0, p.1).insert(s[0].0, s[0].1) =~= rest.insert(s[0].0, s[0].1).insert(p.0, p.1));
            }
        }
    } else {
        assert(s.push(p).drop_first() == s);
        assert(as_map(s) == Map::<u64, Ticks>::empty());
        assert(as_map(s.push(p)) == as_map(s).insert(p.0, p.1));
    }
}

/// No key occurs twice.
pub open spec fn unique(s: Seq<(u64, Ticks)>) -> bool {
    forall|i: int, j: int| 0 <= i < j < s.len() ==> (#[trigger] s[i]).0 != (#[trigger] s[j]).0
}

impl View for Clears {
    type V = ClearsView;

    closed spec fn view(&self) -> ClearsView {
        ClearsView { cleared: as_map(self.cleared@), all_at: self.all_at }
    }
}

impl ClearsView {
    /// No clears at all.
    pub open spec fn nothing() -> ClearsView {
        ClearsView { cleared: Map::empty(), all_at: None }
    }

    /// When a channel was last cleared by hand, by itself or with all.
    pub open spec fn by_hand(self, id: u64) -> Option<Ticks> {
        later(
            if self.cleared.dom().contains(id) { Some(self.cleared[id]) } else { None },
            self.all_at,
        )
    }

    /// The instant before which a channel's text is no longer shown: the last
    /// time it was cleared by hand, or the trailing edge of the timeout. The
    /// fade is part of the life of the text.
    pub open spec fn cut(self, id: u64, now: Ticks, keep: Option<Ticks>, fade: Ticks) -> Option<Ticks> {
        match keep {
            Some(k) => later(self.by_hand(id), Some((now - k - fade) as i64)),
            None => self.by_hand(id),
        }
    }

    /// Without the clears that the clock has fallen back behind: what was cleared
    /// has then not been said yet.
    pub open spec fn without_stale(self, now: Ticks) -> ClearsView {
        ClearsView {
            cleared: Map::new(
                |id: u64| self.cleared.dom().contains(id) && self.cleared[id] <= now,
                |id: u64| self.cleared[id],
            ),
            all_at: if self.all_at is Some && self.all_at->0 > now { None } else { self.all_at },
        }
    }
}

impl Clears {
    /// No key occurs twice in the list.
    pub closed spec fn wf(&self) -> bool {
        unique(self.cleared@)
    }

    /// No clears at all.
    pub fn new() -> (c: Clears)
        ensures
            c.wf(),
            c@ == ClearsView::nothing(),
    {
        Clears { cleared: Vec::new(), all_at: None }
    }

    /// Where the clear of a channel stands in the list.
    fn find(&self, id: u64) -> (i: usize)
        ensures
            i == first_where(self.cleared@, |p: (u64, Ticks)| p.0 == id),
            i <= self.cleared@.len(),
            i < self.cleared@.len() ==> self.cleared@[i as int].0 == id,
            forall|j: int| 0 <= j < i ==> (#[trigger] self.cleared@[j]).0 != id,
    {
        let ghost p = |p: (u64, Ticks)| p.0 == id;
        let mut i: usize = 0;
        while i < self.cleared.len() && self.cleared[i].0 != id
            invariant
                0 <= i <= self.cleared@.len(),
                p == (|p: (u64, Ticks)| p.0 == id),
                forall|j: int| 0 <= j < i ==> !p(#[trigger] self.cleared@[j]),
            decreases self.cleared.len() - i,
        {
            i += 1;
        }
        proof {
            first_where_is(self.cleared@, p, i as int);
        }
        i
    }

    /// Take what is on one channel's row off it, as of `now`.
    pub fn clear(&mut self, id: u64, now: Ticks)
        requires
            old(self).wf(),
        ensures
            final(self).wf(),
            final(self)@ == (ClearsView { cleared: old(self)@.cleared.insert(id, now), ..old(self)@ }),
    {
        let ghost was = self.cleared@;
        let i: usize = self.find(id);
        proof {
            as_map_finds(was, id);
        }
        if i < self.cleared.len() {
            self.cleared.set(i, (id, now));
            proof {
                as_map_updates(was, i as int, now);
                assert(was.update(i as int, (id, now)) == self.cleared@);
            }
        } else {
            self.cleared.push((id, now));
            proof {
                as_map_pushes(was, (id, now));
            }
        }
        assert(self@.cleared =~= as_map(was).insert(id, now));
    }

    /// Take everything on the rows off them, as of `now`. The clears of single
    /// channels go with it: none can be later than this.
    pub fn clear_all(&mut self, now: Ticks)
        ensures
            final(self).wf(),
            final(self)@ == (ClearsView { cleared: Map::empty(), all_at: Some(now) }),
    {
        self.cleared = Vec::new();
        self.all_at = Some(now);
    }

    /// Drop the clears the clock has fallen back behind.
    ///
    /// A clear is a moment in the recording, and the clock can be put back before
    /// one.
    pub fn drop_stale_clears(&mut self, now: Ticks)
        requires
            old(self).wf(),
        ensures
            final(self).wf(),
            final(self)@ == old(self)@.without_stale(now),
    {
        let ghost was = self.cleared@;
        if let Some(at) = self.all_at {
            if at > now {
                self.all_at = None;
            }
        }
        let ghost f = |p: (u64, Ticks)| p.1 <= now;
        let mut kept: Vec<(u64, Ticks)> = Vec::new();
        let mut i: usize = 0;
        proof {
            filter_ends(was, f);
        }
        while i < self.cleared.len()
            invariant
                0 <= i <= self.cleared@.len(),
                self.cleared@ == was,
                f == (|p: (u64, Ticks)| p.1 <= now),
                kept@ == was.take(i as int).filter(f),
            decreases self.cleared.len() - i,
        {
            proof {
                filter_one_more(was, f, i as int);
            }
            let p = self.cleared[i];
            if p.1 <= now {
                kept.push(p);
            }
            i += 1;
        }
        proof {
            filter_ends(was, f);
            as_map_sifts(was, now);
        }
        self.cleared = kept;
        assert(self@ =~= old(self)@.without_stale(now));
    }

    /// Drop every clear, whatever the clock says: for when the channels are
    /// rebuilt rather than replayed, and an id means something else.
    pub fn drop_clears(&mut self)
        ensures
            final(self).wf(),
            final(self)@ == ClearsView::nothing(),
    {
        self.cleared = Vec::new();
        self.all_at = None;
    }

    /// The instant before which a channel's text is no longer shown, if there is
    /// one.
    pub fn cut_for(&self, id: u64, now: Ticks, keep: Option<Ticks>, fade: Ticks) -> (cut: Option<Ticks>)
        requires
            keep is Some ==> i64::MIN <= now - keep->0 - fade <= i64::MAX,
        ensures
            cut == self@.cut(id, now, keep, fade),
    {
        proof {
            as_map_finds(self.cleared@, id);
        }
        let i: usize = self.find(id);
        let own: Option<Ticks> = if i < self.cleared.len() {
            Some(self.cleared[i].1)
        } else {
            None
        };
        let by_hand = later_of(own, self.all_at);
        match keep {
            Some(k) => {
                let edge: i128 = now as i128 - k as i128 - fade as i128;
                later_of(by_hand, Some(edge as i64))
            },
            None => by_hand,
        }
    }
}

/// A pair with a key that is there replaces what is there.
proof fn as_map_updates(s: Seq<(u64, Ticks)>, i: int, t: Ticks)
    requires
        unique(s),
        0 <= i < s.len(),
    ensures
        as_map(s.update(i, (s[i].0, t))) =~= as_map(s).insert(s[i].0, t),
        unique(s.update(i, (s[i].0, t))),
    decreases s.len(),
{
    let u = s.update(i, (s[i].0, t));
    if i == 0 {
        assert(u.drop_first() == s.drop_first());
    } else {
        let rest = s.drop_first();
        assert(unique(rest)) by {
            assert forall|a: int, b: int| 0 <= a < b < rest.len() implies (#[trigger] rest[a]).0 != (
            #[trigger] rest[b]).0 by {
                assert(s[a + 1].0 != s[b + 1].0);
            }
        }
        as_map_updates(rest, i - 1, t);
        assert(u.drop_first() == rest.update(i - 1, (rest[i - 1].0, t)));
        assert(s[0].0 != s[i].0);
    }
}

/// Clearing everything and then putting the clock back before it brings it all
/// back.
pub proof fn putting_the_clock_back_undoes_a_clear(at: Ticks, now: Ticks, id: u64)
    requires
        now < at,
    ensures
        (ClearsView { cleared: Map::empty(), all_at: Some(at) }).without_stale(now).by_hand(id) is None,
{
}

/// Clearing one channel leaves the rest of the band alone.
pub proof fn clearing_one_leaves_the_rest(c: ClearsView, id: u64, other: u64, now: Ticks)
    requires
        id != other,
    ensures
        (ClearsView { cleared: c.cleared.insert(id, now), ..c }).by_hand(other) == c.by_hand(other),
        (ClearsView { cleared: c.cleared.insert(id, now), ..c }).by_hand(id)->0 >= now,
{
}

/// How solidly text is drawn, as a fraction.
#[derive(Clone, Copy, Debug, PartialEq, Eq, Structural)]
pub struct Solidity {
    pub num: i64,
    pub den: i64,
}

/// How solidly text that arrived at `at` is drawn `now`: whole until it has been
/// on the row for `keep`, then fading to nothing over the next `fade`. Where
/// nothing is forgotten it is whole; where it is older than anything that has a
/// time it is gone.
pub open spec fn solid(now: Ticks, at: Option<Ticks>, keep: Option<Ticks>, fade: Ticks) -> Solidity {
    match (keep, at) {
        (None, _) => Solidity { num: 1, den: 1 },
        (_, None) => Solidity { num: 0, den: 1 },
        (Some(k), Some(t)) => {
            let over = now - t - k;
            if over <= 0 {
                Solidity { num: 1, den: 1 }
            } else if over >= fade {
                Solidity { num: 0, den: 1 }
            } else {
                Solidity { num: (fade - over) as i64, den: fade }
            }
        },
    }
}

/// How solidly text that arrived at `at` is drawn `now`.
///
/// Ages are on the audio clock: what makes text stale is how long ago the
/// station sent it.
pub fn solidity(now: Ticks, at: Option<Ticks>, keep: Option<Ticks>, fade: Ticks) -> (s: Solidity)
    ensures
        s == solid(now, at, keep, fade),
        0 <= s.num <= s.den,
        0 < s.den,
{
    match (keep, at) {
        (None, _) => Solidity { num: 1, den: 1 },
        (_, None) => Solidity { num: 0, den: 1 },
        (Some(k), Some(t)) => {
            let over: i128 = since(now, t) - k as i128;
            if over <= 0 {
                Solidity { num: 1, den: 1 }
            } else if over >= fade as i128 {
                Solidity { num: 0, den: 1 }
            } else {
                Solidity { num: (fade as i128 - over) as i64, den: fade }
            }
        },
    }
}

/// Text never grows more solid as time goes by.
pub proof fn text_only_fades(then: Ticks, now: Ticks, at: Option<Ticks>, keep: Option<Ticks>, fade: Ticks)
    requires
        then <= now,
    ensures
        solid(now, at, keep, fade).num * solid(then, at, keep, fade).den <= solid(then, at, keep, fade).num * solid(
            now,
            at,
            keep,
            fade,
        ).den,
{
    let a = solid(then, at, keep, fade);
    let b = solid(now, at, keep, fade);
    if a.den == b.den {
        assert(b.num * a.den <= a.num * b.den) by (nonlinear_arith)
            requires
                b.num <= a.num,
                a.den == b.den,
                a.den > 0,
        ;
    } else {
        assert(b.num * a.den <= a.num * b.den) by (nonlinear_arith)
            requires
                a.num == a.den || b.num == 0,
                0 <= b.num <= b.den,
                0 <= a.num <= a.den,
                a.den > 0,
                b.den > 0,
        ;
    }
}

/// Text is gone from the row exactly when it has finished fading: what the
/// timeout's cut forgets is what is drawn as nothing, and nothing else.
pub proof fn text_is_forgotten_once_it_has_faded(now: Ticks, at: Ticks, keep: Ticks, fade: Ticks)
    requires
        keep >= 0,
        fade > 0,
        i64::MIN <= now - keep - fade <= i64::MAX,
    ensures
        solid(now, Some(at), Some(keep), fade).num == 0 <==> at <= ClearsView::nothing().cut(
            0,
            now,
            Some(keep),
            fade,
        )->0,
{
}

} // verus!
