//! Noticing a row that loses the text it had.
//!
//! A row that clears and fills in again is a fault nobody can catch by eye, so a
//! note is kept of each row as it was last drawn, and a remark made when text
//! goes off a row that stayed, when a row returns after a gap the eye would see,
//! and when a station comes back under a new channel.

use crate::find::{filter_ends, filter_one_more, first_where, first_where_is};
use crate::modes::{apart, hz_apart, since, MilliHz, ModeId, Ticks, SECOND};
use crate::text::{decimal, push_decimal, push_tenths, push_whole, tenths_text, whole_text};
use vstd::prelude::*;

verus! {

/// How long a row is remembered after it stops being drawn.
pub const ROW_MEMORY_S: Ticks = 1_440_000_000;

/// Longest a row may be missing before its return is worth remarking on.
pub const ROW_BLINK_S: Ticks = 6_000_000;

/// Fewest characters that a row must have drawn for their going to be remarked
/// on.
pub const WORTH_NOTICING: usize = 8;

/// One row as it is drawn this frame.
#[derive(Clone, Copy, Debug, PartialEq, Eq, Structural)]
pub struct RowNow {
    pub id: u64,
    pub hz: MilliHz,
    pub mode: ModeId,
    /// Characters put on the row.
    pub drawn: usize,
    /// Characters the channel holds, which is more than fits.
    pub held: usize,
    /// Where the row is, in thousandths of a pixel.
    pub y: i64,
    /// What the row is shifted right by, in thousandths of a pixel.
    pub offset: i64,
    /// The instant text is being forgotten before, if it is.
    pub cut: Option<Ticks>,
    /// The oldest text the channel still has a time for.
    pub oldest: Option<Ticks>,
}

/// What a row looked like when it was last on screen.
#[derive(Clone, Copy, Debug, PartialEq, Eq, Structural)]
pub struct RowSeen {
    pub hz: MilliHz,
    pub mode: ModeId,
    pub drawn: usize,
    pub held: usize,
    /// When it was last drawn, on the wall clock.
    pub at: Ticks,
    /// When it was last remarked on, on the wall clock.
    pub said_at: Option<Ticks>,
}

/// Something worth saying of a row.
#[derive(Clone, Copy, Debug, PartialEq, Eq, Structural)]
pub enum Remark {
    /// Text went off a row that stayed put.
    LostText { row: RowNow, drew: usize, had: usize },
    /// A row went away and came back.
    Back { row: RowNow, away: Ticks, drew: usize, had: usize },
    /// The same station, a different channel.
    Reborn { row: RowNow, old_id: u64, ago: Ticks, drew: usize },
}

/// The rows that are remembered, by channel.
pub type Seen = Seq<(u64, RowSeen)>;

/// Whether a note is a channel's.
pub open spec fn note_of(id: u64) -> spec_fn((u64, RowSeen)) -> bool {
    |n: (u64, RowSeen)| n.0 == id
}

/// What is remembered of a channel.
pub open spec fn remembered(seen: Seen, id: u64) -> Option<RowSeen> {
    let i = first_where(seen, note_of(id));
    if i < seen.len() {
        Some(seen[i].1)
    } else {
        None
    }
}

/// Whether a channel is on show.
pub open spec fn on_show(rows: Seq<RowNow>, id: u64) -> bool {
    exists|i: int| 0 <= i < rows.len() && (#[trigger] rows[i]).id == id
}

/// Whether a note is of the station that a new row is: of the same protocol, at
/// the same place on the band, and gone from the screen.
pub open spec fn was_once(rows: Seq<RowNow>, r: RowNow) -> spec_fn((u64, RowSeen)) -> bool {
    |n: (u64, RowSeen)|
        n.1.mode.protocol == r.mode.protocol && hz_apart(n.1.hz, r.hz) <= r.mode.assoc_tol && !on_show(rows, n.0)
}

/// A length of time cut to what can be counted.
pub open spec fn span(from: Ticks, to: Ticks) -> Ticks {
    if to - from > i64::MAX {
        i64::MAX
    } else if to - from < i64::MIN {
        i64::MIN
    } else {
        (to - from) as i64
    }
}

/// What there is to say of a row, if anything.
pub open spec fn remark(seen: Seen, rows: Seq<RowNow>, r: RowNow, wall: Ticks) -> Option<Remark> {
    match remembered(seen, r.id) {
        Some(w) => if w.drawn >= WORTH_NOTICING && 2 * r.drawn <= w.drawn {
            Some(Remark::LostText { row: r, drew: w.drawn, had: w.held })
        } else if wall - w.at > ROW_BLINK_S {
            Some(Remark::Back { row: r, away: span(w.at, wall), drew: w.drawn, had: w.held })
        } else {
            None
        },
        None => {
            let i = first_where(seen, was_once(rows, r));
            if i < seen.len() {
                Some(
                    Remark::Reborn {
                        row: r,
                        old_id: seen[i].0,
                        ago: span(seen[i].1.at, wall),
                        drew: seen[i].1.drawn,
                    },
                )
            } else {
                None
            }
        },
    }
}

/// Whether a row has been quiet for long enough to be remarked on: one remark a
/// second, so that a row that flaps does not bury the rest.
pub open spec fn may_speak(was: Option<RowSeen>, wall: Ticks) -> bool {
    match was {
        Some(w) => match w.said_at {
            Some(t) => wall - t >= SECOND,
            None => true,
        },
        None => true,
    }
}

/// Whether a row is remarked on.
pub open spec fn speaks(seen: Seen, rows: Seq<RowNow>, r: RowNow, wall: Ticks) -> bool {
    remark(seen, rows, r, wall) is Some && may_speak(remembered(seen, r.id), wall)
}

/// The note that is kept of a row.
pub open spec fn note(seen: Seen, rows: Seq<RowNow>, r: RowNow, wall: Ticks) -> RowSeen {
    RowSeen {
        hz: r.hz,
        mode: r.mode,
        drawn: r.drawn,
        held: r.held,
        at: wall,
        said_at: if speaks(seen, rows, r, wall) {
            Some(wall)
        } else {
            match remembered(seen, r.id) {
                Some(w) => w.said_at,
                None => None,
            }
        },
    }
}

/// What is remembered once a row has been looked at.
pub open spec fn noted(seen: Seen, rows: Seq<RowNow>, r: RowNow, wall: Ticks) -> Seen {
    let i = first_where(seen, note_of(r.id));
    let n = note(seen, rows, r, wall);
    if i < seen.len() {
        seen.update(i, (r.id, n))
    } else {
        seen.push((r.id, n))
    }
}

/// What is remembered once the first `k` rows have been looked at.
pub open spec fn noted_up_to(seen: Seen, rows: Seq<RowNow>, k: nat, wall: Ticks) -> Seen
    decreases k,
{
    if k == 0 {
        seen
    } else {
        noted(noted_up_to(seen, rows, (k - 1) as nat, wall), rows, rows[k - 1], wall)
    }
}

/// What is said of the first `k` rows.
pub open spec fn said_up_to(seen: Seen, rows: Seq<RowNow>, k: nat, wall: Ticks) -> Seq<Remark>
    decreases k,
{
    if k == 0 {
        Seq::empty()
    } else {
        let front = said_up_to(seen, rows, (k - 1) as nat, wall);
        let before = noted_up_to(seen, rows, (k - 1) as nat, wall);
        if speaks(before, rows, rows[k - 1], wall) {
            front.push(remark(before, rows, rows[k - 1], wall)->0)
        } else {
            front
        }
    }
}

/// The notes that are still worth keeping.
pub open spec fn fresh_enough(wall: Ticks) -> spec_fn((u64, RowSeen)) -> bool {
    |n: (u64, RowSeen)| wall - n.1.at <= ROW_MEMORY_S
}

/// The rows as they were last drawn.
pub struct Watch {
    pub seen: Vec<(u64, RowSeen)>,
}

/// A length of time cut to what can be counted.
fn span_of(from: Ticks, to: Ticks) -> (d: Ticks)
    ensures
        d == span(from, to),
{
    let d: i128 = since(to, from);
    if d > i64::MAX as i128 {
        i64::MAX
    } else if d < i64::MIN as i128 {
        i64::MIN
    } else {
        d as i64
    }
}

impl Watch {
    /// Nothing seen yet.
    pub fn new() -> (w: Watch)
        ensures
            w.seen@.len() == 0,
    {
        Watch { seen: Vec::new() }
    }

    /// Where the note of a channel stands.
    fn find(&self, id: u64) -> (i: usize)
        ensures
            i == first_where(self.seen@, note_of(id)),
            i <= self.seen@.len(),
    {
        let ghost p = note_of(id);
        let mut i: usize = 0;
        while i < self.seen.len() && self.seen[i].0 != id
            invariant
                0 <= i <= self.seen@.len(),
                p == note_of(id),
                forall|j: int| 0 <= j < i ==> !p(#[trigger] self.seen@[j]),
            decreases self.seen.len() - i,
        {
            i += 1;
        }
        proof {
            first_where_is(self.seen@, p, i as int);
        }
        i
    }

    /// Where the note of the station that a new row is stands.
    fn find_once(&self, rows: &Vec<RowNow>, r: &RowNow) -> (i: usize)
        ensures
            i == first_where(self.seen@, was_once(rows@, *r)),
            i <= self.seen@.len(),
    {
        let ghost p = was_once(rows@, *r);
        let mut i: usize = 0;
        while i < self.seen.len()
            invariant
                0 <= i <= self.seen@.len(),
                p == was_once(rows@, *r),
                forall|j: int| 0 <= j < i ==> !p(#[trigger] self.seen@[j]),
            decreases self.seen.len() - i,
        {
            let n = self.seen[i];
            if n.1.mode.protocol == r.mode.protocol && apart(n.1.hz, r.hz) <= r.mode.assoc_tol as i64
                && !shows(rows, n.0) {
                assert(p(self.seen@[i as int]));
                proof {
                    first_where_is(self.seen@, p, i as int);
                }
                return i;
            }
            i += 1;
        }
        proof {
            first_where_is(self.seen@, p, i as int);
        }
        i
    }

    /// What there is to say of a row, if anything.
    fn consider(&self, rows: &Vec<RowNow>, r: &RowNow, wall: Ticks) -> (said: Option<Remark>)
        ensures
            said == remark(self.seen@, rows@, *r, wall),
    {
        let i: usize = self.find(r.id);
        if i < self.seen.len() {
            let w = self.seen[i].1;
            if w.drawn >= WORTH_NOTICING && r.drawn <= w.drawn / 2 {
                Some(Remark::LostText { row: *r, drew: w.drawn, had: w.held })
            } else if since(wall, w.at) > ROW_BLINK_S as i128 {
                Some(Remark::Back { row: *r, away: span_of(w.at, wall), drew: w.drawn, had: w.held })
            } else {
                None
            }
        } else {
            let k: usize = self.find_once(rows, r);
            if k < self.seen.len() {
                let n = self.seen[k];
                Some(
                    Remark::Reborn { row: *r, old_id: n.0, ago: span_of(n.1.at, wall), drew: n.1.drawn },
                )
            } else {
                None
            }
        }
    }

    /// Look at the rows as they are drawn at `wall`; get back what is worth
    /// saying of them.
    pub fn watch_rows(&mut self, rows: &Vec<RowNow>, wall: Ticks) -> (said: Vec<Remark>)
        ensures
            said@ == said_up_to(old(self).seen@, rows@, rows@.len(), wall),
            final(self).seen@ == noted_up_to(old(self).seen@, rows@, rows@.len(), wall).filter(
                fresh_enough(wall),
            ),
    {
        let mut said: Vec<Remark> = Vec::new();
        let mut i: usize = 0;
        while i < rows.len()
            invariant
                0 <= i <= rows@.len(),
                said@ == said_up_to(old(self).seen@, rows@, i as nat, wall),
                self.seen@ == noted_up_to(old(self).seen@, rows@, i as nat, wall),
            decreases rows.len() - i,
        {
            let r = rows[i];
            let k: usize = self.find(r.id);
            let was: Option<RowSeen> = if k < self.seen.len() {
                Some(self.seen[k].1)
            } else {
                None
            };
            let quiet_since: Option<Ticks> = match was {
                Some(w) => w.said_at,
                None => None,
            };
            let free = match quiet_since {
                Some(t) => since(wall, t) >= SECOND as i128,
                None => true,
            };
            let line = self.consider(rows, &r, wall);
            let said_at: Option<Ticks> = match line {
                Some(l) if free => {
                    said.push(l);
                    Some(wall)
                },
                _ => quiet_since,
            };
            let n = RowSeen { hz: r.hz, mode: r.mode, drawn: r.drawn, held: r.held, at: wall, said_at };
            if k < self.seen.len() {
                self.seen.set(k, (r.id, n));
            } else {
                self.seen.push((r.id, n));
            }
            i += 1;
        }
        self.forget_rows(wall);
        said
    }

    /// Forget the rows that have been gone for long.
    fn forget_rows(&mut self, wall: Ticks)
        ensures
            final(self).seen@ == old(self).seen@.filter(fresh_enough(wall)),
    {
        let ghost was = self.seen@;
        let ghost p = fresh_enough(wall);
        let mut kept: Vec<(u64, RowSeen)> = Vec::new();
        let mut i: usize = 0;
        proof {
            filter_ends(was, p);
        }
        while i < self.seen.len()
            invariant
                0 <= i <= self.seen@.len(),
                self.seen@ == was,
                p == fresh_enough(wall),
                kept@ == was.take(i as int).filter(p),
            decreases self.seen.len() - i,
        {
            proof {
                filter_one_more(was, p, i as int);
            }
            let n = self.seen[i];
            if since(wall, n.1.at) <= ROW_MEMORY_S as i128 {
                kept.push(n);
            }
            i += 1;
        }
        proof {
            filter_ends(was, p);
        }
        self.seen = kept;
    }
}

/// Whether a channel is on show.
fn shows(rows: &Vec<RowNow>, id: u64) -> (r: bool)
    ensures
        r == on_show(rows@, id),
{
    let mut i: usize = 0;
    while i < rows.len()
        invariant
            0 <= i <= rows@.len(),
            forall|j: int| 0 <= j < i ==> (#[trigger] rows@[j]).id != id,
        decreases rows.len() - i,
    {
        if rows[i].id == id {
            return true;
        }
        i += 1;
    }
    false
}

/// An instant in seconds, or a word where there is none.
pub open spec fn instant(t: Option<Ticks>, otherwise: Seq<char>) -> Seq<char> {
    match t {
        Some(t) => tenths_text(t as int, 1_200_000) + "s"@,
        None => otherwise,
    }
}

/// A remark as a line of the log, of a mode that goes by `name`.
pub open spec fn remark_text(r: Remark, name: Seq<char>) -> Seq<char> {
    match r {
        Remark::LostText { row, drew, had } => name + " "@ + whole_text(row.hz as int, 1000)
            + " Hz lost text on screen: "@ + decimal(row.drawn as nat) + " characters drawn where there were "@
            + decimal(drew as nat) + ", out of "@ + decimal(row.held as nat) + " the channel holds (it held "@
            + decimal(had as nat) + "); row y="@ + whole_text(row.y as int, 1000) + ", sliding "@ + whole_text(
            row.offset as int,
            1000,
        ) + " px, forgetting before "@ + instant(row.cut, "never"@) + " with its oldest text at "@ + instant(
            row.oldest,
            "none"@,
        ),
        Remark::Back { row, away, drew, had } => name + " "@ + whole_text(row.hz as int, 1000)
            + " Hz is back after "@ + tenths_text(away as int, 1_200_000) + "s off screen, drawing "@ + decimal(
            row.drawn as nat,
        ) + " characters where it drew "@ + decimal(drew as nat) + "; the channel holds "@ + decimal(
            row.held as nat,
        ) + " (it held "@ + decimal(had as nat) + "), forgetting before "@ + instant(row.cut, "never"@)
            + " with its oldest text at "@ + instant(row.oldest, "none"@),
        Remark::Reborn { row, old_id, ago, drew } => name + " "@ + whole_text(row.hz as int, 1000)
            + " Hz has come back as channel "@ + decimal(row.id as nat) + " where it was channel "@ + decimal(
            old_id as nat,
        ) + " "@ + tenths_text(ago as int, 1_200_000) + "s ago, so its text starts again: "@ + decimal(
            row.drawn as nat,
        ) + " characters drawn where that drew "@ + decimal(drew as nat),
    }
}

/// Write an instant in seconds, or a word where there is none.
fn push_instant(out: &mut String, t: Option<Ticks>, otherwise: &str)
    ensures
        final(out)@ == old(out)@ + instant(t, otherwise@),
{
    let ghost before = out@;
    match t {
        Some(t) => {
            push_tenths(out, t, 1_200_000);
            out.append("s");
        },
        None => {
            out.append(otherwise);
        },
    }
    assert(out@ =~= before + instant(t, otherwise@));
}

/// A remark as a line of the log, of a mode that goes by `name`.
pub fn remark_line(r: &Remark, name: &str) -> (line: String)
    ensures
        line@ == remark_text(*r, name@),
{
    let mut out = name.to_owned();
    out.append(" ");
    match r {
        Remark::LostText { row, drew, had } => {
            push_whole(&mut out, row.hz as i64, 1000);
            out.append(" Hz lost text on screen: ");
            push_decimal(&mut out, row.drawn as u64);
            out.append(" characters drawn where there were ");
            push_decimal(&mut out, *drew as u64);
            out.append(", out of ");
            push_decimal(&mut out, row.held as u64);
            out.append(" the channel holds (it held ");
            push_decimal(&mut out, *had as u64);
            out.append("); row y=");
            push_whole(&mut out, row.y, 1000);
            out.append(", sliding ");
            push_whole(&mut out, row.offset, 1000);
            out.append(" px, forgetting before ");
            push_instant(&mut out, row.cut, "never");
            out.append(" with its oldest text at ");
            push_instant(&mut out, row.oldest, "none");
        },
        Remark::Back { row, away, drew, had } => {
            push_whole(&mut out, row.hz as i64, 1000);
            out.append(" Hz is back after ");
            push_tenths(&mut out, *away, 1_200_000);
            out.append("s off screen, drawing ");
            push_decimal(&mut out, row.drawn as u64);
            out.append(" characters where it drew ");
            push_decimal(&mut out, *drew as u64);
            out.append("; the channel holds ");
            push_decimal(&mut out, row.held as u64);
            out.append(" (it held ");
            push_decimal(&mut out, *had as u64);
            out.append("), forgetting before ");
            push_instant(&mut out, row.cut, "never");
            out.append(" with its oldest text at ");
            push_instant(&mut out, row.oldest, "none");
        },
        Remark::Reborn { row, old_id, ago, drew } => {
            push_whole(&mut out, row.hz as i64, 1000);
            out.append(" Hz has come back as channel ");
            push_decimal(&mut out, row.id);
            out.append(" where it was channel ");
            push_decimal(&mut out, *old_id);
            out.append(" ");
            push_tenths(&mut out, *ago, 1_200_000);
            out.append("s ago, so its text starts again: ");
            push_decimal(&mut out, row.drawn as u64);
            out.append(" characters drawn where that drew ");
            push_decimal(&mut out, *drew as u64);
        },
    }
    out
}

/// A row that is drawn as it was, and without a gap, is not remarked on.
pub proof fn a_steady_row_goes_unremarked(seen: Seen, rows: Seq<RowNow>, r: RowNow, w: RowSeen, wall: Ticks)
    requires
        remembered(seen, r.id) == Some(w),
        r.drawn >= w.drawn,
        wall - w.at <= ROW_BLINK_S,
    ensures
        remark(seen, rows, r, wall) is None,
{
}

/// No row is remarked on twice within a second.
pub proof fn one_remark_a_second(seen: Seen, rows: Seq<RowNow>, r: RowNow, w: RowSeen, wall: Ticks)
    requires
        remembered(seen, r.id) == Some(w),
        w.said_at is Some,
        wall - w.said_at->0 < SECOND,
    ensures
        !speaks(seen, rows, r, wall),
        note(seen, rows, r, wall).said_at == w.said_at,
{
}

} // verus!
