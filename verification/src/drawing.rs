//! What of a channel is drawn on its row.

use crate::channel::{Channel, ChannelView};
use crate::channel_laws::{covered, the_tail_divides_without_gaps};
use crate::modes::Ticks;
use crate::rows::{solid, solidity, Solidity};
use crate::text::{from_chars, to_chars};
use vstd::prelude::*;

verus! {

/// How long a row stays lit after something arrives on it.
pub const HIGHLIGHT_SECS: Ticks = 30_000_000;

/// How many characters fit to the left of the strip, in text so large; at least
/// one. A character is six tenths as wide as the text is tall, and a margin of
/// eight points is left.
pub fn max_chars(strip_x0: i64, text_px: i64) -> (n: usize)
    requires
        8_000 <= text_px <= 22_000,
        strip_x0 <= 0xffff_ffff,
        strip_x0 >= -0x1_0000_0000_0000,
    ensures
        n == if (strip_x0 - 8_000) * 10 < 6 * text_px {
            1
        } else {
            (strip_x0 - 8_000) * 10 / (6 * text_px)
        },
        n >= 1,
{
    let room: i64 = (strip_x0 - 8_000) * 10;
    let each: i64 = 6 * text_px;
    if room < each {
        return 1;
    }
    assert(1 <= room / each <= 0xffff_ffff) by (nonlinear_arith)
        requires
            each >= 48_000,
            each <= room <= 0xffff_ffff * 10,
    ;
    (room / each) as usize
}

/// How lit a row is, of 1, if it is at all: it fades over [`HIGHLIGHT_SECS`] of
/// life from when the last of its newest text had been sent. `speed` is in
/// thousandths of life.
pub fn highlight(now: Ticks, sent: Ticks, speed: u32) -> (lit: Option<Solidity>)
    requires
        speed > 0,
    ensures
        lit is Some <==> 0 <= (now - sent) * 1000 < HIGHLIGHT_SECS * speed,
        lit is Some <==> now >= sent && (now - sent) * 1000 < 30_000_000 * speed,
        lit matches Some(s) ==> s.den == HIGHLIGHT_SECS * speed && s.num == s.den - (now - sent) * 1000,
{
    let age: i128 = (now as i128 - sent as i128) * 1000;
    let whole: i64 = HIGHLIGHT_SECS * speed as i64;
    if age < 0 || age >= whole as i128 {
        return None;
    }
    Some(Solidity { num: whole - age as i64, den: whole })
}

/// A stretch of a row's text of one age.
#[derive(Debug)]
pub struct Stretch {
    pub text: String,
    /// How solid it is drawn.
    pub solid: Solidity,
}

/// The place of the first character that is drawn, of a row that draws the last
/// `n`.
pub open spec fn tail_from(c: ChannelView, n: usize) -> int {
    c.next_index() - (if n < c.text.len() { n as int } else { c.text.len() as int })
}

/// What stretches say, one after the other.
pub open spec fn said(stretches: Seq<Stretch>) -> Seq<char>
    decreases stretches.len(),
{
    if stretches.len() == 0 {
        Seq::empty()
    } else {
        said(stretches.drop_last()) + stretches.last().text@
    }
}

/// A row in stretches of one age, oldest first, so that the front of it can fade
/// off while the station carries on talking at the other end: the last `n`
/// characters of it, or all where it has fewer.
pub fn stretches(ch: &Channel, n: usize, now: Ticks, keep: Option<Ticks>, fade: Ticks) -> (out: Vec<Stretch>)
    requires
        ch@.wf(),
    ensures
        said(out@) == ch@.text.skip(tail_from(ch@, n) - ch@.text_dropped),
        out@.len() == ch@.ages_from(tail_from(ch@, n)).len(),
        forall|i: int|
            0 <= i < out@.len() ==> {
                let run = ch@.ages_from(tail_from(ch@, n))[i];
                &&& (#[trigger] out@[i]).text@.len() == run.0
                &&& out@[i].solid == solid(now, run.1, keep, fade)
            },
{
    let runs = ch.tail_ages(n);
    let chars = to_chars(ch.text.as_str());
    let held: usize = chars.len();
    let start: usize = if n < held { held - n } else { 0 };
    let ghost all = runs@;
    proof {
        the_tail_divides_without_gaps(ch@, tail_from(ch@, n));
        assert(start == tail_from(ch@, n) - ch@.text_dropped);
        assert(covered(all) == held - start);
    }
    let mut out: Vec<Stretch> = Vec::new();
    let mut at: usize = start;
    let mut i: usize = 0;
    assert(ch@.text.subrange(start as int, at as int) == Seq::<char>::empty());
    proof {
        assert(all.skip(0) == all);
    }
    while i < runs.len()
        invariant
            runs@ == all,
            chars@ == ch@.text,
            held == chars@.len(),
            start <= at <= held,
            0 <= i <= all.len(),
            covered(all.skip(i as int)) == held - at,
            out@.len() == i,
            said(out@) == ch@.text.subrange(start as int, at as int),
            forall|k: int|
                0 <= k < i ==> {
                    &&& (#[trigger] out@[k]).text@.len() == all[k].0
                    &&& out@[k].solid == solid(now, all[k].1, keep, fade)
                },
        decreases all.len() - i,
    {
        let (len, age) = runs[i];
        proof {
            first_run(all.skip(i as int));
            assert(all.skip(i as int).drop_first() == all.skip(i + 1));
            assert(all.skip(i as int)[0] == all[i as int]);
        }
        let end: usize = at + len;
        let text = from_chars(&chars, at, end);
        let ghost before = out@;
        out.push(Stretch { text, solid: solidity(now, age, keep, fade) });
        proof {
            assert(out@.drop_last() == before);
            assert(ch@.text.subrange(start as int, at as int) + ch@.text.subrange(at as int, end as int)
                == ch@.text.subrange(start as int, end as int));
        }
        at = end;
        i += 1;
    }
    proof {
        assert(all.skip(i as int) == Seq::<(usize, Option<Ticks>)>::empty());
        assert(ch@.text.subrange(start as int, held as int) == ch@.text.skip(start as int));
    }
    out
}

/// What runs cover is what the first covers and what the rest do.
proof fn first_run(runs: Seq<(usize, Option<Ticks>)>)
    requires
        runs.len() > 0,
    ensures
        covered(runs) == runs[0].0 + covered(runs.drop_first()),
{
}

} // verus!
