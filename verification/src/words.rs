//! What the window says: the status line, the cards and the labels.

use crate::calendar::{clock, clock_text, hms, hms_text, utc_stamp};
use crate::modes::{MilliHz, Ticks, SAMPLE_RATE};
use crate::text::{decimal, push_decimal, push_tenths, push_whole, tenths_text, whole_text};
use vstd::prelude::*;

verus! {

/// A number's sign, where it has none of its own.
pub open spec fn plus(v: int) -> Seq<char> {
    if v < 0 {
        Seq::empty()
    } else {
        "+"@
    }
}

/// A signed number in units of `unit`, to the nearest whole one.
fn push_signed_whole(out: &mut String, v: i64, unit: u64)
    requires
        unit > 1,
    ensures
        final(out)@ == old(out)@ + plus(v as int) + whole_text(v as int, unit as nat),
{
    if v >= 0 {
        out.append("+");
    }
    push_whole(out, v, unit);
}

/// A signed number in units of ten times `tenth`, to the nearest tenth.
fn push_signed_tenths(out: &mut String, v: i64, tenth: u64)
    requires
        tenth > 1,
    ensures
        final(out)@ == old(out)@ + plus(v as int) + tenths_text(v as int, tenth as nat),
{
    if v >= 0 {
        out.append("+");
    }
    push_tenths(out, v, tenth);
}

/// How many threads there are.
pub open spec fn threads_text(n: nat) -> Seq<char> {
    decimal(n) + " thread"@ + (if n == 1 { Seq::empty() } else { "s"@ })
}

/// How many threads the band carries, for the status line. Nothing where nothing
/// is loaded, and marked as not final while a scan is still running.
pub fn thread_count(live: bool, loaded: bool, pending_scans: usize, threads: usize) -> (s: String)
    ensures
        s@ == if !live && !loaded {
            Seq::empty()
        } else if !live && pending_scans > 0 {
            "⏳ "@ + threads_text(threads as nat)
        } else {
            threads_text(threads as nat)
        },
{
    let mut s = String::new();
    if !live && !loaded {
        return s;
    }
    if !live && pending_scans > 0 {
        s.append("⏳ ");
    }
    push_decimal(&mut s, threads as u64);
    s.append(" thread");
    if threads != 1 {
        s.append("s");
    }
    s
}

/// Where the pointer is on the band.
pub fn cursor_text(hz: Option<MilliHz>) -> (s: String)
    ensures
        s@ == match hz {
            Some(f) => tenths_text(f as int, 100) + " Hz"@,
            None => Seq::empty(),
        },
{
    let mut s = String::new();
    if let Some(f) = hz {
        push_tenths(&mut s, f as i64, 100);
        s.append(" Hz");
    }
    s
}

/// What the status line ends with.
#[derive(Debug)]
pub enum Saying {
    /// Something went wrong.
    Bad(String),
    /// Something happened.
    Good(String),
    /// The file being read, with nothing else to say.
    Source(String),
    Nothing,
}

/// What the status line ends with: the last note, marked where something went
/// wrong; without one, the file being read. Live, the toolbar names the device.
pub fn last_word(note: &Option<String>, bad: bool, live: bool, source: &str) -> (s: Saying)
    ensures
        match note {
            Some(n) => if bad {
                s is Bad && s->Bad_0@ == "⚠ "@ + n@
            } else {
                s is Good && s->Good_0@ == n@
            },
            None => if !live && source@.len() > 0 {
                s is Source && s->Source_0@ == source@
            } else {
                s is Nothing
            },
        },
{
    match note {
        Some(n) => {
            if bad {
                let mut t = "⚠ ".to_owned();
                t.append(n.as_str());
                Saying::Bad(t)
            } else {
                Saying::Good(n.clone())
            }
        },
        None => {
            if !live && source.unicode_len() > 0 {
                Saying::Source(source.to_owned())
            } else {
                Saying::Nothing
            }
        },
    }
}

/// Short status of the capture: what went wrong, or its rate in samples a
/// second.
pub fn device_label(err: &Option<String>, in_rate: Option<u32>) -> (s: String)
    ensures
        s@ == match err {
            Some(e) => "audio error: "@ + e@,
            None => match in_rate {
                Some(r) => "LIVE "@ + tenths_text(r as int, 100) + " kHz"@,
                None => "LIVE"@,
            },
        },
{
    match err {
        Some(e) => {
            let mut s = "audio error: ".to_owned();
            s.append(e.as_str());
            s
        },
        None => match in_rate {
            Some(r) => {
                let mut s = "LIVE ".to_owned();
                push_tenths(&mut s, r as i64, 100);
                s.append(" kHz");
                s
            },
            None => "LIVE".to_owned(),
        },
    }
}

/// How long a recording is and how large.
pub fn recording_text(t: Ticks, bytes: u64) -> (s: String)
    requires
        bytes <= i64::MAX,
    ensures
        s@ == hms_text(t) + " · "@ + whole_text(bytes as int, 1_000_000) + " MB"@,
{
    let mut s = hms(t);
    s.append(" · ");
    push_whole(&mut s, bytes as i64, 1_000_000);
    s.append(" MB");
    s
}

/// Why a file is not played, if it is not: every mode is defined by how long its
/// symbols last, so the wrong rate is the wrong protocol.
pub fn wrong_rate(name: &str, rate: u32) -> (why: Option<String>)
    ensures
        why is None <==> rate == SAMPLE_RATE,
        why matches Some(w) ==> w@ == name@ + " is "@ + decimal(rate as nat)
            + " Hz; ragchew needs 12000 Hz mono (ffmpeg -i in -ac 1 -ar 12000 out.wav)"@,
{
    if rate as usize == SAMPLE_RATE {
        return None;
    }
    let mut w = name.to_owned();
    w.append(" is ");
    push_decimal(&mut w, rate as u64);
    w.append(" Hz; ragchew needs 12000 Hz mono (ffmpeg -i in -ac 1 -ar 12000 out.wav)");
    Some(w)
}

/// Where a station is and how far it has wandered.
pub fn carrier_text(hz: MilliHz, drift: i64) -> (s: String)
    ensures
        s@ == tenths_text(hz as int, 100) + " Hz   "@ + plus(drift as int) + tenths_text(drift as int, 100)
            + " Hz drift"@,
{
    let mut s = String::new();
    push_tenths(&mut s, hz as i64, 100);
    s.append(" Hz   ");
    push_signed_tenths(&mut s, drift, 100);
    s.append(" Hz drift");
    s
}

/// How strong a station is, where that could be measured.
pub fn snr_text(now: Option<i32>, best: Option<i32>) -> (s: String)
    ensures
        s@ == match (now, best) {
            (Some(n), Some(b)) => "SNR "@ + plus(n as int) + whole_text(n as int, 1_000) + " dB (best "@ + plus(b as int)
                + whole_text(b as int, 1_000) + ")"@,
            _ => "SNR not measured"@,
        },
{
    match (now, best) {
        (Some(n), Some(b)) => {
            let mut s = "SNR ".to_owned();
            push_signed_whole(&mut s, n as i64, 1_000);
            s.append(" dB (best ");
            push_signed_whole(&mut s, b as i64, 1_000);
            s.append(")");
            s
        },
        _ => "SNR not measured".to_owned(),
    }
}

/// How sure the decoder is, in multiples of the mode's noise floor.
pub fn confidence_text(quality: i32, best: i32) -> (s: String)
    ensures
        s@ == "confidence ×"@ + tenths_text(quality as int, 100) + " of the mode's noise floor (best ×"@
            + tenths_text(best as int, 100) + ")"@,
{
    let mut s = "confidence ×".to_owned();
    push_tenths(&mut s, quality as i64, 100);
    s.append(" of the mode's noise floor (best ×");
    push_tenths(&mut s, best as i64, 100);
    s.append(")");
    s
}

/// From the start of the first decode of a station to the end of the last, which
/// lasts `chunk`, kept to what can be counted.
pub fn heard_for(first: Ticks, last: Ticks, chunk: u32) -> (t: Ticks)
    ensures
        ({
            let exact = last - first + chunk;
            t == if exact > i64::MAX {
                i64::MAX as int
            } else if exact < i64::MIN {
                i64::MIN as int
            } else {
                exact
            }
        }),
{
    let exact: i128 = last as i128 - first as i128 + chunk as i128;
    if exact > i64::MAX as i128 {
        i64::MAX
    } else if exact < i64::MIN as i128 {
        i64::MIN
    } else {
        exact as i64
    }
}

/// How much has been heard of a station: its decodes, and from the start of the
/// first to the end of the last.
pub fn heard_text(chunks: usize, heard: Ticks) -> (s: String)
    ensures
        s@ == decimal(chunks as nat) + " decode"@ + (if chunks == 1 { Seq::empty() } else { "s"@ }) + " · "@
            + tenths_text(heard as int, 1_200_000) + " s of audio"@,
{
    let mut s = String::new();
    push_decimal(&mut s, chunks as u64);
    s.append(" decode");
    if chunks != 1 {
        s.append("s");
    }
    s.append(" · ");
    push_tenths(&mut s, heard, 1_200_000);
    s.append(" s of audio");
    s
}

/// Which row is to be cleared.
pub fn row_title(mode: &str, hz: MilliHz) -> (s: String)
    ensures
        s@ == mode@ + " at "@ + whole_text(hz as int, 1_000) + " Hz"@,
{
    let mut s = mode.to_owned();
    s.append(" at ");
    push_whole(&mut s, hz as i64, 1_000);
    s.append(" Hz");
    s
}

/// A conversation's signal: where it is on the band, if that is known, then the
/// audio offset, how far it has wandered, how strong it is, and how sure the
/// decoder is.
pub fn signal_text(on_band: &Option<String>, hz: MilliHz, drift: i64, snr: Option<i32>, quality: i32) -> (s: String)
    ensures
        s@ == (match on_band {
            Some(b) => b@ + "  "@,
            None => Seq::empty(),
        }) + whole_text(hz as int, 1_000) + " Hz  "@ + plus(drift as int) + tenths_text(drift as int, 100)
            + " drift  "@ + (match snr {
            Some(db) => plus(db as int) + whole_text(db as int, 1_000) + " dB"@,
            None => "— dB"@,
        }) + "  ×"@ + tenths_text(if quality > 0 { quality as int } else { 0 }, 100),
{
    let mut s = String::new();
    if let Some(b) = on_band {
        s.append(b.as_str());
        s.append("  ");
    }
    push_whole(&mut s, hz as i64, 1_000);
    s.append(" Hz  ");
    push_signed_tenths(&mut s, drift, 100);
    s.append(" drift  ");
    let ghost before = s@;
    match snr {
        Some(db) => {
            push_signed_whole(&mut s, db as i64, 1_000);
            s.append(" dB");
            assert(s@ =~= before + (plus(db as int) + whole_text(db as int, 1_000) + " dB"@));
        },
        None => {
            s.append("— dB");
        },
    }
    s.append("  ×");
    push_tenths(&mut s, if quality > 0 { quality as i64 } else { 0 }, 100);
    s
}

/// When what is sent will go out: behind what is going out, on the mode's next
/// cycle, or at once.
pub fn send_hint(period_s: Option<u32>, busy: bool) -> (s: String)
    ensures
        s@ == if busy {
            "Enter, or click. Queued behind what is going out."@
        } else {
            match period_s {
                Some(p) => "Enter, or click. Goes out on the next "@ + decimal(p as nat) + " s cycle."@,
                None => "Enter, or click. Goes out immediately."@,
            }
        },
{
    if busy {
        return "Enter, or click. Queued behind what is going out.".to_owned();
    }
    match period_s {
        Some(p) => {
            let mut s = "Enter, or click. Goes out on the next ".to_owned();
            push_decimal(&mut s, p as u64);
            s.append(" s cycle.");
            s
        },
        None => "Enter, or click. Goes out immediately.".to_owned(),
    }
}

/// How long the transmitter will be busy, while it is.
pub fn busy_text(busy: Ticks) -> (s: Option<String>)
    ensures
        s is Some <==> busy > 0,
        s matches Some(t) ==> t@ == "TX "@ + whole_text(busy as int, 12_000_000) + " s"@,
{
    if busy > 0 {
        let mut t = "TX ".to_owned();
        push_whole(&mut t, busy, 12_000_000);
        t.append(" s");
        Some(t)
    } else {
        None
    }
}

/// A time in a log, from the start of its conversation, set in a column.
pub open spec fn offset_text(t: Ticks) -> Seq<char> {
    let c = clock_text(t);
    "+"@ + (if c.len() < 6 {
        Seq::new((6 - c.len()) as nat, |i: int| ' ')
    } else {
        Seq::empty()
    }) + c
}

/// A time in a log, from the start of its conversation, set in a column.
pub fn offset(t: Ticks) -> (s: String)
    ensures
        s@ == offset_text(t),
{
    let c = clock(t);
    let n: usize = c.as_str().unicode_len();
    assert(n == c@.len());
    let mut s = "+".to_owned();
    let ghost before = s@;
    let mut i: usize = n;
    while i < 6
        invariant
            n <= i,
            n < 6 ==> i <= 6,
            n >= 6 ==> i == n,
            s@ == before + Seq::new((i - n) as nat, |k: int| ' '),
        decreases 6 - i,
    {
        s.push(' ');
        i += 1;
        assert(s@ =~= before + Seq::new((i - n) as nat, |k: int| ' '));
    }
    s.append(c.as_str());
    assert(s@ =~= offset_text(t));
    s
}

/// Clock times, with commas between.
pub open spec fn times_text(times: Seq<Ticks>) -> Seq<char>
    decreases times.len(),
{
    if times.len() == 0 {
        Seq::empty()
    } else if times.len() == 1 {
        clock_text(times[0])
    } else {
        times_text(times.drop_last()) + ", "@ + clock_text(times.last())
    }
}

/// When the frames of a log entry began, from the start of its conversation, if
/// it has more than one.
pub fn frames_text(first: Ticks, rest: &Vec<Ticks>) -> (s: Option<String>)
    requires
        rest@.len() < usize::MAX,
    ensures
        s is Some <==> rest@.len() > 0,
        s matches Some(t) ==> t@ == decimal((rest@.len() + 1) as nat) + " frames — this one began at "@ + clock_text(
            first,
        ) + ", the rest at "@ + times_text(rest@),
{
    let n: usize = rest.len();
    if n == 0 {
        return None;
    }
    let mut s = String::new();
    push_decimal(&mut s, n as u64 + 1);
    s.append(" frames — this one began at ");
    s.append(clock(first).as_str());
    s.append(", the rest at ");
    let ghost before = s@;
    let mut i: usize = 0;
    assert(times_text(rest@.take(0)) == Seq::<char>::empty());
    while i < n
        invariant
            n == rest@.len(),
            0 <= i <= n,
            s@ == before + times_text(rest@.take(i as int)),
        decreases n - i,
    {
        let ghost done = rest@.take(i as int);
        if i > 0 {
            s.append(", ");
        }
        s.append(clock(rest[i]).as_str());
        i += 1;
        assert(rest@.take(i as int).drop_last() == done);
        assert(s@ =~= before + times_text(rest@.take(i as int)));
    }
    assert(rest@.take(n as int) == rest@);
    Some(s)
}

/// When a conversation started, and how long ago that was.
pub fn started_text(started_utc: i64, elapsed: Ticks) -> (s: String)
    ensures
        exists|stamp: Seq<char>|
            s@ == #[trigger] (stamp + "  +"@) + clock_text(elapsed) && crate::calendar::stamped(started_utc, stamp),
{
    let mut s = utc_stamp(started_utc);
    let ghost stamp = s@;
    s.append("  +");
    s.append(clock(elapsed).as_str());
    assert(s@ =~= (stamp + "  +"@) + clock_text(elapsed));
    s
}

/// A time in a log is set in a column: a plus, then at least six characters, of which
/// the clock's are the last and the rest are blank.
pub proof fn times_are_set_in_a_column(t: Ticks)
    ensures
        ({
            let s = offset_text(t);
            let c = clock_text(t);
            &&& s.len() >= 7
            &&& s[0] == '+'
            &&& s.skip(s.len() - c.len()) == c
            &&& forall|i: int| 1 <= i < s.len() - c.len() ==> #[trigger] s[i] == ' '
            &&& s.len() == 7 || s.len() == c.len() + 1
        }),
{
    reveal_strlit("+");
}

/// There is one thread, or there are threads.
pub proof fn one_thread_or_threads(n: nat)
    ensures
        n == 1 <==> threads_text(n) == decimal(n) + seq![' ', 't', 'h', 'r', 'e', 'a', 'd'],
        n != 1 ==> threads_text(n) == decimal(n) + seq![' ', 't', 'h', 'r', 'e', 'a', 'd', 's'],
{
    reveal_strlit(" thread");
    reveal_strlit("s");
    let one = decimal(n) + seq![' ', 't', 'h', 'r', 'e', 'a', 'd'];
    if n == 1 {
        assert(threads_text(n) == one);
    } else {
        assert(threads_text(n) == decimal(n) + seq![' ', 't', 'h', 'r', 'e', 'a', 'd', 's']);
        assert(threads_text(n).len() == one.len() + 1);
    }
}

/// A number that is not negative is given a plus, and one that is has its own sign.
pub proof fn a_number_has_one_sign(v: int)
    ensures
        v >= 0 ==> plus(v) == seq!['+'],
        v < 0 ==> plus(v).len() == 0,
{
    reveal_strlit("+");
    assert("+"@ == seq!['+']);
}

} // verus!
