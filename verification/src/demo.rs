//! The synthetic bands that the application can be pointed at, and how they are
//! laid out.
//!
//! Four of them, each built to show one thing, and [`Band`] is the list.

use crate::channel::{over_gap, over_gap_s};
use crate::modes::{MilliHz, ModeId, Ticks, SAMPLE, SAMPLE_RATE, SECOND};
use crate::text::{from_chars, skipped, spells, to_chars, trim, trimmed};
use vstd::prelude::*;

verus! {

/// One of the synthetic bands, as the command line and the Source menu offer it.
#[derive(Clone, Copy, Debug, PartialEq, Eq, Structural)]
pub enum Band {
    /// Three protocols at once, twelve stations.
    Demo,
    /// Olivia below the noise floor, plus the one station with no error
    /// correction.
    Weak,
    /// Olivia on top of itself, five modes, all read.
    Crowded,
    /// Three conversations, one path: what each mode costs in watts to hold.
    Signals,
}

impl Band {
    /// In the order the menu offers them.
    pub const ALL: [Band; 4] = [Band::Demo, Band::Weak, Band::Crowded, Band::Signals];

    /// What the menu calls it.
    pub fn label(self) -> (s: &'static str)
        ensures
            s@ == match self {
                Band::Demo => "Demo band"@,
                Band::Weak => "Weak-signal band"@,
                Band::Crowded => "Crowded band"@,
                Band::Signals => "Know-your-signals band"@,
            },
    {
        match self {
            Band::Demo => "Demo band",
            Band::Weak => "Weak-signal band",
            Band::Crowded => "Crowded band",
            Band::Signals => "Know-your-signals band",
        }
    }

    /// What a command line calls it, without dashes.
    pub open spec fn flag_text(self) -> Seq<char> {
        match self {
            Band::Demo => "demo"@,
            Band::Weak => "weak"@,
            Band::Crowded => "crowded"@,
            Band::Signals => "signals"@,
        }
    }

    /// What a command line calls it, without dashes.
    pub fn flag(self) -> (s: &'static str)
        ensures
            s@ == self.flag_text(),
    {
        match self {
            Band::Demo => "demo",
            Band::Weak => "weak",
            Band::Crowded => "crowded",
            Band::Signals => "signals",
        }
    }

    /// The band a [`flag`](Self::flag) names, whatever white space is around it
    /// and however many dashes are in front.
    pub fn from_flag(s: &str) -> (band: Option<Band>)
        ensures
            match band {
                Some(b) => bare_flag(s@) == b.flag_text(),
                None => forall|b: Band| bare_flag(s@) != #[trigger] b.flag_text(),
            },
    {
        let chars = trimmed(&to_chars(s));
        let ghost all = chars@;
        let mut n: usize = 0;
        assert(all.skip(0) == all);
        while n < chars.len() && chars[n] == '-'
            invariant
                chars@ == all,
                0 <= n <= all.len(),
                without_dashes(all) == without_dashes(all.skip(n as int)),
            decreases chars.len() - n,
        {
            assert(all.skip(n as int).drop_first() == all.skip(n + 1));
            n += 1;
        }
        let word = skipped(&chars, n);
        assert(word@ == bare_flag(s@));
        if spells(&word, "demo") {
            Some(Band::Demo)
        } else if spells(&word, "weak") {
            Some(Band::Weak)
        } else if spells(&word, "crowded") {
            Some(Band::Crowded)
        } else if spells(&word, "signals") {
            Some(Band::Signals)
        } else {
            None
        }
    }

    /// What the menu says of it.
    pub fn hover(self) -> (s: &'static str)
        ensures
            s@ == match self {
                Band::Demo => "twelve stations, all three protocols, one of them deliberately sharing a frequency with another"@,
                Band::Weak => "five Olivia stations below the noise floor — invisible on the waterfall and read anyway — and a PSK31 station four decibels down, which is as deep as a mode with no error correction goes"@,
                Band::Crowded => "five Olivia modes stacked on each other: two kilohertz-wide stations meeting in the middle, one buried inside the first, and two more piled across the seam. Every character of all five is recovered, on five separate threads"@,
                Band::Signals => "three QSOs side by side, one on each protocol, every over saying its own speed and how deep it hears. Each is a hundred-watt station worked by a quiet one, and the quiet one runs 20 W on PSK31, 5 W on Olivia and 2 W on JS8 — same path, same margin, the price of the mode"@,
            },
    {
        match self {
            Band::Demo => "twelve stations, all three protocols, one of them deliberately sharing a frequency with another",
            Band::Weak => "five Olivia stations below the noise floor — invisible on the waterfall and read anyway — and a PSK31 station four decibels down, which is as deep as a mode with no error correction goes",
            Band::Crowded => "five Olivia modes stacked on each other: two kilohertz-wide stations meeting in the middle, one buried inside the first, and two more piled across the seam. Every character of all five is recovered, on five separate threads",
            Band::Signals => "three QSOs side by side, one on each protocol, every over saying its own speed and how deep it hears. Each is a hundred-watt station worked by a quiet one, and the quiet one runs 20 W on PSK31, 5 W on Olivia and 2 W on JS8 — same path, same margin, the price of the mode",
        }
    }

    /// What the status bar calls it once it is loaded.
    pub open spec fn source_words(self) -> Seq<char> {
        match self {
            Band::Demo => "demo band"@,
            Band::Weak => "weak-signal demo"@,
            Band::Crowded => "crowded demo"@,
            Band::Signals => "know-your-signals demo"@,
        }
    }

    /// What the status bar calls it once it is loaded.
    pub fn source_name(self) -> (s: &'static str)
        ensures
            s@ == self.source_words(),
    {
        match self {
            Band::Demo => "demo band",
            Band::Weak => "weak-signal demo",
            Band::Crowded => "crowded demo",
            Band::Signals => "know-your-signals demo",
        }
    }
}

/// `s` without the dashes in front.
pub open spec fn without_dashes(s: Seq<char>) -> Seq<char>
    decreases s.len(),
{
    if s.len() > 0 && s[0] == '-' {
        without_dashes(s.drop_first())
    } else {
        s
    }
}

/// A flag without the white space around it and the dashes in front.
pub open spec fn bare_flag(s: Seq<char>) -> Seq<char> {
    without_dashes(trim(s))
}

/// Every band has a flag of its own.
pub proof fn flags_are_distinct(a: Band, b: Band)
    requires
        a.flag_text() == b.flag_text(),
    ensures
        a == b,
{
    reveal_strlit("demo");
    reveal_strlit("weak");
    reveal_strlit("crowded");
    reveal_strlit("signals");
    assert("demo"@[0] == 'd' && "weak"@[0] == 'w' && "crowded"@[0] == 'c' && "signals"@[0] == 's');
    assert(a.flag_text()[0] == b.flag_text()[0]);
}

/// The flag of a band names it, with or without dashes.
pub proof fn a_flag_names_its_band(b: Band, dashes: nat)
    ensures
        bare_flag(Seq::new(dashes, |i: int| '-') + b.flag_text()) == b.flag_text(),
{
    reveal_strlit("demo");
    reveal_strlit("weak");
    reveal_strlit("crowded");
    reveal_strlit("signals");
    let s = Seq::new(dashes, |i: int| '-') + b.flag_text();
    let solid = |c: char| !crate::text::white_space(c);
    let n = b.flag_text().len();
    assert(s.last() == b.flag_text().last());
    assert(s[0] == '-' || s[0] == b.flag_text()[0]);
    assert(crate::text::find_from(s, 0, solid) == 0);
    assert(s.skip(0) == s);
    assert(trim(s) == s);
    dashes_come_off(b, dashes);
}

proof fn dashes_come_off(b: Band, dashes: nat)
    ensures
        without_dashes(Seq::new(dashes, |i: int| '-') + b.flag_text()) == b.flag_text(),
    decreases dashes,
{
    reveal_strlit("demo");
    reveal_strlit("weak");
    reveal_strlit("crowded");
    reveal_strlit("signals");
    let s = Seq::new(dashes, |i: int| '-') + b.flag_text();
    if dashes == 0 {
        assert(s == b.flag_text());
    } else {
        assert(s.drop_first() == Seq::new((dashes - 1) as nat, |i: int| '-') + b.flag_text());
        dashes_come_off(b, (dashes - 1) as nat);
    }
}

/// `s`, so many times over.
pub open spec fn repeated(s: Seq<char>, n: nat) -> Seq<char>
    decreases n,
{
    if n == 0 {
        Seq::empty()
    } else {
        repeated(s, (n - 1) as nat) + s
    }
}

/// What a PSK31 station puts on the air: its call, repeated.
pub fn psk_text(call: &str, repeats: usize) -> (s: String)
    ensures
        s@ == repeated(call@, repeats as nat),
{
    let mut out = String::new();
    let mut i: usize = 0;
    while i < repeats
        invariant
            0 <= i <= repeats,
            out@ == repeated(call@, i as nat),
        decreases repeats - i,
    {
        out.append(call);
        i += 1;
    }
    out
}

/// A JS8 submode.
#[derive(Clone, Copy, Debug, PartialEq, Eq, Structural)]
pub enum Submode {
    Slow,
    Normal,
    Fast,
    Turbo,
}

impl Submode {
    /// The length of its cycle, in seconds.
    pub open spec fn cycle_s(self) -> u32 {
        match self {
            Submode::Slow => 30,
            Submode::Normal => 15,
            Submode::Fast => 10,
            Submode::Turbo => 6,
        }
    }

    /// The length of its cycle, in seconds.
    pub fn period_s(self) -> (p: u32)
        ensures
            p == self.cycle_s(),
    {
        match self {
            Submode::Slow => 30,
            Submode::Normal => 15,
            Submode::Fast => 10,
            Submode::Turbo => 6,
        }
    }

    /// How wide it is.
    pub open spec fn width(self) -> MilliHz {
        match self {
            Submode::Slow => 25_000,
            Submode::Normal => 50_000,
            Submode::Fast => 80_000,
            Submode::Turbo => 160_000,
        }
    }

    /// How wide it is.
    pub fn bandwidth(self) -> (w: MilliHz)
        ensures
            w == self.width(),
    {
        match self {
            Submode::Slow => 25_000,
            Submode::Normal => 50_000,
            Submode::Fast => 80_000,
            Submode::Turbo => 160_000,
        }
    }
}

/// An Olivia mode, by its tones and its bandwidth in hertz.
#[derive(Clone, Copy, Debug, PartialEq, Eq, Structural)]
pub enum Olivia {
    Tones4In125,
    Tones8In250,
    Tones8In500,
    Tones16In500,
    Tones16In1000,
    Tones32In1000,
}

impl Olivia {
    /// How wide it is.
    pub open spec fn width(self) -> MilliHz {
        match self {
            Olivia::Tones4In125 => 125_000,
            Olivia::Tones8In250 => 250_000,
            Olivia::Tones8In500 => 500_000,
            Olivia::Tones16In500 => 500_000,
            Olivia::Tones16In1000 => 1_000_000,
            Olivia::Tones32In1000 => 1_000_000,
        }
    }

    /// How wide it is.
    pub fn bandwidth(self) -> (w: MilliHz)
        ensures
            w == self.width(),
    {
        match self {
            Olivia::Tones4In125 => 125_000,
            Olivia::Tones8In250 => 250_000,
            Olivia::Tones8In500 => 500_000,
            Olivia::Tones16In500 => 500_000,
            Olivia::Tones16In1000 => 1_000_000,
            Olivia::Tones32In1000 => 1_000_000,
        }
    }
}

/// How wide a PSK31 station is.
pub const PSK31_BANDWIDTH: MilliHz = 62_500;

/// The JS8 stations of the demo band: carrier and submode. Each sends one frame
/// a cycle. The last is deliberately inside the widest Olivia station.
pub const JS8_STATIONS: [(MilliHz, Submode); 8] = [
    (500_000, Submode::Slow),
    (700_000, Submode::Normal),
    (850_000, Submode::Normal),
    (1_480_000, Submode::Fast),
    (1_620_000, Submode::Turbo),
    (2_320_000, Submode::Normal),
    (2_460_000, Submode::Turbo),
    (2_000_000, Submode::Normal),
];

/// What they send: which station, in which of its cycles, and what.
pub const JS8_FRAMES: [(usize, usize, &'static str); 23] = [
    (0, 0, "CQ DE W1SLW "),
    (0, 1, "EM73 PSE K "),
    (1, 0, "CQ CQ DE K2N "),
    (1, 1, "FN20 5W "),
    (1, 2, "73 GL "),
    (2, 0, "DE VE3XYZ "),
    (2, 1, "RRR TU "),
    (2, 2, "SK E E "),
    (3, 0, "CQ DE N0FST "),
    (3, 1, "DN70 "),
    (3, 2, "QRZ? "),
    (4, 0, "TEST DE W9T "),
    (4, 1, "FAST QSO "),
    (4, 2, "FB 73 GL "),
    (5, 0, "DE G4ABC "),
    (5, 1, "IO91 QRP "),
    (5, 2, "TU 72 "),
    (6, 0, "DE ZL2T "),
    (6, 1, "QRO 400W "),
    (6, 2, "GL SK "),
    (7, 0, "DE W2QRM "),
    (7, 1, "IN THE MUD "),
    (7, 2, "TU 73 "),
];

/// The Olivia stations of the demo band: center, mode, start, text.
pub const OLIVIA_STATIONS: [(MilliHz, Olivia, Ticks, &'static str); 3] = [
    (1_100_000, Olivia::Tones8In250, 12_000_000, "CQ CQ DE KN4RAG KN4RAG K "),
    (1_330_000, Olivia::Tones4In125, 36_000_000, "DE VE7OLV QRP 5W "),
    (2_000_000, Olivia::Tones16In500, 72_000_000, "GM OM UR RST 579 IN EM73 BTU "),
];

/// The PSK31 station of the demo band: carrier, start, call, and how often it is
/// repeated.
pub const PSK_STATIONS: [(MilliHz, Ticks, &'static str, usize); 1] = [
    (620_000, 2_400_000, "cq cq de kb9psk kb9psk pse k  ", 7),
];

/// One Olivia station in a synthetic band: center, mode, start, its level
/// against the noise in thousandths of a decibel, whether it is expected to
/// copy in full, and its text.
pub type OliviaStation = (MilliHz, Olivia, Ticks, i32, bool, &'static str);

/// The weak-signal band: how far under the noise a signal can be and still be
/// read.
pub const WEAK_STATIONS: [OliviaStation; 5] = [
    (900_000, Olivia::Tones32In1000, 4_800_000, -9_000, true, "DE W1WIDE 32/1000 -9 DB "),
    (700_000, Olivia::Tones8In250, 13_200_000, -9_000, true, "DE K2IN 8/250 -9 DB INSIDE THE WIDE ONE "),
    (1_750_000, Olivia::Tones16In500, 21_600_000, -12_000, true, "DE W4HOST 16/500 -12 DB "),
    (1_700_000, Olivia::Tones4In125, 30_000_000, -12_000, true, "DE N3NARO 4/125 -12 DB INSIDE TOO "),
    (
        2_350_000,
        Olivia::Tones8In500,
        38_400_000,
        -12_500,
        false,
        "DE W6GONE 8/500 -12.5 DB SAME LEVEL BUT TOO FAST ",
    ),
];

/// The crowded band: how many signals can sit on top of each other and still be
/// read.
pub const CROWDED_STATIONS: [OliviaStation; 5] = [
    (
        900_000,
        Olivia::Tones32In1000,
        3_600_000,
        6_000,
        true,
        "DE W1BIG 32/1000 A KILOHERTZ WIDE AND FULL OF OTHER PEOPLE ",
    ),
    (
        1_900_000,
        Olivia::Tones16In1000,
        10_800_000,
        6_000,
        true,
        "DE K2WIDE 16/1000 THE OTHER KILOHERTZ AND JUST AS BUSY ",
    ),
    (
        700_000,
        Olivia::Tones16In500,
        18_000_000,
        6_000,
        true,
        "DE W3MID 16/500 ENTIRELY INSIDE W1BIG AND READ ANYWAY ",
    ),
    (
        1_600_000,
        Olivia::Tones8In500,
        25_200_000,
        6_000,
        true,
        "DE N4FAST 8/500 MOSTLY INSIDE K2WIDE AND ACROSS W5EDGE TOO ",
    ),
    (
        1_400_000,
        Olivia::Tones8In250,
        32_400_000,
        6_000,
        true,
        "DE W5EDGE 8/250 ON THE SEAM BETWEEN THE TWO WIDE ONES ",
    ),
];

/// A PSK31 station in the weak band: carrier, start, its level against the noise
/// in thousandths of a decibel, whether it is expected to copy in full, its
/// call, and how often it is repeated.
pub type WeakPsk = (MilliHz, Ticks, i32, bool, &'static str, usize);

/// The one station of the weak band with no error correction.
pub const WEAK_PSK_STATIONS: [WeakPsk; 1] = [
    (1_450_000, 6_000_000, -4_000, true, "cq cq de n0fec n0fec -4 db no fec k  ", 6),
];

/// How far above its mode's floor each quiet station of the know-your-signals
/// band is put, in thousandths of a decibel.
pub const SIGNALS_MARGIN_DB: i32 = 4_000;

/// Length of that band in seconds.
pub const SIGNALS_SECS: usize = 165;

/// One of the two operators working each other: call, and power in watts.
pub type Op = (&'static str, u32);

/// The PSK31 conversation.
pub const SIGNALS_PSK_HZ: MilliHz = 1_000_000;

pub const SIGNALS_PSK_OPS: [Op; 2] = [("W1PSK", 100), ("K2QRP", 20)];

/// Which operator, and what they send, in order.
pub const SIGNALS_PSK_OVERS: [(usize, &'static str); 3] = [
    (0, "cq cq cq de w1psk w1psk w1psk psk31 47 wpm and copies at -5 db pse k  "),
    (1, "w1psk de k2qrp k2qrp k2qrp ur 599 om running 20 w here es no fec at all btu  "),
    (0, "k2qrp de w1psk r r fb 100 w my end so 20 w is the price of psk31 tu 73 sk  "),
];

/// The JS8 conversation.
pub const SIGNALS_JS8_HZ: MilliHz = 700_000;

pub const SIGNALS_JS8_OPS: [Op; 2] = [("W1JSK", 100), ("K2LOW", 2)];

/// Which operator, and what they send, on consecutive cycles.
pub const SIGNALS_JS8_OVERS: [(usize, &'static str); 4] = [
    (0, "CQ DE W1JSK JS8 NORMAL"),
    (1, "W1JSK DE K2LOW 2W ONLY"),
    (0, "10 WPM SOLID -15 DB"),
    (1, "R TU 73 SK"),
];

/// The Olivia conversation.
pub const SIGNALS_OLIVIA_HZ: MilliHz = 1_800_000;

pub const SIGNALS_OLIVIA_OPS: [Op; 2] = [("W1SLO", 100), ("K2OLV", 5)];

/// Which operator, in what mode, and what they send, in order.
pub const SIGNALS_OLIVIA_OVERS: [(usize, Olivia, &'static str); 6] = [
    (0, Olivia::Tones8In250, "CQ DE W1SLO 8/250 18 WPM -13 DB K "),
    (1, Olivia::Tones8In250, "W1SLO DE K2OLV 5W ONLY FB K "),
    (0, Olivia::Tones16In500, "QSY 16/500 23 WPM -12 DB K "),
    (1, Olivia::Tones16In500, "R FASTER ES STILL 5W K "),
    (0, Olivia::Tones32In1000, "NOW 32/1000 29 WPM -11 DB TU 73 "),
    (1, Olivia::Tones32In1000, "R 73 SK "),
];

/// A mode of the know-your-signals band.
#[derive(Clone, Copy, Debug, PartialEq, Eq, Structural)]
pub enum SignalsMode {
    Psk31,
    Js8Normal,
    Olivia8In250,
    Olivia16In500,
    Olivia32In1000,
}

/// The modes of the band, with the two numbers its texts quote: words per
/// minute, and the level at which the mode copies, in thousandths of a decibel.
pub const SIGNALS_MODES: [(SignalsMode, u32, i32); 5] = [
    (SignalsMode::Psk31, 47, -5_000),
    (SignalsMode::Js8Normal, 10, -15_000),
    (SignalsMode::Olivia8In250, 18, -13_000),
    (SignalsMode::Olivia16In500, 23, -12_000),
    (SignalsMode::Olivia32In1000, 29, -11_000),
];

/// Whether row `i` of the table is the one for a mode.
pub open spec fn row_for(i: int, mode: SignalsMode) -> bool {
    0 <= i < 5 && SIGNALS_MODES[i].0 == mode
}

/// The floor [`SIGNALS_MODES`] states for a mode.
pub fn signals_floor_db(mode: SignalsMode) -> (floor: i32)
    ensures
        exists|i: int| row_for(i, mode) && floor == SIGNALS_MODES[i].2,
{
    let mut i: usize = 0;
    let ghost k: int = match mode {
        SignalsMode::Psk31 => 0,
        SignalsMode::Js8Normal => 1,
        SignalsMode::Olivia8In250 => 2,
        SignalsMode::Olivia16In500 => 3,
        SignalsMode::Olivia32In1000 => 4,
    };
    assert(row_for(k, mode));
    while i < 5 && SIGNALS_MODES[i].0 != mode
        invariant
            0 <= i <= 5,
            row_for(k, mode),
            i <= k,
        decreases 5 - i,
    {
        i += 1;
    }
    assert(row_for(i as int, mode));
    SIGNALS_MODES[i].2
}

/// Each mode has one row in [`SIGNALS_MODES`].
pub proof fn signals_modes_are_distinct(i: int, j: int, mode: SignalsMode)
    requires
        row_for(i, mode),
        row_for(j, mode),
    ensures
        i == j,
{
}

/// The turnaround between one over and the next, in a mode: the silence that
/// ends an over, and a second and a half more.
pub fn signals_gap_s(mode: ModeId) -> (gap: Ticks)
    ensures
        gap == over_gap(mode) + SECOND * 3 / 2,
        gap > over_gap(mode),
        gap > 0,
{
    over_gap_s(mode) + 18_000_000
}

/// Where over `i` of a conversation starts, where over `k` takes `lens[k]`
/// samples and the turnaround after it is `gaps[k]`. The first starts one
/// turnaround in; past the last is where the conversation ends.
pub open spec fn over_start(lens: Seq<usize>, gaps: Seq<Ticks>, i: nat) -> int
    decreases i,
{
    if i == 0 {
        gaps[0] as int
    } else {
        over_start(lens, gaps, (i - 1) as nat) + lens[i - 1] * SAMPLE + gaps[i - 1]
    }
}

/// Lay the overs of a conversation end to end: where each starts, and where the
/// last turnaround ends.
pub fn lay_out_overs(lens: &Vec<usize>, gaps: &Vec<Ticks>) -> (out: (Vec<Ticks>, Ticks))
    requires
        0 < lens@.len() == gaps@.len(),
        forall|i: int| 0 <= i < gaps@.len() ==> 0 <= #[trigger] gaps@[i],
        over_start(lens@, gaps@, lens@.len()) <= i64::MAX,
    ensures
        out.0@.len() == lens@.len(),
        forall|i: int| 0 <= i < lens@.len() ==> #[trigger] out.0@[i] == over_start(lens@, gaps@, i as nat),
        out.1 == over_start(lens@, gaps@, lens@.len()),
{
    let mut starts: Vec<Ticks> = Vec::new();
    let mut at: Ticks = gaps[0];
    let mut i: usize = 0;
    while i < lens.len()
        invariant
            0 <= i <= lens@.len(),
            lens@.len() == gaps@.len(),
            forall|k: int| 0 <= k < gaps@.len() ==> 0 <= #[trigger] gaps@[k],
            over_start(lens@, gaps@, lens@.len()) <= i64::MAX,
            starts@.len() == i,
            at == over_start(lens@, gaps@, i as nat),
            forall|k: int| 0 <= k < i ==> #[trigger] starts@[k] == over_start(lens@, gaps@, k as nat),
        decreases lens.len() - i,
    {
        proof {
            overs_run_on(lens@, gaps@, (i + 1) as nat, lens@.len());
            assert(over_start(lens@, gaps@, (i + 1) as nat) == at + lens@[i as int] * SAMPLE + gaps@[i as int]);
            overs_run_on(lens@, gaps@, 0, i as nat);
            assert(gaps@[0] >= 0 && gaps@[i as int] >= 0);
        }
        starts.push(at);
        at = (at as i128 + lens[i] as i128 * SAMPLE as i128 + gaps[i] as i128) as i64;
        i += 1;
    }
    (starts, at)
}

/// Overs come one after another.
pub proof fn overs_run_on(lens: Seq<usize>, gaps: Seq<Ticks>, i: nat, j: nat)
    requires
        i <= j <= lens.len(),
        lens.len() == gaps.len(),
        forall|k: int| 0 <= k < gaps.len() ==> 0 <= #[trigger] gaps[k],
    ensures
        over_start(lens, gaps, i) <= over_start(lens, gaps, j),
    decreases j,
{
    if i < j {
        overs_run_on(lens, gaps, i, (j - 1) as nat);
        assert(gaps[j - 1] >= 0);
    }
}

/// No two overs of a conversation overlap, and the silence between one and the
/// next is the turnaround.
pub proof fn overs_do_not_overlap(lens: Seq<usize>, gaps: Seq<Ticks>, i: nat, j: nat)
    requires
        i < j < lens.len(),
        lens.len() == gaps.len(),
        forall|k: int| 0 <= k < gaps.len() ==> 0 <= #[trigger] gaps[k],
    ensures
        over_start(lens, gaps, i) + lens[i as int] * SAMPLE + gaps[i as int] <= over_start(lens, gaps, j),
        over_start(lens, gaps, (i + 1) as nat) == over_start(lens, gaps, i) + lens[i as int] * SAMPLE
            + gaps[i as int],
{
    overs_run_on(lens, gaps, (i + 1) as nat, j);
}

/// How far past the end of the know-your-signals band a conversation runs, if
/// it does.
pub fn runs_over(ends: Ticks) -> (by: Option<Ticks>)
    ensures
        by == if ends > SIGNALS_SECS * SECOND {
            Some((ends - SIGNALS_SECS * SECOND) as i64)
        } else {
            None
        },
{
    let end: Ticks = SIGNALS_SECS as i64 * SECOND;
    if ends > end {
        Some(ends - end)
    } else {
        None
    }
}

/// The sample at which the frame of a cycle starts: half a second in.
pub fn frame_start(cycle: usize, submode: Submode) -> (at: usize)
    requires
        cycle * submode.cycle_s() * SAMPLE_RATE + SAMPLE_RATE / 2 <= usize::MAX,
    ensures
        at == cycle * submode.cycle_s() * SAMPLE_RATE + SAMPLE_RATE / 2,
{
    let p: usize = submode.period_s() as usize;
    assert(cycle * p <= cycle * p * 12_000) by (nonlinear_arith)
        requires
            0 <= cycle,
            0 <= p,
    ;
    cycle * p * SAMPLE_RATE + SAMPLE_RATE / 2
}

/// How many samples of a signal fit a band: as many as there is room for behind
/// `start`.
pub fn fitting(start: usize, len: usize, total: usize) -> (n: usize)
    ensures
        n == if start >= total {
            0
        } else if start + len <= total {
            len as int
        } else {
            total - start
        },
{
    if start >= total {
        0
    } else if len < total - start {
        len
    } else {
        total - start
    }
}

/// What is left of the text of an over once a frame has taken `used` characters
/// of it, and whether that frame is the last.
pub fn next_frame(rest: &str, used: usize) -> (out: (bool, String))
    ensures
        out.0 == (used >= rest@.len()),
        out.1@ == if used >= rest@.len() { Seq::empty() } else { rest@.skip(used as int) },
{
    let chars = to_chars(rest);
    if used >= chars.len() {
        (true, String::new())
    } else {
        let tail = from_chars(&chars, used, chars.len());
        assert(chars@.subrange(used as int, chars@.len() as int) == chars@.skip(used as int));
        (false, tail)
    }
}

/// The state of the noise generator, one sample on.
pub fn noise_step(seed: u64) -> (next: u64)
    ensures
        next == (seed * 6364136223846793005 + 1) % 0x1_0000_0000_0000_0000,
{
    let scaled: u64 = seed.wrapping_mul(6364136223846793005);
    scaled.wrapping_add(1)
}

/// What is sampled of the noise generator: its top bits.
pub fn noise_bits(seed: u64) -> (bits: u32)
    ensures
        bits == seed / 0x100_0000_0000,
        bits < 0x100_0000,
{
    assert(seed >> 40u64 == seed / 0x100_0000_0000) by (bit_vector);
    assert(seed >> 40u64 < 0x100_0000) by (bit_vector);
    (seed >> 40) as u32
}

/// The spectrum that the stations of the demo band occupy, JS8 first, then
/// Olivia, then PSK31.
pub open spec fn occupied() -> Seq<(MilliHz, MilliHz)> {
    Seq::new(
        12,
        |i: int|
            if i < 8 {
                (
                    (JS8_STATIONS[i].0 - JS8_STATIONS[i].1.width() / 2) as i32,
                    (JS8_STATIONS[i].0 + JS8_STATIONS[i].1.width() / 2) as i32,
                )
            } else if i < 11 {
                (
                    (OLIVIA_STATIONS[i - 8].0 - OLIVIA_STATIONS[i - 8].1.width() / 2) as i32,
                    (OLIVIA_STATIONS[i - 8].0 + OLIVIA_STATIONS[i - 8].1.width() / 2) as i32,
                )
            } else {
                (
                    (PSK_STATIONS[i - 11].0 - PSK31_BANDWIDTH / 2) as i32,
                    (PSK_STATIONS[i - 11].0 + PSK31_BANDWIDTH / 2) as i32,
                )
            },
    )
}

/// The spectrum around a carrier.
fn around(hz: MilliHz, width: MilliHz) -> (band: (MilliHz, MilliHz))
    requires
        0 <= hz <= 10_000_000,
        0 <= width <= 10_000_000,
    ensures
        band == ((hz - width / 2) as i32, (hz + width / 2) as i32),
{
    (hz - width / 2, hz + width / 2)
}

/// The spectrum that the stations of the demo band occupy, JS8 first, then
/// Olivia, then PSK31.
pub fn occupied_spectrum() -> (bands: Vec<(MilliHz, MilliHz)>)
    ensures
        bands@ == occupied(),
{
    let mut out: Vec<(MilliHz, MilliHz)> = Vec::new();
    let mut i: usize = 0;
    while i < 8
        invariant
            0 <= i <= 8,
            out@ == occupied().take(i as int),
        decreases 8 - i,
    {
        let (hz, submode): (MilliHz, Submode) = JS8_STATIONS[i];
        out.push(around(hz, submode.bandwidth()));
        assert(occupied().take(i + 1) == occupied().take(i as int).push(occupied()[i as int]));
        i += 1;
    }
    let mut k: usize = 0;
    while k < 3
        invariant
            0 <= k <= 3,
            out@ == occupied().take(8 + k),
        decreases 3 - k,
    {
        let st = OLIVIA_STATIONS[k];
        out.push(around(st.0, st.1.bandwidth()));
        assert(occupied().take(8 + k + 1) == occupied().take(8 + k).push(occupied()[8 + k]));
        k += 1;
    }
    out.push(around(PSK_STATIONS[0].0, PSK31_BANDWIDTH));
    assert(out@ =~= occupied());
    out
}

/// Whether two stretches of spectrum overlap.
pub fn overlap(a: (MilliHz, MilliHz), b: (MilliHz, MilliHz)) -> (r: bool)
    ensures
        r == (a.1 > b.0 && b.1 > a.0),
{
    a.1 > b.0 && b.1 > a.0
}

/// The one place where two stations of the demo band share spectrum is the
/// deliberate one, so that a station that is not read says something about the
/// decoder rather than about the band plan.
pub proof fn only_the_deliberate_collision_overlaps(i: int, j: int)
    requires
        0 <= i < j < 12,
    ensures
        occupied()[i].1 > occupied()[j].0 && occupied()[j].1 > occupied()[i].0 <==> i == 7 && j == 10,
{
    assert(i == 0 || i == 1 || i == 2 || i == 3 || i == 4 || i == 5 || i == 6 || i == 7 || i == 8 || i == 9 || i == 10);
    assert(j == 1 || j == 2 || j == 3 || j == 4 || j == 5 || j == 6 || j == 7 || j == 8 || j == 9 || j == 10 || j == 11);
}

/// A call that is repeated is as long as all its repeats, and says the call over and
/// over.
pub proof fn a_repeated_call_says_it_over_and_over(s: Seq<char>, n: nat, k: int, i: int)
    requires
        0 <= k < n,
        0 <= i < s.len(),
    ensures
        repeated(s, n).len() == n * s.len(),
        k * s.len() + i < n * s.len(),
        repeated(s, n)[k * s.len() + i] == s[i],
    decreases n,
{
    let less = (n - 1) as nat;
    assert(n * s.len() == less * s.len() + s.len()) by (nonlinear_arith)
        requires
            less == n - 1,
    ;
    if less == 0 {
        assert(less * s.len() == 0) by (nonlinear_arith)
            requires
                less == 0,
        ;
        assert(k * s.len() == 0) by (nonlinear_arith)
            requires
                k == 0,
        ;
        assert(repeated(s, less).len() == 0);
    } else if k < less {
        a_repeated_call_says_it_over_and_over(s, less, k, i);
    } else {
        a_repeated_call_says_it_over_and_over(s, less, 0, i);
        assert(k == less);
    }
}

/// The faster a submode is, the wider.
pub proof fn faster_is_wider(a: Submode, b: Submode)
    requires
        a.cycle_s() < b.cycle_s(),
    ensures
        a.width() > b.width(),
{
}

} // verus!
