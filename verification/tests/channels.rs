//! Stations gathered into channels.

use ragchew_gui::channel::{
    over_gap_s, sender_in, ARRIVAL_QUANTUM_S, MAX_HISTORY, MAX_TEXT_CHARS, MIN_OVER_GAP_S,
};
use ragchew_gui::channels::ChannelSet;
use ragchew_gui::modes::{Decode, Ticks, MilliHz, ModeId, Protocol, SECOND};

const JS8_NORMAL: ModeId = ModeId {
    protocol: Protocol::Js8,
    rank: 0,
    period_s: Some(15),
    chunk: 151_680_000,
    assoc_tol: 6_250,
    bandwidth: 50_000,
    baud: 6_250,
    dup_tol: 12_000_000,
    block_samples: 0,
    lock_samples: 0,
};

const JS8_TURBO: ModeId =
    ModeId { rank: 1, period_s: Some(6), chunk: 47_400_000, assoc_tol: 20_000, ..JS8_NORMAL };

const OL_32_1000: ModeId = ModeId {
    protocol: Protocol::Olivia,
    rank: 10,
    period_s: None,
    chunk: 24_576_000,
    assoc_tol: 31_250,
    bandwidth: 1_000_000,
    baud: 31_250,
    dup_tol: 12_000_000,
    block_samples: 0,
    lock_samples: 0,
};

const OL_16_500: ModeId = ModeId { rank: 11, bandwidth: 500_000, ..OL_32_1000 };
const OL_8_250: ModeId = ModeId { rank: 12, bandwidth: 250_000, ..OL_32_1000 };

const PSK31: ModeId = ModeId {
    protocol: Protocol::Psk,
    rank: 20,
    period_s: None,
    chunk: 3_840_000,
    assoc_tol: 15_625,
    bandwidth: 62_500,
    baud: 31_250,
    dup_tol: 1_920_000,
    block_samples: 144_000,
    lock_samples: 24_000,
};

const PSK63: ModeId = ModeId { rank: 21, chunk: 1_920_000, baud: 62_500, ..PSK31 };

const HZ: MilliHz = 1_000;
const TOL: MilliHz = 15 * HZ;

fn decode(mode: ModeId, hz: MilliHz, t: Ticks, s: &str) -> Decode {
    Decode {
        snr_db: None,
        hz,
        time_s: t,
        text: s.to_string(),
        ends_over: false,
        mode,
        quality: 1_000,
    }
}

fn d(hz: MilliHz, t: Ticks, s: &str) -> Decode {
    decode(JS8_NORMAL, hz, t, s)
}

/// A hovering operator wants to know how well a station is being heard and how
/// far it has wandered, so the channel has to carry both.
#[test]
fn tracks_quality_and_drift() {
    let q = |hz: MilliHz, t: Ticks, quality: i32| Decode { quality, ..d(hz, t, "x") };
    let set = ChannelSet::from_decodes(
        vec![
            q(1000 * HZ, 0, 3_000),
            q(1004 * HZ, 15 * SECOND, 9_500),
            q(1006 * HZ, 30 * SECOND, 5_000),
        ],
        TOL,
    );
    let c = &set.channels()[0];
    assert_eq!(c.chunks, 3);
    assert_eq!(c.quality, 5_000, "quality is the most recent");
    assert_eq!(c.best_quality, 9_500, "best survives a fade");
    assert_eq!(c.drift_hz(), 6_000, "drift is measured from where it started");
}

#[test]
fn associates_by_frequency_and_accumulates_text() {
    let set = ChannelSet::from_decodes(
        vec![
            d(1000 * HZ, 0, "A"),
            d(1005 * HZ, 15 * SECOND, "B"),
            d(1500 * HZ, 15 * SECOND, "X"),
        ],
        TOL,
    );
    assert_eq!(set.channels().len(), 2);
    let c0 = &set.channels()[0];
    assert_eq!(c0.text, "AB");
    assert_eq!(c0.hz, 1005 * HZ);
    assert_eq!(set.channels()[1].text, "X");
}

#[test]
fn drift_beyond_tolerance_splits_into_two() {
    let set =
        ChannelSet::from_decodes(vec![d(1000 * HZ, 0, "A"), d(1030 * HZ, 15 * SECOND, "B")], TOL);
    assert_eq!(set.channels().len(), 2);
}

/// A wide-spaced mode asks for more than the set's own tolerance.
#[test]
fn a_wide_mode_is_given_its_own_tolerance() {
    let turbo = |hz: MilliHz, t: Ticks| decode(JS8_TURBO, hz, t, "x");
    let set =
        ChannelSet::from_decodes(vec![turbo(1000 * HZ, 0), turbo(1020 * HZ, 6 * SECOND)], TOL);
    assert_eq!(set.channels().len(), 1);
    let set =
        ChannelSet::from_decodes(vec![turbo(1000 * HZ, 0), turbo(1020 * HZ + 1, 6 * SECOND)], TOL);
    assert_eq!(set.channels().len(), 2);
}

/// The nearer of two channels takes the decode, and the older of two as near.
#[test]
fn the_nearest_channel_takes_the_decode() {
    let mut set = ChannelSet::new(TOL);
    set.add(d(1000 * HZ, 0, "a"));
    set.add(d(1020 * HZ, 0, "b"));
    set.add(d(1012 * HZ, SECOND, "c"));
    assert_eq!(set.channels()[1].text, "bc");
    let mut set = ChannelSet::new(TOL);
    set.add(d(1000 * HZ, 0, "a"));
    set.add(d(1020 * HZ, 0, "b"));
    set.add(d(1010 * HZ, SECOND, "c"));
    assert_eq!(set.channels()[0].text, "ac");
    assert_eq!(set.channels().len(), 2);
}

/// A JS8 station transmitting inside a wide Olivia signal's bandwidth is still
/// its own conversation.
#[test]
fn protocols_never_share_a_channel() {
    let ol = Decode { quality: 4_000, ..decode(OL_32_1000, 1000 * HZ, 0, "OL") };
    let set = ChannelSet::from_decodes(vec![ol, d(1010 * HZ, SECOND, "JS")], TOL);
    assert_eq!(set.channels().len(), 2);
}

/// Successive Olivia blocks of one transmission join up, even though the mode's
/// frequency estimate is only good to a tone spacing.
#[test]
fn olivia_blocks_accumulate_into_one_channel() {
    let block = |hz: MilliHz, t: Ticks, s: &str| Decode {
        quality: 5_000,
        ..decode(OL_16_500, hz, t, s)
    };
    let set = ChannelSet::from_decodes(
        vec![
            block(1500 * HZ, 0, "CQ C"),
            block(1508 * HZ, 2 * SECOND, "Q DE"),
            block(1492 * HZ, 4 * SECOND, " W1AW"),
        ],
        TOL,
    );
    assert_eq!(set.channels().len(), 1);
    assert_eq!(set.channels()[0].text, "CQ CQ DE W1AW");
}

/// A channel left running must not accumulate text without limit.
#[test]
fn a_channels_text_stops_growing() {
    let mut set = ChannelSet::new(TOL);
    let chunk = "CQ CQ DE K2N FN20 ";
    let n: usize = 4000;
    for i in 0..n {
        set.add(Decode { quality: 4_000, ..d(1000 * HZ, i as i64 * SECOND, chunk) });
    }
    let ch = &set.channels()[0];
    let produced = n * chunk.chars().count();
    assert_eq!(ch.text.chars().count(), MAX_TEXT_CHARS, "text is not at its bound");
    assert_eq!(
        ch.text_dropped + ch.text.chars().count(),
        produced,
        "what was dropped plus what is kept must be everything decoded"
    );
    assert!(ch.text.ends_with(chunk), "the newest text was trimmed instead of the oldest");
    assert!(ch.hz_history.len() <= MAX_HISTORY, "history is not bounded");
}

/// Drift is measured from where a station was first heard, which outlives the
/// frequency history being trimmed.
#[test]
fn drift_survives_a_trimmed_history() {
    let mut set = ChannelSet::new(TOL);
    for i in 0..(MAX_HISTORY * 3) {
        let hz = 1000 * HZ + i as i32 * 10;
        set.add(Decode { quality: 4_000, ..d(hz, i as i64 * SECOND, "x") });
    }
    let ch = &set.channels()[0];
    let expected = (MAX_HISTORY as i64 * 3 - 1) * 10;
    assert_eq!(ch.drift_hz(), expected, "drift should be {expected} from where it started");
}

/// The SNR series is recorded against each decode's own time, keeps only what
/// was measured, and is bounded like the frequency history beside it.
#[test]
fn snr_history_records_only_what_was_measured() {
    let mut set = ChannelSet::new(TOL);
    let snr = |i: usize| match i {
        10..=20 => None,
        _ => Some(-6_000 - i as i32 * 100),
    };
    for i in 0..(MAX_HISTORY * 2) {
        set.add(Decode {
            snr_db: snr(i),
            quality: 4_000,
            ..d(1000 * HZ, i as i64 * 15 * SECOND, "x")
        });
    }
    let ch = &set.channels()[0];
    assert_eq!(ch.snr_history.len(), MAX_HISTORY, "the series is not at its bound");
    let &(t, db) = ch.snr_history.last().expect("something was recorded");
    assert_eq!(t, (MAX_HISTORY as i64 * 2 - 1) * 15 * SECOND, "the wrong end was trimmed");
    assert_eq!(Some(db), ch.snr_db);
    assert!(ch.snr_history.windows(2).all(|w| w[1].0 > w[0].0), "samples are out of order");
    for &(t, db) in &ch.snr_history {
        let i = (t / (15 * SECOND)) as usize;
        assert_eq!(Some(db), snr(i), "sample at {t} does not match its decode");
    }
    assert_eq!(ch.best_snr_db, Some(-6_000), "best survives the fade");
}

/// A channel that has never been measured has no series at all, rather than a
/// series of nothing.
#[test]
fn an_unmeasured_channel_has_no_series() {
    let mut set = ChannelSet::new(TOL);
    set.add(Decode { quality: 4_000, ..d(1000 * HZ, 0, "x") });
    assert!(set.channels()[0].snr_history.is_empty());
}

/// Text longer than the bound in a single decode still leaves the channel at
/// its limit rather than over it.
#[test]
fn one_outsized_decode_does_not_break_the_bound() {
    let mut set = ChannelSet::new(TOL);
    set.add(Decode { quality: 4_000, ..d(1000 * HZ, 0, &"y".repeat(MAX_TEXT_CHARS * 2)) });
    assert_eq!(set.channels()[0].text.chars().count(), MAX_TEXT_CHARS);
}

/// Where a station stopped and started again is recorded as it arrives.
#[test]
fn a_pause_in_a_continuous_mode_is_marked() {
    let psk = |t: Ticks, c: char| Decode {
        quality: 4_000,
        ..decode(PSK31, 620 * HZ, t, &c.to_string())
    };
    let step = PSK31.chunk as i64;
    let mut set = ChannelSet::new(TOL);

    let mut t = 0;
    for c in "hi om ".chars() {
        set.add(psk(t, c));
        t += step;
    }
    assert!(set.channels()[0].breaks.is_empty(), "text arriving steadily is one over");

    let resumed = t + MIN_OVER_GAP_S + SECOND;
    t = resumed;
    for c in "back ".chars() {
        set.add(psk(t, c));
        t += step;
    }
    let ch = &set.channels()[0];
    assert_eq!(ch.breaks.len(), 1, "breaks: {:?}", ch.breaks);
    assert_eq!(ch.breaks[0].0, "hi om ".chars().count(), "marked at the wrong character");
    assert_eq!(ch.breaks[0].1, resumed, "marked at the wrong time");
    assert_eq!(ch.text, "hi om back ", "the text itself is untouched");
}

/// A cycle-aligned mode runs its frames together and marks each one.
#[test]
fn consecutive_frames_are_one_over_with_the_seams_kept() {
    let mut set = ChannelSet::new(TOL);
    let period = JS8_NORMAL.period_s.expect("cycle-aligned") as i64 * SECOND;
    for i in 0..4 {
        set.add(d(1000 * HZ, i * period, "DE K2N "));
    }
    let ch = &set.channels()[0];
    assert!(ch.breaks.is_empty(), "an unbroken over was split");
    assert_eq!(ch.frames.len(), 4, "four frames left {} marks", ch.frames.len());
    assert_eq!(ch.frames[0], (0, 0));
    assert_eq!(ch.frames[1].0, "DE K2N ".chars().count());
    assert_eq!(ch.frames[3].1, 3 * period);
}

/// The station's own flag ends the over, whatever the clock says, and the break
/// lands where the next frame starts.
#[test]
fn an_end_of_over_flag_breaks_where_the_next_frame_starts() {
    let mut set = ChannelSet::new(TOL);
    let mut first = d(1000 * HZ, 0, "DE K2N ");
    first.ends_over = true;
    set.add(first);
    set.add(d(1000 * HZ, 15 * SECOND, "HI OM "));
    let ch = &set.channels()[0];
    assert_eq!(ch.breaks.len(), 1, "the flag was not acted on");
    assert_eq!(ch.breaks[0], ("DE K2N ".chars().count(), 15 * SECOND));
}

/// Two stations on one carrier are two overs.
#[test]
fn a_change_of_sender_breaks_the_over() {
    let mut set = ChannelSet::new(TOL);
    set.add(d(1000 * HZ, 0, "K2N: CQ CQ CQ "));
    set.add(d(1000 * HZ, 15 * SECOND, "FN20 "));
    assert!(set.channels()[0].breaks.is_empty(), "free text was read as a new speaker");
    assert_eq!(set.channels()[0].over_sender.as_deref(), Some("K2N"));
    set.add(d(1000 * HZ, 30 * SECOND, "[W1AW K2N SNR -12]"));
    assert_eq!(set.channels()[0].breaks.len(), 1, "the second station was not separated");
    assert_eq!(set.channels()[0].over_sender.as_deref(), Some("W1AW"));
}

/// The two shapes a JS8 frame names its sender in, and the ones that name
/// nobody.
#[test]
fn a_sender_is_read_only_where_a_frame_gives_one() {
    assert_eq!(sender_in("KN4CRD: CQ CQ CQ EM73"), Some("KN4CRD"));
    assert_eq!(sender_in("[KN4CRD JY1 SNR -12]"), Some("KN4CRD"));
    assert_eq!(sender_in("HELLO OM HW CPY"), None, "free text named a sender");
    assert_eq!(sender_in("TNX: FB"), None, "a word and a colon is not a call");
    assert_eq!(sender_in(""), None);
}

/// The edges of the shape of a callsign.
#[test]
fn a_sender_has_the_shape_of_a_callsign() {
    assert_eq!(sender_in("  K2N: CQ"), Some("K2N"), "leading blanks are passed over");
    assert_eq!(sender_in("[K2N]"), Some("K2N"));
    assert_eq!(sender_in("[K2N"), Some("K2N"));
    assert_eq!(sender_in("[K2: CQ]"), None, "a colon is no part of a call");
    assert_eq!(sender_in("K2: CQ"), None, "too short");
    assert_eq!(sender_in("VP8/K2NABCD: CQ"), Some("VP8/K2NABCD"), "as long as one may be");
    assert_eq!(sender_in("VP8/K2NABCDE: CQ"), None, "too long");
    assert_eq!(sender_in("123: CQ"), None, "no letter");
    assert_eq!(sender_in("K2\u{e9}: CQ"), None, "not ASCII");
    assert_eq!(sender_in("[ K2N]"), None, "a blank ends the call at once");
    assert_eq!(sender_in("   "), None);
}

/// Text from before a cut is forgotten, and what is left keeps its place in the
/// conversation.
#[test]
fn text_from_before_a_cut_is_forgotten() {
    let mut set = ChannelSet::new(TOL);
    for i in 0..4 {
        set.add(d(1000 * HZ, i * 15 * SECOND, "DE K2N "));
    }
    set.forget(|_| Some(20 * SECOND));
    let ch = &set.channels()[0];
    assert_eq!(ch.text, "DE K2N DE K2N ", "the wrong end was forgotten");
    assert_eq!(ch.text_dropped, 14, "what is left is at the wrong index");
    for (what, marks) in [("frame", &ch.frames), ("arrival", &ch.arrivals)] {
        assert!(
            marks.iter().all(|&(i, _)| i >= ch.text_dropped),
            "an {what} mark points into text that is gone: {marks:?}"
        );
    }
    assert_eq!(ch.arrivals.first().map(|&(_, t)| t), Some(30 * SECOND), "{:?}", ch.arrivals);
}

/// A channel with nothing left to show is not a channel any more.
#[test]
fn a_channel_forgotten_entirely_leaves_the_set() {
    let mut set =
        ChannelSet::from_decodes(vec![d(1000 * HZ, 0, "A"), d(1500 * HZ, 30 * SECOND, "B")], TOL);
    set.forget(|_| Some(15 * SECOND));
    assert_eq!(set.channels().len(), 1, "the quiet station is still here");
    assert_eq!(set.channels()[0].text, "B");
}

/// No cut is no change, not even to a channel that has never managed to say
/// anything.
#[test]
fn nothing_is_forgotten_without_a_cut() {
    let mut set =
        ChannelSet::from_decodes(vec![d(1000 * HZ, 0, ""), d(1500 * HZ, 0, "B")], TOL);
    set.forget(|_| None);
    assert_eq!(set.channels().len(), 2);
    assert_eq!(set.channels()[1].text, "B", "text went missing with no cut set");
}

/// Text that arrived after a silence is never aged with the text before it.
#[test]
fn a_silence_always_gets_its_own_mark() {
    let psk = |t: Ticks, c: char| Decode {
        quality: 4_000,
        ..decode(PSK31, 620 * HZ, t, &c.to_string())
    };
    let step = PSK31.chunk as i64;
    let mut set = ChannelSet::new(TOL);
    let mut t = 0;
    for c in "hi om ".chars() {
        set.add(psk(t, c));
        t += step;
    }
    let resumed = t + 600 * SECOND;
    t = resumed;
    for c in "back".chars() {
        set.add(psk(t, c));
        t += step;
    }
    set.forget(|_| Some(resumed - 60 * SECOND));
    assert_eq!(set.channels()[0].text, "back", "the new over was aged with the old one");
}

/// The marks stay bounded on a mode that decodes one character at a time.
#[test]
fn arrival_marks_are_no_finer_than_the_quantum() {
    let step = PSK31.chunk as i64;
    let mut set = ChannelSet::new(TOL);
    for i in 0..600 {
        set.add(Decode { quality: 4_000, ..decode(PSK31, 620 * HZ, i * step, "x") });
    }
    let ch = &set.channels()[0];
    assert!(
        ch.arrivals.windows(2).all(|w| w[1].1 - w[0].1 >= ARRIVAL_QUANTUM_S),
        "two marks landed inside one quantum: {:?}",
        ch.arrivals
    );
    assert!(
        ch.arrivals.len() * 3 < ch.text.chars().count(),
        "{} marks for {} characters",
        ch.arrivals.len(),
        ch.text.chars().count()
    );
}

/// The tail divides exactly: every character a row would show is accounted for
/// once, and the newest stretch is the last one.
#[test]
fn the_tail_divides_by_age_without_gaps() {
    let mut set = ChannelSet::new(TOL);
    for i in 0..4 {
        set.add(d(1000 * HZ, i * 15 * SECOND, "DE K2N "));
    }
    let ch = &set.channels()[0];
    let held = ch.text.chars().count();

    let runs = ch.tail_ages(10);
    assert_eq!(runs.iter().map(|&(n, _)| n).sum::<usize>(), 10, "{runs:?}");
    assert_eq!(
        runs.last().and_then(|&(_, t)| t),
        Some(45 * SECOND),
        "the last stretch is the newest"
    );
    assert_eq!(runs, vec![(3, Some(30 * SECOND)), (7, Some(45 * SECOND))]);

    let all = ch.tail_ages(10_000);
    assert_eq!(all.iter().map(|&(n, _)| n).sum::<usize>(), held, "asking for more lost some");
    assert_eq!(all.len(), 4, "four frames should be four stretches: {all:?}");
    assert_eq!(all[0], (7, Some(0)));
    assert!(ch.tail_ages(0).is_empty());
}

/// Breaks are indexed from the start of the conversation, like the text they
/// point into, and go when the text they point at does.
#[test]
fn breaks_are_trimmed_with_the_text() {
    let olivia = |t: Ticks, s: &str| Decode {
        quality: 4_000,
        ..decode(OL_8_250, 1000 * HZ, t, s)
    };
    let mut set = ChannelSet::new(TOL);
    let mut t = 0;
    for _ in 0..(MAX_TEXT_CHARS / 8 + 40) {
        set.add(olivia(t, "12345678"));
        t += 60 * SECOND;
    }
    let ch = &set.channels()[0];
    assert!(ch.text_dropped > 0, "the channel never trimmed; this proves nothing");
    assert!(
        ch.breaks.iter().all(|&(i, _)| i >= ch.text_dropped),
        "a break points into text that is gone"
    );
    assert!(!ch.breaks.is_empty(), "every break was dropped");
}

/// The silence that ends an over, on each kind of mode.
#[test]
fn the_silence_that_ends_an_over() {
    assert_eq!(over_gap_s(JS8_NORMAL), 22 * SECOND + SECOND / 2);
    assert_eq!(over_gap_s(JS8_TURBO), 9 * SECOND);
    assert_eq!(over_gap_s(PSK31), MIN_OVER_GAP_S);
    assert_eq!(over_gap_s(PSK63), MIN_OVER_GAP_S);
    assert_eq!(over_gap_s(OL_8_250), 8_192 * (SECOND / 1000));
}

/// An id finds its channel, and no other.
#[test]
fn a_channel_is_found_by_its_id() {
    let mut set =
        ChannelSet::from_decodes(vec![d(1000 * HZ, 0, "A"), d(1500 * HZ, 30 * SECOND, "B")], TOL);
    let id = set.channels()[1].id;
    assert_eq!(set.by_id(id).map(|c| c.text.as_str()), Some("B"));
    assert!(set.by_id(99).is_none());
    set.forget(|c| if c.id == id { Some(60 * SECOND) } else { None });
    assert!(set.by_id(id).is_none());
    set.add(d(1500 * HZ, 60 * SECOND, "C"));
    assert_ne!(set.channels()[1].id, id, "an id was handed out twice");
}

/// A batch is taken in order of time, and those of one time as they came.
#[test]
fn a_batch_is_taken_in_order_of_time() {
    let set = ChannelSet::from_decodes(
        vec![
            d(1000 * HZ, 30 * SECOND, "c"),
            d(1000 * HZ, 0, "a"),
            d(1000 * HZ, 30 * SECOND, "d"),
            d(1000 * HZ, 15 * SECOND, "b"),
        ],
        TOL,
    );
    assert_eq!(set.channels()[0].text, "abcd");
}

/// Characters, not bytes, are counted and dropped.
#[test]
fn text_is_dropped_by_the_character() {
    let mut set = ChannelSet::new(TOL);
    set.add(d(1000 * HZ, 0, &"\u{fc}".repeat(MAX_TEXT_CHARS)));
    set.add(d(1000 * HZ, 15 * SECOND, "ab"));
    let ch = &set.channels()[0];
    assert_eq!(ch.text_dropped, 2);
    assert_eq!(ch.text.chars().count(), MAX_TEXT_CHARS);
    assert!(ch.text.ends_with("\u{fc}ab"));
    assert_eq!(ch.arrivals, vec![(2, 0), (MAX_TEXT_CHARS, 15 * SECOND)]);
}

/// Decodes of different times make one set of channels, whatever order they come in.
#[test]
fn a_batch_may_come_in_any_order() {
    let batch = || -> Vec<Decode> {
        (0..12i64)
            .map(|i| d((1000 + 8 * (i as MilliHz % 5)) * HZ, i * 15 * SECOND, ["A", "BC", "K2N: CQ "][i as usize % 3]))
            .collect()
    };
    let shown = |ds: Vec<Decode>| format!("{:?}", ChannelSet::from_decodes(ds, TOL));
    let in_turn = shown(batch());
    let mut one_by_one = ChannelSet::new(TOL);
    for x in batch() {
        assert!(one_by_one.can_add(&x));
        one_by_one.add(x);
    }
    assert_eq!(in_turn, format!("{one_by_one:?}"));
    let mut back = batch();
    back.reverse();
    assert_eq!(shown(back), in_turn);
    let mut mixed = batch();
    for k in 0..12 {
        mixed.swap(k, (7 * k + 3) % 12);
    }
    assert_eq!(shown(mixed), in_turn);
}
