//! The rows of text: clearing them, fading them, sliding them in, and playing a
//! recording onto them.

use ragchew_gui::channels::ChannelSet;
use ragchew_gui::drawing::{highlight, max_chars, stretches};
use ragchew_gui::modes::{Decode, MilliHz, ModeId, Protocol, Ticks, SECOND};
use ragchew_gui::playback::{Frame, Playback};
use ragchew_gui::rows::{forget_secs, solidity, Clears, Solidity};
use ragchew_gui::slides::{Showing, SlideFrame, Slides, SLIDE_MAX_CHARS};
use ragchew_gui::watch::{remark_line, Remark, RowNow, Watch};

const HZ: MilliHz = 1_000;
const TOL: MilliHz = 15 * HZ;

const JS8_NORMAL: ModeId = ModeId {
    protocol: Protocol::Js8,
    rank: 1,
    period_s: Some(15),
    chunk: 151_680_000,
    assoc_tol: 6_250,
    bandwidth: 50_000,
    baud: 6_250,
    dup_tol: 12_000_000,
    block_samples: 0,
    lock_samples: 0,
};
const JS8_SLOW: ModeId = ModeId { rank: 2, period_s: Some(30), chunk: 303_360_000, ..JS8_NORMAL };
const OL_4_125: ModeId = ModeId {
    protocol: Protocol::Olivia,
    rank: 10,
    period_s: None,
    chunk: 49_152_000,
    assoc_tol: 31_250,
    bandwidth: 125_000,
    baud: 31_250,
    dup_tol: 12_000_000,
    block_samples: 0,
    lock_samples: 0,
};
const PSK31: ModeId = ModeId {
    protocol: Protocol::Psk,
    rank: 20,
    period_s: None,
    chunk: 3_840_000,
    assoc_tol: 15_625,
    bandwidth: 62_500,
    baud: 31_250,
    dup_tol: 1_920_000,
    block_samples: 98_304,
    lock_samples: 24_000,
};

fn said(mode: ModeId, hz: MilliHz, t: Ticks, text: &str) -> Decode {
    Decode { hz, time_s: t, text: text.to_string(), mode, ends_over: false, quality: 4_200, snr_db: None }
}

fn texts(set: &ChannelSet) -> Vec<String> {
    set.channels().iter().map(|c| c.text.clone()).collect()
}

/// A band with two stations in it.
fn a_recording() -> Playback {
    let mut p = Playback::new();
    p.rescan(true, 1);
    p.frames_landed(
        vec![
            said(JS8_NORMAL, 1000 * HZ, SECOND, "CQ CQ DE K2N "),
            said(JS8_NORMAL, 1000 * HZ, 16 * SECOND, "FN20 5W "),
            said(JS8_NORMAL, 2000 * HZ, 3 * SECOND, "DE VE3XYZ "),
        ]
        .into_iter()
        .map(Frame::of)
        .collect(),
    );
    p.scan_done();
    p
}

/// What is on the rows of that band at `t`.
fn shown(p: &mut Playback, clears: &Clears, t: Ticks, keep: Option<Ticks>, fade: Ticks) -> Vec<String> {
    let mut set = p.channels_now(t);
    set.forget(|ch| clears.cut_for(ch.id, t, keep, fade));
    texts(&set)
}

/// Clearing takes the text off the rows and leaves the channels alone.
#[test]
fn clearing_empties_the_rows_and_not_the_channels() {
    let mut p = a_recording();
    let mut clears = Clears::new();
    let t = 30 * SECOND;
    assert_eq!(shown(&mut p, &clears, t, None, 0), ["CQ CQ DE K2N FN20 5W ", "DE VE3XYZ "]);
    clears.clear_all(t);
    assert!(shown(&mut p, &clears, t, None, 0).is_empty(), "stations are still on the rows");
    assert_eq!(p.channels_now(t).channels().len(), 2, "the record went with them");
}

/// A station that appears next to one already on screen takes none of its text.
#[test]
fn a_newcomer_takes_no_text_from_its_neighbour() {
    let mut frames: Vec<Frame> = Vec::new();
    for i in 0..200i64 {
        let t = SECOND + i * SECOND / 5;
        frames.push(Frame::of(said(PSK31, 1000 * HZ, t, "a")));
        if t >= 11 * SECOND {
            frames.push(Frame::of(said(PSK31, 1060 * HZ, t, "b")));
        }
    }
    let mut p = Playback::new();
    p.rescan(true, 1);
    p.frames_landed(frames);
    let mut longest = 0;
    for step in 0..150i64 {
        let t = 5 * SECOND + step * SECOND / 10;
        let set = p.channels_now(t);
        let Some(ch) = set.channels().iter().find(|c| c.text.starts_with('a')) else { continue };
        let drawn: usize = stretches(ch, 200, t, None, 0).iter().map(|s| s.text.chars().count()).sum();
        assert!(drawn >= longest, "at {t} the row lost text: {drawn} characters, down from {longest}");
        longest = drawn;
    }
    assert!(longest > 60);
    assert_eq!(p.channels_now(20 * SECOND).channels().len(), 2, "the two stations were read as one");
}

/// Putting the clock back behind a clear replays what was cleared.
#[test]
fn restarting_replays_what_was_cleared() {
    let mut p = a_recording();
    let mut clears = Clears::new();
    let t = 30 * SECOND;
    clears.clear_all(t);
    assert!(
        !shown(&mut p, &clears, t, None, 0).iter().any(|s| s.contains("K2N")),
        "nothing was cleared, so this proves nothing"
    );

    // Restarted, then far enough in for both stations to be back.
    clears.drop_stale_clears(0);
    assert!(shown(&mut p, &clears, 0, None, 0).is_empty());
    for station in ["CQ CQ DE K2N", "DE VE3XYZ"] {
        assert!(
            shown(&mut p, &clears, t, None, 0).iter().any(|s| s.contains(station)),
            "{station} did not come back"
        );
    }
}

/// A clear does not outlive the channels it names.
#[test]
fn a_clear_does_not_carry_over_to_a_new_scan() {
    let mut p = a_recording();
    let mut clears = Clears::new();
    let t = 30 * SECOND;
    let id = p.channels_now(t).channels()[0].id;
    clears.clear(id, t);
    clears.clear_all(t);

    p.rescan(true, 3);
    clears.drop_clears();
    assert_eq!(clears.cut_for(id, t, None, 0), None, "a clear survived the rebuild");
    assert!(p.channels_now(t).channels().is_empty());
    assert_eq!(p.pending_scans(), 3);
    // With nothing loaded there is nothing to scan.
    p.rescan(false, 3);
    assert_eq!(p.pending_scans(), 0);
}

/// Clearing one channel clears that one.
#[test]
fn clearing_one_channel_leaves_the_rest_of_the_band_alone() {
    let mut p = a_recording();
    let mut clears = Clears::new();
    let t = 30 * SECOND;
    let id = p.channels_now(t).channels()[0].id;
    clears.clear(id, t);

    let rows = shown(&mut p, &clears, t, None, 0);
    assert!(!rows.iter().any(|s| s.contains("K2N")), "the cleared channel is still there: {rows:?}");
    assert!(rows.iter().any(|s| s.contains("DE VE3XYZ")), "the other station went with it: {rows:?}");
}

/// The timeout forgets a station's text a piece at a time.
#[test]
fn text_from_too_far_back_is_forgotten() {
    // Fourteen seconds, and nothing kept beyond it: the cut falls between K2N's
    // two frames.
    let mut p = a_recording();
    let rows = shown(&mut p, &Clears::new(), 30 * SECOND, Some(14 * SECOND), 0);
    assert_eq!(rows, ["FN20 5W "], "what is too old is still on the rows");
}

/// Text on its way out is drawn on its way out.
#[test]
fn text_being_forgotten_fades_rather_than_vanishing() {
    let mut p = a_recording();
    // K2N's newest frame is 14 s old, so 10 s of keeping and 8 s of fading puts
    // it half way out.
    let (t, keep, fade) = (30 * SECOND, Some(10 * SECOND), 8 * SECOND);
    let mut set = p.channels_now(t);
    set.forget(|ch| Clears::new().cut_for(ch.id, t, keep, fade));
    let row = stretches(&set.channels()[0], 100, t, keep, fade);
    assert!(!row.is_empty(), "the row was not drawn at all");
    let last = row.last().unwrap();
    assert_eq!(last.text, "FN20 5W ");
    assert_eq!(last.solid, Solidity { num: 4 * SECOND, den: 8 * SECOND });
}

/// The fade is the whole of the text's last stretch of life.
#[test]
fn text_is_solid_then_fades_then_goes() {
    let s = |at: Option<i64>, keep: Option<i64>, fade: i64| {
        let s = solidity(100 * SECOND, at.map(|t| t * SECOND), keep.map(|t| t * SECOND), fade * SECOND);
        s.num as f64 / s.den as f64
    };
    assert_eq!(s(Some(0), None, 8), 1.0, "the timeout was off");
    assert_eq!(s(Some(95), Some(10), 8), 1.0, "faded before its time");
    assert_eq!(s(Some(85), Some(10), 8), 0.375, "5 s into an 8 s fade");
    assert_eq!(s(Some(80), Some(10), 8), 0.0, "outlived the fade");
    assert_eq!(s(Some(0), Some(10), 0), 0.0, "no fade is a clean cut");
    assert_eq!(s(None, Some(10), 8), 0.0, "older than anything on record");
}

/// A zero keeps everything.
#[test]
fn zero_minutes_is_for_ever() {
    assert_eq!(forget_secs(0), None);
    assert_eq!(forget_secs(500), Some(30 * SECOND));
}

/// A row's stretches say the end of its text, and no more than was asked for.
#[test]
fn a_row_is_drawn_in_stretches_of_one_age() {
    let mut set = ChannelSet::new(TOL);
    set.add(said(JS8_NORMAL, 1000 * HZ, SECOND, "CQ CQ DE K2N "));
    set.add(said(JS8_NORMAL, 1000 * HZ, 16 * SECOND, "FN20 5W "));
    let ch = &set.channels()[0];
    let all = stretches(ch, 1000, 30 * SECOND, None, 0);
    assert_eq!(all.iter().map(|s| s.text.as_str()).collect::<Vec<_>>(), ["CQ CQ DE K2N ", "FN20 5W "]);
    let tail = stretches(ch, 10, 30 * SECOND, None, 0);
    assert_eq!(tail.iter().map(|s| s.text.as_str()).collect::<String>(), "N FN20 5W ");
    assert!(stretches(ch, 0, 30 * SECOND, None, 0).is_empty());
}

/// How much fits on a row, and how long it is lit.
#[test]
fn a_row_is_as_long_as_it_is_wide() {
    assert_eq!(max_chars(8_000 + 84_000, 14_000), 10);
    assert_eq!(max_chars(8_000 + 83_999, 14_000), 9);
    assert_eq!(max_chars(0, 14_000), 1);
    assert_eq!(highlight(100, 200, 1_000), None);
    let lit = highlight(SECOND, 0, 1_000).unwrap();
    assert_eq!(lit.num * 5, lit.den * 3, "one second into two and a half");
    assert_eq!(highlight(5 * SECOND / 2, 0, 1_000), None);
    // Eight times as fast, a second of recording is an eighth of life.
    let lit = highlight(SECOND, 0, 8_000).unwrap();
    assert_eq!(lit.num * 20, lit.den * 19);
}

/// What survives arbitration is put back in order, with its own reveal times.
#[test]
fn the_file_view_arbitrates_across_its_per_mode_scans() {
    let mut p = Playback::new();
    p.rescan(true, 2);
    // The Olivia station, from Olivia's scan.
    p.frames_landed(vec![Frame::of(said(OL_4_125, 745 * HZ, 6 * SECOND, "CQ DE TEST K "))]);
    assert!(!p.scan_done());
    // The same signal read as PSK, from PSK's scan, and a real station.
    p.frames_landed(vec![
        Frame::of(said(PSK31, 749 * HZ, 62 * SECOND / 10, "n teIer")),
        Frame::of(said(PSK31, 1500 * HZ, 7 * SECOND, "cq de w1aw ")),
    ]);
    assert!(p.scan_done(), "the last scan was not taken for the last");

    let found = p.found();
    assert_eq!(found.len(), 3);
    // Where nothing is dropped nothing changes.
    p.arbitrate_scans(found.clone());
    assert_eq!(p.found().len(), 3);

    let kept: Vec<Decode> = found.into_iter().filter(|d| d.hz != 749 * HZ).collect();
    p.arbitrate_scans(kept);
    let mut left: Vec<(ModeId, MilliHz)> = p.found().iter().map(|d| (d.mode, d.hz)).collect();
    left.sort_by_key(|l| l.1);
    assert_eq!(left, [(OL_4_125, 745 * HZ), (PSK31, 1500 * HZ)]);
    // Reveal times are rebuilt with the frames, not left behind.
    assert!(p.channels_now(10 * SECOND).channels().iter().all(|c| c.mode == PSK31));
    assert_eq!(p.channels_now(11 * SECOND).channels().len(), 2);
    assert_eq!(Frame::of(said(OL_4_125, 0, 6 * SECOND, "x")).reveal_s, 6 * SECOND + 49_152_000);
}

/// Playing forward only ever adds to a row, though decodes are revealed long
/// after some of them were sent.
#[test]
fn playing_a_file_forward_only_ever_adds_to_a_row() {
    let mut p = Playback::new();
    let mut frames = Vec::new();
    for i in 0..20i64 {
        frames.push(Frame::of(said(JS8_SLOW, 500 * HZ, i * 30 * SECOND, "SLOW AND LATE ")));
        frames.push(Frame::of(said(JS8_NORMAL, 700 * HZ, i * 15 * SECOND + SECOND, "K2N ")));
    }
    for i in 0..600i64 {
        frames.push(Frame::of(said(PSK31, 1500 * HZ, i * SECOND / 5, "e")));
    }
    for i in 0..60i64 {
        frames.push(Frame::of(said(OL_4_125, 1100 * HZ, i * 4 * SECOND, "OLI")));
    }
    p.frames_landed(frames);
    let mut was: Vec<(u64, ModeId, usize)> = Vec::new();
    let mut grew = 0;
    let mut t = 0;
    while t < 700 * SECOND {
        let now: Vec<(u64, ModeId, usize)> =
            p.channels_now(t).channels().iter().map(|c| (c.id, c.mode, c.next_index())).collect();
        for (a, b) in was.iter().zip(&now) {
            assert_eq!(a.0, b.0, "a channel changed its id");
            assert_eq!(a.1, b.1, "a channel changed its mode");
            assert!(b.2 >= a.2, "a row lost text");
            grew += usize::from(b.2 > a.2);
        }
        assert!(now.len() >= was.len(), "a channel went");
        was = now;
        t += SECOND / 4;
    }
    assert!(grew > 100, "the rows only grew {grew} times; the test proved little");
}

/// Scans may land in any order: what is shown is the same.
#[test]
fn scans_land_in_any_order() {
    let js8 = || vec![
        Frame::of(said(JS8_NORMAL, 1000 * HZ, SECOND, "CQ ")),
        Frame::of(said(JS8_NORMAL, 1010 * HZ, 16 * SECOND, "DE K2N ")),
    ];
    let psk = || (0..50).map(|i| Frame::of(said(PSK31, 1000 * HZ, i * SECOND / 2, "e"))).collect::<Vec<_>>();
    let mut a = Playback::new();
    a.frames_landed(js8());
    a.channels_now(20 * SECOND);
    a.frames_landed(psk());
    let mut b = Playback::new();
    b.frames_landed(psk());
    b.frames_landed(js8());
    for t in [0, 5, 14, 20, 60] {
        assert_eq!(texts(&a.channels_now(t * SECOND)), texts(&b.channels_now(t * SECOND)));
    }
    // And the clock going back shows what it showed.
    assert_eq!(texts(&a.channels_now(14 * SECOND)), texts(&b.channels_now(14 * SECOND)));
    assert_eq!(a.channels_now(14 * SECOND).channels().len(), 2);
}

/// What is left of a debt after a sixtieth of a second, of a second to settle.
const DECAY: u32 = 951_229;

fn showing(set: &ChannelSet) -> Vec<Showing> {
    set.channels()
        .iter()
        .map(|c| Showing { id: c.id, chars: c.next_index(), last_chunk: c.last_chunk_chars })
        .collect()
}

/// A row being typed into may only ever move left.
#[test]
fn a_streaming_row_only_ever_moves_left() {
    let mut slides = Slides::new();
    let f = SlideFrame { char_w: 8_000, panel_w: 400_000, decay: DECAY };

    // Sixty frames a second, a character every fifth of a second, each reaching
    // the screen after a delay of its own: a live PSK31 station.
    let delay = |k: i64| if k % 3 == 0 { SECOND * 32 / 100 } else { SECOND * 12 / 100 };
    let mut set = ChannelSet::new(TOL);
    let mut typed = 0i64;
    let mut worst = i64::MAX;
    for frame in 1..600i64 {
        let t = frame * SECOND / 60;
        let sent = typed * SECOND / 5;
        if t >= sent + delay(typed) {
            set.add(said(PSK31, 1500 * HZ, sent, "e"));
            typed += 1;
        }
        slides.slide_rows(&showing(&set), &f);
        let Some(ch) = set.channels().first() else { continue };

        // Where the oldest character on the row sits, relative to the row's
        // right edge.
        let held = ch.next_index() as i64 * 8_000;
        let x = slides.get(ch.id).unwrap().px - held;
        assert!(x <= worst, "frame {frame}: the row sprang {} right", x - worst);
        worst = worst.min(x);
    }
    assert!(typed > 40, "only {typed} characters were typed; the test proved little");
}

/// Text filled in behind a station is there, not swept in.
#[test]
fn a_catch_up_does_not_sweep_the_row_off_its_panel() {
    let mut slides = Slides::new();
    let f = SlideFrame { char_w: 8_000, panel_w: 400_000, decay: DECAY };
    let mut set = ChannelSet::new(TOL);

    // A station already on the row, then its receiver opening and handing over a
    // window's worth of what it had been saying all along.
    set.add(said(PSK31, 1500 * HZ, SECOND, "cq de w1aw k "));
    slides.slide_rows(&showing(&set), &f);
    let more = "the quick brown fox jumps over the lazy dog and keeps on typing for a good long while yet";
    for (i, c) in more.chars().enumerate() {
        set.add(said(PSK31, 1500 * HZ, 2 * SECOND + i as i64 * SECOND / 5, &c.to_string()));
    }
    slides.slide_rows(&showing(&set), &f);

    let id = set.channels()[0].id;
    let px = slides.get(id).unwrap().px;
    assert!(px <= SLIDE_MAX_CHARS as i64 * 8_000, "a catch-up shifted the row {px}");
    assert!(px < 400_000 / 2, "the row was pushed {px} across its panel");
    // A row with less text than it had has been cleared, and does not slide.
    slides.slide_rows(&vec![Showing { id, chars: 1, last_chunk: 1 }], &f);
    assert_eq!(slides.get(id).unwrap().px, 0);
    slides.slide_rows(&Vec::new(), &f);
    assert!(slides.get(id).is_none(), "kept a row that is not on show");
}

fn a_row(id: u64, hz: MilliHz, drawn: usize, held: usize) -> RowNow {
    RowNow { id, hz, mode: PSK31, drawn, held, y: 100_000, offset: 0, cut: None, oldest: Some(SECOND) }
}

/// The log says when a row loses its text, and says nothing at all while one is
/// merely being typed into.
#[test]
fn the_log_notices_a_row_losing_its_text() {
    let mut watch = Watch::new();
    let mut wall = 1000 * SECOND;

    for n in 1..40 {
        wall += SECOND / 60;
        let said = watch.watch_rows(&vec![a_row(1, 1500 * HZ, n, n)], wall);
        assert!(said.is_empty(), "complained about a row being typed into: {said:?}");
    }

    wall += SECOND / 60;
    let said = watch.watch_rows(&vec![a_row(1, 1500 * HZ, 2, 2)], wall);
    assert_eq!(said.len(), 1, "{said:?}");
    let line = remark_line(&said[0], "PSK31");
    assert!(line.contains("lost text on screen"), "{line}");
    assert!(line.contains("2 characters drawn where there were 39"), "{line}");
    assert_eq!(
        line,
        "PSK31 1500 Hz lost text on screen: 2 characters drawn where there were 39, out of 2 the channel holds \
         (it held 39); row y=100, sliding 0 px, forgetting before never with its oldest text at 1.0s"
    );

    // Once a second, not once a frame.
    wall += SECOND / 60;
    let said = watch.watch_rows(&vec![a_row(1, 1500 * HZ, 1, 1)], wall);
    assert!(said.is_empty(), "wrote a line every frame: {said:?}");
}

/// A row that goes and comes back says so, with how long it was away.
#[test]
fn the_log_notices_a_row_coming_back() {
    let mut watch = Watch::new();
    let mut wall = 1000 * SECOND;
    watch.watch_rows(&vec![a_row(1, 1500 * HZ, 40, 40)], wall);

    wall += 3 * SECOND; // three seconds of frames in which it was not drawn
    let said = watch.watch_rows(&vec![a_row(1, 1500 * HZ, 40, 40)], wall);
    assert_eq!(said.len(), 1, "{said:?}");
    let line = remark_line(&said[0], "PSK31");
    assert!(line.contains("back after 3.0s off screen"), "{line}");
}

/// A station back under a different channel id is named as that.
#[test]
fn the_log_names_a_station_that_came_back_as_a_new_channel() {
    let mut watch = Watch::new();
    let mut wall = 1000 * SECOND;
    watch.watch_rows(&vec![a_row(7, 1500 * HZ, 40, 40)], wall);

    wall += 2 * SECOND;
    let said = watch.watch_rows(&vec![a_row(8, 1501 * HZ, 1, 1)], wall);
    assert_eq!(said.len(), 1, "{said:?}");
    assert!(matches!(said[0], Remark::Reborn { old_id: 7, .. }));
    let line = remark_line(&said[0], "PSK31");
    assert!(line.contains("come back as channel 8"), "{line}");
    assert!(line.contains("was channel 7"), "{line}");
}
