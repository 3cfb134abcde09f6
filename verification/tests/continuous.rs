//! The continuous-mode decoder: when it scans, whom it tracks, and what it says.

use ragchew_gui::continuous::{
    Acquired, Continuous, Heard, Station, ACQ_STEP, ACQ_WINDOW, MISSES_BEFORE_CLOSE,
};
use ragchew_gui::modes::{Decode, MilliHz, ModeId, Protocol, Ticks, SAMPLE_RATE, SECOND};

const HZ: MilliHz = 1_000;
const BAND: (MilliHz, MilliHz) = (300 * HZ, 2600 * HZ);

/// Samples to a PSK31 symbol, and to the block that finds it.
const SYMBOL: usize = 384;
const BLOCK: usize = 256 * SYMBOL;

const PSK31: ModeId = ModeId {
    protocol: Protocol::Psk,
    rank: 20,
    period_s: None,
    chunk: 3_840_000,
    assoc_tol: 15_625,
    bandwidth: 62_500,
    baud: 31_250,
    dup_tol: 1_920_000,
    block_samples: BLOCK as u32,
    lock_samples: 24_000,
};
const PSK63: ModeId = ModeId {
    rank: 21,
    chunk: 1_920_000,
    baud: 62_500,
    block_samples: BLOCK as u32 / 2,
    ..PSK31
};
const OL_8_250: ModeId = ModeId {
    protocol: Protocol::Olivia,
    rank: 12,
    period_s: None,
    chunk: 24_576_000,
    assoc_tol: 31_250,
    bandwidth: 250_000,
    baud: 31_250,
    dup_tol: 12_000_000,
    block_samples: 0,
    lock_samples: 0,
};

fn decoded(mode: ModeId, hz: MilliHz, t: Ticks, text: &str) -> Decode {
    Decode { hz, time_s: t, text: text.to_string(), mode, ends_over: false, quality: 30_000, snr_db: None }
}

/// Feed audio that nothing is read from.
fn feed_quietly(c: &mut Continuous<f32>, samples: &[f32]) {
    c.take_in(samples);
    c.feed(Vec::new());
}

/// The window is what the enabled modes need, and the first scan is what the
/// least demanding of them needs.
#[test]
fn the_window_follows_the_modes_and_the_first_scan_follows_the_quickest() {
    let c: Continuous<f32> = Continuous::new(vec![PSK31], BAND);
    assert_eq!(c.window, BLOCK);
    assert_eq!(c.next_acq, c.window, "waited for more than it needed");

    let c: Continuous<f32> = Continuous::new(vec![PSK31, PSK63], BAND);
    assert_eq!(c.window, BLOCK, "the slower mode sets the window");
    assert_eq!(c.next_acq, BLOCK / 2, "the quicker one goes first");

    // Half a window at most, so consecutive scans overlap where a single window
    // is too short for the block scan to overlap inside it.
    let c: Continuous<f32> = Continuous::new(vec![PSK63], BAND);
    assert!(c.step <= BLOCK / 2 / 2, "step {} samples", c.step);

    let c: Continuous<f32> = Continuous::new(vec![PSK31, OL_8_250], BAND);
    assert_eq!(c.window, ACQ_WINDOW, "Olivia lost its window");
    assert_eq!(c.next_acq, BLOCK, "PSK waited for Olivia's window");
    assert_eq!(c.step, ACQ_STEP, "a long window should keep the usual cadence");
}

/// A scan is expensive, so at most one is ever out, and the ones that came due
/// while it was out do not pile up behind it.
#[test]
fn a_scan_that_overruns_neither_doubles_up_nor_queues() {
    let audio = vec![0.0f32; BLOCK + 40 * SAMPLE_RATE];
    let mut c: Continuous<f32> = Continuous::new(vec![PSK31], BAND);
    feed_quietly(&mut c, &audio[..BLOCK + 4096]);
    let job = c.due().expect("nothing came due with a whole block in hand");
    assert_eq!(job.samples.len(), BLOCK);

    // However much audio arrives while it is out, nothing else starts.
    for chunk in audio[BLOCK..].chunks(4096) {
        feed_quietly(&mut c, chunk);
        assert!(c.due().is_none(), "started a second scan with one already out");
    }

    // And when it comes back, what is due is the audio there is now: one scan,
    // not one for every step that went by while it was out.
    let done = job.run(Vec::new());
    c.confirm(&done.found);
    c.apply(done, Vec::new());
    let mut issued = 0;
    while c.due().is_some() {
        c.confirm(&Vec::new());
        c.apply(Acquired { found: Vec::new() }, Vec::new());
        issued += 1;
    }
    assert_eq!(issued, 1, "{issued} scans were owed for the time one scan took");
}

/// The size of the pieces that audio comes in moves no scan.
#[test]
fn the_size_of_a_piece_leaves_the_scans_where_they_are() {
    let audio = vec![0.0f32; BLOCK + 60 * SAMPLE_RATE];
    let scans = |piece: usize| {
        let mut c: Continuous<f32> = Continuous::new(vec![PSK31, PSK63], BAND);
        let mut at = Vec::new();
        for chunk in audio.chunks(piece) {
            feed_quietly(&mut c, chunk);
            while let Some(job) = c.due() {
                at.push((job.at, job.samples.len()));
                let done = job.run(Vec::new());
                c.confirm(&done.found);
                c.apply(done, Vec::new());
            }
        }
        at
    };
    let fine = scans(512);
    assert!(fine.len() > 2);
    assert_eq!(fine, scans(4096));
    assert_eq!(fine, scans(1000));
}

/// What an overlapping scan finds again is not reported again.
#[test]
fn the_same_found_again_is_not_reported_again() {
    let mut c: Continuous<f32> = Continuous::new(vec![OL_8_250], BAND);
    feed_quietly(&mut c, &vec![0.0f32; ACQ_WINDOW]);
    let found = || {
        vec![
            decoded(OL_8_250, 800 * HZ, 9 * SECOND, "DEF"),
            decoded(OL_8_250, 800 * HZ, 3 * SECOND, "ABC"),
            decoded(OL_8_250, 1600 * HZ, 5 * SECOND, "XYZ"),
        ]
    };
    let texts = |ds: Vec<Decode>| -> Vec<String> { ds.into_iter().map(|d| d.text).collect() };
    c.due().expect("a whole window is in hand");
    c.confirm(&found());
    assert_eq!(texts(c.apply(Acquired { found: found() }, Vec::new())), ["ABC", "XYZ", "DEF"]);
    feed_quietly(&mut c, &vec![0.0f32; 4096]);
    c.confirm(&found());
    assert!(c.apply(Acquired { found: found() }, Vec::new()).is_empty());
    assert!(c.tracking().is_empty());
}

/// A scan whose worker has gone is given up, so that another can be started.
#[test]
fn an_abandoned_scan_makes_way() {
    let mut c: Continuous<f32> = Continuous::new(vec![PSK31], BAND);
    feed_quietly(&mut c, &vec![0.0f32; BLOCK]);
    assert!(c.due().is_some());
    feed_quietly(&mut c, &vec![0.0f32; BLOCK]);
    assert!(c.due().is_none());
    c.abandon();
    assert!(c.due().is_some());
}

/// A receiver whose audio has been trimmed away is closed, not skipped.
#[test]
fn a_receiver_whose_audio_has_gone_is_closed_rather_than_skipped() {
    let mut c: Continuous<f32> = Continuous::new(vec![PSK31], BAND);
    c.at = 10_000;
    c.stations.push(Station {
        id: 0,
        mode: PSK31,
        hz: 1500 * HZ,
        quality: 50_000,
        covered_from: 0,
        fed_to: 0,
        missed: 0,
    });
    c.next_station = 1;

    let to_feed = c.take_in(&vec![0.0f32; 1200]);
    assert!(to_feed.is_empty());
    assert!(c.tracking().is_empty(), "kept a receiver it can never feed again");
}

/// A station that a scan finds is tracked from then on, and its receiver's text
/// is what is said of it.
#[test]
fn a_found_station_is_tracked_and_read() {
    let mut c: Continuous<f32> = Continuous::new(vec![PSK31], BAND);
    feed_quietly(&mut c, &vec![0.0f32; BLOCK]);
    let job = c.due().unwrap();
    let done = job.run(vec![
        decoded(PSK31, 1500 * HZ, 2 * SECOND, "c"),
        decoded(PSK31, 1501 * HZ, 3 * SECOND, "q"),
    ]);
    let open = c.confirm(&done.found);
    assert_eq!(open.len(), 1, "one station, one receiver");
    assert_eq!(open[0].hz, 1500 * HZ);
    let station = open[0].station;
    // The receiver, fed from where the station was, reads both letters.
    let end = BLOCK;
    let caught = vec![
        Heard { station, offset: 2 * SAMPLE_RATE, ch: 'c', carrier: 5_000 },
        Heard { station, offset: 3 * SAMPLE_RATE, ch: 'q', carrier: 5_000 },
    ];
    let said = c.apply(done, caught);
    let text: String = said.iter().map(|d| d.text.as_str()).collect();
    assert_eq!(text, "cq", "said twice, or not at all");
    assert_eq!(c.tracking(), vec![(PSK31, 1500 * HZ)]);

    // It is fed on from where it is.
    let to_feed = c.take_in(&vec![0.0f32; 4096]);
    assert_eq!(to_feed, vec![(station, end)]);
    assert_eq!(c.audio_from(end).len(), 4096);
    let more = c.feed(vec![
        Heard { station, offset: end + 100, ch: ' ', carrier: 5_000 },
        // Noise comes with no carrier to speak of, and is not believed.
        Heard { station, offset: end + 200, ch: '$', carrier: 10 },
    ]);
    assert_eq!(more.iter().map(|d| d.text.as_str()).collect::<String>(), " ");
    assert_eq!(more[0].quality, 30_000, "the quality is the one the scan measured");

    // A station that goes unconfirmed for long enough is let go of.
    for _ in 0..=MISSES_BEFORE_CLOSE {
        assert_eq!(c.tracking().len(), 1);
        c.confirm(&Vec::new());
        c.apply(Acquired { found: Vec::new() }, Vec::new());
    }
    assert!(c.tracking().is_empty(), "tracking a station that has gone");
}

/// A channel is never told about its own past.
#[test]
fn a_channel_is_never_told_about_its_own_past() {
    let mut c: Continuous<f32> = Continuous::new(vec![PSK31, OL_8_250], BAND);
    let mut newest = Ticks::MIN;
    let mut checked = 0;
    for round in 0..8i64 {
        feed_quietly(&mut c, &vec![0.0f32; ACQ_WINDOW]);
        while let Some(job) = c.due() {
            // The same blocks again and again, with one that is new.
            let at = job.at as Ticks * 1000;
            let mut found = vec![decoded(OL_8_250, 800 * HZ, (round + 1) * SECOND, "ABC")];
            for k in (0..6).rev() {
                found.push(decoded(OL_8_250, 800 * HZ, 4 * k * SECOND + SECOND * round / 3, "XYZ"));
            }
            assert!(found.iter().all(|d| d.time_s + at >= 0));
            let done = job.run(found);
            c.confirm(&done.found);
            for d in c.apply(done, Vec::new()) {
                assert!(d.time_s >= newest, "went backwards: {} after {newest}", d.time_s);
                newest = d.time_s;
                checked += 1;
            }
        }
    }
    assert!(checked > 10, "only {checked} decodes; the test proved little");
}
