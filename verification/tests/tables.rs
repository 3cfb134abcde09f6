//! Dates, colours and the synthetic bands.

use ragchew_gui::calendar::{civil_from_days, clock, hms, utc_stamp};
use ragchew_gui::colormap::{lut, magma, LEVELS};
use ragchew_gui::demo::{
    fitting, frame_start, lay_out_overs, next_frame, noise_bits, noise_step, occupied_spectrum, overlap,
    psk_text, runs_over, signals_floor_db, signals_gap_s, Band, Olivia, SignalsMode, Submode, JS8_STATIONS,
    OLIVIA_STATIONS, SIGNALS_SECS,
};
use ragchew_gui::modes::{ModeId, Protocol, SAMPLE_RATE, SECOND};
use ragchew_gui::startup::{title, Asked, Source};

/// A logged time that is wrong is worse than no logged time.
#[test]
fn utc_stamps_are_right() {
    assert_eq!(utc_stamp(0), "1970-01-01 00:00:00Z");
    assert_eq!(utc_stamp(86_399), "1970-01-01 23:59:59Z");
    assert_eq!(utc_stamp(86_400), "1970-01-02 00:00:00Z");
    // 2000 is a leap year (the 400-year exception), 1900 was not.
    assert_eq!(utc_stamp(951_782_400), "2000-02-29 00:00:00Z");
    assert_eq!(utc_stamp(951_868_800), "2000-03-01 00:00:00Z");
    // 2100 is not a leap year (the century rule).
    assert_eq!(utc_stamp(4_107_456_000), "2100-02-28 00:00:00Z");
    assert_eq!(utc_stamp(4_107_542_400), "2100-03-01 00:00:00Z");
    // an ordinary leap day, and the last second of a year
    assert_eq!(utc_stamp(1_709_164_800), "2024-02-29 00:00:00Z");
    assert_eq!(utc_stamp(1_767_225_599), "2025-12-31 23:59:59Z");
    // a clock set before the epoch still prints a date rather than panicking
    assert_eq!(utc_stamp(-1), "1969-12-31 23:59:59Z");
}

/// Stamps have one shape, and sort as the instants they stand for.
#[test]
fn stamps_sort_as_their_instants() {
    // The first second of the year 0, the last of the year 9999, and some between.
    let instants = [-62_167_219_200i64, -62_135_596_801, -1, 0, 59, 60, 3_600, 951_782_400, 253_402_300_799];
    let stamps: Vec<String> = instants.iter().map(|t| utc_stamp(*t)).collect();
    assert_eq!(stamps[0], "0000-01-01 00:00:00Z");
    assert_eq!(stamps[8], "9999-12-31 23:59:59Z");
    for s in &stamps {
        let shape: String = s.chars().map(|c| if c.is_ascii_digit() { 'd' } else { c }).collect();
        assert_eq!(shape, "dddd-dd-dd dd:dd:ddZ");
    }
    for pair in stamps.windows(2) {
        assert!(pair[0] < pair[1], "{} is not before {}", pair[0], pair[1]);
    }
}

/// Days are dates.
#[test]
fn a_day_is_a_date() {
    assert_eq!(civil_from_days(0), (1970, 1, 1));
    assert_eq!(civil_from_days(-1), (1969, 12, 31));
    assert_eq!(civil_from_days(11_016), (2000, 2, 29));
    assert_eq!(civil_from_days(-719_468), (0, 3, 1));
}

/// Durations read as durations.
#[test]
fn durations_are_written_out() {
    assert_eq!(hms(0), "0:00:00");
    assert_eq!(hms(3_725 * SECOND), "1:02:05");
    assert_eq!(hms(-SECOND), "0:00:00");
    assert_eq!(clock(65 * SECOND), "1:05");
    assert_eq!(clock(5_000 * SECOND), "83:20");
    assert_eq!(clock(-SECOND), "0:00");
}

/// The table is what the ramp gives, to a value.
#[test]
fn the_table_matches_the_ramp_it_samples() {
    let lut = lut();
    assert_eq!(lut.len(), LEVELS);
    let mut worst = 0i32;
    for i in 0..=10_000u32 {
        let want = magma(i, 10_000);
        let got = lut[((2 * i * 1023 + 10_000) / 20_000) as usize];
        for k in 0..3 {
            worst = worst.max((want[k] as i32 - got[k] as i32).abs());
        }
    }
    assert!(worst <= 1, "the table is {worst} values off the ramp");
    // And exactly so at each of its levels.
    for (i, c) in lut.iter().enumerate() {
        assert_eq!(*c, magma(i as u32, LEVELS as u32 - 1), "level {i}");
    }
}

/// The ends of the table are the ends of the ramp.
#[test]
fn the_ends_are_exact() {
    let t = lut();
    assert_eq!(t[0], magma(0, 1));
    assert_eq!(t[LEVELS - 1], magma(1, 1));
    // Beyond the end is the end.
    assert_eq!(magma(5, 1), magma(1, 1));
}

/// Only one pair of stations of the demo band shares spectrum.
#[test]
fn only_the_deliberate_collision_overlaps() {
    let bands = occupied_spectrum();
    assert_eq!(bands.len(), 12);
    let mut hits = Vec::new();
    for (i, a) in bands.iter().enumerate() {
        for (j, b) in bands.iter().enumerate().skip(i + 1) {
            if overlap(*a, *b) {
                hits.push((i, j));
            }
        }
    }
    assert_eq!(hits.len(), 1, "{hits:?} overlap, one pair should");
    // The JS8 station that is inside the widest Olivia one.
    let (i, j) = hits[0];
    assert_eq!(JS8_STATIONS[i], (2_000_000, Submode::Normal));
    assert_eq!(OLIVIA_STATIONS[j - 8].0, 2_000_000);
    assert_eq!(OLIVIA_STATIONS[j - 8].1, Olivia::Tones16In500);
}

/// A band goes by its flag, with or without its dashes.
#[test]
fn every_band_goes_by_its_flag() {
    for b in Band::ALL {
        assert_eq!(Band::from_flag(b.flag()), Some(b));
        assert_eq!(Band::from_flag(&format!("--{}", b.flag())), Some(b));
        assert!(!b.label().is_empty() && !b.hover().is_empty());
    }
    assert_eq!(Band::from_flag("ten"), None);
    assert_eq!(Band::Weak.source_name(), "weak-signal demo");
    assert_eq!(Band::Demo.label(), "Demo band");
}

/// A PSK station repeats its call.
#[test]
fn a_psk_station_repeats_itself() {
    assert_eq!(psk_text("cq de kb9psk  ", 2), "cq de kb9psk  cq de kb9psk  ");
    assert_eq!(psk_text("cq", 0), "");
}

/// Each mode of the know-your-signals band has a floor and a pause of its own.
#[test]
fn the_signals_band_is_laid_out() {
    assert_eq!(signals_floor_db(SignalsMode::Psk31), -5_000);
    assert_eq!(signals_floor_db(SignalsMode::Js8Normal), -15_000);
    assert_eq!(signals_floor_db(SignalsMode::Olivia16In500), -12_000);
    let psk = ModeId {
        protocol: Protocol::Psk,
        rank: 0,
        period_s: None,
        chunk: 3_840_000,
        assoc_tol: 15_625,
        bandwidth: 62_500,
        baud: 31_250,
        dup_tol: 1_920_000,
        block_samples: 98_304,
        lock_samples: 24_000,
    };
    assert!(signals_gap_s(psk) > 0);
    let (starts, ends) = lay_out_overs(&vec![12_000, 24_000], &vec![SECOND, 2 * SECOND]);
    assert_eq!(starts.len(), 2);
    assert!(starts[1] - starts[0] >= SECOND);
    assert!(ends >= starts[1] + 2 * SECOND);
    assert_eq!(runs_over(SIGNALS_SECS as i64 * SECOND), None);
    assert_eq!(runs_over((SIGNALS_SECS as i64 + 2) * SECOND), Some(2 * SECOND));
}

/// A frame starts half a second into its cycle, and is cut where the band ends.
#[test]
fn frames_start_in_their_cycles() {
    assert_eq!(frame_start(0, Submode::Slow), SAMPLE_RATE / 2);
    assert_eq!(frame_start(2, Submode::Normal), 30 * SAMPLE_RATE + SAMPLE_RATE / 2);
    assert_eq!(Submode::Turbo.period_s(), 6);
    assert_eq!(Submode::Normal.bandwidth(), 50_000);
    assert_eq!(fitting(0, 10, 100), 10);
    assert_eq!(fitting(95, 10, 100), 5);
    assert_eq!(fitting(100, 10, 100), 0);
    assert_eq!(next_frame("CQ DE W1AW", 6), (false, "W1AW".to_string()));
    assert_eq!(next_frame("CQ", 2), (true, String::new()));
    assert_eq!(noise_step(0), 1);
    assert_eq!(noise_step(1), 6364136223846793006);
    assert_eq!(noise_bits(u64::MAX), 0xff_ffff);
}

/// With nothing on the command line a monitor monitors.
#[test]
fn what_was_asked_for_is_what_opens() {
    let none = Asked { live: false, file: false, demo: false, weak: false, crowded: false, signals: false };
    assert_eq!(none.source(), Source::Live);
    assert_eq!(Asked { file: true, ..none }.source(), Source::File);
    assert_eq!(Asked { file: true, live: true, ..none }.source(), Source::Live);
    assert_eq!(Asked { crowded: true, ..none }.source(), Source::Synthetic(Band::Crowded));
    assert_eq!(Asked { demo: true, file: true, ..none }.source(), Source::Synthetic(Band::Demo));
    assert_eq!(title(Source::Live), "ragchew — live");
    assert_eq!(title(Source::File), "ragchew");
    assert_eq!(title(Source::Synthetic(Band::Signals)), "ragchew — know-your-signals demo");
}
