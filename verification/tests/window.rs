//! The window: its settings, its view and what it says.

use ragchew_gui::choices::{
    blank, is_chosen, is_stale, keeps_painting, link_text, offers_routes, pick_output, record_ticked, set_csv,
    set_recording, Blank, Link, OutputChange, Switch, REFRESH_S,
};
use ragchew_gui::listening::{counts, enabled_modes, listen_for, menu_label, set_all};
use ragchew_gui::modes::{MilliHz, ModeId, Protocol, Ticks, SAMPLE_RATE, SECOND};
use ragchew_gui::pane::{
    sized_by, tick_labels, turned, Grip, Hand, Pane, Turn, Wheel, BAND_BAR_W, MIN_THUMB_H,
};
use ragchew_gui::rig::Keying;
use ragchew_gui::rows::{forget_secs, MAX_FADE_S};
use ragchew_gui::settings::{Desk, Settings, MIN_QSO_W};
use ragchew_gui::theme::{legible, mode_color, mode_text_color, saved_theme, Rgb, Theme};
use ragchew_gui::transport::Transport;
use ragchew_gui::tuning::Spot;
use ragchew_gui::view::{
    clamp_waterfall_w, tick_step, Panorama, MIN_SPAN_HZ, MIN_TEXT_W, MIN_WATERFALL_W, ONE,
};
use ragchew_gui::waterfall::{
    columns_in, newest_column, snap_to_pixels, texture_geometry, Columns, Key, Norm, Picture, Redraw, MAX_COLS,
};
use ragchew_gui::words::{
    busy_text, carrier_text, confidence_text, cursor_text, device_label, frames_text, heard_for, heard_text,
    last_word, offset, recording_text, row_title, send_hint, signal_text, snr_text, started_text, thread_count, wrong_rate,
    Saying,
};

const HZ: MilliHz = 1_000;
const PT: i64 = 1_000;

const JS8_NORMAL: ModeId = ModeId {
    protocol: Protocol::Js8,
    rank: 1,
    period_s: Some(15),
    chunk: 151_680_000,
    assoc_tol: 6_250,
    bandwidth: 50_000,
    baud: 6_250,
    dup_tol: 12_000_000,
    block_samples: 0,
    lock_samples: 0,
};
const JS8_SLOW: ModeId = ModeId { rank: 2, period_s: Some(30), chunk: 303_360_000, ..JS8_NORMAL };
const JS8_FAST: ModeId = ModeId { rank: 0, period_s: Some(10), chunk: 94_800_000, ..JS8_NORMAL };
const JS8_TURBO: ModeId = ModeId { rank: 3, period_s: Some(6), chunk: 47_400_000, ..JS8_NORMAL };
const OL_8_250: ModeId = ModeId {
    protocol: Protocol::Olivia,
    rank: 12,
    period_s: None,
    chunk: 24_576_000,
    assoc_tol: 31_250,
    bandwidth: 250_000,
    baud: 31_250,
    dup_tol: 12_000_000,
    block_samples: 0,
    lock_samples: 0,
};
const OL_4_125: ModeId = ModeId { rank: 10, bandwidth: 125_000, ..OL_8_250 };
const OL_16_500: ModeId = ModeId { rank: 11, bandwidth: 500_000, ..OL_8_250 };
const OL_32_1000: ModeId = ModeId { rank: 13, bandwidth: 1_000_000, ..OL_8_250 };
const OL_8_500: ModeId = ModeId { rank: 14, bandwidth: 500_000, baud: 62_500, ..OL_8_250 };
const OL_16_1000: ModeId = ModeId { rank: 15, bandwidth: 1_000_000, baud: 62_500, ..OL_8_250 };
const PSK31: ModeId = ModeId {
    protocol: Protocol::Psk,
    rank: 20,
    period_s: None,
    chunk: 3_840_000,
    assoc_tol: 15_625,
    bandwidth: 62_500,
    baud: 31_250,
    dup_tol: 1_920_000,
    block_samples: 98_304,
    lock_samples: 24_000,
};

fn all_modes() -> Vec<ModeId> {
    vec![
        JS8_SLOW, JS8_NORMAL, JS8_FAST, JS8_TURBO, OL_4_125, OL_8_250, OL_16_500, OL_32_1000, OL_8_500,
        OL_16_1000, PSK31,
    ]
}

fn a_desk() -> Desk {
    Desk::base(0, 4_000 * HZ, all_modes(), JS8_NORMAL, "/dev/ttyUSB0")
}

fn fresh() -> Settings {
    Settings::fresh(Vec::new(), "JS8 Normal".to_string(), "/dev/ttyUSB0")
}

/// The frequency scale stays legible at any zoom.
#[test]
fn tick_spacing_suits_the_zoom() {
    for span in [50, 120, 500, 1500, 4000] {
        let step = tick_step(span * HZ);
        let n = (span * HZ) as f64 / step as f64;
        assert!((2.0..=12.0).contains(&n), "{n} labels across {span} Hz (step {step})");
    }
}

/// Every step is a round number a reader can do arithmetic with.
#[test]
fn tick_steps_are_round() {
    for span in [40, 77, 333, 999, 4000, 8000] {
        let step = tick_step(span * HZ) as f64 / HZ as f64;
        let mantissa = step / 10f64.powf(step.log10().floor());
        assert!(
            [1.0, 2.0, 5.0].iter().any(|m| (m - mantissa).abs() < 1e-9),
            "step {step} is not a 1/2/5 multiple"
        );
    }
}

/// Every multiple of the step that is in view is labelled, and nothing else.
#[test]
fn the_scale_is_labelled_in_full() {
    let mut v = Panorama::of_band(0, 4_000 * HZ);
    assert_eq!(tick_labels(&v, 1_000 * HZ), vec![0, 1_000_000, 2_000_000, 3_000_000, 4_000_000]);
    v.set_view(Some((1_010 * HZ, 1_190 * HZ)));
    assert_eq!(tick_labels(&v, 50 * HZ), vec![1_050_000, 1_100_000, 1_150_000]);
}

/// The split stays inside the window, and both panels keep some width.
#[test]
fn split_stays_usable_at_any_window_width() {
    for window in [1280, 640, 300, 200, 120] {
        for want in [-50, 0, 100, 300, 5000] {
            let w = clamp_waterfall_w(window * PT, 35 * PT, want * PT);
            assert!(w >= MIN_WATERFALL_W, "waterfall {w} in a {window} window");
            assert!(w <= (window * PT).max(MIN_WATERFALL_W), "waterfall {w} exceeds {window}");
        }
    }
}

/// A comfortable window honours both minimums and the requested width.
#[test]
fn split_is_respected_when_there_is_room() {
    assert_eq!(clamp_waterfall_w(1280 * PT, 35 * PT, 420 * PT), 420 * PT);
    assert_eq!(clamp_waterfall_w(1280 * PT, 35 * PT, 5000 * PT), (1280 - 35) * PT - MIN_TEXT_W);
}

/// Settings survive being written down and restored over another window.
#[test]
fn settings_round_trip() {
    let mut desk = a_desk();
    desk.text_px = 17_000;
    desk.waterfall_w = 480_000;
    desk.span_s = 90 * SECOND;
    desk.speed = 3_000;
    desk.preferred_input = Some("USB Audio CODEC".to_string());
    desk.preferred_output = Some("alsa:plughw:CARD=Rig,DEV=0".to_string());
    desk.qso_w = 380_000;
    desk.theme = Theme::Light;
    desk.default_mode = OL_16_500;
    desk.forget_min = 20_000;
    desk.fade_secs = 7 * SECOND / 2;
    desk.address.host = "radio.local".to_string();
    desk.address.port = 4599;
    desk.address.device = "/dev/ttyUSB3".to_string();
    desk.address.baud = 9600;
    desk.rig = desk.address.keying_for("rigctld");
    desk.view.set_view(Some((1200 * HZ, 1400 * HZ)));
    for (m, on) in desk.modes.iter_mut() {
        *on = m.protocol == Protocol::Olivia;
    }

    let wanted = desk.enabled_modes();
    let saved = desk.settings(vec!["Olivia 16/500".to_string()], "Olivia 16/500".to_string());
    assert_eq!(saved.rig_keying, "rigctld");
    assert_eq!(saved.theme, "light");
    let mut restored = a_desk();
    restored.apply(saved, &wanted, Some(OL_16_500), JS8_NORMAL);

    assert_eq!(restored.text_px, 17_000);
    assert_eq!(restored.waterfall_w, 480_000);
    assert_eq!(restored.span_s, 90 * SECOND);
    assert_eq!(restored.speed, 3_000);
    assert_eq!(restored.preferred_input.as_deref(), Some("USB Audio CODEC"));
    assert_eq!(restored.preferred_output.as_deref(), Some("alsa:plughw:CARD=Rig,DEV=0"));
    assert_eq!(restored.qso_w, 380_000);
    assert_eq!(restored.theme, Theme::Light);
    assert_eq!(restored.default_mode, OL_16_500);
    assert_eq!(restored.forget_min, 20_000);
    assert_eq!(restored.fade_secs, 7 * SECOND / 2);
    assert_eq!((restored.view.f_lo, restored.view.f_hi), (1200 * HZ, 1400 * HZ));
    assert!(
        matches!(&restored.rig, Keying::RigCtld { host, port: 4599 } if host == "radio.local"),
        "the rig came back as something else"
    );
    // The cable is remembered even while the daemon is the one in use.
    assert_eq!(restored.address.device, "/dev/ttyUSB3");
    assert_eq!(restored.address.baud, 9600);
    assert_eq!(restored.enabled_modes(), desk.enabled_modes());
    assert!(restored.enabled_modes().iter().all(|m| m.protocol == Protocol::Olivia));
}

/// The timeout is on out of the box.
#[test]
fn a_fresh_install_forgets_after_a_quarter_of_an_hour() {
    let quarter_hour = Some(15 * 60 * SECOND);
    assert_eq!(forget_secs(a_desk().forget_min), quarter_hour);

    // A file from a build that had never heard of the setting takes the default.
    let mut desk = a_desk();
    let old = Settings { text_px: 17_000, qso_w: 380_000, ..fresh() };
    desk.apply(old, &vec![JS8_NORMAL], None, JS8_NORMAL);
    assert_eq!(forget_secs(desk.forget_min), quarter_hour, "an old settings file turned it off");
    assert_eq!(desk.fade_secs, 8 * SECOND);

    // And a file that does name it is the operator's own answer.
    let mut desk = a_desk();
    desk.apply(Settings { forget_min: 0, ..fresh() }, &Vec::new(), None, JS8_NORMAL);
    assert_eq!(forget_secs(desk.forget_min), None, "a saved zero was overruled by the default");
}

/// A theme name that is not known falls back to Auto and leaves the rest intact.
#[test]
fn an_unknown_theme_falls_back_without_taking_the_settings_with_it() {
    for theme in ["aubergine", ""] {
        let mut desk = a_desk();
        desk.theme = Theme::Dark;
        let s = Settings { text_px: 17_000, qso_w: 380_000, theme: theme.to_string(), ..fresh() };
        desk.apply(s, &vec![JS8_NORMAL], None, JS8_NORMAL);
        assert_eq!(desk.theme, Theme::Auto, "{theme} should not have been honoured");
        assert_eq!(desk.text_px, 17_000, "{theme} took the other settings down with it");
    }

    // and a file from before the setting existed
    let mut desk = a_desk();
    desk.theme = Theme::Dark;
    desk.apply(Settings { text_px: 17_000, ..fresh() }, &Vec::new(), None, JS8_NORMAL);
    assert_eq!(desk.theme, Theme::Auto);
}

/// Every theme goes by its name.
#[test]
fn themes_go_by_their_names() {
    for t in Theme::ALL {
        assert_eq!(Theme::parse(t.name()), Some(t));
        assert_eq!(saved_theme(t.name()), t);
        assert!(!t.hover().is_empty());
    }
    assert_eq!(Theme::parse("Dark"), None, "a label is not a name");
    assert_eq!(Theme::Dark.label(), "Dark");
    assert_eq!(Theme::default(), Theme::Auto);
}

/// On a light panel every accent has to come down far enough to read.
#[test]
fn light_mode_darkens_what_would_otherwise_wash_out() {
    for m in all_modes() {
        let dark = mode_text_color(true, &m);
        let light = mode_text_color(false, &m);
        assert_eq!(dark, mode_color(&m), "the dark palette must be left alone");
        // Rec. 601 luma is enough to say "this is not nearly white".
        let luma = |c: Rgb| 0.299 * c.r as f32 + 0.587 * c.g as f32 + 0.114 * c.b as f32;
        assert!(luma(light) < 128.0, "{m:?} stays at luma {:.0} in light mode", luma(light));
    }
}

/// Each mode has a colour of its own, and the exact one.
#[test]
fn modes_are_told_apart_by_colour() {
    let modes = all_modes();
    for (i, a) in modes.iter().enumerate() {
        for b in &modes[i + 1..] {
            assert_ne!(mode_color(a), mode_color(b));
        }
    }
    assert_eq!(mode_color(&JS8_SLOW), Rgb { r: 130, g: 200, b: 255 });
    assert_eq!(mode_color(&OL_8_500), Rgb { r: 140, g: 220, b: 235 });
    assert_eq!(mode_color(&OL_16_1000), Rgb { r: 130, g: 235, b: 200 });
    assert_eq!(mode_color(&ModeId { bandwidth: 2_000_000, ..OL_8_250 }), Rgb { r: 200, g: 190, b: 230 });
    assert_eq!(legible(false, Rgb { r: 255, g: 100, b: 1 }), Rgb { r: 114, g: 45, b: 0 });
}

/// The mode a hand-opened conversation starts in falls back where it is not
/// known.
#[test]
fn an_unknown_default_mode_falls_back() {
    for name in ["JS8 Hyper", "aubergine", ""] {
        let mut desk = a_desk();
        desk.default_mode = OL_8_250;
        let s = Settings { text_px: 17_000, default_mode: name.to_string(), ..fresh() };
        desk.apply(s, &Vec::new(), None, JS8_NORMAL);
        assert_eq!(desk.default_mode, JS8_NORMAL, "{name} should not have been honoured");
        assert_eq!(desk.text_px, 17_000, "{name} took the other settings with it");
    }
    // and a file from before the setting existed, which reads as a fresh one
    let mut desk = a_desk();
    desk.default_mode = OL_8_250;
    let s = Settings { text_px: 17_000, ..fresh() };
    let start_in = (s.default_mode == "JS8 Normal").then_some(JS8_NORMAL);
    desk.apply(s, &Vec::new(), start_in, OL_16_1000);
    assert_eq!(desk.default_mode, JS8_NORMAL);
    assert_eq!(desk.text_px, 17_000);
}

/// What is in view includes its edges.
#[test]
fn the_edges_are_in_view() {
    let mut v = Panorama::of_band(0, 4000 * HZ);
    v.set_view(Some((1000 * HZ, 2000 * HZ)));
    assert!(v.shows(1000 * HZ) && v.shows(2000 * HZ) && v.shows(1500 * HZ));
    assert!(!v.shows(1000 * HZ - 1) && !v.shows(2000 * HZ + 1));
}

/// What was heard of a station runs to the end of its last decode.
#[test]
fn the_last_decode_counts_whole() {
    assert_eq!(heard_for(2 * SECOND, 17 * SECOND, 12_000_000), 16 * SECOND);
    assert_eq!(heard_for(SECOND, SECOND, 0), 0);
    assert_eq!(heard_for(Ticks::MIN, Ticks::MAX, 1), Ticks::MAX);
    assert_eq!(heard_for(Ticks::MAX, Ticks::MIN, 1), Ticks::MIN);
}

/// A settings file written before the view was saved opens on the whole band.
#[test]
fn settings_without_a_saved_view_open_on_the_whole_band() {
    let mut desk = a_desk();
    desk.view.set_view(Some((1000 * HZ, 1100 * HZ)));
    desk.apply(fresh(), &Vec::new(), None, JS8_NORMAL);
    assert_eq!((desk.view.f_lo, desk.view.f_hi), (0, 4000 * HZ));
}

/// Whatever is in the settings file, the window opens somewhere it can be
/// navigated out of.
#[test]
fn a_restored_view_is_fitted_to_the_band() {
    let band = (0, 4000 * HZ);
    let mut v = Panorama::of_band(band.0, band.1);
    for want in [
        Some((1200 * HZ, 1400 * HZ)),   // the ordinary case, kept as-is
        Some((-5000 * HZ, 9000 * HZ)),  // wider than the band
        Some((3900 * HZ, 4600 * HZ)),   // hanging off the top
        Some((-600 * HZ, 200 * HZ)),    // hanging off the bottom
        Some((1500 * HZ, 1500 * HZ + 500)), // narrower than the zoom limit
        Some((2000 * HZ, 1000 * HZ)),   // inverted
        None,                           // and not a number at all
    ] {
        v.set_view(want);
        let (l, h) = (v.f_lo, v.f_hi);
        assert!(l >= band.0 && h <= band.1, "{want:?} restored as {l}..{h}, outside the band");
        assert!(h - l >= MIN_SPAN_HZ, "{want:?} restored as {l}..{h}, too narrow to use");
    }
    // a view that was already sane is not "fixed"
    v.set_view(Some((1200 * HZ, 1400 * HZ)));
    assert_eq!((v.f_lo, v.f_hi), (1200 * HZ, 1400 * HZ));
}

/// A settings file from another build must not be able to brick startup.
#[test]
fn unusable_saved_settings_fall_back() {
    let mut desk = a_desk();
    let all = desk.enabled_modes().len();

    // every mode name unrecognised: the default set stands
    let s = Settings { modes: vec!["Hellschreiber".into()], ..fresh() };
    desk.apply(s, &Vec::new(), None, JS8_NORMAL);
    assert_eq!(desk.enabled_modes().len(), all);

    // and an empty list likewise
    desk.apply(Settings { modes: Vec::new(), ..fresh() }, &Vec::new(), None, JS8_NORMAL);
    assert_eq!(desk.enabled_modes().len(), all);

    // absurd values are clamped rather than trusted
    let s = Settings {
        text_px: 1_000_000_000,
        span_s: -3 * SECOND,
        speed: 0,
        forget_min: -60_000,
        fade_secs: 1_000_000 * SECOND,
        qso_w: 1,
        ..fresh()
    };
    desk.apply(s, &Vec::new(), None, JS8_NORMAL);
    assert!((8_000..=22_000).contains(&desk.text_px), "text_px {}", desk.text_px);
    assert!((10 * SECOND..=120 * SECOND).contains(&desk.span_s), "span_s {}", desk.span_s);
    assert!((1_000..=20_000).contains(&desk.speed), "speed {}", desk.speed);
    // A negative timeout is not "forget everything at once".
    assert_eq!(forget_secs(desk.forget_min), None, "forget_min {}", desk.forget_min);
    assert!((0..=MAX_FADE_S).contains(&desk.fade_secs), "fade_secs {}", desk.fade_secs);
    assert_eq!(desk.qso_w, MIN_QSO_W);
}

/// A radio on a cable is remembered as one.
#[test]
fn an_elecraft_on_a_cable_survives_a_restart() {
    let mut desk = a_desk();
    desk.address.device = "/dev/ttyUSB1".to_string();
    desk.address.baud = 38400;
    desk.rig = desk.address.keying_for("elecraft");
    let saved = desk.settings(Vec::new(), String::new());

    let mut restored = a_desk();
    restored.apply(saved, &Vec::new(), None, JS8_NORMAL);
    assert!(
        matches!(&restored.rig, Keying::Elecraft { device, baud: 38400 } if device == "/dev/ttyUSB1")
    );
}

/// Nothing keys a rig because a settings file said something odd.
#[test]
fn an_unreadable_rig_setting_leaves_the_transmitter_alone() {
    let mut desk = a_desk();
    let s = Settings { rig_keying: "flrig-over-carrier-pigeon".into(), ..fresh() };
    desk.apply(s, &Vec::new(), None, JS8_NORMAL);
    assert!(matches!(desk.rig, Keying::Nothing));
}

/// A build that cannot offer a radio still hands back the port it was on.
#[test]
fn a_rig_this_build_lacks_still_keeps_its_port_and_rate() {
    let mut desk = a_desk();
    let saved = Settings {
        rig_keying: "a-radio-this-build-was-not-compiled-with".into(),
        rig_device: "/dev/ttyUSB7".into(),
        rig_baud: 19200,
        ..fresh()
    };
    desk.apply(saved, &Vec::new(), None, JS8_NORMAL);
    assert!(matches!(desk.rig, Keying::Nothing), "keyed a rig it has no code for");

    let written = desk.settings(Vec::new(), String::new());
    assert_eq!(written.rig_device, "/dev/ttyUSB7", "lost the port");
    assert_eq!(written.rig_baud, 19200, "lost the rate");

    // A blank address and a zero are left alone.
    let blank = Settings { rig_host: "  ".into(), rig_device: "".into(), rig_port: 0, rig_baud: 0, ..fresh() };
    desk.apply(blank, &Vec::new(), None, JS8_NORMAL);
    assert_eq!(desk.address.device, "/dev/ttyUSB7");
    assert_eq!(desk.address.host, "127.0.0.1");
    assert_eq!((desk.address.port, desk.address.baud), (4532, 19200));
}

/// The clock must advance at every speed.
#[test]
fn the_playback_clock_advances_at_every_speed() {
    for speed in [1_000, 2_000, 8_000, 20_000] {
        let mut t = Transport::new(speed);
        t.load(SAMPLE_RATE * 600);
        t.t_now = 30 * SECOND;
        t.playing = true;
        let start = t.t_now;
        for _ in 0..5 {
            t.advance(SECOND as u32 / 60);
        }
        assert!(t.t_now > start, "at {speed} the clock stayed at {} over five frames", t.t_now);
        assert_eq!(t.t_now, start + 5 * 200 * speed as Ticks);
    }
}

/// The clock stops at the end, begins again when played there, and goes where it
/// is dragged.
#[test]
fn the_playback_clock_can_be_worked() {
    let mut t = Transport::new(8_000);
    t.load(SAMPLE_RATE * 10);
    assert_eq!(t.duration, 10 * SECOND);
    t.restart();
    t.advance(2 * SECOND as u32);
    assert_eq!((t.t_now, t.playing), (10 * SECOND, false));
    t.press();
    assert_eq!((t.t_now, t.playing), (0, true));
    t.press();
    t.advance(SECOND as u32);
    assert_eq!(t.t_now, 0, "a stopped clock went on");
    t.drag(4 * SECOND);
    assert_eq!((t.t_now, t.playing), (4 * SECOND, false));
}

/// The playback thumb must land on whole physical pixels.
#[test]
fn the_playback_thumb_lands_on_pixels() {
    const TRACK_W: u32 = 170_000;
    for ppp in [2u32, 3, 4] {
        let track = TRACK_W * ppp / 2;
        let px = track as f64 / 1000.0;
        for span in [SECOND / 2, SECOND * 127 / 10, 600 * SECOND] {
            let mut phase = None;
            for i in 0..200 {
                let t = span * i / 199;
                let at = snap_to_pixels(t, span, track).unwrap() as f64;
                let shown = at * span as f64 / px;
                assert!((shown - t as f64).abs() <= span as f64 / px, "{shown} is not near {t}");
                // Where the thumb sits, in physical pixels along the track.
                let at = shown / span as f64 * px;
                let frac = (at - at.round()).abs();
                assert!(frac < 1e-6, "at {t} the thumb sits {frac} of a pixel off the grid");
                let ph = *phase.get_or_insert(frac);
                assert!((ph - frac).abs() < 1e-6, "the sub-pixel phase moved");
            }
        }
    }
    // Degenerate spans have no grid to be put on.
    assert_eq!(snap_to_pixels(3 * SECOND, 0, TRACK_W), None);
    assert_eq!(snap_to_pixels(3 * SECOND, 10 * SECOND, 999), None);
    // Halfway goes outwards, on either side of the start and past the end.
    assert_eq!(snap_to_pixels(SECOND / 2, 10 * SECOND, 10_000), Some(1));
    assert_eq!(snap_to_pixels(-SECOND / 2, 10 * SECOND, 10_000), Some(-1));
    assert_eq!(snap_to_pixels(12 * SECOND, 10 * SECOND, 10_000), Some(12));
}

/// The waterfall texture must divide its span into a whole number of columns per
/// pixel.
#[test]
fn the_waterfall_texture_divides_its_span_exactly() {
    // 45 s of span at 25 columns a second, against a range of panels
    for px_w in [37usize, 80, 300, 700, 1125, 4000] {
        for span in [250usize, 1000, 1125, 3000] {
            let (per_px, tex_w) = texture_geometry(span, px_w);
            assert!(per_px >= 1 && tex_w >= 1, "degenerate geometry for {px_w}/{span}");
            assert_eq!(
                (tex_w * per_px) % per_px,
                0,
                "the span shown must be whole pixels at {px_w}/{span}"
            );
            // The window shown is short of the one asked for by less than a
            // single pixel of time.
            let shown = tex_w * per_px;
            assert!(
                span - shown < per_px,
                "{px_w}/{span}: showing {shown} of {span} columns loses more than a pixel"
            );
            // And the texture stays within sight of the panel it fills.
            assert!(tex_w <= span.max(1), "texture wider than the data at {px_w}/{span}");
        }
    }
    // Degenerate inputs do not divide by zero.
    assert_eq!(texture_geometry(0, 0), (1, 1));
    assert_eq!(texture_geometry(1125, 0), (1125, 1));
}

/// A full spectrogram stops growing, and the waterfall must not stop with it.
#[test]
fn the_waterfall_keeps_moving_when_the_spectrogram_is_full() {
    let (w, h, span) = (120usize, 64usize, 600usize);
    let (per_px, _) = texture_geometry(span, w);
    let key = Key::new(span, w, h, 0, 4000 * HZ);
    let norm = Norm { lo: -80_000, hi: -20_000 };
    let mut picture = Picture::nothing();
    assert_eq!(
        picture,
        Picture {
            drawn: false,
            key: Key { tex_w: 0, px_h: 0, lo_16ths: 0, hi_16ths: 0, per_px: 0 },
            norm: Norm { lo: 0, hi: 1_000 },
            col: i64::MIN,
        }
    );
    // With nothing drawn, no column is near enough to scroll to or to keep.
    assert_eq!(picture.plan(&key, &norm, i64::MIN), Redraw::Render);
    assert_eq!(picture.plan(&key, &norm, i64::MAX), Redraw::Render);
    let travel = 100_000i64;
    assert_eq!(picture.plan(&key, &norm, travel), Redraw::Render);
    picture.settle(key, norm, travel);

    // Nothing has travelled: the picture is already right.
    assert_eq!(picture.plan(&key, &norm, travel), Redraw::Keep);
    // Less than a pixel's worth leaves it, and keeps counting.
    assert_eq!(picture.plan(&key, &norm, travel + 1), Redraw::Keep);

    // A pixel's worth of data has gone by. The picture has to move.
    assert_eq!(picture.plan(&key, &norm, travel + per_px as i64), Redraw::Scroll(1));
    picture.settle(key, norm, travel + per_px as i64);
    assert_eq!(picture.col, travel + per_px as i64, "travel was not recorded");

    // Anything else a pixel depends on draws it afresh.
    let wider = Key::new(span, w, h, 0, 3000 * HZ);
    assert_eq!(picture.plan(&wider, &norm, picture.col), Redraw::Render);
    let brighter = Norm { lo: -78_000, ..norm };
    assert_eq!(picture.plan(&key, &brighter, picture.col), Redraw::Render);
    let nearly = Norm { lo: -79_000, ..norm };
    assert_eq!(picture.plan(&key, &nearly, picture.col), Redraw::Keep);
    // And going back, or a whole picture on, does too.
    assert_eq!(picture.plan(&key, &norm, picture.col - per_px as i64), Redraw::Render);
    assert_eq!(picture.plan(&key, &norm, picture.col + (per_px * w) as i64), Redraw::Render);
}

/// The spectrogram takes on each column that is complete, once, and rolls.
#[test]
fn columns_are_taken_on_once() {
    let mut c = Columns::new();
    let (hop, window) = (480u64, 1920u64);
    let a = c.tick(hop, window, 0, 1919);
    assert_eq!((a.first, a.count), (0, 0));
    let a = c.tick(hop, window, 0, 1920 + 480);
    assert_eq!((a.first, a.count, a.drop), (0, 2, 0));
    assert!(!a.renorm);
    let a = c.tick(hop, window, 0, 12_000 * 10);
    assert_eq!(a.first, 2);
    assert!(a.renorm, "the contrast was never estimated");
    // A capture that has trimmed past where it was is gone on with from there.
    let a = c.tick(hop, window, 1_000_000, 1_100_000);
    assert_eq!(a.first, 1_000_000 / 480 + 1);
    let total = c.total;
    // A long absence takes on one more than fits, and drops what is over.
    let held = c.held;
    let a = c.tick(hop, window, 1_000_000, 20_000_000);
    assert_eq!(a.count, MAX_COLS + 1);
    assert_eq!(a.drop, held + a.count - MAX_COLS);
    assert_eq!(c.held, MAX_COLS);
    assert_eq!(c.total, total + a.count as u64);
    assert_eq!(columns_in(45 * SECOND, 480), 1125);
    assert_eq!(newest_column(true, 12_000, 50_000, 0, 480), (12_000, 50_000));
    assert_eq!(newest_column(false, 12_000, 50_000, SECOND, 480), (25, 25));
}

fn a_pane() -> Pane {
    Pane { width: 1_000_000, height: 800_000, waterfall_w: 300_000, strip_w: 35_000 }
}

/// The status bar says what frequency the pointer is on, and says nothing where a
/// height is not one.
#[test]
fn the_status_bar_reads_the_frequency_under_the_pointer() {
    let pane = a_pane();
    let v = Panorama::of_band(0, 4000 * HZ);
    let x = pane.width - 150_000;
    let read = |y: i32| pane.cursor_hz(&v, Some(Spot { x, y })).expect("nothing was read");
    let (high, mid, low) = (read(60_000), read(400_000), read(740_000));
    assert!(high > mid && mid > low, "read {high}, {mid}, {low} down the waterfall");
    assert_eq!(mid, 2000 * HZ);
    assert_eq!(cursor_text(Some(mid)), "2000.0 Hz");
    assert_eq!(cursor_text(None), "");

    // Over the text panel there is no frequency to give.
    assert_eq!(pane.cursor_hz(&v, Some(Spot { x: 10_000, y: 400_000 })), None);
    assert_eq!(pane.cursor_hz(&v, None), None);
    assert_eq!(pane.cursor_hz(&v, Some(Spot { x, y: -1 })), None);

    // The band bar shows the whole band whatever the view is zoomed to.
    let mut zoomed = v;
    zoomed.set_view(Some((1000 * HZ, 1200 * HZ)));
    let on_bar = Spot { x: pane.width - BAND_BAR_W / 2, y: 400_000 };
    assert_eq!(pane.cursor_hz(&zoomed, Some(on_bar)), Some(2000 * HZ));
    assert_eq!(pane.cursor_hz(&zoomed, Some(Spot { x, y: 400_000 })), Some(1100 * HZ));
    let (top, bottom) = pane.thumb(&zoomed);
    assert_eq!(bottom - top, 40_000);
    zoomed.set_view(Some((1000 * HZ, 1020 * HZ)));
    let (top, bottom) = pane.thumb(&zoomed);
    assert!(bottom - top >= MIN_THUMB_H - 1, "too thin to grab");
}

/// A zoom is about the pointer; panning and centring stop at the band's ends.
#[test]
fn the_view_is_moved_about() {
    let mut v = Panorama::of_band(0, 4000 * HZ);
    v.zoom(1000 * HZ, ONE / 2);
    assert_eq!((v.f_lo, v.f_hi), (500 * HZ, 2500 * HZ));
    v.pan_hz(10_000 * HZ as i64);
    assert_eq!((v.f_lo, v.f_hi), (2000 * HZ, 4000 * HZ));
    v.center_on(1500 * HZ as i64);
    assert_eq!((v.f_lo, v.f_hi), (500 * HZ, 2500 * HZ));
    v.zoom(1000 * HZ, 1);
    assert_eq!(v.f_hi - v.f_lo, MIN_SPAN_HZ);
}

/// A drag of the band bar carries the place that was grabbed; a click jumps.
#[test]
fn the_band_bar_pans() {
    let pane = a_pane();
    let mut v = Panorama::of_band(0, 4000 * HZ);
    v.set_view(Some((1000 * HZ, 1400 * HZ)));
    let mut g = Grip::nothing();
    let bar_x = pane.width - 5_000;
    // Grabbed a hundred hertz above the middle of the view.
    let y = (4000 - 1300) * 200;
    let start = Hand { pointer: Some(Spot { x: bar_x, y }), drag_started: true, dragged: true, clicked: false };
    g.bar(&pane, &mut v, &start);
    assert!(g.bar_drag);
    assert_eq!((v.f_lo, v.f_hi), (1000 * HZ, 1400 * HZ), "grabbing it moved it");
    let on = Hand { pointer: Some(Spot { x: bar_x, y: y - 200 * 200 }), drag_started: false, ..start };
    g.bar(&pane, &mut v, &on);
    assert_eq!((v.f_lo, v.f_hi), (1200 * HZ, 1600 * HZ));
    let end = Hand { pointer: None, drag_started: false, dragged: false, clicked: false };
    g.bar(&pane, &mut v, &end);
    assert!(!g.bar_drag);
    let click = Hand { pointer: Some(Spot { x: bar_x, y: 400_000 }), clicked: true, ..end };
    g.bar(&pane, &mut v, &click);
    assert_eq!((v.f_lo, v.f_hi), (1800 * HZ, 2200 * HZ));
}

/// The strip between the panels is the splitter.
#[test]
fn the_strip_is_the_splitter() {
    let mut pane = a_pane();
    let mut v = Panorama::of_band(0, 4000 * HZ);
    let mut g = Grip::nothing();
    let grab = Spot { x: 680_000, y: 400_000 };
    let start = Hand { pointer: Some(grab), drag_started: true, dragged: true, clicked: false };
    g.bar(&pane, &mut v, &start);
    assert!(g.split(&mut pane, &start), "not lit");
    assert_eq!(pane.waterfall_w, 300_000);
    let on = Hand { pointer: Some(Spot { x: 580_000, ..grab }), drag_started: false, ..start };
    assert!(g.split(&mut pane, &on));
    assert_eq!(pane.waterfall_w, 400_000);
    // A drag of it is not a pan.
    g.pan(&pane, &mut v, &on, 100_000);
    assert_eq!((v.f_lo, v.f_hi), (0, 4000 * HZ));
    let off = Hand { pointer: Some(Spot { x: 10_000, y: 10_000 }), drag_started: false, dragged: false, clicked: false };
    assert!(!g.split(&mut pane, &off));
    // And the window shrinking takes the waterfall with it.
    pane.width = 400_000;
    pane.refit();
    assert_eq!(pane.waterfall_w, 205_000);
}

/// Dragging the panorama pans it.
#[test]
fn a_drag_pans_the_panorama() {
    let pane = a_pane();
    let mut v = Panorama::of_band(0, 4000 * HZ);
    v.set_view(Some((1000 * HZ, 2000 * HZ)));
    let g = Grip::nothing();
    let drag = Hand { pointer: None, drag_started: false, dragged: true, clicked: false };
    g.pan(&pane, &mut v, &drag, 80_000);
    assert_eq!((v.f_lo, v.f_hi), (1100 * HZ, 2100 * HZ));
}

/// A pinch zooms, shift sizes the text, and the wheel alone pans.
#[test]
fn the_wheel_zooms_sizes_and_pans() {
    let pane = a_pane();
    let mut v = Panorama::of_band(0, 4000 * HZ);
    v.set_view(Some((1000 * HZ, 3000 * HZ)));
    let still =
        Wheel { hovered: true, zoom: 1_000_000, dx: 0, dy: 0, shift: false, pointer: Some(Spot { x: 1, y: 400_000 }) };
    assert_eq!(still.turn(&pane, &v), Turn::Nothing);
    assert_eq!(Wheel { hovered: false, dy: 5, ..still }.turn(&pane, &v), Turn::Nothing);
    assert_eq!(Wheel { zoom: 2_000_000, ..still }.turn(&pane, &v), Turn::Zoom(2000 * HZ, 500_000));
    assert_eq!(Wheel { dy: 40_000, ..still }.turn(&pane, &v), Turn::Pan(40_000));
    assert_eq!(Wheel { dy: 40_000, shift: true, ..still }.turn(&pane, &v), Turn::Text(40_000));
    assert_eq!(Wheel { dx: -9, shift: true, ..still }.turn(&pane, &v), Turn::Text(-9));
    let mut px = 14_000;
    turned(&Turn::Text(50_000), &pane, &mut v, &mut px);
    assert_eq!(px, 15_000);
    turned(&Turn::Pan(80_000), &pane, &mut v, &mut px);
    assert_eq!((v.f_lo, v.f_hi), (1200 * HZ, 3200 * HZ));
    turned(&Turn::Zoom(2200 * HZ, 500_000), &pane, &mut v, &mut px);
    assert_eq!((v.f_lo, v.f_hi), (1700 * HZ, 2700 * HZ));
    assert_eq!(sized_by(21_900, 1_000_000), 22_000);
}

/// The menu counts a protocol's modes, and turns all of them on or off.
#[test]
fn the_modes_menu_counts_and_sets() {
    let mut modes: Vec<(ModeId, bool)> = all_modes().into_iter().map(|m| (m, true)).collect();
    assert_eq!(counts(&modes, Protocol::Js8), (4, 4));
    modes[0].1 = false;
    assert_eq!(counts(&modes, Protocol::Js8), (3, 4));
    assert_eq!(menu_label("JS8", 3, 4), "JS8 3/4");
    set_all(&mut modes, Protocol::Olivia, false);
    assert_eq!(enabled_modes(&modes), vec![JS8_NORMAL, JS8_FAST, JS8_TURBO, PSK31]);
    listen_for(&mut modes, &vec![OL_8_250]);
    assert_eq!(enabled_modes(&modes), vec![OL_8_250]);
    listen_for(&mut modes, &Vec::new());
    assert_eq!(enabled_modes(&modes), vec![OL_8_250], "wanting nothing left it listening for nothing");
}

/// The status line counts threads, and marks a count that is not final.
#[test]
fn threads_are_counted() {
    assert_eq!(thread_count(false, false, 0, 0), "");
    assert_eq!(thread_count(false, true, 2, 3), "⏳ 3 threads");
    assert_eq!(thread_count(false, true, 0, 1), "1 thread");
    assert_eq!(thread_count(true, false, 2, 0), "0 threads");
}

/// Good news is not shown as a warning.
#[test]
fn good_news_is_not_shown_as_a_warning() {
    let said = Some("listening to Firefox".to_string());
    assert!(matches!(last_word(&said, false, true, ""), Saying::Good(t) if t == "listening to Firefox"));
    assert!(matches!(last_word(&said, true, true, ""), Saying::Bad(t) if t == "⚠ listening to Firefox"));
    assert!(matches!(last_word(&None, false, false, "demo band"), Saying::Source(t) if t == "demo band"));
    assert!(matches!(last_word(&None, false, true, "live input"), Saying::Nothing));
    assert!(matches!(last_word(&None, false, false, ""), Saying::Nothing));
}

/// The toolbar's label of a capture.
#[test]
fn a_capture_says_its_rate_or_its_fault() {
    assert_eq!(device_label(&Some("no such device".to_string()), Some(48_000)), "audio error: no such device");
    assert_eq!(device_label(&None, Some(44_100)), "LIVE 44.1 kHz");
    assert_eq!(device_label(&None, Some(48_000)), "LIVE 48.0 kHz");
    assert_eq!(device_label(&None, None), "LIVE");
    assert_eq!(recording_text(3_725 * SECOND, 89_600_000), "1:02:05 · 90 MB");
}

/// A file at the wrong rate is refused, and says what would do.
#[test]
fn a_wrong_rate_is_refused() {
    assert_eq!(wrong_rate("x.wav", 12_000), None);
    assert_eq!(
        wrong_rate("x.wav", 44_100).unwrap(),
        "x.wav is 44100 Hz; ragchew needs 12000 Hz mono (ffmpeg -i in -ac 1 -ar 12000 out.wav)"
    );
}

/// What a row's card says.
#[test]
fn a_card_says_how_a_station_is_heard() {
    assert_eq!(carrier_text(1_500_250, -1_300), "1500.2 Hz   -1.3 Hz drift");
    assert_eq!(carrier_text(1_500_000, 0), "1500.0 Hz   +0.0 Hz drift");
    assert_eq!(snr_text(Some(-7_600), Some(3_200)), "SNR -8 dB (best +3)");
    assert_eq!(snr_text(None, Some(1)), "SNR not measured");
    assert_eq!(confidence_text(4_200, 12_000), "confidence ×4.2 of the mode's noise floor (best ×12.0)");
    assert_eq!(heard_text(1, SECOND * 126 / 10), "1 decode · 12.6 s of audio");
    assert_eq!(heard_text(2, 28 * SECOND), "2 decodes · 28.0 s of audio");
    assert_eq!(row_title("JS8 Normal", 1_000_400), "JS8 Normal at 1000 Hz");
}

/// What a conversation's panel says.
#[test]
fn a_conversation_says_where_it_is() {
    let on_band = Some("14.075.500".to_string());
    assert_eq!(
        signal_text(&on_band, 1_500_000, 400, Some(-12_000), 4_200),
        "14.075.500  1500 Hz  +0.4 drift  -12 dB  ×4.2"
    );
    assert_eq!(signal_text(&None, 999_600, -50, None, -3), "1000 Hz  -0.0 drift  — dB  ×0.0");
    assert_eq!(send_hint(Some(15), false), "Enter, or click. Goes out on the next 15 s cycle.");
    assert_eq!(send_hint(None, false), "Enter, or click. Goes out immediately.");
    assert_eq!(send_hint(Some(15), true), "Enter, or click. Queued behind what is going out.");
    assert_eq!(busy_text(0), None);
    assert_eq!(busy_text(7 * SECOND).unwrap(), "TX 7 s");
    assert_eq!(offset(65 * SECOND), "+  1:05");
    assert_eq!(offset(5_000 * SECOND), "+ 83:20");
    assert_eq!(offset(100_000 * 60 * SECOND), "+100000:00");
    assert_eq!(frames_text(SECOND, &Vec::new()), None);
    assert_eq!(
        frames_text(SECOND, &vec![16 * SECOND, 31 * SECOND]).unwrap(),
        "3 frames — this one began at 0:01, the rest at 0:16, 0:31"
    );
    assert_eq!(started_text(951_782_400, 65 * SECOND), "2000-02-29 00:00:00Z  +1:05");
}

/// The menus say what picking something in them leads to.
#[test]
fn the_menus_lead_somewhere() {
    assert!(is_stale(None) && is_stale(Some(REFRESH_S + 1)) && !is_stale(Some(REFRESH_S)));
    assert_eq!(set_recording(true, false), Switch::Start);
    assert_eq!(set_recording(false, true), Switch::Stop);
    assert_eq!(set_recording(true, true), Switch::Nothing);
    assert_eq!(set_csv(true, true), Switch::Nothing);
    assert_eq!(set_csv(true, false), Switch::Start);
    assert_eq!(set_csv(false, false), Switch::Stop);
    // A recording that failed to start unticks itself.
    assert!(!record_ticked(true, false, true) && record_ticked(false, false, true));
    let (a, b) = (Some("alsa:a".to_string()), Some("alsa:b".to_string()));
    assert!(is_chosen(&a, &a.clone()) && is_chosen(&None, &None) && !is_chosen(&a, &b) && !is_chosen(&a, &None));
    assert_eq!(pick_output(&a, &b, 0), OutputChange { remember: true, drop_stream: true });
    assert_eq!(pick_output(&a, &b, 1), OutputChange { remember: true, drop_stream: false });
    assert_eq!(pick_output(&a, &a.clone(), 0), OutputChange { remember: false, drop_stream: false });
    assert!(offers_routes(true, true, true) && !offers_routes(true, true, false));
    let fault = Some("no answer".to_string());
    assert!(matches!(link_text(&fault, true, None), Link::Fault(t) if t == "⚠ no answer"));
    assert!(matches!(link_text(&None, false, Some(true)), Link::Note("not tried yet")));
    assert!(matches!(link_text(&None, true, Some(true)), Link::Note("linked — the rig is transmitting")));
    assert_eq!(blank(false, false, false), Some(Blank::NothingLoaded));
    assert_eq!(blank(false, true, false), Some(Blank::Computing));
    assert_eq!(blank(true, false, false), None);
    assert!(keeps_painting(false, true, 0, false, 1) && !keeps_painting(false, true, 0, false, 0));
}
