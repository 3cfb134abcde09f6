//! The rig: its dial, its settings and its key.

use ragchew_gui::dial::{
    bounds, dial_digits, hint, leading_blanks, megahertz, notches, on_the_band, outside_the_filter,
    rig_passband_mode, with_digit, ANY_BANDWIDTH_KHZ, ANY_POWER_W, SCROLL_NOTCH, SWEEP_HZ, TUNING_SETTLES_S,
};
use ragchew_gui::modes::{Ticks, SECOND};
use ragchew_gui::rig::{
    keying_tag, set_keying, Keying, Rekey, RigAddress, TxLight, TxState, DEFAULT_RIG_BAUD, KEYERS,
};
use ragchew_gui::transmit::fault_in_the_way;
use ragchew_gui::tuning::{dial_hint, Dial, Keys, Mouse, Spot, Surroundings, Tuning};

const HZ: i64 = 1_000;
const WALL: Ticks = 1_000 * SECOND;
const PLACES: usize = 9;

fn an_idle_dial() -> Dial {
    Dial { tuning: None, pick: 0, by_key: None, typing: false }
}

fn no_keys() -> Keys {
    Keys { left: false, right: false, up: false, down: false, enter: false, escape: false }
}

/// A hand on the dial: where it is, and the clock it works by.
struct Hand {
    at: Spot,
    under: Option<usize>,
    on_arrow: bool,
    wall: Ticks,
    rig_says: Option<i64>,
}

impl Hand {
    fn new(rig_says: i64) -> Hand {
        Hand { at: Spot { x: 0, y: 0 }, under: None, on_arrow: false, wall: WALL, rig_says: Some(rig_says) }
    }

    fn mouse(&self) -> Mouse {
        Mouse {
            pointer: Some(self.at),
            under: self.under,
            on_arrow: self.on_arrow,
            hovered: true,
            clicked: false,
            any_click: false,
            up_hit: false,
            down_hit: false,
            scroll: 0,
        }
    }

    fn frame(&mut self, dial: &mut Dial, k: Keys, digits: &[u32], m: Mouse) -> Vec<i64> {
        self.wall += SECOND / 60;
        dial.point(m.pointer, m.under, PLACES);
        let s = Surroundings { places: PLACES, focused: false, rig_says: self.rig_says, wall: self.wall };
        dial.work(&k, &digits.to_vec(), &m, &s)
    }

    /// Move onto a digit.
    fn hover(&mut self, dial: &mut Dial, place: usize) {
        self.at = Spot { x: 1_000 - 10 * place as i32, y: 50 };
        self.under = Some(place);
        self.on_arrow = false;
        let m = self.mouse();
        self.frame(dial, no_keys(), &[], m);
    }

    /// Move onto an arrow of the selected digit.
    fn reach_for_arrow(&mut self, dial: &mut Dial, up: bool) {
        self.at.y = if up { 20 } else { 80 };
        self.under = None;
        self.on_arrow = true;
        let m = self.mouse();
        self.frame(dial, no_keys(), &[], m);
    }

    fn click(&mut self, dial: &mut Dial) {
        let m = Mouse { clicked: true, any_click: true, ..self.mouse() };
        self.frame(dial, no_keys(), &[], m);
    }

    fn click_arrow(&mut self, dial: &mut Dial, up: bool) -> Vec<i64> {
        let m = Mouse { clicked: true, any_click: true, up_hit: up, down_hit: !up, ..self.mouse() };
        self.frame(dial, no_keys(), &[], m)
    }

    fn wheel(&mut self, dial: &mut Dial, clicks: i64) -> Vec<i64> {
        let m = Mouse { scroll: clicks * SCROLL_NOTCH, ..self.mouse() };
        self.frame(dial, no_keys(), &[], m)
    }

    fn press(&mut self, dial: &mut Dial, k: Keys) -> Vec<i64> {
        let m = self.mouse();
        self.frame(dial, k, &[], m)
    }

    fn type_text(&mut self, dial: &mut Dial, text: &str) -> Vec<i64> {
        let digits: Vec<u32> = text.chars().map(|c| c.to_digit(10).unwrap()).collect();
        let m = self.mouse();
        self.frame(dial, no_keys(), &digits, m)
    }
}

fn addresses() -> RigAddress {
    RigAddress {
        host: "127.0.0.1".to_string(),
        port: 4532,
        device: "/dev/ttyUSB0".to_string(),
        baud: DEFAULT_RIG_BAUD,
    }
}

/// Every row of the menu names a setting, and that setting names the row back.
#[test]
fn every_way_of_keying_round_trips_through_its_tag() {
    let a = addresses();
    for k in KEYERS {
        let keying = a.keying_for(k.0);
        assert_eq!(keying_tag(&keying), k.0, "{} does not name itself back", k.0);
    }
    // And the tags are distinct.
    for (i, k) in KEYERS.iter().enumerate() {
        assert!(!KEYERS[..i].iter().any(|e| e.0 == k.0), "two ways of keying both called {}", k.0);
    }
    // Whatever else there is, doing nothing is always on offer.
    assert_eq!(KEYERS[0].0, "none", "the first choice is not the harmless one");
}

/// The fallback bounds are a guard against a runaway drag, not a claim about any
/// radio, so nothing a real rig reports comes near them.
#[test]
fn the_fallback_bounds_are_wider_than_any_radio() {
    // In thousandths of a kilohertz and of a watt.
    let (lo, hi) = ANY_BANDWIDTH_KHZ;
    assert!(lo < 50, "a 50 Hz CW filter is below the floor");
    assert!(hi > 30_000, "a 30 kHz FM filter is above the ceiling");
    let (lo, hi) = ANY_POWER_W;
    assert!(lo <= 0, "a rig turned down to nothing is below the floor");
    assert!(hi > 1_500_000, "a legal-limit station is above the ceiling");
    // A rig that has said is taken at its word.
    assert_eq!(bounds(Some((100, 15_000)), ANY_POWER_W), (100, 15_000));
    assert_eq!(bounds(None, ANY_POWER_W), ANY_POWER_W);
}

/// A control with no slider says why, and one with a slider does not.
#[test]
fn a_missing_slider_explains_itself() {
    let ranged = hint("transmit power", true);
    assert_eq!(ranged, "transmit power", "explained away a slider that is there");

    let bare = hint("transmit power", false);
    assert!(bare.starts_with("transmit power"), "lost what the setting is: {bare:?}");
    assert!(bare.contains("no track to drag"), "did not say why there is no slider: {bare:?}");
    assert!(!bare.contains("  "), "double space in a tooltip: {bare:?}");
    assert!(!bare.contains('\t'), "tab in a tooltip: {bare:?}");
}

/// Switching between two radios on a cable keeps the cable.
#[test]
fn changing_make_keeps_the_port_and_rate() {
    let a = RigAddress { device: "/dev/ttyUSB4".to_string(), baud: 19200, ..addresses() };

    let elecraft = a.keying_for("elecraft");
    assert!(matches!(&elecraft, Keying::Elecraft { device, baud: 19200 } if device == "/dev/ttyUSB4"));

    let yaesu = a.keying_for("yaesu");
    assert!(matches!(&yaesu, Keying::Yaesu { device, baud: 19200 } if device == "/dev/ttyUSB4"));

    // And both are radios the port-and-rate panel offers itself for.
    assert!(elecraft.on_a_cable() && yaesu.on_a_cable());
    assert!(!Keying::Nothing.on_a_cable());
    assert!(!Keying::RigCtld { host: "x".into(), port: 1 }.on_a_cable());
}

/// The rate the settings start at is the one the radio leaves the factory at.
#[test]
fn the_default_rate_is_the_one_the_radio_ships_with() {
    assert_eq!(DEFAULT_RIG_BAUD, 38_400);
}

/// Changing how the rig is keyed drops whoever was keying it first.
#[test]
fn a_change_of_keying_says_what_to_do() {
    let a = addresses();
    let off = a.keying_for("none");
    let daemon = a.keying_for("rigctld");
    let cable = a.keying_for("yaesu");
    assert_eq!(set_keying(&daemon, &off, true), Rekey::Stop);
    assert_eq!(set_keying(&off, &daemon, false), Rekey::Restart);
    assert_eq!(set_keying(&daemon, &cable, true), Rekey::Restart);
    assert_eq!(set_keying(&daemon, &a.keying_for("rigctld"), true), Rekey::Keep);
    assert_eq!(set_keying(&daemon, &a.keying_for("rigctld"), false), Rekey::Restart);
    assert_eq!(set_keying(&off, &a.keying_for("none"), false), Rekey::Keep);
}

/// The decades stay put on the low bands.
#[test]
fn the_decades_keep_their_places_below_ten_megahertz() {
    assert_eq!(dial_digits(7_070_000 * HZ), "007.070.000");
    assert_eq!(dial_digits(14_074_000 * HZ), "014.074.000");
    assert_eq!(dial_digits(144_200_000 * HZ), "144.200.000");
    // Blanked, not written: two at most, so a dial never reads as empty.
    assert_eq!(leading_blanks("007.070.000"), 2);
    assert_eq!(leading_blanks("014.074.000"), 1);
    assert_eq!(leading_blanks("144.200.000"), 0);
    assert_eq!(leading_blanks("000.000.000"), 2);

    // And the column is there to be used: ten megahertz up from seven.
    let mut dial = an_idle_dial();
    let mut hand = Hand::new(7_070_000 * HZ);
    hand.hover(&mut dial, 7);
    hand.hover(&mut dial, 7);
    hand.wheel(&mut dial, 1);
    assert_eq!(
        dial.tuning.map(|t| t.hz),
        Some(17_070_000 * HZ),
        "the tens-of-megahertz column is not there to tune"
    );
}

/// What falls outside the rig's filter, in the audio.
#[test]
fn the_band_outside_the_filter_is_the_part_to_dim() {
    // A wide data filter leaves almost all of the panorama audible.
    let wide = outside_the_filter(Some(2700 * HZ), true);
    assert_eq!(wide.len(), 2);
    assert_eq!(wide[0].1, 150 * HZ, "the low edge of a 2.7 kHz filter at 1500");
    assert_eq!(wide[1].0, 2850 * HZ, "the high edge of a 2.7 kHz filter at 1500");

    // A narrow one leaves a slot, and the rest is a picture of nothing.
    let narrow = outside_the_filter(Some(400 * HZ), true);
    assert_eq!(narrow[0].1, 1300 * HZ);
    assert_eq!(narrow[1].0, 1700 * HZ);

    // Nothing is dimmed on a guess.
    assert!(outside_the_filter(None, true).is_empty());
    assert!(outside_the_filter(Some(2700 * HZ), false).is_empty(), "shaded an FM panorama");
    assert!(outside_the_filter(Some(0), true).is_empty());
}

/// An audio offset becomes a frequency on the band, with the sideband deciding
/// which way.
#[test]
fn an_offset_becomes_the_frequency_it_really_is() {
    let dial = Some(14_074_000 * HZ);
    let audio = 1_500_000;
    assert_eq!(on_the_band(dial, Some("USB"), audio), Some(14_075_500 * HZ));
    assert_eq!(on_the_band(dial, Some("PKTUSB"), audio), Some(14_075_500 * HZ));
    assert_eq!(on_the_band(dial, Some("DATA"), audio), Some(14_075_500 * HZ));
    assert_eq!(on_the_band(dial, Some("LSB"), audio), Some(14_072_500 * HZ));
    assert_eq!(on_the_band(dial, Some("DATA-REV"), audio), Some(14_072_500 * HZ));

    // Nothing is printed where an offset is not a displacement from the dial, or
    // where the dial is unknown.
    assert_eq!(on_the_band(dial, Some("FM"), audio), None);
    assert_eq!(on_the_band(dial, Some("CW"), audio), None);
    assert_eq!(on_the_band(dial, None, audio), None);
    assert_eq!(on_the_band(None, Some("USB"), audio), None);
    assert!(rig_passband_mode(Some("USB")) && !rig_passband_mode(Some("FM")) && !rig_passband_mode(None));
}

/// A frequency reads as a frequency.
#[test]
fn the_dial_reads_the_way_an_operator_says_it() {
    assert_eq!(megahertz(14_074_000 * HZ), "14.074.000");
    assert_eq!(megahertz(7_078_000 * HZ), "7.078.000");
    assert_eq!(megahertz(3_573_250 * HZ), "3.573.250");
    assert_eq!(megahertz(1_840_000 * HZ), "1.840.000");
    // All the way down to single hertz.
    assert_eq!(megahertz(14_074_004 * HZ), "14.074.004");
    assert_eq!(megahertz(0), "0.000.000");
}

/// A wheel is worth what it was turned, not one step a frame.
#[test]
fn the_wheel_is_worth_what_it_was_turned() {
    assert_eq!(notches(SCROLL_NOTCH), 1);
    assert_eq!(notches(-SCROLL_NOTCH), -1);
    assert_eq!(notches(SCROLL_NOTCH * 6), 6);
    // A touchpad's dribble still moves it, and by a whole step.
    assert_eq!(notches(3_000), 1);
    assert_eq!(notches(-3_000), -1);
}

/// Consecutive clicks accumulate, rather than each one starting again from what
/// the rig last said.
#[test]
fn clicks_accumulate_instead_of_re_reading_a_stale_dial() {
    let mut dial = an_idle_dial();
    let rig_says = Some(14_074_000 * HZ);
    let t0 = WALL;

    // Four clicks inside one reading of the rig, which does not move.
    let mut target = dial.tuning_from(rig_says, t0);
    assert_eq!(target, 14_074_000 * HZ);
    for i in 0..4 {
        let at = t0 + i * SECOND / 20;
        target = dial.tuning_from(rig_says, at) + SWEEP_HZ * notches(SCROLL_NOTCH);
        dial.tuning = Some(Tuning { hz: target, at, sent: true });
    }
    assert_eq!(target, 14_074_400 * HZ, "four clicks of 100 Hz should be 400 Hz");

    // Once the hand stops, the rig's own answer takes over again.
    let quiet = dial.tuning.unwrap().at + TUNING_SETTLES_S + SECOND / 10;
    assert_eq!(dial.tuning_from(Some(14_074_400 * HZ), quiet), 14_074_400 * HZ);
    assert_eq!(
        dial.tuning_from(Some(7_000_000 * HZ), quiet),
        7_000_000 * HZ,
        "the rig's own dial should win once the hand is off the wheel"
    );
    // And while the hand is still on it, the rig moving underneath does not drag
    // the digits out from under the wheel.
    let mid = dial.tuning.unwrap().at + SECOND / 5;
    assert_eq!(dial.tuning_from(Some(7_000_000 * HZ), mid), 14_074_400 * HZ);
}

/// Every digit is its own control, worth its own decade.
#[test]
fn each_digit_tunes_its_own_decade() {
    let steps = [(0usize, 1), (1, 10), (2, 100), (4, 10_000), (6, 1_000_000), (7, 10_000_000)];
    for (from_right, step) in steps {
        let mut dial = an_idle_dial();
        let mut hand = Hand::new(14_074_000 * HZ);
        hand.hover(&mut dial, from_right);
        hand.hover(&mut dial, from_right);
        let sent = hand.wheel(&mut dial, 1);
        assert_eq!(
            dial.tuning.map(|t| t.hz),
            Some((14_074_000 + step) * HZ),
            "a notch over the digit {from_right} places from the right should move {step} Hz"
        );
        assert_eq!(sent, vec![(14_074_000 + step) * HZ]);
    }
}

/// The arrows step the digit the dial is pointed at.
#[test]
fn the_arrows_step_the_digit_they_sit_over() {
    for (up, want) in [(true, 14_074_100), (false, 14_073_900)] {
        let mut dial = an_idle_dial();
        let mut hand = Hand::new(14_074_000 * HZ);
        hand.hover(&mut dial, 2);
        hand.hover(&mut dial, 2);
        hand.reach_for_arrow(&mut dial, up);
        hand.click_arrow(&mut dial, up);

        assert_eq!(
            dial.tuning.map(|t| t.hz),
            Some(want * HZ),
            "the {} arrow over the hundreds digit should have stepped it",
            if up { "up" } else { "down" }
        );
        assert!(dial.tuning.is_some_and(|t| t.sent), "a step should go straight to the rig");
    }
}

/// Typing fills the dial a digit at a time and waits for Enter.
#[test]
fn typing_a_frequency_waits_for_enter() {
    let mut dial = an_idle_dial();
    let mut hand = Hand::new(14_074_000 * HZ);
    hand.hover(&mut dial, 7);
    hand.hover(&mut dial, 7);
    hand.click(&mut dial);

    for digit in ["0", "7", "0", "7", "8"] {
        assert!(hand.type_text(&mut dial, digit).is_empty(), "a digit reached the rig");
    }
    let typed = dial.tuning.expect("nothing was typed in");
    assert_eq!(typed.hz, 7_078_000 * HZ, "the digits did not fill from the left");
    assert!(!typed.sent, "a half-typed frequency reached the rig");
    assert!(dial.pending());

    let sent = hand.press(&mut dial, Keys { enter: true, ..no_keys() });
    assert_eq!(sent, vec![7_078_000 * HZ]);
    assert!(dial.tuning.is_some_and(|t| t.sent), "Enter did not send it");
    assert_eq!(dial.tuning.map(|t| t.hz), Some(7_078_000 * HZ));
}

/// Escape puts back whatever the radio actually says.
#[test]
fn escape_abandons_what_was_typed() {
    let mut dial = an_idle_dial();
    let mut hand = Hand::new(14_074_000 * HZ);
    hand.hover(&mut dial, 7);
    hand.hover(&mut dial, 7);
    hand.click(&mut dial);
    hand.type_text(&mut dial, "07");
    assert!(dial.tuning.is_some_and(|t| !t.sent));

    let sent = hand.press(&mut dial, Keys { escape: true, ..no_keys() });
    assert!(sent.is_empty());
    assert_eq!(dial.tuning, None, "Escape left the typed frequency on the dial");
}

/// A hand that types and then reaches for the wheel gets both.
#[test]
fn the_wheel_consolidates_what_was_typed() {
    let mut dial = an_idle_dial();
    let mut hand = Hand::new(14_074_000 * HZ);
    hand.hover(&mut dial, 7);
    hand.hover(&mut dial, 7);
    hand.click(&mut dial);
    hand.type_text(&mut dial, "07078");
    assert_eq!(dial.tuning.map(|t| t.hz), Some(7_078_000 * HZ));
    assert!(dial.tuning.is_some_and(|t| !t.sent));

    // Onto the hundreds digit, and a notch.
    hand.hover(&mut dial, 2);
    hand.hover(&mut dial, 2);
    hand.wheel(&mut dial, 1);

    let now = dial.tuning.expect("the wheel lost the edit");
    assert_eq!(now.hz, 7_078_100 * HZ, "the wheel did not build on what was typed");
    assert!(now.sent, "a wheel step should go to the rig without Enter");
}

/// The keys move the cursor, and the mouse takes it back when it moves.
#[test]
fn the_cursor_belongs_to_whichever_was_used_last() {
    let mut dial = an_idle_dial();
    let mut hand = Hand::new(14_074_000 * HZ);
    hand.hover(&mut dial, 2);
    hand.hover(&mut dial, 2);
    hand.click(&mut dial);
    assert_eq!(dial.pick, 2, "clicking a digit should point at it");

    // Left, twice: onto the tens of kilohertz.
    hand.press(&mut dial, Keys { left: true, ..no_keys() });
    hand.press(&mut dial, Keys { left: true, ..no_keys() });
    assert_eq!(dial.pick, 4, "the arrow keys did not move the cursor");

    // The pointer has not moved, so hovering does not drag it back.
    hand.press(&mut dial, no_keys());
    assert_eq!(dial.pick, 4, "hover took the cursor back without the mouse moving");

    // And when the mouse does move, it does.
    hand.hover(&mut dial, 1);
    hand.hover(&mut dial, 1);
    assert_eq!(dial.pick, 1, "the mouse did not take the cursor back");
}

/// Up and down step the digit under the cursor, as the arrows do.
#[test]
fn the_up_and_down_keys_step_the_selected_digit() {
    let mut dial = an_idle_dial();
    let mut hand = Hand::new(14_074_000 * HZ);
    hand.hover(&mut dial, 2);
    hand.hover(&mut dial, 2);
    hand.click(&mut dial);

    hand.press(&mut dial, Keys { up: true, ..no_keys() });
    assert_eq!(dial.tuning.map(|t| t.hz), Some(14_074_100 * HZ));
    hand.press(&mut dial, Keys { down: true, ..no_keys() });
    hand.press(&mut dial, Keys { down: true, ..no_keys() });
    assert_eq!(dial.tuning.map(|t| t.hz), Some(14_073_900 * HZ));
    assert!(dial.tuning.is_some_and(|t| t.sent), "a key step should reach the rig");
}

/// The readout shows what the rig says.
#[test]
fn the_vfo_shows_the_rigs_own_frequency() {
    let dial = an_idle_dial();
    assert_eq!(dial.reading(Some(14_074_000 * HZ), WALL), "014.074.000");
    assert_eq!(dial.shown(Some(14_074_000 * HZ), WALL), Some(14_074_000 * HZ));
}

/// A rig that does not report its frequency gets dashes, not a zero.
#[test]
fn a_dial_that_cannot_be_read_shows_dashes() {
    let dial = an_idle_dial();
    assert!(dial.reading(None, WALL).starts_with("---"));
    assert_eq!(dial.shown(None, WALL), None);
}

/// A digit put in its place leaves the others alone.
#[test]
fn a_digit_replaces_only_itself() {
    assert_eq!(with_digit(14_074_000 * HZ, 1_000 * HZ, 9), 14_079_000 * HZ);
    assert_eq!(with_digit(14_074_000 * HZ, 10_000_000 * HZ, 0), 4_074_000 * HZ);
    assert_eq!(with_digit(-5, HZ, 3), 3 * HZ);
}

/// Nothing goes on the air through a rig that is not answering.
#[test]
fn a_rig_that_is_not_answering_stops_the_transmission() {
    let said = fault_in_the_way(false, &Some("connection refused".to_string())).unwrap();
    assert_eq!(said, "not transmitting: connection refused");
    // A rig that has not been tried yet, or that answers, is not in the way.
    assert_eq!(fault_in_the_way(false, &None), None);
    assert_eq!(fault_in_the_way(true, &Some("a fault since got over".to_string())), None);
}

/// The button stops a transmission it did not start.
#[test]
fn the_button_stops_a_transmission_it_did_not_start() {
    // Somebody else put it on the air; this application never asked for it.
    let t = TxState { asked: false, rig_says: Some(true), keyed_for: 0 };
    assert!(!t.press(), "the button would not take the rig off the air");
    assert_eq!(t.light(), TxLight::Elsewhere);
    // And with nothing on the air, pressing keys it.
    assert!(TxState { asked: false, rig_says: Some(false), keyed_for: 0 }.press());
    assert!(TxState { asked: false, rig_says: None, keyed_for: 0 }.press());
}

/// The window says TX while the rig is keyed, and for how long.
#[test]
fn the_window_says_when_the_rig_is_keyed() {
    let quiet = TxState { asked: false, rig_says: None, keyed_for: 0 };
    assert_eq!(quiet.label(), "TX");
    assert_eq!(quiet.light(), TxLight::Off);
    let keyed = TxState { asked: true, rig_says: None, keyed_for: 12 * SECOND as u64 };
    assert_eq!(keyed.light(), TxLight::Ours);
    assert!(keyed.label().starts_with("TX"));
    assert_eq!(keyed.label(), "TX 12s");
}

/// Under the pointer the dial says what is wrong, or how it is worked.
#[test]
fn the_dial_says_how_it_is_worked() {
    assert_eq!(dial_hint(true, &Some("connection refused".to_string())), "connection refused");
    assert_eq!(dial_hint(false, &None), "the rig does not report its frequency");
    assert!(dial_hint(true, &None).starts_with("what the rig is tuned to."));
}

/// Under the pointer the key says what is in its way, or what it would do.
#[test]
fn the_key_says_what_pressing_it_would_do() {
    let wired = Keying::Yaesu { device: "/dev/ttyUSB0".to_string(), baud: 4800 };
    let quiet = TxState { asked: false, rig_says: None, keyed_for: 0 };
    let ours = TxState { asked: true, rig_says: Some(true), keyed_for: 0 };
    let theirs = TxState { asked: false, rig_says: Some(true), keyed_for: 0 };
    let refused = Some("connection refused".to_string());
    assert_eq!(quiet.hover(&wired, &None), "key the transmitter");
    assert_eq!(ours.hover(&wired, &None), "transmitting — click to stop");
    assert_eq!(
        theirs.hover(&wired, &None),
        "the rig is transmitting, and not because this asked it to — click to stop it"
    );
    assert_eq!(ours.hover(&wired, &refused), "connection refused");
    assert!(theirs.hover(&Keying::Nothing, &refused).starts_with("nothing is keying the rig"));
}
