//! The continuous-mode decoder on a band with one station, end to end.
//!
//! The audio is made of sample numbers, and what stands for the modem reads the
//! station's characters off them: a scan finds those that lie whole in its
//! window, once there are enough of them, and a receiver hands out each as soon
//! as it has been fed the end of it.

use ragchew_gui::continuous::{Acquired, Acquisition, Continuous, Heard, ACQ_STEP};
use ragchew_gui::modes::{Decode, MilliHz, ModeId, Protocol, Ticks, SAMPLE_RATE};

const HZ: MilliHz = 1_000;
const BAND: (MilliHz, MilliHz) = (300 * HZ, 2600 * HZ);
const BLOCK: usize = 98_304;

/// Samples that a character lasts.
const CHARACTER: usize = 8 * 384;

/// Characters that a scan needs to see before it believes any.
const ENOUGH: usize = 12;

const PSK31: ModeId = ModeId {
    protocol: Protocol::Psk,
    rank: 20,
    period_s: None,
    chunk: 3_840_000,
    assoc_tol: 15_625,
    bandwidth: 62_500,
    baud: 31_250,
    dup_tol: 1_920_000,
    block_samples: BLOCK as u32,
    lock_samples: 24_000,
};

const OVER: &str = "cq cq de w1aw w1aw k  the quick brown fox jumps over the lazy dog  \
                    de w1aw ur rst 599 599 name andy qth london hw cpy? k  ";

/// A receiver: whose it is, and how far it has been fed.
struct Ear {
    station: u64,
    from: usize,
    fed_to: usize,
}

/// A band with one station, starting `lead` samples in.
struct Air {
    text: Vec<char>,
    lead: usize,
    ears: Vec<Ear>,
}

impl Air {
    fn new(text: &str, lead: usize) -> Air {
        Air { text: text.chars().collect(), lead, ears: Vec::new() }
    }

    fn audio(&self) -> Vec<f32> {
        let len = self.lead + self.text.len() * CHARACTER + 4 * SAMPLE_RATE;
        assert!(len < 1 << 24, "a sample number has to be exact");
        (0..len).map(|i| i as f32).collect()
    }

    fn decode(&self, job: &Acquisition<f32>) -> Vec<Decode> {
        assert_eq!(job.samples[0] as usize, job.at, "the window is not where it says it is");
        let found: Vec<Decode> = (0..self.text.len())
            .map(|i| (self.lead + i * CHARACTER, self.text[i]))
            .filter(|(start, _)| *start >= job.at && start + CHARACTER <= job.at + job.samples.len())
            .map(|(start, ch)| Decode {
                hz: 1500 * HZ,
                time_s: (start - job.at) as Ticks * 1000,
                text: ch.to_string(),
                mode: PSK31,
                ends_over: false,
                quality: 30_000,
                snr_db: None,
            })
            .collect();
        if found.len() < ENOUGH {
            return Vec::new();
        }
        found
    }

    /// What a station's receiver makes of more audio.
    fn hear(&mut self, station: u64, audio: &[f32]) -> Vec<Heard> {
        let ear = self.ears.iter_mut().find(|e| e.station == station).expect("fed a receiver nobody opened");
        if audio.is_empty() {
            return Vec::new();
        }
        assert_eq!(audio[0] as usize, ear.fed_to, "fed across a hole");
        let (before, after) = (ear.fed_to, ear.fed_to + audio.len());
        ear.fed_to = after;
        let from = ear.from;
        (0..self.text.len())
            .map(|i| (self.lead + i * CHARACTER, self.text[i]))
            .filter(|(start, _)| *start >= from && before < start + CHARACTER && start + CHARACTER <= after)
            .map(|(start, ch)| Heard { station, offset: start, ch, carrier: 5_000 })
            .collect()
    }

    fn feed(&mut self, c: &mut Continuous<f32>, samples: &[f32]) -> Vec<Decode> {
        let mut heard = Vec::new();
        for (station, from) in c.take_in(samples) {
            let audio = c.audio_from(from);
            heard.extend(self.hear(station, &audio));
        }
        c.feed(heard)
    }

    fn settle(&mut self, c: &mut Continuous<f32>, done: Acquired) -> Vec<Decode> {
        let mut caught = Vec::new();
        for o in c.confirm(&done.found) {
            self.ears.push(Ear { station: o.station, from: o.start, fed_to: o.start });
            let audio = c.audio_from(o.start);
            caught.extend(self.hear(o.station, &audio));
        }
        c.apply(done, caught)
    }

    /// Feed audio and run any due scan here and now.
    fn feed_blocking(&mut self, c: &mut Continuous<f32>, samples: &[f32]) -> Vec<Decode> {
        let mut out = self.feed(c, samples);
        if let Some(job) = c.due() {
            let found = self.decode(&job);
            out.extend(self.settle(c, job.run(found)));
        }
        out
    }
}

fn decoder() -> Continuous<f32> {
    Continuous::new(vec![PSK31], BAND)
}

/// Noise to put in front of a station: past the window of the decoder.
fn lead() -> usize {
    BLOCK + 2 * SAMPLE_RATE
}

/// Nothing waits for a window sized for a mode that is not enabled.
#[test]
fn the_first_text_does_not_wait_for_a_window_it_does_not_need() {
    // Transmitting almost from the first sample.
    let mut air = Air::new(OVER, SAMPLE_RATE / 4);
    let audio = air.audio();
    let mut c = decoder();
    let mut fed = 0;
    let mut first = None;
    for block in audio.chunks(512) {
        fed += block.len();
        if !air.feed_blocking(&mut c, block).is_empty() && first.is_none() {
            first = Some(fed);
        }
    }
    let at = first.expect("nothing decoded at all");
    let bound = BLOCK + ACQ_STEP + SAMPLE_RATE;
    assert!(at < bound, "first text after {at} samples, wanted under {bound}");
}

/// Text arrives spread across the capture instead of a block at a time.
#[test]
fn psk_text_arrives_spread_out_rather_than_in_blocks() {
    let mut air = Air::new(OVER, lead());
    let audio = air.audio();
    let mut c = decoder();
    let mut per_call: Vec<usize> = Vec::new();
    let mut read = String::new();
    for block in audio.chunks(512) {
        let got = air.feed_blocking(&mut c, block);
        per_call.push(got.len());
        read.extend(got.iter().map(|d| d.text.clone()));
    }
    assert!(
        read.contains("quick brown fox jumps over the lazy dog"),
        "did not read the message: {read:?}"
    );
    let total: usize = per_call.iter().sum();
    per_call.sort_unstable();
    per_call.reverse();
    let in_fattest_three: usize = per_call.iter().take(3).sum();
    assert!(
        in_fattest_three * 2 < total,
        "{in_fattest_three} of {total} decodes arrived in just three callbacks"
    );
    assert_eq!(read, OVER, "something was lost, or said twice");
}

/// Feeding contiguous audio in different sized pieces must not change what is
/// decoded.
#[test]
fn the_callback_size_does_not_change_the_text() {
    let text = "cq de w1aw  test test test  de w1aw k  the quick brown fox  ";
    let read = |chunk: usize| -> String {
        let mut air = Air::new(text, lead());
        let audio = air.audio();
        let mut c = decoder();
        audio.chunks(chunk).flat_map(|b| air.feed_blocking(&mut c, b)).map(|d| d.text).collect()
    };
    let want = read(4096);
    assert!(!want.is_empty(), "nothing decoded at all");
    for chunk in [512, 1000, 8192] {
        assert_eq!(read(chunk), want, "chunk size {chunk} changed the text");
    }
}

/// A band with nothing on it stays silent.
#[test]
fn noise_alone_opens_no_receivers() {
    let mut air = Air::new("", 36 * SAMPLE_RATE);
    let audio = air.audio();
    let mut c = decoder();
    let mut n = 0;
    for block in audio.chunks(4096) {
        n += air.feed_blocking(&mut c, block).len();
    }
    assert_eq!(n, 0, "printed {n} characters from a band with nothing on it");
    assert!(c.tracking().is_empty(), "tracking on noise");
}

/// Text keeps arriving while a scan is out.
#[test]
fn tracking_keeps_reading_while_a_scan_is_out() {
    let mut air = Air::new(OVER, lead());
    let audio = air.audio();
    let mut c = decoder();

    // Far enough in that the station is being tracked and a scan is out.
    let mut chunks = audio.chunks(4096);
    let mut held = None;
    for chunk in chunks.by_ref() {
        if c.tracking().is_empty() {
            air.feed_blocking(&mut c, chunk);
            continue;
        }
        air.feed(&mut c, chunk);
        held = c.due();
        if held.is_some() {
            break;
        }
    }
    assert!(held.is_some(), "never got a station tracked with a scan out");

    // The scan is never applied, and the rest of the capture is fed with only
    // the receivers to read it.
    let mut read = String::new();
    for chunk in chunks {
        read.extend(air.feed(&mut c, chunk).iter().map(|d| d.text.clone()));
    }
    assert!(read.contains("lazy dog"), "the receiver stopped when the scanner did: {read:?}");
}
