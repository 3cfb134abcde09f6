//! The capture, its schedule, and the devices it is offered.

use ragchew_gui::capture::{is_short, measure_offset, shift_times, AudioBuf, SEARCH_SPAN_S, TRIM_BLOCK};
use ragchew_gui::cycles::{ripe_cycles, window_len_s, window_ready_s, MAX_BACKLOG_S};
use ragchew_gui::devices::{disambiguate, is_pipewire, offer, winnow, AudioDevice};
use ragchew_gui::health::{
    check_stall, heartbeat, lag_is_off, thread_summary, Beat, Fault, Health, Snapshot, ThreadDelta,
    ThreadHealth, CONT_STALL_S, JS8_STALL_S,
};
use ragchew_gui::modes::{Decode, ModeId, Protocol, Ticks, SAMPLE_RATE, SECOND};
use ragchew_gui::schedule::{owed_after, split_modes, Reader, Schedule};

const NORMAL: ModeId = ModeId {
    protocol: Protocol::Js8,
    rank: 1,
    period_s: Some(15),
    chunk: 151_680_000,
    assoc_tol: 6_250,
    bandwidth: 50_000,
    baud: 6_250,
    dup_tol: 12_000_000,
    block_samples: 0,
    lock_samples: 0,
};

const TURBO: ModeId = ModeId { rank: 3, period_s: Some(6), chunk: 47_400_000, ..NORMAL };
const FAST: ModeId = ModeId { rank: 0, period_s: Some(10), chunk: 94_800_000, ..NORMAL };
const SLOW: ModeId = ModeId { rank: 2, period_s: Some(30), chunk: 303_360_000, ..NORMAL };

const PSK31: ModeId = ModeId {
    protocol: Protocol::Psk,
    rank: 20,
    period_s: None,
    chunk: 3_840_000,
    assoc_tol: 15_625,
    bandwidth: 62_500,
    baud: 31_250,
    dup_tol: 1_920_000,
    block_samples: 98_304,
    lock_samples: 24_000,
};

/// Some moment, in wall-clock time.
const NOW: Ticks = 1_700_000_000 * SECOND;

fn dev(id: &str, label: &str) -> AudioDevice {
    AudioDevice { id: id.to_string(), label: label.to_string() }
}

/// Every PCM a real Linux box advertised for input: thirty entries that are, in
/// truth, three capture endpoints on one card plus a few routes.
fn real_alsa_listing() -> Vec<AudioDevice> {
    [
        ("alsa:null", "Discard all samples"),
        ("alsa:lavrate", "Rate Converter Plugin Using Libav/FFmpeg Library"),
        ("alsa:samplerate", "Rate Converter Plugin Using Samplerate Library"),
        ("alsa:speexrate", "Rate Converter Plugin Using Speex Resampler"),
        ("alsa:jack", "JACK Audio Connection Kit"),
        ("alsa:oss", "Open Sound System"),
        ("alsa:pipewire", "PipeWire Sound Server"),
        ("alsa:pulse", "PulseAudio Sound Server"),
        ("alsa:speex", "Plugin using Speex DSP"),
        ("alsa:upmix", "Plugin for channel upmix (4,6,8)"),
        ("alsa:vdownmix", "Plugin for channel downmix (stereo)"),
        ("alsa:default", "Default ALSA Output"),
        ("alsa:usbstream:CARD=NVidia", "HDA NVidia"),
        ("alsa:hw:CARD=sofhdadsp,DEV=0", "sof-hda-dsp, "),
        ("alsa:hw:CARD=sofhdadsp,DEV=6", "sof-hda-dsp, "),
        ("alsa:hw:CARD=sofhdadsp,DEV=7", "sof-hda-dsp, "),
        ("alsa:plughw:CARD=sofhdadsp,DEV=0", "sof-hda-dsp, "),
        ("alsa:plughw:CARD=sofhdadsp,DEV=6", "sof-hda-dsp, "),
        ("alsa:plughw:CARD=sofhdadsp,DEV=7", "sof-hda-dsp, "),
        ("alsa:sysdefault:CARD=sofhdadsp", "sof-hda-dsp"),
        ("alsa:dsnoop:CARD=sofhdadsp,DEV=0", "sof-hda-dsp, "),
        ("alsa:dsnoop:CARD=sofhdadsp,DEV=6", "sof-hda-dsp, "),
        ("alsa:dsnoop:CARD=sofhdadsp,DEV=7", "sof-hda-dsp, "),
        ("alsa:usbstream:CARD=sofhdadsp", "sof-hda-dsp"),
        ("alsa:hw:CARD=1,DEV=0", "sof-hda-dsp, "),
        ("alsa:plughw:CARD=1,DEV=0", "sof-hda-dsp, "),
        ("alsa:hw:CARD=1,DEV=6", "sof-hda-dsp, "),
        ("alsa:plughw:CARD=1,DEV=6", "sof-hda-dsp, "),
        ("alsa:hw:CARD=1,DEV=7", "sof-hda-dsp, "),
        ("alsa:plughw:CARD=1,DEV=7", "sof-hda-dsp, "),
    ]
    .iter()
    .map(|(id, label)| dev(id, label))
    .collect()
}

/// Appending to a full buffer must not cost what the buffer is big.
#[test]
fn appending_to_a_full_buffer_stays_cheap() {
    let cap = SAMPLE_RATE * 300;
    let mut b: AudioBuf<f32> = AudioBuf::new(cap);
    let chunk = vec![0.0f32; 512];
    let mut now = NOW;
    while b.global_start == 0 {
        now += 512_000;
        b.append(&chunk, now);
    }
    // Long enough to cross several trim blocks, so the amortised cost is what is
    // being measured rather than the gap between two of them.
    let n = 20_000;
    let t = std::time::Instant::now();
    for _ in 0..n {
        now += 512_000;
        b.append(&chunk, now);
    }
    let us = t.elapsed().as_secs_f64() * 1e6 / n as f64;
    assert!(us < 50.0, "{us:.1} us per append, moving the buffer too often");
    // And the bound still holds: it rolls, it does not grow.
    assert!(
        b.samples.len() <= cap + TRIM_BLOCK,
        "buffer grew to {} past its {} cap",
        b.samples.len(),
        cap
    );
    assert!(b.global_start > 0, "nothing was ever trimmed");
}

/// Whatever blocks it takes, a buffer holds the end of the stream they make.
#[test]
fn a_buffer_holds_the_end_of_its_stream() {
    let cap = 1_000;
    let mut b: AudioBuf<u32> = AudioBuf::new(cap);
    let mut stream: Vec<u32> = Vec::new();
    for (i, n) in [3usize, 0, 200_000, 161_000, 512, 90_000, 400_000, 7].into_iter().enumerate() {
        let block: Vec<u32> = (0..n).map(|k| (stream.len() + k) as u32).collect();
        stream.extend(&block);
        let (before, held) = (b.global_start(), b.samples.len());
        b.append(&block, NOW + i as Ticks * SECOND);
        assert_eq!(b.global_len(), stream.len() as u64);
        assert_eq!(b.slice_global(0, u64::MAX), stream[b.global_start() as usize..]);
        let past = held + n > cap + TRIM_BLOCK;
        assert_eq!(b.global_start() != before, past, "cut back at the wrong block");
        assert_eq!(b.samples.len(), if past { cap } else { held + n });
    }
}

/// A block that the counters cannot hold is noticed before it is taken.
#[test]
fn a_block_that_cannot_be_counted_is_noticed() {
    let mut b: AudioBuf<f32> = AudioBuf::new(1_000);
    assert!(b.can_take(NOW, 512));
    b.append(&vec![0.0f32; 512], NOW);
    assert!(b.can_take(NOW + SECOND, 512));
    assert!(!b.can_take(NOW, usize::MAX));
    // A stall that would move the anchor past the end of time.
    b.start_unix = Ticks::MAX - SECOND;
    assert!(b.can_take(NOW, 512));
    assert!(!b.can_take(NOW + 10 * SECOND, 512));
}

/// Lag measures what it claims to: the gap between how much audio has arrived and
/// how much wall-clock time has passed.
#[test]
fn lag_is_the_gap_between_the_audio_and_the_clock() {
    let mut b: AudioBuf<f32> = AudioBuf::new(SAMPLE_RATE * 300);
    assert_eq!(b.lag_s(NOW), 0, "nothing captured yet is not lag");

    // Ten seconds of audio that took ten seconds to arrive: no lag.
    b.append(&vec![0.0f32; SAMPLE_RATE * 10], NOW);
    b.start_unix = NOW - 10 * SECOND;
    assert_eq!(b.lag_s(NOW), 0, "healthy capture reported lag");

    // Thirty seconds of wall clock, but only ten seconds of audio ever appended:
    // twenty seconds have been dropped somewhere.
    b.start_unix = NOW - 30 * SECOND;
    assert_eq!(b.lag_s(NOW), 20 * SECOND as i128);

    // The waterfall is untouched by any of it: it walks the buffer by index, so
    // it still finds every window it has ever been given.
    assert!(b.window_at(0, 1920).is_some());
    assert!(b.window_at(SAMPLE_RATE as u64 * 9, 1920).is_some());
}

/// The four JS8 submodes as the scheduler sees them: cycle period, and how long
/// past a cycle's start its audio is all in.
fn js8_grids() -> (Vec<Ticks>, Vec<Ticks>) {
    let ids = [TURBO, FAST, NORMAL, SLOW];
    let period = ids.iter().map(|m| m.period_s.unwrap() as Ticks * SECOND).collect();
    let after = ids.iter().map(window_ready_s).collect();
    (period, after)
}

/// Cycles of one mode whose audio is all in by `span`, counting from a cycle
/// starting at zero.
fn ripe_by(span: Ticks, period: Ticks, after: Ticks) -> usize {
    ((span - after).div_euclid(period) + 1) as usize
}

/// A pass never asks for audio that has not been captured yet.
#[test]
fn a_pass_waits_for_the_window_it_reads() {
    for id in [TURBO, FAST, NORMAL, SLOW] {
        // The window starts half a second before the cycle, so this much of it
        // exists by the time the pass runs.
        let captured = window_ready_s(&id) + SECOND / 2;
        assert!(captured >= window_len_s(&id), "reads more than has arrived: {id:?}");

        let slack = window_len_s(&id) - SECOND / 2 - id.chunk as Ticks;
        assert!(slack > SECOND * 5 / 2, "a stream more than {slack} late loses its frames");
    }
}

/// No cycle is lost because the decoder was busy when it ripened.
#[test]
fn no_cycle_is_lost_because_the_decoder_was_busy() {
    let (period, after) = js8_grids();
    let span = 300 * SECOND;

    // A decoder that wakes once in five minutes must still be handed every cycle
    // of those five minutes.
    let mut next = vec![0; period.len()];
    let slow = ripe_cycles(&mut next, &period, &after, span);
    let want: usize = period.iter().zip(&after).map(|(p, a)| ripe_by(span, *p, *a)).sum();
    assert_eq!(slow.len(), want, "a busy decoder was handed {} of {want} cycles", slow.len());

    // And one that wakes constantly must be handed exactly the same ones.
    let mut next = vec![0; period.len()];
    let mut brisk = Vec::new();
    let mut t = 0;
    while t <= span {
        brisk.extend(ripe_cycles(&mut next, &period, &after, t));
        t += SECOND / 4;
    }
    assert_eq!(brisk, slow, "how often the decoder looks changed which cycles it got");

    // Every cycle exactly once, on its own grid.
    for (i, p) in period.iter().enumerate() {
        let mine: Vec<Ticks> = slow.iter().filter(|c| c.0 == i).map(|c| c.1).collect();
        let mut want = 0;
        for (k, got) in mine.iter().enumerate() {
            assert_eq!(*got, want, "mode {i} cycle {k} is not on its grid");
            want += p;
        }
    }
}

/// All four submodes fit in the time available, at the pass cost a real capture
/// measured.
#[test]
fn the_four_submodes_fit_in_the_time_available() {
    let (period, after) = js8_grids();
    let pass_cost = SECOND * 108 / 100;
    let span = 600 * SECOND;

    let mut next = vec![0; period.len()];
    let mut queue: Vec<(usize, Ticks)> = Vec::new();
    let (mut now, mut decoded, mut worst_wait) = (0, 0usize, 0);
    while now < span {
        queue.extend(ripe_cycles(&mut next, &period, &after, now));
        let Some(&(i, cycle)) = queue.first() else {
            now += SECOND / 4;
            continue;
        };
        worst_wait = worst_wait.max(now - (cycle + after[i]));
        queue.remove(0);
        decoded += 1;
        now += pass_cost;
    }

    let want: usize = period.iter().zip(&after).map(|(p, a)| ripe_by(span, *p, *a)).sum();
    assert!(decoded * 100 >= want * 99, "decoded {decoded} of {want} cycles");
    assert!(worst_wait < MAX_BACKLOG_S / 4, "a cycle waited {worst_wait} to be decoded");
}

/// Cycles come back in the order their audio completed.
#[test]
fn a_backlog_is_handed_over_in_the_order_it_arrived() {
    let (period, after) = js8_grids();
    let mut next = vec![0; period.len()];
    let got = ripe_cycles(&mut next, &period, &after, 120 * SECOND);
    assert!(got.len() > 20, "only {} cycles; the test proved little", got.len());

    let mut last = Ticks::MIN;
    for &(i, cycle) in &got {
        let done = cycle + after[i];
        assert!(done >= last, "cycle completing at {done} came after {last}");
        last = done;
    }
}

/// A schedule hands a ripe cycle over with the window it is to be read from, and
/// looks for late frames only after several that came back empty.
#[test]
fn a_schedule_learns_how_late_its_frames_are() {
    let start = NOW - NOW % (15 * SECOND);
    let mut s = Schedule::new(vec![NORMAL], start);
    let cycle = start + 15 * SECOND;
    let (none, dropped) = s.look(cycle + window_ready_s(&NORMAL) - 1);
    assert!(none.is_none_or(|p| p.cycle < cycle), "handed over before its audio was in");
    assert_eq!(dropped, 0);
    let mut now = cycle;
    let mut searched = 0;
    for _ in 0..12 {
        now += 15 * SECOND;
        while let (Some(p), _) = s.look(now) {
            assert_eq!(p.mode, 0);
            assert_eq!(p.from, p.cycle - SECOND / 2);
            assert_eq!(p.len, window_len_s(&NORMAL));
            if s.passed(0, 0, now) {
                searched += 1;
            }
        }
    }
    assert!((1..=3).contains(&searched), "searched {searched} times in three minutes");
    // Nothing found moves nothing, and nor does less than half a second.
    assert!(!s.located(0, None));
    assert!(!s.located(0, Some(SECOND / 4)));
    assert!(s.located(0, Some(6 * SECOND)));
    let next = s.offset[0];
    assert_eq!(next, 6 * SECOND);
    assert!(s.wait(now) > 0);
    assert!(s.keeping_up());
}

/// Which devices put the capture into a sound server's graph.
#[test]
fn the_sound_server_pcms_are_the_routable_ones() {
    for id in ["alsa:pipewire", "alsa:default", "pipewire", "default", "pulse"] {
        assert!(is_pipewire(id), "{id} should offer routing");
    }
    for id in [
        "alsa:plughw:CARD=USB,DEV=0",
        "alsa:hw:CARD=PCH,DEV=2",
        "alsa:sysdefault:CARD=Audio",
        "alsa:front:CARD=PCH,DEV=0",
    ] {
        assert!(!is_pipewire(id), "{id} is a sound card, not a graph");
    }
    // `default:CARD=x` is a card's own default PCM, not the server's.
    assert!(!is_pipewire("alsa:default:CARD=PCH"), "a card's default is not the server");
}

fn quiet_thread() -> ThreadHealth {
    ThreadHealth {
        passes: 0,
        decodes: 0,
        short: 0,
        searches: 0,
        skipped: 0,
        last_ms: 0,
        running: false,
        wanted: false,
        since_pass: None,
    }
}

/// A decode thread nobody asked for raises no alarm.
#[test]
fn a_thread_that_was_never_wanted_is_not_reported_as_a_fault() {
    let mut h = quiet_thread();
    assert!(!h.wanted);
    assert!(!h.running);
    // Nothing to say about a thread that was never asked for.
    assert_eq!(check_stall(&h, CONT_STALL_S as u64), None);

    // But one that was asked for and is not running is still a fault.
    h.wanted = true;
    assert_eq!(check_stall(&h, CONT_STALL_S as u64), Some(Fault::Stopped));

    // And one that is running but has not begun a pass for too long is another.
    h.running = true;
    h.since_pass = Some(CONT_STALL_S as u64);
    assert_eq!(check_stall(&h, CONT_STALL_S as u64), None);
    h.since_pass = Some(CONT_STALL_S as u64 + 1);
    assert_eq!(check_stall(&h, CONT_STALL_S as u64), Some(Fault::Quiet(CONT_STALL_S as u64 + 1)));
    assert_eq!(check_stall(&h, JS8_STALL_S as u64), None);
}

/// The heartbeat reports rates, and says as judgements what is wrong.
#[test]
fn a_heartbeat_says_what_has_happened_since_the_last() {
    let js8 = ThreadHealth {
        passes: 12,
        decodes: 3,
        short: 1,
        searches: 2,
        skipped: 0,
        last_ms: 790,
        running: true,
        wanted: true,
        since_pass: Some(4 * SECOND as u64),
    };
    let then = Health { ui_columns: 100, ui_frames: 50, js8: quiet_thread(), continuous: quiet_thread() };
    let now = Health { ui_columns: 850, ui_frames: 1550, js8, continuous: quiet_thread() };
    let last = Snapshot::of(&then);
    let mut b = Beat {
        lag: SECOND / 4,
        slipped: 0,
        fresh_slip: 0,
        held: 300 * SECOND,
        started: true,
        stream_errors: 0,
        record_dropped: 2,
    };
    let r = heartbeat(&b, &now, &last).unwrap();
    assert_eq!(
        r.line,
        format!(
            "lag=+0.25s slipped=0.0s held=300s cols=+750 frames=+1500 | js8 {} | cont {} | stream_err=0 rec_drop=2",
            thread_summary(&js8, ThreadDelta::of(&js8)),
            thread_summary(&quiet_thread(), ThreadDelta::of(&quiet_thread())),
        )
    );
    assert!(r.line.contains("passes=+12 decodes=+3 short=+1 searches=+2"), "{}", r.line);
    assert!(!r.stalled && !r.lag_off);
    assert_eq!(r.js8, None);
    assert_eq!(r.now, Snapshot::of(&now));

    b.lag = -3 * SECOND;
    b.fresh_slip = 90 * SECOND;
    b.slipped = 90 * SECOND;
    let r = heartbeat(&b, &now, &last).unwrap();
    assert!(r.line.starts_with("lag=-3.00s slipped=90.0s"), "{}", r.line);
    assert!(r.stalled && r.lag_off);
    assert!(lag_is_off(b.lag as i128));

    // Nothing captured yet is nothing to report.
    b.started = false;
    assert!(heartbeat(&b, &now, &last).is_none());
}

/// A capture that stalls moves its own anchor, instead of keeping the lost time
/// for ever.
#[test]
fn a_stalled_capture_moves_its_anchor_rather_than_losing_the_clock() {
    let mut b: AudioBuf<f32> = AudioBuf::new(SAMPLE_RATE * 300);

    // Ten seconds of audio, which arrived starting a hundred seconds ago and
    // stopped ninety seconds ago.
    b.append(&vec![0.0f32; SAMPLE_RATE * 10], NOW);
    b.start_unix = NOW - 100 * SECOND;
    b.last_append = NOW - 90 * SECOND;
    assert_eq!(b.lag_s(NOW), 90 * SECOND as i128, "set up wrong");

    // The stream resumes with one ordinary block.
    b.append(&vec![0.0f32; 512], NOW);
    assert_eq!(b.lag_s(NOW), 0, "still adrift after the anchor should have caught up");

    // Reported once, with a running total.
    let (total, fresh) = b.take_slip();
    assert!((total - 90 * SECOND).abs() < SECOND / 5, "lost {total}, expected 90 s");
    assert!((fresh - 90 * SECOND).abs() < SECOND / 5, "reported {fresh} as new");
    assert_eq!(b.take_slip().1, 0, "reported the same stall twice");
}

/// And a window asked for in UTC then lands on audio again.
#[test]
fn a_decode_window_lands_on_audio_after_a_stall() {
    let mut b: AudioBuf<f32> = AudioBuf::new(SAMPLE_RATE * 300);
    b.append(&vec![0.1f32; SAMPLE_RATE * 10], NOW);
    b.start_unix = NOW - 100 * SECOND;
    b.last_append = NOW - 90 * SECOND;
    // Before the anchor moves, the window is cut ninety seconds past the end of
    // the buffer and there is nothing there at all.
    let (early, _) = b.slice_around(NOW - 5 * SECOND, 4 * SECOND);
    assert!(early.is_empty(), "expected the broken case to return nothing");
    b.append(&vec![0.1f32; 512], NOW);

    let (samples, _) = b.slice_around(NOW - 5 * SECOND, 4 * SECOND);
    let got = samples.len() as f64 / SAMPLE_RATE as f64;
    assert!((got - 4.0).abs() < 0.1, "asked for 4s of audio and got {got:.2}s");
}

/// A merely *late* block is not a stall.
#[test]
fn a_late_block_that_brings_its_audio_with_it_moves_nothing() {
    let mut b: AudioBuf<f32> = AudioBuf::new(SAMPLE_RATE * 300);
    b.append(&vec![0.0f32; SAMPLE_RATE], NOW);
    b.start_unix = NOW - SECOND;

    // Three seconds late, carrying three seconds of audio.
    b.last_append = NOW - 3 * SECOND;
    b.append(&vec![0.0f32; SAMPLE_RATE * 3], NOW);

    assert_eq!(b.take_slip().0, 0, "a late block was counted as lost audio");
}

fn found_at(t: Ticks) -> Decode {
    Decode {
        hz: 1_500_000,
        time_s: t,
        text: "DE W1AW EM73".to_string(),
        mode: NORMAL,
        ends_over: false,
        quality: 10_000,
        snr_db: None,
    }
}

/// A stream that is seconds behind the clock is reported as the phase its frames
/// arrive at.
#[test]
fn a_delayed_stream_is_located() {
    let period = 15 * SECOND;
    let delay = 6 * SECOND + SECOND * 37 / 100;
    let grid = NOW - NOW % period;
    let found = vec![found_at(SECOND), found_at(4 * SECOND)];
    // The window starts so that the newest of them is at the delay.
    let win_start = grid + delay - 4 * SECOND - (NOW - 60 * SECOND);
    assert_eq!(measure_offset(&found, NOW - 60 * SECOND, win_start, period), Some(delay));
}

/// A band with nothing on it reports nothing.
#[test]
fn silence_moves_nothing() {
    assert_eq!(measure_offset(&Vec::new(), NOW, 0, 15 * SECOND), None);
    // And too little audio to hold a frame is not searched at all.
    let mut b: AudioBuf<f32> = AudioBuf::new(SAMPLE_RATE * 120);
    b.append(&vec![0.0f32; SAMPLE_RATE * 5], NOW);
    assert!(b.search_window(&NORMAL, 15 * SECOND).is_none());
    assert!(is_short(SAMPLE_RATE * 5, &NORMAL));
    b.append(&vec![0.0f32; SAMPLE_RATE * 40], NOW);
    let (samples, start) = b.search_window(&NORMAL, 15 * SECOND).unwrap();
    let want = 15 * SECOND + NORMAL.chunk as Ticks + SEARCH_SPAN_S;
    assert_eq!(samples.len() as Ticks * 1000, want);
    assert_eq!(start, 45 * SECOND - want);
    assert!(!is_short(samples.len(), &NORMAL));
}

/// Decode times are moved to the time of the capture.
#[test]
fn window_times_become_capture_times() {
    let out = shift_times(vec![found_at(SECOND), found_at(0)], 30 * SECOND);
    assert_eq!(out[0].time_s, 31 * SECOND);
    assert_eq!(out[1].time_s, 30 * SECOND);
    assert_eq!(out[0].text, "DE W1AW EM73");
}

/// Modes that keep to a schedule go to one thread, the others to another.
#[test]
fn modes_are_split_by_schedule() {
    let (js8, cont) = split_modes(&vec![NORMAL, PSK31, SLOW]);
    assert_eq!(js8, vec![NORMAL, SLOW]);
    assert_eq!(cont, vec![PSK31]);
}

/// The continuous decoder reads on from where it was, and starts anew when the
/// buffer has overrun it.
#[test]
fn a_reader_starts_anew_across_a_hole() {
    let mut r = Reader { next_g: None, origin_s: 0 };
    let first = r.take(0, 1000);
    assert!(first.restart && !first.overran);
    let more = r.take(0, 3000);
    assert_eq!((more.from, more.to), (1000, 3000));
    assert!(!more.restart);
    let gone = r.take(5000, 9000);
    assert_eq!((gone.from, gone.to), (5000, 9000));
    assert!(gone.restart);
    assert_eq!(r.origin_s, 5_000_000);
    assert_eq!(owed_after(SECOND / 4), None);
    assert_eq!(owed_after(SECOND), Some(SECOND * 3 / 4));
}

/// Thirty advertised PCMs come down to the handful a person would recognise.
#[test]
fn winnowing_matches_what_a_person_would_expect() {
    let kept = winnow(real_alsa_listing());
    let ids: Vec<&str> = kept.iter().map(|d| d.id.as_str()).collect();

    assert_eq!(
        ids,
        vec![
            "alsa:jack",
            "alsa:pipewire",
            "alsa:pulse",
            "alsa:default",
            "alsa:plughw:CARD=sofhdadsp,DEV=0",
            "alsa:plughw:CARD=sofhdadsp,DEV=6",
            "alsa:plughw:CARD=sofhdadsp,DEV=7",
        ]
    );
}

/// The individual rules, so a failure says which one broke.
#[test]
fn winnowing_rules() {
    let kept = winnow(real_alsa_listing());
    let has = |s: &str| kept.iter().any(|d| d.id.contains(s));

    assert!(!has("lavrate") && !has("upmix") && !has("null"), "kept a converter plugin");
    assert!(!has("CARD=1"), "kept a card addressed by number as well as by name");
    assert!(!has("hw:CARD=sofhdadsp,DEV=0") || has("plughw:CARD=sofhdadsp,DEV=0"));
    assert!(!has("dsnoop") && !has("sysdefault"), "kept a lesser view of a device");
    assert!(!has("usbstream"), "kept a usbstream alias");
    // one entry per real capture endpoint
    assert_eq!(kept.iter().filter(|d| d.id.contains("sofhdadsp")).count(), 3);
}

/// With nothing named, cards addressed by number are all there is.
#[test]
fn numeric_cards_survive_when_they_are_the_only_ones() {
    let kept = winnow(vec![
        dev("alsa:plughw:CARD=0,DEV=0", "Card zero"),
        dev("alsa:hw:CARD=0,DEV=0", "Card zero"),
    ]);
    assert_eq!(kept.len(), 1);
    assert_eq!(kept[0].id, "alsa:plughw:CARD=0,DEV=0");
}

/// A picker that offers the same string twice is a picker you cannot use.
#[test]
fn duplicate_labels_are_made_distinct() {
    let mut devs = vec![
        dev("alsa:hw:CARD=sofhdadsp,DEV=0", "sof-hda-dsp, "),
        dev("alsa:plughw:CARD=sofhdadsp,DEV=0", "sof-hda-dsp, "),
        dev("alsa:hw:CARD=sofhdadsp,DEV=6", "sof-hda-dsp, "),
        dev("alsa:pipewire", "PipeWire Sound Server"),
    ];
    disambiguate(&mut devs);

    let mut labels: Vec<&String> = devs.iter().map(|d| &d.label).collect();
    let n = labels.len();
    labels.sort();
    labels.dedup();
    assert_eq!(labels.len(), n, "labels still collide: {devs:#?}");

    // the one that was already unique is left alone
    assert_eq!(devs[3].label, "PipeWire Sound Server");
    // and hw/plughw stay apart, which trimming to the last colon would lose
    assert!(devs[0].label.contains("hw:CARD"));
    assert!(devs[1].label.contains("plughw:CARD"));
}

/// What a label gets to be told apart by may read like a label that is there
/// already, or like one made the same way.
#[test]
fn no_label_is_offered_twice() {
    let labels = |devs: Vec<AudioDevice>| -> Vec<String> {
        let mut devs = devs;
        let ids: Vec<String> = devs.iter().map(|d| d.id.clone()).collect();
        disambiguate(&mut devs);
        assert_eq!(devs.iter().map(|d| d.id.clone()).collect::<Vec<_>>(), ids);
        devs.into_iter().map(|d| d.label).collect()
    };
    assert_eq!(
        labels(vec![dev("a:x", "L"), dev("a:y", "L"), dev("a:z", "L [x]")]),
        ["L [x] [x]", "L [y]", "L [x]"]
    );
    // Two ways to one label.
    assert_eq!(
        labels(vec![dev("a:p] [q", "L"), dev("a:q", "L [p]"), dev("a:r", "L"), dev("a:s", "L [p]")]),
        ["L [p] [q]", "L [p] [q] [q]", "L [r]", "L [p] [s]"]
    );
    // A label that is given up may be had by another.
    assert_eq!(
        labels(vec![dev("a:x", "L"), dev("a:y", "L"), dev("a:p", "L [x]"), dev("a:q", "L [x]")]),
        ["L [x]", "L [y]", "L [x] [p]", "L [x] [q]"]
    );
    // Even one device listed twice is offered under two labels.
    assert_eq!(labels(vec![dev("a:x", "L"), dev("b:x", "L")]), ["L [x]", "L [x] [x]"]);
}

/// All devices are offered on request, and each under a label of its own.
#[test]
fn every_device_can_be_offered() {
    assert_eq!(offer(real_alsa_listing(), true).len(), 30);
    let few = offer(real_alsa_listing(), false);
    assert_eq!(few.len(), 7);
    let mut labels: Vec<&String> = few.iter().map(|d| &d.label).collect();
    labels.sort();
    labels.dedup();
    assert_eq!(labels.len(), 7);
}
