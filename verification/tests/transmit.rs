//! Putting text on the air, and taking it back.

use ragchew_gui::modes::{ModeId, Protocol, Ticks, SECOND};
use ragchew_gui::transmit::{
    abort_active, at_the_seams, is_tellable, lay_out_over, rekey, sendable, split_sent, stop_transmitting,
    without_newlines, Abort, Burst, Caught, Outgoing, Slot,
};

const JS8_NORMAL: ModeId = ModeId {
    protocol: Protocol::Js8,
    rank: 1,
    period_s: Some(15),
    chunk: 151_680_000,
    assoc_tol: 6_250,
    bandwidth: 50_000,
    baud: 6_250,
    dup_tol: 12_000_000,
    block_samples: 0,
    lock_samples: 0,
};

const NOW: Ticks = 1_700_000_000 * SECOND;

fn queued(burst: u64, start: Ticks) -> Outgoing {
    Outgoing {
        start_unix: start,
        end_unix: start + 12 * SECOND,
        burst,
        mode: JS8_NORMAL,
        keys: vec![(start - SECOND / 2, start + 13 * SECOND)],
        text: "CQ DE W1AW ".to_string(),
    }
}

/// Only a draft with nothing but blanks in it is refused, and no newline is sent.
#[test]
fn a_blank_draft_is_not_sent() {
    assert!(!sendable(""));
    assert!(!sendable(" \t "));
    assert!(sendable(" CQ "));
    assert_eq!(without_newlines("CQ\nDE\n\nW1AW"), "CQDEW1AW");
    assert_eq!(without_newlines(" CQ "), " CQ ");
}

/// One key-down per burst, and each burst knows which characters it carries.
#[test]
fn an_over_is_keyed_burst_by_burst() {
    let bursts = vec![
        Burst { at_s: 0, secs: 13 * SECOND, text: "CQ CQ DE W1AW".to_string() },
        Burst { at_s: 15 * SECOND, secs: 13 * SECOND, text: " FN31 K".to_string() },
    ];
    let slots = lay_out_over(&bursts, NOW, SECOND / 2, SECOND / 4);
    assert_eq!(
        slots,
        vec![
            Slot { begins: NOW, on: NOW - SECOND / 2, off: NOW + 13 * SECOND + SECOND / 4, starts_at: 0 },
            Slot {
                begins: NOW + 15 * SECOND,
                on: NOW + 15 * SECOND - SECOND / 2,
                off: NOW + 28 * SECOND + SECOND / 4,
                starts_at: 13,
            },
        ]
    );
    assert!(slots[0].off < slots[1].on, "the key was held across the silence");
}

/// A message is laid out only where its times can be told.
#[test]
fn times_out_of_range_are_noticed() {
    let bursts = vec![Burst { at_s: 0, secs: 13 * SECOND, text: "CQ".to_string() }];
    assert!(is_tellable(&bursts, NOW, SECOND, SECOND));
    assert!(is_tellable(&Vec::new(), Ticks::MAX, SECOND, SECOND));
    assert!(!is_tellable(&bursts, Ticks::MAX, SECOND, SECOND));
    assert!(!is_tellable(&bursts, Ticks::MAX - 13 * SECOND, 0, 1));
    assert!(is_tellable(&bursts, Ticks::MAX - 13 * SECOND, 0, 0));
    assert!(!is_tellable(&bursts, Ticks::MIN, 1, 0));
}

/// The button gives back what is waiting first, and stops only when nothing is.
#[test]
fn an_abort_takes_back_before_it_stops() {
    let mut out = vec![queued(1, NOW - 5 * SECOND), queued(2, NOW + 10 * SECOND), queued(3, NOW + 25 * SECOND)];
    match abort_active(&out, NOW) {
        Abort::TakeBack(ids) => {
            assert_eq!(ids, [2, 3]);
            out.retain(|o| !ids.contains(&o.burst));
        }
        Abort::Stop => panic!("stopped with messages still waiting"),
    }
    assert!(matches!(abort_active(&out, NOW), Abort::Stop), "a second press did not stop it");
    assert!(matches!(abort_active(&Vec::new(), NOW), Abort::Stop));
}

/// What never began goes back whole, what was on the air is divided, and what had
/// finished is left alone.
#[test]
fn stopping_divides_the_burst_on_the_air() {
    let out = vec![queued(1, NOW - 30 * SECOND), queued(2, NOW - 5 * SECOND), queued(3, NOW + 10 * SECOND)];
    let caught = Caught { never_began: vec![3, 9], in_flight: Some((2, 4)) };
    assert_eq!(stop_transmitting(&out, &caught), vec![(2, 4), (3, 0)]);
    let idle = Caught { never_began: Vec::new(), in_flight: None };
    assert!(stop_transmitting(&out, &idle).is_empty());
}

/// The key's schedule is what is still owed.
#[test]
fn only_spans_still_owed_are_keyed_again() {
    let out = vec![queued(1, NOW - 30 * SECOND), queued(2, NOW - 5 * SECOND), queued(3, NOW + 10 * SECOND)];
    assert_eq!(rekey(&out, NOW), vec![out[1].keys[0], out[2].keys[0]]);
    assert!(rekey(&out, NOW + 60 * SECOND).is_empty());
}

/// What has gone out is told apart from what has not.
#[test]
fn sent_text_is_split_off() {
    assert_eq!(split_sent("CQ DÉ", 4), ("CQ D".to_string(), "É".to_string()));
    assert_eq!(split_sent("CQ", 9), ("CQ".to_string(), String::new()));
    assert_eq!(split_sent("CQ", 0), (String::new(), "CQ".to_string()));
}

/// The seams between joined frames are drawn in the text, and are no part of it.
#[test]
fn joined_frames_are_drawn_with_their_seams() {
    let text = "CQ CQ DE K2N FN20 5W ";
    let drawn = at_the_seams(text, &vec![13]).join("│");
    assert_eq!(drawn, "CQ CQ DE K2N │FN20 5W ");
    let long = "FN20 5W ".repeat(20);
    let marks: Vec<usize> = (1..8).map(|i| i * 40).collect();
    let pieces = at_the_seams(&long, &marks);
    assert_eq!(pieces.len(), 8);
    assert_eq!(pieces.concat(), long);
}

/// Seams are where the marks are.
#[test]
fn joined_frames_are_cut_at_their_seams() {
    assert_eq!(at_the_seams("CQ CQ DE K2N FN20 5W ", &vec![13]), ["CQ CQ DE K2N ", "FN20 5W "]);
    assert_eq!(at_the_seams("CQ", &vec![]), ["CQ"]);
    assert_eq!(at_the_seams("CQ", &vec![1, 9]), ["C", "Q", ""]);
    // A mark out of order cuts off nothing.
    assert_eq!(at_the_seams("ABCD", &vec![3, 1]), ["ABC", "", "BCD"]);
}
