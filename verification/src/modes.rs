//! What the rest of the library needs to know of a mode and of a decode.

use vstd::prelude::*;

verus! {

/// A time, or a length of time, in twelfths of a microsecond: the longest unit
/// of which both a microsecond and a sample are a whole number.
pub type Ticks = i64;

/// An audio frequency in thousandths of a hertz.
pub type MilliHz = i32;

/// Ticks in a second.
pub const SECOND: Ticks = 12_000_000;

/// Samples a second of the audio that the receivers work on.
pub const SAMPLE_RATE: usize = 12_000;

/// Ticks that one sample lasts.
pub const SAMPLE: Ticks = 1_000;

/// A family of modes sharing one waveform.
#[derive(Clone, Copy, Debug, PartialEq, Eq, Structural)]
pub enum Protocol {
    Js8,
    Olivia,
    Psk,
}

/// A mode, by the figures of it that matter here.
#[derive(Clone, Copy, Debug, PartialEq, Eq, Structural)]
pub struct ModeId {
    pub protocol: Protocol,
    /// The place of the mode's name among the names of all modes, in order.
    pub rank: u32,
    /// Length of a cycle in seconds, where the mode keeps to a schedule.
    pub period_s: Option<u32>,
    /// How much air time one decode covers, in [`Ticks`].
    pub chunk: u32,
    /// How far apart two decodes of one station may lie, in thousandths of a
    /// hertz.
    pub assoc_tol: u32,
    /// Width of the signal, in thousandths of a hertz.
    pub bandwidth: u32,
    /// Symbols a second, in thousandths.
    pub baud: u32,
    /// How far apart in time two decodes of one character may lie, in
    /// [`Ticks`].
    pub dup_tol: u32,
    /// Samples that one block of the receiver's acquisition covers.
    pub block_samples: u32,
    /// Samples that a receiver needs before it has a carrier.
    pub lock_samples: u32,
}

/// One thing that a receiver made out: a JS8 frame, an Olivia block, or a
/// single PSK character.
#[derive(Debug)]
pub struct Decode {
    /// Carrier.
    pub hz: MilliHz,
    /// When it began, in the time of the audio.
    pub time_s: Ticks,
    pub text: String,
    pub mode: ModeId,
    /// Whether the station marked this as the last of what it had to say.
    pub ends_over: bool,
    /// Confidence, in thousandths of the protocol's noise floor.
    pub quality: i32,
    /// Signal to noise in thousandths of a decibel, where it could be measured.
    pub snr_db: Option<i32>,
}

impl Clone for Decode {
    fn clone(&self) -> (d: Decode)
        ensures
            d == *self,
    {
        Decode {
            hz: self.hz,
            time_s: self.time_s,
            text: self.text.clone(),
            mode: self.mode,
            ends_over: self.ends_over,
            quality: self.quality,
            snr_db: self.snr_db,
        }
    }
}

/// The distance between two frequencies.
pub open spec fn hz_apart(a: MilliHz, b: MilliHz) -> int {
    if a >= b {
        a - b
    } else {
        b - a
    }
}

/// The distance between two frequencies.
pub fn apart(a: MilliHz, b: MilliHz) -> (d: i64)
    ensures
        d == hz_apart(a, b),
{
    if a >= b {
        a as i64 - b as i64
    } else {
        b as i64 - a as i64
    }
}

/// The length of time from `from` to `to`.
pub fn since(to: Ticks, from: Ticks) -> (d: i128)
    ensures
        d == to - from,
{
    to as i128 - from as i128
}

} // verus!
