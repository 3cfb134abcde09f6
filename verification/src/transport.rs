//! The clock that a recording is played by.

use crate::modes::{Ticks, SAMPLE};
use vstd::prelude::*;

verus! {

/// Where a recording has been played to, and whether it is playing.
#[derive(Clone, Copy, Debug, PartialEq, Eq, Structural)]
pub struct Transport {
    pub t_now: Ticks,
    pub playing: bool,
    /// Length of the recording.
    pub duration: Ticks,
    /// Playing speed, in thousandths of life.
    pub speed: u32,
}

impl Transport {
    /// The clock is inside the recording.
    pub open spec fn wf(self) -> bool {
        0 <= self.t_now <= self.duration
    }

    /// Nothing loaded, to be played at `speed`.
    pub fn new(speed: u32) -> (t: Transport)
        ensures
            t == (Transport { t_now: 0, playing: false, duration: 0, speed }),
            t.wf(),
    {
        Transport { t_now: 0, playing: false, duration: 0, speed }
    }

    /// Take on a recording of so many samples, stopped at its beginning.
    pub fn load(&mut self, samples: usize)
        requires
            samples * SAMPLE <= i64::MAX,
        ensures
            *final(self) == (Transport {
                t_now: 0,
                playing: false,
                duration: (samples * SAMPLE) as i64,
                speed: old(self).speed,
            }),
            final(self).wf(),
    {
        self.duration = samples as i64 * SAMPLE;
        self.t_now = 0;
        self.playing = false;
    }

    /// Play from the top: the picture of the recording is there, or the operator
    /// asked for it again.
    pub fn restart(&mut self)
        requires
            old(self).wf(),
        ensures
            *final(self) == (Transport { t_now: 0, playing: true, ..*old(self) }),
            final(self).wf(),
    {
        self.t_now = 0;
        self.playing = true;
    }

    /// Play or stop. Played at its end, a recording begins again.
    pub fn press(&mut self)
        requires
            old(self).wf(),
        ensures
            *final(self) == (Transport {
                t_now: if old(self).t_now >= old(self).duration { 0 } else { old(self).t_now },
                playing: !old(self).playing,
                ..*old(self)
            }),
            final(self).wf(),
    {
        if self.t_now >= self.duration {
            self.t_now = 0;
        }
        self.playing = !self.playing;
    }

    /// Put the clock where the operator dragged it, which stops it.
    pub fn drag(&mut self, to: Ticks)
        requires
            0 <= to <= old(self).duration,
        ensures
            *final(self) == (Transport { t_now: to, playing: false, ..*old(self) }),
            final(self).wf(),
    {
        self.t_now = to;
        self.playing = false;
    }

    /// Let `dt` of life go by. A clock that reaches the end stops there.
    pub fn advance(&mut self, dt: u32)
        requires
            old(self).wf(),
        ensures
            ({
                let to = old(self).t_now + dt * old(self).speed / 1000;
                *final(self) == if !old(self).playing {
                    *old(self)
                } else if to >= old(self).duration {
                    Transport { t_now: old(self).duration, playing: false, ..*old(self) }
                } else {
                    Transport { t_now: to as i64, ..*old(self) }
                }
            }),
            final(self).playing ==> 0 <= dt * old(self).speed - 1000 * (final(self).t_now - old(self).t_now) < 1000,
            old(self).playing && !final(self).playing ==> final(self).t_now == old(self).duration && dt * old(
                self,
            ).speed >= 1000 * (old(self).duration - old(self).t_now),
            final(self).wf(),
    {
        if self.playing {
            assert(0 <= dt * self.speed <= 0xffff_ffff * 0xffff_ffff) by (nonlinear_arith)
                requires
                    0 <= dt <= 0xffff_ffff,
                    0 <= self.speed <= 0xffff_ffff,
            ;
            let step: i64 = (dt as u64 * self.speed as u64 / 1000) as i64;
            if step >= self.duration - self.t_now {
                self.t_now = self.duration;
                self.playing = false;
            } else {
                self.t_now = self.t_now + step;
            }
        }
    }
}

/// A clock that is playing goes forward at every speed that is not slower than
/// life, however short the step.
pub proof fn the_clock_advances_at_every_speed(t: Transport, dt: u32)
    requires
        t.wf(),
        t.playing,
        t.t_now < t.duration,
        t.speed >= 1000,
        dt > 0,
    ensures
        t.t_now + dt * t.speed / 1000 > t.t_now,
{
    assert(dt * t.speed >= 1000) by (nonlinear_arith)
        requires
            dt >= 1,
            t.speed >= 1000,
    ;
}

} // verus!
