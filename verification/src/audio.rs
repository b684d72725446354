//! The audio timer: an 8-bit countdown set by the `0xFx18` instruction and
//! stepped once per 60 Hz tick. While it is non-zero the timer asks the host
//! audio backend for a constant tone, and it asks the backend to stop on the
//! step that reaches zero.

use vstd::prelude::*;

verus! {

/// The host audio backend the timer drives. Implementations live outside this
/// crate (a real sound device, a test stub); the timer promises nothing about
/// what they do.
pub trait AudioOutput {
    /// Called once per 60 Hz tick while the timer is non-zero.
    fn output_audio(&mut self);

    /// Called on the tick that brings the timer to zero.
    fn stop_audio(&mut self);
}

/// The countdown timer together with the backend it drives.
pub struct AudioTimer<A: AudioOutput> {
    /// Remaining ticks of tone, decremented once per 60 Hz tick, floored at 0.
    pub time: u8,
    /// The host backend asked to start and stop the tone.
    pub audio_output: A,
}

impl<A: AudioOutput> AudioTimer<A> {
    /// Builds a timer at zero around the given backend.
    pub fn new(output: A) -> (t: AudioTimer<A>)
        ensures
            t.time == 0,
    {
        AudioTimer { time: 0, audio_output: output }
    }

    /// Sets the countdown to `ntime` ticks.
    pub fn set_timer(&mut self, ntime: u8)
        ensures
            final(self).time == ntime,
    {
        self.time = ntime;
    }

    /// One 60 Hz step: if the countdown is non-zero, plays the tone and
    /// decrements it, stopping the tone when it reaches zero.
    pub fn tick(&mut self)
        ensures
            final(self).time == if old(self).time == 0 {
                0u8
            } else {
                (old(self).time - 1) as u8
            },
    {
        if self.time != 0 {
            self.audio_output.output_audio();
            self.time = self.time - 1;
            if self.time == 0 {
                self.audio_output.stop_audio();
            }
        }
    }
}

} // verus!
