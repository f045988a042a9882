//! Brief audible cues for recording state changes.

use vstd::prelude::*;

verus! {

/// The two recording-state cues.
#[derive(Clone, Copy, PartialEq, Eq, Structural, Debug)]
pub enum Cue {
    Start,
    Stop,
}

/// A sine tone: its pitch and how long it sounds.
#[derive(Clone, Copy, PartialEq, Eq, Structural, Debug)]
pub struct Tone {
    pub frequency_hz: u32,
    pub millis: u64,
}

impl Cue {
    /// The tone of a cue: a higher, shorter one for start, a lower, longer
    /// one for stop.
    pub fn tone(self) -> (t: Tone)
        ensures
            t == match self {
                Cue::Start => Tone { frequency_hz: 880, millis: 65 },
                Cue::Stop => Tone { frequency_hz: 660, millis: 85 },
            },
    {
        match self {
            Cue::Start => Tone { frequency_hz: 880, millis: 65 },
            Cue::Stop => Tone { frequency_hz: 660, millis: 85 },
        }
    }
}

impl Tone {
    /// How long to keep the output open: the tone and a short tail so it is
    /// not cut off.
    pub fn hold_millis(self) -> (ms: u64)
        requires
            self.millis <= u64::MAX - 25,
        ensures
            ms == self.millis + 25,
    {
        self.millis + 25
    }
}

} // verus!
