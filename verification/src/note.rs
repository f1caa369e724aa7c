use vstd::prelude::*;

use crate::interval::Interval;

verus! {

/// A pitch: a pitch class given as an ordinal in 0..12, and an octave number.
#[derive(Debug, Clone, Copy, PartialEq, Eq, Structural)]
pub struct Note {
    pub pitch_class: u8,
    pub octave: u8,
}

impl Note {
    /// A note's pitch class is an ordinal below 12.
    pub open spec fn wf(self) -> bool {
        self.pitch_class < 12
    }

    pub fn new(pitch_class: u8, octave: u8) -> (n: Note)
        ensures
            n.pitch_class == pitch_class,
            n.octave == octave,
    {
        Note { pitch_class, octave }
    }
}

/// The pitch class reached from `pitch_class` by an interval: the ordinal
/// moves up by the interval's semitone count and wraps around at the octave.
pub fn pitch_class_from_interval(pitch_class: u8, interval: &Interval) -> (r: u8)
    requires
        pitch_class < 12,
        interval.semitone_count <= 12,
    ensures
        r == (pitch_class + interval.semitone_count) % 12,
{
    (pitch_class + interval.semitone_count) % 12
}

} // verus!
