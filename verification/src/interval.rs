//! The interval calculator: chromatic distance between two fully spelled
//! notes, reduced to within one octave.

use vstd::prelude::*;
use vstd::math::abs;
use crate::pitch::Note;

verus! {

/// Number of semitones in one octave.
pub const OCTAVE_CHROMATIC_STEPS: u32 = 12;

/// The chromatic interval between two notes: the absolute distance between
/// their absolute chromatic positions, reduced modulo 12.
pub open spec fn spec_chromatic_interval(a: Note, b: Note) -> int {
    abs(a.spec_position() - b.spec_position()) as int % 12
}

/// Chromatic distance between `a` and `b`, always in `0..12`.
pub fn chromatic_interval(a: &Note, b: &Note) -> (r: u32)
    ensures
        r == spec_chromatic_interval(*a, *b),
        r < 12,
{
    let pa: i64 = a.octave.value() as i64 * OCTAVE_CHROMATIC_STEPS as i64
        + a.letter.chromatic_index() as i64 + a.accidental.offset() as i64;
    let pb: i64 = b.octave.value() as i64 * OCTAVE_CHROMATIC_STEPS as i64
        + b.letter.chromatic_index() as i64 + b.accidental.offset() as i64;
    let diff: i64 = pa - pb;
    let magnitude: i64 = if diff < 0 {
        -diff
    } else {
        diff
    };
    (magnitude % OCTAVE_CHROMATIC_STEPS as i64) as u32
}

/// The chromatic interval does not depend on the order of its two notes,
/// and always lies within 0 through 11, for every pair of notes.
pub proof fn lemma_chromatic_interval_symmetric(a: Note, b: Note)
    ensures
        spec_chromatic_interval(a, b) == spec_chromatic_interval(b, a),
        0 <= spec_chromatic_interval(a, b) < 12,
{
}

} // verus!
