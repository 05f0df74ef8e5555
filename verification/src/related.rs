//! The related-key resolver: for any key, the six keys one diatonic
//! "functional" step away, each with musically correct spelling.

use vstd::prelude::*;
use crate::pitch::{AccidentalRangeError, Key, Letter, Mode, Note, Octave};
use crate::interval::{chromatic_interval, spec_chromatic_interval};

verus! {

/// Target chromatic distance from the root for diatonic step `i`, by mode.
pub open spec fn spec_target_distance(mode: Mode, i: int) -> int {
    match mode {
        Mode::Major => if i == 0 {
            0
        } else if i == 1 {
            2
        } else if i == 2 {
            4
        } else if i == 3 {
            5
        } else if i == 4 {
            7
        } else if i == 5 {
            9
        } else {
            11
        },
        Mode::Minor => if i == 0 {
            0
        } else if i == 1 {
            2
        } else if i == 2 {
            3
        } else if i == 3 {
            5
        } else if i == 4 {
            7
        } else if i == 5 {
            8
        } else {
            10
        },
    }
}

/// Mode of the key reached by diatonic step `i`, by mode of the root: the
/// standard relative-key pattern for major, and its mirror for minor.
pub open spec fn spec_target_mode(mode: Mode, i: int) -> Mode {
    match mode {
        Mode::Major => if i == 3 || i == 4 || i == 6 {
            Mode::Major
        } else {
            Mode::Minor
        },
        Mode::Minor => if i == 3 || i == 4 {
            Mode::Minor
        } else {
            Mode::Major
        },
    }
}

/// The one diatonic step that is skipped, because the relationship it would
/// add is already implied by the mode.
pub open spec fn spec_pass_step(mode: Mode) -> int {
    match mode {
        Mode::Major => 6,
        Mode::Minor => 1,
    }
}

/// The diatonic step behind output position `k` (0 through 5): positions
/// simply count 0 through 6 with the passed step left out.
pub open spec fn spec_step_of(mode: Mode, k: int) -> int {
    if k < spec_pass_step(mode) {
        k
    } else {
        k + 1
    }
}

/// The candidate note for step `i`: the root's letter advanced `i` diatonic
/// steps (cyclically, bumping the octave on wrap-around) with the root's
/// accidental kept unchanged.
pub open spec fn spec_candidate_note(root: Note, i: int) -> Note {
    Note {
        letter: Letter::spec_from_scale_index(root.letter.spec_scale_index() + i),
        accidental: root.accidental,
        octave: if root.letter.spec_scale_index() + i >= 7 {
            Octave((root.octave.0 + 1) as u32)
        } else {
            root.octave
        },
    }
}

/// The key reached by diatonic step `i`: the candidate note, its accidental
/// nudged a single semitone toward the step's target chromatic distance,
/// tagged with the step's target mode. Fails when the nudge would need a
/// double accidental.
#[verifier::opaque]
pub open spec fn spec_step_key(root: Key, i: int) -> Result<Key, AccidentalRangeError> {
    let cand = spec_candidate_note(root.root, i);
    let d = spec_chromatic_interval(root.root, cand);
    let target = spec_target_distance(root.mode, i);
    let corrected = if d > target {
        cand.accidental.spec_lower()
    } else if d < target {
        cand.accidental.spec_raise()
    } else {
        Ok(cand.accidental)
    };
    match corrected {
        Ok(acc) => Ok(
            Key {
                root: Note { letter: cand.letter, accidental: acc, octave: cand.octave },
                mode: spec_target_mode(root.mode, i),
            },
        ),
        Err(e) => Err(e),
    }
}

/// The related key at output position `k` (0 through 5): the key reached by
/// the diatonic step behind `k`.
pub open spec fn spec_related_key_at(root: Key, k: int) -> Result<Key, AccidentalRangeError> {
    spec_step_key(root, spec_step_of(root.mode, k))
}

/// Whether the resolver succeeds on `root`: every one of the six output
/// positions admits its single-step accidental correction.
pub open spec fn spec_related_ok(root: Key) -> bool {
    forall|k: int| 0 <= k < 6 ==> (#[trigger] spec_related_key_at(root, k)) is Ok
}

/// The six related keys of `root`, in ascending diatonic-step order.
/// Meaningful when `spec_related_ok(root)` holds.
pub open spec fn spec_related_keys(root: Key) -> Seq<Key> {
    Seq::new(6, |k: int| spec_related_key_at(root, k)->Ok_0)
}

/// Exec table of target chromatic distances, position by diatonic step.
fn target_distance(mode: &Mode, i: u32) -> (r: u32)
    requires
        i < 7,
    ensures
        r == spec_target_distance(*mode, i as int),
{
    match mode {
        Mode::Major => match i {
            0 => 0,
            1 => 2,
            2 => 4,
            3 => 5,
            4 => 7,
            5 => 9,
            _ => 11,
        },
        Mode::Minor => match i {
            0 => 0,
            1 => 2,
            2 => 3,
            3 => 5,
            4 => 7,
            5 => 8,
            _ => 10,
        },
    }
}

/// Exec table of target modes, position by diatonic step.
fn target_mode(mode: &Mode, i: u32) -> (r: Mode)
    requires
        i < 7,
    ensures
        r == spec_target_mode(*mode, i as int),
{
    match mode {
        Mode::Major => match i {
            3 | 4 | 6 => Mode::Major,
            _ => Mode::Minor,
        },
        Mode::Minor => match i {
            3 | 4 => Mode::Minor,
            _ => Mode::Major,
        },
    }
}

/// The key reached from `root` by diatonic step `i`, or the error when its
/// spelling would need a double accidental.
fn step_key(root: &Key, i: u32) -> (r: Result<Key, AccidentalRangeError>)
    requires
        i < 7,
        root.root.octave.0 < u32::MAX,
    ensures
        r == spec_step_key(*root, i as int),
{
    proof {
        reveal(spec_step_key);
    }
    let target: u32 = target_distance(&root.mode, i);
    let sum: u32 = root.root.letter.scale_index() + i;
    let next_octave: u32 = if sum >= 7 {
        root.root.octave.0 + 1
    } else {
        root.root.octave.0
    };
    let cand = Note {
        letter: Letter::from_scale_index(sum as i32),
        accidental: root.root.accidental,
        octave: Octave(next_octave),
    };
    proof {
        assert(cand == spec_candidate_note(root.root, i as int));
    }
    let d: u32 = chromatic_interval(&root.root, &cand);
    let corrected = if d > target {
        cand.accidental.lower()
    } else if d < target {
        cand.accidental.raise()
    } else {
        Ok(cand.accidental)
    };
    match corrected {
        Ok(acc) => Ok(
            Key {
                root: Note { letter: cand.letter, accidental: acc, octave: cand.octave },
                mode: target_mode(&root.mode, i),
            },
        ),
        Err(e) => Err(e),
    }
}

/// The ordered set of up to six keys related to `root`, spelled so that the
/// interval from the root matches the per-mode target distances. Succeeds
/// exactly when no key needs more than a single accidental step of
/// correction; otherwise the whole set is refused, since the model cannot
/// spell a double accidental and never guesses a substitute.
pub fn compute_related_keys(root: &Key) -> (r: Result<Vec<Key>, AccidentalRangeError>)
    requires
        root.root.octave.0 < u32::MAX,
    ensures
        r is Ok <==> spec_related_ok(*root),
        r matches Ok(v) ==> v@ == spec_related_keys(*root),
{
    let mut result: Vec<Key> = Vec::new();
    let pass: u32 = match root.mode {
        Mode::Major => 6,
        Mode::Minor => 1,
    };
    let mut i: u32 = 0;
    while i < 7
        invariant
            i <= 7,
            pass == spec_pass_step(root.mode),
            root.root.octave.0 < u32::MAX,
            result@.len() == if i <= pass {
                i as int
            } else {
                i - 1
            },
            forall|k: int| 0 <= k < result@.len()
                ==> (#[trigger] spec_related_key_at(*root, k)) is Ok
                    && result@[k] == spec_related_key_at(*root, k)->Ok_0,
        decreases 7 - i,
    {
        if i != pass {
            let ghost k: int = result@.len() as int;
            proof {
                assert(spec_step_of(root.mode, k) == i as int);
            }
            match step_key(root, i) {
                Ok(next_key) => {
                    proof {
                        assert(spec_related_key_at(*root, k) is Ok);
                        assert(next_key == spec_related_key_at(*root, k)->Ok_0);
                    }
                    let ghost pre = result@;
                    result.push(next_key);
                    proof {
                        assert forall|q: int| 0 <= q < result@.len() implies
                            (#[trigger] spec_related_key_at(*root, q)) is Ok
                                && result@[q] == spec_related_key_at(*root, q)->Ok_0 by {
                            if q < k {
                                assert(spec_related_key_at(*root, q) is Ok);
                                assert(result@[q] == pre[q]);
                            } else {
                                assert(result@[q] == next_key);
                            }
                        }
                    }
                },
                Err(e) => {
                    proof {
                        assert(spec_related_key_at(*root, k) is Err);
                    }
                    return Err(e);
                },
            }
        }
        i = i + 1;
    }
    proof {
        assert(spec_related_ok(*root));
        assert(result@ =~= spec_related_keys(*root));
    }
    Ok(result)
}

/// A related key never sits more than one octave above its root: the only
/// octave change is the single bump when the letter wraps past B.
pub proof fn lemma_related_keys_octave_bound(root: Key)
    requires
        spec_related_ok(root),
        root.root.octave.0 < u32::MAX,
    ensures
        forall|k: int| 0 <= k < 6
            ==> (#[trigger] spec_related_keys(root)[k]).root.octave.0 <= root.root.octave.0 + 1,
{
    reveal(spec_step_key);
    assert forall|k: int| 0 <= k < 6 implies
        (#[trigger] spec_related_keys(root)[k]).root.octave.0 <= root.root.octave.0 + 1 by {
        assert(spec_related_key_at(root, k) is Ok);
        assert(spec_related_keys(root)[k] == spec_related_key_at(root, k)->Ok_0);
    }
}

/// The resolver is deterministic: its contract fixes the output sequence as
/// a function of the root key alone, so any two results for the same root
/// are the same sequence.
pub proof fn lemma_related_keys_deterministic(root: Key, v1: Seq<Key>, v2: Seq<Key>)
    requires
        v1 == spec_related_keys(root),
        v2 == spec_related_keys(root),
    ensures
        v1 == v2,
{
}

} // verus!
