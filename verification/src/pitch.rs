//! Immutable pitch-model value types: letters, accidentals, octaves, notes,
//! modes and keys, together with their textual spelling.

use vstd::prelude::*;
use vstd::string::StringExecFns;

verus! {

/// One of the seven letter names of the musical alphabet.
#[derive(Clone, Copy, Debug, PartialEq, Eq, Structural)]
pub enum Letter {
    C,
    D,
    E,
    F,
    G,
    A,
    B,
}

impl Letter {
    /// Diatonic position of the letter within one octave, 0 through 6.
    pub open spec fn spec_scale_index(self) -> int {
        match self {
            Letter::C => 0,
            Letter::D => 1,
            Letter::E => 2,
            Letter::F => 3,
            Letter::G => 4,
            Letter::A => 5,
            Letter::B => 6,
        }
    }

    /// Chromatic position in semitones of the plain (natural) letter,
    /// measured from C.
    pub open spec fn spec_chromatic_index(self) -> int {
        match self {
            Letter::C => 0,
            Letter::D => 2,
            Letter::E => 4,
            Letter::F => 5,
            Letter::G => 7,
            Letter::A => 9,
            Letter::B => 11,
        }
    }

    /// The letter at diatonic index `n`, for any integer `n`, normalized
    /// modulo 7.
    pub open spec fn spec_from_scale_index(n: int) -> Letter {
        let m = n % 7;
        if m == 0 {
            Letter::C
        } else if m == 1 {
            Letter::D
        } else if m == 2 {
            Letter::E
        } else if m == 3 {
            Letter::F
        } else if m == 4 {
            Letter::G
        } else if m == 5 {
            Letter::A
        } else {
            Letter::B
        }
    }

    /// The spelled name of the letter.
    pub open spec fn spec_str(self) -> Seq<char> {
        match self {
            Letter::C => "C"@,
            Letter::D => "D"@,
            Letter::E => "E"@,
            Letter::F => "F"@,
            Letter::G => "G"@,
            Letter::A => "A"@,
            Letter::B => "B"@,
        }
    }

    pub fn scale_index(&self) -> (r: u32)
        ensures
            r == self.spec_scale_index(),
    {
        match self {
            Letter::C => 0,
            Letter::D => 1,
            Letter::E => 2,
            Letter::F => 3,
            Letter::G => 4,
            Letter::A => 5,
            Letter::B => 6,
        }
    }

    pub fn chromatic_index(&self) -> (r: u32)
        ensures
            r == self.spec_chromatic_index(),
    {
        match self {
            Letter::C => 0,
            Letter::D => 2,
            Letter::E => 4,
            Letter::F => 5,
            Letter::G => 7,
            Letter::A => 9,
            Letter::B => 11,
        }
    }

    pub fn from_scale_index(n: i32) -> (r: Letter)
        ensures
            r == Letter::spec_from_scale_index(n as int),
    {
        let t: i32 = n % 7;
        let m: i32 = if t < 0 {
            t + 7
        } else {
            t
        };
        match m {
            0 => Letter::C,
            1 => Letter::D,
            2 => Letter::E,
            3 => Letter::F,
            4 => Letter::G,
            5 => Letter::A,
            _ => Letter::B,
        }
    }

    pub fn to_str(&self) -> (r: &'static str)
        ensures
            r@ == self.spec_str(),
    {
        match self {
            Letter::C => "C",
            Letter::D => "D",
            Letter::E => "E",
            Letter::F => "F",
            Letter::G => "G",
            Letter::A => "A",
            Letter::B => "B",
        }
    }
}

/// Raised when a step would need a double flat or double sharp, which the
/// model does not represent.
#[derive(Clone, Copy, Debug, PartialEq, Eq, Structural)]
pub struct AccidentalRangeError;

/// A single accidental: one semitone down, none, or one semitone up.
/// Double accidentals are not modeled.
#[derive(Clone, Copy, Debug, PartialEq, Eq, Structural)]
pub enum Accidental {
    Flat,
    Natural,
    Sharp,
}

impl Accidental {
    /// Semitone offset contributed by the accidental.
    pub open spec fn spec_offset(self) -> int {
        match self {
            Accidental::Flat => -1,
            Accidental::Natural => 0,
            Accidental::Sharp => 1,
        }
    }

    /// The accidental one semitone flatter, if it exists.
    pub open spec fn spec_lower(self) -> Result<Accidental, AccidentalRangeError> {
        match self {
            Accidental::Flat => Err(AccidentalRangeError),
            Accidental::Natural => Ok(Accidental::Flat),
            Accidental::Sharp => Ok(Accidental::Natural),
        }
    }

    /// The accidental one semitone sharper, if it exists.
    pub open spec fn spec_raise(self) -> Result<Accidental, AccidentalRangeError> {
        match self {
            Accidental::Flat => Ok(Accidental::Natural),
            Accidental::Natural => Ok(Accidental::Sharp),
            Accidental::Sharp => Err(AccidentalRangeError),
        }
    }

    /// The spelled form of the accidental; natural is written as nothing.
    pub open spec fn spec_str(self) -> Seq<char> {
        match self {
            Accidental::Flat => "b"@,
            Accidental::Natural => ""@,
            Accidental::Sharp => "#"@,
        }
    }

    pub fn offset(&self) -> (r: i32)
        ensures
            r == self.spec_offset(),
    {
        match self {
            Accidental::Flat => -1,
            Accidental::Natural => 0,
            Accidental::Sharp => 1,
        }
    }

    pub fn lower(&self) -> (r: Result<Accidental, AccidentalRangeError>)
        ensures
            r == self.spec_lower(),
    {
        match self {
            Accidental::Flat => Err(AccidentalRangeError),
            Accidental::Natural => Ok(Accidental::Flat),
            Accidental::Sharp => Ok(Accidental::Natural),
        }
    }

    pub fn raise(&self) -> (r: Result<Accidental, AccidentalRangeError>)
        ensures
            r == self.spec_raise(),
    {
        match self {
            Accidental::Flat => Ok(Accidental::Natural),
            Accidental::Natural => Ok(Accidental::Sharp),
            Accidental::Sharp => Err(AccidentalRangeError),
        }
    }

    pub fn to_str(&self) -> (r: &'static str)
        ensures
            r@ == self.spec_str(),
    {
        match self {
            Accidental::Flat => "b",
            Accidental::Natural => "",
            Accidental::Sharp => "#",
        }
    }
}

/// A register number; it only serves to keep chromatic distances right when
/// a derived letter wraps past B back to C.
#[derive(Clone, Copy, Debug, PartialEq, Eq, Structural)]
pub struct Octave(pub u32);

impl Octave {
    pub fn value(&self) -> (r: u32)
        ensures
            r == self.0,
    {
        self.0
    }
}

/// A fully spelled note: letter, accidental and octave.
#[derive(Clone, Copy, Debug, PartialEq, Eq, Structural)]
pub struct Note {
    pub letter: Letter,
    pub accidental: Accidental,
    pub octave: Octave,
}

impl Note {
    /// Absolute chromatic position in semitones:
    /// `octave * 12 + letter index + accidental offset`.
    pub open spec fn spec_position(self) -> int {
        self.octave.0 * 12 + self.letter.spec_chromatic_index() + self.accidental.spec_offset()
    }
}

/// Major or minor; decides which relationship tables apply to a key.
#[derive(Clone, Copy, Debug, PartialEq, Eq, Structural)]
pub enum Mode {
    Major,
    Minor,
}

impl Mode {
    /// The spelled suffix of the mode; major is written as nothing.
    pub open spec fn spec_str(self) -> Seq<char> {
        match self {
            Mode::Major => ""@,
            Mode::Minor => "m"@,
        }
    }

    pub fn to_str(&self) -> (r: &'static str)
        ensures
            r@ == self.spec_str(),
    {
        match self {
            Mode::Major => "",
            Mode::Minor => "m",
        }
    }
}

/// A key: a root note together with a mode.
#[derive(Clone, Copy, Debug, PartialEq, Eq, Structural)]
pub struct Key {
    pub root: Note,
    pub mode: Mode,
}

/// A key's textual identity: letter, accidental and mode. The octave is not
/// part of it, so two keys an octave apart are the same spelling, while
/// enharmonic keys spelled differently stay distinct.
#[derive(Clone, Copy, Debug, PartialEq, Eq, Structural)]
pub struct Spelling {
    pub letter: Letter,
    pub accidental: Accidental,
    pub mode: Mode,
}

impl Key {
    /// The spelling under which a key is displayed and deduplicated.
    pub open spec fn spec_spelling(self) -> Spelling {
        Spelling { letter: self.root.letter, accidental: self.root.accidental, mode: self.mode }
    }

    pub fn spelling(&self) -> (r: Spelling)
        ensures
            r == self.spec_spelling(),
    {
        Spelling { letter: self.root.letter, accidental: self.root.accidental, mode: self.mode }
    }
}

/// The characters of a key's displayed name: letter, then accidental, then
/// mode suffix.
pub open spec fn spec_key_str(key: Key) -> Seq<char> {
    key.root.letter.spec_str() + key.root.accidental.spec_str() + key.mode.spec_str()
}

/// The displayed name of a key, such as the root letter followed by an
/// accidental mark and an `m` suffix for minor.
pub fn key_to_str(key: &Key) -> (r: String)
    ensures
        r@ == spec_key_str(*key),
{
    let mut s = String::from_str(key.root.letter.to_str());
    s.append(key.root.accidental.to_str());
    s.append(key.mode.to_str());
    s
}

/// A key rooted in the reference octave, from its spelling parts.
pub fn init_key(letter: Letter, accidental: Accidental, mode: Mode) -> (k: Key)
    ensures
        k == (Key { root: Note { letter, accidental, octave: Octave(0) }, mode }),
{
    let root = Note { letter, accidental, octave: Octave(0) };
    Key { root, mode }
}

} // verus!
