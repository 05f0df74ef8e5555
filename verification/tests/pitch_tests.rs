use keywheel::pitch::{init_key, key_to_str, Accidental, AccidentalRangeError, Key, Letter, Mode, Note, Octave};

#[test]
fn letter_indices() {
    assert_eq!(Letter::C.scale_index(), 0);
    assert_eq!(Letter::B.scale_index(), 6);
    assert_eq!(Letter::C.chromatic_index(), 0);
    assert_eq!(Letter::D.chromatic_index(), 2);
    assert_eq!(Letter::E.chromatic_index(), 4);
    assert_eq!(Letter::F.chromatic_index(), 5);
    assert_eq!(Letter::G.chromatic_index(), 7);
    assert_eq!(Letter::A.chromatic_index(), 9);
    assert_eq!(Letter::B.chromatic_index(), 11);
}

#[test]
fn letter_from_scale_index_wraps() {
    assert_eq!(Letter::from_scale_index(0), Letter::C);
    assert_eq!(Letter::from_scale_index(6), Letter::B);
    assert_eq!(Letter::from_scale_index(7), Letter::C);
    assert_eq!(Letter::from_scale_index(8), Letter::D);
    assert_eq!(Letter::from_scale_index(13), Letter::B);
    assert_eq!(Letter::from_scale_index(-1), Letter::B);
    assert_eq!(Letter::from_scale_index(-7), Letter::C);
}

#[test]
fn accidental_offsets() {
    assert_eq!(Accidental::Flat.offset(), -1);
    assert_eq!(Accidental::Natural.offset(), 0);
    assert_eq!(Accidental::Sharp.offset(), 1);
}

#[test]
fn accidental_lower_and_raise() {
    assert_eq!(Accidental::Natural.lower(), Ok(Accidental::Flat));
    assert_eq!(Accidental::Sharp.lower(), Ok(Accidental::Natural));
    assert_eq!(Accidental::Flat.lower(), Err(AccidentalRangeError));
    assert_eq!(Accidental::Flat.raise(), Ok(Accidental::Natural));
    assert_eq!(Accidental::Natural.raise(), Ok(Accidental::Sharp));
    assert_eq!(Accidental::Sharp.raise(), Err(AccidentalRangeError));
}

#[test]
fn key_spellings() {
    let c_major = init_key(Letter::C, Accidental::Natural, Mode::Major);
    assert_eq!(key_to_str(&c_major), "C");
    let fs_minor = init_key(Letter::F, Accidental::Sharp, Mode::Minor);
    assert_eq!(key_to_str(&fs_minor), "F#m");
    let b_flat = init_key(Letter::B, Accidental::Flat, Mode::Major);
    assert_eq!(key_to_str(&b_flat), "Bb");
    let a_minor = init_key(Letter::A, Accidental::Natural, Mode::Minor);
    assert_eq!(key_to_str(&a_minor), "Am");
}

#[test]
fn spelling_ignores_octave() {
    let low = Key {
        root: Note { letter: Letter::G, accidental: Accidental::Natural, octave: Octave(0) },
        mode: Mode::Major,
    };
    let high = Key {
        root: Note { letter: Letter::G, accidental: Accidental::Natural, octave: Octave(3) },
        mode: Mode::Major,
    };
    assert_eq!(low.spelling(), high.spelling());
    assert_ne!(low, high);
}

#[test]
fn init_key_uses_reference_octave() {
    let k = init_key(Letter::E, Accidental::Flat, Mode::Minor);
    assert_eq!(k.root.letter, Letter::E);
    assert_eq!(k.root.accidental, Accidental::Flat);
    assert_eq!(k.root.octave.value(), 0);
    assert_eq!(k.mode, Mode::Minor);
}
