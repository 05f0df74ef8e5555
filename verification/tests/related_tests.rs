use keywheel::interval::chromatic_interval;
use keywheel::pitch::{init_key, key_to_str, Accidental, AccidentalRangeError, Letter, Mode, Note, Octave};
use keywheel::related::compute_related_keys;

#[test]
fn interval_is_symmetric_and_bounded() {
    let letters = [Letter::C, Letter::D, Letter::E, Letter::F, Letter::G, Letter::A, Letter::B];
    let accidentals = [Accidental::Flat, Accidental::Natural, Accidental::Sharp];
    for &l1 in letters.iter() {
        for &a1 in accidentals.iter() {
            for o1 in 0..3u32 {
                for &l2 in letters.iter() {
                    for &a2 in accidentals.iter() {
                        for o2 in 0..3u32 {
                            let n1 = Note { letter: l1, accidental: a1, octave: Octave(o1) };
                            let n2 = Note { letter: l2, accidental: a2, octave: Octave(o2) };
                            let d12 = chromatic_interval(&n1, &n2);
                            let d21 = chromatic_interval(&n2, &n1);
                            assert_eq!(d12, d21);
                            assert!(d12 < 12);
                        }
                    }
                }
            }
        }
    }
}

#[test]
fn interval_concrete_values() {
    let c0 = Note { letter: Letter::C, accidental: Accidental::Natural, octave: Octave(0) };
    let g0 = Note { letter: Letter::G, accidental: Accidental::Natural, octave: Octave(0) };
    let c1 = Note { letter: Letter::C, accidental: Accidental::Natural, octave: Octave(1) };
    let a0 = Note { letter: Letter::A, accidental: Accidental::Natural, octave: Octave(0) };
    let fs0 = Note { letter: Letter::F, accidental: Accidental::Sharp, octave: Octave(0) };
    let bb0 = Note { letter: Letter::B, accidental: Accidental::Flat, octave: Octave(0) };
    assert_eq!(chromatic_interval(&c0, &g0), 7);
    assert_eq!(chromatic_interval(&c0, &c1), 0);
    assert_eq!(chromatic_interval(&a0, &c1), 3);
    assert_eq!(chromatic_interval(&fs0, &bb0), 4);
}

#[test]
fn c_major_related_keys_exact() {
    let root = init_key(Letter::C, Accidental::Natural, Mode::Major);
    let keys = compute_related_keys(&root).unwrap();
    assert_eq!(keys.len(), 6);
    let spelled: Vec<String> = keys.iter().map(key_to_str).collect();
    assert_eq!(spelled, vec!["Cm", "Dm", "Em", "F", "G", "Am"]);
    for k in keys.iter() {
        assert_eq!(k.root.accidental, Accidental::Natural);
        assert_ne!(k.spelling(), root.spelling());
    }
    assert_eq!(keys[0].mode, Mode::Minor);
    assert_eq!(keys[1].mode, Mode::Minor);
    assert_eq!(keys[2].mode, Mode::Minor);
    assert_eq!(keys[3].mode, Mode::Major);
    assert_eq!(keys[4].mode, Mode::Major);
    assert_eq!(keys[5].mode, Mode::Minor);
}

#[test]
fn a_minor_round_trip_reaches_c_major() {
    let c_major = init_key(Letter::C, Accidental::Natural, Mode::Major);
    let a_minor = init_key(Letter::A, Accidental::Natural, Mode::Minor);
    let from_c = compute_related_keys(&c_major).unwrap();
    assert!(from_c.iter().any(|k| k.spelling() == a_minor.spelling()));
    let from_a = compute_related_keys(&a_minor).unwrap();
    let spelled: Vec<String> = from_a.iter().map(key_to_str).collect();
    assert_eq!(spelled, vec!["A", "C", "Dm", "Em", "F", "G"]);
    assert!(from_a.iter().any(|k| k.spelling() == c_major.spelling()));
}

#[test]
fn octave_bumps_on_wrap_past_b() {
    let a_minor = init_key(Letter::A, Accidental::Natural, Mode::Minor);
    let keys = compute_related_keys(&a_minor).unwrap();
    assert_eq!(keys[0].root.octave.value(), 0);
    for k in keys.iter().skip(1) {
        assert_eq!(k.root.octave.value(), 1);
    }
}

#[test]
fn related_keys_deterministic() {
    let roots = [
        init_key(Letter::C, Accidental::Natural, Mode::Major),
        init_key(Letter::A, Accidental::Natural, Mode::Minor),
        init_key(Letter::G, Accidental::Flat, Mode::Major),
        init_key(Letter::A, Accidental::Sharp, Mode::Major),
    ];
    for root in roots.iter() {
        let first = compute_related_keys(root);
        let second = compute_related_keys(root);
        assert_eq!(first, second);
    }
}

#[test]
fn double_flat_root_is_refused() {
    let gb_minor = init_key(Letter::G, Accidental::Flat, Mode::Minor);
    assert_eq!(compute_related_keys(&gb_minor), Err(AccidentalRangeError));
}

#[test]
fn double_sharp_root_is_refused() {
    let as_major = init_key(Letter::A, Accidental::Sharp, Mode::Major);
    assert_eq!(compute_related_keys(&as_major), Err(AccidentalRangeError));
}

#[test]
fn flat_major_root_resolves() {
    let gb_major = init_key(Letter::G, Accidental::Flat, Mode::Major);
    let keys = compute_related_keys(&gb_major).unwrap();
    let spelled: Vec<String> = keys.iter().map(key_to_str).collect();
    assert_eq!(spelled, vec!["Gbm", "Abm", "Bbm", "Cb", "Db", "Ebm"]);
}
