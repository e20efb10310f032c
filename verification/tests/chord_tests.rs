use std::collections::HashSet;

use chordvery::chord::Chord;
use chordvery::note::Note;
use chordvery::quality::Quality;

fn notes_set(midi_notes: &[u8]) -> HashSet<u8> {
    midi_notes.iter().copied().collect()
}

#[test]
fn test_detect_major() {
    let notes = notes_set(&[60, 64, 67]); // C, E, G
    let chord = Chord::detect(&notes).unwrap();
    assert_eq!(chord.root.name(), "C");
    assert_eq!(chord.quality, Quality::Major);
    assert_eq!(chord.name(), "C");
}

#[test]
fn test_detect_minor() {
    let notes = notes_set(&[69, 72, 76]); // A, C, E
    let chord = Chord::detect(&notes).unwrap();
    assert_eq!(chord.root.name(), "A");
    assert_eq!(chord.quality, Quality::Minor);
    assert_eq!(chord.name(), "Am");
}

#[test]
fn test_detect_seventh() {
    let notes = notes_set(&[67, 71, 74, 77]); // G, B, D, F
    let chord = Chord::detect(&notes).unwrap();
    assert_eq!(chord.root.name(), "G");
    assert_eq!(chord.quality, Quality::Dominant7);
    assert_eq!(chord.name(), "G7");
}

#[test]
fn test_detect_inversion() {
    let notes = notes_set(&[64, 67, 72]); // E, G, C (C/E - first inversion)
    let chord = Chord::detect(&notes).unwrap();
    assert_eq!(chord.root.name(), "C");
    assert_eq!(chord.quality, Quality::Major);
    assert!(chord.bass.is_some());
    assert_eq!(chord.name(), "C/E");
}

#[test]
fn test_detect_empty() {
    let notes = notes_set(&[]);
    assert!(Chord::detect(&notes).is_none());
}

#[test]
fn test_detect_two_notes() {
    let notes = notes_set(&[60, 67]); // C, G
    assert!(Chord::detect(&notes).is_none());
}

#[test]
fn test_roman_numeral() {
    let c_major = Chord::new(Note::new(60), Quality::Major);
    let key_c = Note::new(60);
    assert_eq!(c_major.roman_numeral(key_c), "I");

    let a_minor = Chord::new(Note::new(69), Quality::Minor);
    assert_eq!(a_minor.roman_numeral(key_c), "vi");

    let g_dom7 = Chord::new(Note::new(67), Quality::Dominant7);
    assert_eq!(g_dom7.roman_numeral(key_c), "V7");
}

#[test]
fn chord_test_from_name() {
    let chord = Chord::from_name("C").unwrap();
    assert_eq!(chord.root.name(), "C");
    assert_eq!(chord.quality, Quality::Major);

    let chord = Chord::from_name("Am").unwrap();
    assert_eq!(chord.root.name(), "A");
    assert_eq!(chord.quality, Quality::Minor);

    let chord = Chord::from_name("G7").unwrap();
    assert_eq!(chord.root.name(), "G");
    assert_eq!(chord.quality, Quality::Dominant7);

    let chord = Chord::from_name("F#m7").unwrap();
    assert_eq!(chord.root.name(), "F#");
    assert_eq!(chord.quality, Quality::Minor7);
}
