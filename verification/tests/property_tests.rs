use std::collections::HashSet;

use chordvery::chord::Chord;
use chordvery::history::ChordHistory;
use chordvery::mode::Mode;
use chordvery::note::Note;
use chordvery::piano::Piano;
use chordvery::progression::ProgressionTree;
use chordvery::quality::Quality;
use chordvery::tree::ChordTree;

fn notes_set(midi_notes: &[u8]) -> HashSet<u8> {
    midi_notes.iter().copied().collect()
}

#[test]
fn test_root_position_seventh_wins() {
    // A root-position exact match comes back as that quality, unbassed.
    let notes = notes_set(&[62, 65, 69, 72]); // D, F, A, C
    let chord = Chord::detect(&notes).unwrap();
    assert_eq!(chord.name(), "Dm7");
    assert!(chord.bass.is_none());
}

#[test]
fn test_detect_sus_and_dim() {
    let sus4 = Chord::detect(&notes_set(&[60, 65, 67])).unwrap();
    assert_eq!(sus4.name(), "Csus4");

    let dim = Chord::detect(&notes_set(&[59, 62, 65])).unwrap();
    assert_eq!(dim.name(), "Bdim");
}

#[test]
fn test_detect_one_pitch_class_in_octaves() {
    // Three notes, but their pitch classes collapse to one: no match.
    let notes = notes_set(&[48, 60, 72]);
    assert!(Chord::detect(&notes).is_none());
}

#[test]
fn test_detect_no_exact_match() {
    // Three distinct pitch classes that fit no catalog quality.
    let notes = notes_set(&[60, 61, 62]);
    assert!(Chord::detect(&notes).is_none());
}

#[test]
fn test_detect_full_chromatic() {
    let notes = notes_set(&[60, 61, 62, 63, 64, 65, 66, 67, 68, 69, 70, 71]);
    assert!(Chord::detect(&notes).is_none());
}

#[test]
fn test_add9_is_never_detected() {
    // Add9 keeps its unreduced compound ninth, so the exact-set
    // detector can never produce it; C, D, E, G matches nothing.
    let notes = notes_set(&[60, 62, 64, 67]);
    assert!(Chord::detect(&notes).is_none());
}

#[test]
fn test_round_trip_detected_chords() {
    for notes in [
        notes_set(&[60, 64, 67]),     // C
        notes_set(&[69, 72, 76]),     // Am
        notes_set(&[67, 71, 74, 77]), // G7
        notes_set(&[64, 67, 72]),     // C/E
        notes_set(&[62, 65, 69, 72]), // Dm7
        notes_set(&[55, 60, 64]),     // C/G
    ] {
        let chord = Chord::detect(&notes).unwrap();
        let parsed = Chord::from_name(&chord.name()).unwrap();
        assert_eq!(parsed.root.pitch_class(), chord.root.pitch_class());
        assert_eq!(parsed.quality, chord.quality);
        assert_eq!(
            parsed.bass.map(|b| b.pitch_class()),
            chord.bass.map(|b| b.pitch_class())
        );
    }
}

#[test]
fn test_roman_numeral_flats_and_suffixes() {
    let key_c = Note::new(60);
    let cs_dim = Chord::new(Note::new(61), Quality::Diminished);
    assert_eq!(cs_dim.roman_numeral(key_c), "bii°");

    let b_dim7 = Chord::new(Note::new(71), Quality::Diminished7);
    assert_eq!(b_dim7.roman_numeral(key_c), "vii°7");

    let c_maj7 = Chord::new(Note::new(60), Quality::Major7);
    assert_eq!(c_maj7.roman_numeral(key_c), "Imaj7");

    let d_half_dim = Chord::new(Note::new(62), Quality::HalfDim7);
    assert_eq!(d_half_dim.roman_numeral(key_c), "iiø7");

    let c_sus2 = Chord::new(Note::new(60), Quality::Sus2);
    assert_eq!(c_sus2.roman_numeral(key_c), "Isus2");

    // Minor7 and Dominant7 share the suffix by convention.
    let d_m7 = Chord::new(Note::new(62), Quality::Minor7);
    assert_eq!(d_m7.roman_numeral(key_c), "ii7");
}

#[test]
fn test_suggest_is_deterministic() {
    let mut tree = ProgressionTree::new();
    tree.set_extended(true);
    let chord = Chord::new(Note::new(67), Quality::Major);
    let key = Note::new(60);

    let a = tree.suggest(&chord, Some(key));
    let b = tree.suggest(&chord, Some(key));

    assert_eq!(a.chord.name(), b.chord.name());
    let (al, ar) = (a.left.unwrap(), a.right.unwrap());
    let (bl, br) = (b.left.unwrap(), b.right.unwrap());
    assert_eq!(al.chord.name(), bl.chord.name());
    assert_eq!(ar.chord.name(), br.chord.name());
    assert_eq!(
        al.left.unwrap().chord.name(),
        bl.left.unwrap().chord.name()
    );
    assert_eq!(
        ar.right.unwrap().chord.name(),
        br.right.unwrap().chord.name()
    );
}

#[test]
fn test_suggest_key_defaults_to_root() {
    let tree = ProgressionTree::new();
    let g_major = Chord::new(Note::new(67), Quality::Major);

    // Without a key, G major is the I of its own key: IV is C, vi is Em.
    let result = tree.suggest(&g_major, None);
    assert_eq!(result.left.unwrap().chord.name(), "C");
    assert_eq!(result.right.unwrap().chord.name(), "Em");
}

#[test]
fn test_suggest_extended_leaves_other_qualities() {
    let mut tree = ProgressionTree::new();
    tree.set_extended(true);
    let c_major = Chord::new(Note::new(60), Quality::Major);
    let key = Note::new(60);

    let result = tree.suggest(&c_major, Some(key));
    let left = result.left.unwrap();
    let right = result.right.unwrap();
    assert!(left.chord.name().contains("maj7"));
    assert_eq!(right.chord.quality, Quality::Minor7);
}

#[test]
fn test_suggest_non_diatonic_falls_back() {
    let tree = ProgressionTree::new();
    let cs_major = Chord::new(Note::new(61), Quality::Major);
    let key = Note::new(60);

    // Degree 1 is off the diatonic table: the dominant's pair applies.
    let result = tree.suggest(&cs_major, Some(key));
    assert_eq!(result.left.unwrap().chord.name(), "G");
    assert_eq!(result.right.unwrap().chord.name(), "C");
}

#[test]
fn test_from_name_errors() {
    assert!(Chord::from_name("").is_none());
    assert!(Chord::from_name("H").is_none());
    assert!(Chord::from_name("Cxyz").is_none());
    assert!(Chord::from_name("C/q").is_none());
    assert!(Chord::from_name("C/E4").is_none());
    assert!(Note::from_name("C").is_none());
    assert!(Note::from_name("#4").is_none());
    assert!(Note::from_name("C4x").is_none());
    assert!(Note::from_name("C-").is_none());
}

#[test]
fn test_note_from_name_rejects_out_of_range() {
    // A reconstructed MIDI value outside [0, 127] is rejected rather
    // than wrapped.
    assert!(Note::from_name("C99").is_none());
    assert!(Note::from_name("C-99").is_none());
    assert_eq!(Note::from_name("G9"), Some(Note::new(127)));
    assert!(Note::from_name("G#9").is_none());
    assert_eq!(Note::from_name("C-1"), Some(Note::new(0)));
}

#[test]
fn test_from_name_aliases() {
    assert_eq!(Chord::from_name("Cø7").unwrap().quality, Quality::HalfDim7);
    assert_eq!(Chord::from_name("Cø").unwrap().quality, Quality::HalfDim7);
    assert_eq!(Chord::from_name("Cm7b5").unwrap().quality, Quality::HalfDim7);
    assert_eq!(Chord::from_name("Csus").unwrap().quality, Quality::Sus4);
    assert_eq!(Chord::from_name("C°7").unwrap().quality, Quality::Diminished7);
    assert_eq!(Chord::from_name("Caug").unwrap().quality, Quality::Augmented);
    assert_eq!(Chord::from_name("CmM7").unwrap().quality, Quality::MinorMajor7);
    assert_eq!(Chord::from_name("Cadd9").unwrap().quality, Quality::Add9);
}

#[test]
fn test_from_name_with_bass() {
    let chord = Chord::from_name("C/E").unwrap();
    assert_eq!(chord.root.pitch_class(), 0);
    assert_eq!(chord.quality, Quality::Major);
    assert_eq!(chord.bass.unwrap().pitch_class(), 4);
    assert_eq!(chord.name(), "C/E");
}

#[test]
fn test_name_hides_bass_on_same_pitch_class() {
    let chord = Chord::new(Note::new(60), Quality::Major).with_bass(Note::new(48));
    assert_eq!(chord.name(), "C");
}

#[test]
fn test_history_tick_without_fade_keeps_entries() {
    let mut history = ChordHistory::new(4);
    history.push(Chord::new(Note::new(60), Quality::Major));
    history.push(Chord::new(Note::new(62), Quality::Minor));
    for _ in 0..20 {
        history.tick();
    }
    assert_eq!(history.entries().len(), 2);
}

#[test]
fn test_history_clear() {
    let mut history = ChordHistory::new(4);
    history.push(Chord::new(Note::new(60), Quality::Major));
    history.clear();
    assert!(history.entries().is_empty());
}

#[test]
fn test_history_same_name_different_octave_dedupes() {
    let mut history = ChordHistory::new(4);
    history.push(Chord::new(Note::new(60), Quality::Major));
    history.push(Chord::new(Note::new(72), Quality::Major));
    assert_eq!(history.entries().len(), 1);
}

#[test]
fn test_piano_dynamic_exact_formula() {
    let mut pressed = HashSet::new();
    pressed.insert(36u8);
    pressed.insert(84);

    let piano = Piano::dynamic(&pressed);
    assert_eq!(piano.start_midi, 24);
    assert_eq!(piano.num_keys, 72);
}

#[test]
fn test_white_key_count_octave() {
    let piano = Piano::new(60, 12);
    assert_eq!(piano.white_key_count(), 7);
}

#[test]
fn test_chord_tree_builders() {
    let tree = ChordTree::new();
    assert!(tree.root.is_none());
    assert_eq!(tree.depth, 2);

    let suggestions = ProgressionTree::new().suggest(
        &Chord::new(Note::new(60), Quality::Major),
        None,
    );
    let tree = ChordTree::new().root(suggestions).depth(1);
    assert!(tree.root.is_some());
    assert_eq!(tree.depth, 1);
}

#[test]
fn test_mode_names() {
    assert_eq!(Mode::Discovery.name(), "Discovery");
    assert_eq!(Mode::Jam.name(), "Jam");
}
