use chordvery::note::Note;

#[test]
fn test_midi_to_name() {
    assert_eq!(Note::new(60).name(), "C");
    assert_eq!(Note::new(61).name(), "C#");
    assert_eq!(Note::new(62).name(), "D");
    assert_eq!(Note::new(63).name(), "D#");
    assert_eq!(Note::new(64).name(), "E");
    assert_eq!(Note::new(65).name(), "F");
    assert_eq!(Note::new(66).name(), "F#");
    assert_eq!(Note::new(67).name(), "G");
    assert_eq!(Note::new(68).name(), "G#");
    assert_eq!(Note::new(69).name(), "A");
    assert_eq!(Note::new(70).name(), "A#");
    assert_eq!(Note::new(71).name(), "B");
}

#[test]
fn test_octave() {
    assert_eq!(Note::new(60).octave(), 4); // C4
    assert_eq!(Note::new(21).octave(), 0); // A0
    assert_eq!(Note::new(108).octave(), 8); // C8
    assert_eq!(Note::new(0).octave(), -1); // C-1
}

#[test]
fn note_test_from_name() {
    assert_eq!(Note::from_name("C4"), Some(Note::new(60)));
    assert_eq!(Note::from_name("A0"), Some(Note::new(21)));
    assert_eq!(Note::from_name("C#4"), Some(Note::new(61)));
    assert_eq!(Note::from_name("F#3"), Some(Note::new(54)));
    assert_eq!(Note::from_name(""), None);
    assert_eq!(Note::from_name("X4"), None);
}

#[test]
fn test_display() {
    assert_eq!(Note::new(60).display(), "C4");
    assert_eq!(Note::new(69).display(), "A4");
    assert_eq!(Note::new(61).display(), "C#4");
}

#[test]
fn test_pitch_class() {
    assert_eq!(Note::new(60).pitch_class(), 0); // C
    assert_eq!(Note::new(72).pitch_class(), 0); // C (octave up)
    assert_eq!(Note::new(69).pitch_class(), 9); // A
}
