use chordvery::quality::Quality;

#[test]
fn test_quality_intervals() {
    assert_eq!(Quality::Major.intervals(), &[0, 4, 7]);
    assert_eq!(Quality::Minor.intervals(), &[0, 3, 7]);
    assert_eq!(Quality::Diminished.intervals(), &[0, 3, 6]);
    assert_eq!(Quality::Augmented.intervals(), &[0, 4, 8]);
    assert_eq!(Quality::Dominant7.intervals(), &[0, 4, 7, 10]);
    assert_eq!(Quality::Major7.intervals(), &[0, 4, 7, 11]);
    assert_eq!(Quality::Minor7.intervals(), &[0, 3, 7, 10]);
}

#[test]
fn test_quality_symbol() {
    assert_eq!(Quality::Major.symbol(), "");
    assert_eq!(Quality::Minor.symbol(), "m");
    assert_eq!(Quality::Diminished.symbol(), "dim");
    assert_eq!(Quality::Augmented.symbol(), "+");
    assert_eq!(Quality::Dominant7.symbol(), "7");
    assert_eq!(Quality::Major7.symbol(), "maj7");
    assert_eq!(Quality::Minor7.symbol(), "m7");
    assert_eq!(Quality::HalfDim7.symbol(), "m7b5");
}
