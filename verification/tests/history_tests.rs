use chordvery::chord::Chord;
use chordvery::history::ChordHistory;
use chordvery::note::Note;
use chordvery::quality::Quality;

#[test]
fn test_push_and_age() {
    let mut history = ChordHistory::new(10);

    history.push(Chord::new(Note::new(60), Quality::Major));
    assert_eq!(history.entries().len(), 1);
    assert_eq!(history.entries()[0].age, 0);

    history.push(Chord::new(Note::new(69), Quality::Minor));
    assert_eq!(history.entries().len(), 2);
    assert_eq!(history.entries()[0].age, 1);
    assert_eq!(history.entries()[1].age, 0);

    history.push(Chord::new(Note::new(65), Quality::Major));
    assert_eq!(history.entries()[0].age, 2);
    assert_eq!(history.entries()[1].age, 1);
    assert_eq!(history.entries()[2].age, 0);
}

#[test]
fn test_max_entries() {
    let mut history = ChordHistory::new(3);

    history.push(Chord::new(Note::new(60), Quality::Major));
    history.push(Chord::new(Note::new(62), Quality::Minor));
    history.push(Chord::new(Note::new(64), Quality::Major));
    history.push(Chord::new(Note::new(65), Quality::Major));

    assert_eq!(history.entries().len(), 3);
    assert_eq!(history.entries()[0].chord.root.name(), "D");
}

#[test]
fn test_no_duplicate_consecutive() {
    let mut history = ChordHistory::new(10);

    history.push(Chord::new(Note::new(60), Quality::Major));
    history.push(Chord::new(Note::new(60), Quality::Major));
    history.push(Chord::new(Note::new(60), Quality::Major));

    assert_eq!(history.entries().len(), 1);
}

#[test]
fn test_fade_tick() {
    let mut history = ChordHistory::new(10);
    history.set_fade(true);

    history.push(Chord::new(Note::new(60), Quality::Major));

    for _ in 0..10 {
        history.push(Chord::new(Note::new(62), Quality::Minor));
        history.tick();
    }

    assert!(history.entries().iter().all(|e| e.age < 8));
}
