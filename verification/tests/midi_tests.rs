use std::collections::HashSet;
use std::sync::{Arc, Mutex};

use chordvery::chord::Chord;

#[test]
fn test_note_tracking_simulation() {
    let held_notes = Arc::new(Mutex::new(HashSet::new()));

    {
        let mut notes = held_notes.lock().unwrap();
        notes.insert(60);
        notes.insert(64);
        notes.insert(67);
    }

    {
        let notes = held_notes.lock().unwrap();
        assert!(notes.contains(&60));
        assert!(notes.contains(&64));
        assert!(notes.contains(&67));
        assert_eq!(notes.len(), 3);
    }

    {
        let mut notes = held_notes.lock().unwrap();
        notes.remove(&64);
    }

    {
        let notes = held_notes.lock().unwrap();
        assert!(notes.contains(&60));
        assert!(!notes.contains(&64));
        assert!(notes.contains(&67));
        assert_eq!(notes.len(), 2);
    }
}

#[test]
fn test_snapshot_detection() {
    let held_notes = Arc::new(Mutex::new(HashSet::new()));

    {
        let mut notes = held_notes.lock().unwrap();
        notes.insert(60u8);
        notes.insert(64);
        notes.insert(67);
    }

    let snapshot = held_notes.lock().unwrap().clone();
    let chord = Chord::detect(&snapshot).unwrap();
    assert_eq!(chord.name(), "C");
}
