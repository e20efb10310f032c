use chordvery::chord::Chord;
use chordvery::note::Note;
use chordvery::progression::ProgressionTree;
use chordvery::quality::Quality;

#[test]
fn test_suggest_from_i() {
    let tree = ProgressionTree::new();
    let c_major = Chord::new(Note::new(60), Quality::Major);
    let key = Note::new(60);

    let result = tree.suggest(&c_major, Some(key));

    assert_eq!(result.chord.name(), "C");
    assert!(result.left.is_some());
    assert!(result.right.is_some());

    let left = result.left.unwrap();
    let right = result.right.unwrap();

    assert_eq!(left.chord.name(), "F");
    assert_eq!(right.chord.name(), "Am");
}

#[test]
fn test_suggest_from_v() {
    let tree = ProgressionTree::new();
    let g_major = Chord::new(Note::new(67), Quality::Major);
    let key = Note::new(60);

    let result = tree.suggest(&g_major, Some(key));

    let left = result.left.unwrap();
    let right = result.right.unwrap();

    assert_eq!(left.chord.name(), "C");
    assert_eq!(right.chord.name(), "Am");
}

#[test]
fn test_two_levels() {
    let tree = ProgressionTree::new();
    let c_major = Chord::new(Note::new(60), Quality::Major);
    let key = Note::new(60);

    let result = tree.suggest(&c_major, Some(key));

    assert!(result.left.is_some());
    assert!(result.right.is_some());

    let left = result.left.as_ref().unwrap();
    assert!(left.left.is_some());
    assert!(left.right.is_some());

    let right = result.right.as_ref().unwrap();
    assert!(right.left.is_some());
    assert!(right.right.is_some());
}

#[test]
fn test_extended_mode() {
    let mut tree = ProgressionTree::new();
    tree.set_extended(true);

    let c_major = Chord::new(Note::new(60), Quality::Major);
    let key = Note::new(60);

    let result = tree.suggest(&c_major, Some(key));
    let left = result.left.unwrap();

    assert_eq!(left.chord.quality, Quality::Major7);
}
