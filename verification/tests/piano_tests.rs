use std::collections::HashSet;

use chordvery::piano::Piano;

#[test]
fn test_dynamic_range() {
    let mut pressed = HashSet::new();
    pressed.insert(36);
    pressed.insert(84);

    let piano = Piano::dynamic(&pressed);

    assert!(piano.start_midi <= 36);
    assert!(piano.start_midi + piano.num_keys as u8 >= 84);
}

#[test]
fn test_dynamic_range_empty() {
    let pressed = HashSet::new();
    let piano = Piano::dynamic(&pressed);

    assert_eq!(piano.start_midi, 48);
    assert_eq!(piano.num_keys, 25);
}

#[test]
fn test_is_black_key() {
    assert!(!Piano::is_black_key(60)); // C
    assert!(Piano::is_black_key(61)); // C#
    assert!(!Piano::is_black_key(62)); // D
    assert!(Piano::is_black_key(63)); // D#
    assert!(!Piano::is_black_key(64)); // E
    assert!(!Piano::is_black_key(65)); // F
    assert!(Piano::is_black_key(66)); // F#
}
