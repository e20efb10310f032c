//! Chord recognition and progression suggestion.
//!
//! The library recognizes musical chords from a set of sounding note
//! numbers (pitch-class-set matching against a fixed catalog of chord
//! qualities, with inversion detection) and proposes harmonically
//! plausible follow-up chords as a fixed-depth binary tree built from
//! scale-degree heuristics. Chords render to and parse from canonical
//! name strings, and render as roman numerals relative to a key.

pub mod chord;
pub mod history;
pub mod mode;
pub mod note;
pub mod piano;
pub mod progression;
pub mod quality;
pub mod tree;
