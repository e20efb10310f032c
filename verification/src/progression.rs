//! Progression suggestions: a fixed-depth binary tree of follow-up
//! chords built from scale-degree heuristics.

use vstd::prelude::*;

use crate::chord::Chord;
use crate::note::Note;
use crate::quality::Quality;

verus! {

/// A node of the suggestion tree. The two children are either both
/// present or both absent.
#[derive(Debug)]
pub struct ProgressionNode {
    pub chord: Chord,
    pub left: Option<Box<ProgressionNode>>,
    pub right: Option<Box<ProgressionNode>>,
}

impl ProgressionNode {
    pub fn new(chord: Chord) -> (r: Self)
        ensures
            r.chord == chord,
            r.left is None,
            r.right is None,
    {
        Self { chord, left: None, right: None }
    }

    pub fn with_children(self, left: ProgressionNode, right: ProgressionNode) -> (r: Self)
        ensures
            r.chord == self.chord,
            r.left == Some(Box::new(left)),
            r.right == Some(Box::new(right)),
    {
        Self { chord: self.chord, left: Some(Box::new(left)), right: Some(Box::new(right)) }
    }
}

/// The scale degree of a chord's root above the key, in semitones.
pub open spec fn degree_of(c: Chord, key: Note) -> int {
    (c.root.spec_pitch_class() + 12 - key.spec_pitch_class()) % 12
}

/// The two suggested follow-ups for a scale degree, as
/// `(left interval, left quality, right interval, right quality)`:
/// the conventionally expected resolution and the surprise. Degrees
/// off the seven diatonic steps fall back to the dominant's pair.
pub open spec fn degree_moves(degree: int) -> (int, Quality, int, Quality) {
    if degree == 0 {
        (5, Quality::Major, 9, Quality::Minor)
    } else if degree == 2 {
        (7, Quality::Major, 5, Quality::Major)
    } else if degree == 4 {
        (9, Quality::Minor, 5, Quality::Major)
    } else if degree == 5 {
        (7, Quality::Major, 0, Quality::Major)
    } else if degree == 7 {
        (0, Quality::Major, 9, Quality::Minor)
    } else if degree == 9 {
        (2, Quality::Minor, 5, Quality::Major)
    } else if degree == 11 {
        (0, Quality::Major, 4, Quality::Minor)
    } else {
        (7, Quality::Major, 0, Quality::Major)
    }
}

/// In extended mode, plain major and minor suggestions become their
/// seventh equivalents; every other quality stays.
pub open spec fn extended_of(q: Quality) -> Quality {
    if q == Quality::Major {
        Quality::Major7
    } else if q == Quality::Minor {
        Quality::Minor7
    } else {
        q
    }
}

/// A suggested chord: the key's pitch class moved by an interval,
/// placed at the fixed reference octave, with no bass.
pub open spec fn suggested_chord(key: Note, interval: int, q: Quality, ext: bool) -> Chord {
    Chord {
        root: Note { midi: ((key.spec_pitch_class() + interval) % 12 + 60) as u8 },
        quality: if ext {
            extended_of(q)
        } else {
            q
        },
        bass: None,
    }
}

/// The left suggestion for a chord at the given degree.
pub open spec fn left_suggestion(degree: int, key: Note, ext: bool) -> Chord {
    let (li, lq, _ri, _rq) = degree_moves(degree);
    suggested_chord(key, li, lq, ext)
}

/// The right suggestion for a chord at the given degree.
pub open spec fn right_suggestion(degree: int, key: Note, ext: bool) -> Chord {
    let (_li, _lq, ri, rq) = degree_moves(degree);
    suggested_chord(key, ri, rq, ext)
}

/// A leaf holding exactly the given chord.
pub open spec fn is_leaf(n: ProgressionNode, c: Chord) -> bool {
    n.chord == c && n.left is None && n.right is None
}

/// A node holding `c` whose two children are leaves holding `c`'s own
/// two suggestions.
pub open spec fn is_suggestion_subtree(n: ProgressionNode, c: Chord, key: Note, ext: bool) -> bool {
    let d = degree_of(c, key);
    &&& n.chord == c
    &&& matches!(n.left, Some(_))
    &&& matches!(n.right, Some(_))
    &&& is_leaf(*n.left->0, left_suggestion(d, key, ext))
    &&& is_leaf(*n.right->0, right_suggestion(d, key, ext))
}

/// The whole suggestion tree for `current`: the root holds `current`,
/// its children hold the two suggestions for `current`'s degree, and
/// each child's children hold that child's own two suggestions.
pub open spec fn is_suggestion_tree(
    n: ProgressionNode,
    current: Chord,
    key: Note,
    ext: bool,
) -> bool {
    let d = degree_of(current, key);
    &&& n.chord == current
    &&& matches!(n.left, Some(_))
    &&& matches!(n.right, Some(_))
    &&& is_suggestion_subtree(*n.left->0, left_suggestion(d, key, ext), key, ext)
    &&& is_suggestion_subtree(*n.right->0, right_suggestion(d, key, ext), key, ext)
}

/// The suggestion engine: its one setting is whether extended mode is
/// active.
pub struct ProgressionTree {
    extended_mode: bool,
}

impl ProgressionTree {
    /// Whether extended mode is active.
    pub closed spec fn extended_mode(self) -> bool {
        self.extended_mode
    }

    pub fn new() -> (r: Self)
        ensures
            !r.extended_mode(),
    {
        Self { extended_mode: false }
    }

    pub fn set_extended(&mut self, extended: bool)
        ensures
            final(self).extended_mode() == extended,
    {
        self.extended_mode = extended;
    }

    /// Builds the three-level suggestion tree for the current chord.
    /// The key defaults to the current chord's root when absent.
    pub fn suggest(&self, current: &Chord, key: Option<Note>) -> (r: ProgressionNode)
        ensures
            ({
                let k = match key {
                    Some(k) => k,
                    None => current.root,
                };
                is_suggestion_tree(r, *current, k, self.extended_mode())
            }),
    {
        let key = match key {
            Some(k) => k,
            None => current.root,
        };
        let degree = self.get_degree(current, key);

        let (left_chord, right_chord) = self.get_suggestions(degree, key);

        let ll_lr = self.get_suggestions(self.get_degree(&left_chord, key), key);
        let rl_rr = self.get_suggestions(self.get_degree(&right_chord, key), key);

        let left_node = ProgressionNode::new(left_chord).with_children(
            ProgressionNode::new(ll_lr.0),
            ProgressionNode::new(ll_lr.1),
        );

        let right_node = ProgressionNode::new(right_chord).with_children(
            ProgressionNode::new(rl_rr.0),
            ProgressionNode::new(rl_rr.1),
        );

        ProgressionNode::new(*current).with_children(left_node, right_node)
    }

    fn get_degree(&self, chord: &Chord, key: Note) -> (r: u8)
        ensures
            r as int == degree_of(*chord, key),
            r < 12,
    {
        (chord.root.pitch_class() + 12 - key.pitch_class()) % 12
    }

    fn get_suggestions(&self, degree: u8, key: Note) -> (r: (Chord, Chord))
        requires
            degree < 12,
        ensures
            r.0 == left_suggestion(degree as int, key, self.extended_mode()),
            r.1 == right_suggestion(degree as int, key, self.extended_mode()),
    {
        let (left_interval, left_quality, right_interval, right_quality): (u8, Quality, u8, Quality) =
            match degree {
            0 => (5, Quality::Major, 9, Quality::Minor),
            2 => (7, Quality::Major, 5, Quality::Major),
            4 => (9, Quality::Minor, 5, Quality::Major),
            5 => (7, Quality::Major, 0, Quality::Major),
            7 => (0, Quality::Major, 9, Quality::Minor),
            9 => (2, Quality::Minor, 5, Quality::Major),
            11 => (0, Quality::Major, 4, Quality::Minor),
            _ => (7, Quality::Major, 0, Quality::Major),
        };

        let left_root = Note::new((key.pitch_class() + left_interval) % 12 + 60);
        let right_root = Note::new((key.pitch_class() + right_interval) % 12 + 60);

        let left_quality = if self.extended_mode {
            self.extend_quality(left_quality)
        } else {
            left_quality
        };

        let right_quality = if self.extended_mode {
            self.extend_quality(right_quality)
        } else {
            right_quality
        };

        (Chord::new(left_root, left_quality), Chord::new(right_root, right_quality))
    }

    fn extend_quality(&self, quality: Quality) -> (r: Quality)
        ensures
            r == extended_of(quality),
    {
        match quality {
            Quality::Major => Quality::Major7,
            Quality::Minor => Quality::Minor7,
            _ => quality,
        }
    }
}

/// Two suggestion trees built from the same chord, key and setting are
/// structurally identical: suggestion is deterministic.
pub proof fn lemma_suggest_deterministic(
    a: ProgressionNode,
    b: ProgressionNode,
    current: Chord,
    key: Note,
    ext: bool,
)
    requires
        is_suggestion_tree(a, current, key, ext),
        is_suggestion_tree(b, current, key, ext),
    ensures
        a == b,
{
    let d = degree_of(current, key);
    lemma_subtree_deterministic(*a.left->0, *b.left->0, left_suggestion(d, key, ext), key, ext);
    lemma_subtree_deterministic(*a.right->0, *b.right->0, right_suggestion(d, key, ext), key, ext);
}

proof fn lemma_subtree_deterministic(a: ProgressionNode, b: ProgressionNode, c: Chord, key: Note, ext: bool)
    requires
        is_suggestion_subtree(a, c, key, ext),
        is_suggestion_subtree(b, c, key, ext),
    ensures
        a == b,
{
}

} // verus!
