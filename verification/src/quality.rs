//! The fixed catalog of chord qualities.

use vstd::prelude::*;

verus! {

/// A chord quality: one of a fixed, closed set of variants.
///
/// Each variant carries a canonical interval list (semitone offsets
/// from the root, first element always 0) and a display symbol. The
/// triad catalog and the seventh catalog are the two disjoint groups
/// scanned by detection; `Add9` and `Unknown` belong to neither.
#[derive(Clone, Copy, Debug, PartialEq, Eq, Structural)]
pub enum Quality {
    Major,
    Minor,
    Diminished,
    Augmented,
    Major7,
    Minor7,
    Dominant7,
    Diminished7,
    HalfDim7,
    MinorMajor7,
    Augmented7,
    Sus2,
    Sus4,
    Add9,
    Unknown,
}

/// The display symbol of each quality.
pub open spec fn spec_symbol(q: Quality) -> Seq<char> {
    match q {
        Quality::Major => ""@,
        Quality::Minor => "m"@,
        Quality::Diminished => "dim"@,
        Quality::Augmented => "+"@,
        Quality::Major7 => "maj7"@,
        Quality::Minor7 => "m7"@,
        Quality::Dominant7 => "7"@,
        Quality::Diminished7 => "dim7"@,
        Quality::HalfDim7 => "m7b5"@,
        Quality::MinorMajor7 => "mMaj7"@,
        Quality::Augmented7 => "+7"@,
        Quality::Sus2 => "sus2"@,
        Quality::Sus4 => "sus4"@,
        Quality::Add9 => "add9"@,
        Quality::Unknown => "?"@,
    }
}

/// The canonical interval list of each quality. `Add9` keeps its
/// compound ninth (14) unreduced, which leaves it outside the reach of
/// the exact-set detector; that is deliberate catalog data, not an
/// oversight.
pub open spec fn spec_intervals(q: Quality) -> Seq<u8> {
    match q {
        Quality::Major => seq![0u8, 4u8, 7u8],
        Quality::Minor => seq![0u8, 3u8, 7u8],
        Quality::Diminished => seq![0u8, 3u8, 6u8],
        Quality::Augmented => seq![0u8, 4u8, 8u8],
        Quality::Major7 => seq![0u8, 4u8, 7u8, 11u8],
        Quality::Minor7 => seq![0u8, 3u8, 7u8, 10u8],
        Quality::Dominant7 => seq![0u8, 4u8, 7u8, 10u8],
        Quality::Diminished7 => seq![0u8, 3u8, 6u8, 9u8],
        Quality::HalfDim7 => seq![0u8, 3u8, 6u8, 10u8],
        Quality::MinorMajor7 => seq![0u8, 3u8, 7u8, 11u8],
        Quality::Augmented7 => seq![0u8, 4u8, 8u8, 10u8],
        Quality::Sus2 => seq![0u8, 2u8, 7u8],
        Quality::Sus4 => seq![0u8, 5u8, 7u8],
        Quality::Add9 => seq![0u8, 4u8, 7u8, 14u8],
        Quality::Unknown => Seq::empty(),
    }
}

/// The six triad qualities, in the fixed order detection scans them.
pub open spec fn spec_triads() -> Seq<Quality> {
    seq![
        Quality::Major,
        Quality::Minor,
        Quality::Diminished,
        Quality::Augmented,
        Quality::Sus2,
        Quality::Sus4,
    ]
}

/// The seven seventh qualities, in the fixed order detection scans them.
pub open spec fn spec_sevenths() -> Seq<Quality> {
    seq![
        Quality::Major7,
        Quality::Minor7,
        Quality::Dominant7,
        Quality::Diminished7,
        Quality::HalfDim7,
        Quality::MinorMajor7,
        Quality::Augmented7,
    ]
}

impl Quality {
    pub fn symbol(&self) -> (r: &'static str)
        ensures
            r@ == spec_symbol(*self),
    {
        match self {
            Quality::Major => "",
            Quality::Minor => "m",
            Quality::Diminished => "dim",
            Quality::Augmented => "+",
            Quality::Major7 => "maj7",
            Quality::Minor7 => "m7",
            Quality::Dominant7 => "7",
            Quality::Diminished7 => "dim7",
            Quality::HalfDim7 => "m7b5",
            Quality::MinorMajor7 => "mMaj7",
            Quality::Augmented7 => "+7",
            Quality::Sus2 => "sus2",
            Quality::Sus4 => "sus4",
            Quality::Add9 => "add9",
            Quality::Unknown => "?",
        }
    }

    pub fn intervals(&self) -> (r: Vec<u8>)
        ensures
            r@ == spec_intervals(*self),
    {
        match self {
            Quality::Major => triad(0, 4, 7),
            Quality::Minor => triad(0, 3, 7),
            Quality::Diminished => triad(0, 3, 6),
            Quality::Augmented => triad(0, 4, 8),
            Quality::Major7 => tetrad(0, 4, 7, 11),
            Quality::Minor7 => tetrad(0, 3, 7, 10),
            Quality::Dominant7 => tetrad(0, 4, 7, 10),
            Quality::Diminished7 => tetrad(0, 3, 6, 9),
            Quality::HalfDim7 => tetrad(0, 3, 6, 10),
            Quality::MinorMajor7 => tetrad(0, 3, 7, 11),
            Quality::Augmented7 => tetrad(0, 4, 8, 10),
            Quality::Sus2 => triad(0, 2, 7),
            Quality::Sus4 => triad(0, 5, 7),
            Quality::Add9 => tetrad(0, 4, 7, 14),
            Quality::Unknown => Vec::new(),
        }
    }

    pub fn all_triads() -> (r: Vec<Quality>)
        ensures
            r@ == spec_triads(),
    {
        let mut v: Vec<Quality> = Vec::new();
        v.push(Quality::Major);
        v.push(Quality::Minor);
        v.push(Quality::Diminished);
        v.push(Quality::Augmented);
        v.push(Quality::Sus2);
        v.push(Quality::Sus4);
        assert(v@ =~= spec_triads());
        v
    }

    pub fn all_sevenths() -> (r: Vec<Quality>)
        ensures
            r@ == spec_sevenths(),
    {
        let mut v: Vec<Quality> = Vec::new();
        v.push(Quality::Major7);
        v.push(Quality::Minor7);
        v.push(Quality::Dominant7);
        v.push(Quality::Diminished7);
        v.push(Quality::HalfDim7);
        v.push(Quality::MinorMajor7);
        v.push(Quality::Augmented7);
        assert(v@ =~= spec_sevenths());
        v
    }
}

fn triad(a: u8, b: u8, c: u8) -> (r: Vec<u8>)
    ensures
        r@ =~= seq![a, b, c],
{
    let mut v: Vec<u8> = Vec::new();
    v.push(a);
    v.push(b);
    v.push(c);
    v
}

fn tetrad(a: u8, b: u8, c: u8, d: u8) -> (r: Vec<u8>)
    ensures
        r@ =~= seq![a, b, c, d],
{
    let mut v: Vec<u8> = Vec::new();
    v.push(a);
    v.push(b);
    v.push(c);
    v.push(d);
    v
}

} // verus!
