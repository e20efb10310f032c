//! Chords: a root, a quality and an optional bass, with detection,
//! naming, roman numerals and parsing.

use std::collections::HashSet;

use vstd::prelude::*;

use crate::note::{is_lowest, lowest_of, lowest_note, note_name_seq, note_token_pc, token_pc, Note};
use crate::quality::{spec_intervals, spec_sevenths, spec_symbol, spec_triads, Quality};

verus! {

broadcast use {vstd::std_specs::hash::group_hash_axioms, vstd::set::group_set_axioms};

/// The set of pitch classes sounding in a set of note numbers.
pub open spec fn pc_set(notes: Set<u8>) -> Set<int> {
    Set::new(|p: int| 0 <= p < 12 && exists|n: u8| notes.contains(n) && n as int % 12 == p)
}

/// Whether a quality's canonical interval list, reduced modulo 12,
/// contains the interval `d`.
pub open spec fn has_interval(q: Quality, d: int) -> bool {
    exists|k: int|
        0 <= k < spec_intervals(q).len() && spec_intervals(q)[k] as int % 12 == d
}

/// Whether the sounding pitch classes, read as intervals above the
/// candidate root `r`, are exactly the quality's interval set.
pub open spec fn root_matches(notes: Set<u8>, r: int, q: Quality) -> bool {
    forall|d: int|
        0 <= d < 12 ==> (has_interval(q, d) <==> pc_set(notes).contains((r + d) % 12))
}

/// The catalog detection scans: sevenths before triads, each group in
/// its fixed order.
pub open spec fn catalog() -> Seq<Quality> {
    spec_sevenths() + spec_triads()
}

/// The position of a quality in the detection catalog; 13 for the two
/// qualities outside it.
pub open spec fn catalog_index(q: Quality) -> int {
    match q {
        Quality::Major7 => 0,
        Quality::Minor7 => 1,
        Quality::Dominant7 => 2,
        Quality::Diminished7 => 3,
        Quality::HalfDim7 => 4,
        Quality::MinorMajor7 => 5,
        Quality::Augmented7 => 6,
        Quality::Major => 7,
        Quality::Minor => 8,
        Quality::Diminished => 9,
        Quality::Augmented => 10,
        Quality::Sus2 => 11,
        Quality::Sus4 => 12,
        _ => 13,
    }
}

/// Whether a quality is a four-note (seventh) quality.
pub open spec fn is_seventh(q: Quality) -> bool {
    spec_intervals(q).len() == 4
}

/// The score of a candidate match: 10 in root position, else 5, plus
/// 2 for a seventh quality.
pub open spec fn match_score(r: int, q: Quality, lpc: int) -> int {
    (if r == lpc {
        10int
    } else {
        5int
    }) + (if is_seventh(q) {
        2int
    } else {
        0int
    })
}

/// Everything `Chord::detect` promises of its result.
///
/// A chord comes back exactly when at least three distinct pitch
/// classes sound and some catalog quality matches some candidate root.
/// The returned match has the strictly best score; among equal scores
/// the lowest root wins, and within one root the quality scanned
/// first. The root lands at the fixed reference octave, and a bass is
/// attached exactly when the winning root is not the lowest sounding
/// pitch class.
pub open spec fn detect_post(notes: Set<u8>, r: Option<Chord>) -> bool {
    &&& (r is Some <==> pc_set(notes).len() >= 3 && exists|ri: int, j: int|
        0 <= ri < 12 && 0 <= j < 13 && #[trigger] root_matches(notes, ri, catalog()[j]))
    &&& match r {
        Some(c) => {
            let ri = c.root.midi as int - 60;
            let lpc = lowest_of(notes) as int % 12;
            &&& 60 <= c.root.midi < 72
            &&& catalog_index(c.quality) < 13
            &&& catalog()[catalog_index(c.quality)] == c.quality
            &&& root_matches(notes, ri, c.quality)
            &&& forall|rj: int, j: int|
                0 <= rj < 12 && 0 <= j < 13 && #[trigger] root_matches(notes, rj, catalog()[j])
                    ==> match_score(rj, catalog()[j], lpc) <= match_score(ri, c.quality, lpc)
            &&& forall|rj: int, j: int|
                0 <= rj < 12 && 0 <= j < 13 && #[trigger] root_matches(notes, rj, catalog()[j])
                    && match_score(rj, catalog()[j], lpc) == match_score(ri, c.quality, lpc) ==> (
                ri < rj || (ri == rj && catalog_index(c.quality) <= j))
            &&& c.bass == (if ri == lpc {
                None
            } else {
                Some(Note { midi: lowest_of(notes) })
            })
        },
        None => true,
    }
}

/// A chord: root note, quality, and an optional bass note marking an
/// inversion (the lowest sounding note of the input that produced the
/// chord). Octaves never take part in chord identity; only pitch
/// classes do.
#[derive(Clone, Copy, Debug, PartialEq, Eq)]
pub struct Chord {
    pub root: Note,
    pub quality: Quality,
    pub bass: Option<Note>,
}

impl Chord {
    pub fn new(root: Note, quality: Quality) -> (r: Self)
        ensures
            r.root == root,
            r.quality == quality,
            r.bass is None,
    {
        Self { root, quality, bass: None }
    }

    pub fn with_bass(self, bass: Note) -> (r: Self)
        ensures
            r.root == self.root,
            r.quality == self.quality,
            r.bass == Some(bass),
    {
        Self { bass: Some(bass), ..self }
    }

    /// Whether the name shows a slash bass: a bass is present and its
    /// pitch class differs from the root's.
    pub open spec fn shows_bass(self) -> bool {
        match self.bass {
            Some(b) => b.spec_pitch_class() != self.root.spec_pitch_class(),
            None => false,
        }
    }

    /// The canonical name: root name, quality symbol, and `/<bass>`
    /// only when the bass pitch class differs from the root's.
    pub open spec fn spec_name(self) -> Seq<char> {
        let base = note_name_seq(self.root.spec_pitch_class() as int) + spec_symbol(self.quality);
        match self.bass {
            Some(b) => if b.spec_pitch_class() != self.root.spec_pitch_class() {
                base + "/"@ + note_name_seq(b.spec_pitch_class() as int)
            } else {
                base
            },
            None => base,
        }
    }

    pub fn name(&self) -> (r: String)
        ensures
            r@ == self.spec_name(),
    {
        let mut s = String::from_str(self.root.name());
        s.append(self.quality.symbol());
        match &self.bass {
            Some(b) => {
                if b.pitch_class() != self.root.pitch_class() {
                    s.append("/");
                    s.append(b.name());
                }
            },
            None => {},
        }
        s
    }

    /// The scale degree of the root above the key, in semitones.
    pub open spec fn spec_degree(self, key: Note) -> int {
        (self.root.spec_pitch_class() + 12 - key.spec_pitch_class()) % 12
    }

    /// The roman numeral relative to a key: the degree's numeral,
    /// lowercased for minor-like and diminished qualities, followed by
    /// a quality suffix.
    pub open spec fn spec_roman_numeral(self, key: Note) -> Seq<char> {
        numeral_seq(
            self.spec_degree(key),
            is_minor_like(self.quality) || is_diminished_like(self.quality),
        ) + roman_suffix(self.quality)
    }

    pub fn roman_numeral(&self, key: Note) -> (r: String)
        ensures
            r@ == self.spec_roman_numeral(key),
    {
        let degree = (self.root.pitch_class() + 12 - key.pitch_class()) % 12;
        let lower = match self.quality {
            Quality::Minor | Quality::Minor7 | Quality::MinorMajor7 | Quality::HalfDim7 => true,
            Quality::Diminished | Quality::Diminished7 => true,
            _ => false,
        };
        let base: &'static str = if lower {
            if degree == 0 {
                "i"
            } else if degree == 1 {
                "bii"
            } else if degree == 2 {
                "ii"
            } else if degree == 3 {
                "biii"
            } else if degree == 4 {
                "iii"
            } else if degree == 5 {
                "iv"
            } else if degree == 6 {
                "bv"
            } else if degree == 7 {
                "v"
            } else if degree == 8 {
                "bvi"
            } else if degree == 9 {
                "vi"
            } else if degree == 10 {
                "bvii"
            } else {
                "vii"
            }
        } else {
            if degree == 0 {
                "I"
            } else if degree == 1 {
                "bII"
            } else if degree == 2 {
                "II"
            } else if degree == 3 {
                "bIII"
            } else if degree == 4 {
                "III"
            } else if degree == 5 {
                "IV"
            } else if degree == 6 {
                "bV"
            } else if degree == 7 {
                "V"
            } else if degree == 8 {
                "bVI"
            } else if degree == 9 {
                "VI"
            } else if degree == 10 {
                "bVII"
            } else {
                "VII"
            }
        };
        let suffix: &'static str = match self.quality {
            Quality::Major | Quality::Minor => "",
            Quality::Diminished => "°",
            Quality::Augmented => "+",
            Quality::Major7 => "maj7",
            Quality::Minor7 => "7",
            Quality::Dominant7 => "7",
            Quality::Diminished7 => "°7",
            Quality::HalfDim7 => "ø7",
            _ => self.quality.symbol(),
        };
        let mut s = String::from_str(base);
        s.append(suffix);
        s
    }

    /// Detects the best-matching chord in a set of sounding note
    /// numbers, or nothing when fewer than three distinct pitch
    /// classes sound or no catalog quality matches exactly.
    ///
    /// Candidate roots are scanned in ascending pitch-class order and
    /// qualities sevenths before triads, so ties resolve
    /// deterministically; see [`detect_post`] for the full contract.
    pub fn detect(notes: &HashSet<u8>) -> (r: Option<Self>)
        requires
            forall|n: u8| notes@.contains(n) ==> n < 128,
        ensures
            detect_post(notes@, r),
            r matches Some(c) ==> detectable(c),
    {
        let pcs = count_pcs(notes);
        if pcs < 3 {
            return None;
        }
        let lowest = match lowest_note(notes) {
            Some(l) => l,
            None => {
                proof {
                    assert(pc_set(notes@) =~= Set::<int>::empty());
                    assert(false);
                }
                return None;
            },
        };
        proof {
            lemma_catalog_facts();
        }
        let lpc = lowest % 12;
        let cat = catalog_list();
        let mut best: Option<Chord> = None;
        let mut best_score: u8 = 0;
        let ghost mut best_ri: int = 0;
        let ghost mut best_j: int = 0;
        let mut root: u8 = 0;
        while root < 12
            invariant
                root <= 12,
                lpc == lowest % 12,
                lowest < 128,
                lowest == lowest_of(notes@),
                is_lowest(notes@, lowest),
                forall|n: u8| notes@.contains(n) ==> n < 128,
                cat@ == catalog(),
                catalog().len() == 13,
                forall|j: int| 0 <= j < 13 ==> catalog_index(#[trigger] catalog()[j]) == j,
                forall|j: int| 0 <= j < 13 ==> (is_seventh(#[trigger] catalog()[j]) <==> j < 7),
                detect_scan_inv(
                    notes@,
                    best,
                    best_score as int,
                    best_ri,
                    best_j,
                    root as int,
                    0,
                ),
            decreases 12 - root,
        {
            let mut j: usize = 0;
            while j < 13
                invariant
                    j <= 13,
                    root < 12,
                    lpc == lowest % 12,
                    lowest < 128,
                    lowest == lowest_of(notes@),
                    is_lowest(notes@, lowest),
                    forall|n: u8| notes@.contains(n) ==> n < 128,
                    cat@ == catalog(),
                    catalog().len() == 13,
                    forall|jj: int| 0 <= jj < 13 ==> catalog_index(#[trigger] catalog()[jj]) == jj,
                    forall|jj: int|
                        0 <= jj < 13 ==> (is_seventh(#[trigger] catalog()[jj]) <==> jj < 7),
                    detect_scan_inv(
                        notes@,
                        best,
                        best_score as int,
                        best_ri,
                        best_j,
                        root as int,
                        j as int,
                    ),
                decreases 13 - j,
            {
                let q = cat[j];
                if is_match(notes, root, q) {
                    let sc: u8 = (if root == lpc {
                        10
                    } else {
                        5
                    }) + (if j < 7 {
                        2
                    } else {
                        0
                    });
                    assert(sc as int == match_score(
                        root as int,
                        q,
                        lowest_of(notes@) as int % 12,
                    ));
                    if sc > best_score {
                        let c = if root != lpc {
                            Chord::new(Note::new(root + 60), q).with_bass(Note::new(lowest))
                        } else {
                            Chord::new(Note::new(root + 60), q)
                        };
                        best = Some(c);
                        best_score = sc;
                        proof {
                            best_ri = root as int;
                            best_j = j as int;
                        }
                    }
                }
                j = j + 1;
            }
            root = root + 1;
        }
        proof {
            if pc_set(notes@).len() >= 3 && exists|ri: int, j: int|
                0 <= ri < 12 && 0 <= j < 13 && #[trigger] root_matches(notes@, ri, catalog()[j]) {
                let (ri, j) = choose|ri: int, j: int|
                    0 <= ri < 12 && 0 <= j < 13 && #[trigger] root_matches(
                        notes@,
                        ri,
                        catalog()[j],
                    );
                assert(best is Some);
            }
        }
        best
    }

    /// Parses a canonical chord name, the inverse of [`Chord::name`]
    /// for every chord detection can produce.
    pub fn from_name(name: &str) -> (r: Option<Self>)
        ensures
            r == chord_from_name_spec(name@),
    {
        let len = name.unicode_len();
        if len == 0 {
            return None;
        }
        let split: usize = if len >= 2 && name.get_char(1) == '#' {
            2
        } else {
            1
        };
        let rpc = match token_pc(name.substring_char(0, split)) {
            Some(p) => p,
            None => {
                return None;
            },
        };
        let rest = name.substring_char(split, len);
        let rest_len = len - split;
        let slash = find_slash(rest, rest_len);
        proof {
            lemma_slash_index(rest@);
        }
        let qtok: &str = match slash {
            Some(i) => rest.substring_char(0, i),
            None => rest,
        };
        let q = match quality_token_lookup(qtok) {
            Some(q) => q,
            None => {
                return None;
            },
        };
        match slash {
            None => Some(Chord { root: Note { midi: 60 + rpc }, quality: q, bass: None }),
            Some(i) => {
                proof {
                    lemma_slash_index(rest@);
                }
                let btok = rest.substring_char(i + 1, rest_len);
                match token_pc(btok) {
                    Some(bpc) => Some(
                        Chord {
                            root: Note { midi: 60 + rpc },
                            quality: q,
                            bass: Some(Note { midi: 60 + bpc }),
                        },
                    ),
                    None => None,
                }
            },
        }
    }
}

/// The index of the first `/` in a sequence, if any.
pub open spec fn slash_index(s: Seq<char>) -> Option<int>
    decreases s.len(),
{
    if s.len() == 0 {
        None
    } else if s[0] == '/' {
        Some(0int)
    } else {
        match slash_index(s.subrange(1, s.len() as int)) {
            Some(i) => Some(i + 1),
            None => None,
        }
    }
}

/// The first `/` is a `/`, nothing before it is, and where there is
/// none, no character is.
pub proof fn lemma_slash_index(s: Seq<char>)
    ensures
        match slash_index(s) {
            Some(i) => 0 <= i < s.len() && s[i] == '/' && forall|k: int| 0 <= k < i ==> s[k] != '/',
            None => forall|k: int| 0 <= k < s.len() ==> s[k] != '/',
        },
    decreases s.len(),
{
    if s.len() > 0 && s[0] != '/' {
        let t = s.subrange(1, s.len() as int);
        lemma_slash_index(t);
        assert forall|k: int| 1 <= k < s.len() implies s[k] == t[k - 1] by {}
    }
}

/// The quality named by a token, by the fixed alias table.
pub open spec fn quality_token(s: Seq<char>) -> Option<Quality> {
    if s == ""@ {
        Some(Quality::Major)
    } else if s == "m"@ {
        Some(Quality::Minor)
    } else if s == "dim"@ || s == "°"@ {
        Some(Quality::Diminished)
    } else if s == "+"@ || s == "aug"@ {
        Some(Quality::Augmented)
    } else if s == "maj7"@ || s == "M7"@ {
        Some(Quality::Major7)
    } else if s == "m7"@ || s == "min7"@ {
        Some(Quality::Minor7)
    } else if s == "7"@ || s == "dom7"@ {
        Some(Quality::Dominant7)
    } else if s == "dim7"@ || s == "°7"@ {
        Some(Quality::Diminished7)
    } else if s == "m7b5"@ || s == "ø7"@ || s == "ø"@ {
        Some(Quality::HalfDim7)
    } else if s == "mMaj7"@ || s == "mM7"@ {
        Some(Quality::MinorMajor7)
    } else if s == "+7"@ || s == "aug7"@ {
        Some(Quality::Augmented7)
    } else if s == "sus2"@ {
        Some(Quality::Sus2)
    } else if s == "sus4"@ || s == "sus"@ {
        Some(Quality::Sus4)
    } else if s == "add9"@ {
        Some(Quality::Add9)
    } else {
        None
    }
}

/// What `Chord::from_name` accepts and yields: a root token (one
/// letter, or a letter and `#`), a quality token cut at the first `/`,
/// and behind that `/`, if present, a bass token looked up letter-only.
/// Root and bass land at the fixed reference octave (pitch class + 60).
pub open spec fn chord_from_name_spec(n: Seq<char>) -> Option<Chord> {
    if n.len() == 0 {
        None
    } else {
        let split: int = if n.len() >= 2 && n[1] == '#' {
            2
        } else {
            1
        };
        match note_token_pc(n.subrange(0, split)) {
            None => None,
            Some(rpc) => {
                let rest = n.subrange(split, n.len() as int);
                let qtok = match slash_index(rest) {
                    Some(i) => rest.subrange(0, i),
                    None => rest,
                };
                match quality_token(qtok) {
                    None => None,
                    Some(q) => match slash_index(rest) {
                        None => Some(
                            Chord {
                                root: Note { midi: (60 + rpc) as u8 },
                                quality: q,
                                bass: None,
                            },
                        ),
                        Some(i) => {
                            let btok = rest.subrange(i + 1, rest.len() as int);
                            match note_token_pc(btok) {
                                None => None,
                                Some(bpc) => Some(
                                    Chord {
                                        root: Note { midi: (60 + rpc) as u8 },
                                        quality: q,
                                        bass: Some(Note { midi: (60 + bpc) as u8 }),
                                    },
                                ),
                            }
                        },
                    },
                }
            },
        }
    }
}

/// Character-for-character string equality.
fn str_eq(a: &str, b: &str) -> (r: bool)
    ensures
        r <==> a@ == b@,
{
    let la = a.unicode_len();
    let lb = b.unicode_len();
    if la != lb {
        return false;
    }
    let mut i: usize = 0;
    while i < la
        invariant
            0 <= i <= la,
            la == a@.len(),
            la == b@.len(),
            forall|k: int| 0 <= k < i ==> a@[k] == b@[k],
        decreases la - i,
    {
        if a.get_char(i) != b.get_char(i) {
            return false;
        }
        i = i + 1;
    }
    proof {
        assert(a@ =~= b@);
    }
    true
}

/// The index of the first `/` in a string, if any.
fn find_slash(s: &str, len: usize) -> (r: Option<usize>)
    requires
        len == s@.len(),
    ensures
        match r {
            Some(i) => slash_index(s@) == Some(i as int),
            None => slash_index(s@) is None,
        },
{
    proof {
        lemma_slash_index(s@);
    }
    let mut i: usize = 0;
    while i < len
        invariant
            0 <= i <= len,
            len == s@.len(),
            forall|k: int| 0 <= k < i ==> s@[k] != '/',
            match slash_index(s@) {
                Some(j) => 0 <= j < s@.len() && s@[j] == '/' && forall|k: int|
                    0 <= k < j ==> s@[k] != '/',
                None => forall|k: int| 0 <= k < s@.len() ==> s@[k] != '/',
            },
        decreases len - i,
    {
        if s.get_char(i) == '/' {
            return Some(i);
        }
        i = i + 1;
    }
    None
}

/// Looks a quality token up in the fixed alias table.
fn quality_token_lookup(tok: &str) -> (r: Option<Quality>)
    ensures
        r == quality_token(tok@),
{
    if str_eq(tok, "") {
        Some(Quality::Major)
    } else if str_eq(tok, "m") {
        Some(Quality::Minor)
    } else if str_eq(tok, "dim") || str_eq(tok, "°") {
        Some(Quality::Diminished)
    } else if str_eq(tok, "+") || str_eq(tok, "aug") {
        Some(Quality::Augmented)
    } else if str_eq(tok, "maj7") || str_eq(tok, "M7") {
        Some(Quality::Major7)
    } else if str_eq(tok, "m7") || str_eq(tok, "min7") {
        Some(Quality::Minor7)
    } else if str_eq(tok, "7") || str_eq(tok, "dom7") {
        Some(Quality::Dominant7)
    } else if str_eq(tok, "dim7") || str_eq(tok, "°7") {
        Some(Quality::Diminished7)
    } else if str_eq(tok, "m7b5") || str_eq(tok, "ø7") || str_eq(tok, "ø") {
        Some(Quality::HalfDim7)
    } else if str_eq(tok, "mMaj7") || str_eq(tok, "mM7") {
        Some(Quality::MinorMajor7)
    } else if str_eq(tok, "+7") || str_eq(tok, "aug7") {
        Some(Quality::Augmented7)
    } else if str_eq(tok, "sus2") {
        Some(Quality::Sus2)
    } else if str_eq(tok, "sus4") || str_eq(tok, "sus") {
        Some(Quality::Sus4)
    } else if str_eq(tok, "add9") {
        Some(Quality::Add9)
    } else {
        None
    }
}

/// The shape of every chord detection can produce: a catalog quality,
/// the root at the reference octave, and a bass, when present, that is
/// a well-formed note off the root's pitch class.
pub open spec fn detectable(c: Chord) -> bool {
    &&& 60 <= c.root.midi < 72
    &&& catalog_index(c.quality) < 13
    &&& match c.bass {
        Some(b) => b.midi < 128 && b.spec_pitch_class() != c.root.spec_pitch_class(),
        None => true,
    }
}

/// The same chord with its bass moved to the reference octave; the
/// rendered name keeps only the bass pitch class, so parsing the name
/// back lands there.
pub open spec fn reference_form(c: Chord) -> Chord {
    Chord {
        root: c.root,
        quality: c.quality,
        bass: match c.bass {
            Some(b) => Some(Note { midi: (b.spec_pitch_class() + 60) as u8 }),
            None => None,
        },
    }
}

/// Whether the pair `(ri, j)` comes before the scan position
/// `(r_cur, j_cur)` in the detection order: roots ascending, and
/// within a root the catalog in order.
pub open spec fn scanned(ri: int, j: int, r_cur: int, j_cur: int) -> bool {
    ri < r_cur || (ri == r_cur && j < j_cur)
}

/// The running state of the detection scan: what the best match found
/// so far is, and that nothing already scanned beats it.
pub open spec fn detect_scan_inv(
    notes: Set<u8>,
    best: Option<Chord>,
    best_score: int,
    best_ri: int,
    best_j: int,
    r_cur: int,
    j_cur: int,
) -> bool {
    let lpc = lowest_of(notes) as int % 12;
    match best {
        None => {
            &&& best_score == 0
            &&& forall|ri: int, j: int|
                0 <= ri < 12 && 0 <= j < 13 && scanned(ri, j, r_cur, j_cur)
                    ==> !#[trigger] root_matches(notes, ri, catalog()[j])
        },
        Some(c) => {
            &&& 0 <= best_ri < 12
            &&& 0 <= best_j < 13
            &&& scanned(best_ri, best_j, r_cur, j_cur)
            &&& root_matches(notes, best_ri, catalog()[best_j])
            &&& c.root.midi as int == 60 + best_ri
            &&& c.quality == catalog()[best_j]
            &&& c.bass == (if best_ri == lpc {
                None
            } else {
                Some(Note { midi: lowest_of(notes) })
            })
            &&& best_score == match_score(best_ri, catalog()[best_j], lpc)
            &&& best_score > 0
            &&& forall|ri: int, j: int|
                0 <= ri < 12 && 0 <= j < 13 && scanned(ri, j, r_cur, j_cur) && #[trigger]
                root_matches(notes, ri, catalog()[j]) ==> match_score(ri, catalog()[j], lpc)
                    <= best_score
            &&& forall|ri: int, j: int|
                0 <= ri < 12 && 0 <= j < 13 && scanned(ri, j, r_cur, j_cur) && #[trigger]
                root_matches(notes, ri, catalog()[j]) && match_score(ri, catalog()[j], lpc)
                    == best_score ==> (best_ri < ri || (best_ri == ri && best_j <= j))
        },
    }
}

/// The catalog holds thirteen qualities: seven sevenths, then six
/// triads, each at the index `catalog_index` gives it.
pub proof fn lemma_catalog_facts()
    ensures
        catalog().len() == 13,
        forall|j: int| 0 <= j < 13 ==> catalog_index(#[trigger] catalog()[j]) == j,
        forall|j: int| 0 <= j < 13 ==> (is_seventh(#[trigger] catalog()[j]) <==> j < 7),
{
    assert(catalog().len() == 13);
    assert(catalog()[0] == Quality::Major7);
    assert(catalog()[1] == Quality::Minor7);
    assert(catalog()[2] == Quality::Dominant7);
    assert(catalog()[3] == Quality::Diminished7);
    assert(catalog()[4] == Quality::HalfDim7);
    assert(catalog()[5] == Quality::MinorMajor7);
    assert(catalog()[6] == Quality::Augmented7);
    assert(catalog()[7] == Quality::Major);
    assert(catalog()[8] == Quality::Minor);
    assert(catalog()[9] == Quality::Diminished);
    assert(catalog()[10] == Quality::Augmented);
    assert(catalog()[11] == Quality::Sus2);
    assert(catalog()[12] == Quality::Sus4);
}

/// Whether any note of the given pitch class is in the set, scanning
/// its octaves from the bottom.
fn has_pc(notes: &HashSet<u8>, p: u8) -> (r: bool)
    requires
        p < 12,
        forall|n: u8| notes@.contains(n) ==> n < 128,
    ensures
        r == pc_set(notes@).contains(p as int),
{
    let mut m: u8 = p;
    while m < 128
        invariant
            p < 12,
            m % 12 == p,
            m <= 139,
            forall|n: u8| notes@.contains(n) ==> n < 128,
            forall|n: u8| notes@.contains(n) && n % 12 == p ==> n >= m,
        decreases 139 - m,
    {
        if notes.contains(&m) {
            assert(pc_set(notes@).contains(p as int));
            return true;
        }
        m = m + 12;
    }
    assert(!pc_set(notes@).contains(p as int));
    false
}

/// Counts the distinct sounding pitch classes.
fn count_pcs(notes: &HashSet<u8>) -> (r: usize)
    requires
        forall|n: u8| notes@.contains(n) ==> n < 128,
    ensures
        r == pc_set(notes@).len(),
{
    broadcast use vstd::set::group_set_axioms;

    let mut count: usize = 0;
    let ghost mut seen: Set<int> = Set::empty();
    let mut p: u8 = 0;
    while p < 12
        invariant
            p <= 12,
            count <= p,
            forall|n: u8| notes@.contains(n) ==> n < 128,
            seen == Set::new(|q: int| 0 <= q < p && pc_set(notes@).contains(q)),
            seen.finite(),
            count == seen.len(),
        decreases 12 - p,
    {
        let present = has_pc(notes, p);
        proof {
            let next = Set::new(|q: int| 0 <= q < p + 1 && pc_set(notes@).contains(q));
            if present {
                assert(next =~= seen.insert(p as int));
                assert(!seen.contains(p as int));
            } else {
                assert(next =~= seen);
            }
        }
        if present {
            count = count + 1;
            proof {
                seen = seen.insert(p as int);
            }
        }
        p = p + 1;
    }
    proof {
        assert(seen =~= pc_set(notes@));
    }
    count
}

/// Whether the quality's interval list, reduced modulo 12, contains
/// the interval `d`.
fn intervals_contain(ivs: &Vec<u8>, d: u8, Ghost(q): Ghost<Quality>) -> (r: bool)
    requires
        ivs@ == spec_intervals(q),
        d < 12,
    ensures
        r == has_interval(q, d as int),
{
    let mut k: usize = 0;
    while k < ivs.len()
        invariant
            k <= ivs@.len(),
            ivs@ == spec_intervals(q),
            forall|kk: int| 0 <= kk < k ==> spec_intervals(q)[kk] as int % 12 != d as int,
        decreases ivs@.len() - k,
    {
        if ivs[k] % 12 == d {
            return true;
        }
        k = k + 1;
    }
    false
}

/// Whether the sounding pitch classes, read above `root`, equal the
/// quality's interval set.
fn is_match(notes: &HashSet<u8>, root: u8, q: Quality) -> (r: bool)
    requires
        root < 12,
        forall|n: u8| notes@.contains(n) ==> n < 128,
    ensures
        r == root_matches(notes@, root as int, q),
{
    let ivs = q.intervals();
    let mut d: u8 = 0;
    while d < 12
        invariant
            d <= 12,
            root < 12,
            ivs@ == spec_intervals(q),
            forall|n: u8| notes@.contains(n) ==> n < 128,
            forall|dd: int|
                0 <= dd < d ==> (has_interval(q, dd) <==> pc_set(notes@).contains(
                    (root + dd) % 12,
                )),
        decreases 12 - d,
    {
        let inq = intervals_contain(&ivs, d, Ghost(q));
        let inp = has_pc(notes, (root + d) % 12);
        if inq != inp {
            return false;
        }
        d = d + 1;
    }
    true
}

/// The thirteen catalog qualities in scan order.
fn catalog_list() -> (r: Vec<Quality>)
    ensures
        r@ == catalog(),
{
    let mut v = Quality::all_sevenths();
    let mut t = Quality::all_triads();
    v.append(&mut t);
    v
}

/// The interval membership of each catalog quality, written out:
/// which intervals `d` in `[0, 12)` the quality's set contains.
pub open spec fn interval_table(q: Quality, d: int) -> bool {
    match q {
        Quality::Major => d == 0 || d == 4 || d == 7,
        Quality::Minor => d == 0 || d == 3 || d == 7,
        Quality::Diminished => d == 0 || d == 3 || d == 6,
        Quality::Augmented => d == 0 || d == 4 || d == 8,
        Quality::Major7 => d == 0 || d == 4 || d == 7 || d == 11,
        Quality::Minor7 => d == 0 || d == 3 || d == 7 || d == 10,
        Quality::Dominant7 => d == 0 || d == 4 || d == 7 || d == 10,
        Quality::Diminished7 => d == 0 || d == 3 || d == 6 || d == 9,
        Quality::HalfDim7 => d == 0 || d == 3 || d == 6 || d == 10,
        Quality::MinorMajor7 => d == 0 || d == 3 || d == 7 || d == 11,
        Quality::Augmented7 => d == 0 || d == 4 || d == 8 || d == 10,
        Quality::Sus2 => d == 0 || d == 2 || d == 7,
        Quality::Sus4 => d == 0 || d == 5 || d == 7,
        Quality::Add9 => d == 0 || d == 2 || d == 4 || d == 7,
        Quality::Unknown => false,
    }
}

/// `has_interval` agrees with the written-out table.
pub proof fn lemma_interval_table(q: Quality, d: int)
    requires
        0 <= d < 12,
    ensures
        has_interval(q, d) == interval_table(q, d),
{
    let ivs = spec_intervals(q);
    if has_interval(q, d) {
        let k = choose|k: int| 0 <= k < ivs.len() && ivs[k] as int % 12 == d;
        assert(interval_table(q, d));
    }
    if interval_table(q, d) {
        match q {
            Quality::Major | Quality::Minor | Quality::Diminished | Quality::Augmented
            | Quality::Sus2 | Quality::Sus4 => {
                assert(ivs[0] as int % 12 == 0);
                assert(ivs[1] as int % 12 == ivs[1] as int);
                assert(ivs[2] as int % 12 == ivs[2] as int);
            },
            Quality::Unknown => {},
            _ => {
                assert(ivs[0] as int % 12 == 0);
                assert(ivs[1] as int % 12 == ivs[1] as int);
                assert(ivs[2] as int % 12 == ivs[2] as int);
                assert(ivs[3] as int % 12 == if q == Quality::Add9 {
                    2int
                } else {
                    ivs[3] as int
                });
            },
        }
        assert(has_interval(q, d));
    }
}

/// No two catalog qualities share an interval set.
pub proof fn lemma_catalog_interval_sets_distinct(q1: Quality, q2: Quality)
    requires
        catalog_index(q1) < 13,
        catalog_index(q2) < 13,
        forall|d: int| 0 <= d < 12 ==> (has_interval(q1, d) <==> has_interval(q2, d)),
    ensures
        q1 == q2,
{
    assert forall|d: int| 0 <= d < 12 implies (interval_table(q1, d) <==> interval_table(
        q2,
        d,
    )) by {
        lemma_interval_table(q1, d);
        lemma_interval_table(q2, d);
    }
    assert(interval_table(q1, 2) == interval_table(q2, 2));
    assert(interval_table(q1, 3) == interval_table(q2, 3));
    assert(interval_table(q1, 4) == interval_table(q2, 4));
    assert(interval_table(q1, 5) == interval_table(q2, 5));
    assert(interval_table(q1, 6) == interval_table(q2, 6));
    assert(interval_table(q1, 7) == interval_table(q2, 7));
    assert(interval_table(q1, 8) == interval_table(q2, 8));
    assert(interval_table(q1, 9) == interval_table(q2, 9));
    assert(interval_table(q1, 10) == interval_table(q2, 10));
    assert(interval_table(q1, 11) == interval_table(q2, 11));
}

/// With fewer than three distinct sounding pitch classes, detection
/// finds nothing.
pub proof fn lemma_detect_needs_three_pitch_classes(notes: Set<u8>, r: Option<Chord>)
    requires
        detect_post(notes, r),
        pc_set(notes).len() < 3,
    ensures
        r is None,
{
}

/// A root-position match always wins: when the sounding pitch classes
/// exactly match a catalog quality above the lowest sounding pitch
/// class, detection returns exactly that quality, rooted there, with
/// no bass.
pub proof fn lemma_root_position_wins(notes: Set<u8>, l: u8, q: Quality, r: Option<Chord>)
    requires
        detect_post(notes, r),
        pc_set(notes).len() >= 3,
        is_lowest(notes, l),
        catalog_index(q) < 13,
        root_matches(notes, l as int % 12, q),
    ensures
        r == Some(Chord { root: Note { midi: (l % 12 + 60) as u8 }, quality: q, bass: None }),
{
    lemma_catalog_facts();
    assert(lowest_of(notes) == l) by {
        let l2 = lowest_of(notes);
        assert(is_lowest(notes, l2));
    }
    let lpc = l as int % 12;
    assert(catalog()[catalog_index(q)] == q);
    assert(root_matches(notes, lpc, catalog()[catalog_index(q)]));
    let c = r->0;
    let ri = c.root.midi as int - 60;
    assert(match_score(lpc, q, lpc) >= 10);
    assert(match_score(lpc, q, lpc) <= match_score(ri, c.quality, lpc));
    assert(ri == lpc) by {
        if ri != lpc {
            assert(match_score(ri, c.quality, lpc) <= 7);
        }
    }
    assert(c.bass is None);
    assert(c.quality == q) by {
        assert(root_matches(notes, lpc, c.quality));
        assert forall|d: int| 0 <= d < 12 implies (has_interval(q, d) <==> has_interval(
            c.quality,
            d,
        )) by {
            assert(has_interval(q, d) <==> pc_set(notes).contains((lpc + d) % 12));
            assert(has_interval(c.quality, d) <==> pc_set(notes).contains((lpc + d) % 12));
        }
        lemma_catalog_interval_sets_distinct(q, c.quality);
    }
    assert(c.root.midi as int == lpc + 60);
}

/// The index that satisfies the first-slash characterization is the
/// first slash.
pub proof fn lemma_slash_index_unique(s: Seq<char>, i: int)
    requires
        0 <= i < s.len(),
        s[i] == '/',
        forall|k: int| 0 <= k < i ==> s[k] != '/',
    ensures
        slash_index(s) == Some(i),
{
    lemma_slash_index(s);
    match slash_index(s) {
        Some(j) => {
            if j < i {
                assert(s[j] == '/');
            } else if j > i {
                assert(s[i] != '/');
            }
        },
        None => {},
    }
}

/// Looking a pitch-class name back up recovers the pitch class, and
/// the name's shape: one letter, with `#` second exactly for the five
/// sharp classes, and never a `/` or a leading `#`.
pub proof fn lemma_note_name_shape(pc: int)
    requires
        0 <= pc < 12,
    ensures
        ({
            let rn = note_name_seq(pc);
            &&& note_token_pc(rn) == Some(pc as u8)
            &&& 1 <= rn.len() <= 2
            &&& (rn.len() == 2 <==> (pc == 1 || pc == 3 || pc == 6 || pc == 8 || pc == 10))
            &&& (rn.len() == 2 ==> rn[1] == '#')
            &&& rn[0] != '/' && rn[0] != '#'
        }),
{
    reveal_strlit("C");
    reveal_strlit("C#");
    reveal_strlit("D");
    reveal_strlit("D#");
    reveal_strlit("E");
    reveal_strlit("F");
    reveal_strlit("F#");
    reveal_strlit("G");
    reveal_strlit("G#");
    reveal_strlit("A");
    reveal_strlit("A#");
    reveal_strlit("B");
}

/// A quality symbol never contains a `/` and never starts with `#`.
pub proof fn lemma_symbol_shape(q: Quality)
    ensures
        forall|k: int| 0 <= k < spec_symbol(q).len() ==> spec_symbol(q)[k] != '/',
        spec_symbol(q).len() > 0 ==> spec_symbol(q)[0] != '#',
{
    reveal_strlit("");
    reveal_strlit("m");
    reveal_strlit("dim");
    reveal_strlit("+");
    reveal_strlit("maj7");
    reveal_strlit("m7");
    reveal_strlit("7");
    reveal_strlit("dim7");
    reveal_strlit("m7b5");
    reveal_strlit("mMaj7");
    reveal_strlit("+7");
    reveal_strlit("sus2");
    reveal_strlit("sus4");
    reveal_strlit("add9");
    reveal_strlit("?");
}

/// Looking a catalog quality's own symbol up in the alias table gives
/// that quality back.
pub proof fn lemma_quality_token_of_symbol(q: Quality)
    requires
        catalog_index(q) < 13,
    ensures
        quality_token(spec_symbol(q)) == Some(q),
{
    reveal_strlit("");
    reveal_strlit("m");
    reveal_strlit("dim");
    reveal_strlit("°");
    reveal_strlit("+");
    reveal_strlit("aug");
    reveal_strlit("maj7");
    reveal_strlit("M7");
    reveal_strlit("m7");
    reveal_strlit("min7");
    reveal_strlit("7");
    reveal_strlit("dom7");
    reveal_strlit("dim7");
    reveal_strlit("°7");
    reveal_strlit("m7b5");
    reveal_strlit("ø7");
    reveal_strlit("ø");
    reveal_strlit("mMaj7");
    reveal_strlit("mM7");
    reveal_strlit("+7");
    reveal_strlit("aug7");
    reveal_strlit("sus2");
    reveal_strlit("sus4");
    reveal_strlit("sus");
    reveal_strlit("add9");
    assert(""@.len() == 0);
    assert("m"@.len() == 1 && "m"@[0] == 'm');
    assert("°"@.len() == 1 && "°"@[0] == '°');
    assert("+"@.len() == 1 && "+"@[0] == '+');
    assert("7"@.len() == 1 && "7"@[0] == '7');
    assert("ø"@.len() == 1 && "ø"@[0] == 'ø');
    assert("M7"@.len() == 2 && "M7"@[0] == 'M');
    assert("m7"@.len() == 2 && "m7"@[0] == 'm' && "m7"@[1] == '7');
    assert("°7"@.len() == 2 && "°7"@[0] == '°');
    assert("ø7"@.len() == 2 && "ø7"@[0] == 'ø');
    assert("+7"@.len() == 2 && "+7"@[0] == '+');
    assert("dim"@.len() == 3 && "dim"@[0] == 'd');
    assert("aug"@.len() == 3 && "aug"@[0] == 'a');
    assert("mM7"@.len() == 3 && "mM7"@[0] == 'm' && "mM7"@[1] == 'M');
    assert("sus"@.len() == 3 && "sus"@[0] == 's');
    assert("maj7"@.len() == 4 && "maj7"@[0] == 'm' && "maj7"@[1] == 'a');
    assert("min7"@.len() == 4 && "min7"@[0] == 'm' && "min7"@[1] == 'i');
    assert("dom7"@.len() == 4 && "dom7"@[0] == 'd' && "dom7"@[1] == 'o');
    assert("dim7"@.len() == 4 && "dim7"@[0] == 'd' && "dim7"@[1] == 'i');
    assert("m7b5"@.len() == 4 && "m7b5"@[0] == 'm' && "m7b5"@[1] == '7');
    assert("aug7"@.len() == 4 && "aug7"@[0] == 'a' && "aug7"@[1] == 'u');
    assert("sus2"@.len() == 4 && "sus2"@[0] == 's' && "sus2"@[3] == '2');
    assert("sus4"@.len() == 4 && "sus4"@[0] == 's' && "sus4"@[3] == '4');
    assert("add9"@.len() == 4 && "add9"@[0] == 'a' && "add9"@[1] == 'd');
    assert("mMaj7"@.len() == 5);
}

/// Round trip: parsing the rendered name of any chord detection can
/// produce gives that chord back, up to the bass octave, which the
/// name never carries.
pub proof fn lemma_name_round_trip(c: Chord)
    requires
        detectable(c),
    ensures
        chord_from_name_spec(c.spec_name()) == Some(reference_form(c)),
{
    reveal_strlit("/");
    let n = c.spec_name();
    let rpc = c.root.spec_pitch_class() as int;
    let rn = note_name_seq(rpc);
    let sym = spec_symbol(c.quality);
    lemma_note_name_shape(rpc);
    lemma_symbol_shape(c.quality);
    lemma_quality_token_of_symbol(c.quality);
    assert(c.root.midi as int == 60 + rpc);

    let tail: Seq<char> = match c.bass {
        Some(b) => "/"@ + note_name_seq(b.spec_pitch_class() as int),
        None => Seq::empty(),
    };
    assert(n =~= rn + sym + tail);
    match c.bass {
        Some(b) => {
            lemma_note_name_shape(b.spec_pitch_class() as int);
        },
        None => {},
    }

    // The root token splits back off: two characters exactly when the
    // root is sharp.
    let split: int = if n.len() >= 2 && n[1] == '#' {
        2
    } else {
        1
    };
    assert(split == rn.len()) by {
        if rn.len() == 2 {
            assert(n[1] == rn[1]);
        } else {
            if n.len() >= 2 {
                if sym.len() > 0 {
                    assert(n[1] == sym[0]);
                } else {
                    assert(tail.len() >= 1);
                    assert(n[1] == tail[0]);
                    assert(tail[0] == '/');
                }
            }
        }
    }
    assert(n.subrange(0, split) =~= rn);
    assert(note_token_pc(n.subrange(0, split)) == Some(rpc as u8));

    let rest = n.subrange(split, n.len() as int);
    assert(rest =~= sym + tail);

    match c.bass {
        None => {
            assert(rest =~= sym);
            assert(slash_index(rest) is None) by {
                lemma_slash_index(rest);
                match slash_index(rest) {
                    Some(i) => {
                        assert(rest[i] == '/');
                    },
                    None => {},
                }
            }
            assert(quality_token(rest) == Some(c.quality));
        },
        Some(b) => {
            let bpc = b.spec_pitch_class() as int;
            let bn = note_name_seq(bpc);
            assert(rest =~= sym + "/"@ + bn);
            assert(rest[sym.len() as int] == '/');
            assert(slash_index(rest) == Some(sym.len() as int)) by {
                assert forall|k: int| 0 <= k < sym.len() implies rest[k] != '/' by {
                    assert(rest[k] == sym[k]);
                }
                lemma_slash_index_unique(rest, sym.len() as int);
            }
            assert(rest.subrange(0, sym.len() as int) =~= sym);
            assert(quality_token(sym) == Some(c.quality));
            assert(rest.subrange(sym.len() as int + 1, rest.len() as int) =~= bn);
            assert(note_token_pc(bn) == Some(bpc as u8));
            assert(reference_form(c).bass == Some(Note { midi: (60 + bpc) as u8 }));
        },
    }
}

/// Whether a quality lowercases its numeral as minor.
pub open spec fn is_minor_like(q: Quality) -> bool {
    q == Quality::Minor || q == Quality::Minor7 || q == Quality::MinorMajor7 || q
        == Quality::HalfDim7
}

/// Whether a quality lowercases its numeral as diminished.
pub open spec fn is_diminished_like(q: Quality) -> bool {
    q == Quality::Diminished || q == Quality::Diminished7
}

/// The twelve roman numerals, upper or lower case.
pub open spec fn numeral_seq(degree: int, lower: bool) -> Seq<char> {
    if lower {
        if degree == 0 {
            "i"@
        } else if degree == 1 {
            "bii"@
        } else if degree == 2 {
            "ii"@
        } else if degree == 3 {
            "biii"@
        } else if degree == 4 {
            "iii"@
        } else if degree == 5 {
            "iv"@
        } else if degree == 6 {
            "bv"@
        } else if degree == 7 {
            "v"@
        } else if degree == 8 {
            "bvi"@
        } else if degree == 9 {
            "vi"@
        } else if degree == 10 {
            "bvii"@
        } else {
            "vii"@
        }
    } else {
        if degree == 0 {
            "I"@
        } else if degree == 1 {
            "bII"@
        } else if degree == 2 {
            "II"@
        } else if degree == 3 {
            "bIII"@
        } else if degree == 4 {
            "III"@
        } else if degree == 5 {
            "IV"@
        } else if degree == 6 {
            "bV"@
        } else if degree == 7 {
            "V"@
        } else if degree == 8 {
            "bVI"@
        } else if degree == 9 {
            "VI"@
        } else if degree == 10 {
            "bVII"@
        } else {
            "VII"@
        }
    }
}

/// The quality suffix a roman numeral carries. `Minor7` and
/// `Dominant7` share the suffix `7` deliberately: the convention the
/// numerals follow does not tell them apart.
pub open spec fn roman_suffix(q: Quality) -> Seq<char> {
    match q {
        Quality::Major | Quality::Minor => ""@,
        Quality::Diminished => "°"@,
        Quality::Augmented => "+"@,
        Quality::Major7 => "maj7"@,
        Quality::Minor7 => "7"@,
        Quality::Dominant7 => "7"@,
        Quality::Diminished7 => "°7"@,
        Quality::HalfDim7 => "ø7"@,
        _ => spec_symbol(q),
    }
}

} // verus!
