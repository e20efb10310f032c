//! A rolling history of detected chords, with ages and optional
//! fading.

use vstd::prelude::*;

use crate::chord::Chord;

verus! {

/// One history entry: a chord and how many pushes ago it arrived.
#[derive(Clone, Copy, Debug)]
pub struct ChordEntry {
    pub chord: Chord,
    pub age: u8,
}

/// Whether two chords render to the same canonical name: same root
/// pitch class, same quality, and the same shown bass pitch class.
pub open spec fn display_eq(a: Chord, b: Chord) -> bool {
    &&& a.root.spec_pitch_class() == b.root.spec_pitch_class()
    &&& a.quality == b.quality
    &&& a.shows_bass() == b.shows_bass()
    &&& (a.shows_bass() ==> a.bass->0.spec_pitch_class() == b.bass->0.spec_pitch_class())
}

/// Chords that agree on root pitch class, quality and shown bass
/// render to the same name.
pub proof fn lemma_display_eq_same_name(a: Chord, b: Chord)
    requires
        display_eq(a, b),
    ensures
        a.spec_name() == b.spec_name(),
{
}

/// An entry one push older, its age saturating at 255.
pub open spec fn aged(e: ChordEntry) -> ChordEntry {
    ChordEntry {
        chord: e.chord,
        age: if e.age < 255 {
            (e.age + 1) as u8
        } else {
            255u8
        },
    }
}

/// The rolling chord history: newest entries at the back, at most
/// `max_entries` kept, and, when fading, entries die at age 8.
pub struct ChordHistory {
    entries: Vec<ChordEntry>,
    max_entries: usize,
    fade: bool,
}

impl ChordHistory {
    /// The entries, oldest first.
    pub closed spec fn entries_seq(self) -> Seq<ChordEntry> {
        self.entries@
    }

    /// How many entries the history keeps at most.
    pub closed spec fn max(self) -> int {
        self.max_entries as int
    }

    /// Whether aged entries fade out on `tick`.
    pub closed spec fn fading(self) -> bool {
        self.fade
    }

    pub fn new(max: usize) -> (r: Self)
        ensures
            r.entries_seq() == Seq::<ChordEntry>::empty(),
            r.max() == max,
            !r.fading(),
    {
        Self { entries: Vec::new(), max_entries: max, fade: false }
    }

    /// Records a chord: a repeat of the newest entry's name is
    /// dropped; otherwise every entry ages by one, the chord joins at
    /// age 0, and the oldest entry leaves if the history overflows.
    pub fn push(&mut self, chord: Chord)
        ensures
            final(self).max() == old(self).max(),
            final(self).fading() == old(self).fading(),
            ({
                let old_e = old(self).entries_seq();
                if old_e.len() > 0 && display_eq(old_e.last().chord, chord) {
                    final(self).entries_seq() == old_e
                } else {
                    let appended = old_e.map_values(|e: ChordEntry| aged(e)).push(
                        ChordEntry { chord, age: 0 },
                    );
                    final(self).entries_seq() == if appended.len() > old(self).max() {
                        appended.subrange(1, appended.len() as int)
                    } else {
                        appended
                    }
                }
            }),
    {
        let n = self.entries.len();
        if n > 0 {
            if same_display(&self.entries[n - 1].chord, &chord) {
                return;
            }
        }
        let ghost old_e = self.entries@;
        let mut v2: Vec<ChordEntry> = Vec::new();
        let mut i: usize = 0;
        while i < n
            invariant
                i <= n,
                n == old_e.len(),
                old_e == self.entries@,
                v2@ =~= old_e.subrange(0, i as int).map_values(|e: ChordEntry| aged(e)),
            decreases n - i,
        {
            let e = &self.entries[i];
            let age = if e.age == 255 {
                255
            } else {
                e.age + 1
            };
            v2.push(ChordEntry { chord: e.chord, age });
            proof {
                let pre = old_e.subrange(0, i as int);
                let ext = old_e.subrange(0, i as int + 1);
                assert(ext.drop_last() =~= pre);
                assert(v2@ =~= ext.map_values(|e: ChordEntry| aged(e)));
            }
            i = i + 1;
        }
        proof {
            assert(old_e.subrange(0, n as int) =~= old_e);
        }
        v2.push(ChordEntry { chord, age: 0 });
        if v2.len() > self.max_entries {
            v2.remove(0);
            proof {
                let appended = old_e.map_values(|e: ChordEntry| aged(e)).push(
                    ChordEntry { chord, age: 0 },
                );
                assert(v2@ =~= appended.subrange(1, appended.len() as int));
            }
        }
        self.entries = v2;
    }

    pub fn set_fade(&mut self, fade: bool)
        ensures
            final(self).fading() == fade,
            final(self).entries_seq() == old(self).entries_seq(),
            final(self).max() == old(self).max(),
    {
        self.fade = fade;
    }

    /// When fading, drops every entry that has reached age 8.
    pub fn tick(&mut self)
        ensures
            final(self).max() == old(self).max(),
            final(self).fading() == old(self).fading(),
            final(self).entries_seq() == if old(self).fading() {
                old(self).entries_seq().filter(|e: ChordEntry| e.age < 8)
            } else {
                old(self).entries_seq()
            },
    {
        if !self.fade {
            return;
        }
        let ghost old_e = self.entries@;
        let n = self.entries.len();
        let mut v2: Vec<ChordEntry> = Vec::new();
        let mut i: usize = 0;
        proof {
            reveal(Seq::filter);
        }
        while i < n
            invariant
                i <= n,
                n == old_e.len(),
                old_e == self.entries@,
                v2@ =~= old_e.subrange(0, i as int).filter(|e: ChordEntry| e.age < 8),
            decreases n - i,
        {
            let e = &self.entries[i];
            proof {
                reveal(Seq::filter);
                let pre = old_e.subrange(0, i as int);
                let ext = old_e.subrange(0, i as int + 1);
                assert(ext.drop_last() =~= pre);
                assert(ext.last() == old_e[i as int]);
            }
            if e.age < 8 {
                v2.push(*e);
            }
            i = i + 1;
        }
        proof {
            assert(old_e.subrange(0, n as int) =~= old_e);
        }
        self.entries = v2;
    }

    pub fn clear(&mut self)
        ensures
            final(self).entries_seq() == Seq::<ChordEntry>::empty(),
            final(self).max() == old(self).max(),
            final(self).fading() == old(self).fading(),
    {
        self.entries.clear();
    }

    pub fn entries(&self) -> (r: &[ChordEntry])
        ensures
            r@ == self.entries_seq(),
    {
        self.entries.as_slice()
    }

    pub fn is_fading(&self) -> (r: bool)
        ensures
            r == self.fading(),
    {
        self.fade
    }
}

/// Whether two chords would render to the same name, by their
/// identity triple.
fn same_display(a: &Chord, b: &Chord) -> (r: bool)
    ensures
        r == display_eq(*a, *b),
{
    if a.quality != b.quality {
        return false;
    }
    if a.root.pitch_class() != b.root.pitch_class() {
        return false;
    }
    let a_bass: Option<u8> = match &a.bass {
        Some(x) => {
            if x.pitch_class() != a.root.pitch_class() {
                Some(x.pitch_class())
            } else {
                None
            }
        },
        None => None,
    };
    let b_bass: Option<u8> = match &b.bass {
        Some(x) => {
            if x.pitch_class() != b.root.pitch_class() {
                Some(x.pitch_class())
            } else {
                None
            }
        },
        None => None,
    };
    match (a_bass, b_bass) {
        (Some(x), Some(y)) => x == y,
        (None, None) => true,
        _ => false,
    }
}

} // verus!
