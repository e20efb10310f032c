//! The piano keyboard model: which key range to show, which keys are
//! pressed, and which key is the chord root.

use std::collections::HashSet;

use vstd::prelude::*;

use crate::note::{copy_notes, highest_note, highest_of, lowest_note, lowest_of};

verus! {

broadcast use vstd::std_specs::hash::group_hash_axioms;

/// Whether a pitch class lands on a black key.
pub open spec fn spec_is_black(pc: u8) -> bool {
    pc == 1 || pc == 3 || pc == 6 || pc == 8 || pc == 10
}

/// How many of the `n` keys from `start` up are white.
pub open spec fn white_count(start: int, n: nat) -> int
    decreases n,
{
    if n == 0 {
        0int
    } else {
        white_count(start, (n - 1) as nat) + if spec_is_black((((start + n - 1) % 12) as u8)) {
            0int
        } else {
            1int
        }
    }
}

/// A keyboard view: the first key shown, how many keys, the pressed
/// keys, and the chord root to highlight.
pub struct Piano {
    pub start_midi: u8,
    pub num_keys: usize,
    pub pressed: HashSet<u8>,
    pub root: Option<u8>,
}

impl Piano {
    pub fn new(start_midi: u8, num_keys: usize) -> (r: Self)
        ensures
            r.start_midi == start_midi,
            r.num_keys == num_keys,
            r.pressed@ == Set::<u8>::empty(),
            r.root is None,
    {
        Self { start_midi, num_keys, pressed: HashSet::new(), root: None }
    }

    /// A keyboard sized to the pressed keys: it starts at the octave
    /// below the lowest key less a fifth, ends past the highest key
    /// plus a fifth rounded up to an octave, and shows at least 25
    /// keys. Without pressed keys it shows the two octaves around
    /// middle C.
    pub fn dynamic(pressed: &HashSet<u8>) -> (r: Self)
        requires
            forall|n: u8| pressed@.contains(n) ==> n < 128,
        ensures
            r.pressed@ == pressed@,
            r.root is None,
            (forall|n: u8| !pressed@.contains(n)) ==> r.start_midi == 48 && r.num_keys == 25,
            (exists|n: u8| pressed@.contains(n)) ==> ({
                let mn = lowest_of(pressed@) as int;
                let mx = highest_of(pressed@) as int;
                let start = ((if mn >= 5 {
                    mn - 5
                } else {
                    0
                }) / 12) * 12;
                let end = ((mx + 7) / 12 + 1) * 12;
                &&& r.start_midi == start
                &&& r.num_keys == if end - start >= 25 {
                    end - start
                } else {
                    25
                }
            }),
    {
        let min = match lowest_note(pressed) {
            Some(l) => l,
            None => {
                let r = Self::new(48, 25);
                proof {
                    assert(r.pressed@ =~= pressed@);
                }
                return r;
            },
        };
        let max = match highest_note(pressed) {
            Some(h) => h,
            None => {
                proof {
                    assert(false);
                }
                0
            },
        };
        let low = if min >= 5 {
            min - 5
        } else {
            0
        };
        let start = (low / 12) * 12;
        let end = ((max + 7) / 12 + 1) * 12;
        let nk = (end - start) as usize;
        let num_keys = if nk >= 25 {
            nk
        } else {
            25
        };
        Self { start_midi: start, num_keys, pressed: copy_notes(pressed), root: None }
    }

    pub fn pressed(self, keys: HashSet<u8>) -> (r: Self)
        ensures
            r.pressed@ == keys@,
            r.start_midi == self.start_midi,
            r.num_keys == self.num_keys,
            r.root == self.root,
    {
        Self { pressed: keys, ..self }
    }

    pub fn root(self, midi: Option<u8>) -> (r: Self)
        ensures
            r.root == midi,
            r.start_midi == self.start_midi,
            r.num_keys == self.num_keys,
            r.pressed@ == self.pressed@,
    {
        Self { root: midi, ..self }
    }

    /// Whether a MIDI key is a black key.
    pub fn is_black_key(midi: u8) -> (r: bool)
        ensures
            r == spec_is_black(midi % 12),
    {
        let pc = midi % 12;
        pc == 1 || pc == 3 || pc == 6 || pc == 8 || pc == 10
    }

    /// Counts the white keys in the shown range.
    pub fn white_key_count(&self) -> (r: usize)
        requires
            self.start_midi + self.num_keys <= 256,
        ensures
            r == white_count(self.start_midi as int, self.num_keys as nat),
    {
        let mut count: usize = 0;
        let mut i: usize = 0;
        while i < self.num_keys
            invariant
                i <= self.num_keys,
                self.start_midi + self.num_keys <= 256,
                count == white_count(self.start_midi as int, i as nat),
                count <= i,
            decreases self.num_keys - i,
        {
            let m = self.start_midi as usize + i;
            if !Self::is_black_key(m as u8) {
                count = count + 1;
            }
            i = i + 1;
        }
        count
    }
}

} // verus!
