//! Notes as MIDI note numbers, with pitch classes, names and octaves.

use std::collections::HashSet;

use vstd::prelude::*;

verus! {

broadcast use vstd::std_specs::hash::group_hash_axioms;

/// Whether `l` is the lowest note number of the set.
pub open spec fn is_lowest(notes: Set<u8>, l: u8) -> bool {
    notes.contains(l) && forall|n: u8| notes.contains(n) ==> l <= n
}

/// The lowest note number of a non-empty set.
pub open spec fn lowest_of(notes: Set<u8>) -> u8 {
    choose|l: u8| is_lowest(notes, l)
}

/// Whether `h` is the highest note number of the set.
pub open spec fn is_highest(notes: Set<u8>, h: u8) -> bool {
    notes.contains(h) && forall|n: u8| notes.contains(n) ==> n <= h
}

/// The highest note number of a non-empty set.
pub open spec fn highest_of(notes: Set<u8>) -> u8 {
    choose|h: u8| is_highest(notes, h)
}

/// The lowest note number in the set, if it has any.
pub(crate) fn lowest_note(notes: &HashSet<u8>) -> (r: Option<u8>)
    requires
        forall|n: u8| notes@.contains(n) ==> n < 128,
    ensures
        match r {
            Some(l) => is_lowest(notes@, l) && l == lowest_of(notes@) && l < 128,
            None => forall|n: u8| !notes@.contains(n),
        },
{
    let mut m: u8 = 0;
    while m < 128
        invariant
            m <= 128,
            forall|n: u8| notes@.contains(n) ==> n < 128,
            forall|n: u8| notes@.contains(n) ==> n >= m,
        decreases 128 - m,
    {
        if notes.contains(&m) {
            proof {
                assert(is_lowest(notes@, m));
                let l2 = lowest_of(notes@);
                assert(is_lowest(notes@, l2));
            }
            return Some(m);
        }
        m = m + 1;
    }
    None
}

/// The highest note number in the set, if it has any.
pub(crate) fn highest_note(notes: &HashSet<u8>) -> (r: Option<u8>)
    requires
        forall|n: u8| notes@.contains(n) ==> n < 128,
    ensures
        match r {
            Some(h) => is_highest(notes@, h) && h == highest_of(notes@) && h < 128,
            None => forall|n: u8| !notes@.contains(n),
        },
{
    let mut m: u8 = 128;
    while m > 0
        invariant
            m <= 128,
            forall|n: u8| notes@.contains(n) ==> n < 128,
            forall|n: u8| notes@.contains(n) ==> n < m,
        decreases m,
    {
        m = m - 1;
        if notes.contains(&m) {
            proof {
                assert(is_highest(notes@, m));
                let h2 = highest_of(notes@);
                assert(is_highest(notes@, h2));
            }
            return Some(m);
        }
    }
    None
}

/// A fresh copy of a set of note numbers.
pub(crate) fn copy_notes(notes: &HashSet<u8>) -> (r: HashSet<u8>)
    requires
        forall|n: u8| notes@.contains(n) ==> n < 128,
    ensures
        r@ == notes@,
{
    let mut out: HashSet<u8> = HashSet::new();
    let mut m: u8 = 0;
    while m < 128
        invariant
            m <= 128,
            forall|n: u8| notes@.contains(n) ==> n < 128,
            forall|n: u8| out@.contains(n) <==> (notes@.contains(n) && n < m),
        decreases 128 - m,
    {
        if notes.contains(&m) {
            out.insert(m);
        }
        m = m + 1;
    }
    proof {
        assert(out@ =~= notes@);
    }
    out
}

/// A note, held as its MIDI note number in `[0, 127]`.
///
/// Only the pitch class (`midi % 12`) takes part in chord identity;
/// the octave matters for display and for picking the lowest note of
/// an inversion.
#[derive(Clone, Copy, Debug, PartialEq, Eq, Hash, Structural)]
pub struct Note {
    pub midi: u8,
}

/// The twelve pitch-class names, using sharps and never flats:
/// 0 is C, 1 is C#, ... 11 is B.
pub open spec fn note_name_seq(pc: int) -> Seq<char> {
    if pc == 0 {
        "C"@
    } else if pc == 1 {
        "C#"@
    } else if pc == 2 {
        "D"@
    } else if pc == 3 {
        "D#"@
    } else if pc == 4 {
        "E"@
    } else if pc == 5 {
        "F"@
    } else if pc == 6 {
        "F#"@
    } else if pc == 7 {
        "G"@
    } else if pc == 8 {
        "G#"@
    } else if pc == 9 {
        "A"@
    } else if pc == 10 {
        "A#"@
    } else {
        "B"@
    }
}

/// Whether a token is one of the twelve pitch-class names, and which
/// pitch class it names: a single letter, or a letter followed by `#`.
pub open spec fn note_token_pc(s: Seq<char>) -> Option<u8> {
    if s.len() == 1 {
        if s[0] == 'C' {
            Some(0u8)
        } else if s[0] == 'D' {
            Some(2u8)
        } else if s[0] == 'E' {
            Some(4u8)
        } else if s[0] == 'F' {
            Some(5u8)
        } else if s[0] == 'G' {
            Some(7u8)
        } else if s[0] == 'A' {
            Some(9u8)
        } else if s[0] == 'B' {
            Some(11u8)
        } else {
            None
        }
    } else if s.len() == 2 && s[1] == '#' {
        if s[0] == 'C' {
            Some(1u8)
        } else if s[0] == 'D' {
            Some(3u8)
        } else if s[0] == 'F' {
            Some(6u8)
        } else if s[0] == 'G' {
            Some(8u8)
        } else if s[0] == 'A' {
            Some(10u8)
        } else {
            None
        }
    } else {
        None
    }
}

/// Looks a token up among the twelve pitch-class names.
pub fn token_pc(tok: &str) -> (r: Option<u8>)
    ensures
        r == note_token_pc(tok@),
        r matches Some(pc) ==> pc < 12,
{
    let n = tok.unicode_len();
    if n == 1 {
        let c = tok.get_char(0);
        if c == 'C' {
            Some(0)
        } else if c == 'D' {
            Some(2)
        } else if c == 'E' {
            Some(4)
        } else if c == 'F' {
            Some(5)
        } else if c == 'G' {
            Some(7)
        } else if c == 'A' {
            Some(9)
        } else if c == 'B' {
            Some(11)
        } else {
            None
        }
    } else if n == 2 {
        let c1 = tok.get_char(1);
        if c1 == '#' {
            let c = tok.get_char(0);
            if c == 'C' {
                Some(1)
            } else if c == 'D' {
                Some(3)
            } else if c == 'F' {
                Some(6)
            } else if c == 'G' {
                Some(8)
            } else if c == 'A' {
                Some(10)
            } else {
                None
            }
        } else {
            None
        }
    } else {
        None
    }
}

/// A decimal digit.
pub open spec fn spec_is_digit(c: char) -> bool {
    '0' as int <= c as int && c as int <= '9' as int
}

/// The value of a decimal digit.
pub open spec fn digit_val(c: char) -> int {
    c as int - '0' as int
}

/// Whether every character of a sequence is a decimal digit.
pub open spec fn all_digits(s: Seq<char>) -> bool {
    forall|i: int| 0 <= i < s.len() ==> spec_is_digit(s[i])
}

/// The value of a sequence of decimal digits.
pub open spec fn dec_val(s: Seq<char>) -> int
    decreases s.len(),
{
    if s.len() == 0 {
        0
    } else {
        dec_val(s.drop_last()) * 10 + digit_val(s.last())
    }
}

/// A signed decimal integer: an optional `+` or `-` sign followed by
/// at least one digit.
pub open spec fn parse_signed(s: Seq<char>) -> Option<int> {
    if s.len() > 0 && (s[0] == '-' || s[0] == '+') {
        let d = s.subrange(1, s.len() as int);
        if d.len() > 0 && all_digits(d) {
            Some(
                if s[0] == '-' {
                    -dec_val(d)
                } else {
                    dec_val(d)
                },
            )
        } else {
            None
        }
    } else if s.len() > 0 && all_digits(s) {
        Some(dec_val(s))
    } else {
        None
    }
}

/// What `Note::from_name` accepts and yields: a pitch-class name (one
/// letter, or a letter and `#`), then a signed decimal octave; the
/// MIDI number is `(octave + 1) * 12 + pitch class`. Text whose
/// reconstructed MIDI number falls outside `[0, 127]` is rejected.
pub open spec fn note_from_name_spec(n: Seq<char>) -> Option<Note> {
    if n.len() == 0 {
        None
    } else {
        let split: int = if n.len() >= 2 && n[1] == '#' {
            2
        } else {
            1
        };
        match note_token_pc(n.subrange(0, split)) {
            None => None,
            Some(pc) => match parse_signed(n.subrange(split, n.len() as int)) {
                None => None,
                Some(oct) => {
                    let midi = (oct + 1) * 12 + pc;
                    if 0 <= midi <= 127 {
                        Some(Note { midi: midi as u8 })
                    } else {
                        None
                    }
                },
            },
        }
    }
}

impl Note {
    /// A note is well formed when its MIDI number lies in `[0, 127]`.
    pub open spec fn wf(self) -> bool {
        self.midi < 128
    }

    /// The pitch class of the note: its MIDI number modulo 12.
    pub open spec fn spec_pitch_class(self) -> u8 {
        self.midi % 12
    }

    /// The octave of the note, with octave 4 containing middle C (MIDI 60).
    pub open spec fn spec_octave(self) -> int {
        self.midi as int / 12 - 1
    }

    pub fn new(midi: u8) -> (r: Self)
        requires
            midi < 128,
        ensures
            r.midi == midi,
            r.wf(),
    {
        Self { midi }
    }

    pub fn pitch_class(&self) -> (r: u8)
        ensures
            r == self.spec_pitch_class(),
            r < 12,
    {
        self.midi % 12
    }

    pub fn octave(&self) -> (r: i8)
        requires
            self.wf(),
        ensures
            r as int == self.spec_octave(),
            -1 <= r as int <= 9,
    {
        (self.midi / 12) as i8 - 1
    }

    pub fn name(&self) -> (r: &'static str)
        ensures
            r@ == note_name_seq(self.spec_pitch_class() as int),
    {
        let pc = self.midi % 12;
        if pc == 0 {
            "C"
        } else if pc == 1 {
            "C#"
        } else if pc == 2 {
            "D"
        } else if pc == 3 {
            "D#"
        } else if pc == 4 {
            "E"
        } else if pc == 5 {
            "F"
        } else if pc == 6 {
            "F#"
        } else if pc == 7 {
            "G"
        } else if pc == 8 {
            "G#"
        } else if pc == 9 {
            "A"
        } else if pc == 10 {
            "A#"
        } else {
            "B"
        }
    }

    /// The pitch-class name followed by the octave, e.g. `C4`.
    pub open spec fn spec_display(self) -> Seq<char> {
        note_name_seq(self.spec_pitch_class() as int) + octave_seq(self.spec_octave())
    }

    pub fn display(&self) -> (r: String)
        requires
            self.wf(),
        ensures
            r@ == self.spec_display(),
    {
        let mut s = String::from_str(self.name());
        let o = self.octave();
        let os: &'static str = if o == -1 {
            "-1"
        } else if o == 0 {
            "0"
        } else if o == 1 {
            "1"
        } else if o == 2 {
            "2"
        } else if o == 3 {
            "3"
        } else if o == 4 {
            "4"
        } else if o == 5 {
            "5"
        } else if o == 6 {
            "6"
        } else if o == 7 {
            "7"
        } else if o == 8 {
            "8"
        } else {
            "9"
        };
        s.append(os);
        s
    }

    /// Parses a pitch-class name plus octave, e.g. `C#4`.
    ///
    /// Rejects text whose reconstructed MIDI number would fall outside
    /// `[0, 127]`, so that every note this returns is well formed.
    pub fn from_name(name: &str) -> (r: Option<Self>)
        ensures
            r == note_from_name_spec(name@),
            r matches Some(n) ==> n.wf(),
    {
        let len = name.unicode_len();
        if len == 0 {
            return None;
        }
        let split: usize = if len >= 2 && name.get_char(1) == '#' {
            2
        } else {
            1
        };
        let tok = name.substring_char(0, split);
        let pc = match token_pc(tok) {
            Some(pc) => pc,
            None => {
                return None;
            },
        };
        let oct = match parse_octave(name, split, len) {
            Some(o) => o,
            None => {
                return None;
            },
        };
        let midi = (oct + 1) * 12 + pc as i32;
        if 0 <= midi && midi <= 127 {
            Some(Note { midi: midi as u8 })
        } else {
            None
        }
    }
}

/// The octave rendered as text, for the octaves a well-formed note can
/// have.
pub open spec fn octave_seq(o: int) -> Seq<char> {
    if o == -1 {
        "-1"@
    } else if o == 0 {
        "0"@
    } else if o == 1 {
        "1"@
    } else if o == 2 {
        "2"@
    } else if o == 3 {
        "3"@
    } else if o == 4 {
        "4"@
    } else if o == 5 {
        "5"@
    } else if o == 6 {
        "6"@
    } else if o == 7 {
        "7"@
    } else if o == 8 {
        "8"@
    } else {
        "9"@
    }
}

/// Parses `name[from..len]` as a signed decimal octave.
///
/// Values are capped at 1000 in magnitude; the cap only ever fires on
/// values that no note in `[0, 127]` can have, and the result then
/// still decides the range check the same way as the exact value.
fn parse_octave(name: &str, from: usize, len: usize) -> (r: Option<i32>)
    requires
        from <= len,
        len == name@.len(),
    ensures
        ({
            let sp = parse_signed(name@.subrange(from as int, len as int));
            match r {
                None => sp is None,
                Some(v) => sp matches Some(w) && -1000 <= v <= 1000 && (v == w || (v == 1000 && w
                    > 1000) || (v == -1000 && w < -1000)),
            }
        }),
{
    let ghost s = name@.subrange(from as int, len as int);
    if from == len {
        return None;
    }
    let c0 = name.get_char(from);
    let neg = c0 == '-';
    let start: usize = if c0 == '-' || c0 == '+' {
        from + 1
    } else {
        from
    };
    let ghost d = name@.subrange(start as int, len as int);
    proof {
        assert(s[0] == c0);
        if start > from {
            assert(s.subrange(1, s.len() as int) =~= d);
        } else {
            assert(s =~= d);
        }
    }
    if start == len {
        return None;
    }
    let mut val: i32 = 0;
    let mut i: usize = start;
    while i < len
        invariant
            from <= start <= i <= len,
            len == name@.len(),
            from < len,
            start < len,
            s == name@.subrange(from as int, len as int),
            d == name@.subrange(start as int, len as int),
            s[0] == c0,
            neg <==> c0 == '-',
            start > from <==> (c0 == '-' || c0 == '+'),
            start > from ==> s.subrange(1, s.len() as int) == d,
            start == from ==> s == d,
            all_digits(name@.subrange(start as int, i as int)),
            0 <= val <= 1000,
            ({
                let v = dec_val(name@.subrange(start as int, i as int));
                (v <= 1000 ==> val == v) && (v > 1000 ==> val == 1000)
            }),
        decreases len - i,
    {
        let c = name.get_char(i);
        if (c as u32) < ('0' as u32) || (c as u32) > ('9' as u32) {
            proof {
                assert(d[i - start] == c);
                assert(!all_digits(d));
            }
            return None;
        }
        let dv: i32 = (c as u32 as i32) - ('0' as u32 as i32);
        proof {
            let pre = name@.subrange(start as int, i as int);
            let ext = name@.subrange(start as int, i as int + 1);
            assert(ext.drop_last() =~= pre);
            assert(ext.last() == c);
            assert(dec_val(ext) == dec_val(pre) * 10 + digit_val(c));
            assert(dec_val(pre) >= 0) by {
                lemma_dec_val_nonneg(pre);
            }
            assert forall|k: int| 0 <= k < ext.len() implies spec_is_digit(ext[k]) by {
                if k < ext.len() - 1 {
                    assert(ext[k] == pre[k]);
                }
            }
        }
        val = if val > 100 || (val == 100 && dv > 0) {
            1000
        } else {
            val * 10 + dv
        };
        i = i + 1;
    }
    proof {
        assert(name@.subrange(start as int, i as int) =~= d);
        assert(dec_val(d) >= 0) by {
            lemma_dec_val_nonneg(d);
        }
    }
    if neg {
        Some(-val)
    } else {
        Some(val)
    }
}

/// A digit sequence never has a negative value.
proof fn lemma_dec_val_nonneg(s: Seq<char>)
    requires
        all_digits(s),
    ensures
        dec_val(s) >= 0,
    decreases s.len(),
{
    if s.len() > 0 {
        assert(all_digits(s.drop_last())) by {
            assert forall|i: int| 0 <= i < s.len() - 1 implies spec_is_digit(s.drop_last()[i]) by {
                assert(s.drop_last()[i] == s[i]);
            }
        }
        lemma_dec_val_nonneg(s.drop_last());
        assert(spec_is_digit(s.last()));
    }
}

} // verus!
