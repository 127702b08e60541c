//! Integer-encoded pitches and intervals.
//!
//! A note is a non-negative count of semitones above C at octave 0: the
//! octave is `value / 12` and the pitch class is `value % 12`.  Pitch classes
//! are spelled with flats only.  Notes can be parsed from and displayed as
//! `<name><octave>` text, transposed by intervals, and lazily ascended one
//! semitone at a time.

use crate::text::all_digits;
use crate::text::append_decimal;
use crate::text::dec_digits;
use crate::text::digit_val;
use crate::text::digits_val;
use crate::text::is_digit;
use crate::text::lemma_dec_digits_are_digits;
use crate::text::lemma_digits_val_dec_digits;
use crate::text::lemma_digits_val_prefix;
use vstd::prelude::*;
use vstd::string::StrSliceExecFns;
use vstd::string::StringExecFns;

verus! {

/// An error of the pitch model: ill-formed note text, or arithmetic that
/// would leave the pitch encoding.
#[derive(Debug, PartialEq, Eq, Structural, Clone, Copy)]
pub enum Error {
    /// The text is not a note name with an optional octave, or denotes a
    /// pitch too large for the encoding.
    ParseError,
    /// A subtraction would cross below zero, or an addition would overflow.
    DomainError,
}

/// A pitch: semitones above C at octave 0.
#[derive(Debug, PartialEq, Eq, Structural, Clone, Copy)]
pub struct Note {
    value: usize,
}

/// A non-negative semitone distance between two pitches.
#[derive(Debug, PartialEq, Eq, Structural, Clone, Copy)]
pub struct Interval {
    semitones: usize,
}

impl View for Note {
    type V = nat;

    closed spec fn view(&self) -> nat {
        self.value as nat
    }
}

impl DeepView for Note {
    type V = nat;

    open spec fn deep_view(&self) -> nat {
        self.view()
    }
}

impl View for Interval {
    type V = nat;

    closed spec fn view(&self) -> nat {
        self.semitones as nat
    }
}

/// Two notes are equal exactly when they encode the same value.
pub proof fn lemma_note_eq(a: Note, b: Note)
    ensures
        (a == b) <==> (a@ == b@),
{
}

impl Note {
    /// Constructs the note that sits `value` semitones above C0.
    pub fn new(value: usize) -> (r: Note)
        ensures
            r@ == value as nat,
    {
        Note { value }
    }

    /// The encoded value, as an executable number.
    pub fn value(&self) -> (r: usize)
        ensures
            r as nat == self@,
    {
        self.value
    }

    /// The same pitch class at octave 0.
    pub fn disregard_octave(self) -> (r: Note)
        ensures
            r@ == self@ % 12,
    {
        Note { value: self.value % 12 }
    }

    /// Raises the pitch by an interval.  Fails with a domain error exactly
    /// when the sum leaves the encoding.
    pub fn add_interval(self, interval: Interval) -> (r: Result<Note, Error>)
        ensures
            match r {
                Ok(n) => self@ + interval@ <= usize::MAX && n@ == self@ + interval@,
                Err(e) => self@ + interval@ > usize::MAX && e == Error::DomainError,
            },
    {
        match self.value.checked_add(interval.semitones) {
            Some(v) => Ok(Note { value: v }),
            None => Err(Error::DomainError),
        }
    }

    /// Lowers the pitch by an interval.  Fails with a domain error exactly
    /// when the difference would cross below zero.
    pub fn sub_interval(self, interval: Interval) -> (r: Result<Note, Error>)
        ensures
            match r {
                Ok(n) => interval@ <= self@ && n@ == self@ - interval@,
                Err(e) => interval@ > self@ && e == Error::DomainError,
            },
    {
        if interval.semitones <= self.value {
            Ok(Note { value: self.value - interval.semitones })
        } else {
            Err(Error::DomainError)
        }
    }

    /// The absolute semitone distance between two pitches.
    pub open spec fn spec_distance(self, other: Note) -> nat {
        if self@ >= other@ {
            (self@ - other@) as nat
        } else {
            (other@ - self@) as nat
        }
    }

    /// The interval between two pitches: their absolute semitone distance,
    /// in either order.
    pub fn distance(self, other: Note) -> (r: Interval)
        ensures
            r@ == self.spec_distance(other),
    {
        if self.value >= other.value {
            Interval { semitones: self.value - other.value }
        } else {
            Interval { semitones: other.value - self.value }
        }
    }

    /// A fresh cursor over this pitch and everything above it, one semitone
    /// at a time.  The note itself is not consumed or changed.
    pub fn ascent(self) -> (r: NoteIter)
        ensures
            r.next_value() == self@,
    {
        NoteIter { note: self, first: true }
    }

    /// The first `count` pitches of the ascent: consecutive values starting
    /// at this pitch.
    pub fn ascent_prefix(self, count: usize) -> (r: Vec<Note>)
        requires
            self@ + count <= usize::MAX + 1,
        ensures
            r@.len() == count,
            forall|j: int| 0 <= j < count ==> #[trigger] r@[j]@ == self@ + j,
    {
        let mut out: Vec<Note> = Vec::new();
        let mut it = self.ascent();
        let mut taken: usize = 0;
        while taken < count
            invariant
                taken <= count,
                self@ + count <= usize::MAX + 1,
                out@.len() == taken,
                it.next_value() == self@ + taken,
                forall|j: int| 0 <= j < taken ==> #[trigger] out@[j]@ == self@ + j,
            decreases count - taken,
        {
            let n = it.next();
            out.push(n);
            taken += 1;
        }
        out
    }
}

impl Interval {
    /// Constructs an interval of the given semitone count.
    pub fn new(semitones: usize) -> (r: Interval)
        ensures
            r@ == semitones as nat,
    {
        Interval { semitones }
    }
}

/// Raising a pitch by an interval and lowering the result by the same
/// interval returns the original pitch.
pub proof fn lemma_transpose_roundtrip(p: Note, i: Interval, up: Note, down: Note)
    requires
        up@ == p@ + i@,
        down@ + i@ == up@,
    ensures
        down == p,
{
    lemma_note_eq(down, p);
}

/// The distance between two pitches does not depend on their order.
pub proof fn lemma_distance_symmetric(a: Note, b: Note)
    ensures
        a.spec_distance(b) == b.spec_distance(a),
{
}

/// The name of a pitch class (`pc < 12`), spelled with flats only.
pub open spec fn pc_name(pc: nat) -> Seq<char> {
    if pc == 0 {
        seq!['C']
    } else if pc == 1 {
        seq!['D', 'b']
    } else if pc == 2 {
        seq!['D']
    } else if pc == 3 {
        seq!['E', 'b']
    } else if pc == 4 {
        seq!['E']
    } else if pc == 5 {
        seq!['F']
    } else if pc == 6 {
        seq!['G', 'b']
    } else if pc == 7 {
        seq!['G']
    } else if pc == 8 {
        seq!['A', 'b']
    } else if pc == 9 {
        seq!['A']
    } else if pc == 10 {
        seq!['B', 'b']
    } else {
        seq!['B']
    }
}

/// The pitch class of a natural note letter, if the character is one.
pub open spec fn base_value(c: char) -> Option<nat> {
    if c == 'C' {
        Some(0nat)
    } else if c == 'D' {
        Some(2nat)
    } else if c == 'E' {
        Some(4nat)
    } else if c == 'F' {
        Some(5nat)
    } else if c == 'G' {
        Some(7nat)
    } else if c == 'A' {
        Some(9nat)
    } else if c == 'B' {
        Some(11nat)
    } else {
        None
    }
}

/// Whether the letter has a flat spelling in the name table
/// (`Cb` and `Fb` do not exist).
pub open spec fn has_flat(c: char) -> bool {
    c == 'D' || c == 'E' || c == 'G' || c == 'A' || c == 'B'
}

/// Matches a note name at the head of `s`, longest name first: the pitch
/// class and the number of characters consumed, or nothing.
pub open spec fn name_parse(s: Seq<char>) -> Option<(nat, nat)> {
    if s.len() == 0 {
        None
    } else {
        match base_value(s[0]) {
            None => None,
            Some(b) => if s.len() >= 2 && s[1] == 'b' && has_flat(s[0]) {
                Some(((b - 1) as nat, 2nat))
            } else {
                Some((b, 1nat))
            },
        }
    }
}

/// The value that note text denotes: a name from the table, then an optional
/// octave written as decimal digits (absent means octave 0).
pub open spec fn parse_note_text(s: Seq<char>) -> Option<nat> {
    match name_parse(s) {
        None => None,
        Some(pk) => {
            let rest = s.subrange(pk.1 as int, s.len() as int);
            if rest.len() == 0 {
                Some(pk.0)
            } else if all_digits(rest) {
                Some(pk.0 + 12 * digits_val(rest))
            } else {
                None
            }
        },
    }
}

/// Whether parsing `s` must fail: the text denotes no value at all, or a
/// value too large for the encoding.
pub open spec fn parse_fails(s: Seq<char>) -> bool {
    match parse_note_text(s) {
        None => true,
        Some(v) => v > usize::MAX,
    }
}

/// The default display of a pitch: its name and its octave.
pub open spec fn note_text(v: nat) -> Seq<char> {
    pc_name(v % 12) + dec_digits(v / 12)
}

/// The alternate display of a pitch: its name alone.
pub open spec fn class_text(v: nat) -> Seq<char> {
    pc_name(v % 12)
}

/// The name literal of a pitch class.
fn pc_str(pc: usize) -> (r: &'static str)
    requires
        pc < 12,
    ensures
        r@ == pc_name(pc as nat),
{
    let r: &'static str = if pc == 0 {
        "C"
    } else if pc == 1 {
        "Db"
    } else if pc == 2 {
        "D"
    } else if pc == 3 {
        "Eb"
    } else if pc == 4 {
        "E"
    } else if pc == 5 {
        "F"
    } else if pc == 6 {
        "Gb"
    } else if pc == 7 {
        "G"
    } else if pc == 8 {
        "Ab"
    } else if pc == 9 {
        "A"
    } else if pc == 10 {
        "Bb"
    } else {
        "B"
    };
    proof {
        reveal_strlit("C");
        reveal_strlit("Db");
        reveal_strlit("D");
        reveal_strlit("Eb");
        reveal_strlit("E");
        reveal_strlit("F");
        reveal_strlit("Gb");
        reveal_strlit("G");
        reveal_strlit("Ab");
        reveal_strlit("A");
        reveal_strlit("Bb");
        reveal_strlit("B");
        assert(r@ =~= pc_name(pc as nat));
    }
    r
}

impl Note {
    /// Displays the pitch as `<name><octave>`, for example `Db3`.
    pub fn format(&self) -> (r: String)
        ensures
            r@ == note_text(self@),
    {
        let mut out = String::new();
        out.append(pc_str(self.value % 12));
        append_decimal(&mut out, self.value / 12);
        proof {
            assert(out@ =~= note_text(self@));
        }
        out
    }

    /// Displays the pitch class alone, without the octave, for example `Db`.
    pub fn format_class(&self) -> (r: String)
        ensures
            r@ == class_text(self@),
    {
        let mut out = String::new();
        out.append(pc_str(self.value % 12));
        proof {
            assert(out@ =~= class_text(self@));
        }
        out
    }

    /// Parses note text: a name from the table (two-character flats bind
    /// before one-character naturals) and an optional decimal octave.
    /// Returns a parse error exactly when the text denotes no value that
    /// fits the encoding.
    pub fn parse(s: &str) -> (r: Result<Note, Error>)
        ensures
            match r {
                Ok(n) => parse_note_text(s@) == Some(n@),
                Err(e) => e == Error::ParseError && parse_fails(s@),
            },
    {
        let len = s.unicode_len();
        if len == 0 {
            return Err(Error::ParseError);
        }
        let c0 = s.get_char(0);
        let base: usize = if c0 == 'C' {
            0
        } else if c0 == 'D' {
            2
        } else if c0 == 'E' {
            4
        } else if c0 == 'F' {
            5
        } else if c0 == 'G' {
            7
        } else if c0 == 'A' {
            9
        } else if c0 == 'B' {
            11
        } else {
            proof {
                assert(base_value(s@[0]) is None);
            }
            return Err(Error::ParseError);
        };
        let flat_ok = c0 == 'D' || c0 == 'E' || c0 == 'G' || c0 == 'A' || c0 == 'B';
        let two = len >= 2 && s.get_char(1) == 'b';
        let (pc, k): (usize, usize) = if two && flat_ok {
            (base - 1, 2)
        } else {
            (base, 1)
        };
        proof {
            assert(name_parse(s@) == Some((pc as nat, k as nat)));
        }
        if k == len {
            proof {
                assert(s@.subrange(k as int, s@.len() as int).len() == 0);
            }
            return Ok(Note { value: pc });
        }
        let ghost rest = s@.subrange(k as int, s@.len() as int);
        let mut oct: usize = 0;
        let mut i: usize = k;
        while i < len
            invariant
                s@.len() == len,
                k <= i <= len,
                k < len,
                pc < 12,
                name_parse(s@) == Some((pc as nat, k as nat)),
                rest == s@.subrange(k as int, s@.len() as int),
                all_digits(s@.subrange(k as int, i as int)),
                oct as nat == digits_val(s@.subrange(k as int, i as int)),
            decreases len - i,
        {
            let c = s.get_char(i);
            let cv = c as u32;
            if cv < 48 || cv > 57 {
                proof {
                    assert(rest[i - k] == s@[i as int]);
                    assert(!is_digit(rest[i - k]));
                    assert(!all_digits(rest));
                    assert(rest.len() > 0);
                    assert(parse_note_text(s@) is None);
                }
                return Err(Error::ParseError);
            }
            let d = (cv - 48) as usize;
            proof {
                let prefix = s@.subrange(k as int, i + 1);
                assert(prefix.drop_last() =~= s@.subrange(k as int, i as int));
                assert(prefix.last() == s@[i as int]);
                assert(is_digit(s@[i as int]));
                assert(digit_val(s@[i as int]) == d as nat);
                assert(digits_val(prefix) == oct as nat * 10 + d as nat);
                assert forall|j: int| 0 <= j < prefix.len() implies is_digit(
                    #[trigger] prefix[j],
                ) by {
                    if j < prefix.len() - 1 {
                        assert(prefix[j] == s@.subrange(k as int, i as int)[j]);
                    }
                }
            }
            let next_oct = match oct.checked_mul(10) {
                Some(m) => m.checked_add(d),
                None => None,
            };
            match next_oct {
                Some(v) => {
                    oct = v;
                    i += 1;
                },
                None => {
                    // the octave digits already denote a value past the
                    // encoding, so whatever follows them the text cannot
                    // denote a representable pitch
                    proof {
                        let prefix = s@.subrange(k as int, i + 1);
                        assert(oct as nat * 10 + d as nat > usize::MAX);
                        if all_digits(rest) {
                            lemma_digits_val_prefix(rest, i + 1 - k);
                            assert(rest.subrange(0, i + 1 - k) =~= prefix);
                            assert(digits_val(rest) >= digits_val(prefix));
                            assert(digits_val(prefix) > usize::MAX);
                            assert(12 * digits_val(rest) >= digits_val(rest));
                            assert(parse_note_text(s@) == Some(
                                pc as nat + 12 * digits_val(rest),
                            ));
                        } else {
                            assert(rest.len() > 0);
                            assert(parse_note_text(s@) is None);
                        }
                        assert(parse_fails(s@));
                    }
                    return Err(Error::ParseError);
                },
            }
        }
        proof {
            assert(rest =~= s@.subrange(k as int, i as int));
            assert(all_digits(rest));
            assert(digits_val(rest) == oct as nat);
            assert(rest.len() > 0);
            assert(parse_note_text(s@) == Some(pc as nat + 12 * digits_val(rest)));
        }
        let val = match oct.checked_mul(12) {
            Some(m) => m.checked_add(pc),
            None => None,
        };
        match val {
            Some(v) => {
                proof {
                    assert(v as nat == pc as nat + 12 * oct as nat);
                }
                Ok(Note { value: v })
            },
            None => {
                proof {
                    assert(pc as nat + 12 * oct as nat > usize::MAX);
                    assert(parse_fails(s@));
                }
                Err(Error::ParseError)
            },
        }
    }
}

/// Parsing a displayed pitch gives back the pitch: for every value `v`,
/// the text `note_text(v)` parses to exactly `v`.
pub proof fn lemma_parse_format_roundtrip(v: nat)
    ensures
        parse_note_text(note_text(v)) == Some(v),
{
    let pc = v % 12;
    let oct = v / 12;
    let name = pc_name(pc);
    let digits = dec_digits(oct);
    let s = note_text(v);
    lemma_dec_digits_are_digits(oct);
    lemma_digits_val_dec_digits(oct);
    assert(s == name + digits);
    assert(digits.len() >= 1);
    assert(s[0] == name[0]);
    assert(is_digit(digits[0]));
    assert('b' as u32 == 98);
    assert(digits[0] != 'b');
    if pc == 0 {
        assert(name =~= seq!['C']);
        assert(!has_flat(s[0]));
        assert(name_parse(s) == Some((pc, name.len())));
    } else if pc == 1 {
        assert(name =~= seq!['D', 'b']);
        assert(s[1] == 'b');
        assert(name_parse(s) == Some((pc, name.len())));
    } else if pc == 2 {
        assert(name =~= seq!['D']);
        assert(s[1] == digits[0]);
        assert(name_parse(s) == Some((pc, name.len())));
    } else if pc == 3 {
        assert(name =~= seq!['E', 'b']);
        assert(s[1] == 'b');
        assert(name_parse(s) == Some((pc, name.len())));
    } else if pc == 4 {
        assert(name =~= seq!['E']);
        assert(s[1] == digits[0]);
        assert(name_parse(s) == Some((pc, name.len())));
    } else if pc == 5 {
        assert(name =~= seq!['F']);
        assert(!has_flat(s[0]));
        assert(name_parse(s) == Some((pc, name.len())));
    } else if pc == 6 {
        assert(name =~= seq!['G', 'b']);
        assert(s[1] == 'b');
        assert(name_parse(s) == Some((pc, name.len())));
    } else if pc == 7 {
        assert(name =~= seq!['G']);
        assert(s[1] == digits[0]);
        assert(name_parse(s) == Some((pc, name.len())));
    } else if pc == 8 {
        assert(name =~= seq!['A', 'b']);
        assert(s[1] == 'b');
        assert(name_parse(s) == Some((pc, name.len())));
    } else if pc == 9 {
        assert(name =~= seq!['A']);
        assert(s[1] == digits[0]);
        assert(name_parse(s) == Some((pc, name.len())));
    } else if pc == 10 {
        assert(name =~= seq!['B', 'b']);
        assert(s[1] == 'b');
        assert(name_parse(s) == Some((pc, name.len())));
    } else {
        assert(name =~= seq!['B']);
        assert(s[1] == digits[0]);
        assert(name_parse(s) == Some((pc, name.len())));
    }
    let rest = s.subrange(name.len() as int, s.len() as int);
    assert(rest =~= digits);
    assert(rest.len() > 0);
    assert(digits_val(rest) == oct);
    assert(parse_note_text(s) == Some(pc + 12 * oct));
    assert(pc + 12 * oct == v) by {
        vstd::arithmetic::div_mod::lemma_fundamental_div_mod(v as int, 12);
    }
}

/// A cursor over an infinite ascending run of pitches.  The first call to
/// [`NoteIter::next`] yields the pitch the cursor was started from; every
/// later call yields one semitone higher.
pub struct NoteIter {
    note: Note,
    first: bool,
}

impl NoteIter {
    /// The value the next call to [`NoteIter::next`] will yield.
    pub closed spec fn next_value(self) -> nat {
        if self.first {
            self.note@
        } else {
            self.note@ + 1
        }
    }

    /// Yields the next pitch of the ascent and advances the cursor.
    pub fn next(&mut self) -> (r: Note)
        requires
            old(self).next_value() <= usize::MAX,
        ensures
            r@ == old(self).next_value(),
            final(self).next_value() == old(self).next_value() + 1,
    {
        if self.first {
            self.first = false;
            self.note
        } else {
            self.note = Note { value: self.note.value + 1 };
            self.note
        }
    }
}

} // verus!
