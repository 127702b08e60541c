//! Strings, instruments, fretboard locations and ASCII fret diagrams.
//!
//! An instrument is built from a tuning — open-string pitches in ascending
//! order — and a fret count.  Internally the strings are kept in descending
//! pitch order, so string number 1 (the first internal string) is the
//! highest-pitched one.  A location pairs a 1-based string number with a
//! fret number, fret 0 being the open string.

use crate::note::lemma_note_eq;
use crate::note::Note;
use crate::text::append_decimal;
use crate::text::dec_digits;
use vstd::prelude::*;
use vstd::string::StringExecFns;

verus! {

/// A single guitar string, holding the note values for each of its frets.
/// Index 0 is the open string.
pub struct GuitarString {
    pub frets: Vec<Note>,
}

impl View for GuitarString {
    type V = Seq<nat>;

    open spec fn view(&self) -> Seq<nat> {
        self.frets.deep_view()
    }
}

impl DeepView for GuitarString {
    type V = Seq<nat>;

    open spec fn deep_view(&self) -> Seq<nat> {
        self.view()
    }
}

impl GuitarString {
    /// Builds a string from its open pitch: the open pitch followed by one
    /// pitch per fret, each one semitone above the last.
    pub fn new(open_note: Note, num_frets: usize) -> (r: GuitarString)
        requires
            num_frets < usize::MAX,
            open_note@ + num_frets <= usize::MAX,
        ensures
            r@ == Seq::new(num_frets as nat + 1, |f: int| (open_note@ + f) as nat),
    {
        let frets = open_note.ascent_prefix(num_frets + 1);
        let r = GuitarString { frets };
        proof {
            assert(r@ =~= Seq::new(num_frets as nat + 1, |f: int| (open_note@ + f) as nat));
        }
        r
    }
}

/// The fret values of every string of an instrument built from `tuning`
/// (ascending open pitches) with `num_frets` frets: the tuning reversed,
/// each open pitch expanded to its `num_frets + 1` fret pitches.
pub open spec fn strings_of_tuning(tuning: Seq<nat>, num_frets: nat) -> Seq<Seq<nat>> {
    Seq::new(
        tuning.len(),
        |i: int| Seq::new(num_frets + 1, |f: int| (tuning[tuning.len() - 1 - i] + f) as nat),
    )
}

/// A guitar with any number of strings, highest-pitched string first.
pub struct Guitar {
    pub strings: Vec<GuitarString>,
}

impl View for Guitar {
    type V = Seq<Seq<nat>>;

    open spec fn view(&self) -> Seq<Seq<nat>> {
        self.strings.deep_view()
    }
}

impl Guitar {
    /// Creates a new guitar.
    ///
    /// The number of strings is determined by the length of the `tuning`
    /// vector, which holds the open pitches in ascending order; the guitar
    /// stores them reversed, highest-pitched string first.
    pub fn new(num_frets: usize, tuning: Vec<Note>) -> (r: Guitar)
        requires
            num_frets < usize::MAX,
            forall|i: int|
                0 <= i < tuning.deep_view().len() ==> #[trigger] tuning.deep_view()[i]
                    + num_frets <= usize::MAX,
        ensures
            r@ == strings_of_tuning(tuning.deep_view(), num_frets as nat),
    {
        let ghost target = strings_of_tuning(tuning.deep_view(), num_frets as nat);
        let mut strings: Vec<GuitarString> = Vec::new();
        let mut i: usize = tuning.len();
        while i > 0
            invariant
                i <= tuning@.len(),
                num_frets < usize::MAX,
                forall|j: int|
                    0 <= j < tuning.deep_view().len() ==> #[trigger] tuning.deep_view()[j]
                        + num_frets <= usize::MAX,
                target == strings_of_tuning(tuning.deep_view(), num_frets as nat),
                strings.deep_view().len() == tuning@.len() - i,
                forall|j: int|
                    0 <= j < strings.deep_view().len() ==> #[trigger] strings.deep_view()[j]
                        == target[j],
            decreases i,
        {
            i -= 1;
            let open_note = tuning[i];
            proof {
                assert(tuning.deep_view()[i as int] == open_note@);
            }
            let ghost prev = strings.deep_view();
            let gs = GuitarString::new(open_note, num_frets);
            strings.push(gs);
            proof {
                let j = prev.len() as int;
                assert(strings.deep_view() =~= prev.push(gs@));
                assert(gs@ =~= target[j]);
            }
        }
        let r = Guitar { strings };
        proof {
            assert(r@ =~= target);
        }
        r
    }
}

/// The locations of `note` on the string with fret values `frets` and
/// 1-based number `string_number`, from fret `f` on, in ascending fret
/// order.
pub open spec fn string_matches(frets: Seq<nat>, note: nat, string_number: nat, f: nat) -> Seq<
    (nat, nat),
>
    decreases frets.len() - f,
{
    if f >= frets.len() {
        Seq::empty()
    } else {
        let tail = string_matches(frets, note, string_number, f + 1);
        if frets[f as int] == note {
            seq![(string_number, f)] + tail
        } else {
            tail
        }
    }
}

/// The locations of `note` on the strings from index `s` on, strings in
/// order, frets ascending within a string.
pub open spec fn locate_from(strings: Seq<Seq<nat>>, note: nat, s: nat) -> Seq<(nat, nat)>
    decreases strings.len() - s,
{
    if s >= strings.len() {
        Seq::empty()
    } else {
        string_matches(strings[s as int], note, s + 1, 0) + locate_from(strings, note, s + 1)
    }
}

/// Every location of `note` on an instrument: 1-based string numbers with
/// fret numbers, strings in internal (descending pitch) order, frets
/// ascending within a string.
pub open spec fn locate_spec(strings: Seq<Seq<nat>>, note: nat) -> Seq<(nat, nat)> {
    locate_from(strings, note, 0)
}

proof fn lemma_string_matches_sound(frets: Seq<nat>, note: nat, string_number: nat, f: nat, k: int)
    requires
        f <= frets.len(),
        0 <= k < string_matches(frets, note, string_number, f).len(),
    ensures
        ({
            let p = string_matches(frets, note, string_number, f)[k];
            p.0 == string_number && f <= p.1 < frets.len() && frets[p.1 as int] == note
        }),
    decreases frets.len() - f,
{
    if f < frets.len() {
        let tail = string_matches(frets, note, string_number, f + 1);
        if frets[f as int] == note {
            if k > 0 {
                lemma_string_matches_sound(frets, note, string_number, f + 1, k - 1);
            }
        } else {
            lemma_string_matches_sound(frets, note, string_number, f + 1, k);
        }
    }
}

proof fn lemma_locate_from_sound(strings: Seq<Seq<nat>>, note: nat, s: nat, k: int)
    requires
        s <= strings.len(),
        0 <= k < locate_from(strings, note, s).len(),
    ensures
        ({
            let p = locate_from(strings, note, s)[k];
            s < p.0 <= strings.len() && p.1 < strings[p.0 - 1].len() && strings[p.0 - 1][p.1 as int]
                == note
        }),
    decreases strings.len() - s,
{
    if s < strings.len() {
        let head = string_matches(strings[s as int], note, s + 1, 0);
        if k < head.len() {
            lemma_string_matches_sound(strings[s as int], note, s + 1, 0, k);
        } else {
            lemma_locate_from_sound(strings, note, s + 1, k - head.len());
        }
    }
}

/// Locate soundness: every returned pair `(s, f)` points at a fret of
/// string number `s` that holds the note searched for.
pub proof fn lemma_locate_sound(strings: Seq<Seq<nat>>, note: nat, k: int)
    requires
        0 <= k < locate_spec(strings, note).len(),
    ensures
        ({
            let p = locate_spec(strings, note)[k];
            1 <= p.0 <= strings.len() && p.1 < strings[p.0 - 1].len() && strings[p.0 - 1][p.1 as int]
                == note
        }),
{
    lemma_locate_from_sound(strings, note, 0, k);
}

proof fn lemma_string_matches_complete(
    frets: Seq<nat>,
    note: nat,
    string_number: nat,
    f0: nat,
    f: int,
)
    requires
        f0 <= f < frets.len(),
        frets[f] == note,
    ensures
        string_matches(frets, note, string_number, f0).contains((string_number, f as nat)),
    decreases frets.len() - f0,
{
    let whole = string_matches(frets, note, string_number, f0);
    let tail = string_matches(frets, note, string_number, f0 + 1);
    if f0 == f {
        assert(whole[0] == (string_number, f as nat));
    } else {
        lemma_string_matches_complete(frets, note, string_number, f0 + 1, f);
        let i = choose|i: int| 0 <= i < tail.len() && tail[i] == (string_number, f as nat);
        if frets[f0 as int] == note {
            assert(whole[i + 1] == (string_number, f as nat));
        } else {
            assert(whole[i] == (string_number, f as nat));
        }
    }
}

proof fn lemma_locate_from_complete(strings: Seq<Seq<nat>>, note: nat, s0: nat, s: int, f: int)
    requires
        s0 <= s < strings.len(),
        0 <= f < strings[s].len(),
        strings[s][f] == note,
    ensures
        locate_from(strings, note, s0).contains(((s + 1) as nat, f as nat)),
    decreases strings.len() - s0,
{
    let whole = locate_from(strings, note, s0);
    let head = string_matches(strings[s0 as int], note, s0 + 1, 0);
    if s0 == s {
        lemma_string_matches_complete(strings[s as int], note, s0 + 1, 0, f);
        let i = choose|i: int| 0 <= i < head.len() && head[i] == ((s + 1) as nat, f as nat);
        assert(whole[i] == ((s + 1) as nat, f as nat));
    } else {
        lemma_locate_from_complete(strings, note, s0 + 1, s, f);
        let rest = locate_from(strings, note, s0 + 1);
        let i = choose|i: int| 0 <= i < rest.len() && rest[i] == ((s + 1) as nat, f as nat);
        assert(whole[head.len() + i] == ((s + 1) as nat, f as nat));
    }
}

/// Locate completeness: if the string at internal index `s` holds the note
/// at fret `f`, then the pair `(s + 1, f)` is among the located pairs.
pub proof fn lemma_locate_complete(strings: Seq<Seq<nat>>, note: nat, s: int, f: int)
    requires
        0 <= s < strings.len(),
        0 <= f < strings[s].len(),
        strings[s][f] == note,
    ensures
        locate_spec(strings, note).contains(((s + 1) as nat, f as nat)),
{
    lemma_locate_from_complete(strings, note, 0, s, f);
}

impl Guitar {
    /// Returns the fretboard locations of the given note, strings in
    /// internal order (highest-pitched first, 1-based numbering), frets
    /// ascending within each string.  Equality is strict pitch equality,
    /// not pitch-class equivalence.
    pub fn locations(&self, note: Note) -> (r: Vec<FretboardLocation>)
        ensures
            r.deep_view() == locate_spec(self@, note@),
    {
        let mut out: Vec<FretboardLocation> = Vec::new();
        let mut s: usize = 0;
        while s < self.strings.len()
            invariant
                s <= self.strings@.len(),
                out.deep_view() + locate_from(self@, note@, s as nat) == locate_spec(
                    self@,
                    note@,
                ),
            decreases self.strings@.len() - s,
        {
            let frets_len = self.strings[s].frets.len();
            let mut f: usize = 0;
            proof {
                assert(self@[s as int].len() == frets_len);
            }
            while f < frets_len
                invariant
                    s < self.strings@.len(),
                    self.strings@.len() <= usize::MAX,
                    f <= frets_len,
                    frets_len == self@[s as int].len(),
                    out.deep_view() + string_matches(self@[s as int], note@, s as nat + 1, f as nat)
                        + locate_from(self@, note@, s as nat + 1) == locate_spec(self@, note@),
                decreases frets_len - f,
            {
                let ghost prev = out.deep_view();
                let ghost sv = self@[s as int];
                let ghost sm_f = string_matches(sv, note@, s as nat + 1, f as nat);
                let ghost sm_f1 = string_matches(sv, note@, s as nat + 1, f as nat + 1);
                let matched = self.strings[s].frets[f] == note;
                proof {
                    lemma_note_eq(self.strings@[s as int].frets@[f as int], note);
                    assert(sv[f as int] == self.strings@[s as int].frets@[f as int]@);
                }
                if matched {
                    out.push(FretboardLocation::new(s + 1, f));
                    proof {
                        assert(sm_f == seq![(s as nat + 1, f as nat)] + sm_f1);
                        assert(out.deep_view() =~= prev.push((s as nat + 1, f as nat)));
                        assert(out.deep_view() + sm_f1 =~= prev + sm_f);
                        assert(out.deep_view() + sm_f1 + locate_from(self@, note@, s as nat + 1)
                            =~= prev + sm_f + locate_from(self@, note@, s as nat + 1));
                    }
                } else {
                    proof {
                        assert(sm_f == sm_f1);
                    }
                }
                f += 1;
            }
            proof {
                assert(string_matches(self@[s as int], note@, s as nat + 1, frets_len as nat)
                    =~= Seq::<(nat, nat)>::empty());
                assert(out.deep_view() + string_matches(
                    self@[s as int],
                    note@,
                    s as nat + 1,
                    frets_len as nat,
                ) =~= out.deep_view());
                assert(locate_from(self@, note@, s as nat) == string_matches(
                    self@[s as int],
                    note@,
                    s as nat + 1,
                    0,
                ) + locate_from(self@, note@, s as nat + 1));
            }
            s += 1;
        }
        proof {
            assert(locate_from(self@, note@, s as nat) =~= Seq::<(nat, nat)>::empty());
            assert(out.deep_view() =~= out.deep_view() + locate_from(self@, note@, s as nat));
        }
        out
    }
}

/// Standard, six-string guitar tuning: E2 A2 D3 G3 B3 E4, lowest first.
pub fn standard_tuning() -> (r: Vec<Note>)
    ensures
        r.deep_view() == seq![28nat, 33nat, 38nat, 43nat, 47nat, 52nat],
{
    let mut v: Vec<Note> = Vec::new();
    v.push(Note::new(28));
    v.push(Note::new(33));
    v.push(Note::new(38));
    v.push(Note::new(43));
    v.push(Note::new(47));
    v.push(Note::new(52));
    proof {
        assert(v.deep_view() =~= seq![28nat, 33nat, 38nat, 43nat, 47nat, 52nat]);
    }
    v
}

/// A location on a fretboard: a 1-based string number and a fret number.
/// A fret number of 0 indicates an open string.
#[derive(Debug, PartialEq, Eq, Structural, Clone, Copy)]
pub struct FretboardLocation {
    string_number: usize,
    fret_number: usize,
}

impl View for FretboardLocation {
    type V = (nat, nat);

    closed spec fn view(&self) -> (nat, nat) {
        (self.string_number as nat, self.fret_number as nat)
    }
}

impl DeepView for FretboardLocation {
    type V = (nat, nat);

    open spec fn deep_view(&self) -> (nat, nat) {
        self.view()
    }
}

/// The display text of a location: `String <s>, fret <f>` for a fretted
/// note, `Open <s> string` for an open one.
pub open spec fn location_text(string_number: nat, fret_number: nat) -> Seq<char> {
    if fret_number > 0 {
        "String "@ + dec_digits(string_number) + ", fret "@ + dec_digits(fret_number)
    } else {
        "Open "@ + dec_digits(string_number) + " string"@
    }
}

impl FretboardLocation {
    /// Constructs the location of string `string_number` at `fret_number`.
    pub fn new(string_number: usize, fret_number: usize) -> (r: FretboardLocation)
        ensures
            r@ == (string_number as nat, fret_number as nat),
    {
        FretboardLocation { string_number, fret_number }
    }

    /// Displays the location in words.
    pub fn format(&self) -> (r: String)
        ensures
            r@ == location_text(self@.0, self@.1),
    {
        let mut out = String::new();
        if self.fret_number > 0 {
            out.append("String ");
            append_decimal(&mut out, self.string_number);
            out.append(", fret ");
            append_decimal(&mut out, self.fret_number);
        } else {
            out.append("Open ");
            append_decimal(&mut out, self.string_number);
            out.append(" string");
        }
        proof {
            assert(out@ =~= location_text(self@.0, self@.1));
        }
        out
    }
}

/// The size of a fret diagram.
#[derive(Debug, PartialEq, Eq, Structural, Clone, Copy)]
pub enum Size {
    Small,
    Medium,
    Large,
}

/// The larger of two numbers.
pub open spec fn spec_max(a: nat, b: nat) -> nat {
    if a >= b {
        a
    } else {
        b
    }
}

/// The highest fret row a diagram shows: at least five, and enough to reach
/// every location.
pub open spec fn highest_fret(locs: Seq<(nat, nat)>) -> nat
    decreases locs.len(),
{
    if locs.len() == 0 {
        5
    } else {
        spec_max(highest_fret(locs.drop_last()), locs.last().1)
    }
}

/// Whether some location names exactly this string and fret.
pub open spec fn has_loc(locs: Seq<(nat, nat)>, string_number: nat, fret: nat) -> bool {
    exists|k: int| 0 <= k < locs.len() && locs[k] == (string_number, fret)
}

/// The cell symbol: a marked string or an unmarked one.
pub open spec fn cell_char(locs: Seq<(nat, nat)>, string_number: nat, fret: nat) -> char {
    if has_loc(locs, string_number, fret) {
        '*'
    } else {
        '|'
    }
}

/// The six cell symbols of one fret row, string 6 leftmost, string 1
/// rightmost.
pub open spec fn row_cells(locs: Seq<(nat, nat)>, fret: nat) -> Seq<char> {
    seq![
        cell_char(locs, 6, fret),
        cell_char(locs, 5, fret),
        cell_char(locs, 4, fret),
        cell_char(locs, 3, fret),
        cell_char(locs, 2, fret),
        cell_char(locs, 1, fret),
    ]
}

/// The Small rows for frets 1 through `fret`: six cells, a space, the fret
/// number, a newline.
pub open spec fn small_rows(locs: Seq<(nat, nat)>, fret: nat) -> Seq<char>
    decreases fret,
{
    if fret == 0 {
        Seq::empty()
    } else {
        small_rows(locs, (fret - 1) as nat) + row_cells(locs, fret) + seq![' '] + dec_digits(fret)
            + seq!['\n']
    }
}

/// The Medium rows for frets 1 through `fret`: six cells, two spaces, the
/// fret number, then a separator line.
pub open spec fn medium_rows(locs: Seq<(nat, nat)>, fret: nat) -> Seq<char>
    decreases fret,
{
    if fret == 0 {
        Seq::empty()
    } else {
        medium_rows(locs, (fret - 1) as nat) + row_cells(locs, fret) + seq![' ', ' '] + dec_digits(
            fret,
        ) + "\n------\n"@
    }
}

/// One Large fret row: a blank grid line, the six spaced cells with the
/// fret number, and a fret-wire line.
pub open spec fn large_row(locs: Seq<(nat, nat)>, fret: nat) -> Seq<char> {
    " | | | | | | \n"@ + seq![
        ' ',
        cell_char(locs, 6, fret),
        ' ',
        cell_char(locs, 5, fret),
        ' ',
        cell_char(locs, 4, fret),
        ' ',
        cell_char(locs, 3, fret),
        ' ',
        cell_char(locs, 2, fret),
        ' ',
        cell_char(locs, 1, fret),
        ' ',
        ' ',
    ] + dec_digits(fret) + seq!['\n'] + " |-|-|-|-|-| \n"@
}

/// The Large rows for frets 1 through `fret`.
pub open spec fn large_rows(locs: Seq<(nat, nat)>, fret: nat) -> Seq<char>
    decreases fret,
{
    if fret == 0 {
        Seq::empty()
    } else {
        large_rows(locs, (fret - 1) as nat) + large_row(locs, fret)
    }
}

/// The full text of a diagram: a header for the size, then one row (or row
/// block) per fret from 1 up to the highest shown fret.
pub open spec fn diagram_text(locs: Seq<(nat, nat)>, size: Size) -> Seq<char> {
    match size {
        Size::Small => "______  \n"@ + small_rows(locs, highest_fret(locs)),
        Size::Medium => "______\n------\n"@ + medium_rows(locs, highest_fret(locs)),
        Size::Large => "_|_|_|_|_|_|_\n-|-|-|-|-|-|-\n"@ + large_rows(locs, highest_fret(locs)),
    }
}

/// Rendering is deterministic: the diagram text is a function of the
/// locations and the size alone, so equal inputs yield identical text.
pub proof fn lemma_render_deterministic(
    a: Seq<(nat, nat)>,
    b: Seq<(nat, nat)>,
    size_a: Size,
    size_b: Size,
)
    requires
        a == b,
        size_a == size_b,
    ensures
        diagram_text(a, size_a) == diagram_text(b, size_b),
{
}

/// With no locations the diagram spans exactly five fret rows, and every
/// cell of every size shows an unmarked string.
pub proof fn lemma_empty_diagram(locs: Seq<(nat, nat)>)
    requires
        locs.len() == 0,
    ensures
        highest_fret(locs) == 5,
        forall|string_number: nat, fret: nat|
            #[trigger] cell_char(locs, string_number, fret) == '|',
{
    assert forall|string_number: nat, fret: nat|
        #[trigger] cell_char(locs, string_number, fret) == '|' by {
        assert(!has_loc(locs, string_number, fret));
    }
}

/// Whether some location of `locs` names exactly this string and fret.
fn has_location(locs: &Vec<FretboardLocation>, string_number: usize, fret: usize) -> (r: bool)
    ensures
        r == has_loc(locs.deep_view(), string_number as nat, fret as nat),
{
    let mut k: usize = 0;
    while k < locs.len()
        invariant
            k <= locs@.len(),
            forall|j: int|
                0 <= j < k ==> locs.deep_view()[j] != (string_number as nat, fret as nat),
        decreases locs@.len() - k,
    {
        if locs[k].string_number == string_number && locs[k].fret_number == fret {
            proof {
                assert(locs.deep_view()[k as int] == (string_number as nat, fret as nat));
            }
            return true;
        }
        k += 1;
    }
    false
}

/// The one-character cell symbol for this string and fret.
fn cell_str(locs: &Vec<FretboardLocation>, string_number: usize, fret: usize) -> (r: &'static str)
    ensures
        r@ == seq![cell_char(locs.deep_view(), string_number as nat, fret as nat)],
{
    let r: &'static str = if has_location(locs, string_number, fret) {
        "*"
    } else {
        "|"
    };
    proof {
        reveal_strlit("*");
        reveal_strlit("|");
        assert(r@ =~= seq![cell_char(locs.deep_view(), string_number as nat, fret as nat)]);
    }
    r
}

/// Appends the six cell symbols of one fret row.
fn append_row_cells(out: &mut String, locs: &Vec<FretboardLocation>, fret: usize)
    ensures
        final(out)@ == old(out)@ + row_cells(locs.deep_view(), fret as nat),
{
    out.append(cell_str(locs, 6, fret));
    out.append(cell_str(locs, 5, fret));
    out.append(cell_str(locs, 4, fret));
    out.append(cell_str(locs, 3, fret));
    out.append(cell_str(locs, 2, fret));
    out.append(cell_str(locs, 1, fret));
    proof {
        assert(out@ =~= old(out)@ + row_cells(locs.deep_view(), fret as nat));
    }
}

/// Appends one Large fret row: the blank grid line, the spaced cells and
/// fret number, and the fret-wire line.
fn append_large_row(out: &mut String, locs: &Vec<FretboardLocation>, fret: usize)
    ensures
        final(out)@ == old(out)@ + large_row(locs.deep_view(), fret as nat),
{
    out.append(" | | | | | | \n");
    let ghost mid_start = out@;
    out.append(" ");
    out.append(cell_str(locs, 6, fret));
    out.append(" ");
    out.append(cell_str(locs, 5, fret));
    out.append(" ");
    out.append(cell_str(locs, 4, fret));
    out.append(" ");
    out.append(cell_str(locs, 3, fret));
    out.append(" ");
    out.append(cell_str(locs, 2, fret));
    out.append(" ");
    out.append(cell_str(locs, 1, fret));
    out.append("  ");
    proof {
        reveal_strlit(" ");
        reveal_strlit("  ");
        let dv = locs.deep_view();
        assert(" "@ =~= seq![' ']);
        assert("  "@ =~= seq![' ', ' ']);
        assert(out@ =~= mid_start + seq![
            ' ',
            cell_char(dv, 6, fret as nat),
            ' ',
            cell_char(dv, 5, fret as nat),
            ' ',
            cell_char(dv, 4, fret as nat),
            ' ',
            cell_char(dv, 3, fret as nat),
            ' ',
            cell_char(dv, 2, fret as nat),
            ' ',
            cell_char(dv, 1, fret as nat),
            ' ',
            ' ',
        ]);
    }
    append_decimal(out, fret);
    out.append("\n");
    out.append(" |-|-|-|-|-| \n");
    proof {
        reveal_strlit("\n");
        assert("\n"@ =~= seq!['\n']);
        assert(out@ =~= old(out)@ + large_row(locs.deep_view(), fret as nat));
    }
}

/// The highest fret a diagram of `locs` must show.
fn highest(locs: &Vec<FretboardLocation>) -> (r: usize)
    ensures
        r as nat == highest_fret(locs.deep_view()),
{
    let mut h: usize = 5;
    let mut k: usize = 0;
    proof {
        assert(locs.deep_view().subrange(0, 0) =~= Seq::<(nat, nat)>::empty());
    }
    while k < locs.len()
        invariant
            k <= locs@.len(),
            h as nat == highest_fret(locs.deep_view().subrange(0, k as int)),
        decreases locs@.len() - k,
    {
        let fr = locs[k].fret_number;
        if fr > h {
            h = fr;
        }
        k += 1;
        proof {
            let dv = locs.deep_view();
            assert(dv.subrange(0, k as int).drop_last() =~= dv.subrange(0, k - 1));
            assert(dv.subrange(0, k as int).last() == dv[k - 1]);
            assert(dv[k - 1].1 == fr as nat);
        }
    }
    proof {
        assert(locs.deep_view().subrange(0, locs.deep_view().len() as int) =~= locs.deep_view());
    }
    h
}

/// An ASCII fret diagram of a set of locations, in one of three sizes.
/// Strings are drawn as columns, string 6 leftmost and string 1 rightmost;
/// open-string locations (fret 0) are not drawn inside the grid.
pub struct FretDiagram {
    locations: Vec<FretboardLocation>,
    size: Size,
}

impl FretDiagram {
    /// The locations the diagram shows.
    pub closed spec fn spec_locations(self) -> Seq<(nat, nat)> {
        self.locations.deep_view()
    }

    /// The size the diagram is drawn at.
    pub closed spec fn spec_size(self) -> Size {
        self.size
    }

    /// Constructs a diagram of the given locations at the given size.
    pub fn new(locations: Vec<FretboardLocation>, size: Size) -> (r: FretDiagram)
        ensures
            r.spec_locations() == locations.deep_view(),
            r.spec_size() == size,
    {
        FretDiagram { locations, size }
    }

    /// Draws the diagram.  The text is a function of the locations and the
    /// size alone; the diagram itself is not changed.
    pub fn render(&self) -> (r: String)
        ensures
            r@ == diagram_text(self.spec_locations(), self.spec_size()),
    {
        let locs = &self.locations;
        let ghost dv = locs.deep_view();
        let h = highest(locs);
        let mut out = String::new();
        proof {
            reveal_strlit(" ");
            reveal_strlit("  ");
            reveal_strlit("\n");
            assert(" "@ =~= seq![' ']);
            assert("  "@ =~= seq![' ', ' ']);
            assert("\n"@ =~= seq!['\n']);
        }
        match self.size {
            Size::Small => {
                out.append("______  \n");
                let mut fret: usize = 0;
                while fret < h
                    invariant
                        fret <= h,
                        h as nat == highest_fret(dv),
                        dv == locs.deep_view(),
                        locs == &self.locations,
                        out@ == "______  \n"@ + small_rows(dv, fret as nat),
                    decreases h - fret,
                {
                    fret += 1;
                    append_row_cells(&mut out, locs, fret);
                    out.append(" ");
                    append_decimal(&mut out, fret);
                    out.append("\n");
                    proof {
                        reveal_strlit(" ");
                        reveal_strlit("\n");
                        assert(" "@ =~= seq![' ']);
                        assert("\n"@ =~= seq!['\n']);
                        assert(out@ =~= "______  \n"@ + small_rows(dv, fret as nat));
                    }
                }
            },
            Size::Medium => {
                out.append("______\n------\n");
                let mut fret: usize = 0;
                while fret < h
                    invariant
                        fret <= h,
                        h as nat == highest_fret(dv),
                        dv == locs.deep_view(),
                        locs == &self.locations,
                        out@ == "______\n------\n"@ + medium_rows(dv, fret as nat),
                    decreases h - fret,
                {
                    fret += 1;
                    append_row_cells(&mut out, locs, fret);
                    out.append("  ");
                    append_decimal(&mut out, fret);
                    out.append("\n------\n");
                    proof {
                        reveal_strlit("  ");
                        assert("  "@ =~= seq![' ', ' ']);
                        assert(out@ =~= "______\n------\n"@ + medium_rows(dv, fret as nat));
                    }
                }
            },
            Size::Large => {
                out.append("_|_|_|_|_|_|_\n-|-|-|-|-|-|-\n");
                let mut fret: usize = 0;
                while fret < h
                    invariant
                        fret <= h,
                        h as nat == highest_fret(dv),
                        dv == locs.deep_view(),
                        locs == &self.locations,
                        out@ == "_|_|_|_|_|_|_\n-|-|-|-|-|-|-\n"@ + large_rows(dv, fret as nat),
                    decreases h - fret,
                {
                    fret += 1;
                    append_large_row(&mut out, locs, fret);
                    proof {
                        assert(out@ =~= "_|_|_|_|_|_|_\n-|-|-|-|-|-|-\n"@ + large_rows(
                            dv,
                            fret as nat,
                        ));
                    }
                }
            },
        }
        out
    }
}

/// The report the `find` command prints for a note: the Small diagram of
/// its locations followed by a final newline, or the fixed message when the
/// note occurs nowhere on the instrument.
pub fn find_report(note: Note, num_frets: usize, tuning: Vec<Note>) -> (r: String)
    requires
        num_frets < usize::MAX,
        forall|i: int|
            0 <= i < tuning.deep_view().len() ==> #[trigger] tuning.deep_view()[i] + num_frets
                <= usize::MAX,
    ensures
        ({
            let locs = locate_spec(strings_of_tuning(tuning.deep_view(), num_frets as nat), note@);
            if locs.len() == 0 {
                r@ == "No occurences.\n"@
            } else {
                r@ == diagram_text(locs, Size::Small) + seq!['\n']
            }
        }),
{
    let guitar = Guitar::new(num_frets, tuning);
    let locations = guitar.locations(note);
    proof {
        assert(locations.deep_view().len() == locations@.len());
    }
    if locations.len() > 0 {
        let diagram = FretDiagram::new(locations, Size::Small);
        let mut out = diagram.render();
        out.append("\n");
        proof {
            reveal_strlit("\n");
            assert("\n"@ =~= seq!['\n']);
        }
        out
    } else {
        String::from_str("No occurences.\n")
    }
}

} // verus!
