//! Notes in scientific pitch notation (`C#5`, `Dbb4`, `e-1`) and their note numbers.
use vstd::prelude::*;
use crate::error::{MusicError, NotePart};
use crate::interval::{semitone_table, render_interval, Interval};
use crate::text::{
    all_digits, decimal, digits_value, fits_isize, is_digit, lemma_nat_digits, nat_digits,
    parse_digits, push_char, push_decimal, signed,
};

verus! {

/// A pitch as a letter, a net count of sharps (negative for flats) and an octave.
pub struct PitchModel {
    pub letter: char,
    pub accidentals: int,
    pub octave: int,
}

pub open spec fn is_upper_letter(c: char) -> bool {
    c == 'A' || c == 'B' || c == 'C' || c == 'D' || c == 'E' || c == 'F' || c == 'G'
}

pub open spec fn is_note_letter(c: char) -> bool {
    is_upper_letter(c) || c == 'a' || c == 'b' || c == 'c' || c == 'd' || c == 'e' || c == 'f'
        || c == 'g'
}

pub open spec fn upper_letter(c: char) -> char {
    if c == 'a' { 'A' }
    else if c == 'b' { 'B' }
    else if c == 'c' { 'C' }
    else if c == 'd' { 'D' }
    else if c == 'e' { 'E' }
    else if c == 'f' { 'F' }
    else if c == 'g' { 'G' }
    else { c }
}

/// Semitones from C up to the natural note of an upper-case letter.
pub open spec fn letter_base(c: char) -> int {
    if c == 'C' { 0 }
    else if c == 'D' { 2 }
    else if c == 'E' { 4 }
    else if c == 'F' { 5 }
    else if c == 'G' { 7 }
    else if c == 'A' { 9 }
    else { 11 }
}

pub open spec fn valid_pitch(p: PitchModel) -> bool {
    is_upper_letter(p.letter)
}

pub open spec fn pitch_fits(p: PitchModel) -> bool {
    fits_isize(p.accidentals) && fits_isize(p.octave)
}

/// The note number of a pitch: middle C (`C4`) is 60.
pub open spec fn pitch_number(p: PitchModel) -> int {
    letter_base(p.letter) + 12 * p.octave + 12 + p.accidentals
}

pub open spec fn is_accidental(c: char) -> bool {
    c == '#' || c == 'b'
}

/// Each `#` counts +1 and each `b` counts -1.
pub open spec fn accidental_sum(s: Seq<char>) -> int
    decreases s.len(),
{
    if s.len() == 0 {
        0
    } else {
        accidental_sum(s.drop_last()) + if s.last() == '#' {
            1int
        } else if s.last() == 'b' {
            -1int
        } else {
            0int
        }
    }
}

/// The end of the run of accidentals that starts at `i`.
pub open spec fn run_end(s: Seq<char>, i: int) -> int
    decreases s.len() - i,
{
    if 0 <= i < s.len() && is_accidental(s[i]) {
        run_end(s, i + 1)
    } else {
        i
    }
}

pub open spec fn octave_negative(s: Seq<char>) -> bool {
    let k = run_end(s, 1);
    k < s.len() && s[k] == '-'
}

/// Where the octave's digits start: after the accidentals and an optional `-`.
pub open spec fn octave_start(s: Seq<char>) -> int {
    if octave_negative(s) {
        run_end(s, 1) + 1
    } else {
        run_end(s, 1)
    }
}

/// A letter, any run of `#` and `b`, an optional `-`, then one or more digits.
pub open spec fn note_syntax(s: Seq<char>) -> bool {
    &&& s.len() >= 1
    &&& is_note_letter(s[0])
    &&& octave_start(s) < s.len()
    &&& all_digits(s.subrange(octave_start(s), s.len() as int))
}

/// The pitch that a string in note syntax stands for.
pub open spec fn note_of(s: Seq<char>) -> PitchModel {
    PitchModel {
        letter: upper_letter(s[0]),
        accidentals: accidental_sum(s.subrange(1, run_end(s, 1))),
        octave: signed(octave_negative(s), digits_value(s.subrange(octave_start(s), s.len() as int))),
    }
}

pub open spec fn parse_note(s: Seq<char>) -> Option<PitchModel> {
    if note_syntax(s) {
        Some(note_of(s))
    } else {
        None
    }
}

/// The part reported when `s` is not read as a note.
pub open spec fn note_error_part(s: Seq<char>) -> NotePart {
    if s.len() == 0 || !is_note_letter(s[0]) {
        NotePart::Letter
    } else if !note_syntax(s) {
        NotePart::Octave
    } else {
        NotePart::OutOfRange
    }
}

pub open spec fn accidental_run(a: int) -> Seq<char> {
    if a > 0 {
        Seq::new(a as nat, |i: int| '#')
    } else {
        Seq::new((-a) as nat, |i: int| 'b')
    }
}

/// The canonical text of a pitch: letter, accidentals, octave.
pub open spec fn render_pitch(p: PitchModel) -> Seq<char> {
    seq![p.letter] + accidental_run(p.accidentals) + decimal(p.octave)
}

/// How many octaves the spelling search climbs from the lowest octave before the
/// distance `d` left to the target is at most six semitones.
pub open spec fn spell_steps(d: int) -> nat
    decreases if d > 6 { d } else { 0 },
{
    if d > 6 {
        1 + spell_steps(d - 12)
    } else {
        0
    }
}

/// The spelling of note number `n` on `letter`: starting from the letter's note in
/// octave -1, climb whole octaves while the target is more than six semitones
/// above; what is left over becomes accidentals (flats when negative).
pub open spec fn spell_pitch(n: int, letter: char) -> PitchModel {
    let l = upper_letter(letter);
    let k = spell_steps(n - letter_base(l));
    PitchModel { letter: l, accidentals: n - letter_base(l) - 12 * k, octave: k - 1 }
}

/// A note in scientific pitch notation: a letter (upper case once built), a net
/// count of accidentals and an octave.
pub struct Note {
    letter: char,
    // a positive or negative number of semitones up or down
    accidentals: isize,
    octave: isize,
}

impl View for Note {
    type V = PitchModel;

    closed spec fn view(&self) -> PitchModel {
        PitchModel {
            letter: self.letter,
            accidentals: self.accidentals as int,
            octave: self.octave as int,
        }
    }
}

proof fn lemma_note_view(n: &Note)
    ensures
        n@.letter == n.letter,
        n@.accidentals == n.accidentals as int,
        n@.octave == n.octave as int,
{
}

/// The run of accidentals at `j` ends at `i` when `s[j..i]` are all accidentals
/// and `s[i]` is not one.
proof fn lemma_run_end(s: Seq<char>, j: int, i: int)
    requires
        0 <= j <= i <= s.len(),
        forall|t: int| j <= t < i ==> is_accidental(#[trigger] s[t]),
        i == s.len() || !is_accidental(s[i]),
    ensures
        run_end(s, j) == i,
    decreases i - j,
{
    if j < i {
        lemma_run_end(s, j + 1, i);
    }
}

fn semitones_from_c(letter: char) -> (r: isize)
    requires
        is_upper_letter(letter),
    ensures
        r == letter_base(letter),
{
    match letter {
        'C' => 0,
        'D' => 2,
        'E' => 4,
        'F' => 5,
        'G' => 7,
        'A' => 9,
        _ => 11,
    }
}

fn to_upper_letter(c: char) -> (r: char)
    ensures
        r == upper_letter(c),
{
    match c {
        'a' => 'A',
        'b' => 'B',
        'c' => 'C',
        'd' => 'D',
        'e' => 'E',
        'f' => 'F',
        'g' => 'G',
        _ => c,
    }
}

fn is_letter_char(c: char) -> (r: bool)
    ensures
        r == is_note_letter(c),
{
    match c {
        'A' | 'B' | 'C' | 'D' | 'E' | 'F' | 'G' => true,
        'a' | 'b' | 'c' | 'd' | 'e' | 'f' | 'g' => true,
        _ => false,
    }
}

fn is_accidental_char(c: char) -> (r: bool)
    ensures
        r == is_accidental(c),
{
    c == '#' || c == 'b'
}

fn malformed_note(s: &str, part: NotePart) -> (e: MusicError)
    ensures
        e.is_malformed_note(s@, part),
{
    MusicError::MalformedNote { input: String::from_str(s), part }
}

impl Note {
    pub open spec fn wf(&self) -> bool {
        valid_pitch(self@)
    }

    /// Reads a note such as `C#5`, `Dbb4` or `e-1`; the letter is stored upper case.
    pub fn from_string(s: &str) -> (r: Result<Note, MusicError>)
        ensures
            r is Ok <==> (parse_note(s@) matches Some(p) && pitch_fits(p)),
            r matches Ok(n) ==> n.wf() && parse_note(s@) == Some(n@),
            r matches Err(e) ==> e.is_malformed_note(s@, note_error_part(s@)),
    {
        let n = s.unicode_len();
        if n == 0 {
            return Err(malformed_note(s, NotePart::Letter));
        }
        let first = s.get_char(0);
        if !is_letter_char(first) {
            return Err(malformed_note(s, NotePart::Letter));
        }
        let letter = to_upper_letter(first);
        let mut i: usize = 1;
        let mut accs: i128 = 0;
        assert(s@.subrange(1, 1) =~= Seq::<char>::empty());
        while i < n && is_accidental_char(s.get_char(i))
            invariant
                n == s@.len(),
                1 <= i <= n,
                accs == accidental_sum(s@.subrange(1, i as int)),
                -(i as int) <= accs <= i,
                forall|t: int| 1 <= t < i ==> is_accidental(#[trigger] s@[t]),
            decreases n - i,
        {
            let c = s.get_char(i);
            assert(s@.subrange(1, i + 1).drop_last() =~= s@.subrange(1, i as int));
            if c == '#' {
                accs = accs + 1;
            } else {
                accs = accs - 1;
            }
            i = i + 1;
        }
        proof {
            lemma_run_end(s@, 1, i as int);
        }
        let negative = i < n && s.get_char(i) == '-';
        let start: usize = if negative { i + 1 } else { i };
        if start >= n {
            return Err(malformed_note(s, NotePart::Octave));
        }
        assert(start == octave_start(s@));
        let mut j: usize = start;
        while j < n
            invariant
                n == s@.len(),
                start == octave_start(s@),
                s@[0] == first,
                is_note_letter(first),
                start <= j <= n,
                forall|t: int| start <= t < j ==> is_digit(#[trigger] s@[t]),
            decreases n - j,
        {
            let c = s.get_char(j);
            if !('0' <= c && c <= '9') {
                assert(s@.subrange(start as int, n as int)[j - start] == c);
                assert(!is_digit(c));
                assert(!note_syntax(s@));
                return Err(malformed_note(s, NotePart::Octave));
            }
            j = j + 1;
        }
        assert forall|t: int| 0 <= t < n - start implies is_digit(#[trigger] s@.subrange(start as int, n as int)[t]) by {
            assert(s@.subrange(start as int, n as int)[t] == s@[start + t]);
        }
        let octave = parse_digits(s, start, negative);
        match octave {
            None => Err(malformed_note(s, NotePart::OutOfRange)),
            Some(o) => {
                if accs < isize::MIN as i128 || accs > isize::MAX as i128 {
                    return Err(malformed_note(s, NotePart::OutOfRange));
                }
                let note = Note { letter, accidentals: accs as isize, octave: o };
                proof {
                    lemma_note_view(&note);
                }
                Ok(note)
            },
        }
    }

    fn accidentals_string(&self) -> (r: String)
        ensures
            r@ == accidental_run(self@.accidentals),
    {
        proof {
            lemma_note_view(self);
        }
        let mut out = String::new();
        if self.accidentals > 0 {
            let mut i: isize = 0;
            while i < self.accidentals
                invariant
                    0 <= i <= self.accidentals,
                    out@ =~= Seq::new(i as nat, |t: int| '#'),
                decreases self.accidentals - i,
            {
                push_char(&mut out, '#');
                i = i + 1;
            }
        } else {
            let mut k: isize = self.accidentals;
            while k < 0
                invariant
                    self.accidentals <= k <= 0,
                    out@ =~= Seq::new((k - self.accidentals) as nat, |t: int| 'b'),
                decreases 0 - k,
            {
                push_char(&mut out, 'b');
                k = k + 1;
            }
        }
        out
    }

    /// The canonical text: letter, accidentals, octave (`C#4`, `Db-1`).
    pub fn to_string(&self) -> (r: String)
        ensures
            r@ == render_pitch(self@),
    {
        proof {
            lemma_note_view(self);
        }
        let mut out = String::new();
        push_char(&mut out, self.letter);
        let run = self.accidentals_string();
        out.append(run.as_str());
        push_decimal(&mut out, self.octave);
        out
    }

    /// The note number, computed wide enough that it always fits.
    pub(crate) fn number_wide(&self) -> (r: i128)
        requires
            self.wf(),
        ensures
            r == pitch_number(self@),
    {
        proof {
            lemma_note_view(self);
        }
        semitones_from_c(self.letter) as i128 + (self.octave as i128) * 12 + 12
            + self.accidentals as i128
    }

    /// The note number: the letter's semitones above C, plus twelve for each
    /// octave above octave -1, plus the accidentals.
    pub fn number(&self) -> (r: isize)
        requires
            self.wf(),
            fits_isize(pitch_number(self@)),
        ensures
            r == pitch_number(self@),
    {
        proof {
            lemma_note_view(self);
        }
        self.number_wide() as isize
    }

    /// The note number `number` moved up by `interval`.
    pub fn number_plus_interval(number: isize, interval: Interval) -> (r: Result<isize, MusicError>)
        requires
            number <= isize::MAX - 24,
        ensures
            match semitone_table(interval@.quality, interval@.number) {
                Some(t) => r == Ok::<isize, MusicError>((number + t) as isize),
                None => r matches Err(e) && e.is_unsupported_interval(render_interval(interval@)),
            },
    {
        match interval.semitones() {
            Ok(t) => Ok(number + t),
            Err(e) => Err(e),
        }
    }

    /// Spells note number `note_number` on `letter` (either case).
    pub fn spell(note_number: isize, letter: char) -> (r: Result<Note, MusicError>)
        ensures
            note_number >= 0 && is_note_letter(letter) <==> r is Ok,
            r matches Ok(n) ==> n.wf() && n@ == spell_pitch(note_number as int, letter),
            note_number < 0 ==> (r matches Err(e) && e.is_invalid_note_number(note_number as int)),
            note_number >= 0 && !is_note_letter(letter) ==> (r matches Err(e)
                && e.is_malformed_note(seq![letter], NotePart::Letter)),
    {
        if note_number < 0 {
            return Err(MusicError::InvalidNoteNumber { number: note_number });
        }
        if !is_letter_char(letter) {
            let mut input = String::new();
            push_char(&mut input, letter);
            return Err(MusicError::MalformedNote { input, part: NotePart::Letter });
        }
        let letter = to_upper_letter(letter);
        let base_note = semitones_from_c(letter);
        let ghost d0 = note_number - base_note;
        let mut octave: isize = -1;
        let mut difference: isize = note_number - base_note;
        while difference > 6
            invariant
                -11 <= difference,
                difference <= d0,
                d0 == note_number - base_note,
                0 <= note_number,
                -1 <= octave,
                difference == d0 - 12 * (octave + 1),
                spell_steps(d0) == spell_steps(difference as int) + octave + 1,
            decreases difference + 11,
        {
            difference = difference - 12;
            octave = octave + 1;
        }
        let note = Note { letter, accidentals: difference, octave };
        proof {
            lemma_note_view(&note);
        }
        Ok(note)
    }
}

proof fn lemma_accidental_sum_run(a: int)
    ensures
        accidental_sum(accidental_run(a)) == a,
        forall|t: int| 0 <= t < accidental_run(a).len() ==> is_accidental(#[trigger] accidental_run(a)[t]),
        accidental_run(a).len() == if a > 0 { a } else { -a },
    decreases if a > 0 { a } else { -a },
{
    if a > 0 {
        lemma_accidental_sum_run(a - 1);
        assert(accidental_run(a).drop_last() =~= accidental_run(a - 1));
    } else if a < 0 {
        lemma_accidental_sum_run(a + 1);
        assert(accidental_run(a).drop_last() =~= accidental_run(a + 1));
    }
}

/// Reading the canonical text of a valid pitch gives the same pitch back.
pub proof fn lemma_parse_render(p: PitchModel)
    requires
        valid_pitch(p),
    ensures
        parse_note(render_pitch(p)) == Some(p),
{
    let s = render_pitch(p);
    let run = accidental_run(p.accidentals);
    let dec = decimal(p.octave);
    let m: nat = if p.octave < 0 { (-p.octave) as nat } else { p.octave as nat };
    lemma_accidental_sum_run(p.accidentals);
    lemma_nat_digits(m);
    let k = run.len() as int + 1int;
    assert forall|t: int| 1 <= t < k implies is_accidental(#[trigger] s[t]) by {
        assert(s[t] == run[t - 1]);
    }
    assert(s[k] == dec[0]);
    assert(is_digit(nat_digits(m)[0]));
    lemma_run_end(s, 1, k);
    assert(s.subrange(1, k) =~= run);
    let start = if p.octave < 0 { k + 1 } else { k };
    assert(octave_negative(s) == (p.octave < 0));
    assert(s.subrange(start, s.len() as int) =~= nat_digits(m));
}

/// The note number of a spelling is the number that was spelled, whatever the letter.
pub proof fn lemma_spell_number(n: int, letter: char)
    requires
        n >= 0,
        is_note_letter(letter),
    ensures
        valid_pitch(spell_pitch(n, letter)),
        pitch_number(spell_pitch(n, letter)) == n,
{
}

proof fn lemma_spell_steps(d: int)
    requires
        d >= -11,
    ensures
        -11 <= d - 12 * spell_steps(d) <= 6,
        12 * spell_steps(d) <= d + 11,
    decreases if d > 6 { d } else { 0 },
{
    if d > 6 {
        lemma_spell_steps(d - 12);
    }
}

/// Spelling a note number on any letter, rendering it and reading the text back
/// gives a pitch whose note number is the one spelled; its fields and its number
/// fit in an `isize`.
pub proof fn lemma_spell_render_number(n: int, letter: char)
    requires
        0 <= n <= isize::MAX,
        is_note_letter(letter),
    ensures
        parse_note(render_pitch(spell_pitch(n, letter))) matches Some(p) && pitch_number(p) == n
            && pitch_fits(p) && fits_isize(pitch_number(p)),
{
    lemma_spell_number(n, letter);
    lemma_spell_steps(n - letter_base(upper_letter(letter)));
    lemma_parse_render(spell_pitch(n, letter));
}

} // verus!
