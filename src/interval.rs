//! Intervals such as `M3` or `P5`, and their size in semitones.
use vstd::prelude::*;
use crate::error::{IntervalPart, MusicError};
use crate::text::{
    all_digits, decimal, digits_value, fits_isize, is_digit, parse_digits, push_char,
    push_decimal,
};

verus! {

#[derive(Clone, Copy, Debug, PartialEq, Eq, Structural)]
pub enum Quality {
    Perfect,
    Major,
    Minor,
    Augmented,
    Diminished,
}

pub open spec fn is_quality_char(c: char) -> bool {
    c == 'P' || c == 'M' || c == 'm' || c == 'A' || c == 'd'
}

pub open spec fn quality_of(c: char) -> Quality {
    if c == 'P' {
        Quality::Perfect
    } else if c == 'M' {
        Quality::Major
    } else if c == 'm' {
        Quality::Minor
    } else if c == 'A' {
        Quality::Augmented
    } else {
        Quality::Diminished
    }
}

pub open spec fn quality_char(q: Quality) -> char {
    match q {
        Quality::Perfect => 'P',
        Quality::Major => 'M',
        Quality::Minor => 'm',
        Quality::Augmented => 'A',
        Quality::Diminished => 'd',
    }
}

/// An interval as a quality and a number.
pub struct IntervalModel {
    pub quality: Quality,
    pub number: int,
}

pub open spec fn supported_number(n: int) -> bool {
    1 <= n <= 15
}

/// A quality character followed by one or more digits.
pub open spec fn interval_syntax(s: Seq<char>) -> bool {
    &&& s.len() >= 2
    &&& is_quality_char(s[0])
    &&& all_digits(s.subrange(1, s.len() as int))
}

pub open spec fn interval_number_of(s: Seq<char>) -> int {
    digits_value(s.subrange(1, s.len() as int))
}

/// What reading `s` as an interval gives: the interval, or the error it is
/// rejected with (its input payload aside).
pub open spec fn parse_interval(s: Seq<char>) -> Result<IntervalModel, IntervalFailure> {
    if !interval_syntax(s) {
        Err(IntervalFailure::Malformed(
            if s.len() == 0 || !is_quality_char(s[0]) {
                IntervalPart::Quality
            } else {
                IntervalPart::Number
            },
        ))
    } else if !fits_isize(interval_number_of(s)) {
        Err(IntervalFailure::Malformed(IntervalPart::Number))
    } else if !supported_number(interval_number_of(s)) {
        Err(IntervalFailure::UnsupportedNumber(interval_number_of(s)))
    } else {
        Ok(IntervalModel { quality: quality_of(s[0]), number: interval_number_of(s) })
    }
}

/// Why an interval string was rejected.
pub enum IntervalFailure {
    Malformed(IntervalPart),
    UnsupportedNumber(int),
}

/// The semitones spanned by each interval from a unison up to a fifteenth.
pub open spec fn semitone_table(q: Quality, n: int) -> Option<int> {
    match q {
        Quality::Perfect => if n == 1 { Some(0) }
            else if n == 4 { Some(5) }
            else if n == 5 { Some(7) }
            else if n == 8 { Some(12) }
            else if n == 11 { Some(17) }
            else if n == 12 { Some(19) }
            else if n == 15 { Some(24) }
            else { None },
        Quality::Major => if n == 2 { Some(2) }
            else if n == 3 { Some(4) }
            else if n == 6 { Some(9) }
            else if n == 7 { Some(11) }
            else if n == 9 { Some(14) }
            else if n == 10 { Some(16) }
            else if n == 13 { Some(21) }
            else if n == 14 { Some(23) }
            else { None },
        Quality::Minor => if n == 2 { Some(1) }
            else if n == 3 { Some(3) }
            else if n == 6 { Some(8) }
            else if n == 7 { Some(10) }
            else if n == 9 { Some(13) }
            else if n == 10 { Some(15) }
            else if n == 13 { Some(20) }
            else if n == 14 { Some(22) }
            else { None },
        Quality::Augmented => if n == 3 { Some(5) }
            else if n == 4 { Some(6) }
            else if n == 11 { Some(18) }
            else { None },
        Quality::Diminished => if n == 3 { Some(2) }
            else if n == 5 { Some(6) }
            else if n == 12 { Some(18) }
            else { None },
    }
}

/// The canonical text of an interval: quality character, then the number.
pub open spec fn render_interval(i: IntervalModel) -> Seq<char> {
    seq![quality_char(i.quality)] + decimal(i.number)
}

/// An interval: a quality and a number, from 1 to 15 when read from text.
#[derive(Clone, Copy)]
pub struct Interval {
    quality: Quality,
    number: isize,
}

impl View for Interval {
    type V = IntervalModel;

    closed spec fn view(&self) -> IntervalModel {
        IntervalModel { quality: self.quality, number: self.number as int }
    }
}

proof fn lemma_interval_view(i: &Interval)
    ensures
        i@.quality == i.quality,
        i@.number == i.number as int,
{
}

pub fn interval_number_supported(n: isize) -> (r: bool)
    ensures
        r == supported_number(n as int),
{
    1 <= n && n <= 15
}

fn malformed_interval(s: &str, part: IntervalPart) -> (e: MusicError)
    ensures
        e.is_malformed_interval(s@, part),
{
    MusicError::MalformedInterval { input: String::from_str(s), part }
}

impl Interval {
    /// Reads an interval such as `M3`, `P5` or `d12`.
    pub fn from_string(s: &str) -> (r: Result<Interval, MusicError>)
        ensures
            match parse_interval(s@) {
                Ok(m) => r matches Ok(i) && i@ == m,
                Err(IntervalFailure::Malformed(part)) => r matches Err(e)
                    && e.is_malformed_interval(s@, part),
                Err(IntervalFailure::UnsupportedNumber(n)) => r matches Err(e)
                    && e.is_unsupported_number(s@, n),
            },
    {
        let len = s.unicode_len();
        if len == 0 {
            return Err(malformed_interval(s, IntervalPart::Quality));
        }
        let c = s.get_char(0);
        let quality = match c {
            'P' => Quality::Perfect,
            'M' => Quality::Major,
            'm' => Quality::Minor,
            'A' => Quality::Augmented,
            'd' => Quality::Diminished,
            _ => {
                return Err(malformed_interval(s, IntervalPart::Quality));
            },
        };
        assert(is_quality_char(s@[0]) && quality == quality_of(s@[0]));
        if len < 2 {
            return Err(malformed_interval(s, IntervalPart::Number));
        }
        let mut j: usize = 1;
        while j < len
            invariant
                len == s@.len(),
                1 <= j <= len,
                is_quality_char(s@[0]),
                forall|t: int| 1 <= t < j ==> is_digit(#[trigger] s@[t]),
            decreases len - j,
        {
            let d = s.get_char(j);
            if !('0' <= d && d <= '9') {
                assert(s@.subrange(1, len as int)[j - 1] == d);
                assert(!is_digit(d));
                return Err(malformed_interval(s, IntervalPart::Number));
            }
            j = j + 1;
        }
        assert forall|t: int| 0 <= t < len - 1 implies is_digit(#[trigger] s@.subrange(1, len as int)[t]) by {
            assert(s@.subrange(1, len as int)[t] == s@[1 + t]);
        }
        match parse_digits(s, 1, false) {
            None => Err(malformed_interval(s, IntervalPart::Number)),
            Some(n) => {
                if !interval_number_supported(n) {
                    return Err(MusicError::UnsupportedIntervalNumber {
                        input: String::from_str(s),
                        number: n,
                    });
                }
                let i = Interval { quality, number: n };
                proof {
                    lemma_interval_view(&i);
                }
                Ok(i)
            },
        }
    }

    /// The canonical text, such as `M3`.
    pub fn to_string(self) -> (r: String)
        ensures
            r@ == render_interval(self@),
    {
        proof {
            lemma_interval_view(&self);
        }
        let q = match self.quality {
            Quality::Perfect => 'P',
            Quality::Major => 'M',
            Quality::Minor => 'm',
            Quality::Augmented => 'A',
            Quality::Diminished => 'd',
        };
        let mut out = String::new();
        push_char(&mut out, q);
        push_decimal(&mut out, self.number);
        out
    }

    /// The size in semitones, from the table of supported intervals.
    pub fn semitones(self) -> (r: Result<isize, MusicError>)
        ensures
            match semitone_table(self@.quality, self@.number) {
                Some(t) => r == Ok::<isize, MusicError>(t as isize),
                None => r matches Err(e) && e.is_unsupported_interval(render_interval(self@)),
            },
    {
        proof {
            lemma_interval_view(&self);
        }
        let t: isize = match (self.quality, self.number) {
            (Quality::Perfect, 1) => 0,
            (Quality::Minor, 2) => 1,
            (Quality::Major, 2) => 2,
            (Quality::Diminished, 3) => 2,
            (Quality::Minor, 3) => 3,
            (Quality::Major, 3) => 4,
            (Quality::Augmented, 3) => 5,
            (Quality::Perfect, 4) => 5,
            (Quality::Augmented, 4) => 6,
            (Quality::Diminished, 5) => 6,
            (Quality::Perfect, 5) => 7,
            (Quality::Minor, 6) => 8,
            (Quality::Major, 6) => 9,
            (Quality::Minor, 7) => 10,
            (Quality::Major, 7) => 11,
            (Quality::Perfect, 8) => 12,
            (Quality::Minor, 9) => 13,
            (Quality::Major, 9) => 14,
            (Quality::Minor, 10) => 15,
            (Quality::Major, 10) => 16,
            (Quality::Perfect, 11) => 17,
            (Quality::Augmented, 11) => 18,
            (Quality::Diminished, 12) => 18,
            (Quality::Perfect, 12) => 19,
            (Quality::Minor, 13) => 20,
            (Quality::Major, 13) => 21,
            (Quality::Minor, 14) => 22,
            (Quality::Major, 14) => 23,
            (Quality::Perfect, 15) => 24,
            _ => {
                return Err(MusicError::UnsupportedInterval { interval: self.to_string() });
            },
        };
        Ok(t)
    }
}

/// The canonical text of the interval `quality` `number`, when the table gives
/// it a size in semitones.
pub fn interval_string(quality: Quality, number: isize) -> (r: Result<String, MusicError>)
    ensures
        ({
            let m = IntervalModel { quality, number: number as int };
            match semitone_table(quality, number as int) {
                Some(t) => r matches Ok(text) && text@ == render_interval(m),
                None => r matches Err(e) && e.is_unsupported_interval(render_interval(m)),
            }
        }),
{
    let i = Interval { quality, number };
    proof {
        lemma_interval_view(&i);
    }
    match i.semitones() {
        Ok(_) => Ok(i.to_string()),
        Err(e) => Err(e),
    }
}

} // verus!
