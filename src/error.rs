//! The failures that parsing, spelling and interval resolution report.
use vstd::prelude::*;

verus! {

/// Which part of a note string could not be read.
#[derive(Clone, Copy, Debug, PartialEq, Eq, Structural)]
pub enum NotePart {
    /// The first character is missing or is not a letter from A to G.
    Letter,
    /// The octave is missing, or something other than digits follows it.
    Octave,
    /// The note is well formed, but a value does not fit in an `isize`.
    OutOfRange,
}

/// Which part of an interval string could not be read.
#[derive(Clone, Copy, Debug, PartialEq, Eq, Structural)]
pub enum IntervalPart {
    /// The first character is missing or is not one of `P M m A d`.
    Quality,
    /// The number is missing, holds a non-digit, or does not fit in an `isize`.
    Number,
}

/// A failure, with the text or number that caused it.
#[derive(Debug)]
#[allow(inconsistent_fields)]
pub enum MusicError {
    /// `input` is not a note in scientific pitch notation.
    MalformedNote { input: String, part: NotePart },
    /// `input` is not an interval such as `M3`.
    MalformedInterval { input: String, part: IntervalPart },
    /// The interval `input` has a number outside 1 to 15.
    UnsupportedIntervalNumber { input: String, number: isize },
    /// The interval, rendered as `interval`, has no semitone count.
    UnsupportedInterval { interval: String },
    /// Only note numbers from 0 up can be spelled.
    InvalidNoteNumber { number: isize },
}

impl MusicError {
    pub open spec fn is_malformed_note(&self, input: Seq<char>, part: NotePart) -> bool {
        match self {
            MusicError::MalformedNote { input: i, part: p } => i@ == input && *p == part,
            _ => false,
        }
    }

    pub open spec fn is_malformed_interval(&self, input: Seq<char>, part: IntervalPart) -> bool {
        match self {
            MusicError::MalformedInterval { input: i, part: p } => i@ == input && *p == part,
            _ => false,
        }
    }

    pub open spec fn is_unsupported_number(&self, input: Seq<char>, number: int) -> bool {
        match self {
            MusicError::UnsupportedIntervalNumber { input: i, number: n } => i@ == input && *n == number,
            _ => false,
        }
    }

    pub open spec fn is_unsupported_interval(&self, interval: Seq<char>) -> bool {
        match self {
            MusicError::UnsupportedInterval { interval: i } => i@ == interval,
            _ => false,
        }
    }

    pub open spec fn is_invalid_note_number(&self, number: int) -> bool {
        match self {
            MusicError::InvalidNoteNumber { number: n } => *n == number,
            _ => false,
        }
    }
}

} // verus!
