//! Scientific pitch notation and intervals: reading notes such as `C#5` into
//! note numbers (middle C is 60), spelling note numbers on a chosen letter, and
//! sizing intervals such as `M3` in semitones.
use vstd::prelude::*;

pub mod error;
pub mod interval;
pub mod note;
pub mod text;

pub use crate::error::{IntervalPart, MusicError, NotePart};
pub use crate::interval::{interval_number_supported, interval_string, Interval, Quality};
pub use crate::note::Note;

verus! {

use crate::interval::{parse_interval, render_interval, semitone_table, IntervalFailure};
use crate::note::{
    is_note_letter, note_error_part, parse_note, pitch_fits, pitch_number, render_pitch,
    spell_pitch,
};
use crate::text::fits_isize;

/// The note number of a note such as `C#5`, `Dbb4` or `E0`; middle C (`C4`) is 60.
pub fn note_number(text: &str) -> (r: Result<isize, MusicError>)
    ensures
        match parse_note(text@) {
            Some(p) => if pitch_fits(p) && fits_isize(pitch_number(p)) {
                r == Ok::<isize, MusicError>(pitch_number(p) as isize)
            } else {
                r matches Err(e) && e.is_malformed_note(text@, NotePart::OutOfRange)
            },
            None => r matches Err(e) && e.is_malformed_note(text@, note_error_part(text@)),
        },
{
    match Note::from_string(text) {
        Err(e) => Err(e),
        Ok(note) => {
            let wide = note.number_wide();
            if wide < isize::MIN as i128 || wide > isize::MAX as i128 {
                Err(MusicError::MalformedNote {
                    input: String::from_str(text),
                    part: NotePart::OutOfRange,
                })
            } else {
                Ok(note.number())
            }
        },
    }
}

/// The canonical text of note number `number` spelled on `letter`: 61 on `C` is
/// `C#4`, on `D` it is `Db4`.
pub fn spell_note(number: isize, letter: char) -> (r: Result<String, MusicError>)
    ensures
        number >= 0 && is_note_letter(letter) <==> r is Ok,
        r matches Ok(s) ==> s@ == render_pitch(spell_pitch(number as int, letter)),
        number < 0 ==> (r matches Err(e) && e.is_invalid_note_number(number as int)),
        number >= 0 && !is_note_letter(letter) ==> (r matches Err(e)
            && e.is_malformed_note(seq![letter], NotePart::Letter)),
{
    match Note::spell(number, letter) {
        Ok(note) => Ok(note.to_string()),
        Err(e) => Err(e),
    }
}

/// The size in semitones of an interval such as `M3`.
pub fn interval_number(text: &str) -> (r: Result<isize, MusicError>)
    ensures
        match parse_interval(text@) {
            Ok(m) => match semitone_table(m.quality, m.number) {
                Some(t) => r == Ok::<isize, MusicError>(t as isize),
                None => r matches Err(e) && e.is_unsupported_interval(render_interval(m)),
            },
            Err(IntervalFailure::Malformed(part)) => r matches Err(e)
                && e.is_malformed_interval(text@, part),
            Err(IntervalFailure::UnsupportedNumber(n)) => r matches Err(e)
                && e.is_unsupported_number(text@, n),
        },
{
    match Interval::from_string(text) {
        Ok(i) => i.semitones(),
        Err(e) => Err(e),
    }
}

} // verus!
