use musictheory::{
    interval_number, interval_number_supported, interval_string, spell_note, Interval,
    IntervalPart, MusicError, Note, NotePart, Quality,
};
use musictheory::note_number;

fn number_by_formula(base: isize, accidentals: isize, octave: isize) -> isize {
    base + octave * 12 + 12 + accidentals
}

#[test]
fn note_numbers_of_named_notes() {
    assert_eq!(note_number("C4").unwrap(), 60);
    assert_eq!(note_number("C0").unwrap(), 12);
    assert_eq!(note_number("C#4").unwrap(), 61);
    assert_eq!(note_number("Dbb4").unwrap(), number_by_formula(2, -2, 4));
    assert_eq!(note_number("Dbb4").unwrap(), 60);
    assert_eq!(note_number("E0").unwrap(), 16);
    assert_eq!(note_number("B-1").unwrap(), 11);
    assert_eq!(note_number("C-1").unwrap(), 0);
    assert_eq!(note_number("a4").unwrap(), 69);
    assert_eq!(note_number("bb3").unwrap(), 58);
}

#[test]
fn accidentals_accumulate() {
    assert_eq!(note_number("C##4").unwrap(), note_number("D4").unwrap());
    assert_eq!(note_number("C#b4").unwrap(), note_number("C4").unwrap());
    assert_eq!(note_number("Cb#b#4").unwrap(), 60);
    assert_eq!(note_number("G####2").unwrap(), 7 + 36 + 4);
}

#[test]
fn spelling_on_a_letter() {
    assert_eq!(spell_note(61, 'C').unwrap(), "C#4");
    assert_eq!(spell_note(61, 'D').unwrap(), "Db4");
    assert_eq!(spell_note(61, 'd').unwrap(), "Db4");
    assert_eq!(spell_note(60, 'C').unwrap(), "C4");
    assert_eq!(spell_note(0, 'G').unwrap(), "Gbbbbbbb-1");
    assert_eq!(spell_note(0, 'C').unwrap(), "C-1");
    assert_eq!(spell_note(6, 'C').unwrap(), "C######-1");
    assert_eq!(spell_note(7, 'C').unwrap(), "Cbbbbb0");
}

#[test]
fn spelling_errors() {
    assert!(matches!(spell_note(-1, 'C'), Err(MusicError::InvalidNoteNumber { number: -1 })));
    match spell_note(5, 'H') {
        Err(MusicError::MalformedNote { input, part }) => {
            assert_eq!(input, "H");
            assert_eq!(part, NotePart::Letter);
        }
        _ => panic!("expected a malformed note"),
    }
    assert!(matches!(Note::spell(-3, 'x'), Err(MusicError::InvalidNoteNumber { number: -3 })));
}

#[test]
fn spelled_notes_keep_their_number() {
    for n in 0..300isize {
        for letter in ['A', 'B', 'C', 'D', 'E', 'F', 'G', 'a', 'g'] {
            let text = spell_note(n, letter).unwrap();
            assert_eq!(note_number(&text).unwrap(), n, "{} on {}", n, letter);
            assert_eq!(Note::spell(n, letter).unwrap().number(), n);
        }
    }
    let big = isize::MAX;
    assert_eq!(note_number(&spell_note(big, 'E').unwrap()).unwrap(), big);
}

#[test]
fn rendering_reads_back() {
    for text in ["C4", "C#4", "Db4", "Gbbbbbbb-1", "A-12", "B###7", "F0", "E123456789"] {
        let note = Note::from_string(text).unwrap();
        assert_eq!(note.to_string(), text);
        let again = Note::from_string(&note.to_string()).unwrap();
        assert_eq!(again.to_string(), text);
        assert_eq!(again.number(), note.number());
    }
    assert_eq!(Note::from_string("c#b#4").unwrap().to_string(), "C#4");
    assert_eq!(Note::from_string("e-0").unwrap().to_string(), "E0");
    assert_eq!(Note::from_string("G007").unwrap().to_string(), "G7");
}

#[test]
fn malformed_notes() {
    let cases: [(&str, NotePart); 9] = [
        ("H4", NotePart::Letter),
        ("", NotePart::Letter),
        ("#4", NotePart::Letter),
        ("C", NotePart::Octave),
        ("C#", NotePart::Octave),
        ("C-", NotePart::Octave),
        ("Cx4", NotePart::Octave),
        ("C4 ", NotePart::Octave),
        ("C99999999999999999999", NotePart::OutOfRange),
    ];
    for (text, expected) in cases {
        match Note::from_string(text) {
            Err(MusicError::MalformedNote { input, part }) => {
                assert_eq!(input, text);
                assert_eq!(part, expected, "{}", text);
            }
            _ => panic!("{} should be malformed", text),
        }
    }
    assert!(Note::from_string("C-9223372036854775808").is_ok());
    assert!(matches!(
        note_number("C-9223372036854775808"),
        Err(MusicError::MalformedNote { part: NotePart::OutOfRange, .. })
    ));
    assert!(matches!(
        note_number("C9223372036854775807"),
        Err(MusicError::MalformedNote { part: NotePart::OutOfRange, .. })
    ));
}

#[test]
fn interval_sizes() {
    assert_eq!(interval_number("M3").unwrap(), 4);
    assert_eq!(interval_number("P5").unwrap(), 7);
    assert_eq!(interval_number("P1").unwrap(), 0);
    assert_eq!(interval_number("m2").unwrap(), 1);
    assert_eq!(interval_number("d12").unwrap(), 18);
    assert_eq!(interval_number("A11").unwrap(), 18);
    assert_eq!(interval_number("P15").unwrap(), 24);
    assert_eq!(interval_number("M14").unwrap(), 23);
    assert_eq!(interval_number("P08").unwrap(), 12);
}

#[test]
fn interval_errors() {
    match Interval::from_string("X5") {
        Err(MusicError::MalformedInterval { input, part }) => {
            assert_eq!(input, "X5");
            assert_eq!(part, IntervalPart::Quality);
        }
        _ => panic!("expected a malformed interval"),
    }
    assert!(matches!(
        interval_number(""),
        Err(MusicError::MalformedInterval { part: IntervalPart::Quality, .. })
    ));
    assert!(matches!(
        interval_number("M"),
        Err(MusicError::MalformedInterval { part: IntervalPart::Number, .. })
    ));
    assert!(matches!(
        interval_number("M3x"),
        Err(MusicError::MalformedInterval { part: IntervalPart::Number, .. })
    ));
    assert!(matches!(
        interval_number("P99999999999999999999"),
        Err(MusicError::MalformedInterval { part: IntervalPart::Number, .. })
    ));
    match interval_number("P20") {
        Err(MusicError::UnsupportedIntervalNumber { input, number }) => {
            assert_eq!(input, "P20");
            assert_eq!(number, 20);
        }
        _ => panic!("expected an unsupported interval number"),
    }
    assert!(matches!(
        interval_number("P0"),
        Err(MusicError::UnsupportedIntervalNumber { number: 0, .. })
    ));
    match interval_number("m1") {
        Err(MusicError::UnsupportedInterval { interval }) => assert_eq!(interval, "m1"),
        _ => panic!("expected an unsupported interval"),
    }
}

#[test]
fn interval_text_and_steps() {
    assert_eq!(Interval::from_string("M3").unwrap().to_string(), "M3");
    assert_eq!(Interval::from_string("d012").unwrap().to_string(), "d12");
    assert_eq!(interval_string(Quality::Major, 3).unwrap(), "M3");
    assert_eq!(interval_string(Quality::Augmented, 11).unwrap(), "A11");
    match interval_string(Quality::Minor, 1) {
        Err(MusicError::UnsupportedInterval { interval }) => assert_eq!(interval, "m1"),
        _ => panic!("expected an unsupported interval"),
    }
    match interval_string(Quality::Perfect, -4) {
        Err(MusicError::UnsupportedInterval { interval }) => assert_eq!(interval, "P-4"),
        _ => panic!("expected an unsupported interval"),
    }
    let third = Interval::from_string("M3").unwrap();
    assert_eq!(Note::number_plus_interval(60, third).unwrap(), 64);
    let unison = Interval::from_string("P1").unwrap();
    assert_eq!(Note::number_plus_interval(-5, unison).unwrap(), -5);
    let odd = Interval::from_string("A7").unwrap();
    assert!(matches!(
        Note::number_plus_interval(60, odd),
        Err(MusicError::UnsupportedInterval { .. })
    ));
    assert!(interval_number_supported(1));
    assert!(interval_number_supported(15));
    assert!(!interval_number_supported(0));
    assert!(!interval_number_supported(16));
}
