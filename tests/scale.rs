use synth::scale::{LetterNote, Note, ScaleError};

fn note(letter: LetterNote, octave: i32) -> Note {
    Note { letter, octave }
}

#[test]
fn letter_codes_parse() {
    assert!(LetterNote::from_str("C").unwrap() == LetterNote::C);
    assert!(LetterNote::from_str("CS").unwrap() == LetterNote::CS);
    assert!(LetterNote::from_str("FS").unwrap() == LetterNote::FS);
    assert!(LetterNote::from_str("B").unwrap() == LetterNote::B);
}

#[test]
fn letter_code_rejected() {
    let e: ScaleError = LetterNote::from_str("H").err().unwrap();
    assert_eq!(e.message(), "Invalid note letter: H");
    assert!(LetterNote::from_str("ES").is_err());
    assert!(LetterNote::from_str("").is_err());
    assert!(LetterNote::from_str("CSS").is_err());
}

#[test]
fn letter_numbers() {
    assert!(LetterNote::from_num(0).unwrap() == LetterNote::C);
    assert!(LetterNote::from_num(9).unwrap() == LetterNote::A);
    assert!(LetterNote::from_num(11).unwrap() == LetterNote::B);
    assert_eq!(LetterNote::from_num(12).err().unwrap().message(), "Invalid note number: 12");
    assert_eq!(LetterNote::from_num(-3).err().unwrap().message(), "Invalid note number: -3");
}

#[test]
fn letter_names() {
    assert_eq!(LetterNote::CS.name(), "C#");
    assert_eq!(LetterNote::A.name(), "A");
    assert_eq!(LetterNote::AS.index(), 10);
}

#[test]
fn note_names_parse() {
    assert!(Note::from_str("A4").unwrap() == note(LetterNote::A, 4));
    assert!(Note::from_str("CS3").unwrap() == note(LetterNote::CS, 3));
    assert!(Note::from_str("G0").unwrap() == note(LetterNote::G, 0));
}

#[test]
fn note_names_rejected() {
    assert_eq!(Note::from_str("A").err().unwrap().message(), "Invalid note: A");
    assert_eq!(Note::from_str("A45").err().unwrap().message(), "Invalid note: A45");
    assert!(Note::from_str("H4").is_err());
    assert!(Note::from_str("AX").is_err());
    assert!(Note::from_str("CSSS").is_err());
}

#[test]
fn note_index_and_name() {
    assert_eq!(note(LetterNote::A, 4).get_index(), 57);
    assert_eq!(note(LetterNote::C, 0).get_index(), 0);
    assert_eq!(note(LetterNote::CS, 4).name(), "C#4");
    assert_eq!(note(LetterNote::B, -1).name(), "B-1");
}

#[test]
fn midi_numbers() {
    assert!(Note::from_midi_num(60).unwrap() == note(LetterNote::C, 4));
    assert!(Note::from_midi_num(69).unwrap() == note(LetterNote::A, 4));
    assert!(Note::from_midi_num(21).unwrap() == note(LetterNote::A, 0));
    assert!(Note::from_midi_num(59).unwrap() == note(LetterNote::B, 3));
    assert!(Note::from_midi_num(0).unwrap() == note(LetterNote::C, -1));
    assert!(Note::from_midi_num(127).unwrap() == note(LetterNote::G, 9));
}

#[test]
fn midi_numbers_out_of_range() {
    assert_eq!(
        Note::from_midi_num(128).err().unwrap().message(),
        "128 is outside of MIDI note range (0-127)"
    );
    assert!(Note::from_midi_num(-1).is_err());
}

#[test]
fn smallest_number_message() {
    assert_eq!(
        LetterNote::from_num(i32::MIN).err().unwrap().message(),
        "Invalid note number: -2147483648"
    );
    assert_eq!(LetterNote::from_num(1234567).err().unwrap().message(), "Invalid note number: 1234567");
}
