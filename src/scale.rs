//! Notes of the twelve-tone scale and their textual and MIDI forms.

use vstd::prelude::*;
use vstd::string::StrSliceExecFns;
use vstd::string::StringExecFns;

verus! {

/// Error for a note name or note number that names no note.
#[derive(Debug)]
pub struct ScaleError {
    pub message: String,
}

impl ScaleError {
    pub fn new(msg: &str) -> (r: ScaleError)
        ensures
            r.message@ == msg@,
    {
        ScaleError { message: String::from_str(msg) }
    }

    /// The human-readable description of the error.
    pub fn message(&self) -> (r: String)
        ensures
            r@ == self.message@,
    {
        self.message.clone()
    }
}

/// The decimal text of an integer: an optional minus sign, then its digits.
pub open spec fn decimal_text(n: int) -> Seq<char>
    decreases (if n < 0 { 1 - n } else { n }),
{
    if n < 0 {
        seq!['-'] + decimal_text(-n)
    } else if n < 10 {
        seq![digit_char(n)]
    } else {
        decimal_text(n / 10).push(digit_char(n % 10))
    }
}

pub open spec fn digit_char(d: int) -> char {
    (('0' as int) + d) as char
}

/// The text of one decimal digit.
fn digit_text(d: u64) -> (r: &'static str)
    requires
        d < 10,
    ensures
        r@ == seq![digit_char(d as int)],
{
    proof {
        reveal_strlit("0");
        reveal_strlit("1");
        reveal_strlit("2");
        reveal_strlit("3");
        reveal_strlit("4");
        reveal_strlit("5");
        reveal_strlit("6");
        reveal_strlit("7");
        reveal_strlit("8");
        reveal_strlit("9");
    }
    let r = if d == 0 { "0" }
        else if d == 1 { "1" }
        else if d == 2 { "2" }
        else if d == 3 { "3" }
        else if d == 4 { "4" }
        else if d == 5 { "5" }
        else if d == 6 { "6" }
        else if d == 7 { "7" }
        else if d == 8 { "8" }
        else { "9" };
    assert(r@ =~= seq![digit_char(d as int)]);
    r
}

/// The decimal text of `n`.
fn decimal(n: i32) -> (r: String)
    ensures
        r@ == decimal_text(n as int),
{
    let magnitude: u64 = if n < 0 { (-(n as i64)) as u64 } else { n as u64 };
    let mut m: u64 = magnitude;
    let mut acc = String::new();
    while m >= 10
        invariant
            decimal_text(magnitude as int) == decimal_text(m as int) + acc@,
        decreases m,
    {
        let d = m % 10;
        let ghost before = acc@;
        acc = String::from_str(digit_text(d)).concat(acc.as_str());
        assert(decimal_text(m as int) == decimal_text((m / 10) as int).push(digit_char(d as int)));
        assert(decimal_text(m as int) + before =~= decimal_text((m / 10) as int) + acc@);
        m = m / 10;
    }
    let r = String::from_str(digit_text(m)).concat(acc.as_str());
    assert(r@ =~= decimal_text(magnitude as int));
    if n < 0 {
        proof { reveal_strlit("-"); }
        let signed = String::from_str("-").concat(r.as_str());
        assert(signed@ =~= decimal_text(n as int));
        signed
    } else {
        r
    }
}

/// One of the twelve pitch classes.
#[derive(Copy, Clone, Debug, PartialEq, Eq, Hash, Structural)]
pub enum LetterNote {
    C,
    CS,
    D,
    DS,
    E,
    F,
    FS,
    G,
    GS,
    A,
    AS,
    B,
}

/// Position of a pitch class within the octave, from C.
pub open spec fn letter_index(l: LetterNote) -> int {
    match l {
        LetterNote::C => 0,
        LetterNote::CS => 1,
        LetterNote::D => 2,
        LetterNote::DS => 3,
        LetterNote::E => 4,
        LetterNote::F => 5,
        LetterNote::FS => 6,
        LetterNote::G => 7,
        LetterNote::GS => 8,
        LetterNote::A => 9,
        LetterNote::AS => 10,
        LetterNote::B => 11,
    }
}

/// The pitch class at a position within the octave.
pub open spec fn letter_at(i: int) -> Option<LetterNote> {
    if i == 0 { Some(LetterNote::C) }
    else if i == 1 { Some(LetterNote::CS) }
    else if i == 2 { Some(LetterNote::D) }
    else if i == 3 { Some(LetterNote::DS) }
    else if i == 4 { Some(LetterNote::E) }
    else if i == 5 { Some(LetterNote::F) }
    else if i == 6 { Some(LetterNote::FS) }
    else if i == 7 { Some(LetterNote::G) }
    else if i == 8 { Some(LetterNote::GS) }
    else if i == 9 { Some(LetterNote::A) }
    else if i == 10 { Some(LetterNote::AS) }
    else if i == 11 { Some(LetterNote::B) }
    else { None }
}

/// The pitch class named by a code: a letter, followed by `S` for a sharp.
pub open spec fn letter_of_code(s: Seq<char>) -> Option<LetterNote> {
    if s.len() == 1 {
        match s[0] {
            'C' => Some(LetterNote::C),
            'D' => Some(LetterNote::D),
            'E' => Some(LetterNote::E),
            'F' => Some(LetterNote::F),
            'G' => Some(LetterNote::G),
            'A' => Some(LetterNote::A),
            'B' => Some(LetterNote::B),
            _ => None,
        }
    } else if s.len() == 2 && s[1] == 'S' {
        match s[0] {
            'C' => Some(LetterNote::CS),
            'D' => Some(LetterNote::DS),
            'F' => Some(LetterNote::FS),
            'G' => Some(LetterNote::GS),
            'A' => Some(LetterNote::AS),
            _ => None,
        }
    } else {
        None
    }
}

/// The printed name of a pitch class, with `#` for a sharp.
pub open spec fn letter_name(l: LetterNote) -> Seq<char> {
    match l {
        LetterNote::C => seq!['C'],
        LetterNote::CS => seq!['C', '#'],
        LetterNote::D => seq!['D'],
        LetterNote::DS => seq!['D', '#'],
        LetterNote::E => seq!['E'],
        LetterNote::F => seq!['F'],
        LetterNote::FS => seq!['F', '#'],
        LetterNote::G => seq!['G'],
        LetterNote::GS => seq!['G', '#'],
        LetterNote::A => seq!['A'],
        LetterNote::AS => seq!['A', '#'],
        LetterNote::B => seq!['B'],
    }
}

impl LetterNote {
    /// Parses a pitch-class code such as `C` or `FS`.
    pub fn from_str(letter: &str) -> (r: Result<LetterNote, ScaleError>)
        ensures
            r is Ok <==> letter_of_code(letter@) is Some,
            r is Ok ==> Some(r->Ok_0) == letter_of_code(letter@),
            r is Err ==> r->Err_0.message@ == "Invalid note letter: "@ + letter@,
    {
        let len = letter.unicode_len();
        let mut found: Option<LetterNote> = None;
        if len == 1 {
            let c = letter.get_char(0);
            found = if c == 'C' { Some(LetterNote::C) }
                else if c == 'D' { Some(LetterNote::D) }
                else if c == 'E' { Some(LetterNote::E) }
                else if c == 'F' { Some(LetterNote::F) }
                else if c == 'G' { Some(LetterNote::G) }
                else if c == 'A' { Some(LetterNote::A) }
                else if c == 'B' { Some(LetterNote::B) }
                else { None };
        } else if len == 2 && letter.get_char(1) == 'S' {
            let c = letter.get_char(0);
            found = if c == 'C' { Some(LetterNote::CS) }
                else if c == 'D' { Some(LetterNote::DS) }
                else if c == 'F' { Some(LetterNote::FS) }
                else if c == 'G' { Some(LetterNote::GS) }
                else if c == 'A' { Some(LetterNote::AS) }
                else { None };
        }
        match found {
            Some(l) => Ok(l),
            None => {
                proof { reveal_strlit("Invalid note letter: "); }
                Err(ScaleError { message: String::from_str("Invalid note letter: ").concat(letter) })
            },
        }
    }

    /// The pitch class at position `num` of the octave (0 is C, 11 is B).
    pub fn from_num(num: i32) -> (r: Result<LetterNote, ScaleError>)
        ensures
            r is Ok <==> 0 <= num < 12,
            r is Ok ==> letter_index(r->Ok_0) == num,
            r is Ok ==> letter_at(num as int) == Some(r->Ok_0),
            r is Err ==> r->Err_0.message@ == "Invalid note number: "@ + decimal_text(num as int),
    {
        match num {
            0 => Ok(LetterNote::C),
            1 => Ok(LetterNote::CS),
            2 => Ok(LetterNote::D),
            3 => Ok(LetterNote::DS),
            4 => Ok(LetterNote::E),
            5 => Ok(LetterNote::F),
            6 => Ok(LetterNote::FS),
            7 => Ok(LetterNote::G),
            8 => Ok(LetterNote::GS),
            9 => Ok(LetterNote::A),
            10 => Ok(LetterNote::AS),
            11 => Ok(LetterNote::B),
            _ => {
                proof { reveal_strlit("Invalid note number: "); }
                let text = decimal(num);
                Err(ScaleError { message: String::from_str("Invalid note number: ").concat(text.as_str()) })
            },
        }
    }

    /// Position of this pitch class within the octave, from C.
    pub fn index(&self) -> (r: i32)
        ensures
            r == letter_index(*self),
    {
        match self {
            LetterNote::C => 0,
            LetterNote::CS => 1,
            LetterNote::D => 2,
            LetterNote::DS => 3,
            LetterNote::E => 4,
            LetterNote::F => 5,
            LetterNote::FS => 6,
            LetterNote::G => 7,
            LetterNote::GS => 8,
            LetterNote::A => 9,
            LetterNote::AS => 10,
            LetterNote::B => 11,
        }
    }

    /// The printed name, with `#` for a sharp (`C#`).
    pub fn name(&self) -> (r: String)
        ensures
            r@ == letter_name(*self),
    {
        let s: &str = match self {
            LetterNote::C => "C",
            LetterNote::CS => "C#",
            LetterNote::D => "D",
            LetterNote::DS => "D#",
            LetterNote::E => "E",
            LetterNote::F => "F",
            LetterNote::FS => "F#",
            LetterNote::G => "G",
            LetterNote::GS => "G#",
            LetterNote::A => "A",
            LetterNote::AS => "A#",
            LetterNote::B => "B",
        };
        proof {
            reveal_strlit("C");
            reveal_strlit("C#");
            reveal_strlit("D");
            reveal_strlit("D#");
            reveal_strlit("E");
            reveal_strlit("F");
            reveal_strlit("F#");
            reveal_strlit("G");
            reveal_strlit("G#");
            reveal_strlit("A");
            reveal_strlit("A#");
            reveal_strlit("B");
        }
        let r = String::from_str(s);
        assert(r@ =~= letter_name(*self));
        r
    }
}

/// A pitch: a pitch class in a numbered octave (octave 4 holds middle C).
#[derive(Copy, Clone, Debug, PartialEq, Eq, Hash, Structural)]
pub struct Note {
    pub letter: LetterNote,
    pub octave: i32,
}

/// The value of a decimal digit character.
pub open spec fn digit_value(c: char) -> Option<int> {
    if '0' <= c && c <= '9' {
        Some(c as int - '0' as int)
    } else {
        None
    }
}

/// The note named by a pitch-class code followed by a one-digit octave (`A4`, `CS3`).
pub open spec fn note_of_code(s: Seq<char>) -> Option<Note> {
    if s.len() == 2 || s.len() == 3 {
        let k = s.len() - 1;
        match (letter_of_code(s.subrange(0, k)), digit_value(s[k])) {
            (Some(l), Some(d)) => Some(Note { letter: l, octave: d as i32 }),
            _ => None,
        }
    } else {
        None
    }
}

/// Lowest and highest MIDI note numbers.
pub const MIDI_MIN: i32 = 0;
pub const MIDI_MAX: i32 = 127;

/// MIDI note number of middle C (C in octave 4).
pub const MIDI_MIDDLE_C: i32 = 60;

/// The note of a MIDI note number: `MIDI_MIDDLE_C` is C4, each step is a semitone.
pub open spec fn note_of_midi(m: int) -> Note {
    let delta = m - MIDI_MIDDLE_C;
    Note { letter: letter_at(delta % 12).unwrap(), octave: (4 + delta / 12) as i32 }
}

/// The printed name of a note: its pitch-class name, then its octave (`C#4`).
pub open spec fn note_name(n: Note) -> Seq<char> {
    letter_name(n.letter) + decimal_text(n.octave as int)
}

impl Note {
    /// Semitones above C in octave 0.
    pub open spec fn spec_index(&self) -> int {
        self.octave * 12 + letter_index(self.letter)
    }

    pub fn get_index(&self) -> (r: i32)
        requires
            i32::MIN <= self.spec_index() <= i32::MAX,
        ensures
            r == self.spec_index(),
    {
        (self.octave as i64 * 12 + self.letter.index() as i64) as i32
    }

    /// Parses a note name such as `A4` or `FS3`.
    pub fn from_str(note_str: &str) -> (r: Result<Note, ScaleError>)
        ensures
            r is Ok <==> note_of_code(note_str@) is Some,
            r is Ok ==> Some(r->Ok_0) == note_of_code(note_str@),
            r is Err ==> r->Err_0.message@ == "Invalid note: "@ + note_str@,
    {
        let len = note_str.unicode_len();
        if len == 2 || len == 3 {
            let k = len - 1;
            let c = note_str.get_char(k);
            let code = note_str.substring_char(0, k);
            if '0' <= c && c <= '9' {
                let d: i32 = (c as u32 - '0' as u32) as i32;
                if let Ok(l) = LetterNote::from_str(code) {
                    return Ok(Note { letter: l, octave: d });
                }
            }
        }
        proof { reveal_strlit("Invalid note: "); }
        Err(ScaleError { message: String::from_str("Invalid note: ").concat(note_str) })
    }

    /// The note of a MIDI note number in `MIDI_MIN..=MIDI_MAX`.
    pub fn from_midi_num(midi_num: i32) -> (r: Result<Note, ScaleError>)
        ensures
            r is Ok <==> MIDI_MIN <= midi_num <= MIDI_MAX,
            r is Ok ==> r->Ok_0 == note_of_midi(midi_num as int),
            r is Err ==> r->Err_0.message@ == decimal_text(midi_num as int)
                + " is outside of MIDI note range (0-127)"@,
    {
        if midi_num < MIDI_MIN || midi_num > MIDI_MAX {
            proof { reveal_strlit(" is outside of MIDI note range (0-127)"); }
            let text = decimal(midi_num);
            return Err(ScaleError { message: text.concat(" is outside of MIDI note range (0-127)") });
        }
        let delta_from_c4 = midi_num - MIDI_MIDDLE_C;
        let pos = midi_num % 12;
        let octave = midi_num / 12 - 1;
        assert(pos == delta_from_c4 % 12);
        assert(octave == 4 + delta_from_c4 / 12);
        match LetterNote::from_num(pos) {
            Ok(letter) => Ok(Note { letter, octave }),
            Err(e) => Err(e),
        }
    }

    /// The printed name of the note (`C#4`).
    pub fn name(&self) -> (r: String)
        ensures
            r@ == note_name(*self),
    {
        let text = decimal(self.octave);
        self.letter.name().concat(text.as_str())
    }
}

} // verus!
