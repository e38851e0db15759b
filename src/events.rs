//! Note events as they arrive from a MIDI input: a status byte, a note
//! number and a pressure.

use crate::scale::{note_of_midi, Note, ScaleError, MIDI_MAX};
use vstd::prelude::*;

verus! {

/// Status byte of a note-on message on the first channel.
pub const NOTE_ON: u8 = 144;

/// Status byte of a note-off message on the first channel.
pub const NOTE_OFF: u8 = 128;

/// What an incoming message asks of the voices.
#[derive(Copy, Clone, Debug, PartialEq, Eq, Structural)]
pub enum NoteEvent {
    /// Start a voice for `note`, at `pressure` out of 127.
    Press { note: Note, pressure: u8 },
    /// Release the voice of `note`.
    Release { note: Note },
    /// A message that concerns no note; it is ignored.
    Other,
}

/// Decodes a message. A note-on with pressure 0 is a release; a note
/// number outside the MIDI range is rejected.
pub fn decode_event(status: u8, number: u8, pressure: u8) -> (r: Result<NoteEvent, ScaleError>)
    ensures
        status != NOTE_ON && status != NOTE_OFF ==> r == Ok::<NoteEvent, ScaleError>(NoteEvent::Other),
        (status == NOTE_ON || status == NOTE_OFF) ==> {
            &&& r is Err <==> number > MIDI_MAX
            &&& r is Ok && status == NOTE_ON && pressure > 0 ==> r->Ok_0 == (NoteEvent::Press {
                note: note_of_midi(number as int),
                pressure,
            })
            &&& r is Ok && (status == NOTE_OFF || pressure == 0) ==> r->Ok_0 == (NoteEvent::Release {
                note: note_of_midi(number as int),
            })
        },
{
    if status != NOTE_ON && status != NOTE_OFF {
        return Ok(NoteEvent::Other);
    }
    match Note::from_midi_num(number as i32) {
        Ok(note) => {
            if status == NOTE_ON && pressure > 0 {
                Ok(NoteEvent::Press { note, pressure })
            } else {
                Ok(NoteEvent::Release { note })
            }
        },
        Err(e) => Err(e),
    }
}

} // verus!
