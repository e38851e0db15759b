use crossbeam_channel::{bounded, unbounded, Receiver, Sender};
use synth::events::{decode_event, NoteEvent, NOTE_OFF, NOTE_ON};
use synth::registry::{Pull, VoiceRegistry};
use synth::scale::{LetterNote, Note};

fn note(letter: LetterNote, octave: i32) -> Note {
    Note { letter, octave }
}

fn voice(samples: &[i32]) -> (Receiver<i32>, Sender<i32>, Sender<u8>, Receiver<u8>) {
    let (tx, rx) = unbounded::<i32>();
    let (rel_tx, rel_rx) = unbounded::<u8>();
    for s in samples {
        tx.send(*s).unwrap();
    }
    (rx, tx, rel_tx, rel_rx)
}

fn count(notes: &[Note], n: Note) -> usize {
    notes.iter().filter(|x| **x == n).count()
}

#[test]
fn silence_without_voices() {
    let mut reg = VoiceRegistry::new();
    assert_eq!(reg.tick(4), vec![0, 0, 0, 0]);
}

#[test]
fn two_voices_sum() {
    let a4 = note(LetterNote::A, 4);
    let c4 = note(LetterNote::C, 4);

    let single = |n: Note, s: &[i32]| {
        let mut reg = VoiceRegistry::new();
        let (rx, _tx, rel, _rel_rx) = voice(s);
        reg.note_on(n, rx, rel).unwrap();
        reg.tick(3)
    };
    let a = single(a4, &[1, -2, 3]);
    let c = single(c4, &[10, 20, -30]);

    let mut reg = VoiceRegistry::new();
    let (rx1, _tx1, rel1, _r1) = voice(&[1, -2, 3]);
    let (rx2, _tx2, rel2, _r2) = voice(&[10, 20, -30]);
    reg.note_on(a4, rx1, rel1).unwrap();
    reg.note_on(c4, rx2, rel2).unwrap();
    let both = reg.tick(3);
    assert_eq!(both, vec![11, 18, -27]);
    for k in 0..3 {
        assert_eq!(both[k], a[k] + c[k]);
    }
}

#[test]
fn no_gain_compensation() {
    let mut reg = VoiceRegistry::new();
    let (rx1, _t1, rel1, _r1) = voice(&[i32::MAX]);
    let (rx2, _t2, rel2, _r2) = voice(&[i32::MAX]);
    reg.note_on(note(LetterNote::C, 4), rx1, rel1).unwrap();
    reg.note_on(note(LetterNote::D, 4), rx2, rel2).unwrap();
    assert_eq!(reg.tick(1), vec![2 * i32::MAX as i128]);
}

#[test]
fn slow_producer_gives_silence() {
    let mut reg = VoiceRegistry::new();
    let (rx, tx, rel, _r) = voice(&[5]);
    reg.note_on(note(LetterNote::E, 4), rx, rel).unwrap();
    assert_eq!(reg.tick(3), vec![5, 0, 0]);
    tx.send(7).unwrap();
    assert_eq!(reg.tick(2), vec![7, 0]);
    assert_eq!(reg.active_notes().len(), 1);
}

#[test]
fn closed_voice_evicted() {
    let e4 = note(LetterNote::E, 4);
    let mut reg = VoiceRegistry::new();
    let (rx, tx, rel, _r) = voice(&[4, 4]);
    reg.note_on(e4, rx, rel).unwrap();
    drop(tx);
    assert_eq!(reg.tick(4), vec![4, 4, 0, 0]);
    assert!(reg.active_notes().is_empty());
    assert!(reg.held_notes().is_empty());
    assert!(reg.note_off(e4).is_none());
    assert_eq!(reg.tick(2), vec![0, 0]);
}

#[test]
fn repress_keeps_one_entry() {
    let g4 = note(LetterNote::G, 4);
    let mut reg = VoiceRegistry::new();
    let (rx1, tx1, rel1, rel_rx1) = voice(&[1]);
    let (rx2, _tx2, rel2, rel_rx2) = voice(&[2, 2, 2]);
    let first = reg.note_on(g4, rx1, rel1).unwrap();
    let second = reg.note_on(g4, rx2, rel2).unwrap();
    assert!(first != second);
    assert_eq!(count(&reg.held_notes(), g4), 1);
    assert_eq!(count(&reg.active_notes(), g4), 2);
    // the old voice closes; the new one keeps its trigger
    drop(tx1);
    assert_eq!(reg.tick(2), vec![3, 2]);
    assert_eq!(count(&reg.active_notes(), g4), 1);
    assert_eq!(count(&reg.held_notes(), g4), 1);
    assert_eq!(reg.note_off(g4), Some((g4, second)));
    assert!(rel_rx2.try_recv().is_ok());
    assert!(rel_rx1.try_recv().is_err());
}

#[test]
fn release_of_unknown_note() {
    let mut reg = VoiceRegistry::new();
    assert!(reg.note_off(note(LetterNote::B, 2)).is_none());
}

#[test]
fn release_twice() {
    let a4 = note(LetterNote::A, 4);
    let mut reg = VoiceRegistry::new();
    let (rx, _tx, rel, rel_rx) = voice(&[]);
    reg.note_on(a4, rx, rel).unwrap();
    assert!(reg.note_off(a4).is_some());
    assert!(reg.note_off(a4).is_some());
    assert_eq!(rel_rx.try_iter().count(), 2);
    assert_eq!(reg.held_notes(), vec![a4]);
}

#[test]
fn mix_with_given_pulls() {
    let mut reg = VoiceRegistry::new();
    let (rx1, _t1, rel1, _r1) = voice(&[]);
    let (rx2, _t2, rel2, _r2) = voice(&[]);
    let (rx3, _t3, rel3, _r3) = voice(&[]);
    reg.note_on(note(LetterNote::C, 4), rx1, rel1).unwrap();
    reg.note_on(note(LetterNote::D, 4), rx2, rel2).unwrap();
    reg.note_on(note(LetterNote::E, 4), rx3, rel3).unwrap();
    let got = reg.mix(&vec![Pull::Frame(3), Pull::Closed, Pull::Empty]);
    assert_eq!(got, 3);
    assert_eq!(reg.active_notes(), vec![note(LetterNote::C, 4), note(LetterNote::E, 4)]);
    assert_eq!(reg.held_notes(), vec![note(LetterNote::C, 4), note(LetterNote::E, 4)]);
}

#[test]
fn events_decode() {
    let a4 = note(LetterNote::A, 4);
    assert!(decode_event(NOTE_ON, 69, 127).unwrap() == NoteEvent::Press { note: a4, pressure: 127 });
    assert!(decode_event(NOTE_ON, 69, 0).unwrap() == NoteEvent::Release { note: a4 });
    assert!(decode_event(NOTE_OFF, 69, 40).unwrap() == NoteEvent::Release { note: a4 });
    assert!(decode_event(0xB0, 7, 100).unwrap() == NoteEvent::Other);
    assert!(decode_event(NOTE_ON, 200, 1).is_err());
}

#[test]
fn release_never_blocks() {
    let f4 = note(LetterNote::F, 4);
    let a4 = note(LetterNote::A, 4);
    let mut reg = VoiceRegistry::new();
    // a trigger nobody is receiving on at the moment
    let (rx1, _t1) = {
        let (tx, rx) = unbounded::<i32>();
        (rx, tx)
    };
    let (zero_tx, zero_rx) = bounded::<u8>(0);
    reg.note_on(f4, rx1, zero_tx).unwrap();
    assert!(reg.note_off(f4).is_some());
    assert!(reg.note_off(f4).is_some());
    assert!(zero_rx.try_recv().is_err());
    // a trigger that already holds a pending release
    let (rx2, _t2) = {
        let (tx, rx) = unbounded::<i32>();
        (rx, tx)
    };
    let (one_tx, one_rx) = bounded::<u8>(1);
    reg.note_on(a4, rx2, one_tx).unwrap();
    assert!(reg.note_off(a4).is_some());
    assert!(reg.note_off(a4).is_some());
    assert_eq!(one_rx.try_iter().count(), 1);
}
