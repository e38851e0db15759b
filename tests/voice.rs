use synth::envelope::{apply_gain, cycle_length, render_segment, Segment};
use synth::voice::{Action, Control, ControlOp, Stage, Voice, VoiceError, VoiceSession, CHUNK_NANOS, CHUNK_SAMPLES};

const MS: u64 = 1_000_000;
// 0.8 of unity
const SUSTAIN: u64 = 52428;

fn instrument() -> Voice {
    Voice::new(5 * MS, 500 * MS, SUSTAIN, 1000 * MS)
}

fn test_cycle(len: usize) -> Vec<i32> {
    (0..len as i32).map(|i| (i - len as i32 / 2) * 1000).collect()
}

fn emitted(a: Action) -> Vec<i32> {
    match a {
        Action::Emit(v) => v,
        _ => panic!("expected samples"),
    }
}

fn run_to_close(s: &mut VoiceSession, now: u64) -> usize {
    let mut total = 0;
    loop {
        match s.step(now) {
            Action::Emit(v) => total += v.len(),
            Action::WaitUntil(_) => panic!("held"),
            Action::Close => return total,
        }
    }
}

#[test]
fn control_getters() {
    let c = Control::new(ControlOp::Sustain, 480);
    assert!(c.get_op() == ControlOp::Sustain);
    assert_eq!(c.get_chunk_size(), 480);
}

#[test]
fn degenerate_cycle_refused() {
    let v = instrument();
    assert!(matches!(v.press(vec![5]), Err(VoiceError::DegenerateCycle)));
    assert!(matches!(v.press(vec![]), Err(VoiceError::DegenerateCycle)));
    assert!(v.press(vec![1, 2]).is_ok());
}

#[test]
fn phases_in_order() {
    let v = instrument();
    let mut s = v.press(test_cycle(109)).ok().unwrap();
    assert!(s.stage() == Stage::Attack);
    assert_eq!(emitted(s.step(0)).len(), 240);
    assert!(s.stage() == Stage::Decay);
    assert_eq!(emitted(s.step(0)).len(), 24000);
    assert!(s.stage() == Stage::Sustain);
}

#[test]
fn a4_reaches_sustain_level() {
    // A4 at full pressure: one cycle of a 440 Hz tone
    let len = cycle_length(440_000).unwrap() as usize;
    let cycle = test_cycle(len);
    let mut s = instrument().press(cycle.clone()).ok().unwrap();
    let attack = emitted(s.step(0));
    let decay = emitted(s.step(0));
    let first = (attack.len() + decay.len()) % len;
    // the last decay gain is within one step of the sustain level
    let last = decay.len() - 1;
    let pos = (attack.len() + last) % len;
    let g = synth::envelope::segment_gain(Segment::Decay, last as u64, decay.len() as u64, SUSTAIN);
    assert!(g.abs_diff(SUSTAIN) <= 1);
    assert_eq!(decay[last], apply_gain(cycle[pos], g));
    // the first sustain chunk is the cycle at exactly the sustain level
    assert!(matches!(s.step(0), Action::WaitUntil(t) if t == 505 * MS));
    let chunk = emitted(s.step(505 * MS));
    assert_eq!(chunk.len(), CHUNK_SAMPLES);
    for (k, x) in chunk.iter().enumerate() {
        assert_eq!(*x, apply_gain(cycle[(first + k) % len], SUSTAIN));
    }
}

#[test]
fn c4_released_at_once() {
    let len = cycle_length(261_626).unwrap() as usize;
    let mut s = instrument().press(test_cycle(len)).ok().unwrap();
    s.request_release();
    assert_eq!(run_to_close(&mut s, 0), 240 + 24000 + 48000);
    assert!(s.stage() == Stage::Terminated);
    assert!(matches!(s.step(0), Action::Close));
}

#[test]
fn held_note_keeps_sustaining() {
    let mut s = instrument().press(test_cycle(50)).ok().unwrap();
    s.step(0);
    s.step(0);
    let mut now = 505 * MS;
    for _ in 0..200 {
        assert!(s.stage() == Stage::Sustain);
        assert_eq!(emitted(s.step(now)).len(), CHUNK_SAMPLES);
        assert!(matches!(s.step(now), Action::WaitUntil(t) if t == now + CHUNK_NANOS));
        now += CHUNK_NANOS;
    }
    assert!(s.stage() == Stage::Sustain);
}

#[test]
fn release_during_sustain() {
    let mut s = instrument().press(test_cycle(50)).ok().unwrap();
    s.step(0);
    s.step(0);
    emitted(s.step(505 * MS));
    s.request_release();
    let release = emitted(s.step(505 * MS));
    assert_eq!(release.len(), 48000);
    assert!(s.stage() == Stage::Release);
    assert!(matches!(s.step(0), Action::Close));
}

#[test]
fn double_release_same_as_single() {
    let collect = |twice: bool| {
        let mut s = instrument().press(test_cycle(77)).ok().unwrap();
        let mut out = Vec::new();
        out.extend(emitted(s.step(0)));
        s.request_release();
        if twice {
            s.request_release();
        }
        loop {
            match s.step(600 * MS) {
                Action::Emit(v) => out.extend(v),
                Action::WaitUntil(_) => panic!("held"),
                Action::Close => break,
            }
            if twice {
                s.request_release();
            }
        }
        out
    };
    assert_eq!(collect(true), collect(false));
}

#[test]
fn release_segment_matches_renderer() {
    let cycle = test_cycle(31);
    let mut s = instrument().press(cycle.clone()).ok().unwrap();
    s.step(0);
    s.step(0);
    s.request_release();
    let release = emitted(s.step(0));
    let phase = (240 + 24000) % 31;
    assert_eq!(release, render_segment(&cycle, phase, Segment::Release, 48000, SUSTAIN));
    assert!(release[0].abs() <= cycle[phase].abs());
}
